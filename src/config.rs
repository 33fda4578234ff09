//! What an engine is built from: its settings and its two lookup tables.
use vstd::prelude::*;
use crate::env::ramp_for;
use crate::oscillator::WAVE_LEN;

verus! {

/// The number of notes, and so of entries in a pitch table.
pub const NUM_NOTES: usize = 128;

/// A setting that cannot make a working engine.
#[derive(Clone, Copy, Debug, PartialEq, Eq, Structural)]
pub enum ConfigError {
    ZeroSampleRate,
    ZeroBlockSize,
    ZeroPolyphony,
    ZeroThreads,
    /// The envelope ramp comes to less than one sample.
    RampTooShort,
    /// The envelope ramp comes to more samples than a `u32` counts.
    RampTooLong,
    /// A wavetable that does not hold `WAVE_LEN` entries.
    WaveTableLength,
    /// A pitch table that does not hold `NUM_NOTES` entries.
    PitchTableLength,
}

/// The settings of an engine, fixed for its lifetime.
#[derive(Clone, Copy, Debug, PartialEq, Eq, Structural)]
pub struct Config {
    /// Samples per second.
    pub sample_rate: u32,
    /// Samples per audio block.
    pub block_size: usize,
    /// The number of voices.
    pub polyphony: usize,
    /// The number of groups the voices are split into, one per worker
    /// thread (1 for a single thread).
    pub threads: usize,
    /// The length of the envelope's attack and release, in milliseconds.
    pub ramp_ms: u32,
}

impl Config {
    pub open spec fn valid(&self) -> bool {
        &&& self.sample_rate > 0
        &&& self.block_size > 0
        &&& self.polyphony > 0
        &&& self.threads > 0
        &&& 1 <= ramp_for(self.ramp_ms, self.sample_rate) <= u32::MAX
    }

    /// The first problem with a set of settings, checked in the order of the
    /// parameters; none if they are valid.
    pub open spec fn problem(
        sample_rate: u32,
        block_size: usize,
        polyphony: usize,
        threads: usize,
        ramp_ms: u32,
    ) -> Option<ConfigError> {
        if sample_rate == 0 {
            Some(ConfigError::ZeroSampleRate)
        } else if block_size == 0 {
            Some(ConfigError::ZeroBlockSize)
        } else if polyphony == 0 {
            Some(ConfigError::ZeroPolyphony)
        } else if threads == 0 {
            Some(ConfigError::ZeroThreads)
        } else if ramp_for(ramp_ms, sample_rate) < 1 {
            Some(ConfigError::RampTooShort)
        } else if ramp_for(ramp_ms, sample_rate) > u32::MAX {
            Some(ConfigError::RampTooLong)
        } else {
            None
        }
    }

    /// Checks a set of settings.
    pub fn new(
        sample_rate: u32,
        block_size: usize,
        polyphony: usize,
        threads: usize,
        ramp_ms: u32,
    ) -> (r: Result<Config, ConfigError>)
        ensures
            Self::problem(sample_rate, block_size, polyphony, threads, ramp_ms) matches Some(e)
                ==> r == Err::<Config, ConfigError>(e),
            Self::problem(sample_rate, block_size, polyphony, threads, ramp_ms) is None ==> r
                == Ok::<Config, ConfigError>(
                Config { sample_rate, block_size, polyphony, threads, ramp_ms },
            ),
            r matches Ok(c) ==> c.valid(),
    {
        if sample_rate == 0 {
            return Err(ConfigError::ZeroSampleRate);
        }
        if block_size == 0 {
            return Err(ConfigError::ZeroBlockSize);
        }
        if polyphony == 0 {
            return Err(ConfigError::ZeroPolyphony);
        }
        if threads == 0 {
            return Err(ConfigError::ZeroThreads);
        }
        assert((ramp_ms as int) * (sample_rate as int) <= 0xffff_ffffu64 * 0xffff_ffffu64)
            by (nonlinear_arith)
            requires
                ramp_ms <= 0xffff_ffffu32,
                sample_rate <= 0xffff_ffffu32,
        ;
        let ramp: u64 = ((ramp_ms as u64) * (sample_rate as u64)) / 1000;
        if ramp < 1 {
            return Err(ConfigError::RampTooShort);
        }
        if ramp > 0xffff_ffff {
            return Err(ConfigError::RampTooLong);
        }
        Ok(Config { sample_rate, block_size, polyphony, threads, ramp_ms })
    }
}

/// The number of voices in group `g`: an equal share each, the first group
/// also taking the remainder.
pub open spec fn group_size(c: Config, g: int) -> int {
    let p = c.polyphony as int;
    let t = c.threads as int;
    if g == 0 {
        p / t + p % t
    } else {
        p / t
    }
}

/// The index of the first voice of group `g`; groups hold consecutive voices.
pub open spec fn group_start(c: Config, g: int) -> int {
    let p = c.polyphony as int;
    let t = c.threads as int;
    if g == 0 {
        0
    } else {
        p / t + p % t + (g - 1) * (p / t)
    }
}

/// The groups tile the voices: each starts where the one before it ends,
/// and the last ends at the last voice.
pub proof fn lemma_groups_tile(c: Config, g: int)
    requires
        c.valid(),
        0 <= g < c.threads,
    ensures
        group_start(c, g) + group_size(c, g) == group_start(c, g + 1),
        0 <= group_start(c, g),
        group_size(c, g) >= 0,
        group_start(c, c.threads as int) == c.polyphony,
        group_start(c, g + 1) <= c.polyphony,
        c.polyphony == c.threads * (c.polyphony / c.threads) + c.polyphony % c.threads,
        c.polyphony / c.threads >= 0,
        0 <= c.polyphony % c.threads < c.threads,
{
    let p = c.polyphony as int;
    let t = c.threads as int;
    let q = p / t;
    let r = p % t;
    assert(p == t * q + r && q >= 0 && 0 <= r < t) by (nonlinear_arith)
        requires
            t > 0,
            p >= 0,
            q == p / t,
            r == p % t,
    ;
    assert(g * q >= 0) by (nonlinear_arith)
        requires
            g >= 0,
            q >= 0,
    ;
    if g == 0 {
        assert(group_start(c, 1) == q + r + 0 * q);
        assert(0 * q == 0);
    } else {
        assert((g - 1) * q + q == g * q) by (nonlinear_arith);
        assert((g - 1) * q >= 0) by (nonlinear_arith)
            requires
                g >= 1,
                q >= 0,
        ;
    }
    assert((t - 1) * q + q + r == p) by (nonlinear_arith)
        requires
            p == t * q + r,
    ;
    assert(g * q <= (t - 1) * q) by (nonlinear_arith)
        requires
            g <= t - 1,
            q >= 0,
    ;
}

impl Config {
    /// The number of voices in group `g`.
    pub fn group_size(&self, g: usize) -> (r: usize)
        requires
            self.valid(),
            g < self.threads,
        ensures
            r == group_size(*self, g as int),
    {
        proof {
            lemma_groups_tile(*self, g as int);
            lemma_groups_tile(*self, self.threads - 1);
        }
        if g == 0 {
            self.polyphony / self.threads + self.polyphony % self.threads
        } else {
            self.polyphony / self.threads
        }
    }

    /// The index of the first voice of group `g`.
    pub fn group_start(&self, g: usize) -> (r: usize)
        requires
            self.valid(),
            g <= self.threads,
        ensures
            r == group_start(*self, g as int),
    {
        if g == 0 {
            0
        } else {
            proof {
                lemma_groups_tile(*self, g - 1);
                lemma_groups_tile(*self, self.threads - 1);
                let p = self.polyphony as int;
                let t = self.threads as int;
                assert((g - 1) * (p / t) <= group_start(*self, g as int)) by (nonlinear_arith)
                    requires
                        p / t >= 0,
                        p % t >= 0,
                        group_start(*self, g as int) == p / t + p % t + (g - 1) * (p / t),
                ;
                assert(group_start(*self, g as int) <= p) by {
                    assert(group_start(*self, g as int) <= group_start(*self, t)) by (nonlinear_arith)
                        requires
                            g <= t,
                            p / t >= 0,
                            group_start(*self, g as int) == p / t + p % t + (g - 1) * (p / t),
                            group_start(*self, t) == p / t + p % t + (t - 1) * (p / t),
                    ;
                }
            }
            let share = self.polyphony / self.threads;
            share + self.polyphony % self.threads + (g - 1) * share
        }
    }

    /// The group that holds voice `v`, and `v`'s place in it.
    pub fn locate(&self, v: usize) -> (r: (usize, usize))
        requires
            self.valid(),
            v < self.polyphony,
        ensures
            r.0 < self.threads,
            r.1 < group_size(*self, r.0 as int),
            group_start(*self, r.0 as int) + r.1 == v,
    {
        proof {
            lemma_groups_tile(*self, 0);
            lemma_groups_tile(*self, self.threads - 1);
        }
        let share = self.polyphony / self.threads;
        let first = share + self.polyphony % self.threads;
        if v < first {
            (0, v)
        } else {
            let g = 1 + (v - first) / share;
            let l = (v - first) % share;
            proof {
                let p = self.polyphony as int;
                let t = self.threads as int;
                let d = (v - first) as int;
                let sh = share as int;
                assert(sh > 0) by (nonlinear_arith)
                    requires
                        v >= first,
                        v < p,
                        p == t * sh + p % t,
                        first == sh + p % t,
                        sh >= 0,
                        t > 0,
                ;
                assert(d == sh * (d / sh) + d % sh && 0 <= d % sh < sh)
                    by (nonlinear_arith)
                    requires
                        sh > 0,
                        d >= 0,
                ;
                assert(d / sh < t - 1) by (nonlinear_arith)
                    requires
                        sh > 0,
                        d >= 0,
                        d < p - first,
                        p == t * sh + p % t,
                        first == sh + p % t,
                        d == sh * (d / sh) + d % sh,
                        d % sh >= 0,
                ;
                assert((g - 1) * sh == sh * (d / sh)) by (nonlinear_arith)
                    requires
                        g - 1 == d / sh,
                ;
            }
            (g, l)
        }
    }
}

/// The two tables an engine plays from: one cycle of the waveform, and the
/// frequency of each note.
pub struct Tables {
    wave: Vec<i32>,
    pitches: Vec<u64>,
}

pub struct TablesModel {
    /// `WAVE_LEN` samples of one cycle, at evenly spaced phases from 0.
    pub wave: Seq<i32>,
    /// For each note number, its frequency in units of `1 / FREQ_ONE` Hz.
    pub pitches: Seq<u64>,
}

impl View for Tables {
    type V = TablesModel;

    closed spec fn view(&self) -> TablesModel {
        TablesModel { wave: self.wave@, pitches: self.pitches@ }
    }
}

impl Tables {
    pub open spec fn wf(&self) -> bool {
        self@.wave.len() == WAVE_LEN && self@.pitches.len() == NUM_NOTES
    }

    /// Takes a wavetable and a pitch table, refusing either if it has the
    /// wrong length (the wavetable is checked first).
    pub fn new(wave: Vec<i32>, pitches: Vec<u64>) -> (r: Result<Tables, ConfigError>)
        ensures
            wave@.len() != WAVE_LEN ==> r == Err::<Tables, ConfigError>(
                ConfigError::WaveTableLength,
            ),
            wave@.len() == WAVE_LEN && pitches@.len() != NUM_NOTES ==> r == Err::<
                Tables,
                ConfigError,
            >(ConfigError::PitchTableLength),
            r matches Ok(t) ==> t.wf() && t@.wave == wave@ && t@.pitches == pitches@,
            wave@.len() == WAVE_LEN && pitches@.len() == NUM_NOTES ==> r is Ok,
    {
        if wave.len() != WAVE_LEN {
            return Err(ConfigError::WaveTableLength);
        }
        if pitches.len() != NUM_NOTES {
            return Err(ConfigError::PitchTableLength);
        }
        Ok(Tables { wave, pitches })
    }

    pub fn wave(&self) -> (r: &Vec<i32>)
        ensures
            r@ == self@.wave,
    {
        &self.wave
    }

    /// The frequency of `note`.
    pub fn pitch(&self, note: u8) -> (r: u64)
        requires
            self.wf(),
            note < NUM_NOTES,
        ensures
            r == self@.pitches[note as int],
    {
        self.pitches[note as usize]
    }
}

} // verus!
