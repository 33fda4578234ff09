//! A phase-accumulator oscillator. The phase is a `u32` counting fractions of
//! one cycle; the waveform value at a phase is the caller's to evaluate.
use vstd::prelude::*;
use vstd::arithmetic::div_mod::{lemma_add_mod_noop, lemma_mod_multiples_vanish};
use vstd::arithmetic::mul::lemma_mul_is_distributive_add;
use crate::sample::{between, interpolate};

verus! {

/// One full cycle of phase.
pub open spec fn cycle() -> int {
    0x1_0000_0000
}

/// Frequencies are counted in units of `1 / FREQ_ONE` Hz.
pub const FREQ_ONE: u64 = 65536;

/// A frequency that the oscillator plays: above zero and below the sample
/// rate divided by 2.1, a margin under the Nyquist limit.
pub open spec fn freq_valid(freq: int, sample_rate: int) -> bool {
    freq > 0 && 21 * freq < 10 * sample_rate * FREQ_ONE
}

/// The phase advance per sample for `freq`: `freq / sample_rate` cycles,
/// rounded down.
pub open spec fn increment_for(freq: int, sample_rate: int) -> int {
    (freq * (cycle() / (FREQ_ONE as int))) / sample_rate
}

/// The phase `n` samples after `pos`.
pub open spec fn phase_at(pos: int, inc: int, n: int) -> int {
    (pos + n * inc) % cycle()
}

/// The number of entries in a wavetable: one cycle of the waveform, sampled
/// at evenly spaced phases.
pub const WAVE_LEN: usize = 4096;

/// The phase span between two wavetable entries.
pub const WAVE_STEP: u32 = 0x10_0000;

/// The waveform at `phase`: linear interpolation between the two wavetable
/// entries around it, the last entry leading back to the first.
pub open spec fn wave_at(table: Seq<i32>, phase: int) -> int {
    let idx = phase / (WAVE_STEP as int);
    between(
        table[idx] as int,
        table[(idx + 1) % (WAVE_LEN as int)] as int,
        phase % (WAVE_STEP as int),
        WAVE_STEP as int,
    )
}

/// The waveform value at `phase`.
pub fn wave_at_phase(table: &Vec<i32>, phase: u32) -> (r: i32)
    requires
        table@.len() == WAVE_LEN,
    ensures
        r == wave_at(table@, phase as int),
{
    let idx: u32 = phase / WAVE_STEP;
    let frac: u32 = phase % WAVE_STEP;
    let next: usize = ((idx as usize) + 1) % WAVE_LEN;
    interpolate(table[idx as usize], table[next], frac, WAVE_STEP)
}

/// The block that an oscillator in state `m` renders from `table`.
pub open spec fn osc_block(m: OscModel, table: Seq<i32>, len: nat) -> Seq<i32> {
    Seq::new(len, |k: int| wave_at(table, phase_at(m.pos as int, m.inc as int, k)) as i32)
}

/// An oscillator `len` samples later.
pub open spec fn advanced(m: OscModel, len: nat) -> OscModel {
    OscModel { pos: phase_at(m.pos as int, m.inc as int, len as int) as nat, ..m }
}

pub struct OscModel {
    pub pos: nat,
    pub inc: nat,
    pub sample_rate: nat,
}

/// The oscillator after a change of frequency to `freq`: a valid frequency
/// replaces the increment and keeps the phase; any other silences it.
pub open spec fn retuned(m: OscModel, freq: int) -> OscModel {
    if freq_valid(freq, m.sample_rate as int) {
        OscModel { inc: increment_for(freq, m.sample_rate as int) as nat, ..m }
    } else {
        OscModel { pos: 0, inc: 0, ..m }
    }
}

/// The increment that a valid frequency gets is the largest whose pitch
/// (`inc * sample_rate / 2^32` Hz) does not exceed the frequency asked for:
/// the pitch played falls short of it by less than `sample_rate / 2^32` Hz.
pub proof fn lemma_increment_accuracy(freq: int, sample_rate: int)
    requires
        sample_rate > 0,
        freq_valid(freq, sample_rate),
    ensures
        increment_for(freq, sample_rate) * sample_rate <= freq * FREQ_ONE,
        freq * FREQ_ONE < (increment_for(freq, sample_rate) + 1) * sample_rate,
        0 < increment_for(freq, sample_rate) + 1,
        increment_for(freq, sample_rate) < cycle(),
{
    let i = increment_for(freq, sample_rate);
    assert(cycle() / (FREQ_ONE as int) == 65536);
    assert(i == (freq * 65536) / sample_rate);
    assert(i * sample_rate <= freq * 65536 < (i + 1) * sample_rate) by (nonlinear_arith)
        requires
            i == (freq * 65536) / sample_rate,
            sample_rate > 0,
    ;
    assert(0 <= i < 0x1_0000_0000) by (nonlinear_arith)
        requires
            i == (freq * 65536) / sample_rate,
            sample_rate > 0,
            freq > 0,
            21 * freq < 10 * sample_rate * 65536,
    ;
}

/// Steady state: when `period` samples advance the phase by a whole number
/// of cycles, the phases (and so the samples) repeat with that period.
pub proof fn lemma_phase_periodic(pos: int, inc: int, n: int, period: int, cycles: int)
    requires
        0 <= pos,
        0 <= inc,
        0 <= n,
        0 <= period,
        period * inc == cycles * cycle(),
    ensures
        phase_at(pos, inc, n + period) == phase_at(pos, inc, n),
{
    assert((n + period) * inc == n * inc + period * inc) by (nonlinear_arith);
    assert(pos + (n + period) * inc == cycle() * cycles + (pos + n * inc));
    lemma_mod_multiples_vanish(cycles, pos + n * inc, cycle());
}

/// The same for the rendered samples: in a block from an oscillator whose
/// increment makes `period` samples a whole number of cycles, every sample
/// equals the one `period` samples later.
pub proof fn lemma_block_periodic(
    m: OscModel,
    table: Seq<i32>,
    len: nat,
    period: int,
    cycles: int,
)
    requires
        0 <= period,
        period * m.inc == cycles * cycle(),
    ensures
        forall|k: int|
            0 <= k && k + period < len ==> #[trigger] osc_block(m, table, len)[k + period]
                == osc_block(m, table, len)[k],
{
    assert forall|k: int| 0 <= k && k + period < len implies #[trigger] osc_block(
        m,
        table,
        len,
    )[k + period] == osc_block(m, table, len)[k] by {
        lemma_phase_periodic(m.pos as int, m.inc as int, k, period, cycles);
    }
}

/// A change of frequency adds no jump of phase: if `q` was the phase of the
/// last sample before the change, the first sample after it is taken one
/// ordinary step later, exactly where it would have been without the change.
pub proof fn lemma_retune_continuity(m: OscModel, q: int, freq: int)
    requires
        freq_valid(freq, m.sample_rate as int),
        m.pos == (q + m.inc) % cycle(),
    ensures
        phase_at(retuned(m, freq).pos as int, retuned(m, freq).inc as int, 0) == (q + m.inc) % cycle(),
{
    let r = retuned(m, freq);
    assert(0 * r.inc == 0);
}

struct PhaseIter {
    pos: u32,
    increment: u32,
    sample_rate: u32,
}

impl PhaseIter {
    fn new(sample_rate: u32) -> (r: PhaseIter)
        ensures
            r.pos == 0,
            r.increment == 0,
            r.sample_rate == sample_rate,
    {
        PhaseIter { pos: 0, increment: 0, sample_rate }
    }

    fn set_freq(&mut self, freq: u64)
        requires
            old(self).sample_rate > 0,
        ensures
            final(self).sample_rate == old(self).sample_rate,
            freq_valid(freq as int, old(self).sample_rate as int) ==> final(self).increment
                == increment_for(freq as int, old(self).sample_rate as int) && final(self).pos
                == old(self).pos,
            !freq_valid(freq as int, old(self).sample_rate as int) ==> final(self).increment == 0
                && final(self).pos == 0,
    {
        let sr = self.sample_rate as u64;
        if freq > 0 && freq < 0x8000_0000_0000 && 21 * freq < 10 * sr * FREQ_ONE {
            assert(freq * 65536 < 0x8000_0000_0000_0000u64) by (nonlinear_arith)
                requires
                    freq < 0x8000_0000_0000u64,
            ;
            let inc: u64 = (freq * 65536) / sr;
            assert(inc < 0x1_0000_0000u64) by (nonlinear_arith)
                requires
                    inc == (freq as int * 65536) / (sr as int),
                    21 * freq < 10 * sr * 65536,
                    sr > 0,
            ;
            self.increment = inc as u32;
        } else {
            assert(!freq_valid(freq as int, sr as int)) by (nonlinear_arith)
                requires
                    !(freq > 0 && freq < 0x8000_0000_0000u64 && 21 * freq < 10 * sr * 65536),
                    sr <= 0xffff_ffffu64,
            ;
            self.increment = 0;
            self.pos = 0;
        }
    }

    fn next(&mut self) -> (r: u32)
        ensures
            r == old(self).pos,
            final(self).pos == (old(self).pos + old(self).increment) % cycle(),
            final(self).increment == old(self).increment,
            final(self).sample_rate == old(self).sample_rate,
    {
        let pos = self.pos;
        self.pos = self.pos.wrapping_add(self.increment);
        pos
    }
}

pub struct Oscillator {
    phase: PhaseIter,
}

impl View for Oscillator {
    type V = OscModel;

    closed spec fn view(&self) -> OscModel {
        OscModel {
            pos: self.phase.pos as nat,
            inc: self.phase.increment as nat,
            sample_rate: self.phase.sample_rate as nat,
        }
    }
}

proof fn lemma_phase_next(pos: int, inc: int, n: int)
    requires
        0 <= pos,
        0 <= inc,
        0 <= n,
    ensures
        phase_at(pos, inc, n + 1) == (phase_at(pos, inc, n) + inc) % cycle(),
{
    lemma_mul_is_distributive_add(inc, n, 1);
    assert((n + 1) * inc == n * inc + inc) by (nonlinear_arith);
    lemma_add_mod_noop(pos + n * inc, inc, cycle());
    lemma_add_mod_noop(phase_at(pos, inc, n), inc, cycle());
    assert(phase_at(pos, inc, n) % cycle() == phase_at(pos, inc, n));
}

impl Oscillator {
    /// A silent oscillator (increment 0, phase 0) at `sample_rate`.
    pub fn new(sample_rate: u32) -> (r: Oscillator)
        requires
            sample_rate > 0,
        ensures
            r@ == (OscModel { pos: 0, inc: 0, sample_rate: sample_rate as nat }),
    {
        Oscillator { phase: PhaseIter::new(sample_rate) }
    }

    /// Sets the frequency, in units of `1 / FREQ_ONE` Hz. A valid frequency
    /// sets the increment and keeps the phase: a cycle spans the whole `u32`
    /// range at every frequency, so the position scaled into the new cycle is
    /// the position itself, and the waveform carries on from where it was.
    /// Any other frequency silences the oscillator and resets its phase.
    pub fn set_freq(&mut self, freq: u64)
        requires
            old(self)@.sample_rate > 0,
        ensures
            final(self)@.sample_rate == old(self)@.sample_rate,
            final(self)@ == retuned(old(self)@, freq as int),
    {
        self.phase.set_freq(freq);
    }

    /// Renders one block of `len` samples of the waveform in `table` and
    /// advances the oscillator past them.
    pub fn run(&mut self, table: &Vec<i32>, len: usize) -> (r: Vec<i32>)
        requires
            table@.len() == WAVE_LEN,
        ensures
            r@ == osc_block(old(self)@, table@, len as nat),
            final(self)@ == advanced(old(self)@, len as nat),
    {
        let ghost start = self@;
        let mut out: Vec<i32> = Vec::new();
        let mut k: usize = 0;
        proof {
            assert(phase_at(start.pos as int, start.inc as int, 0) == start.pos) by {
                assert(0 * start.inc == 0);
            }
        }
        while k < len
            invariant
                k <= len,
                table@.len() == WAVE_LEN,
                self@ == advanced(start, k as nat),
                out@.len() == k,
                forall|j: int|
                    0 <= j < k ==> #[trigger] out@[j] == osc_block(start, table@, len as nat)[j],
            decreases len - k,
        {
            proof {
                lemma_phase_next(start.pos as int, start.inc as int, k as int);
            }
            let p = self.phase.next();
            let v = wave_at_phase(table, p);
            out.push(v);
            k = k + 1;
        }
        assert(out@ == osc_block(start, table@, len as nat));
        out
    }
}

} // verus!
