//! One monophonic voice: a bank of harmonically tuned oscillators, a mixer
//! over them (the drawbars) and an envelope.
use vstd::prelude::*;
use crate::config::{Config, Tables};
use crate::env::{Env, EnvModel, State, lemma_rest_steps, model_wf, off_model, on_model, ramp_for, steps};
use crate::message::Message;
use crate::mixer::{Mixer, block_views, mixed, sources};
use crate::oscillator::{Oscillator, OscModel, advanced, osc_block, retuned};
use crate::sample::scaled;

verus! {

/// The number of oscillators in a voice.
pub const NUM_OSCS: usize = 9;

/// The largest gain of one drawbar: a quarter.
pub const MIX_MAX: u32 = 1270;

/// The pitch of oscillator `i` relative to the note, as a fraction
/// (numerator, denominator): a sub-octave, a sharpened fifth, then the
/// fundamental and harmonics 2, 3, 4, 5, 6 and 8.
pub open spec fn harmonic(i: int) -> (int, int) {
    if i == 0 {
        (1, 2)
    } else if i == 1 {
        (16, 11)
    } else if i == 2 {
        (1, 1)
    } else if i == 3 {
        (2, 1)
    } else if i == 4 {
        (3, 1)
    } else if i == 5 {
        (4, 1)
    } else if i == 6 {
        (5, 1)
    } else if i == 7 {
        (6, 1)
    } else {
        (8, 1)
    }
}

fn harmonic_ratio(i: usize) -> (r: (u64, u64))
    ensures
        r.0 == harmonic(i as int).0,
        r.1 == harmonic(i as int).1,
{
    if i == 0 {
        (1, 2)
    } else if i == 1 {
        (16, 11)
    } else if i == 2 {
        (1, 1)
    } else if i == 3 {
        (2, 1)
    } else if i == 4 {
        (3, 1)
    } else if i == 5 {
        (4, 1)
    } else if i == 6 {
        (5, 1)
    } else if i == 7 {
        (6, 1)
    } else {
        (8, 1)
    }
}

/// The frequency of oscillator `i` for a note whose fundamental is `base`.
pub open spec fn harmonic_freq(base: int, i: int) -> int {
    base * harmonic(i).0 / harmonic(i).1
}

/// The gain of each oscillator when a voice is made: fractions 1, 0.6, 0.1,
/// 0.4, 0.1, 0.4, 0.1, 0.1, 0.1 of `MIX_MAX`.
pub open spec fn default_level(i: int) -> u32 {
    if i == 0 {
        1270
    } else if i == 1 {
        762
    } else if i == 3 || i == 5 {
        508
    } else {
        127
    }
}

/// The drawbar that a controller number moves, if any.
pub open spec fn drawbar_slot(control: u8) -> Option<int> {
    if control == 2 {
        Some(0)
    } else if control == 3 {
        Some(1)
    } else if control == 4 {
        Some(2)
    } else if control == 5 {
        Some(3)
    } else if control == 6 {
        Some(4)
    } else if control == 8 {
        Some(5)
    } else if control == 9 {
        Some(6)
    } else if control == 12 {
        Some(7)
    } else if control == 13 {
        Some(8)
    } else {
        None
    }
}

fn drawbar_for(control: u8) -> (r: Option<usize>)
    ensures
        r matches Some(s) ==> drawbar_slot(control) == Some(s as int),
        r is None ==> drawbar_slot(control) is None,
{
    match control {
        2 => Some(0),
        3 => Some(1),
        4 => Some(2),
        5 => Some(3),
        6 => Some(4),
        8 => Some(5),
        9 => Some(6),
        12 => Some(7),
        13 => Some(8),
        _ => None,
    }
}

/// The gain for a drawbar controller value, reversed so that a higher value
/// is quieter: `(127 - value) / 127` of `MIX_MAX`.
pub open spec fn drawbar_level(value: int) -> int {
    (127 - value) * 10
}

fn midi_to_mix_level(value: u8) -> (r: u32)
    requires
        value < 128,
    ensures
        r == drawbar_level(value as int),
{
    (127 - value as u32) * 10
}

pub struct VoiceModel {
    pub oscs: Seq<OscModel>,
    pub levels: Seq<u32>,
    pub env: EnvModel,
    pub note: Option<u8>,
    pub block_size: nat,
    pub sample_rate: nat,
}

/// A voice after it takes a message, with `pitches` as its pitch table.
pub open spec fn after_message(m: VoiceModel, msg: Message, pitches: Seq<u64>) -> VoiceModel {
    match msg {
        Message::NoteOn(_, n, _) => VoiceModel {
            oscs: Seq::new(
                m.oscs.len(),
                |i: int| retuned(m.oscs[i], harmonic_freq(pitches[n as int] as int, i)),
            ),
            env: on_model(m.env),
            note: Some(n),
            ..m
        },
        Message::NoteOff(_, n, _) => if m.note == Some(n) {
            VoiceModel { env: off_model(m.env), ..m }
        } else {
            m
        },
        Message::AllNotesOff(_) => VoiceModel { env: off_model(m.env), ..m },
        Message::ControlChange(_, c, v) => match drawbar_slot(c) {
            Some(s) => VoiceModel { levels: m.levels.update(s, drawbar_level(v as int) as u32), ..m },
            None => m,
        },
    }
}

/// The oscillators' blocks that a voice mixes.
pub open spec fn osc_blocks(m: VoiceModel, wave: Seq<i32>) -> Seq<Seq<i32>> {
    Seq::new(m.oscs.len(), |i: int| osc_block(m.oscs[i], wave, m.block_size))
}

/// The block a voice renders: the oscillators mixed through the drawbars,
/// each sample then scaled by the envelope's gain after it.
pub open spec fn voice_block(m: VoiceModel, wave: Seq<i32>) -> Seq<i32> {
    Seq::new(
        m.block_size,
        |k: int|
            scaled(
                mixed(sources(osc_blocks(m, wave), m.levels), k),
                steps(m.env, (k + 1) as nat).pos as int,
                m.env.ramp as int,
            ) as i32,
    )
}

/// A voice one block later.
pub open spec fn rendered(m: VoiceModel) -> VoiceModel {
    VoiceModel {
        oscs: Seq::new(m.oscs.len(), |i: int| advanced(m.oscs[i], m.block_size)),
        env: steps(m.env, m.block_size),
        ..m
    }
}

pub open spec fn voice_wf(m: VoiceModel) -> bool {
    &&& m.oscs.len() == NUM_OSCS
    &&& m.levels.len() == NUM_OSCS
    &&& m.sample_rate > 0
    &&& forall|i: int| 0 <= i < NUM_OSCS ==> (#[trigger] m.oscs[i]).sample_rate == m.sample_rate
    &&& model_wf(m.env)
}

/// A voice whose envelope has released to zero is silent: every sample of
/// its block is exactly zero, and one block later it is still at rest.
pub proof fn lemma_released_voice_silent(m: VoiceModel, wave: Seq<i32>)
    requires
        voice_wf(m),
        m.env.pos == 0,
        m.env.state == State::Down || m.env.state == State::Off,
    ensures
        voice_block(m, wave) == Seq::new(m.block_size, |k: int| 0i32),
        rendered(m).env.pos == 0,
        rendered(m).env.state == State::Down || rendered(m).env.state == State::Off,
{
    lemma_rest_steps(m.env, m.block_size);
    assert forall|k: int| 0 <= k < m.block_size implies #[trigger] voice_block(m, wave)[k] == 0i32 by {
        lemma_rest_steps(m.env, (k + 1) as nat);
        let x = mixed(sources(osc_blocks(m, wave), m.levels), k);
        assert(x * 0 == 0);
    }
    assert(voice_block(m, wave) =~= Seq::new(m.block_size, |k: int| 0i32));
}

pub struct Voice {
    oscillators: Vec<Oscillator>,
    mixer: Mixer,
    env: Env,
    pitch: Option<u8>,
    sample_rate: u32,
}

impl View for Voice {
    type V = VoiceModel;

    closed spec fn view(&self) -> VoiceModel {
        VoiceModel {
            oscs: Seq::new(self.oscillators@.len(), |i: int| self.oscillators@[i]@),
            levels: self.mixer@.levels,
            env: self.env@,
            note: self.pitch,
            block_size: self.mixer@.block_size,
            sample_rate: self.sample_rate as nat,
        }
    }
}

impl Voice {
    pub open spec fn wf(&self) -> bool {
        voice_wf(self@)
    }

    /// A new voice, as `new` makes it.
    pub open spec fn new_model(config: &Config) -> VoiceModel {
        VoiceModel {
            oscs: Seq::new(
                NUM_OSCS as nat,
                |i: int| OscModel { pos: 0, inc: 0, sample_rate: config.sample_rate as nat },
            ),
            levels: Seq::new(NUM_OSCS as nat, |i: int| default_level(i)),
            env: EnvModel {
                state: State::Off,
                pos: 0,
                ramp: ramp_for(config.ramp_ms, config.sample_rate) as nat,
            },
            note: None,
            block_size: config.block_size as nat,
            sample_rate: config.sample_rate as nat,
        }
    }

    /// A silent voice: oscillators stopped, drawbars at their default
    /// registration, envelope idle, no note.
    pub fn new(config: &Config) -> (r: Voice)
        requires
            config.valid(),
        ensures
            r.wf(),
            r@ == Self::new_model(config),
    {
        let mut oscillators: Vec<Oscillator> = Vec::new();
        let mut i: usize = 0;
        while i < NUM_OSCS
            invariant
                i <= NUM_OSCS,
                config.valid(),
                oscillators@.len() == i,
                forall|j: int|
                    0 <= j < i ==> #[trigger] oscillators@[j]@ == (OscModel {
                        pos: 0,
                        inc: 0,
                        sample_rate: config.sample_rate as nat,
                    }),
            decreases NUM_OSCS - i,
        {
            oscillators.push(Oscillator::new(config.sample_rate));
            i = i + 1;
        }
        let levels: Vec<u32> = vec![1270, 762, 127, 508, 127, 508, 127, 127, 127];
        let mixer = Mixer::new(levels, config.block_size);
        let env = Env::new(config.ramp_ms, config.sample_rate);
        let r = Voice { oscillators, mixer, env, pitch: None, sample_rate: config.sample_rate };
        assert(r@.oscs =~= Seq::new(
            NUM_OSCS as nat,
            |i: int| OscModel { pos: 0, inc: 0, sample_rate: config.sample_rate as nat },
        ));
        assert(r@.levels =~= Seq::new(NUM_OSCS as nat, |i: int| default_level(i)));
        r
    }

    /// The note this voice was last given, if any.
    pub fn note(&self) -> (r: Option<u8>)
        ensures
            r == self@.note,
    {
        self.pitch
    }

    pub fn env(&self) -> (r: &Env)
        ensures
            r@ == self@.env,
    {
        &self.env
    }

    pub fn level(&self, slot: usize) -> (r: u32)
        requires
            self.wf(),
            slot < NUM_OSCS,
        ensures
            r == self@.levels[slot as int],
    {
        self.mixer.level(slot)
    }

    /// Tunes every oscillator to its harmonic of `base`.
    fn set_pitch(&mut self, base: u64)
        requires
            old(self).wf(),
        ensures
            final(self).wf(),
            final(self)@ == (VoiceModel {
                oscs: Seq::new(
                    NUM_OSCS as nat,
                    |i: int| retuned(old(self)@.oscs[i], harmonic_freq(base as int, i)),
                ),
                ..old(self)@
            }),
    {
        let ghost start = self@;
        let mut i: usize = 0;
        assert forall|j: int| 0 <= j < NUM_OSCS implies #[trigger] self.oscillators@[j]@ == start.oscs[j] by {}
        while i < NUM_OSCS
            invariant
                i <= NUM_OSCS,
                self.oscillators@.len() == NUM_OSCS,
                self.sample_rate == start.sample_rate,
                self.mixer == old(self).mixer,
                self.env == old(self).env,
                self.pitch == old(self).pitch,
                voice_wf(start),
                start == old(self)@,
                forall|j: int|
                    0 <= j < i ==> #[trigger] self.oscillators@[j]@ == retuned(
                        start.oscs[j],
                        harmonic_freq(base as int, j),
                    ),
                forall|j: int| i <= j < NUM_OSCS ==> #[trigger] self.oscillators@[j]@ == start.oscs[j],
                forall|j: int|
                    0 <= j < NUM_OSCS ==> (#[trigger] self.oscillators@[j]@).sample_rate
                        == start.sample_rate,
            decreases NUM_OSCS - i,
        {
            let (num, den) = harmonic_ratio(i);
            assert((base as u128) * (num as u128) <= 0xffff_ffff_ffff_ffffu128 * 16) by (nonlinear_arith)
                requires
                    base <= 0xffff_ffff_ffff_ffffu64,
                    num <= 16,
            ;
            let wide: u128 = ((base as u128) * (num as u128)) / (den as u128);
            let freq: u64 = if wide > 0xffff_ffff_ffff_ffff {
                0xffff_ffff_ffff_ffff
            } else {
                wide as u64
            };
            proof {
                assert(start.oscs[i as int] == self.oscillators@[i as int]@);
                let sr = start.sample_rate as int;
                assert(wide == harmonic_freq(base as int, i as int));
                if wide > 0xffff_ffff_ffff_ffffu64 {
                    assert(!crate::oscillator::freq_valid(freq as int, sr)) by (nonlinear_arith)
                        requires
                            freq == 0xffff_ffff_ffff_ffffu64,
                            sr <= 0xffff_ffffu32,
                    ;
                    assert(!crate::oscillator::freq_valid(wide as int, sr)) by (nonlinear_arith)
                        requires
                            wide > 0xffff_ffff_ffff_ffffu64,
                            sr <= 0xffff_ffffu32,
                    ;
                }
            }
            self.oscillators[i].set_freq(freq);
            i = i + 1;
        }
        assert(self@.oscs =~= Seq::new(
            NUM_OSCS as nat,
            |i: int| retuned(start.oscs[i], harmonic_freq(base as int, i)),
        ));
    }

    /// Moves a drawbar if `control` is one of the drawbar controllers.
    fn midi_control(&mut self, control: u8, value: u8)
        requires
            old(self).wf(),
            value < 128,
        ensures
            final(self).wf(),
            final(self)@ == after_message(old(self)@, Message::ControlChange(0, control, value), Seq::empty()),
    {
        match drawbar_for(control) {
            Some(slot) => {
                self.mixer.set_level(slot, midi_to_mix_level(value));
            },
            None => {},
        }
    }

    /// Takes one message: a note on tunes the oscillators to the note and
    /// starts the envelope; a note off releases the envelope if it is for the
    /// note this voice is playing; all notes off releases it whatever the
    /// note; a control change moves the drawbar it is mapped to.
    pub fn midi_message(&mut self, message: &Message, tables: &Tables)
        requires
            old(self).wf(),
            message.wf(),
            tables.wf(),
        ensures
            final(self).wf(),
            final(self)@ == after_message(old(self)@, *message, tables@.pitches),
    {
        match *message {
            Message::NoteOn(_, pitch, _) => {
                let base = tables.pitch(pitch);
                self.set_pitch(base);
                self.env.note_on();
                self.pitch = Some(pitch);
                proof {
                    let m = after_message(old(self)@, *message, tables@.pitches);
                    assert(self@.oscs =~= m.oscs);
                }
            },
            Message::NoteOff(_, pitch, _) => {
                if self.pitch == Some(pitch) {
                    self.env.note_off();
                }
            },
            Message::AllNotesOff(_) => {
                self.env.note_off();
            },
            Message::ControlChange(_, control, value) => {
                self.midi_control(control, value);
            },
        }
    }

    /// Renders one block: every oscillator, then the mixer, then the
    /// envelope.
    pub fn run(&mut self, tables: &Tables) -> (r: Vec<i32>)
        requires
            old(self).wf(),
            tables.wf(),
        ensures
            final(self).wf(),
            r@ == voice_block(old(self)@, tables@.wave),
            final(self)@ == rendered(old(self)@),
    {
        let ghost start = self@;
        let len = self.mixer.block_size();
        let wave = tables.wave();
        let mut blocks: Vec<Vec<i32>> = Vec::new();
        let mut i: usize = 0;
        assert forall|j: int| 0 <= j < NUM_OSCS implies #[trigger] self.oscillators@[j]@ == start.oscs[j] by {}
        while i < NUM_OSCS
            invariant
                i <= NUM_OSCS,
                wave@ == tables@.wave,
                tables.wf(),
                len == start.block_size,
                self.oscillators@.len() == NUM_OSCS,
                self.sample_rate == start.sample_rate,
                self.mixer == old(self).mixer,
                self.env == old(self).env,
                self.pitch == old(self).pitch,
                voice_wf(start),
                start == old(self)@,
                blocks@.len() == i,
                forall|j: int|
                    0 <= j < i ==> #[trigger] blocks@[j]@ == osc_block(start.oscs[j], wave@, len as nat),
                forall|j: int|
                    0 <= j < i ==> #[trigger] self.oscillators@[j]@ == advanced(start.oscs[j], len as nat),
                forall|j: int| i <= j < NUM_OSCS ==> #[trigger] self.oscillators@[j]@ == start.oscs[j],
                forall|j: int|
                    0 <= j < NUM_OSCS ==> (#[trigger] self.oscillators@[j]@).sample_rate
                        == start.sample_rate,
            decreases NUM_OSCS - i,
        {
            proof {
                assert(start.oscs[i as int] == self.oscillators@[i as int]@);
            }
            let b = self.oscillators[i].run(wave, len);
            blocks.push(b);
            i = i + 1;
        }
        assert(block_views(blocks@) =~= osc_blocks(start, wave@));
        let mixed_block = self.mixer.run(&blocks);
        let out = self.env.run(&mixed_block);
        proof {
            crate::env::lemma_steps_wf(start.env, len as nat);
            assert(out@ =~= voice_block(start, wave@));
            assert(self@.oscs =~= rendered(start).oscs);
        }
        out
    }
}

} // verus!
