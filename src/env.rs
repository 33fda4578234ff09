//! A linear attack/release gain shaper, there to keep notes from clicking.
use vstd::prelude::*;
use crate::sample::{scale_sample, scaled};

verus! {

/// Where an envelope is in its cycle.
#[derive(Clone, Copy, Debug, PartialEq, Eq, Structural)]
pub enum State {
    Off,
    Up,
    On,
    Down,
}

/// The abstract state of an envelope: its stage, its position on the ramp,
/// and the ramp's length in samples. Its gain is `pos / ramp`.
pub struct EnvModel {
    pub state: State,
    pub pos: nat,
    pub ramp: nat,
}

/// One sample of envelope time: the position climbs while attacking and falls
/// while releasing; reaching either end moves on to the next stage.
pub open spec fn step(m: EnvModel) -> EnvModel {
    match m.state {
        State::Up => if m.pos < m.ramp {
            EnvModel { pos: m.pos + 1, ..m }
        } else {
            EnvModel { state: State::On, ..m }
        },
        State::Down => if m.pos > 0 {
            EnvModel { pos: (m.pos - 1) as nat, ..m }
        } else {
            EnvModel { state: State::Off, ..m }
        },
        _ => m,
    }
}

/// `n` samples of envelope time.
pub open spec fn steps(m: EnvModel, n: nat) -> EnvModel
    decreases n,
{
    if n == 0 {
        m
    } else {
        step(steps(m, (n - 1) as nat))
    }
}

/// The state after `note_on`: attacking, from the current position (which is
/// zero when the envelope was idle).
pub open spec fn on_model(m: EnvModel) -> EnvModel {
    EnvModel { state: State::Up, pos: if m.state == State::Off { 0 } else { m.pos }, ramp: m.ramp }
}

/// The state after `note_off`: releasing, from the current position.
pub open spec fn off_model(m: EnvModel) -> EnvModel {
    EnvModel { state: State::Down, ..m }
}

/// A reachable envelope state: a non-empty ramp, a position on it, at rest
/// only at the bottom and sustaining only at the top.
pub open spec fn model_wf(m: EnvModel) -> bool {
    &&& 0 < m.ramp <= u32::MAX
    &&& m.pos <= m.ramp
    &&& m.state == State::Off ==> m.pos == 0
    &&& m.state == State::On ==> m.pos == m.ramp
}

/// The number of samples in a ramp of `time_ms` milliseconds.
pub open spec fn ramp_for(time_ms: u32, sample_rate: u32) -> int {
    (time_ms * sample_rate) / 1000
}

pub proof fn lemma_step_wf(m: EnvModel)
    requires
        model_wf(m),
    ensures
        model_wf(step(m)),
        step(m).ramp == m.ramp,
{
}

pub proof fn lemma_steps_wf(m: EnvModel, n: nat)
    requires
        model_wf(m),
    ensures
        model_wf(steps(m, n)),
        steps(m, n).ramp == m.ramp,
    decreases n,
{
    if n > 0 {
        lemma_steps_wf(m, (n - 1) as nat);
        lemma_step_wf(steps(m, (n - 1) as nat));
    }
}

proof fn lemma_attack_steps(m: EnvModel, n: nat)
    requires
        model_wf(m),
        m.state == State::Up,
        m.pos + n <= m.ramp,
    ensures
        steps(m, n) == (EnvModel { pos: m.pos + n, ..m }),
    decreases n,
{
    if n > 0 {
        lemma_attack_steps(m, (n - 1) as nat);
    }
}

proof fn lemma_release_steps(m: EnvModel, n: nat)
    requires
        model_wf(m),
        m.state == State::Down,
        n <= m.pos,
    ensures
        steps(m, n) == (EnvModel { pos: (m.pos - n) as nat, ..m }),
    decreases n,
{
    if n > 0 {
        lemma_release_steps(m, (n - 1) as nat);
    }
}

proof fn lemma_steps_add(m: EnvModel, a: nat, b: nat)
    ensures
        steps(m, a + b) == steps(steps(m, a), b),
    decreases b,
{
    if b > 0 {
        lemma_steps_add(m, a, (b - 1) as nat);
        assert((a + b - 1) as nat == a + (b - 1) as nat);
    }
}

/// An envelope at the bottom of its ramp and not attacking stays there.
pub proof fn lemma_rest_steps(m: EnvModel, n: nat)
    requires
        m.pos == 0,
        m.state == State::Down || m.state == State::Off,
    ensures
        steps(m, n).pos == 0,
        n > 0 ==> steps(m, n).state == State::Off,
    decreases n,
{
    if n > 0 {
        lemma_rest_steps(m, (n - 1) as nat);
    }
}

/// A full note on an idle envelope: `ramp` samples after `note_on` the
/// position is at the top of the ramp (gain 1); `ramp` samples after a
/// following `note_off` it is back at zero (gain 0), and it stays there for
/// as long as no new note comes.
pub proof fn lemma_note_cycle(m: EnvModel, extra: nat)
    requires
        model_wf(m),
        m.state == State::Off,
    ensures
        steps(on_model(m), m.ramp).pos == m.ramp,
        steps(off_model(steps(on_model(m), m.ramp)), m.ramp).pos == 0,
        steps(off_model(steps(on_model(m), m.ramp)), m.ramp + extra).pos == 0,
{
    let up = on_model(m);
    lemma_attack_steps(up, m.ramp);
    let top = steps(up, m.ramp);
    let down = off_model(top);
    lemma_release_steps(down, m.ramp);
    lemma_steps_add(down, m.ramp, extra);
    lemma_rest_steps(steps(down, m.ramp), extra);
}

/// A note that comes during the release resumes the attack from the current
/// position: the position never drops, and climbs by one per sample until
/// it reaches the top.
pub proof fn lemma_retrigger(m: EnvModel, n: nat)
    requires
        model_wf(m),
        m.state == State::Down,
        m.pos + n <= m.ramp,
    ensures
        on_model(m).pos == m.pos,
        steps(on_model(m), n).pos == m.pos + n,
{
    lemma_attack_steps(on_model(m), n);
}

pub struct Env {
    state: State,
    pos: u32,
    ramp_samples: u32,
}

impl View for Env {
    type V = EnvModel;

    closed spec fn view(&self) -> EnvModel {
        EnvModel { state: self.state, pos: self.pos as nat, ramp: self.ramp_samples as nat }
    }
}

impl Env {
    pub open spec fn wf(&self) -> bool {
        model_wf(self@)
    }

    /// An idle envelope whose ramps last `time_ms` milliseconds at
    /// `sample_rate`; the ramp must come to at least one sample and fit a `u32`.
    pub fn new(time_ms: u32, sample_rate: u32) -> (r: Env)
        requires
            1 <= ramp_for(time_ms, sample_rate) <= u32::MAX,
        ensures
            r.wf(),
            r@.state == State::Off,
            r@.pos == 0,
            r@.ramp == ramp_for(time_ms, sample_rate),
    {
        assert((time_ms as int) * (sample_rate as int) <= 0xffff_ffffu64 * 0xffff_ffffu64)
            by (nonlinear_arith)
            requires
                time_ms <= 0xffff_ffffu32,
                sample_rate <= 0xffff_ffffu32,
        ;
        let prod: u64 = (time_ms as u64) * (sample_rate as u64);
        let ramp: u64 = prod / 1000;
        Env { state: State::Off, pos: 0, ramp_samples: ramp as u32 }
    }

    /// Starts (or resumes) the attack.
    pub fn note_on(&mut self)
        requires
            old(self).wf(),
        ensures
            final(self).wf(),
            final(self)@ == on_model(old(self)@),
    {
        if self.state == State::Off {
            self.pos = 0;
        }
        self.state = State::Up;
    }

    /// Starts the release.
    pub fn note_off(&mut self)
        requires
            old(self).wf(),
        ensures
            final(self).wf(),
            final(self)@ == off_model(old(self)@),
    {
        self.state = State::Down;
    }

    pub fn state(&self) -> (r: State)
        ensures
            r == self@.state,
    {
        self.state
    }

    pub fn position(&self) -> (r: u32)
        ensures
            r == self@.pos,
    {
        self.pos
    }

    pub fn ramp_length(&self) -> (r: u32)
        ensures
            r == self@.ramp,
    {
        self.ramp_samples
    }

    /// Advances the state by one sample.
    fn update(&mut self)
        requires
            old(self).wf(),
        ensures
            final(self).wf(),
            final(self)@ == step(old(self)@),
    {
        match self.state {
            State::Up => {
                if self.pos < self.ramp_samples {
                    self.pos = self.pos + 1;
                } else {
                    self.state = State::On;
                }
            },
            State::Down => {
                if self.pos > 0 {
                    self.pos = self.pos - 1;
                } else {
                    self.state = State::Off;
                }
            },
            _ => {},
        }
    }

    /// Advances one sample and returns `sample_in` scaled by the new gain.
    pub fn process(&mut self, sample_in: i32) -> (r: i32)
        requires
            old(self).wf(),
        ensures
            final(self).wf(),
            final(self)@ == step(old(self)@),
            r == scaled(sample_in as int, final(self)@.pos as int, final(self)@.ramp as int),
    {
        self.update();
        scale_sample(sample_in, self.pos, self.ramp_samples)
    }

    /// Shapes one block: sample `k` of the result is `input[k]` scaled by the
    /// gain after `k + 1` samples of envelope time.
    pub fn run(&mut self, input: &Vec<i32>) -> (r: Vec<i32>)
        requires
            old(self).wf(),
        ensures
            final(self).wf(),
            final(self)@ == steps(old(self)@, input@.len()),
            r@.len() == input@.len(),
            forall|k: int|
                0 <= k < input@.len() ==> #[trigger] r@[k] == scaled(
                    input@[k] as int,
                    steps(old(self)@, (k + 1) as nat).pos as int,
                    old(self)@.ramp as int,
                ),
    {
        let ghost start = self@;
        let mut out: Vec<i32> = Vec::new();
        let mut k: usize = 0;
        while k < input.len()
            invariant
                self.wf(),
                k <= input@.len(),
                self@ == steps(start, k as nat),
                self@.ramp == start.ramp,
                out@.len() == k,
                forall|j: int|
                    0 <= j < k ==> #[trigger] out@[j] == scaled(
                        input@[j] as int,
                        steps(start, (j + 1) as nat).pos as int,
                        start.ramp as int,
                    ),
            decreases input@.len() - k,
        {
            let s = self.process(input[k]);
            out.push(s);
            k = k + 1;
        }
        out
    }
}

} // verus!
