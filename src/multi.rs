//! The voice pool: which voice plays which note, and the voices themselves.
use vstd::prelude::*;
use vstd::arithmetic::div_mod::{lemma_small_mod, lemma_mod_multiples_vanish};
use crate::config::{Config, Tables, TablesModel, group_size, group_start, lemma_groups_tile};
use crate::message::Message;
use crate::mixer::{Mixer, MixerModel, block_views, mixed, sources};
use crate::sample::LEVEL_ONE;
use crate::voice::{Voice, VoiceModel, after_message, rendered, voice_block};

verus! {

/// The abstract state of a note assignment table: the note each voice is
/// playing (none if it is free), and the voice that was assigned last.
pub struct ConnModel {
    pub notes: Seq<Option<u8>>,
    pub last: nat,
}

pub open spec fn conn_wf(m: ConnModel) -> bool {
    m.notes.len() > 0 && m.last < m.notes.len()
}

/// The first free voice among the voices `start + k`, `start + k + 1`, ...
/// up to one full turn from `start`, counting round the pool.
pub open spec fn scan(notes: Seq<Option<u8>>, start: int, k: int) -> Option<int>
    decreases notes.len() - k,
{
    if k < 0 || k >= notes.len() {
        None
    } else if notes[(start + k) % notes.len() as int] is None {
        Some((start + k) % notes.len() as int)
    } else {
        scan(notes, start, k + 1)
    }
}

/// The voice a new note goes to: the first free voice in round-robin order
/// after the last one assigned, or, when every voice is busy, the next one
/// in that order (its note is cut off).
pub open spec fn pick(m: ConnModel) -> int {
    let start = (m.last as int + 1) % (m.notes.len() as int);
    match scan(m.notes, start, 0) {
        Some(i) => i,
        None => start,
    }
}

/// The voices that play `note`, in increasing order, among the first `k`.
pub open spec fn holders(notes: Seq<Option<u8>>, note: u8, k: int) -> Seq<usize>
    decreases k,
{
    if k <= 0 {
        Seq::empty()
    } else if notes[k - 1] == Some(note) {
        holders(notes, note, k - 1).push((k - 1) as usize)
    } else {
        holders(notes, note, k - 1)
    }
}

/// The table after a message.
pub open spec fn routed(m: ConnModel, msg: Message) -> ConnModel {
    match msg {
        Message::NoteOn(_, n, _) => ConnModel {
            notes: m.notes.update(pick(m), Some(n)),
            last: pick(m) as nat,
        },
        Message::NoteOff(_, n, _) => ConnModel {
            notes: Seq::new(
                m.notes.len(),
                |i: int| if m.notes[i] == Some(n) { None } else { m.notes[i] },
            ),
            ..m
        },
        _ => m,
    }
}

/// The voices a message goes to: a note on to the voice picked for it, a
/// note off to every voice playing that note, a control change to all
/// voices, anything else to none.
pub open spec fn targets(m: ConnModel, msg: Message) -> Seq<usize> {
    match msg {
        Message::NoteOn(_, _, _) => seq![pick(m) as usize],
        Message::NoteOff(_, n, _) => holders(m.notes, n, m.notes.len() as int),
        Message::ControlChange(_, _, _) => Seq::new(m.notes.len(), |i: int| i as usize),
        _ => Seq::empty(),
    }
}

proof fn lemma_scan_found(notes: Seq<Option<u8>>, start: int, k: int)
    requires
        notes.len() > 0,
        0 <= k,
    ensures
        scan(notes, start, k) matches Some(i) ==> 0 <= i < notes.len() && notes[i] is None,
    decreases notes.len() - k,
{
    if k < notes.len() && notes[(start + k) % notes.len() as int] is Some {
        lemma_scan_found(notes, start, k + 1);
    }
}

proof fn lemma_scan_complete(notes: Seq<Option<u8>>, start: int, k: int, j: int)
    requires
        notes.len() > 0,
        0 <= start < notes.len(),
        0 <= k <= j < notes.len(),
        notes[(start + j) % notes.len() as int] is None,
    ensures
        scan(notes, start, k) is Some,
    decreases j - k,
{
    if notes[(start + k) % notes.len() as int] is Some {
        lemma_scan_complete(notes, start, k + 1, j);
    }
}

proof fn lemma_wrap(start: int, k: int, n: int)
    requires
        0 <= start < n,
        0 <= k < n,
    ensures
        start + k < n ==> (start + k) % n == start + k,
        start + k >= n ==> (start + k) % n == start + k - n,
{
    if start + k < n {
        lemma_small_mod((start + k) as nat, n as nat);
    } else {
        lemma_mod_multiples_vanish(1, start + k - n, n);
        lemma_small_mod((start + k - n) as nat, n as nat);
    }
}

/// A free voice is always preferred to stealing: while some voice is free,
/// a new note goes to a free voice.
pub proof fn lemma_free_voice_preferred(m: ConnModel, i: int)
    requires
        conn_wf(m),
        0 <= i < m.notes.len(),
        m.notes[i] is None,
    ensures
        0 <= pick(m) < m.notes.len(),
        m.notes[pick(m)] is None,
{
    let n = m.notes.len() as int;
    let start = (m.last as int + 1) % n;
    let j = if i >= start { i - start } else { i - start + n };
    lemma_wrap(start, j, n);
    lemma_scan_complete(m.notes, start, 0, j);
    lemma_scan_found(m.notes, start, 0);
}

proof fn lemma_pick_in_range(m: ConnModel)
    requires
        conn_wf(m),
    ensures
        0 <= pick(m) < m.notes.len(),
{
    lemma_scan_found(m.notes, (m.last as int + 1) % (m.notes.len() as int), 0);
}

/// The table after a note on for each of `notes`, in order.
pub open spec fn note_ons(m: ConnModel, notes: Seq<u8>, ch: u8, vel: u8) -> ConnModel
    decreases notes.len(),
{
    if notes.len() == 0 {
        m
    } else {
        routed(note_ons(m, notes.drop_last(), ch, vel), Message::NoteOn(ch, notes.last(), vel))
    }
}

/// A table for `n` voices, all free.
pub open spec fn fresh(n: nat) -> ConnModel {
    ConnModel { notes: Seq::new(n, |i: int| None::<u8>), last: 0 }
}

/// The place in the order of arrival of the note that voice `i` takes
/// when a fresh pool of `n` voices fills up.
spec fn arrival(i: int, n: int) -> int {
    (i + n - 1) % n
}

proof fn lemma_scan_none(notes: Seq<Option<u8>>, start: int, k: int)
    requires
        notes.len() > 0,
        0 <= k,
        forall|i: int| 0 <= i < notes.len() ==> (#[trigger] notes[i]) is Some,
    ensures
        scan(notes, start, k) is None,
    decreases notes.len() - k,
{
    if k < notes.len() {
        assert(notes[(start + k) % notes.len() as int] is Some);
        lemma_scan_none(notes, start, k + 1);
    }
}

proof fn lemma_holders_none(notes: Seq<Option<u8>>, note: u8, k: int)
    requires
        0 <= k <= notes.len(),
        forall|i: int| 0 <= i < notes.len() ==> (#[trigger] notes[i]) != Some(note),
    ensures
        holders(notes, note, k).len() == 0,
    decreases k,
{
    if k > 0 {
        lemma_holders_none(notes, note, k - 1);
    }
}

proof fn lemma_arrival(i: int, n: int)
    requires
        0 <= i < n,
    ensures
        0 <= arrival(i, n) < n,
        i == 0 ==> arrival(i, n) == n - 1,
        i > 0 ==> arrival(i, n) == i - 1,
{
    if i == 0 {
        lemma_small_mod((n - 1) as nat, n as nat);
    } else {
        lemma_mod_multiples_vanish(1, i - 1, n);
        lemma_small_mod((i - 1) as nat, n as nat);
    }
}

proof fn lemma_fill(n: nat, notes: Seq<u8>, ch: u8, vel: u8)
    requires
        n > 0,
        notes.len() <= n,
    ensures
        note_ons(fresh(n), notes, ch, vel).notes.len() == n,
        note_ons(fresh(n), notes, ch, vel).last == (notes.len() as int) % (n as int),
        forall|i: int|
            0 <= i < n ==> #[trigger] note_ons(fresh(n), notes, ch, vel).notes[i] == (if arrival(
                i,
                n as int,
            ) < notes.len() {
                Some(notes[arrival(i, n as int)])
            } else {
                None
            }),
    decreases notes.len(),
{
    let k = notes.len() as int;
    let nn = n as int;
    if k == 0 {
        lemma_small_mod(0, n);
        assert forall|i: int| 0 <= i < n implies #[trigger] note_ons(fresh(n), notes, ch, vel).notes[i]
            == (if arrival(i, nn) < notes.len() { Some(notes[arrival(i, nn)]) } else { None }) by {
            lemma_arrival(i, nn);
        }
    } else {
        let prev = notes.drop_last();
        lemma_fill(n, prev, ch, vel);
        let m = note_ons(fresh(n), prev, ch, vel);
        lemma_small_mod((k - 1) as nat, n);
        assert(m.last == k - 1);
        let start = (m.last as int + 1) % nn;
        let s = if k < nn { k } else { 0 };
        if k < nn {
            lemma_small_mod(k as nat, n);
        } else {
            lemma_mod_multiples_vanish(1, 0, nn);
            lemma_small_mod(0, n);
        }
        assert(start == s);
        lemma_arrival(s, nn);
        assert(arrival(s, nn) == k - 1);
        assert(m.notes[s] is None);
        assert((s + 0) % nn == s);
        assert(scan(m.notes, s, 0) == Some(s));
        assert(pick(m) == s);
        let r = note_ons(fresh(n), notes, ch, vel);
        assert(r == routed(m, Message::NoteOn(ch, notes.last(), vel)));
        if k < nn {
            lemma_small_mod(k as nat, n);
        } else {
            lemma_mod_multiples_vanish(1, 0, nn);
        }
        assert forall|i: int| 0 <= i < n implies #[trigger] r.notes[i] == (if arrival(i, nn)
            < notes.len() {
            Some(notes[arrival(i, nn)])
        } else {
            None
        }) by {
            lemma_arrival(i, nn);
            if i != s {
                assert(arrival(i, nn) != k - 1);
                assert(r.notes[i] == m.notes[i]);
            }
        }
    }
}

/// Voice stealing: in a fresh pool of `n` voices, `n + 1` notes in a row
/// with no note off between them put the last on the voice that took the
/// first; a note off for the first note then reaches no voice and changes
/// nothing.
pub proof fn lemma_round_robin_steal(n: nat, notes: Seq<u8>, ch: u8, vel: u8)
    requires
        n > 0,
        notes.len() == n + 1,
        forall|j: int| 1 <= j <= n ==> #[trigger] notes[j] != notes[0],
    ensures
        ({
            let first = pick(fresh(n));
            let full = note_ons(fresh(n), notes.take(n as int), ch, vel);
            let last = note_ons(fresh(n), notes, ch, vel);
            &&& 0 <= first < n
            &&& note_ons(fresh(n), notes.take(1), ch, vel).notes[first] == Some(notes[0])
            &&& pick(full) == first
            &&& last.notes[first] == Some(notes[n as int])
            &&& targets(last, Message::NoteOff(ch, notes[0], vel)).len() == 0
            &&& routed(last, Message::NoteOff(ch, notes[0], vel)) == last
        }),
{
    let nn = n as int;
    let m0 = fresh(n);
    let one = notes.take(1);
    lemma_fill(n, one, ch, vel);
    let full_notes = notes.take(nn);
    lemma_fill(n, full_notes, ch, vel);
    let full = note_ons(m0, full_notes, ch, vel);
    assert(notes.drop_last() == full_notes);
    let f = if nn == 1 { 0 } else { 1 };
    lemma_small_mod(0, n);
    if nn == 1 {
        lemma_mod_multiples_vanish(1, 0, 1);
    } else {
        lemma_small_mod(1, n);
    }
    assert(m0.notes[f] is None);
    assert((f + 0) % nn == f);
    assert(scan(m0.notes, f, 0) == Some(f));
    assert(pick(m0) == f);
    lemma_arrival(f, nn);
    assert(arrival(f, nn) == 0);
    assert forall|i: int| 0 <= i < n implies (#[trigger] full.notes[i]) is Some by {
        lemma_arrival(i, nn);
    }
    lemma_scan_none(full.notes, (full.last as int + 1) % nn, 0);
    assert(full.last == 0) by {
        lemma_mod_multiples_vanish(1, 0, nn);
        lemma_small_mod(0, n);
    }
    assert(pick(full) == f);
    let last = note_ons(m0, notes, ch, vel);
    assert(last == routed(full, Message::NoteOn(ch, notes.last(), vel)));
    assert forall|i: int| 0 <= i < n implies (#[trigger] last.notes[i]) != Some(notes[0]) by {
        lemma_arrival(i, nn);
        if i != f {
            assert(arrival(i, nn) != 0);
            assert(last.notes[i] == full.notes[i]);
            assert(full_notes[arrival(i, nn)] == notes[arrival(i, nn)]);
        }
    }
    lemma_holders_none(last.notes, notes[0], nn);
    assert(routed(last, Message::NoteOff(ch, notes[0], vel)).notes =~= last.notes);
}

/// A note off frees the voice its note on took: after `NoteOn(x)` and then
/// `NoteOff(x)`, that voice is free, no voice plays `x`, and the next note
/// goes to a free voice rather than stealing one.
pub proof fn lemma_release_frees(m: ConnModel, ch: u8, x: u8, vel: u8)
    requires
        conn_wf(m),
    ensures
        ({
            let p = pick(m);
            let m1 = routed(m, Message::NoteOn(ch, x, vel));
            let m2 = routed(m1, Message::NoteOff(ch, x, vel));
            &&& 0 <= p < m.notes.len()
            &&& m1.notes[p] == Some(x)
            &&& m2.notes[p] is None
            &&& forall|i: int| 0 <= i < m2.notes.len() ==> #[trigger] m2.notes[i] != Some(x)
            &&& m2.notes[pick(m2)] is None
        }),
{
    lemma_pick_in_range(m);
    let p = pick(m);
    let m1 = routed(m, Message::NoteOn(ch, x, vel));
    let m2 = routed(m1, Message::NoteOff(ch, x, vel));
    assert(conn_wf(m2));
    lemma_free_voice_preferred(m2, p);
}

pub struct MultiMidiConn {
    voices: Vec<Option<u8>>,
    last_voice: usize,
}

impl View for MultiMidiConn {
    type V = ConnModel;

    closed spec fn view(&self) -> ConnModel {
        ConnModel { notes: self.voices@, last: self.last_voice as nat }
    }
}

impl MultiMidiConn {
    pub open spec fn wf(&self) -> bool {
        conn_wf(self@)
    }

    /// A table for `num_voices` voices, all free.
    pub fn new(num_voices: usize) -> (r: MultiMidiConn)
        requires
            num_voices > 0,
        ensures
            r.wf(),
            r@ == (ConnModel { notes: Seq::new(num_voices as nat, |i: int| None::<u8>), last: 0 }),
    {
        let mut voices: Vec<Option<u8>> = Vec::new();
        let mut i: usize = 0;
        while i < num_voices
            invariant
                i <= num_voices,
                voices@ == Seq::new(i as nat, |j: int| None::<u8>),
            decreases num_voices - i,
        {
            voices.push(None);
            i = i + 1;
            assert(voices@ =~= Seq::new(i as nat, |j: int| None::<u8>));
        }
        MultiMidiConn { voices, last_voice: 0 }
    }

    pub fn num_voices(&self) -> (r: usize)
        ensures
            r == self@.notes.len(),
    {
        self.voices.len()
    }

    /// The note voice `v` is assigned.
    pub fn note_of(&self, v: usize) -> (r: Option<u8>)
        requires
            v < self@.notes.len(),
        ensures
            r == self@.notes[v as int],
    {
        self.voices[v]
    }

    fn pick_voice(&mut self) -> (r: usize)
        requires
            old(self).wf(),
        ensures
            r == pick(old(self)@),
            r < old(self)@.notes.len(),
            final(self)@ == (ConnModel { last: r as nat, ..old(self)@ }),
    {
        let ghost m = self@;
        let n = self.voices.len();
        let start = (self.last_voice + 1) % n;
        let mut k: usize = 0;
        while k < n
            invariant
                n == m.notes.len(),
                self@ == m,
                m == old(self)@,
                conn_wf(m),
                start == (m.last as int + 1) % (n as int),
                0 <= k <= n,
                scan(m.notes, start as int, 0) == scan(m.notes, start as int, k as int),
            decreases n - k,
        {
            proof {
                lemma_wrap(start as int, k as int, n as int);
            }
            let idx: usize = if k < n - start {
                start + k
            } else {
                k - (n - start)
            };
            assert(idx == (start + k) % (n as int));
            assert(scan(m.notes, start as int, k as int) == if m.notes[idx as int] is None {
                Some(idx as int)
            } else {
                scan(m.notes, start as int, k + 1)
            });
            if self.voices[idx].is_none() {
                self.last_voice = idx;
                return idx;
            }
            k = k + 1;
        }
        self.last_voice = start;
        start
    }

    /// Assigns or releases voices for one message, and returns the voices
    /// it must be delivered to.
    pub fn midi_message(&mut self, message: &Message) -> (r: Vec<usize>)
        requires
            old(self).wf(),
        ensures
            final(self).wf(),
            final(self)@ == routed(old(self)@, *message),
            final(self)@.notes.len() == old(self)@.notes.len(),
            r@ == targets(old(self)@, *message),
            forall|k: int| 0 <= k < r@.len() ==> #[trigger] r@[k] < old(self)@.notes.len(),
    {
        let ghost m = self@;
        match *message {
            Message::NoteOn(_, pitch, _) => {
                proof {
                    lemma_pick_in_range(m);
                }
                let p = self.pick_voice();
                self.voices.set(p, Some(pitch));
                let mut out: Vec<usize> = Vec::new();
                out.push(p);
                assert(out@ =~= seq![p]);
                out
            },
            Message::NoteOff(_, pitch, _) => {
                let n = self.voices.len();
                let mut out: Vec<usize> = Vec::new();
                let mut i: usize = 0;
                while i < n
                    invariant
                        n == m.notes.len(),
                        conn_wf(m),
                        i <= n,
                        self@.last == m.last,
                        self@.notes.len() == n,
                        forall|j: int|
                            0 <= j < i ==> #[trigger] self@.notes[j] == (if m.notes[j] == Some(
                                pitch,
                            ) {
                                None
                            } else {
                                m.notes[j]
                            }),
                        forall|j: int| i <= j < n ==> #[trigger] self@.notes[j] == m.notes[j],
                        out@ == holders(m.notes, pitch, i as int),
                        forall|k: int| 0 <= k < out@.len() ==> #[trigger] out@[k] < i,
                    decreases n - i,
                {
                    if self.voices[i] == Some(pitch) {
                        self.voices.set(i, None);
                        out.push(i);
                    }
                    i = i + 1;
                }
                assert(self@.notes =~= routed(m, *message).notes);
                out
            },
            Message::ControlChange(_, _, _) => {
                let n = self.voices.len();
                let mut out: Vec<usize> = Vec::new();
                let mut i: usize = 0;
                while i < n
                    invariant
                        i <= n,
                        out@ == Seq::new(i as nat, |j: int| j as usize),
                    decreases n - i,
                {
                    out.push(i);
                    i = i + 1;
                    assert(out@ =~= Seq::new(i as nat, |j: int| j as usize));
                }
                out
            },
            Message::AllNotesOff(_) => Vec::new(),
        }
    }
}

/// The block a group of voices renders: every voice's block at full gain,
/// summed.
pub open spec fn group_block(vs: Seq<VoiceModel>, wave: Seq<i32>, len: nat) -> Seq<i32> {
    Seq::new(
        len,
        |j: int|
            mixed(
                sources(
                    Seq::new(vs.len(), |i: int| voice_block(vs[i], wave)),
                    Seq::new(vs.len(), |i: int| LEVEL_ONE),
                ),
                j,
            ) as i32,
    )
}

pub struct GroupModel {
    pub voices: Seq<VoiceModel>,
    pub block_size: nat,
}

pub open spec fn group_wf(m: GroupModel) -> bool {
    forall|i: int|
        0 <= i < m.voices.len() ==> crate::voice::voice_wf(#[trigger] m.voices[i])
            && m.voices[i].block_size == m.block_size
}

/// A set of voices mixed together: what one worker thread owns.
pub struct VoiceGroup {
    voices: Vec<Voice>,
    mixer: Mixer,
}

impl View for VoiceGroup {
    type V = GroupModel;

    closed spec fn view(&self) -> GroupModel {
        GroupModel {
            voices: Seq::new(self.voices@.len(), |i: int| self.voices@[i]@),
            block_size: self.mixer@.block_size,
        }
    }
}

impl VoiceGroup {
    pub closed spec fn wf(&self) -> bool {
        &&& group_wf(self@)
        &&& self.mixer@.levels == Seq::new(self.voices@.len(), |i: int| LEVEL_ONE)
    }

    /// A group of `count` new voices.
    pub fn new(config: &Config, count: usize) -> (r: VoiceGroup)
        requires
            config.valid(),
        ensures
            r.wf(),
            r@.voices.len() == count,
            r@.block_size == config.block_size,
            forall|i: int| 0 <= i < count ==> #[trigger] r@.voices[i] == Voice::new_model(config),
    {
        let mut voices: Vec<Voice> = Vec::new();
        let mut levels: Vec<u32> = Vec::new();
        let mut i: usize = 0;
        while i < count
            invariant
                i <= count,
                config.valid(),
                voices@.len() == i,
                levels@ == Seq::new(i as nat, |j: int| LEVEL_ONE),
                forall|j: int|
                    0 <= j < i ==> #[trigger] voices@[j]@ == Voice::new_model(config) && voices@[j].wf(),
            decreases count - i,
        {
            voices.push(Voice::new(config));
            levels.push(LEVEL_ONE);
            i = i + 1;
            assert(levels@ =~= Seq::new(i as nat, |j: int| LEVEL_ONE));
        }
        let mixer = Mixer::new(levels, config.block_size);
        VoiceGroup { voices, mixer }
    }

    pub fn len(&self) -> (r: usize)
        ensures
            r == self@.voices.len(),
    {
        self.voices.len()
    }

    /// The note voice `local` was last given.
    pub fn note(&self, local: usize) -> (r: Option<u8>)
        requires
            local < self@.voices.len(),
        ensures
            r == self@.voices[local as int].note,
    {
        self.voices[local].note()
    }

    /// Hands one message to voice `local`.
    pub fn midi_message(&mut self, local: usize, message: &Message, tables: &Tables)
        requires
            old(self).wf(),
            local < old(self)@.voices.len(),
            message.wf(),
            tables.wf(),
        ensures
            final(self).wf(),
            final(self)@ == (GroupModel {
                voices: old(self)@.voices.update(
                    local as int,
                    after_message(old(self)@.voices[local as int], *message, tables@.pitches),
                ),
                ..old(self)@
            }),
    {
        let ghost m = self@;
        proof {
            assert(self.voices@[local as int]@ == m.voices[local as int]);
        }
        self.voices[local].midi_message(message, tables);
        proof {
            let want = m.voices.update(
                local as int,
                after_message(m.voices[local as int], *message, tables@.pitches),
            );
            assert(self@.voices =~= want);
        }
    }

    /// Renders one block from every voice and mixes them.
    pub fn run(&mut self, tables: &Tables) -> (r: Vec<i32>)
        requires
            old(self).wf(),
            tables.wf(),
        ensures
            final(self).wf(),
            r@ == group_block(old(self)@.voices, tables@.wave, old(self)@.block_size),
            final(self)@ == (GroupModel {
                voices: Seq::new(
                    old(self)@.voices.len(),
                    |i: int| rendered(old(self)@.voices[i]),
                ),
                ..old(self)@
            }),
    {
        let ghost m = self@;
        let n = self.voices.len();
        let mut blocks: Vec<Vec<i32>> = Vec::new();
        let mut i: usize = 0;
        assert forall|j: int| 0 <= j < n implies (#[trigger] self.voices@[j]).wf() by {
            assert(m.voices[j] == self.voices@[j]@);
        }
        while i < n
            invariant
                n == m.voices.len(),
                m == old(self)@,
                old(self).wf(),
                tables.wf(),
                i <= n,
                self.voices@.len() == n,
                self.mixer == old(self).mixer,
                blocks@.len() == i,
                forall|j: int|
                    0 <= j < i ==> #[trigger] blocks@[j]@ == voice_block(m.voices[j], tables@.wave),
                forall|j: int| 0 <= j < i ==> #[trigger] self.voices@[j]@ == rendered(m.voices[j]),
                forall|j: int| i <= j < n ==> #[trigger] self.voices@[j]@ == m.voices[j],
                forall|j: int| 0 <= j < n ==> (#[trigger] self.voices@[j]).wf(),
            decreases n - i,
        {
            proof {
                assert(self.voices@[i as int]@ == m.voices[i as int]);
            }
            let b = self.voices[i].run(tables);
            blocks.push(b);
            i = i + 1;
        }
        proof {
            assert(block_views(blocks@) =~= Seq::new(n as nat, |j: int| voice_block(m.voices[j], tables@.wave)));
        }
        let out = self.mixer.run(&blocks);
        proof {
            assert(out@ =~= group_block(m.voices, tables@.wave, m.block_size));
            assert(self@.voices =~= Seq::new(n as nat, |j: int| rendered(m.voices[j])));
        }
        out
    }
}

/// The gain of each group in the final mix: a quarter.
pub const GROUP_LEVEL: u32 = 1270;

/// A group one block later.
pub open spec fn group_rendered(m: GroupModel) -> GroupModel {
    GroupModel { voices: Seq::new(m.voices.len(), |i: int| rendered(m.voices[i])), ..m }
}

/// The block the whole pool renders: each group's block at `GROUP_LEVEL`,
/// summed.
pub open spec fn pool_block(groups: Seq<GroupModel>, wave: Seq<i32>, len: nat) -> Seq<i32> {
    Seq::new(
        len,
        |j: int|
            mixed(
                sources(
                    Seq::new(groups.len(), |g: int| group_block(groups[g].voices, wave, len)),
                    Seq::new(groups.len(), |g: int| GROUP_LEVEL),
                ),
                j,
            ) as i32,
    )
}

/// Voice `l` of group `g` after a message that went to the voices `to`.
pub open spec fn delivered(
    c: Config,
    groups: Seq<GroupModel>,
    to: Seq<usize>,
    msg: Message,
    pitches: Seq<u64>,
    g: int,
    l: int,
) -> VoiceModel {
    if to.contains((group_start(c, g) + l) as usize) {
        after_message(groups[g].voices[l], msg, pitches)
    } else {
        groups[g].voices[l]
    }
}

pub struct MultiModel {
    pub config: Config,
    pub groups: Seq<GroupModel>,
    pub conn: ConnModel,
    pub tables: TablesModel,
}

/// The whole voice pool, run on one thread: the note assignment table, the
/// voices in their groups, and the final mix.
pub struct Multi {
    config: Config,
    groups: Vec<VoiceGroup>,
    conn: MultiMidiConn,
    mixer: Mixer,
    tables: Tables,
}

impl View for Multi {
    type V = MultiModel;

    closed spec fn view(&self) -> MultiModel {
        MultiModel {
            config: self.config,
            groups: Seq::new(self.groups@.len(), |g: int| self.groups@[g]@),
            conn: self.conn@,
            tables: self.tables@,
        }
    }
}

impl Multi {
    pub closed spec fn wf(&self) -> bool {
        &&& self.config.valid()
        &&& self.tables.wf()
        &&& self.groups@.len() == self.config.threads
        &&& forall|g: int|
            0 <= g < self.config.threads ==> {
                &&& (#[trigger] self.groups@[g]).wf()
                &&& self.groups@[g]@.voices.len() == group_size(self.config, g)
                &&& self.groups@[g]@.block_size == self.config.block_size
            }
        &&& self.conn.wf()
        &&& self.conn@.notes.len() == self.config.polyphony
        &&& self.mixer@ == (MixerModel {
            levels: Seq::new(self.config.threads as nat, |g: int| GROUP_LEVEL),
            block_size: self.config.block_size as nat,
        })
    }

    /// A pool of `config.polyphony` new voices in `config.threads` groups,
    /// every voice free.
    pub fn new(config: Config, tables: Tables) -> (r: Multi)
        requires
            config.valid(),
            tables.wf(),
        ensures
            r.wf(),
            r@.config == config,
            r@.tables == tables@,
            r@.conn == (ConnModel {
                notes: Seq::new(config.polyphony as nat, |i: int| None::<u8>),
                last: 0,
            }),
            r@.groups.len() == config.threads,
            forall|g: int, l: int|
                0 <= g < config.threads && 0 <= l < group_size(config, g) ==> (
                #[trigger] r@.groups[g].voices[l]) == Voice::new_model(&config),
    {
        let mut groups: Vec<VoiceGroup> = Vec::new();
        let mut levels: Vec<u32> = Vec::new();
        let mut g: usize = 0;
        while g < config.threads
            invariant
                config.valid(),
                g <= config.threads,
                groups@.len() == g,
                levels@ == Seq::new(g as nat, |k: int| GROUP_LEVEL),
                forall|k: int|
                    0 <= k < g ==> {
                        &&& (#[trigger] groups@[k]).wf()
                        &&& groups@[k]@.voices.len() == group_size(config, k)
                        &&& groups@[k]@.block_size == config.block_size
                        &&& forall|l: int|
                            0 <= l < group_size(config, k) ==> #[trigger] groups@[k]@.voices[l]
                                == Voice::new_model(&config)
                    },
            decreases config.threads - g,
        {
            let size = config.group_size(g);
            groups.push(VoiceGroup::new(&config, size));
            levels.push(GROUP_LEVEL);
            g = g + 1;
            assert(levels@ =~= Seq::new(g as nat, |k: int| GROUP_LEVEL));
        }
        let mixer = Mixer::new(levels, config.block_size);
        let conn = MultiMidiConn::new(config.polyphony);
        Multi { config, groups, conn, mixer, tables }
    }

    pub fn config(&self) -> (r: Config)
        ensures
            r == self@.config,
    {
        self.config
    }

    /// The note that voice `v` is assigned, if any.
    pub fn note_of(&self, v: usize) -> (r: Option<u8>)
        requires
            self.wf(),
            v < self@.config.polyphony,
        ensures
            r == self@.conn.notes[v as int],
    {
        self.conn.note_of(v)
    }

    /// Takes one message: the assignment table decides which voices it goes
    /// to, and each of them takes it.
    pub fn midi_message(&mut self, message: &Message)
        requires
            old(self).wf(),
            message.wf(),
        ensures
            final(self).wf(),
            final(self)@.config == old(self)@.config,
            final(self)@.tables == old(self)@.tables,
            final(self)@.conn == routed(old(self)@.conn, *message),
            final(self)@.groups.len() == old(self)@.groups.len(),
            forall|g: int|
                0 <= g < old(self)@.groups.len() ==> (#[trigger] final(self)@.groups[g]).voices.len()
                    == old(self)@.groups[g].voices.len(),
            forall|g: int, l: int|
                0 <= g < old(self)@.groups.len() && 0 <= l < old(self)@.groups[g].voices.len() ==> (
                #[trigger] final(self)@.groups[g].voices[l]) == delivered(
                    old(self)@.config,
                    old(self)@.groups,
                    targets(old(self)@.conn, *message),
                    *message,
                    old(self)@.tables.pitches,
                    g,
                    l,
                ),
    {
        let ghost m = self@;
        let to = self.conn.midi_message(message);
        let p = self.config.polyphony;
        let mut mask: Vec<bool> = Vec::new();
        let mut v: usize = 0;
        while v < p
            invariant
                v <= p,
                mask@ == Seq::new(v as nat, |k: int| false),
            decreases p - v,
        {
            mask.push(false);
            v = v + 1;
            assert(mask@ =~= Seq::new(v as nat, |k: int| false));
        }
        let mut k: usize = 0;
        while k < to.len()
            invariant
                k <= to@.len(),
                mask@.len() == p,
                p == m.conn.notes.len(),
                forall|j: int| 0 <= j < to@.len() ==> #[trigger] to@[j] < p,
                forall|u: int| 0 <= u < p ==> #[trigger] mask@[u] == to@.take(k as int).contains(u as usize),
            decreases to@.len() - k,
        {
            let t = to[k];
            mask.set(t, true);
            proof {
                assert forall|u: int| 0 <= u < p implies #[trigger] mask@[u] == to@.take(k + 1).contains(u as usize) by {
                    assert(to@.take(k + 1) == to@.take(k as int).push(t));
                    if to@.take(k as int).contains(u as usize) {
                        let w = choose|w: int| 0 <= w < k && to@.take(k as int)[w] == u as usize;
                        assert(to@.take(k + 1)[w] == u as usize);
                    }
                    if u == t {
                        assert(to@.take(k + 1)[k as int] == t);
                    }
                }
            }
            k = k + 1;
        }
        assert(to@.take(to@.len() as int) == to@);
        let ghost want = Seq::new(
            m.groups.len(),
            |g: int| GroupModel {
                voices: Seq::new(
                    m.groups[g].voices.len(),
                    |l: int| delivered(m.config, m.groups, to@, *message, m.tables.pitches, g, l),
                ),
                ..m.groups[g]
            },
        );
        let threads = self.config.threads;
        let mut g: usize = 0;
        while g < threads
            invariant
                m == old(self)@,
                old(self).wf(),
                message.wf(),
                want == Seq::new(
                    m.groups.len(),
                    |g: int| GroupModel {
                        voices: Seq::new(
                            m.groups[g].voices.len(),
                            |l: int| delivered(m.config, m.groups, to@, *message, m.tables.pitches, g, l),
                        ),
                        ..m.groups[g]
                    },
                ),
                threads == self.config.threads,
                self.config == old(self).config,
                self.tables == old(self).tables,
                self.mixer == old(self).mixer,
                self.conn@ == routed(m.conn, *message),
                self.conn.wf(),
                to@ == targets(m.conn, *message),
                mask@.len() == m.config.polyphony,
                forall|u: int| 0 <= u < mask@.len() ==> #[trigger] mask@[u] == to@.contains(u as usize),
                g <= threads,
                self.groups@.len() == threads,
                forall|h: int| 0 <= h < threads ==> (#[trigger] self.groups@[h]).wf(),
                forall|h: int| 0 <= h < g ==> #[trigger] self.groups@[h]@ == want[h],
                forall|h: int| g <= h < threads ==> #[trigger] self.groups@[h]@ == m.groups[h],
            decreases threads - g,
        {
            let start = self.config.group_start(g);
            let size = self.groups[g].len();
            proof {
                assert(self.groups@[g as int]@ == m.groups[g as int]);
                lemma_groups_tile(m.config, g as int);
                lemma_groups_tile(m.config, threads - 1);
                assert(old(self).groups@[g as int]@.voices.len() == group_size(m.config, g as int));
            }
            let mut l: usize = 0;
            while l < size
                invariant
                    m == old(self)@,
                    old(self).wf(),
                    message.wf(),
                    want == Seq::new(
                        m.groups.len(),
                        |g: int| GroupModel {
                            voices: Seq::new(
                                m.groups[g].voices.len(),
                                |l: int| delivered(m.config, m.groups, to@, *message, m.tables.pitches, g, l),
                            ),
                            ..m.groups[g]
                        },
                    ),
                    threads == self.config.threads,
                    self.config == old(self).config,
                    self.mixer == old(self).mixer,
                    self.conn@ == routed(m.conn, *message),
                    self.conn.wf(),
                    to@ == targets(m.conn, *message),
                    self.tables == old(self).tables,
                    self.tables.wf(),
                    threads == self.groups@.len(),
                    g < threads,
                    start == group_start(m.config, g as int),
                    size == m.groups[g as int].voices.len(),
                    start + size <= mask@.len(),
                    mask@.len() == m.config.polyphony,
                    forall|u: int| 0 <= u < mask@.len() ==> #[trigger] mask@[u] == to@.contains(u as usize),
                    l <= size,
                    (self.groups@[g as int]).wf(),
                    self.groups@[g as int]@.block_size == m.groups[g as int].block_size,
                    self.groups@[g as int]@.voices.len() == size,
                    forall|h: int| 0 <= h < threads ==> (#[trigger] self.groups@[h]).wf(),
                    forall|h: int| 0 <= h < g ==> #[trigger] self.groups@[h]@ == want[h],
                    forall|h: int| g < h < threads ==> #[trigger] self.groups@[h]@ == m.groups[h],
                    forall|j: int| 0 <= j < l ==> #[trigger] self.groups@[g as int]@.voices[j] == want[g as int].voices[j],
                    forall|j: int| l <= j < size ==> #[trigger] self.groups@[g as int]@.voices[j] == m.groups[g as int].voices[j],
                decreases size - l,
            {
                proof {
                    assert(want[g as int].voices[l as int] == delivered(
                        m.config,
                        m.groups,
                        to@,
                        *message,
                        m.tables.pitches,
                        g as int,
                        l as int,
                    ));
                    assert(self.groups@[g as int]@.voices[l as int] == m.groups[g as int].voices[l as int]);
                }
                if mask[start + l] {
                    self.groups[g].midi_message(l, message, &self.tables);
                }
                l = l + 1;
            }
            proof {
                assert(self.groups@[g as int]@.voices =~= want[g as int].voices);
            }
            g = g + 1;
        }
        proof {
            assert forall|h: int| 0 <= h < threads implies {
                &&& (#[trigger] self.groups@[h]).wf()
                &&& self.groups@[h]@.voices.len() == group_size(self.config, h)
                &&& self.groups@[h]@.block_size == self.config.block_size
            } by {
                assert(old(self).groups@[h]@ == m.groups[h]);
            }
        }
    }

    /// Renders one block: every group, then the final mix.
    pub fn run(&mut self) -> (r: Vec<i32>)
        requires
            old(self).wf(),
        ensures
            final(self).wf(),
            r@ == pool_block(old(self)@.groups, old(self)@.tables.wave, old(self)@.config.block_size as nat),
            final(self)@ == (MultiModel {
                groups: Seq::new(old(self)@.groups.len(), |g: int| group_rendered(old(self)@.groups[g])),
                ..old(self)@
            }),
    {
        let ghost m = self@;
        let threads = self.config.threads;
        let mut blocks: Vec<Vec<i32>> = Vec::new();
        let mut g: usize = 0;
        while g < threads
            invariant
                m == old(self)@,
                old(self).wf(),
                threads == self.config.threads,
                self.config == old(self).config,
                self.tables == old(self).tables,
                self.mixer == old(self).mixer,
                self.conn == old(self).conn,
                g <= threads,
                self.groups@.len() == threads,
                blocks@.len() == g,
                forall|h: int| 0 <= h < threads ==> (#[trigger] self.groups@[h]).wf(),
                forall|h: int|
                    0 <= h < g ==> #[trigger] blocks@[h]@ == group_block(
                        m.groups[h].voices,
                        m.tables.wave,
                        m.config.block_size as nat,
                    ),
                forall|h: int| 0 <= h < g ==> #[trigger] self.groups@[h]@ == group_rendered(m.groups[h]),
                forall|h: int| g <= h < threads ==> #[trigger] self.groups@[h]@ == m.groups[h],
            decreases threads - g,
        {
            proof {
                assert(self.groups@[g as int]@ == m.groups[g as int]);
            }
            let b = self.groups[g].run(&self.tables);
            blocks.push(b);
            proof {
                assert(self.groups@[g as int]@ =~~= group_rendered(m.groups[g as int]));
            }
            g = g + 1;
        }
        proof {
            assert(block_views(blocks@) =~= Seq::new(
                threads as nat,
                |h: int| group_block(m.groups[h].voices, m.tables.wave, m.config.block_size as nat),
            ));
        }
        let out = self.mixer.run(&blocks);
        proof {
            assert(out@ =~= pool_block(m.groups, m.tables.wave, m.config.block_size as nat));
            assert(self@.groups =~= Seq::new(m.groups.len(), |h: int| group_rendered(m.groups[h])));
            assert forall|h: int| 0 <= h < threads implies {
                &&& (#[trigger] self.groups@[h]).wf()
                &&& self.groups@[h]@.voices.len() == group_size(self.config, h)
                &&& self.groups@[h]@.block_size == self.config.block_size
            } by {
                assert(old(self).groups@[h]@ == m.groups[h]);
            }
        }
        out
    }
}

} // verus!
