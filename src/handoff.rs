//! Moving audio blocks between stages on one thread, and reading a stream of
//! blocks one sample at a time.
use vstd::prelude::*;

verus! {

/// A single-slot handoff cell: writing stores a block, reading takes it
/// out and leaves the cell empty.
pub struct Handoff {
    slot: Option<Vec<i32>>,
}

impl View for Handoff {
    type V = Option<Seq<i32>>;

    closed spec fn view(&self) -> Option<Seq<i32>> {
        match self.slot {
            Some(b) => Some(b@),
            None => None,
        }
    }
}

impl Handoff {
    /// An empty cell.
    pub fn new() -> (r: Handoff)
        ensures
            r@ is None,
    {
        Handoff { slot: None }
    }

    /// Whether a block waits in the cell.
    pub fn is_primed(&self) -> (r: bool)
        ensures
            r == self@ is Some,
    {
        self.slot.is_some()
    }

    /// Stores a block, replacing any that was not read.
    pub fn supply_audio(&mut self, block: Vec<i32>)
        ensures
            final(self)@ == Some(block@),
    {
        self.slot = Some(block);
    }

    /// Takes the stored block out; the cell must hold one.
    pub fn get_audio(&mut self) -> (r: Vec<i32>)
        requires
            old(self)@ is Some,
        ensures
            old(self)@ == Some(r@),
            final(self)@ is None,
    {
        let taken = self.slot.take();
        match taken {
            Some(b) => b,
            None => Vec::new(),
        }
    }
}

/// Hands out the samples of one block after another: a caller that needs
/// frames in runs of its own length refills it each time it runs out.
pub struct Stride {
    buf: Vec<i32>,
    pos: usize,
}

pub struct StrideModel {
    pub buf: Seq<i32>,
    pub pos: nat,
}

impl View for Stride {
    type V = StrideModel;

    closed spec fn view(&self) -> StrideModel {
        StrideModel { buf: self.buf@, pos: self.pos as nat }
    }
}

impl Stride {
    /// A stride with nothing in it, so the first sample asks for a block.
    pub fn new() -> (r: Stride)
        ensures
            r@.buf.len() == 0,
            r@.pos == 0,
    {
        Stride { buf: Vec::new(), pos: 0 }
    }

    /// Whether every sample of the current block has been handed out.
    pub fn needs_block(&self) -> (r: bool)
        ensures
            r == (self@.pos >= self@.buf.len()),
    {
        self.pos >= self.buf.len()
    }

    /// Starts on a new block.
    pub fn refill(&mut self, block: Vec<i32>)
        ensures
            final(self)@ == (StrideModel { buf: block@, pos: 0 }),
    {
        self.buf = block;
        self.pos = 0;
    }

    /// The next sample of the current block.
    pub fn next_sample(&mut self) -> (r: i32)
        requires
            old(self)@.pos < old(self)@.buf.len(),
        ensures
            r == old(self)@.buf[old(self)@.pos as int],
            final(self)@ == (StrideModel { pos: old(self)@.pos + 1, ..old(self)@ }),
    {
        let s = self.buf[self.pos];
        assert(self.pos < self.buf.len());
        self.pos = self.pos + 1;
        s
    }
}

} // verus!
