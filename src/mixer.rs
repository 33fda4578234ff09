//! A weighted sum of audio blocks, one gain per source.
use vstd::prelude::*;
use vstd::seq_lib::{commutative_foldl, lemma_fold_left_permutation};
use crate::sample::{LEVEL_ONE, div_trunc, saturate, level_down};

verus! {

/// What one source adds to sample `j`: its sample times its gain.
pub open spec fn add_source(j: int) -> spec_fn(int, (Seq<i32>, u32)) -> int {
    |acc: int, src: (Seq<i32>, u32)| acc + src.0[j] * src.1
}

/// The exact weighted sum at sample `j` of the sources, in order.
pub open spec fn mix_sum(sources: Seq<(Seq<i32>, u32)>, j: int) -> int {
    sources.fold_left(0int, add_source(j))
}

/// Sample `j` of the mix: the weighted sum scaled down by `LEVEL_ONE`,
/// rounded toward zero and held within the sample range. There is no
/// normalisation: the gains may add up to more than one.
pub open spec fn mixed(sources: Seq<(Seq<i32>, u32)>, j: int) -> int {
    saturate(div_trunc(mix_sum(sources, j), LEVEL_ONE as int))
}

/// The sources of a mix: each input block paired with its gain.
pub open spec fn sources(inputs: Seq<Seq<i32>>, levels: Seq<u32>) -> Seq<(Seq<i32>, u32)> {
    Seq::new(levels.len(), |i: int| (inputs[i], levels[i]))
}

/// The contents of a list of blocks.
pub open spec fn block_views(v: Seq<Vec<i32>>) -> Seq<Seq<i32>> {
    Seq::new(v.len(), |i: int| v[i]@)
}

/// The order of the sources does not matter: any rearrangement of the
/// (block, gain) pairs gives the same mix.
pub proof fn lemma_mix_order_free(a: Seq<(Seq<i32>, u32)>, b: Seq<(Seq<i32>, u32)>, j: int)
    requires
        a.to_multiset() == b.to_multiset(),
    ensures
        mix_sum(a, j) == mix_sum(b, j),
        mixed(a, j) == mixed(b, j),
{
    let f = add_source(j);
    assert(commutative_foldl(f)) by {
        assert forall|x: (Seq<i32>, u32), y: (Seq<i32>, u32), v: int|
            #[trigger] f(f(v, x), y) == f(f(v, y), x) by {}
    }
    lemma_fold_left_permutation(a, b, f, 0int);
}

pub struct Mixer {
    levels: Vec<u32>,
    block_size: usize,
}

pub struct MixerModel {
    pub levels: Seq<u32>,
    pub block_size: nat,
}

impl View for Mixer {
    type V = MixerModel;

    closed spec fn view(&self) -> MixerModel {
        MixerModel { levels: self.levels@, block_size: self.block_size as nat }
    }
}

proof fn lemma_sum_bound(s: Seq<(Seq<i32>, u32)>, j: int)
    ensures
        -(s.len() * 0x8000_0000_0000_0000) <= mix_sum(s, j) <= s.len() * 0x8000_0000_0000_0000,
    decreases s.len(),
{
    if s.len() > 0 {
        lemma_sum_bound(s.drop_last(), j);
        let x = s.last();
        let v: int = x.0[j] as int;
        let l: int = x.1 as int;
        assert(-0x8000_0000_0000_0000 <= v * l <= 0x8000_0000_0000_0000) by (nonlinear_arith)
            requires
                -0x8000_0000 <= v < 0x8000_0000,
                0 <= l < 0x1_0000_0000,
        ;
        assert(x.0[j] * x.1 == v * l);
    }
}

impl Mixer {
    /// A mixer over `levels.len()` sources with the given gains, for blocks
    /// of `block_size` samples.
    pub fn new(levels: Vec<u32>, block_size: usize) -> (r: Mixer)
        ensures
            r@ == (MixerModel { levels: levels@, block_size: block_size as nat }),
    {
        Mixer { levels, block_size }
    }

    /// Replaces the gain of source `input_num`.
    pub fn set_level(&mut self, input_num: usize, level: u32)
        requires
            input_num < old(self)@.levels.len(),
        ensures
            final(self)@ == (MixerModel {
                levels: old(self)@.levels.update(input_num as int, level),
                ..old(self)@
            }),
    {
        self.levels.set(input_num, level);
    }

    pub fn level(&self, input_num: usize) -> (r: u32)
        requires
            input_num < self@.levels.len(),
        ensures
            r == self@.levels[input_num as int],
    {
        self.levels[input_num]
    }

    pub fn num_inputs(&self) -> (r: usize)
        ensures
            r == self@.levels.len(),
    {
        self.levels.len()
    }

    pub fn block_size(&self) -> (r: usize)
        ensures
            r == self@.block_size,
    {
        self.block_size
    }

    /// Mixes one block from each source, in order.
    pub fn run(&self, inputs: &Vec<Vec<i32>>) -> (r: Vec<i32>)
        requires
            inputs@.len() == self@.levels.len(),
            forall|i: int| 0 <= i < inputs@.len() ==> #[trigger] inputs@[i]@.len() == self@.block_size,
        ensures
            r@.len() == self@.block_size,
            forall|j: int|
                0 <= j < self@.block_size ==> #[trigger] r@[j] == mixed(
                    sources(block_views(inputs@), self@.levels),
                    j,
                ),
    {
        let ghost srcs = sources(block_views(inputs@), self.levels@);
        let mut out: Vec<i32> = Vec::new();
        let mut j: usize = 0;
        while j < self.block_size
            invariant
                j <= self.block_size,
                srcs == sources(block_views(inputs@), self.levels@),
                inputs@.len() == self.levels@.len(),
                forall|i: int| 0 <= i < inputs@.len() ==> #[trigger] inputs@[i]@.len() == self.block_size,
                out@.len() == j,
                forall|k: int| 0 <= k < j ==> #[trigger] out@[k] == mixed(srcs, k),
            decreases self.block_size - j,
        {
            let mut acc: i128 = 0;
            let mut i: usize = 0;
            while i < self.levels.len()
                invariant
                    i <= self.levels@.len(),
                    j < self.block_size,
                    srcs == sources(block_views(inputs@), self.levels@),
                    inputs@.len() == self.levels@.len(),
                    forall|i: int| 0 <= i < inputs@.len() ==> #[trigger] inputs@[i]@.len() == self.block_size,
                    acc == mix_sum(srcs.take(i as int), j as int),
                decreases self.levels@.len() - i,
            {
                proof {
                    lemma_sum_bound(srcs.take(i as int), j as int);
                    assert(srcs.take(i + 1).drop_last() == srcs.take(i as int));
                    assert(srcs.take(i + 1).last() == srcs[i as int]);
                }
                let v: i32 = inputs[i][j];
                let l: u32 = self.levels[i];
                assert(-0x8000_0000_0000_0000 <= v * l <= 0x8000_0000_0000_0000) by (nonlinear_arith)
                    requires
                        -0x8000_0000 <= v < 0x8000_0000,
                        0 <= l < 0x1_0000_0000,
                ;
                assert(i * 0x8000_0000_0000_0000 <= 0xffff_ffff_ffff_ffff * 0x8000_0000_0000_0000)
                    by (nonlinear_arith)
                    requires
                        i <= 0xffff_ffff_ffff_ffffu64,
                ;
                acc = acc + (v as i128) * (l as i128);
                i = i + 1;
            }
            proof {
                assert(srcs.take(srcs.len() as int) == srcs);
                lemma_sum_bound(srcs, j as int);
                assert(srcs.len() * 0x8000_0000_0000_0000 <= 0xffff_ffff_ffff_ffff
                    * 0x8000_0000_0000_0000) by (nonlinear_arith)
                    requires
                        srcs.len() <= 0xffff_ffff_ffff_ffffu64,
                ;
            }
            out.push(level_down(acc));
            j = j + 1;
        }
        out
    }

    /// Mixes one block per source where some sources may have nothing to
    /// give (a worker that has stopped): each of those counts as silence.
    pub fn run_or_silence(&self, inputs: &Vec<Option<Vec<i32>>>) -> (r: Vec<i32>)
        requires
            inputs@.len() == self@.levels.len(),
            forall|i: int|
                0 <= i < inputs@.len() ==> (#[trigger] inputs@[i] matches Some(b) ==> b@.len()
                    == self@.block_size),
        ensures
            r@.len() == self@.block_size,
            forall|j: int|
                0 <= j < self@.block_size ==> #[trigger] r@[j] == mixed(
                    sources(or_silence(inputs@, self@.block_size), self@.levels),
                    j,
                ),
    {
        let mut blocks: Vec<Vec<i32>> = Vec::new();
        let mut i: usize = 0;
        while i < inputs.len()
            invariant
                i <= inputs@.len(),
                inputs@.len() == self@.levels.len(),
                forall|i: int|
                    0 <= i < inputs@.len() ==> (#[trigger] inputs@[i] matches Some(b) ==> b@.len()
                        == self@.block_size),
                blocks@.len() == i,
                forall|k: int|
                    0 <= k < i ==> #[trigger] blocks@[k]@ == or_silence(inputs@, self@.block_size)[k],
            decreases inputs@.len() - i,
        {
            let b = match &inputs[i] {
                Some(b) => copy_block(b),
                None => silence(self.block_size),
            };
            blocks.push(b);
            i = i + 1;
        }
        assert(block_views(blocks@) =~= or_silence(inputs@, self@.block_size));
        self.run(&blocks)
    }
}

/// The blocks of a list where some may be missing, a missing one standing
/// as a block of zeros.
pub open spec fn or_silence(inputs: Seq<Option<Vec<i32>>>, len: nat) -> Seq<Seq<i32>> {
    Seq::new(
        inputs.len(),
        |i: int|
            match inputs[i] {
                Some(b) => b@,
                None => Seq::new(len, |k: int| 0i32),
            },
    )
}

/// A block of `len` zeros.
pub fn silence(len: usize) -> (r: Vec<i32>)
    ensures
        r@ == Seq::new(len as nat, |k: int| 0i32),
{
    let mut out: Vec<i32> = Vec::new();
    let mut k: usize = 0;
    while k < len
        invariant
            k <= len,
            out@ == Seq::new(k as nat, |j: int| 0i32),
        decreases len - k,
    {
        out.push(0);
        k = k + 1;
        assert(out@ =~= Seq::new(k as nat, |j: int| 0i32));
    }
    out
}

fn copy_block(b: &Vec<i32>) -> (r: Vec<i32>)
    ensures
        r@ == b@,
{
    let mut out: Vec<i32> = Vec::new();
    let mut k: usize = 0;
    while k < b.len()
        invariant
            k <= b@.len(),
            out@ == b@.take(k as int),
        decreases b@.len() - k,
    {
        out.push(b[k]);
        k = k + 1;
        assert(out@ =~= b@.take(k as int));
    }
    assert(b@.take(b@.len() as int) =~= b@);
    out
}

} // verus!
