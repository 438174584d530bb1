//! Device addresses, ranks, and the bookkeeping of releases.

use crate::arith::{lemma_sum_concat, sum};
use vstd::prelude::*;

verus! {

/// An address in device memory.
#[derive(Debug, Clone, Copy, PartialEq, Eq, Structural)]
pub struct DevicePtr(pub usize);

impl DevicePtr {
    /// The address `bytes` further on.
    pub fn offset_bytes(self, bytes: usize) -> (r: DevicePtr)
        requires
            self.0 + bytes <= usize::MAX,
        ensures
            r.0 == self.0 + bytes,
    {
        DevicePtr(self.0 + bytes)
    }

    pub fn as_usize(self) -> (r: usize)
        ensures
            r == self.0,
    {
        self.0
    }
}

/// The number of a rank in its cluster.
#[derive(Debug, Clone, Copy, PartialEq, Eq, Structural)]
pub struct RankId(pub u32);

/// A device allocation to give back: its address and the size it was made with.
#[derive(Debug, Clone, Copy, PartialEq, Eq, Structural)]
pub struct Free {
    pub ptr: DevicePtr,
    pub bytes: usize,
}

/// A device allocation of a rank to give back.
#[derive(Debug, Clone, Copy, PartialEq, Eq, Structural)]
pub struct RankFree {
    pub rank: RankId,
    pub free: Free,
}

/// The allocations of one rank.
pub open spec fn rank_frees(rank: RankId, frees: Seq<Free>) -> Seq<RankFree> {
    frees.map_values(|f: Free| RankFree { rank, free: f })
}

/// Bytes that are given back.
pub open spec fn freed_bytes(frees: Seq<RankFree>) -> nat {
    sum(frees.map_values(|f: RankFree| f.free.bytes as nat))
}

/// What is given back together weighs what the parts weigh.
pub proof fn lemma_freed_concat(a: Seq<RankFree>, b: Seq<RankFree>)
    ensures
        freed_bytes(a + b) == freed_bytes(a) + freed_bytes(b),
{
    let size = |f: RankFree| f.free.bytes as nat;
    assert((a + b).map_values(size) =~= a.map_values(size) + b.map_values(size));
    lemma_sum_concat(a.map_values(size), b.map_values(size));
}

/// Appends the allocations of one rank.
pub fn push_rank_frees(rank: RankId, frees: &Vec<Free>, out: &mut Vec<RankFree>)
    ensures
        final(out)@ == old(out)@ + rank_frees(rank, frees@),
{
    let ghost base = out@;
    let ghost all = rank_frees(rank, frees@);
    let mut i: usize = 0;
    proof {
        assert(out@ =~= base + all.take(0));
    }
    while i < frees.len()
        invariant
            i <= frees@.len(),
            all == rank_frees(rank, frees@),
            out@ == base + all.take(i as int),
        decreases frees@.len() - i,
    {
        out.push(RankFree { rank, free: frees[i] });
        proof {
            assert(all.take(i as int + 1) =~= all.take(i as int).push(all[i as int]));
            assert(out@ =~= base + all.take(i as int + 1));
        }
        i = i + 1;
    }
    proof {
        assert(all.take(all.len() as int) =~= all);
    }
}

/// Remembers the first error of a series of releases that all have to be tried.
#[derive(Debug)]
pub struct FirstError<E> {
    first: Option<E>,
}

impl<E> FirstError<E> {
    /// The first error so far.
    pub closed spec fn spec_first(&self) -> Option<E> {
        self.first
    }

    pub fn new() -> (r: Self)
        ensures
            r.spec_first() is None,
    {
        FirstError { first: None }
    }

    /// Takes note of one outcome. Only the first error is kept.
    pub fn note(&mut self, outcome: Result<(), E>)
        ensures
            match old(self).spec_first() {
                Some(e) => final(self).spec_first() == Some(e),
                None => match outcome {
                    Ok(_) => final(self).spec_first() is None,
                    Err(e) => final(self).spec_first() == Some(e),
                },
            },
    {
        if let Err(e) = outcome {
            if self.first.is_none() {
                self.first = Some(e);
            }
        }
    }

    /// The first error, or success where there was none.
    pub fn finish(self) -> (r: Result<(), E>)
        ensures
            match self.spec_first() {
                Some(e) => r == Err::<(), E>(e),
                None => r is Ok,
            },
    {
        match self.first {
            Some(e) => Err(e),
            None => Ok(()),
        }
    }
}

} // verus!
