//! Device memory seen as rows: what lies behind an address of a rank, for the addresses
//! at which rows begin.

use crate::device::DevicePtr;
use vstd::prelude::*;

verus! {

/// The place of row `i` behind `base` on `rank`, with `width` bytes to a row.
pub open spec fn at(rank: usize, base: DevicePtr, i: int, width: int) -> (usize, int) {
    (rank, base.0 + i * width)
}

/// The first `n` rows behind `base`.
pub open spec fn rows<T>(
    mem: Map<(usize, int), T>,
    rank: usize,
    base: DevicePtr,
    width: int,
    n: nat,
) -> Seq<T> {
    Seq::new(n, |i: int| mem[at(rank, base, i, width)])
}

/// The memory after rows have been written behind `base`.
pub open spec fn put<T>(
    mem: Map<(usize, int), T>,
    rank: usize,
    base: DevicePtr,
    width: int,
    vals: Seq<T>,
) -> Map<(usize, int), T>
    decreases vals.len(),
{
    if vals.len() == 0 {
        mem
    } else {
        put(mem, rank, base, width, vals.drop_last()).insert(
            at(rank, base, vals.len() - 1, width),
            vals.last(),
        )
    }
}

/// The place lies among the first `n` rows behind `base`.
pub open spec fn within(k: (usize, int), rank: usize, base: DevicePtr, width: int, n: nat) -> bool {
    k.0 == rank && base.0 <= k.1 < base.0 + n * width
}

/// The `n` rows behind `a` and those behind `b` have no byte in common.
pub open spec fn apart(a: DevicePtr, b: DevicePtr, width: int, n: nat) -> bool {
    a.0 + n * width <= b.0 || b.0 + n * width <= a.0
}

/// Only the first `n` rows behind `base` on `rank` may differ.
pub open spec fn only<T>(
    before: Map<(usize, int), T>,
    after: Map<(usize, int), T>,
    rank: usize,
    base: DevicePtr,
    width: int,
    n: nat,
) -> bool {
    forall|k: (usize, int)| !within(k, rank, base, width, n) ==> #[trigger] after[k] == before[k]
}

/// Row `i` of `n` lies among them.
pub proof fn lemma_row_within(rank: usize, base: DevicePtr, i: int, width: int, n: nat)
    requires
        width > 0,
        0 <= i < n,
    ensures
        within(at(rank, base, i, width), rank, base, width, n),
{
    assert(0 <= i * width && i * width + width <= n * width) by (nonlinear_arith)
        requires
            width > 0,
            0 <= i < n,
    ;
}

/// Rows of buffers that are apart are different places.
pub proof fn lemma_apart(rank: usize, a: DevicePtr, b: DevicePtr, width: int, n: nat)
    requires
        width > 0,
        apart(a, b, width, n),
    ensures
        forall|i: int|
            0 <= i < n ==> !within(#[trigger] at(rank, a, i, width), rank, b, width, n),
        forall|i: int|
            0 <= i < n ==> !within(#[trigger] at(rank, b, i, width), rank, a, width, n),
{
    assert forall|i: int| 0 <= i < n implies !within(
        #[trigger] at(rank, a, i, width),
        rank,
        b,
        width,
        n,
    ) by {
        lemma_row_within(rank, a, i, width, n);
    }
    assert forall|i: int| 0 <= i < n implies !within(
        #[trigger] at(rank, b, i, width),
        rank,
        a,
        width,
        n,
    ) by {
        lemma_row_within(rank, b, i, width, n);
    }
}

/// Different rows of a buffer are different places.
pub proof fn lemma_rows_differ(rank: usize, base: DevicePtr, i: int, j: int, width: int)
    requires
        width > 0,
        i != j,
    ensures
        at(rank, base, i, width) != at(rank, base, j, width),
{
    assert(i * width != j * width) by (nonlinear_arith)
        requires
            width > 0,
            i != j,
    ;
}

/// Writing rows sets them and leaves everything else as it was.
pub proof fn lemma_put<T>(
    mem: Map<(usize, int), T>,
    rank: usize,
    base: DevicePtr,
    width: int,
    vals: Seq<T>,
)
    requires
        width > 0,
    ensures
        forall|i: int|
            0 <= i < vals.len() ==> put(mem, rank, base, width, vals)[#[trigger] at(
                rank,
                base,
                i,
                width,
            )] == vals[i],
        only(mem, put(mem, rank, base, width, vals), rank, base, width, vals.len()),
    decreases vals.len(),
{
    let after = put(mem, rank, base, width, vals);
    if vals.len() > 0 {
        let last = vals.len() - 1;
        let mid = put(mem, rank, base, width, vals.drop_last());
        lemma_put(mem, rank, base, width, vals.drop_last());
        assert forall|i: int| 0 <= i < vals.len() implies after[#[trigger] at(
            rank,
            base,
            i,
            width,
        )] == vals[i] by {
            if i != last {
                lemma_rows_differ(rank, base, i, last, width);
                assert(mid[at(rank, base, i, width)] == vals.drop_last()[i]);
            }
        }
        lemma_row_within(rank, base, last, width, vals.len());
        assert(vals.drop_last().len() * width <= vals.len() * width) by (nonlinear_arith)
            requires
                width > 0,
                vals.drop_last().len() <= vals.len(),
        ;
        assert forall|k: (usize, int)|
            !within(k, rank, base, width, vals.len()) implies #[trigger] after[k] == mem[k] by {
            assert(mid[k] == mem[k]);
        }
    }
}

} // verus!
