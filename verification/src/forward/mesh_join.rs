//! How the shares of the ranks join the hidden rows.

use crate::device::DevicePtr;
use crate::forward::mesh::{
    after, after_all, full_rows, joined, lemma_after_concat, lemma_after_one, lemma_after_push,
    normed, reduced, renormed, share_of, summed, width, Cell, Half, Line, Mesh,
};
use crate::forward::op::{Op, StreamSel};
use crate::forward::rows::{apart, at, lemma_apart, lemma_put, only, put, within};
use crate::forward::tp::{ar_marks, wait_of, waits_of};
use crate::plan::flat;
use crate::tp_sharded::Qwen3MoETpModel;
use vstd::prelude::*;

verus! {

/// Every rank holds the lines as hidden rows.
pub open spec fn hold(m: Qwen3MoETpModel, mc: Mesh, hid: Seq<DevicePtr>, lines: Seq<Line>) -> bool {
    forall|r: usize, i: int|
        r < hid.len() && 0 <= i < lines.len() ==> mc.cells[#[trigger] at(
            r,
            hid[r as int],
            i,
            width(m),
        )] == (Cell::Hidden { line: lines[i] })
}

/// Every rank holds its share of a half of a layer for each line.
pub open spec fn shares(
    m: Qwen3MoETpModel,
    mc: Mesh,
    par: Seq<DevicePtr>,
    lines: Seq<Line>,
    halves: Seq<Half>,
    world: nat,
) -> bool {
    forall|r: usize, i: int|
        r < par.len() && 0 <= i < lines.len() ==> share_of(
            mc.cells[#[trigger] at(r, par[r as int], i, width(m))],
            lines[i],
            halves[i],
            r,
            world,
        )
}

/// Every rank holds the lines after a norm.
pub open spec fn hold_normed(
    m: Qwen3MoETpModel,
    mc: Mesh,
    mid: Seq<DevicePtr>,
    lines: Seq<Line>,
    weights: Seq<DevicePtr>,
) -> bool {
    forall|r: usize, i: int|
        r < mid.len() && 0 <= i < lines.len() ==> mc.cells[#[trigger] at(
            r,
            mid[r as int],
            i,
            width(m),
        )] == (Cell::Normed { line: lines[i], weight: weights[r as int] })
}

/// On every rank the buffers have nothing in common.
pub open spec fn all_apart(a: Seq<DevicePtr>, b: Seq<DevicePtr>, width: int, n: nat) -> bool {
    a.len() == b.len() && forall|r: int| 0 <= r < a.len() ==> apart(#[trigger] a[r], b[r], width, n)
}

/// The lines with their halves added.
pub open spec fn plus_all(lines: Seq<Line>, halves: Seq<Half>) -> Seq<Line> {
    Seq::new(lines.len(), |i: int| lines[i].plus(halves[i]))
}

/// Caches, logits and what was fetched are as they were.
pub open spec fn calm(a: Mesh, b: Mesh) -> bool {
    &&& b.kv == a.kv
    &&& b.states == a.states
    &&& b.gathered == a.gathered
    &&& b.logits == a.logits
    &&& b.fetched == a.fetched
    &&& b.picked == a.picked
}

/// No rank starts before the others have written all.
pub open spec fn all_ordered(mc: Mesh, world: nat) -> bool {
    forall|q: usize, p: usize|
        q < world && p < world && p != q ==> #[trigger] mc.ordered.contains((q, p))
}

/// The buffers have been entered into an all-reduce.
pub open spec fn entered(mc: Mesh, hid: Seq<DevicePtr>, par: Seq<DevicePtr>, k: nat) -> bool {
    forall|p: usize|
        p < k ==> #[trigger] mc.operands[p] == (hid[p as int], par[p as int])
}

proof fn lemma_joined(
    m: Qwen3MoETpModel,
    mc: Mesh,
    hid: Seq<DevicePtr>,
    par: Seq<DevicePtr>,
    lines: Seq<Line>,
    halves: Seq<Half>,
    world: u32,
    q: usize,
    i: int,
)
    requires
        q < world == hid.len() == par.len(),
        0 <= i < lines.len(),
        hold(m, mc, hid, lines),
        shares(m, mc, par, lines, halves, world as nat),
        entered(mc, hid, par, world as nat),
        all_ordered(mc, world as nat),
    ensures
        joined(m, mc, world, q, i) == (Cell::Hidden { line: plus_all(lines, halves)[i] }),
{
    assert(mc.operands[q] == (hid[q as int], par[q as int]));
    assert(mc.cells[at(q, hid[q as int], i, width(m))] == (Cell::Hidden { line: lines[i] }));
    assert(share_of(
        mc.cells[at(q, par[q as int], i, width(m))],
        lines[i],
        halves[i],
        q,
        world as nat,
    ));
    assert forall|p: usize| p < world implies {
        &&& share_of(
            mc.cells[at(p, (#[trigger] mc.operands[p]).1, i, width(m))],
            lines[i],
            halves[i],
            p,
            world as nat,
        )
        &&& p != q ==> mc.ordered.contains((q, p))
    } by {
        assert(mc.operands[p] == (hid[p as int], par[p as int]));
        assert(share_of(
            mc.cells[at(p, par[p as int], i, width(m))],
            lines[i],
            halves[i],
            p,
            world as nat,
        ));
    }
}

/// An all-reduce adds the shares to the hidden rows of the ranks below `k`.
proof fn lemma_reduced(
    m: Qwen3MoETpModel,
    mc: Mesh,
    hid: Seq<DevicePtr>,
    par: Seq<DevicePtr>,
    lines: Seq<Line>,
    halves: Seq<Half>,
    world: u32,
    k: nat,
)
    requires
        width(m) > 0,
        k <= world == hid.len() == par.len(),
        hold(m, mc, hid, lines),
        shares(m, mc, par, lines, halves, world as nat),
        entered(mc, hid, par, world as nat),
        all_ordered(mc, world as nat),
    ensures
        hold(
            m,
            Mesh { cells: reduced(m, mc, world, lines.len(), k), ..mc },
            hid.take(k as int),
            plus_all(lines, halves),
        ),
        forall|e: (usize, int)|
            e.0 >= k ==> #[trigger] reduced(m, mc, world, lines.len(), k)[e] == mc.cells[e],
    decreases k,
{
    let n = lines.len();
    if k > 0 {
        let j = (k - 1) as nat;
        let q = j as usize;
        lemma_reduced(m, mc, hid, par, lines, halves, world, j);
        let vals = Seq::new(n, |i: int| joined(m, mc, world, q, i));
        let before = reduced(m, mc, world, n, j);
        let now = reduced(m, mc, world, n, k);
        assert(mc.operands[q] == (hid[q as int], par[q as int]));
        lemma_put(before, q, hid[q as int], width(m), vals);
        assert forall|r: usize, i: int| r < k && 0 <= i < n implies now[#[trigger] at(
            r,
            hid.take(k as int)[r as int],
            i,
            width(m),
        )] == (Cell::Hidden { line: plus_all(lines, halves)[i] }) by {
            if r == q {
                lemma_joined(m, mc, hid, par, lines, halves, world, q, i);
                assert(now[at(q, hid[q as int], i, width(m))] == vals[i]);
            } else {
                assert(hid.take(j as int)[r as int] == hid[r as int]);
                assert(before[at(r, hid.take(j as int)[r as int], i, width(m))] == (
                Cell::Hidden { line: plus_all(lines, halves)[i] }));
            }
        }
    }
}

/// The norm of all ranks after an all-reduce.
proof fn lemma_renormed(
    m: Qwen3MoETpModel,
    mc: Mesh,
    cells: Map<(usize, int), Cell>,
    hid: Seq<DevicePtr>,
    par: Seq<DevicePtr>,
    mid: Seq<DevicePtr>,
    weights: Seq<DevicePtr>,
    lines: Seq<Line>,
    k: nat,
)
    requires
        width(m) > 0,
        k <= hid.len() == mid.len() == weights.len() <= u32::MAX,
        all_apart(hid, mid, width(m), lines.len()),
        hold(m, Mesh { cells, ..mc }, hid, lines),
        entered(mc, hid, par, hid.len()),
        forall|p: usize|
            p < hid.len() ==> #[trigger] mc.norms[p] == (weights[p as int], mid[p as int]),
    ensures
        ({
            let now = Mesh { cells: renormed(m, mc, cells, lines.len(), k), ..mc };
            &&& hold(m, now, hid, lines)
            &&& hold_normed(m, now, mid.take(k as int), lines, weights)
        }),
    decreases k,
{
    let n = lines.len();
    if k > 0 {
        let j = (k - 1) as nat;
        let q = j as usize;
        lemma_renormed(m, mc, cells, hid, par, mid, weights, lines, j);
        let before = renormed(m, mc, cells, n, j);
        let now = renormed(m, mc, cells, n, k);
        let vals = Seq::new(
            n,
            |i: int| normed(before[at(q, mc.operands[q].0, i, width(m))], mc.norms[q].0),
        );
        assert(mc.operands[q] == (hid[q as int], par[q as int]));
        assert(mc.norms[q] == (weights[q as int], mid[q as int]));
        lemma_put(before, q, mid[q as int], width(m), vals);
        assert(apart(hid[q as int], mid[q as int], width(m), n));
        lemma_apart(q, hid[q as int], mid[q as int], width(m), n);
        assert forall|r: usize, i: int| r < hid.len() && 0 <= i < n implies now[#[trigger] at(
            r,
            hid[r as int],
            i,
            width(m),
        )] == (Cell::Hidden { line: lines[i] }) by {
            let e = at(r, hid[r as int], i, width(m));
            assert(before[e] == (Cell::Hidden { line: lines[i] }));
            assert(!within(e, q, mid[q as int], width(m), n));
        }
        assert forall|r: usize, i: int| r < k && 0 <= i < n implies now[#[trigger] at(
            r,
            mid.take(k as int)[r as int],
            i,
            width(m),
        )] == (Cell::Normed { line: lines[i], weight: weights[r as int] }) by {
            if r == q {
                assert(now[at(q, mid[q as int], i, width(m))] == vals[i]);
                assert(before[at(q, hid[q as int], i, width(m))] == (Cell::Hidden {
                    line: lines[i],
                }));
            } else {
                assert(mid.take(j as int)[r as int] == mid[r as int]);
                assert(before[at(r, mid.take(j as int)[r as int], i, width(m))] == (
                Cell::Normed { line: lines[i], weight: weights[r as int] }));
            }
        }
    }
}

/// The operands of the first `k` ranks.
pub open spec fn operand_ops(hid: Seq<DevicePtr>, par: Seq<DevicePtr>, k: nat) -> Seq<Op> {
    Seq::new(
        k,
        |r: int| Op::ArOperand { rank: r as usize, hidden: hid[r], partial: par[r] },
    )
}

proof fn lemma_operands(
    m: Qwen3MoETpModel,
    mc: Mesh,
    hid: Seq<DevicePtr>,
    par: Seq<DevicePtr>,
    k: nat,
)
    requires
        k <= u32::MAX,
    ensures
        ({
            let now = after_all(m, mc, operand_ops(hid, par, k));
            &&& entered(now, hid, par, k)
            &&& now.cells == mc.cells
            &&& now.ordered == mc.ordered
            &&& calm(mc, now)
        }),
    decreases k,
{
    if k > 0 {
        let j = (k - 1) as nat;
        lemma_operands(m, mc, hid, par, j);
        assert(operand_ops(hid, par, k).drop_last() =~= operand_ops(hid, par, j));
        let before = after_all(m, mc, operand_ops(hid, par, j));
        let now = after_all(m, mc, operand_ops(hid, par, k));
        assert(now == after(m, before, operand_ops(hid, par, k).last()));
        assert forall|p: usize| p < k implies #[trigger] now.operands[p] == (
            hid[p as int],
            par[p as int],
        ) by {
            if p < j {
                assert(before.operands[p] == (hid[p as int], par[p as int]));
            }
        }
    }
}

/// An all-reduce of all ranks adds the shares to the hidden rows.
pub proof fn lemma_all_reduce(
    m: Qwen3MoETpModel,
    mc: Mesh,
    hid: Seq<DevicePtr>,
    par: Seq<DevicePtr>,
    lines: Seq<Line>,
    halves: Seq<Half>,
    world: u32,
    elems: u32,
)
    requires
        width(m) > 0,
        world == hid.len() == par.len(),
        full_rows(m, elems as int) == lines.len(),
        hold(m, mc, hid, lines),
        shares(m, mc, par, lines, halves, world as nat),
        all_ordered(mc, world as nat),
    ensures
        ({
            let now = after_all(
                m,
                mc,
                operand_ops(hid, par, world as nat).push(Op::AllReduce { world, elems }),
            );
            &&& hold(m, now, hid, plus_all(lines, halves))
            &&& calm(mc, now)
        }),
{
    lemma_operands(m, mc, hid, par, world as nat);
    let mid = after_all(m, mc, operand_ops(hid, par, world as nat));
    lemma_after_push(
        m,
        mc,
        operand_ops(hid, par, world as nat),
        Op::AllReduce { world, elems },
    );
    lemma_reduced(m, mid, hid, par, lines, halves, world, world as nat);
    assert(hid.take(world as int) =~= hid);
}

/// The operands and norms of the first `k` ranks.
pub open spec fn norm_operand_ops(
    hid: Seq<DevicePtr>,
    par: Seq<DevicePtr>,
    weights: Seq<DevicePtr>,
    outs: Seq<DevicePtr>,
    k: nat,
) -> Seq<Op> {
    flat(
        k,
        |r: int|
            seq![
                Op::ArOperand { rank: r as usize, hidden: hid[r], partial: par[r] },
                Op::ArNorm { rank: r as usize, weight: weights[r], out: outs[r] },
            ],
    )
}

proof fn lemma_norm_operands(
    m: Qwen3MoETpModel,
    mc: Mesh,
    hid: Seq<DevicePtr>,
    par: Seq<DevicePtr>,
    weights: Seq<DevicePtr>,
    outs: Seq<DevicePtr>,
    k: nat,
)
    requires
        k <= u32::MAX,
    ensures
        ({
            let now = after_all(m, mc, norm_operand_ops(hid, par, weights, outs, k));
            &&& entered(now, hid, par, k)
            &&& forall|p: usize|
                p < k ==> #[trigger] now.norms[p] == (weights[p as int], outs[p as int])
            &&& now.cells == mc.cells
            &&& now.ordered == mc.ordered
            &&& calm(mc, now)
        }),
    decreases k,
{
    if k > 0 {
        let j = (k - 1) as nat;
        lemma_norm_operands(m, mc, hid, par, weights, outs, j);
        let first = norm_operand_ops(hid, par, weights, outs, j);
        let a = Op::ArOperand { rank: j as usize, hidden: hid[j as int], partial: par[j as int] };
        let b = Op::ArNorm { rank: j as usize, weight: weights[j as int], out: outs[j as int] };
        let before = after_all(m, mc, first);
        let now = after_all(m, mc, norm_operand_ops(hid, par, weights, outs, k));
        assert(norm_operand_ops(hid, par, weights, outs, k) =~= first.push(a).push(b));
        lemma_after_push(m, mc, first, a);
        lemma_after_push(m, mc, first.push(a), b);
        assert(now == after(m, after(m, before, a), b));
        assert forall|p: usize| p < k implies #[trigger] now.operands[p] == (
            hid[p as int],
            par[p as int],
        ) by {
            if p < j {
                assert(before.operands[p] == (hid[p as int], par[p as int]));
            }
        }
        assert forall|p: usize| p < k implies #[trigger] now.norms[p] == (
            weights[p as int],
            outs[p as int],
        ) by {
            if p < j {
                assert(before.norms[p] == (weights[p as int], outs[p as int]));
            }
        }
    }
}

/// An all-reduce with norm adds the shares to the hidden rows and norms the sums.
pub proof fn lemma_all_reduce_norm(
    m: Qwen3MoETpModel,
    mc: Mesh,
    hid: Seq<DevicePtr>,
    par: Seq<DevicePtr>,
    weights: Seq<DevicePtr>,
    outs: Seq<DevicePtr>,
    lines: Seq<Line>,
    halves: Seq<Half>,
    world: u32,
    elems: u32,
)
    requires
        width(m) > 0,
        world == hid.len() == par.len() == weights.len() == outs.len(),
        full_rows(m, elems as int) == lines.len(),
        all_apart(hid, outs, width(m), lines.len()),
        hold(m, mc, hid, lines),
        shares(m, mc, par, lines, halves, world as nat),
        all_ordered(mc, world as nat),
    ensures
        ({
            let now = after_all(
                m,
                mc,
                norm_operand_ops(hid, par, weights, outs, world as nat).push(
                    Op::AllReduceNorm { world, elems },
                ),
            );
            &&& hold(m, now, hid, plus_all(lines, halves))
            &&& hold_normed(m, now, outs, plus_all(lines, halves), weights)
            &&& calm(mc, now)
        }),
{
    let first = norm_operand_ops(hid, par, weights, outs, world as nat);
    lemma_norm_operands(m, mc, hid, par, weights, outs, world as nat);
    let mid = after_all(m, mc, first);
    lemma_after_push(m, mc, first, Op::AllReduceNorm { world, elems });
    lemma_reduced(m, mid, hid, par, lines, halves, world, world as nat);
    assert(hid.take(world as int) =~= hid);
    assert(outs.take(world as int) =~= outs);
    let cells = reduced(m, mid, world, lines.len(), world as nat);
    let sums = plus_all(lines, halves);
    assert(sums.len() == lines.len());
    lemma_renormed(m, mid, cells, hid, par, outs, weights, sums, world as nat);
}

/// Waiting for every rank orders all of them.
pub proof fn lemma_syncs(m: Qwen3MoETpModel, mc: Mesh, k: nat)
    requires
        k <= u32::MAX,
    ensures
        ({
            let now = after_all(
                m,
                mc,
                Seq::new(
                    k,
                    |r: int| Op::Sync { rank: r as usize, stream: StreamSel::Default },
                ),
            );
            &&& all_ordered(now, k)
            &&& forall|q: usize, p: usize| p < k ==> #[trigger] now.ordered.contains((q, p))
            &&& now.cells == mc.cells
            &&& calm(mc, now)
        }),
    decreases k,
{
    if k > 0 {
        let j = (k - 1) as nat;
        lemma_syncs(m, mc, j);
        let f = |r: int| Op::Sync { rank: r as usize, stream: StreamSel::Default };
        assert(Seq::new(k, f).drop_last() =~= Seq::new(j, f));
        assert(Seq::new(k, f).last() == f(j as int));
        let before = after_all(m, mc, Seq::new(j, f));
        let now = after_all(m, mc, Seq::new(k, f));
        assert(now == after(m, before, f(j as int)));
        assert forall|q: usize, p: usize| p < k implies #[trigger] now.ordered.contains((q, p)) by {
            if p < j {
                assert(before.ordered.contains((q, p)));
            }
        }
    }
}

proof fn lemma_records(m: Qwen3MoETpModel, mc: Mesh, k: nat)
    requires
        k <= u32::MAX,
    ensures
        ({
            let now = after_all(
                m,
                mc,
                Seq::new(k, |r: int| Op::RecordDone { rank: r as usize }),
            );
            &&& forall|p: usize| p < k ==> #[trigger] now.marked.contains(p)
            &&& now.cells == mc.cells
            &&& calm(mc, now)
        }),
    decreases k,
{
    if k > 0 {
        let j = (k - 1) as nat;
        lemma_records(m, mc, j);
        let f = |r: int| Op::RecordDone { rank: r as usize };
        assert(Seq::new(k, f).drop_last() =~= Seq::new(j, f));
        assert(Seq::new(k, f).last() == f(j as int));
        let before = after_all(m, mc, Seq::new(j, f));
        let now = after_all(m, mc, Seq::new(k, f));
        assert(now == after(m, before, f(j as int)));
        assert forall|p: usize| p < k implies #[trigger] now.marked.contains(p) by {
            if p < j {
                assert(before.marked.contains(p));
            }
        }
    }
}

/// Rank `r` waits for the first `k` of the ranks, all of which have set their marks.
proof fn lemma_waits(m: Qwen3MoETpModel, mc: Mesh, ranks: nat, r: usize, k: nat)
    requires
        k <= ranks <= u32::MAX,
        forall|p: usize| p < ranks ==> #[trigger] mc.marked.contains(p),
    ensures
        ({
            let now = after_all(m, mc, waits_of(k, r as int));
            &&& forall|p: usize| p < k && p != r ==> #[trigger] now.ordered.contains((r, p))
            &&& mc.ordered.subset_of(now.ordered)
            &&& now.marked == mc.marked
            &&& now.cells == mc.cells
            &&& calm(mc, now)
        }),
    decreases k,
{
    if k > 0 {
        let j = (k - 1) as nat;
        lemma_waits(m, mc, ranks, r, j);
        let f = |p: int| wait_of(r as int, p);
        let before = after_all(m, mc, waits_of(j, r as int));
        let now = after_all(m, mc, waits_of(k, r as int));
        lemma_after_concat(m, mc, flat(j, f), f(j as int));
        if j != r {
            lemma_after_one(m, before, Op::WaitDone { rank: r, peer: j as usize });
            assert(before.marked.contains(j as usize));
        }
        assert forall|p: usize| p < k && p != r implies #[trigger] now.ordered.contains((r, p)) by {
            if p < j {
                assert(before.ordered.contains((r, p)));
            }
        }
    }
}

proof fn lemma_all_wait(m: Qwen3MoETpModel, mc: Mesh, ranks: nat, k: nat)
    requires
        k <= ranks <= u32::MAX,
        forall|p: usize| p < ranks ==> #[trigger] mc.marked.contains(p),
    ensures
        ({
            let now = after_all(m, mc, flat(k, |r: int| waits_of(ranks, r)));
            &&& forall|q: usize, p: usize|
                q < k && p < ranks && p != q ==> #[trigger] now.ordered.contains((q, p))
            &&& now.marked == mc.marked
            &&& now.cells == mc.cells
            &&& calm(mc, now)
        }),
    decreases k,
{
    if k > 0 {
        let j = (k - 1) as nat;
        lemma_all_wait(m, mc, ranks, j);
        let f = |r: int| waits_of(ranks, r);
        let before = after_all(m, mc, flat(j, f));
        let now = after_all(m, mc, flat(k, f));
        lemma_after_concat(m, mc, flat(j, f), f(j as int));
        lemma_waits(m, before, ranks, j as usize, ranks);
        assert forall|q: usize, p: usize| q < k && p < ranks && p != q implies
            #[trigger] now.ordered.contains((q, p)) by {
            if q < j {
                assert(before.ordered.contains((q, p)));
            }
        }
    }
}

/// Marking and waiting orders all ranks.
pub proof fn lemma_marks(m: Qwen3MoETpModel, mc: Mesh, ranks: usize)
    requires
        ranks <= u32::MAX,
    ensures
        ({
            let now = after_all(m, mc, ar_marks(ranks));
            &&& all_ordered(now, ranks as nat)
            &&& now.cells == mc.cells
            &&& calm(mc, now)
        }),
{
    let a = Seq::new(ranks as nat, |r: int| Op::RecordDone { rank: r as usize });
    let b = flat(ranks as nat, |r: int| waits_of(ranks as nat, r));
    lemma_records(m, mc, ranks as nat);
    lemma_after_concat(m, mc, a, b);
    lemma_all_wait(m, after_all(m, mc, a), ranks as nat, ranks as nat);
}

/// A share that is the whole is added to the hidden rows of one rank.
pub proof fn lemma_add(
    m: Qwen3MoETpModel,
    mc: Mesh,
    rank: usize,
    hid: DevicePtr,
    par: DevicePtr,
    lines: Seq<Line>,
    halves: Seq<Half>,
    elems: usize,
)
    requires
        width(m) > 0,
        full_rows(m, elems as int) == lines.len(),
        forall|i: int|
            0 <= i < lines.len() ==> mc.cells[#[trigger] at(rank, hid, i, width(m))] == (
            Cell::Hidden { line: lines[i] }),
        forall|i: int|
            0 <= i < lines.len() ==> share_of(
                mc.cells[#[trigger] at(rank, par, i, width(m))],
                lines[i],
                halves[i],
                rank,
                1,
            ),
    ensures
        ({
            let now = after(m, mc, Op::Add { rank, a: hid, b: par, out: hid, elems });
            &&& forall|i: int|
                0 <= i < lines.len() ==> now.cells[#[trigger] at(rank, hid, i, width(m))] == (
                Cell::Hidden { line: plus_all(lines, halves)[i] })
            &&& only(mc.cells, now.cells, rank, hid, width(m), lines.len())
            &&& calm(mc, now)
        }),
{
    let w = width(m);
    let vals = Seq::new(
        full_rows(m, elems as int),
        |i: int| summed(mc.cells[at(rank, hid, i, w)], mc.cells[at(rank, par, i, w)], rank),
    );
    lemma_put(mc.cells, rank, hid, w, vals);
    let now = after(m, mc, Op::Add { rank, a: hid, b: par, out: hid, elems });
    assert forall|i: int| 0 <= i < lines.len() implies now.cells[#[trigger] at(rank, hid, i, w)]
        == (Cell::Hidden { line: plus_all(lines, halves)[i] }) by {
        assert(share_of(mc.cells[at(rank, par, i, w)], lines[i], halves[i], rank, 1));
        assert(mc.cells[at(rank, hid, i, w)] == (Cell::Hidden { line: lines[i] }));
        assert(vals[i] == (Cell::Hidden { line: lines[i].plus(halves[i]) }));
    }
}

/// The hidden rows of one rank are normed.
pub proof fn lemma_norm(
    m: Qwen3MoETpModel,
    mc: Mesh,
    rank: usize,
    hid: DevicePtr,
    weight: DevicePtr,
    mid: DevicePtr,
    lines: Seq<Line>,
    n: usize,
)
    requires
        width(m) > 0,
        n == lines.len(),
        forall|i: int|
            0 <= i < lines.len() ==> mc.cells[#[trigger] at(rank, hid, i, width(m))] == (
            Cell::Hidden { line: lines[i] }),
    ensures
        ({
            let now = after(
                m,
                mc,
                Op::RmsNorm {
                    rank,
                    x: hid,
                    weight,
                    out: mid,
                    rows: n,
                    hidden: m.config.hidden_size,
                },
            );
            &&& forall|i: int|
                0 <= i < lines.len() ==> now.cells[#[trigger] at(rank, mid, i, width(m))] == (
                Cell::Normed { line: lines[i], weight })
            &&& only(mc.cells, now.cells, rank, mid, width(m), lines.len())
            &&& calm(mc, now)
        }),
{
    let w = width(m);
    let vals = Seq::new(
        n as nat,
        |i: int|
            if m.config.hidden_size == m.config.hidden_size {
                normed(mc.cells[at(rank, hid, i, w)], weight)
            } else {
                Cell::Unknown
            },
    );
    lemma_put(mc.cells, rank, mid, w, vals);
    let op = Op::RmsNorm {
        rank,
        x: hid,
        weight,
        out: mid,
        rows: n,
        hidden: m.config.hidden_size,
    };
    let now = after(m, mc, op);
    assert(now.cells == put(mc.cells, rank, mid, w, vals));
    assert forall|i: int| 0 <= i < lines.len() implies now.cells[#[trigger] at(rank, mid, i, w)]
        == (Cell::Normed { line: lines[i], weight }) by {
        assert(mc.cells[at(rank, hid, i, w)] == (Cell::Hidden { line: lines[i] }));
        assert(vals[i] == (Cell::Normed { line: lines[i], weight }));
    }
}

} // verus!
