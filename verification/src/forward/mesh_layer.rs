//! A layer of a tensor-parallel pass after its attention blocks.

use crate::device::DevicePtr;
use crate::forward::mesh::{
    after, after_all, ffn_norm_named, full_rows, lemma_after_concat, lemma_after_one, share_of,
    width, Cell, Half, Line, Mesh,
};
use crate::forward::mesh_ffn::{
    ffn_half, lemma_ffn_rank, lemma_full_rows, lemma_norm_named, normed_at,
};
use crate::forward::mesh_join::{
    calm, hold, hold_normed, lemma_add, lemma_all_reduce, lemma_norm, lemma_syncs, operand_ops,
    plus_all, shares,
};
use crate::forward::moe_tp::experts_fit;
use crate::forward::op::{AttnOrFfnPub, ForwardError, Op, StreamSel};
use crate::forward::rows::{apart, at, lemma_apart, within};
use crate::forward::tp::{
    ar_prefill_launch, ar_prefill_run, batch_elems, ffn_run, norm_spec, prefill_ffn_run,
    prefill_ffn_tail, prefill_norm_run, prefill_tail, spec_ffn_world, tensors_at, world_supported,
    BatchCtx, FfnIo, LayerScratch, ShardedForwardPrefillScratchTp,
};
use crate::names::TensorKind;
use crate::plan::{each, Run};
use crate::tp_sharded::Qwen3MoETpModel;
use vstd::prelude::*;

verus! {

/// The same half for every line.
pub open spec fn alike(half: Half, n: nat) -> Seq<Half> {
    Seq::new(n, |i: int| half)
}

/// The buffers of a rank that rows pass through.
pub struct Bank {
    pub hidden: DevicePtr,
    pub attn: DevicePtr,
    pub ffn: DevicePtr,
    pub mid: DevicePtr,
    pub shared: DevicePtr,
}

/// Buffers that are used at the same time have no byte in common.
pub open spec fn bank_apart(b: Bank, width: int, n: nat) -> bool {
    &&& apart(b.hidden, b.attn, width, n)
    &&& apart(b.hidden, b.ffn, width, n)
    &&& apart(b.hidden, b.mid, width, n)
    &&& apart(b.hidden, b.shared, width, n)
    &&& apart(b.mid, b.ffn, width, n)
    &&& apart(b.mid, b.shared, width, n)
    &&& apart(b.shared, b.ffn, width, n)
}

pub open spec fn banks_apart(banks: Seq<Bank>, width: int, n: nat) -> bool {
    forall|r: int| 0 <= r < banks.len() ==> bank_apart(#[trigger] banks[r], width, n)
}

pub open spec fn hids(banks: Seq<Bank>) -> Seq<DevicePtr> {
    Seq::new(banks.len(), |r: int| banks[r].hidden)
}

pub open spec fn atts(banks: Seq<Bank>) -> Seq<DevicePtr> {
    Seq::new(banks.len(), |r: int| banks[r].attn)
}

pub open spec fn ffns(banks: Seq<Bank>) -> Seq<DevicePtr> {
    Seq::new(banks.len(), |r: int| banks[r].ffn)
}

pub open spec fn mids(banks: Seq<Bank>) -> Seq<DevicePtr> {
    Seq::new(banks.len(), |r: int| banks[r].mid)
}

/// The FFNs of the first `k` ranks.
pub proof fn lemma_ffn_all(
    m: Qwen3MoETpModel,
    mc: Mesh,
    f: spec_fn(int) -> Run<Op, ForwardError>,
    ls: spec_fn(int) -> LayerScratch,
    io: spec_fn(int) -> FfnIo,
    banks: Seq<Bank>,
    weights: Seq<DevicePtr>,
    lines: Seq<Line>,
    il: usize,
    skip_shared: bool,
    world: u32,
    k: nat,
)
    requires
        width(m) > 0,
        world == 1 || world == 2 || world == 4,
        experts_fit(&m.config),
        lines.len() * m.config.hidden_size <= usize::MAX,
        k <= banks.len() == weights.len() <= u32::MAX,
        banks_apart(banks, width(m), lines.len()),
        hold(m, mc, hids(banks), lines),
        hold_normed(m, mc, mids(banks), lines, weights),
        each(k, f).err is None,
        forall|r: int|
            0 <= r < k ==> {
                &&& #[trigger] f(r) == ffn_run(m, il, r, world, ls(r), io(r))
                &&& io(r).x == banks[r].mid
                &&& io(r).partial == banks[r].ffn
                &&& io(r).n_tokens == lines.len()
                &&& io(r).skip_shared == skip_shared
                &&& !io(r).pre_quantized
                &&& ls(r).shared_delta_f16 == banks[r].shared
                &&& ffn_norm_named(m, r as usize, il, weights[r])
            },
    ensures
        ({
            let now = after_all(m, mc, each(k, f).ops);
            &&& hold(m, now, hids(banks), lines)
            &&& hold_normed(m, now, mids(banks), lines, weights)
            &&& shares(
                m,
                now,
                ffns(banks).take(k as int),
                lines,
                alike(ffn_half(m.config, skip_shared, il), lines.len()),
                world as nat,
            )
            &&& calm(mc, now)
        }),
    decreases k,
{
    let wd = width(m);
    let n = lines.len();
    let half = ffn_half(m.config, skip_shared, il);
    if k == 0 {
        assert(each(k, f).ops =~= seq![]);
    } else {
        let j = (k - 1) as nat;
        let q = j as usize;
        lemma_ffn_all(m, mc, f, ls, io, banks, weights, lines, il, skip_shared, world, j);
        lemma_after_concat(m, mc, each(j, f).ops, f(j as int).ops);
        let b = after_all(m, mc, each(j, f).ops);
        let now = after_all(m, mc, each(k, f).ops);
        assert(f(q as int) == ffn_run(m, il, q as int, world, ls(q as int), io(q as int)));
        let bank = banks[q as int];
        assert(bank_apart(bank, wd, n));
        assert(normed_at(m, b, q, bank.mid, lines, weights[q as int])) by {
            assert forall|i: int| 0 <= i < n implies b.cells[#[trigger] at(q, bank.mid, i, wd)] == (
            Cell::Normed { line: lines[i], weight: weights[q as int] }) by {
                assert(b.cells[at(q, mids(banks)[q as int], i, wd)] == (Cell::Normed {
                    line: lines[i],
                    weight: weights[q as int],
                }));
            }
        }
        lemma_ffn_rank(
            m,
            b,
            il,
            q,
            world,
            ls(q as int),
            io(q as int),
            lines,
            weights[q as int],
        );
        lemma_apart(q, bank.hidden, bank.ffn, wd, n);
        lemma_apart(q, bank.hidden, bank.shared, wd, n);
        lemma_apart(q, bank.mid, bank.ffn, wd, n);
        lemma_apart(q, bank.mid, bank.shared, wd, n);
        assert forall|r: usize, i: int| r < banks.len() && 0 <= i < n implies now.cells[#[trigger] at(
            r,
            hids(banks)[r as int],
            i,
            wd,
        )] == (Cell::Hidden { line: lines[i] }) by {
            let e = at(r, hids(banks)[r as int], i, wd);
            assert(b.cells[e] == (Cell::Hidden { line: lines[i] }));
            assert(!within(e, q, bank.ffn, wd, n) && !within(e, q, bank.shared, wd, n));
        }
        assert forall|r: usize, i: int| r < banks.len() && 0 <= i < n implies now.cells[#[trigger] at(
            r,
            mids(banks)[r as int],
            i,
            wd,
        )] == (Cell::Normed { line: lines[i], weight: weights[r as int] }) by {
            let e = at(r, mids(banks)[r as int], i, wd);
            assert(b.cells[e] == (Cell::Normed { line: lines[i], weight: weights[r as int] }));
            assert(!within(e, q, bank.ffn, wd, n) && !within(e, q, bank.shared, wd, n));
        }
        assert forall|r: usize, i: int| r < k && 0 <= i < n implies share_of(
            now.cells[#[trigger] at(r, ffns(banks).take(k as int)[r as int], i, wd)],
            lines[i],
            alike(half, n)[i],
            r,
            world as nat,
        ) by {
            if r < q {
                let e = at(r, ffns(banks).take(j as int)[r as int], i, wd);
                assert(share_of(b.cells[e], lines[i], alike(half, n)[i], r, world as nat));
                assert(!within(e, q, bank.ffn, wd, n) && !within(e, q, bank.shared, wd, n));
            } else {
                assert(share_of(now.cells[at(q, bank.ffn, i, wd)], lines[i], half, q, world as nat));
            }
        }
    }
}

/// Every one of the first `k` ranks adds its own result, which is the whole.
pub open spec fn add_ops(hid: Seq<DevicePtr>, par: Seq<DevicePtr>, elems: usize, k: nat) -> Seq<Op> {
    Seq::new(
        k,
        |r: int| Op::Add { rank: r as usize, a: hid[r], b: par[r], out: hid[r], elems },
    )
}

pub proof fn lemma_adds(
    m: Qwen3MoETpModel,
    mc: Mesh,
    hid: Seq<DevicePtr>,
    par: Seq<DevicePtr>,
    lines: Seq<Line>,
    halves: Seq<Half>,
    elems: usize,
    k: nat,
)
    requires
        width(m) > 0,
        full_rows(m, elems as int) == lines.len(),
        k <= hid.len() == par.len() <= u32::MAX,
        hold(m, mc, hid, lines),
        shares(m, mc, par, lines, halves, 1),
    ensures
        ({
            let now = after_all(m, mc, add_ops(hid, par, elems, k));
            &&& hold(m, now, hid.take(k as int), plus_all(lines, halves))
            &&& forall|e: (usize, int)| e.0 >= k ==> #[trigger] now.cells[e] == mc.cells[e]
            &&& calm(mc, now)
        }),
    decreases k,
{
    let wd = width(m);
    let n = lines.len();
    if k > 0 {
        let j = (k - 1) as nat;
        let q = j as usize;
        lemma_adds(m, mc, hid, par, lines, halves, elems, j);
        let b = after_all(m, mc, add_ops(hid, par, elems, j));
        let now = after_all(m, mc, add_ops(hid, par, elems, k));
        assert(add_ops(hid, par, elems, k).drop_last() =~= add_ops(hid, par, elems, j));
        assert(now == after(m, b, add_ops(hid, par, elems, k).last()));
        assert forall|i: int| 0 <= i < n implies b.cells[#[trigger] at(q, hid[q as int], i, wd)] == (
        Cell::Hidden { line: lines[i] }) by {
            assert(mc.cells[at(q, hid[q as int], i, wd)] == (Cell::Hidden { line: lines[i] }));
        }
        assert forall|i: int| 0 <= i < n implies share_of(
            b.cells[#[trigger] at(q, par[q as int], i, wd)],
            lines[i],
            halves[i],
            q,
            1,
        ) by {
            assert(share_of(
                mc.cells[at(q, par[q as int], i, wd)],
                lines[i],
                halves[i],
                q,
                1,
            ));
        }
        lemma_add(m, b, q, hid[q as int], par[q as int], lines, halves, elems);
        assert forall|r: usize, i: int| r < k && 0 <= i < n implies now.cells[#[trigger] at(
            r,
            hid.take(k as int)[r as int],
            i,
            wd,
        )] == (Cell::Hidden { line: plus_all(lines, halves)[i] }) by {
            if r < q {
                let e = at(r, hid.take(j as int)[r as int], i, wd);
                assert(b.cells[e] == (Cell::Hidden { line: plus_all(lines, halves)[i] }));
                assert(!within(e, q, hid[q as int], wd, n));
            } else {
                assert(now.cells[at(q, hid[q as int], i, wd)] == (Cell::Hidden {
                    line: plus_all(lines, halves)[i],
                }));
            }
        }
    }
}

/// The buffers of rank `r` for a batch.
pub open spec fn batch_bank(sc: ShardedForwardPrefillScratchTp, r: int) -> Bank {
    let s = sc.per_rank@[r];
    Bank {
        hidden: s.hidden_a,
        attn: s.partial_attn_out,
        ffn: s.partial_ffn_out,
        mid: s.layer->0.mid_norm_f16,
        shared: s.layer->0.shared_delta_f16,
    }
}

pub open spec fn batch_banks(sc: ShardedForwardPrefillScratchTp, ranks: usize) -> Seq<Bank> {
    Seq::new(ranks as nat, |r: int| batch_bank(sc, r))
}

/// The working memory has room for a batch: buffers that are used at the same time have
/// no byte in common, and the elements of the batch can be counted.
pub open spec fn batch_room(
    m: Qwen3MoETpModel,
    sc: ShardedForwardPrefillScratchTp,
    ranks: usize,
    n: nat,
) -> bool {
    &&& m.config.hidden_size > 0
    &&& n * m.config.hidden_size <= u32::MAX
    &&& banks_apart(batch_banks(sc, ranks), width(m), n)
}

/// The all-reduce of a batch adds the shares.
proof fn lemma_join_batch(
    m: Qwen3MoETpModel,
    mc: Mesh,
    sc: ShardedForwardPrefillScratchTp,
    c: BatchCtx,
    kind: AttnOrFfnPub,
    par: Seq<DevicePtr>,
    lines: Seq<Line>,
    halves: Seq<Half>,
)
    requires
        c.ranks == 1 || c.ranks == 2 || c.ranks == 4,
        c.ranks <= sc.per_rank@.len(),
        c.n_tokens == lines.len(),
        batch_room(m, sc, c.ranks, lines.len()),
        par == match kind {
            AttnOrFfnPub::Attn => atts(batch_banks(sc, c.ranks)),
            AttnOrFfnPub::Ffn => ffns(batch_banks(sc, c.ranks)),
        },
        hold(m, mc, hids(batch_banks(sc, c.ranks)), lines),
        shares(m, mc, par, lines, halves, c.ranks as nat),
    ensures
        ({
            let run = ar_prefill_run(sc, c.ranks, c.ranks as u32, batch_elems(m, c), kind);
            let now = after_all(m, mc, run.ops);
            &&& run.err is None
            &&& hold(m, now, hids(batch_banks(sc, c.ranks)), plus_all(lines, halves))
            &&& calm(mc, now)
        }),
{
    let world = c.ranks as u32;
    let elems = batch_elems(m, c);
    let hid = hids(batch_banks(sc, c.ranks));
    let run = ar_prefill_run(sc, c.ranks, world, elems, kind);
    let f = |r: int| Op::Sync { rank: r as usize, stream: StreamSel::Default };
    let syncs = Seq::new(c.ranks as nat, f);
    let launch = ar_prefill_launch(sc, world, elems, kind);
    assert(run.ops == syncs + launch.ops);
    lemma_syncs(m, mc, c.ranks as nat);
    lemma_after_concat(m, mc, syncs, launch.ops);
    let b = after_all(m, mc, syncs);
    assert(c.n_tokens * m.config.hidden_size == lines.len() * m.config.hidden_size);
    lemma_full_rows(m, lines.len() as int);
    assert(elems == lines.len() * m.config.hidden_size);
    assert(hold(m, b, hid, lines));
    assert(shares(m, b, par, lines, halves, world as nat));
    if world == 1 {
        assert(launch.ops =~= add_ops(hid, par, elems as usize, 1));
        lemma_adds(m, b, hid, par, lines, halves, elems as usize, 1);
        assert(hid.take(1) =~= hid);
    } else {
        assert(launch.ops =~= operand_ops(hid, par, world as nat).push(
            Op::AllReduce { world, elems },
        ));
        lemma_all_reduce(m, b, hid, par, lines, halves, world, elems);
    }
}

/// The norms of the first `k` ranks.
pub proof fn lemma_norm_all(
    m: Qwen3MoETpModel,
    mc: Mesh,
    f: spec_fn(int) -> Run<Op, ForwardError>,
    banks: Seq<Bank>,
    weights: Seq<DevicePtr>,
    lines: Seq<Line>,
    n: usize,
    k: nat,
)
    requires
        width(m) > 0,
        n == lines.len(),
        k <= banks.len() == weights.len() <= u32::MAX,
        banks_apart(banks, width(m), lines.len()),
        hold(m, mc, hids(banks), lines),
        each(k, f).err is None,
        forall|r: int|
            0 <= r < k && (#[trigger] f(r)).err is None ==> f(r).ops == seq![
                Op::RmsNorm {
                    rank: r as usize,
                    x: banks[r].hidden,
                    weight: weights[r],
                    out: banks[r].mid,
                    rows: n,
                    hidden: m.config.hidden_size,
                },
            ],
    ensures
        ({
            let now = after_all(m, mc, each(k, f).ops);
            &&& hold(m, now, hids(banks), lines)
            &&& hold_normed(m, now, mids(banks).take(k as int), lines, weights)
            &&& calm(mc, now)
        }),
    decreases k,
{
    let wd = width(m);
    if k == 0 {
        assert(each(k, f).ops =~= seq![]);
    } else {
        let j = (k - 1) as nat;
        let q = j as usize;
        lemma_norm_all(m, mc, f, banks, weights, lines, n, j);
        lemma_after_concat(m, mc, each(j, f).ops, f(j as int).ops);
        let b = after_all(m, mc, each(j, f).ops);
        let now = after_all(m, mc, each(k, f).ops);
        let bank = banks[q as int];
        assert(bank_apart(bank, wd, lines.len()));
        assert(f(q as int).err is None);
        lemma_after_one(m, b, f(q as int).ops[0]);
        assert forall|i: int| 0 <= i < n implies b.cells[#[trigger] at(q, bank.hidden, i, wd)] == (
        Cell::Hidden { line: lines[i] }) by {
            assert(b.cells[at(q, hids(banks)[q as int], i, wd)] == (Cell::Hidden {
                line: lines[i],
            }));
        }
        lemma_norm(m, b, q, bank.hidden, weights[q as int], bank.mid, lines, n);
        lemma_apart(q, bank.hidden, bank.mid, wd, lines.len());
        assert forall|r: usize, i: int| r < banks.len() && 0 <= i < n implies now.cells[#[trigger] at(
            r,
            hids(banks)[r as int],
            i,
            wd,
        )] == (Cell::Hidden { line: lines[i] }) by {
            let e = at(r, hids(banks)[r as int], i, wd);
            assert(b.cells[e] == (Cell::Hidden { line: lines[i] }));
            assert(!within(e, q, bank.mid, wd, lines.len()));
        }
        assert forall|r: usize, i: int| r < k && 0 <= i < n implies now.cells[#[trigger] at(
            r,
            mids(banks).take(k as int)[r as int],
            i,
            wd,
        )] == (Cell::Normed { line: lines[i], weight: weights[r as int] }) by {
            if r < q {
                let e = at(r, mids(banks).take(j as int)[r as int], i, wd);
                assert(b.cells[e] == (Cell::Normed { line: lines[i], weight: weights[r as int] }));
                assert(!within(e, q, bank.mid, wd, lines.len()));
            } else {
                assert(now.cells[at(q, bank.mid, i, wd)] == (Cell::Normed {
                    line: lines[i],
                    weight: weights[q as int],
                }));
            }
        }
    }
}

/// What a layer adds after its attention: the attention's own half and the FFN's.
pub open spec fn layer_lines(
    m: Qwen3MoETpModel,
    lines: Seq<Line>,
    halves: Seq<Half>,
    skip_shared: bool,
    il: usize,
) -> Seq<Line> {
    plus_all(
        plus_all(lines, halves),
        alike(ffn_half(m.config, skip_shared, il), lines.len()),
    )
}

/// A layer over a batch adds the attention's half and the FFN's.
pub proof fn lemma_batch_tail(
    m: Qwen3MoETpModel,
    mc: Mesh,
    sc: ShardedForwardPrefillScratchTp,
    c: BatchCtx,
    il: usize,
    lines: Seq<Line>,
    halves: Seq<Half>,
)
    requires
        world_supported(c.ranks as u32),
        c.ranks <= u32::MAX,
        c.ranks <= sc.per_rank@.len(),
        experts_fit(&m.config),
        c.n_tokens == lines.len(),
        batch_room(m, sc, c.ranks, lines.len()),
        prefill_tail(m, sc, c, il).err is None,
        hold(m, mc, hids(batch_banks(sc, c.ranks)), lines),
        shares(m, mc, atts(batch_banks(sc, c.ranks)), lines, halves, c.ranks as nat),
    ensures
        ({
            let now = after_all(m, mc, prefill_tail(m, sc, c, il).ops);
            &&& hold(
                m,
                now,
                hids(batch_banks(sc, c.ranks)),
                layer_lines(m, lines, halves, c.skip_shared, il),
            )
            &&& calm(mc, now)
        }),
{
    let banks = batch_banks(sc, c.ranks);
    let k = c.ranks as nat;
    let n = lines.len();
    let p1 = ar_prefill_run(sc, c.ranks, c.ranks as u32, batch_elems(m, c), AttnOrFfnPub::Attn);
    let f2 = |i: int| prefill_norm_run(m, sc, c, il, i);
    let f3 = |i: int| prefill_ffn_run(m, sc, c, il, i);
    let p2 = each(k, f2);
    let p3 = each(k, f3);
    let p4 = prefill_ffn_tail(m, sc, c, il);
    let run = prefill_tail(m, sc, c, il);
    assert(p1.err is None && p2.err is None && p3.err is None && p4.err is None);
    assert(run.ops == p1.ops + (p2.ops + (p3.ops + p4.ops)));
    lemma_join_batch(m, mc, sc, c, AttnOrFfnPub::Attn, atts(banks), lines, halves);
    lemma_after_concat(m, mc, p1.ops, p2.ops + (p3.ops + p4.ops));
    let m1 = after_all(m, mc, p1.ops);
    let sums = plus_all(lines, halves);
    let weights = Seq::new(
        k,
        |r: int|
            norm_spec(
                tensors_at(m, r, il),
                il,
                TensorKind::FfnNorm,
                TensorKind::PostAttentionNorm,
            )->Ok_0.ptr,
    );
    lemma_norm_all(m, m1, f2, banks, weights, sums, c.n_tokens, k);
    lemma_after_concat(m, m1, p2.ops, p3.ops + p4.ops);
    let m2 = after_all(m, m1, p2.ops);
    assert(mids(banks).take(k as int) =~= mids(banks));
    let world = spec_ffn_world(m, il, c.ranks as u32);
    let ls = |r: int| sc.per_rank@[r].layer->0;
    let io = |r: int|
        FfnIo {
            pass: crate::forward::op::Pass::Prefill,
            n_tokens: c.n_tokens,
            x: banks[r].mid,
            partial: banks[r].ffn,
            skip_shared: c.skip_shared,
            pre_quantized: false,
        };
    assert forall|r: int| 0 <= r < k implies {
        &&& #[trigger] f3(r) == ffn_run(m, il, r, world, ls(r), io(r))
        &&& ffn_norm_named(m, r as usize, il, weights[r])
    } by {
        lemma_each_ok(k, f2, r);
        lemma_each_ok(k, f3, r);
        assert(f2(r).err is None && f3(r).err is None);
        lemma_norm_named(
            m,
            r as usize,
            il,
            TensorKind::FfnNorm,
            TensorKind::PostAttentionNorm,
            norm_spec(
                tensors_at(m, r, il),
                il,
                TensorKind::FfnNorm,
                TensorKind::PostAttentionNorm,
            )->Ok_0,
        );
    }
    lemma_ffn_all(m, m2, f3, ls, io, banks, weights, sums, il, c.skip_shared, world, k);
    lemma_after_concat(m, m2, p3.ops, p4.ops);
    let m3 = after_all(m, m2, p3.ops);
    assert(ffns(banks).take(k as int) =~= ffns(banks));
    let fh = alike(ffn_half(m.config, c.skip_shared, il), n);
    if world > 1 {
        lemma_join_batch(m, m3, sc, c, AttnOrFfnPub::Ffn, ffns(banks), sums, fh);
    } else {
        let elems = (c.n_tokens * m.config.hidden_size) as usize;
        lemma_full_rows(m, n as int);
        assert(p4.ops =~= add_ops(hids(banks), ffns(banks), elems, k));
        lemma_adds(m, m3, hids(banks), ffns(banks), sums, fh, elems, k);
        assert(hids(banks).take(k as int) =~= hids(banks));
    }
}

/// Where a loop succeeds each of its steps does.
pub proof fn lemma_each_ok<O, E>(n: nat, f: spec_fn(int) -> Run<O, E>, i: int)
    requires
        each(n, f).err is None,
        0 <= i < n,
    ensures
        f(i).err is None,
    decreases n,
{
    if i < n - 1 {
        lemma_each_ok((n - 1) as nat, f, i);
    }
}

} // verus!
