//! What a tensor-parallel decode step over several sequences computes.

use crate::device::DevicePtr;
use crate::forward::mesh::{
    after, after_all, attended, attn_named, embedded, gdn_named, lemma_after_concat,
    lemma_after_one, lemma_after_push, share_of, stored_slots, width, Cell, Half, Line, Mesh,
};
use crate::forward::mesh_attn::{
    attn_done, attn_halves, cached, hold_at, idle, lemma_attn_all, lemma_share, listed, quiet,
    rows_of,
};
use crate::forward::mesh_ffn::{lemma_attn_named, lemma_gdn_named};
use crate::forward::mesh_join::{calm, hold};
use crate::forward::mesh_laws::{lemma_banks, lemma_embed_all, lemma_row_at};
use crate::forward::mesh_layer::{atts, batch_banks, batch_room, hids, lemma_batch_tail};
use crate::forward::mesh_pass::{
    embeddings, layer_done, lemma_layers_all, lived, lived_all, taken_in, took,
};
use crate::forward::op::{AttnRefs, GdnRefs, Op};
use crate::forward::rows::{at, lemma_put, lemma_row_within, lemma_rows_differ, only, put, rows};
use crate::forward::tp::{
    attn_refs_spec, batch_ready, buffers_fit, decode_batched_ready, decode_batched_run,
    embed_prompt, gdn_refs_spec, prefill_tail, row_at, rows_fit, slot_check, slot_gather,
    slot_gdn, slot_head, slot_room, slot_tokens, slots_attn_run, slots_head_run, slots_layer_run,
    tensors_at, world_supported, BatchCtx, BatchSlot, ShardedForwardPrefillScratchTp,
};
use crate::plan::{each, flat};
use crate::session::LayerCache;
use crate::tp_sharded::Qwen3MoETpModel;
use vstd::prelude::*;

verus! {

/// Session and position of each slot.
pub open spec fn seats(slots: Seq<BatchSlot>) -> Seq<(usize, int)> {
    Seq::new(slots.len(), |k: int| (slots[k].idx, slots[k].position as int))
}

/// No two slots name the same session.
pub open spec fn sessions_differ(slots: Seq<BatchSlot>) -> bool {
    forall|i: int, j: int|
        0 <= i < slots.len() && 0 <= j < slots.len() && i != j ==> (#[trigger] slots[i]).idx != (
        #[trigger] slots[j]).idx
}

/// What the gathering of the first `k` slots leaves for the attention.
pub open spec fn entries(slots: Seq<BatchSlot>, il: usize, k: nat) -> Seq<(usize, usize, usize)> {
    Seq::new(k, |i: int| (il, slots[i].idx, slots[i].position))
}

proof fn lemma_gathers(
    m: Qwen3MoETpModel,
    mc: Mesh,
    sessions: Seq<Vec<Vec<LayerCache>>>,
    slots: Seq<BatchSlot>,
    il: usize,
    r: usize,
    k: nat,
)
    requires
        k <= slots.len(),
        mc.gathered[r] == Seq::<(usize, usize, usize)>::empty(),
        each(k, |i: int| slot_gather(sessions, slots, il, r as int, i)).err is None,
    ensures
        ({
            let now = after_all(
                m,
                mc,
                each(k, |i: int| slot_gather(sessions, slots, il, r as int, i)).ops,
            );
            &&& now.gathered[r] == entries(slots, il, k)
            &&& forall|q: usize| q != r ==> #[trigger] now.gathered[q] == mc.gathered[q]
            &&& now.cells == mc.cells
            &&& now.kv == mc.kv && now.states == mc.states
            &&& quiet(mc, now)
        }),
    decreases k,
{
    let f = |i: int| slot_gather(sessions, slots, il, r as int, i);
    if k == 0 {
        assert(each(k, f).ops =~= seq![]);
        assert(entries(slots, il, 0) =~= Seq::<(usize, usize, usize)>::empty());
    } else {
        let j = (k - 1) as nat;
        lemma_gathers(m, mc, sessions, slots, il, r, j);
        lemma_after_concat(m, mc, each(j, f).ops, f(j as int).ops);
        let b = after_all(m, mc, each(j, f).ops);
        assert(f(j as int).err is None);
        assert(f(j as int).ops =~= seq![f(j as int).ops[0]]);
        lemma_after_one(m, b, f(j as int).ops[0]);
        assert(entries(slots, il, k) =~= entries(slots, il, j).push(
            (il, slots[j as int].idx, slots[j as int].position),
        ));
    }
}

proof fn lemma_stored_slots(
    kv: Map<(usize, usize, usize, int), Cell>,
    rank: usize,
    il: usize,
    slots: Seq<BatchSlot>,
    xs: Seq<Cell>,
    k: nat,
)
    requires
        k <= slots.len(),
        sessions_differ(slots),
    ensures
        ({
            let now = stored_slots(kv, rank, il, entries(slots, il, slots.len()), xs, k);
            &&& forall|i: int|
                0 <= i < k ==> now[(
                    rank,
                    (#[trigger] slots[i]).idx,
                    il,
                    slots[i].position as int,
                )] == xs[i]
            &&& forall|e: (usize, usize, usize, int)|
                !(e.0 == rank && e.2 == il && listed(seats(slots), e.1, e.3))
                    ==> #[trigger] now[e] == kv[e]
        }),
    decreases k,
{
    if k > 0 {
        let j = (k - 1) as nat;
        let list = entries(slots, il, slots.len());
        lemma_stored_slots(kv, rank, il, slots, xs, j);
        let b = stored_slots(kv, rank, il, list, xs, j);
        let now = stored_slots(kv, rank, il, list, xs, k);
        let key = (rank, slots[j as int].idx, il, slots[j as int].position as int);
        assert(now == b.insert(key, xs[j as int]));
        assert forall|i: int| 0 <= i < k implies now[(
            rank,
            (#[trigger] slots[i]).idx,
            il,
            slots[i].position as int,
        )] == xs[i] by {
            if i < j {
                assert(slots[i].idx != slots[j as int].idx);
            }
        }
        assert forall|e: (usize, usize, usize, int)|
            !(e.0 == rank && e.2 == il && listed(seats(slots), e.1, e.3)) implies #[trigger] now[e]
            == kv[e] by {
            assert(seats(slots)[j as int] == (key.1, key.3));
            assert(b[e] == kv[e]);
        }
    }
}

/// Full attention of one rank over all slots.
proof fn lemma_slots_full_attn(
    m: Qwen3MoETpModel,
    mc: Mesh,
    slots: Seq<BatchSlot>,
    il: usize,
    r: usize,
    w: AttnRefs,
    x: DevicePtr,
    out: DevicePtr,
    lines: Seq<Line>,
    world: u32,
)
    requires
        width(m) > 0,
        slots.len() == lines.len() <= usize::MAX,
        sessions_differ(slots),
        !m.config.spec_is_recurrent(il as nat),
        attn_named(m, r, il, w),
        hold_at(m, mc, r, x, lines),
        mc.gathered[r] == entries(slots, il, slots.len()),
    ensures
        ({
            let op = Op::FullAttnSlots {
                rank: r,
                layer: il,
                w,
                x,
                out,
                n_slots: slots.len() as usize,
                world,
                kv_replicated: m.tp.spec_kv_replicated(),
            };
            let now = after(m, mc, op);
            &&& attn_done(m, mc, now, r, out, seats(slots), lines, il, il, world)
            &&& now.gathered == mc.gathered.insert(r, seq![])
        }),
{
    let wd = width(m);
    let n = lines.len();
    let op = Op::FullAttnSlots {
        rank: r,
        layer: il,
        w,
        x,
        out,
        n_slots: slots.len() as usize,
        world,
        kv_replicated: m.tp.spec_kv_replicated(),
    };
    let now = after(m, mc, op);
    let xs = rows(mc.cells, r, x, wd, n);
    let list = mc.gathered[r];
    let who = seats(slots);
    let ok = attn_named(m, r, il, w) && m.tp.spec_kv_replicated() == m.tp.spec_kv_replicated()
        && list.len() == slots.len() as usize && forall|i: int|
        0 <= i < list.len() ==> (#[trigger] list[i]).0 == il;
    assert(ok);
    let vals = Seq::new(
        n,
        |i: int|
            attended(
                xs[i],
                ok,
                Half::Attend { layer: il, position: list[i].2 as int },
                r,
                world,
            ),
    );
    assert(now.cells == put(mc.cells, r, out, wd, vals));
    lemma_put(mc.cells, r, out, wd, vals);
    lemma_stored_slots(mc.kv, r, il, slots, xs, n);
    assert forall|i: int| 0 <= i < lines.len() implies xs[i] == (Cell::Hidden {
        line: lines[i],
    }) by {
        assert(mc.cells[at(r, x, i, wd)] == (Cell::Hidden { line: lines[i] }));
    }
    assert forall|i: int| 0 <= i < lines.len() implies share_of(
        now.cells[#[trigger] at(r, out, i, wd)],
        lines[i],
        attn_halves(m.config, il, who)[i],
        r,
        world as nat,
    ) by {
        assert(xs[i] == (Cell::Hidden { line: lines[i] }));
        assert(now.cells[at(r, out, i, wd)] == vals[i]);
        lemma_share(lines[i], attn_halves(m.config, il, who)[i], r, world);
    }
    assert forall|q: usize, i: int| r <= q < r + 1 && 0 <= i < who.len() implies #[trigger] now.kv[(
        q,
        who[i].0,
        il,
        who[i].1,
    )] == (Cell::Hidden { line: lines[i] }) by {
        assert(xs[i] == (Cell::Hidden { line: lines[i] }));
        assert(now.kv[(r, slots[i].idx, il, slots[i].position as int)] == xs[i]);
    }
}

/// The recurrent states of the first `k` slots take a step each.
proof fn lemma_slots_gdn(
    m: Qwen3MoETpModel,
    mc: Mesh,
    sc: ShardedForwardPrefillScratchTp,
    sessions: Seq<Vec<Vec<LayerCache>>>,
    slots: Seq<BatchSlot>,
    c: BatchCtx,
    w: GdnRefs,
    il: usize,
    r: usize,
    lines: Seq<Line>,
    k: nat,
)
    requires
        width(m) > 0,
        k <= slots.len() == lines.len(),
        m.config.spec_is_recurrent(il as nat),
        gdn_named(m, r, il, w),
        rows_fit(sc.per_rank@[r as int].hidden_a, slots.len(), m.config.hidden_size),
        rows_fit(sc.per_rank@[r as int].partial_attn_out, slots.len(), m.config.hidden_size),
        crate::forward::rows::apart(
            sc.per_rank@[r as int].hidden_a,
            sc.per_rank@[r as int].partial_attn_out,
            width(m),
            slots.len(),
        ),
        hold_at(m, mc, r, sc.per_rank@[r as int].hidden_a, lines),
        each(k, |i: int| slot_gdn(m, sc, sessions, slots, c, w, il, r as int, i)).err is None,
    ensures
        ({
            let now = after_all(
                m,
                mc,
                each(k, |i: int| slot_gdn(m, sc, sessions, slots, c, w, il, r as int, i)).ops,
            );
            let out = sc.per_rank@[r as int].partial_attn_out;
            &&& forall|i: int|
                0 <= i < k ==> share_of(
                    now.cells[#[trigger] at(r, out, i, width(m))],
                    lines[i],
                    Half::Recur { layer: il },
                    r,
                    c.ranks as u32 as nat,
                )
            &&& only(mc.cells, now.cells, r, out, width(m), slots.len())
            &&& forall|s: usize|
                #[trigger] now.states[(r, s, il)] == mc.states[(r, s, il)] + rows_of(
                    seats(slots).take(k as int),
                    lines,
                    s,
                )
            &&& forall|e: (usize, usize, usize)|
                !(e.0 == r && e.2 == il) ==> #[trigger] now.states[e] == mc.states[e]
            &&& now.kv == mc.kv
            &&& now.gathered == mc.gathered
            &&& quiet(mc, now)
        }),
    decreases k,
{
    let f = |i: int| slot_gdn(m, sc, sessions, slots, c, w, il, r as int, i);
    let wd = width(m);
    let hid = sc.per_rank@[r as int].hidden_a;
    let out = sc.per_rank@[r as int].partial_attn_out;
    let n = slots.len();
    if k == 0 {
        assert(each(k, f).ops =~= seq![]);
        assert forall|s: usize| #[trigger] mc.states[(r, s, il)] == mc.states[(r, s, il)]
            + rows_of(seats(slots).take(0), lines, s) by {
            assert(mc.states[(r, s, il)] + rows_of(seats(slots).take(0), lines, s)
                =~= mc.states[(r, s, il)]);
        }
    } else {
        let j = (k - 1) as nat;
        let jj = j as int;
        lemma_slots_gdn(m, mc, sc, sessions, slots, c, w, il, r, lines, j);
        lemma_after_concat(m, mc, each(j, f).ops, f(jj).ops);
        let b = after_all(m, mc, each(j, f).ops);
        let now = after_all(m, mc, each(k, f).ops);
        assert(f(jj).err is None);
        let op = f(jj).ops[0];
        assert(f(jj).ops =~= seq![op]);
        lemma_after_one(m, b, op);
        let x1 = row_at(hid, jj, m.config.hidden_size);
        let o1 = row_at(out, jj, m.config.hidden_size);
        lemma_row_at(m, hid, jj, n);
        lemma_row_at(m, out, jj, n);
        assert(0 * wd == 0) by (nonlinear_arith);
        assert(at(r, x1, 0, wd) == at(r, hid, jj, wd));
        assert(at(r, o1, 0, wd) == at(r, out, jj, wd));
        crate::forward::rows::lemma_apart(r, hid, out, wd, n);
        assert(mc.cells[at(r, hid, jj, wd)] == (Cell::Hidden { line: lines[jj] }));
        assert(b.cells[at(r, hid, jj, wd)] == (Cell::Hidden { line: lines[jj] }));
        let xs = rows(b.cells, r, x1, wd, 1);
        assert(xs =~= seq![Cell::Hidden { line: lines[jj] }]);
        let half = Half::Recur { layer: il };
        let vals = Seq::new(
            1,
            |i: int|
                attended(
                    xs[i],
                    gdn_named(m, r, il, w) && !false,
                    half,
                    r,
                    c.ranks as u32,
                ),
        );
        assert(now.cells == put(b.cells, r, o1, wd, vals));
        assert(vals.drop_last() =~= seq![]);
        assert(put(b.cells, r, o1, wd, vals.drop_last()) == b.cells);
        assert(now.cells == b.cells.insert(at(r, out, jj, wd), vals[0]));
        lemma_share(lines[jj], half, r, c.ranks as u32);
        lemma_row_within(r, out, jj, wd, n);
        assert forall|i: int| 0 <= i < k implies share_of(
            now.cells[#[trigger] at(r, out, i, wd)],
            lines[i],
            half,
            r,
            c.ranks as u32 as nat,
        ) by {
            if i < j {
                lemma_rows_differ(r, out, i, jj, wd);
                assert(share_of(
                    b.cells[at(r, out, i, wd)],
                    lines[i],
                    half,
                    r,
                    c.ranks as u32 as nat,
                ));
            }
        }
        let who = seats(slots);
        assert(now.states == b.states.insert(
            (r, slots[jj].idx, il),
            b.states[(r, slots[jj].idx, il)] + xs,
        ));
        assert forall|s: usize| #[trigger] now.states[(r, s, il)] == mc.states[(r, s, il)]
            + rows_of(who.take(k as int), lines, s) by {
            assert(who.take(k as int).drop_last() =~= who.take(jj));
            assert(who.take(k as int).last() == who[jj]);
            assert(b.states[(r, s, il)] == mc.states[(r, s, il)] + rows_of(
                who.take(jj),
                lines,
                s,
            ));
            if s == slots[jj].idx {
                assert((mc.states[(r, s, il)] + rows_of(who.take(jj), lines, s)) + xs
                    =~= mc.states[(r, s, il)] + rows_of(who.take(k as int), lines, s));
            }
        }
    }
}

/// The attention block of one rank for all slots.
proof fn lemma_slots_attn(
    m: Qwen3MoETpModel,
    b: Mesh,
    sc: ShardedForwardPrefillScratchTp,
    sessions: Seq<Vec<Vec<LayerCache>>>,
    slots: Seq<BatchSlot>,
    c: BatchCtx,
    il: usize,
    r: usize,
    lines: Seq<Line>,
)
    requires
        width(m) > 0,
        slots.len() == lines.len() <= usize::MAX,
        sessions_differ(slots),
        rows_fit(sc.per_rank@[r as int].hidden_a, slots.len(), m.config.hidden_size),
        rows_fit(sc.per_rank@[r as int].partial_attn_out, slots.len(), m.config.hidden_size),
        crate::forward::rows::apart(
            sc.per_rank@[r as int].hidden_a,
            sc.per_rank@[r as int].partial_attn_out,
            width(m),
            slots.len(),
        ),
        slots_attn_run(m, sc, sessions, slots, c, il, r as int).err is None,
        hold_at(m, b, r, sc.per_rank@[r as int].hidden_a, lines),
        b.gathered[r] == Seq::<(usize, usize, usize)>::empty(),
    ensures
        attn_done(
            m,
            b,
            after_all(m, b, slots_attn_run(m, sc, sessions, slots, c, il, r as int).ops),
            r,
            sc.per_rank@[r as int].partial_attn_out,
            seats(slots),
            lines,
            il,
            il,
            c.ranks as u32,
        ),
{
    let s = sc.per_rank@[r as int];
    let ts = tensors_at(m, r as int, il);
    let who = seats(slots);
    let n = slots.len();
    let run = slots_attn_run(m, sc, sessions, slots, c, il, r as int);
    let now = after_all(m, b, run.ops);
    if m.config.spec_is_recurrent(il as nat) {
        let w = gdn_refs_spec(ts, il)->Ok_0;
        lemma_gdn_named(m, r, il, w);
        lemma_slots_gdn(m, b, sc, sessions, slots, c, w, il, r, lines, n);
        assert(who.take(n as int) =~= who);
        assert forall|i: int| 0 <= i < lines.len() implies share_of(
            now.cells[#[trigger] at(r, s.partial_attn_out, i, width(m))],
            lines[i],
            attn_halves(m.config, il, who)[i],
            r,
            c.ranks as u32 as nat,
        ) by {}
        assert(cached(m.config, b, now, r as nat, (r + 1) as nat, who, lines, il, il));
    } else {
        let w = attn_refs_spec(ts, il)->Ok_0;
        lemma_attn_named(m, r, il, w);
        let f = |i: int| slot_gather(sessions, slots, il, r as int, i);
        lemma_gathers(m, b, sessions, slots, il, r, n);
        let g = each(n, f);
        let op = Op::FullAttnSlots {
            rank: r,
            layer: il,
            w,
            x: s.hidden_a,
            out: s.partial_attn_out,
            n_slots: n as usize,
            world: c.ranks as u32,
            kv_replicated: m.tp.spec_kv_replicated(),
        };
        assert(run.ops == g.ops + seq![op]);
        lemma_after_concat(m, b, g.ops, seq![op]);
        let mid = after_all(m, b, g.ops);
        lemma_after_one(m, mid, op);
        lemma_slots_full_attn(
            m,
            mid,
            slots,
            il,
            r,
            w,
            s.hidden_a,
            s.partial_attn_out,
            lines,
            c.ranks as u32,
        );
        assert(cached(m.config, b, now, r as nat, (r + 1) as nat, who, lines, il, il));
        assert forall|q: usize| #[trigger] now.gathered[q] == b.gathered[q] || q == r
            && now.gathered[q] == Seq::<(usize, usize, usize)>::empty() by {
            if q != r {
                assert(mid.gathered[q] == b.gathered[q]);
            } else {
                assert(now.gathered[q] =~= Seq::<(usize, usize, usize)>::empty());
            }
        }
    }
}

/// A layer for all slots.
proof fn lemma_slots_layer(
    m: Qwen3MoETpModel,
    b: Mesh,
    sc: ShardedForwardPrefillScratchTp,
    sessions: Seq<Vec<Vec<LayerCache>>>,
    slots: Seq<BatchSlot>,
    c: BatchCtx,
    il: usize,
    lines: Seq<Line>,
)
    requires
        world_supported(c.ranks as u32),
        batch_ready(m, sc, c),
        buffers_fit(m, sc, c.ranks, slots.len()),
        c.n_tokens == lines.len() == slots.len(),
        sessions_differ(slots),
        batch_room(m, sc, c.ranks, lines.len()),
        slots_layer_run(m, sc, sessions, slots, c, il).err is None,
        hold(m, b, hids(batch_banks(sc, c.ranks)), lines),
        idle(b, c.ranks as nat),
    ensures
        layer_done(
            m,
            c.skip_shared,
            b,
            after_all(m, b, slots_layer_run(m, sc, sessions, slots, c, il).ops),
            hids(batch_banks(sc, c.ranks)),
            seats(slots),
            lines,
            il,
            il,
        ),
{
    let f = |i: int| slots_attn_run(m, sc, sessions, slots, c, il, i);
    let k = c.ranks as nat;
    let banks = batch_banks(sc, c.ranks);
    let hid = hids(banks);
    let att = atts(banks);
    let who = seats(slots);
    let first = each(k, f);
    let tail = prefill_tail(m, sc, c, il);
    lemma_banks(m, banks, lines.len());
    assert forall|r: usize, b: Mesh|
        r < k && f(r as int).err is None && hold_at(m, b, r, hid[r as int], lines) && idle(
            b,
            hid.len(),
        ) implies attn_done(
        m,
        b,
        #[trigger] after_all(m, b, f(r as int).ops),
        r,
        att[r as int],
        who,
        lines,
        il,
        il,
        c.ranks as u32,
    ) by {
        assert(b.gathered[r] == Seq::<(usize, usize, usize)>::empty());
        assert(rows_fit(sc.per_rank@[r as int].hidden_a, slots.len(), m.config.hidden_size));
        assert(crate::forward::rows::apart(hid[r as int], att[r as int], width(m), lines.len()));
        lemma_slots_attn(m, b, sc, sessions, slots, c, il, r, lines);
    }
    lemma_attn_all(m, b, f, hid, att, who, lines, il, il, c.ranks as u32, k);
    assert(att.take(k as int) =~= att);
    let mid = after_all(m, b, first.ops);
    lemma_after_concat(m, b, first.ops, tail.ops);
    lemma_batch_tail(m, mid, sc, c, il, lines, attn_halves(m.config, il, who));
}

/// All layers for all slots.
proof fn lemma_slots_layers(
    m: Qwen3MoETpModel,
    m1: Mesh,
    sc: ShardedForwardPrefillScratchTp,
    sessions: Seq<Vec<Vec<LayerCache>>>,
    slots: Seq<BatchSlot>,
    c: BatchCtx,
    lines: Seq<Line>,
)
    requires
        world_supported(c.ranks as u32),
        batch_ready(m, sc, c),
        buffers_fit(m, sc, c.ranks, slots.len()),
        c.n_tokens == lines.len() == slots.len(),
        sessions_differ(slots),
        batch_room(m, sc, c.ranks, lines.len()),
        each(
            m.config.num_layers as nat,
            |i: int| slots_layer_run(m, sc, sessions, slots, c, i as usize),
        ).err is None,
        hold(m, m1, hids(batch_banks(sc, c.ranks)), lines),
        idle(m1, c.ranks as nat),
    ensures
        ({
            let nl = m.config.num_layers as nat;
            let now = after_all(
                m,
                m1,
                each(nl, |i: int| slots_layer_run(m, sc, sessions, slots, c, i as usize)).ops,
            );
            &&& hold(
                m,
                now,
                hids(batch_banks(sc, c.ranks)),
                lived_all(m.config, c.skip_shared, lines, seats(slots), 0, nl),
            )
            &&& taken_in(
                m.config,
                c.skip_shared,
                m1,
                now,
                c.ranks as nat,
                seats(slots),
                lines,
                0,
                0,
                nl,
            )
            &&& quiet(m1, now)
        }),
{
    let nl = m.config.num_layers as nat;
    let hid = hids(batch_banks(sc, c.ranks));
    let f = |i: int| slots_layer_run(m, sc, sessions, slots, c, i as usize);
    assert forall|i: int, b: Mesh, x: Seq<Line>|
        0 <= i < nl && f(i).err is None && x.len() == lines.len() && #[trigger] hold(m, b, hid, x)
            && idle(b, hid.len()) implies layer_done(
        m,
        c.skip_shared,
        b,
        #[trigger] after_all(m, b, f(i).ops),
        hid,
        seats(slots),
        x,
        (0 + i) as usize,
        (0 + i - 0) as usize,
    ) by {
        lemma_slots_layer(m, b, sc, sessions, slots, c, i as usize, x);
    }
    lemma_layers_all(m, m1, f, hid, seats(slots), lines, 0, 0, c.skip_shared, nl);
}

/// The heads of the first `k` slots.
proof fn lemma_slot_heads(
    m: Qwen3MoETpModel,
    mc: Mesh,
    sc: ShardedForwardPrefillScratchTp,
    slots: Seq<BatchSlot>,
    ranks: usize,
    lines: Seq<Line>,
    k: nat,
)
    requires
        k <= slots.len() == lines.len(),
        sc.head_rank.0 < ranks,
        sessions_differ(slots),
        buffers_fit(m, sc, ranks, slots.len()),
        hold(m, mc, hids(batch_banks(sc, ranks)), lines),
    ensures
        ({
            let now = after_all(m, mc, flat(k, |i: int| slot_head(m, sc, slots, i)));
            &&& forall|i: int|
                0 <= i < k ==> now.fetched[(#[trigger] slots[i]).idx] == (Cell::Hidden {
                    line: lines[i],
                })
            &&& now.cells == mc.cells
            &&& now.kv == mc.kv && now.states == mc.states
        }),
    decreases k,
{
    let f = |i: int| slot_head(m, sc, slots, i);
    if k > 0 {
        let j = (k - 1) as nat;
        let jj = j as int;
        lemma_slot_heads(m, mc, sc, slots, ranks, lines, j);
        lemma_after_concat(m, mc, flat(j, f), f(jj));
        let b = after_all(m, mc, flat(j, f));
        let now = after_all(m, mc, flat(k, f));
        let head = sc.head_rank.0 as usize;
        let base = sc.per_rank@[head as int].hidden_a;
        assert(rows_fit(base, slots.len(), m.config.hidden_size));
        lemma_row_at(m, base, jj, slots.len());
        let hid = hids(batch_banks(sc, ranks));
        assert(mc.cells[at(head, hid[head as int], jj, width(m))] == (Cell::Hidden {
            line: lines[jj],
        }));
        assert(f(jj) =~= seq![f(jj)[0]].push(f(jj)[1]));
        lemma_after_push(m, b, seq![f(jj)[0]], f(jj)[1]);
        lemma_after_one(m, b, f(jj)[0]);
        assert forall|i: int| 0 <= i < k implies now.fetched[(#[trigger] slots[i]).idx] == (
        Cell::Hidden { line: lines[i] }) by {
            if i < j {
                assert(slots[i].idx != slots[jj].idx);
            }
        }
    }
}

/// The rows of a session that one slot names are that slot's row.
proof fn lemma_seat_rows(slots: Seq<BatchSlot>, lines: Seq<Line>, s: usize, k: nat)
    requires
        k <= slots.len() == lines.len(),
        sessions_differ(slots),
    ensures
        (forall|i: int| 0 <= i < k ==> (#[trigger] slots[i]).idx != s) ==> rows_of(
            seats(slots).take(k as int),
            lines,
            s,
        ) == Seq::<Cell>::empty(),
        forall|i: int|
            0 <= i < k && (#[trigger] slots[i]).idx == s ==> rows_of(
                seats(slots).take(k as int),
                lines,
                s,
            ) == seq![Cell::Hidden { line: lines[i] }],
    decreases k,
{
    let who = seats(slots);
    if k > 0 {
        let j = (k - 1) as nat;
        lemma_seat_rows(slots, lines, s, j);
        assert(who.take(k as int).drop_last() =~= who.take(j as int));
        assert(who.take(k as int).last() == who[j as int]);
        let before = rows_of(who.take(j as int), lines, s);
        if slots[j as int].idx == s {
            assert forall|i: int| 0 <= i < j implies (#[trigger] slots[i]).idx != s by {}
            assert(before =~= Seq::<Cell>::empty());
            assert(before.push(Cell::Hidden { line: lines[j as int] }) =~= seq![
                Cell::Hidden { line: lines[j as int] },
            ]);
        }
    } else {
        assert(who.take(0) =~= Seq::<(usize, int)>::empty());
    }
}

/// The row of slot `k` after `n` layers.
pub open spec fn slot_line(m: Qwen3MoETpModel, skip_shared: bool, slot: BatchSlot, n: nat) -> Line {
    lived(m.config, skip_shared, embedded(slot.token_id), slot.position as int, 0, n)
}

/// The caches of each slot's session have taken in that slot's token at its position, and
/// the caches of no other session have changed.
#[verifier::opaque]
pub open spec fn slots_taken(
    m: Qwen3MoETpModel,
    skip_shared: bool,
    before: Mesh,
    now: Mesh,
    ranks: nat,
    slots: Seq<BatchSlot>,
) -> bool {
    let nl = m.config.num_layers;
    &&& forall|r: usize, il: usize, k: int|
        #![trigger now.kv[(r, slots[k].idx, il, slots[k].position as int)]]
        r < ranks && il < nl && !m.config.spec_is_recurrent(il as nat) && 0 <= k < slots.len()
            ==> now.kv[(r, slots[k].idx, il, slots[k].position as int)] == (Cell::Hidden {
            line: slot_line(m, skip_shared, slots[k], il as nat),
        })
    &&& forall|r: usize, il: usize, k: int|
        #![trigger now.states[(r, slots[k].idx, il)]]
        r < ranks && il < nl && m.config.spec_is_recurrent(il as nat) && 0 <= k < slots.len()
            ==> now.states[(r, slots[k].idx, il)] == before.states[(r, slots[k].idx, il)] + seq![
            Cell::Hidden { line: slot_line(m, skip_shared, slots[k], il as nat) },
        ]
    &&& forall|e: (usize, usize, usize, int)|
        !listed(seats(slots), e.1, e.3) ==> #[trigger] now.kv[e] == before.kv[e]
    &&& forall|e: (usize, usize, usize)|
        (forall|k: int| 0 <= k < slots.len() ==> (#[trigger] slots[k]).idx != e.1)
            ==> #[trigger] now.states[e] == before.states[e]
}

proof fn lemma_slots_taken(
    m: Qwen3MoETpModel,
    skip_shared: bool,
    before: Mesh,
    now: Mesh,
    ranks: nat,
    slots: Seq<BatchSlot>,
)
    requires
        sessions_differ(slots),
        taken_in(
            m.config,
            skip_shared,
            before,
            now,
            ranks,
            seats(slots),
            embeddings(slot_tokens(slots)),
            0,
            0,
            m.config.num_layers as nat,
        ),
    ensures
        slots_taken(m, skip_shared, before, now, ranks, slots),
{
    reveal(taken_in);
    reveal(slots_taken);
    let cfg = m.config;
    let who = seats(slots);
    let lines = embeddings(slot_tokens(slots));
    let n = slots.len();
    let nl = cfg.num_layers;
    assert forall|r: usize, il: usize, k: int|
        r < ranks && il < nl && !cfg.spec_is_recurrent(il as nat) && 0 <= k < n implies #[trigger] now.kv[(
        r,
        slots[k].idx,
        il,
        slots[k].position as int,
    )] == (Cell::Hidden { line: slot_line(m, skip_shared, slots[k], il as nat) }) by {
        let x = lived_all(cfg, skip_shared, lines, who, 0, il as nat);
        assert(took(cfg, before, now, ranks, who, x, il, il));
        assert(now.kv[(r, who[k].0, il, who[k].1)] == (Cell::Hidden { line: x[k] }));
    }
    assert forall|r: usize, il: usize, k: int|
        r < ranks && il < nl && cfg.spec_is_recurrent(il as nat) && 0 <= k < n implies #[trigger] now.states[(
        r,
        slots[k].idx,
        il,
    )] == before.states[(r, slots[k].idx, il)] + seq![
        Cell::Hidden { line: slot_line(m, skip_shared, slots[k], il as nat) },
    ] by {
        let x = lived_all(cfg, skip_shared, lines, who, 0, il as nat);
        assert(took(cfg, before, now, ranks, who, x, il, il));
        lemma_seat_rows(slots, x, slots[k].idx, n);
        assert(who.take(n as int) =~= who);
        assert(x[k] == slot_line(m, skip_shared, slots[k], il as nat));
    }
    assert forall|e: (usize, usize, usize)|
        (forall|k: int| 0 <= k < slots.len() ==> (#[trigger] slots[k]).idx
            != e.1) implies #[trigger] now.states[e] == before.states[e] by {
        if e.0 < ranks && e.2 < nl && cfg.spec_is_recurrent(e.2 as nat) {
            let x = lived_all(cfg, skip_shared, lines, who, 0, e.2 as nat);
            assert(took(cfg, before, now, ranks, who, x, e.2, e.2));
            lemma_seat_rows(slots, x, e.1, n);
            assert(who.take(n as int) =~= who);
            assert(now.states[(e.0, e.1, e.2)] == before.states[e] + rows_of(who, x, e.1));
            assert(before.states[e] + rows_of(who, x, e.1) =~= before.states[e]);
        }
    }
}

/// Only the caches count for what they have taken in.
proof fn lemma_same_slots(
    m: Qwen3MoETpModel,
    skip_shared: bool,
    a: Mesh,
    b: Mesh,
    x: Mesh,
    y: Mesh,
    ranks: nat,
    slots: Seq<BatchSlot>,
)
    requires
        slots_taken(m, skip_shared, a, b, ranks, slots),
        x.kv == a.kv && x.states == a.states,
        y.kv == b.kv && y.states == b.states,
    ensures
        slots_taken(m, skip_shared, x, y, ranks, slots),
{
    reveal(slots_taken);
}

/// The layers and the heads of a step of several sequences.
proof fn lemma_slots_rest(
    m: Qwen3MoETpModel,
    sc: ShardedForwardPrefillScratchTp,
    sessions: Seq<Vec<Vec<LayerCache>>>,
    c: BatchCtx,
    slots: Seq<BatchSlot>,
    mc: Mesh,
    m1: Mesh,
)
    requires
        world_supported(c.ranks as u32),
        batch_ready(m, sc, c),
        buffers_fit(m, sc, c.ranks, slots.len()),
        sc.head_rank.0 < c.ranks,
        c.n_tokens == slots.len(),
        sessions_differ(slots),
        batch_room(m, sc, c.ranks, slots.len()),
        each(
            m.config.num_layers as nat,
            |i: int| slots_layer_run(m, sc, sessions, slots, c, i as usize),
        ).err is None,
        slots_head_run(m, sc, slots).err is None,
        hold(m, m1, hids(batch_banks(sc, c.ranks)), embeddings(slot_tokens(slots))),
        idle(m1, c.ranks as nat),
        calm(mc, m1),
    ensures
        ({
            let nl = m.config.num_layers as nat;
            let p2 = each(nl, |i: int| slots_layer_run(m, sc, sessions, slots, c, i as usize));
            let now = after_all(m, m1, p2.ops + slots_head_run(m, sc, slots).ops);
            &&& slots_taken(m, c.skip_shared, mc, now, c.ranks as nat, slots)
            &&& forall|k: int|
                0 <= k < slots.len() ==> now.fetched[(#[trigger] slots[k]).idx] == (Cell::Hidden {
                    line: slot_line(m, c.skip_shared, slots[k], nl),
                })
        }),
{
    let nl = m.config.num_layers as nat;
    let f = |i: int| slots_layer_run(m, sc, sessions, slots, c, i as usize);
    let p2 = each(nl, f);
    let p3 = slots_head_run(m, sc, slots);
    let lines = embeddings(slot_tokens(slots));
    lemma_slots_layers(m, m1, sc, sessions, slots, c, lines);
    lemma_after_concat(m, m1, p2.ops, p3.ops);
    let m2 = after_all(m, m1, p2.ops);
    let last = lived_all(m.config, c.skip_shared, lines, seats(slots), 0, nl);
    lemma_slot_heads(m, m2, sc, slots, c.ranks, last, slots.len());
    let now = after_all(m, m2, p3.ops);
    lemma_slots_taken(m, c.skip_shared, m1, m2, c.ranks as nat, slots);
    lemma_same_slots(m, c.skip_shared, m1, m2, mc, now, c.ranks as nat, slots);
    assert forall|k: int| 0 <= k < slots.len() implies now.fetched[(#[trigger] slots[k]).idx] == (
    Cell::Hidden { line: slot_line(m, c.skip_shared, slots[k], nl) }) by {
        assert(last[k] == slot_line(m, c.skip_shared, slots[k], nl));
    }
}

/// Checks that succeed issue nothing.
pub proof fn lemma_checks<O, E>(n: nat, f: spec_fn(int) -> crate::plan::Run<O, E>)
    requires
        each(n, f).err is None,
        forall|i: int| 0 <= i < n && (#[trigger] f(i)).err is None ==> f(i).ops == Seq::<O>::empty(),
    ensures
        each(n, f).ops == Seq::<O>::empty(),
    decreases n,
{
    if n > 0 {
        lemma_checks((n - 1) as nat, f);
        assert(f(n - 1).err is None);
        assert(each(n, f).ops =~= Seq::<O>::empty());
    }
}

proof fn lemma_slots_parts(
    m: Qwen3MoETpModel,
    sessions: Seq<Vec<Vec<LayerCache>>>,
    n_logits: usize,
    sc: ShardedForwardPrefillScratchTp,
    c: BatchCtx,
    slots: Seq<BatchSlot>,
)
    requires
        decode_batched_ready(m, sessions, n_logits, sc, c, slots),
        decode_batched_run(m, sessions, n_logits, sc, c, slots).err is None,
    ensures
        ({
            let nl = m.config.num_layers as nat;
            let p1 = embed_prompt(m, sc, c.ranks, slot_tokens(slots));
            let p2 = each(nl, |i: int| slots_layer_run(m, sc, sessions, slots, c, i as usize));
            let p3 = slots_head_run(m, sc, slots);
            &&& p2.err is None
            &&& p3.err is None
            &&& decode_batched_run(m, sessions, n_logits, sc, c, slots).ops == p1 + (p2.ops
                + p3.ops)
        }),
        world_supported(c.ranks as u32),
        c.ranks <= u32::MAX,
        batch_ready(m, sc, c),
        buffers_fit(m, sc, c.ranks, slots.len()),
        sc.head_rank.0 < c.ranks,
        c.n_tokens == slots.len(),
{
    let f = |i: int| slot_check(slots, sessions.len(), i);
    let g = |i: int| slot_room(sc, slots.len(), i);
    let p1 = embed_prompt(m, sc, c.ranks, slot_tokens(slots));
    let nl = m.config.num_layers as nat;
    let p2 = each(nl, |i: int| slots_layer_run(m, sc, sessions, slots, c, i as usize));
    let p3 = slots_head_run(m, sc, slots);
    assert(each(slots.len(), f).err is None);
    assert(each(sc.per_rank@.len(), g).err is None);
    lemma_checks(slots.len(), f);
    lemma_checks(sc.per_rank@.len(), g);
    let e = Seq::<Op>::empty();
    assert(e + (e + (p1 + (p2.ops + p3.ops))) =~= p1 + (p2.ops + p3.ops));
}

/// A decode step of several sequences: the logits that are fetched for the session of each
/// slot are those of that slot's own token, at its own position, after the attention and the
/// FFN of every layer; and the caches of that session take in that token and no other.
pub proof fn law_slots_do_not_mix(
    m: Qwen3MoETpModel,
    sessions: Seq<Vec<Vec<LayerCache>>>,
    n_logits: usize,
    sc: ShardedForwardPrefillScratchTp,
    c: BatchCtx,
    slots: Seq<BatchSlot>,
    mc: Mesh,
)
    requires
        decode_batched_ready(m, sessions, n_logits, sc, c, slots),
        decode_batched_run(m, sessions, n_logits, sc, c, slots).err is None,
        batch_room(m, sc, c.ranks, slots.len()),
        sessions_differ(slots),
        idle(mc, c.ranks as nat),
    ensures
        ({
            let now = after_all(m, mc, decode_batched_run(m, sessions, n_logits, sc, c, slots).ops);
            &&& forall|k: int|
                0 <= k < slots.len() ==> now.fetched[(#[trigger] slots[k]).idx] == (Cell::Hidden {
                    line: slot_line(m, c.skip_shared, slots[k], m.config.num_layers as nat),
                })
            &&& slots_taken(m, c.skip_shared, mc, now, c.ranks as nat, slots)
        }),
{
    let nl = m.config.num_layers as nat;
    let tokens = slot_tokens(slots);
    let p1 = embed_prompt(m, sc, c.ranks, tokens);
    let p2 = each(nl, |i: int| slots_layer_run(m, sc, sessions, slots, c, i as usize));
    let p3 = slots_head_run(m, sc, slots);
    let hid = hids(batch_banks(sc, c.ranks));
    lemma_slots_parts(m, sessions, n_logits, sc, c, slots);
    lemma_after_concat(m, mc, p1, p2.ops + p3.ops);
    lemma_embed_all(m, mc, sc, c.ranks, tokens, c.ranks as nat);
    assert(hid.take(c.ranks as int) =~= hid);
    lemma_slots_rest(m, sc, sessions, c, slots, mc, after_all(m, mc, p1));
}

} // verus!
