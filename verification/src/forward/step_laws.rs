//! What a tensor-parallel decode step computes, and how a prompt that runs token by token
//! compares with one that runs in a batch.

use crate::device::DevicePtr;
use crate::forward::mesh::{
    after, after_all, embedded, ffn_norm_named, lemma_after_concat, lemma_after_one,
    lemma_after_push, share_of, width, Cell, Half, Line, Mesh,
};
use crate::forward::mesh_attn::{
    attn_done, attn_halves, hold_at, idle, in_a_row, lemma_attn_all, lemma_full_attn, lemma_gdn,
    quiet,
};
use crate::forward::mesh_ffn::{
    ffn_half, lemma_attn_named, lemma_full_rows, lemma_gdn_named, lemma_norm_named,
};
use crate::forward::mesh_join::{
    calm, hold, hold_normed, lemma_add, lemma_all_reduce, lemma_all_reduce_norm, lemma_marks,
    lemma_norm, norm_operand_ops, operand_ops, plus_all, shares,
};
use crate::forward::mesh_laws::{
    lemma_banks, lemma_prompt_taken, lemma_same_taken, law_batch_takes_prompt, prompt_taken,
};
use crate::forward::mesh_layer::{
    add_ops, alike, atts, bank_apart, banks_apart, batch_room, ffns, hids, layer_lines,
    lemma_adds, lemma_each_ok, lemma_ffn_all, mids, Bank,
};
use crate::forward::mesh_pass::{
    embeddings, layer_done, lemma_embed_row, lemma_layers_all, lived, lived_all, taken_in,
};
use crate::forward::moe_tp::experts_fit;
use crate::forward::op::{AttnOrFfnPub, Op, Pass};
use crate::forward::rows::{at, lemma_apart, within};
use crate::forward::slot_laws::lemma_checks;
use crate::forward::tp::{
    ar_launch, ar_marks, ar_norm_launch, attn_refs_spec, decode_ffn_run, decode_ffn_tail,
    decode_full_attn_run, decode_gdn_run, decode_head_run, decode_layer_check, decode_layer_run,
    decode_norm_at, decode_norm_check, decode_post_attn, decode_tail, embed_one, ffn_run,
    gdn_refs_spec, head_ops, layers_to_run, mid_ptrs, norm_ptrs, one_token_ready, one_token_run,
    prefill_batched_ready, prefill_batched_run, prompt_step, row_elems, spec_ffn_world,
    tensors_at, BatchCtx, FfnIo, LogitsSink, ShardedForwardOneTokenScratchTp,
    ShardedForwardPrefillScratchTp, TokenCtx,
};
use crate::names::TensorKind;
use crate::plan::{each, flat};
use crate::session::LayerCache;
use crate::tp_sharded::Qwen3MoETpModel;
use vstd::prelude::*;

verus! {

/// The buffers of rank `r` for one token.
pub open spec fn token_bank(sc: ShardedForwardOneTokenScratchTp, r: int) -> Bank {
    let s = sc.per_rank@[r];
    Bank {
        hidden: s.hidden_a,
        attn: s.partial_attn_out,
        ffn: s.partial_ffn_out,
        mid: s.layer->0.mid_norm_f16,
        shared: s.layer->0.shared_delta_f16,
    }
}

pub open spec fn token_banks(sc: ShardedForwardOneTokenScratchTp, ranks: usize) -> Seq<Bank> {
    Seq::new(ranks as nat, |r: int| token_bank(sc, r))
}

/// The working memory has room for one row of the model: buffers that are used at the same
/// time have no byte in common, and the elements of a row can be counted.
pub open spec fn token_room(
    m: Qwen3MoETpModel,
    sc: ShardedForwardOneTokenScratchTp,
    ranks: usize,
) -> bool {
    &&& 0 < m.config.hidden_size <= u32::MAX
    &&& sc.per_rank@[0].hidden_bytes == m.config.hidden_size * 2
    &&& banks_apart(token_banks(sc, ranks), width(m), 1)
}

/// The all-reduce with norm enters the hidden row and the attention's share of each rank.
proof fn lemma_norm_launch(
    sc: ShardedForwardOneTokenScratchTp,
    ranks: usize,
    world: u32,
    hid: Seq<DevicePtr>,
    att: Seq<DevicePtr>,
    w: Seq<DevicePtr>,
    o: Seq<DevicePtr>,
)
    requires
        world == 2 || world == 4,
        ranks == world,
        hid == hids(token_banks(sc, ranks)),
        att == atts(token_banks(sc, ranks)),
    ensures
        ar_norm_launch(sc, world, AttnOrFfnPub::Attn, w, o).err is None,
        ar_norm_launch(sc, world, AttnOrFfnPub::Attn, w, o).ops == norm_operand_ops(
            hid,
            att,
            w,
            o,
            world as nat,
        ).push(Op::AllReduceNorm { world, elems: row_elems(sc) }),
{
    let launch = ar_norm_launch(sc, world, AttnOrFfnPub::Attn, w, o);
    let elems = row_elems(sc);
    let f = |r: int|
        seq![
            Op::ArOperand {
                rank: r as usize,
                hidden: sc.per_rank@[r].hidden_a,
                partial: crate::forward::tp::decode_partial(
                    sc.per_rank@[r],
                    AttnOrFfnPub::Attn,
                ),
            },
            Op::ArNorm { rank: r as usize, weight: w[r], out: o[r] },
        ];
    let g = |r: int|
        seq![
            Op::ArOperand { rank: r as usize, hidden: hid[r], partial: att[r] },
            Op::ArNorm { rank: r as usize, weight: w[r], out: o[r] },
        ];
    assert(launch.ops == flat(world as nat, f).push(Op::AllReduceNorm { world, elems }));
    crate::plan::lemma_flat_same(world as nat, f, g);
    assert(norm_operand_ops(hid, att, w, o, world as nat) == flat(world as nat, g));
}

/// The attention's shares join the hidden row by an all-reduce with norm.
proof fn lemma_post_attn_mesh(
    m: Qwen3MoETpModel,
    mc: Mesh,
    sc: ShardedForwardOneTokenScratchTp,
    ranks: usize,
    il: usize,
    lines: Seq<Line>,
    halves: Seq<Half>,
)
    requires
        ranks == 2 || ranks == 4,
        ranks <= sc.per_rank@.len(),
        lines.len() == 1,
        token_room(m, sc, ranks),
        hold(m, mc, hids(token_banks(sc, ranks)), lines),
        shares(m, mc, atts(token_banks(sc, ranks)), lines, halves, ranks as nat),
    ensures
        ({
            let run = decode_post_attn(m, sc, ranks, il);
            let now = after_all(m, mc, run.ops);
            let banks = token_banks(sc, ranks);
            &&& run.err is None
            &&& hold(m, now, hids(banks), plus_all(lines, halves))
            &&& hold_normed(
                m,
                now,
                mids(banks),
                plus_all(lines, halves),
                norm_ptrs(m, ranks, il),
            )
            &&& calm(mc, now)
        }),
{
    let banks = token_banks(sc, ranks);
    let hid = hids(banks);
    let att = atts(banks);
    let mid = mids(banks);
    let w = norm_ptrs(m, ranks, il);
    let o = mid_ptrs(sc, ranks);
    let wd = width(m);
    let world = ranks as u32;
    let run = decode_post_attn(m, sc, ranks, il);
    let sums = plus_all(lines, halves);
    assert(o =~= mid);
    lemma_full_rows(m, 1);
    assert forall|r: int| 0 <= r < banks.len() implies crate::forward::rows::apart(
        #[trigger] hid[r],
        mid[r],
        wd,
        1,
    ) by {
        assert(bank_apart(banks[r], wd, 1));
    }
    let elems = row_elems(sc);
    assert(elems == m.config.hidden_size);
    let launch = ar_norm_launch(sc, world, AttnOrFfnPub::Attn, w, o);
    lemma_marks(m, mc, ranks);
    lemma_after_concat(m, mc, ar_marks(ranks), launch.ops);
    let b = after_all(m, mc, ar_marks(ranks));
    assert(hold(m, b, hid, lines));
    assert(shares(m, b, att, lines, halves, world as nat));
    lemma_norm_launch(sc, ranks, world, hid, att, w, o);
    lemma_all_reduce_norm(m, b, hid, att, w, o, lines, halves, world, elems);
}

/// On one rank: a sum and a norm.
proof fn lemma_single_ops(m: Qwen3MoETpModel, sc: ShardedForwardOneTokenScratchTp, il: usize)
    ensures
        ({
            let bank = token_bank(sc, 0);
            let a = Op::Add {
                rank: 0,
                a: bank.hidden,
                b: bank.attn,
                out: bank.hidden,
                elems: m.config.hidden_size,
            };
            let b = Op::RmsNorm {
                rank: 0,
                x: bank.hidden,
                weight: norm_ptrs(m, 1, il)[0],
                out: bank.mid,
                rows: 1,
                hidden: m.config.hidden_size,
            };
            &&& decode_post_attn(m, sc, 1, il).err is None
            &&& decode_post_attn(m, sc, 1, il).ops == seq![a].push(b)
        }),
{
    let bank = token_bank(sc, 0);
    let w = norm_ptrs(m, 1, il);
    let o = mid_ptrs(sc, 1);
    let run = decode_post_attn(m, sc, 1, il);
    let a = Op::Add {
        rank: 0,
        a: bank.hidden,
        b: bank.attn,
        out: bank.hidden,
        elems: m.config.hidden_size,
    };
    let b = Op::RmsNorm {
        rank: 0,
        x: bank.hidden,
        weight: w[0],
        out: bank.mid,
        rows: 1,
        hidden: m.config.hidden_size,
    };
    let f = |r: int|
        seq![
            Op::Add {
                rank: r as usize,
                a: sc.per_rank@[r].hidden_a,
                b: sc.per_rank@[r].partial_attn_out,
                out: sc.per_rank@[r].hidden_a,
                elems: m.config.hidden_size,
            },
            Op::RmsNorm {
                rank: r as usize,
                x: sc.per_rank@[r].hidden_a,
                weight: w[r],
                out: o[r],
                rows: 1,
                hidden: m.config.hidden_size,
            },
        ];
    assert(flat(0, f) =~= seq![]);
    assert(flat(1, f) == flat(0, f) + f(0));
    assert(run.ops =~= seq![a].push(b));
}

/// On one rank the attention's share is added and the sum normed.
proof fn lemma_post_attn_single(
    m: Qwen3MoETpModel,
    mc: Mesh,
    sc: ShardedForwardOneTokenScratchTp,
    ranks: usize,
    il: usize,
    lines: Seq<Line>,
    halves: Seq<Half>,
)
    requires
        ranks == 1,
        ranks <= sc.per_rank@.len(),
        lines.len() == 1,
        token_room(m, sc, ranks),
        hold(m, mc, hids(token_banks(sc, ranks)), lines),
        shares(m, mc, atts(token_banks(sc, ranks)), lines, halves, ranks as nat),
    ensures
        ({
            let run = decode_post_attn(m, sc, ranks, il);
            let now = after_all(m, mc, run.ops);
            let banks = token_banks(sc, ranks);
            &&& run.err is None
            &&& hold(m, now, hids(banks), plus_all(lines, halves))
            &&& hold_normed(
                m,
                now,
                mids(banks),
                plus_all(lines, halves),
                norm_ptrs(m, ranks, il),
            )
            &&& calm(mc, now)
        }),
{
    let banks = token_banks(sc, ranks);
    let hid = hids(banks);
    let att = atts(banks);
    let w = norm_ptrs(m, ranks, il);
    let o = mid_ptrs(sc, ranks);
    let wd = width(m);
    let run = decode_post_attn(m, sc, ranks, il);
    let sums = plus_all(lines, halves);
    assert(o =~= mids(banks));
    lemma_full_rows(m, 1);
    let bank = banks[0];
    let a = Op::Add {
        rank: 0,
        a: bank.hidden,
        b: bank.attn,
        out: bank.hidden,
        elems: m.config.hidden_size,
    };
    let b = Op::RmsNorm {
        rank: 0,
        x: bank.hidden,
        weight: w[0],
        out: bank.mid,
        rows: 1,
        hidden: m.config.hidden_size,
    };
    lemma_single_ops(m, sc, il);
    lemma_after_push(m, mc, seq![a], b);
    lemma_after_one(m, mc, a);
    let m1 = after(m, mc, a);
    assert forall|i: int| 0 <= i < 1 implies mc.cells[#[trigger] at(0, bank.hidden, i, wd)] == (
    Cell::Hidden { line: lines[i] }) by {
        assert(mc.cells[at(0, hid[0], i, wd)] == (Cell::Hidden { line: lines[i] }));
    }
    assert forall|i: int| 0 <= i < 1 implies share_of(
        mc.cells[#[trigger] at(0, bank.attn, i, wd)],
        lines[i],
        halves[i],
        0,
        1,
    ) by {
        assert(share_of(mc.cells[at(0, att[0], i, wd)], lines[i], halves[i], 0, 1));
    }
    lemma_add(m, mc, 0, bank.hidden, bank.attn, lines, halves, m.config.hidden_size);
    lemma_norm(m, m1, 0, bank.hidden, w[0], bank.mid, sums, 1);
    assert(bank_apart(bank, wd, 1));
    lemma_apart(0, bank.hidden, bank.mid, wd, 1);
    let now = after_all(m, mc, run.ops);
    assert(now == after(m, m1, b));
    assert(hold(m, now, hid, sums)) by {
        assert forall|r: usize, i: int| r < hid.len() && 0 <= i < sums.len() implies now.cells[
            #[trigger] at(r, hid[r as int], i, wd)
        ] == (Cell::Hidden { line: sums[i] }) by {
            assert(m1.cells[at(0, bank.hidden, i, wd)] == (Cell::Hidden { line: sums[i] }));
            assert(!within(at(0, bank.hidden, i, wd), 0, bank.mid, wd, 1));
        }
    }
}

/// The attention's shares join the hidden row, which is then normed.
proof fn lemma_post_attn(
    m: Qwen3MoETpModel,
    mc: Mesh,
    sc: ShardedForwardOneTokenScratchTp,
    ranks: usize,
    il: usize,
    lines: Seq<Line>,
    halves: Seq<Half>,
)
    requires
        ranks == 1 || ranks == 2 || ranks == 4,
        ranks <= sc.per_rank@.len(),
        lines.len() == 1,
        token_room(m, sc, ranks),
        hold(m, mc, hids(token_banks(sc, ranks)), lines),
        shares(m, mc, atts(token_banks(sc, ranks)), lines, halves, ranks as nat),
    ensures
        ({
            let run = decode_post_attn(m, sc, ranks, il);
            let now = after_all(m, mc, run.ops);
            let banks = token_banks(sc, ranks);
            &&& run.err is None
            &&& hold(m, now, hids(banks), plus_all(lines, halves))
            &&& hold_normed(
                m,
                now,
                mids(banks),
                plus_all(lines, halves),
                norm_ptrs(m, ranks, il),
            )
            &&& calm(mc, now)
        }),
{
    if ranks == 1 {
        lemma_post_attn_single(m, mc, sc, ranks, il, lines, halves);
    } else {
        lemma_post_attn_mesh(m, mc, sc, ranks, il, lines, halves);
    }
}

/// The FFN's shares join the hidden row.
proof fn lemma_ffn_tail(
    m: Qwen3MoETpModel,
    mc: Mesh,
    sc: ShardedForwardOneTokenScratchTp,
    ranks: usize,
    il: usize,
    lines: Seq<Line>,
    halves: Seq<Half>,
)
    requires
        ranks == 1 || ranks == 2 || ranks == 4,
        ranks <= sc.per_rank@.len(),
        lines.len() == 1,
        token_room(m, sc, ranks),
        hold(m, mc, hids(token_banks(sc, ranks)), lines),
        shares(
            m,
            mc,
            ffns(token_banks(sc, ranks)),
            lines,
            halves,
            spec_ffn_world(m, il, ranks as u32) as nat,
        ),
    ensures
        ({
            let run = decode_ffn_tail(m, sc, ranks, il);
            let now = after_all(m, mc, run.ops);
            &&& run.err is None
            &&& hold(m, now, hids(token_banks(sc, ranks)), plus_all(lines, halves))
            &&& calm(mc, now)
        }),
{
    let banks = token_banks(sc, ranks);
    let hid = hids(banks);
    let par = ffns(banks);
    let world = ranks as u32;
    let run = decode_ffn_tail(m, sc, ranks, il);
    lemma_full_rows(m, 1);
    if spec_ffn_world(m, il, world) > 1 {
        let elems = row_elems(sc);
        assert(elems == m.config.hidden_size);
        let launch = ar_launch(sc, world, AttnOrFfnPub::Ffn);
        lemma_marks(m, mc, ranks);
        lemma_after_concat(m, mc, ar_marks(ranks), launch.ops);
        let b = after_all(m, mc, ar_marks(ranks));
        assert(hold(m, b, hid, lines));
        assert(shares(m, b, par, lines, halves, world as nat));
        assert(launch.ops =~= operand_ops(hid, par, world as nat).push(
            Op::AllReduce { world, elems },
        ));
        lemma_all_reduce(m, b, hid, par, lines, halves, world, elems);
    } else {
        assert(run.ops =~= add_ops(hid, par, m.config.hidden_size, ranks as nat));
        lemma_adds(m, mc, hid, par, lines, halves, m.config.hidden_size, ranks as nat);
        assert(hid.take(ranks as int) =~= hid);
    }
}

/// The parts of a layer for one token after its attention blocks.
proof fn lemma_token_parts(
    m: Qwen3MoETpModel,
    sc: ShardedForwardOneTokenScratchTp,
    c: TokenCtx,
    il: usize,
)
    requires
        decode_tail(m, sc, c, il).err is None,
    ensures
        ({
            let world = spec_ffn_world(m, il, c.ranks as u32);
            let mid = mid_ptrs(sc, c.ranks);
            let p3 = decode_post_attn(m, sc, c.ranks, il);
            let p4 = each(
                c.ranks as nat,
                |i: int| decode_ffn_run(m, sc, il, world, mid, false, c.skip_shared, i),
            );
            let p5 = decode_ffn_tail(m, sc, c.ranks, il);
            &&& p4.err is None
            &&& decode_tail(m, sc, c, il).ops == p3.ops + (p4.ops + p5.ops)
        }),
        forall|r: int|
            0 <= r < c.ranks ==> ffn_norm_named(
                m,
                r as usize,
                il,
                #[trigger] norm_ptrs(m, c.ranks, il)[r],
            ),
{
    let k = c.ranks as nat;
    let world = spec_ffn_world(m, il, c.ranks as u32);
    let mid = mid_ptrs(sc, c.ranks);
    let f1 = |i: int| decode_norm_check(m, il, i);
    let f2 = |i: int| decode_layer_check(sc, i);
    let f4 = |i: int| decode_ffn_run(m, sc, il, world, mid, false, c.skip_shared, i);
    let p3 = decode_post_attn(m, sc, c.ranks, il);
    let p4 = each(k, f4);
    let p5 = decode_ffn_tail(m, sc, c.ranks, il);
    assert(each(k, f1).err is None && each(k, f2).err is None);
    lemma_checks(k, f1);
    lemma_checks(k, f2);
    let e = Seq::<Op>::empty();
    assert(e + (e + (p3.ops + (p4.ops + p5.ops))) =~= p3.ops + (p4.ops + p5.ops));
    assert forall|r: int| 0 <= r < k implies ffn_norm_named(
        m,
        r as usize,
        il,
        #[trigger] norm_ptrs(m, c.ranks, il)[r],
    ) by {
        lemma_each_ok(k, f1, r);
        assert(f1(r).err is None);
        lemma_norm_named(
            m,
            r as usize,
            il,
            TensorKind::PostAttentionNorm,
            TensorKind::FfnNorm,
            decode_norm_at(m, il, r)->Ok_0,
        );
    }
}

/// A layer for one token adds the attention's half and the FFN's.
proof fn lemma_token_tail(
    m: Qwen3MoETpModel,
    mc: Mesh,
    sc: ShardedForwardOneTokenScratchTp,
    c: TokenCtx,
    il: usize,
    lines: Seq<Line>,
    halves: Seq<Half>,
)
    requires
        c.ranks == 1 || c.ranks == 2 || c.ranks == 4,
        c.ranks <= sc.per_rank@.len(),
        experts_fit(&m.config),
        lines.len() == 1,
        token_room(m, sc, c.ranks),
        decode_tail(m, sc, c, il).err is None,
        hold(m, mc, hids(token_banks(sc, c.ranks)), lines),
        shares(m, mc, atts(token_banks(sc, c.ranks)), lines, halves, c.ranks as nat),
    ensures
        ({
            let now = after_all(m, mc, decode_tail(m, sc, c, il).ops);
            &&& hold(
                m,
                now,
                hids(token_banks(sc, c.ranks)),
                layer_lines(m, lines, halves, c.skip_shared, il),
            )
            &&& calm(mc, now)
        }),
{
    let banks = token_banks(sc, c.ranks);
    let k = c.ranks as nat;
    let world = spec_ffn_world(m, il, c.ranks as u32);
    let mid = mid_ptrs(sc, c.ranks);
    let f4 = |i: int| decode_ffn_run(m, sc, il, world, mid, false, c.skip_shared, i);
    let p3 = decode_post_attn(m, sc, c.ranks, il);
    let p4 = each(k, f4);
    let p5 = decode_ffn_tail(m, sc, c.ranks, il);
    lemma_token_parts(m, sc, c, il);
    lemma_post_attn(m, mc, sc, c.ranks, il, lines, halves);
    lemma_after_concat(m, mc, p3.ops, p4.ops + p5.ops);
    let m1 = after_all(m, mc, p3.ops);
    let sums = plus_all(lines, halves);
    let weights = norm_ptrs(m, c.ranks, il);
    let ls = |r: int| sc.per_rank@[r].layer->0;
    let io = |r: int|
        FfnIo {
            pass: Pass::Decode,
            n_tokens: 1,
            x: mid[r],
            partial: sc.per_rank@[r].partial_ffn_out,
            skip_shared: c.skip_shared,
            pre_quantized: false,
        };
    assert forall|r: int| 0 <= r < k implies {
        &&& #[trigger] f4(r) == ffn_run(m, il, r, world, ls(r), io(r))
        &&& ffn_norm_named(m, r as usize, il, weights[r])
    } by {
    }
    assert(1 * m.config.hidden_size <= usize::MAX);
    lemma_ffn_all(m, m1, f4, ls, io, banks, weights, sums, il, c.skip_shared, world, k);
    lemma_after_concat(m, m1, p4.ops, p5.ops);
    let m2 = after_all(m, m1, p4.ops);
    assert(ffns(banks).take(k as int) =~= ffns(banks));
    lemma_ffn_tail(
        m,
        m2,
        sc,
        c.ranks,
        il,
        sums,
        alike(ffn_half(m.config, c.skip_shared, il), 1),
    );
}

/// The first `k` ranks embed the token.
proof fn lemma_embed_one(
    m: Qwen3MoETpModel,
    mc: Mesh,
    sc: ShardedForwardOneTokenScratchTp,
    ranks: usize,
    token: u32,
    k: usize,
)
    requires
        width(m) > 0,
        k <= ranks <= u32::MAX,
    ensures
        ({
            let now = after_all(m, mc, embed_one(m, sc, k, token));
            &&& hold(
                m,
                now,
                hids(token_banks(sc, ranks)).take(k as int),
                embeddings(seq![token]),
            )
            &&& calm(mc, now)
        }),
    decreases k,
{
    let hid = hids(token_banks(sc, ranks));
    let w = width(m);
    if k > 0 {
        let q = (k - 1) as usize;
        lemma_embed_one(m, mc, sc, ranks, token, q);
        assert(embed_one(m, sc, k, token).drop_last() =~= embed_one(m, sc, q, token));
        let b = after_all(m, mc, embed_one(m, sc, q, token));
        let now = after_all(m, mc, embed_one(m, sc, k, token));
        assert(now == after(m, b, embed_one(m, sc, k, token).last()));
        let base = sc.per_rank@[q as int].hidden_a;
        assert(0 * w == 0) by (nonlinear_arith);
        lemma_embed_row(m, b, q, base, 0, base, token);
        assert forall|r: usize, i: int| r < k && 0 <= i < 1 implies now.cells[#[trigger] at(
            r,
            hid.take(k as int)[r as int],
            i,
            w,
        )] == (Cell::Hidden { line: embeddings(seq![token])[i] }) by {
            if r < q {
                assert(b.cells[at(r, hid.take(q as int)[r as int], i, w)] == (Cell::Hidden {
                    line: embeddings(seq![token])[i],
                }));
            }
        }
    }
}

/// A layer for one token.
proof fn lemma_token_layer(
    m: Qwen3MoETpModel,
    b: Mesh,
    sc: ShardedForwardOneTokenScratchTp,
    caches: Seq<Vec<LayerCache>>,
    c: TokenCtx,
    il: usize,
    lines: Seq<Line>,
)
    requires
        c.ranks == 1 || c.ranks == 2 || c.ranks == 4,
        c.ranks <= sc.per_rank@.len(),
        experts_fit(&m.config),
        lines.len() == 1,
        token_room(m, sc, c.ranks),
        decode_layer_run(m, sc, caches, c, il).err is None,
        hold(m, b, hids(token_banks(sc, c.ranks)), lines),
        idle(b, c.ranks as nat),
    ensures
        layer_done(
            m,
            c.skip_shared,
            b,
            after_all(m, b, decode_layer_run(m, sc, caches, c, il).ops),
            hids(token_banks(sc, c.ranks)),
            in_a_row(c.position as int, 1),
            lines,
            il,
            il,
        ),
{
    let recurrent = m.config.spec_is_recurrent(il as nat);
    let f1 = |i: int| decode_gdn_run(m, sc, caches, c, il, il, i);
    let f2 = |i: int| decode_full_attn_run(m, sc, caches, c, il, il, i);
    let f = if recurrent {
        f1
    } else {
        f2
    };
    let k = c.ranks as nat;
    let banks = token_banks(sc, c.ranks);
    let hid = hids(banks);
    let att = atts(banks);
    let who = in_a_row(c.position as int, 1);
    let first = each(k, f);
    let tail = decode_tail(m, sc, c, il);
    let run = decode_layer_run(m, sc, caches, c, il);
    assert(run == crate::plan::then2(first, tail));
    lemma_banks(m, banks, 1);
    assert forall|r: usize, b: Mesh|
        r < k && f(r as int).err is None && hold_at(m, b, r, hid[r as int], lines) && idle(
            b,
            hid.len(),
        ) implies attn_done(
        m,
        b,
        #[trigger] after_all(m, b, f(r as int).ops),
        r,
        att[r as int],
        who,
        lines,
        il,
        il,
        c.ranks as u32,
    ) by {
        let s = sc.per_rank@[r as int];
        let ts = tensors_at(m, r as int, il);
        let world = c.ranks as u32;
        if recurrent {
            let w = gdn_refs_spec(ts, il)->Ok_0;
            lemma_gdn_named(m, r, il, w);
            lemma_gdn(
                m,
                b,
                r,
                il,
                il,
                w,
                Pass::Decode,
                s.hidden_a,
                s.partial_attn_out,
                lines,
                1,
                c.position,
                world,
            );
        } else {
            let w = attn_refs_spec(ts, il)->Ok_0;
            lemma_attn_named(m, r, il, w);
            lemma_full_attn(
                m,
                b,
                r,
                il,
                il,
                w,
                Pass::Decode,
                s.hidden_a,
                s.partial_attn_out,
                lines,
                1,
                c.position,
                world,
            );
        }
    }
    lemma_attn_all(m, b, f, hid, att, who, lines, il, il, c.ranks as u32, k);
    assert(att.take(k as int) =~= att);
    let mid = after_all(m, b, first.ops);
    lemma_after_concat(m, b, first.ops, tail.ops);
    lemma_token_tail(m, mid, sc, c, il, lines, attn_halves(m.config, il, who));
}

/// The first `nl` layers for one token.
proof fn lemma_token_layers(
    m: Qwen3MoETpModel,
    m1: Mesh,
    sc: ShardedForwardOneTokenScratchTp,
    caches: Seq<Vec<LayerCache>>,
    c: TokenCtx,
    token: u32,
    nl: usize,
)
    requires
        c.ranks == 1 || c.ranks == 2 || c.ranks == 4,
        c.ranks <= sc.per_rank@.len(),
        experts_fit(&m.config),
        token_room(m, sc, c.ranks),
        each(nl as nat, |i: int| decode_layer_run(m, sc, caches, c, i as usize)).err is None,
        hold(m, m1, hids(token_banks(sc, c.ranks)), embeddings(seq![token])),
        idle(m1, c.ranks as nat),
    ensures
        ({
            let now = after_all(
                m,
                m1,
                each(nl as nat, |i: int| decode_layer_run(m, sc, caches, c, i as usize)).ops,
            );
            let who = in_a_row(c.position as int, 1);
            &&& hold(
                m,
                now,
                hids(token_banks(sc, c.ranks)),
                lived_all(m.config, c.skip_shared, embeddings(seq![token]), who, 0, nl as nat),
            )
            &&& taken_in(
                m.config,
                c.skip_shared,
                m1,
                now,
                c.ranks as nat,
                who,
                embeddings(seq![token]),
                0,
                0,
                nl as nat,
            )
            &&& quiet(m1, now)
            &&& idle(now, c.ranks as nat)
        }),
{
    let hid = hids(token_banks(sc, c.ranks));
    let who = in_a_row(c.position as int, 1);
    let lines = embeddings(seq![token]);
    let f = |i: int| decode_layer_run(m, sc, caches, c, i as usize);
    assert forall|i: int, b: Mesh, x: Seq<Line>|
        0 <= i < nl && f(i).err is None && x.len() == lines.len() && #[trigger] hold(m, b, hid, x)
            && idle(b, hid.len()) implies layer_done(
        m,
        c.skip_shared,
        b,
        #[trigger] after_all(m, b, f(i).ops),
        hid,
        who,
        x,
        (0 + i) as usize,
        (0 + i - 0) as usize,
    ) by {
        lemma_token_layer(m, b, sc, caches, c, i as usize, x);
    }
    lemma_layers_all(m, m1, f, hid, who, lines, 0, 0, c.skip_shared, nl as nat);
}

/// The head of a decode step: the logits are those of the given row, and the sink gets them.
pub open spec fn sunk(before: Mesh, now: Mesh, head: usize, cell: Cell, sink: LogitsSink) -> bool {
    &&& now.logits[head] == cell
    &&& match sink {
        LogitsSink::HostArgmax => now.picked == Some(cell) && now.fetched == before.fetched,
        LogitsSink::HostLogits => now.fetched == before.fetched.insert(0, cell) && now.picked
            == before.picked,
        LogitsSink::KeepOnDevice => now.fetched == before.fetched && now.picked == before.picked,
    }
}

proof fn lemma_head(m: Qwen3MoETpModel, mc: Mesh, head: usize, x: DevicePtr, sink: LogitsSink)
    ensures
        ({
            let now = after_all(m, mc, head_ops(m, head as int, x, sink));
            &&& sunk(mc, now, head, mc.cells[(head, x.0 as int)], sink)
            &&& now.kv == mc.kv && now.states == mc.states && now.gathered == mc.gathered
        }),
{
    let ops = head_ops(m, head as int, x, sink);
    lemma_after_one(m, mc, ops[0]);
    if sink == LogitsSink::KeepOnDevice {
        assert(ops =~= seq![ops[0]]);
    } else {
        assert(ops =~= seq![ops[0]].push(ops[1]));
        lemma_after_push(m, mc, seq![ops[0]], ops[1]);
    }
}

/// The layers and the head of a decode step.
proof fn lemma_token_rest(
    m: Qwen3MoETpModel,
    sc: ShardedForwardOneTokenScratchTp,
    caches: Seq<Vec<LayerCache>>,
    c: TokenCtx,
    token: u32,
    sink: LogitsSink,
    nl: usize,
    mc: Mesh,
    m1: Mesh,
)
    requires
        c.ranks == 1 || c.ranks == 2 || c.ranks == 4,
        c.ranks <= sc.per_rank@.len(),
        sc.head_rank.0 < c.ranks,
        experts_fit(&m.config),
        token_room(m, sc, c.ranks),
        each(nl as nat, |i: int| decode_layer_run(m, sc, caches, c, i as usize)).err is None,
        decode_head_run(m, sc, sink).err is None,
        hold(m, m1, hids(token_banks(sc, c.ranks)), embeddings(seq![token])),
        idle(m1, c.ranks as nat),
        calm(mc, m1),
    ensures
        ({
            let p2 = each(nl as nat, |i: int| decode_layer_run(m, sc, caches, c, i as usize));
            let now = after_all(m, m1, p2.ops + decode_head_run(m, sc, sink).ops);
            let line = lived(
                m.config,
                c.skip_shared,
                embedded(token),
                c.position as int,
                0,
                nl as nat,
            );
            &&& sunk(mc, now, sc.head_rank.0 as usize, Cell::Hidden { line }, sink)
            &&& prompt_taken(
                m,
                c.skip_shared,
                mc,
                now,
                c.ranks as nat,
                seq![token],
                c.position as int,
                nl as nat,
            )
            &&& idle(now, c.ranks as nat)
        }),
{
    let who = in_a_row(c.position as int, 1);
    let f = |i: int| decode_layer_run(m, sc, caches, c, i as usize);
    let p2 = each(nl as nat, f);
    let p3 = decode_head_run(m, sc, sink);
    lemma_token_layers(m, m1, sc, caches, c, token, nl);
    lemma_after_concat(m, m1, p2.ops, p3.ops);
    let m2 = after_all(m, m1, p2.ops);
    let last = lived_all(m.config, c.skip_shared, embeddings(seq![token]), who, 0, nl as nat);
    let head = sc.head_rank.0 as usize;
    let x = sc.per_rank@[head as int].hidden_a;
    let hid = hids(token_banks(sc, c.ranks));
    assert(0 * width(m) == 0) by (nonlinear_arith);
    assert(m2.cells[at(head, hid[head as int], 0, width(m))] == (Cell::Hidden { line: last[0] }));
    assert(at(head, hid[head as int], 0, width(m)) == (head, x.0 as int));
    lemma_head(m, m2, head, x, sink);
    let now = after_all(m, m2, p3.ops);
    let p = c.position as int;
    let toks = seq![token];
    lemma_prompt_taken(m, c.skip_shared, m1, m2, c.ranks as nat, toks, p, nl as nat);
    lemma_same_taken(m, c.skip_shared, m1, m2, mc, now, c.ranks as nat, toks, p, nl as nat);
}

proof fn lemma_step_parts(
    m: Qwen3MoETpModel,
    sc: ShardedForwardOneTokenScratchTp,
    caches: Seq<Vec<LayerCache>>,
    c: TokenCtx,
    token: u32,
    sink: LogitsSink,
    layer_limit: Option<usize>,
)
    requires
        one_token_ready(m, sc, caches, c),
        one_token_run(m, sc, caches, c, token, sink, layer_limit).err is None,
    ensures
        ({
            let nl = layers_to_run(m, layer_limit) as nat;
            let p1 = embed_one(m, sc, c.ranks, token);
            let p2 = each(nl, |i: int| decode_layer_run(m, sc, caches, c, i as usize));
            let p3 = decode_head_run(m, sc, sink);
            &&& p2.err is None
            &&& p3.err is None
            &&& one_token_run(m, sc, caches, c, token, sink, layer_limit).ops == p1 + (p2.ops
                + p3.ops)
        }),
        c.ranks == 1 || c.ranks == 2 || c.ranks == 4,
        c.ranks <= sc.per_rank@.len(),
        sc.head_rank.0 < c.ranks,
        experts_fit(&m.config),
{
}

/// A decode step: the logits are those of the token's row, the same on every rank, which
/// began with the token's embedding and to which every layer that runs has added its
/// attention and its FFN; and the caches take in the token at its position.
pub proof fn law_step_runs_token(
    m: Qwen3MoETpModel,
    sc: ShardedForwardOneTokenScratchTp,
    caches: Seq<Vec<LayerCache>>,
    c: TokenCtx,
    token: u32,
    sink: LogitsSink,
    layer_limit: Option<usize>,
    mc: Mesh,
)
    requires
        one_token_ready(m, sc, caches, c),
        one_token_run(m, sc, caches, c, token, sink, layer_limit).err is None,
        token_room(m, sc, c.ranks),
        idle(mc, c.ranks as nat),
    ensures
        ({
            let now = after_all(
                m,
                mc,
                one_token_run(m, sc, caches, c, token, sink, layer_limit).ops,
            );
            let nl = match layer_limit {
                Some(n) if n < m.config.num_layers => n as nat,
                _ => m.config.num_layers as nat,
            };
            let line = lived(m.config, c.skip_shared, embedded(token), c.position as int, 0, nl);
            &&& sunk(mc, now, sc.head_rank.0 as usize, Cell::Hidden { line }, sink)
            &&& prompt_taken(
                m,
                c.skip_shared,
                mc,
                now,
                c.ranks as nat,
                seq![token],
                c.position as int,
                nl,
            )
            &&& idle(now, c.ranks as nat)
        }),
{
    let nl = layers_to_run(m, layer_limit);
    let p1 = embed_one(m, sc, c.ranks, token);
    let p2 = each(nl as nat, |i: int| decode_layer_run(m, sc, caches, c, i as usize));
    let p3 = decode_head_run(m, sc, sink);
    let hid = hids(token_banks(sc, c.ranks));
    lemma_step_parts(m, sc, caches, c, token, sink, layer_limit);
    lemma_after_concat(m, mc, p1, p2.ops + p3.ops);
    lemma_embed_one(m, mc, sc, c.ranks, token, c.ranks);
    assert(hid.take(c.ranks as int) =~= hid);
    lemma_token_rest(m, sc, caches, c, token, sink, nl, mc, after_all(m, mc, p1));
}

/// One more token of a prompt has been taken in.
proof fn lemma_one_more(
    m: Qwen3MoETpModel,
    skip_shared: bool,
    a: Mesh,
    b: Mesh,
    c: Mesh,
    ranks: nat,
    tokens: Seq<u32>,
    start: int,
    nl: nat,
    j: nat,
)
    requires
        j < tokens.len(),
        prompt_taken(m, skip_shared, a, b, ranks, tokens.take(j as int), start, nl),
        prompt_taken(m, skip_shared, b, c, ranks, seq![tokens[j as int]], start + j, nl),
    ensures
        prompt_taken(m, skip_shared, a, c, ranks, tokens.take(j as int + 1), start, nl),
{
    reveal(prompt_taken);
    let cfg = m.config;
    let all = tokens.take(j as int + 1);
    let old = tokens.take(j as int);
    let one = seq![tokens[j as int]];
    assert forall|r: usize, il: usize, i: int|
        r < ranks && il < nl && !cfg.spec_is_recurrent(il as nat) && 0 <= i < all.len() implies
        #[trigger] c.kv[(r, 0usize, il, start + i)] == (Cell::Hidden {
        line: lived(cfg, skip_shared, embedded(all[i]), start + i, 0, il as nat),
    }) by {
        if i < j {
            assert(b.kv[(r, 0usize, il, start + i)] == (Cell::Hidden {
                line: lived(cfg, skip_shared, embedded(old[i]), start + i, 0, il as nat),
            }));
            assert(c.kv[(r, 0usize, il, start + i)] == b.kv[(r, 0usize, il, start + i)]);
        } else {
            assert(start + i == (start + j) + 0);
            assert(c.kv[(r, 0usize, il, (start + j) + 0)] == (Cell::Hidden {
                line: lived(cfg, skip_shared, embedded(one[0]), (start + j) + 0, 0, il as nat),
            }));
        }
    }
    assert forall|r: usize, il: usize|
        r < ranks && il < nl && cfg.spec_is_recurrent(il as nat) implies #[trigger] c.states[(
        r,
        0usize,
        il,
    )] == a.states[(r, 0usize, il)] + Seq::new(
        all.len(),
        |i: int|
            Cell::Hidden {
                line: lived(cfg, skip_shared, embedded(all[i]), start + i, 0, il as nat),
            },
    ) by {
        let x = Seq::new(
            old.len(),
            |i: int|
                Cell::Hidden {
                    line: lived(cfg, skip_shared, embedded(old[i]), start + i, 0, il as nat),
                },
        );
        let y = Seq::new(
            one.len(),
            |i: int|
                Cell::Hidden {
                    line: lived(
                        cfg,
                        skip_shared,
                        embedded(one[i]),
                        (start + j) + i,
                        0,
                        il as nat,
                    ),
                },
        );
        let z = Seq::new(
            all.len(),
            |i: int|
                Cell::Hidden {
                    line: lived(cfg, skip_shared, embedded(all[i]), start + i, 0, il as nat),
                },
        );
        assert(b.states[(r, 0usize, il)] == a.states[(r, 0usize, il)] + x);
        assert(c.states[(r, 0usize, il)] == b.states[(r, 0usize, il)] + y);
        assert(x + y =~= z);
        assert((a.states[(r, 0usize, il)] + x) + y =~= a.states[(r, 0usize, il)] + z);
    }
    assert forall|e: (usize, usize, usize, int)|
        !(e.0 < ranks && e.1 == 0 && e.2 < nl && !cfg.spec_is_recurrent(e.2 as nat) && start <= e.3
            < start + all.len()) implies #[trigger] c.kv[e] == a.kv[e] by {
        assert(b.kv[e] == a.kv[e]);
    }
    assert forall|e: (usize, usize, usize)|
        !(e.0 < ranks && e.1 == 0 && e.2 < nl && cfg.spec_is_recurrent(
            e.2 as nat,
        )) implies #[trigger] c.states[e] == a.states[e] by {
        assert(b.states[e] == a.states[e]);
    }
}

/// Nothing has been taken in before the first token.
proof fn lemma_no_token(
    m: Qwen3MoETpModel,
    skip_shared: bool,
    mc: Mesh,
    ranks: nat,
    tokens: Seq<u32>,
    start: int,
    nl: nat,
)
    ensures
        prompt_taken(m, skip_shared, mc, mc, ranks, tokens.take(0), start, nl),
{
    reveal(prompt_taken);
    let f = |il: usize|
        Seq::new(
            tokens.take(0).len(),
            |i: int|
                Cell::Hidden {
                    line: lived(
                        m.config,
                        skip_shared,
                        embedded(tokens.take(0)[i]),
                        start + i,
                        0,
                        il as nat,
                    ),
                },
        );
    assert forall|r: usize, il: usize|
        r < ranks && il < nl && m.config.spec_is_recurrent(il as nat) implies #[trigger] mc.states[(
        r,
        0usize,
        il,
    )] == mc.states[(r, 0usize, il)] + f(il) by {
        assert(mc.states[(r, 0usize, il)] + f(il) =~= mc.states[(r, 0usize, il)]);
    }
}

/// A step needs the same at every position.
proof fn lemma_ready_anywhere(
    m: Qwen3MoETpModel,
    sc: ShardedForwardOneTokenScratchTp,
    caches: Seq<Vec<LayerCache>>,
    c: BatchCtx,
    p: usize,
    q: usize,
)
    requires
        one_token_ready(m, sc, caches, step_ctx(c, p)),
    ensures
        one_token_ready(m, sc, caches, step_ctx(c, q)),
{
}

/// The step of token `j` of a prompt.
proof fn lemma_step_at(
    m: Qwen3MoETpModel,
    sc: ShardedForwardOneTokenScratchTp,
    caches: Seq<Vec<LayerCache>>,
    c: BatchCtx,
    tokens: Seq<u32>,
    b: Mesh,
    j: int,
)
    requires
        0 <= j < tokens.len(),
        c.start_position + tokens.len() <= usize::MAX,
        one_token_ready(m, sc, caches, step_ctx(c, c.start_position)),
        prompt_step(m, sc, caches, c, tokens, None, j).err is None,
        token_room(m, sc, c.ranks),
        idle(b, c.ranks as nat),
    ensures
        ({
            let now = after_all(m, b, prompt_step(m, sc, caches, c, tokens, None, j).ops);
            let nl = m.config.num_layers as nat;
            &&& prompt_taken(
                m,
                c.skip_shared,
                b,
                now,
                c.ranks as nat,
                seq![tokens[j]],
                c.start_position + j,
                nl,
            )
            &&& now.fetched[0] == (Cell::Hidden {
                line: lived(
                    m.config,
                    c.skip_shared,
                    embedded(tokens[j]),
                    c.start_position + j,
                    0,
                    nl,
                ),
            })
            &&& idle(now, c.ranks as nat)
        }),
{
    let p = (c.start_position + j) as usize;
    lemma_ready_anywhere(m, sc, caches, c, c.start_position, p);
    law_step_runs_token(
        m,
        sc,
        caches,
        step_ctx(c, p),
        tokens[j],
        LogitsSink::HostLogits,
        None,
        b,
    );
}

/// The step of token `j` of a prompt has done its work.
pub open spec fn step_done(
    m: Qwen3MoETpModel,
    c: BatchCtx,
    tokens: Seq<u32>,
    b: Mesh,
    now: Mesh,
    j: int,
) -> bool {
    let nl = m.config.num_layers as nat;
    let one = seq![tokens[j]];
    let p = c.start_position + j;
    &&& prompt_taken(m, c.skip_shared, b, now, c.ranks as nat, one, p, nl)
    &&& now.fetched[0] == (Cell::Hidden {
        line: lived(m.config, c.skip_shared, embedded(tokens[j]), p, 0, nl),
    })
    &&& idle(now, c.ranks as nat)
}

/// The first `k` tokens of a prompt that runs token by token.
proof fn lemma_steps(
    m: Qwen3MoETpModel,
    f: spec_fn(int) -> crate::plan::Run<Op, crate::forward::op::ForwardError>,
    c: BatchCtx,
    tokens: Seq<u32>,
    mc: Mesh,
    k: nat,
)
    requires
        k <= tokens.len(),
        each(k, f).err is None,
        idle(mc, c.ranks as nat),
        forall|j: int, b: Mesh|
            0 <= j < k && f(j).err is None && idle(b, c.ranks as nat) ==> step_done(
                m,
                c,
                tokens,
                b,
                #[trigger] after_all(m, b, f(j).ops),
                j,
            ),
    ensures
        ({
            let now = after_all(m, mc, each(k, f).ops);
            let nl = m.config.num_layers as nat;
            &&& prompt_taken(
                m,
                c.skip_shared,
                mc,
                now,
                c.ranks as nat,
                tokens.take(k as int),
                c.start_position as int,
                nl,
            )
            &&& k > 0 ==> now.fetched[0] == (Cell::Hidden {
                line: lived(
                    m.config,
                    c.skip_shared,
                    embedded(tokens[k - 1]),
                    c.start_position + (k - 1),
                    0,
                    nl,
                ),
            })
            &&& idle(now, c.ranks as nat)
        }),
    decreases k,
{
    let nl = m.config.num_layers as nat;
    let start = c.start_position as int;
    if k == 0 {
        assert(each(k, f).ops =~= seq![]);
        lemma_no_token(m, c.skip_shared, mc, c.ranks as nat, tokens, start, nl);
    } else {
        let j = (k - 1) as nat;
        lemma_steps(m, f, c, tokens, mc, j);
        lemma_after_concat(m, mc, each(j, f).ops, f(j as int).ops);
        let b = after_all(m, mc, each(j, f).ops);
        let now = after_all(m, mc, each(k, f).ops);
        assert(now == after_all(m, b, f(j as int).ops));
        assert(step_done(m, c, tokens, b, now, j as int));
        lemma_one_more(m, c.skip_shared, mc, b, now, c.ranks as nat, tokens, start, nl, j);
    }
}

/// The step of a prompt at a position.
pub open spec fn step_ctx(c: BatchCtx, position: usize) -> TokenCtx {
    TokenCtx { ranks: c.ranks, position, skip_shared: c.skip_shared }
}

/// A prompt that runs token by token.
proof fn lemma_prompt_steps(
    m: Qwen3MoETpModel,
    sc: ShardedForwardOneTokenScratchTp,
    caches: Seq<Vec<LayerCache>>,
    c: BatchCtx,
    tokens: Seq<u32>,
    mc: Mesh,
)
    requires
        tokens.len() > 0,
        c.start_position + tokens.len() <= usize::MAX,
        one_token_ready(m, sc, caches, step_ctx(c, c.start_position)),
        each(tokens.len(), |i: int| prompt_step(m, sc, caches, c, tokens, None, i)).err is None,
        token_room(m, sc, c.ranks),
        idle(mc, c.ranks as nat),
    ensures
        ({
            let run = each(
                tokens.len(),
                |i: int| prompt_step(m, sc, caches, c, tokens, None, i),
            );
            let now = after_all(m, mc, run.ops);
            let nl = m.config.num_layers as nat;
            let n = tokens.len();
            &&& prompt_taken(
                m,
                c.skip_shared,
                mc,
                now,
                c.ranks as nat,
                tokens,
                c.start_position as int,
                nl,
            )
            &&& now.fetched[0] == (Cell::Hidden {
                line: lived(
                    m.config,
                    c.skip_shared,
                    embedded(tokens[n - 1]),
                    c.start_position + (n - 1),
                    0,
                    nl,
                ),
            })
        }),
{
    let f = |i: int| prompt_step(m, sc, caches, c, tokens, None, i);
    assert forall|j: int, b: Mesh|
        0 <= j < tokens.len() && f(j).err is None && idle(b, c.ranks as nat) implies step_done(
        m,
        c,
        tokens,
        b,
        #[trigger] after_all(m, b, f(j).ops),
        j,
    ) by {
        lemma_step_at(m, sc, caches, c, tokens, b, j);
    }
    lemma_steps(m, f, c, tokens, mc, tokens.len());
    assert(tokens.take(tokens.len() as int) =~= tokens);
}

/// A prompt that runs in one batch and one that runs token by token come to the same: the
/// same logits, the same K and V at every position of every cache, the same recurrent
/// states.
pub proof fn law_batch_agrees_with_steps(
    m: Qwen3MoETpModel,
    sc: ShardedForwardOneTokenScratchTp,
    pool: ShardedForwardPrefillScratchTp,
    caches: Seq<Vec<LayerCache>>,
    c: BatchCtx,
    tokens: Seq<u32>,
    mc: Mesh,
)
    requires
        prefill_batched_ready(m, pool, caches, c, tokens),
        prefill_batched_run(m, pool, caches, c, tokens).err is None,
        batch_room(m, pool, c.ranks, tokens.len()),
        c.start_position + tokens.len() <= usize::MAX,
        one_token_ready(m, sc, caches, step_ctx(c, c.start_position)),
        each(tokens.len(), |i: int| prompt_step(m, sc, caches, c, tokens, None, i)).err is None,
        token_room(m, sc, c.ranks),
        idle(mc, c.ranks as nat),
    ensures
        ({
            let batch = after_all(m, mc, prefill_batched_run(m, pool, caches, c, tokens).ops);
            let steps = after_all(
                m,
                mc,
                each(tokens.len(), |i: int| prompt_step(m, sc, caches, c, tokens, None, i)).ops,
            );
            &&& batch.fetched[0] == steps.fetched[0]
            &&& forall|e: (usize, usize, usize, int)| #[trigger] batch.kv[e] == steps.kv[e]
            &&& forall|e: (usize, usize, usize)| #[trigger] batch.states[e] == steps.states[e]
        }),
{
    let nl = m.config.num_layers as nat;
    let start = c.start_position as int;
    let batch = after_all(m, mc, prefill_batched_run(m, pool, caches, c, tokens).ops);
    let run = each(tokens.len(), |i: int| prompt_step(m, sc, caches, c, tokens, None, i));
    let steps = after_all(m, mc, run.ops);
    law_batch_takes_prompt(m, pool, caches, c, tokens, mc);
    lemma_prompt_steps(m, sc, caches, c, tokens, mc);
    lemma_taken_alike(m, c.skip_shared, mc, batch, steps, c.ranks as nat, tokens, start, nl);
}

/// What the caches have taken in is known from the prompt.
proof fn lemma_taken_alike(
    m: Qwen3MoETpModel,
    skip_shared: bool,
    a: Mesh,
    x: Mesh,
    y: Mesh,
    ranks: nat,
    tokens: Seq<u32>,
    start: int,
    nl: nat,
)
    requires
        prompt_taken(m, skip_shared, a, x, ranks, tokens, start, nl),
        prompt_taken(m, skip_shared, a, y, ranks, tokens, start, nl),
    ensures
        forall|e: (usize, usize, usize, int)| #[trigger] x.kv[e] == y.kv[e],
        forall|e: (usize, usize, usize)| #[trigger] x.states[e] == y.states[e],
{
    reveal(prompt_taken);
    let cfg = m.config;
    assert forall|e: (usize, usize, usize, int)| #[trigger] x.kv[e] == y.kv[e] by {
        if e.0 < ranks && e.1 == 0 && e.2 < nl && !cfg.spec_is_recurrent(e.2 as nat) && start <= e.3
            < start + tokens.len() {
            let i = e.3 - start;
            assert(e == (e.0, 0usize, e.2, start + i));
            assert(x.kv[(e.0, 0usize, e.2, start + i)] == y.kv[(e.0, 0usize, e.2, start + i)]);
        } else {
            assert(y.kv[e] == a.kv[e]);
        }
    }
    assert forall|e: (usize, usize, usize)| #[trigger] x.states[e] == y.states[e] by {
        if e.0 < ranks && e.1 == 0 && e.2 < nl && cfg.spec_is_recurrent(e.2 as nat) {
            assert(e == (e.0, 0usize, e.2));
            assert(x.states[(e.0, 0usize, e.2)] == y.states[(e.0, 0usize, e.2)]);
        } else {
            assert(y.states[e] == a.states[e]);
        }
    }
}

} // verus!
