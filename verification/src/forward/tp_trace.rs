//! Which halves of which layers a rank of a mesh has run.

use crate::forward::op::{AttnOrFfnPub, ForwardError, Op};
use crate::forward::tp::{
    ar_launch, ar_marks, ar_norm_launch, ar_prefill_run, batch_elems, decode_ffn_run,
    decode_ffn_tail, decode_full_attn_run, decode_gdn_run, decode_head_run, decode_layer_check,
    decode_layer_run, decode_norm_check, decode_post_attn, decode_tail, embed_one, embed_prompt,
    embed_prompt_rank, embed_row, experts_run, ffn_run, layers_to_run, mid_ptrs, norm_ptrs,
    one_token_run, prefill_attn_run, prefill_batched_run, prefill_ffn_run, prefill_ffn_tail,
    prefill_head_run, prefill_layer_run, prefill_layers_run, prefill_norm_run, prefill_tail,
    shared_run, spec_ffn_world, wait_of, waits_of, BatchCtx, FfnIo, LayerScratch, LogitsSink,
    ShardedForwardOneTokenScratchTp, ShardedForwardPrefillScratchTp, TokenCtx,
};
use crate::plan::{each, flat, Run};
use crate::session::LayerCache;
use crate::tp_sharded::Qwen3MoETpModel;
use vstd::prelude::*;

verus! {

/// A half of a layer.
#[derive(Debug, Clone, Copy, PartialEq, Eq, Structural)]
pub struct Half {
    pub kind: AttnOrFfnPub,
    pub layer: usize,
}

/// The half that rank `r` runs by an operation.
pub open spec fn half_of(op: Op, r: int) -> Seq<Half> {
    match op {
        Op::FullAttn { rank, layer, .. } => if rank == r {
            seq![Half { kind: AttnOrFfnPub::Attn, layer }]
        } else {
            seq![]
        },
        Op::Gdn { rank, layer, .. } => if rank == r {
            seq![Half { kind: AttnOrFfnPub::Attn, layer }]
        } else {
            seq![]
        },
        Op::DenseFfn { rank, layer, .. } => if rank == r {
            seq![Half { kind: AttnOrFfnPub::Ffn, layer }]
        } else {
            seq![]
        },
        Op::MoeFfn { rank, layer, .. } => if rank == r {
            seq![Half { kind: AttnOrFfnPub::Ffn, layer }]
        } else {
            seq![]
        },
        _ => seq![],
    }
}

/// The halves that rank `r` runs, in order.
pub open spec fn halves_of(ops: Seq<Op>, r: int) -> Seq<Half>
    decreases ops.len(),
{
    if ops.len() == 0 {
        seq![]
    } else {
        halves_of(ops.drop_last(), r) + half_of(ops.last(), r)
    }
}

/// Both halves of a layer.
pub open spec fn both_halves(layer: usize) -> Seq<Half> {
    seq![
        Half { kind: AttnOrFfnPub::Attn, layer },
        Half { kind: AttnOrFfnPub::Ffn, layer },
    ]
}

/// Both halves of the layers from `start` on, `n` of them.
pub open spec fn layer_halves(start: usize, n: nat) -> Seq<Half> {
    flat(n, |i: int| both_halves((start + i) as usize))
}

proof fn lemma_concat(a: Seq<Op>, b: Seq<Op>, r: int)
    ensures
        halves_of(a + b, r) == halves_of(a, r) + halves_of(b, r),
    decreases b.len(),
{
    if b.len() == 0 {
        assert(a + b =~= a);
        assert(halves_of(a, r) + halves_of(b, r) =~= halves_of(a, r));
    } else {
        lemma_concat(a, b.drop_last(), r);
        assert((a + b).drop_last() =~= a + b.drop_last());
        assert((a + b).last() == b.last());
        assert(halves_of(a, r) + halves_of(b, r) =~= halves_of(a, r) + halves_of(b.drop_last(), r)
            + half_of(b.last(), r));
    }
}

proof fn lemma_one(op: Op, r: int)
    ensures
        halves_of(seq![op], r) == half_of(op, r),
{
    assert(seq![op].drop_last() =~= seq![]);
    assert(halves_of(seq![op].drop_last(), r) =~= seq![]);
    assert(halves_of(seq![op], r) =~= half_of(op, r));
}

/// Operations that run no half.
proof fn lemma_none(ops: Seq<Op>, r: int)
    requires
        forall|i: int| 0 <= i < ops.len() ==> half_of(#[trigger] ops[i], r) == Seq::<Half>::empty(),
    ensures
        halves_of(ops, r) == Seq::<Half>::empty(),
    decreases ops.len(),
{
    if ops.len() > 0 {
        assert forall|i: int| 0 <= i < ops.drop_last().len() implies half_of(
            #[trigger] ops.drop_last()[i],
            r,
        ) == Seq::<Half>::empty() by {
            assert(ops.drop_last()[i] == ops[i]);
        }
        lemma_none(ops.drop_last(), r);
        assert(half_of(ops[ops.len() - 1], r) == Seq::<Half>::empty());
        assert(halves_of(ops, r) =~= seq![]);
    }
}

/// Parts that run no half.
proof fn lemma_flat_none(n: nat, f: spec_fn(int) -> Seq<Op>, r: int)
    requires
        forall|i: int| 0 <= i < n ==> halves_of(#[trigger] f(i), r) == Seq::<Half>::empty(),
    ensures
        halves_of(flat(n, f), r) == Seq::<Half>::empty(),
    decreases n,
{
    if n > 0 {
        let k = (n - 1) as nat;
        lemma_flat_none(k, f, r);
        lemma_concat(flat(k, f), f(n - 1), r);
        assert(halves_of(flat(n, f), r) =~= seq![]);
    } else {
        assert(flat(n, f) =~= seq![]);
    }
}

/// What the parts of a run that succeeds do.
proof fn lemma_each(
    n: nat,
    f: spec_fn(int) -> Run<Op, ForwardError>,
    r: int,
    g: spec_fn(int) -> Seq<Half>,
)
    requires
        each(n, f).err is None,
        forall|i: int|
            0 <= i < n && (#[trigger] f(i)).err is None ==> halves_of(f(i).ops, r) == g(i),
    ensures
        halves_of(each(n, f).ops, r) == flat(n, g),
    decreases n,
{
    if n == 0 {
        assert(each(n, f).ops =~= seq![]);
    } else {
        let k = (n - 1) as nat;
        lemma_each(k, f, r, g);
        assert(f(n - 1).err is None);
        lemma_concat(each(k, f).ops, f(n - 1).ops, r);
    }
}

/// One part among empty ones.
proof fn lemma_flat_single(n: nat, r: int, s: Seq<Half>)
    ensures
        flat(
            n,
            |i: int|
                if i == r {
                    s
                } else {
                    seq![]
                },
        ) == (if 0 <= r < n {
            s
        } else {
            seq![]
        }),
    decreases n,
{
    if n > 0 {
        lemma_flat_single((n - 1) as nat, r, s);
        let g = |i: int|
            if i == r {
                s
            } else {
                seq![]
            };
        assert(flat(n, g) =~= flat((n - 1) as nat, g) + g(n - 1));
        assert(s + Seq::<Half>::empty() =~= s);
        assert(Seq::<Half>::empty() + s =~= s);
        assert(Seq::<Half>::empty() + Seq::<Half>::empty() =~= Seq::<Half>::empty());
    }
}

/// Where each rank runs the half `h` in its own part, rank `r` runs it once.
proof fn lemma_ranks(ranks: usize, f: spec_fn(int) -> Run<Op, ForwardError>, r: int, h: Half)
    requires
        0 <= r < ranks,
        each(ranks as nat, f).err is None,
        forall|i: int|
            0 <= i < ranks && (#[trigger] f(i)).err is None ==> halves_of(f(i).ops, r) == (if i
                == r {
                seq![h]
            } else {
                seq![]
            }),
    ensures
        halves_of(each(ranks as nat, f).ops, r) == seq![h],
{
    let s = seq![h];
    let g = |i: int|
        if i == r {
            s
        } else {
            seq![]
        };
    assert forall|i: int| 0 <= i < ranks && (#[trigger] f(i)).err is None implies halves_of(
        f(i).ops,
        r,
    ) == g(i) by {}
    lemma_each(ranks as nat, f, r, g);
    lemma_flat_single(ranks as nat, r, s);
}

/// Where no rank runs a half in its part.
proof fn lemma_ranks_none(ranks: usize, f: spec_fn(int) -> Run<Op, ForwardError>, r: int)
    requires
        each(ranks as nat, f).err is None,
        forall|i: int|
            0 <= i < ranks && (#[trigger] f(i)).err is None ==> halves_of(f(i).ops, r) == Seq::<
                Half,
            >::empty(),
    ensures
        halves_of(each(ranks as nat, f).ops, r) == Seq::<Half>::empty(),
{
    let g = |i: int| Seq::<Half>::empty();
    lemma_each(ranks as nat, f, r, g);
    lemma_flat_empty(ranks as nat);
}

proof fn lemma_flat_empty(n: nat)
    ensures
        flat(n, |i: int| Seq::<Half>::empty()) == Seq::<Half>::empty(),
    decreases n,
{
    if n > 0 {
        lemma_flat_empty((n - 1) as nat);
        let g = |i: int| Seq::<Half>::empty();
        assert(flat(n, g) =~= flat((n - 1) as nat, g) + g(n - 1));
    }
}

/// The FFN of rank `i` is run once, by that rank.
proof fn lemma_ffn(
    m: Qwen3MoETpModel,
    il: usize,
    i: int,
    world: u32,
    ls: LayerScratch,
    io: FfnIo,
    r: int,
)
    requires
        0 <= i <= usize::MAX,
        ffn_run(m, il, i, world, ls, io).err is None,
    ensures
        halves_of(ffn_run(m, il, i, world, ls, io).ops, r) == (if i == r {
            seq![Half { kind: AttnOrFfnPub::Ffn, layer: il }]
        } else {
            seq![]
        }),
{
    let ops = ffn_run(m, il, i, world, ls, io).ops;
    if m.config.spec_is_dense_ffn() {
        assert(ops =~= seq![ops[0]]);
        lemma_one(ops[0], r);
    } else {
        let w = crate::forward::tp::moe_refs_spec(
            crate::forward::tp::tensors_at(m, i, il),
            il,
        )->Ok_0;
        let router = seq![ops[0]];
        let shared = shared_run(m, il, i, world, ls, io).ops;
        let experts = experts_run(m, il, i, world, ls, io, w, ls.moe->0).ops;
        assert(ops =~= router + (shared + experts));
        lemma_concat(router, shared + experts, r);
        lemma_concat(shared, experts, r);
        lemma_one(ops[0], r);
        lemma_none(shared, r);
        if experts.len() == 2 {
            assert(experts =~= seq![experts[0]] + seq![experts[1]]);
            lemma_concat(seq![experts[0]], seq![experts[1]], r);
            lemma_one(experts[0], r);
            lemma_one(experts[1], r);
        } else {
            assert(experts =~= seq![experts[0]]);
            lemma_one(experts[0], r);
        }
        let h = halves_of(experts, r);
        assert(halves_of(router, r) + (halves_of(shared, r) + h) =~= h);
    }
}

proof fn lemma_ar_marks(ranks: usize, r: int)
    ensures
        halves_of(ar_marks(ranks), r) == Seq::<Half>::empty(),
{
    let recs = Seq::new(ranks as nat, |r: int| Op::RecordDone { rank: r as usize });
    let n = ranks as nat;
    let f = |q: int| waits_of(n, q);
    lemma_none(recs, r);
    assert forall|q: int| 0 <= q < n implies halves_of(#[trigger] f(q), r) == Seq::<
        Half,
    >::empty() by {
        let g = |p: int| wait_of(q, p);
        assert forall|p: int| 0 <= p < n implies halves_of(#[trigger] g(p), r) == Seq::<
            Half,
        >::empty() by {
            lemma_none(g(p), r);
        }
        lemma_flat_none(n, g, r);
    }
    lemma_flat_none(n, f, r);
    lemma_concat(recs, flat(n, f), r);
    assert(halves_of(ar_marks(ranks), r) =~= seq![]);
}

/// The attention output is joined without running a half.
proof fn lemma_post_attn(
    m: Qwen3MoETpModel,
    sc: ShardedForwardOneTokenScratchTp,
    ranks: usize,
    il: usize,
    r: int,
)
    requires
        decode_post_attn(m, sc, ranks, il).err is None,
    ensures
        halves_of(decode_post_attn(m, sc, ranks, il).ops, r) == Seq::<Half>::empty(),
{
    let world = ranks as u32;
    let w = norm_ptrs(m, ranks, il);
    let o = mid_ptrs(sc, ranks);
    let s = sc.per_rank@;
    if world > 1 {
        let launch = ar_norm_launch(sc, world, AttnOrFfnPub::Attn, w, o);
        lemma_ar_marks(ranks, r);
        let f = |q: int|
            seq![
                Op::ArOperand {
                    rank: q as usize,
                    hidden: s[q].hidden_a,
                    partial: crate::forward::tp::decode_partial(s[q], AttnOrFfnPub::Attn),
                },
                Op::ArNorm { rank: q as usize, weight: w[q], out: o[q] },
            ];
        assert forall|q: int| 0 <= q < world implies halves_of(#[trigger] f(q), r) == Seq::<
            Half,
        >::empty() by {
            lemma_none(f(q), r);
        }
        lemma_flat_none(world as nat, f, r);
        let last = seq![launch.ops.last()];
        assert(launch.ops =~= flat(world as nat, f) + last);
        lemma_concat(flat(world as nat, f), last, r);
        lemma_one(launch.ops.last(), r);
        lemma_concat(ar_marks(ranks), launch.ops, r);
        assert(halves_of(decode_post_attn(m, sc, ranks, il).ops, r) =~= seq![]);
    } else {
        let f = |q: int|
            seq![
                Op::Add {
                    rank: q as usize,
                    a: sc.per_rank@[q].hidden_a,
                    b: sc.per_rank@[q].partial_attn_out,
                    out: sc.per_rank@[q].hidden_a,
                    elems: m.config.hidden_size,
                },
                Op::RmsNorm {
                    rank: q as usize,
                    x: sc.per_rank@[q].hidden_a,
                    weight: w[q],
                    out: o[q],
                    rows: 1,
                    hidden: m.config.hidden_size,
                },
            ];
        assert forall|q: int| 0 <= q < ranks implies halves_of(#[trigger] f(q), r) == Seq::<
            Half,
        >::empty() by {
            lemma_none(f(q), r);
        }
        lemma_flat_none(ranks as nat, f, r);
    }
}

/// The FFN output is joined without running a half.
proof fn lemma_ffn_tail(
    m: Qwen3MoETpModel,
    sc: ShardedForwardOneTokenScratchTp,
    ranks: usize,
    il: usize,
    r: int,
)
    requires
        decode_ffn_tail(m, sc, ranks, il).err is None,
    ensures
        halves_of(decode_ffn_tail(m, sc, ranks, il).ops, r) == Seq::<Half>::empty(),
{
    let ops = decode_ffn_tail(m, sc, ranks, il).ops;
    if spec_ffn_world(m, il, ranks as u32) > 1 {
        let launch = ar_launch(sc, ranks as u32, AttnOrFfnPub::Ffn);
        lemma_ar_marks(ranks, r);
        lemma_none(launch.ops, r);
        lemma_concat(ar_marks(ranks), launch.ops, r);
        assert(halves_of(ops, r) =~= seq![]);
    } else {
        lemma_none(ops, r);
    }
}

/// A layer for one token has rank `r` run both of its halves.
proof fn lemma_token_layer(
    m: Qwen3MoETpModel,
    sc: ShardedForwardOneTokenScratchTp,
    caches: Seq<Vec<LayerCache>>,
    c: TokenCtx,
    il: usize,
    r: int,
)
    requires
        0 <= r < c.ranks,
        decode_layer_run(m, sc, caches, c, il).err is None,
    ensures
        halves_of(decode_layer_run(m, sc, caches, c, il).ops, r) == both_halves(il),
{
    let n = c.ranks as nat;
    let attn = Half { kind: AttnOrFfnPub::Attn, layer: il };
    let ffn = Half { kind: AttnOrFfnPub::Ffn, layer: il };
    let recurrent = m.config.spec_is_recurrent(il as nat);
    let fa = |i: int| decode_full_attn_run(m, sc, caches, c, il, il, i);
    let fg = |i: int| decode_gdn_run(m, sc, caches, c, il, il, i);
    let first = if recurrent {
        each(n, fg)
    } else {
        each(n, fa)
    };
    let tail = decode_tail(m, sc, c, il);
    assert(first.err is None && tail.err is None);
    assert(halves_of(first.ops, r) == seq![attn]) by {
        if recurrent {
            assert forall|i: int| 0 <= i < c.ranks && (#[trigger] fg(i)).err is None implies
                halves_of(fg(i).ops, r) == (if i == r {
                seq![attn]
            } else {
                seq![]
            }) by {
                assert(fg(i).ops =~= seq![fg(i).ops[0]]);
                lemma_one(fg(i).ops[0], r);
            }
            lemma_ranks(c.ranks, fg, r, attn);
        } else {
            assert forall|i: int| 0 <= i < c.ranks && (#[trigger] fa(i)).err is None implies
                halves_of(fa(i).ops, r) == (if i == r {
                seq![attn]
            } else {
                seq![]
            }) by {
                assert(fa(i).ops =~= seq![fa(i).ops[0]]);
                lemma_one(fa(i).ops[0], r);
            }
            lemma_ranks(c.ranks, fa, r, attn);
        }
    }
    let nc = |i: int| decode_norm_check(m, il, i);
    let lc = |i: int| decode_layer_check(sc, i);
    let ff = |i: int|
        decode_ffn_run(
            m,
            sc,
            il,
            spec_ffn_world(m, il, c.ranks as u32),
            mid_ptrs(sc, c.ranks),
            false,
            c.skip_shared,
            i,
        );
    let p1 = each(n, nc);
    let p2 = each(n, lc);
    let p3 = decode_post_attn(m, sc, c.ranks, il);
    let p4 = each(n, ff);
    let p5 = decode_ffn_tail(m, sc, c.ranks, il);
    assert(p1.err is None && p2.err is None && p3.err is None && p4.err is None && p5.err is None);
    assert forall|i: int| 0 <= i < c.ranks && (#[trigger] nc(i)).err is None implies halves_of(
        nc(i).ops,
        r,
    ) == Seq::<Half>::empty() by {
        lemma_none(nc(i).ops, r);
    }
    lemma_ranks_none(c.ranks, nc, r);
    assert forall|i: int| 0 <= i < c.ranks && (#[trigger] lc(i)).err is None implies halves_of(
        lc(i).ops,
        r,
    ) == Seq::<Half>::empty() by {
        lemma_none(lc(i).ops, r);
    }
    lemma_ranks_none(c.ranks, lc, r);
    lemma_post_attn(m, sc, c.ranks, il, r);
    assert forall|i: int| 0 <= i < c.ranks && (#[trigger] ff(i)).err is None implies halves_of(
        ff(i).ops,
        r,
    ) == (if i == r {
        seq![ffn]
    } else {
        seq![]
    }) by {
        lemma_ffn(
            m,
            il,
            i,
            spec_ffn_world(m, il, c.ranks as u32),
            sc.per_rank@[i].layer->Some_0,
            FfnIo {
                pass: crate::forward::op::Pass::Decode,
                n_tokens: 1,
                x: mid_ptrs(sc, c.ranks)[i],
                partial: sc.per_rank@[i].partial_ffn_out,
                skip_shared: c.skip_shared,
                pre_quantized: false,
            },
            r,
        );
    }
    lemma_ranks(c.ranks, ff, r, ffn);
    lemma_ffn_tail(m, sc, c.ranks, il, r);
    lemma_concat(p4.ops, p5.ops, r);
    lemma_concat(p3.ops, p4.ops + p5.ops, r);
    lemma_concat(p2.ops, p3.ops + (p4.ops + p5.ops), r);
    lemma_concat(p1.ops, p2.ops + (p3.ops + (p4.ops + p5.ops)), r);
    lemma_concat(first.ops, tail.ops, r);
    assert(tail.ops == p1.ops + (p2.ops + (p3.ops + (p4.ops + p5.ops))));
    assert(halves_of(tail.ops, r) =~= seq![ffn]);
    assert(seq![attn] + seq![ffn] =~= both_halves(il));
}

/// A token that a mesh takes to the LM head has every rank run both halves of
/// every layer, once and in order.
pub proof fn law_mesh_runs_all_halves(
    m: Qwen3MoETpModel,
    sc: ShardedForwardOneTokenScratchTp,
    caches: Seq<Vec<LayerCache>>,
    c: TokenCtx,
    token: u32,
    sink: LogitsSink,
    layer_limit: Option<usize>,
    r: int,
)
    requires
        0 <= r < c.ranks,
        one_token_run(m, sc, caches, c, token, sink, layer_limit).err is None,
    ensures
        halves_of(one_token_run(m, sc, caches, c, token, sink, layer_limit).ops, r)
            == layer_halves(0, layers_to_run(m, layer_limit) as nat),
{
    let n = layers_to_run(m, layer_limit) as nat;
    let f = |i: int| decode_layer_run(m, sc, caches, c, i as usize);
    let g = |i: int| both_halves((0usize + i) as usize);
    let em = embed_one(m, sc, c.ranks, token);
    let hd = decode_head_run(m, sc, sink);
    assert(each(n, f).err is None && hd.err is None);
    assert forall|i: int| 0 <= i < n && (#[trigger] f(i)).err is None implies halves_of(
        f(i).ops,
        r,
    ) == g(i) by {
        lemma_token_layer(m, sc, caches, c, i as usize, r);
    }
    lemma_each(n, f, r, g);
    lemma_none(em, r);
    lemma_none(hd.ops, r);
    lemma_concat(each(n, f).ops, hd.ops, r);
    lemma_concat(em, each(n, f).ops + hd.ops, r);
    assert(halves_of(em + (each(n, f).ops + hd.ops), r) =~= flat(n, g));
}

/// A layer over a batch has rank `r` run both of its halves.
proof fn lemma_batch_layer(
    m: Qwen3MoETpModel,
    sc: ShardedForwardPrefillScratchTp,
    caches: Seq<Vec<LayerCache>>,
    c: BatchCtx,
    il: usize,
    ic: usize,
    r: int,
)
    requires
        0 <= r < c.ranks,
        prefill_layer_run(m, sc, caches, c, il, ic).err is None,
    ensures
        halves_of(prefill_layer_run(m, sc, caches, c, il, ic).ops, r) == both_halves(il),
{
    let n = c.ranks as nat;
    let attn = Half { kind: AttnOrFfnPub::Attn, layer: il };
    let ffn = Half { kind: AttnOrFfnPub::Ffn, layer: il };
    let fa = |i: int| prefill_attn_run(m, sc, caches, c, il, ic, i);
    let nr = |i: int| prefill_norm_run(m, sc, c, il, i);
    let ff = |i: int| prefill_ffn_run(m, sc, c, il, i);
    let first = each(n, fa);
    let tail = prefill_tail(m, sc, c, il);
    let p1 = ar_prefill_run(sc, c.ranks, c.ranks as u32, batch_elems(m, c), AttnOrFfnPub::Attn);
    let p2 = each(n, nr);
    let p3 = each(n, ff);
    let p4 = prefill_ffn_tail(m, sc, c, il);
    assert(first.err is None && tail.err is None);
    assert(p1.err is None && p2.err is None && p3.err is None && p4.err is None);
    assert forall|i: int| 0 <= i < c.ranks && (#[trigger] fa(i)).err is None implies halves_of(
        fa(i).ops,
        r,
    ) == (if i == r {
        seq![attn]
    } else {
        seq![]
    }) by {
        assert(fa(i).ops =~= seq![fa(i).ops[0]]);
        lemma_one(fa(i).ops[0], r);
    }
    lemma_ranks(c.ranks, fa, r, attn);
    lemma_none(p1.ops, r);
    assert forall|i: int| 0 <= i < c.ranks && (#[trigger] nr(i)).err is None implies halves_of(
        nr(i).ops,
        r,
    ) == Seq::<Half>::empty() by {
        lemma_none(nr(i).ops, r);
    }
    lemma_ranks_none(c.ranks, nr, r);
    assert forall|i: int| 0 <= i < c.ranks && (#[trigger] ff(i)).err is None implies halves_of(
        ff(i).ops,
        r,
    ) == (if i == r {
        seq![ffn]
    } else {
        seq![]
    }) by {
        let ls = sc.per_rank@[i].layer->Some_0;
        lemma_ffn(
            m,
            il,
            i,
            spec_ffn_world(m, il, c.ranks as u32),
            ls,
            FfnIo {
                pass: crate::forward::op::Pass::Prefill,
                n_tokens: c.n_tokens,
                x: ls.mid_norm_f16,
                partial: sc.per_rank@[i].partial_ffn_out,
                skip_shared: c.skip_shared,
                pre_quantized: false,
            },
            r,
        );
    }
    lemma_ranks(c.ranks, ff, r, ffn);
    lemma_none(p4.ops, r);
    lemma_concat(p3.ops, p4.ops, r);
    lemma_concat(p2.ops, p3.ops + p4.ops, r);
    lemma_concat(p1.ops, p2.ops + (p3.ops + p4.ops), r);
    lemma_concat(first.ops, tail.ops, r);
    assert(tail.ops == p1.ops + (p2.ops + (p3.ops + p4.ops)));
    assert(halves_of(tail.ops, r) =~= seq![ffn]);
    assert(seq![attn] + seq![ffn] =~= both_halves(il));
}

/// Layers that a mesh runs over a batch have every rank run both halves of
/// each, once and in order.
pub proof fn law_mesh_layers_run_all_halves(
    m: Qwen3MoETpModel,
    sc: ShardedForwardPrefillScratchTp,
    caches: Seq<Vec<LayerCache>>,
    c: BatchCtx,
    start: usize,
    end: usize,
    offset: usize,
    r: int,
)
    requires
        0 <= r < c.ranks,
        start <= end,
        prefill_layers_run(m, sc, caches, c, start, end, offset).err is None,
    ensures
        halves_of(prefill_layers_run(m, sc, caches, c, start, end, offset).ops, r) == layer_halves(
            start,
            (end - start) as nat,
        ),
{
    let n = (end - start) as nat;
    let f = |i: int|
        prefill_layer_run(m, sc, caches, c, (start + i) as usize, (start + i - offset) as usize);
    let g = |i: int| both_halves((start + i) as usize);
    assert forall|i: int| 0 <= i < n && (#[trigger] f(i)).err is None implies halves_of(
        f(i).ops,
        r,
    ) == g(i) by {
        lemma_batch_layer(
            m,
            sc,
            caches,
            c,
            (start + i) as usize,
            (start + i - offset) as usize,
            r,
        );
    }
    lemma_each(n, f, r, g);
}

/// A prompt that a mesh takes to the LM head in one batch has every rank run
/// both halves of every layer, once and in order.
pub proof fn law_mesh_batch_runs_all_halves(
    m: Qwen3MoETpModel,
    sc: ShardedForwardPrefillScratchTp,
    caches: Seq<Vec<LayerCache>>,
    c: BatchCtx,
    tokens: Seq<u32>,
    r: int,
)
    requires
        0 <= r < c.ranks,
        prefill_batched_run(m, sc, caches, c, tokens).err is None,
    ensures
        halves_of(prefill_batched_run(m, sc, caches, c, tokens).ops, r) == layer_halves(
            0,
            m.config.num_layers as nat,
        ),
{
    let em = embed_prompt(m, sc, c.ranks, tokens);
    let ly = prefill_layers_run(m, sc, caches, c, 0, m.config.num_layers, 0);
    let hd = prefill_head_run(m, sc, tokens.len());
    assert(ly.err is None && hd.err is None);
    law_mesh_layers_run_all_halves(m, sc, caches, c, 0, m.config.num_layers, 0, r);
    let f = |q: int| embed_prompt_rank(m, sc, q, tokens);
    assert forall|q: int| 0 <= q < c.ranks implies halves_of(#[trigger] f(q), r) == Seq::<
        Half,
    >::empty() by {
        let g = |i: int| embed_row(m, sc, q, i, tokens[i]);
        assert forall|i: int| 0 <= i < tokens.len() implies halves_of(#[trigger] g(i), r) == Seq::<
            Half,
        >::empty() by {
            lemma_none(g(i), r);
        }
        lemma_flat_none(tokens.len(), g, r);
    }
    lemma_flat_none(c.ranks as nat, f, r);
    lemma_none(hd.ops, r);
    lemma_concat(ly.ops, hd.ops, r);
    lemma_concat(em, ly.ops + hd.ops, r);
    assert(halves_of(em + (ly.ops + hd.ops), r) =~= halves_of(ly.ops, r));
}

} // verus!
