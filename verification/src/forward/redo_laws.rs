//! What the layers of a pipeline have taken in, and that repeating the recurrent
//! layers alone leaves what repeating a whole step would leave.

use crate::config::Qwen3MoEConfig;
use crate::device::DevicePtr;
use crate::forward::history::{
    after_op, after_ops, elsewhere, lemma_concat, lemma_embed, lemma_head_keeps, lemma_layers,
    lemma_one, lemma_token_ranks, pipeline_history, rank_history, rows_apart, went, History, Row,
};
use crate::forward::op::{weight_of, Op, PeerMode, StreamSel, Weight};
use crate::forward::pp::{
    back_ops, batch_chain, batch_handoff, chain_ops, embed_row_op, embed_rows, layer_op,
    one_token_pp_run, paired_back, paired_chain_ops, paired_head_run, paired_layer_ops,
    paired_rank_run, paired_run, pp_head_run, redo_layer, redo_rank, redo_run, token_chain,
    token_embed_run, token_handoff, token_rank_run, x_at, Chain, PpLogitsSink,
    RankForwardPrefillScratch, RankForwardScratch,
};
use crate::plan::{each, flat, Run};
use crate::sharded::Qwen3MoEShardedModel;
use crate::weights::LayerWeights;
use vstd::prelude::*;

verus! {

/// For every layer of every rank, counted within the rank, the rows that its cache
/// has taken in, the oldest first. Of a batch the first row is followed.
pub type Seen = Map<(usize, usize), Seq<Option<Row>>>;

/// What a layer takes in of a batch of `n` rows.
pub open spec fn rows_read(first: Row, n: nat) -> Seq<Option<Row>> {
    Seq::new(
        n,
        |k: int|
            if k == 0 {
                Some(first)
            } else {
                None
            },
    )
}

/// What the layers have taken in after an operation.
pub open spec fn seen_op(h: History, s: Seen, op: Op) -> Seen {
    match op {
        Op::Layer { rank, local, x, n_tokens, .. } => s.insert(
            (rank, local),
            s[(rank, local)] + rows_read(h[(rank, x)], n_tokens as nat),
        ),
        Op::GdnLayer { rank, local, x, .. } => s.insert(
            (rank, local),
            s[(rank, local)] + rows_read(h[(rank, x)], 1),
        ),
        _ => s,
    }
}

/// What the layers have taken in after a list of operations.
pub open spec fn seen_after(h: History, s: Seen, ops: Seq<Op>) -> Seen
    decreases ops.len(),
{
    if ops.len() == 0 {
        s
    } else {
        seen_op(
            after_ops(h, ops.drop_last()),
            seen_after(h, s, ops.drop_last()),
            ops.last(),
        )
    }
}

/// The row that layer `i` of rank `r` reads where the pipeline starts from `first`.
pub open spec fn input_row(
    m: Qwen3MoEShardedModel,
    first: Row,
    position: usize,
    r: int,
    i: int,
) -> Row {
    went(
        first,
        pipeline_history(m, r as nat, position) + rank_history(
            m.shards@[r].layers@,
            position,
        ).take(i),
    )
}

/// Ranks and layers are counted by the machine.
proof fn lemma_counts(m: Qwen3MoEShardedModel)
    ensures
        m.shards@.len() <= usize::MAX,
        forall|r: int|
            0 <= r < m.shards@.len() ==> (#[trigger] m.shards@[r]).layers@.len() <= usize::MAX,
{
    assert(m.shards.len() == m.shards@.len());
    assert forall|r: int| 0 <= r < m.shards@.len() implies (
    #[trigger] m.shards@[r]).layers@.len() <= usize::MAX by {
        assert(m.shards@[r].layers.len() == m.shards@[r].layers@.len());
    }
}

proof fn lemma_seen_concat(h: History, s: Seen, a: Seq<Op>, b: Seq<Op>)
    ensures
        seen_after(h, s, a + b) == seen_after(after_ops(h, a), seen_after(h, s, a), b),
    decreases b.len(),
{
    if b.len() == 0 {
        assert(a + b =~= a);
    } else {
        lemma_seen_concat(h, s, a, b.drop_last());
        lemma_concat(h, a, b.drop_last());
        assert((a + b).drop_last() =~= a + b.drop_last());
        assert((a + b).last() == b.last());
    }
}

proof fn lemma_seen_one(h: History, s: Seen, op: Op)
    ensures
        seen_after(h, s, seq![op]) == seen_op(h, s, op),
{
    assert(seq![op].drop_last() =~= seq![]);
    assert(after_ops(h, seq![op].drop_last()) == h);
    assert(seen_after(h, s, seq![op].drop_last()) == s);
}

/// What is no layer is taken in by none.
proof fn lemma_seen_others(h: History, s: Seen, ops: Seq<Op>)
    requires
        forall|i: int| 0 <= i < ops.len() ==> !(#[trigger] ops[i] is Layer || ops[i] is GdnLayer),
    ensures
        seen_after(h, s, ops) == s,
    decreases ops.len(),
{
    if ops.len() > 0 {
        assert forall|i: int| 0 <= i < ops.drop_last().len() implies !(
        #[trigger] ops.drop_last()[i] is Layer || ops.drop_last()[i] is GdnLayer) by {
            assert(ops.drop_last()[i] == ops[i]);
        }
        lemma_seen_others(h, s, ops.drop_last());
        assert(ops.last() == ops[ops.len() - 1]);
    }
}

/// Each of the first `n` layers of a rank has taken in what it read.
proof fn lemma_seen_layers(
    h: History,
    s: Seen,
    cfg: Qwen3MoEConfig,
    layers: Seq<LayerWeights>,
    c: Chain,
    n: nat,
)
    requires
        n <= layers.len() <= usize::MAX,
    ensures
        ({
            let after = seen_after(h, s, flat(n, |i: int| seq![layer_op(cfg, layers, c, i)]));
            let all = rank_history(layers, c.position);
            &&& forall|i: int|
                0 <= i < n ==> #[trigger] after[(c.rank, i as usize)] == s[(c.rank, i as usize)]
                    + rows_read(went(h[(c.rank, c.a)], all.take(i)), c.n_tokens as nat)
            &&& forall|k: (usize, usize)|
                k.0 != c.rank || k.1 >= n ==> #[trigger] after[k] == s[k]
        }),
    decreases n,
{
    let f = |i: int| seq![layer_op(cfg, layers, c, i)];
    if n > 0 {
        let j = (n - 1) as nat;
        let op = layer_op(cfg, layers, c, j as int);
        lemma_seen_layers(h, s, cfg, layers, c, j);
        lemma_layers(h, cfg, layers, c, j, elsewhere(c));
        lemma_seen_concat(h, s, flat(j, f), f(j as int));
        lemma_seen_one(after_ops(h, flat(j, f)), seen_after(h, s, flat(j, f)), op);
    }
}

/// Each layer of a rank has taken in what it read.
proof fn lemma_seen_chain(
    h: History,
    s: Seen,
    cfg: Qwen3MoEConfig,
    layers: Seq<LayerWeights>,
    c: Chain,
)
    requires
        layers.len() <= usize::MAX,
    ensures
        ({
            let after = seen_after(h, s, chain_ops(cfg, layers, c));
            let all = rank_history(layers, c.position);
            &&& forall|i: int|
                0 <= i < layers.len() ==> #[trigger] after[(c.rank, i as usize)] == s[(
                    c.rank,
                    i as usize,
                )] + rows_read(went(h[(c.rank, c.a)], all.take(i)), c.n_tokens as nat)
            &&& forall|k: (usize, usize)|
                k.0 != c.rank ==> #[trigger] after[k] == s[k]
        }),
{
    let n = layers.len();
    let f = |i: int| seq![layer_op(cfg, layers, c, i)];
    lemma_seen_layers(h, s, cfg, layers, c, n);
    lemma_seen_concat(h, s, flat(n, f), back_ops(c, n));
    lemma_seen_others(after_ops(h, flat(n, f)), seen_after(h, s, flat(n, f)), back_ops(c, n));
}

/// The rows in which a rank keeps the inputs of its layers are neither one another's
/// nor the buffers between the layers.
pub open spec fn kept_apart(s: RankForwardPrefillScratch, n: nat) -> bool {
    let kept = s.gdn_input_snapshots@;
    &&& forall|i: int|
        0 <= i < n ==> (#[trigger] kept[i] matches Some(p) ==> p != s.hidden_a && p != s.hidden_b)
    &&& forall|i: int, j: int|
        0 <= i < n && 0 <= j < n && i != j && (#[trigger] kept[i]) is Some && (
        #[trigger] kept[j]) is Some ==> kept[i] != kept[j]
}

/// The first `n` layers of a rank for a pair of tokens: what is between the layers,
/// what is kept, and what the layers have taken in.
spec fn paired_done(
    h: History,
    s: Seen,
    h1: History,
    s1: Seen,
    layers: Seq<LayerWeights>,
    p: RankForwardPrefillScratch,
    c: Chain,
    n: nat,
) -> bool {
    let all = rank_history(layers, c.position);
    let first = h[(c.rank, c.a)];
    let kept = p.gdn_input_snapshots@;
    &&& forall|i: int|
        0 <= i < n && #[trigger] kept[i] is Some ==> h1[(c.rank, kept[i]->0)] == went(
            first,
            all.take(i),
        )
    &&& forall|k: (usize, DevicePtr)| k.0 != c.rank ==> #[trigger] h1[k] == h[k]
    &&& forall|i: int|
        0 <= i < n ==> #[trigger] s1[(c.rank, i as usize)] == s[(c.rank, i as usize)] + rows_read(
            went(first, all.take(i)),
            c.n_tokens as nat,
        )
    &&& forall|k: (usize, usize)| k.0 != c.rank || k.1 >= n ==> #[trigger] s1[k] == s[k]
}

proof fn lemma_paired_layers(
    h: History,
    s: Seen,
    cfg: Qwen3MoEConfig,
    layers: Seq<LayerWeights>,
    p: RankForwardPrefillScratch,
    c: Chain,
    n: nat,
)
    requires
        n <= layers.len() <= usize::MAX,
        kept_apart(p, layers.len()),
        c.a == p.hidden_a,
        c.b == p.hidden_b,
    ensures
        ({
            let ops = flat(n, |i: int| paired_layer_ops(cfg, layers, p, c, i));
            &&& paired_done(h, s, after_ops(h, ops), seen_after(h, s, ops), layers, p, c, n)
            &&& after_ops(h, ops)[(c.rank, x_at(c.a, c.b, n as int))] == went(
                h[(c.rank, c.a)],
                rank_history(layers, c.position).take(n as int),
            )
        }),
    decreases n,
{
    let f = |i: int| paired_layer_ops(cfg, layers, p, c, i);
    let all = rank_history(layers, c.position);
    let first = h[(c.rank, c.a)];
    let kept = p.gdn_input_snapshots@;
    if n == 0 {
        assert(went(first, all.take(0)) =~= first);
    } else {
        let j = n - 1;
        let jn = j as nat;
        lemma_paired_layers(h, s, cfg, layers, p, c, jn);
        let h0 = after_ops(h, flat(jn, f));
        let s0 = seen_after(h, s, flat(jn, f));
        lemma_concat(h, flat(jn, f), f(j));
        lemma_seen_concat(h, s, flat(jn, f), f(j));
        let x = (c.rank, x_at(c.a, c.b, j));
        let run = layer_op(cfg, layers, c, j);
        // The input is kept where there is a place for it.
        let keep = match kept[j] {
            Some(dst) => seq![
                Op::Copy {
                    rank: c.rank,
                    stream: StreamSel::Default,
                    dst,
                    src: x_at(c.a, c.b, j),
                    bytes: p.snapshot_row_bytes,
                },
            ],
            None => seq![],
        };
        assert(f(j) == keep + seq![run]);
        lemma_concat(h0, keep, seq![run]);
        lemma_seen_concat(h0, s0, keep, seq![run]);
        lemma_seen_others(h0, s0, keep);
        let h1 = after_ops(h0, keep);
        if kept[j] is Some {
            lemma_one(h0, keep[0]);
            assert(keep =~= seq![keep[0]]);
        }
        assert(h1[x] == h0[x]);
        lemma_one(h1, run);
        lemma_seen_one(h1, s0, run);
        assert(all.take(n as int) =~= all.take(j).push(all[j]));
        assert(went(went(first, all.take(j)), seq![all[j]]) =~= went(first, all.take(n as int)));
        let h2 = after_op(h1, run);
        assert forall|i: int| 0 <= i < n && #[trigger] kept[i] is Some implies h2[(
            c.rank,
            kept[i]->0,
        )] == went(first, all.take(i)) by {
            if i < j {
                assert(h0[(c.rank, kept[i]->0)] == went(first, all.take(i)));
                if kept[j] is Some {
                    assert(kept[i] != kept[j]);
                }
            }
        }
    }
}

/// A whole rank for a pair of tokens.
proof fn lemma_paired_rank(
    h: History,
    s: Seen,
    m: Qwen3MoEShardedModel,
    sc: Seq<RankForwardPrefillScratch>,
    position: usize,
    r: int,
    first: Row,
)
    requires
        0 <= r < m.shards@.len() <= usize::MAX,
        m.shards@[r].layers@.len() <= usize::MAX,
        kept_apart(sc[r], m.shards@[r].layers@.len()),
        paired_rank_run(m, sc, position, r).err is None,
        h[(if r > 0 {
            (r - 1) as usize
        } else {
            0
        }, sc[if r > 0 {
            r - 1
        } else {
            0
        }].hidden_a)] == went(first, pipeline_history(m, r as nat, position)),
    ensures
        ({
            let ops = paired_rank_run(m, sc, position, r).ops;
            let h1 = after_ops(h, ops);
            let s1 = seen_after(h, s, ops);
            let layers = m.shards@[r].layers@;
            let kept = sc[r].gdn_input_snapshots@;
            &&& h1[(r as usize, sc[r].hidden_a)] == went(
                first,
                pipeline_history(m, (r + 1) as nat, position),
            )
            &&& forall|i: int|
                0 <= i < layers.len() && #[trigger] kept[i] is Some ==> h1[(
                    r as usize,
                    kept[i]->0,
                )] == input_row(m, first, position, r, i)
            &&& forall|k: (usize, DevicePtr)| k.0 != r ==> #[trigger] h1[k] == h[k]
            &&& forall|i: int|
                0 <= i < layers.len() ==> #[trigger] s1[(r as usize, i as usize)] == s[(
                    r as usize,
                    i as usize,
                )] + rows_read(input_row(m, first, position, r, i), 2)
            &&& forall|k: (usize, usize)| k.0 != r ==> #[trigger] s1[k] == s[k]
        }),
{
    let layers = m.shards@[r].layers@;
    let n = layers.len();
    let c = batch_chain(m, sc[r], 2, position, r);
    let hand = batch_handoff(m, sc, 2, r);
    let chain = paired_chain_ops(m.config, layers, sc[r], c);
    let ops = paired_rank_run(m, sc, position, r).ops;
    assert(ops == hand + chain);
    lemma_concat(h, hand, chain);
    lemma_seen_concat(h, s, hand, chain);
    lemma_seen_others(h, s, hand);
    let h0 = after_ops(h, hand);
    let before = pipeline_history(m, r as nat, position);
    if r > 0 {
        lemma_one(h, hand[0]);
        assert(hand =~= seq![hand[0]]);
    } else {
        assert(hand =~= seq![]);
    }
    let start = went(first, before);
    assert(h0[(c.rank, c.a)] == start);
    let f = |i: int| paired_layer_ops(m.config, layers, sc[r], c, i);
    let run = flat(n, f);
    let back = paired_back(c, n);
    lemma_paired_layers(h0, s, m.config, layers, sc[r], c, n);
    lemma_concat(h0, run, back);
    lemma_seen_concat(h0, s, run, back);
    let h1 = after_ops(h0, run);
    let s1 = seen_after(h0, s, run);
    lemma_seen_others(h1, s1, back);
    let all = rank_history(layers, position);
    assert(all.take(n as int) =~= all);
    if x_at(c.a, c.b, n as int) != c.a {
        let copy = back_ops(c, n)[0];
        let wait = Op::Sync { rank: c.rank, stream: c.stream };
        assert(back =~= seq![copy] + seq![wait]);
        lemma_concat(h1, seq![copy], seq![wait]);
        lemma_one(h1, copy);
        lemma_one(after_op(h1, copy), wait);
    } else {
        assert(back =~= seq![]);
    }
    let g = |q: int| rank_history(m.shards@[q].layers@, position);
    assert(pipeline_history(m, (r + 1) as nat, position) == before + g(r));
    assert(went(start, all) =~= went(first, before + all));
    let kept = sc[r].gdn_input_snapshots@;
    let end = after_ops(h, ops);
    assert forall|i: int| 0 <= i < n && #[trigger] kept[i] is Some implies end[(
        r as usize,
        kept[i]->0,
    )] == input_row(m, first, position, r, i) by {
        assert(h1[(c.rank, kept[i]->0)] == went(start, all.take(i)));
        assert(went(start, all.take(i)) =~= input_row(m, first, position, r, i));
    }
    let seen = seen_after(h, s, ops);
    assert forall|i: int| 0 <= i < n implies #[trigger] seen[(r as usize, i as usize)] == s[(
        r as usize,
        i as usize,
    )] + rows_read(input_row(m, first, position, r, i), 2) by {
        assert(went(start, all.take(i)) =~= input_row(m, first, position, r, i));
    }
}

/// The first `n` ranks have done with the pair: their inputs are kept, and their
/// layers have taken in both rows.
spec fn pair_done(
    h1: History,
    s: Seen,
    s1: Seen,
    m: Qwen3MoEShardedModel,
    sc: Seq<RankForwardPrefillScratch>,
    position: usize,
    first: Row,
    n: nat,
) -> bool {
    &&& forall|r: int, i: int|
        0 <= r < n && 0 <= i < m.shards@[r].layers@.len()
            && #[trigger] sc[r].gdn_input_snapshots@[i] is Some ==> h1[(
            r as usize,
            sc[r].gdn_input_snapshots@[i]->0,
        )] == input_row(m, first, position, r, i)
    &&& forall|r: int, i: int|
        0 <= r < n && 0 <= i < m.shards@[r].layers@.len() ==> #[trigger] s1[(
            r as usize,
            i as usize,
        )] == s[(r as usize, i as usize)] + rows_read(input_row(m, first, position, r, i), 2)
}

/// The kept rows of every rank are apart.
pub open spec fn pair_kept_apart(
    m: Qwen3MoEShardedModel,
    sc: Seq<RankForwardPrefillScratch>,
) -> bool {
    forall|r: int|
        0 <= r < m.shards@.len() ==> kept_apart(#[trigger] sc[r], m.shards@[r].layers@.len())
}

proof fn lemma_paired_ranks(
    h: History,
    s: Seen,
    m: Qwen3MoEShardedModel,
    sc: Seq<RankForwardPrefillScratch>,
    position: usize,
    n: nat,
)
    requires
        n <= m.shards@.len(),
        pair_kept_apart(m, sc),
        each(n, |i: int| paired_rank_run(m, sc, position, i)).err is None,
    ensures
        ({
            let ops = each(n, |i: int| paired_rank_run(m, sc, position, i)).ops;
            let first = h[(0usize, sc[0].hidden_a)];
            let h1 = after_ops(h, ops);
            let s1 = seen_after(h, s, ops);
            &&& pair_done(h1, s, s1, m, sc, position, first, n)
            &&& n > 0 ==> h1[((n - 1) as usize, sc[n - 1].hidden_a)] == went(
                first,
                pipeline_history(m, n, position),
            )
            &&& n == 0 ==> h1 == h
            &&& forall|k: (usize, usize)| k.0 >= n ==> #[trigger] s1[k] == s[k]
        }),
    decreases n,
{
    let f = |i: int| paired_rank_run(m, sc, position, i);
    let first = h[(0usize, sc[0].hidden_a)];
    lemma_counts(m);
    if n == 0 {
        assert(each(n, f).ops =~= seq![]);
    } else {
        let k = n - 1;
        let kn = k as nat;
        assert(each(n, f).err is None);
        assert(each(kn, f).err is None);
        assert(f(k).err is None);
        lemma_paired_ranks(h, s, m, sc, position, kn);
        let a = each(kn, f).ops;
        let b = f(k).ops;
        assert(each(n, f).ops == a + b);
        lemma_concat(h, a, b);
        lemma_seen_concat(h, s, a, b);
        let h1 = after_ops(h, a);
        let s1 = seen_after(h, s, a);
        assert(kept_apart(sc[k], m.shards@[k].layers@.len()));
        if k == 0 {
            assert(went(first, pipeline_history(m, 0, position)) =~= first);
        }
        lemma_paired_rank(h1, s1, m, sc, position, k, first);
        let h2 = after_ops(h1, b);
        let s2 = seen_after(h1, s1, b);
        assert forall|r: int, i: int|
            0 <= r < n && 0 <= i < m.shards@[r].layers@.len()
                && #[trigger] sc[r].gdn_input_snapshots@[i] is Some implies h2[(
            r as usize,
            sc[r].gdn_input_snapshots@[i]->0,
        )] == input_row(m, first, position, r, i) by {
            if r < k {
                let key = (r as usize, sc[r].gdn_input_snapshots@[i]->0);
                assert(h1[key] == input_row(m, first, position, r, i));
                assert(h2[key] == h1[key]);
            }
        }
        assert forall|r: int, i: int|
            0 <= r < n && 0 <= i < m.shards@[r].layers@.len() implies #[trigger] s2[(
            r as usize,
            i as usize,
        )] == s[(r as usize, i as usize)] + rows_read(input_row(m, first, position, r, i), 2) by {
            let key = (r as usize, i as usize);
            if r < k {
                assert(s1[key] == s[key] + rows_read(input_row(m, first, position, r, i), 2));
                assert(s2[key] == s1[key]);
            } else {
                assert(s1[key] == s[key]);
            }
        }
    }
}

/// What a pair of tokens leaves behind.
proof fn lemma_pair(
    h: History,
    s: Seen,
    m: Qwen3MoEShardedModel,
    sc: Seq<RankForwardPrefillScratch>,
    tokens: Seq<u32>,
    position: usize,
    with_second: bool,
) -> (first: Row)
    requires
        pair_kept_apart(m, sc),
        paired_run(m, sc, tokens, position, with_second).err is None,
    ensures
        ({
            let ops = paired_run(m, sc, tokens, position, with_second).ops;
            let n = m.shards@.len();
            let h1 = after_ops(h, ops);
            &&& pair_done(h1, s, seen_after(h, s, ops), m, sc, position, first, n)
            &&& h1[((n - 1) as usize, sc[n - 1].hidden_a)] == went(
                first,
                pipeline_history(m, n, position),
            )
            &&& first.layers =~= seq![]
            &&& rows_apart(sc[0].hidden_a, 2, m.config.hidden_size) ==> first.token == tokens[0]
        }),
{
    let n = m.shards@.len();
    let stream = StreamSel::Default;
    let dst = sc[0].hidden_a;
    let em = embed_rows(m, stream, dst, tokens);
    let rk = each(n, |i: int| paired_rank_run(m, sc, position, i));
    let hd = paired_head_run(m, sc[n - 1], with_second);
    let run = paired_run(m, sc, tokens, position, with_second);
    assert(em.err is None && rk.err is None && hd.err is None);
    assert(run.ops == em.ops + (rk.ops + hd.ops));
    lemma_concat(h, em.ops, rk.ops + hd.ops);
    lemma_seen_concat(h, s, em.ops, rk.ops + hd.ops);
    let h1 = after_ops(h, em.ops);
    lemma_embed(h, m, stream, dst, tokens, tokens.len(), (1usize, dst));
    let table = weight_of(m.shards@[0].token_embd->0);
    lemma_embeds_only(m, table, stream, dst, tokens, tokens.len());
    lemma_seen_others(h, s, em.ops);
    lemma_concat(h1, rk.ops, hd.ops);
    lemma_seen_concat(h1, s, rk.ops, hd.ops);
    lemma_paired_ranks(h1, s, m, sc, position, n);
    lemma_head_keeps(after_ops(h1, rk.ops), hd.ops);
    lemma_seen_others(after_ops(h1, rk.ops), seen_after(h1, s, rk.ops), hd.ops);
    h1[(0usize, dst)]
}

/// Embedding is embedding.
proof fn lemma_embeds_only(
    m: Qwen3MoEShardedModel,
    table: Weight,
    stream: StreamSel,
    dst: DevicePtr,
    tokens: Seq<u32>,
    n: nat,
)
    ensures
        ({
            let ops = flat(
                n,
                |i: int| seq![embed_row_op(m.config, table, stream, dst, tokens, i)],
            );
            forall|i: int| 0 <= i < ops.len() ==> #[trigger] ops[i] is Embed
        }),
    decreases n,
{
    if n > 0 {
        lemma_embeds_only(m, table, stream, dst, tokens, (n - 1) as nat);
    }
}

/// A pair of tokens leaves, for every layer with a place for it, the row that the
/// layer read: it has been through the layers of all ranks before and through those
/// before it on its own rank, and where the two rows do not overlap it comes from the
/// first token.
pub proof fn law_pair_keeps_inputs(
    h: History,
    m: Qwen3MoEShardedModel,
    sc: Seq<RankForwardPrefillScratch>,
    tokens: Seq<u32>,
    position: usize,
    with_second: bool,
    r: int,
    i: int,
)
    requires
        pair_kept_apart(m, sc),
        paired_run(m, sc, tokens, position, with_second).err is None,
        0 <= r < m.shards@.len(),
        0 <= i < m.shards@[r].layers@.len(),
        sc[r].gdn_input_snapshots@[i] is Some,
    ensures
        ({
            let row = after_ops(h, paired_run(m, sc, tokens, position, with_second).ops)[(
                r as usize,
                sc[r].gdn_input_snapshots@[i]->0,
            )];
            &&& row.layers == pipeline_history(m, r as nat, position) + rank_history(
                m.shards@[r].layers@,
                position,
            ).take(i)
            &&& rows_apart(sc[0].hidden_a, 2, m.config.hidden_size) ==> row.token == tokens[0]
        }),
{
    let first = lemma_pair(h, Map::empty(), m, sc, tokens, position, with_second);
    let row = input_row(m, first, position, r, i);
    assert(sc[r].gdn_input_snapshots@[i] is Some);
    assert(row.layers =~= pipeline_history(m, r as nat, position) + rank_history(
        m.shards@[r].layers@,
        position,
    ).take(i));
}

/// A pair that a pipeline takes to the LM head has been through the layers of all
/// ranks, in the order of the ranks, at its position.
pub proof fn law_pair_runs_all_layers(
    h: History,
    m: Qwen3MoEShardedModel,
    sc: Seq<RankForwardPrefillScratch>,
    tokens: Seq<u32>,
    position: usize,
    with_second: bool,
)
    requires
        pair_kept_apart(m, sc),
        paired_run(m, sc, tokens, position, with_second).err is None,
    ensures
        ({
            let row = after_ops(h, paired_run(m, sc, tokens, position, with_second).ops)[(
                (m.shards@.len() - 1) as usize,
                sc[m.shards@.len() - 1].hidden_a,
            )];
            &&& row.layers == pipeline_history(m, m.shards@.len(), position)
            &&& rows_apart(sc[0].hidden_a, 2, m.config.hidden_size) ==> row.token == tokens[0]
        }),
{
    let n = m.shards@.len();
    let first = lemma_pair(h, Map::empty(), m, sc, tokens, position, with_second);
    assert(first.layers + pipeline_history(m, n, position) =~= pipeline_history(m, n, position));
}

/// The first `n` ranks have done with the token: their layers have taken in its row.
spec fn token_done(
    s: Seen,
    s1: Seen,
    m: Qwen3MoEShardedModel,
    position: usize,
    first: Row,
    n: nat,
) -> bool {
    forall|r: int, i: int|
        0 <= r < n && 0 <= i < m.shards@[r].layers@.len() ==> #[trigger] s1[(
            r as usize,
            i as usize,
        )] == s[(r as usize, i as usize)] + rows_read(input_row(m, first, position, r, i), 1)
}

proof fn lemma_token_seen(
    h: History,
    s: Seen,
    m: Qwen3MoEShardedModel,
    sc: Seq<RankForwardScratch>,
    mode: PeerMode,
    position: usize,
    n: nat,
)
    requires
        n <= m.shards@.len(),
        each(n, |i: int| token_rank_run(m, sc, mode, position, i)).err is None,
    ensures
        ({
            let s1 = seen_after(
                h,
                s,
                each(n, |i: int| token_rank_run(m, sc, mode, position, i)).ops,
            );
            &&& token_done(s, s1, m, position, h[(0usize, sc[0].hidden_a)], n)
            &&& forall|k: (usize, usize)| k.0 >= n ==> #[trigger] s1[k] == s[k]
        }),
    decreases n,
{
    let f = |i: int| token_rank_run(m, sc, mode, position, i);
    let first = h[(0usize, sc[0].hidden_a)];
    lemma_counts(m);
    if n == 0 {
        assert(each(n, f).ops =~= seq![]);
    } else {
        let k = n - 1;
        let kn = k as nat;
        assert(each(n, f).err is None);
        assert(each(kn, f).err is None);
        assert(f(k).err is None);
        lemma_token_seen(h, s, m, sc, mode, position, kn);
        let a = each(kn, f).ops;
        let hand = token_handoff(m, sc, mode, k);
        let c = token_chain(m, sc[k], position, k);
        let layers = m.shards@[k].layers@;
        let chain = chain_ops(m.config, layers, c);
        assert(f(k).ops == hand + chain);
        assert(each(n, f).ops == a + (hand + chain));
        lemma_seen_concat(h, s, a, hand + chain);
        let h1 = after_ops(h, a);
        let s1 = seen_after(h, s, a);
        lemma_seen_concat(h1, s1, hand, chain);
        lemma_seen_others(h1, s1, hand);
        let h2 = after_ops(h1, hand);
        let start = went(first, pipeline_history(m, kn, position));
        if k > 0 {
            lemma_token_ranks(h, m, sc, mode, position, kn);
            lemma_one(h1, hand[0]);
            assert(hand =~= seq![hand[0]]);
        } else {
            assert(a =~= seq![]);
            assert(hand =~= seq![]);
            assert(start =~= first);
        }
        assert(h2[(c.rank, c.a)] == start);
        lemma_seen_chain(h2, s1, m.config, layers, c);
        let s2 = seen_after(h2, s1, chain);
        let all = rank_history(layers, position);
        assert forall|r: int, i: int|
            0 <= r < n && 0 <= i < m.shards@[r].layers@.len() implies #[trigger] s2[(
            r as usize,
            i as usize,
        )] == s[(r as usize, i as usize)] + rows_read(input_row(m, first, position, r, i), 1) by {
            let key = (r as usize, i as usize);
            if r < k {
                assert(s1[key] == s[key] + rows_read(input_row(m, first, position, r, i), 1));
                assert(s2[key] == s1[key]);
            } else {
                assert(s1[key] == s[key]);
                assert(went(start, all.take(i)) =~= input_row(m, first, position, r, i));
            }
        }
    }
}

/// What a whole step leaves in the caches.
proof fn lemma_token(
    h: History,
    s: Seen,
    m: Qwen3MoEShardedModel,
    sc: Seq<RankForwardScratch>,
    mode: PeerMode,
    token: u32,
    position: usize,
    sink: PpLogitsSink,
)
    requires
        one_token_pp_run(m, sc, mode, token, position, sink).err is None,
    ensures
        token_done(
            s,
            seen_after(h, s, one_token_pp_run(m, sc, mode, token, position, sink).ops),
            m,
            position,
            (Row { token, layers: seq![] }),
            m.shards@.len(),
        ),
{
    let n = m.shards@.len();
    let run = one_token_pp_run(m, sc, mode, token, position, sink);
    let em = token_embed_run(m, sc, token);
    let rk = each(n, |i: int| token_rank_run(m, sc, mode, position, i));
    let hd = pp_head_run(m, sc[n - 1].output_head is Some, sc[n - 1].hidden_a, sink);
    assert(em.err is None && rk.err is None && hd.err is None);
    assert(run.ops == em.ops + (rk.ops + hd.ops));
    lemma_seen_concat(h, s, em.ops, rk.ops + hd.ops);
    lemma_seen_others(h, s, em.ops);
    lemma_one(h, em.ops[0]);
    assert(em.ops =~= seq![em.ops[0]]);
    let h1 = after_ops(h, em.ops);
    lemma_seen_concat(h1, s, rk.ops, hd.ops);
    lemma_token_seen(h1, s, m, sc, mode, position, n);
    lemma_seen_others(after_ops(h1, rk.ops), seen_after(h1, s, rk.ops), hd.ops);
}

/// Layer `k.1` of rank `k.0` is recurrent.
pub open spec fn recurrent_at(m: Qwen3MoEShardedModel, k: (usize, usize)) -> bool {
    m.config.spec_is_recurrent(m.shards@[k.0 as int].layers@[k.1 as int].layer_idx as nat)
}

/// A rank's repetition discards its outputs in a buffer that keeps no input.
pub open spec fn discards_apart(
    d: RankForwardScratch,
    p: RankForwardPrefillScratch,
    n: nat,
) -> bool {
    forall|i: int|
        0 <= i < n ==> (#[trigger] p.gdn_input_snapshots@[i] matches Some(x) ==> x != d.hidden_b)
}

proof fn lemma_redo_layers(
    h: History,
    s: Seen,
    m: Qwen3MoEShardedModel,
    d: RankForwardScratch,
    p: RankForwardPrefillScratch,
    r: int,
    n: nat,
)
    requires
        0 <= r < m.shards@.len(),
        n <= m.shards@[r].layers@.len(),
        discards_apart(d, p, m.shards@[r].layers@.len()),
        each(n, |i: int| redo_layer(m, d, p, r, i)).err is None,
    ensures
        ({
            let ops = each(n, |i: int| redo_layer(m, d, p, r, i)).ops;
            let h1 = after_ops(h, ops);
            let s1 = seen_after(h, s, ops);
            &&& forall|k: (usize, DevicePtr)|
                k != (r as usize, d.hidden_b) ==> #[trigger] h1[k] == h[k]
            &&& forall|i: int|
                0 <= i < n ==> #[trigger] s1[(r as usize, i as usize)] == s[(
                    r as usize,
                    i as usize,
                )] + if recurrent_at(m, (r as usize, i as usize)) {
                    rows_read(h[(r as usize, p.gdn_input_snapshots@[i]->0)], 1)
                } else {
                    seq![]
                }
            &&& forall|k: (usize, usize)| k.0 != r || k.1 >= n ==> #[trigger] s1[k] == s[k]
        }),
    decreases n,
{
    let f = |i: int| redo_layer(m, d, p, r, i);
    lemma_counts(m);
    if n == 0 {
        assert(each(n, f).ops =~= seq![]);
    } else {
        let j = n - 1;
        let jn = j as nat;
        assert(each(n, f).err is None);
        assert(each(jn, f).err is None);
        assert(f(j).err is None);
        lemma_redo_layers(h, s, m, d, p, r, jn);
        let a = each(jn, f).ops;
        assert(each(n, f).ops == a + f(j).ops);
        lemma_concat(h, a, f(j).ops);
        lemma_seen_concat(h, s, a, f(j).ops);
        let h1 = after_ops(h, a);
        let s1 = seen_after(h, s, a);
        let key = (r as usize, j as usize);
        assert(s1[key] == s[key]);
        if recurrent_at(m, key) {
            let op = f(j).ops[0];
            assert(f(j).ops =~= seq![op]);
            lemma_one(h1, op);
            lemma_seen_one(h1, s1, op);
            assert(p.gdn_input_snapshots@[j] is Some);
            let x = (r as usize, p.gdn_input_snapshots@[j]->0);
            assert(h1[x] == h[x]);
        } else {
            assert(f(j).ops =~= seq![]);
            assert(s[key] + Seq::<Option<Row>>::empty() =~= s[key]);
        }
    }
}

/// On every rank the outputs of the repetition are discarded apart from what is kept.
pub open spec fn redo_apart(
    m: Qwen3MoEShardedModel,
    dec: Seq<RankForwardScratch>,
    pre: Seq<RankForwardPrefillScratch>,
) -> bool {
    forall|r: int|
        0 <= r < m.shards@.len() ==> discards_apart(
            #[trigger] dec[r],
            pre[r],
            m.shards@[r].layers@.len(),
        )
}

proof fn lemma_redo_ranks(
    h: History,
    s: Seen,
    m: Qwen3MoEShardedModel,
    dec: Seq<RankForwardScratch>,
    pre: Seq<RankForwardPrefillScratch>,
    n: nat,
)
    requires
        n <= m.shards@.len(),
        redo_apart(m, dec, pre),
        each(n, |i: int| redo_rank(m, dec, pre, i)).err is None,
    ensures
        ({
            let ops = each(n, |i: int| redo_rank(m, dec, pre, i)).ops;
            let h1 = after_ops(h, ops);
            let s1 = seen_after(h, s, ops);
            &&& forall|k: (usize, DevicePtr)| k.0 >= n ==> #[trigger] h1[k] == h[k]
            &&& forall|r: int, i: int|
                0 <= r < n && 0 <= i < m.shards@[r].layers@.len() ==> #[trigger] s1[(
                    r as usize,
                    i as usize,
                )] == s[(r as usize, i as usize)] + if recurrent_at(m, (r as usize, i as usize)) {
                    rows_read(h[(r as usize, pre[r].gdn_input_snapshots@[i]->0)], 1)
                } else {
                    seq![]
                }
            &&& forall|k: (usize, usize)| k.0 >= n ==> #[trigger] s1[k] == s[k]
        }),
    decreases n,
{
    let f = |i: int| redo_rank(m, dec, pre, i);
    lemma_counts(m);
    if n == 0 {
        assert(each(n, f).ops =~= seq![]);
    } else {
        let k = n - 1;
        let kn = k as nat;
        assert(each(n, f).err is None);
        assert(each(kn, f).err is None);
        assert(f(k).err is None);
        lemma_redo_ranks(h, s, m, dec, pre, kn);
        let a = each(kn, f).ops;
        let b = f(k).ops;
        assert(each(n, f).ops == a + b);
        lemma_concat(h, a, b);
        lemma_seen_concat(h, s, a, b);
        let h1 = after_ops(h, a);
        let s1 = seen_after(h, s, a);
        assert(discards_apart(dec[k], pre[k], m.shards@[k].layers@.len()));
        lemma_redo_layers(h1, s1, m, dec[k], pre[k], k, m.shards@[k].layers@.len());
        let s2 = seen_after(h1, s1, b);
        assert forall|r: int, i: int|
            0 <= r < n && 0 <= i < m.shards@[r].layers@.len() implies #[trigger] s2[(
            r as usize,
            i as usize,
        )] == s[(r as usize, i as usize)] + if recurrent_at(m, (r as usize, i as usize)) {
            rows_read(h[(r as usize, pre[r].gdn_input_snapshots@[i]->0)], 1)
        } else {
            seq![]
        } by {
            let key = (r as usize, i as usize);
            if r < k {
                assert(s2[key] == s1[key]);
            } else {
                assert(s1[key] == s[key]);
                let x = (r as usize, pre[r].gdn_input_snapshots@[i]->0);
                assert(h1[x] == h[x]);
            }
        }
    }
}

/// What the layers have taken in once a pair is taken back: the recurrent layers are
/// as they were saved before it, and the others lose the last token.
pub open spec fn taken_back(m: Qwen3MoEShardedModel, before: Seen, after: Seen) -> Seen {
    Map::new(
        |k: (usize, usize)| true,
        |k: (usize, usize)|
            if recurrent_at(m, k) {
                before[k]
            } else {
                after[k].drop_last()
            },
    )
}

/// After a pair of tokens whose second is refused, the recurrent layers restored and
/// the last token taken back from the others, repeating the recurrent layers alone
/// leaves every cache as a whole step with the first token would have left it.
pub proof fn law_redo_leaves_a_whole_step(
    h: History,
    fresh: History,
    s: Seen,
    m: Qwen3MoEShardedModel,
    dec: Seq<RankForwardScratch>,
    pre: Seq<RankForwardPrefillScratch>,
    tokens: Seq<u32>,
    position: usize,
    with_second: bool,
    mode: PeerMode,
    sink: PpLogitsSink,
    r: int,
    i: int,
)
    requires
        pair_kept_apart(m, pre),
        rows_apart(pre[0].hidden_a, 2, m.config.hidden_size),
        redo_apart(m, dec, pre),
        paired_run(m, pre, tokens, position, with_second).err is None,
        redo_run(m, m.shards@.len(), m.shards.len(), dec, pre).err is None,
        one_token_pp_run(m, dec, mode, tokens[0], position, sink).err is None,
        0 <= r < m.shards@.len(),
        0 <= i < m.shards@[r].layers@.len(),
    ensures
        ({
            let pair = paired_run(m, pre, tokens, position, with_second).ops;
            let redo = redo_run(m, m.shards@.len(), m.shards.len(), dec, pre).ops;
            let whole = one_token_pp_run(m, dec, mode, tokens[0], position, sink).ops;
            let back = taken_back(m, s, seen_after(h, s, pair));
            let key = (r as usize, i as usize);
            seen_after(after_ops(h, pair), back, redo)[key] == seen_after(fresh, s, whole)[key]
        }),
{
    let n = m.shards@.len();
    lemma_counts(m);
    let pair = paired_run(m, pre, tokens, position, with_second).ops;
    let key = (r as usize, i as usize);
    let first = lemma_pair(h, s, m, pre, tokens, position, with_second);
    let start = Row { token: tokens[0], layers: seq![] };
    assert(first =~= start);
    let h1 = after_ops(h, pair);
    let s1 = seen_after(h, s, pair);
    let back = taken_back(m, s, s1);
    lemma_redo_ranks(h1, back, m, dec, pre, n);
    lemma_token(fresh, s, m, dec, mode, tokens[0], position, sink);
    let row = input_row(m, first, position, r, i);
    assert(s1[key] == s[key] + rows_read(row, 2));
    if recurrent_at(m, key) {
        lemma_redo_kept(m, dec, pre, r, i);
        assert(pre[r].gdn_input_snapshots@[i] is Some);
        assert(h1[(r as usize, pre[r].gdn_input_snapshots@[i]->0)] == row);
    } else {
        assert(s1[key].drop_last() =~= s[key] + rows_read(row, 1));
        assert(back[key] + Seq::<Option<Row>>::empty() =~= back[key]);
    }
}

/// A repetition that succeeds found every input.
proof fn lemma_redo_kept(
    m: Qwen3MoEShardedModel,
    dec: Seq<RankForwardScratch>,
    pre: Seq<RankForwardPrefillScratch>,
    r: int,
    i: int,
)
    requires
        0 <= r < m.shards@.len(),
        0 <= i < m.shards@[r].layers@.len(),
        redo_run(m, m.shards@.len(), m.shards.len(), dec, pre).err is None,
        recurrent_at(m, (r as usize, i as usize)),
    ensures
        pre[r].gdn_input_snapshots@[i] is Some,
{
    let f = |q: int| redo_rank(m, dec, pre, q);
    lemma_counts(m);
    lemma_part_ok(m.shards@.len(), f, r);
    let g = |j: int| redo_layer(m, dec[r], pre[r], r, j);
    assert(f(r) == each(m.shards@[r].layers@.len(), g));
    lemma_part_ok(m.shards@[r].layers@.len(), g, i);
    assert(g(i).err is None);
}

/// Each part of a run that succeeds succeeds.
proof fn lemma_part_ok<O, E>(n: nat, f: spec_fn(int) -> Run<O, E>, i: int)
    requires
        0 <= i < n,
        each(n, f).err is None,
    ensures
        f(i).err is None,
    decreases n,
{
    if i < n - 1 {
        lemma_part_ok((n - 1) as nat, f, i);
    }
}

} // verus!
