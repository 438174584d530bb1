//! What a pipelined pass over a batch of tokens computes, row by row.

use crate::device::DevicePtr;
use crate::forward::op::{weight_of, ForwardError, Op, PeerMode, StreamSel};
use crate::forward::pipe::{
    holds, lemma_chain_rows, lemma_copied, lemma_run_concat, lemma_run_one, next, no_logits,
    placed, row_bytes, run_all, walked, walked_all, Pipe, Trail,
};
use crate::forward::pp::{
    batch_chain, batch_rank_run, chain_ops, embed_row_op, embed_rows, one_token_pp_run,
    pp_head_run, prefill_pp_ready, prefill_pp_run, token_chain, token_embed_run, token_rank_run,
    Chain, PpLogitsSink, RankForwardPrefillScratch, RankForwardScratch,
};
use crate::forward::rows::{apart, at, lemma_put, lemma_rows_differ, put};
use crate::forward::tp::{row_at, rows_fit};
use crate::plan::{each, flat, Run};
use crate::sharded::Qwen3MoEShardedModel;
use vstd::prelude::*;

verus! {

/// The embedding of a token.
pub open spec fn fresh(token: u32) -> Trail {
    Trail { token, layers: seq![], sound: true }
}

/// The row of a token at a position after all layers of the first `r` ranks.
pub open spec fn ranks_walked(m: Qwen3MoEShardedModel, token: u32, position: int, r: nat) -> Trail
    decreases r,
{
    if r == 0 {
        fresh(token)
    } else {
        let layers = m.shards@[r - 1].layers@;
        walked(layers, ranks_walked(m, token, position, (r - 1) as nat), position, layers.len())
    }
}

/// All rows of a batch after all layers of the first `r` ranks.
pub open spec fn batch_walked(
    m: Qwen3MoEShardedModel,
    tokens: Seq<u32>,
    position: int,
    r: nat,
) -> Seq<Trail> {
    Seq::new(tokens.len(), |i: int| ranks_walked(m, tokens[i], position + i, r))
}

/// The layers of the first `k` ranks have each taken in every row, at its own position and
/// as it came from all layers before; the layers of the other ranks nothing.
pub open spec fn ranks_fed(
    m: Qwen3MoEShardedModel,
    before: Pipe,
    now: Pipe,
    tokens: Seq<u32>,
    position: int,
    k: nat,
) -> bool {
    &&& forall|q: usize, d: usize|
        q < k && d < m.shards@[q as int].layers@.len() ==> #[trigger] now.taken[(q, d)]
            == before.taken[(q, d)] + placed(
            walked_all(
                m.shards@[q as int].layers@,
                batch_walked(m, tokens, position, q as nat),
                position,
                d as nat,
            ),
            position,
        )
    &&& forall|e: (usize, usize)| e.0 >= k ==> #[trigger] now.taken[e] == before.taken[e]
}

/// A rank's part of a pass: the rows come from the rank before, and go through its layers.
pub open spec fn rank_ops(
    m: Qwen3MoEShardedModel,
    mode: PeerMode,
    c: spec_fn(int) -> Chain,
    bytes: usize,
    r: int,
) -> Seq<Op> {
    (if r > 0 {
        seq![
            Op::PeerCopy {
                mode,
                dst_rank: r as usize,
                dst: c(r).a,
                src_rank: (r - 1) as usize,
                src: c(r - 1).a,
                bytes,
            },
        ]
    } else {
        seq![]
    }) + chain_ops(m.config, m.shards@[r].layers@, c(r))
}

/// The ranks up to `k`, one after the other.
proof fn lemma_ranks(
    m: Qwen3MoEShardedModel,
    p: Pipe,
    f: spec_fn(int) -> Run<Op, ForwardError>,
    mode: PeerMode,
    c: spec_fn(int) -> Chain,
    bytes: usize,
    tokens: Seq<u32>,
    position: usize,
    k: nat,
)
    requires
        m.config.hidden_size > 0,
        k <= m.shards@.len() <= usize::MAX,
        bytes == tokens.len() * row_bytes(m),
        holds(m, p, 0, c(0).a, batch_walked(m, tokens, position as int, 0)),
        each(k, f).err is None,
        forall|r: int|
            0 <= r < k ==> {
                &&& (#[trigger] f(r)).err is None ==> f(r).ops == rank_ops(m, mode, c, bytes, r)
                &&& c(r).rank == r
                &&& c(r).n_tokens == tokens.len()
                &&& c(r).bytes == bytes
                &&& c(r).position == position
                &&& apart(c(r).a, c(r).b, row_bytes(m), tokens.len())
                &&& m.shards@[r].layers@.len() <= usize::MAX
            },
    ensures
        ({
            let now = run_all(m, p, each(k, f).ops);
            &&& k > 0 ==> holds(
                m,
                now,
                (k - 1) as usize,
                c(k - 1).a,
                batch_walked(m, tokens, position as int, k),
            )
            &&& ranks_fed(m, p, now, tokens, position as int, k)
            &&& no_logits(p, now)
        }),
    decreases k,
{
    if k == 0 {
        assert(each(k, f).ops =~= seq![]);
    } else {
        let j = (k - 1) as nat;
        let r = j as int;
        let q = j as usize;
        lemma_ranks(m, p, f, mode, c, bytes, tokens, position, j);
        lemma_run_concat(m, p, each(j, f).ops, f(r).ops);
        let b = run_all(m, p, each(j, f).ops);
        let now = run_all(m, p, each(k, f).ops);
        assert(f(r).err is None);
        let pos = position as int;
        let trails = batch_walked(m, tokens, pos, j);
        let layers = m.shards@[r].layers@;
        let chain = chain_ops(m.config, layers, c(r));
        let head = rank_ops(m, mode, c, bytes, r).take(
            if r > 0 {
                1
            } else {
                0
            },
        );
        assert(f(r).ops =~= head + chain);
        lemma_run_concat(m, b, head, chain);
        let b1 = run_all(m, b, head);
        if r > 0 {
            assert(f(r - 1) == f(r - 1));
            assert(head =~= seq![head[0]]);
            lemma_run_one(m, b, head[0]);
            lemma_copied(m, b, (r - 1) as usize, c(r - 1).a, q, c(r).a, bytes, trails);
        } else {
            assert(head =~= seq![]);
            assert(each(0, f).ops =~= seq![]);
        }
        lemma_chain_rows(m, b1, c(r), trails);
        let last = batch_walked(m, tokens, pos, k);
        assert(walked_all(layers, trails, pos, layers.len()) =~= last);
        assert forall|s: usize, d: usize|
            s < k && d < m.shards@[s as int].layers@.len() implies #[trigger] now.taken[(s, d)]
            == p.taken[(s, d)] + placed(
            walked_all(
                m.shards@[s as int].layers@,
                batch_walked(m, tokens, pos, s as nat),
                pos,
                d as nat,
            ),
            pos,
        ) by {
            if s < j {
                assert(now.taken[(s, d)] == b1.taken[(s, d)]);
                assert(b.taken[(s, d)] == p.taken[(s, d)] + placed(
                    walked_all(
                        m.shards@[s as int].layers@,
                        batch_walked(m, tokens, pos, s as nat),
                        pos,
                        d as nat,
                    ),
                    pos,
                ));
            } else {
                assert(b.taken[(s, d)] == p.taken[(s, d)]);
            }
        }
        assert forall|e: (usize, usize)| e.0 >= k implies #[trigger] now.taken[e] == p.taken[e] by {
            assert(b.taken[e] == p.taken[e]);
        }
    }
}

/// The first `k` tokens of a batch are embedded on the first rank.
proof fn lemma_embed_batch(
    m: Qwen3MoEShardedModel,
    p: Pipe,
    stream: StreamSel,
    dst: DevicePtr,
    tokens: Seq<u32>,
    k: nat,
)
    requires
        m.config.hidden_size > 0,
        m.shards@[0].token_embd is Some,
        k <= tokens.len(),
        rows_fit(dst, tokens.len(), m.config.hidden_size),
    ensures
        ({
            let table = weight_of(m.shards@[0].token_embd->0);
            let now = run_all(
                m,
                p,
                flat(k, |i: int| seq![embed_row_op(m.config, table, stream, dst, tokens, i)]),
            );
            &&& forall|i: int|
                0 <= i < k ==> now.rows[#[trigger] at(0, dst, i, row_bytes(m))] == fresh(tokens[i])
            &&& now.taken == p.taken
            &&& no_logits(p, now)
        }),
    decreases k,
{
    let table = weight_of(m.shards@[0].token_embd->0);
    let f = |i: int| seq![embed_row_op(m.config, table, stream, dst, tokens, i)];
    let w = row_bytes(m);
    if k > 0 {
        let j = (k - 1) as nat;
        let jj = j as int;
        lemma_embed_batch(m, p, stream, dst, tokens, j);
        lemma_run_concat(m, p, flat(j, f), f(jj));
        let b = run_all(m, p, flat(j, f));
        let now = run_all(m, p, flat(k, f));
        let op = embed_row_op(m.config, table, stream, dst, tokens, jj);
        lemma_run_one(m, b, op);
        let to = row_at(dst, jj, m.config.hidden_size);
        let h2 = m.config.hidden_size * 2;
        assert(0 <= jj * h2 <= tokens.len() * h2) by (nonlinear_arith)
            requires
                0 <= jj < tokens.len(),
                h2 >= 0,
        ;
        assert(to.0 == dst.0 + jj * w);
        assert(0 * w == 0) by (nonlinear_arith);
        assert(at(0, to, 0, w) == at(0, dst, jj, w));
        let vals = seq![fresh(tokens[jj])];
        assert(vals.drop_last() =~= seq![]);
        assert(put(b.rows, 0, to, w, vals.drop_last()) == b.rows);
        assert(now.rows == put(b.rows, 0, to, w, vals));
        assert forall|i: int| 0 <= i < k implies now.rows[#[trigger] at(0, dst, i, w)] == fresh(
            tokens[i],
        ) by {
            if i < j {
                lemma_rows_differ(0, dst, i, jj, w);
                assert(b.rows[at(0, dst, i, w)] == fresh(tokens[i]));
            }
        }
    }
}

/// What becomes of the logits of a row.
pub open spec fn pipe_sunk(before: Pipe, now: Pipe, row: Trail, sink: PpLogitsSink) -> bool {
    match sink {
        PpLogitsSink::Host => now.fetched == before.fetched.insert(0, row) && now.picked
            == before.picked,
        PpLogitsSink::Argmax => now.picked == Some(row) && now.fetched == before.fetched,
        PpLogitsSink::KeepOnDevice => now.fetched == before.fetched && now.picked
            == before.picked,
    }
}

/// The head on a row of the last rank.
proof fn lemma_pipe_head(
    m: Qwen3MoEShardedModel,
    p: Pipe,
    has_scratch: bool,
    x: DevicePtr,
    sink: PpLogitsSink,
)
    requires
        1 <= m.shards@.len() <= usize::MAX,
        pp_head_run(m, has_scratch, x, sink).err is None,
    ensures
        ({
            let now = run_all(m, p, pp_head_run(m, has_scratch, x, sink).ops);
            let last = (m.shards@.len() - 1) as usize;
            &&& now.logits[last] == p.rows[(last, x.0 as int)]
            &&& pipe_sunk(p, now, p.rows[(last, x.0 as int)], sink)
            &&& now.taken == p.taken
        }),
{
    let ops = pp_head_run(m, has_scratch, x, sink).ops;
    let last = (m.shards@.len() - 1) as usize;
    let row = p.rows[(last, x.0 as int)];
    lemma_run_one(m, p, ops[0]);
    let mid = next(m, p, ops[0]);
    assert(mid.logits[last] =~= row);
    if sink == PpLogitsSink::KeepOnDevice {
        assert(ops =~= seq![ops[0]]);
    } else {
        assert(ops =~= seq![ops[0]] + seq![ops[1]]);
        lemma_run_concat(m, p, seq![ops[0]], seq![ops[1]]);
        lemma_run_one(m, mid, ops[1]);
        assert(crate::forward::pipe::of_head(row, true) =~= row);
    }
}

/// On every rank the two buffers have room for the batch and no byte in common.
pub open spec fn buffers_apart(
    m: Qwen3MoEShardedModel,
    sc: Seq<RankForwardPrefillScratch>,
    n: nat,
) -> bool {
    forall|r: int|
        0 <= r < m.shards@.len() ==> apart((#[trigger] sc[r]).hidden_a, sc[r].hidden_b, row_bytes(
            m,
        ), n)
}

/// The counts of ranks and layers are those of lists in memory.
pub open spec fn countable(m: Qwen3MoEShardedModel) -> bool {
    &&& m.shards@.len() <= usize::MAX
    &&& forall|r: int|
        0 <= r < m.shards@.len() ==> (#[trigger] m.shards@[r]).layers@.len() <= usize::MAX
}

pub proof fn lemma_countable(m: Qwen3MoEShardedModel)
    ensures
        countable(m),
{
    assert(m.shards.len() == m.shards@.len());
    assert forall|r: int| 0 <= r < m.shards@.len() implies (#[trigger] m.shards@[r]).layers@.len()
        <= usize::MAX by {
        assert(m.shards@[r].layers.len() == m.shards@[r].layers@.len());
    }
}

/// The ranks and the head of a batch.
proof fn lemma_batch_rest(
    m: Qwen3MoEShardedModel,
    sc: Seq<RankForwardPrefillScratch>,
    tokens: Seq<u32>,
    position: usize,
    sink: PpLogitsSink,
    p: Pipe,
    p1: Pipe,
)
    requires
        m.config.hidden_size > 0,
        m.shards@.len() >= 1,
        tokens.len() >= 1,
        tokens.len() <= usize::MAX,
        tokens.len() * (m.config.hidden_size * 2) <= usize::MAX,
        rows_fit(sc[m.shards@.len() - 1].hidden_a, tokens.len(), m.config.hidden_size),
        buffers_apart(m, sc, tokens.len()),
        each(m.shards@.len(), |i: int| batch_rank_run(m, sc, tokens.len(), position, i)).err
            is None,
        pp_head_run(
            m,
            sc[m.shards@.len() - 1].output_head is Some,
            row_at(sc[m.shards@.len() - 1].hidden_a, tokens.len() - 1, m.config.hidden_size),
            sink,
        ).err is None,
        holds(m, p1, 0, sc[0].hidden_a, batch_walked(m, tokens, position as int, 0)),
        p1.taken == p.taken,
        no_logits(p, p1),
    ensures
        ({
            let ranks = m.shards@.len();
            let a = each(ranks, |i: int| batch_rank_run(m, sc, tokens.len(), position, i));
            let b = pp_head_run(
                m,
                sc[ranks - 1].output_head is Some,
                row_at(sc[ranks - 1].hidden_a, tokens.len() - 1, m.config.hidden_size),
                sink,
            );
            let now = run_all(m, p1, a.ops + b.ops);
            let n = tokens.len();
            &&& pipe_sunk(p, now, ranks_walked(m, tokens[n - 1], position + (n - 1), ranks), sink)
            &&& ranks_fed(m, p, now, tokens, position as int, ranks)
        }),
{
    let ranks = m.shards@.len();
    let n = tokens.len();
    let w = row_bytes(m);
    let f = |i: int| batch_rank_run(m, sc, n, position, i);
    let c = |r: int| batch_chain(m, sc[r], n, position, r);
    let bytes = (n * (m.config.hidden_size * 2)) as usize;
    lemma_countable(m);
    assert forall|r: int| 0 <= r < ranks implies {
        &&& (#[trigger] f(r)).err is None ==> f(r).ops == rank_ops(
            m,
            PeerMode::Blocking,
            c,
            bytes,
            r,
        )
        &&& apart(c(r).a, c(r).b, w, n)
        &&& m.shards@[r].layers@.len() <= usize::MAX
    } by {
        assert(apart(sc[r].hidden_a, sc[r].hidden_b, w, n));
        assert(f(r).err is None ==> f(r).ops =~= rank_ops(m, PeerMode::Blocking, c, bytes, r));
    }
    lemma_ranks(m, p1, f, PeerMode::Blocking, c, bytes, tokens, position, ranks);
    let x = row_at(sc[ranks - 1].hidden_a, n - 1, m.config.hidden_size);
    let b = pp_head_run(m, sc[ranks - 1].output_head is Some, x, sink);
    lemma_run_concat(m, p1, each(ranks, f).ops, b.ops);
    let p2 = run_all(m, p1, each(ranks, f).ops);
    let last = (ranks - 1) as usize;
    let h2 = m.config.hidden_size * 2;
    assert(0 <= (n - 1) * h2 <= n * h2) by (nonlinear_arith)
        requires
            n >= 1,
            h2 >= 0,
    ;
    assert(at(last, c(ranks - 1).a, n - 1, w) == (last, x.0 as int));
    assert(p2.rows[at(last, c(ranks - 1).a, n - 1, w)] == batch_walked(
        m,
        tokens,
        position as int,
        ranks,
    )[n - 1]);
    lemma_pipe_head(m, p2, sc[ranks - 1].output_head is Some, x, sink);
}

/// A batch through a pipeline: every token goes through all layers of all ranks in order,
/// each at the token's own position, the caches of each layer take in every token at its
/// position, and the logits are those of the last token after all layers of all ranks.
pub proof fn law_pipeline_keeps_every_row(
    m: Qwen3MoEShardedModel,
    sc: Seq<RankForwardPrefillScratch>,
    tokens: Seq<u32>,
    position: usize,
    sink: PpLogitsSink,
    p: Pipe,
)
    requires
        m.config.hidden_size > 0,
        prefill_pp_ready(m, sc, tokens.len()),
        prefill_pp_run(m, sc, tokens, position, sink).err is None,
        buffers_apart(m, sc, tokens.len()),
    ensures
        ({
            let now = run_all(m, p, prefill_pp_run(m, sc, tokens, position, sink).ops);
            let n = tokens.len();
            let ranks = m.shards@.len();
            &&& pipe_sunk(p, now, ranks_walked(m, tokens[n - 1], position + (n - 1), ranks), sink)
            &&& ranks_fed(m, p, now, tokens, position as int, ranks)
        }),
{
    let ranks = m.shards@.len();
    let n = tokens.len();
    let dst = sc[0].hidden_a;
    let e = embed_rows(m, StreamSel::Default, dst, tokens);
    let a = each(ranks, |i: int| batch_rank_run(m, sc, n, position, i));
    let b = pp_head_run(
        m,
        sc[ranks - 1].output_head is Some,
        row_at(sc[ranks - 1].hidden_a, n - 1, m.config.hidden_size),
        sink,
    );
    assert(prefill_pp_run(m, sc, tokens, position, sink).ops == e.ops + (a.ops + b.ops));
    lemma_run_concat(m, p, e.ops, a.ops + b.ops);
    lemma_embed_batch(m, p, StreamSel::Default, dst, tokens, n);
    let p1 = run_all(m, p, e.ops);
    assert(holds(m, p1, 0, dst, batch_walked(m, tokens, position as int, 0))) by {
        assert forall|i: int| 0 <= i < n implies p1.rows[#[trigger] at(0, dst, i, row_bytes(m))]
            == batch_walked(m, tokens, position as int, 0)[i] by {
            assert(p1.rows[at(0, dst, i, row_bytes(m))] == fresh(tokens[i]));
        }
    }
    lemma_batch_rest(m, sc, tokens, position, sink, p, p1);
}

/// On every rank the two buffers have room for a row and no byte in common.
pub open spec fn token_buffers_apart(m: Qwen3MoEShardedModel, sc: Seq<RankForwardScratch>) -> bool {
    forall|r: int|
        0 <= r < m.shards@.len() ==> apart((#[trigger] sc[r]).hidden_a, sc[r].hidden_b, row_bytes(
            m,
        ), 1)
}

/// One token through a pipeline: it goes through all layers of all ranks in order, the caches
/// of each layer take it in at its position, and the logits are those of its row after all of
/// them. A batch of one token comes to the same.
pub proof fn law_pipeline_runs_token(
    m: Qwen3MoEShardedModel,
    sc: Seq<RankForwardScratch>,
    mode: PeerMode,
    token: u32,
    position: usize,
    sink: PpLogitsSink,
    p: Pipe,
)
    requires
        m.config.hidden_size > 0,
        m.config.hidden_size * 2 <= usize::MAX,
        one_token_pp_run(m, sc, mode, token, position, sink).err is None,
        token_buffers_apart(m, sc),
    ensures
        ({
            let now = run_all(m, p, one_token_pp_run(m, sc, mode, token, position, sink).ops);
            let ranks = m.shards@.len();
            &&& pipe_sunk(p, now, ranks_walked(m, token, position as int, ranks), sink)
            &&& ranks_fed(m, p, now, seq![token], position as int, ranks)
        }),
{
    let ranks = m.shards@.len();
    let w = row_bytes(m);
    let tokens = seq![token];
    let f = |i: int| token_rank_run(m, sc, mode, position, i);
    let c = |r: int| token_chain(m, sc[r], position, r);
    let bytes = (m.config.hidden_size * 2) as usize;
    let e = token_embed_run(m, sc, token);
    let a = each(ranks, f);
    let x = sc[ranks - 1].hidden_a;
    let b = pp_head_run(m, sc[ranks - 1].output_head is Some, x, sink);
    assert(one_token_pp_run(m, sc, mode, token, position, sink).ops == e.ops + (a.ops + b.ops));
    lemma_run_concat(m, p, e.ops, a.ops + b.ops);
    let p1 = run_all(m, p, e.ops);
    lemma_run_one(m, p, e.ops[0]);
    assert(e.ops =~= seq![e.ops[0]]);
    lemma_put(p.rows, 0, sc[0].hidden_a, w, seq![fresh(token)]);
    assert(p1.rows == put(p.rows, 0, sc[0].hidden_a, w, seq![fresh(token)]));
    assert(holds(m, p1, 0, c(0).a, batch_walked(m, tokens, position as int, 0))) by {
        assert forall|i: int| 0 <= i < 1 implies p1.rows[#[trigger] at(0, c(0).a, i, w)]
            == batch_walked(m, tokens, position as int, 0)[i] by {
            assert(p1.rows[at(0, sc[0].hidden_a, i, w)] == seq![fresh(token)][i]);
        }
    }
    lemma_countable(m);
    assert forall|r: int| 0 <= r < ranks implies {
        &&& (#[trigger] f(r)).err is None ==> f(r).ops == rank_ops(m, mode, c, bytes, r)
        &&& apart(c(r).a, c(r).b, w, 1)
        &&& m.shards@[r].layers@.len() <= usize::MAX
    } by {
        assert(apart(sc[r].hidden_a, sc[r].hidden_b, w, 1));
        assert(f(r).err is None ==> f(r).ops =~= rank_ops(m, mode, c, bytes, r));
    }
    lemma_ranks(m, p1, f, mode, c, bytes, tokens, position, ranks);
    lemma_run_concat(m, p1, a.ops, b.ops);
    let p2 = run_all(m, p1, a.ops);
    let last = (ranks - 1) as usize;
    assert(0 * w == 0) by (nonlinear_arith);
    assert(at(last, c(ranks - 1).a, 0, w) == (last, x.0 as int));
    assert(p2.rows[at(last, c(ranks - 1).a, 0, w)] == batch_walked(
        m,
        tokens,
        position as int,
        ranks,
    )[0]);
    lemma_pipe_head(m, p2, sc[ranks - 1].output_head is Some, x, sink);
}

} // verus!
