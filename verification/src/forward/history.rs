//! Which token the first row of a buffer comes from, which layers it has been through,
//! and at which position.

use crate::config::Qwen3MoEConfig;
use crate::device::DevicePtr;
use crate::forward::op::{weight_of, ForwardError, Op, Pass, PeerMode, StreamSel};
use crate::forward::pp::{
    async_run, back_ops, batch_chain, batch_handoff, batch_rank_run, cell_run, chain_ops,
    embed_row_op, embed_rows, lane_chain, lane_entry, layer_op, lemma_ubatch, n_ubatches,
    one_token_pp_run, pp_head_run, prefill_pp_run, reserve_ops, scheduled, step_run, token_chain,
    token_embed_run, token_handoff, token_rank_run, ubatch, x_at, AsyncCtx, Chain, PpLogitsSink,
    RankForwardPrefillScratch, RankForwardScratch,
};
use crate::forward::single_device::{
    device_chain, device_head_run, layers_ops, one_token_device_run, ForwardOneTokenScratch,
};
use crate::forward::tp::row_at;
use crate::plan::{each, flat, lemma_each_stops, Run};
use crate::sharded::Qwen3MoEShardedModel;
use crate::weights::{LayerWeights, ModelWeights};
use vstd::prelude::*;

verus! {

/// A hidden row: the token whose embedding it began with, and the layers that it went
/// through since, each with its position.
#[verifier::ext_equal]
pub struct Row {
    pub token: u32,
    pub layers: Seq<(usize, usize)>,
}

/// The row after more layers.
pub open spec fn went(row: Row, layers: Seq<(usize, usize)>) -> Row {
    Row { token: row.token, layers: row.layers + layers }
}

/// For every buffer of every rank its first row. A buffer that holds no hidden row is
/// left out.
pub type History = Map<(usize, DevicePtr), Row>;

/// The history after an operation.
pub open spec fn after_op(h: History, op: Op) -> History {
    match op {
        Op::Embed { rank, token, dst, .. } => h.insert(
            (rank, dst),
            Row { token, layers: seq![] },
        ),
        Op::Layer { rank, layer, x, out, position, .. } => h.insert(
            (rank, out),
            went(h[(rank, x)], seq![(layer, position)]),
        ),
        Op::GdnLayer { rank, out, .. } => h.remove((rank, out)),
        Op::Copy { rank, dst, src, .. } => h.insert((rank, dst), h[(rank, src)]),
        Op::PeerCopy { dst_rank, dst, src_rank, src, .. } => h.insert(
            (dst_rank, dst),
            h[(src_rank, src)],
        ),
        _ => h,
    }
}

/// The history after a list of operations.
pub open spec fn after_ops(h: History, ops: Seq<Op>) -> History
    decreases ops.len(),
{
    if ops.len() == 0 {
        h
    } else {
        after_op(after_ops(h, ops.drop_last()), ops.last())
    }
}

/// The layers of a rank at a position.
pub open spec fn rank_history(layers: Seq<LayerWeights>, position: usize) -> Seq<(usize, usize)> {
    layers.map_values(|l: LayerWeights| (l.layer_idx, position))
}

/// The layers of the first `n` ranks at a position, one rank after the other.
pub open spec fn pipeline_history(m: Qwen3MoEShardedModel, n: nat, position: usize) -> Seq<
    (usize, usize),
> {
    flat(n, |r: int| rank_history(m.shards@[r].layers@, position))
}

pub proof fn lemma_concat(h: History, a: Seq<Op>, b: Seq<Op>)
    ensures
        after_ops(h, a + b) == after_ops(after_ops(h, a), b),
    decreases b.len(),
{
    if b.len() == 0 {
        assert(a + b =~= a);
    } else {
        lemma_concat(h, a, b.drop_last());
        assert((a + b).drop_last() =~= a + b.drop_last());
        assert((a + b).last() == b.last());
    }
}

pub proof fn lemma_one(h: History, op: Op)
    ensures
        after_ops(h, seq![op]) == after_op(h, op),
{
    assert(seq![op].drop_last() =~= seq![]);
    assert(after_ops(h, seq![op].drop_last()) == h);
}

pub proof fn lemma_layers(
    h: History,
    cfg: Qwen3MoEConfig,
    layers: Seq<LayerWeights>,
    c: Chain,
    n: nat,
    k: (usize, DevicePtr),
)
    requires
        n <= layers.len(),
        k != (c.rank, c.a),
        k != (c.rank, c.b),
    ensures
        ({
            let after = after_ops(h, flat(n, |i: int| seq![layer_op(cfg, layers, c, i)]));
            &&& after[(c.rank, x_at(c.a, c.b, n as int))] == went(
                h[(c.rank, c.a)],
                rank_history(layers, c.position).take(n as int),
            )
            &&& after[k] == h[k]
            &&& after.dom().contains(k) == h.dom().contains(k)
        }),
    decreases n,
{
    let f = |i: int| seq![layer_op(cfg, layers, c, i)];
    let all = rank_history(layers, c.position);
    if n == 0 {
        assert(went(h[(c.rank, c.a)], all.take(0)) =~= h[(c.rank, c.a)]);
    } else {
        let j = (n - 1) as nat;
        lemma_layers(h, cfg, layers, c, j, k);
        lemma_concat(h, flat(j, f), f(j as int));
        lemma_one(after_ops(h, flat(j, f)), layer_op(cfg, layers, c, j as int));
        assert(all.take(n as int) =~= all.take(j as int).push(all[j as int]));
        assert(went(went(h[(c.rank, c.a)], all.take(j as int)), seq![all[j as int]]) =~= went(
            h[(c.rank, c.a)],
            all.take(n as int),
        ));
    }
}

/// A rank's layers leave their result in the first buffer, and nothing else but
/// the second buffer changes.
proof fn lemma_chain(
    h: History,
    cfg: Qwen3MoEConfig,
    layers: Seq<LayerWeights>,
    c: Chain,
    k: (usize, DevicePtr),
)
    requires
        k != (c.rank, c.a),
        k != (c.rank, c.b),
    ensures
        after_ops(h, chain_ops(cfg, layers, c))[(c.rank, c.a)] == went(
            h[(c.rank, c.a)],
            rank_history(layers, c.position),
        ),
        after_ops(h, chain_ops(cfg, layers, c))[k] == h[k],
{
    let f = |i: int| seq![layer_op(cfg, layers, c, i)];
    let n = layers.len();
    let all = rank_history(layers, c.position);
    lemma_layers(h, cfg, layers, c, n, k);
    lemma_concat(h, flat(n, f), back_ops(c, n));
    let mid = after_ops(h, flat(n, f));
    assert(all.take(n as int) =~= all);
    if x_at(c.a, c.b, n as int) != c.a {
        lemma_one(mid, back_ops(c, n)[0]);
        assert(back_ops(c, n) =~= seq![back_ops(c, n)[0]]);
    }
}

/// A key that a chain does not touch.
pub open spec fn elsewhere(c: Chain) -> (usize, DevicePtr) {
    (if c.rank == 0 {
        1usize
    } else {
        0usize
    }, c.a)
}

/// A rank's layers leave their result in the first buffer, each at the position of
/// the chain.
pub proof fn law_chain_ends_in_first_buffer(
    h: History,
    cfg: Qwen3MoEConfig,
    layers: Seq<LayerWeights>,
    c: Chain,
)
    ensures
        after_ops(h, chain_ops(cfg, layers, c))[(c.rank, c.a)] == went(
            h[(c.rank, c.a)],
            rank_history(layers, c.position),
        ),
{
    lemma_chain(h, cfg, layers, c, elsewhere(c));
}

/// The first of `n` rows is not written over by another.
pub open spec fn rows_apart(dst: DevicePtr, n: nat, hidden: usize) -> bool {
    forall|i: int| 0 < i < n ==> #[trigger] row_at(dst, i, hidden) != dst
}

/// Embedding starts a new history, and changes nothing but its rows.
pub proof fn lemma_embed(
    h: History,
    m: Qwen3MoEShardedModel,
    stream: StreamSel,
    dst: DevicePtr,
    tokens: Seq<u32>,
    n: nat,
    k: (usize, DevicePtr),
)
    requires
        m.shards@[0].token_embd is Some,
        n <= tokens.len(),
        forall|i: int|
            0 <= i < n ==> k != (0usize, #[trigger] row_at(dst, i, m.config.hidden_size)),
    ensures
        ({
            let table = weight_of(m.shards@[0].token_embd->0);
            let ops = flat(
                n,
                |i: int| seq![embed_row_op(m.config, table, stream, dst, tokens, i)],
            );
            &&& n > 0 ==> after_ops(h, ops)[(0usize, dst)].layers =~= seq![]
            &&& n > 0 && rows_apart(dst, n, m.config.hidden_size) ==> after_ops(h, ops)[(
                0usize,
                dst,
            )].token == tokens[0]
            &&& after_ops(h, ops)[k] == h[k]
        }),
    decreases n,
{
    let table = weight_of(m.shards@[0].token_embd->0);
    let f = |i: int| seq![embed_row_op(m.config, table, stream, dst, tokens, i)];
    if n > 0 {
        let j = (n - 1) as nat;
        lemma_embed(h, m, stream, dst, tokens, j, k);
        lemma_concat(h, flat(j, f), f(j as int));
        lemma_one(
            after_ops(h, flat(j, f)),
            embed_row_op(m.config, table, stream, dst, tokens, j as int),
        );
        assert(k != (0usize, row_at(dst, j as int, m.config.hidden_size)));
        if j == 0 {
            assert(row_at(dst, 0, m.config.hidden_size) == dst);
        }
    }
}

/// A part of a run that succeeds succeeds.
proof fn lemma_prefix_ok<O, E>(i: nat, n: nat, f: spec_fn(int) -> Run<O, E>)
    requires
        i <= n,
        each(n, f).err is None,
    ensures
        each(i, f).err is None,
{
    if each(i, f).err is Some {
        lemma_each_stops(i, n, f);
    }
}

/// The lanes of a rank share no buffers: what one lane writes is not where
/// another keeps its hidden states.
pub open spec fn lanes_apart(
    s: RankForwardPrefillScratch,
    u_lanes: nat,
    u: nat,
    hidden: usize,
) -> bool {
    forall|i: int, j: int, k: int|
        0 <= i < u_lanes && 0 <= j < u_lanes && i != j && 0 <= k < u ==> {
            &&& s.spec_lane_hidden_a(j) != #[trigger] row_at(
                #[trigger] s.spec_lane_hidden_a(i),
                k,
                hidden,
            )
            &&& #[trigger] s.spec_lane_hidden_a(j) != s.spec_lane_hidden_b(i)
        }
}

/// The lane of a batch.
pub open spec fn lane_of(c: AsyncCtx, ub: nat) -> int {
    (ub % (c.u_lanes as nat)) as int
}

/// The position of a batch.
pub open spec fn position_of(c: AsyncCtx, ub: nat) -> usize {
    (c.start_position + ub * c.ubatch_size) as usize
}

/// After `steps` time steps on the ranks below `ranks` and one less on the
/// others, a batch that a rank has worked on, and whose lane has not been used
/// since, has been through the layers of the rank and of all before it.
spec fn in_flight(
    h: History,
    m: Qwen3MoEShardedModel,
    sc: Seq<RankForwardPrefillScratch>,
    c: AsyncCtx,
    n_ub: nat,
    t: nat,
    ranks: nat,
) -> bool {
    forall|r: int, ub: nat|
        0 <= r < m.shards@.len() && ub < n_ub && settled(r, ub, t, ranks, c.u_lanes as nat)
            ==> (#[trigger] h[(r as usize, sc[r].spec_lane_hidden_a(lane_of(c, ub)))]).layers
            == #[trigger] pipeline_history(m, (r + 1) as nat, position_of(c, ub))
}

/// Rank `r` has worked on batch `ub`, and on no later batch of the same lane.
spec fn settled(r: int, ub: nat, t: nat, ranks: nat, u_lanes: nat) -> bool {
    let steps = if r < ranks {
        t + 1
    } else {
        t
    };
    r + ub < steps <= r + ub + u_lanes
}

/// What makes a pipelined prefill possible.
spec fn lanes_ok(
    m: Qwen3MoEShardedModel,
    sc: Seq<RankForwardPrefillScratch>,
    tokens: Seq<u32>,
    c: AsyncCtx,
) -> bool {
    &&& 1 <= m.shards@.len() <= usize::MAX
    &&& c.u_lanes >= 2
    &&& c.ubatch_size >= 1
    &&& tokens.len() >= 1
    &&& forall|r: int|
        0 <= r < m.shards@.len() ==> lanes_apart(
            #[trigger] sc[r],
            c.u_lanes as nat,
            c.ubatch_size as nat,
            m.config.hidden_size,
        )
}

/// Two batches less than `u` apart have different lanes.
proof fn lemma_lanes_differ(a: nat, b: nat, u: nat)
    requires
        a < b < a + u,
    ensures
        a % u != b % u,
{
    let (qa, qb) = (a / u, b / u);
    vstd::arithmetic::div_mod::lemma_fundamental_div_mod(a as int, u as int);
    vstd::arithmetic::div_mod::lemma_fundamental_div_mod(b as int, u as int);
    if a % u == b % u {
        assert(b - a == u * (qb - qa)) by (nonlinear_arith)
            requires
                a == u * qa + a % u,
                b == u * qb + b % u,
                a % u == b % u,
        ;
        let d = qb - qa;
        assert(u * d <= 0 || u * d >= u) by (nonlinear_arith)
            requires
                u > 0,
        ;
    }
}

/// Rank `k` works on its batch of time step `t`.
proof fn lemma_cell(
    h: History,
    m: Qwen3MoEShardedModel,
    sc: Seq<RankForwardPrefillScratch>,
    tokens: Seq<u32>,
    c: AsyncCtx,
    t: nat,
    k: nat,
)
    requires
        lanes_ok(m, sc, tokens, c),
        k < m.shards@.len(),
        cell_run(m, sc, tokens, c, t as int, k as int).err is None,
        in_flight(h, m, sc, c, n_ubatches(tokens.len(), c.ubatch_size as nat), t, k),
    ensures
        in_flight(
            after_ops(h, cell_run(m, sc, tokens, c, t as int, k as int).ops),
            m,
            sc,
            c,
            n_ubatches(tokens.len(), c.ubatch_size as nat),
            t,
            k + 1,
        ),
{
    let n_ub = n_ubatches(tokens.len(), c.ubatch_size as nat);
    let run = cell_run(m, sc, tokens, c, t as int, k as int);
    let u = c.u_lanes as nat;
    let after = after_ops(h, run.ops);
    if scheduled(t, k, n_ub) is None {
        assert(run.ops =~= seq![]);
        assert forall|r: int, ub: nat|
            0 <= r < m.shards@.len() && ub < n_ub && settled(r, ub, t, k + 1, u) implies
            (#[trigger] after[(r as usize, sc[r].spec_lane_hidden_a(lane_of(c, ub)))]).layers
            == #[trigger] pipeline_history(m, (r + 1) as nat, position_of(c, ub)) by {
            assert(settled(r, ub, t, k, u));
        }
        return;
    }
    let ub0 = (t - k) as nat;
    let lane = lane_of(c, ub0);
    let rank = sc[k as int];
    let chain = lane_chain(m, rank, tokens.len(), c, k as int, ub0);
    let layers = m.shards@[k as int].layers@;
    let entry = lane_entry(m, sc, tokens, c, k as int, ub0);
    let ops = chain_ops(m.config, layers, chain);
    assert(run.ops == entry.ops + ops);
    lemma_concat(h, entry.ops, ops);
    let mid = after_ops(h, entry.ops);
    let here = (k as usize, chain.a);
    assert(0 <= lane < u);
    lemma_ubatch(tokens.len(), c.ubatch_size as nat, ub0);
    let part = ubatch(tokens, c.ubatch_size as nat, ub0);
    let g = |r: int| rank_history(m.shards@[r].layers@, position_of(c, ub0));
    // What comes in has been through the ranks before.
    assert(mid[here].layers == pipeline_history(m, k, position_of(c, ub0))) by {
        if k == 0 {
            let stream = StreamSel::Aux(lane as usize);
            lemma_embed(h, m, stream, chain.a, part, part.len(), (1usize, chain.a));
            assert(pipeline_history(m, 0, position_of(c, ub0)) =~= seq![]);
        } else {
            let from = k - 1;
            assert(settled(from, ub0, t, k, u));
            assert(h[(from as usize, sc[from].spec_lane_hidden_a(lane))].layers == pipeline_history(
                m,
                (from + 1) as nat,
                position_of(c, ub0),
            ));
            lemma_one(h, entry.ops[0]);
            assert(entry.ops =~= seq![entry.ops[0]]);
        }
    }
    lemma_chain(mid, m.config, layers, chain, elsewhere(chain));
    assert(after[here].layers == pipeline_history(m, (k + 1) as nat, position_of(c, ub0))) by {
        assert(flat((k + 1) as nat, g) == flat(k, g) + g(k as int));
    }
    assert forall|r: int, ub: nat|
        0 <= r < m.shards@.len() && ub < n_ub && settled(r, ub, t, k + 1, u) implies
        (#[trigger] after[(r as usize, sc[r].spec_lane_hidden_a(lane_of(c, ub)))]).layers
        == #[trigger] pipeline_history(m, (r + 1) as nat, position_of(c, ub)) by {
        let key = (r as usize, sc[r].spec_lane_hidden_a(lane_of(c, ub)));
        if r == k && ub == ub0 {
        } else {
            assert(settled(r, ub, t, k, u));
            if r == k {
                lemma_lanes_differ(ub, ub0, u);
                let j = lane_of(c, ub);
                assert(lanes_apart(rank, u, c.ubatch_size as nat, m.config.hidden_size));
                assert(rank.spec_lane_hidden_a(j) != row_at(
                    rank.spec_lane_hidden_a(lane),
                    0,
                    m.config.hidden_size,
                ));
                assert(row_at(chain.a, 0, m.config.hidden_size) == chain.a);
                assert(rank.spec_lane_hidden_a(j) != rank.spec_lane_hidden_b(lane));
            }
            assert(key != here);
            assert(key != (k as usize, chain.b));
            assert(mid[key] == h[key]) by {
                if k == 0 {
                    let stream = StreamSel::Aux(lane as usize);
                    assert forall|i: int| 0 <= i < part.len() implies key != (
                        0usize,
                        #[trigger] row_at(chain.a, i, m.config.hidden_size),
                    ) by {
                        if r == k {
                            assert(rank.spec_lane_hidden_a(lane_of(c, ub)) != row_at(
                                rank.spec_lane_hidden_a(lane),
                                i,
                                m.config.hidden_size,
                            ));
                        }
                    }
                    lemma_embed(h, m, stream, chain.a, part, part.len(), key);
                } else {
                    lemma_one(h, entry.ops[0]);
                    assert(entry.ops =~= seq![entry.ops[0]]);
                }
            }
            lemma_chain(mid, m.config, layers, chain, key);
        }
    }
}

/// The ranks below `k` do their part of time step `t`.
proof fn lemma_step(
    h: History,
    m: Qwen3MoEShardedModel,
    sc: Seq<RankForwardPrefillScratch>,
    tokens: Seq<u32>,
    c: AsyncCtx,
    t: nat,
    k: nat,
)
    requires
        lanes_ok(m, sc, tokens, c),
        k <= m.shards@.len(),
        each(k, |i: int| cell_run(m, sc, tokens, c, t as int, i)).err is None,
        in_flight(h, m, sc, c, n_ubatches(tokens.len(), c.ubatch_size as nat), t, 0),
    ensures
        in_flight(
            after_ops(h, each(k, |i: int| cell_run(m, sc, tokens, c, t as int, i)).ops),
            m,
            sc,
            c,
            n_ubatches(tokens.len(), c.ubatch_size as nat),
            t,
            k,
        ),
    decreases k,
{
    let f = |i: int| cell_run(m, sc, tokens, c, t as int, i);
    if k == 0 {
        assert(each(k, f).ops =~= seq![]);
    } else {
        let j = (k - 1) as nat;
        assert(each(j, f).err is None);
        assert(f(j as int).err is None);
        lemma_step(h, m, sc, tokens, c, t, j);
        lemma_concat(h, each(j, f).ops, f(j as int).ops);
        lemma_cell(after_ops(h, each(j, f).ops), m, sc, tokens, c, t, j);
    }
}

/// The first `t` time steps.
proof fn lemma_steps(
    h: History,
    m: Qwen3MoEShardedModel,
    sc: Seq<RankForwardPrefillScratch>,
    tokens: Seq<u32>,
    c: AsyncCtx,
    t: nat,
)
    requires
        lanes_ok(m, sc, tokens, c),
        each(t, |i: int| step_run(m, sc, tokens, c, i)).err is None,
    ensures
        in_flight(
            after_ops(h, each(t, |i: int| step_run(m, sc, tokens, c, i)).ops),
            m,
            sc,
            c,
            n_ubatches(tokens.len(), c.ubatch_size as nat),
            t,
            0,
        ),
    decreases t,
{
    let f = |i: int| step_run(m, sc, tokens, c, i);
    let n_ub = n_ubatches(tokens.len(), c.ubatch_size as nat);
    if t > 0 {
        let j = (t - 1) as nat;
        assert(each(j, f).err is None);
        assert(f(j as int).err is None);
        lemma_steps(h, m, sc, tokens, c, j);
        let before = after_ops(h, each(j, f).ops);
        lemma_concat(h, each(j, f).ops, f(j as int).ops);
        lemma_step(before, m, sc, tokens, c, j, m.shards@.len());
        let after = after_ops(h, each(t, f).ops);
        assert(in_flight(after, m, sc, c, n_ub, j, m.shards@.len()));
        assert forall|r: int, ub: nat|
            0 <= r < m.shards@.len() && ub < n_ub && settled(r, ub, t, 0, c.u_lanes as nat) implies
            (#[trigger] after[(r as usize, sc[r].spec_lane_hidden_a(lane_of(c, ub)))]).layers
            == #[trigger] pipeline_history(m, (r + 1) as nat, position_of(c, ub)) by {
            assert(settled(r, ub, j, m.shards@.len(), c.u_lanes as nat));
        }
    }
}

/// In a pipelined prefill whose lanes share no buffers every batch goes through
/// the layers of all ranks in order, at its own position: after the time steps
/// that the batch needs it is in its lane of the last rank.
pub proof fn law_async_batch_runs_all_layers(
    h: History,
    m: Qwen3MoEShardedModel,
    sc: Seq<RankForwardPrefillScratch>,
    tokens: Seq<u32>,
    start_position: usize,
    ubatch_size: usize,
    ub: nat,
)
    requires
        m.shards@.len() <= usize::MAX,
        sc.len() > 0 && sc[0].spec_u_lanes() <= usize::MAX,
        async_run(m, sc, tokens, start_position, ubatch_size).err is None,
        forall|r: int|
            0 <= r < m.shards@.len() ==> lanes_apart(
                #[trigger] sc[r],
                sc[0].spec_u_lanes(),
                ubatch_size as nat,
                m.config.hidden_size,
            ),
        ub < n_ubatches(tokens.len(), ubatch_size as nat),
    ensures
        ({
            let c = AsyncCtx {
                start_position,
                ubatch_size,
                u_lanes: sc[0].spec_u_lanes() as usize,
            };
            let n = m.shards@.len();
            let steps = each((n + ub) as nat, |i: int| step_run(m, sc, tokens, c, i));
            after_ops(after_ops(h, reserve_ops(m, c)), steps.ops)[(
                (n - 1) as usize,
                sc[n - 1].spec_lane_hidden_a(lane_of(c, ub)),
            )].layers == pipeline_history(m, n, position_of(c, ub))
        }),
{
    let c = AsyncCtx { start_position, ubatch_size, u_lanes: sc[0].spec_u_lanes() as usize };
    let n = m.shards@.len();
    let f = |i: int| step_run(m, sc, tokens, c, i);
    let n_ub = n_ubatches(tokens.len(), ubatch_size as nat);
    assert(each((n + n_ub - 1) as nat, f).err is None);
    lemma_prefix_ok((n + ub) as nat, (n + n_ub - 1) as nat, f);
    let ready = after_ops(h, reserve_ops(m, c));
    lemma_steps(ready, m, sc, tokens, c, (n + ub) as nat);
    let last = n - 1;
    assert(settled(last, ub, (n + ub) as nat, 0, c.u_lanes as nat));
    let after = after_ops(ready, each((n + ub) as nat, f).ops);
    assert(after[(last as usize, sc[last].spec_lane_hidden_a(lane_of(c, ub)))].layers
        == pipeline_history(m, (last + 1) as nat, position_of(c, ub)));
}

proof fn lemma_batch_ranks(
    h: History,
    m: Qwen3MoEShardedModel,
    sc: Seq<RankForwardPrefillScratch>,
    l: nat,
    position: usize,
    n: nat,
)
    requires
        1 <= n <= m.shards@.len() <= usize::MAX,
        each(n, |i: int| batch_rank_run(m, sc, l, position, i)).err is None,
    ensures
        after_ops(h, each(n, |i: int| batch_rank_run(m, sc, l, position, i)).ops)[(
            (n - 1) as usize,
            sc[n - 1].hidden_a,
        )] == went(h[(0usize, sc[0].hidden_a)], pipeline_history(m, n, position)),
    decreases n,
{
    let f = |i: int| batch_rank_run(m, sc, l, position, i);
    let k = n - 1;
    let kn = k as nat;
    let before = each(kn, f);
    assert(before.err is None);
    let run = f(k);
    assert(run.err is None);
    let hand = batch_handoff(m, sc, l, k);
    let c = batch_chain(m, sc[k], l, position, k);
    let chain = chain_ops(m.config, m.shards@[k].layers@, c);
    assert(run.ops == hand + chain);
    assert(each(n, f).ops == before.ops + run.ops);
    lemma_concat(h, before.ops, run.ops);
    let h1 = after_ops(h, before.ops);
    lemma_concat(h1, hand, chain);
    let h2 = after_ops(h1, hand);
    lemma_chain(h2, m.config, m.shards@[k].layers@, c, elsewhere(c));
    let g = |r: int| rank_history(m.shards@[r].layers@, position);
    let first = h[(0usize, sc[0].hidden_a)];
    assert(pipeline_history(m, n, position) == pipeline_history(m, kn, position) + g(k));
    assert(went(went(first, pipeline_history(m, kn, position)), g(k)) =~= went(
        first,
        pipeline_history(m, n, position),
    ));
    if k > 0 {
        lemma_batch_ranks(h, m, sc, l, position, kn);
        lemma_one(h1, hand[0]);
        assert(hand =~= seq![hand[0]]);
    } else {
        assert(before.ops =~= seq![]);
        assert(hand =~= seq![]);
        assert(went(first, pipeline_history(m, kn, position)) =~= first);
    }
}

/// The LM head and what becomes of the logits leave the hidden states alone.
pub proof fn lemma_head_keeps(h: History, ops: Seq<Op>)
    requires
        forall|i: int|
            0 <= i < ops.len() ==> (#[trigger] ops[i] is OutputHead || ops[i] is DownloadLogits
                || ops[i] is Argmax),
    ensures
        after_ops(h, ops) == h,
    decreases ops.len(),
{
    if ops.len() > 0 {
        assert forall|i: int| 0 <= i < ops.drop_last().len() implies (
        #[trigger] ops.drop_last()[i] is OutputHead || ops.drop_last()[i] is DownloadLogits
            || ops.drop_last()[i] is Argmax) by {
            assert(ops.drop_last()[i] == ops[i]);
        }
        lemma_head_keeps(h, ops.drop_last());
        assert(ops.last() == ops[ops.len() - 1]);
    }
}

/// A batch that a pipeline takes to the LM head has been through the layers of
/// all ranks, in the order of the ranks, at its position; where its rows do not
/// overlap, its first row comes from its first token.
pub proof fn law_batch_runs_all_layers(
    h: History,
    m: Qwen3MoEShardedModel,
    sc: Seq<RankForwardPrefillScratch>,
    tokens: Seq<u32>,
    position: usize,
    sink: PpLogitsSink,
)
    requires
        m.shards@.len() <= usize::MAX,
        prefill_pp_run(m, sc, tokens, position, sink).err is None,
    ensures
        ({
            let row = after_ops(h, prefill_pp_run(m, sc, tokens, position, sink).ops)[(
                (m.shards@.len() - 1) as usize,
                sc[m.shards@.len() - 1].hidden_a,
            )];
            &&& row.layers == pipeline_history(m, m.shards@.len(), position)
            &&& rows_apart(sc[0].hidden_a, tokens.len(), m.config.hidden_size) ==> row.token
                == tokens[0]
        }),
{
    let n = m.shards@.len();
    let stream = StreamSel::Default;
    let em = embed_rows(m, stream, sc[0].hidden_a, tokens);
    let rk = each(n, |i: int| batch_rank_run(m, sc, tokens.len(), position, i));
    let hd = pp_head_run(
        m,
        sc[n - 1].output_head is Some,
        row_at(sc[n - 1].hidden_a, tokens.len() - 1, m.config.hidden_size),
        sink,
    );
    let run = prefill_pp_run(m, sc, tokens, position, sink);
    assert(em.err is None && rk.err is None && hd.err is None);
    assert(run.ops == em.ops + (rk.ops + hd.ops));
    lemma_concat(h, em.ops, rk.ops + hd.ops);
    let h1 = after_ops(h, em.ops);
    lemma_embed(h, m, stream, sc[0].hidden_a, tokens, tokens.len(), (1usize, sc[0].hidden_a));
    lemma_concat(h1, rk.ops, hd.ops);
    lemma_batch_ranks(h1, m, sc, tokens.len(), position, n);
    assert(h1[(0usize, sc[0].hidden_a)].layers + pipeline_history(m, n, position)
        =~= pipeline_history(m, n, position));
    lemma_head_keeps(after_ops(h1, rk.ops), hd.ops);
}

pub proof fn lemma_token_ranks(
    h: History,
    m: Qwen3MoEShardedModel,
    sc: Seq<RankForwardScratch>,
    mode: PeerMode,
    position: usize,
    n: nat,
)
    requires
        1 <= n,
        n <= m.shards@.len() <= usize::MAX,
        each(n, |i: int| token_rank_run(m, sc, mode, position, i)).err is None,
    ensures
        after_ops(h, each(n, |i: int| token_rank_run(m, sc, mode, position, i)).ops)[(
            (n - 1) as usize,
            sc[n - 1].hidden_a,
        )] == went(h[(0usize, sc[0].hidden_a)], pipeline_history(m, n, position)),
    decreases n,
{
    let f = |i: int| token_rank_run(m, sc, mode, position, i);
    let k = n - 1;
    let kn = k as nat;
    let before = each(kn, f);
    assert(each(n, f).err is None);
    assert(before.err is None);
    let run = f(k);
    assert(run.err is None);
    let hand = token_handoff(m, sc, mode, k);
    let c = token_chain(m, sc[k], position, k);
    let chain = chain_ops(m.config, m.shards@[k].layers@, c);
    assert(run.ops == hand + chain);
    assert(each(n, f).ops == before.ops + run.ops);
    lemma_concat(h, before.ops, run.ops);
    let h1 = after_ops(h, before.ops);
    lemma_concat(h1, hand, chain);
    let h2 = after_ops(h1, hand);
    law_chain_ends_in_first_buffer(h2, m.config, m.shards@[k].layers@, c);
    let g = |r: int| rank_history(m.shards@[r].layers@, position);
    let first = h[(0usize, sc[0].hidden_a)];
    assert(pipeline_history(m, n, position) == pipeline_history(m, kn, position) + g(k));
    assert(went(went(first, pipeline_history(m, kn, position)), g(k)) =~= went(
        first,
        pipeline_history(m, n, position),
    ));
    if k > 0 {
        lemma_token_ranks(h, m, sc, mode, position, kn);
        lemma_one(h1, hand[0]);
        assert(hand =~= seq![hand[0]]);
    } else {
        assert(before.ops =~= seq![]);
        assert(hand =~= seq![]);
        assert(went(first, pipeline_history(m, kn, position)) =~= first);
    }
}

/// A token that a pipeline takes to the LM head has been through the layers of
/// all ranks, in the order of the ranks and within a rank in the rank's order, at its
/// position.
pub proof fn law_pipeline_runs_all_layers(
    h: History,
    m: Qwen3MoEShardedModel,
    sc: Seq<RankForwardScratch>,
    mode: PeerMode,
    token: u32,
    position: usize,
    sink: PpLogitsSink,
)
    requires
        1 <= m.shards@.len() <= usize::MAX,
        one_token_pp_run(m, sc, mode, token, position, sink).err is None,
    ensures
        after_ops(h, one_token_pp_run(m, sc, mode, token, position, sink).ops)[(
            (m.shards@.len() - 1) as usize,
            sc[m.shards@.len() - 1].hidden_a,
        )] == (Row { token, layers: pipeline_history(m, m.shards@.len(), position) }),
{
    let n = m.shards@.len();
    let run = one_token_pp_run(m, sc, mode, token, position, sink);
    let em = token_embed_run(m, sc, token);
    let rk = each(n, |i: int| token_rank_run(m, sc, mode, position, i));
    let hd = pp_head_run(
        m,
        sc[n - 1].output_head is Some,
        sc[n - 1].hidden_a,
        sink,
    );
    assert(em.err is None && rk.err is None && hd.err is None);
    assert(run.ops == em.ops + (rk.ops + hd.ops));
    lemma_concat(h, em.ops, rk.ops + hd.ops);
    let h1 = after_ops(h, em.ops);
    lemma_one(h, em.ops[0]);
    assert(em.ops =~= seq![em.ops[0]]);
    let start = Row { token, layers: seq![] };
    assert(h1[(0usize, sc[0].hidden_a)] == start);
    assert(went(start, pipeline_history(m, n, position)) =~= Row {
        token,
        layers: pipeline_history(m, n, position),
    });
    lemma_concat(h1, rk.ops, hd.ops);
    lemma_token_ranks(h1, m, sc, mode, position, n);
    let h2 = after_ops(h1, rk.ops);
    lemma_head_keeps(h2, hd.ops);
}

/// A token that a single device takes to the LM head has been through all layers
/// in their order, at its position, and the head reads the buffer that it is in.
pub proof fn law_device_runs_all_layers(
    h: History,
    cfg: Qwen3MoEConfig,
    w: ModelWeights,
    s: ForwardOneTokenScratch,
    token: u32,
    position: usize,
)
    requires
        one_token_device_run(cfg, w, s, token, position).err is None,
    ensures
        after_ops(h, one_token_device_run(cfg, w, s, token, position).ops)[(
            0usize,
            x_at(s.hidden_a, s.hidden_b, w.layers@.len() as int),
        )] == (Row { token, layers: rank_history(w.layers@, position) }),
{
    let run = one_token_device_run(cfg, w, s, token, position);
    let c = device_chain(Pass::Decode, s.hidden_a, s.hidden_b, 1, position);
    let em = Op::Embed {
        rank: 0,
        stream: StreamSel::Default,
        table: weight_of(w.token_embd),
        token,
        dst: s.hidden_a,
        hidden: cfg.hidden_size,
    };
    let ly = layers_ops(cfg, w, c);
    let x = x_at(s.hidden_a, s.hidden_b, w.layers@.len() as int);
    let hd = device_head_run(
        cfg,
        w,
        s.output_head is Some,
        x,
        ForwardError::OneTokenNoHead,
    );
    assert(run.ops == seq![em] + (ly + hd.ops));
    lemma_concat(h, seq![em], ly + hd.ops);
    lemma_one(h, em);
    let h1 = after_ops(h, seq![em]);
    lemma_concat(h1, ly, hd.ops);
    let n = w.layers@.len();
    let layers = w.layers@;
    lemma_layers(h1, cfg, layers, c, n, elsewhere(c));
    let f = |i: int| seq![layer_op(cfg, layers, c, i)];
    assert(ly == flat(n, f));
    assert(rank_history(layers, position).take(n as int) =~= rank_history(layers, position));
    assert(went(Row { token, layers: seq![] }, rank_history(layers, position)) =~= Row {
        token,
        layers: rank_history(layers, position),
    });
    lemma_head_keeps(after_ops(h1, ly), hd.ops);
}

} // verus!
