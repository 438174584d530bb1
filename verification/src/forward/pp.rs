//! Pipeline-parallel forward passes.
//!
//! Every rank runs its own layers and hands the hidden state to the next rank.
//! Within a rank the hidden state goes back and forth between two buffers and
//! ends in the first.

use crate::config::Qwen3MoEConfig;
use crate::device::{push_rank_frees, rank_frees, DevicePtr, Free, RankFree, RankId};
use crate::forward::op::{weight, weight_of, ForwardError, Op, Pass, PeerMode, StreamSel, Weight};
use crate::forward::tp::{row_at, row_ptr, rows_fit, LayerScratch, OutputHeadScratch};
use crate::plan::{
    done, each, fail, flat, lemma_each_stops, lemma_flat_same, lemma_ran_then2, ran, then2, Run,
};
use crate::sharded::{Qwen3MoERankShard, Qwen3MoEShardedModel, Qwen3MoEShardedSession};
use crate::weights::LayerWeights;
use vstd::prelude::*;

verus! {

type OpRun = Run<Op, ForwardError>;

/// Working memory of a pipeline rank for one token. Only the last rank has
/// working memory for the LM head.
#[derive(Debug, Clone, Copy, PartialEq, Eq, Structural)]
pub struct RankForwardScratch {
    pub rank: RankId,
    pub device_id: i32,
    pub hidden_a: DevicePtr,
    pub hidden_b: DevicePtr,
    pub layer: Option<LayerScratch>,
    pub output_head: Option<OutputHeadScratch>,
    pub hidden_bytes: usize,
    pub disposed: bool,
}

/// Working memory of a pipeline for one token.
#[derive(Debug)]
pub struct ShardedForwardOneTokenScratch {
    pub per_rank: Vec<RankForwardScratch>,
}

/// One of several sets of buffers, so that batches in flight do not share any.
#[derive(Debug, Clone, Copy, PartialEq, Eq, Structural)]
pub struct UbatchLane {
    pub hidden_a: DevicePtr,
    pub hidden_b: DevicePtr,
    pub layer: LayerScratch,
    pub hidden_bytes: usize,
}

/// Working memory of a pipeline rank for up to `max_tokens` tokens. The first
/// lane is made of the direct fields.
#[derive(Debug)]
pub struct RankForwardPrefillScratch {
    pub rank: RankId,
    pub device_id: i32,
    pub max_tokens: usize,
    pub hidden_a: DevicePtr,
    pub hidden_b: DevicePtr,
    pub layer: Option<LayerScratch>,
    pub output_head: Option<OutputHeadScratch>,
    pub extra_lanes: Vec<UbatchLane>,
    /// For each recurrent layer of the rank a row that keeps its last input.
    pub gdn_input_snapshots: Vec<Option<DevicePtr>>,
    pub gdn_decode: bool,
    pub hidden_bytes: usize,
    pub snapshot_row_bytes: usize,
    pub disposed: bool,
}

/// Working memory of a pipeline for up to `max_tokens` tokens.
#[derive(Debug)]
pub struct ShardedForwardPrefillScratch {
    pub per_rank: Vec<RankForwardPrefillScratch>,
}

/// What happens to the logits on the last rank.
#[derive(Debug, Clone, Copy, PartialEq, Eq, Structural)]
pub enum PpLogitsSink {
    Host,
    Argmax,
    KeepOnDevice,
}

/// The buffer that holds the hidden state after `i` layers.
pub open spec fn x_at(a: DevicePtr, b: DevicePtr, i: int) -> DevicePtr {
    if i % 2 == 0 {
        a
    } else {
        b
    }
}

/// How a rank runs its layers.
#[derive(Debug, Clone, Copy, PartialEq, Eq, Structural)]
pub struct Chain {
    pub rank: usize,
    pub stream: StreamSel,
    pub pass: Pass,
    pub a: DevicePtr,
    pub b: DevicePtr,
    pub n_tokens: usize,
    pub position: usize,
    /// Bytes of the hidden state.
    pub bytes: usize,
    /// Several lanes are in flight: steps on recurrent states are ordered.
    pub lanes: bool,
}

/// Layer `i` of a rank.
pub open spec fn layer_op(cfg: Qwen3MoEConfig, layers: Seq<LayerWeights>, c: Chain, i: int) -> Op {
    Op::Layer {
        rank: c.rank,
        stream: c.stream,
        local: i as usize,
        layer: layers[i].layer_idx,
        pass: c.pass,
        x: x_at(c.a, c.b, i),
        out: x_at(c.a, c.b, i + 1),
        n_tokens: c.n_tokens,
        position: c.position,
        ordered: c.lanes && cfg.spec_is_recurrent(layers[i].layer_idx as nat),
    }
}

/// The hidden state is copied to the first buffer where it is in the other.
pub open spec fn back_ops(c: Chain, n: nat) -> Seq<Op> {
    if x_at(c.a, c.b, n as int) != c.a {
        seq![
            Op::Copy {
                rank: c.rank,
                stream: c.stream,
                dst: c.a,
                src: x_at(c.a, c.b, n as int),
                bytes: c.bytes,
            },
        ]
    } else {
        seq![]
    }
}

/// All layers of a rank.
pub open spec fn chain_ops(cfg: Qwen3MoEConfig, layers: Seq<LayerWeights>, c: Chain) -> Seq<Op> {
    flat(layers.len(), |i: int| seq![layer_op(cfg, layers, c, i)]) + back_ops(c, layers.len())
}

fn x_ptr(c: Chain, i: usize) -> (p: DevicePtr)
    ensures
        p == x_at(c.a, c.b, i as int),
{
    if i % 2 == 0 {
        c.a
    } else {
        c.b
    }
}

fn x_next(c: Chain, i: usize) -> (p: DevicePtr)
    ensures
        p == x_at(c.a, c.b, i + 1),
{
    if i % 2 == 0 {
        c.b
    } else {
        c.a
    }
}

fn push_layer(
    cfg: &Qwen3MoEConfig,
    layers: &Vec<LayerWeights>,
    c: Chain,
    i: usize,
    out: &mut Vec<Op>,
)
    requires
        i < layers@.len(),
    ensures
        final(out)@ == old(out)@ + seq![layer_op(*cfg, layers@, c, i as int)],
{
    let layer: usize = layers[i].layer_idx;
    out.push(
        Op::Layer {
            rank: c.rank,
            stream: c.stream,
            local: i,
            layer,
            pass: c.pass,
            x: x_ptr(c, i),
            out: x_next(c, i),
            n_tokens: c.n_tokens,
            position: c.position,
            ordered: c.lanes && cfg.is_recurrent(layer),
        },
    );
    proof {
        assert(out@ =~= old(out)@ + seq![layer_op(*cfg, layers@, c, i as int)]);
    }
}

fn push_back(c: Chain, n: usize, out: &mut Vec<Op>)
    ensures
        final(out)@ == old(out)@ + back_ops(c, n as nat),
{
    let x = x_ptr(c, n);
    if x != c.a {
        out.push(
            Op::Copy { rank: c.rank, stream: c.stream, dst: c.a, src: x, bytes: c.bytes },
        );
    }
    proof {
        assert(out@ =~= old(out)@ + back_ops(c, n as nat));
    }
}

pub(crate) fn push_layers(
    cfg: &Qwen3MoEConfig,
    layers: &Vec<LayerWeights>,
    c: Chain,
    out: &mut Vec<Op>,
)
    ensures
        final(out)@ == old(out)@ + flat(
            layers@.len(),
            |i: int| seq![layer_op(*cfg, layers@, c, i)],
        ),
{
    let ghost base = out@;
    let ghost f = |i: int| seq![layer_op(*cfg, layers@, c, i)];
    let n: usize = layers.len();
    let mut i: usize = 0;
    proof {
        assert(out@ =~= base + flat(0, f));
    }
    while i < n
        invariant
            i <= n,
            n == layers.len(),
            base == old(out)@,
            f == (|i: int| seq![layer_op(*cfg, layers@, c, i)]),
            out@ == base + flat(i as nat, f),
            n == layers@.len(),
        decreases n - i,
    {
        let ghost mid = out@;
        push_layer(cfg, layers, c, i, out);
        proof {
            assert(out@ =~= mid + f(i as int));
            assert(out@ =~= base + flat((i + 1) as nat, f));
        }
        i = i + 1;
    }
}

fn push_chain(cfg: &Qwen3MoEConfig, layers: &Vec<LayerWeights>, c: Chain, out: &mut Vec<Op>)
    ensures
        final(out)@ == old(out)@ + chain_ops(*cfg, layers@, c),
{
    push_layers(cfg, layers, c, out);
    push_back(c, layers.len(), out);
    proof {
        let ls = layers@;
        let f = |i: int| seq![layer_op(*cfg, ls, c, i)];
        assert(chain_ops(*cfg, ls, c) == flat(ls.len(), f) + back_ops(c, ls.len()));
        assert(out@ =~= old(out)@ + chain_ops(*cfg, ls, c));
    }
}

/// The weights of the LM head of a rank: its own, or the embedding.
pub open spec fn head_weights(s: Qwen3MoERankShard) -> Result<(Weight, Weight), ForwardError> {
    match s.output_norm {
        None => Err(ForwardError::NoOutputNorm),
        Some(norm) => match s.output {
            Some(w) => Ok((weight_of(norm), weight_of(w))),
            None => match s.token_embd {
                Some(w) => Ok((weight_of(norm), weight_of(w))),
                None => Err(ForwardError::NoLmHead),
            },
        },
    }
}

fn find_head(s: &Qwen3MoERankShard) -> (r: Result<(Weight, Weight), ForwardError>)
    ensures
        r == head_weights(*s),
{
    let norm = match &s.output_norm {
        Some(t) => weight(t),
        None => {
            return Err(ForwardError::NoOutputNorm);
        },
    };
    match &s.output {
        Some(t) => Ok((norm, weight(t))),
        None => match &s.token_embd {
            Some(t) => Ok((norm, weight(t))),
            None => Err(ForwardError::NoLmHead),
        },
    }
}

/// What becomes of the logits.
pub open spec fn sink_ops(rank: usize, sink: PpLogitsSink, vocab: usize) -> Seq<Op> {
    match sink {
        PpLogitsSink::Host => seq![Op::DownloadLogits { rank, slot: 0, vocab }],
        PpLogitsSink::Argmax => seq![Op::Argmax { rank, vocab }],
        PpLogitsSink::KeepOnDevice => seq![],
    }
}

/// The LM head on the row `x` of the last rank.
pub open spec fn pp_head_run(
    m: Qwen3MoEShardedModel,
    has_scratch: bool,
    x: DevicePtr,
    sink: PpLogitsSink,
) -> OpRun {
    let last = m.shards@.len() - 1;
    match head_weights(m.shards@[last]) {
        Err(e) => fail(e),
        Ok(w) => if !has_scratch {
            fail(ForwardError::NoHeadScratch)
        } else {
            done(
                seq![
                    Op::OutputHead { rank: last as usize, norm: w.0, lm_head: w.1, x },
                ] + sink_ops(last as usize, sink, m.config.vocab_size),
            )
        },
    }
}

fn pp_head_part(
    m: &Qwen3MoEShardedModel,
    with_scratch: bool,
    x: DevicePtr,
    sink: PpLogitsSink,
    out: &mut Vec<Op>,
) -> (res: Result<(), ForwardError>)
    requires
        m.shards@.len() >= 1,
    ensures
        ran(old(out)@, final(out)@, res, pp_head_run(*m, with_scratch, x, sink)),
{
    let last: usize = m.shards.len() - 1;
    proof {
        assert(out@ =~= out@ + Seq::<Op>::empty());
    }
    let w = match find_head(&m.shards[last]) {
        Ok(w) => w,
        Err(e) => {
            return Err(e);
        },
    };
    if !with_scratch {
        return Err(ForwardError::NoHeadScratch);
    }
    out.push(Op::OutputHead { rank: last, norm: w.0, lm_head: w.1, x });
    match sink {
        PpLogitsSink::Host => {
            out.push(Op::DownloadLogits { rank: last, slot: 0, vocab: m.config.vocab_size });
        },
        PpLogitsSink::Argmax => {
            out.push(Op::Argmax { rank: last, vocab: m.config.vocab_size });
        },
        PpLogitsSink::KeepOnDevice => {},
    }
    proof {
        assert(out@ =~= old(out)@ + pp_head_run(*m, with_scratch, x, sink).ops);
    }
    Ok(())
}

/// The chain of rank `r` for one token.
pub open spec fn token_chain(
    m: Qwen3MoEShardedModel,
    s: RankForwardScratch,
    position: usize,
    r: int,
) -> Chain {
    Chain {
        rank: r as usize,
        stream: StreamSel::Default,
        pass: Pass::Decode,
        a: s.hidden_a,
        b: s.hidden_b,
        n_tokens: 1,
        position,
        bytes: (m.config.hidden_size * 2) as usize,
        lanes: false,
    }
}

/// The hidden state of the rank before `r` is handed to rank `r`.
pub open spec fn token_handoff(
    m: Qwen3MoEShardedModel,
    sc: Seq<RankForwardScratch>,
    mode: PeerMode,
    r: int,
) -> Seq<Op> {
    if r > 0 {
        seq![
            Op::PeerCopy {
                mode,
                dst_rank: r as usize,
                dst: sc[r].hidden_a,
                src_rank: (r - 1) as usize,
                src: sc[r - 1].hidden_a,
                bytes: (m.config.hidden_size * 2) as usize,
            },
        ]
    } else {
        seq![]
    }
}

/// Rank `r` for one token.
pub open spec fn token_rank_run(
    m: Qwen3MoEShardedModel,
    sc: Seq<RankForwardScratch>,
    mode: PeerMode,
    position: usize,
    r: int,
) -> OpRun {
    then2(
        done(token_handoff(m, sc, mode, r)),
        if sc[r].layer is None {
            fail(ForwardError::NoRankLayerScratch)
        } else {
            done(chain_ops(m.config, m.shards@[r].layers@, token_chain(m, sc[r], position, r)))
        },
    )
}

/// Rank 0 embeds the token.
pub open spec fn token_embed_run(
    m: Qwen3MoEShardedModel,
    sc: Seq<RankForwardScratch>,
    token: u32,
) -> OpRun {
    match m.shards@[0].token_embd {
        None => fail(ForwardError::NoTokenEmbd),
        Some(t) => done(
            seq![
                Op::Embed {
                    rank: 0,
                    stream: StreamSel::Default,
                    table: weight_of(t),
                    token,
                    dst: sc[0].hidden_a,
                    hidden: m.config.hidden_size,
                },
            ],
        ),
    }
}

/// One token through the whole pipeline.
pub open spec fn one_token_pp_run(
    m: Qwen3MoEShardedModel,
    sc: Seq<RankForwardScratch>,
    mode: PeerMode,
    token: u32,
    position: usize,
    sink: PpLogitsSink,
) -> OpRun {
    let n = m.shards@.len();
    if n == 0 {
        fail(ForwardError::ZeroRanksOneToken)
    } else {
        then2(
            token_embed_run(m, sc, token),
            then2(
                each(n, |i: int| token_rank_run(m, sc, mode, position, i)),
                pp_head_run(
                    m,
                    sc[n - 1].output_head is Some,
                    sc[n - 1].hidden_a,
                    sink,
                ),
            ),
        )
    }
}

fn token_embed_part(
    m: &Qwen3MoEShardedModel,
    sc: &Vec<RankForwardScratch>,
    token: u32,
    out: &mut Vec<Op>,
) -> (res: Result<(), ForwardError>)
    requires
        m.shards@.len() >= 1,
        sc@.len() >= 1,
    ensures
        ran(old(out)@, final(out)@, res, token_embed_run(*m, sc@, token)),
{
    match &m.shards[0].token_embd {
        None => {
            proof {
                assert(out@ =~= old(out)@ + Seq::<Op>::empty());
            }
            Err(ForwardError::NoTokenEmbd)
        },
        Some(t) => {
            let op = Op::Embed {
                rank: 0,
                stream: StreamSel::Default,
                table: weight(t),
                token,
                dst: sc[0].hidden_a,
                hidden: m.config.hidden_size,
            };
            out.push(op);
            proof {
                assert(out@ =~= old(out)@ + seq![op]);
            }
            Ok(())
        },
    }
}

fn token_rank_part(
    m: &Qwen3MoEShardedModel,
    sc: &Vec<RankForwardScratch>,
    mode: PeerMode,
    position: usize,
    r: usize,
    out: &mut Vec<Op>,
) -> (res: Result<(), ForwardError>)
    requires
        r < m.shards@.len(),
        m.shards@.len() <= sc@.len(),
        m.config.hidden_size * 2 <= usize::MAX,
    ensures
        ran(old(out)@, final(out)@, res, token_rank_run(*m, sc@, mode, position, r as int)),
{
    let bytes: usize = m.config.hidden_size * 2;
    let s: RankForwardScratch = sc[r];
    let ghost m0 = out@;
    if r > 0 {
        out.push(
            Op::PeerCopy {
                mode,
                dst_rank: r,
                dst: s.hidden_a,
                src_rank: r - 1,
                src: sc[r - 1].hidden_a,
                bytes,
            },
        );
    }
    let ghost m1 = out@;
    let ghost hand = done::<Op, ForwardError>(token_handoff(*m, sc@, mode, r as int));
    proof {
        assert(m1 =~= m0 + hand.ops);
        assert(m1 =~= m1 + Seq::<Op>::empty());
    }
    if s.layer.is_none() {
        proof {
            lemma_ran_then2(
                m0,
                m1,
                out@,
                Err(ForwardError::NoRankLayerScratch),
                hand,
                fail(ForwardError::NoRankLayerScratch),
            );
        }
        return Err(ForwardError::NoRankLayerScratch);
    }
    let c = Chain {
        rank: r,
        stream: StreamSel::Default,
        pass: Pass::Decode,
        a: s.hidden_a,
        b: s.hidden_b,
        n_tokens: 1,
        position,
        bytes,
        lanes: false,
    };
    push_chain(&m.config, &m.shards[r].layers, c, out);
    proof {
        lemma_ran_then2(
            m0,
            m1,
            out@,
            Ok(()),
            hand,
            done(chain_ops(m.config, m.shards@[r as int].layers@, c)),
        );
    }
    Ok(())
}

fn token_ranks_all(
    m: &Qwen3MoEShardedModel,
    sc: &Vec<RankForwardScratch>,
    mode: PeerMode,
    position: usize,
    out: &mut Vec<Op>,
) -> (res: Result<(), ForwardError>)
    requires
        m.shards@.len() <= sc@.len(),
        m.config.hidden_size * 2 <= usize::MAX,
    ensures
        ran(
            old(out)@,
            final(out)@,
            res,
            each(m.shards@.len(), |i: int| token_rank_run(*m, sc@, mode, position, i)),
        ),
{
    let ghost base = out@;
    let ghost f = |i: int| token_rank_run(*m, sc@, mode, position, i);
    let n: usize = m.shards.len();
    let mut i: usize = 0;
    proof {
        assert(out@ =~= base + each(0, f).ops);
    }
    while i < n
        invariant
            i <= n,
            n == m.shards.len(),
            base == old(out)@,
            f == (|i: int| token_rank_run(*m, sc@, mode, position, i)),
            ran(base, out@, Ok::<(), ForwardError>(()), each(i as nat, f)),
            n == m.shards@.len(),
            m.shards@.len() <= sc@.len(),
            m.config.hidden_size * 2 <= usize::MAX,
        decreases n - i,
    {
        let ghost mid = out@;
        match token_rank_part(m, sc, mode, position, i, out) {
            Ok(_) => {
                proof {
                    lemma_ran_then2(base, mid, out@, Ok(()), each(i as nat, f), f(i as int));
                }
            },
            Err(e) => {
                proof {
                    lemma_ran_then2(base, mid, out@, Err(e), each(i as nat, f), f(i as int));
                    lemma_each_stops((i + 1) as nat, n as nat, f);
                }
                return Err(e);
            },
        }
        i = i + 1;
    }
    Ok(())
}

/// One token through the whole pipeline.
pub fn forward_one_token_pp_inner(
    model: &Qwen3MoEShardedModel,
    scratch: &ShardedForwardOneTokenScratch,
    mode: PeerMode,
    token_id: u32,
    position: usize,
    sink: PpLogitsSink,
    out: &mut Vec<Op>,
) -> (res: Result<(), ForwardError>)
    requires
        model.shards@.len() <= scratch.per_rank@.len(),
        model.config.hidden_size * 2 <= usize::MAX,
    ensures
        ran(
            old(out)@,
            final(out)@,
            res,
            one_token_pp_run(*model, scratch.per_rank@, mode, token_id, position, sink),
        ),
{
    let n: usize = model.shards.len();
    if n == 0 {
        proof {
            assert(out@ =~= out@ + Seq::<Op>::empty());
        }
        return Err(ForwardError::ZeroRanksOneToken);
    }
    let sc = &scratch.per_rank;
    let last: RankForwardScratch = sc[n - 1];
    let ghost em = token_embed_run(*model, sc@, token_id);
    let ghost rk = each(
        n as nat,
        |i: int| token_rank_run(*model, sc@, mode, position, i),
    );
    let ghost hd = pp_head_run(*model, last.output_head is Some, last.hidden_a, sink);
    let ghost m0 = out@;
    match token_embed_part(model, sc, token_id, out) {
        Ok(_) => {},
        Err(e) => {
            return Err(e);
        },
    }
    let ghost m1 = out@;
    match token_ranks_all(model, sc, mode, position, out) {
        Ok(_) => {},
        Err(e) => {
            proof {
                lemma_ran_then2(m0, m1, out@, Err(e), em, then2(rk, hd));
            }
            return Err(e);
        },
    }
    let ghost m2 = out@;
    let outcome = pp_head_part(model, last.output_head.is_some(), last.hidden_a, sink, out);
    proof {
        lemma_ran_then2(m1, m2, out@, outcome, rk, hd);
        lemma_ran_then2(m0, m1, out@, outcome, em, then2(rk, hd));
    }
    outcome
}

/// One token; the largest logit is picked on the host.
pub fn forward_one_token_pp(
    model: &Qwen3MoEShardedModel,
    scratch: &ShardedForwardOneTokenScratch,
    token_id: u32,
    position: usize,
    out: &mut Vec<Op>,
) -> (res: Result<(), ForwardError>)
    requires
        model.shards@.len() <= scratch.per_rank@.len(),
        model.config.hidden_size * 2 <= usize::MAX,
    ensures
        ran(
            old(out)@,
            final(out)@,
            res,
            one_token_pp_run(
                *model,
                scratch.per_rank@,
                PeerMode::Blocking,
                token_id,
                position,
                PpLogitsSink::Argmax,
            ),
        ),
{
    forward_one_token_pp_inner(
        model,
        scratch,
        PeerMode::Blocking,
        token_id,
        position,
        PpLogitsSink::Argmax,
        out,
    )
}

/// One token; the logits are fetched to the host.
pub fn forward_one_token_pp_logits(
    model: &Qwen3MoEShardedModel,
    scratch: &ShardedForwardOneTokenScratch,
    token_id: u32,
    position: usize,
    out: &mut Vec<Op>,
) -> (res: Result<(), ForwardError>)
    requires
        model.shards@.len() <= scratch.per_rank@.len(),
        model.config.hidden_size * 2 <= usize::MAX,
    ensures
        ran(
            old(out)@,
            final(out)@,
            res,
            one_token_pp_run(
                *model,
                scratch.per_rank@,
                PeerMode::Event,
                token_id,
                position,
                PpLogitsSink::Host,
            ),
        ),
{
    forward_one_token_pp_inner(
        model,
        scratch,
        PeerMode::Event,
        token_id,
        position,
        PpLogitsSink::Host,
        out,
    )
}

/// One token; the logits stay on the last rank.
pub fn forward_one_token_pp_keep_logits_on_device(
    model: &Qwen3MoEShardedModel,
    scratch: &ShardedForwardOneTokenScratch,
    token_id: u32,
    position: usize,
    out: &mut Vec<Op>,
) -> (res: Result<(), ForwardError>)
    requires
        model.shards@.len() <= scratch.per_rank@.len(),
        model.config.hidden_size * 2 <= usize::MAX,
    ensures
        ran(
            old(out)@,
            final(out)@,
            res,
            one_token_pp_run(
                *model,
                scratch.per_rank@,
                PeerMode::Event,
                token_id,
                position,
                PpLogitsSink::KeepOnDevice,
            ),
        ),
{
    forward_one_token_pp_inner(
        model,
        scratch,
        PeerMode::Event,
        token_id,
        position,
        PpLogitsSink::KeepOnDevice,
        out,
    )
}

/// Rank 0 writes the embeddings of the tokens to the rows from `dst` on.
pub open spec fn embed_rows(
    m: Qwen3MoEShardedModel,
    stream: StreamSel,
    dst: DevicePtr,
    tokens: Seq<u32>,
) -> OpRun {
    match m.shards@[0].token_embd {
        None => fail(ForwardError::NoTokenEmbd),
        Some(t) => done(
            flat(
                tokens.len(),
                |i: int| seq![embed_row_op(m.config, weight_of(t), stream, dst, tokens, i)],
            ),
        ),
    }
}

/// The embedding of token `i`.
pub open spec fn embed_row_op(
    cfg: Qwen3MoEConfig,
    table: Weight,
    stream: StreamSel,
    dst: DevicePtr,
    tokens: Seq<u32>,
    i: int,
) -> Op {
    Op::Embed {
        rank: 0,
        stream,
        table,
        token: tokens[i],
        dst: row_at(dst, i, cfg.hidden_size),
        hidden: cfg.hidden_size,
    }
}

pub(crate) fn push_embed_rows(
    cfg: &Qwen3MoEConfig,
    table: Weight,
    stream: StreamSel,
    dst: DevicePtr,
    tokens: &Vec<u32>,
    start: usize,
    count: usize,
    out: &mut Vec<Op>,
)
    requires
        start + count <= tokens@.len(),
        rows_fit(dst, count as nat, cfg.hidden_size),
    ensures
        final(out)@ == old(out)@ + flat(
            count as nat,
            |i: int| seq![
                embed_row_op(
                    *cfg,
                    table,
                    stream,
                    dst,
                    tokens@.subrange(start as int, start + count),
                    i,
                )
            ],
        ),
{
    let ghost base = out@;
    let ghost f = |i: int| seq![
        embed_row_op(*cfg, table, stream, dst, tokens@.subrange(start as int, start + count), i)
    ];
    let n: usize = count;
    let mut i: usize = 0;
    proof {
        assert(out@ =~= base + flat(0, f));
    }
    while i < n
        invariant
            i <= n,
            n == count,
            base == old(out)@,
            f == (
                |i: int| seq![
                    embed_row_op(
                        *cfg,
                        table,
                        stream,
                        dst,
                        tokens@.subrange(start as int, start + count),
                        i,
                    )
                ]
            ),
            out@ == base + flat(i as nat, f),
            start + count <= tokens@.len(),
            rows_fit(dst, count as nat, cfg.hidden_size),
        decreases n - i,
    {
        let total: usize = tokens.len();
        proof {
            assert(start + i < total);
        }
        let ghost mid = out@;
        let p = row_ptr(dst, i, cfg.hidden_size, Ghost(count as nat));
        out.push(
            Op::Embed {
                rank: 0,
                stream,
                table,
                token: tokens[start + i],
                dst: p,
                hidden: cfg.hidden_size,
            },
        );
        proof {
            assert(out@ =~= mid + f(i as int));
            assert(out@ =~= base + flat((i + 1) as nat, f));
        }
        i = i + 1;
    }
}

fn embed_rows_part(
    m: &Qwen3MoEShardedModel,
    stream: StreamSel,
    dst: DevicePtr,
    tokens: &Vec<u32>,
    start: usize,
    count: usize,
    out: &mut Vec<Op>,
) -> (res: Result<(), ForwardError>)
    requires
        m.shards@.len() >= 1,
        start + count <= tokens@.len(),
        rows_fit(dst, count as nat, m.config.hidden_size),
    ensures
        ran(
            old(out)@,
            final(out)@,
            res,
            embed_rows(*m, stream, dst, tokens@.subrange(start as int, start + count)),
        ),
{
    match &m.shards[0].token_embd {
        None => {
            proof {
                assert(out@ =~= old(out)@ + Seq::<Op>::empty());
            }
            Err(ForwardError::NoTokenEmbd)
        },
        Some(t) => {
            let table = weight(t);
            push_embed_rows(&m.config, table, stream, dst, tokens, start, count, out);
            proof {
                let ts = tokens@.subrange(start as int, start + count);
                let f = |i: int| seq![embed_row_op(m.config, table, stream, dst, ts, i)];
                assert(embed_rows(*m, stream, dst, ts).ops == flat(ts.len(), f));
                let g = |i: int|
                    seq![
                        embed_row_op(
                            m.config,
                            table,
                            stream,
                            dst,
                            tokens@.subrange(start as int, start + count),
                            i,
                        ),
                    ];
                lemma_flat_same(ts.len(), f, g);
            }
            Ok(())
        },
    }
}

/// The chain of rank `r` for a batch.
pub open spec fn batch_chain(
    m: Qwen3MoEShardedModel,
    s: RankForwardPrefillScratch,
    n: nat,
    position: usize,
    r: int,
) -> Chain {
    Chain {
        rank: r as usize,
        stream: StreamSel::Default,
        pass: Pass::Prefill,
        a: s.hidden_a,
        b: s.hidden_b,
        n_tokens: n as usize,
        position,
        bytes: (n * (m.config.hidden_size * 2)) as usize,
        lanes: false,
    }
}

/// The hidden states of the rank before `r` are handed to rank `r`.
pub open spec fn batch_handoff(
    m: Qwen3MoEShardedModel,
    sc: Seq<RankForwardPrefillScratch>,
    n: nat,
    r: int,
) -> Seq<Op> {
    if r > 0 {
        seq![
            Op::PeerCopy {
                mode: PeerMode::Blocking,
                dst_rank: r as usize,
                dst: sc[r].hidden_a,
                src_rank: (r - 1) as usize,
                src: sc[r - 1].hidden_a,
                bytes: (n * (m.config.hidden_size * 2)) as usize,
            },
        ]
    } else {
        seq![]
    }
}

/// Rank `r` for a batch.
pub open spec fn batch_rank_run(
    m: Qwen3MoEShardedModel,
    sc: Seq<RankForwardPrefillScratch>,
    n: nat,
    position: usize,
    r: int,
) -> OpRun {
    then2(
        done(batch_handoff(m, sc, n, r)),
        if sc[r].layer is None {
            fail(ForwardError::NoRankPrefillScratch)
        } else {
            done(chain_ops(m.config, m.shards@[r].layers@, batch_chain(m, sc[r], n, position, r)))
        },
    )
}

/// A batch through the whole pipeline, up to the LM head on its last token.
pub open spec fn prefill_pp_run(
    m: Qwen3MoEShardedModel,
    sc: Seq<RankForwardPrefillScratch>,
    tokens: Seq<u32>,
    position: usize,
    sink: PpLogitsSink,
) -> OpRun {
    let n = m.shards@.len();
    if n == 0 {
        fail(ForwardError::ZeroRanksPrefill)
    } else if tokens.len() == 0 {
        fail(ForwardError::EmptyTokensPrefill)
    } else if tokens.len() > sc[0].max_tokens {
        fail(
            ForwardError::PrefillPpTooLong {
                len: tokens.len() as usize,
                max_tokens: sc[0].max_tokens,
            },
        )
    } else {
        then2(
            embed_rows(m, StreamSel::Default, sc[0].hidden_a, tokens),
            then2(
                each(n, |i: int| batch_rank_run(m, sc, tokens.len(), position, i)),
                pp_head_run(
                    m,
                    sc[n - 1].output_head is Some,
                    row_at(sc[n - 1].hidden_a, tokens.len() - 1, m.config.hidden_size),
                    sink,
                ),
            ),
        )
    }
}

/// The rows of a batch lie within the address space on the first and on the
/// last rank.
pub open spec fn batch_fits(
    m: Qwen3MoEShardedModel,
    sc: Seq<RankForwardPrefillScratch>,
    n: nat,
) -> bool {
    &&& m.shards@.len() <= sc.len()
    &&& m.config.hidden_size * 2 <= usize::MAX
    &&& n * (m.config.hidden_size * 2) <= usize::MAX
    &&& m.shards@.len() >= 1 ==> rows_fit(sc[0].hidden_a, n, m.config.hidden_size) && rows_fit(
        sc[m.shards@.len() - 1].hidden_a,
        n,
        m.config.hidden_size,
    )
}

/// The working memory is there for a batch that no check refuses.
pub open spec fn prefill_pp_ready(
    m: Qwen3MoEShardedModel,
    sc: Seq<RankForwardPrefillScratch>,
    n: nat,
) -> bool {
    m.shards@.len() >= 1 && n >= 1 ==> {
        &&& sc.len() >= 1
        &&& n <= sc[0].max_tokens ==> batch_fits(m, sc, n)
    }
}

fn push_batch_handoff(
    m: &Qwen3MoEShardedModel,
    sc: &Vec<RankForwardPrefillScratch>,
    n: usize,
    r: usize,
    out: &mut Vec<Op>,
)
    requires
        r < m.shards@.len(),
        m.shards@.len() <= sc@.len(),
        m.config.hidden_size * 2 <= usize::MAX,
        n * (m.config.hidden_size * 2) <= usize::MAX,
    ensures
        final(out)@ == old(out)@ + batch_handoff(*m, sc@, n as nat, r as int),
{
    if r > 0 {
        out.push(
            Op::PeerCopy {
                mode: PeerMode::Blocking,
                dst_rank: r,
                dst: sc[r].hidden_a,
                src_rank: r - 1,
                src: sc[r - 1].hidden_a,
                bytes: n * (m.config.hidden_size * 2),
            },
        );
    }
    proof {
        assert(out@ =~= old(out)@ + batch_handoff(*m, sc@, n as nat, r as int));
    }
}

fn make_batch_chain(
    m: &Qwen3MoEShardedModel,
    s: &RankForwardPrefillScratch,
    n: usize,
    position: usize,
    r: usize,
) -> (c: Chain)
    requires
        m.config.hidden_size * 2 <= usize::MAX,
        n * (m.config.hidden_size * 2) <= usize::MAX,
    ensures
        c == batch_chain(*m, *s, n as nat, position, r as int),
{
    Chain {
        rank: r,
        stream: StreamSel::Default,
        pass: Pass::Prefill,
        a: s.hidden_a,
        b: s.hidden_b,
        n_tokens: n,
        position,
        bytes: n * (m.config.hidden_size * 2),
        lanes: false,
    }
}

fn batch_rank_part(
    m: &Qwen3MoEShardedModel,
    sc: &Vec<RankForwardPrefillScratch>,
    n: usize,
    position: usize,
    r: usize,
    out: &mut Vec<Op>,
) -> (res: Result<(), ForwardError>)
    requires
        r < m.shards@.len(),
        m.shards@.len() <= sc@.len(),
        m.config.hidden_size * 2 <= usize::MAX,
        n * (m.config.hidden_size * 2) <= usize::MAX,
    ensures
        ran(old(out)@, final(out)@, res, batch_rank_run(*m, sc@, n as nat, position, r as int)),
{
    let ghost m0 = out@;
    push_batch_handoff(m, sc, n, r, out);
    let ghost m1 = out@;
    let ghost hand = done::<Op, ForwardError>(batch_handoff(*m, sc@, n as nat, r as int));
    proof {
        assert(m1 =~= m1 + Seq::<Op>::empty());
    }
    if sc[r].layer.is_none() {
        proof {
            lemma_ran_then2(
                m0,
                m1,
                out@,
                Err(ForwardError::NoRankPrefillScratch),
                hand,
                fail(ForwardError::NoRankPrefillScratch),
            );
        }
        return Err(ForwardError::NoRankPrefillScratch);
    }
    let c = make_batch_chain(m, &sc[r], n, position, r);
    push_chain(&m.config, &m.shards[r].layers, c, out);
    proof {
        lemma_ran_then2(
            m0,
            m1,
            out@,
            Ok(()),
            hand,
            done(chain_ops(m.config, m.shards@[r as int].layers@, c)),
        );
    }
    Ok(())
}

fn batch_ranks_all(
    m: &Qwen3MoEShardedModel,
    sc: &Vec<RankForwardPrefillScratch>,
    n_tokens: usize,
    position: usize,
    out: &mut Vec<Op>,
) -> (res: Result<(), ForwardError>)
    requires
        m.shards@.len() <= sc@.len(),
        m.config.hidden_size * 2 <= usize::MAX,
        n_tokens * (m.config.hidden_size * 2) <= usize::MAX,
    ensures
        ran(
            old(out)@,
            final(out)@,
            res,
            each(m.shards@.len(), |i: int| batch_rank_run(*m, sc@, n_tokens as nat, position, i)),
        ),
{
    let ghost base = out@;
    let ghost f = |i: int| batch_rank_run(*m, sc@, n_tokens as nat, position, i);
    let n: usize = m.shards.len();
    let mut i: usize = 0;
    proof {
        assert(out@ =~= base + each(0, f).ops);
    }
    while i < n
        invariant
            i <= n,
            n == m.shards.len(),
            base == old(out)@,
            f == (|i: int| batch_rank_run(*m, sc@, n_tokens as nat, position, i)),
            ran(base, out@, Ok::<(), ForwardError>(()), each(i as nat, f)),
            n == m.shards@.len(),
            m.shards@.len() <= sc@.len(),
            m.config.hidden_size * 2 <= usize::MAX,
            n_tokens * (m.config.hidden_size * 2) <= usize::MAX,
        decreases n - i,
    {
        let ghost mid = out@;
        match batch_rank_part(m, sc, n_tokens, position, i, out) {
            Ok(_) => {
                proof {
                    lemma_ran_then2(base, mid, out@, Ok(()), each(i as nat, f), f(i as int));
                }
            },
            Err(e) => {
                proof {
                    lemma_ran_then2(base, mid, out@, Err(e), each(i as nat, f), f(i as int));
                    lemma_each_stops((i + 1) as nat, n as nat, f);
                }
                return Err(e);
            },
        }
        i = i + 1;
    }
    Ok(())
}

/// A batch through the whole pipeline, up to the LM head on its last token.
pub fn forward_prefill_pp_chunk(
    model: &Qwen3MoEShardedModel,
    scratch: &ShardedForwardPrefillScratch,
    tokens: &Vec<u32>,
    start_position: usize,
    sink: PpLogitsSink,
    out: &mut Vec<Op>,
) -> (res: Result<(), ForwardError>)
    requires
        prefill_pp_ready(*model, scratch.per_rank@, tokens@.len()),
    ensures
        ran(
            old(out)@,
            final(out)@,
            res,
            prefill_pp_run(*model, scratch.per_rank@, tokens@, start_position, sink),
        ),
{
    let n: usize = model.shards.len();
    let l: usize = tokens.len();
    proof {
        assert(out@ =~= out@ + Seq::<Op>::empty());
        assert(tokens@.subrange(0, tokens@.len() as int) =~= tokens@);
    }
    if n == 0 {
        return Err(ForwardError::ZeroRanksPrefill);
    }
    if l == 0 {
        return Err(ForwardError::EmptyTokensPrefill);
    }
    let sc = &scratch.per_rank;
    if l > sc[0].max_tokens {
        return Err(ForwardError::PrefillPpTooLong { len: l, max_tokens: sc[0].max_tokens });
    }
    let last: &RankForwardPrefillScratch = &sc[n - 1];
    let ghost em = embed_rows(*model, StreamSel::Default, sc@[0].hidden_a, tokens@);
    let ghost rk = each(
        n as nat,
        |i: int| batch_rank_run(*model, sc@, l as nat, start_position, i),
    );
    let x = row_ptr(last.hidden_a, l - 1, model.config.hidden_size, Ghost(l as nat));
    let ghost hd = pp_head_run(*model, last.output_head is Some, x, sink);
    let ghost m0 = out@;
    match embed_rows_part(model, StreamSel::Default, sc[0].hidden_a, tokens, 0, l, out) {
        Ok(_) => {},
        Err(e) => {
            return Err(e);
        },
    }
    let ghost m1 = out@;
    match batch_ranks_all(model, sc, l, start_position, out) {
        Ok(_) => {},
        Err(e) => {
            proof {
                lemma_ran_then2(m0, m1, out@, Err(e), em, then2(rk, hd));
            }
            return Err(e);
        },
    }
    let ghost m2 = out@;
    let outcome = pp_head_part(model, last.output_head.is_some(), x, sink, out);
    proof {
        lemma_ran_then2(m1, m2, out@, outcome, rk, hd);
        lemma_ran_then2(m0, m1, out@, outcome, em, then2(rk, hd));
    }
    outcome
}

/// A batch; the largest logit after its last token is picked on the host.
pub fn forward_prefill_pp(
    model: &Qwen3MoEShardedModel,
    scratch: &ShardedForwardPrefillScratch,
    tokens: &Vec<u32>,
    start_position: usize,
    out: &mut Vec<Op>,
) -> (res: Result<(), ForwardError>)
    requires
        prefill_pp_ready(*model, scratch.per_rank@, tokens@.len()),
    ensures
        ran(
            old(out)@,
            final(out)@,
            res,
            prefill_pp_run(
                *model,
                scratch.per_rank@,
                tokens@,
                start_position,
                PpLogitsSink::Argmax,
            ),
        ),
{
    forward_prefill_pp_chunk(model, scratch, tokens, start_position, PpLogitsSink::Argmax, out)
}

/// A batch; the logits after its last token are fetched to the host.
pub fn forward_prefill_pp_logits(
    model: &Qwen3MoEShardedModel,
    scratch: &ShardedForwardPrefillScratch,
    tokens: &Vec<u32>,
    start_position: usize,
    out: &mut Vec<Op>,
) -> (res: Result<(), ForwardError>)
    requires
        prefill_pp_ready(*model, scratch.per_rank@, tokens@.len()),
    ensures
        ran(
            old(out)@,
            final(out)@,
            res,
            prefill_pp_run(
                *model,
                scratch.per_rank@,
                tokens@,
                start_position,
                PpLogitsSink::Host,
            ),
        ),
{
    forward_prefill_pp_chunk(model, scratch, tokens, start_position, PpLogitsSink::Host, out)
}

/// The input of a recurrent layer is kept for a later repetition of its step,
/// then the layer runs.
pub open spec fn paired_layer_ops(
    cfg: Qwen3MoEConfig,
    layers: Seq<LayerWeights>,
    s: RankForwardPrefillScratch,
    c: Chain,
    i: int,
) -> Seq<Op> {
    (match s.gdn_input_snapshots@[i] {
        Some(p) => seq![
            Op::Copy {
                rank: c.rank,
                stream: StreamSel::Default,
                dst: p,
                src: x_at(c.a, c.b, i),
                bytes: s.snapshot_row_bytes,
            },
        ],
        None => seq![],
    }) + seq![layer_op(cfg, layers, c, i)]
}

/// Like `back_ops`, and the copy is waited for.
pub open spec fn paired_back(c: Chain, n: nat) -> Seq<Op> {
    if x_at(c.a, c.b, n as int) != c.a {
        back_ops(c, n).push(Op::Sync { rank: c.rank, stream: c.stream })
    } else {
        seq![]
    }
}

/// All layers of a rank for a pair of tokens.
pub open spec fn paired_chain_ops(
    cfg: Qwen3MoEConfig,
    layers: Seq<LayerWeights>,
    s: RankForwardPrefillScratch,
    c: Chain,
) -> Seq<Op> {
    flat(layers.len(), |i: int| paired_layer_ops(cfg, layers, s, c, i)) + paired_back(
        c,
        layers.len(),
    )
}

/// Rank `r` for a pair of tokens.
pub open spec fn paired_rank_run(
    m: Qwen3MoEShardedModel,
    sc: Seq<RankForwardPrefillScratch>,
    position: usize,
    r: int,
) -> OpRun {
    then2(
        done(batch_handoff(m, sc, 2, r)),
        if sc[r].layer is None {
            fail(ForwardError::NoRankPrefillScratch)
        } else {
            done(
                paired_chain_ops(
                    m.config,
                    m.shards@[r].layers@,
                    sc[r],
                    batch_chain(m, sc[r], 2, position, r),
                ),
            )
        },
    )
}

/// The LM head on one row, and its logits to the host.
pub open spec fn head_row_ops(
    rank: usize,
    w: (Weight, Weight),
    x: DevicePtr,
    slot: usize,
    vocab: usize,
) -> Seq<Op> {
    seq![
        Op::OutputHead { rank, norm: w.0, lm_head: w.1, x },
        Op::DownloadLogits { rank, slot, vocab },
    ]
}

/// The LM head on the first row of a pair, and on the second where it is asked for.
pub open spec fn paired_head_run(
    m: Qwen3MoEShardedModel,
    s: RankForwardPrefillScratch,
    with_second: bool,
) -> OpRun {
    let last = m.shards@.len() - 1;
    match head_weights(m.shards@[last]) {
        Err(e) => fail(e),
        Ok(w) => if s.output_head is None {
            fail(ForwardError::NoHeadScratch)
        } else {
            done(
                head_row_ops(last as usize, w, s.hidden_a, 0, m.config.vocab_size)
                    + if with_second {
                    head_row_ops(
                        last as usize,
                        w,
                        row_at(s.hidden_a, 1, m.config.hidden_size),
                        1,
                        m.config.vocab_size,
                    )
                } else {
                    seq![]
                },
            )
        },
    }
}

/// A pair of tokens through the whole pipeline.
pub open spec fn paired_run(
    m: Qwen3MoEShardedModel,
    sc: Seq<RankForwardPrefillScratch>,
    tokens: Seq<u32>,
    position: usize,
    with_second: bool,
) -> OpRun {
    let n = m.shards@.len();
    if n == 0 {
        fail(ForwardError::ZeroRanksPaired)
    } else if tokens.len() != 2 {
        fail(ForwardError::PairedLength { len: tokens.len() as usize })
    } else if 2 > sc[0].max_tokens {
        fail(ForwardError::PairedTooLong { max_tokens: sc[0].max_tokens })
    } else {
        then2(
            embed_rows(m, StreamSel::Default, sc[0].hidden_a, tokens),
            then2(
                each(n, |i: int| paired_rank_run(m, sc, position, i)),
                paired_head_run(m, sc[n - 1], with_second),
            ),
        )
    }
}

/// Every layer has its place among the kept inputs.
pub open spec fn snapshots_ready(
    m: Qwen3MoEShardedModel,
    sc: Seq<RankForwardPrefillScratch>,
) -> bool {
    forall|r: int|
        0 <= r < m.shards@.len() ==> (#[trigger] sc[r]).gdn_input_snapshots@.len()
            >= m.shards@[r].layers@.len()
}

/// The working memory is there for a pair that no check refuses.
pub open spec fn paired_ready(
    m: Qwen3MoEShardedModel,
    sc: Seq<RankForwardPrefillScratch>,
    n: nat,
) -> bool {
    m.shards@.len() >= 1 && n == 2 ==> {
        &&& sc.len() >= 1
        &&& 2 <= sc[0].max_tokens ==> batch_fits(m, sc, 2) && snapshots_ready(m, sc)
    }
}

fn push_paired_layer(
    cfg: &Qwen3MoEConfig,
    layers: &Vec<LayerWeights>,
    s: &RankForwardPrefillScratch,
    c: Chain,
    i: usize,
    out: &mut Vec<Op>,
)
    requires
        i < layers@.len(),
        layers@.len() <= s.gdn_input_snapshots@.len(),
    ensures
        final(out)@ == old(out)@ + paired_layer_ops(*cfg, layers@, *s, c, i as int),
{
    if let Some(p) = s.gdn_input_snapshots[i] {
        out.push(
            Op::Copy {
                rank: c.rank,
                stream: StreamSel::Default,
                dst: p,
                src: x_ptr(c, i),
                bytes: s.snapshot_row_bytes,
            },
        );
    }
    push_layer(cfg, layers, c, i, out);
    proof {
        assert(out@ =~= old(out)@ + paired_layer_ops(*cfg, layers@, *s, c, i as int));
    }
}

fn push_paired_layers(
    cfg: &Qwen3MoEConfig,
    layers: &Vec<LayerWeights>,
    s: &RankForwardPrefillScratch,
    c: Chain,
    out: &mut Vec<Op>,
)
    requires
        layers@.len() <= s.gdn_input_snapshots@.len(),
    ensures
        final(out)@ == old(out)@ + flat(
            layers@.len(),
            |i: int| paired_layer_ops(*cfg, layers@, *s, c, i),
        ),
{
    let ghost base = out@;
    let ghost f = |i: int| paired_layer_ops(*cfg, layers@, *s, c, i);
    let n: usize = layers.len();
    let mut i: usize = 0;
    proof {
        assert(out@ =~= base + flat(0, f));
    }
    while i < n
        invariant
            i <= n,
            n == layers.len(),
            base == old(out)@,
            f == (|i: int| paired_layer_ops(*cfg, layers@, *s, c, i)),
            out@ == base + flat(i as nat, f),
            n == layers@.len(),
            layers@.len() <= s.gdn_input_snapshots@.len(),
        decreases n - i,
    {
        let ghost mid = out@;
        push_paired_layer(cfg, layers, s, c, i, out);
        proof {
            assert(out@ =~= mid + f(i as int));
            assert(out@ =~= base + flat((i + 1) as nat, f));
        }
        i = i + 1;
    }
}

fn paired_rank_part(
    m: &Qwen3MoEShardedModel,
    sc: &Vec<RankForwardPrefillScratch>,
    position: usize,
    r: usize,
    out: &mut Vec<Op>,
) -> (res: Result<(), ForwardError>)
    requires
        r < m.shards@.len(),
        m.shards@.len() <= sc@.len(),
        m.config.hidden_size * 2 <= usize::MAX,
        2 * (m.config.hidden_size * 2) <= usize::MAX,
        snapshots_ready(*m, sc@),
    ensures
        ran(old(out)@, final(out)@, res, paired_rank_run(*m, sc@, position, r as int)),
{
    let ghost m0 = out@;
    push_batch_handoff(m, sc, 2, r, out);
    let ghost m1 = out@;
    let ghost hand = done::<Op, ForwardError>(batch_handoff(*m, sc@, 2, r as int));
    proof {
        assert(m1 =~= m1 + Seq::<Op>::empty());
        assert(sc@[r as int].gdn_input_snapshots@.len() >= m.shards@[r as int].layers@.len());
    }
    if sc[r].layer.is_none() {
        proof {
            lemma_ran_then2(
                m0,
                m1,
                out@,
                Err(ForwardError::NoRankPrefillScratch),
                hand,
                fail(ForwardError::NoRankPrefillScratch),
            );
        }
        return Err(ForwardError::NoRankPrefillScratch);
    }
    let c = make_batch_chain(m, &sc[r], 2, position, r);
    let layers = &m.shards[r].layers;
    push_paired_layers(&m.config, layers, &sc[r], c, out);
    let ghost m2 = out@;
    let x = x_ptr(c, layers.len());
    push_back(c, layers.len(), out);
    if x != c.a {
        out.push(Op::Sync { rank: r, stream: StreamSel::Default });
    }
    proof {
        let ls = layers@;
        let f = |i: int| paired_layer_ops(m.config, ls, sc@[r as int], c, i);
        let ops = paired_chain_ops(m.config, ls, sc@[r as int], c);
        assert(ops == flat(ls.len(), f) + paired_back(c, ls.len()));
        assert(out@ =~= m2 + paired_back(c, ls.len()));
        assert(m2 == m1 + flat(ls.len(), f));
        assert(out@ =~= m1 + ops);
        lemma_ran_then2(m0, m1, out@, Ok(()), hand, done(ops));
    }
    Ok(())
}

fn paired_ranks_all(
    m: &Qwen3MoEShardedModel,
    sc: &Vec<RankForwardPrefillScratch>,
    position: usize,
    out: &mut Vec<Op>,
) -> (res: Result<(), ForwardError>)
    requires
        m.shards@.len() <= sc@.len(),
        m.config.hidden_size * 2 <= usize::MAX,
        2 * (m.config.hidden_size * 2) <= usize::MAX,
        snapshots_ready(*m, sc@),
    ensures
        ran(
            old(out)@,
            final(out)@,
            res,
            each(m.shards@.len(), |i: int| paired_rank_run(*m, sc@, position, i)),
        ),
{
    let ghost base = out@;
    let ghost f = |i: int| paired_rank_run(*m, sc@, position, i);
    let n: usize = m.shards.len();
    let mut i: usize = 0;
    proof {
        assert(out@ =~= base + each(0, f).ops);
    }
    while i < n
        invariant
            i <= n,
            n == m.shards.len(),
            base == old(out)@,
            f == (|i: int| paired_rank_run(*m, sc@, position, i)),
            ran(base, out@, Ok::<(), ForwardError>(()), each(i as nat, f)),
            n == m.shards@.len(),
            m.shards@.len() <= sc@.len(),
            m.config.hidden_size * 2 <= usize::MAX,
            2 * (m.config.hidden_size * 2) <= usize::MAX,
            snapshots_ready(*m, sc@),
        decreases n - i,
    {
        let ghost mid = out@;
        match paired_rank_part(m, sc, position, i, out) {
            Ok(_) => {
                proof {
                    lemma_ran_then2(base, mid, out@, Ok(()), each(i as nat, f), f(i as int));
                }
            },
            Err(e) => {
                proof {
                    lemma_ran_then2(base, mid, out@, Err(e), each(i as nat, f), f(i as int));
                    lemma_each_stops((i + 1) as nat, n as nat, f);
                }
                return Err(e);
            },
        }
        i = i + 1;
    }
    Ok(())
}

fn push_head_row(
    rank: usize,
    w: (Weight, Weight),
    x: DevicePtr,
    slot: usize,
    vocab: usize,
    out: &mut Vec<Op>,
)
    ensures
        final(out)@ == old(out)@ + head_row_ops(rank, w, x, slot, vocab),
{
    out.push(Op::OutputHead { rank, norm: w.0, lm_head: w.1, x });
    out.push(Op::DownloadLogits { rank, slot, vocab });
    proof {
        assert(out@ =~= old(out)@ + head_row_ops(rank, w, x, slot, vocab));
    }
}

fn paired_head_part(
    m: &Qwen3MoEShardedModel,
    s: &RankForwardPrefillScratch,
    with_second: bool,
    out: &mut Vec<Op>,
) -> (res: Result<(), ForwardError>)
    requires
        m.shards@.len() >= 1,
        rows_fit(s.hidden_a, 2, m.config.hidden_size),
    ensures
        ran(old(out)@, final(out)@, res, paired_head_run(*m, *s, with_second)),
{
    let last: usize = m.shards.len() - 1;
    proof {
        assert(out@ =~= out@ + Seq::<Op>::empty());
    }
    let w = match find_head(&m.shards[last]) {
        Ok(w) => w,
        Err(e) => {
            return Err(e);
        },
    };
    if s.output_head.is_none() {
        return Err(ForwardError::NoHeadScratch);
    }
    push_head_row(last, w, s.hidden_a, 0, m.config.vocab_size, out);
    if with_second {
        let x = row_ptr(s.hidden_a, 1, m.config.hidden_size, Ghost(2nat));
        push_head_row(last, w, x, 1, m.config.vocab_size, out);
    }
    proof {
        assert(out@ =~= old(out)@ + paired_head_run(*m, *s, with_second).ops);
    }
    Ok(())
}

/// A pair of tokens: the last committed one and a draft. The logits after the
/// first go to row 0; those after the second, where they are asked for, to row 1.
/// The input of every recurrent layer is kept.
pub fn forward_prefill_pp_logits_paired_l2(
    model: &Qwen3MoEShardedModel,
    scratch: &ShardedForwardPrefillScratch,
    tokens: &Vec<u32>,
    start_position: usize,
    with_second: bool,
    out: &mut Vec<Op>,
) -> (res: Result<(), ForwardError>)
    requires
        paired_ready(*model, scratch.per_rank@, tokens@.len()),
    ensures
        ran(
            old(out)@,
            final(out)@,
            res,
            paired_run(*model, scratch.per_rank@, tokens@, start_position, with_second),
        ),
{
    let n: usize = model.shards.len();
    proof {
        assert(out@ =~= out@ + Seq::<Op>::empty());
        assert(tokens@.subrange(0, tokens@.len() as int) =~= tokens@);
    }
    if n == 0 {
        return Err(ForwardError::ZeroRanksPaired);
    }
    if tokens.len() != 2 {
        return Err(ForwardError::PairedLength { len: tokens.len() });
    }
    let sc = &scratch.per_rank;
    if 2 > sc[0].max_tokens {
        return Err(ForwardError::PairedTooLong { max_tokens: sc[0].max_tokens });
    }
    let ghost em = embed_rows(*model, StreamSel::Default, sc@[0].hidden_a, tokens@);
    let ghost rk = each(n as nat, |i: int| paired_rank_run(*model, sc@, start_position, i));
    let ghost hd = paired_head_run(*model, sc@[n - 1], with_second);
    let ghost m0 = out@;
    match embed_rows_part(model, StreamSel::Default, sc[0].hidden_a, tokens, 0, 2, out) {
        Ok(_) => {},
        Err(e) => {
            return Err(e);
        },
    }
    let ghost m1 = out@;
    match paired_ranks_all(model, sc, start_position, out) {
        Ok(_) => {},
        Err(e) => {
            proof {
                lemma_ran_then2(m0, m1, out@, Err(e), em, then2(rk, hd));
            }
            return Err(e);
        },
    }
    let ghost m2 = out@;
    let outcome = paired_head_part(model, &sc[n - 1], with_second, out);
    proof {
        lemma_ran_then2(m1, m2, out@, outcome, rk, hd);
        lemma_ran_then2(m0, m1, out@, outcome, em, then2(rk, hd));
    }
    outcome
}

/// The LM head on one row of the last rank.
pub open spec fn head_at_run(
    m: Qwen3MoEShardedModel,
    sc: Seq<RankForwardPrefillScratch>,
    row: usize,
) -> OpRun {
    let n = m.shards@.len();
    if n == 0 {
        fail(ForwardError::ZeroRanksHead)
    } else {
        pp_head_run(
            m,
            sc[n - 1].output_head is Some,
            row_at(sc[n - 1].hidden_a, row as int, m.config.hidden_size),
            PpLogitsSink::Host,
        )
    }
}

/// Runs the LM head on row `position_in_l2` of the last rank's hidden states.
pub fn forward_output_head_at_pp(
    model: &Qwen3MoEShardedModel,
    scratch: &ShardedForwardPrefillScratch,
    position_in_l2: usize,
    out: &mut Vec<Op>,
) -> (res: Result<(), ForwardError>)
    requires
        model.shards@.len() >= 1 ==> model.shards@.len() <= scratch.per_rank@.len() && rows_fit(
            scratch.per_rank@[model.shards@.len() - 1].hidden_a,
            (position_in_l2 + 1) as nat,
            model.config.hidden_size,
        ),
    ensures
        ran(old(out)@, final(out)@, res, head_at_run(*model, scratch.per_rank@, position_in_l2)),
{
    let n: usize = model.shards.len();
    if n == 0 {
        proof {
            assert(out@ =~= out@ + Seq::<Op>::empty());
        }
        return Err(ForwardError::ZeroRanksHead);
    }
    let last: &RankForwardPrefillScratch = &scratch.per_rank[n - 1];
    let x = row_ptr(
        last.hidden_a,
        position_in_l2,
        model.config.hidden_size,
        Ghost((position_in_l2 + 1) as nat),
    );
    pp_head_part(model, last.output_head.is_some(), x, PpLogitsSink::Host, out)
}

/// The number of batches of up to `u` tokens that `l` tokens make.
pub open spec fn n_ubatches(l: nat, u: nat) -> nat {
    l / u + if l % u == 0 {
        0nat
    } else {
        1nat
    }
}

/// The length of batch `ub`.
pub open spec fn ubatch_len(l: nat, u: nat, ub: nat) -> nat {
    if ub * u + u <= l {
        u
    } else {
        (l - ub * u) as nat
    }
}

/// The tokens of batch `ub`.
pub open spec fn ubatch(tokens: Seq<u32>, u: nat, ub: nat) -> Seq<u32> {
    tokens.subrange((ub * u) as int, (ub * u + ubatch_len(tokens.len(), u, ub)) as int)
}

/// The batch that rank `r` works on in time step `t`.
pub open spec fn scheduled(t: nat, r: nat, n_ub: nat) -> Option<nat> {
    if r <= t && t - r < n_ub {
        Some((t - r) as nat)
    } else {
        None
    }
}

impl RankForwardPrefillScratch {
    pub open spec fn spec_u_lanes(&self) -> nat {
        1 + self.extra_lanes@.len()
    }

    /// The number of lanes, the direct fields counted as one.
    pub fn u_lanes(&self) -> (r: usize)
        requires
            self.spec_u_lanes() <= usize::MAX,
        ensures
            r == self.spec_u_lanes(),
    {
        1 + self.extra_lanes.len()
    }

    pub open spec fn spec_lane_hidden_a(&self, idx: int) -> DevicePtr {
        if idx == 0 {
            self.hidden_a
        } else {
            self.extra_lanes@[idx - 1].hidden_a
        }
    }

    /// The first buffer of a lane.
    pub fn lane_hidden_a(&self, idx: usize) -> (r: DevicePtr)
        requires
            idx < self.spec_u_lanes(),
        ensures
            r == self.spec_lane_hidden_a(idx as int),
    {
        if idx == 0 {
            self.hidden_a
        } else {
            self.extra_lanes[idx - 1].hidden_a
        }
    }

    pub open spec fn spec_lane_hidden_b(&self, idx: int) -> DevicePtr {
        if idx == 0 {
            self.hidden_b
        } else {
            self.extra_lanes@[idx - 1].hidden_b
        }
    }

    /// The second buffer of a lane.
    pub fn lane_hidden_b(&self, idx: usize) -> (r: DevicePtr)
        requires
            idx < self.spec_u_lanes(),
        ensures
            r == self.spec_lane_hidden_b(idx as int),
    {
        if idx == 0 {
            self.hidden_b
        } else {
            self.extra_lanes[idx - 1].hidden_b
        }
    }

    pub open spec fn spec_lane_layer(&self, idx: int) -> Option<LayerScratch> {
        if idx == 0 {
            self.layer
        } else {
            Some(self.extra_lanes@[idx - 1].layer)
        }
    }

    /// The working memory for the layers of a lane, to be changed.
    pub fn lane_layer_mut(&mut self, idx: usize) -> (r: Option<&mut LayerScratch>)
        requires
            idx < old(self).spec_u_lanes(),
        ensures
            match r {
                Some(l) => {
                    &&& old(self).spec_lane_layer(idx as int) == Some(*l)
                    &&& if idx == 0 {
                        *final(self) == (RankForwardPrefillScratch {
                            layer: Some(*final(l)),
                            ..*old(self)
                        })
                    } else {
                        let lane = old(self).extra_lanes@[idx - 1];
                        &&& *final(self) == (RankForwardPrefillScratch {
                            extra_lanes: final(self).extra_lanes,
                            ..*old(self)
                        })
                        &&& final(self).extra_lanes@ == old(self).extra_lanes@.update(
                            idx - 1,
                            UbatchLane { layer: *final(l), ..lane },
                        )
                    }
                },
                None => old(self).spec_lane_layer(idx as int) is None && *final(self) == *old(self),
            },
    {
        if idx == 0 {
            match &mut self.layer {
                Some(l) => Some(l),
                None => None,
            }
        } else {
            Some(&mut self.extra_lanes[idx - 1].layer)
        }
    }

    /// The working memory for the layers of a lane.
    pub fn lane_layer(&self, idx: usize) -> (r: Option<LayerScratch>)
        requires
            idx < self.spec_u_lanes(),
        ensures
            r == self.spec_lane_layer(idx as int),
    {
        if idx == 0 {
            self.layer
        } else {
            Some(self.extra_lanes[idx - 1].layer)
        }
    }
}

/// The parameters of a pipelined prefill.
#[derive(Debug, Clone, Copy, PartialEq, Eq, Structural)]
pub struct AsyncCtx {
    pub start_position: usize,
    pub ubatch_size: usize,
    pub u_lanes: usize,
}

/// The chain of rank `r` for batch `ub`, on its lane.
pub open spec fn lane_chain(
    m: Qwen3MoEShardedModel,
    s: RankForwardPrefillScratch,
    l: nat,
    c: AsyncCtx,
    r: int,
    ub: nat,
) -> Chain {
    let lane = (ub % (c.u_lanes as nat)) as int;
    let u = ubatch_len(l, c.ubatch_size as nat, ub);
    Chain {
        rank: r as usize,
        stream: StreamSel::Aux(lane as usize),
        pass: Pass::Prefill,
        a: s.spec_lane_hidden_a(lane),
        b: s.spec_lane_hidden_b(lane),
        n_tokens: u as usize,
        position: (c.start_position + ub * c.ubatch_size) as usize,
        bytes: (u * (m.config.hidden_size * 2)) as usize,
        lanes: true,
    }
}

/// How batch `ub` comes to rank `r`: it is embedded on the first rank, and
/// handed over on every other.
pub open spec fn lane_entry(
    m: Qwen3MoEShardedModel,
    sc: Seq<RankForwardPrefillScratch>,
    tokens: Seq<u32>,
    c: AsyncCtx,
    r: int,
    ub: nat,
) -> OpRun {
    let lane = (ub % (c.u_lanes as nat)) as int;
    if r == 0 {
        embed_rows(
            m,
            StreamSel::Aux(lane as usize),
            sc[0].spec_lane_hidden_a(lane),
            ubatch(tokens, c.ubatch_size as nat, ub),
        )
    } else {
        done(
            seq![
                Op::PeerCopy {
                    mode: PeerMode::Lane(lane as usize),
                    dst_rank: r as usize,
                    dst: sc[r].spec_lane_hidden_a(lane),
                    src_rank: (r - 1) as usize,
                    src: sc[r - 1].spec_lane_hidden_a(lane),
                    bytes: (ubatch_len(tokens.len(), c.ubatch_size as nat, ub) * (
                    m.config.hidden_size * 2)) as usize,
                },
            ],
        )
    }
}

/// Rank `r` for batch `ub`.
pub open spec fn lane_rank_run(
    m: Qwen3MoEShardedModel,
    sc: Seq<RankForwardPrefillScratch>,
    tokens: Seq<u32>,
    c: AsyncCtx,
    r: int,
    ub: nat,
) -> OpRun {
    then2(
        lane_entry(m, sc, tokens, c, r, ub),
        if sc[r].spec_lane_layer((ub % (c.u_lanes as nat)) as int) is None {
            fail(
                if r == 0 {
                    ForwardError::NoRank0Lane
                } else {
                    ForwardError::NoLane
                },
            )
        } else {
            done(
                chain_ops(
                    m.config,
                    m.shards@[r].layers@,
                    lane_chain(m, sc[r], tokens.len(), c, r, ub),
                ),
            )
        },
    )
}

/// What rank `r` does in time step `t`.
pub open spec fn cell_run(
    m: Qwen3MoEShardedModel,
    sc: Seq<RankForwardPrefillScratch>,
    tokens: Seq<u32>,
    c: AsyncCtx,
    t: int,
    r: int,
) -> OpRun {
    match scheduled(t as nat, r as nat, n_ubatches(tokens.len(), c.ubatch_size as nat)) {
        Some(ub) => lane_rank_run(m, sc, tokens, c, r, ub),
        None => done(seq![]),
    }
}

/// What all ranks do in time step `t`.
pub open spec fn step_run(
    m: Qwen3MoEShardedModel,
    sc: Seq<RankForwardPrefillScratch>,
    tokens: Seq<u32>,
    c: AsyncCtx,
    t: int,
) -> OpRun {
    each(m.shards@.len(), |i: int| cell_run(m, sc, tokens, c, t, i))
}

/// The LM head on the last token of the last batch.
pub open spec fn async_head_run(
    m: Qwen3MoEShardedModel,
    sc: Seq<RankForwardPrefillScratch>,
    l: nat,
    c: AsyncCtx,
) -> OpRun {
    let last = m.shards@.len() - 1;
    let ub = (n_ubatches(l, c.ubatch_size as nat) - 1) as nat;
    let lane = (ub % (c.u_lanes as nat)) as int;
    then2(
        done(seq![Op::Sync { rank: last as usize, stream: StreamSel::Aux(lane as usize) }]),
        pp_head_run(
            m,
            sc[last].output_head is Some,
            row_at(
                sc[last].spec_lane_hidden_a(lane),
                ubatch_len(l, c.ubatch_size as nat, ub) - 1,
                m.config.hidden_size,
            ),
            PpLogitsSink::Argmax,
        ),
    )
}

/// What the lanes need before the first batch: a stream and a bounce buffer for a
/// whole batch each.
pub open spec fn reserve_ops(m: Qwen3MoEShardedModel, c: AsyncCtx) -> Seq<Op> {
    seq![
        Op::ReserveStreams { n: c.u_lanes },
        Op::ReserveLaneBounces {
            lanes: c.u_lanes,
            bytes: (c.ubatch_size * (m.config.hidden_size * 2)) as usize,
        },
    ]
}

/// A prompt in batches that follow one another through the pipeline.
pub open spec fn async_run(
    m: Qwen3MoEShardedModel,
    sc: Seq<RankForwardPrefillScratch>,
    tokens: Seq<u32>,
    start_position: usize,
    ubatch_size: usize,
) -> OpRun {
    let n = m.shards@.len();
    let u_lanes = sc[0].spec_u_lanes();
    if n == 0 {
        fail(ForwardError::ZeroRanksAsync)
    } else if tokens.len() == 0 {
        fail(ForwardError::EmptyTokensAsync)
    } else if ubatch_size == 0 {
        fail(ForwardError::UbatchZero)
    } else if ubatch_size > sc[0].max_tokens {
        fail(ForwardError::UbatchTooLarge { ubatch_size, max_tokens: sc[0].max_tokens })
    } else if u_lanes < 2 {
        fail(ForwardError::TooFewLanes { u_lanes: u_lanes as usize })
    } else {
        let c = AsyncCtx { start_position, ubatch_size, u_lanes: u_lanes as usize };
        then2(
            done(reserve_ops(m, c)),
            then2(
                each(
                    (n + n_ubatches(tokens.len(), ubatch_size as nat) - 1) as nat,
                    |i: int| step_run(m, sc, tokens, c, i),
                ),
                async_head_run(m, sc, tokens.len(), c),
            ),
        )
    }
}

/// The lanes are there on every rank and lie within the address space, and all
/// counts fit.
pub open spec fn async_fits(
    m: Qwen3MoEShardedModel,
    sc: Seq<RankForwardPrefillScratch>,
    l: nat,
    start_position: usize,
    ubatch_size: usize,
) -> bool {
    &&& m.shards@.len() <= sc.len()
    &&& m.shards@.len() + l <= usize::MAX
    &&& start_position + l <= usize::MAX
    &&& m.config.hidden_size * 2 <= usize::MAX
    &&& ubatch_size * (m.config.hidden_size * 2) <= usize::MAX
    &&& m.shards@.len() >= 1 ==> {
        &&& sc[0].spec_u_lanes() <= usize::MAX
        &&& forall|r: int|
            0 <= r < m.shards@.len() ==> (#[trigger] sc[r]).spec_u_lanes() >= sc[0].spec_u_lanes()
        &&& forall|lane: int|
            0 <= lane < sc[0].spec_u_lanes() ==> rows_fit(
                #[trigger] sc[0].spec_lane_hidden_a(lane),
                ubatch_size as nat,
                m.config.hidden_size,
            )
        &&& forall|lane: int|
            0 <= lane < sc[0].spec_u_lanes() ==> rows_fit(
                #[trigger] sc[m.shards@.len() - 1].spec_lane_hidden_a(lane),
                ubatch_size as nat,
                m.config.hidden_size,
            )
    }
}

/// The lanes are there for a prompt that no check refuses.
pub open spec fn async_ready(
    m: Qwen3MoEShardedModel,
    sc: Seq<RankForwardPrefillScratch>,
    l: nat,
    start_position: usize,
    ubatch_size: usize,
) -> bool {
    m.shards@.len() >= 1 && l >= 1 && ubatch_size >= 1 ==> {
        &&& sc.len() >= 1
        &&& ubatch_size <= sc[0].max_tokens ==> {
            &&& sc[0].spec_u_lanes() <= usize::MAX
            &&& sc[0].spec_u_lanes() >= 2 ==> async_fits(m, sc, l, start_position, ubatch_size)
        }
    }
}

/// A batch that exists begins within the tokens and is neither empty nor too long.
pub proof fn lemma_ubatch(l: nat, u: nat, ub: nat)
    requires
        u > 0,
        ub < n_ubatches(l, u),
    ensures
        ub * u < l,
        1 <= ubatch_len(l, u, ub) <= u,
        ub * u + ubatch_len(l, u, ub) <= l,
{
    let q = l / u;
    assert(l == q * u + l % u && l % u < u) by (nonlinear_arith)
        requires
            u > 0,
            q == l / u,
    ;
    if ub < q {
        assert(ub * u + u <= q * u) by (nonlinear_arith)
            requires
                ub + 1 <= q,
        ;
    } else {
        assert(ub == q);
    }
}

proof fn lemma_count(l: nat, u: nat)
    requires
        u > 0,
    ensures
        n_ubatches(l, u) <= l,
        l > 0 ==> n_ubatches(l, u) >= 1,
{
    let q = l / u;
    assert(l == q * u + l % u) by (nonlinear_arith)
        requires
            u > 0,
            q == l / u,
    ;
    assert(q <= q * u) by (nonlinear_arith)
        requires
            u > 0,
            q >= 0,
    ;
    if q == 0 {
        assert(0 * u == 0);
    }
}

proof fn lemma_smaller_fits(base: DevicePtr, a: nat, b: nat, hidden: usize)
    requires
        a <= b,
        rows_fit(base, b, hidden),
    ensures
        rows_fit(base, a, hidden),
        a * (hidden * 2) <= b * (hidden * 2),
{
    assert(a * (hidden * 2) <= b * (hidden * 2)) by (nonlinear_arith)
        requires
            a <= b,
            hidden >= 0,
    ;
}

fn count_ubatches(l: usize, u: usize) -> (r: usize)
    requires
        u > 0,
    ensures
        r == n_ubatches(l as nat, u as nat),
{
    proof {
        lemma_count(l as nat, u as nat);
    }
    if l % u == 0 {
        l / u
    } else {
        l / u + 1
    }
}

fn ubatch_length(l: usize, u: usize, start: usize, Ghost(ub): Ghost<nat>) -> (r: usize)
    requires
        u > 0,
        ub < n_ubatches(l as nat, u as nat),
        start == ub * u,
    ensures
        r == ubatch_len(l as nat, u as nat, ub),
        start + r <= l,
        1 <= r <= u,
{
    proof {
        lemma_ubatch(l as nat, u as nat, ub);
    }
    if u <= l - start {
        u
    } else {
        l - start
    }
}

fn lane_rank_part(
    m: &Qwen3MoEShardedModel,
    sc: &Vec<RankForwardPrefillScratch>,
    tokens: &Vec<u32>,
    c: AsyncCtx,
    r: usize,
    ub: usize,
    out: &mut Vec<Op>,
) -> (res: Result<(), ForwardError>)
    requires
        r < m.shards@.len(),
        c.ubatch_size > 0,
        ub < n_ubatches(tokens@.len(), c.ubatch_size as nat),
        c.u_lanes == sc@[0].spec_u_lanes(),
        async_fits(*m, sc@, tokens@.len(), c.start_position, c.ubatch_size),
    ensures
        ran(
            old(out)@,
            final(out)@,
            res,
            lane_rank_run(*m, sc@, tokens@, c, r as int, ub as nat),
        ),
{
    let l: usize = tokens.len();
    let lane: usize = ub % c.u_lanes;
    let hidden: usize = m.config.hidden_size;
    proof {
        lemma_ubatch(l as nat, c.ubatch_size as nat, ub as nat);
        assert(sc@[r as int].spec_u_lanes() >= sc@[0].spec_u_lanes());
        assert(0 <= lane < c.u_lanes);
    }
    let start: usize = ub * c.ubatch_size;
    let u: usize = ubatch_length(l, c.ubatch_size, start, Ghost(ub as nat));
    proof {
        assert(rows_fit(
            sc@[0].spec_lane_hidden_a(lane as int),
            c.ubatch_size as nat,
            hidden,
        ));
        lemma_smaller_fits(
            sc@[0].spec_lane_hidden_a(lane as int),
            u as nat,
            c.ubatch_size as nat,
            hidden,
        );
    }
    let bytes: usize = u * (hidden * 2);
    let ghost entry = lane_entry(*m, sc@, tokens@, c, r as int, ub as nat);
    let ghost m0 = out@;
    let entered: Result<(), ForwardError> = if r == 0 {
        let dst = sc[0].lane_hidden_a(lane);
        embed_rows_part(m, StreamSel::Aux(lane), dst, tokens, start, u, out)
    } else {
        proof {
            assert(sc@[r - 1].spec_u_lanes() >= sc@[0].spec_u_lanes());
        }
        let op = Op::PeerCopy {
            mode: PeerMode::Lane(lane),
            dst_rank: r,
            dst: sc[r].lane_hidden_a(lane),
            src_rank: r - 1,
            src: sc[r - 1].lane_hidden_a(lane),
            bytes,
        };
        out.push(op);
        proof {
            assert(out@ =~= m0 + seq![op]);
        }
        Ok(())
    };
    let ghost m1 = out@;
    proof {
        assert(ran(m0, m1, entered, entry));
        assert(m1 =~= m1 + Seq::<Op>::empty());
    }
    if let Err(e) = entered {
        return Err(e);
    }
    if sc[r].lane_layer(lane).is_none() {
        let e = if r == 0 {
            ForwardError::NoRank0Lane
        } else {
            ForwardError::NoLane
        };
        proof {
            lemma_ran_then2(m0, m1, out@, Err(e), entry, fail(e));
        }
        return Err(e);
    }
    let chain = Chain {
        rank: r,
        stream: StreamSel::Aux(lane),
        pass: Pass::Prefill,
        a: sc[r].lane_hidden_a(lane),
        b: sc[r].lane_hidden_b(lane),
        n_tokens: u,
        position: c.start_position + start,
        bytes,
        lanes: true,
    };
    push_chain(&m.config, &m.shards[r].layers, chain, out);
    proof {
        assert(chain == lane_chain(*m, sc@[r as int], l as nat, c, r as int, ub as nat));
        lemma_ran_then2(
            m0,
            m1,
            out@,
            Ok(()),
            entry,
            done(chain_ops(m.config, m.shards@[r as int].layers@, chain)),
        );
    }
    Ok(())
}

fn cell_part(
    m: &Qwen3MoEShardedModel,
    sc: &Vec<RankForwardPrefillScratch>,
    tokens: &Vec<u32>,
    c: AsyncCtx,
    t: usize,
    r: usize,
    out: &mut Vec<Op>,
) -> (res: Result<(), ForwardError>)
    requires
        r < m.shards@.len(),
        c.ubatch_size > 0,
        c.u_lanes == sc@[0].spec_u_lanes(),
        async_fits(*m, sc@, tokens@.len(), c.start_position, c.ubatch_size),
    ensures
        ran(old(out)@, final(out)@, res, cell_run(*m, sc@, tokens@, c, t as int, r as int)),
{
    let n_ub: usize = count_ubatches(tokens.len(), c.ubatch_size);
    if r <= t && t - r < n_ub {
        return lane_rank_part(m, sc, tokens, c, r, t - r, out);
    }
    proof {
        assert(out@ =~= old(out)@ + Seq::<Op>::empty());
    }
    Ok(())
}

fn step_part(
    m: &Qwen3MoEShardedModel,
    sc: &Vec<RankForwardPrefillScratch>,
    tokens: &Vec<u32>,
    c: AsyncCtx,
    t: usize,
    out: &mut Vec<Op>,
) -> (res: Result<(), ForwardError>)
    requires
        c.ubatch_size > 0,
        c.u_lanes == sc@[0].spec_u_lanes(),
        async_fits(*m, sc@, tokens@.len(), c.start_position, c.ubatch_size),
    ensures
        ran(
            old(out)@,
            final(out)@,
            res,
            each(m.shards@.len(), |i: int| cell_run(*m, sc@, tokens@, c, t as int, i)),
        ),
{
    let ghost base = out@;
    let ghost f = |i: int| cell_run(*m, sc@, tokens@, c, t as int, i);
    let n: usize = m.shards.len();
    let mut i: usize = 0;
    proof {
        assert(out@ =~= base + each(0, f).ops);
    }
    while i < n
        invariant
            i <= n,
            n == m.shards.len(),
            base == old(out)@,
            f == (|i: int| cell_run(*m, sc@, tokens@, c, t as int, i)),
            ran(base, out@, Ok::<(), ForwardError>(()), each(i as nat, f)),
            n == m.shards@.len(),
            c.ubatch_size > 0,
            c.u_lanes == sc@[0].spec_u_lanes(),
            async_fits(*m, sc@, tokens@.len(), c.start_position, c.ubatch_size),
        decreases n - i,
    {
        let ghost mid = out@;
        match cell_part(m, sc, tokens, c, t, i, out) {
            Ok(_) => {
                proof {
                    lemma_ran_then2(base, mid, out@, Ok(()), each(i as nat, f), f(i as int));
                }
            },
            Err(e) => {
                proof {
                    lemma_ran_then2(base, mid, out@, Err(e), each(i as nat, f), f(i as int));
                    lemma_each_stops((i + 1) as nat, n as nat, f);
                }
                return Err(e);
            },
        }
        i = i + 1;
    }
    Ok(())
}

fn steps_all(
    m: &Qwen3MoEShardedModel,
    sc: &Vec<RankForwardPrefillScratch>,
    tokens: &Vec<u32>,
    c: AsyncCtx,
    steps: usize,
    out: &mut Vec<Op>,
) -> (res: Result<(), ForwardError>)
    requires
        c.ubatch_size > 0,
        c.u_lanes == sc@[0].spec_u_lanes(),
        async_fits(*m, sc@, tokens@.len(), c.start_position, c.ubatch_size),
    ensures
        ran(
            old(out)@,
            final(out)@,
            res,
            each(steps as nat, |i: int| step_run(*m, sc@, tokens@, c, i)),
        ),
{
    let ghost base = out@;
    let ghost f = |i: int| step_run(*m, sc@, tokens@, c, i);
    let n: usize = steps;
    let mut i: usize = 0;
    proof {
        assert(out@ =~= base + each(0, f).ops);
    }
    while i < n
        invariant
            i <= n,
            n == steps,
            base == old(out)@,
            f == (|i: int| step_run(*m, sc@, tokens@, c, i)),
            ran(base, out@, Ok::<(), ForwardError>(()), each(i as nat, f)),
            c.ubatch_size > 0,
            c.u_lanes == sc@[0].spec_u_lanes(),
            async_fits(*m, sc@, tokens@.len(), c.start_position, c.ubatch_size),
        decreases n - i,
    {
        let ghost mid = out@;
        match step_part(m, sc, tokens, c, i, out) {
            Ok(_) => {
                proof {
                    lemma_ran_then2(base, mid, out@, Ok(()), each(i as nat, f), f(i as int));
                }
            },
            Err(e) => {
                proof {
                    lemma_ran_then2(base, mid, out@, Err(e), each(i as nat, f), f(i as int));
                    lemma_each_stops((i + 1) as nat, n as nat, f);
                }
                return Err(e);
            },
        }
        i = i + 1;
    }
    Ok(())
}

fn async_head_part(
    m: &Qwen3MoEShardedModel,
    sc: &Vec<RankForwardPrefillScratch>,
    l: usize,
    c: AsyncCtx,
    out: &mut Vec<Op>,
) -> (res: Result<(), ForwardError>)
    requires
        m.shards@.len() >= 1,
        l >= 1,
        c.ubatch_size > 0,
        c.u_lanes == sc@[0].spec_u_lanes(),
        async_fits(*m, sc@, l as nat, c.start_position, c.ubatch_size),
    ensures
        ran(old(out)@, final(out)@, res, async_head_run(*m, sc@, l as nat, c)),
{
    let last: usize = m.shards.len() - 1;
    let hidden: usize = m.config.hidden_size;
    proof {
        lemma_count(l as nat, c.ubatch_size as nat);
    }
    let ub: usize = count_ubatches(l, c.ubatch_size) - 1;
    let lane: usize = ub % c.u_lanes;
    proof {
        lemma_ubatch(l as nat, c.ubatch_size as nat, ub as nat);
        assert(sc@[last as int].spec_u_lanes() >= sc@[0].spec_u_lanes());
        assert(0 <= lane < c.u_lanes);
        assert(rows_fit(
            sc@[m.shards@.len() - 1].spec_lane_hidden_a(lane as int),
            c.ubatch_size as nat,
            hidden,
        ));
    }
    let u: usize = ubatch_length(l, c.ubatch_size, ub * c.ubatch_size, Ghost(ub as nat));
    let x = row_ptr(
        sc[last].lane_hidden_a(lane),
        u - 1,
        hidden,
        Ghost(c.ubatch_size as nat),
    );
    let ghost m0 = out@;
    let op = Op::Sync { rank: last, stream: StreamSel::Aux(lane) };
    out.push(op);
    let ghost m1 = out@;
    proof {
        assert(m1 =~= m0 + seq![op]);
    }
    let with_head = sc[last].output_head.is_some();
    let outcome = pp_head_part(m, with_head, x, PpLogitsSink::Argmax, out);
    proof {
        lemma_ran_then2(
            m0,
            m1,
            out@,
            outcome,
            done(seq![op]),
            pp_head_run(*m, with_head, x, PpLogitsSink::Argmax),
        );
    }
    outcome
}

/// A prompt in batches of up to `ubatch_size` tokens that follow one another
/// through the pipeline, each on its lane. The largest logit after the last
/// token is picked on the host.
pub fn forward_prefill_pp_async(
    model: &Qwen3MoEShardedModel,
    scratch: &ShardedForwardPrefillScratch,
    tokens: &Vec<u32>,
    start_position: usize,
    ubatch_size: usize,
    out: &mut Vec<Op>,
) -> (res: Result<(), ForwardError>)
    requires
        async_ready(*model, scratch.per_rank@, tokens@.len(), start_position, ubatch_size),
    ensures
        ran(
            old(out)@,
            final(out)@,
            res,
            async_run(*model, scratch.per_rank@, tokens@, start_position, ubatch_size),
        ),
{
    proof {
        assert(out@ =~= out@ + Seq::<Op>::empty());
    }
    let n: usize = model.shards.len();
    if n == 0 {
        return Err(ForwardError::ZeroRanksAsync);
    }
    let l: usize = tokens.len();
    if l == 0 {
        return Err(ForwardError::EmptyTokensAsync);
    }
    if ubatch_size == 0 {
        return Err(ForwardError::UbatchZero);
    }
    let sc = &scratch.per_rank;
    if ubatch_size > sc[0].max_tokens {
        return Err(
            ForwardError::UbatchTooLarge { ubatch_size, max_tokens: sc[0].max_tokens },
        );
    }
    let u_lanes: usize = sc[0].u_lanes();
    if u_lanes < 2 {
        return Err(ForwardError::TooFewLanes { u_lanes });
    }
    let c = AsyncCtx { start_position, ubatch_size, u_lanes };
    proof {
        lemma_count(l as nat, ubatch_size as nat);
    }
    let steps: usize = n - 1 + count_ubatches(l, ubatch_size);
    let ghost st = each(steps as nat, |i: int| step_run(*model, sc@, tokens@, c, i));
    let ghost hd = async_head_run(*model, sc@, l as nat, c);
    let ghost rs = done::<Op, ForwardError>(reserve_ops(*model, c));
    let ghost start = out@;
    out.push(Op::ReserveStreams { n: u_lanes });
    out.push(
        Op::ReserveLaneBounces {
            lanes: u_lanes,
            bytes: ubatch_size * (model.config.hidden_size * 2),
        },
    );
    let ghost m0 = out@;
    proof {
        assert(m0 =~= start + reserve_ops(*model, c));
    }
    match steps_all(model, sc, tokens, c, steps, out) {
        Ok(_) => {},
        Err(e) => {
            proof {
                lemma_ran_then2(start, m0, out@, Err(e), rs, then2(st, hd));
            }
            return Err(e);
        },
    }
    let ghost m1 = out@;
    let outcome = async_head_part(model, sc, l, c, out);
    proof {
        lemma_ran_then2(m0, m1, out@, outcome, st, hd);
        lemma_ran_then2(start, m0, out@, outcome, rs, then2(st, hd));
    }
    outcome
}

/// Every batch comes to every rank in exactly one time step.
pub proof fn law_schedule_covers(n_ranks: nat, n_ub: nat, r: nat, ub: nat)
    requires
        r < n_ranks,
        ub < n_ub,
    ensures
        exists|t: nat| t < n_ranks + n_ub - 1 && #[trigger] scheduled(t, r, n_ub) == Some(ub),
        forall|t1: nat, t2: nat|
            #[trigger] scheduled(t1, r, n_ub) == Some(ub) && #[trigger] scheduled(t2, r, n_ub)
                == Some(ub) ==> t1 == t2,
{
    assert(scheduled(r + ub, r, n_ub) == Some(ub));
}

/// A batch comes to a rank after it was on the rank before, and after the
/// batch before it was on the same rank.
pub proof fn law_schedule_ordered(n_ub: nat, r1: nat, ub1: nat, t1: nat, r2: nat, ub2: nat, t2: nat)
    requires
        scheduled(t1, r1, n_ub) == Some(ub1),
        scheduled(t2, r2, n_ub) == Some(ub2),
        r1 <= r2,
        ub1 <= ub2,
        r1 < r2 || ub1 < ub2,
    ensures
        t1 < t2,
{
}

/// No two ranks work on the same batch in the same time step.
pub proof fn law_schedule_disjoint(n_ub: nat, t: nat, r1: nat, r2: nat, ub: nat)
    requires
        scheduled(t, r1, n_ub) == Some(ub),
        scheduled(t, r2, n_ub) == Some(ub),
    ensures
        r1 == r2,
{
}

/// The batches put together are the tokens.
pub proof fn law_ubatches_partition(tokens: Seq<u32>, u: nat)
    requires
        u > 0,
    ensures
        flat(n_ubatches(tokens.len(), u), |i: int| ubatch(tokens, u, i as nat)) == tokens,
{
    let n = n_ubatches(tokens.len(), u);
    lemma_ubatches_prefix(tokens, u, n);
    let l = tokens.len();
    let q = l / u;
    assert(l == q * u + l % u) by (nonlinear_arith)
        requires
            u > 0,
            q == l / u,
    ;
    assert((q + 1) * u == q * u + u) by (nonlinear_arith);
    assert(l % u < u) by (nonlinear_arith)
        requires
            u > 0,
    ;
    assert(n * u >= l);
    assert(tokens.take(l as int) =~= tokens);
}

proof fn lemma_ubatches_prefix(tokens: Seq<u32>, u: nat, n: nat)
    requires
        u > 0,
        n <= n_ubatches(tokens.len(), u),
    ensures
        flat(n, |i: int| ubatch(tokens, u, i as nat)) == tokens.take(
            if n * u <= tokens.len() {
                (n * u) as int
            } else {
                tokens.len() as int
            },
        ),
    decreases n,
{
    let f = |i: int| ubatch(tokens, u, i as nat);
    if n > 0 {
        let k = (n - 1) as nat;
        lemma_ubatches_prefix(tokens, u, k);
        lemma_ubatch(tokens.len(), u, k);
        assert(n * u == k * u + u) by (nonlinear_arith)
            requires
                n == k + 1,
        ;
        assert(flat(n, f) =~= tokens.take(
            if n * u <= tokens.len() {
                (n * u) as int
            } else {
                tokens.len() as int
            },
        ));
    } else {
        assert(0 * u == 0);
        assert(flat(0, f) =~= tokens.take(0));
    }
}

/// The step of layer `i` of rank `r` is repeated on its kept input.
pub open spec fn redo_layer(
    m: Qwen3MoEShardedModel,
    d: RankForwardScratch,
    p: RankForwardPrefillScratch,
    r: int,
    i: int,
) -> OpRun {
    let layer = m.shards@[r].layers@[i].layer_idx;
    if !m.config.spec_is_recurrent(layer as nat) {
        done(seq![])
    } else if i < p.gdn_input_snapshots@.len() && p.gdn_input_snapshots@[i] is Some {
        done(
            seq![
                Op::GdnLayer {
                    rank: r as usize,
                    local: i as usize,
                    layer,
                    x: p.gdn_input_snapshots@[i]->Some_0,
                    out: d.hidden_b,
                },
            ],
        )
    } else {
        fail(ForwardError::RedoNoSnapshot { rank: r as usize, layer })
    }
}

/// The steps of the recurrent layers of rank `r` are repeated.
pub open spec fn redo_rank(
    m: Qwen3MoEShardedModel,
    dec: Seq<RankForwardScratch>,
    pre: Seq<RankForwardPrefillScratch>,
    r: int,
) -> OpRun {
    if r >= dec.len() {
        fail(ForwardError::RedoNoDecodeRank)
    } else if dec[r].layer is None {
        fail(ForwardError::RedoNoLayer)
    } else if !dec[r].layer->Some_0.gdn {
        fail(ForwardError::RedoNoGdn)
    } else if r >= pre.len() {
        fail(ForwardError::RedoNoPrefillRank)
    } else {
        each(m.shards@[r].layers@.len(), |i: int| redo_layer(m, dec[r], pre[r], r, i))
    }
}

/// The steps of all recurrent layers are repeated.
pub open spec fn redo_run(
    m: Qwen3MoEShardedModel,
    ranks: nat,
    cluster_ranks: usize,
    dec: Seq<RankForwardScratch>,
    pre: Seq<RankForwardPrefillScratch>,
) -> OpRun {
    if ranks != cluster_ranks {
        fail(ForwardError::RedoRanks { session: ranks as usize, cluster: cluster_ranks })
    } else {
        each(ranks, |i: int| redo_rank(m, dec, pre, i))
    }
}

fn redo_layer_part(
    m: &Qwen3MoEShardedModel,
    d: &RankForwardScratch,
    p: &RankForwardPrefillScratch,
    r: usize,
    i: usize,
    out: &mut Vec<Op>,
) -> (res: Result<(), ForwardError>)
    requires
        r < m.shards@.len(),
        i < m.shards@[r as int].layers@.len(),
    ensures
        ran(old(out)@, final(out)@, res, redo_layer(*m, *d, *p, r as int, i as int)),
{
    proof {
        assert(out@ =~= out@ + Seq::<Op>::empty());
    }
    let layer: usize = m.shards[r].layers[i].layer_idx;
    if !m.config.is_recurrent(layer) {
        return Ok(());
    }
    if i < p.gdn_input_snapshots.len() {
        if let Some(x) = p.gdn_input_snapshots[i] {
            let op = Op::GdnLayer { rank: r, local: i, layer, x, out: d.hidden_b };
            out.push(op);
            proof {
                assert(out@ =~= old(out)@ + seq![op]);
            }
            return Ok(());
        }
    }
    Err(ForwardError::RedoNoSnapshot { rank: r, layer })
}

fn redo_layers_all(
    m: &Qwen3MoEShardedModel,
    d: &RankForwardScratch,
    p: &RankForwardPrefillScratch,
    r: usize,
    out: &mut Vec<Op>,
) -> (res: Result<(), ForwardError>)
    requires
        r < m.shards@.len(),
    ensures
        ran(
            old(out)@,
            final(out)@,
            res,
            each(m.shards@[r as int].layers@.len(), |i: int| redo_layer(*m, *d, *p, r as int, i)),
        ),
{
    let ghost base = out@;
    let ghost f = |i: int| redo_layer(*m, *d, *p, r as int, i);
    let n: usize = m.shards[r].layers.len();
    let mut i: usize = 0;
    proof {
        assert(out@ =~= base + each(0, f).ops);
    }
    while i < n
        invariant
            i <= n,
            base == old(out)@,
            f == (|i: int| redo_layer(*m, *d, *p, r as int, i)),
            ran(base, out@, Ok::<(), ForwardError>(()), each(i as nat, f)),
            r < m.shards@.len(),
            n == m.shards@[r as int].layers@.len(),
        decreases n - i,
    {
        let ghost mid = out@;
        match redo_layer_part(m, d, p, r, i, out) {
            Ok(_) => {
                proof {
                    lemma_ran_then2(base, mid, out@, Ok(()), each(i as nat, f), f(i as int));
                }
            },
            Err(e) => {
                proof {
                    lemma_ran_then2(base, mid, out@, Err(e), each(i as nat, f), f(i as int));
                    lemma_each_stops((i + 1) as nat, n as nat, f);
                }
                return Err(e);
            },
        }
        i = i + 1;
    }
    Ok(())
}

fn redo_rank_part(
    m: &Qwen3MoEShardedModel,
    dec: &Vec<RankForwardScratch>,
    pre: &Vec<RankForwardPrefillScratch>,
    r: usize,
    out: &mut Vec<Op>,
) -> (res: Result<(), ForwardError>)
    requires
        r < m.shards@.len(),
    ensures
        ran(old(out)@, final(out)@, res, redo_rank(*m, dec@, pre@, r as int)),
{
    proof {
        assert(out@ =~= out@ + Seq::<Op>::empty());
    }
    if r >= dec.len() {
        return Err(ForwardError::RedoNoDecodeRank);
    }
    let layer: LayerScratch = match dec[r].layer {
        Some(x) => x,
        None => {
            return Err(ForwardError::RedoNoLayer);
        },
    };
    if !layer.gdn {
        return Err(ForwardError::RedoNoGdn);
    }
    if r >= pre.len() {
        return Err(ForwardError::RedoNoPrefillRank);
    }
    redo_layers_all(m, &dec[r], &pre[r], r, out)
}

fn redo_ranks_all(
    m: &Qwen3MoEShardedModel,
    dec: &Vec<RankForwardScratch>,
    pre: &Vec<RankForwardPrefillScratch>,
    ranks: usize,
    out: &mut Vec<Op>,
) -> (res: Result<(), ForwardError>)
    requires
        ranks <= m.shards@.len(),
    ensures
        ran(old(out)@, final(out)@, res, each(ranks as nat, |i: int| redo_rank(*m, dec@, pre@, i))),
{
    let ghost base = out@;
    let ghost f = |i: int| redo_rank(*m, dec@, pre@, i);
    let n: usize = ranks;
    let mut i: usize = 0;
    proof {
        assert(out@ =~= base + each(0, f).ops);
    }
    while i < n
        invariant
            i <= n,
            n == ranks,
            base == old(out)@,
            f == (|i: int| redo_rank(*m, dec@, pre@, i)),
            ran(base, out@, Ok::<(), ForwardError>(()), each(i as nat, f)),
            ranks <= m.shards@.len(),
        decreases n - i,
    {
        let ghost mid = out@;
        match redo_rank_part(m, dec, pre, i, out) {
            Ok(_) => {
                proof {
                    lemma_ran_then2(base, mid, out@, Ok(()), each(i as nat, f), f(i as int));
                }
            },
            Err(e) => {
                proof {
                    lemma_ran_then2(base, mid, out@, Err(e), each(i as nat, f), f(i as int));
                    lemma_each_stops((i + 1) as nat, n as nat, f);
                }
                return Err(e);
            },
        }
        i = i + 1;
    }
    Ok(())
}

impl Qwen3MoEShardedSession {
    /// Repeats the step of every recurrent layer on the input that it had for
    /// the first of a pair of tokens. The outputs are discarded.
    pub fn redo_gdn_only_pp(
        &self,
        model: &Qwen3MoEShardedModel,
        cluster_ranks: usize,
        decode_scratch: &ShardedForwardOneTokenScratch,
        prefill_scratch: &ShardedForwardPrefillScratch,
        out: &mut Vec<Op>,
    ) -> (res: Result<(), ForwardError>)
        requires
            self.per_rank@.len() == cluster_ranks ==> cluster_ranks <= model.shards@.len(),
        ensures
            ran(
                old(out)@,
                final(out)@,
                res,
                redo_run(
                    *model,
                    self.per_rank@.len(),
                    cluster_ranks,
                    decode_scratch.per_rank@,
                    prefill_scratch.per_rank@,
                ),
            ),
    {
        let n: usize = self.per_rank.len();
        if n != cluster_ranks {
            proof {
                assert(out@ =~= out@ + Seq::<Op>::empty());
            }
            return Err(ForwardError::RedoRanks { session: n, cluster: cluster_ranks });
        }
        redo_ranks_all(model, &decode_scratch.per_rank, &prefill_scratch.per_rank, n, out)
    }
}

/// The device memory of one rank for one token, as it was allocated.
#[derive(Debug, Clone, Copy, PartialEq, Eq, Structural)]
pub struct PpBuffers {
    pub device_id: i32,
    pub hidden_a: DevicePtr,
    pub hidden_b: DevicePtr,
    pub layer: LayerScratch,
    /// Where the logits go, on the last rank.
    pub logits_f32: DevicePtr,
}

/// The device memory of one rank for a batch, as it was allocated.
#[derive(Debug)]
pub struct PpPrefillBuffers {
    pub device_id: i32,
    pub hidden_a: DevicePtr,
    pub hidden_b: DevicePtr,
    pub layer: LayerScratch,
    pub logits_f32: DevicePtr,
    /// The lanes after the first.
    pub lanes: Vec<PpBuffers>,
    /// A row for each layer; those of recurrent layers are used.
    pub snapshots: Vec<DevicePtr>,
}

/// The LM head has working memory on the last rank only.
pub open spec fn last_head(r: int, n: nat, logits_f32: DevicePtr) -> Option<OutputHeadScratch> {
    if r == n - 1 {
        Some(OutputHeadScratch { logits_f32 })
    } else {
        None
    }
}

/// The working memory of rank `r` on the buffers `b`.
pub open spec fn token_scratch(
    cfg: Qwen3MoEConfig,
    b: PpBuffers,
    r: int,
    n: nat,
) -> RankForwardScratch {
    RankForwardScratch {
        rank: RankId(r as u32),
        device_id: b.device_id,
        hidden_a: b.hidden_a,
        hidden_b: b.hidden_b,
        layer: Some(b.layer),
        output_head: last_head(r, n, b.logits_f32),
        hidden_bytes: (cfg.hidden_size * 2) as usize,
        disposed: false,
    }
}

/// The two buffers of a rank.
pub open spec fn two_frees(a: DevicePtr, b: DevicePtr, bytes: usize) -> Seq<Free> {
    seq![Free { ptr: a, bytes }, Free { ptr: b, bytes }]
}

impl RankForwardScratch {
    /// What `dispose` gives back.
    pub open spec fn spec_frees(self) -> Seq<Free> {
        if self.disposed {
            seq![]
        } else {
            two_frees(self.hidden_a, self.hidden_b, self.hidden_bytes)
        }
    }

    /// Lists the buffers to give back: both, and nothing the second time.
    pub fn dispose(&mut self) -> (r: Vec<Free>)
        ensures
            r@ == old(self).spec_frees(),
            *final(self) == (RankForwardScratch { disposed: true, ..*old(self) }),
    {
        let mut v: Vec<Free> = Vec::new();
        if !self.disposed {
            self.disposed = true;
            v.push(Free { ptr: self.hidden_a, bytes: self.hidden_bytes });
            v.push(Free { ptr: self.hidden_b, bytes: self.hidden_bytes });
        }
        proof {
            assert(v@ =~= old(self).spec_frees());
        }
        v
    }
}

impl ShardedForwardOneTokenScratch {
    /// The working memory on the buffers `bufs`, one entry for each rank. `out`
    /// gets what makes room for a row between the ranks.
    pub fn new(cfg: &Qwen3MoEConfig, bufs: &Vec<PpBuffers>, out: &mut Vec<Op>) -> (s: Self)
        requires
            cfg.hidden_size * 2 <= usize::MAX,
            bufs@.len() <= u32::MAX,
        ensures
            s.per_rank@ == Seq::new(
                bufs@.len(),
                |r: int| token_scratch(*cfg, bufs@[r], r, bufs@.len()),
            ),
            final(out)@ == old(out)@.push(
                Op::ReserveBounces { bytes: (cfg.hidden_size * 2) as usize },
            ),
    {
        let hidden_bytes: usize = cfg.hidden_size * 2;
        out.push(Op::ReserveBounces { bytes: hidden_bytes });
        let n: usize = bufs.len();
        let mut per_rank: Vec<RankForwardScratch> = Vec::new();
        let mut r: usize = 0;
        while r < n
            invariant
                r <= n,
                n == bufs@.len(),
                n <= u32::MAX,
                hidden_bytes == cfg.hidden_size * 2,
                per_rank@.len() == r,
                forall|j: int|
                    0 <= j < r ==> #[trigger] per_rank@[j] == token_scratch(
                        *cfg,
                        bufs@[j],
                        j,
                        n as nat,
                    ),
            decreases n - r,
        {
            let b: PpBuffers = bufs[r];
            let output_head = if r == n - 1 {
                Some(OutputHeadScratch { logits_f32: b.logits_f32 })
            } else {
                None
            };
            per_rank.push(
                RankForwardScratch {
                    rank: RankId(r as u32),
                    device_id: b.device_id,
                    hidden_a: b.hidden_a,
                    hidden_b: b.hidden_b,
                    layer: Some(b.layer),
                    output_head,
                    hidden_bytes,
                    disposed: false,
                },
            );
            r = r + 1;
        }
        proof {
            assert(per_rank@ =~= Seq::new(
                bufs@.len(),
                |r: int| token_scratch(*cfg, bufs@[r], r, bufs@.len()),
            ));
        }
        ShardedForwardOneTokenScratch { per_rank }
    }

    /// What `dispose` gives back, rank by rank.
    pub open spec fn spec_frees(&self) -> Seq<RankFree> {
        flat(
            self.per_rank@.len(),
            |i: int| rank_frees(self.per_rank@[i].rank, self.per_rank@[i].spec_frees()),
        )
    }

    /// Lists the buffers of every rank to give back. Nothing is left afterwards.
    pub fn dispose(&mut self) -> (v: Vec<RankFree>)
        ensures
            v@ == old(self).spec_frees(),
            final(self).per_rank@.len() == 0,
    {
        let mut v: Vec<RankFree> = Vec::new();
        let ghost all = self.per_rank@;
        let ghost f = |i: int| rank_frees(all[i].rank, all[i].spec_frees());
        let mut i: usize = 0;
        proof {
            assert(v@ =~= flat(0, f));
        }
        while i < self.per_rank.len()
            invariant
                i <= self.per_rank@.len(),
                self.per_rank@ == all,
                f == (|i: int| rank_frees(all[i].rank, all[i].spec_frees())),
                v@ == flat(i as nat, f),
            decreases self.per_rank@.len() - i,
        {
            let mut s: RankForwardScratch = self.per_rank[i];
            let rank = s.rank;
            let frees = s.dispose();
            push_rank_frees(rank, &frees, &mut v);
            proof {
                assert(f(i as int) == rank_frees(rank, frees@));
            }
            i = i + 1;
        }
        self.per_rank = Vec::new();
        proof {
            let g = |i: int|
                rank_frees(old(self).per_rank@[i].rank, old(self).per_rank@[i].spec_frees());
            lemma_flat_same(all.len(), f, g);
        }
        v
    }
}

/// A kept-input row is given back where there is one.
pub open spec fn snapshot_free(p: Option<DevicePtr>, bytes: usize) -> Seq<Free> {
    match p {
        Some(ptr) => seq![Free { ptr, bytes }],
        None => seq![],
    }
}

fn push_snapshot_frees(snaps: &Vec<Option<DevicePtr>>, bytes: usize, out: &mut Vec<Free>)
    ensures
        final(out)@ == old(out)@ + flat(snaps@.len(), |i: int| snapshot_free(snaps@[i], bytes)),
{
    let ghost base = out@;
    let ghost f = |i: int| snapshot_free(snaps@[i], bytes);
    let n: usize = snaps.len();
    let mut i: usize = 0;
    proof {
        assert(out@ =~= base + flat(0, f));
    }
    while i < n
        invariant
            i <= n,
            n == snaps.len(),
            base == old(out)@,
            f == (|i: int| snapshot_free(snaps@[i], bytes)),
            out@ == base + flat(i as nat, f),
            n == snaps@.len(),
        decreases n - i,
    {
        let ghost mid = out@;
        if let Some(ptr) = snaps[i] {
            out.push(Free { ptr, bytes });
        }
        proof {
            assert(out@ =~= mid + f(i as int));
            assert(out@ =~= base + flat((i + 1) as nat, f));
        }
        i = i + 1;
    }
}

fn push_lane_frees(lanes: &Vec<UbatchLane>, out: &mut Vec<Free>)
    ensures
        final(out)@ == old(out)@ + flat(
            lanes@.len(),
            |i: int| two_frees(lanes@[i].hidden_a, lanes@[i].hidden_b, lanes@[i].hidden_bytes),
        ),
{
    let ghost base = out@;
    let ghost f = |i: int| two_frees(
        lanes@[i].hidden_a,
        lanes@[i].hidden_b,
        lanes@[i].hidden_bytes,
    );
    let n: usize = lanes.len();
    let mut i: usize = 0;
    proof {
        assert(out@ =~= base + flat(0, f));
    }
    while i < n
        invariant
            i <= n,
            n == lanes.len(),
            base == old(out)@,
            f == (
                |i: int| two_frees(lanes@[i].hidden_a, lanes@[i].hidden_b, lanes@[i].hidden_bytes)
            ),
            out@ == base + flat(i as nat, f),
            n == lanes@.len(),
        decreases n - i,
    {
        let ghost mid = out@;
        out.push(Free { ptr: lanes[i].hidden_a, bytes: lanes[i].hidden_bytes });
        out.push(Free { ptr: lanes[i].hidden_b, bytes: lanes[i].hidden_bytes });
        proof {
            assert(out@ =~= mid + f(i as int));
            assert(out@ =~= base + flat((i + 1) as nat, f));
        }
        i = i + 1;
    }
}

impl RankForwardPrefillScratch {
    /// What `dispose` gives back.
    pub open spec fn spec_frees(&self) -> Seq<Free> {
        let snaps = self.gdn_input_snapshots@;
        let lanes = self.extra_lanes@;
        let bytes = self.snapshot_row_bytes;
        if self.disposed {
            seq![]
        } else {
            two_frees(self.hidden_a, self.hidden_b, self.hidden_bytes) + flat(
                snaps.len(),
                |i: int| snapshot_free(snaps[i], bytes),
            ) + flat(
                lanes.len(),
                |i: int| two_frees(lanes[i].hidden_a, lanes[i].hidden_b, lanes[i].hidden_bytes),
            )
        }
    }

    /// Lists the buffers to give back: the first lane, the kept inputs, the
    /// other lanes. A second call lists none.
    pub fn dispose(&mut self) -> (v: Vec<Free>)
        ensures
            v@ == old(self).spec_frees(),
            *final(self) == (RankForwardPrefillScratch { disposed: true, ..*old(self) }),
    {
        let mut v: Vec<Free> = Vec::new();
        if self.disposed {
            proof {
                assert(v@ =~= old(self).spec_frees());
            }
            return v;
        }
        self.disposed = true;
        v.push(Free { ptr: self.hidden_a, bytes: self.hidden_bytes });
        v.push(Free { ptr: self.hidden_b, bytes: self.hidden_bytes });
        proof {
            assert(v@ =~= two_frees(self.hidden_a, self.hidden_b, self.hidden_bytes));
        }
        push_snapshot_frees(&self.gdn_input_snapshots, self.snapshot_row_bytes, &mut v);
        push_lane_frees(&self.extra_lanes, &mut v);
        proof {
            let snaps = old(self).gdn_input_snapshots@;
            let lanes = old(self).extra_lanes@;
            let bytes = old(self).snapshot_row_bytes;
            let f = |i: int| snapshot_free(snaps[i], bytes);
            let g = |i: int|
                two_frees(lanes[i].hidden_a, lanes[i].hidden_b, lanes[i].hidden_bytes);
            assert(v@ == two_frees(
                old(self).hidden_a,
                old(self).hidden_b,
                old(self).hidden_bytes,
            ) + flat(snaps.len(), f) + flat(lanes.len(), g));
        }
        v
    }
}

/// The lanes after the first on their buffers.
pub open spec fn lanes_on(bufs: Seq<PpBuffers>, n: nat, bytes: usize) -> Seq<UbatchLane> {
    Seq::new(
        n,
        |i: int|
            UbatchLane {
                hidden_a: bufs[i].hidden_a,
                hidden_b: bufs[i].hidden_b,
                layer: bufs[i].layer,
                hidden_bytes: bytes,
            },
    )
}

/// The rows for the inputs of the recurrent layers.
pub open spec fn snapshots_on(
    cfg: Qwen3MoEConfig,
    layers: Seq<LayerWeights>,
    ptrs: Seq<DevicePtr>,
) -> Seq<Option<DevicePtr>> {
    Seq::new(
        layers.len(),
        |i: int|
            if cfg.spec_is_recurrent(layers[i].layer_idx as nat) {
                Some(ptrs[i])
            } else {
                None
            },
    )
}

/// `s` is the working memory of rank `r` on the buffers `b`.
pub open spec fn is_batch_scratch(
    s: RankForwardPrefillScratch,
    m: Qwen3MoEShardedModel,
    b: PpPrefillBuffers,
    ubatch_size: usize,
    u_lanes: usize,
    r: int,
    n: nat,
) -> bool {
    let bytes = (ubatch_size * m.config.hidden_size * 2) as usize;
    &&& s.rank == RankId(r as u32)
    &&& s.device_id == b.device_id
    &&& s.max_tokens == ubatch_size
    &&& s.hidden_a == b.hidden_a
    &&& s.hidden_b == b.hidden_b
    &&& s.layer == Some(b.layer)
    &&& s.output_head == last_head(r, n, b.logits_f32)
    &&& s.extra_lanes@ == lanes_on(b.lanes@, (u_lanes - 1) as nat, bytes)
    &&& s.gdn_input_snapshots@ == snapshots_on(m.config, m.shards@[r].layers@, b.snapshots@)
    &&& s.gdn_decode == (m.config.gdn is Some)
    &&& s.hidden_bytes == bytes
    &&& s.snapshot_row_bytes == (m.config.hidden_size * 2) as usize
    &&& !s.disposed
}

/// There are buffers for every lane and every layer.
pub open spec fn batch_buffers_ready(
    m: Qwen3MoEShardedModel,
    bufs: Seq<PpPrefillBuffers>,
    u_lanes: usize,
) -> bool {
    &&& bufs.len() <= u32::MAX
    &&& bufs.len() <= m.shards@.len()
    &&& forall|r: int|
        0 <= r < bufs.len() ==> (#[trigger] bufs[r]).lanes@.len() >= u_lanes - 1
            && bufs[r].snapshots@.len() >= m.shards@[r].layers@.len()
}

fn make_lanes(bufs: &Vec<PpBuffers>, n: usize, bytes: usize) -> (v: Vec<UbatchLane>)
    requires
        n <= bufs@.len(),
    ensures
        v@ == lanes_on(bufs@, n as nat, bytes),
{
    let mut v: Vec<UbatchLane> = Vec::new();
    let mut i: usize = 0;
    while i < n
        invariant
            i <= n,
            n <= bufs@.len(),
            v@.len() == i,
            forall|j: int| 0 <= j < i ==> #[trigger] v@[j] == lanes_on(bufs@, n as nat, bytes)[j],
        decreases n - i,
    {
        let b: PpBuffers = bufs[i];
        v.push(
            UbatchLane {
                hidden_a: b.hidden_a,
                hidden_b: b.hidden_b,
                layer: b.layer,
                hidden_bytes: bytes,
            },
        );
        i = i + 1;
    }
    proof {
        assert(v@ =~= lanes_on(bufs@, n as nat, bytes));
    }
    v
}

fn make_snapshots(
    cfg: &Qwen3MoEConfig,
    layers: &Vec<LayerWeights>,
    ptrs: &Vec<DevicePtr>,
) -> (v: Vec<Option<DevicePtr>>)
    requires
        layers@.len() <= ptrs@.len(),
    ensures
        v@ == snapshots_on(*cfg, layers@, ptrs@),
{
    let mut v: Vec<Option<DevicePtr>> = Vec::new();
    let mut i: usize = 0;
    while i < layers.len()
        invariant
            i <= layers@.len(),
            layers@.len() <= ptrs@.len(),
            v@.len() == i,
            forall|j: int|
                0 <= j < i ==> #[trigger] v@[j] == snapshots_on(*cfg, layers@, ptrs@)[j],
        decreases layers@.len() - i,
    {
        if cfg.is_recurrent(layers[i].layer_idx) {
            v.push(Some(ptrs[i]));
        } else {
            v.push(None);
        }
        i = i + 1;
    }
    proof {
        assert(v@ =~= snapshots_on(*cfg, layers@, ptrs@));
    }
    v
}

impl ShardedForwardPrefillScratch {
    /// Working memory with a single lane. `out` gets what makes room for a batch
    /// between the ranks.
    pub fn new(
        model: &Qwen3MoEShardedModel,
        bufs: &Vec<PpPrefillBuffers>,
        max_tokens: usize,
        out: &mut Vec<Op>,
    ) -> (s: Self)
        requires
            max_tokens >= 1,
            max_tokens * model.config.hidden_size * 2 <= usize::MAX,
            model.config.hidden_size * 2 <= usize::MAX,
            batch_buffers_ready(*model, bufs@, 1),
        ensures
            s.per_rank@.len() == bufs@.len(),
            forall|r: int|
                0 <= r < bufs@.len() ==> is_batch_scratch(
                    #[trigger] s.per_rank@[r],
                    *model,
                    bufs@[r],
                    max_tokens,
                    1,
                    r,
                    bufs@.len(),
                ),
            final(out)@ == old(out)@.push(
                Op::ReserveBounces {
                    bytes: (max_tokens * model.config.hidden_size * 2) as usize,
                },
            ),
    {
        Self::new_with_lanes(model, bufs, max_tokens, 1, out)
    }

    /// Working memory with `u_lanes` lanes for `ubatch_size` tokens each, on
    /// the buffers `bufs`, one entry for each rank. `out` gets what makes room for
    /// a batch between the ranks.
    pub fn new_with_lanes(
        model: &Qwen3MoEShardedModel,
        bufs: &Vec<PpPrefillBuffers>,
        ubatch_size: usize,
        u_lanes: usize,
        out: &mut Vec<Op>,
    ) -> (s: Self)
        requires
            ubatch_size >= 1,
            u_lanes >= 1,
            ubatch_size * model.config.hidden_size * 2 <= usize::MAX,
            model.config.hidden_size * 2 <= usize::MAX,
            batch_buffers_ready(*model, bufs@, u_lanes),
        ensures
            s.per_rank@.len() == bufs@.len(),
            forall|r: int|
                0 <= r < bufs@.len() ==> is_batch_scratch(
                    #[trigger] s.per_rank@[r],
                    *model,
                    bufs@[r],
                    ubatch_size,
                    u_lanes,
                    r,
                    bufs@.len(),
                ),
            final(out)@ == old(out)@.push(
                Op::ReserveBounces {
                    bytes: (ubatch_size * model.config.hidden_size * 2) as usize,
                },
            ),
    {
        proof {
            assert(ubatch_size * model.config.hidden_size <= ubatch_size
                * model.config.hidden_size * 2) by (nonlinear_arith)
                requires
                    ubatch_size >= 0,
                    model.config.hidden_size >= 0,
            ;
        }
        let hidden_bytes: usize = ubatch_size * model.config.hidden_size * 2;
        let row_bytes: usize = model.config.hidden_size * 2;
        out.push(Op::ReserveBounces { bytes: hidden_bytes });
        let n: usize = bufs.len();
        let mut per_rank: Vec<RankForwardPrefillScratch> = Vec::new();
        let mut r: usize = 0;
        while r < n
            invariant
                r <= n,
                n == bufs@.len(),
                u_lanes >= 1,
                batch_buffers_ready(*model, bufs@, u_lanes),
                hidden_bytes == ubatch_size * model.config.hidden_size * 2,
                row_bytes == model.config.hidden_size * 2,
                per_rank@.len() == r,
                forall|j: int|
                    0 <= j < r ==> is_batch_scratch(
                        #[trigger] per_rank@[j],
                        *model,
                        bufs@[j],
                        ubatch_size,
                        u_lanes,
                        j,
                        n as nat,
                    ),
            decreases n - r,
        {
            let b = &bufs[r];
            proof {
                assert(bufs@[r as int].lanes@.len() >= u_lanes - 1);
            }
            let output_head = if r == n - 1 {
                Some(OutputHeadScratch { logits_f32: b.logits_f32 })
            } else {
                None
            };
            let extra_lanes = make_lanes(&b.lanes, u_lanes - 1, hidden_bytes);
            let gdn_input_snapshots = make_snapshots(
                &model.config,
                &model.shards[r].layers,
                &b.snapshots,
            );
            per_rank.push(
                RankForwardPrefillScratch {
                    rank: RankId(r as u32),
                    device_id: b.device_id,
                    max_tokens: ubatch_size,
                    hidden_a: b.hidden_a,
                    hidden_b: b.hidden_b,
                    layer: Some(b.layer),
                    output_head,
                    extra_lanes,
                    gdn_input_snapshots,
                    gdn_decode: model.config.gdn.is_some(),
                    hidden_bytes,
                    snapshot_row_bytes: row_bytes,
                    disposed: false,
                },
            );
            r = r + 1;
        }
        ShardedForwardPrefillScratch { per_rank }
    }

    /// What `dispose` gives back, rank by rank.
    pub open spec fn spec_frees(&self) -> Seq<RankFree> {
        flat(
            self.per_rank@.len(),
            |i: int| rank_frees(self.per_rank@[i].rank, self.per_rank@[i].spec_frees()),
        )
    }

    /// Lists the buffers of every rank to give back. Nothing is left afterwards.
    pub fn dispose(&mut self) -> (v: Vec<RankFree>)
        ensures
            v@ == old(self).spec_frees(),
            final(self).per_rank@.len() == 0,
    {
        let mut v: Vec<RankFree> = Vec::new();
        let ghost all = self.per_rank@;
        let ghost f = |i: int| rank_frees(all[i].rank, all[i].spec_frees());
        let mut i: usize = 0;
        proof {
            assert(v@ =~= flat(0, f));
        }
        while i < self.per_rank.len()
            invariant
                i <= self.per_rank@.len(),
                self.per_rank@.len() == all.len(),
                forall|j: int| i <= j < all.len() ==> #[trigger] self.per_rank@[j] == all[j],
                f == (|i: int| rank_frees(all[i].rank, all[i].spec_frees())),
                v@ == flat(i as nat, f),
            decreases self.per_rank@.len() - i,
        {
            proof {
                assert(self.per_rank@[i as int] == all[i as int]);
            }
            let rank = self.per_rank[i].rank;
            let frees = self.per_rank[i].dispose();
            push_rank_frees(rank, &frees, &mut v);
            proof {
                assert(f(i as int) == rank_frees(rank, frees@));
            }
            i = i + 1;
        }
        self.per_rank = Vec::new();
        proof {
            let g = |i: int|
                rank_frees(old(self).per_rank@[i].rank, old(self).per_rank@[i].spec_frees());
            lemma_flat_same(all.len(), f, g);
        }
        v
    }
}

} // verus!
