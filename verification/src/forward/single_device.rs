//! Forward passes on a single device.
//!
//! The hidden state goes back and forth between two buffers, one step for each
//! layer.

use crate::config::Qwen3MoEConfig;
use crate::device::{DevicePtr, Free};
use crate::forward::op::{weight, weight_of, ForwardError, Op, Pass, StreamSel, Weight};
use crate::forward::pp::{
    embed_row_op, layer_op, push_embed_rows, push_layers, two_frees, x_at, Chain,
};
use crate::forward::tp::{row_at, row_ptr, rows_fit, LayerScratch, OutputHeadScratch};
use crate::plan::{done, fail, flat, lemma_flat_same, lemma_ran_then2, ran, then2, Run};
use crate::weights::ModelWeights;
use vstd::prelude::*;

verus! {

type OpRun = Run<Op, ForwardError>;

/// Working memory for one token.
#[derive(Debug, Clone, Copy, PartialEq, Eq, Structural)]
pub struct ForwardOneTokenScratch {
    pub hidden_a: DevicePtr,
    pub hidden_b: DevicePtr,
    pub layer: Option<LayerScratch>,
    pub output_head: Option<OutputHeadScratch>,
    pub hidden_bytes: usize,
    pub disposed: bool,
}

/// Working memory for up to `max_tokens` tokens.
#[derive(Debug, Clone, Copy, PartialEq, Eq, Structural)]
pub struct ForwardPrefillScratch {
    pub max_tokens: usize,
    pub hidden_a: DevicePtr,
    pub hidden_b: DevicePtr,
    pub layer: Option<LayerScratch>,
    pub output_head: Option<OutputHeadScratch>,
    pub hidden_bytes: usize,
    pub disposed: bool,
}

impl ForwardOneTokenScratch {
    /// The working memory on the given buffers.
    pub fn new(
        cfg: &Qwen3MoEConfig,
        hidden_a: DevicePtr,
        hidden_b: DevicePtr,
        layer: LayerScratch,
        output_head: OutputHeadScratch,
    ) -> (s: Self)
        requires
            cfg.hidden_size * 2 <= usize::MAX,
        ensures
            s.hidden_a == hidden_a,
            s.hidden_b == hidden_b,
            s.layer == Some(layer),
            s.output_head == Some(output_head),
            s.hidden_bytes == cfg.hidden_size * 2,
            !s.disposed,
    {
        ForwardOneTokenScratch {
            hidden_a,
            hidden_b,
            layer: Some(layer),
            output_head: Some(output_head),
            hidden_bytes: cfg.hidden_size * 2,
            disposed: false,
        }
    }

    /// What `dispose` gives back.
    pub open spec fn spec_frees(self) -> Seq<Free> {
        if self.disposed {
            seq![]
        } else {
            two_frees(self.hidden_a, self.hidden_b, self.hidden_bytes)
        }
    }

    /// Lists the buffers to give back: both, and nothing the second time.
    pub fn dispose(&mut self) -> (r: Vec<Free>)
        ensures
            r@ == old(self).spec_frees(),
            *final(self) == (ForwardOneTokenScratch { disposed: true, ..*old(self) }),
    {
        let mut v: Vec<Free> = Vec::new();
        if !self.disposed {
            self.disposed = true;
            v.push(Free { ptr: self.hidden_a, bytes: self.hidden_bytes });
            v.push(Free { ptr: self.hidden_b, bytes: self.hidden_bytes });
        }
        proof {
            assert(v@ =~= old(self).spec_frees());
        }
        v
    }
}

impl ForwardPrefillScratch {
    /// The working memory on the given buffers.
    pub fn new(
        cfg: &Qwen3MoEConfig,
        max_tokens: usize,
        hidden_a: DevicePtr,
        hidden_b: DevicePtr,
        layer: LayerScratch,
        output_head: OutputHeadScratch,
    ) -> (s: Self)
        requires
            max_tokens * cfg.hidden_size * 2 <= usize::MAX,
        ensures
            s.max_tokens == max_tokens,
            s.hidden_a == hidden_a,
            s.hidden_b == hidden_b,
            s.layer == Some(layer),
            s.output_head == Some(output_head),
            s.hidden_bytes == max_tokens * cfg.hidden_size * 2,
            !s.disposed,
    {
        proof {
            assert(max_tokens * cfg.hidden_size <= max_tokens * cfg.hidden_size * 2)
                by (nonlinear_arith)
                requires
                    max_tokens >= 0,
                    cfg.hidden_size >= 0,
            ;
        }
        ForwardPrefillScratch { max_tokens,
            hidden_a,
            hidden_b,
            layer: Some(layer),
            output_head: Some(output_head),
            hidden_bytes: max_tokens * cfg.hidden_size * 2,
            disposed: false,
        }
    }

    /// What `dispose` gives back.
    pub open spec fn spec_frees(self) -> Seq<Free> {
        if self.disposed {
            seq![]
        } else {
            two_frees(self.hidden_a, self.hidden_b, self.hidden_bytes)
        }
    }

    /// Lists the buffers to give back: both, and nothing the second time.
    pub fn dispose(&mut self) -> (r: Vec<Free>)
        ensures
            r@ == old(self).spec_frees(),
            *final(self) == (ForwardPrefillScratch { disposed: true, ..*old(self) }),
    {
        let mut v: Vec<Free> = Vec::new();
        if !self.disposed {
            self.disposed = true;
            v.push(Free { ptr: self.hidden_a, bytes: self.hidden_bytes });
            v.push(Free { ptr: self.hidden_b, bytes: self.hidden_bytes });
        }
        proof {
            assert(v@ =~= old(self).spec_frees());
        }
        v
    }
}

/// The LM head of a model: its own weight, or the embedding.
pub open spec fn lm_head_of(w: ModelWeights) -> Weight {
    match w.output {
        Some(t) => weight_of(t),
        None => weight_of(w.token_embd),
    }
}

fn lm_head(w: &ModelWeights) -> (r: Weight)
    ensures
        r == lm_head_of(*w),
{
    match &w.output {
        Some(t) => weight(t),
        None => weight(&w.token_embd),
    }
}

/// How the layers run.
pub open spec fn device_chain(
    pass: Pass,
    a: DevicePtr,
    b: DevicePtr,
    n_tokens: usize,
    position: usize,
) -> Chain {
    Chain {
        rank: 0,
        stream: StreamSel::Default,
        pass,
        a,
        b,
        n_tokens,
        position,
        bytes: 0,
        lanes: false,
    }
}

/// The layers in order.
pub open spec fn layers_ops(cfg: Qwen3MoEConfig, w: ModelWeights, c: Chain) -> Seq<Op> {
    let layers = w.layers@;
    flat(layers.len(), |i: int| seq![layer_op(cfg, layers, c, i)])
}

/// The LM head on the row `x`, and the largest logit.
pub open spec fn device_head_run(
    cfg: Qwen3MoEConfig,
    w: ModelWeights,
    with_scratch: bool,
    x: DevicePtr,
    missing: ForwardError,
) -> OpRun {
    if !with_scratch {
        fail(missing)
    } else {
        done(
            seq![
                Op::OutputHead {
                    rank: 0,
                    norm: weight_of(w.output_norm),
                    lm_head: lm_head_of(w),
                    x,
                },
                Op::Argmax { rank: 0, vocab: cfg.vocab_size },
            ],
        )
    }
}

/// One token through the whole model.
pub open spec fn one_token_device_run(
    cfg: Qwen3MoEConfig,
    w: ModelWeights,
    s: ForwardOneTokenScratch,
    token: u32,
    position: usize,
) -> OpRun {
    then2(
        done(
            seq![
                Op::Embed {
                    rank: 0,
                    stream: StreamSel::Default,
                    table: weight_of(w.token_embd),
                    token,
                    dst: s.hidden_a,
                    hidden: cfg.hidden_size,
                },
            ],
        ),
        if s.layer is None {
            fail(ForwardError::OneTokenNoLayer)
        } else {
            then2(
                done(
                    layers_ops(
                        cfg,
                        w,
                        device_chain(Pass::Decode, s.hidden_a, s.hidden_b, 1, position),
                    ),
                ),
                device_head_run(
                    cfg,
                    w,
                    s.output_head is Some,
                    x_at(s.hidden_a, s.hidden_b, w.layers@.len() as int),
                    ForwardError::OneTokenNoHead,
                ),
            )
        },
    )
}

fn device_head_part(
    cfg: &Qwen3MoEConfig,
    w: &ModelWeights,
    with_scratch: bool,
    x: DevicePtr,
    missing: ForwardError,
    out: &mut Vec<Op>,
) -> (res: Result<(), ForwardError>)
    ensures
        ran(old(out)@, final(out)@, res, device_head_run(*cfg, *w, with_scratch, x, missing)),
{
    if !with_scratch {
        proof {
            assert(out@ =~= old(out)@ + Seq::<Op>::empty());
        }
        return Err(missing);
    }
    out.push(
        Op::OutputHead { rank: 0, norm: weight(&w.output_norm), lm_head: lm_head(w), x },
    );
    out.push(Op::Argmax { rank: 0, vocab: cfg.vocab_size });
    proof {
        assert(out@ =~= old(out)@ + device_head_run(*cfg, *w, with_scratch, x, missing).ops);
    }
    Ok(())
}

fn final_ptr(a: DevicePtr, b: DevicePtr, n: usize) -> (p: DevicePtr)
    ensures
        p == x_at(a, b, n as int),
{
    if n % 2 == 0 {
        a
    } else {
        b
    }
}

/// One token through the whole model. The largest logit is picked.
pub fn forward_one_token(
    cfg: &Qwen3MoEConfig,
    weights: &ModelWeights,
    scratch: &ForwardOneTokenScratch,
    token_id: u32,
    position: usize,
    out: &mut Vec<Op>,
) -> (res: Result<(), ForwardError>)
    ensures
        ran(
            old(out)@,
            final(out)@,
            res,
            one_token_device_run(*cfg, *weights, *scratch, token_id, position),
        ),
{
    let op = Op::Embed {
        rank: 0,
        stream: StreamSel::Default,
        table: weight(&weights.token_embd),
        token: token_id,
        dst: scratch.hidden_a,
        hidden: cfg.hidden_size,
    };
    let ghost m0 = out@;
    out.push(op);
    let ghost m1 = out@;
    let ghost em = done::<Op, ForwardError>(seq![op]);
    proof {
        assert(m1 =~= m0 + seq![op]);
        assert(m1 =~= m1 + Seq::<Op>::empty());
    }
    if scratch.layer.is_none() {
        let e = ForwardError::OneTokenNoLayer;
        proof {
            lemma_ran_then2(m0, m1, out@, Err(e), em, fail(e));
        }
        return Err(e);
    }
    let c = Chain {
        rank: 0,
        stream: StreamSel::Default,
        pass: Pass::Decode,
        a: scratch.hidden_a,
        b: scratch.hidden_b,
        n_tokens: 1,
        position,
        bytes: 0,
        lanes: false,
    };
    let ghost ly = done::<Op, ForwardError>(layers_ops(*cfg, *weights, c));
    push_layers(cfg, &weights.layers, c, out);
    let ghost m2 = out@;
    let x = final_ptr(scratch.hidden_a, scratch.hidden_b, weights.layers.len());
    let e = ForwardError::OneTokenNoHead;
    let ghost hd = device_head_run(*cfg, *weights, scratch.output_head is Some, x, e);
    let outcome = device_head_part(cfg, weights, scratch.output_head.is_some(), x, e, out);
    proof {
        lemma_ran_then2(m1, m2, out@, outcome, ly, hd);
        lemma_ran_then2(m0, m1, out@, outcome, em, then2(ly, hd));
    }
    outcome
}

/// A batch through the whole model, up to the LM head on its last token.
pub open spec fn prefill_device_run(
    cfg: Qwen3MoEConfig,
    w: ModelWeights,
    s: ForwardPrefillScratch,
    tokens: Seq<u32>,
    position: usize,
) -> OpRun {
    if tokens.len() == 0 {
        fail(ForwardError::PrefillEmpty)
    } else if tokens.len() > s.max_tokens {
        fail(
            ForwardError::PrefillTooLong {
                len: tokens.len() as usize,
                max_tokens: s.max_tokens,
            },
        )
    } else {
        then2(
            done(
                flat(
                    tokens.len(),
                    |i: int|
                        seq![
                            embed_row_op(
                                cfg,
                                weight_of(w.token_embd),
                                StreamSel::Default,
                                s.hidden_a,
                                tokens,
                                i,
                            ),
                        ],
                ),
            ),
            if s.layer is None {
                fail(ForwardError::PrefillNoLayer)
            } else {
                then2(
                    done(
                        layers_ops(
                            cfg,
                            w,
                            device_chain(
                                Pass::Prefill,
                                s.hidden_a,
                                s.hidden_b,
                                tokens.len() as usize,
                                position,
                            ),
                        ),
                    ),
                    device_head_run(
                        cfg,
                        w,
                        s.output_head is Some,
                        row_at(
                            x_at(s.hidden_a, s.hidden_b, w.layers@.len() as int),
                            tokens.len() - 1,
                            cfg.hidden_size,
                        ),
                        ForwardError::PrefillNoHead,
                    ),
                )
            },
        )
    }
}

/// A batch through the whole model. The largest logit after its last token is
/// picked.
pub fn forward_prefill(
    cfg: &Qwen3MoEConfig,
    weights: &ModelWeights,
    scratch: &ForwardPrefillScratch,
    tokens: &Vec<u32>,
    start_position: usize,
    out: &mut Vec<Op>,
) -> (res: Result<(), ForwardError>)
    requires
        rows_fit(scratch.hidden_a, tokens@.len(), cfg.hidden_size),
        rows_fit(scratch.hidden_b, tokens@.len(), cfg.hidden_size),
    ensures
        ran(
            old(out)@,
            final(out)@,
            res,
            prefill_device_run(*cfg, *weights, *scratch, tokens@, start_position),
        ),
{
    let l: usize = tokens.len();
    proof {
        assert(out@ =~= out@ + Seq::<Op>::empty());
        assert(tokens@.subrange(0, tokens@.len() as int) =~= tokens@);
    }
    if l == 0 {
        return Err(ForwardError::PrefillEmpty);
    }
    if l > scratch.max_tokens {
        return Err(ForwardError::PrefillTooLong { len: l, max_tokens: scratch.max_tokens });
    }
    let table = weight(&weights.token_embd);
    let ghost m0 = out@;
    push_embed_rows(cfg, table, StreamSel::Default, scratch.hidden_a, tokens, 0, l, out);
    let ghost m1 = out@;
    let ghost em = done::<Op, ForwardError>(
        flat(
            tokens@.len(),
            |i: int|
                seq![
                    embed_row_op(
                        *cfg,
                        table,
                        StreamSel::Default,
                        scratch.hidden_a,
                        tokens@,
                        i,
                    ),
                ],
        ),
    );
    proof {
        let f = |i: int|
            seq![
                embed_row_op(
                    *cfg,
                    table,
                    StreamSel::Default,
                    scratch.hidden_a,
                    tokens@.subrange(0usize as int, 0usize + l),
                    i,
                ),
            ];
        let g = |i: int|
            seq![
                embed_row_op(*cfg, table, StreamSel::Default, scratch.hidden_a, tokens@, i),
            ];
        lemma_flat_same(tokens@.len(), f, g);
        assert(m1 =~= m0 + em.ops);
        assert(m1 =~= m1 + Seq::<Op>::empty());
    }
    if scratch.layer.is_none() {
        let e = ForwardError::PrefillNoLayer;
        proof {
            lemma_ran_then2(m0, m1, out@, Err(e), em, fail(e));
        }
        return Err(e);
    }
    let c = Chain {
        rank: 0,
        stream: StreamSel::Default,
        pass: Pass::Prefill,
        a: scratch.hidden_a,
        b: scratch.hidden_b,
        n_tokens: l,
        position: start_position,
        bytes: 0,
        lanes: false,
    };
    let ghost ly = done::<Op, ForwardError>(layers_ops(*cfg, *weights, c));
    push_layers(cfg, &weights.layers, c, out);
    let ghost m2 = out@;
    let base = final_ptr(scratch.hidden_a, scratch.hidden_b, weights.layers.len());
    let x = row_ptr(base, l - 1, cfg.hidden_size, Ghost(l as nat));
    let e = ForwardError::PrefillNoHead;
    let ghost hd = device_head_run(*cfg, *weights, scratch.output_head is Some, x, e);
    let outcome = device_head_part(cfg, weights, scratch.output_head.is_some(), x, e, out);
    proof {
        lemma_ran_then2(m1, m2, out@, outcome, ly, hd);
        lemma_ran_then2(m0, m1, out@, outcome, em, then2(ly, hd));
    }
    outcome
}

} // verus!
