//! Steps of the multi-token-prediction head, as lists of device operations.

use crate::config::Qwen3MoEConfig;
use crate::device::DevicePtr;
use crate::forward::speculative::{argmax, is_argmax};
use crate::mtp::{sizes_for, step_fits, MtpError, MtpForwardScratch, MtpHeadWeights, MtpKvCache};
use crate::plan::{done, each, fail, lemma_each_stops, lemma_ran_then2, ran, Run};
use crate::tensor::GgmlDType;
use crate::weights::DeviceTensor;
use vstd::prelude::*;

verus! {

/// The type of activations.
#[derive(Debug, Clone, Copy, PartialEq, Eq, Structural)]
pub enum Act {
    Half,
    Bf16,
}

/// One operation on the head's device.
#[derive(Debug, Clone, Copy, PartialEq, Eq, Structural)]
pub enum MtpOp {
    /// Norms rows.
    RmsNorm {
        act: Act,
        x: DevicePtr,
        weight: DevicePtr,
        out: DevicePtr,
        rows: usize,
        cols: usize,
        eps_bits: u32,
    },
    /// Norms a row and quantises it.
    RmsNormQuant {
        x: DevicePtr,
        weight: DevicePtr,
        out: DevicePtr,
        rows: usize,
        cols: usize,
        eps_bits: u32,
    },
    /// Quantises halves to Q8_1.
    Quantize { x: DevicePtr, out: DevicePtr, n: usize },
    /// Multiplies a quantised row by a matrix.
    Mmvq {
        weight: DevicePtr,
        x: DevicePtr,
        out: DevicePtr,
        rows: usize,
        cols: usize,
        dtype: GgmlDType,
    },
    /// Multiplies a row of bfloat16s by a matrix of bfloat16s.
    MmvqBf16 { weight: DevicePtr, x: DevicePtr, out: DevicePtr, rows: usize, cols: usize },
    /// Rounds singles.
    Narrow { act: Act, x: DevicePtr, out: DevicePtr, n: usize },
    /// Converts halves to bfloat16s.
    HalfToBf16 { x: DevicePtr, out: DevicePtr, n: usize },
    /// Converts bfloat16s to halves.
    Bf16ToHalf { x: DevicePtr, out: DevicePtr, n: usize },
    /// Splits rows into Q and their gates.
    SplitQGate {
        act: Act,
        x: DevicePtr,
        q: DevicePtr,
        gate: DevicePtr,
        heads: usize,
        head_dim: usize,
    },
    /// Rotates the first dims of every head.
    Rope {
        act: Act,
        x: DevicePtr,
        position: usize,
        heads: usize,
        head_dim: usize,
        rotated_dims: usize,
        freq_base_bits: u32,
    },
    /// Copies within the device.
    Copy { dst: DevicePtr, src: DevicePtr, bytes: usize },
    /// Attends to `n_kv` slots.
    Attention {
        act: Act,
        q: DevicePtr,
        k: DevicePtr,
        v: DevicePtr,
        out: DevicePtr,
        heads: usize,
        kv_heads: usize,
        head_dim: usize,
        n_kv: usize,
    },
    /// Multiplies by the sigmoid of a gate.
    SigmoidMul { act: Act, gate: DevicePtr, x: DevicePtr, out: DevicePtr, n: usize },
    /// Adds singles.
    Add { a: DevicePtr, b: DevicePtr, out: DevicePtr, n: usize },
    /// Joins gate and up and quantises.
    SwigluQuant { gate: DevicePtr, up: DevicePtr, out: DevicePtr, n: usize },
    /// Joins gate and up to bfloat16s.
    SwigluBf16 { gate: DevicePtr, up: DevicePtr, out: DevicePtr, n: usize },
    /// Copies to the host.
    Download { src: DevicePtr, bytes: usize },
    /// Waits for the stream.
    Sync,
}

/// One step of the plan. A product needs a kernel for the type of its matrix.
#[derive(Debug, Clone, Copy)]
pub enum MtpStep<'a> {
    Plain(MtpOp),
    Linear { w: &'a DeviceTensor, x: DevicePtr, out: DevicePtr, rows: usize, cols: usize },
    Head { w: &'a DeviceTensor, x: DevicePtr, out: DevicePtr, rows: usize, cols: usize },
}

/// There is a kernel for a matrix of the head of that type.
pub open spec fn linear_ok(d: GgmlDType) -> bool {
    d == GgmlDType::Q8_0 || d == GgmlDType::F16
}

/// There is a kernel for an LM head of that type.
pub open spec fn head_ok(d: GgmlDType) -> bool {
    match d {
        GgmlDType::F16 | GgmlDType::Q8_0 | GgmlDType::Q4_0 | GgmlDType::Q4_1 | GgmlDType::Q4K
        | GgmlDType::Q5_0 | GgmlDType::Q5K | GgmlDType::Q6K => true,
        _ => false,
    }
}

fn head_supported(d: GgmlDType) -> (r: bool)
    ensures
        r == head_ok(d),
{
    match d {
        GgmlDType::F16 | GgmlDType::Q8_0 | GgmlDType::Q4_0 | GgmlDType::Q4_1 | GgmlDType::Q4K
        | GgmlDType::Q5_0 | GgmlDType::Q5K | GgmlDType::Q6K => true,
        _ => false,
    }
}

/// What a step does.
pub open spec fn step_run(s: MtpStep) -> Run<MtpOp, MtpError> {
    match s {
        MtpStep::Plain(op) => done(seq![op]),
        MtpStep::Linear { w, x, out, rows, cols } => if linear_ok(w.dtype) {
            done(seq![MtpOp::Mmvq { weight: w.ptr, x, out, rows, cols, dtype: w.dtype }])
        } else {
            fail(MtpError::LinearDtype { name: w.name, dtype: w.dtype })
        },
        MtpStep::Head { w, x, out, rows, cols } => if head_ok(w.dtype) {
            done(seq![MtpOp::Mmvq { weight: w.ptr, x, out, rows, cols, dtype: w.dtype }])
        } else {
            fail(MtpError::HeadDtype { dtype: w.dtype })
        },
    }
}

/// What a plan does: it stops at the first product without a kernel.
pub open spec fn steps_run(steps: Seq<MtpStep>) -> Run<MtpOp, MtpError> {
    each(steps.len(), |i: int| step_run(steps[i]))
}

fn run_step(s: &MtpStep, out: &mut Vec<MtpOp>) -> (res: Result<(), MtpError>)
    ensures
        ran(old(out)@, final(out)@, res, step_run(*s)),
{
    proof {
        assert(out@ =~= old(out)@ + Seq::<MtpOp>::empty());
    }
    match s {
        MtpStep::Plain(op) => {
            out.push(*op);
        },
        MtpStep::Linear { w, x, out: y, rows, cols } => {
            if w.dtype != GgmlDType::Q8_0 && w.dtype != GgmlDType::F16 {
                return Err(MtpError::LinearDtype { name: w.name.clone(), dtype: w.dtype });
            }
            out.push(
                MtpOp::Mmvq {
                    weight: w.ptr,
                    x: *x,
                    out: *y,
                    rows: *rows,
                    cols: *cols,
                    dtype: w.dtype,
                },
            );
        },
        MtpStep::Head { w, x, out: y, rows, cols } => {
            if !head_supported(w.dtype) {
                return Err(MtpError::HeadDtype { dtype: w.dtype });
            }
            out.push(
                MtpOp::Mmvq {
                    weight: w.ptr,
                    x: *x,
                    out: *y,
                    rows: *rows,
                    cols: *cols,
                    dtype: w.dtype,
                },
            );
        },
    }
    proof {
        assert(out@ =~= old(out)@ + step_run(*s).ops);
    }
    Ok(())
}

fn run_steps(steps: &Vec<MtpStep>, out: &mut Vec<MtpOp>) -> (res: Result<(), MtpError>)
    ensures
        ran(old(out)@, final(out)@, res, steps_run(steps@)),
{
    let ghost base = out@;
    let ghost f = |i: int| step_run(steps@[i]);
    let n: usize = steps.len();
    let mut i: usize = 0;
    proof {
        assert(out@ =~= base + each(0, f).ops);
    }
    while i < n
        invariant
            i <= n,
            n == steps@.len(),
            base == old(out)@,
            f == (|i: int| step_run(steps@[i])),
            ran(base, out@, Ok::<(), MtpError>(()), each(i as nat, f)),
        decreases n - i,
    {
        let ghost mid = out@;
        match run_step(&steps[i], out) {
            Ok(_) => {
                proof {
                    lemma_ran_then2(base, mid, out@, Ok(()), each(i as nat, f), f(i as int));
                }
            },
            Err(e) => {
                proof {
                    lemma_ran_then2(base, mid, out@, Err(e), each(i as nat, f), f(i as int));
                    lemma_each_stops((i + 1) as nat, n as nat, f);
                }
                return Err(e);
            },
        }
        i = i + 1;
    }
    Ok(())
}

/// The bytes of one slot of K or V.
pub open spec fn slot_bytes(cfg: &Qwen3MoEConfig) -> int {
    cfg.num_kv_heads * cfg.head_dim * 2
}

/// The address `bytes` further on.
pub open spec fn past(p: DevicePtr, bytes: int) -> DevicePtr {
    DevicePtr((p.0 + bytes) as usize)
}

/// The addresses of a step can be computed.
pub open spec fn addresses_fit(
    cfg: &Qwen3MoEConfig,
    s: &MtpForwardScratch,
    kv: Option<MtpKvCache>,
) -> bool {
    &&& step_fits(cfg)
    &&& s.sizes == sizes_for(cfg)
    &&& s.fc_in_f16.0 + cfg.hidden_size * 2 <= usize::MAX
    &&& kv matches Some(c) ==> {
        &&& c.cache_position * slot_bytes(cfg) <= usize::MAX
        &&& c.kcache.0 + c.cache_position * slot_bytes(cfg) <= usize::MAX
        &&& c.vcache.0 + c.cache_position * slot_bytes(cfg) <= usize::MAX
    }
}

/// Where the step's K and V go.
pub open spec fn kv_slot(cfg: &Qwen3MoEConfig, s: &MtpForwardScratch, kv: Option<MtpKvCache>) -> (
    DevicePtr,
    DevicePtr,
) {
    match kv {
        Some(c) => (
            past(c.kcache, c.cache_position * slot_bytes(cfg)),
            past(c.vcache, c.cache_position * slot_bytes(cfg)),
        ),
        None => (s.kcache_slot_f16, s.vcache_slot_f16),
    }
}

/// The K and V that are attended to, and how many slots of them.
pub open spec fn kv_seen(s: &MtpForwardScratch, kv: Option<MtpKvCache>) -> (
    DevicePtr,
    DevicePtr,
    usize,
) {
    match kv {
        Some(c) => (c.kcache, c.vcache, c.n_tokens_kv),
        None => (s.kcache_slot_f16, s.vcache_slot_f16, 1),
    }
}

pub proof fn lemma_products_fit(cfg: &Qwen3MoEConfig)
    requires
        step_fits(cfg),
    ensures
        0 <= cfg.num_heads * cfg.head_dim <= usize::MAX,
        0 <= 2 * (cfg.num_heads * cfg.head_dim) <= usize::MAX,
        0 <= cfg.num_kv_heads * cfg.head_dim <= usize::MAX,
        0 <= slot_bytes(cfg) <= usize::MAX,
{
    assert(cfg.num_heads * cfg.head_dim >= 0 && cfg.num_kv_heads * cfg.head_dim >= 0)
        by (nonlinear_arith)
        requires
            cfg.num_heads >= 0,
            cfg.head_dim >= 0,
            cfg.num_kv_heads >= 0,
    ;
}

/// Norming the embedding and the hidden row side by side, joining them, and Q, K and V.
pub open spec fn enter_steps<'a>(
    cfg: &Qwen3MoEConfig,
    mtp: &'a MtpHeadWeights,
    s: &MtpForwardScratch,
    h_t: DevicePtr,
    e_token: DevicePtr,
) -> Seq<MtpStep<'a>> {
    let h = cfg.hidden_size;
    let nq2 = (2 * (cfg.num_heads * cfg.head_dim)) as usize;
    let nkv = (cfg.num_kv_heads * cfg.head_dim) as usize;
    let h2 = (2 * cfg.hidden_size) as usize;
    let eps_bits = cfg.rms_norm_eps_bits;
    let second = past(s.fc_in_f16, h * 2);
    seq![
        MtpStep::Plain(
            MtpOp::RmsNorm {
                act: Act::Half,
                x: e_token,
                weight: mtp.pre_fc_norm_embedding.ptr,
                out: s.fc_in_f16,
                rows: 1,
                cols: h,
                eps_bits: eps_bits,
            }
        ),
        MtpStep::Plain(
            MtpOp::RmsNorm {
                act: Act::Half,
                x: h_t,
                weight: mtp.pre_fc_norm_hidden.ptr,
                out: second,
                rows: 1,
                cols: h,
                eps_bits: eps_bits,
            }
        ),
        MtpStep::Plain(MtpOp::Quantize { x: s.fc_in_f16, out: s.fc_in_q8_1, n: h2 }),
        MtpStep::Linear { w: &mtp.fc, x: s.fc_in_q8_1, out: s.h0_f32, rows: h, cols: h2 },
        MtpStep::Plain(MtpOp::Narrow { act: Act::Half, x: s.h0_f32, out: s.h0_f16, n: h }),
        MtpStep::Plain(
            MtpOp::RmsNormQuant {
                x: s.h0_f16,
                weight: mtp.block.input_layernorm.ptr,
                out: s.h0n_q8_1,
                rows: 1,
                cols: h,
                eps_bits: eps_bits,
            }
        ),
        MtpStep::Linear {
            w: &mtp.block.q_proj,
            x: s.h0n_q8_1,
            out: s.q_full_f32,
            rows: nq2,
            cols: h,
        },
        MtpStep::Plain(
            MtpOp::Narrow { act: Act::Half, x: s.q_full_f32, out: s.q_full_f16, n: nq2 }
        ),
        MtpStep::Plain(
            MtpOp::SplitQGate {
                act: Act::Half,
                x: s.q_full_f16,
                q: s.q_f16,
                gate: s.gate_f16,
                heads: cfg.num_heads,
                head_dim: cfg.head_dim,
            }
        ),
        MtpStep::Linear { w: &mtp.block.k_proj, x: s.h0n_q8_1, out: s.k_f32, rows: nkv, cols: h },
        MtpStep::Plain(MtpOp::Narrow { act: Act::Half, x: s.k_f32, out: s.k_f16, n: nkv }),
        MtpStep::Linear { w: &mtp.block.v_proj, x: s.h0n_q8_1, out: s.v_f32, rows: nkv, cols: h },
        MtpStep::Plain(MtpOp::Narrow { act: Act::Half, x: s.v_f32, out: s.v_f16, n: nkv }),
    ]
}

fn push_enter<'a>(
    cfg: &Qwen3MoEConfig,
    mtp: &'a MtpHeadWeights,
    s: &MtpForwardScratch,
    h_t: DevicePtr,
    e_token: DevicePtr,
    out: &mut Vec<MtpStep<'a>>,
)
    requires
        step_fits(cfg),
        s.fc_in_f16.0 + cfg.hidden_size * 2 <= usize::MAX,
    ensures
        final(out)@ == old(out)@ + enter_steps(cfg, mtp, s, h_t, e_token),
{
    proof {
        lemma_products_fit(cfg);
    }
    let h: usize = cfg.hidden_size;
    let nq: usize = cfg.num_heads * cfg.head_dim;
    let nq2: usize = 2 * nq;
    let nkv: usize = cfg.num_kv_heads * cfg.head_dim;
    let h2: usize = 2 * h;
    let eps_bits: u32 = cfg.rms_norm_eps_bits;
    let second = s.fc_in_f16.offset_bytes(h * 2);
    out.push(
        MtpStep::Plain(
            MtpOp::RmsNorm {
                act: Act::Half,
                x: e_token,
                weight: mtp.pre_fc_norm_embedding.ptr,
                out: s.fc_in_f16,
                rows: 1,
                cols: h,
                eps_bits: eps_bits,
            }
        )
    );
    out.push(
        MtpStep::Plain(
            MtpOp::RmsNorm {
                act: Act::Half,
                x: h_t,
                weight: mtp.pre_fc_norm_hidden.ptr,
                out: second,
                rows: 1,
                cols: h,
                eps_bits: eps_bits,
            }
        )
    );
    out.push(MtpStep::Plain(MtpOp::Quantize { x: s.fc_in_f16, out: s.fc_in_q8_1, n: h2 }));
    out.push(MtpStep::Linear { w: &mtp.fc, x: s.fc_in_q8_1, out: s.h0_f32, rows: h, cols: h2 });
    out.push(MtpStep::Plain(MtpOp::Narrow { act: Act::Half, x: s.h0_f32, out: s.h0_f16, n: h }));
    out.push(
        MtpStep::Plain(
            MtpOp::RmsNormQuant {
                x: s.h0_f16,
                weight: mtp.block.input_layernorm.ptr,
                out: s.h0n_q8_1,
                rows: 1,
                cols: h,
                eps_bits: eps_bits,
            }
        )
    );
    out.push(
        MtpStep::Linear {
            w: &mtp.block.q_proj,
            x: s.h0n_q8_1,
            out: s.q_full_f32,
            rows: nq2,
            cols: h,
        }
    );
    out.push(
        MtpStep::Plain(MtpOp::Narrow { act: Act::Half, x: s.q_full_f32, out: s.q_full_f16, n: nq2 })
    );
    out.push(
        MtpStep::Plain(
            MtpOp::SplitQGate {
                act: Act::Half,
                x: s.q_full_f16,
                q: s.q_f16,
                gate: s.gate_f16,
                heads: cfg.num_heads,
                head_dim: cfg.head_dim,
            }
        )
    );
    out.push(
        MtpStep::Linear { w: &mtp.block.k_proj, x: s.h0n_q8_1, out: s.k_f32, rows: nkv, cols: h }
    );
    out.push(MtpStep::Plain(MtpOp::Narrow { act: Act::Half, x: s.k_f32, out: s.k_f16, n: nkv }));
    out.push(
        MtpStep::Linear { w: &mtp.block.v_proj, x: s.h0n_q8_1, out: s.v_f32, rows: nkv, cols: h }
    );
    out.push(MtpStep::Plain(MtpOp::Narrow { act: Act::Half, x: s.v_f32, out: s.v_f16, n: nkv }));
    proof {
        assert(out@ =~= old(out)@ + enter_steps(cfg, mtp, s, h_t, e_token));
    }
}

/// The rotation of Q and K. There is none at position 0.
pub open spec fn rope_steps<'a>(
    cfg: &Qwen3MoEConfig,
    s: &MtpForwardScratch,
    act: Act,
    position: usize,
) -> Seq<MtpStep<'a>> {
    if position == 0 {
        seq![]
    } else {
        seq![
            MtpStep::Plain(MtpOp::Rope {
                act,
                x: s.q_f16,
                position,
                heads: cfg.num_heads,
                head_dim: cfg.head_dim,
                rotated_dims: cfg.rope.rotated_dims,
                freq_base_bits: cfg.rope.freq_base_bits,
            }),
            MtpStep::Plain(MtpOp::Rope {
                act,
                x: s.k_f16,
                position,
                heads: cfg.num_kv_heads,
                head_dim: cfg.head_dim,
                rotated_dims: cfg.rope.rotated_dims,
                freq_base_bits: cfg.rope.freq_base_bits,
            }),
        ]
    }
}

fn push_rope<'a>(
    cfg: &Qwen3MoEConfig,
    s: &MtpForwardScratch,
    act: Act,
    position: usize,
    out: &mut Vec<MtpStep<'a>>,
)
    ensures
        final(out)@ == old(out)@ + rope_steps(cfg, s, act, position),
{
    if position != 0 {
        out.push(
            MtpStep::Plain(MtpOp::Rope {
                act,
                x: s.q_f16,
                position,
                heads: cfg.num_heads,
                head_dim: cfg.head_dim,
                rotated_dims: cfg.rope.rotated_dims,
                freq_base_bits: cfg.rope.freq_base_bits,
            }),
        );
        out.push(
            MtpStep::Plain(MtpOp::Rope {
                act,
                x: s.k_f16,
                position,
                heads: cfg.num_kv_heads,
                head_dim: cfg.head_dim,
                rotated_dims: cfg.rope.rotated_dims,
                freq_base_bits: cfg.rope.freq_base_bits,
            }),
        );
    }
    proof {
        assert(out@ =~= old(out)@ + rope_steps(cfg, s, act, position));
    }
}

/// Norming Q and K head by head.
pub open spec fn head_norm_steps<'a>(
    cfg: &Qwen3MoEConfig,
    mtp: &'a MtpHeadWeights,
    s: &MtpForwardScratch,
    act: Act,
) -> Seq<MtpStep<'a>> {
    let eps_bits = cfg.rms_norm_eps_bits;
    seq![
        MtpStep::Plain(
            MtpOp::RmsNorm {
                act: act,
                x: s.q_f16,
                weight: mtp.block.q_norm.ptr,
                out: s.q_f16,
                rows: cfg.num_heads,
                cols: cfg.head_dim,
                eps_bits: eps_bits,
            }
        ),
        MtpStep::Plain(
            MtpOp::RmsNorm {
                act: act,
                x: s.k_f16,
                weight: mtp.block.k_norm.ptr,
                out: s.k_f16,
                rows: cfg.num_kv_heads,
                cols: cfg.head_dim,
                eps_bits: eps_bits,
            }
        ),
    ]
}

/// Storing K and V, attending, and gating.
pub open spec fn attend_steps<'a>(
    cfg: &Qwen3MoEConfig,
    s: &MtpForwardScratch,
    act: Act,
    kv: Option<MtpKvCache>,
) -> Seq<MtpStep<'a>> {
    let (kd, vd) = kv_slot(cfg, s, kv);
    let (k, v, n_kv) = kv_seen(s, kv);
    let bytes = slot_bytes(cfg) as usize;
    let nq = (cfg.num_heads * cfg.head_dim) as usize;
    seq![
        MtpStep::Plain(MtpOp::Copy { dst: kd, src: s.k_f16, bytes }),
        MtpStep::Plain(MtpOp::Copy { dst: vd, src: s.v_f16, bytes }),
        MtpStep::Plain(MtpOp::Attention {
            act,
            q: s.q_f16,
            k,
            v,
            out: s.attn_out_f16,
            heads: cfg.num_heads,
            kv_heads: cfg.num_kv_heads,
            head_dim: cfg.head_dim,
            n_kv,
        }),
        MtpStep::Plain(MtpOp::SigmoidMul {
            act,
            gate: s.gate_f16,
            x: s.attn_out_f16,
            out: s.gated_out_f16,
            n: nq,
        }),
    ]
}

fn push_attend<'a>(
    cfg: &Qwen3MoEConfig,
    mtp: &'a MtpHeadWeights,
    s: &MtpForwardScratch,
    act: Act,
    position: usize,
    kv: Option<MtpKvCache>,
    out: &mut Vec<MtpStep<'a>>,
)
    requires
        addresses_fit(cfg, s, kv),
    ensures
        final(out)@ == old(out)@ + head_norm_steps(cfg, mtp, s, act) + rope_steps(
            cfg,
            s,
            act,
            position,
        ) + attend_steps(cfg, s, act, kv),
{
    let eps_bits: u32 = cfg.rms_norm_eps_bits;
    out.push(
        MtpStep::Plain(
            MtpOp::RmsNorm {
                act: act,
                x: s.q_f16,
                weight: mtp.block.q_norm.ptr,
                out: s.q_f16,
                rows: cfg.num_heads,
                cols: cfg.head_dim,
                eps_bits: eps_bits,
            }
        )
    );
    out.push(
        MtpStep::Plain(
            MtpOp::RmsNorm {
                act: act,
                x: s.k_f16,
                weight: mtp.block.k_norm.ptr,
                out: s.k_f16,
                rows: cfg.num_kv_heads,
                cols: cfg.head_dim,
                eps_bits: eps_bits,
            }
        )
    );
    proof {
        assert(out@ =~= old(out)@ + head_norm_steps(cfg, mtp, s, act));
        lemma_products_fit(cfg);
    }
    push_rope(cfg, s, act, position, out);
    let bytes: usize = s.sizes.bytes_kv_f16;
    let nq: usize = cfg.num_heads * cfg.head_dim;
    let (kd, vd, k, v, n_kv): (DevicePtr, DevicePtr, DevicePtr, DevicePtr, usize) = match kv {
        Some(c) => {
            proof {
                assert(bytes == slot_bytes(cfg));
                let (a, b) = (c.cache_position as int, bytes as int);
                assert(a * b >= 0) by (nonlinear_arith)
                    requires
                        a >= 0,
                        b >= 0,
                ;
            }
            let off: usize = c.cache_position * bytes;
            (
                c.kcache.offset_bytes(off),
                c.vcache.offset_bytes(off),
                c.kcache,
                c.vcache,
                c.n_tokens_kv,
            )
        },
        None => (
            s.kcache_slot_f16,
            s.vcache_slot_f16,
            s.kcache_slot_f16,
            s.vcache_slot_f16,
            1,
        ),
    };
    let ghost mid = out@;
    out.push(MtpStep::Plain(MtpOp::Copy { dst: kd, src: s.k_f16, bytes }));
    out.push(MtpStep::Plain(MtpOp::Copy { dst: vd, src: s.v_f16, bytes }));
    out.push(
        MtpStep::Plain(MtpOp::Attention {
            act,
            q: s.q_f16,
            k,
            v,
            out: s.attn_out_f16,
            heads: cfg.num_heads,
            kv_heads: cfg.num_kv_heads,
            head_dim: cfg.head_dim,
            n_kv,
        }),
    );
    out.push(
        MtpStep::Plain(MtpOp::SigmoidMul {
            act,
            gate: s.gate_f16,
            x: s.attn_out_f16,
            out: s.gated_out_f16,
            n: nq,
        }),
    );
    proof {
        assert(out@ =~= mid + attend_steps(cfg, s, act, kv));
    }
}

/// The output projection, the FFN and the last norm. Residuals are added as singles.
pub open spec fn leave_steps<'a>(
    cfg: &Qwen3MoEConfig,
    mtp: &'a MtpHeadWeights,
    s: &MtpForwardScratch,
    h_final_out: DevicePtr,
) -> Seq<MtpStep<'a>> {
    let h = cfg.hidden_size;
    let inter = cfg.moe_intermediate_size;
    let nq = (cfg.num_heads * cfg.head_dim) as usize;
    let eps_bits = cfg.rms_norm_eps_bits;
    seq![
        MtpStep::Plain(MtpOp::Quantize { x: s.gated_out_f16, out: s.gated_q8_1, n: nq }),
        MtpStep::Linear {
            w: &mtp.block.o_proj,
            x: s.gated_q8_1,
            out: s.attn_proj_f32,
            rows: h,
            cols: nq,
        },
        MtpStep::Plain(MtpOp::Add { a: s.h0_f32, b: s.attn_proj_f32, out: s.attn_proj_f32, n: h }),
        MtpStep::Plain(MtpOp::Narrow { act: Act::Half, x: s.attn_proj_f32, out: s.h1_f16, n: h }),
        MtpStep::Plain(
            MtpOp::RmsNormQuant {
                x: s.h1_f16,
                weight: mtp.block.post_attention_layernorm.ptr,
                out: s.h1n_q8_1,
                rows: 1,
                cols: h,
                eps_bits: eps_bits,
            }
        ),
        MtpStep::Linear {
            w: &mtp.block.gate_proj,
            x: s.h1n_q8_1,
            out: s.gate_mlp_f32,
            rows: inter,
            cols: h,
        },
        MtpStep::Linear {
            w: &mtp.block.up_proj,
            x: s.h1n_q8_1,
            out: s.up_mlp_f32,
            rows: inter,
            cols: h,
        },
        MtpStep::Plain(
            MtpOp::SwigluQuant { gate: s.gate_mlp_f32, up: s.up_mlp_f32, out: s.mlp_q8_1, n: inter }
        ),
        MtpStep::Linear {
            w: &mtp.block.down_proj,
            x: s.mlp_q8_1,
            out: s.down_f32,
            rows: h,
            cols: inter,
        },
        MtpStep::Plain(MtpOp::Add { a: s.attn_proj_f32, b: s.down_f32, out: s.down_f32, n: h }),
        MtpStep::Plain(MtpOp::Narrow { act: Act::Half, x: s.down_f32, out: s.h2_f16, n: h }),
        MtpStep::Plain(
            MtpOp::RmsNorm {
                act: Act::Half,
                x: s.h2_f16,
                weight: mtp.norm.ptr,
                out: h_final_out,
                rows: 1,
                cols: h,
                eps_bits: eps_bits,
            }
        ),
        MtpStep::Plain(MtpOp::Sync),
    ]
}

fn push_leave<'a>(
    cfg: &Qwen3MoEConfig,
    mtp: &'a MtpHeadWeights,
    s: &MtpForwardScratch,
    h_final_out: DevicePtr,
    out: &mut Vec<MtpStep<'a>>,
)
    requires
        step_fits(cfg),
    ensures
        final(out)@ == old(out)@ + leave_steps(cfg, mtp, s, h_final_out),
{
    proof {
        lemma_products_fit(cfg);
    }
    let h: usize = cfg.hidden_size;
    let inter: usize = cfg.moe_intermediate_size;
    let nq: usize = cfg.num_heads * cfg.head_dim;
    let eps_bits: u32 = cfg.rms_norm_eps_bits;
    out.push(MtpStep::Plain(MtpOp::Quantize { x: s.gated_out_f16, out: s.gated_q8_1, n: nq }));
    out.push(
        MtpStep::Linear {
            w: &mtp.block.o_proj,
            x: s.gated_q8_1,
            out: s.attn_proj_f32,
            rows: h,
            cols: nq,
        }
    );
    out.push(
        MtpStep::Plain(MtpOp::Add { a: s.h0_f32, b: s.attn_proj_f32, out: s.attn_proj_f32, n: h })
    );
    out.push(
        MtpStep::Plain(MtpOp::Narrow { act: Act::Half, x: s.attn_proj_f32, out: s.h1_f16, n: h })
    );
    out.push(
        MtpStep::Plain(
            MtpOp::RmsNormQuant {
                x: s.h1_f16,
                weight: mtp.block.post_attention_layernorm.ptr,
                out: s.h1n_q8_1,
                rows: 1,
                cols: h,
                eps_bits: eps_bits,
            }
        )
    );
    out.push(
        MtpStep::Linear {
            w: &mtp.block.gate_proj,
            x: s.h1n_q8_1,
            out: s.gate_mlp_f32,
            rows: inter,
            cols: h,
        }
    );
    out.push(
        MtpStep::Linear {
            w: &mtp.block.up_proj,
            x: s.h1n_q8_1,
            out: s.up_mlp_f32,
            rows: inter,
            cols: h,
        }
    );
    out.push(
        MtpStep::Plain(
            MtpOp::SwigluQuant { gate: s.gate_mlp_f32, up: s.up_mlp_f32, out: s.mlp_q8_1, n: inter }
        )
    );
    out.push(
        MtpStep::Linear {
            w: &mtp.block.down_proj,
            x: s.mlp_q8_1,
            out: s.down_f32,
            rows: h,
            cols: inter,
        }
    );
    out.push(
        MtpStep::Plain(MtpOp::Add { a: s.attn_proj_f32, b: s.down_f32, out: s.down_f32, n: h })
    );
    out.push(MtpStep::Plain(MtpOp::Narrow { act: Act::Half, x: s.down_f32, out: s.h2_f16, n: h }));
    out.push(
        MtpStep::Plain(
            MtpOp::RmsNorm {
                act: Act::Half,
                x: s.h2_f16,
                weight: mtp.norm.ptr,
                out: h_final_out,
                rows: 1,
                cols: h,
                eps_bits: eps_bits,
            }
        )
    );
    out.push(MtpStep::Plain(MtpOp::Sync));
    proof {
        assert(out@ =~= old(out)@ + leave_steps(cfg, mtp, s, h_final_out));
    }
}

/// A step of the head: from the hidden row `h_t` and the embedding `e_token` to
/// the row that the LM head reads.
pub open spec fn mtp_steps<'a>(
    cfg: &Qwen3MoEConfig,
    mtp: &'a MtpHeadWeights,
    s: &MtpForwardScratch,
    h_t: DevicePtr,
    e_token: DevicePtr,
    position: usize,
    h_final_out: DevicePtr,
    kv: Option<MtpKvCache>,
) -> Seq<MtpStep<'a>> {
    enter_steps(cfg, mtp, s, h_t, e_token) + head_norm_steps(cfg, mtp, s, Act::Half) + rope_steps(
        cfg,
        s,
        Act::Half,
        position,
    ) + attend_steps(cfg, s, Act::Half, kv) + leave_steps(cfg, mtp, s, h_final_out)
}

fn push_mtp<'a>(
    cfg: &Qwen3MoEConfig,
    mtp: &'a MtpHeadWeights,
    s: &MtpForwardScratch,
    h_t: DevicePtr,
    e_token: DevicePtr,
    position: usize,
    h_final_out: DevicePtr,
    kv: Option<MtpKvCache>,
    out: &mut Vec<MtpStep<'a>>,
)
    requires
        addresses_fit(cfg, s, kv),
    ensures
        final(out)@ == old(out)@ + mtp_steps(
            cfg,
            mtp,
            s,
            h_t,
            e_token,
            position,
            h_final_out,
            kv,
        ),
{
    push_enter(cfg, mtp, s, h_t, e_token, out);
    push_attend(cfg, mtp, s, Act::Half, position, kv, out);
    push_leave(cfg, mtp, s, h_final_out, out);
    proof {
        assert(out@ =~= old(out)@ + mtp_steps(
            cfg,
            mtp,
            s,
            h_t,
            e_token,
            position,
            h_final_out,
            kv,
        ));
    }
}

/// Lists one step of the head on halves. It stops at the first product without
/// a kernel.
pub fn forward_mtp_step(
    cfg: &Qwen3MoEConfig,
    mtp: &MtpHeadWeights,
    scratch: &MtpForwardScratch,
    h_t: DevicePtr,
    e_token: DevicePtr,
    position: usize,
    h_final_out: DevicePtr,
    kv: Option<MtpKvCache>,
    out: &mut Vec<MtpOp>,
) -> (res: Result<(), MtpError>)
    requires
        addresses_fit(cfg, scratch, kv),
    ensures
        ran(
            old(out)@,
            final(out)@,
            res,
            steps_run(mtp_steps(cfg, mtp, scratch, h_t, e_token, position, h_final_out, kv)),
        ),
{
    let mut steps: Vec<MtpStep> = Vec::new();
    push_mtp(cfg, mtp, scratch, h_t, e_token, position, h_final_out, kv, &mut steps);
    proof {
        assert(steps@ =~= mtp_steps(cfg, mtp, scratch, h_t, e_token, position, h_final_out, kv));
    }
    run_steps(&steps, out)
}

/// What a plan of the head with the LM head behind it does.
pub open spec fn lm_steps<'a>(
    cfg: &Qwen3MoEConfig,
    mtp: &'a MtpHeadWeights,
    s: &MtpForwardScratch,
    output_norm: &DeviceTensor,
    lm_head: &'a DeviceTensor,
    hidden: DevicePtr,
    e_token: DevicePtr,
    position: usize,
    kv: Option<MtpKvCache>,
) -> Seq<MtpStep<'a>> {
    seq![
        MtpStep::Plain(MtpOp::RmsNorm {
            act: Act::Half,
            x: hidden,
            weight: output_norm.ptr,
            out: s.h_t_post_norm,
            rows: 1,
            cols: cfg.hidden_size,
            eps_bits: cfg.rms_norm_eps_bits,
        }),
    ] + mtp_steps(cfg, mtp, s, s.h_t_post_norm, e_token, position, s.mtp_h_final, kv) + seq![
        MtpStep::Plain(MtpOp::Quantize { x: s.mtp_h_final, out: s.x_q8_1, n: cfg.hidden_size }),
        MtpStep::Head {
            w: lm_head,
            x: s.x_q8_1,
            out: s.logits_f32,
            rows: cfg.vocab_size,
            cols: cfg.hidden_size,
        },
    ]
}

/// Bringing the logits to the host.
pub open spec fn fetch_steps<'a>(cfg: &Qwen3MoEConfig, s: &MtpForwardScratch) -> Seq<MtpStep<'a>> {
    seq![
        MtpStep::Plain(MtpOp::Download {
            src: s.logits_f32,
            bytes: (cfg.vocab_size * 4) as usize,
        }),
        MtpStep::Plain(MtpOp::Sync),
    ]
}

fn push_lm<'a>(
    cfg: &Qwen3MoEConfig,
    mtp: &'a MtpHeadWeights,
    s: &MtpForwardScratch,
    output_norm: &DeviceTensor,
    lm_head: &'a DeviceTensor,
    hidden: DevicePtr,
    e_token: DevicePtr,
    position: usize,
    kv: Option<MtpKvCache>,
) -> (steps: Vec<MtpStep<'a>>)
    requires
        addresses_fit(cfg, s, kv),
    ensures
        steps@ == lm_steps(cfg, mtp, s, output_norm, lm_head, hidden, e_token, position, kv),
{
    let mut steps: Vec<MtpStep<'a>> = Vec::new();
    steps.push(
        MtpStep::Plain(MtpOp::RmsNorm {
            act: Act::Half,
            x: hidden,
            weight: output_norm.ptr,
            out: s.h_t_post_norm,
            rows: 1,
            cols: cfg.hidden_size,
            eps_bits: cfg.rms_norm_eps_bits,
        }),
    );
    push_mtp(cfg, mtp, s, s.h_t_post_norm, e_token, position, s.mtp_h_final, kv, &mut steps);
    steps.push(
        MtpStep::Plain(MtpOp::Quantize { x: s.mtp_h_final, out: s.x_q8_1, n: cfg.hidden_size }),
    );
    steps.push(
        MtpStep::Head {
            w: lm_head,
            x: s.x_q8_1,
            out: s.logits_f32,
            rows: cfg.vocab_size,
            cols: cfg.hidden_size,
        },
    );
    proof {
        assert(steps@ =~= lm_steps(
            cfg,
            mtp,
            s,
            output_norm,
            lm_head,
            hidden,
            e_token,
            position,
            kv,
        ));
    }
    steps
}

/// Lists one step of the head and the LM head. The logits stay on the device.
pub fn forward_mtp_step_with_lm_head_async(
    cfg: &Qwen3MoEConfig,
    mtp: &MtpHeadWeights,
    scratch: &MtpForwardScratch,
    output_norm_weight: &DeviceTensor,
    lm_head_weight: &DeviceTensor,
    hidden_pre_norm: DevicePtr,
    token_embd_row: DevicePtr,
    position: usize,
    kv: Option<MtpKvCache>,
    out: &mut Vec<MtpOp>,
) -> (res: Result<(), MtpError>)
    requires
        addresses_fit(cfg, scratch, kv),
    ensures
        ran(
            old(out)@,
            final(out)@,
            res,
            steps_run(
                lm_steps(
                    cfg,
                    mtp,
                    scratch,
                    output_norm_weight,
                    lm_head_weight,
                    hidden_pre_norm,
                    token_embd_row,
                    position,
                    kv,
                ),
            ),
        ),
{
    let steps = push_lm(
        cfg,
        mtp,
        scratch,
        output_norm_weight,
        lm_head_weight,
        hidden_pre_norm,
        token_embd_row,
        position,
        kv,
    );
    run_steps(&steps, out)
}

/// Lists one step of the head and the LM head, and fetches the logits.
/// `mtp_logits_argmax_host` picks the token from them.
pub fn forward_mtp_step_with_lm_head(
    cfg: &Qwen3MoEConfig,
    mtp: &MtpHeadWeights,
    scratch: &MtpForwardScratch,
    output_norm_weight: &DeviceTensor,
    lm_head_weight: &DeviceTensor,
    hidden_pre_norm: DevicePtr,
    token_embd_row: DevicePtr,
    position: usize,
    kv: Option<MtpKvCache>,
    out: &mut Vec<MtpOp>,
) -> (res: Result<(), MtpError>)
    requires
        addresses_fit(cfg, scratch, kv),
    ensures
        ran(
            old(out)@,
            final(out)@,
            res,
            steps_run(
                lm_steps(
                    cfg,
                    mtp,
                    scratch,
                    output_norm_weight,
                    lm_head_weight,
                    hidden_pre_norm,
                    token_embd_row,
                    position,
                    kv,
                ) + fetch_steps(cfg, scratch),
            ),
        ),
{
    let mut steps = push_lm(
        cfg,
        mtp,
        scratch,
        output_norm_weight,
        lm_head_weight,
        hidden_pre_norm,
        token_embd_row,
        position,
        kv,
    );
    let ghost front = steps@;
    steps.push(
        MtpStep::Plain(MtpOp::Download {
            src: scratch.logits_f32,
            bytes: cfg.vocab_size * 4,
        }),
    );
    steps.push(MtpStep::Plain(MtpOp::Sync));
    proof {
        assert(steps@ =~= front + fetch_steps(cfg, scratch));
    }
    run_steps(&steps, out)
}

/// Lists one step of the head and the LM head, and fetches the logits for the
/// caller to draw from.
pub fn forward_mtp_step_with_lm_head_logits(
    cfg: &Qwen3MoEConfig,
    mtp: &MtpHeadWeights,
    scratch: &MtpForwardScratch,
    output_norm_weight: &DeviceTensor,
    lm_head_weight: &DeviceTensor,
    hidden_pre_norm: DevicePtr,
    token_embd_row: DevicePtr,
    position: usize,
    kv: Option<MtpKvCache>,
    out: &mut Vec<MtpOp>,
) -> (res: Result<(), MtpError>)
    requires
        addresses_fit(cfg, scratch, kv),
    ensures
        ran(
            old(out)@,
            final(out)@,
            res,
            steps_run(
                lm_steps(
                    cfg,
                    mtp,
                    scratch,
                    output_norm_weight,
                    lm_head_weight,
                    hidden_pre_norm,
                    token_embd_row,
                    position,
                    kv,
                ) + fetch_steps(cfg, scratch),
            ),
        ),
{
    let mut steps = push_lm(
        cfg,
        mtp,
        scratch,
        output_norm_weight,
        lm_head_weight,
        hidden_pre_norm,
        token_embd_row,
        position,
        kv,
    );
    let ghost front = steps@;
    steps.push(
        MtpStep::Plain(MtpOp::Download {
            src: scratch.logits_f32,
            bytes: cfg.vocab_size * 4,
        }),
    );
    steps.push(MtpStep::Plain(MtpOp::Sync));
    proof {
        assert(steps@ =~= front + fetch_steps(cfg, scratch));
    }
    run_steps(&steps, out)
}

/// The token of the greatest of the fetched logits.
pub fn mtp_logits_argmax_host(logits: &Vec<u32>) -> (token: u32)
    requires
        1 <= logits@.len() <= u32::MAX,
    ensures
        is_argmax(logits@, token as int),
{
    argmax(logits)
}

/// The same on bfloat16s, which are not quantised between products.
pub open spec fn enter_bf16_steps<'a>(
    cfg: &Qwen3MoEConfig,
    mtp: &'a MtpHeadWeights,
    s: &MtpForwardScratch,
    h_t: DevicePtr,
    e_token: DevicePtr,
) -> Seq<MtpStep<'a>> {
    let h = cfg.hidden_size;
    let nq2 = (2 * (cfg.num_heads * cfg.head_dim)) as usize;
    let nkv = (cfg.num_kv_heads * cfg.head_dim) as usize;
    let h2 = (2 * cfg.hidden_size) as usize;
    let eps_bits = cfg.rms_norm_eps_bits;
    let second = past(s.fc_in_f16, h * 2);
    seq![
        MtpStep::Plain(MtpOp::HalfToBf16 { x: e_token, out: s.fc_in_f16, n: h }),
        MtpStep::Plain(MtpOp::HalfToBf16 { x: h_t, out: second, n: h }),
        MtpStep::Plain(
            MtpOp::RmsNorm {
                act: Act::Bf16,
                x: s.fc_in_f16,
                weight: mtp.pre_fc_norm_embedding.ptr,
                out: s.fc_in_f16,
                rows: 1,
                cols: h,
                eps_bits: eps_bits,
            }
        ),
        MtpStep::Plain(
            MtpOp::RmsNorm {
                act: Act::Bf16,
                x: second,
                weight: mtp.pre_fc_norm_hidden.ptr,
                out: second,
                rows: 1,
                cols: h,
                eps_bits: eps_bits,
            }
        ),
        MtpStep::Plain(
            MtpOp::MmvqBf16 { weight: mtp.fc.ptr, x: s.fc_in_f16, out: s.h0_f32, rows: h, cols: h2 }
        ),
        MtpStep::Plain(MtpOp::Narrow { act: Act::Bf16, x: s.h0_f32, out: s.h0_f16, n: h }),
        MtpStep::Plain(
            MtpOp::RmsNorm {
                act: Act::Bf16,
                x: s.h0_f16,
                weight: mtp.block.input_layernorm.ptr,
                out: s.h0_f16,
                rows: 1,
                cols: h,
                eps_bits: eps_bits,
            }
        ),
        MtpStep::Plain(
            MtpOp::MmvqBf16 {
                weight: mtp.block.q_proj.ptr,
                x: s.h0_f16,
                out: s.q_full_f32,
                rows: nq2,
                cols: h,
            }
        ),
        MtpStep::Plain(
            MtpOp::Narrow { act: Act::Bf16, x: s.q_full_f32, out: s.q_full_f16, n: nq2 }
        ),
        MtpStep::Plain(
            MtpOp::SplitQGate {
                act: Act::Bf16,
                x: s.q_full_f16,
                q: s.q_f16,
                gate: s.gate_f16,
                heads: cfg.num_heads,
                head_dim: cfg.head_dim,
            }
        ),
        MtpStep::Plain(
            MtpOp::MmvqBf16 {
                weight: mtp.block.k_proj.ptr,
                x: s.h0_f16,
                out: s.k_f32,
                rows: nkv,
                cols: h,
            }
        ),
        MtpStep::Plain(MtpOp::Narrow { act: Act::Bf16, x: s.k_f32, out: s.k_f16, n: nkv }),
        MtpStep::Plain(
            MtpOp::MmvqBf16 {
                weight: mtp.block.v_proj.ptr,
                x: s.h0_f16,
                out: s.v_f32,
                rows: nkv,
                cols: h,
            }
        ),
        MtpStep::Plain(MtpOp::Narrow { act: Act::Bf16, x: s.v_f32, out: s.v_f16, n: nkv }),
    ]
}

fn push_enter_bf16<'a>(
    cfg: &Qwen3MoEConfig,
    mtp: &'a MtpHeadWeights,
    s: &MtpForwardScratch,
    h_t: DevicePtr,
    e_token: DevicePtr,
    out: &mut Vec<MtpStep<'a>>,
)
    requires
        step_fits(cfg),
        s.fc_in_f16.0 + cfg.hidden_size * 2 <= usize::MAX,
    ensures
        final(out)@ == old(out)@ + enter_bf16_steps(cfg, mtp, s, h_t, e_token),
{
    proof {
        lemma_products_fit(cfg);
    }
    let h: usize = cfg.hidden_size;
    let nq: usize = cfg.num_heads * cfg.head_dim;
    let nq2: usize = 2 * nq;
    let nkv: usize = cfg.num_kv_heads * cfg.head_dim;
    let h2: usize = 2 * h;
    let eps_bits: u32 = cfg.rms_norm_eps_bits;
    let second = s.fc_in_f16.offset_bytes(h * 2);
    out.push(MtpStep::Plain(MtpOp::HalfToBf16 { x: e_token, out: s.fc_in_f16, n: h }));
    out.push(MtpStep::Plain(MtpOp::HalfToBf16 { x: h_t, out: second, n: h }));
    out.push(
        MtpStep::Plain(
            MtpOp::RmsNorm {
                act: Act::Bf16,
                x: s.fc_in_f16,
                weight: mtp.pre_fc_norm_embedding.ptr,
                out: s.fc_in_f16,
                rows: 1,
                cols: h,
                eps_bits: eps_bits,
            }
        )
    );
    out.push(
        MtpStep::Plain(
            MtpOp::RmsNorm {
                act: Act::Bf16,
                x: second,
                weight: mtp.pre_fc_norm_hidden.ptr,
                out: second,
                rows: 1,
                cols: h,
                eps_bits: eps_bits,
            }
        )
    );
    out.push(
        MtpStep::Plain(
            MtpOp::MmvqBf16 { weight: mtp.fc.ptr, x: s.fc_in_f16, out: s.h0_f32, rows: h, cols: h2 }
        )
    );
    out.push(MtpStep::Plain(MtpOp::Narrow { act: Act::Bf16, x: s.h0_f32, out: s.h0_f16, n: h }));
    out.push(
        MtpStep::Plain(
            MtpOp::RmsNorm {
                act: Act::Bf16,
                x: s.h0_f16,
                weight: mtp.block.input_layernorm.ptr,
                out: s.h0_f16,
                rows: 1,
                cols: h,
                eps_bits: eps_bits,
            }
        )
    );
    out.push(
        MtpStep::Plain(
            MtpOp::MmvqBf16 {
                weight: mtp.block.q_proj.ptr,
                x: s.h0_f16,
                out: s.q_full_f32,
                rows: nq2,
                cols: h,
            }
        )
    );
    out.push(
        MtpStep::Plain(MtpOp::Narrow { act: Act::Bf16, x: s.q_full_f32, out: s.q_full_f16, n: nq2 })
    );
    out.push(
        MtpStep::Plain(
            MtpOp::SplitQGate {
                act: Act::Bf16,
                x: s.q_full_f16,
                q: s.q_f16,
                gate: s.gate_f16,
                heads: cfg.num_heads,
                head_dim: cfg.head_dim,
            }
        )
    );
    out.push(
        MtpStep::Plain(
            MtpOp::MmvqBf16 {
                weight: mtp.block.k_proj.ptr,
                x: s.h0_f16,
                out: s.k_f32,
                rows: nkv,
                cols: h,
            }
        )
    );
    out.push(MtpStep::Plain(MtpOp::Narrow { act: Act::Bf16, x: s.k_f32, out: s.k_f16, n: nkv }));
    out.push(
        MtpStep::Plain(
            MtpOp::MmvqBf16 {
                weight: mtp.block.v_proj.ptr,
                x: s.h0_f16,
                out: s.v_f32,
                rows: nkv,
                cols: h,
            }
        )
    );
    out.push(MtpStep::Plain(MtpOp::Narrow { act: Act::Bf16, x: s.v_f32, out: s.v_f16, n: nkv }));
    proof {
        assert(out@ =~= old(out)@ + enter_bf16_steps(cfg, mtp, s, h_t, e_token));
    }
}

/// The output projection, the FFN and the last norm on bfloat16s.
pub open spec fn leave_bf16_steps<'a>(
    cfg: &Qwen3MoEConfig,
    mtp: &'a MtpHeadWeights,
    s: &MtpForwardScratch,
    h_final_out: DevicePtr,
) -> Seq<MtpStep<'a>> {
    let h = cfg.hidden_size;
    let inter = cfg.moe_intermediate_size;
    let nq = (cfg.num_heads * cfg.head_dim) as usize;
    let eps_bits = cfg.rms_norm_eps_bits;
    seq![
        MtpStep::Plain(
            MtpOp::MmvqBf16 {
                weight: mtp.block.o_proj.ptr,
                x: s.gated_out_f16,
                out: s.attn_proj_f32,
                rows: h,
                cols: nq,
            }
        ),
        MtpStep::Plain(MtpOp::Add { a: s.h0_f32, b: s.attn_proj_f32, out: s.attn_proj_f32, n: h }),
        MtpStep::Plain(MtpOp::Narrow { act: Act::Bf16, x: s.attn_proj_f32, out: s.h1_f16, n: h }),
        MtpStep::Plain(
            MtpOp::RmsNorm {
                act: Act::Bf16,
                x: s.h1_f16,
                weight: mtp.block.post_attention_layernorm.ptr,
                out: s.h1_f16,
                rows: 1,
                cols: h,
                eps_bits: eps_bits,
            }
        ),
        MtpStep::Plain(
            MtpOp::MmvqBf16 {
                weight: mtp.block.gate_proj.ptr,
                x: s.h1_f16,
                out: s.gate_mlp_f32,
                rows: inter,
                cols: h,
            }
        ),
        MtpStep::Plain(
            MtpOp::MmvqBf16 {
                weight: mtp.block.up_proj.ptr,
                x: s.h1_f16,
                out: s.up_mlp_f32,
                rows: inter,
                cols: h,
            }
        ),
        MtpStep::Plain(
            MtpOp::SwigluBf16 { gate: s.gate_mlp_f32, up: s.up_mlp_f32, out: s.mlp_bf16, n: inter }
        ),
        MtpStep::Plain(
            MtpOp::MmvqBf16 {
                weight: mtp.block.down_proj.ptr,
                x: s.mlp_bf16,
                out: s.down_f32,
                rows: h,
                cols: inter,
            }
        ),
        MtpStep::Plain(MtpOp::Add { a: s.attn_proj_f32, b: s.down_f32, out: s.down_f32, n: h }),
        MtpStep::Plain(MtpOp::Narrow { act: Act::Bf16, x: s.down_f32, out: s.h2_f16, n: h }),
        MtpStep::Plain(
            MtpOp::RmsNorm {
                act: Act::Bf16,
                x: s.h2_f16,
                weight: mtp.norm.ptr,
                out: s.h2_f16,
                rows: 1,
                cols: h,
                eps_bits: eps_bits,
            }
        ),
        MtpStep::Plain(MtpOp::Bf16ToHalf { x: s.h2_f16, out: h_final_out, n: h }),
        MtpStep::Plain(MtpOp::Sync),
    ]
}

fn push_leave_bf16<'a>(
    cfg: &Qwen3MoEConfig,
    mtp: &'a MtpHeadWeights,
    s: &MtpForwardScratch,
    h_final_out: DevicePtr,
    out: &mut Vec<MtpStep<'a>>,
)
    requires
        step_fits(cfg),
    ensures
        final(out)@ == old(out)@ + leave_bf16_steps(cfg, mtp, s, h_final_out),
{
    proof {
        lemma_products_fit(cfg);
    }
    let h: usize = cfg.hidden_size;
    let inter: usize = cfg.moe_intermediate_size;
    let nq: usize = cfg.num_heads * cfg.head_dim;
    let eps_bits: u32 = cfg.rms_norm_eps_bits;
    out.push(
        MtpStep::Plain(
            MtpOp::MmvqBf16 {
                weight: mtp.block.o_proj.ptr,
                x: s.gated_out_f16,
                out: s.attn_proj_f32,
                rows: h,
                cols: nq,
            }
        )
    );
    out.push(
        MtpStep::Plain(MtpOp::Add { a: s.h0_f32, b: s.attn_proj_f32, out: s.attn_proj_f32, n: h })
    );
    out.push(
        MtpStep::Plain(MtpOp::Narrow { act: Act::Bf16, x: s.attn_proj_f32, out: s.h1_f16, n: h })
    );
    out.push(
        MtpStep::Plain(
            MtpOp::RmsNorm {
                act: Act::Bf16,
                x: s.h1_f16,
                weight: mtp.block.post_attention_layernorm.ptr,
                out: s.h1_f16,
                rows: 1,
                cols: h,
                eps_bits: eps_bits,
            }
        )
    );
    out.push(
        MtpStep::Plain(
            MtpOp::MmvqBf16 {
                weight: mtp.block.gate_proj.ptr,
                x: s.h1_f16,
                out: s.gate_mlp_f32,
                rows: inter,
                cols: h,
            }
        )
    );
    out.push(
        MtpStep::Plain(
            MtpOp::MmvqBf16 {
                weight: mtp.block.up_proj.ptr,
                x: s.h1_f16,
                out: s.up_mlp_f32,
                rows: inter,
                cols: h,
            }
        )
    );
    out.push(
        MtpStep::Plain(
            MtpOp::SwigluBf16 { gate: s.gate_mlp_f32, up: s.up_mlp_f32, out: s.mlp_bf16, n: inter }
        )
    );
    out.push(
        MtpStep::Plain(
            MtpOp::MmvqBf16 {
                weight: mtp.block.down_proj.ptr,
                x: s.mlp_bf16,
                out: s.down_f32,
                rows: h,
                cols: inter,
            }
        )
    );
    out.push(
        MtpStep::Plain(MtpOp::Add { a: s.attn_proj_f32, b: s.down_f32, out: s.down_f32, n: h })
    );
    out.push(MtpStep::Plain(MtpOp::Narrow { act: Act::Bf16, x: s.down_f32, out: s.h2_f16, n: h }));
    out.push(
        MtpStep::Plain(
            MtpOp::RmsNorm {
                act: Act::Bf16,
                x: s.h2_f16,
                weight: mtp.norm.ptr,
                out: s.h2_f16,
                rows: 1,
                cols: h,
                eps_bits: eps_bits,
            }
        )
    );
    out.push(MtpStep::Plain(MtpOp::Bf16ToHalf { x: s.h2_f16, out: h_final_out, n: h }));
    out.push(MtpStep::Plain(MtpOp::Sync));
    proof {
        assert(out@ =~= old(out)@ + leave_bf16_steps(cfg, mtp, s, h_final_out));
    }
}

/// A step of the head on bfloat16s. The buffers for halves hold them.
pub open spec fn mtp_bf16_steps<'a>(
    cfg: &Qwen3MoEConfig,
    mtp: &'a MtpHeadWeights,
    s: &MtpForwardScratch,
    h_t: DevicePtr,
    e_token: DevicePtr,
    position: usize,
    h_final_out: DevicePtr,
    kv: Option<MtpKvCache>,
) -> Seq<MtpStep<'a>> {
    enter_bf16_steps(cfg, mtp, s, h_t, e_token) + head_norm_steps(cfg, mtp, s, Act::Bf16)
        + rope_steps(cfg, s, Act::Bf16, position) + attend_steps(cfg, s, Act::Bf16, kv)
        + leave_bf16_steps(cfg, mtp, s, h_final_out)
}

/// Lists one step of the head on bfloat16s.
pub fn forward_mtp_step_bf16(
    cfg: &Qwen3MoEConfig,
    mtp: &MtpHeadWeights,
    scratch: &MtpForwardScratch,
    h_t: DevicePtr,
    e_token: DevicePtr,
    position: usize,
    h_final_out: DevicePtr,
    kv: Option<MtpKvCache>,
    out: &mut Vec<MtpOp>,
) -> (res: Result<(), MtpError>)
    requires
        addresses_fit(cfg, scratch, kv),
    ensures
        ran(
            old(out)@,
            final(out)@,
            res,
            steps_run(mtp_bf16_steps(cfg, mtp, scratch, h_t, e_token, position, h_final_out, kv)),
        ),
        res is Ok,
{
    let mut steps: Vec<MtpStep> = Vec::new();
    push_enter_bf16(cfg, mtp, scratch, h_t, e_token, &mut steps);
    push_attend(cfg, mtp, scratch, Act::Bf16, position, kv, &mut steps);
    push_leave_bf16(cfg, mtp, scratch, h_final_out, &mut steps);
    let ghost all = mtp_bf16_steps(cfg, mtp, scratch, h_t, e_token, position, h_final_out, kv);
    proof {
        assert(steps@ =~= all);
        assert forall|i: int| 0 <= i < all.len() implies (#[trigger] all[i]) is Plain by {
            lemma_bf16_plain(cfg, mtp, scratch, h_t, e_token, position, h_final_out, kv);
        }
        lemma_plain_ok(all, all.len());
    }
    run_steps(&steps, out)
}

spec fn all_plain(s: Seq<MtpStep>) -> bool {
    forall|i: int| 0 <= i < s.len() ==> (#[trigger] s[i]) is Plain
}

proof fn lemma_plain_concat(a: Seq<MtpStep>, b: Seq<MtpStep>)
    requires
        all_plain(a),
        all_plain(b),
    ensures
        all_plain(a + b),
{
    assert forall|i: int| 0 <= i < (a + b).len() implies (#[trigger] (a + b)[i]) is Plain by {
        if i < a.len() {
            assert((a + b)[i] == a[i]);
        } else {
            assert((a + b)[i] == b[i - a.len()]);
        }
    }
}

proof fn lemma_bf16_plain(
    cfg: &Qwen3MoEConfig,
    mtp: &MtpHeadWeights,
    s: &MtpForwardScratch,
    h_t: DevicePtr,
    e_token: DevicePtr,
    position: usize,
    h_final_out: DevicePtr,
    kv: Option<MtpKvCache>,
)
    ensures
        all_plain(mtp_bf16_steps(cfg, mtp, s, h_t, e_token, position, h_final_out, kv)),
{
    let a = enter_bf16_steps(cfg, mtp, s, h_t, e_token);
    let b = head_norm_steps(cfg, mtp, s, Act::Bf16);
    let c = rope_steps(cfg, s, Act::Bf16, position);
    let d = attend_steps(cfg, s, Act::Bf16, kv);
    let e = leave_bf16_steps(cfg, mtp, s, h_final_out);
    assert(all_plain(a));
    assert(all_plain(b));
    assert(all_plain(c));
    assert(all_plain(d));
    assert(all_plain(e));
    lemma_plain_concat(a, b);
    lemma_plain_concat(a + b, c);
    lemma_plain_concat(a + b + c, d);
    lemma_plain_concat(a + b + c + d, e);
}

/// A plan without products that need a kernel never stops.
proof fn lemma_plain_ok(steps: Seq<MtpStep>, n: nat)
    requires
        n <= steps.len(),
        forall|i: int| 0 <= i < steps.len() ==> (#[trigger] steps[i]) is Plain,
    ensures
        each(n, |i: int| step_run(steps[i])).err is None,
    decreases n,
{
    let f = |i: int| step_run(steps[i]);
    if n > 0 {
        lemma_plain_ok(steps, (n - 1) as nat);
        assert(steps[n - 1] is Plain);
        assert(f(n - 1).err is None);
    }
}

} // verus!
