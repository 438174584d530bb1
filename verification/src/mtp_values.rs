//! What the operations of the multi-token-prediction head compute.
//!
//! A buffer is known by how its content was made. Rounding does not count as making.

use crate::config::Qwen3MoEConfig;
use crate::device::DevicePtr;
use crate::mtp::MtpHeadWeights;
use crate::mtp_forward::{Act, MtpOp};
use vstd::prelude::*;

verus! {

/// How a value is made from others.
pub enum How {
    Norm { weight: DevicePtr, rows: usize, cols: usize, eps_bits: u32 },
    /// One behind the other.
    Beside,
    Product { weight: DevicePtr, rows: usize, cols: usize },
    Query { heads: usize, head_dim: usize },
    Gate { heads: usize, head_dim: usize },
    Rotated {
        position: usize,
        heads: usize,
        head_dim: usize,
        rotated_dims: usize,
        freq_base_bits: u32,
    },
    /// From Q, the K of `n_kv` slots and their V.
    Attended { heads: usize, kv_heads: usize, head_dim: usize, n_kv: usize },
    Gated,
    Sum,
    Swiglu,
    /// From operands that do not fit.
    Broken,
}

/// A value: what lay at an address before, or what was made from other values.
pub enum Val {
    Start { at: int },
    Made { how: How, of: Seq<Val> },
}

/// The type of the elements in a buffer.
pub enum Kind {
    Half,
    Bf16,
    Single,
    Q8,
}

/// The content of a buffer, and how many elements it has.
pub struct Piece {
    pub val: Val,
    pub kind: Kind,
    pub n: int,
}

pub open spec fn kind_of(act: Act) -> Kind {
    match act {
        Act::Half => Kind::Half,
        Act::Bf16 => Kind::Bf16,
    }
}

pub open spec fn made1(how: How, a: Val) -> Val {
    Val::Made { how, of: seq![a] }
}

pub open spec fn made2(how: How, a: Val, b: Val) -> Val {
    Val::Made { how, of: seq![a, b] }
}

/// `n` elements behind `x`: one content, or a half-precision content and the one behind it.
pub open spec fn read(mem: Map<int, Piece>, x: DevicePtr, n: int, kind: Kind) -> Val {
    let a = mem[x.0 as int];
    if a.kind != kind {
        Val::Made { how: How::Broken, of: seq![] }
    } else if a.n == n {
        a.val
    } else {
        let b = mem[x.0 + a.n * 2];
        if b.kind == kind && a.n + b.n == n {
            made2(How::Beside, a.val, b.val)
        } else {
            Val::Made { how: How::Broken, of: seq![] }
        }
    }
}

pub open spec fn wrote(mem: Map<int, Piece>, out: DevicePtr, val: Val, kind: Kind, n: int) -> Map<
    int,
    Piece,
> {
    mem.insert(out.0 as int, Piece { val, kind, n })
}

/// The K or V of `n` slots behind `base`.
pub open spec fn slots_at(mem: Map<int, Piece>, base: DevicePtr, bytes: int, n: nat) -> Seq<Val> {
    Seq::new(n, |j: int| mem[base.0 + j * bytes].val)
}

/// The rotation at a position; there is none at position 0.
pub open spec fn rotated(
    position: usize,
    heads: usize,
    head_dim: usize,
    rotated_dims: usize,
    freq_base_bits: u32,
    x: Val,
) -> Val {
    if position == 0 {
        x
    } else {
        made1(How::Rotated { position, heads, head_dim, rotated_dims, freq_base_bits }, x)
    }
}

/// The memory after an operation.
pub open spec fn effect(mem: Map<int, Piece>, op: MtpOp) -> Map<int, Piece> {
    match op {
        MtpOp::RmsNorm { act, x, weight, out, rows, cols, eps_bits } => wrote(
            mem,
            out,
            made1(
                How::Norm { weight, rows, cols, eps_bits },
                read(mem, x, rows * cols, kind_of(act)),
            ),
            kind_of(act),
            rows * cols,
        ),
        MtpOp::RmsNormQuant { x, weight, out, rows, cols, eps_bits } => wrote(
            mem,
            out,
            made1(
                How::Norm { weight, rows, cols, eps_bits },
                read(mem, x, rows * cols, Kind::Half),
            ),
            Kind::Q8,
            rows * cols,
        ),
        MtpOp::Quantize { x, out, n } => wrote(
            mem,
            out,
            read(mem, x, n as int, Kind::Half),
            Kind::Q8,
            n as int,
        ),
        MtpOp::Mmvq { weight, x, out, rows, cols, dtype } => wrote(
            mem,
            out,
            made1(
                How::Product { weight, rows, cols },
                read(mem, x, cols as int, Kind::Q8),
            ),
            Kind::Single,
            rows as int,
        ),
        MtpOp::MmvqBf16 { weight, x, out, rows, cols } => wrote(
            mem,
            out,
            made1(
                How::Product { weight, rows, cols },
                read(mem, x, cols as int, Kind::Bf16),
            ),
            Kind::Single,
            rows as int,
        ),
        MtpOp::Narrow { act, x, out, n } => wrote(
            mem,
            out,
            read(mem, x, n as int, Kind::Single),
            kind_of(act),
            n as int,
        ),
        MtpOp::HalfToBf16 { x, out, n } => wrote(
            mem,
            out,
            read(mem, x, n as int, Kind::Half),
            Kind::Bf16,
            n as int,
        ),
        MtpOp::Bf16ToHalf { x, out, n } => wrote(
            mem,
            out,
            read(mem, x, n as int, Kind::Bf16),
            Kind::Half,
            n as int,
        ),
        MtpOp::SplitQGate { act, x, q, gate, heads, head_dim } => {
            let v = read(mem, x, 2 * (heads * head_dim), kind_of(act));
            wrote(
                wrote(
                    mem,
                    q,
                    made1(How::Query { heads, head_dim }, v),
                    kind_of(act),
                    heads * head_dim,
                ),
                gate,
                made1(How::Gate { heads, head_dim }, v),
                kind_of(act),
                heads * head_dim,
            )
        },
        MtpOp::Rope { act, x, position, heads, head_dim, rotated_dims, freq_base_bits } => wrote(
            mem,
            x,
            rotated(
                position,
                heads,
                head_dim,
                rotated_dims,
                freq_base_bits,
                read(mem, x, heads * head_dim, kind_of(act)),
            ),
            kind_of(act),
            heads * head_dim,
        ),
        MtpOp::Copy { dst, src, bytes } => wrote(
            mem,
            dst,
            read(mem, src, bytes as int / 2, mem[src.0 as int].kind),
            mem[src.0 as int].kind,
            bytes as int / 2,
        ),
        MtpOp::Attention { act, q, k, v, out, heads, kv_heads, head_dim, n_kv } => wrote(
            mem,
            out,
            Val::Made {
                how: How::Attended { heads, kv_heads, head_dim, n_kv },
                of: seq![read(mem, q, heads * head_dim, kind_of(act))] + slots_at(
                    mem,
                    k,
                    kv_heads * head_dim * 2,
                    n_kv as nat,
                ) + slots_at(mem, v, kv_heads * head_dim * 2, n_kv as nat),
            },
            kind_of(act),
            heads * head_dim,
        ),
        MtpOp::SigmoidMul { act, gate, x, out, n } => wrote(
            mem,
            out,
            made2(
                How::Gated,
                read(mem, gate, n as int, kind_of(act)),
                read(mem, x, n as int, kind_of(act)),
            ),
            kind_of(act),
            n as int,
        ),
        MtpOp::Add { a, b, out, n } => wrote(
            mem,
            out,
            made2(
                How::Sum,
                read(mem, a, n as int, Kind::Single),
                read(mem, b, n as int, Kind::Single),
            ),
            Kind::Single,
            n as int,
        ),
        MtpOp::SwigluQuant { gate, up, out, n } => wrote(
            mem,
            out,
            made2(
                How::Swiglu,
                read(mem, gate, n as int, Kind::Single),
                read(mem, up, n as int, Kind::Single),
            ),
            Kind::Q8,
            n as int,
        ),
        MtpOp::SwigluBf16 { gate, up, out, n } => wrote(
            mem,
            out,
            made2(
                How::Swiglu,
                read(mem, gate, n as int, Kind::Single),
                read(mem, up, n as int, Kind::Single),
            ),
            Kind::Bf16,
            n as int,
        ),
        MtpOp::Download { .. } => mem,
        MtpOp::Sync => mem,
    }
}

/// The memory after the first `k` operations.
pub open spec fn effects(mem: Map<int, Piece>, ops: Seq<MtpOp>, k: nat) -> Map<int, Piece>
    decreases k,
{
    if k == 0 {
        mem
    } else {
        effect(effects(mem, ops, (k - 1) as nat), ops[k - 1])
    }
}

pub open spec fn norm(
    cfg: Qwen3MoEConfig,
    weight: DevicePtr,
    rows: usize,
    cols: usize,
    x: Val,
) -> Val {
    made1(How::Norm { weight, rows, cols, eps_bits: cfg.rms_norm_eps_bits }, x)
}

pub open spec fn product(weight: DevicePtr, rows: int, cols: int, x: Val) -> Val {
    made1(How::Product { weight, rows: rows as usize, cols: cols as usize }, x)
}

/// The row that enters the block: the normed embedding and the normed hidden row, side by
/// side, times the joining matrix.
pub open spec fn entering(cfg: Qwen3MoEConfig, mtp: MtpHeadWeights, e: Val, h: Val) -> Val {
    let n = cfg.hidden_size;
    product(
        mtp.fc.ptr,
        n as int,
        2 * n,
        made2(
            How::Beside,
            norm(cfg, mtp.pre_fc_norm_embedding.ptr, 1, n, e),
            norm(cfg, mtp.pre_fc_norm_hidden.ptr, 1, n, h),
        ),
    )
}

pub open spec fn turned(cfg: Qwen3MoEConfig, position: usize, heads: usize, x: Val) -> Val {
    rotated(
        position,
        heads,
        cfg.head_dim,
        cfg.rope.rotated_dims,
        cfg.rope.freq_base_bits,
        x,
    )
}

/// Q and its gate, before they are parted.
pub open spec fn q_and_gate(cfg: Qwen3MoEConfig, mtp: MtpHeadWeights, x: Val) -> Val {
    let n = cfg.hidden_size;
    product(
        mtp.block.q_proj.ptr,
        2 * (cfg.num_heads * cfg.head_dim),
        n as int,
        norm(cfg, mtp.block.input_layernorm.ptr, 1, n, x),
    )
}

/// Q of the row that enters the block.
pub open spec fn query(cfg: Qwen3MoEConfig, mtp: MtpHeadWeights, x: Val, position: usize) -> Val {
    turned(
        cfg,
        position,
        cfg.num_heads,
        norm(
            cfg,
            mtp.block.q_norm.ptr,
            cfg.num_heads,
            cfg.head_dim,
            made1(
                How::Query { heads: cfg.num_heads, head_dim: cfg.head_dim },
                q_and_gate(cfg, mtp, x),
            ),
        ),
    )
}

/// K of the row that enters the block.
pub open spec fn key(cfg: Qwen3MoEConfig, mtp: MtpHeadWeights, x: Val, position: usize) -> Val {
    let n = cfg.hidden_size;
    turned(
        cfg,
        position,
        cfg.num_kv_heads,
        norm(
            cfg,
            mtp.block.k_norm.ptr,
            cfg.num_kv_heads,
            cfg.head_dim,
            product(
                mtp.block.k_proj.ptr,
                cfg.num_kv_heads * cfg.head_dim,
                n as int,
                norm(cfg, mtp.block.input_layernorm.ptr, 1, n, x),
            ),
        ),
    )
}

/// V of the row that enters the block.
pub open spec fn value(cfg: Qwen3MoEConfig, mtp: MtpHeadWeights, x: Val) -> Val {
    let n = cfg.hidden_size;
    product(
        mtp.block.v_proj.ptr,
        cfg.num_kv_heads * cfg.head_dim,
        n as int,
        norm(cfg, mtp.block.input_layernorm.ptr, 1, n, x),
    )
}

/// The gated attention of Q over the K and V of the slots.
pub open spec fn gated(
    cfg: Qwen3MoEConfig,
    mtp: MtpHeadWeights,
    x: Val,
    position: usize,
    ks: Seq<Val>,
    vs: Seq<Val>,
) -> Val {
    made2(
        How::Gated,
        made1(
            How::Gate { heads: cfg.num_heads, head_dim: cfg.head_dim },
            q_and_gate(cfg, mtp, x),
        ),
        Val::Made {
            how: How::Attended {
                heads: cfg.num_heads,
                kv_heads: cfg.num_kv_heads,
                head_dim: cfg.head_dim,
                n_kv: ks.len() as usize,
            },
            of: seq![query(cfg, mtp, x, position)] + ks + vs,
        },
    )
}

/// The row after the attention: with its projection added.
pub open spec fn after_attention(
    cfg: Qwen3MoEConfig,
    mtp: MtpHeadWeights,
    x: Val,
    g: Val,
) -> Val {
    made2(
        How::Sum,
        x,
        product(mtp.block.o_proj.ptr, cfg.hidden_size as int, cfg.num_heads * cfg.head_dim, g),
    )
}

/// The row that leaves the head: with the FFN added, and normed.
pub open spec fn leaving(cfg: Qwen3MoEConfig, mtp: MtpHeadWeights, y: Val) -> Val {
    let n = cfg.hidden_size;
    let inter = cfg.moe_intermediate_size as int;
    let ny = norm(cfg, mtp.block.post_attention_layernorm.ptr, 1, n, y);
    norm(
        cfg,
        mtp.norm.ptr,
        1,
        n,
        made2(
            How::Sum,
            y,
            product(
                mtp.block.down_proj.ptr,
                n as int,
                inter,
                made2(
                    How::Swiglu,
                    product(mtp.block.gate_proj.ptr, inter, n as int, ny),
                    product(mtp.block.up_proj.ptr, inter, n as int, ny),
                ),
            ),
        ),
    )
}

} // verus!
