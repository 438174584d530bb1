//! Shapes of the expert FFN on one rank of a tensor-parallel mesh.
//!
//! Gate and up projections are split by rows, the down projection by columns,
//! so that a rank works on `intermediate / world` of every expert and its
//! output is a summand of the layer's output.

use crate::config::Qwen3MoEConfig;
use crate::text::{dec, owned, push_dec};
use vstd::prelude::*;

verus! {

/// Why the expert FFN of a rank cannot be run.
#[derive(Debug, Clone, Copy, PartialEq, Eq, Structural)]
pub enum MoeTpError {
    WorldZero,
    IntermediateIndivisible { inter: usize, world: u32 },
    NoSharedDecode,
    NoSharedPrefill,
    SharedIndivisible { inter: usize, world: u32 },
    NoTokens,
    TooManyTokens { n_tokens: usize, max_tokens: usize },
}

impl MoeTpError {
    /// What `message` says.
    pub open spec fn spec_message(&self) -> Seq<char> {
        match self {
            MoeTpError::WorldZero => "tp_world must be >= 1"@,
            MoeTpError::IntermediateIndivisible { inter, world } => "moe_intermediate_size "@
                + dec(*inter as nat)
                + " not divisible by tp_world "@
                + dec(*world as nat),
            MoeTpError::NoSharedDecode => "forward_shared_expert_decode_tp requires cfg.shared_expert_intermediate_size"@,
            MoeTpError::NoSharedPrefill => "forward_shared_expert_prefill_tp requires cfg.shared_expert_intermediate_size"@,
            MoeTpError::SharedIndivisible { inter, world } => "shared_expert_intermediate_size "@
                + dec(*inter as nat)
                + " not divisible by tp_world "@
                + dec(*world as nat),
            MoeTpError::NoTokens => "forward_moe_ffn_prefill_tp called with n_tokens = 0"@,
            MoeTpError::TooManyTokens {
                n_tokens,
                max_tokens,
            } => "forward_moe_ffn_prefill_tp: n_tokens="@
                + dec(*n_tokens as nat)
                + " > scratch.max_tokens="@
                + dec(*max_tokens as nat),
        }
    }

    /// The error as a sentence.
    pub fn message(&self) -> (r: String)
        ensures
            r@ == self.spec_message(),
    {
        match self {
            MoeTpError::WorldZero => owned("tp_world must be >= 1"),
            MoeTpError::IntermediateIndivisible { inter, world } => {
                let mut s = owned("moe_intermediate_size ");
                push_dec(&mut s, *inter as u64);
                s.append(" not divisible by tp_world ");
                push_dec(&mut s, *world as u64);
                s
            },
            MoeTpError::NoSharedDecode => owned("forward_shared_expert_decode_tp requires cfg.shared_expert_intermediate_size"),
            MoeTpError::NoSharedPrefill => owned("forward_shared_expert_prefill_tp requires cfg.shared_expert_intermediate_size"),
            MoeTpError::SharedIndivisible { inter, world } => {
                let mut s = owned("shared_expert_intermediate_size ");
                push_dec(&mut s, *inter as u64);
                s.append(" not divisible by tp_world ");
                push_dec(&mut s, *world as u64);
                s
            },
            MoeTpError::NoTokens => owned("forward_moe_ffn_prefill_tp called with n_tokens = 0"),
            MoeTpError::TooManyTokens { n_tokens, max_tokens } => {
                let mut s = owned("forward_moe_ffn_prefill_tp: n_tokens=");
                push_dec(&mut s, *n_tokens as u64);
                s.append(" > scratch.max_tokens=");
                push_dec(&mut s, *max_tokens as u64);
                s
            },
        }
    }
}

/// Shapes of a rank's share of the routed experts. Gate and up are
/// `[num_experts * local_inter, hidden]`, down is `[num_experts * hidden, local_inter]`.
#[derive(Debug, Clone, Copy, PartialEq, Eq, Structural)]
pub struct MoeBlock {
    pub hidden: usize,
    pub local_inter: usize,
    pub num_experts: usize,
    pub top_k: usize,
    pub gate_rows: usize,
    pub down_rows: usize,
    /// Smallest number of tokens for which the tiled kernel is used, where it
    /// differs from the kernel's own choice.
    pub tile8_min_tokens: Option<usize>,
}

/// Shapes of a rank's share of the shared expert: gate and up are
/// `[local_inter, hidden]`, down is `[hidden, local_inter]`.
#[derive(Debug, Clone, Copy, PartialEq, Eq, Structural)]
pub struct SharedBlock {
    pub hidden: usize,
    pub local_inter: usize,
}

/// The expert shapes can be computed in `usize`.
pub open spec fn experts_fit(cfg: &Qwen3MoEConfig) -> bool {
    &&& cfg.num_experts * cfg.moe_intermediate_size <= usize::MAX
    &&& cfg.num_experts * cfg.hidden_size <= usize::MAX
}

/// The share of the routed experts that one of `world` ranks has.
pub open spec fn moe_block(cfg: &Qwen3MoEConfig, world: u32, tile8: Option<usize>) -> MoeBlock {
    let local = cfg.moe_intermediate_size as nat / world as nat;
    MoeBlock {
        hidden: cfg.hidden_size,
        local_inter: local as usize,
        num_experts: cfg.num_experts,
        top_k: cfg.num_experts_per_tok,
        gate_rows: (cfg.num_experts as nat * local) as usize,
        down_rows: (cfg.num_experts as nat * cfg.hidden_size as nat) as usize,
        tile8_min_tokens: tile8,
    }
}

/// The routed experts of a rank for one token.
pub open spec fn moe_decode_spec(cfg: &Qwen3MoEConfig, world: u32) -> Result<MoeBlock, MoeTpError> {
    if world == 0 {
        Err(MoeTpError::WorldZero)
    } else if cfg.moe_intermediate_size as nat % world as nat != 0 {
        Err(MoeTpError::IntermediateIndivisible { inter: cfg.moe_intermediate_size, world })
    } else {
        Ok(moe_block(cfg, world, None))
    }
}

/// The routed experts of a rank for `n_tokens` tokens. On more than one rank
/// the tiled kernel is kept off below 32 tokens.
pub open spec fn moe_prefill_spec(
    cfg: &Qwen3MoEConfig,
    n_tokens: usize,
    max_tokens: usize,
    world: u32,
) -> Result<MoeBlock, MoeTpError> {
    if world == 0 {
        Err(MoeTpError::WorldZero)
    } else if n_tokens == 0 {
        Err(MoeTpError::NoTokens)
    } else if n_tokens > max_tokens {
        Err(MoeTpError::TooManyTokens { n_tokens, max_tokens })
    } else if cfg.moe_intermediate_size as nat % world as nat != 0 {
        Err(MoeTpError::IntermediateIndivisible { inter: cfg.moe_intermediate_size, world })
    } else {
        Ok(
            moe_block(
                cfg,
                world,
                if world >= 2 {
                    Some(32usize)
                } else {
                    None
                },
            ),
        )
    }
}

/// The shared expert of a rank.
pub open spec fn shared_spec(cfg: &Qwen3MoEConfig, world: u32, absent: MoeTpError) -> Result<
    SharedBlock,
    MoeTpError,
> {
    if world == 0 {
        Err(MoeTpError::WorldZero)
    } else {
        match cfg.shared_expert_intermediate_size {
            None => Err(absent),
            Some(inter) => if inter as nat % world as nat != 0 {
                Err(MoeTpError::SharedIndivisible { inter, world })
            } else {
                Ok(
                    SharedBlock {
                        hidden: cfg.hidden_size,
                        local_inter: (inter as nat / world as nat) as usize,
                    },
                )
            },
        }
    }
}

fn build_moe_experts_block_tp(cfg: &Qwen3MoEConfig, world: u32, tile8: Option<usize>) -> (r:
    MoeBlock)
    requires
        world > 0,
        experts_fit(cfg),
    ensures
        r == moe_block(cfg, world, tile8),
{
    let local: usize = cfg.moe_intermediate_size / (world as usize);
    proof {
        crate::arith::lemma_div_mod_split(cfg.moe_intermediate_size as int, world as int);
        crate::arith::lemma_mul_mono(
            cfg.num_experts as int,
            local as int,
            cfg.num_experts as int,
            cfg.moe_intermediate_size as int,
        );
    }
    MoeBlock {
        hidden: cfg.hidden_size,
        local_inter: local,
        num_experts: cfg.num_experts,
        top_k: cfg.num_experts_per_tok,
        gate_rows: cfg.num_experts * local,
        down_rows: cfg.num_experts * cfg.hidden_size,
        tile8_min_tokens: tile8,
    }
}

/// The routed experts of a rank for one token.
pub fn forward_moe_ffn_decode_tp(cfg: &Qwen3MoEConfig, tp_world: u32) -> (r: Result<
    MoeBlock,
    MoeTpError,
>)
    requires
        experts_fit(cfg),
    ensures
        r == moe_decode_spec(cfg, tp_world),
{
    if tp_world == 0 {
        return Err(MoeTpError::WorldZero);
    }
    let inter: usize = cfg.moe_intermediate_size;
    if inter % (tp_world as usize) != 0 {
        return Err(MoeTpError::IntermediateIndivisible { inter, world: tp_world });
    }
    Ok(build_moe_experts_block_tp(cfg, tp_world, None))
}

/// The routed experts of a rank for `n_tokens` tokens.
pub fn forward_moe_ffn_prefill_tp(
    cfg: &Qwen3MoEConfig,
    n_tokens: usize,
    max_tokens: usize,
    tp_world: u32,
) -> (r: Result<MoeBlock, MoeTpError>)
    requires
        experts_fit(cfg),
    ensures
        r == moe_prefill_spec(cfg, n_tokens, max_tokens, tp_world),
{
    if tp_world == 0 {
        return Err(MoeTpError::WorldZero);
    }
    if n_tokens == 0 {
        return Err(MoeTpError::NoTokens);
    }
    if n_tokens > max_tokens {
        return Err(MoeTpError::TooManyTokens { n_tokens, max_tokens });
    }
    let inter: usize = cfg.moe_intermediate_size;
    if inter % (tp_world as usize) != 0 {
        return Err(MoeTpError::IntermediateIndivisible { inter, world: tp_world });
    }
    let tile8: Option<usize> = if tp_world >= 2 {
        Some(32)
    } else {
        None
    };
    Ok(build_moe_experts_block_tp(cfg, tp_world, tile8))
}

fn shared_block(cfg: &Qwen3MoEConfig, tp_world: u32, absent: MoeTpError) -> (r: Result<
    SharedBlock,
    MoeTpError,
>)
    ensures
        r == shared_spec(cfg, tp_world, absent),
{
    if tp_world == 0 {
        return Err(MoeTpError::WorldZero);
    }
    match cfg.shared_expert_intermediate_size {
        None => Err(absent),
        Some(inter) => {
            if inter % (tp_world as usize) != 0 {
                return Err(MoeTpError::SharedIndivisible { inter, world: tp_world });
            }
            Ok(
                SharedBlock { hidden: cfg.hidden_size, local_inter: inter / (tp_world as usize) },
            )
        },
    }
}

/// The shared expert of a rank for one token.
pub fn forward_shared_expert_decode_tp(cfg: &Qwen3MoEConfig, tp_world: u32) -> (r: Result<
    SharedBlock,
    MoeTpError,
>)
    ensures
        r == shared_spec(cfg, tp_world, MoeTpError::NoSharedDecode),
{
    shared_block(cfg, tp_world, MoeTpError::NoSharedDecode)
}

/// The shared expert of a rank for several tokens.
pub fn forward_shared_expert_prefill_tp(cfg: &Qwen3MoEConfig, tp_world: u32) -> (r: Result<
    SharedBlock,
    MoeTpError,
>)
    ensures
        r == shared_spec(cfg, tp_world, MoeTpError::NoSharedPrefill),
{
    shared_block(cfg, tp_world, MoeTpError::NoSharedPrefill)
}

/// The shares of all ranks make up every expert: `world` times the width and
/// the rows of one share are those of the whole.
pub proof fn law_expert_shares_cover(cfg: &Qwen3MoEConfig, world: u32)
    requires
        experts_fit(cfg),
        moe_decode_spec(cfg, world) is Ok,
    ensures
        ({
            let part = moe_decode_spec(cfg, world)->Ok_0;
            let whole = moe_block(cfg, 1, None);
            &&& part.local_inter * world == whole.local_inter
            &&& part.gate_rows * world == whole.gate_rows
            &&& part.down_rows == whole.down_rows
        }),
{
    let inter = cfg.moe_intermediate_size as int;
    let w = world as int;
    crate::arith::lemma_exact_div(inter, w);
    let l = inter / w;
    let e = cfg.num_experts as int;
    crate::arith::lemma_mul_mono(e, l, e, inter);
    assert((e * l) * w == e * inter) by (nonlinear_arith)
        requires
            l * w == inter,
    ;
}

} // verus!
