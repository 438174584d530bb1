//! Which layout each weight tensor has on a tensor-parallel mesh.
//!
//! Projections out of the hidden state are split by output rows, projections
//! back into it by input columns, so that one all-reduce per block restores the
//! hidden state. Norms, the router, the embedding and the LM head are
//! replicated. Where the KV heads do not divide evenly, K and V are replicated
//! as well.

use crate::config::Qwen3MoEConfig;
use crate::names::{blk_name, law_strip_undoes_blk, strip_blk, strip_blk_prefix};
use crate::text::{dec, owned, push_dec, str_eq};
use crate::weight_layout::WeightLayout;
use vstd::prelude::*;

verus! {

/// Why a mesh size does not suit a model.
#[derive(Debug, Clone, Copy, PartialEq, Eq, Structural)]
pub enum TpLayoutError {
    WorldZero,
    IndivisibleNumHeads { num_heads: usize, world: u32 },
    IndivisibleNumKvHeads { num_kv_heads: usize, world: u32 },
    IndivisibleIntermediate { intermediate: usize, world: u32 },
    IndivisibleHidden { hidden_size: usize, world: u32 },
    IndivisibleNumVHeads { num_v_heads: usize, world: u32 },
    IndivisibleNumKHeadsGdn { num_k_heads: usize, world: u32 },
    IndivisibleSharedExpertIntermediate { shared_intermediate: usize, world: u32 },
}

/// `<label><n> is not divisible by world <world>`.
pub open spec fn indivisible_text(label: Seq<char>, n: nat, world: nat) -> Seq<char> {
    label + dec(n) + " is not divisible by world "@ + dec(world)
}

fn indivisible(label: &str, n: usize, world: u32) -> (r: String)
    ensures
        r@ == indivisible_text(label@, n as nat, world as nat),
{
    let mut s = owned(label);
    push_dec(&mut s, n as u64);
    s.append(" is not divisible by world ");
    push_dec(&mut s, world as u64);
    s
}

impl TpLayoutError {
    pub open spec fn spec_message(&self) -> Seq<char> {
        match self {
            TpLayoutError::WorldZero => "TP world size must be >= 1 (got 0)"@,
            TpLayoutError::IndivisibleNumHeads { num_heads, world } => indivisible_text(
                "num_attention_heads "@,
                *num_heads as nat,
                *world as nat,
            ),
            TpLayoutError::IndivisibleNumKvHeads { num_kv_heads, world } => indivisible_text(
                "num_key_value_heads "@,
                *num_kv_heads as nat,
                *world as nat,
            ),
            TpLayoutError::IndivisibleIntermediate { intermediate, world } => indivisible_text(
                "intermediate_size "@,
                *intermediate as nat,
                *world as nat,
            ),
            TpLayoutError::IndivisibleHidden { hidden_size, world } => indivisible_text(
                "hidden_size "@,
                *hidden_size as nat,
                *world as nat,
            ),
            TpLayoutError::IndivisibleNumVHeads { num_v_heads, world } => indivisible_text(
                "gdn.num_v_heads "@,
                *num_v_heads as nat,
                *world as nat,
            ),
            TpLayoutError::IndivisibleNumKHeadsGdn { num_k_heads, world } => indivisible_text(
                "gdn.num_k_heads "@,
                *num_k_heads as nat,
                *world as nat,
            ),
            TpLayoutError::IndivisibleSharedExpertIntermediate {
                shared_intermediate,
                world,
            } => indivisible_text(
                "shared_expert_intermediate_size "@,
                *shared_intermediate as nat,
                *world as nat,
            ),
        }
    }

    /// The error as a sentence.
    pub fn message(&self) -> (r: String)
        ensures
            r@ == self.spec_message(),
    {
        match self {
            TpLayoutError::WorldZero => owned("TP world size must be >= 1 (got 0)"),
            TpLayoutError::IndivisibleNumHeads { num_heads, world } => indivisible(
                "num_attention_heads ",
                *num_heads,
                *world,
            ),
            TpLayoutError::IndivisibleNumKvHeads { num_kv_heads, world } => indivisible(
                "num_key_value_heads ",
                *num_kv_heads,
                *world,
            ),
            TpLayoutError::IndivisibleIntermediate { intermediate, world } => indivisible(
                "intermediate_size ",
                *intermediate,
                *world,
            ),
            TpLayoutError::IndivisibleHidden { hidden_size, world } => indivisible(
                "hidden_size ",
                *hidden_size,
                *world,
            ),
            TpLayoutError::IndivisibleNumVHeads { num_v_heads, world } => indivisible(
                "gdn.num_v_heads ",
                *num_v_heads,
                *world,
            ),
            TpLayoutError::IndivisibleNumKHeadsGdn { num_k_heads, world } => indivisible(
                "gdn.num_k_heads ",
                *num_k_heads,
                *world,
            ),
            TpLayoutError::IndivisibleSharedExpertIntermediate {
                shared_intermediate,
                world,
            } => indivisible(
                "shared_expert_intermediate_size ",
                *shared_intermediate,
                *world,
            ),
        }
    }
}

/// Head dims of the gated-delta-net layers, as the fused layout needs them.
#[derive(Debug, Clone, Copy, PartialEq, Eq, Structural)]
pub struct GdnHeadDims {
    pub num_v_heads: u32,
    pub num_k_heads: u32,
    pub head_v_dim: u32,
    pub head_k_dim: u32,
}

/// The layout of every tensor of a model on a mesh of `world` ranks.
#[derive(Debug, Clone, Copy)]
pub struct Qwen35DenseTpLayout {
    world: u32,
    gdn_dims: Option<GdnHeadDims>,
    kv_replicated: bool,
}

/// Tensors outside the layers.
pub open spec fn spec_is_global(s: Seq<char>) -> bool {
    ||| s == "token_embd.weight"@
    ||| s == "output_norm.weight"@
    ||| s == "output.weight"@
}

fn is_global(s: &str) -> (r: bool)
    ensures
        r == spec_is_global(s@),
{
    str_eq(s, "token_embd.weight")
        || str_eq(s, "output_norm.weight")
        || str_eq(s, "output.weight")
}

/// Per-layer tensors that every rank holds whole.
pub open spec fn spec_is_replicated(s: Seq<char>) -> bool {
    ||| s == "attn_norm.weight"@
    ||| s == "attn_q_norm.weight"@
    ||| s == "attn_k_norm.weight"@
    ||| s == "ffn_norm.weight"@
    ||| s == "post_attention_norm.weight"@
    ||| s == "ssm_norm.weight"@
    ||| s == "ffn_gate_inp.weight"@
    ||| s == "ffn_gate_inp_shexp.weight"@
}

fn is_replicated(s: &str) -> (r: bool)
    ensures
        r == spec_is_replicated(s@),
{
    str_eq(s, "attn_norm.weight")
        || str_eq(s, "attn_q_norm.weight")
        || str_eq(s, "attn_k_norm.weight")
        || str_eq(s, "ffn_norm.weight")
        || str_eq(s, "post_attention_norm.weight")
        || str_eq(s, "ssm_norm.weight")
        || str_eq(s, "ffn_gate_inp.weight")
        || str_eq(s, "ffn_gate_inp_shexp.weight")
}

/// Tensors split by output rows (or, for vectors, by elements).
pub open spec fn spec_is_col_dim0(s: Seq<char>) -> bool {
    ||| s == "attn_q.weight"@
    ||| s == "attn_q.bias"@
    ||| s == "ffn_gate.weight"@
    ||| s == "ffn_up.weight"@
    ||| s == "ssm_a"@
    ||| s == "ssm_dt.bias"@
    ||| s == "ssm_alpha.weight"@
    ||| s == "ssm_beta.weight"@
    ||| s == "ssm_ba.weight"@
    ||| s == "attn_gate.weight"@
    ||| s == "ffn_gate_shexp.weight"@
    ||| s == "ffn_up_shexp.weight"@
}

fn is_col_dim0(s: &str) -> (r: bool)
    ensures
        r == spec_is_col_dim0(s@),
{
    str_eq(s, "attn_q.weight")
        || str_eq(s, "attn_q.bias")
        || str_eq(s, "ffn_gate.weight")
        || str_eq(s, "ffn_up.weight")
        || str_eq(s, "ssm_a")
        || str_eq(s, "ssm_dt.bias")
        || str_eq(s, "ssm_alpha.weight")
        || str_eq(s, "ssm_beta.weight")
        || str_eq(s, "ssm_ba.weight")
        || str_eq(s, "attn_gate.weight")
        || str_eq(s, "ffn_gate_shexp.weight")
        || str_eq(s, "ffn_up_shexp.weight")
}

/// K and V projections and biases.
pub open spec fn spec_is_kv(s: Seq<char>) -> bool {
    ||| s == "attn_k.weight"@
    ||| s == "attn_v.weight"@
    ||| s == "attn_k.bias"@
    ||| s == "attn_v.bias"@
}

fn is_kv(s: &str) -> (r: bool)
    ensures
        r == spec_is_kv(s@),
{
    str_eq(s, "attn_k.weight")
        || str_eq(s, "attn_v.weight")
        || str_eq(s, "attn_k.bias")
        || str_eq(s, "attn_v.bias")
}

/// Tensors split by input columns.
pub open spec fn spec_is_row_dim1(s: Seq<char>) -> bool {
    ||| s == "attn_output.weight"@
    ||| s == "ffn_down.weight"@
    ||| s == "ssm_out.weight"@
    ||| s == "ffn_down_shexp.weight"@
}

fn is_row_dim1(s: &str) -> (r: bool)
    ensures
        r == spec_is_row_dim1(s@),
{
    str_eq(s, "attn_output.weight")
        || str_eq(s, "ffn_down.weight")
        || str_eq(s, "ssm_out.weight")
        || str_eq(s, "ffn_down_shexp.weight")
}

/// Expert tensors split by the rows of each expert.
pub open spec fn spec_is_col_dim1(s: Seq<char>) -> bool {
    ||| s == "ffn_gate_exps.weight"@
    ||| s == "ffn_up_exps.weight"@
}

fn is_col_dim1(s: &str) -> (r: bool)
    ensures
        r == spec_is_col_dim1(s@),
{
    str_eq(s, "ffn_gate_exps.weight")
        || str_eq(s, "ffn_up_exps.weight")
}

/// Expert tensors split by the columns of each expert.
pub open spec fn spec_is_row_dim2(s: Seq<char>) -> bool {
    ||| s == "ffn_down_exps.weight"@
}

fn is_row_dim2(s: &str) -> (r: bool)
    ensures
        r == spec_is_row_dim2(s@),
{
    str_eq(s, "ffn_down_exps.weight")
}

/// Tensors whose outer dim holds Q, K and V.
pub open spec fn spec_is_fused_qkv(s: Seq<char>) -> bool {
    ||| s == "attn_qkv.weight"@
    ||| s == "ssm_conv1d.weight"@
}

fn is_fused_qkv(s: &str) -> (r: bool)
    ensures
        r == spec_is_fused_qkv(s@),
{
    str_eq(s, "attn_qkv.weight")
        || str_eq(s, "ssm_conv1d.weight")
}

/// The head dims that `cfg` gives the layout.
pub open spec fn gdn_head_dims(cfg: &Qwen3MoEConfig) -> Option<GdnHeadDims> {
    match cfg.gdn {
        Some(g) => Some(
            GdnHeadDims {
                num_v_heads: g.num_v_heads as u32,
                num_k_heads: g.num_k_heads as u32,
                head_v_dim: g.spec_head_v_dim() as usize as u32,
                head_k_dim: g.head_k_dim as u32,
            },
        ),
        None => None,
    }
}

/// The first rule on the mesh and the widths that `cfg` breaks on `world` ranks.
pub open spec fn width_error(cfg: &Qwen3MoEConfig, world: u32) -> Option<TpLayoutError> {
    if world == 0 {
        Some(TpLayoutError::WorldZero)
    } else if (cfg.num_heads as u32) % world != 0 {
        Some(TpLayoutError::IndivisibleNumHeads { num_heads: cfg.num_heads, world })
    } else if (cfg.moe_intermediate_size as u32) % world != 0 {
        Some(
            TpLayoutError::IndivisibleIntermediate {
                intermediate: cfg.moe_intermediate_size,
                world,
            },
        )
    } else if (cfg.hidden_size as u32) % world != 0 {
        Some(TpLayoutError::IndivisibleHidden { hidden_size: cfg.hidden_size, world })
    } else if cfg.shared_expert_intermediate_size matches Some(s) && (s as u32) % world != 0 {
        Some(
            TpLayoutError::IndivisibleSharedExpertIntermediate {
                shared_intermediate: cfg.shared_expert_intermediate_size->0,
                world,
            },
        )
    } else {
        None
    }
}

/// The first divisibility rule that `cfg` breaks on `world` ranks: the rules on the
/// heads of recurrent layers come last.
pub open spec fn layout_error(cfg: &Qwen3MoEConfig, world: u32) -> Option<TpLayoutError> {
    match width_error(cfg, world) {
        Some(e) => Some(e),
        None => match gdn_head_dims(cfg) {
            None => None,
            Some(d) => if d.num_v_heads % world != 0 {
                Some(
                    TpLayoutError::IndivisibleNumVHeads {
                        num_v_heads: d.num_v_heads as usize,
                        world,
                    },
                )
            } else if d.num_k_heads % world != 0 {
                Some(
                    TpLayoutError::IndivisibleNumKHeadsGdn {
                        num_k_heads: d.num_k_heads as usize,
                        world,
                    },
                )
            } else {
                None
            },
        },
    }
}

/// Where the heads of recurrent layers are looked at, there are some.
pub open spec fn heads_countable(cfg: &Qwen3MoEConfig, world: u32) -> bool {
    width_error(cfg, world) is None ==> (cfg.gdn matches Some(g) ==> g.num_v_heads > 0)
}

/// The layout of the per-layer tensor `suffix`.
pub open spec fn suffix_layout(
    world: u32,
    kv_replicated: bool,
    gdn: Option<GdnHeadDims>,
    suffix: Seq<char>,
) -> Option<WeightLayout> {
    if spec_is_replicated(suffix) {
        Some(WeightLayout::Replicated)
    } else if spec_is_col_dim0(suffix) {
        Some(WeightLayout::ColParallel { world, dim: 0 })
    } else if spec_is_kv(suffix) {
        Some(
            if kv_replicated {
                WeightLayout::Replicated
            } else {
                WeightLayout::ColParallel { world, dim: 0 }
            },
        )
    } else if spec_is_row_dim1(suffix) {
        Some(WeightLayout::RowParallel { world, dim: 1 })
    } else if spec_is_col_dim1(suffix) {
        Some(WeightLayout::ColParallel { world, dim: 1 })
    } else if spec_is_row_dim2(suffix) {
        Some(WeightLayout::RowParallel { world, dim: 2 })
    } else if spec_is_fused_qkv(suffix) {
        Some(
            match gdn {
                None => WeightLayout::Replicated,
                Some(d) => WeightLayout::FusedQkvParallel {
                    world,
                    num_v_heads: d.num_v_heads,
                    num_k_heads: d.num_k_heads,
                    head_v_dim: d.head_v_dim,
                    head_k_dim: d.head_k_dim,
                    kq_replicated: false,
                },
            },
        )
    } else {
        None
    }
}

impl Qwen35DenseTpLayout {
    pub closed spec fn spec_world(&self) -> u32 {
        self.world
    }

    pub closed spec fn spec_kv_replicated(&self) -> bool {
        self.kv_replicated
    }

    pub closed spec fn spec_gdn_dims(&self) -> Option<GdnHeadDims> {
        self.gdn_dims
    }

    /// The selector is the one that `cfg` has on `world` ranks.
    pub open spec fn made_for(&self, cfg: &Qwen3MoEConfig, world: u32) -> bool {
        &&& self.spec_world() == world
        &&& self.spec_kv_replicated() == ((cfg.num_kv_heads as u32) % world != 0)
        &&& self.spec_gdn_dims() == gdn_head_dims(cfg)
    }

    /// The selector for `cfg` on `world` ranks, or the first divisibility rule
    /// that `cfg` breaks. KV heads that do not divide evenly are no error:
    /// K and V are then replicated.
    pub fn new(cfg: &Qwen3MoEConfig, world: u32) -> (r: Result<Self, TpLayoutError>)
        requires
            heads_countable(cfg, world),
        ensures
            match r {
                Ok(l) => layout_error(cfg, world) is None && l.made_for(cfg, world),
                Err(e) => layout_error(cfg, world) == Some(e),
            },
    {
        if world == 0 {
            return Err(TpLayoutError::WorldZero);
        }
        if (cfg.num_heads as u32) % world != 0 {
            return Err(TpLayoutError::IndivisibleNumHeads { num_heads: cfg.num_heads, world });
        }
        let kv_replicated = (cfg.num_kv_heads as u32) % world != 0;
        let intermediate: usize = cfg.moe_intermediate_size;
        if (intermediate as u32) % world != 0 {
            return Err(TpLayoutError::IndivisibleIntermediate { intermediate, world });
        }
        if (cfg.hidden_size as u32) % world != 0 {
            return Err(TpLayoutError::IndivisibleHidden { hidden_size: cfg.hidden_size, world });
        }
        if let Some(s) = cfg.shared_expert_intermediate_size {
            if (s as u32) % world != 0 {
                return Err(
                    TpLayoutError::IndivisibleSharedExpertIntermediate {
                        shared_intermediate: s,
                        world,
                    },
                );
            }
        }
        let gdn_dims: Option<GdnHeadDims> = match cfg.gdn {
            Some(g) => {
                let head_v: usize = g.head_v_dim();
                Some(
                    GdnHeadDims {
                        num_v_heads: g.num_v_heads as u32,
                        num_k_heads: g.num_k_heads as u32,
                        head_v_dim: head_v as u32,
                        head_k_dim: g.head_k_dim as u32,
                    },
                )
            },
            None => None,
        };
        if let Some(d) = gdn_dims {
            if d.num_v_heads % world != 0 {
                return Err(
                    TpLayoutError::IndivisibleNumVHeads {
                        num_v_heads: d.num_v_heads as usize,
                        world,
                    },
                );
            }
            if d.num_k_heads % world != 0 {
                return Err(
                    TpLayoutError::IndivisibleNumKHeadsGdn {
                        num_k_heads: d.num_k_heads as usize,
                        world,
                    },
                );
            }
        }
        Ok(Qwen35DenseTpLayout { world, gdn_dims, kv_replicated })
    }

    /// Whether K and V are replicated because the KV heads do not divide evenly.
    pub fn kv_replicated(&self) -> (r: bool)
        ensures
            r == self.spec_kv_replicated(),
    {
        self.kv_replicated
    }

    /// Whether the fused tensors keep Q and K whole on every rank. Here Q and K
    /// are always split by heads.
    pub fn gdn_kq_replicated(&self) -> (r: bool)
        ensures
            !r,
    {
        false
    }

    /// The mesh size.
    pub fn world(&self) -> (r: u32)
        ensures
            r == self.spec_world(),
    {
        self.world
    }

    /// Whether `cfg` suits `world` ranks.
    pub fn validate(cfg: &Qwen3MoEConfig, world: u32) -> (r: Result<(), TpLayoutError>)
        requires
            heads_countable(cfg, world),
        ensures
            match r {
                Ok(_) => layout_error(cfg, world) is None,
                Err(e) => layout_error(cfg, world) == Some(e),
            },
    {
        match Self::new(cfg, world) {
            Ok(_) => Ok(()),
            Err(e) => Err(e),
        }
    }

    /// The layout of the tensor `name`, `None` for a name that is not known.
    pub open spec fn spec_for_tensor(&self, name: Seq<char>) -> Option<WeightLayout> {
        if spec_is_global(name) {
            Some(WeightLayout::Replicated)
        } else {
            match strip_blk(name) {
                None => None,
                Some(suffix) => suffix_layout(
                    self.spec_world(),
                    self.spec_kv_replicated(),
                    self.spec_gdn_dims(),
                    suffix,
                ),
            }
        }
    }

    /// The layout of the tensor `tensor_name`: a global tensor, or a per-layer
    /// tensor of any layer. An unknown name gives `None`.
    pub fn for_tensor(&self, tensor_name: &str) -> (r: Option<WeightLayout>)
        ensures
            r == self.spec_for_tensor(tensor_name@),
    {
        if is_global(tensor_name) {
            return Some(WeightLayout::Replicated);
        }
        match strip_blk_prefix(tensor_name) {
            None => None,
            Some(suffix) => {
                if is_replicated(suffix) {
                    Some(WeightLayout::Replicated)
                } else if is_col_dim0(suffix) {
                    Some(WeightLayout::col_parallel(self.world, 0))
                } else if is_kv(suffix) {
                    if self.kv_replicated {
                        Some(WeightLayout::Replicated)
                    } else {
                        Some(WeightLayout::col_parallel(self.world, 0))
                    }
                } else if is_row_dim1(suffix) {
                    Some(WeightLayout::row_parallel(self.world, 1))
                } else if is_col_dim1(suffix) {
                    Some(WeightLayout::col_parallel(self.world, 1))
                } else if is_row_dim2(suffix) {
                    Some(WeightLayout::row_parallel(self.world, 2))
                } else if is_fused_qkv(suffix) {
                    match self.gdn_dims {
                        None => Some(WeightLayout::Replicated),
                        Some(d) => Some(
                            WeightLayout::FusedQkvParallel {
                                world: self.world,
                                num_v_heads: d.num_v_heads,
                                num_k_heads: d.num_k_heads,
                                head_v_dim: d.head_v_dim,
                                head_k_dim: d.head_k_dim,
                                kq_replicated: false,
                            },
                        ),
                    }
                } else {
                    None
                }
            },
        }
    }
}

/// The suffix names a per-layer tensor of one of the blocks.
pub open spec fn is_known_suffix(s: Seq<char>) -> bool {
    ||| spec_is_replicated(s)
    ||| spec_is_col_dim0(s)
    ||| spec_is_kv(s)
    ||| spec_is_row_dim1(s)
    ||| spec_is_col_dim1(s)
    ||| spec_is_row_dim2(s)
    ||| spec_is_fused_qkv(s)
}

/// A per-layer tensor has a layout exactly if its suffix is known, and the
/// layout is the same in every layer.
pub proof fn law_layout_ignores_layer(
    l: Qwen35DenseTpLayout,
    layer1: nat,
    layer2: nat,
    suffix: Seq<char>,
)
    ensures
        l.spec_for_tensor(blk_name(layer1, suffix)) == l.spec_for_tensor(
            blk_name(layer2, suffix),
        ),
        l.spec_for_tensor(blk_name(layer1, suffix)) is Some <==> is_known_suffix(suffix),
{
    law_strip_undoes_blk(layer1, suffix);
    law_strip_undoes_blk(layer2, suffix);
    lemma_blk_not_global(layer1, suffix);
    lemma_blk_not_global(layer2, suffix);
}

proof fn lemma_blk_not_global(layer: nat, suffix: Seq<char>)
    ensures
        !spec_is_global(blk_name(layer, suffix)),
{
    reveal_strlit("blk.");
    reveal_strlit("token_embd.weight");
    reveal_strlit("output_norm.weight");
    reveal_strlit("output.weight");
    let n = blk_name(layer, suffix);
    assert(n[0] == 'b');
}

/// Every name that the name builders make for a layer has a layout.
pub proof fn law_layout_covers_names(
    l: Qwen35DenseTpLayout,
    layer: nat,
    common: crate::names::CommonNames,
    dense: crate::names::DenseAttnNames,
    full: crate::names::FullAttnNames,
    gdn: crate::names::GdnNames,
    ffn: crate::names::DenseFfnNames,
    moe: crate::names::MoeFfnNames,
)
    requires
        common.named_for(layer),
        dense.named_for(layer),
        full.named_for(layer),
        gdn.named_for(layer),
        ffn.named_for(layer),
        moe.named_for(layer),
    ensures
        l.spec_for_tensor(common.attn_norm@) is Some,
        l.spec_for_tensor(common.post_attention_norm@) is Some,
        l.spec_for_tensor(common.ffn_norm@) is Some,
        l.spec_for_tensor(dense.attn_q@) is Some,
        l.spec_for_tensor(dense.attn_k@) is Some,
        l.spec_for_tensor(dense.attn_v@) is Some,
        l.spec_for_tensor(dense.attn_output@) is Some,
        l.spec_for_tensor(dense.attn_q_norm@) is Some,
        l.spec_for_tensor(dense.attn_k_norm@) is Some,
        l.spec_for_tensor(dense.attn_q_bias@) is Some,
        l.spec_for_tensor(dense.attn_k_bias@) is Some,
        l.spec_for_tensor(dense.attn_v_bias@) is Some,
        l.spec_for_tensor(full.attn_q@) is Some,
        l.spec_for_tensor(full.attn_k@) is Some,
        l.spec_for_tensor(full.attn_v@) is Some,
        l.spec_for_tensor(full.attn_output@) is Some,
        l.spec_for_tensor(full.attn_q_norm@) is Some,
        l.spec_for_tensor(full.attn_k_norm@) is Some,
        l.spec_for_tensor(gdn.attn_qkv@) is Some,
        l.spec_for_tensor(gdn.attn_gate@) is Some,
        l.spec_for_tensor(gdn.ssm_alpha@) is Some,
        l.spec_for_tensor(gdn.ssm_beta@) is Some,
        l.spec_for_tensor(gdn.ssm_ba@) is Some,
        l.spec_for_tensor(gdn.ssm_a@) is Some,
        l.spec_for_tensor(gdn.ssm_dt_bias@) is Some,
        l.spec_for_tensor(gdn.ssm_conv1d@) is Some,
        l.spec_for_tensor(gdn.ssm_norm@) is Some,
        l.spec_for_tensor(gdn.ssm_out@) is Some,
        l.spec_for_tensor(ffn.ffn_gate@) is Some,
        l.spec_for_tensor(ffn.ffn_up@) is Some,
        l.spec_for_tensor(ffn.ffn_down@) is Some,
        l.spec_for_tensor(moe.ffn_gate_inp@) is Some,
        l.spec_for_tensor(moe.ffn_gate_exps@) is Some,
        l.spec_for_tensor(moe.ffn_up_exps@) is Some,
        l.spec_for_tensor(moe.ffn_down_exps@) is Some,
        l.spec_for_tensor(moe.ffn_gate_inp_shexp@) is Some,
        l.spec_for_tensor(moe.ffn_gate_shexp@) is Some,
        l.spec_for_tensor(moe.ffn_up_shexp@) is Some,
        l.spec_for_tensor(moe.ffn_down_shexp@) is Some,
{
    law_layout_ignores_layer(l, layer, layer, "attn_norm.weight"@);
    law_layout_ignores_layer(l, layer, layer, "attn_q_norm.weight"@);
    law_layout_ignores_layer(l, layer, layer, "attn_k_norm.weight"@);
    law_layout_ignores_layer(l, layer, layer, "ffn_norm.weight"@);
    law_layout_ignores_layer(l, layer, layer, "post_attention_norm.weight"@);
    law_layout_ignores_layer(l, layer, layer, "ssm_norm.weight"@);
    law_layout_ignores_layer(l, layer, layer, "ffn_gate_inp.weight"@);
    law_layout_ignores_layer(l, layer, layer, "ffn_gate_inp_shexp.weight"@);
    law_layout_ignores_layer(l, layer, layer, "attn_q.weight"@);
    law_layout_ignores_layer(l, layer, layer, "attn_q.bias"@);
    law_layout_ignores_layer(l, layer, layer, "ffn_gate.weight"@);
    law_layout_ignores_layer(l, layer, layer, "ffn_up.weight"@);
    law_layout_ignores_layer(l, layer, layer, "ssm_a"@);
    law_layout_ignores_layer(l, layer, layer, "ssm_dt.bias"@);
    law_layout_ignores_layer(l, layer, layer, "ssm_alpha.weight"@);
    law_layout_ignores_layer(l, layer, layer, "ssm_beta.weight"@);
    law_layout_ignores_layer(l, layer, layer, "ssm_ba.weight"@);
    law_layout_ignores_layer(l, layer, layer, "attn_gate.weight"@);
    law_layout_ignores_layer(l, layer, layer, "ffn_gate_shexp.weight"@);
    law_layout_ignores_layer(l, layer, layer, "ffn_up_shexp.weight"@);
    law_layout_ignores_layer(l, layer, layer, "attn_k.weight"@);
    law_layout_ignores_layer(l, layer, layer, "attn_v.weight"@);
    law_layout_ignores_layer(l, layer, layer, "attn_k.bias"@);
    law_layout_ignores_layer(l, layer, layer, "attn_v.bias"@);
    law_layout_ignores_layer(l, layer, layer, "attn_output.weight"@);
    law_layout_ignores_layer(l, layer, layer, "ffn_down.weight"@);
    law_layout_ignores_layer(l, layer, layer, "ssm_out.weight"@);
    law_layout_ignores_layer(l, layer, layer, "ffn_down_shexp.weight"@);
    law_layout_ignores_layer(l, layer, layer, "ffn_gate_exps.weight"@);
    law_layout_ignores_layer(l, layer, layer, "ffn_up_exps.weight"@);
    law_layout_ignores_layer(l, layer, layer, "ffn_down_exps.weight"@);
    law_layout_ignores_layer(l, layer, layer, "attn_qkv.weight"@);
    law_layout_ignores_layer(l, layer, layer, "ssm_conv1d.weight"@);
}

/// Every layout that splits is for the selector's own mesh size.
pub proof fn law_layout_world(l: Qwen35DenseTpLayout, name: Seq<char>)
    ensures
        match l.spec_for_tensor(name) {
            None => true,
            Some(WeightLayout::Replicated) => true,
            Some(w) => crate::tp_slice::layout_world(w) == l.spec_world()
                && crate::tp_slice::axis_supported(w),
        },
{
}

} // verus!
