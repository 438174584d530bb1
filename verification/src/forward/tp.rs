//! Tensor-parallel forward passes.
//!
//! Every rank works on its share of every layer. After the attention block and
//! after the FFN the partial results of all ranks are added to the hidden
//! state, which all ranks hold alike.

use crate::config::Qwen3MoEConfig;
use crate::arith::{lemma_sum_prefix, lemma_sum_step, sum};
use crate::device::{
    freed_bytes, lemma_freed_concat, push_rank_frees, rank_frees, DevicePtr, Free, RankFree,
    RankId,
};
use crate::forward::moe_tp::{
    experts_fit, forward_moe_ffn_decode_tp, forward_moe_ffn_prefill_tp,
    forward_shared_expert_decode_tp, forward_shared_expert_prefill_tp, moe_decode_spec,
    moe_prefill_spec, shared_spec, MoeTpError,
};
use crate::forward::op::{
    weight, weight_of, AttnOrFfnPub, AttnRefs, DenseFfnRefs, ForwardError, GdnRefs, MoeRefs, Op,
    Pass, ScratchPart, SharedRefs, StreamSel, Weight,
};
use crate::names::{blk, blk_name, TensorKind};
use crate::plan::{
    done, each, fail, flat, lemma_each_stops, lemma_flat_same, lemma_ran_then2, ran, then2, Run,
};
use crate::session::{any_q8, has_q8, LayerCache};
use crate::text::str_eq;
use crate::tp_sharded::{Qwen3MoETpModel, TpLayerTensor};
use crate::weights::DeviceTensor;
use vstd::prelude::*;

verus! {

/// Which working memory a rank has for its layers. `moe` holds the number of
/// tokens that the expert buffers are made for.
#[derive(Debug, Clone, Copy, PartialEq, Eq, Structural)]
pub struct LayerScratch {
    pub full_attn: bool,
    pub gdn: bool,
    pub dense_ffn: bool,
    pub moe: Option<usize>,
    pub shared: bool,
    pub mid_norm_f16: DevicePtr,
    pub shared_delta_f16: DevicePtr,
}

/// Working memory of the LM head.
#[derive(Debug, Clone, Copy, PartialEq, Eq, Structural)]
pub struct OutputHeadScratch {
    pub logits_f32: DevicePtr,
}

/// Working memory of a rank for one token at a time.
#[derive(Debug, Clone, Copy, PartialEq, Eq, Structural)]
pub struct RankForwardScratchTp {
    pub rank: RankId,
    pub device_id: i32,
    /// The hidden state, the same on every rank.
    pub hidden_a: DevicePtr,
    pub hidden_b: DevicePtr,
    /// This rank's summand of the attention output.
    pub partial_attn_out: DevicePtr,
    /// This rank's summand of the FFN output.
    pub partial_ffn_out: DevicePtr,
    pub layer: Option<LayerScratch>,
    pub output_head: Option<OutputHeadScratch>,
    pub hidden_bytes: usize,
    pub partial_bytes: usize,
    pub disposed: bool,
}

/// Working memory of all ranks for one token at a time. The LM head runs on
/// `head_rank`.
#[derive(Debug)]
pub struct ShardedForwardOneTokenScratchTp {
    pub per_rank: Vec<RankForwardScratchTp>,
    pub head_rank: RankId,
}

/// Working memory of a rank for up to `max_tokens` tokens at a time.
#[derive(Debug, Clone, Copy, PartialEq, Eq, Structural)]
pub struct RankForwardPrefillScratchTp {
    pub rank: RankId,
    pub device_id: i32,
    pub max_tokens: usize,
    pub hidden_a: DevicePtr,
    pub hidden_b: DevicePtr,
    pub partial_attn_out: DevicePtr,
    pub partial_ffn_out: DevicePtr,
    pub layer: Option<LayerScratch>,
    pub output_head: Option<OutputHeadScratch>,
    /// Buffers for stepping one sequence at a time through a recurrent layer.
    pub gdn_decode: bool,
    pub gdn_decode_batched: bool,
    pub hidden_bytes: usize,
    pub partial_bytes: usize,
    pub disposed: bool,
}

/// Working memory of all ranks for up to `max_tokens` tokens at a time.
#[derive(Debug)]
pub struct ShardedForwardPrefillScratchTp {
    pub per_rank: Vec<RankForwardPrefillScratchTp>,
    pub head_rank: RankId,
    pub max_tokens: usize,
}

/// A sequence that takes part in a batched decode step. `idx` is its place
/// among the sessions and among the logit rows.
#[derive(Debug, Clone, Copy, PartialEq, Eq, Structural)]
pub struct BatchSlot {
    pub idx: usize,
    pub token_id: u32,
    pub position: usize,
}

/// What happens to the logits on the head rank.
#[derive(Debug, Clone, Copy, PartialEq, Eq, Structural)]
pub enum LogitsSink {
    HostArgmax,
    HostLogits,
    KeepOnDevice,
}

type OpRun = Run<Op, ForwardError>;

/// The tensor of that name in the list: the first one.
pub open spec fn find_named(ts: Seq<TpLayerTensor>, name: Seq<char>) -> Option<DeviceTensor>
    decreases ts.len(),
{
    if ts.len() == 0 {
        None
    } else if ts[0].name@ == name {
        Some(ts[0].tensor)
    } else {
        find_named(ts.drop_first(), name)
    }
}

proof fn lemma_find_named(ts: Seq<TpLayerTensor>, name: Seq<char>, k: int)
    requires
        0 <= k <= ts.len(),
        forall|j: int| 0 <= j < k ==> (#[trigger] ts[j]).name@ != name,
    ensures
        k == ts.len() ==> find_named(ts, name) is None,
        k < ts.len() && ts[k].name@ == name ==> find_named(ts, name) == Some(ts[k].tensor),
    decreases ts.len(),
{
    if k > 0 {
        let t = ts.drop_first();
        assert forall|j: int| 0 <= j < k - 1 implies (#[trigger] t[j]).name@ != name by {
            assert(t[j] == ts[j + 1]);
        }
        lemma_find_named(t, name, k - 1);
        if k < ts.len() {
            assert(t[k - 1] == ts[k]);
        }
        assert(ts[0].name@ != name);
    }
}

/// The weight of the given kind in layer `il`.
pub open spec fn find_weight(ts: Seq<TpLayerTensor>, il: usize, kind: TensorKind) -> Result<
    Weight,
    ForwardError,
> {
    match find_named(ts, blk_name(il as nat, kind.spec_text())) {
        Some(t) => Ok(weight_of(t)),
        None => Err(ForwardError::MissingTensor { layer: il, kind }),
    }
}

/// Looks up the weight of the given kind in layer `il`.
pub fn find_by_suffix(tensors: &Vec<TpLayerTensor>, il: usize, kind: TensorKind) -> (r: Result<
    Weight,
    ForwardError,
>)
    ensures
        r == find_weight(tensors@, il, kind),
{
    let want = blk(il, kind.text());
    let mut i: usize = 0;
    while i < tensors.len()
        invariant
            i <= tensors@.len(),
            want@ == blk_name(il as nat, kind.spec_text()),
            forall|j: int| 0 <= j < i ==> (#[trigger] tensors@[j]).name@ != want@,
        decreases tensors@.len() - i,
    {
        if str_eq(tensors[i].name.as_str(), want.as_str()) {
            proof {
                lemma_find_named(tensors@, want@, i as int);
            }
            return Ok(weight(&tensors[i].tensor));
        }
        i = i + 1;
    }
    proof {
        lemma_find_named(tensors@, want@, tensors@.len() as int);
    }
    Err(ForwardError::MissingTensor { layer: il, kind })
}

/// The weights of a full-attention layer, or the first that is missing.
pub open spec fn attn_refs_spec(
    ts: Seq<TpLayerTensor>,
    il: usize,
) -> Result<AttnRefs, ForwardError> {
    match find_weight(ts, il, TensorKind::AttnNorm) {
        Err(e) => Err(e),
        Ok(attn_norm) => match find_weight(ts, il, TensorKind::AttnQ) {
            Err(e) => Err(e),
            Ok(attn_q) => match find_weight(ts, il, TensorKind::AttnK) {
                Err(e) => Err(e),
                Ok(attn_k) => match find_weight(ts, il, TensorKind::AttnV) {
                    Err(e) => Err(e),
                    Ok(attn_v) => match find_weight(ts, il, TensorKind::AttnOutput) {
                        Err(e) => Err(e),
                        Ok(attn_output) => match find_weight(ts, il, TensorKind::AttnQNorm) {
                            Err(e) => Err(e),
                            Ok(attn_q_norm) => match find_weight(ts, il, TensorKind::AttnKNorm) {
                                Err(e) => Err(e),
                                Ok(attn_k_norm) => Ok(
                                    AttnRefs {
                                        attn_norm,
                                        attn_q,
                                        attn_k,
                                        attn_v,
                                        attn_output,
                                        attn_q_norm,
                                        attn_k_norm,
                                    }
                                ),
                            },
                        },
                    },
                },
            },
        },
    }
}

fn attn_refs(ts: &Vec<TpLayerTensor>, il: usize) -> (r: Result<AttnRefs, ForwardError>)
    ensures
        r == attn_refs_spec(ts@, il),
{
    let attn_norm = match find_by_suffix(ts, il, TensorKind::AttnNorm) {
        Ok(w) => w,
        Err(e) => return Err(e),
    };
    let attn_q = match find_by_suffix(ts, il, TensorKind::AttnQ) {
        Ok(w) => w,
        Err(e) => return Err(e),
    };
    let attn_k = match find_by_suffix(ts, il, TensorKind::AttnK) {
        Ok(w) => w,
        Err(e) => return Err(e),
    };
    let attn_v = match find_by_suffix(ts, il, TensorKind::AttnV) {
        Ok(w) => w,
        Err(e) => return Err(e),
    };
    let attn_output = match find_by_suffix(ts, il, TensorKind::AttnOutput) {
        Ok(w) => w,
        Err(e) => return Err(e),
    };
    let attn_q_norm = match find_by_suffix(ts, il, TensorKind::AttnQNorm) {
        Ok(w) => w,
        Err(e) => return Err(e),
    };
    let attn_k_norm = match find_by_suffix(ts, il, TensorKind::AttnKNorm) {
        Ok(w) => w,
        Err(e) => return Err(e),
    };
    Ok(AttnRefs { attn_norm, attn_q, attn_k, attn_v, attn_output, attn_q_norm, attn_k_norm })
}

/// The weights of a gated-delta-net layer, or the first that is missing.
pub open spec fn gdn_refs_spec(ts: Seq<TpLayerTensor>, il: usize) -> Result<GdnRefs, ForwardError> {
    match find_weight(ts, il, TensorKind::AttnNorm) {
        Err(e) => Err(e),
        Ok(attn_norm) => match find_weight(ts, il, TensorKind::AttnQkv) {
            Err(e) => Err(e),
            Ok(attn_qkv) => match find_weight(ts, il, TensorKind::AttnGate) {
                Err(e) => Err(e),
                Ok(attn_gate) => match find_weight(ts, il, TensorKind::SsmAlpha) {
                    Err(e) => Err(e),
                    Ok(ssm_alpha) => match find_weight(ts, il, TensorKind::SsmBeta) {
                        Err(e) => Err(e),
                        Ok(ssm_beta) => match find_weight(ts, il, TensorKind::SsmA) {
                            Err(e) => Err(e),
                            Ok(ssm_a) => match find_weight(ts, il, TensorKind::SsmDtBias) {
                                Err(e) => Err(e),
                                Ok(ssm_dt_bias) => match find_weight(
                                    ts,
                                    il,
                                    TensorKind::SsmConv1d,
                                ) {
                                    Err(e) => Err(e),
                                    Ok(ssm_conv1d) => match find_weight(
                                        ts,
                                        il,
                                        TensorKind::SsmNorm,
                                    ) {
                                        Err(e) => Err(e),
                                        Ok(ssm_norm) => match find_weight(
                                            ts,
                                            il,
                                            TensorKind::SsmOut,
                                        ) {
                                            Err(e) => Err(e),
                                            Ok(ssm_out) => Ok(
                                                GdnRefs {
                                                    attn_norm,
                                                    attn_qkv,
                                                    attn_gate,
                                                    ssm_alpha,
                                                    ssm_beta,
                                                    ssm_a,
                                                    ssm_dt_bias,
                                                    ssm_conv1d,
                                                    ssm_norm,
                                                    ssm_out,
                                                }
                                            ),
                                        },
                                    },
                                },
                            },
                        },
                    },
                },
            },
        },
    }
}

fn gdn_refs(ts: &Vec<TpLayerTensor>, il: usize) -> (r: Result<GdnRefs, ForwardError>)
    ensures
        r == gdn_refs_spec(ts@, il),
{
    let attn_norm = match find_by_suffix(ts, il, TensorKind::AttnNorm) {
        Ok(w) => w,
        Err(e) => return Err(e),
    };
    let attn_qkv = match find_by_suffix(ts, il, TensorKind::AttnQkv) {
        Ok(w) => w,
        Err(e) => return Err(e),
    };
    let attn_gate = match find_by_suffix(ts, il, TensorKind::AttnGate) {
        Ok(w) => w,
        Err(e) => return Err(e),
    };
    let ssm_alpha = match find_by_suffix(ts, il, TensorKind::SsmAlpha) {
        Ok(w) => w,
        Err(e) => return Err(e),
    };
    let ssm_beta = match find_by_suffix(ts, il, TensorKind::SsmBeta) {
        Ok(w) => w,
        Err(e) => return Err(e),
    };
    let ssm_a = match find_by_suffix(ts, il, TensorKind::SsmA) {
        Ok(w) => w,
        Err(e) => return Err(e),
    };
    let ssm_dt_bias = match find_by_suffix(ts, il, TensorKind::SsmDtBias) {
        Ok(w) => w,
        Err(e) => return Err(e),
    };
    let ssm_conv1d = match find_by_suffix(ts, il, TensorKind::SsmConv1d) {
        Ok(w) => w,
        Err(e) => return Err(e),
    };
    let ssm_norm = match find_by_suffix(ts, il, TensorKind::SsmNorm) {
        Ok(w) => w,
        Err(e) => return Err(e),
    };
    let ssm_out = match find_by_suffix(ts, il, TensorKind::SsmOut) {
        Ok(w) => w,
        Err(e) => return Err(e),
    };
    Ok(
        GdnRefs {
            attn_norm,
            attn_qkv,
            attn_gate,
            ssm_alpha,
            ssm_beta,
            ssm_a,
            ssm_dt_bias,
            ssm_conv1d,
            ssm_norm,
            ssm_out,
        }
    )
}

/// The weights of a dense FFN, or the first that is missing.
pub open spec fn dense_refs_spec(
    ts: Seq<TpLayerTensor>,
    il: usize,
) -> Result<DenseFfnRefs, ForwardError> {
    match find_weight(ts, il, TensorKind::FfnGate) {
        Err(e) => Err(e),
        Ok(ffn_gate) => match find_weight(ts, il, TensorKind::FfnUp) {
            Err(e) => Err(e),
            Ok(ffn_up) => match find_weight(ts, il, TensorKind::FfnDown) {
                Err(e) => Err(e),
                Ok(ffn_down) => Ok(DenseFfnRefs { ffn_gate, ffn_up, ffn_down }),
            },
        },
    }
}

fn dense_refs(ts: &Vec<TpLayerTensor>, il: usize) -> (r: Result<DenseFfnRefs, ForwardError>)
    ensures
        r == dense_refs_spec(ts@, il),
{
    let ffn_gate = match find_by_suffix(ts, il, TensorKind::FfnGate) {
        Ok(w) => w,
        Err(e) => return Err(e),
    };
    let ffn_up = match find_by_suffix(ts, il, TensorKind::FfnUp) {
        Ok(w) => w,
        Err(e) => return Err(e),
    };
    let ffn_down = match find_by_suffix(ts, il, TensorKind::FfnDown) {
        Ok(w) => w,
        Err(e) => return Err(e),
    };
    Ok(DenseFfnRefs { ffn_gate, ffn_up, ffn_down })
}

/// The weights of router and experts, or the first that is missing.
pub open spec fn moe_refs_spec(ts: Seq<TpLayerTensor>, il: usize) -> Result<MoeRefs, ForwardError> {
    match find_weight(ts, il, TensorKind::FfnGateInp) {
        Err(e) => Err(e),
        Ok(router) => match find_weight(ts, il, TensorKind::FfnGateExps) {
            Err(e) => Err(e),
            Ok(gate_exps) => match find_weight(ts, il, TensorKind::FfnUpExps) {
                Err(e) => Err(e),
                Ok(up_exps) => match find_weight(ts, il, TensorKind::FfnDownExps) {
                    Err(e) => Err(e),
                    Ok(down_exps) => Ok(MoeRefs { router, gate_exps, up_exps, down_exps }),
                },
            },
        },
    }
}

fn moe_refs(ts: &Vec<TpLayerTensor>, il: usize) -> (r: Result<MoeRefs, ForwardError>)
    ensures
        r == moe_refs_spec(ts@, il),
{
    let router = match find_by_suffix(ts, il, TensorKind::FfnGateInp) {
        Ok(w) => w,
        Err(e) => return Err(e),
    };
    let gate_exps = match find_by_suffix(ts, il, TensorKind::FfnGateExps) {
        Ok(w) => w,
        Err(e) => return Err(e),
    };
    let up_exps = match find_by_suffix(ts, il, TensorKind::FfnUpExps) {
        Ok(w) => w,
        Err(e) => return Err(e),
    };
    let down_exps = match find_by_suffix(ts, il, TensorKind::FfnDownExps) {
        Ok(w) => w,
        Err(e) => return Err(e),
    };
    Ok(MoeRefs { router, gate_exps, up_exps, down_exps })
}

/// The weights of the shared expert, or the first that is missing. Its gate is
/// optional.
pub open spec fn shared_refs_spec(ts: Seq<TpLayerTensor>, il: usize) -> Result<
    SharedRefs,
    ForwardError,
> {
    match find_weight(ts, il, TensorKind::FfnGateShexp) {
        Err(e) => Err(e),
        Ok(gate) => match find_weight(ts, il, TensorKind::FfnUpShexp) {
            Err(e) => Err(e),
            Ok(up) => match find_weight(ts, il, TensorKind::FfnDownShexp) {
                Err(e) => Err(e),
                Ok(down) => Ok(
                    SharedRefs {
                        gate,
                        up,
                        down,
                        gate_inp: match find_weight(ts, il, TensorKind::FfnGateInpShexp) {
                            Ok(w) => Some(w),
                            Err(_) => None,
                        },
                    },
                ),
            },
        },
    }
}

fn shared_refs(ts: &Vec<TpLayerTensor>, il: usize) -> (r: Result<SharedRefs, ForwardError>)
    ensures
        r == shared_refs_spec(ts@, il),
{
    let gate = match find_by_suffix(ts, il, TensorKind::FfnGateShexp) {
        Ok(w) => w,
        Err(e) => return Err(e),
    };
    let up = match find_by_suffix(ts, il, TensorKind::FfnUpShexp) {
        Ok(w) => w,
        Err(e) => return Err(e),
    };
    let down = match find_by_suffix(ts, il, TensorKind::FfnDownShexp) {
        Ok(w) => w,
        Err(e) => return Err(e),
    };
    let gate_inp: Option<Weight> = match find_by_suffix(ts, il, TensorKind::FfnGateInpShexp) {
        Ok(w) => Some(w),
        Err(_) => None,
    };
    Ok(SharedRefs { gate, up, down, gate_inp })
}

/// The norm before the FFN: of the kind `first`, else of the kind `second`.
pub open spec fn norm_spec(
    ts: Seq<TpLayerTensor>,
    il: usize,
    first: TensorKind,
    second: TensorKind,
) -> Result<Weight, ForwardError> {
    match find_weight(ts, il, first) {
        Ok(w) => Ok(w),
        Err(_) => find_weight(ts, il, second),
    }
}

fn find_norm(ts: &Vec<TpLayerTensor>, il: usize, first: TensorKind, second: TensorKind) -> (r:
    Result<Weight, ForwardError>)
    ensures
        r == norm_spec(ts@, il, first, second),
{
    match find_by_suffix(ts, il, first) {
        Ok(w) => Ok(w),
        Err(_) => find_by_suffix(ts, il, second),
    }
}

/// The mesh sizes for which there are all-reduce kernels.
pub open spec fn world_supported(world: u32) -> bool {
    world == 1 || world == 2 || world == 4
}

/// The tensors of layer `il` on rank `r`.
pub open spec fn tensors_at(m: Qwen3MoETpModel, r: int, il: usize) -> Seq<TpLayerTensor> {
    m.shards@[r].layers@[il as int]@
}

/// The model has layer `il` on each of `ranks` ranks.
pub open spec fn has_layer(m: Qwen3MoETpModel, ranks: usize, il: usize) -> bool {
    &&& ranks <= m.shards@.len()
    &&& forall|r: int| 0 <= r < ranks ==> il < (#[trigger] m.shards@[r]).layers@.len()
}

/// There is a cache number `ic` on each of `ranks` ranks.
pub open spec fn has_cache(caches: Seq<Vec<LayerCache>>, ranks: usize, ic: usize) -> bool {
    &&& ranks <= caches.len()
    &&& forall|r: int| 0 <= r < ranks ==> ic < (#[trigger] caches[r])@.len()
}

/// The shared expert takes part.
pub open spec fn uses_shared(cfg: Qwen3MoEConfig, skip_shared: bool) -> bool {
    cfg.shared_expert_intermediate_size is Some && !skip_shared
}

/// The ranks between which the FFN of layer `il` is split: one where its
/// experts are replicated.
pub open spec fn spec_ffn_world(m: Qwen3MoETpModel, il: usize, world: u32) -> u32 {
    if !m.config.spec_is_dense_ffn() && m.spec_moe_replicated_at(il as nat) {
        1
    } else {
        world
    }
}

fn ffn_world(m: &Qwen3MoETpModel, il: usize, world: u32) -> (r: u32)
    ensures
        r == spec_ffn_world(*m, il, world),
{
    if !m.config.is_dense_ffn() && m.moe_replicated_at(il) {
        1
    } else {
        world
    }
}

/// Buffers and sizes that the FFN of a rank works with.
#[derive(Debug, Clone, Copy, PartialEq, Eq, Structural)]
pub struct FfnIo {
    pub pass: Pass,
    pub n_tokens: usize,
    pub x: DevicePtr,
    pub partial: DevicePtr,
    pub skip_shared: bool,
    pub pre_quantized: bool,
}

/// The dense FFN of a rank.
pub open spec fn dense_ffn_run(
    m: Qwen3MoETpModel,
    il: usize,
    r: int,
    world: u32,
    ls: LayerScratch,
    io: FfnIo,
) -> OpRun {
    match dense_refs_spec(tensors_at(m, r, il), il) {
        Err(e) => fail(e),
        Ok(w) => if !ls.dense_ffn {
            fail(
                ForwardError::MissingScratch {
                    rank: r as usize,
                    part: match io.pass {
                        Pass::Decode => ScratchPart::DenseFfn,
                        Pass::Prefill => ScratchPart::DenseFfnPrefill,
                    },
                },
            )
        } else {
            done(
                seq![
                    Op::DenseFfn {
                        rank: r as usize,
                        layer: il,
                        w,
                        pass: io.pass,
                        x: io.x,
                        out: io.partial,
                        n_tokens: io.n_tokens,
                        world,
                        pre_quantized: io.pre_quantized,
                    },
                ],
            )
        },
    }
}

/// The shared expert of a rank, where it takes part.
pub open spec fn shared_run(
    m: Qwen3MoETpModel,
    il: usize,
    r: int,
    world: u32,
    ls: LayerScratch,
    io: FfnIo,
) -> OpRun {
    if !uses_shared(m.config, io.skip_shared) {
        done(seq![])
    } else {
        match shared_refs_spec(tensors_at(m, r, il), il) {
            Err(e) => fail(e),
            Ok(w) => if !ls.shared {
                fail(
                    ForwardError::MissingScratch {
                        rank: r as usize,
                        part: match io.pass {
                            Pass::Decode => ScratchPart::SharedExpert,
                            Pass::Prefill => ScratchPart::SharedExpertPrefill,
                        },
                    },
                )
            } else {
                match shared_spec(
                    &m.config,
                    world,
                    match io.pass {
                        Pass::Decode => MoeTpError::NoSharedDecode,
                        Pass::Prefill => MoeTpError::NoSharedPrefill,
                    },
                ) {
                    Err(e) => fail(ForwardError::Moe { error: e }),
                    Ok(block) => done(
                        seq![
                            Op::SharedExpert {
                                rank: r as usize,
                                layer: il,
                                w,
                                block,
                                pass: io.pass,
                                x: io.x,
                                out: ls.shared_delta_f16,
                                n_tokens: io.n_tokens,
                            },
                        ],
                    ),
                }
            },
        }
    }
}

/// The routed experts of a rank, and the sum with the shared expert's output.
pub open spec fn experts_run(
    m: Qwen3MoETpModel,
    il: usize,
    r: int,
    world: u32,
    ls: LayerScratch,
    io: FfnIo,
    w: MoeRefs,
    max_tokens: usize,
) -> OpRun {
    let block = match io.pass {
        Pass::Decode => moe_decode_spec(&m.config, world),
        Pass::Prefill => moe_prefill_spec(&m.config, io.n_tokens, max_tokens, world),
    };
    match block {
        Err(e) => fail(ForwardError::Moe { error: e }),
        Ok(block) => {
            let ffn = Op::MoeFfn {
                rank: r as usize,
                layer: il,
                w,
                block,
                pass: io.pass,
                x: io.x,
                out: io.partial,
                n_tokens: io.n_tokens,
            };
            if uses_shared(m.config, io.skip_shared) {
                done(
                    seq![
                        ffn,
                        Op::Add {
                            rank: r as usize,
                            a: io.partial,
                            b: ls.shared_delta_f16,
                            out: io.partial,
                            elems: (io.n_tokens * m.config.hidden_size) as usize,
                        },
                    ],
                )
            } else {
                done(seq![ffn])
            }
        },
    }
}

/// The expert FFN of a rank: router, shared expert, routed experts, sum.
pub open spec fn moe_ffn_run(
    m: Qwen3MoETpModel,
    il: usize,
    r: int,
    world: u32,
    ls: LayerScratch,
    io: FfnIo,
) -> OpRun {
    match moe_refs_spec(tensors_at(m, r, il), il) {
        Err(e) => fail(e),
        Ok(w) => match ls.moe {
            None => fail(
                ForwardError::MissingScratch {
                    rank: r as usize,
                    part: match io.pass {
                        Pass::Decode => ScratchPart::Moe,
                        Pass::Prefill => ScratchPart::MoePrefill,
                    },
                },
            ),
            Some(max_tokens) => then2(
                done(
                    seq![
                        Op::Router {
                            rank: r as usize,
                            layer: il,
                            w: w.router,
                            pass: io.pass,
                            x: io.x,
                            n_tokens: io.n_tokens,
                        },
                    ],
                ),
                then2(
                    shared_run(m, il, r, world, ls, io),
                    experts_run(m, il, r, world, ls, io, w, max_tokens),
                ),
            ),
        },
    }
}

/// The FFN of a rank.
pub open spec fn ffn_run(
    m: Qwen3MoETpModel,
    il: usize,
    r: int,
    world: u32,
    ls: LayerScratch,
    io: FfnIo,
) -> OpRun {
    if m.config.spec_is_dense_ffn() {
        dense_ffn_run(m, il, r, world, ls, io)
    } else {
        moe_ffn_run(m, il, r, world, ls, io)
    }
}

fn push(out: &mut Vec<Op>, op: Op)
    ensures
        final(out)@ == old(out)@ + seq![op],
{
    out.push(op);
    proof {
        assert(out@ =~= old(out)@ + seq![op]);
    }
}

fn shared_part(
    m: &Qwen3MoETpModel,
    il: usize,
    r: usize,
    world: u32,
    ls: LayerScratch,
    io: FfnIo,
    out: &mut Vec<Op>,
) -> (res: Result<(), ForwardError>)
    requires
        r < m.shards@.len(),
        il < m.shards@[r as int].layers@.len(),
    ensures
        ran(old(out)@, final(out)@, res, shared_run(*m, il, r as int, world, ls, io)),
{
    let with_shared = m.config.shared_expert_intermediate_size.is_some() && !io.skip_shared;
    if !with_shared {
        proof {
            assert(out@ =~= old(out)@ + Seq::<Op>::empty());
        }
        return Ok(());
    }
    let ts = &m.shards[r].layers[il];
    let w = match shared_refs(ts, il) {
        Ok(w) => w,
        Err(e) => {
            proof {
                assert(out@ =~= old(out)@ + Seq::<Op>::empty());
            }
            return Err(e);
        },
    };
    if !ls.shared {
        proof {
            assert(out@ =~= old(out)@ + Seq::<Op>::empty());
        }
        let part = match io.pass {
            Pass::Decode => ScratchPart::SharedExpert,
            Pass::Prefill => ScratchPart::SharedExpertPrefill,
        };
        return Err(ForwardError::MissingScratch { rank: r, part });
    }
    let block = match io.pass {
        Pass::Decode => forward_shared_expert_decode_tp(&m.config, world),
        Pass::Prefill => forward_shared_expert_prefill_tp(&m.config, world),
    };
    match block {
        Err(e) => {
            proof {
                assert(out@ =~= old(out)@ + Seq::<Op>::empty());
            }
            Err(ForwardError::Moe { error: e })
        },
        Ok(block) => {
            push(
                out,
                Op::SharedExpert {
                    rank: r,
                    layer: il,
                    w,
                    block,
                    pass: io.pass,
                    x: io.x,
                    out: ls.shared_delta_f16,
                    n_tokens: io.n_tokens,
                },
            );
            Ok(())
        },
    }
}

fn experts_part(
    m: &Qwen3MoETpModel,
    il: usize,
    r: usize,
    world: u32,
    ls: LayerScratch,
    io: FfnIo,
    w: MoeRefs,
    max_tokens: usize,
    out: &mut Vec<Op>,
) -> (res: Result<(), ForwardError>)
    requires
        experts_fit(&m.config),
        io.n_tokens * m.config.hidden_size <= usize::MAX,
    ensures
        ran(
            old(out)@,
            final(out)@,
            res,
            experts_run(*m, il, r as int, world, ls, io, w, max_tokens),
        ),
{
    let block = match io.pass {
        Pass::Decode => forward_moe_ffn_decode_tp(&m.config, world),
        Pass::Prefill => forward_moe_ffn_prefill_tp(&m.config, io.n_tokens, max_tokens, world),
    };
    match block {
        Err(e) => {
            proof {
                assert(out@ =~= old(out)@ + Seq::<Op>::empty());
            }
            Err(ForwardError::Moe { error: e })
        },
        Ok(block) => {
            out.push(
                Op::MoeFfn {
                    rank: r,
                    layer: il,
                    w,
                    block,
                    pass: io.pass,
                    x: io.x,
                    out: io.partial,
                    n_tokens: io.n_tokens,
                },
            );
            if m.config.shared_expert_intermediate_size.is_some() && !io.skip_shared {
                out.push(
                    Op::Add {
                        rank: r,
                        a: io.partial,
                        b: ls.shared_delta_f16,
                        out: io.partial,
                        elems: io.n_tokens * m.config.hidden_size,
                    },
                );
            }
            proof {
                assert(out@ =~= old(out)@ + experts_run(
                    *m,
                    il,
                    r as int,
                    world,
                    ls,
                    io,
                    w,
                    max_tokens,
                ).ops);
            }
            Ok(())
        },
    }
}

fn ffn_part(
    m: &Qwen3MoETpModel,
    il: usize,
    r: usize,
    world: u32,
    ls: LayerScratch,
    io: FfnIo,
    out: &mut Vec<Op>,
) -> (res: Result<(), ForwardError>)
    requires
        r < m.shards@.len(),
        il < m.shards@[r as int].layers@.len(),
        experts_fit(&m.config),
        io.n_tokens * m.config.hidden_size <= usize::MAX,
    ensures
        ran(old(out)@, final(out)@, res, ffn_run(*m, il, r as int, world, ls, io)),
{
    let ts = &m.shards[r].layers[il];
    if m.config.is_dense_ffn() {
        let w = match dense_refs(ts, il) {
            Ok(w) => w,
            Err(e) => {
                proof {
                    assert(out@ =~= old(out)@ + Seq::<Op>::empty());
                }
                return Err(e);
            },
        };
        if !ls.dense_ffn {
            proof {
                assert(out@ =~= old(out)@ + Seq::<Op>::empty());
            }
            let part = match io.pass {
                Pass::Decode => ScratchPart::DenseFfn,
                Pass::Prefill => ScratchPart::DenseFfnPrefill,
            };
            return Err(ForwardError::MissingScratch { rank: r, part });
        }
        push(
            out,
            Op::DenseFfn {
                rank: r,
                layer: il,
                w,
                pass: io.pass,
                x: io.x,
                out: io.partial,
                n_tokens: io.n_tokens,
                world,
                pre_quantized: io.pre_quantized,
            },
        );
        return Ok(());
    }
    let w = match moe_refs(ts, il) {
        Ok(w) => w,
        Err(e) => {
            proof {
                assert(out@ =~= old(out)@ + Seq::<Op>::empty());
            }
            return Err(e);
        },
    };
    let max_tokens: usize = match ls.moe {
        Some(n) => n,
        None => {
            proof {
                assert(out@ =~= old(out)@ + Seq::<Op>::empty());
            }
            let part = match io.pass {
                Pass::Decode => ScratchPart::Moe,
                Pass::Prefill => ScratchPart::MoePrefill,
            };
            return Err(ForwardError::MissingScratch { rank: r, part });
        },
    };
    let ghost m0 = out@;
    push(
        out,
        Op::Router {
            rank: r,
            layer: il,
            w: w.router,
            pass: io.pass,
            x: io.x,
            n_tokens: io.n_tokens,
        },
    );
    let ghost router = done::<Op, ForwardError>(
        seq![
            Op::Router {
                rank: r,
                layer: il,
                w: w.router,
                pass: io.pass,
                x: io.x,
                n_tokens: io.n_tokens,
            },
        ],
    );
    let ghost sh = shared_run(*m, il, r as int, world, ls, io);
    let ghost ex = experts_run(*m, il, r as int, world, ls, io, w, max_tokens);
    let ghost m1 = out@;
    match shared_part(m, il, r, world, ls, io, out) {
        Ok(_) => {},
        Err(e) => {
            proof {
                lemma_ran_then2(m0, m1, out@, Err(e), router, then2(sh, ex));
            }
            return Err(e);
        },
    }
    let ghost m2 = out@;
    let res = experts_part(m, il, r, world, ls, io, w, max_tokens, out);
    proof {
        lemma_ran_then2(m1, m2, out@, res, sh, ex);
        lemma_ran_then2(m0, m1, out@, res, router, then2(sh, ex));
    }
    res
}

/// The parameters of a pass over a batch of tokens.
#[derive(Debug, Clone, Copy, PartialEq, Eq, Structural)]
pub struct BatchCtx {
    pub ranks: usize,
    pub n_tokens: usize,
    pub start_position: usize,
    pub skip_shared: bool,
}

/// The partial results that are reduced.
pub open spec fn prefill_partial(s: RankForwardPrefillScratchTp, kind: AttnOrFfnPub) -> DevicePtr {
    match kind {
        AttnOrFfnPub::Attn => s.partial_attn_out,
        AttnOrFfnPub::Ffn => s.partial_ffn_out,
    }
}

/// The launch of an all-reduce over a batch: on one rank a plain sum.
pub open spec fn ar_prefill_launch(
    sc: ShardedForwardPrefillScratchTp,
    world: u32,
    elems: u32,
    kind: AttnOrFfnPub,
) -> OpRun {
    let s = sc.per_rank@;
    if world == 1 {
        done(
            seq![
                Op::Add {
                    rank: 0,
                    a: s[0].hidden_a,
                    b: prefill_partial(s[0], kind),
                    out: s[0].hidden_a,
                    elems: elems as usize,
                },
            ],
        )
    } else if world == 2 || world == 4 {
        done(
            Seq::new(
                world as nat,
                |r: int|
                    Op::ArOperand {
                        rank: r as usize,
                        hidden: s[r].hidden_a,
                        partial: prefill_partial(s[r], kind),
                    },
            ).push(Op::AllReduce { world, elems }),
        )
    } else {
        fail(ForwardError::WorldArPrefill { world })
    }
}

/// The all-reduce over a batch: all ranks finish, then the launch.
pub open spec fn ar_prefill_run(
    sc: ShardedForwardPrefillScratchTp,
    ranks: usize,
    world: u32,
    elems: u32,
    kind: AttnOrFfnPub,
) -> OpRun {
    then2(
        done(
            Seq::new(
                ranks as nat,
                |r: int| Op::Sync { rank: r as usize, stream: StreamSel::Default },
            ),
        ),
        ar_prefill_launch(sc, world, elems, kind),
    )
}

fn push_syncs(ranks: usize, out: &mut Vec<Op>)
    ensures
        final(out)@ == old(out)@ + Seq::new(
            ranks as nat,
            |r: int| Op::Sync { rank: r as usize, stream: StreamSel::Default },
        ),
{
    let ghost base = out@;
    let mut r: usize = 0;
    proof {
        assert(out@ =~= base + Seq::new(
            0,
            |r: int| Op::Sync { rank: r as usize, stream: StreamSel::Default },
        ));
    }
    while r < ranks
        invariant
            r <= ranks,
            base == old(out)@,
            out@ == base + Seq::new(
                r as nat,
                |r: int| Op::Sync { rank: r as usize, stream: StreamSel::Default },
            ),
        decreases ranks - r,
    {
        out.push(Op::Sync { rank: r, stream: StreamSel::Default });
        proof {
            assert(out@ =~= base + Seq::new(
                (r + 1) as nat,
                |r: int| Op::Sync { rank: r as usize, stream: StreamSel::Default },
            ));
        }
        r = r + 1;
    }
}

fn ar_prefill_launch_part(
    sc: &ShardedForwardPrefillScratchTp,
    world: u32,
    elems: u32,
    kind: AttnOrFfnPub,
    out: &mut Vec<Op>,
) -> (res: Result<(), ForwardError>)
    requires
        world_supported(world) ==> world <= sc.per_rank@.len(),
    ensures
        ran(old(out)@, final(out)@, res, ar_prefill_launch(*sc, world, elems, kind)),
{
    let ghost base = out@;
    let ghost s = sc.per_rank@;
    if world == 1 {
        let s0: RankForwardPrefillScratchTp = sc.per_rank[0];
        let partial = match kind {
            AttnOrFfnPub::Attn => s0.partial_attn_out,
            AttnOrFfnPub::Ffn => s0.partial_ffn_out,
        };
        push(
            out,
            Op::Add {
                rank: 0,
                a: s0.hidden_a,
                b: partial,
                out: s0.hidden_a,
                elems: elems as usize,
            },
        );
        return Ok(());
    }
    if world == 2 || world == 4 {
        let n: usize = world as usize;
        let mut r: usize = 0;
        proof {
            assert(out@ =~= base + Seq::new(
                0,
                |r: int|
                    Op::ArOperand {
                        rank: r as usize,
                        hidden: s[r].hidden_a,
                        partial: prefill_partial(s[r], kind),
                    },
            ));
        }
        while r < n
            invariant
                r <= n,
                n <= sc.per_rank@.len(),
                s == sc.per_rank@,
                out@ == base + Seq::new(
                    r as nat,
                    |r: int|
                        Op::ArOperand {
                            rank: r as usize,
                            hidden: s[r].hidden_a,
                            partial: prefill_partial(s[r], kind),
                        },
                ),
            decreases n - r,
        {
            let x: RankForwardPrefillScratchTp = sc.per_rank[r];
            let partial = match kind {
                AttnOrFfnPub::Attn => x.partial_attn_out,
                AttnOrFfnPub::Ffn => x.partial_ffn_out,
            };
            out.push(Op::ArOperand { rank: r, hidden: x.hidden_a, partial });
            proof {
                assert(out@ =~= base + Seq::new(
                    (r + 1) as nat,
                    |r: int|
                        Op::ArOperand {
                            rank: r as usize,
                            hidden: s[r].hidden_a,
                            partial: prefill_partial(s[r], kind),
                        },
                ));
            }
            r = r + 1;
        }
        out.push(Op::AllReduce { world, elems });
        proof {
            assert(out@ =~= base + ar_prefill_launch(*sc, world, elems, kind).ops);
        }
        return Ok(());
    }
    proof {
        assert(out@ =~= base + Seq::<Op>::empty());
    }
    Err(ForwardError::WorldArPrefill { world })
}

/// Adds the partial results of `world` ranks over a batch of `elem_count`
/// elements to their hidden states.
pub fn ar_residual_prefill_pub(
    scratch: &ShardedForwardPrefillScratchTp,
    ranks: usize,
    world: u32,
    elem_count: u32,
    kind: AttnOrFfnPub,
    out: &mut Vec<Op>,
) -> (res: Result<(), ForwardError>)
    requires
        world_supported(world) ==> world <= scratch.per_rank@.len(),
    ensures
        ran(old(out)@, final(out)@, res, ar_prefill_run(*scratch, ranks, world, elem_count, kind)),
{
    let ghost m0 = out@;
    push_syncs(ranks, out);
    let ghost m1 = out@;
    let res = ar_prefill_launch_part(scratch, world, elem_count, kind, out);
    proof {
        lemma_ran_then2(
            m0,
            m1,
            out@,
            res,
            done(
                Seq::new(
                    ranks as nat,
                    |r: int| Op::Sync { rank: r as usize, stream: StreamSel::Default },
                ),
            ),
            ar_prefill_launch(*scratch, world, elem_count, kind),
        );
    }
    res
}

/// The attention block of rank `r` over a batch.
pub open spec fn prefill_attn_run(
    m: Qwen3MoETpModel,
    sc: ShardedForwardPrefillScratchTp,
    caches: Seq<Vec<LayerCache>>,
    c: BatchCtx,
    il: usize,
    ic: usize,
    r: int,
) -> OpRun {
    let s = sc.per_rank@[r];
    let ts = tensors_at(m, r, il);
    match s.layer {
        None => fail(
            ForwardError::MissingScratch { rank: r as usize, part: ScratchPart::LayerPrefill },
        ),
        Some(ls) => if !m.config.spec_is_recurrent(il as nat) {
            match attn_refs_spec(ts, il) {
                Err(e) => fail(e),
                Ok(w) => if !(caches[r]@[ic as int] is FullAttn) {
                    fail(ForwardError::PrefillWantsKv { rank: r as usize, layer: il })
                } else if !ls.full_attn {
                    fail(
                        ForwardError::MissingScratch {
                            rank: r as usize,
                            part: ScratchPart::FullAttnPrefill,
                        },
                    )
                } else {
                    done(
                        seq![
                            Op::FullAttn {
                                rank: r as usize,
                                layer: il,
                                cache: ic,
                                w,
                                pass: Pass::Prefill,
                                x: s.hidden_a,
                                out: s.partial_attn_out,
                                n_tokens: c.n_tokens,
                                position: c.start_position,
                                world: c.ranks as u32,
                                kv_replicated: m.tp.spec_kv_replicated(),
                            },
                        ],
                    )
                },
            }
        } else {
            match gdn_refs_spec(ts, il) {
                Err(e) => fail(e),
                Ok(w) => if !(caches[r]@[ic as int] is Gdn) {
                    fail(ForwardError::PrefillWantsGdn { rank: r as usize, layer: il })
                } else if !ls.gdn {
                    fail(
                        ForwardError::MissingScratch {
                            rank: r as usize,
                            part: ScratchPart::GdnPrefill,
                        },
                    )
                } else {
                    done(
                        seq![
                            Op::Gdn {
                                rank: r as usize,
                                layer: il,
                                cache: ic,
                                slot: 0,
                                w,
                                pass: Pass::Prefill,
                                x: s.hidden_a,
                                out: s.partial_attn_out,
                                n_tokens: c.n_tokens,
                                world: c.ranks as u32,
                                kq_replicated: false,
                            },
                        ],
                    )
                },
            }
        },
    }
}

/// The norm before the FFN of rank `r` over a batch.
pub open spec fn prefill_norm_run(
    m: Qwen3MoETpModel,
    sc: ShardedForwardPrefillScratchTp,
    c: BatchCtx,
    il: usize,
    r: int,
) -> OpRun {
    let s = sc.per_rank@[r];
    match norm_spec(
        tensors_at(m, r, il),
        il,
        TensorKind::FfnNorm,
        TensorKind::PostAttentionNorm,
    ) {
        Err(e) => fail(e),
        Ok(w) => match s.layer {
            None => fail(
                ForwardError::MissingScratch { rank: r as usize, part: ScratchPart::LayerPrefill },
            ),
            Some(ls) => done(
                seq![
                    Op::RmsNorm {
                        rank: r as usize,
                        x: s.hidden_a,
                        weight: w.ptr,
                        out: ls.mid_norm_f16,
                        rows: c.n_tokens,
                        hidden: m.config.hidden_size,
                    },
                ],
            ),
        },
    }
}

/// The FFN of rank `r` over a batch.
pub open spec fn prefill_ffn_run(
    m: Qwen3MoETpModel,
    sc: ShardedForwardPrefillScratchTp,
    c: BatchCtx,
    il: usize,
    r: int,
) -> OpRun {
    let s = sc.per_rank@[r];
    match s.layer {
        None => fail(
            ForwardError::MissingScratch { rank: r as usize, part: ScratchPart::LayerPrefill },
        ),
        Some(ls) => ffn_run(
            m,
            il,
            r,
            spec_ffn_world(m, il, c.ranks as u32),
            ls,
            FfnIo {
                pass: Pass::Prefill,
                n_tokens: c.n_tokens,
                x: ls.mid_norm_f16,
                partial: s.partial_ffn_out,
                skip_shared: c.skip_shared,
                pre_quantized: false,
            },
        ),
    }
}

/// The elements of a batch, as the all-reduce counts them.
pub open spec fn batch_elems(m: Qwen3MoETpModel, c: BatchCtx) -> u32 {
    ((c.n_tokens * m.config.hidden_size) as usize) as u32
}

/// The FFN output joins the hidden state: by an all-reduce, or rank by rank
/// where every rank has the whole of it.
pub open spec fn prefill_ffn_tail(
    m: Qwen3MoETpModel,
    sc: ShardedForwardPrefillScratchTp,
    c: BatchCtx,
    il: usize,
) -> OpRun {
    if spec_ffn_world(m, il, c.ranks as u32) > 1 {
        ar_prefill_run(sc, c.ranks, c.ranks as u32, batch_elems(m, c), AttnOrFfnPub::Ffn)
    } else {
        done(
            Seq::new(
                c.ranks as nat,
                |r: int|
                    Op::Add {
                        rank: r as usize,
                        a: sc.per_rank@[r].hidden_a,
                        b: sc.per_rank@[r].partial_ffn_out,
                        out: sc.per_rank@[r].hidden_a,
                        elems: (c.n_tokens * m.config.hidden_size) as usize,
                    },
            ),
        )
    }
}

/// A layer after its attention blocks have written their partial results.
pub open spec fn prefill_tail(
    m: Qwen3MoETpModel,
    sc: ShardedForwardPrefillScratchTp,
    c: BatchCtx,
    il: usize,
) -> OpRun {
    then2(
        ar_prefill_run(sc, c.ranks, c.ranks as u32, batch_elems(m, c), AttnOrFfnPub::Attn),
        then2(
            each(c.ranks as nat, |i: int| prefill_norm_run(m, sc, c, il, i)),
            then2(
                each(c.ranks as nat, |i: int| prefill_ffn_run(m, sc, c, il, i)),
                prefill_ffn_tail(m, sc, c, il),
            ),
        ),
    )
}

/// A layer over a batch.
pub open spec fn prefill_layer_run(
    m: Qwen3MoETpModel,
    sc: ShardedForwardPrefillScratchTp,
    caches: Seq<Vec<LayerCache>>,
    c: BatchCtx,
    il: usize,
    ic: usize,
) -> OpRun {
    then2(
        each(c.ranks as nat, |i: int| prefill_attn_run(m, sc, caches, c, il, ic, i)),
        prefill_tail(m, sc, c, il),
    )
}

/// The layers `start` to `end - 1` over a batch. The cache of layer `il` is
/// number `il - offset`.
pub open spec fn prefill_layers_run(
    m: Qwen3MoETpModel,
    sc: ShardedForwardPrefillScratchTp,
    caches: Seq<Vec<LayerCache>>,
    c: BatchCtx,
    start: usize,
    end: usize,
    offset: usize,
) -> OpRun {
    if !world_supported(c.ranks as u32) {
        fail(ForwardError::WorldBatchedPrefill { world: c.ranks as u32 })
    } else {
        each(
            if start < end {
                (end - start) as nat
            } else {
                0
            },
            |i: int|
                prefill_layer_run(
                    m,
                    sc,
                    caches,
                    c,
                    (start + i) as usize,
                    (start + i - offset) as usize,
                ),
        )
    }
}

/// The sizes of a batch can be computed and there is working memory for each rank.
pub open spec fn batch_ready(
    m: Qwen3MoETpModel,
    sc: ShardedForwardPrefillScratchTp,
    c: BatchCtx,
) -> bool {
    &&& c.ranks <= u32::MAX
    &&& c.ranks <= sc.per_rank@.len()
    &&& experts_fit(&m.config)
    &&& c.n_tokens * m.config.hidden_size <= usize::MAX
}

fn prefill_attn_part(
    m: &Qwen3MoETpModel,
    sc: &ShardedForwardPrefillScratchTp,
    caches: &Vec<Vec<LayerCache>>,
    c: BatchCtx,
    il: usize,
    ic: usize,
    r: usize,
    out: &mut Vec<Op>,
) -> (res: Result<(), ForwardError>)
    requires
        r < c.ranks,
        batch_ready(*m, *sc, c),
        has_layer(*m, c.ranks, il),
        has_cache(caches@, c.ranks, ic),
    ensures
        ran(
            old(out)@,
            final(out)@,
            res,
            prefill_attn_run(*m, *sc, caches@, c, il, ic, r as int),
        ),
{
    let s: RankForwardPrefillScratchTp = sc.per_rank[r];
    let ls: LayerScratch = match s.layer {
        Some(x) => x,
        None => {
            proof {
                assert(out@ =~= old(out)@ + Seq::<Op>::empty());
            }
            return Err(
                ForwardError::MissingScratch { rank: r, part: ScratchPart::LayerPrefill },
            );
        },
    };
    let ts = &m.shards[r].layers[il];
    let cache: LayerCache = caches[r][ic];
    if !m.config.is_recurrent(il) {
        let w = match attn_refs(ts, il) {
            Ok(w) => w,
            Err(e) => {
                proof {
                    assert(out@ =~= old(out)@ + Seq::<Op>::empty());
                }
                return Err(e);
            },
        };
        let kind_ok = match cache {
            LayerCache::FullAttn(_) => true,
            _ => false,
        };
        if !kind_ok {
            proof {
                assert(out@ =~= old(out)@ + Seq::<Op>::empty());
            }
            return Err(ForwardError::PrefillWantsKv { rank: r, layer: il });
        }
        if !ls.full_attn {
            proof {
                assert(out@ =~= old(out)@ + Seq::<Op>::empty());
            }
            return Err(
                ForwardError::MissingScratch { rank: r, part: ScratchPart::FullAttnPrefill },
            );
        }
        push(
            out,
            Op::FullAttn {
                rank: r,
                layer: il,
                cache: ic,
                w,
                pass: Pass::Prefill,
                x: s.hidden_a,
                out: s.partial_attn_out,
                n_tokens: c.n_tokens,
                position: c.start_position,
                world: c.ranks as u32,
                kv_replicated: m.tp.kv_replicated(),
            },
        );
    } else {
        let w = match gdn_refs(ts, il) {
            Ok(w) => w,
            Err(e) => {
                proof {
                    assert(out@ =~= old(out)@ + Seq::<Op>::empty());
                }
                return Err(e);
            },
        };
        let kind_ok = match cache {
            LayerCache::Gdn(_) => true,
            _ => false,
        };
        if !kind_ok {
            proof {
                assert(out@ =~= old(out)@ + Seq::<Op>::empty());
            }
            return Err(ForwardError::PrefillWantsGdn { rank: r, layer: il });
        }
        if !ls.gdn {
            proof {
                assert(out@ =~= old(out)@ + Seq::<Op>::empty());
            }
            return Err(
                ForwardError::MissingScratch { rank: r, part: ScratchPart::GdnPrefill },
            );
        }
        push(
            out,
            Op::Gdn {
                rank: r,
                layer: il,
                cache: ic,
                slot: 0,
                w,
                pass: Pass::Prefill,
                x: s.hidden_a,
                out: s.partial_attn_out,
                n_tokens: c.n_tokens,
                world: c.ranks as u32,
                kq_replicated: m.tp.gdn_kq_replicated(),
            },
        );
    }
    Ok(())
}

fn prefill_norm_part(
    m: &Qwen3MoETpModel,
    sc: &ShardedForwardPrefillScratchTp,
    c: BatchCtx,
    il: usize,
    r: usize,
    out: &mut Vec<Op>,
) -> (res: Result<(), ForwardError>)
    requires
        r < c.ranks,
        batch_ready(*m, *sc, c),
        has_layer(*m, c.ranks, il),
    ensures
        ran(old(out)@, final(out)@, res, prefill_norm_run(*m, *sc, c, il, r as int)),
{
    let s: RankForwardPrefillScratchTp = sc.per_rank[r];
    let ts = &m.shards[r].layers[il];
    let w = match find_norm(ts, il, TensorKind::FfnNorm, TensorKind::PostAttentionNorm) {
        Ok(w) => w,
        Err(e) => {
            proof {
                assert(out@ =~= old(out)@ + Seq::<Op>::empty());
            }
            return Err(e);
        },
    };
    match s.layer {
        None => {
            proof {
                assert(out@ =~= old(out)@ + Seq::<Op>::empty());
            }
            Err(ForwardError::MissingScratch { rank: r, part: ScratchPart::LayerPrefill })
        },
        Some(ls) => {
            push(
                out,
                Op::RmsNorm {
                    rank: r,
                    x: s.hidden_a,
                    weight: w.ptr,
                    out: ls.mid_norm_f16,
                    rows: c.n_tokens,
                    hidden: m.config.hidden_size,
                },
            );
            Ok(())
        },
    }
}

fn prefill_ffn_part(
    m: &Qwen3MoETpModel,
    sc: &ShardedForwardPrefillScratchTp,
    c: BatchCtx,
    il: usize,
    r: usize,
    out: &mut Vec<Op>,
) -> (res: Result<(), ForwardError>)
    requires
        r < c.ranks,
        batch_ready(*m, *sc, c),
        has_layer(*m, c.ranks, il),
    ensures
        ran(old(out)@, final(out)@, res, prefill_ffn_run(*m, *sc, c, il, r as int)),
{
    let s: RankForwardPrefillScratchTp = sc.per_rank[r];
    match s.layer {
        None => {
            proof {
                assert(out@ =~= old(out)@ + Seq::<Op>::empty());
            }
            Err(ForwardError::MissingScratch { rank: r, part: ScratchPart::LayerPrefill })
        },
        Some(ls) => {
            let io = FfnIo {
                pass: Pass::Prefill,
                n_tokens: c.n_tokens,
                x: ls.mid_norm_f16,
                partial: s.partial_ffn_out,
                skip_shared: c.skip_shared,
                pre_quantized: false,
            };
            ffn_part(m, il, r, ffn_world(m, il, c.ranks as u32), ls, io, out)
        },
    }
}

fn prefill_attn_all(
    m: &Qwen3MoETpModel,
    sc: &ShardedForwardPrefillScratchTp,
    caches: &Vec<Vec<LayerCache>>,
    c: BatchCtx,
    il: usize,
    ic: usize,
    out: &mut Vec<Op>,
) -> (res: Result<(), ForwardError>)
    requires
        batch_ready(*m, *sc, c),
        has_layer(*m, c.ranks, il),
        has_cache(caches@, c.ranks, ic),
    ensures
        ran(
            old(out)@,
            final(out)@,
            res,
            each(c.ranks as nat, |i: int| prefill_attn_run(*m, *sc, caches@, c, il, ic, i)),
        ),
{
    let ghost base = out@;
    let ghost f = |i: int| prefill_attn_run(*m, *sc, caches@, c, il, ic, i);
    let n: usize = c.ranks;
    let mut i: usize = 0;
    proof {
        assert(out@ =~= base + each(0, f).ops);
    }
    while i < n
        invariant
            i <= n,
            n == c.ranks,
            base == old(out)@,
            f == (|i: int| prefill_attn_run(*m, *sc, caches@, c, il, ic, i)),
            ran(base, out@, Ok::<(), ForwardError>(()), each(i as nat, f)),
            batch_ready(*m, *sc, c),
            has_layer(*m, c.ranks, il),
            has_cache(caches@, c.ranks, ic),
        decreases n - i,
    {
        let ghost mid = out@;
        match prefill_attn_part(m, sc, caches, c, il, ic, i, out) {
            Ok(_) => {
                proof {
                    lemma_ran_then2(base, mid, out@, Ok(()), each(i as nat, f), f(i as int));
                }
            },
            Err(e) => {
                proof {
                    lemma_ran_then2(base, mid, out@, Err(e), each(i as nat, f), f(i as int));
                    lemma_each_stops((i + 1) as nat, n as nat, f);
                }
                return Err(e);
            },
        }
        i = i + 1;
    }
    Ok(())
}

fn prefill_norm_all(
    m: &Qwen3MoETpModel,
    sc: &ShardedForwardPrefillScratchTp,
    c: BatchCtx,
    il: usize,
    out: &mut Vec<Op>,
) -> (res: Result<(), ForwardError>)
    requires
        batch_ready(*m, *sc, c),
        has_layer(*m, c.ranks, il),
    ensures
        ran(
            old(out)@,
            final(out)@,
            res,
            each(c.ranks as nat, |i: int| prefill_norm_run(*m, *sc, c, il, i)),
        ),
{
    let ghost base = out@;
    let ghost f = |i: int| prefill_norm_run(*m, *sc, c, il, i);
    let n: usize = c.ranks;
    let mut i: usize = 0;
    proof {
        assert(out@ =~= base + each(0, f).ops);
    }
    while i < n
        invariant
            i <= n,
            n == c.ranks,
            base == old(out)@,
            f == (|i: int| prefill_norm_run(*m, *sc, c, il, i)),
            ran(base, out@, Ok::<(), ForwardError>(()), each(i as nat, f)),
            batch_ready(*m, *sc, c),
            has_layer(*m, c.ranks, il),
        decreases n - i,
    {
        let ghost mid = out@;
        match prefill_norm_part(m, sc, c, il, i, out) {
            Ok(_) => {
                proof {
                    lemma_ran_then2(base, mid, out@, Ok(()), each(i as nat, f), f(i as int));
                }
            },
            Err(e) => {
                proof {
                    lemma_ran_then2(base, mid, out@, Err(e), each(i as nat, f), f(i as int));
                    lemma_each_stops((i + 1) as nat, n as nat, f);
                }
                return Err(e);
            },
        }
        i = i + 1;
    }
    Ok(())
}

fn prefill_ffn_all(
    m: &Qwen3MoETpModel,
    sc: &ShardedForwardPrefillScratchTp,
    c: BatchCtx,
    il: usize,
    out: &mut Vec<Op>,
) -> (res: Result<(), ForwardError>)
    requires
        batch_ready(*m, *sc, c),
        has_layer(*m, c.ranks, il),
    ensures
        ran(
            old(out)@,
            final(out)@,
            res,
            each(c.ranks as nat, |i: int| prefill_ffn_run(*m, *sc, c, il, i)),
        ),
{
    let ghost base = out@;
    let ghost f = |i: int| prefill_ffn_run(*m, *sc, c, il, i);
    let n: usize = c.ranks;
    let mut i: usize = 0;
    proof {
        assert(out@ =~= base + each(0, f).ops);
    }
    while i < n
        invariant
            i <= n,
            n == c.ranks,
            base == old(out)@,
            f == (|i: int| prefill_ffn_run(*m, *sc, c, il, i)),
            ran(base, out@, Ok::<(), ForwardError>(()), each(i as nat, f)),
            batch_ready(*m, *sc, c),
            has_layer(*m, c.ranks, il),
        decreases n - i,
    {
        let ghost mid = out@;
        match prefill_ffn_part(m, sc, c, il, i, out) {
            Ok(_) => {
                proof {
                    lemma_ran_then2(base, mid, out@, Ok(()), each(i as nat, f), f(i as int));
                }
            },
            Err(e) => {
                proof {
                    lemma_ran_then2(base, mid, out@, Err(e), each(i as nat, f), f(i as int));
                    lemma_each_stops((i + 1) as nat, n as nat, f);
                }
                return Err(e);
            },
        }
        i = i + 1;
    }
    Ok(())
}

fn prefill_ffn_tail_part(
    m: &Qwen3MoETpModel,
    sc: &ShardedForwardPrefillScratchTp,
    c: BatchCtx,
    il: usize,
    out: &mut Vec<Op>,
) -> (res: Result<(), ForwardError>)
    requires
        batch_ready(*m, *sc, c),
    ensures
        ran(old(out)@, final(out)@, res, prefill_ffn_tail(*m, *sc, c, il)),
{
    let n: usize = c.n_tokens * m.config.hidden_size;
    if ffn_world(m, il, c.ranks as u32) > 1 {
        return ar_residual_prefill_pub(
            sc,
            c.ranks,
            c.ranks as u32,
            n as u32,
            AttnOrFfnPub::Ffn,
            out,
        );
    }
    let ghost base = out@;
    let mut r: usize = 0;
    proof {
        assert(out@ =~= base + prefill_ffn_tail(*m, *sc, c, il).ops.take(0));
    }
    while r < c.ranks
        invariant
            r <= c.ranks,
            base == old(out)@,
            n == c.n_tokens * m.config.hidden_size,
            batch_ready(*m, *sc, c),
            !(spec_ffn_world(*m, il, c.ranks as u32) > 1),
            out@ == base + prefill_ffn_tail(*m, *sc, c, il).ops.take(r as int),
        decreases c.ranks - r,
    {
        let x: RankForwardPrefillScratchTp = sc.per_rank[r];
        out.push(
            Op::Add {
                rank: r,
                a: x.hidden_a,
                b: x.partial_ffn_out,
                out: x.hidden_a,
                elems: n,
            },
        );
        proof {
            let t = prefill_ffn_tail(*m, *sc, c, il).ops;
            assert(t.take(r as int + 1) =~= t.take(r as int).push(t[r as int]));
            assert(out@ =~= base + t.take(r as int + 1));
        }
        r = r + 1;
    }
    proof {
        let t = prefill_ffn_tail(*m, *sc, c, il).ops;
        assert(t.take(t.len() as int) =~= t);
    }
    Ok(())
}

fn prefill_tail_part(
    m: &Qwen3MoETpModel,
    sc: &ShardedForwardPrefillScratchTp,
    c: BatchCtx,
    il: usize,
    out: &mut Vec<Op>,
) -> (res: Result<(), ForwardError>)
    requires
        batch_ready(*m, *sc, c),
        has_layer(*m, c.ranks, il),
    ensures
        ran(old(out)@, final(out)@, res, prefill_tail(*m, *sc, c, il)),
{
    let n: usize = c.n_tokens * m.config.hidden_size;
    let ghost m0 = out@;
    match ar_residual_prefill_pub(sc, c.ranks, c.ranks as u32, n as u32, AttnOrFfnPub::Attn, out) {
        Ok(_) => {},
        Err(e) => {
            return Err(e);
        },
    }
    let ghost m1 = out@;
    match prefill_norm_all(m, sc, c, il, out) {
        Ok(_) => {},
        Err(e) => {
            proof {
                lemma_ran_then2(
                    m0,
                    m1,
                    out@,
                    Err(e),
                    ar_prefill_run(
                        *sc,
                        c.ranks,
                        c.ranks as u32,
                        batch_elems(*m, c),
                        AttnOrFfnPub::Attn,
                    ),
                    then2(
                        each(c.ranks as nat, |i: int| prefill_norm_run(*m, *sc, c, il, i)),
                        then2(
                            each(c.ranks as nat, |i: int| prefill_ffn_run(*m, *sc, c, il, i)),
                            prefill_ffn_tail(*m, *sc, c, il),
                        ),
                    ),
                );
            }
            return Err(e);
        },
    }
    let ghost m2 = out@;
    match prefill_ffn_all(m, sc, c, il, out) {
        Ok(_) => {},
        Err(e) => {
            proof {
                lemma_ran_then2(
                    m1,
                    m2,
                    out@,
                    Err(e),
                    each(c.ranks as nat, |i: int| prefill_norm_run(*m, *sc, c, il, i)),
                    then2(
                        each(c.ranks as nat, |i: int| prefill_ffn_run(*m, *sc, c, il, i)),
                        prefill_ffn_tail(*m, *sc, c, il),
                    ),
                );
                lemma_ran_then2(
                    m0,
                    m1,
                    out@,
                    Err(e),
                    ar_prefill_run(
                        *sc,
                        c.ranks,
                        c.ranks as u32,
                        batch_elems(*m, c),
                        AttnOrFfnPub::Attn,
                    ),
                    then2(
                        each(c.ranks as nat, |i: int| prefill_norm_run(*m, *sc, c, il, i)),
                        then2(
                            each(c.ranks as nat, |i: int| prefill_ffn_run(*m, *sc, c, il, i)),
                            prefill_ffn_tail(*m, *sc, c, il),
                        ),
                    ),
                );
            }
            return Err(e);
        },
    }
    let ghost m3 = out@;
    let outcome = prefill_ffn_tail_part(m, sc, c, il, out);
    proof {
        lemma_ran_then2(
            m2,
            m3,
            out@,
            outcome,
            each(c.ranks as nat, |i: int| prefill_ffn_run(*m, *sc, c, il, i)),
            prefill_ffn_tail(*m, *sc, c, il),
        );
        lemma_ran_then2(
            m1,
            m2,
            out@,
            outcome,
            each(c.ranks as nat, |i: int| prefill_norm_run(*m, *sc, c, il, i)),
            then2(
                each(c.ranks as nat, |i: int| prefill_ffn_run(*m, *sc, c, il, i)),
                prefill_ffn_tail(*m, *sc, c, il),
            ),
        );
        lemma_ran_then2(
            m0,
            m1,
            out@,
            outcome,
            ar_prefill_run(*sc, c.ranks, c.ranks as u32, batch_elems(*m, c), AttnOrFfnPub::Attn),
            then2(
                each(c.ranks as nat, |i: int| prefill_norm_run(*m, *sc, c, il, i)),
                then2(
                    each(c.ranks as nat, |i: int| prefill_ffn_run(*m, *sc, c, il, i)),
                    prefill_ffn_tail(*m, *sc, c, il),
                ),
            ),
        );
    }
    outcome
}

fn prefill_layer_part(
    m: &Qwen3MoETpModel,
    sc: &ShardedForwardPrefillScratchTp,
    caches: &Vec<Vec<LayerCache>>,
    c: BatchCtx,
    il: usize,
    ic: usize,
    out: &mut Vec<Op>,
) -> (res: Result<(), ForwardError>)
    requires
        batch_ready(*m, *sc, c),
        has_layer(*m, c.ranks, il),
        has_cache(caches@, c.ranks, ic),
    ensures
        ran(old(out)@, final(out)@, res, prefill_layer_run(*m, *sc, caches@, c, il, ic)),
{
    let ghost m0 = out@;
    match prefill_attn_all(m, sc, caches, c, il, ic, out) {
        Ok(_) => {},
        Err(e) => {
            return Err(e);
        },
    }
    let ghost m1 = out@;
    let outcome = prefill_tail_part(m, sc, c, il, out);
    proof {
        lemma_ran_then2(
            m0,
            m1,
            out@,
            outcome,
            each(c.ranks as nat, |i: int| prefill_attn_run(*m, *sc, caches@, c, il, ic, i)),
            prefill_tail(*m, *sc, c, il),
        );
    }
    outcome
}

/// Every layer of `start..end` is there with its cache.
pub open spec fn layers_ready(
    m: Qwen3MoETpModel,
    caches: Seq<Vec<LayerCache>>,
    ranks: usize,
    start: usize,
    end: usize,
    offset: usize,
) -> bool {
    &&& offset <= start
    &&& forall|il: usize|
        start <= il < end ==> #[trigger] has_layer(m, ranks, il) && has_cache(
            caches,
            ranks,
            (il - offset) as usize,
        )
}

fn prefill_layers_loop(
    m: &Qwen3MoETpModel,
    sc: &ShardedForwardPrefillScratchTp,
    caches: &Vec<Vec<LayerCache>>,
    c: BatchCtx,
    start: usize,
    end: usize,
    offset: usize,
    out: &mut Vec<Op>,
) -> (res: Result<(), ForwardError>)
    requires
        batch_ready(*m, *sc, c),
        start <= end,
        layers_ready(*m, caches@, c.ranks, start, end, offset),
    ensures
        ran(
            old(out)@,
            final(out)@,
            res,
            each(
                (end - start) as nat,
                |i: int| prefill_layer_run(
                    *m,
                    *sc,
                    caches@,
                    c,
                    (start + i) as usize,
                    (start + i - offset) as usize,
                ),
            ),
        ),
{
    let ghost base = out@;
    let ghost f = |i: int| prefill_layer_run(
        *m,
        *sc,
        caches@,
        c,
        (start + i) as usize,
        (start + i - offset) as usize,
    );
    let n: usize = end - start;
    let mut i: usize = 0;
    proof {
        assert(out@ =~= base + each(0, f).ops);
    }
    while i < n
        invariant
            i <= n,
            n == end - start,
            base == old(out)@,
            f == (
                |i: int| prefill_layer_run(
                    *m,
                    *sc,
                    caches@,
                    c,
                    (start + i) as usize,
                    (start + i - offset) as usize,
                )
            ),
            ran(base, out@, Ok::<(), ForwardError>(()), each(i as nat, f)),
            batch_ready(*m, *sc, c),
            start <= end,
            layers_ready(*m, caches@, c.ranks, start, end, offset),
        decreases n - i,
    {
        let ghost mid = out@;
        proof {
            assert(has_layer(*m, c.ranks, (start + i) as usize));
        }
        match prefill_layer_part(m, sc, caches, c, start + i, start + i - offset, out) {
            Ok(_) => {
                proof {
                    lemma_ran_then2(base, mid, out@, Ok(()), each(i as nat, f), f(i as int));
                }
            },
            Err(e) => {
                proof {
                    lemma_ran_then2(base, mid, out@, Err(e), each(i as nat, f), f(i as int));
                    lemma_each_stops((i + 1) as nat, n as nat, f);
                }
                return Err(e);
            },
        }
        i = i + 1;
    }
    Ok(())
}

/// Runs the layers `start..end` over a batch of tokens. `hidden_a` holds the
/// hidden state of the batch on every rank before and after.
pub fn forward_prefill_tp_batched_layers(
    model: &Qwen3MoETpModel,
    scratch: &ShardedForwardPrefillScratchTp,
    layer_caches: &Vec<Vec<LayerCache>>,
    c: BatchCtx,
    start: usize,
    end: usize,
    il_cache_offset: usize,
    out: &mut Vec<Op>,
) -> (res: Result<(), ForwardError>)
    requires
        c.ranks <= u32::MAX,
        world_supported(c.ranks as u32) && start < end ==> batch_ready(*model, *scratch, c)
            && layers_ready(*model, layer_caches@, c.ranks, start, end, il_cache_offset),
    ensures
        ran(
            old(out)@,
            final(out)@,
            res,
            prefill_layers_run(
                *model,
                *scratch,
                layer_caches@,
                c,
                start,
                end,
                il_cache_offset,
            ),
        ),
{
    let world: u32 = c.ranks as u32;
    if world != 1 && world != 2 && world != 4 {
        proof {
            assert(out@ =~= old(out)@ + Seq::<Op>::empty());
        }
        return Err(ForwardError::WorldBatchedPrefill { world });
    }
    if start >= end {
        proof {
            assert(out@ =~= old(out)@ + Seq::<Op>::empty());
        }
        return Ok(());
    }
    prefill_layers_loop(model, scratch, layer_caches, c, start, end, il_cache_offset, out)
}

/// The parameters of a pass over one token.
#[derive(Debug, Clone, Copy, PartialEq, Eq, Structural)]
pub struct TokenCtx {
    pub ranks: usize,
    pub position: usize,
    pub skip_shared: bool,
}

/// The partial results that are reduced.
pub open spec fn decode_partial(s: RankForwardScratchTp, kind: AttnOrFfnPub) -> DevicePtr {
    match kind {
        AttnOrFfnPub::Attn => s.partial_attn_out,
        AttnOrFfnPub::Ffn => s.partial_ffn_out,
    }
}

/// Every rank marks its partial result as written and waits for the marks of
/// all others.
pub open spec fn ar_marks(ranks: usize) -> Seq<Op> {
    Seq::new(ranks as nat, |r: int| Op::RecordDone { rank: r as usize }) + flat(
        ranks as nat,
        |r: int| waits_of(ranks as nat, r),
    )
}

/// Rank `r` waits for the mark of rank `p`, unless that is itself.
pub open spec fn wait_of(r: int, p: int) -> Seq<Op> {
    if p != r {
        seq![Op::WaitDone { rank: r as usize, peer: p as usize }]
    } else {
        seq![]
    }
}

/// Rank `r` waits for each of the first `n` ranks but itself.
pub open spec fn waits_of(n: nat, r: int) -> Seq<Op> {
    flat(n, |p: int| wait_of(r, p))
}

/// Elements of one hidden row.
pub open spec fn row_elems(sc: ShardedForwardOneTokenScratchTp) -> u32 {
    (sc.per_rank@[0].hidden_bytes / 2) as u32
}

/// The launch of an all-reduce for one token.
pub open spec fn ar_launch(
    sc: ShardedForwardOneTokenScratchTp,
    world: u32,
    kind: AttnOrFfnPub,
) -> OpRun {
    let s = sc.per_rank@;
    if world == 2 || world == 4 {
        done(
            Seq::new(
                world as nat,
                |r: int|
                    Op::ArOperand {
                        rank: r as usize,
                        hidden: s[r].hidden_a,
                        partial: decode_partial(s[r], kind),
                    },
            ).push(Op::AllReduce { world, elems: row_elems(sc) }),
        )
    } else {
        fail(ForwardError::WorldAr { world })
    }
}

/// The all-reduce for one token.
pub open spec fn ar_run(
    sc: ShardedForwardOneTokenScratchTp,
    ranks: usize,
    world: u32,
    kind: AttnOrFfnPub,
) -> OpRun {
    then2(done(ar_marks(ranks)), ar_launch(sc, world, kind))
}

/// The launch of an all-reduce with norm for one token.
pub open spec fn ar_norm_launch(
    sc: ShardedForwardOneTokenScratchTp,
    world: u32,
    kind: AttnOrFfnPub,
    weights: Seq<DevicePtr>,
    outs: Seq<DevicePtr>,
) -> OpRun {
    let s = sc.per_rank@;
    if world == 2 || world == 4 {
        done(
            flat(
                world as nat,
                |r: int|
                    seq![
                        Op::ArOperand {
                            rank: r as usize,
                            hidden: s[r].hidden_a,
                            partial: decode_partial(s[r], kind),
                        },
                        Op::ArNorm { rank: r as usize, weight: weights[r], out: outs[r] },
                    ],
            ).push(Op::AllReduceNorm { world, elems: row_elems(sc) }),
        )
    } else {
        fail(ForwardError::WorldArNorm { world })
    }
}

/// The all-reduce with norm for one token.
pub open spec fn ar_norm_run(
    sc: ShardedForwardOneTokenScratchTp,
    ranks: usize,
    world: u32,
    kind: AttnOrFfnPub,
    weights: Seq<DevicePtr>,
    outs: Seq<DevicePtr>,
) -> OpRun {
    then2(done(ar_marks(ranks)), ar_norm_launch(sc, world, kind, weights, outs))
}

fn push_waits(ranks: usize, r: usize, out: &mut Vec<Op>)
    ensures
        final(out)@ == old(out)@ + waits_of(ranks as nat, r as int),
{
    let ghost base = out@;
    let ghost rr = r as int;
    let ghost f = |p: int| wait_of(rr, p);
    let mut p: usize = 0;
    proof {
        assert(out@ =~= base + flat(0, f));
    }
    while p < ranks
        invariant
            p <= ranks,
            rr == r,
            f == (|p: int| wait_of(rr, p)),
            out@ == base + flat(p as nat, f),
        decreases ranks - p,
    {
        if p != r {
            out.push(Op::WaitDone { rank: r, peer: p });
        }
        proof {
            assert(f(p as int) == wait_of(rr, p as int));
            assert(out@ =~= base + flat((p + 1) as nat, f));
        }
        p = p + 1;
    }
}

fn push_marks(ranks: usize, out: &mut Vec<Op>)
    ensures
        final(out)@ == old(out)@ + ar_marks(ranks),
{
    let ghost base = out@;
    let ghost recs = Seq::new(ranks as nat, |r: int| Op::RecordDone { rank: r as usize });
    let mut r: usize = 0;
    proof {
        assert(out@ =~= base + recs.take(0));
    }
    while r < ranks
        invariant
            r <= ranks,
            recs == Seq::new(ranks as nat, |r: int| Op::RecordDone { rank: r as usize }),
            out@ == base + recs.take(r as int),
        decreases ranks - r,
    {
        out.push(Op::RecordDone { rank: r });
        proof {
            assert(recs.take(r as int + 1) =~= recs.take(r as int).push(recs[r as int]));
            assert(out@ =~= base + recs.take(r as int + 1));
        }
        r = r + 1;
    }
    let ghost mid = base + recs;
    let ghost f = |r: int| waits_of(ranks as nat, r);
    let mut q: usize = 0;
    proof {
        assert(recs.take(ranks as int) =~= recs);
        assert(out@ =~= mid + flat(0, f));
    }
    while q < ranks
        invariant
            q <= ranks,
            f == (|r: int| waits_of(ranks as nat, r)),
            out@ == mid + flat(q as nat, f),
        decreases ranks - q,
    {
        push_waits(ranks, q, out);
        proof {
            assert(f(q as int) == waits_of(ranks as nat, q as int));
            assert(out@ =~= mid + flat((q + 1) as nat, f));
        }
        q = q + 1;
    }
    proof {
        assert(out@ =~= base + ar_marks(ranks));
    }
}

fn ar_launch_part(
    sc: &ShardedForwardOneTokenScratchTp,
    world: u32,
    kind: AttnOrFfnPub,
    out: &mut Vec<Op>,
) -> (res: Result<(), ForwardError>)
    requires
        sc.per_rank@.len() >= 1,
        world == 2 || world == 4 ==> world <= sc.per_rank@.len(),
    ensures
        ran(old(out)@, final(out)@, res, ar_launch(*sc, world, kind)),
{
    let ghost base = out@;
    if world == 2 || world == 4 {
        let ghost all = ar_launch(*sc, world, kind).ops;
        let n: usize = world as usize;
        let mut r: usize = 0;
        proof {
            assert(out@ =~= base + all.take(0));
        }
        while r < n
            invariant
                r <= n,
                n == world,
                world == 2 || world == 4,
                n <= sc.per_rank@.len(),
                all == ar_launch(*sc, world, kind).ops,
                out@ == base + all.take(r as int),
            decreases n - r,
        {
            let x: RankForwardScratchTp = sc.per_rank[r];
            let partial = match kind {
                AttnOrFfnPub::Attn => x.partial_attn_out,
                AttnOrFfnPub::Ffn => x.partial_ffn_out,
            };
            out.push(Op::ArOperand { rank: r, hidden: x.hidden_a, partial });
            proof {
                assert(all.take(r as int + 1) =~= all.take(r as int).push(all[r as int]));
                assert(out@ =~= base + all.take(r as int + 1));
            }
            r = r + 1;
        }
        let elems: usize = sc.per_rank[0].hidden_bytes / 2;
        out.push(Op::AllReduce { world, elems: elems as u32 });
        proof {
            assert(out@ =~= base + all);
        }
        return Ok(());
    }
    proof {
        assert(out@ =~= base + Seq::<Op>::empty());
    }
    Err(ForwardError::WorldAr { world })
}

/// Adds the partial results of `world` ranks to their hidden states.
pub fn ar_residual(
    sc: &ShardedForwardOneTokenScratchTp,
    ranks: usize,
    world: u32,
    kind: AttnOrFfnPub,
    out: &mut Vec<Op>,
) -> (res: Result<(), ForwardError>)
    requires
        sc.per_rank@.len() >= 1,
        world == 2 || world == 4 ==> world <= sc.per_rank@.len(),
    ensures
        ran(old(out)@, final(out)@, res, ar_run(*sc, ranks, world, kind)),
{
    let ghost m0 = out@;
    push_marks(ranks, out);
    let ghost m1 = out@;
    let res = ar_launch_part(sc, world, kind, out);
    proof {
        lemma_ran_then2(
            m0,
            m1,
            out@,
            res,
            done(ar_marks(ranks)),
            ar_launch(*sc, world, kind),
        );
    }
    res
}

fn ar_norm_launch_part(
    sc: &ShardedForwardOneTokenScratchTp,
    world: u32,
    kind: AttnOrFfnPub,
    weights: &Vec<DevicePtr>,
    outs: &Vec<DevicePtr>,
    out: &mut Vec<Op>,
) -> (res: Result<(), ForwardError>)
    requires
        sc.per_rank@.len() >= 1,
        world == 2 || world == 4 ==> world <= sc.per_rank@.len() && world <= weights@.len()
            && world <= outs@.len(),
    ensures
        ran(old(out)@, final(out)@, res, ar_norm_launch(*sc, world, kind, weights@, outs@)),
{
    let ghost base = out@;
    if world == 2 || world == 4 {
        let ghost s = sc.per_rank@;
        let ghost f = |r: int|
            seq![
                Op::ArOperand {
                    rank: r as usize,
                    hidden: s[r].hidden_a,
                    partial: decode_partial(s[r], kind),
                },
                Op::ArNorm { rank: r as usize, weight: weights@[r], out: outs@[r] },
            ];
        let n: usize = world as usize;
        let mut r: usize = 0;
        proof {
            assert(out@ =~= base + flat(0, f));
        }
        while r < n
            invariant
                r <= n,
                n <= sc.per_rank@.len(),
                n <= weights@.len(),
                n <= outs@.len(),
                s == sc.per_rank@,
                f == (|r: int|
                    seq![
                        Op::ArOperand {
                            rank: r as usize,
                            hidden: s[r].hidden_a,
                            partial: decode_partial(s[r], kind),
                        },
                        Op::ArNorm { rank: r as usize, weight: weights@[r], out: outs@[r] },
                    ]),
                out@ == base + flat(r as nat, f),
            decreases n - r,
        {
            let x: RankForwardScratchTp = sc.per_rank[r];
            let partial = match kind {
                AttnOrFfnPub::Attn => x.partial_attn_out,
                AttnOrFfnPub::Ffn => x.partial_ffn_out,
            };
            out.push(Op::ArOperand { rank: r, hidden: x.hidden_a, partial });
            out.push(Op::ArNorm { rank: r, weight: weights[r], out: outs[r] });
            proof {
                assert(f(r as int) =~= seq![
                    Op::ArOperand { rank: r, hidden: x.hidden_a, partial },
                    Op::ArNorm { rank: r, weight: weights@[r as int], out: outs@[r as int] },
                ]);
                assert(out@ =~= base + flat((r + 1) as nat, f));
            }
            r = r + 1;
        }
        let elems: usize = sc.per_rank[0].hidden_bytes / 2;
        out.push(Op::AllReduceNorm { world, elems: elems as u32 });
        proof {
            assert(ar_norm_launch(*sc, world, kind, weights@, outs@).ops == flat(
                world as nat,
                f,
            ).push(Op::AllReduceNorm { world, elems: row_elems(*sc) }));
            assert(out@ =~= base + ar_norm_launch(*sc, world, kind, weights@, outs@).ops);
        }
        return Ok(());
    }
    proof {
        assert(out@ =~= base + Seq::<Op>::empty());
    }
    Err(ForwardError::WorldArNorm { world })
}

/// Adds the partial results of `world` ranks to their hidden states, and writes
/// the norm of each.
pub fn ar_residual_rmsnorm(
    sc: &ShardedForwardOneTokenScratchTp,
    ranks: usize,
    world: u32,
    kind: AttnOrFfnPub,
    weights: &Vec<DevicePtr>,
    out_norm: &Vec<DevicePtr>,
    out: &mut Vec<Op>,
) -> (res: Result<(), ForwardError>)
    requires
        sc.per_rank@.len() >= 1,
        world == 2 || world == 4 ==> world <= sc.per_rank@.len() && world <= weights@.len()
            && world <= out_norm@.len(),
    ensures
        ran(
            old(out)@,
            final(out)@,
            res,
            ar_norm_run(*sc, ranks, world, kind, weights@, out_norm@),
        ),
{
    let ghost m0 = out@;
    push_marks(ranks, out);
    let ghost m1 = out@;
    let res = ar_norm_launch_part(sc, world, kind, weights, out_norm, out);
    proof {
        lemma_ran_then2(
            m0,
            m1,
            out@,
            res,
            done(ar_marks(ranks)),
            ar_norm_launch(*sc, world, kind, weights@, out_norm@),
        );
    }
    res
}

/// The full-attention block of rank `r` for one token.
pub open spec fn decode_full_attn_run(
    m: Qwen3MoETpModel,
    sc: ShardedForwardOneTokenScratchTp,
    caches: Seq<Vec<LayerCache>>,
    c: TokenCtx,
    il: usize,
    ic: usize,
    r: int,
) -> OpRun {
    let s = sc.per_rank@[r];
    match attn_refs_spec(tensors_at(m, r, il), il) {
        Err(e) => fail(e),
        Ok(w) => match s.layer {
            None => fail(
                ForwardError::MissingScratch { rank: r as usize, part: ScratchPart::LayerForward },
            ),
            Some(ls) => if !ls.full_attn {
                fail(
                    ForwardError::MissingScratch { rank: r as usize, part: ScratchPart::FullAttn },
                )
            } else if caches[r]@[ic as int] is Gdn {
                fail(ForwardError::DecodeWantsKv { rank: r as usize, layer: il })
            } else {
                done(
                    seq![
                        Op::FullAttn {
                            rank: r as usize,
                            layer: il,
                            cache: ic,
                            w,
                            pass: Pass::Decode,
                            x: s.hidden_a,
                            out: s.partial_attn_out,
                            n_tokens: 1,
                            position: c.position,
                            world: c.ranks as u32,
                            kv_replicated: m.tp.spec_kv_replicated(),
                        },
                    ],
                )
            },
        },
    }
}

/// The gated-delta-net block of rank `r` for one token.
pub open spec fn decode_gdn_run(
    m: Qwen3MoETpModel,
    sc: ShardedForwardOneTokenScratchTp,
    caches: Seq<Vec<LayerCache>>,
    c: TokenCtx,
    il: usize,
    ic: usize,
    r: int,
) -> OpRun {
    let s = sc.per_rank@[r];
    match gdn_refs_spec(tensors_at(m, r, il), il) {
        Err(e) => fail(e),
        Ok(w) => if !(caches[r]@[ic as int] is Gdn) {
            fail(ForwardError::DecodeWantsGdn { rank: r as usize, layer: il })
        } else {
            match s.layer {
                None => fail(
                    ForwardError::MissingScratch {
                        rank: r as usize,
                        part: ScratchPart::LayerForward,
                    },
                ),
                Some(ls) => if !ls.gdn {
                    fail(
                        ForwardError::MissingScratch { rank: r as usize, part: ScratchPart::Gdn },
                    )
                } else {
                    done(
                        seq![
                            Op::Gdn {
                                rank: r as usize,
                                layer: il,
                                cache: ic,
                                slot: 0,
                                w,
                                pass: Pass::Decode,
                                x: s.hidden_a,
                                out: s.partial_attn_out,
                                n_tokens: 1,
                                world: c.ranks as u32,
                                kq_replicated: false,
                            },
                        ],
                    )
                },
            }
        },
    }
}

/// Rank `r` has the norm that follows the attention block.
pub open spec fn decode_norm_at(m: Qwen3MoETpModel, il: usize, r: int) -> Result<
    Weight,
    ForwardError,
> {
    norm_spec(tensors_at(m, r, il), il, TensorKind::PostAttentionNorm, TensorKind::FfnNorm)
}

pub open spec fn decode_norm_check(m: Qwen3MoETpModel, il: usize, r: int) -> OpRun {
    match decode_norm_at(m, il, r) {
        Ok(_) => done(seq![]),
        Err(e) => fail(e),
    }
}

/// Rank `r` has working memory for its layers.
pub open spec fn decode_layer_check(sc: ShardedForwardOneTokenScratchTp, r: int) -> OpRun {
    match sc.per_rank@[r].layer {
        Some(_) => done(seq![]),
        None => fail(
            ForwardError::MissingScratch { rank: r as usize, part: ScratchPart::LayerForward },
        ),
    }
}

/// The norm weights of all ranks.
pub open spec fn norm_ptrs(m: Qwen3MoETpModel, ranks: usize, il: usize) -> Seq<DevicePtr> {
    Seq::new(ranks as nat, |r: int| decode_norm_at(m, il, r)->Ok_0.ptr)
}

/// Where the ranks keep the normed hidden state.
pub open spec fn mid_ptrs(sc: ShardedForwardOneTokenScratchTp, ranks: usize) -> Seq<DevicePtr> {
    Seq::new(ranks as nat, |r: int| sc.per_rank@[r].layer->Some_0.mid_norm_f16)
}

/// The attention output joins the hidden state, which is then normed.
pub open spec fn decode_post_attn(
    m: Qwen3MoETpModel,
    sc: ShardedForwardOneTokenScratchTp,
    ranks: usize,
    il: usize,
) -> OpRun {
    let world = ranks as u32;
    let w = norm_ptrs(m, ranks, il);
    let o = mid_ptrs(sc, ranks);
    if world > 1 {
        ar_norm_run(sc, ranks, world, AttnOrFfnPub::Attn, w, o)
    } else {
        done(
            flat(
                ranks as nat,
                |r: int|
                    seq![
                        Op::Add {
                            rank: r as usize,
                            a: sc.per_rank@[r].hidden_a,
                            b: sc.per_rank@[r].partial_attn_out,
                            out: sc.per_rank@[r].hidden_a,
                            elems: m.config.hidden_size,
                        },
                        Op::RmsNorm {
                            rank: r as usize,
                            x: sc.per_rank@[r].hidden_a,
                            weight: w[r],
                            out: o[r],
                            rows: 1,
                            hidden: m.config.hidden_size,
                        },
                    ],
            ),
        )
    }
}

/// The FFN of rank `r` for one token, on the normed state at `x`.
pub open spec fn decode_ffn_run(
    m: Qwen3MoETpModel,
    sc: ShardedForwardOneTokenScratchTp,
    il: usize,
    world: u32,
    x: Seq<DevicePtr>,
    pre_quantized: bool,
    skip_shared: bool,
    r: int,
) -> OpRun {
    ffn_run(
        m,
        il,
        r,
        world,
        sc.per_rank@[r].layer->Some_0,
        FfnIo {
            pass: Pass::Decode,
            n_tokens: 1,
            x: x[r],
            partial: sc.per_rank@[r].partial_ffn_out,
            skip_shared,
            pre_quantized,
        },
    )
}

/// The FFN output joins the hidden state: by an all-reduce, or rank by rank
/// where every rank has the whole of it.
pub open spec fn decode_ffn_tail(
    m: Qwen3MoETpModel,
    sc: ShardedForwardOneTokenScratchTp,
    ranks: usize,
    il: usize,
) -> OpRun {
    if spec_ffn_world(m, il, ranks as u32) > 1 {
        ar_run(sc, ranks, ranks as u32, AttnOrFfnPub::Ffn)
    } else {
        done(
            Seq::new(
                ranks as nat,
                |r: int|
                    Op::Add {
                        rank: r as usize,
                        a: sc.per_rank@[r].hidden_a,
                        b: sc.per_rank@[r].partial_ffn_out,
                        out: sc.per_rank@[r].hidden_a,
                        elems: m.config.hidden_size,
                    },
            ),
        )
    }
}

/// A layer after its attention blocks have written their partial results.
pub open spec fn decode_tail(
    m: Qwen3MoETpModel,
    sc: ShardedForwardOneTokenScratchTp,
    c: TokenCtx,
    il: usize,
) -> OpRun {
    then2(
        each(c.ranks as nat, |i: int| decode_norm_check(m, il, i)),
        then2(
            each(c.ranks as nat, |i: int| decode_layer_check(sc, i)),
            then2(
                decode_post_attn(m, sc, c.ranks, il),
                then2(
                    each(
                        c.ranks as nat,
                        |i: int|
                            decode_ffn_run(
                                m,
                                sc,
                                il,
                                spec_ffn_world(m, il, c.ranks as u32),
                                mid_ptrs(sc, c.ranks),
                                false,
                                c.skip_shared,
                                i,
                            ),
                    ),
                    decode_ffn_tail(m, sc, c.ranks, il),
                ),
            ),
        ),
    )
}

/// A full-attention layer for one token.
pub open spec fn full_attn_layer_run(
    m: Qwen3MoETpModel,
    sc: ShardedForwardOneTokenScratchTp,
    caches: Seq<Vec<LayerCache>>,
    c: TokenCtx,
    il: usize,
    ic: usize,
) -> OpRun {
    then2(
        each(c.ranks as nat, |i: int| decode_full_attn_run(m, sc, caches, c, il, ic, i)),
        decode_tail(m, sc, c, il),
    )
}

/// A gated-delta-net layer for one token.
pub open spec fn gdn_layer_run(
    m: Qwen3MoETpModel,
    sc: ShardedForwardOneTokenScratchTp,
    caches: Seq<Vec<LayerCache>>,
    c: TokenCtx,
    il: usize,
    ic: usize,
) -> OpRun {
    then2(
        each(c.ranks as nat, |i: int| decode_gdn_run(m, sc, caches, c, il, ic, i)),
        decode_tail(m, sc, c, il),
    )
}

/// A layer for one token.
pub open spec fn decode_layer_run(
    m: Qwen3MoETpModel,
    sc: ShardedForwardOneTokenScratchTp,
    caches: Seq<Vec<LayerCache>>,
    c: TokenCtx,
    il: usize,
) -> OpRun {
    if m.config.spec_is_recurrent(il as nat) {
        gdn_layer_run(m, sc, caches, c, il, il)
    } else {
        full_attn_layer_run(m, sc, caches, c, il, il)
    }
}

/// The sizes can be computed and there is working memory for each rank.
pub open spec fn token_ready(
    m: Qwen3MoETpModel,
    sc: ShardedForwardOneTokenScratchTp,
    c: TokenCtx,
) -> bool {
    &&& 1 <= c.ranks <= u32::MAX
    &&& c.ranks <= sc.per_rank@.len()
    &&& experts_fit(&m.config)
}

fn decode_full_attn_part(
    m: &Qwen3MoETpModel,
    sc: &ShardedForwardOneTokenScratchTp,
    caches: &Vec<Vec<LayerCache>>,
    c: TokenCtx,
    il: usize,
    ic: usize,
    r: usize,
    out: &mut Vec<Op>,
) -> (res: Result<(), ForwardError>)
    requires
        r < c.ranks,
        token_ready(*m, *sc, c),
        has_layer(*m, c.ranks, il),
        has_cache(caches@, c.ranks, ic),
    ensures
        ran(
            old(out)@,
            final(out)@,
            res,
            decode_full_attn_run(*m, *sc, caches@, c, il, ic, r as int),
        ),
{
    let s: RankForwardScratchTp = sc.per_rank[r];
    let ts = &m.shards[r].layers[il];
    let cache: LayerCache = caches[r][ic];
    let w = match attn_refs(ts, il) {
        Ok(w) => w,
        Err(e) => {
            proof {
                assert(out@ =~= old(out)@ + Seq::<Op>::empty());
            }
            return Err(e);
        },
    };
    let is_gdn = match cache {
        LayerCache::Gdn(_) => true,
        _ => false,
    };
    let ls: LayerScratch = match s.layer {
        Some(x) => x,
        None => {
            proof {
                assert(out@ =~= old(out)@ + Seq::<Op>::empty());
            }
            return Err(
                ForwardError::MissingScratch { rank: r, part: ScratchPart::LayerForward },
            );
        },
    };
    if !ls.full_attn {
        proof {
            assert(out@ =~= old(out)@ + Seq::<Op>::empty());
        }
        return Err(ForwardError::MissingScratch { rank: r, part: ScratchPart::FullAttn });
    }
    if is_gdn {
        proof {
            assert(out@ =~= old(out)@ + Seq::<Op>::empty());
        }
        return Err(ForwardError::DecodeWantsKv { rank: r, layer: il });
    }
    push(
        out,
        Op::FullAttn {
            rank: r,
            layer: il,
            cache: ic,
            w,
            pass: Pass::Decode,
            x: s.hidden_a,
            out: s.partial_attn_out,
            n_tokens: 1,
            position: c.position,
            world: c.ranks as u32,
            kv_replicated: m.tp.kv_replicated(),
        },
    );
    Ok(())
}

fn decode_gdn_part(
    m: &Qwen3MoETpModel,
    sc: &ShardedForwardOneTokenScratchTp,
    caches: &Vec<Vec<LayerCache>>,
    c: TokenCtx,
    il: usize,
    ic: usize,
    r: usize,
    out: &mut Vec<Op>,
) -> (res: Result<(), ForwardError>)
    requires
        r < c.ranks,
        token_ready(*m, *sc, c),
        has_layer(*m, c.ranks, il),
        has_cache(caches@, c.ranks, ic),
    ensures
        ran(old(out)@, final(out)@, res, decode_gdn_run(*m, *sc, caches@, c, il, ic, r as int)),
{
    let s: RankForwardScratchTp = sc.per_rank[r];
    let ts = &m.shards[r].layers[il];
    let cache: LayerCache = caches[r][ic];
    let w = match gdn_refs(ts, il) {
        Ok(w) => w,
        Err(e) => {
            proof {
                assert(out@ =~= old(out)@ + Seq::<Op>::empty());
            }
            return Err(e);
        },
    };
    let is_gdn = match cache {
        LayerCache::Gdn(_) => true,
        _ => false,
    };
    if !is_gdn {
        proof {
            assert(out@ =~= old(out)@ + Seq::<Op>::empty());
        }
        return Err(ForwardError::DecodeWantsGdn { rank: r, layer: il });
    }
    let ls: LayerScratch = match s.layer {
        Some(x) => x,
        None => {
            proof {
                assert(out@ =~= old(out)@ + Seq::<Op>::empty());
            }
            return Err(
                ForwardError::MissingScratch { rank: r, part: ScratchPart::LayerForward },
            );
        },
    };
    if !ls.gdn {
        proof {
            assert(out@ =~= old(out)@ + Seq::<Op>::empty());
        }
        return Err(ForwardError::MissingScratch { rank: r, part: ScratchPart::Gdn });
    }
    push(
        out,
        Op::Gdn {
            rank: r,
            layer: il,
            cache: ic,
            slot: 0,
            w,
            pass: Pass::Decode,
            x: s.hidden_a,
            out: s.partial_attn_out,
            n_tokens: 1,
            world: c.ranks as u32,
            kq_replicated: m.tp.gdn_kq_replicated(),
        },
    );
    Ok(())
}

fn decode_full_attn_all(
    m: &Qwen3MoETpModel,
    sc: &ShardedForwardOneTokenScratchTp,
    caches: &Vec<Vec<LayerCache>>,
    c: TokenCtx,
    il: usize,
    ic: usize,
    out: &mut Vec<Op>,
) -> (res: Result<(), ForwardError>)
    requires
        token_ready(*m, *sc, c),
        has_layer(*m, c.ranks, il),
        has_cache(caches@, c.ranks, ic),
    ensures
        ran(
            old(out)@,
            final(out)@,
            res,
            each(c.ranks as nat, |i: int| decode_full_attn_run(*m, *sc, caches@, c, il, ic, i)),
        ),
{
    let ghost base = out@;
    let ghost f = |i: int| decode_full_attn_run(*m, *sc, caches@, c, il, ic, i);
    let n: usize = c.ranks;
    let mut i: usize = 0;
    proof {
        assert(out@ =~= base + each(0, f).ops);
    }
    while i < n
        invariant
            i <= n,
            n == c.ranks,
            base == old(out)@,
            f == (|i: int| decode_full_attn_run(*m, *sc, caches@, c, il, ic, i)),
            ran(base, out@, Ok::<(), ForwardError>(()), each(i as nat, f)),
            token_ready(*m, *sc, c),
            has_layer(*m, c.ranks, il),
            has_cache(caches@, c.ranks, ic),
        decreases n - i,
    {
        let ghost mid = out@;
        match decode_full_attn_part(m, sc, caches, c, il, ic, i, out) {
            Ok(_) => {
                proof {
                    lemma_ran_then2(base, mid, out@, Ok(()), each(i as nat, f), f(i as int));
                }
            },
            Err(e) => {
                proof {
                    lemma_ran_then2(base, mid, out@, Err(e), each(i as nat, f), f(i as int));
                    lemma_each_stops((i + 1) as nat, n as nat, f);
                }
                return Err(e);
            },
        }
        i = i + 1;
    }
    Ok(())
}

fn decode_gdn_all(
    m: &Qwen3MoETpModel,
    sc: &ShardedForwardOneTokenScratchTp,
    caches: &Vec<Vec<LayerCache>>,
    c: TokenCtx,
    il: usize,
    ic: usize,
    out: &mut Vec<Op>,
) -> (res: Result<(), ForwardError>)
    requires
        token_ready(*m, *sc, c),
        has_layer(*m, c.ranks, il),
        has_cache(caches@, c.ranks, ic),
    ensures
        ran(
            old(out)@,
            final(out)@,
            res,
            each(c.ranks as nat, |i: int| decode_gdn_run(*m, *sc, caches@, c, il, ic, i)),
        ),
{
    let ghost base = out@;
    let ghost f = |i: int| decode_gdn_run(*m, *sc, caches@, c, il, ic, i);
    let n: usize = c.ranks;
    let mut i: usize = 0;
    proof {
        assert(out@ =~= base + each(0, f).ops);
    }
    while i < n
        invariant
            i <= n,
            n == c.ranks,
            base == old(out)@,
            f == (|i: int| decode_gdn_run(*m, *sc, caches@, c, il, ic, i)),
            ran(base, out@, Ok::<(), ForwardError>(()), each(i as nat, f)),
            token_ready(*m, *sc, c),
            has_layer(*m, c.ranks, il),
            has_cache(caches@, c.ranks, ic),
        decreases n - i,
    {
        let ghost mid = out@;
        match decode_gdn_part(m, sc, caches, c, il, ic, i, out) {
            Ok(_) => {
                proof {
                    lemma_ran_then2(base, mid, out@, Ok(()), each(i as nat, f), f(i as int));
                }
            },
            Err(e) => {
                proof {
                    lemma_ran_then2(base, mid, out@, Err(e), each(i as nat, f), f(i as int));
                    lemma_each_stops((i + 1) as nat, n as nat, f);
                }
                return Err(e);
            },
        }
        i = i + 1;
    }
    Ok(())
}

/// Collects the norm weights of all ranks.
fn collect_norms(m: &Qwen3MoETpModel, ranks: usize, il: usize, out: &mut Vec<Op>) -> (res: Result<
    Vec<DevicePtr>,
    ForwardError,
>)
    requires
        has_layer(*m, ranks, il),
    ensures
        final(out)@ == old(out)@,
        each(ranks as nat, |i: int| decode_norm_check(*m, il, i)).ops == Seq::<Op>::empty(),
        match res {
            Ok(v) => v@ == norm_ptrs(*m, ranks, il) && each(
                ranks as nat,
                |i: int| decode_norm_check(*m, il, i),
            ).err is None,
            Err(e) => each(ranks as nat, |i: int| decode_norm_check(*m, il, i)).err == Some(e),
        },
{
    let mut v: Vec<DevicePtr> = Vec::new();
    let ghost f = |i: int| decode_norm_check(*m, il, i);
    let mut r: usize = 0;
    while r < ranks
        invariant
            r <= ranks,
            has_layer(*m, ranks, il),
            f == (|i: int| decode_norm_check(*m, il, i)),
            v@.len() == r,
            forall|j: int|
                0 <= j < r ==> #[trigger] v@[j] == decode_norm_at(*m, il, j)->Ok_0.ptr,
            each(r as nat, f).err is None,
            each(r as nat, f).ops == Seq::<Op>::empty(),
            out@ == old(out)@,
        decreases ranks - r,
    {
        let ts = &m.shards[r].layers[il];
        match find_norm(ts, il, TensorKind::PostAttentionNorm, TensorKind::FfnNorm) {
            Ok(w) => {
                v.push(w.ptr);
                proof {
                    assert(f(r as int) == decode_norm_check(*m, il, r as int));
                    assert(each((r + 1) as nat, f).ops =~= Seq::<Op>::empty());
                }
            },
            Err(e) => {
                proof {
                    assert(f(r as int) == decode_norm_check(*m, il, r as int));
                    assert(each((r + 1) as nat, f).ops =~= Seq::<Op>::empty());
                    lemma_each_stops((r + 1) as nat, ranks as nat, f);
                }
                return Err(e);
            },
        }
        r = r + 1;
    }
    proof {
        assert(v@ =~= norm_ptrs(*m, ranks, il));
    }
    Ok(v)
}

/// Collects where the ranks keep the normed hidden state.
fn collect_mids(sc: &ShardedForwardOneTokenScratchTp, ranks: usize) -> (res: Result<
    Vec<DevicePtr>,
    ForwardError,
>)
    requires
        ranks <= sc.per_rank@.len(),
    ensures
        each(ranks as nat, |i: int| decode_layer_check(*sc, i)).ops == Seq::<Op>::empty(),
        match res {
            Ok(v) => {
                &&& v@ == mid_ptrs(*sc, ranks)
                &&& each(ranks as nat, |i: int| decode_layer_check(*sc, i)).err is None
                &&& forall|j: int| 0 <= j < ranks ==> (#[trigger] sc.per_rank@[j]).layer is Some
            },
            Err(e) => each(ranks as nat, |i: int| decode_layer_check(*sc, i)).err == Some(e),
        },
{
    let mut v: Vec<DevicePtr> = Vec::new();
    let ghost f = |i: int| decode_layer_check(*sc, i);
    let mut r: usize = 0;
    while r < ranks
        invariant
            r <= ranks,
            ranks <= sc.per_rank@.len(),
            f == (|i: int| decode_layer_check(*sc, i)),
            v@.len() == r,
            forall|j: int|
                0 <= j < r ==> (#[trigger] sc.per_rank@[j]).layer is Some && v@[j]
                    == sc.per_rank@[j].layer->Some_0.mid_norm_f16,
            each(r as nat, f).err is None,
            each(r as nat, f).ops == Seq::<Op>::empty(),
        decreases ranks - r,
    {
        let s: RankForwardScratchTp = sc.per_rank[r];
        match s.layer {
            Some(ls) => {
                v.push(ls.mid_norm_f16);
                proof {
                    assert(f(r as int) == decode_layer_check(*sc, r as int));
                    assert(each((r + 1) as nat, f).ops =~= Seq::<Op>::empty());
                }
            },
            None => {
                let e = ForwardError::MissingScratch { rank: r, part: ScratchPart::LayerForward };
                proof {
                    assert(f(r as int) == decode_layer_check(*sc, r as int));
                    assert(each((r + 1) as nat, f).ops =~= Seq::<Op>::empty());
                    lemma_each_stops((r + 1) as nat, ranks as nat, f);
                }
                return Err(e);
            },
        }
        r = r + 1;
    }
    proof {
        assert(v@ =~= mid_ptrs(*sc, ranks));
    }
    Ok(v)
}

fn decode_post_attn_part(
    m: &Qwen3MoETpModel,
    sc: &ShardedForwardOneTokenScratchTp,
    ranks: usize,
    il: usize,
    weights: &Vec<DevicePtr>,
    mids: &Vec<DevicePtr>,
    out: &mut Vec<Op>,
) -> (res: Result<(), ForwardError>)
    requires
        1 <= ranks <= u32::MAX,
        ranks <= sc.per_rank@.len(),
        weights@ == norm_ptrs(*m, ranks, il),
        mids@ == mid_ptrs(*sc, ranks),
    ensures
        ran(old(out)@, final(out)@, res, decode_post_attn(*m, *sc, ranks, il)),
{
    let world: u32 = ranks as u32;
    if world > 1 {
        return ar_residual_rmsnorm(sc, ranks, world, AttnOrFfnPub::Attn, weights, mids, out);
    }
    let hidden: usize = m.config.hidden_size;
    let ghost base = out@;
    let ghost f = |r: int|
        seq![
            Op::Add {
                rank: r as usize,
                a: sc.per_rank@[r].hidden_a,
                b: sc.per_rank@[r].partial_attn_out,
                out: sc.per_rank@[r].hidden_a,
                elems: m.config.hidden_size,
            },
            Op::RmsNorm {
                rank: r as usize,
                x: sc.per_rank@[r].hidden_a,
                weight: weights@[r],
                out: mids@[r],
                rows: 1,
                hidden: m.config.hidden_size,
            },
        ];
    let mut r: usize = 0;
    proof {
        assert(out@ =~= base + flat(0, f));
    }
    while r < ranks
        invariant
            r <= ranks,
            ranks <= sc.per_rank@.len(),
            hidden == m.config.hidden_size,
            weights@ == norm_ptrs(*m, ranks, il),
            mids@ == mid_ptrs(*sc, ranks),
            f == (|r: int|
                seq![
                    Op::Add {
                        rank: r as usize,
                        a: sc.per_rank@[r].hidden_a,
                        b: sc.per_rank@[r].partial_attn_out,
                        out: sc.per_rank@[r].hidden_a,
                        elems: m.config.hidden_size,
                    },
                    Op::RmsNorm {
                        rank: r as usize,
                        x: sc.per_rank@[r].hidden_a,
                        weight: weights@[r],
                        out: mids@[r],
                        rows: 1,
                        hidden: m.config.hidden_size,
                    },
                ]),
            out@ == base + flat(r as nat, f),
        decreases ranks - r,
    {
        let s: RankForwardScratchTp = sc.per_rank[r];
        let add = Op::Add {
            rank: r,
            a: s.hidden_a,
            b: s.partial_attn_out,
            out: s.hidden_a,
            elems: hidden,
        };
        let norm = Op::RmsNorm {
            rank: r,
            x: s.hidden_a,
            weight: weights[r],
            out: mids[r],
            rows: 1,
            hidden,
        };
        out.push(add);
        out.push(norm);
        proof {
            assert(f(r as int) =~= seq![add, norm]);
            assert(out@ =~= base + flat((r + 1) as nat, f));
        }
        r = r + 1;
    }
    proof {
        assert(decode_post_attn(*m, *sc, ranks, il).ops == flat(ranks as nat, f));
    }
    Ok(())
}

fn decode_ffn_part(
    m: &Qwen3MoETpModel,
    sc: &ShardedForwardOneTokenScratchTp,
    x: &Vec<DevicePtr>,
    il: usize,
    world: u32,
    pre_quantized: bool,
    skip_shared: bool,
    ranks: usize,
    r: usize,
    out: &mut Vec<Op>,
) -> (res: Result<(), ForwardError>)
    requires
        r < ranks,
        ranks <= sc.per_rank@.len(),
        ranks <= x@.len(),
        has_layer(*m, ranks, il),
        experts_fit(&m.config),
        sc.per_rank@[r as int].layer is Some,
    ensures
        ran(
            old(out)@,
            final(out)@,
            res,
            decode_ffn_run(*m, *sc, il, world, x@, pre_quantized, skip_shared, r as int),
        ),
{
    let s: RankForwardScratchTp = sc.per_rank[r];
    let ls: LayerScratch = s.layer.unwrap();
    let io = FfnIo {
        pass: Pass::Decode,
        n_tokens: 1,
        x: x[r],
        partial: s.partial_ffn_out,
        skip_shared,
        pre_quantized,
    };
    ffn_part(m, il, r, world, ls, io, out)
}

/// The FFN of every rank for one token, on the normed states at `mid_norm_ptrs`.
pub fn forward_ffn_block_tp(
    model: &Qwen3MoETpModel,
    scratch: &ShardedForwardOneTokenScratchTp,
    ranks: usize,
    mid_norm_ptrs: &Vec<DevicePtr>,
    il: usize,
    world: u32,
    pre_quantized: bool,
    skip_shared: bool,
    out: &mut Vec<Op>,
) -> (res: Result<(), ForwardError>)
    requires
        ranks <= scratch.per_rank@.len(),
        ranks <= mid_norm_ptrs@.len(),
        has_layer(*model, ranks, il),
        experts_fit(&model.config),
        forall|r: int| 0 <= r < ranks ==> (#[trigger] scratch.per_rank@[r]).layer is Some,
    ensures
        ran(
            old(out)@,
            final(out)@,
            res,
            each(
                ranks as nat,
                |i: int| decode_ffn_run(
                    *model,
                    *scratch,
                    il,
                    world,
                    mid_norm_ptrs@,
                    pre_quantized,
                    skip_shared,
                    i,
                ),
            ),
        ),
{
    let ghost base = out@;
    let ghost f = |i: int| decode_ffn_run(
        *model,
        *scratch,
        il,
        world,
        mid_norm_ptrs@,
        pre_quantized,
        skip_shared,
        i,
    );
    let n: usize = ranks;
    let mut i: usize = 0;
    proof {
        assert(out@ =~= base + each(0, f).ops);
    }
    while i < n
        invariant
            i <= n,
            n == ranks,
            base == old(out)@,
            f == (
                |i: int| decode_ffn_run(
                    *model,
                    *scratch,
                    il,
                    world,
                    mid_norm_ptrs@,
                    pre_quantized,
                    skip_shared,
                    i,
                )
            ),
            ran(base, out@, Ok::<(), ForwardError>(()), each(i as nat, f)),
            ranks <= scratch.per_rank@.len(),
            ranks <= mid_norm_ptrs@.len(),
            has_layer(*model, ranks, il),
            experts_fit(&model.config),
            forall|r: int| 0 <= r < ranks ==> (#[trigger] scratch.per_rank@[r]).layer is Some,
        decreases n - i,
    {
        let ghost mid = out@;
        proof {
            assert(scratch.per_rank@[i as int].layer is Some);
        }
        match decode_ffn_part(
            model,
            scratch,
            mid_norm_ptrs,
            il,
            world,
            pre_quantized,
            skip_shared,
            ranks,
            i,
            out,
        ) {
            Ok(_) => {
                proof {
                    lemma_ran_then2(base, mid, out@, Ok(()), each(i as nat, f), f(i as int));
                }
            },
            Err(e) => {
                proof {
                    lemma_ran_then2(base, mid, out@, Err(e), each(i as nat, f), f(i as int));
                    lemma_each_stops((i + 1) as nat, n as nat, f);
                }
                return Err(e);
            },
        }
        i = i + 1;
    }
    Ok(())
}

fn decode_ffn_tail_part(
    m: &Qwen3MoETpModel,
    sc: &ShardedForwardOneTokenScratchTp,
    ranks: usize,
    il: usize,
    out: &mut Vec<Op>,
) -> (res: Result<(), ForwardError>)
    requires
        1 <= ranks <= u32::MAX,
        ranks <= sc.per_rank@.len(),
    ensures
        ran(old(out)@, final(out)@, res, decode_ffn_tail(*m, *sc, ranks, il)),
{
    if ffn_world(m, il, ranks as u32) > 1 {
        return ar_residual(sc, ranks, ranks as u32, AttnOrFfnPub::Ffn, out);
    }
    let hidden: usize = m.config.hidden_size;
    let ghost base = out@;
    let mut r: usize = 0;
    proof {
        assert(out@ =~= base + decode_ffn_tail(*m, *sc, ranks, il).ops.take(0));
    }
    while r < ranks
        invariant
            r <= ranks,
            ranks <= sc.per_rank@.len(),
            hidden == m.config.hidden_size,
            !(spec_ffn_world(*m, il, ranks as u32) > 1),
            out@ == base + decode_ffn_tail(*m, *sc, ranks, il).ops.take(r as int),
        decreases ranks - r,
    {
        let s: RankForwardScratchTp = sc.per_rank[r];
        out.push(
            Op::Add {
                rank: r,
                a: s.hidden_a,
                b: s.partial_ffn_out,
                out: s.hidden_a,
                elems: hidden,
            },
        );
        proof {
            let t = decode_ffn_tail(*m, *sc, ranks, il).ops;
            assert(t.take(r as int + 1) =~= t.take(r as int).push(t[r as int]));
            assert(out@ =~= base + t.take(r as int + 1));
        }
        r = r + 1;
    }
    proof {
        let t = decode_ffn_tail(*m, *sc, ranks, il).ops;
        assert(t.take(t.len() as int) =~= t);
    }
    Ok(())
}

fn decode_tail_part(
    m: &Qwen3MoETpModel,
    sc: &ShardedForwardOneTokenScratchTp,
    c: TokenCtx,
    il: usize,
    out: &mut Vec<Op>,
) -> (res: Result<(), ForwardError>)
    requires
        token_ready(*m, *sc, c),
        has_layer(*m, c.ranks, il),
    ensures
        ran(old(out)@, final(out)@, res, decode_tail(*m, *sc, c, il)),
{
    let ghost n = each(c.ranks as nat, |i: int| decode_norm_check(*m, il, i));
    let ghost l = each(c.ranks as nat, |i: int| decode_layer_check(*sc, i));
    let ghost pa = decode_post_attn(*m, *sc, c.ranks, il);
    let ghost world = spec_ffn_world(*m, il, c.ranks as u32);
    let ghost mp = mid_ptrs(*sc, c.ranks);
    let ghost ff = each(
        c.ranks as nat,
        |i: int| decode_ffn_run(*m, *sc, il, world, mp, false, c.skip_shared, i),
    );
    let ghost ft = decode_ffn_tail(*m, *sc, c.ranks, il);
    let ghost rest = then2(pa, then2(ff, ft));
    let ghost m0 = out@;
    let weights = match collect_norms(m, c.ranks, il, out) {
        Ok(v) => v,
        Err(e) => {
            proof {
                assert(out@ =~= m0 + Seq::<Op>::empty());
            }
            return Err(e);
        },
    };
    proof {
        assert(m0 =~= m0 + Seq::<Op>::empty());
    }
    let mids = match collect_mids(sc, c.ranks) {
        Ok(v) => v,
        Err(e) => {
            proof {
                lemma_ran_then2(m0, m0, out@, Err(e), n, then2(l, rest));
            }
            return Err(e);
        },
    };
    let ghost m1 = out@;
    match decode_post_attn_part(m, sc, c.ranks, il, &weights, &mids, out) {
        Ok(_) => {},
        Err(e) => {
            proof {
                lemma_ran_then2(m0, m1, out@, Err(e), l, rest);
                lemma_ran_then2(m0, m1, out@, Err(e), n, then2(l, rest));
            }
            return Err(e);
        },
    }
    let ghost m2 = out@;
    let w: u32 = ffn_world(m, il, c.ranks as u32);
    match forward_ffn_block_tp(m, sc, c.ranks, &mids, il, w, false, c.skip_shared, out) {
        Ok(_) => {},
        Err(e) => {
            proof {
                lemma_ran_then2(m1, m2, out@, Err(e), pa, then2(ff, ft));
                lemma_ran_then2(m0, m1, out@, Err(e), l, rest);
                lemma_ran_then2(m0, m1, out@, Err(e), n, then2(l, rest));
            }
            return Err(e);
        },
    }
    let ghost m3 = out@;
    let res = decode_ffn_tail_part(m, sc, c.ranks, il, out);
    proof {
        lemma_ran_then2(m2, m3, out@, res, ff, ft);
        lemma_ran_then2(m1, m2, out@, res, pa, then2(ff, ft));
        lemma_ran_then2(m0, m1, out@, res, l, rest);
        lemma_ran_then2(m0, m1, out@, res, n, then2(l, rest));
    }
    res
}

/// A full-attention layer of all ranks for one token. Its cache is number `il_cache`.
pub fn forward_full_attn_layer_tp(
    model: &Qwen3MoETpModel,
    scratch: &ShardedForwardOneTokenScratchTp,
    layer_caches: &Vec<Vec<LayerCache>>,
    c: TokenCtx,
    il: usize,
    il_cache: usize,
    out: &mut Vec<Op>,
) -> (res: Result<(), ForwardError>)
    requires
        token_ready(*model, *scratch, c),
        has_layer(*model, c.ranks, il),
        has_cache(layer_caches@, c.ranks, il_cache),
    ensures
        ran(
            old(out)@,
            final(out)@,
            res,
            full_attn_layer_run(*model, *scratch, layer_caches@, c, il, il_cache),
        ),
{
    let ghost m0 = out@;
    match decode_full_attn_all(model, scratch, layer_caches, c, il, il_cache, out) {
        Ok(_) => {},
        Err(e) => {
            return Err(e);
        },
    }
    let ghost m1 = out@;
    let outcome = decode_tail_part(model, scratch, c, il, out);
    proof {
        lemma_ran_then2(
            m0,
            m1,
            out@,
            outcome,
            each(
                c.ranks as nat,
                |i: int| decode_full_attn_run(*model, *scratch, layer_caches@, c, il, il_cache, i),
            ),
            decode_tail(*model, *scratch, c, il),
        );
    }
    outcome
}

/// A gated-delta-net layer of all ranks for one token. Its cache is number `il_cache`.
pub fn forward_gdn_layer_tp(
    model: &Qwen3MoETpModel,
    scratch: &ShardedForwardOneTokenScratchTp,
    layer_caches: &Vec<Vec<LayerCache>>,
    c: TokenCtx,
    il: usize,
    il_cache: usize,
    out: &mut Vec<Op>,
) -> (res: Result<(), ForwardError>)
    requires
        token_ready(*model, *scratch, c),
        has_layer(*model, c.ranks, il),
        has_cache(layer_caches@, c.ranks, il_cache),
    ensures
        ran(
            old(out)@,
            final(out)@,
            res,
            gdn_layer_run(*model, *scratch, layer_caches@, c, il, il_cache),
        ),
{
    let ghost m0 = out@;
    match decode_gdn_all(model, scratch, layer_caches, c, il, il_cache, out) {
        Ok(_) => {},
        Err(e) => {
            return Err(e);
        },
    }
    let ghost m1 = out@;
    let outcome = decode_tail_part(model, scratch, c, il, out);
    proof {
        lemma_ran_then2(
            m0,
            m1,
            out@,
            outcome,
            each(
                c.ranks as nat,
                |i: int| decode_gdn_run(*model, *scratch, layer_caches@, c, il, il_cache, i),
            ),
            decode_tail(*model, *scratch, c, il),
        );
    }
    outcome
}

fn decode_layer_part(
    m: &Qwen3MoETpModel,
    sc: &ShardedForwardOneTokenScratchTp,
    caches: &Vec<Vec<LayerCache>>,
    c: TokenCtx,
    il: usize,
    out: &mut Vec<Op>,
) -> (res: Result<(), ForwardError>)
    requires
        token_ready(*m, *sc, c),
        has_layer(*m, c.ranks, il),
        has_cache(caches@, c.ranks, il),
    ensures
        ran(old(out)@, final(out)@, res, decode_layer_run(*m, *sc, caches@, c, il)),
{
    if m.config.is_recurrent(il) {
        forward_gdn_layer_tp(m, sc, caches, c, il, il, out)
    } else {
        forward_full_attn_layer_tp(m, sc, caches, c, il, il, out)
    }
}

fn decode_layers_all(
    m: &Qwen3MoETpModel,
    sc: &ShardedForwardOneTokenScratchTp,
    caches: &Vec<Vec<LayerCache>>,
    c: TokenCtx,
    n_run: usize,
    out: &mut Vec<Op>,
) -> (res: Result<(), ForwardError>)
    requires
        token_ready(*m, *sc, c),
        layers_ready(*m, caches@, c.ranks, 0, n_run, 0),
    ensures
        ran(
            old(out)@,
            final(out)@,
            res,
            each(n_run as nat, |i: int| decode_layer_run(*m, *sc, caches@, c, i as usize)),
        ),
{
    let ghost base = out@;
    let ghost f = |i: int| decode_layer_run(*m, *sc, caches@, c, i as usize);
    let n: usize = n_run;
    let mut i: usize = 0;
    proof {
        assert(out@ =~= base + each(0, f).ops);
    }
    while i < n
        invariant
            i <= n,
            n == n_run,
            base == old(out)@,
            f == (|i: int| decode_layer_run(*m, *sc, caches@, c, i as usize)),
            ran(base, out@, Ok::<(), ForwardError>(()), each(i as nat, f)),
            token_ready(*m, *sc, c),
            layers_ready(*m, caches@, c.ranks, 0, n_run, 0),
        decreases n - i,
    {
        let ghost mid = out@;
        proof {
            assert(has_layer(*m, c.ranks, i));
        }
        match decode_layer_part(m, sc, caches, c, i, out) {
            Ok(_) => {
                proof {
                    lemma_ran_then2(base, mid, out@, Ok(()), each(i as nat, f), f(i as int));
                }
            },
            Err(e) => {
                proof {
                    lemma_ran_then2(base, mid, out@, Err(e), each(i as nat, f), f(i as int));
                    lemma_each_stops((i + 1) as nat, n as nat, f);
                }
                return Err(e);
            },
        }
        i = i + 1;
    }
    Ok(())
}

/// The weight of the LM head on a rank: its own, or the embedding.
pub open spec fn lm_head_of(m: Qwen3MoETpModel, r: int) -> Weight {
    match m.shards@[r].output {
        Some(t) => weight_of(t),
        None => weight_of(m.shards@[r].token_embd),
    }
}

fn lm_head(m: &Qwen3MoETpModel, r: usize) -> (w: Weight)
    requires
        r < m.shards@.len(),
    ensures
        w == lm_head_of(*m, r as int),
{
    match &m.shards[r].output {
        Some(t) => weight(t),
        None => weight(&m.shards[r].token_embd),
    }
}

/// The output head on the row `x` of the head rank, and what becomes of the logits.
pub open spec fn head_ops(m: Qwen3MoETpModel, head: int, x: DevicePtr, sink: LogitsSink) -> Seq<
    Op,
> {
    seq![
        Op::OutputHead {
            rank: head as usize,
            norm: weight_of(m.shards@[head].output_norm),
            lm_head: lm_head_of(m, head),
            x,
        },
    ] + match sink {
        LogitsSink::HostArgmax => seq![
            Op::Argmax { rank: head as usize, vocab: m.config.vocab_size },
        ],
        LogitsSink::HostLogits => seq![
            Op::DownloadLogits { rank: head as usize, slot: 0, vocab: m.config.vocab_size },
        ],
        LogitsSink::KeepOnDevice => seq![],
    }
}

fn push_head(
    m: &Qwen3MoETpModel,
    head: usize,
    x: DevicePtr,
    sink: LogitsSink,
    out: &mut Vec<Op>,
)
    requires
        head < m.shards@.len(),
    ensures
        final(out)@ == old(out)@ + head_ops(*m, head as int, x, sink),
{
    let norm = weight(&m.shards[head].output_norm);
    out.push(Op::OutputHead { rank: head, norm, lm_head: lm_head(m, head), x });
    match sink {
        LogitsSink::HostArgmax => {
            out.push(Op::Argmax { rank: head, vocab: m.config.vocab_size });
        },
        LogitsSink::HostLogits => {
            out.push(Op::DownloadLogits { rank: head, slot: 0, vocab: m.config.vocab_size });
        },
        LogitsSink::KeepOnDevice => {},
    }
    proof {
        assert(out@ =~= old(out)@ + head_ops(*m, head as int, x, sink));
    }
}

/// Every rank writes the embedding of `token` to its hidden state.
pub open spec fn embed_one(
    m: Qwen3MoETpModel,
    sc: ShardedForwardOneTokenScratchTp,
    ranks: usize,
    token: u32,
) -> Seq<Op> {
    Seq::new(
        ranks as nat,
        |r: int|
            Op::Embed {
                rank: r as usize,
                stream: StreamSel::Default,
                table: weight_of(m.shards@[r].token_embd),
                token,
                dst: sc.per_rank@[r].hidden_a,
                hidden: m.config.hidden_size,
            },
    )
}

fn push_embed_one(
    m: &Qwen3MoETpModel,
    sc: &ShardedForwardOneTokenScratchTp,
    ranks: usize,
    token: u32,
    out: &mut Vec<Op>,
)
    requires
        ranks <= m.shards@.len(),
        ranks <= sc.per_rank@.len(),
    ensures
        final(out)@ == old(out)@ + embed_one(*m, *sc, ranks, token),
{
    let ghost base = out@;
    let ghost all = embed_one(*m, *sc, ranks, token);
    let mut r: usize = 0;
    proof {
        assert(out@ =~= base + all.take(0));
    }
    while r < ranks
        invariant
            r <= ranks,
            ranks <= m.shards@.len(),
            ranks <= sc.per_rank@.len(),
            all == embed_one(*m, *sc, ranks, token),
            out@ == base + all.take(r as int),
        decreases ranks - r,
    {
        out.push(
            Op::Embed {
                rank: r,
                stream: StreamSel::Default,
                table: weight(&m.shards[r].token_embd),
                token,
                dst: sc.per_rank[r].hidden_a,
                hidden: m.config.hidden_size,
            },
        );
        proof {
            assert(all.take(r as int + 1) =~= all.take(r as int).push(all[r as int]));
            assert(out@ =~= base + all.take(r as int + 1));
        }
        r = r + 1;
    }
    proof {
        assert(all.take(ranks as int) =~= all);
    }
}

/// The head of a decode step.
pub open spec fn decode_head_run(
    m: Qwen3MoETpModel,
    sc: ShardedForwardOneTokenScratchTp,
    sink: LogitsSink,
) -> OpRun {
    let head = sc.head_rank.0 as int;
    if sc.per_rank@[head].output_head is None {
        fail(ForwardError::MissingHead { rank: head as usize })
    } else {
        done(head_ops(m, head, sc.per_rank@[head].hidden_a, sink))
    }
}

/// The layers that a decode step runs: all, or the first `limit`.
pub open spec fn layers_to_run(m: Qwen3MoETpModel, limit: Option<usize>) -> usize {
    match limit {
        Some(n) => if n < m.config.num_layers {
            n
        } else {
            m.config.num_layers
        },
        None => m.config.num_layers,
    }
}

/// One decode step.
pub open spec fn one_token_run(
    m: Qwen3MoETpModel,
    sc: ShardedForwardOneTokenScratchTp,
    caches: Seq<Vec<LayerCache>>,
    c: TokenCtx,
    token: u32,
    sink: LogitsSink,
    layer_limit: Option<usize>,
) -> OpRun {
    if !world_supported(c.ranks as u32) {
        fail(ForwardError::WorldOneToken { world: c.ranks as u32 })
    } else if sc.per_rank@.len() != c.ranks {
        fail(
            ForwardError::ScratchRanks { have: sc.per_rank@.len() as usize, ranks: c.ranks },
        )
    } else if caches.len() != c.ranks {
        fail(ForwardError::CacheRanks { have: caches.len() as usize, ranks: c.ranks })
    } else {
        then2(
            done(embed_one(m, sc, c.ranks, token)),
            then2(
                each(
                    layers_to_run(m, layer_limit) as nat,
                    |i: int| decode_layer_run(m, sc, caches, c, i as usize),
                ),
                decode_head_run(m, sc, sink),
            ),
        )
    }
}

/// Where the ranks, the working memory and the caches are as many as they should
/// be: the model has every layer on every rank, every rank has a cache for each
/// layer, and the head rank is one of the ranks.
pub open spec fn one_token_ready(
    m: Qwen3MoETpModel,
    sc: ShardedForwardOneTokenScratchTp,
    caches: Seq<Vec<LayerCache>>,
    c: TokenCtx,
) -> bool {
    &&& c.ranks <= u32::MAX
    &&& world_supported(c.ranks as u32) && sc.per_rank@.len() == c.ranks && caches.len() == c.ranks
        ==> {
        &&& experts_fit(&m.config)
        &&& c.ranks <= m.shards@.len()
        &&& sc.head_rank.0 < c.ranks
        &&& layers_ready(m, caches, c.ranks, 0, m.config.num_layers, 0)
    }
}

/// One decode step of all ranks. `layer_limit` cuts the layers short for
/// diagnosis.
pub fn forward_one_token_tp_inner(
    model: &Qwen3MoETpModel,
    scratch: &ShardedForwardOneTokenScratchTp,
    layer_caches: &Vec<Vec<LayerCache>>,
    c: TokenCtx,
    token_id: u32,
    sink: LogitsSink,
    layer_limit: Option<usize>,
    out: &mut Vec<Op>,
) -> (res: Result<(), ForwardError>)
    requires
        one_token_ready(*model, *scratch, layer_caches@, c),
    ensures
        ran(
            old(out)@,
            final(out)@,
            res,
            one_token_run(
                *model,
                *scratch,
                layer_caches@,
                c,
                token_id,
                sink,
                layer_limit,
            ),
        ),
{
    let world: u32 = c.ranks as u32;
    proof {
        assert(out@ =~= out@ + Seq::<Op>::empty());
    }
    if world != 1 && world != 2 && world != 4 {
        return Err(ForwardError::WorldOneToken { world });
    }
    if scratch.per_rank.len() != c.ranks {
        return Err(
            ForwardError::ScratchRanks { have: scratch.per_rank.len(), ranks: c.ranks },
        );
    }
    if layer_caches.len() != c.ranks {
        return Err(ForwardError::CacheRanks { have: layer_caches.len(), ranks: c.ranks });
    }
    let n_layers: usize = model.config.num_layers;
    let n_run: usize = match layer_limit {
        Some(n) => if n < n_layers {
            n
        } else {
            n_layers
        },
        None => n_layers,
    };
    let ghost em = done::<Op, ForwardError>(embed_one(*model, *scratch, c.ranks, token_id));
    let ghost ly = each(
        n_run as nat,
        |i: int| decode_layer_run(*model, *scratch, layer_caches@, c, i as usize),
    );
    let ghost hd = decode_head_run(*model, *scratch, sink);
    let ghost m0 = out@;
    push_embed_one(model, scratch, c.ranks, token_id, out);
    let ghost m1 = out@;
    proof {
        assert(n_run <= model.config.num_layers);
        assert forall|il: usize| 0 <= il < n_run implies #[trigger] has_layer(
            *model,
            c.ranks,
            il,
        ) && has_cache(layer_caches@, c.ranks, (il - 0) as usize) by {
            assert(has_layer(*model, c.ranks, il));
        }
    }
    match decode_layers_all(model, scratch, layer_caches, c, n_run, out) {
        Ok(_) => {},
        Err(e) => {
            proof {
                lemma_ran_then2(m0, m1, out@, Err(e), em, then2(ly, hd));
            }
            return Err(e);
        },
    }
    let ghost m2 = out@;
    let head: usize = scratch.head_rank.0 as usize;
    let s: RankForwardScratchTp = scratch.per_rank[head];
    let res: Result<(), ForwardError> = if s.output_head.is_none() {
        proof {
            assert(out@ =~= m2 + Seq::<Op>::empty());
        }
        Err(ForwardError::MissingHead { rank: head })
    } else {
        push_head(model, head, s.hidden_a, sink, out);
        Ok(())
    };
    proof {
        lemma_ran_then2(m1, m2, out@, res, ly, hd);
        lemma_ran_then2(m0, m1, out@, res, em, then2(ly, hd));
    }
    res
}

/// One decode step; the largest logit is picked on the host.
pub fn forward_one_token_tp(
    model: &Qwen3MoETpModel,
    scratch: &ShardedForwardOneTokenScratchTp,
    layer_caches: &Vec<Vec<LayerCache>>,
    c: TokenCtx,
    token_id: u32,
    layer_limit: Option<usize>,
    out: &mut Vec<Op>,
) -> (res: Result<(), ForwardError>)
    requires
        one_token_ready(*model, *scratch, layer_caches@, c),
    ensures
        ran(
            old(out)@,
            final(out)@,
            res,
            one_token_run(
                *model,
                *scratch,
                layer_caches@,
                c,
                token_id,
                LogitsSink::HostArgmax,
                layer_limit,
            ),
        ),
{
    forward_one_token_tp_inner(
        model,
        scratch,
        layer_caches,
        c,
        token_id,
        LogitsSink::HostArgmax,
        layer_limit,
        out,
    )
}

/// One decode step; the logits are fetched to the host.
pub fn forward_one_token_tp_logits(
    model: &Qwen3MoETpModel,
    scratch: &ShardedForwardOneTokenScratchTp,
    layer_caches: &Vec<Vec<LayerCache>>,
    c: TokenCtx,
    token_id: u32,
    layer_limit: Option<usize>,
    out: &mut Vec<Op>,
) -> (res: Result<(), ForwardError>)
    requires
        one_token_ready(*model, *scratch, layer_caches@, c),
    ensures
        ran(
            old(out)@,
            final(out)@,
            res,
            one_token_run(
                *model,
                *scratch,
                layer_caches@,
                c,
                token_id,
                LogitsSink::HostLogits,
                layer_limit,
            ),
        ),
{
    forward_one_token_tp_inner(
        model,
        scratch,
        layer_caches,
        c,
        token_id,
        LogitsSink::HostLogits,
        layer_limit,
        out,
    )
}

/// One decode step; the logits stay on the head rank.
pub fn forward_one_token_tp_keep_logits_on_device(
    model: &Qwen3MoETpModel,
    scratch: &ShardedForwardOneTokenScratchTp,
    layer_caches: &Vec<Vec<LayerCache>>,
    c: TokenCtx,
    token_id: u32,
    layer_limit: Option<usize>,
    out: &mut Vec<Op>,
) -> (res: Result<(), ForwardError>)
    requires
        one_token_ready(*model, *scratch, layer_caches@, c),
    ensures
        ran(
            old(out)@,
            final(out)@,
            res,
            one_token_run(
                *model,
                *scratch,
                layer_caches@,
                c,
                token_id,
                LogitsSink::KeepOnDevice,
                layer_limit,
            ),
        ),
{
    forward_one_token_tp_inner(
        model,
        scratch,
        layer_caches,
        c,
        token_id,
        LogitsSink::KeepOnDevice,
        layer_limit,
        out,
    )
}

/// Where row `i` of a buffer of hidden states begins.
pub open spec fn row_at(base: DevicePtr, i: int, hidden: usize) -> DevicePtr {
    DevicePtr((base.0 + i * (hidden * 2)) as usize)
}

/// `n` hidden states fit behind the address.
pub open spec fn rows_fit(base: DevicePtr, n: nat, hidden: usize) -> bool {
    base.0 + n * (hidden * 2) <= usize::MAX
}

/// Row `i` of a buffer of `n` hidden states.
pub(crate) fn row_ptr(
    base: DevicePtr,
    i: usize,
    hidden: usize,
    Ghost(n): Ghost<nat>,
) -> (r: DevicePtr)
    requires
        i < n,
        rows_fit(base, n, hidden),
    ensures
        r == row_at(base, i as int, hidden),
{
    proof {
        assert(i * (hidden * 2) <= n * (hidden * 2)) by (nonlinear_arith)
            requires
                i < n,
                hidden >= 0,
        ;
        assert(hidden * 2 <= n * (hidden * 2)) by (nonlinear_arith)
            requires
                n >= 1,
                hidden >= 0,
        ;
    }
    base.offset_bytes(i * (hidden * 2))
}

/// The hidden states and partial results of a batch lie within the address space.
pub open spec fn buffers_fit(
    m: Qwen3MoETpModel,
    sc: ShardedForwardPrefillScratchTp,
    ranks: usize,
    n: nat,
) -> bool {
    forall|r: int|
        0 <= r < ranks ==> rows_fit((#[trigger] sc.per_rank@[r]).hidden_a, n, m.config.hidden_size)
            && rows_fit(sc.per_rank@[r].partial_attn_out, n, m.config.hidden_size)
}

/// Rank `r` writes the embedding of `token` to row `i` of its hidden states.
pub open spec fn embed_row(
    m: Qwen3MoETpModel,
    sc: ShardedForwardPrefillScratchTp,
    r: int,
    i: int,
    token: u32,
) -> Seq<Op> {
    seq![
        Op::Embed {
            rank: r as usize,
            stream: StreamSel::Default,
            table: weight_of(m.shards@[r].token_embd),
            token,
            dst: row_at(sc.per_rank@[r].hidden_a, i, m.config.hidden_size),
            hidden: m.config.hidden_size,
        },
    ]
}

/// Rank `r` embeds all tokens.
pub open spec fn embed_prompt_rank(
    m: Qwen3MoETpModel,
    sc: ShardedForwardPrefillScratchTp,
    r: int,
    tokens: Seq<u32>,
) -> Seq<Op> {
    flat(tokens.len(), |i: int| embed_row(m, sc, r, i, tokens[i]))
}

/// Every rank embeds all tokens.
pub open spec fn embed_prompt(
    m: Qwen3MoETpModel,
    sc: ShardedForwardPrefillScratchTp,
    ranks: usize,
    tokens: Seq<u32>,
) -> Seq<Op> {
    flat(ranks as nat, |i: int| embed_prompt_rank(m, sc, i, tokens))
}

fn push_embed_prompt_rank(
    m: &Qwen3MoETpModel,
    sc: &ShardedForwardPrefillScratchTp,
    ranks: usize,
    r: usize,
    tokens: &Vec<u32>,
    out: &mut Vec<Op>,
)
    requires
        r < ranks,
        ranks <= m.shards@.len(),
        ranks <= sc.per_rank@.len(),
        buffers_fit(*m, *sc, ranks, tokens@.len()),
    ensures
        final(out)@ == old(out)@ + flat(
            tokens@.len(),
            |i: int| embed_row(*m, *sc, r as int, i, tokens@[i]),
        ),
{
    let ghost base = out@;
    let ghost f = |i: int| embed_row(*m, *sc, r as int, i, tokens@[i]);
    let n: usize = tokens.len();
    let mut i: usize = 0;
    proof {
        assert(out@ =~= base + flat(0, f));
    }
    while i < n
        invariant
            i <= n,
            n == tokens.len(),
            base == old(out)@,
            f == (|i: int| embed_row(*m, *sc, r as int, i, tokens@[i])),
            out@ == base + flat(i as nat, f),
            r < ranks,
            ranks <= m.shards@.len(),
            ranks <= sc.per_rank@.len(),
            buffers_fit(*m, *sc, ranks, tokens@.len()),
            n == tokens@.len(),
        decreases n - i,
    {
        proof {
            assert(rows_fit(sc.per_rank@[r as int].hidden_a, tokens@.len(), m.config.hidden_size));
        }
        let ghost mid = out@;
        let dst = row_ptr(sc.per_rank[r].hidden_a, i, m.config.hidden_size, Ghost(tokens@.len()));
        out.push(
            Op::Embed {
                rank: r,
                stream: StreamSel::Default,
                table: weight(&m.shards[r].token_embd),
                token: tokens[i],
                dst,
                hidden: m.config.hidden_size,
            },
        );
        proof {
            assert(out@ =~= mid + f(i as int));
            assert(out@ =~= base + flat((i + 1) as nat, f));
        }
        i = i + 1;
    }
}

fn push_embed_prompt(
    m: &Qwen3MoETpModel,
    sc: &ShardedForwardPrefillScratchTp,
    ranks: usize,
    tokens: &Vec<u32>,
    out: &mut Vec<Op>,
)
    requires
        ranks <= m.shards@.len(),
        ranks <= sc.per_rank@.len(),
        buffers_fit(*m, *sc, ranks, tokens@.len()),
    ensures
        final(out)@ == old(out)@ + flat(
            ranks as nat,
            |i: int| embed_prompt_rank(*m, *sc, i, tokens@),
        ),
{
    let ghost base = out@;
    let ghost f = |i: int| embed_prompt_rank(*m, *sc, i, tokens@);
    let n: usize = ranks;
    let mut i: usize = 0;
    proof {
        assert(out@ =~= base + flat(0, f));
    }
    while i < n
        invariant
            i <= n,
            n == ranks,
            base == old(out)@,
            f == (|i: int| embed_prompt_rank(*m, *sc, i, tokens@)),
            out@ == base + flat(i as nat, f),
            ranks <= m.shards@.len(),
            ranks <= sc.per_rank@.len(),
            buffers_fit(*m, *sc, ranks, tokens@.len()),
        decreases n - i,
    {
        let ghost mid = out@;
        push_embed_prompt_rank(m, sc, ranks, i, tokens, out);
        proof {
            assert(out@ =~= mid + f(i as int));
            assert(out@ =~= base + flat((i + 1) as nat, f));
        }
        i = i + 1;
    }
}

/// The head of a batched prefill: the logits of the last token.
pub open spec fn prefill_head_run(
    m: Qwen3MoETpModel,
    sc: ShardedForwardPrefillScratchTp,
    n: nat,
) -> OpRun {
    let head = sc.head_rank.0 as int;
    if sc.per_rank@[head].output_head is None {
        fail(ForwardError::MissingHead { rank: head as usize })
    } else {
        done(
            head_ops(
                m,
                head,
                row_at(sc.per_rank@[head].hidden_a, n - 1, m.config.hidden_size),
                LogitsSink::HostLogits,
            ),
        )
    }
}

/// A whole prompt in one batch.
pub open spec fn prefill_batched_run(
    m: Qwen3MoETpModel,
    sc: ShardedForwardPrefillScratchTp,
    caches: Seq<Vec<LayerCache>>,
    c: BatchCtx,
    tokens: Seq<u32>,
) -> OpRun {
    if !world_supported(c.ranks as u32) {
        fail(ForwardError::WorldBatchedPrefill { world: c.ranks as u32 })
    } else if sc.per_rank@[0].max_tokens < tokens.len() {
        fail(
            ForwardError::PooledTooSmall {
                have: sc.per_rank@[0].max_tokens,
                need: tokens.len() as usize,
            },
        )
    } else {
        then2(
            done(embed_prompt(m, sc, c.ranks, tokens)),
            then2(
                prefill_layers_run(m, sc, caches, c, 0, m.config.num_layers, 0),
                prefill_head_run(m, sc, tokens.len()),
            ),
        )
    }
}

/// Where the number of ranks is supported and the prompt is not too long: the model
/// has every layer on every rank, every rank has a cache for each layer, and the head
/// rank is one of the ranks.
pub open spec fn prefill_batched_ready(
    m: Qwen3MoETpModel,
    sc: ShardedForwardPrefillScratchTp,
    caches: Seq<Vec<LayerCache>>,
    c: BatchCtx,
    tokens: Seq<u32>,
) -> bool {
    &&& tokens.len() >= 1
    &&& c.n_tokens == tokens.len()
    &&& c.ranks <= u32::MAX
    &&& world_supported(c.ranks as u32) ==> sc.per_rank@.len() >= 1
    &&& world_supported(c.ranks as u32) && sc.per_rank@[0].max_tokens >= tokens.len() ==> {
        &&& batch_ready(m, sc, c)
        &&& c.ranks <= m.shards@.len()
        &&& sc.head_rank.0 < c.ranks
        &&& buffers_fit(m, sc, c.ranks, tokens.len())
        &&& layers_ready(m, caches, c.ranks, 0, m.config.num_layers, 0)
    }
}

fn prefill_head_part(
    m: &Qwen3MoETpModel,
    sc: &ShardedForwardPrefillScratchTp,
    ranks: usize,
    n: usize,
    out: &mut Vec<Op>,
) -> (res: Result<(), ForwardError>)
    requires
        n >= 1,
        sc.head_rank.0 < ranks,
        ranks <= m.shards@.len(),
        ranks <= sc.per_rank@.len(),
        buffers_fit(*m, *sc, ranks, n as nat),
    ensures
        ran(old(out)@, final(out)@, res, prefill_head_run(*m, *sc, n as nat)),
{
    let head: usize = sc.head_rank.0 as usize;
    let s: RankForwardPrefillScratchTp = sc.per_rank[head];
    if s.output_head.is_none() {
        proof {
            assert(out@ =~= old(out)@ + Seq::<Op>::empty());
        }
        return Err(ForwardError::MissingHead { rank: head });
    }
    proof {
        assert(rows_fit(sc.per_rank@[head as int].hidden_a, n as nat, m.config.hidden_size));
    }
    let x = row_ptr(s.hidden_a, n - 1, m.config.hidden_size, Ghost(n as nat));
    push_head(m, head, x, LogitsSink::HostLogits, out);
    Ok(())
}

/// Runs a whole prompt in one batch on working memory that the caller keeps.
pub fn forward_prefill_tp_batched_logits(
    model: &Qwen3MoETpModel,
    scratch: &ShardedForwardPrefillScratchTp,
    layer_caches: &Vec<Vec<LayerCache>>,
    c: BatchCtx,
    prompt_ids: &Vec<u32>,
    out: &mut Vec<Op>,
) -> (res: Result<(), ForwardError>)
    requires
        prefill_batched_ready(*model, *scratch, layer_caches@, c, prompt_ids@),
    ensures
        ran(
            old(out)@,
            final(out)@,
            res,
            prefill_batched_run(*model, *scratch, layer_caches@, c, prompt_ids@),
        ),
{
    let world: u32 = c.ranks as u32;
    proof {
        assert(out@ =~= out@ + Seq::<Op>::empty());
    }
    if world != 1 && world != 2 && world != 4 {
        return Err(ForwardError::WorldBatchedPrefill { world });
    }
    let n: usize = prompt_ids.len();
    if scratch.per_rank[0].max_tokens < n {
        return Err(
            ForwardError::PooledTooSmall { have: scratch.per_rank[0].max_tokens, need: n },
        );
    }
    let n_layers: usize = model.config.num_layers;
    let ghost em = done::<Op, ForwardError>(embed_prompt(*model, *scratch, c.ranks, prompt_ids@));
    let ghost ly = prefill_layers_run(*model, *scratch, layer_caches@, c, 0, n_layers, 0);
    let ghost hd = prefill_head_run(*model, *scratch, prompt_ids@.len());
    let ghost m0 = out@;
    push_embed_prompt(model, scratch, c.ranks, prompt_ids, out);
    let ghost m1 = out@;
    match forward_prefill_tp_batched_layers(
        model,
        scratch,
        layer_caches,
        c,
        0,
        n_layers,
        0,
        out,
    ) {
        Ok(_) => {},
        Err(e) => {
            proof {
                lemma_ran_then2(m0, m1, out@, Err(e), em, then2(ly, hd));
            }
            return Err(e);
        },
    }
    let ghost m2 = out@;
    let res = prefill_head_part(model, scratch, c.ranks, n, out);
    proof {
        lemma_ran_then2(m1, m2, out@, res, ly, hd);
        lemma_ran_then2(m0, m1, out@, res, em, then2(ly, hd));
    }
    res
}

/// Some rank keeps quantised K and V.
pub open spec fn any_rank_q8(caches: Seq<Vec<LayerCache>>) -> bool {
    exists|r: int| 0 <= r < caches.len() && any_q8((#[trigger] caches[r])@)
}

fn some_rank_q8(caches: &Vec<Vec<LayerCache>>) -> (b: bool)
    ensures
        b == any_rank_q8(caches@),
{
    let mut r: usize = 0;
    while r < caches.len()
        invariant
            r <= caches@.len(),
            forall|j: int| 0 <= j < r ==> !any_q8((#[trigger] caches@[j])@),
        decreases caches@.len() - r,
    {
        if has_q8(&caches[r]) {
            proof {
                assert(any_q8(caches@[r as int]@));
            }
            return true;
        }
        r = r + 1;
    }
    false
}

/// From this length on a prompt runs in one batch.
pub const BATCHED_PREFILL_MIN: usize = 8;

/// A prompt runs in one batch unless some rank keeps quantised K and V, the
/// caller has opted out, or it is short.
pub open spec fn spec_use_batched(
    caches: Seq<Vec<LayerCache>>,
    opt_out: bool,
    n: nat,
) -> bool {
    !any_rank_q8(caches) && !opt_out && n >= BATCHED_PREFILL_MIN
}

/// Whether a prompt of `n` tokens runs in one batch.
pub fn use_batched(caches: &Vec<Vec<LayerCache>>, opt_out: bool, n: usize) -> (b: bool)
    ensures
        b == spec_use_batched(caches@, opt_out, n as nat),
{
    !some_rank_q8(caches) && !opt_out && n >= BATCHED_PREFILL_MIN
}

/// The step of a prompt that runs token by token.
pub open spec fn prompt_step(
    m: Qwen3MoETpModel,
    sc: ShardedForwardOneTokenScratchTp,
    caches: Seq<Vec<LayerCache>>,
    c: BatchCtx,
    tokens: Seq<u32>,
    layer_limit: Option<usize>,
    i: int,
) -> OpRun {
    one_token_run(
        m,
        sc,
        caches,
        TokenCtx {
            ranks: c.ranks,
            position: (c.start_position + i) as usize,
            skip_shared: c.skip_shared,
        },
        tokens[i],
        LogitsSink::HostLogits,
        layer_limit,
    )
}

/// A prompt, in one batch on the working memory `pool` or token by token. Only single
/// steps obey the layer limit.
pub open spec fn prefill_run(
    m: Qwen3MoETpModel,
    sc: ShardedForwardOneTokenScratchTp,
    pool: ShardedForwardPrefillScratchTp,
    caches: Seq<Vec<LayerCache>>,
    c: BatchCtx,
    tokens: Seq<u32>,
    opt_out: bool,
    layer_limit: Option<usize>,
) -> OpRun {
    if spec_use_batched(caches, opt_out, tokens.len()) {
        prefill_batched_run(m, pool, caches, c, tokens)
    } else {
        each(tokens.len(), |i: int| prompt_step(m, sc, caches, c, tokens, layer_limit, i))
    }
}

/// The working memory that the prompt runs on is there for every rank.
pub open spec fn prefill_ready(
    m: Qwen3MoETpModel,
    sc: ShardedForwardOneTokenScratchTp,
    pool: ShardedForwardPrefillScratchTp,
    caches: Seq<Vec<LayerCache>>,
    c: BatchCtx,
    tokens: Seq<u32>,
    opt_out: bool,
) -> bool {
    if spec_use_batched(caches, opt_out, tokens.len()) {
        prefill_batched_ready(m, pool, caches, c, tokens)
    } else {
        &&& c.start_position + tokens.len() <= usize::MAX
        &&& one_token_ready(
            m,
            sc,
            caches,
            TokenCtx { ranks: c.ranks, position: c.start_position, skip_shared: c.skip_shared },
        )
    }
}

fn prompt_step_part(
    m: &Qwen3MoETpModel,
    sc: &ShardedForwardOneTokenScratchTp,
    caches: &Vec<Vec<LayerCache>>,
    c: BatchCtx,
    tokens: &Vec<u32>,
    layer_limit: Option<usize>,
    i: usize,
    out: &mut Vec<Op>,
) -> (res: Result<(), ForwardError>)
    requires
        i < tokens@.len(),
        c.start_position + tokens@.len() <= usize::MAX,
        one_token_ready(
            *m,
            *sc,
            caches@,
            (TokenCtx {
                ranks: c.ranks,
                position: c.start_position,
                skip_shared: c.skip_shared,
            }),
        ),
    ensures
        ran(old(out)@, final(out)@, res, prompt_step(*m, *sc, caches@, c, tokens@, layer_limit, i as int)),
{
    let t = TokenCtx {
        ranks: c.ranks,
        position: c.start_position + i,
        skip_shared: c.skip_shared,
    };
    forward_one_token_tp_logits(m, sc, caches, t, tokens[i], layer_limit, out)
}

fn prompt_loop(
    m: &Qwen3MoETpModel,
    sc: &ShardedForwardOneTokenScratchTp,
    caches: &Vec<Vec<LayerCache>>,
    c: BatchCtx,
    tokens: &Vec<u32>,
    layer_limit: Option<usize>,
    out: &mut Vec<Op>,
) -> (res: Result<(), ForwardError>)
    requires
        c.start_position + tokens@.len() <= usize::MAX,
        one_token_ready(
            *m,
            *sc,
            caches@,
            (TokenCtx { ranks: c.ranks, position: c.start_position, skip_shared: c.skip_shared }),
        ),
    ensures
        ran(
            old(out)@,
            final(out)@,
            res,
            each(tokens@.len(), |i: int| prompt_step(*m, *sc, caches@, c, tokens@, layer_limit, i)),
        ),
{
    let ghost base = out@;
    let ghost f = |i: int| prompt_step(*m, *sc, caches@, c, tokens@, layer_limit, i);
    let n: usize = tokens.len();
    let mut i: usize = 0;
    proof {
        assert(out@ =~= base + each(0, f).ops);
    }
    while i < n
        invariant
            i <= n,
            n == tokens.len(),
            base == old(out)@,
            f == (|i: int| prompt_step(*m, *sc, caches@, c, tokens@, layer_limit, i)),
            ran(base, out@, Ok::<(), ForwardError>(()), each(i as nat, f)),
            n == tokens@.len(),
            c.start_position + tokens@.len() <= usize::MAX,
            one_token_ready(
                *m,
                *sc,
                caches@,
                (
                    TokenCtx {
                        ranks: c.ranks,
                        position: c.start_position,
                        skip_shared: c.skip_shared,
                    }
                ),
            ),
        decreases n - i,
    {
        let ghost mid = out@;
        match prompt_step_part(m, sc, caches, c, tokens, layer_limit, i, out) {
            Ok(_) => {
                proof {
                    lemma_ran_then2(base, mid, out@, Ok(()), each(i as nat, f), f(i as int));
                }
            },
            Err(e) => {
                proof {
                    lemma_ran_then2(base, mid, out@, Err(e), each(i as nat, f), f(i as int));
                    lemma_each_stops((i + 1) as nat, n as nat, f);
                }
                return Err(e);
            },
        }
        i = i + 1;
    }
    Ok(())
}

/// Runs a prompt, on working memory for batches that the caller keeps. Where it runs
/// token by token, `layer_limit` cuts the layers of every step short for diagnosis.
pub fn forward_prefill_tp_logits_pooled(
    model: &Qwen3MoETpModel,
    scratch: &ShardedForwardOneTokenScratchTp,
    pool_prefill: &ShardedForwardPrefillScratchTp,
    layer_caches: &Vec<Vec<LayerCache>>,
    c: BatchCtx,
    prompt_ids: &Vec<u32>,
    opt_out: bool,
    layer_limit: Option<usize>,
    out: &mut Vec<Op>,
) -> (res: Result<(), ForwardError>)
    requires
        prompt_ids@.len() >= 1 ==> prefill_ready(
            *model,
            *scratch,
            *pool_prefill,
            layer_caches@,
            c,
            prompt_ids@,
            opt_out,
        ),
    ensures
        ran(
            old(out)@,
            final(out)@,
            res,
            if prompt_ids@.len() == 0 {
                fail(ForwardError::EmptyPromptPooled)
            } else {
                prefill_run(
                    *model,
                    *scratch,
                    *pool_prefill,
                    layer_caches@,
                    c,
                    prompt_ids@,
                    opt_out,
                    layer_limit,
                )
            },
        ),
{
    if prompt_ids.len() == 0 {
        proof {
            assert(out@ =~= old(out)@ + Seq::<Op>::empty());
        }
        return Err(ForwardError::EmptyPromptPooled);
    }
    if use_batched(layer_caches, opt_out, prompt_ids.len()) {
        return forward_prefill_tp_batched_logits(
            model,
            pool_prefill,
            layer_caches,
            c,
            prompt_ids,
            out,
        );
    }
    prompt_loop(model, scratch, layer_caches, c, prompt_ids, layer_limit, out)
}

/// Runs a prompt. `pool_prefill` is made for this prompt alone, where it runs in
/// one batch; where it runs token by token, `layer_limit` cuts the layers of every
/// step short for diagnosis.
pub fn forward_prefill_tp_logits(
    model: &Qwen3MoETpModel,
    scratch: &ShardedForwardOneTokenScratchTp,
    pool_prefill: &ShardedForwardPrefillScratchTp,
    layer_caches: &Vec<Vec<LayerCache>>,
    c: BatchCtx,
    prompt_ids: &Vec<u32>,
    opt_out: bool,
    layer_limit: Option<usize>,
    out: &mut Vec<Op>,
) -> (res: Result<(), ForwardError>)
    requires
        prompt_ids@.len() >= 1 ==> prefill_ready(
            *model,
            *scratch,
            *pool_prefill,
            layer_caches@,
            c,
            prompt_ids@,
            opt_out,
        ),
    ensures
        ran(
            old(out)@,
            final(out)@,
            res,
            if prompt_ids@.len() == 0 {
                fail(ForwardError::EmptyPrompt)
            } else {
                prefill_run(
                    *model,
                    *scratch,
                    *pool_prefill,
                    layer_caches@,
                    c,
                    prompt_ids@,
                    opt_out,
                    layer_limit,
                )
            },
        ),
{
    if prompt_ids.len() == 0 {
        proof {
            assert(out@ =~= old(out)@ + Seq::<Op>::empty());
        }
        return Err(ForwardError::EmptyPrompt);
    }
    if use_batched(layer_caches, opt_out, prompt_ids.len()) {
        return forward_prefill_tp_batched_logits(
            model,
            pool_prefill,
            layer_caches,
            c,
            prompt_ids,
            out,
        );
    }
    prompt_loop(model, scratch, layer_caches, c, prompt_ids, layer_limit, out)
}

/// Rank `r` enters the KV cache of the `k`-th slot.
pub open spec fn slot_gather(
    sessions: Seq<Vec<Vec<LayerCache>>>,
    slots: Seq<BatchSlot>,
    il: usize,
    r: int,
    k: int,
) -> OpRun {
    let s = slots[k];
    if sessions[s.idx as int]@[r]@[il as int] is FullAttn {
        done(
            seq![
                Op::GatherKv { rank: r as usize, layer: il, slot: s.idx, position: s.position },
            ],
        )
    } else {
        fail(ForwardError::SlotWantsKv { slot: s.idx, rank: r as usize, layer: il })
    }
}

/// Rank `r` steps the recurrent state of the `k`-th slot.
pub open spec fn slot_gdn(
    m: Qwen3MoETpModel,
    sc: ShardedForwardPrefillScratchTp,
    sessions: Seq<Vec<Vec<LayerCache>>>,
    slots: Seq<BatchSlot>,
    c: BatchCtx,
    w: GdnRefs,
    il: usize,
    r: int,
    k: int,
) -> OpRun {
    let s = slots[k];
    if sessions[s.idx as int]@[r]@[il as int] is Gdn {
        done(
            seq![
                Op::Gdn {
                    rank: r as usize,
                    layer: il,
                    cache: il,
                    slot: s.idx,
                    w,
                    pass: Pass::Decode,
                    x: row_at(sc.per_rank@[r].hidden_a, k, m.config.hidden_size),
                    out: row_at(sc.per_rank@[r].partial_attn_out, k, m.config.hidden_size),
                    n_tokens: 1,
                    world: c.ranks as u32,
                    kq_replicated: false,
                },
            ],
        )
    } else {
        fail(ForwardError::SlotWantsGdn { slot: s.idx, rank: r as usize, layer: il })
    }
}

/// The attention block of rank `r` for all slots.
pub open spec fn slots_attn_run(
    m: Qwen3MoETpModel,
    sc: ShardedForwardPrefillScratchTp,
    sessions: Seq<Vec<Vec<LayerCache>>>,
    slots: Seq<BatchSlot>,
    c: BatchCtx,
    il: usize,
    r: int,
) -> OpRun {
    let s = sc.per_rank@[r];
    let ts = tensors_at(m, r, il);
    match s.layer {
        None => fail(
            ForwardError::MissingScratch { rank: r as usize, part: ScratchPart::LayerPrefill },
        ),
        Some(ls) => if m.config.spec_is_recurrent(il as nat) {
            match gdn_refs_spec(ts, il) {
                Err(e) => fail(e),
                Ok(w) => if !s.gdn_decode {
                    fail(
                        ForwardError::MissingScratch {
                            rank: r as usize,
                            part: ScratchPart::GdnDecode,
                        },
                    )
                } else {
                    each(slots.len(), |i: int| slot_gdn(m, sc, sessions, slots, c, w, il, r, i))
                },
            }
        } else {
            match attn_refs_spec(ts, il) {
                Err(e) => fail(e),
                Ok(w) => if !ls.full_attn {
                    fail(
                        ForwardError::MissingScratch {
                            rank: r as usize,
                            part: ScratchPart::FullAttnPrefill,
                        },
                    )
                } else {
                    then2(
                        each(slots.len(), |i: int| slot_gather(sessions, slots, il, r, i)),
                        done(
                            seq![
                                Op::FullAttnSlots {
                                    rank: r as usize,
                                    layer: il,
                                    w,
                                    x: s.hidden_a,
                                    out: s.partial_attn_out,
                                    n_slots: slots.len() as usize,
                                    world: c.ranks as u32,
                                    kv_replicated: m.tp.spec_kv_replicated(),
                                },
                            ],
                        ),
                    )
                },
            }
        },
    }
}

/// A layer for all slots.
pub open spec fn slots_layer_run(
    m: Qwen3MoETpModel,
    sc: ShardedForwardPrefillScratchTp,
    sessions: Seq<Vec<Vec<LayerCache>>>,
    slots: Seq<BatchSlot>,
    c: BatchCtx,
    il: usize,
) -> OpRun {
    then2(
        each(c.ranks as nat, |i: int| slots_attn_run(m, sc, sessions, slots, c, il, i)),
        prefill_tail(m, sc, c, il),
    )
}

/// The head for the `k`-th slot.
pub open spec fn slot_head(
    m: Qwen3MoETpModel,
    sc: ShardedForwardPrefillScratchTp,
    slots: Seq<BatchSlot>,
    k: int,
) -> Seq<Op> {
    let head = sc.head_rank.0 as int;
    seq![
        Op::OutputHead {
            rank: head as usize,
            norm: weight_of(m.shards@[head].output_norm),
            lm_head: lm_head_of(m, head),
            x: row_at(sc.per_rank@[head].hidden_a, k, m.config.hidden_size),
        },
        Op::DownloadLogits {
            rank: head as usize,
            slot: slots[k].idx,
            vocab: m.config.vocab_size,
        },
    ]
}

/// The head for all slots.
pub open spec fn slots_head_run(
    m: Qwen3MoETpModel,
    sc: ShardedForwardPrefillScratchTp,
    slots: Seq<BatchSlot>,
) -> OpRun {
    if sc.per_rank@[sc.head_rank.0 as int].output_head is None {
        fail(ForwardError::MissingHeadScratch)
    } else {
        done(flat(slots.len(), |i: int| slot_head(m, sc, slots, i)))
    }
}

/// Slot `k` names a session.
pub open spec fn slot_check(slots: Seq<BatchSlot>, n_sessions: nat, k: int) -> OpRun {
    if slots[k].idx >= n_sessions {
        fail(ForwardError::SlotOob { idx: slots[k].idx, n: n_sessions as usize })
    } else {
        done(seq![])
    }
}

/// Rank `r` has working memory for all slots.
pub open spec fn slot_room(sc: ShardedForwardPrefillScratchTp, n: nat, r: int) -> OpRun {
    if sc.per_rank@[r].max_tokens < n {
        fail(
            ForwardError::SlotScratch {
                rank: r as usize,
                max_tokens: sc.per_rank@[r].max_tokens,
                n: n as usize,
            },
        )
    } else {
        done(seq![])
    }
}

/// The tokens of the slots.
pub open spec fn slot_tokens(slots: Seq<BatchSlot>) -> Seq<u32> {
    Seq::new(slots.len(), |k: int| slots[k].token_id)
}

/// One decode step of several sequences.
pub open spec fn decode_batched_run(
    m: Qwen3MoETpModel,
    sessions: Seq<Vec<Vec<LayerCache>>>,
    n_logits: usize,
    sc: ShardedForwardPrefillScratchTp,
    c: BatchCtx,
    slots: Seq<BatchSlot>,
) -> OpRun {
    if slots.len() == 0 {
        fail(ForwardError::EmptySlots)
    } else if sessions.len() != n_logits {
        fail(
            ForwardError::SessionsLogits { sessions: sessions.len() as usize, logits: n_logits },
        )
    } else {
        then2(
            each(slots.len(), |i: int| slot_check(slots, sessions.len(), i)),
            if !world_supported(c.ranks as u32) {
                fail(ForwardError::WorldBatchedDecode { world: c.ranks as u32 })
            } else {
                then2(
                    each(sc.per_rank@.len(), |i: int| slot_room(sc, slots.len(), i)),
                    then2(
                        done(embed_prompt(m, sc, c.ranks, slot_tokens(slots))),
                        then2(
                            each(
                                m.config.num_layers as nat,
                                |i: int| slots_layer_run(m, sc, sessions, slots, c, i as usize),
                            ),
                            slots_head_run(m, sc, slots),
                        ),
                    ),
                )
            },
        )
    }
}

/// Every session has a cache for each layer on each rank.
pub open spec fn sessions_ready(
    sessions: Seq<Vec<Vec<LayerCache>>>,
    ranks: usize,
    n_layers: usize,
) -> bool {
    forall|s: int, il: usize|
        0 <= s < sessions.len() && il < n_layers ==> #[trigger] has_cache(
            sessions[s]@,
            ranks,
            il,
        )
}

/// What the slots need of the model, the sessions and the working memory.
pub open spec fn slots_ready(
    m: Qwen3MoETpModel,
    sessions: Seq<Vec<Vec<LayerCache>>>,
    sc: ShardedForwardPrefillScratchTp,
    c: BatchCtx,
    slots: Seq<BatchSlot>,
) -> bool {
    &&& c.n_tokens == slots.len()
    &&& batch_ready(m, sc, c)
    &&& c.ranks <= m.shards@.len()
    &&& sc.head_rank.0 < c.ranks
    &&& buffers_fit(m, sc, c.ranks, slots.len())
    &&& sessions_ready(sessions, c.ranks, m.config.num_layers)
    &&& forall|il: usize| il < m.config.num_layers ==> #[trigger] has_layer(m, c.ranks, il)
}

/// What a batched decode step needs where none of its checks fails.
pub open spec fn decode_batched_ready(
    m: Qwen3MoETpModel,
    sessions: Seq<Vec<Vec<LayerCache>>>,
    n_logits: usize,
    sc: ShardedForwardPrefillScratchTp,
    c: BatchCtx,
    slots: Seq<BatchSlot>,
) -> bool {
    &&& c.ranks <= u32::MAX
    &&& decode_batched_admitted(sessions, n_logits, sc, c, slots) ==> slots_ready(
        m,
        sessions,
        sc,
        c,
        slots,
    )
}

/// No check of a batched decode step fails.
pub open spec fn decode_batched_admitted(
    sessions: Seq<Vec<Vec<LayerCache>>>,
    n_logits: usize,
    sc: ShardedForwardPrefillScratchTp,
    c: BatchCtx,
    slots: Seq<BatchSlot>,
) -> bool {
    &&& slots.len() > 0
    &&& sessions.len() == n_logits
    &&& each(slots.len(), |i: int| slot_check(slots, sessions.len(), i)).err is None
    &&& world_supported(c.ranks as u32)
    &&& each(sc.per_rank@.len(), |i: int| slot_room(sc, slots.len(), i)).err is None
}

/// Every slot names a session.
pub open spec fn slots_valid(slots: Seq<BatchSlot>, n_sessions: nat) -> bool {
    forall|k: int| 0 <= k < slots.len() ==> (#[trigger] slots[k]).idx < n_sessions
}

fn check_slots(slots: &Vec<BatchSlot>, n_sessions: usize) -> (res: Result<(), ForwardError>)
    ensures
        ran(
            Seq::empty(),
            Seq::empty(),
            res,
            each(slots@.len(), |i: int| slot_check(slots@, n_sessions as nat, i)),
        ),
        res is Ok ==> slots_valid(slots@, n_sessions as nat),
{
    let ghost f = |i: int| slot_check(slots@, n_sessions as nat, i);
    let n: usize = slots.len();
    let mut i: usize = 0;
    while i < n
        invariant
            i <= n,
            n == slots@.len(),
            f == (|i: int| slot_check(slots@, n_sessions as nat, i)),
            each(i as nat, f).err is None,
            each(i as nat, f).ops == Seq::<Op>::empty(),
            forall|k: int| 0 <= k < i ==> (#[trigger] slots@[k]).idx < n_sessions,
        decreases n - i,
    {
        proof {
            assert(each((i + 1) as nat, f).ops =~= Seq::<Op>::empty());
        }
        if slots[i].idx >= n_sessions {
            proof {
                lemma_each_stops((i + 1) as nat, n as nat, f);
                assert(each(n as nat, f).ops =~= Seq::<Op>::empty());
            }
            return Err(ForwardError::SlotOob { idx: slots[i].idx, n: n_sessions });
        }
        i = i + 1;
    }
    proof {
        assert(Seq::<Op>::empty() =~= Seq::<Op>::empty() + each(n as nat, f).ops);
    }
    Ok(())
}

fn check_room(
    sc: &ShardedForwardPrefillScratchTp,
    n_slots: usize,
) -> (res: Result<(), ForwardError>)
    ensures
        ran(
            Seq::empty(),
            Seq::empty(),
            res,
            each(sc.per_rank@.len(), |i: int| slot_room(*sc, n_slots as nat, i)),
        ),
{
    let ghost f = |i: int| slot_room(*sc, n_slots as nat, i);
    let n: usize = sc.per_rank.len();
    let mut i: usize = 0;
    while i < n
        invariant
            i <= n,
            n == sc.per_rank@.len(),
            f == (|i: int| slot_room(*sc, n_slots as nat, i)),
            each(i as nat, f).err is None,
            each(i as nat, f).ops == Seq::<Op>::empty(),
        decreases n - i,
    {
        proof {
            assert(each((i + 1) as nat, f).ops =~= Seq::<Op>::empty());
        }
        if sc.per_rank[i].max_tokens < n_slots {
            proof {
                lemma_each_stops((i + 1) as nat, n as nat, f);
                assert(each(n as nat, f).ops =~= Seq::<Op>::empty());
            }
            return Err(
                ForwardError::SlotScratch {
                    rank: i,
                    max_tokens: sc.per_rank[i].max_tokens,
                    n: n_slots,
                }
            );
        }
        i = i + 1;
    }
    proof {
        assert(Seq::<Op>::empty() =~= Seq::<Op>::empty() + each(n as nat, f).ops);
    }
    Ok(())
}

fn slot_gather_part(
    sessions: &Vec<Vec<Vec<LayerCache>>>,
    slots: &Vec<BatchSlot>,
    ranks: usize,
    n_layers: usize,
    il: usize,
    r: usize,
    k: usize,
    out: &mut Vec<Op>,
) -> (res: Result<(), ForwardError>)
    requires
        k < slots@.len(),
        r < ranks,
        il < n_layers,
        slots_valid(slots@, sessions@.len()),
        sessions_ready(sessions@, ranks, n_layers),
    ensures
        ran(old(out)@, final(out)@, res, slot_gather(sessions@, slots@, il, r as int, k as int)),
{
    let s: BatchSlot = slots[k];
    proof {
        assert(slots@[k as int].idx < sessions@.len());
        assert(has_cache(sessions@[s.idx as int]@, ranks, il));
    }
    if let LayerCache::FullAttn(_) = sessions[s.idx][r][il] {
        push(out, Op::GatherKv { rank: r, layer: il, slot: s.idx, position: s.position });
        return Ok(());
    }
    proof {
        assert(out@ =~= old(out)@ + Seq::<Op>::empty());
    }
    Err(ForwardError::SlotWantsKv { slot: s.idx, rank: r, layer: il })
}

fn slot_gdn_part(
    m: &Qwen3MoETpModel,
    sc: &ShardedForwardPrefillScratchTp,
    sessions: &Vec<Vec<Vec<LayerCache>>>,
    slots: &Vec<BatchSlot>,
    c: BatchCtx,
    w: GdnRefs,
    il: usize,
    r: usize,
    k: usize,
    out: &mut Vec<Op>,
) -> (res: Result<(), ForwardError>)
    requires
        k < slots@.len(),
        r < c.ranks,
        il < m.config.num_layers,
        slots_valid(slots@, sessions@.len()),
        slots_ready(*m, sessions@, *sc, c, slots@),
    ensures
        ran(
            old(out)@,
            final(out)@,
            res,
            slot_gdn(*m, *sc, sessions@, slots@, c, w, il, r as int, k as int),
        ),
{
    let s: BatchSlot = slots[k];
    proof {
        assert(slots@[k as int].idx < sessions@.len());
        assert(has_cache(sessions@[s.idx as int]@, c.ranks, il));
        assert(rows_fit(sc.per_rank@[r as int].hidden_a, slots@.len(), m.config.hidden_size));
    }
    if let LayerCache::Gdn(_) = sessions[s.idx][r][il] {
        let x = row_ptr(
            sc.per_rank[r].hidden_a,
            k,
            m.config.hidden_size,
            Ghost(slots@.len()),
        );
        let y = row_ptr(
            sc.per_rank[r].partial_attn_out,
            k,
            m.config.hidden_size,
            Ghost(slots@.len()),
        );
        push(
            out,
            Op::Gdn {
                rank: r,
                layer: il,
                cache: il,
                slot: s.idx,
                w,
                pass: Pass::Decode,
                x,
                out: y,
                n_tokens: 1,
                world: c.ranks as u32,
                kq_replicated: m.tp.gdn_kq_replicated(),
            },
        );
        return Ok(());
    }
    proof {
        assert(out@ =~= old(out)@ + Seq::<Op>::empty());
    }
    Err(ForwardError::SlotWantsGdn { slot: s.idx, rank: r, layer: il })
}

fn slots_gather_all(
    sessions: &Vec<Vec<Vec<LayerCache>>>,
    slots: &Vec<BatchSlot>,
    ranks: usize,
    n_layers: usize,
    il: usize,
    r: usize,
    out: &mut Vec<Op>,
) -> (res: Result<(), ForwardError>)
    requires
        r < ranks,
        il < n_layers,
        slots_valid(slots@, sessions@.len()),
        sessions_ready(sessions@, ranks, n_layers),
    ensures
        ran(
            old(out)@,
            final(out)@,
            res,
            each(slots@.len(), |i: int| slot_gather(sessions@, slots@, il, r as int, i)),
        ),
{
    let ghost base = out@;
    let ghost f = |i: int| slot_gather(sessions@, slots@, il, r as int, i);
    let n: usize = slots.len();
    let mut i: usize = 0;
    proof {
        assert(out@ =~= base + each(0, f).ops);
    }
    while i < n
        invariant
            i <= n,
            n == slots.len(),
            base == old(out)@,
            f == (|i: int| slot_gather(sessions@, slots@, il, r as int, i)),
            ran(base, out@, Ok::<(), ForwardError>(()), each(i as nat, f)),
            n == slots@.len(),
            r < ranks,
            il < n_layers,
            slots_valid(slots@, sessions@.len()),
            sessions_ready(sessions@, ranks, n_layers),
        decreases n - i,
    {
        let ghost mid = out@;
        match slot_gather_part(sessions, slots, ranks, n_layers, il, r, i, out) {
            Ok(_) => {
                proof {
                    lemma_ran_then2(base, mid, out@, Ok(()), each(i as nat, f), f(i as int));
                }
            },
            Err(e) => {
                proof {
                    lemma_ran_then2(base, mid, out@, Err(e), each(i as nat, f), f(i as int));
                    lemma_each_stops((i + 1) as nat, n as nat, f);
                }
                return Err(e);
            },
        }
        i = i + 1;
    }
    Ok(())
}

fn slots_gdn_all(
    m: &Qwen3MoETpModel,
    sc: &ShardedForwardPrefillScratchTp,
    sessions: &Vec<Vec<Vec<LayerCache>>>,
    slots: &Vec<BatchSlot>,
    c: BatchCtx,
    w: GdnRefs,
    il: usize,
    r: usize,
    out: &mut Vec<Op>,
) -> (res: Result<(), ForwardError>)
    requires
        r < c.ranks,
        il < m.config.num_layers,
        slots_valid(slots@, sessions@.len()),
        slots_ready(*m, sessions@, *sc, c, slots@),
    ensures
        ran(
            old(out)@,
            final(out)@,
            res,
            each(
                slots@.len(),
                |i: int| slot_gdn(*m, *sc, sessions@, slots@, c, w, il, r as int, i),
            ),
        ),
{
    let ghost base = out@;
    let ghost f = |i: int| slot_gdn(*m, *sc, sessions@, slots@, c, w, il, r as int, i);
    let n: usize = slots.len();
    let mut i: usize = 0;
    proof {
        assert(out@ =~= base + each(0, f).ops);
    }
    while i < n
        invariant
            i <= n,
            n == slots.len(),
            base == old(out)@,
            f == (|i: int| slot_gdn(*m, *sc, sessions@, slots@, c, w, il, r as int, i)),
            ran(base, out@, Ok::<(), ForwardError>(()), each(i as nat, f)),
            n == slots@.len(),
            r < c.ranks,
            il < m.config.num_layers,
            slots_valid(slots@, sessions@.len()),
            slots_ready(*m, sessions@, *sc, c, slots@),
        decreases n - i,
    {
        let ghost mid = out@;
        match slot_gdn_part(m, sc, sessions, slots, c, w, il, r, i, out) {
            Ok(_) => {
                proof {
                    lemma_ran_then2(base, mid, out@, Ok(()), each(i as nat, f), f(i as int));
                }
            },
            Err(e) => {
                proof {
                    lemma_ran_then2(base, mid, out@, Err(e), each(i as nat, f), f(i as int));
                    lemma_each_stops((i + 1) as nat, n as nat, f);
                }
                return Err(e);
            },
        }
        i = i + 1;
    }
    Ok(())
}

fn slots_attn_part(
    m: &Qwen3MoETpModel,
    sc: &ShardedForwardPrefillScratchTp,
    sessions: &Vec<Vec<Vec<LayerCache>>>,
    slots: &Vec<BatchSlot>,
    c: BatchCtx,
    il: usize,
    r: usize,
    out: &mut Vec<Op>,
) -> (res: Result<(), ForwardError>)
    requires
        r < c.ranks,
        il < m.config.num_layers,
        slots_valid(slots@, sessions@.len()),
        slots_ready(*m, sessions@, *sc, c, slots@),
    ensures
        ran(
            old(out)@,
            final(out)@,
            res,
            slots_attn_run(*m, *sc, sessions@, slots@, c, il, r as int),
        ),
{
    let s: RankForwardPrefillScratchTp = sc.per_rank[r];
    proof {
        assert(has_layer(*m, c.ranks, il));
        assert(out@ =~= out@ + Seq::<Op>::empty());
    }
    let ls: LayerScratch = match s.layer {
        Some(x) => x,
        None => {
            return Err(
                ForwardError::MissingScratch { rank: r, part: ScratchPart::LayerPrefill },
            );
        },
    };
    let ts = &m.shards[r].layers[il];
    if m.config.is_recurrent(il) {
        let w = match gdn_refs(ts, il) {
            Ok(w) => w,
            Err(e) => {
                return Err(e);
            },
        };
        if !s.gdn_decode {
            return Err(ForwardError::MissingScratch { rank: r, part: ScratchPart::GdnDecode });
        }
        return slots_gdn_all(m, sc, sessions, slots, c, w, il, r, out);
    }
    let w = match attn_refs(ts, il) {
        Ok(w) => w,
        Err(e) => {
            return Err(e);
        },
    };
    if !ls.full_attn {
        return Err(
            ForwardError::MissingScratch { rank: r, part: ScratchPart::FullAttnPrefill },
        );
    }
    let ghost m0 = out@;
    match slots_gather_all(sessions, slots, c.ranks, m.config.num_layers, il, r, out) {
        Ok(_) => {},
        Err(e) => {
            return Err(e);
        },
    }
    let ghost m1 = out@;
    let op = Op::FullAttnSlots {
        rank: r,
        layer: il,
        w,
        x: s.hidden_a,
        out: s.partial_attn_out,
        n_slots: slots.len(),
        world: c.ranks as u32,
        kv_replicated: m.tp.kv_replicated(),
    };
    push(out, op);
    proof {
        lemma_ran_then2(
            m0,
            m1,
            out@,
            Ok(()),
            each(slots@.len(), |i: int| slot_gather(sessions@, slots@, il, r as int, i)),
            done(seq![op]),
        );
    }
    Ok(())
}

fn slots_attn_all(
    m: &Qwen3MoETpModel,
    sc: &ShardedForwardPrefillScratchTp,
    sessions: &Vec<Vec<Vec<LayerCache>>>,
    slots: &Vec<BatchSlot>,
    c: BatchCtx,
    il: usize,
    out: &mut Vec<Op>,
) -> (res: Result<(), ForwardError>)
    requires
        il < m.config.num_layers,
        slots_valid(slots@, sessions@.len()),
        slots_ready(*m, sessions@, *sc, c, slots@),
    ensures
        ran(
            old(out)@,
            final(out)@,
            res,
            each(c.ranks as nat, |i: int| slots_attn_run(*m, *sc, sessions@, slots@, c, il, i)),
        ),
{
    let ghost base = out@;
    let ghost f = |i: int| slots_attn_run(*m, *sc, sessions@, slots@, c, il, i);
    let n: usize = c.ranks;
    let mut i: usize = 0;
    proof {
        assert(out@ =~= base + each(0, f).ops);
    }
    while i < n
        invariant
            i <= n,
            n == c.ranks,
            base == old(out)@,
            f == (|i: int| slots_attn_run(*m, *sc, sessions@, slots@, c, il, i)),
            ran(base, out@, Ok::<(), ForwardError>(()), each(i as nat, f)),
            il < m.config.num_layers,
            slots_valid(slots@, sessions@.len()),
            slots_ready(*m, sessions@, *sc, c, slots@),
        decreases n - i,
    {
        let ghost mid = out@;
        match slots_attn_part(m, sc, sessions, slots, c, il, i, out) {
            Ok(_) => {
                proof {
                    lemma_ran_then2(base, mid, out@, Ok(()), each(i as nat, f), f(i as int));
                }
            },
            Err(e) => {
                proof {
                    lemma_ran_then2(base, mid, out@, Err(e), each(i as nat, f), f(i as int));
                    lemma_each_stops((i + 1) as nat, n as nat, f);
                }
                return Err(e);
            },
        }
        i = i + 1;
    }
    Ok(())
}

fn slots_layer_part(
    m: &Qwen3MoETpModel,
    sc: &ShardedForwardPrefillScratchTp,
    sessions: &Vec<Vec<Vec<LayerCache>>>,
    slots: &Vec<BatchSlot>,
    c: BatchCtx,
    il: usize,
    out: &mut Vec<Op>,
) -> (res: Result<(), ForwardError>)
    requires
        il < m.config.num_layers,
        slots_valid(slots@, sessions@.len()),
        slots_ready(*m, sessions@, *sc, c, slots@),
    ensures
        ran(old(out)@, final(out)@, res, slots_layer_run(*m, *sc, sessions@, slots@, c, il)),
{
    proof {
        assert(has_layer(*m, c.ranks, il));
    }
    let ghost m0 = out@;
    match slots_attn_all(m, sc, sessions, slots, c, il, out) {
        Ok(_) => {},
        Err(e) => {
            return Err(e);
        },
    }
    let ghost m1 = out@;
    let outcome = prefill_tail_part(m, sc, c, il, out);
    proof {
        lemma_ran_then2(
            m0,
            m1,
            out@,
            outcome,
            each(c.ranks as nat, |i: int| slots_attn_run(*m, *sc, sessions@, slots@, c, il, i)),
            prefill_tail(*m, *sc, c, il),
        );
    }
    outcome
}

fn slots_layers_all(
    m: &Qwen3MoETpModel,
    sc: &ShardedForwardPrefillScratchTp,
    sessions: &Vec<Vec<Vec<LayerCache>>>,
    slots: &Vec<BatchSlot>,
    c: BatchCtx,
    out: &mut Vec<Op>,
) -> (res: Result<(), ForwardError>)
    requires
        slots_valid(slots@, sessions@.len()),
        slots_ready(*m, sessions@, *sc, c, slots@),
    ensures
        ran(
            old(out)@,
            final(out)@,
            res,
            each(
                m.config.num_layers as nat,
                |i: int| slots_layer_run(*m, *sc, sessions@, slots@, c, i as usize),
            ),
        ),
{
    let ghost base = out@;
    let ghost f = |i: int| slots_layer_run(*m, *sc, sessions@, slots@, c, i as usize);
    let n: usize = m.config.num_layers;
    let mut i: usize = 0;
    proof {
        assert(out@ =~= base + each(0, f).ops);
    }
    while i < n
        invariant
            i <= n,
            n == m.config.num_layers,
            base == old(out)@,
            f == (|i: int| slots_layer_run(*m, *sc, sessions@, slots@, c, i as usize)),
            ran(base, out@, Ok::<(), ForwardError>(()), each(i as nat, f)),
            slots_valid(slots@, sessions@.len()),
            slots_ready(*m, sessions@, *sc, c, slots@),
        decreases n - i,
    {
        let ghost mid = out@;
        match slots_layer_part(m, sc, sessions, slots, c, i, out) {
            Ok(_) => {
                proof {
                    lemma_ran_then2(base, mid, out@, Ok(()), each(i as nat, f), f(i as int));
                }
            },
            Err(e) => {
                proof {
                    lemma_ran_then2(base, mid, out@, Err(e), each(i as nat, f), f(i as int));
                    lemma_each_stops((i + 1) as nat, n as nat, f);
                }
                return Err(e);
            },
        }
        i = i + 1;
    }
    Ok(())
}

fn push_slot_heads(
    m: &Qwen3MoETpModel,
    sc: &ShardedForwardPrefillScratchTp,
    ranks: usize,
    slots: &Vec<BatchSlot>,
    out: &mut Vec<Op>,
)
    requires
        sc.head_rank.0 < ranks,
        ranks <= m.shards@.len(),
        ranks <= sc.per_rank@.len(),
        buffers_fit(*m, *sc, ranks, slots@.len()),
    ensures
        final(out)@ == old(out)@ + flat(slots@.len(), |i: int| slot_head(*m, *sc, slots@, i)),
{
    let ghost base = out@;
    let ghost f = |i: int| slot_head(*m, *sc, slots@, i);
    let n: usize = slots.len();
    let mut i: usize = 0;
    proof {
        assert(out@ =~= base + flat(0, f));
    }
    while i < n
        invariant
            i <= n,
            n == slots.len(),
            base == old(out)@,
            f == (|i: int| slot_head(*m, *sc, slots@, i)),
            out@ == base + flat(i as nat, f),
            n == slots@.len(),
            sc.head_rank.0 < ranks,
            ranks <= m.shards@.len(),
            ranks <= sc.per_rank@.len(),
            buffers_fit(*m, *sc, ranks, slots@.len()),
        decreases n - i,
    {
        proof {
            assert(
                rows_fit(
                    sc.per_rank@[sc.head_rank.0 as int].hidden_a,
                    slots@.len(),
                    m.config.hidden_size,
                )
            );
        }
        let ghost mid = out@;
        let head: usize = sc.head_rank.0 as usize;
        let x = row_ptr(
            sc.per_rank[head].hidden_a,
            i,
            m.config.hidden_size,
            Ghost(slots@.len()),
        );
        let norm = weight(&m.shards[head].output_norm);
        out.push(Op::OutputHead { rank: head, norm, lm_head: lm_head(m, head), x });
        out.push(
            Op::DownloadLogits { rank: head, slot: slots[i].idx, vocab: m.config.vocab_size },
        );
        proof {
            assert(out@ =~= mid + f(i as int));
            assert(out@ =~= base + flat((i + 1) as nat, f));
        }
        i = i + 1;
    }
}

fn collect_slot_tokens(slots: &Vec<BatchSlot>) -> (r: Vec<u32>)
    ensures
        r@ == slot_tokens(slots@),
{
    let mut v: Vec<u32> = Vec::new();
    let mut k: usize = 0;
    while k < slots.len()
        invariant
            k <= slots@.len(),
            v@.len() == k,
            forall|j: int| 0 <= j < k ==> #[trigger] v@[j] == slots@[j].token_id,
        decreases slots@.len() - k,
    {
        v.push(slots[k].token_id);
        k = k + 1;
    }
    proof {
        assert(v@ =~= slot_tokens(slots@));
    }
    v
}

/// One decode step of several sequences, each with its own caches in
/// `sessions`. The logits of a slot go to the row that its `idx` names.
pub fn forward_decode_batched_tp(
    model: &Qwen3MoETpModel,
    sessions: &Vec<Vec<Vec<LayerCache>>>,
    n_logits: usize,
    scratch: &ShardedForwardPrefillScratchTp,
    c: BatchCtx,
    slots: &Vec<BatchSlot>,
    out: &mut Vec<Op>,
) -> (res: Result<(), ForwardError>)
    requires
        decode_batched_ready(*model, sessions@, n_logits, *scratch, c, slots@),
    ensures
        ran(
            old(out)@,
            final(out)@,
            res,
            decode_batched_run(*model, sessions@, n_logits, *scratch, c, slots@),
        ),
{
    proof {
        assert(out@ =~= out@ + Seq::<Op>::empty());
    }
    if slots.len() == 0 {
        return Err(ForwardError::EmptySlots);
    }
    if sessions.len() != n_logits {
        return Err(
            ForwardError::SessionsLogits { sessions: sessions.len(), logits: n_logits },
        );
    }
    match check_slots(slots, sessions.len()) {
        Ok(_) => {},
        Err(e) => {
            return Err(e);
        },
    }
    let world: u32 = c.ranks as u32;
    if world != 1 && world != 2 && world != 4 {
        return Err(ForwardError::WorldBatchedDecode { world });
    }
    match check_room(scratch, slots.len()) {
        Ok(_) => {},
        Err(e) => {
            return Err(e);
        },
    }
    let tokens = collect_slot_tokens(slots);
    let ghost em = done::<Op, ForwardError>(embed_prompt(*model, *scratch, c.ranks, tokens@));
    let ghost ly = each(
        model.config.num_layers as nat,
        |i: int| slots_layer_run(*model, *scratch, sessions@, slots@, c, i as usize),
    );
    let ghost hd = slots_head_run(*model, *scratch, slots@);
    let ghost m0 = out@;
    push_embed_prompt(model, scratch, c.ranks, &tokens, out);
    let ghost m1 = out@;
    match slots_layers_all(model, scratch, sessions, slots, c, out) {
        Ok(_) => {},
        Err(e) => {
            proof {
                lemma_ran_then2(m0, m1, out@, Err(e), em, then2(ly, hd));
                lemma_then2_nothing(then2(em, then2(ly, hd)));
            }
            return Err(e);
        },
    }
    let ghost m2 = out@;
    let head: usize = scratch.head_rank.0 as usize;
    let s: RankForwardPrefillScratchTp = scratch.per_rank[head];
    let res: Result<(), ForwardError> = if s.output_head.is_none() {
        proof {
            assert(out@ =~= m2 + Seq::<Op>::empty());
        }
        Err(ForwardError::MissingHeadScratch)
    } else {
        push_slot_heads(model, scratch, c.ranks, slots, out);
        Ok(())
    };
    proof {
        lemma_ran_then2(m1, m2, out@, res, ly, hd);
        lemma_ran_then2(m0, m1, out@, res, em, then2(ly, hd));
        lemma_then2_nothing(then2(em, then2(ly, hd)));
    }
    res
}

/// A check that passes adds no operation.
proof fn lemma_then2_nothing(r: OpRun)
    ensures
        forall|a: OpRun|
            a.err is None && a.ops == Seq::<Op>::empty() ==> #[trigger] then2(a, r) == r,
{
    assert forall|a: OpRun| a.err is None && a.ops == Seq::<Op>::empty() implies #[trigger] then2(
        a,
        r,
    ) == r by {
        assert(a.ops + r.ops =~= r.ops);
    }
}

/// The device memory of one rank, as it was allocated.
#[derive(Debug, Clone, Copy, PartialEq, Eq, Structural)]
pub struct RankBuffers {
    pub device_id: i32,
    pub hidden_a: DevicePtr,
    pub hidden_b: DevicePtr,
    pub partial_attn_out: DevicePtr,
    pub partial_ffn_out: DevicePtr,
    pub layer: LayerScratch,
    /// Where the logits go, if this rank runs the LM head.
    pub logits_f32: DevicePtr,
}

/// The LM head has working memory on the head rank only.
pub open spec fn head_scratch_of(head_rank: RankId, r: int, b: RankBuffers) -> Option<
    OutputHeadScratch,
> {
    if r == head_rank.0 {
        Some(OutputHeadScratch { logits_f32: b.logits_f32 })
    } else {
        None
    }
}

/// The four buffers of a rank, in the order of their release.
pub open spec fn four_frees(
    a: DevicePtr,
    b: DevicePtr,
    p: DevicePtr,
    q: DevicePtr,
    hidden_bytes: usize,
    partial_bytes: usize,
) -> Seq<Free> {
    seq![
        Free { ptr: a, bytes: hidden_bytes },
        Free { ptr: b, bytes: hidden_bytes },
        Free { ptr: p, bytes: partial_bytes },
        Free { ptr: q, bytes: partial_bytes },
    ]
}

impl RankForwardScratchTp {
    /// What `dispose` gives back.
    pub open spec fn spec_frees(self) -> Seq<Free> {
        if self.disposed {
            seq![]
        } else {
            four_frees(
                self.hidden_a,
                self.hidden_b,
                self.partial_attn_out,
                self.partial_ffn_out,
                self.hidden_bytes,
                self.partial_bytes,
            )
        }
    }

    /// Lists the buffers to give back: all four, and nothing the second time.
    pub fn dispose(&mut self) -> (r: Vec<Free>)
        ensures
            r@ == old(self).spec_frees(),
            *final(self) == (RankForwardScratchTp { disposed: true, ..*old(self) }),
    {
        let mut v: Vec<Free> = Vec::new();
        if self.disposed {
            proof {
                assert(v@ =~= old(self).spec_frees());
            }
            return v;
        }
        self.disposed = true;
        v.push(Free { ptr: self.hidden_a, bytes: self.hidden_bytes });
        v.push(Free { ptr: self.hidden_b, bytes: self.hidden_bytes });
        v.push(Free { ptr: self.partial_attn_out, bytes: self.partial_bytes });
        v.push(Free { ptr: self.partial_ffn_out, bytes: self.partial_bytes });
        proof {
            assert(v@ =~= old(self).spec_frees());
        }
        v
    }

    /// Bytes of the four buffers.
    pub open spec fn spec_allocated_bytes(self) -> nat {
        (2 * self.hidden_bytes + 2 * self.partial_bytes) as nat
    }

    /// Bytes of the four buffers.
    pub fn allocated_bytes(&self) -> (r: usize)
        requires
            self.spec_allocated_bytes() <= usize::MAX,
        ensures
            r == self.spec_allocated_bytes(),
    {
        2 * self.hidden_bytes + 2 * self.partial_bytes
    }
}

/// The working memory of rank `r` on the buffers `b`.
pub open spec fn token_rank_scratch(
    cfg: Qwen3MoEConfig,
    head_rank: RankId,
    b: RankBuffers,
    r: int,
) -> RankForwardScratchTp {
    RankForwardScratchTp {
        rank: RankId(r as u32),
        device_id: b.device_id,
        hidden_a: b.hidden_a,
        hidden_b: b.hidden_b,
        partial_attn_out: b.partial_attn_out,
        partial_ffn_out: b.partial_ffn_out,
        layer: Some(b.layer),
        output_head: head_scratch_of(head_rank, r, b),
        hidden_bytes: (cfg.hidden_size * 2) as usize,
        partial_bytes: (cfg.hidden_size * 2) as usize,
        disposed: false,
    }
}

impl ShardedForwardOneTokenScratchTp {
    /// The working memory on the buffers `bufs`, one entry for each rank, with
    /// the LM head on rank 0.
    pub fn new(cfg: &Qwen3MoEConfig, bufs: &Vec<RankBuffers>) -> (res: Result<Self, ForwardError>)
        requires
            cfg.hidden_size * 2 <= usize::MAX,
            bufs@.len() <= u32::MAX,
        ensures
            Self::made(*cfg, bufs@, RankId(0), res),
    {
        Self::new_with_head_rank(cfg, bufs, RankId(0))
    }

    /// What `new_with_head_rank` returns.
    pub open spec fn made(
        cfg: Qwen3MoEConfig,
        bufs: Seq<RankBuffers>,
        head_rank: RankId,
        res: Result<Self, ForwardError>,
    ) -> bool {
        if head_rank.0 >= bufs.len() {
            res == Err::<Self, ForwardError>(
                ForwardError::HeadRank { head_rank: head_rank.0, ranks: bufs.len() as usize },
            )
        } else {
            match res {
                Ok(s) => {
                    &&& s.head_rank == head_rank
                    &&& s.per_rank@ == Seq::new(
                        bufs.len(),
                        |r: int| token_rank_scratch(cfg, head_rank, bufs[r], r),
                    )
                },
                Err(_) => false,
            }
        }
    }

    /// The working memory with the LM head on `head_rank`.
    pub fn new_with_head_rank(
        cfg: &Qwen3MoEConfig,
        bufs: &Vec<RankBuffers>,
        head_rank: RankId,
    ) -> (res: Result<Self, ForwardError>)
        requires
            cfg.hidden_size * 2 <= usize::MAX,
            bufs@.len() <= u32::MAX,
        ensures
            Self::made(*cfg, bufs@, head_rank, res),
    {
        if head_rank.0 as usize >= bufs.len() {
            return Err(
                ForwardError::HeadRank { head_rank: head_rank.0, ranks: bufs.len() },
            );
        }
        let bytes: usize = cfg.hidden_size * 2;
        let mut per_rank: Vec<RankForwardScratchTp> = Vec::new();
        let mut r: usize = 0;
        while r < bufs.len()
            invariant
                r <= bufs@.len(),
                bufs@.len() <= u32::MAX,
                bytes == cfg.hidden_size * 2,
                per_rank@.len() == r,
                forall|j: int|
                    0 <= j < r ==> #[trigger] per_rank@[j] == token_rank_scratch(
                        *cfg,
                        head_rank,
                        bufs@[j],
                        j,
                    ),
            decreases bufs@.len() - r,
        {
            let b: RankBuffers = bufs[r];
            let output_head = if r as u32 == head_rank.0 {
                Some(OutputHeadScratch { logits_f32: b.logits_f32 })
            } else {
                None
            };
            per_rank.push(
                RankForwardScratchTp {
                    rank: RankId(r as u32),
                    device_id: b.device_id,
                    hidden_a: b.hidden_a,
                    hidden_b: b.hidden_b,
                    partial_attn_out: b.partial_attn_out,
                    partial_ffn_out: b.partial_ffn_out,
                    layer: Some(b.layer),
                    output_head,
                    hidden_bytes: bytes,
                    partial_bytes: bytes,
                    disposed: false,
                },
            );
            r = r + 1;
        }
        proof {
            assert(per_rank@ =~= Seq::new(
                bufs@.len(),
                |r: int| token_rank_scratch(*cfg, head_rank, bufs@[r], r),
            ));
        }
        Ok(ShardedForwardOneTokenScratchTp { per_rank, head_rank })
    }

    /// What `dispose` gives back, rank by rank.
    pub open spec fn spec_frees(self) -> Seq<RankFree> {
        flat(
            self.per_rank@.len(),
            |i: int| rank_frees(self.per_rank@[i].rank, self.per_rank@[i].spec_frees()),
        )
    }

    /// Lists the buffers of every rank to give back. Nothing is left afterwards.
    pub fn dispose(&mut self) -> (r: Vec<RankFree>)
        ensures
            r@ == old(self).spec_frees(),
            final(self).per_rank@ == Seq::<RankForwardScratchTp>::empty(),
            final(self).head_rank == old(self).head_rank,
    {
        let mut v: Vec<RankFree> = Vec::new();
        let ghost all = self.per_rank@;
        let ghost f = |i: int| rank_frees(all[i].rank, all[i].spec_frees());
        let mut i: usize = 0;
        proof {
            assert(v@ =~= flat(0, f));
        }
        while i < self.per_rank.len()
            invariant
                i <= self.per_rank@.len(),
                self.per_rank@ == all,
                self.head_rank == old(self).head_rank,
                all == old(self).per_rank@,
                f == (|i: int| rank_frees(all[i].rank, all[i].spec_frees())),
                v@ == flat(i as nat, f),
            decreases self.per_rank@.len() - i,
        {
            let mut s: RankForwardScratchTp = self.per_rank[i];
            let rank = s.rank;
            let frees = s.dispose();
            push_rank_frees(rank, &frees, &mut v);
            proof {
                assert(f(i as int) == rank_frees(rank, frees@));
            }
            i = i + 1;
        }
        self.per_rank = Vec::new();
        proof {
            let g = |i: int|
                rank_frees(old(self).per_rank@[i].rank, old(self).per_rank@[i].spec_frees());
            assert forall|i: int| 0 <= i < all.len() implies #[trigger] f(i) == g(i) by {}
            lemma_flat_same(all.len(), f, g);
            assert(old(self).spec_frees() == flat(all.len(), g));
        }
        v
    }

    /// Bytes of the buffers of all ranks.
    pub open spec fn spec_rank_level_bytes(self) -> nat {
        sum(self.per_rank@.map_values(|s: RankForwardScratchTp| s.spec_allocated_bytes()))
    }

    /// Bytes of the buffers of all ranks.
    pub fn rank_level_bytes(&self) -> (r: usize)
        requires
            self.spec_rank_level_bytes() <= usize::MAX,
        ensures
            r == self.spec_rank_level_bytes(),
    {
        let ghost s = self.per_rank@.map_values(|s: RankForwardScratchTp| s.spec_allocated_bytes());
        let mut total: usize = 0;
        let mut i: usize = 0;
        proof {
            assert(s.take(0) =~= Seq::<nat>::empty());
        }
        while i < self.per_rank.len()
            invariant
                i <= self.per_rank@.len(),
                s == self.per_rank@.map_values(|s: RankForwardScratchTp| s.spec_allocated_bytes()),
                sum(s) <= usize::MAX,
                total == sum(s.take(i as int)),
            decreases self.per_rank@.len() - i,
        {
            proof {
                lemma_sum_step(s, i as int);
                lemma_sum_prefix(s, i as int + 1);
            }
            total = total + self.per_rank[i].allocated_bytes();
            i = i + 1;
        }
        proof {
            assert(s.take(s.len() as int) =~= s);
        }
        total
    }
}

impl RankForwardPrefillScratchTp {
    /// What `dispose` gives back.
    pub open spec fn spec_frees(self) -> Seq<Free> {
        if self.disposed {
            seq![]
        } else {
            four_frees(
                self.hidden_a,
                self.hidden_b,
                self.partial_attn_out,
                self.partial_ffn_out,
                self.hidden_bytes,
                self.partial_bytes,
            )
        }
    }

    /// Lists the buffers to give back: all four, and nothing the second time.
    pub fn dispose(&mut self) -> (r: Vec<Free>)
        ensures
            r@ == old(self).spec_frees(),
            *final(self) == (RankForwardPrefillScratchTp { disposed: true, ..*old(self) }),
    {
        let mut v: Vec<Free> = Vec::new();
        if self.disposed {
            proof {
                assert(v@ =~= old(self).spec_frees());
            }
            return v;
        }
        self.disposed = true;
        v.push(Free { ptr: self.hidden_a, bytes: self.hidden_bytes });
        v.push(Free { ptr: self.hidden_b, bytes: self.hidden_bytes });
        v.push(Free { ptr: self.partial_attn_out, bytes: self.partial_bytes });
        v.push(Free { ptr: self.partial_ffn_out, bytes: self.partial_bytes });
        proof {
            assert(v@ =~= old(self).spec_frees());
        }
        v
    }

    /// Bytes of the four buffers.
    pub open spec fn spec_allocated_bytes(self) -> nat {
        (2 * self.hidden_bytes + 2 * self.partial_bytes) as nat
    }

    /// Bytes of the four buffers.
    pub fn allocated_bytes(&self) -> (r: usize)
        requires
            self.spec_allocated_bytes() <= usize::MAX,
        ensures
            r == self.spec_allocated_bytes(),
    {
        2 * self.hidden_bytes + 2 * self.partial_bytes
    }
}

/// The working memory of rank `r` on the buffers `b`.
pub open spec fn prefill_rank_scratch(
    cfg: Qwen3MoEConfig,
    max_tokens: usize,
    head_rank: RankId,
    b: RankBuffers,
    r: int,
) -> RankForwardPrefillScratchTp {
    RankForwardPrefillScratchTp {
        rank: RankId(r as u32),
        device_id: b.device_id,
        max_tokens,
        hidden_a: b.hidden_a,
        hidden_b: b.hidden_b,
        partial_attn_out: b.partial_attn_out,
        partial_ffn_out: b.partial_ffn_out,
        layer: Some(b.layer),
        output_head: head_scratch_of(head_rank, r, b),
        gdn_decode: cfg.gdn is Some,
        gdn_decode_batched: cfg.gdn is Some,
        hidden_bytes: (max_tokens * cfg.hidden_size * 2) as usize,
        partial_bytes: (max_tokens * cfg.hidden_size * 2) as usize,
        disposed: false,
    }
}

impl ShardedForwardPrefillScratchTp {
    /// The working memory on the buffers `bufs`, one entry for each rank, with
    /// the LM head on rank 0.
    pub fn new(
        cfg: &Qwen3MoEConfig,
        max_tokens: usize,
        bufs: &Vec<RankBuffers>,
    ) -> (res: Result<Self, ForwardError>)
        requires
            max_tokens * cfg.hidden_size * 2 <= usize::MAX,
            bufs@.len() <= u32::MAX,
        ensures
            Self::made(*cfg, max_tokens, bufs@, RankId(0), res),
    {
        Self::new_with_head_rank(cfg, max_tokens, bufs, RankId(0))
    }

    /// What `new_with_head_rank` returns.
    pub open spec fn made(
        cfg: Qwen3MoEConfig,
        max_tokens: usize, bufs: Seq<RankBuffers>,
        head_rank: RankId,
        res: Result<Self, ForwardError>,
    ) -> bool {
        if max_tokens == 0 {
                res == Err::<Self, ForwardError>(ForwardError::ScratchTokens)
            } else if head_rank.0 >= bufs.len() {
            res == Err::<Self, ForwardError>(
                ForwardError::HeadRank { head_rank: head_rank.0, ranks: bufs.len() as usize },
            )
        } else {
            match res {
                Ok(s) => {
                    &&& s.head_rank == head_rank && s.max_tokens == max_tokens
                    &&& s.per_rank@ == Seq::new(
                        bufs.len(),
                        |r: int| prefill_rank_scratch(cfg, max_tokens, head_rank, bufs[r], r),
                    )
                },
                Err(_) => false,
            }
        }
    }

    /// The working memory with the LM head on `head_rank`.
    pub fn new_with_head_rank(
        cfg: &Qwen3MoEConfig,
        max_tokens: usize, bufs: &Vec<RankBuffers>,
        head_rank: RankId,
    ) -> (res: Result<Self, ForwardError>)
        requires
            max_tokens * cfg.hidden_size * 2 <= usize::MAX,
            bufs@.len() <= u32::MAX,
        ensures
            Self::made(*cfg, max_tokens, bufs@, head_rank, res),
    {
        if max_tokens == 0 {
            return Err(ForwardError::ScratchTokens);
        }
        if head_rank.0 as usize >= bufs.len() {
            return Err(
                ForwardError::HeadRank { head_rank: head_rank.0, ranks: bufs.len() },
            );
        }
        proof {
            assert(max_tokens * cfg.hidden_size <= max_tokens * cfg.hidden_size * 2)
                by (nonlinear_arith)
                requires
                    max_tokens >= 0,
                    cfg.hidden_size >= 0,
            ;
        }
        let bytes: usize = max_tokens * cfg.hidden_size * 2;
        let mut per_rank: Vec<RankForwardPrefillScratchTp> = Vec::new();
        let mut r: usize = 0;
        while r < bufs.len()
            invariant
                r <= bufs@.len(),
                bufs@.len() <= u32::MAX,
                bytes == max_tokens * cfg.hidden_size * 2,
                per_rank@.len() == r,
                forall|j: int|
                    0 <= j < r ==> #[trigger] per_rank@[j] == prefill_rank_scratch(
                        *cfg,
                        max_tokens, head_rank,
                        bufs@[j],
                        j,
                    ),
            decreases bufs@.len() - r,
        {
            let b: RankBuffers = bufs[r];
            let output_head = if r as u32 == head_rank.0 {
                Some(OutputHeadScratch { logits_f32: b.logits_f32 })
            } else {
                None
            };
            per_rank.push(
                RankForwardPrefillScratchTp {
                    rank: RankId(r as u32),
                    device_id: b.device_id,
                    max_tokens,
                    hidden_a: b.hidden_a,
                    hidden_b: b.hidden_b,
                    partial_attn_out: b.partial_attn_out,
                    partial_ffn_out: b.partial_ffn_out,
                    layer: Some(b.layer),
                    output_head,
                    gdn_decode: cfg.gdn.is_some(),
                    gdn_decode_batched: cfg.gdn.is_some(),
                    hidden_bytes: bytes,
                    partial_bytes: bytes,
                    disposed: false,
                },
            );
            r = r + 1;
        }
        proof {
            assert(per_rank@ =~= Seq::new(
                bufs@.len(),
                |r: int| prefill_rank_scratch(*cfg, max_tokens, head_rank, bufs@[r], r),
            ));
        }
        Ok(ShardedForwardPrefillScratchTp { per_rank, head_rank, max_tokens })
    }

    /// What `dispose` gives back, rank by rank.
    pub open spec fn spec_frees(self) -> Seq<RankFree> {
        flat(
            self.per_rank@.len(),
            |i: int| rank_frees(self.per_rank@[i].rank, self.per_rank@[i].spec_frees()),
        )
    }

    /// Lists the buffers of every rank to give back. Nothing is left afterwards.
    pub fn dispose(&mut self) -> (r: Vec<RankFree>)
        ensures
            r@ == old(self).spec_frees(),
            final(self).per_rank@ == Seq::<RankForwardPrefillScratchTp>::empty(),
            final(self).head_rank == old(self).head_rank,
            final(self).max_tokens == old(self).max_tokens,
    {
        let mut v: Vec<RankFree> = Vec::new();
        let ghost all = self.per_rank@;
        let ghost f = |i: int| rank_frees(all[i].rank, all[i].spec_frees());
        let mut i: usize = 0;
        proof {
            assert(v@ =~= flat(0, f));
        }
        while i < self.per_rank.len()
            invariant
                i <= self.per_rank@.len(),
                self.per_rank@ == all,
                self.head_rank == old(self).head_rank,
                self.max_tokens == old(self).max_tokens,
                all == old(self).per_rank@,
                f == (|i: int| rank_frees(all[i].rank, all[i].spec_frees())),
                v@ == flat(i as nat, f),
            decreases self.per_rank@.len() - i,
        {
            let mut s: RankForwardPrefillScratchTp = self.per_rank[i];
            let rank = s.rank;
            let frees = s.dispose();
            push_rank_frees(rank, &frees, &mut v);
            proof {
                assert(f(i as int) == rank_frees(rank, frees@));
            }
            i = i + 1;
        }
        self.per_rank = Vec::new();
        proof {
            let g = |i: int|
                rank_frees(old(self).per_rank@[i].rank, old(self).per_rank@[i].spec_frees());
            assert forall|i: int| 0 <= i < all.len() implies #[trigger] f(i) == g(i) by {}
            lemma_flat_same(all.len(), f, g);
            assert(old(self).spec_frees() == flat(all.len(), g));
        }
        v
    }

    /// Bytes of the buffers of all ranks.
    pub open spec fn spec_rank_level_bytes(self) -> nat {
        sum(self.per_rank@.map_values(|s: RankForwardPrefillScratchTp| s.spec_allocated_bytes()))
    }

    /// Bytes of the buffers of all ranks.
    pub fn rank_level_bytes(&self) -> (r: usize)
        requires
            self.spec_rank_level_bytes() <= usize::MAX,
        ensures
            r == self.spec_rank_level_bytes(),
    {
        let ghost s = self.per_rank@.map_values(
            |s: RankForwardPrefillScratchTp| s.spec_allocated_bytes()
        );
        let mut total: usize = 0;
        let mut i: usize = 0;
        proof {
            assert(s.take(0) =~= Seq::<nat>::empty());
        }
        while i < self.per_rank.len()
            invariant
                i <= self.per_rank@.len(),
                s == self.per_rank@.map_values(
                    |s: RankForwardPrefillScratchTp| s.spec_allocated_bytes()
                ),
                sum(s) <= usize::MAX,
                total == sum(s.take(i as int)),
            decreases self.per_rank@.len() - i,
        {
            proof {
                lemma_sum_step(s, i as int);
                lemma_sum_prefix(s, i as int + 1);
            }
            total = total + self.per_rank[i].allocated_bytes();
            i = i + 1;
        }
        proof {
            assert(s.take(s.len() as int) =~= s);
        }
        total
    }
}

/// The four buffers of a rank weigh what their sizes say.
proof fn lemma_four_frees_weigh(
    rank: RankId,
    a: DevicePtr,
    b: DevicePtr,
    p: DevicePtr,
    q: DevicePtr,
    hidden_bytes: usize,
    partial_bytes: usize,
)
    ensures
        freed_bytes(rank_frees(rank, four_frees(a, b, p, q, hidden_bytes, partial_bytes))) == 2
            * hidden_bytes + 2 * partial_bytes,
{
    let sizes = rank_frees(
        rank,
        four_frees(a, b, p, q, hidden_bytes, partial_bytes),
    ).map_values(|f: RankFree| f.free.bytes as nat);
    let h = hidden_bytes as nat;
    let t = partial_bytes as nat;
    assert(sizes =~= seq![h, h, t, t]);
    assert(sizes.drop_last() =~= seq![h, h, t]);
    assert(sizes.drop_last().drop_last() =~= seq![h, h]);
    assert(sizes.drop_last().drop_last().drop_last() =~= seq![h]);
    assert(sizes.drop_last().drop_last().drop_last().drop_last() =~= Seq::<nat>::empty());
    reveal_with_fuel(sum, 5);
}

proof fn lemma_token_ranks_weigh(s: ShardedForwardOneTokenScratchTp, n: nat)
    requires
        n <= s.per_rank@.len(),
        forall|r: int| 0 <= r < s.per_rank@.len() ==> !(#[trigger] s.per_rank@[r]).disposed,
    ensures
        freed_bytes(
            flat(n, |i: int| rank_frees(s.per_rank@[i].rank, s.per_rank@[i].spec_frees())),
        ) == sum(
            s.per_rank@.map_values(|x: RankForwardScratchTp| x.spec_allocated_bytes()).take(
                n as int,
            ),
        ),
    decreases n,
{
    let f = |i: int| rank_frees(s.per_rank@[i].rank, s.per_rank@[i].spec_frees());
    let sizes = s.per_rank@.map_values(|x: RankForwardScratchTp| x.spec_allocated_bytes());
    if n == 0 {
        assert(flat(0, f).map_values(|f: RankFree| f.free.bytes as nat) =~= Seq::<nat>::empty());
        assert(sizes.take(0) =~= Seq::<nat>::empty());
    } else {
        let k = n - 1;
        let x = s.per_rank@[k];
        lemma_token_ranks_weigh(s, k as nat);
        lemma_freed_concat(flat(k as nat, f), f(k));
        lemma_four_frees_weigh(
            x.rank,
            x.hidden_a,
            x.hidden_b,
            x.partial_attn_out,
            x.partial_ffn_out,
            x.hidden_bytes,
            x.partial_bytes,
        );
        lemma_sum_step(sizes, k);
    }
}

/// The working memory of a decode step gives back the bytes that it reports, if
/// no rank has given back its own before.
pub proof fn law_token_scratch_gives_back_its_bytes(s: ShardedForwardOneTokenScratchTp)
    requires
        forall|r: int| 0 <= r < s.per_rank@.len() ==> !(#[trigger] s.per_rank@[r]).disposed,
    ensures
        freed_bytes(s.spec_frees()) == s.spec_rank_level_bytes(),
{
    let sizes = s.per_rank@.map_values(|x: RankForwardScratchTp| x.spec_allocated_bytes());
    lemma_token_ranks_weigh(s, s.per_rank@.len());
    assert(sizes.take(sizes.len() as int) =~= sizes);
}

proof fn lemma_prefill_ranks_weigh(s: ShardedForwardPrefillScratchTp, n: nat)
    requires
        n <= s.per_rank@.len(),
        forall|r: int| 0 <= r < s.per_rank@.len() ==> !(#[trigger] s.per_rank@[r]).disposed,
    ensures
        freed_bytes(
            flat(n, |i: int| rank_frees(s.per_rank@[i].rank, s.per_rank@[i].spec_frees())),
        ) == sum(
            s.per_rank@.map_values(
                |x: RankForwardPrefillScratchTp| x.spec_allocated_bytes(),
            ).take(n as int),
        ),
    decreases n,
{
    let f = |i: int| rank_frees(s.per_rank@[i].rank, s.per_rank@[i].spec_frees());
    let sizes = s.per_rank@.map_values(|x: RankForwardPrefillScratchTp| x.spec_allocated_bytes());
    if n == 0 {
        assert(flat(0, f).map_values(|f: RankFree| f.free.bytes as nat) =~= Seq::<nat>::empty());
        assert(sizes.take(0) =~= Seq::<nat>::empty());
    } else {
        let k = n - 1;
        let x = s.per_rank@[k];
        lemma_prefill_ranks_weigh(s, k as nat);
        lemma_freed_concat(flat(k as nat, f), f(k));
        lemma_four_frees_weigh(
            x.rank,
            x.hidden_a,
            x.hidden_b,
            x.partial_attn_out,
            x.partial_ffn_out,
            x.hidden_bytes,
            x.partial_bytes,
        );
        lemma_sum_step(sizes, k);
    }
}

/// The working memory of a batch gives back the bytes that it reports, if no
/// rank has given back its own before.
pub proof fn law_batch_scratch_gives_back_its_bytes(s: ShardedForwardPrefillScratchTp)
    requires
        forall|r: int| 0 <= r < s.per_rank@.len() ==> !(#[trigger] s.per_rank@[r]).disposed,
    ensures
        freed_bytes(s.spec_frees()) == s.spec_rank_level_bytes(),
{
    let sizes = s.per_rank@.map_values(|x: RankForwardPrefillScratchTp| x.spec_allocated_bytes());
    lemma_prefill_ranks_weigh(s, s.per_rank@.len());
    assert(sizes.take(sizes.len() as int) =~= sizes);
}

} // verus!
