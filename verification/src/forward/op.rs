//! The operations that the forward passes issue to the devices.

use crate::device::DevicePtr;
use crate::forward::moe_tp::{MoeBlock, MoeTpError, SharedBlock};
use crate::names::TensorKind;
use crate::tensor::GgmlDType;
use crate::text::{dec, owned, push_dec};
use crate::weights::DeviceTensor;
use vstd::prelude::*;

verus! {

/// A weight as a kernel sees it.
#[derive(Debug, Clone, Copy, PartialEq, Eq, Structural)]
pub struct Weight {
    pub ptr: DevicePtr,
    pub dtype: GgmlDType,
}

/// The weight that a tensor holds.
pub open spec fn weight_of(t: DeviceTensor) -> Weight {
    Weight { ptr: t.ptr, dtype: t.dtype }
}

pub fn weight(t: &DeviceTensor) -> (r: Weight)
    ensures
        r == weight_of(*t),
{
    Weight { ptr: t.ptr, dtype: t.dtype }
}

/// Weights of a full-attention layer.
#[derive(Debug, Clone, Copy, PartialEq, Eq, Structural)]
pub struct AttnRefs {
    pub attn_norm: Weight,
    pub attn_q: Weight,
    pub attn_k: Weight,
    pub attn_v: Weight,
    pub attn_output: Weight,
    pub attn_q_norm: Weight,
    pub attn_k_norm: Weight,
}

/// Weights of a gated-delta-net layer.
#[derive(Debug, Clone, Copy, PartialEq, Eq, Structural)]
pub struct GdnRefs {
    pub attn_norm: Weight,
    pub attn_qkv: Weight,
    pub attn_gate: Weight,
    pub ssm_alpha: Weight,
    pub ssm_beta: Weight,
    pub ssm_a: Weight,
    pub ssm_dt_bias: Weight,
    pub ssm_conv1d: Weight,
    pub ssm_norm: Weight,
    pub ssm_out: Weight,
}

/// Weights of a dense FFN.
#[derive(Debug, Clone, Copy, PartialEq, Eq, Structural)]
pub struct DenseFfnRefs {
    pub ffn_gate: Weight,
    pub ffn_up: Weight,
    pub ffn_down: Weight,
}

/// Weights of the router and the routed experts.
#[derive(Debug, Clone, Copy, PartialEq, Eq, Structural)]
pub struct MoeRefs {
    pub router: Weight,
    pub gate_exps: Weight,
    pub up_exps: Weight,
    pub down_exps: Weight,
}

/// Weights of the shared expert; `gate_inp` where it has a gate of its own.
#[derive(Debug, Clone, Copy, PartialEq, Eq, Structural)]
pub struct SharedRefs {
    pub gate: Weight,
    pub up: Weight,
    pub down: Weight,
    pub gate_inp: Option<Weight>,
}

/// Whether one token or a batch of tokens is processed.
#[derive(Debug, Clone, Copy, PartialEq, Eq, Structural)]
pub enum Pass {
    Decode,
    Prefill,
}

/// The half of a layer whose partial results are reduced.
#[derive(Debug, Clone, Copy, PartialEq, Eq, Structural)]
pub enum AttnOrFfnPub {
    Attn,
    Ffn,
}

/// The stream of a rank on which an operation is queued.
#[derive(Debug, Clone, Copy, PartialEq, Eq, Structural)]
pub enum StreamSel {
    Default,
    Aux(usize),
}

/// How a copy between ranks is ordered with the streams.
#[derive(Debug, Clone, Copy, PartialEq, Eq, Structural)]
pub enum PeerMode {
    /// The host waits for the copy.
    Blocking,
    /// The receiving stream waits for an event.
    Event,
    /// Queued on the auxiliary streams of `lane`, through its own bounce buffer.
    Lane(usize),
}

/// One operation. `rank` is the device that carries it out.
#[derive(Debug, Clone, Copy, PartialEq, Eq, Structural)]
pub enum Op {
    /// Writes the embedding row of `token` to `dst`.
    Embed {
        rank: usize,
        stream: StreamSel,
        table: Weight,
        token: u32,
        dst: DevicePtr,
        hidden: usize,
    },
    /// A whole layer of a pipeline rank, `local` in the rank's own count.
    Layer {
        rank: usize,
        stream: StreamSel,
        local: usize,
        layer: usize,
        pass: Pass,
        x: DevicePtr,
        out: DevicePtr,
        n_tokens: usize,
        position: usize,
        /// The step on the recurrent state is ordered with the other lanes.
        ordered: bool,
    },
    /// Full attention of one rank into `out`.
    FullAttn {
        rank: usize,
        layer: usize,
        cache: usize,
        w: AttnRefs,
        pass: Pass,
        x: DevicePtr,
        out: DevicePtr,
        n_tokens: usize,
        position: usize,
        world: u32,
        kv_replicated: bool,
    },
    /// Enters the KV cache of `slot` into the batch of the next `FullAttnSlots`.
    GatherKv { rank: usize, layer: usize, slot: usize, position: usize },
    /// Full attention of one rank over the gathered slots.
    FullAttnSlots {
        rank: usize,
        layer: usize,
        w: AttnRefs,
        x: DevicePtr,
        out: DevicePtr,
        n_slots: usize,
        world: u32,
        kv_replicated: bool,
    },
    /// Gated-delta-net step of one rank into `out`; `slot` names the sequence
    /// whose state is stepped.
    Gdn {
        rank: usize,
        layer: usize,
        cache: usize,
        slot: usize,
        w: GdnRefs,
        pass: Pass,
        x: DevicePtr,
        out: DevicePtr,
        n_tokens: usize,
        world: u32,
        kq_replicated: bool,
    },
    /// A gated-delta-net layer of a pipeline rank alone, for one token.
    GdnLayer { rank: usize, local: usize, layer: usize, x: DevicePtr, out: DevicePtr },
    /// Waits until the stream has run dry.
    Sync { rank: usize, stream: StreamSel },
    /// Marks the partial result of `rank` as written.
    RecordDone { rank: usize },
    /// Makes `rank` wait for the mark of `peer`.
    WaitDone { rank: usize, peer: usize },
    /// Enters a rank's buffers into the next `AllReduce`.
    ArOperand { rank: usize, hidden: DevicePtr, partial: DevicePtr },
    /// Enters a rank's norm into the next `AllReduceNorm`.
    ArNorm { rank: usize, weight: DevicePtr, out: DevicePtr },
    /// Adds the partial results of all ranks to the hidden state of each.
    AllReduce { world: u32, elems: u32 },
    /// Like `AllReduce`, followed by the norm.
    AllReduceNorm { world: u32, elems: u32 },
    /// `out = a + b`.
    Add { rank: usize, a: DevicePtr, b: DevicePtr, out: DevicePtr, elems: usize },
    /// Root-mean-square norm of `rows` rows.
    RmsNorm {
        rank: usize,
        x: DevicePtr,
        weight: DevicePtr,
        out: DevicePtr,
        rows: usize,
        hidden: usize,
    },
    /// Dense FFN of one rank into `out`.
    DenseFfn {
        rank: usize,
        layer: usize,
        w: DenseFfnRefs,
        pass: Pass,
        x: DevicePtr,
        out: DevicePtr,
        n_tokens: usize,
        world: u32,
        pre_quantized: bool,
    },
    /// Expert selection.
    Router { rank: usize, layer: usize, w: Weight, pass: Pass, x: DevicePtr, n_tokens: usize },
    /// Shared expert of one rank into `out`.
    SharedExpert {
        rank: usize,
        layer: usize,
        w: SharedRefs,
        block: SharedBlock,
        pass: Pass,
        x: DevicePtr,
        out: DevicePtr,
        n_tokens: usize,
    },
    /// Routed experts of one rank into `out`.
    MoeFfn {
        rank: usize,
        layer: usize,
        w: MoeRefs,
        block: MoeBlock,
        pass: Pass,
        x: DevicePtr,
        out: DevicePtr,
        n_tokens: usize,
    },
    /// Copies within a rank.
    Copy { rank: usize, stream: StreamSel, dst: DevicePtr, src: DevicePtr, bytes: usize },
    /// Copies from one rank to another.
    PeerCopy {
        mode: PeerMode,
        dst_rank: usize,
        dst: DevicePtr,
        src_rank: usize,
        src: DevicePtr,
        bytes: usize,
    },
    /// Output norm and LM head on the row `x`.
    OutputHead { rank: usize, norm: Weight, lm_head: Weight, x: DevicePtr },
    /// Fetches `vocab` logits for the sequence `slot`.
    DownloadLogits { rank: usize, slot: usize, vocab: usize },
    /// Picks the largest of `vocab` logits.
    Argmax { rank: usize, vocab: usize },
    /// Makes `n` auxiliary streams ready on every rank.
    ReserveStreams { n: usize },
    /// Makes bounce buffers of at least `bytes` ready between the ranks.
    ReserveBounces { bytes: usize },
    /// Makes a bounce buffer of `bytes` ready for each of `lanes` lanes.
    ReserveLaneBounces { lanes: usize, bytes: usize },
}

/// A part of the working memory of a rank.
#[derive(Debug, Clone, Copy, PartialEq, Eq, Structural)]
pub enum ScratchPart {
    LayerForward,
    LayerPrefill,
    FullAttn,
    FullAttnPrefill,
    Gdn,
    GdnPrefill,
    GdnDecode,
    DenseFfn,
    DenseFfnPrefill,
    Moe,
    MoePrefill,
    SharedExpert,
    SharedExpertPrefill,
}

impl ScratchPart {
    pub open spec fn spec_text(self) -> Seq<char> {
        match self {
            ScratchPart::LayerForward => "LayerForwardScratch"@,
            ScratchPart::LayerPrefill => "LayerPrefillScratch"@,
            ScratchPart::FullAttn => "FullAttnScratch"@,
            ScratchPart::FullAttnPrefill => "FullAttnPrefillScratch"@,
            ScratchPart::Gdn => "GdnScratch"@,
            ScratchPart::GdnPrefill => "GdnPrefillScratch"@,
            ScratchPart::GdnDecode => "gdn_decode scratch"@,
            ScratchPart::DenseFfn => "DenseFfnScratch"@,
            ScratchPart::DenseFfnPrefill => "DenseFfnPrefillScratch"@,
            ScratchPart::Moe => "MoeScratch"@,
            ScratchPart::MoePrefill => "MoePrefillScratch"@,
            ScratchPart::SharedExpert => "SharedExpertScratch"@,
            ScratchPart::SharedExpertPrefill => "SharedExpertPrefillScratch"@,
        }
    }

    pub fn text(self) -> (r: &'static str)
        ensures
            r@ == self.spec_text(),
    {
        match self {
            ScratchPart::LayerForward => "LayerForwardScratch",
            ScratchPart::LayerPrefill => "LayerPrefillScratch",
            ScratchPart::FullAttn => "FullAttnScratch",
            ScratchPart::FullAttnPrefill => "FullAttnPrefillScratch",
            ScratchPart::Gdn => "GdnScratch",
            ScratchPart::GdnPrefill => "GdnPrefillScratch",
            ScratchPart::GdnDecode => "gdn_decode scratch",
            ScratchPart::DenseFfn => "DenseFfnScratch",
            ScratchPart::DenseFfnPrefill => "DenseFfnPrefillScratch",
            ScratchPart::Moe => "MoeScratch",
            ScratchPart::MoePrefill => "MoePrefillScratch",
            ScratchPart::SharedExpert => "SharedExpertScratch",
            ScratchPart::SharedExpertPrefill => "SharedExpertPrefillScratch",
        }
    }
}

/// Why a forward pass stops.
#[derive(Debug, Clone, Copy, PartialEq, Eq, Structural)]
pub enum ForwardError {
    WorldBatchedPrefill { world: u32 },
    WorldOneToken { world: u32 },
    WorldBatchedDecode { world: u32 },
    WorldAr { world: u32 },
    WorldArNorm { world: u32 },
    WorldArPrefill { world: u32 },
    ScratchRanks { have: usize, ranks: usize },
    CacheRanks { have: usize, ranks: usize },
    MissingTensor { layer: usize, kind: TensorKind },
    MissingScratch { rank: usize, part: ScratchPart },
    PrefillWantsKv { rank: usize, layer: usize },
    PrefillWantsGdn { rank: usize, layer: usize },
    DecodeWantsKv { rank: usize, layer: usize },
    DecodeWantsGdn { rank: usize, layer: usize },
    SlotWantsKv { slot: usize, rank: usize, layer: usize },
    SlotWantsGdn { slot: usize, rank: usize, layer: usize },
    MissingHead { rank: usize },
    MissingHeadScratch,
    EmptyPromptPooled,
    EmptyPrompt,
    PooledTooSmall { have: usize, need: usize },
    EmptySlots,
    SessionsLogits { sessions: usize, logits: usize },
    SlotOob { idx: usize, n: usize },
    SlotScratch { rank: usize, max_tokens: usize, n: usize },
    HeadRank { head_rank: u32, ranks: usize },
    ScratchTokens,
    Moe { error: MoeTpError },
    ZeroRanksOneToken,
    NoTokenEmbd,
    NoRankLayerScratch,
    NoRankPrefillScratch,
    NoOutputNorm,
    NoLmHead,
    NoHeadScratch,
    ZeroRanksAsync,
    EmptyTokensAsync,
    UbatchZero,
    UbatchTooLarge { ubatch_size: usize, max_tokens: usize },
    TooFewLanes { u_lanes: usize },
    NoRank0Lane,
    NoLane,
    ZeroRanksPaired,
    PairedLength { len: usize },
    PairedTooLong { max_tokens: usize },
    ZeroRanksHead,
    PrefillEmpty,
    PrefillTooLong { len: usize, max_tokens: usize },
    OneTokenNoLayer,
    OneTokenNoHead,
    PrefillNoLayer,
    PrefillNoHead,
    RedoRanks { session: usize, cluster: usize },
    RedoNoDecodeRank,
    RedoNoLayer,
    RedoNoGdn,
    RedoNoPrefillRank,
    RedoNoSnapshot { rank: usize, layer: usize },
    ZeroRanksPrefill,
    EmptyTokensPrefill,
    PrefillPpTooLong { len: usize, max_tokens: usize },
}

impl ForwardError {
    /// What `message` says.
    pub open spec fn spec_message(&self) -> Seq<char> {
        match self {
            ForwardError::WorldBatchedPrefill { world } => "TP batched prefill: world ∈ {1, 2, 4} (got "@
                + dec(*world as nat)
                + ")"@,
            ForwardError::WorldOneToken { world } => "TP-2d supports world ∈ {1, 2, 4}; got "@
                + dec(*world as nat),
            ForwardError::WorldBatchedDecode { world } => "forward_decode_batched_tp: world ∈ {1, 2, 4} (got "@
                + dec(*world as nat)
                + ")"@,
            ForwardError::WorldAr { world } => "ar_residual: unsupported world "@
                + dec(*world as nat),
            ForwardError::WorldArNorm { world } => "ar_residual_rmsnorm: unsupported world "@
                + dec(*world as nat),
            ForwardError::WorldArPrefill { world } => "ar_residual_prefill: unsupported world "@
                + dec(*world as nat),
            ForwardError::ScratchRanks { have, ranks } => "scratch.per_rank.len()="@
                + dec(*have as nat)
                + " != cluster.ranks()="@
                + dec(*ranks as nat),
            ForwardError::CacheRanks { have, ranks } => "layer_caches.len()="@
                + dec(*have as nat)
                + " != cluster.ranks()="@
                + dec(*ranks as nat),
            ForwardError::MissingTensor { layer, kind } => "layer "@
                + dec(*layer as nat)
                + ": missing tensor with suffix `"@
                + kind.spec_text()
                + "`"@,
            ForwardError::MissingScratch { rank, part } => "rank "@
                + dec(*rank as nat)
                + ": missing "@
                + part.spec_text(),
            ForwardError::PrefillWantsKv { rank, layer } => "rank "@
                + dec(*rank as nat)
                + " layer "@
                + dec(*layer as nat)
                + ": full-attn path expects FullAttn cache (got non-FullAttn)"@,
            ForwardError::PrefillWantsGdn { rank, layer } => "rank "@
                + dec(*rank as nat)
                + " layer "@
                + dec(*layer as nat)
                + ": GDN path expects Gdn cache (got non-Gdn)"@,
            ForwardError::DecodeWantsKv { rank, layer } => "rank "@
                + dec(*rank as nat)
                + " layer "@
                + dec(*layer as nat)
                + ": expected FullAttn cache (got non-FullAttn variant)"@,
            ForwardError::DecodeWantsGdn { rank, layer } => "rank "@
                + dec(*rank as nat)
                + " layer "@
                + dec(*layer as nat)
                + ": expected Gdn cache (got non-Gdn variant)"@,
            ForwardError::SlotWantsKv { slot, rank, layer } => "TP batched decode: slot "@
                + dec(*slot as nat)
                + " rank "@
                + dec(*rank as nat)
                + " layer "@
                + dec(*layer as nat)
                + " expected FullAttn cache (Q8 KV is V2)"@,
            ForwardError::SlotWantsGdn { slot, rank, layer } => "TP batched decode: slot "@
                + dec(*slot as nat)
                + " rank "@
                + dec(*rank as nat)
                + " layer "@
                + dec(*layer as nat)
                + " expected Gdn cache"@,
            ForwardError::MissingHead { rank } => "head_rank="@
                + dec(*rank as nat)
                + " missing OutputHeadScratch"@,
            ForwardError::MissingHeadScratch => "head rank missing output_head scratch"@,
            ForwardError::EmptyPromptPooled => "forward_prefill_tp_logits_pooled: empty prompt"@,
            ForwardError::EmptyPrompt => "forward_prefill_tp_logits: empty prompt"@,
            ForwardError::PooledTooSmall { have, need } => "pooled TP prefill scratch sized "@
                + dec(*have as nat)
                + " < n_tokens "@
                + dec(*need as nat),
            ForwardError::EmptySlots => "forward_decode_batched_tp: empty slot list"@,
            ForwardError::SessionsLogits { sessions, logits } => "forward_decode_batched_tp: sessions("@
                + dec(*sessions as nat)
                + ") != logits_out("@
                + dec(*logits as nat)
                + ")"@,
            ForwardError::SlotOob { idx, n } => "forward_decode_batched_tp: BatchSlot.idx "@
                + dec(*idx as nat)
                + " OOB (n="@
                + dec(*n as nat)
                + ")"@,
            ForwardError::SlotScratch { rank, max_tokens, n } => "forward_decode_batched_tp: rank "@
                + dec(*rank as nat)
                + " scratch.max_tokens="@
                + dec(*max_tokens as nat)
                + " < n="@
                + dec(*n as nat),
            ForwardError::HeadRank { head_rank, ranks } => "head_rank "@
                + dec(*head_rank as nat)
                + " out of range for cluster ranks "@
                + dec(*ranks as nat),
            ForwardError::ScratchTokens => "ShardedForwardPrefillScratchTp::new max_tokens must be >= 1"@,
            ForwardError::Moe { error } => error.spec_message(),
            ForwardError::ZeroRanksOneToken => "forward_one_token_pp_inner: zero-rank cluster"@,
            ForwardError::NoTokenEmbd => "rank 0 shard missing token_embd"@,
            ForwardError::NoRankLayerScratch => "per-rank LayerForwardScratch missing"@,
            ForwardError::NoRankPrefillScratch => "per-rank LayerPrefillScratch missing"@,
            ForwardError::NoOutputNorm => "last rank missing output_norm"@,
            ForwardError::NoLmHead => "last rank missing both output.weight and tied token_embd"@,
            ForwardError::NoHeadScratch => "last rank missing output_head scratch"@,
            ForwardError::ZeroRanksAsync => "forward_prefill_pp_async: zero-rank cluster"@,
            ForwardError::EmptyTokensAsync => "forward_prefill_pp_async called with empty tokens"@,
            ForwardError::UbatchZero => "forward_prefill_pp_async: ubatch_size must be >= 1"@,
            ForwardError::UbatchTooLarge {
                ubatch_size,
                max_tokens,
            } => "forward_prefill_pp_async: ubatch_size="@
                + dec(*ubatch_size as nat)
                + " > scratch.max_tokens="@
                + dec(*max_tokens as nat),
            ForwardError::TooFewLanes { u_lanes } => "forward_prefill_pp_async: u_lanes="@
                + dec(*u_lanes as nat)
                + " < 2 — no async benefit; construct scratch via new_with_lanes(..., u_lanes >= 2)"@,
            ForwardError::NoRank0Lane => "rank 0 lane_layer_mut"@,
            ForwardError::NoLane => "lane_layer_mut"@,
            ForwardError::ZeroRanksPaired => "forward_prefill_pp_logits_paired_l2: zero-rank cluster"@,
            ForwardError::PairedLength { len } => "forward_prefill_pp_logits_paired_l2: requires L=2, got L="@
                + dec(*len as nat),
            ForwardError::PairedTooLong { max_tokens } => "forward_prefill_pp_logits_paired_l2: L=2 > scratch.max_tokens="@
                + dec(*max_tokens as nat),
            ForwardError::ZeroRanksHead => "forward_output_head_at_pp: zero-rank cluster"@,
            ForwardError::PrefillEmpty => "forward_prefill called with empty tokens"@,
            ForwardError::PrefillTooLong { len, max_tokens } => "forward_prefill: L="@
                + dec(*len as nat)
                + " > scratch.max_tokens="@
                + dec(*max_tokens as nat),
            ForwardError::OneTokenNoLayer => "ForwardOneTokenScratch.layer missing"@,
            ForwardError::OneTokenNoHead => "ForwardOneTokenScratch.output_head missing"@,
            ForwardError::PrefillNoLayer => "ForwardPrefillScratch.layer missing"@,
            ForwardError::PrefillNoHead => "ForwardPrefillScratch.output_head missing"@,
            ForwardError::RedoRanks { session, cluster } => "redo_gdn_only_pp: session ranks="@
                + dec(*session as nat)
                + " != cluster ranks="@
                + dec(*cluster as nat),
            ForwardError::RedoNoDecodeRank => "decode scratch missing rank"@,
            ForwardError::RedoNoLayer => "decode scratch's LayerForwardScratch missing"@,
            ForwardError::RedoNoGdn => "LayerForwardScratch.gdn missing"@,
            ForwardError::RedoNoPrefillRank => "prefill scratch missing rank"@,
            ForwardError::RedoNoSnapshot { rank, layer } => "redo_gdn_only_pp: missing snapshot for rank="@
                + dec(*rank as nat)
                + " layer="@
                + dec(*layer as nat)
                + " (run forward_prefill_pp_logits_paired_l2 first)"@,
            ForwardError::ZeroRanksPrefill => "forward_prefill_pp: zero-rank cluster"@,
            ForwardError::EmptyTokensPrefill => "forward_prefill_pp called with empty tokens"@,
            ForwardError::PrefillPpTooLong { len, max_tokens } => "forward_prefill_pp: L="@
                + dec(*len as nat)
                + " > scratch.max_tokens="@
                + dec(*max_tokens as nat),
        }
    }

    /// The error as a sentence.
    pub fn message(&self) -> (r: String)
        ensures
            r@ == self.spec_message(),
    {
        match self {
            ForwardError::WorldBatchedPrefill { world } => {
                let mut s = owned("TP batched prefill: world ∈ {1, 2, 4} (got ");
                push_dec(&mut s, *world as u64);
                s.append(")");
                s
            },
            ForwardError::WorldOneToken { world } => {
                let mut s = owned("TP-2d supports world ∈ {1, 2, 4}; got ");
                push_dec(&mut s, *world as u64);
                s
            },
            ForwardError::WorldBatchedDecode { world } => {
                let mut s = owned("forward_decode_batched_tp: world ∈ {1, 2, 4} (got ");
                push_dec(&mut s, *world as u64);
                s.append(")");
                s
            },
            ForwardError::WorldAr { world } => {
                let mut s = owned("ar_residual: unsupported world ");
                push_dec(&mut s, *world as u64);
                s
            },
            ForwardError::WorldArNorm { world } => {
                let mut s = owned("ar_residual_rmsnorm: unsupported world ");
                push_dec(&mut s, *world as u64);
                s
            },
            ForwardError::WorldArPrefill { world } => {
                let mut s = owned("ar_residual_prefill: unsupported world ");
                push_dec(&mut s, *world as u64);
                s
            },
            ForwardError::ScratchRanks { have, ranks } => {
                let mut s = owned("scratch.per_rank.len()=");
                push_dec(&mut s, *have as u64);
                s.append(" != cluster.ranks()=");
                push_dec(&mut s, *ranks as u64);
                s
            },
            ForwardError::CacheRanks { have, ranks } => {
                let mut s = owned("layer_caches.len()=");
                push_dec(&mut s, *have as u64);
                s.append(" != cluster.ranks()=");
                push_dec(&mut s, *ranks as u64);
                s
            },
            ForwardError::MissingTensor { layer, kind } => {
                let mut s = owned("layer ");
                push_dec(&mut s, *layer as u64);
                s.append(": missing tensor with suffix `");
                s.append(kind.text());
                s.append("`");
                s
            },
            ForwardError::MissingScratch { rank, part } => {
                let mut s = owned("rank ");
                push_dec(&mut s, *rank as u64);
                s.append(": missing ");
                s.append(part.text());
                s
            },
            ForwardError::PrefillWantsKv { rank, layer } => {
                let mut s = owned("rank ");
                push_dec(&mut s, *rank as u64);
                s.append(" layer ");
                push_dec(&mut s, *layer as u64);
                s.append(": full-attn path expects FullAttn cache (got non-FullAttn)");
                s
            },
            ForwardError::PrefillWantsGdn { rank, layer } => {
                let mut s = owned("rank ");
                push_dec(&mut s, *rank as u64);
                s.append(" layer ");
                push_dec(&mut s, *layer as u64);
                s.append(": GDN path expects Gdn cache (got non-Gdn)");
                s
            },
            ForwardError::DecodeWantsKv { rank, layer } => {
                let mut s = owned("rank ");
                push_dec(&mut s, *rank as u64);
                s.append(" layer ");
                push_dec(&mut s, *layer as u64);
                s.append(": expected FullAttn cache (got non-FullAttn variant)");
                s
            },
            ForwardError::DecodeWantsGdn { rank, layer } => {
                let mut s = owned("rank ");
                push_dec(&mut s, *rank as u64);
                s.append(" layer ");
                push_dec(&mut s, *layer as u64);
                s.append(": expected Gdn cache (got non-Gdn variant)");
                s
            },
            ForwardError::SlotWantsKv { slot, rank, layer } => {
                let mut s = owned("TP batched decode: slot ");
                push_dec(&mut s, *slot as u64);
                s.append(" rank ");
                push_dec(&mut s, *rank as u64);
                s.append(" layer ");
                push_dec(&mut s, *layer as u64);
                s.append(" expected FullAttn cache (Q8 KV is V2)");
                s
            },
            ForwardError::SlotWantsGdn { slot, rank, layer } => {
                let mut s = owned("TP batched decode: slot ");
                push_dec(&mut s, *slot as u64);
                s.append(" rank ");
                push_dec(&mut s, *rank as u64);
                s.append(" layer ");
                push_dec(&mut s, *layer as u64);
                s.append(" expected Gdn cache");
                s
            },
            ForwardError::MissingHead { rank } => {
                let mut s = owned("head_rank=");
                push_dec(&mut s, *rank as u64);
                s.append(" missing OutputHeadScratch");
                s
            },
            ForwardError::MissingHeadScratch => owned("head rank missing output_head scratch"),
            ForwardError::EmptyPromptPooled => owned("forward_prefill_tp_logits_pooled: empty prompt"),
            ForwardError::EmptyPrompt => owned("forward_prefill_tp_logits: empty prompt"),
            ForwardError::PooledTooSmall { have, need } => {
                let mut s = owned("pooled TP prefill scratch sized ");
                push_dec(&mut s, *have as u64);
                s.append(" < n_tokens ");
                push_dec(&mut s, *need as u64);
                s
            },
            ForwardError::EmptySlots => owned("forward_decode_batched_tp: empty slot list"),
            ForwardError::SessionsLogits { sessions, logits } => {
                let mut s = owned("forward_decode_batched_tp: sessions(");
                push_dec(&mut s, *sessions as u64);
                s.append(") != logits_out(");
                push_dec(&mut s, *logits as u64);
                s.append(")");
                s
            },
            ForwardError::SlotOob { idx, n } => {
                let mut s = owned("forward_decode_batched_tp: BatchSlot.idx ");
                push_dec(&mut s, *idx as u64);
                s.append(" OOB (n=");
                push_dec(&mut s, *n as u64);
                s.append(")");
                s
            },
            ForwardError::SlotScratch { rank, max_tokens, n } => {
                let mut s = owned("forward_decode_batched_tp: rank ");
                push_dec(&mut s, *rank as u64);
                s.append(" scratch.max_tokens=");
                push_dec(&mut s, *max_tokens as u64);
                s.append(" < n=");
                push_dec(&mut s, *n as u64);
                s
            },
            ForwardError::HeadRank { head_rank, ranks } => {
                let mut s = owned("head_rank ");
                push_dec(&mut s, *head_rank as u64);
                s.append(" out of range for cluster ranks ");
                push_dec(&mut s, *ranks as u64);
                s
            },
            ForwardError::ScratchTokens => owned("ShardedForwardPrefillScratchTp::new max_tokens must be >= 1"),
            ForwardError::Moe { error } => {
                let mut s = error.message();
                s
            },
            ForwardError::ZeroRanksOneToken => owned("forward_one_token_pp_inner: zero-rank cluster"),
            ForwardError::NoTokenEmbd => owned("rank 0 shard missing token_embd"),
            ForwardError::NoRankLayerScratch => owned("per-rank LayerForwardScratch missing"),
            ForwardError::NoRankPrefillScratch => owned("per-rank LayerPrefillScratch missing"),
            ForwardError::NoOutputNorm => owned("last rank missing output_norm"),
            ForwardError::NoLmHead => owned("last rank missing both output.weight and tied token_embd"),
            ForwardError::NoHeadScratch => owned("last rank missing output_head scratch"),
            ForwardError::ZeroRanksAsync => owned("forward_prefill_pp_async: zero-rank cluster"),
            ForwardError::EmptyTokensAsync => owned("forward_prefill_pp_async called with empty tokens"),
            ForwardError::UbatchZero => owned("forward_prefill_pp_async: ubatch_size must be >= 1"),
            ForwardError::UbatchTooLarge { ubatch_size, max_tokens } => {
                let mut s = owned("forward_prefill_pp_async: ubatch_size=");
                push_dec(&mut s, *ubatch_size as u64);
                s.append(" > scratch.max_tokens=");
                push_dec(&mut s, *max_tokens as u64);
                s
            },
            ForwardError::TooFewLanes { u_lanes } => {
                let mut s = owned("forward_prefill_pp_async: u_lanes=");
                push_dec(&mut s, *u_lanes as u64);
                s.append(" < 2 — no async benefit; construct scratch via new_with_lanes(..., u_lanes >= 2)");
                s
            },
            ForwardError::NoRank0Lane => owned("rank 0 lane_layer_mut"),
            ForwardError::NoLane => owned("lane_layer_mut"),
            ForwardError::ZeroRanksPaired => owned("forward_prefill_pp_logits_paired_l2: zero-rank cluster"),
            ForwardError::PairedLength { len } => {
                let mut s = owned("forward_prefill_pp_logits_paired_l2: requires L=2, got L=");
                push_dec(&mut s, *len as u64);
                s
            },
            ForwardError::PairedTooLong { max_tokens } => {
                let mut s = owned("forward_prefill_pp_logits_paired_l2: L=2 > scratch.max_tokens=");
                push_dec(&mut s, *max_tokens as u64);
                s
            },
            ForwardError::ZeroRanksHead => owned("forward_output_head_at_pp: zero-rank cluster"),
            ForwardError::PrefillEmpty => owned("forward_prefill called with empty tokens"),
            ForwardError::PrefillTooLong { len, max_tokens } => {
                let mut s = owned("forward_prefill: L=");
                push_dec(&mut s, *len as u64);
                s.append(" > scratch.max_tokens=");
                push_dec(&mut s, *max_tokens as u64);
                s
            },
            ForwardError::OneTokenNoLayer => owned("ForwardOneTokenScratch.layer missing"),
            ForwardError::OneTokenNoHead => owned("ForwardOneTokenScratch.output_head missing"),
            ForwardError::PrefillNoLayer => owned("ForwardPrefillScratch.layer missing"),
            ForwardError::PrefillNoHead => owned("ForwardPrefillScratch.output_head missing"),
            ForwardError::RedoRanks { session, cluster } => {
                let mut s = owned("redo_gdn_only_pp: session ranks=");
                push_dec(&mut s, *session as u64);
                s.append(" != cluster ranks=");
                push_dec(&mut s, *cluster as u64);
                s
            },
            ForwardError::RedoNoDecodeRank => owned("decode scratch missing rank"),
            ForwardError::RedoNoLayer => owned("decode scratch's LayerForwardScratch missing"),
            ForwardError::RedoNoGdn => owned("LayerForwardScratch.gdn missing"),
            ForwardError::RedoNoPrefillRank => owned("prefill scratch missing rank"),
            ForwardError::RedoNoSnapshot { rank, layer } => {
                let mut s = owned("redo_gdn_only_pp: missing snapshot for rank=");
                push_dec(&mut s, *rank as u64);
                s.append(" layer=");
                push_dec(&mut s, *layer as u64);
                s.append(" (run forward_prefill_pp_logits_paired_l2 first)");
                s
            },
            ForwardError::ZeroRanksPrefill => owned("forward_prefill_pp: zero-rank cluster"),
            ForwardError::EmptyTokensPrefill => owned("forward_prefill_pp called with empty tokens"),
            ForwardError::PrefillPpTooLong { len, max_tokens } => {
                let mut s = owned("forward_prefill_pp: L=");
                push_dec(&mut s, *len as u64);
                s.append(" > scratch.max_tokens=");
                push_dec(&mut s, *max_tokens as u64);
                s
            },
        }
    }
}

} // verus!
