//! Errors of loading weights.

use crate::tensor::GgmlDType;
use crate::text::{bool_str, bool_text, dec, dims_text, owned, push_dec, push_dims};
use vstd::prelude::*;

verus! {

/// Why the weights of a model cannot be prepared for a device.
#[derive(Debug, Clone, PartialEq, Eq)]
pub enum LoadError {
    /// The assignment is for another number of layers.
    AssignedLayers { have: usize, want: usize },
    /// The assignment is for another number of ranks.
    AssignedRanks { have: u32, ranks: usize },
    /// The file holds less than the tensor's size.
    ShortSlice { name: String, have: usize, want: usize },
    F16Dtype { name: String, dtype: GgmlDType },
    F16Short { name: String, have: usize, want: usize },
    Q8Dtype { name: String, dtype: GgmlDType },
    Q8Short { name: String, have: usize, want: usize },
    Q8Blocks { name: String, elems: usize },
    Bf16Short { name: String, have: usize, want: usize, elems: usize },
    Bf16Blocks { name: String, elems: usize },
    Mxfp4Blocks { name: String, elems: usize },
    Mxfp4Short { name: String, have: usize, want: usize },
    Q41Blocks { name: String, elems: usize },
    Q41Short { name: String, have: usize, want: usize },
    BaDims { name: String },
    BaNoGdn { arch: String },
    BaRows { name: String, rows: usize, want: usize },
    BaHeads { num_v_heads: usize, num_k_heads: usize },
    BaCols { name: String, cols: usize },
    BaName { name: String },
    TpBaDims { name: String },
    TpBaNoGdn { arch: String },
    TpBaRows { name: String, rows: usize, want: usize },
    TpBaWorld { num_v_heads: usize, world: u32 },
    TpBaHeads { num_v_heads: usize, num_k_heads: usize },
    TpBaCols { cols: usize },
    TpBaName { name: String },
    RankCount { ranks: usize, world: u32 },
    LayerRange { start: usize, end: usize, num_layers: usize },
    SharedFallback { layer: usize },
    F32Source { have: usize, want: usize },
    Bf16Source { have: usize, want: usize },
    Bf16SourceBlocks { elems: usize },
    F32Q8Source { have: usize, want: usize },
    F32Q8Blocks { elems: usize },
    SliceQ8Blocks { elems: usize },
    SliceLength { have: usize, total: usize },
    SliceFused {
        world: u32,
        num_v_heads: u32,
        num_k_heads: u32,
        head_v_dim: u32,
        head_k_dim: u32,
        kq_replicated: bool,
    },
    SliceAxis { axis: usize },
    SliceIndivisible { axis: usize, len: usize, world: usize },
    SuperBlocks { name: String, rank: u32, elems: usize },
    NoLayout { name: String },
    /// The file has no tensor of that name.
    NoInfo { name: String },
    EmptySlice { name: String, rank: u32 },
}

impl LoadError {
    /// What `message` says, where `dims` are those of the tensor.
    pub open spec fn spec_message(&self, dims: Seq<u64>) -> Seq<char> {
        match self {
            LoadError::AssignedLayers { have, want } => "assignment.num_layers="@
                + dec(*have as nat)
                + " != cfg.num_layers="@
                + dec(*want as nat),
            LoadError::AssignedRanks { have, ranks } => "assignment.num_ranks="@
                + dec(*have as nat)
                + " != cluster.ranks="@
                + dec(*ranks as nat),
            LoadError::ShortSlice { name, have, want } => "tensor `"@
                + name@
                + "` mmap slice "@
                + dec(*have as nat)
                + " < declared size "@
                + dec(*want as nat),
            LoadError::F16Dtype { name, dtype } => "upload_as_f16: tensor `"@
                + name@
                + "` has unsupported source dtype "@
                + dtype.spec_text(),
            LoadError::F16Short { name, have, want } => "upload_as_f16: `"@
                + name@
                + "` mmap slice "@
                + dec(*have as nat)
                + " < expected "@
                + dec(*want as nat),
            LoadError::Q8Dtype { name, dtype } => "upload_as_q8_0: tensor `"@
                + name@
                + "` has unsupported source dtype "@
                + dtype.spec_text(),
            LoadError::Q8Short { name, have, want } => "upload_as_q8_0: `"@
                + name@
                + "` mmap slice "@
                + dec(*have as nat)
                + " < expected "@
                + dec(*want as nat),
            LoadError::Q8Blocks { name, elems } => "upload_as_q8_0: `"@
                + name@
                + "` elem count "@
                + dec(*elems as nat)
                + " not multiple of QK8_0=32"@,
            LoadError::Bf16Short { name, have, want, elems } => "upload_bf16_as_q8_0: `"@
                + name@
                + "` mmap slice "@
                + dec(*have as nat)
                + " < expected "@
                + dec(*want as nat)
                + " ("@
                + dec(*elems as nat)
                + " elems × 2)"@,
            LoadError::Bf16Blocks { name, elems } => "upload_bf16_as_q8_0: `"@
                + name@
                + "` elem count "@
                + dec(*elems as nat)
                + " not multiple of QK8_0=32"@,
            LoadError::Mxfp4Blocks { name, elems } => "upload_mxfp4_as_q8_0: `"@
                + name@
                + "` elem count "@
                + dec(*elems as nat)
                + " not multiple of QK8_0=32"@,
            LoadError::Mxfp4Short { name, have, want } => "upload_mxfp4_as_q8_0: `"@
                + name@
                + "` mmap slice "@
                + dec(*have as nat)
                + " < expected "@
                + dec(*want as nat),
            LoadError::Q41Blocks { name, elems } => "upload_q4_1_as_q8_0: `"@
                + name@
                + "` elem count "@
                + dec(*elems as nat)
                + " not multiple of QK4_1=32"@,
            LoadError::Q41Short { name, have, want } => "upload_q4_1_as_q8_0: `"@
                + name@
                + "` mmap slice "@
                + dec(*have as nat)
                + " < expected "@
                + dec(*want as nat),
            LoadError::BaDims { name } => "split_ssm_ba_to_q8_0: `"@
                + name@
                + "` expected 2D `[2*num_v_heads, hidden]`, got "@
                + dims_text(dims),
            LoadError::BaNoGdn { arch } => "split_ssm_ba_to_q8_0: cfg.gdn is None for arch \""@
                + arch@
                + "\" — fused ssm_ba.weight present without GDN dims"@,
            LoadError::BaRows { name, rows, want } => "split_ssm_ba_to_q8_0: `"@
                + name@
                + "` rows "@
                + dec(*rows as nat)
                + " != 2*num_v_heads="@
                + dec(*want as nat),
            LoadError::BaHeads { num_v_heads, num_k_heads } => "split_ssm_ba_to_q8_0: num_v_heads "@
                + dec(*num_v_heads as nat)
                + " not divisible by num_k_heads "@
                + dec(*num_k_heads as nat),
            LoadError::BaCols { name, cols } => "split_ssm_ba_to_q8_0: `"@
                + name@
                + "` cols "@
                + dec(*cols as nat)
                + " not multiple of QK8_0=32"@,
            LoadError::BaName { name } => "split_ssm_ba: name `"@
                + name@
                + "` doesn't end with .ssm_ba.weight"@,
            LoadError::TpBaDims { name } => "upload_tp_ssm_ba_split: `"@
                + name@
                + "` expected 2D [2*num_v_heads, hidden], got "@
                + dims_text(dims),
            LoadError::TpBaNoGdn { arch } => "upload_tp_ssm_ba_split: cfg.gdn is None for arch "@
                + arch@
                + " — fused ssm_ba.weight present without GDN dims"@,
            LoadError::TpBaRows { name, rows, want } => "upload_tp_ssm_ba_split: `"@
                + name@
                + "` rows "@
                + dec(*rows as nat)
                + " != 2*num_v_heads="@
                + dec(*want as nat),
            LoadError::TpBaWorld { num_v_heads, world } => "upload_tp_ssm_ba_split: num_v_heads "@
                + dec(*num_v_heads as nat)
                + " not divisible by world "@
                + dec(*world as nat),
            LoadError::TpBaHeads {
                num_v_heads,
                num_k_heads,
            } => "upload_tp_ssm_ba_split: num_v_heads "@
                + dec(*num_v_heads as nat)
                + " not divisible by num_k_heads "@
                + dec(*num_k_heads as nat),
            LoadError::TpBaCols { cols } => "upload_tp_ssm_ba_split: cols "@
                + dec(*cols as nat)
                + " not multiple of QK8_0=32"@,
            LoadError::TpBaName { name } => "upload_tp_ssm_ba_split: name `"@
                + name@
                + "` doesn't end with .ssm_ba.weight"@,
            LoadError::RankCount { ranks, world } => "cluster has "@
                + dec(*ranks as nat)
                + " ranks, tp expects world="@
                + dec(*world as nat),
            LoadError::LayerRange { start, end, num_layers } => "TpLoadOpts.layer_range "@
                + dec(*start as nat)
                + ".."@
                + dec(*end as nat)
                + " out of range for num_layers="@
                + dec(*num_layers as nat),
            LoadError::SharedFallback { layer } => "fallback engaged on layer "@
                + dec(*layer as nat)
                + " (K-quant MoE expert misalignment) but model has a shared expert; that combination requires per-layer mixed-mode AR which is not yet implemented. Run with --mesh-mode pp instead, or use a Q4_0/Q4_1 quant of the model whose MoE expert dims align under the requested TP world."@,
            LoadError::F32Source { have, want } => "convert_f32_to_f16: src "@
                + dec(*have as nat)
                + " < elems*4 ("@
                + dec(*want as nat)
                + ")"@,
            LoadError::Bf16Source { have, want } => "quantize_bf16_to_q8_0: src "@
                + dec(*have as nat)
                + " < elems*2 ("@
                + dec(*want as nat)
                + ")"@,
            LoadError::Bf16SourceBlocks { elems } => "quantize_bf16_to_q8_0: elems "@
                + dec(*elems as nat)
                + " not multiple of QK8_0=32"@,
            LoadError::F32Q8Source { have, want } => "quantize_f32_to_q8_0: src "@
                + dec(*have as nat)
                + " < elems*4 ("@
                + dec(*want as nat)
                + ")"@,
            LoadError::F32Q8Blocks { elems } => "quantize_f32_to_q8_0: elems "@
                + dec(*elems as nat)
                + " not multiple of QK8_0=32"@,
            LoadError::SliceQ8Blocks { elems } => "quantize_f32_slice_to_q8_0: elems "@
                + dec(*elems as nat)
                + " not multiple of QK8_0=32"@,
            LoadError::SliceLength { have, total } => "slice_f32_for_tp: f32s.len="@
                + dec(*have as nat)
                + " != prod(dims)="@
                + dec(*total as nat),
            LoadError::SliceFused {
                world,
                num_v_heads,
                num_k_heads,
                head_v_dim,
                head_k_dim,
                kq_replicated,
            } => "slice_f32_for_tp: layout FusedQkvParallel { world: "@
                + dec(*world as nat)
                + ", num_v_heads: "@
                + dec(*num_v_heads as nat)
                + ", num_k_heads: "@
                + dec(*num_k_heads as nat)
                + ", head_v_dim: "@
                + dec(*head_v_dim as nat)
                + ", head_k_dim: "@
                + dec(*head_k_dim as nat)
                + ", kq_replicated: "@
                + bool_text(*kq_replicated)
                + " } not supported (Replicated / Col / RowParallel)"@,
            LoadError::SliceAxis { axis } => "slice_f32_for_tp: axis "@
                + dec(*axis as nat)
                + " out of bounds for dims "@
                + dims_text(dims),
            LoadError::SliceIndivisible { axis, len, world } => "slice_f32_for_tp: dims["@
                + dec(*axis as nat)
                + "]="@
                + dec(*len as nat)
                + " not divisible by world "@
                + dec(*world as nat),
            LoadError::SuperBlocks { name, rank, elems } => "`"@
                + name@
                + "` rank="@
                + dec(*rank as nat)
                + " elem "@
                + dec(*elems as nat)
                + " not multiple of QK_K"@,
            LoadError::NoLayout { name } => "no TP layout entry for tensor `"@
                + name@
                + "`"@,
            LoadError::NoInfo { name } => "info `"@ + name@ + "`"@,
            LoadError::EmptySlice { name, rank } => "empty slice for tensor `"@
                + name@
                + "` rank="@
                + dec(*rank as nat),
        }
    }

    /// The error as a sentence. `dims` are those of the tensor it is about.
    pub fn message(&self, dims: &Vec<u64>) -> (r: String)
        ensures
            r@ == self.spec_message(dims@),
    {
        match self {
            LoadError::AssignedLayers { have, want } => {
                let mut s = owned("assignment.num_layers=");
                push_dec(&mut s, *have as u64);
                s.append(" != cfg.num_layers=");
                push_dec(&mut s, *want as u64);
                s
            },
            LoadError::AssignedRanks { have, ranks } => {
                let mut s = owned("assignment.num_ranks=");
                push_dec(&mut s, *have as u64);
                s.append(" != cluster.ranks=");
                push_dec(&mut s, *ranks as u64);
                s
            },
            LoadError::ShortSlice { name, have, want } => {
                let mut s = owned("tensor `");
                s.append(name.as_str());
                s.append("` mmap slice ");
                push_dec(&mut s, *have as u64);
                s.append(" < declared size ");
                push_dec(&mut s, *want as u64);
                s
            },
            LoadError::F16Dtype { name, dtype } => {
                let mut s = owned("upload_as_f16: tensor `");
                s.append(name.as_str());
                s.append("` has unsupported source dtype ");
                s.append(dtype.text());
                s
            },
            LoadError::F16Short { name, have, want } => {
                let mut s = owned("upload_as_f16: `");
                s.append(name.as_str());
                s.append("` mmap slice ");
                push_dec(&mut s, *have as u64);
                s.append(" < expected ");
                push_dec(&mut s, *want as u64);
                s
            },
            LoadError::Q8Dtype { name, dtype } => {
                let mut s = owned("upload_as_q8_0: tensor `");
                s.append(name.as_str());
                s.append("` has unsupported source dtype ");
                s.append(dtype.text());
                s
            },
            LoadError::Q8Short { name, have, want } => {
                let mut s = owned("upload_as_q8_0: `");
                s.append(name.as_str());
                s.append("` mmap slice ");
                push_dec(&mut s, *have as u64);
                s.append(" < expected ");
                push_dec(&mut s, *want as u64);
                s
            },
            LoadError::Q8Blocks { name, elems } => {
                let mut s = owned("upload_as_q8_0: `");
                s.append(name.as_str());
                s.append("` elem count ");
                push_dec(&mut s, *elems as u64);
                s.append(" not multiple of QK8_0=32");
                s
            },
            LoadError::Bf16Short { name, have, want, elems } => {
                let mut s = owned("upload_bf16_as_q8_0: `");
                s.append(name.as_str());
                s.append("` mmap slice ");
                push_dec(&mut s, *have as u64);
                s.append(" < expected ");
                push_dec(&mut s, *want as u64);
                s.append(" (");
                push_dec(&mut s, *elems as u64);
                s.append(" elems × 2)");
                s
            },
            LoadError::Bf16Blocks { name, elems } => {
                let mut s = owned("upload_bf16_as_q8_0: `");
                s.append(name.as_str());
                s.append("` elem count ");
                push_dec(&mut s, *elems as u64);
                s.append(" not multiple of QK8_0=32");
                s
            },
            LoadError::Mxfp4Blocks { name, elems } => {
                let mut s = owned("upload_mxfp4_as_q8_0: `");
                s.append(name.as_str());
                s.append("` elem count ");
                push_dec(&mut s, *elems as u64);
                s.append(" not multiple of QK8_0=32");
                s
            },
            LoadError::Mxfp4Short { name, have, want } => {
                let mut s = owned("upload_mxfp4_as_q8_0: `");
                s.append(name.as_str());
                s.append("` mmap slice ");
                push_dec(&mut s, *have as u64);
                s.append(" < expected ");
                push_dec(&mut s, *want as u64);
                s
            },
            LoadError::Q41Blocks { name, elems } => {
                let mut s = owned("upload_q4_1_as_q8_0: `");
                s.append(name.as_str());
                s.append("` elem count ");
                push_dec(&mut s, *elems as u64);
                s.append(" not multiple of QK4_1=32");
                s
            },
            LoadError::Q41Short { name, have, want } => {
                let mut s = owned("upload_q4_1_as_q8_0: `");
                s.append(name.as_str());
                s.append("` mmap slice ");
                push_dec(&mut s, *have as u64);
                s.append(" < expected ");
                push_dec(&mut s, *want as u64);
                s
            },
            LoadError::BaDims { name } => {
                let mut s = owned("split_ssm_ba_to_q8_0: `");
                s.append(name.as_str());
                s.append("` expected 2D `[2*num_v_heads, hidden]`, got ");
                push_dims(&mut s, dims);
                s
            },
            LoadError::BaNoGdn { arch } => {
                let mut s = owned("split_ssm_ba_to_q8_0: cfg.gdn is None for arch \"");
                s.append(arch.as_str());
                s.append("\" — fused ssm_ba.weight present without GDN dims");
                s
            },
            LoadError::BaRows { name, rows, want } => {
                let mut s = owned("split_ssm_ba_to_q8_0: `");
                s.append(name.as_str());
                s.append("` rows ");
                push_dec(&mut s, *rows as u64);
                s.append(" != 2*num_v_heads=");
                push_dec(&mut s, *want as u64);
                s
            },
            LoadError::BaHeads { num_v_heads, num_k_heads } => {
                let mut s = owned("split_ssm_ba_to_q8_0: num_v_heads ");
                push_dec(&mut s, *num_v_heads as u64);
                s.append(" not divisible by num_k_heads ");
                push_dec(&mut s, *num_k_heads as u64);
                s
            },
            LoadError::BaCols { name, cols } => {
                let mut s = owned("split_ssm_ba_to_q8_0: `");
                s.append(name.as_str());
                s.append("` cols ");
                push_dec(&mut s, *cols as u64);
                s.append(" not multiple of QK8_0=32");
                s
            },
            LoadError::BaName { name } => {
                let mut s = owned("split_ssm_ba: name `");
                s.append(name.as_str());
                s.append("` doesn't end with .ssm_ba.weight");
                s
            },
            LoadError::TpBaDims { name } => {
                let mut s = owned("upload_tp_ssm_ba_split: `");
                s.append(name.as_str());
                s.append("` expected 2D [2*num_v_heads, hidden], got ");
                push_dims(&mut s, dims);
                s
            },
            LoadError::TpBaNoGdn { arch } => {
                let mut s = owned("upload_tp_ssm_ba_split: cfg.gdn is None for arch ");
                s.append(arch.as_str());
                s.append(" — fused ssm_ba.weight present without GDN dims");
                s
            },
            LoadError::TpBaRows { name, rows, want } => {
                let mut s = owned("upload_tp_ssm_ba_split: `");
                s.append(name.as_str());
                s.append("` rows ");
                push_dec(&mut s, *rows as u64);
                s.append(" != 2*num_v_heads=");
                push_dec(&mut s, *want as u64);
                s
            },
            LoadError::TpBaWorld { num_v_heads, world } => {
                let mut s = owned("upload_tp_ssm_ba_split: num_v_heads ");
                push_dec(&mut s, *num_v_heads as u64);
                s.append(" not divisible by world ");
                push_dec(&mut s, *world as u64);
                s
            },
            LoadError::TpBaHeads { num_v_heads, num_k_heads } => {
                let mut s = owned("upload_tp_ssm_ba_split: num_v_heads ");
                push_dec(&mut s, *num_v_heads as u64);
                s.append(" not divisible by num_k_heads ");
                push_dec(&mut s, *num_k_heads as u64);
                s
            },
            LoadError::TpBaCols { cols } => {
                let mut s = owned("upload_tp_ssm_ba_split: cols ");
                push_dec(&mut s, *cols as u64);
                s.append(" not multiple of QK8_0=32");
                s
            },
            LoadError::TpBaName { name } => {
                let mut s = owned("upload_tp_ssm_ba_split: name `");
                s.append(name.as_str());
                s.append("` doesn't end with .ssm_ba.weight");
                s
            },
            LoadError::RankCount { ranks, world } => {
                let mut s = owned("cluster has ");
                push_dec(&mut s, *ranks as u64);
                s.append(" ranks, tp expects world=");
                push_dec(&mut s, *world as u64);
                s
            },
            LoadError::LayerRange { start, end, num_layers } => {
                let mut s = owned("TpLoadOpts.layer_range ");
                push_dec(&mut s, *start as u64);
                s.append("..");
                push_dec(&mut s, *end as u64);
                s.append(" out of range for num_layers=");
                push_dec(&mut s, *num_layers as u64);
                s
            },
            LoadError::SharedFallback { layer } => {
                let mut s = owned("fallback engaged on layer ");
                push_dec(&mut s, *layer as u64);
                s.append(" (K-quant MoE expert misalignment) but model has a shared expert; that combination requires per-layer mixed-mode AR which is not yet implemented. Run with --mesh-mode pp instead, or use a Q4_0/Q4_1 quant of the model whose MoE expert dims align under the requested TP world.");
                s
            },
            LoadError::F32Source { have, want } => {
                let mut s = owned("convert_f32_to_f16: src ");
                push_dec(&mut s, *have as u64);
                s.append(" < elems*4 (");
                push_dec(&mut s, *want as u64);
                s.append(")");
                s
            },
            LoadError::Bf16Source { have, want } => {
                let mut s = owned("quantize_bf16_to_q8_0: src ");
                push_dec(&mut s, *have as u64);
                s.append(" < elems*2 (");
                push_dec(&mut s, *want as u64);
                s.append(")");
                s
            },
            LoadError::Bf16SourceBlocks { elems } => {
                let mut s = owned("quantize_bf16_to_q8_0: elems ");
                push_dec(&mut s, *elems as u64);
                s.append(" not multiple of QK8_0=32");
                s
            },
            LoadError::F32Q8Source { have, want } => {
                let mut s = owned("quantize_f32_to_q8_0: src ");
                push_dec(&mut s, *have as u64);
                s.append(" < elems*4 (");
                push_dec(&mut s, *want as u64);
                s.append(")");
                s
            },
            LoadError::F32Q8Blocks { elems } => {
                let mut s = owned("quantize_f32_to_q8_0: elems ");
                push_dec(&mut s, *elems as u64);
                s.append(" not multiple of QK8_0=32");
                s
            },
            LoadError::SliceQ8Blocks { elems } => {
                let mut s = owned("quantize_f32_slice_to_q8_0: elems ");
                push_dec(&mut s, *elems as u64);
                s.append(" not multiple of QK8_0=32");
                s
            },
            LoadError::SliceLength { have, total } => {
                let mut s = owned("slice_f32_for_tp: f32s.len=");
                push_dec(&mut s, *have as u64);
                s.append(" != prod(dims)=");
                push_dec(&mut s, *total as u64);
                s
            },
            LoadError::SliceFused {
                world,
                num_v_heads,
                num_k_heads,
                head_v_dim,
                head_k_dim,
                kq_replicated,
            } => {
                let mut s = owned("slice_f32_for_tp: layout FusedQkvParallel { world: ");
                push_dec(&mut s, *world as u64);
                s.append(", num_v_heads: ");
                push_dec(&mut s, *num_v_heads as u64);
                s.append(", num_k_heads: ");
                push_dec(&mut s, *num_k_heads as u64);
                s.append(", head_v_dim: ");
                push_dec(&mut s, *head_v_dim as u64);
                s.append(", head_k_dim: ");
                push_dec(&mut s, *head_k_dim as u64);
                s.append(", kq_replicated: ");
                s.append(bool_str(*kq_replicated));
                s.append(" } not supported (Replicated / Col / RowParallel)");
                s
            },
            LoadError::SliceAxis { axis } => {
                let mut s = owned("slice_f32_for_tp: axis ");
                push_dec(&mut s, *axis as u64);
                s.append(" out of bounds for dims ");
                push_dims(&mut s, dims);
                s
            },
            LoadError::SliceIndivisible { axis, len, world } => {
                let mut s = owned("slice_f32_for_tp: dims[");
                push_dec(&mut s, *axis as u64);
                s.append("]=");
                push_dec(&mut s, *len as u64);
                s.append(" not divisible by world ");
                push_dec(&mut s, *world as u64);
                s
            },
            LoadError::SuperBlocks { name, rank, elems } => {
                let mut s = owned("`");
                s.append(name.as_str());
                s.append("` rank=");
                push_dec(&mut s, *rank as u64);
                s.append(" elem ");
                push_dec(&mut s, *elems as u64);
                s.append(" not multiple of QK_K");
                s
            },
            LoadError::NoLayout { name } => {
                let mut s = owned("no TP layout entry for tensor `");
                s.append(name.as_str());
                s.append("`");
                s
            },
            LoadError::NoInfo { name } => {
                let mut s = owned("info `");
                s.append(name.as_str());
                s.append("`");
                s
            },
            LoadError::EmptySlice { name, rank } => {
                let mut s = owned("empty slice for tensor `");
                s.append(name.as_str());
                s.append("` rank=");
                push_dec(&mut s, *rank as u64);
                s
            },
        }
    }
}

} // verus!
