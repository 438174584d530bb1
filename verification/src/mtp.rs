//! The multi-token-prediction head: a single transformer block that drafts the
//! token after the next one. Its tensors come from the base file or from a
//! sibling file beside it.

use crate::config::Qwen3MoEConfig;
use crate::device::{DevicePtr, Free};
use crate::layout::TensorDirectory;
use crate::paths::{after_last, join, parent, path_join, path_parent, path_stem, stem};
use crate::plan::{done, each, fail, lemma_each_stops, lemma_ran_then2, ran, Run};
use crate::tensor::{GgmlDType, TensorInfo};
use crate::text::{all_digits, dec, is_digit, owned, push_dec, str_eq};
use crate::upload::{copy_dims, find_ptr, ptr_of, PlacedTensor};
use crate::weights::DeviceTensor;
use vstd::prelude::*;

verus! {

/// The tensors of an MTP head.
#[derive(Debug, Clone, Copy, PartialEq, Eq, Structural)]
pub enum MtpTensor {
    Fc,
    Norm,
    PreFcNormEmbedding,
    PreFcNormHidden,
    InputLayernorm,
    PostAttentionLayernorm,
    QProj,
    KProj,
    VProj,
    OProj,
    QNorm,
    KNorm,
    GateProj,
    UpProj,
    DownProj,
}

impl MtpTensor {
    /// The name of the tensor in the file.
    pub open spec fn spec_text(self) -> Seq<char> {
        match self {
            MtpTensor::Fc => "mtp.fc.weight"@,
            MtpTensor::Norm => "mtp.norm.weight"@,
            MtpTensor::PreFcNormEmbedding => "mtp.pre_fc_norm_embedding.weight"@,
            MtpTensor::PreFcNormHidden => "mtp.pre_fc_norm_hidden.weight"@,
            MtpTensor::InputLayernorm => "mtp.layers.0.input_layernorm.weight"@,
            MtpTensor::PostAttentionLayernorm => "mtp.layers.0.post_attention_layernorm.weight"@,
            MtpTensor::QProj => "mtp.layers.0.self_attn.q_proj.weight"@,
            MtpTensor::KProj => "mtp.layers.0.self_attn.k_proj.weight"@,
            MtpTensor::VProj => "mtp.layers.0.self_attn.v_proj.weight"@,
            MtpTensor::OProj => "mtp.layers.0.self_attn.o_proj.weight"@,
            MtpTensor::QNorm => "mtp.layers.0.self_attn.q_norm.weight"@,
            MtpTensor::KNorm => "mtp.layers.0.self_attn.k_norm.weight"@,
            MtpTensor::GateProj => "mtp.layers.0.mlp.gate_proj.weight"@,
            MtpTensor::UpProj => "mtp.layers.0.mlp.up_proj.weight"@,
            MtpTensor::DownProj => "mtp.layers.0.mlp.down_proj.weight"@,
        }
    }

    /// The name of the tensor in the file.
    pub fn text(self) -> (r: &'static str)
        ensures
            r@ == self.spec_text(),
    {
        match self {
            MtpTensor::Fc => "mtp.fc.weight",
            MtpTensor::Norm => "mtp.norm.weight",
            MtpTensor::PreFcNormEmbedding => "mtp.pre_fc_norm_embedding.weight",
            MtpTensor::PreFcNormHidden => "mtp.pre_fc_norm_hidden.weight",
            MtpTensor::InputLayernorm => "mtp.layers.0.input_layernorm.weight",
            MtpTensor::PostAttentionLayernorm => "mtp.layers.0.post_attention_layernorm.weight",
            MtpTensor::QProj => "mtp.layers.0.self_attn.q_proj.weight",
            MtpTensor::KProj => "mtp.layers.0.self_attn.k_proj.weight",
            MtpTensor::VProj => "mtp.layers.0.self_attn.v_proj.weight",
            MtpTensor::OProj => "mtp.layers.0.self_attn.o_proj.weight",
            MtpTensor::QNorm => "mtp.layers.0.self_attn.q_norm.weight",
            MtpTensor::KNorm => "mtp.layers.0.self_attn.k_norm.weight",
            MtpTensor::GateProj => "mtp.layers.0.mlp.gate_proj.weight",
            MtpTensor::UpProj => "mtp.layers.0.mlp.up_proj.weight",
            MtpTensor::DownProj => "mtp.layers.0.mlp.down_proj.weight",
        }
    }
}

/// The names of the tensors that a head must have.
pub const MTP_TENSOR_NAMES: [&'static str; 15] = [
    "mtp.fc.weight",
    "mtp.norm.weight",
    "mtp.pre_fc_norm_embedding.weight",
    "mtp.pre_fc_norm_hidden.weight",
    "mtp.layers.0.input_layernorm.weight",
    "mtp.layers.0.post_attention_layernorm.weight",
    "mtp.layers.0.self_attn.q_proj.weight",
    "mtp.layers.0.self_attn.k_proj.weight",
    "mtp.layers.0.self_attn.v_proj.weight",
    "mtp.layers.0.self_attn.o_proj.weight",
    "mtp.layers.0.self_attn.q_norm.weight",
    "mtp.layers.0.self_attn.k_norm.weight",
    "mtp.layers.0.mlp.gate_proj.weight",
    "mtp.layers.0.mlp.up_proj.weight",
    "mtp.layers.0.mlp.down_proj.weight",
];

/// The tensors of a head, in the order in which they are loaded.
pub open spec fn load_order() -> Seq<MtpTensor> {
    seq![
        MtpTensor::Fc,
        MtpTensor::Norm,
        MtpTensor::PreFcNormHidden,
        MtpTensor::PreFcNormEmbedding,
        MtpTensor::InputLayernorm,
        MtpTensor::PostAttentionLayernorm,
        MtpTensor::QProj,
        MtpTensor::KProj,
        MtpTensor::VProj,
        MtpTensor::OProj,
        MtpTensor::QNorm,
        MtpTensor::KNorm,
        MtpTensor::GateProj,
        MtpTensor::UpProj,
        MtpTensor::DownProj,
    ]
}

/// The tensors of a head, in the order in which they are loaded.
pub fn mtp_load_order() -> (v: Vec<MtpTensor>)
    ensures
        v@ == load_order(),
{
    let mut v: Vec<MtpTensor> = Vec::new();
    v.push(MtpTensor::Fc);
    v.push(MtpTensor::Norm);
    v.push(MtpTensor::PreFcNormHidden);
    v.push(MtpTensor::PreFcNormEmbedding);
    v.push(MtpTensor::InputLayernorm);
    v.push(MtpTensor::PostAttentionLayernorm);
    v.push(MtpTensor::QProj);
    v.push(MtpTensor::KProj);
    v.push(MtpTensor::VProj);
    v.push(MtpTensor::OProj);
    v.push(MtpTensor::QNorm);
    v.push(MtpTensor::KNorm);
    v.push(MtpTensor::GateProj);
    v.push(MtpTensor::UpProj);
    v.push(MtpTensor::DownProj);
    proof {
        assert(v@ =~= load_order());
    }
    v
}

/// Why an MTP head cannot be loaded or run.
#[derive(Debug, Clone, PartialEq, Eq)]
pub enum MtpError {
    /// The file is for another architecture.
    Arch { mtp: String, base: String },
    /// The head was made for another architecture.
    TargetArch { target: String, base: String },
    /// The head was made for another hidden size.
    TargetHidden { target: u32, base: usize },
    /// The head was made for another vocabulary.
    TargetVocab { target: u32, base: usize },
    /// A tensor is not in the file.
    Missing { tensor: MtpTensor },
    /// A tensor has a type that a head cannot have.
    Dtype { tensor: MtpTensor, dtype: GgmlDType },
    /// The file ends within a tensor of singles.
    SinglesShort { tensor: MtpTensor, have: usize, elems: usize },
    /// The file ends within a tensor of halves.
    HalvesShort { tensor: MtpTensor, have: usize, elems: usize },
    /// The file ends within a tensor.
    Short { tensor: MtpTensor, have: usize, bytes: usize },
    /// A tensor cannot be stored as bfloat16.
    Bf16Linear { tensor: MtpTensor, dtype: GgmlDType },
    /// No kernel multiplies by a tensor of that type.
    LinearDtype { name: String, dtype: GgmlDType },
    /// No kernel multiplies by an LM head of that type.
    HeadDtype { dtype: GgmlDType },
}

impl MtpError {
    /// What `message` says.
    pub open spec fn spec_message(&self) -> Seq<char> {
        match self {
            MtpError::Arch { mtp, base } => "MTP file arch `"@
                + mtp@
                + "` does not match base `"@
                + base@
                + "` (expected `"@
                + base@
                + "-mtp` for thin sibling, or `"@
                + base@
                + "` for integrated)"@,
            MtpError::TargetArch { target, base } => "MTP target_arch `"@
                + target@
                + "` mismatches base arch `"@
                + base@
                + "` — re-run convert_qwen36_mtp.py with the matching base"@,
            MtpError::TargetHidden { target, base } => "MTP target_hidden_size "@
                + dec(*target as nat)
                + " != base hidden_size "@
                + dec(*base as nat),
            MtpError::TargetVocab { target, base } => "MTP target_vocab_size "@
                + dec(*target as nat)
                + " != base vocab_size "@
                + dec(*base as nat),
            MtpError::Missing { tensor } => "MTP tensor `"@
                + tensor.spec_text()
                + "` not present in GGUF"@,
            MtpError::Dtype { tensor, dtype } => "MTP tensor `"@
                + tensor.spec_text()
                + "` has unexpected dtype "@
                + dtype.spec_text(),
            MtpError::SinglesShort { tensor, have, elems } => "MTP tensor `"@
                + tensor.spec_text()
                + "` F32 mmap slice "@
                + dec(*have as nat)
                + " < "@
                + dec(*elems as nat)
                + "*4 B"@,
            MtpError::HalvesShort { tensor, have, elems } => "MTP tensor `"@
                + tensor.spec_text()
                + "` F16 mmap slice "@
                + dec(*have as nat)
                + " < "@
                + dec(*elems as nat)
                + "*2 B"@,
            MtpError::Short { tensor, have, bytes } => "MTP tensor `"@
                + tensor.spec_text()
                + "` mmap slice "@
                + dec(*have as nat)
                + " < declared "@
                + dec(*bytes as nat),
            MtpError::Bf16Linear { tensor, dtype } => "MTP linear `"@
                + tensor.spec_text()
                + "` dtype "@
                + dtype.spec_text()
                + " not supported by load_mtp_head_bf16 (need F16 — re-run convert_qwen36_mtp.py with MTP_LINEAR_DTYPE=f16)"@,
            MtpError::LinearDtype { name, dtype } => "MTP linear `"@
                + name@
                + "` has unsupported dtype "@
                + dtype.spec_text(),
            MtpError::HeadDtype { dtype } => "unsupported lm_head dtype "@
                + dtype.spec_text()
                + " for MTP probe"@,
        }
    }

    /// The error as a sentence.
    pub fn message(&self) -> (r: String)
        ensures
            r@ == self.spec_message(),
    {
        match self {
            MtpError::Arch { mtp, base } => {
                let mut s = owned("MTP file arch `");
                s.append(mtp.as_str());
                s.append("` does not match base `");
                s.append(base.as_str());
                s.append("` (expected `");
                s.append(base.as_str());
                s.append("-mtp` for thin sibling, or `");
                s.append(base.as_str());
                s.append("` for integrated)");
                s
            },
            MtpError::TargetArch { target, base } => {
                let mut s = owned("MTP target_arch `");
                s.append(target.as_str());
                s.append("` mismatches base arch `");
                s.append(base.as_str());
                s.append("` — re-run convert_qwen36_mtp.py with the matching base");
                s
            },
            MtpError::TargetHidden { target, base } => {
                let mut s = owned("MTP target_hidden_size ");
                push_dec(&mut s, *target as u64);
                s.append(" != base hidden_size ");
                push_dec(&mut s, *base as u64);
                s
            },
            MtpError::TargetVocab { target, base } => {
                let mut s = owned("MTP target_vocab_size ");
                push_dec(&mut s, *target as u64);
                s.append(" != base vocab_size ");
                push_dec(&mut s, *base as u64);
                s
            },
            MtpError::Missing { tensor } => {
                let mut s = owned("MTP tensor `");
                s.append(tensor.text());
                s.append("` not present in GGUF");
                s
            },
            MtpError::Dtype { tensor, dtype } => {
                let mut s = owned("MTP tensor `");
                s.append(tensor.text());
                s.append("` has unexpected dtype ");
                s.append(dtype.text());
                s
            },
            MtpError::SinglesShort { tensor, have, elems } => {
                let mut s = owned("MTP tensor `");
                s.append(tensor.text());
                s.append("` F32 mmap slice ");
                push_dec(&mut s, *have as u64);
                s.append(" < ");
                push_dec(&mut s, *elems as u64);
                s.append("*4 B");
                s
            },
            MtpError::HalvesShort { tensor, have, elems } => {
                let mut s = owned("MTP tensor `");
                s.append(tensor.text());
                s.append("` F16 mmap slice ");
                push_dec(&mut s, *have as u64);
                s.append(" < ");
                push_dec(&mut s, *elems as u64);
                s.append("*2 B");
                s
            },
            MtpError::Short { tensor, have, bytes } => {
                let mut s = owned("MTP tensor `");
                s.append(tensor.text());
                s.append("` mmap slice ");
                push_dec(&mut s, *have as u64);
                s.append(" < declared ");
                push_dec(&mut s, *bytes as u64);
                s
            },
            MtpError::Bf16Linear { tensor, dtype } => {
                let mut s = owned("MTP linear `");
                s.append(tensor.text());
                s.append("` dtype ");
                s.append(dtype.text());
                s.append(" not supported by load_mtp_head_bf16 (need F16 — re-run convert_qwen36_mtp.py with MTP_LINEAR_DTYPE=f16)");
                s
            },
            MtpError::LinearDtype { name, dtype } => {
                let mut s = owned("MTP linear `");
                s.append(name.as_str());
                s.append("` has unsupported dtype ");
                s.append(dtype.text());
                s
            },
            MtpError::HeadDtype { dtype } => {
                let mut s = owned("unsupported lm_head dtype ");
                s.append(dtype.text());
                s.append(" for MTP probe");
                s
            },
        }
    }
}

/// The weights of an MTP head.
#[derive(Debug)]
pub struct MtpHeadWeights {
    /// From the normed embedding and hidden row, side by side, to a hidden row.
    pub fc: DeviceTensor,
    pub norm: DeviceTensor,
    pub pre_fc_norm_hidden: DeviceTensor,
    pub pre_fc_norm_embedding: DeviceTensor,
    pub block: MtpBlockWeights,
}

/// The weights of the transformer block of an MTP head. `q_proj` makes Q and
/// the output gate side by side.
#[derive(Debug)]
pub struct MtpBlockWeights {
    pub input_layernorm: DeviceTensor,
    pub post_attention_layernorm: DeviceTensor,
    pub q_proj: DeviceTensor,
    pub k_proj: DeviceTensor,
    pub v_proj: DeviceTensor,
    pub o_proj: DeviceTensor,
    pub q_norm: DeviceTensor,
    pub k_norm: DeviceTensor,
    pub gate_proj: DeviceTensor,
    pub up_proj: DeviceTensor,
    pub down_proj: DeviceTensor,
}

impl MtpHeadWeights {
    /// Bytes of all tensors.
    pub open spec fn spec_total_bytes(&self) -> int {
        self.fc.bytes
            + self.norm.bytes
            + self.pre_fc_norm_hidden.bytes
            + self.pre_fc_norm_embedding.bytes
            + self.block.input_layernorm.bytes
            + self.block.post_attention_layernorm.bytes
            + self.block.q_proj.bytes
            + self.block.k_proj.bytes
            + self.block.v_proj.bytes
            + self.block.o_proj.bytes
            + self.block.q_norm.bytes
            + self.block.k_norm.bytes
            + self.block.gate_proj.bytes
            + self.block.up_proj.bytes
            + self.block.down_proj.bytes
    }

    /// Bytes of all tensors.
    pub fn total_bytes(&self) -> (r: usize)
        requires
            self.spec_total_bytes() <= usize::MAX,
        ensures
            r == self.spec_total_bytes(),
    {
        self.fc.bytes
            + self.norm.bytes
            + self.pre_fc_norm_hidden.bytes
            + self.pre_fc_norm_embedding.bytes
            + self.block.input_layernorm.bytes
            + self.block.post_attention_layernorm.bytes
            + self.block.q_proj.bytes
            + self.block.k_proj.bytes
            + self.block.v_proj.bytes
            + self.block.o_proj.bytes
            + self.block.q_norm.bytes
            + self.block.k_norm.bytes
            + self.block.gate_proj.bytes
            + self.block.up_proj.bytes
            + self.block.down_proj.bytes
    }
}

/// What the metadata of a file says of the head in it.
#[derive(Debug)]
pub struct MtpMetadata {
    /// Empty where the file does not say.
    pub arch: String,
    pub target_arch: Option<String>,
    pub target_hidden_size: Option<u32>,
    pub target_vocab_size: Option<u32>,
}

/// Why a head does not belong to a base model.
pub open spec fn pairing_error(
    m: &MtpMetadata,
    base_arch: String,
    base_hidden_size: usize,
    base_vocab_size: usize,
) -> Option<MtpError> {
    if m.arch@ != base_arch@ + "-mtp"@ && m.arch@ != base_arch@ {
        Some(MtpError::Arch { mtp: m.arch, base: base_arch })
    } else if m.target_arch matches Some(t) && t@ != base_arch@ {
        Some(MtpError::TargetArch { target: m.target_arch->0, base: base_arch })
    } else if m.target_hidden_size matches Some(t) && t != base_hidden_size {
        Some(MtpError::TargetHidden { target: m.target_hidden_size->0, base: base_hidden_size })
    } else if m.target_vocab_size matches Some(t) && t != base_vocab_size {
        Some(MtpError::TargetVocab { target: m.target_vocab_size->0, base: base_vocab_size })
    } else {
        None
    }
}

/// Whether a head belongs to a base model. What the metadata does not say is
/// not compared.
pub fn verify_pairing(
    m: &MtpMetadata,
    base_arch: &String,
    base_hidden_size: usize,
    base_vocab_size: usize,
) -> (res: Result<(), MtpError>)
    ensures
        res == (match pairing_error(m, *base_arch, base_hidden_size, base_vocab_size) {
            Some(e) => Err::<(), MtpError>(e),
            None => Ok(()),
        }),
{
    let mut thin = owned(base_arch.as_str());
    thin.append("-mtp");
    if !str_eq(m.arch.as_str(), thin.as_str()) && !str_eq(m.arch.as_str(), base_arch.as_str()) {
        return Err(MtpError::Arch { mtp: m.arch.clone(), base: base_arch.clone() });
    }
    if let Some(t) = &m.target_arch {
        if !str_eq(t.as_str(), base_arch.as_str()) {
            return Err(MtpError::TargetArch { target: t.clone(), base: base_arch.clone() });
        }
    }
    if let Some(t) = m.target_hidden_size {
        if t as usize != base_hidden_size {
            return Err(MtpError::TargetHidden { target: t, base: base_hidden_size });
        }
    }
    if let Some(t) = m.target_vocab_size {
        if t as usize != base_vocab_size {
            return Err(MtpError::TargetVocab { target: t, base: base_vocab_size });
        }
    }
    Ok(())
}

/// How the linear tensors of a head are stored.
#[derive(Debug, Clone, Copy, PartialEq, Eq, Structural)]
pub enum MtpPrecision {
    /// As the file has them.
    AsStored,
    /// Halves become bfloat16s.
    Bf16,
}

/// Why a tensor of a head cannot be loaded, `have` bytes of it being in the file.
pub open spec fn tensor_error(
    dir: &TensorDirectory,
    t: MtpTensor,
    have: nat,
    p: MtpPrecision,
) -> Option<MtpError> {
    match dir.spec_info(t.spec_text()) {
        None => Some(MtpError::Missing { tensor: t }),
        Some(info) => {
            let size = info.byte_size();
            if info.dtype == GgmlDType::F32 {
                if have < size / 4 * 4 {
                    Some(
                        MtpError::SinglesShort {
                            tensor: t,
                            have: have as usize,
                            elems: (size / 4) as usize,
                        },
                    )
                } else {
                    None
                }
            } else if p == MtpPrecision::Bf16 {
                if info.dtype != GgmlDType::F16 {
                    Some(MtpError::Bf16Linear { tensor: t, dtype: info.dtype })
                } else if have < size / 2 * 2 {
                    Some(
                        MtpError::HalvesShort {
                            tensor: t,
                            have: have as usize,
                            elems: (size / 2) as usize,
                        },
                    )
                } else {
                    None
                }
            } else if info.dtype != GgmlDType::F16 && info.dtype != GgmlDType::Q8_0 {
                Some(MtpError::Dtype { tensor: t, dtype: info.dtype })
            } else if have < size {
                Some(MtpError::Short { tensor: t, have: have as usize, bytes: size as usize })
            } else {
                None
            }
        },
    }
}

/// The type in which a tensor of a head is stored: norms as F16.
pub open spec fn stored_dtype(info: TensorInfo, p: MtpPrecision) -> GgmlDType {
    if info.dtype == GgmlDType::F32 {
        GgmlDType::F16
    } else if p == MtpPrecision::Bf16 {
        GgmlDType::BF16
    } else {
        info.dtype
    }
}

/// The bytes in which a tensor of a head is stored.
pub open spec fn stored_bytes(info: TensorInfo, p: MtpPrecision) -> nat {
    if info.dtype == GgmlDType::F32 {
        info.byte_size() / 4 * 2
    } else if p == MtpPrecision::Bf16 {
        info.byte_size() / 2 * 2
    } else {
        info.byte_size()
    }
}

fn check_tensor(dir: &TensorDirectory, t: MtpTensor, have: usize, p: MtpPrecision) -> (res: Result<
    (),
    MtpError,
>)
    requires
        dir.wf(),
    ensures
        res == (match tensor_error(dir, t, have as nat, p) {
            Some(e) => Err::<(), MtpError>(e),
            None => Ok(()),
        }),
{
    let info = match dir.info(t.text()) {
        Some(i) => i,
        None => return Err(MtpError::Missing { tensor: t }),
    };
    let size: usize = info.size_in_bytes();
    if info.dtype == GgmlDType::F32 {
        if have < size / 4 * 4 {
            return Err(MtpError::SinglesShort { tensor: t, have, elems: size / 4 });
        }
        return Ok(());
    }
    if p == MtpPrecision::Bf16 {
        if info.dtype != GgmlDType::F16 {
            return Err(MtpError::Bf16Linear { tensor: t, dtype: info.dtype });
        }
        if have < size / 2 * 2 {
            return Err(MtpError::HalvesShort { tensor: t, have, elems: size / 2 });
        }
        return Ok(());
    }
    if info.dtype != GgmlDType::F16 && info.dtype != GgmlDType::Q8_0 {
        return Err(MtpError::Dtype { tensor: t, dtype: info.dtype });
    }
    if have < size {
        return Err(MtpError::Short { tensor: t, have, bytes: size });
    }
    Ok(())
}

/// One tensor of a head on its way to the device.
#[derive(Debug, Clone, Copy, PartialEq, Eq, Structural)]
pub struct MtpUpload {
    pub tensor: MtpTensor,
    pub source: GgmlDType,
    pub dtype: GgmlDType,
    pub bytes: usize,
}

/// Preparing one tensor of a head.
pub open spec fn tensor_run(dir: &TensorDirectory, t: MtpTensor, have: nat, p: MtpPrecision) -> Run<
    MtpUpload,
    MtpError,
> {
    match tensor_error(dir, t, have, p) {
        Some(e) => fail(e),
        None => {
            let info = dir.spec_info(t.spec_text())->0;
            done(
                seq![
                    MtpUpload {
                        tensor: t,
                        source: info.dtype,
                        dtype: stored_dtype(info, p),
                        bytes: stored_bytes(info, p) as usize,
                    },
                ],
            )
        },
    }
}

fn plan_tensor(
    dir: &TensorDirectory,
    t: MtpTensor,
    have: usize,
    p: MtpPrecision,
    out: &mut Vec<MtpUpload>,
) -> (res: Result<(), MtpError>)
    requires
        dir.wf(),
    ensures
        ran(old(out)@, final(out)@, res, tensor_run(dir, t, have as nat, p)),
{
    proof {
        assert(out@ =~= old(out)@ + Seq::<MtpUpload>::empty());
    }
    match check_tensor(dir, t, have, p) {
        Ok(_) => {},
        Err(e) => return Err(e),
    }
    if let Some(info) = dir.info(t.text()) {
        let size: usize = info.size_in_bytes();
        let (dtype, bytes): (GgmlDType, usize) = if info.dtype == GgmlDType::F32 {
            (GgmlDType::F16, size / 4 * 2)
        } else if p == MtpPrecision::Bf16 {
            (GgmlDType::BF16, size / 2 * 2)
        } else {
            (info.dtype, size)
        };
        out.push(MtpUpload { tensor: t, source: info.dtype, dtype, bytes });
        proof {
            assert(out@ =~= old(out)@ + tensor_run(dir, t, have as nat, p).ops);
        }
    }
    Ok(())
}

/// Preparing the tensors of a head, of which the file holds `haves` bytes.
pub open spec fn head_run(dir: &TensorDirectory, haves: Seq<usize>, p: MtpPrecision) -> Run<
    MtpUpload,
    MtpError,
> {
    each(15, |i: int| tensor_run(dir, load_order()[i], haves[i] as nat, p))
}

/// Lists the uploads of a head. It stops at the first tensor that cannot be
/// loaded; the uploads before it are listed.
pub fn plan_mtp_head(
    dir: &TensorDirectory,
    haves: &Vec<usize>,
    p: MtpPrecision,
    out: &mut Vec<MtpUpload>,
) -> (res: Result<(), MtpError>)
    requires
        dir.wf(),
        haves@.len() == 15,
    ensures
        ran(old(out)@, final(out)@, res, head_run(dir, haves@, p)),
{
    let ghost base = out@;
    let ghost f = |i: int| tensor_run(dir, load_order()[i], haves@[i] as nat, p);
    let order = mtp_load_order();
    let mut i: usize = 0;
    proof {
        assert(out@ =~= base + each(0, f).ops);
    }
    while i < 15
        invariant
            i <= 15,
            dir.wf(),
            haves@.len() == 15,
            order@ == load_order(),
            base == old(out)@,
            f == (|i: int| tensor_run(dir, load_order()[i], haves@[i] as nat, p)),
            ran(base, out@, Ok::<(), MtpError>(()), each(i as nat, f)),
        decreases 15 - i,
    {
        let ghost mid = out@;
        match plan_tensor(dir, order[i], haves[i], p, out) {
            Ok(_) => {
                proof {
                    lemma_ran_then2(base, mid, out@, Ok(()), each(i as nat, f), f(i as int));
                }
            },
            Err(e) => {
                proof {
                    lemma_ran_then2(base, mid, out@, Err(e), each(i as nat, f), f(i as int));
                    lemma_each_stops((i + 1) as nat, 15, f);
                }
                return Err(e);
            },
        }
        i = i + 1;
    }
    Ok(())
}

/// A tensor of a head on the device.
pub open spec fn tensor_on_device(
    d: DeviceTensor,
    dir: &TensorDirectory,
    t: MtpTensor,
    p: MtpPrecision,
    placed: Seq<PlacedTensor>,
) -> bool {
    dir.spec_info(t.spec_text()) matches Some(info) && {
        &&& d.name@ == t.spec_text()
        &&& d.dims@ == info.dims@
        &&& d.dtype == stored_dtype(info, p)
        &&& d.bytes == stored_bytes(info, p)
        &&& d.ptr == ptr_of(placed, t.spec_text())
    }
}

fn device_tensor(
    dir: &TensorDirectory,
    t: MtpTensor,
    p: MtpPrecision,
    placed: &Vec<PlacedTensor>,
) -> (r: Result<DeviceTensor, MtpError>)
    requires
        dir.wf(),
    ensures
        match r {
            Ok(d) => tensor_on_device(d, dir, t, p, placed@),
            Err(e) => dir.spec_info(t.spec_text()) is None,
        },
{
    let info = match dir.info(t.text()) {
        Some(i) => i,
        None => return Err(MtpError::Missing { tensor: t }),
    };
    let size: usize = info.size_in_bytes();
    let (dtype, bytes): (GgmlDType, usize) = if info.dtype == GgmlDType::F32 {
        (GgmlDType::F16, size / 4 * 2)
    } else if p == MtpPrecision::Bf16 {
        (GgmlDType::BF16, size / 2 * 2)
    } else {
        (info.dtype, size)
    };
    Ok(
        DeviceTensor {
            ptr: find_ptr(placed, t.text()),
            dtype,
            dims: copy_dims(&info.dims),
            bytes,
            name: owned(t.text()),
        },
    )
}

/// The weights are the tensors of the head.
pub open spec fn head_on_device(
    w: &MtpHeadWeights,
    dir: &TensorDirectory,
    p: MtpPrecision,
    placed: Seq<PlacedTensor>,
) -> bool {
    &&& tensor_on_device(w.fc, dir, MtpTensor::Fc, p, placed)
    &&& tensor_on_device(w.norm, dir, MtpTensor::Norm, p, placed)
    &&& tensor_on_device(w.pre_fc_norm_hidden, dir, MtpTensor::PreFcNormHidden, p, placed)
    &&& tensor_on_device(w.pre_fc_norm_embedding, dir, MtpTensor::PreFcNormEmbedding, p, placed)
    &&& tensor_on_device(w.block.input_layernorm, dir, MtpTensor::InputLayernorm, p, placed)
    &&& tensor_on_device(
        w.block.post_attention_layernorm,
        dir,
        MtpTensor::PostAttentionLayernorm,
        p,
        placed,
    )
    &&& tensor_on_device(w.block.q_proj, dir, MtpTensor::QProj, p, placed)
    &&& tensor_on_device(w.block.k_proj, dir, MtpTensor::KProj, p, placed)
    &&& tensor_on_device(w.block.v_proj, dir, MtpTensor::VProj, p, placed)
    &&& tensor_on_device(w.block.o_proj, dir, MtpTensor::OProj, p, placed)
    &&& tensor_on_device(w.block.q_norm, dir, MtpTensor::QNorm, p, placed)
    &&& tensor_on_device(w.block.k_norm, dir, MtpTensor::KNorm, p, placed)
    &&& tensor_on_device(w.block.gate_proj, dir, MtpTensor::GateProj, p, placed)
    &&& tensor_on_device(w.block.up_proj, dir, MtpTensor::UpProj, p, placed)
    &&& tensor_on_device(w.block.down_proj, dir, MtpTensor::DownProj, p, placed)
}

proof fn lemma_all_present(
    dir: &TensorDirectory,
    haves: Seq<usize>,
    p: MtpPrecision,
    n: nat,
    k: int,
)
    requires
        n <= 15,
        0 <= k < n,
        each(n, |i: int| tensor_run(dir, load_order()[i], haves[i] as nat, p)).err is None,
    ensures
        dir.spec_info(load_order()[k].spec_text()) is Some,
    decreases n,
{
    let f = |i: int| tensor_run(dir, load_order()[i], haves[i] as nat, p);
    if k < n - 1 {
        lemma_all_present(dir, haves, p, (n - 1) as nat, k);
    } else {
        assert(f(k).err is None);
    }
}

fn load_head(
    dir: &TensorDirectory,
    haves: &Vec<usize>,
    p: MtpPrecision,
    placed: &Vec<PlacedTensor>,
) -> (res: Result<MtpHeadWeights, MtpError>)
    requires
        dir.wf(),
        haves@.len() == 15,
    ensures
        match head_run(dir, haves@, p).err {
            Some(e) => res == Err::<MtpHeadWeights, MtpError>(e),
            None => res is Ok && head_on_device(&res->Ok_0, dir, p, placed@),
        },
{
    let mut uploads: Vec<MtpUpload> = Vec::new();
    match plan_mtp_head(dir, haves, p, &mut uploads) {
        Ok(_) => {},
        Err(e) => return Err(e),
    }
    proof {
        lemma_all_present(dir, haves@, p, 15, 0);
        lemma_all_present(dir, haves@, p, 15, 1);
        lemma_all_present(dir, haves@, p, 15, 2);
        lemma_all_present(dir, haves@, p, 15, 3);
        lemma_all_present(dir, haves@, p, 15, 4);
        lemma_all_present(dir, haves@, p, 15, 5);
        lemma_all_present(dir, haves@, p, 15, 6);
        lemma_all_present(dir, haves@, p, 15, 7);
        lemma_all_present(dir, haves@, p, 15, 8);
        lemma_all_present(dir, haves@, p, 15, 9);
        lemma_all_present(dir, haves@, p, 15, 10);
        lemma_all_present(dir, haves@, p, 15, 11);
        lemma_all_present(dir, haves@, p, 15, 12);
        lemma_all_present(dir, haves@, p, 15, 13);
        lemma_all_present(dir, haves@, p, 15, 14);
    }
    let fc = match device_tensor(dir, MtpTensor::Fc, p, placed) {
        Ok(t) => t,
        Err(e) => return Err(e),
    };
    let norm = match device_tensor(dir, MtpTensor::Norm, p, placed) {
        Ok(t) => t,
        Err(e) => return Err(e),
    };
    let pre_fc_norm_hidden = match device_tensor(dir, MtpTensor::PreFcNormHidden, p, placed) {
        Ok(t) => t,
        Err(e) => return Err(e),
    };
    let pre_fc_norm_embedding = match device_tensor(dir, MtpTensor::PreFcNormEmbedding, p, placed) {
        Ok(t) => t,
        Err(e) => return Err(e),
    };
    let input_layernorm = match device_tensor(dir, MtpTensor::InputLayernorm, p, placed) {
        Ok(t) => t,
        Err(e) => return Err(e),
    };
    let post_attention_layernorm = match device_tensor(
        dir,
        MtpTensor::PostAttentionLayernorm,
        p,
        placed,
    ) {
        Ok(t) => t,
        Err(e) => return Err(e),
    };
    let q_proj = match device_tensor(dir, MtpTensor::QProj, p, placed) {
        Ok(t) => t,
        Err(e) => return Err(e),
    };
    let k_proj = match device_tensor(dir, MtpTensor::KProj, p, placed) {
        Ok(t) => t,
        Err(e) => return Err(e),
    };
    let v_proj = match device_tensor(dir, MtpTensor::VProj, p, placed) {
        Ok(t) => t,
        Err(e) => return Err(e),
    };
    let o_proj = match device_tensor(dir, MtpTensor::OProj, p, placed) {
        Ok(t) => t,
        Err(e) => return Err(e),
    };
    let q_norm = match device_tensor(dir, MtpTensor::QNorm, p, placed) {
        Ok(t) => t,
        Err(e) => return Err(e),
    };
    let k_norm = match device_tensor(dir, MtpTensor::KNorm, p, placed) {
        Ok(t) => t,
        Err(e) => return Err(e),
    };
    let gate_proj = match device_tensor(dir, MtpTensor::GateProj, p, placed) {
        Ok(t) => t,
        Err(e) => return Err(e),
    };
    let up_proj = match device_tensor(dir, MtpTensor::UpProj, p, placed) {
        Ok(t) => t,
        Err(e) => return Err(e),
    };
    let down_proj = match device_tensor(dir, MtpTensor::DownProj, p, placed) {
        Ok(t) => t,
        Err(e) => return Err(e),
    };
    let block = MtpBlockWeights {
        input_layernorm,
        post_attention_layernorm,
        q_proj,
        k_proj,
        v_proj,
        o_proj,
        q_norm,
        k_norm,
        gate_proj,
        up_proj,
        down_proj,
    };
    Ok(MtpHeadWeights { fc, norm, pre_fc_norm_hidden, pre_fc_norm_embedding, block })
}

/// The head whose tensors are on the device; `placed` says where.
pub fn load_mtp_head(dir: &TensorDirectory, haves: &Vec<usize>, placed: &Vec<PlacedTensor>) -> (res:
    Result<MtpHeadWeights, MtpError>)
    requires
        dir.wf(),
        haves@.len() == 15,
    ensures
        match head_run(dir, haves@, MtpPrecision::AsStored).err {
            Some(e) => res == Err::<MtpHeadWeights, MtpError>(e),
            None => res is Ok && head_on_device(
                &res->Ok_0,
                dir,
                MtpPrecision::AsStored,
                placed@,
            ),
        },
{
    load_head(dir, haves, MtpPrecision::AsStored, placed)
}

/// The head whose linear tensors are on the device as bfloat16s.
pub fn load_mtp_head_bf16(
    dir: &TensorDirectory,
    haves: &Vec<usize>,
    placed: &Vec<PlacedTensor>,
) -> (res: Result<MtpHeadWeights, MtpError>)
    requires
        dir.wf(),
        haves@.len() == 15,
    ensures
        match head_run(dir, haves@, MtpPrecision::Bf16).err {
            Some(e) => res == Err::<MtpHeadWeights, MtpError>(e),
            None => res is Ok && head_on_device(&res->Ok_0, dir, MtpPrecision::Bf16, placed@),
        },
{
    load_head(dir, haves, MtpPrecision::Bf16, placed)
}

/// K and V of earlier steps: this step's go to slot `cache_position`, and
/// `n_tokens_kv` slots are attended to.
#[derive(Debug, Clone, Copy, PartialEq, Eq, Structural)]
pub struct MtpKvCache {
    pub kcache: DevicePtr,
    pub vcache: DevicePtr,
    pub cache_position: usize,
    pub n_tokens_kv: usize,
}

/// Sizes of the buffers of a step.
#[derive(Debug, Clone, Copy, PartialEq, Eq, Structural)]
pub struct MtpSizes {
    pub bytes_2h_f16: usize,
    pub bytes_h_f16: usize,
    pub bytes_h_f32: usize,
    pub bytes_qfull_f32: usize,
    pub bytes_qfull_f16: usize,
    pub bytes_qhalf_f16: usize,
    pub bytes_kv_f32: usize,
    pub bytes_kv_f16: usize,
    pub bytes_2h_q8_1: usize,
    pub bytes_h_q8_1: usize,
    pub bytes_qhalf_q8_1: usize,
    pub bytes_inter_f32: usize,
    pub bytes_inter_q8_1: usize,
    pub bytes_inter_bf16: usize,
    pub bytes_vocab_f32: usize,
}

/// The sizes of the buffers fit the machine.
pub open spec fn step_fits(cfg: &Qwen3MoEConfig) -> bool {
    &&& cfg.hidden_size * 4 <= usize::MAX
    &&& cfg.moe_intermediate_size * 4 <= usize::MAX
    &&& 2 * (cfg.num_heads * cfg.head_dim) * 4 <= usize::MAX
    &&& cfg.num_kv_heads * cfg.head_dim * 4 <= usize::MAX
    &&& cfg.vocab_size * 4 <= usize::MAX
}

/// The sizes of the buffers. A Q8_1 block of 32 elements takes 36 bytes.
pub open spec fn sizes_for(cfg: &Qwen3MoEConfig) -> MtpSizes {
    let h = cfg.hidden_size as int;
    let inter = cfg.moe_intermediate_size as int;
    let nq = cfg.num_heads * cfg.head_dim;
    let nkv = cfg.num_kv_heads * cfg.head_dim;
    let vocab = cfg.vocab_size as int;
    MtpSizes {
        bytes_2h_f16: (2 * h * 2) as usize,
        bytes_h_f16: (h * 2) as usize,
        bytes_h_f32: (h * 4) as usize,
        bytes_qfull_f32: (2 * nq * 4) as usize,
        bytes_qfull_f16: (2 * nq * 2) as usize,
        bytes_qhalf_f16: (nq * 2) as usize,
        bytes_kv_f32: (nkv * 4) as usize,
        bytes_kv_f16: (nkv * 2) as usize,
        bytes_2h_q8_1: (2 * h / 32 * 36) as usize,
        bytes_h_q8_1: (h / 32 * 36) as usize,
        bytes_qhalf_q8_1: (nq / 32 * 36) as usize,
        bytes_inter_f32: (inter * 4) as usize,
        bytes_inter_q8_1: (inter / 32 * 36) as usize,
        bytes_inter_bf16: (inter * 2) as usize,
        bytes_vocab_f32: (vocab * 4) as usize,
    }
}

impl MtpSizes {
    /// The sizes of the buffers for a model.
    pub fn new(cfg: &Qwen3MoEConfig) -> (r: Self)
        requires
            step_fits(cfg),
        ensures
            r == sizes_for(cfg),
    {
        proof {
            assert(cfg.num_heads * cfg.head_dim >= 0 && cfg.num_kv_heads * cfg.head_dim >= 0)
                by (nonlinear_arith)
                requires
                    cfg.num_heads >= 0,
                    cfg.head_dim >= 0,
                    cfg.num_kv_heads >= 0,
            ;
        }
        let h: usize = cfg.hidden_size;
        let inter: usize = cfg.moe_intermediate_size;
        let nq: usize = cfg.num_heads * cfg.head_dim;
        let nkv: usize = cfg.num_kv_heads * cfg.head_dim;
        let vocab: usize = cfg.vocab_size;
        MtpSizes {
            bytes_2h_f16: 2 * h * 2,
            bytes_h_f16: h * 2,
            bytes_h_f32: h * 4,
            bytes_qfull_f32: 2 * nq * 4,
            bytes_qfull_f16: 2 * nq * 2,
            bytes_qhalf_f16: nq * 2,
            bytes_kv_f32: nkv * 4,
            bytes_kv_f16: nkv * 2,
            bytes_2h_q8_1: 2 * h / 32 * 36,
            bytes_h_q8_1: h / 32 * 36,
            bytes_qhalf_q8_1: nq / 32 * 36,
            bytes_inter_f32: inter * 4,
            bytes_inter_q8_1: inter / 32 * 36,
            bytes_inter_bf16: inter * 2,
            bytes_vocab_f32: vocab * 4,
        }
    }

    /// The sizes of the buffers in the order in which they are made.
    pub open spec fn spec_list(&self) -> Seq<usize> {
        seq![
            self.bytes_2h_f16,
            self.bytes_2h_q8_1,
            self.bytes_h_f32,
            self.bytes_h_f16,
            self.bytes_h_q8_1,
            self.bytes_qfull_f32,
            self.bytes_qfull_f16,
            self.bytes_qhalf_f16,
            self.bytes_qhalf_f16,
            self.bytes_kv_f32,
            self.bytes_kv_f32,
            self.bytes_kv_f16,
            self.bytes_kv_f16,
            self.bytes_kv_f16,
            self.bytes_kv_f16,
            self.bytes_qhalf_f16,
            self.bytes_qhalf_f16,
            self.bytes_qhalf_q8_1,
            self.bytes_h_f32,
            self.bytes_h_f16,
            self.bytes_h_q8_1,
            self.bytes_inter_f32,
            self.bytes_inter_f32,
            self.bytes_inter_q8_1,
            self.bytes_inter_bf16,
            self.bytes_h_f32,
            self.bytes_h_f16,
            self.bytes_h_f16,
            self.bytes_h_f16,
            self.bytes_h_q8_1,
            self.bytes_vocab_f32,
        ]
    }

    /// The sizes of the buffers in the order in which they are made.
    pub fn list(&self) -> (v: Vec<usize>)
        ensures
            v@ == self.spec_list(),
    {
        let mut v: Vec<usize> = Vec::new();
        v.push(self.bytes_2h_f16);
        v.push(self.bytes_2h_q8_1);
        v.push(self.bytes_h_f32);
        v.push(self.bytes_h_f16);
        v.push(self.bytes_h_q8_1);
        v.push(self.bytes_qfull_f32);
        v.push(self.bytes_qfull_f16);
        v.push(self.bytes_qhalf_f16);
        v.push(self.bytes_qhalf_f16);
        v.push(self.bytes_kv_f32);
        v.push(self.bytes_kv_f32);
        v.push(self.bytes_kv_f16);
        v.push(self.bytes_kv_f16);
        v.push(self.bytes_kv_f16);
        v.push(self.bytes_kv_f16);
        v.push(self.bytes_qhalf_f16);
        v.push(self.bytes_qhalf_f16);
        v.push(self.bytes_qhalf_q8_1);
        v.push(self.bytes_h_f32);
        v.push(self.bytes_h_f16);
        v.push(self.bytes_h_q8_1);
        v.push(self.bytes_inter_f32);
        v.push(self.bytes_inter_f32);
        v.push(self.bytes_inter_q8_1);
        v.push(self.bytes_inter_bf16);
        v.push(self.bytes_h_f32);
        v.push(self.bytes_h_f16);
        v.push(self.bytes_h_f16);
        v.push(self.bytes_h_f16);
        v.push(self.bytes_h_q8_1);
        v.push(self.bytes_vocab_f32);
        proof {
            assert(v@ =~= self.spec_list());
        }
        v
    }
}

/// Working memory of a step, made once and used for every step.
#[derive(Debug, Clone, Copy, PartialEq, Eq, Structural)]
pub struct MtpForwardScratch {
    pub sizes: MtpSizes,
    pub fc_in_f16: DevicePtr,
    pub fc_in_q8_1: DevicePtr,
    pub h0_f32: DevicePtr,
    pub h0_f16: DevicePtr,
    pub h0n_q8_1: DevicePtr,
    pub q_full_f32: DevicePtr,
    pub q_full_f16: DevicePtr,
    pub q_f16: DevicePtr,
    pub gate_f16: DevicePtr,
    pub k_f32: DevicePtr,
    pub v_f32: DevicePtr,
    pub k_f16: DevicePtr,
    pub v_f16: DevicePtr,
    pub kcache_slot_f16: DevicePtr,
    pub vcache_slot_f16: DevicePtr,
    pub attn_out_f16: DevicePtr,
    pub gated_out_f16: DevicePtr,
    pub gated_q8_1: DevicePtr,
    pub attn_proj_f32: DevicePtr,
    pub h1_f16: DevicePtr,
    pub h1n_q8_1: DevicePtr,
    pub gate_mlp_f32: DevicePtr,
    pub up_mlp_f32: DevicePtr,
    pub mlp_q8_1: DevicePtr,
    pub mlp_bf16: DevicePtr,
    pub down_f32: DevicePtr,
    pub h2_f16: DevicePtr,
    pub h_t_post_norm: DevicePtr,
    pub mtp_h_final: DevicePtr,
    pub x_q8_1: DevicePtr,
    pub logits_f32: DevicePtr,
}

impl MtpForwardScratch {
    /// The buffers in the order in which they are made.
    pub open spec fn buffers(&self) -> Seq<DevicePtr> {
        seq![
            self.fc_in_f16,
            self.fc_in_q8_1,
            self.h0_f32,
            self.h0_f16,
            self.h0n_q8_1,
            self.q_full_f32,
            self.q_full_f16,
            self.q_f16,
            self.gate_f16,
            self.k_f32,
            self.v_f32,
            self.k_f16,
            self.v_f16,
            self.kcache_slot_f16,
            self.vcache_slot_f16,
            self.attn_out_f16,
            self.gated_out_f16,
            self.gated_q8_1,
            self.attn_proj_f32,
            self.h1_f16,
            self.h1n_q8_1,
            self.gate_mlp_f32,
            self.up_mlp_f32,
            self.mlp_q8_1,
            self.mlp_bf16,
            self.down_f32,
            self.h2_f16,
            self.h_t_post_norm,
            self.mtp_h_final,
            self.x_q8_1,
            self.logits_f32,
        ]
    }

    /// The working memory on the buffers `ptrs`, of the sizes that `MtpSizes`
    /// lists.
    pub fn new(cfg: &Qwen3MoEConfig, ptrs: &Vec<DevicePtr>) -> (r: Self)
        requires
            step_fits(cfg),
            ptrs@.len() == 31,
        ensures
            r.sizes == sizes_for(cfg),
            r.buffers() == ptrs@,
    {
        let r = MtpForwardScratch {
            sizes: MtpSizes::new(cfg),
            fc_in_f16: ptrs[0],
            fc_in_q8_1: ptrs[1],
            h0_f32: ptrs[2],
            h0_f16: ptrs[3],
            h0n_q8_1: ptrs[4],
            q_full_f32: ptrs[5],
            q_full_f16: ptrs[6],
            q_f16: ptrs[7],
            gate_f16: ptrs[8],
            k_f32: ptrs[9],
            v_f32: ptrs[10],
            k_f16: ptrs[11],
            v_f16: ptrs[12],
            kcache_slot_f16: ptrs[13],
            vcache_slot_f16: ptrs[14],
            attn_out_f16: ptrs[15],
            gated_out_f16: ptrs[16],
            gated_q8_1: ptrs[17],
            attn_proj_f32: ptrs[18],
            h1_f16: ptrs[19],
            h1n_q8_1: ptrs[20],
            gate_mlp_f32: ptrs[21],
            up_mlp_f32: ptrs[22],
            mlp_q8_1: ptrs[23],
            mlp_bf16: ptrs[24],
            down_f32: ptrs[25],
            h2_f16: ptrs[26],
            h_t_post_norm: ptrs[27],
            mtp_h_final: ptrs[28],
            x_q8_1: ptrs[29],
            logits_f32: ptrs[30],
        };
        proof {
            assert(r.buffers() =~= ptrs@);
        }
        r
    }

    /// What `dispose` gives back: every buffer with the size it was made with.
    pub open spec fn spec_frees(&self) -> Seq<Free> {
        Seq::new(
            self.buffers().len(),
            |i: int| Free { ptr: self.buffers()[i], bytes: self.sizes.spec_list()[i] },
        )
    }

    /// Gives up the working memory: lists the buffers to give back.
    pub fn dispose(self) -> (v: Vec<Free>)
        ensures
            v@ == self.spec_frees(),
    {
        let mut v: Vec<Free> = Vec::new();
        v.push(Free { ptr: self.fc_in_f16, bytes: self.sizes.bytes_2h_f16 });
        v.push(Free { ptr: self.fc_in_q8_1, bytes: self.sizes.bytes_2h_q8_1 });
        v.push(Free { ptr: self.h0_f32, bytes: self.sizes.bytes_h_f32 });
        v.push(Free { ptr: self.h0_f16, bytes: self.sizes.bytes_h_f16 });
        v.push(Free { ptr: self.h0n_q8_1, bytes: self.sizes.bytes_h_q8_1 });
        v.push(Free { ptr: self.q_full_f32, bytes: self.sizes.bytes_qfull_f32 });
        v.push(Free { ptr: self.q_full_f16, bytes: self.sizes.bytes_qfull_f16 });
        v.push(Free { ptr: self.q_f16, bytes: self.sizes.bytes_qhalf_f16 });
        v.push(Free { ptr: self.gate_f16, bytes: self.sizes.bytes_qhalf_f16 });
        v.push(Free { ptr: self.k_f32, bytes: self.sizes.bytes_kv_f32 });
        v.push(Free { ptr: self.v_f32, bytes: self.sizes.bytes_kv_f32 });
        v.push(Free { ptr: self.k_f16, bytes: self.sizes.bytes_kv_f16 });
        v.push(Free { ptr: self.v_f16, bytes: self.sizes.bytes_kv_f16 });
        v.push(Free { ptr: self.kcache_slot_f16, bytes: self.sizes.bytes_kv_f16 });
        v.push(Free { ptr: self.vcache_slot_f16, bytes: self.sizes.bytes_kv_f16 });
        v.push(Free { ptr: self.attn_out_f16, bytes: self.sizes.bytes_qhalf_f16 });
        v.push(Free { ptr: self.gated_out_f16, bytes: self.sizes.bytes_qhalf_f16 });
        v.push(Free { ptr: self.gated_q8_1, bytes: self.sizes.bytes_qhalf_q8_1 });
        v.push(Free { ptr: self.attn_proj_f32, bytes: self.sizes.bytes_h_f32 });
        v.push(Free { ptr: self.h1_f16, bytes: self.sizes.bytes_h_f16 });
        v.push(Free { ptr: self.h1n_q8_1, bytes: self.sizes.bytes_h_q8_1 });
        v.push(Free { ptr: self.gate_mlp_f32, bytes: self.sizes.bytes_inter_f32 });
        v.push(Free { ptr: self.up_mlp_f32, bytes: self.sizes.bytes_inter_f32 });
        v.push(Free { ptr: self.mlp_q8_1, bytes: self.sizes.bytes_inter_q8_1 });
        v.push(Free { ptr: self.mlp_bf16, bytes: self.sizes.bytes_inter_bf16 });
        v.push(Free { ptr: self.down_f32, bytes: self.sizes.bytes_h_f32 });
        v.push(Free { ptr: self.h2_f16, bytes: self.sizes.bytes_h_f16 });
        v.push(Free { ptr: self.h_t_post_norm, bytes: self.sizes.bytes_h_f16 });
        v.push(Free { ptr: self.mtp_h_final, bytes: self.sizes.bytes_h_f16 });
        v.push(Free { ptr: self.x_q8_1, bytes: self.sizes.bytes_h_q8_1 });
        v.push(Free { ptr: self.logits_f32, bytes: self.sizes.bytes_vocab_f32 });
        proof {
            assert(v@ =~= self.spec_frees());
        }
        v
    }
}

/// The component is a tag of a quantisation: it starts like one, is one of the
/// sizes that may follow one, or is a number.
pub open spec fn is_quant_tag(p: Seq<char>) -> bool {
    ||| starts(p, "Q"@)
    ||| starts(p, "UD"@)
    ||| starts(p, "IQ"@)
    ||| starts(p, "F"@)
    ||| starts(p, "BF"@)
    ||| p == "XL"@
    ||| p == "M"@
    ||| p == "S"@
    ||| p == "K"@
    ||| p == "L"@
    ||| p.len() > 0 && all_digits(p)
}

/// `s` starts with `head`.
pub open spec fn starts(s: Seq<char>, head: Seq<char>) -> bool {
    s.len() >= head.len() && s.take(head.len() as int) == head
}

fn starts_with(s: &str, head: &str) -> (r: bool)
    ensures
        r == starts(s@, head@),
{
    let n: usize = s.unicode_len();
    let k: usize = head.unicode_len();
    if n < k {
        return false;
    }
    let front = s.substring_char(0, k);
    proof {
        assert(front@ =~= s@.take(head@.len() as int));
    }
    str_eq(front, head)
}

fn digits_only(s: &str) -> (r: bool)
    ensures
        r == all_digits(s@),
{
    let n: usize = s.unicode_len();
    let mut i: usize = 0;
    while i < n
        invariant
            n == s@.len(),
            i <= n,
            forall|j: int| 0 <= j < i ==> is_digit(#[trigger] s@[j]),
        decreases n - i,
    {
        let c = s.get_char(i);
        if !(c >= '0' && c <= '9') {
            proof {
                assert(!is_digit(s@[i as int]));
            }
            return false;
        }
        i = i + 1;
    }
    true
}

fn quant_tag(p: &str) -> (r: bool)
    ensures
        r == is_quant_tag(p@),
{
    starts_with(p, "Q") || starts_with(p, "UD") || starts_with(p, "IQ") || starts_with(p, "F")
        || starts_with(p, "BF") || str_eq(p, "XL") || str_eq(p, "M") || str_eq(p, "S") || str_eq(
        p,
        "K",
    ) || str_eq(p, "L") || (p.unicode_len() > 0 && digits_only(p))
}

fn find_after_last(s: &str, c: char, end: usize) -> (r: usize)
    requires
        end <= s@.len(),
    ensures
        r == after_last(s@, c, end as nat),
        r <= end,
{
    let mut k: usize = end;
    while k > 0
        invariant
            k <= end,
            end <= s@.len(),
            after_last(s@, c, end as nat) == after_last(s@, c, k as nat),
        decreases k,
    {
        if s.get_char(k - 1) == c {
            return k;
        }
        k = k - 1;
    }
    0
}

/// `stem` without the tags at its end. Components are set apart by `-`.
pub open spec fn without_tags(stem: Seq<char>) -> Seq<char>
    decreases stem.len(),
{
    let at = after_last(stem, '-', stem.len());
    if !is_quant_tag(stem.skip(at as int)) {
        stem
    } else if at == 0 || at > stem.len() {
        seq![]
    } else {
        without_tags(stem.take(at - 1))
    }
}

fn strip_tags(stem: &str) -> (r: String)
    ensures
        r@ == without_tags(stem@),
{
    let mut end: usize = stem.unicode_len();
    proof {
        assert(stem@.take(end as int) =~= stem@);
    }
    loop
        invariant
            end <= stem@.len(),
            without_tags(stem@) == without_tags(stem@.take(end as int)),
        decreases end,
    {
        let part = stem.substring_char(0, end);
        proof {
            assert(part@ =~= stem@.take(end as int));
        }
        let at: usize = find_after_last(part, '-', end);
        let tail = part.substring_char(at, end);
        proof {
            assert(tail@ =~= part@.skip(at as int));
        }
        if !quant_tag(tail) {
            return owned(part);
        }
        if at == 0 {
            let empty = owned("");
            proof {
                reveal_strlit("");
                assert(empty@ =~= seq![]);
            }
            return empty;
        }
        proof {
            assert(part@.take(at - 1) =~= stem@.take(at - 1));
        }
        end = at - 1;
    }
}

/// The name of the file that holds the head of the model in a file of that stem.
pub open spec fn head_file(stem: Seq<char>) -> Seq<char> {
    without_tags(stem) + "-mtp.gguf"@
}

/// The name of the file that holds the head of the model in a file of that stem: the
/// quantisation tags at the end give way to `-mtp`.
pub fn head_file_name(stem: &str) -> (r: String)
    ensures
        r@ == head_file(stem@),
{
    let mut s = strip_tags(stem);
    s.append("-mtp.gguf");
    s
}

/// The path of the file beside `path` that holds the head of the model in it. A
/// path without a directory above it counts as one in `.`, and one without a file
/// name has an empty stem.
pub open spec fn sibling(path: Seq<char>) -> Seq<char> {
    path_join(
        match path_parent(path) {
            Some(dir) => dir,
            None => "."@,
        },
        head_file(
            match path_stem(path) {
                Some(stem) => stem,
                None => ""@,
            },
        ),
    )
}

/// The path of the file beside `base_path` that holds the head of the model in
/// it: the quantisation tags at the end of the name give way to `-mtp`.
pub fn derive_sibling_mtp_path(base_path: &str) -> (r: String)
    ensures
        r@ == sibling(base_path@),
{
    let dir = match parent(base_path) {
        Some(d) => d,
        None => owned("."),
    };
    let stem = match stem(base_path) {
        Some(s) => s,
        None => owned(""),
    };
    let file = head_file_name(stem.as_str());
    join(dir.as_str(), file.as_str())
}

} // verus!
