//! Every tensor that a model touches, with its dtype, dims and byte size.
//!
//! The tensors of a layer depend on the kind of its attention block (plain,
//! gated full attention, gated-delta-net) and of its FFN (dense or experts).

use crate::arith::{lemma_sum_prefix, lemma_sum_step, sum};
use crate::config::{AttentionFamily, Qwen3MoEConfig};
use crate::names::{
    CommonNames, DenseAttnNames, DenseFfnNames, FullAttnNames, GdnNames, GlobalNames, MoeFfnNames,
    blk_name,
};
use crate::tensor::{GgmlDType, TensorInfo};
use crate::text::{owned, str_eq};
use vstd::prelude::*;

verus! {

/// The tensor directory of a model file.
#[derive(Debug, Clone)]
pub struct TensorDirectory {
    pub tensors: Vec<TensorInfo>,
}

/// The first entry of that name.
pub open spec fn lookup(tensors: Seq<TensorInfo>, name: Seq<char>) -> Option<TensorInfo>
    decreases tensors.len(),
{
    if tensors.len() == 0 {
        None
    } else if tensors[0].name@ == name {
        Some(tensors[0])
    } else {
        lookup(tensors.drop_first(), name)
    }
}

proof fn lemma_lookup_at(tensors: Seq<TensorInfo>, name: Seq<char>, k: int)
    requires
        0 <= k < tensors.len(),
        tensors[k].name@ == name,
        forall|j: int| 0 <= j < k ==> (#[trigger] tensors[j]).name@ != name,
    ensures
        lookup(tensors, name) == Some(tensors[k]),
    decreases tensors.len(),
{
    if k > 0 {
        let t = tensors.drop_first();
        assert forall|j: int| 0 <= j < k - 1 implies (#[trigger] t[j]).name@ != name by {
            assert(t[j] == tensors[j + 1]);
        }
        lemma_lookup_at(t, name, k - 1);
    }
}

proof fn lemma_lookup_none(tensors: Seq<TensorInfo>, name: Seq<char>)
    requires
        forall|j: int| 0 <= j < tensors.len() ==> (#[trigger] tensors[j]).name@ != name,
    ensures
        lookup(tensors, name) is None,
    decreases tensors.len(),
{
    if tensors.len() > 0 {
        let t = tensors.drop_first();
        assert forall|j: int| 0 <= j < t.len() implies (#[trigger] t[j]).name@ != name by {
            assert(t[j] == tensors[j + 1]);
        }
        lemma_lookup_none(t, name);
    }
}

impl TensorDirectory {
    /// The sizes of all tensors fit in `usize`.
    pub open spec fn wf(&self) -> bool {
        forall|i: int| 0 <= i < self.tensors@.len() ==> (#[trigger] self.tensors@[i]).fits()
    }

    pub open spec fn spec_info(&self, name: Seq<char>) -> Option<TensorInfo> {
        lookup(self.tensors@, name)
    }

    /// The entry of the tensor `name`.
    pub fn info(&self, name: &str) -> (r: Option<&TensorInfo>)
        ensures
            match r {
                Some(t) => self.spec_info(name@) == Some(*t) && t.name@ == name@,
                None => self.spec_info(name@) is None,
            },
            self.wf() ==> (r matches Some(t) ==> t.fits()),
    {
        let mut i: usize = 0;
        while i < self.tensors.len()
            invariant
                i <= self.tensors@.len(),
                forall|j: int| 0 <= j < i ==> (#[trigger] self.tensors@[j]).name@ != name@,
            decreases self.tensors@.len() - i,
        {
            if str_eq(self.tensors[i].name.as_str(), name) {
                proof {
                    lemma_lookup_at(self.tensors@, name@, i as int);
                }
                return Some(&self.tensors[i]);
            }
            i = i + 1;
        }
        proof {
            lemma_lookup_none(self.tensors@, name@);
        }
        None
    }
}

/// A tensor of the model with what the directory says of it.
#[derive(Debug, Clone)]
pub struct ResolvedTensor {
    pub name: String,
    pub dtype: GgmlDType,
    pub dims: Vec<u64>,
    pub size_bytes: u64,
}

impl ResolvedTensor {
    /// The tensor is the directory entry `info`.
    pub open spec fn is_entry(&self, info: TensorInfo) -> bool {
        &&& self.name@ == info.name@
        &&& self.dtype == info.dtype
        &&& self.dims@ == info.dims@
        &&& self.size_bytes == info.byte_size()
    }

    /// The tensor is the directory's entry for `name`.
    pub open spec fn resolves(&self, dir: &TensorDirectory, name: Seq<char>) -> bool {
        &&& self.name@ == name
        &&& dir.spec_info(name) matches Some(info) && self.is_entry(info)
    }

    fn from_info(info: &TensorInfo) -> (r: Self)
        requires
            info.fits(),
        ensures
            r.is_entry(*info),
    {
        ResolvedTensor {
            name: info.name.clone(),
            dtype: info.dtype,
            dims: info.dims.clone(),
            size_bytes: info.size_in_bytes() as u64,
        }
    }
}

/// An optional tensor is there exactly if the directory has it.
pub open spec fn opt_resolves(
    t: Option<ResolvedTensor>,
    dir: &TensorDirectory,
    name: Seq<char>,
) -> bool {
    match t {
        Some(t) => t.resolves(dir, name),
        None => dir.spec_info(name) is None,
    }
}

/// A tensor that the model needs is not in the directory.
#[derive(Debug, Clone, PartialEq, Eq)]
pub struct MissingTensor {
    pub name: String,
}

impl MissingTensor {
    pub open spec fn spec_message(&self) -> Seq<char> {
        "required tensor `"@ + self.name@ + "` missing from GGUF"@
    }

    /// The error as a sentence.
    pub fn message(&self) -> (r: String)
        ensures
            r@ == self.spec_message(),
    {
        let mut s = owned("required tensor `");
        s.append(self.name.as_str());
        s.append("` missing from GGUF");
        s
    }
}

fn required(dir: &TensorDirectory, name: &str) -> (r: Result<ResolvedTensor, MissingTensor>)
    requires
        dir.wf(),
    ensures
        match r {
            Ok(t) => t.resolves(dir, name@),
            Err(e) => dir.spec_info(name@) is None && e.name@ == name@,
        },
{
    match dir.info(name) {
        Some(info) => Ok(ResolvedTensor::from_info(info)),
        None => Err(MissingTensor { name: owned(name) }),
    }
}

fn optional(dir: &TensorDirectory, name: &str) -> (r: Option<ResolvedTensor>)
    requires
        dir.wf(),
    ensures
        opt_resolves(r, dir, name@),
{
    match dir.info(name) {
        Some(info) => Some(ResolvedTensor::from_info(info)),
        None => None,
    }
}

/// `name` where the directory lacks it, else `rest`.
pub open spec fn first_absent(
    dir: &TensorDirectory,
    name: Seq<char>,
    rest: Option<Seq<char>>,
) -> Option<Seq<char>> {
    if dir.spec_info(name) is None {
        Some(name)
    } else {
        rest
    }
}

/// Plain self-attention block.
#[derive(Debug, Clone)]
pub struct DenseAttnTensors {
    pub attn_q: ResolvedTensor,
    pub attn_k: ResolvedTensor,
    pub attn_v: ResolvedTensor,
    pub attn_output: ResolvedTensor,
    pub attn_q_norm: ResolvedTensor,
    pub attn_k_norm: ResolvedTensor,
    pub attn_q_bias: Option<ResolvedTensor>,
    pub attn_k_bias: Option<ResolvedTensor>,
    pub attn_v_bias: Option<ResolvedTensor>,
}

/// Gated full-attention block.
#[derive(Debug, Clone)]
pub struct FullAttnTensors {
    pub attn_q: ResolvedTensor,
    pub attn_k: ResolvedTensor,
    pub attn_v: ResolvedTensor,
    pub attn_output: ResolvedTensor,
    pub attn_q_norm: ResolvedTensor,
    pub attn_k_norm: ResolvedTensor,
}

/// Gated-delta-net block: alpha and beta are separate or fused in `ssm_ba`.
#[derive(Debug, Clone)]
pub struct GdnTensors {
    pub attn_qkv: ResolvedTensor,
    pub attn_gate: ResolvedTensor,
    pub ssm_a: ResolvedTensor,
    pub ssm_dt_bias: ResolvedTensor,
    pub ssm_conv1d: ResolvedTensor,
    pub ssm_norm: ResolvedTensor,
    pub ssm_out: ResolvedTensor,
    pub ssm_alpha: Option<ResolvedTensor>,
    pub ssm_beta: Option<ResolvedTensor>,
    pub ssm_ba: Option<ResolvedTensor>,
}

/// Shared expert.
#[derive(Debug, Clone)]
pub struct SharedExpertTensors {
    pub ffn_gate_inp_shexp: ResolvedTensor,
    pub ffn_gate_shexp: ResolvedTensor,
    pub ffn_up_shexp: ResolvedTensor,
    pub ffn_down_shexp: ResolvedTensor,
}

/// Dense FFN block.
#[derive(Debug, Clone)]
pub struct DenseFfnTensors {
    pub ffn_gate: ResolvedTensor,
    pub ffn_up: ResolvedTensor,
    pub ffn_down: ResolvedTensor,
}

/// The first required tensor of the block that is absent, else `rest`.
pub open spec fn dense_attn_absent(
    dir: &TensorDirectory,
    il: nat,
    rest: Option<Seq<char>>,
) -> Option<
    Seq<char>,
> {
    first_absent(
        dir,
        blk_name(il, "attn_q.weight"@),
        first_absent(
            dir,
            blk_name(il, "attn_k.weight"@),
            first_absent(
                dir,
                blk_name(il, "attn_v.weight"@),
                first_absent(
                    dir,
                    blk_name(il, "attn_output.weight"@),
                    first_absent(
                        dir,
                        blk_name(il, "attn_q_norm.weight"@),
                        first_absent(dir, blk_name(il, "attn_k_norm.weight"@), rest),
                    ),
                ),
            ),
        ),
    )
}

impl DenseAttnTensors {
    /// The fields are the directory's entries for the block of layer `il`.
    pub open spec fn resolves(&self, dir: &TensorDirectory, il: nat) -> bool {
        &&& self.attn_q.resolves(dir, blk_name(il, "attn_q.weight"@))
        &&& self.attn_k.resolves(dir, blk_name(il, "attn_k.weight"@))
        &&& self.attn_v.resolves(dir, blk_name(il, "attn_v.weight"@))
        &&& self.attn_output.resolves(dir, blk_name(il, "attn_output.weight"@))
        &&& self.attn_q_norm.resolves(dir, blk_name(il, "attn_q_norm.weight"@))
        &&& self.attn_k_norm.resolves(dir, blk_name(il, "attn_k_norm.weight"@))
        &&& opt_resolves(self.attn_q_bias, dir, blk_name(il, "attn_q.bias"@))
        &&& opt_resolves(self.attn_k_bias, dir, blk_name(il, "attn_k.bias"@))
        &&& opt_resolves(self.attn_v_bias, dir, blk_name(il, "attn_v.bias"@))
    }

    fn resolve(dir: &TensorDirectory, il: usize) -> (r: Result<Self, MissingTensor>)
        requires
            dir.wf(),
        ensures
            match r {
                Ok(t) => t.resolves(dir, il as nat) && dense_attn_absent(
                    dir,
                    il as nat,
                    None,
                ) is None,
                Err(e) => dense_attn_absent(dir, il as nat, None) == Some(e.name@),
            },
    {
        let n = DenseAttnNames::for_layer(il);
        let attn_q = match required(dir, n.attn_q.as_str()) {
            Ok(t) => t,
            Err(e) => return Err(e),
        };
        let attn_k = match required(dir, n.attn_k.as_str()) {
            Ok(t) => t,
            Err(e) => return Err(e),
        };
        let attn_v = match required(dir, n.attn_v.as_str()) {
            Ok(t) => t,
            Err(e) => return Err(e),
        };
        let attn_output = match required(dir, n.attn_output.as_str()) {
            Ok(t) => t,
            Err(e) => return Err(e),
        };
        let attn_q_norm = match required(dir, n.attn_q_norm.as_str()) {
            Ok(t) => t,
            Err(e) => return Err(e),
        };
        let attn_k_norm = match required(dir, n.attn_k_norm.as_str()) {
            Ok(t) => t,
            Err(e) => return Err(e),
        };
        let attn_q_bias = optional(dir, n.attn_q_bias.as_str());
        let attn_k_bias = optional(dir, n.attn_k_bias.as_str());
        let attn_v_bias = optional(dir, n.attn_v_bias.as_str());
        Ok(
            DenseAttnTensors {
                attn_q,
                attn_k,
                attn_v,
                attn_output,
                attn_q_norm,
                attn_k_norm,
                attn_q_bias,
                attn_k_bias,
                attn_v_bias,
            }
        )
    }
}

/// The first required tensor of the block that is absent, else `rest`.
pub open spec fn full_attn_absent(
    dir: &TensorDirectory,
    il: nat,
    rest: Option<Seq<char>>,
) -> Option<
    Seq<char>,
> {
    first_absent(
        dir,
        blk_name(il, "attn_q.weight"@),
        first_absent(
            dir,
            blk_name(il, "attn_k.weight"@),
            first_absent(
                dir,
                blk_name(il, "attn_v.weight"@),
                first_absent(
                    dir,
                    blk_name(il, "attn_output.weight"@),
                    first_absent(
                        dir,
                        blk_name(il, "attn_q_norm.weight"@),
                        first_absent(dir, blk_name(il, "attn_k_norm.weight"@), rest),
                    ),
                ),
            ),
        ),
    )
}

impl FullAttnTensors {
    /// The fields are the directory's entries for the block of layer `il`.
    pub open spec fn resolves(&self, dir: &TensorDirectory, il: nat) -> bool {
        &&& self.attn_q.resolves(dir, blk_name(il, "attn_q.weight"@))
        &&& self.attn_k.resolves(dir, blk_name(il, "attn_k.weight"@))
        &&& self.attn_v.resolves(dir, blk_name(il, "attn_v.weight"@))
        &&& self.attn_output.resolves(dir, blk_name(il, "attn_output.weight"@))
        &&& self.attn_q_norm.resolves(dir, blk_name(il, "attn_q_norm.weight"@))
        &&& self.attn_k_norm.resolves(dir, blk_name(il, "attn_k_norm.weight"@))
    }

    fn resolve(dir: &TensorDirectory, il: usize) -> (r: Result<Self, MissingTensor>)
        requires
            dir.wf(),
        ensures
            match r {
                Ok(t) => t.resolves(dir, il as nat) && full_attn_absent(
                    dir,
                    il as nat,
                    None,
                ) is None,
                Err(e) => full_attn_absent(dir, il as nat, None) == Some(e.name@),
            },
    {
        let n = FullAttnNames::for_layer(il);
        let attn_q = match required(dir, n.attn_q.as_str()) {
            Ok(t) => t,
            Err(e) => return Err(e),
        };
        let attn_k = match required(dir, n.attn_k.as_str()) {
            Ok(t) => t,
            Err(e) => return Err(e),
        };
        let attn_v = match required(dir, n.attn_v.as_str()) {
            Ok(t) => t,
            Err(e) => return Err(e),
        };
        let attn_output = match required(dir, n.attn_output.as_str()) {
            Ok(t) => t,
            Err(e) => return Err(e),
        };
        let attn_q_norm = match required(dir, n.attn_q_norm.as_str()) {
            Ok(t) => t,
            Err(e) => return Err(e),
        };
        let attn_k_norm = match required(dir, n.attn_k_norm.as_str()) {
            Ok(t) => t,
            Err(e) => return Err(e),
        };
        Ok(FullAttnTensors { attn_q, attn_k, attn_v, attn_output, attn_q_norm, attn_k_norm })
    }
}

/// The first required tensor of the block that is absent, else `rest`.
pub open spec fn gdn_absent(dir: &TensorDirectory, il: nat, rest: Option<Seq<char>>) -> Option<
    Seq<char>,
> {
    first_absent(
        dir,
        blk_name(il, "attn_qkv.weight"@),
        first_absent(
            dir,
            blk_name(il, "attn_gate.weight"@),
            first_absent(
                dir,
                blk_name(il, "ssm_a"@),
                first_absent(
                    dir,
                    blk_name(il, "ssm_dt.bias"@),
                    first_absent(
                        dir,
                        blk_name(il, "ssm_conv1d.weight"@),
                        first_absent(
                            dir,
                            blk_name(il, "ssm_norm.weight"@),
                            first_absent(dir, blk_name(il, "ssm_out.weight"@), rest),
                        ),
                    ),
                ),
            ),
        ),
    )
}

impl GdnTensors {
    /// The fields are the directory's entries for the block of layer `il`.
    pub open spec fn resolves(&self, dir: &TensorDirectory, il: nat) -> bool {
        &&& self.attn_qkv.resolves(dir, blk_name(il, "attn_qkv.weight"@))
        &&& self.attn_gate.resolves(dir, blk_name(il, "attn_gate.weight"@))
        &&& self.ssm_a.resolves(dir, blk_name(il, "ssm_a"@))
        &&& self.ssm_dt_bias.resolves(dir, blk_name(il, "ssm_dt.bias"@))
        &&& self.ssm_conv1d.resolves(dir, blk_name(il, "ssm_conv1d.weight"@))
        &&& self.ssm_norm.resolves(dir, blk_name(il, "ssm_norm.weight"@))
        &&& self.ssm_out.resolves(dir, blk_name(il, "ssm_out.weight"@))
        &&& opt_resolves(self.ssm_alpha, dir, blk_name(il, "ssm_alpha.weight"@))
        &&& opt_resolves(self.ssm_beta, dir, blk_name(il, "ssm_beta.weight"@))
        &&& opt_resolves(self.ssm_ba, dir, blk_name(il, "ssm_ba.weight"@))
    }

    fn resolve(dir: &TensorDirectory, il: usize) -> (r: Result<Self, MissingTensor>)
        requires
            dir.wf(),
        ensures
            match r {
                Ok(t) => t.resolves(dir, il as nat) && gdn_absent(dir, il as nat, None) is None,
                Err(e) => gdn_absent(dir, il as nat, None) == Some(e.name@),
            },
    {
        let n = GdnNames::for_layer(il);
        let attn_qkv = match required(dir, n.attn_qkv.as_str()) {
            Ok(t) => t,
            Err(e) => return Err(e),
        };
        let attn_gate = match required(dir, n.attn_gate.as_str()) {
            Ok(t) => t,
            Err(e) => return Err(e),
        };
        let ssm_a = match required(dir, n.ssm_a.as_str()) {
            Ok(t) => t,
            Err(e) => return Err(e),
        };
        let ssm_dt_bias = match required(dir, n.ssm_dt_bias.as_str()) {
            Ok(t) => t,
            Err(e) => return Err(e),
        };
        let ssm_conv1d = match required(dir, n.ssm_conv1d.as_str()) {
            Ok(t) => t,
            Err(e) => return Err(e),
        };
        let ssm_norm = match required(dir, n.ssm_norm.as_str()) {
            Ok(t) => t,
            Err(e) => return Err(e),
        };
        let ssm_out = match required(dir, n.ssm_out.as_str()) {
            Ok(t) => t,
            Err(e) => return Err(e),
        };
        let ssm_alpha = optional(dir, n.ssm_alpha.as_str());
        let ssm_beta = optional(dir, n.ssm_beta.as_str());
        let ssm_ba = optional(dir, n.ssm_ba.as_str());
        Ok(
            GdnTensors {
                attn_qkv,
                attn_gate,
                ssm_a,
                ssm_dt_bias,
                ssm_conv1d,
                ssm_norm,
                ssm_out,
                ssm_alpha,
                ssm_beta,
                ssm_ba,
            }
        )
    }
}

/// The first required tensor of the block that is absent, else `rest`.
pub open spec fn shared_absent(dir: &TensorDirectory, il: nat, rest: Option<Seq<char>>) -> Option<
    Seq<char>,
> {
    first_absent(
        dir,
        blk_name(il, "ffn_gate_inp_shexp.weight"@),
        first_absent(
            dir,
            blk_name(il, "ffn_gate_shexp.weight"@),
            first_absent(
                dir,
                blk_name(il, "ffn_up_shexp.weight"@),
                first_absent(dir, blk_name(il, "ffn_down_shexp.weight"@), rest),
            ),
        ),
    )
}

impl SharedExpertTensors {
    /// The fields are the directory's entries for the block of layer `il`.
    pub open spec fn resolves(&self, dir: &TensorDirectory, il: nat) -> bool {
        &&& self.ffn_gate_inp_shexp.resolves(dir, blk_name(il, "ffn_gate_inp_shexp.weight"@))
        &&& self.ffn_gate_shexp.resolves(dir, blk_name(il, "ffn_gate_shexp.weight"@))
        &&& self.ffn_up_shexp.resolves(dir, blk_name(il, "ffn_up_shexp.weight"@))
        &&& self.ffn_down_shexp.resolves(dir, blk_name(il, "ffn_down_shexp.weight"@))
    }

    fn resolve(dir: &TensorDirectory, il: usize) -> (r: Result<Self, MissingTensor>)
        requires
            dir.wf(),
        ensures
            match r {
                Ok(t) => t.resolves(dir, il as nat) && shared_absent(dir, il as nat, None) is None,
                Err(e) => shared_absent(dir, il as nat, None) == Some(e.name@),
            },
    {
        let n = MoeFfnNames::for_layer(il);
        let ffn_gate_inp_shexp = match required(dir, n.ffn_gate_inp_shexp.as_str()) {
            Ok(t) => t,
            Err(e) => return Err(e),
        };
        let ffn_gate_shexp = match required(dir, n.ffn_gate_shexp.as_str()) {
            Ok(t) => t,
            Err(e) => return Err(e),
        };
        let ffn_up_shexp = match required(dir, n.ffn_up_shexp.as_str()) {
            Ok(t) => t,
            Err(e) => return Err(e),
        };
        let ffn_down_shexp = match required(dir, n.ffn_down_shexp.as_str()) {
            Ok(t) => t,
            Err(e) => return Err(e),
        };
        Ok(SharedExpertTensors { ffn_gate_inp_shexp, ffn_gate_shexp, ffn_up_shexp, ffn_down_shexp })
    }
}

/// The first required tensor of the block that is absent, else `rest`.
pub open spec fn dense_ffn_absent(
    dir: &TensorDirectory,
    il: nat,
    rest: Option<Seq<char>>,
) -> Option<
    Seq<char>,
> {
    first_absent(
        dir,
        blk_name(il, "ffn_gate.weight"@),
        first_absent(
            dir,
            blk_name(il, "ffn_up.weight"@),
            first_absent(dir, blk_name(il, "ffn_down.weight"@), rest),
        ),
    )
}

impl DenseFfnTensors {
    /// The fields are the directory's entries for the block of layer `il`.
    pub open spec fn resolves(&self, dir: &TensorDirectory, il: nat) -> bool {
        &&& self.ffn_gate.resolves(dir, blk_name(il, "ffn_gate.weight"@))
        &&& self.ffn_up.resolves(dir, blk_name(il, "ffn_up.weight"@))
        &&& self.ffn_down.resolves(dir, blk_name(il, "ffn_down.weight"@))
    }

    fn resolve(dir: &TensorDirectory, il: usize) -> (r: Result<Self, MissingTensor>)
        requires
            dir.wf(),
        ensures
            match r {
                Ok(t) => t.resolves(dir, il as nat) && dense_ffn_absent(
                    dir,
                    il as nat,
                    None,
                ) is None,
                Err(e) => dense_ffn_absent(dir, il as nat, None) == Some(e.name@),
            },
    {
        let n = DenseFfnNames::for_layer(il);
        let ffn_gate = match required(dir, n.ffn_gate.as_str()) {
            Ok(t) => t,
            Err(e) => return Err(e),
        };
        let ffn_up = match required(dir, n.ffn_up.as_str()) {
            Ok(t) => t,
            Err(e) => return Err(e),
        };
        let ffn_down = match required(dir, n.ffn_down.as_str()) {
            Ok(t) => t,
            Err(e) => return Err(e),
        };
        Ok(DenseFfnTensors { ffn_gate, ffn_up, ffn_down })
    }
}

/// The first required tensor of the block that is absent, else `rest`.
pub open spec fn experts_absent(dir: &TensorDirectory, il: nat, rest: Option<Seq<char>>) -> Option<
    Seq<char>,
> {
    first_absent(
        dir,
        blk_name(il, "ffn_gate_inp.weight"@),
        first_absent(
            dir,
            blk_name(il, "ffn_gate_exps.weight"@),
            first_absent(
                dir,
                blk_name(il, "ffn_up_exps.weight"@),
                first_absent(dir, blk_name(il, "ffn_down_exps.weight"@), rest),
            ),
        ),
    )
}

/// The attention block of a layer.
#[derive(Debug, Clone)]
pub enum LayerAttnBlock {
    Dense(DenseAttnTensors),
    FullAttn(FullAttnTensors),
    Gdn(GdnTensors),
}

/// The FFN of a layer: `dense` for a dense FFN, else the experts and, where
/// the model has one, the shared expert.
#[derive(Debug, Clone)]
pub struct MoeFfnTensors {
    pub ffn_gate_inp: Option<ResolvedTensor>,
    pub ffn_gate_exps: Option<ResolvedTensor>,
    pub ffn_up_exps: Option<ResolvedTensor>,
    pub ffn_down_exps: Option<ResolvedTensor>,
    pub shared: Option<SharedExpertTensors>,
    pub dense: Option<DenseFfnTensors>,
}

/// All tensors of one layer.
#[derive(Debug, Clone)]
pub struct LayerDescriptor {
    pub layer_idx: usize,
    pub attn_norm: ResolvedTensor,
    pub post_attention_norm: Option<ResolvedTensor>,
    pub ffn_norm: Option<ResolvedTensor>,
    pub attn: LayerAttnBlock,
    pub ffn: MoeFfnTensors,
}

/// All tensors of a model. `output` is absent where the LM head is the
/// embedding.
#[derive(Debug, Clone)]
pub struct ModelLayout {
    pub token_embd: ResolvedTensor,
    pub output_norm: ResolvedTensor,
    pub output: Option<ResolvedTensor>,
    pub layers: Vec<LayerDescriptor>,
}

/// The first required attention tensor of layer `il` that is absent, else `rest`.
pub open spec fn attn_absent(
    dir: &TensorDirectory,
    cfg: &Qwen3MoEConfig,
    il: nat,
    rest: Option<Seq<char>>,
) -> Option<Seq<char>> {
    match cfg.family {
        AttentionFamily::Dense => dense_attn_absent(dir, il, rest),
        AttentionFamily::Hybrid => if cfg.spec_is_recurrent(il) {
            gdn_absent(dir, il, rest)
        } else {
            full_attn_absent(dir, il, rest)
        },
    }
}

/// The first required FFN tensor of layer `il` that is absent. The shared
/// expert comes before the routed ones.
pub open spec fn ffn_absent(dir: &TensorDirectory, cfg: &Qwen3MoEConfig, il: nat) -> Option<
    Seq<char>,
> {
    if cfg.spec_is_dense_ffn() {
        dense_ffn_absent(dir, il, None)
    } else if cfg.shared_expert_intermediate_size is Some {
        shared_absent(dir, il, experts_absent(dir, il, None))
    } else {
        experts_absent(dir, il, None)
    }
}

/// The first required tensor of layer `il` that is absent.
pub open spec fn layer_absent(dir: &TensorDirectory, cfg: &Qwen3MoEConfig, il: nat) -> Option<
    Seq<char>,
> {
    first_absent(
        dir,
        blk_name(il, "attn_norm.weight"@),
        first_absent(
            dir,
            blk_name(
                il,
                match cfg.family {
                    AttentionFamily::Dense => "ffn_norm.weight"@,
                    AttentionFamily::Hybrid => "post_attention_norm.weight"@,
                },
            ),
            attn_absent(dir, cfg, il, ffn_absent(dir, cfg, il)),
        ),
    )
}

/// The first required tensor of layers `0` to `n - 1` that is absent.
pub open spec fn layers_absent(dir: &TensorDirectory, cfg: &Qwen3MoEConfig, n: nat) -> Option<
    Seq<char>,
>
    decreases n,
{
    if n == 0 {
        None
    } else {
        match layers_absent(dir, cfg, (n - 1) as nat) {
            Some(x) => Some(x),
            None => layer_absent(dir, cfg, (n - 1) as nat),
        }
    }
}

/// The first tensor that the model requires and the directory lacks: the
/// embedding, the output norm, the LM head unless it is tied, then the layers.
pub open spec fn model_absent(dir: &TensorDirectory, cfg: &Qwen3MoEConfig) -> Option<Seq<char>> {
    let layers = layers_absent(dir, cfg, cfg.num_layers as nat);
    first_absent(
        dir,
        "token_embd.weight"@,
        first_absent(
            dir,
            "output_norm.weight"@,
            if cfg.tied_lm_head {
                layers
            } else {
                first_absent(dir, "output.weight"@, layers)
            },
        ),
    )
}

impl LayerAttnBlock {
    /// The block is the one that `cfg` gives layer `il`, with the directory's entries.
    pub open spec fn resolves(&self, dir: &TensorDirectory, cfg: &Qwen3MoEConfig, il: nat) -> bool {
        match self {
            LayerAttnBlock::Dense(d) => cfg.family == AttentionFamily::Dense && d.resolves(dir, il),
            LayerAttnBlock::FullAttn(f) => cfg.family == AttentionFamily::Hybrid
                && !cfg.spec_is_recurrent(il) && f.resolves(dir, il),
            LayerAttnBlock::Gdn(g) => cfg.family == AttentionFamily::Hybrid
                && cfg.spec_is_recurrent(il) && g.resolves(dir, il),
        }
    }
}

/// A tensor that is present exactly if `needed`.
pub open spec fn present_if(
    needed: bool,
    t: Option<ResolvedTensor>,
    dir: &TensorDirectory,
    name: Seq<char>,
) -> bool {
    match t {
        Some(t) => needed && t.resolves(dir, name),
        None => !needed,
    }
}

impl MoeFfnTensors {
    /// The FFN is the one that `cfg` gives layer `il`, with the directory's entries.
    pub open spec fn resolves(&self, dir: &TensorDirectory, cfg: &Qwen3MoEConfig, il: nat) -> bool {
        let moe = !cfg.spec_is_dense_ffn();
        &&& present_if(moe, self.ffn_gate_inp, dir, blk_name(il, "ffn_gate_inp.weight"@))
        &&& present_if(moe, self.ffn_gate_exps, dir, blk_name(il, "ffn_gate_exps.weight"@))
        &&& present_if(moe, self.ffn_up_exps, dir, blk_name(il, "ffn_up_exps.weight"@))
        &&& present_if(moe, self.ffn_down_exps, dir, blk_name(il, "ffn_down_exps.weight"@))
        &&& match self.shared {
            Some(s) => moe && cfg.shared_expert_intermediate_size is Some && s.resolves(dir, il),
            None => !moe || cfg.shared_expert_intermediate_size is None,
        }
        &&& match self.dense {
            Some(d) => !moe && d.resolves(dir, il),
            None => moe,
        }
    }

    fn resolve(dir: &TensorDirectory, cfg: &Qwen3MoEConfig, il: usize) -> (r: Result<
        Self,
        MissingTensor,
    >)
        requires
            dir.wf(),
        ensures
            match r {
                Ok(t) => t.resolves(dir, cfg, il as nat) && ffn_absent(dir, cfg, il as nat) is None,
                Err(e) => ffn_absent(dir, cfg, il as nat) == Some(e.name@),
            },
    {
        if cfg.is_dense_ffn() {
            let dense = match DenseFfnTensors::resolve(dir, il) {
                Ok(t) => t,
                Err(e) => return Err(e),
            };
            return Ok(
                MoeFfnTensors {
                    ffn_gate_inp: None,
                    ffn_gate_exps: None,
                    ffn_up_exps: None,
                    ffn_down_exps: None,
                    shared: None,
                    dense: Some(dense),
                },
            );
        }
        let shared: Option<SharedExpertTensors> = if cfg.shared_expert_intermediate_size.is_some() {
            match SharedExpertTensors::resolve(dir, il) {
                Ok(t) => Some(t),
                Err(e) => return Err(e),
            }
        } else {
            None
        };
        let n = MoeFfnNames::for_layer(il);
        let ffn_gate_inp = match required(dir, n.ffn_gate_inp.as_str()) {
            Ok(t) => t,
            Err(e) => return Err(e),
        };
        let ffn_gate_exps = match required(dir, n.ffn_gate_exps.as_str()) {
            Ok(t) => t,
            Err(e) => return Err(e),
        };
        let ffn_up_exps = match required(dir, n.ffn_up_exps.as_str()) {
            Ok(t) => t,
            Err(e) => return Err(e),
        };
        let ffn_down_exps = match required(dir, n.ffn_down_exps.as_str()) {
            Ok(t) => t,
            Err(e) => return Err(e),
        };
        Ok(
            MoeFfnTensors {
                ffn_gate_inp: Some(ffn_gate_inp),
                ffn_gate_exps: Some(ffn_gate_exps),
                ffn_up_exps: Some(ffn_up_exps),
                ffn_down_exps: Some(ffn_down_exps),
                shared,
                dense: None,
            },
        )
    }
}

impl LayerDescriptor {
    /// The descriptor is that of layer `il`, with the directory's entries.
    pub open spec fn resolves(&self, dir: &TensorDirectory, cfg: &Qwen3MoEConfig, il: nat) -> bool {
        let dense = cfg.family == AttentionFamily::Dense;
        &&& self.layer_idx == il
        &&& self.attn_norm.resolves(dir, blk_name(il, "attn_norm.weight"@))
        &&& present_if(
            !dense,
            self.post_attention_norm,
            dir,
            blk_name(il, "post_attention_norm.weight"@),
        )
        &&& present_if(dense, self.ffn_norm, dir, blk_name(il, "ffn_norm.weight"@))
        &&& self.attn.resolves(dir, cfg, il)
        &&& self.ffn.resolves(dir, cfg, il)
    }

    fn resolve(dir: &TensorDirectory, cfg: &Qwen3MoEConfig, il: usize) -> (r: Result<
        Self,
        MissingTensor,
    >)
        requires
            dir.wf(),
        ensures
            match r {
                Ok(d) => d.resolves(dir, cfg, il as nat) && layer_absent(dir, cfg, il as nat) is None,
                Err(e) => layer_absent(dir, cfg, il as nat) == Some(e.name@),
            },
    {
        let c = CommonNames::for_layer(il);
        let attn_norm = match required(dir, c.attn_norm.as_str()) {
            Ok(t) => t,
            Err(e) => return Err(e),
        };
        let (post_attention_norm, ffn_norm) = match cfg.family {
            AttentionFamily::Dense => match required(dir, c.ffn_norm.as_str()) {
                Ok(t) => (None, Some(t)),
                Err(e) => return Err(e),
            },
            AttentionFamily::Hybrid => match required(dir, c.post_attention_norm.as_str()) {
                Ok(t) => (Some(t), None),
                Err(e) => return Err(e),
            },
        };
        let recurrent = cfg.is_recurrent(il);
        let attn = match cfg.family {
            AttentionFamily::Dense => match DenseAttnTensors::resolve(dir, il) {
                Ok(t) => LayerAttnBlock::Dense(t),
                Err(e) => return Err(e),
            },
            AttentionFamily::Hybrid => if recurrent {
                match GdnTensors::resolve(dir, il) {
                    Ok(t) => LayerAttnBlock::Gdn(t),
                    Err(e) => return Err(e),
                }
            } else {
                match FullAttnTensors::resolve(dir, il) {
                    Ok(t) => LayerAttnBlock::FullAttn(t),
                    Err(e) => return Err(e),
                }
            },
        };
        let ffn = match MoeFfnTensors::resolve(dir, cfg, il) {
            Ok(t) => t,
            Err(e) => return Err(e),
        };
        Ok(
            LayerDescriptor { layer_idx: il, attn_norm, post_attention_norm, ffn_norm, attn, ffn },
        )
    }
}

proof fn lemma_layers_absent_stays(dir: &TensorDirectory, cfg: &Qwen3MoEConfig, n: nat, m: nat)
    requires
        n <= m,
        layers_absent(dir, cfg, n) is Some,
    ensures
        layers_absent(dir, cfg, m) == layers_absent(dir, cfg, n),
    decreases m,
{
    if n < m {
        lemma_layers_absent_stays(dir, cfg, n, (m - 1) as nat);
    }
}

impl ModelLayout {
    /// The layout is that of `cfg`, with the directory's entries.
    pub open spec fn resolves(&self, dir: &TensorDirectory, cfg: &Qwen3MoEConfig) -> bool {
        &&& self.token_embd.resolves(dir, "token_embd.weight"@)
        &&& self.output_norm.resolves(dir, "output_norm.weight"@)
        &&& present_if(!cfg.tied_lm_head, self.output, dir, "output.weight"@)
        &&& self.layers@.len() == cfg.num_layers
        &&& forall|i: int|
            0 <= i < self.layers@.len() ==> (#[trigger] self.layers@[i]).resolves(
                dir,
                cfg,
                i as nat,
            )
    }

    /// Resolves every tensor that `cfg` asks for. Fails on the first required
    /// tensor that the directory lacks; optional tensors may be absent.
    pub fn from_gguf(dir: &TensorDirectory, cfg: &Qwen3MoEConfig) -> (r: Result<
        Self,
        MissingTensor,
    >)
        requires
            dir.wf(),
        ensures
            match r {
                Ok(l) => model_absent(dir, cfg) is None && l.resolves(dir, cfg),
                Err(e) => model_absent(dir, cfg) == Some(e.name@),
            },
    {
        let token_embd = match required(dir, GlobalNames::TOKEN_EMBD) {
            Ok(t) => t,
            Err(e) => return Err(e),
        };
        let output_norm = match required(dir, GlobalNames::OUTPUT_NORM) {
            Ok(t) => t,
            Err(e) => return Err(e),
        };
        let output: Option<ResolvedTensor> = if cfg.tied_lm_head {
            None
        } else {
            match required(dir, GlobalNames::OUTPUT) {
                Ok(t) => Some(t),
                Err(e) => return Err(e),
            }
        };
        let mut layers: Vec<LayerDescriptor> = Vec::new();
        let n: usize = cfg.num_layers;
        let mut il: usize = 0;
        while il < n
            invariant
                il <= n,
                dir.wf(),
                n == cfg.num_layers,
                layers@.len() == il,
                layers_absent(dir, cfg, il as nat) is None,
                dir.spec_info("token_embd.weight"@) is Some,
                dir.spec_info("output_norm.weight"@) is Some,
                !cfg.tied_lm_head ==> dir.spec_info("output.weight"@) is Some,
                forall|i: int|
                    0 <= i < il ==> (#[trigger] layers@[i]).resolves(dir, cfg, i as nat),
            decreases n - il,
        {
            match LayerDescriptor::resolve(dir, cfg, il) {
                Ok(d) => layers.push(d),
                Err(e) => {
                    proof {
                        lemma_layers_absent_stays(dir, cfg, (il + 1) as nat, n as nat);
                    }
                    return Err(e);
                },
            }
            il = il + 1;
        }
        Ok(ModelLayout { token_embd, output_norm, output, layers })
    }
}

/// Bytes of an optional tensor.
pub open spec fn opt_bytes(t: Option<ResolvedTensor>) -> nat {
    match t {
        Some(t) => t.size_bytes as nat,
        None => 0,
    }
}

fn opt_size(t: &Option<ResolvedTensor>) -> (r: u64)
    ensures
        r == opt_bytes(*t),
{
    match t {
        Some(t) => t.size_bytes,
        None => 0,
    }
}

/// Bytes of an attention block.
pub open spec fn spec_attn_block_bytes(b: LayerAttnBlock) -> nat {
    match b {
        LayerAttnBlock::Dense(d) => d.attn_q.size_bytes as nat
            + d.attn_k.size_bytes as nat
            + d.attn_v.size_bytes as nat
            + d.attn_output.size_bytes as nat
            + d.attn_q_norm.size_bytes as nat
            + d.attn_k_norm.size_bytes as nat
            + opt_bytes(d.attn_q_bias)
            + opt_bytes(d.attn_k_bias)
            + opt_bytes(d.attn_v_bias),
        LayerAttnBlock::FullAttn(f) => f.attn_q.size_bytes as nat
            + f.attn_k.size_bytes as nat
            + f.attn_v.size_bytes as nat
            + f.attn_output.size_bytes as nat
            + f.attn_q_norm.size_bytes as nat
            + f.attn_k_norm.size_bytes as nat,
        LayerAttnBlock::Gdn(g) => g.attn_qkv.size_bytes as nat
            + g.attn_gate.size_bytes as nat
            + g.ssm_a.size_bytes as nat
            + g.ssm_dt_bias.size_bytes as nat
            + g.ssm_conv1d.size_bytes as nat
            + g.ssm_norm.size_bytes as nat
            + g.ssm_out.size_bytes as nat
            + opt_bytes(g.ssm_alpha)
            + opt_bytes(g.ssm_beta)
            + opt_bytes(g.ssm_ba),
    }
}

/// Bytes of an FFN.
pub open spec fn spec_ffn_bytes(f: MoeFfnTensors) -> nat {
    opt_bytes(f.ffn_gate_inp) + opt_bytes(f.ffn_gate_exps) + opt_bytes(f.ffn_up_exps) + opt_bytes(
        f.ffn_down_exps,
    ) + (match f.shared {
        Some(s) => s.ffn_gate_inp_shexp.size_bytes as nat
            + s.ffn_gate_shexp.size_bytes as nat
            + s.ffn_up_shexp.size_bytes as nat
            + s.ffn_down_shexp.size_bytes as nat,
        None => 0,
    }) + (match f.dense {
        Some(d) => d.ffn_gate.size_bytes as nat + d.ffn_up.size_bytes as nat + d.ffn_down.size_bytes as nat,
        None => 0,
    })
}

/// Bytes of a layer.
pub open spec fn layer_bytes(l: LayerDescriptor) -> nat {
    l.attn_norm.size_bytes as nat + opt_bytes(l.post_attention_norm) + opt_bytes(l.ffn_norm)
        + spec_attn_block_bytes(l.attn) + spec_ffn_bytes(l.ffn)
}

/// The bytes of each layer.
pub open spec fn layers_bytes(layers: Seq<LayerDescriptor>) -> Seq<nat> {
    Seq::new(layers.len(), |i: int| layer_bytes(layers[i]))
}

/// Bytes of all tensors of the model.
pub open spec fn model_bytes(l: ModelLayout) -> nat {
    l.token_embd.size_bytes as nat + l.output_norm.size_bytes as nat + opt_bytes(l.output) + sum(
        layers_bytes(l.layers@),
    )
}

fn attn_block_bytes(block: &LayerAttnBlock) -> (r: u64)
    requires
        spec_attn_block_bytes(*block) <= u64::MAX,
    ensures
        r == spec_attn_block_bytes(*block),
{
    match block {
        LayerAttnBlock::Dense(d) => d.attn_q.size_bytes
            + d.attn_k.size_bytes
            + d.attn_v.size_bytes
            + d.attn_output.size_bytes
            + d.attn_q_norm.size_bytes
            + d.attn_k_norm.size_bytes
            + opt_size(&d.attn_q_bias)
            + opt_size(&d.attn_k_bias)
            + opt_size(&d.attn_v_bias),
        LayerAttnBlock::FullAttn(f) => f.attn_q.size_bytes
            + f.attn_k.size_bytes
            + f.attn_v.size_bytes
            + f.attn_output.size_bytes
            + f.attn_q_norm.size_bytes
            + f.attn_k_norm.size_bytes,
        LayerAttnBlock::Gdn(g) => g.attn_qkv.size_bytes
            + g.attn_gate.size_bytes
            + g.ssm_a.size_bytes
            + g.ssm_dt_bias.size_bytes
            + g.ssm_conv1d.size_bytes
            + g.ssm_norm.size_bytes
            + g.ssm_out.size_bytes
            + opt_size(&g.ssm_alpha)
            + opt_size(&g.ssm_beta)
            + opt_size(&g.ssm_ba),
    }
}

fn ffn_bytes(f: &MoeFfnTensors) -> (r: u64)
    requires
        spec_ffn_bytes(*f) <= u64::MAX,
    ensures
        r == spec_ffn_bytes(*f),
{
    let mut s: u64 = opt_size(&f.ffn_gate_inp) + opt_size(&f.ffn_gate_exps) + opt_size(
        &f.ffn_up_exps,
    ) + opt_size(&f.ffn_down_exps);
    if let Some(sh) = &f.shared {
        s = s + (sh.ffn_gate_inp_shexp.size_bytes + sh.ffn_gate_shexp.size_bytes
            + sh.ffn_up_shexp.size_bytes + sh.ffn_down_shexp.size_bytes);
    }
    if let Some(d) = &f.dense {
        s = s + (d.ffn_gate.size_bytes + d.ffn_up.size_bytes + d.ffn_down.size_bytes);
    }
    s
}

impl ModelLayout {
    /// Bytes of all tensors of the model.
    pub fn total_bytes(&self) -> (r: u64)
        requires
            model_bytes(*self) <= u64::MAX,
        ensures
            r == model_bytes(*self),
    {
        let mut total: u64 = self.token_embd.size_bytes + self.output_norm.size_bytes + opt_size(
            &self.output,
        );
        let ghost sizes = layers_bytes(self.layers@);
        let ghost base = total as nat;
        let mut i: usize = 0;
        proof {
            assert(sizes.take(0) =~= Seq::<nat>::empty());
        }
        while i < self.layers.len()
            invariant
                i <= self.layers@.len(),
                sizes == layers_bytes(self.layers@),
                base + sum(sizes) <= u64::MAX,
                total == base + sum(sizes.take(i as int)),
            decreases self.layers@.len() - i,
        {
            let l = &self.layers[i];
            proof {
                lemma_sum_step(sizes, i as int);
                lemma_sum_prefix(sizes, i as int + 1);
                assert(sizes[i as int] == layer_bytes(*l));
            }
            total = total + (l.attn_norm.size_bytes + opt_size(&l.post_attention_norm) + opt_size(
                &l.ffn_norm,
            ) + attn_block_bytes(&l.attn) + ffn_bytes(&l.ffn));
            i = i + 1;
        }
        proof {
            assert(sizes.take(sizes.len() as int) =~= sizes);
        }
        total
    }
}

} // verus!
