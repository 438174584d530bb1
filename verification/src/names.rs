//! The tensor names of the model family.
//!
//! A per-layer tensor is named `blk.<layer>.<suffix>`.

use crate::text::{
    all_digits, dec, is_digit, lemma_dec_digits, lemma_dec_injective, owned, push_dec,
};
use vstd::prelude::*;

verus! {

/// The name of the tensor `suffix` of `layer`.
pub open spec fn blk_name(layer: nat, suffix: Seq<char>) -> Seq<char> {
    "blk."@ + dec(layer) + "."@ + suffix
}

/// The name of the tensor `suffix` of `layer`.
pub fn blk(layer: usize, suffix: &str) -> (r: String)
    ensures
        r@ == blk_name(layer as nat, suffix@),
{
    let mut s = owned("blk.");
    push_dec(&mut s, layer as u64);
    s.append(".");
    s.append(suffix);
    s
}

/// Names shared by every kind of layer.
#[derive(Debug, Clone)]
pub struct CommonNames {
    /// Norm before the attention block.
    pub attn_norm: String,
    /// Norm between attention and FFN on hybrid architectures.
    pub post_attention_norm: String,
    /// Norm before the FFN on dense architectures.
    pub ffn_norm: String,
}

/// Plain self-attention block.
#[derive(Debug, Clone)]
pub struct DenseAttnNames {
    pub attn_q: String,
    pub attn_k: String,
    pub attn_v: String,
    pub attn_output: String,
    pub attn_q_norm: String,
    pub attn_k_norm: String,
    pub attn_q_bias: String,
    pub attn_k_bias: String,
    pub attn_v_bias: String,
}

/// Gated full-attention block. `attn_q` holds Q and the output gate side by side.
#[derive(Debug, Clone)]
pub struct FullAttnNames {
    pub attn_q: String,
    pub attn_k: String,
    pub attn_v: String,
    pub attn_output: String,
    pub attn_q_norm: String,
    pub attn_k_norm: String,
}

/// Gated-delta-net block.
#[derive(Debug, Clone)]
pub struct GdnNames {
    /// Fused Q/K/V projection.
    pub attn_qkv: String,
    /// Output gate projection.
    pub attn_gate: String,
    pub ssm_alpha: String,
    pub ssm_beta: String,
    /// Alpha and beta in one tensor, where they are not separate.
    pub ssm_ba: String,
    /// Decay rate per V head.
    pub ssm_a: String,
    /// Time-step bias per V head.
    pub ssm_dt_bias: String,
    /// Causal convolution weights.
    pub ssm_conv1d: String,
    pub ssm_norm: String,
    /// Output projection.
    pub ssm_out: String,
}

/// Dense FFN block.
#[derive(Debug, Clone)]
pub struct DenseFfnNames {
    pub ffn_gate: String,
    pub ffn_up: String,
    pub ffn_down: String,
}

/// Routed experts, and the shared expert where there is one.
#[derive(Debug, Clone)]
pub struct MoeFfnNames {
    /// Router.
    pub ffn_gate_inp: String,
    pub ffn_gate_exps: String,
    pub ffn_up_exps: String,
    pub ffn_down_exps: String,
    /// Scalar gate of the shared expert.
    pub ffn_gate_inp_shexp: String,
    pub ffn_gate_shexp: String,
    pub ffn_up_shexp: String,
    pub ffn_down_shexp: String,
}

impl CommonNames {
    /// The fields are the names of this block's tensors in `layer`.
    pub open spec fn named_for(&self, layer: nat) -> bool {
        &&& self.attn_norm@ == blk_name(layer, "attn_norm.weight"@)
        &&& self.post_attention_norm@ == blk_name(layer, "post_attention_norm.weight"@)
        &&& self.ffn_norm@ == blk_name(layer, "ffn_norm.weight"@)
    }

    pub fn for_layer(layer: usize) -> (r: Self)
        ensures
            r.named_for(layer as nat),
    {
        CommonNames {
            attn_norm: blk(layer, "attn_norm.weight"),
            post_attention_norm: blk(layer, "post_attention_norm.weight"),
            ffn_norm: blk(layer, "ffn_norm.weight"),
        }
    }
}

impl DenseAttnNames {
    /// The fields are the names of this block's tensors in `layer`.
    pub open spec fn named_for(&self, layer: nat) -> bool {
        &&& self.attn_q@ == blk_name(layer, "attn_q.weight"@)
        &&& self.attn_k@ == blk_name(layer, "attn_k.weight"@)
        &&& self.attn_v@ == blk_name(layer, "attn_v.weight"@)
        &&& self.attn_output@ == blk_name(layer, "attn_output.weight"@)
        &&& self.attn_q_norm@ == blk_name(layer, "attn_q_norm.weight"@)
        &&& self.attn_k_norm@ == blk_name(layer, "attn_k_norm.weight"@)
        &&& self.attn_q_bias@ == blk_name(layer, "attn_q.bias"@)
        &&& self.attn_k_bias@ == blk_name(layer, "attn_k.bias"@)
        &&& self.attn_v_bias@ == blk_name(layer, "attn_v.bias"@)
    }

    pub fn for_layer(layer: usize) -> (r: Self)
        ensures
            r.named_for(layer as nat),
    {
        DenseAttnNames {
            attn_q: blk(layer, "attn_q.weight"),
            attn_k: blk(layer, "attn_k.weight"),
            attn_v: blk(layer, "attn_v.weight"),
            attn_output: blk(layer, "attn_output.weight"),
            attn_q_norm: blk(layer, "attn_q_norm.weight"),
            attn_k_norm: blk(layer, "attn_k_norm.weight"),
            attn_q_bias: blk(layer, "attn_q.bias"),
            attn_k_bias: blk(layer, "attn_k.bias"),
            attn_v_bias: blk(layer, "attn_v.bias"),
        }
    }
}

impl FullAttnNames {
    /// The fields are the names of this block's tensors in `layer`.
    pub open spec fn named_for(&self, layer: nat) -> bool {
        &&& self.attn_q@ == blk_name(layer, "attn_q.weight"@)
        &&& self.attn_k@ == blk_name(layer, "attn_k.weight"@)
        &&& self.attn_v@ == blk_name(layer, "attn_v.weight"@)
        &&& self.attn_output@ == blk_name(layer, "attn_output.weight"@)
        &&& self.attn_q_norm@ == blk_name(layer, "attn_q_norm.weight"@)
        &&& self.attn_k_norm@ == blk_name(layer, "attn_k_norm.weight"@)
    }

    pub fn for_layer(layer: usize) -> (r: Self)
        ensures
            r.named_for(layer as nat),
    {
        FullAttnNames {
            attn_q: blk(layer, "attn_q.weight"),
            attn_k: blk(layer, "attn_k.weight"),
            attn_v: blk(layer, "attn_v.weight"),
            attn_output: blk(layer, "attn_output.weight"),
            attn_q_norm: blk(layer, "attn_q_norm.weight"),
            attn_k_norm: blk(layer, "attn_k_norm.weight"),
        }
    }
}

impl GdnNames {
    /// The fields are the names of this block's tensors in `layer`.
    pub open spec fn named_for(&self, layer: nat) -> bool {
        &&& self.attn_qkv@ == blk_name(layer, "attn_qkv.weight"@)
        &&& self.attn_gate@ == blk_name(layer, "attn_gate.weight"@)
        &&& self.ssm_alpha@ == blk_name(layer, "ssm_alpha.weight"@)
        &&& self.ssm_beta@ == blk_name(layer, "ssm_beta.weight"@)
        &&& self.ssm_ba@ == blk_name(layer, "ssm_ba.weight"@)
        &&& self.ssm_a@ == blk_name(layer, "ssm_a"@)
        &&& self.ssm_dt_bias@ == blk_name(layer, "ssm_dt.bias"@)
        &&& self.ssm_conv1d@ == blk_name(layer, "ssm_conv1d.weight"@)
        &&& self.ssm_norm@ == blk_name(layer, "ssm_norm.weight"@)
        &&& self.ssm_out@ == blk_name(layer, "ssm_out.weight"@)
    }

    pub fn for_layer(layer: usize) -> (r: Self)
        ensures
            r.named_for(layer as nat),
    {
        GdnNames {
            attn_qkv: blk(layer, "attn_qkv.weight"),
            attn_gate: blk(layer, "attn_gate.weight"),
            ssm_alpha: blk(layer, "ssm_alpha.weight"),
            ssm_beta: blk(layer, "ssm_beta.weight"),
            ssm_ba: blk(layer, "ssm_ba.weight"),
            ssm_a: blk(layer, "ssm_a"),
            ssm_dt_bias: blk(layer, "ssm_dt.bias"),
            ssm_conv1d: blk(layer, "ssm_conv1d.weight"),
            ssm_norm: blk(layer, "ssm_norm.weight"),
            ssm_out: blk(layer, "ssm_out.weight"),
        }
    }
}

impl DenseFfnNames {
    /// The fields are the names of this block's tensors in `layer`.
    pub open spec fn named_for(&self, layer: nat) -> bool {
        &&& self.ffn_gate@ == blk_name(layer, "ffn_gate.weight"@)
        &&& self.ffn_up@ == blk_name(layer, "ffn_up.weight"@)
        &&& self.ffn_down@ == blk_name(layer, "ffn_down.weight"@)
    }

    pub fn for_layer(layer: usize) -> (r: Self)
        ensures
            r.named_for(layer as nat),
    {
        DenseFfnNames {
            ffn_gate: blk(layer, "ffn_gate.weight"),
            ffn_up: blk(layer, "ffn_up.weight"),
            ffn_down: blk(layer, "ffn_down.weight"),
        }
    }
}

impl MoeFfnNames {
    /// The fields are the names of this block's tensors in `layer`.
    pub open spec fn named_for(&self, layer: nat) -> bool {
        &&& self.ffn_gate_inp@ == blk_name(layer, "ffn_gate_inp.weight"@)
        &&& self.ffn_gate_exps@ == blk_name(layer, "ffn_gate_exps.weight"@)
        &&& self.ffn_up_exps@ == blk_name(layer, "ffn_up_exps.weight"@)
        &&& self.ffn_down_exps@ == blk_name(layer, "ffn_down_exps.weight"@)
        &&& self.ffn_gate_inp_shexp@ == blk_name(layer, "ffn_gate_inp_shexp.weight"@)
        &&& self.ffn_gate_shexp@ == blk_name(layer, "ffn_gate_shexp.weight"@)
        &&& self.ffn_up_shexp@ == blk_name(layer, "ffn_up_shexp.weight"@)
        &&& self.ffn_down_shexp@ == blk_name(layer, "ffn_down_shexp.weight"@)
    }

    pub fn for_layer(layer: usize) -> (r: Self)
        ensures
            r.named_for(layer as nat),
    {
        MoeFfnNames {
            ffn_gate_inp: blk(layer, "ffn_gate_inp.weight"),
            ffn_gate_exps: blk(layer, "ffn_gate_exps.weight"),
            ffn_up_exps: blk(layer, "ffn_up_exps.weight"),
            ffn_down_exps: blk(layer, "ffn_down_exps.weight"),
            ffn_gate_inp_shexp: blk(layer, "ffn_gate_inp_shexp.weight"),
            ffn_gate_shexp: blk(layer, "ffn_gate_shexp.weight"),
            ffn_up_shexp: blk(layer, "ffn_up_shexp.weight"),
            ffn_down_shexp: blk(layer, "ffn_down_shexp.weight"),
        }
    }
}

/// The per-layer tensors that the forward passes look up by name.
#[derive(Debug, Clone, Copy, PartialEq, Eq, Structural)]
pub enum TensorKind {
    AttnNorm,
    PostAttentionNorm,
    FfnNorm,
    AttnQ,
    AttnK,
    AttnV,
    AttnOutput,
    AttnQNorm,
    AttnKNorm,
    AttnQkv,
    AttnGate,
    SsmAlpha,
    SsmBeta,
    SsmA,
    SsmDtBias,
    SsmConv1d,
    SsmNorm,
    SsmOut,
    FfnGate,
    FfnUp,
    FfnDown,
    FfnGateInp,
    FfnGateExps,
    FfnUpExps,
    FfnDownExps,
    FfnGateInpShexp,
    FfnGateShexp,
    FfnUpShexp,
    FfnDownShexp,
}

impl TensorKind {
    /// The suffix of the tensor's name.
    pub open spec fn spec_text(self) -> Seq<char> {
        match self {
            TensorKind::AttnNorm => "attn_norm.weight"@,
            TensorKind::PostAttentionNorm => "post_attention_norm.weight"@,
            TensorKind::FfnNorm => "ffn_norm.weight"@,
            TensorKind::AttnQ => "attn_q.weight"@,
            TensorKind::AttnK => "attn_k.weight"@,
            TensorKind::AttnV => "attn_v.weight"@,
            TensorKind::AttnOutput => "attn_output.weight"@,
            TensorKind::AttnQNorm => "attn_q_norm.weight"@,
            TensorKind::AttnKNorm => "attn_k_norm.weight"@,
            TensorKind::AttnQkv => "attn_qkv.weight"@,
            TensorKind::AttnGate => "attn_gate.weight"@,
            TensorKind::SsmAlpha => "ssm_alpha.weight"@,
            TensorKind::SsmBeta => "ssm_beta.weight"@,
            TensorKind::SsmA => "ssm_a"@,
            TensorKind::SsmDtBias => "ssm_dt.bias"@,
            TensorKind::SsmConv1d => "ssm_conv1d.weight"@,
            TensorKind::SsmNorm => "ssm_norm.weight"@,
            TensorKind::SsmOut => "ssm_out.weight"@,
            TensorKind::FfnGate => "ffn_gate.weight"@,
            TensorKind::FfnUp => "ffn_up.weight"@,
            TensorKind::FfnDown => "ffn_down.weight"@,
            TensorKind::FfnGateInp => "ffn_gate_inp.weight"@,
            TensorKind::FfnGateExps => "ffn_gate_exps.weight"@,
            TensorKind::FfnUpExps => "ffn_up_exps.weight"@,
            TensorKind::FfnDownExps => "ffn_down_exps.weight"@,
            TensorKind::FfnGateInpShexp => "ffn_gate_inp_shexp.weight"@,
            TensorKind::FfnGateShexp => "ffn_gate_shexp.weight"@,
            TensorKind::FfnUpShexp => "ffn_up_shexp.weight"@,
            TensorKind::FfnDownShexp => "ffn_down_shexp.weight"@,
        }
    }

    pub fn text(self) -> (r: &'static str)
        ensures
            r@ == self.spec_text(),
    {
        match self {
            TensorKind::AttnNorm => "attn_norm.weight",
            TensorKind::PostAttentionNorm => "post_attention_norm.weight",
            TensorKind::FfnNorm => "ffn_norm.weight",
            TensorKind::AttnQ => "attn_q.weight",
            TensorKind::AttnK => "attn_k.weight",
            TensorKind::AttnV => "attn_v.weight",
            TensorKind::AttnOutput => "attn_output.weight",
            TensorKind::AttnQNorm => "attn_q_norm.weight",
            TensorKind::AttnKNorm => "attn_k_norm.weight",
            TensorKind::AttnQkv => "attn_qkv.weight",
            TensorKind::AttnGate => "attn_gate.weight",
            TensorKind::SsmAlpha => "ssm_alpha.weight",
            TensorKind::SsmBeta => "ssm_beta.weight",
            TensorKind::SsmA => "ssm_a",
            TensorKind::SsmDtBias => "ssm_dt.bias",
            TensorKind::SsmConv1d => "ssm_conv1d.weight",
            TensorKind::SsmNorm => "ssm_norm.weight",
            TensorKind::SsmOut => "ssm_out.weight",
            TensorKind::FfnGate => "ffn_gate.weight",
            TensorKind::FfnUp => "ffn_up.weight",
            TensorKind::FfnDown => "ffn_down.weight",
            TensorKind::FfnGateInp => "ffn_gate_inp.weight",
            TensorKind::FfnGateExps => "ffn_gate_exps.weight",
            TensorKind::FfnUpExps => "ffn_up_exps.weight",
            TensorKind::FfnDownExps => "ffn_down_exps.weight",
            TensorKind::FfnGateInpShexp => "ffn_gate_inp_shexp.weight",
            TensorKind::FfnGateShexp => "ffn_gate_shexp.weight",
            TensorKind::FfnUpShexp => "ffn_up_shexp.weight",
            TensorKind::FfnDownShexp => "ffn_down_shexp.weight",
        }
    }
}

/// The names of the dense attention block, under their general name.
pub type TensorNames = DenseAttnNames;

/// The common names of layers `0` to `num_layers - 1`, in order.
pub fn layer_names(num_layers: usize) -> (r: Vec<CommonNames>)
    ensures
        r@.len() == num_layers,
        forall|i: int| 0 <= i < num_layers ==> #[trigger] r@[i].named_for(i as nat),
{
    let mut out: Vec<CommonNames> = Vec::new();
    let mut i: usize = 0;
    while i < num_layers
        invariant
            i <= num_layers,
            out@.len() == i,
            forall|j: int| 0 <= j < i ==> #[trigger] out@[j].named_for(j as nat),
        decreases num_layers - i,
    {
        out.push(CommonNames::for_layer(i));
        i = i + 1;
    }
    out
}

/// Tensors that belong to no layer.
#[derive(Debug)]
pub struct GlobalNames;

impl GlobalNames {
    pub const TOKEN_EMBD: &'static str = "token_embd.weight";

    pub const OUTPUT_NORM: &'static str = "output_norm.weight";

    pub const OUTPUT: &'static str = "output.weight";
}

/// The place of the first `.` in `s`.
pub open spec fn first_dot(s: Seq<char>) -> Option<nat>
    decreases s.len(),
{
    if s.len() == 0 {
        None
    } else if s[0] == '.' {
        Some(0)
    } else {
        match first_dot(s.drop_first()) {
            Some(i) => Some(i + 1),
            None => None,
        }
    }
}

/// What follows `blk.<digits>.` at the start of `name`.
pub open spec fn strip_blk(name: Seq<char>) -> Option<Seq<char>> {
    if name.len() < 4 || name.take(4) != "blk."@ {
        None
    } else {
        let rest = name.skip(4);
        match first_dot(rest) {
            Some(d) => if d >= 1 && all_digits(rest.take(d as int)) {
                Some(rest.skip(d as int + 1))
            } else {
                None
            },
            None => None,
        }
    }
}

proof fn lemma_first_dot_at(s: Seq<char>, d: nat)
    requires
        d < s.len(),
        s[d as int] == '.',
        forall|i: int| 0 <= i < d ==> s[i] != '.',
    ensures
        first_dot(s) == Some(d),
    decreases d,
{
    if d > 0 {
        let t = s.drop_first();
        assert(t[d as int - 1] == s[d as int]);
        assert forall|i: int| 0 <= i < d - 1 implies t[i] != '.' by {
            assert(t[i] == s[i + 1]);
        }
        lemma_first_dot_at(t, (d - 1) as nat);
    }
}

proof fn lemma_no_dot(s: Seq<char>)
    requires
        forall|i: int| 0 <= i < s.len() ==> s[i] != '.',
    ensures
        first_dot(s) is None,
    decreases s.len(),
{
    if s.len() > 0 {
        lemma_no_dot(s.drop_first());
    }
}

/// A per-layer name splits back into the suffix it was made from.
pub proof fn law_strip_undoes_blk(layer: nat, suffix: Seq<char>)
    ensures
        strip_blk(blk_name(layer, suffix)) == Some(suffix),
{
    reveal_strlit("blk.");
    reveal_strlit(".");
    let d = dec(layer);
    lemma_dec_digits(layer);
    let name = blk_name(layer, suffix);
    assert(name.take(4) =~= "blk."@);
    let rest = name.skip(4);
    assert(rest =~= d + "."@ + suffix);
    assert forall|i: int| 0 <= i < d.len() implies rest[i] != '.' by {
        assert(rest[i] == d[i]);
        assert(is_digit(d[i]));
    }
    assert(rest[d.len() as int] == '.');
    lemma_first_dot_at(rest, d.len());
    assert(rest.take(d.len() as int) =~= d);
    assert(rest.skip(d.len() as int + 1) =~= suffix);
}

/// Two per-layer names are equal only for the same layer and suffix.
pub proof fn law_names_distinct(l1: nat, s1: Seq<char>, l2: nat, s2: Seq<char>)
    requires
        blk_name(l1, s1) == blk_name(l2, s2),
    ensures
        l1 == l2,
        s1 == s2,
{
    reveal_strlit("blk.");
    reveal_strlit(".");
    law_strip_undoes_blk(l1, s1);
    law_strip_undoes_blk(l2, s2);
    let n1 = blk_name(l1, s1);
    let n2 = blk_name(l2, s2);
    assert(n1.len() == 4 + dec(l1).len() + 1 + s1.len());
    assert(n2.len() == 4 + dec(l2).len() + 1 + s2.len());
    assert(n1.subrange(4, 4 + dec(l1).len() as int) =~= dec(l1));
    assert(n2.subrange(4, 4 + dec(l2).len() as int) =~= dec(l2));
    lemma_dec_injective(l1, l2);
}

/// What follows `blk.<digits>.` at the start of `name`, `None` where `name`
/// does not begin so.
pub fn strip_blk_prefix(name: &str) -> (r: Option<&str>)
    ensures
        match r {
            Some(s) => strip_blk(name@) == Some(s@),
            None => strip_blk(name@) is None,
        },
{
    let n: usize = name.unicode_len();
    if n < 4 {
        return None;
    }
    let head = name.substring_char(0, 4);
    proof {
        assert(name@.take(4) =~= name@.subrange(0, 4));
    }
    if !crate::text::str_eq(head, "blk.") {
        return None;
    }
    let ghost rest = name@.skip(4);
    let mut i: usize = 4;
    while i < n
        invariant_except_break
            forall|j: int| 0 <= j < i - 4 ==> rest[j] != '.',
        invariant
            4 <= i <= n,
            n == name@.len(),
            rest == name@.skip(4),
            all_digits(rest.take(i - 4)),
            forall|j: int| 0 <= j < i - 4 ==> rest[j] != '.',
        ensures
            i < n ==> rest[i - 4] == '.',
            i == n ==> forall|j: int| 0 <= j < rest.len() ==> rest[j] != '.',
        decreases n - i,
    {
        let c = name.get_char(i);
        proof {
            assert(c == rest[i - 4]);
        }
        if c == '.' {
            break;
        }
        if !(c >= '0' && c <= '9') {
            proof {
                lemma_not_all_digits(rest, i - 4);
            }
            return None;
        }
        proof {
            assert(rest.take(i - 4 + 1) =~= rest.take(i - 4).push(c));
        }
        i = i + 1;
    }
    if i == n {
        proof {
            lemma_no_dot(rest);
        }
        return None;
    }
    proof {
        lemma_first_dot_at(rest, (i - 4) as nat);
    }
    if i == 4 {
        return None;
    }
    let s = name.substring_char(i + 1, n);
    proof {
        assert(s@ =~= rest.skip(i - 4 + 1));
    }
    Some(s)
}

/// A character that is neither a digit nor a dot before the first dot spoils
/// the layer number.
proof fn lemma_not_all_digits(rest: Seq<char>, k: int)
    requires
        0 <= k < rest.len(),
        !is_digit(rest[k]),
        rest[k] != '.',
        forall|j: int| 0 <= j < k ==> rest[j] != '.',
    ensures
        match first_dot(rest) {
            Some(d) => !all_digits(rest.take(d as int)),
            None => true,
        },
{
    lemma_first_dot_after(rest, k);
    match first_dot(rest) {
        Some(d) => {
            assert(rest.take(d as int)[k] == rest[k]);
        },
        None => {},
    }
}

/// The first dot lies beyond any prefix without dots, and within `s`.
proof fn lemma_first_dot_after(s: Seq<char>, k: int)
    requires
        0 <= k < s.len(),
        forall|j: int| 0 <= j <= k ==> s[j] != '.',
    ensures
        match first_dot(s) {
            Some(d) => k < d < s.len(),
            None => true,
        },
    decreases s.len(),
{
    let t = s.drop_first();
    if k > 0 {
        assert forall|j: int| 0 <= j <= k - 1 implies t[j] != '.' by {
            assert(t[j] == s[j + 1]);
        }
        lemma_first_dot_after(t, k - 1);
    } else {
        lemma_first_dot_within(t);
    }
}

proof fn lemma_first_dot_within(s: Seq<char>)
    ensures
        match first_dot(s) {
            Some(d) => d < s.len(),
            None => true,
        },
    decreases s.len(),
{
    if s.len() > 0 {
        lemma_first_dot_within(s.drop_first());
    }
}

} // verus!
