//! The model dims that the host-side logic reads.

use vstd::prelude::*;

verus! {

/// Which attention blocks the architecture has.
#[derive(Debug, Clone, Copy, PartialEq, Eq, Structural)]
pub enum AttentionFamily {
    /// Every layer is a plain self-attention layer.
    Dense,
    /// Gated-delta-net layers with a full-attention layer at fixed intervals.
    Hybrid,
}

/// Rotary embedding parameters. The base frequency is kept as the bits of an
/// IEEE single.
#[derive(Debug, Clone)]
pub struct RopeSpec {
    pub freq_base_bits: u32,
    pub rotated_dims: usize,
    pub sections: Option<Vec<usize>>,
}

/// Head dims of the gated-delta-net layers.
#[derive(Debug, Clone, Copy, PartialEq, Eq, Structural)]
pub struct GdnDims {
    pub d_inner: usize,
    pub head_k_dim: usize,
    pub num_k_heads: usize,
    pub num_v_heads: usize,
    pub conv_kernel: usize,
}

impl GdnDims {
    /// Width of one V head.
    pub open spec fn spec_head_v_dim(self) -> nat {
        self.d_inner as nat / self.num_v_heads as nat
    }

    /// Channels of the causal convolution: V, K and Q side by side.
    pub open spec fn spec_conv_channels(self) -> nat {
        self.d_inner as nat + 2 * (self.num_k_heads as nat * self.head_k_dim as nat)
    }

    pub fn head_v_dim(&self) -> (r: usize)
        requires
            self.num_v_heads > 0,
        ensures
            r == self.spec_head_v_dim(),
    {
        self.d_inner / self.num_v_heads
    }

    pub fn conv_channels(&self) -> (r: usize)
        requires
            self.spec_conv_channels() <= usize::MAX,
        ensures
            r == self.spec_conv_channels(),
    {
        let kq: usize = self.num_k_heads * self.head_k_dim;
        self.d_inner + 2 * kq
    }
}

/// Model configuration. `rms_norm_eps_bits` holds the bits of an IEEE single.
#[derive(Debug, Clone)]
pub struct Qwen3MoEConfig {
    pub arch: String,
    pub family: AttentionFamily,
    pub hidden_size: usize,
    pub vocab_size: usize,
    pub num_layers: usize,
    pub num_heads: usize,
    pub num_kv_heads: usize,
    pub head_dim: usize,
    pub context_length: usize,
    pub rms_norm_eps_bits: u32,
    pub rope: RopeSpec,
    pub num_experts: usize,
    pub num_experts_per_tok: usize,
    /// Width of one routed expert, or of the dense FFN where there are no experts.
    pub moe_intermediate_size: usize,
    pub shared_expert_intermediate_size: Option<usize>,
    pub full_attention_interval: Option<usize>,
    pub gdn: Option<GdnDims>,
    pub tied_lm_head: bool,
    pub pooling_type: Option<u32>,
}

impl Qwen3MoEConfig {
    /// Layer `il` is a gated-delta-net layer: the architecture is hybrid and
    /// `il` is not the last of an interval.
    pub open spec fn spec_is_recurrent(&self, il: nat) -> bool {
        self.family == AttentionFamily::Hybrid && match self.full_attention_interval {
            Some(n) => n > 0 && (il + 1) % n as nat != 0,
            None => false,
        }
    }

    /// Whether layer `il` is a gated-delta-net layer.
    pub fn is_recurrent(&self, il: usize) -> (r: bool)
        ensures
            r == self.spec_is_recurrent(il as nat),
    {
        match self.full_attention_interval {
            Some(n) => {
                if n == 0 {
                    return false;
                }
                proof {
                    lemma_last_of_interval(il as int, n as int);
                }
                match self.family {
                    AttentionFamily::Hybrid => il % n != n - 1,
                    AttentionFamily::Dense => false,
                }
            },
            None => false,
        }
    }

    /// The FFN is one dense block per layer, without experts.
    pub open spec fn spec_is_dense_ffn(&self) -> bool {
        self.num_experts == 0
    }

    /// Whether the FFN is dense.
    pub fn is_dense_ffn(&self) -> (r: bool)
        ensures
            r == self.spec_is_dense_ffn(),
    {
        self.num_experts == 0
    }
}

proof fn lemma_last_of_interval(il: int, n: int)
    requires
        0 <= il,
        0 < n,
    ensures
        (il % n == n - 1) == ((il + 1) % n == 0),
{
    crate::arith::lemma_div_mod_split(il, n);
    let q = il / n;
    let r = il % n;
    if r == n - 1 {
        assert((q + 1) * n + 0 == il + 1) by (nonlinear_arith)
            requires
                il == q * n + r,
                r == n - 1,
        ;
        crate::arith::lemma_div_mod_unique(q + 1, n, 0);
    } else {
        crate::arith::lemma_div_mod_unique(q, n, r + 1);
        assert(q * n + (r + 1) == il + 1);
    }
}

} // verus!
