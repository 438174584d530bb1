use qwen3_moe::config::{AttentionFamily, GdnDims, Qwen3MoEConfig, RopeSpec};
use qwen3_moe::tp_layout::{Qwen35DenseTpLayout, TpLayoutError};
use qwen3_moe::weight_layout::WeightLayout;

fn qwen35_27b_cfg() -> Qwen3MoEConfig {
    Qwen3MoEConfig {
        arch: "qwen35".into(),
        family: AttentionFamily::Dense,
        hidden_size: 5120,
        vocab_size: 152064,
        num_layers: 64,
        num_heads: 64,
        num_kv_heads: 8,
        head_dim: 128,
        context_length: 32768,
        rms_norm_eps_bits: 1e-6f32.to_bits(),
        rope: RopeSpec {
            freq_base_bits: 1_000_000.0f32.to_bits(),
            rotated_dims: 128,
            sections: None,
        },
        num_experts: 0,
        num_experts_per_tok: 1,
        moe_intermediate_size: 27648, // dense FFN width on qwen35
        shared_expert_intermediate_size: None,
        full_attention_interval: None,
        gdn: None,
        tied_lm_head: false,
        pooling_type: None,
    }
}

fn qwen35_9b_cfg() -> Qwen3MoEConfig {
    let mut c = qwen35_27b_cfg();
    c.hidden_size = 4096;
    c.moe_intermediate_size = 12288;
    c.num_heads = 32;
    c.num_kv_heads = 8;
    c.num_layers = 36;
    c
}

fn qwen35_27b_cfg_with_gdn() -> Qwen3MoEConfig {
    let mut c = qwen35_27b_cfg();
    c.family = AttentionFamily::Hybrid;
    c.full_attention_interval = Some(4);
    c.gdn = Some(GdnDims {
        d_inner: 6144,
        head_k_dim: 128,
        num_k_heads: 16,
        num_v_heads: 48,
        conv_kernel: 4,
    });
    c
}

#[test]
fn qwen35_27b_world4_validates() {
    Qwen35DenseTpLayout::validate(&qwen35_27b_cfg(), 4).expect("Qwen3.5-27B world=4 ok");
}

#[test]
fn qwen35_27b_world_zero_rejected() {
    assert_eq!(
        Qwen35DenseTpLayout::validate(&qwen35_27b_cfg(), 0),
        Err(TpLayoutError::WorldZero)
    );
}

#[test]
fn the_mesh_and_the_widths_are_checked_before_the_heads() {
    let mut c = qwen35_27b_cfg();
    c.gdn = Some(GdnDims {
        num_v_heads: 0,
        num_k_heads: 0,
        head_k_dim: 8,
        d_inner: 32,
        conv_kernel: 4,
    });
    assert_eq!(Qwen35DenseTpLayout::validate(&c, 0), Err(TpLayoutError::WorldZero));
    c.hidden_size = 5122;
    assert_eq!(
        Qwen35DenseTpLayout::validate(&c, 4),
        Err(TpLayoutError::IndivisibleHidden { hidden_size: 5122, world: 4 })
    );
}

#[test]
fn qwen35_9b_world4_validates() {
    Qwen35DenseTpLayout::validate(&qwen35_9b_cfg(), 4).expect("Qwen3.5-9B world=4 ok");
}

#[test]
fn world_16_falls_back_to_kv_replicated_on_27b() {
    let l = Qwen35DenseTpLayout::new(&qwen35_27b_cfg(), 16).unwrap();
    assert!(l.kv_replicated());
    assert_eq!(l.for_tensor("blk.0.attn_k.weight"), Some(WeightLayout::Replicated));
    assert_eq!(l.for_tensor("blk.0.attn_v.weight"), Some(WeightLayout::Replicated));
    // attn_q stays sharded.
    assert_eq!(
        l.for_tensor("blk.0.attn_q.weight"),
        Some(WeightLayout::col_parallel(16, 0))
    );
}

#[test]
fn world_4_kv_replicated_on_qwen36_35b() {
    let mut c = qwen35_27b_cfg_with_gdn();
    c.num_heads = 16;
    c.num_kv_heads = 2;
    c.hidden_size = 2048;
    c.moe_intermediate_size = 17408; // qwen35moe = MoE; uses moe_intermediate
    let l = Qwen35DenseTpLayout::new(&c, 4).unwrap();
    assert!(l.kv_replicated());
}

#[test]
fn world_3_rejected_on_27b_n_heads() {
    // nQ=64 doesn't divide world=3.
    let err = Qwen35DenseTpLayout::validate(&qwen35_27b_cfg(), 3).unwrap_err();
    assert!(matches!(err, TpLayoutError::IndivisibleNumHeads { .. }));
}

#[test]
fn for_tensor_per_layer_dispatch_qwen35_27b_world4() {
    let l = Qwen35DenseTpLayout::new(&qwen35_27b_cfg(), 4).unwrap();
    // Attention projections.
    assert_eq!(
        l.for_tensor("blk.0.attn_q.weight"),
        Some(WeightLayout::col_parallel(4, 0))
    );
    assert_eq!(
        l.for_tensor("blk.7.attn_k.weight"),
        Some(WeightLayout::col_parallel(4, 0))
    );
    assert_eq!(
        l.for_tensor("blk.63.attn_v.weight"),
        Some(WeightLayout::col_parallel(4, 0))
    );
    assert_eq!(
        l.for_tensor("blk.0.attn_output.weight"),
        Some(WeightLayout::row_parallel(4, 1))
    );
    // Norms.
    assert_eq!(l.for_tensor("blk.0.attn_norm.weight"), Some(WeightLayout::Replicated));
    assert_eq!(l.for_tensor("blk.0.attn_q_norm.weight"), Some(WeightLayout::Replicated));
    assert_eq!(l.for_tensor("blk.0.attn_k_norm.weight"), Some(WeightLayout::Replicated));
    assert_eq!(l.for_tensor("blk.0.ffn_norm.weight"), Some(WeightLayout::Replicated));
    // FFN.
    assert_eq!(
        l.for_tensor("blk.0.ffn_gate.weight"),
        Some(WeightLayout::col_parallel(4, 0))
    );
    assert_eq!(
        l.for_tensor("blk.0.ffn_up.weight"),
        Some(WeightLayout::col_parallel(4, 0))
    );
    assert_eq!(
        l.for_tensor("blk.0.ffn_down.weight"),
        Some(WeightLayout::row_parallel(4, 1))
    );
    // Globals.
    assert_eq!(l.for_tensor("token_embd.weight"), Some(WeightLayout::Replicated));
    assert_eq!(l.for_tensor("output_norm.weight"), Some(WeightLayout::Replicated));
    assert_eq!(l.for_tensor("output.weight"), Some(WeightLayout::Replicated));
}

#[test]
fn for_tensor_unknown_returns_none() {
    let l = Qwen35DenseTpLayout::new(&qwen35_27b_cfg(), 4).unwrap();
    assert_eq!(l.for_tensor("not.a.real.tensor"), None);
}

#[test]
fn for_tensor_moe_expert_layouts() {
    let l = Qwen35DenseTpLayout::new(&qwen35_27b_cfg(), 4).unwrap();
    assert_eq!(l.for_tensor("blk.0.ffn_gate_inp.weight"), Some(WeightLayout::Replicated));
    assert_eq!(
        l.for_tensor("blk.0.ffn_gate_exps.weight"),
        Some(WeightLayout::col_parallel(4, 1))
    );
    assert_eq!(
        l.for_tensor("blk.0.ffn_up_exps.weight"),
        Some(WeightLayout::col_parallel(4, 1))
    );
    assert_eq!(
        l.for_tensor("blk.0.ffn_down_exps.weight"),
        Some(WeightLayout::row_parallel(4, 2))
    );
    assert_eq!(
        l.for_tensor("blk.0.ffn_gate_inp_shexp.weight"),
        Some(WeightLayout::Replicated)
    );
    assert_eq!(
        l.for_tensor("blk.0.ffn_gate_shexp.weight"),
        Some(WeightLayout::col_parallel(4, 0))
    );
    assert_eq!(
        l.for_tensor("blk.0.ffn_up_shexp.weight"),
        Some(WeightLayout::col_parallel(4, 0))
    );
    assert_eq!(
        l.for_tensor("blk.0.ffn_down_shexp.weight"),
        Some(WeightLayout::row_parallel(4, 1))
    );
}

#[test]
fn for_tensor_attn_qkv_routes_through_fused_qkv() {
    let cfg = qwen35_27b_cfg_with_gdn();
    let l = Qwen35DenseTpLayout::new(&cfg, 4).unwrap();
    let layout = l.for_tensor("blk.0.attn_qkv.weight").expect("known tensor");
    assert!(
        matches!(layout, WeightLayout::FusedQkvParallel { .. }),
        "attn_qkv should route through FusedQkvParallel, got {layout:?}"
    );
    if let WeightLayout::FusedQkvParallel {
        world,
        num_v_heads,
        num_k_heads,
        head_v_dim,
        head_k_dim,
        ..
    } = layout
    {
        assert_eq!(world, 4);
        assert_eq!(num_v_heads, 48);
        assert_eq!(num_k_heads, 16);
        assert_eq!(head_v_dim, 128);
        assert_eq!(head_k_dim, 128);
    }
}

#[test]
fn for_tensor_attn_qkv_falls_back_to_replicated_without_gdn() {
    let l = Qwen35DenseTpLayout::new(&qwen35_27b_cfg(), 4).unwrap();
    assert_eq!(
        l.for_tensor("blk.0.attn_qkv.weight"),
        Some(WeightLayout::Replicated)
    );
}

#[test]
fn synthetic_gdn_num_v_head_violation_caught() {
    // nQ=4 / nKV=4 / inter=4 all divide world=4, but gdn.num_v_heads=6 doesn't.
    let mut c = qwen35_27b_cfg();
    c.num_heads = 4;
    c.num_kv_heads = 4;
    c.moe_intermediate_size = 4;
    c.gdn = Some(GdnDims {
        d_inner: 768, // 6 v_heads × 128
        head_k_dim: 128,
        num_k_heads: 4,
        num_v_heads: 6,
        conv_kernel: 4,
    });
    let err = Qwen35DenseTpLayout::validate(&c, 4).unwrap_err();
    assert!(matches!(err, TpLayoutError::IndivisibleNumVHeads { num_v_heads: 6, world: 4 }));
}

#[test]
fn for_tensor_hybrid_gdn_layouts() {
    let l = Qwen35DenseTpLayout::new(&qwen35_27b_cfg(), 4).unwrap();
    // Scalars and projections per V head.
    assert_eq!(l.for_tensor("blk.0.ssm_a"), Some(WeightLayout::col_parallel(4, 0)));
    assert_eq!(
        l.for_tensor("blk.0.ssm_dt.bias"),
        Some(WeightLayout::col_parallel(4, 0))
    );
    assert_eq!(
        l.for_tensor("blk.0.ssm_alpha.weight"),
        Some(WeightLayout::col_parallel(4, 0))
    );
    assert_eq!(
        l.for_tensor("blk.0.ssm_beta.weight"),
        Some(WeightLayout::col_parallel(4, 0))
    );
    assert_eq!(
        l.for_tensor("blk.0.attn_gate.weight"),
        Some(WeightLayout::col_parallel(4, 0))
    );
    assert_eq!(
        l.for_tensor("blk.0.ssm_out.weight"),
        Some(WeightLayout::row_parallel(4, 1))
    );
    assert_eq!(l.for_tensor("blk.0.ssm_norm.weight"), Some(WeightLayout::Replicated));
    // Fused QKV without head dims.
    assert_eq!(l.for_tensor("blk.0.attn_qkv.weight"), Some(WeightLayout::Replicated));
    assert_eq!(
        l.for_tensor("blk.0.ssm_conv1d.weight"),
        Some(WeightLayout::Replicated)
    );
}

#[test]
fn a_hidden_size_that_the_world_does_not_divide_is_refused() {
    let mut c = qwen35_27b_cfg();
    c.hidden_size = 5122;
    let e = Qwen35DenseTpLayout::new(&c, 4).unwrap_err();
    assert_eq!(e, TpLayoutError::IndivisibleHidden { hidden_size: 5122, world: 4 });
    assert_eq!(e.message(), "hidden_size 5122 is not divisible by world 4");
    assert_eq!(Qwen35DenseTpLayout::validate(&c, 4), Err(e));
    Qwen35DenseTpLayout::validate(&c, 2).unwrap();
}
