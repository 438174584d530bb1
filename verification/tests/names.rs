use qwen3_moe::names::{
    blk, layer_names, strip_blk_prefix, DenseAttnNames, DenseFfnNames, GdnNames, MoeFfnNames,
};

#[test]
fn dense_attn_names_follow_llama_cpp_convention() {
    let t = DenseAttnNames::for_layer(0);
    assert_eq!(t.attn_q, "blk.0.attn_q.weight");
    assert_eq!(t.attn_q_norm, "blk.0.attn_q_norm.weight");
}

#[test]
fn gdn_names_include_ssm_tensors() {
    let g = GdnNames::for_layer(7);
    assert_eq!(g.attn_qkv, "blk.7.attn_qkv.weight");
    assert_eq!(g.attn_gate, "blk.7.attn_gate.weight");
    assert_eq!(g.ssm_conv1d, "blk.7.ssm_conv1d.weight");
    assert_eq!(g.ssm_dt_bias, "blk.7.ssm_dt.bias");
    assert_eq!(g.ssm_a, "blk.7.ssm_a");
}

#[test]
fn dense_ffn_names_follow_llama_cpp_convention() {
    let d = DenseFfnNames::for_layer(5);
    assert_eq!(d.ffn_gate, "blk.5.ffn_gate.weight");
    assert_eq!(d.ffn_up, "blk.5.ffn_up.weight");
    assert_eq!(d.ffn_down, "blk.5.ffn_down.weight");
}

#[test]
fn moe_names_cover_shared_expert() {
    let m = MoeFfnNames::for_layer(0);
    assert_eq!(m.ffn_gate_exps, "blk.0.ffn_gate_exps.weight");
    assert_eq!(m.ffn_gate_shexp, "blk.0.ffn_gate_shexp.weight");
    assert_eq!(m.ffn_gate_inp_shexp, "blk.0.ffn_gate_inp_shexp.weight");
}

#[test]
fn layer_names_spans_all_layers() {
    let names = layer_names(48);
    assert_eq!(names.len(), 48);
    assert_eq!(names[47].attn_norm, "blk.47.attn_norm.weight");
}

#[test]
fn strip_blk_prefix_rejects_malformed() {
    assert_eq!(strip_blk_prefix("blk.0.x"), Some("x"));
    assert_eq!(strip_blk_prefix("blk.99.foo.bar.weight"), Some("foo.bar.weight"));
    // No leading "blk." prefix.
    assert_eq!(strip_blk_prefix("token_embd.weight"), None);
    // Layer index isn't all digits.
    assert_eq!(strip_blk_prefix("blk.x.attn_q.weight"), None);
    // Empty layer index.
    assert_eq!(strip_blk_prefix("blk..attn_q.weight"), None);
}

#[test]
fn stripping_undoes_naming() {
    for layer in [0usize, 7, 10, 99, 12345] {
        let name = blk(layer, "ffn_down.weight");
        assert_eq!(name, format!("blk.{layer}.ffn_down.weight"));
        assert_eq!(strip_blk_prefix(&name), Some("ffn_down.weight"));
    }
}
