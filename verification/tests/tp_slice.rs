use qwen3_moe::tp_slice::SliceError;

#[test]
fn slice_error_display_outer_indivisible() {
    let err = SliceError::OuterIndivisible {
        name: "blk.0.attn_q.weight".into(),
        outer: 8192,
        world: 3,
    };
    let msg = err.message();
    assert!(msg.contains("8192"));
    assert!(msg.contains("world 3"));
}

#[test]
fn slice_error_display_inner_block_misaligned() {
    let err = SliceError::InnerBlockMisaligned {
        name: "blk.0.ffn_down.weight".into(),
        per_rank_inner: 17,
        block_size: 32,
    };
    let msg = err.message();
    assert!(msg.contains("17"));
    assert!(msg.contains("32"));
}
