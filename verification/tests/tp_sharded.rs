use qwen3_moe::assignment::LayerAssignment;
use qwen3_moe::config::{AttentionFamily, GdnDims, Qwen3MoEConfig, RopeSpec};
use qwen3_moe::convert;
use qwen3_moe::device::{DevicePtr, Free, RankFree, RankId};
use qwen3_moe::layout::{
    DenseAttnTensors, GdnTensors, LayerAttnBlock, LayerDescriptor, ModelLayout, MoeFfnTensors,
    ResolvedTensor, SharedExpertTensors,
};
use qwen3_moe::load_error::LoadError;
use qwen3_moe::tensor::{GgmlDType, TensorInfo};
use qwen3_moe::tp_layout::Qwen35DenseTpLayout;
use qwen3_moe::tp_load::{
    compute_per_rank_dims, is_moe_block_misalignment, pick_convert_target, slice_f32_for_tp,
    split_ssm_ba_to_q8_0, take_half, tp_route, tp_target_dtype, upload_tp_ssm_ba_split,
    upload_tp_via_dequant_to_q8_0, upload_tp_with_layout, TpData, TpLoadError, TpRoute,
};
use qwen3_moe::tp_sharded::{
    collect_layer_tensor_names, Qwen3MoETpModel, Topology, TpLayerTensor, TpLoadOpts, TpRankParts,
};
use qwen3_moe::tp_slice::{SliceError, SliceFailure};
use qwen3_moe::weight_layout::WeightLayout;
use qwen3_moe::weights::DeviceTensor;

fn hybrid_cfg() -> Qwen3MoEConfig {
    Qwen3MoEConfig {
        arch: "qwen35".into(),
        family: AttentionFamily::Hybrid,
        hidden_size: 5120,
        vocab_size: 248320,
        num_layers: 64,
        num_heads: 24,
        num_kv_heads: 4,
        head_dim: 256,
        context_length: 32768,
        rms_norm_eps_bits: 1e-6f32.to_bits(),
        rope: RopeSpec {
            freq_base_bits: 1_000_000.0f32.to_bits(),
            rotated_dims: 256,
            sections: None,
        },
        num_experts: 0,
        num_experts_per_tok: 1,
        moe_intermediate_size: 17408,
        shared_expert_intermediate_size: None,
        full_attention_interval: Some(4),
        gdn: None,
        tied_lm_head: false,
        pooling_type: None,
    }
}

#[test]
fn topology_world_pp() {
    let a = LayerAssignment::contiguous(40, 4);
    let topo = Topology::Pp(a);
    assert_eq!(topo.world(), 4);
}

#[test]
fn topology_world_tp() {
    let cfg = hybrid_cfg();
    let tp = Qwen35DenseTpLayout::new(&cfg, 4).unwrap();
    let topo = Topology::Tp(tp);
    assert_eq!(topo.world(), 4);
}

#[test]
fn per_rank_dims_replicated_unchanged() {
    let d = compute_per_rank_dims(&[5120, 27648], WeightLayout::Replicated);
    assert_eq!(d, vec![5120, 27648]);
}

#[test]
fn per_rank_dims_col_parallel_dim0() {
    let d = compute_per_rank_dims(&[8192, 5120], WeightLayout::col_parallel(4, 0));
    assert_eq!(d, vec![2048, 5120]);
}

#[test]
fn per_rank_dims_row_parallel_dim1() {
    let d = compute_per_rank_dims(&[5120, 27648], WeightLayout::row_parallel(4, 1));
    assert_eq!(d, vec![5120, 6912]);
}

fn fused(kq_replicated: bool) -> WeightLayout {
    WeightLayout::FusedQkvParallel {
        world: 2,
        num_v_heads: 4,
        num_k_heads: 2,
        head_v_dim: 8,
        head_k_dim: 16,
        kq_replicated,
    }
}

#[test]
fn per_rank_dims_of_fused_tensors() {
    assert_eq!(compute_per_rank_dims(&[96, 7], fused(false)), vec![48, 7]);
    // Only V is halved: 32 / 2 + 2 * 32.
    assert_eq!(compute_per_rank_dims(&[96, 7], fused(true)), vec![80, 7]);
    // A dim that is not there is left alone.
    assert_eq!(compute_per_rank_dims(&[8], WeightLayout::row_parallel(2, 1)), vec![8]);
}

#[test]
fn target_dtypes() {
    let f32_ = GgmlDType::F32;
    for n in [
        "output_norm.weight",
        "blk.0.attn_norm.weight",
        "blk.0.post_attention_norm.weight",
        "blk.0.ffn_norm.weight",
        "blk.0.attn_q_norm.weight",
        "blk.0.attn_k_norm.weight",
        "blk.0.ffn_gate_inp.weight",
    ] {
        assert_eq!(tp_target_dtype(n, f32_), Some(GgmlDType::F16));
        assert_eq!(tp_target_dtype(n, GgmlDType::F16), None);
    }
    assert_eq!(tp_target_dtype("blk.0.ssm_alpha.weight", f32_), Some(GgmlDType::Q8_0));
    assert_eq!(tp_target_dtype("blk.0.ssm_beta.weight", f32_), Some(GgmlDType::Q8_0));
    assert_eq!(tp_target_dtype("blk.0.ssm_norm.weight", f32_), None);
    assert_eq!(tp_target_dtype("blk.0.ssm_a", f32_), None);
}

#[test]
fn conversion_targets() {
    assert_eq!(pick_convert_target(GgmlDType::Iq4Nl), GgmlDType::Q4K);
    assert_eq!(pick_convert_target(GgmlDType::Iq3S), GgmlDType::Q3K);
    assert_eq!(pick_convert_target(GgmlDType::Iq1M), GgmlDType::Q2K);
    assert_eq!(pick_convert_target(GgmlDType::Mxfp4), GgmlDType::Q8_0);
}

#[test]
fn values_are_cut_along_an_axis() {
    let xs: Vec<u32> = (0..12).collect();
    let dims = vec![2u64, 6];
    let (v, d) = slice_f32_for_tp(&xs, &dims, WeightLayout::row_parallel(3, 1), 1).unwrap();
    assert_eq!(v, vec![2, 3, 8, 9]);
    assert_eq!(d, vec![2, 2]);
    let (v, d) = slice_f32_for_tp(&xs, &dims, WeightLayout::col_parallel(2, 0), 1).unwrap();
    assert_eq!(v, vec![6, 7, 8, 9, 10, 11]);
    assert_eq!(d, vec![1, 6]);
    let (v, d) = slice_f32_for_tp(&xs, &dims, WeightLayout::Replicated, 0).unwrap();
    assert_eq!((v, d), (xs.clone(), dims.clone()));
    let (v, _) = slice_f32_for_tp(&xs, &dims, WeightLayout::col_parallel(1, 0), 0).unwrap();
    assert_eq!(v, xs);
    // Where nothing is cut, the rank does not matter.
    let (v, d) = slice_f32_for_tp(&xs, &dims, WeightLayout::col_parallel(0, 0), 7).unwrap();
    assert_eq!((v, d), (xs.clone(), dims.clone()));
    let (v, d) =
        slice_f32_for_tp(&vec![], &vec![0, 6], WeightLayout::row_parallel(3, 1), 7).unwrap();
    assert_eq!((v, d), (vec![], vec![0, 2]));
    let e = slice_f32_for_tp(&xs, &dims, WeightLayout::row_parallel(4, 1), 7).unwrap_err();
    assert_eq!(e.message(&dims), "slice_f32_for_tp: dims[1]=6 not divisible by world 4");
    let (v, _) = slice_f32_for_tp(&xs, &dims, WeightLayout::col_parallel(1, 0), 3).unwrap();
    assert_eq!(v, xs);
}

#[test]
fn values_that_cannot_be_cut() {
    let xs: Vec<u32> = (0..12).collect();
    let dims = vec![2u64, 6];
    let e = slice_f32_for_tp(&xs, &vec![2, 5], WeightLayout::Replicated, 0).unwrap_err();
    assert_eq!(e, LoadError::SliceLength { have: 12, total: 10 });
    assert_eq!(e.message(&vec![]), "slice_f32_for_tp: f32s.len=12 != prod(dims)=10");
    let e = slice_f32_for_tp(&xs, &dims, fused(true), 0).unwrap_err();
    assert_eq!(
        e.message(&dims),
        "slice_f32_for_tp: layout FusedQkvParallel { world: 2, num_v_heads: 4, num_k_heads: 2, \
         head_v_dim: 8, head_k_dim: 16, kq_replicated: true } not supported (Replicated / Col / \
         RowParallel)"
    );
    let e = slice_f32_for_tp(&xs, &dims, WeightLayout::row_parallel(2, 2), 0).unwrap_err();
    assert_eq!(e.message(&dims), "slice_f32_for_tp: axis 2 out of bounds for dims [2, 6]");
    let e = slice_f32_for_tp(&xs, &dims, WeightLayout::row_parallel(4, 1), 0).unwrap_err();
    assert_eq!(e.message(&dims), "slice_f32_for_tp: dims[1]=6 not divisible by world 4");
}

fn gdn_cfg(k: usize, v: usize) -> Qwen3MoEConfig {
    let mut c = hybrid_cfg();
    c.gdn = Some(GdnDims {
        d_inner: 64,
        head_k_dim: 16,
        num_k_heads: k,
        num_v_heads: v,
        conv_kernel: 4,
    });
    c
}

#[test]
fn fused_rows_go_to_one_half_each() {
    // Two key heads with two value heads each: rows b0 b1 a0 a1 b2 b3 a2 a3.
    let src: Vec<u32> = (0..8).collect();
    let alpha = take_half(&src, 4, 2, 1, true);
    let beta = take_half(&src, 4, 2, 1, false);
    assert_eq!(beta, vec![0, 1, 4, 5]);
    assert_eq!(alpha, vec![2, 3, 6, 7]);
    let mut all: Vec<u32> = alpha.iter().chain(beta.iter()).copied().collect();
    all.sort();
    assert_eq!(all, src);
}

fn ba_info(rows: u64, cols: u64, name: &str) -> TensorInfo {
    TensorInfo { name: name.into(), dims: vec![rows, cols], dtype: GgmlDType::F32 }
}

#[test]
fn fused_tensor_is_split_for_a_rank() {
    let cfg = gdn_cfg(2, 4);
    let cols = 32u64;
    let values: Vec<u32> = (0..8 * 32).map(|i| (i / 32) as u32).collect();
    let info = ba_info(8, cols, "blk.3.ssm_ba.weight");
    let (a, b) = upload_tp_ssm_ba_split(&info, &values, &cfg, 2, 1).unwrap();
    assert_eq!(a.dims, vec![2, 32]);
    assert_eq!(a.dtype, GgmlDType::Q8_0);
    assert_eq!(a.layout, WeightLayout::ColParallel { world: 2, dim: 0 });
    let rows = |d: &TpData| match d {
        TpData::Blocks(v) => vec![v[0], v[32]],
        _ => panic!("not blocks"),
    };
    assert_eq!(rows(&a.data), vec![6, 7]);
    assert_eq!(rows(&b.data), vec![4, 5]);
}

#[test]
fn fused_tensors_that_cannot_be_split_for_a_mesh() {
    let values: Vec<u32> = vec![0; 8 * 32];
    let name = "blk.3.ssm_ba.weight";
    let cfg = gdn_cfg(2, 4);
    let err = |info: &TensorInfo, v: &Vec<u32>, c: &Qwen3MoEConfig, w: u32| {
        upload_tp_ssm_ba_split(info, v, c, w, 0).unwrap_err().message(&info.dims)
    };
    let flat = TensorInfo { name: name.into(), dims: vec![256], dtype: GgmlDType::F32 };
    assert_eq!(
        err(&flat, &values, &cfg, 2),
        "upload_tp_ssm_ba_split: `blk.3.ssm_ba.weight` expected 2D [2*num_v_heads, hidden], got [256]"
    );
    let mut none = gdn_cfg(2, 4);
    none.gdn = None;
    assert_eq!(
        err(&ba_info(8, 32, name), &values, &none, 2),
        "upload_tp_ssm_ba_split: cfg.gdn is None for arch qwen35 — fused ssm_ba.weight present \
         without GDN dims"
    );
    assert_eq!(
        err(&ba_info(4, 64, name), &values, &cfg, 2),
        "upload_tp_ssm_ba_split: `blk.3.ssm_ba.weight` rows 4 != 2*num_v_heads=8"
    );
    assert_eq!(
        err(&ba_info(8, 32, name), &values, &cfg, 3),
        "upload_tp_ssm_ba_split: num_v_heads 4 not divisible by world 3"
    );
    assert_eq!(
        err(&ba_info(8, 32, name), &values, &gdn_cfg(3, 4), 2),
        "upload_tp_ssm_ba_split: num_v_heads 4 not divisible by num_k_heads 3"
    );
    assert_eq!(
        err(&ba_info(8, 5, name), &vec![0; 40], &cfg, 2),
        "upload_tp_ssm_ba_split: cols 5 not multiple of QK8_0=32"
    );
    assert_eq!(
        err(&ba_info(8, 32, "blk.3.other"), &values, &cfg, 2),
        "upload_tp_ssm_ba_split: name `blk.3.other` doesn't end with .ssm_ba.weight"
    );
}

fn resolved(name: &str, dtype: GgmlDType, dims: Vec<u64>, size_bytes: u64) -> ResolvedTensor {
    ResolvedTensor { name: name.into(), dtype, dims, size_bytes }
}

#[test]
fn fused_tensors_split_on_a_pipeline() {
    let cfg = gdn_cfg(1, 2);
    let r = resolved("blk.0.ssm_ba.weight", GgmlDType::F32, vec![4, 32], 512);
    let values: Vec<u32> = (0..128).map(|i| i / 32).collect();
    let (a, b) = split_ssm_ba_to_q8_0(&r, &values, &cfg).unwrap();
    assert_eq!((a[0], a[32], b[0], b[32]), (2, 3, 0, 1));
    let err = |r: &ResolvedTensor, n: usize, c: &Qwen3MoEConfig| {
        split_ssm_ba_to_q8_0(r, &vec![0; n], c).unwrap_err().message(&r.dims)
    };
    assert_eq!(
        err(&resolved("x", GgmlDType::F32, vec![4], 16), 4, &cfg),
        "split_ssm_ba_to_q8_0: `x` expected 2D `[2*num_v_heads, hidden]`, got [4]"
    );
    let mut none = gdn_cfg(1, 2);
    none.gdn = None;
    assert_eq!(
        err(&r, 128, &none),
        "split_ssm_ba_to_q8_0: cfg.gdn is None for arch \"qwen35\" — fused ssm_ba.weight present \
         without GDN dims"
    );
    assert_eq!(
        err(&resolved("x", GgmlDType::F32, vec![6, 32], 768), 192, &cfg),
        "split_ssm_ba_to_q8_0: `x` rows 6 != 2*num_v_heads=4"
    );
    assert_eq!(
        err(&r, 128, &gdn_cfg(4, 2)),
        "split_ssm_ba_to_q8_0: num_v_heads 2 not divisible by num_k_heads 4"
    );
    assert_eq!(
        err(&resolved("x", GgmlDType::F32, vec![4, 33], 528), 132, &cfg),
        "split_ssm_ba_to_q8_0: `x` cols 33 not multiple of QK8_0=32"
    );
    assert_eq!(
        err(&resolved("x", GgmlDType::F32, vec![4, 32], 512), 128, &cfg),
        "split_ssm_ba: name `x` doesn't end with .ssm_ba.weight"
    );
}

fn info(name: &str, dims: Vec<u64>, dtype: GgmlDType) -> TensorInfo {
    TensorInfo { name: name.into(), dims, dtype }
}

fn dense_tp(world: u32) -> Qwen35DenseTpLayout {
    let mut c = hybrid_cfg();
    c.family = AttentionFamily::Dense;
    c.num_heads = 8;
    c.num_kv_heads = 4;
    c.moe_intermediate_size = 64;
    Qwen35DenseTpLayout::new(&c, world).unwrap()
}

#[test]
fn shares_of_tensors() {
    let tp = dense_tp(2);
    // Rows of F16, half of them each.
    let raw: Vec<u8> = (0..16).collect();
    let i = info("blk.0.attn_q.weight", vec![4, 2], GgmlDType::F16);
    let s = upload_tp_with_layout(&i, &raw, &vec![], &tp, 1).unwrap();
    assert_eq!(s.dims, vec![2, 2]);
    assert_eq!(s.dtype, GgmlDType::F16);
    match s.data {
        TpData::Bytes(b) => assert_eq!(&*b, &raw[8..]),
        _ => panic!("not bytes"),
    }
    // A norm of singles is stored as halves.
    let raw: Vec<u8> = [1.0f32, 2.0].iter().flat_map(|x| x.to_le_bytes()).collect();
    let i = info("output_norm.weight", vec![2], GgmlDType::F32);
    let s = upload_tp_with_layout(&i, &raw, &vec![], &tp, 0).unwrap();
    assert_eq!(s.dtype, GgmlDType::F16);
    match s.data {
        TpData::Halves(v) => assert_eq!(v, vec![1.0f32.to_bits(), 2.0f32.to_bits()]),
        _ => panic!("not halves"),
    }
    // Alpha is quantised.
    let raw = vec![0u8; 2 * 32 * 4];
    let i = info("blk.0.ssm_alpha.weight", vec![2, 32], GgmlDType::F32);
    let s = upload_tp_with_layout(&i, &raw, &vec![], &tp, 0).unwrap();
    assert_eq!((s.dtype, s.dims), (GgmlDType::Q8_0, vec![1, 32]));
    // A bfloat16 is the upper half of a single.
    let raw: Vec<u8> = (0..32).flat_map(|_| 0x3F80u16.to_le_bytes()).collect();
    let i = info("token_embd.weight", vec![1, 32], GgmlDType::BF16);
    let s = upload_tp_with_layout(&i, &raw, &vec![], &tp, 0).unwrap();
    assert_eq!(s.dtype, GgmlDType::Q8_0);
    match s.data {
        TpData::Blocks(v) => assert_eq!(v, vec![1.0f32.to_bits(); 32]),
        _ => panic!("not blocks"),
    }
}

#[test]
fn shares_that_cannot_be_made() {
    let tp = dense_tp(2);
    let load = |i: &TensorInfo, raw: &[u8]| match upload_tp_with_layout(i, raw, &vec![], &tp, 0) {
        Err(TpLoadError::Load(e)) => e,
        other => panic!("{:?}", other),
    };
    let e = load(&info("nothing", vec![2], GgmlDType::F32), &[0; 8]);
    assert_eq!(e.message(&vec![]), "no TP layout entry for tensor `nothing`");
    let e = load(&info("output_norm.weight", vec![0], GgmlDType::F32), &[]);
    assert_eq!(e.message(&vec![]), "empty slice for tensor `output_norm.weight` rank=0");
    let e = load(&info("output_norm.weight", vec![2], GgmlDType::F32), &[0; 7]);
    assert_eq!(e, LoadError::F32Source { have: 7, want: 8 });
    assert_eq!(e.message(&vec![]), "convert_f32_to_f16: src 7 < elems*4 (8)");
    let e = load(&info("output.weight", vec![2], GgmlDType::BF16), &[0; 3]);
    assert_eq!(e.message(&vec![]), "quantize_bf16_to_q8_0: src 3 < elems*2 (4)");
    let e = load(&info("output.weight", vec![2], GgmlDType::BF16), &[0; 4]);
    assert_eq!(e.message(&vec![]), "quantize_bf16_to_q8_0: elems 2 not multiple of QK8_0=32");
    let e = load(&info("blk.0.ssm_alpha.weight", vec![2, 4], GgmlDType::F32), &[0; 32]);
    assert_eq!(e.message(&vec![]), "quantize_f32_to_q8_0: elems 4 not multiple of QK8_0=32");
    let e = upload_tp_with_layout(
        &info("blk.0.attn_q.weight", vec![3, 2], GgmlDType::F16),
        &[0; 12],
        &vec![],
        &tp,
        0,
    )
    .unwrap_err();
    match &e {
        TpLoadError::Slice(SliceFailure::Slice(SliceError::OuterIndivisible { .. })) => {}
        other => panic!("{:?}", other),
    }
    assert!(e.message(&vec![]).contains("not divisible by world 2"));
}

#[test]
fn singles_to_be_quantised_are_measured() {
    let e = convert::quantize_f32_to_q8_0(&[0; 7], 2).unwrap_err();
    assert_eq!(e.message(&vec![]), "quantize_f32_to_q8_0: src 7 < elems*4 (8)");
    let e = convert::quantize_f32_slice_to_q8_0(33).unwrap_err();
    assert_eq!(e.message(&vec![]), "quantize_f32_slice_to_q8_0: elems 33 not multiple of QK8_0=32");
    assert_eq!(convert::quantize_f32_slice_to_q8_0(64).unwrap(), 68);
}

#[test]
fn misaligned_experts_stay_whole() {
    let mut c = hybrid_cfg();
    c.family = AttentionFamily::Dense;
    c.num_heads = 8;
    c.num_kv_heads = 4;
    c.num_experts = 2;
    c.moe_intermediate_size = 64;
    let tp = Qwen35DenseTpLayout::new(&c, 2).unwrap();
    // 32 columns a rank are no whole block of 256.
    let i = info("blk.0.ffn_down_exps.weight", vec![1, 1, 512], GgmlDType::Q4K);
    let raw = vec![7u8; 288];
    let s = upload_tp_with_layout(&i, &raw, &vec![], &tp, 1).unwrap();
    assert_eq!(s.layout, WeightLayout::RowParallel { world: 2, dim: 2 });
    let i = info("blk.0.ffn_down_exps.weight", vec![1, 1, 256], GgmlDType::Q4K);
    let raw = vec![7u8; 144];
    let s = upload_tp_with_layout(&i, &raw, &vec![], &tp, 1).unwrap();
    assert_eq!(s.layout, WeightLayout::Replicated);
    assert_eq!(s.dims, vec![1, 1, 256]);
    match s.data {
        TpData::Bytes(b) => assert_eq!(&*b, &raw[..]),
        _ => panic!("not bytes"),
    }
    let e = SliceFailure::Slice(SliceError::InnerBlockMisaligned {
        name: "x".into(),
        per_rank_inner: 128,
        block_size: 256,
    });
    assert!(is_moe_block_misalignment(&e, "blk.0.ffn_up_exps.weight"));
    assert!(!is_moe_block_misalignment(&e, "blk.0.ffn_up.weight"));
}

#[test]
fn values_are_put_into_blocks_again() {
    let xs: Vec<u32> = (0..64).collect();
    let i = info("blk.0.ffn_up_shexp.weight", vec![2, 32], GgmlDType::Mxfp4);
    let s = upload_tp_via_dequant_to_q8_0(&i, &xs, WeightLayout::col_parallel(2, 0), 1).unwrap();
    assert_eq!((s.dtype, s.dims.clone()), (GgmlDType::Q8_0, vec![1, 32]));
    match s.data {
        TpData::Blocks(v) => assert_eq!(v, (32..64).collect::<Vec<u32>>()),
        _ => panic!("not blocks"),
    }
    let e = upload_tp_via_dequant_to_q8_0(&i, &xs, WeightLayout::row_parallel(2, 1), 1).unwrap();
    assert_eq!(e.dims, vec![2, 16]);
    let i = info("w", vec![2, 16], GgmlDType::Mxfp4);
    let e = upload_tp_via_dequant_to_q8_0(&i, &vec![0; 32], WeightLayout::col_parallel(2, 0), 0);
    assert_eq!(e.unwrap_err(), TpLoadError::Load(LoadError::SliceQ8Blocks { elems: 16 }));
    let i = info("w", vec![2, 16], GgmlDType::Iq4Xs);
    let e = upload_tp_via_dequant_to_q8_0(&i, &vec![0; 32], WeightLayout::Replicated, 0);
    assert_eq!(e.unwrap_err().message(&vec![]), "`w` rank=0 elem 32 not multiple of QK_K");
}

fn t(name: &str) -> ResolvedTensor {
    resolved(name, GgmlDType::F16, vec![2], 4)
}

fn dense_attn() -> LayerAttnBlock {
    LayerAttnBlock::Dense(DenseAttnTensors {
        attn_q: t("q"),
        attn_k: t("k"),
        attn_v: t("v"),
        attn_output: t("o"),
        attn_q_norm: t("qn"),
        attn_k_norm: t("kn"),
        attn_q_bias: Some(t("qb")),
        attn_k_bias: None,
        attn_v_bias: Some(t("vb")),
    })
}

fn moe(shared: bool) -> MoeFfnTensors {
    MoeFfnTensors {
        ffn_gate_inp: Some(t("gi")),
        ffn_gate_exps: Some(t("ge")),
        ffn_up_exps: Some(t("ue")),
        ffn_down_exps: Some(t("de")),
        shared: if shared {
            Some(SharedExpertTensors {
                ffn_gate_inp_shexp: t("sgi"),
                ffn_gate_shexp: t("sg"),
                ffn_up_shexp: t("su"),
                ffn_down_shexp: t("sd"),
            })
        } else {
            None
        },
        dense: None,
    }
}

fn layer(il: usize, attn: LayerAttnBlock, ffn: MoeFfnTensors) -> LayerDescriptor {
    LayerDescriptor {
        layer_idx: il,
        attn_norm: t("an"),
        post_attention_norm: None,
        ffn_norm: Some(t("fn")),
        attn,
        ffn,
    }
}

#[test]
fn names_in_the_order_of_loading() {
    let n = collect_layer_tensor_names(&layer(0, dense_attn(), moe(true)));
    assert_eq!(
        n,
        vec![
            "an", "fn", "q", "k", "v", "o", "qn", "kn", "qb", "vb", "gi", "ge", "ue", "de", "sgi",
            "sg", "su", "sd"
        ]
    );
    let gdn = LayerAttnBlock::Gdn(GdnTensors {
        attn_qkv: t("qkv"),
        attn_gate: t("gate"),
        ssm_a: t("a"),
        ssm_dt_bias: t("dt"),
        ssm_conv1d: t("conv"),
        ssm_norm: t("norm"),
        ssm_out: t("out"),
        ssm_alpha: None,
        ssm_beta: None,
        ssm_ba: Some(t("ba")),
    });
    let n = collect_layer_tensor_names(&layer(0, gdn, moe(false)));
    assert_eq!(
        n,
        vec![
            "an", "fn", "qkv", "gate", "a", "dt", "conv", "norm", "out", "ba", "gi", "ge", "ue",
            "de"
        ]
    );
}

fn dt(name: &str, ptr: usize, bytes: usize) -> DeviceTensor {
    DeviceTensor {
        ptr: DevicePtr(ptr),
        dtype: GgmlDType::F16,
        dims: vec![bytes as u64 / 2],
        bytes,
        name: name.into(),
    }
}

fn lt(name: &str, ptr: usize, bytes: usize, layout: WeightLayout) -> TpLayerTensor {
    TpLayerTensor { name: name.into(), layout, tensor: dt(name, ptr, bytes) }
}

fn two_layer_cfg() -> Qwen3MoEConfig {
    let mut c = hybrid_cfg();
    c.family = AttentionFamily::Dense;
    c.num_layers = 2;
    c.num_heads = 8;
    c.num_kv_heads = 4;
    c.num_experts = 2;
    c.moe_intermediate_size = 64;
    c
}

fn two_layer_layout() -> ModelLayout {
    ModelLayout {
        token_embd: t("token_embd.weight"),
        output_norm: t("output_norm.weight"),
        output: Some(t("output.weight")),
        layers: vec![layer(0, dense_attn(), moe(false)), layer(1, dense_attn(), moe(false))],
    }
}

fn parts(r: usize, exps: WeightLayout) -> TpRankParts {
    let base = 1000 * (r + 1);
    TpRankParts {
        token_embd: Some(dt("token_embd.weight", base, 10)),
        output_norm: Some(dt("output_norm.weight", base + 100, 20)),
        output: Some(dt("output.weight", base + 200, 30)),
        layers: vec![
            vec![lt("blk.0.attn_norm.weight", base + 300, 4, WeightLayout::Replicated)],
            vec![lt("blk.1.ffn_up_exps.weight", base + 400, 6, exps)],
        ],
    }
}

#[test]
fn a_mesh_is_put_together() {
    let cfg = two_layer_cfg();
    let tp = Qwen35DenseTpLayout::new(&cfg, 2).unwrap();
    let exps = WeightLayout::ColParallel { world: 2, dim: 1 };
    let m = Qwen3MoETpModel::load(
        cfg,
        two_layer_layout(),
        tp,
        &vec![4, 5],
        vec![parts(0, exps), parts(1, exps)],
    )
    .unwrap();
    assert_eq!(m.shards.len(), 2);
    assert_eq!(m.shards[1].rank, RankId(1));
    assert_eq!(m.shards[1].device_id, 5);
    assert_eq!(m.rank_bytes(0), Some(70));
    assert_eq!(m.rank_bytes(2), None);
    assert_eq!(m.total_bytes(), 140);
    assert!(!m.moe_replicated_at(1));
    let frees = m.dispose();
    assert_eq!(frees.len(), 10);
    assert_eq!(
        frees[5],
        RankFree { rank: RankId(1), free: Free { ptr: DevicePtr(2000), bytes: 10 } }
    );
    assert_eq!(frees.iter().map(|f| f.free.bytes).sum::<usize>(), 140);
}

#[test]
fn a_part_of_a_model_has_placeholders() {
    let cfg = two_layer_cfg();
    let tp = Qwen35DenseTpLayout::new(&cfg, 2).unwrap();
    let opts = TpLoadOpts {
        layer_range: Some(1..2),
        load_token_embd: false,
        load_output_head: false,
    };
    let part = || TpRankParts {
        token_embd: None,
        output_norm: None,
        output: None,
        layers: vec![vec![lt("x", 8, 6, WeightLayout::Replicated)]],
    };
    let m = Qwen3MoETpModel::load_with_opts(
        cfg,
        two_layer_layout(),
        tp,
        &opts,
        &vec![0, 1],
        vec![part(), part()],
    )
    .unwrap();
    assert_eq!(m.layer_range, 1..2);
    assert!(!m.has_token_embd && !m.has_output_head);
    let s = &m.shards[0];
    assert_eq!(s.token_embd.ptr, DevicePtr(0));
    assert_eq!(s.token_embd.bytes, 0);
    assert_eq!(s.token_embd.name, "token_embd.weight");
    assert!(s.layers[0].is_empty());
    assert_eq!(s.layers[1].len(), 1);
    assert_eq!(m.total_bytes(), 12);
    // Placeholders own nothing.
    assert_eq!(m.dispose().len(), 2);
}

#[test]
fn default_options_load_everything() {
    let o = TpLoadOpts::default();
    assert!(o.layer_range.is_none() && o.load_token_embd && o.load_output_head);
}

#[test]
fn a_mesh_that_cannot_be_loaded() {
    let exps = WeightLayout::ColParallel { world: 2, dim: 1 };
    let tp = || Qwen35DenseTpLayout::new(&two_layer_cfg(), 2).unwrap();
    let load = |opts: &TpLoadOpts, ids: Vec<i32>, p: Vec<TpRankParts>, shared: Option<usize>| {
        let mut c = two_layer_cfg();
        c.shared_expert_intermediate_size = shared;
        match Qwen3MoETpModel::load_with_opts(c, two_layer_layout(), tp(), opts, &ids, p) {
            Ok(_) => panic!("loaded"),
            Err(e) => e,
        }
    };
    let all = TpLoadOpts::default();
    let e = load(&all, vec![0], vec![parts(0, exps)], None);
    assert_eq!(e.message(&vec![]), "cluster has 1 ranks, tp expects world=2");
    let bad = TpLoadOpts { layer_range: Some(1..3), ..TpLoadOpts::default() };
    let e = load(&bad, vec![0, 1], vec![parts(0, exps), parts(1, exps)], None);
    assert_eq!(
        e.message(&vec![]),
        "TpLoadOpts.layer_range 1..3 out of range for num_layers=2"
    );
    let r = WeightLayout::Replicated;
    let e = load(&all, vec![0, 1], vec![parts(0, r), parts(1, r)], Some(8));
    assert_eq!(e, LoadError::SharedFallback { layer: 1 });
    assert!(e.message(&vec![]).starts_with("fallback engaged on layer 1 (K-quant MoE expert"));
    // Without a shared expert the same layers are fine.
    let m = Qwen3MoETpModel::load(
        two_layer_cfg(),
        two_layer_layout(),
        tp(),
        &vec![0, 1],
        vec![parts(0, r), parts(1, r)],
    )
    .unwrap();
    assert!(m.moe_replicated_at(1));
}

#[test]
fn blocks_that_cannot_be_cut_are_opened() {
    assert_eq!(tp_route("blk.3.ssm_ba.weight", GgmlDType::F32), TpRoute::Split);
    assert_eq!(tp_route("blk.3.ffn_up.weight", GgmlDType::Mxfp4), TpRoute::Values);
    assert_eq!(tp_route("blk.3.ffn_up.weight", GgmlDType::Q4K), TpRoute::Bytes);
    let tp = dense_tp(2);
    let i = info("blk.0.attn_q.weight", vec![2, 32], GgmlDType::Mxfp4);
    let values: Vec<u32> = (0..64).collect();
    // The bytes are not looked at.
    let s = upload_tp_with_layout(&i, &[], &values, &tp, 1).unwrap();
    assert_eq!((s.dtype, s.dims), (GgmlDType::Q8_0, vec![1, 32]));
    match s.data {
        TpData::Blocks(v) => assert_eq!(v, values[32..].to_vec()),
        _ => panic!("not blocks"),
    }
}
