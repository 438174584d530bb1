use qwen3_moe::config::{AttentionFamily, Qwen3MoEConfig, RopeSpec};
use qwen3_moe::device::{DevicePtr, Free};
use qwen3_moe::layout::TensorDirectory;
use qwen3_moe::mtp::{
    derive_sibling_mtp_path, head_file_name, load_mtp_head, load_mtp_head_bf16, mtp_load_order,
    plan_mtp_head, verify_pairing, MtpError, MtpForwardScratch, MtpHeadWeights, MtpKvCache, MtpMetadata,
    MtpPrecision, MtpSizes, MtpTensor, MTP_TENSOR_NAMES,
};
use qwen3_moe::mtp_forward::{
    forward_mtp_step, forward_mtp_step_bf16, forward_mtp_step_with_lm_head,
    forward_mtp_step_with_lm_head_async, forward_mtp_step_with_lm_head_logits,
    mtp_logits_argmax_host, Act, MtpOp,
};
use qwen3_moe::tensor::{GgmlDType, TensorInfo};
use qwen3_moe::upload::PlacedTensor;
use qwen3_moe::weights::DeviceTensor;

#[test]
fn sibling_path_strips_quant_suffix() {
    let base = "/m/Qwen3.6-27B-Q4_0.gguf";
    assert_eq!(derive_sibling_mtp_path(base), "/m/Qwen3.6-27B-mtp.gguf");
    let base = "/m/Qwen3.6-27B-UD-Q4_K_XL.gguf";
    assert_eq!(derive_sibling_mtp_path(base), "/m/Qwen3.6-27B-mtp.gguf");
    let base = "/m/Qwen3.6-27B-Q8_0.gguf";
    assert_eq!(derive_sibling_mtp_path(base), "/m/Qwen3.6-27B-mtp.gguf");
}

#[test]
fn sibling_path_edges() {
    assert_eq!(derive_sibling_mtp_path("Model-27B-BF16.gguf"), "Model-27B-mtp.gguf");
    assert_eq!(derive_sibling_mtp_path("Model-27B-IQ4-XL"), "Model-27B-mtp.gguf");
    assert_eq!(derive_sibling_mtp_path("Model-27B-00001.gguf"), "Model-27B-mtp.gguf");
    assert_eq!(derive_sibling_mtp_path("/Q4_0.gguf"), "/-mtp.gguf");
    assert_eq!(derive_sibling_mtp_path("a/b/.hidden"), "a/b/.hidden-mtp.gguf");
    // A slash at the end names the same file, and what names no file has no stem.
    assert_eq!(derive_sibling_mtp_path("/m/x-Q4_0.gguf/"), "/m/x-mtp.gguf");
    assert_eq!(derive_sibling_mtp_path("/m/.."), "/m/-mtp.gguf");
    assert_eq!(derive_sibling_mtp_path(".."), "-mtp.gguf");
    assert_eq!(derive_sibling_mtp_path("/"), "./-mtp.gguf");
    assert_eq!(derive_sibling_mtp_path(""), "./-mtp.gguf");
    assert_eq!(head_file_name("Model-27B-UD-Q4_K_XL"), "Model-27B-mtp.gguf");
    assert_eq!(head_file_name("Q4_0"), "-mtp.gguf");
}

fn meta(arch: &str) -> MtpMetadata {
    MtpMetadata {
        arch: arch.into(),
        target_arch: None,
        target_hidden_size: None,
        target_vocab_size: None,
    }
}

#[test]
fn pairing() {
    let base = "qwen35".to_string();
    assert!(verify_pairing(&meta("qwen35"), &base, 64, 100).is_ok());
    assert!(verify_pairing(&meta("qwen35-mtp"), &base, 64, 100).is_ok());
    let e = verify_pairing(&meta("llama"), &base, 64, 100).unwrap_err();
    assert_eq!(
        e.message(),
        "MTP file arch `llama` does not match base `qwen35` (expected `qwen35-mtp` for thin \
         sibling, or `qwen35` for integrated)"
    );
    let mut m = meta("qwen35-mtp");
    m.target_arch = Some("qwen36".into());
    assert_eq!(
        verify_pairing(&m, &base, 64, 100).unwrap_err().message(),
        "MTP target_arch `qwen36` mismatches base arch `qwen35` — re-run convert_qwen36_mtp.py \
         with the matching base"
    );
    let mut m = meta("qwen35-mtp");
    m.target_hidden_size = Some(65);
    m.target_vocab_size = Some(101);
    assert_eq!(
        verify_pairing(&m, &base, 64, 100).unwrap_err().message(),
        "MTP target_hidden_size 65 != base hidden_size 64"
    );
    assert_eq!(
        verify_pairing(&m, &base, 65, 100).unwrap_err().message(),
        "MTP target_vocab_size 101 != base vocab_size 100"
    );
    assert!(verify_pairing(&m, &base, 65, 101).is_ok());
}

fn is_norm(n: &str) -> bool {
    n.contains("norm")
}

fn dir(linear: GgmlDType) -> TensorDirectory {
    TensorDirectory {
        tensors: MTP_TENSOR_NAMES
            .iter()
            .map(|n| TensorInfo {
                name: n.to_string(),
                dims: vec![64],
                dtype: if is_norm(n) { GgmlDType::F32 } else { linear },
            })
            .collect(),
    }
}

fn placed() -> Vec<PlacedTensor> {
    MTP_TENSOR_NAMES
        .iter()
        .enumerate()
        .map(|(i, n)| PlacedTensor { name: n.to_string(), ptr: DevicePtr(1000 + i) })
        .collect()
}

#[test]
fn names_cover_the_load_order() {
    let mut a: Vec<&str> = mtp_load_order().iter().map(|t| t.text()).collect();
    let mut b: Vec<&str> = MTP_TENSOR_NAMES.to_vec();
    assert_eq!(a[0], "mtp.fc.weight");
    assert_eq!(a[2], "mtp.pre_fc_norm_hidden.weight");
    a.sort();
    b.sort();
    assert_eq!(a, b);
}

#[test]
fn a_head_is_loaded() {
    let d = dir(GgmlDType::Q8_0);
    let haves = vec![1000; 15];
    let mut out = Vec::new();
    plan_mtp_head(&d, &haves, MtpPrecision::AsStored, &mut out).unwrap();
    assert_eq!(out.len(), 15);
    assert_eq!(out[0].tensor, MtpTensor::Fc);
    assert_eq!((out[0].dtype, out[0].bytes), (GgmlDType::Q8_0, 68));
    // Norms of singles are stored as halves.
    assert_eq!((out[1].source, out[1].dtype, out[1].bytes), (GgmlDType::F32, GgmlDType::F16, 128));
    let w = load_mtp_head(&d, &haves, &placed()).unwrap();
    assert_eq!(w.fc.ptr, DevicePtr(1000));
    assert_eq!(w.norm.bytes, 128);
    assert_eq!(w.block.down_proj.name, "mtp.layers.0.mlp.down_proj.weight");
    assert_eq!(w.block.down_proj.ptr, DevicePtr(1014));
    // Eight matrices of 68 bytes and seven norms of 128.
    assert_eq!(w.total_bytes(), 8 * 68 + 7 * 128);
    let w = load_mtp_head_bf16(&dir(GgmlDType::F16), &haves, &placed()).unwrap();
    assert_eq!((w.fc.dtype, w.fc.bytes), (GgmlDType::BF16, 128));
    assert_eq!(w.norm.dtype, GgmlDType::F16);
}

#[test]
fn heads_that_cannot_be_loaded() {
    let haves = vec![1000; 15];
    let err = |d: &TensorDirectory, h: &Vec<usize>| load_mtp_head(d, h, &placed()).unwrap_err();
    let mut d = dir(GgmlDType::Q8_0);
    d.tensors.remove(14);
    let e = err(&d, &haves);
    assert_eq!(e, MtpError::Missing { tensor: MtpTensor::DownProj });
    assert_eq!(
        e.message(),
        "MTP tensor `mtp.layers.0.mlp.down_proj.weight` not present in GGUF"
    );
    assert_eq!(
        err(&dir(GgmlDType::BF16), &haves).message(),
        "MTP tensor `mtp.fc.weight` has unexpected dtype BF16"
    );
    let mut h = haves.clone();
    h[1] = 255;
    assert_eq!(
        err(&dir(GgmlDType::Q8_0), &h).message(),
        "MTP tensor `mtp.norm.weight` F32 mmap slice 255 < 64*4 B"
    );
    h[0] = 67;
    assert_eq!(
        err(&dir(GgmlDType::Q8_0), &h).message(),
        "MTP tensor `mtp.fc.weight` mmap slice 67 < declared 68"
    );
    let e = load_mtp_head_bf16(&dir(GgmlDType::F16), &h, &placed()).unwrap_err();
    assert_eq!(e.message(), "MTP tensor `mtp.fc.weight` F16 mmap slice 67 < 64*2 B");
    let e = load_mtp_head_bf16(&dir(GgmlDType::Q8_0), &haves, &placed()).unwrap_err();
    assert_eq!(
        e.message(),
        "MTP linear `mtp.fc.weight` dtype Q8_0 not supported by load_mtp_head_bf16 (need F16 — \
         re-run convert_qwen36_mtp.py with MTP_LINEAR_DTYPE=f16)"
    );
    // What comes before the failure is listed.
    let mut h = haves.clone();
    h[2] = 0;
    let mut out = Vec::new();
    assert!(plan_mtp_head(&dir(GgmlDType::Q8_0), &h, MtpPrecision::AsStored, &mut out).is_err());
    assert_eq!(out.len(), 2);
}

fn cfg() -> Qwen3MoEConfig {
    Qwen3MoEConfig {
        arch: "qwen35".into(),
        family: AttentionFamily::Dense,
        hidden_size: 64,
        vocab_size: 10,
        num_layers: 2,
        num_heads: 4,
        num_kv_heads: 2,
        head_dim: 16,
        context_length: 32,
        rms_norm_eps_bits: 77,
        rope: RopeSpec { freq_base_bits: 88, rotated_dims: 8, sections: None },
        num_experts: 0,
        num_experts_per_tok: 1,
        moe_intermediate_size: 96,
        shared_expert_intermediate_size: None,
        full_attention_interval: None,
        gdn: None,
        tied_lm_head: false,
        pooling_type: None,
    }
}

fn scratch() -> MtpForwardScratch {
    let n = MtpSizes::new(&cfg()).list().len();
    MtpForwardScratch::new(&cfg(), &(0..n).map(|i| DevicePtr(10_000 * (i + 1))).collect())
}

#[test]
fn working_memory() {
    let s = MtpSizes::new(&cfg());
    assert_eq!(s.bytes_2h_f16, 256);
    assert_eq!(s.bytes_qfull_f32, 2 * 64 * 4);
    assert_eq!(s.bytes_kv_f16, 64);
    // Blocks of 32 take 36 bytes.
    assert_eq!(s.bytes_2h_q8_1, 144);
    assert_eq!(s.bytes_inter_q8_1, 108);
    assert_eq!(s.bytes_vocab_f32, 40);
    let list = s.list();
    let sc = scratch();
    assert_eq!(sc.fc_in_f16, DevicePtr(10_000));
    assert_eq!(sc.logits_f32, DevicePtr(10_000 * list.len()));
    // Every buffer goes back with the size it was made with.
    let frees = sc.dispose();
    assert_eq!(frees.len(), list.len());
    for (i, f) in frees.iter().enumerate() {
        assert_eq!(*f, Free { ptr: DevicePtr(10_000 * (i + 1)), bytes: list[i] });
    }
}

fn head(linear: GgmlDType) -> MtpHeadWeights {
    load_mtp_head(&dir(linear), &vec![1000; 15], &placed()).unwrap()
}

#[test]
fn a_step_on_halves() {
    let (c, w, s) = (cfg(), head(GgmlDType::Q8_0), scratch());
    let mut out = Vec::new();
    forward_mtp_step(&c, &w, &s, DevicePtr(1), DevicePtr(2), 5, DevicePtr(3), None, &mut out)
        .unwrap();
    // The embedding comes first, the hidden row behind it.
    assert_eq!(
        out[0],
        MtpOp::RmsNorm {
            act: Act::Half,
            x: DevicePtr(2),
            weight: w.pre_fc_norm_embedding.ptr,
            out: s.fc_in_f16,
            rows: 1,
            cols: 64,
            eps_bits: 77,
        }
    );
    assert_eq!(
        out[1],
        MtpOp::RmsNorm {
            act: Act::Half,
            x: DevicePtr(1),
            weight: w.pre_fc_norm_hidden.ptr,
            out: DevicePtr(s.fc_in_f16.0 + 128),
            rows: 1,
            cols: 64,
            eps_bits: 77,
        }
    );
    let ropes = out.iter().filter(|o| matches!(o, MtpOp::Rope { position: 5, .. })).count();
    assert_eq!(ropes, 2);
    assert!(out.contains(&MtpOp::Copy { dst: s.kcache_slot_f16, src: s.k_f16, bytes: 64 }));
    assert_eq!(out.iter().filter(|o| matches!(o, MtpOp::Mmvq { .. })).count(), 8);
    assert_eq!(out[out.len() - 1], MtpOp::Sync);
    // There is no rotation at position 0.
    let mut first = Vec::new();
    forward_mtp_step(&c, &w, &s, DevicePtr(1), DevicePtr(2), 0, DevicePtr(3), None, &mut first)
        .unwrap();
    assert_eq!(first.len(), out.len() - 2);
}

#[test]
fn a_step_with_earlier_slots() {
    let (c, w, s) = (cfg(), head(GgmlDType::Q8_0), scratch());
    let kv = MtpKvCache {
        kcache: DevicePtr(500),
        vcache: DevicePtr(900),
        cache_position: 3,
        n_tokens_kv: 4,
    };
    let mut out = Vec::new();
    forward_mtp_step(&c, &w, &s, DevicePtr(1), DevicePtr(2), 5, DevicePtr(3), Some(kv), &mut out)
        .unwrap();
    assert!(out.contains(&MtpOp::Copy { dst: DevicePtr(500 + 192), src: s.k_f16, bytes: 64 }));
    assert!(out.contains(&MtpOp::Copy { dst: DevicePtr(900 + 192), src: s.v_f16, bytes: 64 }));
    assert!(out
        .iter()
        .any(|o| matches!(o, MtpOp::Attention { k: DevicePtr(500), n_kv: 4, .. })));
}

#[test]
fn a_step_stops_at_a_matrix_without_a_kernel() {
    let (c, mut w, s) = (cfg(), head(GgmlDType::Q8_0), scratch());
    w.block.q_proj.dtype = GgmlDType::Q6K;
    let mut out = Vec::new();
    let e =
        forward_mtp_step(&c, &w, &s, DevicePtr(1), DevicePtr(2), 5, DevicePtr(3), None, &mut out)
            .unwrap_err();
    assert_eq!(
        e.message(),
        "MTP linear `mtp.layers.0.self_attn.q_proj.weight` has unsupported dtype Q6K"
    );
    assert_eq!(out.len(), 6);
}

#[test]
fn a_step_on_bfloat16s() {
    let (c, w, s) = (cfg(), head(GgmlDType::F16), scratch());
    let mut out = Vec::new();
    forward_mtp_step_bf16(&c, &w, &s, DevicePtr(1), DevicePtr(2), 0, DevicePtr(3), None, &mut out)
        .unwrap();
    assert_eq!(out[0], MtpOp::HalfToBf16 { x: DevicePtr(2), out: s.fc_in_f16, n: 64 });
    assert_eq!(out.iter().filter(|o| matches!(o, MtpOp::MmvqBf16 { .. })).count(), 8);
    assert_eq!(
        out[out.len() - 2],
        MtpOp::Bf16ToHalf { x: s.h2_f16, out: DevicePtr(3), n: 64 }
    );
}

fn tensor(dtype: GgmlDType) -> DeviceTensor {
    DeviceTensor { ptr: DevicePtr(7), dtype, dims: vec![], bytes: 1, name: "output".into() }
}

#[test]
fn a_step_with_the_lm_head() {
    let (c, w, s) = (cfg(), head(GgmlDType::Q8_0), scratch());
    let (norm, lm) = (tensor(GgmlDType::F16), tensor(GgmlDType::Q4K));
    let mut a = Vec::new();
    forward_mtp_step_with_lm_head_async(
        &c, &w, &s, &norm, &lm, DevicePtr(1), DevicePtr(2), 1, None, &mut a,
    )
    .unwrap();
    assert_eq!(
        a[a.len() - 1],
        MtpOp::Mmvq {
            weight: DevicePtr(7),
            x: s.x_q8_1,
            out: s.logits_f32,
            rows: 10,
            cols: 64,
            dtype: GgmlDType::Q4K,
        }
    );
    let mut b = Vec::new();
    forward_mtp_step_with_lm_head(
        &c, &w, &s, &norm, &lm, DevicePtr(1), DevicePtr(2), 1, None, &mut b,
    )
    .unwrap();
    assert_eq!(&b[..a.len()], &a[..]);
    assert_eq!(&b[a.len()..], &[MtpOp::Download { src: s.logits_f32, bytes: 40 }, MtpOp::Sync]);
    let mut l = Vec::new();
    forward_mtp_step_with_lm_head_logits(
        &c, &w, &s, &norm, &lm, DevicePtr(1), DevicePtr(2), 1, None, &mut l,
    )
    .unwrap();
    assert_eq!(l, b);
    let e = forward_mtp_step_with_lm_head(
        &c, &w, &s, &norm, &tensor(GgmlDType::F32), DevicePtr(1), DevicePtr(2), 1, None, &mut b,
    )
    .unwrap_err();
    assert_eq!(e.message(), "unsupported lm_head dtype F32 for MTP probe");
    let logits: Vec<u32> = [0.5f32, -3.0, 2.5, 2.5].iter().map(|x| x.to_bits()).collect();
    assert_eq!(mtp_logits_argmax_host(&logits), 2);
}
