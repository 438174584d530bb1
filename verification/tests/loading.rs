use qwen3_moe::assignment::LayerAssignment;
use qwen3_moe::config::{AttentionFamily, GdnDims, Qwen3MoEConfig, RopeSpec};
use qwen3_moe::device::{DevicePtr, Free, RankId};
use qwen3_moe::layout::{MissingTensor, ModelLayout, ResolvedTensor, TensorDirectory};
use qwen3_moe::load_error::LoadError;
use qwen3_moe::model::Qwen3MoEModel;
use qwen3_moe::model_arch::Qwen3MoEModelArch;
use qwen3_moe::names;
use qwen3_moe::sharded::Qwen3MoEShardedModel;
use qwen3_moe::tensor::{GgmlDType, TensorInfo};
use qwen3_moe::tp_load::TpRoute;
use qwen3_moe::tp_plan::{plan_mesh_layer, plan_mesh_rank, TpPart};
use qwen3_moe::tp_sharded::{collect_layer_tensor_names, TpLoadOpts};
use qwen3_moe::upload::{
    check, find_ptr, list_model, list_rank, name_of_half, on_device, target, Conversion,
    PlacedTensor, Rule,
};
use qwen3_moe::weights::{AttnWeights, ModelWeights};

fn cfg(num_layers: usize) -> Qwen3MoEConfig {
    Qwen3MoEConfig {
        arch: "qwen3next".into(),
        family: AttentionFamily::Hybrid,
        hidden_size: 64,
        vocab_size: 100,
        num_layers,
        num_heads: 4,
        num_kv_heads: 2,
        head_dim: 16,
        context_length: 128,
        rms_norm_eps_bits: 1e-6f32.to_bits(),
        rope: RopeSpec { freq_base_bits: 10_000.0f32.to_bits(), rotated_dims: 16, sections: None },
        num_experts: 4,
        num_experts_per_tok: 2,
        moe_intermediate_size: 32,
        shared_expert_intermediate_size: None,
        full_attention_interval: Some(2),
        gdn: Some(GdnDims {
            num_v_heads: 4,
            num_k_heads: 2,
            head_k_dim: 8,
            d_inner: 32,
            conv_kernel: 4,
        }),
        tied_lm_head: false,
        pooling_type: None,
    }
}

fn tensor(name: &str, dtype: GgmlDType, dims: &[u64], size_bytes: u64) -> ResolvedTensor {
    ResolvedTensor { name: name.into(), dtype, dims: dims.to_vec(), size_bytes }
}

#[test]
fn targets_under_each_rule() {
    let f = tensor("t", GgmlDType::F32, &[64, 2], 512);
    let t = target(&f, Rule::AsStored);
    assert_eq!((t.conversion, t.dtype, t.bytes), (Conversion::AsIs, GgmlDType::F32, 512));
    let t = target(&f, Rule::Raw);
    assert_eq!((t.conversion, t.dtype, t.bytes), (Conversion::AsIs, GgmlDType::F32, 512));
    let t = target(&f, Rule::Half);
    assert_eq!((t.conversion, t.dtype, t.bytes), (Conversion::SingleToHalf, GgmlDType::F16, 256));
    let t = target(&f, Rule::Router);
    assert_eq!((t.conversion, t.dtype, t.bytes), (Conversion::SingleToHalf, GgmlDType::F16, 256));
    let t = target(&f, Rule::Q8);
    assert_eq!((t.conversion, t.dtype, t.bytes), (Conversion::SingleToQ8, GgmlDType::Q8_0, 136));

    let b = tensor("t", GgmlDType::BF16, &[64, 2], 256);
    let t = target(&b, Rule::Raw);
    assert_eq!((t.conversion, t.dtype, t.bytes), (Conversion::Bf16ToQ8, GgmlDType::Q8_0, 136));
    let t = target(&b, Rule::Router);
    assert_eq!((t.conversion, t.dtype, t.bytes), (Conversion::Bf16ToQ8, GgmlDType::Q8_0, 136));
    let t = target(&b, Rule::AsStored);
    assert_eq!((t.conversion, t.dtype, t.bytes), (Conversion::AsIs, GgmlDType::BF16, 256));

    let m = tensor("t", GgmlDType::Mxfp4, &[64, 2], 68);
    let t = target(&m, Rule::Raw);
    assert_eq!((t.conversion, t.dtype, t.bytes), (Conversion::Mxfp4ToQ8, GgmlDType::Q8_0, 136));

    // Q4_1 has a kernel of its own except for experts.
    let q = tensor("blk.0.attn_q.weight", GgmlDType::Q4_1, &[64, 2], 80);
    let t = target(&q, Rule::Raw);
    assert_eq!((t.conversion, t.dtype, t.bytes), (Conversion::AsIs, GgmlDType::Q4_1, 80));
    let q = tensor("blk.0.ffn_up_exps.weight", GgmlDType::Q4_1, &[64, 2], 80);
    let t = target(&q, Rule::Raw);
    assert_eq!((t.conversion, t.dtype, t.bytes), (Conversion::Q41ToQ8, GgmlDType::Q8_0, 136));
}

#[test]
fn tensors_that_cannot_be_stored() {
    let c = cfg(2);
    let dims = vec![];
    let stored = tensor("a", GgmlDType::Q8_0, &[32], 34);
    assert!(check(&stored, Rule::AsStored, 34, &c).is_ok());
    let e = check(&stored, Rule::AsStored, 33, &c).unwrap_err();
    assert_eq!(e, LoadError::ShortSlice { name: "a".into(), have: 33, want: 34 });
    assert_eq!(e.message(&dims), "tensor `a` mmap slice 33 < declared size 34");

    let e = check(&stored, Rule::Half, 34, &c).unwrap_err();
    assert_eq!(e, LoadError::F16Dtype { name: "a".into(), dtype: GgmlDType::Q8_0 });

    let f = tensor("f", GgmlDType::F32, &[40], 160);
    assert!(check(&f, Rule::Half, 160, &c).is_ok());
    let e = check(&f, Rule::Half, 159, &c).unwrap_err();
    assert_eq!(e, LoadError::F16Short { name: "f".into(), have: 39, want: 40 });
    assert_eq!(e.message(&dims), "upload_as_f16: `f` mmap slice 39 < expected 40");
    let e = check(&f, Rule::Q8, 156, &c).unwrap_err();
    assert_eq!(e, LoadError::Q8Short { name: "f".into(), have: 39, want: 40 });
    let e = check(&f, Rule::Q8, 160, &c).unwrap_err();
    assert_eq!(e, LoadError::Q8Blocks { name: "f".into(), elems: 40 });
    assert_eq!(
        e.message(&dims),
        "upload_as_q8_0: `f` elem count 40 not multiple of QK8_0=32"
    );
    let h = tensor("h", GgmlDType::F16, &[32], 64);
    assert!(check(&h, Rule::Half, 64, &c).is_ok());
    let e = check(&h, Rule::Q8, 64, &c).unwrap_err();
    assert_eq!(e, LoadError::Q8Dtype { name: "h".into(), dtype: GgmlDType::F16 });

    let b = tensor("b", GgmlDType::BF16, &[33], 66);
    let e = check(&b, Rule::Raw, 65, &c).unwrap_err();
    assert_eq!(e, LoadError::Bf16Short { name: "b".into(), have: 65, want: 66, elems: 33 });
    let e = check(&b, Rule::Raw, 66, &c).unwrap_err();
    assert_eq!(e, LoadError::Bf16Blocks { name: "b".into(), elems: 33 });

    let m = tensor("m", GgmlDType::Mxfp4, &[31], 17);
    let e = check(&m, Rule::Raw, 17, &c).unwrap_err();
    assert_eq!(e, LoadError::Mxfp4Blocks { name: "m".into(), elems: 31 });
    let m = tensor("m", GgmlDType::Mxfp4, &[64], 34);
    let e = check(&m, Rule::Router, 33, &c).unwrap_err();
    assert_eq!(e, LoadError::Mxfp4Short { name: "m".into(), have: 33, want: 34 });

    let q = tensor("x_exps", GgmlDType::Q4_1, &[31], 20);
    let e = check(&q, Rule::Raw, 20, &c).unwrap_err();
    assert_eq!(e, LoadError::Q41Blocks { name: "x_exps".into(), elems: 31 });
    let q = tensor("x_exps", GgmlDType::Q4_1, &[32], 20);
    let e = check(&q, Rule::Raw, 19, &c).unwrap_err();
    assert_eq!(e, LoadError::Q41Short { name: "x_exps".into(), have: 19, want: 20 });
}

/// The directory of a file: what `names` lists, each a Q8_0 row of 32.
fn directory(c: &Qwen3MoEConfig) -> TensorDirectory {
    let mut tensors: Vec<TensorInfo> = Vec::new();
    let mut add = |name: String, dtype: GgmlDType, dims: Vec<u64>| {
        tensors.push(TensorInfo { name, dtype, dims });
    };
    add("token_embd.weight".into(), GgmlDType::Q8_0, vec![32, 3]);
    add("output_norm.weight".into(), GgmlDType::F32, vec![8]);
    add("output.weight".into(), GgmlDType::Q8_0, vec![32, 2]);
    for il in 0..c.num_layers {
        add(names::blk(il, "attn_norm.weight"), GgmlDType::F32, vec![4]);
        add(names::blk(il, "post_attention_norm.weight"), GgmlDType::F32, vec![4]);
        if c.is_recurrent(il) {
            for s in ["attn_qkv.weight", "attn_gate.weight", "ssm_out.weight"] {
                add(names::blk(il, s), GgmlDType::Q8_0, vec![32]);
            }
            for s in ["ssm_a", "ssm_dt.bias", "ssm_conv1d.weight", "ssm_norm.weight"] {
                add(names::blk(il, s), GgmlDType::F32, vec![4]);
            }
            add(names::blk(il, "ssm_ba.weight"), GgmlDType::F32, vec![8, 32]);
        } else {
            for s in ["attn_q.weight", "attn_k.weight", "attn_v.weight", "attn_output.weight"] {
                add(names::blk(il, s), GgmlDType::Q8_0, vec![32]);
            }
            for s in ["attn_q_norm.weight", "attn_k_norm.weight"] {
                add(names::blk(il, s), GgmlDType::F32, vec![4]);
            }
        }
        add(names::blk(il, "ffn_gate_inp.weight"), GgmlDType::F32, vec![4]);
        for s in ["ffn_gate_exps.weight", "ffn_up_exps.weight", "ffn_down_exps.weight"] {
            add(names::blk(il, s), GgmlDType::Q8_0, vec![32]);
        }
    }
    TensorDirectory { tensors }
}

#[test]
fn tensors_are_found_by_name() {
    let c = cfg(2);
    let l = Qwen3MoEModel::resolve(&directory(&c), &c).unwrap();
    assert_eq!(l.layers.len(), 2);
    assert_eq!(l.token_embd.size_bytes, 102);
    assert_eq!(l.output.as_ref().unwrap().dims, vec![32, 2]);
    assert_eq!(l.layers[1].attn_norm.name, "blk.1.attn_norm.weight");
    assert_eq!(l.layers[1].attn_norm.size_bytes, 16);

    let mut d = directory(&c);
    d.tensors.retain(|t| t.name != "blk.1.attn_v.weight" && t.name != "blk.1.attn_output.weight");
    let e: MissingTensor = Qwen3MoEModel::resolve(&d, &c).unwrap_err();
    assert_eq!(e.message(), "required tensor `blk.1.attn_v.weight` missing from GGUF");
}

fn layout(c: &Qwen3MoEConfig) -> ModelLayout {
    Qwen3MoEModel::resolve(&directory(c), c).unwrap()
}

#[test]
fn uploads_to_one_device_are_verbatim() {
    let c = cfg(2);
    let l = layout(&c);
    let items = list_model(&l);
    let names: Vec<&str> = items.iter().map(|i| i.tensor.name.as_str()).collect();
    let first = vec!["token_embd.weight", "output_norm.weight", "output.weight"];
    assert_eq!(names[..3].to_vec(), first);
    assert_eq!(names[3], "blk.0.attn_norm.weight");
    assert!(items.iter().all(|i| i.rule == Rule::AsStored));
    let haves: Vec<usize> = items.iter().map(|i| i.tensor.size_bytes as usize).collect();
    let mut out = Vec::new();
    ModelWeights::plan_upload(&l, &haves, &c, &mut out).unwrap();
    assert_eq!(out.len(), items.len());
    let total: usize = out.iter().map(|u| u.target.bytes).sum();

    // Uploads before the one that fails are kept.
    let mut short = haves.clone();
    short[2] -= 1;
    let mut out = Vec::new();
    let e = ModelWeights::plan_upload(&l, &short, &c, &mut out).unwrap_err();
    assert_eq!(e, LoadError::ShortSlice { name: "output.weight".into(), have: 67, want: 68 });
    assert_eq!(out.len(), 2);
    assert_eq!(out[1].name, "output_norm.weight");

    let placed: Vec<PlacedTensor> = items
        .iter()
        .enumerate()
        .map(|(i, it)| PlacedTensor { name: it.tensor.name.clone(), ptr: DevicePtr(4096 + i) })
        .collect();
    let n = items.len();
    let m = Qwen3MoEModel::load(c, l.clone(), 3, &placed);
    assert_eq!(m.weights.device_id, 3);
    assert_eq!(m.weights.total_bytes, total);
    assert_eq!(m.weights.token_embd.ptr, DevicePtr(4096));
    assert_eq!(m.weights.output.as_ref().unwrap().ptr, DevicePtr(4098));
    assert_eq!(m.weights.layers[0].attn_norm.ptr, DevicePtr(4099));
    assert_eq!(m.weights.layers[1].layer_idx, 1);
    let freed = m.dispose();
    assert_eq!(freed.len(), n);
    let mut ptrs: Vec<usize> = freed.iter().map(|f: &Free| f.ptr.0).collect();
    ptrs.sort();
    let want: Vec<usize> = (0..n).map(|i| 4096 + i).collect();
    assert_eq!(ptrs, want);
    assert_eq!(freed.iter().map(|f| f.bytes).sum::<usize>(), total);
}

#[test]
fn a_tensor_that_went_nowhere_has_no_address() {
    let placed = vec![
        PlacedTensor { name: "a".into(), ptr: DevicePtr(8) },
        PlacedTensor { name: "a".into(), ptr: DevicePtr(16) },
    ];
    assert_eq!(find_ptr(&placed, "a"), DevicePtr(8));
    assert_eq!(find_ptr(&placed, "b"), DevicePtr(0));
    let t = tensor("a", GgmlDType::F32, &[32], 128);
    let d = on_device(&t, Rule::Q8, &placed);
    assert_eq!((d.ptr, d.dtype, d.bytes, d.dims), (DevicePtr(8), GgmlDType::Q8_0, 34, vec![32]));
}

#[test]
fn ranks_get_the_ends_of_the_model_and_their_layers() {
    let c = cfg(4);
    let l = layout(&c);
    let first = list_rank(&l, &c, &vec![0, 1], true, false);
    // The layers come first.
    assert_eq!(first[0].tensor.name, "blk.0.attn_norm.weight");
    assert_eq!(first[first.len() - 1].tensor.name, "token_embd.weight");
    assert!(first.iter().all(|i| i.tensor.name != "output.weight"));
    let last = list_rank(&l, &c, &vec![2, 3], false, true);
    assert!(last.iter().any(|i| i.tensor.name == "output.weight"));
    assert!(last.iter().any(|i| i.tensor.name == "output_norm.weight"));
    assert!(last.iter().all(|i| i.tensor.name != "token_embd.weight"));
    let middle = list_rank(&l, &c, &vec![1], false, false);
    assert!(middle.iter().all(|i| i.tensor.name.starts_with("blk.1.")));
    let norm = middle.iter().find(|i| i.tensor.name == "blk.1.attn_norm.weight").unwrap();
    assert_eq!(norm.rule, Rule::Half);
    let q = middle.iter().find(|i| i.tensor.name == "blk.1.attn_q.weight").unwrap();
    assert_eq!(q.rule, Rule::Raw);
    let router = middle.iter().find(|i| i.tensor.name == "blk.1.ffn_gate_inp.weight").unwrap();
    assert_eq!(router.rule, Rule::Router);
}

#[test]
fn a_pipeline_is_loaded() {
    let c = cfg(4);
    let l = layout(&c);
    let a = LayerAssignment::contiguous(4, 2);
    let mut planned: Vec<Vec<PlacedTensor>> = Vec::new();
    let mut bytes: Vec<usize> = Vec::new();
    for rank in 0..2u32 {
        let owned: Vec<usize> = vec![2 * rank as usize, 2 * rank as usize + 1];
        let items = list_rank(&l, &c, &owned, rank == 0, rank == 1);
        let haves: Vec<usize> = items.iter().map(|i| i.tensor.size_bytes as usize).collect();
        let mut out = Vec::new();
        Qwen3MoEShardedModel::plan_rank(&l, &c, &a, rank, &haves, &mut out).unwrap();
        bytes.push(out.iter().map(|u| u.target.bytes).sum());
        planned.push(
            out.iter()
                .enumerate()
                .map(|(i, u)| {
                    let name = match u.target.conversion {
                        Conversion::AlphaRows => name_of_half(&u.name, ".ssm_alpha.weight"),
                        Conversion::BetaRows => name_of_half(&u.name, ".ssm_beta.weight"),
                        _ => u.name.clone(),
                    };
                    PlacedTensor { name, ptr: DevicePtr(64 * (i + 1)) }
                })
                .collect(),
        );
    }
    let m = Qwen3MoEShardedModel::load(c.clone(), l.clone(), a, &vec![0, 5], &planned).unwrap();
    assert_eq!(m.shards.len(), 2);
    assert_eq!(m.shards[1].device_id, 5);
    assert_eq!(m.shards[0].total_bytes, bytes[0]);
    assert_eq!(m.shards[1].total_bytes, bytes[1]);
    // The fused tensor of a recurrent layer became two.
    match &m.shards[0].layers[0].attn {
        AttnWeights::Gdn(g) => {
            let alpha = g.ssm_alpha.as_ref().unwrap();
            assert_eq!(alpha.name, "blk.0.ssm_alpha.weight");
            assert_eq!((alpha.dtype, alpha.bytes), (GgmlDType::Q8_0, 4 * 34));
            assert!(alpha.ptr != DevicePtr(0));
            assert_eq!(g.ssm_beta.as_ref().unwrap().name, "blk.0.ssm_beta.weight");
            assert!(g.ssm_beta.as_ref().unwrap().ptr != alpha.ptr);
            assert!(g.ssm_ba.is_none());
        }
        _ => panic!("layer 0 is recurrent"),
    }
}

#[test]
fn the_ranks_together_upload_every_layer_once() {
    let c = cfg(4);
    let l = layout(&c);
    for ranks in 1..4u32 {
        let a = LayerAssignment::contiguous(4, ranks);
        let mut names: Vec<String> = Vec::new();
        for rank in 0..ranks {
            let owned = a.layers_on(RankId(rank));
            let items = list_rank(&l, &c, &owned, rank == 0, rank + 1 == ranks);
            names.extend(items.iter().map(|i| i.tensor.name.clone()));
        }
        let whole = list_rank(&l, &c, &vec![0, 1, 2, 3], true, true);
        let mut all: Vec<String> = whole.iter().map(|i| i.tensor.name.clone()).collect();
        if ranks > 1 && c.tied_lm_head {
            all.push(l.token_embd.name.clone());
        }
        names.sort();
        all.sort();
        assert_eq!(names, all);
    }
}

#[test]
fn a_pipeline_that_cannot_be_loaded() {
    let c = cfg(4);
    let dims = vec![];
    let a = LayerAssignment::contiguous(3, 2);
    let e = Qwen3MoEShardedModel::check_assignment(&c, &a, 2).unwrap_err();
    assert_eq!(e, LoadError::AssignedLayers { have: 3, want: 4 });
    assert_eq!(e.message(&dims), "assignment.num_layers=3 != cfg.num_layers=4");
    let a = LayerAssignment::contiguous(4, 2);
    let e = Qwen3MoEShardedModel::check_assignment(&c, &a, 3).unwrap_err();
    assert_eq!(e, LoadError::AssignedRanks { have: 2, ranks: 3 });
    assert_eq!(e.message(&dims), "assignment.num_ranks=2 != cluster.ranks=3");
    assert!(Qwen3MoEShardedModel::check_assignment(&c, &a, 2).is_ok());
}

#[test]
fn a_mesh_rank_takes_the_named_tensors() {
    let c = cfg(2);
    let mut d = directory(&c);
    let l = layout(&c);
    for t in d.tensors.iter_mut() {
        if t.name == "blk.1.attn_q.weight" || t.name == "output.weight" {
            t.dtype = GgmlDType::Mxfp4;
        }
    }
    let all = TpLoadOpts::default();
    let p = plan_mesh_rank(&d, &l, &all, 2).unwrap();
    assert_eq!(p.token_embd.as_ref().unwrap().name, "token_embd.weight");
    assert_eq!(p.output_norm.as_ref().unwrap().route, TpRoute::Bytes);
    assert_eq!(p.output.as_ref().unwrap().route, TpRoute::Values);
    assert_eq!(p.layers.len(), 2);
    for (il, items) in p.layers.iter().enumerate() {
        // Each tensor that the layer names, once and in its order.
        let mut sources: Vec<&String> = items.iter().map(|i| &i.source).collect();
        sources.dedup();
        let names = collect_layer_tensor_names(&l.layers[il]);
        assert_eq!(sources, names.iter().collect::<Vec<&String>>());
    }
    let halves: Vec<(TpPart, TpRoute, &str)> = p.layers[0]
        .iter()
        .filter(|i| i.source == "blk.0.ssm_ba.weight")
        .map(|i| (i.part, i.route, i.name.as_str()))
        .collect();
    assert_eq!(
        halves,
        vec![
            (TpPart::Alpha, TpRoute::Split, "blk.0.ssm_alpha.weight"),
            (TpPart::Beta, TpRoute::Split, "blk.0.ssm_beta.weight"),
        ]
    );
    let q = p.layers[1].iter().find(|i| i.name == "blk.1.attn_q.weight").unwrap();
    assert_eq!((q.part, q.route), (TpPart::Whole, TpRoute::Values));

    // A stage takes its layers, and the ends of the model only where asked.
    let last = TpLoadOpts {
        layer_range: Some(1..2),
        load_token_embd: false,
        load_output_head: true,
    };
    let p = plan_mesh_rank(&d, &l, &last, 2).unwrap();
    assert!(p.token_embd.is_none() && p.output.is_some() && p.output_norm.is_some());
    assert_eq!(p.layers.len(), 1);
    assert_eq!(p.layers[0][0].name, "blk.1.attn_norm.weight");

    d.tensors.retain(|t| t.name != "blk.1.attn_k.weight");
    let e = plan_mesh_rank(&d, &l, &all, 2).unwrap_err();
    assert_eq!(e, LoadError::NoInfo { name: "blk.1.attn_k.weight".into() });
    assert_eq!(e.message(&vec![]), "info `blk.1.attn_k.weight`");
    assert_eq!(plan_mesh_layer(&d, &l.layers[1]).unwrap_err(), e);
    assert!(plan_mesh_layer(&d, &l.layers[0]).is_ok());
}

#[test]
fn architectures() {
    let a = Qwen3MoEModelArch;
    assert_eq!(a.supported_archs(), vec!["qwen35moe", "qwen3moe", "qwen3next"]);
    assert!(a.description().starts_with("Qwen3 family"));
}
