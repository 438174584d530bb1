use qwen3_moe::config::{AttentionFamily, GdnDims, Qwen3MoEConfig, RopeSpec};
use qwen3_moe::device::DevicePtr;
use qwen3_moe::forward::tp::{LayerScratch, RankBuffers};
use qwen3_moe::hybrid::{
    HybridError, HybridMeshSpec, Qwen3MoEHybridModel, Qwen3MoEHybridSession,
    ShardedForwardOneTokenScratchHybrid, ShardedForwardPrefillScratchHybrid, StageInput,
};
use qwen3_moe::layout::{ModelLayout, ResolvedTensor};
use qwen3_moe::load_error::LoadError;
use qwen3_moe::state_ops::{PlacedCache, StateOp};
use qwen3_moe::tensor::GgmlDType;
use qwen3_moe::tp_sharded::{TpLayerTensor, TpRankParts};
use qwen3_moe::weight_layout::WeightLayout;
use qwen3_moe::weights::DeviceTensor;

#[test]
fn validate_pp_size_must_divide_num_layers() {
    let spec = HybridMeshSpec {
        pp_size: 3,
        tp_size: 2,
    };
    let err = spec.validate(40, 6).unwrap_err();
    assert!(
        err.message().contains("must divide num_layers"),
        "got: {}",
        err.message()
    );
}

#[test]
fn validate_total_ranks_must_match_devices() {
    let spec = HybridMeshSpec {
        pp_size: 2,
        tp_size: 2,
    };
    let err = spec.validate(40, 5).unwrap_err();
    assert!(
        err.message().contains("got 5 devices"),
        "got: {}",
        err.message()
    );
}

#[test]
fn stage_layer_range_uniform() {
    let spec = HybridMeshSpec {
        pp_size: 4,
        tp_size: 2,
    };
    spec.validate(40, 8).unwrap();
    assert_eq!(spec.stage_layer_range(0, 40), 0..10);
    assert_eq!(spec.stage_layer_range(1, 40), 10..20);
    assert_eq!(spec.stage_layer_range(2, 40), 20..30);
    assert_eq!(spec.stage_layer_range(3, 40), 30..40);
}

#[test]
fn stages_load_their_layers_and_the_ends_of_the_model() {
    let spec = HybridMeshSpec { pp_size: 3, tp_size: 2 };
    let opts = |stage| {
        let o = spec.stage_load_opts(stage, 12);
        (o.layer_range.unwrap(), o.load_token_embd, o.load_output_head)
    };
    assert_eq!(opts(0), (0..4, true, false));
    assert_eq!(opts(1), (4..8, false, false));
    assert_eq!(opts(2), (8..12, false, true));
}

#[test]
fn stage_device_ids_stage_major() {
    let spec = HybridMeshSpec {
        pp_size: 2,
        tp_size: 2,
    };
    let devs = [0i32, 2, 1, 3];
    assert_eq!(spec.stage_device_ids(0, &devs), &[0, 2]);
    assert_eq!(spec.stage_device_ids(1, &devs), &[1, 3]);
}

#[test]
fn a_mesh_needs_ranks() {
    let spec = HybridMeshSpec { pp_size: 0, tp_size: 2 };
    assert_eq!(
        spec.validate(4, 0).unwrap_err().message(),
        "HybridMeshSpec: pp_size=0 tp_size=2 (both must be > 0)"
    );
    let spec = HybridMeshSpec { pp_size: 3, tp_size: 2 };
    assert_eq!(
        spec.validate(4, 7).unwrap_err().message(),
        "HybridMeshSpec: pp_size=3 * tp_size=2 = 6 but got 7 devices"
    );
    assert_eq!(
        spec.validate(4, 6).unwrap_err().message(),
        "HybridMeshSpec: pp_size=3 must divide num_layers=4 (uniform stages only)"
    );
}

#[test]
fn every_layer_and_device_has_one_stage() {
    // The last stage takes what is left over.
    let spec = HybridMeshSpec { pp_size: 3, tp_size: 2 };
    let mut seen = vec![0; 8];
    for s in 0..3 {
        for il in spec.stage_layer_range(s, 8) {
            seen[il] += 1;
        }
    }
    assert_eq!(seen, vec![1; 8]);
    assert_eq!(spec.stage_layer_range(2, 8), 4..8);
    let all: Vec<i32> = (0..6).collect();
    let mut out: Vec<i32> = Vec::new();
    for s in 0..3 {
        out.extend_from_slice(spec.stage_device_ids(s, &all));
    }
    assert_eq!(out, all);
}

fn cfg() -> Qwen3MoEConfig {
    Qwen3MoEConfig {
        arch: "qwen3moe".into(),
        family: AttentionFamily::Dense,
        hidden_size: 64,
        vocab_size: 100,
        num_layers: 2,
        num_heads: 8,
        num_kv_heads: 4,
        head_dim: 16,
        context_length: 32,
        rms_norm_eps_bits: 0,
        rope: RopeSpec { freq_base_bits: 0, rotated_dims: 16, sections: None },
        num_experts: 2,
        num_experts_per_tok: 1,
        moe_intermediate_size: 64,
        shared_expert_intermediate_size: None,
        full_attention_interval: None,
        gdn: None,
        tied_lm_head: false,
        pooling_type: None,
    }
}

fn r(name: &str) -> ResolvedTensor {
    ResolvedTensor { name: name.into(), dtype: GgmlDType::F16, dims: vec![2], size_bytes: 4 }
}

fn layout() -> ModelLayout {
    ModelLayout {
        token_embd: r("token_embd.weight"),
        output_norm: r("output_norm.weight"),
        output: None,
        layers: vec![],
    }
}

fn dt(name: &str, ptr: usize, bytes: usize) -> DeviceTensor {
    DeviceTensor {
        ptr: DevicePtr(ptr),
        dtype: GgmlDType::F16,
        dims: vec![],
        bytes,
        name: name.into(),
    }
}

fn input(stage: usize, exps: WeightLayout, shared: Option<usize>) -> StageInput {
    let mut config = cfg();
    config.shared_expert_intermediate_size = shared;
    let part = |rank: usize| TpRankParts {
        token_embd: if stage == 0 { Some(dt("e", 10 + rank, 8)) } else { None },
        output_norm: if stage == 1 { Some(dt("n", 20 + rank, 4)) } else { None },
        output: None,
        layers: vec![vec![TpLayerTensor {
            name: "blk.0.ffn_up_exps.weight".into(),
            layout: exps,
            tensor: dt("x", 30 + rank, 2),
        }]],
    };
    StageInput { config, layout: layout(), parts: vec![part(0), part(1)] }
}

const MESH: HybridMeshSpec = HybridMeshSpec { pp_size: 2, tp_size: 2 };

fn model() -> Qwen3MoEHybridModel {
    let e = WeightLayout::ColParallel { world: 2, dim: 1 };
    match Qwen3MoEHybridModel::load(
        cfg(),
        &[3, 2, 1, 0],
        MESH,
        vec![input(0, e, None), input(1, e, None)],
    ) {
        Ok(m) => m,
        Err(e) => panic!("{}", e.message()),
    }
}

#[test]
fn a_model_is_loaded_stage_by_stage() {
    let m = model();
    assert_eq!(m.stages.len(), 2);
    assert_eq!(m.stages[0].layer_range, 0..1);
    assert_eq!(m.stages[1].layer_range, 1..2);
    assert!(m.stages[0].tp_model.has_token_embd && !m.stages[0].tp_model.has_output_head);
    assert!(!m.stages[1].tp_model.has_token_embd && m.stages[1].tp_model.has_output_head);
    assert_eq!(m.stages[1].tp_model.shards[0].device_id, 1);
    assert_eq!(m.stage_bytes(0), Some(20));
    assert_eq!(m.stage_bytes(1), Some(12));
    assert_eq!(m.stage_bytes(2), None);
    assert_eq!(m.total_bytes(), 32);
    let frees = m.dispose();
    assert_eq!(frees.len(), 8);
    assert_eq!(frees[0].stage, 0);
    assert_eq!(frees[7].stage, 1);
    assert_eq!(frees.iter().map(|f| f.free.free.bytes).sum::<usize>(), 32);
}

#[test]
fn a_model_that_cannot_be_loaded() {
    let e = WeightLayout::ColParallel { world: 2, dim: 1 };
    let load = |c: Qwen3MoEConfig, ids: &[i32], s: HybridMeshSpec, i: Vec<StageInput>| {
        match Qwen3MoEHybridModel::load(c, ids, s, i) {
            Ok(_) => panic!("loaded"),
            Err(e) => e,
        }
    };
    let err = load(cfg(), &[0], MESH, vec![]);
    assert!(matches!(err, HybridError::Devices { .. }));
    let mut c = cfg();
    c.num_heads = 7;
    let odd = |s: usize| {
        let mut i = input(s, e, None);
        i.config.num_heads = 7;
        i
    };
    let err = load(c, &[0, 1, 2, 3], MESH, vec![odd(0), odd(1)]);
    assert!(matches!(err, HybridError::Layout { .. }));
    assert!(err.message().contains("7"));
    let mut c = cfg();
    c.shared_expert_intermediate_size = Some(8);
    let rep = WeightLayout::Replicated;
    let err = load(
        c,
        &[0, 1, 2, 3],
        MESH,
        vec![input(0, e, Some(8)), input(1, rep, Some(8))],
    );
    assert_eq!(err, HybridError::Load { load: LoadError::SharedFallback { layer: 1 } });
    assert!(err.message().starts_with("fallback engaged on layer 1"));
}

fn placed(n: usize) -> Vec<PlacedCache> {
    (0..n)
        .map(|i| PlacedCache {
            first: DevicePtr(100 + i),
            second: DevicePtr(200 + i),
            tensor_bytes: 2048,
        })
        .collect()
}

#[test]
fn a_session_has_the_layers_of_each_stage() {
    let m = model();
    let bufs = vec![vec![placed(1), placed(1)], vec![placed(1), placed(1)]];
    let mut first = Vec::new();
    let s = Qwen3MoEHybridSession::new(&m, &bufs, &mut first).unwrap();
    // No layer is recurrent.
    let wait = vec![StateOp::Sync { rank: 0 }, StateOp::Sync { rank: 1 }];
    assert_eq!(first, vec![wait.clone(), wait]);
    assert_eq!(s.stages.len(), 2);
    assert_eq!(s.stages[1].layer_range, 1..2);
    assert_eq!(s.stages[1].caches.len(), 2);
    assert_eq!(s.stages[1].caches[0].len(), 1);
    // K and V on each rank.
    let rank = 2 * 2048;
    assert_eq!(s.stages[0].total_bytes(), 2 * rank);
    assert_eq!(s.total_bytes(), 4 * rank);
    let frees = s.dispose(&m).unwrap();
    assert_eq!(frees.len(), 8);
    assert_eq!(frees[4].stage, 1);
    let mut s = Qwen3MoEHybridSession::new(&m, &bufs, &mut first).unwrap();
    s.stages.pop();
    assert_eq!(
        s.dispose(&m).unwrap_err().message(),
        "Qwen3MoEHybridSession::dispose: session has 1 stages but model has 2"
    );
    let mut s = Qwen3MoEHybridSession::new(&m, &bufs, &mut first).unwrap();
    s.disposed = true;
    assert!(s.dispose(&m).unwrap().is_empty());
}

#[test]
fn a_session_that_cannot_be_made() {
    let mut m = model();
    m.config.family = AttentionFamily::Hybrid;
    m.config.full_attention_interval = Some(2);
    let bufs = vec![vec![placed(1), placed(1)], vec![placed(1), placed(1)]];
    let mut first = Vec::new();
    let e = Qwen3MoEHybridSession::new(&m, &bufs, &mut first).unwrap_err();
    assert!(matches!(e, HybridError::Session { .. }));
    assert!(first.is_empty());
}

#[test]
fn recurrent_layers_of_a_stage_start_from_zeros() {
    let mut m = model();
    m.config.family = AttentionFamily::Hybrid;
    m.config.full_attention_interval = Some(2);
    m.config.gdn = Some(GdnDims {
        num_v_heads: 4,
        num_k_heads: 2,
        head_k_dim: 8,
        d_inner: 32,
        conv_kernel: 4,
    });
    let bufs = vec![vec![placed(1), placed(1)], vec![placed(1), placed(1)]];
    let mut first = Vec::new();
    Qwen3MoEHybridSession::new(&m, &bufs, &mut first).unwrap();
    // The only layer of the first stage is recurrent, that of the second is not.
    assert_eq!(first.len(), 2);
    for rank in 0..2 {
        assert!(matches!(
            first[0][3 * rank],
            StateOp::Zero { rank: r, ptr: DevicePtr(100), .. } if r == rank
        ));
        assert!(matches!(
            first[0][3 * rank + 1],
            StateOp::Zero { rank: r, ptr: DevicePtr(200), .. } if r == rank
        ));
        assert_eq!(first[0][3 * rank + 2], StateOp::Sync { rank });
    }
    assert_eq!(first[1], vec![StateOp::Sync { rank: 0 }, StateOp::Sync { rank: 1 }]);
}

fn bufs(n: usize) -> Vec<RankBuffers> {
    (0..n)
        .map(|i| RankBuffers {
            device_id: i as i32,
            hidden_a: DevicePtr(10 + i),
            hidden_b: DevicePtr(20 + i),
            partial_attn_out: DevicePtr(30 + i),
            partial_ffn_out: DevicePtr(40 + i),
            layer: full_scratch(),
            logits_f32: DevicePtr(50 + i),
        })
        .collect()
}

fn full_scratch() -> LayerScratch {
    LayerScratch {
        full_attn: true,
        gdn: true,
        dense_ffn: true,
        moe: Some(4),
        shared: true,
        mid_norm_f16: DevicePtr(60),
        shared_delta_f16: DevicePtr(70),
    }
}

#[test]
fn working_memory_of_one_token() {
    let m = model();
    let s = ShardedForwardOneTokenScratchHybrid::new(&m, &vec![bufs(2), bufs(2)]).unwrap();
    assert_eq!(s.head_stage, 1);
    assert_eq!(s.per_stage.len(), 2);
    // Four rows of 64 halves on each rank.
    assert_eq!(s.total_bytes(), 4 * 4 * 128);
    assert!(!s.dispose(&m).unwrap().is_empty());
    let e = ShardedForwardOneTokenScratchHybrid::new(&m, &vec![bufs(2), bufs(0)]).unwrap_err();
    assert!(matches!(e, HybridError::Forward { .. }));
    let mut s = ShardedForwardOneTokenScratchHybrid::new(&m, &vec![bufs(2), bufs(2)]).unwrap();
    s.per_stage.pop();
    assert_eq!(
        s.dispose(&m).unwrap_err().message(),
        "ShardedForwardOneTokenScratchHybrid::dispose: scratch has 1 stages but model has 2"
    );
}

#[test]
fn working_memory_of_a_prefill() {
    let m = model();
    let s = ShardedForwardPrefillScratchHybrid::new(&m, 3, &vec![bufs(2), bufs(2)]).unwrap();
    assert_eq!((s.head_stage, s.max_tokens), (1, 3));
    assert_eq!(s.total_bytes(), 4 * 4 * 3 * 128);
    assert!(!s.dispose(&m).unwrap().is_empty());
    let e = ShardedForwardPrefillScratchHybrid::new(&m, 0, &vec![bufs(2), bufs(2)]).unwrap_err();
    assert_eq!(
        e.message(),
        "ShardedForwardPrefillScratchHybrid::new max_tokens must be >= 1"
    );
    let mut s = ShardedForwardPrefillScratchHybrid::new(&m, 3, &vec![bufs(2), bufs(2)]).unwrap();
    s.per_stage.pop();
    assert_eq!(
        s.dispose(&m).unwrap_err().message(),
        "ShardedForwardPrefillScratchHybrid::dispose: scratch has 1 stages but model has 2"
    );
}
