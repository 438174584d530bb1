use qwen3_moe::assignment::LayerAssignment;
use qwen3_moe::config::{AttentionFamily, GdnDims, Qwen3MoEConfig, RopeSpec};
use qwen3_moe::device::{DevicePtr, Free, RankFree, RankId};
use qwen3_moe::layout::{ModelLayout, ResolvedTensor};
use qwen3_moe::session::{
    alloc_layer_cache, alloc_layer_cache_tp, KvLayout, LayerCache, LayerCacheSpec,
    Qwen3MoESession, SessionError,
};
use qwen3_moe::sharded::{Qwen3MoEShardedModel, Qwen3MoEShardedSession};
use qwen3_moe::state_ops::{PlacedCache, SnapshotPtrs, StateOp};
use qwen3_moe::tensor::GgmlDType;
use qwen3_moe::tp_layout::Qwen35DenseTpLayout;
use qwen3_moe::tp_session::Qwen3MoETpSession;
use qwen3_moe::tp_sharded::{Qwen3MoETpModel, TpRankParts};
use qwen3_moe::weights::{
    AttnWeights, DeviceTensor, FfnWeights, FullAttnWeights, LayerWeights,
};
use std::collections::HashMap;

/// Two layers: a recurrent one and one of full attention.
fn cfg() -> Qwen3MoEConfig {
    Qwen3MoEConfig {
        arch: "qwen3next".into(),
        family: AttentionFamily::Hybrid,
        hidden_size: 64,
        vocab_size: 100,
        num_layers: 2,
        num_heads: 4,
        num_kv_heads: 2,
        head_dim: 16,
        context_length: 128,
        rms_norm_eps_bits: 1e-6f32.to_bits(),
        rope: RopeSpec { freq_base_bits: 10_000.0f32.to_bits(), rotated_dims: 16, sections: None },
        num_experts: 0,
        num_experts_per_tok: 1,
        moe_intermediate_size: 64,
        shared_expert_intermediate_size: None,
        full_attention_interval: Some(2),
        gdn: Some(GdnDims {
            num_v_heads: 4,
            num_k_heads: 2,
            head_k_dim: 8,
            d_inner: 32,
            conv_kernel: 4,
        }),
        tied_lm_head: false,
        pooling_type: None,
    }
}

#[test]
fn kv_layouts_by_value() {
    for v in ["q8", "q8_0", "Q8", "Q8_0"] {
        assert_eq!(KvLayout::from_value(Some(v)), KvLayout::Q8);
    }
    for v in ["", "f16", "Q8_1", "q8 "] {
        assert_eq!(KvLayout::from_value(Some(v)), KvLayout::F16);
    }
    assert_eq!(KvLayout::from_value(None), KvLayout::F16);
}

#[test]
fn what_a_layer_needs() {
    let c = cfg();
    assert_eq!(
        alloc_layer_cache(&c, 0, KvLayout::Q8).unwrap(),
        LayerCacheSpec::Gdn {
            state_bytes: 4 * 8 * 8 * 4,
            conv_history_bytes: 3 * 64 * 4,
            num_v_heads: 4,
            head_k_dim: 8,
            head_v_dim: 8,
            conv_kernel: 4,
            conv_channels: 32 + 2 * 16,
        }
    );
    assert_eq!(
        alloc_layer_cache(&c, 1, KvLayout::Q8).unwrap(),
        LayerCacheSpec::Kv {
            layout: KvLayout::Q8,
            num_kv_heads: 2,
            head_dim: 16,
            max_tokens: 128
        }
    );
    let mut none = cfg();
    none.gdn = None;
    let e = alloc_layer_cache(&none, 0, KvLayout::F16).unwrap_err();
    assert_eq!(e, SessionError::MissingGdn);
    assert_eq!(e.message(), "recurrent layer requires cfg.gdn to be Some");
}

#[test]
fn shares_of_a_layer() {
    let c = cfg();
    // Half of the heads, so half of everything.
    assert_eq!(
        alloc_layer_cache_tp(&c, 0, 2, false, KvLayout::F16).unwrap(),
        LayerCacheSpec::Gdn {
            state_bytes: 2 * 8 * 8 * 4,
            conv_history_bytes: 3 * 32 * 4,
            num_v_heads: 2,
            head_k_dim: 8,
            head_v_dim: 8,
            conv_kernel: 4,
            conv_channels: 32,
        }
    );
    // The K heads are kept whole: 16 + 2 * 16 channels.
    match alloc_layer_cache_tp(&c, 0, 2, true, KvLayout::F16).unwrap() {
        LayerCacheSpec::Gdn { conv_channels, num_v_heads, .. } => {
            assert_eq!((conv_channels, num_v_heads), (48, 2));
        }
        _ => panic!("layer 0 is recurrent"),
    }
    let heads = |world| match alloc_layer_cache_tp(&c, 1, world, false, KvLayout::F16).unwrap() {
        LayerCacheSpec::Kv { num_kv_heads, .. } => num_kv_heads,
        _ => panic!("layer 1 is no recurrent layer"),
    };
    assert_eq!(heads(1), 2);
    assert_eq!(heads(2), 1);
    assert_eq!(heads(4), 2);

    let e = |world| alloc_layer_cache_tp(&c, 0, world, false, KvLayout::F16).unwrap_err();
    assert_eq!(e(0), SessionError::WorldZero);
    assert_eq!(e(3), SessionError::VHeadsIndivisible { num_v_heads: 4, world: 3 });
    assert_eq!(e(4), SessionError::KHeadsIndivisible { num_k_heads: 2, world: 4 });
    assert_eq!(
        e(4).message(),
        "alloc_layer_cache_tp: gdn.num_k_heads 2 not divisible by tp_world 4"
    );
    assert!(alloc_layer_cache_tp(&c, 0, 4, true, KvLayout::F16).is_ok());
}

fn placed(at: usize) -> Vec<PlacedCache> {
    vec![
        PlacedCache { first: DevicePtr(at), second: DevicePtr(at + 1), tensor_bytes: 0 },
        PlacedCache { first: DevicePtr(at + 2), second: DevicePtr(at + 3), tensor_bytes: 50 },
    ]
}

fn fresh(at: usize) -> Vec<SnapshotPtrs> {
    vec![
        SnapshotPtrs { state: DevicePtr(at), conv: DevicePtr(at + 1) },
        SnapshotPtrs { state: DevicePtr(at + 2), conv: DevicePtr(at + 3) },
    ]
}

fn fill(caches: &mut Vec<LayerCache>, n: usize) {
    for c in caches.iter_mut() {
        match c {
            LayerCache::FullAttn(kv) => kv.current_tokens = n,
            LayerCache::FullAttnQ8(kv) => kv.current_tokens = n,
            LayerCache::Gdn(_) => {}
        }
    }
}

fn tokens(c: &LayerCache) -> usize {
    match c {
        LayerCache::FullAttn(kv) => kv.current_tokens,
        LayerCache::FullAttnQ8(kv) => kv.current_tokens,
        LayerCache::Gdn(_) => 0,
    }
}

#[test]
fn a_session_on_one_device() {
    let mut first = Vec::new();
    let mut s =
        Qwen3MoESession::new(&cfg(), KvLayout::Q8, &placed(10), 7, &mut first).unwrap();
    // The recurrent layer starts from zeros.
    assert_eq!(
        first,
        vec![
            StateOp::Zero { rank: 0, ptr: DevicePtr(10), bytes: 1024 },
            StateOp::Zero { rank: 0, ptr: DevicePtr(11), bytes: 768 },
            StateOp::Sync { rank: 0 },
        ]
    );
    assert_eq!(s.device_id(), 7);
    assert!(s.is_q8_kv());
    // 1024 + 768 for the recurrent layer, K and V of 50.
    assert_eq!(s.total_bytes(), 1024 + 768 + 100);
    assert_eq!(s.layers().len(), 2);

    let mut ops = Vec::new();
    let e = s.restore_gdn_snapshot(&mut ops).unwrap_err();
    assert_eq!(e, SessionError::NoSnapshot { layer: 0 });
    assert_eq!(e.message(), "restore_gdn_snapshot: layer 0 has no saved snapshot");
    assert!(ops.is_empty());

    s.save_gdn_snapshot(&fresh(100), &mut ops);
    assert_eq!(
        ops,
        vec![
            StateOp::Copy { rank: 0, dst: DevicePtr(100), src: DevicePtr(10), bytes: 1024 },
            StateOp::Copy { rank: 0, dst: DevicePtr(101), src: DevicePtr(11), bytes: 768 },
        ]
    );
    // A second save uses the buffers of the first.
    let mut again = Vec::new();
    s.save_gdn_snapshot(&fresh(900), &mut again);
    assert_eq!(again, ops);
    let mut back = Vec::new();
    s.restore_gdn_snapshot(&mut back).unwrap();
    assert_eq!(
        back,
        vec![
            StateOp::Copy { rank: 0, dst: DevicePtr(10), src: DevicePtr(100), bytes: 1024 },
            StateOp::Copy { rank: 0, dst: DevicePtr(11), src: DevicePtr(101), bytes: 768 },
        ]
    );

    fill(s.layers_mut(), 5);
    s.rollback_full_attn(2).unwrap();
    assert_eq!(tokens(&s.layers()[1]), 3);
    let e = s.rollback_full_attn(4).unwrap_err();
    assert_eq!(e, SessionError::RollbackLayer { layer: 1, n_remove: 4, current: 3 });
    assert_eq!(e.message(), "rollback layer 1: cannot remove 4 of 3 cached tokens");
    assert_eq!(tokens(&s.layers()[1]), 3);

    let frees = s.dispose();
    assert_eq!(
        frees,
        vec![
            Free { ptr: DevicePtr(10), bytes: 1024 },
            Free { ptr: DevicePtr(11), bytes: 768 },
            Free { ptr: DevicePtr(100), bytes: 1024 },
            Free { ptr: DevicePtr(101), bytes: 768 },
            Free { ptr: DevicePtr(12), bytes: 50 },
            Free { ptr: DevicePtr(13), bytes: 50 },
        ]
    );
    assert!(s.dispose().is_empty());
}

#[test]
fn a_session_that_lacks_a_part_of_its_snapshot() {
    let mut first = Vec::new();
    let mut s =
        Qwen3MoESession::new(&cfg(), KvLayout::F16, &placed(10), 0, &mut first).unwrap();
    assert!(!s.is_q8_kv());
    if let LayerCache::Gdn(g) = &mut s.layers_mut()[0] {
        g.snapshot_state = Some(DevicePtr(5));
    }
    let mut ops = Vec::new();
    assert_eq!(
        s.restore_gdn_snapshot(&mut ops).unwrap_err(),
        SessionError::NoConvSnapshot { layer: 0 }
    );
    let mut c = cfg();
    c.gdn = None;
    assert_eq!(
        Qwen3MoESession::new(&c, KvLayout::F16, &placed(1), 0, &mut ops).unwrap_err(),
        SessionError::MissingGdn
    );
    assert!(ops.is_empty());
}

fn rt(name: &str) -> ResolvedTensor {
    ResolvedTensor { name: name.into(), dtype: GgmlDType::F16, dims: vec![1], size_bytes: 2 }
}

fn layout() -> ModelLayout {
    ModelLayout {
        token_embd: rt("token_embd.weight"),
        output_norm: rt("output_norm.weight"),
        output: None,
        layers: vec![],
    }
}

fn dt(name: &str, ptr: usize, bytes: usize) -> DeviceTensor {
    DeviceTensor {
        ptr: DevicePtr(ptr),
        dtype: GgmlDType::F16,
        dims: vec![bytes as u64 / 2],
        bytes,
        name: name.into(),
    }
}

fn layer(il: usize) -> LayerWeights {
    LayerWeights {
        layer_idx: il,
        attn_norm: dt("n", 1, 2),
        post_attention_norm: None,
        ffn_norm: None,
        attn: AttnWeights::FullAttn(FullAttnWeights {
            attn_q: dt("q", 2, 4),
            attn_k: dt("k", 3, 4),
            attn_v: dt("v", 4, 4),
            attn_output: dt("o", 5, 4),
            attn_q_norm: dt("qn", 6, 4),
            attn_k_norm: dt("kn", 7, 4),
        }),
        ffn: FfnWeights {
            ffn_gate_inp: None,
            ffn_gate_exps: None,
            ffn_up_exps: None,
            ffn_down_exps: None,
            shared: None,
            dense: None,
        },
    }
}

/// Layer 1 on the first rank, layer 0 on the second.
fn pipeline() -> Qwen3MoEShardedModel {
    let a = LayerAssignment::contiguous(2, 2);
    let shard = |r: u32, il: usize| {
        Qwen3MoEShardedModel::new_shard(RankId(r), r as i32, None, None, None, vec![layer(il)])
    };
    Qwen3MoEShardedModel::from_parts(cfg(), layout(), a, vec![shard(0, 1), shard(1, 0)])
}

#[test]
fn a_pipeline_knows_its_sizes() {
    let mut m = pipeline();
    assert_eq!(m.shards[0].total_bytes(), 26);
    assert_eq!(m.total_bytes(), 52);
    assert_eq!(m.shards[1].iter_tensors().len(), 7);
    let frees = m.dispose();
    assert_eq!(frees.len(), 14);
    assert_eq!(frees.iter().filter(|f| f.rank == RankId(1)).count(), 7);
    assert!(m.dispose().is_empty());
}

#[test]
fn a_session_on_a_pipeline() {
    let m = pipeline();
    let one = |at: usize, bytes: usize| {
        vec![PlacedCache {
            first: DevicePtr(at),
            second: DevicePtr(at + 1),
            tensor_bytes: bytes,
        }]
    };
    let mut first = Vec::new();
    let e = Qwen3MoEShardedSession::new(&m, KvLayout::F16, &vec![one(10, 50)], &mut first)
        .unwrap_err();
    assert_eq!(e, SessionError::StageCount { ranks: 1, shards: 2 });
    assert_eq!(
        e.message(),
        "Qwen3MoEShardedSession::new: cluster.ranks=1 != model.shards.len()=2"
    );
    let bufs = vec![one(10, 50), one(20, 0)];
    let mut s = Qwen3MoEShardedSession::new(&m, KvLayout::F16, &bufs, &mut first).unwrap();
    assert_eq!(
        first,
        vec![
            StateOp::Sync { rank: 0 },
            StateOp::Zero { rank: 1, ptr: DevicePtr(20), bytes: 1024 },
            StateOp::Zero { rank: 1, ptr: DevicePtr(21), bytes: 768 },
            StateOp::Sync { rank: 1 },
        ]
    );
    assert!(!s.is_q8_kv());
    assert_eq!(s.total_bytes(), 100 + 1024 + 768);

    let mut ops = Vec::new();
    let e = s.restore_gdn_snapshot(&mut ops).unwrap_err();
    assert_eq!(e, SessionError::NoSnapshotStage { rank: 1, layer: 0 });
    assert_eq!(e.message(), "restore GDN: rank=1 layer=0 no snapshot");
    // The first rank was done with by then.
    assert_eq!(ops, vec![StateOp::Sync { rank: 0 }]);

    let mut ops = Vec::new();
    s.save_gdn_snapshot(&vec![fresh(100), fresh(200)], &mut ops);
    assert_eq!(
        ops,
        vec![
            StateOp::Sync { rank: 0 },
            StateOp::Copy { rank: 1, dst: DevicePtr(200), src: DevicePtr(20), bytes: 1024 },
            StateOp::Copy { rank: 1, dst: DevicePtr(201), src: DevicePtr(21), bytes: 768 },
            StateOp::Sync { rank: 1 },
        ]
    );
    let mut back = Vec::new();
    s.restore_gdn_snapshot(&mut back).unwrap();
    assert_eq!(back.len(), 4);
    assert_eq!(
        back[1],
        StateOp::Copy { rank: 1, dst: DevicePtr(20), src: DevicePtr(200), bytes: 1024 }
    );

    fill(s.per_rank[0].caches_mut(), 3);
    s.rollback_full_attn(1).unwrap();
    assert_eq!(tokens(&s.per_rank[0].caches[0]), 2);
    let e = s.rollback_full_attn(3).unwrap_err();
    assert_eq!(e, SessionError::RollbackRank { rank: 0, layer: 0, n_remove: 3, current: 2 });
    assert_eq!(e.message(), "rollback rank=0 layer=0: cannot remove 3 of 2 cached tokens");

    let mut ops = Vec::new();
    s.reset_for_next_request(&mut ops);
    assert_eq!(tokens(&s.per_rank[0].caches[0]), 0);
    assert!(ops.contains(&StateOp::Zero { rank: 1, ptr: DevicePtr(20), bytes: 1024 }));
    assert!(ops.contains(&StateOp::Zero { rank: 1, ptr: DevicePtr(21), bytes: 768 }));
    assert!(!ops.contains(&StateOp::Zero { rank: 1, ptr: DevicePtr(200), bytes: 1024 }));

    let frees = s.dispose();
    assert_eq!(frees.len(), 6);
    assert_eq!(
        frees[0],
        RankFree { rank: RankId(0), free: Free { ptr: DevicePtr(10), bytes: 50 } }
    );
    assert!(s.dispose().is_empty());
}

#[test]
fn a_pipeline_session_that_lacks_a_convolution_snapshot() {
    let m = pipeline();
    let bufs = vec![placed(1), placed(9)];
    let mut s =
        Qwen3MoEShardedSession::new(&m, KvLayout::Q8, &bufs, &mut Vec::new()).unwrap();
    assert!(s.is_q8_kv());
    if let LayerCache::Gdn(g) = &mut s.per_rank[1].caches[0] {
        g.snapshot_state = Some(DevicePtr(5));
    }
    let mut ops = Vec::new();
    let e = s.restore_gdn_snapshot(&mut ops).unwrap_err();
    assert_eq!(e, SessionError::NoConvSnapshotStage { rank: 1, layer: 0 });
    assert_eq!(e.message(), "restore GDN conv: rank=1 layer=0 no snapshot");
}

fn mesh() -> Qwen3MoETpModel {
    let c = cfg();
    let tp = Qwen35DenseTpLayout::new(&c, 2).unwrap();
    let part = || TpRankParts {
        token_embd: Some(dt("token_embd.weight", 1, 2)),
        output_norm: Some(dt("output_norm.weight", 2, 2)),
        output: None,
        layers: vec![vec![], vec![]],
    };
    Qwen3MoETpModel::load(c, layout(), tp, &vec![0, 1], vec![part(), part()]).unwrap()
}

#[test]
fn a_session_on_a_mesh() {
    let m = mesh();
    let mut first = Vec::new();
    let e = Qwen3MoETpSession::new(&m, KvLayout::F16, &vec![placed(1)], &mut first).unwrap_err();
    assert_eq!(e, SessionError::RankCount { ranks: 1, world: 2 });
    assert_eq!(e.message(), "cluster has 1 ranks, tp expects world=2");
    let bufs = vec![placed(10), placed(20)];
    let mut s = Qwen3MoETpSession::new(&m, KvLayout::F16, &bufs, &mut first).unwrap();
    assert_eq!(
        first,
        vec![
            StateOp::Zero { rank: 0, ptr: DevicePtr(10), bytes: 512 },
            StateOp::Zero { rank: 0, ptr: DevicePtr(11), bytes: 384 },
            StateOp::Sync { rank: 0 },
            StateOp::Zero { rank: 1, ptr: DevicePtr(20), bytes: 512 },
            StateOp::Zero { rank: 1, ptr: DevicePtr(21), bytes: 384 },
            StateOp::Sync { rank: 1 },
        ]
    );
    assert_eq!(s.caches.len(), 2);
    // Every rank has half of the recurrent state.
    assert_eq!(s.total_bytes(), 2 * (512 + 384 + 100));

    let mut ops = Vec::new();
    let e = s.restore_gdn_snapshot(&mut ops).unwrap_err();
    assert_eq!(e, SessionError::NoSnapshotRank { rank: 0, layer: 0 });
    assert_eq!(e.message(), "restore GDN: rank=0 layer=0 no snap");
    s.save_gdn_snapshot(&vec![fresh(100), fresh(200)], &mut ops);
    let copies = ops.iter().filter(|o| matches!(o, StateOp::Copy { .. })).count();
    assert_eq!(copies, 4);
    if let LayerCache::Gdn(g) = &mut s.caches[1][0] {
        g.snapshot_conv_history = None;
    }
    let mut ops = Vec::new();
    let e = s.restore_gdn_snapshot(&mut ops).unwrap_err();
    assert_eq!(e, SessionError::NoConvSnapshotRank { rank: 1, layer: 0 });
    assert_eq!(e.message(), "restore GDN conv: rank=1 layer=0 no snap");

    fill(&mut s.caches[0], 4);
    fill(&mut s.caches[1], 1);
    let e = s.rollback_full_attn(2).unwrap_err();
    assert_eq!(e, SessionError::RollbackRank { rank: 1, layer: 1, n_remove: 2, current: 1 });
    // The first rank was cut by then.
    assert_eq!(tokens(&s.caches[0][1]), 2);

    let mut ops = Vec::new();
    s.reset_for_next_request(&mut ops);
    assert_eq!(tokens(&s.caches[0][1]), 0);
    let zeros = ops.iter().filter(|o| matches!(o, StateOp::Zero { .. })).count();
    assert_eq!(zeros, 4);
    let frees = s.dispose();
    assert_eq!(frees.iter().filter(|f| f.rank == RankId(0)).count(), 6);
    assert_eq!(frees.iter().filter(|f| f.rank == RankId(1)).count(), 5);
    assert!(s.dispose().is_empty());
}

/// What the buffers of two ranks hold after a list was carried out.
fn carry_out(mem: &mut HashMap<(usize, usize), u64>, ops: &[StateOp]) {
    for op in ops {
        match op {
            StateOp::Copy { rank, dst, src, .. } => {
                let held = mem[&(*rank, src.0)];
                mem.insert((*rank, dst.0), held);
            }
            StateOp::Zero { rank, ptr, .. } => {
                mem.insert((*rank, ptr.0), 0);
            }
            StateOp::Sync { .. } => {}
        }
    }
}

#[test]
fn a_restore_undoes_the_steps_since_the_save() {
    let m = mesh();
    let bufs = vec![placed(10), placed(20)];
    let mut mem = HashMap::new();
    for (rank, at) in [(0, 10), (1, 20)] {
        mem.insert((rank, at), 77);
        mem.insert((rank, at + 1), 78);
    }
    let mut ops = Vec::new();
    let mut s = Qwen3MoETpSession::new(&m, KvLayout::F16, &bufs, &mut ops).unwrap();
    carry_out(&mut mem, &ops);
    for (rank, at) in [(0, 10), (1, 20)] {
        assert_eq!((mem[&(rank, at)], mem[&(rank, at + 1)]), (0, 0));
        mem.insert((rank, at), 5 + rank as u64);
        mem.insert((rank, at + 1), 8 + rank as u64);
    }
    let mut ops = Vec::new();
    s.save_gdn_snapshot(&vec![fresh(100), fresh(200)], &mut ops);
    carry_out(&mut mem, &ops);
    // What is undone may be repeated, and be undone again.
    for step in 0..2 {
        for (rank, at) in [(0, 10), (1, 20)] {
            mem.insert((rank, at), 900 + step);
            mem.insert((rank, at + 1), 910 + step);
        }
        let mut back = Vec::new();
        s.restore_gdn_snapshot(&mut back).unwrap();
        carry_out(&mut mem, &back);
        for (rank, at) in [(0, 10), (1, 20)] {
            assert_eq!(mem[&(rank, at)], 5 + rank as u64);
            assert_eq!(mem[&(rank, at + 1)], 8 + rank as u64);
        }
    }
    let mut ops = Vec::new();
    s.reset_for_next_request(&mut ops);
    carry_out(&mut mem, &ops);
    assert_eq!((mem[&(0, 10)], mem[&(1, 21)]), (0, 0));
    assert_eq!(mem[&(1, 200)], 6);
}
