use qwen3_moe::config::{AttentionFamily, GdnDims, Qwen3MoEConfig, RopeSpec};
use qwen3_moe::device::{DevicePtr, Free, RankFree, RankId};
use qwen3_moe::forward::moe_tp::{
    forward_moe_ffn_decode_tp, forward_moe_ffn_prefill_tp, forward_shared_expert_decode_tp,
    forward_shared_expert_prefill_tp, MoeTpError,
};
use qwen3_moe::forward::op::{AttnOrFfnPub, ForwardError, Op, Pass, ScratchPart, StreamSel};
use qwen3_moe::forward::tp::{
    ar_residual, ar_residual_prefill_pub, ar_residual_rmsnorm, find_by_suffix,
    forward_decode_batched_tp, forward_one_token_tp, forward_one_token_tp_keep_logits_on_device,
    forward_one_token_tp_logits, forward_prefill_tp_batched_layers,
    forward_prefill_tp_batched_logits, forward_prefill_tp_logits,
    forward_prefill_tp_logits_pooled, use_batched, BatchCtx, BatchSlot, LayerScratch, RankBuffers,
    ShardedForwardOneTokenScratchTp, ShardedForwardPrefillScratchTp, TokenCtx,
};
use qwen3_moe::layout::{ModelLayout, ResolvedTensor};
use qwen3_moe::names::TensorKind;
use qwen3_moe::session::{KvLayout, LayerCache};
use qwen3_moe::state_ops::PlacedCache;
use qwen3_moe::tensor::GgmlDType;
use qwen3_moe::tp_layout::Qwen35DenseTpLayout;
use qwen3_moe::tp_session::Qwen3MoETpSession;
use qwen3_moe::tp_sharded::{Qwen3MoETpModel, TpLayerTensor, TpRankParts};
use qwen3_moe::weight_layout::WeightLayout;
use qwen3_moe::weights::DeviceTensor;

const HIDDEN: usize = 64;

/// Layer 0 is recurrent, layer 1 is not.
fn cfg(num_experts: usize, shared: Option<usize>) -> Qwen3MoEConfig {
    Qwen3MoEConfig {
        arch: "qwen3next".into(),
        family: AttentionFamily::Hybrid,
        hidden_size: HIDDEN,
        vocab_size: 100,
        num_layers: 2,
        num_heads: 4,
        num_kv_heads: 4,
        head_dim: 16,
        context_length: 128,
        rms_norm_eps_bits: 1e-6f32.to_bits(),
        rope: RopeSpec { freq_base_bits: 10_000.0f32.to_bits(), rotated_dims: 16, sections: None },
        num_experts,
        num_experts_per_tok: 2,
        moe_intermediate_size: 64,
        shared_expert_intermediate_size: shared,
        full_attention_interval: Some(2),
        gdn: Some(GdnDims {
            num_v_heads: 4,
            num_k_heads: 4,
            head_k_dim: 8,
            d_inner: 32,
            conv_kernel: 4,
        }),
        tied_lm_head: false,
        pooling_type: None,
    }
}

fn dt(name: &str, ptr: usize) -> DeviceTensor {
    DeviceTensor {
        ptr: DevicePtr(ptr),
        dtype: GgmlDType::Q8_0,
        dims: vec![32],
        bytes: 34,
        name: name.into(),
    }
}

fn layer(il: usize, at: usize, moe: bool) -> Vec<TpLayerTensor> {
    let mut names = vec!["attn_norm.weight", "post_attention_norm.weight"];
    if il == 0 {
        names.extend_from_slice(&[
            "attn_qkv.weight",
            "attn_gate.weight",
            "ssm_alpha.weight",
            "ssm_beta.weight",
            "ssm_a",
            "ssm_dt.bias",
            "ssm_conv1d.weight",
            "ssm_norm.weight",
            "ssm_out.weight",
        ]);
    } else {
        names.extend_from_slice(&[
            "attn_q.weight",
            "attn_k.weight",
            "attn_v.weight",
            "attn_output.weight",
            "attn_q_norm.weight",
            "attn_k_norm.weight",
        ]);
    }
    if moe {
        names.extend_from_slice(&[
            "ffn_gate_inp.weight",
            "ffn_gate_exps.weight",
            "ffn_up_exps.weight",
            "ffn_down_exps.weight",
            "ffn_gate_inp_shexp.weight",
            "ffn_gate_shexp.weight",
            "ffn_up_shexp.weight",
            "ffn_down_shexp.weight",
        ]);
    } else {
        names.extend_from_slice(&["ffn_gate.weight", "ffn_up.weight", "ffn_down.weight"]);
    }
    names
        .iter()
        .enumerate()
        .map(|(i, n)| {
            let name = format!("blk.{il}.{n}");
            TpLayerTensor {
                layout: WeightLayout::ColParallel { world: 2, dim: 1 },
                tensor: dt(&name, at + i),
                name,
            }
        })
        .collect()
}

fn mesh(world: u32, c: Qwen3MoEConfig) -> Qwen3MoETpModel {
    let t = ResolvedTensor {
        name: "t".into(),
        dtype: GgmlDType::F16,
        dims: vec![1],
        size_bytes: 2,
    };
    let layout =
        ModelLayout { token_embd: t.clone(), output_norm: t, output: None, layers: vec![] };
    let tp = Qwen35DenseTpLayout::new(&c, world).unwrap();
    let moe = c.num_experts > 0;
    let parts: Vec<TpRankParts> = (0..world as usize)
        .map(|r| TpRankParts {
            token_embd: Some(dt("token_embd.weight", 10_000 * (r + 1))),
            output_norm: Some(dt("output_norm.weight", 10_000 * (r + 1) + 1)),
            output: Some(dt("output.weight", 10_000 * (r + 1) + 2)),
            layers: vec![
                layer(0, 10_000 * (r + 1) + 100, moe),
                layer(1, 10_000 * (r + 1) + 200, moe),
            ],
        })
        .collect();
    let ids: Vec<i32> = (0..world as i32).collect();
    Qwen3MoETpModel::load(c, layout, tp, &ids, parts).unwrap()
}

fn layer_scratch(r: usize) -> LayerScratch {
    LayerScratch {
        full_attn: true,
        gdn: true,
        dense_ffn: true,
        moe: Some(16),
        shared: true,
        mid_norm_f16: DevicePtr(5_000_000 + r),
        shared_delta_f16: DevicePtr(6_000_000 + r),
    }
}

fn buffers(world: u32) -> Vec<RankBuffers> {
    (0..world as usize)
        .map(|r| RankBuffers {
            device_id: r as i32,
            hidden_a: DevicePtr(1_000_000 * (r + 1)),
            hidden_b: DevicePtr(1_000_000 * (r + 1) + 100_000),
            partial_attn_out: DevicePtr(1_000_000 * (r + 1) + 200_000),
            partial_ffn_out: DevicePtr(1_000_000 * (r + 1) + 300_000),
            layer: layer_scratch(r),
            logits_f32: DevicePtr(77),
        })
        .collect()
}

fn token_scratch(m: &Qwen3MoETpModel) -> ShardedForwardOneTokenScratchTp {
    ShardedForwardOneTokenScratchTp::new(&m.config, &buffers(m.tp.world())).unwrap()
}

fn batch_scratch(m: &Qwen3MoETpModel, n: usize) -> ShardedForwardPrefillScratchTp {
    ShardedForwardPrefillScratchTp::new(&m.config, n, &buffers(m.tp.world())).unwrap()
}

fn caches(m: &Qwen3MoETpModel, kv: KvLayout) -> Vec<Vec<LayerCache>> {
    let placed: Vec<Vec<PlacedCache>> = (0..m.tp.world() as usize)
        .map(|r| {
            (0..2)
                .map(|i| PlacedCache {
                    first: DevicePtr(900 + 10 * r + 2 * i),
                    second: DevicePtr(901 + 10 * r + 2 * i),
                    tensor_bytes: 8,
                })
                .collect()
        })
        .collect();
    Qwen3MoETpSession::new(m, kv, &placed, &mut Vec::new()).unwrap().caches
}

fn token(ranks: usize) -> TokenCtx {
    TokenCtx { ranks, position: 5, skip_shared: false }
}

fn batch(ranks: usize, n_tokens: usize) -> BatchCtx {
    BatchCtx { ranks, n_tokens, start_position: 3, skip_shared: false }
}

/// The halves of layers that a rank runs, in order.
fn halves(ops: &[Op], r: usize) -> Vec<(char, usize)> {
    ops.iter()
        .filter_map(|o| match o {
            Op::FullAttn { rank, layer, .. } if *rank == r => Some(('a', *layer)),
            Op::Gdn { rank, layer, .. } if *rank == r => Some(('a', *layer)),
            Op::DenseFfn { rank, layer, .. } if *rank == r => Some(('f', *layer)),
            Op::MoeFfn { rank, layer, .. } if *rank == r => Some(('f', *layer)),
            _ => None,
        })
        .collect()
}

fn reduces(ops: &[Op]) -> usize {
    ops.iter()
        .filter(|o| matches!(o, Op::AllReduce { .. } | Op::AllReduceNorm { .. }))
        .count()
}

#[test]
fn every_rank_runs_both_halves_of_every_layer() {
    for world in [1u32, 2, 4] {
        for experts in [0, 4] {
            let m = mesh(world, cfg(experts, None));
            let s = token_scratch(&m);
            let k = caches(&m, KvLayout::F16);
            let mut ops = Vec::new();
            forward_one_token_tp(&m, &s, &k, token(world as usize), 9, None, &mut ops).unwrap();
            for r in 0..world as usize {
                assert_eq!(halves(&ops, r), vec![('a', 0), ('f', 0), ('a', 1), ('f', 1)]);
                assert!(ops.iter().any(
                    |o| matches!(o, Op::Embed { rank, token: 9, .. } if *rank == r)
                ));
            }
            // Both halves of both layers are reduced on a mesh.
            assert_eq!(reduces(&ops), if world == 1 { 0 } else { 4 });
            assert_eq!(ops[ops.len() - 1], Op::Argmax { rank: 0, vocab: 100 });
        }
    }
}

#[test]
fn a_layer_in_detail() {
    let m = mesh(2, cfg(0, None));
    let s = token_scratch(&m);
    let k = caches(&m, KvLayout::F16);
    let mut ops = Vec::new();
    forward_one_token_tp_logits(&m, &s, &k, token(2), 9, Some(1), &mut ops).unwrap();
    // Two embeddings, then the recurrent layer alone.
    assert_eq!(halves(&ops, 0), vec![('a', 0), ('f', 0)]);
    match ops[2] {
        Op::Gdn { rank, layer, cache, x, out, n_tokens, world, pass, w, .. } => {
            assert_eq!((rank, layer, cache, n_tokens, world), (0, 0, 0, 1, 2));
            assert_eq!(pass, Pass::Decode);
            assert_eq!((x, out), (DevicePtr(1_000_000), DevicePtr(1_200_000)));
            assert_eq!(w.attn_qkv.ptr, DevicePtr(10_102));
            assert_eq!(w.ssm_out.ptr, DevicePtr(10_110));
        }
        _ => panic!("an attention block comes first"),
    }
    assert_eq!(
        ops[4..8].to_vec(),
        vec![
            Op::RecordDone { rank: 0 },
            Op::RecordDone { rank: 1 },
            Op::WaitDone { rank: 0, peer: 1 },
            Op::WaitDone { rank: 1, peer: 0 },
        ]
    );
    assert_eq!(
        ops[8..13].to_vec(),
        vec![
            Op::ArOperand {
                rank: 0,
                hidden: DevicePtr(1_000_000),
                partial: DevicePtr(1_200_000)
            },
            Op::ArNorm { rank: 0, weight: DevicePtr(10_101), out: DevicePtr(5_000_000) },
            Op::ArOperand {
                rank: 1,
                hidden: DevicePtr(2_000_000),
                partial: DevicePtr(2_200_000)
            },
            Op::ArNorm { rank: 1, weight: DevicePtr(20_101), out: DevicePtr(5_000_001) },
            Op::AllReduceNorm { world: 2, elems: 64 },
        ]
    );
    assert_eq!(ops[ops.len() - 1], Op::DownloadLogits { rank: 0, slot: 0, vocab: 100 });
    let mut kept = Vec::new();
    forward_one_token_tp_keep_logits_on_device(&m, &s, &k, token(2), 9, Some(1), &mut kept)
        .unwrap();
    assert_eq!(kept[..], ops[..ops.len() - 1]);
}

#[test]
fn experts_and_the_shared_expert() {
    let m = mesh(2, cfg(4, Some(32)));
    let s = token_scratch(&m);
    let k = caches(&m, KvLayout::F16);
    let mut ops = Vec::new();
    forward_one_token_tp(&m, &s, &k, token(2), 9, None, &mut ops).unwrap();
    let shared = |ops: &[Op]| {
        ops.iter().filter(|o| matches!(o, Op::SharedExpert { .. })).count()
    };
    assert_eq!(shared(&ops), 4);
    assert!(ops.contains(&Op::Add {
        rank: 1,
        a: DevicePtr(2_300_000),
        b: DevicePtr(6_000_001),
        out: DevicePtr(2_300_000),
        elems: HIDDEN
    }));
    let skip = TokenCtx { skip_shared: true, ..token(2) };
    let mut ops = Vec::new();
    forward_one_token_tp(&m, &s, &k, skip, 9, None, &mut ops).unwrap();
    assert_eq!(shared(&ops), 0);
    assert_eq!(halves(&ops, 1), vec![('a', 0), ('f', 0), ('a', 1), ('f', 1)]);
}

#[test]
fn shares_of_experts() {
    let c = cfg(4, Some(32));
    let b = forward_moe_ffn_decode_tp(&c, 2).unwrap();
    assert_eq!((b.hidden, b.local_inter, b.gate_rows, b.down_rows), (64, 32, 128, 256));
    assert_eq!((b.num_experts, b.top_k, b.tile8_min_tokens), (4, 2, None));
    let whole = forward_moe_ffn_decode_tp(&c, 1).unwrap();
    assert_eq!((whole.local_inter, whole.gate_rows), (2 * b.local_inter, 2 * b.gate_rows));
    let p = forward_moe_ffn_prefill_tp(&c, 4, 8, 2).unwrap();
    assert_eq!(p.tile8_min_tokens, Some(32));
    assert_eq!(forward_moe_ffn_prefill_tp(&c, 4, 8, 1).unwrap().tile8_min_tokens, None);
    let e = forward_moe_ffn_decode_tp(&c, 3).unwrap_err();
    assert_eq!(e, MoeTpError::IntermediateIndivisible { inter: 64, world: 3 });
    assert_eq!(e.message(), "moe_intermediate_size 64 not divisible by tp_world 3");
    assert_eq!(forward_moe_ffn_decode_tp(&c, 0).unwrap_err(), MoeTpError::WorldZero);
    assert_eq!(forward_moe_ffn_prefill_tp(&c, 0, 8, 2).unwrap_err(), MoeTpError::NoTokens);
    assert_eq!(
        forward_moe_ffn_prefill_tp(&c, 9, 8, 2).unwrap_err(),
        MoeTpError::TooManyTokens { n_tokens: 9, max_tokens: 8 }
    );
    assert_eq!(forward_shared_expert_decode_tp(&c, 4).unwrap().local_inter, 8);
    assert_eq!(
        forward_shared_expert_prefill_tp(&c, 3).unwrap_err(),
        MoeTpError::SharedIndivisible { inter: 32, world: 3 }
    );
    let none = cfg(4, None);
    assert_eq!(
        forward_shared_expert_decode_tp(&none, 2).unwrap_err(),
        MoeTpError::NoSharedDecode
    );
    assert_eq!(
        forward_shared_expert_prefill_tp(&none, 2).unwrap_err(),
        MoeTpError::NoSharedPrefill
    );
}

#[test]
fn tokens_that_a_mesh_cannot_run() {
    let m = mesh(2, cfg(0, None));
    let s = token_scratch(&m);
    let k = caches(&m, KvLayout::F16);
    let run = |m: &Qwen3MoETpModel,
               s: &ShardedForwardOneTokenScratchTp,
               k: &Vec<Vec<LayerCache>>,
               ranks: usize| {
        let mut ops = Vec::new();
        forward_one_token_tp(m, s, k, token(ranks), 1, None, &mut ops).unwrap_err()
    };
    let three = {
        let mut m = mesh(4, cfg(0, None));
        m.shards.truncate(3);
        m
    };
    let e = run(&three, &token_scratch(&three), &caches(&three, KvLayout::F16), 3);
    assert_eq!(e, ForwardError::WorldOneToken { world: 3 });
    assert_eq!(e.message(), "TP-2d supports world ∈ {1, 2, 4}; got 3");
    let mut short = token_scratch(&m);
    short.per_rank.truncate(1);
    assert_eq!(run(&m, &short, &k, 2), ForwardError::ScratchRanks { have: 1, ranks: 2 });
    let mut less = caches(&m, KvLayout::F16);
    less.truncate(1);
    assert_eq!(run(&m, &s, &less, 2), ForwardError::CacheRanks { have: 1, ranks: 2 });

    let mut no = mesh(2, cfg(0, None));
    no.shards[1].layers[0].retain(|t| !t.name.ends_with("ssm_out.weight"));
    let e = run(&no, &s, &k, 2);
    assert_eq!(e, ForwardError::MissingTensor { layer: 0, kind: TensorKind::SsmOut });
    assert_eq!(e.message(), "layer 0: missing tensor with suffix `ssm_out.weight`");

    let mut no = token_scratch(&m);
    no.per_rank[1].layer = None;
    let e = run(&m, &no, &k, 2);
    assert_eq!(e, ForwardError::MissingScratch { rank: 1, part: ScratchPart::LayerForward });
    assert_eq!(e.message(), "rank 1: missing LayerForwardScratch");
    let without = |f: fn(&mut LayerScratch)| {
        let mut s = token_scratch(&m);
        f(s.per_rank[0].layer.as_mut().unwrap());
        run(&m, &s, &k, 2)
    };
    let missing = |part| ForwardError::MissingScratch { rank: 0, part };
    assert_eq!(without(|l| l.gdn = false), missing(ScratchPart::Gdn));
    assert_eq!(without(|l| l.full_attn = false), missing(ScratchPart::FullAttn));
    assert_eq!(without(|l| l.dense_ffn = false), missing(ScratchPart::DenseFfn));

    let mut swapped = caches(&m, KvLayout::F16);
    swapped[0].swap(0, 1);
    assert_eq!(run(&m, &s, &swapped, 2), ForwardError::DecodeWantsGdn { rank: 0, layer: 0 });
    let mut two = caches(&m, KvLayout::F16);
    two[1][1] = two[1][0];
    assert_eq!(run(&m, &s, &two, 2), ForwardError::DecodeWantsKv { rank: 1, layer: 1 });
    let mut no = token_scratch(&m);
    no.per_rank[0].output_head = None;
    assert_eq!(run(&m, &no, &k, 2), ForwardError::MissingHead { rank: 0 });

    let moe = mesh(2, cfg(4, Some(32)));
    let mut no = token_scratch(&moe);
    no.per_rank[0].layer.as_mut().unwrap().moe = None;
    assert_eq!(run(&moe, &no, &k, 2), missing(ScratchPart::Moe));
    let mut no = token_scratch(&moe);
    no.per_rank[0].layer.as_mut().unwrap().shared = false;
    assert_eq!(run(&moe, &no, &k, 2), missing(ScratchPart::SharedExpert));
}

#[test]
fn quantised_caches_serve_single_tokens_only() {
    let m = mesh(2, cfg(0, None));
    let s = token_scratch(&m);
    let p = batch_scratch(&m, 16);
    let q = caches(&m, KvLayout::Q8);
    let mut ops = Vec::new();
    forward_one_token_tp(&m, &s, &q, token(2), 1, None, &mut ops).unwrap();
    let e = forward_prefill_tp_batched_layers(&m, &p, &q, batch(2, 8), 0, 2, 0, &mut Vec::new())
        .unwrap_err();
    assert_eq!(e, ForwardError::PrefillWantsKv { rank: 0, layer: 1 });
    assert!(!use_batched(&q, false, 100));
    let k = caches(&m, KvLayout::F16);
    assert!(use_batched(&k, false, 8));
    assert!(!use_batched(&k, false, 7));
    assert!(!use_batched(&k, true, 8));
}

#[test]
fn a_prompt_in_one_batch_or_token_by_token() {
    let m = mesh(2, cfg(0, None));
    let s = token_scratch(&m);
    let p = batch_scratch(&m, 16);
    let k = caches(&m, KvLayout::F16);
    let prompt: Vec<u32> = (1..=8).collect();
    let mut ops = Vec::new();
    forward_prefill_tp_logits_pooled(&m, &s, &p, &k, batch(2, 8), &prompt, false, None, &mut ops)
        .unwrap();
    for r in 0..2 {
        assert_eq!(halves(&ops, r), vec![('a', 0), ('f', 0), ('a', 1), ('f', 1)]);
    }
    assert_eq!(ops.iter().filter(|o| matches!(o, Op::Embed { .. })).count(), 16);
    assert!(ops.contains(&Op::Sync { rank: 1, stream: StreamSel::Default }));
    assert!(ops.contains(&Op::AllReduce { world: 2, elems: 8 * 64 }));
    // The last row of the head rank.
    assert!(ops.iter().any(
        |o| matches!(o, Op::OutputHead { x, .. } if *x == DevicePtr(1_000_000 + 7 * 128))
    ));
    let mut same = Vec::new();
    forward_prefill_tp_batched_logits(&m, &p, &k, batch(2, 8), &prompt, &mut same).unwrap();
    assert_eq!(same, ops);

    let mut ops = Vec::new();
    // Token by token the batch memory is not looked at.
    let none = batch_scratch(&m, 1);
    forward_prefill_tp_logits(&m, &s, &none, &k, batch(2, 8), &prompt, true, None, &mut ops)
        .unwrap();
    assert_eq!(halves(&ops, 0).len(), 4 * 8);
    // Single steps obey a layer limit, a batch does not.
    let mut cut = Vec::new();
    forward_prefill_tp_logits(&m, &s, &p, &k, batch(2, 8), &prompt, true, Some(1), &mut cut)
        .unwrap();
    assert_eq!(halves(&cut, 0), [('a', 0), ('f', 0)].repeat(8));
    let mut cut = Vec::new();
    forward_prefill_tp_logits_pooled(
        &m,
        &s,
        &p,
        &k,
        batch(2, 8),
        &prompt,
        false,
        Some(1),
        &mut cut,
    )
    .unwrap();
    assert_eq!(cut, same);
    let positions: Vec<usize> = ops
        .iter()
        .filter_map(|o| match o {
            Op::FullAttn { rank: 0, position, .. } => Some(*position),
            _ => None,
        })
        .collect();
    assert_eq!(positions, vec![3, 4, 5, 6, 7, 8, 9, 10]);

    let e = forward_prefill_tp_logits_pooled(
        &m,
        &s,
        &p,
        &k,
        batch(2, 0),
        &vec![],
        false,
        None,
        &mut ops,
    )
    .unwrap_err();
    assert_eq!(e, ForwardError::EmptyPromptPooled);
    let e = forward_prefill_tp_logits(&m, &s, &p, &k, batch(2, 0), &vec![], false, None, &mut ops)
        .unwrap_err();
    assert_eq!(e, ForwardError::EmptyPrompt);
    let small = batch_scratch(&m, 4);
    let e = forward_prefill_tp_batched_logits(&m, &small, &k, batch(2, 8), &prompt, &mut ops)
        .unwrap_err();
    assert_eq!(e, ForwardError::PooledTooSmall { have: 4, need: 8 });
    assert_eq!(e.message(), "pooled TP prefill scratch sized 4 < n_tokens 8");
}

#[test]
fn batches_that_a_mesh_cannot_run() {
    let m = mesh(2, cfg(0, None));
    let k = caches(&m, KvLayout::F16);
    let run = |m: &Qwen3MoETpModel, f: &dyn Fn(&mut ShardedForwardPrefillScratchTp)| {
        let mut p = batch_scratch(m, 16);
        f(&mut p);
        let mut ops = Vec::new();
        forward_prefill_tp_batched_layers(m, &p, &k, batch(2, 8), 0, 2, 0, &mut ops).unwrap_err()
    };
    let missing = |part| ForwardError::MissingScratch { rank: 0, part };
    assert_eq!(run(&m, &|p| p.per_rank[0].layer = None), missing(ScratchPart::LayerPrefill));
    let l = |p: &mut ShardedForwardPrefillScratchTp| p.per_rank[0].layer.unwrap();
    assert_eq!(
        run(&m, &|p| p.per_rank[0].layer = Some(LayerScratch { gdn: false, ..l(p) })),
        missing(ScratchPart::GdnPrefill)
    );
    assert_eq!(
        run(&m, &|p| p.per_rank[0].layer = Some(LayerScratch { full_attn: false, ..l(p) })),
        missing(ScratchPart::FullAttnPrefill)
    );
    assert_eq!(
        run(&m, &|p| p.per_rank[0].layer = Some(LayerScratch { dense_ffn: false, ..l(p) })),
        missing(ScratchPart::DenseFfnPrefill)
    );
    let moe = mesh(2, cfg(4, Some(32)));
    assert_eq!(
        run(&moe, &|p| p.per_rank[0].layer = Some(LayerScratch { moe: None, ..l(p) })),
        missing(ScratchPart::MoePrefill)
    );
    assert_eq!(
        run(&moe, &|p| p.per_rank[0].layer = Some(LayerScratch { shared: false, ..l(p) })),
        missing(ScratchPart::SharedExpertPrefill)
    );
    let e = run(&moe, &|p| p.per_rank[0].layer = Some(LayerScratch { moe: Some(4), ..l(p) }));
    let error = MoeTpError::TooManyTokens { n_tokens: 8, max_tokens: 4 };
    assert_eq!(e, ForwardError::Moe { error });
    assert_eq!(e.message(), error.message());

    let p = batch_scratch(&m, 16);
    let mut swapped = caches(&m, KvLayout::F16);
    swapped[1].swap(0, 1);
    let e =
        forward_prefill_tp_batched_layers(&m, &p, &swapped, batch(2, 8), 0, 2, 0, &mut Vec::new())
            .unwrap_err();
    assert_eq!(e, ForwardError::PrefillWantsGdn { rank: 1, layer: 0 });
    // A part of the layers, whose caches are counted from its first layer.
    let one: Vec<Vec<LayerCache>> = k.iter().map(|c| vec![c[1]]).collect();
    let mut ops = Vec::new();
    forward_prefill_tp_batched_layers(&m, &p, &one, batch(2, 8), 1, 2, 1, &mut ops).unwrap();
    assert_eq!(halves(&ops, 0), vec![('a', 1), ('f', 1)]);
    let mut three = mesh(4, cfg(0, None));
    three.shards.truncate(3);
    let p = batch_scratch(&three, 16);
    let k3 = caches(&three, KvLayout::F16);
    let e = forward_prefill_tp_batched_layers(&three, &p, &k3, batch(3, 8), 0, 2, 0, &mut ops)
        .unwrap_err();
    assert_eq!(e, ForwardError::WorldBatchedPrefill { world: 3 });
}

#[test]
fn several_sequences_step_together() {
    let m = mesh(2, cfg(0, None));
    let p = batch_scratch(&m, 4);
    let mut p = p;
    for r in p.per_rank.iter_mut() {
        r.gdn_decode = true;
    }
    let sessions: Vec<Vec<Vec<LayerCache>>> =
        (0..3).map(|_| caches(&m, KvLayout::F16)).collect();
    // The second and the first sequence take part, in this order.
    let slots = vec![
        BatchSlot { idx: 1, token_id: 50, position: 7 },
        BatchSlot { idx: 0, token_id: 60, position: 2 },
    ];
    let c = batch(2, 2);
    let mut ops = Vec::new();
    forward_decode_batched_tp(&m, &sessions, 3, &p, c, &slots, &mut ops).unwrap();
    let gathered: Vec<(usize, usize)> = ops
        .iter()
        .filter_map(|o| match o {
            Op::GatherKv { rank: 0, slot, position, .. } => Some((*slot, *position)),
            _ => None,
        })
        .collect();
    assert_eq!(gathered, vec![(1, 7), (0, 2)]);
    let stepped: Vec<(usize, usize)> = ops
        .iter()
        .filter_map(|o| match o {
            Op::Gdn { rank: 1, slot, x, .. } => Some((*slot, x.0)),
            _ => None,
        })
        .collect();
    assert_eq!(stepped, vec![(1, 2_000_000), (0, 2_000_128)]);
    let logits: Vec<usize> = ops
        .iter()
        .filter_map(|o| match o {
            Op::DownloadLogits { slot, .. } => Some(*slot),
            _ => None,
        })
        .collect();
    assert_eq!(logits, vec![1, 0]);

    let run = |sessions: &Vec<Vec<Vec<LayerCache>>>,
               n_logits: usize,
               p: &ShardedForwardPrefillScratchTp,
               slots: Vec<BatchSlot>| {
        let mut ops = Vec::new();
        let c = batch(2, slots.len());
        forward_decode_batched_tp(&m, sessions, n_logits, p, c, &slots, &mut ops).unwrap_err()
    };
    assert_eq!(run(&sessions, 3, &p, vec![]), ForwardError::EmptySlots);
    assert_eq!(
        run(&sessions, 2, &p, slots.clone()),
        ForwardError::SessionsLogits { sessions: 3, logits: 2 }
    );
    let far = vec![BatchSlot { idx: 3, token_id: 1, position: 0 }];
    let e = run(&sessions, 3, &p, far);
    assert_eq!(e, ForwardError::SlotOob { idx: 3, n: 3 });
    assert_eq!(e.message(), "forward_decode_batched_tp: BatchSlot.idx 3 OOB (n=3)");
    let small = batch_scratch(&m, 1);
    assert_eq!(
        run(&sessions, 3, &small, slots.clone()),
        ForwardError::SlotScratch { rank: 0, max_tokens: 1, n: 2 }
    );
    let q: Vec<Vec<Vec<LayerCache>>> = (0..3).map(|_| caches(&m, KvLayout::Q8)).collect();
    assert_eq!(
        run(&q, 3, &p, slots.clone()),
        ForwardError::SlotWantsKv { slot: 1, rank: 0, layer: 1 }
    );
    let mut swapped = sessions.clone();
    swapped[0][1].swap(0, 1);
    assert_eq!(
        run(&swapped, 3, &p, slots.clone()),
        ForwardError::SlotWantsGdn { slot: 0, rank: 1, layer: 0 }
    );
    let mut none = batch_scratch(&m, 4);
    none.per_rank[0].gdn_decode = false;
    assert_eq!(
        run(&sessions, 3, &none, slots.clone()),
        ForwardError::MissingScratch { rank: 0, part: ScratchPart::GdnDecode }
    );
    let mut headless = batch_scratch(&m, 4);
    for r in headless.per_rank.iter_mut() {
        r.gdn_decode = true;
        r.output_head = None;
    }
    assert_eq!(run(&sessions, 3, &headless, slots), ForwardError::MissingHeadScratch);

    let mut three = mesh(4, cfg(0, None));
    three.shards.truncate(3);
    let p3 = batch_scratch(&three, 4);
    let s3 = vec![caches(&three, KvLayout::F16)];
    let one = vec![BatchSlot { idx: 0, token_id: 1, position: 0 }];
    let e = forward_decode_batched_tp(&three, &s3, 1, &p3, batch(3, 1), &one, &mut Vec::new())
        .unwrap_err();
    assert_eq!(e, ForwardError::WorldBatchedDecode { world: 3 });
}

#[test]
fn partial_results_are_summed() {
    let m = mesh(4, cfg(0, None));
    let s = token_scratch(&m);
    let mut ops = Vec::new();
    ar_residual(&s, 4, 4, AttnOrFfnPub::Ffn, &mut ops).unwrap();
    // Each rank waits for the three others.
    assert_eq!(ops.iter().filter(|o| matches!(o, Op::WaitDone { .. })).count(), 12);
    assert_eq!(ops[ops.len() - 1], Op::AllReduce { world: 4, elems: 64 });
    let e = ar_residual(&s, 4, 3, AttnOrFfnPub::Ffn, &mut ops).unwrap_err();
    assert_eq!(e, ForwardError::WorldAr { world: 3 });
    let w: Vec<DevicePtr> = (0..4).map(DevicePtr).collect();
    let e = ar_residual_rmsnorm(&s, 4, 1, AttnOrFfnPub::Attn, &w, &w, &mut ops).unwrap_err();
    assert_eq!(e, ForwardError::WorldArNorm { world: 1 });
    let p = batch_scratch(&m, 4);
    let mut ops = Vec::new();
    ar_residual_prefill_pub(&p, 1, 1, 128, AttnOrFfnPub::Attn, &mut ops).unwrap();
    assert_eq!(
        ops[1],
        Op::Add {
            rank: 0,
            a: DevicePtr(1_000_000),
            b: DevicePtr(1_200_000),
            out: DevicePtr(1_000_000),
            elems: 128
        }
    );
    let e = ar_residual_prefill_pub(&p, 4, 3, 128, AttnOrFfnPub::Attn, &mut ops).unwrap_err();
    assert_eq!(e, ForwardError::WorldArPrefill { world: 3 });
    assert_eq!(e.message(), "ar_residual_prefill: unsupported world 3");
}

#[test]
fn weights_are_found_by_kind() {
    let ts = layer(1, 300, false);
    assert_eq!(find_by_suffix(&ts, 1, TensorKind::AttnK).unwrap().ptr, DevicePtr(303));
    let e = find_by_suffix(&ts, 0, TensorKind::AttnK).unwrap_err();
    assert_eq!(e, ForwardError::MissingTensor { layer: 0, kind: TensorKind::AttnK });
}

#[test]
fn working_memory_of_a_mesh() {
    let c = cfg(0, None);
    let e = ShardedForwardOneTokenScratchTp::new_with_head_rank(&c, &buffers(2), RankId(2))
        .unwrap_err();
    assert_eq!(e, ForwardError::HeadRank { head_rank: 2, ranks: 2 });
    assert_eq!(e.message(), "head_rank 2 out of range for cluster ranks 2");
    let mut s =
        ShardedForwardOneTokenScratchTp::new_with_head_rank(&c, &buffers(2), RankId(1)).unwrap();
    assert!(s.per_rank[0].output_head.is_none());
    assert!(s.per_rank[1].output_head.is_some());
    assert_eq!(s.per_rank[0].allocated_bytes(), 4 * 128);
    assert_eq!(s.rank_level_bytes(), 2 * 4 * 128);
    let frees = s.dispose();
    assert_eq!(frees.len(), 8);
    // What is given back is what was reported.
    assert_eq!(frees.iter().map(|f| f.free.bytes).sum::<usize>(), 2 * 4 * 128);
    assert_eq!(
        frees[0],
        RankFree {
            rank: RankId(0),
            free: Free { ptr: DevicePtr(1_000_000), bytes: 128 }
        }
    );
    let e = ShardedForwardPrefillScratchTp::new(&c, 0, &buffers(2)).unwrap_err();
    assert_eq!(e, ForwardError::ScratchTokens);
    let mut p =
        ShardedForwardPrefillScratchTp::new_with_head_rank(&c, 3, &buffers(2), RankId(1)).unwrap();
    assert_eq!(p.max_tokens, 3);
    assert_eq!(p.rank_level_bytes(), 2 * 4 * 3 * 128);
    let frees = p.dispose();
    assert_eq!(frees.len(), 8);
    assert_eq!(frees.iter().map(|f| f.free.bytes).sum::<usize>(), 2 * 4 * 3 * 128);
}
