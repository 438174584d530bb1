use qwen3_moe::assignment::LayerAssignment;
use qwen3_moe::config::{AttentionFamily, GdnDims, Qwen3MoEConfig, RopeSpec};
use qwen3_moe::device::{DevicePtr, Free, RankFree, RankId};
use qwen3_moe::forward::op::{ForwardError, Op, Pass, PeerMode, StreamSel, Weight};
use qwen3_moe::forward::pp::{
    forward_one_token_pp, forward_one_token_pp_inner, forward_one_token_pp_keep_logits_on_device,
    forward_one_token_pp_logits, forward_output_head_at_pp, forward_prefill_pp,
    forward_prefill_pp_async, forward_prefill_pp_logits, forward_prefill_pp_logits_paired_l2,
    PpBuffers, PpLogitsSink, PpPrefillBuffers, ShardedForwardOneTokenScratch,
    ShardedForwardPrefillScratch,
};
use qwen3_moe::forward::single_device::{
    forward_one_token, forward_prefill, ForwardOneTokenScratch, ForwardPrefillScratch,
};
use qwen3_moe::forward::tp::{LayerScratch, OutputHeadScratch};
use qwen3_moe::layout::{ModelLayout, ResolvedTensor};
use qwen3_moe::session::KvLayout;
use qwen3_moe::sharded::{Qwen3MoEShardedModel, Qwen3MoEShardedSession};
use qwen3_moe::state_ops::PlacedCache;
use qwen3_moe::tensor::GgmlDType;
use qwen3_moe::weights::{
    AttnWeights, DeviceTensor, FfnWeights, FullAttnWeights, LayerWeights, ModelWeights,
};
use std::collections::HashMap;

const HIDDEN: usize = 8;

fn cfg(num_layers: usize) -> Qwen3MoEConfig {
    Qwen3MoEConfig {
        arch: "qwen3next".into(),
        family: AttentionFamily::Hybrid,
        hidden_size: HIDDEN,
        vocab_size: 100,
        num_layers,
        num_heads: 4,
        num_kv_heads: 2,
        head_dim: 16,
        context_length: 128,
        rms_norm_eps_bits: 1e-6f32.to_bits(),
        rope: RopeSpec { freq_base_bits: 10_000.0f32.to_bits(), rotated_dims: 16, sections: None },
        num_experts: 0,
        num_experts_per_tok: 1,
        moe_intermediate_size: 64,
        shared_expert_intermediate_size: None,
        full_attention_interval: Some(2),
        gdn: Some(GdnDims {
            num_v_heads: 4,
            num_k_heads: 2,
            head_k_dim: 8,
            d_inner: 32,
            conv_kernel: 4,
        }),
        tied_lm_head: false,
        pooling_type: None,
    }
}

fn dt(name: &str, ptr: usize) -> DeviceTensor {
    DeviceTensor {
        ptr: DevicePtr(ptr),
        dtype: GgmlDType::Q8_0,
        dims: vec![32],
        bytes: 34,
        name: name.into(),
    }
}

fn layer(il: usize) -> LayerWeights {
    LayerWeights {
        layer_idx: il,
        attn_norm: dt("n", 1),
        post_attention_norm: None,
        ffn_norm: None,
        attn: AttnWeights::FullAttn(FullAttnWeights {
            attn_q: dt("q", 2),
            attn_k: dt("k", 3),
            attn_v: dt("v", 4),
            attn_output: dt("o", 5),
            attn_q_norm: dt("qn", 6),
            attn_k_norm: dt("kn", 7),
        }),
        ffn: FfnWeights {
            ffn_gate_inp: None,
            ffn_gate_exps: None,
            ffn_up_exps: None,
            ffn_down_exps: None,
            shared: None,
            dense: None,
        },
    }
}

fn layout() -> ModelLayout {
    let t = ResolvedTensor {
        name: "t".into(),
        dtype: GgmlDType::F16,
        dims: vec![1],
        size_bytes: 2,
    };
    ModelLayout { token_embd: t.clone(), output_norm: t, output: None, layers: vec![] }
}

/// A pipeline with `per_rank` layers on each rank.
fn pipeline(per_rank: &[usize]) -> Qwen3MoEShardedModel {
    let n: usize = per_rank.iter().sum();
    let last = per_rank.len() - 1;
    let mut next = 0;
    let mut shards = Vec::new();
    for (r, k) in per_rank.iter().enumerate() {
        let layers: Vec<LayerWeights> = (next..next + k).map(layer).collect();
        next += k;
        shards.push(Qwen3MoEShardedModel::new_shard(
            RankId(r as u32),
            r as i32,
            if r == 0 { Some(dt("token_embd.weight", 70)) } else { None },
            if r == last { Some(dt("output_norm.weight", 71)) } else { None },
            if r == last { Some(dt("output.weight", 72)) } else { None },
            layers,
        ));
    }
    let a = LayerAssignment::contiguous(n, per_rank.len() as u32);
    Qwen3MoEShardedModel::from_parts(cfg(n), layout(), a, shards)
}

fn layer_scratch() -> LayerScratch {
    LayerScratch {
        full_attn: true,
        gdn: true,
        dense_ffn: true,
        moe: None,
        shared: false,
        mid_norm_f16: DevicePtr(0),
        shared_delta_f16: DevicePtr(0),
    }
}

fn buffers(r: usize) -> PpBuffers {
    PpBuffers {
        device_id: r as i32,
        hidden_a: DevicePtr(1000 * (r + 1)),
        hidden_b: DevicePtr(1000 * (r + 1) + 500),
        layer: layer_scratch(),
        logits_f32: DevicePtr(99),
    }
}

fn token_scratch(m: &Qwen3MoEShardedModel) -> ShardedForwardOneTokenScratch {
    let bufs: Vec<PpBuffers> = (0..m.shards.len()).map(buffers).collect();
    let mut ops = Vec::new();
    let s = ShardedForwardOneTokenScratch::new(&m.config, &bufs, &mut ops);
    assert_eq!(ops, vec![Op::ReserveBounces { bytes: m.config.hidden_size * 2 }]);
    s
}

fn batch_scratch(
    m: &Qwen3MoEShardedModel,
    max_tokens: usize,
    u_lanes: usize,
) -> ShardedForwardPrefillScratch {
    let bufs: Vec<PpPrefillBuffers> = (0..m.shards.len())
        .map(|r| PpPrefillBuffers {
            device_id: r as i32,
            hidden_a: DevicePtr(10_000 * (r + 1)),
            hidden_b: DevicePtr(10_000 * (r + 1) + 1000),
            layer: layer_scratch(),
            logits_f32: DevicePtr(99),
            lanes: (1..u_lanes).map(|l| buffers(100 * (r + 1) + l)).collect(),
            snapshots: (0..8).map(|i| DevicePtr(5_000_000 + 100 * r + i)).collect(),
        })
        .collect();
    let mut ops = Vec::new();
    let s = if u_lanes == 1 {
        ShardedForwardPrefillScratch::new(m, &bufs, max_tokens, &mut ops)
    } else {
        ShardedForwardPrefillScratch::new_with_lanes(m, &bufs, max_tokens, u_lanes, &mut ops)
    };
    assert_eq!(ops, vec![Op::ReserveBounces { bytes: max_tokens * m.config.hidden_size * 2 }]);
    s
}

/// The layers that the contents of a buffer went through.
fn trace(ops: &[Op]) -> HashMap<(usize, usize), Vec<usize>> {
    let mut t: HashMap<(usize, usize), Vec<usize>> = HashMap::new();
    for op in ops {
        match *op {
            Op::Embed { rank, dst, .. } => {
                t.insert((rank, dst.0), vec![]);
            }
            Op::Layer { rank, layer, x, out, .. } => {
                let mut v = t[&(rank, x.0)].clone();
                v.push(layer);
                t.insert((rank, out.0), v);
            }
            Op::Copy { rank, dst, src, .. } => {
                let v = t[&(rank, src.0)].clone();
                t.insert((rank, dst.0), v);
            }
            Op::PeerCopy { dst_rank, dst, src_rank, src, .. } => {
                let v = t[&(src_rank, src.0)].clone();
                t.insert((dst_rank, dst.0), v);
            }
            _ => {}
        }
    }
    t
}

fn head(ops: &[Op]) -> (usize, usize) {
    let mut found = None;
    for op in ops {
        if let Op::OutputHead { rank, x, .. } = op {
            found = Some((*rank, x.0));
        }
    }
    found.unwrap()
}

#[test]
fn a_token_goes_through_all_layers() {
    // An odd number of layers on a rank needs a copy back.
    for per_rank in [vec![3], vec![2, 1], vec![1, 2, 3]] {
        let m = pipeline(&per_rank);
        let s = token_scratch(&m);
        let mut ops = Vec::new();
        forward_one_token_pp(&m, &s, 42, 7, &mut ops).unwrap();
        let n: usize = per_rank.iter().sum();
        let all: Vec<usize> = (0..n).collect();
        let at = head(&ops);
        assert_eq!(at.0, per_rank.len() - 1);
        assert_eq!(trace(&ops)[&at], all);
        assert_eq!(
            ops[0],
            Op::Embed {
                rank: 0,
                stream: StreamSel::Default,
                table: Weight { ptr: DevicePtr(70), dtype: GgmlDType::Q8_0 },
                token: 42,
                dst: DevicePtr(1000),
                hidden: HIDDEN,
            }
        );
        assert_eq!(ops[ops.len() - 1], Op::Argmax { rank: per_rank.len() - 1, vocab: 100 });
        for op in &ops {
            if let Op::Layer { pass, n_tokens, position, .. } = op {
                assert_eq!((*pass, *n_tokens, *position), (Pass::Decode, 1, 7));
            }
        }
    }
}

#[test]
fn logits_go_where_they_are_wanted() {
    let m = pipeline(&[1, 1]);
    let s = token_scratch(&m);
    let mut ops = Vec::new();
    forward_one_token_pp_logits(&m, &s, 1, 0, &mut ops).unwrap();
    assert_eq!(ops[ops.len() - 1], Op::DownloadLogits { rank: 1, slot: 0, vocab: 100 });
    let mut ops = Vec::new();
    forward_one_token_pp_keep_logits_on_device(&m, &s, 1, 0, &mut ops).unwrap();
    assert!(ops.iter().all(|o| !matches!(o, Op::DownloadLogits { .. } | Op::Argmax { .. })));
    let modes: Vec<PeerMode> = ops
        .iter()
        .filter_map(|o| match o {
            Op::PeerCopy { mode, .. } => Some(*mode),
            _ => None,
        })
        .collect();
    assert_eq!(modes.len(), 1);
}

#[test]
fn tokens_that_cannot_be_run() {
    let run = |m: &Qwen3MoEShardedModel, s: &ShardedForwardOneTokenScratch| {
        let mut ops = Vec::new();
        forward_one_token_pp_inner(
            m,
            s,
            PeerMode::Event,
            1,
            0,
            PpLogitsSink::Argmax,
            &mut ops,
        )
        .unwrap_err()
    };
    let mut m = pipeline(&[1, 1]);
    let s = token_scratch(&m);
    m.shards[0].token_embd = None;
    assert_eq!(run(&m, &s), ForwardError::NoTokenEmbd);
    assert_eq!(run(&m, &s).message(), "rank 0 shard missing token_embd");
    let mut m = pipeline(&[1, 1]);
    m.shards[1].output_norm = None;
    assert_eq!(run(&m, &s), ForwardError::NoOutputNorm);
    let mut m = pipeline(&[1, 1]);
    m.shards[1].output = None;
    assert_eq!(run(&m, &s), ForwardError::NoLmHead);
    // The embedding takes the place of the head where the rank has it.
    m.shards[1].token_embd = Some(dt("token_embd.weight", 73));
    let mut ops = Vec::new();
    forward_one_token_pp(&m, &s, 1, 0, &mut ops).unwrap();
    assert!(ops.iter().any(
        |o| matches!(o, Op::OutputHead { lm_head, .. } if lm_head.ptr == DevicePtr(73))
    ));
    let m = pipeline(&[1, 1]);
    let mut s = token_scratch(&m);
    s.per_rank[1].output_head = None;
    assert_eq!(run(&m, &s), ForwardError::NoHeadScratch);
    s.per_rank[1].layer = None;
    assert_eq!(run(&m, &s), ForwardError::NoRankLayerScratch);
    let mut m = pipeline(&[1]);
    m.shards.clear();
    assert_eq!(run(&m, &s), ForwardError::ZeroRanksOneToken);
    assert_eq!(run(&m, &s).message(), "forward_one_token_pp_inner: zero-rank cluster");
}

#[test]
fn a_batch_goes_through_all_layers() {
    let m = pipeline(&[3, 2]);
    let s = batch_scratch(&m, 4, 1);
    let mut ops = Vec::new();
    forward_prefill_pp(&m, &s, &vec![5, 6, 7], 11, &mut ops).unwrap();
    // Row 2 of the last rank's buffer, two bytes for each element.
    assert_eq!(head(&ops), (1, 20_000 + 2 * HIDDEN * 2));
    assert_eq!(trace(&ops)[&(1, 20_000)], vec![0, 1, 2, 3, 4]);
    let embeds: Vec<(u32, usize)> = ops
        .iter()
        .filter_map(|o| match o {
            Op::Embed { token, dst, .. } => Some((*token, dst.0)),
            _ => None,
        })
        .collect();
    assert_eq!(embeds, vec![(5, 10_000), (6, 10_016), (7, 10_032)]);
    assert_eq!(ops[ops.len() - 1], Op::Argmax { rank: 1, vocab: 100 });
    let mut ops = Vec::new();
    forward_prefill_pp_logits(&m, &s, &vec![5, 6, 7], 11, &mut ops).unwrap();
    assert_eq!(ops[ops.len() - 1], Op::DownloadLogits { rank: 1, slot: 0, vocab: 100 });
}

#[test]
fn batches_that_cannot_be_run() {
    let m = pipeline(&[1, 1]);
    let s = batch_scratch(&m, 2, 1);
    let mut ops = Vec::new();
    let e = forward_prefill_pp(&m, &s, &vec![], 0, &mut ops).unwrap_err();
    assert_eq!(e, ForwardError::EmptyTokensPrefill);
    let e = forward_prefill_pp(&m, &s, &vec![1, 2, 3], 0, &mut ops).unwrap_err();
    assert_eq!(e, ForwardError::PrefillPpTooLong { len: 3, max_tokens: 2 });
    assert_eq!(e.message(), "forward_prefill_pp: L=3 > scratch.max_tokens=2");
    assert!(ops.is_empty());
    let mut none = pipeline(&[1]);
    none.shards.clear();
    let e = forward_prefill_pp(&none, &s, &vec![1], 0, &mut ops).unwrap_err();
    assert_eq!(e, ForwardError::ZeroRanksPrefill);
    let mut s = batch_scratch(&m, 2, 1);
    s.per_rank[0].layer = None;
    let e = forward_prefill_pp(&m, &s, &vec![1], 0, &mut ops).unwrap_err();
    assert_eq!(e, ForwardError::NoRankPrefillScratch);
}

#[test]
fn a_pair_keeps_the_inputs_of_recurrent_layers() {
    // Layers 0 and 2 are recurrent.
    let m = pipeline(&[2, 1]);
    let s = batch_scratch(&m, 4, 1);
    assert_eq!(s.per_rank[0].gdn_input_snapshots[0], Some(DevicePtr(5_000_000)));
    assert_eq!(s.per_rank[0].gdn_input_snapshots[1], None);
    assert_eq!(s.per_rank[1].gdn_input_snapshots[0], Some(DevicePtr(5_000_100)));
    let mut ops = Vec::new();
    forward_prefill_pp_logits_paired_l2(&m, &s, &vec![8, 9], 3, true, &mut ops).unwrap();
    let kept: Vec<(usize, usize)> = ops
        .iter()
        .filter_map(|o| match o {
            Op::Copy { rank, dst, .. } if dst.0 >= 5_000_000 => Some((*rank, dst.0)),
            _ => None,
        })
        .collect();
    assert_eq!(kept, vec![(0, 5_000_000), (1, 5_000_100)]);
    assert_eq!(ops.iter().filter(|o| matches!(o, Op::OutputHead { .. })).count(), 2);
    let mut ops = Vec::new();
    forward_prefill_pp_logits_paired_l2(&m, &s, &vec![8, 9], 3, false, &mut ops).unwrap();
    assert_eq!(ops.iter().filter(|o| matches!(o, Op::OutputHead { .. })).count(), 1);

    let e = forward_prefill_pp_logits_paired_l2(&m, &s, &vec![8], 3, true, &mut ops).unwrap_err();
    assert_eq!(e, ForwardError::PairedLength { len: 1 });
    let short = batch_scratch(&m, 1, 1);
    let e =
        forward_prefill_pp_logits_paired_l2(&m, &short, &vec![8, 9], 3, true, &mut ops).unwrap_err();
    assert_eq!(e, ForwardError::PairedTooLong { max_tokens: 1 });
    let mut none = pipeline(&[1]);
    none.shards.clear();
    let e =
        forward_prefill_pp_logits_paired_l2(&none, &s, &vec![8, 9], 3, true, &mut ops).unwrap_err();
    assert_eq!(e, ForwardError::ZeroRanksPaired);

    // The head alone, on either of the two rows.
    let mut ops = Vec::new();
    forward_output_head_at_pp(&m, &s, 1, &mut ops).unwrap();
    assert_eq!(head(&ops), (1, 20_000 + 2 * HIDDEN));
    assert_eq!(
        forward_output_head_at_pp(&none, &s, 0, &mut ops).unwrap_err(),
        ForwardError::ZeroRanksHead
    );
}

#[test]
fn recurrent_layers_are_redone_alone() {
    let m = pipeline(&[2, 1]);
    let d = token_scratch(&m);
    let p = batch_scratch(&m, 4, 1);
    let placed = |n: usize| -> Vec<PlacedCache> {
        (0..n)
            .map(|i| PlacedCache {
                first: DevicePtr(900 + i),
                second: DevicePtr(950 + i),
                tensor_bytes: 4,
            })
            .collect()
    };
    let bufs = vec![placed(2), placed(1)];
    let s = Qwen3MoEShardedSession::new(&m, KvLayout::F16, &bufs, &mut Vec::new()).unwrap();
    let mut ops = Vec::new();
    s.redo_gdn_only_pp(&m, 2, &d, &p, &mut ops).unwrap();
    let redone: Vec<(usize, usize, usize)> = ops
        .iter()
        .filter_map(|o| match o {
            Op::GdnLayer { rank, layer, x, .. } => Some((*rank, *layer, x.0)),
            _ => None,
        })
        .collect();
    assert_eq!(redone, vec![(0, 0, 5_000_000), (1, 2, 5_000_100)]);
    let e = s.redo_gdn_only_pp(&m, 3, &d, &p, &mut ops).unwrap_err();
    assert_eq!(e, ForwardError::RedoRanks { session: 2, cluster: 3 });
    assert_eq!(e.message(), "redo_gdn_only_pp: session ranks=2 != cluster ranks=3");
    let e = s.redo_gdn_only_pp(&pipeline(&[2]), 3, &d, &p, &mut ops).unwrap_err();
    assert_eq!(e, ForwardError::RedoRanks { session: 2, cluster: 3 });
    let mut no = batch_scratch(&m, 4, 1);
    no.per_rank[1].gdn_input_snapshots[0] = None;
    let e = s.redo_gdn_only_pp(&m, 2, &d, &no, &mut ops).unwrap_err();
    assert_eq!(e, ForwardError::RedoNoSnapshot { rank: 1, layer: 2 });
    let mut short = batch_scratch(&m, 4, 1);
    short.per_rank.truncate(1);
    let e = s.redo_gdn_only_pp(&m, 2, &d, &short, &mut ops).unwrap_err();
    assert_eq!(e, ForwardError::RedoNoPrefillRank);
    let mut no = token_scratch(&m);
    no.per_rank[0].layer = None;
    let e = s.redo_gdn_only_pp(&m, 2, &no, &p, &mut ops).unwrap_err();
    assert_eq!(e, ForwardError::RedoNoLayer);
    let mut no = token_scratch(&m);
    if let Some(l) = &mut no.per_rank[0].layer {
        l.gdn = false;
    }
    let e = s.redo_gdn_only_pp(&m, 2, &no, &p, &mut ops).unwrap_err();
    assert_eq!(e, ForwardError::RedoNoGdn);
    let mut short = token_scratch(&m);
    short.per_rank.clear();
    let e = s.redo_gdn_only_pp(&m, 2, &short, &p, &mut ops).unwrap_err();
    assert_eq!(e, ForwardError::RedoNoDecodeRank);
}

/// A hidden row: its token and the layers that it went through.
type Row = (u32, Vec<usize>);

/// Carries out operations on the first rows of buffers, and notes for each layer what
/// it takes in.
fn carry_out(
    rows: &mut HashMap<(usize, usize), Row>,
    seen: &mut HashMap<(usize, usize), Vec<Option<Row>>>,
    ops: &[Op],
) {
    for op in ops {
        match op {
            Op::Embed { rank, token, dst, .. } => {
                rows.insert((*rank, dst.0), (*token, vec![]));
            }
            Op::Layer { rank, local, layer, x, out, n_tokens, .. } => {
                let mut row = rows[&(*rank, x.0)].clone();
                let cache = seen.entry((*rank, *local)).or_default();
                cache.push(Some(row.clone()));
                cache.extend((1..*n_tokens).map(|_| None));
                row.1.push(*layer);
                rows.insert((*rank, out.0), row);
            }
            Op::GdnLayer { rank, local, x, out, .. } => {
                let row = rows[&(*rank, x.0)].clone();
                seen.entry((*rank, *local)).or_default().push(Some(row));
                rows.remove(&(*rank, out.0));
            }
            Op::Copy { rank, dst, src, .. } => {
                let row = rows[&(*rank, src.0)].clone();
                rows.insert((*rank, dst.0), row);
            }
            Op::PeerCopy { dst_rank, dst, src_rank, src, .. } => {
                let row = rows[&(*src_rank, src.0)].clone();
                rows.insert((*dst_rank, dst.0), row);
            }
            _ => {}
        }
    }
}

#[test]
fn a_redo_leaves_what_a_whole_step_leaves() {
    let m = pipeline(&[3, 2]);
    let d = token_scratch(&m);
    let p = batch_scratch(&m, 4, 1);
    let placed = |n: usize| -> Vec<PlacedCache> {
        (0..n)
            .map(|i| PlacedCache {
                first: DevicePtr(900 + i),
                second: DevicePtr(950 + i),
                tensor_bytes: 4,
            })
            .collect()
    };
    let bufs = vec![placed(3), placed(2)];
    let s = Qwen3MoEShardedSession::new(&m, KvLayout::F16, &bufs, &mut Vec::new()).unwrap();

    // A token is committed, then a pair is tried.
    let mut rows = HashMap::new();
    let mut seen = HashMap::new();
    let mut ops = Vec::new();
    forward_one_token_pp_logits(&m, &d, 5, 6, &mut ops).unwrap();
    carry_out(&mut rows, &mut seen, &ops);
    let before = seen.clone();
    let mut ops = Vec::new();
    forward_prefill_pp_logits_paired_l2(&m, &p, &vec![8, 9], 7, false, &mut ops).unwrap();
    carry_out(&mut rows, &mut seen, &ops);
    // The input of the recurrent layer 4 on the second rank.
    assert_eq!(rows[&(1, 5_000_101)], (8, vec![0, 1, 2, 3]));

    // Recurrent layers are restored, the others lose a token.
    for (k, cache) in seen.iter_mut() {
        let layer = m.shards[k.0].layers[k.1].layer_idx;
        if m.config.is_recurrent(layer) {
            *cache = before[k].clone();
        } else {
            cache.pop();
        }
    }
    let mut ops = Vec::new();
    s.redo_gdn_only_pp(&m, 2, &d, &p, &mut ops).unwrap();
    carry_out(&mut rows, &mut seen, &ops);

    let mut whole = before;
    let mut ops = Vec::new();
    forward_one_token_pp_logits(&m, &d, 8, 7, &mut ops).unwrap();
    carry_out(&mut HashMap::new(), &mut whole, &ops);
    assert_eq!(seen, whole);
}

#[test]
fn batches_follow_one_another() {
    let m = pipeline(&[1, 2]);
    let s = batch_scratch(&m, 2, 2);
    assert_eq!(s.per_rank[0].u_lanes(), 2);
    assert_eq!(s.per_rank[0].lane_hidden_a(0), DevicePtr(10_000));
    assert_eq!(s.per_rank[0].lane_hidden_a(1), DevicePtr(102_000));
    assert_eq!(s.per_rank[1].lane_hidden_b(1), DevicePtr(202_500));
    let mut ops = Vec::new();
    // Five tokens in batches of two: 2 + 2 + 1.
    forward_prefill_pp_async(&m, &s, &vec![1, 2, 3, 4, 5], 10, 2, &mut ops).unwrap();
    assert_eq!(ops[0], Op::ReserveStreams { n: 2 });
    let batch = 2 * m.config.hidden_size * 2;
    assert_eq!(ops[1], Op::ReserveLaneBounces { lanes: 2, bytes: batch });
    let runs: Vec<(usize, usize, usize, usize)> = ops
        .iter()
        .filter_map(|o| match o {
            Op::Layer { rank, layer, n_tokens, position, .. } => {
                Some((*rank, *layer, *position, *n_tokens))
            }
            _ => None,
        })
        .collect();
    assert_eq!(
        runs,
        vec![
            (0, 0, 10, 2),
            (0, 0, 12, 2),
            (1, 1, 10, 2),
            (1, 2, 10, 2),
            (0, 0, 14, 1),
            (1, 1, 12, 2),
            (1, 2, 12, 2),
            (1, 1, 14, 1),
            (1, 2, 14, 1),
        ]
    );
    // The third batch used the first lane again, and the head reads its row 0.
    assert_eq!(head(&ops), (1, 20_000));
    assert_eq!(trace(&ops)[&(1, 20_000)], vec![0, 1, 2]);
    let lanes: Vec<StreamSel> = ops
        .iter()
        .filter_map(|o| match o {
            Op::Layer { rank: 0, stream, .. } => Some(*stream),
            _ => None,
        })
        .collect();
    assert_eq!(lanes, vec![StreamSel::Aux(0), StreamSel::Aux(1), StreamSel::Aux(0)]);
}

#[test]
fn batches_that_cannot_follow_one_another() {
    let m = pipeline(&[1, 1]);
    let s = batch_scratch(&m, 2, 2);
    let mut ops = Vec::new();
    let mut e = |s: &ShardedForwardPrefillScratch, tokens: Vec<u32>, u: usize| {
        forward_prefill_pp_async(&m, s, &tokens, 0, u, &mut ops).unwrap_err()
    };
    assert_eq!(e(&s, vec![], 2), ForwardError::EmptyTokensAsync);
    assert_eq!(e(&s, vec![1], 0), ForwardError::UbatchZero);
    assert_eq!(e(&s, vec![1], 3), ForwardError::UbatchTooLarge { ubatch_size: 3, max_tokens: 2 });
    let one = batch_scratch(&m, 2, 1);
    assert_eq!(e(&one, vec![1], 2), ForwardError::TooFewLanes { u_lanes: 1 });
    let mut no = batch_scratch(&m, 2, 2);
    no.per_rank[0].layer = None;
    assert_eq!(e(&no, vec![1], 2), ForwardError::NoRank0Lane);
    let mut no = batch_scratch(&m, 2, 2);
    no.per_rank[1].layer = None;
    assert_eq!(e(&no, vec![1], 2), ForwardError::NoLane);
    let mut none = pipeline(&[1]);
    none.shards.clear();
    let mut ops = Vec::new();
    let e = forward_prefill_pp_async(&none, &s, &vec![1], 0, 1, &mut ops).unwrap_err();
    assert_eq!(e, ForwardError::ZeroRanksAsync);
}

#[test]
fn lanes_are_reached_by_number() {
    let m = pipeline(&[1]);
    let mut s = batch_scratch(&m, 2, 2);
    let r = &mut s.per_rank[0];
    r.lane_layer_mut(1).unwrap().gdn = false;
    assert!(r.lane_layer(0).unwrap().gdn);
    assert!(!r.lane_layer(1).unwrap().gdn);
    r.layer = None;
    assert!(r.lane_layer_mut(0).is_none());
}

#[test]
fn working_memory_is_given_back_once() {
    let m = pipeline(&[2, 1]);
    let mut s = token_scratch(&m);
    let frees = s.dispose();
    assert_eq!(
        frees[0],
        RankFree {
            rank: RankId(0),
            free: Free { ptr: DevicePtr(1000), bytes: HIDDEN * 2 }
        }
    );
    assert_eq!(frees.len(), 4);
    let mut b = batch_scratch(&m, 3, 2);
    let frees = b.dispose();
    // Two lanes of two buffers on each rank, and a row for each recurrent layer.
    assert_eq!(frees.len(), 8 + 2);
    assert_eq!(frees.iter().filter(|f| f.free.bytes == 3 * HIDDEN * 2).count(), 8);
    assert_eq!(frees.iter().filter(|f| f.free.bytes == HIDDEN * 2).count(), 2);
}

fn device_model(n: usize, with_output: bool) -> ModelWeights {
    ModelWeights {
        token_embd: dt("token_embd.weight", 70),
        output_norm: dt("output_norm.weight", 71),
        output: if with_output { Some(dt("output.weight", 72)) } else { None },
        layers: (0..n).map(layer).collect(),
        device_id: 0,
        total_bytes: 0,
        disposed: false,
    }
}

#[test]
fn a_token_on_one_device() {
    let c = cfg(3);
    let w = device_model(3, false);
    let o = OutputHeadScratch { logits_f32: DevicePtr(9) };
    let mut s =
        ForwardOneTokenScratch::new(&c, DevicePtr(100), DevicePtr(200), layer_scratch(), o);
    let mut ops = Vec::new();
    forward_one_token(&c, &w, &s, 4, 2, &mut ops).unwrap();
    // After three layers the result is in the second buffer; nothing is copied.
    assert_eq!(head(&ops), (0, 200));
    assert_eq!(trace(&ops)[&(0, 200)], vec![0, 1, 2]);
    assert_eq!(ops.len(), 1 + 3 + 2);
    // The embedding is the head where there is none.
    assert!(ops.iter().any(
        |x| matches!(x, Op::OutputHead { lm_head, .. } if lm_head.ptr == DevicePtr(70))
    ));
    let frees = s.dispose();
    assert_eq!(frees.len(), 2);
    assert_eq!(frees[1], Free { ptr: DevicePtr(200), bytes: 16 });
    assert!(s.dispose().is_empty());

    let mut no = s;
    no.output_head = None;
    let mut ops = Vec::new();
    let e = forward_one_token(&c, &w, &no, 4, 2, &mut ops).unwrap_err();
    assert_eq!(e, ForwardError::OneTokenNoHead);
    assert_eq!(ops.len(), 4);
    no.layer = None;
    let mut ops = Vec::new();
    let e = forward_one_token(&c, &w, &no, 4, 2, &mut ops).unwrap_err();
    assert_eq!(e, ForwardError::OneTokenNoLayer);
    assert_eq!(e.message(), "ForwardOneTokenScratch.layer missing");
    assert_eq!(ops.len(), 1);
}

#[test]
fn a_batch_on_one_device() {
    let c = cfg(2);
    let w = device_model(2, true);
    let o = OutputHeadScratch { logits_f32: DevicePtr(9) };
    let mut s =
        ForwardPrefillScratch::new(&c, 4, DevicePtr(100), DevicePtr(900), layer_scratch(), o);
    let mut ops = Vec::new();
    forward_prefill(&c, &w, &s, &vec![3, 4], 5, &mut ops).unwrap();
    assert_eq!(head(&ops), (0, 116));
    assert!(ops.iter().any(
        |x| matches!(x, Op::OutputHead { lm_head, .. } if lm_head.ptr == DevicePtr(72))
    ));
    let e = forward_prefill(&c, &w, &s, &vec![], 5, &mut ops).unwrap_err();
    assert_eq!(e, ForwardError::PrefillEmpty);
    let e = forward_prefill(&c, &w, &s, &vec![0; 5], 5, &mut ops).unwrap_err();
    assert_eq!(e, ForwardError::PrefillTooLong { len: 5, max_tokens: 4 });
    s.output_head = None;
    let e = forward_prefill(&c, &w, &s, &vec![1], 5, &mut ops).unwrap_err();
    assert_eq!(e, ForwardError::PrefillNoHead);
    s.layer = None;
    let e = forward_prefill(&c, &w, &s, &vec![1], 5, &mut ops).unwrap_err();
    assert_eq!(e, ForwardError::PrefillNoLayer);
    assert_eq!(s.dispose()[0], Free { ptr: DevicePtr(100), bytes: 64 });
}
