//! A model and its per-sequence state on a tensor-parallel mesh: every rank
//! holds its share of every layer.

use crate::assignment::LayerAssignment;
use crate::config::Qwen3MoEConfig;
use crate::device::{push_rank_frees, rank_frees, DevicePtr, Free, RankFree, RankId};
use crate::layout::{
    DenseAttnTensors, DenseFfnTensors, FullAttnTensors, GdnTensors, LayerAttnBlock,
    LayerDescriptor, ModelLayout, MoeFfnTensors, ResolvedTensor, SharedExpertTensors,
};
use crate::load_error::LoadError;
use crate::plan::flat;
use crate::tensor::GgmlDType;
use crate::text::{ends_with, owned, spec_ends_with};
use crate::tp_layout::Qwen35DenseTpLayout;
use crate::weight_layout::WeightLayout;
use crate::weights::{
    bytes_of, collect_live, lemma_bytes_concat, live_allocations, opt_list, push_opt, sizes_of,
    sum_bytes, targets, DeviceTensor,
};
use std::ops::Range;
use vstd::prelude::*;

verus! {

/// A tensor of a layer on one rank, with the layout it was uploaded with.
#[derive(Debug)]
pub struct TpLayerTensor {
    pub name: String,
    pub layout: WeightLayout,
    pub tensor: DeviceTensor,
}

/// What one rank holds.
#[derive(Debug)]
pub struct Qwen3MoETpRankShard {
    pub rank: RankId,
    pub device_id: i32,
    pub token_embd: DeviceTensor,
    pub output_norm: DeviceTensor,
    /// Absent where the LM head is the embedding.
    pub output: Option<DeviceTensor>,
    pub layers: Vec<Vec<TpLayerTensor>>,
    pub total_bytes: usize,
    pub disposed: bool,
}

/// A model on a tensor-parallel mesh. Layers outside `layer_range` are empty.
pub struct Qwen3MoETpModel {
    pub config: Qwen3MoEConfig,
    pub layout: ModelLayout,
    pub tp: Qwen35DenseTpLayout,
    pub shards: Vec<Qwen3MoETpRankShard>,
    pub layer_range: Range<usize>,
    pub has_token_embd: bool,
    pub has_output_head: bool,
}

/// The name is that of a routed expert tensor.
pub open spec fn is_expert_name(name: Seq<char>) -> bool {
    ||| spec_ends_with(name, "ffn_gate_exps.weight"@)
    ||| spec_ends_with(name, "ffn_up_exps.weight"@)
    ||| spec_ends_with(name, "ffn_down_exps.weight"@)
}

/// Whether the name is that of a routed expert tensor.
pub fn is_expert(name: &str) -> (r: bool)
    ensures
        r == is_expert_name(name@),
{
    ends_with(name, "ffn_gate_exps.weight") || ends_with(name, "ffn_up_exps.weight") || ends_with(
        name,
        "ffn_down_exps.weight",
    )
}

/// The first expert tensor of the list is replicated.
pub open spec fn experts_replicated(ts: Seq<TpLayerTensor>) -> bool
    decreases ts.len(),
{
    if ts.len() == 0 {
        false
    } else if is_expert_name(ts[0].name@) {
        ts[0].layout == WeightLayout::Replicated
    } else {
        experts_replicated(ts.drop_first())
    }
}

proof fn lemma_experts_replicated_at(ts: Seq<TpLayerTensor>, k: int)
    requires
        0 <= k <= ts.len(),
        forall|j: int| 0 <= j < k ==> !is_expert_name((#[trigger] ts[j]).name@),
    ensures
        k == ts.len() ==> !experts_replicated(ts),
        k < ts.len() && is_expert_name(ts[k].name@) ==> experts_replicated(ts) == (ts[k].layout
            == WeightLayout::Replicated),
    decreases ts.len(),
{
    if k > 0 {
        let t = ts.drop_first();
        assert forall|j: int| 0 <= j < k - 1 implies !is_expert_name((#[trigger] t[j]).name@) by {
            assert(t[j] == ts[j + 1]);
        }
        lemma_experts_replicated_at(t, k - 1);
        if k < ts.len() {
            assert(t[k - 1] == ts[k]);
        }
        assert(!is_expert_name(ts[0].name@));
    }
}

impl Qwen3MoETpModel {
    /// The experts of layer `il` are replicated on every rank. Rank 0 decides.
    pub open spec fn spec_moe_replicated_at(&self, il: nat) -> bool {
        self.shards@.len() > 0 && il < self.shards@[0].layers@.len() && experts_replicated(
            self.shards@[0].layers@[il as int]@,
        )
    }

    /// Whether the experts of layer `il` are replicated on every rank.
    pub fn moe_replicated_at(&self, il: usize) -> (r: bool)
        ensures
            r == self.spec_moe_replicated_at(il as nat),
    {
        if self.shards.len() == 0 {
            return false;
        }
        let layers = &self.shards[0].layers;
        if il >= layers.len() {
            return false;
        }
        let ts = &layers[il];
        let mut i: usize = 0;
        while i < ts.len()
            invariant
                i <= ts@.len(),
                self.shards@.len() > 0,
                il < self.shards@[0].layers@.len(),
                self.shards@[0].layers@[il as int] == *ts,
                forall|j: int| 0 <= j < i ==> !is_expert_name((#[trigger] ts@[j]).name@),
            decreases ts@.len() - i,
        {
            if is_expert(ts[i].name.as_str()) {
                proof {
                    lemma_experts_replicated_at(ts@, i as int);
                }
                return match ts[i].layout {
                    WeightLayout::Replicated => true,
                    _ => false,
                };
            }
            i = i + 1;
        }
        proof {
            lemma_experts_replicated_at(ts@, ts@.len() as int);
        }
        false
    }
}

/// How a model is spread over devices.
#[derive(Debug)]
pub enum Topology {
    Pp(LayerAssignment),
    Tp(Qwen35DenseTpLayout),
}

impl Topology {
    /// The number of ranks.
    pub open spec fn spec_world(&self) -> u32 {
        match self {
            Topology::Pp(a) => a.ranks,
            Topology::Tp(tp) => tp.spec_world(),
        }
    }

    /// The number of ranks.
    pub fn world(&self) -> (r: u32)
        ensures
            r == self.spec_world(),
    {
        match self {
            Topology::Pp(a) => a.num_ranks(),
            Topology::Tp(tp) => tp.world(),
        }
    }
}

/// Which part of a model a mesh loads.
#[derive(Debug, Clone)]
pub struct TpLoadOpts {
    /// All layers where absent.
    pub layer_range: Option<Range<usize>>,
    pub load_token_embd: bool,
    pub load_output_head: bool,
}

impl Default for TpLoadOpts {
    fn default() -> (r: Self)
        ensures
            r.layer_range is None,
            r.load_token_embd,
            r.load_output_head,
    {
        TpLoadOpts { layer_range: None, load_token_embd: true, load_output_head: true }
    }
}

impl TpLoadOpts {
    /// The first layer that is loaded.
    pub open spec fn start(&self) -> usize {
        match self.layer_range {
            Some(r) => r.start,
            None => 0,
        }
    }

    /// One past the last layer that is loaded.
    pub open spec fn end(&self, num_layers: usize) -> usize {
        match self.layer_range {
            Some(r) => r.end,
            None => num_layers,
        }
    }
}

/// An optional tensor's name as a list.
pub open spec fn opt_name(t: Option<ResolvedTensor>) -> Seq<String> {
    match t {
        Some(t) => seq![t.name],
        None => seq![],
    }
}

fn push_name(out: &mut Vec<String>, t: &ResolvedTensor)
    ensures
        final(out)@ == old(out)@ + seq![t.name],
{
    out.push(t.name.clone());
    proof {
        assert(out@ =~= old(out)@ + seq![t.name]);
    }
}

fn push_opt_name(out: &mut Vec<String>, t: &Option<ResolvedTensor>)
    ensures
        final(out)@ == old(out)@ + opt_name(*t),
{
    if let Some(t) = t {
        out.push(t.name.clone());
    }
    proof {
        assert(out@ =~= old(out)@ + opt_name(*t));
    }
}

/// The tensors of a plain self-attention block.
pub open spec fn dense_attn_names(d: &DenseAttnTensors) -> Seq<String> {
    seq![d.attn_q.name]
        + seq![d.attn_k.name]
        + seq![d.attn_v.name]
        + seq![d.attn_output.name]
        + seq![d.attn_q_norm.name]
        + seq![d.attn_k_norm.name]
        + opt_name(d.attn_q_bias)
        + opt_name(d.attn_k_bias)
        + opt_name(d.attn_v_bias)
}

fn push_dense_attn_names(d: &DenseAttnTensors, out: &mut Vec<String>)
    ensures
        final(out)@ == old(out)@ + dense_attn_names(d),
{
    push_name(out, &d.attn_q);
    push_name(out, &d.attn_k);
    push_name(out, &d.attn_v);
    push_name(out, &d.attn_output);
    push_name(out, &d.attn_q_norm);
    push_name(out, &d.attn_k_norm);
    push_opt_name(out, &d.attn_q_bias);
    push_opt_name(out, &d.attn_k_bias);
    push_opt_name(out, &d.attn_v_bias);
    proof {
        assert(out@ =~= old(out)@ + dense_attn_names(d));
    }
}

/// The tensors of a gated full-attention block.
pub open spec fn full_attn_names(f: &FullAttnTensors) -> Seq<String> {
    seq![f.attn_q.name]
        + seq![f.attn_k.name]
        + seq![f.attn_v.name]
        + seq![f.attn_output.name]
        + seq![f.attn_q_norm.name]
        + seq![f.attn_k_norm.name]
}

fn push_full_attn_names(f: &FullAttnTensors, out: &mut Vec<String>)
    ensures
        final(out)@ == old(out)@ + full_attn_names(f),
{
    push_name(out, &f.attn_q);
    push_name(out, &f.attn_k);
    push_name(out, &f.attn_v);
    push_name(out, &f.attn_output);
    push_name(out, &f.attn_q_norm);
    push_name(out, &f.attn_k_norm);
    proof {
        assert(out@ =~= old(out)@ + full_attn_names(f));
    }
}

/// The tensors of a gated delta net.
pub open spec fn gdn_names(g: &GdnTensors) -> Seq<String> {
    seq![g.attn_qkv.name]
        + seq![g.attn_gate.name]
        + seq![g.ssm_a.name]
        + seq![g.ssm_dt_bias.name]
        + seq![g.ssm_conv1d.name]
        + seq![g.ssm_norm.name]
        + seq![g.ssm_out.name]
        + opt_name(g.ssm_alpha)
        + opt_name(g.ssm_beta)
        + opt_name(g.ssm_ba)
}

fn push_gdn_names(g: &GdnTensors, out: &mut Vec<String>)
    ensures
        final(out)@ == old(out)@ + gdn_names(g),
{
    push_name(out, &g.attn_qkv);
    push_name(out, &g.attn_gate);
    push_name(out, &g.ssm_a);
    push_name(out, &g.ssm_dt_bias);
    push_name(out, &g.ssm_conv1d);
    push_name(out, &g.ssm_norm);
    push_name(out, &g.ssm_out);
    push_opt_name(out, &g.ssm_alpha);
    push_opt_name(out, &g.ssm_beta);
    push_opt_name(out, &g.ssm_ba);
    proof {
        assert(out@ =~= old(out)@ + gdn_names(g));
    }
}

/// The tensors of a dense FFN.
pub open spec fn dense_ffn_names(d: &DenseFfnTensors) -> Seq<String> {
    seq![d.ffn_gate.name]
        + seq![d.ffn_up.name]
        + seq![d.ffn_down.name]
}

fn push_dense_ffn_names(d: &DenseFfnTensors, out: &mut Vec<String>)
    ensures
        final(out)@ == old(out)@ + dense_ffn_names(d),
{
    push_name(out, &d.ffn_gate);
    push_name(out, &d.ffn_up);
    push_name(out, &d.ffn_down);
    proof {
        assert(out@ =~= old(out)@ + dense_ffn_names(d));
    }
}

/// The router and the experts.
pub open spec fn experts_names(f: &MoeFfnTensors) -> Seq<String> {
    opt_name(f.ffn_gate_inp)
        + opt_name(f.ffn_gate_exps)
        + opt_name(f.ffn_up_exps)
        + opt_name(f.ffn_down_exps)
}

fn push_experts_names(f: &MoeFfnTensors, out: &mut Vec<String>)
    ensures
        final(out)@ == old(out)@ + experts_names(f),
{
    push_opt_name(out, &f.ffn_gate_inp);
    push_opt_name(out, &f.ffn_gate_exps);
    push_opt_name(out, &f.ffn_up_exps);
    push_opt_name(out, &f.ffn_down_exps);
    proof {
        assert(out@ =~= old(out)@ + experts_names(f));
    }
}

/// The tensors of a shared expert.
pub open spec fn shared_names(s: &SharedExpertTensors) -> Seq<String> {
    seq![s.ffn_gate_inp_shexp.name]
        + seq![s.ffn_gate_shexp.name]
        + seq![s.ffn_up_shexp.name]
        + seq![s.ffn_down_shexp.name]
}

fn push_shared_names(s: &SharedExpertTensors, out: &mut Vec<String>)
    ensures
        final(out)@ == old(out)@ + shared_names(s),
{
    push_name(out, &s.ffn_gate_inp_shexp);
    push_name(out, &s.ffn_gate_shexp);
    push_name(out, &s.ffn_up_shexp);
    push_name(out, &s.ffn_down_shexp);
    proof {
        assert(out@ =~= old(out)@ + shared_names(s));
    }
}

/// The norms of a layer.
pub open spec fn norm_names(l: &LayerDescriptor) -> Seq<String> {
    seq![l.attn_norm.name]
        + opt_name(l.post_attention_norm)
        + opt_name(l.ffn_norm)
}

fn push_norm_names(l: &LayerDescriptor, out: &mut Vec<String>)
    ensures
        final(out)@ == old(out)@ + norm_names(l),
{
    push_name(out, &l.attn_norm);
    push_opt_name(out, &l.post_attention_norm);
    push_opt_name(out, &l.ffn_norm);
    proof {
        assert(out@ =~= old(out)@ + norm_names(l));
    }
}

/// The tensors of a layer, in the order in which a mesh loads them.
pub open spec fn layer_names(l: &LayerDescriptor) -> Seq<String> {
    norm_names(l) + (match l.attn {
        LayerAttnBlock::Dense(d) => dense_attn_names(&d),
        LayerAttnBlock::FullAttn(f) => full_attn_names(&f),
        LayerAttnBlock::Gdn(g) => gdn_names(&g),
    }) + (match l.ffn.dense {
        Some(d) => dense_ffn_names(&d),
        None => experts_names(&l.ffn) + (match l.ffn.shared {
            Some(s) => shared_names(&s),
            None => seq![],
        }),
    })
}

/// Lists the tensors of a layer, in the order in which a mesh loads them.
pub fn collect_layer_tensor_names(desc: &LayerDescriptor) -> (out: Vec<String>)
    ensures
        out@ == layer_names(desc),
{
    let mut out: Vec<String> = Vec::new();
    push_norm_names(desc, &mut out);
    match &desc.attn {
        LayerAttnBlock::Dense(d) => {
            push_dense_attn_names(d, &mut out);
        },
        LayerAttnBlock::FullAttn(f) => {
            push_full_attn_names(f, &mut out);
        },
        LayerAttnBlock::Gdn(g) => {
            push_gdn_names(g, &mut out);
        },
    }
    if let Some(d) = &desc.ffn.dense {
        push_dense_ffn_names(d, &mut out);
    } else {
        push_experts_names(&desc.ffn, &mut out);
        if let Some(s) = &desc.ffn.shared {
            push_shared_names(s, &mut out);
        }
    }
    proof {
        assert(out@ =~= layer_names(desc));
    }
    out
}

/// The device tensors of a layer.
pub open spec fn tensors_of(ts: Seq<TpLayerTensor>) -> Seq<DeviceTensor> {
    Seq::new(ts.len(), |i: int| ts[i].tensor)
}

/// The device tensors of layers.
pub open spec fn layer_tensors(layers: Seq<Vec<TpLayerTensor>>) -> Seq<DeviceTensor> {
    flat(layers.len(), |i: int| tensors_of(layers[i]@))
}

impl Qwen3MoETpRankShard {
    /// All tensors of the rank, in the order of their release.
    pub open spec fn tensors(&self) -> Seq<DeviceTensor> {
        seq![self.token_embd, self.output_norm] + opt_list(self.output) + layer_tensors(
            self.layers@,
        )
    }

    fn iter_tensors(&self) -> (v: Vec<&DeviceTensor>)
        ensures
            targets(v@) == self.tensors(),
    {
        let mut v: Vec<&DeviceTensor> = Vec::new();
        v.push(&self.token_embd);
        v.push(&self.output_norm);
        proof {
            assert(targets(v@) =~= seq![self.token_embd, self.output_norm]);
        }
        push_opt(&mut v, &self.output);
        let ghost head = seq![self.token_embd, self.output_norm] + opt_list(self.output);
        let ghost ls = self.layers@;
        let ghost f = |i: int| tensors_of(ls[i]@);
        let mut i: usize = 0;
        proof {
            assert(targets(v@) =~= head + flat(0, f));
        }
        while i < self.layers.len()
            invariant
                i <= self.layers@.len(),
                ls == self.layers@,
                f == (|i: int| tensors_of(ls[i]@)),
                targets(v@) == head + flat(i as nat, f),
            decreases self.layers@.len() - i,
        {
            let layer = &self.layers[i];
            let ghost base = targets(v@);
            let ghost all = tensors_of(layer@);
            let mut j: usize = 0;
            proof {
                assert(base =~= base + all.take(0));
            }
            while j < layer.len()
                invariant
                    j <= layer@.len(),
                    all == tensors_of(layer@),
                    targets(v@) == base + all.take(j as int),
                decreases layer@.len() - j,
            {
                let ghost before = v@;
                v.push(&layer[j].tensor);
                proof {
                    assert(all.take(j as int + 1) =~= all.take(j as int).push(all[j as int]));
                    assert(targets(v@) =~= targets(before).push(all[j as int]));
                    assert(targets(v@) =~= base + all.take(j as int + 1));
                }
                j = j + 1;
            }
            proof {
                assert(all.take(all.len() as int) =~= all);
                assert(targets(v@) =~= head + flat((i + 1) as nat, f));
            }
            i = i + 1;
        }
        v
    }

    /// What `dispose` gives back.
    pub open spec fn spec_frees(&self) -> Seq<Free> {
        if self.disposed {
            seq![]
        } else {
            live_allocations(self.tensors())
        }
    }

    /// Gives up the rank: lists the allocations to give back.
    pub fn dispose(self) -> (r: Vec<Free>)
        ensures
            r@ == self.spec_frees(),
    {
        if self.disposed {
            return Vec::new();
        }
        let v = self.iter_tensors();
        collect_live(&v)
    }
}

/// What was brought to one rank: the tensors that its options ask for, and the
/// layers of its range.
#[derive(Debug)]
pub struct TpRankParts {
    pub token_embd: Option<DeviceTensor>,
    pub output_norm: Option<DeviceTensor>,
    pub output: Option<DeviceTensor>,
    pub layers: Vec<Vec<TpLayerTensor>>,
}

impl TpRankParts {
    /// All tensors of the rank.
    pub open spec fn tensors(&self) -> Seq<DeviceTensor> {
        opt_list(self.token_embd) + opt_list(self.output_norm) + opt_list(self.output)
            + layer_tensors(self.layers@)
    }

    /// The parts are those that the options ask for.
    pub open spec fn meets(
        &self,
        opts: &TpLoadOpts,
        layout: &ModelLayout,
        num_layers: usize,
    ) -> bool {
        &&& self.token_embd is Some <==> opts.load_token_embd
        &&& self.output_norm is Some <==> opts.load_output_head
        &&& self.output is Some <==> opts.load_output_head && layout.output is Some
        &&& self.layers@.len() == opts.end(num_layers) - opts.start()
        &&& bytes_of(self.tensors()) <= usize::MAX
    }
}

/// A tensor that the rank does not hold: it keeps only the name.
pub open spec fn is_placeholder(t: DeviceTensor, name: Seq<char>) -> bool {
    &&& t.ptr == DevicePtr(0)
    &&& t.dtype == GgmlDType::F16
    &&& t.dims@.len() == 0
    &&& t.bytes == 0
    &&& t.name@ == name
}

fn null_device_tensor(name: &str) -> (t: DeviceTensor)
    ensures
        is_placeholder(t, name@),
{
    DeviceTensor {
        ptr: DevicePtr(0),
        dtype: GgmlDType::F16,
        dims: Vec::new(),
        bytes: 0,
        name: owned(name),
    }
}

/// The tensor where it was brought, else a placeholder.
pub open spec fn held(t: DeviceTensor, part: Option<DeviceTensor>, name: Seq<char>) -> bool {
    match part {
        Some(p) => t == p,
        None => is_placeholder(t, name),
    }
}

fn hold(part: Option<DeviceTensor>, name: &str) -> (t: DeviceTensor)
    ensures
        held(t, part, name@),
{
    match part {
        Some(p) => p,
        None => null_device_tensor(name),
    }
}

/// The layers of a rank: those of its range as they were brought, the others empty.
pub open spec fn layers_held(
    layers: Seq<Vec<TpLayerTensor>>,
    brought: Seq<Vec<TpLayerTensor>>,
    start: nat,
    n: nat,
) -> bool {
    &&& layers.len() == n
    &&& forall|il: int|
        0 <= il < n ==> if start <= il < start + brought.len() {
            #[trigger] layers[il] == brought[il - start]
        } else {
            layers[il]@.len() == 0
        }
}

/// What a rank holds of what was brought to it.
pub open spec fn shard_of(
    s: &Qwen3MoETpRankShard,
    p: &TpRankParts,
    rank: u32,
    layout: &ModelLayout,
    start: nat,
    num_layers: nat,
) -> bool {
    &&& s.rank == RankId(rank)
    &&& held(s.token_embd, p.token_embd, layout.token_embd.name@)
    &&& held(s.output_norm, p.output_norm, layout.output_norm.name@)
    &&& s.output == p.output
    &&& layers_held(s.layers@, p.layers@, start, num_layers)
    &&& s.total_bytes == bytes_of(p.tensors())
    &&& !s.disposed
}

proof fn lemma_held_bytes(t: DeviceTensor, part: Option<DeviceTensor>, name: Seq<char>)
    requires
        held(t, part, name),
    ensures
        bytes_of(seq![t]) == bytes_of(opt_list(part)),
{
    if part is None {
        assert(sizes_of(seq![t]) =~= seq![0nat]);
        assert(seq![0nat].drop_last() =~= Seq::<nat>::empty());
        assert(sizes_of(opt_list(part)) =~= Seq::<nat>::empty());
    }
}

/// Empty layers add nothing.
proof fn lemma_window(
    layers: Seq<Vec<TpLayerTensor>>,
    brought: Seq<Vec<TpLayerTensor>>,
    start: nat,
    n: nat,
    k: nat,
)
    requires
        layers_held(layers, brought, start, n),
        k <= n,
    ensures
        ({
            let m: nat = if k <= start {
                0
            } else if k <= start + brought.len() {
                (k - start) as nat
            } else {
                brought.len()
            };
            flat(k, |i: int| tensors_of(layers[i]@)) == flat(m, |i: int| tensors_of(brought[i]@))
        }),
    decreases k,
{
    let f = |i: int| tensors_of(layers[i]@);
    let g = |i: int| tensors_of(brought[i]@);
    if k > 0 {
        lemma_window(layers, brought, start, n, (k - 1) as nat);
        let il = k - 1;
        if start <= il < start + brought.len() {
            assert(layers[il] == brought[il - start]);
            assert(f(il) == g(il - start));
        } else {
            assert(layers[il]@.len() == 0);
            assert(f(il) =~= Seq::<DeviceTensor>::empty());
            assert(flat(k, f) =~= flat((k - 1) as nat, f));
        }
    }
}

fn assemble_rank(
    p: TpRankParts,
    rank: u32,
    device_id: i32,
    layout: &ModelLayout,
    start: usize,
    num_layers: usize,
) -> (s: Qwen3MoETpRankShard)
    requires
        start + p.layers@.len() <= num_layers,
        bytes_of(p.tensors()) <= usize::MAX,
    ensures
        shard_of(&s, &p, rank, layout, start as nat, num_layers as nat),
        s.device_id == device_id,
{
    let ghost brought = p.layers@;
    let mut rest = p.layers;
    let mut layers: Vec<Vec<TpLayerTensor>> = Vec::new();
    let mut i: usize = 0;
    while i < start
        invariant
            i <= start,
            layers@.len() == i,
            forall|k: int| 0 <= k < i ==> (#[trigger] layers@[k])@.len() == 0,
        decreases start - i,
    {
        layers.push(Vec::new());
        i = i + 1;
    }
    layers.append(&mut rest);
    let mut k: usize = layers.len();
    while k < num_layers
        invariant
            start + brought.len() <= k <= num_layers,
            layers@.len() == k,
            forall|il: int|
                0 <= il < k ==> if start <= il < start + brought.len() {
                    #[trigger] layers@[il] == brought[il - start]
                } else {
                    layers@[il]@.len() == 0
                },
        decreases num_layers - k,
    {
        layers.push(Vec::new());
        k = k + 1;
    }
    let mut s = Qwen3MoETpRankShard {
        rank: RankId(rank),
        device_id,
        token_embd: hold(p.token_embd, layout.token_embd.name.as_str()),
        output_norm: hold(p.output_norm, layout.output_norm.name.as_str()),
        output: p.output,
        layers,
        total_bytes: 0,
        disposed: false,
    };
    proof {
        lemma_held_bytes(s.token_embd, p.token_embd, layout.token_embd.name@);
        lemma_held_bytes(s.output_norm, p.output_norm, layout.output_norm.name@);
        let (a, b) = (seq![s.token_embd], seq![s.output_norm]);
        assert(seq![s.token_embd, s.output_norm] =~= a + b);
        lemma_bytes_concat(a, b);
        lemma_bytes_concat(a + b, opt_list(s.output));
        lemma_bytes_concat(a + b + opt_list(s.output), layer_tensors(s.layers@));
        let (pa, pb, pc) = (opt_list(p.token_embd), opt_list(p.output_norm), opt_list(p.output));
        lemma_bytes_concat(pa, pb);
        lemma_bytes_concat(pa + pb, pc);
        lemma_bytes_concat(pa + pb + pc, layer_tensors(brought));
        lemma_window(s.layers@, brought, start as nat, num_layers as nat, num_layers as nat);
    }
    let total: usize = sum_bytes(&s.iter_tensors());
    s.total_bytes = total;
    s
}

/// The first layer from `il` up to `end` whose experts are replicated. The
/// layers of the first rank from `start` on decide.
pub open spec fn first_replicated(
    parts: Seq<TpRankParts>,
    start: nat,
    il: nat,
    end: nat,
) -> Option<nat>
    decreases end - il,
{
    if il >= end || parts.len() == 0 {
        None
    } else if experts_replicated(parts[0].layers@[il - start]@) {
        Some(il)
    } else {
        first_replicated(parts, start, il + 1, end)
    }
}

/// Why a model cannot be loaded on a mesh with those options.
pub open spec fn range_error(
    num_layers: usize,
    world: u32,
    opts: &TpLoadOpts,
    ranks: nat,
) -> Option<LoadError> {
    if ranks != world {
        Some(LoadError::RankCount { ranks: ranks as usize, world })
    } else if opts.start() > opts.end(num_layers) || opts.end(num_layers) > num_layers {
        Some(
            LoadError::LayerRange {
                start: opts.start(),
                end: opts.end(num_layers),
                num_layers,
            },
        )
    } else {
        None
    }
}

impl Qwen3MoETpModel {
    /// The range of layers to load, or why the model cannot be loaded so.
    pub fn check_opts(
        num_layers: usize,
        tp: &Qwen35DenseTpLayout,
        opts: &TpLoadOpts,
        ranks: usize,
    ) -> (res: Result<Range<usize>, LoadError>)
        ensures
            match range_error(num_layers, tp.spec_world(), opts, ranks as nat) {
                Some(e) => res == Err::<Range<usize>, LoadError>(e),
                None => res is Ok && res->Ok_0.start == opts.start() && res->Ok_0.end == opts.end(
                    num_layers,
                ),
            },
    {
        if ranks as u64 != tp.world() as u64 {
            return Err(LoadError::RankCount { ranks, world: tp.world() });
        }
        let (start, end): (usize, usize) = match &opts.layer_range {
            Some(r) => (r.start, r.end),
            None => (0, num_layers),
        };
        if start > end || end > num_layers {
            return Err(LoadError::LayerRange { start, end, num_layers });
        }
        Ok(start..end)
    }

    /// The model that the tensors brought to the ranks make up: all of it.
    pub fn load(
        config: Qwen3MoEConfig,
        layout: ModelLayout,
        tp: Qwen35DenseTpLayout,
        device_ids: &Vec<i32>,
        parts: Vec<TpRankParts>,
    ) -> (res: Result<Self, LoadError>)
        requires
            parts@.len() == device_ids@.len(),
            forall|r: int|
                0 <= r < parts@.len() ==> (#[trigger] parts@[r]).meets(
                    &(TpLoadOpts {
                        layer_range: None,
                        load_token_embd: true,
                        load_output_head: true,
                    }),
                    &layout,
                    config.num_layers,
                ),
        ensures
            model_loaded(
                res,
                config,
                layout,
                tp,
                &(TpLoadOpts { layer_range: None, load_token_embd: true, load_output_head: true }),
                device_ids@,
                parts@,
            ),
    {
        let opts = TpLoadOpts::default();
        Qwen3MoETpModel::load_with_opts(config, layout, tp, &opts, device_ids, parts)
    }

    /// The part of a model that the tensors brought to the ranks make up. Where
    /// the model has a shared expert, no layer of it may have its experts
    /// replicated.
    pub fn load_with_opts(
        config: Qwen3MoEConfig,
        layout: ModelLayout,
        tp: Qwen35DenseTpLayout,
        opts: &TpLoadOpts,
        device_ids: &Vec<i32>,
        parts: Vec<TpRankParts>,
    ) -> (res: Result<Self, LoadError>)
        requires
            parts@.len() == device_ids@.len(),
            range_error(config.num_layers, tp.spec_world(), opts, device_ids@.len()) is None ==> (
            forall|r: int|
                0 <= r < parts@.len() ==> (#[trigger] parts@[r]).meets(
                    opts,
                    &layout,
                    config.num_layers,
                )),
        ensures
            model_loaded(res, config, layout, tp, opts, device_ids@, parts@),
    {
        let layer_range = match Qwen3MoETpModel::check_opts(
            config.num_layers,
            &tp,
            opts,
            device_ids.len(),
        ) {
            Ok(r) => r,
            Err(e) => return Err(e),
        };
        let start: usize = layer_range.start;
        let end: usize = layer_range.end;
        let ghost all = parts@;
        let mut left = parts;
        let mut shards: Vec<Qwen3MoETpRankShard> = Vec::new();
        let n: u32 = tp.world();
        let mut r: u32 = 0;
        while r < n
            invariant
                r <= n,
                n == device_ids@.len(),
                all.len() == n,
                left@ == all.skip(r as int),
                start <= end <= config.num_layers,
                start == opts.start(),
                end == opts.end(config.num_layers),
                forall|k: int|
                    0 <= k < all.len() ==> (#[trigger] all[k]).meets(
                        opts,
                        &layout,
                        config.num_layers,
                    ),
                shards@.len() == r,
                forall|k: int|
                    0 <= k < r ==> shard_of(
                        #[trigger] &shards@[k],
                        &all[k],
                        k as u32,
                        &layout,
                        start as nat,
                        config.num_layers as nat,
                    ) && shards@[k].device_id == device_ids@[k],
            decreases n - r,
        {
            let p = left.remove(0);
            proof {
                assert(p == all[r as int]);
                assert(all[r as int].meets(opts, &layout, config.num_layers));
                assert(left@ =~= all.skip(r as int + 1));
            }
            shards.push(
                assemble_rank(
                    p,
                    r,
                    device_ids[r as usize],
                    &layout,
                    start,
                    config.num_layers,
                ),
            );
            r = r + 1;
        }
        let model = Qwen3MoETpModel {
            config,
            layout,
            tp,
            shards,
            layer_range,
            has_token_embd: opts.load_token_embd,
            has_output_head: opts.load_output_head,
        };
        if model.config.shared_expert_intermediate_size.is_some() {
            let mut il: usize = start;
            proof {
                assert(made_model(&model, config, layout, tp, opts, device_ids@, all));
            }
            while il < end
                invariant
                    start <= il <= end,
                    end <= config.num_layers,
                    start == opts.start(),
                    end == opts.end(config.num_layers),
                    made_model(&model, config, layout, tp, opts, device_ids@, all),
                    forall|k: int|
                        0 <= k < all.len() ==> (#[trigger] all[k]).meets(
                            opts,
                            &layout,
                            config.num_layers,
                        ),
                    range_error(
                        config.num_layers,
                        tp.spec_world(),
                        opts,
                        device_ids@.len(),
                    ) is None,
                    config.shared_expert_intermediate_size is Some,
                    all == parts@,
                    first_replicated(all, start as nat, start as nat, end as nat)
                        == first_replicated(all, start as nat, il as nat, end as nat),
                decreases end - il,
            {
                proof {
                    if all.len() > 0 {
                        assert(all[0].meets(opts, &layout, config.num_layers));
                        assert(shard_of(
                            &model.shards@[0],
                            &all[0],
                            0,
                            &layout,
                            start as nat,
                            config.num_layers as nat,
                        ));
                        assert(model.shards@[0].layers@[il as int] == all[0].layers@[il - start]);
                    }
                }
                if model.moe_replicated_at(il) {
                    return Err(LoadError::SharedFallback { layer: il });
                }
                il = il + 1;
            }
        }
        proof {
            assert(made_model(&model, config, layout, tp, opts, device_ids@, all));
        }
        Ok(model)
    }

    /// Bytes over all ranks.
    pub open spec fn spec_total_bytes(&self) -> nat {
        crate::arith::sum(Seq::new(self.shards@.len(), |i: int| self.shards@[i].total_bytes as nat))
    }

    /// Bytes over all ranks.
    pub fn total_bytes(&self) -> (r: usize)
        requires
            self.spec_total_bytes() <= usize::MAX,
        ensures
            r == self.spec_total_bytes(),
    {
        let ghost sizes = Seq::new(
            self.shards@.len(),
            |i: int| self.shards@[i].total_bytes as nat,
        );
        let mut total: usize = 0;
        let mut i: usize = 0;
        proof {
            assert(sizes.take(0) =~= Seq::<nat>::empty());
        }
        while i < self.shards.len()
            invariant
                i <= self.shards@.len(),
                sizes == Seq::new(
                    self.shards@.len(),
                    |i: int| self.shards@[i].total_bytes as nat,
                ),
                crate::arith::sum(sizes) <= usize::MAX,
                total == crate::arith::sum(sizes.take(i as int)),
            decreases self.shards@.len() - i,
        {
            proof {
                crate::arith::lemma_sum_step(sizes, i as int);
                crate::arith::lemma_sum_prefix(sizes, i as int + 1);
            }
            total = total + self.shards[i].total_bytes;
            i = i + 1;
        }
        proof {
            assert(sizes.take(sizes.len() as int) =~= sizes);
        }
        total
    }

    /// Bytes of one rank.
    pub fn rank_bytes(&self, rank: usize) -> (r: Option<usize>)
        ensures
            r == (if rank < self.shards@.len() {
                Some(self.shards@[rank as int].total_bytes)
            } else {
                None
            }),
    {
        if rank < self.shards.len() {
            Some(self.shards[rank].total_bytes)
        } else {
            None
        }
    }

    /// Gives up the model: lists the allocations of every rank to give back.
    pub fn dispose(self) -> (out: Vec<RankFree>)
        ensures
            out@ == flat(
                self.shards@.len(),
                |i: int| rank_frees(self.shards@[i].rank, self.shards@[i].spec_frees()),
            ),
    {
        let ghost all = self.shards@;
        let ghost f = |i: int| rank_frees(all[i].rank, all[i].spec_frees());
        let mut left = self.shards;
        let n: usize = left.len();
        let mut out: Vec<RankFree> = Vec::new();
        let mut i: usize = 0;
        while i < n
            invariant
                i <= n,
                n == all.len(),
                left@ == all.skip(i as int),
                f == (|i: int| rank_frees(all[i].rank, all[i].spec_frees())),
                out@ == flat(i as nat, f),
            decreases n - i,
        {
            let s = left.remove(0);
            proof {
                assert(s == all[i as int]);
                assert(left@ =~= all.skip(i as int + 1));
            }
            let rank = s.rank;
            let frees = s.dispose();
            push_rank_frees(rank, &frees, &mut out);
            i = i + 1;
        }
        out
    }
}

/// The model is the part that the options ask for, of what was brought.
pub open spec fn made_model(
    m: &Qwen3MoETpModel,
    config: Qwen3MoEConfig,
    layout: ModelLayout,
    tp: Qwen35DenseTpLayout,
    opts: &TpLoadOpts,
    device_ids: Seq<i32>,
    parts: Seq<TpRankParts>,
) -> bool {
    &&& m.config == config
    &&& m.layout == layout
    &&& m.tp == tp
    &&& m.layer_range.start == opts.start()
    &&& m.layer_range.end == opts.end(config.num_layers)
    &&& m.has_token_embd == opts.load_token_embd
    &&& m.has_output_head == opts.load_output_head
    &&& m.shards@.len() == parts.len()
    &&& forall|r: int|
        0 <= r < parts.len() ==> shard_of(
            #[trigger] &m.shards@[r],
            &parts[r],
            r as u32,
            &layout,
            opts.start() as nat,
            config.num_layers as nat,
        ) && m.shards@[r].device_id == device_ids[r]
}

/// The outcome of loading a model on a mesh.
pub open spec fn model_loaded(
    res: Result<Qwen3MoETpModel, LoadError>,
    config: Qwen3MoEConfig,
    layout: ModelLayout,
    tp: Qwen35DenseTpLayout,
    opts: &TpLoadOpts,
    device_ids: Seq<i32>,
    parts: Seq<TpRankParts>,
) -> bool {
    match range_error(config.num_layers, tp.spec_world(), opts, device_ids.len()) {
        Some(e) => res == Err::<Qwen3MoETpModel, LoadError>(e),
        None => match first_replicated(
            parts,
            opts.start() as nat,
            opts.start() as nat,
            opts.end(config.num_layers) as nat,
        ) {
            Some(il) if config.shared_expert_intermediate_size is Some => res == Err::<
                Qwen3MoETpModel,
                LoadError,
            >(LoadError::SharedFallback { layer: il as usize }),
            _ => res is Ok && made_model(
                &res->Ok_0,
                config,
                layout,
                tp,
                opts,
                device_ids,
                parts,
            ),
        },
    }
}

} // verus!
