//! Device-resident weights: which tensors a model holds on its device, what
//! they weigh, and in which order they are uploaded and released.

use crate::arith::{lemma_sum_concat, lemma_sum_prefix, lemma_sum_step, sum};
use crate::device::{DevicePtr, Free};
use crate::plan::flat;
use crate::tensor::GgmlDType;
use vstd::prelude::*;
use vstd::seq_lib::lemma_multiset_commutative;

verus! {

/// One tensor in device memory.
#[derive(Debug, Clone)]
pub struct DeviceTensor {
    pub ptr: DevicePtr,
    pub dtype: GgmlDType,
    pub dims: Vec<u64>,
    pub bytes: usize,
    pub name: String,
}

impl DeviceTensor {
    /// The tensor owns an allocation.
    pub open spec fn spec_is_live(&self) -> bool {
        self.ptr.0 != 0 && self.bytes > 0
    }

    /// Whether the tensor owns an allocation.
    pub fn is_live(&self) -> (r: bool)
        ensures
            r == self.spec_is_live(),
    {
        self.ptr.0 != 0 && self.bytes > 0
    }

    /// The tensor's allocation.
    pub open spec fn allocation(&self) -> Free {
        Free { ptr: self.ptr, bytes: self.bytes }
    }
}

/// Plain self-attention block.
#[derive(Debug, Clone)]
pub struct DenseAttnWeights {
    pub attn_q: DeviceTensor,
    pub attn_k: DeviceTensor,
    pub attn_v: DeviceTensor,
    pub attn_output: DeviceTensor,
    pub attn_q_norm: DeviceTensor,
    pub attn_k_norm: DeviceTensor,
    pub attn_q_bias: Option<DeviceTensor>,
    pub attn_k_bias: Option<DeviceTensor>,
    pub attn_v_bias: Option<DeviceTensor>,
}

/// Gated full-attention block.
#[derive(Debug, Clone)]
pub struct FullAttnWeights {
    pub attn_q: DeviceTensor,
    pub attn_k: DeviceTensor,
    pub attn_v: DeviceTensor,
    pub attn_output: DeviceTensor,
    pub attn_q_norm: DeviceTensor,
    pub attn_k_norm: DeviceTensor,
}

/// Gated-delta-net block.
#[derive(Debug, Clone)]
pub struct GdnWeights {
    pub attn_qkv: DeviceTensor,
    pub attn_gate: DeviceTensor,
    pub ssm_a: DeviceTensor,
    pub ssm_dt_bias: DeviceTensor,
    pub ssm_conv1d: DeviceTensor,
    pub ssm_norm: DeviceTensor,
    pub ssm_out: DeviceTensor,
    pub ssm_alpha: Option<DeviceTensor>,
    pub ssm_beta: Option<DeviceTensor>,
    pub ssm_ba: Option<DeviceTensor>,
}

/// Shared expert.
#[derive(Debug, Clone)]
pub struct SharedExpertWeights {
    pub ffn_gate_inp_shexp: DeviceTensor,
    pub ffn_gate_shexp: DeviceTensor,
    pub ffn_up_shexp: DeviceTensor,
    pub ffn_down_shexp: DeviceTensor,
}

/// Dense FFN block.
#[derive(Debug, Clone)]
pub struct DenseFfnWeights {
    pub ffn_gate: DeviceTensor,
    pub ffn_up: DeviceTensor,
    pub ffn_down: DeviceTensor,
}

/// The attention block of a layer.
#[derive(Debug, Clone)]
pub enum AttnWeights {
    Dense(DenseAttnWeights),
    FullAttn(FullAttnWeights),
    Gdn(GdnWeights),
}

/// The FFN of a layer: either `dense`, or the experts and perhaps `shared`.
#[derive(Debug, Clone)]
pub struct FfnWeights {
    pub ffn_gate_inp: Option<DeviceTensor>,
    pub ffn_gate_exps: Option<DeviceTensor>,
    pub ffn_up_exps: Option<DeviceTensor>,
    pub ffn_down_exps: Option<DeviceTensor>,
    pub shared: Option<SharedExpertWeights>,
    pub dense: Option<DenseFfnWeights>,
}

/// All weights of a layer.
#[derive(Debug, Clone)]
pub struct LayerWeights {
    pub layer_idx: usize,
    pub attn_norm: DeviceTensor,
    pub post_attention_norm: Option<DeviceTensor>,
    pub ffn_norm: Option<DeviceTensor>,
    pub attn: AttnWeights,
    pub ffn: FfnWeights,
}

/// An optional tensor as a list.
pub open spec fn opt_list(t: Option<DeviceTensor>) -> Seq<DeviceTensor> {
    match t {
        Some(t) => seq![t],
        None => seq![],
    }
}

impl DenseAttnWeights {
    /// The tensors of the block.
    pub open spec fn tensors(self) -> Seq<DeviceTensor> {
        seq![
            self.attn_q,
            self.attn_k,
            self.attn_v,
            self.attn_output,
            self.attn_q_norm,
            self.attn_k_norm,
        ] + opt_list(self.attn_q_bias) + opt_list(self.attn_k_bias) + opt_list(self.attn_v_bias)
    }
}

impl FullAttnWeights {
    /// The tensors of the block.
    pub open spec fn tensors(self) -> Seq<DeviceTensor> {
        seq![
            self.attn_q,
            self.attn_k,
            self.attn_v,
            self.attn_output,
            self.attn_q_norm,
            self.attn_k_norm,
        ]
    }
}

impl GdnWeights {
    /// The tensors of the block.
    pub open spec fn tensors(self) -> Seq<DeviceTensor> {
        seq![
            self.attn_qkv,
            self.attn_gate,
            self.ssm_a,
            self.ssm_dt_bias,
            self.ssm_conv1d,
            self.ssm_norm,
            self.ssm_out,
        ] + opt_list(self.ssm_alpha) + opt_list(self.ssm_beta) + opt_list(self.ssm_ba)
    }
}

impl SharedExpertWeights {
    /// The tensors of the block.
    pub open spec fn tensors(self) -> Seq<DeviceTensor> {
        seq![self.ffn_gate_inp_shexp, self.ffn_gate_shexp, self.ffn_up_shexp, self.ffn_down_shexp]
    }
}

impl DenseFfnWeights {
    /// The tensors of the block.
    pub open spec fn tensors(self) -> Seq<DeviceTensor> {
        seq![self.ffn_gate, self.ffn_up, self.ffn_down]
    }
}

impl AttnWeights {
    /// The tensors of the block.
    pub open spec fn tensors(self) -> Seq<DeviceTensor> {
        match self {
            AttnWeights::Dense(d) => d.tensors(),
            AttnWeights::FullAttn(f) => f.tensors(),
            AttnWeights::Gdn(g) => g.tensors(),
        }
    }
}

impl FfnWeights {
    pub open spec fn experts(self) -> Seq<DeviceTensor> {
        opt_list(self.ffn_gate_inp) + opt_list(self.ffn_gate_exps) + opt_list(self.ffn_up_exps)
            + opt_list(self.ffn_down_exps)
    }

    pub open spec fn shared_list(self) -> Seq<DeviceTensor> {
        match self.shared {
            Some(s) => s.tensors(),
            None => seq![],
        }
    }

    pub open spec fn dense_list(self) -> Seq<DeviceTensor> {
        match self.dense {
            Some(d) => d.tensors(),
            None => seq![],
        }
    }
}

impl LayerWeights {
    /// The norms of the layer.
    pub open spec fn norms(self) -> Seq<DeviceTensor> {
        seq![self.attn_norm] + opt_list(self.post_attention_norm) + opt_list(self.ffn_norm)
    }

    /// The tensors of the layer, the dense FFN before the shared expert.
    pub open spec fn tensors(self) -> Seq<DeviceTensor> {
        self.norms() + self.attn.tensors() + self.ffn.experts() + self.ffn.dense_list()
            + self.ffn.shared_list()
    }

    /// The tensors of the layer in the order in which they are released: the
    /// shared expert before the dense FFN.
    pub open spec fn release_order(self) -> Seq<DeviceTensor> {
        self.norms() + self.attn.tensors() + self.ffn.experts() + self.ffn.shared_list()
            + self.ffn.dense_list()
    }
}

/// The device-resident weights of a whole model.
#[derive(Debug)]
pub struct ModelWeights {
    pub token_embd: DeviceTensor,
    pub output_norm: DeviceTensor,
    pub output: Option<DeviceTensor>,
    pub layers: Vec<LayerWeights>,
    pub device_id: i32,
    pub total_bytes: usize,
    pub disposed: bool,
}

/// The bytes of each tensor of a list.
pub open spec fn sizes_of(ts: Seq<DeviceTensor>) -> Seq<nat> {
    Seq::new(ts.len(), |i: int| ts[i].bytes as nat)
}

/// The bytes of a list of tensors.
pub open spec fn bytes_of(ts: Seq<DeviceTensor>) -> nat {
    sum(sizes_of(ts))
}

/// The allocations of the live tensors of a list.
pub open spec fn live_allocations(ts: Seq<DeviceTensor>) -> Seq<Free>
    decreases ts.len(),
{
    if ts.len() == 0 {
        seq![]
    } else if ts.last().spec_is_live() {
        live_allocations(ts.drop_last()).push(ts.last().allocation())
    } else {
        live_allocations(ts.drop_last())
    }
}

/// A list of borrowed tensors as a list of tensors.
pub open spec fn targets(v: Seq<&DeviceTensor>) -> Seq<DeviceTensor> {
    Seq::new(v.len(), |i: int| *v[i])
}

pub(crate) fn push_opt<'a>(v: &mut Vec<&'a DeviceTensor>, t: &'a Option<DeviceTensor>)
    ensures
        targets(final(v)@) == targets(old(v)@) + opt_list(*t),
{
    if let Some(x) = t {
        v.push(x);
        proof {
            assert(targets(v@) =~= targets(old(v)@) + seq![*x]);
        }
    } else {
        proof {
            assert(targets(v@) =~= targets(old(v)@) + seq![]);
        }
    }
}

fn push_one<'a>(v: &mut Vec<&'a DeviceTensor>, t: &'a DeviceTensor)
    ensures
        targets(final(v)@) == targets(old(v)@).push(*t),
{
    v.push(t);
    proof {
        assert(targets(v@) =~= targets(old(v)@).push(*t));
    }
}

fn push_dense_attn<'a>(v: &mut Vec<&'a DeviceTensor>, b: &'a DenseAttnWeights)
    ensures
        targets(final(v)@) == targets(old(v)@) + b.tensors(),
{
    push_one(v, &b.attn_q);
    push_one(v, &b.attn_k);
    push_one(v, &b.attn_v);
    push_one(v, &b.attn_output);
    push_one(v, &b.attn_q_norm);
    push_one(v, &b.attn_k_norm);
    push_opt(v, &b.attn_q_bias);
    push_opt(v, &b.attn_k_bias);
    push_opt(v, &b.attn_v_bias);
    proof {
        assert(targets(v@) =~= targets(old(v)@) + b.tensors());
    }
}

fn push_full_attn<'a>(v: &mut Vec<&'a DeviceTensor>, b: &'a FullAttnWeights)
    ensures
        targets(final(v)@) == targets(old(v)@) + b.tensors(),
{
    push_one(v, &b.attn_q);
    push_one(v, &b.attn_k);
    push_one(v, &b.attn_v);
    push_one(v, &b.attn_output);
    push_one(v, &b.attn_q_norm);
    push_one(v, &b.attn_k_norm);
    proof {
        assert(targets(v@) =~= targets(old(v)@) + b.tensors());
    }
}

fn push_gdn<'a>(v: &mut Vec<&'a DeviceTensor>, b: &'a GdnWeights)
    ensures
        targets(final(v)@) == targets(old(v)@) + b.tensors(),
{
    push_one(v, &b.attn_qkv);
    push_one(v, &b.attn_gate);
    push_one(v, &b.ssm_a);
    push_one(v, &b.ssm_dt_bias);
    push_one(v, &b.ssm_conv1d);
    push_one(v, &b.ssm_norm);
    push_one(v, &b.ssm_out);
    push_opt(v, &b.ssm_alpha);
    push_opt(v, &b.ssm_beta);
    push_opt(v, &b.ssm_ba);
    proof {
        assert(targets(v@) =~= targets(old(v)@) + b.tensors());
    }
}

fn push_shared<'a>(v: &mut Vec<&'a DeviceTensor>, b: &'a SharedExpertWeights)
    ensures
        targets(final(v)@) == targets(old(v)@) + b.tensors(),
{
    push_one(v, &b.ffn_gate_inp_shexp);
    push_one(v, &b.ffn_gate_shexp);
    push_one(v, &b.ffn_up_shexp);
    push_one(v, &b.ffn_down_shexp);
    proof {
        assert(targets(v@) =~= targets(old(v)@) + b.tensors());
    }
}

fn push_dense_ffn<'a>(v: &mut Vec<&'a DeviceTensor>, b: &'a DenseFfnWeights)
    ensures
        targets(final(v)@) == targets(old(v)@) + b.tensors(),
{
    push_one(v, &b.ffn_gate);
    push_one(v, &b.ffn_up);
    push_one(v, &b.ffn_down);
    proof {
        assert(targets(v@) =~= targets(old(v)@) + b.tensors());
    }
}

fn push_norms<'a>(v: &mut Vec<&'a DeviceTensor>, l: &'a LayerWeights)
    ensures
        targets(final(v)@) == targets(old(v)@) + l.norms(),
{
    push_one(v, &l.attn_norm);
    push_opt(v, &l.post_attention_norm);
    push_opt(v, &l.ffn_norm);
    proof {
        assert(targets(v@) =~= targets(old(v)@) + l.norms());
    }
}

fn push_attn<'a>(v: &mut Vec<&'a DeviceTensor>, b: &'a AttnWeights)
    ensures
        targets(final(v)@) == targets(old(v)@) + b.tensors(),
{
    match b {
        AttnWeights::Dense(d) => push_dense_attn(v, d),
        AttnWeights::FullAttn(f) => push_full_attn(v, f),
        AttnWeights::Gdn(g) => push_gdn(v, g),
    }
}

fn push_experts<'a>(v: &mut Vec<&'a DeviceTensor>, f: &'a FfnWeights)
    ensures
        targets(final(v)@) == targets(old(v)@) + f.experts(),
{
    push_opt(v, &f.ffn_gate_inp);
    push_opt(v, &f.ffn_gate_exps);
    push_opt(v, &f.ffn_up_exps);
    push_opt(v, &f.ffn_down_exps);
    proof {
        assert(targets(v@) =~= targets(old(v)@) + f.experts());
    }
}

proof fn lemma_concat3<T>(z: Seq<T>, a: Seq<T>, b: Seq<T>, c: Seq<T>)
    ensures
        z + a + b + c == z + (a + b + c),
{
    assert(z + a + b + c =~= z + (a + b + c));
}

fn push_norms_and_attn<'a>(v: &mut Vec<&'a DeviceTensor>, l: &'a LayerWeights)
    ensures
        targets(final(v)@) == targets(old(v)@) + (l.norms() + l.attn.tensors() + l.ffn.experts()),
{
    push_norms(v, l);
    push_attn(v, &l.attn);
    push_experts(v, &l.ffn);
    proof {
        lemma_concat3(targets(old(v)@), l.norms(), l.attn.tensors(), l.ffn.experts());
    }
}

/// The tensors of a layer.
pub fn layer_iter<'a>(l: &'a LayerWeights) -> (r: Vec<&'a DeviceTensor>)
    ensures
        targets(r@) == l.tensors(),
{
    let mut v: Vec<&'a DeviceTensor> = Vec::new();
    proof {
        assert(targets(v@) =~= seq![]);
    }
    push_norms_and_attn(&mut v, l);
    if let Some(d) = &l.ffn.dense {
        push_dense_ffn(&mut v, d);
    }
    if let Some(s) = &l.ffn.shared {
        push_shared(&mut v, s);
    }
    proof {
        let head = l.norms() + l.attn.tensors() + l.ffn.experts();
        assert(seq![] + head =~= head);
        assert(head + l.ffn.dense_list() + l.ffn.shared_list() =~= l.tensors());
        assert(targets(v@) =~= head + l.ffn.dense_list() + l.ffn.shared_list());
    }
    v
}

/// The tensors of a layer in the order in which they are released.
pub fn layer_release_order<'a>(l: &'a LayerWeights) -> (r: Vec<&'a DeviceTensor>)
    ensures
        targets(r@) == l.release_order(),
{
    let mut v: Vec<&'a DeviceTensor> = Vec::new();
    proof {
        assert(targets(v@) =~= seq![]);
    }
    push_norms_and_attn(&mut v, l);
    if let Some(s) = &l.ffn.shared {
        push_shared(&mut v, s);
    }
    if let Some(d) = &l.ffn.dense {
        push_dense_ffn(&mut v, d);
    }
    proof {
        let head = l.norms() + l.attn.tensors() + l.ffn.experts();
        assert(seq![] + head =~= head);
        assert(targets(v@) =~= head + l.ffn.shared_list() + l.ffn.dense_list());
    }
    v
}

pub(crate) fn append_refs<'a>(v: &mut Vec<&'a DeviceTensor>, w: Vec<&'a DeviceTensor>)
    ensures
        targets(final(v)@) == targets(old(v)@) + targets(w@),
{
    let ghost tail = w@;
    let mut w = w;
    v.append(&mut w);
    proof {
        assert(targets(v@) =~= targets(old(v)@) + targets(tail));
    }
}

/// The bytes of a list of tensors.
pub fn sum_bytes(v: &Vec<&DeviceTensor>) -> (r: usize)
    requires
        bytes_of(targets(v@)) <= usize::MAX,
    ensures
        r == bytes_of(targets(v@)),
{
    let mut total: usize = 0;
    let mut i: usize = 0;
    let ghost sizes = sizes_of(targets(v@));
    proof {
        assert(sizes.take(0) =~= Seq::<nat>::empty());
    }
    while i < v.len()
        invariant
            i <= v@.len(),
            sizes == sizes_of(targets(v@)),
            sum(sizes) <= usize::MAX,
            total == sum(sizes.take(i as int)),
        decreases v@.len() - i,
    {
        proof {
            lemma_sum_step(sizes, i as int);
            lemma_sum_prefix(sizes, i as int + 1);
        }
        total = total + v[i].bytes;
        i = i + 1;
    }
    proof {
        assert(sizes.take(sizes.len() as int) =~= sizes);
    }
    total
}

/// The allocations of the live tensors of a list, in order.
pub fn collect_live(v: &Vec<&DeviceTensor>) -> (r: Vec<Free>)
    ensures
        r@ == live_allocations(targets(v@)),
{
    let mut out: Vec<Free> = Vec::new();
    let mut i: usize = 0;
    let ghost ts = targets(v@);
    proof {
        assert(ts.take(0) =~= seq![]);
    }
    while i < v.len()
        invariant
            i <= v@.len(),
            ts == targets(v@),
            out@ == live_allocations(ts.take(i as int)),
        decreases v@.len() - i,
    {
        proof {
            assert(ts.take(i as int + 1).drop_last() =~= ts.take(i as int));
            assert(ts.take(i as int + 1).last() == *v@[i as int]);
        }
        if v[i].is_live() {
            out.push(Free { ptr: v[i].ptr, bytes: v[i].bytes });
        }
        i = i + 1;
    }
    proof {
        assert(ts.take(ts.len() as int) =~= ts);
    }
    out
}

impl ModelWeights {
    /// The global tensors.
    pub open spec fn globals(&self) -> Seq<DeviceTensor> {
        seq![self.token_embd, self.output_norm] + opt_list(self.output)
    }

    /// Every tensor of the model.
    pub open spec fn tensors(&self) -> Seq<DeviceTensor> {
        let ls = self.layers@;
        self.globals() + flat(ls.len(), |i: int| ls[i].tensors())
    }

    /// Every tensor of the model in the order in which they are released.
    pub open spec fn release_order(&self) -> Seq<DeviceTensor> {
        let ls = self.layers@;
        self.globals() + flat(ls.len(), |i: int| ls[i].release_order())
    }

    /// A model made of tensors that are on the device already.
    pub fn from_parts(
        device_id: i32,
        token_embd: DeviceTensor,
        output_norm: DeviceTensor,
        output: Option<DeviceTensor>,
        layers: Vec<LayerWeights>,
    ) -> (r: Self)
        requires
            bytes_of(
                seq![token_embd, output_norm] + opt_list(output) + flat(
                    layers@.len(),
                    |i: int| layers@[i].tensors(),
                ),
            ) <= usize::MAX,
        ensures
            r.token_embd == token_embd,
            r.output_norm == output_norm,
            r.output == output,
            r.layers == layers,
            r.device_id == device_id,
            r.total_bytes == bytes_of(r.tensors()),
            !r.disposed,
    {
        let mut this = ModelWeights {
            token_embd,
            output_norm,
            output,
            layers,
            device_id,
            total_bytes: 0,
            disposed: false,
        };
        let total: usize = sum_bytes(&this.iter_tensors());
        this.total_bytes = total;
        this
    }

    pub fn device_id(&self) -> (r: i32)
        ensures
            r == self.device_id,
    {
        self.device_id
    }

    /// Bytes on the device.
    pub fn total_bytes(&self) -> (r: usize)
        ensures
            r == self.total_bytes,
    {
        self.total_bytes
    }

    fn global_refs(&self) -> (v: Vec<&DeviceTensor>)
        ensures
            targets(v@) == self.globals(),
    {
        let mut v: Vec<&DeviceTensor> = Vec::new();
        proof {
            assert(targets(v@) =~= seq![]);
        }
        push_one(&mut v, &self.token_embd);
        push_one(&mut v, &self.output_norm);
        push_opt(&mut v, &self.output);
        proof {
            assert(targets(v@) =~= self.globals());
        }
        v
    }

    /// Every tensor of the model.
    pub fn iter_tensors(&self) -> (r: Vec<&DeviceTensor>)
        ensures
            targets(r@) == self.tensors(),
    {
        let mut v = self.global_refs();
        let mut i: usize = 0;
        let ghost ls = self.layers@;
        let ghost f = |i: int| ls[i].tensors();
        proof {
            assert(targets(v@) =~= self.globals() + flat(0, f));
        }
        while i < self.layers.len()
            invariant
                i <= self.layers@.len(),
                ls == self.layers@,
                f == (|i: int| ls[i].tensors()),
                targets(v@) == self.globals() + flat(i as nat, f),
            decreases self.layers@.len() - i,
        {
            append_refs(&mut v, layer_iter(&self.layers[i]));
            proof {
                assert(targets(v@) =~= self.globals() + flat((i + 1) as nat, f));
            }
            i = i + 1;
        }
        v
    }

    /// Every tensor of the model in the order in which they are released.
    pub fn iter_release_order(&self) -> (r: Vec<&DeviceTensor>)
        ensures
            targets(r@) == self.release_order(),
    {
        let mut v = self.global_refs();
        let mut i: usize = 0;
        let ghost ls = self.layers@;
        let ghost f = |i: int| ls[i].release_order();
        proof {
            assert(targets(v@) =~= self.globals() + flat(0, f));
        }
        while i < self.layers.len()
            invariant
                i <= self.layers@.len(),
                ls == self.layers@,
                f == (|i: int| ls[i].release_order()),
                targets(v@) == self.globals() + flat(i as nat, f),
            decreases self.layers@.len() - i,
        {
            append_refs(&mut v, layer_release_order(&self.layers[i]));
            proof {
                assert(targets(v@) =~= self.globals() + flat((i + 1) as nat, f));
            }
            i = i + 1;
        }
        v
    }

    /// Gives up the model's allocations: returns those to release, once. A
    /// second call returns none.
    pub fn dispose(&mut self) -> (r: Vec<Free>)
        ensures
            *final(self) == (ModelWeights { disposed: true, ..*old(self) }),
            r@ == (if old(self).disposed {
                seq![]
            } else {
                live_allocations(old(self).release_order())
            }),
    {
        if self.disposed {
            return Vec::new();
        }
        self.disposed = true;
        let v = self.iter_release_order();
        collect_live(&v)
    }
}

/// Lists weigh what their parts weigh.
pub proof fn lemma_bytes_concat(a: Seq<DeviceTensor>, b: Seq<DeviceTensor>)
    ensures
        bytes_of(a + b) == bytes_of(a) + bytes_of(b),
{
    assert(sizes_of(a + b) =~= sizes_of(a) + sizes_of(b));
    lemma_sum_concat(sizes_of(a), sizes_of(b));
}

/// A layer weighs the same in either order.
proof fn lemma_layer_orders_weigh_same(l: LayerWeights)
    ensures
        bytes_of(l.tensors()) == bytes_of(l.release_order()),
{
    let head = l.norms() + l.attn.tensors() + l.ffn.experts();
    let d = l.ffn.dense_list();
    let s = l.ffn.shared_list();
    lemma_bytes_concat(head + d, s);
    lemma_bytes_concat(head, d);
    lemma_bytes_concat(head + s, d);
    lemma_bytes_concat(head, s);
}

/// A layer holds the same tensors in either order.
proof fn lemma_layer_orders_hold_same(l: LayerWeights)
    ensures
        l.tensors().to_multiset() == l.release_order().to_multiset(),
{
    let head = l.norms() + l.attn.tensors() + l.ffn.experts();
    let d = l.ffn.dense_list();
    let s = l.ffn.shared_list();
    lemma_multiset_commutative(head + d, s);
    lemma_multiset_commutative(head, d);
    lemma_multiset_commutative(head + s, d);
    lemma_multiset_commutative(head, s);
    assert(l.tensors().to_multiset() =~= l.release_order().to_multiset());
}

proof fn lemma_flat_orders_hold_same(ls: Seq<LayerWeights>, n: nat)
    requires
        n <= ls.len(),
    ensures
        flat(n, |i: int| ls[i].tensors()).to_multiset() == flat(
            n,
            |i: int| ls[i].release_order(),
        ).to_multiset(),
    decreases n,
{
    let f = |i: int| ls[i].tensors();
    let g = |i: int| ls[i].release_order();
    if n > 0 {
        lemma_flat_orders_hold_same(ls, (n - 1) as nat);
        lemma_layer_orders_hold_same(ls[n - 1]);
        lemma_multiset_commutative(flat((n - 1) as nat, f), f(n - 1));
        lemma_multiset_commutative(flat((n - 1) as nat, g), g(n - 1));
    }
}

proof fn lemma_flat_orders_weigh_same(ls: Seq<LayerWeights>, n: nat)
    requires
        n <= ls.len(),
    ensures
        bytes_of(flat(n, |i: int| ls[i].tensors())) == bytes_of(
            flat(n, |i: int| ls[i].release_order()),
        ),
    decreases n,
{
    let f = |i: int| ls[i].tensors();
    let g = |i: int| ls[i].release_order();
    if n > 0 {
        lemma_flat_orders_weigh_same(ls, (n - 1) as nat);
        lemma_layer_orders_weigh_same(ls[n - 1]);
        lemma_bytes_concat(flat((n - 1) as nat, f), f(n - 1));
        lemma_bytes_concat(flat((n - 1) as nat, g), g(n - 1));
    }
}

/// What is released is exactly what is held, each tensor as often as it is
/// held, and weighs the same.
pub proof fn law_release_covers_all(m: ModelWeights)
    ensures
        m.release_order().to_multiset() == m.tensors().to_multiset(),
        bytes_of(m.release_order()) == bytes_of(m.tensors()),
{
    let ls = m.layers@;
    lemma_bytes_concat(m.globals(), flat(ls.len(), |i: int| ls[i].tensors()));
    lemma_bytes_concat(m.globals(), flat(ls.len(), |i: int| ls[i].release_order()));
    lemma_flat_orders_weigh_same(ls, ls.len());
    lemma_multiset_commutative(m.globals(), flat(ls.len(), |i: int| ls[i].tensors()));
    lemma_multiset_commutative(m.globals(), flat(ls.len(), |i: int| ls[i].release_order()));
    lemma_flat_orders_hold_same(ls, ls.len());
}

} // verus!
