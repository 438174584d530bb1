//! What a step of the multi-token-prediction head computes, and what it keeps.

use crate::config::Qwen3MoEConfig;
use crate::device::DevicePtr;
use crate::mtp::{step_fits, MtpForwardScratch, MtpHeadWeights, MtpKvCache};
use crate::mtp_forward::{
    addresses_fit, attend_steps, enter_bf16_steps, enter_steps, head_norm_steps, kv_slot,
    leave_bf16_steps, leave_steps, lemma_products_fit, mtp_bf16_steps, mtp_steps, rope_steps,
    step_run, steps_run, Act, MtpOp, MtpStep,
};
use crate::mtp_values::{
    after_attention, effect, effects, entering, gated, key, kind_of, leaving, made1, made2, norm,
    product, q_and_gate, query, slots_at, value, How, Kind, Piece, Val,
};
use crate::plan::{each, lemma_each_ones};
use vstd::prelude::*;

verus! {

/// The operation of a step that has a kernel.
pub open spec fn op_of(s: MtpStep) -> MtpOp {
    match s {
        MtpStep::Plain(op) => op,
        MtpStep::Linear { w, x, out, rows, cols } => MtpOp::Mmvq {
            weight: w.ptr,
            x,
            out,
            rows,
            cols,
            dtype: w.dtype,
        },
        MtpStep::Head { w, x, out, rows, cols } => MtpOp::Mmvq {
            weight: w.ptr,
            x,
            out,
            rows,
            cols,
            dtype: w.dtype,
        },
    }
}

/// The buffers that a step of the head works in, and where its row goes.
pub open spec fn work(cfg: Qwen3MoEConfig, s: MtpForwardScratch, out: DevicePtr) -> Seq<int> {
    seq![
        s.fc_in_f16.0 as int,
        s.fc_in_f16.0 + cfg.hidden_size * 2,
        s.fc_in_q8_1.0 as int,
        s.h0_f32.0 as int,
        s.h0_f16.0 as int,
        s.h0n_q8_1.0 as int,
        s.q_full_f32.0 as int,
        s.q_full_f16.0 as int,
        s.q_f16.0 as int,
        s.gate_f16.0 as int,
        s.k_f32.0 as int,
        s.v_f32.0 as int,
        s.k_f16.0 as int,
        s.v_f16.0 as int,
        s.attn_out_f16.0 as int,
        s.gated_out_f16.0 as int,
        s.gated_q8_1.0 as int,
        s.attn_proj_f32.0 as int,
        s.h1_f16.0 as int,
        s.h1n_q8_1.0 as int,
        s.gate_mlp_f32.0 as int,
        s.up_mlp_f32.0 as int,
        s.mlp_q8_1.0 as int,
        s.mlp_bf16.0 as int,
        s.down_f32.0 as int,
        s.h2_f16.0 as int,
        out.0 as int,
    ]
}

/// The number of a buffer, or -1 for any other place.
#[verifier::opaque]
pub open spec fn label(w: Seq<int>, a: int) -> int {
    if exists|i: int| 0 <= i < w.len() && w[i] == a {
        choose|i: int| 0 <= i < w.len() && w[i] == a
    } else {
        -1
    }
}

/// No two of the buffers begin at the same place.
pub open spec fn differ(w: Seq<int>) -> bool {
    forall|i: int, j: int|
        0 <= i < w.len() && 0 <= j < w.len() && i != j ==> #[trigger] w[i] != #[trigger] w[j]
}

/// Every buffer has its own number.
spec fn labelled(cfg: Qwen3MoEConfig, s: MtpForwardScratch, out: DevicePtr, w: Seq<int>) -> bool {
    &&& label(w, s.fc_in_f16.0 as int) == 0
    &&& label(w, s.fc_in_f16.0 + cfg.hidden_size * 2) == 1
    &&& label(w, s.fc_in_q8_1.0 as int) == 2
    &&& label(w, s.h0_f32.0 as int) == 3
    &&& label(w, s.h0_f16.0 as int) == 4
    &&& label(w, s.h0n_q8_1.0 as int) == 5
    &&& label(w, s.q_full_f32.0 as int) == 6
    &&& label(w, s.q_full_f16.0 as int) == 7
    &&& label(w, s.q_f16.0 as int) == 8
    &&& label(w, s.gate_f16.0 as int) == 9
    &&& label(w, s.k_f32.0 as int) == 10
    &&& label(w, s.v_f32.0 as int) == 11
    &&& label(w, s.k_f16.0 as int) == 12
    &&& label(w, s.v_f16.0 as int) == 13
    &&& label(w, s.attn_out_f16.0 as int) == 14
    &&& label(w, s.gated_out_f16.0 as int) == 15
    &&& label(w, s.gated_q8_1.0 as int) == 16
    &&& label(w, s.attn_proj_f32.0 as int) == 17
    &&& label(w, s.h1_f16.0 as int) == 18
    &&& label(w, s.h1n_q8_1.0 as int) == 19
    &&& label(w, s.gate_mlp_f32.0 as int) == 20
    &&& label(w, s.up_mlp_f32.0 as int) == 21
    &&& label(w, s.mlp_q8_1.0 as int) == 22
    &&& label(w, s.mlp_bf16.0 as int) == 23
    &&& label(w, s.down_f32.0 as int) == 24
    &&& label(w, s.h2_f16.0 as int) == 25
    &&& label(w, out.0 as int) == 26
}

proof fn lemma_labelled(cfg: Qwen3MoEConfig, s: MtpForwardScratch, out: DevicePtr, w: Seq<int>)
    requires
        w == work(cfg, s, out),
        differ(w),
    ensures
        labelled(cfg, s, out, w),
{
    reveal(label);
    assert forall|i: int| 0 <= i < w.len() implies label(w, #[trigger] w[i]) == i by {
        let k = choose|k: int| 0 <= k < w.len() && w[k] == w[i];
        assert(w[k] == w[i]);
    }
    assert(label(w, w[0]) == 0);
    assert(label(w, w[1]) == 1);
    assert(label(w, w[2]) == 2);
    assert(label(w, w[3]) == 3);
    assert(label(w, w[4]) == 4);
    assert(label(w, w[5]) == 5);
    assert(label(w, w[6]) == 6);
    assert(label(w, w[7]) == 7);
    assert(label(w, w[8]) == 8);
    assert(label(w, w[9]) == 9);
    assert(label(w, w[10]) == 10);
    assert(label(w, w[11]) == 11);
    assert(label(w, w[12]) == 12);
    assert(label(w, w[13]) == 13);
    assert(label(w, w[14]) == 14);
    assert(label(w, w[15]) == 15);
    assert(label(w, w[16]) == 16);
    assert(label(w, w[17]) == 17);
    assert(label(w, w[18]) == 18);
    assert(label(w, w[19]) == 19);
    assert(label(w, w[20]) == 20);
    assert(label(w, w[21]) == 21);
    assert(label(w, w[22]) == 22);
    assert(label(w, w[23]) == 23);
    assert(label(w, w[24]) == 24);
    assert(label(w, w[25]) == 25);
    assert(label(w, w[26]) == 26);
}

/// Places outside the buffers hold what they held.
spec fn outside_kept(w: Seq<int>, before: Map<int, Piece>, now: Map<int, Piece>) -> bool {
    forall|a: int| label(w, a) == -1 ==> #[trigger] now[a] == before[a]
}

/// The row that enters the block has been made, and Q, its gate, K and V from it.
spec fn entered(
    cfg: Qwen3MoEConfig,
    mtp: MtpHeadWeights,
    s: MtpForwardScratch,
    mem: Map<int, Piece>,
    x: Val,
    act: Act,
) -> bool {
    let nq = cfg.num_heads * cfg.head_dim;
    let nkv = cfg.num_kv_heads * cfg.head_dim;
    let n = cfg.hidden_size;
    let kind = kind_of(act);
    &&& mem[s.h0_f32.0 as int] == (Piece { val: x, kind: Kind::Single, n: n as int })
    &&& mem[s.q_f16.0 as int] == (Piece {
        val: made1(
            How::Query { heads: cfg.num_heads, head_dim: cfg.head_dim },
            q_and_gate(cfg, mtp, x),
        ),
        kind,
        n: nq,
    })
    &&& mem[s.gate_f16.0 as int] == (Piece {
        val: made1(
            How::Gate { heads: cfg.num_heads, head_dim: cfg.head_dim },
            q_and_gate(cfg, mtp, x),
        ),
        kind,
        n: nq,
    })
    &&& mem[s.k_f16.0 as int] == (Piece {
        val: product(
            mtp.block.k_proj.ptr,
            nkv,
            n as int,
            norm(cfg, mtp.block.input_layernorm.ptr, 1, n, x),
        ),
        kind,
        n: nkv,
    })
    &&& mem[s.v_f16.0 as int] == (Piece { val: value(cfg, mtp, x), kind, n: nkv })
}

/// The norm before the block.
spec fn first_norm(cfg: Qwen3MoEConfig, mtp: MtpHeadWeights, x: Val) -> Val {
    norm(cfg, mtp.block.input_layernorm.ptr, 1, cfg.hidden_size, x)
}

/// Q, as it is parted from the factors that gate it.
spec fn split_q(cfg: Qwen3MoEConfig, mtp: MtpHeadWeights, x: Val) -> Val {
    made1(
        How::Query { heads: cfg.num_heads, head_dim: cfg.head_dim },
        q_and_gate(cfg, mtp, x),
    )
}

/// The factors that gate the attention, as they are parted from Q.
spec fn split_gate(cfg: Qwen3MoEConfig, mtp: MtpHeadWeights, x: Val) -> Val {
    made1(
        How::Gate { heads: cfg.num_heads, head_dim: cfg.head_dim },
        q_and_gate(cfg, mtp, x),
    )
}

/// K before it is normed and rotated.
spec fn plain_key(cfg: Qwen3MoEConfig, mtp: MtpHeadWeights, x: Val) -> Val {
    product(
        mtp.block.k_proj.ptr,
        cfg.num_kv_heads * cfg.head_dim,
        cfg.hidden_size as int,
        first_norm(cfg, mtp, x),
    )
}

/// The FFN up to its last product.
spec fn widened(cfg: Qwen3MoEConfig, mtp: MtpHeadWeights, y: Val) -> Val {
    let n = cfg.hidden_size;
    let inter = cfg.moe_intermediate_size as int;
    let ny = norm(cfg, mtp.block.post_attention_layernorm.ptr, 1, n, y);
    made2(
        How::Swiglu,
        product(mtp.block.gate_proj.ptr, inter, n as int, ny),
        product(mtp.block.up_proj.ptr, inter, n as int, ny),
    )
}

/// One row has as many elements as columns.
proof fn lemma_one_row(rows: usize, cols: usize)
    requires
        rows == 1,
    ensures
        rows * cols == cols,
{
    assert(rows * cols == cols) by (nonlinear_arith)
        requires
            rows == 1,
    ;
}

/// The memory after the steps from `lo` up to `hi`.
spec fn seg(mem: Map<int, Piece>, all: Seq<MtpStep>, lo: nat, hi: nat) -> Map<int, Piece>
    decreases hi,
{
    if hi <= lo {
        mem
    } else {
        effect(seg(mem, all, lo, (hi - 1) as nat), op_of(all[hi - 1]))
    }
}

proof fn lemma_seg_split(mem: Map<int, Piece>, all: Seq<MtpStep>, lo: nat, mid: nat, hi: nat)
    requires
        lo <= mid <= hi,
    ensures
        seg(mem, all, lo, hi) == seg(seg(mem, all, lo, mid), all, mid, hi),
    decreases hi,
{
    if mid < hi {
        lemma_seg_split(mem, all, lo, mid, (hi - 1) as nat);
    }
}

/// From the embedding and the hidden row to the row that enters the block.
proof fn lemma_join(
    cfg: Qwen3MoEConfig,
    mtp: MtpHeadWeights,
    s: MtpForwardScratch,
    h_t: DevicePtr,
    e_token: DevicePtr,
    out: DevicePtr,
    mem: Map<int, Piece>,
)
    requires
        step_fits(&cfg),
        labelled(cfg, s, out, work(cfg, s, out)),
        s.fc_in_f16.0 + cfg.hidden_size * 2 <= usize::MAX,
        h_t != s.fc_in_f16,
        mem[e_token.0 as int].kind == Kind::Half,
        mem[e_token.0 as int].n == cfg.hidden_size,
        mem[h_t.0 as int].kind == Kind::Half,
        mem[h_t.0 as int].n == cfg.hidden_size,
    ensures
        ({
            let all = enter_steps(&cfg, &mtp, &s, h_t, e_token);
            let now = seg(mem, all, 0, 4);
            &&& now[s.h0_f32.0 as int] == (Piece {
                val: entering(cfg, mtp, mem[e_token.0 as int].val, mem[h_t.0 as int].val),
                kind: Kind::Single,
                n: cfg.hidden_size as int,
            })
            &&& outside_kept(work(cfg, s, out), mem, now)
        }),
{
    lemma_products_fit(&cfg);
    lemma_one_row(1, cfg.hidden_size);
    let all = enter_steps(&cfg, &mtp, &s, h_t, e_token);
    let n = cfg.hidden_size as int;
    let w = work(cfg, s, out);
    let e = mem[e_token.0 as int].val;
    let h = mem[h_t.0 as int].val;
    let m0 = mem;
    assert(seg(mem, all, 0, 0) == m0);
    let m1 = effect(m0, op_of(all[0]));
    assert(seg(mem, all, 0, 1) == m1);
    let m2 = effect(m1, op_of(all[1]));
    assert(seg(mem, all, 0, 2) == m2);
    let m3 = effect(m2, op_of(all[2]));
    assert(seg(mem, all, 0, 3) == m3);
    let m4 = effect(m3, op_of(all[3]));
    assert(seg(mem, all, 0, 4) == m4);
    assert(m2[s.fc_in_f16.0 as int].val == norm(
        cfg,
        mtp.pre_fc_norm_embedding.ptr,
        1,
        cfg.hidden_size,
        e,
    ));
    assert(m2[s.fc_in_f16.0 + n * 2].val == norm(
        cfg,
        mtp.pre_fc_norm_hidden.ptr,
        1,
        cfg.hidden_size,
        h,
    ));
}

/// The norm before the block.
proof fn lemma_first_norm(
    cfg: Qwen3MoEConfig,
    mtp: MtpHeadWeights,
    s: MtpForwardScratch,
    h_t: DevicePtr,
    e_token: DevicePtr,
    out: DevicePtr,
    mem: Map<int, Piece>,
    x: Val,
)
    requires
        step_fits(&cfg),
        labelled(cfg, s, out, work(cfg, s, out)),
        mem[s.h0_f32.0 as int] == (Piece {
            val: x,
            kind: Kind::Single,
            n: cfg.hidden_size as int,
        }),
    ensures
        ({
            let all = enter_steps(&cfg, &mtp, &s, h_t, e_token);
            let now = seg(mem, all, 4, 6);
            &&& now[s.h0_f32.0 as int] == mem[s.h0_f32.0 as int]
            &&& now[s.h0n_q8_1.0 as int] == (Piece {
                val: first_norm(cfg, mtp, x),
                kind: Kind::Q8,
                n: cfg.hidden_size as int,
            })
            &&& outside_kept(work(cfg, s, out), mem, now)
        }),
{
    lemma_products_fit(&cfg);
    lemma_one_row(1, cfg.hidden_size);
    let all = enter_steps(&cfg, &mtp, &s, h_t, e_token);
    let n = cfg.hidden_size as int;
    let w = work(cfg, s, out);
    let m4 = mem;
    assert(seg(mem, all, 4, 4) == m4);
    let m5 = effect(m4, op_of(all[4]));
    assert(seg(mem, all, 4, 5) == m5);
    let m6 = effect(m5, op_of(all[5]));
    assert(seg(mem, all, 4, 6) == m6);
}

/// Q and its gate.
proof fn lemma_q(
    cfg: Qwen3MoEConfig,
    mtp: MtpHeadWeights,
    s: MtpForwardScratch,
    h_t: DevicePtr,
    e_token: DevicePtr,
    out: DevicePtr,
    mem: Map<int, Piece>,
    x: Val,
)
    requires
        step_fits(&cfg),
        labelled(cfg, s, out, work(cfg, s, out)),
        mem[s.h0n_q8_1.0 as int] == (Piece {
            val: first_norm(cfg, mtp, x),
            kind: Kind::Q8,
            n: cfg.hidden_size as int,
        }),
    ensures
        ({
            let all = enter_steps(&cfg, &mtp, &s, h_t, e_token);
            let now = seg(mem, all, 6, 9);
            &&& now[s.h0_f32.0 as int] == mem[s.h0_f32.0 as int]
            &&& now[s.h0n_q8_1.0 as int] == mem[s.h0n_q8_1.0 as int]
            &&& now[s.q_f16.0 as int] == (Piece {
                val: split_q(cfg, mtp, x),
                kind: Kind::Half,
                n: cfg.num_heads * cfg.head_dim,
            })
            &&& now[s.gate_f16.0 as int] == (Piece {
                val: split_gate(cfg, mtp, x),
                kind: Kind::Half,
                n: cfg.num_heads * cfg.head_dim,
            })
            &&& outside_kept(work(cfg, s, out), mem, now)
        }),
{
    lemma_products_fit(&cfg);
    lemma_one_row(1, cfg.hidden_size);
    let all = enter_steps(&cfg, &mtp, &s, h_t, e_token);
    let n = cfg.hidden_size as int;
    let w = work(cfg, s, out);
    let m6 = mem;
    assert(seg(mem, all, 6, 6) == m6);
    let m7 = effect(m6, op_of(all[6]));
    assert(seg(mem, all, 6, 7) == m7);
    let m8 = effect(m7, op_of(all[7]));
    assert(seg(mem, all, 6, 8) == m8);
    let m9 = effect(m8, op_of(all[8]));
    assert(seg(mem, all, 6, 9) == m9);
}

/// K and V.
proof fn lemma_kv(
    cfg: Qwen3MoEConfig,
    mtp: MtpHeadWeights,
    s: MtpForwardScratch,
    h_t: DevicePtr,
    e_token: DevicePtr,
    out: DevicePtr,
    mem: Map<int, Piece>,
    x: Val,
)
    requires
        step_fits(&cfg),
        labelled(cfg, s, out, work(cfg, s, out)),
        mem[s.h0n_q8_1.0 as int] == (Piece {
            val: first_norm(cfg, mtp, x),
            kind: Kind::Q8,
            n: cfg.hidden_size as int,
        }),
    ensures
        ({
            let all = enter_steps(&cfg, &mtp, &s, h_t, e_token);
            let now = seg(mem, all, 9, 13);
            &&& now[s.h0_f32.0 as int] == mem[s.h0_f32.0 as int]
            &&& now[s.q_f16.0 as int] == mem[s.q_f16.0 as int]
            &&& now[s.gate_f16.0 as int] == mem[s.gate_f16.0 as int]
            &&& now[s.k_f16.0 as int] == (Piece {
                val: plain_key(cfg, mtp, x),
                kind: Kind::Half,
                n: cfg.num_kv_heads * cfg.head_dim,
            })
            &&& now[s.v_f16.0 as int] == (Piece {
                val: value(cfg, mtp, x),
                kind: Kind::Half,
                n: cfg.num_kv_heads * cfg.head_dim,
            })
            &&& outside_kept(work(cfg, s, out), mem, now)
        }),
{
    lemma_products_fit(&cfg);
    lemma_one_row(1, cfg.hidden_size);
    let all = enter_steps(&cfg, &mtp, &s, h_t, e_token);
    let n = cfg.hidden_size as int;
    let w = work(cfg, s, out);
    let m9 = mem;
    assert(seg(mem, all, 9, 9) == m9);
    let m10 = effect(m9, op_of(all[9]));
    assert(seg(mem, all, 9, 10) == m10);
    let m11 = effect(m10, op_of(all[10]));
    assert(seg(mem, all, 9, 11) == m11);
    let m12 = effect(m11, op_of(all[11]));
    assert(seg(mem, all, 9, 12) == m12);
    let m13 = effect(m12, op_of(all[12]));
    assert(seg(mem, all, 9, 13) == m13);
}

/// From the embedding and the hidden row to Q, K and V.
proof fn lemma_enter(
    cfg: Qwen3MoEConfig,
    mtp: MtpHeadWeights,
    s: MtpForwardScratch,
    h_t: DevicePtr,
    e_token: DevicePtr,
    out: DevicePtr,
    mem: Map<int, Piece>,
)
    requires
        step_fits(&cfg),
        labelled(cfg, s, out, work(cfg, s, out)),
        s.fc_in_f16.0 + cfg.hidden_size * 2 <= usize::MAX,
        h_t != s.fc_in_f16,
        mem[e_token.0 as int].kind == Kind::Half,
        mem[e_token.0 as int].n == cfg.hidden_size,
        mem[h_t.0 as int].kind == Kind::Half,
        mem[h_t.0 as int].n == cfg.hidden_size,
    ensures
        ({
            let all = enter_steps(&cfg, &mtp, &s, h_t, e_token);
            let now = seg(mem, all, 0, 13);
            &&& entered(
                cfg,
                mtp,
                s,
                now,
                entering(cfg, mtp, mem[e_token.0 as int].val, mem[h_t.0 as int].val),
                Act::Half,
            )
            &&& outside_kept(work(cfg, s, out), mem, now)
        }),
{
    let all = enter_steps(&cfg, &mtp, &s, h_t, e_token);
    let x = entering(cfg, mtp, mem[e_token.0 as int].val, mem[h_t.0 as int].val);
    lemma_seg_split(mem, all, 0, 4, 13);
    let m1 = seg(mem, all, 0, 4);
    lemma_seg_split(m1, all, 4, 6, 13);
    let m2 = seg(m1, all, 4, 6);
    lemma_seg_split(m2, all, 6, 9, 13);
    let m3 = seg(m2, all, 6, 9);
    lemma_join(cfg, mtp, s, h_t, e_token, out, mem);
    lemma_first_norm(cfg, mtp, s, h_t, e_token, out, m1, x);
    lemma_q(cfg, mtp, s, h_t, e_token, out, m2, x);
    lemma_kv(cfg, mtp, s, h_t, e_token, out, m3, x);
}

/// From the embedding and the hidden row to the row that enters the block.
proof fn lemma_join_bf16(
    cfg: Qwen3MoEConfig,
    mtp: MtpHeadWeights,
    s: MtpForwardScratch,
    h_t: DevicePtr,
    e_token: DevicePtr,
    out: DevicePtr,
    mem: Map<int, Piece>,
)
    requires
        step_fits(&cfg),
        labelled(cfg, s, out, work(cfg, s, out)),
        s.fc_in_f16.0 + cfg.hidden_size * 2 <= usize::MAX,
        h_t != s.fc_in_f16,
        mem[e_token.0 as int].kind == Kind::Half,
        mem[e_token.0 as int].n == cfg.hidden_size,
        mem[h_t.0 as int].kind == Kind::Half,
        mem[h_t.0 as int].n == cfg.hidden_size,
    ensures
        ({
            let all = enter_bf16_steps(&cfg, &mtp, &s, h_t, e_token);
            let now = seg(mem, all, 0, 5);
            &&& now[s.h0_f32.0 as int] == (Piece {
                val: entering(cfg, mtp, mem[e_token.0 as int].val, mem[h_t.0 as int].val),
                kind: Kind::Single,
                n: cfg.hidden_size as int,
            })
            &&& outside_kept(work(cfg, s, out), mem, now)
        }),
{
    lemma_products_fit(&cfg);
    lemma_one_row(1, cfg.hidden_size);
    let all = enter_bf16_steps(&cfg, &mtp, &s, h_t, e_token);
    let n = cfg.hidden_size as int;
    let w = work(cfg, s, out);
    let e = mem[e_token.0 as int].val;
    let h = mem[h_t.0 as int].val;
    let m0 = mem;
    assert(seg(mem, all, 0, 0) == m0);
    let m1 = effect(m0, op_of(all[0]));
    assert(seg(mem, all, 0, 1) == m1);
    let m2 = effect(m1, op_of(all[1]));
    assert(seg(mem, all, 0, 2) == m2);
    let m3 = effect(m2, op_of(all[2]));
    assert(seg(mem, all, 0, 3) == m3);
    let m4 = effect(m3, op_of(all[3]));
    assert(seg(mem, all, 0, 4) == m4);
    let m5 = effect(m4, op_of(all[4]));
    assert(seg(mem, all, 0, 5) == m5);
    assert(m4[s.fc_in_f16.0 as int].val == norm(
        cfg,
        mtp.pre_fc_norm_embedding.ptr,
        1,
        cfg.hidden_size,
        e,
    ));
    assert(m4[s.fc_in_f16.0 + n * 2].val == norm(
        cfg,
        mtp.pre_fc_norm_hidden.ptr,
        1,
        cfg.hidden_size,
        h,
    ));
}

/// The norm before the block.
proof fn lemma_first_norm_bf16(
    cfg: Qwen3MoEConfig,
    mtp: MtpHeadWeights,
    s: MtpForwardScratch,
    h_t: DevicePtr,
    e_token: DevicePtr,
    out: DevicePtr,
    mem: Map<int, Piece>,
    x: Val,
)
    requires
        step_fits(&cfg),
        labelled(cfg, s, out, work(cfg, s, out)),
        mem[s.h0_f32.0 as int] == (Piece {
            val: x,
            kind: Kind::Single,
            n: cfg.hidden_size as int,
        }),
    ensures
        ({
            let all = enter_bf16_steps(&cfg, &mtp, &s, h_t, e_token);
            let now = seg(mem, all, 5, 7);
            &&& now[s.h0_f32.0 as int] == mem[s.h0_f32.0 as int]
            &&& now[s.h0_f16.0 as int] == (Piece {
                val: first_norm(cfg, mtp, x),
                kind: Kind::Bf16,
                n: cfg.hidden_size as int,
            })
            &&& outside_kept(work(cfg, s, out), mem, now)
        }),
{
    lemma_products_fit(&cfg);
    lemma_one_row(1, cfg.hidden_size);
    let all = enter_bf16_steps(&cfg, &mtp, &s, h_t, e_token);
    let n = cfg.hidden_size as int;
    let w = work(cfg, s, out);
    let m5 = mem;
    assert(seg(mem, all, 5, 5) == m5);
    let m6 = effect(m5, op_of(all[5]));
    assert(seg(mem, all, 5, 6) == m6);
    let m7 = effect(m6, op_of(all[6]));
    assert(seg(mem, all, 5, 7) == m7);
}

/// Q and its gate.
proof fn lemma_q_bf16(
    cfg: Qwen3MoEConfig,
    mtp: MtpHeadWeights,
    s: MtpForwardScratch,
    h_t: DevicePtr,
    e_token: DevicePtr,
    out: DevicePtr,
    mem: Map<int, Piece>,
    x: Val,
)
    requires
        step_fits(&cfg),
        labelled(cfg, s, out, work(cfg, s, out)),
        mem[s.h0_f16.0 as int] == (Piece {
            val: first_norm(cfg, mtp, x),
            kind: Kind::Bf16,
            n: cfg.hidden_size as int,
        }),
    ensures
        ({
            let all = enter_bf16_steps(&cfg, &mtp, &s, h_t, e_token);
            let now = seg(mem, all, 7, 10);
            &&& now[s.h0_f32.0 as int] == mem[s.h0_f32.0 as int]
            &&& now[s.h0_f16.0 as int] == mem[s.h0_f16.0 as int]
            &&& now[s.q_f16.0 as int] == (Piece {
                val: split_q(cfg, mtp, x),
                kind: Kind::Bf16,
                n: cfg.num_heads * cfg.head_dim,
            })
            &&& now[s.gate_f16.0 as int] == (Piece {
                val: split_gate(cfg, mtp, x),
                kind: Kind::Bf16,
                n: cfg.num_heads * cfg.head_dim,
            })
            &&& outside_kept(work(cfg, s, out), mem, now)
        }),
{
    lemma_products_fit(&cfg);
    lemma_one_row(1, cfg.hidden_size);
    let all = enter_bf16_steps(&cfg, &mtp, &s, h_t, e_token);
    let n = cfg.hidden_size as int;
    let w = work(cfg, s, out);
    let m7 = mem;
    assert(seg(mem, all, 7, 7) == m7);
    let m8 = effect(m7, op_of(all[7]));
    assert(seg(mem, all, 7, 8) == m8);
    let m9 = effect(m8, op_of(all[8]));
    assert(seg(mem, all, 7, 9) == m9);
    let m10 = effect(m9, op_of(all[9]));
    assert(seg(mem, all, 7, 10) == m10);
}

/// K and V.
proof fn lemma_kv_bf16(
    cfg: Qwen3MoEConfig,
    mtp: MtpHeadWeights,
    s: MtpForwardScratch,
    h_t: DevicePtr,
    e_token: DevicePtr,
    out: DevicePtr,
    mem: Map<int, Piece>,
    x: Val,
)
    requires
        step_fits(&cfg),
        labelled(cfg, s, out, work(cfg, s, out)),
        mem[s.h0_f16.0 as int] == (Piece {
            val: first_norm(cfg, mtp, x),
            kind: Kind::Bf16,
            n: cfg.hidden_size as int,
        }),
    ensures
        ({
            let all = enter_bf16_steps(&cfg, &mtp, &s, h_t, e_token);
            let now = seg(mem, all, 10, 14);
            &&& now[s.h0_f32.0 as int] == mem[s.h0_f32.0 as int]
            &&& now[s.q_f16.0 as int] == mem[s.q_f16.0 as int]
            &&& now[s.gate_f16.0 as int] == mem[s.gate_f16.0 as int]
            &&& now[s.k_f16.0 as int] == (Piece {
                val: plain_key(cfg, mtp, x),
                kind: Kind::Bf16,
                n: cfg.num_kv_heads * cfg.head_dim,
            })
            &&& now[s.v_f16.0 as int] == (Piece {
                val: value(cfg, mtp, x),
                kind: Kind::Bf16,
                n: cfg.num_kv_heads * cfg.head_dim,
            })
            &&& outside_kept(work(cfg, s, out), mem, now)
        }),
{
    lemma_products_fit(&cfg);
    lemma_one_row(1, cfg.hidden_size);
    let all = enter_bf16_steps(&cfg, &mtp, &s, h_t, e_token);
    let n = cfg.hidden_size as int;
    let w = work(cfg, s, out);
    let m10 = mem;
    assert(seg(mem, all, 10, 10) == m10);
    let m11 = effect(m10, op_of(all[10]));
    assert(seg(mem, all, 10, 11) == m11);
    let m12 = effect(m11, op_of(all[11]));
    assert(seg(mem, all, 10, 12) == m12);
    let m13 = effect(m12, op_of(all[12]));
    assert(seg(mem, all, 10, 13) == m13);
    let m14 = effect(m13, op_of(all[13]));
    assert(seg(mem, all, 10, 14) == m14);
}

/// From the embedding and the hidden row to Q, K and V.
proof fn lemma_enter_bf16(
    cfg: Qwen3MoEConfig,
    mtp: MtpHeadWeights,
    s: MtpForwardScratch,
    h_t: DevicePtr,
    e_token: DevicePtr,
    out: DevicePtr,
    mem: Map<int, Piece>,
)
    requires
        step_fits(&cfg),
        labelled(cfg, s, out, work(cfg, s, out)),
        s.fc_in_f16.0 + cfg.hidden_size * 2 <= usize::MAX,
        h_t != s.fc_in_f16,
        mem[e_token.0 as int].kind == Kind::Half,
        mem[e_token.0 as int].n == cfg.hidden_size,
        mem[h_t.0 as int].kind == Kind::Half,
        mem[h_t.0 as int].n == cfg.hidden_size,
    ensures
        ({
            let all = enter_bf16_steps(&cfg, &mtp, &s, h_t, e_token);
            let now = seg(mem, all, 0, 14);
            &&& entered(
                cfg,
                mtp,
                s,
                now,
                entering(cfg, mtp, mem[e_token.0 as int].val, mem[h_t.0 as int].val),
                Act::Bf16,
            )
            &&& outside_kept(work(cfg, s, out), mem, now)
        }),
{
    let all = enter_bf16_steps(&cfg, &mtp, &s, h_t, e_token);
    let x = entering(cfg, mtp, mem[e_token.0 as int].val, mem[h_t.0 as int].val);
    lemma_seg_split(mem, all, 0, 5, 14);
    let m1 = seg(mem, all, 0, 5);
    lemma_seg_split(m1, all, 5, 7, 14);
    let m2 = seg(m1, all, 5, 7);
    lemma_seg_split(m2, all, 7, 10, 14);
    let m3 = seg(m2, all, 7, 10);
    lemma_join_bf16(cfg, mtp, s, h_t, e_token, out, mem);
    lemma_first_norm_bf16(cfg, mtp, s, h_t, e_token, out, m1, x);
    lemma_q_bf16(cfg, mtp, s, h_t, e_token, out, m2, x);
    lemma_kv_bf16(cfg, mtp, s, h_t, e_token, out, m3, x);
}

/// Q, its gate, K and V are ready for the attention.
spec fn ready(
    cfg: Qwen3MoEConfig,
    mtp: MtpHeadWeights,
    s: MtpForwardScratch,
    mem: Map<int, Piece>,
    x: Val,
    position: usize,
    act: Act,
) -> bool {
    let nq = cfg.num_heads * cfg.head_dim;
    let nkv = cfg.num_kv_heads * cfg.head_dim;
    let kind = kind_of(act);
    &&& mem[s.h0_f32.0 as int] == (Piece {
        val: x,
        kind: Kind::Single,
        n: cfg.hidden_size as int,
    })
    &&& mem[s.q_f16.0 as int] == (Piece { val: query(cfg, mtp, x, position), kind, n: nq })
    &&& mem[s.gate_f16.0 as int] == (Piece {
        val: made1(
            How::Gate { heads: cfg.num_heads, head_dim: cfg.head_dim },
            q_and_gate(cfg, mtp, x),
        ),
        kind,
        n: nq,
    })
    &&& mem[s.k_f16.0 as int] == (Piece { val: key(cfg, mtp, x, position), kind, n: nkv })
    &&& mem[s.v_f16.0 as int] == (Piece { val: value(cfg, mtp, x), kind, n: nkv })
}

/// Norming and rotating Q and K.
proof fn lemma_turn(
    cfg: Qwen3MoEConfig,
    mtp: MtpHeadWeights,
    s: MtpForwardScratch,
    out: DevicePtr,
    mem: Map<int, Piece>,
    x: Val,
    position: usize,
    act: Act,
)
    requires
        labelled(cfg, s, out, work(cfg, s, out)),
        entered(cfg, mtp, s, mem, x, act),
    ensures
        ({
            let a = head_norm_steps(&cfg, &mtp, &s, act);
            let b = rope_steps(&cfg, &s, act, position);
            let now = seg(seg(mem, a, 0, 2), b, 0, b.len());
            &&& ready(cfg, mtp, s, now, x, position, act)
            &&& outside_kept(work(cfg, s, out), mem, now)
        }),
{
    let w = work(cfg, s, out);
    let all = head_norm_steps(&cfg, &mtp, &s, act);
    let b = rope_steps(&cfg, &s, act, position);
    let m0 = mem;
    assert(seg(mem, all, 0, 0) == m0);
    let m1 = effect(m0, op_of(all[0]));
    assert(seg(mem, all, 0, 1) == m1);
    let m2 = effect(m1, op_of(all[1]));
    assert(seg(mem, all, 0, 2) == m2);
    if position == 0 {
        assert(b =~= seq![]);
        assert(seg(m2, b, 0, 0) == m2);
    } else {
        assert(b.len() == 2);
        assert(seg(m2, b, 0, 0) == m2);
        let m3 = effect(m2, op_of(b[0]));
        assert(seg(m2, b, 0, 1) == m3);
        let m4 = effect(m3, op_of(b[1]));
        assert(seg(m2, b, 0, 2) == m4);
    }
}

/// The K or V of the slots behind `base`, with the step's own in the slot that it fills.
pub open spec fn slots_seen(
    mem: Map<int, Piece>,
    base: DevicePtr,
    bytes: int,
    n: nat,
    own: usize,
    val: Val,
) -> Seq<Val> {
    Seq::new(
        n,
        |j: int|
            if j == own {
                val
            } else {
                mem[base.0 + j * bytes].val
            },
    )
}

/// Where the K and the V of slot `j` lie.
pub open spec fn slot_place(base: DevicePtr, bytes: int, j: int) -> int {
    base.0 + j * bytes
}

/// A slot of the caches that the step fills or attends to.
pub open spec fn slot_used(own: usize, n: usize, j: int) -> bool {
    j == own || 0 <= j < n
}

/// The buffers for K, for V and the slot that the step fills, and how many slots it attends
/// to. Without a cache these are the two slots of the working memory.
pub open spec fn caches_of(s: MtpForwardScratch, kv: Option<MtpKvCache>) -> (
    DevicePtr,
    DevicePtr,
    usize,
    usize,
) {
    match kv {
        Some(c) => (c.kcache, c.vcache, c.cache_position, c.n_tokens_kv),
        None => (s.kcache_slot_f16, s.vcache_slot_f16, 0, 1),
    }
}

/// The slots of K and of V are different places, and none is a buffer of the step.
pub open spec fn slots_apart(
    cfg: Qwen3MoEConfig,
    s: MtpForwardScratch,
    out: DevicePtr,
    kv: Option<MtpKvCache>,
) -> bool {
    let (k, v, own, n) = caches_of(s, kv);
    let bytes = cfg.num_kv_heads * cfg.head_dim * 2;
    &&& bytes > 0
    &&& forall|i: int, j: int|
        slot_used(own, n, i) && slot_used(own, n, j) ==> #[trigger] slot_place(k, bytes, i)
            != #[trigger] slot_place(v, bytes, j)
    &&& forall|i: int|
        slot_used(own, n, i) ==> !work(cfg, s, out).contains(#[trigger] slot_place(k, bytes, i))
    &&& forall|i: int|
        slot_used(own, n, i) ==> !work(cfg, s, out).contains(#[trigger] slot_place(v, bytes, i))
}

proof fn lemma_unlabelled(w: Seq<int>, a: int)
    requires
        !w.contains(a),
    ensures
        label(w, a) == -1,
{
    reveal(label);
}

/// Storing K and V, attending, and gating.
proof fn lemma_attend(
    cfg: Qwen3MoEConfig,
    mtp: MtpHeadWeights,
    s: MtpForwardScratch,
    out: DevicePtr,
    mem: Map<int, Piece>,
    x: Val,
    position: usize,
    act: Act,
    kv: Option<MtpKvCache>,
)
    requires
        addresses_fit(&cfg, &s, kv),
        labelled(cfg, s, out, work(cfg, s, out)),
        slots_apart(cfg, s, out, kv),
        ready(cfg, mtp, s, mem, x, position, act),
    ensures
        ({
            let now = seg(mem, attend_steps(&cfg, &s, act, kv), 0, 4);
            let (k, v, own, n) = caches_of(s, kv);
            let bytes = cfg.num_kv_heads * cfg.head_dim * 2;
            let ks = slots_seen(mem, k, bytes, n as nat, own, key(cfg, mtp, x, position));
            let vs = slots_seen(mem, v, bytes, n as nat, own, value(cfg, mtp, x));
            &&& now[s.gated_out_f16.0 as int] == (Piece {
                val: gated(cfg, mtp, x, position, ks, vs),
                kind: kind_of(act),
                n: cfg.num_heads * cfg.head_dim,
            })
            &&& now[s.h0_f32.0 as int] == mem[s.h0_f32.0 as int]
            &&& now[slot_place(k, bytes, own as int)].val == key(cfg, mtp, x, position)
            &&& now[slot_place(v, bytes, own as int)].val == value(cfg, mtp, x)
            &&& forall|a: int|
                label(work(cfg, s, out), a) == -1 && a != slot_place(k, bytes, own as int) && a
                    != slot_place(v, bytes, own as int) ==> #[trigger] now[a] == mem[a]
        }),
{
    lemma_products_fit(&cfg);
    let w = work(cfg, s, out);
    let (k, v, own, n) = caches_of(s, kv);
    let bytes = cfg.num_kv_heads * cfg.head_dim * 2;
    let (kd, vd) = kv_slot(&cfg, &s, kv);
    let ka = slot_place(k, bytes, own as int);
    let va = slot_place(v, bytes, own as int);
    assert(slot_used(own, n, own as int));
    assert(0 * bytes == 0) by (nonlinear_arith);
    assert(kd.0 == ka && vd.0 == va);
    lemma_unlabelled(w, ka);
    lemma_unlabelled(w, va);
    let all = attend_steps(&cfg, &s, act, kv);
    let m0 = mem;
    assert(seg(mem, all, 0, 0) == m0);
    let m1 = effect(m0, op_of(all[0]));
    assert(seg(mem, all, 0, 1) == m1);
    let m2 = effect(m1, op_of(all[1]));
    assert(seg(mem, all, 0, 2) == m2);
    let m3 = effect(m2, op_of(all[2]));
    assert(seg(mem, all, 0, 3) == m3);
    let m4 = effect(m3, op_of(all[3]));
    assert(seg(mem, all, 0, 4) == m4);
    let own_k = key(cfg, mtp, x, position);
    let own_v = value(cfg, mtp, x);
    assert(m2[ka].val == own_k && m2[va].val == own_v);
    let ks = slots_seen(mem, k, bytes, n as nat, own, own_k);
    let vs = slots_seen(mem, v, bytes, n as nat, own, own_v);
    assert forall|j: int| 0 <= j < n implies #[trigger] slots_at(m2, k, bytes, n as nat)[j]
        == ks[j] by {
        assert(slot_used(own, n, j));
        lemma_slots_differ(k, bytes, j, own as int);
        assert(slot_place(k, bytes, j) != va);
    }
    assert forall|j: int| 0 <= j < n implies #[trigger] slots_at(m2, v, bytes, n as nat)[j]
        == vs[j] by {
        assert(slot_used(own, n, j));
        lemma_slots_differ(v, bytes, j, own as int);
        assert(slot_place(v, bytes, j) != ka);
    }
    assert(slots_at(m2, k, bytes, n as nat) =~= ks);
    assert(slots_at(m2, v, bytes, n as nat) =~= vs);
}

/// Different slots are different places.
proof fn lemma_slots_differ(base: DevicePtr, bytes: int, i: int, j: int)
    requires
        bytes > 0,
    ensures
        i != j ==> slot_place(base, bytes, i) != slot_place(base, bytes, j),
{
    if i != j {
        assert(i * bytes != j * bytes) by (nonlinear_arith)
            requires
                bytes > 0,
                i != j,
        ;
    }
}

/// The projection of the attention joins the row.
proof fn lemma_project(
    cfg: Qwen3MoEConfig,
    mtp: MtpHeadWeights,
    s: MtpForwardScratch,
    out: DevicePtr,
    mem: Map<int, Piece>,
    x: Val,
    g: Val,
)
    requires
        step_fits(&cfg),
        labelled(cfg, s, out, work(cfg, s, out)),
        mem[s.h0_f32.0 as int] == (Piece {
            val: x,
            kind: Kind::Single,
            n: cfg.hidden_size as int,
        }),
        mem[s.gated_out_f16.0 as int] == (Piece {
            val: g,
            kind: Kind::Half,
            n: cfg.num_heads * cfg.head_dim,
        }),
    ensures
        ({
            let all = leave_steps(&cfg, &mtp, &s, out);
            let now = seg(mem, all, 0, 3);
            &&& now[s.attn_proj_f32.0 as int] == (Piece {
                val: after_attention(cfg, mtp, x, g),
                kind: Kind::Single,
                n: cfg.hidden_size as int,
            })
            &&& outside_kept(work(cfg, s, out), mem, now)
        }),
{
    lemma_products_fit(&cfg);
    lemma_one_row(1, cfg.hidden_size);
    let all = leave_steps(&cfg, &mtp, &s, out);
    let n = cfg.hidden_size as int;
    let w = work(cfg, s, out);
    let m0 = mem;
    assert(seg(mem, all, 0, 0) == m0);
    let m1 = effect(m0, op_of(all[0]));
    assert(seg(mem, all, 0, 1) == m1);
    let m2 = effect(m1, op_of(all[1]));
    assert(seg(mem, all, 0, 2) == m2);
    let m3 = effect(m2, op_of(all[2]));
    assert(seg(mem, all, 0, 3) == m3);
}

/// The norm before the FFN, and the FFN up to its last product.
proof fn lemma_widen(
    cfg: Qwen3MoEConfig,
    mtp: MtpHeadWeights,
    s: MtpForwardScratch,
    out: DevicePtr,
    mem: Map<int, Piece>,
    y: Val,
)
    requires
        step_fits(&cfg),
        labelled(cfg, s, out, work(cfg, s, out)),
        mem[s.attn_proj_f32.0 as int] == (Piece {
            val: y,
            kind: Kind::Single,
            n: cfg.hidden_size as int,
        }),
    ensures
        ({
            let all = leave_steps(&cfg, &mtp, &s, out);
            let now = seg(mem, all, 3, 8);
            &&& now[s.attn_proj_f32.0 as int] == mem[s.attn_proj_f32.0 as int]
            &&& now[s.mlp_q8_1.0 as int] == (Piece {
                val: widened(cfg, mtp, y),
                kind: Kind::Q8,
                n: cfg.moe_intermediate_size as int,
            })
            &&& outside_kept(work(cfg, s, out), mem, now)
        }),
{
    lemma_products_fit(&cfg);
    lemma_one_row(1, cfg.hidden_size);
    let all = leave_steps(&cfg, &mtp, &s, out);
    let n = cfg.hidden_size as int;
    let w = work(cfg, s, out);
    let m3 = mem;
    assert(seg(mem, all, 3, 3) == m3);
    let m4 = effect(m3, op_of(all[3]));
    assert(seg(mem, all, 3, 4) == m4);
    let m5 = effect(m4, op_of(all[4]));
    assert(seg(mem, all, 3, 5) == m5);
    let m6 = effect(m5, op_of(all[5]));
    assert(seg(mem, all, 3, 6) == m6);
    let m7 = effect(m6, op_of(all[6]));
    assert(seg(mem, all, 3, 7) == m7);
    let m8 = effect(m7, op_of(all[7]));
    assert(seg(mem, all, 3, 8) == m8);
}

/// The last product of the FFN joins the row, which is then normed.
proof fn lemma_finish(
    cfg: Qwen3MoEConfig,
    mtp: MtpHeadWeights,
    s: MtpForwardScratch,
    out: DevicePtr,
    mem: Map<int, Piece>,
    y: Val,
)
    requires
        step_fits(&cfg),
        labelled(cfg, s, out, work(cfg, s, out)),
        mem[s.attn_proj_f32.0 as int] == (Piece {
            val: y,
            kind: Kind::Single,
            n: cfg.hidden_size as int,
        }),
        mem[s.mlp_q8_1.0 as int] == (Piece {
            val: widened(cfg, mtp, y),
            kind: Kind::Q8,
            n: cfg.moe_intermediate_size as int,
        }),
    ensures
        ({
            let all = leave_steps(&cfg, &mtp, &s, out);
            let now = seg(mem, all, 8, 13);
            &&& now[out.0 as int] == (Piece {
                val: leaving(cfg, mtp, y),
                kind: Kind::Half,
                n: cfg.hidden_size as int,
            })
            &&& outside_kept(work(cfg, s, out), mem, now)
        }),
{
    lemma_products_fit(&cfg);
    lemma_one_row(1, cfg.hidden_size);
    let all = leave_steps(&cfg, &mtp, &s, out);
    let n = cfg.hidden_size as int;
    let w = work(cfg, s, out);
    let m8 = mem;
    assert(seg(mem, all, 8, 8) == m8);
    let m9 = effect(m8, op_of(all[8]));
    assert(seg(mem, all, 8, 9) == m9);
    let m10 = effect(m9, op_of(all[9]));
    assert(seg(mem, all, 8, 10) == m10);
    let m11 = effect(m10, op_of(all[10]));
    assert(seg(mem, all, 8, 11) == m11);
    let m12 = effect(m11, op_of(all[11]));
    assert(seg(mem, all, 8, 12) == m12);
    let m13 = effect(m12, op_of(all[12]));
    assert(seg(mem, all, 8, 13) == m13);
}

/// From the gated attention to the row that leaves the head.
proof fn lemma_leave(
    cfg: Qwen3MoEConfig,
    mtp: MtpHeadWeights,
    s: MtpForwardScratch,
    out: DevicePtr,
    mem: Map<int, Piece>,
    x: Val,
    g: Val,
)
    requires
        step_fits(&cfg),
        labelled(cfg, s, out, work(cfg, s, out)),
        mem[s.h0_f32.0 as int] == (Piece {
            val: x,
            kind: Kind::Single,
            n: cfg.hidden_size as int,
        }),
        mem[s.gated_out_f16.0 as int] == (Piece {
            val: g,
            kind: Kind::Half,
            n: cfg.num_heads * cfg.head_dim,
        }),
    ensures
        ({
            let now = seg(mem, leave_steps(&cfg, &mtp, &s, out), 0, 13);
            &&& now[out.0 as int] == (Piece {
                val: leaving(cfg, mtp, after_attention(cfg, mtp, x, g)),
                kind: Kind::Half,
                n: cfg.hidden_size as int,
            })
            &&& outside_kept(work(cfg, s, out), mem, now)
        }),
{
    let all = leave_steps(&cfg, &mtp, &s, out);
    let y = after_attention(cfg, mtp, x, g);
    lemma_seg_split(mem, all, 0, 3, 13);
    let m1 = seg(mem, all, 0, 3);
    lemma_seg_split(m1, all, 3, 8, 13);
    let m2 = seg(m1, all, 3, 8);
    lemma_project(cfg, mtp, s, out, mem, x, g);
    lemma_widen(cfg, mtp, s, out, m1, y);
    lemma_finish(cfg, mtp, s, out, m2, y);
}

/// The projection of the attention joins the row.
proof fn lemma_project_bf16(
    cfg: Qwen3MoEConfig,
    mtp: MtpHeadWeights,
    s: MtpForwardScratch,
    out: DevicePtr,
    mem: Map<int, Piece>,
    x: Val,
    g: Val,
)
    requires
        step_fits(&cfg),
        labelled(cfg, s, out, work(cfg, s, out)),
        mem[s.h0_f32.0 as int] == (Piece {
            val: x,
            kind: Kind::Single,
            n: cfg.hidden_size as int,
        }),
        mem[s.gated_out_f16.0 as int] == (Piece {
            val: g,
            kind: Kind::Bf16,
            n: cfg.num_heads * cfg.head_dim,
        }),
    ensures
        ({
            let all = leave_bf16_steps(&cfg, &mtp, &s, out);
            let now = seg(mem, all, 0, 2);
            &&& now[s.attn_proj_f32.0 as int] == (Piece {
                val: after_attention(cfg, mtp, x, g),
                kind: Kind::Single,
                n: cfg.hidden_size as int,
            })
            &&& outside_kept(work(cfg, s, out), mem, now)
        }),
{
    lemma_products_fit(&cfg);
    lemma_one_row(1, cfg.hidden_size);
    let all = leave_bf16_steps(&cfg, &mtp, &s, out);
    let n = cfg.hidden_size as int;
    let w = work(cfg, s, out);
    let m0 = mem;
    assert(seg(mem, all, 0, 0) == m0);
    let m1 = effect(m0, op_of(all[0]));
    assert(seg(mem, all, 0, 1) == m1);
    let m2 = effect(m1, op_of(all[1]));
    assert(seg(mem, all, 0, 2) == m2);
}

/// The norm before the FFN, and the FFN up to its last product.
proof fn lemma_widen_bf16(
    cfg: Qwen3MoEConfig,
    mtp: MtpHeadWeights,
    s: MtpForwardScratch,
    out: DevicePtr,
    mem: Map<int, Piece>,
    y: Val,
)
    requires
        step_fits(&cfg),
        labelled(cfg, s, out, work(cfg, s, out)),
        mem[s.attn_proj_f32.0 as int] == (Piece {
            val: y,
            kind: Kind::Single,
            n: cfg.hidden_size as int,
        }),
    ensures
        ({
            let all = leave_bf16_steps(&cfg, &mtp, &s, out);
            let now = seg(mem, all, 2, 7);
            &&& now[s.attn_proj_f32.0 as int] == mem[s.attn_proj_f32.0 as int]
            &&& now[s.mlp_bf16.0 as int] == (Piece {
                val: widened(cfg, mtp, y),
                kind: Kind::Bf16,
                n: cfg.moe_intermediate_size as int,
            })
            &&& outside_kept(work(cfg, s, out), mem, now)
        }),
{
    lemma_products_fit(&cfg);
    lemma_one_row(1, cfg.hidden_size);
    let all = leave_bf16_steps(&cfg, &mtp, &s, out);
    let n = cfg.hidden_size as int;
    let w = work(cfg, s, out);
    let m2 = mem;
    assert(seg(mem, all, 2, 2) == m2);
    let m3 = effect(m2, op_of(all[2]));
    assert(seg(mem, all, 2, 3) == m3);
    let m4 = effect(m3, op_of(all[3]));
    assert(seg(mem, all, 2, 4) == m4);
    let m5 = effect(m4, op_of(all[4]));
    assert(seg(mem, all, 2, 5) == m5);
    let m6 = effect(m5, op_of(all[5]));
    assert(seg(mem, all, 2, 6) == m6);
    let m7 = effect(m6, op_of(all[6]));
    assert(seg(mem, all, 2, 7) == m7);
}

/// The last product of the FFN joins the row, which is then normed.
proof fn lemma_finish_bf16(
    cfg: Qwen3MoEConfig,
    mtp: MtpHeadWeights,
    s: MtpForwardScratch,
    out: DevicePtr,
    mem: Map<int, Piece>,
    y: Val,
)
    requires
        step_fits(&cfg),
        labelled(cfg, s, out, work(cfg, s, out)),
        mem[s.attn_proj_f32.0 as int] == (Piece {
            val: y,
            kind: Kind::Single,
            n: cfg.hidden_size as int,
        }),
        mem[s.mlp_bf16.0 as int] == (Piece {
            val: widened(cfg, mtp, y),
            kind: Kind::Bf16,
            n: cfg.moe_intermediate_size as int,
        }),
    ensures
        ({
            let all = leave_bf16_steps(&cfg, &mtp, &s, out);
            let now = seg(mem, all, 7, 13);
            &&& now[out.0 as int] == (Piece {
                val: leaving(cfg, mtp, y),
                kind: Kind::Half,
                n: cfg.hidden_size as int,
            })
            &&& outside_kept(work(cfg, s, out), mem, now)
        }),
{
    lemma_products_fit(&cfg);
    lemma_one_row(1, cfg.hidden_size);
    let all = leave_bf16_steps(&cfg, &mtp, &s, out);
    let n = cfg.hidden_size as int;
    let w = work(cfg, s, out);
    let m7 = mem;
    assert(seg(mem, all, 7, 7) == m7);
    let m8 = effect(m7, op_of(all[7]));
    assert(seg(mem, all, 7, 8) == m8);
    let m9 = effect(m8, op_of(all[8]));
    assert(seg(mem, all, 7, 9) == m9);
    let m10 = effect(m9, op_of(all[9]));
    assert(seg(mem, all, 7, 10) == m10);
    let m11 = effect(m10, op_of(all[10]));
    assert(seg(mem, all, 7, 11) == m11);
    let m12 = effect(m11, op_of(all[11]));
    assert(seg(mem, all, 7, 12) == m12);
    let m13 = effect(m12, op_of(all[12]));
    assert(seg(mem, all, 7, 13) == m13);
}

/// From the gated attention to the row that leaves the head.
proof fn lemma_leave_bf16(
    cfg: Qwen3MoEConfig,
    mtp: MtpHeadWeights,
    s: MtpForwardScratch,
    out: DevicePtr,
    mem: Map<int, Piece>,
    x: Val,
    g: Val,
)
    requires
        step_fits(&cfg),
        labelled(cfg, s, out, work(cfg, s, out)),
        mem[s.h0_f32.0 as int] == (Piece {
            val: x,
            kind: Kind::Single,
            n: cfg.hidden_size as int,
        }),
        mem[s.gated_out_f16.0 as int] == (Piece {
            val: g,
            kind: Kind::Bf16,
            n: cfg.num_heads * cfg.head_dim,
        }),
    ensures
        ({
            let now = seg(mem, leave_bf16_steps(&cfg, &mtp, &s, out), 0, 13);
            &&& now[out.0 as int] == (Piece {
                val: leaving(cfg, mtp, after_attention(cfg, mtp, x, g)),
                kind: Kind::Half,
                n: cfg.hidden_size as int,
            })
            &&& outside_kept(work(cfg, s, out), mem, now)
        }),
{
    let all = leave_bf16_steps(&cfg, &mtp, &s, out);
    let y = after_attention(cfg, mtp, x, g);
    lemma_seg_split(mem, all, 0, 2, 13);
    let m1 = seg(mem, all, 0, 2);
    lemma_seg_split(m1, all, 2, 7, 13);
    let m2 = seg(m1, all, 2, 7);
    lemma_project_bf16(cfg, mtp, s, out, mem, x, g);
    lemma_widen_bf16(cfg, mtp, s, out, m1, y);
    lemma_finish_bf16(cfg, mtp, s, out, m2, y);
}

proof fn lemma_seg_same(
    mem: Map<int, Piece>,
    all: Seq<MtpStep>,
    part: Seq<MtpStep>,
    lo: nat,
    k: nat,
)
    requires
        forall|i: int| 0 <= i < k ==> #[trigger] part[i] == all[lo + i],
    ensures
        seg(mem, all, lo, lo + k) == seg(mem, part, 0, k),
    decreases k,
{
    if k > 0 {
        lemma_seg_same(mem, all, part, lo, (k - 1) as nat);
        assert(part[k - 1] == all[lo + (k - 1)]);
    }
}

/// Steps one part after the other.
proof fn lemma_seg_concat(mem: Map<int, Piece>, a: Seq<MtpStep>, b: Seq<MtpStep>)
    ensures
        seg(mem, a + b, 0, (a + b).len()) == seg(seg(mem, a, 0, a.len()), b, 0, b.len()),
{
    lemma_seg_split(mem, a + b, 0, a.len(), (a + b).len());
    lemma_seg_same(mem, a + b, a, 0, a.len());
    lemma_seg_same(seg(mem, a, 0, a.len()), a + b, b, a.len(), b.len());
}

/// The operations of steps that all have kernels.
proof fn lemma_seg_ops(mem: Map<int, Piece>, all: Seq<MtpStep>, ops: Seq<MtpOp>, k: nat)
    requires
        k <= all.len(),
        forall|i: int| 0 <= i < all.len() ==> #[trigger] ops[i] == op_of(all[i]),
    ensures
        effects(mem, ops, k) == seg(mem, all, 0, k),
    decreases k,
{
    if k > 0 {
        lemma_seg_ops(mem, all, ops, (k - 1) as nat);
        assert(ops[k - 1] == op_of(all[k - 1]));
    }
}

proof fn lemma_steps_ops(all: Seq<MtpStep>)
    requires
        steps_run(all).err is None,
    ensures
        steps_run(all).ops.len() == all.len(),
        forall|i: int| 0 <= i < all.len() ==> #[trigger] steps_run(all).ops[i] == op_of(all[i]),
{
    let f = |i: int| step_run(all[i]);
    lemma_each_ones(all.len(), f);
    assert forall|i: int| 0 <= i < all.len() implies #[trigger] steps_run(all).ops[i] == op_of(
        all[i],
    ) by {
        assert(f(i).err is None);
        assert(each(all.len(), f).ops[i] == f(i).ops[0]);
    }
}

/// What a step of the head has done: from the embedding `e` and the hidden row `h` it has
/// made the row that leaves the head, by attention over the K and the V of the slots, its
/// own among them; its own K and V lie in the slot that it fills of the two buffers that
/// were attended to; and nothing outside its buffers and these two slots has changed.
pub open spec fn step_made(
    cfg: Qwen3MoEConfig,
    mtp: MtpHeadWeights,
    s: MtpForwardScratch,
    mem: Map<int, Piece>,
    now: Map<int, Piece>,
    h_t: DevicePtr,
    e_token: DevicePtr,
    position: usize,
    out: DevicePtr,
    kv: Option<MtpKvCache>,
) -> bool {
    let x = entering(cfg, mtp, mem[e_token.0 as int].val, mem[h_t.0 as int].val);
    let (k, v, own, n) = caches_of(s, kv);
    let bytes = cfg.num_kv_heads * cfg.head_dim * 2;
    let own_k = key(cfg, mtp, x, position);
    let own_v = value(cfg, mtp, x);
    let ks = slots_seen(mem, k, bytes, n as nat, own, own_k);
    let vs = slots_seen(mem, v, bytes, n as nat, own, own_v);
    let g = gated(cfg, mtp, x, position, ks, vs);
    &&& now[out.0 as int] == (Piece {
        val: leaving(cfg, mtp, after_attention(cfg, mtp, x, g)),
        kind: Kind::Half,
        n: cfg.hidden_size as int,
    })
    &&& now[slot_place(k, bytes, own as int)].val == own_k
    &&& now[slot_place(v, bytes, own as int)].val == own_v
    &&& forall|a: int|
        !work(cfg, s, out).contains(a) && a != slot_place(k, bytes, own as int) && a
            != slot_place(v, bytes, own as int) ==> #[trigger] now[a] == mem[a]
}

/// The embedding and the hidden row are rows of halves, and the hidden row is not where the
/// embedding is normed to.
pub open spec fn rows_given(
    cfg: Qwen3MoEConfig,
    s: MtpForwardScratch,
    mem: Map<int, Piece>,
    h_t: DevicePtr,
    e_token: DevicePtr,
) -> bool {
    &&& h_t != s.fc_in_f16
    &&& mem[e_token.0 as int].kind == Kind::Half
    &&& mem[e_token.0 as int].n == cfg.hidden_size
    &&& mem[h_t.0 as int].kind == Kind::Half
    &&& mem[h_t.0 as int].n == cfg.hidden_size
}

/// The slots are not touched before the attention.
proof fn lemma_slots_kept(
    cfg: Qwen3MoEConfig,
    s: MtpForwardScratch,
    out: DevicePtr,
    kv: Option<MtpKvCache>,
    before: Map<int, Piece>,
    now: Map<int, Piece>,
    own_k: Val,
    own_v: Val,
)
    requires
        slots_apart(cfg, s, out, kv),
        outside_kept(work(cfg, s, out), before, now),
    ensures
        ({
            let (k, v, own, n) = caches_of(s, kv);
            let bytes = cfg.num_kv_heads * cfg.head_dim * 2;
            &&& slots_seen(now, k, bytes, n as nat, own, own_k) == slots_seen(
                before,
                k,
                bytes,
                n as nat,
                own,
                own_k,
            )
            &&& slots_seen(now, v, bytes, n as nat, own, own_v) == slots_seen(
                before,
                v,
                bytes,
                n as nat,
                own,
                own_v,
            )
        }),
{
    let (k, v, own, n) = caches_of(s, kv);
    let bytes = cfg.num_kv_heads * cfg.head_dim * 2;
    let w = work(cfg, s, out);
    assert forall|j: int| 0 <= j < n implies {
        &&& now[#[trigger] slot_place(k, bytes, j)] == before[slot_place(k, bytes, j)]
        &&& now[slot_place(v, bytes, j)] == before[slot_place(v, bytes, j)]
    } by {
        assert(slot_used(own, n, j));
        lemma_unlabelled(w, slot_place(k, bytes, j));
        lemma_unlabelled(w, slot_place(v, bytes, j));
        assert(now[slot_place(k, bytes, j)] == before[slot_place(k, bytes, j)]);
        assert(now[slot_place(v, bytes, j)] == before[slot_place(v, bytes, j)]);
    }
    assert forall|j: int| 0 <= j < n implies #[trigger] slots_seen(
        now,
        k,
        bytes,
        n as nat,
        own,
        own_k,
    )[j] == slots_seen(before, k, bytes, n as nat, own, own_k)[j] by {
        assert(now[slot_place(k, bytes, j)] == before[slot_place(k, bytes, j)]);
    }
    assert forall|j: int| 0 <= j < n implies #[trigger] slots_seen(
        now,
        v,
        bytes,
        n as nat,
        own,
        own_v,
    )[j] == slots_seen(before, v, bytes, n as nat, own, own_v)[j] by {
        let p = slot_place(k, bytes, j);
        assert(now[p] == before[p]);
        assert(now[slot_place(v, bytes, j)] == before[slot_place(v, bytes, j)]);
    }
    assert(slots_seen(now, k, bytes, n as nat, own, own_k) =~= slots_seen(
        before,
        k,
        bytes,
        n as nat,
        own,
        own_k,
    ));
    assert(slots_seen(now, v, bytes, n as nat, own, own_v) =~= slots_seen(
        before,
        v,
        bytes,
        n as nat,
        own,
        own_v,
    ));
}

proof fn lemma_whole(
    cfg: Qwen3MoEConfig,
    mtp: MtpHeadWeights,
    s: MtpForwardScratch,
    h_t: DevicePtr,
    e_token: DevicePtr,
    position: usize,
    out: DevicePtr,
    kv: Option<MtpKvCache>,
    mem: Map<int, Piece>,
)
    requires
        addresses_fit(&cfg, &s, kv),
        labelled(cfg, s, out, work(cfg, s, out)),
        slots_apart(cfg, s, out, kv),
        rows_given(cfg, s, mem, h_t, e_token),
    ensures
        ({
            let all = mtp_steps(&cfg, &mtp, &s, h_t, e_token, position, out, kv);
            let now = seg(mem, all, 0, all.len());
            step_made(cfg, mtp, s, mem, now, h_t, e_token, position, out, kv)
        }),
{
    let p1 = enter_steps(&cfg, &mtp, &s, h_t, e_token);
    let p2 = head_norm_steps(&cfg, &mtp, &s, Act::Half);
    let p3 = rope_steps(&cfg, &s, Act::Half, position);
    let p4 = attend_steps(&cfg, &s, Act::Half, kv);
    let p5 = leave_steps(&cfg, &mtp, &s, out);
    lemma_seg_concat(mem, p1, p2);
    lemma_seg_concat(mem, p1 + p2, p3);
    lemma_seg_concat(mem, p1 + p2 + p3, p4);
    lemma_seg_concat(mem, p1 + p2 + p3 + p4, p5);
    let x = entering(cfg, mtp, mem[e_token.0 as int].val, mem[h_t.0 as int].val);
    let (k, v, own, n) = caches_of(s, kv);
    let bytes = cfg.num_kv_heads * cfg.head_dim * 2;
    let m1 = seg(mem, p1, 0, 13);
    let m2 = seg(seg(m1, p2, 0, 2), p3, 0, p3.len());
    let m3 = seg(m2, p4, 0, 4);
    let m4 = seg(m3, p5, 0, 13);
    lemma_enter(cfg, mtp, s, h_t, e_token, out, mem);
    lemma_turn(cfg, mtp, s, out, m1, x, position, Act::Half);
    lemma_attend(cfg, mtp, s, out, m2, x, position, Act::Half, kv);
    let own_k = key(cfg, mtp, x, position);
    let own_v = value(cfg, mtp, x);
    lemma_slots_kept(cfg, s, out, kv, mem, m2, own_k, own_v);
    let ks = slots_seen(mem, k, bytes, n as nat, own, own_k);
    let vs = slots_seen(mem, v, bytes, n as nat, own, own_v);
    let g = gated(cfg, mtp, x, position, ks, vs);
    lemma_leave(cfg, mtp, s, out, m3, x, g);
    let w = work(cfg, s, out);
    let ka = slot_place(k, bytes, own as int);
    let va = slot_place(v, bytes, own as int);
    assert(slot_used(own, n, own as int));
    lemma_unlabelled(w, ka);
    lemma_unlabelled(w, va);
    assert(m4[ka] == m3[ka] && m4[va] == m3[va]);
    assert forall|a: int| !w.contains(a) && a != ka && a != va implies #[trigger] m4[a]
        == mem[a] by {
        lemma_unlabelled(w, a);
        assert(m1[a] == mem[a]);
        assert(m2[a] == m1[a]);
        assert(m3[a] == m2[a]);
    }
}

/// A step of the head on halves makes its row from the embedding and the hidden row as the
/// model says, attends to K and V in the two buffers into which it stores its own K and V,
/// and keeps every other slot.
pub proof fn law_mtp_step(
    cfg: Qwen3MoEConfig,
    mtp: MtpHeadWeights,
    s: MtpForwardScratch,
    h_t: DevicePtr,
    e_token: DevicePtr,
    position: usize,
    out: DevicePtr,
    kv: Option<MtpKvCache>,
    mem: Map<int, Piece>,
)
    requires
        addresses_fit(&cfg, &s, kv),
        steps_run(mtp_steps(&cfg, &mtp, &s, h_t, e_token, position, out, kv)).err is None,
        differ(work(cfg, s, out)),
        slots_apart(cfg, s, out, kv),
        rows_given(cfg, s, mem, h_t, e_token),
    ensures
        ({
            let ops = steps_run(
                mtp_steps(&cfg, &mtp, &s, h_t, e_token, position, out, kv),
            ).ops;
            let now = effects(mem, ops, ops.len());
            step_made(cfg, mtp, s, mem, now, h_t, e_token, position, out, kv)
        }),
{
    let all = mtp_steps(&cfg, &mtp, &s, h_t, e_token, position, out, kv);
    lemma_labelled(cfg, s, out, work(cfg, s, out));
    lemma_whole(cfg, mtp, s, h_t, e_token, position, out, kv, mem);
    lemma_steps_ops(all);
    lemma_seg_ops(mem, all, steps_run(all).ops, all.len());
}

proof fn lemma_whole_bf16(
    cfg: Qwen3MoEConfig,
    mtp: MtpHeadWeights,
    s: MtpForwardScratch,
    h_t: DevicePtr,
    e_token: DevicePtr,
    position: usize,
    out: DevicePtr,
    kv: Option<MtpKvCache>,
    mem: Map<int, Piece>,
)
    requires
        addresses_fit(&cfg, &s, kv),
        labelled(cfg, s, out, work(cfg, s, out)),
        slots_apart(cfg, s, out, kv),
        rows_given(cfg, s, mem, h_t, e_token),
    ensures
        ({
            let all = mtp_bf16_steps(&cfg, &mtp, &s, h_t, e_token, position, out, kv);
            let now = seg(mem, all, 0, all.len());
            step_made(cfg, mtp, s, mem, now, h_t, e_token, position, out, kv)
        }),
{
    let p1 = enter_bf16_steps(&cfg, &mtp, &s, h_t, e_token);
    let p2 = head_norm_steps(&cfg, &mtp, &s, Act::Bf16);
    let p3 = rope_steps(&cfg, &s, Act::Bf16, position);
    let p4 = attend_steps(&cfg, &s, Act::Bf16, kv);
    let p5 = leave_bf16_steps(&cfg, &mtp, &s, out);
    lemma_seg_concat(mem, p1, p2);
    lemma_seg_concat(mem, p1 + p2, p3);
    lemma_seg_concat(mem, p1 + p2 + p3, p4);
    lemma_seg_concat(mem, p1 + p2 + p3 + p4, p5);
    let x = entering(cfg, mtp, mem[e_token.0 as int].val, mem[h_t.0 as int].val);
    let (k, v, own, n) = caches_of(s, kv);
    let bytes = cfg.num_kv_heads * cfg.head_dim * 2;
    let m1 = seg(mem, p1, 0, 14);
    let m2 = seg(seg(m1, p2, 0, 2), p3, 0, p3.len());
    let m3 = seg(m2, p4, 0, 4);
    let m4 = seg(m3, p5, 0, 13);
    lemma_enter_bf16(cfg, mtp, s, h_t, e_token, out, mem);
    lemma_turn(cfg, mtp, s, out, m1, x, position, Act::Bf16);
    lemma_attend(cfg, mtp, s, out, m2, x, position, Act::Bf16, kv);
    let own_k = key(cfg, mtp, x, position);
    let own_v = value(cfg, mtp, x);
    lemma_slots_kept(cfg, s, out, kv, mem, m2, own_k, own_v);
    let ks = slots_seen(mem, k, bytes, n as nat, own, own_k);
    let vs = slots_seen(mem, v, bytes, n as nat, own, own_v);
    let g = gated(cfg, mtp, x, position, ks, vs);
    lemma_leave_bf16(cfg, mtp, s, out, m3, x, g);
    let w = work(cfg, s, out);
    let ka = slot_place(k, bytes, own as int);
    let va = slot_place(v, bytes, own as int);
    assert(slot_used(own, n, own as int));
    lemma_unlabelled(w, ka);
    lemma_unlabelled(w, va);
    assert(m4[ka] == m3[ka] && m4[va] == m3[va]);
    assert forall|a: int| !w.contains(a) && a != ka && a != va implies #[trigger] m4[a]
        == mem[a] by {
        lemma_unlabelled(w, a);
        assert(m1[a] == mem[a]);
        assert(m2[a] == m1[a]);
        assert(m3[a] == m2[a]);
    }
}

/// A step of the head on bfloat16s does the same as one on halves.
pub proof fn law_mtp_step_bf16(
    cfg: Qwen3MoEConfig,
    mtp: MtpHeadWeights,
    s: MtpForwardScratch,
    h_t: DevicePtr,
    e_token: DevicePtr,
    position: usize,
    out: DevicePtr,
    kv: Option<MtpKvCache>,
    mem: Map<int, Piece>,
)
    requires
        addresses_fit(&cfg, &s, kv),
        steps_run(mtp_bf16_steps(&cfg, &mtp, &s, h_t, e_token, position, out, kv)).err is None,
        differ(work(cfg, s, out)),
        slots_apart(cfg, s, out, kv),
        rows_given(cfg, s, mem, h_t, e_token),
    ensures
        ({
            let ops = steps_run(
                mtp_bf16_steps(&cfg, &mtp, &s, h_t, e_token, position, out, kv),
            ).ops;
            let now = effects(mem, ops, ops.len());
            step_made(cfg, mtp, s, mem, now, h_t, e_token, position, out, kv)
        }),
{
    let all = mtp_bf16_steps(&cfg, &mtp, &s, h_t, e_token, position, out, kv);
    lemma_labelled(cfg, s, out, work(cfg, s, out));
    lemma_whole_bf16(cfg, mtp, s, h_t, e_token, position, out, kv, mem);
    lemma_steps_ops(all);
    lemma_seg_ops(mem, all, steps_run(all).ops, all.len());
}

/// A later step attends to the K and the V that an earlier step stored: those of the earlier
/// step's own row, K among the K and V among the V, in the slot that it filled.
pub proof fn law_mtp_steps_share_caches(
    cfg: Qwen3MoEConfig,
    mtp: MtpHeadWeights,
    s: MtpForwardScratch,
    mem: Map<int, Piece>,
    now: Map<int, Piece>,
    h_t: DevicePtr,
    e_token: DevicePtr,
    position: usize,
    out: DevicePtr,
    first: MtpKvCache,
    second: MtpKvCache,
    later_k: Val,
    later_v: Val,
)
    requires
        step_made(cfg, mtp, s, mem, now, h_t, e_token, position, out, Some(first)),
        second.kcache == first.kcache,
        second.vcache == first.vcache,
        first.cache_position < second.n_tokens_kv,
        first.cache_position != second.cache_position,
    ensures
        ({
            let x = entering(cfg, mtp, mem[e_token.0 as int].val, mem[h_t.0 as int].val);
            let bytes = cfg.num_kv_heads * cfg.head_dim * 2;
            let n = second.n_tokens_kv as nat;
            let own = second.cache_position;
            let ks = slots_seen(now, second.kcache, bytes, n, own, later_k);
            let vs = slots_seen(now, second.vcache, bytes, n, own, later_v);
            &&& ks[first.cache_position as int] == key(cfg, mtp, x, position)
            &&& vs[first.cache_position as int] == value(cfg, mtp, x)
        }),
{
}

} // verus!
