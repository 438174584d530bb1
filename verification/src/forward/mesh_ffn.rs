//! The weights that a rank works with, and what its FFN leaves behind.

use crate::config::Qwen3MoEConfig;
use crate::device::DevicePtr;
use crate::forward::mesh::{
    after, after_all, attn_named, dense_named, experts_shaped, fed, ffn_norm_named, full_rows,
    gdn_named, is_ffn_norm, lemma_after_concat, lemma_after_one, lemma_after_push, moe_named, named, share_of,
    shared_named, summed, width, Cell, FfnPart, Half, Line, Mesh,
};
use crate::forward::mesh_join::{calm};
use crate::forward::moe_tp::{
    experts_fit, moe_block, moe_decode_spec, moe_prefill_spec, shared_spec, MoeBlock, MoeTpError,
};
use crate::forward::op::{AttnRefs, GdnRefs, MoeRefs, Op, Pass, Weight};
use crate::forward::rows::{apart, at, lemma_apart, lemma_put, only, put, rows, within};
use crate::forward::tp::{
    attn_refs_spec, dense_ffn_run, dense_refs_spec, experts_run, ffn_run, find_named, find_weight,
    gdn_refs_spec, moe_ffn_run, moe_refs_spec, norm_spec, shared_refs_spec, shared_run,
    tensors_at, FfnIo, LayerScratch,
};
use crate::names::{blk_name, TensorKind};
use crate::tp_sharded::{Qwen3MoETpModel, TpLayerTensor};
use vstd::prelude::*;

verus! {

proof fn lemma_found(ts: Seq<TpLayerTensor>, name: Seq<char>)
    ensures
        match find_named(ts, name) {
            Some(t) => exists|i: int|
                0 <= i < ts.len() && (#[trigger] ts[i]).name@ == name && ts[i].tensor == t,
            None => forall|i: int| 0 <= i < ts.len() ==> (#[trigger] ts[i]).name@ != name,
        },
    decreases ts.len(),
{
    if ts.len() > 0 && ts[0].name@ != name {
        let rest = ts.drop_first();
        lemma_found(rest, name);
        match find_named(rest, name) {
            Some(t) => {
                let i = choose|i: int|
                    0 <= i < rest.len() && (#[trigger] rest[i]).name@ == name && rest[i].tensor
                        == t;
                assert(ts[i + 1] == rest[i]);
            },
            None => {
                assert forall|i: int| 0 <= i < ts.len() implies (#[trigger] ts[i]).name@
                    != name by {
                    if i > 0 {
                        assert(ts[i] == rest[i - 1]);
                    }
                }
            },
        }
    }
}

/// A weight that was found is the tensor of that name.
proof fn lemma_named(m: Qwen3MoETpModel, r: usize, il: usize, kind: TensorKind)
    ensures
        match find_weight(tensors_at(m, r as int, il), il, kind) {
            Ok(w) => named(m, r, il, kind.spec_text(), w),
            Err(_) => forall|w: Weight| !named(m, r, il, kind.spec_text(), w),
        },
{
    lemma_found(tensors_at(m, r as int, il), blk_name(il as nat, kind.spec_text()));
}

pub proof fn lemma_attn_named(m: Qwen3MoETpModel, r: usize, il: usize, w: AttnRefs)
    requires
        attn_refs_spec(tensors_at(m, r as int, il), il) == Ok::<
            AttnRefs,
            crate::forward::op::ForwardError,
        >(w),
    ensures
        attn_named(m, r, il, w),
{
    lemma_named(m, r, il, TensorKind::AttnNorm);
    lemma_named(m, r, il, TensorKind::AttnQ);
    lemma_named(m, r, il, TensorKind::AttnK);
    lemma_named(m, r, il, TensorKind::AttnV);
    lemma_named(m, r, il, TensorKind::AttnOutput);
    lemma_named(m, r, il, TensorKind::AttnQNorm);
    lemma_named(m, r, il, TensorKind::AttnKNorm);
}

pub proof fn lemma_gdn_named(m: Qwen3MoETpModel, r: usize, il: usize, w: GdnRefs)
    requires
        gdn_refs_spec(tensors_at(m, r as int, il), il) == Ok::<
            GdnRefs,
            crate::forward::op::ForwardError,
        >(w),
    ensures
        gdn_named(m, r, il, w),
{
    lemma_named(m, r, il, TensorKind::AttnNorm);
    lemma_named(m, r, il, TensorKind::AttnQkv);
    lemma_named(m, r, il, TensorKind::AttnGate);
    lemma_named(m, r, il, TensorKind::SsmAlpha);
    lemma_named(m, r, il, TensorKind::SsmBeta);
    lemma_named(m, r, il, TensorKind::SsmA);
    lemma_named(m, r, il, TensorKind::SsmDtBias);
    lemma_named(m, r, il, TensorKind::SsmConv1d);
    lemma_named(m, r, il, TensorKind::SsmNorm);
    lemma_named(m, r, il, TensorKind::SsmOut);
}

/// A norm found under one of its two names.
pub proof fn lemma_norm_named(
    m: Qwen3MoETpModel,
    r: usize,
    il: usize,
    first: TensorKind,
    second: TensorKind,
    w: Weight,
)
    requires
        norm_spec(tensors_at(m, r as int, il), il, first, second) == Ok::<
            Weight,
            crate::forward::op::ForwardError,
        >(w),
        first == TensorKind::PostAttentionNorm && second == TensorKind::FfnNorm || first
            == TensorKind::FfnNorm && second == TensorKind::PostAttentionNorm,
    ensures
        ffn_norm_named(m, r, il, w.ptr),
{
    lemma_named(m, r, il, first);
    lemma_named(m, r, il, second);
    assert(is_ffn_norm(m, r, il, w));
}

/// What the FFN of a layer adds.
pub open spec fn ffn_half(cfg: Qwen3MoEConfig, skip_shared: bool, layer: usize) -> Half {
    Half::Ffn {
        layer,
        part: if cfg.spec_is_dense_ffn() {
            FfnPart::Dense
        } else if cfg.shared_expert_intermediate_size is Some && !skip_shared {
            FfnPart::RoutedAndShared
        } else {
            FfnPart::Routed
        },
    }
}

/// So many elements fill so many rows.
pub proof fn lemma_full_rows(m: Qwen3MoETpModel, n: int)
    requires
        n >= 0,
        m.config.hidden_size > 0,
    ensures
        full_rows(m, n * m.config.hidden_size) == n,
        n * m.config.hidden_size >= 0,
{
    let h = m.config.hidden_size as int;
    assert(n * h >= 0 && (n * h) / h == n) by (nonlinear_arith)
        requires
            n >= 0,
            h > 0,
    ;
}

proof fn lemma_split(inter: nat, world: u32)
    requires
        world == 1 || world == 2 || world == 4,
        inter % world as nat == 0,
    ensures
        (inter / world as nat) * (world as nat) == inter,
        inter / world as nat <= inter,
{
}

/// The normed rows of a rank.
pub open spec fn normed_at(
    m: Qwen3MoETpModel,
    mc: Mesh,
    r: usize,
    x: DevicePtr,
    lines: Seq<Line>,
    weight: DevicePtr,
) -> bool {
    forall|i: int|
        0 <= i < lines.len() ==> mc.cells[#[trigger] at(r, x, i, width(m))] == (Cell::Normed {
            line: lines[i],
            weight,
        })
}

/// A rank's shares of a half of a layer, one and the same for all lines.
pub open spec fn shares_at(
    m: Qwen3MoETpModel,
    mc: Mesh,
    r: usize,
    out: DevicePtr,
    lines: Seq<Line>,
    half: Half,
    world: nat,
) -> bool {
    forall|i: int|
        0 <= i < lines.len() ==> share_of(
            mc.cells[#[trigger] at(r, out, i, width(m))],
            lines[i],
            half,
            r,
            world,
        )
}

/// Only two buffers of a rank may differ.
pub open spec fn only2(
    m: Qwen3MoETpModel,
    before: Mesh,
    now: Mesh,
    r: usize,
    a: DevicePtr,
    b: DevicePtr,
    n: nat,
) -> bool {
    forall|k: (usize, int)|
        !within(k, r, a, width(m), n) && !within(k, r, b, width(m), n)
            ==> #[trigger] now.cells[k] == before.cells[k]
}

/// One part of an FFN on the normed rows of a rank.
proof fn lemma_fed(
    m: Qwen3MoETpModel,
    mc: Mesh,
    r: usize,
    il: usize,
    x: DevicePtr,
    out: DevicePtr,
    lines: Seq<Line>,
    weight: DevicePtr,
    part: FfnPart,
    columns: (nat, nat),
    world: nat,
    now: Mesh,
)
    requires
        width(m) > 0,
        normed_at(m, mc, r, x, lines, weight),
        ffn_norm_named(m, r, il, weight),
        columns.0 * world == columns.1,
        now.cells == put(
            mc.cells,
            r,
            out,
            width(m),
            Seq::new(
                lines.len(),
                |i: int|
                    fed(m, mc.cells[at(r, x, i, width(m))], true, il, part, r, columns),
            ),
        ),
    ensures
        shares_at(m, now, r, out, lines, Half::Ffn { layer: il, part }, world),
        only(mc.cells, now.cells, r, out, width(m), lines.len()),
{
    let vals = Seq::new(
        lines.len(),
        |i: int| fed(m, mc.cells[at(r, x, i, width(m))], true, il, part, r, columns),
    );
    lemma_put(mc.cells, r, out, width(m), vals);
    assert forall|i: int| 0 <= i < lines.len() implies share_of(
        now.cells[#[trigger] at(r, out, i, width(m))],
        lines[i],
        Half::Ffn { layer: il, part },
        r,
        world,
    ) by {
        assert(mc.cells[at(r, x, i, width(m))] == (Cell::Normed { line: lines[i], weight }));
        assert(now.cells[at(r, out, i, width(m))] == vals[i]);
        assert(vals[i] == (Cell::Share {
            line: lines[i],
            half: Half::Ffn { layer: il, part },
            rank: r,
            parts: seq![columns],
        }));
    }
}

/// Rows apart from what was written are as they were.
pub proof fn lemma_kept_rows(
    m: Qwen3MoETpModel,
    before: Map<(usize, int), Cell>,
    now: Map<(usize, int), Cell>,
    r: usize,
    out: DevicePtr,
    x: DevicePtr,
    n: nat,
)
    requires
        width(m) > 0,
        only(before, now, r, out, width(m), n),
        apart(x, out, width(m), n),
    ensures
        forall|i: int|
            0 <= i < n ==> now[#[trigger] at(r, x, i, width(m))] == before[at(r, x, i, width(m))],
        rows(now, r, x, width(m), n) == rows(before, r, x, width(m), n),
{
    lemma_apart(r, x, out, width(m), n);
    assert(rows(now, r, x, width(m), n) =~= rows(before, r, x, width(m), n));
}

proof fn lemma_dense_rank(
    m: Qwen3MoETpModel,
    mc: Mesh,
    il: usize,
    r: usize,
    world: u32,
    ls: LayerScratch,
    io: FfnIo,
    lines: Seq<Line>,
    weight: DevicePtr,
)
    requires
        width(m) > 0,
        !io.pre_quantized,
        dense_ffn_run(m, il, r as int, world, ls, io).err is None,
        io.n_tokens == lines.len(),
        normed_at(m, mc, r, io.x, lines, weight),
        ffn_norm_named(m, r, il, weight),
    ensures
        ({
            let now = after_all(m, mc, dense_ffn_run(m, il, r as int, world, ls, io).ops);
            &&& shares_at(
                m,
                now,
                r,
                io.partial,
                lines,
                Half::Ffn { layer: il, part: FfnPart::Dense },
                world as nat,
            )
            &&& only2(m, mc, now, r, io.partial, ls.shared_delta_f16, lines.len())
            &&& calm(mc, now)
        }),
{
    let w = dense_refs_spec(tensors_at(m, r as int, il), il)->Ok_0;
    let run = dense_ffn_run(m, il, r as int, world, ls, io);
    lemma_named(m, r, il, TensorKind::FfnGate);
    lemma_named(m, r, il, TensorKind::FfnUp);
    lemma_named(m, r, il, TensorKind::FfnDown);
    assert(dense_named(m, r, il, w));
    assert(run.ops =~= seq![run.ops[0]]);
    lemma_after_one(m, mc, run.ops[0]);
    let now = after(m, mc, run.ops[0]);
    assert(Seq::new(
        io.n_tokens as nat,
        |i: int|
            fed(
                m,
                mc.cells[at(r, io.x, i, width(m))],
                dense_named(m, r, il, w) && !io.pre_quantized,
                il,
                FfnPart::Dense,
                r,
                (1, world as nat),
            ),
    ) =~= Seq::new(
        lines.len(),
        |i: int|
            fed(
                m,
                mc.cells[at(r, io.x, i, width(m))],
                true,
                il,
                FfnPart::Dense,
                r,
                (1, world as nat),
            ),
    ));
    lemma_fed(
        m,
        mc,
        r,
        il,
        io.x,
        io.partial,
        lines,
        weight,
        FfnPart::Dense,
        (1, world as nat),
        world as nat,
        now,
    );
}

/// The shared expert on the normed rows of a rank.
proof fn lemma_shared_expert(
    m: Qwen3MoETpModel,
    mc: Mesh,
    il: usize,
    r: usize,
    world: u32,
    ls: LayerScratch,
    io: FfnIo,
    lines: Seq<Line>,
    weight: DevicePtr,
)
    requires
        width(m) > 0,
        world == 1 || world == 2 || world == 4,
        m.config.shared_expert_intermediate_size is Some,
        !io.skip_shared,
        shared_run(m, il, r as int, world, ls, io).err is None,
        io.n_tokens == lines.len(),
        normed_at(m, mc, r, io.x, lines, weight),
        ffn_norm_named(m, r, il, weight),
    ensures
        ({
            let now = after_all(m, mc, shared_run(m, il, r as int, world, ls, io).ops);
            &&& shares_at(
                m,
                now,
                r,
                ls.shared_delta_f16,
                lines,
                Half::Ffn { layer: il, part: FfnPart::Shared },
                world as nat,
            )
            &&& only(mc.cells, now.cells, r, ls.shared_delta_f16, width(m), lines.len())
            &&& calm(mc, now)
            &&& now.routed == mc.routed
        }),
{
    let w = shared_refs_spec(tensors_at(m, r as int, il), il)->Ok_0;
    let run = shared_run(m, il, r as int, world, ls, io);
    lemma_named(m, r, il, TensorKind::FfnGateShexp);
    lemma_named(m, r, il, TensorKind::FfnUpShexp);
    lemma_named(m, r, il, TensorKind::FfnDownShexp);
    lemma_named(m, r, il, TensorKind::FfnGateInpShexp);
    assert(shared_named(m, r, il, w));
    let absent = match io.pass {
        Pass::Decode => MoeTpError::NoSharedDecode,
        Pass::Prefill => MoeTpError::NoSharedPrefill,
    };
    let block = shared_spec(&m.config, world, absent)->Ok_0;
    let inter = m.config.shared_expert_intermediate_size->0 as nat;
    lemma_split(inter, world);
    let op = Op::SharedExpert {
        rank: r,
        layer: il,
        w,
        block,
        pass: io.pass,
        x: io.x,
        out: ls.shared_delta_f16,
        n_tokens: io.n_tokens,
    };
    assert(run.ops =~= seq![op]);
    lemma_after_one(m, mc, op);
    let now = after(m, mc, op);
    let columns = (block.local_inter as nat, inter);
    assert(Seq::new(
        io.n_tokens as nat,
        |i: int|
            fed(
                m,
                mc.cells[at(r, io.x, i, width(m))],
                shared_named(m, r, il, w) && block.hidden == m.config.hidden_size
                    && m.config.shared_expert_intermediate_size is Some,
                il,
                FfnPart::Shared,
                r,
                (block.local_inter as nat, m.config.shared_expert_intermediate_size->0 as nat),
            ),
    ) =~= Seq::new(
        lines.len(),
        |i: int|
            fed(m, mc.cells[at(r, io.x, i, width(m))], true, il, FfnPart::Shared, r, columns),
    ));
    lemma_fed(
        m,
        mc,
        r,
        il,
        io.x,
        ls.shared_delta_f16,
        lines,
        weight,
        FfnPart::Shared,
        columns,
        world as nat,
        now,
    );
}

/// The routed experts on the normed rows of a rank.
proof fn lemma_routed(
    m: Qwen3MoETpModel,
    mc: Mesh,
    il: usize,
    r: usize,
    world: u32,
    io: FfnIo,
    w: MoeRefs,
    block: MoeBlock,
    tile8: Option<usize>,
    lines: Seq<Line>,
    weight: DevicePtr,
)
    requires
        width(m) > 0,
        world == 1 || world == 2 || world == 4,
        m.config.moe_intermediate_size as nat % world as nat == 0,
        experts_fit(&m.config),
        block == moe_block(&m.config, world, tile8),
        moe_named(m, r, il, w),
        io.n_tokens == lines.len(),
        normed_at(m, mc, r, io.x, lines, weight),
        ffn_norm_named(m, r, il, weight),
        mc.routed.dom().contains(r),
        mc.routed[r] == (il, rows(mc.cells, r, io.x, width(m), lines.len())),
    ensures
        ({
            let op = Op::MoeFfn {
                rank: r,
                layer: il,
                w,
                block,
                pass: io.pass,
                x: io.x,
                out: io.partial,
                n_tokens: io.n_tokens,
            };
            let now = after(m, mc, op);
            &&& shares_at(
                m,
                now,
                r,
                io.partial,
                lines,
                Half::Ffn { layer: il, part: FfnPart::Routed },
                world as nat,
            )
            &&& only(mc.cells, now.cells, r, io.partial, width(m), lines.len())
            &&& calm(mc, now)
        }),
{
    let op = Op::MoeFfn {
        rank: r,
        layer: il,
        w,
        block,
        pass: io.pass,
        x: io.x,
        out: io.partial,
        n_tokens: io.n_tokens,
    };
    let now = after(m, mc, op);
    let inter = m.config.moe_intermediate_size as nat;
    lemma_split(inter, world);
    let local = inter / world as nat;
    assert(m.config.num_experts as nat * local <= m.config.num_experts as nat * inter)
        by (nonlinear_arith)
        requires
            local <= inter,
    ;
    assert(experts_shaped(m, block));
    let columns = (block.local_inter as nat, inter);
    assert(Seq::new(
        io.n_tokens as nat,
        |i: int|
            fed(
                m,
                mc.cells[at(r, io.x, i, width(m))],
                moe_named(m, r, il, w) && experts_shaped(m, block) && mc.routed.dom().contains(r)
                    && mc.routed[r] == (
                    il,
                    rows(mc.cells, r, io.x, width(m), io.n_tokens as nat),
                ),
                il,
                FfnPart::Routed,
                r,
                (block.local_inter as nat, m.config.moe_intermediate_size as nat),
            ),
    ) =~= Seq::new(
        lines.len(),
        |i: int|
            fed(m, mc.cells[at(r, io.x, i, width(m))], true, il, FfnPart::Routed, r, columns),
    ));
    lemma_fed(
        m,
        mc,
        r,
        il,
        io.x,
        io.partial,
        lines,
        weight,
        FfnPart::Routed,
        columns,
        world as nat,
        now,
    );
}

/// The sum of the routed experts' and the shared expert's shares.
proof fn lemma_sum_shares(
    m: Qwen3MoETpModel,
    mc: Mesh,
    il: usize,
    r: usize,
    world: nat,
    a: DevicePtr,
    b: DevicePtr,
    elems: usize,
    lines: Seq<Line>,
)
    requires
        width(m) > 0,
        full_rows(m, elems as int) == lines.len(),
        shares_at(m, mc, r, a, lines, Half::Ffn { layer: il, part: FfnPart::Routed }, world),
        shares_at(m, mc, r, b, lines, Half::Ffn { layer: il, part: FfnPart::Shared }, world),
    ensures
        ({
            let now = after(m, mc, Op::Add { rank: r, a, b, out: a, elems });
            &&& shares_at(
                m,
                now,
                r,
                a,
                lines,
                Half::Ffn { layer: il, part: FfnPart::RoutedAndShared },
                world,
            )
            &&& only(mc.cells, now.cells, r, a, width(m), lines.len())
            &&& calm(mc, now)
        }),
{
    let w = width(m);
    let half = Half::Ffn { layer: il, part: FfnPart::RoutedAndShared };
    let vals = Seq::new(
        full_rows(m, elems as int),
        |i: int| summed(mc.cells[at(r, a, i, w)], mc.cells[at(r, b, i, w)], r),
    );
    lemma_put(mc.cells, r, a, w, vals);
    let now = after(m, mc, Op::Add { rank: r, a, b, out: a, elems });
    assert forall|i: int| 0 <= i < lines.len() implies share_of(
        now.cells[#[trigger] at(r, a, i, w)],
        lines[i],
        half,
        r,
        world,
    ) by {
        let x = mc.cells[at(r, a, i, w)];
        let y = mc.cells[at(r, b, i, w)];
        assert(share_of(
            x,
            lines[i],
            Half::Ffn { layer: il, part: FfnPart::Routed },
            r,
            world,
        ));
        assert(share_of(
            y,
            lines[i],
            Half::Ffn { layer: il, part: FfnPart::Shared },
            r,
            world,
        ));
        let p = x->parts;
        let q = y->parts;
        assert(vals[i] == (Cell::Share { line: lines[i], half, rank: r, parts: p + q }));
        assert forall|j: int| 0 <= j < (p + q).len() implies (#[trigger] (p + q)[j]).0 * world
            == (p + q)[j].1 by {
            if j < p.len() {
                assert((p + q)[j] == p[j]);
            } else {
                assert((p + q)[j] == q[j - p.len()]);
            }
        }
    }
}

/// The routed experts of a rank and the sum with the shared expert.
proof fn lemma_experts(
    m: Qwen3MoETpModel,
    m2: Mesh,
    il: usize,
    r: usize,
    world: u32,
    ls: LayerScratch,
    io: FfnIo,
    w: MoeRefs,
    max_tokens: usize,
    lines: Seq<Line>,
    weight: DevicePtr,
)
    requires
        width(m) > 0,
        world == 1 || world == 2 || world == 4,
        experts_fit(&m.config),
        !m.config.spec_is_dense_ffn(),
        experts_run(m, il, r as int, world, ls, io, w, max_tokens).err is None,
        moe_named(m, r, il, w),
        io.n_tokens == lines.len(),
        io.n_tokens * m.config.hidden_size <= usize::MAX,
        normed_at(m, m2, r, io.x, lines, weight),
        ffn_norm_named(m, r, il, weight),
        apart(ls.shared_delta_f16, io.partial, width(m), lines.len()),
        m2.routed.dom().contains(r),
        m2.routed[r] == (il, rows(m2.cells, r, io.x, width(m), lines.len())),
        m.config.shared_expert_intermediate_size is Some && !io.skip_shared ==> shares_at(
            m,
            m2,
            r,
            ls.shared_delta_f16,
            lines,
            Half::Ffn { layer: il, part: FfnPart::Shared },
            world as nat,
        ),
    ensures
        ({
            let now = after_all(
                m,
                m2,
                experts_run(m, il, r as int, world, ls, io, w, max_tokens).ops,
            );
            &&& shares_at(
                m,
                now,
                r,
                io.partial,
                lines,
                ffn_half(m.config, io.skip_shared, il),
                world as nat,
            )
            &&& only(m2.cells, now.cells, r, io.partial, width(m), lines.len())
            &&& calm(m2, now)
        }),
{
    let n = lines.len();
    let wd = width(m);
    let shd = ls.shared_delta_f16;
    let ex = experts_run(m, il, r as int, world, ls, io, w, max_tokens);
    let with_shared = m.config.shared_expert_intermediate_size is Some && !io.skip_shared;
    let block = match io.pass {
        Pass::Decode => moe_decode_spec(&m.config, world),
        Pass::Prefill => moe_prefill_spec(&m.config, io.n_tokens, max_tokens, world),
    }->Ok_0;
    let tile8 = block.tile8_min_tokens;
    lemma_routed(m, m2, il, r, world, io, w, block, tile8, lines, weight);
    let op = Op::MoeFfn {
        rank: r,
        layer: il,
        w,
        block,
        pass: io.pass,
        x: io.x,
        out: io.partial,
        n_tokens: io.n_tokens,
    };
    let m3 = after(m, m2, op);
    if with_shared {
        let elems = (io.n_tokens * m.config.hidden_size) as usize;
        let sum = Op::Add { rank: r, a: io.partial, b: shd, out: io.partial, elems };
        assert(ex.ops =~= seq![op].push(sum));
        lemma_after_push(m, m2, seq![op], sum);
        lemma_after_one(m, m2, op);
        lemma_full_rows(m, io.n_tokens as int);
        lemma_kept_rows(m, m2.cells, m3.cells, r, io.partial, shd, n);
        assert(shares_at(
            m,
            m3,
            r,
            shd,
            lines,
            Half::Ffn { layer: il, part: FfnPart::Shared },
            world as nat,
        )) by {
            assert forall|i: int| 0 <= i < lines.len() implies share_of(
                m3.cells[#[trigger] at(r, shd, i, wd)],
                lines[i],
                Half::Ffn { layer: il, part: FfnPart::Shared },
                r,
                world as nat,
            ) by {
                assert(share_of(
                    m2.cells[at(r, shd, i, wd)],
                    lines[i],
                    Half::Ffn { layer: il, part: FfnPart::Shared },
                    r,
                    world as nat,
                ));
            }
        }
        lemma_sum_shares(m, m3, il, r, world as nat, io.partial, shd, elems, lines);
    } else {
        assert(ex.ops =~= seq![op]);
        lemma_after_one(m, m2, op);
    }
    let now = after_all(m, m2, ex.ops);
    assert forall|k: (usize, int)| !within(k, r, io.partial, wd, n) implies #[trigger] now.cells[k]
        == m2.cells[k] by {
        assert(m3.cells[k] == m2.cells[k]);
    }
}

proof fn lemma_moe_rank(
    m: Qwen3MoETpModel,
    mc: Mesh,
    il: usize,
    r: usize,
    world: u32,
    ls: LayerScratch,
    io: FfnIo,
    lines: Seq<Line>,
    weight: DevicePtr,
)
    requires
        width(m) > 0,
        world == 1 || world == 2 || world == 4,
        experts_fit(&m.config),
        !m.config.spec_is_dense_ffn(),
        moe_ffn_run(m, il, r as int, world, ls, io).err is None,
        io.n_tokens == lines.len(),
        io.n_tokens * m.config.hidden_size <= usize::MAX,
        normed_at(m, mc, r, io.x, lines, weight),
        ffn_norm_named(m, r, il, weight),
        apart(io.x, io.partial, width(m), lines.len()),
        apart(io.x, ls.shared_delta_f16, width(m), lines.len()),
        apart(ls.shared_delta_f16, io.partial, width(m), lines.len()),
    ensures
        ({
            let now = after_all(m, mc, moe_ffn_run(m, il, r as int, world, ls, io).ops);
            &&& shares_at(
                m,
                now,
                r,
                io.partial,
                lines,
                ffn_half(m.config, io.skip_shared, il),
                world as nat,
            )
            &&& only2(m, mc, now, r, io.partial, ls.shared_delta_f16, lines.len())
            &&& calm(mc, now)
        }),
{
    let n = lines.len();
    let wd = width(m);
    let shd = ls.shared_delta_f16;
    let w = moe_refs_spec(tensors_at(m, r as int, il), il)->Ok_0;
    lemma_named(m, r, il, TensorKind::FfnGateInp);
    lemma_named(m, r, il, TensorKind::FfnGateExps);
    lemma_named(m, r, il, TensorKind::FfnUpExps);
    lemma_named(m, r, il, TensorKind::FfnDownExps);
    assert(moe_named(m, r, il, w));
    let max_tokens = ls.moe->0;
    let router = Op::Router {
        rank: r,
        layer: il,
        w: w.router,
        pass: io.pass,
        x: io.x,
        n_tokens: io.n_tokens,
    };
    let sh = shared_run(m, il, r as int, world, ls, io);
    let ex = experts_run(m, il, r as int, world, ls, io, w, max_tokens);
    let run = moe_ffn_run(m, il, r as int, world, ls, io);
    assert(sh.err is None && ex.err is None);
    assert(run.ops =~= seq![router] + (sh.ops + ex.ops));
    lemma_after_concat(m, mc, seq![router], sh.ops + ex.ops);
    lemma_after_one(m, mc, router);
    let m1 = after(m, mc, router);
    assert(m1.cells == mc.cells);
    lemma_after_concat(m, m1, sh.ops, ex.ops);
    let m2 = after_all(m, m1, sh.ops);
    let with_shared = m.config.shared_expert_intermediate_size is Some && !io.skip_shared;
    if with_shared {
        lemma_shared_expert(m, m1, il, r, world, ls, io, lines, weight);
        lemma_kept_rows(m, m1.cells, m2.cells, r, shd, io.x, n);
    } else {
        assert(sh.ops =~= seq![]);
        assert(m2 == m1);
    }
    assert(normed_at(m, m2, r, io.x, lines, weight)) by {
        assert forall|i: int| 0 <= i < lines.len() implies m2.cells[#[trigger] at(
            r,
            io.x,
            i,
            width(m),
        )] == (Cell::Normed { line: lines[i], weight }) by {
            assert(m1.cells[at(r, io.x, i, wd)] == (Cell::Normed { line: lines[i], weight }));
        }
    }
    assert(m2.routed[r] == (il, rows(m2.cells, r, io.x, wd, n)));
    lemma_experts(m, m2, il, r, world, ls, io, w, max_tokens, lines, weight);
    let now = after_all(m, mc, run.ops);
    assert forall|k: (usize, int)|
        !within(k, r, io.partial, wd, n) && !within(k, r, shd, wd, n) implies #[trigger] now.cells[k]
        == mc.cells[k] by {
        assert(m2.cells[k] == m1.cells[k]);
    }
}

/// The FFN of a rank leaves its share for every row, and changes nothing else but the
/// shared expert's buffer.
pub proof fn lemma_ffn_rank(
    m: Qwen3MoETpModel,
    mc: Mesh,
    il: usize,
    r: usize,
    world: u32,
    ls: LayerScratch,
    io: FfnIo,
    lines: Seq<Line>,
    weight: DevicePtr,
)
    requires
        width(m) > 0,
        world == 1 || world == 2 || world == 4,
        experts_fit(&m.config),
        !io.pre_quantized,
        ffn_run(m, il, r as int, world, ls, io).err is None,
        io.n_tokens == lines.len(),
        io.n_tokens * m.config.hidden_size <= usize::MAX,
        normed_at(m, mc, r, io.x, lines, weight),
        ffn_norm_named(m, r, il, weight),
        apart(io.x, io.partial, width(m), lines.len()),
        apart(io.x, ls.shared_delta_f16, width(m), lines.len()),
        apart(ls.shared_delta_f16, io.partial, width(m), lines.len()),
    ensures
        ({
            let now = after_all(m, mc, ffn_run(m, il, r as int, world, ls, io).ops);
            &&& shares_at(
                m,
                now,
                r,
                io.partial,
                lines,
                ffn_half(m.config, io.skip_shared, il),
                world as nat,
            )
            &&& only2(m, mc, now, r, io.partial, ls.shared_delta_f16, lines.len())
            &&& calm(mc, now)
        }),
{
    if m.config.spec_is_dense_ffn() {
        lemma_dense_rank(m, mc, il, r, world, ls, io, lines, weight);
    } else {
        lemma_moe_rank(m, mc, il, r, world, ls, io, lines, weight);
    }
}

} // verus!
