//! What the slices of all ranks have in common: put together they are the
//! tensor, and each has the length that was announced for it.

use crate::arith::{
    lemma_div_lt, lemma_div_mod_split, lemma_div_mod_unique, lemma_exact_div, lemma_mul_mono,
};
use crate::tensor::{product, row_size, GgmlDType, TensorInfo};
use crate::tp_slice::{
    first_short, layout_world, lemma_fused_bounds, lemma_row_split, rows_of, slice_bytes_spec,
    slice_spec, strided, FusedHeads,
};
use crate::weight_layout::WeightLayout;
use vstd::prelude::*;

verus! {

/// The slices that the ranks keep under `layout`, in rank order.
pub open spec fn rank_slices(info: TensorInfo, raw: Seq<u8>, layout: WeightLayout) -> Seq<
    Seq<u8>,
> {
    Seq::new(
        layout_world(layout) as nat,
        |r: int| slice_spec(info, raw, layout, r as u32)->Ok_0,
    )
}

/// Every rank has a slice under `layout`.
pub open spec fn all_sliced(info: TensorInfo, raw: Seq<u8>, layout: WeightLayout) -> bool {
    forall|r: u32| r < layout_world(layout) ==> #[trigger] slice_spec(info, raw, layout, r) is Ok
}

/// `n` groups, each made of the next `len` bytes of every part in turn.
pub open spec fn interleave(parts: Seq<Seq<u8>>, n: nat, len: nat) -> Seq<u8> {
    let group = parts.len() * len;
    Seq::new(
        n * group,
        |i: int|
            parts[(i % group as int) / len as int][(i / group as int) * len + (i % group as int)
                % len as int],
    )
}

/// Interleaving the strided parts of `raw` gives back its first bytes.
proof fn lemma_interleave_strided(raw: Seq<u8>, n: nat, w: nat, len: nat, parts: Seq<Seq<u8>>)
    requires
        w > 0,
        parts.len() == w,
        forall|r: int|
            0 <= r < w ==> #[trigger] parts[r] == strided(raw, n, w * len, (r * len) as nat, len),
        n * (w * len) <= raw.len(),
    ensures
        interleave(parts, n, len) =~= raw.take((n * (w * len)) as int),
{
    let group = w * len;
    let all = interleave(parts, n, len);
    assert forall|i: int| 0 <= i < n * group implies all[i] == raw[i] by {
        assert(group > 0) by {
            if group == 0 {
                assert(n * group == 0) by (nonlinear_arith)
                    requires
                        group == 0,
                ;
            }
        }
        assert(len > 0) by (nonlinear_arith)
            requires
                group > 0,
                group == w * len,
        ;
        lemma_div_mod_split(i, group as int);
        lemma_div_lt(i, n as int, group as int);
        let g = i / group as int;
        let c = i % group as int;
        lemma_div_mod_split(c, len as int);
        lemma_div_lt(c, w as int, len as int);
        let r = c / len as int;
        let k = c % len as int;
        let j = g * len + k;
        lemma_div_mod_unique(g, len as int, k);
        assert(0 <= j < n * len) by (nonlinear_arith)
            requires
                j == g * len + k,
                0 <= g < n,
                0 <= k < len,
        ;
        assert(parts[r] == strided(raw, n, w * len, (r * len) as nat, len));
        assert(0 <= r * len) by (nonlinear_arith)
            requires
                r >= 0,
        ;
        assert(parts[r][j] == raw[g * (w * len) + r * len + k]);
        assert(all[i] == parts[r][j]);
    }
}

/// The slices of a 2-D tensor split by columns, taken up row by row from rank
/// to rank, are the tensor byte for byte.
pub proof fn law_row_parallel_reassembles(info: TensorInfo, raw: Seq<u8>, world: u32)
    requires
        world > 0,
        all_sliced(info, raw, WeightLayout::RowParallel { world, dim: 1 }),
    ensures
        ({
            let layout = WeightLayout::RowParallel { world, dim: 1 };
            let rows = info.dims@[0] as nat;
            let local = row_size(info.dtype, info.dims@[1] as nat / world as nat);
            interleave(rank_slices(info, raw, layout), rows, local) == raw.take(
                (rows * row_size(info.dtype, info.dims@[1] as nat)) as int,
            )
        }),
{
    let layout = WeightLayout::RowParallel { world, dim: 1 };
    let parts = rank_slices(info, raw, layout);
    assert(slice_spec(info, raw, layout, 0) is Ok);
    let inner = info.dims@[1] as nat;
    let rows = info.dims@[0] as nat;
    let w = world as nat;
    let local = row_size(info.dtype, inner / w);
    lemma_row_split(info.dtype, inner, w);
    assert forall|r: int| 0 <= r < w implies #[trigger] parts[r] == strided(
        raw,
        rows,
        w * local,
        (r * local) as nat,
        local,
    ) by {
        assert(slice_spec(info, raw, layout, r as u32) is Ok);
    }
    lemma_interleave_strided(raw, rows, w, local, parts);
}

proof fn lemma_short_none(have: nat, n: nat, stride: nat, off: nat, len: nat)
    requires
        first_short(have, n, stride, off, len) is None,
        n > 0,
    ensures
        (n - 1) * stride + off + len <= have,
{
}

/// The slices of a 3-D expert tensor split along dim 2, taken up row by row
/// from rank to rank, are the tensor byte for byte.
pub proof fn law_expert_row_parallel_reassembles(info: TensorInfo, raw: Seq<u8>, world: u32)
    requires
        world > 0,
        all_sliced(info, raw, WeightLayout::RowParallel { world, dim: 2 }),
    ensures
        ({
            let layout = WeightLayout::RowParallel { world, dim: 2 };
            let rows = info.dims@[0] as nat * info.dims@[1] as nat;
            let local = row_size(info.dtype, info.dims@[2] as nat / world as nat);
            interleave(rank_slices(info, raw, layout), rows, local) == raw.take(
                (rows * row_size(info.dtype, info.dims@[2] as nat)) as int,
            )
        }),
{
    let layout = WeightLayout::RowParallel { world, dim: 2 };
    let parts = rank_slices(info, raw, layout);
    assert(slice_spec(info, raw, layout, 0) is Ok);
    let inner = info.dims@[2] as nat;
    let rows = info.dims@[0] as nat * info.dims@[1] as nat;
    let w = world as nat;
    let local = row_size(info.dtype, inner / w);
    lemma_row_split(info.dtype, inner, w);
    let full = row_size(info.dtype, inner);
    assert forall|r: int| 0 <= r < w implies #[trigger] parts[r] == strided(
        raw,
        rows,
        w * local,
        (r * local) as nat,
        local,
    ) by {
        assert(slice_spec(info, raw, layout, r as u32) is Ok);
    }
    let last = (world - 1) as u32;
    assert(slice_spec(info, raw, layout, last) is Ok);
    lemma_last_group(raw.len(), rows, full, w, local);
    lemma_interleave_strided(raw, rows, w, local, parts);
}

/// If the last rank's part of every group is there, so is the whole.
proof fn lemma_last_group(have: nat, n: nat, stride: nat, w: nat, len: nat)
    requires
        w > 0,
        stride == w * len,
        first_short(have, n, stride, ((w - 1) as nat * len), len) is None,
    ensures
        n * stride <= have,
{
    if n > 0 {
        lemma_short_none(have, n, stride, (w - 1) as nat * len, len);
        assert((w - 1) as nat * len + len == w * len) by (nonlinear_arith)
            requires
                w > 0,
        ;
        assert((n - 1) * stride + stride == n * stride) by (nonlinear_arith);
    } else {
        assert(n * stride == 0) by (nonlinear_arith)
            requires
                n == 0,
        ;
    }
}

/// The slices of a 3-D expert tensor split along dim 1, taken up expert by
/// expert from rank to rank, are the tensor byte for byte.
pub proof fn law_expert_col_parallel_reassembles(info: TensorInfo, raw: Seq<u8>, world: u32)
    requires
        world > 0,
        all_sliced(info, raw, WeightLayout::ColParallel { world, dim: 1 }),
    ensures
        ({
            let layout = WeightLayout::ColParallel { world, dim: 1 };
            let rb = row_size(info.dtype, info.dims@[2] as nat);
            let local = info.dims@[1] as nat / world as nat * rb;
            interleave(rank_slices(info, raw, layout), info.dims@[0] as nat, local) == raw.take(
                (info.dims@[0] as nat * (info.dims@[1] as nat * rb)) as int,
            )
        }),
{
    let layout = WeightLayout::ColParallel { world, dim: 1 };
    let parts = rank_slices(info, raw, layout);
    assert(slice_spec(info, raw, layout, 0) is Ok);
    let n = info.dims@[0] as nat;
    let d1 = info.dims@[1] as nat;
    let rb = row_size(info.dtype, info.dims@[2] as nat);
    let w = world as nat;
    let local = d1 / w * rb;
    let slab = d1 * rb;
    lemma_exact_div(d1 as int, w as int);
    assert(slab == w * local) by (nonlinear_arith)
        requires
            slab == d1 * rb,
            local == (d1 / w) * rb,
            (d1 / w) * w == d1,
    ;
    assert forall|r: int| 0 <= r < w implies #[trigger] parts[r] == strided(
        raw,
        n,
        w * local,
        (r * local) as nat,
        local,
    ) by {
        assert(slice_spec(info, raw, layout, r as u32) is Ok);
    }
    let last = (world - 1) as u32;
    assert(slice_spec(info, raw, layout, last) is Ok);
    lemma_last_group(raw.len(), n, slab, w, local);
    lemma_interleave_strided(raw, n, w, local, parts);
}

/// The slices of a 2-D tensor split by rows, one after the other, are the
/// tensor byte for byte.
pub proof fn law_col_parallel_reassembles(info: TensorInfo, raw: Seq<u8>, world: u32)
    requires
        world > 0,
        info.dims@.len() == 2,
        all_sliced(info, raw, WeightLayout::ColParallel { world, dim: 0 }),
    ensures
        ({
            let layout = WeightLayout::ColParallel { world, dim: 0 };
            let rb = row_size(info.dtype, info.dims@[1] as nat);
            let local = info.dims@[0] as nat / world as nat * rb;
            interleave(rank_slices(info, raw, layout), 1, local) == raw.take(
                (info.dims@[0] as nat * rb) as int,
            )
        }),
{
    let rb = row_size(info.dtype, info.dims@[1] as nat);
    lemma_rows_reassemble(info, raw, world, rb);
}

/// The slices of a 1-D tensor, one after the other, are the tensor byte for byte.
pub proof fn law_vector_reassembles(info: TensorInfo, raw: Seq<u8>, world: u32)
    requires
        world > 0,
        info.dims@.len() == 1,
        all_sliced(info, raw, WeightLayout::ColParallel { world, dim: 0 }),
    ensures
        ({
            let layout = WeightLayout::ColParallel { world, dim: 0 };
            let t = info.dtype.spec_type_size();
            let local = info.dims@[0] as nat / world as nat * t;
            interleave(rank_slices(info, raw, layout), 1, local) == raw.take(
                (info.dims@[0] as nat * t) as int,
            )
        }),
{
    lemma_rows_reassemble(info, raw, world, info.dtype.spec_type_size());
}

proof fn lemma_rows_reassemble(info: TensorInfo, raw: Seq<u8>, world: u32, rb: nat)
    requires
        world > 0,
        info.dims@.len() == 1 || info.dims@.len() == 2,
        info.dims@.len() == 1 ==> rb == info.dtype.spec_type_size(),
        info.dims@.len() == 2 ==> rb == row_size(info.dtype, info.dims@[1] as nat),
        all_sliced(info, raw, WeightLayout::ColParallel { world, dim: 0 }),
    ensures
        interleave(
            rank_slices(info, raw, WeightLayout::ColParallel { world, dim: 0 }),
            1,
            info.dims@[0] as nat / world as nat * rb,
        ) == raw.take((info.dims@[0] as nat * rb) as int),
{
    let layout = WeightLayout::ColParallel { world, dim: 0 };
    let parts = rank_slices(info, raw, layout);
    assert(slice_spec(info, raw, layout, 0) is Ok);
    let d0 = info.dims@[0] as nat;
    let w = world as nat;
    let rows = d0 / w;
    let local = rows * rb;
    lemma_exact_div(d0 as int, w as int);
    assert(d0 * rb == w * local) by (nonlinear_arith)
        requires
            local == rows * rb,
            rows * w == d0,
    ;
    let last = (world - 1) as u32;
    assert(slice_spec(info, raw, layout, last) is Ok);
    assert((w - 1) as nat * rows * rb + rows * rb == d0 * rb) by (nonlinear_arith)
        requires
            rows * w == d0,
            w > 0,
    ;
    assert forall|r: int| 0 <= r < w implies #[trigger] parts[r] == strided(
        raw,
        1,
        w * local,
        (r * local) as nat,
        local,
    ) by {
        assert(slice_spec(info, raw, layout, r as u32) is Ok);
        assert(r * rows * rb == r * local) by (nonlinear_arith)
            requires
                local == rows * rb,
        ;
        assert(r * local + local <= w * local) by (nonlinear_arith)
            requires
                0 <= r < w,
                local >= 0,
        ;
        assert(r * local >= 0) by (nonlinear_arith)
            requires
                r >= 0,
        ;
        let st = strided(raw, 1, w * local, (r * local) as nat, local);
        assert(parts[r] == raw.subrange(r * local, r * local + local));
        assert forall|j: int| 0 <= j < local implies st[j] == parts[r][j] by {
            lemma_div_mod_unique(0, local as int, j);
            assert(j / local as int == 0);
            assert(0 * (w * local) == 0);
        }
        assert(st =~= parts[r]);
    }
    assert(1 * (w * local) == w * local);
    lemma_interleave_strided(raw, 1, w, local, parts);
}

/// The layout of a fused tensor with heads `h`.
pub open spec fn fused_layout(world: u32, h: FusedHeads) -> WeightLayout {
    WeightLayout::FusedQkvParallel {
        world,
        num_v_heads: h.num_v_heads,
        num_k_heads: h.num_k_heads,
        head_v_dim: h.head_v_dim,
        head_k_dim: h.head_k_dim,
        kq_replicated: h.kq_replicated,
    }
}

/// The fused tensor put together from the ranks' slices. Each slice holds `kb`
/// bytes of Q, `kb` bytes of K and `vb` bytes of V. The Q and K parts come from
/// the ranks in turn, or from rank 0 alone where every rank has them whole.
pub open spec fn unfuse(
    parts: Seq<Seq<u8>>,
    kp: nat,
    total: nat,
    kb: nat,
    vb: nat,
    whole: bool,
) -> Seq<
    u8,
> {
    Seq::new(
        total,
        |i: int|
            if i < kp {
                if whole {
                    parts[0][i]
                } else {
                    parts[i / kb as int][i % kb as int]
                }
            } else if i < 2 * kp {
                if whole {
                    parts[0][kb + i - kp]
                } else {
                    parts[(i - kp) / kb as int][kb + (i - kp) % kb as int]
                }
            } else {
                parts[(i - 2 * kp) / vb as int][2 * kb + (i - 2 * kp) % vb as int]
            },
    )
}

/// The slices of a fused `[Q | K | V]` tensor hold it byte for byte.
pub proof fn law_fused_reassembles(info: TensorInfo, raw: Seq<u8>, world: u32, h: FusedHeads)
    requires
        world > 0,
        all_sliced(info, raw, fused_layout(world, h)),
    ensures
        ({
            let rb = row_size(info.dtype, info.dims@[1] as nat);
            unfuse(
                rank_slices(info, raw, fused_layout(world, h)),
                h.k_part() * rb,
                h.outer() * rb,
                h.k_rows(world) * rb,
                h.v_rows(world) * rb,
                h.kq_replicated,
            ) == raw.take((h.outer() * rb) as int)
        }),
{
    let layout = fused_layout(world, h);
    let parts = rank_slices(info, raw, layout);
    assert(slice_spec(info, raw, layout, 0) is Ok);
    let rb = row_size(info.dtype, info.dims@[1] as nat);
    let w = world as int;
    let kp = (h.k_part() * rb) as int;
    let kb = (h.k_rows(world) * rb) as int;
    let vb = (h.v_rows(world) * rb) as int;
    let total = (h.outer() * rb) as int;
    lemma_fused_bounds(h, world, 0);
    assert(total == h.v_part() * rb + 2 * kp) by (nonlinear_arith)
        requires
            total == (h.v_part() + 2 * h.k_part()) * rb,
            kp == h.k_part() * rb,
    ;
    assert(vb * w == h.v_part() * rb) by (nonlinear_arith)
        requires
            vb == h.v_rows(world) * rb,
            h.v_rows(world) * world as nat == h.v_part(),
            w == world as int,
    ;
    let all = unfuse(parts, kp as nat, total as nat, kb as nat, vb as nat, h.kq_replicated);
    assert forall|i: int| 0 <= i < total implies all[i] == raw[i] by {
        if i < kp {
            if h.kq_replicated {
                lemma_fused_part(info, raw, world, h, 0, parts);
            } else {
                lemma_k_split(h, world, rb);
                lemma_div_lt(i, w, kb);
                lemma_div_mod_split(i, kb);
                let r = i / kb;
                lemma_fused_part(info, raw, world, h, r, parts);
            }
        } else if i < 2 * kp {
            if h.kq_replicated {
                lemma_fused_part(info, raw, world, h, 0, parts);
            } else {
                lemma_k_split(h, world, rb);
                lemma_div_lt(i - kp, w, kb);
                lemma_div_mod_split(i - kp, kb);
                let r = (i - kp) / kb;
                lemma_fused_part(info, raw, world, h, r, parts);
            }
        } else {
            let x = i - 2 * kp;
            assert(x < w * vb) by (nonlinear_arith)
                requires
                    x < vb * w,
            ;
            assert(vb > 0) by (nonlinear_arith)
                requires
                    0 <= x < vb * w,
                    w > 0,
            ;
            lemma_div_lt(x, w, vb);
            lemma_div_mod_split(x, vb);
            lemma_fused_part(info, raw, world, h, x / vb, parts);
        }
    }
}

/// With Q and K split, the parts of all ranks fill the K part.
proof fn lemma_k_split(h: FusedHeads, world: u32, rb: nat)
    requires
        world > 0,
        !h.kq_replicated,
        h.k_rows(world) * world as nat == h.k_part(),
        h.k_part() * rb > 0,
    ensures
        h.k_rows(world) * rb > 0,
        world as int * (h.k_rows(world) * rb) == h.k_part() * rb,
{
    let k = h.k_rows(world);
    let w = world as int;
    assert(w * (k * rb) == (k * w) * rb) by (nonlinear_arith);
    assert(k * rb > 0) by (nonlinear_arith)
        requires
            w * (k * rb) > 0,
            w > 0,
    ;
}

/// What the slice of rank `r` holds, region by region.
proof fn lemma_fused_part(
    info: TensorInfo,
    raw: Seq<u8>,
    world: u32,
    h: FusedHeads,
    r: int,
    parts: Seq<Seq<u8>>,
)
    requires
        0 <= r < world,
        all_sliced(info, raw, fused_layout(world, h)),
        parts == rank_slices(info, raw, fused_layout(world, h)),
    ensures
        ({
            let rb = row_size(info.dtype, info.dims@[1] as nat);
            let kp = (h.k_part() * rb) as int;
            let kb = (h.k_rows(world) * rb) as int;
            let vb = (h.v_rows(world) * rb) as int;
            let q0 = if h.kq_replicated {
                0
            } else {
                r * kb
            };
            &&& parts[r].len() == 2 * kb + vb
            &&& forall|j: int| 0 <= j < kb ==> #[trigger] parts[r][j] == raw[q0 + j]
            &&& forall|j: int| kb <= j < 2 * kb ==> #[trigger] parts[r][j] == raw[kp + q0 + j - kb]
            &&& forall|j: int|
                2 * kb <= j < 2 * kb + vb ==> #[trigger] parts[r][j] == raw[2 * kp + r * vb + j - 2
                    * kb]
        }),
{
    let layout = fused_layout(world, h);
    let rank = r as u32;
    assert(slice_spec(info, raw, layout, rank) is Ok);
    lemma_fused_bounds(h, world, rank);
    let rb = row_size(info.dtype, info.dims@[1] as nat);
    let kp = (h.k_part() * rb) as int;
    let kb = (h.k_rows(world) * rb) as int;
    let vb = (h.v_rows(world) * rb) as int;
    let qs = h.q_start(world, rank);
    let ks = h.k_start(world, rank);
    let vs = h.v_start(world, rank);
    let kr = h.k_rows(world);
    let vr = h.v_rows(world);
    assert(h.outer() * rb <= raw.len());
    assert((qs + kr) * rb == qs * rb + kr * rb) by (nonlinear_arith);
    assert((ks + kr) * rb == ks * rb + kr * rb) by (nonlinear_arith);
    assert((vs + vr) * rb == vs * rb + vr * rb) by (nonlinear_arith);
    lemma_mul_mono((qs + kr) as int, rb as int, h.outer() as int, rb as int);
    lemma_mul_mono((ks + kr) as int, rb as int, h.outer() as int, rb as int);
    lemma_mul_mono((vs + vr) as int, rb as int, h.outer() as int, rb as int);
    assert(ks * rb == kp + qs * rb) by (nonlinear_arith)
        requires
            ks == h.k_part() + qs,
            kp == h.k_part() * rb,
    ;
    assert(vs * rb == 2 * kp + r * vb) by (nonlinear_arith)
        requires
            vs == 2 * h.k_part() + r * vr,
            kp == h.k_part() * rb,
            vb == vr * rb,
    ;
    if !h.kq_replicated {
        assert(qs * rb == r * kb) by (nonlinear_arith)
            requires
                qs == r * kr,
                kb == kr * rb,
        ;
    }
    let q = rows_of(raw, qs, kr, rb);
    let k = rows_of(raw, ks, kr, rb);
    let v = rows_of(raw, vs, vr, rb);
    assert(0 <= qs * rb) by (nonlinear_arith);
    assert(0 <= ks * rb) by (nonlinear_arith);
    assert(0 <= vs * rb) by (nonlinear_arith);
    assert(q.len() == kb);
    assert(k.len() == kb);
    assert(v.len() == vb);
    assert(parts[r] == q + k + v);
}

/// Bytes of a tensor made of `n` rows of whole blocks.
proof fn lemma_byte_size_rows(dtype: GgmlDType, n: nat, inner: nat)
    requires
        inner % dtype.spec_block_size() == 0,
    ensures
        row_size(dtype, n * inner) == n * row_size(dtype, inner),
{
    let bs = dtype.spec_block_size() as int;
    let t = dtype.spec_type_size() as int;
    lemma_exact_div(inner as int, bs);
    let k = inner as int / bs;
    assert((n * k) * bs + 0 == n * inner) by (nonlinear_arith)
        requires
            k * bs == inner,
    ;
    lemma_div_mod_unique(n * k, bs, 0);
    assert((n * k) * t == n * (k * t)) by (nonlinear_arith);
}

proof fn lemma_products(info: TensorInfo)
    ensures
        info.dims@.len() == 1 ==> info.elem_count() == info.dims@[0] as nat,
        info.dims@.len() == 2 ==> info.elem_count() == info.dims@[0] as nat * info.dims@[1] as nat,
        info.dims@.len() == 3 ==> info.elem_count() == (info.dims@[0] as nat
            * info.dims@[1] as nat) * info.dims@[2] as nat,
{
    let d = info.dims@;
    reveal_with_fuel(product, 4);
    if d.len() == 1 {
        assert(d.drop_last() =~= Seq::<u64>::empty());
        assert(product(d) == 1 * d[0] as nat);
    } else if d.len() == 2 {
        assert(d.drop_last().drop_last() =~= Seq::<u64>::empty());
        assert(product(d) == 1 * d[0] as nat * d[1] as nat);
    } else if d.len() == 3 {
        assert(d.drop_last().drop_last().drop_last() =~= Seq::<u64>::empty());
        assert(product(d) == 1 * d[0] as nat * d[1] as nat * d[2] as nat);
    }
}

/// A vector is stored element by element; the other tensors that the slicers
/// accept may be stored in blocks.
pub open spec fn plain_vector(info: TensorInfo) -> bool {
    info.dims@.len() == 1 ==> info.dtype.spec_block_size() == 1
}

/// The slice of every rank has the length that is announced for the layout.
pub proof fn law_slice_length(info: TensorInfo, raw: Seq<u8>, layout: WeightLayout, rank: u32)
    requires
        layout_world(layout) > 0,
        raw.len() == info.byte_size(),
        plain_vector(info),
        layout matches WeightLayout::ColParallel { dim, .. } ==> dim == 0 || dim == 1,
        layout matches WeightLayout::RowParallel { dim, .. } ==> dim == 1 || dim == 2,
        layout matches WeightLayout::FusedQkvParallel { kq_replicated, .. } ==> (kq_replicated
            ==> info.dims@[0] > 0),
        slice_spec(info, raw, layout, rank) is Ok,
    ensures
        slice_bytes_spec(info, layout) == Ok::<nat, crate::tp_slice::SliceFailure>(
            slice_spec(info, raw, layout, rank)->Ok_0.len(),
        ),
{
    lemma_products(info);
    let w = layout_world(layout) as nat;
    let part = slice_spec(info, raw, layout, rank)->Ok_0;
    match layout {
        WeightLayout::Replicated => {},
        WeightLayout::ColParallel { world, dim } => {
            if dim == 0 {
                let d0 = info.dims@[0] as nat;
                let rb = if info.dims@.len() == 1 {
                    info.dtype.spec_type_size()
                } else {
                    row_size(info.dtype, info.dims@[1] as nat)
                };
                if info.dims@.len() == 2 {
                    lemma_byte_size_rows(info.dtype, d0, info.dims@[1] as nat);
                }
                lemma_exact_div(d0 as int, w as int);
                lemma_total_splits(d0 * rb, (d0 / w) * rb, w, d0, rb);
            } else {
                let d0 = info.dims@[0] as nat;
                let d1 = info.dims@[1] as nat;
                let rb = row_size(info.dtype, info.dims@[2] as nat);
                lemma_byte_size_rows(info.dtype, d0 * d1, info.dims@[2] as nat);
                lemma_exact_div(d1 as int, w as int);
                let local = d1 / w * rb;
                assert(d0 * local * w == d0 * d1 * rb) by (nonlinear_arith)
                    requires
                        local == (d1 / w) * rb,
                        (d1 / w) * w == d1,
                ;
                lemma_div_mod_unique((d0 * local) as int, w as int, 0);
            }
        },
        WeightLayout::RowParallel { world, dim } => {
            let inner = if dim == 1 {
                info.dims@[1] as nat
            } else {
                info.dims@[2] as nat
            };
            let rows = if dim == 1 {
                info.dims@[0] as nat
            } else {
                info.dims@[0] as nat * info.dims@[1] as nat
            };
            lemma_row_split(info.dtype, inner, w);
            lemma_byte_size_rows(info.dtype, rows, inner);
            let local = row_size(info.dtype, inner / w);
            assert(rows * local * w == rows * (w * local)) by (nonlinear_arith);
            lemma_div_mod_unique((rows * local) as int, w as int, 0);
        },
        WeightLayout::FusedQkvParallel {
            world,
            num_v_heads,
            num_k_heads,
            head_v_dim,
            head_k_dim,
            kq_replicated,
        } => {
            let h = FusedHeads { num_v_heads, num_k_heads, head_v_dim, head_k_dim, kq_replicated };
            let rb = row_size(info.dtype, info.dims@[1] as nat);
            lemma_byte_size_rows(info.dtype, h.outer(), info.dims@[1] as nat);
            lemma_fused_bounds(h, world, rank);
            let kr = h.k_rows(world);
            let vr = h.v_rows(world);
            let qs = h.q_start(world, rank);
            let ks = h.k_start(world, rank);
            let vs = h.v_start(world, rank);
            assert((qs + kr) * rb == qs * rb + kr * rb) by (nonlinear_arith);
            assert((ks + kr) * rb == ks * rb + kr * rb) by (nonlinear_arith);
            assert((vs + vr) * rb == vs * rb + vr * rb) by (nonlinear_arith);
            lemma_mul_mono((qs + kr) as int, rb as int, h.outer() as int, rb as int);
            lemma_mul_mono((ks + kr) as int, rb as int, h.outer() as int, rb as int);
            lemma_mul_mono((vs + vr) as int, rb as int, h.outer() as int, rb as int);
            assert(0 <= qs * rb && 0 <= ks * rb && 0 <= vs * rb) by (nonlinear_arith);
            assert(part.len() == kr * rb + kr * rb + vr * rb);
            assert(part.len() == (vr + 2 * kr) * rb) by (nonlinear_arith)
                requires
                    part.len() == kr * rb + kr * rb + vr * rb,
            ;
            if kq_replicated {
                assert(h.outer() > 0);
                assert(rb * h.outer() == h.outer() * rb) by (nonlinear_arith);
                lemma_div_mod_unique(rb as int, h.outer() as int, 0);
                assert(vr * w == h.v_part());
                lemma_div_mod_unique(vr as int, w as int, 0);
            } else {
                assert((vr + 2 * kr) * rb * w == h.outer() * rb) by (nonlinear_arith)
                    requires
                        vr * w == h.v_part(),
                        kr * w == h.k_part(),
                        h.outer() == h.v_part() + 2 * h.k_part(),
                ;
                lemma_div_mod_unique(((vr + 2 * kr) * rb) as int, w as int, 0);
            }
        },
    }
}

proof fn lemma_total_splits(total: nat, part: nat, w: nat, n: nat, rb: nat)
    requires
        w > 0,
        total == n * rb,
        part == (n / w) * rb,
        (n / w) * w == n,
    ensures
        total % w == 0,
        total / w == part,
{
    assert(part * w == total) by (nonlinear_arith)
        requires
            total == n * rb,
            part == (n / w) * rb,
            (n / w) * w == n,
    ;
    lemma_div_mod_unique(part as int, w as int, 0);
}

/// On a mesh of one rank the slice is the tensor itself.
pub proof fn law_single_rank_keeps_all(info: TensorInfo, raw: Seq<u8>, layout: WeightLayout)
    requires
        layout_world(layout) == 1,
        raw.len() == info.byte_size(),
        plain_vector(info),
        layout matches WeightLayout::ColParallel { dim, .. } ==> dim == 0 || dim == 1,
        layout matches WeightLayout::RowParallel { dim, .. } ==> dim == 1 || dim == 2,
        slice_spec(info, raw, layout, 0) is Ok,
    ensures
        slice_spec(info, raw, layout, 0) == Ok::<Seq<u8>, crate::tp_slice::SliceFailure>(raw),
{
    lemma_products(info);
    let part = slice_spec(info, raw, layout, 0)->Ok_0;
    assert forall|r: u32| r < layout_world(layout) implies #[trigger] slice_spec(
        info,
        raw,
        layout,
        r,
    ) is Ok by {
        assert(r == 0);
    }
    match layout {
        WeightLayout::Replicated => {},
        WeightLayout::ColParallel { world, dim } => {
            if dim == 0 {
                if info.dims@.len() == 2 {
                    lemma_byte_size_rows(
                        info.dtype,
                        info.dims@[0] as nat,
                        info.dims@[1] as nat,
                    );
                }
                assert(part =~= raw);
            } else {
                let d0 = info.dims@[0] as nat;
                let d1 = info.dims@[1] as nat;
                let rb = row_size(info.dtype, info.dims@[2] as nat);
                lemma_byte_size_rows(info.dtype, d0 * d1, info.dims@[2] as nat);
                assert((d0 * d1) * rb == d0 * (d1 * rb)) by (nonlinear_arith);
                lemma_strided_whole(raw, d0, d1 * rb);
            }
        },
        WeightLayout::RowParallel { world, dim } => {
            let inner = if dim == 1 {
                info.dims@[1] as nat
            } else {
                info.dims@[2] as nat
            };
            let rows = if dim == 1 {
                info.dims@[0] as nat
            } else {
                info.dims@[0] as nat * info.dims@[1] as nat
            };
            lemma_byte_size_rows(info.dtype, rows, inner);
            lemma_strided_whole(raw, rows, row_size(info.dtype, inner));
        },
        WeightLayout::FusedQkvParallel {
            world,
            num_v_heads,
            num_k_heads,
            head_v_dim,
            head_k_dim,
            kq_replicated,
        } => {
            let h = FusedHeads { num_v_heads, num_k_heads, head_v_dim, head_k_dim, kq_replicated };
            let rb = row_size(info.dtype, info.dims@[1] as nat);
            lemma_byte_size_rows(info.dtype, h.outer(), info.dims@[1] as nat);
            assert((h.k_part() + h.k_part()) * rb == 2 * (h.k_part() * rb)) by (nonlinear_arith);
            assert((2 * h.k_part() + h.v_part()) * rb == h.outer() * rb) by (nonlinear_arith)
                requires
                    h.outer() == h.v_part() + 2 * h.k_part(),
            ;
            assert(2 * h.k_part() * rb == 2 * (h.k_part() * rb)) by (nonlinear_arith);
            lemma_mul_mono(h.k_part() as int, rb as int, h.outer() as int, rb as int);
            lemma_mul_mono(2 * h.k_part() as int, rb as int, h.outer() as int, rb as int);
            assert(part =~= raw);
        },
    }
}

proof fn lemma_strided_whole(raw: Seq<u8>, n: nat, len: nat)
    requires
        raw.len() == n * len,
    ensures
        strided(raw, n, len, 0, len) =~= raw,
{
    let st = strided(raw, n, len, 0, len);
    assert forall|j: int| 0 <= j < n * len implies st[j] == raw[j] by {
        assert(len > 0) by (nonlinear_arith)
            requires
                0 <= j < n * len,
        ;
        lemma_div_mod_split(j, len as int);
    }
}

} // verus!
