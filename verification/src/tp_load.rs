//! What a rank of a tensor-parallel mesh takes of each tensor, and in which
//! type it stores it.

use crate::config::Qwen3MoEConfig;
use crate::convert::{
    convert_f32_to_f16, quantize_bf16_to_q8_0, quantize_f32_to_q8_0, singles, widened,
};
use crate::load_error::LoadError;
use crate::plan::flat;
use crate::tensor::{
    dims_product, lemma_padded_product_pos, lemma_product_le_padded, padded_product, product,
    GgmlDType, TensorInfo, QK8_0, QK_K,
};
use crate::text::{ends_with, spec_ends_with, str_eq};
use crate::tp_layout::Qwen35DenseTpLayout;
use crate::tp_sharded::{is_expert, is_expert_name};
use crate::tp_slice::{
    axis_supported, layout_fits, layout_world, slice_for_tp, slice_spec, SliceError, SliceFailure,
};
use crate::layout::ResolvedTensor;
use crate::upload::{
    ba_rows_fit, ba_rows_match, check, copy_dims, elems, lemma_dims_fit, sizes_fit, split_counted,
    split_error, Rule,
};
use crate::weight_layout::WeightLayout;
use std::borrow::Cow;
use vstd::prelude::*;

verus! {

/// The name is that of a norm that kernels read as F16.
pub open spec fn is_half_norm(name: Seq<char>) -> bool {
    ||| name == "output_norm.weight"@
    ||| !spec_ends_with(name, "ssm_norm.weight"@) && (spec_ends_with(name, "attn_norm.weight"@)
        || spec_ends_with(name, "post_attention_norm.weight"@) || spec_ends_with(
        name,
        "ffn_norm.weight"@,
    ) || spec_ends_with(name, "attn_q_norm.weight"@) || spec_ends_with(
        name,
        "attn_k_norm.weight"@,
    ))
}

/// The type that an F32 tensor is stored in, `None` for F32 itself.
pub open spec fn target_dtype(name: Seq<char>, source: GgmlDType) -> Option<GgmlDType> {
    if source != GgmlDType::F32 {
        None
    } else if is_half_norm(name) {
        Some(GgmlDType::F16)
    } else if spec_ends_with(name, "ssm_alpha.weight"@) || spec_ends_with(
        name,
        "ssm_beta.weight"@,
    ) {
        Some(GgmlDType::Q8_0)
    } else if spec_ends_with(name, "ffn_gate_inp.weight"@) {
        Some(GgmlDType::F16)
    } else {
        None
    }
}

/// The type that a tensor has to be converted to before it is stored, `None`
/// where it is stored as it is.
pub fn tp_target_dtype(name: &str, source_dtype: GgmlDType) -> (r: Option<GgmlDType>)
    ensures
        r == target_dtype(name@, source_dtype),
{
    if source_dtype != GgmlDType::F32 {
        return None;
    }
    let norm = str_eq(name, "output_norm.weight") || (!ends_with(name, "ssm_norm.weight") && (
    ends_with(name, "attn_norm.weight") || ends_with(name, "post_attention_norm.weight")
        || ends_with(name, "ffn_norm.weight") || ends_with(name, "attn_q_norm.weight") || ends_with(
        name,
        "attn_k_norm.weight",
    )));
    if norm {
        return Some(GgmlDType::F16);
    }
    if ends_with(name, "ssm_alpha.weight") || ends_with(name, "ssm_beta.weight") {
        return Some(GgmlDType::Q8_0);
    }
    if ends_with(name, "ffn_gate_inp.weight") {
        return Some(GgmlDType::F16);
    }
    None
}

/// The type that replaces one that no kernel reads.
pub open spec fn convert_target(src: GgmlDType) -> GgmlDType {
    match src {
        GgmlDType::Iq4Xs | GgmlDType::Iq4Nl => GgmlDType::Q4K,
        GgmlDType::Iq3Xxs | GgmlDType::Iq3S => GgmlDType::Q3K,
        GgmlDType::Iq2Xxs | GgmlDType::Iq2Xs | GgmlDType::Iq2S | GgmlDType::Iq1S
        | GgmlDType::Iq1M => GgmlDType::Q2K,
        _ => GgmlDType::Q8_0,
    }
}

/// The type that replaces one that no kernel reads.
pub fn pick_convert_target(src: GgmlDType) -> (r: GgmlDType)
    ensures
        r == convert_target(src),
{
    match src {
        GgmlDType::Iq4Xs | GgmlDType::Iq4Nl => GgmlDType::Q4K,
        GgmlDType::Iq3Xxs | GgmlDType::Iq3S => GgmlDType::Q3K,
        GgmlDType::Iq2Xxs | GgmlDType::Iq2Xs | GgmlDType::Iq2S | GgmlDType::Iq1S
        | GgmlDType::Iq1M => GgmlDType::Q2K,
        _ => GgmlDType::Q8_0,
    }
}

/// The dims of what a rank holds.
pub open spec fn per_rank_dims(full: Seq<u64>, layout: WeightLayout) -> Seq<u64> {
    match layout {
        WeightLayout::Replicated => full,
        WeightLayout::ColParallel { world, dim } | WeightLayout::RowParallel { world, dim } => if dim
            < full.len() {
            full.update(dim as int, (full[dim as int] / world as u64) as u64)
        } else {
            full
        },
        WeightLayout::FusedQkvParallel {
            world,
            num_v_heads,
            num_k_heads,
            head_v_dim,
            head_k_dim,
            kq_replicated,
        } => if full.len() == 0 {
            full
        } else if kq_replicated {
            let v = num_v_heads as nat * head_v_dim as nat;
            let k = num_k_heads as nat * head_k_dim as nat;
            full.update(0, (v / world as nat + 2 * k) as u64)
        } else {
            full.update(0, (full[0] / world as u64) as u64)
        },
    }
}

/// The dim that a layout splits evenly, if it splits one.
pub open spec fn even_dim(layout: WeightLayout) -> Option<nat> {
    match layout {
        WeightLayout::Replicated => None,
        WeightLayout::ColParallel { dim, .. } => Some(dim as nat),
        WeightLayout::RowParallel { dim, .. } => Some(dim as nat),
        WeightLayout::FusedQkvParallel { kq_replicated, .. } => if kq_replicated {
            None
        } else {
            Some(0)
        },
    }
}

/// A dim that is a multiple of another makes the product that multiple.
proof fn lemma_product_update(dims: Seq<u64>, at: int, part: u64, times: nat)
    requires
        0 <= at < dims.len(),
        part * times == dims[at],
    ensures
        product(dims.update(at, part)) * times == product(dims),
    decreases dims.len(),
{
    let cut = dims.update(at, part);
    if at == dims.len() - 1 {
        assert(cut.drop_last() =~= dims.drop_last());
        let a = product(dims.drop_last());
        let b = dims.last() as nat;
        assert((a * part as nat) * times == a * b) by (nonlinear_arith)
            requires
                part * times == b,
        ;
    } else {
        assert(cut.drop_last() =~= dims.drop_last().update(at, part));
        lemma_product_update(dims.drop_last(), at, part, times);
        let a = product(cut.drop_last());
        let b = dims.last() as nat;
        let c = product(dims.drop_last());
        assert((a * b) * times == c * b) by (nonlinear_arith)
            requires
                a * times == c,
        ;
    }
}

/// Where the split dim divides evenly, the ranks have together as many
/// elements as the whole tensor.
pub proof fn law_per_rank_elements(full: Seq<u64>, layout: WeightLayout)
    requires
        even_dim(layout) matches Some(d) && d < full.len() && full[d as int] as nat
            % layout_world(layout) as nat == 0,
        layout_world(layout) > 0,
    ensures
        product(per_rank_dims(full, layout)) * layout_world(layout) as nat == product(full),
{
    let d = even_dim(layout)->0 as int;
    let w = layout_world(layout) as nat;
    crate::arith::lemma_exact_div(full[d] as int, w as int);
    lemma_product_update(full, d, (full[d] / layout_world(layout) as u64) as u64, w);
}

fn copy_slice(dims: &[u64]) -> (r: Vec<u64>)
    ensures
        r@ == dims@,
{
    let mut r: Vec<u64> = Vec::new();
    let mut i: usize = 0;
    while i < dims.len()
        invariant
            i <= dims@.len(),
            r@ == dims@.take(i as int),
        decreases dims@.len() - i,
    {
        r.push(dims[i]);
        proof {
            assert(dims@.take(i as int + 1) =~= dims@.take(i as int).push(dims@[i as int]));
        }
        i = i + 1;
    }
    proof {
        assert(dims@.take(dims@.len() as int) =~= dims@);
    }
    r
}

/// The dims of what a rank holds under a layout.
pub fn compute_per_rank_dims(full_dims: &[u64], layout: WeightLayout) -> (r: Vec<u64>)
    requires
        layout is Replicated || layout_world(layout) > 0,
        layout_fits(layout),
    ensures
        r@ == per_rank_dims(full_dims@, layout),
{
    let mut d = copy_slice(full_dims);
    match layout {
        WeightLayout::Replicated => d,
        WeightLayout::ColParallel { world, dim } | WeightLayout::RowParallel { world, dim } => {
            if dim < d.len() {
                let x: u64 = d[dim] / world as u64;
                d.set(dim, x);
            }
            d
        },
        WeightLayout::FusedQkvParallel {
            world,
            num_v_heads,
            num_k_heads,
            head_v_dim,
            head_k_dim,
            kq_replicated,
        } => {
            if d.len() > 0 {
                if kq_replicated {
                    proof {
                        let (a, b) = (num_v_heads as int, head_v_dim as int);
                        let (c, e) = (num_k_heads as int, head_k_dim as int);
                        assert(a * b <= 0xFFFF_FFFF * 0xFFFF_FFFF) by (nonlinear_arith)
                            requires
                                0 <= a <= 0xFFFF_FFFF,
                                0 <= b <= 0xFFFF_FFFF,
                        ;
                        assert(c * e <= 0xFFFF_FFFF * 0xFFFF_FFFF) by (nonlinear_arith)
                            requires
                                0 <= c <= 0xFFFF_FFFF,
                                0 <= e <= 0xFFFF_FFFF,
                        ;
                        assert(a * b >= 0 && c * e >= 0) by (nonlinear_arith)
                            requires
                                a >= 0,
                                b >= 0,
                                c >= 0,
                                e >= 0,
                        ;
                    }
                    let v: u64 = num_v_heads as u64 * head_v_dim as u64;
                    let k: u64 = num_k_heads as u64 * head_k_dim as u64;
                    proof {
                        let w = world as int;
                        let vi = v as int;
                        assert(0 <= vi / w <= vi) by (nonlinear_arith)
                            requires
                                w > 0,
                                vi >= 0,
                        ;
                    }
                    let x: u64 = v / world as u64 + 2 * k;
                    d.set(0, x);
                } else {
                    let x: u64 = d[0] / world as u64;
                    d.set(0, x);
                }
            }
            d
        },
    }
}

/// A product of joined dims is that of the parts.
pub proof fn lemma_product_concat(a: Seq<u64>, b: Seq<u64>)
    ensures
        product(a + b) == product(a) * product(b),
        padded_product(a + b) == padded_product(a) * padded_product(b),
    decreases b.len(),
{
    if b.len() == 0 {
        assert(a + b =~= a);
        assert(product(b) == 1 && padded_product(b) == 1);
        assert(product(a) * 1 == product(a));
        assert(padded_product(a) * 1 == padded_product(a));
    } else {
        assert((a + b).drop_last() =~= a + b.drop_last());
        assert((a + b).last() == b.last());
        lemma_product_concat(a, b.drop_last());
        let x = product(a);
        let y = product(b.drop_last());
        let l = b.last() as nat;
        assert(x * y * l == x * (y * l)) by (nonlinear_arith);
        let px = padded_product(a);
        let py = padded_product(b.drop_last());
        let pl = if b.last() == 0 {
            1nat
        } else {
            b.last() as nat
        };
        assert(px * py * pl == px * (py * pl)) by (nonlinear_arith);
    }
}

/// Dims that are no larger have no larger a product.
pub proof fn lemma_padded_mono(a: Seq<u64>, b: Seq<u64>)
    requires
        a.len() == b.len(),
        forall|i: int| 0 <= i < a.len() ==> #[trigger] a[i] <= b[i],
    ensures
        padded_product(a) <= padded_product(b),
    decreases a.len(),
{
    if a.len() > 0 {
        let (c, d) = (a.drop_last(), b.drop_last());
        assert forall|i: int| 0 <= i < c.len() implies #[trigger] c[i] <= d[i] by {
            assert(a[i] <= b[i]);
        }
        lemma_padded_mono(c, d);
        let (x, y) = (padded_product(c), padded_product(d));
        let pad = |v: u64|
            if v == 0 {
                1nat
            } else {
                v as nat
            };
        let (u, v) = (pad(a.last()), pad(b.last()));
        assert(a[a.len() - 1] <= b[b.len() - 1]);
        assert(x * u <= y * v) by (nonlinear_arith)
            requires
                x <= y,
                u <= v,
        ;
    }
}

/// Elements between two neighbours along the axis.
pub open spec fn inner_of(dims: Seq<u64>, axis: int) -> nat {
    product(dims.skip(axis + 1))
}

/// Groups before the axis.
pub open spec fn outer_of(dims: Seq<u64>, axis: int) -> nat {
    product(dims.take(axis))
}

/// The part of group `o` that belongs to `rank` of `world`.
pub open spec fn group_part(
    xs: Seq<u32>,
    dims: Seq<u64>,
    axis: int,
    world: nat,
    rank: nat,
    o: int,
) -> Seq<u32> {
    let inner = inner_of(dims, axis);
    let per = dims[axis] as nat / world;
    let start = o * (dims[axis] as nat * inner) + rank * per * inner;
    xs.subrange(start, start + per * inner)
}

/// What belongs to `rank` where the axis is cut into `world` equal ranges.
pub open spec fn axis_part(xs: Seq<u32>, dims: Seq<u64>, axis: int, world: nat, rank: nat) -> Seq<
    u32,
> {
    flat(outer_of(dims, axis), |o: int| group_part(xs, dims, axis, world, rank, o))
}

/// The axis and the mesh size of a layout that cuts one axis.
pub open spec fn cut(layout: WeightLayout) -> Option<(u32, usize)> {
    match layout {
        WeightLayout::ColParallel { world, dim } => Some((world, dim)),
        WeightLayout::RowParallel { world, dim } => Some((world, dim)),
        _ => None,
    }
}

/// One axis is cut, and there are values to cut.
pub open spec fn is_cut(n: nat, dims: Seq<u64>, layout: WeightLayout) -> bool {
    match cut(layout) {
        Some((world, axis)) => {
            &&& n > 0
            &&& n == product(dims)
            &&& world > 1
            &&& axis < dims.len()
            &&& dims[axis as int] % world as u64 == 0
        },
        None => false,
    }
}

/// The error of a layout that is not supported for single values.
pub open spec fn fused_error(layout: WeightLayout) -> LoadError {
    match layout {
        WeightLayout::FusedQkvParallel {
            world,
            num_v_heads,
            num_k_heads,
            head_v_dim,
            head_k_dim,
            kq_replicated,
        } => LoadError::SliceFused {
            world,
            num_v_heads,
            num_k_heads,
            head_v_dim,
            head_k_dim,
            kq_replicated,
        },
        _ => arbitrary(),
    }
}

/// What a rank takes of the values of a tensor, or the first rule that is broken.
pub open spec fn sliced_values(
    xs: Seq<u32>,
    dims: Seq<u64>,
    layout: WeightLayout,
    rank: u32,
) -> Result<
    (Seq<u32>, Seq<u64>),
    LoadError,
> {
    if xs.len() != product(dims) {
        Err(LoadError::SliceLength { have: xs.len() as usize, total: product(dims) as usize })
    } else if layout is Replicated {
        Ok((xs, dims))
    } else {
        match cut(layout) {
            None => Err(fused_error(layout)),
            Some((world, axis)) => if world <= 1 {
                Ok((xs, dims))
            } else if axis >= dims.len() {
                Err(LoadError::SliceAxis { axis })
            } else if dims[axis as int] % world as u64 != 0 {
                Err(
                    LoadError::SliceIndivisible {
                        axis,
                        len: dims[axis as int] as usize,
                        world: world as usize,
                    },
                )
            } else {
                Ok(
                    (
                        axis_part(xs, dims, axis as int, world as nat, rank as nat),
                        dims.update(axis as int, (dims[axis as int] / world as u64) as u64),
                    ),
                )
            },
        }
    }
}

/// The outcome is the one described.
pub open spec fn values_agree(
    r: Result<(Vec<u32>, Vec<u64>), LoadError>,
    want: Result<(Seq<u32>, Seq<u64>), LoadError>,
) -> bool {
    match r {
        Ok((v, d)) => want == Ok::<(Seq<u32>, Seq<u64>), LoadError>((v@, d@)),
        Err(e) => want == Err::<(Seq<u32>, Seq<u64>), LoadError>(e),
    }
}

fn push_values(out: &mut Vec<u32>, xs: &Vec<u32>, start: usize, count: usize)
    requires
        start + count <= xs@.len(),
    ensures
        final(out)@ == old(out)@ + xs@.subrange(start as int, start + count),
{
    let ghost base = out@;
    let total: usize = xs.len();
    let mut j: usize = 0;
    proof {
        assert(out@ =~= base + xs@.subrange(start as int, start as int));
    }
    while j < count
        invariant
            j <= count,
            total == xs@.len(),
            start + count <= total,
            out@ == base + xs@.subrange(start as int, start + j),
        decreases count - j,
    {
        out.push(xs[start + j]);
        proof {
            assert(xs@.subrange(start as int, start + j + 1) =~= xs@.subrange(
                start as int,
                start + j,
            ).push(xs@[start + j]));
            assert(out@ =~= base + xs@.subrange(start as int, start + j + 1));
        }
        j = j + 1;
    }
}

fn copy_values(xs: &Vec<u32>) -> (r: Vec<u32>)
    ensures
        r@ == xs@,
{
    let mut r: Vec<u32> = Vec::new();
    push_values(&mut r, xs, 0, xs.len());
    proof {
        assert(r@ =~= xs@);
    }
    r
}

/// Dims from `from` up to `to`.
fn part_of(dims: &Vec<u64>, from: usize, to: usize) -> (r: Vec<u64>)
    requires
        from <= to <= dims@.len(),
    ensures
        r@ == dims@.subrange(from as int, to as int),
{
    let mut r: Vec<u64> = Vec::new();
    let mut i: usize = from;
    while i < to
        invariant
            from <= i <= to,
            to <= dims@.len(),
            r@ == dims@.subrange(from as int, i as int),
        decreases to - i,
    {
        r.push(dims[i]);
        proof {
            assert(dims@.subrange(from as int, i + 1) =~= dims@.subrange(
                from as int,
                i as int,
            ).push(dims@[i as int]));
        }
        i = i + 1;
    }
    r
}

proof fn lemma_axis_product(dims: Seq<u64>, axis: int)
    requires
        0 <= axis < dims.len(),
    ensures
        product(dims) == outer_of(dims, axis) * (dims[axis] as nat * inner_of(dims, axis)),
        padded_product(dims.take(axis)) <= padded_product(dims),
        padded_product(dims.skip(axis + 1)) <= padded_product(dims),
        dims[axis] <= padded_product(dims),
{
    let a = dims.take(axis);
    let m = seq![dims[axis]];
    let b = dims.skip(axis + 1);
    assert(dims =~= a + (m + b));
    lemma_product_concat(a, m + b);
    lemma_product_concat(m, b);
    assert(m.drop_last() =~= Seq::<u64>::empty());
    assert(product(m.drop_last()) == 1);
    assert(product(m) == 1 * (dims[axis] as nat));
    assert(product(m) == dims[axis]);
    let pm = padded_product(m);
    assert(padded_product(m.drop_last()) == 1);
    assert(pm >= dims[axis] && pm >= 1);
    lemma_padded_product_pos(a);
    lemma_padded_product_pos(b);
    let (pa, pb) = (padded_product(a), padded_product(b));
    assert(pa <= pa * (pm * pb) && pb <= pa * (pm * pb) && pm <= pa * (pm * pb))
        by (nonlinear_arith)
        requires
            pa >= 1,
            pb >= 1,
            pm >= 1,
    ;
}

/// Without values there is nothing to take, whatever the rank.
proof fn lemma_nothing_to_take(
    xs: Seq<u32>,
    dims: Seq<u64>,
    axis: int,
    world: nat,
    rank: nat,
    outer: nat,
)
    requires
        0 <= axis < dims.len(),
        world > 0,
        xs.len() == 0,
        outer > 0 ==> dims[axis] as nat * inner_of(dims, axis) == 0,
    ensures
        flat(outer, |o: int| group_part(xs, dims, axis, world, rank, o)) == Seq::<u32>::empty(),
    decreases outer,
{
    if outer > 0 {
        lemma_nothing_to_take(xs, dims, axis, world, rank, (outer - 1) as nat);
        let (len, inner) = (dims[axis] as int, inner_of(dims, axis) as int);
        let (w, r, o) = (world as int, rank as int, outer - 1);
        let per = len / w;
        assert(per * inner == 0 && r * per * inner == 0 && o * (len * inner) == 0)
            by (nonlinear_arith)
            requires
                len * inner == 0,
                per == len / w,
                w > 0,
        ;
        assert(group_part(xs, dims, axis, world, rank, outer - 1) =~= Seq::<u32>::empty());
    }
}

/// Takes the values that belong to `rank` out of the values of a tensor.
pub fn slice_f32_for_tp(
    f32s: &Vec<u32>,
    dims: &Vec<u64>,
    layout: WeightLayout,
    rank: u32,
) -> (r: Result<(Vec<u32>, Vec<u64>), LoadError>)
    requires
        padded_product(dims@) <= usize::MAX,
        is_cut(f32s@.len(), dims@, layout) ==> rank < layout_world(layout),
    ensures
        values_agree(r, sliced_values(f32s@, dims@, layout, rank)),
{
    let total: usize = dims_product(dims);
    if f32s.len() != total {
        return Err(LoadError::SliceLength { have: f32s.len(), total });
    }
    let (world, axis): (u32, usize) = match layout {
        WeightLayout::Replicated => {
            return Ok((copy_values(f32s), copy_dims(dims)));
        },
        WeightLayout::ColParallel { world, dim } => (world, dim),
        WeightLayout::RowParallel { world, dim } => (world, dim),
        WeightLayout::FusedQkvParallel {
            world,
            num_v_heads,
            num_k_heads,
            head_v_dim,
            head_k_dim,
            kq_replicated,
        } => {
            return Err(
                LoadError::SliceFused {
                    world,
                    num_v_heads,
                    num_k_heads,
                    head_v_dim,
                    head_k_dim,
                    kq_replicated,
                },
            );
        },
    };
    if world <= 1 {
        return Ok((copy_values(f32s), copy_dims(dims)));
    }
    if axis >= dims.len() {
        return Err(LoadError::SliceAxis { axis });
    }
    proof {
        lemma_axis_product(dims@, axis as int);
    }
    let axis_len: usize = dims[axis] as usize;
    if axis_len % world as usize != 0 {
        return Err(
            LoadError::SliceIndivisible { axis, len: axis_len, world: world as usize },
        );
    }
    let before = part_of(dims, 0, axis);
    let after = part_of(dims, axis + 1, dims.len());
    proof {
        assert(before@ =~= dims@.take(axis as int));
        assert(after@ =~= dims@.skip(axis + 1));
    }
    let outer: usize = dims_product(&before);
    let inner: usize = dims_product(&after);
    let per: usize = axis_len / world as usize;
    let mut new_dims = copy_dims(dims);
    new_dims.set(axis, per as u64);
    if total == 0 {
        proof {
            let (g, len, n) = (outer as int, axis_len as int, inner as int);
            assert(g > 0 ==> len * n == 0) by (nonlinear_arith)
                requires
                    g * (len * n) == 0,
            ;
            lemma_nothing_to_take(
                f32s@,
                dims@,
                axis as int,
                world as nat,
                rank as nat,
                outer as nat,
            );
        }
        return Ok((Vec::new(), new_dims));
    }
    let mut out: Vec<u32> = Vec::new();
    let ghost f = |o: int| group_part(f32s@, dims@, axis as int, world as nat, rank as nat, o);
    let mut o: usize = 0;
    while o < outer
        invariant
            o <= outer,
            f == (|o: int|
                group_part(f32s@, dims@, axis as int, world as nat, rank as nat, o)),
            out@ == flat(o as nat, f),
            axis < dims@.len(),
            axis_len == dims@[axis as int],
            outer == outer_of(dims@, axis as int),
            inner == inner_of(dims@, axis as int),
            world > 1,
            rank < world,
            per == axis_len as nat / world as nat,
            axis_len % world as usize == 0,
            total == f32s@.len(),
            total == outer * (axis_len * inner),
        decreases outer - o,
    {
        proof {
            lemma_group_fits(
                outer as int,
                axis_len as int,
                inner as int,
                world as int,
                rank as int,
                o as int,
            );
        }
        let start: usize = o * (axis_len * inner) + rank as usize * per * inner;
        push_values(&mut out, f32s, start, per * inner);
        proof {
            assert(out@ =~= flat((o + 1) as nat, f));
        }
        o = o + 1;
    }
    Ok((out, new_dims))
}

proof fn lemma_group_fits(outer: int, len: int, inner: int, world: int, rank: int, o: int)
    requires
        0 <= o < outer,
        len >= 0,
        inner >= 0,
        0 <= rank < world,
        len % world == 0,
    ensures
        ({
            let per = len / world;
            &&& 0 <= len * inner
            &&& 0 <= o * (len * inner) <= outer * (len * inner)
            &&& 0 <= rank * per
            &&& 0 <= rank * per * inner <= len * inner
            &&& 0 <= per * inner
            &&& rank * per <= len
            &&& o * (len * inner) + rank * per * inner + per * inner <= outer * (len * inner)
            &&& len * inner <= outer * (len * inner)
        }),
{
    let per = len / world;
    assert(per * world == len && per >= 0) by (nonlinear_arith)
        requires
            per == len / world,
            len % world == 0,
            len >= 0,
            world > 0,
    ;
    assert((rank + 1) * per <= len && rank * per >= 0) by (nonlinear_arith)
        requires
            per * world == len,
            0 <= rank < world,
            per >= 0,
    ;
    assert((rank + 1) * per == rank * per + per) by (nonlinear_arith);
    assert((rank * per + per) * inner <= len * inner && 0 <= per * inner && 0 <= rank * per * inner)
        by (nonlinear_arith)
        requires
            rank * per + per <= len,
            inner >= 0,
            per >= 0,
            rank * per >= 0,
    ;
    assert((rank * per + per) * inner == rank * per * inner + per * inner) by (nonlinear_arith);
    let g = len * inner;
    assert(g >= 0) by (nonlinear_arith)
        requires
            g == len * inner,
            len >= 0,
            inner >= 0,
    ;
    assert(o * g + g <= outer * g && 0 <= o * g && g <= outer * g) by (nonlinear_arith)
        requires
            0 <= o < outer,
            g >= 0,
    ;
}

/// The row of the fused tensor that becomes row `d` of one half. For each key
/// head the fused tensor has the beta rows of its value heads, then the alpha
/// rows.
pub open spec fn fused_row(d: nat, n_rep: nat, alpha: bool) -> nat {
    (d / n_rep) * (2 * n_rep) + d % n_rep + if alpha {
        n_rep
    } else {
        0
    }
}

/// Row `d` of one half.
pub open spec fn half_row(src: Seq<u32>, d: nat, n_rep: nat, cols: nat, alpha: bool) -> Seq<u32> {
    let row = fused_row(d, n_rep, alpha);
    src.subrange((row * cols) as int, (row * cols + cols) as int)
}

/// One half of a fused tensor of `2 * n` rows of `cols` values.
pub open spec fn half_rows(src: Seq<u32>, n: nat, n_rep: nat, cols: nat, alpha: bool) -> Seq<u32> {
    flat(n, |d: int| half_row(src, d as nat, n_rep, cols, alpha))
}

proof fn lemma_fused_row_bound(d: nat, n: nat, n_rep: nat, alpha: bool)
    requires
        n_rep > 0,
        d < n,
        n % n_rep == 0,
    ensures
        fused_row(d, n_rep, alpha) < 2 * n,
        (d / n_rep) * (2 * n_rep) <= 2 * n,
{
    let q = d / n_rep;
    let m = d % n_rep;
    let k = n / n_rep;
    assert(d == q * n_rep + m && 0 <= m < n_rep) by (nonlinear_arith)
        requires
            q == d / n_rep,
            m == d % n_rep,
            n_rep > 0,
    ;
    assert(n == k * n_rep) by (nonlinear_arith)
        requires
            k == n / n_rep,
            n % n_rep == 0,
            n_rep > 0,
    ;
    assert(q < k) by (nonlinear_arith)
        requires
            q * n_rep + m < k * n_rep,
            0 <= m,
            n_rep > 0,
    ;
    assert((q + 1) * (2 * n_rep) <= 2 * (k * n_rep)) by (nonlinear_arith)
        requires
            q < k,
            n_rep > 0,
    ;
    assert((q + 1) * (2 * n_rep) == q * (2 * n_rep) + 2 * n_rep) by (nonlinear_arith);
}

/// Takes one half out of the values of a fused tensor.
pub fn take_half(
    src: &Vec<u32>,
    num_v_heads: usize,
    n_rep: usize,
    cols: usize,
    alpha: bool,
) -> (out: Vec<u32>)
    requires
        n_rep > 0,
        num_v_heads % n_rep == 0,
        src@.len() == 2 * num_v_heads * cols,
    ensures
        out@ == half_rows(src@, num_v_heads as nat, n_rep as nat, cols as nat, alpha),
        out@.len() == num_v_heads * cols,
{
    let total: usize = src.len();
    let ghost n = num_v_heads as nat;
    let ghost nr = n_rep as nat;
    let ghost nc = cols as nat;
    let ghost f = |d: int| half_row(src@, d as nat, nr, nc, alpha);
    let mut out: Vec<u32> = Vec::new();
    let mut d: usize = 0;
    if cols == 0 {
        proof {
            assert(2 * n * cols == 0 && n * cols == 0);
            assert forall|i: int| 0 <= i < n implies #[trigger] f(i) == (|i: int|
                Seq::<u32>::empty())(i) by {
                lemma_fused_row_bound(i as nat, n, n_rep as nat, alpha);
                let row = fused_row(i as nat, n_rep as nat, alpha);
                assert(row * cols == 0) by (nonlinear_arith)
                    requires
                        cols == 0,
                ;
                assert(src@.subrange(0, 0) =~= Seq::<u32>::empty());
            }
            crate::plan::lemma_flat_same(n, f, |i: int| Seq::<u32>::empty());
            lemma_flat_empty::<u32>(n);
        }
        return out;
    }
    proof {
        assert(2 * n <= 2 * n * cols) by (nonlinear_arith)
            requires
                cols >= 1,
        ;
    }
    while d < num_v_heads
        invariant
            d <= num_v_heads,
            n == num_v_heads,
            n_rep > 0,
            cols > 0,
            num_v_heads % n_rep == 0,
            total == src@.len(),
            total == 2 * num_v_heads * cols,
            2 * n <= total,
            nr == n_rep,
            nc == cols,
            f == (|d: int| half_row(src@, d as nat, nr, nc, alpha)),
            out@ == flat(d as nat, f),
            out@.len() == d * cols,
        decreases num_v_heads - d,
    {
        proof {
            lemma_fused_row_bound(d as nat, n, n_rep as nat, alpha);
            assert(n_rep <= n) by (nonlinear_arith)
                requires
                    n > 0,
                    n_rep > 0,
                    n % n_rep as nat == 0,
            ;
        }
        let row: usize = (d / n_rep) * (2 * n_rep) + d % n_rep + if alpha {
            n_rep
        } else {
            0
        };
        proof {
            let (rw, c, m) = (row as int, cols as int, 2 * n as int);
            assert(rw * c + c <= m * c && 0 <= rw * c) by (nonlinear_arith)
                requires
                    0 <= rw < m,
                    c > 0,
            ;
            assert(m * c == total);
            let dd = d as int;
            assert((dd + 1) * c == dd * c + c) by (nonlinear_arith);
        }
        push_values(&mut out, src, row * cols, cols);
        proof {
            assert(out@ =~= flat((d + 1) as nat, f));
        }
        d = d + 1;
    }
    out
}

proof fn lemma_flat_empty<T>(n: nat)
    ensures
        flat(n, |i: int| Seq::<T>::empty()) == Seq::<T>::empty(),
    decreases n,
{
    if n > 0 {
        lemma_flat_empty::<T>((n - 1) as nat);
        assert(flat(n, |i: int| Seq::<T>::empty()) =~= Seq::<T>::empty());
    }
}

/// Every row of a fused tensor goes to exactly one row of one half.
pub proof fn law_halves_partition_rows(row: nat, n: nat, n_rep: nat)
    requires
        n_rep > 0,
        n % n_rep == 0,
        row < 2 * n,
    ensures
        ({
            let alpha = row % (2 * n_rep) >= n_rep;
            let d = row / (2 * n_rep) * n_rep + row % n_rep;
            &&& d < n
            &&& fused_row(d, n_rep, alpha) == row
            &&& forall|e: nat, b: bool|
                e < n && #[trigger] fused_row(e, n_rep, b) == row ==> e == d && b == alpha
        }),
{
    let w = 2 * n_rep;
    let q = row / w;
    let m = row % w;
    let k = n / n_rep;
    assert(row == q * w + m && m < w) by (nonlinear_arith)
        requires
            q == row / w,
            m == row % w,
            w > 0,
    ;
    assert(n == k * n_rep) by (nonlinear_arith)
        requires
            k == n / n_rep,
            n % n_rep == 0,
            n_rep > 0,
    ;
    assert(q < k) by (nonlinear_arith)
        requires
            q * w + m < 2 * (k * n_rep),
            w == 2 * n_rep,
            m >= 0,
            n_rep > 0,
    ;
    let alpha = m >= n_rep;
    let t = if alpha {
        (m - n_rep) as nat
    } else {
        m
    };
    assert(row == (2 * q + if alpha {
        1int
    } else {
        0
    }) * n_rep + t) by (nonlinear_arith)
        requires
            row == q * w + m,
            w == 2 * n_rep,
            m == t + if alpha {
                n_rep as int
            } else {
                0
            },
    ;
    let h = 2 * q + if alpha {
        1int
    } else {
        0
    };
    lemma_div_mod(h, n_rep as int, t as int, row as int);
    let d = (q * n_rep + t) as nat;
    lemma_div_mod(q as int, n_rep as int, t as int, d as int);
    assert(d == row / w * n_rep + row % n_rep);
    assert(d < n) by (nonlinear_arith)
        requires
            d == q * n_rep + t,
            t < n_rep,
            q < k,
            n == k * n_rep,
    ;
    assert(fused_row(d, n_rep, alpha) == row);
    assert forall|e: nat, b: bool|
        e < n && #[trigger] fused_row(e, n_rep, b) == row implies e == d && b == alpha by {
        let eq = e / n_rep;
        let em = e % n_rep;
        assert(e == eq * n_rep + em && em < n_rep) by (nonlinear_arith)
            requires
                eq == e / n_rep,
                em == e % n_rep,
                n_rep > 0,
        ;
        let off = em + if b {
            n_rep as int
        } else {
            0
        };
        lemma_div_mod(eq as int, w as int, off, row as int);
    }
}

proof fn lemma_div_mod(q: int, n: int, r: int, x: int)
    requires
        n > 0,
        0 <= r < n,
        x == q * n + r,
    ensures
        x / n == q,
        x % n == r,
{
    vstd::arithmetic::div_mod::lemma_fundamental_div_mod_converse(x, n, q, r);
}

/// Why a fused tensor cannot be taken apart for a mesh.
pub open spec fn tp_split_error(
    name: String,
    dims: Seq<u64>,
    cfg: &Qwen3MoEConfig,
    world: u32,
) -> Option<LoadError> {
    if dims.len() != 2 {
        Some(LoadError::TpBaDims { name })
    } else {
        match cfg.gdn {
            None => Some(LoadError::TpBaNoGdn { arch: cfg.arch }),
            Some(g) => if dims[0] != 2 * g.num_v_heads {
                Some(
                    LoadError::TpBaRows {
                        name,
                        rows: dims[0] as usize,
                        want: (2 * g.num_v_heads) as usize,
                    },
                )
            } else if g.num_v_heads as nat % world as nat != 0 {
                Some(LoadError::TpBaWorld { num_v_heads: g.num_v_heads, world })
            } else if g.num_v_heads % g.num_k_heads != 0 {
                Some(
                    LoadError::TpBaHeads { num_v_heads: g.num_v_heads, num_k_heads: g.num_k_heads },
                )
            } else if dims[1] % 32 != 0 {
                Some(LoadError::TpBaCols { cols: dims[1] as usize })
            } else if !spec_ends_with(name@, ".ssm_ba.weight"@) {
                Some(LoadError::TpBaName { name })
            } else {
                None
            },
        }
    }
}

/// The rows of a fused tensor can be counted, and where its heads are dealt out and
/// grouped there are ranks and key heads.
pub open spec fn tp_split_counted(dims: Seq<u64>, cfg: &Qwen3MoEConfig, world: u32) -> bool {
    &&& ba_rows_fit(dims, cfg)
    &&& ba_rows_match(dims, cfg) ==> {
        &&& world > 0
        &&& cfg.gdn->0.num_v_heads as nat % world as nat == 0 ==> cfg.gdn->0.num_k_heads > 0
    }
}

/// Whether a fused tensor can be taken apart for a mesh.
pub fn check_ssm_ba_split(info: &TensorInfo, cfg: &Qwen3MoEConfig, world: u32) -> (res: Result<
    (),
    LoadError,
>)
    requires
        info.fits(),
        tp_split_counted(info.dims@, cfg, world),
    ensures
        res == (match tp_split_error(info.name, info.dims@, cfg, world) {
            None => Ok::<(), LoadError>(()),
            Some(e) => Err(e),
        }),
{
    if info.dims.len() != 2 {
        return Err(LoadError::TpBaDims { name: info.name.clone() });
    }
    proof {
        lemma_axis_product(info.dims@, 0);
        lemma_axis_product(info.dims@, 1);
        lemma_padded_fits(*info);
    }
    let rows: usize = info.dims[0] as usize;
    let cols: usize = info.dims[1] as usize;
    match &cfg.gdn {
        None => Err(LoadError::TpBaNoGdn { arch: cfg.arch.clone() }),
        Some(g) => {
            if rows != 2 * g.num_v_heads {
                return Err(
                    LoadError::TpBaRows { name: info.name.clone(), rows, want: 2 * g.num_v_heads },
                );
            }
            if g.num_v_heads % world as usize != 0 {
                return Err(LoadError::TpBaWorld { num_v_heads: g.num_v_heads, world });
            }
            if g.num_v_heads % g.num_k_heads != 0 {
                return Err(
                    LoadError::TpBaHeads { num_v_heads: g.num_v_heads, num_k_heads: g.num_k_heads },
                );
            }
            if cols % QK8_0 != 0 {
                return Err(LoadError::TpBaCols { cols });
            }
            if !ends_with(info.name.as_str(), ".ssm_ba.weight") {
                return Err(LoadError::TpBaName { name: info.name.clone() });
            }
            Ok(())
        },
    }
}

proof fn lemma_padded_fits(info: TensorInfo)
    requires
        info.fits(),
    ensures
        padded_product(info.dims@) <= usize::MAX,
{
    let p = padded_product(info.dims@);
    let t = info.dtype.spec_type_size();
    assert(p <= p * t) by (nonlinear_arith)
        requires
            t >= 1,
            p >= 0,
    ;
}

/// The rows of one half that belong to `rank`: of `[num_v_heads, cols]`, a
/// contiguous range of rows.
pub fn half_for_rank(
    half: &Vec<u32>,
    num_v_heads: usize,
    cols: usize,
    world: u32,
    rank: u32,
) -> (r: Result<(Vec<u32>, Vec<u64>), LoadError>)
    requires
        is_cut(
            half@.len(),
            seq![num_v_heads as u64, cols as u64],
            WeightLayout::ColParallel { world, dim: 0 },
        ) ==> rank < world,
        padded_product(seq![num_v_heads as u64, cols as u64]) <= usize::MAX,
    ensures
        values_agree(
            r,
            sliced_values(
                half@,
                seq![num_v_heads as u64, cols as u64],
                WeightLayout::ColParallel { world, dim: 0 },
                rank,
            ),
        ),
{
    let mut dims: Vec<u64> = Vec::new();
    dims.push(num_v_heads as u64);
    dims.push(cols as u64);
    proof {
        assert(dims@ =~= seq![num_v_heads as u64, cols as u64]);
    }
    slice_f32_for_tp(half, &dims, WeightLayout::ColParallel { world, dim: 0 }, rank)
}

/// The two halves of a fused tensor whose values are `values`.
pub open spec fn halves_of(
    a: Seq<u32>,
    b: Seq<u32>,
    values: Seq<u32>,
    cfg: &Qwen3MoEConfig,
    cols: nat,
) -> bool {
    let g = cfg.gdn->0;
    let n_rep = (g.num_v_heads / g.num_k_heads) as nat;
    &&& a == half_rows(values, g.num_v_heads as nat, n_rep, cols, true)
    &&& b == half_rows(values, g.num_v_heads as nat, n_rep, cols, false)
}

proof fn lemma_heads_group(v: usize, k: usize)
    requires
        k > 0,
        v > 0,
        v % k == 0,
    ensures
        v / k > 0,
        v % (v / k) as usize == 0,
{
    let q = (v / k) as int;
    let (vi, ki) = (v as int, k as int);
    assert(q * ki == vi) by (nonlinear_arith)
        requires
            q == vi / ki,
            vi % ki == 0,
            ki > 0,
    ;
    assert(q > 0) by (nonlinear_arith)
        requires
            q * ki == vi,
            vi > 0,
            ki > 0,
    ;
    vstd::arithmetic::div_mod::lemma_fundamental_div_mod_converse(vi, q, ki, 0);
}

/// Takes the alpha and the beta rows out of the values of a fused tensor.
pub fn split_halves(
    values: &Vec<u32>,
    cfg: &Qwen3MoEConfig,
    num_v_heads: usize,
    num_k_heads: usize,
    cols: usize,
) -> (r: (Vec<u32>, Vec<u32>))
    requires
        cfg.gdn matches Some(g) && g.num_v_heads == num_v_heads && g.num_k_heads == num_k_heads,
        num_k_heads > 0,
        num_v_heads % num_k_heads == 0,
        values@.len() == 2 * num_v_heads * cols,
    ensures
        halves_of(r.0@, r.1@, values@, cfg, cols as nat),
        r.0@.len() == num_v_heads * cols,
        r.1@.len() == num_v_heads * cols,
{
    if num_v_heads == 0 {
        let (a, b): (Vec<u32>, Vec<u32>) = (Vec::new(), Vec::new());
        proof {
            assert(0 * cols == 0);
        }
        return (a, b);
    }
    proof {
        lemma_heads_group(num_v_heads, num_k_heads);
    }
    let n_rep: usize = num_v_heads / num_k_heads;
    let a = take_half(values, num_v_heads, n_rep, cols, true);
    let b = take_half(values, num_v_heads, n_rep, cols, false);
    (a, b)
}

/// The values of the alpha and beta tensors that a fused tensor is taken apart
/// into. `values` are those of the whole tensor.
pub fn split_ssm_ba_to_q8_0(r: &ResolvedTensor, values: &Vec<u32>, cfg: &Qwen3MoEConfig) -> (res:
    Result<(Vec<u32>, Vec<u32>), LoadError>)
    requires
        sizes_fit(*r),
        split_counted(r.dims@, cfg),
        values@.len() == elems(*r),
    ensures
        match split_error(*r, cfg) {
            Some(e) => res == Err::<(Vec<u32>, Vec<u32>), LoadError>(e),
            None => res is Ok && halves_of(
                res->Ok_0.0@,
                res->Ok_0.1@,
                values@,
                cfg,
                r.dims@[1] as nat,
            ),
        },
{
    match check(r, Rule::Split, 0, cfg) {
        Ok(_) => {},
        Err(e) => return Err(e),
    }
    proof {
        lemma_dims_fit(*r);
    }
    let cols: usize = r.dims[1] as usize;
    let (v, k): (usize, usize) = match &cfg.gdn {
        Some(g) => (g.num_v_heads, g.num_k_heads),
        None => (0, 1),
    };
    Ok(split_halves(values, cfg, v, k, cols))
}

/// A rank's share of one half.
pub open spec fn half_share(
    s: TpSlice,
    half: Seq<u32>,
    num_v_heads: usize,
    cols: usize,
    world: u32,
    rank: u32,
) -> bool {
    let layout = WeightLayout::ColParallel { world, dim: 0 };
    &&& s.layout == layout
    &&& s.dtype == GgmlDType::Q8_0
    &&& s.data matches TpData::Blocks(v) && sliced_values(
        half,
        seq![num_v_heads as u64, cols as u64],
        layout,
        rank,
    ) == Ok::<(Seq<u32>, Seq<u64>), LoadError>((v@, s.dims@))
}

proof fn lemma_two_dims(a: u64, b: u64)
    ensures
        product(seq![a, b]) == a * b,
        padded_product(seq![a, b]) == (if a == 0 {
            1int
        } else {
            a as int
        }) * (if b == 0 {
            1int
        } else {
            b as int
        }),
{
    let d = seq![a, b];
    assert(d.drop_last() =~= seq![a]);
    assert(seq![a].drop_last() =~= Seq::<u64>::empty());
    assert(product(seq![a].drop_last()) == 1);
    assert(padded_product(seq![a].drop_last()) == 1);
    assert(product(seq![a]) == 1 * (a as nat));
    assert(padded_product(seq![a]) == 1 * if a == 0 {
        1nat
    } else {
        a as nat
    });
}

/// A rank's shares of the alpha and beta tensors that a fused tensor is taken
/// apart into. `values` are those of the whole tensor.
pub fn upload_tp_ssm_ba_split<'a>(
    info: &TensorInfo,
    values: &Vec<u32>,
    cfg: &Qwen3MoEConfig,
    world: u32,
    rank: u32,
) -> (res: Result<(TpSlice<'a>, TpSlice<'a>), LoadError>)
    requires
        info.fits(),
        tp_split_counted(info.dims@, cfg, world),
        tp_split_error(info.name, info.dims@, cfg, world) is None && values@.len() > 0 && world > 1
            ==> rank < world,
        values@.len() == info.elem_count(),
    ensures
        match tp_split_error(info.name, info.dims@, cfg, world) {
            Some(e) => res == Err::<(TpSlice<'a>, TpSlice<'a>), LoadError>(e),
            None => res is Ok && ({
                let v = cfg.gdn->0.num_v_heads;
                let cols = info.dims@[1] as usize;
                exists|a: Seq<u32>, b: Seq<u32>|
                    #[trigger] halves_of(a, b, values@, cfg, cols as nat) && half_share(
                        res->Ok_0.0,
                        a,
                        v,
                        cols,
                        world,
                        rank,
                    ) && half_share(res->Ok_0.1, b, v, cols, world, rank)
            }),
        },
{
    match check_ssm_ba_split(info, cfg, world) {
        Ok(_) => {},
        Err(e) => return Err(e),
    }
    proof {
        lemma_axis_product(info.dims@, 0);
        lemma_axis_product(info.dims@, 1);
        lemma_padded_fits(*info);
        lemma_two_dims(info.dims@[0], info.dims@[1]);
        assert(info.dims@ =~= seq![info.dims@[0], info.dims@[1]]);
    }
    let cols: usize = info.dims[1] as usize;
    let (v, k): (usize, usize) = match &cfg.gdn {
        Some(g) => (g.num_v_heads, g.num_k_heads),
        None => (0, 1),
    };
    proof {
        assert(values@.len() == 2 * v * cols);
    }
    let (a, b) = split_halves(values, cfg, v, k, cols);
    proof {
        lemma_two_dims(v as u64, cols as u64);
        let p0 = if info.dims@[0] == 0 {
            1int
        } else {
            info.dims@[0] as int
        };
        let p1 = if cols == 0 {
            1int
        } else {
            cols as int
        };
        let q0 = if v == 0 {
            1int
        } else {
            v as int
        };
        assert(q0 * p1 <= p0 * p1) by (nonlinear_arith)
            requires
                q0 <= p0,
                p1 >= 1,
        ;
    }
    let (x, dx) = match half_for_rank(&a, v, cols, world, rank) {
        Ok(r) => r,
        Err(e) => return Err(e),
    };
    let (y, dy) = match half_for_rank(&b, v, cols, world, rank) {
        Ok(r) => r,
        Err(e) => return Err(e),
    };
    let layout = WeightLayout::ColParallel { world, dim: 0 };
    proof {
        assert(halves_of(a@, b@, values@, cfg, cols as nat));
    }
    Ok(
        (
            TpSlice { layout, dims: dx, dtype: GgmlDType::Q8_0, data: TpData::Blocks(x) },
            TpSlice { layout, dims: dy, dtype: GgmlDType::Q8_0, data: TpData::Blocks(y) },
        ),
    )
}

/// Why a tensor cannot be loaded on a mesh.
#[derive(Debug, Clone, PartialEq, Eq)]
pub enum TpLoadError {
    Load(LoadError),
    Slice(SliceFailure),
}

impl TpLoadError {
    pub open spec fn spec_message(&self, dims: Seq<u64>) -> Seq<char> {
        match self {
            TpLoadError::Load(e) => e.spec_message(dims),
            TpLoadError::Slice(e) => e.spec_message(),
        }
    }

    /// The error as a sentence. `dims` are those of the tensor it is about.
    pub fn message(&self, dims: &Vec<u64>) -> (r: String)
        ensures
            r@ == self.spec_message(dims@),
    {
        match self {
            TpLoadError::Load(e) => e.message(dims),
            TpLoadError::Slice(e) => e.message(),
        }
    }
}

/// What a rank stores of a tensor.
#[derive(Debug)]
pub enum TpData<'a> {
    /// Bytes as the file has them.
    Bytes(Cow<'a, [u8]>),
    /// Singles that are stored as halves.
    Halves(Vec<u32>),
    /// Singles that are quantised in blocks of the slice's type.
    Blocks(Vec<u32>),
}

/// A rank's share of a tensor.
#[derive(Debug)]
pub struct TpSlice<'a> {
    pub layout: WeightLayout,
    pub dims: Vec<u64>,
    pub dtype: GgmlDType,
    pub data: TpData<'a>,
}

/// The slice cannot be made on block boundaries.
pub open spec fn is_misaligned(e: SliceFailure) -> bool {
    e matches SliceFailure::Slice(s) && s is InnerBlockMisaligned
}

/// The bytes that a rank takes and the layout it takes them with: experts
/// that cannot be cut on block boundaries stay whole on every rank.
pub open spec fn bytes_taken(
    info: TensorInfo,
    raw: Seq<u8>,
    configured: WeightLayout,
    rank: u32,
) -> Result<(Seq<u8>, WeightLayout), SliceFailure> {
    match slice_spec(info, raw, configured, rank) {
        Ok(b) => Ok((b, configured)),
        Err(e) => if is_misaligned(e) && is_expert_name(info.name@) {
            Ok((raw, WeightLayout::Replicated))
        } else {
            Err(e)
        },
    }
}

/// Whether a failed slice is replaced by the whole tensor.
pub fn is_moe_block_misalignment(err: &SliceFailure, tensor_name: &str) -> (r: bool)
    ensures
        r == (is_misaligned(*err) && is_expert_name(tensor_name@)),
{
    let misaligned = match err {
        SliceFailure::Slice(SliceError::InnerBlockMisaligned { .. }) => true,
        _ => false,
    };
    misaligned && is_expert(tensor_name)
}

/// What a rank stores of the bytes `b` that it takes, `n` elements.
pub open spec fn stored(
    name: Seq<char>,
    dtype: GgmlDType,
    b: Seq<u8>,
    n: nat,
    data: TpData,
    stored_dtype: GgmlDType,
) -> bool {
    if dtype == GgmlDType::BF16 {
        stored_dtype == GgmlDType::Q8_0 && (data matches TpData::Blocks(v) && v@ == widened(b, n))
    } else {
        match target_dtype(name, dtype) {
            Some(GgmlDType::F16) => stored_dtype == GgmlDType::F16 && (data matches TpData::Halves(
                v,
            ) && v@ == singles(b, n)),
            Some(_) => stored_dtype == GgmlDType::Q8_0 && (data matches TpData::Blocks(v) && v@
                == singles(b, n)),
            None => stored_dtype == dtype && (data matches TpData::Bytes(c) && c@ == b),
        }
    }
}

/// Why the bytes that a rank takes cannot be stored.
pub open spec fn stored_error(
    name: Seq<char>,
    dtype: GgmlDType,
    have: nat,
    n: nat,
) -> Option<LoadError> {
    if dtype == GgmlDType::BF16 {
        if have < n * 2 {
            Some(LoadError::Bf16Source { have: have as usize, want: (n * 2) as usize })
        } else if n % 32 != 0 {
            Some(LoadError::Bf16SourceBlocks { elems: n as usize })
        } else {
            None
        }
    } else {
        match target_dtype(name, dtype) {
            Some(GgmlDType::F16) => if have < n * 4 {
                Some(LoadError::F32Source { have: have as usize, want: (n * 4) as usize })
            } else {
                None
            },
            Some(_) => if have < n * 4 {
                Some(LoadError::F32Q8Source { have: have as usize, want: (n * 4) as usize })
            } else if n % 32 != 0 {
                Some(LoadError::F32Q8Blocks { elems: n as usize })
            } else {
                None
            },
            None => None,
        }
    }
}

/// What a rank makes of a tensor that is cut as it is stored.
pub open spec fn share_agrees(
    r: Result<TpSlice, TpLoadError>,
    info: TensorInfo,
    raw: Seq<u8>,
    configured: WeightLayout,
    rank: u32,
) -> bool {
    match bytes_taken(info, raw, configured, rank) {
        Err(e) => r == Err::<TpSlice, TpLoadError>(TpLoadError::Slice(e)),
        Ok((b, used)) => if b.len() == 0 {
            r == Err::<TpSlice, TpLoadError>(
                TpLoadError::Load(LoadError::EmptySlice { name: info.name, rank }),
            )
        } else {
            let d = per_rank_dims(info.dims@, used);
            match stored_error(info.name@, info.dtype, b.len(), product(d)) {
                Some(e) => r == Err::<TpSlice, TpLoadError>(TpLoadError::Load(e)),
                None => r is Ok && ({
                    let s = r->Ok_0;
                    &&& s.layout == used
                    &&& s.dims@ == d
                    &&& stored(info.name@, info.dtype, b, product(d), s.data, s.dtype)
                }),
            }
        },
    }
}

proof fn lemma_layout_of_tensor(tp: Qwen35DenseTpLayout, name: Seq<char>, l: WeightLayout)
    requires
        tp.spec_for_tensor(name) == Some(l),
        tp.spec_world() > 0,
    ensures
        axis_supported(l),
        l is Replicated || layout_world(l) > 0,
        l matches WeightLayout::FusedQkvParallel { kq_replicated, .. } ==> !kq_replicated,
{
}

proof fn lemma_shares_fit(full: Seq<u64>, l: WeightLayout)
    requires
        l is Replicated || layout_world(l) > 0,
        l matches WeightLayout::FusedQkvParallel { kq_replicated, .. } ==> !kq_replicated,
    ensures
        padded_product(per_rank_dims(full, l)) <= padded_product(full),
        product(per_rank_dims(full, l)) <= padded_product(full),
{
    let d = per_rank_dims(full, l);
    assert(d.len() == full.len());
    assert forall|i: int| 0 <= i < d.len() implies #[trigger] d[i] <= full[i] by {
        let w = layout_world(l) as u64;
        if !(l is Replicated) {
            let x = full[i] as int;
            let wi = w as int;
            assert(x / wi <= x) by (nonlinear_arith)
                requires
                    x >= 0,
                    wi > 0,
            ;
        }
    }
    lemma_padded_mono(d, full);
    lemma_product_le_padded(d);
}

/// A rank's share of a tensor that is cut as it is stored. `raw` are the bytes
/// of the whole tensor.
fn upload_share<'a>(
    info: &TensorInfo,
    raw: &'a [u8],
    configured: WeightLayout,
    rank: u32,
) -> (r: Result<TpSlice<'a>, TpLoadError>)
    requires
        info.fits(),
        axis_supported(configured),
        configured is Replicated || layout_world(configured) > 0,
        configured matches WeightLayout::FusedQkvParallel { kq_replicated, .. } ==> !kq_replicated,
        layout_fits(configured),
    ensures
        share_agrees(r, *info, raw@, configured, rank),
{
    let (bytes, used): (Cow<'a, [u8]>, WeightLayout) = match slice_for_tp(
        info,
        raw,
        configured,
        rank,
    ) {
        Ok(b) => (b, configured),
        Err(e) => {
            if is_moe_block_misalignment(&e, info.name.as_str()) {
                (Cow::Borrowed(raw), WeightLayout::Replicated)
            } else {
                return Err(TpLoadError::Slice(e));
            }
        },
    };
    let ghost b = bytes@;
    proof {
        assert(bytes_taken(*info, raw@, configured, rank) == Ok::<
            (Seq<u8>, WeightLayout),
            SliceFailure,
        >((b, used)));
    }
    let dims = compute_per_rank_dims(info.dims.as_slice(), used);
    proof {
        lemma_shares_fit(info.dims@, used);
        lemma_padded_fits(*info);
    }
    let n: usize = dims_product(&dims);
    proof {
        let p = padded_product(info.dims@);
        let t = info.dtype.spec_type_size();
        let ni = n as nat;
        assert(ni * t <= p * t) by (nonlinear_arith)
            requires
                ni <= p,
                t >= 1,
        ;
    }
    let name = info.name.as_str();
    match bytes {
        Cow::Borrowed(x) => {
            if x.len() == 0 {
                return Err(
                    TpLoadError::Load(LoadError::EmptySlice { name: info.name.clone(), rank }),
                );
            }
            match convert_share(name, info.dtype, x, n) {
                Err(e) => Err(TpLoadError::Load(e)),
                Ok(Some((data, dtype))) => Ok(TpSlice { layout: used, dims, dtype, data }),
                Ok(None) => Ok(
                    TpSlice {
                        layout: used,
                        dims,
                        dtype: info.dtype,
                        data: TpData::Bytes(Cow::Borrowed(x)),
                    },
                ),
            }
        },
        Cow::Owned(v) => {
            if v.len() == 0 {
                return Err(
                    TpLoadError::Load(LoadError::EmptySlice { name: info.name.clone(), rank }),
                );
            }
            match convert_share(name, info.dtype, v.as_slice(), n) {
                Err(e) => Err(TpLoadError::Load(e)),
                Ok(Some((data, dtype))) => Ok(TpSlice { layout: used, dims, dtype, data }),
                Ok(None) => Ok(
                    TpSlice {
                        layout: used,
                        dims,
                        dtype: info.dtype,
                        data: TpData::Bytes(Cow::Owned(v)),
                    },
                ),
            }
        },
    }
}

/// What becomes of the bytes that a rank takes, `None` where they stay.
fn convert_share<'a>(name: &str, dtype: GgmlDType, b: &[u8], n: usize) -> (r: Result<
    Option<(TpData<'a>, GgmlDType)>,
    LoadError,
>)
    requires
        n * dtype.spec_type_size() <= usize::MAX,
    ensures
        match stored_error(name@, dtype, b@.len(), n as nat) {
            Some(e) => r == Err::<Option<(TpData<'a>, GgmlDType)>, LoadError>(e),
            None => match r {
                Ok(Some((data, d))) => stored(name@, dtype, b@, n as nat, data, d),
                Ok(None) => dtype != GgmlDType::BF16 && target_dtype(name@, dtype) is None,
                Err(_) => false,
            },
        },
{
    if dtype == GgmlDType::BF16 {
        return match quantize_bf16_to_q8_0(b, n) {
            Ok(v) => Ok(Some((TpData::Blocks(v), GgmlDType::Q8_0))),
            Err(e) => Err(e),
        };
    }
    match tp_target_dtype(name, dtype) {
        None => Ok(None),
        Some(GgmlDType::F16) => match convert_f32_to_f16(b, n) {
            Ok(v) => Ok(Some((TpData::Halves(v), GgmlDType::F16))),
            Err(e) => Err(e),
        },
        Some(_) => match quantize_f32_to_q8_0(b, n) {
            Ok(v) => Ok(Some((TpData::Blocks(v), GgmlDType::Q8_0))),
            Err(e) => Err(e),
        },
    }
}

/// Elements per block of a type that a tensor is converted to.
pub open spec fn convert_block(target: GgmlDType) -> nat {
    if target == GgmlDType::Q8_0 {
        32
    } else {
        256
    }
}

/// What a rank makes of a tensor whose values were taken out of their blocks.
pub open spec fn values_share_agrees(
    r: Result<TpSlice, TpLoadError>,
    info: TensorInfo,
    xs: Seq<u32>,
    layout: WeightLayout,
    rank: u32,
) -> bool {
    match sliced_values(xs, info.dims@, layout, rank) {
        Err(e) => r == Err::<TpSlice, TpLoadError>(TpLoadError::Load(e)),
        Ok((v, d)) => {
            let target = convert_target(info.dtype);
            if target == GgmlDType::Q8_0 && v.len() % 32 != 0 {
                r == Err::<TpSlice, TpLoadError>(
                    TpLoadError::Load(LoadError::SliceQ8Blocks { elems: v.len() as usize }),
                )
            } else if v.len() % convert_block(target) != 0 {
                r == Err::<TpSlice, TpLoadError>(
                    TpLoadError::Load(
                        LoadError::SuperBlocks { name: info.name, rank, elems: v.len() as usize },
                    ),
                )
            } else {
                r is Ok && r->Ok_0.layout == layout && r->Ok_0.dims@ == d && r->Ok_0.dtype == target
                    && (r->Ok_0.data matches TpData::Blocks(w) && w@ == v)
            }
        },
    }
}

/// A rank's share of a tensor whose blocks cannot be cut: `f32s` are the values
/// of the whole tensor, and the share is put into blocks again.
pub fn upload_tp_via_dequant_to_q8_0<'a>(
    info: &TensorInfo,
    f32s: &Vec<u32>,
    layout: WeightLayout,
    rank: u32,
) -> (r: Result<TpSlice<'a>, TpLoadError>)
    requires
        info.fits(),
        is_cut(f32s@.len(), info.dims@, layout) ==> rank < layout_world(layout),
    ensures
        values_share_agrees(r, *info, f32s@, layout, rank),
{
    proof {
        lemma_padded_fits(*info);
    }
    let (v, d) = match slice_f32_for_tp(f32s, &info.dims, layout, rank) {
        Ok(x) => x,
        Err(e) => return Err(TpLoadError::Load(e)),
    };
    let target = pick_convert_target(info.dtype);
    if target == GgmlDType::Q8_0 {
        if v.len() % QK8_0 != 0 {
            return Err(TpLoadError::Load(LoadError::SliceQ8Blocks { elems: v.len() }));
        }
    } else if v.len() % QK_K != 0 {
        return Err(
            TpLoadError::Load(
                LoadError::SuperBlocks { name: info.name.clone(), rank, elems: v.len() },
            ),
        );
    }
    Ok(TpSlice { layout, dims: d, dtype: target, data: TpData::Blocks(v) })
}

/// How the ranks come by their shares of a tensor.
#[derive(Debug, Clone, Copy, PartialEq, Eq, Structural)]
pub enum TpRoute {
    /// The tensor holds alpha and beta, which are taken apart first.
    Split,
    /// The values are taken out of their blocks, cut, and put into blocks again.
    Values,
    /// The bytes are cut.
    Bytes,
}

/// How the ranks come by their shares of a tensor: an MXFP4 block cannot be cut.
pub open spec fn route_of(name: Seq<char>, dtype: GgmlDType) -> TpRoute {
    if spec_ends_with(name, ".ssm_ba.weight"@) {
        TpRoute::Split
    } else if dtype == GgmlDType::Mxfp4 {
        TpRoute::Values
    } else {
        TpRoute::Bytes
    }
}

/// How the ranks come by their shares of a tensor of a layer.
pub fn tp_route(name: &str, dtype: GgmlDType) -> (r: TpRoute)
    ensures
        r == route_of(name@, dtype),
{
    if ends_with(name, ".ssm_ba.weight") {
        TpRoute::Split
    } else if dtype == GgmlDType::Mxfp4 {
        TpRoute::Values
    } else {
        TpRoute::Bytes
    }
}

/// A rank's share of a tensor. `raw` are the bytes of the whole tensor; where
/// its blocks cannot be cut, `values` are its values.
pub fn upload_tp_with_layout<'a>(
    info: &TensorInfo,
    raw: &'a [u8],
    values: &Vec<u32>,
    tp: &Qwen35DenseTpLayout,
    rank: u32,
) -> (r: Result<TpSlice<'a>, TpLoadError>)
    requires
        info.fits(),
        tp.spec_world() > 0,
        tp.spec_for_tensor(info.name@) matches Some(l) ==> layout_fits(l),
        info.dtype == GgmlDType::Mxfp4 && (tp.spec_for_tensor(info.name@) matches Some(l) && is_cut(
            values@.len(),
            info.dims@,
            l,
        )) ==> rank < tp.spec_world(),
    ensures
        match tp.spec_for_tensor(info.name@) {
            None => r == Err::<TpSlice, TpLoadError>(
                TpLoadError::Load(LoadError::NoLayout { name: info.name }),
            ),
            Some(configured) => if info.dtype == GgmlDType::Mxfp4 {
                values_share_agrees(r, *info, values@, configured, rank)
            } else {
                share_agrees(r, *info, raw@, configured, rank)
            },
        },
{
    let configured = match tp.for_tensor(info.name.as_str()) {
        Some(l) => l,
        None => {
            return Err(TpLoadError::Load(LoadError::NoLayout { name: info.name.clone() }));
        },
    };
    proof {
        lemma_layout_of_tensor(*tp, info.name@, configured);
    }
    if info.dtype == GgmlDType::Mxfp4 {
        return upload_tp_via_dequant_to_q8_0(info, values, configured, rank);
    }
    upload_share(info, raw, configured, rank)
}

} // verus!
