//! Host-side weight slicing for tensor-parallel uploads.
//!
//! Given a [`WeightLayout`] and a rank, the functions here produce the bytes
//! that belong to that rank. A 2-D tensor is stored row by row; a row of
//! `inner` elements takes `inner / block_size * type_size` bytes.
//!
//! - `Replicated`: the whole tensor.
//! - `ColParallel { dim: 0 }`: a contiguous range of rows.
//! - `RowParallel { dim: 1 }`: the rank's column range of every row, packed.
//! - `ColParallel { dim: 1 }`: of a 3-D expert tensor, a row range per expert.
//! - `RowParallel { dim: 2 }`: of a 3-D expert tensor, a column range of every
//!   row of every expert.
//! - `FusedQkvParallel`: the rank's head ranges of Q, K and V, packed.
//!
//! Ranges along the contiguous dim must fall on block boundaries.

use crate::arith::{
    lemma_div_mod_split, lemma_div_mod_unique, lemma_exact_div, lemma_group_bound, lemma_mul_mono,
};
use crate::tensor::{padded_product, row_size, GgmlDType, TensorInfo};
use crate::text::{dec, owned, push_dec};
use crate::weight_layout::WeightLayout;
use std::borrow::Cow;
use vstd::prelude::*;

verus! {

/// Violations of a layout's shape rules.
#[derive(Debug, Clone, PartialEq, Eq)]
pub enum SliceError {
    UnsupportedAxis { layout: String, dim: usize },
    OuterIndivisible { name: String, outer: usize, world: u32 },
    InnerIndivisible { name: String, inner: usize, world: u32 },
    InnerBlockMisaligned { name: String, per_rank_inner: usize, block_size: usize },
    NotTwoDimensional { name: String, ndims: usize },
    RankOutOfRange { rank: u32, world: u32 },
}

impl SliceError {
    pub open spec fn spec_message(&self) -> Seq<char> {
        match self {
            SliceError::UnsupportedAxis { layout, dim } => "TP slicing along dim "@ + dec(
                *dim as nat,
            ) + " for layout "@ + layout@
                + " is not implemented (only ColParallel{dim=0} and RowParallel{dim=1} are wired)"@,
            SliceError::OuterIndivisible { name, outer, world } => "tensor `"@ + name@
                + "` outer dim "@ + dec(*outer as nat) + " is not divisible by world "@ + dec(
                *world as nat,
            ),
            SliceError::InnerIndivisible { name, inner, world } => "tensor `"@ + name@
                + "` inner dim "@ + dec(*inner as nat) + " is not divisible by world "@ + dec(
                *world as nat,
            ),
            SliceError::InnerBlockMisaligned { name, per_rank_inner, block_size } => "tensor `"@
                + name@ + "` per-rank inner length "@ + dec(*per_rank_inner as nat)
                + " is not a multiple of dtype block_size "@ + dec(*block_size as nat),
            SliceError::NotTwoDimensional { name, ndims } => "tensor `"@ + name@
                + "` is not 2-D (has "@ + dec(*ndims as nat)
                + " dims); TP slicing requires 2-D"@,
            SliceError::RankOutOfRange { rank, world } => "rank "@ + dec(*rank as nat)
                + " is out of range for world "@ + dec(*world as nat),
        }
    }

    /// The error as a sentence.
    pub fn message(&self) -> (r: String)
        ensures
            r@ == self.spec_message(),
    {
        match self {
            SliceError::UnsupportedAxis { layout, dim } => {
                let mut s = owned("TP slicing along dim ");
                push_dec(&mut s, *dim as u64);
                s.append(" for layout ");
                s.append(layout.as_str());
                s.append(
                    " is not implemented (only ColParallel{dim=0} and RowParallel{dim=1} are wired)",
                );
                s
            },
            SliceError::OuterIndivisible { name, outer, world } => {
                let mut s = owned("tensor `");
                s.append(name.as_str());
                s.append("` outer dim ");
                push_dec(&mut s, *outer as u64);
                s.append(" is not divisible by world ");
                push_dec(&mut s, *world as u64);
                s
            },
            SliceError::InnerIndivisible { name, inner, world } => {
                let mut s = owned("tensor `");
                s.append(name.as_str());
                s.append("` inner dim ");
                push_dec(&mut s, *inner as u64);
                s.append(" is not divisible by world ");
                push_dec(&mut s, *world as u64);
                s
            },
            SliceError::InnerBlockMisaligned { name, per_rank_inner, block_size } => {
                let mut s = owned("tensor `");
                s.append(name.as_str());
                s.append("` per-rank inner length ");
                push_dec(&mut s, *per_rank_inner as u64);
                s.append(" is not a multiple of dtype block_size ");
                push_dec(&mut s, *block_size as u64);
                s
            },
            SliceError::NotTwoDimensional { name, ndims } => {
                let mut s = owned("tensor `");
                s.append(name.as_str());
                s.append("` is not 2-D (has ");
                push_dec(&mut s, *ndims as u64);
                s.append(" dims); TP slicing requires 2-D");
                s
            },
            SliceError::RankOutOfRange { rank, world } => {
                let mut s = owned("rank ");
                push_dec(&mut s, *rank as u64);
                s.append(" is out of range for world ");
                push_dec(&mut s, *world as u64);
                s
            },
        }
    }
}

/// Why a slice could not be made.
#[derive(Debug, Clone, PartialEq, Eq)]
pub enum SliceFailure {
    /// A shape rule is violated.
    Slice(SliceError),
    /// The data is shorter than the rows that the slice reads.
    Truncated { name: String, have: usize, expected: usize },
    /// The data ends within the rank's slab of `expert`.
    TruncatedExpert { name: String, have: usize, expected: usize, expert: usize },
    /// The data ends within the rank's columns of `row` of `expert`.
    TruncatedRow { name: String, have: usize, expected: usize, expert: usize, row: usize },
    FusedVHeads { num_v_heads: u32, world: u32 },
    FusedKHeads { num_k_heads: u32, world: u32 },
    FusedOuter { name: String, outer: usize, v_part: usize, k_part: usize, expected: usize },
    /// The byte total does not split evenly.
    TotalIndivisible { name: String, total: usize, world: u32 },
    VPartIndivisible { name: String, v_part: usize, world: u32 },
    OuterZero { name: String },
    TotalNotRows { name: String, total: usize, outer: usize },
}

impl SliceFailure {
    pub open spec fn spec_message(&self) -> Seq<char> {
        match self {
            SliceFailure::Slice(e) => e.spec_message(),
            SliceFailure::Truncated { name, have, expected } => "tensor `"@ + name@ + "` mmap "@
                + dec(*have as nat) + " < expected "@ + dec(*expected as nat),
            SliceFailure::TruncatedExpert { name, have, expected, expert } => "tensor `"@ + name@
                + "` mmap "@ + dec(*have as nat) + " < expected "@ + dec(*expected as nat)
                + " (expert "@ + dec(*expert as nat) + ")"@,
            SliceFailure::TruncatedRow { name, have, expected, expert, row } => "tensor `"@ + name@
                + "` mmap "@ + dec(*have as nat) + " < expected "@ + dec(*expected as nat)
                + " (expert "@ + dec(*expert as nat) + " row "@ + dec(*row as nat) + ")"@,
            SliceFailure::FusedVHeads { num_v_heads, world } => "FusedQkvParallel: num_v_heads "@
                + dec(*num_v_heads as nat) + " not divisible by world "@ + dec(*world as nat),
            SliceFailure::FusedKHeads { num_k_heads, world } => "FusedQkvParallel: num_k_heads "@
                + dec(*num_k_heads as nat) + " not divisible by world "@ + dec(*world as nat),
            SliceFailure::FusedOuter { name, outer, v_part, k_part, expected } =>
                "FusedQkvParallel: tensor `"@ + name@ + "` outer dim "@ + dec(*outer as nat)
                + " != V_part("@ + dec(*v_part as nat) + ") + 2·K_part("@ + dec(*k_part as nat)
                + ") = "@ + dec(*expected as nat),
            SliceFailure::TotalIndivisible { name, total, world } => "tensor `"@ + name@
                + "` total bytes "@ + dec(*total as nat) + " not divisible by world "@ + dec(
                *world as nat,
            ),
            SliceFailure::VPartIndivisible { name, v_part, world } => "tensor `"@ + name@
                + "` V_part rows "@ + dec(*v_part as nat) + " not divisible by world "@ + dec(
                *world as nat,
            ),
            SliceFailure::OuterZero { name } => "tensor `"@ + name@ + "` outer_full=0"@,
            SliceFailure::TotalNotRows { name, total, outer } => "tensor `"@ + name@
                + "` total bytes "@ + dec(*total as nat) + " not a multiple of outer_full "@ + dec(
                *outer as nat,
            ) + " (row_bytes derivation failed)"@,
        }
    }

    /// The failure as a sentence.
    pub fn message(&self) -> (r: String)
        ensures
            r@ == self.spec_message(),
    {
        match self {
            SliceFailure::Slice(e) => e.message(),
            SliceFailure::Truncated { name, have, expected } => {
                let mut s = owned("tensor `");
                s.append(name.as_str());
                s.append("` mmap ");
                push_dec(&mut s, *have as u64);
                s.append(" < expected ");
                push_dec(&mut s, *expected as u64);
                s
            },
            SliceFailure::TruncatedExpert { name, have, expected, expert } => {
                let mut s = owned("tensor `");
                s.append(name.as_str());
                s.append("` mmap ");
                push_dec(&mut s, *have as u64);
                s.append(" < expected ");
                push_dec(&mut s, *expected as u64);
                s.append(" (expert ");
                push_dec(&mut s, *expert as u64);
                s.append(")");
                s
            },
            SliceFailure::TruncatedRow { name, have, expected, expert, row } => {
                let mut s = owned("tensor `");
                s.append(name.as_str());
                s.append("` mmap ");
                push_dec(&mut s, *have as u64);
                s.append(" < expected ");
                push_dec(&mut s, *expected as u64);
                s.append(" (expert ");
                push_dec(&mut s, *expert as u64);
                s.append(" row ");
                push_dec(&mut s, *row as u64);
                s.append(")");
                s
            },
            SliceFailure::FusedVHeads { num_v_heads, world } => {
                let mut s = owned("FusedQkvParallel: num_v_heads ");
                push_dec(&mut s, *num_v_heads as u64);
                s.append(" not divisible by world ");
                push_dec(&mut s, *world as u64);
                s
            },
            SliceFailure::FusedKHeads { num_k_heads, world } => {
                let mut s = owned("FusedQkvParallel: num_k_heads ");
                push_dec(&mut s, *num_k_heads as u64);
                s.append(" not divisible by world ");
                push_dec(&mut s, *world as u64);
                s
            },
            SliceFailure::FusedOuter { name, outer, v_part, k_part, expected } => {
                let mut s = owned("FusedQkvParallel: tensor `");
                s.append(name.as_str());
                s.append("` outer dim ");
                push_dec(&mut s, *outer as u64);
                s.append(" != V_part(");
                push_dec(&mut s, *v_part as u64);
                s.append(") + 2·K_part(");
                push_dec(&mut s, *k_part as u64);
                s.append(") = ");
                push_dec(&mut s, *expected as u64);
                s
            },
            SliceFailure::TotalIndivisible { name, total, world } => {
                let mut s = owned("tensor `");
                s.append(name.as_str());
                s.append("` total bytes ");
                push_dec(&mut s, *total as u64);
                s.append(" not divisible by world ");
                push_dec(&mut s, *world as u64);
                s
            },
            SliceFailure::VPartIndivisible { name, v_part, world } => {
                let mut s = owned("tensor `");
                s.append(name.as_str());
                s.append("` V_part rows ");
                push_dec(&mut s, *v_part as u64);
                s.append(" not divisible by world ");
                push_dec(&mut s, *world as u64);
                s
            },
            SliceFailure::OuterZero { name } => {
                let mut s = owned("tensor `");
                s.append(name.as_str());
                s.append("` outer_full=0");
                s
            },
            SliceFailure::TotalNotRows { name, total, outer } => {
                let mut s = owned("tensor `");
                s.append(name.as_str());
                s.append("` total bytes ");
                push_dec(&mut s, *total as u64);
                s.append(" not a multiple of outer_full ");
                push_dec(&mut s, *outer as u64);
                s.append(" (row_bytes derivation failed)");
                s
            },
        }
    }
}

/// The `len` bytes at offset `off` of each of the first `n` groups of `stride`
/// bytes, packed one after the other.
pub open spec fn strided(raw: Seq<u8>, n: nat, stride: nat, off: nat, len: nat) -> Seq<u8> {
    Seq::new(n * len, |j: int| raw[(j / len as int) * stride + off + j % len as int])
}

/// The first of `n` groups whose range `off..off + len` ends beyond `have`.
pub open spec fn first_short(have: nat, n: nat, stride: nat, off: nat, len: nat) -> Option<nat>
    decreases n,
{
    if n == 0 {
        None
    } else {
        match first_short(have, (n - 1) as nat, stride, off, len) {
            Some(i) => Some(i),
            None => if (n - 1) * stride + off + len > have {
                Some((n - 1) as nat)
            } else {
                None
            },
        }
    }
}

proof fn lemma_first_short_bounds(have: nat, n: nat, stride: nat, off: nat, len: nat)
    ensures
        first_short(have, n, stride, off, len) is None ==> (forall|i: int|
            0 <= i < n ==> #[trigger] (i * stride) + off + len <= have),
        first_short(have, n, stride, off, len) matches Some(k) ==> k < n && k * stride + off + len
            > have,
    decreases n,
{
    if n > 0 {
        lemma_first_short_bounds(have, (n - 1) as nat, stride, off, len);
    }
}

/// Once a group is short, every longer run of groups has the same first short one.
proof fn lemma_first_short_stays(have: nat, n: nat, m: nat, stride: nat, off: nat, len: nat)
    requires
        n <= m,
        first_short(have, n, stride, off, len) is Some,
    ensures
        first_short(have, m, stride, off, len) == first_short(have, n, stride, off, len),
    decreases m,
{
    if n < m {
        lemma_first_short_stays(have, n, (m - 1) as nat, stride, off, len);
    }
}

proof fn lemma_strided_step(raw: Seq<u8>, n: nat, stride: nat, off: nat, len: nat)
    requires
        off + len <= stride,
        n * stride + off + len <= raw.len(),
    ensures
        strided(raw, n + 1, stride, off, len) =~= strided(raw, n, stride, off, len) + raw.subrange(
            (n * stride + off) as int,
            (n * stride + off + len) as int,
        ),
{
    let big = strided(raw, n + 1, stride, off, len);
    let part = raw.subrange((n * stride + off) as int, (n * stride + off + len) as int);
    let small = strided(raw, n, stride, off, len);
    assert((n + 1) * len == n * len + len) by (nonlinear_arith);
    assert(small.len() == n * len);
    assert(big.len() == small.len() + part.len());
    assert forall|j: int| 0 <= j < big.len() implies big[j] == (small + part)[j] by {
        if j >= n * len {
            lemma_div_mod_unique(n as int, len as int, j - n * len);
            assert(big[j] == raw[(j / len as int) * stride + off + j % len as int]);
        }
    }
}

/// Packs `strided(raw, n, stride, off, len)`, or names the first group that is
/// cut off by the end of `raw`.
fn gather(raw: &[u8], n: usize, stride: usize, off: usize, len: usize) -> (r: Result<
    Vec<u8>,
    usize,
>)
    requires
        off + len <= stride,
        n * stride <= usize::MAX,
    ensures
        match r {
            Ok(v) => {
                &&& first_short(raw@.len(), n as nat, stride as nat, off as nat, len as nat) is None
                &&& v@ == strided(raw@, n as nat, stride as nat, off as nat, len as nat)
            },
            Err(i) => first_short(raw@.len(), n as nat, stride as nat, off as nat, len as nat)
                == Some(i as nat),
        },
{
    let mut packed: Vec<u8> = Vec::new();
    let mut i: usize = 0;
    proof {
        assert(strided(raw@, 0, stride as nat, off as nat, len as nat) =~= Seq::<u8>::empty())
            by {
            assert(0 * len as nat == 0);
        }
    }
    while i < n
        invariant
            i <= n,
            off + len <= stride,
            n * stride <= usize::MAX,
            first_short(raw@.len(), i as nat, stride as nat, off as nat, len as nat) is None,
            packed@ == strided(raw@, i as nat, stride as nat, off as nat, len as nat),
        decreases n - i,
    {
        proof {
            lemma_group_bound(i as int, n as int, stride as int);
        }
        let start: usize = i * stride + off;
        let end: usize = start + len;
        if end > raw.len() {
            proof {
                assert(first_short(
                    raw@.len(),
                    (i + 1) as nat,
                    stride as nat,
                    off as nat,
                    len as nat,
                ) == Some(i as nat));
                lemma_first_short_stays(
                    raw@.len(),
                    (i + 1) as nat,
                    n as nat,
                    stride as nat,
                    off as nat,
                    len as nat,
                );
            }
            return Err(i);
        }
        let part = vstd::slice::slice_subrange(raw, start, end);
        let ghost before = packed@;
        packed.extend_from_slice(part);
        proof {
            lemma_strided_step(raw@, i as nat, stride as nat, off as nat, len as nat);
            assert(packed@ =~= before + part@);
        }
        i = i + 1;
    }
    Ok(packed)
}

spec fn at_least_one(d: u64) -> nat {
    if d == 0 {
        1
    } else {
        d as nat
    }
}

proof fn lemma_row_size_le(dtype: GgmlDType, inner: nat)
    ensures
        row_size(dtype, inner) <= inner * dtype.spec_type_size(),
{
    let b = dtype.spec_block_size();
    let t = dtype.spec_type_size();
    assert(inner / b <= inner) by (nonlinear_arith)
        requires
            b >= 1,
    ;
    lemma_mul_mono((inner / b) as int, t as int, inner as int, t as int);
}

/// Sizes of a 1-D tensor that fits.
proof fn lemma_fits_1d(info: &TensorInfo)
    requires
        info.fits(),
        info.dims@.len() == 1,
    ensures
        info.dims@[0] as nat * info.dtype.spec_type_size() <= usize::MAX,
        info.dims@[0] <= usize::MAX,
{
    let d = info.dims@;
    assert(d.drop_last() =~= Seq::<u64>::empty());
    reveal_with_fuel(padded_product, 2);
    let t = info.dtype.spec_type_size();
    let p = at_least_one(d[0]);
    assert(padded_product(d) == 1 * p);
    lemma_mul_mono(d[0] as int, t as int, p as int, t as int);
    lemma_mul_mono(d[0] as int, 1, d[0] as int, t as int);
}

/// Sizes of a 2-D tensor that fits.
proof fn lemma_fits_2d(info: &TensorInfo)
    requires
        info.fits(),
        info.dims@.len() == 2,
    ensures
        info.dims@[0] <= usize::MAX,
        info.dims@[1] <= usize::MAX,
        row_size(info.dtype, info.dims@[1] as nat) <= usize::MAX,
        info.dims@[0] as nat * row_size(info.dtype, info.dims@[1] as nat) <= usize::MAX,
{
    let d = info.dims@;
    let t = info.dtype.spec_type_size();
    let p0 = at_least_one(d[0]);
    let p1 = at_least_one(d[1]);
    assert(d.drop_last().drop_last() =~= Seq::<u64>::empty());
    reveal_with_fuel(padded_product, 3);
    assert(padded_product(d) == 1 * p0 * p1);
    let rs = row_size(info.dtype, d[1] as nat);
    lemma_row_size_le(info.dtype, d[1] as nat);
    lemma_mul_mono(d[1] as int, t as int, p1 as int, t as int);
    assert(p0 * (p1 * t) == 1 * p0 * p1 * t) by (nonlinear_arith);
    lemma_mul_mono(d[0] as int, rs as int, p0 as int, (p1 * t) as int);
    assert(d[0] <= p0 * (p1 * t)) by (nonlinear_arith)
        requires
            d[0] <= p0,
            p1 >= 1,
            t >= 1,
    ;
    assert(p1 <= p0 * (p1 * t)) by (nonlinear_arith)
        requires
            p0 >= 1,
            p1 >= 1,
            t >= 1,
    ;
    assert(p1 * t <= p0 * (p1 * t)) by (nonlinear_arith)
        requires
            p0 >= 1,
            p1 >= 1,
            t >= 1,
    ;
}

/// Sizes of a 3-D tensor that fits.
proof fn lemma_fits_3d(info: &TensorInfo)
    requires
        info.fits(),
        info.dims@.len() == 3,
    ensures
        info.dims@[0] <= usize::MAX,
        info.dims@[1] <= usize::MAX,
        info.dims@[2] <= usize::MAX,
        info.dims@[0] * info.dims@[1] <= usize::MAX,
        row_size(info.dtype, info.dims@[2] as nat) <= usize::MAX,
        info.dims@[1] as nat * row_size(info.dtype, info.dims@[2] as nat) <= usize::MAX,
        info.dims@[0] as nat * (info.dims@[1] as nat * row_size(info.dtype, info.dims@[2] as nat))
            <= usize::MAX,
        (info.dims@[0] as nat * info.dims@[1] as nat) * row_size(
            info.dtype,
            info.dims@[2] as nat,
        ) <= usize::MAX,
{
    let d = info.dims@;
    let t = info.dtype.spec_type_size();
    let p0 = at_least_one(d[0]);
    let p1 = at_least_one(d[1]);
    let p2 = at_least_one(d[2]);
    assert(d.drop_last().drop_last().drop_last() =~= Seq::<u64>::empty());
    reveal_with_fuel(padded_product, 4);
    assert(padded_product(d) == 1 * p0 * p1 * p2);
    let rs = row_size(info.dtype, d[2] as nat);
    lemma_row_size_le(info.dtype, d[2] as nat);
    let q = p2 * t;
    assert(q >= 1) by (nonlinear_arith)
        requires
            p2 >= 1,
            t >= 1,
            q == p2 * t,
    ;
    lemma_mul_mono(d[2] as int, t as int, p2 as int, t as int);
    assert(p0 * (p1 * q) == 1 * p0 * p1 * p2 * t) by (nonlinear_arith)
        requires
            q == p2 * t,
    ;
    lemma_mul_mono(d[1] as int, rs as int, p1 as int, q as int);
    lemma_mul_mono(d[0] as int, (d[1] as nat * rs) as int, p0 as int, (p1 * q) as int);
    assert((d[0] as nat * d[1] as nat) * rs == d[0] as nat * (d[1] as nat * rs))
        by (nonlinear_arith);
    assert(p1 * q <= p0 * (p1 * q)) by (nonlinear_arith)
        requires
            p0 >= 1,
            p1 >= 1,
            q >= 1,
    ;
    assert(q <= p1 * q) by (nonlinear_arith)
        requires
            p1 >= 1,
            q >= 1,
    ;
    assert(p1 <= p1 * q) by (nonlinear_arith)
        requires
            p1 >= 1,
            q >= 1,
    ;
    assert(p2 <= q) by (nonlinear_arith)
        requires
            q == p2 * t,
            t >= 1,
    ;
    assert(p0 * p1 <= p0 * (p1 * q)) by (nonlinear_arith)
        requires
            p0 >= 1,
            p1 >= 1,
            q >= 1,
    ;
    lemma_mul_mono(d[0] as int, d[1] as int, p0 as int, p1 as int);
    assert(p0 <= p0 * p1) by (nonlinear_arith)
        requires
            p0 >= 1,
            p1 >= 1,
    ;
}

/// The bytes that rank `rank` of `world` keeps of a 1-D or 2-D tensor split by
/// rows, or the first rule that is broken.
pub open spec fn col_dim0_spec(info: TensorInfo, raw: Seq<u8>, world: u32, rank: u32) -> Result<
    Seq<u8>,
    SliceFailure,
> {
    let dims = info.dims@;
    if rank >= world {
        Err(SliceFailure::Slice(SliceError::RankOutOfRange { rank, world }))
    } else if dims.len() == 0 || dims.len() > 2 {
        Err(
            SliceFailure::Slice(
                SliceError::NotTwoDimensional { name: info.name, ndims: dims.len() as usize },
            ),
        )
    } else if dims[0] as nat % world as nat != 0 {
        Err(
            SliceFailure::Slice(
                SliceError::OuterIndivisible { name: info.name, outer: dims[0] as usize, world },
            ),
        )
    } else {
        let rows = dims[0] as nat / world as nat;
        if dims.len() == 1 {
            let len = rows * info.dtype.spec_type_size();
            let start = rank as nat * rows * info.dtype.spec_type_size();
            if start + len > raw.len() {
                Err(
                    SliceFailure::Slice(
                        SliceError::OuterIndivisible {
                            name: info.name,
                            outer: dims[0] as usize,
                            world,
                        },
                    ),
                )
            } else {
                Ok(raw.subrange(start as int, (start + len) as int))
            }
        } else if dims[1] as nat % info.dtype.spec_block_size() != 0 {
            Err(
                SliceFailure::Slice(
                    SliceError::InnerBlockMisaligned {
                        name: info.name,
                        per_rank_inner: dims[1] as usize,
                        block_size: info.dtype.spec_block_size() as usize,
                    },
                ),
            )
        } else {
            let rb = row_size(info.dtype, dims[1] as nat);
            let start = rank as nat * rows * rb;
            let end = start + rows * rb;
            if raw.len() < end {
                Err(
                    SliceFailure::Truncated {
                        name: info.name,
                        have: raw.len() as usize,
                        expected: end as usize,
                    },
                )
            } else {
                Ok(raw.subrange(start as int, end as int))
            }
        }
    }
}

/// The bytes that rank `rank` of `world` keeps of a 2-D tensor split by columns,
/// or the first rule that is broken.
pub open spec fn row_dim1_spec(info: TensorInfo, raw: Seq<u8>, world: u32, rank: u32) -> Result<
    Seq<u8>,
    SliceFailure,
> {
    let dims = info.dims@;
    let bs = info.dtype.spec_block_size();
    if rank >= world {
        Err(SliceFailure::Slice(SliceError::RankOutOfRange { rank, world }))
    } else if dims.len() != 2 {
        Err(
            SliceFailure::Slice(
                SliceError::NotTwoDimensional { name: info.name, ndims: dims.len() as usize },
            ),
        )
    } else if dims[1] as nat % world as nat != 0 {
        Err(
            SliceFailure::Slice(
                SliceError::InnerIndivisible { name: info.name, inner: dims[1] as usize, world },
            ),
        )
    } else if (dims[1] as nat / world as nat) % bs != 0 {
        Err(
            SliceFailure::Slice(
                SliceError::InnerBlockMisaligned {
                    name: info.name,
                    per_rank_inner: (dims[1] as nat / world as nat) as usize,
                    block_size: bs as usize,
                },
            ),
        )
    } else {
        let full = row_size(info.dtype, dims[1] as nat);
        let local = row_size(info.dtype, dims[1] as nat / world as nat);
        let outer = dims[0] as nat;
        if raw.len() < outer * full {
            Err(
                SliceFailure::Truncated {
                    name: info.name,
                    have: raw.len() as usize,
                    expected: (outer * full) as usize,
                },
            )
        } else {
            Ok(strided(raw, outer, full, rank as nat * local, local))
        }
    }
}

/// The bytes that rank `rank` of `world` keeps of a 3-D expert tensor split
/// along dim 1, or the first rule that is broken.
pub open spec fn col_dim1_spec(info: TensorInfo, raw: Seq<u8>, world: u32, rank: u32) -> Result<
    Seq<u8>,
    SliceFailure,
> {
    let dims = info.dims@;
    let bs = info.dtype.spec_block_size();
    if rank >= world {
        Err(SliceFailure::Slice(SliceError::RankOutOfRange { rank, world }))
    } else if dims.len() != 3 {
        Err(
            SliceFailure::Slice(
                SliceError::NotTwoDimensional { name: info.name, ndims: dims.len() as usize },
            ),
        )
    } else if dims[1] as nat % world as nat != 0 {
        Err(
            SliceFailure::Slice(
                SliceError::OuterIndivisible { name: info.name, outer: dims[1] as usize, world },
            ),
        )
    } else if dims[2] as nat % bs != 0 {
        Err(
            SliceFailure::Slice(
                SliceError::InnerBlockMisaligned {
                    name: info.name,
                    per_rank_inner: dims[2] as usize,
                    block_size: bs as usize,
                },
            ),
        )
    } else {
        let rb = row_size(info.dtype, dims[2] as nat);
        let slab = dims[1] as nat * rb;
        let local = dims[1] as nat / world as nat * rb;
        let off = rank as nat * local;
        match first_short(raw.len(), dims[0] as nat, slab, off, local) {
            Some(e) => Err(
                SliceFailure::TruncatedExpert {
                    name: info.name,
                    have: raw.len() as usize,
                    expected: (e * slab + off + local) as usize,
                    expert: e as usize,
                },
            ),
            None => Ok(strided(raw, dims[0] as nat, slab, off, local)),
        }
    }
}

/// The bytes that rank `rank` of `world` keeps of a 3-D expert tensor split
/// along dim 2, or the first rule that is broken.
pub open spec fn row_dim2_spec(info: TensorInfo, raw: Seq<u8>, world: u32, rank: u32) -> Result<
    Seq<u8>,
    SliceFailure,
> {
    let dims = info.dims@;
    let bs = info.dtype.spec_block_size();
    if rank >= world {
        Err(SliceFailure::Slice(SliceError::RankOutOfRange { rank, world }))
    } else if dims.len() != 3 {
        Err(
            SliceFailure::Slice(
                SliceError::NotTwoDimensional { name: info.name, ndims: dims.len() as usize },
            ),
        )
    } else if dims[2] as nat % world as nat != 0 {
        Err(
            SliceFailure::Slice(
                SliceError::InnerIndivisible { name: info.name, inner: dims[2] as usize, world },
            ),
        )
    } else if (dims[2] as nat / world as nat) % bs != 0 {
        Err(
            SliceFailure::Slice(
                SliceError::InnerBlockMisaligned {
                    name: info.name,
                    per_rank_inner: (dims[2] as nat / world as nat) as usize,
                    block_size: bs as usize,
                },
            ),
        )
    } else {
        let full = row_size(info.dtype, dims[2] as nat);
        let local = row_size(info.dtype, dims[2] as nat / world as nat);
        let off = rank as nat * local;
        let rows = dims[0] as nat * dims[1] as nat;
        match first_short(raw.len(), rows, full, off, local) {
            Some(i) => Err(
                SliceFailure::TruncatedRow {
                    name: info.name,
                    have: raw.len() as usize,
                    expected: (i * full + off + local) as usize,
                    expert: (i / dims[1] as nat) as usize,
                    row: (i % dims[1] as nat) as usize,
                },
            ),
            None => Ok(strided(raw, rows, full, off, local)),
        }
    }
}

/// Head counts and head widths of a fused Q/K/V tensor.
#[derive(Debug, Clone, Copy, PartialEq, Eq, Structural)]
pub struct FusedHeads {
    pub num_v_heads: u32,
    pub num_k_heads: u32,
    pub head_v_dim: u32,
    pub head_k_dim: u32,
    pub kq_replicated: bool,
}

impl FusedHeads {
    /// Rows of the V part.
    pub open spec fn v_part(self) -> nat {
        self.num_v_heads as nat * self.head_v_dim as nat
    }

    /// Rows of the K part, and of the Q part.
    pub open spec fn k_part(self) -> nat {
        self.num_k_heads as nat * self.head_k_dim as nat
    }

    /// Rows of the whole tensor: Q, K and V.
    pub open spec fn outer(self) -> nat {
        self.v_part() + 2 * self.k_part()
    }

    /// Rows of Q (and of K) that one rank keeps.
    pub open spec fn k_rows(self, world: u32) -> nat {
        if self.kq_replicated {
            self.k_part()
        } else {
            self.k_part() / world as nat
        }
    }

    /// First row of the rank's part of Q.
    pub open spec fn q_start(self, world: u32, rank: u32) -> nat {
        if self.kq_replicated {
            0
        } else {
            rank as nat * (self.k_part() / world as nat)
        }
    }

    /// First row of the rank's part of K.
    pub open spec fn k_start(self, world: u32, rank: u32) -> nat {
        self.k_part() + self.q_start(world, rank)
    }

    /// Rows of V that one rank keeps.
    pub open spec fn v_rows(self, world: u32) -> nat {
        self.v_part() / world as nat
    }

    /// First row of the rank's part of V.
    pub open spec fn v_start(self, world: u32, rank: u32) -> nat {
        2 * self.k_part() + rank as nat * self.v_rows(world)
    }
}

/// The rows `start..start + count` of a tensor with `rb` bytes per row.
pub open spec fn rows_of(raw: Seq<u8>, start: nat, count: nat, rb: nat) -> Seq<u8> {
    raw.subrange((start * rb) as int, ((start + count) * rb) as int)
}

/// The bytes that rank `rank` of `world` keeps of a fused `[Q | K | V]` tensor:
/// its rows of Q, then of K, then of V; or the first rule that is broken.
pub open spec fn fused_spec(
    info: TensorInfo,
    raw: Seq<u8>,
    world: u32,
    rank: u32,
    h: FusedHeads,
) -> Result<Seq<u8>, SliceFailure> {
    let dims = info.dims@;
    let bs = info.dtype.spec_block_size();
    if rank >= world {
        Err(SliceFailure::Slice(SliceError::RankOutOfRange { rank, world }))
    } else if h.num_v_heads as nat % world as nat != 0 {
        Err(SliceFailure::FusedVHeads { num_v_heads: h.num_v_heads, world })
    } else if !h.kq_replicated && h.num_k_heads as nat % world as nat != 0 {
        Err(SliceFailure::FusedKHeads { num_k_heads: h.num_k_heads, world })
    } else if dims.len() != 2 {
        Err(
            SliceFailure::Slice(
                SliceError::NotTwoDimensional { name: info.name, ndims: dims.len() as usize },
            ),
        )
    } else if dims[0] as nat != h.outer() {
        Err(
            SliceFailure::FusedOuter {
                name: info.name,
                outer: dims[0] as usize,
                v_part: h.v_part() as usize,
                k_part: h.k_part() as usize,
                expected: h.outer() as usize,
            },
        )
    } else if dims[1] as nat % bs != 0 {
        Err(
            SliceFailure::Slice(
                SliceError::InnerBlockMisaligned {
                    name: info.name,
                    per_rank_inner: dims[1] as usize,
                    block_size: bs as usize,
                },
            ),
        )
    } else {
        let rb = row_size(info.dtype, dims[1] as nat);
        if raw.len() < h.outer() * rb {
            Err(
                SliceFailure::Truncated {
                    name: info.name,
                    have: raw.len() as usize,
                    expected: (h.outer() * rb) as usize,
                },
            )
        } else {
            Ok(
                rows_of(raw, h.q_start(world, rank), h.k_rows(world), rb) + rows_of(
                    raw,
                    h.k_start(world, rank),
                    h.k_rows(world),
                    rb,
                ) + rows_of(raw, h.v_start(world, rank), h.v_rows(world), rb),
            )
        }
    }
}

/// Whether a slicer exists for the layout's axis.
pub open spec fn axis_supported(layout: WeightLayout) -> bool {
    match layout {
        WeightLayout::ColParallel { dim, .. } => dim == 0 || dim == 1,
        WeightLayout::RowParallel { dim, .. } => dim == 1 || dim == 2,
        _ => true,
    }
}

/// The bytes that `rank` keeps under `layout`, or the first rule that is
/// broken, for a layout whose axis is supported.
pub open spec fn slice_spec(
    info: TensorInfo,
    raw: Seq<u8>,
    layout: WeightLayout,
    rank: u32,
) -> Result<Seq<u8>, SliceFailure> {
    match layout {
        WeightLayout::Replicated => Ok(raw),
        WeightLayout::ColParallel { world, dim } => if dim == 0 {
            col_dim0_spec(info, raw, world, rank)
        } else {
            col_dim1_spec(info, raw, world, rank)
        },
        WeightLayout::RowParallel { world, dim } => if dim == 1 {
            row_dim1_spec(info, raw, world, rank)
        } else {
            row_dim2_spec(info, raw, world, rank)
        },
        WeightLayout::FusedQkvParallel {
            world,
            num_v_heads,
            num_k_heads,
            head_v_dim,
            head_k_dim,
            kq_replicated,
        } => fused_spec(
            info,
            raw,
            world,
            rank,
            FusedHeads { num_v_heads, num_k_heads, head_v_dim, head_k_dim, kq_replicated },
        ),
    }
}

/// The outcome `r` is the one that `want` describes.
pub open spec fn slice_agrees(
    r: Result<Cow<'_, [u8]>, SliceFailure>,
    want: Result<Seq<u8>, SliceFailure>,
) -> bool {
    match r {
        Ok(c) => want == Ok::<Seq<u8>, SliceFailure>(c@),
        Err(e) => want == Err::<Seq<u8>, SliceFailure>(e),
    }
}

fn slice_col_parallel_dim0<'a>(
    info: &TensorInfo,
    raw: &'a [u8],
    world: u32,
    rank: u32,
) -> (r: Result<Cow<'a, [u8]>, SliceFailure>)
    requires
        info.fits(),
    ensures
        slice_agrees(r, col_dim0_spec(*info, raw@, world, rank)),
        r matches Ok(c) ==> c is Borrowed,
{
    if rank >= world {
        return Err(SliceFailure::Slice(SliceError::RankOutOfRange { rank, world }));
    }
    let ndims: usize = info.dims.len();
    if ndims == 0 || ndims > 2 {
        return Err(
            SliceFailure::Slice(SliceError::NotTwoDimensional { name: info.name.clone(), ndims }),
        );
    }
    proof {
        if ndims == 1 {
            lemma_fits_1d(info);
        } else {
            lemma_fits_2d(info);
        }
    }
    let outer: usize = info.dims[0] as usize;
    let w: usize = world as usize;
    if outer % w != 0 {
        return Err(
            SliceFailure::Slice(
                SliceError::OuterIndivisible { name: info.name.clone(), outer, world },
            ),
        );
    }
    let rows: usize = outer / w;
    proof {
        lemma_exact_div(outer as int, w as int);
        assert(rank as int * rows as int + rows as int <= outer as int) by (nonlinear_arith)
            requires
                rows as int * w as int == outer as int,
                rank < w,
                rows >= 0,
        ;
        assert(0 <= rank as int * rows as int) by (nonlinear_arith);
    }
    let row_start: usize = (rank as usize) * rows;
    if ndims == 1 {
        let t: usize = info.dtype.type_size();
        proof {
            lemma_mul_mono(
                row_start as int + rows as int,
                t as int,
                outer as int,
                t as int,
            );
            assert((row_start + rows) * t == row_start * t + rows * t) by (nonlinear_arith);
            assert(0 <= row_start * t) by (nonlinear_arith);
            assert(0 <= rows * t) by (nonlinear_arith);
        }
        let byte_start: usize = row_start * t;
        let byte_len: usize = rows * t;
        if byte_start + byte_len > raw.len() {
            return Err(
                SliceFailure::Slice(
                    SliceError::OuterIndivisible { name: info.name.clone(), outer, world },
                ),
            );
        }
        return Ok(
            Cow::Borrowed(vstd::slice::slice_subrange(raw, byte_start, byte_start + byte_len)),
        );
    }
    let inner: usize = info.dims[1] as usize;
    let block_size: usize = info.dtype.block_size();
    if inner % block_size != 0 {
        return Err(
            SliceFailure::Slice(
                SliceError::InnerBlockMisaligned {
                    name: info.name.clone(),
                    per_rank_inner: inner,
                    block_size,
                },
            ),
        );
    }
    let rb: usize = (inner / block_size) * info.dtype.type_size();
    proof {
        lemma_mul_mono(row_start as int + rows as int, rb as int, outer as int, rb as int);
        assert((row_start + rows) * rb == row_start * rb + rows * rb) by (nonlinear_arith);
        assert(0 <= row_start * rb) by (nonlinear_arith);
        assert(0 <= rows * rb) by (nonlinear_arith);
    }
    let start: usize = row_start * rb;
    let end: usize = start + rows * rb;
    if raw.len() < end {
        return Err(
            SliceFailure::Truncated { name: info.name.clone(), have: raw.len(), expected: end },
        );
    }
    Ok(Cow::Borrowed(vstd::slice::slice_subrange(raw, start, end)))
}

/// A row that splits into `w` block-aligned parts is `w` part rows long.
pub proof fn lemma_row_split(dtype: GgmlDType, inner: nat, w: nat)
    requires
        w > 0,
        inner % w == 0,
        (inner / w) % dtype.spec_block_size() == 0,
    ensures
        row_size(dtype, inner) == w * row_size(dtype, inner / w),
        inner % dtype.spec_block_size() == 0,
{
    let bs = dtype.spec_block_size() as int;
    let t = dtype.spec_type_size() as int;
    let part = (inner / w) as int;
    lemma_exact_div(inner as int, w as int);
    lemma_exact_div(part, bs);
    let k = part / bs;
    assert((w * k) * bs + 0 == inner as int) by (nonlinear_arith)
        requires
            k * bs == part,
            part * w as int == inner as int,
    ;
    lemma_div_mod_unique(w as int * k, bs, 0);
    assert((w as int * k) * t == w as int * (k * t)) by (nonlinear_arith);
}

/// Part `rank` of `world` parts of `len` lies within the whole.
proof fn lemma_part_bound(rank: int, world: int, len: int)
    by (nonlinear_arith)
    requires
        0 <= rank < world,
        0 <= len,
    ensures
        0 <= rank * len,
        rank * len + len <= world * len,
{
}

fn slice_row_parallel_dim1<'a>(
    info: &TensorInfo,
    raw: &'a [u8],
    world: u32,
    rank: u32,
) -> (r: Result<Cow<'a, [u8]>, SliceFailure>)
    requires
        info.fits(),
    ensures
        slice_agrees(r, row_dim1_spec(*info, raw@, world, rank)),
        r matches Ok(c) ==> c is Owned,
{
    if rank >= world {
        return Err(SliceFailure::Slice(SliceError::RankOutOfRange { rank, world }));
    }
    let ndims: usize = info.dims.len();
    if ndims != 2 {
        return Err(
            SliceFailure::Slice(SliceError::NotTwoDimensional { name: info.name.clone(), ndims }),
        );
    }
    proof {
        lemma_fits_2d(info);
    }
    let outer: usize = info.dims[0] as usize;
    let inner: usize = info.dims[1] as usize;
    let w: usize = world as usize;
    if inner % w != 0 {
        return Err(
            SliceFailure::Slice(
                SliceError::InnerIndivisible { name: info.name.clone(), inner, world },
            ),
        );
    }
    let block_size: usize = info.dtype.block_size();
    let per_rank_inner: usize = inner / w;
    if per_rank_inner % block_size != 0 {
        return Err(
            SliceFailure::Slice(
                SliceError::InnerBlockMisaligned {
                    name: info.name.clone(),
                    per_rank_inner,
                    block_size,
                },
            ),
        );
    }
    let type_size: usize = info.dtype.type_size();
    let full: usize = (inner / block_size) * type_size;
    proof {
        lemma_row_split(info.dtype, inner as nat, w as nat);
        let local = row_size(info.dtype, per_rank_inner as nat);
        lemma_part_bound(rank as int, w as int, local as int);
        assert(local <= w * local) by (nonlinear_arith)
            requires
                w >= 1,
                local >= 0,
        ;
    }
    let local: usize = (per_rank_inner / block_size) * type_size;
    let off: usize = (rank as usize) * local;
    if raw.len() < outer * full {
        return Err(
            SliceFailure::Truncated {
                name: info.name.clone(),
                have: raw.len(),
                expected: outer * full,
            },
        );
    }
    match gather(raw, outer, full, off, local) {
        Ok(v) => Ok(Cow::Owned(v)),
        Err(i) => {
            proof {
                lemma_first_short_bounds(
                    raw@.len(),
                    outer as nat,
                    full as nat,
                    off as nat,
                    local as nat,
                );
                lemma_group_bound(i as int, outer as int, full as int);
                assert(false);
            }
            Err(
                SliceFailure::Truncated {
                    name: info.name.clone(),
                    have: raw.len(),
                    expected: outer * full,
                },
            )
        },
    }
}

fn slice_col_parallel_dim1_3d<'a>(
    info: &TensorInfo,
    raw: &'a [u8],
    world: u32,
    rank: u32,
) -> (r: Result<Cow<'a, [u8]>, SliceFailure>)
    requires
        info.fits(),
    ensures
        slice_agrees(r, col_dim1_spec(*info, raw@, world, rank)),
        r matches Ok(c) ==> c is Owned,
{
    if rank >= world {
        return Err(SliceFailure::Slice(SliceError::RankOutOfRange { rank, world }));
    }
    let ndims: usize = info.dims.len();
    if ndims != 3 {
        return Err(
            SliceFailure::Slice(SliceError::NotTwoDimensional { name: info.name.clone(), ndims }),
        );
    }
    proof {
        lemma_fits_3d(info);
    }
    let n_experts: usize = info.dims[0] as usize;
    let dim1: usize = info.dims[1] as usize;
    let dim2: usize = info.dims[2] as usize;
    let w: usize = world as usize;
    if dim1 % w != 0 {
        return Err(
            SliceFailure::Slice(
                SliceError::OuterIndivisible { name: info.name.clone(), outer: dim1, world },
            ),
        );
    }
    let block_size: usize = info.dtype.block_size();
    if dim2 % block_size != 0 {
        return Err(
            SliceFailure::Slice(
                SliceError::InnerBlockMisaligned {
                    name: info.name.clone(),
                    per_rank_inner: dim2,
                    block_size,
                },
            ),
        );
    }
    let rb: usize = (dim2 / block_size) * info.dtype.type_size();
    let slab: usize = dim1 * rb;
    proof {
        lemma_exact_div(dim1 as int, w as int);
        let l = dim1 as int / w as int;
        assert(w * (l * rb) == slab) by (nonlinear_arith)
            requires
                l * w as int == dim1 as int,
                slab == dim1 * rb,
        ;
        assert(0 <= l * rb) by (nonlinear_arith)
            requires
                l >= 0,
        ;
        lemma_part_bound(rank as int, w as int, l * rb);
        assert(l * rb <= w * (l * rb)) by (nonlinear_arith)
            requires
                w >= 1,
                l * rb >= 0,
        ;
    }
    let local: usize = (dim1 / w) * rb;
    let off: usize = (rank as usize) * local;
    match gather(raw, n_experts, slab, off, local) {
        Ok(v) => Ok(Cow::Owned(v)),
        Err(e) => {
            proof {
                lemma_first_short_bounds(
                    raw@.len(),
                    n_experts as nat,
                    slab as nat,
                    off as nat,
                    local as nat,
                );
                lemma_group_bound(e as int, n_experts as int, slab as int);
            }
            Err(
                SliceFailure::TruncatedExpert {
                    name: info.name.clone(),
                    have: raw.len(),
                    expected: e * slab + off + local,
                    expert: e,
                },
            )
        },
    }
}

fn slice_row_parallel_dim2_3d<'a>(
    info: &TensorInfo,
    raw: &'a [u8],
    world: u32,
    rank: u32,
) -> (r: Result<Cow<'a, [u8]>, SliceFailure>)
    requires
        info.fits(),
    ensures
        slice_agrees(r, row_dim2_spec(*info, raw@, world, rank)),
        r matches Ok(c) ==> c is Owned,
{
    if rank >= world {
        return Err(SliceFailure::Slice(SliceError::RankOutOfRange { rank, world }));
    }
    let ndims: usize = info.dims.len();
    if ndims != 3 {
        return Err(
            SliceFailure::Slice(SliceError::NotTwoDimensional { name: info.name.clone(), ndims }),
        );
    }
    proof {
        lemma_fits_3d(info);
    }
    let n_experts: usize = info.dims[0] as usize;
    let dim1: usize = info.dims[1] as usize;
    let dim2: usize = info.dims[2] as usize;
    let w: usize = world as usize;
    if dim2 % w != 0 {
        return Err(
            SliceFailure::Slice(
                SliceError::InnerIndivisible { name: info.name.clone(), inner: dim2, world },
            ),
        );
    }
    let block_size: usize = info.dtype.block_size();
    let dim2_local: usize = dim2 / w;
    if dim2_local % block_size != 0 {
        return Err(
            SliceFailure::Slice(
                SliceError::InnerBlockMisaligned {
                    name: info.name.clone(),
                    per_rank_inner: dim2_local,
                    block_size,
                },
            ),
        );
    }
    let type_size: usize = info.dtype.type_size();
    let full: usize = (dim2 / block_size) * type_size;
    proof {
        lemma_row_split(info.dtype, dim2 as nat, w as nat);
        let local = row_size(info.dtype, dim2_local as nat);
        lemma_part_bound(rank as int, w as int, local as int);
        assert(local <= w * local) by (nonlinear_arith)
            requires
                w >= 1,
                local >= 0,
        ;
    }
    let local: usize = (dim2_local / block_size) * type_size;
    let off: usize = (rank as usize) * local;
    let rows: usize = n_experts * dim1;
    match gather(raw, rows, full, off, local) {
        Ok(v) => Ok(Cow::Owned(v)),
        Err(i) => {
            proof {
                lemma_first_short_bounds(
                    raw@.len(),
                    rows as nat,
                    full as nat,
                    off as nat,
                    local as nat,
                );
                lemma_group_bound(i as int, rows as int, full as int);
                assert(dim1 > 0) by (nonlinear_arith)
                    requires
                        rows == n_experts * dim1,
                        i < rows,
                ;
            }
            Err(
                SliceFailure::TruncatedRow {
                    name: info.name.clone(),
                    have: raw.len(),
                    expected: i * full + off + local,
                    expert: i / dim1,
                    row: i % dim1,
                },
            )
        },
    }
}

/// The rows of a fused tensor can be counted in `usize`.
pub open spec fn heads_fit(h: FusedHeads) -> bool {
    h.outer() <= usize::MAX
}

/// Where the rank's rows of Q, K and V lie.
pub proof fn lemma_fused_bounds(h: FusedHeads, world: u32, rank: u32)
    requires
        rank < world,
        h.num_v_heads as nat % world as nat == 0,
        !h.kq_replicated ==> h.num_k_heads as nat % world as nat == 0,
    ensures
        h.v_rows(world) * world as nat == h.v_part(),
        !h.kq_replicated ==> h.k_rows(world) * world as nat == h.k_part(),
        h.q_start(world, rank) + h.k_rows(world) <= h.k_part(),
        h.k_start(world, rank) + h.k_rows(world) <= 2 * h.k_part(),
        h.v_start(world, rank) + h.v_rows(world) <= h.outer(),
{
    let w = world as int;
    lemma_exact_div(h.num_v_heads as int, w);
    let hv = h.num_v_heads as int / w;
    assert((hv * h.head_v_dim as int) * w + 0 == h.v_part() as int) by (nonlinear_arith)
        requires
            hv * w == h.num_v_heads as int,
            h.v_part() as int == h.num_v_heads as int * h.head_v_dim as int,
    ;
    lemma_div_mod_unique(hv * h.head_v_dim as int, w, 0);
    assert(0 <= hv * h.head_v_dim as int) by (nonlinear_arith)
        requires
            hv >= 0,
    ;
    lemma_part_bound(rank as int, w, h.v_rows(world) as int);
    assert(w * h.v_rows(world) as int == h.v_rows(world) as int * w) by (nonlinear_arith);
    if !h.kq_replicated {
        lemma_exact_div(h.num_k_heads as int, w);
        let hk = h.num_k_heads as int / w;
        assert((hk * h.head_k_dim as int) * w + 0 == h.k_part() as int) by (nonlinear_arith)
            requires
                hk * w == h.num_k_heads as int,
                h.k_part() as int == h.num_k_heads as int * h.head_k_dim as int,
        ;
        lemma_div_mod_unique(hk * h.head_k_dim as int, w, 0);
        assert(0 <= hk * h.head_k_dim as int) by (nonlinear_arith)
            requires
                hk >= 0,
        ;
        lemma_part_bound(rank as int, w, h.k_rows(world) as int);
        assert(w * h.k_rows(world) as int == h.k_rows(world) as int * w) by (nonlinear_arith);
    }
}

fn slice_fused_qkv_parallel<'a>(
    info: &TensorInfo,
    raw: &'a [u8],
    world: u32,
    rank: u32,
    h: FusedHeads,
) -> (r: Result<Cow<'a, [u8]>, SliceFailure>)
    requires
        info.fits(),
        heads_fit(h),
    ensures
        slice_agrees(r, fused_spec(*info, raw@, world, rank, h)),
        r matches Ok(c) ==> c is Owned,
{
    if rank >= world {
        return Err(SliceFailure::Slice(SliceError::RankOutOfRange { rank, world }));
    }
    if h.num_v_heads % world != 0 {
        return Err(SliceFailure::FusedVHeads { num_v_heads: h.num_v_heads, world });
    }
    if !h.kq_replicated && h.num_k_heads % world != 0 {
        return Err(SliceFailure::FusedKHeads { num_k_heads: h.num_k_heads, world });
    }
    let ndims: usize = info.dims.len();
    if ndims != 2 {
        return Err(
            SliceFailure::Slice(SliceError::NotTwoDimensional { name: info.name.clone(), ndims }),
        );
    }
    proof {
        lemma_fits_2d(info);
        lemma_fused_bounds(h, world, rank);
    }
    let outer: usize = info.dims[0] as usize;
    let v_part: usize = (h.num_v_heads as usize) * (h.head_v_dim as usize);
    let k_part: usize = (h.num_k_heads as usize) * (h.head_k_dim as usize);
    let expected: usize = v_part + 2 * k_part;
    if outer != expected {
        return Err(
            SliceFailure::FusedOuter { name: info.name.clone(), outer, v_part, k_part, expected },
        );
    }
    let inner: usize = info.dims[1] as usize;
    let block_size: usize = info.dtype.block_size();
    if inner % block_size != 0 {
        return Err(
            SliceFailure::Slice(
                SliceError::InnerBlockMisaligned {
                    name: info.name.clone(),
                    per_rank_inner: inner,
                    block_size,
                },
            ),
        );
    }
    let rb: usize = (inner / block_size) * info.dtype.type_size();
    if raw.len() < outer * rb {
        return Err(
            SliceFailure::Truncated {
                name: info.name.clone(),
                have: raw.len(),
                expected: outer * rb,
            },
        );
    }
    let w: usize = world as usize;
    let v_rows: usize = v_part / w;
    let k_rows: usize = if h.kq_replicated {
        k_part
    } else {
        k_part / w
    };
    let q_start: usize = if h.kq_replicated {
        0
    } else {
        (rank as usize) * k_rows
    };
    let k_start: usize = k_part + q_start;
    let v_start: usize = 2 * k_part + (rank as usize) * v_rows;
    proof {
        lemma_mul_mono((q_start + k_rows) as int, rb as int, outer as int, rb as int);
        lemma_mul_mono((k_start + k_rows) as int, rb as int, outer as int, rb as int);
        lemma_mul_mono((v_start + v_rows) as int, rb as int, outer as int, rb as int);
        lemma_mul_mono(q_start as int, rb as int, (q_start + k_rows) as int, rb as int);
        lemma_mul_mono(k_start as int, rb as int, (k_start + k_rows) as int, rb as int);
        lemma_mul_mono(v_start as int, rb as int, (v_start + v_rows) as int, rb as int);
    }
    let q = vstd::slice::slice_subrange(raw, q_start * rb, (q_start + k_rows) * rb);
    let k = vstd::slice::slice_subrange(raw, k_start * rb, (k_start + k_rows) * rb);
    let v = vstd::slice::slice_subrange(raw, v_start * rb, (v_start + v_rows) * rb);
    let mut packed: Vec<u8> = Vec::new();
    packed.extend_from_slice(q);
    packed.extend_from_slice(k);
    packed.extend_from_slice(v);
    proof {
        assert(packed@ =~= q@ + k@ + v@);
    }
    Ok(Cow::Owned(packed))
}

/// The row counts of the layout can be held in `usize`.
pub open spec fn layout_fits(layout: WeightLayout) -> bool {
    match layout {
        WeightLayout::FusedQkvParallel {
            world,
            num_v_heads,
            num_k_heads,
            head_v_dim,
            head_k_dim,
            kq_replicated,
        } => heads_fit(
            FusedHeads { num_v_heads, num_k_heads, head_v_dim, head_k_dim, kq_replicated },
        ),
        _ => true,
    }
}

/// The bytes of `raw`, the data of the tensor `info`, that belong to `rank`
/// under `layout`. A replicated tensor and a row range are borrowed from
/// `raw`; the other slices are packed into a buffer of their own.
pub fn slice_for_tp<'a>(
    info: &TensorInfo,
    raw: &'a [u8],
    layout: WeightLayout,
    rank: u32,
) -> (r: Result<Cow<'a, [u8]>, SliceFailure>)
    requires
        info.fits(),
        layout_fits(layout),
    ensures
        axis_supported(layout) ==> slice_agrees(r, slice_spec(*info, raw@, layout, rank)),
        !axis_supported(layout) ==> match r {
            Err(SliceFailure::Slice(SliceError::UnsupportedAxis { layout: l, dim: d })) => {
                match layout {
                    WeightLayout::ColParallel { dim, .. } => l@ == "ColParallel"@ && d == dim,
                    WeightLayout::RowParallel { dim, .. } => l@ == "RowParallel"@ && d == dim,
                    _ => false,
                }
            },
            _ => false,
        },
        r matches Ok(c) ==> (c is Borrowed <==> match layout {
            WeightLayout::Replicated => true,
            WeightLayout::ColParallel { dim, .. } => dim == 0,
            _ => false,
        }),
{
    match layout {
        WeightLayout::Replicated => Ok(Cow::Borrowed(raw)),
        WeightLayout::ColParallel { world, dim } => {
            if dim == 0 {
                slice_col_parallel_dim0(info, raw, world, rank)
            } else if dim == 1 {
                slice_col_parallel_dim1_3d(info, raw, world, rank)
            } else {
                Err(
                    SliceFailure::Slice(
                        SliceError::UnsupportedAxis { layout: owned("ColParallel"), dim },
                    ),
                )
            }
        },
        WeightLayout::RowParallel { world, dim } => {
            if dim == 1 {
                slice_row_parallel_dim1(info, raw, world, rank)
            } else if dim == 2 {
                slice_row_parallel_dim2_3d(info, raw, world, rank)
            } else {
                Err(
                    SliceFailure::Slice(
                        SliceError::UnsupportedAxis { layout: owned("RowParallel"), dim },
                    ),
                )
            }
        },
        WeightLayout::FusedQkvParallel {
            world,
            num_v_heads,
            num_k_heads,
            head_v_dim,
            head_k_dim,
            kq_replicated,
        } => slice_fused_qkv_parallel(
            info,
            raw,
            world,
            rank,
            FusedHeads { num_v_heads, num_k_heads, head_v_dim, head_k_dim, kq_replicated },
        ),
    }
}

/// The mesh size of a layout that splits, 1 for a replicated tensor.
pub open spec fn layout_world(layout: WeightLayout) -> u32 {
    match layout {
        WeightLayout::Replicated => 1,
        WeightLayout::ColParallel { world, .. } => world,
        WeightLayout::RowParallel { world, .. } => world,
        WeightLayout::FusedQkvParallel { world, .. } => world,
    }
}

/// Per-rank byte length of the tensor `info` under `layout`, or why there is none.
pub open spec fn slice_bytes_spec(info: TensorInfo, layout: WeightLayout) -> Result<
    nat,
    SliceFailure,
> {
    let total = info.byte_size();
    match layout {
        WeightLayout::Replicated => Ok(total),
        WeightLayout::FusedQkvParallel {
            world,
            num_v_heads,
            num_k_heads,
            head_v_dim,
            head_k_dim,
            kq_replicated: true,
        } => {
            let h = FusedHeads {
                num_v_heads,
                num_k_heads,
                head_v_dim,
                head_k_dim,
                kq_replicated: true,
            };
            if h.v_part() % world as nat != 0 {
                Err(
                    SliceFailure::VPartIndivisible {
                        name: info.name,
                        v_part: h.v_part() as usize,
                        world,
                    },
                )
            } else if h.outer() == 0 {
                Err(SliceFailure::OuterZero { name: info.name })
            } else if total % h.outer() != 0 {
                Err(
                    SliceFailure::TotalNotRows {
                        name: info.name,
                        total: total as usize,
                        outer: h.outer() as usize,
                    },
                )
            } else {
                Ok((h.v_part() / world as nat + 2 * h.k_part()) * (total / h.outer()))
            }
        },
        _ => {
            let world = layout_world(layout);
            if total % world as nat != 0 {
                Err(
                    SliceFailure::TotalIndivisible {
                        name: info.name,
                        total: total as usize,
                        world,
                    },
                )
            } else {
                Ok(total / world as nat)
            }
        },
    }
}

fn even_split(info: &TensorInfo, total: usize, world: u32) -> (r: Result<usize, SliceFailure>)
    requires
        world > 0,
    ensures
        match r {
            Ok(n) => total as nat % world as nat == 0 && n == total as nat / world as nat,
            Err(e) => total as nat % world as nat != 0 && e == (SliceFailure::TotalIndivisible {
                name: info.name,
                total,
                world,
            }),
        },
{
    let w: usize = world as usize;
    if total % w != 0 {
        return Err(SliceFailure::TotalIndivisible { name: info.name.clone(), total, world });
    }
    Ok(total / w)
}

/// Per-rank byte length under `layout`, without making the slice.
pub fn slice_bytes_for_tp(info: &TensorInfo, layout: WeightLayout) -> (r: Result<
    usize,
    SliceFailure,
>)
    requires
        info.fits(),
        layout_fits(layout),
        layout_world(layout) > 0,
    ensures
        match r {
            Ok(n) => slice_bytes_spec(*info, layout) == Ok::<nat, SliceFailure>(n as nat),
            Err(e) => slice_bytes_spec(*info, layout) == Err::<nat, SliceFailure>(e),
        },
{
    let total: usize = info.size_in_bytes();
    match layout {
        WeightLayout::Replicated => Ok(total),
        WeightLayout::ColParallel { world, .. } => even_split(info, total, world),
        WeightLayout::RowParallel { world, .. } => even_split(info, total, world),
        WeightLayout::FusedQkvParallel {
            world,
            num_v_heads,
            num_k_heads,
            head_v_dim,
            head_k_dim,
            kq_replicated,
        } => {
            if !kq_replicated {
                return even_split(info, total, world);
            }
            let ghost h = FusedHeads {
                num_v_heads,
                num_k_heads,
                head_v_dim,
                head_k_dim,
                kq_replicated,
            };
            proof {
                assert(h.outer() <= usize::MAX);
            }
            let v_part: usize = (num_v_heads as usize) * (head_v_dim as usize);
            let k_part: usize = (num_k_heads as usize) * (head_k_dim as usize);
            let w: usize = world as usize;
            if v_part % w != 0 {
                return Err(
                    SliceFailure::VPartIndivisible { name: info.name.clone(), v_part, world },
                );
            }
            let outer: usize = v_part + 2 * k_part;
            if outer == 0 {
                return Err(SliceFailure::OuterZero { name: info.name.clone() });
            }
            let row_bytes: usize = total / outer;
            proof {
                lemma_div_mod_split(total as int, outer as int);
                lemma_div_mod_split(v_part as int, w as int);
                assert(0 <= row_bytes * outer) by (nonlinear_arith);
            }
            if total % outer != 0 {
                return Err(
                    SliceFailure::TotalNotRows { name: info.name.clone(), total, outer },
                );
            }
            let rows: usize = v_part / w + 2 * k_part;
            proof {
                lemma_mul_mono(rows as int, row_bytes as int, outer as int, row_bytes as int);
                assert(outer * row_bytes == row_bytes * outer) by (nonlinear_arith);
            }
            Ok(rows * row_bytes)
        },
    }
}

} // verus!
