use qwen3_moe::assignment::LayerAssignment;
use qwen3_moe::device::{DevicePtr, FirstError, RankId};
use qwen3_moe::tensor::{GgmlDType, TensorInfo};
use qwen3_moe::tp_slice::{slice_bytes_for_tp, slice_for_tp, SliceError, SliceFailure};
use qwen3_moe::weight_layout::WeightLayout;
use std::borrow::Cow;

fn info(dtype: GgmlDType, dims: &[u64]) -> TensorInfo {
    TensorInfo { name: "t".into(), dims: dims.to_vec(), dtype }
}

fn bytes(n: usize) -> Vec<u8> {
    (0..n).map(|i| (i % 251) as u8).collect()
}

fn slice(t: &TensorInfo, raw: &[u8], l: WeightLayout, rank: u32) -> Vec<u8> {
    let s = slice_for_tp(t, raw, l, rank).unwrap();
    assert_eq!(s.len(), slice_bytes_for_tp(t, l).unwrap());
    s.into_owned()
}

#[test]
fn rows_are_cut_out() {
    // Four rows of 32 halves.
    let t = info(GgmlDType::F16, &[4, 32]);
    let raw = bytes(256);
    let l = WeightLayout::col_parallel(2, 0);
    assert_eq!(slice(&t, &raw, l, 0), raw[..128].to_vec());
    assert_eq!(slice(&t, &raw, l, 1), raw[128..].to_vec());
    // A range of rows is borrowed.
    assert!(matches!(slice_for_tp(&t, &raw, l, 1).unwrap(), Cow::Borrowed(_)));
    let e = slice_for_tp(&t, &raw, l, 2).unwrap_err();
    assert_eq!(e, SliceFailure::Slice(SliceError::RankOutOfRange { rank: 2, world: 2 }));
    assert_eq!(e.message(), "rank 2 is out of range for world 2");
    let e = slice_for_tp(&t, &raw, WeightLayout::col_parallel(3, 0), 0).unwrap_err();
    assert_eq!(
        e,
        SliceFailure::Slice(SliceError::OuterIndivisible {
            name: "t".into(),
            outer: 4,
            world: 3
        })
    );
    let e = slice_for_tp(&t, &raw[..200], l, 1).unwrap_err();
    assert!(matches!(e, SliceFailure::Truncated { .. }));
    assert!(e.message().starts_with("tensor `t` mmap 200 < expected "));
}

#[test]
fn columns_are_packed_and_reassemble() {
    // Three rows of 64 in Q8_0: two blocks of 34 bytes in each.
    let t = info(GgmlDType::Q8_0, &[3, 64]);
    let raw = bytes(3 * 68);
    let l = WeightLayout::row_parallel(2, 1);
    let parts: Vec<Vec<u8>> = (0..2).map(|r| slice(&t, &raw, l, r)).collect();
    let mut back = Vec::new();
    for row in 0..3 {
        for p in &parts {
            back.extend_from_slice(&p[34 * row..34 * (row + 1)]);
        }
    }
    assert_eq!(back, raw);
    let e = slice_for_tp(&t, &raw, WeightLayout::row_parallel(4, 1), 0).unwrap_err();
    assert_eq!(
        e,
        SliceFailure::Slice(SliceError::InnerBlockMisaligned {
            name: "t".into(),
            per_rank_inner: 16,
            block_size: 32
        })
    );
    let e = slice_for_tp(&t, &raw, WeightLayout::row_parallel(3, 1), 0).unwrap_err();
    assert_eq!(
        e,
        SliceFailure::Slice(SliceError::InnerIndivisible {
            name: "t".into(),
            inner: 64,
            world: 3
        })
    );
    let v = info(GgmlDType::F32, &[8]);
    let e = slice_for_tp(&v, &bytes(32), l, 0).unwrap_err();
    assert_eq!(
        e,
        SliceFailure::Slice(SliceError::NotTwoDimensional { name: "t".into(), ndims: 1 })
    );
}

#[test]
fn vectors_are_cut() {
    let t = info(GgmlDType::F32, &[8]);
    let raw = bytes(32);
    let l = WeightLayout::col_parallel(4, 0);
    let back: Vec<u8> = (0..4).flat_map(|r| slice(&t, &raw, l, r)).collect();
    assert_eq!(back, raw);
}

#[test]
fn experts_are_cut_each() {
    // Two experts of four rows of 32 halves.
    let t = info(GgmlDType::F16, &[2, 4, 32]);
    let raw = bytes(512);
    let l = WeightLayout::col_parallel(2, 1);
    let a = slice(&t, &raw, l, 0);
    let b = slice(&t, &raw, l, 1);
    let back = [&a[..128], &b[..128], &a[128..], &b[128..]].concat();
    assert_eq!(back, raw);
    let l = WeightLayout::row_parallel(2, 2);
    let a = slice(&t, &raw, l, 0);
    let b = slice(&t, &raw, l, 1);
    let mut back = Vec::new();
    for row in 0..8 {
        back.extend_from_slice(&a[32 * row..32 * (row + 1)]);
        back.extend_from_slice(&b[32 * row..32 * (row + 1)]);
    }
    assert_eq!(back, raw);
    let e = slice_for_tp(&t, &raw[..300], WeightLayout::col_parallel(2, 1), 0).unwrap_err();
    assert!(matches!(e, SliceFailure::TruncatedExpert { expert: 1, .. }));
    let e = slice_for_tp(&t, &raw[..300], l, 1).unwrap_err();
    assert!(matches!(e, SliceFailure::TruncatedRow { expert: 1, row: 0, .. }));
    assert!(e.message().ends_with("(expert 1 row 0)"));
}

fn fused(world: u32, num_v_heads: u32, num_k_heads: u32, kq_replicated: bool) -> WeightLayout {
    WeightLayout::FusedQkvParallel {
        world,
        num_v_heads,
        num_k_heads,
        head_v_dim: 1,
        head_k_dim: 2,
        kq_replicated,
    }
}

#[test]
fn fused_projections_are_cut_by_head() {
    // Q of 4 rows, K of 4 rows, V of 4 rows; 2 bytes each.
    let t = info(GgmlDType::F16, &[12, 1]);
    let raw = bytes(24);
    let a = slice(&t, &raw, fused(2, 4, 2, false), 0);
    let b = slice(&t, &raw, fused(2, 4, 2, false), 1);
    let mut all = [a.clone(), b.clone()].concat();
    all.sort();
    assert_eq!(all, raw);
    assert_eq!(a, [&raw[0..4], &raw[8..12], &raw[16..20]].concat());
    assert_eq!(b, [&raw[4..8], &raw[12..16], &raw[20..24]].concat());
    // With Q and K kept whole, only V is cut.
    let r = slice(&t, &raw, fused(2, 4, 2, true), 1);
    assert_eq!(r.len(), 20);
    let e = slice_for_tp(&t, &raw, fused(3, 4, 2, false), 0).unwrap_err();
    assert_eq!(e, SliceFailure::FusedVHeads { num_v_heads: 4, world: 3 });
    let e = slice_for_tp(&t, &raw, fused(4, 4, 2, false), 0).unwrap_err();
    assert_eq!(e, SliceFailure::FusedKHeads { num_k_heads: 2, world: 4 });
    let e = slice_for_tp(&t, &raw, fused(2, 2, 2, false), 0).unwrap_err();
    assert_eq!(
        e,
        SliceFailure::FusedOuter {
            name: "t".into(),
            outer: 12,
            v_part: 2,
            k_part: 4,
            expected: 10
        }
    );
    assert_eq!(
        e.message(),
        "FusedQkvParallel: tensor `t` outer dim 12 != V_part(2) + 2·K_part(4) = 10"
    );
}

#[test]
fn lengths_of_slices() {
    let t = info(GgmlDType::F16, &[12, 1]);
    assert_eq!(slice_bytes_for_tp(&t, WeightLayout::Replicated).unwrap(), 24);
    assert_eq!(slice_bytes_for_tp(&t, fused(2, 4, 2, true)).unwrap(), 20);
    let e = slice_bytes_for_tp(&t, WeightLayout::col_parallel(5, 0)).unwrap_err();
    assert_eq!(e, SliceFailure::TotalIndivisible { name: "t".into(), total: 24, world: 5 });
    let e = slice_bytes_for_tp(&t, fused(3, 4, 2, true)).unwrap_err();
    assert_eq!(e, SliceFailure::VPartIndivisible { name: "t".into(), v_part: 4, world: 3 });
    let e = slice_bytes_for_tp(&t, fused(2, 0, 0, true)).unwrap_err();
    assert_eq!(e, SliceFailure::OuterZero { name: "t".into() });
    let e = slice_bytes_for_tp(&t, fused(2, 8, 2, true)).unwrap_err();
    assert_eq!(e, SliceFailure::TotalNotRows { name: "t".into(), total: 24, outer: 16 });
}

#[test]
fn axes_that_are_not_cut() {
    let t = info(GgmlDType::F16, &[2, 2, 2]);
    let raw = bytes(16);
    let e = slice_for_tp(&t, &raw, WeightLayout::col_parallel(2, 2), 0).unwrap_err();
    assert_eq!(
        e,
        SliceFailure::Slice(SliceError::UnsupportedAxis { layout: "ColParallel".into(), dim: 2 })
    );
    let e = slice_for_tp(&t, &raw, WeightLayout::row_parallel(2, 0), 0).unwrap_err();
    assert_eq!(
        e.message(),
        "TP slicing along dim 0 for layout RowParallel is not implemented (only \
         ColParallel{dim=0} and RowParallel{dim=1} are wired)"
    );
    // A replicated tensor stays as it is for every rank.
    let s = slice_for_tp(&t, &raw, WeightLayout::Replicated, 9).unwrap();
    assert_eq!(s.into_owned(), raw);
}

#[test]
fn layers_are_dealt_out_in_order() {
    let a = LayerAssignment::contiguous(10, 4);
    assert_eq!((a.num_layers(), a.num_ranks()), (10, 4));
    let all: Vec<usize> = (0..4).flat_map(|r| a.layers_on(RankId(r))).collect();
    let want: Vec<usize> = (0..10).collect();
    assert_eq!(all, want);
    let sizes: Vec<usize> = (0..4).map(|r| a.layers_on(RankId(r)).len()).collect();
    assert!(sizes.iter().all(|n| *n == 2 || *n == 3));
    assert!(a.is_first(RankId(0)) && !a.is_first(RankId(1)));
    assert!(a.is_last(RankId(3)) && !a.is_last(RankId(2)));
    assert!(a.layers_on(RankId(4)).is_empty());
}

#[test]
fn only_the_first_error_is_kept() {
    let mut f: FirstError<&str> = FirstError::new();
    f.note(Ok(()));
    f.note(Err("first"));
    f.note(Ok(()));
    f.note(Err("second"));
    assert_eq!(f.finish(), Err("first"));
    let mut f: FirstError<&str> = FirstError::new();
    f.note(Ok(()));
    assert_eq!(f.finish(), Ok(()));
}

#[test]
fn addresses() {
    let p = DevicePtr(100);
    assert_eq!(p.offset_bytes(28), DevicePtr(128));
    assert_eq!(p.as_usize(), 100);
}

#[test]
fn sizes_of_types() {
    for (t, block, size) in [
        (GgmlDType::F32, 1, 4),
        (GgmlDType::F16, 1, 2),
        (GgmlDType::BF16, 1, 2),
        (GgmlDType::Q4_1, 32, 20),
        (GgmlDType::Q8_0, 32, 34),
        (GgmlDType::Q4K, 256, 144),
        (GgmlDType::Q6K, 256, 210),
        (GgmlDType::Mxfp4, 32, 17),
    ] {
        assert_eq!((t.block_size(), t.type_size()), (block, size));
    }
    let t = info(GgmlDType::Q4K, &[2, 512]);
    assert_eq!(t.elements(), 1024);
    assert_eq!(t.size_in_bytes(), 4 * 144);
}
