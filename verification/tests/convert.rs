use qwen3_moe::convert::{
    convert_f32_to_f16, narrow_bf16, push_le16, push_q8_block, quantize_bf16_to_q8_0, read_halves,
    read_le16, read_le32, read_mxfp4_block, read_q4_1_block, read_singles, widen_bf16,
};
use qwen3_moe::load_error::LoadError;

#[test]
fn numbers_are_little_endian() {
    let b = [0x34, 0x12, 0x78, 0x56, 0xFF];
    assert_eq!(read_le16(&b, 0), 0x1234);
    assert_eq!(read_le16(&b, 1), 0x7812);
    assert_eq!(read_le32(&b, 0), 0x5678_1234);
    assert_eq!(read_le32(&b, 1), 0xFF56_7812);
}

#[test]
fn reading_gives_back_what_was_written() {
    for x in [0u16, 1, 0x00FF, 0x0100, 0x3F80, 0xABCD, 0xFFFF] {
        let mut out = vec![7u8];
        push_le16(&mut out, x);
        assert_eq!(out.len(), 3);
        assert_eq!(out[0], 7);
        assert_eq!(read_le16(&out, 1), x);
    }
}

#[test]
fn singles_are_rounded_to_bfloat16() {
    let xs = vec![
        1.0f32.to_bits(),
        (-2.5f32).to_bits(),
        0,
        f32::INFINITY.to_bits(),
        // Below the midpoint, above it, and on it with an even and an odd end.
        0x3F80_7FFF,
        0x3F80_8001,
        0x3F80_8000,
        0x3F81_8000,
        // The largest finite single rounds to infinity.
        0x7F7F_FFFF,
        // Not a number, with a payload only in the lower half.
        0x7F80_0001,
        0xFFC0_1234,
    ];
    let out = narrow_bf16(&xs);
    let back = read_halves(&out, xs.len());
    assert_eq!(
        back,
        vec![
            0x3F80, 0xC020, 0x0000, 0x7F80, 0x3F80, 0x3F81, 0x3F80, 0x3F82, 0x7F80, 0x7FC0, 0xFFC0
        ]
    );
}

#[test]
fn bfloat16_rounding_agrees_with_the_half_crate() {
    let mut x: u32 = 0x0123_4567;
    for _ in 0..1000 {
        x = x.wrapping_mul(1_664_525).wrapping_add(1_013_904_223);
        let out = narrow_bf16(&vec![x]);
        assert_eq!(read_le16(&out, 0), half::bf16::from_f32(f32::from_bits(x)).to_bits());
    }
}

#[test]
fn bfloat16s_are_widened_exactly() {
    let src = narrow_bf16(&vec![1.0f32.to_bits(), (-0.375f32).to_bits()]);
    assert_eq!(widen_bf16(&src, 2), vec![1.0f32.to_bits(), (-0.375f32).to_bits()]);
    assert_eq!(widen_bf16(&src, 1), vec![1.0f32.to_bits()]);
}

#[test]
fn singles_to_be_stored_as_halves() {
    let mut src: Vec<u8> = Vec::new();
    for x in [1.5f32, -3.25, 1e9] {
        src.extend_from_slice(&x.to_bits().to_le_bytes());
    }
    let want = vec![1.5f32.to_bits(), (-3.25f32).to_bits(), 1e9f32.to_bits()];
    assert_eq!(convert_f32_to_f16(&src, 3).unwrap(), want);
    assert_eq!(read_singles(&src, 3), want);
    assert_eq!(convert_f32_to_f16(&src, 2).unwrap(), want[..2].to_vec());
    assert_eq!(
        convert_f32_to_f16(&src, 4).unwrap_err(),
        LoadError::F32Source { have: 12, want: 16 }
    );
}

#[test]
fn bfloat16s_to_be_quantised() {
    let mut src: Vec<u8> = Vec::new();
    for i in 0..32u16 {
        push_le16(&mut src, 0x3F80 + i);
    }
    let v = quantize_bf16_to_q8_0(&src, 32).unwrap();
    assert_eq!(v.len(), 32);
    assert_eq!(v[5], 0x3F85_0000);
    assert_eq!(
        quantize_bf16_to_q8_0(&src, 33).unwrap_err(),
        LoadError::Bf16Source { have: 64, want: 66 }
    );
    assert_eq!(
        quantize_bf16_to_q8_0(&src, 31).unwrap_err(),
        LoadError::Bf16SourceBlocks { elems: 31 }
    );
}

#[test]
fn a_quantised_block_is_a_scale_and_32_bytes() {
    let quants: Vec<u8> = (0..32).map(|i: u8| i.wrapping_sub(16)).collect();
    let mut out = vec![1u8, 2];
    push_q8_block(&mut out, 0x2C01, &quants);
    assert_eq!(out.len(), 36);
    assert_eq!(out[..4].to_vec(), vec![1, 2, 0x01, 0x2C]);
    assert_eq!(out[4..].to_vec(), quants);
}

#[test]
fn four_bit_codes_are_unpacked_low_halves_first() {
    let mut raw = vec![0u8; 17];
    raw.push(0x7F);
    for i in 0..16u8 {
        raw.push(i | ((15 - i) << 4));
    }
    let b = read_mxfp4_block(&raw, 1);
    assert_eq!((b.scale, b.min), (0x7F, 0));
    let low: Vec<u8> = (0..16).collect();
    let high: Vec<u8> = (0..16).rev().collect();
    assert_eq!(b.codes[..16].to_vec(), low);
    assert_eq!(b.codes[16..].to_vec(), high);

    let mut raw = vec![0x00u8, 0x3C, 0x01, 0xB8];
    raw.extend_from_slice(&[0xA5; 16]);
    let b = read_q4_1_block(&raw, 0);
    assert_eq!((b.scale, b.min), (0x3C00, 0xB801));
    assert_eq!(b.codes[..16].to_vec(), vec![5u8; 16]);
    assert_eq!(b.codes[16..].to_vec(), vec![10u8; 16]);
}
