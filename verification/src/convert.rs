//! Host-side conversions between element types.
//!
//! Values are handled by their bits: an IEEE single as `u32`, an IEEE half and
//! a bfloat16 as `u16`. Bytes are little endian.

use crate::load_error::LoadError;
use crate::plan::flat;
use crate::tensor::{Q8_0_BLOCK_BYTES, QK8_0};
use vstd::prelude::*;

verus! {

/// The single is not a number.
pub open spec fn single_is_nan(x: u32) -> bool {
    x & 0x7FFF_FFFF > 0x7F80_0000
}

/// The bfloat16 of a single: its upper half, rounded to nearest with ties to
/// even; what is not a number is made quiet.
pub open spec fn bf16_of_single(x: u32) -> u16 {
    if single_is_nan(x) {
        ((x >> 16) | 0x40) as u16
    } else if x & 0x8000 != 0 && x & 0x1_7FFF != 0 {
        ((x >> 16) + 1) as u16
    } else {
        (x >> 16) as u16
    }
}

/// `half::bf16::from_f32`, with the argument and the result as bits:
/// `bytemuck::cast` reinterprets the bits of the argument as a single.
///
/// The result is the upper half of the single, one more where the lower half
/// rounds up (ties to even), and quiet where it is not a number.
#[verifier::external_body]
fn bf16_from_single(x: u32) -> (b: u16)
    ensures
        b == bf16_of_single(x),
{
    half::bf16::from_f32(bytemuck::cast(x)).to_bits()
}

/// The 16-bit number at offset `at`.
pub open spec fn le16(b: Seq<u8>, at: int) -> u16 {
    (b[at] + 256 * b[at + 1]) as u16
}

/// The 32-bit number at offset `at`.
pub open spec fn le32(b: Seq<u8>, at: int) -> u32 {
    (b[at] + 256 * b[at + 1] + 65536 * b[at + 2] + 16777216 * b[at + 3]) as u32
}

/// The 16-bit number at offset `at`.
pub fn read_le16(b: &[u8], at: usize) -> (r: u16)
    requires
        at + 2 <= b@.len(),
    ensures
        r == le16(b@, at as int),
{
    b[at] as u16 + 256 * (b[at + 1] as u16)
}

/// The 32-bit number at offset `at`.
pub fn read_le32(b: &[u8], at: usize) -> (r: u32)
    requires
        at + 4 <= b@.len(),
    ensures
        r == le32(b@, at as int),
{
    b[at] as u32 + 256 * (b[at + 1] as u32) + 65536 * (b[at + 2] as u32)
        + 16777216 * (b[at + 3] as u32)
}

/// The bytes of a 16-bit number.
pub open spec fn bytes16(x: u16) -> Seq<u8> {
    seq![(x % 256) as u8, (x / 256) as u8]
}

/// Appends the bytes of a 16-bit number.
pub fn push_le16(out: &mut Vec<u8>, x: u16)
    ensures
        final(out)@ == old(out)@ + bytes16(x),
{
    out.push((x % 256) as u8);
    out.push((x / 256) as u8);
    proof {
        assert(out@ =~= old(out)@ + bytes16(x));
    }
}

/// Reading gives back what was written.
pub proof fn law_le16_round_trip(x: u16)
    ensures
        le16(bytes16(x), 0) == x,
{
}

/// The bytes of the bfloat16s of singles.
pub open spec fn bf16_bytes(xs: Seq<u32>) -> Seq<u8> {
    flat(xs.len(), |k: int| bytes16(bf16_of_single(xs[k])))
}

/// Rounds singles to bfloat16s.
pub fn narrow_bf16(xs: &Vec<u32>) -> (out: Vec<u8>)
    ensures
        out@ == bf16_bytes(xs@),
        out@.len() == 2 * xs@.len(),
{
    let mut out: Vec<u8> = Vec::new();
    let mut i: usize = 0;
    while i < xs.len()
        invariant
            i <= xs@.len(),
            out@ == flat(i as nat, |k: int| bytes16(bf16_of_single(xs@[k]))),
            out@.len() == 2 * i,
        decreases xs@.len() - i,
    {
        let b: u16 = bf16_from_single(xs[i]);
        push_le16(&mut out, b);
        i = i + 1;
    }
    out
}

/// The `elems` singles that are to be stored as halves.
pub fn convert_f32_to_f16(src: &[u8], elems: usize) -> (res: Result<Vec<u32>, LoadError>)
    requires
        elems * 4 <= usize::MAX,
    ensures
        if src@.len() < elems * 4 {
            res == Err::<Vec<u32>, LoadError>(
                LoadError::F32Source { have: src@.len() as usize, want: (elems * 4) as usize },
            )
        } else {
            res is Ok && res->Ok_0@ == singles(src@, elems as nat)
        },
{
    if src.len() < elems * 4 {
        return Err(LoadError::F32Source { have: src.len(), want: elems * 4 });
    }
    Ok(read_singles(src, elems))
}

/// The first `n` halves of `src`.
pub open spec fn halves(src: Seq<u8>, n: nat) -> Seq<u16> {
    Seq::new(n, |i: int| le16(src, 2 * i))
}

/// Reads halves.
pub fn read_halves(src: &[u8], n: usize) -> (v: Vec<u16>)
    requires
        n * 2 <= src@.len(),
    ensures
        v@ == halves(src@, n as nat),
{
    let total: usize = src.len();
    let mut v: Vec<u16> = Vec::new();
    let mut i: usize = 0;
    while i < n
        invariant
            i <= n,
            total == src@.len(),
            n * 2 <= total,
            v@.len() == i,
            forall|j: int| 0 <= j < i ==> #[trigger] v@[j] == le16(src@, 2 * j),
        decreases n - i,
    {
        v.push(read_le16(src, 2 * i));
        i = i + 1;
    }
    proof {
        assert(v@ =~= halves(src@, n as nat));
    }
    v
}

/// The first `n` singles of `src`.
pub open spec fn singles(src: Seq<u8>, n: nat) -> Seq<u32> {
    Seq::new(n, |i: int| le32(src, 4 * i))
}

/// The first `n` bfloat16s of `src` as singles: a bfloat16 is the upper half of one.
pub open spec fn widened(src: Seq<u8>, n: nat) -> Seq<u32> {
    Seq::new(n, |i: int| (le16(src, 2 * i) * 65536) as u32)
}

/// Reads singles.
pub fn read_singles(src: &[u8], n: usize) -> (v: Vec<u32>)
    requires
        n * 4 <= src@.len(),
    ensures
        v@ == singles(src@, n as nat),
{
    let total: usize = src.len();
    let mut v: Vec<u32> = Vec::new();
    let mut i: usize = 0;
    while i < n
        invariant
            i <= n,
            total == src@.len(),
            n * 4 <= total,
            v@.len() == i,
            forall|j: int| 0 <= j < i ==> #[trigger] v@[j] == le32(src@, 4 * j),
        decreases n - i,
    {
        v.push(read_le32(src, 4 * i));
        i = i + 1;
    }
    proof {
        assert(v@ =~= singles(src@, n as nat));
    }
    v
}

/// Widens bfloat16s to singles.
pub fn widen_bf16(src: &[u8], n: usize) -> (v: Vec<u32>)
    requires
        n * 2 <= src@.len(),
    ensures
        v@ == widened(src@, n as nat),
{
    let total: usize = src.len();
    let mut v: Vec<u32> = Vec::new();
    let mut i: usize = 0;
    while i < n
        invariant
            i <= n,
            total == src@.len(),
            n * 2 <= total,
            v@.len() == i,
            forall|j: int| 0 <= j < i ==> #[trigger] v@[j] == (le16(src@, 2 * j) * 65536) as u32,
        decreases n - i,
    {
        v.push(read_le16(src, 2 * i) as u32 * 65536);
        i = i + 1;
    }
    proof {
        assert(v@ =~= widened(src@, n as nat));
    }
    v
}

/// The singles behind `elems` bfloat16s that are to be quantised in blocks.
pub fn quantize_bf16_to_q8_0(src: &[u8], elems: usize) -> (res: Result<Vec<u32>, LoadError>)
    requires
        elems * 2 <= usize::MAX,
    ensures
        if src@.len() < elems * 2 {
            res == Err::<Vec<u32>, LoadError>(
                LoadError::Bf16Source { have: src@.len() as usize, want: (elems * 2) as usize },
            )
        } else if elems % QK8_0 != 0 {
            res == Err::<Vec<u32>, LoadError>(LoadError::Bf16SourceBlocks { elems })
        } else {
            res is Ok && res->Ok_0@ == widened(src@, elems as nat)
        },
{
    if src.len() < elems * 2 {
        return Err(LoadError::Bf16Source { have: src.len(), want: elems * 2 });
    }
    if elems % QK8_0 != 0 {
        return Err(LoadError::Bf16SourceBlocks { elems });
    }
    Ok(widen_bf16(src, elems))
}

/// The `elems` singles that are to be quantised in blocks.
pub fn quantize_f32_to_q8_0(src: &[u8], elems: usize) -> (res: Result<Vec<u32>, LoadError>)
    requires
        elems * 4 <= usize::MAX,
    ensures
        if src@.len() < elems * 4 {
            res == Err::<Vec<u32>, LoadError>(
                LoadError::F32Q8Source { have: src@.len() as usize, want: (elems * 4) as usize },
            )
        } else if elems % QK8_0 != 0 {
            res == Err::<Vec<u32>, LoadError>(LoadError::F32Q8Blocks { elems })
        } else {
            res is Ok && res->Ok_0@ == singles(src@, elems as nat)
        },
{
    if src.len() < elems * 4 {
        return Err(LoadError::F32Q8Source { have: src.len(), want: elems * 4 });
    }
    if elems % QK8_0 != 0 {
        return Err(LoadError::F32Q8Blocks { elems });
    }
    Ok(read_singles(src, elems))
}

/// Bytes of `elems` elements in Q8_0 blocks.
pub open spec fn q8_bytes(elems: nat) -> nat {
    elems / 32 * 34
}

/// Bytes of a slice of `elems` singles after it is quantised.
pub fn quantize_f32_slice_to_q8_0(elems: usize) -> (res: Result<usize, LoadError>)
    requires
        q8_bytes(elems as nat) <= usize::MAX,
    ensures
        if elems % QK8_0 != 0 {
            res == Err::<usize, LoadError>(LoadError::SliceQ8Blocks { elems })
        } else {
            res is Ok && res->Ok_0 == q8_bytes(elems as nat)
        },
{
    if elems % QK8_0 != 0 {
        return Err(LoadError::SliceQ8Blocks { elems });
    }
    Ok(elems / QK8_0 * Q8_0_BLOCK_BYTES)
}

/// A quantised block: its scale and its 32 quants.
pub open spec fn q8_block(scale: u16, quants: Seq<u8>) -> Seq<u8> {
    bytes16(scale) + quants
}

/// Appends a quantised block. The quants are signed bytes in two's complement.
pub fn push_q8_block(out: &mut Vec<u8>, scale: u16, quants: &Vec<u8>)
    requires
        quants@.len() == 32,
    ensures
        final(out)@ == old(out)@ + q8_block(scale, quants@),
        final(out)@.len() == old(out)@.len() + 34,
{
    push_le16(out, scale);
    let ghost base = out@;
    let mut i: usize = 0;
    proof {
        assert(out@ =~= base + quants@.take(0));
    }
    while i < quants.len()
        invariant
            i <= quants@.len(),
            out@ == base + quants@.take(i as int),
        decreases quants@.len() - i,
    {
        out.push(quants[i]);
        proof {
            assert(quants@.take(i as int + 1) =~= quants@.take(i as int).push(quants@[i as int]));
            assert(out@ =~= base + quants@.take(i as int + 1));
        }
        i = i + 1;
    }
    proof {
        assert(quants@.take(32) =~= quants@);
        assert(out@ =~= old(out)@ + q8_block(scale, quants@));
    }
}

/// An unpacked block of 32 four-bit codes with the bytes before them.
#[derive(Debug)]
pub struct NibbleBlock {
    /// The microscale, or the bits of the scale.
    pub scale: u16,
    /// The bits of the minimum, 0 where the type has none.
    pub min: u16,
    pub codes: Vec<u8>,
}

/// The 32 codes of 16 bytes: the lower halves first.
pub open spec fn nibbles(b: Seq<u8>, at: int) -> Seq<u8> {
    Seq::new(
        32,
        |i: int|
            if i < 16 {
                b[at + i] % 16
            } else {
                b[at + i - 16] / 16
            },
    )
}

fn read_nibbles(b: &[u8], at: usize) -> (v: Vec<u8>)
    requires
        at + 16 <= b@.len(),
    ensures
        v@ == nibbles(b@, at as int),
        forall|i: int| 0 <= i < 32 ==> #[trigger] v@[i] < 16,
{
    let total: usize = b.len();
    let mut v: Vec<u8> = Vec::new();
    let mut i: usize = 0;
    while i < 16
        invariant
            i <= 16,
            total == b@.len(),
            at + 16 <= total,
            v@.len() == i,
            forall|j: int| 0 <= j < i ==> #[trigger] v@[j] == b@[at + j] % 16,
        decreases 16 - i,
    {
        v.push(b[at + i] % 16);
        i = i + 1;
    }
    let mut k: usize = 0;
    while k < 16
        invariant
            k <= 16,
            total == b@.len(),
            at + 16 <= total,
            v@.len() == 16 + k,
            forall|j: int| 0 <= j < 16 ==> #[trigger] v@[j] == b@[at + j] % 16,
            forall|j: int| 16 <= j < 16 + k ==> #[trigger] v@[j] == b@[at + j - 16] / 16,
        decreases 16 - k,
    {
        v.push(b[at + k] / 16);
        k = k + 1;
    }
    proof {
        assert(v@ =~= nibbles(b@, at as int));
    }
    v
}

/// Bytes of an MXFP4 block: a microscale and 16 bytes of codes.
pub const MXFP4_BLOCK: usize = 17;

/// Bytes of a Q4_1 block: a scale, a minimum and 16 bytes of codes.
pub const Q4_1_BLOCK: usize = 20;

/// Block `i` of MXFP4 data.
pub open spec fn is_mxfp4_block(b: NibbleBlock, raw: Seq<u8>, i: int) -> bool {
    &&& b.scale == raw[17 * i]
    &&& b.min == 0
    &&& b.codes@ == nibbles(raw, 17 * i + 1)
}

/// Block `i` of Q4_1 data.
pub open spec fn is_q4_1_block(b: NibbleBlock, raw: Seq<u8>, i: int) -> bool {
    &&& b.scale == le16(raw, 20 * i)
    &&& b.min == le16(raw, 20 * i + 2)
    &&& b.codes@ == nibbles(raw, 20 * i + 4)
}

/// Unpacks a block of MXFP4 data.
pub fn read_mxfp4_block(raw: &[u8], i: usize) -> (b: NibbleBlock)
    requires
        (i + 1) * 17 <= raw@.len(),
    ensures
        is_mxfp4_block(b, raw@, i as int),
{
    let total: usize = raw.len();
    proof {
        assert(17 * i + 17 <= total);
    }
    let at: usize = i * MXFP4_BLOCK;
    let codes = read_nibbles(raw, at + 1);
    NibbleBlock { scale: raw[at] as u16, min: 0, codes }
}

/// Unpacks a block of Q4_1 data.
pub fn read_q4_1_block(raw: &[u8], i: usize) -> (b: NibbleBlock)
    requires
        (i + 1) * 20 <= raw@.len(),
    ensures
        is_q4_1_block(b, raw@, i as int),
{
    let total: usize = raw.len();
    proof {
        assert(20 * i + 20 <= total);
    }
    let at: usize = i * Q4_1_BLOCK;
    let codes = read_nibbles(raw, at + 4);
    NibbleBlock { scale: read_le16(raw, at), min: read_le16(raw, at + 2), codes }
}

} // verus!
