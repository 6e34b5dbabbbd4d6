//! Quantised tensor data: what the bytes of a block say.
//!
//! A block holds one or two floating point factors and, for each of its elements, small integers: a
//! code and, in the larger blocks, a scale and an offset of the code's group. An element's value is
//! made of these by a formula of its type (see [`Block`]).
use vstd::prelude::*;
use vstd::slice::slice_subrange;
use vstd::string::*;
use crate::error::{ErrorView, GgufError, GgufResult};
use crate::float::{f16_bits_to_f32, f32_bits_to_f16, f32_of_f16, narrows_f32, widens_f16};
use crate::tensor::{lemma_saturated_product, mul_saturating, saturated};
use crate::types::{ggml_block_bytes, ggml_block_size, ggml_type_ident, GgmlType};

verus! {

// ---------------------------------------------------------------------------------------------
// Short floating point numbers in bytes
// ---------------------------------------------------------------------------------------------

/// Two bytes as a number, the lower first.
pub open spec fn le16(lo: u8, hi: u8) -> u16 {
    (lo + 256 * hi) as u16
}

/// The half precision number in two bytes, as the bit pattern of a single precision number.
pub fn f16_to_f32(b: &[u8; 2]) -> (r: u32)
    ensures
        widens_f16(le16(b@[0], b@[1]), r),
        r == f32_of_f16(le16(b@[0], b@[1])),
{
    f16_bits_to_f32(b[0] as u16 + 256 * b[1] as u16)
}

/// The single precision number whose upper half are two bytes, as a bit pattern.
pub fn bf16_to_f32(b: &[u8; 2]) -> (r: u32)
    ensures
        r == le16(b@[0], b@[1]) * 0x1_0000,
{
    (b[0] as u32 + 256 * b[1] as u32) * 0x1_0000
}

/// The half precision number nearest to a single precision number, in two bytes.
pub fn f32_to_f16(v: u32) -> (r: [u8; 2])
    ensures
        narrows_f32(v, le16(r@[0], r@[1])),
{
    let h: u16 = f32_bits_to_f16(v);
    [(h % 256) as u8, (h / 256) as u8]
}

// ---------------------------------------------------------------------------------------------
// Bit fields
// ---------------------------------------------------------------------------------------------

/// The lower half of a byte.
pub open spec fn low(b: u8) -> int {
    b as int % 16
}

/// The upper half of a byte.
pub open spec fn high(b: u8) -> int {
    b as int / 16
}

/// Bit `i` of a byte.
pub open spec fn bit(b: u8, i: int) -> int {
    (b as int / two_to(i)) % 2
}

/// The two bits of a byte from bit `2 * i` on.
pub open spec fn pair(b: u8, i: int) -> int {
    (b as int / two_to(2 * i)) % 4
}

/// Two to the power `i`, for the bits of a byte.
pub open spec fn two_to(i: int) -> int {
    if i == 0 {
        1
    } else if i == 1 {
        2
    } else if i == 2 {
        4
    } else if i == 3 {
        8
    } else if i == 4 {
        16
    } else if i == 5 {
        32
    } else if i == 6 {
        64
    } else {
        128
    }
}

/// A byte as a signed number.
pub open spec fn as_signed(b: u8) -> int {
    if b < 128 {
        b as int
    } else {
        b - 256
    }
}

fn two_to_exec(i: usize) -> (r: u8)
    requires
        i < 8,
    ensures
        r == two_to(i as int),
        r > 0,
{
    match i {
        0 => 1,
        1 => 2,
        2 => 4,
        3 => 8,
        4 => 16,
        5 => 32,
        6 => 64,
        _ => 128,
    }
}

fn bit_of(b: u8, i: usize) -> (r: i32)
    requires
        i < 8,
    ensures
        r == bit(b, i as int),
        0 <= r < 2,
{
    ((b / two_to_exec(i)) % 2) as i32
}

fn pair_of(b: u8, i: usize) -> (r: i32)
    requires
        i < 4,
    ensures
        r == pair(b, i as int),
        0 <= r < 4,
{
    ((b / two_to_exec(2 * i)) % 4) as i32
}

fn signed_of(b: u8) -> (r: i32)
    ensures
        r == as_signed(b),
        -128 <= r < 128,
{
    if b < 128 {
        b as i32
    } else {
        b as i32 - 256
    }
}

// ---------------------------------------------------------------------------------------------
// Scales
// ---------------------------------------------------------------------------------------------

/// Scale `j` of sixteen 4-bit scales, two to a byte, the last byte first.
pub open spec fn scale4(s: Seq<u8>, j: int) -> int {
    if j % 2 == 0 {
        low(s[15 - j / 2])
    } else {
        high(s[15 - j / 2])
    }
}

/// Scale `j` of sixteen 4-bit scales.
pub fn k_scale4(s: &[u8], j: usize) -> (r: u32)
    requires
        s@.len() >= 16,
        j < 16,
    ensures
        r == scale4(s@, j as int),
        r < 16,
{
    let byte: u8 = s[15 - j / 2];
    if j % 2 == 0 {
        (byte % 16) as u32
    } else {
        (byte / 16) as u32
    }
}

/// The 6-bit scale and the 6-bit offset of group `j` of eight, which share twelve bytes: the first
/// four groups have theirs in the lower six bits of bytes `j` and `j + 4`; of the others the lower
/// four bits stand in byte `j + 4` and the upper two in the upper bits of bytes `j - 4` and `j`.
pub open spec fn scale_min6(s: Seq<u8>, j: int) -> (int, int) {
    if j < 4 {
        (s[j] as int % 64, s[j + 4] as int % 64)
    } else {
        (
            low(s[j + 4]) + 16 * (s[j - 4] as int / 64),
            high(s[j + 4]) + 16 * (s[j] as int / 64),
        )
    }
}

/// The scale and the offset of group `j` of eight.
pub fn k_scale_min_6bit(scales: &[u8], j: usize) -> (r: (u32, u32))
    requires
        scales@.len() >= 12,
        j < 8,
    ensures
        (r.0 as int, r.1 as int) == scale_min6(scales@, j as int),
        r.0 < 64,
        r.1 < 64,
{
    if j < 4 {
        ((scales[j] % 64) as u32, (scales[j + 4] % 64) as u32)
    } else {
        (
            (scales[j + 4] % 16) as u32 + 16 * (scales[j - 4] / 64) as u32,
            (scales[j + 4] / 16) as u32 + 16 * (scales[j] / 64) as u32,
        )
    }
}

// ---------------------------------------------------------------------------------------------
// Elements
// ---------------------------------------------------------------------------------------------

/// What a block says of one element: its code, and the scale and the offset of its group where
/// its type has groups (else 1 and 0).
#[derive(Clone, Copy, Debug, PartialEq, Eq, Structural)]
pub struct Code {
    pub scale: i32,
    pub min: i32,
    pub q: i32,
}

/// A code in a block without groups.
pub open spec fn plain(q: int) -> Code {
    Code { scale: 1, min: 0, q: q as i32 }
}

/// Element `k` of a block of type `Q4_0`.
pub open spec fn code_q4_0(b: Seq<u8>, k: int) -> Code {
    plain(half_byte(b[2 + k / 2], k % 2 == 1) - 8)
}

/// Element `k` of a block of type `Q4_1`.
pub open spec fn code_q4_1(b: Seq<u8>, k: int) -> Code {
    plain(half_byte(b[4 + k / 2], k % 2 == 1))
}

/// Element `k` of a block of type `Q5_0`.
pub open spec fn code_q5_0(b: Seq<u8>, k: int) -> Code {
    plain(five_bits(b, 2, 6, k) - 16)
}

/// Element `k` of a block of type `Q5_1`.
pub open spec fn code_q5_1(b: Seq<u8>, k: int) -> Code {
    plain(five_bits(b, 4, 8, k))
}

/// Element `k` of a block of type `Q8_0`.
pub open spec fn code_q8_0(b: Seq<u8>, k: int) -> Code {
    plain(as_signed(b[2 + k]))
}

/// Element `k` of a block of type `Q2_K`.
pub open spec fn code_q2_k(b: Seq<u8>, k: int) -> Code {
    Code {
        scale: scale4(b.subrange(0, 16), k / 16) as i32,
        min: 0,
        q: pair(b[16 + k / 4], k % 4) as i32,
    }
}

/// Element `k` of a block of one of the types with codes of three bits.
pub open spec fn code_q3_k(b: Seq<u8>, k: int) -> Code {
    Code {
        scale: scale3(b, k / 16) as i32,
        min: 0,
        q: (4 * (1 - bit(b[k / 8], k % 8)) - pair(b[32 + k / 4], k % 4)) as i32,
    }
}

/// Element `k` of a block of type `Q4_K`: four groups of 64 elements, each in 32 bytes of which
/// the lower halves come first.
pub open spec fn code_q4_k(b: Seq<u8>, k: int) -> Code {
    let (scale, min) = scale_min6(b.subrange(4, 16), 2 * (k / 64) + (k % 64) / 32);
    Code {
        scale: scale as i32,
        min: min as i32,
        q: half_byte(b[16 + 32 * (k / 64) + k % 32], k % 64 >= 32) as i32,
    }
}

/// Element `k` of a block of type `Q5_K`.
pub open spec fn code_q5_k(b: Seq<u8>, k: int) -> Code {
    let (scale, min) = scale_min6(b.subrange(4, 16), k / 32);
    Code {
        scale: scale as i32,
        min: min as i32,
        q: (half_byte(b[48 + k / 2], k % 2 == 1) + 16 * bit(b[16 + k / 16], (k / 2) % 8)) as i32,
    }
}

/// Element `k` of a block of type `Q6_K`: two halves of four parts of 32 elements.
pub open spec fn code_q6_k(b: Seq<u8>, k: int) -> Code {
    let half = k / 128;
    let part = (k % 128) / 32;
    let l = k % 32;
    Code {
        scale: as_signed(b[192 + 8 * half + 2 * part + l / 16]) as i32,
        min: 0,
        q: (half_byte(b[64 * half + 32 * (part % 2) + l], part >= 2) + 16 * pair(
            b[128 + 32 * half + l],
            part,
        ) - 32) as i32,
    }
}

/// Element `k` of a block of type `Q8_K`.
pub open spec fn code_q8_k(b: Seq<u8>, k: int) -> Code {
    plain(as_signed(b[4 + k]))
}

/// Element `k` of a block of one of the quantised types.
pub open spec fn code_at(ty: GgmlType, b: Seq<u8>, k: int) -> Code {
    match ty {
        GgmlType::Q4_0 => code_q4_0(b, k),
        GgmlType::Q4_1 => code_q4_1(b, k),
        GgmlType::Q5_0 => code_q5_0(b, k),
        GgmlType::Q5_1 => code_q5_1(b, k),
        GgmlType::Q8_0 => code_q8_0(b, k),
        GgmlType::Q2_K => code_q2_k(b, k),
        GgmlType::Q3_K_S | GgmlType::Q3_K_M | GgmlType::Q3_K_L => code_q3_k(b, k),
        GgmlType::Q4_K => code_q4_k(b, k),
        GgmlType::Q5_K => code_q5_k(b, k),
        GgmlType::Q6_K => code_q6_k(b, k),
        GgmlType::Q8_K => code_q8_k(b, k),
        _ => plain(1),
    }
}

/// One half of a byte.
pub open spec fn half_byte(b: u8, upper: bool) -> int {
    if upper {
        high(b)
    } else {
        low(b)
    }
}

/// Element `k` of the two types whose codes have four bits in one place and the fifth in another:
/// the lower halves of the bytes are the first sixteen elements, the upper halves the others.
pub open spec fn five_bits(b: Seq<u8>, fifth: int, four: int, k: int) -> int {
    half_byte(b[four + k % 16], k >= 16) + 16 * bit(b[fifth + k / 8], k % 8)
}

/// Scale `i` of the types with codes of three bits: four bits in one place and two in another.
pub open spec fn scale3(b: Seq<u8>, i: int) -> int {
    half_byte(b[96 + i / 2], i % 2 == 1) + 16 * pair(b[104 + i / 4], i % 4) - 32
}

fn nibble(b: u8, upper: bool) -> (r: i32)
    ensures
        r == half_byte(b, upper),
        0 <= r < 16,
{
    if upper {
        (b / 16) as i32
    } else {
        (b % 16) as i32
    }
}

fn plain_code(q: i32) -> (r: Code)
    ensures
        r == plain(q as int),
{
    Code { scale: 1, min: 0, q }
}

fn five_bits_of(b: &[u8], fifth: usize, four: usize, k: usize) -> (r: i32)
    requires
        k < 32,
        fifth + 4 <= four <= 8,
        four + 16 <= b@.len(),
    ensures
        r == five_bits(b@, fifth as int, four as int, k as int),
        0 <= r < 32,
{
    nibble(b[four + k % 16], k >= 16) + 16 * bit_of(b[fifth + k / 8], k % 8)
}

fn deq_q4_0(b: &[u8], k: usize) -> (r: Code)
    requires
        b@.len() >= 18,
        k < 32,
    ensures
        r == code_q4_0(b@, k as int),
{
    plain_code(nibble(b[2 + k / 2], k % 2 == 1) - 8)
}

fn deq_q4_1(b: &[u8], k: usize) -> (r: Code)
    requires
        b@.len() >= 20,
        k < 32,
    ensures
        r == code_q4_1(b@, k as int),
{
    plain_code(nibble(b[4 + k / 2], k % 2 == 1))
}

fn deq_q5_0(b: &[u8], k: usize) -> (r: Code)
    requires
        b@.len() >= 22,
        k < 32,
    ensures
        r == code_q5_0(b@, k as int),
{
    plain_code(five_bits_of(b, 2, 6, k) - 16)
}

fn deq_q5_1(b: &[u8], k: usize) -> (r: Code)
    requires
        b@.len() >= 24,
        k < 32,
    ensures
        r == code_q5_1(b@, k as int),
{
    plain_code(five_bits_of(b, 4, 8, k))
}

fn deq_q8_0(b: &[u8], k: usize) -> (r: Code)
    requires
        b@.len() >= 34,
        k < 32,
    ensures
        r == code_q8_0(b@, k as int),
{
    plain_code(signed_of(b[2 + k]))
}

fn deq_q2_k(b: &[u8], k: usize) -> (r: Code)
    requires
        b@.len() >= 84,
        k < 256,
    ensures
        r == code_q2_k(b@, k as int),
{
    let head = slice_subrange(b, 0, 16);
    let scale: i32 = k_scale4(head, k / 16) as i32;
    Code { scale, min: 0, q: pair_of(b[16 + k / 4], k % 4) }
}

fn deq_q3_k(b: &[u8], k: usize) -> (r: Code)
    requires
        b@.len() >= 110,
        k < 256,
    ensures
        r == code_q3_k(b@, k as int),
{
    let i: usize = k / 16;
    let scale: i32 = nibble(b[96 + i / 2], i % 2 == 1) + 16 * pair_of(b[104 + i / 4], i % 4) - 32;
    let q: i32 = 4 * (1 - bit_of(b[k / 8], k % 8)) - pair_of(b[32 + k / 4], k % 4);
    Code { scale, min: 0, q }
}

fn deq_q4_k(b: &[u8], k: usize) -> (r: Code)
    requires
        b@.len() >= 144,
        k < 256,
    ensures
        r == code_q4_k(b@, k as int),
{
    let scales = slice_subrange(b, 4, 16);
    let (scale, min) = k_scale_min_6bit(scales, 2 * (k / 64) + (k % 64) / 32);
    let q: i32 = nibble(b[16 + 32 * (k / 64) + k % 32], k % 64 >= 32);
    Code { scale: scale as i32, min: min as i32, q }
}

fn deq_q5_k(b: &[u8], k: usize) -> (r: Code)
    requires
        b@.len() >= 176,
        k < 256,
    ensures
        r == code_q5_k(b@, k as int),
{
    let scales = slice_subrange(b, 4, 16);
    let (scale, min) = k_scale_min_6bit(scales, k / 32);
    let q: i32 = nibble(b[48 + k / 2], k % 2 == 1) + 16 * bit_of(b[16 + k / 16], (k / 2) % 8);
    Code { scale: scale as i32, min: min as i32, q }
}

fn deq_q6_k(b: &[u8], k: usize) -> (r: Code)
    requires
        b@.len() >= 210,
        k < 256,
    ensures
        r == code_q6_k(b@, k as int),
{
    let half: usize = k / 128;
    let part: usize = (k % 128) / 32;
    let l: usize = k % 32;
    let byte: u8 = b[64 * half + 32 * (part % 2) + l];
    let q: i32 = nibble(byte, part >= 2) + 16 * pair_of(b[128 + 32 * half + l], part) - 32;
    Code { scale: signed_of(b[192 + 8 * half + 2 * part + l / 16]), min: 0, q }
}

fn deq_q8_k(b: &[u8], k: usize) -> (r: Code)
    requires
        b@.len() >= 292,
        k < 256,
    ensures
        r == code_q8_k(b@, k as int),
{
    plain_code(signed_of(b[4 + k]))
}

/// Element `k` of a block of a quantised type.
pub fn decode_element(b: &[u8], ty: GgmlType, k: usize) -> (r: Code)
    requires
        ggml_block_bytes(ty) is Some,
        b@.len() >= ggml_block_bytes(ty)->Some_0,
        k < ggml_block_size(ty)->Some_0,
    ensures
        r == code_at(ty, b@, k as int),
{
    match ty {
        GgmlType::Q4_0 => deq_q4_0(b, k),
        GgmlType::Q4_1 => deq_q4_1(b, k),
        GgmlType::Q5_0 => deq_q5_0(b, k),
        GgmlType::Q5_1 => deq_q5_1(b, k),
        GgmlType::Q8_0 => deq_q8_0(b, k),
        GgmlType::Q2_K => deq_q2_k(b, k),
        GgmlType::Q3_K_S | GgmlType::Q3_K_M | GgmlType::Q3_K_L => deq_q3_k(b, k),
        GgmlType::Q4_K => deq_q4_k(b, k),
        GgmlType::Q5_K => deq_q5_k(b, k),
        GgmlType::Q6_K => deq_q6_k(b, k),
        GgmlType::Q8_K => deq_q8_k(b, k),
        _ => plain_code(1),
    }
}

// ---------------------------------------------------------------------------------------------
// Blocks
// ---------------------------------------------------------------------------------------------

/// The half precision number at `at`, as a single precision one.
pub open spec fn f16_in(b: Seq<u8>, at: int) -> u32 {
    f32_of_f16(le16(b[at], b[at + 1]))
}

/// Four bytes from `at` on as a number, the lowest first.
pub open spec fn le32(b: Seq<u8>, at: int) -> u32 {
    (b[at] + 0x100 * b[at + 1] + 0x1_0000 * b[at + 2] + 0x100_0000 * b[at + 3]) as u32
}

/// Where the factor of a block stands, in the types that have a half precision one.
pub open spec fn factor_at(ty: GgmlType) -> int {
    match ty {
        GgmlType::Q2_K => 80,
        GgmlType::Q3_K_S | GgmlType::Q3_K_L => 108,
        GgmlType::Q3_K_M => 112,
        GgmlType::Q6_K => 208,
        _ => 0,
    }
}

/// The factor of a block, or the number itself in the floating point types.
pub open spec fn factor_of(ty: GgmlType, b: Seq<u8>) -> u32 {
    match ty {
        GgmlType::F32 | GgmlType::Q8_K => le32(b, 0),
        GgmlType::BF16 => (le16(b[0], b[1]) * 0x1_0000) as u32,
        _ => f16_in(b, factor_at(ty)),
    }
}

/// The second factor of a block: the offset of `Q4_1` and `Q5_1`, the factor of the offsets in
/// `Q2_K`, `Q4_K` and `Q5_K`, and zero in the others.
pub open spec fn offset_of(ty: GgmlType, b: Seq<u8>) -> u32 {
    match ty {
        GgmlType::Q4_1 | GgmlType::Q5_1 | GgmlType::Q4_K | GgmlType::Q5_K => f16_in(b, 2),
        GgmlType::Q2_K => f16_in(b, 82),
        _ => 0,
    }
}

/// How the number of an element comes of its block. With `d` the factor and `m` the second factor of
/// the block, and `s` the scale, `o` the offset and `q` the code of the element, it is
#[derive(Clone, Copy, Debug, PartialEq, Eq, Structural)]
pub enum Formula {
    /// `d`: the element is stored as it is.
    Stored,
    /// `d * q`.
    Scaled,
    /// `d * q + m`.
    ScaledAndShifted,
    /// `(d * s) * q`.
    Grouped,
    /// `(s * d) * q - o * m`.
    GroupedAndShifted,
    /// `(s * d) * q`.
    LowGroup,
    /// `(s * m + t) * q + t` with `t = (s - 8) * m`.
    HighGroup,
}

/// How the number of an element of a type comes of its block, where the type's layout is known. It
/// depends on the element's scale in `Q2_K` alone.
pub open spec fn formula_of(ty: GgmlType, scale: int) -> Option<Formula> {
    match ty {
        GgmlType::F32 | GgmlType::F16 | GgmlType::BF16 => Some(Formula::Stored),
        GgmlType::Q4_0 | GgmlType::Q5_0 | GgmlType::Q8_0 | GgmlType::Q8_K => Some(Formula::Scaled),
        GgmlType::Q4_1 | GgmlType::Q5_1 => Some(Formula::ScaledAndShifted),
        GgmlType::Q3_K_S | GgmlType::Q3_K_M | GgmlType::Q3_K_L | GgmlType::Q6_K => Some(
            Formula::Grouped,
        ),
        GgmlType::Q4_K | GgmlType::Q5_K => Some(Formula::GroupedAndShifted),
        GgmlType::Q2_K => Some(
            if scale < 8 {
                Formula::LowGroup
            } else {
                Formula::HighGroup
            },
        ),
        _ => None,
    }
}

/// How the number of an element of a type comes of its block.
pub fn formula(ty: GgmlType, scale: i32) -> (r: Option<Formula>)
    ensures
        r == formula_of(ty, scale as int),
        r is Some <==> ggml_block_size(ty) is Some,
{
    match ty {
        GgmlType::F32 | GgmlType::F16 | GgmlType::BF16 => Some(Formula::Stored),
        GgmlType::Q4_0 | GgmlType::Q5_0 | GgmlType::Q8_0 | GgmlType::Q8_K => Some(Formula::Scaled),
        GgmlType::Q4_1 | GgmlType::Q5_1 => Some(Formula::ScaledAndShifted),
        GgmlType::Q3_K_S | GgmlType::Q3_K_M | GgmlType::Q3_K_L | GgmlType::Q6_K => Some(
            Formula::Grouped,
        ),
        GgmlType::Q4_K | GgmlType::Q5_K => Some(Formula::GroupedAndShifted),
        GgmlType::Q2_K => if scale < 8 {
            Some(Formula::LowGroup)
        } else {
            Some(Formula::HighGroup)
        },
        _ => None,
    }
}

/// What a block says. [`formula`] tells how the numbers of its elements come of it.
#[derive(Debug)]
pub struct Block {
    /// The factor, as the bit pattern of a single precision number.
    pub factor: u32,
    /// The second factor, as the bit pattern of a single precision number.
    pub offset: u32,
    /// The elements.
    pub codes: Vec<Code>,
}

/// A quantised block that is too short, or of a type whose layout is not known.
pub open spec fn dequant_error(ty: GgmlType, expected: u64, actual: u64) -> ErrorView {
    ErrorView::DequantError { dtype: ggml_type_ident(ty), expected, actual }
}

fn error_of(ty: GgmlType, expected: u64, actual: u64) -> (e: GgufError)
    ensures
        e@ == dequant_error(ty, expected, actual),
{
    GgufError::DequantError { dtype: ty.ident(), expected, actual }
}

fn f16_at(data: &[u8], at: usize) -> (r: u32)
    requires
        at + 2 <= data@.len(),
    ensures
        r == f16_in(data@, at as int),
{
    f16_to_f32(&[data[at], data[at + 1]])
}

fn factor_in(data: &[u8], ty: GgmlType) -> (r: u32)
    requires
        ggml_block_bytes(ty) is Some,
        data@.len() >= ggml_block_bytes(ty)->Some_0,
    ensures
        r == factor_of(ty, data@),
{
    match ty {
        GgmlType::F32 | GgmlType::Q8_K => data[0] as u32 + 0x100 * data[1] as u32 + 0x1_0000
            * data[2] as u32 + 0x100_0000 * data[3] as u32,
        GgmlType::BF16 => bf16_to_f32(&[data[0], data[1]]),
        GgmlType::Q2_K => f16_at(data, 80),
        GgmlType::Q3_K_S | GgmlType::Q3_K_L => f16_at(data, 108),
        GgmlType::Q3_K_M => f16_at(data, 112),
        GgmlType::Q6_K => f16_at(data, 208),
        _ => f16_at(data, 0),
    }
}

fn offset_in(data: &[u8], ty: GgmlType) -> (r: u32)
    requires
        ggml_block_bytes(ty) is Some,
        data@.len() >= ggml_block_bytes(ty)->Some_0,
    ensures
        r == offset_of(ty, data@),
{
    match ty {
        GgmlType::Q4_1 | GgmlType::Q5_1 | GgmlType::Q4_K | GgmlType::Q5_K => f16_at(data, 2),
        GgmlType::Q2_K => f16_at(data, 82),
        _ => 0,
    }
}

/// What the block at the start of `data` says. It fails where the layout of the type is not known
/// and where there are too few bytes.
pub fn dequantize_block(data: &[u8], dtype: GgmlType) -> (r: GgufResult<Block>)
    ensures
        match ggml_block_bytes(dtype) {
            None => r is Err && r->Err_0@ == dequant_error(dtype, 0, data@.len() as u64),
            Some(n) => if data@.len() < n {
                r is Err && r->Err_0@ == dequant_error(dtype, n, data@.len() as u64)
            } else {
                &&& r is Ok
                &&& r->Ok_0.factor == factor_of(dtype, data@)
                &&& r->Ok_0.offset == offset_of(dtype, data@)
                &&& r->Ok_0.codes@ == Seq::new(
                    ggml_block_size(dtype)->Some_0 as nat,
                    |k: int| code_at(dtype, data@, k),
                )
            },
        },
{
    let bytes: u64 = match dtype.block_bytes() {
        Some(n) => n,
        None => return Err(error_of(dtype, 0, data.len() as u64)),
    };
    let size: u64 = match dtype.block_size() {
        Some(n) => n,
        None => return Err(error_of(dtype, 0, data.len() as u64)),
    };
    if (data.len() as u64) < bytes {
        return Err(error_of(dtype, bytes, data.len() as u64));
    }
    let mut codes: Vec<Code> = Vec::new();
    let mut k: usize = 0;
    while k < size as usize
        invariant
            ggml_block_bytes(dtype) == Some(bytes),
            ggml_block_size(dtype) == Some(size),
            size <= 256,
            data@.len() >= bytes,
            k <= size,
            codes@ == Seq::new(k as nat, |i: int| code_at(dtype, data@, i)),
        decreases size - k,
    {
        codes.push(decode_element(data, dtype, k));
        k += 1;
        assert(codes@ =~= Seq::new(k as nat, |i: int| code_at(dtype, data@, i)));
    }
    Ok(Block { factor: factor_in(data, dtype), offset: offset_in(data, dtype), codes })
}

// ---------------------------------------------------------------------------------------------
// Whole tensors
// ---------------------------------------------------------------------------------------------

/// How many blocks `n` elements take in `len` bytes, or why they cannot be there.
pub open spec fn blocks_in(ty: GgmlType, n: u64, len: u64) -> Result<u64, ErrorView> {
    match ggml_block_size(ty) {
        None => Err(dequant_error(ty, 0, 0)),
        Some(size) => {
            let need = (n / size) as nat * ggml_block_bytes(ty)->Some_0 as nat;
            if n % size != 0 {
                Err(
                    ErrorView::InvalidTensorShape {
                        name: Seq::empty(),
                        elements: n,
                        block: size,
                    },
                )
            } else if len < need {
                Err(dequant_error(ty, saturated(need), len))
            } else {
                Ok(n / size)
            }
        },
    }
}

/// How many blocks of `data` are to be taken apart for `n` elements. It fails where the layout of
/// the type is not known, where the elements do not fill whole blocks, and where there are too few
/// bytes.
pub fn block_count(data: &[u8], dtype: GgmlType, n: u64) -> (r: GgufResult<u64>)
    ensures
        match blocks_in(dtype, n, data@.len() as u64) {
            Ok(blocks) => r is Ok && r->Ok_0 == blocks,
            Err(e) => r is Err && r->Err_0@ == e,
        },
{
    let size: u64 = match dtype.block_size() {
        Some(s) => s,
        None => return Err(error_of(dtype, 0, 0)),
    };
    let bytes: u64 = match dtype.block_bytes() {
        Some(b) => b,
        None => return Err(error_of(dtype, 0, 0)),
    };
    if n % size != 0 {
        return Err(
            GgufError::InvalidTensorShape { name: String::new(), elements: n, block: size },
        );
    }
    let len: u64 = data.len() as u64;
    let need: u64 = mul_saturating(n / size, bytes);
    let fits = match (n / size).checked_mul(bytes) {
        Some(exact) => exact <= len,
        None => false,
    };
    if !fits {
        return Err(error_of(dtype, need, len));
    }
    Ok(n / size)
}

/// Whether `block` is what block `i` of the bytes `b` says.
pub open spec fn is_block(ty: GgmlType, b: Seq<u8>, i: int, block: Block) -> bool {
    let size = ggml_block_bytes(ty)->Some_0 as int;
    let part = b.subrange(i * size, (i + 1) * size);
    &&& block.factor == factor_of(ty, part)
    &&& block.offset == offset_of(ty, part)
    &&& block.codes@ == Seq::new(
        ggml_block_size(ty)->Some_0 as nat,
        |k: int| code_at(ty, part, k),
    )
}

/// What the blocks of `n` elements say, one behind the other. It fails as [`block_count`] does.
pub fn dequantize(data: &[u8], dtype: GgmlType, n: u64) -> (r: GgufResult<Vec<Block>>)
    ensures
        match blocks_in(dtype, n, data@.len() as u64) {
            Ok(blocks) => r is Ok && r->Ok_0@.len() == blocks && forall|i: int|
                0 <= i < blocks ==> is_block(dtype, data@, i, #[trigger] r->Ok_0@[i]),
            Err(e) => r is Err && r->Err_0@ == e,
        },
{
    let blocks: u64 = match block_count(data, dtype, n) {
        Ok(b) => b,
        Err(e) => return Err(e),
    };
    let size: u64 = match dtype.block_bytes() {
        Some(b) => b,
        None => return Err(error_of(dtype, 0, 0)),
    };
    let mut out: Vec<Block> = Vec::new();
    let mut i: u64 = 0;
    assert(data.len() == data@.len());
    while i < blocks
        invariant
            i <= blocks,
            ggml_block_bytes(dtype) == Some(size),
            blocks * size <= data@.len() <= usize::MAX,
            out@.len() == i,
            forall|k: int| 0 <= k < i ==> is_block(dtype, data@, k, #[trigger] out@[k]),
        decreases blocks - i,
    {
        assert(i * size + size == (i + 1) * size && (i + 1) * size <= blocks * size)
            by (nonlinear_arith)
            requires
                i < blocks,
        ;
        assert(0 <= i * size) by (nonlinear_arith);
        let start: usize = (i * size) as usize;
        let part = slice_subrange(data, start, start + size as usize);
        match dequantize_block(part, dtype) {
            Ok(b) => {
                assert(is_block(dtype, data@, i as int, b));
                out.push(b);
            },
            Err(e) => return Err(e),
        }
        i += 1;
    }
    Ok(out)
}

/// How many bytes a row of `cols` elements takes, or why it cannot be stored.
pub open spec fn row_size(ty: GgmlType, cols: u64) -> Result<nat, ErrorView> {
    match ggml_block_size(ty) {
        None => Err(dequant_error(ty, 0, 0)),
        Some(size) => if cols % size != 0 {
            Err(
                ErrorView::InvalidTensorShape {
                    name: Seq::empty(),
                    elements: cols,
                    block: size,
                },
            )
        } else {
            Ok((cols / size) as nat * ggml_block_bytes(ty)->Some_0 as nat)
        },
    }
}

/// How many bytes a row of `cols` elements takes, at most 2^64 - 1.
pub fn row_bytes(dtype: GgmlType, cols: u64) -> (r: GgufResult<u64>)
    ensures
        match row_size(dtype, cols) {
            Ok(n) => r is Ok && r->Ok_0 == saturated(n),
            Err(e) => r is Err && r->Err_0@ == e,
        },
{
    let size: u64 = match dtype.block_size() {
        Some(s) => s,
        None => return Err(error_of(dtype, 0, 0)),
    };
    let bytes: u64 = match dtype.block_bytes() {
        Some(b) => b,
        None => return Err(error_of(dtype, 0, 0)),
    };
    if cols % size != 0 {
        return Err(
            GgufError::InvalidTensorShape { name: String::new(), elements: cols, block: size },
        );
    }
    Ok(mul_saturating(cols / size, bytes))
}

/// The bytes of a row in a product of a stored matrix of `rows` rows with a vector, or why the
/// sizes do not fit together: `w` bytes of matrix, `x` elements of vector and `y` of result.
pub open spec fn product_layout(
    ty: GgmlType,
    rows: u64,
    cols: u64,
    w: u64,
    x: u64,
    y: u64,
) -> Result<nat, ErrorView> {
    match row_size(ty, cols) {
        Err(e) => Err(e),
        Ok(row) => if x != cols {
            Err(dequant_error(ty, cols, x))
        } else if y != rows {
            Err(dequant_error(ty, rows, y))
        } else if rows as nat * row > w {
            Err(dequant_error(ty, saturated(rows as nat * row), w))
        } else {
            Ok(row)
        },
    }
}

/// The bytes of a row in a product of the stored matrix `w` with a vector, after all sizes were
/// compared.
pub fn quant_matvec_layout(
    w: &[u8],
    dtype: GgmlType,
    rows: u64,
    cols: u64,
    x_len: u64,
    y_len: u64,
) -> (r: GgufResult<u64>)
    ensures
        match product_layout(dtype, rows, cols, w@.len() as u64, x_len, y_len) {
            Ok(n) => r is Ok && r->Ok_0 == saturated(n),
            Err(e) => r is Err && r->Err_0@ == e,
        },
{
    let row: u64 = match row_bytes(dtype, cols) {
        Ok(n) => n,
        Err(e) => return Err(e),
    };
    if x_len != cols {
        return Err(error_of(dtype, cols, x_len));
    }
    if y_len != rows {
        return Err(error_of(dtype, rows, y_len));
    }
    let len: u64 = w.len() as u64;
    let need: u64 = mul_saturating(rows, row);
    let ghost exact_row = row_size(dtype, cols)->Ok_0;
    proof {
        lemma_saturated_product(exact_row, rows);
        assert(saturated(exact_row) * rows == rows * saturated(exact_row)) by (nonlinear_arith);
        assert(exact_row * rows == rows * exact_row) by (nonlinear_arith);
        if exact_row > u64::MAX && rows > 0 {
            assert(rows * exact_row > u64::MAX) by (nonlinear_arith)
                requires
                    rows >= 1,
                    exact_row > u64::MAX,
            ;
        }
        assert(0 * exact_row == 0) by (nonlinear_arith);
    }
    let fits = rows == 0 || (row < u64::MAX && match rows.checked_mul(row) {
        Some(exact) => exact <= len,
        None => false,
    });
    if !fits {
        return Err(error_of(dtype, need, len));
    }
    Ok(row)
}

// ---------------------------------------------------------------------------------------------
// Laws
// ---------------------------------------------------------------------------------------------

/// The codes of every type lie in the range of its bits, and so do the scales and offsets.
pub proof fn codes_are_small(ty: GgmlType, b: Seq<u8>, k: int)
    requires
        ggml_block_size(ty) is Some,
        b.len() >= ggml_block_bytes(ty)->Some_0,
        0 <= k < ggml_block_size(ty)->Some_0,
    ensures
        ({
            let c = code_at(ty, b, k);
            match ty {
                GgmlType::Q4_0 => -8 <= c.q < 8,
                GgmlType::Q4_1 => 0 <= c.q < 16,
                GgmlType::Q5_0 => -16 <= c.q < 16,
                GgmlType::Q5_1 => 0 <= c.q < 32,
                GgmlType::Q8_0 | GgmlType::Q8_K => -128 <= c.q < 128,
                GgmlType::Q2_K => 0 <= c.q < 4 && 0 <= c.scale < 16,
                GgmlType::Q3_K_S | GgmlType::Q3_K_M | GgmlType::Q3_K_L => -4 < c.q <= 4 && -32
                    <= c.scale < 32,
                GgmlType::Q4_K => 0 <= c.q < 16 && 0 <= c.scale < 64 && 0 <= c.min < 64,
                GgmlType::Q5_K => 0 <= c.q < 32 && 0 <= c.scale < 64 && 0 <= c.min < 64,
                GgmlType::Q6_K => -32 <= c.q < 32 && -128 <= c.scale < 128,
                _ => c.q == 1,
            }
        }),
{
}

/// Nothing of the codes is lost in a block of type `Q4_0`: blocks with the same codes have the same
/// bytes behind the factor.
pub proof fn q4_0_codes_determine_bytes(a: Seq<u8>, b: Seq<u8>)
    requires
        a.len() == 18,
        b.len() == 18,
        forall|k: int| 0 <= k < 32 ==> code_q4_0(a, k) == #[trigger] code_q4_0(b, k),
    ensures
        a.skip(2) == b.skip(2),
{
    assert forall|i: int| 0 <= i < 16 implies a.skip(2)[i] == b.skip(2)[i] by {
        assert(code_q4_0(a, 2 * i) == code_q4_0(b, 2 * i));
        assert(code_q4_0(a, 2 * i + 1) == code_q4_0(b, 2 * i + 1));
    }
    assert(a.skip(2) =~= b.skip(2));
}

} // verus!
