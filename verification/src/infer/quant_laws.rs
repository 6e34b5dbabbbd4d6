//! What the codes of a block are for: they are the bits of its bytes, and nothing of them is lost.
//!
//! For every quantised type the bytes of a block are put together again from the codes, scales and
//! offsets that the block gives. A code that was read from another place, with another sign or in
//! another order would give other bytes.
use vstd::prelude::*;
use crate::error::ErrorView;
use crate::float::f32_of_f16;
use crate::infer::quant::{
    bit, blocks_in, code_at, factor_of, formula_of, half_byte, is_block, offset_of, pair,
    product_layout, scale_min6, Block, Formula,
};
use crate::types::{ggml_block_bytes, ggml_block_size, GgmlType};

verus! {

/// The code of element `k`.
pub open spec fn q_of(ty: GgmlType, b: Seq<u8>, k: int) -> int {
    code_at(ty, b, k).q as int
}

/// The scale of element `k`.
pub open spec fn scale_of(ty: GgmlType, b: Seq<u8>, k: int) -> int {
    code_at(ty, b, k).scale as int
}

/// The offset of element `k`.
pub open spec fn min_of(ty: GgmlType, b: Seq<u8>, k: int) -> int {
    code_at(ty, b, k).min as int
}

/// Whether `r` is what a byte is in two's complement.
pub open spec fn twos_complement(b: u8, r: int) -> bool {
    -128 <= r < 128 && (r - b as int) % 256 == 0
}

/// A byte with the high bit set is a negative number and the others are themselves: every code of
/// the types with codes of eight bits is its byte in two's complement.
pub proof fn eight_bit_codes_are_signed_bytes(b: Seq<u8>, k: int)
    ensures
        0 <= k < 32 && b.len() >= 34 ==> twos_complement(b[2 + k], q_of(GgmlType::Q8_0, b, k))
            && scale_of(GgmlType::Q8_0, b, k) == 1 && min_of(GgmlType::Q8_0, b, k) == 0,
        0 <= k < 256 && b.len() >= 292 ==> twos_complement(b[4 + k], q_of(GgmlType::Q8_K, b, k))
            && scale_of(GgmlType::Q8_K, b, k) == 1 && min_of(GgmlType::Q8_K, b, k) == 0,
{
}

/// The bytes of a block of type `Q4_0` behind its factor: two codes of four bits each, which count
/// from -8 on.
pub proof fn q4_0_is_its_codes(b: Seq<u8>, i: int)
    requires
        b.len() >= 18,
        0 <= i < 16,
    ensures
        ({
            let q = |k: int| q_of(GgmlType::Q4_0, b, k) + 8;
            &&& b[2 + i] == q(2 * i) + 16 * q(2 * i + 1)
            &&& 0 <= q(2 * i) < 16 && 0 <= q(2 * i + 1) < 16
            &&& scale_of(GgmlType::Q4_0, b, 2 * i) == 1 && min_of(GgmlType::Q4_0, b, 2 * i) == 0
            &&& scale_of(GgmlType::Q4_0, b, 2 * i + 1) == 1
            &&& min_of(GgmlType::Q4_0, b, 2 * i + 1) == 0
        }),
{
}

/// The bytes of a block of type `Q4_1` behind its factors: two codes of four bits each.
pub proof fn q4_1_is_its_codes(b: Seq<u8>, i: int)
    requires
        b.len() >= 20,
        0 <= i < 16,
    ensures
        ({
            let q = |k: int| q_of(GgmlType::Q4_1, b, k);
            &&& b[4 + i] == q(2 * i) + 16 * q(2 * i + 1)
            &&& 0 <= q(2 * i) < 16 && 0 <= q(2 * i + 1) < 16
            &&& scale_of(GgmlType::Q4_1, b, 2 * i) == 1 && min_of(GgmlType::Q4_1, b, 2 * i) == 0
            &&& scale_of(GgmlType::Q4_1, b, 2 * i + 1) == 1
            &&& min_of(GgmlType::Q4_1, b, 2 * i + 1) == 0
        }),
{
}

/// Whether a byte is eight bits, the lowest first.
pub open spec fn is_eight_bits(
    b: u8,
    x0: int,
    x1: int,
    x2: int,
    x3: int,
    x4: int,
    x5: int,
    x6: int,
    x7: int,
) -> bool {
    &&& 0 <= x0 < 2 && 0 <= x1 < 2 && 0 <= x2 < 2 && 0 <= x3 < 2
    &&& 0 <= x4 < 2 && 0 <= x5 < 2 && 0 <= x6 < 2 && 0 <= x7 < 2
    &&& b == x0 + 2 * x1 + 4 * x2 + 8 * x3 + 16 * x4 + 32 * x5 + 64 * x6 + 128 * x7
}

/// Whether a byte is four numbers of two bits, the lowest first.
pub open spec fn is_four_pairs(b: u8, x0: int, x1: int, x2: int, x3: int) -> bool {
    &&& 0 <= x0 < 4 && 0 <= x1 < 4 && 0 <= x2 < 4 && 0 <= x3 < 4
    &&& b == x0 + 4 * x1 + 16 * x2 + 64 * x3
}

/// Whether a byte is two numbers of four bits, the lower first.
pub open spec fn is_two_halves(b: u8, x0: int, x1: int) -> bool {
    0 <= x0 < 16 && 0 <= x1 < 16 && b == x0 + 16 * x1
}

proof fn lemma_bits(b: u8)
    ensures
        is_eight_bits(
            b,
            bit(b, 0),
            bit(b, 1),
            bit(b, 2),
            bit(b, 3),
            bit(b, 4),
            bit(b, 5),
            bit(b, 6),
            bit(b, 7),
        ),
{
    let v = b as int;
    assert(v / 4 == (v / 2) / 2 && v / 8 == (v / 4) / 2 && v / 16 == (v / 8) / 2);
    assert(v / 32 == (v / 16) / 2 && v / 64 == (v / 32) / 2 && v / 128 == (v / 64) / 2);
    assert(v / 128 < 2);
}

proof fn lemma_pairs(b: u8)
    ensures
        is_four_pairs(b, pair(b, 0), pair(b, 1), pair(b, 2), pair(b, 3)),
{
}

proof fn lemma_places(i: int, k: int, n: int)
    requires
        0 <= k < n,
        n == 2 || n == 4 || n == 8 || n == 16 || n == 32 || n == 64,
    ensures
        (n * i + k) / n == i,
        (n * i + k) % n == k,
{
}

/// A code of five bits is its fifth bit and its other four.
proof fn lemma_five(b: Seq<u8>, i: int, k: int)
    requires
        b.len() >= 22,
        0 <= i < 4,
        0 <= k < 8,
    ensures
        (q_of(GgmlType::Q5_0, b, 8 * i + k) + 16) / 16 == bit(b[2 + i], k),
        b.len() >= 24 ==> q_of(GgmlType::Q5_1, b, 8 * i + k) / 16 == bit(b[4 + i], k),
{
    lemma_places(i, k, 8);
}

proof fn lemma_three(ty: GgmlType, b: Seq<u8>, k: int)
    requires
        is_three_bit(ty),
        b.len() >= 110,
        0 <= k < 256,
    ensures
        ({
            let q = q_of(ty, b, k);
            &&& (4 - q) % 4 == pair(b[32 + k / 4], k % 4)
            &&& (if q <= 0 { 1int } else { 0 }) == bit(b[k / 8], k % 8)
            &&& -4 < q <= 4
        }),
{
    let (h, x) = (bit(b[k / 8], k % 8), pair(b[32 + k / 4], k % 4));
    assert(0 <= h < 2 && 0 <= x < 4);
    assert(q_of(ty, b, k) == 4 * (1 - h) - x);
}

proof fn lemma_scale3(ty: GgmlType, b: Seq<u8>, g: int, k: int)
    requires
        is_three_bit(ty),
        b.len() >= 110,
        0 <= g < 16,
        0 <= k < 16,
    ensures
        ({
            let x = scale_of(ty, b, 16 * g + k) + 32;
            &&& x % 16 == half_byte(b[96 + g / 2], g % 2 == 1)
            &&& x / 16 == pair(b[104 + g / 4], g % 4)
            &&& 0 <= x < 64
            &&& min_of(ty, b, 16 * g + k) == 0
        }),
{
    lemma_places(g, k, 16);
    let (h, x) = (half_byte(b[96 + g / 2], g % 2 == 1), pair(b[104 + g / 4], g % 4));
    assert(0 <= h < 16 && 0 <= x < 4);
    assert(scale_of(ty, b, 16 * g + k) == h + 16 * x - 32);
}

proof fn lemma_five_k(b: Seq<u8>, e: int)
    requires
        b.len() >= 176,
        0 <= e < 256,
    ensures
        ({
            let q = q_of(GgmlType::Q5_K, b, e);
            &&& q / 16 == bit(b[16 + e / 16], (e / 2) % 8)
            &&& q % 16 == half_byte(b[48 + e / 2], e % 2 == 1)
            &&& 0 <= q < 32
        }),
{
    let (x, y) = (half_byte(b[48 + e / 2], e % 2 == 1), bit(b[16 + e / 16], (e / 2) % 8));
    assert(0 <= x < 16 && 0 <= y < 2);
    assert(q_of(GgmlType::Q5_K, b, e) == x + 16 * y);
}

proof fn lemma_fifth_k(b: Seq<u8>, i: int, k: int)
    requires
        b.len() >= 176,
        0 <= i < 16,
        0 <= k < 8,
    ensures
        q_of(GgmlType::Q5_K, b, 16 * i + 2 * k) / 16 == bit(b[16 + i], k),
{
    let e = 16 * i + 2 * k;
    assert(e / 16 == i && (e / 2) % 8 == k);
    lemma_five_k(b, e);
}

proof fn lemma_six(b: Seq<u8>, h: int, p: int, l: int)
    requires
        b.len() >= 210,
        0 <= h < 2,
        0 <= p < 4,
        0 <= l < 32,
    ensures
        ({
            let q = q_of(GgmlType::Q6_K, b, 128 * h + 32 * p + l) + 32;
            &&& q % 16 == half_byte(b[64 * h + 32 * (p % 2) + l], p >= 2)
            &&& q / 16 == pair(b[128 + 32 * h + l], p)
            &&& 0 <= q < 64
        }),
{
    lemma_q6_places(h, p, l);
    let (x, y) = (half_byte(b[64 * h + 32 * (p % 2) + l], p >= 2), pair(b[128 + 32 * h + l], p));
    assert(0 <= x < 16 && 0 <= y < 4);
    assert(q_of(GgmlType::Q6_K, b, 128 * h + 32 * p + l) == x + 16 * y - 32);
}

proof fn lemma_six_bits(s: Seq<u8>, j: int)
    requires
        s.len() == 12,
        0 <= j < 4,
    ensures
        ({
            let (a, m) = scale_min6(s, j);
            let (t, n) = scale_min6(s, j + 4);
            &&& 0 <= a < 64 && 0 <= m < 64 && 0 <= t < 64 && 0 <= n < 64
            &&& s[j] == a + 64 * (t / 16)
            &&& s[j + 4] == m + 64 * (n / 16)
            &&& s[j + 8] == t % 16 + 16 * (n % 16)
        }),
{
    let (x, y, z) = (s[j], s[j + 4], s[j + 8]);
    assert(0 <= z as int % 16 < 16 && 0 <= z as int / 16 < 16);
    assert(0 <= x as int / 64 < 4 && 0 <= y as int / 64 < 4);
}

/// The lowest four bits of the codes of a block of type `Q5_0`, which count from -16 on: byte `i`
/// has those of elements `i` and `16 + i`.
pub proof fn q5_0_is_its_codes(b: Seq<u8>, i: int)
    requires
        b.len() >= 22,
        0 <= i < 16,
    ensures
        ({
            let q = |k: int| q_of(GgmlType::Q5_0, b, k) + 16;
            &&& 0 <= q(i) < 32 && 0 <= q(16 + i) < 32
            &&& is_two_halves(b[6 + i], q(i) % 16, q(16 + i) % 16)
            &&& scale_of(GgmlType::Q5_0, b, i) == 1 && min_of(GgmlType::Q5_0, b, i) == 0
            &&& scale_of(GgmlType::Q5_0, b, 16 + i) == 1
            &&& min_of(GgmlType::Q5_0, b, 16 + i) == 0
        }),
{
}

/// The fifth bits of the codes of a block of type `Q5_0`, element by element.
pub proof fn q5_0_has_fifth_bits(b: Seq<u8>, i: int)
    requires
        b.len() >= 22,
        0 <= i < 4,
    ensures
        ({
            let h = |k: int| (q_of(GgmlType::Q5_0, b, 8 * i + k) + 16) / 16;
            is_eight_bits(b[2 + i], h(0), h(1), h(2), h(3), h(4), h(5), h(6), h(7))
        }),
{
    lemma_bits(b[2 + i]);
    lemma_five(b, i, 0);
    lemma_five(b, i, 1);
    lemma_five(b, i, 2);
    lemma_five(b, i, 3);
    lemma_five(b, i, 4);
    lemma_five(b, i, 5);
    lemma_five(b, i, 6);
    lemma_five(b, i, 7);
}

/// The lowest four bits of the codes of a block of type `Q5_1`.
pub proof fn q5_1_is_its_codes(b: Seq<u8>, i: int)
    requires
        b.len() >= 24,
        0 <= i < 16,
    ensures
        ({
            let q = |k: int| q_of(GgmlType::Q5_1, b, k);
            &&& 0 <= q(i) < 32 && 0 <= q(16 + i) < 32
            &&& is_two_halves(b[8 + i], q(i) % 16, q(16 + i) % 16)
            &&& scale_of(GgmlType::Q5_1, b, i) == 1 && min_of(GgmlType::Q5_1, b, i) == 0
            &&& scale_of(GgmlType::Q5_1, b, 16 + i) == 1
            &&& min_of(GgmlType::Q5_1, b, 16 + i) == 0
        }),
{
}

/// The fifth bits of the codes of a block of type `Q5_1`, element by element.
pub proof fn q5_1_has_fifth_bits(b: Seq<u8>, i: int)
    requires
        b.len() >= 24,
        0 <= i < 4,
    ensures
        ({
            let h = |k: int| q_of(GgmlType::Q5_1, b, 8 * i + k) / 16;
            is_eight_bits(b[4 + i], h(0), h(1), h(2), h(3), h(4), h(5), h(6), h(7))
        }),
{
    lemma_bits(b[4 + i]);
    lemma_five(b, i, 0);
    lemma_five(b, i, 1);
    lemma_five(b, i, 2);
    lemma_five(b, i, 3);
    lemma_five(b, i, 4);
    lemma_five(b, i, 5);
    lemma_five(b, i, 6);
    lemma_five(b, i, 7);
}

/// The codes of a block of type `Q2_K`: four to a byte.
pub proof fn q2_k_is_its_codes(b: Seq<u8>, i: int)
    requires
        b.len() >= 84,
        0 <= i < 64,
    ensures
        ({
            let q = |k: int| q_of(GgmlType::Q2_K, b, 4 * i + k);
            is_four_pairs(b[16 + i], q(0), q(1), q(2), q(3))
        }),
{
}

/// The scales of a block of type `Q2_K`: two to a byte, the last byte first, and one for each
/// sixteen elements.
pub proof fn q2_k_is_its_scales(b: Seq<u8>, j: int, k: int, l: int)
    requires
        b.len() >= 84,
        0 <= j < 8,
        0 <= k < 16,
        0 <= l < 16,
    ensures
        is_two_halves(
            b[15 - j],
            scale_of(GgmlType::Q2_K, b, 32 * j + k),
            scale_of(GgmlType::Q2_K, b, 32 * j + 16 + l),
        ),
        min_of(GgmlType::Q2_K, b, 32 * j + k) == 0,
        min_of(GgmlType::Q2_K, b, 32 * j + 16 + l) == 0,
{
    let s = b.subrange(0, 16);
    assert(s[15 - j] == b[15 - j]);
    assert((32 * j + k) / 16 == 2 * j);
    assert((32 * j + 16 + l) / 16 == 2 * j + 1);
}

/// Whether a type has codes of three bits.
pub open spec fn is_three_bit(ty: GgmlType) -> bool {
    ty == GgmlType::Q3_K_S || ty == GgmlType::Q3_K_M || ty == GgmlType::Q3_K_L
}

/// The codes of a block of a type with codes of three bits: of each code two bits stand in one place
/// and count down, and the third in another, where a bit that is not set adds four.
pub proof fn q3_k_is_its_codes(ty: GgmlType, b: Seq<u8>, i: int)
    requires
        is_three_bit(ty),
        b.len() >= 110,
        0 <= i < 64,
    ensures
        ({
            let q = |k: int| q_of(ty, b, 4 * i + k);
            &&& is_four_pairs(
                b[32 + i],
                (4 - q(0)) % 4,
                (4 - q(1)) % 4,
                (4 - q(2)) % 4,
                (4 - q(3)) % 4,
            )
            &&& -4 < q(0) <= 4 && -4 < q(1) <= 4 && -4 < q(2) <= 4 && -4 < q(3) <= 4
        }),
{
    lemma_pairs(b[32 + i]);
    lemma_places(i, 0, 4);
    lemma_places(i, 1, 4);
    lemma_places(i, 2, 4);
    lemma_places(i, 3, 4);
    lemma_three(ty, b, 4 * i);
    lemma_three(ty, b, 4 * i + 1);
    lemma_three(ty, b, 4 * i + 2);
    lemma_three(ty, b, 4 * i + 3);
}

/// The third bits of the codes of a block of a type with codes of three bits.
pub proof fn q3_k_has_third_bits(ty: GgmlType, b: Seq<u8>, i: int)
    requires
        is_three_bit(ty),
        b.len() >= 110,
        0 <= i < 32,
    ensures
        ({
            let h = |k: int| if q_of(ty, b, 8 * i + k) <= 0 { 1int } else { 0 };
            is_eight_bits(b[i], h(0), h(1), h(2), h(3), h(4), h(5), h(6), h(7))
        }),
{
    lemma_bits(b[i]);
    lemma_places(i, 0, 8);
    lemma_three(ty, b, 8 * i + 0);
    lemma_places(i, 1, 8);
    lemma_three(ty, b, 8 * i + 1);
    lemma_places(i, 2, 8);
    lemma_three(ty, b, 8 * i + 2);
    lemma_places(i, 3, 8);
    lemma_three(ty, b, 8 * i + 3);
    lemma_places(i, 4, 8);
    lemma_three(ty, b, 8 * i + 4);
    lemma_places(i, 5, 8);
    lemma_three(ty, b, 8 * i + 5);
    lemma_places(i, 6, 8);
    lemma_three(ty, b, 8 * i + 6);
    lemma_places(i, 7, 8);
    lemma_three(ty, b, 8 * i + 7);
}

/// The scales of a block of a type with codes of three bits, which count from -32 on: sixteen, one
/// for each sixteen elements, each with four bits in one place and two in another.
pub proof fn q3_k_is_its_scales(ty: GgmlType, b: Seq<u8>, i: int, k: int, l: int)
    requires
        is_three_bit(ty),
        b.len() >= 110,
        0 <= k < 16,
        0 <= l < 16,
    ensures
        0 <= i < 8 ==> {
            let x = scale_of(ty, b, 32 * i + k) + 32;
            let y = scale_of(ty, b, 32 * i + 16 + l) + 32;
            0 <= x < 64 && 0 <= y < 64 && is_two_halves(b[96 + i], x % 16, y % 16)
        },
        0 <= i < 4 ==> {
            let h = |j: int| (scale_of(ty, b, 64 * i + 16 * j + k) + 32) / 16;
            is_four_pairs(b[104 + i], h(0), h(1), h(2), h(3))
        },
        0 <= i < 16 ==> min_of(ty, b, 16 * i + k) == 0,
{
    if 0 <= i < 8 {
        lemma_scale3(ty, b, 2 * i, k);
        lemma_scale3(ty, b, 2 * i + 1, l);
        assert(16 * (2 * i) + k == 32 * i + k && 16 * (2 * i + 1) + l == 32 * i + 16 + l);
    }
    if 0 <= i < 4 {
        lemma_pairs(b[104 + i]);
        lemma_scale3(ty, b, 4 * i, k);
        lemma_scale3(ty, b, 4 * i + 1, k);
        lemma_scale3(ty, b, 4 * i + 2, k);
        lemma_scale3(ty, b, 4 * i + 3, k);
    }
    if 0 <= i < 16 {
        lemma_scale3(ty, b, i, k);
    }
}

/// The codes of a block of type `Q4_K`: a byte has one of the first half of its 64 elements and one
/// of the second.
pub proof fn q4_k_is_its_codes(b: Seq<u8>, g: int, l: int)
    requires
        b.len() >= 144,
        0 <= g < 4,
        0 <= l < 32,
    ensures
        is_two_halves(
            b[16 + 32 * g + l],
            q_of(GgmlType::Q4_K, b, 64 * g + l),
            q_of(GgmlType::Q4_K, b, 64 * g + 32 + l),
        ),
{
    assert((64 * g + l) / 64 == g && (64 * g + l) % 64 == l && (64 * g + l) % 32 == l);
    assert((64 * g + 32 + l) / 64 == g && (64 * g + 32 + l) % 64 == 32 + l);
    assert((64 * g + 32 + l) % 32 == l);
}

/// The scales and offsets of a block of type `Q4_K` or `Q5_K`: eight of six bits each, one of each
/// for 32 elements. The first four stand whole in their bytes; of the last four the lower bits stand
/// in bytes of their own, and the upper ones above the first four.
pub proof fn six_bit_scales_are_their_bytes(ty: GgmlType, b: Seq<u8>, j: int, k: int, l: int)
    requires
        ty == GgmlType::Q4_K || ty == GgmlType::Q5_K,
        b.len() >= 144,
        0 <= j < 4,
        0 <= k < 32,
        0 <= l < 32,
    ensures
        ({
            let (s, m) = (scale_of(ty, b, 32 * j + k), min_of(ty, b, 32 * j + k));
            let (t, n) = (scale_of(ty, b, 128 + 32 * j + l), min_of(ty, b, 128 + 32 * j + l));
            &&& 0 <= s < 64 && 0 <= m < 64 && 0 <= t < 64 && 0 <= n < 64
            &&& b[4 + j] == s + 64 * (t / 16)
            &&& b[8 + j] == m + 64 * (n / 16)
            &&& b[12 + j] == t % 16 + 16 * (n % 16)
        }),
{
    let s = b.subrange(4, 16);
    assert(s[j] == b[4 + j] && s[j + 4] == b[8 + j] && s[j + 8] == b[12 + j]);
    let (x, y) = (32 * j + k, 128 + 32 * j + l);
    lemma_places(j, k, 32);
    lemma_places(j + 4, l, 32);
    assert(2 * (x / 64) + (x % 64) / 32 == j);
    assert(2 * (y / 64) + (y % 64) / 32 == j + 4);
    lemma_six_bits(s, j);
}

/// The codes of a block of type `Q5_K`: two to a byte, with a fifth bit that two neighbours share.
pub proof fn q5_k_is_its_codes(b: Seq<u8>, i: int)
    requires
        b.len() >= 176,
        0 <= i < 128,
    ensures
        ({
            let (x, y) = (q_of(GgmlType::Q5_K, b, 2 * i), q_of(GgmlType::Q5_K, b, 2 * i + 1));
            &&& 0 <= x < 32 && 0 <= y < 32
            &&& is_two_halves(b[48 + i], x % 16, y % 16)
            &&& x / 16 == y / 16
        }),
{
    lemma_five_k(b, 2 * i);
    lemma_five_k(b, 2 * i + 1);
    lemma_places(i, 0, 2);
    lemma_places(i, 1, 2);
    assert((2 * i + 1) / 16 == (2 * i) / 16);
}

/// The fifth bits of the codes of a block of type `Q5_K`, for each two elements.
pub proof fn q5_k_has_fifth_bits(b: Seq<u8>, i: int)
    requires
        b.len() >= 176,
        0 <= i < 16,
    ensures
        ({
            let h = |k: int| q_of(GgmlType::Q5_K, b, 16 * i + 2 * k) / 16;
            is_eight_bits(b[16 + i], h(0), h(1), h(2), h(3), h(4), h(5), h(6), h(7))
        }),
{
    lemma_bits(b[16 + i]);
    lemma_fifth_k(b, i, 0);
    lemma_fifth_k(b, i, 1);
    lemma_fifth_k(b, i, 2);
    lemma_fifth_k(b, i, 3);
    lemma_fifth_k(b, i, 4);
    lemma_fifth_k(b, i, 5);
    lemma_fifth_k(b, i, 6);
    lemma_fifth_k(b, i, 7);
}

/// The codes of a block of type `Q6_K`, which count from -32 on: of each 128 elements the lower four
/// bits of the first and third 32 share a byte, as do those of the second and fourth, and the upper
/// two bits of all four share another.
pub proof fn q6_k_is_its_codes(b: Seq<u8>, h: int, l: int)
    requires
        b.len() >= 210,
        0 <= h < 2,
        0 <= l < 32,
    ensures
        ({
            let q = |p: int| q_of(GgmlType::Q6_K, b, 128 * h + 32 * p + l) + 32;
            &&& 0 <= q(0) < 64 && 0 <= q(1) < 64 && 0 <= q(2) < 64 && 0 <= q(3) < 64
            &&& is_two_halves(b[64 * h + l], q(0) % 16, q(2) % 16)
            &&& is_two_halves(b[64 * h + 32 + l], q(1) % 16, q(3) % 16)
            &&& is_four_pairs(b[128 + 32 * h + l], q(0) / 16, q(1) / 16, q(2) / 16, q(3) / 16)
        }),
{
    lemma_pairs(b[128 + 32 * h + l]);
    lemma_six(b, h, 0, l);
    lemma_six(b, h, 1, l);
    lemma_six(b, h, 2, l);
    lemma_six(b, h, 3, l);
}

proof fn lemma_q6_places(h: int, p: int, l: int)
    requires
        0 <= h < 2,
        0 <= p < 4,
        0 <= l < 32,
    ensures
        (128 * h + 32 * p + l) / 128 == h,
        ((128 * h + 32 * p + l) % 128) / 32 == p,
        (128 * h + 32 * p + l) % 32 == l,
{
}

/// The scales of a block of type `Q6_K`: sixteen bytes in two's complement, one for each sixteen
/// elements.
pub proof fn q6_k_is_its_scales(b: Seq<u8>, g: int, k: int)
    requires
        b.len() >= 210,
        0 <= g < 16,
        0 <= k < 16,
    ensures
        twos_complement(b[192 + g], scale_of(GgmlType::Q6_K, b, 16 * g + k)),
        min_of(GgmlType::Q6_K, b, 16 * g + k) == 0,
{
    let (h, p, l) = (g / 8, (g % 8) / 2, 16 * (g % 2) + k);
    assert(16 * g + k == 128 * h + 32 * p + l);
    lemma_q6_places(h, p, l);
    assert(l / 16 == g % 2);
}

// ---------------------------------------------------------------------------------------------
// Factors
// ---------------------------------------------------------------------------------------------

/// The half precision number in bytes `at` and `at + 1`, the lower byte first.
pub open spec fn half_at(b: Seq<u8>, at: int) -> u32 {
    f32_of_f16((b[at] + 256 * b[at + 1]) as u16)
}

/// The single precision number in four bytes, the lowest first.
pub open spec fn single_in(b: Seq<u8>) -> int {
    b[0] + 256 * (b[1] + 256 * (b[2] + 256 * b[3]))
}

/// Where a block has its factors. The small blocks start with them, as do `Q4_K` and `Q5_K`; the
/// other large blocks end with them, and `Q8_K` starts with one of single precision. A floating
/// point number is its own factor, and its upper half where it is a short one.
pub proof fn factors_stand_in_their_places(b: Seq<u8>)
    requires
        b.len() >= 292,
    ensures
        factor_of(GgmlType::F32, b) == single_in(b),
        factor_of(GgmlType::Q8_K, b) == single_in(b),
        factor_of(GgmlType::BF16, b) == 0x1_0000 * (b[0] + 256 * b[1]),
        factor_of(GgmlType::F16, b) == half_at(b, 0),
        factor_of(GgmlType::Q4_0, b) == half_at(b, 0),
        factor_of(GgmlType::Q5_0, b) == half_at(b, 0),
        factor_of(GgmlType::Q8_0, b) == half_at(b, 0),
        factor_of(GgmlType::Q4_1, b) == half_at(b, 0) && offset_of(GgmlType::Q4_1, b) == half_at(
            b,
            2,
        ),
        factor_of(GgmlType::Q5_1, b) == half_at(b, 0) && offset_of(GgmlType::Q5_1, b) == half_at(
            b,
            2,
        ),
        factor_of(GgmlType::Q4_K, b) == half_at(b, 0) && offset_of(GgmlType::Q4_K, b) == half_at(
            b,
            2,
        ),
        factor_of(GgmlType::Q5_K, b) == half_at(b, 0) && offset_of(GgmlType::Q5_K, b) == half_at(
            b,
            2,
        ),
        factor_of(GgmlType::Q2_K, b) == half_at(b, 80) && offset_of(GgmlType::Q2_K, b) == half_at(
            b,
            82,
        ),
        factor_of(GgmlType::Q3_K_S, b) == half_at(b, 108),
        factor_of(GgmlType::Q3_K_L, b) == half_at(b, 108),
        factor_of(GgmlType::Q3_K_M, b) == half_at(b, 112),
        factor_of(GgmlType::Q6_K, b) == half_at(b, 208),
{
    assert(single_in(b) == b[0] + 0x100 * b[1] + 0x1_0000 * b[2] + 0x100_0000 * b[3]);
}

// ---------------------------------------------------------------------------------------------
// Numbers
// ---------------------------------------------------------------------------------------------

/// What a formula gives for factors that are whole numbers.
pub open spec fn number(f: Formula, d: int, m: int, s: int, o: int, q: int) -> int {
    match f {
        Formula::Stored => d,
        Formula::Scaled => d * q,
        Formula::ScaledAndShifted => d * q + m,
        Formula::Grouped => (d * s) * q,
        Formula::GroupedAndShifted => (s * d) * q - o * m,
        Formula::LowGroup => (s * d) * q,
        Formula::HighGroup => (s * m + (s - 8) * m) * q + (s - 8) * m,
    }
}

/// The number of an element, where its block's factors are `d` and `m`.
pub open spec fn element(ty: GgmlType, b: Seq<u8>, k: int, d: int, m: int) -> int {
    let c = code_at(ty, b, k);
    number(
        formula_of(ty, c.scale as int)->Some_0,
        d,
        m,
        c.scale as int,
        c.min as int,
        c.q as int,
    )
}

/// Where the factor of a block is zero, so are its elements, but for what the second factor adds:
/// it itself, or a multiple of it in the types whose groups have offsets.
pub proof fn factor_scales_the_elements(ty: GgmlType, b: Seq<u8>, k: int, m: int)
    requires
        ggml_block_size(ty) is Some,
        ty != GgmlType::Q2_K,
    ensures
        ty == GgmlType::Q4_1 || ty == GgmlType::Q5_1 ==> element(ty, b, k, 0, m) == m,
        ty == GgmlType::Q4_K || ty == GgmlType::Q5_K ==> element(ty, b, k, 0, m) == -(min_of(
            ty,
            b,
            k,
        ) * m),
        !(ty == GgmlType::Q4_1 || ty == GgmlType::Q5_1 || ty == GgmlType::Q4_K || ty
            == GgmlType::Q5_K) ==> element(ty, b, k, 0, m) == 0,
{
    let c = code_at(ty, b, k);
    assert(0 * (c.q as int) == 0);
    assert(0 * (c.scale as int) == 0);
    assert((c.scale as int) * 0 == 0);
}

/// How far an element is from that of a factor of zero: the code times the factor, and times the
/// scale where the type has groups.
pub proof fn elements_are_proportional(ty: GgmlType, b: Seq<u8>, k: int, d: int, m: int)
    requires
        ggml_block_size(ty) is Some,
        ty != GgmlType::Q2_K,
    ensures
        ({
            let step = element(ty, b, k, d, m) - element(ty, b, k, 0, m);
            match ty {
                GgmlType::F32 | GgmlType::F16 | GgmlType::BF16 => step == d,
                GgmlType::Q4_0 | GgmlType::Q4_1 | GgmlType::Q5_0 | GgmlType::Q5_1 | GgmlType::Q8_0
                | GgmlType::Q8_K => step == d * q_of(ty, b, k),
                _ => step == d * scale_of(ty, b, k) * q_of(ty, b, k),
            }
        }),
{
    let c = code_at(ty, b, k);
    let (s, q) = (c.scale as int, c.q as int);
    assert(0 * q == 0 && 0 * s == 0 && s * 0 == 0);
    assert(s * d == d * s) by (nonlinear_arith);
}

/// The elements of a block of type `Q2_K`: a group with a scale below 8 is a multiple of the factor
/// and does not know the second factor; in the others it is the other way round.
pub proof fn q2_k_groups_have_one_factor(b: Seq<u8>, k: int, d: int, m: int)
    ensures
        ({
            let (s, q) = (scale_of(GgmlType::Q2_K, b, k), q_of(GgmlType::Q2_K, b, k));
            let x = element(GgmlType::Q2_K, b, k, d, m);
            if s < 8 {
                x == d * (s * q)
            } else {
                x == m * ((2 * s - 8) * q + s - 8)
            }
        }),
{
    let (s, q) = (scale_of(GgmlType::Q2_K, b, k), q_of(GgmlType::Q2_K, b, k));
    assert((s * d) * q == d * (s * q)) by (nonlinear_arith);
    assert((s * m + (s - 8) * m) * q + (s - 8) * m == m * ((2 * s - 8) * q + s - 8))
        by (nonlinear_arith);
}

// ---------------------------------------------------------------------------------------------
// Blocks
// ---------------------------------------------------------------------------------------------

/// A block is as long as its bits: of each element a code, of each group its scale and its offset,
/// and its factors, of sixteen bits but in two types. (The largest block has sums, too, and one with
/// codes of three bits has four bytes that say nothing.)
pub proof fn blocks_hold_their_bits()
    ensures
        ggml_block_size(GgmlType::F32) == Some(1u64) && ggml_block_bytes(GgmlType::F32) == Some(
            4u64,
        ),
        ggml_block_size(GgmlType::F16) == Some(1u64) && ggml_block_bytes(GgmlType::F16) == Some(
            2u64,
        ),
        ggml_block_size(GgmlType::BF16) == Some(1u64) && ggml_block_bytes(GgmlType::BF16) == Some(
            2u64,
        ),
        is_layout(GgmlType::Q4_0, 32, 4, 0, 0, 16),
        is_layout(GgmlType::Q4_1, 32, 4, 0, 0, 32),
        is_layout(GgmlType::Q5_0, 32, 5, 0, 0, 16),
        is_layout(GgmlType::Q5_1, 32, 5, 0, 0, 32),
        is_layout(GgmlType::Q8_0, 32, 8, 0, 0, 16),
        is_layout(GgmlType::Q2_K, 256, 2, 16, 8, 32),
        is_layout(GgmlType::Q3_K_S, 256, 3, 16, 6, 16),
        is_layout(GgmlType::Q3_K_L, 256, 3, 16, 6, 16),
        is_layout(GgmlType::Q3_K_M, 256, 3, 16, 6, 48),
        is_layout(GgmlType::Q4_K, 256, 4, 8, 12, 32),
        is_layout(GgmlType::Q5_K, 256, 5, 8, 12, 32),
        is_layout(GgmlType::Q6_K, 256, 6, 16, 8, 16),
        is_layout(GgmlType::Q8_K, 256, 8, 16, 16, 32),
{
}

/// Whether a block of a type has `n` elements with codes of `bits` bits, `groups` groups with `each`
/// bits, and `rest` bits more.
pub open spec fn is_layout(ty: GgmlType, n: int, bits: int, groups: int, each: int, rest: int) -> bool {
    &&& ggml_block_size(ty) is Some && ggml_block_bytes(ty) is Some
    &&& ggml_block_size(ty)->Some_0 == n
    &&& 8 * ggml_block_bytes(ty)->Some_0 == n * bits + groups * each + rest
}

/// Blocks stand one behind the other: the first block of bytes is that of their front, whatever
/// comes behind it, and the blocks behind it are those of what is left.
pub proof fn blocks_follow_each_other(ty: GgmlType, a: Seq<u8>, b: Seq<u8>, i: int, block: Block)
    requires
        ggml_block_bytes(ty) is Some,
        a.len() == ggml_block_bytes(ty)->Some_0,
        0 <= i,
        (i + 1) * a.len() <= b.len(),
    ensures
        is_block(ty, a + b, 0, block) <==> is_block(ty, a, 0, block),
        is_block(ty, a + b, i + 1, block) <==> is_block(ty, b, i, block),
{
    let n = a.len() as int;
    assert(0 * n == 0 && 1 * n == n);
    assert((i + 1) * n == i * n + n && (i + 2) * n == i * n + 2 * n) by (nonlinear_arith);
    assert(0 <= i * n) by (nonlinear_arith)
        requires
            0 <= i,
            0 <= n,
    ;
    assert((a + b).subrange(0, n) =~= a.subrange(0, n));
    assert((a + b).subrange((i + 1) * n, (i + 2) * n) =~= b.subrange(i * n, (i + 1) * n));
}

/// A block has as many elements as its type says, and they are those of its bytes.
pub proof fn block_has_its_elements(ty: GgmlType, a: Seq<u8>, block: Block, k: int)
    requires
        ggml_block_bytes(ty) is Some,
        a.len() == ggml_block_bytes(ty)->Some_0,
        is_block(ty, a, 0, block),
        0 <= k < block.codes@.len(),
    ensures
        block.codes@.len() == ggml_block_size(ty)->Some_0,
        block.codes@[k] == code_at(ty, a, k),
        block.factor == factor_of(ty, a),
        block.offset == offset_of(ty, a),
{
    let n = a.len() as int;
    assert(0 * n == 0 && 1 * n == n);
    assert(a.subrange(0, n) =~= a);
}

/// As many blocks are read as hold the elements, exactly where the bytes suffice for them; and the
/// elements must fill them.
pub proof fn blocks_cover_the_elements(ty: GgmlType, n: u64, len: u64)
    requires
        ggml_block_size(ty) is Some,
    ensures
        blocks_in(ty, n, len) is Ok ==> {
            let r = blocks_in(ty, n, len)->Ok_0;
            r * ggml_block_size(ty)->Some_0 == n && r * ggml_block_bytes(ty)->Some_0 <= len
        },
        forall|r: u64|
            r as int * ggml_block_size(ty)->Some_0 as int == n && r as int * ggml_block_bytes(
                ty,
            )->Some_0 as int <= len ==> blocks_in(ty, n, len) == Ok::<u64, ErrorView>(r),
{
    let size = ggml_block_size(ty)->Some_0 as int;
    vstd::arithmetic::div_mod::lemma_fundamental_div_mod(n as int, size);
    assert((n as int / size) * size == size * (n as int / size)) by (nonlinear_arith);
    assert forall|r: u64|
        r as int * size == n && r as int * ggml_block_bytes(ty)->Some_0 as int
            <= len implies blocks_in(ty, n, len) == Ok::<u64, ErrorView>(r) by {
        vstd::arithmetic::div_mod::lemma_fundamental_div_mod_converse(
            n as int,
            size,
            r as int,
            0,
        );
    }
}

/// The rows of a stored matrix stand one behind the other: a row has the bytes of as many blocks as
/// hold its elements, and all rows lie in the matrix.
pub proof fn rows_are_stored_whole(
    ty: GgmlType,
    rows: u64,
    cols: u64,
    w: u64,
    x: u64,
    y: u64,
    i: int,
)
    requires
        product_layout(ty, rows, cols, w, x, y) is Ok,
        0 <= i < rows,
    ensures
        ({
            let row = product_layout(ty, rows, cols, w, x, y)->Ok_0;
            &&& row * ggml_block_size(ty)->Some_0 == cols * ggml_block_bytes(ty)->Some_0
            &&& 0 <= i * row && (i + 1) * row <= w
            &&& x == cols && y == rows
        }),
{
    let row = product_layout(ty, rows, cols, w, x, y)->Ok_0 as int;
    let (size, bytes) = (ggml_block_size(ty)->Some_0 as int, ggml_block_bytes(ty)->Some_0 as int);
    let n = cols as int / size;
    vstd::arithmetic::div_mod::lemma_fundamental_div_mod(cols as int, size);
    assert((n * bytes) * size == (size * n) * bytes) by (nonlinear_arith);
    assert(0 <= i * row && (i + 1) * row <= rows * row) by (nonlinear_arith)
        requires
            0 <= i < rows,
            0 <= row,
    ;
}

} // verus!
