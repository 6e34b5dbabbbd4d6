//! What the conversions between number formats do to the bits of a number.
use vstd::prelude::*;
use vstd::arithmetic::power2::*;
use crate::float::{
    div_half_even, div_half_up, excess_bits, f16_exponent, f16_finite, f16_fraction, f16_step,
    f16_units, f32_at_least,
    f32_exponent, f32_finite, f32_fraction, f32_near_integer, f32_of_f16, f32_units,
    f32_whole_u32, f64_exponent, f64_fraction, f64_of_f32, f64_of_int, f64_units,
    f64_whole_u32, lemma_f32_unique, lemma_f64_unique, narrows_f32, nearest_f64, round_to_f16,
    round_to_f64,
    widens_f16, widens_f32,
};

verus! {

/// The bit pattern of a single precision number: its sign, its exponent field and its fraction.
pub open spec fn f32_pattern(sign: int, exponent: int, fraction: int) -> int {
    sign * 0x8000_0000 + exponent * 0x80_0000 + fraction
}

/// The bit pattern of a double precision number: its sign, its exponent field and its fraction.
pub open spec fn f64_pattern(sign: int, exponent: int, fraction: int) -> int {
    sign * 0x8000_0000_0000_0000 + exponent * 0x10_0000_0000_0000 + fraction
}

// ---------------------------------------------------------------------------------------------
// Widening
// ---------------------------------------------------------------------------------------------

/// A half precision number with sign `s`, exponent field `e` and fraction `m` widens to the
/// pattern with the same sign, the exponent moved from the one bias to the other and the fraction
/// moved up. A number without an exponent is first scaled until its top bit is set. Infinities and
/// nought stay what they are, and a NaN becomes the quiet one.
pub proof fn half_precision_keeps_its_bits(h: u16, s: int, e: int, m: int, k: nat)
    requires
        0 <= s <= 1,
        0 <= e <= 0x1f,
        0 <= m < 0x400,
        h == s * 0x8000 + e * 0x400 + m,
    ensures
        0 < e < 0x1f ==> f32_of_f16(h) == f32_pattern(s, e + 127 - 15, m * 0x2000),
        e == 0 && m == 0 ==> f32_of_f16(h) == f32_pattern(s, 0, 0),
        e == 0 && 1 <= k <= 10 && 0x400 <= m * pow2(k) < 0x800 ==> f32_of_f16(h) == f32_pattern(
            s,
            1 + 127 - 15 - k,
            (m * pow2(k) - 0x400) * 0x2000,
        ),
        e == 0x1f && m == 0 ==> f32_of_f16(h) == f32_pattern(s, 0xff, 0),
        e == 0x1f && m > 0 ==> f32_of_f16(h) == 0x7fc0_0000,
{
    lemma2_to64();
    lemma2_to64_rest();
    assert(f16_exponent(h) == e);
    assert(f16_fraction(h) == m);
    if 0 < e < 0x1f {
        let r = f32_pattern(s, e + 112, m * 0x2000) as u32;
        lemma_f32_fields(r, s, e + 112, m * 0x2000);
        lemma_pow2_adds((e - 1) as nat, 125);
        lemma_pow2_adds(13, (e + 111) as nat);
        let (a, b, c, d) = (
            pow2((e - 1) as nat) as int,
            pow2(125) as int,
            pow2((e + 111) as nat) as int,
            pow2((e + 124) as nat) as int,
        );
        assert((0x80_0000 + m * 0x2000) * c == ((0x400 + m) * a) * b) by (nonlinear_arith)
            requires
                0x2000 * c == d,
                a * b == d,
        ;
        assert(widens_f16(h, r));
        lemma_widened_f16(h, r);
    }
    if e == 0 && m == 0 {
        let r = f32_pattern(s, 0, 0) as u32;
        lemma_f32_fields(r, s, 0, 0);
        assert(0 * pow2(125) == 0) by (nonlinear_arith);
        assert(widens_f16(h, r));
        lemma_widened_f16(h, r);
    }
    if e == 0 && 1 <= k <= 10 && 0x400 <= m * pow2(k) < 0x800 {
        let x = m * pow2(k);
        let r = f32_pattern(s, 113 - k, (x - 0x400) * 0x2000) as u32;
        lemma_f32_fields(r, s, 113 - k, (x - 0x400) * 0x2000);
        lemma_pow2_adds(13, (112 - k) as nat);
        lemma_pow2_adds(k, (125 - k) as nat);
        let (a, b, c, d) = (
            pow2(k) as int,
            pow2(125) as int,
            pow2((112 - k) as nat) as int,
            pow2((125 - k) as nat) as int,
        );
        assert((0x80_0000 + (x - 0x400) * 0x2000) * c == m * b) by (nonlinear_arith)
            requires
                x == m * a,
                0x2000 * c == d,
                a * d == b,
        ;
        assert(widens_f16(h, r));
        lemma_widened_f16(h, r);
    }
    if e == 0x1f {
        let r = if m == 0 {
            f32_pattern(s, 0xff, 0) as u32
        } else {
            0x7fc0_0000u32
        };
        assert(widens_f16(h, r));
        lemma_widened_f16(h, r);
    }
}

proof fn lemma_f32_fields(r: u32, s: int, e: int, m: int)
    requires
        0 <= s <= 1,
        0 <= e <= 0xff,
        0 <= m < 0x80_0000,
        r == f32_pattern(s, e, m),
    ensures
        f32_exponent(r) == e,
        f32_fraction(r) == m,
        (r >= 0x8000_0000) == (s == 1),
{
}

proof fn lemma_widened_f16(h: u16, r: u32)
    requires
        widens_f16(h, r),
    ensures
        f32_of_f16(h) == r,
{
    let c = f32_of_f16(h);
    assert(widens_f16(h, c));
    lemma_f32_unique(r, c);
}

/// A single precision number with sign `s`, exponent field `e` and fraction `m` widens to the
/// pattern with the same sign, the exponent moved from the one bias to the other and the fraction
/// moved up. A number without an exponent is first scaled until its top bit is set. Infinities and
/// nought stay what they are, and a NaN becomes the quiet one of its sign.
pub proof fn single_precision_keeps_its_bits(b: u32, s: int, e: int, m: int, k: nat)
    requires
        0 <= s <= 1,
        0 <= e <= 0xff,
        0 <= m < 0x80_0000,
        b == f32_pattern(s, e, m),
    ensures
        0 < e < 0xff ==> f64_of_f32(b) == f64_pattern(s, e + 1023 - 127, m * 0x2000_0000),
        e == 0 && m == 0 ==> f64_of_f32(b) == f64_pattern(s, 0, 0),
        e == 0 && 1 <= k <= 23 && 0x80_0000 <= m * pow2(k) < 0x100_0000 ==> f64_of_f32(b)
            == f64_pattern(s, 1 + 1023 - 127 - k, (m * pow2(k) - 0x80_0000) * 0x2000_0000),
        e == 0xff && m == 0 ==> f64_of_f32(b) == f64_pattern(s, 0x7ff, 0),
        e == 0xff && m > 0 ==> f64_of_f32(b) == f64_pattern(s, 0x7ff, 0x8_0000_0000_0000),
{
    lemma2_to64();
    lemma2_to64_rest();
    lemma_f32_fields(b, s, e, m);
    if 0 < e < 0xff {
        let r = f64_pattern(s, e + 896, m * 0x2000_0000) as u64;
        lemma_f64_fields(r, s, e + 896, m * 0x2000_0000);
        lemma_pow2_adds((e - 1) as nat, 925);
        lemma_pow2_adds(29, (e + 895) as nat);
        let (a, p, c, d) = (
            pow2((e - 1) as nat) as int,
            pow2(925) as int,
            pow2((e + 895) as nat) as int,
            pow2((e + 924) as nat) as int,
        );
        assert((0x10_0000_0000_0000 + m * 0x2000_0000) * c == ((0x80_0000 + m) * a) * p)
            by (nonlinear_arith)
            requires
                0x2000_0000 * c == d,
                a * p == d,
        ;
        assert(widens_f32(b, r));
        lemma_widened_f32(b, r);
    }
    if e == 0 && m == 0 {
        let r = f64_pattern(s, 0, 0) as u64;
        lemma_f64_fields(r, s, 0, 0);
        assert(0 * pow2(925) == 0) by (nonlinear_arith);
        assert(widens_f32(b, r));
        lemma_widened_f32(b, r);
    }
    if e == 0 && 1 <= k <= 23 && 0x80_0000 <= m * pow2(k) < 0x100_0000 {
        let x = m * pow2(k);
        let r = f64_pattern(s, 897 - k, (x - 0x80_0000) * 0x2000_0000) as u64;
        lemma_f64_fields(r, s, 897 - k, (x - 0x80_0000) * 0x2000_0000);
        lemma_pow2_adds(29, (896 - k) as nat);
        lemma_pow2_adds(k, (925 - k) as nat);
        let (a, p, c, d) = (
            pow2(k) as int,
            pow2(925) as int,
            pow2((896 - k) as nat) as int,
            pow2((925 - k) as nat) as int,
        );
        assert((0x10_0000_0000_0000 + (x - 0x80_0000) * 0x2000_0000) * c == m * p)
            by (nonlinear_arith)
            requires
                x == m * a,
                0x2000_0000 * c == d,
                a * d == p,
        ;
        assert(widens_f32(b, r));
        lemma_widened_f32(b, r);
    }
    if e == 0xff {
        let fraction = if m == 0 {
            0int
        } else {
            0x8_0000_0000_0000int
        };
        let r = f64_pattern(s, 0x7ff, fraction) as u64;
        lemma_f64_fields(r, s, 0x7ff, fraction);
        assert(widens_f32(b, r));
        lemma_widened_f32(b, r);
    }
}

proof fn lemma_f64_fields(r: u64, s: int, e: int, m: int)
    requires
        0 <= s <= 1,
        0 <= e <= 0x7ff,
        0 <= m < 0x10_0000_0000_0000,
        r == f64_pattern(s, e, m),
    ensures
        f64_exponent(r) == e,
        f64_fraction(r) == m,
        (r >= 0x8000_0000_0000_0000) == (s == 1),
{
}

proof fn lemma_widened_f32(b: u32, r: u64)
    requires
        widens_f32(b, r),
    ensures
        f64_of_f32(b) == r,
{
    let c = f64_of_f32(b);
    assert(widens_f32(b, c));
    lemma_f64_unique(r, c);
}

// ---------------------------------------------------------------------------------------------
// Integers
// ---------------------------------------------------------------------------------------------

/// An integer of at most 53 bits becomes the pattern with its own sign whose significand is its
/// magnitude moved up to the top bit, and nought becomes nought.
pub proof fn small_integers_are_exact(v: int, a: nat, k: nat)
    requires
        a == if v < 0 {
            -v
        } else {
            v
        },
    ensures
        v == 0 ==> f64_of_int(v) == 0,
        k <= 52 && 0x10_0000_0000_0000 <= a * pow2(k) < 0x20_0000_0000_0000 ==> nearest_f64(
            v,
            f64_of_int(v),
        ) && f64_of_int(v) == f64_pattern(
            if v < 0 {
                1
            } else {
                0
            },
            1023 + 52 - k,
            a * pow2(k) - 0x10_0000_0000_0000,
        ),
{
    lemma2_to64();
    lemma2_to64_rest();
    if v == 0 {
        assert(0 * pow2(1074) == 0) by (nonlinear_arith);
        assert(div_half_even(0, 1) == 0);
        assert(round_to_f64(0) == 0);
        lemma_f64_fields(0, 0, 0, 0);
        assert(nearest_f64(v, 0));
        let c = f64_of_int(v);
        assert(nearest_f64(v, c));
        lemma_f64_unique(0, c);
    }
    if k <= 52 && 0x10_0000_0000_0000 <= a * pow2(k) < 0x20_0000_0000_0000 {
        let s = if v < 0 {
            1int
        } else {
            0int
        };
        let x = a * pow2(k);
        let r = f64_pattern(s, 1075 - k, x - 0x10_0000_0000_0000) as u64;
        lemma_f64_fields(r, s, 1075 - k, x - 0x10_0000_0000_0000);
        lemma_pow2_adds(k, (1074 - k) as nat);
        lemma_pow2_pos(k);
        let (p, q, t) = (pow2(k) as int, pow2((1074 - k) as nat) as int, pow2(1074) as int);
        assert(x * q == a * t) by (nonlinear_arith)
            requires
                x == a * p,
                p * q == t,
        ;
        assert(a < 0x20_0000_0000_0000) by (nonlinear_arith)
            requires
                x == a * p,
                x < 0x20_0000_0000_0000,
                p >= 1,
        ;
        assert(excess_bits(a) == 0);
        assert(div_half_even(a, 1) == a);
        assert(nearest_f64(v, r));
        let c = f64_of_int(v);
        assert(nearest_f64(v, c));
        lemma_f64_unique(r, c);
    }
}

/// The place to which an integer of at most 53 bits is moved up.
proof fn lemma_shift(a: nat, k: nat) -> (r: nat)
    requires
        0 < a,
        a * pow2(k) < 0x20_0000_0000_0000,
        k <= 52,
    ensures
        r <= 52,
        0x10_0000_0000_0000 <= a * pow2(r) < 0x20_0000_0000_0000,
    decreases 52 - k,
{
    lemma2_to64();
    lemma2_to64_rest();
    let x = a * pow2(k);
    if x >= 0x10_0000_0000_0000 {
        k
    } else {
        if k == 52 {
            assert(a * pow2(52) >= pow2(52)) by (nonlinear_arith)
                requires
                    a >= 1,
            ;
        }
        lemma_pow2_unfold(k + 1);
        assert(a * pow2(k + 1) == 2 * (a * pow2(k))) by (nonlinear_arith)
            requires
                pow2(k + 1) == 2 * pow2(k),
        ;
        lemma_shift(a, k + 1)
    }
}

/// The pattern of a natural number is that of a finite number that is not negative.
pub(crate) proof fn lemma_natural_pattern(n: u32)
    ensures
        nearest_f64(n as int, f64_of_int(n as int)),
        f64_of_int(n as int) < 0x7ff0_0000_0000_0000,
{
    lemma2_to64();
    lemma2_to64_rest();
    if n > 0 {
        assert(n * pow2(0) == n) by (nonlinear_arith)
            requires
                pow2(0) == 1,
        ;
        let k = lemma_shift(n as nat, 0);
        small_integers_are_exact(n as int, n as nat, k);
    } else {
        small_integers_are_exact(0, 0, 0);
        assert(0 * pow2(1074) == 0) by (nonlinear_arith);
        assert(div_half_even(0, 1) == 0);
        lemma_f64_fields(0, 0, 0, 0);
    }
}

/// The whole part of a number lies at most one below it. What is too large for 32 bits counts as
/// the largest 32-bit number, and the whole part of an integer is the integer.
pub proof fn whole_part_is_just_below(b: u64, n: u32)
    ensures
        f64_whole_u32(b) < u32::MAX ==> f64_whole_u32(b) * pow2(1074) <= f64_units(b) < (
        f64_whole_u32(b) + 1) * pow2(1074),
        f64_units(b) >= u32::MAX * pow2(1074) ==> f64_whole_u32(b) == u32::MAX,
        f64_whole_u32(f64_of_int(n as int)) == n,
{
    lemma2_to64();
    lemma_pow2_pos(1074);
    let t = pow2(1074) as int;
    let u = f64_units(b) as int;
    let q = u / t;
    vstd::arithmetic::div_mod::lemma_fundamental_div_mod(u, t);
    assert(q * t <= u < (q + 1) * t) by (nonlinear_arith)
        requires
            u == t * q + u % t,
            0 <= u % t < t,
    ;
    assert(q >= 0) by (nonlinear_arith)
        requires
            u >= 0,
            u < (q + 1) * t,
            t > 0,
    ;
    if u >= u32::MAX * t {
        assert(q >= u32::MAX) by (nonlinear_arith)
            requires
                u >= u32::MAX * t,
                u < (q + 1) * t,
                t > 0,
        ;
    }
    let c = f64_of_int(n as int);
    if n > 0 {
        assert(n * pow2(0) == n) by (nonlinear_arith)
            requires
                pow2(0) == 1,
        ;
        let k = lemma_shift(n as nat, 0);
        small_integers_are_exact(n as int, n as nat, k);
    } else {
        small_integers_are_exact(0, 0, 0);
        lemma_f64_fields(0, 0, 0, 0);
        assert(f64_units(c) == 0);
        assert(0int / t == 0) by (nonlinear_arith)
            requires
                t > 0,
        ;
    }
    if n > 0 {
        assert(excess_bits(n as nat) == 0);
        assert(div_half_even(n as nat, 1) == n);
        assert(f64_units(c) == n * pow2(1074));
        vstd::arithmetic::div_mod::lemma_div_multiples_vanish(n as int, t);
        assert((n * t) / t == n) by (nonlinear_arith)
            requires
                (t * n) / t == n,
        ;
    }
}

// ---------------------------------------------------------------------------------------------
// Narrowing
// ---------------------------------------------------------------------------------------------

/// How far apart two magnitudes are.
pub open spec fn distance(a: int, b: int) -> int {
    if a < b {
        b - a
    } else {
        a - b
    }
}

/// A number counts as near an integer exactly where some integer is closer than one
/// ten-thousandth, as a single precision number, and its whole part lies at most one below it.
pub proof fn near_an_integer_means_close_to_one(b: u32, n: nat)
    ensures
        distance(f32_units(b) as int, (n * pow2(149)) as int) < 13743895 * pow2(112)
            ==> f32_near_integer(b),
        f32_near_integer(b) ==> exists|k: nat|
            distance(f32_units(b) as int, #[trigger] (k * pow2(149)) as int) < 13743895 * pow2(112),
        f32_whole_u32(b) < u32::MAX ==> f32_whole_u32(b) * pow2(149) <= f32_units(b) < (
        f32_whole_u32(b) + 1) * pow2(149),
        f32_units(b) >= u32::MAX * pow2(149) ==> f32_whole_u32(b) == u32::MAX,
{
    lemma2_to64();
    lemma2_to64_rest();
    lemma_pow2_pos(112);
    lemma_pow2_adds(37, 112);
    let t = pow2(149) as int;
    let u = f32_units(b) as int;
    let (q, r) = (u / t, u % t);
    let tol = 13743895 * pow2(112);
    assert(0 < tol && 2 * tol < t);
    vstd::arithmetic::div_mod::lemma_fundamental_div_mod(u, t);
    assert(q * t == t * q) by (nonlinear_arith);
    assert((q + 1) * t == q * t + t) by (nonlinear_arith);
    assert(q >= 0) by (nonlinear_arith)
        requires
            u >= 0,
            u < q * t + t,
            t > 0,
    ;
    if distance(u, n * t) < tol {
        let d = n - q;
        assert(n * t == q * t + d * t) by (nonlinear_arith)
            requires
                d == n - q,
        ;
        if d >= 2 {
            assert(d * t >= 2 * t) by (nonlinear_arith)
                requires
                    d >= 2,
                    t > 0,
            ;
        } else if d <= -1 {
            assert(d * t <= -t) by (nonlinear_arith)
                requires
                    d <= -1,
                    t > 0,
            ;
        } else if d == 0 {
            assert(d * t == 0) by (nonlinear_arith)
                requires
                    d == 0,
            ;
        } else {
            assert(d * t == t) by (nonlinear_arith)
                requires
                    d == 1,
            ;
        }
    }
    if f32_near_integer(b) {
        let (low, high) = (q as nat, (q + 1) as nat);
        assert((low * pow2(149)) as int == q * t);
        assert((high * pow2(149)) as int == (q + 1) * t);
        if r < tol {
            assert(distance(u, (low * pow2(149)) as int) < tol);
        } else {
            assert(distance(u, (high * pow2(149)) as int) < tol);
        }
    }
    if u >= u32::MAX * t {
        assert(q >= u32::MAX) by (nonlinear_arith)
            requires
                u >= u32::MAX * t,
                u < q * t + t,
                t > 0,
        ;
    }
}

/// A magnitude in half precision is a multiple of the step between half precision numbers of the
/// size of `x`, or lies below the power of two under `x`.
proof fn lemma_half_grid(h: u16, e: nat) -> (n: nat)
    requires
        f16_finite(h),
        0x71 < e < 0xff,
    ensures
        f16_units(h) * pow2(125) == n * pow2((e + 12) as nat) || f16_units(h) * pow2(125) < pow2(
            (e + 22) as nat,
        ),
{
    lemma2_to64();
    let (eh, mh) = (f16_exponent(h), f16_fraction(h));
    let u = f16_units(h);
    if eh == 0 {
        lemma_pow2_adds(10, 125);
        lemma_pow2_pos(125);
        assert(u * pow2(125) < pow2(10) * pow2(125)) by (nonlinear_arith)
            requires
                u < pow2(10),
                pow2(125) > 0,
        ;
        lemma_pow2_strictly_increases(135, (e + 22) as nat);
        0
    } else {
        let a = (pow2(10) + mh) as nat;
        lemma_pow2_adds((eh - 1) as nat, 125);
        let p = pow2((eh + 124) as nat);
        assert(u * pow2(125) == a * p) by (nonlinear_arith)
            requires
                u == a * pow2((eh - 1) as nat),
                pow2((eh - 1) as nat) * pow2(125) == p,
        ;
        if eh + 124 >= e + 12 {
            let d = (eh + 124 - (e + 12)) as nat;
            lemma_pow2_adds(d, (e + 12) as nat);
            let n = a * pow2(d);
            assert(a * p == n * pow2((e + 12) as nat)) by (nonlinear_arith)
                requires
                    n == a * pow2(d),
                    pow2(d) * pow2((e + 12) as nat) == p,
            ;
            n
        } else {
            lemma_pow2_pos((eh + 124) as nat);
            lemma_pow2_adds(11, (eh + 124) as nat);
            assert(a * p < pow2(11) * p) by (nonlinear_arith)
                requires
                    a < pow2(11),
                    p > 0,
            ;
            if eh + 135 < e + 22 {
                lemma_pow2_strictly_increases((eh + 135) as nat, (e + 22) as nat);
            }
            0
        }
    }
}

/// No half precision number of the same sign is closer to a number than the one that it narrows
/// to.
pub proof fn narrowing_takes_the_nearest(b: u32, r: u16, h: u16)
    requires
        f32_finite(b),
        narrows_f32(b, r),
        f16_finite(r),
        f16_finite(h),
    ensures
        distance(f32_units(b) as int, (f16_units(r) * pow2(125)) as int) <= distance(
            f32_units(b) as int,
            (f16_units(h) * pow2(125)) as int,
        ),
{
    lemma2_to64();
    let e = f32_exponent(b);
    let x = f32_units(b) as int;
    let s = f16_step(b) as int;
    let y = (f16_units(h) * pow2(125)) as int;
    let rr = (f16_units(r) * pow2(125)) as int;
    assert(r % 0x8000 != 0x7c00) by {
        if r % 0x8000 == 0x7c00 {
            assert(f16_exponent(r) == 0x1f);
        }
    }
    lemma_pow2_pos(125);
    lemma_pow2_pos((e + 12) as nat);
    assert(rr == round_to_f16(b));
    let g = div_half_up(f32_units(b), f16_step(b)) as int;
    assert(s % 2 == 0) by {
        if e > 0x71 {
            lemma_pow2_unfold((e + 12) as nat);
        } else {
            lemma_pow2_unfold(125);
        }
    }
    assert(rr == g * s);
    vstd::arithmetic::div_mod::lemma_fundamental_div_mod(x + s / 2, s);
    assert(g * s <= x + s / 2 < g * s + s) by (nonlinear_arith)
        requires
            x + s / 2 == s * g + (x + s / 2) % s,
            0 <= (x + s / 2) % s < s,
    ;
    assert(2 * distance(x, rr) <= s);
    if e > 0x71 {
        let n = lemma_half_grid(h, e);
        if y == n * s {
            lemma_on_the_grid(x, g, n as int, s);
        } else {
            let low = pow2((e + 22) as nat) as int;
            lemma_pow2_adds(23, (e - 1) as nat);
            lemma_pow2_adds(10, (e + 12) as nat);
            let p = pow2((e - 1) as nat) as int;
            lemma_pow2_pos((e - 1) as nat);
            assert((pow2(23) + f32_fraction(b)) * p >= pow2(23) * p) by (nonlinear_arith)
                requires
                    p > 0,
            ;
            assert(x >= low);
            assert(low == 1024 * s);
            lemma_on_the_grid(x, g, 1024, s);
        }
    } else {
        lemma_on_the_grid(x, g, f16_units(h) as int, s);
    }
}

/// Of the multiples of `s` none is closer to `x` than one that is at most half of `s` away.
proof fn lemma_on_the_grid(x: int, g: int, n: int, s: int)
    requires
        s > 0,
        2 * distance(x, g * s) <= s,
    ensures
        distance(x, g * s) <= distance(x, n * s),
{
    let d = n - g;
    assert(n * s == g * s + d * s) by (nonlinear_arith)
        requires
            d == n - g,
    ;
    if d >= 1 {
        assert(d * s >= s) by (nonlinear_arith)
            requires
                d >= 1,
                s > 0,
        ;
    } else if d <= -1 {
        assert(d * s <= -s) by (nonlinear_arith)
            requires
                d <= -1,
                s > 0,
        ;
    } else {
        assert(d * s == 0) by (nonlinear_arith)
            requires
                d == 0,
        ;
    }
}

/// A NaN narrows to the quiet NaN of its sign, an infinity to that of its sign, and a number of
/// 65536 or more to the infinity.
pub proof fn narrowing_keeps_the_special(b: u32, r: u16, s: int)
    requires
        narrows_f32(b, r),
        0 <= s <= 1,
        s * 0x8000_0000 <= b < (s + 1) * 0x8000_0000,
    ensures
        b % 0x8000_0000 > 0x7f80_0000 ==> r == s * 0x8000 + 0x7e00,
        b % 0x8000_0000 == 0x7f80_0000 ==> r == s * 0x8000 + 0x7c00,
        0x4780_0000 <= b % 0x8000_0000 < 0x7f80_0000 ==> r == s * 0x8000 + 0x7c00,
        b % 0x8000_0000 == 0 ==> r == s * 0x8000,
{
    lemma2_to64();
    let e = f32_exponent(b);
    let m = f32_fraction(b);
    assert(b % 0x8000_0000 == e * 0x80_0000 + m);
    if 0x4780_0000 <= b % 0x8000_0000 < 0x7f80_0000 {
        assert(e >= 0x8f);
        let st = f16_step(b) as int;
        let x = f32_units(b) as int;
        let p = pow2((e - 1) as nat) as int;
        lemma_pow2_adds(23, (e - 1) as nat);
        lemma_pow2_adds(10, (e + 12) as nat);
        lemma_pow2_pos((e - 1) as nat);
        lemma_pow2_pos((e + 12) as nat);
        assert((pow2(23) + m) * p >= pow2(23) * p) by (nonlinear_arith)
            requires
                p > 0,
                m >= 0,
        ;
        assert(x >= 1024 * st);
        let g = (x + st / 2) / st;
        vstd::arithmetic::div_mod::lemma_fundamental_div_mod(x + st / 2, st);
        assert(g >= 1024) by (nonlinear_arith)
            requires
                x + st / 2 == st * g + (x + st / 2) % st,
                0 <= (x + st / 2) % st < st,
                x >= 1024 * st,
                st > 0,
                st / 2 >= 0,
        ;
        assert(g * st >= 1024 * st) by (nonlinear_arith)
            requires
                g >= 1024,
                st > 0,
        ;
        if e + 22 > 165 {
            lemma_pow2_strictly_increases(165, (e + 22) as nat);
        }
        assert(round_to_f16(b) >= pow2(165));
    }
    if b % 0x8000_0000 == 0 {
        lemma_pow2_pos(125);
        lemma_pow2_pos(165);
        let st = f16_step(b) as int;
        assert((0 + st / 2) / st == 0) by (nonlinear_arith)
            requires
                st > 0,
        ;
        assert(0 * st == 0) by (nonlinear_arith);
        assert(round_to_f16(b) == 0);
        let u = f16_units(r);
        assert(u == 0) by (nonlinear_arith)
            requires
                u * pow2(125) == 0,
                pow2(125) > 0,
        ;
        let (er, mr) = (f16_exponent(r), f16_fraction(r));
        if er > 0 {
            lemma_pow2_pos((er - 1) as nat);
            assert((pow2(10) + mr) * pow2((er - 1) as nat) > 0) by (nonlinear_arith)
                requires
                    pow2(10) > 0,
                    pow2((er - 1) as nat) > 0,
            ;
        }
    }
}

/// A comparison follows the patterns: among numbers that are not negative the larger pattern is
/// the larger number, among negative ones the smaller, both noughts are equal, and a NaN is at
/// least nothing.
pub proof fn comparison_follows_the_patterns(a: u32, b: u32)
    ensures
        a <= 0x7f80_0000 && b <= 0x7f80_0000 ==> (f32_at_least(a, b) <==> a >= b),
        0x8000_0000 <= a <= 0xff80_0000 && 0x8000_0000 <= b <= 0xff80_0000 ==> (f32_at_least(a, b)
            <==> a <= b),
        a <= 0x7f80_0000 && 0x8000_0000 <= b <= 0xff80_0000 ==> f32_at_least(a, b),
        0x8000_0000 < a <= 0xff80_0000 && b <= 0x7f80_0000 ==> !f32_at_least(a, b),
        a == 0x8000_0000 && b <= 0x7f80_0000 ==> (f32_at_least(a, b) <==> b == 0),
        0x7f80_0000 < a < 0x8000_0000 || a > 0xff80_0000 ==> !f32_at_least(a, b) && !f32_at_least(
            b,
            a,
        ),
{
}

/// The double precision number of an integer with `k` bits too many is a multiple of 2 to the
/// power `k` that is at most half of that away, the even one where two are as near.
pub proof fn large_integers_are_rounded(v: int, a: nat, k: nat, r: u64)
    requires
        a == if v < 0 {
            -v
        } else {
            v
        },
        pow2(k) * 0x10_0000_0000_0000 <= a < pow2(k) * 0x20_0000_0000_0000,
        nearest_f64(v, r),
    ensures
        (r >= 0x8000_0000_0000_0000) == (v < 0),
        exists|q: nat| is_nearest_multiple(f64_units(r), a, pow2(k), q),
{
    lemma_excess(a, k);
    lemma_pow2_pos(k);
    let g = pow2(k);
    let q = div_half_even(a, g);
    let (q0, rem) = ((a / g) as int, (a % g) as int);
    vstd::arithmetic::div_mod::lemma_fundamental_div_mod(a as int, g as int);
    assert(q0 * g == g * q0) by (nonlinear_arith);
    assert((q0 + 1) * g == q0 * g + g) by (nonlinear_arith);
    assert(is_nearest_multiple(f64_units(r), a, g, q));
}

/// `units` stands for `q` times `g`, the multiple of `g` nearest to `a`, or the even one of two.
pub open spec fn is_nearest_multiple(units: nat, a: nat, g: nat, q: nat) -> bool {
    &&& units == (q * g) * pow2(1074)
    &&& 2 * distance(a as int, (q * g) as int) <= g
    &&& 2 * distance(a as int, (q * g) as int) == g ==> q % 2 == 0
}

proof fn lemma_excess(a: nat, k: nat)
    requires
        pow2(k) * 0x10_0000_0000_0000 <= a < pow2(k) * 0x20_0000_0000_0000,
    ensures
        excess_bits(a) == k,
    decreases k,
{
    lemma2_to64();
    if k > 0 {
        lemma_pow2_unfold(k);
        lemma_pow2_pos((k - 1) as nat);
        lemma_excess(a / 2, (k - 1) as nat);
    }
}

/// An integer in single precision is its own whole part and counts as near an integer.
pub proof fn whole_single_precision(b: u32, n: nat)
    requires
        n <= u32::MAX,
        f32_units(b) == n * pow2(149),
    ensures
        f32_near_integer(b),
        f32_whole_u32(b) == n,
{
    lemma_pow2_pos(149);
    lemma_pow2_pos(112);
    let t = pow2(149) as int;
    vstd::arithmetic::div_mod::lemma_div_multiples_vanish(n as int, t);
    vstd::arithmetic::div_mod::lemma_mod_multiples_basic(n as int, t);
    assert((n * t) / t == n) by (nonlinear_arith)
        requires
            (t * n) / t == n,
    ;
}

} // verus!
