//! IEEE 754 numbers as bit patterns: what a pattern stands for, and the conversions between the
//! formats, done on integers.
use vstd::prelude::*;
use vstd::arithmetic::power2::*;

verus! {

// ---------------------------------------------------------------------------------------------
// What a bit pattern stands for
// ---------------------------------------------------------------------------------------------

/// The magnitude of a binary number in units of the format's smallest positive number: the
/// fraction field has `bits` bits, `field` holds the exponent above the fraction.
pub open spec fn magnitude(exponent: nat, fraction: nat, bits: nat) -> nat {
    if exponent == 0 {
        fraction
    } else {
        (pow2(bits) + fraction) * pow2((exponent - 1) as nat)
    }
}

/// Half precision: sign.
pub open spec fn f16_negative(h: u16) -> bool {
    h >= 0x8000
}

/// Half precision: exponent field.
pub open spec fn f16_exponent(h: u16) -> nat {
    (h as nat / 0x400) % 0x20
}

/// Half precision: fraction field.
pub open spec fn f16_fraction(h: u16) -> nat {
    h as nat % 0x400
}

/// Half precision: neither infinite nor a NaN.
pub open spec fn f16_finite(h: u16) -> bool {
    f16_exponent(h) != 0x1f
}

/// Half precision: a NaN.
pub open spec fn f16_nan(h: u16) -> bool {
    f16_exponent(h) == 0x1f && f16_fraction(h) != 0
}

/// The magnitude of a finite half precision number, in units of 2^-24.
pub open spec fn f16_units(h: u16) -> nat {
    magnitude(f16_exponent(h), f16_fraction(h), 10)
}

/// Single precision: sign.
pub open spec fn f32_negative(b: u32) -> bool {
    b >= 0x8000_0000
}

/// Single precision: exponent field.
pub open spec fn f32_exponent(b: u32) -> nat {
    (b as nat / 0x80_0000) % 0x100
}

/// Single precision: fraction field.
pub open spec fn f32_fraction(b: u32) -> nat {
    b as nat % 0x80_0000
}

/// Single precision: neither infinite nor a NaN.
pub open spec fn f32_finite(b: u32) -> bool {
    f32_exponent(b) != 0xff
}

/// Single precision: a NaN.
pub open spec fn f32_nan(b: u32) -> bool {
    f32_exponent(b) == 0xff && f32_fraction(b) != 0
}

/// The magnitude of a finite single precision number, in units of 2^-149.
pub open spec fn f32_units(b: u32) -> nat {
    magnitude(f32_exponent(b), f32_fraction(b), 23)
}

/// The value of a finite single precision number, in units of 2^-149.
pub open spec fn f32_value(b: u32) -> int {
    if f32_negative(b) {
        -(f32_units(b) as int)
    } else {
        f32_units(b) as int
    }
}

/// Double precision: sign.
pub open spec fn f64_negative(b: u64) -> bool {
    b >= 0x8000_0000_0000_0000
}

/// Double precision: exponent field.
pub open spec fn f64_exponent(b: u64) -> nat {
    (b as nat / 0x10_0000_0000_0000) % 0x800
}

/// Double precision: fraction field.
pub open spec fn f64_fraction(b: u64) -> nat {
    b as nat % 0x10_0000_0000_0000
}

/// Double precision: neither infinite nor a NaN.
pub open spec fn f64_finite(b: u64) -> bool {
    f64_exponent(b) != 0x7ff
}

/// Double precision: a NaN.
pub open spec fn f64_nan(b: u64) -> bool {
    f64_exponent(b) == 0x7ff && f64_fraction(b) != 0
}

/// The magnitude of a finite double precision number, in units of 2^-1074.
pub open spec fn f64_units(b: u64) -> nat {
    magnitude(f64_exponent(b), f64_fraction(b), 52)
}

// ---------------------------------------------------------------------------------------------
// Widening
// ---------------------------------------------------------------------------------------------

/// `m` scaled up by a power of two until bit `top` is set, and by how many places.
fn normalize(m: u32, top: u32) -> (r: (u32, u32))
    requires
        top < 31,
        0 < m < pow2(top as nat),
    ensures
        r.1 <= top,
        r.0 == m * pow2(r.1 as nat),
        pow2(top as nat) <= r.0 < 2 * pow2(top as nat),
        r.0 <= u32::MAX / 2,
{
    let mut x: u32 = m;
    let mut s: u32 = 0;
    proof {
        lemma2_to64();
        lemma_pow2_strictly_increases(top as nat, 31);
    }
    let limit: u32 = power_of_two(top);
    while x < limit
        invariant
            top < 31,
            limit == pow2(top as nat),
            limit < 0x8000_0000,
            0 < m,
            0 < x < 2 * limit,
            x == m * pow2(s as nat),
            s <= top,
            s == top ==> x >= limit,
        decreases 2 * limit - x,
    {
        proof {
            lemma_pow2_unfold((s + 1) as nat);
            assert(m * pow2((s + 1) as nat) == 2 * (m * pow2(s as nat))) by (nonlinear_arith)
                requires
                    pow2((s + 1) as nat) == 2 * pow2(s as nat),
            ;
            if s + 1 == top {
                assert(m * pow2(top as nat) >= pow2(top as nat)) by (nonlinear_arith)
                    requires
                        m >= 1,
                ;
            }
        }
        x = 2 * x;
        s = s + 1;
    }
    (x, s)
}

/// Two to the power `n`.
fn power_of_two(n: u32) -> (r: u32)
    requires
        n < 32,
    ensures
        r == pow2(n as nat),
{
    let mut r: u32 = 1;
    let mut i: u32 = 0;
    proof {
        lemma2_to64();
    }
    while i < n
        invariant
            i <= n < 32,
            r == pow2(i as nat),
        decreases n - i,
    {
        proof {
            lemma_pow2_unfold((i + 1) as nat);
            lemma2_to64();
            if i + 1 < 31 {
                lemma_pow2_strictly_increases((i + 1) as nat, 31);
            }
        }
        r = 2 * r;
        i = i + 1;
    }
    r
}

/// Whether `r` is the single precision number with the value of `h`. Infinities keep their sign;
/// every NaN becomes the positive quiet NaN.
pub open spec fn widens_f16(h: u16, r: u32) -> bool {
    if f16_finite(h) {
        &&& f32_finite(r)
        &&& f32_negative(r) == f16_negative(h)
        &&& f32_units(r) == f16_units(h) * pow2(125)
    } else if f16_nan(h) {
        r == 0x7fc0_0000
    } else {
        &&& f32_negative(r) == f16_negative(h)
        &&& r % 0x8000_0000 == 0x7f80_0000
    }
}

/// The single precision number with the value of a half precision number.
pub open spec fn f32_of_f16(h: u16) -> u32 {
    choose|r: u32| widens_f16(h, r)
}

/// The single precision number with the value of a half precision number.
pub fn f16_bits_to_f32(h: u16) -> (r: u32)
    ensures
        widens_f16(h, r),
        r == f32_of_f16(h),
{
    let r = widen_f16(h);
    proof {
        let c = f32_of_f16(h);
        assert(widens_f16(h, c));
        lemma_f32_unique(r, c);
    }
    r
}

/// Two single precision numbers of the same sign and magnitude are the same pattern.
pub(crate) proof fn lemma_f32_unique(a: u32, b: u32)
    requires
        f32_negative(a) == f32_negative(b),
        (f32_finite(a) && f32_finite(b) && f32_units(a) == f32_units(b)) || a % 0x8000_0000 == b
            % 0x8000_0000,
    ensures
        a == b,
{
    lemma2_to64();
    let (ea, ma) = (f32_exponent(a), f32_fraction(a));
    let (eb, mb) = (f32_exponent(b), f32_fraction(b));
    assert(a % 0x8000_0000 == ea * 0x80_0000 + ma);
    assert(b % 0x8000_0000 == eb * 0x80_0000 + mb);
    if ea < eb || (ea == eb && ma < mb) {
        lemma_magnitude_order(ea, ma, eb, mb, 23);
    }
    if eb < ea || (ea == eb && mb < ma) {
        lemma_magnitude_order(eb, mb, ea, ma, 23);
    }
}

fn widen_f16(h: u16) -> (r: u32)
    ensures
        widens_f16(h, r),
{
    let sign: u32 = if h >= 0x8000 {
        0x8000_0000
    } else {
        0
    };
    let e: u32 = ((h / 0x400) % 0x20) as u32;
    let m: u32 = (h % 0x400) as u32;
    proof {
        lemma2_to64();
        lemma2_to64_rest();
    }
    if e == 0x1f {
        if m == 0 {
            return sign + 0x7f80_0000;
        }
        return 0x7fc0_0000;
    }
    if e == 0 {
        if m == 0 {
            proof {
                assert(f32_fraction(sign) == 0);
                assert(f32_exponent(sign) == 0);
                assert(0 * pow2(125) == 0) by (nonlinear_arith);
            }
            return sign;
        }
        let (x, s) = normalize(m, 10);
        let r: u32 = sign + (113 - s) * 0x80_0000 + (x - 0x400) * 0x2000;
        proof {
            let ee = (113 - s) as nat;
            assert(f32_exponent(r) == ee);
            assert(f32_fraction(r) == (x - 0x400) * 0x2000);
            assert(pow2(23) + (x - 0x400) * 0x2000 == x * 0x2000);
            lemma_pow2_adds(13, (112 - s) as nat);
            lemma_pow2_adds(s as nat, (125 - s) as nat);
            lemma_pow2_adds(13, (112 - s) as nat);
            assert((x * 0x2000) * pow2((112 - s) as nat) == m * pow2(125)) by (nonlinear_arith)
                requires
                    x == m * pow2(s as nat),
                    0x2000 * pow2((112 - s) as nat) == pow2((125 - s) as nat),
                    pow2(s as nat) * pow2((125 - s) as nat) == pow2(125),
            ;
        }
        return r;
    }
    let r: u32 = sign + (e + 112) * 0x80_0000 + m * 0x2000;
    proof {
        assert(f32_exponent(r) == e + 112);
        assert(f32_fraction(r) == m * 0x2000);
        lemma_pow2_adds((e - 1) as nat, 125);
        lemma_pow2_adds(13, (e + 111) as nat);
        assert((pow2(23) + m * 0x2000) * pow2((e + 111) as nat) == ((pow2(10) + m) * pow2(
            (e - 1) as nat,
        )) * pow2(125)) by (nonlinear_arith)
            requires
                pow2(23) == 0x80_0000,
                pow2(10) == 0x400,
                0x2000 * pow2((e + 111) as nat) == pow2((e + 124) as nat),
                pow2((e - 1) as nat) * pow2(125) == pow2((e + 124) as nat),
        ;
    }
    r
}

/// Whether `r` is the double precision number with the value of `b`. Infinities keep their sign;
/// a NaN becomes the quiet NaN of the same sign.
pub open spec fn widens_f32(b: u32, r: u64) -> bool {
    &&& f64_negative(r) == f32_negative(b)
    &&& if f32_finite(b) {
        f64_finite(r) && f64_units(r) == f32_units(b) * pow2(925)
    } else if f32_nan(b) {
        r % 0x8000_0000_0000_0000 == 0x7ff8_0000_0000_0000
    } else {
        r % 0x8000_0000_0000_0000 == 0x7ff0_0000_0000_0000
    }
}

/// The double precision number with the value of a single precision number.
pub open spec fn f64_of_f32(b: u32) -> u64 {
    choose|r: u64| widens_f32(b, r)
}

/// The double precision number with the value of a single precision number.
pub fn f32_bits_to_f64(b: u32) -> (r: u64)
    ensures
        widens_f32(b, r),
        r == f64_of_f32(b),
{
    let r = widen_f32(b);
    proof {
        let c = f64_of_f32(b);
        assert(widens_f32(b, c));
        lemma_f64_unique(r, c);
    }
    r
}

/// The magnitude grows with the exponent field, and with the fraction where that is the same.
proof fn lemma_magnitude_order(ea: nat, ma: nat, eb: nat, mb: nat, bits: nat)
    requires
        ma < pow2(bits),
        mb < pow2(bits),
        ea < eb || (ea == eb && ma < mb),
    ensures
        magnitude(ea, ma, bits) < magnitude(eb, mb, bits),
{
    if ea == eb {
        if ea > 0 {
            lemma_pow2_pos((ea - 1) as nat);
            assert((pow2(bits) + ma) * pow2((ea - 1) as nat) < (pow2(bits) + mb) * pow2(
                (ea - 1) as nat,
            )) by (nonlinear_arith)
                requires
                    ma < mb,
                    pow2((ea - 1) as nat) > 0,
            ;
        }
    } else {
        lemma_pow2_pos((eb - 1) as nat);
        assert((pow2(bits) + mb) * pow2((eb - 1) as nat) >= pow2(bits) * pow2((eb - 1) as nat))
            by (nonlinear_arith);
        if ea == 0 {
            assert(pow2(bits) * pow2((eb - 1) as nat) >= pow2(bits)) by (nonlinear_arith)
                requires
                    pow2((eb - 1) as nat) >= 1,
            ;
        } else {
            lemma_pow2_pos((ea - 1) as nat);
            lemma_pow2_unfold(ea);
            if ea < eb - 1 {
                lemma_pow2_strictly_increases(ea, (eb - 1) as nat);
            }
            assert((pow2(bits) + ma) * pow2((ea - 1) as nat) < pow2(bits) * pow2((eb - 1) as nat))
                by (nonlinear_arith)
                requires
                    ma < pow2(bits),
                    pow2((eb - 1) as nat) >= 2 * pow2((ea - 1) as nat),
                    pow2((ea - 1) as nat) > 0,
            ;
        }
    }
}

/// Two double precision numbers of the same sign and magnitude are the same pattern.
pub(crate) proof fn lemma_f64_unique(a: u64, b: u64)
    requires
        f64_negative(a) == f64_negative(b),
        (f64_finite(a) && f64_finite(b) && f64_units(a) == f64_units(b)) || a
            % 0x8000_0000_0000_0000 == b % 0x8000_0000_0000_0000,
    ensures
        a == b,
{
    lemma2_to64_rest();
    lemma2_to64();
    let (ea, ma) = (f64_exponent(a), f64_fraction(a));
    let (eb, mb) = (f64_exponent(b), f64_fraction(b));
    assert(a % 0x8000_0000_0000_0000 == ea * 0x10_0000_0000_0000 + ma);
    assert(b % 0x8000_0000_0000_0000 == eb * 0x10_0000_0000_0000 + mb);
    if ea < eb || (ea == eb && ma < mb) {
        lemma_magnitude_order(ea, ma, eb, mb, 52);
    }
    if eb < ea || (ea == eb && mb < ma) {
        lemma_magnitude_order(eb, mb, ea, ma, 52);
    }
}

fn widen_f32(b: u32) -> (r: u64)
    ensures
        widens_f32(b, r),
{
    let sign: u64 = if b >= 0x8000_0000 {
        0x8000_0000_0000_0000
    } else {
        0
    };
    let e: u64 = ((b / 0x80_0000) % 0x100) as u64;
    let m: u32 = b % 0x80_0000;
    proof {
        lemma2_to64();
        lemma2_to64_rest();
    }
    if e == 0xff {
        if m == 0 {
            return sign + 0x7ff0_0000_0000_0000;
        }
        return sign + 0x7ff8_0000_0000_0000;
    }
    if e == 0 {
        if m == 0 {
            proof {
                assert(f64_fraction(sign) == 0);
                assert(f64_exponent(sign) == 0);
                assert(0 * pow2(925) == 0) by (nonlinear_arith);
            }
            return sign;
        }
        let (x, s) = normalize(m, 23);
        let r: u64 = sign + (897 - s as u64) * 0x10_0000_0000_0000 + (x as u64 - 0x80_0000)
            * 0x2000_0000;
        proof {
            assert(f64_exponent(r) == 897 - s);
            assert(f64_fraction(r) == (x - 0x80_0000) * 0x2000_0000);
            assert(pow2(52) + (x - 0x80_0000) * 0x2000_0000 == x * 0x2000_0000);
            lemma_pow2_adds(29, (896 - s) as nat);
            lemma_pow2_adds(s as nat, (925 - s) as nat);
            assert((x * 0x2000_0000) * pow2((896 - s) as nat) == m * pow2(925))
                by (nonlinear_arith)
                requires
                    x == m * pow2(s as nat),
                    0x2000_0000 * pow2((896 - s) as nat) == pow2((925 - s) as nat),
                    pow2(s as nat) * pow2((925 - s) as nat) == pow2(925),
            ;
        }
        return r;
    }
    let r: u64 = sign + (e + 896) * 0x10_0000_0000_0000 + m as u64 * 0x2000_0000;
    proof {
        assert(f64_exponent(r) == e + 896);
        assert(f64_fraction(r) == m * 0x2000_0000);
        lemma_pow2_adds((e - 1) as nat, 925);
        lemma_pow2_adds(29, (e + 895) as nat);
        assert((pow2(52) + m * 0x2000_0000) * pow2((e + 895) as nat) == ((pow2(23) + m) * pow2(
            (e - 1) as nat,
        )) * pow2(925)) by (nonlinear_arith)
            requires
                pow2(52) == 0x10_0000_0000_0000,
                pow2(23) == 0x80_0000,
                0x2000_0000 * pow2((e + 895) as nat) == pow2((e + 924) as nat),
                pow2((e - 1) as nat) * pow2(925) == pow2((e + 924) as nat),
        ;
    }
    r
}

// ---------------------------------------------------------------------------------------------
// Rounding an integer
// ---------------------------------------------------------------------------------------------

/// By how many bits a number is longer than a double precision significand.
pub open spec fn excess_bits(a: nat) -> nat
    decreases a,
{
    if a < 0x20_0000_0000_0000 {
        0
    } else {
        1 + excess_bits(a / 2)
    }
}

/// A quotient rounded to the nearest integer, a tie to the even one.
pub open spec fn div_half_even(a: nat, g: nat) -> nat {
    let q = a / g;
    let r = a % g;
    if 2 * r > g || (2 * r == g && q % 2 == 1) {
        q + 1
    } else {
        q
    }
}

/// The number nearest to `a` among those with a significand of 53 bits, a tie to the even one.
pub open spec fn round_to_f64(a: nat) -> nat {
    let g = pow2(excess_bits(a));
    div_half_even(a, g) * g
}

/// Whether `r` is the double precision number nearest to `v`.
pub open spec fn nearest_f64(v: int, r: u64) -> bool {
    &&& f64_finite(r)
    &&& f64_negative(r) == (v < 0)
    &&& f64_units(r) == round_to_f64(if v < 0 {
        (-v) as nat
    } else {
        v as nat
    }) * pow2(1074)
}

/// The double precision number nearest to an integer.
pub open spec fn f64_of_int(v: int) -> u64 {
    choose|r: u64| nearest_f64(v, r)
}

/// The double precision number nearest to an integer, a tie to the even one.
pub fn f64_from_i64(v: i64) -> (r: u64)
    ensures
        nearest_f64(v as int, r),
        r == f64_of_int(v as int),
{
    let a: u64 = if v >= 0 {
        v as u64
    } else if v == i64::MIN {
        0x8000_0000_0000_0000
    } else {
        (-v) as u64
    };
    let r: u64 = round_magnitude(a, v < 0);
    proof {
        let c = f64_of_int(v as int);
        assert(nearest_f64(v as int, c));
        lemma_f64_unique(r, c);
    }
    r
}

/// The double precision number nearest to an unsigned integer, a tie to the even one.
pub fn f64_from_u64(v: u64) -> (r: u64)
    ensures
        nearest_f64(v as int, r),
        r == f64_of_int(v as int),
{
    let r: u64 = round_magnitude(v, false);
    proof {
        let c = f64_of_int(v as int);
        assert(nearest_f64(v as int, c));
        lemma_f64_unique(r, c);
    }
    r
}

fn round_magnitude(a: u64, negative: bool) -> (r: u64)
    requires
        negative ==> a > 0,
    ensures
        nearest_f64(
            if negative {
                -(a as int)
            } else {
                a as int
            },
            r,
        ),
{
    let sign: u64 = if negative {
        0x8000_0000_0000_0000
    } else {
        0
    };
    proof {
        lemma2_to64();
        lemma2_to64_rest();
    }
    if a == 0 {
        proof {
            assert(f64_units(0) == 0);
            assert(0 * pow2(1074) == 0) by (nonlinear_arith);
            assert(0 * pow2(0) == 0);
        }
        return 0;
    }
    if a < 0x20_0000_0000_0000 {
        let mut x: u64 = a;
        let mut s: u64 = 0;
        while x < 0x10_0000_0000_0000
            invariant
                0 < a,
                0 < x < 0x20_0000_0000_0000,
                s <= 52,
                x == a * pow2(s as nat),
                s == 52 ==> x >= 0x10_0000_0000_0000,
                pow2(52) == 0x10_0000_0000_0000,
            decreases 0x20_0000_0000_0000 - x,
        {
            proof {
                lemma_pow2_unfold((s + 1) as nat);
                assert(a * pow2((s + 1) as nat) == 2 * (a * pow2(s as nat))) by (nonlinear_arith)
                    requires
                        pow2((s + 1) as nat) == 2 * pow2(s as nat),
                ;
                if s + 1 == 52 {
                    assert(a * pow2(52) >= pow2(52)) by (nonlinear_arith)
                        requires
                            a >= 1,
                    ;
                }
            }
            x = 2 * x;
            s = s + 1;
        }
        let r: u64 = sign + (1075 - s) * 0x10_0000_0000_0000 + (x - 0x10_0000_0000_0000);
        proof {
            assert(f64_exponent(r) == 1075 - s);
            assert(f64_fraction(r) == x - 0x10_0000_0000_0000);
            lemma_pow2_adds(s as nat, (1074 - s) as nat);
            assert(x * pow2((1074 - s) as nat) == a * pow2(1074)) by (nonlinear_arith)
                requires
                    x == a * pow2(s as nat),
                    pow2(s as nat) * pow2((1074 - s) as nat) == pow2(1074),
            ;
            assert(excess_bits(a as nat) == 0);
            assert(div_half_even(a as nat, 1) == a);
        }
        return r;
    }
    let mut x: u64 = a;
    let mut k: u64 = 0;
    let mut g: u64 = 1;
    while x >= 0x20_0000_0000_0000
        invariant
            0 < a,
            0x10_0000_0000_0000 <= x <= a,
            x == a / g,
            g == pow2(k as nat),
            1 <= g <= 0x800,
            k <= 11,
            x * g <= a,
            excess_bits(a as nat) == k + excess_bits(x as nat),
            pow2(0) == 1,
            pow2(11) == 0x800,
        decreases x,
    {
        proof {
            lemma_pow2_unfold((k + 1) as nat);
            assert(k < 11) by {
                if k == 11 {
                    assert(x * 0x800 <= a);
                }
            }
            assert(g < 0x800) by {
                lemma_pow2_strictly_increases(k as nat, 11);
            }
            vstd::arithmetic::div_mod::lemma_div_denominator(a as int, g as int, 2);
            assert((x / 2) * (2 * g) <= a) by (nonlinear_arith)
                requires
                    x * g <= a,
                    (x / 2) * 2 <= x,
                    g >= 0,
            ;
            assert(g * 2 <= 0x800) by {
                if k + 1 < 11 {
                    lemma_pow2_strictly_increases((k + 1) as nat, 11);
                }
            }
        }
        x = x / 2;
        g = g * 2;
        k = k + 1;
    }
    proof {
        assert(excess_bits(x as nat) == 0);
        assert(k > 0);
        vstd::arithmetic::div_mod::lemma_fundamental_div_mod(a as int, g as int);
    }
    let rem: u64 = a % g;
    let up: bool = 2 * rem > g || (2 * rem == g && x % 2 == 1);
    let q: u64 = if up {
        x + 1
    } else {
        x
    };
    let r: u64 = sign + (1075 + k) * 0x10_0000_0000_0000 + (q - 0x10_0000_0000_0000);
    proof {
        assert(q == div_half_even(a as nat, g as nat));
        lemma_pow2_adds(k as nat, 1074);
        lemma_pow2_unfold((1075 + k) as nat);
        if q < 0x20_0000_0000_0000 {
            assert(f64_exponent(r) == 1075 + k);
            assert(f64_fraction(r) == q - 0x10_0000_0000_0000);
        } else {
            assert(f64_exponent(r) == 1076 + k);
            assert(f64_fraction(r) == 0);
        }
        assert(f64_units(r) == q * pow2((1074 + k) as nat)) by {
            if q == 0x20_0000_0000_0000 {
                assert(0x10_0000_0000_0000 * pow2((1075 + k) as nat) == 0x20_0000_0000_0000
                    * pow2((1074 + k) as nat));
            }
        }
        assert(q * pow2((1074 + k) as nat) == (q * g) * pow2(1074)) by (nonlinear_arith)
            requires
                g * pow2(1074) == pow2((1074 + k) as nat),
        ;
    }
    r
}

/// The integer that a double precision number is, without its sign, where it is one below 10^15.
pub fn f64_small_integer(b: u64) -> (r: Option<u64>)
    ensures
        r is Some <==> f64_finite(b) && exists|n: nat|
            n < 1_000_000_000_000_000 && f64_units(b) == #[trigger] (n * pow2(1074)),
        r is Some ==> r->Some_0 < 1_000_000_000_000_000 && f64_units(b) == r->Some_0 * pow2(1074),
{
    let e: u64 = (b / 0x10_0000_0000_0000) % 0x800;
    let m: u64 = b % 0x10_0000_0000_0000;
    proof {
        lemma2_to64();
        lemma2_to64_rest();
        lemma_pow2_pos(1074);
    }
    if e == 0x7ff {
        return None;
    }
    if e == 0 {
        if m == 0 {
            proof {
                assert(0 * pow2(1074) == 0) by (nonlinear_arith);
                assert(f64_units(b) == 0nat * pow2(1074));
            }
            return Some(0);
        }
        proof {
            lemma_pow2_strictly_increases(52, 1074);
            assert forall|n: nat| f64_units(b) != #[trigger] (n * pow2(1074)) by {
                lemma_no_multiple(m as nat, n, pow2(1074));
            }
        }
        return None;
    }
    let sig: u64 = 0x10_0000_0000_0000 + m;
    if e < 1023 {
        proof {
            lemma_pow2_adds(53, (e - 1) as nat);
            if 52 + e < 1074 {
                lemma_pow2_strictly_increases((52 + e) as nat, 1074);
            }
            lemma_pow2_pos((e - 1) as nat);
            assert(0 < sig * pow2((e - 1) as nat) < pow2(53) * pow2((e - 1) as nat))
                by (nonlinear_arith)
                requires
                    0 < sig < pow2(53),
                    0 < pow2((e - 1) as nat),
            ;
            assert forall|n: nat| f64_units(b) != #[trigger] (n * pow2(1074)) by {
                lemma_no_multiple(f64_units(b), n, pow2(1074));
            }
        }
        return None;
    }
    if e >= 1073 {
        proof {
            lemma_pow2_adds(50, 1074);
            if e - 1 + 52 > 1124 {
                lemma_pow2_strictly_increases(1124, (e - 1 + 52) as nat);
            }
            lemma_pow2_adds(52, (e - 1) as nat);
            assert(sig * pow2((e - 1) as nat) >= pow2(52) * pow2((e - 1) as nat))
                by (nonlinear_arith)
                requires
                    sig >= pow2(52),
            ;
            assert forall|n: nat| n < 1_000_000_000_000_000 implies f64_units(b) != #[trigger] (n
                * pow2(1074)) by {
                assert(n * pow2(1074) < pow2(50) * pow2(1074)) by (nonlinear_arith)
                    requires
                        n < pow2(50),
                        pow2(1074) > 0,
                ;
            }
        }
        return None;
    }
    let shift: u64 = 1075 - e;
    let mut g: u64 = 1;
    let mut i: u64 = 0;
    while i < shift
        invariant
            i <= shift <= 52,
            g == pow2(i as nat),
            g <= 0x10_0000_0000_0000,
            pow2(52) == 0x10_0000_0000_0000,
        decreases shift - i,
    {
        proof {
            lemma_pow2_unfold((i + 1) as nat);
            if i + 1 < 52 {
                lemma_pow2_strictly_increases((i + 1) as nat, 52);
            }
        }
        g = 2 * g;
        i = i + 1;
    }
    proof {
        lemma_pow2_adds((e - 1) as nat, shift as nat);
        lemma_pow2_pos((e - 1) as nat);
        lemma_pow2_pos(shift as nat);
        // `sig * 2^(e-1) == n * 2^1074` says the same as `sig == n * 2^shift`.
        assert forall|n: nat| f64_units(b) == #[trigger] (n * pow2(1074)) implies sig == n * g by {
            assert(sig == n * g) by (nonlinear_arith)
                requires
                    sig * pow2((e - 1) as nat) == n * pow2(1074),
                    pow2((e - 1) as nat) * g == pow2(1074),
                    pow2((e - 1) as nat) > 0,
            ;
            vstd::arithmetic::div_mod::lemma_div_multiples_vanish(n as int, g as int);
            vstd::arithmetic::div_mod::lemma_mod_multiples_basic(n as int, g as int);
        }
    }
    if sig % g != 0 {
        proof {
            assert forall|n: nat| f64_units(b) != #[trigger] (n * pow2(1074)) by {
                vstd::arithmetic::div_mod::lemma_mod_multiples_basic(n as int, g as int);
            }
        }
        return None;
    }
    let n: u64 = sig / g;
    proof {
        vstd::arithmetic::div_mod::lemma_fundamental_div_mod(sig as int, g as int);
        assert(sig * pow2((e - 1) as nat) == n * pow2(1074)) by (nonlinear_arith)
            requires
                sig == g * n,
                pow2((e - 1) as nat) * g == pow2(1074),
        ;
    }
    if n >= 1_000_000_000_000_000 {
        proof {
            assert forall|k: nat| k < 1_000_000_000_000_000 implies f64_units(b) != #[trigger] (k
                * pow2(1074)) by {
                assert(k * pow2(1074) < n * pow2(1074)) by (nonlinear_arith)
                    requires
                        k < n,
                        pow2(1074) > 0,
                ;
            }
        }
        return None;
    }
    proof {
        let k: nat = n as nat;
        assert(f64_units(b) == k * pow2(1074));
    }
    Some(n)
}

/// A positive number below `p` is no multiple of `p`.
proof fn lemma_no_multiple(a: nat, n: nat, p: nat)
    requires
        0 < a < p,
    ensures
        a != n * p,
{
    if n > 0 {
        assert(n * p >= p) by (nonlinear_arith)
            requires
                n >= 1,
        ;
    } else {
        assert(n * p == 0) by (nonlinear_arith)
            requires
                n == 0,
        ;
    }
}

// ---------------------------------------------------------------------------------------------
// Narrowing to half precision
// ---------------------------------------------------------------------------------------------

/// A quotient rounded to the nearest integer, a tie upwards.
pub open spec fn div_half_up(a: nat, g: nat) -> nat {
    (a + g / 2) / g
}

/// The distance between neighbouring half precision numbers around a single precision number,
/// in units of 2^-149.
pub open spec fn f16_step(b: u32) -> nat {
    if f32_exponent(b) > 0x71 {
        pow2((f32_exponent(b) + 12) as nat)
    } else {
        pow2(125)
    }
}

/// The magnitude that a finite single precision number has when it is rounded to the nearest
/// half precision number, a tie away from zero, in units of 2^-149.
pub open spec fn round_to_f16(b: u32) -> nat {
    div_half_up(f32_units(b), f16_step(b)) * f16_step(b)
}

/// Whether `r` is the half precision number nearest to `b`, a tie away from zero. What rounds to
/// 65536 or more becomes infinite; a NaN becomes the quiet NaN of the same sign.
pub open spec fn narrows_f32(b: u32, r: u16) -> bool {
    &&& f16_negative(r) == f32_negative(b)
    &&& if f32_nan(b) {
        r % 0x8000 == 0x7e00
    } else if !f32_finite(b) || round_to_f16(b) >= pow2(165) {
        r % 0x8000 == 0x7c00
    } else {
        f16_finite(r) && f16_units(r) * pow2(125) == round_to_f16(b)
    }
}

/// The half precision number nearest to a single precision number.
pub fn f32_bits_to_f16(b: u32) -> (r: u16)
    ensures
        narrows_f32(b, r),
{
    let sign: u16 = if b >= 0x8000_0000 {
        0x8000
    } else {
        0
    };
    let e: u32 = (b / 0x80_0000) % 0x100;
    let m: u32 = b % 0x80_0000;
    proof {
        lemma2_to64();
        lemma2_to64_rest();
        lemma_pow2_pos(125);
    }
    if e == 0xff {
        if m != 0 {
            return sign + 0x7e00;
        }
        return sign + 0x7c00;
    }
    if e > 0x70 {
        let raw: u32 = 0x80_0000 + m;
        let q: u32 = (raw + 0x1000) / 0x2000;
        proof {
            lemma_round_normal(b, e, raw, q);
        }
        if e > 0x8e {
            proof {
                lemma_pow2_adds(10, (e + 12) as nat);
                if e > 0x8f {
                    lemma_pow2_strictly_increases(165, (e + 22) as nat);
                }
                assert(q * pow2((e + 12) as nat) >= pow2(10) * pow2((e + 12) as nat))
                    by (nonlinear_arith)
                    requires
                        q >= pow2(10),
                ;
            }
            return sign + 0x7c00;
        }
        let f: u16 = (e - 0x70) as u16;
        let r: u16 = sign + f * 0x400 + (q - 0x400) as u16;
        proof {
            let low: u16 = (r - sign) as u16;
            lemma_packed_f16(f, q, low);
            assert(f16_exponent(r) == f16_exponent(low));
            assert(f16_fraction(r) == f16_fraction(low));
            assert(pow2((f + 124) as nat) == pow2((e + 12) as nat));
        }
        return r;
    }
    if e < 0x66 {
        proof {
            lemma_round_tiny(b, e, m);
        }
        return sign;
    }
    let raw: u32 = 0x80_0000 + m;
    let shift: u32 = 126 - e;
    let g: u32 = power_of_two(shift);
    proof {
        lemma_round_small(b, e, raw, g);
    }
    let q: u32 = (raw + g / 2) / g;
    let r: u16 = sign + q as u16;
    proof {
        if q < 0x400 {
            assert(f16_exponent(r) == 0);
            assert(f16_fraction(r) == q);
        } else {
            assert(q == 0x400);
            assert(f16_exponent(r) == 1);
            assert(f16_fraction(r) == 0);
            assert(pow2(10) * pow2(0) == 0x400);
        }
        assert(f16_units(r) == q);
        lemma_pow2_adds(10, 125);
        lemma_pow2_strictly_increases(135, 165);
        assert(q * pow2(125) <= pow2(10) * pow2(125)) by (nonlinear_arith)
            requires
                q <= pow2(10),
                pow2(125) > 0,
        ;
    }
    r
}

/// A significand `q` of eleven bits, or the one above them, under the exponent field `f`.
proof fn lemma_packed_f16(f: u16, q: u32, r: u16)
    requires
        1 <= f <= 30,
        0x400 <= q <= 0x800,
        r == f * 0x400 + (q - 0x400),
    ensures
        r <= 0x7c00,
        q * pow2((f + 124) as nat) < pow2(165) ==> f16_finite(r) && f16_units(r) * pow2(125) == q
            * pow2((f + 124) as nat),
        q * pow2((f + 124) as nat) >= pow2(165) ==> r == 0x7c00,
{
    lemma2_to64();
    let p = pow2((f - 1) as nat);
    let big = pow2((f + 124) as nat);
    lemma_pow2_pos((f + 124) as nat);
    lemma_pow2_adds(125, (f - 1) as nat);
    lemma_pow2_adds(11, (f + 124) as nat);
    assert((q * p) * pow2(125) == q * big) by (nonlinear_arith)
        requires
            pow2(125) * p == big,
    ;
    if q < 0x800 {
        assert(f16_exponent(r) == f);
        assert(f16_fraction(r) == q - 0x400);
        assert(f16_units(r) == q * p);
        if f < 30 {
            lemma_pow2_strictly_increases((f + 135) as nat, 165);
        }
        assert(q * big < pow2(11) * big) by (nonlinear_arith)
            requires
                q < pow2(11),
                big > 0,
        ;
    } else {
        assert(r == (f + 1) * 0x400);
        assert(f16_exponent(r) == f + 1);
        assert(f16_fraction(r) == 0);
        lemma_pow2_unfold(f as nat);
        assert(q * big == pow2((f + 135) as nat));
        if f < 30 {
            lemma_pow2_strictly_increases((f + 135) as nat, 165);
            assert(f16_units(r) == 0x400 * pow2(f as nat));
            assert(f16_units(r) == q * p) by (nonlinear_arith)
                requires
                    f16_units(r) == 0x400 * pow2(f as nat),
                    pow2(f as nat) == 2 * p,
                    q == 0x800,
            ;
        }
    }
}

/// Dividing both sides by a common factor leaves a rounded quotient as it is.
proof fn lemma_half_up_scale(a: nat, g: nat, p: nat)
    requires
        p > 0,
        g >= 2,
        g % 2 == 0,
    ensures
        div_half_up(a * p, g * p) == div_half_up(a, g),
{
    assert((g * p) / 2 == (g / 2) * p) by (nonlinear_arith)
        requires
            g % 2 == 0,
    ;
    assert(a * p + (g / 2) * p == (a + g / 2) * p) by (nonlinear_arith);
    vstd::arithmetic::div_mod::lemma_div_multiples_vanish_quotient(
        p as int,
        (a + g / 2) as int,
        g as int,
    );
    assert(p * (a + g / 2) == (a + g / 2) * p && p * g == g * p) by (nonlinear_arith);
}

proof fn lemma_round_normal(b: u32, e: u32, raw: u32, q: u32)
    requires
        e == f32_exponent(b),
        0x70 < e < 0xff,
        raw == 0x80_0000 + f32_fraction(b),
        q == (raw + 0x1000) / 0x2000,
    ensures
        0x400 <= q <= 0x800,
        round_to_f16(b) == q * pow2((e + 12) as nat),
        pow2((e + 12) as nat) > 0,
{
    lemma2_to64();
    lemma2_to64_rest();
    lemma_pow2_pos((e + 12) as nat);
    lemma_pow2_pos((e - 1) as nat);
    lemma_pow2_adds(13, (e - 1) as nat);
    assert(f16_step(b) == 0x2000 * pow2((e - 1) as nat));
    assert(f32_units(b) == raw * pow2((e - 1) as nat));
    lemma_half_up_scale(raw as nat, 0x2000, pow2((e - 1) as nat));
}

proof fn lemma_round_small(b: u32, e: u32, raw: u32, g: u32)
    requires
        e == f32_exponent(b),
        0x66 <= e <= 0x70,
        raw == 0x80_0000 + f32_fraction(b),
        g == pow2((126 - e) as nat),
    ensures
        0x4000 <= g <= 0x100_0000,
        (raw + g / 2) / g as int <= 0x400,
        round_to_f16(b) == ((raw + g / 2) / g as int) * pow2(125),
{
    lemma2_to64();
    lemma2_to64_rest();
    lemma_pow2_pos((e - 1) as nat);
    lemma_pow2_adds((126 - e) as nat, (e - 1) as nat);
    if e < 0x70 {
        lemma_pow2_strictly_increases(14, (126 - e) as nat);
    }
    if e > 0x66 {
        lemma_pow2_strictly_increases((126 - e) as nat, 24);
    }
    lemma_pow2_unfold((126 - e) as nat);
    assert(f32_units(b) == raw * pow2((e - 1) as nat));
    lemma_half_up_scale(raw as nat, g as nat, pow2((e - 1) as nat));
    assert((raw + g / 2) / g as int <= 0x400) by (nonlinear_arith)
        requires
            raw < 0x100_0000,
            g >= 0x4000,
    ;
}

proof fn lemma_round_tiny(b: u32, e: u32, m: u32)
    requires
        e == f32_exponent(b),
        e < 0x66,
        m == f32_fraction(b),
    ensures
        round_to_f16(b) == 0,
        pow2(165) > 0,
        f16_units(0) == 0,
        f16_units(0x8000) == 0,
        0 * pow2(125) == 0,
{
    lemma2_to64();
    lemma2_to64_rest();
    lemma_pow2_pos(165);
    lemma_pow2_unfold(125);
    lemma_pow2_pos(124);
    assert(f32_units(b) < pow2(124)) by {
        if e == 0 {
            lemma_pow2_strictly_increases(23, 124);
        } else {
            lemma_pow2_adds(24, (e - 1) as nat);
            if 23 + e < 124 {
                lemma_pow2_strictly_increases((23 + e) as nat, 124);
            }
            lemma_pow2_pos((e - 1) as nat);
            assert((0x80_0000 + m) * pow2((e - 1) as nat) < pow2(24) * pow2((e - 1) as nat))
                by (nonlinear_arith)
                requires
                    0x80_0000 + m < pow2(24),
                    pow2((e - 1) as nat) > 0,
            ;
        }
    }
    vstd::arithmetic::div_mod::lemma_basic_div(
        (f32_units(b) + pow2(125) / 2) as int,
        pow2(125) as int,
    );
    assert(0 * pow2(125) == 0) by (nonlinear_arith);
}

// ---------------------------------------------------------------------------------------------
// Order
// ---------------------------------------------------------------------------------------------

/// An integer by which single precision numbers other than NaNs are ordered; the two zeros
/// share one.
pub open spec fn f32_rank(b: u32) -> int {
    if f32_negative(b) {
        -(b as int - 0x8000_0000)
    } else {
        b as int
    }
}

/// [`f32_rank`], computed.
pub fn f32_key(b: u32) -> (r: i64)
    ensures
        r == f32_rank(b),
{
    if b >= 0x8000_0000 {
        -((b - 0x8000_0000) as i64)
    } else {
        b as i64
    }
}

/// Whether `a >= b` as single precision numbers; a NaN is not comparable.
pub open spec fn f32_at_least(a: u32, b: u32) -> bool {
    !f32_nan(a) && !f32_nan(b) && f32_rank(a) >= f32_rank(b)
}

/// Whether a pattern is a NaN.
pub fn f32_is_nan(b: u32) -> (r: bool)
    ensures
        r == f32_nan(b),
{
    (b / 0x80_0000) % 0x100 == 0xff && b % 0x80_0000 != 0
}

/// Whether `a >= b` as single precision numbers.
pub fn f32_ge(a: u32, b: u32) -> (r: bool)
    ensures
        r == f32_at_least(a, b),
{
    !f32_is_nan(a) && !f32_is_nan(b) && f32_key(a) >= f32_key(b)
}

/// A larger pattern without its sign is a larger magnitude.
proof fn lemma_magnitude_grows(a: u32, b: u32)
    requires
        a < b < 0x7f80_0000,
    ensures
        f32_units(a) < f32_units(b),
{
    lemma2_to64();
    lemma2_to64_rest();
    assert(a == f32_exponent(a) * 0x80_0000 + f32_fraction(a));
    assert(b == f32_exponent(b) * 0x80_0000 + f32_fraction(b));
    lemma_magnitude_order(
        f32_exponent(a),
        f32_fraction(a),
        f32_exponent(b),
        f32_fraction(b),
        23,
    );
}

/// A number without its sign.
proof fn lemma_without_sign(a: u32) -> (r: u32)
    requires
        f32_finite(a),
    ensures
        r < 0x7f80_0000,
        a == r || a == r + 0x8000_0000,
        f32_units(a) == f32_units(r),
{
    let r: u32 = if a >= 0x8000_0000 {
        (a - 0x8000_0000) as u32
    } else {
        a
    };
    assert(f32_exponent(r) == f32_exponent(a));
    assert(f32_fraction(r) == f32_fraction(a));
    assert(r == f32_exponent(r) * 0x80_0000 + f32_fraction(r));
    r
}

/// The rank orders finite numbers as their values do.
pub proof fn f32_rank_is_value_order(a: u32, b: u32)
    requires
        f32_finite(a),
        f32_finite(b),
    ensures
        f32_rank(a) <= f32_rank(b) <==> f32_value(a) <= f32_value(b),
{
    let la = lemma_without_sign(a);
    let lb = lemma_without_sign(b);
    let (ua, ub) = (f32_units(a), f32_units(b));
    assert(f32_units(0) == 0);
    assert(la < lb ==> ua < ub) by {
        if la < lb {
            lemma_magnitude_grows(la, lb);
        }
    }
    assert(lb < la ==> ub < ua) by {
        if lb < la {
            lemma_magnitude_grows(lb, la);
        }
    }
    assert(0 < la ==> 0 < ua) by {
        if 0 < la {
            lemma_magnitude_grows(0, la);
        }
    }
    assert(0 < lb ==> 0 < ub) by {
        if 0 < lb {
            lemma_magnitude_grows(0, lb);
        }
    }
}

// ---------------------------------------------------------------------------------------------
// Half precision there and back
// ---------------------------------------------------------------------------------------------

proof fn lemma_exponent_of_widened(h: u16, b: u32)
    requires
        f16_finite(h),
        f16_exponent(h) > 0,
        widens_f16(h, b),
    ensures
        f32_exponent(b) == f16_exponent(h) + 112,
{
    lemma2_to64();
    lemma2_to64_rest();
    let e = f16_exponent(h);
    let m = f16_fraction(h);
    lemma_pow2_adds((e - 1) as nat, 125);
    lemma_pow2_adds(13, (e + 111) as nat);
    assert((pow2(23) + m * 0x2000) * pow2((e + 111) as nat) == ((pow2(10) + m) * pow2(
        (e - 1) as nat,
    )) * pow2(125)) by (nonlinear_arith)
        requires
            pow2(23) == 0x80_0000,
            pow2(10) == 0x400,
            0x2000 * pow2((e + 111) as nat) == pow2((e + 124) as nat),
            pow2((e - 1) as nat) * pow2(125) == pow2((e + 124) as nat),
    ;
    assert(magnitude(e + 112, m * 0x2000, 23) == f32_units(b));
    let (eb, mb) = (f32_exponent(b), f32_fraction(b));
    if eb < e + 112 {
        lemma_magnitude_order(eb, mb, e + 112, m * 0x2000, 23);
    }
    if eb > e + 112 {
        lemma_magnitude_order(e + 112, m * 0x2000, eb, mb, 23);
    }
}

/// Rounding a whole number of steps changes nothing.
proof fn lemma_half_up_exact(j: nat, g: nat)
    requires
        g >= 2,
    ensures
        div_half_up(j * g, g) == j,
{
    assert(j * g + g / 2 == g * j + g / 2) by (nonlinear_arith);
    vstd::arithmetic::div_mod::lemma_fundamental_div_mod_converse(
        (j * g + g / 2) as int,
        g as int,
        j as int,
        (g / 2) as int,
    );
}

/// Widening a half precision number and narrowing it again gives it back, whatever it is but a
/// NaN.
pub proof fn f16_survives_widening(h: u16, b: u32, r: u16)
    requires
        !f16_nan(h),
        widens_f16(h, b),
        narrows_f32(b, r),
    ensures
        r == h,
{
    lemma2_to64();
    lemma2_to64_rest();
    if f16_finite(h) {
        let e = f16_exponent(h);
        let m = f16_fraction(h);
        let u = f16_units(h);
        lemma_pow2_pos(125);
        lemma_pow2_unfold(125);
        lemma_pow2_pos(124);
        if e > 0 {
            lemma_exponent_of_widened(h, b);
            let s = pow2((e + 124) as nat);
            lemma_pow2_pos((e + 123) as nat);
            lemma_pow2_unfold((e + 124) as nat);
            lemma_pow2_adds((e - 1) as nat, 125);
            assert(f16_step(b) == s);
            assert(u * pow2(125) == (pow2(10) + m) * s) by (nonlinear_arith)
                requires
                    u == (pow2(10) + m) * pow2((e - 1) as nat),
                    pow2((e - 1) as nat) * pow2(125) == s,
            ;
            lemma_half_up_exact(pow2(10) + m, s);
            lemma_pow2_adds(11, (e + 124) as nat);
            if e + 135 < 165 {
                lemma_pow2_strictly_increases((e + 135) as nat, 165);
            }
            assert((pow2(10) + m) * s < pow2(11) * s) by (nonlinear_arith)
                requires
                    pow2(10) + m < pow2(11),
                    s > 0,
            ;
        } else {
            let eb = f32_exponent(b);
            lemma_pow2_adds(10, 125);
            assert(u * pow2(125) < pow2(10) * pow2(125)) by (nonlinear_arith)
                requires
                    u < pow2(10),
                    pow2(125) > 0,
            ;
            if eb > 0x71 {
                lemma_pow2_adds(23, (eb - 1) as nat);
                lemma_pow2_strictly_increases(135, (eb + 22) as nat);
                assert((pow2(23) + f32_fraction(b)) * pow2((eb - 1) as nat) >= pow2(23) * pow2(
                    (eb - 1) as nat,
                )) by (nonlinear_arith);
            }
            lemma_half_up_exact(u, pow2(125));
            lemma_pow2_strictly_increases(135, 165);
        }
        assert(f16_units(r) == u) by (nonlinear_arith)
            requires
                f16_units(r) * pow2(125) == u * pow2(125),
                pow2(125) > 0,
        ;
        let (er, mr) = (f16_exponent(r), f16_fraction(r));
        if er < e || (er == e && mr < m) {
            lemma_magnitude_order(er, mr, e, m, 10);
        }
        if e < er || (er == e && m < mr) {
            lemma_magnitude_order(e, m, er, mr, 10);
        }
        assert(h % 0x8000 == e * 0x400 + m);
        assert(r % 0x8000 == er * 0x400 + mr);
    } else {
        assert(h % 0x8000 == 0x7c00);
        assert(!f32_nan(b) && !f32_finite(b));
    }
}

// ---------------------------------------------------------------------------------------------
// Down to 32-bit integers
// ---------------------------------------------------------------------------------------------

/// A number, or the largest one of 32 bits where it is larger than that.
pub open spec fn saturated_u32(n: nat) -> u32 {
    if n <= u32::MAX {
        n as u32
    } else {
        u32::MAX
    }
}

/// Two to the power `n`, in 64 bits.
fn power_of_two_64(n: u32) -> (r: u64)
    requires
        n < 64,
    ensures
        r == pow2(n as nat),
        r > 0,
{
    let mut r: u64 = 1;
    let mut i: u32 = 0;
    proof {
        lemma2_to64();
    }
    while i < n
        invariant
            i <= n < 64,
            r == pow2(i as nat),
            r > 0,
        decreases n - i,
    {
        proof {
            lemma_pow2_unfold((i + 1) as nat);
            lemma2_to64_rest();
            if i + 1 < 63 {
                lemma_pow2_strictly_increases((i + 1) as nat, 63);
            }
        }
        r = 2 * r;
        i = i + 1;
    }
    r
}

/// The whole part of `s * 2^(total - k) / 2^total`, for `k <= total`.
proof fn lemma_whole_part(s: nat, k: nat, total: nat)
    requires
        k <= total,
    ensures
        (s * pow2((total - k) as nat)) / pow2(total) == s / pow2(k),
        (s * pow2((total - k) as nat)) % pow2(total) == (s % pow2(k)) * pow2((total - k) as nat),
        pow2(k) > 0,
        pow2(total) > 0,
        pow2((total - k) as nat) > 0,
{
    lemma_pow2_pos(k);
    lemma_pow2_pos(total);
    lemma_pow2_pos((total - k) as nat);
    lemma_pow2_adds((total - k) as nat, k);
    let p = pow2((total - k) as nat);
    vstd::arithmetic::div_mod::lemma_div_multiples_vanish_quotient(
        p as int,
        s as int,
        pow2(k) as int,
    );
    assert(p * s == s * p) by (nonlinear_arith);
    vstd::arithmetic::div_mod::lemma_fundamental_div_mod(s as int, pow2(k) as int);
    vstd::arithmetic::div_mod::lemma_fundamental_div_mod((s * p) as int, pow2(total) as int);
    let q = s / pow2(k);
    let r = s % pow2(k);
    assert(s * p == (pow2(k) * q) * p + r * p) by (nonlinear_arith)
        requires
            s == pow2(k) * q + r,
    ;
    assert((pow2(k) * q) * p == pow2(total) * q) by (nonlinear_arith)
        requires
            pow2(total) == p * pow2(k),
    ;
}

/// The whole part of a double precision number that is finite and not negative, as far as 32 bits
/// go.
pub open spec fn f64_whole_u32(b: u64) -> u32 {
    saturated_u32(f64_units(b) / pow2(1074))
}

/// The whole part of a double precision number, at most 2^32 - 1.
pub fn f64_to_u32(b: u64) -> (r: u32)
    requires
        f64_finite(b),
    ensures
        r == f64_whole_u32(b),
{
    let e: u64 = (b / 0x10_0000_0000_0000) % 0x800;
    let m: u64 = b % 0x10_0000_0000_0000;
    proof {
        lemma2_to64();
        lemma2_to64_rest();
        lemma_pow2_pos(1074);
    }
    if e == 0 {
        proof {
            lemma_pow2_strictly_increases(52, 1074);
            vstd::arithmetic::div_mod::lemma_basic_div(m as int, pow2(1074) as int);
        }
        return 0;
    }
    let sig: u64 = 0x10_0000_0000_0000 + m;
    if e < 1023 {
        proof {
            let k: nat = (1075 - e) as nat;
            lemma_whole_part(sig as nat, k, 1074);
            if k > 53 {
                lemma_pow2_strictly_increases(53, k);
            }
            vstd::arithmetic::div_mod::lemma_basic_div(sig as int, pow2(k) as int);
        }
        return 0;
    }
    if e >= 1055 {
        proof {
            let p = pow2((e - 1) as nat);
            lemma_pow2_adds(52, (e - 1) as nat);
            lemma_pow2_adds(32, 1074);
            if 51 + e > 1106 {
                lemma_pow2_strictly_increases(1106, (51 + e) as nat);
            }
            lemma_pow2_pos((e - 1) as nat);
            assert(sig * p >= pow2(52) * p) by (nonlinear_arith)
                requires
                    sig >= pow2(52),
            ;
            vstd::arithmetic::div_mod::lemma_div_is_ordered(
                (pow2(32) * pow2(1074)) as int,
                (sig * p) as int,
                pow2(1074) as int,
            );
            vstd::arithmetic::div_mod::lemma_div_multiples_vanish(
                pow2(32) as int,
                pow2(1074) as int,
            );
            assert(pow2(1074) * pow2(32) == pow2(32) * pow2(1074)) by (nonlinear_arith);
        }
        return u32::MAX;
    }
    let shift: u32 = (1075 - e) as u32;
    let g: u64 = power_of_two_64(shift);
    proof {
        lemma_whole_part(sig as nat, shift as nat, 1074);
        if shift > 21 {
            lemma_pow2_strictly_increases(21, shift as nat);
        }
        assert(sig / g <= u32::MAX) by (nonlinear_arith)
            requires
                sig < 0x20_0000_0000_0000,
                g >= 0x20_0000,
        ;
    }
    (sig / g) as u32
}

/// One ten-thousandth as a single precision number, in units of 2^-149.
pub open spec fn tolerance() -> nat {
    13743895 * pow2(112)
}

/// Whether a finite single precision number is closer than [`tolerance`] to an integer.
pub open spec fn f32_near_integer(b: u32) -> bool {
    let r = f32_units(b) % pow2(149);
    r < tolerance() || pow2(149) - r < tolerance()
}

/// The whole part of a finite single precision number that is not negative, as far as 32 bits go.
pub open spec fn f32_whole_u32(b: u32) -> u32 {
    saturated_u32(f32_units(b) / pow2(149))
}

/// The whole part of a single precision number, at most 2^32 - 1, and whether the number is close
/// to an integer.
pub fn f32_to_u32(b: u32) -> (r: (u32, bool))
    requires
        f32_finite(b),
    ensures
        r.0 == f32_whole_u32(b),
        r.1 == f32_near_integer(b),
{
    let e: u32 = (b / 0x80_0000) % 0x100;
    let m: u32 = b % 0x80_0000;
    proof {
        lemma2_to64();
        lemma2_to64_rest();
        lemma_pow2_pos(149);
        lemma_pow2_pos(112);
    }
    if e == 0 {
        proof {
            lemma_pow2_strictly_increases(23, 149);
            lemma_pow2_strictly_increases(23, 112);
            vstd::arithmetic::div_mod::lemma_basic_div(m as int, pow2(149) as int);
            vstd::arithmetic::div_mod::lemma_small_mod(m as nat, pow2(149));
            assert(m < 13743895 * pow2(112)) by (nonlinear_arith)
                requires
                    m < pow2(112),
            ;
        }
        return (0, true);
    }
    let sig: u32 = 0x80_0000 + m;
    if e >= 150 {
        proof {
            lemma_whole_multiple(sig as nat, (e - 150) as nat);
            assert(0 < tolerance()) by (nonlinear_arith)
                requires
                    tolerance() == 13743895 * pow2(112),
                    pow2(112) > 0,
            ;
        }
        if e >= 159 {
            proof {
                let p = pow2((e - 150) as nat);
                if e > 159 {
                    lemma_pow2_strictly_increases(9, (e - 150) as nat);
                }
                assert(sig * p > u32::MAX) by (nonlinear_arith)
                    requires
                        sig >= 0x80_0000,
                        p >= 0x200,
                ;
            }
            return (u32::MAX, true);
        }
        let g: u64 = power_of_two_64(e - 150);
        proof {
            if e < 158 {
                lemma_pow2_strictly_increases((e - 150) as nat, 8);
            }
            assert(sig * g <= u32::MAX) by (nonlinear_arith)
                requires
                    sig < 0x100_0000,
                    g <= 0x100,
            ;
        }
        return ((sig as u64 * g) as u32, true);
    }
    let k: u32 = 150 - e;
    proof {
        lemma_whole_part(sig as nat, k as nat, 149);
    }
    if k <= 24 {
        let g: u64 = power_of_two_64(k);
        let s: u64 = sig as u64;
        let rem: u64 = s % g;
        let t: u64 = power_of_two_64(37 - k);
        let other: u64 = g - rem;
        proof {
            if k < 24 {
                lemma_pow2_strictly_increases(k as nat, 24);
            }
            if k > 1 {
                lemma_pow2_strictly_increases((37 - k) as nat, 36);
            }
            assert(rem * t <= 0x100_0000 * 0x10_0000_0000) by (nonlinear_arith)
                requires
                    rem <= 0x100_0000,
                    t <= 0x10_0000_0000,
            ;
            assert(other * t <= 0x100_0000 * 0x10_0000_0000) by (nonlinear_arith)
                requires
                    other <= 0x100_0000,
                    t <= 0x10_0000_0000,
            ;
            lemma_pow2_adds((37 - k) as nat, 112);
            lemma_pow2_adds(k as nat, (149 - k) as nat);
            lemma_tolerance(rem as nat, t as nat);
            lemma_tolerance(other as nat, t as nat);
            let p = pow2((149 - k) as nat);
            assert(pow2(149) - rem * p == other * p) by (nonlinear_arith)
                requires
                    pow2(149) == g * p,
                    other == g - rem,
            ;
            assert(p == t * pow2(112));
            assert(rem * p == (rem * t) * pow2(112)) by (nonlinear_arith)
                requires
                    p == t * pow2(112),
            ;
            assert(other * p == (other * t) * pow2(112)) by (nonlinear_arith)
                requires
                    p == t * pow2(112),
            ;
            assert(s / g <= s) by (nonlinear_arith)
                requires
                    g >= 1,
            ;
        }
        return ((s / g) as u32, rem * t < 13743895 || other * t < 13743895);
    }
    proof {
        lemma_pow2_strictly_increases(24, k as nat);
        if k > 25 {
            lemma_pow2_strictly_increases(25, k as nat);
        }
        vstd::arithmetic::div_mod::lemma_basic_div(sig as int, pow2(k as nat) as int);
        vstd::arithmetic::div_mod::lemma_small_mod(sig as nat, pow2(k as nat));
        // More than half an integer away from the next one.
        let p = pow2((149 - k) as nat);
        lemma_pow2_unfold(k as nat);
        lemma_pow2_adds(k as nat, (149 - k) as nat);
        lemma_pow2_unfold(149);
        lemma_pow2_adds(36, 112);
        assert(pow2(149) - sig * p >= pow2(148)) by (nonlinear_arith)
            requires
                pow2(149) == pow2(k as nat) * p,
                pow2(149) == 2 * pow2(148),
                2 * sig <= pow2(k as nat),
        ;
        assert(tolerance() < pow2(148)) by (nonlinear_arith)
            requires
                tolerance() == 13743895 * pow2(112),
                pow2(148) == 0x10_0000_0000 * pow2(112),
                pow2(112) > 0,
        ;
    }
    if k >= 38 {
        proof {
            let p = pow2((149 - k) as nat);
            if k > 38 {
                lemma_pow2_strictly_increases((149 - k) as nat, 111);
            }
            lemma_pow2_unfold(112);
            lemma_pow2_pos(111);
            assert(sig * p < 13743895 * pow2(112)) by (nonlinear_arith)
                requires
                    sig < 0x100_0000,
                    p <= pow2(111),
                    pow2(112) == 2 * pow2(111),
                    pow2(111) > 0,
            ;
        }
        return (0, true);
    }
    let t: u64 = power_of_two_64(37 - k);
    proof {
        if k > 25 {
            lemma_pow2_strictly_increases((37 - k) as nat, 12);
        }
        assert(sig * t <= 0x100_0000 * 0x1000) by (nonlinear_arith)
            requires
                sig <= 0x100_0000,
                t <= 0x1000,
        ;
        lemma_pow2_adds((37 - k) as nat, 112);
        lemma_tolerance(sig as nat, t as nat);
        let p = pow2((149 - k) as nat);
        assert(sig * p == (sig * t) * pow2(112)) by (nonlinear_arith)
            requires
                p == t * pow2(112),
        ;
    }
    (0, sig as u64 * t < 13743895)
}

proof fn lemma_tolerance(x: nat, t: nat)
    ensures
        (x * t) * pow2(112) < tolerance() <==> x * t < 13743895,
{
    lemma_pow2_pos(112);
    let y = x * t;
    if y < 13743895 {
        assert(y * pow2(112) < 13743895 * pow2(112)) by (nonlinear_arith)
            requires
                y < 13743895,
                pow2(112) > 0,
        ;
    } else {
        assert(y * pow2(112) >= 13743895 * pow2(112)) by (nonlinear_arith)
            requires
                y >= 13743895,
        ;
    }
}

/// `s * 2^(149 + k)` is the integer `s * 2^k` in units of 2^-149.
proof fn lemma_whole_multiple(s: nat, k: nat)
    ensures
        (s * pow2(149 + k)) / pow2(149) == s * pow2(k),
        (s * pow2(149 + k)) % pow2(149) == 0,
{
    lemma_pow2_pos(149);
    lemma_pow2_adds(149, k);
    let n = s * pow2(k);
    assert(s * pow2(149 + k) == n * pow2(149)) by (nonlinear_arith)
        requires
            pow2(149 + k) == pow2(149) * pow2(k),
            n == s * pow2(k),
    ;
    vstd::arithmetic::div_mod::lemma_div_multiples_vanish(n as int, pow2(149) as int);
    vstd::arithmetic::div_mod::lemma_mod_multiples_basic(n as int, pow2(149) as int);
    assert(pow2(149) * n == n * pow2(149)) by (nonlinear_arith);
}

} // verus!
