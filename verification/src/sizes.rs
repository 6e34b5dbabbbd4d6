//! Numbers for people: grouped digits and sizes in larger units.
use vstd::prelude::*;
use vstd::string::*;
use crate::float::{div_half_even, excess_bits, round_to_f64};
use crate::text::{dec, digit_char, push_dec};
use vstd::arithmetic::power2::*;

verus! {

/// The three digits of a number below a thousand.
pub open spec fn three_digits(n: nat) -> Seq<char> {
    seq![
        digit_char((n / 100) as int),
        digit_char((n / 10 % 10) as int),
        digit_char((n % 10) as int),
    ]
}

/// A number in decimal with a comma between groups of three digits.
pub open spec fn grouped(n: nat) -> Seq<char>
    decreases n,
{
    if n < 1000 {
        dec(n)
    } else {
        grouped(n / 1000) + seq![','] + three_digits(n % 1000)
    }
}

fn digit_of(d: u64) -> (c: char)
    requires
        d < 10,
    ensures
        c == digit_char(d as int),
{
    (48 + d as u8) as char
}

fn push_grouped(out: &mut String, n: u64)
    ensures
        final(out)@ == old(out)@ + grouped(n as nat),
    decreases n,
{
    if n < 1000 {
        push_dec(out, n);
    } else {
        let ghost start = out@;
        push_grouped(out, n / 1000);
        out.push(',');
        let rest: u64 = n % 1000;
        out.push(digit_of(rest / 100));
        out.push(digit_of(rest / 10 % 10));
        out.push(digit_of(rest % 10));
        assert(out@ =~= start + grouped(n as nat));
    }
}

/// A number in decimal with a comma between groups of three digits.
pub fn with_commas(n: u64) -> (r: String)
    ensures
        r@ == grouped(n as nat),
{
    let mut r = String::new();
    push_grouped(&mut r, n);
    assert(r@ =~= grouped(n as nat));
    r
}

/// A text without its commas.
pub open spec fn without_commas(s: Seq<char>) -> Seq<char>
    decreases s.len(),
{
    if s.len() == 0 {
        s
    } else if s.last() == ',' {
        without_commas(s.drop_last())
    } else {
        without_commas(s.drop_last()).push(s.last())
    }
}

proof fn lemma_without_commas_concat(a: Seq<char>, b: Seq<char>)
    ensures
        without_commas(a + b) == without_commas(a) + without_commas(b),
    decreases b.len(),
{
    if b.len() == 0 {
        assert(a + b =~= a);
        assert(without_commas(a) + without_commas(b) =~= without_commas(a));
    } else {
        lemma_without_commas_concat(a, b.drop_last());
        assert((a + b).drop_last() =~= a + b.drop_last());
        assert((a + b).last() == b.last());
        assert(without_commas(a + b) =~= without_commas(a) + without_commas(b));
    }
}

proof fn lemma_digits_stay(n: nat)
    ensures
        without_commas(dec(n)) == dec(n),
    decreases n,
{
    reveal_with_fuel(without_commas, 2);
    if n < 10 {
        let s = dec(n);
        assert(s.drop_last() =~= Seq::<char>::empty());
        assert(without_commas(s) =~= s);
    } else {
        lemma_digits_stay(n / 10);
        let s = dec(n);
        assert(s.drop_last() =~= dec(n / 10));
        assert(without_commas(s) =~= s);
    }
}

proof fn lemma_three_digits_stay(n: nat)
    requires
        n < 1000,
    ensures
        without_commas(three_digits(n)) == three_digits(n),
{
    reveal_with_fuel(without_commas, 2);
    let s = three_digits(n);
    let a = s.drop_last();
    let b = a.drop_last();
    assert(b.drop_last() =~= Seq::<char>::empty());
    assert(without_commas(b) =~= b);
    assert(without_commas(a) =~= a);
    assert(without_commas(s) =~= s);
}

/// The decimal digits of a number from a thousand on: those of its thousands, and three more.
proof fn lemma_last_three(n: nat)
    requires
        n >= 1000,
    ensures
        dec(n) == dec(n / 1000) + three_digits(n % 1000),
{
    let a = n / 10;
    let b = a / 10;
    assert(b / 10 == n / 1000);
    assert(b >= 10 && a >= 10);
    assert(n % 10 == (n % 1000) % 10);
    assert(a % 10 == (n % 1000) / 10 % 10);
    assert(b % 10 == (n % 1000) / 100);
    assert(dec(n) == dec(a).push(digit_char((n % 10) as int)));
    assert(dec(a) == dec(b).push(digit_char((a % 10) as int)));
    assert(dec(b) == dec(b / 10).push(digit_char((b % 10) as int)));
    assert(dec(n) =~= dec(n / 1000) + three_digits(n % 1000));
}

/// Grouping keeps the digits: without the commas it is the number in decimal.
pub proof fn commas_keep_the_digits(n: nat)
    ensures
        without_commas(grouped(n)) == dec(n),
    decreases n,
{
    if n < 1000 {
        lemma_digits_stay(n);
    } else {
        commas_keep_the_digits(n / 1000);
        lemma_last_three(n);
        lemma_three_digits_stay(n % 1000);
        let head = grouped(n / 1000) + seq![','];
        lemma_without_commas_concat(head, three_digits(n % 1000));
        lemma_without_commas_concat(grouped(n / 1000), seq![',']);
        reveal_with_fuel(without_commas, 2);
        assert(seq![','].drop_last() =~= Seq::<char>::empty());
        assert(without_commas(seq![',']) =~= Seq::<char>::empty());
        assert(without_commas(grouped(n)) =~= dec(n));
    }
}

// ---------------------------------------------------------------------------------------------
// Sizes
// ---------------------------------------------------------------------------------------------

/// The unit that is `1024^i` bytes.
pub open spec fn unit_name(i: int) -> Seq<char> {
    if i == 0 {
        "B"@
    } else if i == 1 {
        "KB"@
    } else if i == 2 {
        "MB"@
    } else if i == 3 {
        "GB"@
    } else if i == 4 {
        "TB"@
    } else {
        "PB"@
    }
}

/// `1024^i`.
pub open spec fn unit_bytes(i: int) -> nat {
    if i == 0 {
        1
    } else if i == 1 {
        0x400
    } else if i == 2 {
        0x10_0000
    } else if i == 3 {
        0x4000_0000
    } else if i == 4 {
        0x100_0000_0000
    } else {
        0x4_0000_0000_0000
    }
}

/// The unit in which a size is shown: the largest of which it has at least one.
pub open spec fn unit_of(size: nat) -> int {
    if size < unit_bytes(1) {
        0
    } else if size < unit_bytes(2) {
        1
    } else if size < unit_bytes(3) {
        2
    } else if size < unit_bytes(4) {
        3
    } else if size < unit_bytes(5) {
        4
    } else {
        5
    }
}

/// Ten to the power `d`, for one or two digits.
pub open spec fn ten_to(d: int) -> nat {
    if d == 1 {
        10
    } else {
        100
    }
}

/// A number of `1 / ten_to(d)`, with its `d` digits behind a point.
pub open spec fn with_point(n: nat, d: int) -> Seq<char> {
    dec(n / ten_to(d)) + "."@ + (if d == 1 {
        seq![digit_char((n % 10) as int)]
    } else {
        seq![digit_char((n / 10 % 10) as int), digit_char((n % 10) as int)]
    })
}

/// A size for people: bytes as they are, and anything larger as a double precision number of
/// units, rounded to `d` digits behind the point, a tie to the even one.
pub open spec fn size_text(bytes: u64, d: int) -> Seq<char> {
    let size = round_to_f64(bytes as nat);
    let i = unit_of(size);
    if i == 0 {
        dec(bytes as nat) + " B"@
    } else {
        with_point(div_half_even(size * ten_to(d), unit_bytes(i)), d) + " "@ + unit_name(i)
    }
}

/// The double precision number nearest to a 64-bit integer.
fn rounded(a: u64) -> (r: u128)
    ensures
        r == round_to_f64(a as nat),
        r <= 0x1_0000_0000_0000_0000,
{
    let mut x: u64 = a;
    let mut k: u64 = 0;
    let mut g: u64 = 1;
    proof {
        lemma2_to64();
    }
    while x >= 0x20_0000_0000_0000
        invariant
            x <= a,
            x == a / g,
            g == pow2(k as nat),
            1 <= g <= 0x800,
            k <= 11,
            k > 0 ==> x >= 0x10_0000_0000_0000,
            x * g <= a,
            excess_bits(a as nat) == k + excess_bits(x as nat),
            pow2(0) == 1,
            pow2(11) == 0x800,
        decreases x,
    {
        proof {
            lemma_pow2_unfold((k + 1) as nat);
            assert(k < 11) by {
                if k == 11 {
                    assert(x * 0x800 <= u64::MAX);
                }
            }
            assert(g < 0x800) by {
                lemma_pow2_strictly_increases(k as nat, 11);
            }
            vstd::arithmetic::div_mod::lemma_div_denominator(a as int, g as int, 2);
            assert((x / 2) * (2 * g) <= a) by (nonlinear_arith)
                requires
                    x * g <= a,
                    (x / 2) * 2 <= x,
                    g >= 0,
            ;
            assert(g * 2 <= 0x800) by {
                if k + 1 < 11 {
                    lemma_pow2_strictly_increases((k + 1) as nat, 11);
                }
            }
        }
        x = x / 2;
        g = g * 2;
        k = k + 1;
    }
    let rem: u64 = a % g;
    let up: bool = 2 * rem > g || (2 * rem == g && x % 2 == 1);
    let q: u64 = if up {
        x + 1
    } else {
        x
    };
    proof {
        assert(excess_bits(x as nat) == 0);
        assert(q == div_half_even(a as nat, g as nat));
        if k == 0 {
            assert(g == 1);
            assert(q * g == a) by (nonlinear_arith)
                requires
                    g == 1,
                    q == a,
            ;
        } else {
            assert(q * g <= 0x20_0000_0000_0000 * 0x800) by (nonlinear_arith)
                requires
                    q <= 0x20_0000_0000_0000,
                    g <= 0x800,
            ;
        }
    }
    q as u128 * g as u128
}

/// The unit in which a size from a kilobyte on is shown, and its name.
fn unit_for(size: u128) -> (r: (u128, &'static str))
    requires
        size >= 0x400,
    ensures
        r.0 == unit_bytes(unit_of(size as nat)),
        r.1@ == unit_name(unit_of(size as nat)),
        unit_of(size as nat) > 0,
        0x400 <= r.0 <= 0x4_0000_0000_0000,
{
    if size < 0x10_0000 {
        (0x400, "KB")
    } else if size < 0x4000_0000 {
        (0x10_0000, "MB")
    } else if size < 0x100_0000_0000 {
        (0x4000_0000, "GB")
    } else if size < 0x4_0000_0000_0000 {
        (0x100_0000_0000, "TB")
    } else {
        (0x4_0000_0000_0000, "PB")
    }
}

/// A quotient rounded to the nearest integer, a tie to the even one.
fn divide_half_even(total: u128, unit: u128) -> (r: u64)
    requires
        total <= 0x64_0000_0000_0000_0000,
        0x400 <= unit <= 0x4_0000_0000_0000,
    ensures
        r == div_half_even(total as nat, unit as nat),
{
    let q: u128 = total / unit;
    let rem: u128 = total % unit;
    assert(q <= 0x1900_0000_0000_0000int) by (nonlinear_arith)
        requires
            q == total / unit,
            total <= 0x64_0000_0000_0000_0000,
            unit >= 0x400,
    ;
    if 2 * rem > unit || (2 * rem == unit && q % 2 == 1) {
        (q + 1) as u64
    } else {
        q as u64
    }
}

fn push_with_point(out: &mut String, n: u64, digits: u8)
    requires
        digits == 1 || digits == 2,
    ensures
        final(out)@ == old(out)@ + with_point(n as nat, digits as int),
{
    let ghost start = out@;
    if digits == 1 {
        push_dec(out, n / 10);
        out.append(".");
        out.push(digit_of(n % 10));
    } else {
        push_dec(out, n / 100);
        out.append(".");
        out.push(digit_of(n / 10 % 10));
        out.push(digit_of(n % 10));
    }
    assert(out@ =~= start + with_point(n as nat, digits as int));
}

/// A size for people, with `digits` digits (one or two) behind the point.
pub fn human_size(bytes: u64, digits: u8) -> (r: String)
    requires
        digits == 1 || digits == 2,
    ensures
        r@ == size_text(bytes, digits as int),
{
    let size: u128 = rounded(bytes);
    let mut r = String::new();
    if size < 0x400 {
        push_dec(&mut r, bytes);
        r.append(" B");
    } else {
        let (unit, name) = unit_for(size);
        let scale: u128 = if digits == 1 {
            10
        } else {
            100
        };
        let n: u64 = divide_half_even(size * scale, unit);
        push_with_point(&mut r, n, digits);
        r.append(" ");
        r.append(name);
    }
    assert(r@ =~= size_text(bytes, digits as int));
    r
}

/// A size in megabytes, rounded to one digit behind the point, a tie to the even one.
pub open spec fn megabytes_text(bytes: u64) -> Seq<char> {
    with_point(div_half_even(round_to_f64(bytes as nat) * 10, 0x10_0000), 1)
}

/// A size in megabytes.
pub fn megabytes(bytes: u64) -> (r: String)
    ensures
        r@ == megabytes_text(bytes),
{
    let size: u128 = rounded(bytes);
    let n: u64 = divide_half_even(size * 10, 0x10_0000);
    let mut r = String::new();
    push_with_point(&mut r, n, 1);
    assert(r@ =~= megabytes_text(bytes));
    r
}

} // verus!
