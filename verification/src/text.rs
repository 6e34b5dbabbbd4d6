//! Strings as sequences of characters: building, comparing and searching them, and numbers
//! written out in digits.
use vstd::prelude::*;
use vstd::string::*;
use vstd::utf8::*;

verus! {

/// `String::push` of std: the character goes behind what the string holds.
pub assume_specification[ std::string::String::push ](s: &mut std::string::String, c: char)
    ensures
        final(s)@ == old(s)@.push(c),
;

/// `String::from_utf8` of std: it succeeds on valid UTF-8 and only there, and the string then
/// holds the characters that the bytes encode.
#[verifier::external_body]
pub(crate) fn utf8_string(bytes: Vec<u8>) -> (r: Option<String>)
    ensures
        r is Some <==> valid_utf8(bytes@),
        r is Some ==> r->Some_0@ == decode_utf8(bytes@),
{
    String::from_utf8(bytes).ok()
}

// ---------------------------------------------------------------------------------------------
// Digits
// ---------------------------------------------------------------------------------------------

/// The character of one hexadecimal digit.
pub open spec fn digit_char(d: int) -> char {
    if d < 10 {
        (48 + d) as char
    } else {
        (87 + d) as char
    }
}

/// A number in decimal, without leading zeros.
pub open spec fn dec(n: nat) -> Seq<char>
    decreases n,
{
    if n < 10 {
        seq![digit_char(n as int)]
    } else {
        dec(n / 10).push(digit_char((n % 10) as int))
    }
}

/// A signed number in decimal.
pub open spec fn dec_int(i: int) -> Seq<char> {
    if i < 0 {
        seq!['-'] + dec((-i) as nat)
    } else {
        dec(i as nat)
    }
}

/// The `width` lowest hexadecimal digits of a number, the highest first.
pub open spec fn hex(n: nat, width: nat) -> Seq<char>
    decreases width,
{
    if width == 0 {
        Seq::empty()
    } else {
        hex(n / 16, (width - 1) as nat).push(digit_char((n % 16) as int))
    }
}

fn digit(d: u8) -> (c: char)
    requires
        d < 16,
    ensures
        c == digit_char(d as int),
{
    if d < 10 {
        (48 + d) as char
    } else {
        (87 + d) as char
    }
}

/// The decimal digits of `n`, behind what `out` holds.
pub fn push_dec(out: &mut String, n: u64)
    ensures
        final(out)@ == old(out)@ + dec(n as nat),
    decreases n,
{
    if n < 10 {
        out.push(digit(n as u8));
        assert(out@ =~= old(out)@ + dec(n as nat));
    } else {
        push_dec(out, n / 10);
        out.push(digit((n % 10) as u8));
        assert(out@ =~= old(out)@ + dec(n as nat));
    }
}

/// A number of up to 128 bits in decimal, behind what `out` holds.
pub fn push_dec_u128(out: &mut String, n: u128)
    ensures
        final(out)@ == old(out)@ + dec(n as nat),
    decreases n,
{
    let ghost start = out@;
    if n < 10 {
        push_dec(out, n as u64);
    } else {
        push_dec_u128(out, n / 10);
        let d: u64 = (n % 10) as u64;
        push_dec(out, d);
        assert(dec(d as nat) =~= seq![digit_char(d as int)]);
        assert(out@ =~= start + dec(n as nat));
    }
}

/// A signed number in decimal, behind what `out` holds.
pub fn push_dec_int(out: &mut String, i: i64)
    ensures
        final(out)@ == old(out)@ + dec_int(i as int),
{
    if i < 0 {
        out.push('-');
        if i == i64::MIN {
            push_dec(out, 9_223_372_036_854_775_808);
        } else {
            push_dec(out, (-i) as u64);
        }
        assert(out@ =~= old(out)@ + dec_int(i as int));
    } else {
        push_dec(out, i as u64);
    }
}

/// The `width` lowest hexadecimal digits of `n`, behind what `out` holds.
pub fn push_hex(out: &mut String, n: u64, width: u32)
    ensures
        final(out)@ == old(out)@ + hex(n as nat, width as nat),
    decreases width,
{
    if width > 0 {
        push_hex(out, n / 16, width - 1);
        out.push(digit((n % 16) as u8));
    }
    assert(out@ =~= old(out)@ + hex(n as nat, width as nat));
}

/// A number as a decimal string.
pub fn dec_string(n: u64) -> (s: String)
    ensures
        s@ == dec(n as nat),
{
    let mut s = String::new();
    push_dec(&mut s, n);
    assert(s@ =~= dec(n as nat));
    s
}

// ---------------------------------------------------------------------------------------------
// Strings and characters
// ---------------------------------------------------------------------------------------------

/// The characters of a string.
pub fn chars_of(s: &str) -> (v: Vec<char>)
    ensures
        v@ == s@,
{
    let mut v: Vec<char> = Vec::new();
    for c in it: s.chars()
        invariant
            it.seq() == s@,
            v@ == s@.take(it.index() as int),
    {
        v.push(c);
        assert(v@ =~= s@.take(it.index() + 1));
    }
    assert(v@ =~= s@);
    v
}

/// The string of the characters `chars[from..to]`.
pub fn string_of(chars: &[char], from: usize, to: usize) -> (s: String)
    requires
        from <= to <= chars@.len(),
    ensures
        s@ == chars@.subrange(from as int, to as int),
{
    let mut s = String::new();
    let mut i: usize = from;
    while i < to
        invariant
            from <= i <= to <= chars@.len(),
            s@ == chars@.subrange(from as int, i as int),
        decreases to - i,
    {
        s.push(chars[i]);
        i += 1;
        assert(s@ =~= chars@.subrange(from as int, i as int));
    }
    s
}

/// Two strings with the same UTF-8 bytes hold the same characters.
pub proof fn lemma_encode_injective(a: Seq<char>, b: Seq<char>)
    ensures
        encode_utf8(a) == encode_utf8(b) <==> a == b,
{
    encode_utf8_decode_utf8(a);
    encode_utf8_decode_utf8(b);
}

/// Whether two strings hold the same characters.
pub fn same(a: &str, b: &str) -> (r: bool)
    ensures
        r == (a@ == b@),
{
    let x = a.as_bytes();
    let y = b.as_bytes();
    proof {
        lemma_encode_injective(a@, b@);
    }
    if x.len() != y.len() {
        return false;
    }
    let mut i: usize = 0;
    while i < x.len()
        invariant
            x@.len() == y@.len(),
            i <= x@.len(),
            x@ == encode_utf8(a@),
            y@ == encode_utf8(b@),
            encode_utf8(a@) == encode_utf8(b@) <==> a@ == b@,
            forall|j: int| 0 <= j < i ==> x@[j] == y@[j],
        decreases x@.len() - i,
    {
        if x[i] != y[i] {
            return false;
        }
        i += 1;
    }
    assert(x@ =~= y@);
    true
}

/// Where a character first occurs in a sequence.
pub open spec fn index_of_char(s: Seq<char>, c: char) -> Option<int>
    decreases s.len(),
{
    if s.len() == 0 {
        None
    } else if s[0] == c {
        Some(0)
    } else {
        match index_of_char(s.drop_first(), c) {
            Some(i) => Some(i + 1),
            None => None,
        }
    }
}

/// Where a character first occurs.
pub fn find_char(chars: &[char], c: char) -> (r: Option<usize>)
    ensures
        match index_of_char(chars@, c) {
            Some(i) => r is Some && r->Some_0 == i && i < chars@.len() && chars@[i] == c,
            None => r is None,
        },
{
    let mut i: usize = 0;
    assert(chars@.skip(0) =~= chars@);
    while i < chars.len()
        invariant
            i <= chars@.len(),
            index_of_char(chars@, c) == (match index_of_char(chars@.skip(i as int), c) {
                Some(k) => Some(k + i),
                None => None::<int>,
            }),
        decreases chars@.len() - i,
    {
        assert(chars@.skip(i as int)[0] == chars@[i as int]);
        assert(chars@.skip(i as int).drop_first() =~= chars@.skip(i + 1));
        if chars[i] == c {
            return Some(i);
        }
        i += 1;
    }
    None
}

/// Two strings, one behind the other.
pub fn concat(a: &str, b: &str) -> (r: String)
    ensures
        r@ == a@ + b@,
{
    let mut r = String::new();
    r.append(a);
    r.append(b);
    assert(r@ =~= a@ + b@);
    r
}

/// A string of its own with the characters of `s`.
pub fn owned(s: &str) -> (r: String)
    ensures
        r@ == s@,
{
    let mut r = String::new();
    r.append(s);
    assert(r@ =~= s@);
    r
}

/// Whether a sequence of characters starts with another.
pub open spec fn has_prefix(s: Seq<char>, p: Seq<char>) -> bool {
    p.len() <= s.len() && s.take(p.len() as int) == p
}

/// Whether `s` starts with `p`.
pub fn starts_with(s: &str, p: &str) -> (r: bool)
    ensures
        r == has_prefix(s@, p@),
{
    let a = chars_of(s);
    let b = chars_of(p);
    if b.len() > a.len() {
        return false;
    }
    let mut i: usize = 0;
    while i < b.len()
        invariant
            i <= b@.len() <= a@.len(),
            a@ == s@,
            b@ == p@,
            forall|j: int| 0 <= j < i ==> a@[j] == b@[j],
        decreases b@.len() - i,
    {
        if a[i] != b[i] {
            assert(s@.take(p@.len() as int)[i as int] != p@[i as int]);
            return false;
        }
        i += 1;
    }
    assert(s@.take(p@.len() as int) =~= p@);
    true
}

/// Numbers in a row, in brackets and with commas between them.
pub open spec fn listed(v: Seq<u64>) -> Seq<char> {
    "["@ + listed_items(v) + "]"@
}

/// Numbers in a row with commas between them.
pub open spec fn listed_items(v: Seq<u64>) -> Seq<char>
    decreases v.len(),
{
    if v.len() == 0 {
        Seq::empty()
    } else if v.len() == 1 {
        dec(v[0] as nat)
    } else {
        listed_items(v.drop_last()) + ", "@ + dec(v.last() as nat)
    }
}

/// Numbers in a row, in brackets and with commas between them, behind what `out` holds.
pub fn push_listed(out: &mut String, v: &Vec<u64>)
    ensures
        final(out)@ == old(out)@ + listed(v@),
{
    let ghost start = out@;
    out.append("[");
    let mut i: usize = 0;
    assert(v@.take(0) =~= Seq::<u64>::empty());
    assert(out@ =~= start + ("["@ + listed_items(v@.take(0))));
    while i < v.len()
        invariant
            i <= v@.len(),
            out@ == start + ("["@ + listed_items(v@.take(i as int))),
        decreases v@.len() - i,
    {
        proof {
            let next = v@.take(i + 1);
            assert(next.drop_last() =~= v@.take(i as int));
            assert(next.last() == v@[i as int]);
        }
        if i > 0 {
            out.append(", ");
        }
        push_dec(out, v[i]);
        i += 1;
        assert(out@ =~= start + ("["@ + listed_items(v@.take(i as int))));
    }
    out.append("]");
    assert(v@.take(i as int) =~= v@);
    assert(out@ =~= start + listed(v@));
}

// ---------------------------------------------------------------------------------------------
// Blanks, parts and columns
// ---------------------------------------------------------------------------------------------

/// The characters that Unicode counts as white space.
pub open spec fn is_space(c: char) -> bool {
    let n = c as u32;
    ||| 9 <= n <= 13
    ||| n == 0x20
    ||| n == 0x85
    ||| n == 0xa0
    ||| n == 0x1680
    ||| 0x2000 <= n <= 0x200a
    ||| n == 0x2028
    ||| n == 0x2029
    ||| n == 0x202f
    ||| n == 0x205f
    ||| n == 0x3000
}

/// A sequence without the white space at its front.
pub open spec fn without_front(s: Seq<char>) -> Seq<char>
    decreases s.len(),
{
    if s.len() > 0 && is_space(s[0]) {
        without_front(s.drop_first())
    } else {
        s
    }
}

/// A sequence without the white space at its end.
pub open spec fn without_end(s: Seq<char>) -> Seq<char>
    decreases s.len(),
{
    if s.len() > 0 && is_space(s.last()) {
        without_end(s.drop_last())
    } else {
        s
    }
}

/// A sequence without the white space around it.
pub open spec fn trimmed(s: Seq<char>) -> Seq<char> {
    without_end(without_front(s))
}

proof fn lemma_without_end(s: Seq<char>)
    ensures
        without_end(s).len() <= s.len(),
        without_end(s) == s.take(without_end(s).len() as int),
        without_end(s).len() > 0 ==> !is_space(without_end(s).last()),
    decreases s.len(),
{
    if s.len() > 0 && is_space(s.last()) {
        lemma_without_end(s.drop_last());
        assert(s.drop_last().take(without_end(s).len() as int) =~= s.take(
            without_end(s).len() as int,
        ));
    } else {
        assert(s.take(s.len() as int) =~= s);
    }
}

proof fn lemma_without_front(s: Seq<char>)
    ensures
        without_front(s).len() > 0 ==> !is_space(without_front(s)[0]),
    decreases s.len(),
{
    if s.len() > 0 && is_space(s[0]) {
        lemma_without_front(s.drop_first());
    }
}

/// What has no white space around it stays as it is.
pub proof fn trimmed_is_trimmed(s: Seq<char>)
    ensures
        trimmed(trimmed(s)) == trimmed(s),
{
    lemma_without_front(s);
    lemma_without_end(without_front(s));
    let t = trimmed(s);
    if t.len() > 0 {
        assert(t[0] == without_front(s)[0]);
    }
    assert(without_front(t) == t);
}

fn space(c: char) -> (r: bool)
    ensures
        r == is_space(c),
{
    let n: u32 = c as u32;
    (9 <= n && n <= 13) || n == 0x20 || n == 0x85 || n == 0xa0 || n == 0x1680 || (0x2000 <= n && n
        <= 0x200a) || n == 0x2028 || n == 0x2029 || n == 0x202f || n == 0x205f || n == 0x3000
}

/// A string without the white space around it.
pub fn trim(s: &str) -> (r: String)
    ensures
        r@ == trimmed(s@),
{
    let chars = chars_of(s);
    let mut from: usize = 0;
    assert(chars@.skip(0) =~= s@);
    while from < chars.len() && space(chars[from])
        invariant
            from <= chars@.len(),
            chars@ == s@,
            without_front(s@) == without_front(chars@.skip(from as int)),
        decreases chars@.len() - from,
    {
        assert(chars@.skip(from as int)[0] == chars@[from as int]);
        assert(chars@.skip(from as int).drop_first() =~= chars@.skip(from + 1));
        from += 1;
    }
    proof {
        if from < chars@.len() {
            assert(chars@.skip(from as int)[0] == chars@[from as int]);
        }
    }
    let mut to: usize = chars.len();
    assert(chars@.subrange(from as int, to as int) =~= chars@.skip(from as int));
    while to > from && space(chars[to - 1])
        invariant
            from <= to <= chars@.len(),
            chars@ == s@,
            without_end(without_front(s@)) == without_end(
                chars@.subrange(from as int, to as int),
            ),
        decreases to - from,
    {
        let ghost now = chars@.subrange(from as int, to as int);
        assert(now.last() == chars@[to - 1]);
        assert(now.drop_last() =~= chars@.subrange(from as int, to - 1));
        to -= 1;
    }
    proof {
        let now = chars@.subrange(from as int, to as int);
        if to > from {
            assert(now.last() == chars@[to - 1]);
        }
    }
    string_of(chars.as_slice(), from, to)
}

/// Whether `p` stands in `s` at `i`.
pub open spec fn stands_at(s: Seq<char>, p: Seq<char>, i: int) -> bool {
    0 <= i && i + p.len() <= s.len() && s.subrange(i, i + p.len()) == p
}

/// Whether `p` stands anywhere in `s`.
pub open spec fn has_part(s: Seq<char>, p: Seq<char>) -> bool {
    exists|i: int| stands_at(s, p, i)
}

/// Whether `p` stands anywhere in `s`.
pub fn contains(s: &str, p: &str) -> (r: bool)
    ensures
        r == has_part(s@, p@),
{
    let a = chars_of(s);
    let b = chars_of(p);
    if b.len() > a.len() {
        return false;
    }
    let n: usize = a.len();
    let last: usize = n - b.len();
    let mut i: usize = 0;
    while i <= last
        invariant
            a@ == s@,
            b@ == p@,
            b@.len() <= a@.len(),
            n == a@.len(),
            last == n - b@.len(),
            i <= last + 1,
            forall|k: int| 0 <= k < i ==> !stands_at(s@, p@, k),
        decreases last + 1 - i,
    {
        let mut j: usize = 0;
        let mut hit = true;
        while j < b.len() && hit
            invariant
                a@ == s@,
                b@ == p@,
                n == a@.len(),
                last == n - b@.len(),
                i <= last,
                j <= b@.len(),
                hit ==> forall|k: int| 0 <= k < j ==> a@[i + k] == b@[k],
                !hit ==> exists|k: int| 0 <= k < b@.len() && a@[i + k] != b@[k],
            decreases b@.len() - j, if hit { 1int } else { 0 },
        {
            if a[i + j] != b[j] {
                assert(a@[i + j as int] != b@[j as int]);
                hit = false;
            } else {
                j += 1;
            }
        }
        if hit {
            assert(s@.subrange(i as int, i + p@.len()) =~= p@);
            assert(stands_at(s@, p@, i as int));
            return true;
        }
        assert(!stands_at(s@, p@, i as int)) by {
            let k = choose|k: int| 0 <= k < b@.len() && a@[i + k] != b@[k];
            assert(s@.subrange(i as int, i + p@.len())[k] != p@[k]);
        }
        if i == last {
            return false;
        }
        i += 1;
    }
    false
}

/// `n` blanks.
pub open spec fn blanks(n: int) -> Seq<char> {
    Seq::new(
        if n > 0 {
            n as nat
        } else {
            0
        },
        |i: int| ' ',
    )
}

/// A text in a column of a given width, at its left.
pub open spec fn left_column(s: Seq<char>, width: int) -> Seq<char> {
    s + blanks(width - s.len())
}

/// A text in a column of a given width, at its right.
pub open spec fn right_column(s: Seq<char>, width: int) -> Seq<char> {
    blanks(width - s.len()) + s
}

fn push_blanks(out: &mut String, have: usize, width: usize)
    ensures
        final(out)@ == old(out)@ + blanks(width - have),
{
    let ghost start = out@;
    let mut i: usize = have;
    assert(out@ =~= start + blanks(0));
    while i < width
        invariant
            have <= i,
            have <= width ==> i <= width,
            have > width ==> i == have,
            out@ == start + blanks(i - have),
        decreases width - i,
    {
        out.push(' ');
        i += 1;
        assert(out@ =~= start + blanks(i - have));
    }
    assert(out@ =~= start + blanks(width - have));
}

/// A text in a column of a given width, at its left, behind what `out` holds.
pub fn push_left(out: &mut String, s: &str, width: usize)
    ensures
        final(out)@ == old(out)@ + left_column(s@, width as int),
{
    let ghost start = out@;
    let n: usize = s.unicode_len();
    out.append(s);
    push_blanks(out, n, width);
    assert(out@ =~= start + left_column(s@, width as int));
}

/// A text in a column of a given width, at its right, behind what `out` holds.
pub fn push_right(out: &mut String, s: &str, width: usize)
    ensures
        final(out)@ == old(out)@ + right_column(s@, width as int),
{
    let ghost start = out@;
    let n: usize = s.unicode_len();
    push_blanks(out, n, width);
    out.append(s);
    assert(out@ =~= start + right_column(s@, width as int));
}

/// The views of strings in a row.
pub open spec fn lines_view(s: Seq<String>) -> Seq<Seq<char>> {
    Seq::new(s.len(), |i: int| s[i]@)
}

/// One more string behind those in a row.
pub fn push_line(out: &mut Vec<String>, line: String)
    ensures
        lines_view(final(out)@) == lines_view(old(out)@).push(line@),
{
    out.push(line);
    assert(lines_view(out@) =~= lines_view(old(out)@).push(line@));
}

} // verus!
