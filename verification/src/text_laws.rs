//! What the texts of numbers and the searches in texts mean.
use vstd::prelude::*;
use vstd::arithmetic::power::pow;
use vstd::string::*;
use crate::text::{
    blanks, dec, dec_int, has_part, has_prefix, hex, index_of_char, is_space, left_column, listed,
    listed_items, right_column, stands_at, trimmed, without_end, without_front,
};

verus! {

// ---------------------------------------------------------------------------------------------
// Numbers
// ---------------------------------------------------------------------------------------------

/// The value of a digit from `'0'` to `'9'` and on to `'f'`; other characters are no digit.
pub open spec fn digit_value(c: char) -> int {
    if '0' <= c <= '9' {
        c as int - '0' as int
    } else if 'a' <= c <= 'f' {
        c as int - 'a' as int + 10
    } else {
        -1
    }
}

/// The number that digits stand for, the highest first.
pub open spec fn number_of(s: Seq<char>, base: int) -> int
    decreases s.len(),
{
    if s.len() == 0 {
        0
    } else {
        number_of(s.drop_last(), base) * base + digit_value(s.last())
    }
}

/// A number in decimal reads back as itself. It holds digits only, and starts with a nought only
/// where it is nought.
pub proof fn decimal_reads_back(n: nat)
    ensures
        number_of(dec(n), 10) == n,
        dec(n).len() > 0,
        dec(n)[0] == '0' ==> n == 0 && dec(n).len() == 1,
        forall|i: int| 0 <= i < dec(n).len() ==> '0' <= #[trigger] dec(n)[i] <= '9',
    decreases n,
{
    if n < 10 {
        assert(dec(n).drop_last() == Seq::<char>::empty());
        assert(number_of(Seq::<char>::empty(), 10) == 0);
    } else {
        decimal_reads_back(n / 10);
        assert(dec(n).drop_last() == dec(n / 10));
        assert(dec(n)[0] == dec(n / 10)[0]);
    }
}

/// Two numbers with the same decimal text are the same.
pub proof fn decimal_tells_apart(a: nat, b: nat)
    requires
        dec(a) == dec(b),
    ensures
        a == b,
{
    decimal_reads_back(a);
    decimal_reads_back(b);
}

/// A signed number has a minus in front of the text of its magnitude where it is negative.
pub proof fn sign_stands_in_front(i: int)
    ensures
        i < 0 ==> dec_int(i)[0] == '-' && number_of(dec_int(i).drop_first(), 10) == -i,
        i >= 0 ==> dec_int(i)[0] != '-' && number_of(dec_int(i), 10) == i,
{
    if i < 0 {
        decimal_reads_back((-i) as nat);
        assert(dec_int(i).drop_first() == dec((-i) as nat));
    } else {
        decimal_reads_back(i as nat);
    }
}

/// A number in hexadecimal has as many digits as asked for and reads back as itself where it fits
/// in them.
pub proof fn hexadecimal_reads_back(n: nat, width: nat)
    ensures
        hex(n, width).len() == width,
        n < pow(16, width) ==> number_of(hex(n, width), 16) == n,
    decreases width,
{
    vstd::arithmetic::power::lemma_pow0(16);
    if width > 0 {
        hexadecimal_reads_back(n / 16, (width - 1) as nat);
        assert(hex(n, width).drop_last() == hex(n / 16, (width - 1) as nat));
        reveal(pow);
        assert(pow(16, width) == 16 * pow(16, (width - 1) as nat));
    }
}

/// Numbers in a list stand in brackets, with a comma and a blank between each two.
pub proof fn list_stands_in_brackets(v: Seq<u64>, a: u64, b: u64)
    ensures
        listed(Seq::<u64>::empty()) == "["@ + "]"@,
        listed(seq![a]) == "["@ + dec(a as nat) + "]"@,
        v.len() > 0 ==> listed(v.push(b)) == listed(v).drop_last() + ", "@ + dec(b as nat) + "]"@,
{
    reveal_strlit("[");
    reveal_strlit("]");
    assert(listed(Seq::<u64>::empty()) =~= "["@ + "]"@);
    if v.len() > 0 {
        assert(v.push(b).drop_last() == v);
        assert(listed(v).drop_last() =~= "["@ + listed_items(v));
        assert(listed(v.push(b)) =~= listed(v).drop_last() + ", "@ + dec(b as nat) + "]"@);
    }
}

// ---------------------------------------------------------------------------------------------
// Searches
// ---------------------------------------------------------------------------------------------

/// A text starts with another exactly where something behind that other makes it up.
pub proof fn prefix_is_the_front(s: Seq<char>, p: Seq<char>)
    ensures
        has_prefix(s, p) <==> exists|rest: Seq<char>| s == #[trigger] (p + rest),
{
    if has_prefix(s, p) {
        assert(s == p + s.skip(p.len() as int));
    }
    if exists|rest: Seq<char>| s == #[trigger] (p + rest) {
        let rest = choose|rest: Seq<char>| s == #[trigger] (p + rest);
        assert(s.take(p.len() as int) == p);
    }
}

/// A text holds another exactly where it is something, the other, and something.
pub proof fn part_has_a_front_and_a_rest(s: Seq<char>, p: Seq<char>)
    ensures
        has_part(s, p) <==> exists|front: Seq<char>, rest: Seq<char>|
            s == #[trigger] (front + p + rest),
{
    if has_part(s, p) {
        let i = choose|i: int| stands_at(s, p, i);
        assert(s == s.take(i) + p + s.skip(i + p.len())) by {
            let m = s.subrange(i, i + p.len());
            assert(s =~= s.take(i) + m + s.skip(i + p.len()));
        }
    }
    if exists|front: Seq<char>, rest: Seq<char>| s == #[trigger] (front + p + rest) {
        let (front, rest) = choose|front: Seq<char>, rest: Seq<char>|
            s == #[trigger] (front + p + rest);
        assert(s.subrange(front.len() as int, (front.len() + p.len()) as int) =~= p);
        assert(stands_at(s, p, front.len() as int));
    }
}

/// The place of a character is the first where it stands, and there is none where it stands
/// nowhere.
pub proof fn character_is_found_first(s: Seq<char>, c: char)
    ensures
        match index_of_char(s, c) {
            Some(i) => 0 <= i < s.len() && s[i] == c && (forall|j: int|
                0 <= j < i ==> #[trigger] s[j] != c),
            None => !s.contains(c),
        },
    decreases s.len(),
{
    if s.len() > 0 && s[0] != c {
        let rest = s.drop_first();
        character_is_found_first(rest, c);
        match index_of_char(rest, c) {
            Some(i) => {
                assert forall|j: int| 0 <= j < i + 1 implies #[trigger] s[j] != c by {
                    if j > 0 {
                        assert(rest[j - 1] == s[j]);
                    }
                }
            },
            None => {
                if s.contains(c) {
                    let j = choose|j: int| 0 <= j < s.len() && s[j] == c;
                    assert(rest[j - 1] == c);
                }
            },
        }
    }
}

/// The usual white space counts as white space; digits, letters and marks do not.
pub proof fn white_space_is_blank(c: char)
    ensures
        is_space(' ') && is_space('\t') && is_space('\n') && is_space('\r') && is_space('\u{b}')
            && is_space('\u{c}') && is_space('\u{3000}') && is_space('\u{a0}'),
        '!' <= c <= '~' ==> !is_space(c),
        c < '\t' ==> !is_space(c),
{
}

// ---------------------------------------------------------------------------------------------
// Columns
// ---------------------------------------------------------------------------------------------

/// A text in a column fills it with blanks on the one side and is never cut.
pub proof fn columns_are_filled(s: Seq<char>, width: nat, i: int)
    ensures
        left_column(s, width as int).len() == right_column(s, width as int).len(),
        left_column(s, width as int).len() == if s.len() < width {
            width
        } else {
            s.len()
        },
        0 <= i < s.len() ==> left_column(s, width as int)[i] == s[i],
        s.len() <= i < width ==> left_column(s, width as int)[i] == ' ',
        0 <= i < s.len() ==> right_column(s, width as int)[right_column(s, width as int).len()
            - s.len() + i] == s[i],
        0 <= i < width - s.len() ==> right_column(s, width as int)[i] == ' ',
{
    assert(blanks(width - s.len()).len() == if width > s.len() {
        width - s.len()
    } else {
        0
    });
}

// ---------------------------------------------------------------------------------------------
// White space
// ---------------------------------------------------------------------------------------------

/// All of a text is white space.
pub open spec fn is_blank(s: Seq<char>) -> bool {
    forall|i: int| 0 <= i < s.len() ==> is_space(#[trigger] s[i])
}

/// Trimming takes white space off both ends and nothing else, and leaves none there.
pub proof fn trimming_takes_white_space_only(s: Seq<char>)
    ensures
        exists|front: Seq<char>, rest: Seq<char>|
            is_blank(front) && is_blank(rest) && s == #[trigger] (front + trimmed(s) + rest),
        trimmed(s).len() > 0 ==> !is_space(trimmed(s)[0]) && !is_space(trimmed(s).last()),
{
    let front = lemma_front(s);
    let t = without_front(s);
    let rest = lemma_end(t);
    assert(s =~= front + trimmed(s) + rest);
    if trimmed(s).len() > 0 {
        assert(trimmed(s)[0] == t[0]);
    }
}

proof fn lemma_front(s: Seq<char>) -> (front: Seq<char>)
    ensures
        is_blank(front),
        s == front + without_front(s),
        without_front(s).len() > 0 ==> !is_space(without_front(s)[0]),
    decreases s.len(),
{
    if s.len() > 0 && is_space(s[0]) {
        let rest = lemma_front(s.drop_first());
        let front = seq![s[0]] + rest;
        assert(s =~= seq![s[0]] + s.drop_first());
        assert(s =~= front + without_front(s));
        front
    } else {
        assert(s =~= Seq::<char>::empty() + without_front(s));
        Seq::empty()
    }
}

proof fn lemma_end(s: Seq<char>) -> (rest: Seq<char>)
    ensures
        is_blank(rest),
        s == without_end(s) + rest,
        without_end(s).len() > 0 ==> !is_space(without_end(s).last()),
    decreases s.len(),
{
    if s.len() > 0 && is_space(s.last()) {
        let front = lemma_end(s.drop_last());
        let rest = front.push(s.last());
        assert(s =~= s.drop_last().push(s.last()));
        assert(s =~= without_end(s) + rest);
        rest
    } else {
        assert(s =~= without_end(s) + Seq::<char>::empty());
        Seq::empty()
    }
}

} // verus!
