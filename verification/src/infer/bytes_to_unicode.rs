//! The characters that stand for bytes in a byte-level vocabulary.
//!
//! Every byte has one character: a printable byte the character with its own number, and the 68
//! others, in ascending order, the characters from U+0100 on.
use vstd::prelude::*;

verus! {

/// The bytes that stand for themselves.
pub open spec fn printable(b: int) -> bool {
    33 <= b <= 126 || 161 <= b <= 172 || 174 <= b <= 255
}

/// How many bytes below `b` do not stand for themselves.
pub open spec fn unprintable_below(b: int) -> nat
    decreases b,
{
    if b <= 0 {
        0
    } else if printable(b - 1) {
        unprintable_below(b - 1)
    } else {
        1 + unprintable_below(b - 1)
    }
}

/// The number of the character of a byte.
pub open spec fn byte_code(b: u8) -> int {
    if printable(b as int) {
        b as int
    } else {
        0x100int + unprintable_below(b as int)
    }
}

/// The character of a byte.
pub open spec fn byte_char(b: u8) -> char {
    byte_code(b) as char
}

/// The byte of a character, where it stands for one.
pub open spec fn char_byte(c: char) -> Option<u8> {
    if exists|b: u8| byte_char(b) == c {
        Some(choose|b: u8| byte_char(b) == c)
    } else {
        None
    }
}

proof fn lemma_unprintable_step(from: int, to: int)
    requires
        0 <= from <= to,
        forall|b: int| from <= b < to ==> printable(b),
    ensures
        unprintable_below(to) == unprintable_below(from),
    decreases to - from,
{
    if from < to {
        lemma_unprintable_step(from, to - 1);
    }
}

proof fn lemma_unprintable_run(from: int, to: int)
    requires
        0 <= from <= to,
        forall|b: int| from <= b < to ==> !printable(b),
    ensures
        unprintable_below(to) == unprintable_below(from) + (to - from),
    decreases to - from,
{
    if from < to {
        lemma_unprintable_run(from, to - 1);
    }
}

/// The character of a byte, spelled out.
pub proof fn lemma_byte_code(b: u8)
    ensures
        byte_code(b) == (if b <= 32 {
            0x100 + b
        } else if b <= 126 {
            b as int
        } else if b <= 160 {
            0x100 + b - 94
        } else if b == 173 {
            0x143
        } else {
            b as int
        }),
        0 <= byte_code(b) <= 0x143,
        byte_char(b) as int == byte_code(b),
{
    let x = b as int;
    if x <= 32 {
        lemma_unprintable_run(0, x);
    } else if 127 <= x && x <= 160 {
        lemma_unprintable_run(0, 33);
        lemma_unprintable_step(33, 127);
        lemma_unprintable_run(127, x);
    } else if x == 173 {
        lemma_unprintable_run(0, 33);
        lemma_unprintable_step(33, 127);
        lemma_unprintable_run(127, 161);
        lemma_unprintable_step(161, 173);
    }
}

/// The character that a byte gets gives the byte back.
pub proof fn byte_survives_its_character(b: u8)
    ensures
        char_byte(byte_char(b)) == Some(b),
{
    assert(exists|x: u8| byte_char(x) == byte_char(b));
    let y = choose|x: u8| byte_char(x) == byte_char(b);
    lemma_byte_code(b);
    lemma_byte_code(y);
}

/// The byte that a character stands for has that character.
pub proof fn character_survives_its_byte(c: char)
    requires
        char_byte(c) is Some,
    ensures
        byte_char(char_byte(c)->Some_0) == c,
{
}

/// `char::from_u32` of std: the character with a given number, where there is one. Numbers above
/// U+10FFFF and the surrogates have none.
pub assume_specification[ std::char::from_u32 ](i: u32) -> (r: Option<char>)
    ensures
        r is Some <==> i <= 0xd7ff || 0xe000 <= i <= 0x10_ffff,
        r is Some ==> r->Some_0 as int == i,
;

/// The character of a byte.
pub fn gpt2_byte_to_char(b: u8) -> (c: char)
    ensures
        c == byte_char(b),
{
    proof {
        lemma_byte_code(b);
    }
    let code: u32 = if b <= 32 {
        0x100 + b as u32
    } else if b <= 126 {
        b as u32
    } else if b <= 160 {
        0x100 + b as u32 - 94
    } else if b == 173 {
        0x143
    } else {
        b as u32
    };
    match std::char::from_u32(code) {
        Some(c) => c,
        None => ' ',
    }
}

/// The byte that a character stands for.
pub fn gpt2_token_to_byte(c: char) -> (r: Option<u8>)
    ensures
        r == char_byte(c),
{
    let code: u32 = c as u32;
    let byte: u32 = if code >= 0x100 && code <= 0x120 {
        code - 0x100
    } else if code >= 0x121 && code <= 0x142 {
        code - 0x100 + 94
    } else if code == 0x143 {
        173
    } else {
        code
    };
    if byte > 255 || (code < 0x100 && !(33 <= code && code <= 126 || 161 <= code && code <= 172
        || 174 <= code)) {
        proof {
            assert forall|b: u8| byte_char(b) != c by {
                lemma_byte_code(b);
            }
        }
        return None;
    }
    proof {
        lemma_byte_code(byte as u8);
        byte_survives_its_character(byte as u8);
    }
    Some(byte as u8)
}

} // verus!
