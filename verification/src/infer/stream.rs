//! Tokens as a stream of text: a character whose bytes come in several tokens is held back until
//! all of them are there.
use vstd::prelude::*;
use vstd::slice::{slice_subrange, slice_to_vec};
use vstd::utf8::*;
use crate::text::{chars_of, utf8_string};
use crate::infer::bytes_to_unicode::{char_byte, gpt2_token_to_byte};
use crate::infer::tokenizer::{push_token_bytes, token_bytes};

verus! {

// ---------------------------------------------------------------------------------------------
// The bytes of a token
// ---------------------------------------------------------------------------------------------

/// How the bytes of a token are told: from all of its characters or, where not all of them stand
/// for bytes, its string as it is; or character by character.
#[derive(Debug, Clone, Copy, PartialEq, Eq, Structural)]
pub enum ByteStyle {
    WholeToken,
    PerCharacter,
}

/// Whether every character stands for a byte.
pub open spec fn all_bytes(s: Seq<char>) -> bool {
    forall|i: int| 0 <= i < s.len() ==> char_byte(#[trigger] s[i]) is Some
}

/// The bytes that a token adds to the stream.
pub open spec fn streamed_bytes(style: ByteStyle, s: Seq<char>) -> Seq<u8> {
    if style == ByteStyle::PerCharacter || all_bytes(s) {
        token_bytes(s)
    } else {
        encode_utf8(s)
    }
}

/// The bytes that a token adds to the stream, behind what `out` holds.
pub fn push_streamed_bytes(out: &mut Vec<u8>, style: ByteStyle, s: &str)
    ensures
        final(out)@ == old(out)@ + streamed_bytes(style, s@),
{
    let whole = match style {
        ByteStyle::PerCharacter => true,
        ByteStyle::WholeToken => {
            let chars = chars_of(s);
            let mut all = true;
            let mut i: usize = 0;
            while i < chars.len()
                invariant
                    i <= chars@.len(),
                    chars@ == s@,
                    all <==> forall|k: int| 0 <= k < i ==> char_byte(#[trigger] chars@[k]) is Some,
                decreases chars@.len() - i,
            {
                if gpt2_token_to_byte(chars[i]).is_none() {
                    assert(!(char_byte(chars@[i as int]) is Some));
                    all = false;
                }
                i += 1;
            }
            all
        },
    };
    if whole {
        push_token_bytes(out, s);
    } else {
        let mut more: Vec<u8> = slice_to_vec(s.as_bytes());
        out.append(&mut more);
    }
}

// ---------------------------------------------------------------------------------------------
// Complete characters
// ---------------------------------------------------------------------------------------------

/// How many bytes a character has that starts with `b`; a byte with which none starts has none.
pub open spec fn char_width(b: u8) -> Option<nat> {
    if b < 0x80 {
        Some(1)
    } else if 0xc0 <= b <= 0xdf {
        Some(2)
    } else if 0xe0 <= b <= 0xef {
        Some(3)
    } else if 0xf0 <= b <= 0xf7 {
        Some(4)
    } else {
        None
    }
}

/// Where the complete characters from `at` on end. A byte with which no character starts ends the
/// search and is counted with what is before it.
pub open spec fn complete_end(bytes: Seq<u8>, at: int) -> int
    decreases bytes.len() - at,
{
    if at >= bytes.len() {
        at
    } else {
        match char_width(bytes[at]) {
            None => at + 1,
            Some(n) => if at + n > bytes.len() {
                at
            } else {
                complete_end(bytes, at + n)
            },
        }
    }
}

/// How many bytes at the front are to be taken off, where any are.
pub open spec fn complete_len(bytes: Seq<u8>) -> Option<nat> {
    if complete_end(bytes, 0) > 0 {
        Some(complete_end(bytes, 0) as nat)
    } else {
        None
    }
}

/// The search for complete characters stays inside the bytes.
pub proof fn lemma_complete_end(bytes: Seq<u8>, at: int)
    requires
        0 <= at <= bytes.len(),
    ensures
        at <= complete_end(bytes, at) <= bytes.len(),
    decreases bytes.len() - at,
{
    if at < bytes.len() {
        match char_width(bytes[at]) {
            None => {},
            Some(n) => if at + n <= bytes.len() {
                lemma_complete_end(bytes, at + n);
            },
        }
    }
}

/// How many bytes at the front are complete characters; none where the first one is not complete.
/// A byte with which no character starts is counted too, and ends the search.
pub fn utf8_complete_len(bytes: &[u8]) -> (r: Option<usize>)
    ensures
        match complete_len(bytes@) {
            Some(n) => r is Some && r->Some_0 == n && 0 < n <= bytes@.len(),
            None => r is None,
        },
{
    proof {
        lemma_complete_end(bytes@, 0);
    }
    let n: usize = bytes.len();
    let mut at: usize = 0;
    while at < n
        invariant
            n == bytes@.len(),
            at <= n,
            0 <= complete_end(bytes@, 0) <= n,
            complete_end(bytes@, 0) == complete_end(bytes@, at as int),
        decreases n - at,
    {
        let b: u8 = bytes[at];
        let need: usize = if b < 0x80 {
            1
        } else if b >= 0xc0 && b <= 0xdf {
            2
        } else if b >= 0xe0 && b <= 0xef {
            3
        } else if b >= 0xf0 && b <= 0xf7 {
            4
        } else {
            return Some(at + 1);
        };
        if need > n - at {
            return if at > 0 {
                Some(at)
            } else {
                None
            };
        }
        at += need;
    }
    if n == 0 {
        None
    } else {
        Some(n)
    }
}

// ---------------------------------------------------------------------------------------------
// Taking text off
// ---------------------------------------------------------------------------------------------

/// The next text that the held-back bytes give, and what is held back then. Bytes that are to be
/// taken off and are no text are dropped.
pub open spec fn next_text_of(pending: Seq<u8>) -> (Option<Seq<char>>, Seq<u8>)
    decreases pending.len(),
{
    match complete_len(pending) {
        None => (None, pending),
        Some(n) => {
            proof {
                lemma_complete_end(pending, 0);
            }
            if n > pending.len() {
                (None, pending)
            } else if valid_utf8(pending.take(n as int)) {
                (Some(decode_utf8(pending.take(n as int))), pending.skip(n as int))
            } else {
                next_text_of(pending.skip(n as int))
            }
        },
    }
}

/// The next text that the held-back bytes give.
pub fn next_text(pending: &mut Vec<u8>) -> (r: Option<String>)
    ensures
        match next_text_of(old(pending)@).0 {
            Some(t) => r is Some && r->Some_0@ == t,
            None => r is None,
        },
        final(pending)@ == next_text_of(old(pending)@).1,
{
    let ghost start = pending@;
    let mut more = true;
    while more
        invariant
            next_text_of(pending@) == next_text_of(start),
            start == old(pending)@,
            !more ==> next_text_of(pending@) == (None::<Seq<char>>, pending@),
        decreases pending@.len(), if more { 1int } else { 0 },
    {
        match utf8_complete_len(pending.as_slice()) {
            None => {
                more = false;
            },
            Some(n) => {
                let chunk: Vec<u8> = slice_to_vec(slice_subrange(pending.as_slice(), 0, n));
                let rest: Vec<u8> = slice_to_vec(
                    slice_subrange(pending.as_slice(), n, pending.len()),
                );
                assert(chunk@ =~= pending@.take(n as int));
                assert(rest@ =~= pending@.skip(n as int));
                *pending = rest;
                match utf8_string(chunk) {
                    Some(s) => return Some(s),
                    None => {},
                }
            },
        }
    }
    None
}

// ---------------------------------------------------------------------------------------------
// Laws
// ---------------------------------------------------------------------------------------------

/// All the text that the held-back bytes give, and what is held back then.
pub open spec fn drained(pending: Seq<u8>) -> (Seq<char>, Seq<u8>)
    decreases pending.len(),
{
    match next_text_of(pending) {
        (None, rest) => (Seq::empty(), rest),
        (Some(t), rest) => if rest.len() < pending.len() {
            let (more, end) = drained(rest);
            (t + more, end)
        } else {
            (t, rest)
        },
    }
}

/// All the text that pieces of bytes give, one after the other, and what is held back at the end.
pub open spec fn streamed(pending: Seq<u8>, pieces: Seq<Seq<u8>>) -> (Seq<char>, Seq<u8>)
    decreases pieces.len(),
{
    if pieces.len() == 0 {
        (Seq::empty(), pending)
    } else {
        let (text, rest) = drained(pending + pieces[0]);
        let (more, end) = streamed(rest, pieces.drop_first());
        (text + more, end)
    }
}

/// Pieces of bytes, one behind the other.
pub open spec fn joined(pieces: Seq<Seq<u8>>) -> Seq<u8>
    decreases pieces.len(),
{
    if pieces.len() == 0 {
        Seq::empty()
    } else {
        pieces[0] + joined(pieces.drop_first())
    }
}

/// At the start of a character of valid text, its width is that of the first scalar.
proof fn lemma_width(rest: Seq<u8>)
    requires
        valid_utf8(rest),
        rest.len() > 0,
    ensures
        char_width(rest[0]) == Some(length_of_first_scalar(rest) as nat),
        0 < length_of_first_scalar(rest) <= rest.len(),
{
}

/// The complete characters of the front of a valid text end where a character of it does.
proof fn lemma_complete_is_boundary(front: Seq<u8>, whole: Seq<u8>, at: int)
    requires
        front.len() <= whole.len(),
        front == whole.take(front.len() as int),
        0 <= at <= front.len(),
        valid_utf8(whole.take(at)),
        valid_utf8(whole.skip(at)),
    ensures
        ({
            let n = complete_end(front, at);
            &&& at <= n <= front.len()
            &&& valid_utf8(whole.take(n))
            &&& valid_utf8(whole.skip(n))
            &&& n < front.len() ==> complete_end(front.skip(n), 0) == 0
        }),
    decreases front.len() - at,
{
    lemma_complete_end(front, at);
    if at < front.len() {
        let rest = whole.skip(at);
        lemma_width(rest);
        let w = length_of_first_scalar(rest);
        assert(rest[0] == whole[at]);
        assert(front[at] == whole[at]);
        if at + w > front.len() {
            assert(front.skip(at)[0] == front[at]);
        } else {
            assert(pop_first_scalar(rest) =~= whole.skip(at + w));
            let scalar = rest.subrange(0, w);
            assert(pop_first_scalar(scalar) =~= Seq::<u8>::empty());
            assert(valid_utf8(scalar)) by {
                reveal_with_fuel(valid_utf8, 2);
            }
            valid_utf8_concat(whole.take(at), scalar);
            assert(whole.take(at) + scalar =~= whole.take(at + w));
            lemma_complete_is_boundary(front, whole, at + w);
        }
    }
}

/// What is taken off the front of a valid text is its text as far as it is complete, and the rest
/// is the front of a valid text again.
proof fn lemma_drained(pending: Seq<u8>, future: Seq<u8>)
    requires
        valid_utf8(pending + future),
    ensures
        ({
            let (t, rest) = drained(pending);
            &&& valid_utf8(rest + future)
            &&& decode_utf8(pending + future) == t + decode_utf8(rest + future)
            &&& future.len() == 0 ==> rest.len() == 0
        }),
{
    let whole = pending + future;
    assert(whole.take(pending.len() as int) =~= pending);
    assert(whole.take(0) =~= Seq::<u8>::empty());
    assert(whole.skip(0) =~= whole);
    lemma_complete_is_boundary(pending, whole, 0);
    let n = complete_end(pending, 0);
    let front = pending.take(n);
    let rest = pending.skip(n);
    assert(whole.take(n) =~= front);
    assert(whole.skip(n) =~= rest + future);
    assert(front + (rest + future) =~= whole);
    crate::infer::tokenizer_laws::lemma_decode_concat(front, rest + future);
    if future.len() == 0 {
        assert(rest + future =~= rest);
        if rest.len() > 0 {
            lemma_width(rest);
            assert(complete_end(rest, 0) == 0);
            assert(complete_end(rest, 0) >= char_width(rest[0])->Some_0) by {
                lemma_complete_end(rest, char_width(rest[0])->Some_0 as int);
            }
        }
    }
    if n == 0 {
        assert(rest =~= pending);
        assert(front =~= Seq::<u8>::empty());
        assert(decode_utf8(front) =~= Seq::<char>::empty());
    } else {
        // Nothing more comes off the rest.
        assert(complete_end(rest, 0) == 0) by {
            if n == pending.len() {
                assert(rest =~= Seq::<u8>::empty());
            }
        }
        assert(next_text_of(rest) == (None::<Seq<char>>, rest));
        assert(drained(rest) == (Seq::<char>::empty(), rest));
        assert(next_text_of(pending) == (Some(decode_utf8(front)), rest));
        assert(decode_utf8(front) + Seq::<char>::empty() =~= decode_utf8(front));
    }
}

proof fn lemma_streamed(pending: Seq<u8>, pieces: Seq<Seq<u8>>)
    requires
        valid_utf8(pending + joined(pieces)),
        pieces.len() == 0 ==> pending.len() == 0,
    ensures
        streamed(pending, pieces) == (
            decode_utf8(pending + joined(pieces)),
            Seq::<u8>::empty(),
        ),
    decreases pieces.len(),
{
    if pieces.len() == 0 {
        assert(pending + joined(pieces) =~= Seq::<u8>::empty());
        assert(decode_utf8(pending + joined(pieces)) =~= Seq::<char>::empty());
        assert(pending =~= Seq::<u8>::empty());
    } else {
        let future = joined(pieces.drop_first());
        let now = pending + pieces[0];
        assert(pending + joined(pieces) =~= now + future);
        lemma_drained(now, future);
        let (text, rest) = drained(now);
        if pieces.drop_first().len() == 0 {
            assert(future.len() == 0);
        }
        lemma_streamed(rest, pieces.drop_first());
    }
}

/// No character is torn and none is lost: where all pieces together are valid UTF-8, however they
/// are cut, the text that they give one after the other is the text of all of them, and nothing is
/// held back at the end.
pub proof fn stream_is_whole_text(pieces: Seq<Seq<u8>>)
    requires
        valid_utf8(joined(pieces)),
    ensures
        streamed(Seq::empty(), pieces) == (decode_utf8(joined(pieces)), Seq::<u8>::empty()),
{
    assert(Seq::<u8>::empty() + joined(pieces) =~= joined(pieces));
    lemma_streamed(Seq::empty(), pieces);
}

/// Where complete characters from `at` on are valid text, they end at the end of the bytes or before
/// a character that is cut off.
proof fn lemma_stops_before_cut(p: Seq<u8>, at: int)
    requires
        0 <= at <= p.len(),
        valid_utf8(p.subrange(at, complete_end(p, at))),
    ensures
        ({
            let n = complete_end(p, at);
            n == p.len() || (char_width(p[n]) is Some && n + char_width(p[n])->Some_0 > p.len())
        }),
    decreases p.len() - at,
{
    lemma_complete_end(p, at);
    let n = complete_end(p, at);
    if at < p.len() {
        match char_width(p[at]) {
            None => {
                let one = p.subrange(at, at + 1);
                lemma_width(one);
                assert(one[0] == p[at]);
            },
            Some(w) => if at + w <= p.len() {
                lemma_complete_end(p, at + w);
                let here = p.subrange(at, n);
                lemma_width(here);
                assert(here[0] == p[at]);
                assert(pop_first_scalar(here) =~= p.subrange(at + w, n));
                lemma_stops_before_cut(p, at + w);
            },
        }
    }
}

/// What is held back behind a text that was taken off is no text: it is nothing, or the start of a
/// character. A run that is broken off there has nothing more to tell.
pub proof fn held_back_is_no_text(pending: Seq<u8>)
    requires
        next_text_of(pending).0 is Some,
    ensures
        next_text_of(pending).1.len() == 0 || !valid_utf8(next_text_of(pending).1),
        next_text_of(pending).1.len() < pending.len(),
    decreases pending.len(),
{
    lemma_complete_end(pending, 0);
    let n = complete_end(pending, 0);
    let chunk = pending.take(n);
    let rest = pending.skip(n);
    if valid_utf8(chunk) {
        assert(pending.subrange(0, n) =~= chunk);
        lemma_stops_before_cut(pending, 0);
        if rest.len() > 0 && valid_utf8(rest) {
            lemma_width(rest);
            assert(rest[0] == pending[n]);
        }
    } else {
        held_back_is_no_text(rest);
    }
}

} // verus!
