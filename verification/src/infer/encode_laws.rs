//! What encoding does, step by step: which pairs are merged and in which order, which tokens are
//! matched, and what a vocabulary makes of its metadata.
use vstd::prelude::*;
use vstd::utf8::*;
use crate::error::ErrorView;
use crate::file::{first_value, string_value, FileView};
use crate::infer::bytes_to_unicode::byte_char;
use crate::infer::tokenizer::{
    byte_symbols, decode_text, encode_ids, greedy_ids, ids_bytes, ids_chars, is_next_merge,
    longest_token, merge_all, merge_rules, merged_at, mergeable, pair_key, strings_of, token_bytes,
    token_ids, tokenizer_of, window, TokenizerView,
};
use crate::infer::tokenizer_laws::nothing_is_left_to_merge;
use crate::text::index_of_char;
use crate::types::ValueView;

verus! {

/// How many ids stand before those of a text: one, where the vocabulary has an id that starts a text
/// and puts it there.
pub open spec fn start_len(t: TokenizerView) -> int {
    if t.add_bos && t.bos_id is Some {
        1
    } else {
        0
    }
}

/// Two neighbouring ids that a rule merges.
pub open spec fn neighbours(merges: Map<u64, (u32, u32)>, s: Seq<u32>, i: int) -> bool {
    merges.contains_key(pair_key(s[i], s[i + 1]))
}

/// What every encoded text starts with: the id that starts a text, where the vocabulary puts it
/// there, and else nothing. The empty text is nothing more.
pub proof fn encoding_starts_with_its_start(t: TokenizerView, text: Seq<char>)
    ensures
        encode_ids(t, text).len() >= start_len(t),
        t.add_bos && t.bos_id is Some ==> encode_ids(t, text)[0] == t.bos_id->Some_0,
        encode_ids(t, Seq::empty()).len() == start_len(t),
{
}

/// A byte-level vocabulary merges until there is nothing left to merge: no two neighbours of an
/// encoded text are a pair that a rule merges, whatever they are.
pub proof fn no_neighbours_can_be_merged(t: TokenizerView, text: Seq<char>, i: int)
    requires
        t.byte_level,
        start_len(t) <= i < encode_ids(t, text).len() - 1,
    ensures
        !t.merges.contains_key(pair_key(encode_ids(t, text)[i], encode_ids(t, text)[i + 1])),
{
    let ids = encode_ids(t, text);
    let merged = merge_all(t.merges, byte_symbols(t.tokens, encode_utf8(text)));
    let k = i - start_len(t);
    nothing_is_left_to_merge(t.merges, byte_symbols(t.tokens, encode_utf8(text)), k);
    if text.len() > 0 {
        assert(ids[i] == merged[k] && ids[i + 1] == merged[k + 1]);
        assert(0 <= k < merged.len() - 1);
        assert(!mergeable(t.merges, merged, k));
    }
}

/// Where no neighbours can be merged, nothing is.
pub proof fn unmergeable_ids_stay(merges: Map<u64, (u32, u32)>, s: Seq<u32>)
    requires
        forall|i: int| 0 <= i < s.len() - 1 ==> !#[trigger] neighbours(merges, s, i),
    ensures
        merge_all(merges, s) == s,
{
    if exists|i: int| is_next_merge(merges, s, i) {
        let i = choose|i: int| is_next_merge(merges, s, i);
        assert(mergeable(merges, s, i));
        assert(neighbours(merges, s, i));
    }
}

/// The pair whose rule is the first in the list is merged first, and of several such pairs the one
/// furthest in front: merging it by hand changes nothing in the outcome.
pub proof fn first_rule_merges_first(merges: Map<u64, (u32, u32)>, s: Seq<u32>, i: int)
    requires
        0 <= i < s.len() - 1,
        neighbours(merges, s, i),
        forall|j: int|
            0 <= j < s.len() - 1 && #[trigger] neighbours(merges, s, j) ==> {
                let (a, b) = (
                    merges[pair_key(s[i], s[i + 1])].0,
                    merges[pair_key(s[j], s[j + 1])].0,
                );
                a < b || (a == b && i <= j)
            },
    ensures
        merge_all(merges, s) == merge_all(
            merges,
            s.take(i) + seq![merges[pair_key(s[i], s[i + 1])].1] + s.skip(i + 2),
        ),
{
    assert forall|j: int| #[trigger] mergeable(merges, s, j) implies {
        let (a, b) = (merges[pair_key(s[i], s[i + 1])].0, merges[pair_key(s[j], s[j + 1])].0);
        a < b || (a == b && i <= j)
    } by {
        assert(neighbours(merges, s, j));
    }
    assert(mergeable(merges, s, i));
    assert(is_next_merge(merges, s, i));
    let k = choose|k: int| is_next_merge(merges, s, k);
    assert(mergeable(merges, s, k));
    assert(k == i);
    assert(merged_at(merges, s, i) =~= s.take(i) + seq![merges[pair_key(s[i], s[i + 1])].1]
        + s.skip(i + 2));
}

/// The string of the token of a byte.
pub open spec fn byte_string(b: u8) -> Seq<char> {
    seq![byte_char(b)]
}

/// Whether an id is that of the token of a byte.
pub open spec fn is_symbol(tokens: Map<Seq<char>, u32>, b: u8, id: u32) -> bool {
    tokens.contains_key(byte_string(b)) && tokens[byte_string(b)] == id
}

/// A byte-level vocabulary starts from the tokens of a text's bytes, in their order.
pub proof fn encoding_starts_from_the_bytes(t: TokenizerView, text: Seq<char>, symbols: Seq<u32>)
    requires
        t.byte_level,
        text.len() > 0,
        symbols.len() == encode_utf8(text).len(),
        forall|i: int|
            0 <= i < symbols.len() ==> #[trigger] is_symbol(
                t.tokens,
                encode_utf8(text)[i],
                symbols[i],
            ),
    ensures
        encode_ids(t, text).skip(start_len(t)) == merge_all(t.merges, symbols),
{
    let bytes = encode_utf8(text);
    lemma_symbols(t.tokens, bytes, symbols);
    let ids = encode_ids(t, text);
    assert(ids.skip(start_len(t)) =~= merge_all(t.merges, symbols));
}

proof fn lemma_symbols(tokens: Map<Seq<char>, u32>, bytes: Seq<u8>, symbols: Seq<u32>)
    requires
        symbols.len() == bytes.len(),
        forall|i: int|
            0 <= i < symbols.len() ==> #[trigger] is_symbol(tokens, bytes[i], symbols[i]),
    ensures
        byte_symbols(tokens, bytes) == symbols,
    decreases bytes.len(),
{
    if bytes.len() > 0 {
        let (b, s) = (bytes.drop_last(), symbols.drop_last());
        assert forall|i: int| 0 <= i < s.len() implies #[trigger] is_symbol(
            tokens,
            b[i],
            s[i],
        ) by {
            assert(is_symbol(tokens, bytes[i], symbols[i]));
        }
        lemma_symbols(tokens, b, s);
        let n = bytes.len() - 1;
        assert(is_symbol(tokens, bytes[n], symbols[n]));
        assert(byte_symbols(tokens, bytes) =~= symbols);
    } else {
        assert(symbols =~= Seq::<u32>::empty());
    }
}

/// A byte without a token is left out, and the bytes around it are encoded as if it were not there.
pub proof fn unknown_bytes_are_left_out(tokens: Map<Seq<char>, u32>, a: Seq<u8>, b: u8, c: Seq<u8>)
    requires
        !tokens.contains_key(byte_string(b)),
    ensures
        byte_symbols(tokens, a.push(b) + c) == byte_symbols(tokens, a + c),
    decreases c.len(),
{
    if c.len() == 0 {
        assert(a.push(b) + c =~= a.push(b));
        assert(a + c =~= a);
        assert(a.push(b).drop_last() =~= a);
    } else {
        unknown_bytes_are_left_out(tokens, a, b, c.drop_last());
        assert((a.push(b) + c).drop_last() =~= a.push(b) + c.drop_last());
        assert((a + c).drop_last() =~= a + c.drop_last());
        assert((a.push(b) + c).last() == c.last() && (a + c).last() == c.last());
    }
}

// ---------------------------------------------------------------------------------------------
// Greedy matching
// ---------------------------------------------------------------------------------------------

/// Whether some bytes are the string of a token.
pub open spec fn is_token(tokens: Map<Seq<char>, u32>, bytes: Seq<u8>) -> bool {
    valid_utf8(bytes) && tokens.contains_key(decode_utf8(bytes))
}

proof fn lemma_longest(tokens: Map<Seq<char>, u32>, bytes: Seq<u8>, i: int, l: nat, k: nat)
    requires
        k <= l,
        k > 0 ==> is_token(tokens, bytes.subrange(i, i + k)),
        forall|m: int| k < m <= l ==> !is_token(tokens, #[trigger] bytes.subrange(i, i + m)),
    ensures
        longest_token(tokens, bytes, i, l) == k,
    decreases l,
{
    if l > 0 && k < l {
        assert(!is_token(tokens, bytes.subrange(i, i + l)));
        lemma_longest(tokens, bytes, i, (l - 1) as nat, k);
    }
}

/// Greedy matching takes the longest token of at most eight bytes that starts at a place, and goes on
/// behind it.
pub proof fn longest_token_is_matched(tokens: Map<Seq<char>, u32>, bytes: Seq<u8>, i: int, k: int)
    requires
        0 <= i,
        0 < k <= 8,
        i + k <= bytes.len(),
        is_token(tokens, bytes.subrange(i, i + k)),
        forall|m: int|
            k < m <= 8 && i + m <= bytes.len() ==> !is_token(
                tokens,
                #[trigger] bytes.subrange(i, i + m),
            ),
    ensures
        greedy_ids(tokens, bytes, i) == seq![tokens[decode_utf8(bytes.subrange(i, i + k))]]
            + greedy_ids(tokens, bytes, i + k),
{
    lemma_longest(tokens, bytes, i, window(bytes, i), k as nat);
}

/// A byte at which no token of at most eight bytes starts is left out.
pub proof fn unmatched_byte_is_left_out(tokens: Map<Seq<char>, u32>, bytes: Seq<u8>, i: int)
    requires
        0 <= i < bytes.len(),
        forall|m: int|
            0 < m <= 8 && i + m <= bytes.len() ==> !is_token(
                tokens,
                #[trigger] bytes.subrange(i, i + m),
            ),
    ensures
        greedy_ids(tokens, bytes, i) == greedy_ids(tokens, bytes, i + 1),
{
    lemma_longest(tokens, bytes, i, window(bytes, i), 0);
}

/// Other vocabularies match a text's bytes from the first to the last.
pub proof fn encoding_matches_from_the_start(t: TokenizerView, text: Seq<char>, end: int)
    requires
        !t.byte_level,
    ensures
        encode_ids(t, text).skip(start_len(t)) == greedy_ids(t.tokens, encode_utf8(text), 0),
        end >= encode_utf8(text).len() ==> greedy_ids(t.tokens, encode_utf8(text), end).len() == 0,
{
    if text.len() == 0 {
        assert(encode_utf8(text).len() == 0);
    }
    assert(encode_ids(t, text).skip(start_len(t)) =~= greedy_ids(t.tokens, encode_utf8(text), 0));
}

// ---------------------------------------------------------------------------------------------
// Decoding
// ---------------------------------------------------------------------------------------------

/// One more id adds the bytes of its token, and an id that is no token adds nothing.
pub proof fn ids_decode_one_by_one(strings: Seq<Seq<char>>, ids: Seq<u32>, id: u32)
    ensures
        id < strings.len() ==> ids_bytes(strings, ids.push(id)) == ids_bytes(strings, ids)
            + token_bytes(strings[id as int]) && ids_chars(strings, ids.push(id)) == ids_chars(
            strings,
            ids,
        ) + strings[id as int],
        id >= strings.len() ==> ids_bytes(strings, ids.push(id)) == ids_bytes(strings, ids)
            && ids_chars(strings, ids.push(id)) == ids_chars(strings, ids),
{
    assert(ids.push(id).drop_last() =~= ids);
    assert(ids_bytes(strings, ids) + Seq::<u8>::empty() =~= ids_bytes(strings, ids));
    assert(ids_chars(strings, ids) + Seq::<char>::empty() =~= ids_chars(strings, ids));
    if id >= strings.len() {
        assert(token_bytes(Seq::<char>::empty()) =~= Seq::<u8>::empty());
    }
}

/// One more character of a token adds the byte that it stands for, or else its own bytes.
pub proof fn characters_decode_one_by_one(s: Seq<char>, c: char, b: u8)
    ensures
        byte_char(b) == c ==> token_bytes(s.push(c)) == token_bytes(s).push(b),
        (forall|x: u8| #[trigger] byte_char(x) != c) ==> token_bytes(s.push(c)) == token_bytes(s)
            + encode_utf8(seq![c]),
{
    assert(s.push(c).drop_last() =~= s);
    if byte_char(b) == c {
        crate::infer::bytes_to_unicode::byte_survives_its_character(b);
        assert(token_bytes(s) + seq![b] =~= token_bytes(s).push(b));
    }
}

/// A byte-level vocabulary decodes ids to the text whose UTF-8 bytes they have; any other to their
/// strings.
pub proof fn decoding_is_the_text(t: TokenizerView, ids: Seq<u32>, text: Seq<char>)
    ensures
        t.byte_level && ids_bytes(t.strings, ids) == encode_utf8(text) ==> decode_text(t, ids)
            == text,
        !t.byte_level ==> decode_text(t, ids) == ids_chars(t.strings, ids),
{
    encode_utf8_valid_utf8(text);
    encode_utf8_decode_utf8(text);
}

// ---------------------------------------------------------------------------------------------
// The vocabulary of a file
// ---------------------------------------------------------------------------------------------

/// The last of several tokens with the same string has it, and no other token is changed by it.
pub proof fn last_token_has_the_string(strings: Seq<Seq<char>>, s: Seq<char>, other: Seq<char>)
    requires
        strings.len() <= 0xffff_ffff,
        other != s,
    ensures
        token_ids(strings.push(s)).contains_key(s),
        token_ids(strings.push(s))[s] == strings.len(),
        token_ids(strings.push(s)).contains_key(other) == token_ids(strings).contains_key(other),
        token_ids(strings).contains_key(other) ==> token_ids(strings.push(s))[other] == token_ids(
            strings,
        )[other],
{
    assert(strings.push(s).drop_last() =~= strings);
}

proof fn lemma_first_space(left: Seq<char>, right: Seq<char>)
    requires
        !left.contains(' '),
    ensures
        index_of_char(left.push(' ') + right, ' ') == Some(left.len() as int),
    decreases left.len(),
{
    let s = left.push(' ') + right;
    if left.len() > 0 {
        assert(left[0] != ' ') by {
            assert(left.contains(left[0]));
        }
        assert forall|i: int| 0 <= i < left.drop_first().len() implies left.drop_first()[i]
            != ' ' by {
            assert(left.contains(left[i + 1]));
        }
        lemma_first_space(left.drop_first(), right);
        assert(s.drop_first() =~= left.drop_first().push(' ') + right);
    }
}

/// A rule `left right` merges the two tokens to the one whose string is theirs together; its rank is
/// its place in the list, and it takes the place of any rule before it for the same two. A rule of
/// which a part is no token changes nothing.
pub proof fn rule_merges_its_parts(
    tokens: Map<Seq<char>, u32>,
    rules: Seq<ValueView>,
    left: Seq<char>,
    right: Seq<char>,
)
    requires
        !left.contains(' '),
        rules.len() <= 0xffff_ffff,
    ensures
        ({
            let more = rules.push(ValueView::String(left.push(' ') + right));
            if tokens.contains_key(left) && tokens.contains_key(right) && tokens.contains_key(
                left + right,
            ) {
                merge_rules(tokens, more) == merge_rules(tokens, rules).insert(
                    pair_key(tokens[left], tokens[right]),
                    (rules.len() as u32, tokens[left + right]),
                )
            } else {
                merge_rules(tokens, more) == merge_rules(tokens, rules)
            }
        }),
{
    let rule = left.push(' ') + right;
    let more = rules.push(ValueView::String(rule));
    assert(more.drop_last() =~= rules);
    lemma_first_space(left, right);
    assert(rule.take(left.len() as int) =~= left);
    assert(rule.skip(left.len() as int + 1) =~= right);
}

/// A pair of ids is told by its two ids.
pub proof fn pairs_are_told_apart(a: u32, b: u32, c: u32, d: u32)
    ensures
        pair_key(a, b) == pair_key(c, d) ==> a == c && b == d,
{
}

/// The first value under a key of the newer style, or else under the same key of the older one.
pub open spec fn stated(f: FileView, arch: Seq<char>, new: Seq<char>, old: Seq<char>) -> Option<
    ValueView,
> {
    match first_value(f.kv, new) {
        Some(v) => Some(v),
        None => first_value(f.kv, arch + ".tokenizer."@ + old),
    }
}

/// What a vocabulary is made of: its tokens, in their order, its merges, the ids that start and end
/// a text, and whether the first is put before every text, which it is unless the file says no. It
/// is byte-level where `h` and `i` are tokens.
pub proof fn vocabulary_is_as_stated(f: FileView, arch: Seq<char>, i: int)
    requires
        tokenizer_of(f) is Ok,
        string_value(f.kv, "general.architecture"@) == Some(arch),
    ensures
        ({
            let t = tokenizer_of(f)->Ok_0;
            &&& stated(f, arch, "tokenizer.ggml.tokens"@, "tokens"@) matches Some(
                ValueView::Array(_, data),
            ) && t.strings.len() == data.len() && (0 <= i < data.len() ==> data[i]
                == ValueView::String(t.strings[i]))
            &&& t.byte_level <==> t.tokens.contains_key("h"@) && t.tokens.contains_key("i"@)
            &&& stated(f, arch, "tokenizer.ggml.bos_token_id"@, "bos_token_id"@) matches Some(
                ValueView::U32(id),
            ) ==> t.bos_id == Some(id)
            &&& stated(f, arch, "tokenizer.ggml.bos_token_id"@, "bos_token_id"@) is None
                ==> t.bos_id is None
            &&& stated(f, arch, "tokenizer.ggml.eos_token_id"@, "eos_token_id"@) matches Some(
                ValueView::U32(id),
            ) ==> t.eos_id == Some(id)
            &&& stated(f, arch, "tokenizer.ggml.eos_token_id"@, "eos_token_id"@) is None
                ==> t.eos_id is None
            &&& t.add_bos == !(stated(f, arch, "tokenizer.ggml.add_bos_token"@, "add_bos"@) == Some(
                ValueView::Bool(false),
            ))
            &&& stated(f, arch, "tokenizer.ggml.merges"@, "merges"@) matches Some(
                ValueView::Array(_, rules),
            ) ==> t.merges == merge_rules(t.tokens, rules)
        }),
{
    match stated(f, arch, "tokenizer.ggml.tokens"@, "tokens"@) {
        Some(ValueView::Array(_, data)) => {
            lemma_strings(data, data.len());
        },
        _ => {},
    }
}

proof fn lemma_strings(data: Seq<ValueView>, n: nat)
    requires
        n <= data.len(),
        strings_of(data, n) is Ok,
    ensures
        strings_of(data, n)->Ok_0.len() == n,
        forall|i: int|
            0 <= i < n ==> #[trigger] data[i] == ValueView::String(strings_of(data, n)->Ok_0[i]),
    decreases n,
{
    if n > 0 {
        lemma_strings(data, (n - 1) as nat);
    }
}

/// A list of tokens of which one is no string is refused, and so is a file without tokens.
pub proof fn damaged_vocabulary_is_refused(f: FileView, arch: Seq<char>, i: int)
    requires
        string_value(f.kv, "general.architecture"@) == Some(arch),
    ensures
        stated(f, arch, "tokenizer.ggml.tokens"@, "tokens"@) is None ==> tokenizer_of(f) == Err::<
            TokenizerView,
            ErrorView,
        >(ErrorView::MissingTensor { name: "tokenizer.ggml.tokens"@, kind: "kv"@ }),
        stated(f, arch, "tokenizer.ggml.tokens"@, "tokens"@) matches Some(
            ValueView::Array(_, data),
        ) && 0 <= i < data.len() && !(data[i] is String) ==> tokenizer_of(f) is Err,
{
    match stated(f, arch, "tokenizer.ggml.tokens"@, "tokens"@) {
        Some(ValueView::Array(_, data)) => {
            if 0 <= i < data.len() && strings_of(data, data.len()) is Ok {
                lemma_strings(data, data.len());
                assert(data[i] is String);
            }
        },
        _ => {},
    }
}

/// A list of strings is taken whole and in its order, and the first entry that is no string is the
/// one that is reported.
pub proof fn first_damaged_entry_is_told(data: Seq<ValueView>, n: nat)
    requires
        n <= data.len(),
    ensures
        match strings_of(data, n) {
            Ok(s) => s.len() == n && forall|k: int|
                0 <= k < n ==> #[trigger] data[k] == ValueView::String(s[k]),
            Err(i) => i < n && !(data[i as int] is String) && forall|k: int|
                0 <= k < i ==> (#[trigger] data[k]) is String,
        },
    decreases n,
{
    if n > 0 {
        first_damaged_entry_is_told(data, (n - 1) as nat);
    }
}

} // verus!
