//! What holds of every vocabulary that is read from a file.
use vstd::prelude::*;
use vstd::utf8::*;
use crate::file::FileView;
use crate::infer::bytes_to_unicode::{byte_char, byte_survives_its_character};
use crate::infer::tokenizer::{
    bos_ids, byte_symbols, decode_text, either_value, encode_ids, greedy_ids, ids_bytes, ids_chars,
    is_next_merge, lemma_longest_bound, lemma_pair_key, longest_token, merge_all, merge_rule,
    merge_rules, mergeable, merged_at, old_key, pair_key, rank_at, string_at, token_at, token_bytes,
    token_ids, tokenizer_of, window, TokenizerView,
};
use crate::text::index_of_char;
use crate::types::ValueView;

verus! {

// ---------------------------------------------------------------------------------------------
// Merging
// ---------------------------------------------------------------------------------------------

/// Whether the pair at `i` comes before every other one below `n`.
spec fn best_below(merges: Map<u64, (u32, u32)>, s: Seq<u32>, n: int, i: int) -> bool {
    &&& i < n
    &&& mergeable(merges, s, i)
    &&& forall|j: int|
        j < n && #[trigger] mergeable(merges, s, j) ==> rank_at(merges, s, i) < rank_at(merges, s, j)
            || (rank_at(merges, s, i) == rank_at(merges, s, j) && i <= j)
}

/// Where some pair below `n` can be merged, one comes before every other.
proof fn lemma_best_exists(merges: Map<u64, (u32, u32)>, s: Seq<u32>, n: int, some: int) -> (best:
    int)
    requires
        some < n,
        mergeable(merges, s, some),
    ensures
        best_below(merges, s, n, best),
    decreases n,
{
    if exists|i: int| i < n - 1 && mergeable(merges, s, i) {
        let i = choose|i: int| i < n - 1 && mergeable(merges, s, i);
        let b = lemma_best_exists(merges, s, n - 1, i);
        if mergeable(merges, s, n - 1) && rank_at(merges, s, n - 1) < rank_at(merges, s, b) {
            n - 1
        } else {
            b
        }
    } else {
        some
    }
}

/// Encoding merges until nothing is left to merge.
pub proof fn nothing_is_left_to_merge(merges: Map<u64, (u32, u32)>, s: Seq<u32>, i: int)
    ensures
        !mergeable(merges, merge_all(merges, s), i),
    decreases s.len(),
{
    if exists|k: int| is_next_merge(merges, s, k) {
        let k = choose|k: int| is_next_merge(merges, s, k);
        nothing_is_left_to_merge(merges, merged_at(merges, s, k), i);
    } else if mergeable(merges, s, i) {
        let b = lemma_best_exists(merges, s, s.len() as int, i);
        assert(is_next_merge(merges, s, b));
    }
}

// ---------------------------------------------------------------------------------------------
// Decoding in parts
// ---------------------------------------------------------------------------------------------

/// The bytes of two lists of ids, one behind the other, are those of each.
pub proof fn bytes_of_parts(strings: Seq<Seq<char>>, a: Seq<u32>, b: Seq<u32>)
    ensures
        ids_bytes(strings, a + b) == ids_bytes(strings, a) + ids_bytes(strings, b),
    decreases b.len(),
{
    if b.len() == 0 {
        assert(a + b =~= a);
        assert(ids_bytes(strings, a) + Seq::<u8>::empty() =~= ids_bytes(strings, a));
    } else {
        bytes_of_parts(strings, a, b.drop_last());
        assert((a + b).drop_last() =~= a + b.drop_last());
        assert((a + b).last() == b.last());
        assert(ids_bytes(strings, a + b) =~= ids_bytes(strings, a) + ids_bytes(strings, b));
    }
}

proof fn lemma_chars_of_parts(strings: Seq<Seq<char>>, a: Seq<u32>, b: Seq<u32>)
    ensures
        ids_chars(strings, a + b) == ids_chars(strings, a) + ids_chars(strings, b),
    decreases b.len(),
{
    if b.len() == 0 {
        assert(a + b =~= a);
        assert(ids_chars(strings, a) + Seq::<char>::empty() =~= ids_chars(strings, a));
    } else {
        lemma_chars_of_parts(strings, a, b.drop_last());
        assert((a + b).drop_last() =~= a + b.drop_last());
        assert((a + b).last() == b.last());
        assert(ids_chars(strings, a + b) =~= ids_chars(strings, a) + ids_chars(strings, b));
    }
}

/// A vocabulary that is not byte-level decodes two lists of ids, one behind the other, to the text
/// of each.
pub proof fn text_of_parts(t: TokenizerView, a: Seq<u32>, b: Seq<u32>)
    requires
        !t.byte_level,
    ensures
        decode_text(t, a + b) == decode_text(t, a) + decode_text(t, b),
{
    lemma_chars_of_parts(t.strings, a, b);
}

// ---------------------------------------------------------------------------------------------
// Strings and ids
// ---------------------------------------------------------------------------------------------

/// A vocabulary whose ids fit in 32 bits finds every token under its string: the id of a string is
/// one whose string it is.
pub proof fn id_has_its_string(strings: Seq<Seq<char>>, s: Seq<char>)
    requires
        strings.len() <= 0x1_0000_0000,
        token_ids(strings).contains_key(s),
    ensures
        token_ids(strings)[s] < strings.len(),
        strings[token_ids(strings)[s] as int] == s,
    decreases strings.len(),
{
    if strings.len() > 0 && s != strings.last() {
        id_has_its_string(strings.drop_last(), s);
    }
}

/// Every token is found.
pub proof fn every_token_has_an_id(strings: Seq<Seq<char>>, i: int)
    requires
        0 <= i < strings.len(),
    ensures
        token_ids(strings).contains_key(strings[i]),
    decreases strings.len(),
{
    if i < strings.len() - 1 {
        every_token_has_an_id(strings.drop_last(), i);
    }
}

/// A merge joins two tokens to the token whose string is theirs together.
pub open spec fn joins(strings: Seq<Seq<char>>, left: u32, right: u32, merged: u32) -> bool {
    &&& left < strings.len()
    &&& right < strings.len()
    &&& merged < strings.len()
    &&& strings[merged as int] == strings[left as int] + strings[right as int]
}

proof fn lemma_rules_join(strings: Seq<Seq<char>>, rules: Seq<ValueView>, left: u32, right: u32)
    requires
        strings.len() <= 0x1_0000_0000,
        merge_rules(token_ids(strings), rules).contains_key(pair_key(left, right)),
    ensures
        joins(
            strings,
            left,
            right,
            merge_rules(token_ids(strings), rules)[pair_key(left, right)].1,
        ),
    decreases rules.len(),
{
    let tokens = token_ids(strings);
    if rules.len() > 0 {
        let rest = merge_rules(tokens, rules.drop_last());
        let key = pair_key(left, right);
        match rules.last() {
            ValueView::String(s) => match merge_rule(tokens, s) {
                Some((pair, merged)) => if pair == key {
                    let k = index_of_char(s, ' ')->Some_0;
                    let l = s.take(k);
                    let r = s.skip(k + 1);
                    lemma_pair_key(tokens[l], tokens[r], left, right);
                    id_has_its_string(strings, l);
                    id_has_its_string(strings, r);
                    id_has_its_string(strings, l + r);
                } else {
                    lemma_rules_join(strings, rules.drop_last(), left, right);
                },
                None => lemma_rules_join(strings, rules.drop_last(), left, right),
            },
            _ => lemma_rules_join(strings, rules.drop_last(), left, right),
        }
    }
}

/// Every merge of a vocabulary that is read from a file joins two tokens to the token whose string
/// is theirs together.
pub proof fn merges_join_strings(f: FileView, left: u32, right: u32)
    requires
        tokenizer_of(f) is Ok,
        tokenizer_of(f)->Ok_0.strings.len() <= 0x1_0000_0000,
        tokenizer_of(f)->Ok_0.merges.contains_key(pair_key(left, right)),
    ensures
        joins(
            tokenizer_of(f)->Ok_0.strings,
            left,
            right,
            tokenizer_of(f)->Ok_0.merges[pair_key(left, right)].1,
        ),
{
    let t = tokenizer_of(f)->Ok_0;
    let arch = crate::file::string_value(f.kv, "general.architecture"@)->Some_0;
    match either_value(f.kv, "tokenizer.ggml.merges"@, old_key(arch, "merges"@)) {
        Some(ValueView::Array(_, rules)) => lemma_rules_join(t.strings, rules, left, right),
        _ => {},
    }
}

// ---------------------------------------------------------------------------------------------
// A text survives being encoded
// ---------------------------------------------------------------------------------------------

/// Whether every byte has a token of its own.
pub open spec fn has_all_bytes(t: TokenizerView) -> bool {
    forall|b: u8| t.tokens.contains_key(#[trigger] seq![byte_char(b)])
}

proof fn lemma_token_bytes_concat(a: Seq<char>, b: Seq<char>)
    ensures
        token_bytes(a + b) == token_bytes(a) + token_bytes(b),
    decreases b.len(),
{
    if b.len() == 0 {
        assert(a + b =~= a);
        assert(token_bytes(a) + Seq::<u8>::empty() =~= token_bytes(a));
    } else {
        lemma_token_bytes_concat(a, b.drop_last());
        assert((a + b).drop_last() =~= a + b.drop_last());
        assert((a + b).last() == b.last());
        assert(token_bytes(a + b) =~= token_bytes(a) + token_bytes(b));
    }
}

proof fn lemma_byte_token(b: u8)
    ensures
        token_bytes(seq![byte_char(b)]) == seq![b],
{
    let s = seq![byte_char(b)];
    byte_survives_its_character(b);
    assert(s.drop_last() =~= Seq::<char>::empty());
    assert(token_bytes(s.drop_last()) =~= Seq::<u8>::empty());
    assert(token_bytes(s) =~= seq![b]);
}

proof fn lemma_symbols_bytes(t: TokenizerView, bytes: Seq<u8>)
    requires
        t.strings.len() <= 0x1_0000_0000,
        t.tokens == token_ids(t.strings),
        has_all_bytes(t),
    ensures
        ids_bytes(t.strings, byte_symbols(t.tokens, bytes)) == bytes,
    decreases bytes.len(),
{
    if bytes.len() == 0 {
        assert(bytes =~= Seq::<u8>::empty());
    } else {
        let s = seq![byte_char(bytes.last())];
        let rest = byte_symbols(t.tokens, bytes.drop_last());
        lemma_symbols_bytes(t, bytes.drop_last());
        assert(t.tokens.contains_key(s));
        id_has_its_string(t.strings, s);
        lemma_byte_token(bytes.last());
        assert(rest.push(t.tokens[s]).drop_last() =~= rest);
        assert(ids_bytes(t.strings, byte_symbols(t.tokens, bytes)) =~= bytes);
    }
}

proof fn lemma_one_id(strings: Seq<Seq<char>>, id: u32)
    ensures
        ids_bytes(strings, seq![id]) == token_bytes(string_at(strings, id)),
{
    assert(seq![id].drop_last() =~= Seq::<u32>::empty());
    assert(ids_bytes(strings, seq![id].drop_last()) =~= Seq::<u8>::empty());
    assert(ids_bytes(strings, seq![id]) =~= token_bytes(string_at(strings, id)));
}

proof fn lemma_merge_keeps_bytes(t: TokenizerView, s: Seq<u32>, i: int)
    requires
        mergeable(t.merges, s, i),
        joins(t.strings, s[i], s[i + 1], t.merges[pair_key(s[i], s[i + 1])].1),
    ensures
        ids_bytes(t.strings, merged_at(t.merges, s, i)) == ids_bytes(t.strings, s),
{
    let m = t.merges[pair_key(s[i], s[i + 1])].1;
    let strings = t.strings;
    let head = s.take(i);
    let tail = s.skip(i + 2);
    assert(s =~= head + (seq![s[i]] + seq![s[i + 1]]) + tail);
    assert(merged_at(t.merges, s, i) =~= head + seq![m] + tail);
    bytes_of_parts(strings, head + (seq![s[i]] + seq![s[i + 1]]), tail);
    bytes_of_parts(strings, head, seq![s[i]] + seq![s[i + 1]]);
    bytes_of_parts(strings, seq![s[i]], seq![s[i + 1]]);
    bytes_of_parts(strings, head + seq![m], tail);
    bytes_of_parts(strings, head, seq![m]);
    lemma_one_id(strings, s[i]);
    lemma_one_id(strings, s[i + 1]);
    lemma_one_id(strings, m);
    lemma_token_bytes_concat(strings[s[i] as int], strings[s[i + 1] as int]);
}

proof fn lemma_merge_all_keeps_bytes(f: FileView, s: Seq<u32>)
    requires
        tokenizer_of(f) is Ok,
        tokenizer_of(f)->Ok_0.strings.len() <= 0x1_0000_0000,
    ensures
        ids_bytes(
            tokenizer_of(f)->Ok_0.strings,
            merge_all(tokenizer_of(f)->Ok_0.merges, s),
        ) == ids_bytes(tokenizer_of(f)->Ok_0.strings, s),
    decreases s.len(),
{
    let t = tokenizer_of(f)->Ok_0;
    if exists|i: int| is_next_merge(t.merges, s, i) {
        let i = choose|i: int| is_next_merge(t.merges, s, i);
        merges_join_strings(f, s[i], s[i + 1]);
        lemma_merge_keeps_bytes(t, s, i);
        lemma_merge_all_keeps_bytes(f, merged_at(t.merges, s, i));
    }
}

/// A text comes back from its ids: a byte-level vocabulary that is read from a file, and has a
/// token for every byte, decodes what it encodes, without the id that starts every text, to the
/// text itself.
pub proof fn text_survives_encoding(f: FileView, text: Seq<char>)
    requires
        tokenizer_of(f) is Ok,
        tokenizer_of(f)->Ok_0.byte_level,
        tokenizer_of(f)->Ok_0.strings.len() <= 0x1_0000_0000,
        has_all_bytes(tokenizer_of(f)->Ok_0),
    ensures
        decode_text(
            tokenizer_of(f)->Ok_0,
            encode_ids(tokenizer_of(f)->Ok_0, text).skip(
                bos_ids(tokenizer_of(f)->Ok_0).len() as int,
            ),
        ) == text,
{
    let t = tokenizer_of(f)->Ok_0;
    let start = bos_ids(t);
    let bytes = encode_utf8(text);
    encode_utf8_valid_utf8(text);
    encode_utf8_decode_utf8(text);
    if text.len() == 0 {
        assert(encode_ids(t, text).skip(start.len() as int) =~= Seq::<u32>::empty());
        assert(bytes =~= Seq::<u8>::empty());
    } else {
        let ids = merge_all(t.merges, byte_symbols(t.tokens, bytes));
        assert(encode_ids(t, text).skip(start.len() as int) =~= ids);
        lemma_merge_all_keeps_bytes(f, byte_symbols(t.tokens, bytes));
        lemma_symbols_bytes(t, bytes);
    }
}

// ---------------------------------------------------------------------------------------------
// A text survives greedy matching
// ---------------------------------------------------------------------------------------------

proof fn lemma_encode_concat(a: Seq<char>, b: Seq<char>)
    ensures
        encode_utf8(a + b) == encode_utf8(a) + encode_utf8(b),
    decreases a.len(),
{
    if a.len() == 0 {
        assert(a + b =~= b);
        assert(encode_utf8(a) + encode_utf8(b) =~= encode_utf8(b));
    } else {
        lemma_encode_concat(a.drop_first(), b);
        assert((a + b).drop_first() =~= a.drop_first() + b);
        assert(encode_utf8(a + b) =~= encode_utf8(a) + encode_utf8(b));
    }
}

/// Valid bytes behind valid bytes decode to the characters of both.
pub proof fn lemma_decode_concat(a: Seq<u8>, b: Seq<u8>)
    requires
        valid_utf8(a),
        valid_utf8(b),
    ensures
        decode_utf8(a + b) == decode_utf8(a) + decode_utf8(b),
{
    let (x, y) = (decode_utf8(a), decode_utf8(b));
    decode_utf8_encode_utf8(a);
    decode_utf8_encode_utf8(b);
    lemma_encode_concat(x, y);
    encode_utf8_decode_utf8(x + y);
}

/// The longest token is a token, and at least as long as any other.
proof fn lemma_longest_is_longest(
    tokens: Map<Seq<char>, u32>,
    bytes: Seq<u8>,
    i: int,
    l: nat,
    some: nat,
)
    requires
        0 < some <= l,
        token_at(tokens, bytes, i, some as int),
    ensures
        longest_token(tokens, bytes, i, l) >= some,
        token_at(tokens, bytes, i, longest_token(tokens, bytes, i, l) as int),
    decreases l,
{
    if !token_at(tokens, bytes, i, l as int) {
        lemma_longest_is_longest(tokens, bytes, i, (l - 1) as nat, some);
    }
}

proof fn lemma_greedy_text(strings: Seq<Seq<char>>, bytes: Seq<u8>, i: int)
    requires
        strings.len() <= 0x1_0000_0000,
        0 <= i <= bytes.len(),
        valid_utf8(bytes.skip(i)),
        forall|k: int|
            0 <= k < decode_utf8(bytes.skip(i)).len() ==> token_ids(strings).contains_key(
                seq![#[trigger] decode_utf8(bytes.skip(i))[k]],
            ),
    ensures
        ids_chars(strings, greedy_ids(token_ids(strings), bytes, i)) == decode_utf8(bytes.skip(i)),
    decreases bytes.len() - i,
{
    let tokens = token_ids(strings);
    let rest = bytes.skip(i);
    if i < bytes.len() {
        let k = length_of_first_scalar(rest);
        let word = rest.subrange(0, k);
        assert(word =~= bytes.subrange(i, i + k));
        assert(pop_first_scalar(word) =~= Seq::<u8>::empty());
        assert(valid_utf8(word)) by {
            reveal_with_fuel(valid_utf8, 2);
        }
        assert(decode_utf8(word) =~= seq![decode_utf8(rest)[0]]) by {
            reveal_with_fuel(decode_utf8, 2);
        }
        assert(token_at(tokens, bytes, i, k));
        let w = window(bytes, i);
        lemma_longest_is_longest(tokens, bytes, i, w, k as nat);
        lemma_longest_bound(tokens, bytes, i, w);
        let l = longest_token(tokens, bytes, i, w);
        let head = bytes.subrange(i, i + l);
        let tail = bytes.skip(i + l);
        assert(rest.subrange(0, l as int) =~= head);
        assert(rest.subrange(l as int, rest.len() as int) =~= tail);
        if !valid_utf8(tail) {
            partial_valid_partial_invalid_utf8(rest, l as int);
        }
        assert(head + tail =~= rest);
        lemma_decode_concat(head, tail);
        let all = decode_utf8(rest);
        let later = decode_utf8(tail);
        assert forall|j: int| 0 <= j < later.len() implies tokens.contains_key(
            seq![#[trigger] later[j]],
        ) by {
            assert(all[decode_utf8(head).len() + j] == later[j]);
        }
        lemma_greedy_text(strings, bytes, i + l);
        let id = tokens[decode_utf8(head)];
        id_has_its_string(strings, decode_utf8(head));
        let ids = greedy_ids(tokens, bytes, i + l);
        lemma_chars_of_parts(strings, seq![id], ids);
        assert(seq![id].drop_last() =~= Seq::<u32>::empty());
        assert(ids_chars(strings, seq![id].drop_last()) =~= Seq::<char>::empty());
        assert(ids_chars(strings, seq![id]) =~= decode_utf8(head));
    } else {
        assert(rest =~= Seq::<u8>::empty());
        assert(decode_utf8(rest) =~= Seq::<char>::empty());
    }
}

/// A text comes back from its ids under greedy matching too, where each of its characters is a
/// token.
pub proof fn text_survives_greedy_matching(f: FileView, text: Seq<char>)
    requires
        tokenizer_of(f) is Ok,
        !tokenizer_of(f)->Ok_0.byte_level,
        tokenizer_of(f)->Ok_0.strings.len() <= 0x1_0000_0000,
        forall|k: int|
            0 <= k < text.len() ==> tokenizer_of(f)->Ok_0.tokens.contains_key(
                seq![#[trigger] text[k]],
            ),
    ensures
        decode_text(
            tokenizer_of(f)->Ok_0,
            encode_ids(tokenizer_of(f)->Ok_0, text).skip(
                bos_ids(tokenizer_of(f)->Ok_0).len() as int,
            ),
        ) == text,
{
    let t = tokenizer_of(f)->Ok_0;
    let start = bos_ids(t);
    let bytes = encode_utf8(text);
    encode_utf8_valid_utf8(text);
    encode_utf8_decode_utf8(text);
    assert(bytes.skip(0) =~= bytes);
    if text.len() == 0 {
        assert(encode_ids(t, text).skip(start.len() as int) =~= Seq::<u32>::empty());
        assert(text =~= Seq::<char>::empty());
    } else {
        let ids = greedy_ids(t.tokens, bytes, 0);
        assert(encode_ids(t, text).skip(start.len() as int) =~= ids);
        lemma_greedy_text(t.strings, bytes, 0);
    }
}

/// Without merges to make and tokens to match, an empty text is encoded as the id that starts every
/// text, or as nothing.
pub proof fn empty_text_is_its_start(t: TokenizerView)
    ensures
        encode_ids(t, Seq::empty()) == bos_ids(t),
{
}

} // verus!
