//! The vocabulary of a model: text to token ids and back.
//!
//! A vocabulary that has the tokens `h` and `i` is a byte-level one: text is taken byte by byte and
//! neighbouring tokens are merged by the model's rules. Any other vocabulary is matched greedily,
//! the longest token first.
use std::collections::HashMap;
use vstd::prelude::*;
use vstd::hash_map::StringHashMap;
use vstd::slice::{slice_subrange, slice_to_vec};
use vstd::string::*;
use vstd::utf8::*;
use crate::error::{ErrorView, GgufError, GgufResult};
use crate::file::{first_value, string_value, FileView, GgufFile};
use crate::text::{
    chars_of, concat, dec, find_char, index_of_char, owned, push_dec, string_of, utf8_string,
};
use crate::types::{lemma_array_view, value_i64, values_view, GgufArray, GgufValue, ValueView};
use crate::infer::bytes_to_unicode::{byte_char, char_byte, gpt2_byte_to_char};

pub use crate::infer::bytes_to_unicode::gpt2_token_to_byte;

verus! {

// ---------------------------------------------------------------------------------------------
// What the metadata says of the vocabulary
// ---------------------------------------------------------------------------------------------

/// A vocabulary.
pub struct TokenizerView {
    /// The id of each token by its string.
    pub tokens: Map<Seq<char>, u32>,
    /// The string of each token by its id.
    pub strings: Seq<Seq<char>>,
    /// Whether text is taken byte by byte.
    pub byte_level: bool,
    /// For two neighbouring ids, as [`pair_key`] joins them: the rank of the rule that merges them
    /// and the id of what they become.
    pub merges: Map<u64, (u32, u32)>,
    pub bos_id: Option<u32>,
    pub eos_id: Option<u32>,
    pub add_bos: bool,
}

/// Two ids as one number.
pub open spec fn pair_key(left: u32, right: u32) -> u64 {
    (left * 0x1_0000_0000 + right) as u64
}

/// The first value under a key, or else the first under another.
pub open spec fn either_value(
    kv: Seq<(Seq<char>, ValueView)>,
    new_key: Seq<char>,
    old_key: Seq<char>,
) -> Option<ValueView> {
    match first_value(kv, new_key) {
        Some(v) => Some(v),
        None => first_value(kv, old_key),
    }
}

/// A key of the older style, which starts with the architecture.
pub open spec fn old_key(arch: Seq<char>, name: Seq<char>) -> Seq<char> {
    arch + ".tokenizer."@ + name
}

/// The strings of the first `n` values, or the place of the first that is none.
pub open spec fn strings_of(data: Seq<ValueView>, n: nat) -> Result<Seq<Seq<char>>, nat>
    decreases n,
{
    if n == 0 {
        Ok(Seq::empty())
    } else {
        match strings_of(data, (n - 1) as nat) {
            Err(i) => Err(i),
            Ok(s) => match data[n - 1] {
                ValueView::String(x) => Ok(s.push(x)),
                _ => Err((n - 1) as nat),
            },
        }
    }
}

/// The id of each token: its place, and of a string that occurs more than once the last.
pub open spec fn token_ids(strings: Seq<Seq<char>>) -> Map<Seq<char>, u32>
    decreases strings.len(),
{
    if strings.len() == 0 {
        Map::empty()
    } else {
        token_ids(strings.drop_last()).insert(strings.last(), (strings.len() - 1) as u32)
    }
}

/// What a rule `left right` merges: the pair, and the token that they become together. All three
/// must be in the vocabulary.
pub open spec fn merge_rule(tokens: Map<Seq<char>, u32>, rule: Seq<char>) -> Option<(u64, u32)> {
    match index_of_char(rule, ' ') {
        None => None,
        Some(k) => {
            let left = rule.take(k);
            let right = rule.skip(k + 1);
            if tokens.contains_key(left) && tokens.contains_key(right) && tokens.contains_key(
                left + right,
            ) {
                Some((pair_key(tokens[left], tokens[right]), tokens[left + right]))
            } else {
                None
            }
        },
    }
}

/// The merges that a list of rules gives; a rule's rank is its place, and of two rules for the
/// same pair the later holds.
pub open spec fn merge_rules(tokens: Map<Seq<char>, u32>, rules: Seq<ValueView>) -> Map<
    u64,
    (u32, u32),
>
    decreases rules.len(),
{
    if rules.len() == 0 {
        Map::empty()
    } else {
        let rest = merge_rules(tokens, rules.drop_last());
        match rules.last() {
            ValueView::String(s) => match merge_rule(tokens, s) {
                Some((pair, merged)) => rest.insert(pair, ((rules.len() - 1) as u32, merged)),
                None => rest,
            },
            _ => rest,
        }
    }
}

/// An id that the metadata gives as an integer.
pub open spec fn special_id(v: Option<ValueView>) -> Option<u32> {
    match v {
        Some(x) => match value_i64(x) {
            Some(i) => Some((i as i64) as u32),
            None => None,
        },
        None => None,
    }
}

/// A metadata entry that is needed and not there.
pub open spec fn missing_kv(name: Seq<char>) -> ErrorView {
    ErrorView::MissingTensor { name, kind: "kv"@ }
}

/// The vocabulary that a file's metadata describes.
pub open spec fn tokenizer_of(f: FileView) -> Result<TokenizerView, ErrorView> {
    match string_value(f.kv, "general.architecture"@) {
        None => Err(missing_kv("general.architecture"@)),
        Some(arch) => match either_value(
            f.kv,
            "tokenizer.ggml.tokens"@,
            old_key(arch, "tokens"@),
        ) {
            Some(ValueView::Array(_, data)) => match strings_of(data, data.len()) {
                Err(i) => Err(
                    ErrorView::InferenceError("tokenizer token["@ + dec(i) + "] 非字符串"@),
                ),
                Ok(strings) => {
                    let tokens = token_ids(strings);
                    Ok(
                        TokenizerView {
                            tokens,
                            strings,
                            byte_level: tokens.contains_key("h"@) && tokens.contains_key("i"@),
                            merges: match either_value(
                                f.kv,
                                "tokenizer.ggml.merges"@,
                                old_key(arch, "merges"@),
                            ) {
                                Some(ValueView::Array(_, rules)) => merge_rules(tokens, rules),
                                _ => Map::empty(),
                            },
                            bos_id: special_id(
                                either_value(
                                    f.kv,
                                    "tokenizer.ggml.bos_token_id"@,
                                    old_key(arch, "bos_token_id"@),
                                ),
                            ),
                            eos_id: special_id(
                                either_value(
                                    f.kv,
                                    "tokenizer.ggml.eos_token_id"@,
                                    old_key(arch, "eos_token_id"@),
                                ),
                            ),
                            add_bos: match either_value(
                                f.kv,
                                "tokenizer.ggml.add_bos_token"@,
                                old_key(arch, "add_bos"@),
                            ) {
                                Some(ValueView::Bool(b)) => b,
                                _ => true,
                            },
                        },
                    )
                },
            },
            _ => Err(missing_kv("tokenizer.ggml.tokens"@)),
        },
    }
}

/// A vocabulary.
pub struct Tokenizer {
    tokens: StringHashMap<u32>,
    token_strings: Vec<String>,
    is_byte_level: bool,
    bpe_merges: HashMap<u64, (u32, u32)>,
    /// The id that starts a text.
    pub bos_id: Option<u32>,
    /// The id that ends a text.
    pub eos_id: Option<u32>,
    /// Whether an encoded text starts with `bos_id`.
    pub add_bos: bool,
}

/// The views of strings in a row.
pub open spec fn string_views(s: Seq<String>) -> Seq<Seq<char>> {
    Seq::new(s.len(), |i: int| s[i]@)
}

impl View for Tokenizer {
    type V = TokenizerView;

    closed spec fn view(&self) -> TokenizerView {
        TokenizerView {
            tokens: self.tokens@,
            strings: string_views(self.token_strings@),
            byte_level: self.is_byte_level,
            merges: self.bpe_merges@,
            bos_id: self.bos_id,
            eos_id: self.eos_id,
            add_bos: self.add_bos,
        }
    }
}

fn missing_key(name: &str) -> (e: GgufError)
    ensures
        e@ == missing_kv(name@),
{
    GgufError::MissingTensor { name: owned(name), kind: "kv" }
}

fn old_style_key(arch: &str, name: &str) -> (r: String)
    ensures
        r@ == old_key(arch@, name@),
{
    let mut r = concat(arch, ".tokenizer.");
    r.append(name);
    r
}

/// The value under the key `new_key`, or else under the older one that ends in `name`.
fn get_any<'f>(file: &'f GgufFile, new_key: &str, arch: &str, name: &str) -> (r: Option<
    &'f GgufValue,
>)
    ensures
        match either_value(file@.kv, new_key@, old_key(arch@, name@)) {
            Some(v) => r is Some && r->Some_0@ == v,
            None => r is None,
        },
{
    match file.get(new_key) {
        Some(v) => Some(v),
        None => {
            let key = old_style_key(arch, name);
            file.get(key.as_str())
        },
    }
}

fn get_array<'f>(file: &'f GgufFile, new_key: &str, arch: &str, name: &str) -> (r: Option<
    &'f GgufArray,
>)
    ensures
        match either_value(file@.kv, new_key@, old_key(arch@, name@)) {
            Some(ValueView::Array(_, data)) => r is Some && values_view(r->Some_0.data@) == data,
            _ => r is None,
        },
{
    match get_any(file, new_key, arch, name) {
        Some(v) => {
            let a = v.as_array();
            proof {
                if a is Some {
                    lemma_array_view(*a->Some_0);
                }
            }
            a
        },
        None => None,
    }
}

fn get_id(file: &GgufFile, new_key: &str, arch: &str, name: &str) -> (r: Option<u32>)
    ensures
        r == special_id(either_value(file@.kv, new_key@, old_key(arch@, name@))),
{
    match get_any(file, new_key, arch, name) {
        Some(v) => match v.as_i64() {
            Some(i) => Some(
                #[verifier::truncate]
                (i as u32),
            ),
            None => None,
        },
        None => None,
    }
}

/// Two ids as one number.
fn key_of(left: u32, right: u32) -> (r: u64)
    ensures
        r == pair_key(left, right),
{
    left as u64 * 0x1_0000_0000 + right as u64
}

/// The strings of a list and the id of each.
fn read_vocabulary(toks: &GgufArray) -> (r: GgufResult<(Vec<String>, StringHashMap<u32>)>)
    ensures
        match strings_of(values_view(toks.data@), toks.data@.len()) {
            Ok(s) => r is Ok && string_views(r->Ok_0.0@) == s && r->Ok_0.1@ == token_ids(s),
            Err(i) => r is Err && r->Err_0@ == ErrorView::InferenceError(
                "tokenizer token["@ + dec(i) + "] 非字符串"@,
            ),
        },
{
    let ghost views = values_view(toks.data@);
    let mut strings: Vec<String> = Vec::new();
    let mut tokens: StringHashMap<u32> = StringHashMap::new();
    let mut i: usize = 0;
    assert(string_views(strings@) =~= Seq::<Seq<char>>::empty());
    while i < toks.data.len()
        invariant
            i <= toks.data@.len(),
            views == values_view(toks.data@),
            strings@.len() == i,
            strings_of(views, i as nat) == Ok::<Seq<Seq<char>>, nat>(string_views(strings@)),
            tokens@ == token_ids(string_views(strings@)),
        decreases toks.data@.len() - i,
    {
        assert(views[i as int] == toks.data@[i as int]@);
        match toks.data[i].as_str() {
            Some(s) => {
                let ghost before = string_views(strings@);
                tokens.insert(
                    owned(s),
                    #[verifier::truncate]
                    (i as u32),
                );
                strings.push(owned(s));
                proof {
                    assert(string_views(strings@) =~= before.push(s@));
                    assert(before.push(s@).drop_last() =~= before);
                }
            },
            None => {
                proof {
                    lemma_first_failure(views, i as nat, views.len());
                }
                let mut m = String::new();
                m.append("tokenizer token[");
                push_dec(&mut m, i as u64);
                m.append("] 非字符串");
                assert(m@ =~= "tokenizer token["@ + dec(i as nat) + "] 非字符串"@);
                return Err(GgufError::InferenceError(m));
            },
        }
        i += 1;
    }
    Ok((strings, tokens))
}

proof fn lemma_first_failure(data: Seq<ValueView>, i: nat, n: nat)
    requires
        i < n,
        strings_of(data, i + 1) == Err::<Seq<Seq<char>>, nat>(i),
    ensures
        strings_of(data, n) == Err::<Seq<Seq<char>>, nat>(i),
    decreases n - i,
{
    if n > i + 1 {
        lemma_first_failure(data, i, (n - 1) as nat);
    }
}

/// What one rule merges.
fn read_rule(tokens: &StringHashMap<u32>, rule: &str) -> (r: Option<(u64, u32)>)
    ensures
        r == merge_rule(tokens@, rule@),
{
    let chars = chars_of(rule);
    match find_char(chars.as_slice(), ' ') {
        None => None,
        Some(k) => {
            let left = string_of(chars.as_slice(), 0, k);
            let right = string_of(chars.as_slice(), k + 1, chars.len());
            let both = concat(left.as_str(), right.as_str());
            assert(left@ =~= rule@.take(k as int));
            assert(right@ =~= rule@.skip(k + 1));
            match tokens.get(left.as_str()) {
                None => None,
                Some(l) => match tokens.get(right.as_str()) {
                    None => None,
                    Some(q) => match tokens.get(both.as_str()) {
                        None => None,
                        Some(m) => Some((key_of(*l, *q), *m)),
                    },
                },
            }
        },
    }
}

/// The merges of a list of rules.
fn read_merges(tokens: &StringHashMap<u32>, rules: &GgufArray) -> (m: HashMap<u64, (u32, u32)>)
    ensures
        m@ == merge_rules(tokens@, values_view(rules.data@)),
{
    broadcast use vstd::std_specs::hash::group_hash_axioms;

    let ghost views = values_view(rules.data@);
    let mut m: HashMap<u64, (u32, u32)> = HashMap::new();
    let mut i: usize = 0;
    assert(views.take(0) =~= Seq::<ValueView>::empty());
    while i < rules.data.len()
        invariant
            i <= rules.data@.len(),
            views == values_view(rules.data@),
            m@ == merge_rules(tokens@, views.take(i as int)),
        decreases rules.data@.len() - i,
    {
        proof {
            assert(views[i as int] == rules.data@[i as int]@);
            let next = views.take(i + 1);
            assert(next.drop_last() =~= views.take(i as int));
            assert(next.last() == views[i as int]);
        }
        match rules.data[i].as_str() {
            Some(s) => match read_rule(tokens, s) {
                Some((pair, merged)) => {
                    m.insert(
                        pair,
                        (
                            #[verifier::truncate]
                            (i as u32),
                            merged,
                        ),
                    );
                },
                None => {},
            },
            None => {},
        }
        i += 1;
    }
    assert(views.take(i as int) =~= views);
    m
}

impl Tokenizer {
    /// The vocabulary that a file's metadata describes. The keys `tokenizer.ggml.*` come before the
    /// older `{architecture}.tokenizer.*`.
    pub fn from_gguf(file: &GgufFile) -> (r: GgufResult<Tokenizer>)
        ensures
            match tokenizer_of(file@) {
                Ok(t) => r is Ok && r->Ok_0@ == t,
                Err(e) => r is Err && r->Err_0@ == e,
            },
    {
        let arch = match file.get_str("general.architecture") {
            Some(s) => s,
            None => return Err(missing_key("general.architecture")),
        };
        let toks = match get_array(file, "tokenizer.ggml.tokens", arch, "tokens") {
            Some(a) => a,
            None => return Err(missing_key("tokenizer.ggml.tokens")),
        };
        let (token_strings, tokens) = match read_vocabulary(toks) {
            Ok(v) => v,
            Err(e) => return Err(e),
        };
        let bpe_merges = match get_array(file, "tokenizer.ggml.merges", arch, "merges") {
            Some(rules) => read_merges(&tokens, rules),
            None => HashMap::new(),
        };
        let is_byte_level = tokens.contains_key("h") && tokens.contains_key("i");
        let bos_id: Option<u32> = get_id(file, "tokenizer.ggml.bos_token_id", arch, "bos_token_id");
        let eos_id: Option<u32> = get_id(file, "tokenizer.ggml.eos_token_id", arch, "eos_token_id");
        let add_bos = match get_any(file, "tokenizer.ggml.add_bos_token", arch, "add_bos") {
            Some(v) => match v.as_bool() {
                Some(b) => b,
                None => true,
            },
            None => true,
        };
        Ok(Tokenizer { tokens, token_strings, is_byte_level, bpe_merges, bos_id, eos_id, add_bos })
    }
}

// ---------------------------------------------------------------------------------------------
// Text to ids
// ---------------------------------------------------------------------------------------------

/// What every encoded text starts with.
pub open spec fn bos_ids(t: TokenizerView) -> Seq<u32> {
    match t.bos_id {
        Some(id) => if t.add_bos {
            seq![id]
        } else {
            Seq::empty()
        },
        None => Seq::empty(),
    }
}

/// The ids of bytes, one for each byte whose character is a token.
pub open spec fn byte_symbols(tokens: Map<Seq<char>, u32>, bytes: Seq<u8>) -> Seq<u32>
    decreases bytes.len(),
{
    if bytes.len() == 0 {
        Seq::empty()
    } else {
        let rest = byte_symbols(tokens, bytes.drop_last());
        let s = seq![byte_char(bytes.last())];
        if tokens.contains_key(s) {
            rest.push(tokens[s])
        } else {
            rest
        }
    }
}

/// Whether the ids at `i` and `i + 1` can be merged.
pub open spec fn mergeable(merges: Map<u64, (u32, u32)>, s: Seq<u32>, i: int) -> bool {
    0 <= i < s.len() - 1 && merges.contains_key(pair_key(s[i], s[i + 1]))
}

/// The rank of the rule that merges the ids at `i` and `i + 1`.
pub open spec fn rank_at(merges: Map<u64, (u32, u32)>, s: Seq<u32>, i: int) -> u32 {
    merges[pair_key(s[i], s[i + 1])].0
}

/// Whether the ids at `i` and `i + 1` are the ones to merge next: the pair of the lowest rank, and
/// of several such pairs the first.
pub open spec fn is_next_merge(merges: Map<u64, (u32, u32)>, s: Seq<u32>, i: int) -> bool {
    &&& mergeable(merges, s, i)
    &&& forall|j: int| #[trigger]
        mergeable(merges, s, j) ==> rank_at(merges, s, i) < rank_at(merges, s, j) || (rank_at(
            merges,
            s,
            i,
        ) == rank_at(merges, s, j) && i <= j)
}

/// The ids with those at `i` and `i + 1` merged.
pub open spec fn merged_at(merges: Map<u64, (u32, u32)>, s: Seq<u32>, i: int) -> Seq<u32> {
    s.take(i).push(merges[pair_key(s[i], s[i + 1])].1) + s.skip(i + 2)
}

/// The ids after all merges, one after the other.
pub open spec fn merge_all(merges: Map<u64, (u32, u32)>, s: Seq<u32>) -> Seq<u32>
    decreases s.len(),
{
    if exists|i: int| is_next_merge(merges, s, i) {
        let i = choose|i: int| is_next_merge(merges, s, i);
        if is_next_merge(merges, s, i) {
            merge_all(merges, merged_at(merges, s, i))
        } else {
            s
        }
    } else {
        s
    }
}

/// The most bytes that a greedily matched token has.
pub const GREEDY_WINDOW: usize = 8;

/// Whether the `l` bytes from `i` on are a token.
pub open spec fn token_at(tokens: Map<Seq<char>, u32>, bytes: Seq<u8>, i: int, l: int) -> bool {
    let word = bytes.subrange(i, i + l);
    valid_utf8(word) && tokens.contains_key(decode_utf8(word))
}

/// The length of the longest token of at most `l` bytes from `i` on, or 0.
pub open spec fn longest_token(tokens: Map<Seq<char>, u32>, bytes: Seq<u8>, i: int, l: nat) -> nat
    decreases l,
{
    if l == 0 {
        0
    } else if token_at(tokens, bytes, i, l as int) {
        l
    } else {
        longest_token(tokens, bytes, i, (l - 1) as nat)
    }
}

/// The longest token is no longer than asked for.
pub proof fn lemma_longest_bound(tokens: Map<Seq<char>, u32>, bytes: Seq<u8>, i: int, l: nat)
    ensures
        longest_token(tokens, bytes, i, l) <= l,
    decreases l,
{
    if l > 0 {
        lemma_longest_bound(tokens, bytes, i, (l - 1) as nat);
    }
}

/// How many bytes a token from `i` on can have.
pub open spec fn window(bytes: Seq<u8>, i: int) -> nat {
    if bytes.len() - i < GREEDY_WINDOW {
        (bytes.len() - i) as nat
    } else {
        GREEDY_WINDOW as nat
    }
}

/// The ids of the longest tokens from `i` on, one behind the other; a byte at which no token starts
/// is left out.
pub open spec fn greedy_ids(tokens: Map<Seq<char>, u32>, bytes: Seq<u8>, i: int) -> Seq<u32>
    decreases bytes.len() - i,
{
    if i >= bytes.len() {
        Seq::empty()
    } else {
        let l = longest_token(tokens, bytes, i, window(bytes, i));
        proof {
            lemma_longest_bound(tokens, bytes, i, window(bytes, i));
        }
        if l == 0 {
            greedy_ids(tokens, bytes, i + 1)
        } else {
            seq![tokens[decode_utf8(bytes.subrange(i, i + l))]] + greedy_ids(tokens, bytes, i + l)
        }
    }
}

/// The ids of a text.
pub open spec fn encode_ids(t: TokenizerView, text: Seq<char>) -> Seq<u32> {
    if text.len() == 0 {
        bos_ids(t)
    } else if t.byte_level {
        bos_ids(t) + merge_all(t.merges, byte_symbols(t.tokens, encode_utf8(text)))
    } else {
        bos_ids(t) + greedy_ids(t.tokens, encode_utf8(text), 0)
    }
}

proof fn lemma_next_merge_unique(merges: Map<u64, (u32, u32)>, s: Seq<u32>, i: int, j: int)
    requires
        is_next_merge(merges, s, i),
        is_next_merge(merges, s, j),
    ensures
        i == j,
{
    assert(mergeable(merges, s, i));
    assert(mergeable(merges, s, j));
}

/// Two pairs of ids with the same key are the same pair.
pub proof fn lemma_pair_key(a: u32, b: u32, c: u32, d: u32)
    ensures
        pair_key(a, b) == pair_key(c, d) <==> a == c && b == d,
{
}

impl Tokenizer {
    /// The id that starts a text.
    pub fn bos(&self) -> (r: Option<u32>)
        ensures
            r == self@.bos_id,
    {
        self.bos_id
    }

    /// The id that ends a text.
    pub fn eos(&self) -> (r: Option<u32>)
        ensures
            r == self@.eos_id,
    {
        self.eos_id
    }

    /// How many tokens there are.
    pub fn vocab_size(&self) -> (r: usize)
        ensures
            r == self@.strings.len(),
    {
        self.token_strings.len()
    }

    /// The string of a token.
    pub fn decode_token(&self, id: u32) -> (r: Option<&str>)
        ensures
            id < self@.strings.len() ==> r is Some && r->Some_0@ == self@.strings[id as int],
            id >= self@.strings.len() ==> r is None,
    {
        if (id as usize) < self.token_strings.len() {
            Some(self.token_strings[id as usize].as_str())
        } else {
            None
        }
    }

    /// The id of the token that is the string `s` as a whole.
    pub fn tokenize(&self, s: &str) -> (r: Option<u32>)
        ensures
            r == (if self@.tokens.contains_key(s@) {
                Some(self@.tokens[s@])
            } else {
                None::<u32>
            }),
    {
        match self.tokens.get(s) {
            Some(id) => Some(*id),
            None => None,
        }
    }

    /// The ids of a text.
    pub fn encode(&self, text: &str) -> (r: Vec<u32>)
        ensures
            r@ == encode_ids(self@, text@),
    {
        let mut out: Vec<u32> = self.bos_ids();
        if text.is_empty() {
            return out;
        }
        let mut ids: Vec<u32> = if self.is_byte_level {
            self.bpe_encode(text)
        } else {
            self.greedy_encode(text)
        };
        out.append(&mut ids);
        out
    }

    fn bos_ids(&self) -> (r: Vec<u32>)
        ensures
            r@ == bos_ids(self@),
    {
        let mut r: Vec<u32> = Vec::new();
        if self.add_bos {
            match self.bos_id {
                Some(id) => {
                    r.push(id);
                },
                None => {},
            }
        }
        assert(r@ =~= bos_ids(self@));
        r
    }

    /// The pair to merge next, and what it becomes.
    fn next_merge(&self, symbols: &Vec<u32>) -> (r: Option<(usize, u32)>)
        ensures
            match r {
                Some((i, id)) => is_next_merge(self@.merges, symbols@, i as int) && id
                    == self@.merges[pair_key(symbols@[i as int], symbols@[i + 1])].1,
                None => forall|i: int| !mergeable(self@.merges, symbols@, i),
            },
    {
        broadcast use vstd::std_specs::hash::group_hash_axioms;

        let ghost m = self@.merges;
        let mut best: Option<(u32, usize, u32)> = None;
        let n: usize = symbols.len();
        let mut i: usize = 0;
        while n >= 2 && i < n - 1
            invariant
                n == symbols@.len(),
                n >= 2 ==> i <= n - 1,
                n < 2 ==> i == 0,
                m == self@.merges,
                m == self.bpe_merges@,
                match best {
                    None => forall|j: int| j < i ==> !mergeable(m, symbols@, j),
                    Some((rank, k, id)) => {
                        &&& k < i
                        &&& mergeable(m, symbols@, k as int)
                        &&& rank == rank_at(m, symbols@, k as int)
                        &&& id == m[pair_key(symbols@[k as int], symbols@[k + 1])].1
                        &&& forall|j: int|
                            j < i && #[trigger] mergeable(m, symbols@, j) ==> rank < rank_at(
                                m,
                                symbols@,
                                j,
                            ) || (rank == rank_at(m, symbols@, j) && k <= j)
                    },
                },
            decreases n - i,
        {
            let key: u64 = key_of(symbols[i], symbols[i + 1]);
            match self.bpe_merges.get(&key) {
                Some(rule) => {
                    assert(mergeable(m, symbols@, i as int));
                    let better = match best {
                        None => true,
                        Some((rank, _, _)) => rule.0 < rank,
                    };
                    if better {
                        best = Some((rule.0, i, rule.1));
                    }
                },
                None => {
                    assert(!mergeable(m, symbols@, i as int));
                },
            }
            i += 1;
        }
        match best {
            Some((_, k, id)) => Some((k, id)),
            None => None,
        }
    }

    /// The ids of a text that is taken byte by byte.
    fn bpe_encode(&self, text: &str) -> (r: Vec<u32>)
        ensures
            r@ == merge_all(self@.merges, byte_symbols(self@.tokens, encode_utf8(text@))),
    {
        let bytes = text.as_bytes();
        let mut symbols: Vec<u32> = Vec::new();
        let mut i: usize = 0;
        assert(bytes@.take(0) =~= Seq::<u8>::empty());
        while i < bytes.len()
            invariant
                i <= bytes@.len(),
                symbols@ == byte_symbols(self@.tokens, bytes@.take(i as int)),
            decreases bytes@.len() - i,
        {
            let b: u8 = bytes[i];
            let mut s = String::new();
            s.push(gpt2_byte_to_char(b));
            proof {
                let next = bytes@.take(i + 1);
                assert(next.drop_last() =~= bytes@.take(i as int));
                assert(next.last() == b);
                assert(s@ =~= seq![byte_char(b)]);
            }
            match self.tokens.get(s.as_str()) {
                Some(id) => {
                    symbols.push(*id);
                },
                None => {},
            }
            i += 1;
        }
        assert(bytes@.take(i as int) =~= bytes@);
        let ghost start = symbols@;
        let mut more = true;
        while more
            invariant
                merge_all(self@.merges, start) == merge_all(self@.merges, symbols@),
                !more ==> merge_all(self@.merges, symbols@) == symbols@,
            decreases symbols@.len(), if more { 1int } else { 0 },
        {
            match self.next_merge(&symbols) {
                Some((k, id)) => {
                    let ghost before = symbols@;
                    proof {
                        assert(is_next_merge(self@.merges, before, k as int));
                        let c = choose|c: int| is_next_merge(self@.merges, before, c);
                        lemma_next_merge_unique(self@.merges, before, k as int, c);
                    }
                    let n: usize = symbols.len();
                    assert(k + 1 < n);
                    symbols[k] = id;
                    symbols.remove(k + 1);
                    assert(symbols@ =~= merged_at(self@.merges, before, k as int));
                },
                None => {
                    more = false;
                },
            }
        }
        symbols
    }

    /// The ids of a text that is matched greedily.
    fn greedy_encode(&self, text: &str) -> (r: Vec<u32>)
        ensures
            r@ == greedy_ids(self@.tokens, encode_utf8(text@), 0),
    {
        let bytes = text.as_bytes();
        let mut out: Vec<u32> = Vec::new();
        let mut i: usize = 0;
        assert(out@ + greedy_ids(self@.tokens, bytes@, 0) =~= greedy_ids(self@.tokens, bytes@, 0));
        while i < bytes.len()
            invariant
                i <= bytes@.len(),
                out@ + greedy_ids(self@.tokens, bytes@, i as int) == greedy_ids(
                    self@.tokens,
                    bytes@,
                    0,
                ),
            decreases bytes@.len() - i,
        {
            let n: usize = bytes.len();
            let rest: usize = n - i;
            let max: usize = if rest < GREEDY_WINDOW {
                rest
            } else {
                GREEDY_WINDOW
            };
            let mut l: usize = max;
            let mut found: Option<u32> = None;
            while l > 0 && found.is_none()
                invariant
                    i < bytes@.len(),
                    n == bytes@.len(),
                    l <= max <= n - i,
                    match found {
                        None => longest_token(self@.tokens, bytes@, i as int, max as nat)
                            == longest_token(self@.tokens, bytes@, i as int, l as nat),
                        Some(id) => l > 0 && longest_token(
                            self@.tokens,
                            bytes@,
                            i as int,
                            max as nat,
                        ) == l && id == self@.tokens[decode_utf8(
                            bytes@.subrange(i as int, i + l),
                        )],
                    },
                decreases l, if found is None { 1int } else { 0 },
            {
                match utf8_string(slice_to_vec(slice_subrange(bytes, i, i + l))) {
                    Some(word) => match self.tokens.get(word.as_str()) {
                        Some(id) => {
                            found = Some(*id);
                        },
                        None => {
                            l -= 1;
                        },
                    },
                    None => {
                        l -= 1;
                    },
                }
            }
            let ghost before = out@;
            match found {
                Some(id) => {
                    out.push(id);
                    assert(out@ + greedy_ids(self@.tokens, bytes@, i + l) =~= before + (seq![id]
                        + greedy_ids(self@.tokens, bytes@, i + l)));
                    i += l;
                },
                None => {
                    i += 1;
                },
            }
        }
        assert(out@ + Seq::<u32>::empty() =~= out@);
        out
    }
}

// ---------------------------------------------------------------------------------------------
// Ids to text
// ---------------------------------------------------------------------------------------------

/// The bytes of one character of a token: the byte that it stands for, or else its own.
pub open spec fn char_bytes(c: char) -> Seq<u8> {
    match char_byte(c) {
        Some(b) => seq![b],
        None => encode_utf8(seq![c]),
    }
}

/// The bytes of a token.
pub open spec fn token_bytes(s: Seq<char>) -> Seq<u8>
    decreases s.len(),
{
    if s.len() == 0 {
        Seq::empty()
    } else {
        token_bytes(s.drop_last()) + char_bytes(s.last())
    }
}

/// The string of an id; of an id that is no token, nothing.
pub open spec fn string_at(strings: Seq<Seq<char>>, id: u32) -> Seq<char> {
    if id < strings.len() {
        strings[id as int]
    } else {
        Seq::empty()
    }
}

/// The bytes of tokens, one behind the other.
pub open spec fn ids_bytes(strings: Seq<Seq<char>>, ids: Seq<u32>) -> Seq<u8>
    decreases ids.len(),
{
    if ids.len() == 0 {
        Seq::empty()
    } else {
        ids_bytes(strings, ids.drop_last()) + token_bytes(string_at(strings, ids.last()))
    }
}

/// The strings of tokens, one behind the other.
pub open spec fn ids_chars(strings: Seq<Seq<char>>, ids: Seq<u32>) -> Seq<char>
    decreases ids.len(),
{
    if ids.len() == 0 {
        Seq::empty()
    } else {
        ids_chars(strings, ids.drop_last()) + string_at(strings, ids.last())
    }
}

/// The text of bytes that are not UTF-8, with replacement characters in it.
pub uninterp spec fn utf8_lossy(bytes: Seq<u8>) -> Seq<char>;

/// The text of bytes.
pub open spec fn text_of_bytes(bytes: Seq<u8>) -> Seq<char> {
    if valid_utf8(bytes) {
        decode_utf8(bytes)
    } else {
        utf8_lossy(bytes)
    }
}

/// The text of ids.
pub open spec fn decode_text(t: TokenizerView, ids: Seq<u32>) -> Seq<char> {
    if t.byte_level {
        text_of_bytes(ids_bytes(t.strings, ids))
    } else {
        ids_chars(t.strings, ids)
    }
}

/// `String::from_utf8_lossy` of std: valid UTF-8 becomes the characters that it encodes; what else
/// becomes, with replacement characters for the invalid parts, is named and not described.
#[verifier::external_body]
fn lossy_string(bytes: &[u8]) -> (r: String)
    ensures
        r@ == (if valid_utf8(bytes@) {
            decode_utf8(bytes@)
        } else {
            utf8_lossy(bytes@)
        }),
{
    String::from_utf8_lossy(bytes).into_owned()
}

/// The bytes of a token, behind what `out` holds.
pub fn push_token_bytes(out: &mut Vec<u8>, s: &str)
    ensures
        final(out)@ == old(out)@ + token_bytes(s@),
{
    let chars = chars_of(s);
    let ghost start = out@;
    let mut i: usize = 0;
    assert(chars@.take(0) =~= Seq::<char>::empty());
    assert(start + Seq::<u8>::empty() =~= start);
    while i < chars.len()
        invariant
            i <= chars@.len(),
            out@ == start + token_bytes(chars@.take(i as int)),
        decreases chars@.len() - i,
    {
        let c = chars[i];
        proof {
            let next = chars@.take(i + 1);
            assert(next.drop_last() =~= chars@.take(i as int));
            assert(next.last() == c);
        }
        push_char_bytes(out, c);
        i += 1;
        assert(out@ =~= start + token_bytes(chars@.take(i as int)));
    }
    assert(chars@.take(i as int) =~= s@);
}

/// The bytes of one character of a token, behind what `out` holds.
pub fn push_char_bytes(out: &mut Vec<u8>, c: char)
    ensures
        final(out)@ == old(out)@ + char_bytes(c),
{
    match gpt2_token_to_byte(c) {
        Some(b) => {
            out.push(b);
        },
        None => {
            let mut s = String::new();
            s.push(c);
            assert(s@ =~= seq![c]);
            let mut more: Vec<u8> = slice_to_vec(s.as_str().as_bytes());
            out.append(&mut more);
        },
    }
    assert(out@ =~= old(out)@ + char_bytes(c));
}

impl Tokenizer {
    /// The text of ids; ids that are no tokens are left out.
    pub fn decode(&self, ids: &[u32]) -> (r: String)
        ensures
            r@ == decode_text(self@, ids@),
    {
        if self.is_byte_level {
            return self.bpe_decode(ids);
        }
        let mut out = String::new();
        let mut i: usize = 0;
        assert(ids@.take(0) =~= Seq::<u32>::empty());
        while i < ids.len()
            invariant
                i <= ids@.len(),
                out@ == ids_chars(self@.strings, ids@.take(i as int)),
            decreases ids@.len() - i,
        {
            proof {
                let next = ids@.take(i + 1);
                assert(next.drop_last() =~= ids@.take(i as int));
                assert(next.last() == ids@[i as int]);
            }
            let ghost before = out@;
            match self.decode_token(ids[i]) {
                Some(s) => {
                    out.append(s);
                },
                None => {
                    assert(before + Seq::<char>::empty() =~= before);
                },
            }
            i += 1;
        }
        assert(ids@.take(i as int) =~= ids@);
        out
    }

    /// The text of ids of a byte-level vocabulary.
    fn bpe_decode(&self, ids: &[u32]) -> (r: String)
        ensures
            r@ == text_of_bytes(ids_bytes(self@.strings, ids@)),
    {
        let mut raw: Vec<u8> = Vec::new();
        let mut i: usize = 0;
        assert(ids@.take(0) =~= Seq::<u32>::empty());
        while i < ids.len()
            invariant
                i <= ids@.len(),
                raw@ == ids_bytes(self@.strings, ids@.take(i as int)),
            decreases ids@.len() - i,
        {
            proof {
                let next = ids@.take(i + 1);
                assert(next.drop_last() =~= ids@.take(i as int));
                assert(next.last() == ids@[i as int]);
            }
            let ghost before = raw@;
            match self.decode_token(ids[i]) {
                Some(s) => push_token_bytes(&mut raw, s),
                None => {
                    assert(before + Seq::<u8>::empty() =~= before);
                },
            }
            i += 1;
        }
        assert(ids@.take(i as int) =~= ids@);
        lossy_string(raw.as_slice())
    }
}

} // verus!
