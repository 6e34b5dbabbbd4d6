//! What the sizes of a model say about its metadata.
use vstd::prelude::*;
use vstd::arithmetic::power2::*;
use vstd::string::*;
use crate::error::ErrorView;
use crate::file::{first_tensor, first_value, FileView};
use crate::float::{f32_exponent, f32_fraction, f32_units, f64_of_f32, f64_of_int};
use crate::float_laws::{lemma_natural_pattern, whole_part_is_just_below, whole_single_precision};
use crate::tensor::TensorView;
use crate::text::{dec, has_prefix, hex};
use crate::types::{value_f64, value_i64, ValueView};
use super::hparams::{
    head_width, hparams_of, number_at, size_at, supported_arch, HParamsView,
};

verus! {

// ---------------------------------------------------------------------------------------------
// What a file holds under a name
// ---------------------------------------------------------------------------------------------

/// No pair has the key.
pub open spec fn silent(kv: Seq<(Seq<char>, ValueView)>, key: Seq<char>) -> bool {
    forall|i: int| 0 <= i < kv.len() ==> (#[trigger] kv[i]).0 != key
}

/// The first pair with the key stands at `i` and has the value `v`.
pub open spec fn states_at(
    kv: Seq<(Seq<char>, ValueView)>,
    key: Seq<char>,
    v: ValueView,
    i: int,
) -> bool {
    &&& 0 <= i < kv.len()
    &&& kv[i] == (key, v)
    &&& forall|j: int| 0 <= j < i ==> (#[trigger] kv[j]).0 != key
}

/// The first pair with the key has the value `v`.
pub open spec fn states(kv: Seq<(Seq<char>, ValueView)>, key: Seq<char>, v: ValueView) -> bool {
    exists|i: int| states_at(kv, key, v, i)
}

/// A key that stands more than once has the value that stands first, and a key that stands
/// nowhere has none.
pub proof fn first_pair_counts(kv: Seq<(Seq<char>, ValueView)>, key: Seq<char>)
    ensures
        silent(kv, key) <==> first_value(kv, key) is None,
        forall|v: ValueView| states(kv, key, v) <==> first_value(kv, key) == Some(v),
    decreases kv.len(),
{
    if kv.len() > 0 {
        let rest = kv.drop_first();
        first_pair_counts(rest, key);
        assert forall|i: int| 0 <= i < rest.len() implies rest[i] == #[trigger] kv[i + 1] by {}
        if kv[0].0 == key {
            assert(states_at(kv, key, kv[0].1, 0));
        } else {
            if silent(rest, key) {
                assert forall|i: int| 0 <= i < kv.len() implies (#[trigger] kv[i]).0 != key by {
                    if i > 0 {
                        assert(rest[i - 1] == kv[i]);
                    }
                }
            }
            if silent(kv, key) {
                assert forall|i: int| 0 <= i < rest.len() implies (#[trigger] rest[i]).0
                    != key by {
                    assert(kv[i + 1].0 != key);
                }
            }
            assert forall|v: ValueView| states(kv, key, v) <==> states(rest, key, v) by {
                if states(kv, key, v) {
                    let i = choose|i: int| states_at(kv, key, v, i);
                    assert(rest[i - 1] == kv[i]);
                    assert forall|j: int| 0 <= j < i - 1 implies (#[trigger] rest[j]).0 != key by {
                        assert(kv[j + 1].0 != key);
                    }
                    assert(states_at(rest, key, v, i - 1));
                }
                if states(rest, key, v) {
                    let i = choose|i: int| states_at(rest, key, v, i);
                    assert(kv[i + 1] == rest[i]);
                    assert forall|j: int| 0 <= j < i + 1 implies (#[trigger] kv[j]).0 != key by {
                        if j > 0 {
                            assert(rest[j - 1] == kv[j]);
                        }
                    }
                    assert(states_at(kv, key, v, i + 1));
                }
            }
        }
    }
}

/// No tensor has the name.
pub open spec fn unnamed(tensors: Seq<TensorView>, name: Seq<char>) -> bool {
    forall|i: int| 0 <= i < tensors.len() ==> (#[trigger] tensors[i]).name != name
}

/// The first tensor with the name stands at `i`.
pub open spec fn named_at(tensors: Seq<TensorView>, name: Seq<char>, t: TensorView, i: int) -> bool {
    &&& 0 <= i < tensors.len()
    &&& tensors[i] == t
    &&& t.name == name
    &&& forall|j: int| 0 <= j < i ==> (#[trigger] tensors[j]).name != name
}

/// The first tensor with the name is `t`.
pub open spec fn named(tensors: Seq<TensorView>, name: Seq<char>, t: TensorView) -> bool {
    exists|i: int| named_at(tensors, name, t, i)
}

/// Of tensors with one name the first counts.
pub proof fn first_tensor_counts(tensors: Seq<TensorView>, name: Seq<char>)
    ensures
        unnamed(tensors, name) <==> first_tensor(tensors, name) is None,
        forall|t: TensorView| named(tensors, name, t) <==> first_tensor(tensors, name) == Some(t),
    decreases tensors.len(),
{
    if tensors.len() > 0 {
        let rest = tensors.drop_first();
        first_tensor_counts(rest, name);
        assert forall|i: int| 0 <= i < rest.len() implies rest[i] == #[trigger] tensors[i + 1] by {}
        if tensors[0].name == name {
            assert(named_at(tensors, name, tensors[0], 0));
        } else {
            if unnamed(rest, name) {
                assert forall|i: int| 0 <= i < tensors.len() implies (#[trigger] tensors[i]).name
                    != name by {
                    if i > 0 {
                        assert(rest[i - 1] == tensors[i]);
                    }
                }
            }
            if unnamed(tensors, name) {
                assert forall|i: int| 0 <= i < rest.len() implies (#[trigger] rest[i]).name
                    != name by {
                    assert(tensors[i + 1].name != name);
                }
            }
            assert forall|t: TensorView| named(tensors, name, t) <==> named(rest, name, t) by {
                if named(tensors, name, t) {
                    let i = choose|i: int| named_at(tensors, name, t, i);
                    assert(rest[i - 1] == tensors[i]);
                    assert forall|j: int| 0 <= j < i - 1 implies (#[trigger] rest[j]).name
                        != name by {
                        assert(tensors[j + 1].name != name);
                    }
                    assert(named_at(rest, name, t, i - 1));
                }
                if named(rest, name, t) {
                    let i = choose|i: int| named_at(rest, name, t, i);
                    assert(tensors[i + 1] == rest[i]);
                    assert forall|j: int| 0 <= j < i + 1 implies (#[trigger] tensors[j]).name
                        != name by {
                        if j > 0 {
                            assert(rest[j - 1] == tensors[j]);
                        }
                    }
                    assert(named_at(tensors, name, t, i + 1));
                }
            }
        }
    }
}

// ---------------------------------------------------------------------------------------------
// Numbers
// ---------------------------------------------------------------------------------------------

/// `v` is an integer of any width with the value `n`.
pub open spec fn is_integer(v: ValueView, n: int) -> bool {
    ||| v == ValueView::U8(n as u8) && 0 <= n <= u8::MAX
    ||| v == ValueView::U16(n as u16) && 0 <= n <= u16::MAX
    ||| v == ValueView::U32(n as u32) && 0 <= n <= u32::MAX
    ||| v == ValueView::U64(n as u64) && 0 <= n <= u64::MAX
    ||| v == ValueView::I8(n as i8) && i8::MIN <= n <= i8::MAX
    ||| v == ValueView::I16(n as i16) && i16::MIN <= n <= i16::MAX
    ||| v == ValueView::I32(n as i32) && i32::MIN <= n <= i32::MAX
    ||| v == ValueView::I64(n as i64) && i64::MIN <= n <= i64::MAX
}

/// `v` is a number of any type whose double precision pattern is `x`; a truth value counts as one
/// or nought.
pub open spec fn is_number(v: ValueView, x: u64) -> bool {
    ||| v == ValueView::F64(x)
    ||| exists|b: u32| v == ValueView::F32(b) && x == #[trigger] f64_of_f32(b)
    ||| exists|n: int| is_integer(v, n) && x == #[trigger] f64_of_int(n)
    ||| v == ValueView::Bool(true) && x == 0x3ff0_0000_0000_0000
    ||| v == ValueView::Bool(false) && x == 0
}

/// Under the key there is no number: nothing, a string or an array.
pub open spec fn no_number(kv: Seq<(Seq<char>, ValueView)>, key: Seq<char>) -> bool {
    silent(kv, key) || exists|v: ValueView| #[trigger]
        states(kv, key, v) && (v is String || v is Array)
}

/// A number keeps its value when it is read as an integer or as a double precision number.
pub proof fn numbers_keep_their_value(v: ValueView, n: int, x: u64)
    ensures
        is_integer(v, n) && i64::MIN <= n <= i64::MAX ==> value_i64(v) == Some(n),
        is_integer(v, n) && n > i64::MAX ==> value_i64(v) is None,
        v is String || v is Array || v is Bool || v is F32 || v is F64 ==> value_i64(v) is None,
        is_number(v, x) ==> value_f64(v) == Some(x),
        v is String || v is Array ==> value_f64(v) is None,
{
    if exists|m: int| is_integer(v, m) && x == #[trigger] f64_of_int(m) {
        let m = choose|m: int| is_integer(v, m) && x == #[trigger] f64_of_int(m);
        assert(value_f64(v) == Some(f64_of_int(m)));
    }
}

proof fn lemma_number(kv: Seq<(Seq<char>, ValueView)>, key: Seq<char>, v: ValueView, x: u64)
    ensures
        states(kv, key, v) && is_number(v, x) ==> number_at(kv, key) == Some(x),
        no_number(kv, key) ==> number_at(kv, key) is None,
{
    first_pair_counts(kv, key);
    numbers_keep_their_value(v, 0, x);
    if no_number(kv, key) && !silent(kv, key) {
        let w = choose|w: ValueView| #[trigger] states(kv, key, w) && (w is String || w is Array);
        assert(first_value(kv, key) == Some(w));
    }
}

// ---------------------------------------------------------------------------------------------
// The sizes
// ---------------------------------------------------------------------------------------------

/// The base of the rotary frequencies is the number `x` that the metadata holds: under
/// `attention.rope_freq_base`, or where that key holds no number, under `rope.freq_base`. It is
/// ten thousand where neither key holds a number.
pub proof fn rotary_base_is_the_stated_number(f: FileView, h: HParamsView, v: ValueView, x: u64)
    requires
        hparams_of(f) == Ok::<HParamsView, ErrorView>(h),
    ensures
        states(f.kv, h.arch + "."@ + "attention.rope_freq_base"@, v) && is_number(v, x)
            ==> h.rope_freq_base == x,
        no_number(f.kv, h.arch + "."@ + "attention.rope_freq_base"@) && states(
            f.kv,
            h.arch + "."@ + "rope.freq_base"@,
            v,
        ) && is_number(v, x) ==> h.rope_freq_base == x,
        no_number(f.kv, h.arch + "."@ + "attention.rope_freq_base"@) && no_number(
            f.kv,
            h.arch + "."@ + "rope.freq_base"@,
        ) ==> h.rope_freq_base == 0x40c3_8800_0000_0000,
{
    lemma_number(f.kv, h.arch + "."@ + "attention.rope_freq_base"@, v, x);
    lemma_number(f.kv, h.arch + "."@ + "rope.freq_base"@, v, x);
}

/// An integer from 0 up to the 32-bit limit is the size under its key; a negative one, one above
/// the limit, a missing one and a value of another kind are refused.
pub proof fn sizes_are_the_stated_integers(
    kv: Seq<(Seq<char>, ValueView)>,
    key: Seq<char>,
    v: ValueView,
    n: int,
)
    ensures
        states(kv, key, v) && is_integer(v, n) && 0 <= n <= u32::MAX ==> size_at(kv, key) == Ok::<
            u32,
            ErrorView,
        >(n as u32),
        states(kv, key, v) && is_integer(v, n) && (n < 0 || n > u32::MAX) ==> size_at(
            kv,
            key,
        ) is Err,
        states(kv, key, v) && (v is String || v is Array || v is Bool || v is F64) ==> size_at(
            kv,
            key,
        ) is Err,
        silent(kv, key) ==> size_at(kv, key) == Err::<u32, ErrorView>(
            ErrorView::InferenceError("missing KV: "@ + key),
        ),
{
    first_pair_counts(kv, key);
}

/// Each size of a model is the integer under its own key.
pub proof fn sizes_come_from_their_keys(f: FileView, h: HParamsView, v: ValueView, n: int)
    requires
        hparams_of(f) == Ok::<HParamsView, ErrorView>(h),
        is_integer(v, n),
        0 <= n <= u32::MAX,
    ensures
        states(f.kv, h.arch + "."@ + "vocab_size"@, v) ==> h.vocab_size == n,
        states(f.kv, h.arch + "."@ + "embedding_length"@, v) ==> h.embed_dim == n,
        states(f.kv, h.arch + "."@ + "attention.head_count"@, v) ==> h.n_heads == n,
        states(f.kv, h.arch + "."@ + "attention.head_count_kv"@, v) ==> h.n_kv_heads == n,
        states(f.kv, h.arch + "."@ + "ffn_length"@, v) ==> h.ffn_dim == n,
        silent(f.kv, h.arch + "."@ + "ffn_length"@) && states(
            f.kv,
            h.arch + "."@ + "feed_forward_length"@,
            v,
        ) ==> h.ffn_dim == n,
        states(f.kv, h.arch + "."@ + "block_count"@, v) ==> h.n_layers == n,
{
    sizes_are_the_stated_integers(f.kv, h.arch + "."@ + "vocab_size"@, v, n);
    sizes_are_the_stated_integers(f.kv, h.arch + "."@ + "embedding_length"@, v, n);
    sizes_are_the_stated_integers(f.kv, h.arch + "."@ + "attention.head_count"@, v, n);
    sizes_are_the_stated_integers(f.kv, h.arch + "."@ + "ffn_length"@, v, n);
    sizes_are_the_stated_integers(f.kv, h.arch + "."@ + "feed_forward_length"@, v, n);
    sizes_are_the_stated_integers(f.kv, h.arch + "."@ + "block_count"@, v, n);
    first_pair_counts(f.kv, h.arch + "."@ + "attention.head_count_kv"@);
    numbers_keep_their_value(v, n, 0);
    assert((n as i64) as u32 == n);
}

/// The context length is the integer under its key, of any number type, as far as 32 bits go; a
/// negative number and one that is not finite count as none.
pub proof fn context_length_is_the_stated_number(f: FileView, h: HParamsView, v: ValueView, n: int)
    requires
        hparams_of(f) == Ok::<HParamsView, ErrorView>(h),
        states(f.kv, h.arch + "."@ + "context_length"@, v),
    ensures
        is_integer(v, n) && 0 <= n <= u32::MAX ==> h.context_length == n,
        forall|x: u64| #[trigger] is_number(v, x) && x >= 0x7ff0_0000_0000_0000
            ==> h.context_length == 0,
{
    let key = h.arch + "."@ + "context_length"@;
    if is_integer(v, n) && 0 <= n <= u32::MAX {
        let x = f64_of_int(n);
        assert(is_number(v, x));
        lemma_number(f.kv, key, v, x);
        whole_part_is_just_below(x, n as u32);
        lemma_natural_pattern(n as u32);
    }
    assert forall|x: u64| #[trigger] is_number(v, x) && x >= 0x7ff0_0000_0000_0000 implies
        h.context_length == 0 by {
        lemma_number(f.kv, key, v, x);
    }
}

/// A single precision number is a size where it is an integer that is not negative, and is refused
/// where it is negative or not finite.
pub proof fn single_precision_sizes(kv: Seq<(Seq<char>, ValueView)>, key: Seq<char>, b: u32, n: nat)
    requires
        states(kv, key, ValueView::F32(b)),
    ensures
        b < 0x7f80_0000 && n <= u32::MAX && f32_units(b) == n * pow2(149) ==> size_at(kv, key)
            == Ok::<u32, ErrorView>(n as u32),
        b >= 0x7f80_0000 && b != 0x8000_0000 ==> size_at(kv, key) is Err,
{
    first_pair_counts(kv, key);
    if b < 0x7f80_0000 && n <= u32::MAX && f32_units(b) == n * pow2(149) {
        whole_single_precision(b, n);
        assert(f32_exponent(b) < 0xff);
    }
    if b >= 0x8000_0000 && f32_units(b) == 0 {
        let e = f32_exponent(b);
        lemma2_to64();
        if e > 0 {
            lemma_pow2_pos((e - 1) as nat);
            assert((pow2(23) + f32_fraction(b)) * pow2((e - 1) as nat) > 0) by (nonlinear_arith)
                requires
                    pow2(23) > 0,
                    pow2((e - 1) as nat) > 0,
            ;
        }
    }
}

/// What the metadata does not say has its default: as many key and value heads as heads, no
/// context length, and normalising first. The vocabulary is then as large as the second dimension
/// of the token embedding, under its older name or else under its newer one.
pub proof fn unstated_sizes_have_defaults(f: FileView, h: HParamsView, t: TensorView)
    requires
        hparams_of(f) == Ok::<HParamsView, ErrorView>(h),
    ensures
        silent(f.kv, h.arch + "."@ + "attention.head_count_kv"@) ==> h.n_kv_heads == h.n_heads,
        no_number(f.kv, h.arch + "."@ + "context_length"@) ==> h.context_length == 0,
        silent(f.kv, h.arch + "."@ + "pre_norm"@) ==> h.pre_norm,
        forall|b: bool| states(f.kv, h.arch + "."@ + "pre_norm"@, ValueView::Bool(b))
            ==> h.pre_norm == b,
        silent(f.kv, h.arch + "."@ + "vocab_size"@) && named(
            f.tensors,
            h.arch + "."@ + "token_embd"@,
            t,
        ) ==> t.shape.len() == 2 && h.vocab_size == t.shape[1] as u32,
        silent(f.kv, h.arch + "."@ + "vocab_size"@) && unnamed(
            f.tensors,
            h.arch + "."@ + "token_embd"@,
        ) && named(f.tensors, "token_embd.weight"@, t) ==> t.shape.len() == 2 && h.vocab_size
            == t.shape[1] as u32,
{
    first_pair_counts(f.kv, h.arch + "."@ + "attention.head_count_kv"@);
    first_pair_counts(f.kv, h.arch + "."@ + "pre_norm"@);
    first_pair_counts(f.kv, h.arch + "."@ + "vocab_size"@);
    lemma_number(f.kv, h.arch + "."@ + "context_length"@, ValueView::Bool(true), 0);
    first_tensor_counts(f.tensors, h.arch + "."@ + "token_embd"@);
    first_tensor_counts(f.tensors, "token_embd.weight"@);
}

/// A model has sizes only where every size that has no default is stated.
pub proof fn unstated_sizes_are_refused(f: FileView, arch: Seq<char>)
    requires
        states(f.kv, "general.architecture"@, ValueView::String(arch)),
        supported_arch(arch),
        silent(f.kv, arch + "."@ + "embedding_length"@) || silent(
            f.kv,
            arch + "."@ + "attention.head_count"@,
        ) || silent(f.kv, arch + "."@ + "block_count"@) || (silent(
            f.kv,
            arch + "."@ + "ffn_length"@,
        ) && silent(f.kv, arch + "."@ + "feed_forward_length"@)) || (silent(
            f.kv,
            arch + "."@ + "vocab_size"@,
        ) && unnamed(f.tensors, arch + "."@ + "token_embd"@) && unnamed(
            f.tensors,
            "token_embd.weight"@,
        )),
    ensures
        hparams_of(f) is Err,
{
    first_pair_counts(f.kv, "general.architecture"@);
    first_pair_counts(f.kv, arch + "."@ + "embedding_length"@);
    first_pair_counts(f.kv, arch + "."@ + "attention.head_count"@);
    first_pair_counts(f.kv, arch + "."@ + "block_count"@);
    first_pair_counts(f.kv, arch + "."@ + "ffn_length"@);
    first_pair_counts(f.kv, arch + "."@ + "feed_forward_length"@);
    first_pair_counts(f.kv, arch + "."@ + "vocab_size"@);
    first_tensor_counts(f.tensors, arch + "."@ + "token_embd"@);
    first_tensor_counts(f.tensors, "token_embd.weight"@);
}

/// The name is that of a known family with `tail` behind it.
pub open spec fn is_of_family(arch: Seq<char>, tail: Seq<char>) -> bool {
    ||| arch == "llama"@ + tail
    ||| arch == "qwen2"@ + tail
    ||| arch == "qwen3"@ + tail
    ||| arch == "mistral"@ + tail
}

/// The architecture is the string under `general.architecture`. Without one, or with one whose
/// name starts like no known family, the model is refused.
pub proof fn architecture_is_the_stated_one(f: FileView, arch: Seq<char>)
    ensures
        silent(f.kv, "general.architecture"@) ==> hparams_of(f) is Err,
        states(f.kv, "general.architecture"@, ValueView::String(arch)) && hparams_of(f) is Ok
            ==> hparams_of(f)->Ok_0.arch == arch,
        states(f.kv, "general.architecture"@, ValueView::String(arch)) ==> ((hparams_of(f)
            == Err::<HParamsView, ErrorView>(ErrorView::UnsupportedArchitecture(arch))) <==> !(
        exists|tail: Seq<char>| is_of_family(arch, tail))),
{
    first_pair_counts(f.kv, "general.architecture"@);
    if exists|tail: Seq<char>| is_of_family(arch, tail) {
        let tail = choose|tail: Seq<char>| is_of_family(arch, tail);
        lemma_prefix(arch, "llama"@, tail);
        lemma_prefix(arch, "qwen2"@, tail);
        lemma_prefix(arch, "qwen3"@, tail);
        lemma_prefix(arch, "mistral"@, tail);
        assert(supported_arch(arch));
    }
    if supported_arch(arch) {
        lemma_prefix(arch, "llama"@, arch);
        lemma_prefix(arch, "qwen2"@, arch);
        lemma_prefix(arch, "qwen3"@, arch);
        lemma_prefix(arch, "mistral"@, arch);
        assert(is_of_family(arch, arch.skip("llama"@.len() as int)) || is_of_family(
            arch,
            arch.skip("qwen2"@.len() as int),
        ) || is_of_family(arch, arch.skip("qwen3"@.len() as int)) || is_of_family(
            arch,
            arch.skip("mistral"@.len() as int),
        ));
    }
}

pub(crate) proof fn lemma_prefix(s: Seq<char>, p: Seq<char>, rest: Seq<char>)
    ensures
        s == p + rest ==> has_prefix(s, p),
        has_prefix(s, p) ==> s == p + s.skip(p.len() as int),
{
    if s == p + rest {
        assert((p + rest).take(p.len() as int) == p);
    }
    if has_prefix(s, p) {
        assert(s == p + s.skip(p.len() as int));
    }
}

/// The heads of a model share its width evenly: one more place per head would not fit.
pub proof fn heads_share_the_width(h: HParamsView)
    requires
        h.n_heads > 0,
    ensures
        head_width(h) * h.n_heads <= h.embed_dim,
        h.embed_dim < (head_width(h) + 1) * h.n_heads,
{
    vstd::arithmetic::div_mod::lemma_fundamental_div_mod(h.embed_dim as int, h.n_heads as int);
    let (w, n) = (head_width(h) as int, h.n_heads as int);
    assert((w + 1) * n == w * n + n) by (nonlinear_arith);
    assert(n * w == w * n) by (nonlinear_arith);
}

/// A size that cannot be taken is reported with its key and what stands there.
pub proof fn refused_sizes_are_told(kv: Seq<(Seq<char>, ValueView)>, key: Seq<char>, n: u64, b: u32)
    ensures
        states(kv, key, ValueView::U64(n)) && n > u32::MAX ==> size_at(kv, key) == Err::<
            u32,
            ErrorView,
        >(ErrorView::InferenceError("KV "@ + key + " out of u32 range: "@ + dec(n as nat))),
        states(kv, key, ValueView::Bool(true)) ==> size_at(kv, key) == Err::<u32, ErrorView>(
            ErrorView::InferenceError("KV "@ + key + " is not an integer: "@ + "Bool"@),
        ),
        states(kv, key, ValueView::F32(b)) && 0x8000_0000 < b ==> size_at(kv, key) == Err::<
            u32,
            ErrorView,
        >(
            ErrorView::InferenceError(
                "KV "@ + key + " is not a non-negative integer: 0x"@ + hex(b as nat, 8),
            ),
        ),
{
    first_pair_counts(kv, key);
    if states(kv, key, ValueView::F32(b)) && 0x8000_0000 < b {
        single_precision_sizes(kv, key, b, 0);
    }
}

/// A file without an architecture is reported as such.
pub proof fn missing_architecture_is_told(f: FileView)
    ensures
        silent(f.kv, "general.architecture"@) ==> hparams_of(f) == Err::<HParamsView, ErrorView>(
            ErrorView::InferenceError("missing general.architecture"@),
        ),
{
    first_pair_counts(f.kv, "general.architecture"@);
}

/// A value of another kind counts as if nothing were stated: as many key and value heads as heads,
/// normalising first, no context length, the feed-forward width under its other key, and the
/// vocabulary by the embedding.
pub proof fn odd_values_count_as_unstated(
    f: FileView,
    h: HParamsView,
    odd: ValueView,
    v: ValueView,
    n: int,
    t: TensorView,
)
    requires
        hparams_of(f) == Ok::<HParamsView, ErrorView>(h),
        odd is String || odd is Array,
        is_integer(v, n),
        0 <= n <= u32::MAX,
    ensures
        states(f.kv, h.arch + "."@ + "attention.head_count_kv"@, odd) ==> h.n_kv_heads == h.n_heads,
        states(f.kv, h.arch + "."@ + "pre_norm"@, odd) || states(
            f.kv,
            h.arch + "."@ + "pre_norm"@,
            v,
        ) ==> h.pre_norm,
        states(f.kv, h.arch + "."@ + "context_length"@, odd) ==> h.context_length == 0,
        states(f.kv, h.arch + "."@ + "ffn_length"@, odd) && states(
            f.kv,
            h.arch + "."@ + "feed_forward_length"@,
            v,
        ) ==> h.ffn_dim == n,
        states(f.kv, h.arch + "."@ + "vocab_size"@, odd) && named(
            f.tensors,
            h.arch + "."@ + "token_embd"@,
            t,
        ) ==> t.shape.len() == 2 && h.vocab_size == t.shape[1] as u32,
{
    first_pair_counts(f.kv, h.arch + "."@ + "attention.head_count_kv"@);
    first_pair_counts(f.kv, h.arch + "."@ + "pre_norm"@);
    first_pair_counts(f.kv, h.arch + "."@ + "ffn_length"@);
    first_pair_counts(f.kv, h.arch + "."@ + "vocab_size"@);
    lemma_number(f.kv, h.arch + "."@ + "context_length"@, odd, 0);
    sizes_are_the_stated_integers(f.kv, h.arch + "."@ + "feed_forward_length"@, v, n);
    first_tensor_counts(f.tensors, h.arch + "."@ + "token_embd"@);
}

/// An embedding that is no matrix gives no vocabulary size.
pub proof fn odd_embeddings_are_refused(f: FileView, arch: Seq<char>, t: TensorView)
    requires
        states(f.kv, "general.architecture"@, ValueView::String(arch)),
        supported_arch(arch),
        silent(f.kv, arch + "."@ + "vocab_size"@),
        named(f.tensors, arch + "."@ + "token_embd"@, t),
        t.shape.len() != 2,
    ensures
        hparams_of(f) is Err,
{
    first_pair_counts(f.kv, "general.architecture"@);
    first_pair_counts(f.kv, arch + "."@ + "vocab_size"@);
    first_tensor_counts(f.tensors, arch + "."@ + "token_embd"@);
}

} // verus!
