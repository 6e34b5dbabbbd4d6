//! The sizes of a model, read from its metadata.
use vstd::prelude::*;
use vstd::string::*;
use crate::error::{ErrorView, GgufError, GgufResult};
use crate::file::{first_tensor, first_value, string_value, FileView, GgufFile};
use crate::float::{
    f32_finite, f32_near_integer, f32_negative, f32_to_u32, f32_units, f32_whole_u32, f64_finite,
    f64_negative, f64_to_u32, f64_whole_u32,
};
use crate::text::{
    concat, dec, has_prefix, hex, listed, owned, push_dec, push_hex, push_listed, starts_with,
};
use crate::types::{
    gguf_type_ident, type_of_value, value_f64, value_i64, GgufValue, ValueView,
};

verus! {

/// The sizes of a model.
#[derive(Debug, Clone, PartialEq)]
pub struct HParams {
    /// The architecture's name.
    pub arch: String,
    /// How many tokens the vocabulary has.
    pub vocab_size: u32,
    /// The width of the hidden state.
    pub embed_dim: u32,
    /// How many attention heads a layer has.
    pub n_heads: u32,
    /// How many key and value heads a layer has.
    pub n_kv_heads: u32,
    /// The width of the feed-forward part.
    pub ffn_dim: u32,
    /// How many layers there are.
    pub n_layers: u32,
    /// The base of the rotary frequencies, as the bit pattern of a double precision number.
    pub rope_freq_base: u64,
    /// How many tokens the model can hold in view; 0 where the file does not say.
    pub context_length: u32,
    /// Whether a layer normalises before it computes.
    pub pre_norm: bool,
}

/// [`HParams`] with the name as a sequence of characters.
pub struct HParamsView {
    pub arch: Seq<char>,
    pub vocab_size: u32,
    pub embed_dim: u32,
    pub n_heads: u32,
    pub n_kv_heads: u32,
    pub ffn_dim: u32,
    pub n_layers: u32,
    pub rope_freq_base: u64,
    pub context_length: u32,
    pub pre_norm: bool,
}

impl View for HParams {
    type V = HParamsView;

    open spec fn view(&self) -> HParamsView {
        HParamsView {
            arch: self.arch@,
            vocab_size: self.vocab_size,
            embed_dim: self.embed_dim,
            n_heads: self.n_heads,
            n_kv_heads: self.n_kv_heads,
            ffn_dim: self.ffn_dim,
            n_layers: self.n_layers,
            rope_freq_base: self.rope_freq_base,
            context_length: self.context_length,
            pre_norm: self.pre_norm,
        }
    }
}

/// The width of one attention head; a model without heads counts as having one.
pub open spec fn head_width(h: HParamsView) -> u32 {
    h.embed_dim / (if h.n_heads == 0 {
        1
    } else {
        h.n_heads
    })
}

impl HParams {
    /// The width of one attention head.
    pub fn head_dim(&self) -> (r: u32)
        ensures
            r == head_width(self@),
    {
        let heads: u32 = if self.n_heads == 0 {
            1
        } else {
            self.n_heads
        };
        self.embed_dim / heads
    }
}

/// The base of the rotary frequencies where the file does not say: ten thousand.
pub const DEFAULT_ROPE_BASE: u64 = 0x40c3_8800_0000_0000;

// ---------------------------------------------------------------------------------------------
// What the metadata says
// ---------------------------------------------------------------------------------------------

/// The architectures that can be run, by how their names start.
pub open spec fn supported_arch(arch: Seq<char>) -> bool {
    has_prefix(arch, "llama"@) || has_prefix(arch, "qwen2"@) || has_prefix(arch, "qwen3"@)
        || has_prefix(arch, "mistral"@)
}

/// A key of an architecture.
pub open spec fn arch_key(arch: Seq<char>, field: Seq<char>) -> Seq<char> {
    arch + "."@ + field
}

/// The error of a number that is too large for 32 bits.
pub open spec fn out_of_range(key: Seq<char>, n: nat) -> ErrorView {
    ErrorView::InferenceError("KV "@ + key + " out of u32 range: "@ + dec(n))
}

/// The size under a key: an unsigned number, a signed one that is not negative, or a single
/// precision number that is close to an integer and not negative, of which the whole part counts.
pub open spec fn size_at(kv: Seq<(Seq<char>, ValueView)>, key: Seq<char>) -> Result<
    u32,
    ErrorView,
> {
    match first_value(kv, key) {
        None => Err(ErrorView::InferenceError("missing KV: "@ + key)),
        Some(v) => {
            let no_integer = ErrorView::InferenceError(
                "KV "@ + key + " is not an integer: "@ + gguf_type_ident(type_of_value(v)),
            );
            match v {
                ValueView::U32(x) => Ok(x),
                ValueView::U16(x) => Ok(x as u32),
                ValueView::U8(x) => Ok(x as u32),
                ValueView::I8(x) => if x >= 0 {
                    Ok(x as u32)
                } else {
                    Err(no_integer)
                },
                ValueView::I16(x) => if x >= 0 {
                    Ok(x as u32)
                } else {
                    Err(no_integer)
                },
                ValueView::I32(x) => if x >= 0 {
                    Ok(x as u32)
                } else {
                    Err(no_integer)
                },
                ValueView::I64(x) => if x < 0 {
                    Err(no_integer)
                } else if x <= u32::MAX {
                    Ok(x as u32)
                } else {
                    Err(out_of_range(key, x as nat))
                },
                ValueView::U64(x) => if x <= u32::MAX {
                    Ok(x as u32)
                } else {
                    Err(out_of_range(key, x as nat))
                },
                ValueView::F32(b) => if f32_finite(b) && (!f32_negative(b) || f32_units(b) == 0)
                    && f32_near_integer(b) {
                    Ok(f32_whole_u32(b))
                } else {
                    Err(
                        ErrorView::InferenceError(
                            "KV "@ + key + " is not a non-negative integer: 0x"@ + hex(b as nat, 8),
                        ),
                    )
                },
                _ => Err(no_integer),
            }
        },
    }
}

/// The size of the vocabulary: what the metadata says, or else the second dimension of the token
/// embedding.
pub open spec fn vocab_size_of(f: FileView, arch: Seq<char>) -> Result<u32, ErrorView> {
    match size_at(f.kv, arch_key(arch, "vocab_size"@)) {
        Ok(n) => Ok(n),
        Err(_) => {
            let emb = match first_tensor(f.tensors, arch_key(arch, "token_embd"@)) {
                Some(t) => Some(t),
                None => first_tensor(f.tensors, "token_embd.weight"@),
            };
            match emb {
                None => Err(
                    ErrorView::InferenceError("vocab_size: KV 缺失且 token_embd 张量不存在"@),
                ),
                Some(t) => if t.shape.len() == 2 {
                    Ok(t.shape[1] as u32)
                } else {
                    Err(
                        ErrorView::InferenceError(
                            "vocab_size: token_embd shape 应为 [D, V]，实际 "@ + listed(t.shape),
                        ),
                    )
                },
            }
        },
    }
}

/// The number of key and value heads: an integer under its key, or else that of the heads.
pub open spec fn kv_heads_of(
    kv: Seq<(Seq<char>, ValueView)>,
    arch: Seq<char>,
    n_heads: u32,
) -> u32 {
    match first_value(kv, arch_key(arch, "attention.head_count_kv"@)) {
        Some(v) => match value_i64(v) {
            Some(i) => (i as i64) as u32,
            None => n_heads,
        },
        None => n_heads,
    }
}

/// The number under a key, as a double precision number.
pub open spec fn number_at(kv: Seq<(Seq<char>, ValueView)>, key: Seq<char>) -> Option<u64> {
    match first_value(kv, key) {
        Some(v) => value_f64(v),
        None => None,
    }
}

/// The base of the rotary frequencies.
pub open spec fn rope_base_of(kv: Seq<(Seq<char>, ValueView)>, arch: Seq<char>) -> u64 {
    match number_at(kv, arch_key(arch, "attention.rope_freq_base"@)) {
        Some(b) => b,
        None => match number_at(kv, arch_key(arch, "rope.freq_base"@)) {
            Some(b) => b,
            None => DEFAULT_ROPE_BASE,
        },
    }
}

/// How many tokens the model can hold in view: the whole part of a number that is finite and not
/// negative, and 0 of anything else.
pub open spec fn context_length_of(kv: Seq<(Seq<char>, ValueView)>, arch: Seq<char>) -> u32 {
    match number_at(kv, arch_key(arch, "context_length"@)) {
        Some(b) => if f64_finite(b) && !f64_negative(b) {
            f64_whole_u32(b)
        } else {
            0
        },
        None => 0,
    }
}

/// The sizes of a model of a given architecture. What is missing is reported in the order
/// vocabulary, embedding, heads, feed-forward, layers.
pub open spec fn sizes_of(f: FileView, arch: Seq<char>) -> Result<HParamsView, ErrorView> {
    match vocab_size_of(f, arch) {
        Err(e) => Err(e),
        Ok(vocab_size) => match size_at(f.kv, arch_key(arch, "embedding_length"@)) {
            Err(e) => Err(e),
            Ok(embed_dim) => match size_at(f.kv, arch_key(arch, "attention.head_count"@)) {
                Err(e) => Err(e),
                Ok(n_heads) => {
                    let ffn = match size_at(f.kv, arch_key(arch, "ffn_length"@)) {
                        Ok(n) => Ok(n),
                        Err(_) => size_at(f.kv, arch_key(arch, "feed_forward_length"@)),
                    };
                    match ffn {
                        Err(e) => Err(e),
                        Ok(ffn_dim) => match size_at(f.kv, arch_key(arch, "block_count"@)) {
                            Err(e) => Err(e),
                            Ok(n_layers) => Ok(
                                HParamsView {
                                    arch,
                                    vocab_size,
                                    embed_dim,
                                    n_heads,
                                    n_kv_heads: kv_heads_of(f.kv, arch, n_heads),
                                    ffn_dim,
                                    n_layers,
                                    rope_freq_base: rope_base_of(f.kv, arch),
                                    context_length: context_length_of(f.kv, arch),
                                    pre_norm: match first_value(f.kv, arch_key(arch, "pre_norm"@)) {
                                        Some(ValueView::Bool(b)) => b,
                                        _ => true,
                                    },
                                },
                            ),
                        },
                    }
                },
            },
        },
    }
}

/// The sizes of the model that a file describes.
pub open spec fn hparams_of(f: FileView) -> Result<HParamsView, ErrorView> {
    match string_value(f.kv, "general.architecture"@) {
        None => Err(ErrorView::InferenceError("missing general.architecture"@)),
        Some(arch) => if supported_arch(arch) {
            sizes_of(f, arch)
        } else {
            Err(ErrorView::UnsupportedArchitecture(arch))
        },
    }
}

// ---------------------------------------------------------------------------------------------
// Reading it
// ---------------------------------------------------------------------------------------------

/// A key of an architecture.
pub(crate) fn key(arch: &str, field: &str) -> (r: String)
    ensures
        r@ == arch_key(arch@, field@),
{
    let mut r = concat(arch, ".");
    r.append(field);
    r
}

fn range_error(key: &str, n: u64) -> (e: GgufError)
    ensures
        e@ == out_of_range(key@, n as nat),
{
    let mut m = concat("KV ", key);
    m.append(" out of u32 range: ");
    push_dec(&mut m, n);
    GgufError::InferenceError(m)
}

fn no_integer_error(key: &str, v: &GgufValue) -> (e: GgufError)
    ensures
        e@ == ErrorView::InferenceError(
            "KV "@ + key@ + " is not an integer: "@ + gguf_type_ident(type_of_value(v@)),
        ),
{
    let mut m = concat("KV ", key);
    m.append(" is not an integer: ");
    m.append(v.value_type().ident());
    GgufError::InferenceError(m)
}

/// The size under `key`.
fn u32_at(file: &GgufFile, key: &str) -> (r: GgufResult<u32>)
    ensures
        match size_at(file@.kv, key@) {
            Ok(n) => r is Ok && r->Ok_0 == n,
            Err(e) => r is Err && r->Err_0@ == e,
        },
{
    let v = match file.get(key) {
        Some(v) => v,
        None => return Err(GgufError::InferenceError(concat("missing KV: ", key))),
    };
    match v {
        GgufValue::U32(x) => Ok(*x),
        GgufValue::U16(x) => Ok(*x as u32),
        GgufValue::U8(x) => Ok(*x as u32),
        GgufValue::I8(x) => if *x >= 0 {
            Ok(*x as u32)
        } else {
            Err(no_integer_error(key, v))
        },
        GgufValue::I16(x) => if *x >= 0 {
            Ok(*x as u32)
        } else {
            Err(no_integer_error(key, v))
        },
        GgufValue::I32(x) => if *x >= 0 {
            Ok(*x as u32)
        } else {
            Err(no_integer_error(key, v))
        },
        GgufValue::I64(x) => if *x < 0 {
            Err(no_integer_error(key, v))
        } else if *x <= 0xffff_ffff {
            Ok(*x as u32)
        } else {
            Err(range_error(key, *x as u64))
        },
        GgufValue::U64(x) => if *x <= 0xffff_ffff {
            Ok(*x as u32)
        } else {
            Err(range_error(key, *x))
        },
        GgufValue::F32(b) => {
            let bits: u32 = *b;
            let finite = (bits / 0x80_0000) % 0x100 != 0xff;
            let negative = bits >= 0x8000_0000 && bits != 0x8000_0000;
            proof {
                assert(f32_finite(bits) && f32_negative(bits) && f32_units(bits) == 0 ==> bits
                    == 0x8000_0000) by {
                    if bits > 0x8000_0000 && f32_finite(bits) {
                        crate::float::f32_rank_is_value_order(0x8000_0000, bits);
                        assert(f32_units(0x8000_0000) == 0);
                    }
                }
            }
            if finite && !negative {
                let (whole, near) = f32_to_u32(bits);
                if near {
                    return Ok(whole);
                }
            }
            let mut m = concat("KV ", key);
            m.append(" is not a non-negative integer: 0x");
            push_hex(&mut m, bits as u64, 8);
            Err(GgufError::InferenceError(m))
        },
        _ => Err(no_integer_error(key, v)),
    }
}

/// The size of the vocabulary.
fn vocab_size(file: &GgufFile, arch: &str) -> (r: GgufResult<u32>)
    ensures
        match vocab_size_of(file@, arch@) {
            Ok(n) => r is Ok && r->Ok_0 == n,
            Err(e) => r is Err && r->Err_0@ == e,
        },
{
    let k = key(arch, "vocab_size");
    match u32_at(file, k.as_str()) {
        Ok(n) => Ok(n),
        Err(_) => {
            let old = key(arch, "token_embd");
            let emb = match file.find_tensor(old.as_str()) {
                Some(t) => t,
                None => match file.find_tensor("token_embd.weight") {
                    Some(t) => t,
                    None => return Err(
                        GgufError::InferenceError(
                            owned("vocab_size: KV 缺失且 token_embd 张量不存在"),
                        ),
                    ),
                },
            };
            if emb.shape.len() != 2 {
                let mut m = owned("vocab_size: token_embd shape 应为 [D, V]，实际 ");
                push_listed(&mut m, &emb.shape);
                return Err(GgufError::InferenceError(m));
            }
            Ok(
                #[verifier::truncate]
                (emb.shape[1] as u32),
            )
        },
    }
}

/// The number under `key`, as a double precision number.
fn f64_at(file: &GgufFile, key: &str) -> (r: Option<u64>)
    ensures
        r == number_at(file@.kv, key@),
{
    match file.get(key) {
        Some(v) => v.as_f64(),
        None => None,
    }
}

/// The sizes of a model of the architecture `arch`.
fn parse_generic(file: &GgufFile, arch: &str) -> (r: GgufResult<HParams>)
    ensures
        match sizes_of(file@, arch@) {
            Ok(h) => r is Ok && r->Ok_0@ == h,
            Err(e) => r is Err && r->Err_0@ == e,
        },
{
    let vocab: u32 = match vocab_size(file, arch) {
        Ok(n) => n,
        Err(e) => return Err(e),
    };
    let embed_dim: u32 = match u32_at(file, key(arch, "embedding_length").as_str()) {
        Ok(n) => n,
        Err(e) => return Err(e),
    };
    let n_heads: u32 = match u32_at(file, key(arch, "attention.head_count").as_str()) {
        Ok(n) => n,
        Err(e) => return Err(e),
    };
    let ffn_dim: u32 = match u32_at(file, key(arch, "ffn_length").as_str()) {
        Ok(n) => n,
        Err(_) => match u32_at(file, key(arch, "feed_forward_length").as_str()) {
            Ok(n) => n,
            Err(e) => return Err(e),
        },
    };
    let n_layers: u32 = match u32_at(file, key(arch, "block_count").as_str()) {
        Ok(n) => n,
        Err(e) => return Err(e),
    };
    let n_kv_heads: u32 = match file.get(key(arch, "attention.head_count_kv").as_str()) {
        Some(v) => match v.as_i64() {
            Some(i) =>
            #[verifier::truncate]
            (i as u32),
            None => n_heads,
        },
        None => n_heads,
    };
    let rope_freq_base: u64 = match f64_at(file, key(arch, "attention.rope_freq_base").as_str()) {
        Some(b) => b,
        None => match f64_at(file, key(arch, "rope.freq_base").as_str()) {
            Some(b) => b,
            None => DEFAULT_ROPE_BASE,
        },
    };
    let context_length: u32 = match f64_at(file, key(arch, "context_length").as_str()) {
        Some(b) => if (b / 0x10_0000_0000_0000) % 0x800 != 0x7ff && b < 0x8000_0000_0000_0000 {
            f64_to_u32(b)
        } else {
            0
        },
        None => 0,
    };
    let pre_norm = match file.get(key(arch, "pre_norm").as_str()) {
        Some(v) => match v.as_bool() {
            Some(b) => b,
            None => true,
        },
        None => true,
    };
    Ok(
        HParams {
            arch: owned(arch),
            vocab_size: vocab,
            embed_dim,
            n_heads,
            n_kv_heads,
            ffn_dim,
            n_layers,
            rope_freq_base,
            context_length,
            pre_norm,
        },
    )
}

/// The sizes of the model that a file describes.
pub fn parse(file: &GgufFile) -> (r: GgufResult<HParams>)
    ensures
        match hparams_of(file@) {
            Ok(h) => r is Ok && r->Ok_0@ == h,
            Err(e) => r is Err && r->Err_0@ == e,
        },
{
    let arch = match file.architecture() {
        Some(a) => a,
        None => return Err(GgufError::InferenceError(owned("missing general.architecture"))),
    };
    if starts_with(arch, "llama") || starts_with(arch, "qwen2") || starts_with(arch, "qwen3")
        || starts_with(arch, "mistral") {
        parse_generic(file, arch)
    } else {
        Err(GgufError::UnsupportedArchitecture(owned(arch)))
    }
}

} // verus!
