//! What the names and the bytes of a model's tensors say about its file.
use vstd::prelude::*;
use vstd::string::*;
use crate::error::ErrorView;
use crate::file::{
    bytes_at, first_tensor, next_offset, physical_span, section_size, FileView,
};
use crate::tensor::{element_count, product, tensor_bytes, TensorView};
use crate::text::{dec, has_prefix};
use crate::types::{ggml_block_bytes, ggml_block_size, GgmlType};
use super::hparams_laws::{first_tensor_counts, lemma_prefix, named, unnamed};
use super::llama::{
    all_layers, layer_names_of, model_of, prefix_of, top_names_of, LayerNamesView,
    ModelView, Prefix, TopNamesView,
};
use super::weights::{lemma_exact_fits, named_weights, stored_type, weights_of};

verus! {

// ---------------------------------------------------------------------------------------------
// Names
// ---------------------------------------------------------------------------------------------

/// `n` is the older name where a tensor has it, and otherwise the newer name, which then one has.
pub open spec fn is_found(
    tensors: Seq<TensorView>,
    older: Seq<char>,
    newer: Seq<char>,
    n: Seq<char>,
) -> bool {
    if unnamed(tensors, older) {
        n == newer && !unnamed(tensors, newer)
    } else {
        n == older
    }
}

/// A name that need not be there: it is missing where no tensor has either form of it.
pub open spec fn is_found_or_missing(
    tensors: Seq<TensorView>,
    older: Seq<char>,
    newer: Seq<char>,
    n: Option<Seq<char>>,
) -> bool {
    match n {
        Some(s) => is_found(tensors, older, newer, s),
        None => unnamed(tensors, older) && unnamed(tensors, newer),
    }
}

/// The tensors outside the layers are those with their older names, or else with their newer ones.
pub proof fn top_tensors_have_their_names(f: FileView, m: ModelView)
    requires
        model_of(f) == Ok::<ModelView, ErrorView>(m),
    ensures
        is_found(
            f.tensors,
            m.hp.arch + "."@ + "token_embd"@,
            "token_embd.weight"@,
            m.top_names.token_embd,
        ),
        is_found(f.tensors, m.hp.arch + "."@ + "output"@, "output.weight"@, m.top_names.output),
        is_found(
            f.tensors,
            m.hp.arch + "."@ + "output_norm"@,
            "output_norm.weight"@,
            m.top_names.output_norm,
        ),
{
    first_tensor_counts(f.tensors, m.hp.arch + "."@ + "token_embd"@);
    first_tensor_counts(f.tensors, m.hp.arch + "."@ + "output"@);
    first_tensor_counts(f.tensors, m.hp.arch + "."@ + "output_norm"@);
    first_tensor_counts(f.tensors, "token_embd.weight"@);
    first_tensor_counts(f.tensors, "output.weight"@);
    first_tensor_counts(f.tensors, "output_norm.weight"@);
}

proof fn lemma_layer(tensors: Seq<TensorView>, arch: Seq<char>, n: nat, l: int)
    requires
        all_layers(tensors, arch, n) is Ok,
    ensures
        all_layers(tensors, arch, n)->Ok_0.len() == n,
        0 <= l < n ==> layer_names_of(tensors, arch, l as nat) == Ok::<LayerNamesView, ErrorView>(
            all_layers(tensors, arch, n)->Ok_0[l],
        ),
    decreases n,
{
    if n > 0 {
        lemma_layer(tensors, arch, (n - 1) as nat, l);
    }
}

proof fn lemma_names(tensors: Seq<TensorView>, arch: Seq<char>, l: nat, older: Seq<char>, newer: Seq<
    char,
>)
    ensures
        unnamed(tensors, arch + "."@ + dec(l) + "."@ + older) <==> first_tensor(
            tensors,
            arch + "."@ + dec(l) + "."@ + older,
        ) is None,
        unnamed(tensors, "blk."@ + dec(l) + "."@ + newer) <==> first_tensor(
            tensors,
            "blk."@ + dec(l) + "."@ + newer,
        ) is None,
{
    first_tensor_counts(tensors, arch + "."@ + dec(l) + "."@ + older);
    first_tensor_counts(tensors, "blk."@ + dec(l) + "."@ + newer);
}

/// A name of layer `l` is `{arch}.{l}.{older}` where a tensor has that name, and otherwise
/// `blk.{l}.{newer}`.
pub open spec fn in_layer(
    tensors: Seq<TensorView>,
    arch: Seq<char>,
    l: nat,
    older: Seq<char>,
    newer: Seq<char>,
    n: Seq<char>,
) -> bool {
    is_found(tensors, arch + "."@ + dec(l) + "."@ + older, "blk."@ + dec(l) + "."@ + newer, n)
}

/// A name of layer `l` that need not be there.
pub open spec fn in_layer_or_missing(
    tensors: Seq<TensorView>,
    arch: Seq<char>,
    l: nat,
    older: Seq<char>,
    newer: Seq<char>,
    n: Option<Seq<char>>,
) -> bool {
    is_found_or_missing(
        tensors,
        arch + "."@ + dec(l) + "."@ + older,
        "blk."@ + dec(l) + "."@ + newer,
        n,
    )
}

/// The attention tensors of each layer are those with their names for that layer.
pub proof fn attention_tensors_have_their_names(f: FileView, m: ModelView, l: int)
    requires
        model_of(f) == Ok::<ModelView, ErrorView>(m),
        0 <= l < m.hp.n_layers,
    ensures
        m.layer_names.len() == m.hp.n_layers,
        in_layer(f.tensors, m.hp.arch, l as nat, "attn.wq"@, "attn_q.weight"@, m.layer_names[l].wq),
        in_layer(f.tensors, m.hp.arch, l as nat, "attn.wk"@, "attn_k.weight"@, m.layer_names[l].wk),
        in_layer(f.tensors, m.hp.arch, l as nat, "attn.wv"@, "attn_v.weight"@, m.layer_names[l].wv),
        in_layer(
            f.tensors,
            m.hp.arch,
            l as nat,
            "attn.wo"@,
            "attn_output.weight"@,
            m.layer_names[l].wo,
        ),
        in_layer(
            f.tensors,
            m.hp.arch,
            l as nat,
            "attn_norm"@,
            "attn_norm.weight"@,
            m.layer_names[l].norm_attn,
        ),
        in_layer_or_missing(
            f.tensors,
            m.hp.arch,
            l as nat,
            "attn.b_q"@,
            "attn_q.bias"@,
            m.layer_names[l].b_q,
        ),
        in_layer_or_missing(
            f.tensors,
            m.hp.arch,
            l as nat,
            "attn.b_k"@,
            "attn_k.bias"@,
            m.layer_names[l].b_k,
        ),
        in_layer_or_missing(
            f.tensors,
            m.hp.arch,
            l as nat,
            "attn.b_v"@,
            "attn_v.bias"@,
            m.layer_names[l].b_v,
        ),
{
    let (ts, arch, i) = (f.tensors, m.hp.arch, l as nat);
    lemma_layer(ts, arch, m.hp.n_layers as nat, l);
    lemma_names(ts, arch, i, "attn.wq"@, "attn_q.weight"@);
    lemma_names(ts, arch, i, "attn.wk"@, "attn_k.weight"@);
    lemma_names(ts, arch, i, "attn.wv"@, "attn_v.weight"@);
    lemma_names(ts, arch, i, "attn.wo"@, "attn_output.weight"@);
    lemma_names(ts, arch, i, "attn_norm"@, "attn_norm.weight"@);
    lemma_names(ts, arch, i, "attn.b_q"@, "attn_q.bias"@);
    lemma_names(ts, arch, i, "attn.b_k"@, "attn_k.bias"@);
    lemma_names(ts, arch, i, "attn.b_v"@, "attn_v.bias"@);
}

/// The feed-forward tensors of each layer are those with their names for that layer.
pub proof fn feed_forward_tensors_have_their_names(f: FileView, m: ModelView, l: int)
    requires
        model_of(f) == Ok::<ModelView, ErrorView>(m),
        0 <= l < m.hp.n_layers,
    ensures
        m.layer_names.len() == m.hp.n_layers,
        in_layer(
            f.tensors,
            m.hp.arch,
            l as nat,
            "ffn.w1"@,
            "ffn_up.weight"@,
            m.layer_names[l].w_ffn_up,
        ),
        in_layer(
            f.tensors,
            m.hp.arch,
            l as nat,
            "ffn.w2"@,
            "ffn_gate.weight"@,
            m.layer_names[l].w_ffn_gate,
        ),
        in_layer(
            f.tensors,
            m.hp.arch,
            l as nat,
            "ffn.w3"@,
            "ffn_down.weight"@,
            m.layer_names[l].w_ffn_down,
        ),
        in_layer(
            f.tensors,
            m.hp.arch,
            l as nat,
            "ffn_norm"@,
            "ffn_norm.weight"@,
            m.layer_names[l].norm_ffn,
        ),
{
    let (ts, arch, i) = (f.tensors, m.hp.arch, l as nat);
    lemma_layer(ts, arch, m.hp.n_layers as nat, l);
    lemma_names(ts, arch, i, "ffn.w1"@, "ffn_up.weight"@);
    lemma_names(ts, arch, i, "ffn.w2"@, "ffn_gate.weight"@);
    lemma_names(ts, arch, i, "ffn.w3"@, "ffn_down.weight"@);
    lemma_names(ts, arch, i, "ffn_norm"@, "ffn_norm.weight"@);
}

/// A layer whose tensors all have one of their two names is accepted, with or without biases.
pub proof fn complete_layer_is_accepted(tensors: Seq<TensorView>, arch: Seq<char>, l: nat)
    requires
        exists|n: Seq<char>| in_layer(tensors, arch, l, "attn.wq"@, "attn_q.weight"@, n),
        exists|n: Seq<char>| in_layer(tensors, arch, l, "attn.wk"@, "attn_k.weight"@, n),
        exists|n: Seq<char>| in_layer(tensors, arch, l, "attn.wv"@, "attn_v.weight"@, n),
        exists|n: Seq<char>| in_layer(tensors, arch, l, "attn.wo"@, "attn_output.weight"@, n),
        exists|n: Seq<char>| in_layer(tensors, arch, l, "attn_norm"@, "attn_norm.weight"@, n),
        exists|n: Seq<char>| in_layer(tensors, arch, l, "ffn.w1"@, "ffn_up.weight"@, n),
        exists|n: Seq<char>| in_layer(tensors, arch, l, "ffn.w2"@, "ffn_gate.weight"@, n),
        exists|n: Seq<char>| in_layer(tensors, arch, l, "ffn.w3"@, "ffn_down.weight"@, n),
        exists|n: Seq<char>| in_layer(tensors, arch, l, "ffn_norm"@, "ffn_norm.weight"@, n),
    ensures
        layer_names_of(tensors, arch, l) is Ok,
{
    lemma_names(tensors, arch, l, "attn.wq"@, "attn_q.weight"@);
    lemma_names(tensors, arch, l, "attn.wk"@, "attn_k.weight"@);
    lemma_names(tensors, arch, l, "attn.wv"@, "attn_v.weight"@);
    lemma_names(tensors, arch, l, "attn.wo"@, "attn_output.weight"@);
    lemma_names(tensors, arch, l, "attn_norm"@, "attn_norm.weight"@);
    lemma_names(tensors, arch, l, "ffn.w1"@, "ffn_up.weight"@);
    lemma_names(tensors, arch, l, "ffn.w2"@, "ffn_gate.weight"@);
    lemma_names(tensors, arch, l, "ffn.w3"@, "ffn_down.weight"@);
    lemma_names(tensors, arch, l, "ffn_norm"@, "ffn_norm.weight"@);
}

/// An architecture belongs to the family that its name starts with; both younger families of one
/// maker are one.
pub proof fn family_is_by_the_name(tail: Seq<char>)
    ensures
        prefix_of("llama"@ + tail) == Some(Prefix::Llama),
        prefix_of("qwen2"@ + tail) == Some(Prefix::Qwen2),
        prefix_of("qwen3"@ + tail) == Some(Prefix::Qwen2),
        prefix_of("mistral"@ + tail) == Some(Prefix::Mistral),
{
    reveal_strlit("llama");
    reveal_strlit("qwen2");
    reveal_strlit("qwen3");
    reveal_strlit("mistral");
    lemma_prefix("llama"@ + tail, "llama"@, tail);
    lemma_prefix("qwen2"@ + tail, "qwen2"@, tail);
    lemma_prefix("qwen3"@ + tail, "qwen3"@, tail);
    lemma_prefix("mistral"@ + tail, "mistral"@, tail);
    lemma_other_prefix("qwen2"@ + tail, "llama"@);
    lemma_other_prefix("qwen3"@ + tail, "llama"@);
    lemma_other_prefix("mistral"@ + tail, "llama"@);
    lemma_other_prefix("mistral"@ + tail, "qwen2"@);
    lemma_other_prefix("mistral"@ + tail, "qwen3"@);
}

proof fn lemma_other_prefix(s: Seq<char>, p: Seq<char>)
    requires
        p.len() > 0,
        s.len() > 0,
        s[0] != p[0],
    ensures
        !has_prefix(s, p),
{
    if has_prefix(s, p) {
        assert(s.take(p.len() as int)[0] == s[0]);
    }
}

// ---------------------------------------------------------------------------------------------
// Elements and bytes
// ---------------------------------------------------------------------------------------------

/// A tensor has one element where it has no dimensions, and each dimension multiplies them, until
/// they no longer fit.
pub proof fn dimensions_multiply(t: TensorView, a: u64, b: u64, shape: Seq<u64>, d: u64)
    ensures
        t.shape == Seq::<u64>::empty() ==> element_count(t) == 1,
        t.shape == seq![a] ==> element_count(t) == a,
        t.shape == seq![a, b] && a * b <= u64::MAX ==> element_count(t) == a * b,
        t.shape == seq![a, b] && a * b > u64::MAX ==> element_count(t) == u64::MAX,
        t.shape == shape.push(d) && product(shape) * d <= u64::MAX ==> element_count(t) == product(
            shape,
        ) * d,
{
    reveal_with_fuel(product, 3);
    assert(shape.push(d).drop_last() == shape);
    assert(seq![a].drop_last() == Seq::<u64>::empty());
    assert(seq![a, b].drop_last() == seq![a]);
    assert(1 * a == a) by (nonlinear_arith);
    assert(product(seq![a]) == a);
    assert(product(seq![a, b]) == a as nat * b as nat);
}

/// The bytes of a tensor are to its elements as the bytes of a block are to the elements of a
/// block; there is a size exactly where the elements fill whole blocks and the bytes fit.
pub proof fn bytes_are_proportional(t: TensorView)
    requires
        ggml_block_size(t.dtype) is Some,
    ensures
        tensor_bytes(t) is Ok ==> tensor_bytes(t)->Ok_0 * ggml_block_size(t.dtype)->Some_0
            == element_count(t) * ggml_block_bytes(t.dtype)->Some_0,
        tensor_bytes(t) is Ok <==> (exists|blocks: nat|
            element_count(t) == #[trigger] (blocks * ggml_block_size(t.dtype)->Some_0) && blocks
                * ggml_block_bytes(t.dtype)->Some_0 <= u64::MAX),
{
    let (n, size, bytes) = (
        element_count(t) as int,
        ggml_block_size(t.dtype)->Some_0 as int,
        ggml_block_bytes(t.dtype)->Some_0 as int,
    );
    assert(size > 0);
    vstd::arithmetic::div_mod::lemma_fundamental_div_mod(n, size);
    let q = n / size;
    if tensor_bytes(t) is Ok {
        assert((q * bytes) * size == n * bytes) by (nonlinear_arith)
            requires
                n == size * q,
        ;
        let blocks = q as nat;
        assert(blocks * ggml_block_size(t.dtype)->Some_0 == n) by (nonlinear_arith)
            requires
                blocks == q,
                size == ggml_block_size(t.dtype)->Some_0,
                n == size * q,
        ;
    }
    if exists|blocks: nat|
        element_count(t) == #[trigger] (blocks * ggml_block_size(t.dtype)->Some_0) && blocks
            * ggml_block_bytes(t.dtype)->Some_0 <= u64::MAX {
        let blocks = choose|blocks: nat|
            element_count(t) == #[trigger] (blocks * ggml_block_size(t.dtype)->Some_0) && blocks
                * ggml_block_bytes(t.dtype)->Some_0 <= u64::MAX;
        vstd::arithmetic::div_mod::lemma_fundamental_div_mod_converse(n, size, blocks as int, 0);
    }
}

/// The bytes of a tensor stand in the file from the start of the data section and the tensor's
/// offset on; they are there exactly where the file is long enough.
pub proof fn bytes_stand_at_the_offset(f: FileView, data: Seq<u8>, t: TensorView, size: nat, i: int)
    ensures
        bytes_at(f, data, t, size) is Ok <==> f.data_offset + t.offset + size <= data.len(),
        bytes_at(f, data, t, size) is Ok ==> bytes_at(f, data, t, size)->Ok_0.len() == size,
        bytes_at(f, data, t, size) is Ok && 0 <= i < size ==> bytes_at(f, data, t, size)->Ok_0[i]
            == data[f.data_offset + t.offset + i],
{
}

/// What lies between the start of a tensor's data and the next one's ends where a tensor starts or
/// where the file ends.
pub proof fn span_ends_at_something(f: FileView, t: TensorView)
    requires
        physical_span(f, t) is Ok,
        f.data_offset <= f.file_size,
    ensures
        t.offset + physical_span(f, t)->Ok_0 + f.data_offset == f.file_size || exists|i: int|
            0 <= i < f.tensors.len() && t.offset + physical_span(f, t)->Ok_0 == (
            #[trigger] f.tensors[i]).offset,
{
    lemma_next(f.tensors, t.offset, section_size(f));
}

proof fn lemma_next(tensors: Seq<TensorView>, offset: u64, limit: u64)
    requires
        offset <= limit,
    ensures
        offset <= next_offset(tensors, offset, limit) <= limit,
        next_offset(tensors, offset, limit) == limit || exists|i: int|
            0 <= i < tensors.len() && next_offset(tensors, offset, limit) == (
            #[trigger] tensors[i]).offset,
    decreases tensors.len(),
{
    if tensors.len() > 0 {
        let front = tensors.drop_last();
        lemma_next(front, offset, limit);
        let n = next_offset(tensors, offset, limit);
        if n == tensors.last().offset {
            assert(tensors[tensors.len() - 1].offset == n);
        } else if n != limit {
            let i = choose|i: int| 0 <= i < front.len() && n == (#[trigger] front[i]).offset;
            assert(tensors[i].offset == n);
        }
    }
}

/// The types that are told by how many bytes they take for 256 elements.
pub open spec fn has_density(ty: GgmlType, bytes: nat) -> bool {
    ||| ty == GgmlType::Q2_K && bytes == 84
    ||| ty == GgmlType::Q3_K_S && bytes == 110
    ||| ty == GgmlType::Q3_K_M && bytes == 114
    ||| ty == GgmlType::Q4_K && bytes == 144
    ||| ty == GgmlType::Q5_K && bytes == 176
    ||| ty == GgmlType::Q6_K && bytes == 210
    ||| ty == GgmlType::Q8_K && bytes == 292
}

/// A tensor that is marked with a quantised type and takes exactly the bytes of another is read as
/// that other; one that is marked as plain numbers never is.
pub proof fn density_tells_the_type(groups: u64, actual: GgmlType, marked: GgmlType, bytes: nat)
    requires
        groups > 0,
        groups * 256 <= u64::MAX,
        has_density(actual, bytes),
        groups * bytes <= u64::MAX,
    ensures
        ggml_block_size(marked) == Some(32u64) || ggml_block_size(marked) == Some(256u64)
            ==> stored_type((groups * bytes) as u64, (groups * 256) as u64, marked) == Some(actual),
        ggml_block_size(marked) == Some(1u64) || ggml_block_size(marked) is None ==> stored_type(
            (groups * bytes) as u64,
            (groups * 256) as u64,
            marked,
        ) is None,
{
    let (g, b) = (groups as int, bytes as int);
    let span = (groups * bytes) as u64;
    assert((g * 256) / 32 == g * 8);
    assert((g * 256) / 256 == g);
    assert((span as nat * 8) as int == (g * 8) * b) by (nonlinear_arith)
        requires
            span == g * b,
    ;
    vstd::arithmetic::div_mod::lemma_fundamental_div_mod_converse((g * 8) * b, g * 8, b, 0);
    assert(g * b == b * g) by (nonlinear_arith);
    vstd::arithmetic::div_mod::lemma_fundamental_div_mod_converse(g * b, g, b, 0);
    assert(b * (g * 8) == (g * 8) * b) by (nonlinear_arith);
    assert(span as nat * 1 == span);
}

/// What is told apart by its bytes is a known type: its own bytes for every 256 elements fit in the
/// span, and one byte more for each would not.
pub proof fn told_type_fits_the_span(span: u64, n: u64, marked: GgmlType, bytes: nat)
    requires
        stored_type(span, n, marked) is Some,
        has_density(stored_type(span, n, marked)->Some_0, bytes),
        n % 256 == 0,
    ensures
        bytes * (n / 256) <= span < (bytes + 1) * (n / 256),
        span - bytes * (n / 256) <= 256,
{
    let g = (n / 256) as int;
    let b = bytes as int;
    let (blocks, per) = if ggml_block_size(marked) == Some(32u64) {
        ((n / 32) as int, 8int)
    } else {
        (g, 1int)
    };
    assert(blocks == g * per);
    let total = span * per;
    vstd::arithmetic::div_mod::lemma_fundamental_div_mod(total, blocks);
    assert(total / blocks == b);
    let rem = total % blocks;
    assert(blocks * b == (g * b) * per) by (nonlinear_arith)
        requires
            blocks == g * per,
    ;
    assert(g * b == b * g) by (nonlinear_arith);
    assert((b + 1) * g == b * g + g) by (nonlinear_arith);
    let left = span - b * g;
    assert(rem == per * left) by (nonlinear_arith)
        requires
            span * per == (b * g) * per + rem,
            left == span - b * g,
    ;
    vstd::arithmetic::div_mod::lemma_div_multiples_vanish(left, per);
    assert(left < g) by (nonlinear_arith)
        requires
            per * left < g * per,
            per > 0,
    ;
    assert(left >= 0) by (nonlinear_arith)
        requires
            per * left >= 0,
            per > 0,
    ;
}

/// The weights of a tensor are bytes of the file from the start of its data on, whole blocks of
/// the type that they are read as; another type than the marked one is one that its bytes tell.
pub proof fn weights_are_the_stored_bytes(f: FileView, data: Seq<u8>, t: TensorView, i: int)
    requires
        weights_of(f, data, t) is Ok,
    ensures
        ({
            let w = weights_of(f, data, t)->Ok_0;
            &&& f.data_offset + t.offset + w.bytes.len() <= data.len()
            &&& 0 <= i < w.bytes.len() ==> w.bytes[i] == data[f.data_offset + t.offset + i]
            &&& w.dtype != t.dtype ==> ggml_block_size(w.dtype) == Some(256u64) && w.bytes.len()
                == (element_count(t) / 256) * ggml_block_bytes(w.dtype)->Some_0
            &&& w.dtype != t.dtype ==> stored_type(
                physical_span(f, t)->Ok_0,
                element_count(t),
                t.dtype,
            ) == Some(w.dtype)
        }),
{
    let w = weights_of(f, data, t)->Ok_0;
    if stored_type(physical_span(f, t)->Ok_0, element_count(t), t.dtype) is Some {
        lemma_exact_fits(
            physical_span(f, t)->Ok_0,
            element_count(t),
            t.dtype,
        );
    }
}

/// The weights that are read hold as many elements as the tensor has, where those are whole groups
/// of 256 or the tensor is read as the type that it is marked with.
pub proof fn weights_hold_all_elements(f: FileView, data: Seq<u8>, t: TensorView)
    requires
        weights_of(f, data, t) is Ok,
        element_count(t) % 256 == 0 || stored_type(
            physical_span(f, t)->Ok_0,
            element_count(t),
            t.dtype,
        ) is None,
    ensures
        weights_of(f, data, t)->Ok_0.elements == element_count(t),
{
    let w = weights_of(f, data, t)->Ok_0;
    let told = stored_type(physical_span(f, t)->Ok_0, element_count(t), t.dtype);
    if told is Some {
        lemma_exact_fits(physical_span(f, t)->Ok_0, element_count(t), t.dtype);
    }
    let n = element_count(t) as int;
    let (size, bytes) = (
        ggml_block_size(w.dtype)->Some_0 as int,
        ggml_block_bytes(w.dtype)->Some_0 as int,
    );
    assert(size > 0 && bytes > 0);
    let len = w.bytes.len() as int;
    let q = n / size;
    vstd::arithmetic::div_mod::lemma_fundamental_div_mod(n, size);
    assert(len == q * bytes);
    assert(bytes * q == q * bytes) by (nonlinear_arith);
    vstd::arithmetic::div_mod::lemma_div_multiples_vanish(q, bytes);
    assert(q * size == size * q) by (nonlinear_arith);
}

/// The weights under a name are those of the first tensor with it, and they have exactly its
/// elements; without such a tensor there are none.
pub proof fn weights_are_complete(f: FileView, data: Seq<u8>, name: Seq<char>, t: TensorView)
    ensures
        unnamed(f.tensors, name) ==> named_weights(f, data, name) is Err,
        named(f.tensors, name, t) && named_weights(f, data, name) is Ok ==> named_weights(
            f,
            data,
            name,
        ) == weights_of(f, data, t) && named_weights(f, data, name)->Ok_0.elements == element_count(
            t,
        ),
        named(f.tensors, name, t) && weights_of(f, data, t) is Ok && weights_of(
            f,
            data,
            t,
        )->Ok_0.elements == element_count(t) ==> named_weights(f, data, name) is Ok,
{
    first_tensor_counts(f.tensors, name);
}

/// A tensor that takes exactly the bytes of its marked type is read as that type, all of it. One
/// that takes another number of bytes is read as the type that they tell, or else as marked.
pub proof fn marked_type_holds_where_it_fits(f: FileView, data: Seq<u8>, t: TensorView)
    requires
        weights_of(f, data, t) is Ok,
    ensures
        ({
            let span = physical_span(f, t)->Ok_0;
            let marked = (element_count(t) / ggml_block_size(t.dtype)->Some_0)
                * ggml_block_bytes(t.dtype)->Some_0;
            let w = weights_of(f, data, t)->Ok_0;
            &&& span == marked ==> w.dtype == t.dtype && w.bytes.len() == span
            &&& span != marked ==> (stored_type(span, element_count(t), t.dtype) matches Some(ty)
                ==> w.dtype == ty)
            &&& stored_type(span, element_count(t), t.dtype) is None ==> w.dtype == t.dtype
                && w.bytes.len() == marked
        }),
{
}

/// The tensor of a layer that is reported as missing is one of which neither name is there, under
/// its older name.
pub proof fn missing_tensor_is_named(tensors: Seq<TensorView>, arch: Seq<char>, l: nat)
    ensures
        layer_names_of(tensors, arch, l) matches Err(e) ==> {
            ||| is_missing(tensors, arch, l, "attn.wq"@, "attn_q.weight"@, e)
            ||| is_missing(tensors, arch, l, "attn.wk"@, "attn_k.weight"@, e)
            ||| is_missing(tensors, arch, l, "attn.wv"@, "attn_v.weight"@, e)
            ||| is_missing(tensors, arch, l, "attn.wo"@, "attn_output.weight"@, e)
            ||| is_missing(tensors, arch, l, "ffn.w1"@, "ffn_up.weight"@, e)
            ||| is_missing(tensors, arch, l, "ffn.w2"@, "ffn_gate.weight"@, e)
            ||| is_missing(tensors, arch, l, "ffn.w3"@, "ffn_down.weight"@, e)
            ||| is_missing(tensors, arch, l, "attn_norm"@, "attn_norm.weight"@, e)
            ||| is_missing(tensors, arch, l, "ffn_norm"@, "ffn_norm.weight"@, e)
        },
{
    lemma_names(tensors, arch, l, "attn.wq"@, "attn_q.weight"@);
    lemma_names(tensors, arch, l, "attn.wk"@, "attn_k.weight"@);
    lemma_names(tensors, arch, l, "attn.wv"@, "attn_v.weight"@);
    lemma_names(tensors, arch, l, "attn.wo"@, "attn_output.weight"@);
    lemma_names(tensors, arch, l, "attn_norm"@, "attn_norm.weight"@);
    lemma_names(tensors, arch, l, "ffn.w1"@, "ffn_up.weight"@);
    lemma_names(tensors, arch, l, "ffn.w2"@, "ffn_gate.weight"@);
    lemma_names(tensors, arch, l, "ffn.w3"@, "ffn_down.weight"@);
    lemma_names(tensors, arch, l, "ffn_norm"@, "ffn_norm.weight"@);
}

/// The error names a tensor of layer `l` of which neither name is there.
pub open spec fn is_missing(
    tensors: Seq<TensorView>,
    arch: Seq<char>,
    l: nat,
    older: Seq<char>,
    newer: Seq<char>,
    e: ErrorView,
) -> bool {
    &&& unnamed(tensors, arch + "."@ + dec(l) + "."@ + older)
    &&& unnamed(tensors, "blk."@ + dec(l) + "."@ + newer)
    &&& e == (ErrorView::MissingTensor {
        name: arch + "."@ + dec(l) + "."@ + older,
        kind: "tensor"@,
    })
}

/// A tensor that is missing outside the layers is reported under its older name.
pub proof fn missing_top_tensor_is_named(tensors: Seq<TensorView>, arch: Seq<char>)
    ensures
        unnamed(tensors, arch + "."@ + "token_embd"@) && unnamed(tensors, "token_embd.weight"@)
            ==> top_names_of(tensors, arch) == Err::<TopNamesView, ErrorView>(
            ErrorView::MissingTensor { name: arch + "."@ + "token_embd"@, kind: "tensor"@ },
        ),
        top_names_of(tensors, arch) matches Err(e) ==> e == (ErrorView::MissingTensor {
            name: arch + "."@ + "token_embd"@,
            kind: "tensor"@,
        }) || e == (ErrorView::MissingTensor {
            name: arch + "."@ + "output"@,
            kind: "tensor"@,
        }) || e == (ErrorView::MissingTensor {
            name: arch + "."@ + "output_norm"@,
            kind: "tensor"@,
        }),
        top_names_of(tensors, arch) is Ok <==> !((unnamed(tensors, arch + "."@ + "token_embd"@)
            && unnamed(tensors, "token_embd.weight"@)) || (unnamed(tensors, arch + "."@ + "output"@)
            && unnamed(tensors, "output.weight"@)) || (unnamed(
            tensors,
            arch + "."@ + "output_norm"@,
        ) && unnamed(tensors, "output_norm.weight"@))),
{
    first_tensor_counts(tensors, arch + "."@ + "token_embd"@);
    first_tensor_counts(tensors, arch + "."@ + "output"@);
    first_tensor_counts(tensors, arch + "."@ + "output_norm"@);
    first_tensor_counts(tensors, "token_embd.weight"@);
    first_tensor_counts(tensors, "output.weight"@);
    first_tensor_counts(tensors, "output_norm.weight"@);
}

} // verus!
