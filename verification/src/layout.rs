//! What holds of the format as a whole: the metadata is fixed by the bytes up to its end, no
//! shorter file has it, and what is written down is what is read back.
use vstd::prelude::*;
use vstd::arithmetic::power2::*;
use vstd::utf8::*;
use crate::cursor::{
    le, read_i64, read_string, read_u32, read_u64, read_uint, signed, Parsed,
};
use crate::error::ErrorView;
use crate::file::{
    aligned_up, alignment_of, parse_dims, parse_file, parse_header, parse_pair,
    parse_pairs, parse_scalar, parse_scalars, parse_tensor, parse_tensors, parse_type, parse_typed,
    FileView, MAX_DIMS,
};
use crate::header::{GgufHeader, GGUF_MAGIC, GGUF_VERSION};
use crate::tensor::TensorView;
use crate::types::{
    gguf_min_size, gguf_tag, ggml_type_of, type_of_value, GgufType, ValueView,
};

verus! {

// ---------------------------------------------------------------------------------------------
// The bytes up to the end of the metadata decide
// ---------------------------------------------------------------------------------------------

/// Two files with the same first `end` bytes.
pub open spec fn agree(a: Seq<u8>, b: Seq<u8>, end: int) -> bool {
    &&& 0 <= end <= a.len()
    &&& end <= b.len()
    &&& forall|i: int| 0 <= i < end ==> a[i] == b[i]
}

proof fn lemma_le_agree(a: Seq<u8>, b: Seq<u8>, pos: int, n: nat)
    requires
        0 <= pos,
        agree(a, b, pos + n),
    ensures
        le(a, pos, n) == le(b, pos, n),
    decreases n,
{
    if n > 0 {
        lemma_le_agree(a, b, pos + 1, (n - 1) as nat);
    }
}

/// A number is read from its own bytes.
proof fn lemma_uint_stable(a: Seq<u8>, b: Seq<u8>, pos: int, n: nat)
    requires
        0 <= pos,
        read_uint(a, pos, n) is Ok,
        agree(a, b, pos + n),
    ensures
        read_uint(b, pos, n) == read_uint(a, pos, n),
{
    lemma_le_agree(a, b, pos, n);
}

/// A string is read from its own bytes.
proof fn lemma_string_stable(a: Seq<u8>, b: Seq<u8>, pos: int)
    requires
        0 <= pos,
        read_string(a, pos) is Ok,
        agree(a, b, read_string(a, pos)->Ok_0.1),
    ensures
        read_string(b, pos) == read_string(a, pos),
        read_string(a, pos)->Ok_0.1 >= pos + 8,
{
    lemma_le_agree(a, b, pos, 8);
    let (len, p) = read_uint(a, pos, 8)->Ok_0;
    assert(a.subrange(p, p + len) =~= b.subrange(p, p + len));
}

/// A value is read from its own bytes, and takes at least the smallest size of its type.
proof fn lemma_scalar_stable(a: Seq<u8>, b: Seq<u8>, pos: int, ty: GgufType)
    requires
        0 <= pos,
        parse_scalar(a, pos, ty) is Ok,
        agree(a, b, parse_scalar(a, pos, ty)->Ok_0.1),
    ensures
        parse_scalar(b, pos, ty) == parse_scalar(a, pos, ty),
        parse_scalar(a, pos, ty)->Ok_0.1 >= pos + gguf_min_size(ty),
{
    match ty {
        GgufType::Uint8 | GgufType::Int8 | GgufType::Bool => lemma_uint_stable(a, b, pos, 1),
        GgufType::Uint16 | GgufType::Int16 => lemma_uint_stable(a, b, pos, 2),
        GgufType::Uint32 | GgufType::Int32 | GgufType::F32 => lemma_uint_stable(a, b, pos, 4),
        GgufType::Uint64 | GgufType::Int64 | GgufType::F64 => lemma_uint_stable(a, b, pos, 8),
        GgufType::String => lemma_string_stable(a, b, pos),
        GgufType::Array => {},
    }
}

/// Where reading in a row succeeds, it does not go back.
proof fn lemma_scalars_forward(a: Seq<u8>, pos: int, ty: GgufType, n: nat)
    requires
        0 <= pos <= a.len(),
        parse_scalars(a, pos, ty, n) is Ok,
    ensures
        pos + n * gguf_min_size(ty) <= parse_scalars(a, pos, ty, n)->Ok_0.1 <= a.len(),
        parse_scalars(a, pos, ty, n)->Ok_0.0.len() == n,
    decreases n,
{
    if n > 0 {
        let (v, p) = parse_scalar(a, pos, ty)->Ok_0;
        assert(p <= a.len());
        lemma_scalar_stable(a, a, pos, ty);
        lemma_scalars_forward(a, p, ty, (n - 1) as nat);
        assert(n * gguf_min_size(ty) == (n - 1) * gguf_min_size(ty) + gguf_min_size(ty))
            by (nonlinear_arith);
    } else {
        assert(0 * gguf_min_size(ty) == 0) by (nonlinear_arith);
    }
}

proof fn lemma_scalars_stable(a: Seq<u8>, b: Seq<u8>, pos: int, ty: GgufType, n: nat)
    requires
        0 <= pos <= a.len(),
        parse_scalars(a, pos, ty, n) is Ok,
        agree(a, b, parse_scalars(a, pos, ty, n)->Ok_0.1),
    ensures
        parse_scalars(b, pos, ty, n) == parse_scalars(a, pos, ty, n),
    decreases n,
{
    if n > 0 {
        let (v, p) = parse_scalar(a, pos, ty)->Ok_0;
        lemma_scalar_stable(a, a, pos, ty);
        lemma_scalars_forward(a, p, ty, (n - 1) as nat);
        assert(0 <= (n - 1) * gguf_min_size(ty)) by (nonlinear_arith)
            requires
                n >= 1,
        ;
        lemma_scalar_stable(a, b, pos, ty);
        lemma_scalars_stable(a, b, p, ty, (n - 1) as nat);
    }
}

/// A value of any type is read from its own bytes.
proof fn lemma_typed_stable(a: Seq<u8>, b: Seq<u8>, pos: int, ty: GgufType)
    requires
        0 <= pos <= a.len(),
        parse_typed(a, pos, ty) is Ok,
        agree(a, b, parse_typed(a, pos, ty)->Ok_0.1),
    ensures
        parse_typed(b, pos, ty) == parse_typed(a, pos, ty),
        pos <= parse_typed(a, pos, ty)->Ok_0.1,
{
    if ty == GgufType::Array {
        let (ety, p) = parse_type(a, pos)->Ok_0;
        let (count, q) = read_u64(a, p)->Ok_0;
        lemma_scalars_forward(a, q, ety, count as nat);
        assert(0 <= count * gguf_min_size(ety)) by (nonlinear_arith);
        lemma_uint_stable(a, b, pos, 4);
        lemma_uint_stable(a, b, p, 8);
        lemma_scalars_stable(a, b, q, ety, count as nat);
    } else {
        lemma_scalar_stable(a, b, pos, ty);
    }
}

/// How far reading a pair gets.
proof fn lemma_pair_stable(a: Seq<u8>, b: Seq<u8>, pos: int)
    requires
        0 <= pos <= a.len(),
        parse_pair(a, pos) is Ok,
        agree(a, b, parse_pair(a, pos)->Ok_0.1),
    ensures
        parse_pair(b, pos) == parse_pair(a, pos),
        pos < parse_pair(a, pos)->Ok_0.1 <= a.len(),
{
    let (key, p) = read_string(a, pos)->Ok_0;
    let (ty, q) = parse_type(a, p)->Ok_0;
    lemma_string_stable(a, a, pos);
    lemma_typed_stable(a, b, q, ty);
    lemma_string_stable(a, b, pos);
    lemma_uint_stable(a, b, p, 4);
}

proof fn lemma_typed_end(a: Seq<u8>, pos: int, ty: GgufType)
    requires
        0 <= pos <= a.len(),
        parse_typed(a, pos, ty) is Ok,
    ensures
        pos <= parse_typed(a, pos, ty)->Ok_0.1 <= a.len(),
{
    if ty == GgufType::Array {
        let (ety, p) = parse_type(a, pos)->Ok_0;
        let (count, q) = read_u64(a, p)->Ok_0;
        lemma_scalars_forward(a, q, ety, count as nat);
        assert(0 <= count * gguf_min_size(ety)) by (nonlinear_arith);
    }
}

proof fn lemma_pairs_forward(a: Seq<u8>, pos: int, n: nat)
    requires
        0 <= pos <= a.len(),
        parse_pairs(a, pos, n) is Ok,
    ensures
        pos + n <= parse_pairs(a, pos, n)->Ok_0.1 <= a.len(),
    decreases n,
{
    if n > 0 {
        let p = parse_pair(a, pos)->Ok_0.1;
        let (ty, q) = parse_type(a, read_string(a, pos)->Ok_0.1)->Ok_0;
        lemma_string_stable(a, a, pos);
        lemma_typed_end(a, q, ty);
        lemma_pair_stable(a, a, pos);
        lemma_pairs_forward(a, p, (n - 1) as nat);
    }
}

proof fn lemma_pairs_stable(a: Seq<u8>, b: Seq<u8>, pos: int, n: nat)
    requires
        0 <= pos <= a.len(),
        parse_pairs(a, pos, n) is Ok,
        agree(a, b, parse_pairs(a, pos, n)->Ok_0.1),
    ensures
        parse_pairs(b, pos, n) == parse_pairs(a, pos, n),
    decreases n,
{
    if n > 0 {
        let p = parse_pair(a, pos)->Ok_0.1;
        let (ty, q) = parse_type(a, read_string(a, pos)->Ok_0.1)->Ok_0;
        lemma_string_stable(a, a, pos);
        lemma_typed_end(a, q, ty);
        lemma_pair_stable(a, a, pos);
        lemma_pairs_forward(a, p, (n - 1) as nat);
        lemma_pair_stable(a, b, pos);
        lemma_pairs_stable(a, b, p, (n - 1) as nat);
    }
}

proof fn lemma_dims_stable(a: Seq<u8>, b: Seq<u8>, pos: int, name: Seq<char>, n: nat)
    requires
        0 <= pos <= a.len(),
        parse_dims(a, pos, name, n) is Ok,
        agree(a, b, parse_dims(a, pos, name, n)->Ok_0.1),
    ensures
        parse_dims(b, pos, name, n) == parse_dims(a, pos, name, n),
        parse_dims(a, pos, name, n)->Ok_0.1 == pos + 8 * n,
        parse_dims(a, pos, name, n)->Ok_0.0.len() == n,
    decreases n,
{
    if n > 0 {
        let p = read_i64(a, pos)->Ok_0.1;
        lemma_dims_end(a, p, name, (n - 1) as nat);
        lemma_uint_stable(a, b, pos, 8);
        lemma_dims_stable(a, b, p, name, (n - 1) as nat);
    }
}

proof fn lemma_dims_end(a: Seq<u8>, pos: int, name: Seq<char>, n: nat)
    requires
        0 <= pos <= a.len(),
        parse_dims(a, pos, name, n) is Ok,
    ensures
        parse_dims(a, pos, name, n)->Ok_0.1 == pos + 8 * n <= a.len(),
    decreases n,
{
    if n > 0 {
        lemma_dims_end(a, read_i64(a, pos)->Ok_0.1, name, (n - 1) as nat);
    }
}

proof fn lemma_tensor_stable(a: Seq<u8>, b: Seq<u8>, pos: int)
    requires
        0 <= pos <= a.len(),
        parse_tensor(a, pos) is Ok,
        agree(a, b, parse_tensor(a, pos)->Ok_0.1),
    ensures
        parse_tensor(b, pos) == parse_tensor(a, pos),
        pos < parse_tensor(a, pos)->Ok_0.1 <= a.len(),
{
    let (name, p) = read_string(a, pos)->Ok_0;
    lemma_string_stable(a, a, pos);
    let (n_dims, q) = read_u32(a, p)->Ok_0;
    lemma_dims_end(a, q, name, n_dims as nat);
    let r = parse_dims(a, q, name, n_dims as nat)->Ok_0.1;
    lemma_string_stable(a, b, pos);
    lemma_uint_stable(a, b, p, 4);
    lemma_dims_stable(a, b, q, name, n_dims as nat);
    lemma_uint_stable(a, b, r, 4);
    lemma_uint_stable(a, b, r + 4, 8);
}

proof fn lemma_tensor_end(a: Seq<u8>, pos: int)
    requires
        0 <= pos <= a.len(),
        parse_tensor(a, pos) is Ok,
    ensures
        pos < parse_tensor(a, pos)->Ok_0.1 <= a.len(),
{
    let (name, p) = read_string(a, pos)->Ok_0;
    lemma_string_stable(a, a, pos);
    let (n_dims, q) = read_u32(a, p)->Ok_0;
    lemma_dims_end(a, q, name, n_dims as nat);
}

proof fn lemma_tensors_forward(a: Seq<u8>, pos: int, n: nat)
    requires
        0 <= pos <= a.len(),
        parse_tensors(a, pos, n) is Ok,
    ensures
        pos + n <= parse_tensors(a, pos, n)->Ok_0.1 <= a.len(),
    decreases n,
{
    if n > 0 {
        lemma_tensor_end(a, pos);
        lemma_tensors_forward(a, parse_tensor(a, pos)->Ok_0.1, (n - 1) as nat);
    }
}

proof fn lemma_tensors_stable(a: Seq<u8>, b: Seq<u8>, pos: int, n: nat)
    requires
        0 <= pos <= a.len(),
        parse_tensors(a, pos, n) is Ok,
        agree(a, b, parse_tensors(a, pos, n)->Ok_0.1),
    ensures
        parse_tensors(b, pos, n) == parse_tensors(a, pos, n),
    decreases n,
{
    if n > 0 {
        let p = parse_tensor(a, pos)->Ok_0.1;
        lemma_tensor_end(a, pos);
        lemma_tensors_forward(a, p, (n - 1) as nat);
        lemma_tensor_stable(a, b, pos);
        lemma_tensors_stable(a, b, p, (n - 1) as nat);
    }
}

/// The metadata ends inside the file, and the counts of the head are those of what was read.
pub proof fn metadata_is_inside(a: Seq<u8>)
    requires
        parse_file(a) is Ok,
    ensures
        24 + parse_file(a)->Ok_0.0.header.n_kv + parse_file(a)->Ok_0.0.header.n_tensors
            <= parse_file(a)->Ok_0.1 <= a.len(),
        parse_file(a)->Ok_0.0.kv.len() == parse_file(a)->Ok_0.0.header.n_kv,
        parse_file(a)->Ok_0.0.tensors.len() == parse_file(a)->Ok_0.0.header.n_tensors,
{
    let (h, p) = parse_header(a)->Ok_0;
    let (kv, q) = parse_pairs(a, p, h.n_kv as nat)->Ok_0;
    lemma_pairs_forward(a, p, h.n_kv as nat);
    lemma_tensors_forward(a, q, h.n_tensors as nat);
    lemma_pairs_count(a, p, h.n_kv as nat);
    lemma_tensors_count(a, q, h.n_tensors as nat);
}

proof fn lemma_pairs_count(a: Seq<u8>, pos: int, n: nat)
    requires
        parse_pairs(a, pos, n) is Ok,
    ensures
        parse_pairs(a, pos, n)->Ok_0.0.len() == n,
    decreases n,
{
    if n > 0 {
        lemma_pairs_count(a, parse_pair(a, pos)->Ok_0.1, (n - 1) as nat);
    }
}

proof fn lemma_tensors_count(a: Seq<u8>, pos: int, n: nat)
    requires
        parse_tensors(a, pos, n) is Ok,
    ensures
        parse_tensors(a, pos, n)->Ok_0.0.len() == n,
    decreases n,
{
    if n > 0 {
        lemma_tensors_count(a, parse_tensor(a, pos)->Ok_0.1, (n - 1) as nat);
    }
}

/// The tensors' data is not looked at: a file with the same bytes up to the end of the metadata,
/// whatever follows there, has the same metadata, but for its size.
pub proof fn data_section_is_not_read(a: Seq<u8>, b: Seq<u8>)
    requires
        parse_file(a) is Ok,
        agree(a, b, parse_file(a)->Ok_0.1),
    ensures
        parse_file(b) == Ok::<(FileView, int), ErrorView>(
            (
                FileView { file_size: b.len() as u64, ..parse_file(a)->Ok_0.0 },
                parse_file(a)->Ok_0.1,
            ),
        ),
{
    metadata_is_inside(a);
    let (h, p) = parse_header(a)->Ok_0;
    let (kv, q) = parse_pairs(a, p, h.n_kv as nat)->Ok_0;
    lemma_pairs_forward(a, p, h.n_kv as nat);
    lemma_tensors_forward(a, q, h.n_tensors as nat);
    lemma_uint_stable(a, b, 0, 4);
    lemma_uint_stable(a, b, 4, 4);
    lemma_uint_stable(a, b, 8, 8);
    lemma_uint_stable(a, b, 16, 8);
    assert(parse_header(b) == parse_header(a));
    lemma_pairs_stable(a, b, p, h.n_kv as nat);
    lemma_tensors_stable(a, b, q, h.n_tensors as nat);
}

proof fn lemma_scalars_uniform(a: Seq<u8>, pos: int, ty: GgufType, n: nat)
    requires
        parse_scalars(a, pos, ty, n) is Ok,
    ensures
        forall|i: int|
            0 <= i < parse_scalars(a, pos, ty, n)->Ok_0.0.len() ==> type_of_value(
                #[trigger] parse_scalars(a, pos, ty, n)->Ok_0.0[i],
            ) == ty,
    decreases n,
{
    if n > 0 {
        let (v, p) = parse_scalar(a, pos, ty)->Ok_0;
        lemma_scalars_uniform(a, p, ty, (n - 1) as nat);
        let rest = parse_scalars(a, p, ty, (n - 1) as nat)->Ok_0.0;
        let all = parse_scalars(a, pos, ty, n)->Ok_0.0;
        assert forall|i: int| 0 <= i < all.len() implies type_of_value(#[trigger] all[i]) == ty by {
            if i > 0 {
                assert(all[i] == rest[i - 1]);
            }
        }
    }
}

/// Whether a value is no array, or an array whose elements all have its element type, which is no
/// array.
pub open spec fn is_uniform(v: ValueView) -> bool {
    v matches ValueView::Array(ty, data) ==> ty != GgufType::Array && forall|i: int|
        0 <= i < data.len() ==> type_of_value(#[trigger] data[i]) == ty
}

proof fn lemma_pairs_uniform(a: Seq<u8>, pos: int, n: nat)
    requires
        parse_pairs(a, pos, n) is Ok,
    ensures
        forall|i: int|
            0 <= i < parse_pairs(a, pos, n)->Ok_0.0.len() ==> is_uniform(
                (#[trigger] parse_pairs(a, pos, n)->Ok_0.0[i]).1,
            ),
    decreases n,
{
    if n > 0 {
        let (v, p) = parse_pair(a, pos)->Ok_0;
        let (ty, q) = parse_type(a, read_string(a, pos)->Ok_0.1)->Ok_0;
        if ty == GgufType::Array {
            let (ety, r) = parse_type(a, q)->Ok_0;
            let (count, s) = read_u64(a, r)->Ok_0;
            lemma_scalars_uniform(a, s, ety, count as nat);
        }
        assert(is_uniform(v.1));
        lemma_pairs_uniform(a, p, (n - 1) as nat);
        let rest = parse_pairs(a, p, (n - 1) as nat)->Ok_0.0;
        let all = parse_pairs(a, pos, n)->Ok_0.0;
        assert forall|i: int| 0 <= i < all.len() implies is_uniform((#[trigger] all[i]).1) by {
            if i > 0 {
                assert(all[i] == rest[i - 1]);
            }
        }
    }
}

/// The elements of an array that was read all have its element type, and none is an array.
pub proof fn arrays_are_uniform(a: Seq<u8>, i: int)
    requires
        parse_file(a) is Ok,
        0 <= i < parse_file(a)->Ok_0.0.kv.len(),
    ensures
        is_uniform(parse_file(a)->Ok_0.0.kv[i].1),
{
    let (h, p) = parse_header(a)->Ok_0;
    lemma_pairs_uniform(a, p, h.n_kv as nat);
}

// ---------------------------------------------------------------------------------------------
// Files that are cut off
// ---------------------------------------------------------------------------------------------

/// Whether reading has failed at the end of a file of `len` bytes.
pub open spec fn ran_out<T>(r: Parsed<T>, len: int) -> bool {
    r matches Err(ErrorView::OutOfBounds { file_size, .. }) && file_size == len as u64
}

proof fn lemma_string_cut(a: Seq<u8>, pos: int, cut: int)
    requires
        0 <= pos <= cut <= a.len(),
        read_string(a, pos) is Ok,
        read_string(a, pos)->Ok_0.1 > cut,
    ensures
        ran_out(read_string(a.take(cut), pos), cut),
{
    if pos + 8 <= cut {
        lemma_uint_stable(a, a.take(cut), pos, 8);
    }
}

proof fn lemma_scalar_cut(a: Seq<u8>, pos: int, ty: GgufType, cut: int)
    requires
        0 <= pos <= cut <= a.len(),
        parse_scalar(a, pos, ty) is Ok,
        parse_scalar(a, pos, ty)->Ok_0.1 > cut,
    ensures
        ran_out(parse_scalar(a.take(cut), pos, ty), cut),
{
    if ty == GgufType::String {
        lemma_string_cut(a, pos, cut);
    }
}

proof fn lemma_scalars_cut(a: Seq<u8>, pos: int, ty: GgufType, n: nat, cut: int)
    requires
        0 <= pos <= cut <= a.len(),
        parse_scalars(a, pos, ty, n) is Ok,
        parse_scalars(a, pos, ty, n)->Ok_0.1 > cut,
    ensures
        ran_out(parse_scalars(a.take(cut), pos, ty, n), cut),
    decreases n,
{
    if n > 0 {
        let p = parse_scalar(a, pos, ty)->Ok_0.1;
        if p > cut {
            lemma_scalar_cut(a, pos, ty, cut);
        } else {
            lemma_scalar_stable(a, a, pos, ty);
            lemma_scalar_stable(a, a.take(cut), pos, ty);
            lemma_scalars_cut(a, p, ty, (n - 1) as nat, cut);
        }
    }
}

proof fn lemma_typed_cut(a: Seq<u8>, pos: int, ty: GgufType, cut: int)
    requires
        0 <= pos <= cut <= a.len(),
        parse_typed(a, pos, ty) is Ok,
        parse_typed(a, pos, ty)->Ok_0.1 > cut,
    ensures
        ran_out(parse_typed(a.take(cut), pos, ty), cut),
{
    let b = a.take(cut);
    if ty != GgufType::Array {
        lemma_scalar_cut(a, pos, ty, cut);
    } else if pos + 4 <= cut {
        lemma_uint_stable(a, b, pos, 4);
        let (ety, p) = parse_type(a, pos)->Ok_0;
        if p + 8 <= cut {
            lemma_uint_stable(a, b, p, 8);
            let (count, q) = read_u64(a, p)->Ok_0;
            lemma_scalars_cut(a, q, ety, count as nat, cut);
        }
    }
}

proof fn lemma_pair_cut(a: Seq<u8>, pos: int, cut: int)
    requires
        0 <= pos <= cut <= a.len(),
        parse_pair(a, pos) is Ok,
        parse_pair(a, pos)->Ok_0.1 > cut,
    ensures
        ran_out(parse_pair(a.take(cut), pos), cut),
{
    let b = a.take(cut);
    let p = read_string(a, pos)->Ok_0.1;
    if p > cut {
        lemma_string_cut(a, pos, cut);
    } else {
        lemma_string_stable(a, b, pos);
        if p + 4 <= cut {
            lemma_uint_stable(a, b, p, 4);
            let (ty, q) = parse_type(a, p)->Ok_0;
            lemma_typed_cut(a, q, ty, cut);
        }
    }
}

proof fn lemma_pair_end(a: Seq<u8>, pos: int)
    requires
        0 <= pos <= a.len(),
        parse_pair(a, pos) is Ok,
    ensures
        pos < parse_pair(a, pos)->Ok_0.1 <= a.len(),
{
    let (ty, q) = parse_type(a, read_string(a, pos)->Ok_0.1)->Ok_0;
    lemma_string_stable(a, a, pos);
    lemma_typed_end(a, q, ty);
}

proof fn lemma_pairs_cut(a: Seq<u8>, pos: int, n: nat, cut: int)
    requires
        0 <= pos <= cut <= a.len(),
        parse_pairs(a, pos, n) is Ok,
        parse_pairs(a, pos, n)->Ok_0.1 > cut,
    ensures
        ran_out(parse_pairs(a.take(cut), pos, n), cut),
    decreases n,
{
    if n > 0 {
        let p = parse_pair(a, pos)->Ok_0.1;
        lemma_pair_end(a, pos);
        if p > cut {
            lemma_pair_cut(a, pos, cut);
        } else {
            lemma_pair_stable(a, a.take(cut), pos);
            lemma_pairs_cut(a, p, (n - 1) as nat, cut);
        }
    }
}

proof fn lemma_dims_cut(a: Seq<u8>, pos: int, name: Seq<char>, n: nat, cut: int)
    requires
        0 <= pos <= cut <= a.len(),
        parse_dims(a, pos, name, n) is Ok,
        parse_dims(a, pos, name, n)->Ok_0.1 > cut,
    ensures
        ran_out(parse_dims(a.take(cut), pos, name, n), cut),
    decreases n,
{
    if n > 0 && pos + 8 <= cut {
        lemma_uint_stable(a, a.take(cut), pos, 8);
        lemma_dims_cut(a, pos + 8, name, (n - 1) as nat, cut);
    }
}

proof fn lemma_tensor_cut(a: Seq<u8>, pos: int, cut: int)
    requires
        0 <= pos <= cut <= a.len(),
        parse_tensor(a, pos) is Ok,
        parse_tensor(a, pos)->Ok_0.1 > cut,
    ensures
        ran_out(parse_tensor(a.take(cut), pos), cut),
{
    let b = a.take(cut);
    let (name, p) = read_string(a, pos)->Ok_0;
    if p > cut {
        lemma_string_cut(a, pos, cut);
    } else {
        lemma_string_stable(a, b, pos);
        if p + 4 <= cut {
            lemma_uint_stable(a, b, p, 4);
            let (n_dims, q) = read_u32(a, p)->Ok_0;
            lemma_dims_end(a, q, name, n_dims as nat);
            let r = parse_dims(a, q, name, n_dims as nat)->Ok_0.1;
            if r > cut {
                lemma_dims_cut(a, q, name, n_dims as nat, cut);
            } else {
                lemma_dims_stable(a, b, q, name, n_dims as nat);
                if r + 4 <= cut {
                    lemma_uint_stable(a, b, r, 4);
                }
            }
        }
    }
}

proof fn lemma_tensors_cut(a: Seq<u8>, pos: int, n: nat, cut: int)
    requires
        0 <= pos <= cut <= a.len(),
        parse_tensors(a, pos, n) is Ok,
        parse_tensors(a, pos, n)->Ok_0.1 > cut,
    ensures
        ran_out(parse_tensors(a.take(cut), pos, n), cut),
    decreases n,
{
    if n > 0 {
        let p = parse_tensor(a, pos)->Ok_0.1;
        lemma_tensor_end(a, pos);
        if p > cut {
            lemma_tensor_cut(a, pos, cut);
        } else {
            lemma_tensor_stable(a, a.take(cut), pos);
            lemma_tensors_cut(a, p, (n - 1) as nat, cut);
        }
    }
}

/// The head of a file that is cut off behind it: the counts must not be larger than what is left.
proof fn lemma_header_cut(a: Seq<u8>, cut: int)
    requires
        parse_header(a) is Ok,
        0 <= cut <= a.len(),
    ensures
        ({
            let h = parse_header(a)->Ok_0.0;
            let r = parse_header(a.take(cut));
            if cut < 24 {
                ran_out(r, cut)
            } else if h.n_kv > cut {
                r == Err::<(GgufHeader, int), ErrorView>(
                    ErrorView::InvalidCount { field: "n_kv"@, value: h.n_kv as i64 },
                )
            } else if h.n_tensors > cut {
                r == Err::<(GgufHeader, int), ErrorView>(
                    ErrorView::InvalidCount { field: "n_tensors"@, value: h.n_tensors as i64 },
                )
            } else {
                r == parse_header(a)
            }
        }),
        parse_header(a)->Ok_0.1 == 24,
{
    let b = a.take(cut);
    if cut >= 4 {
        lemma_uint_stable(a, b, 0, 4);
    }
    if cut >= 8 {
        lemma_uint_stable(a, b, 4, 4);
    }
    if cut >= 16 {
        lemma_uint_stable(a, b, 8, 8);
    }
    if cut >= 24 {
        lemma_uint_stable(a, b, 16, 8);
    }
}

/// A file that is cut off before the end of its metadata is refused, wherever the cut is: reading
/// fails at the new end or, where the head is whole and has a count that is larger than what is
/// left of the file, for that count.
pub proof fn truncated_metadata_is_refused(a: Seq<u8>, cut: int)
    requires
        parse_file(a) is Ok,
        0 <= cut < parse_file(a)->Ok_0.1,
    ensures
        ({
            let h = parse_file(a)->Ok_0.0.header;
            let r = parse_file(a.take(cut));
            if cut < 24 || (h.n_kv <= cut && h.n_tensors <= cut) {
                ran_out(r, cut)
            } else if h.n_kv > cut {
                r == Err::<(FileView, int), ErrorView>(
                    ErrorView::InvalidCount { field: "n_kv"@, value: h.n_kv as i64 },
                )
            } else {
                r == Err::<(FileView, int), ErrorView>(
                    ErrorView::InvalidCount { field: "n_tensors"@, value: h.n_tensors as i64 },
                )
            }
        }),
{
    metadata_is_inside(a);
    lemma_header_cut(a, cut);
    let b = a.take(cut);
    let (h, p) = parse_header(a)->Ok_0;
    if cut >= 24 && h.n_kv <= cut && h.n_tensors <= cut {
        lemma_pairs_forward(a, p, h.n_kv as nat);
        let q = parse_pairs(a, p, h.n_kv as nat)->Ok_0.1;
        if q > cut {
            lemma_pairs_cut(a, p, h.n_kv as nat, cut);
        } else {
            lemma_pairs_stable(a, b, p, h.n_kv as nat);
            lemma_tensors_cut(a, q, h.n_tensors as nat, cut);
        }
    }
}

// ---------------------------------------------------------------------------------------------
// What is written down is what is read back
// ---------------------------------------------------------------------------------------------

/// A number in `k` bytes, the lowest byte first.
pub open spec fn le_bytes(n: nat, k: nat) -> Seq<u8>
    decreases k,
{
    if k == 0 {
        Seq::empty()
    } else {
        seq![(n % 256) as u8] + le_bytes(n / 256, (k - 1) as nat)
    }
}

/// A signed number in two's complement: `half` is the first pattern of a negative number.
pub open spec fn unsigned(i: int, half: nat) -> nat {
    if i < 0 {
        (i + 2 * half) as nat
    } else {
        i as nat
    }
}

/// A string: the number of its UTF-8 bytes, and the bytes.
pub open spec fn encode_string(s: Seq<char>) -> Seq<u8> {
    le_bytes(encode_utf8(s).len(), 8) + encode_utf8(s)
}

/// A value other than an array.
pub open spec fn encode_scalar(v: ValueView) -> Seq<u8> {
    match v {
        ValueView::U8(x) => le_bytes(x as nat, 1),
        ValueView::I8(x) => le_bytes(unsigned(x as int, 0x80), 1),
        ValueView::U16(x) => le_bytes(x as nat, 2),
        ValueView::I16(x) => le_bytes(unsigned(x as int, 0x8000), 2),
        ValueView::U32(x) => le_bytes(x as nat, 4),
        ValueView::I32(x) => le_bytes(unsigned(x as int, 0x8000_0000), 4),
        ValueView::F32(x) => le_bytes(x as nat, 4),
        ValueView::Bool(x) => le_bytes(
            if x {
                1
            } else {
                0
            },
            1,
        ),
        ValueView::String(x) => encode_string(x),
        ValueView::U64(x) => le_bytes(x as nat, 8),
        ValueView::I64(x) => le_bytes(unsigned(x as int, 0x8000_0000_0000_0000), 8),
        ValueView::F64(x) => le_bytes(x as nat, 8),
        ValueView::Array(_, _) => Seq::empty(),
    }
}

/// Values in a row.
pub open spec fn encode_scalars(s: Seq<ValueView>) -> Seq<u8>
    decreases s.len(),
{
    if s.len() == 0 {
        Seq::empty()
    } else {
        encode_scalar(s[0]) + encode_scalars(s.drop_first())
    }
}

/// The tag of a type.
pub open spec fn encode_type(ty: GgufType) -> Seq<u8> {
    le_bytes(gguf_tag(ty) as nat, 4)
}

/// A value of any type.
pub open spec fn encode_value(v: ValueView) -> Seq<u8> {
    match v {
        ValueView::Array(ty, elems) => encode_type(ty) + le_bytes(elems.len(), 8) + encode_scalars(
            elems,
        ),
        _ => encode_scalar(v),
    }
}

/// A key/value pair.
pub open spec fn encode_pair(pair: (Seq<char>, ValueView)) -> Seq<u8> {
    encode_string(pair.0) + encode_type(type_of_value(pair.1)) + encode_value(pair.1)
}

/// Key/value pairs in a row.
pub open spec fn encode_pairs(s: Seq<(Seq<char>, ValueView)>) -> Seq<u8>
    decreases s.len(),
{
    if s.len() == 0 {
        Seq::empty()
    } else {
        encode_pair(s[0]) + encode_pairs(s.drop_first())
    }
}

/// Dimensions in a row.
pub open spec fn encode_dims(s: Seq<u64>) -> Seq<u8>
    decreases s.len(),
{
    if s.len() == 0 {
        Seq::empty()
    } else {
        le_bytes(s[0] as nat, 8) + encode_dims(s.drop_first())
    }
}

/// A tensor description whose type has the code `code`.
pub open spec fn encode_tensor(t: TensorView, code: i32) -> Seq<u8> {
    encode_string(t.name) + le_bytes(t.shape.len(), 4) + encode_dims(t.shape) + le_bytes(
        unsigned(code as int, 0x8000_0000),
        4,
    ) + le_bytes(t.offset as nat, 8)
}

/// Tensor descriptions in a row, with the codes of their types.
pub open spec fn encode_tensors(s: Seq<TensorView>, codes: Seq<i32>) -> Seq<u8>
    decreases s.len(),
{
    if s.len() == 0 {
        Seq::empty()
    } else {
        encode_tensor(s[0], codes[0]) + encode_tensors(s.drop_first(), codes.drop_first())
    }
}

/// The head of a file.
pub open spec fn encode_head(n_tensors: nat, n_kv: nat) -> Seq<u8> {
    le_bytes(GGUF_MAGIC as nat, 4) + le_bytes(GGUF_VERSION as nat, 4) + le_bytes(n_tensors, 8)
        + le_bytes(n_kv, 8)
}

/// The metadata of a file with these pairs and tensors.
pub open spec fn encode_metadata(
    kv: Seq<(Seq<char>, ValueView)>,
    tensors: Seq<TensorView>,
    codes: Seq<i32>,
) -> Seq<u8> {
    encode_head(tensors.len(), kv.len()) + encode_pairs(kv) + encode_tensors(tensors, codes)
}

/// A string whose length fits in its prefix.
pub open spec fn valid_string(s: Seq<char>) -> bool {
    encode_utf8(s).len() <= u64::MAX
}

/// A value that a file can hold: arrays hold values of their element type, and no arrays.
pub open spec fn valid_value(v: ValueView) -> bool {
    match v {
        ValueView::String(s) => valid_string(s),
        ValueView::Array(ty, elems) => {
            &&& ty != GgufType::Array
            &&& elems.len() <= u64::MAX
            &&& forall|i: int|
                0 <= i < elems.len() ==> type_of_value(#[trigger] elems[i]) == ty && (
                elems[i] is String ==> valid_string(elems[i]->String_0))
        },
        _ => true,
    }
}

/// A pair that a file can hold.
pub open spec fn valid_pair(pair: (Seq<char>, ValueView)) -> bool {
    valid_string(pair.0) && valid_value(pair.1)
}

/// A tensor description that a file can hold.
pub open spec fn valid_tensor(t: TensorView, code: i32) -> bool {
    &&& valid_string(t.name)
    &&& t.shape.len() <= MAX_DIMS
    &&& forall|i: int| 0 <= i < t.shape.len() ==> #[trigger] t.shape[i] <= i64::MAX
    &&& t.dtype == ggml_type_of(code)
}

/// The bytes `enc` stand at `pos`.
pub open spec fn stands(data: Seq<u8>, pos: int, enc: Seq<u8>) -> bool {
    &&& 0 <= pos
    &&& pos + enc.len() <= data.len()
    &&& data.subrange(pos, pos + enc.len()) == enc
}

proof fn lemma_split(data: Seq<u8>, pos: int, a: Seq<u8>, b: Seq<u8>)
    requires
        stands(data, pos, a + b),
    ensures
        stands(data, pos, a),
        stands(data, pos + a.len(), b),
{
    let whole = data.subrange(pos, pos + (a + b).len());
    assert(data.subrange(pos, pos + a.len()) =~= a) by {
        assert forall|i: int| 0 <= i < a.len() implies data[pos + i] == a[i] by {
            assert(whole[i] == (a + b)[i]);
        }
    }
    assert(data.subrange(pos + a.len(), pos + a.len() + b.len()) =~= b) by {
        assert forall|i: int| 0 <= i < b.len() implies data[pos + a.len() + i] == b[i] by {
            assert(whole[a.len() + i] == (a + b)[a.len() + i]);
        }
    }
}

proof fn lemma_le_bytes_len(n: nat, k: nat)
    ensures
        le_bytes(n, k).len() == k,
    decreases k,
{
    if k > 0 {
        lemma_le_bytes_len(n / 256, (k - 1) as nat);
    }
}

/// A number is read back from its bytes.
proof fn lemma_le_inverse(data: Seq<u8>, pos: int, n: nat, k: nat)
    requires
        stands(data, pos, le_bytes(n, k)),
        n < pow2(8 * k),
    ensures
        le(data, pos, k) == n,
        read_uint(data, pos, k) == Ok::<(nat, int), ErrorView>((n, pos + k)),
    decreases k,
{
    lemma_le_bytes_len(n, k);
    lemma2_to64();
    if k > 0 {
        let first = seq![(n % 256) as u8];
        lemma_split(data, pos, first, le_bytes(n / 256, (k - 1) as nat));
        assert(data.subrange(pos, pos + 1)[0] == first[0]);
        lemma_pow2_adds(8, (8 * (k - 1)) as nat);
        assert(n / 256 < pow2((8 * (k - 1)) as nat)) by (nonlinear_arith)
            requires
                n < 256 * pow2((8 * (k - 1)) as nat),
        ;
        lemma_le_inverse(data, pos + 1, n / 256, (k - 1) as nat);
    }
}

/// A number below 2^64 is read back from eight bytes.
proof fn lemma_u64_back(data: Seq<u8>, pos: int, n: nat)
    requires
        stands(data, pos, le_bytes(n, 8)),
        n <= u64::MAX,
    ensures
        read_u64(data, pos) == Ok::<(u64, int), ErrorView>((n as u64, pos + 8)),
        read_uint(data, pos, 8) == Ok::<(nat, int), ErrorView>((n, pos + 8)),
{
    lemma2_to64_rest();
    lemma_le_inverse(data, pos, n, 8);
}

/// A number below 2^32 is read back from four bytes.
proof fn lemma_u32_back(data: Seq<u8>, pos: int, n: nat)
    requires
        stands(data, pos, le_bytes(n, 4)),
        n <= u32::MAX,
    ensures
        read_u32(data, pos) == Ok::<(u32, int), ErrorView>((n as u32, pos + 4)),
        read_uint(data, pos, 4) == Ok::<(nat, int), ErrorView>((n, pos + 4)),
{
    lemma2_to64();
    lemma_le_inverse(data, pos, n, 4);
}

proof fn lemma_string_back(data: Seq<u8>, pos: int, s: Seq<char>)
    requires
        stands(data, pos, encode_string(s)),
        valid_string(s),
    ensures
        read_string(data, pos) == Ok::<(Seq<char>, int), ErrorView>(
            (s, pos + encode_string(s).len()),
        ),
{
    let n = encode_utf8(s).len();
    lemma_split(data, pos, le_bytes(n, 8), encode_utf8(s));
    lemma_le_bytes_len(n, 8);
    lemma_u64_back(data, pos, n);
    encode_utf8_valid_utf8(s);
    encode_utf8_decode_utf8(s);
}

proof fn lemma_scalar_back(data: Seq<u8>, pos: int, v: ValueView)
    requires
        stands(data, pos, encode_scalar(v)),
        !(v is Array),
        v is String ==> valid_string(v->String_0),
    ensures
        parse_scalar(data, pos, type_of_value(v)) == Ok::<(ValueView, int), ErrorView>(
            (v, pos + encode_scalar(v).len()),
        ),
{
    lemma2_to64();
    lemma2_to64_rest();
    match v {
        ValueView::String(s) => lemma_string_back(data, pos, s),
        ValueView::U8(x) => {
            lemma_le_bytes_len(x as nat, 1);
            lemma_le_inverse(data, pos, x as nat, 1);
        },
        ValueView::I8(x) => {
            lemma_le_bytes_len(unsigned(x as int, 0x80), 1);
            lemma_le_inverse(data, pos, unsigned(x as int, 0x80), 1);
        },
        ValueView::Bool(x) => {
            let n: nat = if x {
                1
            } else {
                0
            };
            lemma_le_bytes_len(n, 1);
            lemma_le_inverse(data, pos, n, 1);
        },
        ValueView::U16(x) => {
            lemma_le_bytes_len(x as nat, 2);
            lemma_le_inverse(data, pos, x as nat, 2);
        },
        ValueView::I16(x) => {
            lemma_le_bytes_len(unsigned(x as int, 0x8000), 2);
            lemma_le_inverse(data, pos, unsigned(x as int, 0x8000), 2);
        },
        ValueView::U32(x) => {
            lemma_le_bytes_len(x as nat, 4);
            lemma_le_inverse(data, pos, x as nat, 4);
        },
        ValueView::F32(x) => {
            lemma_le_bytes_len(x as nat, 4);
            lemma_le_inverse(data, pos, x as nat, 4);
        },
        ValueView::I32(x) => {
            lemma_le_bytes_len(unsigned(x as int, 0x8000_0000), 4);
            lemma_le_inverse(data, pos, unsigned(x as int, 0x8000_0000), 4);
        },
        ValueView::U64(x) => {
            lemma_le_bytes_len(x as nat, 8);
            lemma_le_inverse(data, pos, x as nat, 8);
        },
        ValueView::F64(x) => {
            lemma_le_bytes_len(x as nat, 8);
            lemma_le_inverse(data, pos, x as nat, 8);
        },
        ValueView::I64(x) => {
            lemma_le_bytes_len(unsigned(x as int, 0x8000_0000_0000_0000), 8);
            lemma_le_inverse(data, pos, unsigned(x as int, 0x8000_0000_0000_0000), 8);
        },
        ValueView::Array(_, _) => {},
    }
}

proof fn lemma_scalars_back(data: Seq<u8>, pos: int, ty: GgufType, s: Seq<ValueView>)
    requires
        stands(data, pos, encode_scalars(s)),
        valid_value(ValueView::Array(ty, s)),
    ensures
        parse_scalars(data, pos, ty, s.len()) == Ok::<(Seq<ValueView>, int), ErrorView>(
            (s, pos + encode_scalars(s).len()),
        ),
    decreases s.len(),
{
    if s.len() > 0 {
        let rest = s.drop_first();
        lemma_split(data, pos, encode_scalar(s[0]), encode_scalars(rest));
        assert(type_of_value(s[0]) == ty);
        lemma_scalar_back(data, pos, s[0]);
        assert(valid_value(ValueView::Array(ty, rest))) by {
            assert forall|i: int| 0 <= i < rest.len() implies type_of_value(#[trigger] rest[i])
                == ty && (rest[i] is String ==> valid_string(rest[i]->String_0)) by {
                assert(rest[i] == s[i + 1]);
            }
        }
        lemma_scalars_back(data, pos + encode_scalar(s[0]).len(), ty, rest);
        assert(seq![s[0]] + rest =~= s);
    } else {
        assert(s =~= Seq::empty());
    }
}

proof fn lemma_type_back(data: Seq<u8>, pos: int, ty: GgufType)
    requires
        stands(data, pos, encode_type(ty)),
    ensures
        parse_type(data, pos) == Ok::<(GgufType, int), ErrorView>((ty, pos + 4)),
        encode_type(ty).len() == 4,
{
    lemma_le_bytes_len(gguf_tag(ty) as nat, 4);
    lemma_u32_back(data, pos, gguf_tag(ty) as nat);
}

proof fn lemma_value_back(data: Seq<u8>, pos: int, v: ValueView)
    requires
        stands(data, pos, encode_value(v)),
        valid_value(v),
    ensures
        parse_typed(data, pos, type_of_value(v)) == Ok::<(ValueView, int), ErrorView>(
            (v, pos + encode_value(v).len()),
        ),
{
    match v {
        ValueView::Array(ty, s) => {
            lemma_split(
                data,
                pos,
                encode_type(ty) + le_bytes(s.len(), 8),
                encode_scalars(s),
            );
            lemma_split(data, pos, encode_type(ty), le_bytes(s.len(), 8));
            lemma_type_back(data, pos, ty);
            lemma_le_bytes_len(s.len(), 8);
            lemma_u64_back(data, pos + 4, s.len());
            lemma_scalars_back(data, pos + 12, ty, s);
            lemma_scalars_forward(data, pos + 12, ty, s.len());
        },
        _ => lemma_scalar_back(data, pos, v),
    }
}

proof fn lemma_pairs_back(data: Seq<u8>, pos: int, s: Seq<(Seq<char>, ValueView)>)
    requires
        stands(data, pos, encode_pairs(s)),
        forall|i: int| 0 <= i < s.len() ==> valid_pair(#[trigger] s[i]),
    ensures
        parse_pairs(data, pos, s.len()) == Ok::<(Seq<(Seq<char>, ValueView)>, int), ErrorView>(
            (s, pos + encode_pairs(s).len()),
        ),
    decreases s.len(),
{
    if s.len() > 0 {
        let rest = s.drop_first();
        let (key, v) = s[0];
        assert(valid_pair(s[0]));
        lemma_split(data, pos, encode_pair(s[0]), encode_pairs(rest));
        let head = encode_string(key) + encode_type(type_of_value(v));
        lemma_split(data, pos, head, encode_value(v));
        lemma_split(data, pos, encode_string(key), encode_type(type_of_value(v)));
        lemma_string_back(data, pos, key);
        lemma_type_back(data, pos + encode_string(key).len(), type_of_value(v));
        lemma_value_back(data, pos + head.len(), v);
        assert forall|i: int| 0 <= i < rest.len() implies valid_pair(#[trigger] rest[i]) by {
            assert(rest[i] == s[i + 1]);
        }
        lemma_pairs_back(data, pos + encode_pair(s[0]).len(), rest);
        assert(seq![s[0]] + rest =~= s);
    } else {
        assert(s =~= Seq::empty());
    }
}

proof fn lemma_dims_back(data: Seq<u8>, pos: int, name: Seq<char>, s: Seq<u64>)
    requires
        stands(data, pos, encode_dims(s)),
        forall|i: int| 0 <= i < s.len() ==> #[trigger] s[i] <= i64::MAX,
    ensures
        parse_dims(data, pos, name, s.len()) == Ok::<(Seq<u64>, int), ErrorView>(
            (s, pos + encode_dims(s).len()),
        ),
    decreases s.len(),
{
    if s.len() > 0 {
        let rest = s.drop_first();
        lemma_split(data, pos, le_bytes(s[0] as nat, 8), encode_dims(rest));
        lemma_le_bytes_len(s[0] as nat, 8);
        lemma_u64_back(data, pos, s[0] as nat);
        assert forall|i: int| 0 <= i < rest.len() implies #[trigger] rest[i] <= i64::MAX by {
            assert(rest[i] == s[i + 1]);
        }
        lemma_dims_back(data, pos + 8, name, rest);
        assert(seq![s[0]] + rest =~= s);
    } else {
        assert(s =~= Seq::empty());
    }
}

proof fn lemma_tensor_back(data: Seq<u8>, pos: int, t: TensorView, code: i32)
    requires
        stands(data, pos, encode_tensor(t, code)),
        valid_tensor(t, code),
    ensures
        parse_tensor(data, pos) == Ok::<(TensorView, int), ErrorView>(
            (t, pos + encode_tensor(t, code).len()),
        ),
{
    let a = encode_string(t.name);
    let b = le_bytes(t.shape.len(), 4);
    let c = encode_dims(t.shape);
    let d = le_bytes(unsigned(code as int, 0x8000_0000), 4);
    let e = le_bytes(t.offset as nat, 8);
    lemma_split(data, pos, a + b + c + d, e);
    lemma_split(data, pos, a + b + c, d);
    lemma_split(data, pos, a + b, c);
    lemma_split(data, pos, a, b);
    lemma_le_bytes_len(t.shape.len(), 4);
    lemma_le_bytes_len(unsigned(code as int, 0x8000_0000), 4);
    lemma_le_bytes_len(t.offset as nat, 8);
    lemma_string_back(data, pos, t.name);
    lemma_u32_back(data, pos + a.len(), t.shape.len());
    lemma_dims_back(data, pos + (a + b).len(), t.name, t.shape);
    lemma_u32_back(data, pos + (a + b + c).len(), unsigned(code as int, 0x8000_0000));
    lemma_u64_back(data, pos + (a + b + c + d).len(), t.offset as nat);
}

proof fn lemma_tensors_back(data: Seq<u8>, pos: int, s: Seq<TensorView>, codes: Seq<i32>)
    requires
        stands(data, pos, encode_tensors(s, codes)),
        codes.len() == s.len(),
        forall|i: int| 0 <= i < s.len() ==> valid_tensor(#[trigger] s[i], codes[i]),
    ensures
        parse_tensors(data, pos, s.len()) == Ok::<(Seq<TensorView>, int), ErrorView>(
            (s, pos + encode_tensors(s, codes).len()),
        ),
    decreases s.len(),
{
    if s.len() > 0 {
        let rest = s.drop_first();
        let left = codes.drop_first();
        assert(valid_tensor(s[0], codes[0]));
        lemma_split(data, pos, encode_tensor(s[0], codes[0]), encode_tensors(rest, left));
        lemma_tensor_back(data, pos, s[0], codes[0]);
        assert forall|i: int| 0 <= i < rest.len() implies valid_tensor(
            #[trigger] rest[i],
            left[i],
        ) by {
            assert(rest[i] == s[i + 1]);
            assert(left[i] == codes[i + 1]);
        }
        lemma_tensors_back(data, pos + encode_tensor(s[0], codes[0]).len(), rest, left);
        assert(seq![s[0]] + rest =~= s);
    } else {
        assert(s =~= Seq::empty());
    }
}

proof fn lemma_head_len(n_tensors: nat, n_kv: nat)
    ensures
        encode_head(n_tensors, n_kv).len() == 24,
{
    lemma_le_bytes_len(GGUF_MAGIC as nat, 4);
    lemma_le_bytes_len(GGUF_VERSION as nat, 4);
    lemma_le_bytes_len(n_tensors, 8);
    lemma_le_bytes_len(n_kv, 8);
}

proof fn lemma_head_back(data: Seq<u8>, n_tensors: nat, n_kv: nat)
    requires
        stands(data, 0, encode_head(n_tensors, n_kv)),
        n_tensors <= data.len(),
        n_kv <= data.len(),
        n_tensors <= i64::MAX,
        n_kv <= i64::MAX,
    ensures
        parse_header(data) == Ok::<(GgufHeader, int), ErrorView>(
            (
                GgufHeader {
                    magic: GGUF_MAGIC,
                    version: GGUF_VERSION,
                    n_tensors: n_tensors as u64,
                    n_kv: n_kv as u64,
                },
                24,
            ),
        ),
{
    let a = le_bytes(GGUF_MAGIC as nat, 4);
    let b = le_bytes(GGUF_VERSION as nat, 4);
    let c = le_bytes(n_tensors, 8);
    let d = le_bytes(n_kv, 8);
    lemma_le_bytes_len(GGUF_MAGIC as nat, 4);
    lemma_le_bytes_len(GGUF_VERSION as nat, 4);
    lemma_le_bytes_len(n_tensors, 8);
    lemma_split(data, 0, a + b + c, d);
    lemma_split(data, 0, a + b, c);
    lemma_split(data, 0, a, b);
    lemma_u32_back(data, 0, GGUF_MAGIC as nat);
    lemma_u32_back(data, 4, GGUF_VERSION as nat);
    lemma_u64_back(data, 8, n_tensors);
    lemma_u64_back(data, 16, n_kv);
}

/// Metadata that is written down is read back: a file that starts with the encoding of some pairs
/// and tensor descriptions, whatever follows, has exactly those pairs and descriptions, in that
/// order, and its metadata ends where the encoding does.
pub proof fn metadata_is_read_back(
    kv: Seq<(Seq<char>, ValueView)>,
    tensors: Seq<TensorView>,
    codes: Seq<i32>,
    tail: Seq<u8>,
)
    requires
        codes.len() == tensors.len(),
        forall|i: int| 0 <= i < kv.len() ==> valid_pair(#[trigger] kv[i]),
        forall|i: int| 0 <= i < tensors.len() ==> valid_tensor(#[trigger] tensors[i], codes[i]),
        encode_metadata(kv, tensors, codes).len() <= i64::MAX,
    ensures
        parse_file(encode_metadata(kv, tensors, codes) + tail) == Ok::<(FileView, int), ErrorView>(
            (
                FileView {
                    header: GgufHeader {
                        magic: GGUF_MAGIC,
                        version: GGUF_VERSION,
                        n_tensors: tensors.len() as u64,
                        n_kv: kv.len() as u64,
                    },
                    kv,
                    tensors,
                    alignment: alignment_of(kv),
                    data_offset: aligned_up(
                        encode_metadata(kv, tensors, codes).len(),
                        alignment_of(kv) as nat,
                    ) as u64,
                    file_size: (encode_metadata(kv, tensors, codes).len() + tail.len()) as u64,
                },
                encode_metadata(kv, tensors, codes).len() as int,
            ),
        ),
{
    let enc = encode_metadata(kv, tensors, codes);
    let data = enc + tail;
    assert(data.subrange(0, enc.len() as int) =~= enc);
    assert(stands(data, 0, enc));
    let head = encode_head(tensors.len(), kv.len());
    let e = encode_pairs(kv);
    let f = encode_tensors(tensors, codes);
    lemma_head_len(tensors.len(), kv.len());
    lemma_split(data, 0, head + e, f);
    lemma_split(data, 0, head, e);
    lemma_pairs_back(data, 24, kv);
    lemma_pairs_forward(data, 24, kv.len());
    lemma_tensors_back(data, 24int + e.len(), tensors, codes);
    lemma_tensors_forward(data, 24int + e.len(), tensors.len());
    assert(enc.len() == 24 + e.len() + f.len());
    lemma_head_back(data, tensors.len(), kv.len());
}

} // verus!
