//! What the bytes of a file say: its numbers, types, counts and sections.
use vstd::prelude::*;
use vstd::string::*;
use vstd::utf8::*;
use crate::cursor::{
    le, read_i16, read_i32, read_i64, read_i8, read_string, read_u16, read_u32,
    read_u64, read_u8,
};
use crate::error::ErrorView;
use crate::file::{
    alignment_is_tight, alignment_of, last_values, parse_array, parse_dims, parse_file,
    parse_header, parse_scalar, parse_tensor, parse_type,
};
use crate::infer::model::hparams_laws::{first_pair_counts, silent, states};
use crate::tensor::TensorView;
use crate::types::{
    ggml_type_name, ggml_type_of, gguf_min_size, gguf_type_name, gguf_type_of, type_of_value,
    GgmlType, GgufType, GgufValue, ValueView,
};

verus! {

// ---------------------------------------------------------------------------------------------
// Numbers
// ---------------------------------------------------------------------------------------------

/// The number that four bytes stand for, the lowest byte first.
pub open spec fn word(data: Seq<u8>, pos: int) -> int {
    data[pos] + 0x100 * data[pos + 1] + 0x1_0000 * data[pos + 2] + 0x100_0000 * data[pos + 3]
}

/// Numbers of one, two, four and eight bytes stand with the lowest byte first.
pub proof fn lowest_byte_stands_first(data: Seq<u8>, pos: int)
    ensures
        le(data, pos, 1) == data[pos],
        le(data, pos, 2) == data[pos] + 0x100 * data[pos + 1],
        le(data, pos, 4) == word(data, pos),
        le(data, pos, 8) == word(data, pos) + 0x1_0000_0000 * word(data, pos + 4),
{
    reveal_with_fuel(le, 9);
}

/// An unsigned number is the number that its bytes stand for, and a signed one differs from it by
/// a multiple of the number of patterns and lies on both sides of nought.
pub proof fn numbers_are_their_bytes(data: Seq<u8>, pos: int)
    requires
        0 <= pos,
        pos + 8 <= data.len(),
    ensures
        read_u8(data, pos) == Ok::<(u8, int), ErrorView>((data[pos], pos + 1)),
        read_u16(data, pos) matches Ok((v, p)) && v == data[pos] + 0x100 * data[pos + 1] && p == pos
            + 2,
        read_u32(data, pos) matches Ok((v, p)) && v == word(data, pos) && p == pos + 4,
        read_u64(data, pos) matches Ok((v, p)) && v == word(data, pos) + 0x1_0000_0000 * word(
            data,
            pos + 4,
        ) && p == pos + 8,
        read_i8(data, pos) matches Ok((v, p)) && (v - data[pos]) % 0x100 == 0 && p == pos + 1,
        read_i16(data, pos) matches Ok((v, p)) && (v - data[pos] - 0x100 * data[pos + 1]) % 0x1_0000
            == 0 && p == pos + 2,
        read_i32(data, pos) matches Ok((v, p)) && (v - word(data, pos)) % 0x1_0000_0000 == 0 && p
            == pos + 4,
        read_i64(data, pos) matches Ok((v, p)) && (v - word(data, pos) - 0x1_0000_0000 * word(
            data,
            pos + 4,
        )) % 0x1_0000_0000_0000_0000 == 0 && p == pos + 8,
{
    lowest_byte_stands_first(data, pos);
    let (a, b) = (word(data, pos), word(data, pos + 4));
    assert(0 <= a < 0x1_0000_0000);
    assert(0 <= b < 0x1_0000_0000);
}

/// A truth value is one byte, and false where it is nought alone.
pub proof fn any_byte_but_nought_is_true(data: Seq<u8>, pos: int)
    requires
        0 <= pos < data.len(),
    ensures
        data[pos] == 0 ==> parse_scalar(data, pos, GgufType::Bool) == Ok::<
            (ValueView, int),
            ErrorView,
        >((ValueView::Bool(false), pos + 1)),
        data[pos] != 0 ==> parse_scalar(data, pos, GgufType::Bool) == Ok::<
            (ValueView, int),
            ErrorView,
        >((ValueView::Bool(true), pos + 1)),
{
    lowest_byte_stands_first(data, pos);
}

/// A string is as many bytes as its length says, behind the length; it must be valid UTF-8 and
/// inside the file.
pub proof fn string_is_its_bytes(data: Seq<u8>, pos: int, len: int)
    requires
        0 <= pos,
        pos + 8 <= data.len(),
        len == word(data, pos) + 0x1_0000_0000 * word(data, pos + 4),
    ensures
        pos + 8 + len > data.len() ==> read_string(data, pos) is Err,
        pos + 8 + len <= data.len() ==> (read_string(data, pos) is Ok <==> valid_utf8(
            data.subrange(pos + 8, pos + 8 + len),
        )),
        read_string(data, pos) is Ok ==> read_string(data, pos)->Ok_0.1 == pos + 8 + len
            && encode_utf8(read_string(data, pos)->Ok_0.0) == data.subrange(pos + 8, pos + 8 + len),
{
    lowest_byte_stands_first(data, pos);
    let (a, b) = (word(data, pos), word(data, pos + 4));
    assert(0 <= a && 0 <= b);
    if read_string(data, pos) is Ok {
        decode_utf8_encode_utf8(data.subrange(pos + 8, pos + 8 + len));
    }
}

// ---------------------------------------------------------------------------------------------
// Types
// ---------------------------------------------------------------------------------------------

/// The name of the type with a tag.
pub open spec fn name_of_tag(tag: int) -> Option<Seq<char>> {
    match gguf_type_of(tag) {
        Some(ty) => Some(gguf_type_name(ty)),
        None => None,
    }
}

/// The tags of the types, by the names of the types.
pub proof fn tags_have_their_names(tag: int)
    ensures
        name_of_tag(0) == Some("uint8"@),
        name_of_tag(1) == Some("int8"@),
        name_of_tag(2) == Some("uint16"@),
        name_of_tag(3) == Some("int16"@),
        name_of_tag(4) == Some("uint32"@),
        name_of_tag(5) == Some("int32"@),
        name_of_tag(6) == Some("float32"@),
        name_of_tag(7) == Some("bool"@),
        name_of_tag(8) == Some("string"@),
        name_of_tag(9) == Some("array"@),
        name_of_tag(10) == Some("uint64"@),
        name_of_tag(11) == Some("int64"@),
        name_of_tag(12) == Some("float64"@),
        tag < 0 || tag > 12 ==> name_of_tag(tag) is None,
{
}

/// The codes of the tensor types, by the names of the types; any other code is kept as it is.
pub proof fn codes_have_their_names(code: i32)
    ensures
        ggml_type_name(ggml_type_of(0)) == "F32"@,
        ggml_type_name(ggml_type_of(1)) == "F16"@,
        ggml_type_name(ggml_type_of(2)) == "Q4_0"@,
        ggml_type_name(ggml_type_of(3)) == "Q4_1"@,
        ggml_type_name(ggml_type_of(4)) == "Q4_2"@,
        ggml_type_name(ggml_type_of(5)) == "Q4_3"@,
        ggml_type_name(ggml_type_of(6)) == "Q5_0"@,
        ggml_type_name(ggml_type_of(7)) == "Q5_1"@,
        ggml_type_name(ggml_type_of(8)) == "Q8_0"@,
        ggml_type_name(ggml_type_of(9)) == "Q8_1"@,
        ggml_type_name(ggml_type_of(10)) == "Q2_K"@,
        ggml_type_name(ggml_type_of(11)) == "Q3_K_S"@,
        ggml_type_name(ggml_type_of(12)) == "Q4_K"@,
        ggml_type_name(ggml_type_of(13)) == "Q5_K"@,
        ggml_type_name(ggml_type_of(14)) == "Q6_K"@,
        ggml_type_name(ggml_type_of(15)) == "Q8_K"@,
        ggml_type_name(ggml_type_of(18)) == "IQ2_XXS"@,
        ggml_type_name(ggml_type_of(19)) == "IQ2_XS"@,
        ggml_type_name(ggml_type_of(20)) == "IQ3_XXS"@,
        ggml_type_name(ggml_type_of(21)) == "IQ1_S"@,
        ggml_type_name(ggml_type_of(22)) == "IQ4_NL"@,
        ggml_type_name(ggml_type_of(23)) == "IQ3_S"@,
        ggml_type_name(ggml_type_of(24)) == "IQ2_S"@,
        ggml_type_name(ggml_type_of(25)) == "IQ2_M"@,
        ggml_type_name(ggml_type_of(26)) == "IQ3_M"@,
        ggml_type_name(ggml_type_of(27)) == "IQ1_M"@,
        ggml_type_name(ggml_type_of(28)) == "IQ4_XS"@,
        ggml_type_name(ggml_type_of(29)) == "IQ3_XS"@,
        ggml_type_name(ggml_type_of(30)) == "BF16"@,
        ggml_type_name(ggml_type_of(31)) == "TQ1_0"@,
        ggml_type_name(ggml_type_of(32)) == "TQ2_0"@,
        ggml_type_name(ggml_type_of(33)) == "MXFP4"@,
        code < 0 || code == 16 || code == 17 || code > 33 ==> ggml_type_of(code)
            == GgmlType::Unknown(code),
{
}

/// The fewest bytes of a type are those that reading a value of it takes; only a string may take
/// more. What is read is of the type that was asked for.
pub proof fn values_take_their_bytes(data: Seq<u8>, pos: int, ty: GgufType)
    requires
        0 <= pos,
    ensures
        parse_scalar(data, pos, ty) is Ok && ty != GgufType::String ==> parse_scalar(
            data,
            pos,
            ty,
        )->Ok_0.1 == pos + gguf_min_size(ty),
        parse_scalar(data, pos, GgufType::String) is Ok ==> parse_scalar(
            data,
            pos,
            GgufType::String,
        )->Ok_0.1 >= pos + gguf_min_size(GgufType::String),
        parse_scalar(data, pos, ty) is Ok ==> type_of_value(parse_scalar(data, pos, ty)->Ok_0.0)
            == ty,
        ty != GgufType::Array && ty != GgufType::String && pos + gguf_min_size(ty) <= data.len()
            ==> parse_scalar(data, pos, ty) is Ok,
        ty != GgufType::Array && pos + gguf_min_size(ty) > data.len() ==> parse_scalar(
            data,
            pos,
            ty,
        ) is Err,
{
}

/// An array of arrays is refused, and so is an array that cannot fit in the rest of the file.
pub proof fn impossible_arrays_are_refused(data: Seq<u8>, pos: int, ty: GgufType)
    requires
        0 <= pos,
        pos + 12 <= data.len(),
        parse_type(data, pos) == Ok::<(GgufType, int), ErrorView>((ty, pos + 4)),
    ensures
        ty == GgufType::Array ==> parse_array(data, pos) is Err,
        ty != GgufType::Array && pos + 12 + (word(data, pos + 4) + 0x1_0000_0000 * word(
            data,
            pos + 8,
        )) * gguf_min_size(ty) > data.len() && data.len() <= 0x7fff_ffff_ffff_ffff ==> parse_array(
            data,
            pos,
        ) is Err,
        parse_array(data, pos) is Ok ==> (parse_array(data, pos)->Ok_0.0 matches ValueView::Array(
            t,
            elems,
        ) && t == ty),
{
    lowest_byte_stands_first(data, pos + 4);
    let n = word(data, pos + 4) + 0x1_0000_0000 * word(data, pos + 8);
    assert(0 <= n);
    let m = gguf_min_size(ty);
    assert(n * m >= 0) by (nonlinear_arith)
        requires
            n >= 0,
            m >= 0,
    ;
}

// ---------------------------------------------------------------------------------------------
// The parts of a file
// ---------------------------------------------------------------------------------------------

/// A file starts with the letters `GGUF` and the version 3, and neither count is negative or
/// larger than the file; any other is refused.
pub proof fn head_is_as_agreed(data: Seq<u8>)
    requires
        data.len() >= 24,
        parse_header(data) is Ok,
    ensures
        data[0] == 0x47,
        data[1] == 0x47,
        data[2] == 0x55,
        data[3] == 0x46,
        word(data, 4) == 3,
        parse_header(data)->Ok_0.1 == 24,
        parse_header(data)->Ok_0.0.n_tensors == word(data, 8) + 0x1_0000_0000 * word(data, 12),
        parse_header(data)->Ok_0.0.n_kv == word(data, 16) + 0x1_0000_0000 * word(data, 20),
        parse_header(data)->Ok_0.0.n_tensors <= data.len(),
        parse_header(data)->Ok_0.0.n_kv <= data.len(),
{
    lowest_byte_stands_first(data, 0);
    lowest_byte_stands_first(data, 4);
    lowest_byte_stands_first(data, 8);
    lowest_byte_stands_first(data, 16);
    lemma_word(data, 0);
    lemma_word(data, 4);
    lemma_word(data, 8);
    lemma_word(data, 12);
    lemma_word(data, 16);
    lemma_word(data, 20);
    lemma_header(data);
}

proof fn lemma_word(data: Seq<u8>, pos: int)
    ensures
        0 <= word(data, pos) < 0x1_0000_0000,
        word(data, pos) == 0x4655_4747 ==> data[pos] == 0x47 && data[pos + 1] == 0x47 && data[pos
            + 2] == 0x55 && data[pos + 3] == 0x46,
{
}

proof fn lemma_header(data: Seq<u8>)
    requires
        data.len() >= 24,
        parse_header(data) is Ok,
        le(data, 0, 4) < 0x1_0000_0000,
        le(data, 4, 4) < 0x1_0000_0000,
        le(data, 8, 8) < 0x1_0000_0000_0000_0000,
        le(data, 16, 8) < 0x1_0000_0000_0000_0000,
    ensures
        le(data, 0, 4) == 0x4655_4747,
        le(data, 4, 4) == 3,
        parse_header(data)->Ok_0.1 == 24,
        parse_header(data)->Ok_0.0.n_tensors == le(data, 8, 8),
        parse_header(data)->Ok_0.0.n_kv == le(data, 16, 8),
        le(data, 8, 8) <= data.len(),
        le(data, 16, 8) <= data.len(),
{
}

/// A head as agreed is read.
pub proof fn agreed_head_is_read(data: Seq<u8>)
    requires
        data.len() >= 24,
        data[0] == 0x47,
        data[1] == 0x47,
        data[2] == 0x55,
        data[3] == 0x46,
        word(data, 4) == 3,
        word(data, 12) < 0x8000_0000,
        word(data, 20) < 0x8000_0000,
        word(data, 8) + 0x1_0000_0000 * word(data, 12) <= data.len(),
        word(data, 16) + 0x1_0000_0000 * word(data, 20) <= data.len(),
    ensures
        parse_header(data) is Ok,
{
    lowest_byte_stands_first(data, 0);
    lowest_byte_stands_first(data, 4);
    lowest_byte_stands_first(data, 8);
    lowest_byte_stands_first(data, 16);
    let (a, b) = (word(data, 8), word(data, 12));
    let (c, d) = (word(data, 16), word(data, 20));
    assert(0 <= a < 0x1_0000_0000 && 0 <= b);
    assert(0 <= c < 0x1_0000_0000 && 0 <= d);
}

/// A tensor has at most eight dimensions, none of them negative.
pub proof fn dimensions_are_few(data: Seq<u8>, pos: int)
    requires
        parse_tensor(data, pos) is Ok,
    ensures
        parse_tensor(data, pos)->Ok_0.0.shape.len() <= 8,
        forall|i: int|
            0 <= i < parse_tensor(data, pos)->Ok_0.0.shape.len() ==> #[trigger] parse_tensor(
                data,
                pos,
            )->Ok_0.0.shape[i] <= 0x7fff_ffff_ffff_ffff,
{
    let (name, p) = read_string(data, pos)->Ok_0;
    let (n, q) = read_u32(data, p)->Ok_0;
    lemma_dims(data, q, name, n as nat);
}

proof fn lemma_dims(data: Seq<u8>, pos: int, name: Seq<char>, n: nat)
    requires
        parse_dims(data, pos, name, n) is Ok,
    ensures
        parse_dims(data, pos, name, n)->Ok_0.0.len() == n,
        forall|i: int|
            0 <= i < n ==> #[trigger] parse_dims(data, pos, name, n)->Ok_0.0[i]
                <= 0x7fff_ffff_ffff_ffff,
    decreases n,
{
    if n > 0 {
        let (d, p) = read_i64(data, pos)->Ok_0;
        lemma_dims(data, p, name, (n - 1) as nat);
        let rest = parse_dims(data, p, name, (n - 1) as nat)->Ok_0.0;
        let all = parse_dims(data, pos, name, n)->Ok_0.0;
        assert(all == seq![d as u64] + rest);
        assert forall|i: int| 0 <= i < n implies #[trigger] all[i] <= 0x7fff_ffff_ffff_ffff by {
            if i > 0 {
                assert(all[i] == rest[i - 1]);
            }
        }
    }
}

/// A dimension that is negative is refused, and so are more than eight.
pub proof fn odd_dimensions_are_refused(data: Seq<u8>, pos: int, name: Seq<char>, p: int)
    requires
        read_string(data, pos) == Ok::<(Seq<char>, int), ErrorView>((name, p)),
        0 <= p,
        p + 4 <= data.len(),
    ensures
        word(data, p) > 8 ==> parse_tensor(data, pos) == Err::<(TensorView, int), ErrorView>(
            ErrorView::InvalidTensorDim { name, dim: -1i64 },
        ),
        0 < word(data, p) <= 8 && p + 12 <= data.len() && data[p + 11] >= 0x80 ==> parse_tensor(
            data,
            pos,
        ) is Err,
{
    lowest_byte_stands_first(data, p);
    if p + 12 <= data.len() {
        lowest_byte_stands_first(data, p + 4);
    }
}

/// The alignment of the data is the 32-bit number that the metadata names, and 32 where it names
/// none or nought.
pub proof fn alignment_is_the_stated_one(kv: Seq<(Seq<char>, ValueView)>, a: u32)
    ensures
        states(kv, "general.alignment"@, ValueView::U32(a)) && a > 0 ==> alignment_of(kv) == a,
        states(kv, "general.alignment"@, ValueView::U32(0)) ==> alignment_of(kv) == 32,
        silent(kv, "general.alignment"@) ==> alignment_of(kv) == 32,
        alignment_of(kv) > 0,
{
    first_pair_counts(kv, "general.alignment"@);
}

/// The data section starts at a multiple of the alignment, behind the metadata and less than one
/// alignment away from its end.
pub proof fn data_starts_aligned(data: Seq<u8>)
    requires
        parse_file(data) is Ok,
        data.len() <= 0x7fff_ffff_ffff_ffff,
        0 <= parse_file(data)->Ok_0.1 <= data.len(),
    ensures
        ({
            let (f, end) = parse_file(data)->Ok_0;
            &&& f.data_offset % f.alignment as u64 == 0
            &&& end <= f.data_offset < end + f.alignment
            &&& f.alignment == alignment_of(f.kv)
            &&& f.file_size == data.len()
        }),
{
    let (f, end) = parse_file(data)->Ok_0;
    alignment_is_the_stated_one(f.kv, 1);
    alignment_is_tight(end as nat, f.alignment as nat);
    let a = f.alignment as int;
    let q = (end + a - 1) / a;
    vstd::arithmetic::div_mod::lemma_fundamental_div_mod(end + a - 1, a);
    assert(end <= q * a < end + a) by (nonlinear_arith)
        requires
            end + a - 1 == a * q + (end + a - 1) % a,
            0 <= (end + a - 1) % a < a,
    ;
    assert(f.data_offset == q * a);
    vstd::arithmetic::div_mod::lemma_mod_multiples_basic(q, a);
}

/// Of pairs with one key the last counts in the map of all pairs.
pub proof fn last_pair_counts_in_the_map(kv: Seq<(String, GgufValue)>, i: int)
    requires
        0 <= i < kv.len(),
    ensures
        last_values(kv).contains_key(kv[i].0@),
        (forall|j: int| i < j < kv.len() ==> (#[trigger] kv[j]).0@ != kv[i].0@) ==> *last_values(
            kv,
        )[kv[i].0@] == kv[i].1,
    decreases kv.len(),
{
    let front = kv.drop_last();
    if i < front.len() {
        last_pair_counts_in_the_map(front, i);
        assert(front[i] == kv[i]);
        if forall|j: int| i < j < kv.len() ==> (#[trigger] kv[j]).0@ != kv[i].0@ {
            assert(kv[kv.len() - 1].0@ != kv[i].0@);
            assert forall|j: int| i < j < front.len() implies (#[trigger] front[j]).0@
                != front[i].0@ by {
                assert(kv[j].0@ != kv[i].0@);
            }
        }
    }
}

// ---------------------------------------------------------------------------------------------
// The end of the file
// ---------------------------------------------------------------------------------------------

/// A number is read exactly where all its bytes are there, and else the error tells its place, its
/// width and the length of the file.
pub proof fn numbers_end_inside_the_file(data: Seq<u8>, pos: int)
    requires
        0 <= pos <= data.len() <= u64::MAX,
    ensures
        read_u32(data, pos) is Ok <==> pos + 4 <= data.len(),
        read_u64(data, pos) is Ok <==> pos + 8 <= data.len(),
        read_i64(data, pos) is Ok <==> pos + 8 <= data.len(),
        read_u32(data, pos) is Err ==> read_u32(data, pos) == Err::<(u32, int), ErrorView>(
            ErrorView::OutOfBounds {
                offset: pos as u64,
                required: 4,
                file_size: data.len() as u64,
            },
        ),
        read_u64(data, pos) is Err ==> read_u64(data, pos) == Err::<(u64, int), ErrorView>(
            ErrorView::OutOfBounds {
                offset: pos as u64,
                required: 8,
                file_size: data.len() as u64,
            },
        ),
{
}

/// An array inside an array is refused with the tag of an array.
pub proof fn nested_arrays_are_refused_by_tag(data: Seq<u8>, pos: int)
    requires
        parse_type(data, pos) == Ok::<(GgufType, int), ErrorView>((GgufType::Array, pos + 4)),
    ensures
        parse_array(data, pos) == Err::<(ValueView, int), ErrorView>(
            ErrorView::InvalidArrayElemType(9),
        ),
        parse_scalar(data, pos, GgufType::Array) == Err::<(ValueView, int), ErrorView>(
            ErrorView::InvalidArrayElemType(9),
        ),
{
}

} // verus!
