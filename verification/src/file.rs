//! The metadata of a GGUF file: its head, its key/value pairs and its tensor descriptions.
use vstd::prelude::*;
use vstd::hash_map::StringHashMap;
use vstd::slice::{slice_subrange, slice_to_vec};
use vstd::string::*;
use crate::cursor::{
    le, past_end, read_bool, read_i16, read_i32, read_i64, read_i8, read_string, read_u16, read_u32,
    read_u64, read_u8, signed, Cursor, Parsed,
};
use crate::error::{ErrorView, GgufError, GgufResult};
use crate::header::{GgufHeader, GGUF_DEFAULT_ALIGNMENT, GGUF_MAGIC, GGUF_VERSION};
use crate::tensor::{mul_saturating, saturated, tensor_bytes, TensorInfo, TensorView};
use crate::text::same;
use crate::types::{
    gguf_min_size, gguf_type_of, ggml_type_of, lemma_array_view, values_view, GgmlType, GgufArray,
    GgufType, GgufValue, ValueView,
};

verus! {

/// The metadata of a GGUF file, without the tensors' data.
#[derive(Clone, Debug)]
pub struct GgufFile {
    pub header: GgufHeader,
    /// The key/value pairs, in the order of the file.
    pub kv: Vec<(String, GgufValue)>,
    /// The tensor descriptions, in the order of the file.
    pub tensors: Vec<TensorInfo>,
    /// The alignment of the data section.
    pub alignment: u32,
    /// Where the data section starts.
    pub data_offset: u64,
    /// The size of the whole file.
    pub file_size: u64,
}

/// A [`GgufFile`] with its strings and lists as sequences.
pub struct FileView {
    pub header: GgufHeader,
    pub kv: Seq<(Seq<char>, ValueView)>,
    pub tensors: Seq<TensorView>,
    pub alignment: u32,
    pub data_offset: u64,
    pub file_size: u64,
}

/// The views of key/value pairs in a row.
pub open spec fn pairs_view(s: Seq<(String, GgufValue)>) -> Seq<(Seq<char>, ValueView)> {
    Seq::new(s.len(), |i: int| (s[i].0@, s[i].1@))
}

/// The views of tensor descriptions in a row.
pub open spec fn tensors_view(s: Seq<TensorInfo>) -> Seq<TensorView> {
    Seq::new(s.len(), |i: int| s[i]@)
}

impl View for GgufFile {
    type V = FileView;

    open spec fn view(&self) -> FileView {
        FileView {
            header: self.header,
            kv: pairs_view(self.kv@),
            tensors: tensors_view(self.tensors@),
            alignment: self.alignment,
            data_offset: self.data_offset,
            file_size: self.file_size,
        }
    }
}

// ---------------------------------------------------------------------------------------------
// The format
// ---------------------------------------------------------------------------------------------

/// A value of a type other than an array at `pos`.
pub open spec fn parse_scalar(data: Seq<u8>, pos: int, ty: GgufType) -> Parsed<ValueView> {
    match ty {
        GgufType::Uint8 => match read_u8(data, pos) {
            Ok((v, p)) => Ok((ValueView::U8(v), p)),
            Err(e) => Err(e),
        },
        GgufType::Int8 => match read_i8(data, pos) {
            Ok((v, p)) => Ok((ValueView::I8(v), p)),
            Err(e) => Err(e),
        },
        GgufType::Uint16 => match read_u16(data, pos) {
            Ok((v, p)) => Ok((ValueView::U16(v), p)),
            Err(e) => Err(e),
        },
        GgufType::Int16 => match read_i16(data, pos) {
            Ok((v, p)) => Ok((ValueView::I16(v), p)),
            Err(e) => Err(e),
        },
        GgufType::Uint32 => match read_u32(data, pos) {
            Ok((v, p)) => Ok((ValueView::U32(v), p)),
            Err(e) => Err(e),
        },
        GgufType::Int32 => match read_i32(data, pos) {
            Ok((v, p)) => Ok((ValueView::I32(v), p)),
            Err(e) => Err(e),
        },
        GgufType::F32 => match read_u32(data, pos) {
            Ok((v, p)) => Ok((ValueView::F32(v), p)),
            Err(e) => Err(e),
        },
        GgufType::Bool => match read_bool(data, pos) {
            Ok((v, p)) => Ok((ValueView::Bool(v), p)),
            Err(e) => Err(e),
        },
        GgufType::String => match read_string(data, pos) {
            Ok((v, p)) => Ok((ValueView::String(v), p)),
            Err(e) => Err(e),
        },
        GgufType::Uint64 => match read_u64(data, pos) {
            Ok((v, p)) => Ok((ValueView::U64(v), p)),
            Err(e) => Err(e),
        },
        GgufType::Int64 => match read_i64(data, pos) {
            Ok((v, p)) => Ok((ValueView::I64(v), p)),
            Err(e) => Err(e),
        },
        GgufType::F64 => match read_u64(data, pos) {
            Ok((v, p)) => Ok((ValueView::F64(v), p)),
            Err(e) => Err(e),
        },
        GgufType::Array => Err(ErrorView::InvalidArrayElemType(9)),
    }
}

/// `n` values of one type, one behind the other from `pos` on.
pub open spec fn parse_scalars(data: Seq<u8>, pos: int, ty: GgufType, n: nat) -> Parsed<
    Seq<ValueView>,
>
    decreases n,
{
    if n == 0 {
        Ok((Seq::empty(), pos))
    } else {
        match parse_scalar(data, pos, ty) {
            Err(e) => Err(e),
            Ok((v, p)) => match parse_scalars(data, p, ty, (n - 1) as nat) {
                Err(e) => Err(e),
                Ok((rest, q)) => Ok((seq![v] + rest, q)),
            },
        }
    }
}

/// The type that a tag at `pos` names.
pub open spec fn parse_type(data: Seq<u8>, pos: int) -> Parsed<GgufType> {
    match read_i32(data, pos) {
        Err(e) => Err(e),
        Ok((tag, p)) => match gguf_type_of(tag as int) {
            None => Err(ErrorView::InvalidGgufType(tag)),
            Some(ty) => Ok((ty, p)),
        },
    }
}

/// An array at `pos`: the tag of its elements' type, their number, and the elements. An array
/// that could not fit in the rest of the data is refused before any element is read.
pub open spec fn parse_array(data: Seq<u8>, pos: int) -> Parsed<ValueView> {
    match parse_type(data, pos) {
        Err(e) => Err(e),
        Ok((ty, p)) => if ty == GgufType::Array {
            Err(ErrorView::InvalidArrayElemType(9))
        } else {
            match read_u64(data, p) {
                Err(e) => Err(e),
                Ok((count, q)) => {
                    let required = saturated(count as nat * gguf_min_size(ty));
                    if q + required > data.len() {
                        Err(past_end(data, q, required as nat))
                    } else {
                        match parse_scalars(data, q, ty, count as nat) {
                            Err(e) => Err(e),
                            Ok((elems, end)) => Ok((ValueView::Array(ty, elems), end)),
                        }
                    }
                },
            }
        },
    }
}

/// A value of any type at `pos`.
pub open spec fn parse_typed(data: Seq<u8>, pos: int, ty: GgufType) -> Parsed<ValueView> {
    if ty == GgufType::Array {
        parse_array(data, pos)
    } else {
        parse_scalar(data, pos, ty)
    }
}

/// A key/value pair at `pos`: the key, the tag of the value's type, and the value.
pub open spec fn parse_pair(data: Seq<u8>, pos: int) -> Parsed<(Seq<char>, ValueView)> {
    match read_string(data, pos) {
        Err(e) => Err(e),
        Ok((key, p)) => match parse_type(data, p) {
            Err(e) => Err(e),
            Ok((ty, q)) => match parse_typed(data, q, ty) {
                Err(e) => Err(e),
                Ok((v, end)) => Ok(((key, v), end)),
            },
        },
    }
}

/// `n` key/value pairs from `pos` on.
pub open spec fn parse_pairs(data: Seq<u8>, pos: int, n: nat) -> Parsed<
    Seq<(Seq<char>, ValueView)>,
>
    decreases n,
{
    if n == 0 {
        Ok((Seq::empty(), pos))
    } else {
        match parse_pair(data, pos) {
            Err(e) => Err(e),
            Ok((v, p)) => match parse_pairs(data, p, (n - 1) as nat) {
                Err(e) => Err(e),
                Ok((rest, q)) => Ok((seq![v] + rest, q)),
            },
        }
    }
}

/// `n` dimensions of the tensor `name` from `pos` on; none may be negative.
pub open spec fn parse_dims(data: Seq<u8>, pos: int, name: Seq<char>, n: nat) -> Parsed<Seq<u64>>
    decreases n,
{
    if n == 0 {
        Ok((Seq::empty(), pos))
    } else {
        match read_i64(data, pos) {
            Err(e) => Err(e),
            Ok((d, p)) => if d < 0 {
                Err(ErrorView::InvalidTensorDim { name, dim: d })
            } else {
                match parse_dims(data, p, name, (n - 1) as nat) {
                    Err(e) => Err(e),
                    Ok((rest, q)) => Ok((seq![d as u64] + rest, q)),
                }
            },
        }
    }
}

/// The most dimensions that a tensor can have.
pub const MAX_DIMS: u32 = 8;

/// A tensor description at `pos`: name, number of dimensions, dimensions, type code, offset.
pub open spec fn parse_tensor(data: Seq<u8>, pos: int) -> Parsed<TensorView> {
    match read_string(data, pos) {
        Err(e) => Err(e),
        Ok((name, p)) => match read_u32(data, p) {
            Err(e) => Err(e),
            Ok((n_dims, q)) => if n_dims > MAX_DIMS {
                Err(ErrorView::InvalidTensorDim { name, dim: -1i64 })
            } else {
                match parse_dims(data, q, name, n_dims as nat) {
                    Err(e) => Err(e),
                    Ok((shape, r)) => match read_i32(data, r) {
                        Err(e) => Err(e),
                        Ok((code, s)) => match read_u64(data, s) {
                            Err(e) => Err(e),
                            Ok((offset, end)) => Ok(
                                (
                                    TensorView {
                                        name,
                                        shape,
                                        dtype: ggml_type_of(code),
                                        offset,
                                    },
                                    end,
                                ),
                            ),
                        },
                    },
                }
            },
        },
    }
}

/// `n` tensor descriptions from `pos` on.
pub open spec fn parse_tensors(data: Seq<u8>, pos: int, n: nat) -> Parsed<Seq<TensorView>>
    decreases n,
{
    if n == 0 {
        Ok((Seq::empty(), pos))
    } else {
        match parse_tensor(data, pos) {
            Err(e) => Err(e),
            Ok((v, p)) => match parse_tensors(data, p, (n - 1) as nat) {
                Err(e) => Err(e),
                Ok((rest, q)) => Ok((seq![v] + rest, q)),
            },
        }
    }
}

/// The head of the file: magic number, version, and the two counts, neither of which may be
/// negative or larger than the file.
pub open spec fn parse_header(data: Seq<u8>) -> Parsed<GgufHeader> {
    match read_u32(data, 0) {
        Err(e) => Err(e),
        Ok((magic, p)) => if magic != GGUF_MAGIC {
            Err(ErrorView::InvalidMagic(magic))
        } else {
            match read_u32(data, p) {
                Err(e) => Err(e),
                Ok((version, q)) => if version != GGUF_VERSION {
                    Err(ErrorView::UnsupportedVersion(version))
                } else {
                    match read_i64(data, q) {
                        Err(e) => Err(e),
                        Ok((n_tensors, r)) => if n_tensors < 0 {
                            Err(ErrorView::InvalidCount { field: "n_tensors"@, value: n_tensors })
                        } else {
                            match read_i64(data, r) {
                                Err(e) => Err(e),
                                Ok((n_kv, end)) => if n_kv < 0 || n_kv > data.len() {
                                    Err(ErrorView::InvalidCount { field: "n_kv"@, value: n_kv })
                                } else if n_tensors > data.len() {
                                    Err(
                                        ErrorView::InvalidCount {
                                            field: "n_tensors"@,
                                            value: n_tensors,
                                        },
                                    )
                                } else {
                                    Ok(
                                        (
                                            GgufHeader {
                                                magic,
                                                version,
                                                n_tensors: n_tensors as u64,
                                                n_kv: n_kv as u64,
                                            },
                                            end,
                                        ),
                                    )
                                },
                            }
                        },
                    }
                },
            }
        },
    }
}

/// The value of the first pair with a given key.
pub open spec fn first_value(kv: Seq<(Seq<char>, ValueView)>, key: Seq<char>) -> Option<ValueView>
    decreases kv.len(),
{
    if kv.len() == 0 {
        None
    } else if kv[0].0 == key {
        Some(kv[0].1)
    } else {
        first_value(kv.drop_first(), key)
    }
}

/// The alignment that the metadata asks for: the first `general.alignment`, where it is a
/// 32-bit unsigned number other than 0, and the default otherwise.
pub open spec fn alignment_of(kv: Seq<(Seq<char>, ValueView)>) -> u32 {
    match first_value(kv, "general.alignment"@) {
        Some(ValueView::U32(a)) => if a == 0 {
            GGUF_DEFAULT_ALIGNMENT
        } else {
            a
        },
        _ => GGUF_DEFAULT_ALIGNMENT,
    }
}

/// The smallest multiple of `align` from `value` on; `value` itself where `align` is 0.
pub open spec fn aligned_up(value: nat, align: nat) -> nat {
    if align == 0 {
        value
    } else {
        ((value + align - 1) as nat / align) * align
    }
}

/// The metadata of a file, and where it ends.
pub open spec fn parse_file(data: Seq<u8>) -> Parsed<FileView> {
    match parse_header(data) {
        Err(e) => Err(e),
        Ok((header, p)) => match parse_pairs(data, p, header.n_kv as nat) {
            Err(e) => Err(e),
            Ok((kv, q)) => match parse_tensors(data, q, header.n_tensors as nat) {
                Err(e) => Err(e),
                Ok((tensors, end)) => Ok(
                    (
                        FileView {
                            header,
                            kv,
                            tensors,
                            alignment: alignment_of(kv),
                            data_offset: aligned_up(end as nat, alignment_of(kv) as nat) as u64,
                            file_size: data.len() as u64,
                        },
                        end,
                    ),
                ),
            },
        },
    }
}

// ---------------------------------------------------------------------------------------------
// Reading it
// ---------------------------------------------------------------------------------------------

/// What was read so far, and the rest.
pub open spec fn behind<T>(done: Seq<T>, rest: Parsed<Seq<T>>) -> Parsed<Seq<T>> {
    match rest {
        Ok((s, p)) => Ok((done + s, p)),
        Err(e) => Err(e),
    }
}

/// The next value of type `ty`, which is no array.
fn parse_scalar_value(c: &mut Cursor, ty: GgufType) -> (r: GgufResult<GgufValue>)
    requires
        old(c).wf(),
        ty != GgufType::Array,
    ensures
        final(c).wf(),
        final(c).bytes() == old(c).bytes(),
        match parse_scalar(old(c).bytes(), old(c).at(), ty) {
            Ok((v, p)) => r is Ok && r->Ok_0@ == v && final(c).at() == p,
            Err(e) => r is Err && r->Err_0@ == e,
        },
{
    match ty {
        GgufType::Uint8 => match c.u8() {
            Ok(v) => Ok(GgufValue::U8(v)),
            Err(e) => Err(e),
        },
        GgufType::Int8 => match c.i8() {
            Ok(v) => Ok(GgufValue::I8(v)),
            Err(e) => Err(e),
        },
        GgufType::Uint16 => match c.u16() {
            Ok(v) => Ok(GgufValue::U16(v)),
            Err(e) => Err(e),
        },
        GgufType::Int16 => match c.i16() {
            Ok(v) => Ok(GgufValue::I16(v)),
            Err(e) => Err(e),
        },
        GgufType::Uint32 => match c.u32() {
            Ok(v) => Ok(GgufValue::U32(v)),
            Err(e) => Err(e),
        },
        GgufType::Int32 => match c.i32() {
            Ok(v) => Ok(GgufValue::I32(v)),
            Err(e) => Err(e),
        },
        GgufType::F32 => match c.f32_bits() {
            Ok(v) => Ok(GgufValue::F32(v)),
            Err(e) => Err(e),
        },
        GgufType::Bool => match c.bool() {
            Ok(v) => Ok(GgufValue::Bool(v)),
            Err(e) => Err(e),
        },
        GgufType::String => match c.string() {
            Ok(v) => Ok(GgufValue::String(v)),
            Err(e) => Err(e),
        },
        GgufType::Uint64 => match c.u64() {
            Ok(v) => Ok(GgufValue::U64(v)),
            Err(e) => Err(e),
        },
        GgufType::Int64 => match c.i64() {
            Ok(v) => Ok(GgufValue::I64(v)),
            Err(e) => Err(e),
        },
        GgufType::F64 => match c.f64_bits() {
            Ok(v) => Ok(GgufValue::F64(v)),
            Err(e) => Err(e),
        },
        GgufType::Array => Err(GgufError::InvalidArrayElemType(9)),
    }
}

/// The type that the next tag names.
fn parse_type_tag(c: &mut Cursor) -> (r: GgufResult<GgufType>)
    requires
        old(c).wf(),
    ensures
        final(c).wf(),
        final(c).bytes() == old(c).bytes(),
        match parse_type(old(c).bytes(), old(c).at()) {
            Ok((v, p)) => r is Ok && r->Ok_0 == v && final(c).at() == p,
            Err(e) => r is Err && r->Err_0@ == e,
        },
{
    match c.i32() {
        Ok(tag) => GgufType::from_i32(tag),
        Err(e) => Err(e),
    }
}

/// The next array.
fn parse_array_value(c: &mut Cursor) -> (r: GgufResult<GgufValue>)
    requires
        old(c).wf(),
    ensures
        final(c).wf(),
        final(c).bytes() == old(c).bytes(),
        match parse_array(old(c).bytes(), old(c).at()) {
            Ok((v, p)) => r is Ok && r->Ok_0@ == v && final(c).at() == p,
            Err(e) => r is Err && r->Err_0@ == e,
        },
{
    let ghost bytes = c.bytes();
    let elem_type = match parse_type_tag(c) {
        Ok(ty) => ty,
        Err(e) => return Err(e),
    };
    if elem_type == GgufType::Array {
        return Err(GgufError::InvalidArrayElemType(9));
    }
    let count: u64 = match c.u64() {
        Ok(n) => n,
        Err(e) => return Err(e),
    };
    let required: u64 = mul_saturating(count, elem_type.min_element_size());
    if required > c.remaining() as u64 {
        return Err(
            GgufError::OutOfBounds { offset: c.pos() as u64, required, file_size: c.total_len() },
        );
    }
    let ghost start = c.at();
    let mut data: Vec<GgufValue> = Vec::new();
    let mut i: u64 = 0;
    while i < count
        invariant
            c.wf(),
            c.bytes() == bytes,
            i <= count,
            elem_type != GgufType::Array,
            bytes == old(c).bytes(),
            parse_array(bytes, old(c).at()) == (match parse_scalars(
                bytes,
                start,
                elem_type,
                count as nat,
            ) {
                Err(e) => Err(e),
                Ok((elems, end)) => Ok((ValueView::Array(elem_type, elems), end)),
            }),
            parse_scalars(bytes, start, elem_type, count as nat) == behind(
                values_view(data@),
                parse_scalars(bytes, c.at(), elem_type, (count - i) as nat),
            ),
        decreases count - i,
    {
        let ghost done = values_view(data@);
        match parse_scalar_value(c, elem_type) {
            Ok(v) => {
                data.push(v);
                proof {
                    assert(values_view(data@) =~= done.push(v@));
                    let rest = parse_scalars(bytes, c.at(), elem_type, (count - i - 1) as nat);
                    if rest is Ok {
                        assert(done.push(v@) + rest->Ok_0.0 =~= done + (seq![v@] + rest->Ok_0.0));
                    }
                }
            },
            Err(e) => return Err(e),
        }
        i += 1;
    }
    let r = GgufValue::Array(GgufArray { elem_type, data });
    proof {
        lemma_array_view(r->Array_0);
        assert(values_view(data@) + Seq::<ValueView>::empty() =~= values_view(data@));
    }
    Ok(r)
}

/// The next value of type `ty`.
fn parse_value(c: &mut Cursor, ty: GgufType) -> (r: GgufResult<GgufValue>)
    requires
        old(c).wf(),
    ensures
        final(c).wf(),
        final(c).bytes() == old(c).bytes(),
        match parse_typed(old(c).bytes(), old(c).at(), ty) {
            Ok((v, p)) => r is Ok && r->Ok_0@ == v && final(c).at() == p,
            Err(e) => r is Err && r->Err_0@ == e,
        },
{
    if ty == GgufType::Array {
        parse_array_value(c)
    } else {
        parse_scalar_value(c, ty)
    }
}

/// The next key/value pair.
fn parse_kv(c: &mut Cursor) -> (r: GgufResult<(String, GgufValue)>)
    requires
        old(c).wf(),
    ensures
        final(c).wf(),
        final(c).bytes() == old(c).bytes(),
        match parse_pair(old(c).bytes(), old(c).at()) {
            Ok((v, p)) => r is Ok && (r->Ok_0.0@, r->Ok_0.1@) == v && final(c).at() == p,
            Err(e) => r is Err && r->Err_0@ == e,
        },
{
    let key = match c.string() {
        Ok(s) => s,
        Err(e) => return Err(e),
    };
    let ty = match parse_type_tag(c) {
        Ok(ty) => ty,
        Err(e) => return Err(e),
    };
    match parse_value(c, ty) {
        Ok(v) => Ok((key, v)),
        Err(e) => Err(e),
    }
}

/// The next tensor description.
fn parse_tensor_info(c: &mut Cursor) -> (r: GgufResult<TensorInfo>)
    requires
        old(c).wf(),
    ensures
        final(c).wf(),
        final(c).bytes() == old(c).bytes(),
        match parse_tensor(old(c).bytes(), old(c).at()) {
            Ok((v, p)) => r is Ok && r->Ok_0@ == v && final(c).at() == p,
            Err(e) => r is Err && r->Err_0@ == e,
        },
{
    let ghost bytes = c.bytes();
    let name = match c.string() {
        Ok(s) => s,
        Err(e) => return Err(e),
    };
    let n_dims: u32 = match c.u32() {
        Ok(n) => n,
        Err(e) => return Err(e),
    };
    if n_dims > MAX_DIMS {
        return Err(GgufError::InvalidTensorDim { name, dim: -1 });
    }
    let ghost start = c.at();
    let mut shape: Vec<u64> = Vec::new();
    let mut i: u32 = 0;
    while i < n_dims
        invariant
            c.wf(),
            c.bytes() == bytes,
            i <= n_dims,
            parse_dims(bytes, start, name@, n_dims as nat) == behind(
                shape@,
                parse_dims(bytes, c.at(), name@, (n_dims - i) as nat),
            ),
            match parse_tensor(bytes, old(c).at()) {
                Ok(_) => parse_dims(bytes, start, name@, n_dims as nat) is Ok,
                Err(e) => parse_dims(bytes, start, name@, n_dims as nat) is Err ==> parse_dims(
                    bytes,
                    start,
                    name@,
                    n_dims as nat,
                )->Err_0 == e,
            },
            bytes == old(c).bytes(),
        decreases n_dims - i,
    {
        let ghost done = shape@;
        match c.i64() {
            Ok(d) => {
                if d < 0 {
                    return Err(GgufError::InvalidTensorDim { name, dim: d });
                }
                shape.push(d as u64);
                proof {
                    let rest = parse_dims(bytes, c.at(), name@, (n_dims - i - 1) as nat);
                    if rest is Ok {
                        assert(done.push(d as u64) + rest->Ok_0.0 =~= done + (seq![d as u64]
                            + rest->Ok_0.0));
                    }
                }
            },
            Err(e) => return Err(e),
        }
        i += 1;
    }
    assert(shape@ + Seq::<u64>::empty() =~= shape@);
    let code: i32 = match c.i32() {
        Ok(n) => n,
        Err(e) => return Err(e),
    };
    let offset: u64 = match c.u64() {
        Ok(n) => n,
        Err(e) => return Err(e),
    };
    Ok(TensorInfo { name, shape, dtype: GgmlType::from_i32(code), offset })
}

/// The head of the file.
fn parse_head(c: &mut Cursor) -> (r: GgufResult<GgufHeader>)
    requires
        old(c).wf(),
        old(c).at() == 0,
    ensures
        final(c).wf(),
        final(c).bytes() == old(c).bytes(),
        match parse_header(old(c).bytes()) {
            Ok((v, p)) => r is Ok && r->Ok_0 == v && final(c).at() == p,
            Err(e) => r is Err && r->Err_0@ == e,
        },
{
    let magic: u32 = match c.u32() {
        Ok(n) => n,
        Err(e) => return Err(e),
    };
    if magic != GGUF_MAGIC {
        return Err(GgufError::InvalidMagic(magic));
    }
    let version: u32 = match c.u32() {
        Ok(n) => n,
        Err(e) => return Err(e),
    };
    if version != GGUF_VERSION {
        return Err(GgufError::UnsupportedVersion(version));
    }
    let n_tensors: i64 = match c.i64() {
        Ok(n) => n,
        Err(e) => return Err(e),
    };
    if n_tensors < 0 {
        return Err(GgufError::InvalidCount { field: "n_tensors", value: n_tensors });
    }
    let n_kv: i64 = match c.i64() {
        Ok(n) => n,
        Err(e) => return Err(e),
    };
    // A pair and a tensor description take more than one byte each, so a count above the size of
    // the file is damage.
    if n_kv < 0 || n_kv as u64 > c.total_len() {
        return Err(GgufError::InvalidCount { field: "n_kv", value: n_kv });
    }
    if n_tensors as u64 > c.total_len() {
        return Err(GgufError::InvalidCount { field: "n_tensors", value: n_tensors });
    }
    Ok(GgufHeader { magic, version, n_tensors: n_tensors as u64, n_kv: n_kv as u64 })
}

/// The smallest multiple of `align` from `value` on, as far as 64 bits go; `value` itself where
/// `align` is 0.
pub fn align_up(value: u64, align: u32) -> (r: u64)
    ensures
        r == aligned_up(value as nat, align as nat) as u64,
{
    if align == 0 {
        return value;
    }
    let a: u128 = align as u128;
    let v: u128 = value as u128;
    let rem: u128 = v % a;
    let ghost q = (v / a) as int;
    proof {
        vstd::arithmetic::div_mod::lemma_fundamental_div_mod(v as int, a as int);
        if rem == 0 {
            vstd::arithmetic::div_mod::lemma_fundamental_div_mod_converse(
                v + a - 1,
                a as int,
                q,
                a - 1,
            );
            assert(q * a == a * q) by (nonlinear_arith);
        } else {
            assert(a * (q + 1) == a * q + a) by (nonlinear_arith);
            assert((q + 1) * a == a * (q + 1)) by (nonlinear_arith);
            vstd::arithmetic::div_mod::lemma_fundamental_div_mod_converse(
                v + a - 1,
                a as int,
                q + 1,
                rem - 1,
            );
        }
    }
    let up: u128 = if rem == 0 {
        v
    } else {
        v + (a - rem)
    };
    #[verifier::truncate]
    (up as u64)
}

/// The start of the data section is aligned, not before the end of the metadata, and less than
/// one alignment behind it.
pub proof fn alignment_is_tight(value: nat, align: nat)
    requires
        align > 0,
    ensures
        aligned_up(value, align) % align == 0,
        value <= aligned_up(value, align) < value + align,
{
    let n = (value + align - 1) as nat;
    vstd::arithmetic::div_mod::lemma_fundamental_div_mod(n as int, align as int);
    vstd::arithmetic::div_mod::lemma_mod_multiples_basic((n / align) as int, align as int);
    assert((n / align) * align == align * (n / align)) by (nonlinear_arith);
}

impl GgufFile {
    /// The metadata of the file whose bytes are `data`.
    pub fn from_buffer(data: &[u8]) -> (r: GgufResult<GgufFile>)
        ensures
            match parse_file(data@) {
                Ok((f, _)) => r is Ok && r->Ok_0@ == f,
                Err(e) => r is Err && r->Err_0@ == e,
            },
    {
        let ghost bytes = data@;
        let mut c = Cursor::new(data);
        let header = match parse_head(&mut c) {
            Ok(h) => h,
            Err(e) => return Err(e),
        };
        let ghost start = c.at();
        let mut kv: Vec<(String, GgufValue)> = Vec::new();
        let mut i: u64 = 0;
        while i < header.n_kv
            invariant
                c.wf(),
                c.bytes() == bytes,
                bytes == data@,
                i <= header.n_kv,
                parse_header(bytes) == Ok::<(GgufHeader, int), ErrorView>((header, start)),
                parse_pairs(bytes, start, header.n_kv as nat) == behind(
                    pairs_view(kv@),
                    parse_pairs(bytes, c.at(), (header.n_kv - i) as nat),
                ),
            decreases header.n_kv - i,
        {
            let ghost done = pairs_view(kv@);
            match parse_kv(&mut c) {
                Ok(pair) => {
                    let ghost v = (pair.0@, pair.1@);
                    kv.push(pair);
                    proof {
                        assert(pairs_view(kv@) =~= done.push(v));
                        let rest = parse_pairs(bytes, c.at(), (header.n_kv - i - 1) as nat);
                        if rest is Ok {
                            assert(done.push(v) + rest->Ok_0.0 =~= done + (seq![v]
                                + rest->Ok_0.0));
                        }
                    }
                },
                Err(e) => return Err(e),
            }
            i += 1;
        }
        let ghost pairs = pairs_view(kv@);
        assert(pairs + Seq::<(Seq<char>, ValueView)>::empty() =~= pairs);
        let ghost middle = c.at();
        let mut tensors: Vec<TensorInfo> = Vec::new();
        let mut j: u64 = 0;
        while j < header.n_tensors
            invariant
                c.wf(),
                c.bytes() == bytes,
                bytes == data@,
                j <= header.n_tensors,
                parse_header(bytes) == Ok::<(GgufHeader, int), ErrorView>((header, start)),
                parse_pairs(bytes, start, header.n_kv as nat) == Ok::<
                    (Seq<(Seq<char>, ValueView)>, int),
                    ErrorView,
                >((pairs, middle)),
                parse_tensors(bytes, middle, header.n_tensors as nat) == behind(
                    tensors_view(tensors@),
                    parse_tensors(bytes, c.at(), (header.n_tensors - j) as nat),
                ),
            decreases header.n_tensors - j,
        {
            let ghost done = tensors_view(tensors@);
            match parse_tensor_info(&mut c) {
                Ok(t) => {
                    let ghost v = t@;
                    tensors.push(t);
                    proof {
                        assert(tensors_view(tensors@) =~= done.push(v));
                        let rest = parse_tensors(bytes, c.at(), (header.n_tensors - j - 1) as nat);
                        if rest is Ok {
                            assert(done.push(v) + rest->Ok_0.0 =~= done + (seq![v]
                                + rest->Ok_0.0));
                        }
                    }
                },
                Err(e) => return Err(e),
            }
            j += 1;
        }
        assert(tensors_view(tensors@) + Seq::<TensorView>::empty() =~= tensors_view(tensors@));
        let alignment: u32 = match find_value(&kv, "general.alignment") {
            Some(GgufValue::U32(a)) => if *a == 0 {
                GGUF_DEFAULT_ALIGNMENT
            } else {
                *a
            },
            _ => GGUF_DEFAULT_ALIGNMENT,
        };
        proof {
            c.lemma_wf();
        }
        let data_offset: u64 = align_up(c.pos() as u64, alignment);
        Ok(GgufFile { header, kv, tensors, alignment, data_offset, file_size: data.len() as u64 })
    }
}

/// The value of the first pair with key `key`.
pub fn find_value<'a>(kv: &'a Vec<(String, GgufValue)>, key: &str) -> (r: Option<&'a GgufValue>)
    ensures
        match first_value(pairs_view(kv@), key@) {
            Some(v) => r is Some && r->Some_0@ == v,
            None => r is None,
        },
{
    let ghost all = pairs_view(kv@);
    assert(all.skip(0) =~= all);
    let mut i: usize = 0;
    while i < kv.len()
        invariant
            i <= kv@.len(),
            all == pairs_view(kv@),
            first_value(all, key@) == first_value(all.skip(i as int), key@),
        decreases kv@.len() - i,
    {
        assert(all.skip(i as int)[0] == all[i as int]);
        assert(all.skip(i as int).drop_first() =~= all.skip(i + 1));
        if same(kv[i].0.as_str(), key) {
            return Some(&kv[i].1);
        }
        i += 1;
    }
    None
}

// ---------------------------------------------------------------------------------------------
// Looking things up
// ---------------------------------------------------------------------------------------------

/// The first tensor with a given name.
pub open spec fn first_tensor(tensors: Seq<TensorView>, name: Seq<char>) -> Option<TensorView>
    decreases tensors.len(),
{
    if tensors.len() == 0 {
        None
    } else if tensors[0].name == name {
        Some(tensors[0])
    } else {
        first_tensor(tensors.drop_first(), name)
    }
}

/// The string under a key, where the first value under it is one.
pub open spec fn string_value(kv: Seq<(Seq<char>, ValueView)>, key: Seq<char>) -> Option<
    Seq<char>,
> {
    match first_value(kv, key) {
        Some(ValueView::String(s)) => Some(s),
        _ => None,
    }
}

/// Every key with its last value.
pub open spec fn last_values<'a>(kv: Seq<(String, GgufValue)>) -> Map<Seq<char>, &'a GgufValue>
    decreases kv.len(),
{
    if kv.len() == 0 {
        Map::empty()
    } else {
        last_values(kv.drop_last()).insert(kv.last().0@, &kv.last().1)
    }
}

/// The smallest offset above `offset` of any tensor, or `limit` where none is below that.
pub open spec fn next_offset(tensors: Seq<TensorView>, offset: u64, limit: u64) -> u64
    decreases tensors.len(),
{
    if tensors.len() == 0 {
        limit
    } else {
        let rest = next_offset(tensors.drop_last(), offset, limit);
        let o = tensors.last().offset;
        if offset < o < rest {
            o
        } else {
            rest
        }
    }
}

/// The size of the data section.
pub open spec fn section_size(f: FileView) -> u64 {
    if f.file_size >= f.data_offset {
        (f.file_size - f.data_offset) as u64
    } else {
        0
    }
}

/// Where the data of a tensor starts in the file.
pub open spec fn data_start(f: FileView, t: TensorView) -> nat {
    f.data_offset as nat + t.offset as nat
}

/// How many bytes lie between the start of a tensor's data and whatever comes next: the next
/// tensor's data or the end of the file.
pub open spec fn physical_span(f: FileView, t: TensorView) -> Result<u64, ErrorView> {
    if t.offset > section_size(f) {
        Err(
            ErrorView::OutOfBounds {
                offset: saturated(data_start(f, t)),
                required: 1,
                file_size: f.file_size,
            },
        )
    } else {
        Ok((next_offset(f.tensors, t.offset, section_size(f)) - t.offset) as u64)
    }
}

/// `size` bytes of the file from the start of a tensor's data on.
pub open spec fn bytes_at(f: FileView, data: Seq<u8>, t: TensorView, size: nat) -> Result<
    Seq<u8>,
    ErrorView,
> {
    let start = data_start(f, t);
    if start + size > data.len() {
        Err(
            ErrorView::OutOfBounds {
                offset: saturated(start),
                required: saturated(size),
                file_size: data.len() as u64,
            },
        )
    } else {
        Ok(data.subrange(start as int, (start + size) as int))
    }
}

impl GgufFile {
    /// The value of the first pair with key `key`.
    pub fn get(&self, key: &str) -> (r: Option<&GgufValue>)
        ensures
            match first_value(self@.kv, key@) {
                Some(v) => r is Some && r->Some_0@ == v,
                None => r is None,
            },
    {
        find_value(&self.kv, key)
    }

    /// The first tensor with name `name`.
    pub fn find_tensor(&self, name: &str) -> (r: Option<&TensorInfo>)
        ensures
            match first_tensor(self@.tensors, name@) {
                Some(t) => r is Some && r->Some_0@ == t,
                None => r is None,
            },
    {
        let ghost all = tensors_view(self.tensors@);
        assert(all.skip(0) =~= all);
        let mut i: usize = 0;
        while i < self.tensors.len()
            invariant
                i <= self.tensors@.len(),
                all == tensors_view(self.tensors@),
                first_tensor(all, name@) == first_tensor(all.skip(i as int), name@),
            decreases self.tensors@.len() - i,
        {
            assert(all.skip(i as int)[0] == all[i as int]);
            assert(all.skip(i as int).drop_first() =~= all.skip(i + 1));
            if same(self.tensors[i].name.as_str(), name) {
                return Some(&self.tensors[i]);
            }
            i += 1;
        }
        None
    }

    /// The string under `key`, where the first value under it is one.
    pub fn get_str(&self, key: &str) -> (r: Option<&str>)
        ensures
            match string_value(self@.kv, key@) {
                Some(s) => r is Some && r->Some_0@ == s,
                None => r is None,
            },
    {
        match self.get(key) {
            Some(v) => v.as_str(),
            None => None,
        }
    }

    /// The architecture of the model.
    pub fn architecture(&self) -> (r: Option<&str>)
        ensures
            match string_value(self@.kv, "general.architecture"@) {
                Some(s) => r is Some && r->Some_0@ == s,
                None => r is None,
            },
    {
        self.get_str("general.architecture")
    }

    /// The name of the model.
    pub fn model_name(&self) -> (r: Option<&str>)
        ensures
            match string_value(self@.kv, "general.name"@) {
                Some(s) => r is Some && r->Some_0@ == s,
                None => r is None,
            },
    {
        self.get_str("general.name")
    }

    /// All values by their keys; of a key that occurs more than once, the last.
    pub fn kv_map(&self) -> (m: StringHashMap<&GgufValue>)
        ensures
            m@ == last_values(self.kv@),
    {
        let mut m: StringHashMap<&GgufValue> = StringHashMap::new();
        let mut i: usize = 0;
        assert(self.kv@.take(0) =~= Seq::<(String, GgufValue)>::empty());
        while i < self.kv.len()
            invariant
                i <= self.kv@.len(),
                m@ == last_values(self.kv@.take(i as int)),
            decreases self.kv@.len() - i,
        {
            proof {
                let next = self.kv@.take(i + 1);
                assert(next.drop_last() =~= self.kv@.take(i as int));
                assert(next.last() == self.kv@[i as int]);
            }
            m.insert(self.kv[i].0.clone(), &self.kv[i].1);
            i += 1;
        }
        assert(self.kv@.take(i as int) =~= self.kv@);
        m
    }

    /// How many bytes lie between the start of a tensor's data and whatever comes next.
    pub fn tensor_physical_span(&self, t: &TensorInfo) -> (r: GgufResult<u64>)
        ensures
            match physical_span(self@, t@) {
                Ok(n) => r is Ok && r->Ok_0 == n,
                Err(e) => r is Err && r->Err_0@ == e,
            },
    {
        let limit: u64 = if self.file_size >= self.data_offset {
            self.file_size - self.data_offset
        } else {
            0
        };
        if t.offset > limit {
            return Err(
                GgufError::OutOfBounds {
                    offset: self.data_offset.saturating_add(t.offset),
                    required: 1,
                    file_size: self.file_size,
                },
            );
        }
        let mut next: u64 = limit;
        let mut i: usize = 0;
        let ghost all = tensors_view(self.tensors@);
        assert(all.take(0) =~= Seq::<TensorView>::empty());
        while i < self.tensors.len()
            invariant
                i <= self.tensors@.len(),
                all == tensors_view(self.tensors@),
                t.offset <= limit,
                t.offset <= next,
                next == next_offset(all.take(i as int), t.offset, limit),
            decreases self.tensors@.len() - i,
        {
            proof {
                assert(all.take(i + 1).drop_last() =~= all.take(i as int));
                assert(all.take(i + 1).last() == all[i as int]);
            }
            let o: u64 = self.tensors[i].offset;
            if t.offset < o && o < next {
                next = o;
            }
            i += 1;
        }
        assert(all.take(i as int) =~= all);
        Ok(next - t.offset)
    }

    /// `size` bytes of `data` from the start of a tensor's data on.
    fn slice_at(&self, data: &[u8], t: &TensorInfo, size: u64) -> (r: GgufResult<Vec<u8>>)
        ensures
            match bytes_at(self@, data@, t@, size as nat) {
                Ok(b) => r is Ok && r->Ok_0@ == b,
                Err(e) => r is Err && r->Err_0@ == e,
            },
    {
        let len: u64 = data.len() as u64;
        let start: u64 = self.data_offset.saturating_add(t.offset);
        let fits: bool = match self.data_offset.checked_add(t.offset) {
            Some(s) => s <= len && size <= len - s,
            None => false,
        };
        if !fits {
            return Err(GgufError::OutOfBounds { offset: start, required: size, file_size: len });
        }
        Ok(slice_to_vec(slice_subrange(data, start as usize, (start + size) as usize)))
    }

    /// The data of a tensor, by the size that its description gives; `data` is the whole file.
    pub fn tensor_data(&self, data: &[u8], t: &TensorInfo) -> (r: GgufResult<Vec<u8>>)
        ensures
            match tensor_bytes(t@) {
                Err(e) => r is Err && r->Err_0@ == e,
                Ok(n) => match bytes_at(self@, data@, t@, n) {
                    Ok(b) => r is Ok && r->Ok_0@ == b,
                    Err(e) => r is Err && r->Err_0@ == e,
                },
            },
    {
        let size: u64 = match t.data_size() {
            Ok(n) => n,
            Err(e) => return Err(e),
        };
        self.slice_at(data, t, size)
    }

    /// The data of a tensor, up to whatever comes next in the file; `data` is the whole file.
    pub fn tensor_data_physical(&self, data: &[u8], t: &TensorInfo) -> (r: GgufResult<Vec<u8>>)
        ensures
            match physical_span(self@, t@) {
                Err(e) => r is Err && r->Err_0@ == e,
                Ok(n) => match bytes_at(self@, data@, t@, n as nat) {
                    Ok(b) => r is Ok && r->Ok_0@ == b,
                    Err(e) => r is Err && r->Err_0@ == e,
                },
            },
    {
        match self.tensor_physical_span(t) {
            Ok(n) => self.slice_at(data, t, n),
            Err(e) => Err(e),
        }
    }
}

// ---------------------------------------------------------------------------------------------
// Mapped files
// ---------------------------------------------------------------------------------------------

/// The size of the head of a file.
pub const HEADER_BYTES: usize = 24;

/// The metadata of a file that is mapped into memory: the whole head is looked at first.
pub open spec fn parse_mapped(data: Seq<u8>) -> Result<FileView, ErrorView> {
    if data.len() < HEADER_BYTES {
        Err(past_end(data, 0, HEADER_BYTES as nat))
    } else {
        let magic = le(data, 0, 4) as u32;
        let version = le(data, 4, 4) as u32;
        let n_tensors = signed(le(data, 8, 8), 0x8000_0000_0000_0000) as i64;
        let n_kv = signed(le(data, 16, 8), 0x8000_0000_0000_0000) as i64;
        if magic != GGUF_MAGIC {
            Err(ErrorView::InvalidMagic(magic))
        } else if version != GGUF_VERSION {
            Err(ErrorView::UnsupportedVersion(version))
        } else if n_tensors < 0 || n_kv < 0 {
            Err(
                ErrorView::InvalidCount {
                    field: "counts"@,
                    value: if n_kv <= n_tensors {
                        n_kv
                    } else {
                        n_tensors
                    },
                },
            )
        } else {
            match parse_file(data) {
                Ok((f, _)) => Ok(f),
                Err(e) => Err(e),
            }
        }
    }
}

impl GgufFile {
    /// The metadata of a file that is mapped into memory.
    pub fn from_mapped(data: &[u8]) -> (r: GgufResult<GgufFile>)
        ensures
            match parse_mapped(data@) {
                Ok(f) => r is Ok && r->Ok_0@ == f,
                Err(e) => r is Err && r->Err_0@ == e,
            },
    {
        if data.len() < HEADER_BYTES {
            return Err(
                GgufError::OutOfBounds {
                    offset: 0,
                    required: HEADER_BYTES as u64,
                    file_size: data.len() as u64,
                },
            );
        }
        let mut c = Cursor::new(data);
        let magic: u32 = match c.u32() {
            Ok(v) => v,
            Err(e) => return Err(e),
        };
        if magic != GGUF_MAGIC {
            return Err(GgufError::InvalidMagic(magic));
        }
        let version: u32 = match c.u32() {
            Ok(v) => v,
            Err(e) => return Err(e),
        };
        if version != GGUF_VERSION {
            return Err(GgufError::UnsupportedVersion(version));
        }
        let n_tensors: i64 = match c.i64() {
            Ok(v) => v,
            Err(e) => return Err(e),
        };
        let n_kv: i64 = match c.i64() {
            Ok(v) => v,
            Err(e) => return Err(e),
        };
        if n_tensors < 0 || n_kv < 0 {
            let value: i64 = if n_kv <= n_tensors {
                n_kv
            } else {
                n_tensors
            };
            return Err(GgufError::InvalidCount { field: "counts", value });
        }
        GgufFile::from_buffer(data)
    }
}

/// Mapping a file and reading it give the same metadata: they can differ only in the error of a
/// damaged head.
pub proof fn mapped_agrees_with_buffer(data: Seq<u8>)
    ensures
        match parse_file(data) {
            Ok((f, _)) => parse_mapped(data) == Ok::<FileView, ErrorView>(f),
            Err(_) => parse_mapped(data) is Err,
        },
{
}

proof fn lemma_next_offset(tensors: Seq<TensorView>, offset: u64, limit: u64)
    requires
        offset <= limit,
    ensures
        offset <= next_offset(tensors, offset, limit) <= limit,
        offset < limit ==> offset < next_offset(tensors, offset, limit),
        forall|i: int|
            0 <= i < tensors.len() && offset < (#[trigger] tensors[i]).offset ==> next_offset(
                tensors,
                offset,
                limit,
            ) <= tensors[i].offset,
    decreases tensors.len(),
{
    if tensors.len() > 0 {
        lemma_next_offset(tensors.drop_last(), offset, limit);
        assert forall|i: int|
            0 <= i < tensors.len() && offset < (#[trigger] tensors[i]).offset implies next_offset(
            tensors,
            offset,
            limit,
        ) <= tensors[i].offset by {
            if i < tensors.len() - 1 {
                assert(tensors.drop_last()[i] == tensors[i]);
            }
        }
    }
}

/// The bytes that belong to a tensor lie in the data section, end where the data of any tensor
/// behind it starts, and are there unless it starts at the end of the file.
pub proof fn spans_do_not_overlap(f: FileView, t: TensorView, i: int)
    requires
        physical_span(f, t) is Ok,
        0 <= i < f.tensors.len(),
    ensures
        t.offset + physical_span(f, t)->Ok_0 <= section_size(f),
        t.offset < f.tensors[i].offset ==> t.offset + physical_span(f, t)->Ok_0
            <= f.tensors[i].offset,
        t.offset < section_size(f) ==> physical_span(f, t)->Ok_0 > 0,
{
    lemma_next_offset(f.tensors, t.offset, section_size(f));
}

} // verus!
