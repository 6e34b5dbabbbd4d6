//! Where the numbers of a tensor are, and in which format they are really stored.
//!
//! Some files mark a tensor with one quantised type and store it in another. The number of bytes up
//! to the next tensor tells which.
use vstd::prelude::*;
use vstd::string::*;
use crate::error::{ErrorView, GgufError, GgufResult};
use crate::file::{
    bytes_at, first_tensor, physical_span, FileView, GgufFile,
};
use crate::tensor::{
    element_count, mul_saturating, saturated, tensor_bytes, TensorInfo, TensorView,
};
use crate::text::{concat, dec, owned, push_dec};
use crate::types::{ggml_block_bytes, ggml_block_size, ggml_type_ident, GgmlType};
use crate::infer::model::llama::missing_tensor;
use crate::infer::quant::dequant_error;

verus! {

// ---------------------------------------------------------------------------------------------
// The format by its density
// ---------------------------------------------------------------------------------------------

/// The quantised types: those that store more than one element in a block.
pub open spec fn is_quantized(ty: GgmlType) -> bool {
    match ggml_block_size(ty) {
        Some(n) => n > 1,
        None => false,
    }
}

/// The type that stores 256 elements in `bytes` bytes.
pub open spec fn type_of_density(bytes: nat) -> Option<GgmlType> {
    if bytes == 84 {
        Some(GgmlType::Q2_K)
    } else if bytes == 110 {
        Some(GgmlType::Q3_K_S)
    } else if bytes == 114 {
        Some(GgmlType::Q3_K_M)
    } else if bytes == 144 {
        Some(GgmlType::Q4_K)
    } else if bytes == 176 {
        Some(GgmlType::Q5_K)
    } else if bytes == 210 {
        Some(GgmlType::Q6_K)
    } else if bytes == 292 {
        Some(GgmlType::Q8_K)
    } else {
        None
    }
}

/// How many blocks of the size of the marked type `n` elements take, and how many such blocks hold
/// 256 elements.
pub open spec fn marked_blocks(n: u64, marked: GgmlType) -> (nat, nat) {
    if ggml_block_size(marked) == Some(32u64) {
        ((n / 32) as nat, 8)
    } else {
        ((n / 256) as nat, 1)
    }
}

/// The most bytes of padding behind a tensor.
pub const MAX_PADDING: u64 = 256;

/// The format in which `n` elements are stored in `span` bytes, where the marked type is a
/// quantised one and the bytes for each 256 elements are those of a known type. More than
/// [`MAX_PADDING`] bytes that are left over speak against it.
pub open spec fn stored_type(span: u64, n: u64, marked: GgmlType) -> Option<GgmlType> {
    let (blocks, per256) = marked_blocks(n, marked);
    if !is_quantized(marked) || blocks == 0 {
        None
    } else if (span as nat * per256) % blocks / per256 > MAX_PADDING {
        None
    } else {
        type_of_density((span as nat * per256) / blocks)
    }
}

/// The format in which `n` elements marked with the type `marked` are stored in `span` bytes, where
/// it can be told.
pub fn infer_k_quant_dtype(span: u64, n: u64, marked: GgmlType) -> (r: Option<GgmlType>)
    ensures
        r == stored_type(span, n, marked),
{
    let size: u64 = match marked.block_size() {
        Some(s) => s,
        None => return None,
    };
    if size <= 1 {
        return None;
    }
    let per256: u128 = if size == 32 {
        8
    } else {
        1
    };
    let blocks: u128 = if size == 32 {
        (n / 32) as u128
    } else {
        (n / 256) as u128
    };
    if blocks == 0 {
        return None;
    }
    let total: u128 = span as u128 * per256;
    if total % blocks / per256 > MAX_PADDING as u128 {
        return None;
    }
    let bytes: u128 = total / blocks;
    if bytes == 84 {
        Some(GgmlType::Q2_K)
    } else if bytes == 110 {
        Some(GgmlType::Q3_K_S)
    } else if bytes == 114 {
        Some(GgmlType::Q3_K_M)
    } else if bytes == 144 {
        Some(GgmlType::Q4_K)
    } else if bytes == 176 {
        Some(GgmlType::Q5_K)
    } else if bytes == 210 {
        Some(GgmlType::Q6_K)
    } else if bytes == 292 {
        Some(GgmlType::Q8_K)
    } else {
        None
    }
}

/// A tensor that is stored whole in a known type is recognised as that, whatever quantised type it
/// is marked with, and up to [`MAX_PADDING`] bytes of padding do not matter as long as they are
/// fewer than the groups of 256 elements.
pub proof fn stored_type_is_recognised(groups: u64, padding: u64, actual: GgmlType, marked: GgmlType)
    requires
        groups > 0,
        groups * 256 <= u64::MAX,
        padding < groups,
        padding <= MAX_PADDING,
        is_quantized(marked),
        ggml_block_bytes(actual) is Some,
        type_of_density(ggml_block_bytes(actual)->Some_0 as nat) == Some(actual),
        groups * ggml_block_bytes(actual)->Some_0 + padding <= u64::MAX,
    ensures
        stored_type(
            (groups * ggml_block_bytes(actual)->Some_0 + padding) as u64,
            (groups * 256) as u64,
            marked,
        ) == Some(actual),
{
    let bytes = ggml_block_bytes(actual)->Some_0 as int;
    let span = groups * bytes + padding;
    let n: u64 = (groups * 256) as u64;
    let (blocks, per256) = marked_blocks(n, marked);
    assert(blocks == groups * per256);
    let p = per256 as int;
    assert(span * p == blocks * bytes + padding * p) by (nonlinear_arith)
        requires
            span == groups * bytes + padding,
            blocks == groups * p,
    ;
    assert(0 <= padding * p < blocks) by (nonlinear_arith)
        requires
            blocks == groups * p,
            0 <= padding < groups,
            p > 0,
    ;
    vstd::arithmetic::div_mod::lemma_fundamental_div_mod_converse(
        span * p,
        blocks as int,
        bytes,
        padding * p,
    );
    vstd::arithmetic::div_mod::lemma_div_multiples_vanish(padding as int, p);
    assert(p * padding == padding * p) by (nonlinear_arith);
}

// ---------------------------------------------------------------------------------------------
// The bytes of a tensor
// ---------------------------------------------------------------------------------------------

/// Which format to read a tensor in, and whether to take its bytes up to the next tensor rather
/// than by the marked size.
pub open spec fn reading_plan(t: TensorView, span: u64) -> Result<(GgmlType, bool), ErrorView> {
    match ggml_block_bytes(t.dtype) {
        None => Err(dequant_error(t.dtype, 0, 0)),
        Some(bytes) => {
            let expected = (element_count(t) / ggml_block_size(t.dtype)->Some_0) as nat * bytes as nat;
            if span == expected {
                Ok((t.dtype, false))
            } else {
                match stored_type(span, element_count(t), t.dtype) {
                    Some(ty) => Ok((ty, true)),
                    None => Ok((t.dtype, false)),
                }
            }
        },
    }
}

/// The bytes of a tensor's weights and the format that they are in.
pub struct WeightsView {
    pub dtype: GgmlType,
    pub bytes: Seq<u8>,
    pub elements: u64,
}

/// The bytes of a tensor's weights, the format that they are in, and how many elements they hold.
#[derive(Debug)]
pub struct Weights {
    pub dtype: GgmlType,
    pub bytes: Vec<u8>,
    pub elements: u64,
}

impl View for Weights {
    type V = WeightsView;

    open spec fn view(&self) -> WeightsView {
        WeightsView { dtype: self.dtype, bytes: self.bytes@, elements: self.elements }
    }
}

/// How many whole elements bytes hold in a format.
pub open spec fn elements_in(len: nat, ty: GgmlType) -> nat {
    (len / ggml_block_bytes(ty)->Some_0 as nat) * ggml_block_size(ty)->Some_0 as nat
}

/// The bytes of a tensor in the format that it is really stored in; bytes of padding are cut off.
pub open spec fn weights_of(f: FileView, data: Seq<u8>, t: TensorView) -> Result<
    WeightsView,
    ErrorView,
> {
    match physical_span(f, t) {
        Err(e) => Err(e),
        Ok(span) => match reading_plan(t, span) {
            Err(e) => Err(e),
            Ok((dtype, physical)) => {
                let bytes = if physical {
                    match bytes_at(f, data, t, span as nat) {
                        Err(e) => Err(e),
                        Ok(b) => Ok(
                            b.take(
                                (element_count(t) / 256) as int * ggml_block_bytes(dtype)->Some_0
                                    as int,
                            ),
                        ),
                    }
                } else {
                    match tensor_bytes(t) {
                        Err(e) => Err(e),
                        Ok(n) => bytes_at(f, data, t, n),
                    }
                };
                match bytes {
                    Err(e) => Err(e),
                    Ok(b) => Ok(
                        WeightsView {
                            dtype,
                            bytes: b,
                            elements: saturated(elements_in(b.len(), dtype)),
                        },
                    ),
                }
            },
        },
    }
}

/// A recognised format never asks for more bytes than there are.
pub(crate) proof fn lemma_exact_fits(span: u64, n: u64, marked: GgmlType)
    requires
        stored_type(span, n, marked) is Some,
    ensures
        ggml_block_bytes(stored_type(span, n, marked)->Some_0) is Some,
        ggml_block_size(stored_type(span, n, marked)->Some_0) == Some(256u64),
        (n / 256) as int * ggml_block_bytes(stored_type(span, n, marked)->Some_0)->Some_0 as int
            <= span,
{
    let (blocks, per256) = marked_blocks(n, marked);
    let ty = stored_type(span, n, marked)->Some_0;
    let total = span as nat * per256;
    let bytes = total / blocks;
    assert(ggml_block_bytes(ty) == Some(bytes as u64));
    vstd::arithmetic::div_mod::lemma_fundamental_div_mod(total as int, blocks as int);
    assert(blocks * bytes <= total) by (nonlinear_arith)
        requires
            total == blocks * bytes + total % blocks,
            total % blocks >= 0,
    ;
    let groups = (n / 256) as int;
    assert(groups * per256 <= blocks) by {
        if per256 == 8 {
            assert(8 * (n / 256) <= n / 32);
        }
    }
    assert(groups * bytes <= span) by (nonlinear_arith)
        requires
            groups * per256 <= blocks,
            blocks * bytes <= span * per256,
            per256 >= 1,
            bytes >= 0,
            groups >= 0,
    ;
}

fn no_layout(ty: GgmlType) -> (e: GgufError)
    ensures
        e@ == dequant_error(ty, 0, 0),
{
    GgufError::DequantError { dtype: ty.ident(), expected: 0, actual: 0 }
}

/// Which format to read a tensor in, and whether by the bytes up to the next tensor.
fn plan_reading(t: &TensorInfo, span: u64) -> (r: GgufResult<(GgmlType, bool)>)
    ensures
        match reading_plan(t@, span) {
            Ok(p) => r is Ok && r->Ok_0 == p,
            Err(e) => r is Err && r->Err_0@ == e,
        },
{
    let n: u64 = t.num_elements();
    let bytes: u64 = match t.dtype.block_bytes() {
        Some(b) => b,
        None => return Err(no_layout(t.dtype)),
    };
    let size: u64 = match t.dtype.block_size() {
        Some(s) => s,
        None => return Err(no_layout(t.dtype)),
    };
    let same = match (n / size).checked_mul(bytes) {
        Some(expected) => expected == span,
        None => false,
    };
    if same {
        return Ok((t.dtype, false));
    }
    match infer_k_quant_dtype(span, n, t.dtype) {
        Some(ty) => Ok((ty, true)),
        None => Ok((t.dtype, false)),
    }
}

/// The bytes of a tensor in the format that it is really stored in; `data` is the whole file.
pub fn dequant_tensor_physical(file: &GgufFile, data: &[u8], t: &TensorInfo) -> (r: GgufResult<
    Weights,
>)
    ensures
        match weights_of(file@, data@, t@) {
            Ok(w) => r is Ok && r->Ok_0@ == w,
            Err(e) => r is Err && r->Err_0@ == e,
        },
{
    let span: u64 = match file.tensor_physical_span(t) {
        Ok(s) => s,
        Err(e) => return Err(e),
    };
    let (dtype, physical) = match plan_reading(t, span) {
        Ok(p) => p,
        Err(e) => return Err(e),
    };
    proof {
        if physical {
            lemma_exact_fits(span, element_count(t@), t@.dtype);
        }
    }
    let size: u64 = match dtype.block_size() {
        Some(s) => s,
        None => return Err(no_layout(dtype)),
    };
    let block: u64 = match dtype.block_bytes() {
        Some(b) => b,
        None => return Err(no_layout(dtype)),
    };
    let bytes: Vec<u8> = if physical {
        let mut phys: Vec<u8> = match file.tensor_data_physical(data, t) {
            Ok(b) => b,
            Err(e) => return Err(e),
        };
        let groups: u64 = t.num_elements() / 256;
        let exact: u64 = groups * block;
        assert(phys@.len() == span);
        phys.truncate(exact as usize);
        phys
    } else {
        match file.tensor_data(data, t) {
            Ok(b) => b,
            Err(e) => return Err(e),
        }
    };
    let blocks: u64 = bytes.len() as u64 / block;
    Ok(Weights { dtype, elements: mul_saturating(blocks, size), bytes })
}

/// The error of a tensor that holds another number of elements than it should.
pub open spec fn length_text(
    name: Seq<char>,
    len: u64,
    n: u64,
    dtype: GgmlType,
    span: u64,
) -> Seq<char> {
    "materialize("@ + name + "): dequantized length "@ + dec(len as nat) + " != num_elements "@ + dec(
        n as nat,
    ) + " (dtype="@ + ggml_type_ident(dtype) + ", span="@ + dec(span as nat)
        + ")；header size 与物理布局不一致，数据可能被截断"@
}

/// The weights of the tensor `name`: all of its elements, or an error.
pub open spec fn named_weights(f: FileView, data: Seq<u8>, name: Seq<char>) -> Result<
    WeightsView,
    ErrorView,
> {
    match first_tensor(f.tensors, name) {
        None => Err(missing_tensor(name)),
        Some(t) => match weights_of(f, data, t) {
            Err(e) => Err(e),
            Ok(w) => if w.elements == element_count(t) {
                Ok(w)
            } else {
                Err(
                    ErrorView::InferenceError(
                        length_text(
                            name,
                            w.elements,
                            element_count(t),
                            t.dtype,
                            physical_span(f, t)->Ok_0,
                        ),
                    ),
                )
            },
        },
    }
}

/// The weights of the tensor `name`; `data` is the whole file.
pub fn materialize(file: &GgufFile, data: &[u8], name: &str) -> (r: GgufResult<Weights>)
    ensures
        match named_weights(file@, data@, name@) {
            Ok(w) => r is Ok && r->Ok_0@ == w,
            Err(e) => r is Err && r->Err_0@ == e,
        },
{
    let t = match file.find_tensor(name) {
        Some(t) => t,
        None => return Err(GgufError::MissingTensor { name: owned(name), kind: "tensor" }),
    };
    let w = match dequant_tensor_physical(file, data, t) {
        Ok(w) => w,
        Err(e) => return Err(e),
    };
    let n: u64 = t.num_elements();
    if w.elements != n {
        let span: u64 = match file.tensor_physical_span(t) {
            Ok(s) => s,
            Err(e) => return Err(e),
        };
        let mut m = concat("materialize(", name);
        m.append("): dequantized length ");
        push_dec(&mut m, w.elements);
        m.append(" != num_elements ");
        push_dec(&mut m, n);
        m.append(" (dtype=");
        let ident = t.dtype.ident();
        m.append(ident.as_str());
        m.append(", span=");
        push_dec(&mut m, span);
        m.append(")；header size 与物理布局不一致，数据可能被截断");
        return Err(GgufError::InferenceError(m));
    }
    Ok(w)
}

// ---------------------------------------------------------------------------------------------
// One token's row
// ---------------------------------------------------------------------------------------------

/// The error of a token that has no row in the embedding.
pub open spec fn embed_text(token: u32, dim: u32, len: u64) -> Seq<char> {
    "embed out of bounds: tok="@ + dec(token as nat) + ", base="@ + dec(token as nat * dim as nat)
        + ", d="@ + dec(dim as nat) + ", w.len()="@ + dec(len as nat)
}

/// Where the row of a token starts in an embedding of `len` numbers with rows of `dim`.
pub fn embed_row(token: u32, dim: u32, len: u64) -> (r: GgufResult<u64>)
    ensures
        token as nat * dim as nat + dim <= len ==> r is Ok && r->Ok_0 == token as nat * dim as nat,
        token as nat * dim as nat + dim > len ==> r is Err && r->Err_0@
            == ErrorView::InferenceError(embed_text(token, dim, len)),
{
    assert(token * dim <= 0xffff_ffff * 0xffff_ffff) by (nonlinear_arith)
        requires
            token <= 0xffff_ffff,
            dim <= 0xffff_ffff,
    ;
    let base: u64 = token as u64 * dim as u64;
    if base + dim as u64 > len {
        let mut m = owned("embed out of bounds: tok=");
        push_dec(&mut m, token as u64);
        m.append(", base=");
        push_dec(&mut m, base);
        m.append(", d=");
        push_dec(&mut m, dim as u64);
        m.append(", w.len()=");
        push_dec(&mut m, len);
        return Err(GgufError::InferenceError(m));
    }
    Ok(base)
}

} // verus!
