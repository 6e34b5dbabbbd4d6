//! What a file says of a tensor, without its data.
use vstd::prelude::*;
use vstd::string::*;
use crate::error::{ErrorView, GgufError, GgufResult};
use crate::types::{
    ggml_block_bytes, ggml_block_size, ggml_element_size, ggml_is_float, ggml_type_ident, GgmlType,
};

verus! {

/// The description of one tensor.
#[derive(Clone, Debug, PartialEq)]
pub struct TensorInfo {
    /// The tensor's name.
    pub name: String,
    /// The size of each dimension, in the order in which the file has them.
    pub shape: Vec<u64>,
    /// The type of the data.
    pub dtype: GgmlType,
    /// Where the tensor's data starts, counted from the start of the data section.
    pub offset: u64,
}

/// A [`TensorInfo`] with its name and shape as sequences.
pub struct TensorView {
    pub name: Seq<char>,
    pub shape: Seq<u64>,
    pub dtype: GgmlType,
    pub offset: u64,
}

impl View for TensorInfo {
    type V = TensorView;

    open spec fn view(&self) -> TensorView {
        TensorView {
            name: self.name@,
            shape: self.shape@,
            dtype: self.dtype,
            offset: self.offset,
        }
    }
}

/// The product of all dimensions; 1 where there are none.
pub open spec fn product(shape: Seq<u64>) -> nat
    decreases shape.len(),
{
    if shape.len() == 0 {
        1
    } else {
        product(shape.drop_last()) * shape.last() as nat
    }
}

/// A number, or the largest one of 64 bits where it is larger than that.
pub open spec fn saturated(n: nat) -> u64 {
    if n <= u64::MAX {
        n as u64
    } else {
        u64::MAX
    }
}

/// How many elements a tensor has, at most 2^64 - 1.
pub open spec fn element_count(t: TensorView) -> u64 {
    saturated(product(t.shape))
}

/// How many bytes whole blocks of a type take, where its layout is known.
pub open spec fn blocks_bytes(elements: u64, ty: GgmlType) -> nat
    recommends
        ggml_block_size(ty) is Some,
{
    (elements / ggml_block_size(ty)->Some_0) as nat * ggml_block_bytes(ty)->Some_0 as nat
}

/// The text by which an unknown type is reported.
pub open spec fn unknown_dtype(ty: GgmlType) -> Seq<char> {
    "unknown dtype: "@ + ggml_type_ident(ty)
}

/// The size of a tensor's data in bytes, or why it has none: the layout of its type is not known,
/// its elements do not fill whole blocks, or the size does not fit in 64 bits.
pub open spec fn tensor_bytes(t: TensorView) -> Result<nat, ErrorView> {
    match ggml_block_size(t.dtype) {
        None => Err(ErrorView::InferenceError(unknown_dtype(t.dtype))),
        Some(block) => if element_count(t) % block != 0 || blocks_bytes(element_count(t), t.dtype)
            > u64::MAX {
            Err(
                ErrorView::InvalidTensorShape {
                    name: t.name,
                    elements: element_count(t),
                    block,
                },
            )
        } else {
            Ok(blocks_bytes(element_count(t), t.dtype))
        },
    }
}

/// The product, or the largest number where it does not fit.
pub fn mul_saturating(a: u64, b: u64) -> (r: u64)
    ensures
        r == saturated(a as nat * b as nat),
{
    match a.checked_mul(b) {
        Some(p) => p,
        None => u64::MAX,
    }
}

/// Cutting a factor off at the largest number changes nothing in a product that is cut off.
pub proof fn lemma_saturated_product(p: nat, d: u64)
    ensures
        saturated(saturated(p) as nat * d as nat) == saturated(p * d as nat),
{
    if p > u64::MAX {
        if d == 0 {
            assert(p * 0 == 0) by (nonlinear_arith);
            assert(saturated(p) * 0 == 0) by (nonlinear_arith);
        } else {
            assert(p * d > u64::MAX) by (nonlinear_arith)
                requires
                    p > u64::MAX,
                    d >= 1,
            ;
            assert(saturated(p) * d >= u64::MAX) by (nonlinear_arith)
                requires
                    saturated(p) == u64::MAX,
                    d >= 1,
            ;
        }
    }
}

/// The message that a type's layout is not known.
pub fn unknown_dtype_error(ty: GgmlType) -> (e: GgufError)
    ensures
        e@ == ErrorView::InferenceError(unknown_dtype(ty)),
{
    let mut s = String::new();
    s.append("unknown dtype: ");
    let name = ty.ident();
    s.append(name.as_str());
    assert(s@ =~= unknown_dtype(ty));
    GgufError::InferenceError(s)
}

impl TensorInfo {
    /// How many elements the tensor has: the product of its dimensions, 1 where there are none,
    /// and the largest number where the product does not fit.
    pub fn num_elements(&self) -> (r: u64)
        ensures
            r == element_count(self@),
    {
        let mut acc: u64 = 1;
        let mut i: usize = 0;
        assert(self.shape@.take(0) =~= Seq::<u64>::empty());
        while i < self.shape.len()
            invariant
                i <= self.shape@.len(),
                acc == saturated(product(self.shape@.take(i as int))),
            decreases self.shape@.len() - i,
        {
            let d: u64 = self.shape[i];
            proof {
                let p = product(self.shape@.take(i as int));
                let next = self.shape@.take(i + 1);
                assert(next.drop_last() =~= self.shape@.take(i as int));
                assert(next.last() == d);
                lemma_saturated_product(p, d);
            }
            acc = mul_saturating(acc, d);
            i += 1;
        }
        assert(self.shape@.take(i as int) =~= self.shape@);
        acc
    }

    /// The size of one element, where single elements have one.
    pub fn est_element_size(&self) -> (r: Option<u64>)
        ensures
            r == ggml_element_size(self.dtype),
    {
        self.dtype.element_size()
    }

    /// The size of the data where the elements are floating point numbers, at most 2^64 - 1.
    pub fn est_data_size(&self) -> (r: Option<u64>)
        ensures
            r == (if ggml_is_float(self.dtype) {
                Some(
                    saturated(
                        element_count(self@) as nat * ggml_element_size(self.dtype)->Some_0 as nat,
                    ),
                )
            } else {
                None::<u64>
            }),
    {
        if self.dtype.is_floating_point() {
            match self.dtype.element_size() {
                Some(size) => Some(mul_saturating(self.num_elements(), size)),
                None => None,
            }
        } else {
            None
        }
    }

    /// The size of the data: the number of whole blocks times the bytes of one. It fails where the
    /// type's layout is not known, where the elements do not fill whole blocks, and where the size
    /// does not fit in 64 bits.
    pub fn data_size(&self) -> (r: GgufResult<u64>)
        ensures
            match tensor_bytes(self@) {
                Ok(n) => r is Ok && r->Ok_0 == n,
                Err(e) => r is Err && r->Err_0@ == e,
            },
    {
        let n: u64 = self.num_elements();
        let block: u64 = match self.dtype.block_size() {
            Some(b) => b,
            None => return Err(unknown_dtype_error(self.dtype)),
        };
        let bytes: u64 = match self.dtype.block_bytes() {
            Some(b) => b,
            None => return Err(unknown_dtype_error(self.dtype)),
        };
        if n % block == 0 {
            match (n / block).checked_mul(bytes) {
                Some(size) => return Ok(size),
                None => {},
            }
        }
        Err(GgufError::InvalidTensorShape { name: self.name.clone(), elements: n, block })
    }
}

} // verus!
