//! What can go wrong, and how it is reported.
use vstd::prelude::*;
use vstd::string::*;
use crate::text::{dec, dec_int, hex, push_dec, push_dec_int, push_hex};

verus! {

/// A failure of reading a file or of running a model.
#[derive(Debug, PartialEq, Eq)]
pub enum GgufError {
    /// A file could not be read; the text is the system's own.
    Io(String),
    /// A file could not be mapped into memory.
    Mmap(String),
    /// The file does not start with the magic number.
    InvalidMagic(u32),
    /// The file has a format version that is not read.
    UnsupportedVersion(u32),
    /// A read past the end: the file is truncated or damaged.
    OutOfBounds { offset: u64, required: u64, file_size: u64 },
    /// A value type tag that is not defined.
    InvalidGgufType(i32),
    /// An array whose elements are arrays.
    InvalidArrayElemType(i32),
    /// A string whose bytes are not UTF-8.
    InvalidStringLength(u64),
    /// A negative dimension, or (with dimension -1) too many of them.
    InvalidTensorDim { name: String, dim: i64 },
    /// A count that is negative or larger than the file.
    InvalidCount { field: &'static str, value: i64 },
    /// A model cannot be run on what it was given.
    InferenceError(String),
    /// A tensor that does not fill whole blocks of its type.
    InvalidTensorShape { name: String, elements: u64, block: u64 },
    /// A tensor (or a metadata key) that the model needs is not in the file.
    MissingTensor { name: String, kind: &'static str },
    /// Quantised data of the wrong length.
    DequantError { dtype: String, expected: u64, actual: u64 },
    /// An architecture that is not run.
    UnsupportedArchitecture(String),
    /// A vocabulary that cannot be used.
    TokenizerError(String),
    /// Anything else.
    Other(String),
}

/// A result of this library.
pub type GgufResult<T> = Result<T, GgufError>;

/// A [`GgufError`] with its strings as sequences of characters.
pub enum ErrorView {
    Io(Seq<char>),
    Mmap(Seq<char>),
    InvalidMagic(u32),
    UnsupportedVersion(u32),
    OutOfBounds { offset: u64, required: u64, file_size: u64 },
    InvalidGgufType(i32),
    InvalidArrayElemType(i32),
    InvalidStringLength(u64),
    InvalidTensorDim { name: Seq<char>, dim: i64 },
    InvalidCount { field: Seq<char>, value: i64 },
    InferenceError(Seq<char>),
    InvalidTensorShape { name: Seq<char>, elements: u64, block: u64 },
    MissingTensor { name: Seq<char>, kind: Seq<char> },
    DequantError { dtype: Seq<char>, expected: u64, actual: u64 },
    UnsupportedArchitecture(Seq<char>),
    TokenizerError(Seq<char>),
    Other(Seq<char>),
}

impl View for GgufError {
    type V = ErrorView;

    open spec fn view(&self) -> ErrorView {
        match *self {
            GgufError::Io(s) => ErrorView::Io(s@),
            GgufError::Mmap(s) => ErrorView::Mmap(s@),
            GgufError::InvalidMagic(m) => ErrorView::InvalidMagic(m),
            GgufError::UnsupportedVersion(v) => ErrorView::UnsupportedVersion(v),
            GgufError::OutOfBounds { offset, required, file_size } => ErrorView::OutOfBounds {
                offset,
                required,
                file_size,
            },
            GgufError::InvalidGgufType(t) => ErrorView::InvalidGgufType(t),
            GgufError::InvalidArrayElemType(t) => ErrorView::InvalidArrayElemType(t),
            GgufError::InvalidStringLength(n) => ErrorView::InvalidStringLength(n),
            GgufError::InvalidTensorDim { name, dim } => ErrorView::InvalidTensorDim {
                name: name@,
                dim,
            },
            GgufError::InvalidCount { field, value } => ErrorView::InvalidCount {
                field: field@,
                value,
            },
            GgufError::InferenceError(s) => ErrorView::InferenceError(s@),
            GgufError::InvalidTensorShape { name, elements, block } =>
                ErrorView::InvalidTensorShape { name: name@, elements, block },
            GgufError::MissingTensor { name, kind } => ErrorView::MissingTensor {
                name: name@,
                kind: kind@,
            },
            GgufError::DequantError { dtype, expected, actual } => ErrorView::DequantError {
                dtype: dtype@,
                expected,
                actual,
            },
            GgufError::UnsupportedArchitecture(s) => ErrorView::UnsupportedArchitecture(s@),
            GgufError::TokenizerError(s) => ErrorView::TokenizerError(s@),
            GgufError::Other(s) => ErrorView::Other(s@),
        }
    }
}

/// How many of `required` bytes are still there from `offset` on.
pub open spec fn bytes_left(offset: u64, required: u64, file_size: u64) -> nat {
    let left = if file_size >= offset {
        (file_size - offset) as nat
    } else {
        0
    };
    if left <= required {
        left
    } else {
        required as nat
    }
}

/// The message of an error.
pub open spec fn error_text(e: ErrorView) -> Seq<char> {
    match e {
        ErrorView::Io(s) => "I/O error: "@ + s,
        ErrorView::Mmap(s) => "mmap error: "@ + s,
        ErrorView::InvalidMagic(m) => "invalid GGUF magic number: 0x"@ + hex(m as nat, 8)
            + " (expected 0x46554747)"@,
        ErrorView::UnsupportedVersion(v) => "unsupported GGUF version: "@ + dec(v as nat)
            + " (expected 3)"@,
        ErrorView::OutOfBounds { offset, required, file_size } => "read out of bounds at offset "@
            + dec(offset as nat) + ": need "@ + dec(required as nat) + " bytes but only "@ + dec(
            bytes_left(offset, required, file_size),
        ) + " remain (file size "@ + dec(file_size as nat) + ")"@,
        ErrorView::InvalidGgufType(t) => "invalid gguf_type value: "@ + dec_int(t as int),
        ErrorView::InvalidArrayElemType(t) => "invalid array element type: "@ + dec_int(t as int)
            + " (nested arrays are not allowed)"@,
        ErrorView::InvalidStringLength(n) => "invalid string length: "@ + dec(n as nat)
            + " (exceeds remaining bytes or bad UTF-8)"@,
        ErrorView::InvalidTensorDim { name, dim } => "tensor '"@ + name
            + "' has invalid dimension: "@ + dec_int(dim as int),
        ErrorView::InvalidCount { field, value } => "invalid count for field '"@ + field + "': "@
            + dec_int(value as int),
        ErrorView::InferenceError(s) => "inference error: "@ + s,
        ErrorView::InvalidTensorShape { name, elements, block } => "tensor '"@ + name + "' has "@
            + dec(elements as nat) + " elements, not a multiple of the block size "@ + dec(
            block as nat,
        ),
        ErrorView::MissingTensor { name, kind } => "missing "@ + kind + ": "@ + name,
        ErrorView::DequantError { dtype, expected, actual } => "cannot dequantize "@ + dtype
            + ": expected "@ + dec(expected as nat) + " bytes but got "@ + dec(actual as nat),
        ErrorView::UnsupportedArchitecture(s) => "unsupported architecture: "@ + s,
        ErrorView::TokenizerError(s) => "tokenizer error: "@ + s,
        ErrorView::Other(s) => s,
    }
}

impl GgufError {
    /// The message of this error.
    pub fn to_string(&self) -> (r: String)
        ensures
            r@ == error_text(self@),
    {
        let mut r = String::new();
        match self {
            GgufError::Io(s) => {
                r.append("I/O error: ");
                r.append(s.as_str());
            },
            GgufError::Mmap(s) => {
                r.append("mmap error: ");
                r.append(s.as_str());
            },
            GgufError::InvalidMagic(m) => {
                r.append("invalid GGUF magic number: 0x");
                push_hex(&mut r, *m as u64, 8);
                r.append(" (expected 0x46554747)");
            },
            GgufError::UnsupportedVersion(v) => {
                r.append("unsupported GGUF version: ");
                push_dec(&mut r, *v as u64);
                r.append(" (expected 3)");
            },
            GgufError::OutOfBounds { offset, required, file_size } => {
                let left: u64 = file_size.saturating_sub(*offset);
                let shown: u64 = if left <= *required {
                    left
                } else {
                    *required
                };
                r.append("read out of bounds at offset ");
                push_dec(&mut r, *offset);
                r.append(": need ");
                push_dec(&mut r, *required);
                r.append(" bytes but only ");
                push_dec(&mut r, shown);
                r.append(" remain (file size ");
                push_dec(&mut r, *file_size);
                r.append(")");
            },
            GgufError::InvalidGgufType(t) => {
                r.append("invalid gguf_type value: ");
                push_dec_int(&mut r, *t as i64);
            },
            GgufError::InvalidArrayElemType(t) => {
                r.append("invalid array element type: ");
                push_dec_int(&mut r, *t as i64);
                r.append(" (nested arrays are not allowed)");
            },
            GgufError::InvalidStringLength(n) => {
                r.append("invalid string length: ");
                push_dec(&mut r, *n);
                r.append(" (exceeds remaining bytes or bad UTF-8)");
            },
            GgufError::InvalidTensorDim { name, dim } => {
                r.append("tensor '");
                r.append(name.as_str());
                r.append("' has invalid dimension: ");
                push_dec_int(&mut r, *dim);
            },
            GgufError::InvalidCount { field, value } => {
                r.append("invalid count for field '");
                r.append(field);
                r.append("': ");
                push_dec_int(&mut r, *value);
            },
            GgufError::InferenceError(s) => {
                r.append("inference error: ");
                r.append(s.as_str());
            },
            GgufError::InvalidTensorShape { name, elements, block } => {
                r.append("tensor '");
                r.append(name.as_str());
                r.append("' has ");
                push_dec(&mut r, *elements);
                r.append(" elements, not a multiple of the block size ");
                push_dec(&mut r, *block);
            },
            GgufError::MissingTensor { name, kind } => {
                r.append("missing ");
                r.append(kind);
                r.append(": ");
                r.append(name.as_str());
            },
            GgufError::DequantError { dtype, expected, actual } => {
                r.append("cannot dequantize ");
                r.append(dtype.as_str());
                r.append(": expected ");
                push_dec(&mut r, *expected);
                r.append(" bytes but got ");
                push_dec(&mut r, *actual);
            },
            GgufError::UnsupportedArchitecture(s) => {
                r.append("unsupported architecture: ");
                r.append(s.as_str());
            },
            GgufError::TokenizerError(s) => {
                r.append("tokenizer error: ");
                r.append(s.as_str());
            },
            GgufError::Other(s) => {
                r.append(s.as_str());
            },
        }
        assert(r@ =~= error_text(self@));
        r
    }
}

} // verus!
