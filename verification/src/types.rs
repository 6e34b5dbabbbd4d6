//! The types of metadata values and of tensor data, and the metadata values themselves.
use vstd::prelude::*;
use vstd::string::*;
use vstd::arithmetic::power2::pow2;
use crate::error::{ErrorView, GgufError};
use crate::float::{
    f32_bits_to_f64, f64_finite, f64_from_i64, f64_from_u64, f64_nan, f64_negative, f64_of_f32, f64_of_int,
    f64_small_integer, f64_units,
};
use crate::text::{dec, dec_int, owned, push_dec, push_dec_int};

verus! {

/// The type of a metadata value.
#[derive(Clone, Copy, PartialEq, Eq, Debug, Structural)]
pub enum GgufType {
    Uint8,
    Int8,
    Uint16,
    Int16,
    Uint32,
    Int32,
    F32,
    Bool,
    String,
    Array,
    Uint64,
    Int64,
    F64,
}

/// The value type with a given tag, if there is one.
pub open spec fn gguf_type_of(tag: int) -> Option<GgufType> {
    if tag == 0 {
        Some(GgufType::Uint8)
    } else if tag == 1 {
        Some(GgufType::Int8)
    } else if tag == 2 {
        Some(GgufType::Uint16)
    } else if tag == 3 {
        Some(GgufType::Int16)
    } else if tag == 4 {
        Some(GgufType::Uint32)
    } else if tag == 5 {
        Some(GgufType::Int32)
    } else if tag == 6 {
        Some(GgufType::F32)
    } else if tag == 7 {
        Some(GgufType::Bool)
    } else if tag == 8 {
        Some(GgufType::String)
    } else if tag == 9 {
        Some(GgufType::Array)
    } else if tag == 10 {
        Some(GgufType::Uint64)
    } else if tag == 11 {
        Some(GgufType::Int64)
    } else if tag == 12 {
        Some(GgufType::F64)
    } else {
        None
    }
}

/// The tag of a value type.
pub open spec fn gguf_tag(ty: GgufType) -> int {
    match ty {
        GgufType::Uint8 => 0,
        GgufType::Int8 => 1,
        GgufType::Uint16 => 2,
        GgufType::Int16 => 3,
        GgufType::Uint32 => 4,
        GgufType::Int32 => 5,
        GgufType::F32 => 6,
        GgufType::Bool => 7,
        GgufType::String => 8,
        GgufType::Array => 9,
        GgufType::Uint64 => 10,
        GgufType::Int64 => 11,
        GgufType::F64 => 12,
    }
}

/// The name of a value type.
pub open spec fn gguf_type_name(ty: GgufType) -> Seq<char> {
    match ty {
        GgufType::Uint8 => "uint8"@,
        GgufType::Int8 => "int8"@,
        GgufType::Uint16 => "uint16"@,
        GgufType::Int16 => "int16"@,
        GgufType::Uint32 => "uint32"@,
        GgufType::Int32 => "int32"@,
        GgufType::F32 => "float32"@,
        GgufType::Bool => "bool"@,
        GgufType::String => "string"@,
        GgufType::Array => "array"@,
        GgufType::Uint64 => "uint64"@,
        GgufType::Int64 => "int64"@,
        GgufType::F64 => "float64"@,
    }
}

/// The name of a value type in code.
pub open spec fn gguf_type_ident(ty: GgufType) -> Seq<char> {
    match ty {
        GgufType::Uint8 => "Uint8"@,
        GgufType::Int8 => "Int8"@,
        GgufType::Uint16 => "Uint16"@,
        GgufType::Int16 => "Int16"@,
        GgufType::Uint32 => "Uint32"@,
        GgufType::Int32 => "Int32"@,
        GgufType::F32 => "F32"@,
        GgufType::Bool => "Bool"@,
        GgufType::String => "String"@,
        GgufType::Array => "Array"@,
        GgufType::Uint64 => "Uint64"@,
        GgufType::Int64 => "Int64"@,
        GgufType::F64 => "F64"@,
    }
}

/// The fewest bytes that a value of a type takes in a file; an array has no lower bound.
pub open spec fn gguf_min_size(ty: GgufType) -> nat {
    match ty {
        GgufType::Uint8 | GgufType::Int8 | GgufType::Bool => 1,
        GgufType::Uint16 | GgufType::Int16 => 2,
        GgufType::Uint32 | GgufType::Int32 | GgufType::F32 => 4,
        GgufType::Uint64 | GgufType::Int64 | GgufType::F64 => 8,
        GgufType::String => 8,
        GgufType::Array => 0,
    }
}

impl GgufType {
    /// The value type with tag `v`.
    pub fn from_i32(v: i32) -> (r: Result<GgufType, GgufError>)
        ensures
            match gguf_type_of(v as int) {
                Some(ty) => r == Ok::<GgufType, GgufError>(ty),
                None => r is Err && r->Err_0@ == ErrorView::InvalidGgufType(v),
            },
    {
        match v {
            0 => Ok(GgufType::Uint8),
            1 => Ok(GgufType::Int8),
            2 => Ok(GgufType::Uint16),
            3 => Ok(GgufType::Int16),
            4 => Ok(GgufType::Uint32),
            5 => Ok(GgufType::Int32),
            6 => Ok(GgufType::F32),
            7 => Ok(GgufType::Bool),
            8 => Ok(GgufType::String),
            9 => Ok(GgufType::Array),
            10 => Ok(GgufType::Uint64),
            11 => Ok(GgufType::Int64),
            12 => Ok(GgufType::F64),
            other => Err(GgufError::InvalidGgufType(other)),
        }
    }

    /// The fewest bytes that a value of this type takes in a file (for a string: its length
    /// prefix).
    pub fn min_element_size(self) -> (r: u64)
        ensures
            r == gguf_min_size(self),
    {
        match self {
            GgufType::Uint8 | GgufType::Int8 | GgufType::Bool => 1,
            GgufType::Uint16 | GgufType::Int16 => 2,
            GgufType::Uint32 | GgufType::Int32 | GgufType::F32 => 4,
            GgufType::Uint64 | GgufType::Int64 | GgufType::F64 => 8,
            GgufType::String => 8,
            GgufType::Array => 0,
        }
    }

    /// The name of this type.
    pub fn name(self) -> (r: &'static str)
        ensures
            r@ == gguf_type_name(self),
    {
        match self {
            GgufType::Uint8 => "uint8",
            GgufType::Int8 => "int8",
            GgufType::Uint16 => "uint16",
            GgufType::Int16 => "int16",
            GgufType::Uint32 => "uint32",
            GgufType::Int32 => "int32",
            GgufType::F32 => "float32",
            GgufType::Bool => "bool",
            GgufType::String => "string",
            GgufType::Array => "array",
            GgufType::Uint64 => "uint64",
            GgufType::Int64 => "int64",
            GgufType::F64 => "float64",
        }
    }

    /// The name of this type in code.
    pub fn ident(self) -> (r: &'static str)
        ensures
            r@ == gguf_type_ident(self),
    {
        match self {
            GgufType::Uint8 => "Uint8",
            GgufType::Int8 => "Int8",
            GgufType::Uint16 => "Uint16",
            GgufType::Int16 => "Int16",
            GgufType::Uint32 => "Uint32",
            GgufType::Int32 => "Int32",
            GgufType::F32 => "F32",
            GgufType::Bool => "Bool",
            GgufType::String => "String",
            GgufType::Array => "Array",
            GgufType::Uint64 => "Uint64",
            GgufType::Int64 => "Int64",
            GgufType::F64 => "F64",
        }
    }

    /// The name of this type, as a string of its own.
    pub fn to_string(&self) -> (r: String)
        ensures
            r@ == gguf_type_name(*self),
    {
        let mut r = String::new();
        r.append(self.name());
        assert(r@ =~= gguf_type_name(*self));
        r
    }
}

/// The type of a tensor's data. A type code without a name of its own is kept as it is.
#[allow(non_camel_case_types)]
#[derive(Clone, Copy, PartialEq, Eq, Debug, Structural)]
pub enum GgmlType {
    F32,
    F16,
    Q4_0,
    Q4_1,
    Q4_2,
    Q4_3,
    Q5_0,
    Q5_1,
    Q8_0,
    Q8_1,
    Q2_K,
    Q3_K_L,
    Q3_K_M,
    Q3_K_S,
    Q4_K,
    Q5_K,
    Q6_K,
    Q8_K,
    IQ2_XXS,
    IQ2_XS,
    IQ3_XXS,
    IQ1_S,
    IQ4_NL,
    IQ3_S,
    IQ2_S,
    IQ2_M,
    IQ3_M,
    IQ1_M,
    IQ4_XS,
    IQ3_XS,
    BF16,
    TQ1_0,
    TQ2_0,
    MXFP4,
    Unknown(i32),
}

/// The tensor type with a given code.
pub open spec fn ggml_type_of(code: i32) -> GgmlType {
    match code {
        0i32 => GgmlType::F32,
        1i32 => GgmlType::F16,
        2i32 => GgmlType::Q4_0,
        3i32 => GgmlType::Q4_1,
        4i32 => GgmlType::Q4_2,
        5i32 => GgmlType::Q4_3,
        6i32 => GgmlType::Q5_0,
        7i32 => GgmlType::Q5_1,
        8i32 => GgmlType::Q8_0,
        9i32 => GgmlType::Q8_1,
        10i32 => GgmlType::Q2_K,
        11i32 => GgmlType::Q3_K_S,
        12i32 => GgmlType::Q4_K,
        13i32 => GgmlType::Q5_K,
        14i32 => GgmlType::Q6_K,
        15i32 => GgmlType::Q8_K,
        18i32 => GgmlType::IQ2_XXS,
        19i32 => GgmlType::IQ2_XS,
        20i32 => GgmlType::IQ3_XXS,
        21i32 => GgmlType::IQ1_S,
        22i32 => GgmlType::IQ4_NL,
        23i32 => GgmlType::IQ3_S,
        24i32 => GgmlType::IQ2_S,
        25i32 => GgmlType::IQ2_M,
        26i32 => GgmlType::IQ3_M,
        27i32 => GgmlType::IQ1_M,
        28i32 => GgmlType::IQ4_XS,
        29i32 => GgmlType::IQ3_XS,
        30i32 => GgmlType::BF16,
        31i32 => GgmlType::TQ1_0,
        32i32 => GgmlType::TQ2_0,
        33i32 => GgmlType::MXFP4,
        _ => GgmlType::Unknown(code),
    }
}

/// The name of a tensor type.
pub open spec fn ggml_type_name(ty: GgmlType) -> Seq<char> {
    match ty {
        GgmlType::F32 => "F32"@,
        GgmlType::F16 => "F16"@,
        GgmlType::Q4_0 => "Q4_0"@,
        GgmlType::Q4_1 => "Q4_1"@,
        GgmlType::Q4_2 => "Q4_2"@,
        GgmlType::Q4_3 => "Q4_3"@,
        GgmlType::Q5_0 => "Q5_0"@,
        GgmlType::Q5_1 => "Q5_1"@,
        GgmlType::Q8_0 => "Q8_0"@,
        GgmlType::Q8_1 => "Q8_1"@,
        GgmlType::Q2_K => "Q2_K"@,
        GgmlType::Q3_K_L => "Q3_K_L"@,
        GgmlType::Q3_K_M => "Q3_K_M"@,
        GgmlType::Q3_K_S => "Q3_K_S"@,
        GgmlType::Q4_K => "Q4_K"@,
        GgmlType::Q5_K => "Q5_K"@,
        GgmlType::Q6_K => "Q6_K"@,
        GgmlType::Q8_K => "Q8_K"@,
        GgmlType::IQ2_XXS => "IQ2_XXS"@,
        GgmlType::IQ2_XS => "IQ2_XS"@,
        GgmlType::IQ3_XXS => "IQ3_XXS"@,
        GgmlType::IQ1_S => "IQ1_S"@,
        GgmlType::IQ4_NL => "IQ4_NL"@,
        GgmlType::IQ3_S => "IQ3_S"@,
        GgmlType::IQ2_S => "IQ2_S"@,
        GgmlType::IQ2_M => "IQ2_M"@,
        GgmlType::IQ3_M => "IQ3_M"@,
        GgmlType::IQ1_M => "IQ1_M"@,
        GgmlType::IQ4_XS => "IQ4_XS"@,
        GgmlType::IQ3_XS => "IQ3_XS"@,
        GgmlType::BF16 => "BF16"@,
        GgmlType::TQ1_0 => "TQ1_0"@,
        GgmlType::TQ2_0 => "TQ2_0"@,
        GgmlType::MXFP4 => "MXFP4"@,
        GgmlType::Unknown(n) => "UnknownType("@ + dec_int(n as int) + ")"@,
    }
}

/// The name of a tensor type in code.
pub open spec fn ggml_type_ident(ty: GgmlType) -> Seq<char> {
    match ty {
        GgmlType::Unknown(n) => "Unknown("@ + dec_int(n as int) + ")"@,
        _ => ggml_type_name(ty),
    }
}

/// The tensor types whose elements are floating point numbers.
pub open spec fn ggml_is_float(ty: GgmlType) -> bool {
    ty == GgmlType::F32 || ty == GgmlType::F16 || ty == GgmlType::BF16
}

/// How many elements a block of a tensor type holds, where the layout is known.
pub open spec fn ggml_block_size(ty: GgmlType) -> Option<u64> {
    match ty {
        GgmlType::F32 | GgmlType::F16 | GgmlType::BF16 => Some(1),
        GgmlType::Q4_0 | GgmlType::Q4_1 | GgmlType::Q5_0 | GgmlType::Q5_1 | GgmlType::Q8_0 => Some(
            32,
        ),
        GgmlType::Q2_K | GgmlType::Q3_K_S | GgmlType::Q3_K_M | GgmlType::Q3_K_L | GgmlType::Q4_K
        | GgmlType::Q5_K | GgmlType::Q6_K | GgmlType::Q8_K => Some(256),
        _ => None,
    }
}

/// How many bytes a block of a tensor type takes, where the layout is known.
pub open spec fn ggml_block_bytes(ty: GgmlType) -> Option<u64> {
    match ty {
        GgmlType::F32 => Some(4),
        GgmlType::F16 | GgmlType::BF16 => Some(2),
        GgmlType::Q4_0 => Some(18),
        GgmlType::Q4_1 => Some(20),
        GgmlType::Q5_0 => Some(22),
        GgmlType::Q5_1 => Some(24),
        GgmlType::Q8_0 => Some(34),
        GgmlType::Q2_K => Some(84),
        GgmlType::Q3_K_S | GgmlType::Q3_K_L => Some(110),
        GgmlType::Q3_K_M => Some(114),
        GgmlType::Q4_K => Some(144),
        GgmlType::Q5_K => Some(176),
        GgmlType::Q6_K => Some(210),
        GgmlType::Q8_K => Some(292),
        _ => None,
    }
}

/// The size of one element, where single elements have one: 0 for the plain 4-bit blocks.
pub open spec fn ggml_element_size(ty: GgmlType) -> Option<u64> {
    if ty == GgmlType::Q4_0 {
        Some(0)
    } else if ggml_is_float(ty) {
        ggml_block_bytes(ty)
    } else {
        None
    }
}

impl GgmlType {
    /// The tensor type with code `v`.
    pub fn from_i32(v: i32) -> (r: GgmlType)
        ensures
            r == ggml_type_of(v),
    {
        match v {
            0 => GgmlType::F32,
            1 => GgmlType::F16,
            2 => GgmlType::Q4_0,
            3 => GgmlType::Q4_1,
            4 => GgmlType::Q4_2,
            5 => GgmlType::Q4_3,
            6 => GgmlType::Q5_0,
            7 => GgmlType::Q5_1,
            8 => GgmlType::Q8_0,
            9 => GgmlType::Q8_1,
            10 => GgmlType::Q2_K,
            11 => GgmlType::Q3_K_S,
            12 => GgmlType::Q4_K,
            13 => GgmlType::Q5_K,
            14 => GgmlType::Q6_K,
            15 => GgmlType::Q8_K,
            18 => GgmlType::IQ2_XXS,
            19 => GgmlType::IQ2_XS,
            20 => GgmlType::IQ3_XXS,
            21 => GgmlType::IQ1_S,
            22 => GgmlType::IQ4_NL,
            23 => GgmlType::IQ3_S,
            24 => GgmlType::IQ2_S,
            25 => GgmlType::IQ2_M,
            26 => GgmlType::IQ3_M,
            27 => GgmlType::IQ1_M,
            28 => GgmlType::IQ4_XS,
            29 => GgmlType::IQ3_XS,
            30 => GgmlType::BF16,
            31 => GgmlType::TQ1_0,
            32 => GgmlType::TQ2_0,
            33 => GgmlType::MXFP4,
            other => GgmlType::Unknown(other),
        }
    }

    /// The size of one element in bytes: known of floating point types, 0 for the plain 4-bit
    /// blocks, and not defined for the other block types.
    pub fn element_size(self) -> (r: Option<u64>)
        ensures
            r == ggml_element_size(self),
    {
        match self {
            GgmlType::F32 => Some(4),
            GgmlType::F16 | GgmlType::BF16 => Some(2),
            GgmlType::Q4_0 => Some(0),
            _ => None,
        }
    }

    /// Whether the elements are floating point numbers.
    pub fn is_floating_point(self) -> (r: bool)
        ensures
            r == ggml_is_float(self),
    {
        matches!(self, GgmlType::F32 | GgmlType::F16 | GgmlType::BF16)
    }

    /// How many elements a block holds; 1 for floating point types.
    pub fn block_size(self) -> (r: Option<u64>)
        ensures
            r == ggml_block_size(self),
    {
        match self {
            GgmlType::F32 | GgmlType::F16 | GgmlType::BF16 => Some(1),
            GgmlType::Q4_0 | GgmlType::Q4_1 | GgmlType::Q5_0 | GgmlType::Q5_1 | GgmlType::Q8_0 =>
                Some(32),
            GgmlType::Q2_K | GgmlType::Q3_K_S | GgmlType::Q3_K_M | GgmlType::Q3_K_L
            | GgmlType::Q4_K | GgmlType::Q5_K | GgmlType::Q6_K | GgmlType::Q8_K => Some(256),
            _ => None,
        }
    }

    /// How many bytes a block takes; the element's size for floating point types.
    pub fn block_bytes(self) -> (r: Option<u64>)
        ensures
            r == ggml_block_bytes(self),
    {
        match self {
            GgmlType::F32 => Some(4),
            GgmlType::F16 | GgmlType::BF16 => Some(2),
            GgmlType::Q4_0 => Some(18),
            GgmlType::Q4_1 => Some(20),
            GgmlType::Q5_0 => Some(22),
            GgmlType::Q5_1 => Some(24),
            GgmlType::Q8_0 => Some(34),
            GgmlType::Q2_K => Some(84),
            GgmlType::Q3_K_S | GgmlType::Q3_K_L => Some(110),
            GgmlType::Q3_K_M => Some(114),
            GgmlType::Q4_K => Some(144),
            GgmlType::Q5_K => Some(176),
            GgmlType::Q6_K => Some(210),
            GgmlType::Q8_K => Some(292),
            _ => None,
        }
    }

    /// The name of this type.
    pub fn to_string(&self) -> (r: String)
        ensures
            r@ == ggml_type_name(*self),
    {
        let mut r = String::new();
        match self {
            GgmlType::F32 => r.append("F32"),
            GgmlType::F16 => r.append("F16"),
            GgmlType::Q4_0 => r.append("Q4_0"),
            GgmlType::Q4_1 => r.append("Q4_1"),
            GgmlType::Q4_2 => r.append("Q4_2"),
            GgmlType::Q4_3 => r.append("Q4_3"),
            GgmlType::Q5_0 => r.append("Q5_0"),
            GgmlType::Q5_1 => r.append("Q5_1"),
            GgmlType::Q8_0 => r.append("Q8_0"),
            GgmlType::Q8_1 => r.append("Q8_1"),
            GgmlType::Q2_K => r.append("Q2_K"),
            GgmlType::Q3_K_L => r.append("Q3_K_L"),
            GgmlType::Q3_K_M => r.append("Q3_K_M"),
            GgmlType::Q3_K_S => r.append("Q3_K_S"),
            GgmlType::Q4_K => r.append("Q4_K"),
            GgmlType::Q5_K => r.append("Q5_K"),
            GgmlType::Q6_K => r.append("Q6_K"),
            GgmlType::Q8_K => r.append("Q8_K"),
            GgmlType::IQ2_XXS => r.append("IQ2_XXS"),
            GgmlType::IQ2_XS => r.append("IQ2_XS"),
            GgmlType::IQ3_XXS => r.append("IQ3_XXS"),
            GgmlType::IQ1_S => r.append("IQ1_S"),
            GgmlType::IQ4_NL => r.append("IQ4_NL"),
            GgmlType::IQ3_S => r.append("IQ3_S"),
            GgmlType::IQ2_S => r.append("IQ2_S"),
            GgmlType::IQ2_M => r.append("IQ2_M"),
            GgmlType::IQ3_M => r.append("IQ3_M"),
            GgmlType::IQ1_M => r.append("IQ1_M"),
            GgmlType::IQ4_XS => r.append("IQ4_XS"),
            GgmlType::IQ3_XS => r.append("IQ3_XS"),
            GgmlType::BF16 => r.append("BF16"),
            GgmlType::TQ1_0 => r.append("TQ1_0"),
            GgmlType::TQ2_0 => r.append("TQ2_0"),
            GgmlType::MXFP4 => r.append("MXFP4"),
            GgmlType::Unknown(n) => {
                r.append("UnknownType(");
                push_dec_int(&mut r, *n as i64);
                r.append(")");
            },
        }
        assert(r@ =~= ggml_type_name(*self));
        r
    }
}

impl GgmlType {
    /// The name of this type in code.
    pub fn ident(&self) -> (r: String)
        ensures
            r@ == ggml_type_ident(*self),
    {
        match self {
            GgmlType::Unknown(n) => {
                let mut r = String::new();
                r.append("Unknown(");
                push_dec_int(&mut r, *n as i64);
                r.append(")");
                assert(r@ =~= ggml_type_ident(*self));
                r
            },
            _ => self.to_string(),
        }
    }
}

/// A type has a block size exactly where it has a block length in bytes, and both are positive.
pub proof fn block_layout_is_whole(ty: GgmlType)
    ensures
        ggml_block_size(ty) is Some <==> ggml_block_bytes(ty) is Some,
        ggml_block_size(ty) is Some ==> ggml_block_size(ty)->Some_0 > 0 && ggml_block_bytes(
            ty,
        )->Some_0 > 0,
{
}

/// Every value type is the type of its own tag, and no other number is a tag.
pub proof fn tags_are_inverse(ty: GgufType, tag: int)
    ensures
        gguf_type_of(gguf_tag(ty)) == Some(ty),
        gguf_type_of(tag) is Some <==> 0 <= tag <= 12,
        gguf_type_of(tag) is Some ==> gguf_tag(gguf_type_of(tag)->Some_0) == tag,
{
}


/// A metadata value.
#[derive(Debug, PartialEq)]
pub enum GgufValue {
    U8(u8),
    I8(i8),
    U16(u16),
    I16(i16),
    U32(u32),
    I32(i32),
    /// Single precision, held as its bit pattern.
    F32(u32),
    Bool(bool),
    String(String),
    U64(u64),
    I64(i64),
    /// Double precision, held as its bit pattern.
    F64(u64),
    Array(GgufArray),
}

/// Values of one type in a row.
#[derive(Debug, PartialEq)]
pub struct GgufArray {
    /// The type of the elements.
    pub elem_type: GgufType,
    /// The elements; a file holds no arrays of arrays.
    pub data: Vec<GgufValue>,
}

/// A metadata value with its strings and arrays as sequences.
pub enum ValueView {
    U8(u8),
    I8(i8),
    U16(u16),
    I16(i16),
    U32(u32),
    I32(i32),
    F32(u32),
    Bool(bool),
    String(Seq<char>),
    U64(u64),
    I64(i64),
    F64(u64),
    Array(GgufType, Seq<ValueView>),
}

/// The view of a metadata value.
pub open spec fn value_view(v: GgufValue) -> ValueView
    decreases v,
{
    match v {
        GgufValue::U8(x) => ValueView::U8(x),
        GgufValue::I8(x) => ValueView::I8(x),
        GgufValue::U16(x) => ValueView::U16(x),
        GgufValue::I16(x) => ValueView::I16(x),
        GgufValue::U32(x) => ValueView::U32(x),
        GgufValue::I32(x) => ValueView::I32(x),
        GgufValue::F32(x) => ValueView::F32(x),
        GgufValue::Bool(x) => ValueView::Bool(x),
        GgufValue::String(x) => ValueView::String(x@),
        GgufValue::U64(x) => ValueView::U64(x),
        GgufValue::I64(x) => ValueView::I64(x),
        GgufValue::F64(x) => ValueView::F64(x),
        GgufValue::Array(a) => ValueView::Array(
            a.elem_type,
            Seq::new(
                a.data@.len(),
                |i: int|
                    if 0 <= i < a.data@.len() {
                        value_view(a.data@[i])
                    } else {
                        arbitrary()
                    },
            ),
        ),
    }
}

impl View for GgufValue {
    type V = ValueView;

    open spec fn view(&self) -> ValueView {
        value_view(*self)
    }
}

/// The views of values in a row.
pub open spec fn values_view(s: Seq<GgufValue>) -> Seq<ValueView> {
    Seq::new(s.len(), |i: int| s[i]@)
}

/// The view of an array, over the views of its elements.
pub broadcast proof fn lemma_array_view(a: GgufArray)
    ensures
        #[trigger] value_view(GgufValue::Array(a)) == ValueView::Array(
            a.elem_type,
            values_view(a.data@),
        ),
{
    assert(value_view(GgufValue::Array(a))->Array_1 =~= values_view(a.data@));
}

fn copied_value(v: &GgufValue) -> (r: GgufValue)
    ensures
        r@ == v@,
    decreases *v,
{
    match v {
        GgufValue::U8(x) => GgufValue::U8(*x),
        GgufValue::I8(x) => GgufValue::I8(*x),
        GgufValue::U16(x) => GgufValue::U16(*x),
        GgufValue::I16(x) => GgufValue::I16(*x),
        GgufValue::U32(x) => GgufValue::U32(*x),
        GgufValue::I32(x) => GgufValue::I32(*x),
        GgufValue::F32(x) => GgufValue::F32(*x),
        GgufValue::Bool(x) => GgufValue::Bool(*x),
        GgufValue::String(s) => GgufValue::String(owned(s.as_str())),
        GgufValue::U64(x) => GgufValue::U64(*x),
        GgufValue::I64(x) => GgufValue::I64(*x),
        GgufValue::F64(x) => GgufValue::F64(*x),
        GgufValue::Array(a) => {
            let mut data: Vec<GgufValue> = Vec::new();
            let mut i: usize = 0;
            while i < a.data.len()
                invariant
                    i <= a.data@.len(),
                    *v == GgufValue::Array(*a),
                    values_view(data@) == values_view(a.data@).take(i as int),
                decreases a.data@.len() - i,
            {
                let elem: &GgufValue = &a.data[i];
                assert(decreases_to!(*v => *elem)) by {
                    assert(decreases_to!(*v => v->Array_0));
                    assert(decreases_to!(*a => a.data));
                    assert(decreases_to!(a.data => a.data[i as int]));
                }
                let ghost before = values_view(data@);
                data.push(copied_value(elem));
                i += 1;
                assert(values_view(data@) =~= before.push(elem@));
                assert(values_view(data@) =~= values_view(a.data@).take(i as int));
            }
            let r = GgufArray { elem_type: a.elem_type, data };
            proof {
                lemma_array_view(r);
                lemma_array_view(*a);
                assert(values_view(data@) =~= values_view(a.data@));
            }
            GgufValue::Array(r)
        },
    }
}

impl Clone for GgufValue {
    fn clone(&self) -> (r: Self)
        ensures
            r@ == self@,
    {
        copied_value(self)
    }
}

impl Clone for GgufArray {
    fn clone(&self) -> (r: Self)
        ensures
            r.elem_type == self.elem_type,
            values_view(r.data@) == values_view(self.data@),
    {
        let mut data: Vec<GgufValue> = Vec::new();
        let mut i: usize = 0;
        while i < self.data.len()
            invariant
                i <= self.data@.len(),
                values_view(data@) == values_view(self.data@).take(i as int),
            decreases self.data@.len() - i,
        {
            let ghost before = values_view(data@);
            data.push(copied_value(&self.data[i]));
            i += 1;
            assert(values_view(data@) =~= before.push(self.data@[i - 1]@));
            assert(values_view(data@) =~= values_view(self.data@).take(i as int));
        }
        assert(values_view(data@) =~= values_view(self.data@));
        GgufArray { elem_type: self.elem_type, data }
    }
}

/// The type of a value.
pub open spec fn type_of_value(v: ValueView) -> GgufType {
    match v {
        ValueView::U8(_) => GgufType::Uint8,
        ValueView::I8(_) => GgufType::Int8,
        ValueView::U16(_) => GgufType::Uint16,
        ValueView::I16(_) => GgufType::Int16,
        ValueView::U32(_) => GgufType::Uint32,
        ValueView::I32(_) => GgufType::Int32,
        ValueView::F32(_) => GgufType::F32,
        ValueView::Bool(_) => GgufType::Bool,
        ValueView::String(_) => GgufType::String,
        ValueView::U64(_) => GgufType::Uint64,
        ValueView::I64(_) => GgufType::Int64,
        ValueView::F64(_) => GgufType::F64,
        ValueView::Array(_, _) => GgufType::Array,
    }
}

/// The integer that a value is, where it is one that fits in 64 signed bits.
pub open spec fn value_i64(v: ValueView) -> Option<int> {
    match v {
        ValueView::U8(x) => Some(x as int),
        ValueView::I8(x) => Some(x as int),
        ValueView::U16(x) => Some(x as int),
        ValueView::I16(x) => Some(x as int),
        ValueView::U32(x) => Some(x as int),
        ValueView::I32(x) => Some(x as int),
        ValueView::U64(x) => if x <= i64::MAX {
            Some(x as int)
        } else {
            None
        },
        ValueView::I64(x) => Some(x as int),
        _ => None,
    }
}

impl GgufValue {
    /// The type of this value.
    pub fn value_type(&self) -> (r: GgufType)
        ensures
            r == type_of_value(self@),
    {
        match self {
            GgufValue::U8(_) => GgufType::Uint8,
            GgufValue::I8(_) => GgufType::Int8,
            GgufValue::U16(_) => GgufType::Uint16,
            GgufValue::I16(_) => GgufType::Int16,
            GgufValue::U32(_) => GgufType::Uint32,
            GgufValue::I32(_) => GgufType::Int32,
            GgufValue::F32(_) => GgufType::F32,
            GgufValue::Bool(_) => GgufType::Bool,
            GgufValue::String(_) => GgufType::String,
            GgufValue::U64(_) => GgufType::Uint64,
            GgufValue::I64(_) => GgufType::Int64,
            GgufValue::F64(_) => GgufType::F64,
            GgufValue::Array(_) => GgufType::Array,
        }
    }

    /// The string that this value is.
    pub fn as_str(&self) -> (r: Option<&str>)
        ensures
            match self@ {
                ValueView::String(s) => r is Some && r->Some_0@ == s,
                _ => r is None,
            },
    {
        match self {
            GgufValue::String(s) => Some(s.as_str()),
            _ => None,
        }
    }

    /// The integer that this value is, where it is one that fits.
    pub fn as_i64(&self) -> (r: Option<i64>)
        ensures
            match value_i64(self@) {
                Some(i) => r is Some && r->Some_0 == i,
                None => r is None,
            },
    {
        match self {
            GgufValue::I8(v) => Some(*v as i64),
            GgufValue::I16(v) => Some(*v as i64),
            GgufValue::I32(v) => Some(*v as i64),
            GgufValue::I64(v) => Some(*v),
            GgufValue::U8(v) => Some(*v as i64),
            GgufValue::U16(v) => Some(*v as i64),
            GgufValue::U32(v) => Some(*v as i64),
            GgufValue::U64(v) => if *v <= 0x7fff_ffff_ffff_ffff {
                Some(*v as i64)
            } else {
                None
            },
            _ => None,
        }
    }

    /// The truth value that this value is.
    pub fn as_bool(&self) -> (r: Option<bool>)
        ensures
            match self@ {
                ValueView::Bool(b) => r == Some(b),
                _ => r is None,
            },
    {
        match self {
            GgufValue::Bool(v) => Some(*v),
            _ => None,
        }
    }

    /// The array that this value is.
    pub fn as_array(&self) -> (r: Option<&GgufArray>)
        ensures
            match *self {
                GgufValue::Array(a) => r == Some(&a),
                _ => r is None,
            },
    {
        match self {
            GgufValue::Array(a) => Some(a),
            _ => None,
        }
    }
}

// ---------------------------------------------------------------------------------------------
// Values as double precision numbers
// ---------------------------------------------------------------------------------------------

/// The double precision number that a value is or is nearest to: of integers, of floating point
/// numbers, and of truth values as 1 and 0.
pub open spec fn value_f64(v: ValueView) -> Option<u64> {
    match v {
        ValueView::F32(b) => Some(f64_of_f32(b)),
        ValueView::F64(b) => Some(b),
        ValueView::Bool(t) => Some(
            if t {
                0x3ff0_0000_0000_0000u64
            } else {
                0u64
            },
        ),
        ValueView::U64(x) => Some(f64_of_int(x as int)),
        _ => match value_i64(v) {
            Some(i) => Some(f64_of_int(i)),
            None => None,
        },
    }
}

impl GgufValue {
    /// This value as the bit pattern of a double precision number.
    pub fn as_f64(&self) -> (r: Option<u64>)
        ensures
            r == value_f64(self@),
    {
        match self {
            GgufValue::F32(b) => Some(f32_bits_to_f64(*b)),
            GgufValue::F64(b) => Some(*b),
            GgufValue::Bool(t) => if *t {
                Some(0x3ff0_0000_0000_0000)
            } else {
                Some(0)
            },
            GgufValue::U64(v) => Some(f64_from_u64(*v)),
            _ => match self.as_i64() {
                Some(i) => Some(f64_from_i64(i)),
                None => None,
            },
        }
    }
}

// ---------------------------------------------------------------------------------------------
// Values as text
// ---------------------------------------------------------------------------------------------

/// A piece of a value's text: characters, or a double precision number (by its bit pattern) whose
/// shortest decimal form belongs there.
#[derive(Debug, PartialEq, Eq)]
pub enum Piece {
    Text(String),
    Number(u64),
}

/// A [`Piece`] with its string as a sequence of characters.
pub enum PieceView {
    Text(Seq<char>),
    Number(u64),
}

impl View for Piece {
    type V = PieceView;

    open spec fn view(&self) -> PieceView {
        match *self {
            Piece::Text(s) => PieceView::Text(s@),
            Piece::Number(b) => PieceView::Number(b),
        }
    }
}

/// The views of pieces in a row.
pub open spec fn pieces_view(s: Seq<Piece>) -> Seq<PieceView> {
    Seq::new(s.len(), |i: int| s[i]@)
}

/// Whether a double precision number is an integer below 10^15 without its sign, and `n` is it.
pub open spec fn small_integer(b: u64, n: nat) -> bool {
    f64_finite(b) && n < 1_000_000_000_000_000 && f64_units(b) == n * pow2(1074)
}

/// The text of a double precision number: `NaN`, `+Inf`, `-Inf`, an integer below 10^15 with one
/// zero behind the point, or else the number's shortest decimal form.
pub open spec fn float_piece(b: u64) -> PieceView {
    if f64_nan(b) {
        PieceView::Text("NaN"@)
    } else if !f64_finite(b) {
        PieceView::Text(
            if f64_negative(b) {
                "-Inf"@
            } else {
                "+Inf"@
            },
        )
    } else if exists|n: nat| small_integer(b, n) {
        let n = choose|n: nat| small_integer(b, n);
        PieceView::Text(
            (if f64_negative(b) {
                "-"@
            } else {
                ""@
            }) + dec(n) + ".0"@,
        )
    } else {
        PieceView::Number(b)
    }
}

pub(crate) proof fn lemma_small_integer_unique(b: u64, n: nat, k: nat)
    requires
        small_integer(b, n),
        small_integer(b, k),
    ensures
        n == k,
{
    vstd::arithmetic::power2::lemma_pow2_pos(1074);
    assert(n == k) by (nonlinear_arith)
        requires
            n * pow2(1074) == k * pow2(1074),
            pow2(1074) > 0,
    ;
}

/// The text of a double precision number.
pub fn format_finite(b: u64) -> (r: Piece)
    ensures
        r@ == float_piece(b),
{
    let e: u64 = (b / 0x10_0000_0000_0000) % 0x800;
    let m: u64 = b % 0x10_0000_0000_0000;
    let mut t = String::new();
    if e == 0x7ff {
        if m != 0 {
            t.append("NaN");
            assert(t@ =~= "NaN"@);
        } else if b >= 0x8000_0000_0000_0000 {
            t.append("-Inf");
            assert(t@ =~= "-Inf"@);
        } else {
            t.append("+Inf");
            assert(t@ =~= "+Inf"@);
        }
        return Piece::Text(t);
    }
    match f64_small_integer(b) {
        Some(n) => {
            let ghost k = choose|k: nat| small_integer(b, k);
            proof {
                assert(small_integer(b, n as nat));
                lemma_small_integer_unique(b, n as nat, k);
            }
            if b >= 0x8000_0000_0000_0000 {
                t.append("-");
            }
            proof {
                reveal_strlit("");
            }
            push_dec(&mut t, n);
            t.append(".0");
            assert(t@ =~= (if f64_negative(b) {
                "-"@
            } else {
                ""@
            }) + dec(n as nat) + ".0"@);
            Piece::Text(t)
        },
        None => {
            proof {
                assert forall|n: nat| !small_integer(b, n) by {
                    if small_integer(b, n) {
                        assert(f64_units(b) == n * pow2(1074));
                    }
                }
            }
            Piece::Number(b)
        },
    }
}

/// How many elements of an array its text shows.
pub const PREVIEW: usize = 5;

/// A tagged integer, as in `U32(7)`.
pub open spec fn tagged(name: Seq<char>, i: int) -> Seq<PieceView> {
    seq![PieceView::Text(name + "("@ + dec_int(i) + ")"@)]
}

/// The text of a value for people to read.
pub open spec fn value_text(v: ValueView) -> Seq<PieceView>
    decreases v, 0nat,
{
    match v {
        ValueView::String(s) => seq![PieceView::Text("\""@ + s + "\""@)],
        ValueView::Bool(b) => seq![
            PieceView::Text(
                if b {
                    "true"@
                } else {
                    "false"@
                },
            ),
        ],
        ValueView::F32(b) => seq![float_piece(f64_of_f32(b))],
        ValueView::F64(b) => seq![float_piece(b)],
        ValueView::Array(_, data) => if data.len() <= PREVIEW {
            seq![PieceView::Text("["@)] + joined_text(data, data.len()) + seq![PieceView::Text("]"@)]
        } else {
            seq![PieceView::Text("["@ + dec(data.len()) + " elements] (first 5: "@)] + joined_text(
                data,
                PREVIEW as nat,
            ) + seq![PieceView::Text(")"@)]
        },
        ValueView::U8(x) => tagged("U8"@, x as int),
        ValueView::I8(x) => tagged("I8"@, x as int),
        ValueView::U16(x) => tagged("U16"@, x as int),
        ValueView::I16(x) => tagged("I16"@, x as int),
        ValueView::U32(x) => tagged("U32"@, x as int),
        ValueView::I32(x) => tagged("I32"@, x as int),
        ValueView::U64(x) => tagged("U64"@, x as int),
        ValueView::I64(x) => tagged("I64"@, x as int),
    }
}

/// The texts of the first `k` elements, with commas between them.
pub open spec fn joined_text(data: Seq<ValueView>, k: nat) -> Seq<PieceView>
    decreases data, k,
{
    if k == 0 || k > data.len() {
        Seq::empty()
    } else if k == 1 {
        value_text(data[0])
    } else {
        joined_text(data, (k - 1) as nat) + seq![PieceView::Text(", "@)] + value_text(data[k - 1])
    }
}

fn push_text(out: &mut Vec<Piece>, s: String)
    ensures
        pieces_view(final(out)@) == pieces_view(old(out)@).push(PieceView::Text(s@)),
{
    out.push(Piece::Text(s));
    assert(pieces_view(out@) =~= pieces_view(old(out)@).push(PieceView::Text(s@)));
}

fn push_float(out: &mut Vec<Piece>, b: u64)
    ensures
        pieces_view(final(out)@) == pieces_view(old(out)@).push(float_piece(b)),
{
    out.push(format_finite(b));
    assert(pieces_view(out@) =~= pieces_view(old(out)@).push(float_piece(b)));
}

fn push_literal(out: &mut Vec<Piece>, s: &str)
    ensures
        pieces_view(final(out)@) == pieces_view(old(out)@).push(PieceView::Text(s@)),
{
    let mut t = String::new();
    t.append(s);
    assert(t@ =~= s@);
    push_text(out, t);
}

fn tagged_unsigned(name: &str, n: u64) -> (r: String)
    ensures
        r@ == name@ + "("@ + dec_int(n as int) + ")"@,
{
    let mut r = String::new();
    r.append(name);
    r.append("(");
    push_dec(&mut r, n);
    r.append(")");
    assert(r@ =~= name@ + "("@ + dec_int(n as int) + ")"@);
    r
}

fn tagged_signed(name: &str, n: i64) -> (r: String)
    ensures
        r@ == name@ + "("@ + dec_int(n as int) + ")"@,
{
    let mut r = String::new();
    r.append(name);
    r.append("(");
    push_dec_int(&mut r, n);
    r.append(")");
    assert(r@ =~= name@ + "("@ + dec_int(n as int) + ")"@);
    r
}

impl GgufValue {
    /// The text of this value for people to read, in pieces.
    pub fn display(&self) -> (r: Vec<Piece>)
        ensures
            pieces_view(r@) == value_text(self@),
    {
        let mut out: Vec<Piece> = Vec::new();
        self.display_into(&mut out);
        assert(pieces_view(out@) =~= value_text(self@));
        out
    }

    fn display_into(&self, out: &mut Vec<Piece>)
        ensures
            pieces_view(final(out)@) == pieces_view(old(out)@) + value_text(self@),
        decreases *self,
    {
        match self {
            GgufValue::String(s) => {
                let mut t = String::new();
                t.append("\"");
                t.append(s.as_str());
                t.append("\"");
                assert(t@ =~= "\""@ + s@ + "\""@);
                push_text(out, t);
            },
            GgufValue::Bool(b) => if *b {
                push_literal(out, "true");
            } else {
                push_literal(out, "false");
            },
            GgufValue::F32(b) => {
                push_float(out, f32_bits_to_f64(*b));
            },
            GgufValue::F64(b) => {
                push_float(out, *b);
            },
            GgufValue::Array(a) => {
                let n: usize = a.data.len();
                proof {
                    lemma_array_view(*a);
                }
                let ghost views = values_view(a.data@);
                let shown: usize = if n <= PREVIEW {
                    n
                } else {
                    PREVIEW
                };
                if n <= PREVIEW {
                    push_literal(out, "[");
                } else {
                    let mut t = String::new();
                    t.append("[");
                    push_dec(&mut t, n as u64);
                    t.append(" elements] (first 5: ");
                    assert(t@ =~= "["@ + dec(n as nat) + " elements] (first 5: "@);
                    push_text(out, t);
                }
                let ghost start = pieces_view(out@);
                let mut i: usize = 0;
                while i < shown
                    invariant
                        i <= shown <= a.data@.len(),
                        views == values_view(a.data@),
                        *self == GgufValue::Array(*a),
                        pieces_view(out@) == start + joined_text(views, i as nat),
                    decreases shown - i,
                {
                    if i > 0 {
                        push_literal(out, ", ");
                    }
                    let elem: &GgufValue = &a.data[i];
                    assert(decreases_to!(*self => *elem)) by {
                        assert(decreases_to!(*self => self->Array_0));
                        assert(decreases_to!(*a => a.data));
                        assert(decreases_to!(a.data => a.data[i as int]));
                    }
                    elem.display_into(out);
                    assert(views[i as int] == elem@);
                    i += 1;
                    assert(pieces_view(out@) =~= start + joined_text(views, i as nat));
                }
                if n <= PREVIEW {
                    push_literal(out, "]");
                } else {
                    push_literal(out, ")");
                }
            },
            GgufValue::U8(x) => push_text(out, tagged_unsigned("U8", *x as u64)),
            GgufValue::U16(x) => push_text(out, tagged_unsigned("U16", *x as u64)),
            GgufValue::U32(x) => push_text(out, tagged_unsigned("U32", *x as u64)),
            GgufValue::U64(x) => push_text(out, tagged_unsigned("U64", *x)),
            GgufValue::I8(x) => push_text(out, tagged_signed("I8", *x as i64)),
            GgufValue::I16(x) => push_text(out, tagged_signed("I16", *x as i64)),
            GgufValue::I32(x) => push_text(out, tagged_signed("I32", *x as i64)),
            GgufValue::I64(x) => push_text(out, tagged_signed("I64", *x)),
        }
        assert(pieces_view(out@) =~= pieces_view(old(out)@) + value_text(self@));
    }
}

} // verus!
