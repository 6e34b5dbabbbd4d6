//! The fixed head of a GGUF file.
use vstd::prelude::*;

verus! {

/// The magic number: the bytes `GGUF` read as a little-endian word.
pub const GGUF_MAGIC: u32 = 0x4655_4747;

/// The one format version that is read.
pub const GGUF_VERSION: u32 = 3;

/// The alignment of the data section of a file that names none.
pub const GGUF_DEFAULT_ALIGNMENT: u32 = 32;

/// The head of a GGUF file.
#[derive(Clone, Copy, Debug, PartialEq, Eq, Structural)]
pub struct GgufHeader {
    /// The magic number, equal to [`GGUF_MAGIC`] in every file that was read.
    pub magic: u32,
    /// The format version, equal to [`GGUF_VERSION`] in every file that was read.
    pub version: u32,
    /// How many tensors the file describes.
    pub n_tensors: u64,
    /// How many key/value pairs the file holds.
    pub n_kv: u64,
}

} // verus!
