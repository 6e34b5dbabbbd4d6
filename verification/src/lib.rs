//! Reading GGUF model files, and the decisions of running the models in them.
//!
//! A file's metadata is read by [`GgufFile::from_buffer`]: its head, its key/value pairs and its
//! tensor descriptions. What is done with it is in [`dump`] and [`dump_json`] (reports), [`infer`]
//! (the model, its vocabulary, the sampler and the dialogue), [`console`] and [`gui`] (the two
//! front ends' logic). Floating point numbers are held as bit patterns throughout; see [`float`].
pub mod console;
pub mod cursor;
pub mod dump;
pub mod dump_json;
pub mod error;
pub mod file;
pub mod file_laws;
pub mod float;
pub mod float_laws;
pub mod gui;
pub mod header;
pub mod infer;
pub mod json;
pub mod layout;
pub mod lookup;
pub mod report_laws;
pub mod sizes;
pub mod tensor;
pub mod text;
pub mod text_laws;
pub mod types;
pub mod value_laws;

pub use crate::error::{GgufError, GgufResult};
pub use crate::file::GgufFile;
pub use crate::header::{GgufHeader, GGUF_DEFAULT_ALIGNMENT, GGUF_MAGIC, GGUF_VERSION};
pub use crate::json::{value_to_json, Json};
pub use crate::tensor::TensorInfo;
pub use crate::types::{GgmlType, GgufArray, GgufType, GgufValue};
