//! Running a model: its vocabulary, its weights' layout, its caches and its dialogue.
pub mod bytes_to_unicode;
pub mod cache;
pub mod encode_laws;
pub mod engine;
pub mod model;
pub mod ops;
pub mod ops_laws;
pub mod quant;
pub mod quant_laws;
pub mod run_laws;
pub mod sampler;
pub mod sampler_laws;
pub mod stream;
pub mod tokenizer;
pub mod tokenizer_laws;
pub mod turn_laws;
pub use crate::infer::engine::Engine;
