//! The model that a file describes: its sizes and the names of its tensors.
pub mod hparams;
pub mod hparams_laws;
pub mod llama;
pub mod plan;
pub mod plan_laws;
pub mod tensor_laws;
pub mod weights;
