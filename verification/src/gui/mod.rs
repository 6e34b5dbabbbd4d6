//! The window's state: what it shows, and what its buttons and the model's answers do to it.
pub mod app;
pub mod chat_view;
pub mod inference;
pub mod model_view;
pub mod prompt_view;
pub mod settings;
pub mod state;
pub mod window_laws;
