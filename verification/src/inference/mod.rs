//! The inference engine: model files, tokens, backends and request routing.

pub mod api;
pub mod api_laws;
pub mod backend;
pub mod file_laws;
pub mod gguf;
pub mod json;
pub mod local;
pub mod model_laws;
pub mod router;
pub mod sampling;
pub mod score;
pub mod service_laws;
pub mod settings;
pub mod tensor;
pub mod token_laws;
pub mod tokenizer;
pub mod transformer;
pub mod weight_laws;
