//! Verified core of the llama.cpp bindings: streaming stop-sequence
//! filtering, the decisions of the model-facing API, and the GGUF
//! model-file reader with its memory estimator.

pub mod error;
pub mod gguf;
pub mod logit_bias;
pub mod model;
pub mod stream;
pub mod text;

pub use error::LlamaError;
