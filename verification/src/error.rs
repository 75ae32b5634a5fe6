//! Errors reported by the model-facing API.

use vstd::prelude::*;

verus! {

/// Failures of model loading and inference.
#[derive(Debug, PartialEq, Eq, Clone, Copy)]
pub enum LlamaError {
    ModelLoad,
    StateLoad,
    Inference,
    OutOfMemory,
    EmbeddingsDisabled,
    NotImplemented,
    VisionLoad,
}

/// The user-facing message of each error.
pub open spec fn llama_error_message(e: LlamaError) -> Seq<char> {
    match e {
        LlamaError::ModelLoad => "llama: failed to load model"@,
        LlamaError::StateLoad => "llama: failed to load state"@,
        LlamaError::Inference => "llama: inference failed"@,
        LlamaError::OutOfMemory => "llama: out of memory allocating result buffer"@,
        LlamaError::EmbeddingsDisabled => "llama: model loaded without embeddings"@,
        LlamaError::NotImplemented => "llama: not implemented"@,
        LlamaError::VisionLoad => "llama: failed to load multimodal projector"@,
    }
}

impl LlamaError {
    /// The error's message.
    pub fn message(&self) -> (r: &'static str)
        ensures
            r@ == llama_error_message(*self),
    {
        match self {
            LlamaError::ModelLoad => "llama: failed to load model",
            LlamaError::StateLoad => "llama: failed to load state",
            LlamaError::Inference => "llama: inference failed",
            LlamaError::OutOfMemory => "llama: out of memory allocating result buffer",
            LlamaError::EmbeddingsDisabled => "llama: model loaded without embeddings",
            LlamaError::NotImplemented => "llama: not implemented",
            LlamaError::VisionLoad => "llama: failed to load multimodal projector",
        }
    }
}

} // verus!
