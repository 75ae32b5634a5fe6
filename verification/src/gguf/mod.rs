//! GGUF model-file reader: header, key-value metadata, tensor descriptors,
//! quick metadata summaries and a layer-offload memory estimate.

pub mod estimate;
pub mod gguf;
pub mod graph;
pub mod keyvalue;
pub mod metadata;
pub mod reader;
pub mod tensor;

pub use estimate::{estimate_layers, Estimate, EstimateOptions};
pub use gguf::File;
pub use graph::llama_graph_size;
pub use keyvalue::{GgufValue, KeyValue, Value};
pub use metadata::{stat, Info};
pub use tensor::{TensorInfo, TensorType};

use vstd::prelude::*;

verus! {

/// `std::io::Error`, carried through unchanged.
#[verifier::external_type_specification]
#[verifier::external_body]
pub struct ExIoError(std::io::Error);

/// Errors produced while parsing a GGUF file.
#[derive(Debug)]
pub enum GgufError {
    /// Underlying I/O failure (including unexpected end of input while
    /// reading a fixed-size field).
    Io(std::io::Error),
    /// The file's magic bytes were not `GGUF`.
    BadMagic(Vec<u8>),
    /// The file's version field was below the minimum supported version (2).
    UnsupportedVersion(u32),
    /// A key-value or array element type tag was not recognized.
    UnsupportedType(u32),
    /// A tensor that was asked for does not exist (or has zero size).
    TensorNotFound(String),
    /// The file describes a model the estimator cannot handle, or the
    /// request lacks what it needs.
    Unsupported(String),
}

/// The error that `std::io::Read::read_exact` reports when its input runs
/// out before the buffer is full: it is asked for one byte of an empty slice
/// (std documents an `UnexpectedEof` error there). Nothing is stated of the
/// value: it is carried to the caller as it is.
#[verifier::external_body]
pub(crate) fn unexpected_eof() -> std::io::Error {
    let mut empty: &[u8] = &[];
    let mut byte = [0u8; 1];
    std::io::Read::read_exact(&mut empty, &mut byte).unwrap_err()
}

} // verus!
