# llama

Verified core of Rust bindings to llama.cpp, written in Verus.

- `src/` is the verified library:
  - `stream`: incremental stop-sequence filtering of streamed token pieces
    (`Filter`, `Sink`, and the stop-sequence helpers);
  - `model`: the decisions around the inference engine's calls — token
    budgets, result-buffer sizing and the resize-retry protocol, decoding of
    NUL-terminated results, and the filtering dispatch of streamed pieces;
  - `logit_bias`: parsing of `"<token>:<bias>,..."` specifications;
  - `gguf`: a decoder of GGUF model-file headers over an in-memory image
    (key-value metadata, tensor descriptors, data offsets), metadata
    summaries (`stat`), the compute-graph size formula and the layer-offload
    memory estimate (`estimate_layers`);
  - `error`: the model-facing error type.
- `app/` is ordinary Rust around the library: the llama.cpp C ABI and the
  `Model`/`VisionModel` types that drive it, reading GGUF files from disk,
  the option structs (which carry `f32` fields), and error types with
  `std::error::Error`.
- `tests/` exercises the library.

Outside crates: `byteorder` reads the little-endian header fields (through
small trusted wrappers in `src/gguf/reader.rs`); `thiserror` derives the
error types in `app/`.
