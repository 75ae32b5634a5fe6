use llama::model::{
    chat_template_step, check_result_size, decode_nul_terminated, effective_tokens, embeddings_status,
    first_fill, retry_fill, tokenize_buffer_len, tokenize_result_len, Fill, TemplateStep,
    CHAT_TEMPLATE_MAX_ATTEMPTS, PREDICT_DEFAULT_TOKENS,
};
use llama::LlamaError;

#[test]
fn messages_match_go() {
    assert_eq!(LlamaError::ModelLoad.message(), "llama: failed to load model");
    assert_eq!(LlamaError::EmbeddingsDisabled.message(), "llama: model loaded without embeddings");
    assert_eq!(LlamaError::NotImplemented.message(), "llama: not implemented");
}

#[test]
fn remaining_messages() {
    assert_eq!(LlamaError::StateLoad.message(), "llama: failed to load state");
    assert_eq!(LlamaError::Inference.message(), "llama: inference failed");
    assert_eq!(LlamaError::OutOfMemory.message(), "llama: out of memory allocating result buffer");
    assert_eq!(LlamaError::VisionLoad.message(), "llama: failed to load multimodal projector");
}

#[test]
fn token_budgets() {
    assert_eq!(effective_tokens(0, PREDICT_DEFAULT_TOKENS), 99_999_999);
    assert_eq!(effective_tokens(16, PREDICT_DEFAULT_TOKENS), 16);
    assert_eq!(tokenize_buffer_len(0), 4096);
    assert_eq!(tokenize_buffer_len(-3), 0);
    assert_eq!(tokenize_buffer_len(7), 7);
}

#[test]
fn tokenize_count_is_clamped() {
    assert_eq!(tokenize_result_len(5, 10), Ok(5));
    assert_eq!(tokenize_result_len(50, 10), Ok(10));
    assert_eq!(tokenize_result_len(-1, 10), Err(LlamaError::Inference));
}

#[test]
fn result_sizes() {
    assert_eq!(check_result_size(8192), Ok(()));
    assert_eq!(check_result_size(0), Err(LlamaError::OutOfMemory));
    assert_eq!(check_result_size(1usize << 31), Err(LlamaError::OutOfMemory));
}

#[test]
fn resize_retry_protocol() {
    assert_eq!(first_fill(100, 8192), Ok(Fill::Complete(100)));
    assert_eq!(first_fill(8192, 8192), Ok(Fill::Grow(8193)));
    assert_eq!(first_fill(-1, 8192), Err(LlamaError::Inference));
    assert_eq!(retry_fill(9000, 9001), Ok(9000));
    assert_eq!(retry_fill(9001, 9001), Err(LlamaError::Inference));
    assert_eq!(retry_fill(-2, 9001), Err(LlamaError::Inference));
}

#[test]
fn chat_template_steps() {
    assert_eq!(chat_template_step(0, 0, 8192), Ok(TemplateStep::NoTemplate));
    assert_eq!(chat_template_step(0, 10, 8192), Ok(TemplateStep::Written(10)));
    assert_eq!(chat_template_step(0, 8192, 8192), Ok(TemplateStep::Written(8192)));
    assert_eq!(chat_template_step(0, 9000, 8192), Ok(TemplateStep::Grow(9001)));
    assert_eq!(chat_template_step(0, -1, 8192), Err(LlamaError::Inference));
    assert_eq!(
        chat_template_step(CHAT_TEMPLATE_MAX_ATTEMPTS - 1, 9000, 8192),
        Err(LlamaError::Inference)
    );
}

#[test]
fn embeddings_gate() {
    assert_eq!(embeddings_status(false), LlamaError::EmbeddingsDisabled);
    assert_eq!(embeddings_status(true), LlamaError::NotImplemented);
}

#[test]
fn decode_stops_at_nul_and_length() {
    assert_eq!(decode_nul_terminated(b"hello\0junk", 10), "hello");
    assert_eq!(decode_nul_terminated(b"hello", 3), "hel");
    assert_eq!(decode_nul_terminated(b"hi", 10), "hi");
    assert_eq!(decode_nul_terminated(&[b'a', 0xFF, 0], 3), "a\u{FFFD}");
    assert_eq!(decode_nul_terminated(b"", 0), "");
}
