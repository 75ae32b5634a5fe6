//! Decisions of the model-facing API that need no inference engine: token
//! budgets, result-buffer sizing and the resize-retry protocol of the
//! engine's fill calls, decoding of what the engine wrote, and the
//! filtering dispatch of streamed token pieces.

use vstd::prelude::*;
use crate::error::LlamaError;
use crate::stream::filter::{push_step, Filter};
use crate::text::{concat_all, lossy_string, decode_lossy};
use vstd::utf8::encode_utf8;

verus! {

/// Initial result-buffer size of a completion or image description.
pub const RESULT_BUFFER_SIZE: usize = 8192;

/// Result-buffer size handed to the engine while streaming (the streamed
/// text arrives piece by piece instead).
pub const STREAM_SCRATCH_SIZE: usize = 32768;

/// Initial result-buffer size when applying a chat template.
pub const CHAT_TEMPLATE_BUFFER_SIZE: usize = 8192;

/// How many times a chat template is applied before giving up on a buffer
/// that keeps being too small.
pub const CHAT_TEMPLATE_MAX_ATTEMPTS: u32 = 8;

/// Token budget when tokenizing and `tokens` is 0.
pub const TOKENIZE_DEFAULT_TOKENS: i32 = 4096;

/// Token budget when generating and `tokens` is 0 (effectively unbounded).
pub const PREDICT_DEFAULT_TOKENS: i32 = 99_999_999;

/// `tokens`, or `default` when it is 0.
pub fn effective_tokens(tokens: i32, default: i32) -> (r: i32)
    ensures
        r == if tokens == 0 {
            default
        } else {
            tokens
        },
{
    if tokens == 0 {
        default
    } else {
        tokens
    }
}

/// Length of the token buffer a tokenization fills: the effective budget,
/// or 0 when it is negative.
pub fn tokenize_buffer_len(tokens: i32) -> (r: usize)
    ensures
        r == if tokens == 0 {
            TOKENIZE_DEFAULT_TOKENS as int
        } else if tokens < 0 {
            0
        } else {
            tokens as int
        },
{
    let t = effective_tokens(tokens, TOKENIZE_DEFAULT_TOKENS);
    if t < 0 {
        0
    } else {
        t as usize
    }
}

/// How many of the `buf_len` token slots hold tokens, given the count the
/// engine reported: a negative count is a failure, a larger one is clamped
/// to the buffer.
pub fn tokenize_result_len(reported: i32, buf_len: usize) -> (r: Result<usize, LlamaError>)
    ensures
        reported < 0 <==> r is Err,
        r matches Err(e) ==> e == LlamaError::Inference,
        r matches Ok(n) ==> n == if reported as int <= buf_len as int {
            reported as int
        } else {
            buf_len as int
        },
{
    if reported < 0 {
        return Err(LlamaError::Inference);
    }
    let n = reported as usize;
    if n <= buf_len {
        Ok(n)
    } else {
        Ok(buf_len)
    }
}

/// A result buffer of `size` bytes can be handed to the engine, whose size
/// argument is an `i32`.
pub fn check_result_size(size: usize) -> (r: Result<(), LlamaError>)
    ensures
        r is Ok <==> (0 < size && size <= i32::MAX),
        r matches Err(e) ==> e == LlamaError::OutOfMemory,
{
    if size == 0 || size > 0x7fff_ffff {
        Err(LlamaError::OutOfMemory)
    } else {
        Ok(())
    }
}

/// What to do after a fill of the result buffer.
#[derive(Debug, PartialEq, Eq, Clone, Copy)]
pub enum Fill {
    /// The whole result fits: decode this many bytes.
    Complete(usize),
    /// The buffer was too small: retry once with a buffer of this size.
    Grow(usize),
}

/// Decides after the first fill of a `size`-byte buffer, given the full
/// result length the engine reported: a negative length is a failure, a
/// length below `size` is complete, otherwise the buffer grows to the
/// length plus one.
pub fn first_fill(reported: i32, size: usize) -> (r: Result<Fill, LlamaError>)
    ensures
        reported < 0 ==> r == Err::<Fill, LlamaError>(LlamaError::Inference),
        reported >= 0 && (reported as int) < size ==> r == Ok::<Fill, LlamaError>(Fill::Complete(reported as usize)),
        reported >= 0 && (reported as int) >= size ==> r == Ok::<Fill, LlamaError>(Fill::Grow((reported + 1) as usize)),
{
    if reported < 0 {
        return Err(LlamaError::Inference);
    }
    let full = reported as usize;
    if full < size {
        Ok(Fill::Complete(full))
    } else {
        Ok(Fill::Grow(full + 1))
    }
}

/// Decides after the one permitted retry into a `size`-byte buffer: the
/// result must now fit.
pub fn retry_fill(reported: i32, size: usize) -> (r: Result<usize, LlamaError>)
    ensures
        reported < 0 || reported as int >= size <==> r is Err,
        r matches Err(e) ==> e == LlamaError::Inference,
        r matches Ok(n) ==> n == reported,
{
    if reported < 0 {
        return Err(LlamaError::Inference);
    }
    let full = reported as usize;
    if full >= size {
        Err(LlamaError::Inference)
    } else {
        Ok(full)
    }
}

/// What to do after applying a chat template into a buffer.
#[derive(Debug, PartialEq, Eq, Clone, Copy)]
pub enum TemplateStep {
    /// The model has no chat template.
    NoTemplate,
    /// The formatted prompt fits: decode this many bytes.
    Written(usize),
    /// The buffer was too small: apply again with a buffer of this size.
    Grow(usize),
}

/// Decides after attempt `attempt` (counting from 0) of applying a chat
/// template into a `size`-byte buffer, given the length the engine
/// reported: negative is a failure, 0 means no template, a length that fits
/// is written; a longer one grows the buffer to the length plus one, unless
/// that was the last permitted attempt.
pub fn chat_template_step(attempt: u32, reported: i32, size: usize) -> (r: Result<TemplateStep, LlamaError>)
    ensures
        reported < 0 ==> r == Err::<TemplateStep, LlamaError>(LlamaError::Inference),
        reported == 0 ==> r == Ok::<TemplateStep, LlamaError>(TemplateStep::NoTemplate),
        0 < reported && reported as int <= size ==> r == Ok::<TemplateStep, LlamaError>(
            TemplateStep::Written(reported as usize),
        ),
        reported as int > size && attempt + 1 < CHAT_TEMPLATE_MAX_ATTEMPTS ==> r == Ok::<
            TemplateStep,
            LlamaError,
        >(TemplateStep::Grow((reported + 1) as usize)),
        reported as int > size && attempt + 1 >= CHAT_TEMPLATE_MAX_ATTEMPTS ==> r == Err::<
            TemplateStep,
            LlamaError,
        >(LlamaError::Inference),
{
    if reported < 0 {
        return Err(LlamaError::Inference);
    }
    if reported == 0 {
        return Ok(TemplateStep::NoTemplate);
    }
    let n = reported as usize;
    if n <= size {
        return Ok(TemplateStep::Written(n));
    }
    let grown = n + 1;
    if attempt >= CHAT_TEMPLATE_MAX_ATTEMPTS - 1 {
        Err(LlamaError::Inference)
    } else {
        Ok(TemplateStep::Grow(grown))
    }
}

/// Whether embeddings can be asked of a model loaded with (`true`) or
/// without embeddings: without them the request is refused, with them the
/// engine offers none yet.
pub fn embeddings_status(enabled: bool) -> (r: LlamaError)
    ensures
        r == if enabled {
            LlamaError::NotImplemented
        } else {
            LlamaError::EmbeddingsDisabled
        },
{
    if !enabled {
        LlamaError::EmbeddingsDisabled
    } else {
        LlamaError::NotImplemented
    }
}

/// `e` is where the text in `s` ends: the first NUL byte, or the end.
pub open spec fn nul_end(s: Seq<u8>, e: int) -> bool {
    &&& 0 <= e <= s.len()
    &&& forall|i: int| 0 <= i < e ==> s[i] != 0
    &&& (e == s.len() || s[e] == 0)
}

/// The first `len` bytes of `s` (all of it when shorter).
pub open spec fn clipped(s: Seq<u8>, len: int) -> Seq<u8> {
    if len <= s.len() {
        s.subrange(0, len)
    } else {
        s
    }
}

/// Decodes up to `len` bytes of `buf` as UTF-8 (lossily), stopping early at
/// an embedded NUL if one is present before `len` — the engine always
/// NUL-terminates what it writes.
pub fn decode_nul_terminated(buf: &[u8], len: usize) -> (r: String)
    ensures
        exists|e: int| #[trigger] nul_end(clipped(buf@, len as int), e) && encode_utf8(r@) == decode_lossy(buf@.subrange(0, e)),
{
    let l = if len <= buf.len() {
        len
    } else {
        buf.len()
    };
    let ghost s = clipped(buf@, len as int);
    assert(s =~= buf@.subrange(0, l as int));
    let mut end: usize = 0;
    while end < l && buf[end] != 0
        invariant
            end <= l <= buf@.len(),
            s =~= buf@.subrange(0, l as int),
            forall|i: int| 0 <= i < end ==> buf@[i] != 0,
        decreases l - end,
    {
        end = end + 1;
    }
    let r = lossy_string(vstd::slice::slice_subrange(buf, 0, end));
    assert(nul_end(s, end as int));
    r
}

/// The filtering dispatch of one streamed generation: each piece goes
/// through a `Filter`, the text it releases is accumulated and handed to the
/// caller's token callback, and generation stops for good once a stop
/// sequence is reached or the callback declines.
pub struct StreamDispatch<F> {
    filter: Filter,
    on_token: F,
    text: Vec<u8>,
    stopped: bool,
}

impl<F: FnMut(&[u8]) -> bool> StreamDispatch<F> {
    /// The filter the pieces go through.
    pub closed spec fn filter(&self) -> Filter {
        self.filter
    }

    /// The text released so far.
    pub closed spec fn text(&self) -> Seq<u8> {
        self.text@
    }

    /// Generation has been stopped.
    pub closed spec fn is_stopped(&self) -> bool {
        self.stopped
    }

    /// The token callback accepts any text.
    pub closed spec fn callable(&self) -> bool {
        forall|x: &[u8]| #[trigger] self.on_token.requires((x,))
    }

    /// The token callback, handed `text`, may answer `keep_going`.
    pub closed spec fn answers(&self, text: Seq<u8>, keep_going: bool) -> bool {
        exists|x: &[u8]| x@ == text && #[trigger] self.on_token.ensures((x,), keep_going)
    }

    /// Starts a dispatch that filters against `stops` and hands released
    /// text to `on_token`.
    pub fn new(stops: Vec<Vec<u8>>, on_token: F) -> (d: Self)
        ensures
            d.filter().stops_view() == crate::text::byte_strings(stops@),
            d.filter().pending_view() == Seq::<Seq<u8>>::empty(),
            d.text() == Seq::<u8>::empty(),
            !d.is_stopped(),
            (forall|x: &[u8]| #[trigger] on_token.requires((x,))) ==> d.callable(),
    {
        StreamDispatch { filter: Filter::new(stops), on_token, text: Vec::new(), stopped: false }
    }

    /// Handles one decoded piece and returns whether generation goes on.
    /// Once stopped, every piece is refused unseen; otherwise the text the
    /// filter releases is accumulated and handed to the callback, and
    /// generation stops when the callback declines it or a stop sequence was
    /// reached.
    pub fn dispatch(&mut self, piece: &[u8]) -> (r: bool)
        requires
            old(self).callable(),
        ensures
            final(self).filter().stops_view() == old(self).filter().stops_view(),
            final(self).callable() == old(self).callable(),
            old(self).is_stopped() ==> !r && final(self).text() == old(self).text() && final(self).filter()
                == old(self).filter() && final(self).is_stopped(),
            !old(self).is_stopped() ==> exists|out: Seq<u8>, stop: bool|
                {
                    &&& push_step(
                        old(self).filter().stops_view(),
                        old(self).filter().pending_view(),
                        piece@,
                        out,
                        stop,
                        final(self).filter().pending_view(),
                    )
                    &&& final(self).text() == old(self).text() + out
                    &&& (out.len() == 0 ==> r == !stop)
                    &&& (out.len() > 0 ==> exists|k: bool| old(self).answers(out, k) && r == (k && !stop))
                },
            final(self).is_stopped() == !r,
    {
        if self.stopped {
            return false;
        }
        let ghost s0 = *self;
        let (emit, stop) = self.filter.push(piece);
        let ghost f1 = self.filter;
        let mut i: usize = 0;
        while i < emit.len()
            invariant
                i <= emit@.len(),
                self.text@ == s0.text@ + emit@.subrange(0, i as int),
                self.filter == f1,
                self.on_token == s0.on_token,
                self.stopped == s0.stopped,
            decreases emit@.len() - i,
        {
            self.text.push(emit[i]);
            i = i + 1;
            assert(emit@.subrange(0, i as int) =~= emit@.subrange(0, i - 1).push(emit@[i - 1]));
        }
        assert(emit@.subrange(0, emit@.len() as int) =~= emit@);
        let mut go_on = !stop;
        let ghost mut verdict = true;
        if emit.len() > 0 {
            let k = (self.on_token)(emit.as_slice());
            proof {
                verdict = k;
                assert(s0.answers(emit@, k));
            }
            if !k {
                go_on = false;
            }
        }
        self.stopped = !go_on;
        proof {
            assert(emit@.len() > 0 ==> s0.answers(emit@, verdict) && go_on == (verdict && !stop));
            assert(self.text() == old(self).text() + emit@);
            assert(push_step(old(self).filter().stops_view(), old(self).filter().pending_view(), piece@, emit@, stop, self.filter().pending_view()));
        }
        go_on
    }

    /// Ends the generation and returns the released text. When generation
    /// was not stopped, the text the filter still holds is released too: it
    /// is handed to the callback (whose answer no longer matters) and
    /// appended, so the result is exactly the text the callback was given.
    pub fn finish(self) -> (r: Vec<u8>)
        requires
            self.callable(),
        ensures
            r@ == if self.is_stopped() {
                self.text()
            } else {
                self.text() + concat_all(self.filter().pending_view())
            },
            !self.is_stopped() && concat_all(self.filter().pending_view()).len() > 0 ==> exists|k: bool|
                self.answers(concat_all(self.filter().pending_view()), k),
    {
        let ghost s0 = self;
        let mut text = self.text;
        if !self.stopped {
            let mut filter = self.filter;
            let rem = filter.flush();
            if rem.len() > 0 {
                let ghost before = text@;
                let mut i: usize = 0;
                while i < rem.len()
                    invariant
                        i <= rem@.len(),
                        text@ == before + rem@.subrange(0, i as int),
                    decreases rem@.len() - i,
                {
                    text.push(rem[i]);
                    i = i + 1;
                    assert(rem@.subrange(0, i as int) =~= rem@.subrange(0, i - 1).push(rem@[i - 1]));
                }
                assert(rem@.subrange(0, rem@.len() as int) =~= rem@);
                let mut on_token = self.on_token;
                let k = on_token(rem.as_slice());
                proof {
                    assert(s0.answers(rem@, k));
                }
            } else {
                assert(text@ + rem@ =~= text@);
            }
        }
        text
    }
}

} // verus!
