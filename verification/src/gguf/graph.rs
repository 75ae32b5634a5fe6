//! Compute-buffer size model for Llama-family graphs.

use vstd::prelude::*;

verus! {

/// Larger of two integers.
pub open spec fn max_int(a: int, b: int) -> int {
    if a >= b {
        a
    } else {
        b
    }
}

/// Full-offload compute-buffer bytes: the larger of the attention and the
/// output-projection activations (`4*` is bytes per f32 activation).
pub open spec fn spec_graph_full(
    embedding: int,
    heads: int,
    context: int,
    batch: int,
    vocab: int,
) -> int {
    max_int(
        4 * batch * (1 + 4 * embedding + context * (1 + heads)),
        4 * batch * (embedding + vocab),
    )
}

/// Partial-offload compute-buffer bytes.
pub open spec fn spec_graph_partial(
    embedding: int,
    heads: int,
    embedding_heads: int,
    heads_kv: int,
    context: int,
    batch: int,
    vocab: int,
) -> int {
    4 * batch * embedding + max_int(
        4 * batch * (1 + embedding + max_int(context, embedding)) + embedding * embedding * 9 / 16
            + 4 * context * (batch * heads + embedding_heads * heads_kv),
        4 * batch * (embedding + vocab) + embedding * vocab * 105 / 128,
    )
}

/// Products of non-negative factors grow with each factor.
proof fn lemma_mul_mono(a1: int, a2: int, b1: int, b2: int)
    requires
        0 <= a1 <= a2,
        0 <= b1 <= b2,
    ensures
        0 <= a1 * b1 <= a2 * b2,
{
    assert(0 <= a1 * b1 <= a2 * b1) by (nonlinear_arith)
        requires
            0 <= a1 <= a2,
            0 <= b1,
    ;
    assert(a2 * b1 <= a2 * b2) by (nonlinear_arith)
        requires
            0 <= a2,
            b1 <= b2,
    ;
}

/// Law: the compute-graph sizes never shrink when any of the model or
/// request dimensions grows. (The full-offload size does not take the head
/// dimension or the KV head count at all.)
pub proof fn lemma_graph_size_monotone(
    embedding1: u64,
    heads1: u64,
    embedding_heads1: u64,
    heads_kv1: u64,
    context1: u64,
    batch1: u64,
    vocab1: u64,
    embedding2: u64,
    heads2: u64,
    embedding_heads2: u64,
    heads_kv2: u64,
    context2: u64,
    batch2: u64,
    vocab2: u64,
)
    requires
        embedding1 <= embedding2,
        heads1 <= heads2,
        embedding_heads1 <= embedding_heads2,
        heads_kv1 <= heads_kv2,
        context1 <= context2,
        batch1 <= batch2,
        vocab1 <= vocab2,
    ensures
        spec_graph_full(embedding1 as int, heads1 as int, context1 as int, batch1 as int, vocab1 as int)
            <= spec_graph_full(embedding2 as int, heads2 as int, context2 as int, batch2 as int, vocab2 as int),
        spec_graph_partial(
            embedding1 as int,
            heads1 as int,
            embedding_heads1 as int,
            heads_kv1 as int,
            context1 as int,
            batch1 as int,
            vocab1 as int,
        ) <= spec_graph_partial(
            embedding2 as int,
            heads2 as int,
            embedding_heads2 as int,
            heads_kv2 as int,
            context2 as int,
            batch2 as int,
            vocab2 as int,
        ),
{
    let (e1, h1, eh1, k1, c1, b1, v1) = (
        embedding1 as int,
        heads1 as int,
        embedding_heads1 as int,
        heads_kv1 as int,
        context1 as int,
        batch1 as int,
        vocab1 as int,
    );
    let (e2, h2, eh2, k2, c2, b2, v2) = (
        embedding2 as int,
        heads2 as int,
        embedding_heads2 as int,
        heads_kv2 as int,
        context2 as int,
        batch2 as int,
        vocab2 as int,
    );
    // full offload
    lemma_mul_mono(c1, c2, 1 + h1, 1 + h2);
    lemma_mul_mono(4 * b1, 4 * b2, 1 + 4 * e1 + c1 * (1 + h1), 1 + 4 * e2 + c2 * (1 + h2));
    lemma_mul_mono(4 * b1, 4 * b2, e1 + v1, e2 + v2);
    // partial offload
    lemma_mul_mono(4 * b1, 4 * b2, e1, e2);
    lemma_mul_mono(4 * b1, 4 * b2, 1 + e1 + max_int(c1, e1), 1 + e2 + max_int(c2, e2));
    lemma_mul_mono(e1, e2, e1, e2);
    lemma_mul_mono(e1 * e1, e2 * e2, 9, 9);
    assert(e1 * e1 * 9 / 16 <= e2 * e2 * 9 / 16) by (nonlinear_arith)
        requires
            0 <= e1 * e1 * 9 <= e2 * e2 * 9,
    ;
    lemma_mul_mono(b1, b2, h1, h2);
    lemma_mul_mono(eh1, eh2, k1, k2);
    lemma_mul_mono(4 * c1, 4 * c2, b1 * h1 + eh1 * k1, b2 * h2 + eh2 * k2);
    lemma_mul_mono(e1, e2, v1, v2);
    lemma_mul_mono(e1 * v1, e2 * v2, 105, 105);
    assert(e1 * v1 * 105 / 128 <= e2 * v2 * 105 / 128) by (nonlinear_arith)
        requires
            0 <= e1 * v1 * 105 <= e2 * v2 * 105,
    ;
}

/// Law: each compute-graph size is the larger of its two candidate
/// buffers. The full-offload size covers both the attention activations,
/// `4 * batch * (1 + 4 * embedding + context * (1 + heads))`, and the output
/// logits, `4 * batch * (embedding + vocab)`, and is one of them. The
/// partial-offload size is the `4 * batch * embedding` input buffer plus the
/// larger of the attention buffers (with the KV and the `9/16 *
/// embedding^2` weight scratch) and the output buffers (with the `105/128 *
/// embedding * vocab` output weight scratch).
pub proof fn lemma_graph_size_covers_buffers(
    embedding: u64,
    heads: u64,
    embedding_heads: u64,
    heads_kv: u64,
    context: u64,
    batch: u64,
    vocab: u64,
)
    ensures
        ({
            let (e, h, c, b, v) = (embedding as int, heads as int, context as int, batch as int, vocab as int);
            let full = spec_graph_full(e, h, c, b, v);
            let attention = 4 * b * (1 + 4 * e + c * (1 + h));
            let logits = 4 * b * (e + v);
            &&& full >= attention
            &&& full >= logits
            &&& (full == attention || full == logits)
        }),
        ({
            let (e, h, eh, k, c, b, v) = (
                embedding as int,
                heads as int,
                embedding_heads as int,
                heads_kv as int,
                context as int,
                batch as int,
                vocab as int,
            );
            let partial = spec_graph_partial(e, h, eh, k, c, b, v);
            let attention = 4 * b * (1 + e + if c >= e { c } else { e }) + e * e * 9 / 16 + 4 * c * (b * h
                + eh * k);
            let output = 4 * b * (e + v) + e * v * 105 / 128;
            &&& partial >= 4 * b * e + attention
            &&& partial >= 4 * b * e + output
            &&& (partial == 4 * b * e + attention || partial == 4 * b * e + output)
        }),
{
}

/// Every intermediate product and sum of `llama_graph_size` stays within
/// `u64`.
pub open spec fn graph_size_fits(
    embedding: int,
    heads: int,
    embedding_heads: int,
    heads_kv: int,
    context: int,
    batch: int,
    vocab: int,
) -> bool {
    let m = u64::MAX as int;
    &&& 4 * batch <= m
    &&& 1 + heads <= m
    &&& 1 + 4 * embedding + context * (1 + heads) <= m
    &&& 4 * batch * (1 + 4 * embedding + context * (1 + heads)) <= m
    &&& embedding + vocab <= m
    &&& 4 * batch * (embedding + vocab) <= m
    &&& 4 * batch * embedding <= m
    &&& 1 + embedding + max_int(context, embedding) <= m
    &&& 4 * batch * (1 + embedding + max_int(context, embedding)) <= m
    &&& embedding * embedding * 9 <= m
    &&& batch * heads + embedding_heads * heads_kv <= m
    &&& 4 * context <= m
    &&& 4 * context * (batch * heads + embedding_heads * heads_kv) <= m
    &&& 4 * batch * (1 + embedding + max_int(context, embedding)) + embedding * embedding * 9 / 16
        + 4 * context * (batch * heads + embedding_heads * heads_kv) <= m
    &&& embedding * vocab * 105 <= m
    &&& 4 * batch * (embedding + vocab) + embedding * vocab * 105 / 128 <= m
    &&& spec_graph_partial(embedding, heads, embedding_heads, heads_kv, context, batch, vocab) <= m
}

/// Returns the Llama-family compute-buffer sizes in bytes for the
/// full-offload and partial-offload cases.
///
/// `embedding` = n_embd, `heads` = n_head, `embedding_heads` = attention head
/// dim, `heads_kv` = n_head_kv, `context` = `NumCtx*NumParallel`, `batch` =
/// `BatchSize`, `vocab` = vocabulary size.
pub fn llama_graph_size(
    embedding: u64,
    heads: u64,
    embedding_heads: u64,
    heads_kv: u64,
    context: u64,
    batch: u64,
    vocab: u64,
) -> (r: (u64, u64))
    requires
        graph_size_fits(
            embedding as int,
            heads as int,
            embedding_heads as int,
            heads_kv as int,
            context as int,
            batch as int,
            vocab as int,
        ),
    ensures
        r.0 == spec_graph_full(embedding as int, heads as int, context as int, batch as int, vocab as int),
        r.1 == spec_graph_partial(
            embedding as int,
            heads as int,
            embedding_heads as int,
            heads_kv as int,
            context as int,
            batch as int,
            vocab as int,
        ),
{
    proof {
        assert(0 <= context * (1 + heads)) by (nonlinear_arith);
        assert(0 <= embedding * embedding) by (nonlinear_arith);
        assert(0 <= batch * heads) by (nonlinear_arith);
        assert(0 <= embedding_heads * heads_kv) by (nonlinear_arith);
        assert(0 <= embedding * vocab) by (nonlinear_arith);
        assert(context * (1 + heads) <= 1 + 4 * embedding + context * (1 + heads));
        assert(embedding * embedding <= embedding * embedding * 9) by (nonlinear_arith);
        assert(embedding * vocab <= embedding * vocab * 105) by (nonlinear_arith);
        assert(batch * heads <= batch * heads + embedding_heads * heads_kv);
    }
    let a = 4 * batch * (1 + 4 * embedding + context * (1 + heads));
    let b = 4 * batch * (embedding + vocab);
    let full = if a >= b { a } else { b };
    let ctx_or_embd = if context >= embedding { context } else { embedding };
    let c = 4 * batch * (1 + embedding + ctx_or_embd) + embedding * embedding * 9 / 16 + 4 * context * (
    batch * heads + embedding_heads * heads_kv);
    let d = 4 * batch * (embedding + vocab) + embedding * vocab * 105 / 128;
    let partial = 4 * batch * embedding + if c >= d { c } else { d };
    (full, partial)
}

/// Product of two values that each fit in `u64`, in `u128`.
fn mul_wide(a: u128, b: u128) -> (r: u128)
    requires
        a <= u64::MAX,
        b <= u64::MAX,
    ensures
        r == a * b,
{
    assert(a * b <= 0xffff_ffff_ffff_ffff * 0xffff_ffff_ffff_ffffu128) by (nonlinear_arith)
        requires
            a <= 0xffff_ffff_ffff_ffffu128,
            b <= 0xffff_ffff_ffff_ffffu128,
    ;
    a * b
}

/// Whether `llama_graph_size` stays within `u64` on these inputs.
pub fn graph_size_fits_exec(
    embedding: u64,
    heads: u64,
    embedding_heads: u64,
    heads_kv: u64,
    context: u64,
    batch: u64,
    vocab: u64,
) -> (r: bool)
    ensures
        r == graph_size_fits(
            embedding as int,
            heads as int,
            embedding_heads as int,
            heads_kv as int,
            context as int,
            batch as int,
            vocab as int,
        ),
{
    let m: u128 = 0xffff_ffff_ffff_ffff;
    let e = embedding as u128;
    let h = heads as u128;
    let eh = embedding_heads as u128;
    let hkv = heads_kv as u128;
    let c = context as u128;
    let b = batch as u128;
    let v = vocab as u128;
    proof {
        assert(0 <= c * (1 + h)) by (nonlinear_arith)
            requires
                0 <= c,
                0 <= h,
        ;
        assert(0 <= e * e) by (nonlinear_arith);
        assert(0 <= b * h) by (nonlinear_arith)
            requires
                0 <= b,
                0 <= h,
        ;
        assert(0 <= eh * hkv) by (nonlinear_arith)
            requires
                0 <= eh,
                0 <= hkv,
        ;
        assert(0 <= e * v) by (nonlinear_arith)
            requires
                0 <= e,
                0 <= v,
        ;
        assert(e * e <= e * e * 9);
        assert(e * v <= e * v * 105);
    }
    let b4 = 4 * b;
    if b4 > m {
        return false;
    }
    let h1 = 1 + h;
    if h1 > m {
        return false;
    }
    let ch = mul_wide(c, h1);
    if ch > m {
        return false;
    }
    let x3 = 1 + 4 * e + ch;
    if x3 > m {
        return false;
    }
    let x4 = mul_wide(b4, x3);
    if x4 > m {
        return false;
    }
    let ev = e + v;
    if ev > m {
        return false;
    }
    let x6 = mul_wide(b4, ev);
    if x6 > m {
        return false;
    }
    let x7 = mul_wide(b4, e);
    if x7 > m {
        return false;
    }
    let mx = if c >= e {
        c
    } else {
        e
    };
    let x8 = 1 + e + mx;
    if x8 > m {
        return false;
    }
    let x9 = mul_wide(b4, x8);
    if x9 > m {
        return false;
    }
    let ee = mul_wide(e, e);
    if ee > m {
        return false;
    }
    let ee9 = ee * 9;
    if ee9 > m {
        return false;
    }
    let bh = mul_wide(b, h);
    if bh > m {
        return false;
    }
    let ehh = mul_wide(eh, hkv);
    if ehh > m {
        return false;
    }
    let x11 = bh + ehh;
    if x11 > m {
        return false;
    }
    let c4 = 4 * c;
    if c4 > m {
        return false;
    }
    let x13 = mul_wide(c4, x11);
    if x13 > m {
        return false;
    }
    let x14 = x9 + ee9 / 16 + x13;
    if x14 > m {
        return false;
    }
    let evv = mul_wide(e, v);
    if evv > m {
        return false;
    }
    let evv105 = evv * 105;
    if evv105 > m {
        return false;
    }
    let x16 = x6 + evv105 / 128;
    if x16 > m {
        return false;
    }
    let part = x7 + if x14 >= x16 {
        x14
    } else {
        x16
    };
    part <= m
}

/// The compute-graph sizes of `llama_graph_size`, or `None` where its
/// arithmetic would leave `u64` on these inputs.
pub fn graph_size_checked(
    embedding: u64,
    heads: u64,
    embedding_heads: u64,
    heads_kv: u64,
    context: u64,
    batch: u64,
    vocab: u64,
) -> (r: Option<(u64, u64)>)
    ensures
        r is None <==> !graph_size_fits(
            embedding as int,
            heads as int,
            embedding_heads as int,
            heads_kv as int,
            context as int,
            batch as int,
            vocab as int,
        ),
        r matches Some(p) ==> p.0 == spec_graph_full(
            embedding as int,
            heads as int,
            context as int,
            batch as int,
            vocab as int,
        ) && p.1 == spec_graph_partial(
            embedding as int,
            heads as int,
            embedding_heads as int,
            heads_kv as int,
            context as int,
            batch as int,
            vocab as int,
        ),
{
    if graph_size_fits_exec(embedding, heads, embedding_heads, heads_kv, context, batch, vocab) {
        Some(llama_graph_size(embedding, heads, embedding_heads, heads_kv, context, batch, vocab))
    } else {
        None
    }
}

} // verus!
