//! Layer-offload memory estimate: how many transformer blocks of a model
//! fit in a GPU memory budget.

use vstd::prelude::*;
use vstd::relations::{sorted_by, total_ordering};
use vstd::string::StringSliceAdditionalSpecFns;
use vstd::utf8::encode_utf8;
use std::collections::HashMap;
use crate::gguf::gguf::{bytes_eq, p_file, reports, starts_with, tensor_view, File, FileView, TensorView};
use crate::gguf::graph::{graph_size_checked, graph_size_fits, spec_graph_full, spec_graph_partial};
use crate::gguf::keyvalue::{spec_string_bytes, spec_strings_bytes, spec_uint};
use crate::gguf::metadata::meta;
use crate::gguf::GgufError;
use crate::text::decode_lossy;
use crate::gguf::tensor::{dims_fit, dims_product, spec_num_bytes, TensorInfo};
use crate::text::{parse_i64, spec_parse_i64, starts_with_bytes};

verus! {

broadcast use vstd::std_specs::hash::group_hash_axioms;

/// Position of the first `.` byte.
pub open spec fn dot_index(s: Seq<u8>) -> Option<int>
    decreases s.len(),
{
    if s.len() == 0 {
        None
    } else if s[0] == 46 {
        Some(0)
    } else {
        match dot_index(s.drop_first()) {
            Some(d) => Some(d + 1),
            None => None,
        }
    }
}

/// The name lies in the repeating-block namespace (`blk.`).
pub open spec fn in_blk(name: Seq<u8>) -> bool {
    starts_with_bytes(name, encode_utf8("blk."@))
}

/// Block index of a `blk.<i>.*` tensor name: the text between `blk.` and
/// the next dot, read as an `i64`.
pub open spec fn block_index(name: Seq<u8>) -> Option<i64> {
    if in_blk(name) {
        let rest = name.subrange(encode_utf8("blk."@).len() as int, name.len() as int);
        match dot_index(rest) {
            Some(d) => spec_parse_i64(rest.subrange(0, d)),
            None => None,
        }
    } else {
        None
    }
}

/// An output-layer tensor (`output_norm*` or `output.*`).
pub open spec fn is_output(name: Seq<u8>) -> bool {
    !in_blk(name) && (starts_with_bytes(name, encode_utf8("output_norm"@)) || starts_with_bytes(
        name,
        encode_utf8("output."@),
    ))
}

/// A token-embedding tensor (`token_embd*`).
pub open spec fn is_embd(name: Seq<u8>) -> bool {
    !in_blk(name) && !is_output(name) && starts_with_bytes(name, encode_utf8("token_embd"@))
}

/// The tensor's size is taken by the layer grouping.
pub open spec fn contributes(t: TensorView) -> bool {
    block_index(t.name) is Some || is_output(t.name) || is_embd(t.name)
}

/// `x` reinterpreted as `u64` (two's complement wrap of negatives).
pub open spec fn wrap_u64(x: int) -> int {
    if x >= 0 {
        x
    } else {
        x + 0x1_0000_0000_0000_0000
    }
}

/// A tensor's byte size as the grouping adds it (`num_bytes() as u64`).
pub open spec fn tensor_bytes(t: TensorView) -> int {
    wrap_u64(spec_num_bytes(dims_product(t.shape), t.tensor_type))
}

/// Per-block byte sums of the `blk.<i>.*` tensors.
pub open spec fn group_blocks(ts: Seq<TensorView>) -> Map<i64, int>
    decreases ts.len(),
{
    if ts.len() == 0 {
        Map::empty()
    } else {
        let m = group_blocks(ts.drop_last());
        match block_index(ts.last().name) {
            Some(i) => m.insert(i, (if m.contains_key(i) { m[i] } else { 0 }) + tensor_bytes(ts.last())),
            None => m,
        }
    }
}

/// Byte sum of the output-layer tensors.
pub open spec fn output_sum(ts: Seq<TensorView>) -> int
    decreases ts.len(),
{
    if ts.len() == 0 {
        0
    } else {
        output_sum(ts.drop_last()) + if is_output(ts.last().name) { tensor_bytes(ts.last()) } else { 0 }
    }
}

/// Byte sum of the token-embedding tensors.
pub open spec fn embd_sum(ts: Seq<TensorView>) -> int
    decreases ts.len(),
{
    if ts.len() == 0 {
        0
    } else {
        embd_sum(ts.drop_last()) + if is_embd(ts.last().name) { tensor_bytes(ts.last()) } else { 0 }
    }
}

/// The output layer's bytes: the output tensors, or the token embeddings
/// when there are none (tied embeddings).
pub open spec fn output_bytes(ts: Seq<TensorView>) -> int {
    if output_sum(ts) == 0 {
        embd_sum(ts)
    } else {
        output_sum(ts)
    }
}

/// The grouping does not overflow: the tensors it sizes have sizes that
/// are defined, and every sum fits in `u64`.
pub open spec fn grouping_fits(ts: Seq<TensorView>) -> bool {
    &&& forall|j: int| 0 <= j < ts.len() && contributes(#[trigger] ts[j]) ==> dims_fit(ts[j].shape)
    &&& forall|i: i64| #[trigger] group_blocks(ts).contains_key(i) ==> group_blocks(ts)[i] <= u64::MAX
    &&& output_sum(ts) <= u64::MAX
    &&& embd_sum(ts) <= u64::MAX
}

proof fn lemma_tensor_bytes_nonneg(t: TensorView)
    ensures
        0 <= tensor_bytes(t),
{
}

/// Sums over a prefix never exceed the sums over the whole.
proof fn lemma_sums_grow(ts: Seq<TensorView>, k: int)
    requires
        0 <= k <= ts.len(),
    ensures
        forall|i: i64| #[trigger] group_blocks(ts.subrange(0, k)).contains_key(i) ==> group_blocks(ts).contains_key(i)
            && 0 <= group_blocks(ts.subrange(0, k))[i] <= group_blocks(ts)[i],
        0 <= output_sum(ts.subrange(0, k)) <= output_sum(ts),
        0 <= embd_sum(ts.subrange(0, k)) <= embd_sum(ts),
    decreases ts.len() - k,
{
    if k == ts.len() {
        assert(ts.subrange(0, k) =~= ts);
        lemma_sums_nonneg(ts);
    } else {
        let pre = ts.subrange(0, k);
        let next = ts.subrange(0, k + 1);
        lemma_sums_grow(ts, k + 1);
        assert(next.drop_last() =~= pre);
        lemma_tensor_bytes_nonneg(ts[k]);
        lemma_sums_nonneg(pre);
        lemma_sums_nonneg(next);
        assert forall|i: i64| #[trigger] group_blocks(pre).contains_key(i) implies group_blocks(ts).contains_key(i)
            && 0 <= group_blocks(pre)[i] <= group_blocks(ts)[i] by {
            assert(group_blocks(next).contains_key(i));
            assert(group_blocks(pre)[i] <= group_blocks(next)[i]);
        }
    }
}

proof fn lemma_sums_nonneg(ts: Seq<TensorView>)
    ensures
        forall|i: i64| #[trigger] group_blocks(ts).contains_key(i) ==> 0 <= group_blocks(ts)[i],
        0 <= output_sum(ts),
        0 <= embd_sum(ts),
    decreases ts.len(),
{
    if ts.len() > 0 {
        let prev = ts.drop_last();
        lemma_sums_nonneg(prev);
        lemma_tensor_bytes_nonneg(ts.last());
        assert forall|i: i64| #[trigger] group_blocks(ts).contains_key(i) implies 0 <= group_blocks(ts)[i] by {
            if group_blocks(prev).contains_key(i) {
                assert(0 <= group_blocks(prev)[i]);
            }
        }
    }
}

/// `x` reinterpreted as `u64`, as `x as u64` does.
fn wrap_to_u64(x: i64) -> (r: u64)
    ensures
        r == wrap_u64(x as int),
{
    if x >= 0 {
        x as u64
    } else {
        (x as i128 + 0x1_0000_0000_0000_0000i128) as u64
    }
}

/// Position of the first `.` in `s`.
fn find_dot(s: &[u8]) -> (r: Option<usize>)
    ensures
        match dot_index(s@) {
            Some(d) => r == Some(d as usize),
            None => r is None,
        },
        r matches Some(i) ==> i < s@.len(),
        dot_index(s@) matches Some(d) ==> 0 <= d < s@.len(),
{
    let mut i: usize = 0;
    while i < s.len()
        invariant
            i <= s@.len(),
            forall|k: int| 0 <= k < i ==> s@[k] != 46,
        decreases s@.len() - i,
    {
        if s[i] == 46 {
            proof {
                lemma_dot_index_at(s@, i as int);
            }
            return Some(i);
        }
        i = i + 1;
    }
    proof {
        lemma_dot_index_at(s@, i as int);
    }
    None
}

proof fn lemma_dot_index_at(s: Seq<u8>, i: int)
    requires
        0 <= i <= s.len(),
        forall|k: int| 0 <= k < i ==> s[k] != 46,
        i < s.len() ==> s[i] == 46,
    ensures
        dot_index(s) == if i < s.len() { Some(i) } else { None::<int> },
    decreases i,
{
    if i > 0 && s.len() > 0 {
        assert forall|k: int| 0 <= k < i - 1 implies s.drop_first()[k] != 46 by {
            assert(s.drop_first()[k] == s[k + 1]);
        }
        lemma_dot_index_at(s.drop_first(), i - 1);
    }
}

/// Block index of a tensor name (see `block_index`).
fn block_index_of(name: &[u8]) -> (r: Option<i64>)
    ensures
        r == block_index(name@),
{
    let p = "blk.".as_bytes();
    if !starts_with(name, p) {
        return None;
    }
    let rest = vstd::slice::slice_subrange(name, p.len(), name.len());
    assert(p@ == encode_utf8("blk."@));
    assert(rest@ == name@.subrange(encode_utf8("blk."@).len() as int, name@.len() as int));
    match find_dot(rest) {
        Some(d) => parse_i64(vstd::slice::slice_subrange(rest, 0, d)),
        None => None,
    }
}

/// Sums repeating `blk.<i>.*` tensor bytes per block and the non-repeating
/// output layer (`output[_norm]`, else tied `token_embd`). `None` where a
/// tensor's size or a sum would overflow.
pub fn group_layers(f: &File) -> (r: Option<(HashMap<i64, u64>, u64)>)
    ensures
        r is None <==> !grouping_fits(f@.tensors),
        r matches Some(p) ==> {
            &&& p.0@.dom() == group_blocks(f@.tensors).dom()
            &&& forall|i: i64| #[trigger] p.0@.contains_key(i) ==> p.0@[i] == group_blocks(f@.tensors)[i]
            &&& p.1 == output_bytes(f@.tensors)
        },
{
    let ts = f.tensor_infos();
    let ghost views = f@.tensors;
    proof {
        lemma_sums_nonneg(views);
    }
    let mut blocks: HashMap<i64, u64> = HashMap::new();
    let mut output_w: u64 = 0;
    let mut token_embd: u64 = 0;
    let mut k: usize = 0;
    while k < ts.len()
        invariant
            k <= ts@.len(),
            views == ts@.map_values(|t: TensorInfo| tensor_view(t)),
            views == f@.tensors,
            forall|j: int| 0 <= j < k && contributes(#[trigger] views[j]) ==> dims_fit(views[j].shape),
            blocks@.dom() == group_blocks(views.subrange(0, k as int)).dom(),
            forall|i: i64| #[trigger] blocks@.contains_key(i) ==> blocks@[i] == group_blocks(views.subrange(0, k as int))[i],
            output_w == output_sum(views.subrange(0, k as int)),
            token_embd == embd_sum(views.subrange(0, k as int)),
        decreases ts@.len() - k,
    {
        let t = &ts[k];
        let ghost tv = views[k as int];
        assert(tv == tensor_view(*t));
        let name = t.name.as_str().as_bytes();
        let ghost pre = views.subrange(0, k as int);
        let ghost next = views.subrange(0, k + 1);
        proof {
            lemma_sums_grow(views, k + 1);
            assert(next.drop_last() =~= pre);
            assert(next.last() == tv);
        }
        if starts_with(name, "blk.".as_bytes()) {
            if let Some(idx) = block_index_of(name) {
                assert(contributes(tv));
                if !t.shape_fits() {
                    assert(contributes(views[k as int]) && !dims_fit(views[k as int].shape));
                    return None;
                }
                let nb = wrap_to_u64(t.num_bytes());
                assert(nb == tensor_bytes(tv));
                let cur = match blocks.get(&idx) {
                    Some(v) => *v,
                    None => 0,
                };
                let ghost g = group_blocks(next);
                assert(g.contains_key(idx));
                assert(cur + nb == g[idx]);
                if nb > u64::MAX - cur {
                    assert(group_blocks(views).contains_key(idx));
                    assert(group_blocks(views)[idx] >= g[idx]);
                    assert(group_blocks(views)[idx] > u64::MAX);
                    return None;
                }
                blocks.insert(idx, cur + nb);
                proof {
                    assert(blocks@.dom() =~= g.dom());
                    assert forall|i: i64| #[trigger] blocks@.contains_key(i) implies blocks@[i] == g[i] by {
                        if i != idx {
                            assert(group_blocks(pre).contains_key(i));
                        }
                    }
                }
            } else {
                proof {
                    assert(group_blocks(next) =~= group_blocks(pre));
                }
            }
        } else if starts_with(name, "output_norm".as_bytes()) || starts_with(name, "output.".as_bytes()) {
            assert(contributes(tv));
            if !t.shape_fits() {
                assert(contributes(views[k as int]) && !dims_fit(views[k as int].shape));
                return None;
            }
            let nb = wrap_to_u64(t.num_bytes());
            if nb > u64::MAX - output_w {
                return None;
            }
            output_w = output_w + nb;
        } else if starts_with(name, "token_embd".as_bytes()) {
            assert(contributes(tv));
            if !t.shape_fits() {
                assert(contributes(views[k as int]) && !dims_fit(views[k as int].shape));
                return None;
            }
            let nb = wrap_to_u64(t.num_bytes());
            if nb > u64::MAX - token_embd {
                return None;
            }
            token_embd = token_embd + nb;
        }
        k = k + 1;
    }
    assert(views.subrange(0, ts@.len() as int) =~= views);
    if output_w == 0 {
        output_w = token_embd;
    }
    Some((blocks, output_w))
}

/// Mirrors the non-Metal minimum memory reserve of a device (457 MiB).
pub const DEFAULT_MIN_RESERVE_BYTES: u64 = 457 * 1024 * 1024;

/// Parameterizes a layer-fit estimate.
#[derive(Debug, Clone)]
pub struct EstimateOptions {
    /// Context length in tokens (0 => 2048).
    pub num_ctx: i64,
    /// Tokens per batch (0 => 512).
    pub batch_size: i64,
    /// Concurrent sequences (0 => 1).
    pub num_parallel: i64,
    /// `"f16"` (default), `"q8_0"`, `"q4_0"`, `"f32"`.
    pub kv_cache_type: String,
    /// Caller-provided budget in bytes (required, > 0).
    pub free_vram: u64,
    /// Extra reserve on top of the minimum reserve.
    pub overhead_bytes: u64,
    /// Minimum reserve floor; 0 => `DEFAULT_MIN_RESERVE_BYTES`.
    pub min_reserve_bytes: u64,
    /// Accepted; does not yet alter the formula.
    pub flash_attention: bool,
}

impl Default for EstimateOptions {
    fn default() -> (r: EstimateOptions)
        ensures
            r.num_ctx == 0,
            r.batch_size == 0,
            r.num_parallel == 0,
            r.kv_cache_type@ == Seq::<char>::empty(),
            r.free_vram == 0,
            r.overhead_bytes == 0,
            r.min_reserve_bytes == 0,
            !r.flash_attention,
    {
        EstimateOptions {
            num_ctx: 0,
            batch_size: 0,
            num_parallel: 0,
            kv_cache_type: String::new(),
            free_vram: 0,
            overhead_bytes: 0,
            min_reserve_bytes: 0,
            flash_attention: false,
        }
    }
}

/// The result of a layer-fit computation.
#[derive(Debug, Clone)]
pub struct Estimate {
    /// Recommended n_gpu_layers (repeating blocks offloaded).
    pub layers: i64,
    /// True if all blocks + the output layer fit.
    pub fully_offloaded: bool,
    /// Weights+kv+graph actually placed on the GPU.
    pub total_vram: u64,
    /// Offloaded block weights (+ output if `fully_offloaded`).
    pub weights: u64,
    /// KV bytes for the offloaded blocks.
    pub kv_cache: u64,
    /// Compute buffer (full- or partial-offload value).
    pub graph: u64,
    /// Weights+kv per block, index `0..block_count-1`.
    pub per_layer_bytes: Vec<u64>,
    /// True when a non-llama arch used the fallback formula.
    pub approximate: bool,
}

impl Default for Estimate {
    fn default() -> (r: Estimate)
        ensures
            r.layers == 0,
            !r.fully_offloaded,
            r.total_vram == 0,
            r.weights == 0,
            r.kv_cache == 0,
            r.graph == 0,
            r.per_layer_bytes@.len() == 0,
            !r.approximate,
    {
        Estimate {
            layers: 0,
            fully_offloaded: false,
            total_vram: 0,
            weights: 0,
            kv_cache: 0,
            graph: 0,
            per_layer_bytes: Vec::new(),
            approximate: false,
        }
    }
}

/// Mathematical form of an `Estimate`.
pub struct EstimateView {
    pub layers: i64,
    pub fully_offloaded: bool,
    pub total_vram: u64,
    pub weights: u64,
    pub kv_cache: u64,
    pub graph: u64,
    pub per_layer_bytes: Seq<u64>,
    pub approximate: bool,
}

impl View for Estimate {
    type V = EstimateView;

    open spec fn view(&self) -> EstimateView {
        EstimateView {
            layers: self.layers,
            fully_offloaded: self.fully_offloaded,
            total_vram: self.total_vram,
            weights: self.weights,
            kv_cache: self.kv_cache,
            graph: self.graph,
            per_layer_bytes: self.per_layer_bytes@,
            approximate: self.approximate,
        }
    }
}

/// The model dimensions the estimate reads from the metadata, with their
/// fallbacks applied.
pub struct ModelDims {
    /// `block_count`, as the signed count the estimate works with.
    pub block_count: i64,
    pub embedding: u64,
    pub heads: u64,
    /// `attention.head_count_kv`, else `heads`.
    pub heads_kv: u64,
    /// `attention.key_length`, else `embedding / heads`.
    pub key_len: u64,
    /// `attention.value_length`, else `embedding / heads`.
    pub val_len: u64,
    /// `vocab_size`, else the number of tokenizer tokens.
    pub vocab: u64,
    /// The architecture is not `llama`.
    pub approximate: bool,
}

/// `x` reinterpreted as `i64` (two's complement wrap above `i64::MAX`).
pub open spec fn wrap_i64(x: int) -> int {
    if x <= i64::MAX {
        x
    } else {
        x - 0x1_0000_0000_0000_0000
    }
}

/// `v` if positive, else `def`.
pub open spec fn spec_or_default(v: i64, def: i64) -> i64 {
    if v <= 0 {
        def
    } else {
        v
    }
}

/// The unsigned metadata value under `key` (0 when missing).
pub open spec fn cfg_uint(v: FileView, key: Seq<char>) -> u64 {
    spec_uint(meta(v.key_values, key))
}

/// `x`, or `fallback` when `x` is 0.
pub open spec fn nonzero_or(x: u64, fallback: u64) -> u64 {
    if x == 0 {
        fallback
    } else {
        x
    }
}

/// The dimensions an estimate reads from a file.
pub open spec fn dims_of(v: FileView) -> ModelDims {
    let embedding = cfg_uint(v, "embedding_length"@);
    let heads = cfg_uint(v, "attention.head_count"@);
    let per_head = if heads == 0 {
        0u64
    } else {
        (embedding / heads) as u64
    };
    ModelDims {
        block_count: wrap_i64(cfg_uint(v, "block_count"@) as int) as i64,
        embedding,
        heads,
        heads_kv: nonzero_or(cfg_uint(v, "attention.head_count_kv"@), heads),
        key_len: nonzero_or(cfg_uint(v, "attention.key_length"@), per_head),
        val_len: nonzero_or(cfg_uint(v, "attention.value_length"@), per_head),
        vocab: nonzero_or(
            cfg_uint(v, "vocab_size"@),
            spec_strings_bytes(meta(v.key_values, "tokenizer.ggml.tokens"@)).len() as u64,
        ),
        approximate: decode_lossy(spec_string_bytes(meta(v.key_values, "general.architecture"@)))
            != encode_utf8("llama"@),
    }
}

/// Bytes per cached element of a KV-cache type, as a fraction
/// (numerator, denominator): `q8_0` 1, `q4_0` one half, `f32` 4, anything
/// else (`f16` included) 2.
pub open spec fn spec_kv_bytes_per_element(cache_type: Seq<u8>) -> (u64, u64) {
    if cache_type == encode_utf8("q8_0"@) {
        (1, 1)
    } else if cache_type == encode_utf8("q4_0"@) {
        (1, 2)
    } else if cache_type == encode_utf8("f32"@) {
        (4, 1)
    } else {
        (2, 1)
    }
}

/// KV-cache bytes for `elems` cached elements: the element count times the
/// bytes per element, rounded down and saturated to `u64`.
pub open spec fn kv_cache_bytes(elems: int, cache_type: Seq<u8>) -> int {
    let (num, den) = spec_kv_bytes_per_element(cache_type);
    let b = elems * (num as int) / (den as int);
    if b > u64::MAX {
        u64::MAX as int
    } else {
        b
    }
}

/// Context tokens across all parallel sequences.
pub open spec fn ctx_of(o: EstimateOptions) -> int {
    spec_or_default(o.num_ctx, 2048) * spec_or_default(o.num_parallel, 1)
}

/// Tokens per batch.
pub open spec fn batch_of(o: EstimateOptions) -> int {
    spec_or_default(o.batch_size, 512) as int
}

/// KV-cache elements per block.
pub open spec fn kv_elems(d: ModelDims, o: EstimateOptions) -> int {
    ctx_of(o) * (d.key_len + d.val_len) * d.heads_kv
}

/// The reserve kept free of the budget.
pub open spec fn reserve_of(o: EstimateOptions) -> int {
    (if o.min_reserve_bytes == 0 {
        DEFAULT_MIN_RESERVE_BYTES
    } else {
        o.min_reserve_bytes
    }) + o.overhead_bytes
}

/// Weight bytes of block `i` (0 for a block without tensors).
pub open spec fn block_weight(blocks: Map<i64, int>, i: int) -> int {
    if blocks.contains_key(i as i64) {
        blocks[i as i64]
    } else {
        0
    }
}

/// Weights plus KV cache of each block `0..n`.
pub open spec fn per_layer_of(blocks: Map<i64, int>, n: int, kv: int) -> Seq<u64> {
    Seq::new(n as nat, |i: int| (block_weight(blocks, i) + kv) as u64)
}

/// Every block's cost fits in `u64`.
pub open spec fn per_layer_fits(blocks: Map<i64, int>, n: int, kv: int) -> bool {
    forall|i: int| 0 <= i < n ==> #[trigger] block_weight(blocks, i) + kv <= u64::MAX
}

/// Orders block costs largest first.
pub open spec fn cost_geq() -> spec_fn(u64, u64) -> bool {
    |a: u64, b: u64| a >= b
}

/// `x` lies in the `i64` range.
pub open spec fn in_i64(x: int) -> bool {
    i64::MIN <= x <= i64::MAX
}

/// The fill after looking at the first `k` of the costs `s` (largest
/// first): (blocks taken, bytes taken, stopped). A block is taken while the
/// running total, reinterpreted as `i64`, is at most `avail`; the first that
/// does not fit stops the fill. `None` where a running total leaves `u64`.
pub open spec fn greedy_fill(s: Seq<u64>, avail: int, k: nat) -> Option<(int, int, bool)>
    decreases k,
{
    if k == 0 {
        Some((0, 0, false))
    } else {
        match greedy_fill(s, avail, (k - 1) as nat) {
            None => None,
            Some((n, used, stopped)) => {
                if stopped {
                    Some((n, used, true))
                } else {
                    let t = used + s[k - 1];
                    if t > u64::MAX {
                        None
                    } else if wrap_i64(t) <= avail {
                        Some((n + 1, t, false))
                    } else {
                        Some((n, used, true))
                    }
                }
            },
        }
    }
}

/// Blocks taken and their bytes: the greedy fill over the costs sorted
/// largest first, or nothing when no budget is left.
pub open spec fn fit_blocks(per_layer: Seq<u64>, avail: int) -> Option<(int, int)> {
    if avail > 0 {
        match greedy_fill(per_layer.sort_by(cost_geq()), avail, per_layer.len()) {
            Some((n, used, _)) => Some((n, used)),
            None => None,
        }
    } else {
        Some((0, 0))
    }
}

/// The estimate's totals once `n` blocks using `used` bytes (with `kv` KV
/// bytes per block) are placed, or `None` where the arithmetic overflows.
pub open spec fn fit_totals(
    v: FileView,
    d: ModelDims,
    o: EstimateOptions,
    per_layer: Seq<u64>,
    kv: int,
    full: int,
    partial: int,
    n: int,
    used: int,
) -> Option<EstimateView> {
    let kv_used = n * kv;
    let weights = used - kv_used;
    let output = output_bytes(v.tensors);
    let head = wrap_i64(o.free_vram as int) - wrap_i64(reserve_of(o)) - wrap_i64(full);
    let fits_all = n == d.block_count;
    if fits_all && (used + output > u64::MAX || !in_i64(head) || !in_i64(head - wrap_i64(used + output))) {
        None
    } else {
        let full_offload = fits_all && head - wrap_i64(used + output) >= 0;
        let w = if full_offload {
            weights + output
        } else {
            weights
        };
        let g = if full_offload {
            full
        } else {
            partial
        };
        if w + kv_used + g > u64::MAX {
            None
        } else {
            Some(
                EstimateView {
                    layers: n as i64,
                    fully_offloaded: full_offload,
                    total_vram: (w + kv_used + g) as u64,
                    weights: w as u64,
                    kv_cache: kv_used as u64,
                    graph: g as u64,
                    per_layer_bytes: per_layer,
                    approximate: d.approximate,
                },
            )
        }
    }
}

/// The estimate for a supported model, or `None` where the computation
/// overflows.
pub open spec fn fit_supported(v: FileView, d: ModelDims, o: EstimateOptions) -> Option<EstimateView> {
    let m = u64::MAX as int;
    let ctx = ctx_of(o);
    let batch = batch_of(o);
    let heads_sum = d.key_len + d.val_len;
    let blocks = group_blocks(v.tensors);
    let kv = kv_cache_bytes(kv_elems(d, o), encode_utf8(o.kv_cache_type@));
    let full = spec_graph_full(d.embedding as int, d.heads as int, ctx, batch, d.vocab as int);
    let partial = spec_graph_partial(
        d.embedding as int,
        d.heads as int,
        d.key_len as int,
        d.heads_kv as int,
        ctx,
        batch,
        d.vocab as int,
    );
    let per_layer = per_layer_of(blocks, d.block_count as int, kv);
    let reserve = reserve_of(o);
    let a1 = wrap_i64(o.free_vram as int) - wrap_i64(reserve);
    let avail = a1 - wrap_i64(partial);
    if ctx > m || !grouping_fits(v.tensors) || heads_sum > m || ctx * heads_sum > m || kv_elems(d, o) > m
        || !graph_size_fits(
        d.embedding as int,
        d.heads as int,
        d.key_len as int,
        d.heads_kv as int,
        ctx,
        batch,
        d.vocab as int,
    ) || d.block_count < 0 || !per_layer_fits(blocks, d.block_count as int, kv) || reserve > m || !in_i64(a1)
        || !in_i64(avail) {
        None
    } else {
        match fit_blocks(per_layer, avail) {
            None => None,
            Some((n, used)) => fit_totals(v, d, o, per_layer, kv, full, partial, n, used),
        }
    }
}

/// What an estimate gives for a parsed file: the refusal of an unusable
/// request or model (with its message), the estimate, or `None` where the
/// computation overflows.
pub open spec fn spec_fit(v: FileView, o: EstimateOptions) -> Option<Result<EstimateView, Seq<char>>> {
    let d = dims_of(v);
    if o.free_vram == 0 {
        Some(Err("FreeVRAM budget required"@))
    } else if d.block_count == 0 || d.embedding == 0 {
        Some(Err("missing block_count/embedding_length"@))
    } else if d.heads == 0 {
        Some(Err("recurrent or unsupported architecture (no attention heads)"@))
    } else {
        match fit_supported(v, d, o) {
            Some(e) => Some(Ok(e)),
            None => None,
        }
    }
}

/// `r` is the outcome `s` describes.
pub open spec fn fit_outcome(r: Option<Result<Estimate, GgufError>>, s: Option<Result<EstimateView, Seq<char>>>) -> bool {
    match s {
        None => r is None,
        Some(Err(msg)) => r matches Some(Err(GgufError::Unsupported(t))) && t@ == msg,
        Some(Ok(ev)) => r matches Some(Ok(e)) && e@ == ev,
    }
}

/// `v` if positive, else `def`.
pub fn or_default(v: i64, def: i64) -> (r: i64)
    ensures
        r == spec_or_default(v, def),
{
    if v <= 0 {
        def
    } else {
        v
    }
}

/// Returns the bytes per KV-cache element of a cache type, as the fraction
/// (numerator, denominator): `q8_0` 1, `q4_0` one half, `f32` 4, `f16` and
/// anything unknown 2.
pub fn kv_bytes_per_element(cache_type: &str) -> (r: (u64, u64))
    ensures
        r == spec_kv_bytes_per_element(cache_type.spec_bytes()),
{
    let b = cache_type.as_bytes();
    if bytes_eq(b, "q8_0".as_bytes()) {
        (1, 1)
    } else if bytes_eq(b, "q4_0".as_bytes()) {
        (1, 2)
    } else if bytes_eq(b, "f32".as_bytes()) {
        (4, 1)
    } else {
        (2, 1)
    }
}

/// KV-cache bytes for `elems` cached elements of the given cache type.
fn kv_bytes_for(elems: u64, cache_type: &str) -> (r: u64)
    ensures
        r == kv_cache_bytes(elems as int, cache_type.spec_bytes()),
{
    let (num, den) = kv_bytes_per_element(cache_type);
    let wide = (elems as u128) * (num as u128) / (den as u128);
    if wide > u64::MAX as u128 {
        u64::MAX
    } else {
        wide as u64
    }
}

/// `x` reinterpreted as `i64`, as `x as i64` does.
fn wrap_to_i64(x: u64) -> (r: i64)
    ensures
        r == wrap_i64(x as int),
{
    if x <= i64::MAX as u64 {
        x as i64
    } else {
        (x as i128 - 0x1_0000_0000_0000_0000i128) as i64
    }
}

/// Reads the dimensions an estimate works with.
fn read_dims(f: &File) -> (d: ModelDims)
    ensures
        d == dims_of(f@),
{
    let arch = f.key_value("general.architecture").string();
    let block_count = wrap_to_i64(f.key_value("block_count").uint());
    let embedding = f.key_value("embedding_length").uint();
    let heads = f.key_value("attention.head_count").uint();
    let per_head = if heads == 0 {
        0
    } else {
        embedding / heads
    };
    let mut heads_kv = f.key_value("attention.head_count_kv").uint();
    if heads_kv == 0 {
        heads_kv = heads;
    }
    let mut key_len = f.key_value("attention.key_length").uint();
    if key_len == 0 {
        key_len = per_head;
    }
    let mut val_len = f.key_value("attention.value_length").uint();
    if val_len == 0 {
        val_len = per_head;
    }
    let mut vocab = f.key_value("vocab_size").uint();
    if vocab == 0 {
        vocab = f.key_value("tokenizer.ggml.tokens").strings().len() as u64;
    }
    let approximate = !bytes_eq(arch.as_str().as_bytes(), "llama".as_bytes());
    ModelDims { block_count, embedding, heads, heads_kv, key_len, val_len, vocab, approximate }
}

proof fn lemma_cost_geq_total()
    ensures
        total_ordering(cost_geq()),
{
    let r = cost_geq();
    assert(vstd::relations::reflexive(r));
    assert(vstd::relations::antisymmetric(r));
    assert(vstd::relations::transitive(r));
    assert(vstd::relations::strongly_connected(r));
}

/// The costs sorted largest first.
fn sort_costs(v: &Vec<u64>) -> (r: Vec<u64>)
    ensures
        r@ == v@.sort_by(cost_geq()),
        r@.len() == v@.len(),
        forall|x: u64| r@.contains(x) ==> v@.contains(x),
{
    let mut out: Vec<u64> = Vec::new();
    let mut i: usize = 0;
    proof {
        broadcast use vstd::seq_lib::group_to_multiset_ensures;

        assert(v@.subrange(0, 0) =~= out@);
    }
    while i < v.len()
        invariant
            i <= v@.len(),
            sorted_by(out@, cost_geq()),
            out@.to_multiset() == v@.subrange(0, i as int).to_multiset(),
        decreases v@.len() - i,
    {
        let x = v[i];
        let mut j: usize = 0;
        while j < out.len() && out[j] >= x
            invariant
                j <= out@.len(),
                forall|k: int| 0 <= k < j ==> out@[k] >= x,
            decreases out@.len() - j,
        {
            j = j + 1;
        }
        let ghost before = out@;
        out.insert(j, x);
        proof {
            assert(out@ == before.insert(j as int, x));
            assert forall|a: int, b: int| 0 <= a < b < out@.len() implies #[trigger] (cost_geq())(out@[a], out@[b]) by {
                if b < j {
                    assert((cost_geq())(before[a], before[b]));
                } else if a < j && b == j {
                } else if a < j {
                    assert(before[b - 1] <= before[a]) by {
                        assert((cost_geq())(before[a], before[b - 1]));
                    }
                } else if a == j {
                    assert(before[j as int] < x);
                    if b - 1 > j {
                        assert((cost_geq())(before[j as int], before[b - 1]));
                    }
                } else {
                    assert((cost_geq())(before[a - 1], before[b - 1]));
                }
            }
            assert(v@.subrange(0, i + 1) =~= v@.subrange(0, i as int).push(x));
            vstd::seq_lib::to_multiset_insert(before, j as int, x);
            vstd::seq_lib::to_multiset_build(v@.subrange(0, i as int), x);
        }
        i = i + 1;
    }
    proof {
        assert(v@.subrange(0, v@.len() as int) =~= v@);
        lemma_cost_geq_total();
        v@.lemma_sort_by_ensures(cost_geq());
        vstd::seq_lib::lemma_sorted_unique(out@, v@.sort_by(cost_geq()), cost_geq());
        vstd::seq_lib::to_multiset_len(out@);
        vstd::seq_lib::to_multiset_len(v@);
    }
    out
}

/// Once the fill has stopped or overflowed, looking at more costs changes
/// nothing.
proof fn lemma_fill_settled(s: Seq<u64>, avail: int, k: nat, k2: nat)
    requires
        k <= k2,
        greedy_fill(s, avail, k) is None || greedy_fill(s, avail, k).unwrap().2,
    ensures
        greedy_fill(s, avail, k2) == greedy_fill(s, avail, k),
    decreases k2 - k,
{
    if k < k2 {
        lemma_fill_settled(s, avail, k, (k2 - 1) as nat);
    }
}

/// Places the costs (largest first) while their running total, reinterpreted
/// as `i64`, stays within `avail`. Gives (blocks placed, their weight bytes,
/// their KV bytes), each block costing `kv` KV bytes on top of its weights;
/// `None` where the running total leaves `u64`.
fn fill_blocks(sorted: &Vec<u64>, avail: i64, kv: u64) -> (r: Option<(i64, u64, u64)>)
    requires
        sorted@.len() <= i64::MAX,
        forall|j: int| 0 <= j < sorted@.len() ==> sorted@[j] >= kv,
    ensures
        avail > 0 ==> match greedy_fill(sorted@, avail as int, sorted@.len()) {
            None => r is None,
            Some((n, used, _)) => r matches Some((rn, rw, rk)) && rn == n && rk == n * kv && rw == used - n * kv,
        },
        avail <= 0 ==> r == Some((0i64, 0u64, 0u64)),
        r matches Some((_, rw, rk)) ==> rw + rk <= u64::MAX,
{
    let mut n: i64 = 0;
    let mut weights_used: u64 = 0;
    let mut kv_used: u64 = 0;
    if avail <= 0 {
        return Some((0, 0, 0));
    }
    let ghost s = sorted@;
    let mut k: usize = 0;
    while k < sorted.len()
        invariant
            s == sorted@,
            avail > 0,
            k <= s.len(),
            s.len() <= i64::MAX,
            forall|j: int| 0 <= j < s.len() ==> s[j] >= kv,
            n <= k,
            greedy_fill(s, avail as int, k as nat) == Some((n as int, weights_used + kv_used, false)),
            kv_used == n * kv,
        decreases s.len() - k,
    {
        let p = sorted[k];
        let used = weights_used + kv_used;
        if p > u64::MAX - used {
            proof {
                assert(greedy_fill(s, avail as int, (k + 1) as nat) is None);
                lemma_fill_settled(s, avail as int, (k + 1) as nat, s.len());
            }
            return None;
        }
        let t = used + p;
        if wrap_to_i64(t) <= avail {
            weights_used = weights_used + (p - kv);
            kv_used = kv_used + kv;
            n = n + 1;
            proof {
                assert(kv_used == n * kv) by (nonlinear_arith)
                    requires
                        kv_used == (n - 1) * kv + kv,
                ;
            }
        } else {
            proof {
                assert(greedy_fill(s, avail as int, (k + 1) as nat) == Some((n as int, used as int, true)));
                lemma_fill_settled(s, avail as int, (k + 1) as nat, s.len());
            }
            return Some((n, weights_used, kv_used));
        }
        k = k + 1;
    }
    Some((n, weights_used, kv_used))
}

/// The estimate for a supported model (see `fit_supported`).
#[verifier::rlimit(40)]
#[verifier::loop_isolation(false)]
fn fit_model(f: &File, d: &ModelDims, opts: &EstimateOptions) -> (r: Option<Estimate>)
    requires
        *d == dims_of(f@),
    ensures
        match fit_supported(f@, *d, *opts) {
            None => r is None,
            Some(ev) => r matches Some(e) && e@ == ev,
        },
{
    let ghost o = *opts;
    let ghost m = u64::MAX as int;
    let ctx = match (or_default(opts.num_ctx, 2048) as u64).checked_mul(or_default(opts.num_parallel, 1) as u64) {
        Some(c) => c,
        None => return None,
    };
    assert(ctx == ctx_of(o));
    let batch = or_default(opts.batch_size, 512) as u64;
    let (blocks, output) = match group_layers(f) {
        Some(g) => g,
        None => return None,
    };
    let heads_sum = match d.key_len.checked_add(d.val_len) {
        Some(x) => x,
        None => return None,
    };
    let e1 = match ctx.checked_mul(heads_sum) {
        Some(x) => x,
        None => return None,
    };
    let elems = match e1.checked_mul(d.heads_kv) {
        Some(x) => x,
        None => return None,
    };
    assert(elems == kv_elems(*d, o));
    let kv = kv_bytes_for(elems, opts.kv_cache_type.as_str());
    let (full, partial) = match graph_size_checked(d.embedding, d.heads, d.key_len, d.heads_kv, ctx, batch, d.vocab) {
        Some(g) => g,
        None => return None,
    };
    if d.block_count < 0 {
        return None;
    }
    let ghost gb = group_blocks(f@.tensors);
    let mut per_layer: Vec<u64> = Vec::new();
    let mut i: i64 = 0;
    while i < d.block_count
        invariant
            0 <= i <= d.block_count,
            blocks@.dom() == gb.dom(),
            forall|k: i64| #[trigger] blocks@.contains_key(k) ==> blocks@[k] == gb[k],
            per_layer@ == per_layer_of(gb, i as int, kv as int),
            per_layer_fits(gb, i as int, kv as int),
        decreases d.block_count - i,
    {
        let b = match blocks.get(&i) {
            Some(x) => *x,
            None => 0,
        };
        assert(b == block_weight(gb, i as int));
        if b > u64::MAX - kv {
            assert(!per_layer_fits(gb, d.block_count as int, kv as int)) by {
                assert(block_weight(gb, i as int) + kv > u64::MAX);
            }
            return None;
        }
        per_layer.push(b + kv);
        proof {
            assert(per_layer@ =~= per_layer_of(gb, i + 1, kv as int));
            assert forall|j: int| 0 <= j < i + 1 implies #[trigger] block_weight(gb, j) + kv <= u64::MAX by {
                if j < i {
                    assert(per_layer_fits(gb, i as int, kv as int));
                }
            }
        }
        i = i + 1;
    }
    let min_reserve = if opts.min_reserve_bytes == 0 {
        DEFAULT_MIN_RESERVE_BYTES
    } else {
        opts.min_reserve_bytes
    };
    let reserve = match min_reserve.checked_add(opts.overhead_bytes) {
        Some(x) => x,
        None => return None,
    };
    let a1 = match wrap_to_i64(opts.free_vram).checked_sub(wrap_to_i64(reserve)) {
        Some(x) => x,
        None => return None,
    };
    let avail = match a1.checked_sub(wrap_to_i64(partial)) {
        Some(x) => x,
        None => return None,
    };
    let sorted = sort_costs(&per_layer);
    proof {
        assert forall|j: int| 0 <= j < sorted@.len() implies sorted@[j] >= kv by {
            assert(sorted@.contains(sorted@[j]));
            assert(per_layer@.contains(sorted@[j]));
            let w = choose|q: int| 0 <= q < per_layer@.len() && per_layer@[q] == sorted@[j];
            assert(block_weight(gb, w) + kv <= u64::MAX);
        }
    }
    let (n, mut weights_used, kv_used) = match fill_blocks(&sorted, avail, kv) {
        Some(x) => x,
        None => return None,
    };
    let ghost used = weights_used + kv_used;
    let mut fully_offloaded = false;
    let mut graph = partial;
    if n == d.block_count {
        let used_out = match (weights_used + kv_used).checked_add(output) {
            Some(x) => x,
            None => return None,
        };
        let head = match a1.checked_sub(wrap_to_i64(full)) {
            Some(x) => x,
            None => return None,
        };
        let remaining = match head.checked_sub(wrap_to_i64(used_out)) {
            Some(x) => x,
            None => return None,
        };
        if remaining >= 0 {
            fully_offloaded = true;
            graph = full;
            weights_used = weights_used + output;
        }
    }
    let total = match (weights_used + kv_used).checked_add(graph) {
        Some(x) => x,
        None => return None,
    };
    proof {
        assert(kv as int == kv_cache_bytes(kv_elems(*d, o), encode_utf8(o.kv_cache_type@)));
        assert(per_layer@ == per_layer_of(gb, d.block_count as int, kv as int));
        assert(in_i64(a1 as int));
        assert(fit_blocks(per_layer@, avail as int) == Some((n as int, used)));
    }
    let e = Estimate {
        layers: n,
        fully_offloaded,
        total_vram: total,
        weights: weights_used,
        kv_cache: kv_used,
        graph,
        per_layer_bytes: per_layer,
        approximate: d.approximate,
    };
    assert(fit_totals(f@, *d, o, e.per_layer_bytes@, kv as int, full as int, partial as int, n as int, used) == Some(e@));
    Some(e)
}

/// Computes how many transformer blocks of the model `f` describes fit in
/// `opts.free_vram` on one GPU, with the Llama-family compute-graph model;
/// other dense architectures get an approximate estimate
/// (`Estimate::approximate`), and recurrent (attention-free) ones are
/// refused. `None` where the computation overflows its integer types.
pub fn fit_layers(f: &File, opts: &EstimateOptions) -> (r: Option<Result<Estimate, GgufError>>)
    ensures
        fit_outcome(r, spec_fit(f@, *opts)),
{
    if opts.free_vram == 0 {
        return Some(Err(GgufError::Unsupported("FreeVRAM budget required".to_owned())));
    }
    let d = read_dims(f);
    if d.block_count == 0 || d.embedding == 0 {
        return Some(Err(GgufError::Unsupported("missing block_count/embedding_length".to_owned())));
    }
    if d.heads == 0 {
        return Some(
            Err(GgufError::Unsupported("recurrent or unsupported architecture (no attention heads)".to_owned())),
        );
    }
    match fit_model(f, &d, opts) {
        Some(e) => Some(Ok(e)),
        None => None,
    }
}

/// The estimate of a GGUF image can be computed without overflow: the
/// request has no budget, the image does not parse, or the estimate of the
/// parsed file stays within its integer types.
pub open spec fn estimate_defined(bytes: Seq<u8>, o: EstimateOptions) -> bool {
    o.free_vram == 0 || match p_file(bytes) {
        Ok(v) => spec_fit(v, o) is Some,
        Err(_) => true,
    }
}

/// `r` is what an estimate of the GGUF image `bytes` gives: the budget is
/// checked first, then the image is parsed, then the layers are fitted.
pub open spec fn estimate_result(bytes: Seq<u8>, o: EstimateOptions, r: Result<Estimate, GgufError>) -> bool {
    if o.free_vram == 0 {
        r matches Err(GgufError::Unsupported(m)) && m@ == "FreeVRAM budget required"@
    } else {
        match p_file(bytes) {
            Err(fl) => r matches Err(e) && reports(e, fl),
            Ok(v) => fit_outcome(Some(r), spec_fit(v, o)),
        }
    }
}

/// Refuses an estimate request that carries no memory budget.
pub fn check_budget(opts: &EstimateOptions) -> (r: Result<(), GgufError>)
    ensures
        r is Ok <==> opts.free_vram != 0,
        r is Err ==> (r matches Err(GgufError::Unsupported(m)) && m@ == "FreeVRAM budget required"@),
{
    if opts.free_vram == 0 {
        Err(GgufError::Unsupported("FreeVRAM budget required".to_owned()))
    } else {
        Ok(())
    }
}

/// Reads the metadata and tensor sizes of the GGUF image `bytes` and
/// computes how many transformer blocks fit in `opts.free_vram` (see
/// `fit_layers`). A request without a budget is refused before the image is
/// read.
pub fn estimate_layers(bytes: &[u8], opts: &EstimateOptions) -> (r: Result<Estimate, GgufError>)
    requires
        bytes@.len() <= i64::MAX,
        estimate_defined(bytes@, *opts),
    ensures
        estimate_result(bytes@, *opts, r),
{
    if let Err(e) = check_budget(opts) {
        return Err(e);
    }
    let f = match File::parse(bytes) {
        Ok(f) => f,
        Err(e) => return Err(e),
    };
    match fit_layers(&f, opts) {
        Some(r) => r,
        None => {
            assert(false);
            Err(GgufError::Unsupported(String::new()))
        },
    }
}

/// `estimate_layers`, where its computation stays within its integer types;
/// `None` where it would overflow.
pub fn try_estimate_layers(bytes: &[u8], opts: &EstimateOptions) -> (r: Option<Result<Estimate, GgufError>>)
    requires
        bytes@.len() <= i64::MAX,
    ensures
        r is None <==> !estimate_defined(bytes@, *opts),
        r matches Some(x) ==> estimate_result(bytes@, *opts, x),
{
    if opts.free_vram != 0 {
        if let Ok(f) = File::parse(bytes) {
            if fit_layers(&f, opts).is_none() {
                return None;
            }
        }
    }
    Some(estimate_layers(bytes, opts))
}

/// The fill takes at most the costs it looked at, and its running total
/// stays within `u64`.
proof fn lemma_fill_bounds(s: Seq<u64>, avail: int, k: nat)
    ensures
        greedy_fill(s, avail, k) matches Some((n, used, _)) ==> 0 <= n <= k && 0 <= used <= u64::MAX,
    decreases k,
{
    if k > 0 {
        lemma_fill_bounds(s, avail, (k - 1) as nat);
    }
}

/// Looking at more costs never places fewer blocks.
proof fn lemma_fill_grows(s: Seq<u64>, avail: int, k: nat)
    requires
        k > 0,
        greedy_fill(s, avail, k) is Some,
    ensures
        greedy_fill(s, avail, (k - 1) as nat) is Some,
        greedy_fill(s, avail, (k - 1) as nat).unwrap().0 <= greedy_fill(s, avail, k).unwrap().0,
{
}

/// With more room the fill places at least as many blocks; while the
/// tighter fill is still going, both fills agree.
proof fn lemma_fill_monotone(s: Seq<u64>, a1: int, a2: int, k: nat)
    requires
        a1 <= a2,
        greedy_fill(s, a1, k) is Some,
        greedy_fill(s, a2, k) is Some,
    ensures
        greedy_fill(s, a1, k).unwrap().0 <= greedy_fill(s, a2, k).unwrap().0,
        !greedy_fill(s, a1, k).unwrap().2 ==> greedy_fill(s, a1, k) == greedy_fill(s, a2, k),
    decreases k,
{
    if k > 0 {
        let j = (k - 1) as nat;
        lemma_fill_grows(s, a1, k);
        lemma_fill_grows(s, a2, k);
        lemma_fill_monotone(s, a1, a2, j);
    }
}

/// The costs sorted largest first have as many entries as the costs.
proof fn lemma_sorted_len(per_layer: Seq<u64>)
    ensures
        per_layer.sort_by(cost_geq()).len() == per_layer.len(),
{
    lemma_cost_geq_total();
    per_layer.lemma_sort_by_ensures(cost_geq());
    vstd::seq_lib::to_multiset_len(per_layer);
    vstd::seq_lib::to_multiset_len(per_layer.sort_by(cost_geq()));
}

/// Every cost is at least the KV bytes it includes, so the blocks a fill
/// places carry at least their KV cache in bytes.
proof fn lemma_fill_kv(s: Seq<u64>, avail: int, k: nat, kv: int)
    requires
        0 <= kv,
        forall|j: int| 0 <= j < s.len() ==> s[j] >= kv,
        k <= s.len(),
    ensures
        greedy_fill(s, avail, k) matches Some((n, used, _)) ==> 0 <= n * kv <= used,
    decreases k,
{
    if k > 0 {
        lemma_fill_kv(s, avail, (k - 1) as nat, kv);
        lemma_fill_bounds(s, avail, (k - 1) as nat);
        match greedy_fill(s, avail, (k - 1) as nat) {
            Some((n, used, stopped)) => {
                assert((n + 1) * kv == n * kv + kv) by (nonlinear_arith);
                assert(0 <= n * kv) by (nonlinear_arith)
                    requires
                        0 <= n,
                        0 <= kv,
                ;
            },
            None => {},
        }
    }
}

/// Each block costs at least its KV bytes.
proof fn lemma_costs_cover_kv(v: FileView, n: int, kv: int)
    requires
        0 <= kv,
        0 <= n,
        per_layer_fits(group_blocks(v.tensors), n, kv),
    ensures
        forall|j: int|
            0 <= j < per_layer_of(group_blocks(v.tensors), n, kv).sort_by(cost_geq()).len() ==> per_layer_of(
                group_blocks(v.tensors),
                n,
                kv,
            ).sort_by(cost_geq())[j] >= kv,
{
    let per = per_layer_of(group_blocks(v.tensors), n, kv);
    let sorted = per.sort_by(cost_geq());
    lemma_cost_geq_total();
    per.lemma_sort_by_ensures(cost_geq());
    lemma_sums_nonneg(v.tensors);
    assert forall|j: int| 0 <= j < sorted.len() implies sorted[j] >= kv by {
        assert(sorted.contains(sorted[j]));
        assert(per.contains(sorted[j]));
        let i = choose|i: int| 0 <= i < per.len() && per[i] == sorted[j];
        assert(block_weight(group_blocks(v.tensors), i) + kv <= u64::MAX);
        assert(block_weight(group_blocks(v.tensors), i) >= 0);
    }
}

/// The compute-graph sizes are never negative.
proof fn lemma_graph_nonneg(e: int, h: int, eh: int, hkv: int, c: int, b: int, voc: int)
    requires
        0 <= e,
        0 <= h,
        0 <= eh,
        0 <= hkv,
        0 <= c,
        0 <= b,
        0 <= voc,
    ensures
        0 <= spec_graph_full(e, h, c, b, voc),
        0 <= spec_graph_partial(e, h, eh, hkv, c, b, voc),
{
    assert(0 <= 4 * b * (e + voc)) by (nonlinear_arith)
        requires
            0 <= b,
            0 <= e + voc,
    ;
    assert(0 <= 4 * b * e) by (nonlinear_arith)
        requires
            0 <= b,
            0 <= e,
    ;
    assert(0 <= e * voc * 105 / 128) by (nonlinear_arith)
        requires
            0 <= e,
            0 <= voc,
    ;
}

/// An estimate is self-consistent: it offloads between none and all of the
/// blocks, lists one cost per block, charges one block's KV cache per
/// offloaded block, counts the output layer and the full-offload graph
/// exactly when everything is offloaded, and its total is the sum of its
/// parts.
pub proof fn lemma_estimate_consistent(v: FileView, o: EstimateOptions)
    ensures
        spec_fit(v, o) matches Some(Ok(e)) ==> {
            let d = dims_of(v);
            let kv = kv_cache_bytes(kv_elems(d, o), encode_utf8(o.kv_cache_type@));
            &&& 0 <= e.layers <= d.block_count
            &&& e.per_layer_bytes.len() == d.block_count
            &&& e.kv_cache == e.layers * kv
            &&& e.total_vram == e.weights + e.kv_cache + e.graph
            &&& (e.fully_offloaded ==> e.layers == d.block_count)
            &&& e.graph == if e.fully_offloaded {
                spec_graph_full(d.embedding as int, d.heads as int, ctx_of(o), batch_of(o), d.vocab as int)
            } else {
                spec_graph_partial(
                    d.embedding as int,
                    d.heads as int,
                    d.key_len as int,
                    d.heads_kv as int,
                    ctx_of(o),
                    batch_of(o),
                    d.vocab as int,
                )
            }
            &&& e.approximate == d.approximate
        },
{
    let d = dims_of(v);
    match spec_fit(v, o) {
        Some(Ok(e)) => {
            assert(fit_supported(v, d, o) == Some(e));
            let kv = kv_cache_bytes(kv_elems(d, o), encode_utf8(o.kv_cache_type@));
            let per_layer = per_layer_of(group_blocks(v.tensors), d.block_count as int, kv);
            assert(d.block_count >= 0);
            assert(per_layer.len() == d.block_count);
            lemma_sorted_len(per_layer);
            let full = spec_graph_full(d.embedding as int, d.heads as int, ctx_of(o), batch_of(o), d.vocab as int);
            let partial = spec_graph_partial(
                d.embedding as int,
                d.heads as int,
                d.key_len as int,
                d.heads_kv as int,
                ctx_of(o),
                batch_of(o),
                d.vocab as int,
            );
            let avail = wrap_i64(o.free_vram as int) - wrap_i64(reserve_of(o)) - wrap_i64(partial);
            lemma_fill_bounds(per_layer.sort_by(cost_geq()), avail, per_layer.len());
            let nu = fit_blocks(per_layer, avail).unwrap();
            assert(fit_blocks(per_layer, avail) is Some);
            assert(0 <= nu.0 <= d.block_count);
            assert(fit_totals(v, d, o, per_layer, kv, full, partial, nu.0, nu.1) == Some(e));
            lemma_costs_cover_kv(v, d.block_count as int, kv);
            lemma_fill_kv(per_layer.sort_by(cost_geq()), avail, per_layer.len(), kv);
            assert(0 <= nu.0 * kv <= nu.1 <= u64::MAX);
            lemma_sums_nonneg(v.tensors);
            lemma_graph_nonneg(
                d.embedding as int,
                d.heads as int,
                d.key_len as int,
                d.heads_kv as int,
                ctx_of(o),
                batch_of(o),
                d.vocab as int,
            );
            assert(0 <= output_bytes(v.tensors));
        },
        _ => {},
    }
}

/// The number of blocks an estimate offloads.
pub open spec fn fitted_layers(v: FileView, o: EstimateOptions) -> int {
    match spec_fit(v, o) {
        Some(Ok(e)) => e.layers as int,
        _ => 0,
    }
}

/// The blocks placed for a supported model: the fill count over its costs
/// with the room left after the reserve and the partial-offload graph.
proof fn lemma_layers_are_fill(v: FileView, o: EstimateOptions)
    requires
        spec_fit(v, o) matches Some(Ok(_)),
    ensures
        ({
            let d = dims_of(v);
            let kv = kv_cache_bytes(kv_elems(d, o), encode_utf8(o.kv_cache_type@));
            let per_layer = per_layer_of(group_blocks(v.tensors), d.block_count as int, kv);
            let partial = spec_graph_partial(
                d.embedding as int,
                d.heads as int,
                d.key_len as int,
                d.heads_kv as int,
                ctx_of(o),
                batch_of(o),
                d.vocab as int,
            );
            let avail = wrap_i64(o.free_vram as int) - wrap_i64(reserve_of(o)) - wrap_i64(partial);
            &&& fit_blocks(per_layer, avail) is Some
            &&& fitted_layers(v, o) == fit_blocks(per_layer, avail).unwrap().0
            &&& d.block_count >= 0
        }),
{
    lemma_estimate_consistent(v, o);
    let d = dims_of(v);
    let kv = kv_cache_bytes(kv_elems(d, o), encode_utf8(o.kv_cache_type@));
    let per_layer = per_layer_of(group_blocks(v.tensors), d.block_count as int, kv);
    lemma_sorted_len(per_layer);
    let partial = spec_graph_partial(
        d.embedding as int,
        d.heads as int,
        d.key_len as int,
        d.heads_kv as int,
        ctx_of(o),
        batch_of(o),
        d.vocab as int,
    );
    let avail = wrap_i64(o.free_vram as int) - wrap_i64(reserve_of(o)) - wrap_i64(partial);
    if avail > 0 {
        lemma_fill_bounds(per_layer.sort_by(cost_geq()), avail, per_layer.len());
    }
}

/// The options `a` and `b` agree on everything but the budget and the extra
/// reserve.
pub open spec fn same_request(a: EstimateOptions, b: EstimateOptions) -> bool {
    &&& a.num_ctx == b.num_ctx
    &&& a.batch_size == b.batch_size
    &&& a.num_parallel == b.num_parallel
    &&& a.kv_cache_type@ == b.kv_cache_type@
    &&& a.min_reserve_bytes == b.min_reserve_bytes
}

/// With the budget and the reserve held to the signed 64-bit range, a
/// larger budget or a smaller extra reserve never offloads fewer blocks of
/// the same model.
pub proof fn lemma_more_room_not_fewer_layers(v: FileView, o1: EstimateOptions, o2: EstimateOptions)
    requires
        same_request(o1, o2),
        o1.free_vram <= o2.free_vram <= i64::MAX,
        o2.overhead_bytes <= o1.overhead_bytes,
        reserve_of(o1) <= i64::MAX,
        spec_fit(v, o1) matches Some(Ok(_)),
        spec_fit(v, o2) matches Some(Ok(_)),
    ensures
        fitted_layers(v, o1) <= fitted_layers(v, o2),
{
    lemma_layers_are_fill(v, o1);
    lemma_layers_are_fill(v, o2);
    let d = dims_of(v);
    let kv = kv_cache_bytes(kv_elems(d, o1), encode_utf8(o1.kv_cache_type@));
    let per_layer = per_layer_of(group_blocks(v.tensors), d.block_count as int, kv);
    let partial = spec_graph_partial(
        d.embedding as int,
        d.heads as int,
        d.key_len as int,
        d.heads_kv as int,
        ctx_of(o1),
        batch_of(o1),
        d.vocab as int,
    );
    let a1 = wrap_i64(o1.free_vram as int) - wrap_i64(reserve_of(o1)) - wrap_i64(partial);
    let a2 = wrap_i64(o2.free_vram as int) - wrap_i64(reserve_of(o2)) - wrap_i64(partial);
    assert(a1 <= a2);
    lemma_fill_bounds(per_layer.sort_by(cost_geq()), a2, per_layer.len());
    if a1 > 0 {
        lemma_fill_monotone(per_layer.sort_by(cost_geq()), a1, a2, per_layer.len());
    }
}

/// The options `a` and `b` come to the same request once their defaults
/// are filled in: the same context, batch and parallelism, a KV-cache type
/// of the same size per element, the same reserve and the same budget.
/// Nothing else of the options (`flash_attention`) enters the estimate.
pub open spec fn same_effective_options(a: EstimateOptions, b: EstimateOptions) -> bool {
    &&& spec_or_default(a.num_ctx, 2048) == spec_or_default(b.num_ctx, 2048)
    &&& spec_or_default(a.batch_size, 512) == spec_or_default(b.batch_size, 512)
    &&& spec_or_default(a.num_parallel, 1) == spec_or_default(b.num_parallel, 1)
    &&& spec_kv_bytes_per_element(encode_utf8(a.kv_cache_type@)) == spec_kv_bytes_per_element(
        encode_utf8(b.kv_cache_type@),
    )
    &&& reserve_of(a) == reserve_of(b)
    &&& a.free_vram == b.free_vram
}

/// Law: spelling out a default (a context of 2048 for 0, a batch of 512,
/// one sequence, `f16` for an empty cache type, the default minimum
/// reserve for 0) or toggling `flash_attention` does not change the
/// estimate of a parsed file.
pub proof fn lemma_fit_ignores_spelled_defaults(v: FileView, a: EstimateOptions, b: EstimateOptions)
    requires
        same_effective_options(a, b),
    ensures
        spec_fit(v, a) == spec_fit(v, b),
{
    let d = dims_of(v);
    assert(ctx_of(a) == ctx_of(b));
    assert(batch_of(a) == batch_of(b));
    assert(kv_elems(d, a) == kv_elems(d, b));
    assert(kv_cache_bytes(kv_elems(d, a), encode_utf8(a.kv_cache_type@)) == kv_cache_bytes(
        kv_elems(d, b),
        encode_utf8(b.kv_cache_type@),
    ));
    let kv = kv_cache_bytes(kv_elems(d, a), encode_utf8(a.kv_cache_type@));
    let per_layer = per_layer_of(group_blocks(v.tensors), d.block_count as int, kv);
    let full = spec_graph_full(d.embedding as int, d.heads as int, ctx_of(a), batch_of(a), d.vocab as int);
    let partial = spec_graph_partial(
        d.embedding as int,
        d.heads as int,
        d.key_len as int,
        d.heads_kv as int,
        ctx_of(a),
        batch_of(a),
        d.vocab as int,
    );
    assert forall|n: int, used: int|
        fit_totals(v, d, a, per_layer, kv, full, partial, n, used) == #[trigger] fit_totals(
            v,
            d,
            b,
            per_layer,
            kv,
            full,
            partial,
            n,
            used,
        ) by {}
    assert(fit_supported(v, d, a) == fit_supported(v, d, b));
}

/// Law: `estimate_layers` gives the same outcome on the same image for two
/// option sets that differ only in spelled-out defaults or in
/// `flash_attention`.
pub proof fn lemma_estimate_ignores_spelled_defaults(bytes: Seq<u8>, a: EstimateOptions, b: EstimateOptions)
    requires
        same_effective_options(a, b),
    ensures
        estimate_defined(bytes, a) == estimate_defined(bytes, b),
        forall|r: Result<Estimate, GgufError>| #[trigger] estimate_result(bytes, a, r) == estimate_result(bytes, b, r),
{
    if let Ok(v) = p_file(bytes) {
        lemma_fit_ignores_spelled_defaults(v, a, b);
    }
}

/// Law: the dimensions an estimate reads keep the values the file gives,
/// and fill in what it lacks the way llama.cpp does: the KV head count
/// falls back to the attention head count, and a missing key or value
/// length to the per-head dimension `embedding_length / head_count` (so
/// the head dimension never depends on the KV head count).
pub proof fn lemma_dims_fallbacks(v: FileView)
    ensures
        dims_of(v).embedding == cfg_uint(v, "embedding_length"@),
        dims_of(v).heads == cfg_uint(v, "attention.head_count"@),
        cfg_uint(v, "attention.head_count_kv"@) != 0 ==> dims_of(v).heads_kv == cfg_uint(
            v,
            "attention.head_count_kv"@,
        ),
        cfg_uint(v, "attention.head_count_kv"@) == 0 ==> dims_of(v).heads_kv == dims_of(v).heads,
        cfg_uint(v, "attention.key_length"@) != 0 ==> dims_of(v).key_len == cfg_uint(v, "attention.key_length"@),
        cfg_uint(v, "attention.value_length"@) != 0 ==> dims_of(v).val_len == cfg_uint(
            v,
            "attention.value_length"@,
        ),
        cfg_uint(v, "attention.key_length"@) == 0 && dims_of(v).heads > 0 ==> dims_of(v).key_len
            * dims_of(v).heads <= dims_of(v).embedding < (dims_of(v).key_len + 1) * dims_of(v).heads,
        cfg_uint(v, "attention.value_length"@) == 0 && dims_of(v).heads > 0 ==> dims_of(v).val_len
            * dims_of(v).heads <= dims_of(v).embedding < (dims_of(v).val_len + 1) * dims_of(v).heads,
{
    let e = cfg_uint(v, "embedding_length"@);
    let h = cfg_uint(v, "attention.head_count"@);
    if h > 0 {
        let q = e / h;
        assert(q * h <= e < (q + 1) * h) by (nonlinear_arith)
            requires
                h > 0,
                q == e / h,
        ;
    }
}

} // verus!
