//! Commonly needed model facts, read from a GGUF image without loading the
//! model.

use vstd::prelude::*;
use vstd::string::StringSliceAdditionalSpecFns;
use vstd::utf8::{encode_utf8, valid_utf8};
use crate::gguf::gguf::{lookup, qualified_key, File, TensorView};
use crate::gguf::keyvalue::{spec_string_bytes, spec_uint, ValueView};
use crate::gguf::gguf::KeyValueView;
use crate::gguf::tensor::{spec_type_label, TensorType};
use crate::gguf::GgufError;
use crate::text::{lossy_string, decode_lossy, lemma_ascii_valid_utf8};

verus! {

/// Holds commonly-needed model facts, read without loading the model.
#[derive(Debug, PartialEq, Eq)]
pub struct Info {
    pub architecture: String,
    pub name: String,
    /// `general.file_type` (quant scheme enum).
    pub file_type: u32,
    /// Human label derived from `file_type` (fallback: dominant tensor type).
    pub quantization: String,
    pub context_length: u64,
    pub embedding_length: u64,
    /// Number of transformer blocks (layers).
    pub block_count: u64,
    pub head_count: u64,
    pub head_count_kv: u64,
    /// Empty if the model embeds no chat template.
    pub chat_template: String,
    pub num_tensors: usize,
}

impl Default for Info {
    fn default() -> (r: Info)
        ensures
            r.architecture@.len() == 0,
            r.name@.len() == 0,
            r.file_type == 0,
            r.quantization@.len() == 0,
            r.context_length == 0,
            r.embedding_length == 0,
            r.block_count == 0,
            r.head_count == 0,
            r.head_count_kv == 0,
            r.chat_template@.len() == 0,
            r.num_tensors == 0,
    {
        Info {
            architecture: String::new(),
            name: String::new(),
            file_type: 0,
            quantization: String::new(),
            context_length: 0,
            embedding_length: 0,
            block_count: 0,
            head_count: 0,
            head_count_kv: 0,
            chat_template: String::new(),
            num_tensors: 0,
        }
    }
}

/// The value a `File::key_value(key)` lookup finds.
pub open spec fn meta(kvs: Seq<KeyValueView>, key: Seq<char>) -> Option<ValueView> {
    lookup(kvs, qualified_key(kvs, encode_utf8(key)))
}

/// Label of the well-known `llama_ftype` values.
pub open spec fn spec_file_type_name(ft: u32) -> Option<Seq<char>> {
    match ft {
        0 => Some("F32"@),
        1 => Some("F16"@),
        2 => Some("Q4_0"@),
        3 => Some("Q4_1"@),
        7 => Some("Q8_0"@),
        8 => Some("Q5_0"@),
        9 => Some("Q5_1"@),
        10 => Some("Q2_K"@),
        11 => Some("Q3_K_S"@),
        12 => Some("Q3_K_M"@),
        13 => Some("Q3_K_L"@),
        14 => Some("Q4_K_S"@),
        15 => Some("Q4_K_M"@),
        16 => Some("Q5_K_S"@),
        17 => Some("Q5_K_M"@),
        18 => Some("Q6_K"@),
        _ => None,
    }
}

/// Maps the well-known llama_ftype enum values to labels.
pub fn file_type_names(ft: u32) -> (r: Option<&'static str>)
    ensures
        match spec_file_type_name(ft) {
            Some(n) => r matches Some(s) && s@ == n,
            None => r is None,
        },
{
    match ft {
        0 => Some("F32"),
        1 => Some("F16"),
        2 => Some("Q4_0"),
        3 => Some("Q4_1"),
        7 => Some("Q8_0"),
        8 => Some("Q5_0"),
        9 => Some("Q5_1"),
        10 => Some("Q2_K"),
        11 => Some("Q3_K_S"),
        12 => Some("Q3_K_M"),
        13 => Some("Q3_K_L"),
        14 => Some("Q4_K_S"),
        15 => Some("Q4_K_M"),
        16 => Some("Q5_K_S"),
        17 => Some("Q5_K_M"),
        18 => Some("Q6_K"),
        _ => None,
    }
}

/// Number of descriptors of tensor type `t`.
pub open spec fn count_type(ts: Seq<TensorView>, t: u32) -> nat
    decreases ts.len(),
{
    if ts.len() == 0 {
        0
    } else {
        count_type(ts.drop_last(), t) + if ts.last().tensor_type == t { 1nat } else { 0nat }
    }
}

/// Decimal digits of `n`, as ASCII bytes.
pub open spec fn decimal(n: nat) -> Seq<u8>
    decreases n,
{
    if n < 10 {
        seq![(48 + n) as u8]
    } else {
        decimal(n / 10).push((48 + n % 10) as u8)
    }
}

/// `ftype_` followed by the decimal value.
pub open spec fn ftype_fallback(ft: u32) -> Seq<u8> {
    seq![102u8, 116u8, 121u8, 112u8, 101u8, 95u8] + decimal(ft as nat)
}

/// `label` is the quantization label for file type `ft`: its well-known
/// name; otherwise the upper-case name of a tensor type that occurs most
/// often (any of them when several tie); otherwise (no tensors)
/// `ftype_<ft>`.
pub open spec fn is_quant_label(ft: u32, ts: Seq<TensorView>, label: Seq<char>) -> bool {
    match spec_file_type_name(ft) {
        Some(n) => label == n,
        None => if ts.len() == 0 {
            encode_utf8(label) == ftype_fallback(ft)
        } else {
            exists|t: u32|
                count_type(ts, t) > 0 && (forall|u: u32| count_type(ts, u) <= #[trigger] count_type(ts, t))
                    && label == spec_type_label(t)
        },
    }
}

/// Every digit of `decimal(n)` is an ASCII byte.
proof fn lemma_decimal_ascii(n: nat)
    ensures
        forall|i: int| 0 <= i < decimal(n).len() ==> #[trigger] decimal(n)[i] <= 0x7f,
    decreases n,
{
    if n < 10 {
        assert(decimal(n)[0] == (48 + n) as u8);
    } else {
        lemma_decimal_ascii(n / 10);
        let d = n % 10;
        assert(0 <= d < 10);
        assert(((48 + d) as u8) as int == 48 + d);
        assert(decimal(n) == decimal(n / 10).push((48 + d) as u8));
    }
}

/// ASCII decimal rendering of `n`.
fn decimal_bytes(n: u32) -> (r: Vec<u8>)
    ensures
        r@ == decimal(n as nat),
    decreases n,
{
    if n < 10 {
        let d = (48 + n) as u8;
        let mut v: Vec<u8> = Vec::new();
        v.push(d);
        assert(v@ =~= decimal(n as nat));
        v
    } else {
        let mut v = decimal_bytes(n / 10);
        v.push((48 + n % 10) as u8);
        v
    }
}

proof fn lemma_count_step(ts: Seq<TensorView>, i: int, t: u32)
    requires
        0 <= i < ts.len(),
    ensures
        count_type(ts.subrange(0, i + 1), t) == count_type(ts.subrange(0, i), t) + if ts[i].tensor_type == t { 1nat } else { 0nat },
{
    assert(ts.subrange(0, i + 1).drop_last() =~= ts.subrange(0, i));
}

/// Counting a type that never occurs gives zero.
proof fn lemma_count_absent(ts: Seq<TensorView>, t: u32)
    requires
        forall|j: int| 0 <= j < ts.len() ==> (#[trigger] ts[j]).tensor_type != t,
    ensures
        count_type(ts, t) == 0,
    decreases ts.len(),
{
    if ts.len() > 0 {
        assert forall|j: int| 0 <= j < ts.drop_last().len() implies (#[trigger] ts.drop_last()[j]).tensor_type != t by {
            assert(ts.drop_last()[j] == ts[j]);
        }
        lemma_count_absent(ts.drop_last(), t);
    }
}

/// Returns a human quantization label for a `file_type` enum value.
/// Unknown enums fall back to the dominant tensor type, then to "ftype_N".
#[verifier::loop_isolation(false)]
fn quant_label(ft: u32, f: &File) -> (r: String)
    ensures
        is_quant_label(ft, f@.tensors, r@),
{
    if let Some(name) = file_type_names(ft) {
        return name.to_owned();
    }
    let ts = f.tensor_infos();
    let ghost views = f@.tensors;
    // Distinct tensor types in order of first appearance, with their counts.
    let mut types: Vec<u32> = Vec::new();
    let mut counts: Vec<u64> = Vec::new();
    let mut i: usize = 0;
    while i < ts.len()
        invariant
            i <= ts@.len(),
            views == ts@.map_values(|t: crate::gguf::tensor::TensorInfo| crate::gguf::gguf::tensor_view(t)),
            types@.len() == counts@.len(),
            types@.len() <= i,
            i > 0 ==> types@.len() > 0,
            views.len() == ts@.len(),
            forall|a: int, b: int| 0 <= a < b < types@.len() ==> types@[a] != types@[b],
            forall|k: int| 0 <= k < types@.len() ==> (#[trigger] counts@[k]) as nat == count_type(views.subrange(0, i as int), types@[k]),
            forall|k: int| 0 <= k < types@.len() ==> counts@[k] <= i,
            forall|j: int| 0 <= j < i ==> exists|k: int| 0 <= k < types@.len() && types@[k] == (#[trigger] views[j]).tensor_type,
        decreases ts@.len() - i,
    {
        let t = ts[i].tensor_type.0;
        assert(views[i as int].tensor_type == t);
        let mut k: usize = 0;
        while k < types.len()
            invariant
                k <= types@.len(),
                forall|m: int| 0 <= m < k ==> types@[m] != t,
            decreases types@.len() - k,
        {
            if types[k] == t {
                break;
            }
            k = k + 1;
        }
        proof {
            assert forall|u: u32| count_type(views.subrange(0, i + 1), u) == count_type(views.subrange(0, i as int), u) + if views[i as int].tensor_type == u { 1nat } else { 0nat } by {
                lemma_count_step(views, i as int, u);
            }
        }
        let ghost old_types = types@;
        let ghost old_counts = counts@;
        if k < types.len() {
            let c = counts[k];
            counts.set(k, c + 1);
            proof {
                assert forall|m: int| 0 <= m < types@.len() implies (#[trigger] counts@[m]) as nat == count_type(views.subrange(0, i + 1), types@[m]) by {
                    assert(old_counts[m] as nat == count_type(views.subrange(0, i as int), old_types[m]));
                }
                assert forall|j: int| 0 <= j < i + 1 implies exists|kk: int| 0 <= kk < types@.len() && types@[kk] == (#[trigger] views[j]).tensor_type by {
                    if j == i {
                        assert(types@[k as int] == views[j].tensor_type);
                    }
                }
            }
        } else {
            proof {
                assert forall|m: int| 0 <= m < i implies (#[trigger] views.subrange(0, i as int)[m]).tensor_type != t by {
                    assert(views.subrange(0, i as int)[m] == views[m]);
                }
                lemma_count_absent(views.subrange(0, i as int), t);
            }
            types.push(t);
            counts.push(1);
            proof {
                assert forall|m: int| 0 <= m < types@.len() implies (#[trigger] counts@[m]) as nat == count_type(views.subrange(0, i + 1), types@[m]) by {
                    if m < old_types.len() {
                        assert(old_counts[m] as nat == count_type(views.subrange(0, i as int), old_types[m]));
                        assert(old_types[m] != t);
                    }
                }
                assert forall|j: int| 0 <= j < i + 1 implies exists|kk: int| 0 <= kk < types@.len() && types@[kk] == (#[trigger] views[j]).tensor_type by {
                    if j == i {
                        assert(types@[old_types.len() as int] == views[j].tensor_type);
                    } else {
                        let kk = choose|kk: int| 0 <= kk < old_types.len() && old_types[kk] == views[j].tensor_type;
                        assert(types@[kk] == views[j].tensor_type);
                    }
                }
            }
        }
        i = i + 1;
    }
    if types.len() == 0 {
        proof {
            assert(views.len() == 0);
        }
        let mut label: Vec<u8> = Vec::new();
        label.push(102u8);
        label.push(116u8);
        label.push(121u8);
        label.push(112u8);
        label.push(101u8);
        label.push(95u8);
        let digits = decimal_bytes(ft);
        let mut j: usize = 0;
        while j < digits.len()
            invariant
                j <= digits@.len(),
                label@ == seq![102u8, 116u8, 121u8, 112u8, 101u8, 95u8] + digits@.subrange(0, j as int),
            decreases digits@.len() - j,
        {
            label.push(digits[j]);
            j = j + 1;
            assert(digits@.subrange(0, j as int) =~= digits@.subrange(0, j - 1).push(digits@[j - 1]));
        }
        assert(digits@.subrange(0, digits@.len() as int) =~= digits@);
        proof {
            lemma_decimal_ascii(ft as nat);
            assert(forall|i: int| 0 <= i < label@.len() ==> #[trigger] label@[i] <= 0x7f);
            lemma_ascii_valid_utf8(label@);
        }
        return lossy_string(label.as_slice());
    }
    assert(views.subrange(0, views.len() as int) =~= views);
    let mut best: usize = 0;
    let mut b: usize = 1;
    while b < types.len()
        invariant
            1 <= b <= types@.len(),
            best < b,
            types@.len() == counts@.len(),
            forall|m: int| 0 <= m < b ==> counts@[m] <= counts@[best as int],
        decreases types@.len() - b,
    {
        if counts[b] > counts[best] {
            best = b;
        }
        b = b + 1;
    }
    let winner = TensorType(types[best]);
    proof {
        assert forall|u: u32| #[trigger] count_type(views, u) <= count_type(views, types@[best as int]) by {
            let found = exists|k: int| 0 <= k < types@.len() && types@[k] == u;
            if found {
                let k = choose|k: int| 0 <= k < types@.len() && types@[k] == u;
                assert(counts@[k] <= counts@[best as int]);
            } else {
                assert forall|m: int| 0 <= m < views.len() implies (#[trigger] views[m]).tensor_type != u by {
                    if views[m].tensor_type == u {
                        assert(exists|k: int| 0 <= k < types@.len() && types@[k] == views[m].tensor_type);
                    }
                }
                lemma_count_absent(views, u);
            }
        }
        assert(counts@[best as int] >= 1) by {
            assert(views.len() > 0);
            assert(exists|k: int| 0 <= k < types@.len() && types@[k] == (#[trigger] views[0]).tensor_type);
            let k = choose|k: int| 0 <= k < types@.len() && types@[k] == views[0].tensor_type;
            assert(counts@[k] <= counts@[best as int]);
            lemma_count_absent_converse(views, views[0].tensor_type, 0);
        }
    }
    winner.label().to_owned()
}

/// A type that occurs counts at least once.
proof fn lemma_count_absent_converse(ts: Seq<TensorView>, t: u32, j: int)
    requires
        0 <= j < ts.len(),
        ts[j].tensor_type == t,
    ensures
        count_type(ts, t) >= 1,
    decreases ts.len(),
{
    if j < ts.len() - 1 {
        assert(ts.drop_last()[j] == ts[j]);
        lemma_count_absent_converse(ts.drop_last(), t, j);
    }
}

/// Reads common metadata from a parsed GGUF file. Missing keys yield zero
/// values (empty strings), not errors — GGUF keys vary by architecture.
pub fn stat_file(f: &File) -> (info: Info)
    ensures
        info_of(f@, info),
{
    let file_type = f.key_value("general.file_type").uint() as u32;
    let quantization = quant_label(file_type, f);
    Info {
        architecture: f.key_value("general.architecture").string(),
        name: f.key_value("general.name").string(),
        file_type,
        context_length: f.key_value("context_length").uint(),
        embedding_length: f.key_value("embedding_length").uint(),
        block_count: f.key_value("block_count").uint(),
        head_count: f.key_value("attention.head_count").uint(),
        head_count_kv: f.key_value("attention.head_count_kv").uint(),
        chat_template: f.key_value("tokenizer.chat_template").string(),
        num_tensors: f.num_tensors(),
        quantization,
    }
}

/// Parses a GGUF image and reads its common metadata (see `stat_file`).
pub fn stat(bytes: &[u8]) -> (res: Result<Info, GgufError>)
    requires
        bytes@.len() <= i64::MAX,
    ensures
        match crate::gguf::gguf::p_file(bytes@) {
            Ok(v) => res matches Ok(info) && info_of(v, info),
            Err(fl) => res matches Err(e) && crate::gguf::gguf::reports(e, fl),
        },
{
    let f = File::parse(bytes)?;
    Ok(stat_file(&f))
}

/// `info` is what `stat_file` reads from a file of form `f`.
pub open spec fn info_of(f: crate::gguf::gguf::FileView, info: Info) -> bool {
    &&& encode_utf8(info.architecture@) == decode_lossy(spec_string_bytes(meta(f.key_values, "general.architecture"@)))
    &&& encode_utf8(info.name@) == decode_lossy(spec_string_bytes(meta(f.key_values, "general.name"@)))
    &&& info.file_type == spec_uint(meta(f.key_values, "general.file_type"@)) as u32
    &&& info.context_length == spec_uint(meta(f.key_values, "context_length"@))
    &&& info.embedding_length == spec_uint(meta(f.key_values, "embedding_length"@))
    &&& info.block_count == spec_uint(meta(f.key_values, "block_count"@))
    &&& info.head_count == spec_uint(meta(f.key_values, "attention.head_count"@))
    &&& info.head_count_kv == spec_uint(meta(f.key_values, "attention.head_count_kv"@))
    &&& encode_utf8(info.chat_template@) == decode_lossy(spec_string_bytes(meta(f.key_values, "tokenizer.chat_template"@)))
    &&& info.num_tensors == f.tensors.len()
    &&& is_quant_label(info.file_type, f.tensors, info.quantization@)
}

/// `v` is present and holds an unsigned integer.
pub open spec fn holds_uint(v: Option<ValueView>) -> bool {
    v matches Some(ValueView::U8(_)) || v matches Some(ValueView::U16(_)) || v matches Some(
        ValueView::U32(_),
    ) || v matches Some(ValueView::U64(_))
}

/// `v` is present and holds a string.
pub open spec fn holds_string(v: Option<ValueView>) -> bool {
    v matches Some(ValueView::String(_))
}

/// A string field whose key is missing or holds no string reads as "".
proof fn lemma_missing_string(v: Option<ValueView>, s: Seq<char>)
    requires
        !holds_string(v),
        encode_utf8(s) == decode_lossy(spec_string_bytes(v)),
    ensures
        s == Seq::<char>::empty(),
{
    broadcast use vstd::utf8::encode_utf8_decode_utf8;

    assert(valid_utf8(Seq::<u8>::empty()));
    assert(encode_utf8(s) == Seq::<u8>::empty());
    assert(vstd::utf8::decode_utf8(encode_utf8(s)) == s);
    assert(vstd::utf8::decode_utf8(Seq::<u8>::empty()) =~= Seq::<char>::empty());
}

/// Law: metadata that a file lacks is never an error of `stat`; a key that
/// is missing, or holds a value of another kind, reads as 0 or "" — and a
/// file type that reads as 0 is labelled `F32`. The tensor count is always
/// the file's.
pub proof fn lemma_stat_missing_keys(f: crate::gguf::gguf::FileView, info: Info)
    requires
        info_of(f, info),
    ensures
        !holds_string(meta(f.key_values, "general.architecture"@)) ==> info.architecture@ == Seq::<char>::empty(),
        !holds_string(meta(f.key_values, "general.name"@)) ==> info.name@ == Seq::<char>::empty(),
        !holds_string(meta(f.key_values, "tokenizer.chat_template"@)) ==> info.chat_template@ == Seq::<
            char,
        >::empty(),
        !holds_uint(meta(f.key_values, "general.file_type"@)) ==> info.file_type == 0 && info.quantization@
            == "F32"@,
        !holds_uint(meta(f.key_values, "context_length"@)) ==> info.context_length == 0,
        !holds_uint(meta(f.key_values, "embedding_length"@)) ==> info.embedding_length == 0,
        !holds_uint(meta(f.key_values, "block_count"@)) ==> info.block_count == 0,
        !holds_uint(meta(f.key_values, "attention.head_count"@)) ==> info.head_count == 0,
        !holds_uint(meta(f.key_values, "attention.head_count_kv"@)) ==> info.head_count_kv == 0,
        info.num_tensors == f.tensors.len(),
{
    let kvs = f.key_values;
    if !holds_string(meta(kvs, "general.architecture"@)) {
        lemma_missing_string(meta(kvs, "general.architecture"@), info.architecture@);
    }
    if !holds_string(meta(kvs, "general.name"@)) {
        lemma_missing_string(meta(kvs, "general.name"@), info.name@);
    }
    if !holds_string(meta(kvs, "tokenizer.chat_template"@)) {
        lemma_missing_string(meta(kvs, "tokenizer.chat_template"@), info.chat_template@);
    }
}

/// Length, second character and last character of a label: enough to tell
/// the well-known file-type labels apart.
spec fn label_key(l: Seq<char>) -> (int, char, char) {
    (l.len() as int, l[1], l[l.len() - 1])
}

/// The key of the label of each well-known file type.
spec fn label_key_of(ft: u32) -> (int, char, char) {
    match ft {
        0 => (3int, '3', '2'),
        1 => (3int, '1', '6'),
        2 => (4int, '4', '0'),
        3 => (4int, '4', '1'),
        7 => (4int, '8', '0'),
        8 => (4int, '5', '0'),
        9 => (4int, '5', '1'),
        10 => (4int, '2', 'K'),
        11 => (6int, '3', 'S'),
        12 => (6int, '3', 'M'),
        13 => (6int, '3', 'L'),
        14 => (6int, '4', 'S'),
        15 => (6int, '4', 'M'),
        16 => (6int, '5', 'S'),
        17 => (6int, '5', 'M'),
        18 => (4int, '6', 'K'),
        _ => (0int, ' ', ' '),
    }
}

proof fn lemma_label_key(ft: u32)
    ensures
        spec_file_type_name(ft) matches Some(l) ==> label_key(l) == label_key_of(ft),
{
    if ft == 0 {
        reveal_strlit("F32");
        assert(label_key("F32"@) == (3int, '3', '2'));
    } else if ft == 1 {
        reveal_strlit("F16");
        assert(label_key("F16"@) == (3int, '1', '6'));
    } else if ft == 2 {
        reveal_strlit("Q4_0");
        assert(label_key("Q4_0"@) == (4int, '4', '0'));
    } else if ft == 3 {
        reveal_strlit("Q4_1");
        assert(label_key("Q4_1"@) == (4int, '4', '1'));
    } else if ft == 7 {
        reveal_strlit("Q8_0");
        assert(label_key("Q8_0"@) == (4int, '8', '0'));
    } else if ft == 8 {
        reveal_strlit("Q5_0");
        assert(label_key("Q5_0"@) == (4int, '5', '0'));
    } else if ft == 9 {
        reveal_strlit("Q5_1");
        assert(label_key("Q5_1"@) == (4int, '5', '1'));
    } else if ft == 10 {
        reveal_strlit("Q2_K");
        assert(label_key("Q2_K"@) == (4int, '2', 'K'));
    } else if ft == 11 {
        reveal_strlit("Q3_K_S");
        assert(label_key("Q3_K_S"@) == (6int, '3', 'S'));
    } else if ft == 12 {
        reveal_strlit("Q3_K_M");
        assert(label_key("Q3_K_M"@) == (6int, '3', 'M'));
    } else if ft == 13 {
        reveal_strlit("Q3_K_L");
        assert(label_key("Q3_K_L"@) == (6int, '3', 'L'));
    } else if ft == 14 {
        reveal_strlit("Q4_K_S");
        assert(label_key("Q4_K_S"@) == (6int, '4', 'S'));
    } else if ft == 15 {
        reveal_strlit("Q4_K_M");
        assert(label_key("Q4_K_M"@) == (6int, '4', 'M'));
    } else if ft == 16 {
        reveal_strlit("Q5_K_S");
        assert(label_key("Q5_K_S"@) == (6int, '5', 'S'));
    } else if ft == 17 {
        reveal_strlit("Q5_K_M");
        assert(label_key("Q5_K_M"@) == (6int, '5', 'M'));
    } else if ft == 18 {
        reveal_strlit("Q6_K");
        assert(label_key("Q6_K"@) == (4int, '6', 'K'));
    }
}

/// Law: no two file types share a label.
pub proof fn lemma_file_type_labels_distinct(ft1: u32, ft2: u32)
    requires
        spec_file_type_name(ft1) is Some,
        spec_file_type_name(ft1) == spec_file_type_name(ft2),
    ensures
        ft1 == ft2,
{
    lemma_label_key(ft1);
    lemma_label_key(ft2);
}

/// `l` is the label of tensor type `t`, alone or with a small, medium or
/// large size suffix.
pub open spec fn is_variant_label(l: Seq<char>, t: u32) -> bool {
    ||| l == spec_type_label(t)
    ||| l == spec_type_label(t) + "_S"@
    ||| l == spec_type_label(t) + "_M"@
    ||| l == spec_type_label(t) + "_L"@
}

/// Law: every file-type label names the tensor type the file is quantized
/// to, possibly with a size suffix.
pub proof fn lemma_file_type_label_names_tensor_type(ft: u32)
    requires
        spec_file_type_name(ft) is Some,
    ensures
        exists|t: u32| #[trigger] is_variant_label(spec_file_type_name(ft)->0, t),
{
    if ft == 0 {
        assert(is_variant_label(spec_file_type_name(ft)->0, 0u32));
    } else if ft == 1 {
        assert(is_variant_label(spec_file_type_name(ft)->0, 1u32));
    } else if ft == 2 {
        assert(is_variant_label(spec_file_type_name(ft)->0, 2u32));
    } else if ft == 3 {
        assert(is_variant_label(spec_file_type_name(ft)->0, 3u32));
    } else if ft == 7 {
        assert(is_variant_label(spec_file_type_name(ft)->0, 8u32));
    } else if ft == 8 {
        assert(is_variant_label(spec_file_type_name(ft)->0, 6u32));
    } else if ft == 9 {
        assert(is_variant_label(spec_file_type_name(ft)->0, 7u32));
    } else if ft == 10 {
        assert(is_variant_label(spec_file_type_name(ft)->0, 10u32));
    } else if ft == 11 {
        reveal_strlit("Q3_K_S");
        reveal_strlit("Q3_K");
        reveal_strlit("_S");
        assert("Q3_K_S"@ =~= spec_type_label(11u32) + "_S"@);
        assert(is_variant_label(spec_file_type_name(ft)->0, 11u32));
    } else if ft == 12 {
        reveal_strlit("Q3_K_M");
        reveal_strlit("Q3_K");
        reveal_strlit("_M");
        assert("Q3_K_M"@ =~= spec_type_label(11u32) + "_M"@);
        assert(is_variant_label(spec_file_type_name(ft)->0, 11u32));
    } else if ft == 13 {
        reveal_strlit("Q3_K_L");
        reveal_strlit("Q3_K");
        reveal_strlit("_L");
        assert("Q3_K_L"@ =~= spec_type_label(11u32) + "_L"@);
        assert(is_variant_label(spec_file_type_name(ft)->0, 11u32));
    } else if ft == 14 {
        reveal_strlit("Q4_K_S");
        reveal_strlit("Q4_K");
        reveal_strlit("_S");
        assert("Q4_K_S"@ =~= spec_type_label(12u32) + "_S"@);
        assert(is_variant_label(spec_file_type_name(ft)->0, 12u32));
    } else if ft == 15 {
        reveal_strlit("Q4_K_M");
        reveal_strlit("Q4_K");
        reveal_strlit("_M");
        assert("Q4_K_M"@ =~= spec_type_label(12u32) + "_M"@);
        assert(is_variant_label(spec_file_type_name(ft)->0, 12u32));
    } else if ft == 16 {
        reveal_strlit("Q5_K_S");
        reveal_strlit("Q5_K");
        reveal_strlit("_S");
        assert("Q5_K_S"@ =~= spec_type_label(13u32) + "_S"@);
        assert(is_variant_label(spec_file_type_name(ft)->0, 13u32));
    } else if ft == 17 {
        reveal_strlit("Q5_K_M");
        reveal_strlit("Q5_K");
        reveal_strlit("_M");
        assert("Q5_K_M"@ =~= spec_type_label(13u32) + "_M"@);
        assert(is_variant_label(spec_file_type_name(ft)->0, 13u32));
    } else if ft == 18 {
        assert(is_variant_label(spec_file_type_name(ft)->0, 14u32));
    }
}

/// Law: the size variants of one quantization are numbered in order: the
/// file type after a small (`_S`) variant is the medium (`_M`) one of the
/// same quantization, and the one before a large (`_L`) variant is the
/// medium one.
pub proof fn lemma_file_type_variants_in_order(ft: u32, x: Seq<char>)
    ensures
        0 < ft < u32::MAX && spec_file_type_name(ft) == Some(x + "_S"@) ==> spec_file_type_name(
            (ft + 1) as u32,
        ) == Some(x + "_M"@),
        0 < ft < u32::MAX && spec_file_type_name(ft) == Some(x + "_L"@) ==> spec_file_type_name(
            (ft - 1) as u32,
        ) == Some(x + "_M"@),
{
    reveal_strlit("_S");
    reveal_strlit("_M");
    reveal_strlit("_L");
    lemma_label_key(ft);
    if spec_file_type_name(ft) == Some(x + "_S"@) {
        let l = x + "_S"@;
        assert(l[l.len() - 1] == 'S');
        assert(ft == 11 || ft == 14 || ft == 16);
        if ft == 11 {
            reveal_strlit("Q3_K_S");
            reveal_strlit("Q3_K_M");
            assert(x =~= l.subrange(0, 4));
            assert("Q3_K_M"@ =~= x + "_M"@);
        } else if ft == 14 {
            reveal_strlit("Q4_K_S");
            reveal_strlit("Q4_K_M");
            assert(x =~= l.subrange(0, 4));
            assert("Q4_K_M"@ =~= x + "_M"@);
        } else {
            reveal_strlit("Q5_K_S");
            reveal_strlit("Q5_K_M");
            assert(x =~= l.subrange(0, 4));
            assert("Q5_K_M"@ =~= x + "_M"@);
        }
    }
    if spec_file_type_name(ft) == Some(x + "_L"@) {
        let l = x + "_L"@;
        assert(l[l.len() - 1] == 'L');
        assert(ft == 13);
        reveal_strlit("Q3_K_L");
        reveal_strlit("Q3_K_M");
        assert(x =~= l.subrange(0, 4));
        assert("Q3_K_M"@ =~= x + "_M"@);
    }
}

} // verus!
