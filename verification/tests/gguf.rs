use llama::gguf::estimate::{
    fit_layers, group_layers, kv_bytes_per_element, or_default, try_estimate_layers,
};
use llama::gguf::gguf::read_string;
use llama::gguf::metadata::file_type_names;
use llama::gguf::reader::BufferedReader;
use llama::gguf::{
    estimate_layers, llama_graph_size, stat, EstimateOptions, File, GgufError, GgufValue,
    TensorInfo, TensorType, Value,
};

const W_UINT32: u32 = 4;
const W_INT32: u32 = 5;
const W_FLOAT32: u32 = 6;
const W_BOOL: u32 = 7;
const W_STR: u32 = 8;
const W_ARRAY: u32 = 9;
const W_UINT64: u32 = 10;

#[allow(dead_code)]
enum KvVal {
    U32(u32),
    I32(i32),
    U64(u64),
    F32(f32),
    Bool(bool),
    Str(String),
    StrBytes(Vec<u8>),
    StrArray(Vec<String>),
    I32Array(Vec<i32>),
}

struct KvPair {
    key: String,
    val: KvVal,
}

fn kv_str(key: &str, val: &str) -> KvPair {
    KvPair { key: key.to_string(), val: KvVal::Str(val.to_string()) }
}

fn kv_u32(key: &str, val: u32) -> KvPair {
    KvPair { key: key.to_string(), val: KvVal::U32(val) }
}

struct TestTensor {
    name: String,
    tensor_type: u32,
    shape: Vec<u64>,
    data: Vec<u8>,
}

fn tensor(name: &str, tensor_type: u32, shape: &[u64], data: Vec<u8>) -> TestTensor {
    TestTensor { name: name.to_string(), tensor_type, shape: shape.to_vec(), data }
}

fn write_str_bytes(b: &mut Vec<u8>, s: &[u8]) {
    b.extend_from_slice(&(s.len() as u64).to_le_bytes());
    b.extend_from_slice(s);
}

fn write_str(b: &mut Vec<u8>, s: &str) {
    write_str_bytes(b, s.as_bytes());
}

fn w_value(b: &mut Vec<u8>, v: &KvVal) {
    match v {
        KvVal::U32(x) => {
            b.extend_from_slice(&W_UINT32.to_le_bytes());
            b.extend_from_slice(&x.to_le_bytes());
        }
        KvVal::I32(x) => {
            b.extend_from_slice(&W_INT32.to_le_bytes());
            b.extend_from_slice(&x.to_le_bytes());
        }
        KvVal::U64(x) => {
            b.extend_from_slice(&W_UINT64.to_le_bytes());
            b.extend_from_slice(&x.to_le_bytes());
        }
        KvVal::F32(x) => {
            b.extend_from_slice(&W_FLOAT32.to_le_bytes());
            b.extend_from_slice(&x.to_le_bytes());
        }
        KvVal::Bool(x) => {
            b.extend_from_slice(&W_BOOL.to_le_bytes());
            b.push(if *x { 1 } else { 0 });
        }
        KvVal::Str(x) => {
            b.extend_from_slice(&W_STR.to_le_bytes());
            write_str(b, x);
        }
        KvVal::StrBytes(x) => {
            b.extend_from_slice(&W_STR.to_le_bytes());
            write_str_bytes(b, x);
        }
        KvVal::StrArray(xs) => {
            b.extend_from_slice(&W_ARRAY.to_le_bytes());
            b.extend_from_slice(&W_STR.to_le_bytes());
            b.extend_from_slice(&(xs.len() as u64).to_le_bytes());
            for s in xs {
                write_str(b, s);
            }
        }
        KvVal::I32Array(xs) => {
            b.extend_from_slice(&W_ARRAY.to_le_bytes());
            b.extend_from_slice(&W_INT32.to_le_bytes());
            b.extend_from_slice(&(xs.len() as u64).to_le_bytes());
            for e in xs {
                b.extend_from_slice(&e.to_le_bytes());
            }
        }
    }
}

fn align_up(n: u64, a: u64) -> u64 {
    (n + a - 1) / a * a
}

/// Serializes a minimal valid GGUF v3 image.
fn write_gguf(kvs: &[KvPair], tensors: &[TestTensor]) -> Vec<u8> {
    const ALIGNMENT: u64 = 32;

    let mut b: Vec<u8> = Vec::new();
    b.extend_from_slice(b"GGUF");
    b.extend_from_slice(&3u32.to_le_bytes());
    b.extend_from_slice(&(tensors.len() as u64).to_le_bytes());

    b.extend_from_slice(&(kvs.len() as u64).to_le_bytes());
    for kv in kvs {
        write_str(&mut b, &kv.key);
        w_value(&mut b, &kv.val);
    }

    let mut offsets = vec![0u64; tensors.len()];
    let mut data_len: u64 = 0;
    for (i, t) in tensors.iter().enumerate() {
        data_len = align_up(data_len, ALIGNMENT);
        offsets[i] = data_len;
        data_len += t.data.len() as u64;
    }

    for (i, t) in tensors.iter().enumerate() {
        write_str(&mut b, &t.name);
        b.extend_from_slice(&(t.shape.len() as u32).to_le_bytes());
        for d in &t.shape {
            b.extend_from_slice(&d.to_le_bytes());
        }
        b.extend_from_slice(&t.tensor_type.to_le_bytes());
        b.extend_from_slice(&offsets[i].to_le_bytes());
    }

    let pad = (ALIGNMENT - (b.len() as u64) % ALIGNMENT) % ALIGNMENT;
    b.extend(std::iter::repeat(0u8).take(pad as usize));

    let mut data = vec![0u8; data_len as usize];
    for (i, t) in tensors.iter().enumerate() {
        let start = offsets[i] as usize;
        data[start..start + t.data.len()].copy_from_slice(&t.data);
    }
    b.extend_from_slice(&data);
    b
}

/// An n-block llama model: each block one F32 [64,16] tensor (4096 bytes),
/// embedding=64 heads=8 heads_kv=8 key=val=8 vocab=128.
fn sample_llama_model(n: usize) -> Vec<u8> {
    let kvs = vec![
        kv_str("general.architecture", "llama"),
        kv_str("general.name", "tiny-llama-fixture"),
        kv_u32("llama.block_count", n as u32),
        kv_u32("llama.embedding_length", 64),
        kv_u32("llama.attention.head_count", 8),
        kv_u32("llama.attention.head_count_kv", 8),
        kv_u32("llama.attention.key_length", 8),
        kv_u32("llama.attention.value_length", 8),
        kv_u32("llama.vocab_size", 128),
    ];
    let mut tensors = Vec::new();
    for i in 0..n {
        tensors.push(tensor(&format!("blk.{i}.attn.weight"), 0, &[64, 16], Vec::new()));
    }
    tensors.push(tensor("token_embd.weight", 0, &[128, 64], Vec::new()));
    tensors.push(tensor("output.weight", 0, &[64, 16], Vec::new()));
    write_gguf(&kvs, &tensors)
}

fn sample_model() -> Vec<u8> {
    write_gguf(
        &[
            kv_str("general.architecture", "llama"),
            kv_str("general.name", "tiny-test"),
            kv_u32("general.file_type", 7),
            kv_u32("llama.context_length", 4096),
            kv_u32("llama.embedding_length", 3),
            kv_u32("llama.block_count", 2),
            kv_u32("llama.attention.head_count", 2),
            kv_u32("llama.attention.head_count_kv", 1),
            kv_str("tokenizer.chat_template", "{{ .Prompt }}"),
        ],
        &[tensor("token_embd.weight", 0, &[2, 3], vec![0xAB; 24])],
    )
}

fn open(bytes: &[u8]) -> File {
    File::parse(bytes).expect("Open")
}

/// Reads the named tensor's data out of the image, as a tensor reader does.
fn tensor_data(bytes: &[u8], f: &File, name: &str) -> Result<Vec<u8>, GgufError> {
    let (_, start, len) = f.tensor_data_range(name).expect("size fits")?;
    let start = start as usize;
    Ok(bytes[start..start + len as usize].to_vec())
}

fn unwrap_estimate(bytes: &[u8], opts: &EstimateOptions) -> llama::gguf::Estimate {
    estimate_layers(bytes, opts).unwrap()
}

fn kv_fraction(cache_type: &str) -> f64 {
    let (n, d) = kv_bytes_per_element(cache_type);
    n as f64 / d as f64
}

/// (partial graph, kv bytes per layer, block weight) for the
/// `sample_llama_model` fixture.
fn fixture_graph(opts: &EstimateOptions) -> (u64, u64, u64) {
    let ctx = or_default(opts.num_ctx, 2048) as u64 * or_default(opts.num_parallel, 1) as u64;
    let batch = or_default(opts.batch_size, 512) as u64;
    let (_, partial) = llama_graph_size(64, 8, 8, 8, ctx, batch, 128);
    let (n, d) = kv_bytes_per_element(&opts.kv_cache_type);
    let kv_per_layer = ctx * (8 + 8) * 8 * n / d;
    (partial, kv_per_layer, 4096)
}

// ---- graph ----

#[test]
fn test_llama_graph_size() {
    let (full, partial) = llama_graph_size(64, 8, 8, 8, 16, 8, 128);
    assert_eq!(full, 12832);
    assert_eq!(partial, 16672);
}

// ---- parsing ----

#[test]
fn test_open_reads_header_and_kv() {
    let f = open(&sample_model());

    assert_eq!(f.num_tensors(), 1);
    assert_eq!(f.key_value("general.architecture").string(), "llama");
    assert_eq!(f.key_value("context_length").uint(), 4096);
    assert_eq!(f.key_value("block_count").uint(), 2);
}

#[test]
fn test_tensor_info_and_reader() {
    let bytes = sample_model();
    let f = open(&bytes);

    let ti = f.tensor_info("token_embd.weight");
    assert!(ti.valid(), "token_embd.weight not found");
    assert_eq!(ti.num_bytes(), 24);

    let data = tensor_data(&bytes, &f, "token_embd.weight").expect("TensorReader");
    assert_eq!(data.len(), 24);
    assert_eq!(data[0], 0xAB);
    assert_eq!(data[23], 0xAB);
}

#[test]
fn test_open_rejects_bad_magic() {
    let err = File::parse(b"NOPExxxxxxxxxxxx").expect_err("Open(bad magic) should fail");
    assert!(matches!(err, GgufError::BadMagic(_)), "Open(bad magic) err = {err:?}, want BadMagic");
}

#[test]
fn test_tensor_reader_multi_offset() {
    let bytes = write_gguf(
        &[kv_str("general.architecture", "llama")],
        &[tensor("a", 0, &[2, 3], vec![0x11; 24]), tensor("b", 0, &[1, 4], vec![0x22; 16])],
    );
    let f = open(&bytes);

    let bi = f.tensor_info("b");
    assert_eq!(bi.offset, 32);

    let db = tensor_data(&bytes, &f, "b").expect("TensorReader(b)");
    assert_eq!(db.len(), 16);
    assert_eq!(db[0], 0x22);
    assert_eq!(db[15], 0x22);

    let da = tensor_data(&bytes, &f, "a").expect("TensorReader(a)");
    assert_eq!(da.len(), 24);
    assert_eq!(da[0], 0x11);
    assert_eq!(da[23], 0x11);
}

#[test]
fn bad_magic_carries_the_bytes() {
    match File::parse(b"NOPExxxxxxxxxxxx") {
        Err(GgufError::BadMagic(m)) => assert_eq!(m, b"NOPE".to_vec()),
        other => panic!("unexpected {other:?}"),
    }
}

#[test]
fn old_version_is_unsupported() {
    let mut b = sample_model();
    b[4..8].copy_from_slice(&1u32.to_le_bytes());
    match File::parse(&b) {
        Err(GgufError::UnsupportedVersion(v)) => assert_eq!(v, 1),
        other => panic!("unexpected {other:?}"),
    }
}

#[test]
fn unknown_value_type_is_unsupported() {
    let mut b: Vec<u8> = Vec::new();
    b.extend_from_slice(b"GGUF");
    b.extend_from_slice(&3u32.to_le_bytes());
    b.extend_from_slice(&0u64.to_le_bytes());
    b.extend_from_slice(&1u64.to_le_bytes());
    write_str(&mut b, "k");
    b.extend_from_slice(&77u32.to_le_bytes());
    match File::parse(&b) {
        Err(GgufError::UnsupportedType(t)) => assert_eq!(t, 77),
        other => panic!("unexpected {other:?}"),
    }
}

#[test]
fn truncated_image_is_an_io_error() {
    let b = sample_model();
    for cut in [0usize, 3, 10, 30, 60] {
        match File::parse(&b[..cut]) {
            Err(GgufError::Io(e)) => assert_eq!(e.kind(), std::io::ErrorKind::UnexpectedEof),
            other => panic!("cut {cut}: unexpected {other:?}"),
        }
    }
}

#[test]
fn truncated_image_reports_what_read_exact_reports() {
    let b = sample_model();
    let mut short: &[u8] = &b[..10];
    let mut want = vec![0u8; 11];
    let expected = std::io::Read::read_exact(&mut short, &mut want).unwrap_err();
    match File::parse(&b[..10]) {
        Err(GgufError::Io(e)) => {
            assert_eq!(e.kind(), expected.kind());
            assert_eq!(e.to_string(), expected.to_string());
        }
        other => panic!("unexpected {other:?}"),
    }
}

#[test]
fn data_offset_is_aligned() {
    let f = open(&sample_model());
    assert_eq!(f.data_offset() % 32, 0);
    assert!(f.data_offset() > 0);
}

#[test]
fn custom_alignment_is_honoured() {
    // The alignment is read as a signed integer; an unsigned one is ignored.
    // Header and pairs take 82 bytes here.
    let bytes = write_gguf(
        &[KvPair { key: "general.alignment".into(), val: KvVal::I32(64) }, kv_u32("general.a", 1)],
        &[],
    );
    assert_eq!(open(&bytes).data_offset(), 128);
    let unsigned = write_gguf(
        &[KvPair { key: "general.alignment".into(), val: KvVal::U32(64) }, kv_u32("general.a", 1)],
        &[],
    );
    assert_eq!(open(&unsigned).data_offset(), 96);
}

#[test]
fn zero_byte_tensor_is_not_found() {
    let bytes = write_gguf(&[], &[tensor("z", 0, &[0, 4], vec![]), tensor("a", 0, &[1], vec![7, 7, 7, 7])]);
    let f = open(&bytes);
    match tensor_data(&bytes, &f, "z") {
        Err(GgufError::TensorNotFound(n)) => assert_eq!(n, "z"),
        other => panic!("unexpected {other:?}"),
    }
}

#[test]
fn missing_tensor_reads_as_empty_descriptor() {
    // A lookup miss gives an empty descriptor: no name, no dimensions, F32,
    // offset 0 — one value of four bytes at the start of the data section.
    let bytes = sample_model();
    let f = open(&bytes);
    let ti = f.tensor_info("nope");
    assert!(!ti.valid());
    assert_eq!(ti.name, "");
    assert_eq!(ti.num_bytes(), 4);
    assert_eq!(tensor_data(&bytes, &f, "nope").unwrap(), vec![0xAB; 4]);
}

#[test]
fn key_values_keep_file_order() {
    let f = open(&sample_model());
    let kvs = f.key_values();
    assert_eq!(f.num_key_values(), 9);
    assert_eq!(kvs[0].key, "general.architecture");
    assert_eq!(kvs[8].key, "tokenizer.chat_template");
    assert_eq!(f.tensor_infos()[0].name, "token_embd.weight");
}

#[test]
fn first_of_duplicate_keys_wins() {
    let bytes = write_gguf(&[kv_u32("general.x", 1), kv_u32("general.x", 2)], &[]);
    let f = open(&bytes);
    assert_eq!(f.key_value("general.x").uint(), 1);
}

#[test]
fn arrays_and_raw_strings_decode() {
    let bytes = write_gguf(
        &[
            KvPair { key: "general.list".into(), val: KvVal::I32Array(vec![-1, 2, 3]) },
            KvPair { key: "general.names".into(), val: KvVal::StrArray(vec!["a".into(), "b".into()]) },
            KvPair { key: "general.raw".into(), val: KvVal::StrBytes(vec![0xFF, b'x']) },
            KvPair { key: "general.flag".into(), val: KvVal::Bool(true) },
            KvPair { key: "general.big".into(), val: KvVal::U64(1 << 40) },
            KvPair { key: "general.f".into(), val: KvVal::F32(1.5) },
        ],
        &[],
    );
    let f = open(&bytes);
    assert_eq!(f.key_value("general.list").ints(), vec![-1i64, 2, 3]);
    assert_eq!(f.key_value("general.names").strings(), vec!["a".to_string(), "b".to_string()]);
    assert_eq!(f.key_value("general.raw").string_bytes(), &[0xFF, b'x']);
    assert_eq!(f.key_value("general.raw").string(), "\u{FFFD}x");
    assert!(f.key_value("general.flag").bool());
    assert_eq!(f.key_value("general.big").uint(), 1 << 40);
    match &f.key_value("general.f").value.0 {
        Some(GgufValue::F32(bits)) => assert_eq!(f32::from_bits(*bits), 1.5),
        other => panic!("unexpected {other:?}"),
    }
}

#[test]
fn read_string_decodes_lossily() {
    let mut b = Vec::new();
    write_str_bytes(&mut b, &[b'o', 0xC3, b'k']);
    let mut r = BufferedReader::new(&b);
    assert_eq!(read_string(&mut r).unwrap(), "o\u{FFFD}k");
    assert_eq!(r.offset(), 11);
}

// ---- key-value accessors ----

#[test]
fn test_value_scalars() {
    assert_eq!(Value::new(GgufValue::I32(7)).int_value(), 7);
    assert_eq!(Value::new(GgufValue::U16(9)).uint(), 9);
    match Value::new(GgufValue::F32(1.5f32.to_bits())).0 {
        Some(GgufValue::F32(bits)) => assert_eq!(f32::from_bits(bits), 1.5),
        other => panic!("unexpected {other:?}"),
    }
    assert!(Value::new(GgufValue::Bool(true)).bool());
    assert!(!Value::new(GgufValue::Bool(false)).bool());
    assert_eq!(Value::new(GgufValue::String(b"hi".to_vec())).string(), "hi");
    assert_eq!(Value::new(GgufValue::String(b"hi".to_vec())).int_value(), 0);
}

#[test]
fn test_value_slices() {
    assert_eq!(Value::new(GgufValue::ArrayI32(vec![1, 2, 3])).ints(), vec![1i64, 2, 3]);
    assert_eq!(
        Value::new(GgufValue::ArrayString(vec![b"a".to_vec(), b"b".to_vec()])).strings(),
        vec!["a".to_string(), "b".to_string()]
    );
}

#[test]
fn test_value_string_bytes_lossless() {
    let raw = vec![0xFFu8, 0xFE, b'x', 0x00, 0x80];
    let v = Value::new(GgufValue::String(raw.clone()));
    assert_eq!(v.string_bytes(), raw.as_slice());

    let arr = Value::new(GgufValue::ArrayString(vec![raw.clone()]));
    assert_eq!(arr.strings_bytes(), &[raw]);
}

#[test]
fn value_kind_mismatches_read_as_zero() {
    assert_eq!(Value::new(GgufValue::I64(-5)).uint(), 0);
    assert_eq!(Value::new(GgufValue::U64(5)).int_value(), 0);
    assert_eq!(Value::new(GgufValue::I8(-3)).int_value(), -3);
    assert_eq!(Value::new(GgufValue::ArrayU16(vec![1, 2])).uints(), vec![1u64, 2]);
    assert_eq!(Value::new(GgufValue::ArrayBool(vec![true, false])).bools(), vec![true, false]);
    assert!(Value::new(GgufValue::U8(1)).strings().is_empty());
}

// ---- tensors ----

#[test]
fn test_tensor_num_bytes() {
    let ti = TensorInfo { name: "x".into(), offset: 0, shape: vec![2, 3], tensor_type: TensorType::F32() };
    assert_eq!(ti.num_values(), 6);
    assert_eq!(ti.num_bytes(), 24);

    let q = TensorInfo { name: "y".into(), offset: 0, shape: vec![32], tensor_type: TensorType::Q4_0() };
    assert_eq!(q.num_bytes(), 18);
}

#[test]
fn tensor_type_sizes() {
    assert_eq!(TensorType::Q8_0().block_size(), 32);
    assert_eq!(TensorType::Q8_0().type_size(), 34);
    assert_eq!(TensorType::Q4_K().block_size(), 256);
    assert_eq!(TensorType::Q4_K().type_size(), 144);
    assert_eq!(TensorType::F16().type_size(), 2);
    assert_eq!(TensorType(99).type_size(), 0);
    assert_eq!(TensorType::BF16().name(), "bf16");
    assert_eq!(TensorType::Q4_0().label(), "Q4_0");
}

#[test]
fn empty_shape_is_one_value() {
    let ti = TensorInfo { name: "s".into(), offset: 0, shape: vec![], tensor_type: TensorType::F32() };
    assert!(ti.shape_fits());
    assert_eq!(ti.num_values(), 1);
    assert_eq!(ti.num_bytes(), 4);
}

#[test]
fn huge_shape_does_not_fit() {
    let ti = TensorInfo { name: "h".into(), offset: 0, shape: vec![1 << 40, 1 << 40], tensor_type: TensorType::F32() };
    assert!(!ti.shape_fits());
}

// ---- metadata ----

#[test]
fn test_stat_reads_common_fields() {
    let info = stat(&sample_model()).expect("stat");

    assert_eq!(info.architecture, "llama");
    assert_eq!(info.name, "tiny-test");
    assert_eq!(info.context_length, 4096);
    assert_eq!(info.embedding_length, 3);
    assert_eq!(info.block_count, 2);
    assert_eq!(info.head_count, 2);
    assert_eq!(info.head_count_kv, 1);
    assert_eq!(info.chat_template, "{{ .Prompt }}");
    assert_eq!(info.num_tensors, 1);
    assert_eq!(info.quantization, "Q8_0");
}

#[test]
fn test_stat_quant_fallback_uppercase() {
    let bytes = write_gguf(
        &[
            kv_str("general.architecture", "llama"),
            kv_u32("general.file_type", 99),
            kv_u32("llama.block_count", 1),
        ],
        &[
            tensor("blk.0.attn_q.weight", 2, &[32], vec![0u8; 18]),
            tensor("blk.0.attn_k.weight", 2, &[32], vec![0u8; 18]),
        ],
    );

    let info = stat(&bytes).expect("stat");

    assert_eq!(
        info.quantization, "Q4_0",
        "Quantization = {:?}, want Q4_0 (uppercase, from dominant tensor fallback)",
        info.quantization
    );
}

#[test]
fn stat_without_tensors_falls_back_to_ftype() {
    let bytes = write_gguf(&[kv_u32("general.file_type", 42)], &[]);
    let info = stat(&bytes).expect("stat");
    assert_eq!(info.quantization, "ftype_42");
    assert_eq!(info.architecture, "");
    assert_eq!(info.context_length, 0);
}

#[test]
fn stat_missing_or_mistyped_keys_read_as_zero() {
    let bytes = write_gguf(
        &[kv_str("general.architecture", "llama"), kv_str("llama.block_count", "two")],
        &[tensor("blk.0.attn_q.weight", 2, &[32], vec![0u8; 18])],
    );
    let info = stat(&bytes).expect("stat");
    assert_eq!(info.architecture, "llama");
    assert_eq!(info.name, "");
    assert_eq!(info.block_count, 0);
    assert_eq!(info.file_type, 0);
    assert_eq!(info.quantization, "F32");
    assert_eq!(info.num_tensors, 1);
}

#[test]
fn file_type_labels() {
    assert_eq!(file_type_names(15), Some("Q4_K_M"));
    assert_eq!(file_type_names(4), None);
}

#[test]
fn stat_reports_parse_errors() {
    assert!(matches!(stat(b"GGU"), Err(GgufError::Io(_))));
}

// ---- estimate ----

#[test]
fn test_group_layers() {
    let f = open(&sample_llama_model(3));
    let (blocks, output) = group_layers(&f).expect("sizes fit");
    assert_eq!(blocks.len(), 3);
    for i in 0..3i64 {
        assert_eq!(blocks[&i], 4096);
    }
    assert_eq!(output, 4096);
}

#[test]
fn group_layers_uses_tied_embeddings_without_output() {
    let bytes = write_gguf(
        &[kv_str("general.architecture", "llama")],
        &[tensor("blk.7.ffn", 0, &[4], vec![]), tensor("token_embd.weight", 1, &[8], vec![])],
    );
    let f = open(&bytes);
    let (blocks, output) = group_layers(&f).expect("sizes fit");
    assert_eq!(blocks.len(), 1);
    assert_eq!(blocks[&7], 16);
    assert_eq!(output, 16);
}

#[test]
fn test_kv_bytes_per_element() {
    assert_eq!(kv_fraction("f16"), 2.0);
    assert_eq!(kv_fraction(""), 2.0);
    assert_eq!(kv_fraction("q8_0"), 1.0);
    assert_eq!(kv_fraction("q4_0"), 0.5);
    assert_eq!(kv_fraction("f32"), 4.0);
}

#[test]
fn test_estimate_requires_budget() {
    let err = estimate_layers(&sample_llama_model(4), &EstimateOptions { free_vram: 0, ..Default::default() })
        .unwrap_err();
    assert!(matches!(err, GgufError::Unsupported(_)));
}

#[test]
fn test_estimate_full_offload() {
    let opts = EstimateOptions { free_vram: 1u64 << 40, min_reserve_bytes: 4096, ..Default::default() };
    let est = unwrap_estimate(&sample_llama_model(4), &opts);
    assert_eq!(est.layers, 4);
    assert!(est.fully_offloaded);
    assert!(!est.approximate);
}

#[test]
fn test_estimate_no_fit() {
    let opts = EstimateOptions { free_vram: 1024, min_reserve_bytes: 4096, ..Default::default() };
    let est = unwrap_estimate(&sample_llama_model(4), &opts);
    assert_eq!(est.layers, 0);
    assert!(!est.fully_offloaded);
}

#[test]
fn test_estimate_partial_fit() {
    let mut opts = EstimateOptions { num_ctx: 2048, min_reserve_bytes: 4096, ..Default::default() };
    let (partial, kv, w) = fixture_graph(&opts);
    let per_layer = kv + w;
    opts.free_vram = 4096 + partial + 2 * per_layer + 8;

    let est = unwrap_estimate(&sample_llama_model(4), &opts);
    assert_eq!(est.layers, 2);
    assert!(!est.fully_offloaded);
    assert_eq!(est.kv_cache, 2 * kv);
}

#[test]
fn test_estimate_kv_quant_halves_f16() {
    let base = EstimateOptions { num_ctx: 2048, min_reserve_bytes: 4096, free_vram: 1u64 << 40, ..Default::default() };
    let (_, kv_f16, _) = fixture_graph(&base);
    let mut q = base.clone();
    q.kv_cache_type = "q8_0".into();
    let (_, kv_q8, _) = fixture_graph(&q);
    assert_eq!(kv_q8, kv_f16 / 2);
}

#[test]
fn test_estimate_approximate_for_unknown_arch() {
    let bytes = write_gguf(
        &[
            kv_str("general.architecture", "mistral"),
            kv_u32("mistral.block_count", 2),
            kv_u32("mistral.embedding_length", 64),
            kv_u32("mistral.attention.head_count", 8),
            kv_u32("mistral.attention.head_count_kv", 8),
            kv_u32("mistral.vocab_size", 128),
        ],
        &[
            tensor("blk.0.attn.weight", 0, &[64, 16], Vec::new()),
            tensor("blk.1.attn.weight", 0, &[64, 16], Vec::new()),
            tensor("output.weight", 0, &[64, 16], Vec::new()),
        ],
    );

    let opts = EstimateOptions { free_vram: 1u64 << 40, min_reserve_bytes: 4096, ..Default::default() };
    let est = unwrap_estimate(&bytes, &opts);
    assert!(est.approximate);
    assert_eq!(est.layers, 2);
}

#[test]
fn test_estimate_recurrent_unsupported() {
    let bytes = write_gguf(
        &[
            kv_str("general.architecture", "mamba"),
            kv_u32("mamba.block_count", 2),
            kv_u32("mamba.embedding_length", 64),
        ],
        &[tensor("blk.0.x.weight", 0, &[64, 16], Vec::new())],
    );

    let opts = EstimateOptions { free_vram: 1u64 << 40, ..Default::default() };
    let err = estimate_layers(&bytes, &opts).unwrap_err();
    assert!(matches!(err, GgufError::Unsupported(_)));
}

#[test]
fn test_estimate_overhead_reduces_layers() {
    let mut base = EstimateOptions { num_ctx: 2048, min_reserve_bytes: 4096, ..Default::default() };
    let (partial, kv, w) = fixture_graph(&base);
    let per_layer = kv + w;
    base.free_vram = 4096 + partial + 3 * per_layer + 8;

    let no_overhead = unwrap_estimate(&sample_llama_model(4), &base);

    let mut with_overhead = base.clone();
    with_overhead.overhead_bytes = per_layer;

    let got = unwrap_estimate(&sample_llama_model(4), &with_overhead);
    assert_eq!(got.layers, no_overhead.layers - 1);
}

#[test]
fn test_estimate_num_parallel_doubles_kv() {
    let one = EstimateOptions {
        num_ctx: 2048,
        num_parallel: 1,
        min_reserve_bytes: 4096,
        free_vram: 1u64 << 40,
        ..Default::default()
    };
    let mut two = one.clone();
    two.num_parallel = 2;

    let est1 = unwrap_estimate(&sample_llama_model(4), &one);
    let est2 = unwrap_estimate(&sample_llama_model(4), &two);
    assert_eq!(est2.kv_cache, 2 * est1.kv_cache);
}

#[test]
fn test_estimate_layers_offline_expected_value() {
    let opts = EstimateOptions { num_ctx: 2048, min_reserve_bytes: 4096, ..Default::default() };
    let (partial, kv_per_layer, block_weight) = fixture_graph(&opts);
    let per_layer = kv_per_layer + block_weight;
    assert_eq!(kv_per_layer, 524_288);
    assert_eq!(per_layer, 528_384);

    let mut opts = opts;
    opts.free_vram = 4096 + partial + 3 * per_layer + 8;

    let est = unwrap_estimate(&sample_llama_model(4), &opts);
    assert_eq!(est.layers, 3, "expected exactly 3 of 4 layers to fit");
    assert!(!est.fully_offloaded);
    assert_eq!(est.kv_cache, 3 * kv_per_layer);
    assert_eq!(est.weights, 3 * block_weight);
}

#[test]
fn estimate_totals_add_up() {
    let opts = EstimateOptions { free_vram: 1u64 << 40, min_reserve_bytes: 4096, ..Default::default() };
    let est = unwrap_estimate(&sample_llama_model(4), &opts);
    assert_eq!(est.per_layer_bytes, vec![528_384u64; 4]);
    assert_eq!(est.weights, 4 * 4096 + 4096);
    assert_eq!(est.kv_cache, 4 * 524_288);
    assert_eq!(est.total_vram, est.weights + est.kv_cache + est.graph);
    let (full, _) = llama_graph_size(64, 8, 8, 8, 2048, 512, 128);
    assert_eq!(est.graph, full);
}

#[test]
fn estimate_missing_dimensions_unsupported() {
    let bytes = write_gguf(&[kv_str("general.architecture", "llama")], &[]);
    let opts = EstimateOptions { free_vram: 1 << 30, ..Default::default() };
    match estimate_layers(&bytes, &opts) {
        Err(GgufError::Unsupported(m)) => assert_eq!(m, "missing block_count/embedding_length"),
        other => panic!("unexpected {other:?}"),
    }
}

#[test]
fn estimate_parse_error_passes_through() {
    let opts = EstimateOptions { free_vram: 1 << 30, ..Default::default() };
    assert!(matches!(estimate_layers(b"NOPExxxxxxxxxxxx", &opts), Err(GgufError::BadMagic(_))));
    let none = EstimateOptions { free_vram: 0, ..Default::default() };
    assert!(matches!(estimate_layers(b"NOPExxxxxxxxxxxx", &none), Err(GgufError::Unsupported(_))));
}

#[test]
fn estimate_budget_checked_first_on_files() {
    let f = open(&sample_llama_model(2));
    match fit_layers(&f, &EstimateOptions::default()) {
        Some(Err(GgufError::Unsupported(m))) => assert_eq!(m, "FreeVRAM budget required"),
        other => panic!("unexpected {other:?}"),
    }
}

#[test]
fn estimate_overflow_is_reported_not_computed() {
    let opts = EstimateOptions {
        num_ctx: i64::MAX,
        num_parallel: i64::MAX,
        free_vram: 1 << 30,
        ..Default::default()
    };
    let bytes = sample_llama_model(2);
    assert!(try_estimate_layers(&bytes, &opts).is_none());
    assert!(fit_layers(&open(&bytes), &opts).is_none());
    let ok = EstimateOptions { free_vram: 1 << 30, ..Default::default() };
    assert!(matches!(try_estimate_layers(&bytes, &ok), Some(Ok(_))));
}

#[test]
fn estimate_uses_default_reserve() {
    let (partial, kv, w) = fixture_graph(&EstimateOptions::default());
    let per_layer = kv + w;
    let opts = EstimateOptions {
        free_vram: llama::gguf::estimate::DEFAULT_MIN_RESERVE_BYTES + partial + per_layer,
        ..Default::default()
    };
    let est = unwrap_estimate(&sample_llama_model(4), &opts);
    assert_eq!(est.layers, 1);
    assert_eq!(llama::gguf::estimate::DEFAULT_MIN_RESERVE_BYTES, 457 << 20);
}

#[test]
fn header_prefix_decodes_like_the_whole_file() {
    let bytes = sample_model();
    let full = open(&bytes);
    let header_end = (0..=bytes.len()).find(|&k| File::parse(&bytes[..k]).is_ok()).unwrap();
    assert!(header_end < bytes.len());
    assert!(matches!(File::parse(&bytes[..header_end - 1]), Err(GgufError::Io(_))));
    let head = open(&bytes[..header_end]);
    assert_eq!(head.num_key_values(), full.num_key_values());
    assert_eq!(head.num_tensors(), full.num_tensors());
    assert_eq!(head.data_offset(), full.data_offset());
    assert_eq!(head.key_value("general.name").string(), "tiny-test");
    assert_eq!(head.tensor_info("token_embd.weight").shape, vec![2u64, 3]);
}

#[test]
fn more_budget_never_fewer_layers() {
    let base = EstimateOptions { num_ctx: 2048, min_reserve_bytes: 4096, ..Default::default() };
    let (partial, kv, w) = fixture_graph(&base);
    let per_layer = kv + w;
    let mut last = 0;
    for extra in [0u64, per_layer / 2, per_layer, 2 * per_layer + 1, 5 * per_layer, 1 << 40] {
        let mut o = base.clone();
        o.free_vram = 4096 + partial + extra;
        let est = unwrap_estimate(&sample_llama_model(4), &o);
        assert!(est.layers >= last);
        last = est.layers;
    }
    assert_eq!(last, 4);
}

fn same_estimate(a: &llama::gguf::Estimate, b: &llama::gguf::Estimate) -> bool {
    a.layers == b.layers
        && a.fully_offloaded == b.fully_offloaded
        && a.total_vram == b.total_vram
        && a.weights == b.weights
        && a.kv_cache == b.kv_cache
        && a.graph == b.graph
        && a.per_layer_bytes == b.per_layer_bytes
        && a.approximate == b.approximate
}

#[test]
fn estimate_unchanged_by_spelled_out_defaults() {
    let model = sample_llama_model(4);
    let base = EstimateOptions { free_vram: 1u64 << 40, ..Default::default() };
    let reference = unwrap_estimate(&model, &base);
    let variants = [
        EstimateOptions { num_ctx: 2048, ..base.clone() },
        EstimateOptions { batch_size: 512, ..base.clone() },
        EstimateOptions { num_parallel: 1, ..base.clone() },
        EstimateOptions { kv_cache_type: "f16".to_string(), ..base.clone() },
        EstimateOptions { min_reserve_bytes: llama::gguf::estimate::DEFAULT_MIN_RESERVE_BYTES, ..base.clone() },
        EstimateOptions { flash_attention: true, ..base.clone() },
    ];
    for o in variants.iter() {
        assert!(same_estimate(&unwrap_estimate(&model, o), &reference), "{o:?}");
    }
}

#[test]
fn graph_size_grows_with_every_dimension() {
    let base = [64u64, 8, 8, 8, 16, 8, 128];
    let (full0, partial0) = llama_graph_size(base[0], base[1], base[2], base[3], base[4], base[5], base[6]);
    for k in 0..7 {
        let mut a = base;
        a[k] *= 2;
        let (full, partial) = llama_graph_size(a[0], a[1], a[2], a[3], a[4], a[5], a[6]);
        assert!(full >= full0 && partial >= partial0, "dimension {k}");
        if k == 2 || k == 3 {
            assert_eq!(full, full0);
        }
    }
}
