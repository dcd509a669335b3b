use gguf_reader::error::GgufError;
use gguf_reader::metadata::Diagnostic;
use gguf_reader::model::Model;
use gguf_reader::quant::{byte_size, QuantType};
use gguf_reader::value::{read_value, Value};

fn put_u32(b: &mut Vec<u8>, x: u32) {
    b.extend_from_slice(&x.to_le_bytes());
}

fn put_u64(b: &mut Vec<u8>, x: u64) {
    b.extend_from_slice(&x.to_le_bytes());
}

fn put_str(b: &mut Vec<u8>, s: &str) {
    put_u64(b, s.len() as u64);
    b.extend_from_slice(s.as_bytes());
}

fn header(n_tensors: u64, n_kv: u64) -> Vec<u8> {
    let mut b = Vec::new();
    b.extend_from_slice(b"GGUF");
    put_u32(&mut b, 3);
    put_u64(&mut b, n_tensors);
    put_u64(&mut b, n_kv);
    b
}

fn kv_u32(b: &mut Vec<u8>, key: &str, x: u32) {
    put_str(b, key);
    put_u32(b, 4);
    put_u32(b, x);
}

fn kv_u64(b: &mut Vec<u8>, key: &str, x: u64) {
    put_str(b, key);
    put_u32(b, 10);
    put_u64(b, x);
}

fn kv_str(b: &mut Vec<u8>, key: &str, s: &str) {
    put_str(b, key);
    put_u32(b, 8);
    put_str(b, s);
}

fn tensor(b: &mut Vec<u8>, name: &str, dims: &[u64], code: u32, rel: u64) {
    put_str(b, name);
    put_u32(b, dims.len() as u32);
    for d in dims {
        put_u64(b, *d);
    }
    put_u32(b, code);
    put_u64(b, rel);
}

fn pad_to(b: &mut Vec<u8>, a: usize) {
    while b.len() % a != 0 {
        b.push(0);
    }
}

fn open(b: Vec<u8>) -> Result<Model, GgufError> {
    Model::open(b)
}

fn single_f32_file() -> (Vec<u8>, usize) {
    let mut b = header(1, 0);
    tensor(&mut b, "w", &[4, 4], 0, 0);
    pad_to(&mut b, 32);
    let origin = b.len();
    for i in 0..64u32 {
        b.push(i as u8);
    }
    (b, origin)
}

#[test]
fn minimal_file_opens_empty() {
    let m = open(header(0, 0)).unwrap();
    assert!(m.entries().is_empty());
    assert!(m.tensors().is_empty());
    assert_eq!(m.data_origin(), 32);
    assert_eq!(m.data_alignment(), 32);
    assert_eq!(m.header().n_tensors, 0);
    assert_eq!(m.header().n_kv, 0);
    assert_eq!(m.header().version, 3);
}

#[test]
fn single_f32_tensor_loads_its_payload() {
    let (b, origin) = single_f32_file();
    let m = open(b.clone()).unwrap();
    let t = m.tensor("w").unwrap();
    assert_eq!(t.byte_size, 64);
    assert_eq!(t.dims, vec![4, 4]);
    assert_eq!(t.quant, QuantType::F32);
    assert_eq!(t.absolute_offset, origin as u64);
    let p = m.load("w").unwrap();
    assert_eq!(p.len(), 64);
    assert_eq!(&p[..], &b[origin..origin + 64]);
}

#[test]
fn quantized_tensor_size_is_one_block() {
    let mut b = header(1, 0);
    tensor(&mut b, "w", &[32], 2, 0);
    pad_to(&mut b, 32);
    b.extend_from_slice(&[7u8; 18]);
    let m = open(b).unwrap();
    assert_eq!(m.tensor("w").unwrap().byte_size, 18);
    assert_eq!(m.load("w").unwrap(), vec![7u8; 18]);
}

#[test]
fn quantized_tensor_with_partial_block_fails() {
    let mut b = header(1, 0);
    tensor(&mut b, "w", &[33], 2, 0);
    assert!(matches!(open(b), Err(GgufError::UnalignedTensorExtent)));
}

#[test]
fn string_array_metadata_decodes_in_order() {
    let mut b = header(0, 1);
    put_str(&mut b, "tokens");
    put_u32(&mut b, 9);
    put_u32(&mut b, 8);
    put_u64(&mut b, 3);
    put_str(&mut b, "a");
    put_str(&mut b, "b");
    put_str(&mut b, "c");
    let m = open(b).unwrap();
    match m.get("tokens") {
        Some(Value::Array(items)) => {
            assert_eq!(items.len(), 3);
            assert_eq!(items[0], Value::String("a".to_string()));
            assert_eq!(items[1], Value::String("b".to_string()));
            assert_eq!(items[2], Value::String("c".to_string()));
        }
        other => panic!("unexpected {:?}", other),
    }
}

#[test]
fn custom_alignment_moves_data_origin() {
    let mut b = header(2, 1);
    kv_u32(&mut b, "general.alignment", 64);
    tensor(&mut b, "a", &[4], 0, 0);
    tensor(&mut b, "b", &[4], 0, 64);
    let info_end = b.len() as u64;
    pad_to(&mut b, 64);
    b.resize(b.len() + 80, 1);
    let m = open(b).unwrap();
    assert_eq!(m.data_alignment(), 64);
    assert_eq!(m.alignment_value(), Some(64));
    let origin = m.data_origin();
    assert_eq!(origin % 64, 0);
    assert!(origin >= info_end && origin < info_end + 64);
    assert_eq!(m.tensor("a").unwrap().absolute_offset, origin);
    assert_eq!(m.tensor("b").unwrap().absolute_offset, origin + 64);
}

#[test]
fn duplicate_key_last_value_wins() {
    let mut b = header(0, 2);
    kv_u32(&mut b, "k", 1);
    kv_u32(&mut b, "k", 2);
    let m = open(b).unwrap();
    assert_eq!(m.get("k"), Some(&Value::UInt32(2)));
    assert_eq!(m.entries().len(), 2);
    let d = m.diagnostics();
    assert_eq!(d.len(), 1);
    match &d[0] {
        Diagnostic::DuplicateMetadataKey(k) => assert_eq!(k, "k"),
    }
}

#[test]
fn entry_and_tensor_counts_match_header() {
    let mut b = header(2, 3);
    kv_u32(&mut b, "x", 1);
    kv_str(&mut b, "y", "z");
    kv_u64(&mut b, "x", 5);
    tensor(&mut b, "a", &[2, 2], 1, 0);
    tensor(&mut b, "b", &[3], 0, 32);
    pad_to(&mut b, 32);
    b.resize(b.len() + 44, 0);
    let m = open(b).unwrap();
    assert_eq!(m.tensors().len(), 2);
    assert_eq!(m.entries().len(), 3);
    assert_eq!(m.diagnostics().len(), 1);
    assert_eq!(m.get_u64("x"), Some(5));
}

#[test]
fn load_length_equals_byte_size_for_every_tensor() {
    let mut b = header(3, 0);
    tensor(&mut b, "f16", &[3, 2], 1, 0);
    tensor(&mut b, "q8", &[64], 8, 32);
    tensor(&mut b, "k", &[256], 10, 128);
    pad_to(&mut b, 32);
    b.resize(b.len() + 128 + 84, 9);
    let m = open(b).unwrap();
    for t in m.tensors() {
        assert_eq!(m.load(&t.name).unwrap().len() as u64, t.byte_size);
    }
    assert_eq!(m.tensor("f16").unwrap().byte_size, 12);
    assert_eq!(m.tensor("q8").unwrap().byte_size, 68);
    assert_eq!(m.tensor("k").unwrap().byte_size, 84);
}

#[test]
fn payload_regions_are_ordered_and_disjoint() {
    let mut b = header(3, 0);
    tensor(&mut b, "a", &[8], 0, 0);
    tensor(&mut b, "b", &[32], 3, 32);
    tensor(&mut b, "c", &[2], 1, 64);
    pad_to(&mut b, 32);
    b.resize(b.len() + 68, 0);
    let m = open(b).unwrap();
    let ts = m.tensors();
    for i in 0..ts.len() {
        for j in i + 1..ts.len() {
            assert!(ts[i].absolute_offset + ts[i].byte_size <= ts[j].absolute_offset);
            assert!(ts[i].absolute_offset < ts[j].absolute_offset);
        }
    }
}

#[test]
fn absolute_offsets_agree_with_relative_modulo_alignment() {
    let mut b = header(2, 1);
    kv_u64(&mut b, "general.alignment", 16);
    tensor(&mut b, "a", &[3], 0, 0);
    tensor(&mut b, "b", &[1], 0, 16);
    pad_to(&mut b, 16);
    b.resize(b.len() + 20, 0);
    let m = open(b).unwrap();
    let a = m.data_alignment();
    assert_eq!(a, 16);
    assert_eq!(m.data_origin() % a, 0);
    for t in m.tensors() {
        assert_eq!(t.absolute_offset % a, t.rel_offset % a);
    }
}

#[test]
fn prefix_without_payload_opens_and_load_is_truncated() {
    let (b, origin) = single_f32_file();
    for cut in [origin - 3, origin, origin + 10, origin + 63] {
        let m = open(b[..cut].to_vec()).unwrap();
        assert!(matches!(m.load("w"), Err(GgufError::Truncated)));
    }
}

#[test]
fn changed_magic_byte_is_bad_magic() {
    let (b, _) = single_f32_file();
    for i in 0..4 {
        let mut c = b.clone();
        c[i] ^= 0x20;
        assert!(matches!(open(c), Err(GgufError::BadMagic)));
    }
}

#[test]
fn other_versions_are_unsupported() {
    for v in [1u32, 2, 4] {
        let (mut b, _) = single_f32_file();
        b[4..8].copy_from_slice(&v.to_le_bytes());
        match open(b) {
            Err(GgufError::UnsupportedVersion(x)) => assert_eq!(x, v),
            other => panic!("unexpected {:?}", other.err()),
        }
    }
}

#[test]
fn short_header_is_truncated() {
    assert!(matches!(open(b"GGUF\x03\x00".to_vec()), Err(GgufError::Truncated)));
    assert!(matches!(open(Vec::new()), Err(GgufError::Truncated)));
}

#[test]
fn oversize_string_length_is_rejected() {
    let mut b = header(0, 1);
    put_u64(&mut b, 1000);
    b.extend_from_slice(b"abc");
    assert!(matches!(open(b), Err(GgufError::LengthExceedsFile)));
}

#[test]
fn invalid_utf8_key_is_rejected() {
    let mut b = header(0, 1);
    put_u64(&mut b, 2);
    b.extend_from_slice(&[0xff, 0xfe]);
    put_u32(&mut b, 4);
    put_u32(&mut b, 1);
    assert!(matches!(open(b), Err(GgufError::InvalidUtf8)));
}

#[test]
fn unknown_value_type_is_rejected() {
    let mut b = header(0, 1);
    put_str(&mut b, "k");
    put_u32(&mut b, 13);
    put_u32(&mut b, 0);
    match open(b) {
        Err(GgufError::UnknownValueType(t)) => assert_eq!(t, 13),
        other => panic!("unexpected {:?}", other.err()),
    }
}

#[test]
fn nesting_past_the_limit_is_too_deep() {
    let mut deep = Vec::new();
    for _ in 0..65 {
        put_u32(&mut deep, 9);
        put_u64(&mut deep, 1);
    }
    put_u32(&mut deep, 0);
    put_u64(&mut deep, 0);
    assert!(matches!(read_value(&deep, 0, 9, 64), Err(GgufError::ArrayTooDeep)));
    let mut ok = Vec::new();
    for _ in 0..63 {
        put_u32(&mut ok, 9);
        put_u64(&mut ok, 1);
    }
    put_u32(&mut ok, 0);
    put_u64(&mut ok, 1);
    ok.push(5);
    let (v, end) = read_value(&ok, 0, 9, 64).unwrap();
    assert_eq!(end, ok.len());
    let mut cur = &v;
    for _ in 0..63 {
        match cur {
            Value::Array(items) => {
                assert_eq!(items.len(), 1);
                cur = &items[0];
            }
            other => panic!("unexpected {:?}", other),
        }
    }
    assert_eq!(cur, &Value::Array(vec![Value::UInt8(5)]));
}

#[test]
fn every_scalar_type_decodes() {
    let mut b = Vec::new();
    b.push(200);
    b.push(0xff);
    b.extend_from_slice(&0xbeefu16.to_le_bytes());
    b.extend_from_slice(&(-2i16).to_le_bytes());
    b.extend_from_slice(&0xdeadbeefu32.to_le_bytes());
    b.extend_from_slice(&(-3i32).to_le_bytes());
    b.extend_from_slice(&1.5f32.to_bits().to_le_bytes());
    b.push(2);
    b.extend_from_slice(&u64::MAX.to_le_bytes());
    b.extend_from_slice(&(-4i64).to_le_bytes());
    b.extend_from_slice(&2.25f64.to_bits().to_le_bytes());
    let types = [0u32, 1, 2, 3, 4, 5, 6, 7, 10, 11, 12];
    let expected = [
        Value::UInt8(200),
        Value::Int8(-1),
        Value::UInt16(0xbeef),
        Value::Int16(-2),
        Value::UInt32(0xdeadbeef),
        Value::Int32(-3),
        Value::Float32(1.5f32.to_bits()),
        Value::Bool(true),
        Value::UInt64(u64::MAX),
        Value::Int64(-4),
        Value::Float64(2.25f64.to_bits()),
    ];
    let mut pos = 0;
    for (t, e) in types.iter().zip(expected.iter()) {
        let (v, q) = read_value(&b, pos, *t, 64).unwrap();
        assert_eq!(&v, e);
        pos = q;
    }
    assert_eq!(pos, b.len());
}

#[test]
fn non_ascii_string_round_trips() {
    let mut b = Vec::new();
    put_str(&mut b, "héllo wörld ✓");
    let (v, q) = read_value(&b, 0, 8, 64).unwrap();
    assert_eq!(v, Value::String("héllo wörld ✓".to_string()));
    assert_eq!(q, b.len());
}

#[test]
fn empty_and_numeric_arrays_decode() {
    let mut b = Vec::new();
    put_u32(&mut b, 5);
    put_u64(&mut b, 3);
    for x in [-1i32, 0, 7] {
        b.extend_from_slice(&x.to_le_bytes());
    }
    let (v, _) = read_value(&b, 0, 9, 64).unwrap();
    assert_eq!(v, Value::Array(vec![Value::Int32(-1), Value::Int32(0), Value::Int32(7)]));
    let mut e = Vec::new();
    put_u32(&mut e, 8);
    put_u64(&mut e, 0);
    assert_eq!(read_value(&e, 0, 9, 64).unwrap(), (Value::Array(vec![]), 12));
}

#[test]
fn unknown_quant_type_is_rejected() {
    let mut b = header(1, 0);
    tensor(&mut b, "w", &[4], 4, 0);
    match open(b) {
        Err(GgufError::UnknownQuantType(c)) => assert_eq!(c, 4),
        other => panic!("unexpected {:?}", other.err()),
    }
}

#[test]
fn bad_dimension_counts_are_rejected() {
    let mut b = header(1, 0);
    tensor(&mut b, "w", &[], 0, 0);
    assert!(matches!(open(b), Err(GgufError::BadDimensionCount)));
    let mut c = header(1, 0);
    tensor(&mut c, "w", &[1, 1, 1, 1, 1], 0, 0);
    assert!(matches!(open(c), Err(GgufError::BadDimensionCount)));
}

#[test]
fn zero_extent_is_rejected() {
    let mut b = header(1, 0);
    tensor(&mut b, "w", &[4, 0], 0, 0);
    assert!(matches!(open(b), Err(GgufError::ZeroDimension)));
}

#[test]
fn empty_tensor_name_is_rejected() {
    let mut b = header(1, 0);
    tensor(&mut b, "", &[4], 0, 0);
    assert!(matches!(open(b), Err(GgufError::EmptyTensorName)));
}

#[test]
fn duplicate_tensor_name_is_rejected() {
    let mut b = header(2, 0);
    tensor(&mut b, "w", &[4], 0, 0);
    tensor(&mut b, "w", &[4], 0, 16);
    assert!(matches!(open(b), Err(GgufError::DuplicateTensorName)));
}

#[test]
fn alignment_that_is_not_a_power_of_two_is_rejected() {
    for a in [0u32, 3, 48] {
        let mut b = header(0, 1);
        kv_u32(&mut b, "general.alignment", a);
        assert!(matches!(open(b), Err(GgufError::BadAlignment)));
    }
}

#[test]
fn non_integer_alignment_keeps_the_default() {
    let mut s = header(0, 1);
    kv_str(&mut s, "general.alignment", "64");
    let m = open(s).unwrap();
    assert_eq!(m.data_alignment(), 32);
    assert_eq!(m.data_origin() % 32, 0);
}

#[test]
fn unknown_tensor_name_is_not_found() {
    let (b, _) = single_f32_file();
    let m = open(b).unwrap();
    match m.load("nope") {
        Err(GgufError::TensorNotFound(n)) => assert_eq!(n, "nope"),
        other => panic!("unexpected {:?}", other.err()),
    }
    assert!(m.tensor("nope").is_none());
}

#[test]
fn huge_extents_overflow() {
    let mut b = header(1, 0);
    tensor(&mut b, "w", &[u64::MAX, 2], 0, 0);
    assert!(matches!(open(b), Err(GgufError::SizeOverflow)));
    let mut c = header(1, 0);
    tensor(&mut c, "w", &[4], 0, u64::MAX);
    assert!(matches!(open(c), Err(GgufError::SizeOverflow)));
}

#[test]
fn byte_sizes_follow_the_block_table() {
    let cases: [(u32, u64, u64); 14] = [
        (0, 1, 4),
        (1, 1, 2),
        (2, 32, 18),
        (3, 32, 20),
        (6, 32, 22),
        (7, 32, 24),
        (8, 32, 34),
        (9, 32, 36),
        (10, 256, 84),
        (11, 256, 110),
        (12, 256, 144),
        (13, 256, 176),
        (14, 256, 210),
        (15, 256, 292),
    ];
    for (code, block, bytes) in cases {
        let q = QuantType::from_code(code).unwrap();
        assert_eq!(q.block_elements(), block);
        assert_eq!(q.bytes_per_block(), bytes);
        assert_eq!(byte_size(&[block * 3], q), Ok(bytes * 3));
    }
    for code in [4u32, 5, 16, 40] {
        assert!(QuantType::from_code(code).is_none());
    }
    assert_eq!(byte_size(&[4, 4], QuantType::F32), Ok(64));
    assert!(matches!(byte_size(&[100], QuantType::Q6_K), Err(GgufError::UnalignedTensorExtent)));
}

#[test]
fn query_accessors_accept_both_widths() {
    let mut b = header(0, 7);
    kv_str(&mut b, "general.architecture", "llama");
    kv_u32(&mut b, "general.file_type", 7);
    kv_u32(&mut b, "llama.context_length", 4096);
    kv_u64(&mut b, "llama.embedding_length", 5120);
    kv_u32(&mut b, "llama.block_count", 40);
    kv_u64(&mut b, "llama.attention.head_count", 32);
    kv_str(&mut b, "llama.attention.head_count_kv", "8");
    let m = open(b).unwrap();
    assert_eq!(m.architecture(), Some("llama".to_string()));
    assert_eq!(m.file_type(), Some(7));
    assert_eq!(m.context_length(), Some(4096));
    assert_eq!(m.embedding_length(), Some(5120));
    assert_eq!(m.block_count(), Some(40));
    assert_eq!(m.head_count(), Some(32));
    assert_eq!(m.head_count_kv(), None);
    assert_eq!(m.alignment_value(), None);
}

#[test]
fn query_accessors_without_architecture_are_absent() {
    let mut b = header(0, 1);
    kv_u32(&mut b, "llama.context_length", 4096);
    let m = open(b).unwrap();
    assert_eq!(m.architecture(), None);
    assert_eq!(m.context_length(), None);
    assert_eq!(m.get_u64("llama.context_length"), Some(4096));
    assert_eq!(m.file_type(), None);
}
