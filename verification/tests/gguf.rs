use grout::gguf::{
    align_to, parse_content, GgufError, GgufFile, TensorInfo, Value, ValueType, Version,
    DEFAULT_ALIGNMENT, GGUF_MAX_METADATA_ELEMENTS,
};
use grout::dequant::GgmlType;

fn header(kv_count: u64) -> Vec<u8> {
    header_with(0, kv_count)
}

fn header_with(tensors: u64, kv_count: u64) -> Vec<u8> {
    let mut b = Vec::new();
    b.extend_from_slice(&0x4655_4747u32.to_le_bytes()); // "GGUF"
    b.extend_from_slice(&3u32.to_le_bytes()); // version
    b.extend_from_slice(&tensors.to_le_bytes()); // tensor_count
    b.extend_from_slice(&kv_count.to_le_bytes());
    b
}

fn push_key(b: &mut Vec<u8>, key: &str) {
    b.extend_from_slice(&(key.len() as u64).to_le_bytes());
    b.extend_from_slice(key.as_bytes());
}

fn push_u8_array_header(b: &mut Vec<u8>, len: u64) {
    b.extend_from_slice(&9u32.to_le_bytes()); // ValueType::Array
    b.extend_from_slice(&0u32.to_le_bytes()); // element type U8
    b.extend_from_slice(&len.to_le_bytes());
}

fn pad(b: &mut Vec<u8>) {
    let aligned = b.len().div_ceil(DEFAULT_ALIGNMENT as usize) * DEFAULT_ALIGNMENT as usize;
    b.resize(aligned, 0);
}

#[test]
fn array_len_beyond_element_budget_is_rejected_before_allocating() {
    let mut b = header(1);
    push_key(&mut b, "k");
    push_u8_array_header(&mut b, 1 << 30);
    let err = parse_content(&b).unwrap_err();
    assert!(err.message().contains("element budget"), "got: {err:?}");
}

#[test]
fn sibling_arrays_cannot_exceed_the_budget_cumulatively() {
    let half = GGUF_MAX_METADATA_ELEMENTS / 2 + 1;
    let mut b = header(2);
    push_key(&mut b, "a");
    push_u8_array_header(&mut b, half);
    b.resize(b.len() + half as usize, 0); // array `a` element bytes
    push_key(&mut b, "b");
    push_u8_array_header(&mut b, half);
    b.resize(b.len() + half as usize, 0); // array `b` element bytes
    let err = parse_content(&b).unwrap_err();
    assert!(err.message().contains("element budget"), "got: {err:?}");
}

#[test]
fn small_metadata_array_still_parses() {
    let mut b = header(1);
    push_key(&mut b, "k");
    push_u8_array_header(&mut b, 3);
    b.extend_from_slice(&[7u8, 8, 9]);
    // Pad to the default alignment so the (empty) tensor-data offset
    // check at the end of parsing passes.
    let aligned = b.len().div_ceil(DEFAULT_ALIGNMENT as usize) * DEFAULT_ALIGNMENT as usize;
    b.resize(aligned, 0);
    let content = parse_content(&b).expect("valid metadata-only file must parse");
    match content.metadata.get("k") {
        Some(Value::Array(v)) => {
            assert_eq!(v.len(), 3);
            assert!(matches!(v[0], Value::U8(7)));
            assert!(matches!(v[2], Value::U8(9)));
        }
        other => panic!("expected U8 array, got {other:?}"),
    }
}

fn push_tensor(b: &mut Vec<u8>, name: &str, dims: &[u64], dtype: u32, offset: u64) {
    push_key(b, name);
    b.extend_from_slice(&(dims.len() as u32).to_le_bytes());
    for d in dims {
        b.extend_from_slice(&d.to_le_bytes());
    }
    b.extend_from_slice(&dtype.to_le_bytes());
    b.extend_from_slice(&offset.to_le_bytes());
}

#[test]
fn tensor_bytes_come_back_as_written() {
    let mut b = header_with(2, 0);
    push_tensor(&mut b, "one", &[3], 0, 0);
    push_tensor(&mut b, "two", &[2, 4], 1, 32);
    pad(&mut b);
    let start = b.len();
    for i in 0..48u8 {
        b.push(i);
    }
    let file = GgufFile::open(&b).unwrap();
    let (info, data) = file.tensor_data("one").unwrap();
    assert_eq!(info.shape, vec![3]);
    assert_eq!(data, &b[start..start + 12]);
    let (info, data) = file.tensor_data("two").unwrap();
    // Dimensions are stored innermost first.
    assert_eq!(info.shape, vec![4, 2]);
    assert_eq!(data, &b[start + 32..start + 48]);
    assert!(matches!(
        file.tensor_data("three"),
        Err(GgufError::NoTensor)
    ));
}

#[test]
fn names_are_read_as_utf8() {
    let mut b = header(1);
    push_key(&mut b, "s\u{e4}\u{4e2d}\u{1f600}");
    b.extend_from_slice(&4u32.to_le_bytes());
    b.extend_from_slice(&5u32.to_le_bytes());
    pad(&mut b);
    let content = parse_content(&b).unwrap();
    assert!(matches!(
        content.metadata.get("s\u{e4}\u{4e2d}\u{1f600}"),
        Some(Value::U32(5))
    ));
}

#[test]
fn names_that_are_no_utf8_are_read_with_replacements() {
    let mut b = header(1);
    b.extend_from_slice(&3u64.to_le_bytes());
    b.extend_from_slice(&[b'a', 0xff, b'b']);
    b.extend_from_slice(&4u32.to_le_bytes());
    b.extend_from_slice(&5u32.to_le_bytes());
    pad(&mut b);
    let content = parse_content(&b).unwrap();
    assert!(matches!(
        content.metadata.get("a\u{fffd}b"),
        Some(Value::U32(5))
    ));
}

#[test]
fn values_of_every_type_are_read() {
    let mut b = header(6);
    push_key(&mut b, "i8");
    b.extend_from_slice(&1u32.to_le_bytes());
    b.push(0xfe);
    push_key(&mut b, "i16");
    b.extend_from_slice(&3u32.to_le_bytes());
    b.extend_from_slice(&(-300i16).to_le_bytes());
    push_key(&mut b, "f");
    b.extend_from_slice(&6u32.to_le_bytes());
    b.extend_from_slice(&1.5f32.to_le_bytes());
    push_key(&mut b, "t");
    b.extend_from_slice(&7u32.to_le_bytes());
    b.push(1);
    push_key(&mut b, "s");
    b.extend_from_slice(&8u32.to_le_bytes());
    push_key(&mut b, "text");
    push_key(&mut b, "i64");
    b.extend_from_slice(&11u32.to_le_bytes());
    b.extend_from_slice(&(-7i64).to_le_bytes());
    pad(&mut b);
    let c = parse_content(&b).unwrap();
    assert_eq!(c.version, Version::V3);
    assert!(matches!(c.metadata.get("i8"), Some(Value::I8(-2))));
    assert!(matches!(c.metadata.get("i16"), Some(Value::I16(-300))));
    assert!(matches!(c.metadata.get("i64"), Some(Value::I64(-7))));
    match c.metadata.get("f") {
        Some(Value::F32(bits)) => assert_eq!(f32::from_bits(*bits), 1.5),
        other => panic!("{other:?}"),
    }
    assert_eq!(c.metadata.get("t").unwrap().to_bool(), Ok(true));
    assert_eq!(c.metadata.get("s").unwrap().to_string(), Ok("text"));
    assert_eq!(
        c.metadata.get("s").unwrap().to_u32(),
        Err(GgufError::NotUnsigned)
    );
    assert!(matches!(
        c.metadata_required("missing"),
        Err(GgufError::NoMetadata)
    ));
}

#[test]
fn broken_files_are_refused() {
    assert!(parse_content(&[]).is_err());
    let mut b = header(0);
    b[0] = b'X';
    pad(&mut b);
    assert!(parse_content(&b).is_err());
    let mut b = header(0);
    b[4] = 9;
    pad(&mut b);
    assert!(parse_content(&b).is_err());
    let mut b = header(1);
    push_key(&mut b, "k");
    b.extend_from_slice(&77u32.to_le_bytes());
    pad(&mut b);
    assert_eq!(
        parse_content(&b).unwrap_err(),
        GgufError::ValueType { id: 77 }
    );
    // A tensor whose bytes run past the end of the file.
    let mut b = header_with(1, 0);
    push_tensor(&mut b, "t", &[100], 0, 0);
    pad(&mut b);
    let file = GgufFile::open(&b).unwrap();
    assert!(file.tensor_data("t").is_err());
}

#[test]
fn sizes_of_tensors_are_counted_in_blocks() {
    let t = TensorInfo {
        name: "t".to_string(),
        dtype: GgmlType::Q8_0,
        shape: vec![4, 64],
        offset: 0,
    };
    assert_eq!(t.elem_count(), Ok(256));
    assert_eq!(t.size_in_bytes(), Ok(272));
    let t = TensorInfo {
        name: "t".to_string(),
        dtype: GgmlType::Q4K,
        shape: vec![3, 100],
        offset: 0,
    };
    assert!(t.size_in_bytes().is_err());
    let t = TensorInfo {
        name: "t".to_string(),
        dtype: GgmlType::F32,
        shape: vec![usize::MAX, 2],
        offset: 0,
    };
    assert_eq!(t.elem_count(), Err(GgufError::ElementOverflow));
}

#[test]
fn positions_are_rounded_up() {
    assert_eq!(align_to(0, 32), Ok(0));
    assert_eq!(align_to(1, 32), Ok(32));
    assert_eq!(align_to(64, 32), Ok(64));
    assert!(align_to(u64::MAX, 32).is_err());
}

#[test]
fn value_types_have_their_ids() {
    assert_eq!(ValueType::from_u32(8).unwrap(), ValueType::String);
    assert_eq!(ValueType::from_u32(12).unwrap(), ValueType::F64);
    assert!(ValueType::from_u32(13).is_err());
}
