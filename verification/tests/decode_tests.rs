use ten_values::decode::{deserialize_content, deserialize_from_buffer};
use ten_values::errors::{DecodeError, FieldContext, Utf8Context};
use ten_values::header::BufferHeader;
use ten_values::tags::BufferType;
use ten_values::value::Value;

fn make_buffer(type_tag: u8, content: &[u8]) -> Vec<u8> {
    let mut buffer = vec![0x0E, 0x01, 0x01, type_tag];
    buffer.extend_from_slice(&(content.len() as u32).to_le_bytes());
    buffer.extend_from_slice(content);
    buffer
}

#[test]
fn test_deserialize_bool() {
    // Header: magic=0x010E, version=1, type=1 (bool), size=1
    // Content: 1 (true)
    let buffer = vec![0x0E, 0x01, 0x01, 0x01, 0x01, 0x00, 0x00, 0x00, 0x01];
    let value = deserialize_from_buffer(&buffer).unwrap();
    match value {
        Value::Bool(true) => {}
        _ => panic!("Expected Bool(true)"),
    }
}

#[test]
fn test_deserialize_int64() {
    // Header: magic=0x010E, version=1, type=5 (int64), size=8
    // Content: 42 as int64
    let buffer = vec![
        0x0E, 0x01, 0x01, 0x05, 0x08, 0x00, 0x00, 0x00, 0x2A, 0x00, 0x00, 0x00, 0x00, 0x00, 0x00,
        0x00,
    ];
    let value = deserialize_from_buffer(&buffer).unwrap();
    match value {
        Value::Int64(42) => {}
        _ => panic!("Expected Int64(42)"),
    }
}

#[test]
fn test_deserialize_string() {
    // Header: magic=0x010E, version=1, type=12 (string), size=9
    // Content: length=5, "hello"
    let buffer = vec![
        0x0E, 0x01, 0x01, 0x0C, 0x09, 0x00, 0x00, 0x00, 0x05, 0x00, 0x00, 0x00, b'h', b'e', b'l',
        b'l', b'o',
    ];
    let value = deserialize_from_buffer(&buffer).unwrap();
    match value {
        Value::String(s) if s == "hello" => {}
        _ => panic!("Expected String(\"hello\")"),
    }
}

#[test]
fn test_deserialize_object() {
    // Object with {"user_id": 12345 (int64), "name": "test" (string)}
    let mut buffer = vec![
        0x0E, 0x01, 0x01, 0x0F, // Header: magic, version, type=object
        0x00, 0x00, 0x00, 0x00, // size placeholder
        0x02, 0x00, 0x00, 0x00, // object size: 2
    ];

    // Key 1: "user_id"
    buffer.extend_from_slice(&[0x07, 0x00, 0x00, 0x00]); // key length: 7
    buffer.extend_from_slice(b"user_id");
    buffer.push(0x05); // value type: int64
    buffer.extend_from_slice(&12345i64.to_le_bytes());

    // Key 2: "name"
    buffer.extend_from_slice(&[0x04, 0x00, 0x00, 0x00]); // key length: 4
    buffer.extend_from_slice(b"name");
    buffer.push(0x0C); // value type: string
    buffer.extend_from_slice(&[0x04, 0x00, 0x00, 0x00]); // string length: 4
    buffer.extend_from_slice(b"test");

    // Update size in header
    let content_size = (buffer.len() - 8) as u32;
    buffer[4..8].copy_from_slice(&content_size.to_le_bytes());

    let value = deserialize_from_buffer(&buffer).unwrap();
    match value {
        Value::Object(obj) => {
            assert_eq!(obj.len(), 2);
            match obj.get("user_id") {
                Some(Value::Int64(12345)) => {}
                _ => panic!("Expected user_id to be Int64(12345)"),
            }
            match obj.get("name") {
                Some(Value::String(s)) if s == "test" => {}
                _ => panic!("Expected name to be String(\"test\")"),
            }
        }
        _ => panic!("Expected Object"),
    }
}

#[test]
fn test_deserialize_array() {
    // Array: [1, 2, 3] (int64)
    let mut buffer = vec![
        0x0E, 0x01, 0x01, 0x0E, // Header: magic, version, type=array
        0x00, 0x00, 0x00, 0x00, // size placeholder
        0x03, 0x00, 0x00, 0x00, // array length: 3
    ];

    for v in 1i64..=3 {
        buffer.push(0x05); // type: int64
        buffer.extend_from_slice(&v.to_le_bytes());
    }

    let content_size = (buffer.len() - 8) as u32;
    buffer[4..8].copy_from_slice(&content_size.to_le_bytes());

    let value = deserialize_from_buffer(&buffer).unwrap();
    match value {
        Value::Array(arr) => {
            assert_eq!(arr.len(), 3);
            for (i, val) in arr.iter().enumerate() {
                match val {
                    Value::Int64(v) if *v == (i as i64 + 1) => {}
                    _ => panic!("Expected Int64({})", i + 1),
                }
            }
        }
        _ => panic!("Expected Array"),
    }
}

#[test]
fn test_object_single_string_entry() {
    // Object with one entry {"name": "test"}
    let mut content = vec![0x01, 0x00, 0x00, 0x00]; // one pair
    content.extend_from_slice(&[0x04, 0x00, 0x00, 0x00]);
    content.extend_from_slice(b"name");
    content.push(0x0C);
    content.extend_from_slice(&[0x04, 0x00, 0x00, 0x00]);
    content.extend_from_slice(b"test");
    let buffer = make_buffer(0x0F, &content);
    let value = deserialize_from_buffer(&buffer).unwrap();
    let obj = value.as_object().expect("Expected Object");
    assert_eq!(obj.len(), 1);
    match obj.get("name") {
        Some(Value::String(s)) if s == "test" => {}
        _ => panic!("Expected name to be String(\"test\")"),
    }
    assert!(obj.get("absent").is_none());
}

#[test]
fn test_invalid_magic() {
    let buffer = vec![0x0E, 0x02, 0x01, 0x01, 0x01, 0x00, 0x00, 0x00, 0x01];
    match deserialize_from_buffer(&buffer) {
        Err(DecodeError::InvalidMagic { expected, actual }) => {
            assert_eq!(expected, 0x010E);
            assert_eq!(actual, 0x020E);
        }
        other => panic!("Expected InvalidMagic, got {:?}", other),
    }
}

#[test]
fn test_unsupported_version() {
    let buffer = vec![0x0E, 0x01, 0x07, 0x01, 0x01, 0x00, 0x00, 0x00, 0x01];
    match deserialize_from_buffer(&buffer) {
        Err(DecodeError::UnsupportedVersion { expected, actual }) => {
            assert_eq!(expected, 1);
            assert_eq!(actual, 7);
        }
        other => panic!("Expected UnsupportedVersion, got {:?}", other),
    }
}

#[test]
fn test_buffer_too_small_for_header() {
    let buffer = vec![0x0E, 0x01, 0x01];
    match deserialize_from_buffer(&buffer) {
        Err(DecodeError::BufferTooSmall { context }) => {
            assert_eq!(context, FieldContext::Header);
        }
        other => panic!("Expected BufferTooSmall, got {:?}", other),
    }
}

#[test]
fn test_size_mismatch() {
    // Declared size 5, but no content bytes follow the header.
    let buffer = vec![0x0E, 0x01, 0x01, 0x01, 0x05, 0x00, 0x00, 0x00];
    match deserialize_from_buffer(&buffer) {
        Err(DecodeError::SizeMismatch { expected, actual }) => {
            assert_eq!(expected, 13);
            assert_eq!(actual, 8);
        }
        other => panic!("Expected SizeMismatch, got {:?}", other),
    }
}

#[test]
fn test_unknown_tag() {
    let buffer = vec![0x0E, 0x01, 0x01, 0x2A, 0x01, 0x00, 0x00, 0x00, 0x01];
    match deserialize_from_buffer(&buffer) {
        Err(DecodeError::UnknownTag { value }) => assert_eq!(value, 0x2A),
        other => panic!("Expected UnknownTag, got {:?}", other),
    }
}

#[test]
fn test_invalid_type_tag() {
    let buffer = make_buffer(0x00, &[]);
    match deserialize_from_buffer(&buffer) {
        Err(DecodeError::InvalidType) => {}
        other => panic!("Expected InvalidType, got {:?}", other),
    }
}

#[test]
fn test_unsupported_ptr_tag() {
    let buffer = make_buffer(0x10, &[0, 0, 0, 0, 0, 0, 0, 0]);
    match deserialize_from_buffer(&buffer) {
        Err(DecodeError::UnsupportedType) => {}
        other => panic!("Expected UnsupportedType, got {:?}", other),
    }
}

#[test]
fn test_invalid_utf8_string() {
    let buffer = make_buffer(0x0C, &[0x02, 0x00, 0x00, 0x00, 0xFF, 0xFE]);
    match deserialize_from_buffer(&buffer) {
        Err(DecodeError::InvalidUtf8 { context }) => {
            assert_eq!(context, Utf8Context::StringData);
        }
        other => panic!("Expected InvalidUtf8, got {:?}", other),
    }
}

#[test]
fn test_invalid_utf8_object_key() {
    let mut content = vec![0x01, 0x00, 0x00, 0x00]; // one pair
    content.extend_from_slice(&[0x02, 0x00, 0x00, 0x00, 0xFF, 0xFE]); // bad key
    content.push(0x01); // bool value
    content.push(0x01);
    let buffer = make_buffer(0x0F, &content);
    match deserialize_from_buffer(&buffer) {
        Err(DecodeError::InvalidUtf8 { context }) => {
            assert_eq!(context, Utf8Context::ObjectKey);
        }
        other => panic!("Expected InvalidUtf8 in key, got {:?}", other),
    }
}

#[test]
fn test_scalar_round_trip_values() {
    // Every fixed-width payload comes back value for value.
    let cases: Vec<(u8, Vec<u8>)> = vec![
        (0x02, vec![0x80]),                                  // Int8 -128
        (0x03, 0x8000u16.to_le_bytes().to_vec()),            // Int16 -32768
        (0x04, 0x80000000u32.to_le_bytes().to_vec()),        // Int32 min
        (0x06, vec![0xFF]),                                  // Uint8 255
        (0x07, 0xFFFFu16.to_le_bytes().to_vec()),            // Uint16 max
        (0x08, 0xFFFFFFFFu32.to_le_bytes().to_vec()),        // Uint32 max
        (0x09, u64::MAX.to_le_bytes().to_vec()),             // Uint64 max
    ];
    for (tag, content) in cases {
        let buffer = make_buffer(tag, &content);
        let value = deserialize_from_buffer(&buffer).unwrap();
        match (tag, value) {
            (0x02, Value::Int8(x)) => assert_eq!(x, -128),
            (0x03, Value::Int16(x)) => assert_eq!(x, i16::MIN),
            (0x04, Value::Int32(x)) => assert_eq!(x, i32::MIN),
            (0x06, Value::Uint8(x)) => assert_eq!(x, 255),
            (0x07, Value::Uint16(x)) => assert_eq!(x, u16::MAX),
            (0x08, Value::Uint32(x)) => assert_eq!(x, u32::MAX),
            (0x09, Value::Uint64(x)) => assert_eq!(x, u64::MAX),
            (t, v) => panic!("tag {t}: unexpected value {v:?}"),
        }
    }
}

#[test]
fn test_float_payloads_keep_bits() {
    let bits = 1.5f64.to_bits();
    let buffer = make_buffer(0x0B, &bits.to_le_bytes());
    match deserialize_from_buffer(&buffer).unwrap() {
        Value::Float64(b) => assert_eq!(b, bits),
        other => panic!("Expected Float64, got {:?}", other),
    }
    let bits32 = 2.25f32.to_bits();
    let buffer = make_buffer(0x0A, &bits32.to_le_bytes());
    match deserialize_from_buffer(&buffer).unwrap() {
        Value::Float32(b) => assert_eq!(b, bits32),
        other => panic!("Expected Float32, got {:?}", other),
    }
}

#[test]
fn test_empty_string_buf_array_object() {
    match deserialize_from_buffer(&make_buffer(0x0C, &[0, 0, 0, 0])).unwrap() {
        Value::String(s) => assert_eq!(s, ""),
        other => panic!("Expected empty String, got {:?}", other),
    }
    match deserialize_from_buffer(&make_buffer(0x0D, &[0, 0, 0, 0])).unwrap() {
        Value::Buf(b) => assert!(b.is_empty()),
        other => panic!("Expected empty Buf, got {:?}", other),
    }
    match deserialize_from_buffer(&make_buffer(0x0E, &[0, 0, 0, 0])).unwrap() {
        Value::Array(a) => assert!(a.is_empty()),
        other => panic!("Expected empty Array, got {:?}", other),
    }
    match deserialize_from_buffer(&make_buffer(0x0F, &[0, 0, 0, 0])).unwrap() {
        Value::Object(o) => assert_eq!(o.len(), 0),
        other => panic!("Expected empty Object, got {:?}", other),
    }
}

#[test]
fn test_buf_payload() {
    let buffer = make_buffer(0x0D, &[0x03, 0x00, 0x00, 0x00, 9, 8, 7]);
    match deserialize_from_buffer(&buffer).unwrap() {
        Value::Buf(b) => assert_eq!(b, vec![9, 8, 7]),
        other => panic!("Expected Buf, got {:?}", other),
    }
}

#[test]
fn test_object_repeated_key_last_write_wins() {
    // {"k": 1, "k": 2} resolves to the later value.
    let mut content = vec![0x02, 0x00, 0x00, 0x00];
    for v in [1i64, 2i64] {
        content.extend_from_slice(&[0x01, 0x00, 0x00, 0x00]);
        content.push(b'k');
        content.push(0x05);
        content.extend_from_slice(&v.to_le_bytes());
    }
    let buffer = make_buffer(0x0F, &content);
    match deserialize_from_buffer(&buffer).unwrap() {
        Value::Object(obj) => {
            assert_eq!(obj.len(), 1);
            match obj.get("k") {
                Some(Value::Int64(2)) => {}
                other => panic!("Expected k to be Int64(2), got {:?}", other),
            }
        }
        other => panic!("Expected Object, got {:?}", other),
    }
}

#[test]
fn test_decode_is_deterministic() {
    let buffer = vec![
        0x0E, 0x01, 0x01, 0x05, 0x08, 0x00, 0x00, 0x00, 0x2A, 0x00, 0x00, 0x00, 0x00, 0x00, 0x00,
        0x00,
    ];
    let first = deserialize_from_buffer(&buffer).unwrap();
    let second = deserialize_from_buffer(&buffer).unwrap();
    assert_eq!(first, second);
}

#[test]
fn test_truncated_prefixes_fail_without_panicking() {
    // Every proper prefix of a valid buffer decodes to a typed error.
    let mut buffer = vec![
        0x0E, 0x01, 0x01, 0x0E, 0x00, 0x00, 0x00, 0x00, 0x02, 0x00, 0x00, 0x00,
    ];
    buffer.push(0x0C);
    buffer.extend_from_slice(&[0x03, 0x00, 0x00, 0x00]);
    buffer.extend_from_slice(b"abc");
    buffer.push(0x01);
    buffer.push(0x01);
    let content_size = (buffer.len() - 8) as u32;
    buffer[4..8].copy_from_slice(&content_size.to_le_bytes());
    assert!(deserialize_from_buffer(&buffer).is_ok());
    for cut in 0..buffer.len() {
        assert!(
            deserialize_from_buffer(&buffer[..cut]).is_err(),
            "prefix of length {cut} should fail"
        );
    }
}

#[test]
fn test_arbitrary_bytes_fail_without_panicking() {
    // A spread of junk inputs all return typed errors.
    let mut byte: u8 = 1;
    for len in 0..64usize {
        let mut junk = Vec::with_capacity(len);
        for _ in 0..len {
            byte = byte.wrapping_mul(197).wrapping_add(13);
            junk.push(byte);
        }
        let _ = deserialize_from_buffer(&junk);
    }
}

#[test]
fn test_trailing_bytes_are_ignored() {
    // Bytes past the decoded content are never inspected or rejected.
    let mut buffer = vec![0x0E, 0x01, 0x01, 0x01, 0x05, 0x00, 0x00, 0x00, 0x01];
    buffer.extend_from_slice(&[0xAA, 0xBB, 0xCC, 0xDD]); // inside declared size
    match deserialize_from_buffer(&buffer).unwrap() {
        Value::Bool(true) => {}
        other => panic!("Expected Bool(true), got {:?}", other),
    }
}

#[test]
fn test_header_parse_fields() {
    let buffer = vec![0x0E, 0x01, 0x01, 0x0C, 0x09, 0x00, 0x00, 0x00, 0, 0, 0, 0, 0, 0, 0, 0, 0];
    let header = BufferHeader::parse(&buffer).unwrap();
    assert_eq!(header.magic, 0x010E);
    assert_eq!(header.version, 1);
    assert_eq!(header.type_id, BufferType::String);
    assert_eq!(header.size, 9);
}

#[test]
fn test_tag_table() {
    assert_eq!(BufferType::from_u8(0).unwrap(), BufferType::Invalid);
    assert_eq!(BufferType::from_u8(1).unwrap(), BufferType::Bool);
    assert_eq!(BufferType::from_u8(12).unwrap(), BufferType::String);
    assert_eq!(BufferType::from_u8(16).unwrap(), BufferType::Ptr);
    assert_eq!(BufferType::from_u8(17).unwrap(), BufferType::JsonString);
    assert!(matches!(
        BufferType::from_u8(18),
        Err(DecodeError::UnknownTag { value: 18 })
    ));
}

#[test]
fn test_deserialize_content_advances_cursor() {
    // int32 content followed by trailing bytes the decode never touches
    let buffer = [0x2A, 0x00, 0x00, 0x00, 0xAA, 0xBB];
    let mut pos: usize = 0;
    let value = deserialize_content(&buffer, &mut pos, BufferType::Int32).unwrap();
    assert_eq!(pos, 4);
    match value {
        Value::Int32(42) => {}
        other => panic!("Expected Int32(42), got {:?}", other),
    }
}

#[test]
fn test_unknown_tag_reported_before_bad_magic() {
    // The tag byte is examined before the magic is checked, so a buffer
    // wrong in both ways reports the unknown tag.
    let buffer = vec![0xFF, 0xFF, 0x01, 0x63, 0x00, 0x00, 0x00, 0x00];
    match deserialize_from_buffer(&buffer) {
        Err(DecodeError::UnknownTag { value }) => assert_eq!(value, 0x63),
        other => panic!("Expected UnknownTag, got {:?}", other),
    }
}

#[test]
fn test_nested_array_of_objects() {
    // [[{"a": true}]]: composites nest with bare tags, no inner headers.
    let mut inner_obj = vec![0x01, 0x00, 0x00, 0x00];
    inner_obj.extend_from_slice(&[0x01, 0x00, 0x00, 0x00]);
    inner_obj.push(b'a');
    inner_obj.push(0x01);
    inner_obj.push(0x01);

    let mut inner_arr = vec![0x01, 0x00, 0x00, 0x00];
    inner_arr.push(0x0F);
    inner_arr.extend_from_slice(&inner_obj);

    let mut content = vec![0x01, 0x00, 0x00, 0x00];
    content.push(0x0E);
    content.extend_from_slice(&inner_arr);

    let buffer = make_buffer(0x0E, &content);
    match deserialize_from_buffer(&buffer).unwrap() {
        Value::Array(outer) => match &outer[0] {
            Value::Array(inner) => match &inner[0] {
                Value::Object(obj) => match obj.get("a") {
                    Some(Value::Bool(true)) => {}
                    other => panic!("Expected a to be Bool(true), got {:?}", other),
                },
                other => panic!("Expected Object, got {:?}", other),
            },
            other => panic!("Expected inner Array, got {:?}", other),
        },
        other => panic!("Expected Array, got {:?}", other),
    }
}
