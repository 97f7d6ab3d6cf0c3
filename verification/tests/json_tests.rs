use ten_values::decode::deserialize_from_buffer;
use ten_values::json::JsonValue;
use ten_values::value::Value;

fn make_buffer(type_tag: u8, content: &[u8]) -> Vec<u8> {
    let mut buffer = vec![0x0E, 0x01, 0x01, type_tag];
    buffer.extend_from_slice(&(content.len() as u32).to_le_bytes());
    buffer.extend_from_slice(content);
    buffer
}

#[test]
fn test_nan_float64_projects_to_null() {
    let buffer = make_buffer(0x0B, &f64::NAN.to_bits().to_le_bytes());
    let value = deserialize_from_buffer(&buffer).unwrap();
    assert_eq!(value.to_json(), JsonValue::Null);
}

#[test]
fn test_infinities_project_to_null() {
    let value = deserialize_from_buffer(&make_buffer(0x0B, &f64::INFINITY.to_bits().to_le_bytes()))
        .unwrap();
    assert_eq!(value.to_json(), JsonValue::Null);
    let value =
        deserialize_from_buffer(&make_buffer(0x0B, &f64::NEG_INFINITY.to_bits().to_le_bytes()))
            .unwrap();
    assert_eq!(value.to_json(), JsonValue::Null);
    let value = deserialize_from_buffer(&make_buffer(0x0A, &f32::NAN.to_bits().to_le_bytes()))
        .unwrap();
    assert_eq!(value.to_json(), JsonValue::Null);
}

#[test]
fn test_finite_floats_project_to_numbers() {
    let bits = 1.5f64.to_bits();
    let value = deserialize_from_buffer(&make_buffer(0x0B, &bits.to_le_bytes())).unwrap();
    assert_eq!(value.to_json(), JsonValue::Float64Num(bits));
    let bits32 = 0.25f32.to_bits();
    let value = deserialize_from_buffer(&make_buffer(0x0A, &bits32.to_le_bytes())).unwrap();
    assert_eq!(value.to_json(), JsonValue::Float32Num(bits32));
}

#[test]
fn test_valid_json_text_projects_as_document() {
    // A JsonString payload holding well-formed JSON is substituted as a
    // parsed document, not projected as a string literal.
    let text = br#"{"a": [1, 2], "b": null}"#;
    let mut content = (text.len() as u32).to_le_bytes().to_vec();
    content.extend_from_slice(text);
    let value = deserialize_from_buffer(&make_buffer(0x11, &content)).unwrap();
    match value.to_json() {
        JsonValue::JsonText(s) => {
            assert_eq!(s.as_bytes(), text);
            // the carried text really is one JSON document
            assert!(serde_json::from_str::<serde_json::Value>(&s).is_ok());
        }
        other => panic!("Expected JsonText, got {:?}", other),
    }
}

#[test]
fn test_invalid_json_text_falls_back_to_string() {
    let text = b"not json at all {";
    let mut content = (text.len() as u32).to_le_bytes().to_vec();
    content.extend_from_slice(text);
    let value = deserialize_from_buffer(&make_buffer(0x11, &content)).unwrap();
    match value.to_json() {
        JsonValue::Str(s) => assert_eq!(s.as_bytes(), text),
        other => panic!("Expected Str fallback, got {:?}", other),
    }
}

#[test]
fn test_integers_widen() {
    assert_eq!(Value::Int8(-5).to_json(), JsonValue::IntNum(-5));
    assert_eq!(Value::Int16(-300).to_json(), JsonValue::IntNum(-300));
    assert_eq!(Value::Int32(1 << 20).to_json(), JsonValue::IntNum(1 << 20));
    assert_eq!(Value::Int64(i64::MIN).to_json(), JsonValue::IntNum(i64::MIN));
    assert_eq!(Value::Uint8(200).to_json(), JsonValue::UintNum(200));
    assert_eq!(Value::Uint16(60000).to_json(), JsonValue::UintNum(60000));
    assert_eq!(Value::Uint32(4000000000).to_json(), JsonValue::UintNum(4000000000));
    assert_eq!(Value::Uint64(u64::MAX).to_json(), JsonValue::UintNum(u64::MAX));
}

#[test]
fn test_bool_and_string_project_directly() {
    assert_eq!(Value::Bool(false).to_json(), JsonValue::Bool(false));
    assert_eq!(
        Value::String("hi".to_string()).to_json(),
        JsonValue::Str("hi".to_string())
    );
}

#[test]
fn test_buf_projects_to_byte_array() {
    let json = Value::Buf(vec![0, 127, 255]).to_json();
    assert_eq!(
        json,
        JsonValue::Arr(vec![
            JsonValue::UintNum(0),
            JsonValue::UintNum(127),
            JsonValue::UintNum(255),
        ])
    );
}

#[test]
fn test_array_projection_preserves_order() {
    let value = Value::Array(vec![Value::Int64(3), Value::Bool(true), Value::Uint8(9)]);
    assert_eq!(
        value.to_json(),
        JsonValue::Arr(vec![
            JsonValue::IntNum(3),
            JsonValue::Bool(true),
            JsonValue::UintNum(9),
        ])
    );
}

#[test]
fn test_object_projection_keeps_entries() {
    // {"x": 1, "y": "z"} decoded, projected: both entries present.
    let mut content = vec![0x02, 0x00, 0x00, 0x00];
    content.extend_from_slice(&[0x01, 0x00, 0x00, 0x00]);
    content.push(b'x');
    content.push(0x05);
    content.extend_from_slice(&1i64.to_le_bytes());
    content.extend_from_slice(&[0x01, 0x00, 0x00, 0x00]);
    content.push(b'y');
    content.push(0x0C);
    content.extend_from_slice(&[0x01, 0x00, 0x00, 0x00]);
    content.push(b'z');
    let value = deserialize_from_buffer(&make_buffer(0x0F, &content)).unwrap();
    match value.to_json() {
        JsonValue::Obj(entries) => {
            assert_eq!(entries.len(), 2);
            assert!(entries.iter().any(|(k, v)| k == "x" && *v == JsonValue::IntNum(1)));
            assert!(entries
                .iter()
                .any(|(k, v)| k == "y" && *v == JsonValue::Str("z".to_string())));
        }
        other => panic!("Expected Obj, got {:?}", other),
    }
}

#[test]
fn test_is_object_and_as_object() {
    let buffer = make_buffer(0x0F, &[0, 0, 0, 0]);
    let value = deserialize_from_buffer(&buffer).unwrap();
    assert!(value.is_object());
    assert!(value.as_object().is_some());
    let scalar = Value::Int64(1);
    assert!(!scalar.is_object());
    assert!(scalar.as_object().is_none());
}
