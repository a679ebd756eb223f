use base64::{prelude, Engine};
use protobuf_rust::{EncodeError, FieldKind, ProtoSerializer, Value};

/// Builds the library's value tree from a JSON document: each value's
/// variant follows its key's kind; a value under a key that does not parse
/// becomes a placeholder leaf, which the encoder never reads before it
/// reports the key's error.
fn json_to_value(data: &serde_json::Value) -> Value {
    let obj = data.as_object().expect("not an object value");
    let mut entries: Vec<(String, Value)> = Vec::new();
    for (key, val) in obj.iter() {
        let entry = match protobuf_rust::parse_key(key) {
            Ok((kind, _)) => match kind {
                FieldKind::Int32 => Value::Int32(val.as_i64().unwrap() as i32),
                FieldKind::Int64 => Value::Int64(val.as_i64().unwrap()),
                FieldKind::Float => Value::FloatBits((val.as_f64().unwrap() as f32).to_bits()),
                FieldKind::Double => Value::DoubleBits(val.as_f64().unwrap().to_bits()),
                FieldKind::Str => Value::Str(val.as_str().unwrap().to_string()),
                FieldKind::Object => json_to_value(val),
            },
            Err(_) => Value::Int32(0),
        };
        entries.push((key.clone(), entry));
    }
    Value::Object(entries)
}

#[test]
fn test_serialize() {
    let base64_data = "";
    let correct_answer = prelude::BASE64_STANDARD.decode(base64_data).unwrap();

    let json_data = "{}";
    let result = serde_json::from_str::<serde_json::Value>(json_data).unwrap();

    let serializer = ProtoSerializer::new(json_to_value(&result));
    let bytes = serializer.serialize().unwrap();

    assert!(bytes.eq(&correct_answer));
}

#[test]
fn empty_object_encodes_to_no_bytes() {
    let serializer = ProtoSerializer::new(Value::Object(vec![]));
    assert_eq!(serializer.serialize().unwrap(), Vec::<u8>::new());
}

#[test]
fn int32_field_150_at_field_1() {
    let tree = Value::Object(vec![("int32/1".to_string(), Value::Int32(150))]);
    let bytes = ProtoSerializer::new(tree).serialize().unwrap();
    assert_eq!(bytes, vec![0x08, 0x96, 0x01]);
}

#[test]
fn string_field_testing_at_field_2() {
    let tree = Value::Object(vec![("string/2".to_string(), Value::Str("testing".to_string()))]);
    let bytes = ProtoSerializer::new(tree).serialize().unwrap();
    assert_eq!(bytes, vec![0x12, 0x07, 0x74, 0x65, 0x73, 0x74, 0x69, 0x6e, 0x67]);
}

#[test]
fn nested_object_at_field_3() {
    let inner = Value::Object(vec![("int32/1".to_string(), Value::Int32(1))]);
    let tree = Value::Object(vec![("object/3".to_string(), inner)]);
    let bytes = ProtoSerializer::new(tree).serialize().unwrap();
    assert_eq!(bytes, vec![0x1a, 0x02, 0x08, 0x01]);
}

#[test]
fn float_field_one_and_a_half_at_field_4() {
    let tree = Value::Object(vec![("float/4".to_string(), Value::FloatBits(1.5f32.to_bits()))]);
    let bytes = ProtoSerializer::new(tree).serialize().unwrap();
    assert_eq!(bytes, vec![0x25, 0x00, 0x00, 0xc0, 0x3f]);
}

#[test]
fn double_field_one_at_field_6() {
    let tree = Value::Object(vec![(
        "double/6".to_string(),
        Value::DoubleBits(1.0f64.to_bits()),
    )]);
    let bytes = ProtoSerializer::new(tree).serialize().unwrap();
    assert_eq!(bytes, vec![0x31, 0x00, 0x00, 0x00, 0x00, 0x00, 0x00, 0xf0, 0x3f]);
}

#[test]
fn int64_field_at_field_5() {
    let tree = Value::Object(vec![("int64/5".to_string(), Value::Int64(300))]);
    let bytes = ProtoSerializer::new(tree).serialize().unwrap();
    assert_eq!(bytes, vec![0x28, 0xac, 0x02]);
}

#[test]
fn fields_keep_input_order() {
    let tree = Value::Object(vec![
        ("int32/2".to_string(), Value::Int32(1)),
        ("int32/1".to_string(), Value::Int32(2)),
    ]);
    let bytes = ProtoSerializer::new(tree).serialize().unwrap();
    assert_eq!(bytes, vec![0x10, 0x01, 0x08, 0x02]);
}

#[test]
fn field_number_above_15_uses_two_tag_bytes() {
    let tree = Value::Object(vec![("int32/16".to_string(), Value::Int32(1))]);
    let bytes = ProtoSerializer::new(tree).serialize().unwrap();
    assert_eq!(bytes, vec![0x80, 0x01, 0x01]);
}

#[test]
fn malformed_key_fails_whole_encode() {
    let tree = Value::Object(vec![
        ("int32/1".to_string(), Value::Int32(1)),
        ("int32".to_string(), Value::Int32(2)),
    ]);
    assert_eq!(
        ProtoSerializer::new(tree).serialize(),
        Err(EncodeError::MalformedKey)
    );
}

#[test]
fn unknown_kind_fails_whole_encode() {
    let tree = Value::Object(vec![("bytes/1".to_string(), Value::Int32(1))]);
    assert_eq!(
        ProtoSerializer::new(tree).serialize(),
        Err(EncodeError::UnknownKind)
    );
}

#[test]
fn bad_key_in_nested_object_fails_whole_encode() {
    let inner = Value::Object(vec![("int32/a".to_string(), Value::Int32(1))]);
    let tree = Value::Object(vec![
        ("object/1".to_string(), inner),
        ("int32/2".to_string(), Value::Int32(5)),
    ]);
    assert_eq!(
        ProtoSerializer::new(tree).serialize(),
        Err(EncodeError::MalformedKey)
    );
}

#[test]
fn non_object_root_is_invalid_input() {
    assert_eq!(
        ProtoSerializer::new(Value::Int32(1)).serialize(),
        Err(EncodeError::InvalidInput)
    );
}

#[test]
fn json_round_trip_matches_direct_tree() {
    let json_data = "{\"int32/1\": 150, \"string/2\": \"testing\"}";
    let parsed = serde_json::from_str::<serde_json::Value>(json_data).unwrap();
    let bytes = ProtoSerializer::new(json_to_value(&parsed)).serialize().unwrap();
    assert_eq!(
        bytes,
        vec![0x08, 0x96, 0x01, 0x12, 0x07, 0x74, 0x65, 0x73, 0x74, 0x69, 0x6e, 0x67]
    );
}
