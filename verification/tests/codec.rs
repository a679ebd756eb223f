use protobuf_rust::{EncodeError, FieldKind};
use protobuf_rust::scalar::{encode_double, encode_float, encode_int32, encode_int64, encode_string};
use protobuf_rust::tag::{decode_tag, encode_tag};
use protobuf_rust::varint::{decode_unsigned_varint, encode_unsigned_varint};

#[test]
fn varint_small_values_take_one_byte() {
    assert_eq!(encode_unsigned_varint(0), vec![0x00]);
    assert_eq!(encode_unsigned_varint(1), vec![0x01]);
    assert_eq!(encode_unsigned_varint(127), vec![0x7f]);
}

#[test]
fn varint_grows_one_byte_per_seven_bits() {
    assert_eq!(encode_unsigned_varint(128), vec![0x80, 0x01]);
    assert_eq!(encode_unsigned_varint(150), vec![0x96, 0x01]);
    assert_eq!(encode_unsigned_varint(16383), vec![0xff, 0x7f]);
    assert_eq!(encode_unsigned_varint(16384), vec![0x80, 0x80, 0x01]);
    assert_eq!(encode_unsigned_varint(u64::MAX).len(), 10);
}

#[test]
fn varint_round_trips() {
    for n in [0u64, 1, 127, 128, 150, 300, 16383, 16384, 1 << 32, u64::MAX] {
        let encoded = encode_unsigned_varint(n);
        assert_eq!(decode_unsigned_varint(&encoded), Ok(n));
    }
}

#[test]
fn varint_decode_rejects_malformed_buffers() {
    assert_eq!(decode_unsigned_varint(&vec![]), Err(EncodeError::InvalidInput));
    assert_eq!(decode_unsigned_varint(&vec![0x80]), Err(EncodeError::InvalidInput));
    assert_eq!(decode_unsigned_varint(&vec![0x00, 0x00]), Err(EncodeError::InvalidInput));
    let too_big = vec![0xff, 0xff, 0xff, 0xff, 0xff, 0xff, 0xff, 0xff, 0xff, 0xff, 0x01];
    assert_eq!(decode_unsigned_varint(&too_big), Err(EncodeError::InvalidInput));
}

#[test]
fn tag_round_trips() {
    for (f, w) in [(0u32, 0u8), (1, 0), (2, 2), (4, 5), (6, 1), (16, 0), (100000, 2), (u32::MAX, 5)] {
        let encoded = encode_tag(f, w).unwrap();
        assert_eq!(decode_tag(&encoded), Ok((f, w)));
    }
}

#[test]
fn tag_packs_field_number_past_three_wire_type_bits() {
    assert_eq!(encode_tag(1, 0).unwrap(), vec![0x08]);
    assert_eq!(encode_tag(2, 2).unwrap(), vec![0x12]);
    assert_eq!(encode_tag(3, 2).unwrap(), vec![0x1a]);
    assert_eq!(encode_tag(4, 5).unwrap(), vec![0x25]);
    assert_eq!(encode_tag(16, 0).unwrap(), vec![0x80, 0x01]);
}

#[test]
fn tag_rejects_wire_types_outside_the_protocol() {
    for w in [3u8, 4, 6, 7, 255] {
        assert_eq!(encode_tag(1, w), Err(EncodeError::InvalidInput));
    }
}

#[test]
fn int32_sign_extends_to_ten_bytes() {
    assert_eq!(encode_int32(150), vec![0x96, 0x01]);
    assert_eq!(
        encode_int32(-1),
        vec![0xff, 0xff, 0xff, 0xff, 0xff, 0xff, 0xff, 0xff, 0xff, 0x01]
    );
    assert_eq!(
        encode_int32(-2),
        vec![0xfe, 0xff, 0xff, 0xff, 0xff, 0xff, 0xff, 0xff, 0xff, 0x01]
    );
}

#[test]
fn int64_encodes_the_twos_complement_pattern() {
    assert_eq!(encode_int64(0), vec![0x00]);
    assert_eq!(encode_int64(300), vec![0xac, 0x02]);
    assert_eq!(
        encode_int64(i64::MIN),
        vec![0x80, 0x80, 0x80, 0x80, 0x80, 0x80, 0x80, 0x80, 0x80, 0x01]
    );
    assert_eq!(encode_int64(i64::MAX).len(), 9);
}

#[test]
fn floats_encode_little_endian() {
    assert_eq!(encode_float(1.5f32.to_bits()), vec![0x00, 0x00, 0xc0, 0x3f]);
    assert_eq!(
        encode_double(1.0f64.to_bits()),
        vec![0x00, 0x00, 0x00, 0x00, 0x00, 0x00, 0xf0, 0x3f]
    );
}

#[test]
fn strings_encode_as_raw_utf8() {
    assert_eq!(
        encode_string("testing"),
        vec![0x74, 0x65, 0x73, 0x74, 0x69, 0x6e, 0x67]
    );
    assert_eq!(encode_string(""), Vec::<u8>::new());
    assert_eq!(encode_string("\u{00e9}"), vec![0xc3, 0xa9]);
}

#[test]
fn parse_key_splits_kind_and_number() {
    assert_eq!(protobuf_rust::parse_key("int32/1"), Ok((FieldKind::Int32, 1)));
    assert_eq!(protobuf_rust::parse_key("int64/123"), Ok((FieldKind::Int64, 123)));
    assert_eq!(protobuf_rust::parse_key("float/4"), Ok((FieldKind::Float, 4)));
    assert_eq!(protobuf_rust::parse_key("double/0"), Ok((FieldKind::Double, 0)));
    assert_eq!(protobuf_rust::parse_key("string/2"), Ok((FieldKind::Str, 2)));
    assert_eq!(
        protobuf_rust::parse_key("object/4294967295"),
        Ok((FieldKind::Object, u32::MAX))
    );
}

#[test]
fn parse_key_rejects_malformed_keys() {
    for key in ["", "int32", "int32/", "int32/1/2", "int32/a", "int32/-1", "int32/4294967296"] {
        assert_eq!(
            protobuf_rust::parse_key(key),
            Err(EncodeError::MalformedKey),
            "key {:?}",
            key
        );
    }
}

#[test]
fn parse_key_rejects_unknown_kinds() {
    for key in ["bytes/1", "sint32/1", "INT32/1", "bool/7", "/1"] {
        assert_eq!(
            protobuf_rust::parse_key(key),
            Err(EncodeError::UnknownKind),
            "key {:?}",
            key
        );
    }
}
