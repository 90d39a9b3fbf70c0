use stdcode::{deserialize, serialize, CodecError, Schema, StdcodeSerializeExt, Value};

fn sample_schema() -> Schema {
    Schema::Record(vec![
        Schema::Int,
        Schema::Bytes,
        Schema::List(Box::new(Schema::Int)),
        Schema::Tagged(vec![Schema::Int, Schema::Fixed(4)]),
    ])
}

fn sample_value() -> Value {
    Value::Record(vec![
        Value::Int(5),
        Value::Bytes(vec![1, 2, 3]),
        Value::List(vec![Value::Int(300), Value::Int(1)]),
        Value::Tagged(1, Box::new(Value::Fixed(vec![9, 8, 7, 6]))),
    ])
}

#[test]
fn round_trip_composite() {
    let v = sample_value();
    let bytes = serialize(&v);
    let back = deserialize(&sample_schema(), &bytes).unwrap();
    assert_eq!(back, sample_value());
}

#[test]
fn encode_deterministic() {
    let a = serialize(&sample_value());
    let b = serialize(&sample_value());
    assert_eq!(a, b);
}

#[test]
fn trailing_byte_rejected() {
    let mut bytes = serialize(&sample_value());
    bytes.push(0x00);
    assert_eq!(
        deserialize(&sample_schema(), &bytes),
        Err(CodecError::TrailingData)
    );
}

#[test]
fn size_limit_enforced() {
    // A length prefix declaring 1_000_000_000 bytes, followed by only 4 bytes.
    let mut crafted: Vec<u8> = vec![252, 0x00, 0xCA, 0x9A, 0x3B];
    crafted.extend_from_slice(&[1, 2, 3, 4]);
    assert_eq!(
        deserialize(&Schema::Bytes, &crafted),
        Err(CodecError::SizeLimitExceeded)
    );
    // The same count declared for a list of integers.
    assert_eq!(
        deserialize(&Schema::List(Box::new(Schema::Int)), &crafted),
        Err(CodecError::SizeLimitExceeded)
    );
}

#[test]
fn varint_wire_form() {
    assert_eq!(serialize(&Value::Int(0)), vec![0]);
    assert_eq!(serialize(&Value::Int(250)), vec![250]);
    assert_eq!(serialize(&Value::Int(251)), vec![251, 251, 0]);
    assert_eq!(serialize(&Value::Int(65535)), vec![251, 255, 255]);
    assert_eq!(serialize(&Value::Int(65536)), vec![252, 0, 0, 1, 0]);
    assert_eq!(
        serialize(&Value::Int(1 << 32)),
        vec![253, 0, 0, 0, 0, 1, 0, 0, 0]
    );
}

#[test]
fn noncanonical_varint_rejected() {
    // The value 5 written in the two-byte wide form instead of one byte.
    assert_eq!(
        deserialize(&Schema::Int, &[251, 5, 0]),
        Err(CodecError::Malformed)
    );
}

#[test]
fn truncated_input_rejected() {
    assert_eq!(
        deserialize(&Schema::Fixed(4), &[1, 2, 3]),
        Err(CodecError::Malformed)
    );
    assert_eq!(deserialize(&Schema::Int, &[251, 5]), Err(CodecError::Malformed));
}

#[test]
fn bad_discriminant_rejected() {
    let schema = Schema::Tagged(vec![Schema::Int, Schema::Int]);
    assert_eq!(deserialize(&schema, &[2, 0]), Err(CodecError::Malformed));
}

#[test]
fn ordering_changes_encoding() {
    let a = serialize(&Value::List(vec![Value::Int(1), Value::Int(2)]));
    let b = serialize(&Value::List(vec![Value::Int(2), Value::Int(1)]));
    assert_ne!(a, b);
}

#[test]
fn stdcode_ext_matches_serialize() {
    let v = sample_value();
    assert_eq!(v.stdcode(), serialize(&v));
}

#[test]
fn empty_bytes_and_list() {
    let v = Value::Record(vec![Value::Bytes(vec![]), Value::List(vec![])]);
    let s = Schema::Record(vec![Schema::Bytes, Schema::List(Box::new(Schema::Int))]);
    let bytes = serialize(&v);
    assert_eq!(bytes, vec![0, 0]);
    let back = deserialize(&s, &bytes).unwrap();
    assert_eq!(back, v);
}

#[test]
fn tagged_first_variant() {
    let schema = Schema::Tagged(vec![Schema::Int, Schema::Bytes]);
    let v = Value::Tagged(0, Box::new(Value::Int(7)));
    let bytes = serialize(&v);
    assert_eq!(bytes, vec![0, 7]);
    assert_eq!(deserialize(&schema, &bytes).unwrap(), v);
}
