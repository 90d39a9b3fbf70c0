use stdcode::try_asstr::Labeled;
use stdcode::{asstr, hexvec, try_asstr, CodecError, Emitted, HexBytesInner, Mode, Textual};
use stdcode::{HashVal, SerializeAsString};

#[test]
fn hex_adapter_round_trip() {
    let wrapped = HexBytesInner::from_slice(&[0xDE, 0xAD, 0xBE, 0xEF]);
    assert_eq!(wrapped.to_hex(), "deadbeef");
    let back = HexBytesInner::from_hex("deadbeef").unwrap();
    assert_eq!(back.into_vec(), vec![0xDE, 0xAD, 0xBE, 0xEF]);
    assert_eq!(
        HexBytesInner::from_hex("deadbee"),
        Err(CodecError::InvalidHex)
    );
    assert_eq!(
        HexBytesInner::from_hex("dead__ef"),
        Err(CodecError::InvalidHex)
    );
}

#[test]
fn hex_adapter_uppercase_accepted() {
    let back = HexBytesInner::from_hex("DEADBEEF").unwrap();
    assert_eq!(back.to_hex(), "deadbeef");
}

#[test]
fn hexvec_wrap_unwrap() {
    let bufs: Vec<Vec<u8>> = vec![vec![1, 2], vec![], vec![0xFF]];
    let wrapped = hexvec::serialize(&bufs);
    assert_eq!(wrapped.len(), 3);
    assert_eq!(wrapped[0].to_hex(), "0102");
    assert_eq!(wrapped[2].to_hex(), "ff");
    let back = hexvec::deserialize(&wrapped);
    assert_eq!(back, bufs);
}

#[test]
fn try_asstr() {
    let first: serde_json::Value = serde_json::from_str("{\"hello\": \"world\"}").unwrap();
    let second: serde_json::Value =
        serde_json::from_str("{\"hello\": {\"laboo\": \"world\"}}").unwrap();

    let text_form = match &first["hello"] {
        serde_json::Value::String(s) => Emitted::<Labeled>::Text(s.clone()),
        _ => panic!("expected a string"),
    };
    let native_form = match &second["hello"]["laboo"] {
        serde_json::Value::String(s) => Emitted::Native(Labeled { laboo: s.clone() }),
        _ => panic!("expected a string"),
    };

    let tt = try_asstr::deserialize(text_form, Mode::Text).unwrap();
    let ttt = try_asstr::deserialize(native_form, Mode::Text).unwrap();
    assert_eq!(tt, ttt)
}

#[test]
fn lenient_encode_is_string_form() {
    let v = Labeled {
        laboo: String::from("hello"),
    };
    match try_asstr::serialize(v, Mode::Text) {
        Emitted::Text(s) => assert_eq!(s, "hello"),
        Emitted::Native(_) => panic!("text mode must produce the string form"),
    }
}

#[test]
fn strict_adapter_rejects_native_in_text_mode() {
    let v = Labeled {
        laboo: String::from("hello"),
    };
    assert_eq!(
        asstr::deserialize(Emitted::Native(v), Mode::Text),
        Err(CodecError::ParseError)
    );
}

#[test]
fn binary_mode_passes_value_through() {
    let v = Labeled {
        laboo: String::from("hello"),
    };
    let emitted = asstr::serialize(v, Mode::Binary);
    let back = asstr::deserialize(emitted, Mode::Binary).unwrap();
    assert_eq!(back.laboo, "hello");
}

#[test]
fn display_parse_mismatch_fails() {
    // Not hex at all.
    assert_eq!(
        HashVal::from_text("zz"),
        Err(CodecError::ParseError)
    );
    // Hex, but not 64 digits.
    assert_eq!(
        HashVal::from_text("deadbeef"),
        Err(CodecError::ParseError)
    );
}

#[test]
fn display_parse_round_trip() {
    let h = HashVal([0xAB; 32]);
    let text = h.to_text();
    assert_eq!(text.len(), 64);
    let back = HashVal::from_text(&text).unwrap();
    assert_eq!(back, h);
}

#[test]
fn serialize_as_string_wrapper() {
    let w = SerializeAsString(HashVal([0x01; 32]));
    match w.serialize(Mode::Text) {
        Emitted::Text(s) => {
            let back = SerializeAsString::<HashVal>::deserialize(Emitted::Text(s), Mode::Text)
                .unwrap();
            assert_eq!(back.0, HashVal([0x01; 32]));
        }
        Emitted::Native(_) => panic!("text mode must produce the string form"),
    }
}

#[test]
fn hexbytes_to_bytes_crate() {
    let wrapped = HexBytesInner::from_slice(&[7, 8, 9]);
    let shared = wrapped.into_bytes();
    assert_eq!(shared, bytes::Bytes::from(vec![7u8, 8, 9]));
}
