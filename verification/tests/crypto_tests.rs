use stdcode::{
    bitwise_majority, ed25519_keygen, hash_keyed, hash_single, majority_beacon, CodecError,
    Ed25519PK, Ed25519SK, HashVal, Hashable,
};

#[test]
fn keygen_sign_verify() {
    let (pk, sk) = ed25519_keygen();
    let msg: Vec<u8> = vec![3];
    let sig = sk.sign(&msg);
    assert_eq!(sig.len(), 64);
    assert!(pk.verify(&msg, &sig));
    assert!(!pk.verify(&[4], &sig));
    assert!(!pk.verify(&msg, &sig[..10]));
}

#[test]
fn keygen_public_half() {
    let (pk, sk) = ed25519_keygen();
    assert_eq!(sk.to_public(), pk);
    assert_eq!(&sk.0[32..], &pk.0[..]);
}

#[test]
fn secret_key_bytes_and_hex() {
    let sk = Ed25519SK::generate();
    let back = Ed25519SK::from_bytes(&sk.0).unwrap();
    assert_eq!(back, sk);
    assert!(Ed25519SK::from_bytes(&sk.0[..63]).is_none());
    let hexed = sk.to_hex();
    assert_eq!(hexed.len(), 128);
    assert_eq!(Ed25519SK::from_hex(&hexed).unwrap(), sk);
}

#[test]
fn public_key_bytes_and_hex() {
    let (pk, _) = ed25519_keygen();
    assert_eq!(Ed25519PK::from_bytes(&pk.0).unwrap(), pk);
    assert!(Ed25519PK::from_bytes(&pk.0[..31]).is_none());
    let hexed = pk.to_hex();
    assert_eq!(Ed25519PK::from_hex(&hexed).unwrap(), pk);
}

#[test]
fn hash_matches_blake3() {
    let h = hash_single(b"abc");
    assert_eq!(&h.0, blake3::hash(b"abc").as_bytes());
    let hk = hash_keyed(b"key", b"value");
    let outer = blake3::keyed_hash(blake3::hash(b"key").as_bytes(), b"value");
    assert_eq!(&hk.0, outer.as_bytes());
}

#[test]
fn hashable_trait_agrees() {
    let data: Vec<u8> = vec![1, 2, 3];
    assert_eq!(data.hash(), hash_single(&data));
    assert_eq!(data.hash_keyed(b"k"), hash_keyed(b"k", &data));
}

#[test]
fn address_round_trip() {
    let h = hash_single(b"hello world");
    let addr = h.to_addr();
    assert!(addr.starts_with('t'));
    assert_eq!(addr, addr.to_lowercase());
    assert_eq!(HashVal::from_addr(&addr), Some(h));
    // Dashes are ignored on the way back in.
    let dashed = format!("{}-{}", &addr[..4], &addr[4..]);
    assert_eq!(HashVal::from_addr(&dashed), Some(h));
    assert_eq!(HashVal::from_addr("t0"), None);
}

#[test]
fn address_matches_reference_formula() {
    let h = hash_single(b"some value");
    let keyed = blake3::keyed_hash(blake3::hash(b"address-checksum").as_bytes(), &h.0);
    let checksum = keyed.as_bytes()[0] % 10;
    let raw = base32::encode(base32::Alphabet::Crockford, &h.0);
    let expected = format!("T{}{}", checksum, raw).to_ascii_lowercase();
    assert_eq!(h.to_addr(), expected);
}

#[test]
fn majority_beacon_per_bit() {
    // Each result bit is the strict majority of that bit across the members.
    assert_eq!(bitwise_majority(&[0xFF, 0xFF]), 0xFF);
    assert_eq!(bitwise_majority(&[0x02, 0x02, 0x02]), 0x02);
    assert_eq!(bitwise_majority(&[0x01, 0x00, 0x01]), 0x01);
    assert_eq!(bitwise_majority(&[0xF0, 0x0F, 0x3C]), 0x3C);
    // A tie is not a majority, and no members means no majority.
    assert_eq!(bitwise_majority(&[0x01, 0x00]), 0x00);
    assert_eq!(bitwise_majority(&[]), 0x00);

    let elems = vec![HashVal([0xFF; 32]), HashVal([0x01; 32]), HashVal([0x00; 32])];
    assert_eq!(majority_beacon(&elems), HashVal([0x01; 32]));
    let elems2 = vec![HashVal([0xFF; 32]), HashVal([0xFF; 32]), HashVal([0x00; 32])];
    assert_eq!(majority_beacon(&elems2), HashVal([0xFF; 32]));
}

#[test]
fn random_hashes_differ() {
    let a = HashVal::random();
    let b = HashVal::random();
    assert_ne!(a, b);
}

#[test]
fn bad_addresses_rejected() {
    // Junk that is not Crockford base32 after the two-character prefix.
    assert_eq!(HashVal::from_addr("t0!!!!!!!!!!"), None);
    // Valid base32 that denotes fewer than 32 bytes.
    assert_eq!(HashVal::from_addr("t0abcdefgh"), None);
    // Key-reading errors keep their kinds apart.
    assert_eq!(
        stdcode::Ed25519SK::from_hex("zz"),
        Err(CodecError::InvalidHex)
    );
    assert_eq!(
        stdcode::Ed25519SK::from_hex("abcd"),
        Err(CodecError::ParseError)
    );
}
