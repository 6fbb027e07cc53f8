use base64::Engine;
use ledger_core::hash::{DigestError, IHashEntity};

#[test]
fn byte_length_matches_input_length() {
    assert_eq!(IHashEntity::new(Vec::new()).byte_length, 0);
    assert_eq!(IHashEntity::new(vec![7u8]).byte_length, 1);
    assert_eq!(IHashEntity::new(vec![1u8, 2, 3]).byte_length, 3);
    assert_eq!(IHashEntity::new(vec![0u8; 1000]).byte_length, 1000);
}

#[test]
fn buffer_returns_equal_value() {
    let bytes = vec![0xdeu8, 0xad, 0xbe, 0xef];
    let entity = IHashEntity::new(bytes.clone());
    assert_eq!(entity.buffer(), bytes);
}

#[test]
fn buffer_is_an_independent_copy() {
    let bytes = vec![1u8, 2, 3];
    let entity = IHashEntity::new(bytes.clone());
    let mut copy = entity.buffer();
    copy[0] = 99;
    copy.push(4);
    assert_eq!(entity.buffer(), bytes);
    assert_eq!(entity.digest(Some("hex")), "010203");
}

#[test]
fn hex_digest_has_two_lowercase_digits_per_byte() {
    let bytes = vec![0x00u8, 0xff, 0x10, 0xab];
    let entity = IHashEntity::new(bytes);
    let hex = entity.digest(Some("hex"));
    assert_eq!(hex.len(), 2 * entity.byte_length as usize);
    assert!(hex.chars().all(|c| c.is_ascii_hexdigit() && !c.is_ascii_uppercase()));
    assert_eq!(hex, "00ff10ab");
}

#[test]
fn hex_is_the_default_encoding() {
    let entity = IHashEntity::new(vec![0x48u8, 0x59]);
    assert_eq!(entity.digest(None), entity.digest(Some("hex")));
    assert_eq!(entity.digest(None), "4859");
}

#[test]
fn base64_digest_round_trips() {
    let bytes = vec![0x48u8, 0x59, 0x20, 0x43, 0x48];
    let entity = IHashEntity::new(bytes.clone());
    let encoded = entity.digest(Some("base64"));
    assert_eq!(encoded, "SFkgQ0g=");
    let decoded = base64::engine::general_purpose::STANDARD
        .decode(&encoded)
        .expect("digest must be valid base64");
    assert_eq!(decoded, bytes);
}

#[test]
fn base64_round_trips_on_all_remainders() {
    for len in 0..9usize {
        let bytes: Vec<u8> = (0..len as u8).collect();
        let entity = IHashEntity::new(bytes.clone());
        let encoded = entity.digest(Some("base64"));
        let decoded = base64::engine::general_purpose::STANDARD
            .decode(&encoded)
            .expect("digest must be valid base64");
        assert_eq!(decoded, bytes);
    }
}

#[test]
fn unsupported_encoding_fails_and_returns_no_string() {
    let entity = IHashEntity::new(vec![1u8, 2, 3]);
    assert_eq!(
        entity.try_digest(Some("utf8")),
        Err(DigestError::UnsupportedEncoding)
    );
    assert_eq!(
        entity.try_digest(Some("")),
        Err(DigestError::UnsupportedEncoding)
    );
    assert_eq!(
        entity.try_digest(Some("HEX")),
        Err(DigestError::UnsupportedEncoding)
    );
    assert_eq!(
        entity.try_digest(Some("base-64")),
        Err(DigestError::UnsupportedEncoding)
    );
}

#[test]
fn try_digest_agrees_with_digest_on_supported_encodings() {
    let entity = IHashEntity::new(vec![0xaau8, 0xbb]);
    assert_eq!(entity.try_digest(None), Ok(entity.digest(None)));
    assert_eq!(entity.try_digest(Some("hex")), Ok("aabb".to_string()));
    assert_eq!(
        entity.try_digest(Some("base64")),
        Ok(entity.digest(Some("base64")))
    );
}

#[test]
fn known_bytes_scenario() {
    let entity = IHashEntity::new(vec![0x48u8, 0x59, 0x20, 0x43, 0x48]);
    assert_eq!(entity.digest(Some("hex")), "4859204348");
    assert_eq!(entity.byte_length, 5);
    assert_eq!(entity.bytes(), vec![72usize, 89, 32, 67, 72]);
}

#[test]
fn empty_bytes_scenario() {
    let entity = IHashEntity::new(Vec::new());
    assert_eq!(entity.digest(Some("hex")), "");
    assert_eq!(entity.digest(Some("base64")), "");
    assert_eq!(entity.byte_length, 0);
}

#[test]
fn debug_string_renders_length_and_hex_digest() {
    let entity = IHashEntity::new(vec![0x48u8, 0x59, 0x20, 0x43, 0x48]);
    assert_eq!(
        entity.debug_string(),
        "IHashEntity { byte_length: 5, digest: \"4859204348\" }"
    );
    let empty = IHashEntity::new(Vec::new());
    assert_eq!(empty.debug_string(), "IHashEntity { byte_length: 0, digest: \"\" }");
}
