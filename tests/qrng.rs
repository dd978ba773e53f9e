use q_explore::qrng::{
    available_backends, decode_hex_data, draws_from_bytes, get_backend, get_backend_with_key,
    words_from_le_bytes, AnuBackend, AnuTier, Backend, PseudoBackend,
};

#[test]
fn test_anu_backend_creation() {
    let backend = AnuBackend::new();
    assert_eq!(backend.name(), "anu");
    assert!(backend.api_key.is_none());
}

#[test]
fn test_anu_backend_with_api_key() {
    let backend = AnuBackend::with_api_key("test_key");
    assert!(backend.api_key.is_some());
    assert_eq!(backend.api_key.as_deref(), Some("test_key"));
}

#[test]
fn test_anu_backend_description() {
    let backend = AnuBackend::new();
    assert!(backend.description().contains("Australian National University"));
}

#[test]
fn test_anu_tier_free() {
    let backend = AnuBackend::new();
    assert_eq!(backend.tier(), AnuTier::Free);

    // An empty key is the free tier too.
    let backend_empty = AnuBackend::with_api_key("");
    assert_eq!(backend_empty.tier(), AnuTier::Free);
}

#[test]
fn test_anu_tier_paid() {
    let backend = AnuBackend::with_api_key("my-api-key");
    assert_eq!(backend.tier(), AnuTier::Paid);
}

#[test]
fn test_pseudo_backend_bytes() {
    let backend = PseudoBackend::new();
    let bytes = backend.bytes(100).unwrap();
    assert_eq!(bytes.len(), 100);
    assert_eq!(backend.name(), "pseudo");
}

#[test]
fn pseudo_backend_bytes_are_not_all_zero() {
    let backend = PseudoBackend::new();
    let bytes = backend.bytes(4096).unwrap();
    assert!(bytes.iter().any(|b| *b != 0));
}

#[test]
fn draws_are_big_endian_words() {
    let draws = draws_from_bytes(&[0x12, 0x34, 0x56, 0x78, 0xff, 0x00, 0x00, 0x01, 0xaa]);
    assert_eq!(draws, vec![0x1234_5678, 0xff00_0001]);
}

#[test]
fn draws_from_short_input_are_empty() {
    assert!(draws_from_bytes(&[1, 2, 3]).is_empty());
    assert!(draws_from_bytes(&[]).is_empty());
}

#[test]
fn backends_are_listed() {
    let backends = available_backends();
    assert_eq!(backends.len(), 2);
    assert_eq!(backends[0].name, "pseudo");
    assert_eq!(backends[1].name, "anu");
    assert!(backends[1].description.contains("Australian National University"));
}

#[test]
fn backends_are_chosen_by_name() {
    assert!(matches!(get_backend("pseudo"), Backend::Pseudo(_)));
    assert!(matches!(get_backend("unknown"), Backend::Pseudo(_)));
    match get_backend("anu") {
        Backend::Anu(a) => assert!(a.api_key.is_none()),
        other => panic!("expected the ANU backend, got {:?}", other),
    }
    match get_backend_with_key("anu", Some("k")) {
        Backend::Anu(a) => assert_eq!(a.tier(), AnuTier::Paid),
        other => panic!("expected the ANU backend, got {:?}", other),
    }
    assert!(matches!(get_backend_with_key("pseudo", Some("k")), Backend::Pseudo(_)));
}

#[test]
fn anu_element_count_covers_request_up_to_limit() {
    assert_eq!(AnuBackend::element_count(0), 0);
    assert_eq!(AnuBackend::element_count(1), 1);
    assert_eq!(AnuBackend::element_count(20), 1);
    assert_eq!(AnuBackend::element_count(21), 2);
    assert_eq!(AnuBackend::element_count(20_480), 1024);
    assert_eq!(AnuBackend::element_count(25_000), 1024);
}

#[test]
fn anu_hex_data_decodes_pairs() {
    let data = vec!["b580BB5e".to_string(), "0d9".to_string(), "".to_string()];
    assert_eq!(decode_hex_data(&data).unwrap(), vec![0xb5, 0x80, 0xbb, 0x5e, 0x0d]);
    let bad = vec!["00".to_string(), "zz".to_string()];
    let e = decode_hex_data(&bad).unwrap_err();
    assert_eq!(e.error_code(), "QRNG_ERROR");
}

#[test]
fn words_are_little_endian() {
    let bytes = [1, 0, 0, 0, 0, 0, 0, 0x80, 0xff, 0xff, 0xff, 0xff, 0xff, 0xff, 0xff, 0xff, 7];
    assert_eq!(words_from_le_bytes(&bytes), vec![0x8000_0000_0000_0001, u64::MAX]);
}
