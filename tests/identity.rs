use dstack_mesh::{
    app_id_matches, client_identity_pem, decode_octet_string, is_hex_id, verify_response_security,
    ProxyError, TargetInfo,
};

#[test]
fn presented_id_is_compared_as_hex_without_case() {
    assert!(app_id_matches(&[0xab, 0xc1, 0x23], "abc123"));
    assert!(app_id_matches(&[0xab, 0xc1, 0x23], "ABC123"));
    assert!(!app_id_matches(&[0xab, 0xc1, 0x23], "abc124"));
    assert!(!app_id_matches(&[0xab, 0xc1, 0x23], "inst9"));
    assert!(app_id_matches(&[], ""));
}

#[test]
fn missing_or_unreadable_certificate_is_bad_gateway() {
    let t = TargetInfo { app_id: "abc123".to_string(), instance_id: String::new(), port: 443 };
    assert_eq!(verify_response_security(&None, &t), Err(ProxyError::BadGateway));
    assert_eq!(verify_response_security(&Some(vec![0x30, 0x03, 0x02, 0x01, 0x01]), &t), Err(ProxyError::BadGateway));
    assert_eq!(verify_response_security(&Some(vec![]), &t), Err(ProxyError::BadGateway));
    // An encoded id that is not inside a certificate is not accepted.
    assert_eq!(verify_response_security(&Some(vec![0x04, 0x03, 0xab, 0xc1, 0x23]), &t), Err(ProxyError::BadGateway));
}

#[test]
fn octet_string_decoding() {
    assert_eq!(decode_octet_string(&[0x04, 0x03, 1, 2, 3]), Some(vec![1, 2, 3]));
    assert_eq!(decode_octet_string(&[0x04, 0x00]), Some(vec![]));
    assert_eq!(decode_octet_string(&[0x04, 0x03, 1, 2]), None);
    assert_eq!(decode_octet_string(&[0x04, 0x02, 1, 2, 3]), None);
    assert_eq!(decode_octet_string(&[0x05, 0x01, 1]), None);
    assert_eq!(decode_octet_string(&[0x04]), None);
    let mut long = vec![0x04, 0x81, 0x80];
    long.extend(std::iter::repeat(7u8).take(0x80));
    assert_eq!(decode_octet_string(&long), Some(vec![7u8; 0x80]));
    assert_eq!(decode_octet_string(&[0x04, 0x81, 0x01, 9]), None);
    let mut two = vec![0x04, 0x82, 0x01, 0x00];
    two.extend(std::iter::repeat(1u8).take(256));
    assert_eq!(decode_octet_string(&two).map(|v| v.len()), Some(256));
}

#[test]
fn hex_ids() {
    assert!(is_hex_id("0123456789abcdefABCDEF"));
    assert!(!is_hex_id("abc-123"));
    assert!(is_hex_id(""));
}

#[test]
fn identity_bundle() {
    assert_eq!(client_identity_pem("CERT", "KEY"), "CERT\nKEY");
}
