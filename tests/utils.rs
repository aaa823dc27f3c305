use rust_proxy::utils::{base64_decode, base64_encode};

#[test]
fn base64_encodes_credentials() {
    assert_eq!(base64_encode(b"u:p"), "dTpw");
    assert_eq!(base64_encode(b""), "");
    assert_eq!(base64_encode(b"ab"), "YWI=");
}

#[test]
fn base64_decodes_credentials() {
    assert_eq!(base64_decode("dTpw").ok().unwrap(), b"u:p".to_vec());
    assert!(base64_decode("not base64!").is_err());
}

#[test]
fn base64_round_trip_of_authorization_payload() {
    let payload = "dXNlcjpwYXNzd29yZA==";
    let decoded = base64_decode(payload).ok().unwrap();
    assert_eq!(base64_encode(&decoded), payload);
}
