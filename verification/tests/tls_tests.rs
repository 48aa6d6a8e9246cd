use loadgen_rs::cli::Protocol;
use loadgen_rs::tls::{alpn_protocols, is_ca_extension, parse_cipher_suites};

fn names() -> Vec<String> {
    vec![
        "TLS13_AES_256_GCM_SHA384".to_string(),
        "TLS13_AES_128_GCM_SHA256".to_string(),
        "TLS_ECDHE_RSA_WITH_AES_128_GCM_SHA256".to_string(),
    ]
}

#[test]
fn cipher_lists() {
    assert_eq!(parse_cipher_suites("AES_128_GCM", &names(), Protocol::H1).unwrap(), vec![1]);
    assert_eq!(parse_cipher_suites(" ECDHE_RSA , TLS13_AES_256", &names(), Protocol::H2).unwrap(), vec![2, 0]);
    assert_eq!(parse_cipher_suites("", &names(), Protocol::H1).unwrap(), vec![0]);
    assert_eq!(
        parse_cipher_suites("AES_128,NOPE", &names(), Protocol::H1).unwrap_err(),
        "Unknown cipher suite: NOPE"
    );
    assert_eq!(
        parse_cipher_suites("ECDHE", &names(), Protocol::H3).unwrap_err(),
        "Cipher suite TLS_ECDHE_RSA_WITH_AES_128_GCM_SHA256 is not valid for HTTP/3 (requires TLS 1.3)"
    );
    assert_eq!(parse_cipher_suites("TLS13_AES_128", &names(), Protocol::H3).unwrap(), vec![1]);
    assert_eq!(parse_cipher_suites("x", &[], Protocol::H1).unwrap_err(), "Unknown cipher suite: x");
}

#[test]
fn ca_files_and_alpn() {
    assert!(is_ca_extension("pem"));
    assert!(is_ca_extension("CRT"));
    assert!(is_ca_extension("Cer"));
    assert!(!is_ca_extension("der"));
    assert!(alpn_protocols(Protocol::H1).is_empty());
    assert_eq!(alpn_protocols(Protocol::H2), vec![b"h2".to_vec()]);
    assert_eq!(alpn_protocols(Protocol::H3), vec![b"h3".to_vec()]);
}
