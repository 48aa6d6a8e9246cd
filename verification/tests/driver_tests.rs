use std::time::Duration;

use loadgen_rs::driver::{
    Connection, ConnectionFactory, ConnectFallback, RequestConfig, RequestError, TcpAttempt, TlsInfo,
    format_rustls_cipher, format_rustls_protocol, parse_uri, plan_target, select_addresses,
};
use loadgen_rs::driver::IpVersion;
use loadgen_rs::h2::{H2BodyProgress, checked_h2_request_size, classify_h2_error, estimate_h2_request_size};
use loadgen_rs::h3::{
    H3BodyProgress, checked_h3_request_size, classify_quic_error, estimate_h3_request_size, plan_quic_target, quic_tls_info,
};
use loadgen_rs::metrics::{AddrFamily, ErrorClass};

fn config(body: Option<&str>, pq: Option<&str>) -> RequestConfig {
    RequestConfig {
        url: "https://example.test/abc".to_string(),
        method: "GET".to_string(),
        path_query: pq.map(|s| s.to_string()),
        headers: vec![(b"x-a".to_vec(), b"12".to_vec())],
        body: body.map(|b| b.as_bytes().to_vec()),
        request_timeout: Duration::from_secs(1),
        tail_friendly: false,
    }
}

#[test]
fn request_error_constructors_and_text() {
    let e = RequestError::connect("no route".to_string());
    assert_eq!(e.class, ErrorClass::Connect);
    assert_eq!(e.describe(), "Connect: no route");
    assert_eq!(RequestError::tls("x".to_string()).class, ErrorClass::Tls);
    assert_eq!(RequestError::timeout("x".to_string()).describe(), "Timeout: x");
    assert_eq!(RequestError::http("x".to_string()).class, ErrorClass::Http);
}

#[test]
fn tls_info_and_labels() {
    let empty = TlsInfo { protocol: None, cipher: None };
    assert!(empty.is_empty());
    assert!(Connection::H2.tls_info(&empty).is_none());
    let known = TlsInfo { protocol: Some("TLSv1.3".to_string()), cipher: None };
    assert!(!known.is_empty());
    assert!(Connection::H1Raw.tls_info(&known).is_some());
    assert_eq!(format_rustls_protocol("TLSv1_3"), "TLSv1.3");
    assert_eq!(format_rustls_protocol("TLSv1_2"), "TLSv1.2");
    assert_eq!(format_rustls_protocol("TLSv1_0"), "TLSv1_0");
    assert_eq!(format_rustls_cipher("TLS13_AES_128_GCM_SHA256"), "TLS_AES_128_GCM_SHA256");
    assert_eq!(format_rustls_cipher("TLS_ECDHE_RSA_WITH_AES_128_GCM_SHA256"), "TLS_ECDHE_RSA_WITH_AES_128_GCM_SHA256");
    let q = quic_tls_info();
    assert_eq!(q.protocol.as_deref(), Some("TLSv1.3"));
    assert!(q.cipher.is_none());
}

#[test]
fn connection_kinds() {
    assert!(!ConnectionFactory::H1Raw.supports_multiplexed_lanes());
    assert!(ConnectionFactory::H2.supports_multiplexed_lanes());
    assert!(ConnectionFactory::H3.supports_multiplexed_lanes());
    assert_eq!(Connection::H1Raw.clone_stream_handle(), None);
    assert_eq!(Connection::H2.clone_stream_handle(), Some(Connection::H2));
    assert_eq!(Connection::H3.clone_stream_handle(), Some(Connection::H3));
}

#[test]
fn targets() {
    let u = parse_uri("http://example.test/a?b=1").unwrap();
    let t = plan_target(&u, "http").unwrap();
    assert_eq!(t.host, "example.test");
    assert_eq!(t.port, 80);
    assert_eq!(t.authority, "example.test");
    assert_eq!(t.path_query, "/a?b=1");
    assert!(!t.use_tls);
    let s = parse_uri("HTTPS://example.test:8443").unwrap();
    let t = plan_target(&s, "http").unwrap();
    assert_eq!(t.port, 8443);
    assert!(t.use_tls);
    let rel = parse_uri("/only/path").unwrap();
    let e = plan_target(&rel, "https").unwrap_err();
    assert_eq!(e.message, "URL has no host");
    let (host, port) = plan_quic_target(&parse_uri("https://q.test/").unwrap()).unwrap();
    assert_eq!(host, "q.test");
    assert_eq!(port, 443);
    assert!(parse_uri("http://[::1").is_err());
}

#[test]
fn address_selection() {
    let addrs = vec![(AddrFamily::V6, "a6"), (AddrFamily::V4, "a4"), (AddrFamily::V4, "b4")];
    assert_eq!(select_addresses(addrs.clone(), None).unwrap(), vec!["a6", "a4", "b4"]);
    assert_eq!(select_addresses(addrs.clone(), Some(IpVersion::V4)).unwrap(), vec!["a4", "b4"]);
    let only4 = vec![(AddrFamily::V4, 1u8)];
    let e = select_addresses(only4, Some(IpVersion::V6)).unwrap_err();
    assert_eq!(e.message, "DNS resolution returned no IPv6 addresses");
    let none: Vec<(AddrFamily, u8)> = vec![];
    assert_eq!(select_addresses(none, None).unwrap_err().message, "DNS resolution returned no addresses");
}

#[test]
fn connect_fallback() {
    let mut f = ConnectFallback::new();
    assert!(f.on_tcp_attempt(TcpAttempt::BindFailed(RequestError::connect("bind".into()))).is_none());
    assert!(f.on_tcp_attempt(TcpAttempt::TimedOut("10.0.0.1:80".into())).is_none());
    let last = f.finish();
    assert_eq!(last.class, ErrorClass::Timeout);
    assert_eq!(last.message, "TCP connect to 10.0.0.1:80 timed out");
    let empty = ConnectFallback::new().finish();
    assert_eq!(empty.message, "No resolved addresses to connect");
    let mut g = ConnectFallback::new();
    assert!(matches!(g.on_tcp_attempt(TcpAttempt::SocketFailed(RequestError::http("s".into()))), Some(Err(_))));
    assert!(matches!(g.on_tcp_attempt(TcpAttempt::Connected), Some(Ok(()))));
    let mut q = ConnectFallback::new();
    assert!(q.on_quic_attempt(Err(RequestError::timeout("t".into()))).is_none());
    assert!(matches!(q.on_quic_attempt(Err(RequestError::tls("cert".into()))), Some(Err(_))));
}

#[test]
fn h2_and_quic_errors() {
    assert_eq!(classify_h2_error("TLS handshake".into()).class, ErrorClass::Tls);
    assert_eq!(classify_h2_error("operation Timeout".into()).class, ErrorClass::Timeout);
    assert_eq!(classify_h2_error("connection refused".into()).class, ErrorClass::Connect);
    assert_eq!(classify_h2_error("stream reset".into()).class, ErrorClass::Http);
    assert_eq!(classify_quic_error("tls handshake failed".into()).class, ErrorClass::Tls);
    assert_eq!(classify_quic_error("TLS handshake failed".into()).class, ErrorClass::Connect);
    assert_eq!(loadgen_rs::h2::classify_io_error(loadgen_rs::driver::IoErrorKind::Other, "ssl".into()).class, ErrorClass::Http);
}

#[test]
fn request_size_estimates() {
    // 9 + "GET" + "/abc" + ("x-a" + "12" + 2) + 9 + "hello"
    assert_eq!(estimate_h2_request_size(&config(Some("hello"), Some("/abc"))), 9 + 3 + 4 + 7 + 9 + 5);
    assert_eq!(estimate_h2_request_size(&config(None, None)), 9 + 3 + 1 + 7);
    // 20 + "GET" + "/abc" + 7 + "hello"
    assert_eq!(estimate_h3_request_size(&config(Some("hello"), Some("/abc"))), 20 + 3 + 4 + 7 + 5);
    assert_eq!(checked_h2_request_size(&config(Some("hello"), Some("/abc"))), Some(9 + 3 + 4 + 7 + 9 + 5));
    assert_eq!(checked_h3_request_size(&config(None, None)), Some(20 + 3 + 1 + 7));
}

#[test]
fn body_progress() {
    let mut p = H2BodyProgress::new();
    assert_eq!(p.on_data(400 * 1024), None);
    assert_eq!(p.on_data(200 * 1024), Some(600 * 1024));
    assert_eq!(p.on_data(10), None);
    assert_eq!(p.finish(), Some(10));
    assert_eq!(p.finish(), None);
    assert_eq!(p.bytes_in, 600 * 1024 + 10);
    let mut h = H3BodyProgress::new(100);
    h.on_chunk(5, 150);
    h.on_chunk(5, 170);
    assert_eq!(h.ttfb_us, 150);
    assert_eq!(h.bytes_in, 10);
}
