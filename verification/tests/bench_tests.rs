use loadgen_rs::bench::{
    BenchHeader, BenchProtocol, check_scheme, default_clients, default_max_streams, default_method,
    default_metrics_sample, default_requests, default_threads, forced_ip_version, is_loopback_host,
    likely_isolated_network, parse_headers, quickack_ignored, run_mode_of, validate_config,
};
use loadgen_rs::cli::Protocol;
use loadgen_rs::driver::IpVersion;

#[test]
fn defaults() {
    assert_eq!(default_method(), "GET");
    assert_eq!(default_requests(), 1);
    assert_eq!(default_clients(), 1);
    assert_eq!(default_threads(), 1);
    assert_eq!(default_max_streams(), 1);
    assert_eq!(default_metrics_sample(), 1);
    assert_eq!(BenchProtocol::default(), BenchProtocol::H1);
}

#[test]
fn bench_protocol_maps_to_protocol() {
    assert_eq!(Protocol::from(BenchProtocol::H1), Protocol::H1);
    assert_eq!(Protocol::from(BenchProtocol::H2), Protocol::H2);
    assert_eq!(Protocol::from(BenchProtocol::H3), Protocol::H3);
}

#[test]
fn validation_reports_the_first_problem() {
    assert!(validate_config(1, 1, 1, 1, false, false, false).is_ok());
    assert_eq!(validate_config(0, 0, 0, 0, true, true, true).unwrap_err(), "clients must be >= 1");
    assert_eq!(validate_config(1, 0, 0, 0, false, false, false).unwrap_err(), "threads must be >= 1");
    assert_eq!(validate_config(1, 1, 0, 1, false, false, false).unwrap_err(), "max_streams must be >= 1");
    assert_eq!(validate_config(1, 1, 1, 0, false, false, false).unwrap_err(), "metrics_sample must be >= 1");
    assert_eq!(validate_config(1, 1, 1, 1, true, true, true).unwrap_err(), "rps must be > 0");
    assert_eq!(validate_config(1, 1, 1, 1, false, true, true).unwrap_err(), "v4 and v6 cannot both be true");
}

#[test]
fn schemes() {
    assert!(check_scheme(Some("http")).is_ok());
    assert!(check_scheme(Some("https")).is_ok());
    assert_eq!(check_scheme(Some("ftp")).unwrap_err(), "Unsupported URL scheme: ftp");
    assert_eq!(check_scheme(Some("HTTP")).unwrap_err(), "Unsupported URL scheme: HTTP");
    assert_eq!(check_scheme(None).unwrap_err(), "URL must have a scheme (http:// or https://)");
}

#[test]
fn ip_version_and_mode() {
    assert_eq!(forced_ip_version(true, false), Some(IpVersion::V4));
    assert_eq!(forced_ip_version(false, true), Some(IpVersion::V6));
    assert_eq!(forced_ip_version(false, false), None);
    let (n, mode) = run_mode_of(true, 7);
    assert_eq!(n, u64::MAX);
    assert_eq!(mode, "duration");
    let (n, mode) = run_mode_of(false, 7);
    assert_eq!(n, 7);
    assert_eq!(mode, "count");
}

#[test]
fn configured_headers() {
    let hs = parse_headers(&[
        BenchHeader { name: " Content-Type ".to_string(), value: " application/json ".to_string() },
        BenchHeader { name: "X-Id".to_string(), value: "7".to_string() },
    ])
    .unwrap();
    assert_eq!(hs, vec![
        (b"content-type".to_vec(), b"application/json".to_vec()),
        (b"x-id".to_vec(), b"7".to_vec()),
    ]);
    let err = parse_headers(&[
        BenchHeader { name: "ok".to_string(), value: "v".to_string() },
        BenchHeader { name: "bad name".to_string(), value: "v".to_string() },
    ])
    .unwrap_err();
    assert_eq!(err, "Invalid header name 'bad name': invalid HTTP header name");
}

#[test]
fn quickack_is_ignored_only_for_h3() {
    assert!(quickack_ignored(Protocol::H3, true));
    assert!(!quickack_ignored(Protocol::H3, false));
    assert!(!quickack_ignored(Protocol::H1, true));
    assert!(!quickack_ignored(Protocol::H2, true));
}

#[test]
fn loopback_hosts() {
    assert!(is_loopback_host("localhost"));
    assert!(is_loopback_host("127.0.0.1"));
    assert!(is_loopback_host("::1"));
    assert!(!is_loopback_host("127.0.0.2"));
    assert!(!is_loopback_host("example.com"));
    assert!(!is_loopback_host("LOCALHOST"));
}

#[test]
fn isolated_network_counts_interfaces_besides_loopback() {
    let names = |v: &[&str]| v.iter().map(|s| s.to_string()).collect::<Vec<_>>();
    assert!(likely_isolated_network(&names(&[])));
    assert!(likely_isolated_network(&names(&["lo", "eth0"])));
    assert!(likely_isolated_network(&names(&["lo", "lo"])));
    assert!(!likely_isolated_network(&names(&["lo", "eth0", "docker0"])));
    assert!(!likely_isolated_network(&names(&["eth0", "wlan0"])));
}
