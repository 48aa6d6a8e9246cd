use std::time::Duration;

use loadgen_rs::cli::{
    AlpnProtocol, Protocol, duration_panic_message, parse_duration, parse_duration_parts, parse_metrics_sample, parsed_headers,
    select_protocol,
};

#[test]
fn test_parse_duration() {
    assert_eq!(parse_duration("10s").unwrap(), Duration::from_secs(10));
    assert_eq!(parse_duration("500ms").unwrap(), Duration::from_millis(500));
    assert_eq!(parse_duration("1m").unwrap(), Duration::from_secs(60));
    assert_eq!(parse_duration("30").unwrap(), Duration::from_secs(30));
    assert_eq!(parse_duration("1.5s").unwrap(), Duration::from_millis(1500));
}

#[test]
fn test_protocol_detection() {
    // Default, --h1, --alpn-list h2, --alpn h2, --alpn-list h3, and --h1 overriding --alpn-list.
    assert_eq!(select_protocol(false, None), Protocol::H1);
    assert_eq!(select_protocol(true, None), Protocol::H1);
    assert_eq!(select_protocol(false, Some(AlpnProtocol::H2)), Protocol::H2);
    assert_eq!(select_protocol(false, Some(AlpnProtocol::H3)), Protocol::H3);
    assert_eq!(select_protocol(true, Some(AlpnProtocol::H2)), Protocol::H1);
}

#[test]
fn parse_duration_trims_and_reads_fractions_of_minutes() {
    assert_eq!(parse_duration_parts("  2.5m ").unwrap(), (150, 0));
    assert_eq!(parse_duration_parts("0.000000001s").unwrap(), (0, 1));
    assert_eq!(parse_duration_parts("1234ms").unwrap(), (1, 234_000_000));
    assert_eq!(parse_duration_parts(".5").unwrap(), (0, 500_000_000));
    assert_eq!(parse_duration_parts("+3.").unwrap(), (3, 0));
    assert_eq!(parse_duration_parts("-0s").unwrap(), (0, 0));
}

#[test]
fn parse_duration_errors() {
    assert_eq!(parse_duration("").unwrap_err(), "Invalid duration: cannot parse float from empty string");
    assert_eq!(parse_duration("abc").unwrap_err(), "Invalid duration: invalid float literal");
    assert_eq!(parse_duration("1.2.3s").unwrap_err(), "Invalid duration: invalid float literal");
    assert_eq!(parse_duration("ms").unwrap_err(), "Invalid duration: cannot parse integer from empty string");
    assert_eq!(parse_duration("1.5ms").unwrap_err(), "Invalid duration: invalid digit found in string");
    assert_eq!(
        parse_duration("99999999999999999999ms").unwrap_err(),
        "Invalid duration: number too large to fit in target type"
    );
    assert_eq!(duration_panic_message("abc"), None);
    assert_eq!(duration_panic_message("10s"), None);
}

#[test]
fn duration_exponents() {
    assert_eq!(parse_duration("1e3s").unwrap(), Duration::from_secs(1000));
    assert_eq!(parse_duration("1.5e3").unwrap(), Duration::from_secs(1500));
    assert_eq!(parse_duration("2.5E-1s").unwrap(), Duration::from_millis(250));
    assert_eq!(parse_duration("1e1m").unwrap(), Duration::from_secs(600));
    assert_eq!(parse_duration("1.e2").unwrap(), Duration::from_secs(100));
    assert_eq!(parse_duration(".5e+1").unwrap(), Duration::from_secs(5));
    assert_eq!(parse_duration("1e-9").unwrap(), Duration::from_nanos(1));
    assert_eq!(parse_duration("0e999999999").unwrap(), Duration::ZERO);
    assert_eq!(parse_duration("1e-99999").unwrap(), Duration::ZERO);
    assert_eq!(parse_duration("1e").unwrap_err(), "Invalid duration: invalid float literal");
    assert_eq!(parse_duration("e5").unwrap_err(), "Invalid duration: invalid float literal");
    assert_eq!(parse_duration("1e+").unwrap_err(), "Invalid duration: invalid float literal");
    assert_eq!(parse_duration("1e2.5").unwrap_err(), "Invalid duration: invalid float literal");
    assert_eq!(
        duration_panic_message("1e99999999999999999999").as_deref(),
        Some("cannot convert float seconds to Duration: value is either too big or NaN")
    );
}

#[test]
fn duration_infinities() {
    let too_big = Some("cannot convert float seconds to Duration: value is either too big or NaN");
    let negative = Some("cannot convert float seconds to Duration: value is negative");
    assert_eq!(duration_panic_message("inf").as_deref(), too_big);
    assert_eq!(duration_panic_message("+Infinity").as_deref(), too_big);
    assert_eq!(duration_panic_message("NaN").as_deref(), too_big);
    assert_eq!(duration_panic_message("-nan").as_deref(), too_big);
    assert_eq!(duration_panic_message("-inf").as_deref(), negative);
    assert_eq!(duration_panic_message("infs").as_deref(), too_big);
    assert_eq!(duration_panic_message("-INFm").as_deref(), negative);
    assert_eq!(parse_duration("infinit").unwrap_err(), "Invalid duration: invalid float literal");
}

#[test]
fn durations_that_cannot_be_converted() {
    assert_eq!(
        duration_panic_message("-1s").as_deref(),
        Some("cannot convert float seconds to Duration: value is negative")
    );
    assert_eq!(
        duration_panic_message("99999999999999999999").as_deref(),
        Some("cannot convert float seconds to Duration: value is either too big or NaN")
    );
    assert_eq!(
        parse_duration_parts("-0.5m").unwrap_err(),
        "cannot convert float seconds to Duration: value is negative"
    );
    assert_eq!(duration_panic_message("-0s"), None);
    // As a float this rounds to 2^64 seconds.
    assert_eq!(
        duration_panic_message("18446744073709551615.5").as_deref(),
        Some("cannot convert float seconds to Duration: value is either too big or NaN")
    );
    assert_eq!(
        duration_panic_message("18446744073709550592").as_deref(),
        Some("cannot convert float seconds to Duration: value is either too big or NaN")
    );
    assert_eq!(duration_panic_message("18446744073709550591"), None);
}

#[test]
fn metrics_sample_values() {
    assert_eq!(parse_metrics_sample(" 10 ").unwrap(), 10);
    assert_eq!(parse_metrics_sample("0").unwrap_err(), "metrics sample must be >= 1");
    assert_eq!(
        parse_metrics_sample("x").unwrap_err(),
        "Invalid metrics sample value: invalid digit found in string"
    );
    assert_eq!(
        parse_metrics_sample("4294967296").unwrap_err(),
        "Invalid metrics sample value: number too large to fit in target type"
    );
}

#[test]
fn command_line_headers() {
    let hs = parsed_headers(&["X-Test: yes".to_string(), "Accept:  text/plain ".to_string()]).unwrap();
    assert_eq!(hs, vec![
        (b"x-test".to_vec(), b"yes".to_vec()),
        (b"accept".to_vec(), b"text/plain".to_vec()),
    ]);
    assert_eq!(
        parsed_headers(&["NoColon".to_string()]).unwrap_err(),
        "Invalid header format: NoColon. Expected 'Name: Value'"
    );
    assert_eq!(
        parsed_headers(&["Bad Name: v".to_string()]).unwrap_err(),
        "Invalid header name 'Bad Name': invalid HTTP header name"
    );
    assert_eq!(
        parsed_headers(&["X-A: bad\u{1}value".to_string()]).unwrap_err(),
        "Invalid header value for 'x-a': failed to parse header value"
    );
}

#[test]
fn protocol_names() {
    assert_eq!(Protocol::H1.name(), "h1");
    assert_eq!(Protocol::H2.name(), "h2");
    assert_eq!(Protocol::H3.name(), "h3");
}

#[test]
fn durations_round_to_the_nearest_nanosecond() {
    assert_eq!(parse_duration_parts("0.9999999999s").unwrap(), (1, 0));
    assert_eq!(parse_duration_parts("0.0000000001m").unwrap(), (0, 6));
    assert_eq!(parse_duration_parts("0.0000000014s").unwrap(), (0, 1));
    assert_eq!(parse_duration_parts("0.0000000016").unwrap(), (0, 2));
    assert_eq!(parse_duration_parts("1.23456789012s").unwrap(), (1, 234_567_890));
    assert_eq!(parse_duration_parts("0.01666666666666m").unwrap(), (1, 0));
    assert_eq!(parse_duration_parts("0.0166666666m").unwrap(), (0, 999_999_996));
    assert_eq!(parse_duration("2.9999999996m").unwrap(), Duration::new(179, 999_999_976));
    assert_eq!(parse_duration("4.2e-7").unwrap(), Duration::from_nanos(420));
}
