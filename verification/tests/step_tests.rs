use loadgen_rs::step::{
    HttpVersion, StepRedirectPolicy, StepRequest, StepResponse, capture_body_text, check_step,
    collect_response_headers, default_cookie_jar, default_response_body_limit, default_response_headers,
    checked_estimate_bytes_out, estimate_bytes_out, map_http_version, method_of, redirect_count, redirect_error, redirect_limit,
    redirect_refused, send_error_code, step_policy, step_uses_cookies, validate_method, validate_step_request,
};

fn request(name: &str, url: &str, method: Option<&str>, body: Option<&str>, headers: Vec<(&str, &str)>) -> StepRequest {
    StepRequest {
        name: name.to_string(),
        method: method.map(|m| m.to_string()),
        url: url.to_string(),
        headers: headers.into_iter().map(|(n, v)| (n.to_string(), v.to_string())).collect(),
        body: body.map(|b| b.to_string()),
        redirect_policy: None,
        capture_body: None,
        use_cookies: None,
    }
}

#[test]
fn session_defaults() {
    assert!(default_cookie_jar());
    assert_eq!(default_response_body_limit(), 65536);
    assert!(default_response_headers());
    assert_eq!(StepRedirectPolicy::default(), StepRedirectPolicy::Follow);
    assert_eq!(redirect_limit(StepRedirectPolicy::Follow), Some(10));
    assert_eq!(redirect_limit(StepRedirectPolicy::Manual), None);
    assert_eq!(step_policy(None, StepRedirectPolicy::Error), StepRedirectPolicy::Error);
    assert_eq!(step_policy(Some(StepRedirectPolicy::Manual), StepRedirectPolicy::Error), StepRedirectPolicy::Manual);
    assert!(!step_uses_cookies(Some(false), true));
    assert!(step_uses_cookies(None, true));
}

#[test]
fn step_requests_need_name_and_url() {
    assert!(validate_step_request(&request("a", "http://x", None, None, vec![])).is_ok());
    assert_eq!(
        validate_step_request(&request("  ", "http://x", None, None, vec![])).unwrap_err(),
        "step_request.name must not be empty"
    );
    assert_eq!(
        validate_step_request(&request("a", " ", None, None, vec![])).unwrap_err(),
        "step_request.url must not be empty"
    );
    assert_eq!(method_of(&request("a", "u", None, Some("b"), vec![])), "POST");
    assert_eq!(method_of(&request("a", "u", None, None, vec![])), "GET");
    assert_eq!(method_of(&request("a", "u", Some("PUT"), None, vec![])), "PUT");
}

#[test]
fn checks_before_sending() {
    let ok = request("a", "https://example.test/p", None, None, vec![("x-a", "1")]);
    assert!(check_step("GET", &ok, true).is_ok());
    let e = check_step("GE T", &ok, false).unwrap_err();
    assert_eq!(e.code, "invalid_method");
    assert!(e.message.starts_with("invalid HTTP method 'GE T': "));
    let bad_url = request("a", "not a url", None, None, vec![]);
    let e = check_step("GET", &bad_url, false).unwrap_err();
    assert_eq!(e.code, "invalid_url");
    assert!(e.message.starts_with("invalid URL 'not a url': "));
    let plain = request("a", "http://example.test/", None, None, vec![]);
    let e = check_step("GET", &plain, true).unwrap_err();
    assert_eq!(e.message, "step session protocol 'h3' requires an https URL, got 'http://example.test/'");
    let bad_header = request("a", "http://example.test/", None, None, vec![("ok", "1"), ("bad name", "1")]);
    let e = check_step("GET", &bad_header, false).unwrap_err();
    assert_eq!(e.code, "invalid_header_name");
    assert_eq!(e.message, "invalid header name 'bad name': invalid HTTP header name");
    let bad_value = request("a", "http://example.test/", None, None, vec![("x", "a\u{7f}")]);
    let e = check_step("GET", &bad_value, false).unwrap_err();
    assert_eq!(e.code, "invalid_header_value");
    assert_eq!(e.message, "invalid value for header 'x': failed to parse header value");
}

#[test]
fn bytes_out_estimates() {
    let hs = vec![("a".to_string(), "bc".to_string())];
    // "GET" + 1 + "/p?q=1" + 10 + ("a" + "bc" + 4) + "body"
    assert_eq!(estimate_bytes_out("GET", "http://h/p?q=1", &hs, Some("body")), 3 + 1 + 6 + 10 + 7 + 4);
    // An unparseable URL counts as a whole.
    assert_eq!(estimate_bytes_out("GET", "zz", &[], None), 3 + 1 + 2 + 10);
    assert_eq!(checked_estimate_bytes_out("GET", "http://h/p?q=1", &hs, Some("body")), Some(31));
    // The URL parser normalises: an empty path is sent as "/".
    assert_eq!(checked_estimate_bytes_out("POST", "http://h", &[], None), Some(4 + 1 + 1 + 10));
}

#[test]
fn body_capture() {
    assert_eq!(capture_body_text(b"hello", 0), (Some(String::new()), true));
    assert_eq!(capture_body_text(b"", 0), (Some(String::new()), false));
    assert_eq!(capture_body_text(b"hello", 10), (Some("hello".to_string()), false));
    assert_eq!(capture_body_text(b"hello", 3), (Some("hel".to_string()), true));
    assert_eq!(capture_body_text(&[0x68, 0xff], 10), (Some("h\u{fffd}".to_string()), false));
}

#[test]
fn after_sending() {
    assert!(redirect_refused(StepRedirectPolicy::Error, 302, true));
    assert!(!redirect_refused(StepRedirectPolicy::Error, 302, false));
    assert!(!redirect_refused(StepRedirectPolicy::Follow, 302, true));
    assert!(!redirect_refused(StepRedirectPolicy::Error, 200, true));
    let e = redirect_error(301);
    assert_eq!(e.code, "redirect_not_allowed");
    assert_eq!(e.message, "received redirect status 301 while redirect policy is 'error'");
    assert_eq!(send_error_code(true, true, false, false), "timeout");
    assert_eq!(send_error_code(false, true, true, false), "connect");
    assert_eq!(send_error_code(false, false, false, false), "http");
    assert_eq!(map_http_version(HttpVersion::Http11), "http/1.1");
    assert_eq!(map_http_version(HttpVersion::H2), "h2");
    assert_eq!(redirect_count("http://a/", "http://a/"), 0);
    assert_eq!(redirect_count("http://a/", "http://b/"), 1);
    let joined = collect_response_headers(&[
        ("set-cookie".to_string(), "a=1".to_string()),
        ("content-type".to_string(), "text/plain".to_string()),
        ("set-cookie".to_string(), "b=2".to_string()),
    ]);
    assert_eq!(joined, vec![
        ("set-cookie".to_string(), "a=1, b=2".to_string()),
        ("content-type".to_string(), "text/plain".to_string()),
    ]);
}

#[test]
fn error_responses() {
    let r = StepResponse::error("login", "http://x/", "timeout", "too slow".to_string());
    assert!(!r.ok);
    assert_eq!(r.url_final.as_deref(), Some("http://x/"));
    assert_eq!(r.step_name, "login");
    let e = r.error.unwrap();
    assert_eq!(e.code, "timeout");
    assert_eq!(e.message, "too slow");
    assert_eq!(r.bytes_in, 0);
    assert!(r.status.is_none());
}

#[test]
fn methods_are_checked() {
    assert!(validate_method("GET").is_ok());
    assert!(validate_method("PURGE").is_ok());
    assert_eq!(validate_method("BAD METHOD").unwrap_err(), "invalid HTTP method");
    assert_eq!(validate_method("").unwrap_err(), "invalid HTTP method");
}
