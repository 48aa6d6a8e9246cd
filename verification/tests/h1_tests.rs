use std::time::Duration;

use loadgen_rs::driver::{IoErrorKind, RequestConfig};
use loadgen_rs::h1::{
    BodyMode, ChunkPhase, ChunkProgress, ChunkedBody, LengthBody, ReadBuffer, UntilCloseBody, body_mode,
    build_request_head, classify_io_error, contains_chunked_token, find_crlf, find_headers_end,
    h1_bytes_out, head_eof_error, parse_chunk_size, parse_header_u64, parse_response_head,
    take_response_head,
};
use loadgen_rs::metrics::ErrorClass;

fn config(method: &str, headers: Vec<(&str, &str)>, body: Option<&str>) -> RequestConfig {
    RequestConfig {
        url: "http://example.test/x".to_string(),
        method: method.to_string(),
        path_query: Some("/x".to_string()),
        headers: headers.into_iter().map(|(n, v)| (n.as_bytes().to_vec(), v.as_bytes().to_vec())).collect(),
        body: body.map(|b| b.as_bytes().to_vec()),
        request_timeout: Duration::from_secs(30),
        tail_friendly: false,
    }
}

#[test]
fn request_head_adds_host_and_length() {
    let head = build_request_head(&config("POST", vec![("x-a", "1")], Some("hello")), "example.test:8080", "/x?y=1");
    assert_eq!(
        String::from_utf8(head).unwrap(),
        "POST /x?y=1 HTTP/1.1\r\nx-a: 1\r\nHost: example.test:8080\r\nContent-Length: 5\r\n\r\n"
    );
}

#[test]
fn request_head_keeps_given_host_and_length() {
    let head = build_request_head(
        &config("POST", vec![("host", "h"), ("CONTENT-LENGTH", "2")], Some("hi")),
        "ignored",
        "/",
    );
    assert_eq!(String::from_utf8(head).unwrap(), "POST / HTTP/1.1\r\nhost: h\r\nCONTENT-LENGTH: 2\r\n\r\n");
    let get = build_request_head(&config("GET", vec![], None), "a:80", "/");
    assert_eq!(String::from_utf8(get.clone()).unwrap(), "GET / HTTP/1.1\r\nHost: a:80\r\n\r\n");
    assert_eq!(h1_bytes_out(&get, 3), get.len() as u64 + 3);
}

#[test]
fn finding_line_ends() {
    assert_eq!(find_crlf(b"abc\r\ndef"), Some(3));
    assert_eq!(find_crlf(b"abc\n\r"), None);
    assert_eq!(find_headers_end(b"HTTP/1.1 200 OK\r\n\r\nbody"), Some(19));
    assert_eq!(find_headers_end(b"HTTP/1.1 200 OK\r\n"), None);
}

#[test]
fn chunked_token_in_any_case() {
    assert!(contains_chunked_token(b"gzip, Chunked"));
    assert!(contains_chunked_token(b"CHUNKED"));
    assert!(!contains_chunked_token(b"chunk"));
    assert!(!contains_chunked_token(b""));
}

#[test]
fn header_numbers() {
    assert_eq!(parse_header_u64(b" 42 "), Some(42));
    assert_eq!(parse_header_u64(b"4x"), None);
    assert_eq!(parse_header_u64(&[0xff, 0x31]), None);
}

#[test]
fn chunk_sizes() {
    assert_eq!(parse_chunk_size(b"1a").unwrap(), 26);
    assert_eq!(parse_chunk_size(b"FF;ext=1").unwrap(), 255);
    assert_eq!(parse_chunk_size(b" 0 ").unwrap(), 0);
    let e = parse_chunk_size(b"zz").unwrap_err();
    assert_eq!(e.class, ErrorClass::Http);
    assert_eq!(e.message, "Invalid chunk size: invalid digit found in string");
    let e = parse_chunk_size(b"").unwrap_err();
    assert_eq!(e.message, "Invalid chunk size: cannot parse integer from empty string");
    let e = parse_chunk_size(&[0xc3]).unwrap_err();
    assert!(e.message.starts_with("Invalid chunk size utf8: "));
}

#[test]
fn response_heads() {
    let h = parse_response_head(b"HTTP/1.1 200 OK\r\nContent-Length: 12\r\nTransfer-Encoding: gzip, chunked\r\n\r\n").unwrap();
    assert_eq!(h.status, 200);
    assert_eq!(h.content_length, Some(12));
    assert!(h.chunked);
    let h = parse_response_head(b"HTTP/1.1 204 No Content\r\ncontent-length: x\r\n\r\n").unwrap();
    assert_eq!(h.status, 204);
    assert_eq!(h.content_length, None);
    assert!(!h.chunked);
    let e = parse_response_head(b"HTTP/1.1 200 OK\r\n").unwrap_err();
    assert_eq!(e.message, "Incomplete response headers after delimiter");
    let e = parse_response_head(b"XTTP/1.1 200 OK\r\n\r\n").unwrap_err();
    assert_eq!(e.class, ErrorClass::Http);
    assert_eq!(e.message, "Failed to parse response headers: invalid HTTP version");
}

#[test]
fn body_modes() {
    let h = parse_response_head(b"HTTP/1.1 200 OK\r\nContent-Length: 3\r\nTransfer-Encoding: chunked\r\n\r\n").unwrap();
    assert!(body_mode(false, &h) == BodyMode::Length(3));
    assert!(body_mode(true, &h) == BodyMode::Empty);
    let c = parse_response_head(b"HTTP/1.1 200 OK\r\nTransfer-Encoding: chunked\r\n\r\n").unwrap();
    assert!(body_mode(false, &c) == BodyMode::Chunked);
    let n = parse_response_head(b"HTTP/1.1 304 Not Modified\r\n\r\n").unwrap();
    assert!(body_mode(false, &n) == BodyMode::Empty);
    let i = parse_response_head(b"HTTP/1.1 101 Switching\r\n\r\n").unwrap();
    assert!(body_mode(false, &i) == BodyMode::Empty);
    let u = parse_response_head(b"HTTP/1.1 200 OK\r\n\r\n").unwrap();
    assert!(body_mode(false, &u) == BodyMode::UntilClose);
}

#[test]
fn read_buffer_consumes_and_compacts() {
    let mut b = ReadBuffer::new();
    b.extend(b"HTTP/1.1 200 OK\r\nContent-Length: 5\r\n\r\nhello!");
    assert!(take_response_head(&mut b).unwrap().is_ok());
    assert_eq!(b.buffered(), b"hello!");
    b.consume(5);
    assert_eq!(b.buffered(), b"!");
    b.consume(1);
    assert_eq!(b.pending(), 0);
    let mut partial = ReadBuffer::new();
    partial.extend(b"HTTP/1.1 200 OK\r\n");
    assert!(take_response_head(&mut partial).is_none());
    assert_eq!(partial.pending(), 17);
}

#[test]
fn length_body_takes_buffer_then_reads() {
    let mut buf = ReadBuffer::new();
    buf.extend(b"abcXYZ");
    let mut body = LengthBody::new(10);
    body.take_buffered(&mut buf);
    assert_eq!(body.bytes_in, 6);
    assert_eq!(body.remaining, 4);
    assert_eq!(body.next_read_len(), 4);
    body.on_read(4).unwrap();
    assert!(body.is_done());
    assert_eq!(body.bytes_in, 10);
    let mut short = LengthBody::new(3);
    let e = short.on_read(0).unwrap_err();
    assert_eq!(e.class, ErrorClass::Connect);
    assert_eq!(e.message, "Connection closed while reading response body");
}

#[test]
fn until_close_body() {
    let mut buf = ReadBuffer::new();
    buf.extend(b"12345");
    let mut body = UntilCloseBody::start(&mut buf);
    assert_eq!(body.bytes_in, 5);
    assert_eq!(buf.pending(), 0);
    assert!(!body.on_read(7));
    assert!(body.on_read(0));
    assert_eq!(body.bytes_in, 12);
}

#[test]
fn chunked_body_decodes() {
    let mut buf = ReadBuffer::new();
    buf.extend(b"4\r\nWiki\r\n5;x=y\r\npedia\r\n0\r\nTrailer: t\r\n\r\n");
    let mut body = ChunkedBody::new();
    let mut steps = 0;
    loop {
        match body.step(&mut buf).unwrap() {
            ChunkProgress::Finished => break,
            ChunkProgress::Advanced => steps += 1,
            ChunkProgress::NeedMore => panic!("all data was there"),
        }
    }
    assert_eq!(body.bytes_in, 9);
    assert!(body.phase == ChunkPhase::Done);
    assert_eq!(buf.pending(), 0);
    assert!(steps >= 5);
}

#[test]
fn chunked_body_waits_and_fails() {
    let mut buf = ReadBuffer::new();
    buf.extend(b"5\r\nab");
    let mut body = ChunkedBody::new();
    assert!(body.step(&mut buf).unwrap() == ChunkProgress::Advanced);
    assert!(body.step(&mut buf).unwrap() == ChunkProgress::NeedMore);
    assert_eq!(body.eof_error().message, "Connection closed while reading chunked body");
    buf.extend(b"cdeXX");
    let e = body.step(&mut buf).unwrap_err();
    assert_eq!(e.message, "Invalid chunk terminator");
    let fresh = ChunkedBody::new();
    assert_eq!(fresh.eof_error().message, "Connection closed while reading chunked line");
    assert_eq!(head_eof_error().message, "Connection closed while reading response headers");
}

#[test]
fn io_errors_on_raw_connections() {
    assert_eq!(classify_io_error(IoErrorKind::ConnectionRefused, "refused".into()).class, ErrorClass::Connect);
    assert_eq!(classify_io_error(IoErrorKind::WouldBlock, "later".into()).class, ErrorClass::Timeout);
    assert_eq!(classify_io_error(IoErrorKind::Other, "bad TLS record".into()).class, ErrorClass::Tls);
    assert_eq!(classify_io_error(IoErrorKind::Other, "SSL alert".into()).class, ErrorClass::Tls);
    let e = classify_io_error(IoErrorKind::Other, "broken pipe".into());
    assert_eq!(e.class, ErrorClass::Http);
    assert_eq!(e.message, "broken pipe");
}
