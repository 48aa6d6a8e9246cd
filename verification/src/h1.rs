//! HTTP/1.1 on a raw byte stream: building the request head, finding and
//! reading the response head, choosing how the body is delimited, the read
//! buffer, and decoding a chunked body.

use vstd::prelude::*;
use vstd::utf8::{decode_utf8, encode_utf8, valid_utf8};
use crate::driver::{
    IoErrorKind, RequestConfig, RequestError, headers_view, io_kind_class, lower_contains,
    lower_contains_exec,
};
use crate::metrics::ErrorClass;
use crate::text::{
    IntErrorKind, ascii_lower, chars_of, eq_ignore_ascii_case, eq_ignore_ascii_case_at,
    eq_ignore_ascii_case_exec, int_error_message, int_error_text, parse_u64_spec, parse_uint,
    parse_uint_chars, push_str, string_from_str, trim, trim_bounds, dec_string, u64_to_dec,
    unicode_lowercase,
};

verus! {

// ---------------------------------------------------------------------------
// Finding line ends
// ---------------------------------------------------------------------------

/// `b` has CR LF at `i`.
pub open spec fn crlf_at(b: Seq<u8>, i: int) -> bool {
    0 <= i && i + 1 < b.len() && b[i] == 13 && b[i + 1] == 10
}

/// The first CR LF in `b` at or after `i`.
pub open spec fn crlf_from(b: Seq<u8>, i: int) -> Option<int>
    decreases b.len() - i,
{
    if i < 0 || i + 1 >= b.len() {
        None
    } else if crlf_at(b, i) {
        Some(i)
    } else {
        crlf_from(b, i + 1)
    }
}

/// `b` has CR LF CR LF at `i`.
pub open spec fn blank_line_at(b: Seq<u8>, i: int) -> bool {
    0 <= i && i + 3 < b.len() && b[i] == 13 && b[i + 1] == 10 && b[i + 2] == 13 && b[i + 3] == 10
}

/// The first CR LF CR LF in `b` at or after `i`.
pub open spec fn blank_line_from(b: Seq<u8>, i: int) -> Option<int>
    decreases b.len() - i,
{
    if i < 0 || i + 3 >= b.len() {
        None
    } else if blank_line_at(b, i) {
        Some(i)
    } else {
        blank_line_from(b, i + 1)
    }
}

/// The position of the first CR LF in `buf`.
pub fn find_crlf(buf: &[u8]) -> (r: Option<usize>)
    ensures
        match r {
            Some(p) => crlf_from(buf@, 0) == Some(p as int),
            None => crlf_from(buf@, 0) is None,
        },
{
    let n = buf.len();
    let mut i: usize = 0;
    while n >= 2 && i < n - 1
        invariant
            n == buf@.len(),
            i <= n,
            crlf_from(buf@, 0) == crlf_from(buf@, i as int),
        decreases n - i,
    {
        if buf[i] == 13 && buf[i + 1] == 10 {
            return Some(i);
        }
        i = i + 1;
    }
    None
}

/// The end of the response head in `buf`: the position just after the first
/// CR LF CR LF.
pub fn find_headers_end(buf: &[u8]) -> (r: Option<usize>)
    ensures
        match r {
            Some(p) => blank_line_from(buf@, 0) == Some(p - 4),
            None => blank_line_from(buf@, 0) is None,
        },
{
    let n = buf.len();
    let mut i: usize = 0;
    while n >= 4 && i < n - 3
        invariant
            n == buf@.len(),
            i <= n,
            blank_line_from(buf@, 0) == blank_line_from(buf@, i as int),
        decreases n - i,
    {
        if buf[i] == 13 && buf[i + 1] == 10 && buf[i + 2] == 13 && buf[i + 3] == 10 {
            return Some(i + 4);
        }
        i = i + 1;
    }
    None
}

// ---------------------------------------------------------------------------
// Header values
// ---------------------------------------------------------------------------

/// The bytes of `"chunked"`.
pub open spec fn chunked_token() -> Seq<u8> {
    seq![99u8, 104u8, 117u8, 110u8, 107u8, 101u8, 100u8]
}

/// `value` holds `chunked` somewhere, in any ASCII case.
pub open spec fn has_chunked_token(value: Seq<u8>) -> bool {
    exists|i: int|
        0 <= i && i + 7 <= value.len() && #[trigger] eq_ignore_ascii_case(
            value.subrange(i, i + 7),
            chunked_token(),
        )
}

fn chunked_token_vec() -> (v: Vec<u8>)
    ensures
        v@ == chunked_token(),
{
    let mut v: Vec<u8> = Vec::new();
    v.push(99);
    v.push(104);
    v.push(117);
    v.push(110);
    v.push(107);
    v.push(101);
    v.push(100);
    assert(v@ =~= chunked_token());
    v
}

/// Whether a Transfer-Encoding value names `chunked`, in any case.
pub fn contains_chunked_token(value: &[u8]) -> (r: bool)
    ensures
        r == has_chunked_token(value@),
{
    let token = chunked_token_vec();
    let n = value.len();
    if n < 7 {
        return false;
    }
    let mut i: usize = 0;
    while i <= n - 7
        invariant
            n == value@.len(),
            n >= 7,
            token@ == chunked_token(),
            forall|j: int| 0 <= j < i ==> !#[trigger] eq_ignore_ascii_case(value@.subrange(j, j + 7), chunked_token()),
        decreases n - i,
    {
        if eq_ignore_ascii_case_at(value, i, token.as_slice()) {
            return true;
        }
        i = i + 1;
    }
    assert forall|j: int| 0 <= j && j + 7 <= value@.len() implies !#[trigger] eq_ignore_ascii_case(
        value@.subrange(j, j + 7),
        chunked_token(),
    ) by {
        assert(j < i);
    }
    false
}

/// The text `Utf8Error` displays for bytes that are not UTF-8.
pub uninterp spec fn utf8_error_text(bytes: Seq<u8>) -> Seq<char>;

/// `std::str::from_utf8`: succeeds exactly on valid UTF-8 and then gives its
/// decoding; on failure gives the error's text.
#[verifier::external_body]
fn utf8_to_string(bytes: &[u8]) -> (r: Result<String, String>)
    ensures
        r is Ok <==> valid_utf8(bytes@),
        r matches Ok(s) ==> s@ == decode_utf8(bytes@),
        r matches Err(m) ==> m@ == utf8_error_text(bytes@),
{
    match std::str::from_utf8(bytes) {
        Ok(s) => Ok(s.to_string()),
        Err(e) => Err(e.to_string()),
    }
}

/// The number a header value gives when read as UTF-8, trimmed and parsed
/// as `u64`.
pub open spec fn header_u64(value: Seq<u8>) -> Option<u64> {
    if valid_utf8(value) {
        parse_u64_spec(trim(decode_utf8(value)))
    } else {
        None
    }
}

/// Reads a header value as a trimmed decimal `u64`.
pub fn parse_header_u64(value: &[u8]) -> (r: Option<u64>)
    ensures
        r == header_u64(value@),
{
    match utf8_to_string(value) {
        Err(_) => None,
        Ok(s) => {
            let cs = chars_of(s.as_str());
            let (a, b) = trim_bounds(cs.as_slice(), 0, cs.len());
            assert(cs@.subrange(0, cs@.len() as int) =~= cs@);
            match parse_uint_chars(cs.as_slice(), a, b, 10, u64::MAX) {
                Ok(v) => Some(v),
                Err(_) => None,
            }
        },
    }
}

// ---------------------------------------------------------------------------
// Chunk size lines
// ---------------------------------------------------------------------------

/// The first `;` in `line` at or after `i`, or the line's end.
pub open spec fn semicolon_from(line: Seq<u8>, i: int) -> int
    decreases line.len() - i,
{
    if i < 0 || i >= line.len() {
        line.len() as int
    } else if line[i] == 59 {
        i
    } else {
        semicolon_from(line, i + 1)
    }
}

/// What a chunk size line gives: the size in hexadecimal before any `;`
/// extension, trimmed; or the text of the error.
pub open spec fn chunk_size_spec(line: Seq<u8>) -> Result<usize, Seq<char>> {
    let part = line.subrange(0, semicolon_from(line, 0));
    if !valid_utf8(part) {
        Err("Invalid chunk size utf8: "@ + utf8_error_text(part))
    } else {
        match parse_uint(trim(decode_utf8(part)), 16, usize::MAX as nat) {
            Ok(v) => Ok(v as usize),
            Err(k) => Err("Invalid chunk size: "@ + int_error_text(k)),
        }
    }
}

/// Parses a chunk size line.
pub fn parse_chunk_size(line: &[u8]) -> (r: Result<usize, RequestError>)
    ensures
        match chunk_size_spec(line@) {
            Ok(v) => r matches Ok(n) && n == v,
            Err(m) => r matches Err(e) && e.class == ErrorClass::Http && e.message@ == m,
        },
{
    let n = line.len();
    let mut p: usize = 0;
    while p < n && line[p] != 59
        invariant
            n == line@.len(),
            p <= n,
            semicolon_from(line@, 0) == semicolon_from(line@, p as int),
        decreases n - p,
    {
        p = p + 1;
    }
    let part = vstd::slice::slice_subrange(line, 0, p);
    assert(part@ == line@.subrange(0, semicolon_from(line@, 0)));
    match utf8_to_string(part) {
        Err(m) => {
            let mut msg = string_from_str("Invalid chunk size utf8: ");
            push_str(&mut msg, m.as_str());
            Err(RequestError::http(msg))
        },
        Ok(s) => {
            let cs = chars_of(s.as_str());
            let (a, b) = trim_bounds(cs.as_slice(), 0, cs.len());
            assert(cs@.subrange(0, cs@.len() as int) =~= cs@);
            match parse_uint_chars(cs.as_slice(), a, b, 16, usize::MAX as u64) {
                Ok(v) => Ok(v as usize),
                Err(k) => {
                    let mut msg = string_from_str("Invalid chunk size: ");
                    let t = int_error_message(k);
                    push_str(&mut msg, t.as_str());
                    Err(RequestError::http(msg))
                },
            }
        },
    }
}

// ---------------------------------------------------------------------------
// The request head
// ---------------------------------------------------------------------------

/// Appends the bytes of `b` to `out`.
pub fn push_bytes(out: &mut Vec<u8>, b: &[u8])
    ensures
        final(out)@ == old(out)@ + b@,
{
    let mut i: usize = 0;
    while i < b.len()
        invariant
            i <= b@.len(),
            out@ == old(out)@ + b@.take(i as int),
        decreases b@.len() - i,
    {
        out.push(b[i]);
        assert(b@.take(i as int + 1) =~= b@.take(i as int).push(b@[i as int]));
        i = i + 1;
    }
    assert(b@.take(b@.len() as int) =~= b@);
}

/// The UTF-8 bytes of a string.
pub open spec fn bytes_of(s: Seq<char>) -> Seq<u8> {
    encode_utf8(s)
}

/// The decimal digits of `n` as ASCII bytes.
pub open spec fn dec_bytes(n: nat) -> Seq<u8> {
    dec_string(n).map_values(|c: char| (c as u32) as u8)
}

/// The decimal digits of `n` as ASCII bytes.
pub fn u64_to_dec_bytes(n: u64) -> (r: Vec<u8>)
    ensures
        r@ == dec_bytes(n as nat),
{
    let cs = u64_to_dec(n);
    let mut out: Vec<u8> = Vec::new();
    let mut i: usize = 0;
    while i < cs.len()
        invariant
            i <= cs@.len(),
            cs@ == dec_string(n as nat),
            out@ == dec_bytes(n as nat).take(i as int),
        decreases cs@.len() - i,
    {
        out.push((cs[i] as u32) as u8);
        assert(dec_bytes(n as nat).take(i as int + 1) =~= dec_bytes(n as nat).take(i as int).push((cs@[i as int] as u32) as u8));
        i = i + 1;
    }
    assert(dec_bytes(n as nat).take(cs@.len() as int) =~= dec_bytes(n as nat));
    out
}

/// One header line: `name: value` and CR LF.
pub open spec fn header_line(h: (Seq<u8>, Seq<u8>)) -> Seq<u8> {
    h.0 + bytes_of(": "@) + h.1 + bytes_of("\r\n"@)
}

/// The header lines for `hs`, in order.
pub open spec fn header_lines(hs: Seq<(Seq<u8>, Seq<u8>)>) -> Seq<u8>
    decreases hs.len(),
{
    if hs.len() == 0 {
        Seq::empty()
    } else {
        header_lines(hs.drop_last()) + header_line(hs.last())
    }
}

/// Some header in `hs` is named `target`, in any ASCII case.
pub open spec fn has_header(hs: Seq<(Seq<u8>, Seq<u8>)>, target: Seq<u8>) -> bool {
    exists|i: int| 0 <= i < hs.len() && #[trigger] eq_ignore_ascii_case(hs[i].0, target)
}

/// The HTTP/1.1 request head: request line, the given headers in order, a
/// `Host` header unless one was given, a `Content-Length` header for a body
/// unless one was given, and the blank line.
pub open spec fn request_head(
    method: Seq<char>,
    path_query: Seq<char>,
    hs: Seq<(Seq<u8>, Seq<u8>)>,
    body_len: Option<nat>,
    authority: Seq<char>,
) -> Seq<u8> {
    let host = if has_header(hs, bytes_of("host"@)) {
        Seq::empty()
    } else {
        bytes_of("Host: "@) + bytes_of(authority) + bytes_of("\r\n"@)
    };
    let length = match body_len {
        Some(n) => if has_header(hs, bytes_of("content-length"@)) {
            Seq::empty()
        } else {
            bytes_of("Content-Length: "@) + dec_bytes(n) + bytes_of("\r\n"@)
        },
        None => Seq::empty(),
    };
    bytes_of(method) + bytes_of(" "@) + bytes_of(path_query) + bytes_of(" HTTP/1.1\r\n"@)
        + header_lines(hs) + host + length + bytes_of("\r\n"@)
}

/// The length of the body of `config`, if it has one.
pub open spec fn body_len(config: &RequestConfig) -> Option<nat> {
    match config.body {
        Some(b) => Some(b@.len()),
        None => None,
    }
}

proof fn lemma_has_header_push(hs: Seq<(Seq<u8>, Seq<u8>)>, h: (Seq<u8>, Seq<u8>), target: Seq<u8>)
    ensures
        has_header(hs.push(h), target) == (has_header(hs, target) || eq_ignore_ascii_case(h.0, target)),
{
    let t = hs.push(h);
    if has_header(t, target) {
        let j = choose|j: int| 0 <= j < t.len() && #[trigger] eq_ignore_ascii_case(t[j].0, target);
        if j < hs.len() {
            assert(t[j] == hs[j]);
        }
    }
    if has_header(hs, target) {
        let j = choose|j: int| 0 <= j < hs.len() && #[trigger] eq_ignore_ascii_case(hs[j].0, target);
        assert(t[j] == hs[j]);
    }
    if eq_ignore_ascii_case(h.0, target) {
        assert(t[hs.len() as int] == h);
    }
}

proof fn lemma_host_not_content_length(name: Seq<u8>)
    ensures
        eq_ignore_ascii_case(name, bytes_of("host"@)) ==> !eq_ignore_ascii_case(name, bytes_of("content-length"@)),
{
    reveal_strlit("host");
    reveal_strlit("content-length");
    vstd::string::is_ascii_spec_bytes("host");
    vstd::string::is_ascii_spec_bytes("content-length");
    assert(bytes_of("host"@).len() == 4);
    assert(bytes_of("content-length"@).len() == 14);
}

/// Builds the request head for `config`, sent to `authority` for
/// `path_query`.
pub fn build_request_head(config: &RequestConfig, authority: &str, path_query: &str) -> (out: Vec<u8>)
    ensures
        out@ == request_head(
            config.method@,
            path_query@,
            headers_view(config.headers@),
            body_len(config),
            authority@,
        ),
{
    let ghost hs = headers_view(config.headers@);
    let mut out: Vec<u8> = Vec::new();
    push_bytes(&mut out, config.method.as_str().as_bytes());
    push_bytes(&mut out, " ".as_bytes());
    push_bytes(&mut out, path_query.as_bytes());
    push_bytes(&mut out, " HTTP/1.1\r\n".as_bytes());
    let ghost line_start = out@;
    let host = "host".as_bytes();
    let content_length = "content-length".as_bytes();
    let mut has_host = false;
    let mut has_content_length = false;
    let mut i: usize = 0;
    while i < config.headers.len()
        invariant
            i <= config.headers@.len(),
            hs == headers_view(config.headers@),
            host@ == bytes_of("host"@),
            content_length@ == bytes_of("content-length"@),
            out@ == line_start + header_lines(hs.take(i as int)),
            has_host == has_header(hs.take(i as int), bytes_of("host"@)),
            has_content_length == has_header(hs.take(i as int), bytes_of("content-length"@)),
        decreases config.headers@.len() - i,
    {
        let name = config.headers[i].0.as_slice();
        let value = config.headers[i].1.as_slice();
        assert(hs[i as int] == (name@, value@));
        assert(hs.take(i as int + 1).drop_last() =~= hs.take(i as int));
        if eq_ignore_ascii_case_exec(name, host) {
            has_host = true;
        } else if eq_ignore_ascii_case_exec(name, content_length) {
            has_content_length = true;
        }
        push_bytes(&mut out, name);
        push_bytes(&mut out, ": ".as_bytes());
        push_bytes(&mut out, value);
        push_bytes(&mut out, "\r\n".as_bytes());
        proof {
            assert(hs.take(i as int + 1) =~= hs.take(i as int).push((name@, value@)));
            lemma_has_header_push(hs.take(i as int), (name@, value@), bytes_of("host"@));
            lemma_has_header_push(hs.take(i as int), (name@, value@), bytes_of("content-length"@));
            lemma_host_not_content_length(name@);
        }
        i = i + 1;
    }
    assert(hs.take(config.headers@.len() as int) =~= hs);
    if !has_host {
        push_bytes(&mut out, "Host: ".as_bytes());
        push_bytes(&mut out, authority.as_bytes());
        push_bytes(&mut out, "\r\n".as_bytes());
    }
    match &config.body {
        Some(body) => {
            if !has_content_length {
                push_bytes(&mut out, "Content-Length: ".as_bytes());
                let digits = u64_to_dec_bytes(body.len() as u64);
                push_bytes(&mut out, digits.as_slice());
                push_bytes(&mut out, "\r\n".as_bytes());
            }
        },
        None => {},
    }
    push_bytes(&mut out, "\r\n".as_bytes());
    out
}

/// The bytes a raw HTTP/1.1 request puts on the wire: its head and its body.
pub fn h1_bytes_out(head: &[u8], body_len: usize) -> (r: u64)
    requires
        head@.len() + body_len <= u64::MAX,
    ensures
        r == head@.len() + body_len,
{
    (head.len() as u64) + (body_len as u64)
}

// ---------------------------------------------------------------------------
// The response head
// ---------------------------------------------------------------------------

/// Room for response headers given to the parser.
pub const MAX_RESPONSE_HEADERS: usize = 64;

/// What `httparse::Response::parse` makes of `buf` when given room for
/// `max_headers` headers: the text of its error; `None` when the head is
/// partial; or the status code it read and the headers, each as name bytes
/// and value bytes, in order.
pub uninterp spec fn httparse_response(buf: Seq<u8>, max_headers: nat) -> Result<Option<(Option<u16>, Seq<(Seq<u8>, Seq<u8>)>)>, Seq<char>>;

/// The parser's answer, as plain values.
pub type ParsedHead = Result<Option<(Option<u16>, Vec<(Vec<u8>, Vec<u8>)>)>, String>;

/// The view of a parser's answer.
pub open spec fn parsed_view(r: ParsedHead) -> Result<Option<(Option<u16>, Seq<(Seq<u8>, Seq<u8>)>)>, Seq<char>> {
    match r {
        Err(m) => Err(m@),
        Ok(None) => Ok(None),
        Ok(Some((code, hs))) => Ok(Some((code, headers_view(hs@)))),
    }
}

/// Runs `httparse::Response::parse` on `buf` with room for `max_headers`
/// headers; the contract names its answer.
#[verifier::external_body]
fn httparse_parse_response(buf: &[u8], max_headers: usize) -> (r: ParsedHead)
    ensures
        parsed_view(r) == httparse_response(buf@, max_headers as nat),
{
    let mut headers = vec![httparse::EMPTY_HEADER; max_headers];
    let mut res = httparse::Response::new(&mut headers);
    match res.parse(buf) {
        Err(e) => Err(e.to_string()),
        Ok(httparse::Status::Partial) => Ok(None),
        Ok(httparse::Status::Complete(_)) => Ok(Some((
            res.code,
            res.headers.iter().map(|h| (h.name.as_bytes().to_vec(), h.value.to_vec())).collect(),
        ))),
    }
}

/// What a response head tells: the status, the declared length and whether
/// the body is chunked.
#[derive(Debug)]
pub struct ResponseHead {
    pub status: u16,
    pub content_length: Option<u64>,
    pub chunked: bool,
}

/// The value of the last `Content-Length` header in `hs` that reads as a
/// number.
pub open spec fn content_length_of(hs: Seq<(Seq<u8>, Seq<u8>)>) -> Option<u64>
    decreases hs.len(),
{
    if hs.len() == 0 {
        None
    } else if eq_ignore_ascii_case(hs.last().0, bytes_of("content-length"@)) && header_u64(hs.last().1) is Some {
        header_u64(hs.last().1)
    } else {
        content_length_of(hs.drop_last())
    }
}

/// Some `Transfer-Encoding` header in `hs` names `chunked`.
pub open spec fn chunked_of(hs: Seq<(Seq<u8>, Seq<u8>)>) -> bool {
    exists|i: int|
        0 <= i < hs.len() && #[trigger] eq_ignore_ascii_case(hs[i].0, bytes_of("transfer-encoding"@))
            && has_chunked_token(hs[i].1)
}

/// What the parser's answer makes of the response: its error text, or the
/// status, the declared length and whether the body is chunked.
pub open spec fn head_of(parsed: Result<Option<(Option<u16>, Seq<(Seq<u8>, Seq<u8>)>)>, Seq<char>>) -> Result<(u16, Option<u64>, bool), Seq<char>> {
    match parsed {
        Err(e) => Err("Failed to parse response headers: "@ + e),
        Ok(None) => Err("Incomplete response headers after delimiter"@),
        Ok(Some((None, _))) => Err("Missing response status code"@),
        Ok(Some((Some(code), hs))) => Ok((code, content_length_of(hs), chunked_of(hs))),
    }
}

/// `r` is what `head_of` gives, as an HTTP error or a head.
pub open spec fn head_result_matches(r: Result<ResponseHead, RequestError>, spec: Result<(u16, Option<u64>, bool), Seq<char>>) -> bool {
    match spec {
        Ok((code, len, chunked)) => r matches Ok(h) && h.status == code && h.content_length == len && h.chunked == chunked,
        Err(m) => r matches Err(e) && e.class == ErrorClass::Http && e.message@ == m,
    }
}

/// Reads the parser's answer on a response head.
pub fn interpret_response_head(parsed: ParsedHead) -> (r: Result<ResponseHead, RequestError>)
    ensures
        head_result_matches(r, head_of(parsed_view(parsed))),
{
    match parsed {
        Err(e) => {
            let mut msg = string_from_str("Failed to parse response headers: ");
            push_str(&mut msg, e.as_str());
            Err(RequestError::http(msg))
        },
        Ok(None) => Err(RequestError::http(string_from_str("Incomplete response headers after delimiter"))),
        Ok(Some((None, _))) => Err(RequestError::http(string_from_str("Missing response status code"))),
        Ok(Some((Some(code), hs))) => {
            let ghost hv = headers_view(hs@);
            let cl_name = "content-length".as_bytes();
            let te_name = "transfer-encoding".as_bytes();
            let mut content_length: Option<u64> = None;
            let mut chunked = false;
            let mut i: usize = 0;
            while i < hs.len()
                invariant
                    i <= hs@.len(),
                    hv == headers_view(hs@),
                    cl_name@ == bytes_of("content-length"@),
                    te_name@ == bytes_of("transfer-encoding"@),
                    content_length == content_length_of(hv.take(i as int)),
                    chunked == chunked_of(hv.take(i as int)),
                decreases hs@.len() - i,
            {
                let name = hs[i].0.as_slice();
                let value = hs[i].1.as_slice();
                let ghost t = hv.take(i as int + 1);
                assert(hv[i as int] == (name@, value@));
                assert(t.drop_last() =~= hv.take(i as int));
                assert(t.last() == (name@, value@));
                if eq_ignore_ascii_case_exec(name, cl_name) {
                    match parse_header_u64(value) {
                        Some(n) => {
                            content_length = Some(n);
                        },
                        None => {},
                    }
                    proof {
                        lemma_content_length_not_te(name@);
                    }
                } else if eq_ignore_ascii_case_exec(name, te_name) && contains_chunked_token(value) {
                    chunked = true;
                }
                proof {
                    lemma_chunked_push(hv.take(i as int), (name@, value@));
                    assert(t =~= hv.take(i as int).push((name@, value@)));
                }
                i = i + 1;
            }
            assert(hv.take(hs@.len() as int) =~= hv);
            Ok(ResponseHead { status: code, content_length, chunked })
        },
    }
}

proof fn lemma_content_length_not_te(name: Seq<u8>)
    ensures
        eq_ignore_ascii_case(name, bytes_of("content-length"@)) ==> !eq_ignore_ascii_case(name, bytes_of("transfer-encoding"@)),
{
    reveal_strlit("content-length");
    reveal_strlit("transfer-encoding");
    vstd::string::is_ascii_spec_bytes("content-length");
    vstd::string::is_ascii_spec_bytes("transfer-encoding");
    assert(bytes_of("content-length"@).len() == 14);
    assert(bytes_of("transfer-encoding"@).len() == 17);
}

proof fn lemma_chunked_push(hs: Seq<(Seq<u8>, Seq<u8>)>, h: (Seq<u8>, Seq<u8>))
    ensures
        chunked_of(hs.push(h)) == (chunked_of(hs) || (eq_ignore_ascii_case(h.0, bytes_of("transfer-encoding"@)) && has_chunked_token(h.1))),
{
    let t = hs.push(h);
    if chunked_of(t) {
        let j = choose|j: int| 0 <= j < t.len() && #[trigger] eq_ignore_ascii_case(t[j].0, bytes_of("transfer-encoding"@)) && has_chunked_token(t[j].1);
        if j < hs.len() {
            assert(t[j] == hs[j]);
        }
    }
    if chunked_of(hs) {
        let j = choose|j: int| 0 <= j < hs.len() && #[trigger] eq_ignore_ascii_case(hs[j].0, bytes_of("transfer-encoding"@)) && has_chunked_token(hs[j].1);
        assert(t[j] == hs[j]);
    }
    if eq_ignore_ascii_case(h.0, bytes_of("transfer-encoding"@)) && has_chunked_token(h.1) {
        assert(t[hs.len() as int] == h);
    }
}

/// Parses the response head `head` (up to and including its blank line).
pub fn parse_response_head(head: &[u8]) -> (r: Result<ResponseHead, RequestError>)
    ensures
        head_result_matches(r, head_of(httparse_response(head@, MAX_RESPONSE_HEADERS as nat))),
{
    let parsed = httparse_parse_response(head, MAX_RESPONSE_HEADERS);
    interpret_response_head(parsed)
}

// ---------------------------------------------------------------------------
// The read buffer
// ---------------------------------------------------------------------------

/// Bytes read from the connection and not yet consumed. Consumed bytes are
/// dropped from storage only now and then, to avoid moving memory on every
/// response.
pub struct ReadBuffer {
    buf: Vec<u8>,
    pos: usize,
}

/// Consumed bytes are dropped once this many have piled up.
pub const COMPACT_THRESHOLD: usize = 32768;

impl View for ReadBuffer {
    type V = Seq<u8>;

    /// The pending bytes.
    closed spec fn view(&self) -> Seq<u8> {
        self.buf@.subrange(self.pos as int, self.buf@.len() as int)
    }
}

impl ReadBuffer {
    /// Storage is consistent: the read position is within it.
    pub closed spec fn wf(&self) -> bool {
        self.pos <= self.buf@.len()
    }

    /// Consumed bytes still held in storage.
    pub closed spec fn offset(&self) -> nat {
        self.pos as nat
    }

    /// Bytes held in storage, consumed ones included.
    pub closed spec fn stored(&self) -> nat {
        self.buf@.len()
    }

    pub fn new() -> (b: Self)
        ensures
            b.wf(),
            b@ == Seq::<u8>::empty(),
            b.offset() == 0,
            b.stored() == 0,
    {
        let b = ReadBuffer { buf: Vec::new(), pos: 0 };
        assert(b@ =~= Seq::<u8>::empty());
        b
    }

    /// The pending bytes.
    pub fn buffered(&self) -> (r: &[u8])
        requires
            self.wf(),
        ensures
            r@ == self@,
    {
        vstd::slice::slice_subrange(self.buf.as_slice(), self.pos, self.buf.len())
    }

    /// The number of pending bytes.
    pub fn pending(&self) -> (n: usize)
        requires
            self.wf(),
        ensures
            n == self@.len(),
    {
        self.buf.len() - self.pos
    }

    /// Appends bytes just read.
    pub fn extend(&mut self, data: &[u8])
        requires
            old(self).wf(),
        ensures
            final(self).wf(),
            final(self)@ == old(self)@ + data@,
            final(self).offset() == old(self).offset(),
            final(self).stored() == old(self).stored() + data@.len(),
    {
        push_bytes(&mut self.buf, data);
        assert(self@ =~= old(self)@ + data@);
    }

    /// Drops all pending bytes.
    pub fn clear(&mut self)
        requires
            old(self).wf(),
        ensures
            final(self).wf(),
            final(self)@ == Seq::<u8>::empty(),
            final(self).offset() == 0,
            final(self).stored() == 0,
    {
        self.buf.clear();
        self.pos = 0;
        assert(self@ =~= Seq::<u8>::empty());
    }

    /// Consumes the first `n` pending bytes. Storage is emptied when nothing
    /// is left, and consumed bytes are dropped once they are at least
    /// `COMPACT_THRESHOLD` or half of storage.
    pub fn consume(&mut self, n: usize)
        requires
            old(self).wf(),
            n <= old(self)@.len(),
        ensures
            final(self).wf(),
            final(self)@ == old(self)@.skip(n as int),
            ({
                let p = old(self).offset() + n;
                let len = old(self).stored();
                if p == len {
                    final(self).offset() == 0 && final(self).stored() == 0
                } else if p >= COMPACT_THRESHOLD || 2 * p >= len {
                    final(self).offset() == 0 && final(self).stored() == len - p
                } else {
                    final(self).offset() == p && final(self).stored() == len
                }
            }),
    {
        let len = self.buf.len();
        assert(self@.len() == len - self.pos);
        self.pos = self.pos + n;
        if self.pos == self.buf.len() {
            self.buf.clear();
            self.pos = 0;
            assert(self@ =~= old(self)@.skip(n as int));
            return;
        }
        if self.pos >= COMPACT_THRESHOLD || self.pos >= self.buf.len() - self.pos {
            let tail = self.buf.split_off(self.pos);
            self.buf = tail;
            self.pos = 0;
        }
        assert(self@ =~= old(self)@.skip(n as int));
    }
}

/// Takes the response head off the front of `buf` once it holds a complete
/// one: `None` while the blank line that ends it has not arrived, otherwise
/// what the head says; on success the head is consumed.
pub fn take_response_head(buf: &mut ReadBuffer) -> (r: Option<Result<ResponseHead, RequestError>>)
    requires
        old(buf).wf(),
    ensures
        final(buf).wf(),
        match blank_line_from(old(buf)@, 0) {
            None => r is None && final(buf)@ == old(buf)@,
            Some(p) => {
                let head = old(buf)@.take(p + 4);
                &&& r matches Some(res)
                &&& head_result_matches(res, head_of(httparse_response(head, MAX_RESPONSE_HEADERS as nat)))
                &&& res is Ok ==> final(buf)@ == old(buf)@.skip(p + 4)
                &&& res is Err ==> final(buf)@ == old(buf)@
            },
        },
{
    let end = match find_headers_end(buf.buffered()) {
        None => return None,
        Some(e) => e,
    };
    proof {
        lemma_blank_line_in_bounds(buf@, 0);
    }
    let head = vstd::slice::slice_subrange(buf.buffered(), 0, end);
    assert(head@ =~= buf@.take(end as int));
    let res = parse_response_head(head);
    if res.is_ok() {
        buf.consume(end);
    }
    Some(res)
}

proof fn lemma_blank_line_in_bounds(b: Seq<u8>, i: int)
    requires
        0 <= i,
    ensures
        blank_line_from(b, i) matches Some(p) ==> i <= p && p + 4 <= b.len(),
    decreases b.len() - i,
{
    if i + 3 < b.len() && !blank_line_at(b, i) {
        lemma_blank_line_in_bounds(b, i + 1);
    }
}

proof fn lemma_crlf_in_bounds(b: Seq<u8>, i: int)
    requires
        0 <= i,
    ensures
        crlf_from(b, i) matches Some(p) ==> i <= p && p + 2 <= b.len() && crlf_at(b, p),
    decreases b.len() - i,
{
    if i + 1 < b.len() && !crlf_at(b, i) {
        lemma_crlf_in_bounds(b, i + 1);
    }
}

// ---------------------------------------------------------------------------
// Delimiting the body
// ---------------------------------------------------------------------------

/// How the body of a response is delimited.
#[derive(Clone, Copy, Debug, PartialEq, Eq, Structural)]
pub enum BodyMode {
    /// No body.
    Empty,
    /// Exactly this many bytes.
    Length(u64),
    /// Chunked transfer coding.
    Chunked,
    /// Until the server closes the connection.
    UntilClose,
}

/// The body mode a response has: none for HEAD requests, 1xx, 204 and 304;
/// otherwise a declared length wins over chunked, and with neither the body
/// runs to the end of the connection.
pub open spec fn body_mode_spec(method_is_head: bool, status: u16, content_length: Option<u64>, chunked: bool) -> BodyMode {
    if method_is_head || status / 100 == 1 || status == 204 || status == 304 {
        BodyMode::Empty
    } else {
        match content_length {
            Some(n) => BodyMode::Length(n),
            None => if chunked {
                BodyMode::Chunked
            } else {
                BodyMode::UntilClose
            },
        }
    }
}

/// How the body of a response to a request with this method is delimited.
pub fn body_mode(method_is_head: bool, head: &ResponseHead) -> (m: BodyMode)
    ensures
        m == body_mode_spec(method_is_head, head.status, head.content_length, head.chunked),
{
    if method_is_head || head.status / 100 == 1 || head.status == 204 || head.status == 304 {
        BodyMode::Empty
    } else {
        match head.content_length {
            Some(n) => BodyMode::Length(n),
            None => if head.chunked {
                BodyMode::Chunked
            } else {
                BodyMode::UntilClose
            },
        }
    }
}

/// Replies to HEAD and 1xx, 204 and 304 responses never carry a body
/// (RFC 9110), whatever their Content-Length and Transfer-Encoding say;
/// any other response has one, of the declared length where one is
/// declared, else chunked where chunked, else running to the close of the
/// connection.
pub proof fn lemma_body_mode_law(method_is_head: bool, status: u16, content_length: Option<u64>, chunked: bool)
    ensures
        method_is_head || (100 <= status && status < 200) || status == 204 || status == 304
            ==> body_mode_spec(method_is_head, status, content_length, chunked) == BodyMode::Empty,
        !(method_is_head || (100 <= status && status < 200) || status == 204 || status == 304) ==> {
            let m = body_mode_spec(method_is_head, status, content_length, chunked);
            &&& m != BodyMode::Empty
            &&& (content_length matches Some(n) ==> m == BodyMode::Length(n))
            &&& (content_length is None && chunked ==> m == BodyMode::Chunked)
            &&& (content_length is None && !chunked ==> m == BodyMode::UntilClose)
        },
{
}

/// Size of the scratch buffer one read from the connection fills.
pub const READ_CHUNK: usize = 16384;

/// A body of declared length being read.
#[derive(Debug)]
pub struct LengthBody {
    /// Bytes still to come.
    pub remaining: u64,
    /// Body bytes received so far.
    pub bytes_in: u64,
}

impl LengthBody {
    pub fn new(len: u64) -> (b: Self)
        ensures
            b.remaining == len,
            b.bytes_in == 0,
    {
        LengthBody { remaining: len, bytes_in: 0 }
    }

    /// Takes what the read buffer already holds of the body.
    pub fn take_buffered(&mut self, buf: &mut ReadBuffer)
        requires
            old(buf).wf(),
            old(self).bytes_in + old(self).remaining <= u64::MAX,
        ensures
            final(buf).wf(),
            ({
                let take = if old(self).remaining <= old(buf)@.len() { old(self).remaining as int } else { old(buf)@.len() as int };
                &&& final(self).bytes_in == old(self).bytes_in + take
                &&& final(self).remaining == old(self).remaining - take
                &&& final(buf)@ == old(buf)@.skip(take)
            }),
            final(self).bytes_in + final(self).remaining == old(self).bytes_in + old(self).remaining,
    {
        let have = buf.pending();
        let take: usize = if (self.remaining as u128) <= (have as u128) { self.remaining as usize } else { have };
        self.bytes_in = self.bytes_in + take as u64;
        self.remaining = self.remaining - take as u64;
        buf.consume(take);
    }

    /// How many bytes the next read from the connection may take.
    pub fn next_read_len(&self) -> (n: usize)
        ensures
            n == (if self.remaining <= READ_CHUNK { self.remaining as int } else { READ_CHUNK as int }),
    {
        if self.remaining <= READ_CHUNK as u64 {
            self.remaining as usize
        } else {
            READ_CHUNK
        }
    }

    /// Whether the whole body has arrived.
    pub fn is_done(&self) -> (r: bool)
        ensures
            r == (self.remaining == 0),
    {
        self.remaining == 0
    }

    /// Accounts for a read of `n` bytes; a read of none means the server
    /// closed the connection before the body was complete.
    pub fn on_read(&mut self, n: usize) -> (r: Result<(), RequestError>)
        requires
            n <= old(self).remaining,
            old(self).bytes_in + old(self).remaining <= u64::MAX,
        ensures
            n == 0 ==> (r matches Err(e) && e.class == ErrorClass::Connect
                && e.message@ == "Connection closed while reading response body"@
                && *final(self) == *old(self)),
            n > 0 ==> (r is Ok && final(self).bytes_in == old(self).bytes_in + n
                && final(self).remaining == old(self).remaining - n),
    {
        if n == 0 {
            return Err(RequestError::connect(string_from_str("Connection closed while reading response body")));
        }
        self.bytes_in = self.bytes_in + n as u64;
        self.remaining = self.remaining - n as u64;
        Ok(())
    }
}

/// A body that runs until the server closes the connection.
#[derive(Debug)]
pub struct UntilCloseBody {
    /// Body bytes received so far.
    pub bytes_in: u64,
}

impl UntilCloseBody {
    /// Starts with what the read buffer holds, which it takes.
    pub fn start(buf: &mut ReadBuffer) -> (b: Self)
        requires
            old(buf).wf(),
            old(buf)@.len() <= u64::MAX,
        ensures
            final(buf).wf(),
            final(buf)@ == Seq::<u8>::empty(),
            b.bytes_in == old(buf)@.len(),
    {
        let n = buf.pending();
        buf.clear();
        UntilCloseBody { bytes_in: n as u64 }
    }

    /// Accounts for a read of `n` bytes; says whether the body has ended,
    /// which a read of none means.
    pub fn on_read(&mut self, n: usize) -> (done: bool)
        requires
            old(self).bytes_in + n <= u64::MAX,
        ensures
            done == (n == 0),
            final(self).bytes_in == old(self).bytes_in + n,
    {
        self.bytes_in = self.bytes_in + n as u64;
        n == 0
    }
}

// ---------------------------------------------------------------------------
// Chunked bodies
// ---------------------------------------------------------------------------

/// Where a chunked decoder stands.
#[derive(Clone, Copy, Debug, PartialEq, Eq, Structural)]
pub enum ChunkPhase {
    /// Expecting a chunk size line.
    SizeLine,
    /// Expecting a chunk of this size and its CR LF.
    Data(usize),
    /// After the last chunk: expecting trailer lines up to a blank one.
    Trailers,
    /// The body is complete.
    Done,
}

/// What a step of the decoder achieved.
#[derive(Clone, Copy, Debug, PartialEq, Eq, Structural)]
pub enum ChunkProgress {
    /// The buffer holds too little; read more from the connection.
    NeedMore,
    /// Part of the body was decoded; step again.
    Advanced,
    /// The body is complete.
    Finished,
}

/// One step of chunked decoding on the pending bytes `b`: the error text, or
/// the next phase, the bytes received so far, how many bytes were consumed,
/// and the progress.
pub open spec fn chunk_step(phase: ChunkPhase, bytes_in: nat, b: Seq<u8>) -> Result<(ChunkPhase, nat, nat, ChunkProgress), Seq<char>> {
    match phase {
        ChunkPhase::SizeLine => match crlf_from(b, 0) {
            None => Ok((ChunkPhase::SizeLine, bytes_in, 0, ChunkProgress::NeedMore)),
            Some(e) => match chunk_size_spec(b.take(e)) {
                Err(m) => Err(m),
                Ok(size) => if size == 0 {
                    Ok((ChunkPhase::Trailers, bytes_in, (e + 2) as nat, ChunkProgress::Advanced))
                } else {
                    Ok((ChunkPhase::Data(size), bytes_in, (e + 2) as nat, ChunkProgress::Advanced))
                },
            },
        },
        ChunkPhase::Data(size) => if b.len() < size + 2 {
            Ok((ChunkPhase::Data(size), bytes_in, 0, ChunkProgress::NeedMore))
        } else if b[size as int] == 13 && b[size + 1] == 10 {
            Ok((ChunkPhase::SizeLine, (bytes_in + size) as nat, (size + 2) as nat, ChunkProgress::Advanced))
        } else {
            Err("Invalid chunk terminator"@)
        },
        ChunkPhase::Trailers => match crlf_from(b, 0) {
            None => Ok((ChunkPhase::Trailers, bytes_in, 0, ChunkProgress::NeedMore)),
            Some(e) => if e == 0 {
                Ok((ChunkPhase::Done, bytes_in, 2, ChunkProgress::Finished))
            } else {
                Ok((ChunkPhase::Trailers, bytes_in, (e + 2) as nat, ChunkProgress::Advanced))
            },
        },
        ChunkPhase::Done => Ok((ChunkPhase::Done, bytes_in, 0, ChunkProgress::Finished)),
    }
}

/// A chunked body being decoded.
#[derive(Debug)]
pub struct ChunkedBody {
    pub phase: ChunkPhase,
    /// Body bytes received so far, chunk framing not counted.
    pub bytes_in: u64,
}

impl ChunkedBody {
    pub fn new() -> (c: Self)
        ensures
            c.phase == ChunkPhase::SizeLine,
            c.bytes_in == 0,
    {
        ChunkedBody { phase: ChunkPhase::SizeLine, bytes_in: 0 }
    }

    /// Decodes as much as one step can from the front of `buf`. On error
    /// nothing is consumed.
    pub fn step(&mut self, buf: &mut ReadBuffer) -> (r: Result<ChunkProgress, RequestError>)
        requires
            old(buf).wf(),
            old(self).bytes_in + old(buf)@.len() <= u64::MAX,
        ensures
            final(buf).wf(),
            match chunk_step(old(self).phase, old(self).bytes_in as nat, old(buf)@) {
                Ok((phase, bytes_in, used, progress)) => {
                    &&& r == Ok::<ChunkProgress, RequestError>(progress)
                    &&& final(self).phase == phase
                    &&& final(self).bytes_in == bytes_in
                    &&& final(buf)@ == old(buf)@.skip(used as int)
                },
                Err(m) => {
                    &&& r matches Err(e) && e.class == ErrorClass::Http && e.message@ == m
                    &&& *final(self) == *old(self)
                    &&& final(buf)@ == old(buf)@
                },
            },
    {
        match self.phase {
            ChunkPhase::SizeLine => {
                let e = match find_crlf(buf.buffered()) {
                    None => return Ok(ChunkProgress::NeedMore),
                    Some(e) => e,
                };
                let _have = buf.pending();
                proof {
                    lemma_crlf_in_bounds(buf@, 0);
                }
                let line = vstd::slice::slice_subrange(buf.buffered(), 0, e);
                assert(line@ =~= buf@.take(e as int));
                let size = match parse_chunk_size(line) {
                    Err(err) => return Err(err),
                    Ok(size) => size,
                };
                buf.consume(e + 2);
                if size == 0 {
                    self.phase = ChunkPhase::Trailers;
                } else {
                    self.phase = ChunkPhase::Data(size);
                }
                Ok(ChunkProgress::Advanced)
            },
            ChunkPhase::Data(size) => {
                let have = buf.pending();
                if have < 2 || have - 2 < size {
                    return Ok(ChunkProgress::NeedMore);
                }
                let b = buf.buffered();
                if b[size] == 13 && b[size + 1] == 10 {
                    self.bytes_in = self.bytes_in + size as u64;
                    buf.consume(size + 2);
                    self.phase = ChunkPhase::SizeLine;
                    Ok(ChunkProgress::Advanced)
                } else {
                    Err(RequestError::http(string_from_str("Invalid chunk terminator")))
                }
            },
            ChunkPhase::Trailers => {
                let e = match find_crlf(buf.buffered()) {
                    None => return Ok(ChunkProgress::NeedMore),
                    Some(e) => e,
                };
                let _have = buf.pending();
                proof {
                    lemma_crlf_in_bounds(buf@, 0);
                }
                buf.consume(e + 2);
                if e == 0 {
                    self.phase = ChunkPhase::Done;
                    Ok(ChunkProgress::Finished)
                } else {
                    Ok(ChunkProgress::Advanced)
                }
            },
            ChunkPhase::Done => Ok(ChunkProgress::Finished),
        }
    }

    /// The error for a connection that closed before the body was complete.
    pub fn eof_error(&self) -> (e: RequestError)
        ensures
            e.class == ErrorClass::Connect,
            e.message@ == (if self.phase is Data {
                "Connection closed while reading chunked body"@
            } else {
                "Connection closed while reading chunked line"@
            }),
    {
        match self.phase {
            ChunkPhase::Data(_) => RequestError::connect(string_from_str("Connection closed while reading chunked body")),
            _ => RequestError::connect(string_from_str("Connection closed while reading chunked line")),
        }
    }
}

/// The error for a connection that closed before the response head was
/// complete.
pub fn head_eof_error() -> (e: RequestError)
    ensures
        e.class == ErrorClass::Connect,
        e.message@ == "Connection closed while reading response headers"@,
{
    RequestError::connect(string_from_str("Connection closed while reading response headers"))
}

// ---------------------------------------------------------------------------
// I/O errors
// ---------------------------------------------------------------------------

/// The class of an I/O error of kind `kind` with text `msg` on a raw
/// HTTP/1.1 connection: by its kind where that decides, else TLS when the
/// lower-cased text mentions tls, certificate or ssl, else HTTP.
pub open spec fn h1_io_error_class(kind: IoErrorKind, msg: Seq<char>) -> ErrorClass {
    match io_kind_class(kind) {
        Some(c) => c,
        None => if lower_contains(msg, "tls"@) || lower_contains(msg, "certificate"@) || lower_contains(msg, "ssl"@) {
            ErrorClass::Tls
        } else {
            ErrorClass::Http
        },
    }
}

/// Classifies an I/O error on a raw HTTP/1.1 connection; the message is the
/// error's text.
pub fn classify_io_error(kind: IoErrorKind, msg: String) -> (e: RequestError)
    ensures
        e.class == h1_io_error_class(kind, msg@),
        e.message == msg,
{
    match kind {
        IoErrorKind::ConnectionRefused | IoErrorKind::ConnectionAborted | IoErrorKind::ConnectionReset
        | IoErrorKind::NotConnected | IoErrorKind::AddrNotAvailable | IoErrorKind::HostUnreachable
        | IoErrorKind::NetworkUnreachable => RequestError::connect(msg),
        IoErrorKind::TimedOut | IoErrorKind::WouldBlock => RequestError::timeout(msg),
        IoErrorKind::Other => {
            let lower = crate::text::to_lowercase(msg.as_str());
            if lower_contains_exec(lower.as_str(), "tls", Ghost(msg@))
                || lower_contains_exec(lower.as_str(), "certificate", Ghost(msg@))
                || lower_contains_exec(lower.as_str(), "ssl", Ghost(msg@)) {
                RequestError::tls(msg)
            } else {
                RequestError::http(msg)
            }
        },
    }
}

/// `word` occurs in the lower-cased text of `msg`.
pub open spec fn lower_text_has(msg: Seq<char>, word: Seq<char>) -> bool {
    exists|i: int| 0 <= i && i + word.len() <= unicode_lowercase(msg).len()
        && #[trigger] unicode_lowercase(msg).subrange(i, i + word.len()) == word
}

/// How an I/O error on a raw HTTP/1.1 connection is classed: one of kind
/// `Other` is a TLS error exactly when its lower-cased text mentions "tls",
/// "ssl" or "certificate", and an HTTP error otherwise; for every other
/// kind the text plays no part, and the class is a connect or timeout
/// error.
pub proof fn lemma_io_error_class_law(kind: IoErrorKind, msg: Seq<char>, other: Seq<char>)
    ensures
        kind == IoErrorKind::Other ==> (h1_io_error_class(kind, msg) == ErrorClass::Tls <==> (lower_text_has(
            msg,
            "tls"@,
        ) || lower_text_has(msg, "ssl"@) || lower_text_has(msg, "certificate"@))),
        kind == IoErrorKind::Other ==> (h1_io_error_class(kind, msg) == ErrorClass::Tls || h1_io_error_class(
            kind,
            msg,
        ) == ErrorClass::Http),
        kind != IoErrorKind::Other ==> h1_io_error_class(kind, msg) == h1_io_error_class(kind, other),
        kind != IoErrorKind::Other ==> (h1_io_error_class(kind, msg) == ErrorClass::Connect || h1_io_error_class(
            kind,
            msg,
        ) == ErrorClass::Timeout),
{
    lemma_lower_text_has(msg, "tls"@);
    lemma_lower_text_has(msg, "ssl"@);
    lemma_lower_text_has(msg, "certificate"@);
}

proof fn lemma_lower_text_has(msg: Seq<char>, word: Seq<char>)
    ensures
        lower_text_has(msg, word) == lower_contains(msg, word),
{
    let l = unicode_lowercase(msg);
    if lower_text_has(msg, word) {
        let i = choose|i: int| 0 <= i && i + word.len() <= l.len() && #[trigger] l.subrange(i, i + word.len()) == word;
        assert(crate::text::occurs_at(l, word, i));
    }
    if lower_contains(msg, word) {
        let i = choose|i: int| crate::text::occurs_at(l, word, i);
        assert(l.subrange(i, i + word.len()) == word);
    }
}

} // verus!
