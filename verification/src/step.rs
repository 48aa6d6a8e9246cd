//! Single scripted HTTP steps: the session defaults, checking a step before
//! it is sent, estimating what it sends, and building the step's answer.

use vstd::prelude::*;
use vstd::utf8::{decode_utf8, encode_utf8, valid_utf8};
use crate::bench::{check_header_name, check_header_value, http_header_name, http_header_value};
use crate::text::{push_chars, push_str, str_eq, string_from_str, trim};

verus! {

/// The protocol a step session uses.
#[derive(Clone, Copy, Debug, PartialEq, Eq, Structural)]
pub enum StepProtocol {
    H1,
    H2,
    H3,
}

/// What a step does with redirects.
#[derive(Clone, Copy, Debug, PartialEq, Eq, Structural)]
pub enum StepRedirectPolicy {
    Follow,
    Error,
    Manual,
}

impl Default for StepRedirectPolicy {
    fn default() -> (p: Self)
        ensures
            p == StepRedirectPolicy::Follow,
    {
        StepRedirectPolicy::Follow
    }
}

/// Step sessions keep cookies by default.
pub fn default_cookie_jar() -> (b: bool)
    ensures
        b,
{
    true
}

/// Captured response bodies are cut at 64 KiB by default.
pub fn default_response_body_limit() -> (n: usize)
    ensures
        n == 65536,
{
    65536
}

/// Response headers are reported by default.
pub fn default_response_headers() -> (b: bool)
    ensures
        b,
{
    true
}

/// The most redirects a following client takes; none for the others.
pub fn redirect_limit(policy: StepRedirectPolicy) -> (r: Option<usize>)
    ensures
        policy == StepRedirectPolicy::Follow ==> r == Some(10usize),
        policy != StepRedirectPolicy::Follow ==> r is None,
{
    match policy {
        StepRedirectPolicy::Follow => Some(10),
        _ => None,
    }
}

/// The redirect policy a step uses: its own, else the session's.
pub fn step_policy(request: Option<StepRedirectPolicy>, session: StepRedirectPolicy) -> (p: StepRedirectPolicy)
    ensures
        p == (match request { Some(q) => q, None => session }),
{
    match request {
        Some(q) => q,
        None => session,
    }
}

/// Whether a step sends cookies: its own choice, else the session's.
pub fn step_uses_cookies(request: Option<bool>, session: bool) -> (b: bool)
    ensures
        b == (match request { Some(q) => q, None => session }),
{
    match request {
        Some(q) => q,
        None => session,
    }
}

/// A step as the caller describes it.
#[derive(Debug)]
pub struct StepRequest {
    pub name: String,
    pub method: Option<String>,
    pub url: String,
    /// Headers, name and value, in the order given.
    pub headers: Vec<(String, String)>,
    pub body: Option<String>,
    pub redirect_policy: Option<StepRedirectPolicy>,
    pub capture_body: Option<bool>,
    pub use_cookies: Option<bool>,
}

/// What is wrong with a step request, if anything: its name and its URL
/// must not be blank.
pub open spec fn step_request_error(name: Seq<char>, url: Seq<char>) -> Option<Seq<char>> {
    if trim(name).len() == 0 {
        Some("step_request.name must not be empty"@)
    } else if trim(url).len() == 0 {
        Some("step_request.url must not be empty"@)
    } else {
        None
    }
}

/// Checks that a step request has a name and a URL.
pub fn validate_step_request(request: &StepRequest) -> (r: Result<(), String>)
    ensures
        match step_request_error(request.name@, request.url@) {
            None => r is Ok,
            Some(m) => r matches Err(e) && e@ == m,
        },
{
    let n = crate::bench::trimmed(request.name.as_str());
    if n.as_str().unicode_len() == 0 {
        return Err(string_from_str("step_request.name must not be empty"));
    }
    let u = crate::bench::trimmed(request.url.as_str());
    if u.as_str().unicode_len() == 0 {
        return Err(string_from_str("step_request.url must not be empty"));
    }
    Ok(())
}

/// The method a step uses: its own, else POST with a body and GET without.
pub open spec fn step_method(method: Option<Seq<char>>, has_body: bool) -> Seq<char> {
    match method {
        Some(m) => m,
        None => if has_body { "POST"@ } else { "GET"@ },
    }
}

/// The method of `request`.
pub fn method_of(request: &StepRequest) -> (m: String)
    ensures
        m@ == step_method(match request.method { Some(s) => Some(s@), None => None }, request.body is Some),
{
    match &request.method {
        Some(m) => string_from_str(m.as_str()),
        None => if request.body.is_some() {
            string_from_str("POST")
        } else {
            string_from_str("GET")
        },
    }
}

// ---------------------------------------------------------------------------
// Outside parsers
// ---------------------------------------------------------------------------

/// What `http::Method::from_bytes` says of these bytes: nothing when they
/// make a method, else the error's text.
pub uninterp spec fn http_method_error(bytes: Seq<u8>) -> Option<Seq<char>>;

/// Checks a method name with `http::Method::from_bytes`.
#[verifier::external_body]
fn check_method(name: &str) -> (r: Option<String>)
    ensures
        match r {
            None => http_method_error(encode_utf8(name@)) is None,
            Some(e) => http_method_error(encode_utf8(name@)) == Some(e@),
        },
{
    match http::Method::from_bytes(name.as_bytes()) {
        Ok(_) => None,
        Err(e) => Some(e.to_string()),
    }
}

/// Checks an HTTP method name as `http::Method` parses it; the error's
/// text where it is refused.
pub fn validate_method(method: &str) -> (r: Result<(), String>)
    ensures
        match http_method_error(encode_utf8(method@)) {
            None => r is Ok,
            Some(e) => r matches Err(m) && m@ == e,
        },
{
    match check_method(method) {
        None => Ok(()),
        Some(e) => Err(e),
    }
}

/// What `url::Url::parse` makes of `text`: the scheme, the path and the
/// query if any, or the error's text.
pub uninterp spec fn url_parse(text: Seq<char>) -> Result<(Seq<char>, Seq<char>, Option<Seq<char>>), Seq<char>>;

/// The parts of a parsed URL that steps use.
#[derive(Debug)]
pub struct UrlView {
    pub scheme: String,
    pub path: String,
    pub query: Option<String>,
}

/// Parses a URL with `url::Url::parse` (as re-exported by reqwest).
#[verifier::external_body]
fn parse_url(text: &str) -> (r: Result<UrlView, String>)
    ensures
        match r {
            Ok(u) => url_parse(text@) == Ok::<(Seq<char>, Seq<char>, Option<Seq<char>>), Seq<char>>(
                (u.scheme@, u.path@, match u.query { Some(q) => Some(q@), None => None })),
            Err(e) => url_parse(text@) == Err::<(Seq<char>, Seq<char>, Option<Seq<char>>), Seq<char>>(e@),
        },
{
    match reqwest::Url::parse(text) {
        Ok(u) => Ok(UrlView {
            scheme: u.scheme().to_string(),
            path: u.path().to_string(),
            query: u.query().map(|q| q.to_string()),
        }),
        Err(e) => Err(e.to_string()),
    }
}

/// What `String::from_utf8_lossy` makes of `bytes`: their decoding, with
/// each invalid sequence replaced by U+FFFD.
pub uninterp spec fn utf8_lossy(bytes: Seq<u8>) -> Seq<char>;

/// `String::from_utf8_lossy`; on valid UTF-8 it is the plain decoding.
#[verifier::external_body]
fn from_utf8_lossy(bytes: &[u8]) -> (s: String)
    ensures
        s@ == utf8_lossy(bytes@),
        valid_utf8(bytes@) ==> s@ == decode_utf8(bytes@),
{
    String::from_utf8_lossy(bytes).into_owned()
}

// ---------------------------------------------------------------------------
// Before sending
// ---------------------------------------------------------------------------

/// Why a step failed: a short code and a message.
#[derive(Debug)]
pub struct StepExecError {
    pub code: String,
    pub message: String,
}

/// The first problem with a step before it is sent, as code and message:
/// a bad method, a bad URL, an HTTP/3 session on a URL that is not https,
/// or a bad header (in order); or nothing.
pub open spec fn step_check(method: Seq<char>, url: Seq<char>, h3: bool, headers: Seq<(Seq<char>, Seq<char>)>) -> Option<(Seq<char>, Seq<char>)> {
    match http_method_error(encode_utf8(method)) {
        Some(e) => Some(("invalid_method"@, "invalid HTTP method '"@ + method + "': "@ + e)),
        None => match url_parse(url) {
            Err(e) => Some(("invalid_url"@, "invalid URL '"@ + url + "': "@ + e)),
            Ok((scheme, _, _)) => if h3 && scheme != "https"@ {
                Some(("invalid_url"@, "step session protocol 'h3' requires an https URL, got '"@ + url + "'"@))
            } else {
                header_check(headers)
            },
        },
    }
}

/// The first bad header of a step, as code and message.
pub open spec fn header_check(headers: Seq<(Seq<char>, Seq<char>)>) -> Option<(Seq<char>, Seq<char>)>
    decreases headers.len(),
{
    if headers.len() == 0 {
        None
    } else {
        match header_check(headers.drop_last()) {
            Some(e) => Some(e),
            None => {
                let (name, value) = headers.last();
                if http_header_name(name) is Err {
                    Some(("invalid_header_name"@, "invalid header name '"@ + name + "': "@ + http_header_name(name)->Err_0))
                } else if http_header_value(value) is Err {
                    Some(("invalid_header_value"@, "invalid value for header '"@ + name + "': "@ + http_header_value(value)->Err_0))
                } else {
                    None
                }
            },
        }
    }
}

/// The header texts of a step.
pub open spec fn step_headers_view(hs: Seq<(String, String)>) -> Seq<(Seq<char>, Seq<char>)> {
    hs.map_values(|h: (String, String)| (h.0@, h.1@))
}

fn exec_error(code: &str, message: String) -> (e: StepExecError)
    ensures
        e.code@ == code@,
        e.message == message,
{
    StepExecError { code: string_from_str(code), message }
}

/// Checks a step before it is sent, with `method` the method it uses and
/// `h3` whether the session speaks HTTP/3.
pub fn check_step(method: &str, request: &StepRequest, h3: bool) -> (r: Result<(), StepExecError>)
    ensures
        match step_check(method@, request.url@, h3, step_headers_view(request.headers@)) {
            None => r is Ok,
            Some((code, msg)) => r matches Err(e) && e.code@ == code && e.message@ == msg,
        },
{
    match check_method(method) {
        Some(e) => {
            let mut msg = string_from_str("invalid HTTP method '");
            push_str(&mut msg, method);
            push_str(&mut msg, "': ");
            push_str(&mut msg, e.as_str());
            return Err(exec_error("invalid_method", msg));
        },
        None => {},
    }
    let url = match parse_url(request.url.as_str()) {
        Err(e) => {
            let mut msg = string_from_str("invalid URL '");
            push_str(&mut msg, request.url.as_str());
            push_str(&mut msg, "': ");
            push_str(&mut msg, e.as_str());
            return Err(exec_error("invalid_url", msg));
        },
        Ok(u) => u,
    };
    if h3 && !str_eq(url.scheme.as_str(), "https") {
        let mut msg = string_from_str("step session protocol 'h3' requires an https URL, got '");
        push_str(&mut msg, request.url.as_str());
        push_str(&mut msg, "'");
        return Err(exec_error("invalid_url", msg));
    }
    let ghost hv = step_headers_view(request.headers@);
    assert(step_check(method@, request.url@, h3, hv) == header_check(hv));
    assert(hv.take(0) =~= Seq::<(Seq<char>, Seq<char>)>::empty());
    let mut i: usize = 0;
    while i < request.headers.len()
        invariant
            i <= request.headers@.len(),
            hv == step_headers_view(request.headers@),
            header_check(hv.take(i as int)) is None,
            step_check(method@, request.url@, h3, hv) == header_check(hv),
        decreases request.headers@.len() - i,
    {
        let name = request.headers[i].0.as_str();
        let value = request.headers[i].1.as_str();
        assert(hv.take(i as int + 1).drop_last() =~= hv.take(i as int));
        assert(hv.take(i as int + 1).last() == (name@, value@));
        match check_header_name(name) {
            Err(e) => {
                let mut msg = string_from_str("invalid header name '");
                push_str(&mut msg, name);
                push_str(&mut msg, "': ");
                push_str(&mut msg, e.as_str());
                proof {
                    lemma_header_check_extends(hv, i as int + 1);
                }
                return Err(exec_error("invalid_header_name", msg));
            },
            Ok(_) => {},
        }
        match check_header_value(value) {
            Err(e) => {
                let mut msg = string_from_str("invalid value for header '");
                push_str(&mut msg, name);
                push_str(&mut msg, "': ");
                push_str(&mut msg, e.as_str());
                proof {
                    lemma_header_check_extends(hv, i as int + 1);
                }
                return Err(exec_error("invalid_header_value", msg));
            },
            Ok(_) => {},
        }
        i = i + 1;
    }
    assert(hv.take(request.headers@.len() as int) =~= hv);
    Ok(())
}

proof fn lemma_header_check_extends(hs: Seq<(Seq<char>, Seq<char>)>, k: int)
    requires
        0 <= k <= hs.len(),
        header_check(hs.take(k)) is Some,
    ensures
        header_check(hs) == header_check(hs.take(k)),
    decreases hs.len() - k,
{
    if k < hs.len() {
        assert(hs.take(k + 1).drop_last() =~= hs.take(k));
        lemma_header_check_extends(hs, k + 1);
    } else {
        assert(hs.take(k) =~= hs);
    }
}

// ---------------------------------------------------------------------------
// What a step sends
// ---------------------------------------------------------------------------

/// The byte length of the URL's path and query as sent (`path` or
/// `path?query`), or of the whole URL text where it does not parse.
pub open spec fn path_query_len(url: Seq<char>) -> nat {
    match url_parse(url) {
        Ok((_, path, query)) => match query {
            Some(q) => encode_utf8(path + "?"@ + q).len(),
            None => encode_utf8(path).len(),
        },
        Err(_) => encode_utf8(url).len(),
    }
}

/// The headers' share of the estimate: names, values and four more bytes
/// each.
pub open spec fn step_headers_size(hs: Seq<(Seq<char>, Seq<char>)>) -> nat
    decreases hs.len(),
{
    if hs.len() == 0 {
        0
    } else {
        step_headers_size(hs.drop_last()) + encode_utf8(hs.last().0).len() + encode_utf8(hs.last().1).len() + 4
    }
}

/// The estimate of what a step sends: the request line (method, space,
/// path and query, and ten more bytes), the headers and the body.
pub open spec fn step_bytes_out(method: Seq<char>, url: Seq<char>, hs: Seq<(Seq<char>, Seq<char>)>, body: Option<Seq<char>>) -> nat {
    encode_utf8(method).len() + 1 + path_query_len(url) + 10 + step_headers_size(hs)
        + match body {
            Some(b) => encode_utf8(b).len(),
            None => 0,
        }
}

/// The byte length of `s`.
fn byte_len(s: &str) -> (n: usize)
    ensures
        n == encode_utf8(s@).len(),
{
    s.as_bytes().len()
}

/// Estimates the bytes a step sends, or `None` where the estimate does not
/// fit in a `u64`.
pub fn checked_estimate_bytes_out(method: &str, url: &str, headers: &[(String, String)], body: Option<&str>) -> (r: Option<u64>)
    ensures
        ({
            let est = step_bytes_out(method@, url@, step_headers_view(headers@), match body { Some(b) => Some(b@), None => None });
            &&& est <= u64::MAX ==> r == Some(est as u64)
            &&& est > u64::MAX ==> r is None
        }),
{
    let ghost est = step_bytes_out(method@, url@, step_headers_view(headers@), match body { Some(b) => Some(b@), None => None });
    let pq: u64 = match parse_url(url) {
        Ok(u) => match &u.query {
            Some(q) => {
                let mut s = string_from_str(u.path.as_str());
                push_str(&mut s, "?");
                push_str(&mut s, q.as_str());
                byte_len(s.as_str()) as u64
            },
            None => byte_len(u.path.as_str()) as u64,
        },
        Err(_) => byte_len(url) as u64,
    };
    let m = byte_len(method) as u64;
    if m > u64::MAX - 11 || pq > u64::MAX - 11 - m {
        proof { lemma_step_headers_prefix(step_headers_view(headers@), 0); }
        return None;
    }
    let mut size: u64 = m + 1 + pq + 10;
    let ghost hv = step_headers_view(headers@);
    let mut i: usize = 0;
    while i < headers.len()
        invariant
            i <= headers@.len(),
            hv == step_headers_view(headers@),
            est == step_bytes_out(method@, url@, hv, match body { Some(b) => Some(b@), None => None }),
            size == encode_utf8(method@).len() + 1 + path_query_len(url@) + 10 + step_headers_size(hv.take(i as int)),
        decreases headers@.len() - i,
    {
        proof {
            assert(hv.take(i as int + 1).drop_last() =~= hv.take(i as int));
            lemma_step_headers_prefix(hv, i as int + 1);
        }
        let k = byte_len(headers[i].0.as_str()) as u64;
        let v = byte_len(headers[i].1.as_str()) as u64;
        if k > u64::MAX - size || v > u64::MAX - size - k || 4 > u64::MAX - size - k - v {
            return None;
        }
        size = size + k + v + 4;
        i = i + 1;
    }
    assert(hv.take(headers@.len() as int) =~= hv);
    match body {
        Some(b) => {
            let n = byte_len(b) as u64;
            if n > u64::MAX - size {
                return None;
            }
            size = size + n;
        },
        None => {},
    }
    Some(size)
}

/// Estimates the bytes a step sends, where the estimate fits in a `u64`.
pub fn estimate_bytes_out(method: &str, url: &str, headers: &[(String, String)], body: Option<&str>) -> (r: u64)
    requires
        step_bytes_out(method@, url@, step_headers_view(headers@), match body { Some(b) => Some(b@), None => None }) <= u64::MAX,
    ensures
        r == step_bytes_out(method@, url@, step_headers_view(headers@), match body { Some(b) => Some(b@), None => None }),
{
    match checked_estimate_bytes_out(method, url, headers, body) {
        Some(v) => v,
        None => 0,
    }
}

proof fn lemma_step_headers_prefix(hs: Seq<(Seq<char>, Seq<char>)>, k: int)
    requires
        0 <= k <= hs.len(),
    ensures
        step_headers_size(hs.take(k)) <= step_headers_size(hs),
    decreases hs.len() - k,
{
    if k < hs.len() {
        lemma_step_headers_prefix(hs, k + 1);
        assert(hs.take(k + 1).drop_last() =~= hs.take(k));
    } else {
        assert(hs.take(k) =~= hs);
    }
}

// ---------------------------------------------------------------------------
// After sending
// ---------------------------------------------------------------------------

/// The text of a captured body and whether it was cut: with no room, an
/// empty text, cut when there was a body; a body within the limit whole;
/// otherwise its first `limit` bytes. Invalid UTF-8 is replaced.
pub open spec fn captured_body(bytes: Seq<u8>, limit: nat) -> (Seq<char>, bool) {
    if limit == 0 {
        (Seq::empty(), bytes.len() > 0)
    } else if bytes.len() <= limit {
        (utf8_lossy(bytes), false)
    } else {
        (utf8_lossy(bytes.take(limit as int)), true)
    }
}

/// Captures a response body as text, cut at `limit` bytes.
pub fn capture_body_text(bytes: &[u8], limit: usize) -> (r: (Option<String>, bool))
    ensures
        r.0 matches Some(t) && t@ == captured_body(bytes@, limit as nat).0,
        r.1 == captured_body(bytes@, limit as nat).1,
{
    if limit == 0 {
        return (Some(String::new()), bytes.len() > 0);
    }
    if bytes.len() <= limit {
        return (Some(from_utf8_lossy(bytes)), false);
    }
    let head = vstd::slice::slice_subrange(bytes, 0, limit);
    assert(head@ =~= bytes@.take(limit as int));
    (Some(from_utf8_lossy(head)), true)
}

/// Whether a response breaks the `error` redirect policy: a 3xx status
/// with a `Location` header.
pub fn redirect_refused(policy: StepRedirectPolicy, status: u16, has_location: bool) -> (r: bool)
    ensures
        r == (policy == StepRedirectPolicy::Error && 300 <= status < 400 && has_location),
{
    policy == StepRedirectPolicy::Error && 300 <= status && status < 400 && has_location
}

/// The error for a redirect the `error` policy refuses.
pub fn redirect_error(status: u16) -> (e: StepExecError)
    ensures
        e.code@ == "redirect_not_allowed"@,
        e.message@ == "received redirect status "@ + dec_string(status as nat) + " while redirect policy is 'error'"@,
{
    let mut msg = string_from_str("received redirect status ");
    let digits = crate::text::u64_to_dec(status as u64);
    push_chars(&mut msg, digits.as_slice());
    push_str(&mut msg, " while redirect policy is 'error'");
    exec_error("redirect_not_allowed", msg)
}

/// The code of a failed send, by what failed: timeout, connect, request,
/// body, in that order, else http.
pub fn send_error_code(is_timeout: bool, is_connect: bool, is_request: bool, is_body: bool) -> (c: String)
    ensures
        c@ == (if is_timeout { "timeout"@ } else if is_connect { "connect"@ } else if is_request {
            "request"@
        } else if is_body { "body"@ } else { "http"@ }),
{
    if is_timeout {
        string_from_str("timeout")
    } else if is_connect {
        string_from_str("connect")
    } else if is_request {
        string_from_str("request")
    } else if is_body {
        string_from_str("body")
    } else {
        string_from_str("http")
    }
}

use crate::text::dec_string;

/// The HTTP versions a response reports.
#[derive(Clone, Copy, Debug, PartialEq, Eq, Structural)]
pub enum HttpVersion {
    Http09,
    Http10,
    Http11,
    H2,
    H3,
}

/// The name a step reports for an HTTP version.
pub open spec fn version_name(v: HttpVersion) -> Seq<char> {
    match v {
        HttpVersion::Http09 => "http/0.9"@,
        HttpVersion::Http10 => "http/1.0"@,
        HttpVersion::Http11 => "http/1.1"@,
        HttpVersion::H2 => "h2"@,
        HttpVersion::H3 => "h3"@,
    }
}

pub fn map_http_version(v: HttpVersion) -> (s: String)
    ensures
        s@ == version_name(v),
{
    match v {
        HttpVersion::Http09 => string_from_str("http/0.9"),
        HttpVersion::Http10 => string_from_str("http/1.0"),
        HttpVersion::Http11 => string_from_str("http/1.1"),
        HttpVersion::H2 => string_from_str("h2"),
        HttpVersion::H3 => string_from_str("h3"),
    }
}

/// Response headers with the values of repeated names joined by `, `, in
/// the order the names first appear.
pub open spec fn joined_headers(hs: Seq<(Seq<char>, Seq<char>)>) -> Seq<(Seq<char>, Seq<char>)>
    decreases hs.len(),
{
    if hs.len() == 0 {
        Seq::empty()
    } else {
        let done = joined_headers(hs.drop_last());
        let (name, value) = hs.last();
        match index_of_name(done, name) {
            Some(i) => done.update(i, (name, done[i].1 + ", "@ + value)),
            None => done.push((name, value)),
        }
    }
}

/// Where `name` stands in `hs`, if it does.
pub open spec fn index_of_name(hs: Seq<(Seq<char>, Seq<char>)>, name: Seq<char>) -> Option<int>
    decreases hs.len(),
{
    if hs.len() == 0 {
        None
    } else if hs.last().0 == name {
        Some(hs.len() - 1)
    } else {
        index_of_name(hs.drop_last(), name)
    }
}

/// Joins the values of repeated response header names.
pub fn collect_response_headers(headers: &[(String, String)]) -> (out: Vec<(String, String)>)
    ensures
        step_headers_view(out@) == joined_headers(step_headers_view(headers@)),
{
    let ghost hv = step_headers_view(headers@);
    let mut out: Vec<(String, String)> = Vec::new();
    assert(hv.take(0) =~= Seq::<(Seq<char>, Seq<char>)>::empty());
    assert(step_headers_view(out@) =~= Seq::<(Seq<char>, Seq<char>)>::empty());
    let mut i: usize = 0;
    while i < headers.len()
        invariant
            i <= headers@.len(),
            hv == step_headers_view(headers@),
            step_headers_view(out@) == joined_headers(hv.take(i as int)),
        decreases headers@.len() - i,
    {
        let name = headers[i].0.as_str();
        let value = headers[i].1.as_str();
        let ghost done = step_headers_view(out@);
        assert(hv.take(i as int + 1).drop_last() =~= hv.take(i as int));
        assert(hv.take(i as int + 1).last() == (name@, value@));
        // Find the last entry with this name (names occur once in `out`).
        let mut j: usize = out.len();
        assert(done.take(j as int) =~= done);
        while j > 0 && !str_eq(out[j - 1].0.as_str(), name)
            invariant
                j <= out@.len(),
                done == step_headers_view(out@),
                index_of_name(done, name@) == index_of_name(done.take(j as int), name@),
            decreases j,
        {
            assert(done.take(j as int).drop_last() =~= done.take(j - 1));
            j = j - 1;
        }
        if j == 0 {
            proof {
                assert(done.take(0) =~= Seq::<(Seq<char>, Seq<char>)>::empty());
            }
            out.push((string_from_str(name), string_from_str(value)));
            assert(step_headers_view(out@) =~= done.push((name@, value@)));
        } else {
            proof {
                assert(done.take(j as int).last() == done[j - 1]);
                assert(index_of_name(done.take(j as int), name@) == Some(j - 1));
            }
            let mut joined = string_from_str(out[j - 1].1.as_str());
            push_str(&mut joined, ", ");
            push_str(&mut joined, value);
            let key = string_from_str(name);
            let ghost prev = out@;
            out.set(j - 1, (key, joined));
            assert(step_headers_view(out@) =~= done.update(j - 1, (name@, done[j - 1].1 + ", "@ + value@)));
        }
        i = i + 1;
    }
    assert(hv.take(headers@.len() as int) =~= hv);
    out
}

/// The answer to a step: whether it worked, what came back, and the error
/// where it did not.
#[derive(Debug)]
pub struct StepResponse {
    pub ok: bool,
    pub status: Option<u16>,
    pub url_final: Option<String>,
    pub http_version: Option<String>,
    pub latency_us: Option<u64>,
    pub ttfb_us: Option<u64>,
    pub bytes_in: u64,
    pub bytes_out: u64,
    pub headers: Vec<(String, String)>,
    pub body: Option<String>,
    pub body_truncated: bool,
    pub redirect_count: u32,
    pub step_name: String,
    pub error: Option<StepExecError>,
}

impl StepResponse {
    /// The answer for a step that failed with `code` and `message`: not ok,
    /// nothing received, the URL as the final one.
    pub fn error(step_name: &str, url: &str, code: &str, message: String) -> (r: Self)
        ensures
            !r.ok,
            r.status is None,
            r.url_final matches Some(u) && u@ == url@,
            r.http_version is None,
            r.latency_us is None,
            r.ttfb_us is None,
            r.bytes_in == 0,
            r.bytes_out == 0,
            r.headers@.len() == 0,
            r.body is None,
            !r.body_truncated,
            r.redirect_count == 0,
            r.step_name@ == step_name@,
            r.error matches Some(e) && e.code@ == code@ && e.message == message,
    {
        StepResponse {
            ok: false,
            status: None,
            url_final: Some(string_from_str(url)),
            http_version: None,
            latency_us: None,
            ttfb_us: None,
            bytes_in: 0,
            bytes_out: 0,
            headers: Vec::new(),
            body: None,
            body_truncated: false,
            redirect_count: 0,
            step_name: string_from_str(step_name),
            error: Some(StepExecError { code: string_from_str(code), message }),
        }
    }
}

/// Redirects a step took: one when the final URL differs from the one
/// asked for.
pub fn redirect_count(url: &str, final_url: &str) -> (n: u32)
    ensures
        n == (if url@ == final_url@ { 0u32 } else { 1u32 }),
{
    if str_eq(url, final_url) {
        0
    } else {
        1
    }
}

} // verus!
