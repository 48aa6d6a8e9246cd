//! Benchmark configuration: defaults, validation, header parsing and the
//! choices a run makes from its configuration.

use vstd::prelude::*;
use vstd::utf8::encode_utf8;
use crate::cli::Protocol;
use crate::driver::IpVersion;
use crate::h1::push_bytes;
use crate::text::{chars_of, push_chars, push_str, str_eq, string_from_chars, string_from_str, trim, trim_bounds};
use crate::tls::names_view;

verus! {

/// The protocol named in a benchmark configuration.
#[derive(Clone, Copy, Debug, PartialEq, Eq, Structural)]
pub enum BenchProtocol {
    H1,
    H2,
    H3,
}

impl Default for BenchProtocol {
    fn default() -> (p: Self)
        ensures
            p == BenchProtocol::H1,
    {
        BenchProtocol::H1
    }
}

/// The protocol a configured protocol stands for.
pub open spec fn protocol_of(value: BenchProtocol) -> Protocol {
    match value {
        BenchProtocol::H1 => Protocol::H1,
        BenchProtocol::H2 => Protocol::H2,
        BenchProtocol::H3 => Protocol::H3,
    }
}

impl From<BenchProtocol> for Protocol {
    fn from(value: BenchProtocol) -> (p: Protocol) {
        match value {
            BenchProtocol::H1 => Protocol::H1,
            BenchProtocol::H2 => Protocol::H2,
            BenchProtocol::H3 => Protocol::H3,
        }
    }
}

impl vstd::std_specs::convert::FromSpecImpl<BenchProtocol> for Protocol {
    open spec fn obeys_from_spec() -> bool {
        true
    }

    open spec fn from_spec(value: BenchProtocol) -> Protocol {
        protocol_of(value)
    }
}

/// A header given in a benchmark configuration.
#[derive(Debug)]
pub struct BenchHeader {
    pub name: String,
    pub value: String,
}

/// The default HTTP method.
pub fn default_method() -> (s: String)
    ensures
        s@ == "GET"@,
{
    string_from_str("GET")
}

/// The default number of requests.
pub fn default_requests() -> (n: u64)
    ensures
        n == 1,
{
    1
}

/// The default number of clients.
pub fn default_clients() -> (n: usize)
    ensures
        n == 1,
{
    1
}

/// The default number of worker threads.
pub fn default_threads() -> (n: usize)
    ensures
        n == 1,
{
    1
}

/// The default number of concurrent streams per client.
pub fn default_max_streams() -> (n: u32)
    ensures
        n == 1,
{
    1
}

/// The default metrics sample rate: every request.
pub fn default_metrics_sample() -> (n: u32)
    ensures
        n == 1,
{
    1
}

/// The first complaint about the integer settings of a configuration, in
/// the order they are checked; `rps_invalid` tells whether a rate was given
/// that is not a finite positive number.
pub open spec fn config_error(clients: usize, threads: usize, max_streams: u32, metrics_sample: u32, rps_invalid: bool, v4: bool, v6: bool) -> Option<Seq<char>> {
    if clients == 0 {
        Some("clients must be >= 1"@)
    } else if threads == 0 {
        Some("threads must be >= 1"@)
    } else if max_streams == 0 {
        Some("max_streams must be >= 1"@)
    } else if metrics_sample == 0 {
        Some("metrics_sample must be >= 1"@)
    } else if rps_invalid {
        Some("rps must be > 0"@)
    } else if v4 && v6 {
        Some("v4 and v6 cannot both be true"@)
    } else {
        None
    }
}

/// Validates the settings of a benchmark configuration.
pub fn validate_config(clients: usize, threads: usize, max_streams: u32, metrics_sample: u32, rps_invalid: bool, v4: bool, v6: bool) -> (r: Result<(), String>)
    ensures
        match config_error(clients, threads, max_streams, metrics_sample, rps_invalid, v4, v6) {
            None => r is Ok,
            Some(m) => r matches Err(e) && e@ == m,
        },
{
    if clients == 0 {
        return Err(string_from_str("clients must be >= 1"));
    }
    if threads == 0 {
        return Err(string_from_str("threads must be >= 1"));
    }
    if max_streams == 0 {
        return Err(string_from_str("max_streams must be >= 1"));
    }
    if metrics_sample == 0 {
        return Err(string_from_str("metrics_sample must be >= 1"));
    }
    if rps_invalid {
        return Err(string_from_str("rps must be > 0"));
    }
    if v4 && v6 {
        return Err(string_from_str("v4 and v6 cannot both be true"));
    }
    Ok(())
}

/// What a URL's scheme allows: `http` and `https` pass; any other scheme,
/// or none, is refused with its text.
pub open spec fn scheme_error(scheme: Option<Seq<char>>) -> Option<Seq<char>> {
    match scheme {
        Some(s) => if s == "http"@ || s == "https"@ {
            None
        } else {
            Some("Unsupported URL scheme: "@ + s)
        },
        None => Some("URL must have a scheme (http:// or https://)"@),
    }
}

/// Checks that a target URL's scheme is `http` or `https`.
pub fn check_scheme(scheme: Option<&str>) -> (r: Result<(), String>)
    ensures
        match scheme_error(match scheme { Some(s) => Some(s@), None => None }) {
            None => r is Ok,
            Some(m) => r matches Err(e) && e@ == m,
        },
{
    match scheme {
        Some(s) => {
            if crate::text::str_eq(s, "http") || crate::text::str_eq(s, "https") {
                Ok(())
            } else {
                let mut msg = string_from_str("Unsupported URL scheme: ");
                push_str(&mut msg, s);
                Err(msg)
            }
        },
        None => Err(string_from_str("URL must have a scheme (http:// or https://)")),
    }
}

/// The IP version the `v4` and `v6` settings force, `v4` first.
pub fn forced_ip_version(v4: bool, v6: bool) -> (r: Option<IpVersion>)
    ensures
        r == (if v4 { Some(IpVersion::V4) } else if v6 { Some(IpVersion::V6) } else { None::<IpVersion> }),
{
    if v4 {
        Some(IpVersion::V4)
    } else if v6 {
        Some(IpVersion::V6)
    } else {
        None
    }
}

/// Whether TCP_QUICKACK was asked for on HTTP/3, which does not run over
/// TCP and so ignores it.
pub fn quickack_ignored(protocol: Protocol, enabled: bool) -> (r: bool)
    ensures
        r == (enabled && protocol == Protocol::H3),
{
    enabled && protocol == Protocol::H3
}

/// Whether a URL host names the loopback interface.
pub fn is_loopback_host(host: &str) -> (r: bool)
    ensures
        r == (host@ == "localhost"@ || host@ == "127.0.0.1"@ || host@ == "::1"@),
{
    str_eq(host, "localhost") || str_eq(host, "127.0.0.1") || str_eq(host, "::1")
}

/// How many of the interface names `names` are not the loopback `lo`.
pub open spec fn non_loopback_count(names: Seq<Seq<char>>) -> nat
    decreases names.len(),
{
    if names.len() == 0 {
        0
    } else {
        non_loopback_count(names.drop_last()) + if names.last() == "lo"@ { 0nat } else { 1nat }
    }
}

/// Whether a container's network looks like its own, from the names of its
/// network interfaces: at most one besides loopback.
pub fn likely_isolated_network(names: &Vec<String>) -> (r: bool)
    ensures
        r == (non_loopback_count(names_view(names@)) <= 1),
{
    let mut count: usize = 0;
    let mut i: usize = 0;
    while i < names.len()
        invariant
            i <= names@.len(),
            count == non_loopback_count(names_view(names@).take(i as int)),
            count <= i,
        decreases names@.len() - i,
    {
        proof {
            assert(names_view(names@).take(i as int + 1).drop_last() =~= names_view(names@).take(i as int));
        }
        if !str_eq(names[i].as_str(), "lo") {
            count = count + 1;
        }
        i = i + 1;
    }
    assert(names_view(names@).take(names@.len() as int) =~= names_view(names@));
    count <= 1
}

/// How a run is bounded: by time, with no request limit, or by a count.
pub open spec fn run_mode(duration_given: bool, requests: u64) -> (u64, Seq<char>) {
    if duration_given {
        (u64::MAX, "duration"@)
    } else {
        (requests, "count"@)
    }
}

/// The request budget and the mode name of a run.
pub fn run_mode_of(duration_given: bool, requests: u64) -> (r: (u64, String))
    ensures
        r.0 == run_mode(duration_given, requests).0,
        r.1@ == run_mode(duration_given, requests).1,
{
    if duration_given {
        (u64::MAX, string_from_str("duration"))
    } else {
        (requests, string_from_str("count"))
    }
}

// ---------------------------------------------------------------------------
// Headers
// ---------------------------------------------------------------------------

/// What `http::HeaderName::try_from` makes of `text`: the name as it stores
/// it, or the error's text.
pub uninterp spec fn http_header_name(text: Seq<char>) -> Result<Seq<char>, Seq<char>>;

/// What `http::HeaderValue::from_str` makes of `text`: the value's bytes,
/// or the error's text.
pub uninterp spec fn http_header_value(text: Seq<char>) -> Result<Seq<u8>, Seq<char>>;

/// Checks a header name with `http::HeaderName::try_from`.
#[verifier::external_body]
pub(crate) fn check_header_name(text: &str) -> (r: Result<String, String>)
    ensures
        match r {
            Ok(n) => http_header_name(text@) == Ok::<Seq<char>, Seq<char>>(n@),
            Err(e) => http_header_name(text@) == Err::<Seq<char>, Seq<char>>(e@),
        },
        r matches Err(e) ==> e@ == "invalid HTTP header name"@,
{
    match http::HeaderName::try_from(text) {
        Ok(n) => Ok(n.as_str().to_string()),
        Err(e) => Err(e.to_string()),
    }
}

/// Checks a header value with `http::HeaderValue::from_str`.
#[verifier::external_body]
pub(crate) fn check_header_value(text: &str) -> (r: Result<Vec<u8>, String>)
    ensures
        match r {
            Ok(v) => http_header_value(text@) == Ok::<Seq<u8>, Seq<char>>(v@),
            Err(e) => http_header_value(text@) == Err::<Seq<u8>, Seq<char>>(e@),
        },
        r matches Err(e) ==> e@ == "failed to parse header value"@,
{
    match http::HeaderValue::from_str(text) {
        Ok(v) => Ok(v.as_bytes().to_vec()),
        Err(e) => Err(e.to_string()),
    }
}

/// One header from its name and value texts: both trimmed and checked, the
/// name giving bytes as stored; or the error text.
pub open spec fn header_of(name: Seq<char>, value: Seq<char>) -> Result<(Seq<u8>, Seq<u8>), Seq<char>> {
    match http_header_name(trim(name)) {
        Err(e) => Err("Invalid header name '"@ + trim(name) + "': "@ + e),
        Ok(n) => match http_header_value(trim(value)) {
            Err(e) => Err("Invalid header value for '"@ + n + "': "@ + e),
            Ok(v) => Ok((encode_utf8(n), v)),
        },
    }
}

/// Trims `s` as `str::trim` does.
pub fn trimmed(s: &str) -> (r: String)
    ensures
        r@ == trim(s@),
{
    let cs = chars_of(s);
    let (a, b) = trim_bounds(cs.as_slice(), 0, cs.len());
    assert(cs@.subrange(0, cs@.len() as int) =~= cs@);
    let part = vstd::slice::slice_subrange(cs.as_slice(), a, b);
    string_from_chars(part)
}

/// Parses one header from its name and value texts.
pub fn parse_header(name: &str, value: &str) -> (r: Result<(Vec<u8>, Vec<u8>), String>)
    ensures
        match header_of(name@, value@) {
            Ok((n, v)) => r matches Ok(h) && h.0@ == n && h.1@ == v,
            Err(m) => r matches Err(e) && e@ == m,
        },
{
    let tname = trimmed(name);
    let n = match check_header_name(tname.as_str()) {
        Err(e) => {
            let mut msg = string_from_str("Invalid header name '");
            push_str(&mut msg, tname.as_str());
            push_str(&mut msg, "': ");
            push_str(&mut msg, e.as_str());
            return Err(msg);
        },
        Ok(n) => n,
    };
    let tvalue = trimmed(value);
    match check_header_value(tvalue.as_str()) {
        Err(e) => {
            let mut msg = string_from_str("Invalid header value for '");
            push_str(&mut msg, n.as_str());
            push_str(&mut msg, "': ");
            push_str(&mut msg, e.as_str());
            Err(msg)
        },
        Ok(v) => {
            let mut nb: Vec<u8> = Vec::new();
            push_bytes(&mut nb, n.as_str().as_bytes());
            Ok((nb, v))
        },
    }
}

/// The headers of a configuration, in order, or the first error.
pub open spec fn headers_of(hs: Seq<(Seq<char>, Seq<char>)>) -> Result<Seq<(Seq<u8>, Seq<u8>)>, Seq<char>>
    decreases hs.len(),
{
    if hs.len() == 0 {
        Ok(Seq::empty())
    } else {
        match headers_of(hs.drop_last()) {
            Err(e) => Err(e),
            Ok(done) => match header_of(hs.last().0, hs.last().1) {
                Err(e) => Err(e),
                Ok(h) => Ok(done.push(h)),
            },
        }
    }
}

/// The name and value texts of configured headers.
pub open spec fn bench_headers_view(hs: Seq<BenchHeader>) -> Seq<(Seq<char>, Seq<char>)> {
    hs.map_values(|h: BenchHeader| (h.name@, h.value@))
}

/// Parses the headers of a benchmark configuration.
pub fn parse_headers(headers: &[BenchHeader]) -> (r: Result<Vec<(Vec<u8>, Vec<u8>)>, String>)
    ensures
        match headers_of(bench_headers_view(headers@)) {
            Ok(hs) => r matches Ok(v) && crate::driver::headers_view(v@) == hs,
            Err(m) => r matches Err(e) && e@ == m,
        },
{
    let ghost all = bench_headers_view(headers@);
    let mut parsed: Vec<(Vec<u8>, Vec<u8>)> = Vec::new();
    assert(all.take(0) =~= Seq::<(Seq<char>, Seq<char>)>::empty());
    assert(crate::driver::headers_view(parsed@) =~= Seq::<(Seq<u8>, Seq<u8>)>::empty());
    let mut i: usize = 0;
    while i < headers.len()
        invariant
            i <= headers@.len(),
            all == bench_headers_view(headers@),
            headers_of(all.take(i as int)) == Ok::<Seq<(Seq<u8>, Seq<u8>)>, Seq<char>>(crate::driver::headers_view(parsed@)),
        decreases headers@.len() - i,
    {
        let h = &headers[i];
        assert(all.take(i as int + 1).drop_last() =~= all.take(i as int));
        assert(all.take(i as int + 1).last() == (h.name@, h.value@));
        match parse_header(h.name.as_str(), h.value.as_str()) {
            Err(e) => {
                proof {
                    lemma_headers_of_err_extends(all, i as int + 1);
                }
                return Err(e);
            },
            Ok(p) => {
                let ghost before = parsed@;
                parsed.push(p);
                assert(crate::driver::headers_view(parsed@) =~= crate::driver::headers_view(before).push((p.0@, p.1@)));
            },
        }
        i = i + 1;
    }
    assert(all.take(headers@.len() as int) =~= all);
    Ok(parsed)
}

/// Once a prefix of the headers fails, all of them fail the same way.
pub proof fn lemma_headers_of_err_extends(hs: Seq<(Seq<char>, Seq<char>)>, k: int)
    requires
        0 <= k <= hs.len(),
        headers_of(hs.take(k)) is Err,
    ensures
        headers_of(hs) == headers_of(hs.take(k)),
    decreases hs.len() - k,
{
    if k < hs.len() {
        assert(hs.take(k + 1).drop_last() =~= hs.take(k));
        lemma_headers_of_err_extends(hs, k + 1);
    } else {
        assert(hs.take(k) =~= hs);
    }
}

} // verus!
