//! Protocol-independent parts of the connection drivers: request results and
//! errors, TLS details, error classification, address selection, target
//! resolution and request size estimates.

use vstd::prelude::*;
use crate::metrics::{AddrFamily, ErrorClass};
use crate::text::{
    ascii_lower_char, contains_seq, push_str, str_contains, string_from_str, unicode_lowercase,
};
use crate::text::dec_string;

verus! {

/// A forced IP version for name resolution.
#[derive(Clone, Copy, Debug, PartialEq, Eq, Structural)]
pub enum IpVersion {
    V4,
    V6,
}

/// The result of a single HTTP request.
#[derive(Debug)]
pub struct RequestResult {
    /// HTTP status code.
    pub status: u16,
    /// End-to-end latency in microseconds.
    pub latency_us: u64,
    /// Time to first byte in microseconds.
    pub ttfb_us: u64,
    /// Response body bytes received.
    pub bytes_in: u64,
    /// Request bytes sent (estimate).
    pub bytes_out: u64,
}

/// A failed request, with its class.
#[derive(Debug)]
pub struct RequestError {
    pub class: ErrorClass,
    pub message: String,
}

impl RequestError {
    pub fn connect(msg: String) -> (e: Self)
        ensures
            e.class == ErrorClass::Connect,
            e.message == msg,
    {
        RequestError { class: ErrorClass::Connect, message: msg }
    }

    pub fn tls(msg: String) -> (e: Self)
        ensures
            e.class == ErrorClass::Tls,
            e.message == msg,
    {
        RequestError { class: ErrorClass::Tls, message: msg }
    }

    pub fn timeout(msg: String) -> (e: Self)
        ensures
            e.class == ErrorClass::Timeout,
            e.message == msg,
    {
        RequestError { class: ErrorClass::Timeout, message: msg }
    }

    pub fn http(msg: String) -> (e: Self)
        ensures
            e.class == ErrorClass::Http,
            e.message == msg,
    {
        RequestError { class: ErrorClass::Http, message: msg }
    }

    /// The text form `"{class:?}: {message}"`.
    pub fn describe(&self) -> (s: String)
        ensures
            s@ == class_name(self.class) + ": "@ + self.message@,
    {
        let mut s = match self.class {
            ErrorClass::Connect => string_from_str("Connect"),
            ErrorClass::Tls => string_from_str("Tls"),
            ErrorClass::Timeout => string_from_str("Timeout"),
            ErrorClass::Http => string_from_str("Http"),
        };
        crate::text::push_str(&mut s, ": ");
        crate::text::push_str(&mut s, self.message.as_str());
        s
    }
}

/// The debug name of an error class.
pub open spec fn class_name(c: ErrorClass) -> Seq<char> {
    match c {
        ErrorClass::Connect => "Connect"@,
        ErrorClass::Tls => "Tls"@,
        ErrorClass::Timeout => "Timeout"@,
        ErrorClass::Http => "Http"@,
    }
}

/// What every connection needs to know of the request it sends.
#[derive(Debug)]
pub struct RequestConfig {
    /// The target URL as given.
    pub url: String,
    /// The HTTP method.
    pub method: String,
    /// The URL's path and query, where it has one.
    pub path_query: Option<String>,
    /// Extra headers, name and value as bytes, in order.
    pub headers: Vec<(Vec<u8>, Vec<u8>)>,
    /// The request body, if any.
    pub body: Option<Vec<u8>>,
    /// Per-request timeout.
    pub request_timeout: std::time::Duration,
    /// Yield to the scheduler more often, for lower tail latency.
    pub tail_friendly: bool,
}

/// The headers of a request config as byte strings.
pub open spec fn headers_view(hs: Seq<(Vec<u8>, Vec<u8>)>) -> Seq<(Seq<u8>, Seq<u8>)> {
    hs.map_values(|h: (Vec<u8>, Vec<u8>)| (h.0@, h.1@))
}

/// The TLS protocol and cipher a connection negotiated, where known.
#[derive(Clone, Debug)]
pub struct TlsInfo {
    pub protocol: Option<String>,
    pub cipher: Option<String>,
}

impl TlsInfo {
    pub fn is_empty(&self) -> (r: bool)
        ensures
            r == (self.protocol is None && self.cipher is None),
    {
        self.protocol.is_none() && self.cipher.is_none()
    }
}

/// The protocol label a TLS version is shown by: `TLSv1.3` and `TLSv1.2`
/// for the two versions in use, else the version's debug name.
pub open spec fn tls_protocol_label(debug_name: Seq<char>) -> Seq<char> {
    if debug_name == "TLSv1_3"@ {
        "TLSv1.3"@
    } else if debug_name == "TLSv1_2"@ {
        "TLSv1.2"@
    } else {
        debug_name
    }
}

/// Labels a negotiated TLS version given by its debug name.
pub fn format_rustls_protocol(debug_name: &str) -> (s: String)
    ensures
        s@ == tls_protocol_label(debug_name@),
{
    if crate::text::str_eq(debug_name, "TLSv1_3") {
        string_from_str("TLSv1.3")
    } else if crate::text::str_eq(debug_name, "TLSv1_2") {
        string_from_str("TLSv1.2")
    } else {
        string_from_str(debug_name)
    }
}

/// The label of a cipher suite: its debug name, with a leading `TLS13_`
/// written `TLS_`.
pub open spec fn cipher_label(debug_name: Seq<char>) -> Seq<char> {
    if debug_name.len() >= 6 && debug_name.take(6) == "TLS13_"@ {
        "TLS_"@ + debug_name.skip(6)
    } else {
        debug_name
    }
}

/// Labels a negotiated cipher suite given by its debug name.
pub fn format_rustls_cipher(debug_name: &str) -> (s: String)
    ensures
        s@ == cipher_label(debug_name@),
{
    let cs = crate::text::chars_of(debug_name);
    let prefix = crate::text::chars_of("TLS13_");
    proof {
        reveal_strlit("TLS13_");
    }
    if cs.len() >= 6 && crate::text::chars_prefix_eq(cs.as_slice(), prefix.as_slice()) {
        let mut s = string_from_str("TLS_");
        let rest = vstd::slice::slice_subrange(cs.as_slice(), 6, cs.len());
        crate::text::push_chars(&mut s, rest);
        assert(rest@ =~= debug_name@.skip(6));
        s
    } else {
        string_from_str(debug_name)
    }
}

/// A connection of a benchmark, by the protocol it speaks. The open socket
/// and protocol state live with the caller.
#[derive(Clone, Copy, Debug, PartialEq, Eq, Structural)]
pub enum Connection {
    H1Raw,
    H2,
    H3,
}

impl Connection {
    /// Another handle on the same connection for one more lane: HTTP/2 and
    /// HTTP/3 connections share their streams, a raw HTTP/1.1 connection
    /// does not.
    pub fn clone_stream_handle(&self) -> (r: Option<Connection>)
        ensures
            *self == Connection::H1Raw ==> r is None,
            *self != Connection::H1Raw ==> r == Some(*self),
    {
        match self {
            Connection::H1Raw => None,
            Connection::H2 => Some(Connection::H2),
            Connection::H3 => Some(Connection::H3),
        }
    }

    /// The connection's TLS details `info`, unless nothing is known.
    pub fn tls_info<'a>(&self, info: &'a TlsInfo) -> (r: Option<&'a TlsInfo>)
        ensures
            (info.protocol is None && info.cipher is None) ==> r is None,
            !(info.protocol is None && info.cipher is None) ==> r == Some(info),
    {
        if info.is_empty() {
            None
        } else {
            Some(info)
        }
    }
}

/// What opens connections for a benchmark, by protocol. Its target and
/// settings live with the caller.
#[derive(Clone, Copy, Debug, PartialEq, Eq, Structural)]
pub enum ConnectionFactory {
    H1Raw,
    H2,
    H3,
}

impl ConnectionFactory {
    /// Whether one connection carries several request lanes at once: HTTP/2
    /// and HTTP/3 connections do, raw HTTP/1.1 connections do not.
    pub fn supports_multiplexed_lanes(&self) -> (r: bool)
        ensures
            r == (*self != ConnectionFactory::H1Raw),
    {
        match self {
            ConnectionFactory::H1Raw => false,
            ConnectionFactory::H2 => true,
            ConnectionFactory::H3 => true,
        }
    }
}

// ---------------------------------------------------------------------------
// Error classification
// ---------------------------------------------------------------------------

/// The kinds of I/O error the drivers tell apart.
#[derive(Clone, Copy, Debug, PartialEq, Eq, Structural)]
pub enum IoErrorKind {
    ConnectionRefused,
    ConnectionAborted,
    ConnectionReset,
    NotConnected,
    AddrNotAvailable,
    HostUnreachable,
    NetworkUnreachable,
    TimedOut,
    WouldBlock,
    Other,
}

/// The class an I/O error kind implies by itself, if any.
pub open spec fn io_kind_class(k: IoErrorKind) -> Option<ErrorClass> {
    match k {
        IoErrorKind::TimedOut | IoErrorKind::WouldBlock => Some(ErrorClass::Timeout),
        IoErrorKind::Other => None,
        _ => Some(ErrorClass::Connect),
    }
}

/// `text`, lower-cased as `str::to_lowercase` does, contains `word`.
pub open spec fn lower_contains(text: Seq<char>, word: Seq<char>) -> bool {
    contains_seq(unicode_lowercase(text), word)
}

/// Whether `text`, lower-cased, contains `word`.
pub(crate) fn lower_contains_exec(lower: &str, word: &str, Ghost(text): Ghost<Seq<char>>) -> (r: bool)
    requires
        lower@ == unicode_lowercase(text),
    ensures
        r == lower_contains(text, word@),
{
    str_contains(lower, word)
}

// ---------------------------------------------------------------------------
// Targets and addresses
// ---------------------------------------------------------------------------

/// The parts of a request URI that connections use.
#[derive(Debug)]
pub struct UriParts {
    pub scheme: Option<String>,
    pub host: Option<String>,
    pub port: Option<u16>,
    pub authority: Option<String>,
    pub path_query: Option<String>,
}

/// The view of an optional string.
pub open spec fn opt_view(s: Option<String>) -> Option<Seq<char>> {
    match s {
        Some(t) => Some(t@),
        None => None,
    }
}

/// The parts of a URI as plain values: scheme, host, port, authority, path
/// and query.
pub open spec fn uri_parts_view(u: UriParts) -> (Option<Seq<char>>, Option<Seq<char>>, Option<u16>, Option<Seq<char>>, Option<Seq<char>>) {
    (opt_view(u.scheme), opt_view(u.host), u.port, opt_view(u.authority), opt_view(u.path_query))
}

/// What `text.parse::<http::Uri>()` gives: the error's text, or the URI's
/// scheme, host, port, authority, and path with query.
pub uninterp spec fn http_uri_parts(text: Seq<char>) -> Result<(Option<Seq<char>>, Option<Seq<char>>, Option<u16>, Option<Seq<char>>, Option<Seq<char>>), Seq<char>>;

/// Parses `text` as an `http::Uri` and reads off its parts.
#[verifier::external_body]
fn parse_http_uri(text: &str) -> (r: Result<UriParts, String>)
    ensures
        match r {
            Ok(u) => http_uri_parts(text@) == Ok::<_, Seq<char>>(uri_parts_view(u)),
            Err(m) => http_uri_parts(text@) == Err::<(Option<Seq<char>>, Option<Seq<char>>, Option<u16>, Option<Seq<char>>, Option<Seq<char>>), Seq<char>>(m@),
        },
{
    match text.parse::<http::Uri>() {
        Ok(u) => Ok(UriParts {
            scheme: u.scheme_str().map(|s| s.to_string()),
            host: u.host().map(|s| s.to_string()),
            port: u.port_u16(),
            authority: u.authority().map(|a| a.as_str().to_string()),
            path_query: u.path_and_query().map(|p| p.as_str().to_string()),
        }),
        Err(e) => Err(e.to_string()),
    }
}

/// Parses a request URI.
pub fn parse_uri(text: &str) -> (r: Result<UriParts, String>)
    ensures
        match http_uri_parts(text@) {
            Ok(parts) => r matches Ok(u) && uri_parts_view(u) == parts,
            Err(m) => r matches Err(e) && e@ == m,
        },
{
    parse_http_uri(text)
}

/// Where and how a connection is made.
#[derive(Debug)]
pub struct TargetPlan {
    pub host: String,
    pub port: u16,
    pub authority: String,
    pub path_query: String,
    pub use_tls: bool,
}

/// `s` equals `https` in any ASCII case.
pub open spec fn is_https(s: Seq<char>) -> bool {
    s.len() == 5 && forall|i: int| 0 <= i < 5 ==> ascii_lower_char(#[trigger] s[i]) == "https"@[i]
}

/// What a URI gives for a TCP connection when its scheme defaults to
/// `default_scheme`: the host, the port (443 for https, else 80, unless
/// given), the authority (`host:port` unless given), the path with query
/// (`/` unless given) and whether to use TLS (for https).
pub open spec fn target_plan(u: (Option<Seq<char>>, Option<Seq<char>>, Option<u16>, Option<Seq<char>>, Option<Seq<char>>), default_scheme: Seq<char>) -> Result<(Seq<char>, u16, Seq<char>, Seq<char>, bool), Seq<char>> {
    match u.1 {
        None => Err("URL has no host"@),
        Some(host) => {
            let scheme = match u.0 { Some(s) => s, None => default_scheme };
            let port: u16 = match u.2 { Some(p) => p, None => if is_https(scheme) { 443 } else { 80 } };
            let authority = match u.3 { Some(a) => a, None => host + ":"@ + dec_string(port as nat) };
            let pq = match u.4 { Some(p) => p, None => "/"@ };
            Ok((host, port, authority, pq, is_https(scheme)))
        },
    }
}

/// Whether the characters of `s` are `https` in any ASCII case.
pub fn is_https_exec(s: &str) -> (r: bool)
    ensures
        r == is_https(s@),
{
    let cs = crate::text::chars_of(s);
    if cs.len() != 5 {
        return false;
    }
    let target = crate::text::chars_of("https");
    proof {
        reveal_strlit("https");
    }
    let mut i: usize = 0;
    while i < 5
        invariant
            cs@ == s@,
            cs@.len() == 5,
            target@ == "https"@,
            "https"@.len() == 5,
            i <= 5,
            forall|j: int| 0 <= j < i ==> ascii_lower_char(#[trigger] cs@[j]) == "https"@[j],
        decreases 5 - i,
    {
        if crate::text::ascii_lower_char_exec(cs[i]) != target[i] {
            return false;
        }
        i = i + 1;
    }
    true
}

/// Plans a TCP connection to the URI `u`, whose scheme defaults to
/// `default_scheme`.
pub fn plan_target(u: &UriParts, default_scheme: &str) -> (r: Result<TargetPlan, RequestError>)
    ensures
        match target_plan(uri_parts_view(*u), default_scheme@) {
            Ok((host, port, authority, pq, tls)) => r matches Ok(t) && t.host@ == host && t.port == port
                && t.authority@ == authority && t.path_query@ == pq && t.use_tls == tls,
            Err(m) => r matches Err(e) && e.class == ErrorClass::Connect && e.message@ == m,
        },
{
    let host = match &u.host {
        None => return Err(RequestError::connect(string_from_str("URL has no host"))),
        Some(h) => h,
    };
    let tls = match &u.scheme {
        Some(s) => is_https_exec(s.as_str()),
        None => is_https_exec(default_scheme),
    };
    let port: u16 = match u.port {
        Some(p) => p,
        None => if tls { 443 } else { 80 },
    };
    let authority = match &u.authority {
        Some(a) => string_from_str(a.as_str()),
        None => {
            let mut a = string_from_str(host.as_str());
            push_str(&mut a, ":");
            let digits = crate::text::u64_to_dec(port as u64);
            crate::text::push_chars(&mut a, digits.as_slice());
            a
        },
    };
    let path_query = match &u.path_query {
        Some(p) => string_from_str(p.as_str()),
        None => string_from_str("/"),
    };
    Ok(TargetPlan { host: string_from_str(host.as_str()), port, authority, path_query, use_tls: tls })
}

/// An address of family `f` may be used under the forced version `v`.
pub open spec fn family_allowed(f: AddrFamily, v: Option<IpVersion>) -> bool {
    match v {
        None => true,
        Some(IpVersion::V4) => f == AddrFamily::V4,
        Some(IpVersion::V6) => f == AddrFamily::V6,
    }
}

/// The addresses of `addrs` whose family `v` allows, in order.
pub open spec fn allowed_addrs<T>(addrs: Seq<(AddrFamily, T)>, v: Option<IpVersion>) -> Seq<T>
    decreases addrs.len(),
{
    if addrs.len() == 0 {
        Seq::empty()
    } else {
        let rest = allowed_addrs(addrs.drop_last(), v);
        if family_allowed(addrs.last().0, v) {
            rest.push(addrs.last().1)
        } else {
            rest
        }
    }
}

/// The error when name resolution leaves no usable address.
pub open spec fn no_address_text(v: Option<IpVersion>) -> Seq<char> {
    match v {
        Some(IpVersion::V4) => "DNS resolution returned no IPv4 addresses"@,
        Some(IpVersion::V6) => "DNS resolution returned no IPv6 addresses"@,
        None => "DNS resolution returned no addresses"@,
    }
}

/// Keeps the resolved addresses of the forced IP version, if any; fails when
/// none is left.
pub fn select_addresses<T>(addrs: Vec<(AddrFamily, T)>, version: Option<IpVersion>) -> (r: Result<Vec<T>, RequestError>)
    ensures
        allowed_addrs(addrs@, version).len() == 0 ==> (r matches Err(e) && e.class == ErrorClass::Connect
            && e.message@ == no_address_text(version)),
        allowed_addrs(addrs@, version).len() > 0 ==> (r matches Ok(v) && v@ == allowed_addrs(addrs@, version)),
{
    let ghost all = addrs@;
    let mut kept: Vec<T> = Vec::new();
    let mut rest = addrs;
    let mut taken: Vec<(AddrFamily, T)> = Vec::new();
    // Walk from the front by reversing once: pop gives the last element.
    let mut rev: Vec<(AddrFamily, T)> = Vec::new();
    while rest.len() > 0
        invariant
            rev@.len() + rest@.len() == all.len(),
            rest@ == all.take(rest@.len() as int),
            forall|j: int| 0 <= j < rev@.len() ==> #[trigger] rev@[j] == all[all.len() - 1 - j],
        decreases rest@.len(),
    {
        let x = rest.pop().unwrap();
        rev.push(x);
        assert(rest@ =~= all.take(rest@.len() as int));
    }
    let n = rev.len();
    while rev.len() > 0
        invariant
            rev@.len() <= n,
            n == all.len(),
            forall|j: int| 0 <= j < rev@.len() ==> #[trigger] rev@[j] == all[all.len() - 1 - j],
            kept@ == allowed_addrs(all.take(n - rev@.len()), version),
        decreases rev@.len(),
    {
        let x = rev.pop().unwrap();
        let ghost i = n - rev@.len() - 1;
        assert(x == all[i]);
        assert(all.take(i + 1).drop_last() =~= all.take(i));
        assert(all.take(i + 1).last() == all[i]);
        let allowed = match version {
            None => true,
            Some(IpVersion::V4) => x.0 == AddrFamily::V4,
            Some(IpVersion::V6) => x.0 == AddrFamily::V6,
        };
        if allowed {
            kept.push(x.1);
        }
    }
    assert(all.take(n as int) =~= all);
    if kept.len() == 0 {
        let msg = match version {
            Some(IpVersion::V4) => string_from_str("DNS resolution returned no IPv4 addresses"),
            Some(IpVersion::V6) => string_from_str("DNS resolution returned no IPv6 addresses"),
            None => string_from_str("DNS resolution returned no addresses"),
        };
        return Err(RequestError::connect(msg));
    }
    Ok(kept)
}

// ---------------------------------------------------------------------------
// Connecting to one of several addresses
// ---------------------------------------------------------------------------

/// How an attempt to open a TCP connection to one address went.
pub enum TcpAttempt {
    /// The socket could not be created; the whole connect fails.
    SocketFailed(RequestError),
    /// Binding the local address failed; the next address is tried.
    BindFailed(RequestError),
    /// The connect failed; the next address is tried.
    ConnectFailed(RequestError),
    /// The connect to the address with this text timed out; the next
    /// address is tried.
    TimedOut(String),
    /// Connected.
    Connected,
}

/// The state of trying the resolved addresses in turn.
pub struct ConnectFallback {
    /// The error of the last failed attempt.
    pub last_error: Option<RequestError>,
}

/// The error when no attempt was made or none failed with an error.
pub open spec fn no_attempt_text() -> Seq<char> {
    "No resolved addresses to connect"@
}

impl ConnectFallback {
    pub fn new() -> (f: Self)
        ensures
            f.last_error is None,
    {
        ConnectFallback { last_error: None }
    }

    /// Takes in the outcome of a TCP attempt: `Some` when connecting is over
    /// (connected, or failed for good), `None` to go on with the next address.
    pub fn on_tcp_attempt(&mut self, a: TcpAttempt) -> (r: Option<Result<(), RequestError>>)
        ensures
            match a {
                TcpAttempt::SocketFailed(e) => r == Some(Err::<(), RequestError>(e)) && final(self).last_error == old(self).last_error,
                TcpAttempt::BindFailed(e) => r is None && final(self).last_error == Some(e),
                TcpAttempt::ConnectFailed(e) => r is None && final(self).last_error == Some(e),
                TcpAttempt::TimedOut(addr) => r is None && (final(self).last_error matches Some(e)
                    && e.class == ErrorClass::Timeout && e.message@ == "TCP connect to "@ + addr@ + " timed out"@),
                TcpAttempt::Connected => r == Some(Ok::<(), RequestError>(())) && final(self).last_error == old(self).last_error,
            },
    {
        match a {
            TcpAttempt::SocketFailed(e) => Some(Err(e)),
            TcpAttempt::BindFailed(e) => {
                self.last_error = Some(e);
                None
            },
            TcpAttempt::ConnectFailed(e) => {
                self.last_error = Some(e);
                None
            },
            TcpAttempt::TimedOut(addr) => {
                let mut msg = string_from_str("TCP connect to ");
                push_str(&mut msg, addr.as_str());
                push_str(&mut msg, " timed out");
                self.last_error = Some(RequestError::timeout(msg));
                None
            },
            TcpAttempt::Connected => Some(Ok(())),
        }
    }

    /// Takes in the outcome of a QUIC attempt: a connect or timeout error
    /// moves on to the next address; any other error ends connecting.
    pub fn on_quic_attempt(&mut self, a: Result<(), RequestError>) -> (r: Option<Result<(), RequestError>>)
        ensures
            match a {
                Ok(()) => r == Some(Ok::<(), RequestError>(())) && final(self).last_error == old(self).last_error,
                Err(e) => if e.class == ErrorClass::Connect || e.class == ErrorClass::Timeout {
                    r is None && final(self).last_error == Some(e)
                } else {
                    r == Some(Err::<(), RequestError>(e)) && final(self).last_error == old(self).last_error
                },
            },
    {
        match a {
            Ok(()) => Some(Ok(())),
            Err(e) => {
                if e.class == ErrorClass::Connect || e.class == ErrorClass::Timeout {
                    self.last_error = Some(e);
                    None
                } else {
                    Some(Err(e))
                }
            },
        }
    }

    /// The error once every address was tried.
    pub fn finish(self) -> (e: RequestError)
        ensures
            match self.last_error {
                Some(l) => e == l,
                None => e.class == ErrorClass::Connect && e.message@ == no_attempt_text(),
            },
    {
        match self.last_error {
            Some(e) => e,
            None => RequestError::connect(string_from_str("No resolved addresses to connect")),
        }
    }
}

} // verus!
