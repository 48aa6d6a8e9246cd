//! HTTP/3 connections over QUIC: classifying connect errors, planning the
//! target and estimating what a request puts on the wire.

use vstd::prelude::*;
use vstd::utf8::encode_utf8;
use crate::driver::{
    RequestConfig, RequestError, UriParts, headers_view, opt_view, uri_parts_view,
};
use crate::h2::{add_u64, checked_headers_size, headers_size, path_len, path_size};
use crate::metrics::ErrorClass;
use crate::text::{contains_seq, str_contains, string_from_str};

verus! {

/// The class of a failed QUIC handshake by its text, taken as it is: TLS
/// when it mentions tls or certificate, else connect.
pub open spec fn quic_error_class(msg: Seq<char>) -> ErrorClass {
    if contains_seq(msg, "tls"@) || contains_seq(msg, "certificate"@) {
        ErrorClass::Tls
    } else {
        ErrorClass::Connect
    }
}

/// Classifies a failed QUIC handshake by its text.
pub fn classify_quic_error(msg: String) -> (e: RequestError)
    ensures
        e.class == quic_error_class(msg@),
        e.message == msg,
{
    if str_contains(msg.as_str(), "tls") || str_contains(msg.as_str(), "certificate") {
        RequestError::tls(msg)
    } else {
        RequestError::connect(msg)
    }
}

/// The estimate of what an HTTP/3 request sends: 20 bytes of QUIC framing,
/// the method, the path, the headers and the body.
pub open spec fn h3_request_size(config: &RequestConfig) -> nat {
    20 + encode_utf8(config.method@).len() + path_size(config.path_query)
        + headers_size(headers_view(config.headers@))
        + match config.body {
            Some(b) => b@.len(),
            None => 0,
        }
}

/// Estimates the bytes an HTTP/3 request sends, or `None` where the
/// estimate does not fit in a `u64`.
pub fn checked_h3_request_size(config: &RequestConfig) -> (r: Option<u64>)
    ensures
        h3_request_size(config) <= u64::MAX ==> r == Some(h3_request_size(config) as u64),
        h3_request_size(config) > u64::MAX ==> r is None,
{
    let m = config.method.as_str().as_bytes().len() as u64;
    let p = path_len(config);
    let h = match checked_headers_size(config) {
        Some(h) => h,
        None => return None,
    };
    let body: u64 = match &config.body {
        Some(b) => b.len() as u64,
        None => 0,
    };
    let size = match add_u64(20, m) {
        Some(v) => v,
        None => return None,
    };
    let size = match add_u64(size, p) {
        Some(v) => v,
        None => return None,
    };
    let size = match add_u64(size, h) {
        Some(v) => v,
        None => return None,
    };
    add_u64(size, body)
}

/// Estimates the bytes an HTTP/3 request sends.
pub fn estimate_h3_request_size(config: &RequestConfig) -> (r: u64)
    requires
        h3_request_size(config) <= u64::MAX,
    ensures
        r == h3_request_size(config),
{
    match checked_h3_request_size(config) {
        Some(v) => v,
        None => 0,
    }
}

/// The host and port a QUIC connection goes to: the URI's host, and its
/// port or 443.
pub open spec fn quic_target(u: (Option<Seq<char>>, Option<Seq<char>>, Option<u16>, Option<Seq<char>>, Option<Seq<char>>)) -> Result<(Seq<char>, u16), Seq<char>> {
    match u.1 {
        None => Err("URL has no host"@),
        Some(host) => Ok((host, match u.2 { Some(p) => p, None => 443 })),
    }
}

/// Plans a QUIC connection to the URI `u`: its host (also the TLS server
/// name) and port.
pub fn plan_quic_target(u: &UriParts) -> (r: Result<(String, u16), RequestError>)
    ensures
        match quic_target(uri_parts_view(*u)) {
            Ok((host, port)) => r matches Ok((h, p)) && h@ == host && p == port,
            Err(m) => r matches Err(e) && e.class == ErrorClass::Connect && e.message@ == m,
        },
{
    match &u.host {
        None => Err(RequestError::connect(string_from_str("URL has no host"))),
        Some(h) => {
            let port: u16 = match u.port {
                Some(p) => p,
                None => 443,
            };
            Ok((string_from_str(h.as_str()), port))
        },
    }
}

/// A response body being received on an HTTP/3 stream: its bytes and the
/// time to first byte, taken at the first body chunk (at the response head
/// until then).
#[derive(Debug)]
pub struct H3BodyProgress {
    pub bytes_in: u64,
    pub ttfb_us: u64,
    pub saw_body: bool,
}

impl H3BodyProgress {
    /// Starts with the time the response head arrived.
    pub fn new(header_ttfb_us: u64) -> (p: Self)
        ensures
            p.bytes_in == 0,
            p.ttfb_us == header_ttfb_us,
            !p.saw_body,
    {
        H3BodyProgress { bytes_in: 0, ttfb_us: header_ttfb_us, saw_body: false }
    }

    /// Accounts for a chunk of `len` bytes arriving at `elapsed_us`.
    pub fn on_chunk(&mut self, len: usize, elapsed_us: u64)
        requires
            old(self).bytes_in + len <= u64::MAX,
        ensures
            final(self).bytes_in == old(self).bytes_in + len,
            final(self).saw_body,
            final(self).ttfb_us == (if old(self).saw_body { old(self).ttfb_us } else { elapsed_us }),
    {
        if !self.saw_body {
            self.ttfb_us = elapsed_us;
            self.saw_body = true;
        }
        self.bytes_in = self.bytes_in + len as u64;
    }
}

/// The TLS details of a QUIC connection: always TLS 1.3; the cipher is not
/// known.
pub fn quic_tls_info() -> (t: crate::driver::TlsInfo)
    ensures
        t.protocol matches Some(p) && p@ == "TLSv1.3"@,
        t.cipher is None,
{
    crate::driver::TlsInfo { protocol: Some(string_from_str("TLSv1.3")), cipher: None }
}

} // verus!
