//! HTTP/2 connections: classifying errors and estimating what a request puts
//! on the wire.

use vstd::prelude::*;
use vstd::utf8::encode_utf8;
use crate::driver::{
    IoErrorKind, RequestConfig, RequestError, headers_view, io_kind_class, lower_contains,
    lower_contains_exec,
};
use crate::metrics::ErrorClass;

verus! {

/// The class of an I/O error of kind `kind` on an HTTP/2 connection: by its
/// kind where that decides, else HTTP.
pub open spec fn h2_io_error_class(kind: IoErrorKind) -> ErrorClass {
    match io_kind_class(kind) {
        Some(c) => c,
        None => ErrorClass::Http,
    }
}

/// Classifies an I/O error on an HTTP/2 connection; the message is the
/// error's text.
pub fn classify_io_error(kind: IoErrorKind, msg: String) -> (e: RequestError)
    ensures
        e.class == h2_io_error_class(kind),
        e.message == msg,
{
    match kind {
        IoErrorKind::ConnectionRefused | IoErrorKind::ConnectionAborted | IoErrorKind::ConnectionReset
        | IoErrorKind::NotConnected | IoErrorKind::AddrNotAvailable | IoErrorKind::HostUnreachable
        | IoErrorKind::NetworkUnreachable => RequestError::connect(msg),
        IoErrorKind::TimedOut | IoErrorKind::WouldBlock => RequestError::timeout(msg),
        IoErrorKind::Other => RequestError::http(msg),
    }
}

/// The class of an HTTP/2 error by its lower-cased text: TLS for tls or
/// certificate, timeout for timeout, connect for connect, refused, dns or
/// resolve, else HTTP.
pub open spec fn h2_error_class(msg: Seq<char>) -> ErrorClass {
    if lower_contains(msg, "tls"@) || lower_contains(msg, "certificate"@) {
        ErrorClass::Tls
    } else if lower_contains(msg, "timeout"@) {
        ErrorClass::Timeout
    } else if lower_contains(msg, "connect"@) || lower_contains(msg, "refused"@)
        || lower_contains(msg, "dns"@) || lower_contains(msg, "resolve"@) {
        ErrorClass::Connect
    } else {
        ErrorClass::Http
    }
}

/// Classifies an error of the HTTP/2 layer by its text.
pub fn classify_h2_error(msg: String) -> (e: RequestError)
    ensures
        e.class == h2_error_class(msg@),
        e.message == msg,
{
    let lower = crate::text::to_lowercase(msg.as_str());
    let l = lower.as_str();
    if lower_contains_exec(l, "tls", Ghost(msg@)) || lower_contains_exec(l, "certificate", Ghost(msg@)) {
        RequestError::tls(msg)
    } else if lower_contains_exec(l, "timeout", Ghost(msg@)) {
        RequestError::timeout(msg)
    } else if lower_contains_exec(l, "connect", Ghost(msg@)) || lower_contains_exec(l, "refused", Ghost(msg@))
        || lower_contains_exec(l, "dns", Ghost(msg@)) || lower_contains_exec(l, "resolve", Ghost(msg@)) {
        RequestError::connect(msg)
    } else {
        RequestError::http(msg)
    }
}

/// Bytes the headers add to a request estimate: each name and value and two
/// more.
pub open spec fn headers_size(hs: Seq<(Seq<u8>, Seq<u8>)>) -> nat
    decreases hs.len(),
{
    if hs.len() == 0 {
        0
    } else {
        headers_size(hs.drop_last()) + hs.last().0.len() + hs.last().1.len() + 2
    }
}

/// The byte length of the path and query, or 1 where there is none.
pub open spec fn path_size(pq: Option<String>) -> nat {
    match pq {
        Some(p) => encode_utf8(p@).len(),
        None => 1,
    }
}

/// The estimate of what an HTTP/2 request sends: a 9-byte HEADERS frame
/// header, the method, the path, the headers, and for a body a 9-byte DATA
/// frame header and the body.
pub open spec fn h2_request_size(config: &RequestConfig) -> nat {
    9 + encode_utf8(config.method@).len() + path_size(config.path_query)
        + headers_size(headers_view(config.headers@))
        + match config.body {
            Some(b) => 9 + b@.len(),
            None => 0,
        }
}

/// Sums the header sizes of `config`, or `None` where the sum does not fit
/// in a `u64`.
pub fn checked_headers_size(config: &RequestConfig) -> (r: Option<u64>)
    ensures
        headers_size(headers_view(config.headers@)) <= u64::MAX ==> r == Some(
            headers_size(headers_view(config.headers@)) as u64,
        ),
        headers_size(headers_view(config.headers@)) > u64::MAX ==> r is None,
{
    let ghost hs = headers_view(config.headers@);
    let mut total: u64 = 0;
    let mut i: usize = 0;
    while i < config.headers.len()
        invariant
            i <= config.headers@.len(),
            hs == headers_view(config.headers@),
            total == headers_size(hs.take(i as int)),
        decreases config.headers@.len() - i,
    {
        proof {
            assert(hs.take(i as int + 1).drop_last() =~= hs.take(i as int));
            lemma_headers_size_prefix(hs, i as int + 1);
        }
        let h = &config.headers[i];
        let n = h.0.len() as u64;
        let v = h.1.len() as u64;
        if n > u64::MAX - total || v > u64::MAX - total - n || 2 > u64::MAX - total - n - v {
            return None;
        }
        total = total + n + v + 2;
        i = i + 1;
    }
    assert(hs.take(config.headers@.len() as int) =~= hs);
    Some(total)
}

/// The size of a prefix of the headers is no more than that of all.
pub proof fn lemma_headers_size_prefix(hs: Seq<(Seq<u8>, Seq<u8>)>, k: int)
    requires
        0 <= k <= hs.len(),
    ensures
        headers_size(hs.take(k)) <= headers_size(hs),
    decreases hs.len() - k,
{
    if k < hs.len() {
        lemma_headers_size_prefix(hs, k + 1);
        assert(hs.take(k + 1).drop_last() =~= hs.take(k));
    } else {
        assert(hs.take(k) =~= hs);
    }
}

/// The byte length of the request's path and query, or 1 where there is
/// none.
pub(crate) fn path_len(config: &RequestConfig) -> (r: u64)
    ensures
        r == path_size(config.path_query),
{
    match &config.path_query {
        Some(pq) => pq.as_str().as_bytes().len() as u64,
        None => 1,
    }
}

/// `a + b`, or `None` where it does not fit in a `u64`.
pub(crate) fn add_u64(a: u64, b: u64) -> (r: Option<u64>)
    ensures
        a + b <= u64::MAX ==> r == Some((a + b) as u64),
        a + b > u64::MAX ==> r is None,
{
    if b > u64::MAX - a {
        None
    } else {
        Some(a + b)
    }
}

/// Estimates the bytes an HTTP/2 request sends, or `None` where the
/// estimate does not fit in a `u64`.
pub fn checked_h2_request_size(config: &RequestConfig) -> (r: Option<u64>)
    ensures
        h2_request_size(config) <= u64::MAX ==> r == Some(h2_request_size(config) as u64),
        h2_request_size(config) > u64::MAX ==> r is None,
{
    let m = config.method.as_str().as_bytes().len() as u64;
    let p = path_len(config);
    let h = match checked_headers_size(config) {
        Some(h) => h,
        None => return None,
    };
    let body: u64 = match &config.body {
        Some(b) => {
            let n = b.len() as u64;
            match add_u64(9, n) {
                Some(v) => v,
                None => return None,
            }
        },
        None => 0,
    };
    let size = match add_u64(9, m) {
        Some(v) => v,
        None => return None,
    };
    let size = match add_u64(size, p) {
        Some(v) => v,
        None => return None,
    };
    let size = match add_u64(size, h) {
        Some(v) => v,
        None => return None,
    };
    add_u64(size, body)
}

/// Estimates the bytes an HTTP/2 request sends.
pub fn estimate_h2_request_size(config: &RequestConfig) -> (r: u64)
    requires
        h2_request_size(config) <= u64::MAX,
    ensures
        r == h2_request_size(config),
{
    match checked_h2_request_size(config) {
        Some(v) => v,
        None => 0,
    }
}

/// Initial flow-control window of each stream.
pub const H2_STREAM_WINDOW: u32 = 1073741824;

/// Initial flow-control window of the connection.
pub const H2_CONN_WINDOW: u32 = 1073741824;

/// Largest frame accepted.
pub const H2_MAX_FRAME: u32 = 1048576;

/// Received bytes are handed back to flow control in batches of at least
/// this many.
pub const H2_RELEASE_BATCH_BYTES: usize = 524288;

/// A response body being received on an HTTP/2 stream.
#[derive(Debug)]
pub struct H2BodyProgress {
    /// Body bytes received so far.
    pub bytes_in: u64,
    /// Received bytes not yet handed back to flow control.
    pub pending_release: usize,
}

impl H2BodyProgress {
    pub fn new() -> (p: Self)
        ensures
            p.bytes_in == 0,
            p.pending_release == 0,
    {
        H2BodyProgress { bytes_in: 0, pending_release: 0 }
    }

    /// Accounts for a chunk of `len` bytes; gives the capacity to release
    /// now, once a whole batch has piled up.
    pub fn on_data(&mut self, len: usize) -> (r: Option<usize>)
        requires
            old(self).bytes_in + len <= u64::MAX,
        ensures
            final(self).bytes_in == old(self).bytes_in + len,
            ({
                let pending = if old(self).pending_release + len > usize::MAX {
                    usize::MAX as int
                } else {
                    old(self).pending_release + len
                };
                if pending >= H2_RELEASE_BATCH_BYTES {
                    r == Some(pending as usize) && final(self).pending_release == 0
                } else {
                    r is None && final(self).pending_release == pending
                }
            }),
    {
        self.bytes_in = self.bytes_in + len as u64;
        self.pending_release = self.pending_release.saturating_add(len);
        if self.pending_release >= H2_RELEASE_BATCH_BYTES {
            let r = self.pending_release;
            self.pending_release = 0;
            Some(r)
        } else {
            None
        }
    }

    /// At the end of the body: the capacity still to release, if any.
    pub fn finish(&mut self) -> (r: Option<usize>)
        ensures
            old(self).pending_release > 0 ==> r == Some(old(self).pending_release),
            old(self).pending_release == 0 ==> r is None,
            final(self).pending_release == 0,
            final(self).bytes_in == old(self).bytes_in,
    {
        if self.pending_release > 0 {
            let r = self.pending_release;
            self.pending_release = 0;
            Some(r)
        } else {
            None
        }
    }
}

} // verus!
