//! Per-worker benchmark metrics, and their aggregation into one run.

use vstd::prelude::*;
use vstd::multiset::Multiset;
use crate::counts::{AddrCounts, CountMap, StatusCounts, get_or_zero, map_add, map_add_fits};
use crate::histogram::{
    Histogram, b64_decode_safe, hist_add, hist_bucket, hist_config, hist_record, hist_samples, hist_text_decoding,
    histogram_b64_spec, new_histogram, serialize_histogram_b64, standard_config,
};

verus! {

/// Status codes below this bound are counted in a flat array.
pub const STATUS_FASTPATH_MAX: usize = 600;

/// The class of a failed request.
#[derive(Clone, Copy, Debug, PartialEq, Eq, Structural)]
pub enum ErrorClass {
    Connect,
    Tls,
    Timeout,
    Http,
}

/// The address family of a connected peer.
#[derive(Clone, Copy, Debug, PartialEq, Eq, Structural)]
pub enum AddrFamily {
    V4,
    V6,
}

/// The peer of a new connection: its family and its address as text.
#[derive(Debug)]
pub struct ConnectAddr {
    pub family: AddrFamily,
    pub text: String,
}

/// Metrics collected by one worker during a benchmark run.
pub struct WorkerMetrics {
    pub latency_hist: Histogram,
    pub ttfb_hist: Histogram,
    pub connect_hist: Histogram,
    pub requests_started: u64,
    pub requests_completed: u64,
    pub ok: u64,
    pub err_connect: u64,
    pub err_tls: u64,
    pub err_timeout: u64,
    pub err_http: u64,
    pub bytes_in: u64,
    pub bytes_out: u64,
    pub connect_v4_count: u64,
    pub connect_v6_count: u64,
    pub connect_addr_counts: AddrCounts,
    pub status_counts_fast: Vec<u64>,
    pub status_counts_other: StatusCounts,
    pub tls_protocol: Option<String>,
    pub tls_cipher: Option<String>,
}

/// One more sample of `v` in `new` than in `old`, at the lowest value of
/// the bucket that counts `v`, unless `v` lies beyond the histogram's range
/// and nothing changed.
pub open spec fn records(old: Histogram, new: Histogram, v: u64) -> bool {
    &&& hist_config(new) == hist_config(old)
    &&& hist_samples(old).len() < u64::MAX ==> {
        ||| new == old && v > hist_config(old).1
        ||| hist_samples(new) == hist_samples(old).insert(hist_bucket(hist_config(old), v))
    }
}

impl WorkerMetrics {
    /// The flat status array has its fixed length and both maps are well formed.
    pub open spec fn wf(&self) -> bool {
        &&& self.status_counts_fast@.len() == STATUS_FASTPATH_MAX
        &&& self.status_counts_other.wf()
        &&& self.connect_addr_counts.wf()
    }

    /// How many responses with status `s` were counted.
    pub open spec fn status_count(&self, s: u16) -> nat {
        (if (s as int) < STATUS_FASTPATH_MAX {
            self.status_counts_fast@[s as int] as nat
        } else {
            0nat
        }) + get_or_zero(self.status_counts_other@, s)
    }

    /// The statuses that have an entry: a non-zero flat count or an entry in
    /// the map of other statuses.
    pub open spec fn has_status(&self, s: u16) -> bool {
        ((s as int) < STATUS_FASTPATH_MAX && self.status_counts_fast@[s as int] > 0)
            || self.status_counts_other@.contains_key(s)
    }

    /// The errors counted, over all classes.
    pub open spec fn err_sum(&self) -> nat {
        (self.err_connect + self.err_tls + self.err_timeout + self.err_http) as nat
    }

    /// Every completed request is counted once, as a success or as an error.
    pub open spec fn consistent(&self) -> bool {
        self.requests_completed == self.ok + self.err_sum()
    }

    /// Fresh metrics: nothing counted, empty histograms with the standard
    /// bounds, no TLS details.
    pub open spec fn is_empty_metrics(&self) -> bool {
        &&& self.wf()
        &&& crate::histogram::is_fresh(self.latency_hist)
        &&& crate::histogram::is_fresh(self.ttfb_hist)
        &&& crate::histogram::is_fresh(self.connect_hist)
        &&& self.requests_started == 0
        &&& self.requests_completed == 0
        &&& self.ok == 0
        &&& self.err_connect == 0
        &&& self.err_tls == 0
        &&& self.err_timeout == 0
        &&& self.err_http == 0
        &&& self.bytes_in == 0
        &&& self.bytes_out == 0
        &&& self.connect_v4_count == 0
        &&& self.connect_v6_count == 0
        &&& self.connect_addr_counts@ == Map::<Seq<char>, u64>::empty()
        &&& forall|i: int| 0 <= i < STATUS_FASTPATH_MAX ==> self.status_counts_fast@[i] == 0
        &&& self.status_counts_other@ == Map::<u16, u64>::empty()
        &&& self.tls_protocol is None
        &&& self.tls_cipher is None
    }

    pub fn new() -> (w: Self)
        ensures
            w.is_empty_metrics(),
            w.consistent(),
            forall|s: u16| w.status_count(s) == 0,
    {
        let mut fast: Vec<u64> = Vec::new();
        let mut i: usize = 0;
        while i < STATUS_FASTPATH_MAX
            invariant
                i <= STATUS_FASTPATH_MAX,
                fast@.len() == i,
                forall|j: int| 0 <= j < i ==> fast@[j] == 0,
            decreases STATUS_FASTPATH_MAX - i,
        {
            fast.push(0);
            i = i + 1;
        }
        WorkerMetrics {
            latency_hist: new_histogram(),
            ttfb_hist: new_histogram(),
            connect_hist: new_histogram(),
            requests_started: 0,
            requests_completed: 0,
            ok: 0,
            err_connect: 0,
            err_tls: 0,
            err_timeout: 0,
            err_http: 0,
            bytes_in: 0,
            bytes_out: 0,
            connect_v4_count: 0,
            connect_v6_count: 0,
            connect_addr_counts: CountMap::new(),
            status_counts_fast: fast,
            status_counts_other: CountMap::new(),
            tls_protocol: None,
            tls_cipher: None,
        }
    }

    /// Record a successful request: one more completed and successful
    /// request, its bytes, its status, and (when `record_timing`) its latency
    /// and time to first byte.
    pub fn record_success(
        &mut self,
        status: u16,
        latency_us: u64,
        ttfb_us: u64,
        bytes_in: u64,
        bytes_out: u64,
        record_timing: bool,
    )
        requires
            old(self).wf(),
            old(self).requests_completed < u64::MAX,
            old(self).ok < u64::MAX,
            old(self).bytes_in + bytes_in <= u64::MAX,
            old(self).bytes_out + bytes_out <= u64::MAX,
            old(self).status_count(status) < u64::MAX,
        ensures
            final(self).wf(),
            final(self).requests_completed == old(self).requests_completed + 1,
            final(self).ok == old(self).ok + 1,
            final(self).bytes_in == old(self).bytes_in + bytes_in,
            final(self).bytes_out == old(self).bytes_out + bytes_out,
            forall|s: u16| #[trigger]
                final(self).status_count(s) == old(self).status_count(s) + if s == status {
                    1nat
                } else {
                    0nat
                },
            forall|s: u16| #[trigger]
                final(self).has_status(s) == (old(self).has_status(s) || s == status),
            record_timing ==> records(old(self).latency_hist, final(self).latency_hist, latency_us),
            record_timing ==> records(old(self).ttfb_hist, final(self).ttfb_hist, ttfb_us),
            !record_timing ==> final(self).latency_hist == old(self).latency_hist,
            !record_timing ==> final(self).ttfb_hist == old(self).ttfb_hist,
            final(self).connect_hist == old(self).connect_hist,
            final(self).requests_started == old(self).requests_started,
            final(self).err_connect == old(self).err_connect,
            final(self).err_tls == old(self).err_tls,
            final(self).err_timeout == old(self).err_timeout,
            final(self).err_http == old(self).err_http,
            final(self).connect_v4_count == old(self).connect_v4_count,
            final(self).connect_v6_count == old(self).connect_v6_count,
            final(self).connect_addr_counts == old(self).connect_addr_counts,
            final(self).tls_protocol == old(self).tls_protocol,
            final(self).tls_cipher == old(self).tls_cipher,
            old(self).consistent() ==> final(self).consistent(),
    {
        self.requests_completed = self.requests_completed + 1;
        self.ok = self.ok + 1;
        if record_timing {
            hist_record(&mut self.latency_hist, latency_us);
            hist_record(&mut self.ttfb_hist, ttfb_us);
        }
        self.bytes_in = self.bytes_in + bytes_in;
        self.bytes_out = self.bytes_out + bytes_out;
        let idx = status as usize;
        if idx < STATUS_FASTPATH_MAX {
            let c = self.status_counts_fast[idx];
            proof {
                assert(self.status_count(status) >= c);
            }
            self.status_counts_fast.set(idx, c + 1);
        } else {
            self.status_counts_other.add(&status, 1);
        }
        proof {
            assert forall|s: u16| #[trigger] self.status_count(s) == old(self).status_count(s) + if s == status {
                1nat
            } else {
                0nat
            } by {
                if (s as int) < STATUS_FASTPATH_MAX && s != status {
                    assert(self.status_counts_fast@[s as int] == old(self).status_counts_fast@[s as int]);
                }
            }
            assert forall|s: u16| #[trigger] self.has_status(s) == (old(self).has_status(s) || s == status) by {
                if (s as int) < STATUS_FASTPATH_MAX && s != status {
                    assert(self.status_counts_fast@[s as int] == old(self).status_counts_fast@[s as int]);
                }
            }
        }
    }

    /// Record a connection: its setup time, and, where the peer is known, its
    /// address family and address.
    pub fn record_connect(&mut self, connect_us: u64, remote_addr: Option<ConnectAddr>)
        requires
            old(self).wf(),
            remote_addr matches Some(a) ==> {
                &&& (a.family == AddrFamily::V4 ==> old(self).connect_v4_count < u64::MAX)
                &&& (a.family == AddrFamily::V6 ==> old(self).connect_v6_count < u64::MAX)
                &&& get_or_zero(old(self).connect_addr_counts@, a.text@) < u64::MAX
            },
        ensures
            final(self).wf(),
            records(old(self).connect_hist, final(self).connect_hist, connect_us),
            final(self).connect_v4_count == old(self).connect_v4_count + if remote_addr matches Some(
                a,
            ) && a.family == AddrFamily::V4 {
                1int
            } else {
                0int
            },
            final(self).connect_v6_count == old(self).connect_v6_count + if remote_addr matches Some(
                a,
            ) && a.family == AddrFamily::V6 {
                1int
            } else {
                0int
            },
            match remote_addr {
                Some(a) => final(self).connect_addr_counts@ == old(self).connect_addr_counts@.insert(
                    a.text@,
                    (get_or_zero(old(self).connect_addr_counts@, a.text@) + 1) as u64,
                ),
                None => final(self).connect_addr_counts == old(self).connect_addr_counts,
            },
            final(self).latency_hist == old(self).latency_hist,
            final(self).ttfb_hist == old(self).ttfb_hist,
            final(self).requests_started == old(self).requests_started,
            final(self).requests_completed == old(self).requests_completed,
            final(self).ok == old(self).ok,
            final(self).err_connect == old(self).err_connect,
            final(self).err_tls == old(self).err_tls,
            final(self).err_timeout == old(self).err_timeout,
            final(self).err_http == old(self).err_http,
            final(self).bytes_in == old(self).bytes_in,
            final(self).bytes_out == old(self).bytes_out,
            final(self).status_counts_fast == old(self).status_counts_fast,
            final(self).status_counts_other == old(self).status_counts_other,
            final(self).tls_protocol == old(self).tls_protocol,
            final(self).tls_cipher == old(self).tls_cipher,
    {
        hist_record(&mut self.connect_hist, connect_us);
        if let Some(addr) = remote_addr {
            match addr.family {
                AddrFamily::V4 => self.connect_v4_count = self.connect_v4_count + 1,
                AddrFamily::V6 => self.connect_v6_count = self.connect_v6_count + 1,
            }
            self.connect_addr_counts.add(&addr.text, 1);
        }
    }

    /// How many responses with status `s` were counted.
    pub fn status_count_of(&self, s: u16) -> (n: u64)
        requires
            self.wf(),
        ensures
            n == self.status_count(s) || (n == u64::MAX && self.status_count(s) >= u64::MAX),
    {
        let other = self.status_counts_other.get(&s);
        let idx = s as usize;
        if idx < STATUS_FASTPATH_MAX {
            let fast = self.status_counts_fast[idx];
            if fast > u64::MAX - other {
                u64::MAX
            } else {
                fast + other
            }
        } else {
            other
        }
    }

    /// Record a failed request: one more completed request and one more error
    /// of its class.
    pub fn record_error(&mut self, class: ErrorClass)
        requires
            old(self).requests_completed < u64::MAX,
            class == ErrorClass::Connect ==> old(self).err_connect < u64::MAX,
            class == ErrorClass::Tls ==> old(self).err_tls < u64::MAX,
            class == ErrorClass::Timeout ==> old(self).err_timeout < u64::MAX,
            class == ErrorClass::Http ==> old(self).err_http < u64::MAX,
        ensures
            final(self).requests_completed == old(self).requests_completed + 1,
            final(self).err_connect == old(self).err_connect + if class == ErrorClass::Connect {
                1int
            } else {
                0int
            },
            final(self).err_tls == old(self).err_tls + if class == ErrorClass::Tls {
                1int
            } else {
                0int
            },
            final(self).err_timeout == old(self).err_timeout + if class == ErrorClass::Timeout {
                1int
            } else {
                0int
            },
            final(self).err_http == old(self).err_http + if class == ErrorClass::Http {
                1int
            } else {
                0int
            },
            final(self).err_sum() == old(self).err_sum() + 1,
            old(self).consistent() ==> final(self).consistent(),
            *final(self) == (WorkerMetrics {
                requests_completed: final(self).requests_completed,
                err_connect: final(self).err_connect,
                err_tls: final(self).err_tls,
                err_timeout: final(self).err_timeout,
                err_http: final(self).err_http,
                ..*old(self)
            }),
    {
        self.requests_completed = self.requests_completed + 1;
        match class {
            ErrorClass::Connect => self.err_connect = self.err_connect + 1,
            ErrorClass::Tls => self.err_tls = self.err_tls + 1,
            ErrorClass::Timeout => self.err_timeout = self.err_timeout + 1,
            ErrorClass::Http => self.err_http = self.err_http + 1,
        }
    }

    /// Keep the first TLS protocol and cipher seen.
    pub fn record_tls_info(&mut self, protocol: Option<&str>, cipher: Option<&str>)
        ensures
            (old(self).tls_protocol is None && protocol is Some) ==> final(self).tls_protocol.unwrap()@ == protocol.unwrap()@,
            !(old(self).tls_protocol is None && protocol is Some) ==> final(self).tls_protocol
                == old(self).tls_protocol,
            (old(self).tls_cipher is None && cipher is Some) ==> final(self).tls_cipher is Some
                && final(self).tls_cipher.unwrap()@ == cipher.unwrap()@,
            !(old(self).tls_cipher is None && cipher is Some) ==> final(self).tls_cipher == old(self).tls_cipher,
            (old(self).tls_protocol is None && protocol is Some) ==> final(self).tls_protocol is Some,
            *final(self) == (WorkerMetrics {
                tls_protocol: final(self).tls_protocol,
                tls_cipher: final(self).tls_cipher,
                ..*old(self)
            }),
    {
        if self.tls_protocol.is_none() {
            if let Some(p) = protocol {
                self.tls_protocol = Some(crate::text::string_from_str(p));
            }
        }
        if self.tls_cipher.is_none() {
            if let Some(c) = cipher {
                self.tls_cipher = Some(crate::text::string_from_str(c));
            }
        }
    }
}


// ---------------------------------------------------------------------------
// Aggregation over workers
// ---------------------------------------------------------------------------

/// The sum of `f` over the workers.
pub open spec fn nsum<T>(ws: Seq<T>, f: spec_fn(T) -> nat) -> nat
    decreases ws.len(),
{
    if ws.len() == 0 {
        0
    } else {
        nsum(ws.drop_last(), f) + f(ws.last())
    }
}

/// The samples of the histograms `f` picks, over the workers.
pub open spec fn samples_total(ws: Seq<WorkerMetrics>, f: spec_fn(WorkerMetrics) -> Histogram) -> Multiset<u64>
    decreases ws.len(),
{
    if ws.len() == 0 {
        Multiset::empty()
    } else {
        samples_total(ws.drop_last(), f).add(hist_samples(f(ws.last())))
    }
}

/// The first `Some` that `f` gives over the workers, in order.
pub open spec fn first_some(ws: Seq<WorkerMetrics>, f: spec_fn(WorkerMetrics) -> Option<String>) -> Option<String>
    decreases ws.len(),
{
    if ws.len() == 0 {
        None
    } else {
        let p = first_some(ws.drop_last(), f);
        if p is Some {
            p
        } else {
            f(ws.last())
        }
    }
}

/// How many responses with status `s` the workers counted together.
pub open spec fn status_total(ws: Seq<WorkerMetrics>, s: u16) -> nat {
    nsum(ws, |w: WorkerMetrics| w.status_count(s))
}

/// How many connections to `addr` the workers counted together.
pub open spec fn addr_total(ws: Seq<WorkerMetrics>, addr: Seq<char>) -> nat {
    nsum(ws, |w: WorkerMetrics| get_or_zero(w.connect_addr_counts@, addr))
}

/// The sum of the counts of the statuses in `[lo, hi)` in `m`.
pub open spec fn status_range_sum(m: Map<u16, u64>, lo: int, hi: int) -> nat
    decreases hi - lo,
{
    if hi <= lo {
        0
    } else {
        status_range_sum(m, lo, hi - 1) + get_or_zero(m, (hi - 1) as u16)
    }
}

/// The sum over statuses in `[lo, hi)` of what the workers counted together.
pub open spec fn status_range_total(ws: Seq<WorkerMetrics>, lo: int, hi: int) -> nat
    decreases hi - lo,
{
    if hi <= lo {
        0
    } else {
        status_range_total(ws, lo, hi - 1) + status_total(ws, (hi - 1) as u16)
    }
}

pub proof fn lemma_nsum_take<T>(ws: Seq<T>, f: spec_fn(T) -> nat, i: int)
    requires
        0 <= i < ws.len(),
    ensures
        nsum(ws.take(i + 1), f) == nsum(ws.take(i), f) + f(ws[i]),
{
    assert(ws.take(i + 1).drop_last() =~= ws.take(i));
}

pub proof fn lemma_nsum_prefix_le<T>(ws: Seq<T>, f: spec_fn(T) -> nat, i: int)
    requires
        0 <= i <= ws.len(),
    ensures
        nsum(ws.take(i), f) <= nsum(ws, f),
    decreases ws.len() - i,
{
    if i < ws.len() {
        lemma_nsum_prefix_le(ws, f, i + 1);
        lemma_nsum_take(ws, f, i);
    } else {
        assert(ws.take(i) =~= ws);
    }
}

/// Adding one more term at the end of a prefix sum stays within the total.
pub proof fn lemma_nsum_step_fits<T>(ws: Seq<T>, f: spec_fn(T) -> nat, i: int)
    requires
        0 <= i < ws.len(),
    ensures
        nsum(ws.take(i), f) + f(ws[i]) == nsum(ws.take(i + 1), f),
        nsum(ws.take(i + 1), f) <= nsum(ws, f),
{
    lemma_nsum_take(ws, f, i);
    lemma_nsum_prefix_le(ws, f, i + 1);
}

/// The total of the error sums is the sum of the per-class totals.
pub proof fn lemma_err_sum_split(ws: Seq<WorkerMetrics>)
    ensures
        nsum(ws, |w: WorkerMetrics| w.err_sum()) == nsum(ws, |w: WorkerMetrics| w.err_connect as nat)
            + nsum(ws, |w: WorkerMetrics| w.err_tls as nat) + nsum(ws, |w: WorkerMetrics| w.err_timeout as nat)
            + nsum(ws, |w: WorkerMetrics| w.err_http as nat),
    decreases ws.len(),
{
    if ws.len() > 0 {
        lemma_err_sum_split(ws.drop_last());
    }
}

/// Where every worker counts each completed request once, so do the totals.
pub proof fn lemma_consistent_total(ws: Seq<WorkerMetrics>)
    requires
        forall|i: int| 0 <= i < ws.len() ==> #[trigger] ws[i].consistent(),
    ensures
        nsum(ws, |w: WorkerMetrics| w.requests_completed as nat) == nsum(ws, |w: WorkerMetrics| w.ok as nat)
            + nsum(ws, |w: WorkerMetrics| w.err_sum()),
    decreases ws.len(),
{
    if ws.len() > 0 {
        let p = ws.drop_last();
        assert forall|i: int| 0 <= i < p.len() implies #[trigger] p[i].consistent() by {
            assert(p[i] == ws[i]);
        }
        lemma_consistent_total(p);
        assert(ws.last().consistent());
    }
}

proof fn lemma_status_step(ws: Seq<WorkerMetrics>, s: u16, i: int)
    requires
        0 <= i < ws.len(),
    ensures
        status_total(ws.take(i + 1), s) == status_total(ws.take(i), s) + ws[i].status_count(s),
        status_total(ws.take(i + 1), s) <= status_total(ws, s),
{
    lemma_nsum_step_fits(ws, |w: WorkerMetrics| w.status_count(s), i);
}

proof fn lemma_addr_step(ws: Seq<WorkerMetrics>, a: Seq<char>, i: int)
    requires
        0 <= i < ws.len(),
    ensures
        addr_total(ws.take(i + 1), a) == addr_total(ws.take(i), a) + get_or_zero(ws[i].connect_addr_counts@, a),
        addr_total(ws.take(i + 1), a) <= addr_total(ws, a),
{
    lemma_nsum_step_fits(ws, |w: WorkerMetrics| get_or_zero(w.connect_addr_counts@, a), i);
}

/// The counters, status and address counts, histograms and TLS details of
/// all workers of a run, merged.
pub struct MergedMetrics {
    pub latency: Histogram,
    pub ttfb: Histogram,
    pub connect: Histogram,
    pub requests_started: u64,
    pub requests_completed: u64,
    pub ok: u64,
    pub err_connect: u64,
    pub err_tls: u64,
    pub err_timeout: u64,
    pub err_http: u64,
    pub err_total: u64,
    pub bytes_in: u64,
    pub bytes_out: u64,
    pub connect_v4_count: u64,
    pub connect_v6_count: u64,
    pub connect_addr_counts: AddrCounts,
    pub status_counts: StatusCounts,
    pub status_2xx: u64,
    pub status_3xx: u64,
    pub status_4xx: u64,
    pub status_5xx: u64,
    pub tls_protocol: Option<String>,
    pub tls_cipher: Option<String>,
    /// The merged histograms in their exported form, where export was asked
    /// for and they hold samples.
    pub latency_hist_b64: Option<String>,
    pub ttfb_hist_b64: Option<String>,
    pub connect_hist_b64: Option<String>,
}

/// `o` is what exporting `h` gives: the base64 of its V2-Deflate encoding,
/// nothing for an empty histogram or one the encoder refuses.
pub open spec fn exported_form(o: Option<String>, h: Histogram) -> bool {
    match o {
        Some(s) => histogram_b64_spec(hist_config(h), hist_samples(h)) == Some(s@),
        None => histogram_b64_spec(hist_config(h), hist_samples(h)) is None,
    }
}

/// An exported histogram holding `samples` with the standard bounds: absent
/// exactly when there are none, else text that is safe to decode and
/// decodes back to the standard bounds and those samples.
pub open spec fn exported_as(o: Option<String>, samples: Multiset<u64>) -> bool {
    &&& (o is Some <==> samples.len() > 0)
    &&& (o matches Some(s) ==> b64_decode_safe(s@) && hist_text_decoding(s@) == Ok::<
        ((u64, u64, u8), Multiset<u64>),
        Seq<char>,
    >((standard_config(), samples)))
}

/// The exported form of `h` where `export` is set, else nothing.
fn export_of(h: &Histogram, export: bool) -> (o: Option<String>)
    ensures
        !export ==> o is None,
        export ==> exported_form(o, *h),
        export && hist_config(*h) == standard_config() && hist_samples(*h).len() <= i64::MAX ==> exported_as(
            o,
            hist_samples(*h),
        ),
{
    if export {
        let o = serialize_histogram_b64(h);
        proof {
            if hist_config(*h) == standard_config() && hist_samples(*h).len() <= i64::MAX {
                if o is None && hist_samples(*h).len() > 0 {
                    assert(false);
                }
                if o is Some {
                    assert(hist_samples(*h).len() > 0);
                }
            }
        }
        o
    } else {
        None
    }
}

/// Adds the status counts of `w` into `acc`.
pub fn add_worker_statuses(acc: &mut StatusCounts, w: &WorkerMetrics)
    requires
        old(acc).wf(),
        w.wf(),
        forall|s: u16| #[trigger] get_or_zero(old(acc)@, s) + w.status_count(s) <= u64::MAX,
    ensures
        final(acc).wf(),
        forall|s: u16| #[trigger] get_or_zero(final(acc)@, s) == get_or_zero(old(acc)@, s) + w.status_count(s),
        forall|s: u16| #[trigger] final(acc)@.contains_key(s) == (old(acc)@.contains_key(s) || w.has_status(s)),
{
    let mut i: usize = 0;
    while i < STATUS_FASTPATH_MAX
        invariant
            i <= STATUS_FASTPATH_MAX,
            acc.wf(),
            w.wf(),
            forall|s: u16| #[trigger] get_or_zero(old(acc)@, s) + w.status_count(s) <= u64::MAX,
            forall|s: u16| #[trigger] get_or_zero(acc@, s) == get_or_zero(old(acc)@, s) + if (s as int) < i {
                w.status_counts_fast@[s as int] as nat
            } else {
                0nat
            },
            forall|s: u16| #[trigger] acc@.contains_key(s) == (old(acc)@.contains_key(s) || ((s as int)
                < i && w.status_counts_fast@[s as int] > 0)),
        decreases STATUS_FASTPATH_MAX - i,
    {
        let count = w.status_counts_fast[i];
        let code: u16 = i as u16;
        let ghost prev = acc@;
        if count > 0 {
            proof {
                assert(get_or_zero(acc@, code) == get_or_zero(old(acc)@, code));
                assert(w.status_count(code) >= count);
            }
            acc.add(&code, count);
        }
        proof {
            assert forall|s: u16| #[trigger] get_or_zero(acc@, s) == get_or_zero(old(acc)@, s) + if (s as int) < i + 1 {
                w.status_counts_fast@[s as int] as nat
            } else {
                0nat
            } by {
                if s != code {
                    assert(get_or_zero(acc@, s) == get_or_zero(prev, s));
                    assert(get_or_zero(prev, s) == get_or_zero(old(acc)@, s) + if (s as int) < i {
                        w.status_counts_fast@[s as int] as nat
                    } else {
                        0nat
                    });
                }
            }
        }
        i = i + 1;
    }
    proof {
        assert(map_add_fits(acc@, w.status_counts_other@)) by {
            assert forall|s: u16| #[trigger] get_or_zero(acc@, s) + get_or_zero(w.status_counts_other@, s) <= u64::MAX by {
                assert(get_or_zero(old(acc)@, s) + w.status_count(s) <= u64::MAX);
            }
        }
    }
    let ghost mid = acc@;
    acc.add_all(&w.status_counts_other);
    proof {
        assert forall|s: u16| #[trigger] get_or_zero(acc@, s) == get_or_zero(old(acc)@, s) + w.status_count(s) by {
            assert(get_or_zero(acc@, s) == get_or_zero(map_add(mid, w.status_counts_other@), s));
            assert(get_or_zero(mid, s) + get_or_zero(w.status_counts_other@, s) <= u64::MAX);
        }
    }
}

fn clone_opt_string(o: &Option<String>) -> (r: Option<String>)
    ensures
        r == *o,
{
    match o {
        Some(s) => Some(s.clone()),
        None => None,
    }
}

/// Sums the statuses in `[lo, hi)` of `m`.
pub fn sum_status_range(m: &StatusCounts, lo: u16, hi: u16) -> (r: u64)
    requires
        m.wf(),
        lo <= hi,
        status_range_sum(m@, lo as int, hi as int) <= u64::MAX,
    ensures
        r == status_range_sum(m@, lo as int, hi as int),
{
    let mut total: u64 = 0;
    let mut s: u16 = lo;
    while s < hi
        invariant
            lo <= s <= hi,
            m.wf(),
            status_range_sum(m@, lo as int, hi as int) <= u64::MAX,
            total == status_range_sum(m@, lo as int, s as int),
        decreases hi - s,
    {
        proof {
            lemma_range_sum_mono(m@, lo as int, s as int + 1, hi as int);
        }
        let c = m.get(&s);
        total = total + c;
        s = s + 1;
    }
    total
}

pub proof fn lemma_range_sum_mono(m: Map<u16, u64>, lo: int, mid: int, hi: int)
    requires
        lo <= mid <= hi,
    ensures
        status_range_sum(m, lo, mid) <= status_range_sum(m, lo, hi),
    decreases hi - mid,
{
    if mid < hi {
        lemma_range_sum_mono(m, lo, mid, hi - 1);
    }
}

proof fn lemma_range_sum_eq(m: Map<u16, u64>, ws: Seq<WorkerMetrics>, lo: int, hi: int)
    requires
        0 <= lo,
        hi <= 65536,
        forall|s: u16| #[trigger] get_or_zero(m, s) == status_total(ws, s),
    ensures
        status_range_sum(m, lo, hi) == status_range_total(ws, lo, hi),
    decreases hi - lo,
{
    if hi > lo {
        lemma_range_sum_eq(m, ws, lo, hi - 1);
    }
}

/// Merges the metrics of all workers of a run: counters and status and
/// address counts are summed, histograms added, and the first TLS protocol
/// and cipher seen kept; where `export_histograms` is set, the merged
/// histograms are exported too.
pub fn merge_metrics(workers: Vec<WorkerMetrics>, export_histograms: bool) -> (m: MergedMetrics)
    requires
        forall|i: int| 0 <= i < workers@.len() ==> #[trigger] workers@[i].wf(),
        nsum(workers@, |w: WorkerMetrics| w.requests_started as nat) <= u64::MAX,
        nsum(workers@, |w: WorkerMetrics| w.requests_completed as nat) <= u64::MAX,
        nsum(workers@, |w: WorkerMetrics| w.ok as nat) <= u64::MAX,
        nsum(workers@, |w: WorkerMetrics| w.err_connect as nat) <= u64::MAX,
        nsum(workers@, |w: WorkerMetrics| w.err_tls as nat) <= u64::MAX,
        nsum(workers@, |w: WorkerMetrics| w.err_timeout as nat) <= u64::MAX,
        nsum(workers@, |w: WorkerMetrics| w.err_http as nat) <= u64::MAX,
        nsum(workers@, |w: WorkerMetrics| w.bytes_in as nat) <= u64::MAX,
        nsum(workers@, |w: WorkerMetrics| w.bytes_out as nat) <= u64::MAX,
        nsum(workers@, |w: WorkerMetrics| w.connect_v4_count as nat) <= u64::MAX,
        nsum(workers@, |w: WorkerMetrics| w.connect_v6_count as nat) <= u64::MAX,
        nsum(workers@, |w: WorkerMetrics| w.err_sum()) <= u64::MAX,
        forall|s: u16| #[trigger] status_total(workers@, s) <= u64::MAX,
        forall|a: Seq<char>| #[trigger] addr_total(workers@, a) <= u64::MAX,
        status_range_total(workers@, 200, 300) <= u64::MAX,
        status_range_total(workers@, 300, 400) <= u64::MAX,
        status_range_total(workers@, 400, 500) <= u64::MAX,
        status_range_total(workers@, 500, 600) <= u64::MAX,
    ensures
        m.requests_started == nsum(workers@, |w: WorkerMetrics| w.requests_started as nat),
        m.requests_completed == nsum(workers@, |w: WorkerMetrics| w.requests_completed as nat),
        m.ok == nsum(workers@, |w: WorkerMetrics| w.ok as nat),
        m.err_connect == nsum(workers@, |w: WorkerMetrics| w.err_connect as nat),
        m.err_tls == nsum(workers@, |w: WorkerMetrics| w.err_tls as nat),
        m.err_timeout == nsum(workers@, |w: WorkerMetrics| w.err_timeout as nat),
        m.err_http == nsum(workers@, |w: WorkerMetrics| w.err_http as nat),
        m.err_total == m.err_connect + m.err_tls + m.err_timeout + m.err_http,
        m.bytes_in == nsum(workers@, |w: WorkerMetrics| w.bytes_in as nat),
        m.bytes_out == nsum(workers@, |w: WorkerMetrics| w.bytes_out as nat),
        m.connect_v4_count == nsum(workers@, |w: WorkerMetrics| w.connect_v4_count as nat),
        m.connect_v6_count == nsum(workers@, |w: WorkerMetrics| w.connect_v6_count as nat),
        m.status_counts.wf(),
        forall|s: u16| #[trigger] get_or_zero(m.status_counts@, s) == status_total(workers@, s),
        forall|s: u16| #[trigger] m.status_counts@.contains_key(s) == exists|i: int|
            0 <= i < workers@.len() && #[trigger] workers@[i].has_status(s),
        m.connect_addr_counts.wf(),
        forall|a: Seq<char>| #[trigger] get_or_zero(m.connect_addr_counts@, a) == addr_total(workers@, a),
        forall|a: Seq<char>| #[trigger] m.connect_addr_counts@.contains_key(a) == exists|i: int|
            0 <= i < workers@.len() && #[trigger] workers@[i].connect_addr_counts@.contains_key(a),
        m.status_2xx == status_range_total(workers@, 200, 300),
        m.status_3xx == status_range_total(workers@, 300, 400),
        m.status_4xx == status_range_total(workers@, 400, 500),
        m.status_5xx == status_range_total(workers@, 500, 600),
        m.tls_protocol == first_some(workers@, |w: WorkerMetrics| w.tls_protocol),
        m.tls_cipher == first_some(workers@, |w: WorkerMetrics| w.tls_cipher),
        (forall|i: int| 0 <= i < workers@.len() ==> #[trigger] workers@[i].consistent())
            ==> m.requests_completed == m.ok + m.err_total,
        hist_config(m.latency) == standard_config(),
        hist_config(m.ttfb) == standard_config(),
        hist_config(m.connect) == standard_config(),
        (forall|i: int| 0 <= i < workers@.len() ==> hist_config(#[trigger] workers@[i].latency_hist) == standard_config())
            && samples_total(workers@, |w: WorkerMetrics| w.latency_hist).len() <= u64::MAX
            ==> hist_samples(m.latency) == samples_total(workers@, |w: WorkerMetrics| w.latency_hist),
        (forall|i: int| 0 <= i < workers@.len() ==> hist_config(#[trigger] workers@[i].ttfb_hist) == standard_config())
            && samples_total(workers@, |w: WorkerMetrics| w.ttfb_hist).len() <= u64::MAX
            ==> hist_samples(m.ttfb) == samples_total(workers@, |w: WorkerMetrics| w.ttfb_hist),
        (forall|i: int| 0 <= i < workers@.len() ==> hist_config(#[trigger] workers@[i].connect_hist) == standard_config())
            && samples_total(workers@, |w: WorkerMetrics| w.connect_hist).len() <= u64::MAX
            ==> hist_samples(m.connect) == samples_total(workers@, |w: WorkerMetrics| w.connect_hist),
        !export_histograms ==> m.latency_hist_b64 is None && m.ttfb_hist_b64 is None && m.connect_hist_b64 is None,
        export_histograms ==> exported_form(m.latency_hist_b64, m.latency) && exported_form(m.ttfb_hist_b64, m.ttfb)
            && exported_form(m.connect_hist_b64, m.connect),
        export_histograms && (forall|i: int| 0 <= i < workers@.len() ==> hist_config(#[trigger] workers@[i].latency_hist) == standard_config())
            && samples_total(workers@, |w: WorkerMetrics| w.latency_hist).len() <= i64::MAX
            ==> exported_as(m.latency_hist_b64, samples_total(workers@, |w: WorkerMetrics| w.latency_hist)),
        export_histograms && (forall|i: int| 0 <= i < workers@.len() ==> hist_config(#[trigger] workers@[i].ttfb_hist) == standard_config())
            && samples_total(workers@, |w: WorkerMetrics| w.ttfb_hist).len() <= i64::MAX
            ==> exported_as(m.ttfb_hist_b64, samples_total(workers@, |w: WorkerMetrics| w.ttfb_hist)),
        export_histograms && (forall|i: int| 0 <= i < workers@.len() ==> hist_config(#[trigger] workers@[i].connect_hist) == standard_config())
            && samples_total(workers@, |w: WorkerMetrics| w.connect_hist).len() <= i64::MAX
            ==> exported_as(m.connect_hist_b64, samples_total(workers@, |w: WorkerMetrics| w.connect_hist)),
{
    let ghost ws = workers@;
    let mut latency = new_histogram();
    let mut ttfb = new_histogram();
    let mut connect = new_histogram();
    let mut m = MergeAcc::new();
    let n = workers.len();
    proof {
        assert(ws.take(0) =~= Seq::<WorkerMetrics>::empty());
        vstd::multiset::lemma_multiset_empty_len(hist_samples(latency));
        vstd::multiset::lemma_multiset_empty_len(hist_samples(ttfb));
        vstd::multiset::lemma_multiset_empty_len(hist_samples(connect));
    }
    let mut i: usize = 0;
    while i < n
        invariant
            ws == workers@,
            n == ws.len(),
            i <= n,
            forall|j: int| 0 <= j < ws.len() ==> #[trigger] ws[j].wf(),
            m.inv(ws, i as int),
            m.fits(ws),
            hist_config(latency) == standard_config(),
            hist_config(ttfb) == standard_config(),
            hist_config(connect) == standard_config(),
            hist_tracks(latency, ws, i as int, |w: WorkerMetrics| w.latency_hist),
            hist_tracks(ttfb, ws, i as int, |w: WorkerMetrics| w.ttfb_hist),
            hist_tracks(connect, ws, i as int, |w: WorkerMetrics| w.connect_hist),
        decreases n - i,
    {
        let w = &workers[i];
        proof {
            lemma_hist_step(latency, ws, i as int, |w: WorkerMetrics| w.latency_hist);
            lemma_hist_step(ttfb, ws, i as int, |w: WorkerMetrics| w.ttfb_hist);
            lemma_hist_step(connect, ws, i as int, |w: WorkerMetrics| w.connect_hist);
        }
        let ghost l0 = latency;
        let ghost t0 = ttfb;
        let ghost c0 = connect;
        hist_add(&mut latency, &w.latency_hist);
        hist_add(&mut ttfb, &w.ttfb_hist);
        hist_add(&mut connect, &w.connect_hist);
        proof {
            lemma_hist_after(l0, latency, ws, i as int, |w: WorkerMetrics| w.latency_hist);
            lemma_hist_after(t0, ttfb, ws, i as int, |w: WorkerMetrics| w.ttfb_hist);
            lemma_hist_after(c0, connect, ws, i as int, |w: WorkerMetrics| w.connect_hist);
        }
        m.absorb(Ghost(ws), Ghost(i as int), w);
        i = i + 1;
    }
    proof {
        assert(ws.take(n as int) =~= ws);
        lemma_err_sum_split(ws);
        if forall|i: int| 0 <= i < ws.len() ==> #[trigger] ws[i].consistent() {
            lemma_consistent_total(ws);
        }
    }
    let mut out = m.finish(Ghost(ws), latency, ttfb, connect);
    out.latency_hist_b64 = export_of(&out.latency, export_histograms);
    out.ttfb_hist_b64 = export_of(&out.ttfb, export_histograms);
    out.connect_hist_b64 = export_of(&out.connect, export_histograms);
    out
}

/// The histogram `h` holds the samples of the first `i` workers' histograms
/// that `f` picks, where all workers use the standard bounds and the total fits.
pub open spec fn hist_tracks(h: Histogram, ws: Seq<WorkerMetrics>, i: int, f: spec_fn(WorkerMetrics) -> Histogram) -> bool {
    (forall|j: int| 0 <= j < ws.len() ==> hist_config(#[trigger] f(ws[j])) == standard_config())
        && samples_total(ws, f).len() <= u64::MAX ==> hist_samples(h) == samples_total(ws.take(i), f)
}

proof fn lemma_samples_total_take(ws: Seq<WorkerMetrics>, f: spec_fn(WorkerMetrics) -> Histogram, i: int)
    requires
        0 <= i <= ws.len(),
    ensures
        samples_total(ws.take(i), f).len() <= samples_total(ws, f).len(),
        i < ws.len() ==> samples_total(ws.take(i + 1), f) == samples_total(ws.take(i), f).add(hist_samples(f(ws[i]))),
    decreases ws.len() - i,
{
    if i < ws.len() {
        assert(ws.take(i + 1).drop_last() =~= ws.take(i));
        lemma_samples_total_take(ws, f, i + 1);
    } else {
        assert(ws.take(i) =~= ws);
    }
}

proof fn lemma_hist_step(h: Histogram, ws: Seq<WorkerMetrics>, i: int, f: spec_fn(WorkerMetrics) -> Histogram)
    requires
        0 <= i < ws.len(),
    ensures
        samples_total(ws.take(i + 1), f) == samples_total(ws.take(i), f).add(hist_samples(f(ws[i]))),
        samples_total(ws.take(i + 1), f).len() <= samples_total(ws, f).len(),
{
    lemma_samples_total_take(ws, f, i);
    lemma_samples_total_take(ws, f, i + 1);
}

proof fn lemma_hist_after(h0: Histogram, h: Histogram, ws: Seq<WorkerMetrics>, i: int, f: spec_fn(WorkerMetrics) -> Histogram)
    requires
        0 <= i < ws.len(),
        hist_config(h0) == standard_config(),
        hist_tracks(h0, ws, i, f),
        hist_config(h) == hist_config(h0),
        hist_config(f(ws[i])) == hist_config(h0) && hist_samples(h0).len() + hist_samples(f(ws[i])).len() <= u64::MAX
            ==> hist_samples(h) == hist_samples(h0).add(hist_samples(f(ws[i]))),
    ensures
        hist_tracks(h, ws, i + 1, f),
{
    lemma_hist_step(h0, ws, i, f);
}

/// The counters of a merge in progress.
struct MergeAcc {
    requests_started: u64,
    requests_completed: u64,
    ok: u64,
    err_connect: u64,
    err_tls: u64,
    err_timeout: u64,
    err_http: u64,
    bytes_in: u64,
    bytes_out: u64,
    connect_v4_count: u64,
    connect_v6_count: u64,
    connect_addr_counts: AddrCounts,
    status_counts: StatusCounts,
    tls_protocol: Option<String>,
    tls_cipher: Option<String>,
}

impl MergeAcc {
    spec fn fits(&self, ws: Seq<WorkerMetrics>) -> bool {
        &&& nsum(ws, |w: WorkerMetrics| w.requests_started as nat) <= u64::MAX
        &&& nsum(ws, |w: WorkerMetrics| w.requests_completed as nat) <= u64::MAX
        &&& nsum(ws, |w: WorkerMetrics| w.ok as nat) <= u64::MAX
        &&& nsum(ws, |w: WorkerMetrics| w.err_connect as nat) <= u64::MAX
        &&& nsum(ws, |w: WorkerMetrics| w.err_tls as nat) <= u64::MAX
        &&& nsum(ws, |w: WorkerMetrics| w.err_timeout as nat) <= u64::MAX
        &&& nsum(ws, |w: WorkerMetrics| w.err_http as nat) <= u64::MAX
        &&& nsum(ws, |w: WorkerMetrics| w.bytes_in as nat) <= u64::MAX
        &&& nsum(ws, |w: WorkerMetrics| w.bytes_out as nat) <= u64::MAX
        &&& nsum(ws, |w: WorkerMetrics| w.connect_v4_count as nat) <= u64::MAX
        &&& nsum(ws, |w: WorkerMetrics| w.connect_v6_count as nat) <= u64::MAX
        &&& nsum(ws, |w: WorkerMetrics| w.err_sum()) <= u64::MAX
        &&& forall|s: u16| #[trigger] status_total(ws, s) <= u64::MAX
        &&& forall|a: Seq<char>| #[trigger] addr_total(ws, a) <= u64::MAX
        &&& status_range_total(ws, 200, 300) <= u64::MAX
        &&& status_range_total(ws, 300, 400) <= u64::MAX
        &&& status_range_total(ws, 400, 500) <= u64::MAX
        &&& status_range_total(ws, 500, 600) <= u64::MAX
    }

    spec fn inv(&self, ws: Seq<WorkerMetrics>, i: int) -> bool {
        let p = ws.take(i);
        &&& 0 <= i <= ws.len()
        &&& self.requests_started == nsum(p, |w: WorkerMetrics| w.requests_started as nat)
        &&& self.requests_completed == nsum(p, |w: WorkerMetrics| w.requests_completed as nat)
        &&& self.ok == nsum(p, |w: WorkerMetrics| w.ok as nat)
        &&& self.err_connect == nsum(p, |w: WorkerMetrics| w.err_connect as nat)
        &&& self.err_tls == nsum(p, |w: WorkerMetrics| w.err_tls as nat)
        &&& self.err_timeout == nsum(p, |w: WorkerMetrics| w.err_timeout as nat)
        &&& self.err_http == nsum(p, |w: WorkerMetrics| w.err_http as nat)
        &&& self.bytes_in == nsum(p, |w: WorkerMetrics| w.bytes_in as nat)
        &&& self.bytes_out == nsum(p, |w: WorkerMetrics| w.bytes_out as nat)
        &&& self.connect_v4_count == nsum(p, |w: WorkerMetrics| w.connect_v4_count as nat)
        &&& self.connect_v6_count == nsum(p, |w: WorkerMetrics| w.connect_v6_count as nat)
        &&& self.err_connect + self.err_tls + self.err_timeout + self.err_http == nsum(p, |w: WorkerMetrics| w.err_sum())
        &&& self.status_counts.wf()
        &&& forall|s: u16| #[trigger] get_or_zero(self.status_counts@, s) == status_total(p, s)
        &&& forall|s: u16| #[trigger] self.status_counts@.contains_key(s) == exists|j: int|
            0 <= j < i && #[trigger] ws[j].has_status(s)
        &&& self.connect_addr_counts.wf()
        &&& forall|a: Seq<char>| #[trigger] get_or_zero(self.connect_addr_counts@, a) == addr_total(p, a)
        &&& forall|a: Seq<char>| #[trigger] self.connect_addr_counts@.contains_key(a) == exists|j: int|
            0 <= j < i && #[trigger] ws[j].connect_addr_counts@.contains_key(a)
        &&& self.tls_protocol == first_some(p, |w: WorkerMetrics| w.tls_protocol)
        &&& self.tls_cipher == first_some(p, |w: WorkerMetrics| w.tls_cipher)
    }

    fn new() -> (r: Self)
        ensures
            forall|ws: Seq<WorkerMetrics>| r.inv(ws, 0),
    {
        let r = MergeAcc {
            requests_started: 0,
            requests_completed: 0,
            ok: 0,
            err_connect: 0,
            err_tls: 0,
            err_timeout: 0,
            err_http: 0,
            bytes_in: 0,
            bytes_out: 0,
            connect_v4_count: 0,
            connect_v6_count: 0,
            connect_addr_counts: CountMap::new(),
            status_counts: CountMap::new(),
            tls_protocol: None,
            tls_cipher: None,
        };
        proof {
            assert forall|ws: Seq<WorkerMetrics>| r.inv(ws, 0) by {
                assert(ws.take(0) =~= Seq::<WorkerMetrics>::empty());
            }
        }
        r
    }

    fn absorb(&mut self, Ghost(ws): Ghost<Seq<WorkerMetrics>>, Ghost(i): Ghost<int>, w: &WorkerMetrics)
        requires
            0 <= i < ws.len(),
            ws[i] == *w,
            w.wf(),
            old(self).inv(ws, i),
            old(self).fits(ws),
        ensures
            final(self).inv(ws, i + 1),
            final(self).fits(ws),
    {
        let ghost p = ws.take(i);
        let ghost q = ws.take(i + 1);
        proof {
            assert(q.drop_last() =~= p);
            assert(q.last() == *w);
            lemma_nsum_step_fits(ws, |w: WorkerMetrics| w.requests_started as nat, i);
            lemma_nsum_step_fits(ws, |w: WorkerMetrics| w.requests_completed as nat, i);
            lemma_nsum_step_fits(ws, |w: WorkerMetrics| w.ok as nat, i);
            lemma_nsum_step_fits(ws, |w: WorkerMetrics| w.err_connect as nat, i);
            lemma_nsum_step_fits(ws, |w: WorkerMetrics| w.err_tls as nat, i);
            lemma_nsum_step_fits(ws, |w: WorkerMetrics| w.err_timeout as nat, i);
            lemma_nsum_step_fits(ws, |w: WorkerMetrics| w.err_http as nat, i);
            lemma_nsum_step_fits(ws, |w: WorkerMetrics| w.bytes_in as nat, i);
            lemma_nsum_step_fits(ws, |w: WorkerMetrics| w.bytes_out as nat, i);
            lemma_nsum_step_fits(ws, |w: WorkerMetrics| w.connect_v4_count as nat, i);
            lemma_nsum_step_fits(ws, |w: WorkerMetrics| w.connect_v6_count as nat, i);
            lemma_nsum_step_fits(ws, |w: WorkerMetrics| w.err_sum(), i);
        }
        self.requests_started = self.requests_started + w.requests_started;
        self.requests_completed = self.requests_completed + w.requests_completed;
        self.ok = self.ok + w.ok;
        self.err_connect = self.err_connect + w.err_connect;
        self.err_tls = self.err_tls + w.err_tls;
        self.err_timeout = self.err_timeout + w.err_timeout;
        self.err_http = self.err_http + w.err_http;
        self.bytes_in = self.bytes_in + w.bytes_in;
        self.bytes_out = self.bytes_out + w.bytes_out;
        self.connect_v4_count = self.connect_v4_count + w.connect_v4_count;
        self.connect_v6_count = self.connect_v6_count + w.connect_v6_count;
        if self.tls_protocol.is_none() {
            self.tls_protocol = clone_opt_string(&w.tls_protocol);
        }
        if self.tls_cipher.is_none() {
            self.tls_cipher = clone_opt_string(&w.tls_cipher);
        }
        proof {
            assert forall|s: u16| #[trigger] get_or_zero(self.status_counts@, s) + w.status_count(s) <= u64::MAX by {
                lemma_status_step(ws, s, i);
                assert(status_total(ws, s) <= u64::MAX);
            }
        }
        add_worker_statuses(&mut self.status_counts, w);
        proof {
            assert forall|a: Seq<char>| #[trigger] get_or_zero(self.connect_addr_counts@, a) + get_or_zero(w.connect_addr_counts@, a) <= u64::MAX by {
                lemma_addr_step(ws, a, i);
                assert(addr_total(ws, a) <= u64::MAX);
            }
        }
        let ghost addr0 = self.connect_addr_counts@;
        self.connect_addr_counts.add_all(&w.connect_addr_counts);
        proof {
            assert forall|s: u16| #[trigger] get_or_zero(self.status_counts@, s) == status_total(q, s) by {
                lemma_status_step(ws, s, i);
            }
            assert forall|s: u16| #[trigger] self.status_counts@.contains_key(s) == exists|j: int|
                0 <= j < i + 1 && #[trigger] ws[j].has_status(s) by {
                if exists|j: int| 0 <= j < i + 1 && #[trigger] ws[j].has_status(s) {
                    let j = choose|j: int| 0 <= j < i + 1 && #[trigger] ws[j].has_status(s);
                    if j < i {
                        assert(exists|j: int| 0 <= j < i && #[trigger] ws[j].has_status(s));
                    }
                }
            }
            assert forall|a: Seq<char>| #[trigger] get_or_zero(self.connect_addr_counts@, a) == addr_total(q, a) by {
                lemma_addr_step(ws, a, i);
                assert(get_or_zero(addr0, a) + get_or_zero(w.connect_addr_counts@, a) <= u64::MAX);
            }
            assert forall|a: Seq<char>| #[trigger] self.connect_addr_counts@.contains_key(a) == exists|j: int|
                0 <= j < i + 1 && #[trigger] ws[j].connect_addr_counts@.contains_key(a) by {
                if exists|j: int| 0 <= j < i + 1 && #[trigger] ws[j].connect_addr_counts@.contains_key(a) {
                    let j = choose|j: int| 0 <= j < i + 1 && #[trigger] ws[j].connect_addr_counts@.contains_key(a);
                    if j < i {
                        assert(exists|j: int| 0 <= j < i && #[trigger] ws[j].connect_addr_counts@.contains_key(a));
                    }
                }
            }
        }
    }

    fn finish(self, Ghost(ws): Ghost<Seq<WorkerMetrics>>, latency: Histogram, ttfb: Histogram, connect: Histogram) -> (m: MergedMetrics)
        requires
            self.inv(ws, ws.len() as int),
            self.fits(ws),
            ws.take(ws.len() as int) == ws,
        ensures
            m.latency == latency,
            m.ttfb == ttfb,
            m.connect == connect,
            m.requests_started == nsum(ws, |w: WorkerMetrics| w.requests_started as nat),
            m.requests_completed == nsum(ws, |w: WorkerMetrics| w.requests_completed as nat),
            m.ok == nsum(ws, |w: WorkerMetrics| w.ok as nat),
            m.err_connect == nsum(ws, |w: WorkerMetrics| w.err_connect as nat),
            m.err_tls == nsum(ws, |w: WorkerMetrics| w.err_tls as nat),
            m.err_timeout == nsum(ws, |w: WorkerMetrics| w.err_timeout as nat),
            m.err_http == nsum(ws, |w: WorkerMetrics| w.err_http as nat),
            m.err_total == m.err_connect + m.err_tls + m.err_timeout + m.err_http,
            m.bytes_in == nsum(ws, |w: WorkerMetrics| w.bytes_in as nat),
            m.bytes_out == nsum(ws, |w: WorkerMetrics| w.bytes_out as nat),
            m.connect_v4_count == nsum(ws, |w: WorkerMetrics| w.connect_v4_count as nat),
            m.connect_v6_count == nsum(ws, |w: WorkerMetrics| w.connect_v6_count as nat),
            m.status_counts.wf(),
            forall|s: u16| #[trigger] get_or_zero(m.status_counts@, s) == status_total(ws, s),
            forall|s: u16| #[trigger] m.status_counts@.contains_key(s) == exists|i: int|
                0 <= i < ws.len() && #[trigger] ws[i].has_status(s),
            m.connect_addr_counts.wf(),
            forall|a: Seq<char>| #[trigger] get_or_zero(m.connect_addr_counts@, a) == addr_total(ws, a),
            forall|a: Seq<char>| #[trigger] m.connect_addr_counts@.contains_key(a) == exists|i: int|
                0 <= i < ws.len() && #[trigger] ws[i].connect_addr_counts@.contains_key(a),
            m.status_2xx == status_range_total(ws, 200, 300),
            m.status_3xx == status_range_total(ws, 300, 400),
            m.status_4xx == status_range_total(ws, 400, 500),
            m.status_5xx == status_range_total(ws, 500, 600),
            m.tls_protocol == first_some(ws, |w: WorkerMetrics| w.tls_protocol),
            m.tls_cipher == first_some(ws, |w: WorkerMetrics| w.tls_cipher),
    {
        proof {
            lemma_range_sum_eq(self.status_counts@, ws, 200, 300);
            lemma_range_sum_eq(self.status_counts@, ws, 300, 400);
            lemma_range_sum_eq(self.status_counts@, ws, 400, 500);
            lemma_range_sum_eq(self.status_counts@, ws, 500, 600);
        }
        let status_2xx = sum_status_range(&self.status_counts, 200, 300);
        let status_3xx = sum_status_range(&self.status_counts, 300, 400);
        let status_4xx = sum_status_range(&self.status_counts, 400, 500);
        let status_5xx = sum_status_range(&self.status_counts, 500, 600);
        MergedMetrics {
            latency,
            ttfb,
            connect,
            requests_started: self.requests_started,
            requests_completed: self.requests_completed,
            ok: self.ok,
            err_connect: self.err_connect,
            err_tls: self.err_tls,
            err_timeout: self.err_timeout,
            err_http: self.err_http,
            err_total: self.err_connect + self.err_tls + self.err_timeout + self.err_http,
            bytes_in: self.bytes_in,
            bytes_out: self.bytes_out,
            connect_v4_count: self.connect_v4_count,
            connect_v6_count: self.connect_v6_count,
            connect_addr_counts: self.connect_addr_counts,
            status_counts: self.status_counts,
            status_2xx,
            status_3xx,
            status_4xx,
            status_5xx,
            tls_protocol: self.tls_protocol,
            tls_cipher: self.tls_cipher,
            latency_hist_b64: None,
            ttfb_hist_b64: None,
            connect_hist_b64: None,
        }
    }
}


/// The samples of `new` are those of `old` plus those of `src`, where both
/// use the same bounds and the total fits; the bounds do not change.
pub open spec fn absorbs(old: Histogram, new: Histogram, src: Histogram) -> bool {
    &&& hist_config(new) == hist_config(old)
    &&& hist_config(src) == hist_config(old) && hist_samples(old).len() + hist_samples(src).len()
        <= u64::MAX ==> hist_samples(new) == hist_samples(old).add(hist_samples(src))
}

/// Adds `src` into `dst`, element by element.
fn add_fast_counts(dst: &mut Vec<u64>, src: &Vec<u64>)
    requires
        old(dst)@.len() == STATUS_FASTPATH_MAX,
        src@.len() == STATUS_FASTPATH_MAX,
        forall|j: int| 0 <= j < STATUS_FASTPATH_MAX ==> #[trigger] old(dst)@[j] + src@[j] <= u64::MAX,
    ensures
        final(dst)@.len() == STATUS_FASTPATH_MAX,
        forall|j: int| 0 <= j < STATUS_FASTPATH_MAX ==> #[trigger] final(dst)@[j] == old(dst)@[j] + src@[j],
{
    let mut i: usize = 0;
    while i < STATUS_FASTPATH_MAX
        invariant
            i <= STATUS_FASTPATH_MAX,
            dst@.len() == STATUS_FASTPATH_MAX,
            src@.len() == STATUS_FASTPATH_MAX,
            forall|j: int| 0 <= j < STATUS_FASTPATH_MAX ==> #[trigger] old(dst)@[j] + src@[j] <= u64::MAX,
            forall|j: int| 0 <= j < i ==> #[trigger] dst@[j] == old(dst)@[j] + src@[j],
            forall|j: int| i <= j < STATUS_FASTPATH_MAX ==> #[trigger] dst@[j] == old(dst)@[j],
        decreases STATUS_FASTPATH_MAX - i,
    {
        let v = dst[i] + src[i];
        dst.set(i, v);
        i = i + 1;
    }
}

/// Adds the metrics of `from` into `into`: counters, status and address
/// counts are summed, histograms added, and the TLS details of `into` kept
/// where it has them.
pub fn merge_worker_metrics(into: &mut WorkerMetrics, from: WorkerMetrics)
    requires
        old(into).wf(),
        from.wf(),
        old(into).requests_started + from.requests_started <= u64::MAX,
        old(into).requests_completed + from.requests_completed <= u64::MAX,
        old(into).ok + from.ok <= u64::MAX,
        old(into).err_connect + from.err_connect <= u64::MAX,
        old(into).err_tls + from.err_tls <= u64::MAX,
        old(into).err_timeout + from.err_timeout <= u64::MAX,
        old(into).err_http + from.err_http <= u64::MAX,
        old(into).bytes_in + from.bytes_in <= u64::MAX,
        old(into).bytes_out + from.bytes_out <= u64::MAX,
        old(into).connect_v4_count + from.connect_v4_count <= u64::MAX,
        old(into).connect_v6_count + from.connect_v6_count <= u64::MAX,
        forall|i: int| 0 <= i < STATUS_FASTPATH_MAX ==> #[trigger] old(into).status_counts_fast@[i] + from.status_counts_fast@[i] <= u64::MAX,
        map_add_fits(old(into).status_counts_other@, from.status_counts_other@),
        map_add_fits(old(into).connect_addr_counts@, from.connect_addr_counts@),
    ensures
        final(into).wf(),
        final(into).requests_started == old(into).requests_started + from.requests_started,
        final(into).requests_completed == old(into).requests_completed + from.requests_completed,
        final(into).ok == old(into).ok + from.ok,
        final(into).err_connect == old(into).err_connect + from.err_connect,
        final(into).err_tls == old(into).err_tls + from.err_tls,
        final(into).err_timeout == old(into).err_timeout + from.err_timeout,
        final(into).err_http == old(into).err_http + from.err_http,
        final(into).bytes_in == old(into).bytes_in + from.bytes_in,
        final(into).bytes_out == old(into).bytes_out + from.bytes_out,
        final(into).connect_v4_count == old(into).connect_v4_count + from.connect_v4_count,
        final(into).connect_v6_count == old(into).connect_v6_count + from.connect_v6_count,
        forall|i: int| 0 <= i < STATUS_FASTPATH_MAX ==> #[trigger] final(into).status_counts_fast@[i] == old(into).status_counts_fast@[i] + from.status_counts_fast@[i],
        final(into).status_counts_other@ == map_add(old(into).status_counts_other@, from.status_counts_other@),
        forall|s: u16| #[trigger] final(into).status_count(s) == old(into).status_count(s) + from.status_count(s),
        forall|s: u16| #[trigger] final(into).has_status(s) == (old(into).has_status(s) || from.has_status(s)),
        final(into).connect_addr_counts@ == map_add(old(into).connect_addr_counts@, from.connect_addr_counts@),
        final(into).tls_protocol == if old(into).tls_protocol is Some { old(into).tls_protocol } else { from.tls_protocol },
        final(into).tls_cipher == if old(into).tls_cipher is Some { old(into).tls_cipher } else { from.tls_cipher },
        absorbs(old(into).latency_hist, final(into).latency_hist, from.latency_hist),
        absorbs(old(into).ttfb_hist, final(into).ttfb_hist, from.ttfb_hist),
        absorbs(old(into).connect_hist, final(into).connect_hist, from.connect_hist),
        old(into).consistent() && from.consistent() ==> final(into).consistent(),
{
    hist_add(&mut into.latency_hist, &from.latency_hist);
    hist_add(&mut into.ttfb_hist, &from.ttfb_hist);
    hist_add(&mut into.connect_hist, &from.connect_hist);
    into.requests_started = into.requests_started + from.requests_started;
    into.requests_completed = into.requests_completed + from.requests_completed;
    into.ok = into.ok + from.ok;
    into.err_connect = into.err_connect + from.err_connect;
    into.err_tls = into.err_tls + from.err_tls;
    into.err_timeout = into.err_timeout + from.err_timeout;
    into.err_http = into.err_http + from.err_http;
    into.bytes_in = into.bytes_in + from.bytes_in;
    into.bytes_out = into.bytes_out + from.bytes_out;
    into.connect_v4_count = into.connect_v4_count + from.connect_v4_count;
    into.connect_v6_count = into.connect_v6_count + from.connect_v6_count;
    add_fast_counts(&mut into.status_counts_fast, &from.status_counts_fast);
    into.status_counts_other.add_all(&from.status_counts_other);
    into.connect_addr_counts.add_all(&from.connect_addr_counts);
    if into.tls_protocol.is_none() {
        into.tls_protocol = from.tls_protocol;
    }
    if into.tls_cipher.is_none() {
        into.tls_cipher = from.tls_cipher;
    }
}

} // verus!
