//! Merging the reports of several load-generating machines into one, with
//! their latency histograms merged from the encoded form they travel in.

use vstd::prelude::*;
use vstd::multiset::Multiset;
use crate::counts::{AddrCounts, CountMap, StatusCounts, get_or_zero, map_add, map_add_fits};
use crate::histogram::{
    Histogram, addition_error_text, b64_decode_safe, deserialize_histogram_b64, hist_add, hist_add_ok, hist_config,
    hist_samples,
    hist_text_decoding, new_histogram, standard_config,
};
use crate::metrics::{lemma_nsum_step_fits, lemma_nsum_take, nsum, status_range_sum};

verus! {

/// The parts of a run report that a merge reads, apart from its floating-point
/// figures (duration, target rate, elapsed time), which the caller merges.
pub struct ReportCounts {
    pub proto: String,
    pub url: String,
    pub h3_backend: Option<String>,
    pub clients: usize,
    pub threads: usize,
    pub max_streams: u32,
    pub mode: String,
    pub tls_protocol: Option<String>,
    pub tls_cipher: Option<String>,
    pub metrics_sample: u32,
    pub requests_target: u64,
    pub requests_started: u64,
    pub requests_completed: u64,
    pub ok: u64,
    pub err_connect: u64,
    pub err_tls: u64,
    pub err_timeout: u64,
    pub err_http: u64,
    pub bytes_in: u64,
    pub bytes_out: u64,
    pub connect_v4_count: u64,
    pub connect_v6_count: u64,
    pub status_counts: StatusCounts,
    pub connect_addr_counts: AddrCounts,
    pub latency_hist_b64: Option<String>,
    pub ttfb_hist_b64: Option<String>,
    pub connect_hist_b64: Option<String>,
}

/// The merged figures of several reports.
pub struct DistributedTotals {
    pub proto: String,
    pub url: String,
    pub h3_backend: Option<String>,
    pub clients: usize,
    pub threads: usize,
    pub max_streams: u32,
    pub mode: String,
    pub tls_protocol: Option<String>,
    pub tls_cipher: Option<String>,
    pub metrics_sample: u32,
    pub requests_target: u64,
    pub requests_started: u64,
    pub requests_completed: u64,
    pub ok: u64,
    pub err_connect: u64,
    pub err_tls: u64,
    pub err_timeout: u64,
    pub err_http: u64,
    pub err_total: u64,
    pub bytes_in: u64,
    pub bytes_out: u64,
    pub connect_v4_count: u64,
    pub connect_v6_count: u64,
    pub status_counts: StatusCounts,
    pub status_2xx: u64,
    pub status_3xx: u64,
    pub status_4xx: u64,
    pub status_5xx: u64,
    pub connect_addr_counts: AddrCounts,
    pub latency: Histogram,
    pub ttfb: Histogram,
    pub connect: Histogram,
}

/// What a merge of reports gives: a single report stands as it is (without
/// its encoded histograms); several are combined.
pub enum DistributedMerge {
    Single,
    Combined(DistributedTotals),
}

/// An optional encoded histogram that is absent or decodes with the standard bounds.
pub open spec fn field_ok(o: Option<String>) -> bool {
    match o {
        Some(s) => hist_text_decoding(s@) matches Ok(d) && d.0 == standard_config(),
        None => true,
    }
}

/// An optional encoded histogram that is absent, or decodes and can be
/// added into a histogram with the standard bounds.
pub open spec fn field_merges(o: Option<String>) -> bool {
    match o {
        Some(s) => hist_text_decoding(s@) matches Ok(d) && hist_add_ok(standard_config(), d.0, d.1),
        None => true,
    }
}

/// An optional encoded histogram that is absent or safe to decode.
pub open spec fn field_safe(o: Option<String>) -> bool {
    match o {
        Some(s) => b64_decode_safe(s@),
        None => true,
    }
}

/// `e` is the error that merging the optional encoded histogram `o`, named
/// `label`, ends in: the decoder's text where it does not decode, or, where
/// it decodes but cannot be added, the label, ` merge: ` and the adder's
/// text.
pub open spec fn field_error(o: Option<String>, label: Seq<char>, e: Seq<char>) -> bool {
    match o {
        None => false,
        Some(s) => match hist_text_decoding(s@) {
            Err(t) => e == t,
            Ok(d) => !hist_add_ok(standard_config(), d.0, d.1) && e == label + " merge: "@ + addition_error_text(),
        },
    }
}

/// The samples an optional encoded histogram contributes.
pub open spec fn field_samples(o: Option<String>) -> Multiset<u64> {
    match o {
        Some(s) => match hist_text_decoding(s@) {
            Ok(d) => d.1,
            Err(_) => Multiset::empty(),
        },
        None => Multiset::empty(),
    }
}

/// All three encoded histograms of a report are absent or decode with the standard bounds.
pub open spec fn report_hists_ok(r: ReportCounts) -> bool {
    field_ok(r.latency_hist_b64) && field_ok(r.ttfb_hist_b64) && field_ok(r.connect_hist_b64)
}

/// All three encoded histograms of a report are absent or decode and can
/// be added.
pub open spec fn report_hists_merge(r: ReportCounts) -> bool {
    field_merges(r.latency_hist_b64) && field_merges(r.ttfb_hist_b64) && field_merges(r.connect_hist_b64)
}

/// All three encoded histograms of a report are absent or safe to decode.
pub open spec fn report_hists_safe(r: ReportCounts) -> bool {
    field_safe(r.latency_hist_b64) && field_safe(r.ttfb_hist_b64) && field_safe(r.connect_hist_b64)
}

/// The encoded histogram `j` of a report: latency, time to first byte,
/// connect time.
pub open spec fn hist_field(r: ReportCounts, j: int) -> Option<String> {
    if j == 0 {
        r.latency_hist_b64
    } else if j == 1 {
        r.ttfb_hist_b64
    } else {
        r.connect_hist_b64
    }
}

/// The name of encoded histogram `j` in a merge error.
pub open spec fn hist_label(j: int) -> Seq<char> {
    if j == 0 {
        "latency"@
    } else if j == 1 {
        "ttfb"@
    } else {
        "connect"@
    }
}

/// `e` is the error of a merge that went through the reports in order and,
/// in each, the latency, first-byte and connect histograms: every
/// histogram before some histogram `j` of report `i` was merged, and that
/// one ended in `e`. That histogram is the first that cannot be merged, so
/// `e` is determined by the reports.
pub open spec fn merge_error(rs: Seq<ReportCounts>, e: Seq<char>) -> bool {
    exists|i: int, j: int|
        0 <= i < rs.len() && 0 <= j < 3 && (forall|i2: int| 0 <= i2 < i ==> #[trigger] report_hists_merge(rs[i2]))
            && (forall|j2: int| 0 <= j2 < j ==> #[trigger] field_merges(hist_field(rs[i], j2)))
            && field_error(hist_field(rs[i], j), hist_label(j), e)
}

/// The samples of the histograms `f` picks, over the reports.
pub open spec fn field_samples_total(rs: Seq<ReportCounts>, f: spec_fn(ReportCounts) -> Option<String>) -> Multiset<u64>
    decreases rs.len(),
{
    if rs.len() == 0 {
        Multiset::empty()
    } else {
        field_samples_total(rs.drop_last(), f).add(field_samples(f(rs.last())))
    }
}

/// How many responses with status `s` the reports counted together.
pub open spec fn report_status_total(rs: Seq<ReportCounts>, s: u16) -> nat {
    nsum(rs, |r: ReportCounts| get_or_zero(r.status_counts@, s))
}

/// How many connections to `a` the reports counted together.
pub open spec fn report_addr_total(rs: Seq<ReportCounts>, a: Seq<char>) -> nat {
    nsum(rs, |r: ReportCounts| get_or_zero(r.connect_addr_counts@, a))
}

/// The sum over statuses in `[lo, hi)` of what the reports counted together.
pub open spec fn report_range_total(rs: Seq<ReportCounts>, lo: int, hi: int) -> nat
    decreases hi - lo,
{
    if hi <= lo {
        0
    } else {
        report_range_total(rs, lo, hi - 1) + report_status_total(rs, (hi - 1) as u16)
    }
}

/// Decodes an optional encoded histogram and adds it into `acc`; `label`
/// names the histogram in an error.
fn merge_hist_field(acc: &mut Histogram, b64: &Option<String>, label: &str) -> (r: Result<(), String>)
    requires
        hist_config(*old(acc)) == standard_config(),
        field_safe(*b64),
    ensures
        hist_config(*final(acc)) == standard_config(),
        field_ok(*b64) ==> r is Ok,
        r is Ok <==> field_merges(*b64),
        r matches Err(e) ==> field_error(*b64, label@, e@),
        r is Ok && field_ok(*b64) && hist_samples(*old(acc)).len() + field_samples(*b64).len() <= u64::MAX
            ==> hist_samples(*final(acc)) == hist_samples(*old(acc)).add(field_samples(*b64)),
{
    match b64 {
        None => {
            proof {
                assert(hist_samples(*old(acc)).add(Multiset::empty()) =~= hist_samples(*old(acc)));
            }
            Ok(())
        },
        Some(s) => {
            let h = match deserialize_histogram_b64(s.as_str()) {
                Ok(h) => h,
                Err(e) => {
                    return Err(e);
                },
            };
            match hist_add(acc, &h) {
                Ok(()) => Ok(()),
                Err(e) => {
                    let mut msg = crate::text::string_from_str(label);
                    crate::text::push_str(&mut msg, " merge: ");
                    crate::text::push_str(&mut msg, e.as_str());
                    assert(msg@ == label@ + " merge: "@ + e@);
                    Err(msg)
                },
            }
        },
    }
}

/// The counter totals of a merge in progress.
struct DistAcc {
    requests_started: u64,
    requests_completed: u64,
    ok: u64,
    err_connect: u64,
    err_tls: u64,
    err_timeout: u64,
    err_http: u64,
    bytes_in: u64,
    bytes_out: u64,
    connect_v4_count: u64,
    connect_v6_count: u64,
    clients: usize,
    threads: usize,
    requests_target: u64,
    status_counts: StatusCounts,
    connect_addr_counts: AddrCounts,
}

/// The sums a merge of `rs` produces stay within their integer types.
pub open spec fn report_sums_fit(rs: Seq<ReportCounts>) -> bool {
    &&& nsum(rs, |r: ReportCounts| r.requests_started as nat) <= u64::MAX
    &&& nsum(rs, |r: ReportCounts| r.requests_completed as nat) <= u64::MAX
    &&& nsum(rs, |r: ReportCounts| r.ok as nat) <= u64::MAX
    &&& nsum(rs, |r: ReportCounts| r.err_connect as nat) <= u64::MAX
    &&& nsum(rs, |r: ReportCounts| r.err_tls as nat) <= u64::MAX
    &&& nsum(rs, |r: ReportCounts| r.err_timeout as nat) <= u64::MAX
    &&& nsum(rs, |r: ReportCounts| r.err_http as nat) <= u64::MAX
    &&& nsum(rs, |r: ReportCounts| r.bytes_in as nat) <= u64::MAX
    &&& nsum(rs, |r: ReportCounts| r.bytes_out as nat) <= u64::MAX
    &&& nsum(rs, |r: ReportCounts| r.connect_v4_count as nat) <= u64::MAX
    &&& nsum(rs, |r: ReportCounts| r.connect_v6_count as nat) <= u64::MAX
    &&& nsum(rs, |r: ReportCounts| r.clients as nat) <= usize::MAX
    &&& nsum(rs, |r: ReportCounts| r.threads as nat) <= usize::MAX
    &&& nsum(rs, |r: ReportCounts| r.requests_target as nat) <= u64::MAX
    &&& nsum(rs, |r: ReportCounts| r.err_connect as nat) + nsum(rs, |r: ReportCounts| r.err_tls as nat)
        + nsum(rs, |r: ReportCounts| r.err_timeout as nat) + nsum(rs, |r: ReportCounts| r.err_http as nat) <= u64::MAX
    &&& forall|s: u16| #[trigger] report_status_total(rs, s) <= u64::MAX
    &&& forall|a: Seq<char>| #[trigger] report_addr_total(rs, a) <= u64::MAX
    &&& report_range_total(rs, 200, 300) <= u64::MAX
    &&& report_range_total(rs, 300, 400) <= u64::MAX
    &&& report_range_total(rs, 400, 500) <= u64::MAX
    &&& report_range_total(rs, 500, 600) <= u64::MAX
}

impl DistAcc {
    spec fn inv(&self, rs: Seq<ReportCounts>, i: int) -> bool {
        let p = rs.take(i);
        &&& 0 <= i <= rs.len()
        &&& self.requests_started == nsum(p, |r: ReportCounts| r.requests_started as nat)
        &&& self.requests_completed == nsum(p, |r: ReportCounts| r.requests_completed as nat)
        &&& self.ok == nsum(p, |r: ReportCounts| r.ok as nat)
        &&& self.err_connect == nsum(p, |r: ReportCounts| r.err_connect as nat)
        &&& self.err_tls == nsum(p, |r: ReportCounts| r.err_tls as nat)
        &&& self.err_timeout == nsum(p, |r: ReportCounts| r.err_timeout as nat)
        &&& self.err_http == nsum(p, |r: ReportCounts| r.err_http as nat)
        &&& self.bytes_in == nsum(p, |r: ReportCounts| r.bytes_in as nat)
        &&& self.bytes_out == nsum(p, |r: ReportCounts| r.bytes_out as nat)
        &&& self.connect_v4_count == nsum(p, |r: ReportCounts| r.connect_v4_count as nat)
        &&& self.connect_v6_count == nsum(p, |r: ReportCounts| r.connect_v6_count as nat)
        &&& self.clients == nsum(p, |r: ReportCounts| r.clients as nat)
        &&& self.threads == nsum(p, |r: ReportCounts| r.threads as nat)
        &&& self.requests_target == nsum(p, |r: ReportCounts| r.requests_target as nat)
        &&& self.status_counts.wf()
        &&& forall|s: u16| #[trigger] get_or_zero(self.status_counts@, s) == report_status_total(p, s)
        &&& self.connect_addr_counts.wf()
        &&& forall|a: Seq<char>| #[trigger] get_or_zero(self.connect_addr_counts@, a) == report_addr_total(p, a)
        &&& forall|s: u16| #[trigger] self.status_counts@.contains_key(s) == exists|j: int|
            0 <= j < i && #[trigger] rs[j].status_counts@.contains_key(s)
        &&& forall|a: Seq<char>| #[trigger] self.connect_addr_counts@.contains_key(a) == exists|j: int|
            0 <= j < i && #[trigger] rs[j].connect_addr_counts@.contains_key(a)
    }

    fn new() -> (r: Self)
        ensures
            forall|rs: Seq<ReportCounts>| r.inv(rs, 0),
    {
        let r = DistAcc {
            requests_started: 0,
            requests_completed: 0,
            ok: 0,
            err_connect: 0,
            err_tls: 0,
            err_timeout: 0,
            err_http: 0,
            bytes_in: 0,
            bytes_out: 0,
            connect_v4_count: 0,
            connect_v6_count: 0,
            clients: 0,
            threads: 0,
            requests_target: 0,
            status_counts: CountMap::new(),
            connect_addr_counts: CountMap::new(),
        };
        proof {
            assert forall|rs: Seq<ReportCounts>| r.inv(rs, 0) by {
                assert(rs.take(0) =~= Seq::<ReportCounts>::empty());
            }
        }
        r
    }

    fn absorb(&mut self, Ghost(rs): Ghost<Seq<ReportCounts>>, Ghost(i): Ghost<int>, r: &ReportCounts)
        requires
            0 <= i < rs.len(),
            rs[i] == *r,
            r.status_counts.wf(),
            r.connect_addr_counts.wf(),
            old(self).inv(rs, i),
            report_sums_fit(rs),
        ensures
            final(self).inv(rs, i + 1),
    {
        let ghost p = rs.take(i);
        let ghost q = rs.take(i + 1);
        proof {
            assert(q.drop_last() =~= p);
            lemma_nsum_step_fits(rs, |r: ReportCounts| r.requests_started as nat, i);
            lemma_nsum_step_fits(rs, |r: ReportCounts| r.requests_completed as nat, i);
            lemma_nsum_step_fits(rs, |r: ReportCounts| r.ok as nat, i);
            lemma_nsum_step_fits(rs, |r: ReportCounts| r.err_connect as nat, i);
            lemma_nsum_step_fits(rs, |r: ReportCounts| r.err_tls as nat, i);
            lemma_nsum_step_fits(rs, |r: ReportCounts| r.err_timeout as nat, i);
            lemma_nsum_step_fits(rs, |r: ReportCounts| r.err_http as nat, i);
            lemma_nsum_step_fits(rs, |r: ReportCounts| r.bytes_in as nat, i);
            lemma_nsum_step_fits(rs, |r: ReportCounts| r.bytes_out as nat, i);
            lemma_nsum_step_fits(rs, |r: ReportCounts| r.connect_v4_count as nat, i);
            lemma_nsum_step_fits(rs, |r: ReportCounts| r.connect_v6_count as nat, i);
            lemma_nsum_step_fits(rs, |r: ReportCounts| r.clients as nat, i);
            lemma_nsum_step_fits(rs, |r: ReportCounts| r.threads as nat, i);
            lemma_nsum_step_fits(rs, |r: ReportCounts| r.requests_target as nat, i);
        }
        self.requests_started = self.requests_started + r.requests_started;
        self.requests_completed = self.requests_completed + r.requests_completed;
        self.ok = self.ok + r.ok;
        self.err_connect = self.err_connect + r.err_connect;
        self.err_tls = self.err_tls + r.err_tls;
        self.err_timeout = self.err_timeout + r.err_timeout;
        self.err_http = self.err_http + r.err_http;
        self.bytes_in = self.bytes_in + r.bytes_in;
        self.bytes_out = self.bytes_out + r.bytes_out;
        self.connect_v4_count = self.connect_v4_count + r.connect_v4_count;
        self.connect_v6_count = self.connect_v6_count + r.connect_v6_count;
        self.clients = self.clients + r.clients;
        self.threads = self.threads + r.threads;
        self.requests_target = self.requests_target + r.requests_target;
        proof {
            assert forall|s: u16| #[trigger] get_or_zero(self.status_counts@, s) + get_or_zero(r.status_counts@, s) <= u64::MAX by {
                lemma_report_status_step(rs, s, i);
                assert(report_status_total(rs, s) <= u64::MAX);
            }
            assert forall|a: Seq<char>| #[trigger] get_or_zero(self.connect_addr_counts@, a) + get_or_zero(r.connect_addr_counts@, a) <= u64::MAX by {
                lemma_report_addr_step(rs, a, i);
                assert(report_addr_total(rs, a) <= u64::MAX);
            }
        }
        let ghost st0 = self.status_counts@;
        let ghost ad0 = self.connect_addr_counts@;
        self.status_counts.add_all(&r.status_counts);
        self.connect_addr_counts.add_all(&r.connect_addr_counts);
        proof {
            assert forall|s: u16| #[trigger] get_or_zero(self.status_counts@, s) == report_status_total(q, s) by {
                lemma_report_status_step(rs, s, i);
                assert(get_or_zero(st0, s) + get_or_zero(r.status_counts@, s) <= u64::MAX);
            }
            assert forall|a: Seq<char>| #[trigger] get_or_zero(self.connect_addr_counts@, a) == report_addr_total(q, a) by {
                lemma_report_addr_step(rs, a, i);
                assert(get_or_zero(ad0, a) + get_or_zero(r.connect_addr_counts@, a) <= u64::MAX);
            }
            assert forall|s: u16| #[trigger] self.status_counts@.contains_key(s) == exists|j: int|
                0 <= j < i + 1 && #[trigger] rs[j].status_counts@.contains_key(s) by {
                if exists|j: int| 0 <= j < i + 1 && #[trigger] rs[j].status_counts@.contains_key(s) {
                    let j = choose|j: int| 0 <= j < i + 1 && #[trigger] rs[j].status_counts@.contains_key(s);
                    if j < i {
                        assert(exists|j: int| 0 <= j < i && #[trigger] rs[j].status_counts@.contains_key(s));
                    }
                }
            }
            assert forall|a: Seq<char>| #[trigger] self.connect_addr_counts@.contains_key(a) == exists|j: int|
                0 <= j < i + 1 && #[trigger] rs[j].connect_addr_counts@.contains_key(a) by {
                if exists|j: int| 0 <= j < i + 1 && #[trigger] rs[j].connect_addr_counts@.contains_key(a) {
                    let j = choose|j: int| 0 <= j < i + 1 && #[trigger] rs[j].connect_addr_counts@.contains_key(a);
                    if j < i {
                        assert(exists|j: int| 0 <= j < i && #[trigger] rs[j].connect_addr_counts@.contains_key(a));
                    }
                }
            }
        }
    }
}

proof fn lemma_report_status_step(rs: Seq<ReportCounts>, s: u16, i: int)
    requires
        0 <= i < rs.len(),
    ensures
        report_status_total(rs.take(i + 1), s) == report_status_total(rs.take(i), s) + get_or_zero(rs[i].status_counts@, s),
        report_status_total(rs.take(i + 1), s) <= report_status_total(rs, s),
{
    lemma_nsum_step_fits(rs, |r: ReportCounts| get_or_zero(r.status_counts@, s), i);
}

proof fn lemma_report_addr_step(rs: Seq<ReportCounts>, a: Seq<char>, i: int)
    requires
        0 <= i < rs.len(),
    ensures
        report_addr_total(rs.take(i + 1), a) == report_addr_total(rs.take(i), a) + get_or_zero(rs[i].connect_addr_counts@, a),
        report_addr_total(rs.take(i + 1), a) <= report_addr_total(rs, a),
{
    lemma_nsum_step_fits(rs, |r: ReportCounts| get_or_zero(r.connect_addr_counts@, a), i);
}

proof fn lemma_report_range(m: Map<u16, u64>, rs: Seq<ReportCounts>, lo: int, hi: int)
    requires
        0 <= lo,
        hi <= 65536,
        forall|s: u16| #[trigger] get_or_zero(m, s) == report_status_total(rs, s),
    ensures
        status_range_sum(m, lo, hi) == report_range_total(rs, lo, hi),
    decreases hi - lo,
{
    if hi > lo {
        lemma_report_range(m, rs, lo, hi - 1);
    }
}

/// The merged histogram `h` holds the samples of the first `i` reports'
/// encoded histograms that `f` picks, where all decode with the standard
/// bounds and the total fits.
pub open spec fn field_tracks(h: Histogram, rs: Seq<ReportCounts>, i: int, f: spec_fn(ReportCounts) -> Option<String>) -> bool {
    (forall|j: int| 0 <= j < rs.len() ==> #[trigger] field_ok(f(rs[j])))
        && field_samples_total(rs, f).len() <= u64::MAX ==> hist_samples(h) == field_samples_total(rs.take(i), f)
}

proof fn lemma_field_total_take(rs: Seq<ReportCounts>, f: spec_fn(ReportCounts) -> Option<String>, i: int)
    requires
        0 <= i <= rs.len(),
    ensures
        field_samples_total(rs.take(i), f).len() <= field_samples_total(rs, f).len(),
        i < rs.len() ==> field_samples_total(rs.take(i + 1), f) == field_samples_total(rs.take(i), f).add(field_samples(f(rs[i]))),
    decreases rs.len() - i,
{
    if i < rs.len() {
        assert(rs.take(i + 1).drop_last() =~= rs.take(i));
        lemma_field_total_take(rs, f, i + 1);
    } else {
        assert(rs.take(i) =~= rs);
    }
}

/// Adds report `i`'s encoded histogram picked by `f` into `acc`.
fn merge_field_step(
    acc: &mut Histogram,
    b64: &Option<String>,
    label: &str,
    Ghost(rs): Ghost<Seq<ReportCounts>>,
    Ghost(i): Ghost<int>,
    Ghost(f): Ghost<spec_fn(ReportCounts) -> Option<String>>,
) -> (r: Result<(), String>)
    requires
        0 <= i < rs.len(),
        f(rs[i]) == *b64,
        hist_config(*old(acc)) == standard_config(),
        field_tracks(*old(acc), rs, i, f),
        field_safe(*b64),
    ensures
        hist_config(*final(acc)) == standard_config(),
        field_ok(*b64) ==> r is Ok,
        r is Ok <==> field_merges(*b64),
        r matches Err(e) ==> field_error(*b64, label@, e@),
        r is Ok ==> field_tracks(*final(acc), rs, i + 1, f),
{
    let ghost a0 = *acc;
    let r = merge_hist_field(acc, b64, label);
    proof {
        lemma_field_total_take(rs, f, i);
        lemma_field_total_take(rs, f, i + 1);
        if (forall|j: int| 0 <= j < rs.len() ==> #[trigger] field_ok(f(rs[j])))
            && field_samples_total(rs, f).len() <= u64::MAX {
            assert(field_ok(f(rs[i])));
        }
    }
    r
}

/// Merges the reports of several machines. Counters, status and address
/// counts, client and thread counts and request targets are summed; the
/// encoded histograms are decoded and added; the remaining settings are
/// taken from the first report. A single report stands as it is; no report
/// at all is an error, and so is an encoded histogram that fails to decode
/// or to add.
#[verifier::rlimit(20)]
pub fn merge_distributed_reports(reports: Vec<ReportCounts>) -> (r: Result<DistributedMerge, String>)
    requires
        forall|i: int| 0 <= i < reports@.len() ==> (#[trigger] reports@[i]).status_counts.wf()
            && reports@[i].connect_addr_counts.wf(),
        reports@.len() >= 2 ==> report_sums_fit(reports@),
        reports@.len() >= 2 ==> forall|i: int| 0 <= i < reports@.len() ==> #[trigger] report_hists_safe(reports@[i]),
    ensures
        reports@.len() == 0 ==> (r matches Err(e) && e@ == "no reports to merge"@),
        reports@.len() == 1 ==> r matches Ok(DistributedMerge::Single),
        reports@.len() >= 2 && r is Ok ==> r matches Ok(DistributedMerge::Combined(_)),
        reports@.len() >= 2 && r is Ok ==> forall|i: int| 0 <= i < reports@.len() ==> #[trigger] report_hists_merge(reports@[i]),
        reports@.len() >= 2 && (forall|i: int| 0 <= i < reports@.len() ==> #[trigger] report_hists_merge(reports@[i]))
            ==> r matches Ok(DistributedMerge::Combined(_)),
        reports@.len() >= 2 ==> (r matches Err(e) ==> merge_error(reports@, e@)),
        r is Err ==> reports@.len() == 0 || exists|i: int| 0 <= i < reports@.len() && !report_hists_ok(#[trigger] reports@[i]),
        reports@.len() >= 2 && (forall|i: int| 0 <= i < reports@.len() ==> report_hists_ok(#[trigger] reports@[i]))
            ==> r matches Ok(DistributedMerge::Combined(_)),
        r matches Ok(DistributedMerge::Combined(t)) ==> {
            let rs = reports@;
            &&& rs.len() >= 2
            &&& t.proto == rs[0].proto
            &&& t.url == rs[0].url
            &&& t.h3_backend == rs[0].h3_backend
            &&& t.max_streams == rs[0].max_streams
            &&& t.mode == rs[0].mode
            &&& t.tls_protocol == rs[0].tls_protocol
            &&& t.tls_cipher == rs[0].tls_cipher
            &&& t.metrics_sample == rs[0].metrics_sample
            &&& t.clients == nsum(rs, |r: ReportCounts| r.clients as nat)
            &&& t.threads == nsum(rs, |r: ReportCounts| r.threads as nat)
            &&& t.requests_target == nsum(rs, |r: ReportCounts| r.requests_target as nat)
            &&& t.requests_started == nsum(rs, |r: ReportCounts| r.requests_started as nat)
            &&& t.requests_completed == nsum(rs, |r: ReportCounts| r.requests_completed as nat)
            &&& t.ok == nsum(rs, |r: ReportCounts| r.ok as nat)
            &&& t.err_connect == nsum(rs, |r: ReportCounts| r.err_connect as nat)
            &&& t.err_tls == nsum(rs, |r: ReportCounts| r.err_tls as nat)
            &&& t.err_timeout == nsum(rs, |r: ReportCounts| r.err_timeout as nat)
            &&& t.err_http == nsum(rs, |r: ReportCounts| r.err_http as nat)
            &&& t.err_total == t.err_connect + t.err_tls + t.err_timeout + t.err_http
            &&& t.bytes_in == nsum(rs, |r: ReportCounts| r.bytes_in as nat)
            &&& t.bytes_out == nsum(rs, |r: ReportCounts| r.bytes_out as nat)
            &&& t.connect_v4_count == nsum(rs, |r: ReportCounts| r.connect_v4_count as nat)
            &&& t.connect_v6_count == nsum(rs, |r: ReportCounts| r.connect_v6_count as nat)
            &&& t.status_counts.wf()
            &&& (forall|s: u16| #[trigger] get_or_zero(t.status_counts@, s) == report_status_total(rs, s))
            &&& t.connect_addr_counts.wf()
            &&& (forall|a: Seq<char>| #[trigger] get_or_zero(t.connect_addr_counts@, a) == report_addr_total(rs, a))
            &&& (forall|s: u16| #[trigger] t.status_counts@.contains_key(s) == exists|i: int|
                0 <= i < rs.len() && #[trigger] rs[i].status_counts@.contains_key(s))
            &&& (forall|a: Seq<char>| #[trigger] t.connect_addr_counts@.contains_key(a) == exists|i: int|
                0 <= i < rs.len() && #[trigger] rs[i].connect_addr_counts@.contains_key(a))
            &&& t.status_2xx == report_range_total(rs, 200, 300)
            &&& t.status_3xx == report_range_total(rs, 300, 400)
            &&& t.status_4xx == report_range_total(rs, 400, 500)
            &&& t.status_5xx == report_range_total(rs, 500, 600)
            &&& hist_config(t.latency) == standard_config()
            &&& hist_config(t.ttfb) == standard_config()
            &&& hist_config(t.connect) == standard_config()
            &&& field_tracks(t.latency, rs, rs.len() as int, |r: ReportCounts| r.latency_hist_b64)
            &&& field_tracks(t.ttfb, rs, rs.len() as int, |r: ReportCounts| r.ttfb_hist_b64)
            &&& field_tracks(t.connect, rs, rs.len() as int, |r: ReportCounts| r.connect_hist_b64)
        },
{
    let ghost rs = reports@;
    if reports.len() == 0 {
        let e = crate::text::string_from_str("no reports to merge");
        return Err(e);
    }
    if reports.len() == 1 {
        return Ok(DistributedMerge::Single);
    }
    let mut latency = new_histogram();
    let mut ttfb = new_histogram();
    let mut connect = new_histogram();
    proof {
        assert(rs.take(0) =~= Seq::<ReportCounts>::empty());
        vstd::multiset::lemma_multiset_empty_len(hist_samples(latency));
        vstd::multiset::lemma_multiset_empty_len(hist_samples(ttfb));
        vstd::multiset::lemma_multiset_empty_len(hist_samples(connect));
    }
    let mut acc = DistAcc::new();
    let n = reports.len();
    let mut i: usize = 0;
    while i < n
        invariant
            rs == reports@,
            n == rs.len(),
            n >= 2,
            i <= n,
            forall|j: int| 0 <= j < rs.len() ==> (#[trigger] rs[j]).status_counts.wf()
                && rs[j].connect_addr_counts.wf(),
            report_sums_fit(rs),
            forall|j: int| 0 <= j < rs.len() ==> #[trigger] report_hists_safe(rs[j]),
            forall|j: int| 0 <= j < i ==> #[trigger] report_hists_merge(rs[j]),
            acc.inv(rs, i as int),
            hist_config(latency) == standard_config(),
            hist_config(ttfb) == standard_config(),
            hist_config(connect) == standard_config(),
            field_tracks(latency, rs, i as int, |r: ReportCounts| r.latency_hist_b64),
            field_tracks(ttfb, rs, i as int, |r: ReportCounts| r.ttfb_hist_b64),
            field_tracks(connect, rs, i as int, |r: ReportCounts| r.connect_hist_b64),
        decreases n - i,
    {
        let rep = &reports[i];
        proof {
            assert(report_hists_safe(rs[i as int]));
        }
        let r1 = merge_field_step(&mut latency, &rep.latency_hist_b64, "latency", Ghost(rs), Ghost(i as int), Ghost(|r: ReportCounts| r.latency_hist_b64));
        if let Err(e) = r1 {
            proof {
                assert(field_error(hist_field(rs[i as int], 0), hist_label(0), e@));
                assert(merge_error(rs, e@));
                assert(!report_hists_merge(rs[i as int]));
            }
            return Err(e);
        }
        let r2 = merge_field_step(&mut ttfb, &rep.ttfb_hist_b64, "ttfb", Ghost(rs), Ghost(i as int), Ghost(|r: ReportCounts| r.ttfb_hist_b64));
        if let Err(e) = r2 {
            proof {
                assert(field_merges(hist_field(rs[i as int], 0)));
                assert(field_error(hist_field(rs[i as int], 1), hist_label(1), e@));
                assert(merge_error(rs, e@));
                assert(!report_hists_merge(rs[i as int]));
            }
            return Err(e);
        }
        let r3 = merge_field_step(&mut connect, &rep.connect_hist_b64, "connect", Ghost(rs), Ghost(i as int), Ghost(|r: ReportCounts| r.connect_hist_b64));
        if let Err(e) = r3 {
            proof {
                assert(field_merges(hist_field(rs[i as int], 0)));
                assert(field_merges(hist_field(rs[i as int], 1)));
                assert(field_error(hist_field(rs[i as int], 2), hist_label(2), e@));
                assert(merge_error(rs, e@));
                assert(!report_hists_merge(rs[i as int]));
            }
            return Err(e);
        }
        proof {
            assert(report_hists_merge(rs[i as int]));
        }
        acc.absorb(Ghost(rs), Ghost(i as int), rep);
        i = i + 1;
    }
    proof {
        assert(rs.take(n as int) =~= rs);
        lemma_report_range(acc.status_counts@, rs, 200, 300);
        lemma_report_range(acc.status_counts@, rs, 300, 400);
        lemma_report_range(acc.status_counts@, rs, 400, 500);
        lemma_report_range(acc.status_counts@, rs, 500, 600);
    }
    let status_2xx = sum_range(&acc.status_counts, 200, 300);
    let status_3xx = sum_range(&acc.status_counts, 300, 400);
    let status_4xx = sum_range(&acc.status_counts, 400, 500);
    let status_5xx = sum_range(&acc.status_counts, 500, 600);
    let first = &reports[0];
    let t = DistributedTotals {
        proto: first.proto.clone(),
        url: first.url.clone(),
        h3_backend: clone_opt(&first.h3_backend),
        clients: acc.clients,
        threads: acc.threads,
        max_streams: first.max_streams,
        mode: first.mode.clone(),
        tls_protocol: clone_opt(&first.tls_protocol),
        tls_cipher: clone_opt(&first.tls_cipher),
        metrics_sample: first.metrics_sample,
        requests_target: acc.requests_target,
        requests_started: acc.requests_started,
        requests_completed: acc.requests_completed,
        ok: acc.ok,
        err_connect: acc.err_connect,
        err_tls: acc.err_tls,
        err_timeout: acc.err_timeout,
        err_http: acc.err_http,
        err_total: acc.err_connect + acc.err_tls + acc.err_timeout + acc.err_http,
        bytes_in: acc.bytes_in,
        bytes_out: acc.bytes_out,
        connect_v4_count: acc.connect_v4_count,
        connect_v6_count: acc.connect_v6_count,
        status_counts: acc.status_counts,
        status_2xx,
        status_3xx,
        status_4xx,
        status_5xx,
        connect_addr_counts: acc.connect_addr_counts,
        latency,
        ttfb,
        connect,
    };
    Ok(DistributedMerge::Combined(t))
}

fn clone_opt(o: &Option<String>) -> (r: Option<String>)
    ensures
        r == *o,
{
    match o {
        Some(s) => Some(s.clone()),
        None => None,
    }
}

fn sum_range(m: &StatusCounts, lo: u16, hi: u16) -> (r: u64)
    requires
        m.wf(),
        lo <= hi,
        status_range_sum(m@, lo as int, hi as int) <= u64::MAX,
    ensures
        r == status_range_sum(m@, lo as int, hi as int),
{
    crate::metrics::sum_status_range(m, lo, hi)
}

} // verus!
