//! The benchmark runner's decisions: how the work is split over workers and
//! lanes, when each lane may start a request, and what a finished request
//! does to the metrics.

use vstd::prelude::*;
use crate::driver::{RequestError, RequestResult};
use crate::counts::get_or_zero;
use crate::metrics::{AddrFamily, ConnectAddr, ErrorClass, WorkerMetrics, records};

verus! {

/// The share of `total` that part `i` of `parts` receives: the quotient,
/// plus one for the first `total % parts` parts.
pub open spec fn even_share(total: nat, parts: nat, i: int) -> nat
    recommends
        parts > 0,
{
    total / parts + if i < (total % parts) as int { 1nat } else { 0nat }
}

/// Split `total` into `parts` shares that differ by at most one, larger
/// shares first.
pub fn split_u64_even(total: u64, parts: usize) -> (out: Vec<u64>)
    ensures
        out@.len() == parts,
        forall|i: int| 0 <= i < parts ==> #[trigger] out@[i] == even_share(total as nat, parts as nat, i),
{
    let mut out: Vec<u64> = Vec::new();
    if parts == 0 {
        return out;
    }
    let p: u64 = parts as u64;
    let base: u64 = total / p;
    let rem: u64 = total % p;
    let mut i: usize = 0;
    while i < parts
        invariant
            parts > 0,
            p == parts,
            base == total / p,
            rem == total % p,
            i <= parts,
            out@.len() == i,
            forall|j: int| 0 <= j < i ==> #[trigger] out@[j] == even_share(total as nat, parts as nat, j),
        decreases parts - i,
    {
        assert(base * p <= total) by (nonlinear_arith)
            requires base == total / p, p > 0;
        let extra: u64 = if (i as u64) < rem { 1 } else { 0 };
        assert(base + extra <= u64::MAX) by (nonlinear_arith)
            requires base == total / p, p > 0, extra <= 1, rem == total % p, extra == 1 ==> rem > 0;
        out.push(base + extra);
        i = i + 1;
    }
    out
}

/// The sum of the first `k` shares of `total` over `parts`.
pub open spec fn share_sum(total: nat, parts: nat, k: nat) -> nat
    decreases k,
{
    if k == 0 {
        0
    } else {
        share_sum(total, parts, (k - 1) as nat) + even_share(total, parts, k - 1)
    }
}

/// The first `k` shares hold `k` quotients and one more for each of them
/// below the remainder.
proof fn lemma_share_sum_closed(total: nat, parts: nat, k: nat)
    requires
        parts > 0,
    ensures
        share_sum(total, parts, k) == k * (total / parts) + if k <= total % parts { k } else { total % parts },
    decreases k,
{
    if k > 0 {
        lemma_share_sum_closed(total, parts, (k - 1) as nat);
        let q = total / parts;
        let r = total % parts;
        let km1 = (k - 1) as nat;
        assert(k * q == km1 * q + q) by (nonlinear_arith)
            requires km1 + 1 == k;
        assert(share_sum(total, parts, k) == share_sum(total, parts, (k - 1) as nat) + even_share(total, parts, k - 1));
        assert(even_share(total, parts, k - 1) == q + if k - 1 < r { 1nat } else { 0nat });
    } else {
        let q = total / parts;
        assert(k * q == 0) by (nonlinear_arith)
            requires k == 0;
    }
}

/// The shares of an even split add up to the total.
pub proof fn lemma_split_sums_to_total(total: nat, parts: nat)
    requires
        parts > 0,
    ensures
        share_sum(total, parts, parts) == total,
{
    lemma_share_sum_closed(total, parts, parts);
    assert(parts * (total / parts) + total % parts == total) by (nonlinear_arith)
        requires parts > 0;
}

/// The shares of an even split never grow from one part to a later one,
/// and no two differ by more than one.
pub proof fn lemma_split_balanced(total: nat, parts: nat, i: int, j: int)
    requires
        parts > 0,
        0 <= i <= j < parts,
    ensures
        even_share(total, parts, j) <= even_share(total, parts, i),
        even_share(total, parts, i) <= even_share(total, parts, j) + 1,
{
}

// ---------------------------------------------------------------------------
// Shape of a run
// ---------------------------------------------------------------------------

/// The number of worker threads: the requested number, at least one and at
/// most one per client.
pub open spec fn worker_count_spec(threads: nat, clients: nat) -> nat {
    let t = if threads >= 1 { threads } else { 1 };
    if t <= clients { t } else { clients }
}

pub fn worker_count(threads: usize, clients: usize) -> (w: usize)
    ensures
        w == worker_count_spec(threads as nat, clients as nat),
{
    let t = if threads >= 1 { threads } else { 1 };
    if t <= clients { t } else { clients }
}

/// Lanes per client: one in tail-friendly mode or where connections do not
/// multiplex, else the stream limit (at least one).
pub open spec fn lanes_per_client_spec(tail_friendly: bool, multiplexed: bool, max_streams: u32) -> nat {
    if tail_friendly || !multiplexed {
        1
    } else if max_streams >= 1 {
        max_streams as nat
    } else {
        1
    }
}

pub fn lanes_per_client(tail_friendly: bool, multiplexed: bool, max_streams: u32) -> (n: usize)
    ensures
        n == lanes_per_client_spec(tail_friendly, multiplexed, max_streams),
{
    if tail_friendly || !multiplexed {
        1
    } else if max_streams >= 1 {
        max_streams as usize
    } else {
        1
    }
}

/// All lanes of a run: clients times lanes per client, saturating, and at
/// least one.
pub fn total_lanes(clients: usize, lanes_per_client: usize) -> (n: usize)
    ensures
        n == (if clients * lanes_per_client > usize::MAX {
            usize::MAX as int
        } else if clients * lanes_per_client >= 1 {
            clients * lanes_per_client
        } else {
            1
        }),
{
    let p = clients.checked_mul(lanes_per_client);
    match p {
        None => usize::MAX,
        Some(v) => if v >= 1 { v } else { 1 },
    }
}

/// When measuring starts, in nanoseconds after the start: after warm-up
/// and ramp-up in timed runs (saturating), at once in counted runs.
pub fn measure_starts_in(duration_mode: bool, warm_up_ns: u64, ramp_up_ns: u64) -> (t: u64)
    ensures
        t == (if !duration_mode {
            0
        } else if warm_up_ns + ramp_up_ns > u64::MAX {
            u64::MAX as int
        } else {
            warm_up_ns + ramp_up_ns
        }),
{
    if !duration_mode {
        0
    } else {
        warm_up_ns.saturating_add(ramp_up_ns)
    }
}

/// The measured part of a run's elapsed time: what follows warm-up and
/// ramp-up in timed runs (saturating at zero), all of it in counted runs.
pub fn measured_elapsed(duration_mode: bool, total_ns: u64, measure_starts_in: u64) -> (t: u64)
    ensures
        t == (if !duration_mode {
            total_ns as int
        } else if total_ns >= measure_starts_in {
            total_ns - measure_starts_in
        } else {
            0
        }),
{
    if !duration_mode {
        total_ns
    } else {
        total_ns.saturating_sub(measure_starts_in)
    }
}

/// The start offset of item `index` of `count` spread evenly over `total`
/// nanoseconds: zero for the first, and `total * index / (count - 1)` for
/// the rest (index capped at `count - 1`, the product saturating).
pub open spec fn scaled_offset(total: nat, index: nat, count: nat) -> nat {
    if total == 0 || count <= 1 || index == 0 {
        0
    } else {
        let numerator = if index <= count - 1 { index } else { (count - 1) as nat };
        let product = if total * numerator > u128::MAX { u128::MAX as nat } else { total * numerator };
        let q = product / ((count - 1) as nat);
        if q > u64::MAX { u64::MAX as nat } else { q }
    }
}

/// The ramp-up start offset of item `index` of `count`, in nanoseconds.
pub fn scale_duration(total_ns: u128, index: usize, count: usize) -> (r: u64)
    ensures
        r == scaled_offset(total_ns as nat, index as nat, count as nat),
{
    if total_ns == 0 || count <= 1 || index == 0 {
        return 0;
    }
    let denominator: u128 = (count - 1) as u128;
    let numerator: u128 = if index <= count - 1 { index as u128 } else { (count - 1) as u128 };
    let product: u128 = match total_ns.checked_mul(numerator) {
        Some(p) => p,
        None => u128::MAX,
    };
    let q: u128 = product / denominator;
    if q > u64::MAX as u128 {
        u64::MAX
    } else {
        q as u64
    }
}

/// Takes one request from a shared budget value: the value after taking,
/// or nothing when the budget is spent.
pub fn take_budget(v: u64) -> (r: Option<u64>)
    ensures
        v > 0 ==> r == Some((v - 1) as u64),
        v == 0 ==> r is None,
{
    if v > 0 {
        Some(v - 1)
    } else {
        None
    }
}

/// Whether a run with this deadline (nanoseconds after its start) is over
/// at `elapsed`.
pub fn deadline_reached(run_deadline: Option<u64>, elapsed: u64) -> (r: bool)
    ensures
        r == (run_deadline matches Some(d) && elapsed >= d),
{
    match run_deadline {
        Some(d) => elapsed >= d,
        None => false,
    }
}

/// The run deadline: the measured duration after measuring starts,
/// saturating.
pub fn run_deadline(duration_ns: Option<u64>, measure_starts_in: u64) -> (r: Option<u64>)
    ensures
        match duration_ns {
            None => r is None,
            Some(d) => r == Some(if measure_starts_in + d > u64::MAX { u64::MAX } else { (measure_starts_in + d) as u64 }),
        },
{
    match duration_ns {
        None => None,
        Some(d) => Some(measure_starts_in.saturating_add(d)),
    }
}

/// What one worker thread is given: its clients, its request budget and the
/// index of its first lane among all lanes.
#[derive(Debug)]
pub struct WorkerShare {
    pub clients: u64,
    pub budget: u64,
    pub lane_base: usize,
}

/// `a * b`, saturating at `usize::MAX`.
pub open spec fn sat_mul(a: nat, b: nat) -> nat {
    if a * b > usize::MAX { usize::MAX as nat } else { a * b }
}

/// `a + b`, saturating at `usize::MAX`.
pub open spec fn sat_add(a: nat, b: nat) -> nat {
    if a + b > usize::MAX { usize::MAX as nat } else { a + b }
}

/// The first lane of worker `i`: the lanes of the workers before it,
/// added up with saturation.
pub open spec fn lane_base_of(clients: Seq<u64>, lanes_per_client: nat, i: nat) -> nat
    decreases i,
{
    if i == 0 {
        0
    } else {
        sat_add(lane_base_of(clients, lanes_per_client, (i - 1) as nat), sat_mul(clients[i - 1] as nat, lanes_per_client))
    }
}

/// The clients of each worker.
pub open spec fn client_shares(clients: usize, workers: usize) -> Seq<u64> {
    Seq::new(workers as nat, |j: int| even_share(clients as nat, workers as nat, j) as u64)
}

/// Worker `i`'s share: its even share of the clients, its even share of the
/// requests in counted runs (none in timed runs), and its first lane.
pub open spec fn share_ok(w: WorkerShare, clients: usize, workers: usize, total_requests: u64, duration_mode: bool, cl: Seq<u64>, lanes_per_client: usize, i: int) -> bool {
    &&& w.clients == even_share(clients as nat, workers as nat, i)
    &&& w.budget == (if duration_mode { 0 } else { even_share(total_requests as nat, workers as nat, i) })
    &&& w.lane_base == lane_base_of(cl, lanes_per_client as nat, i as nat)
}

/// Splits a run over `workers` threads: clients evenly, the request budget
/// evenly in counted runs (none in timed runs), and consecutive lane ranges.
pub fn plan_workers(clients: usize, workers: usize, total_requests: u64, duration_mode: bool, lanes_per_client: usize) -> (plan: Vec<WorkerShare>)
    ensures
        plan@.len() == workers,
        forall|i: int| 0 <= i < workers ==> #[trigger] share_ok(plan@[i], clients, workers, total_requests,
            duration_mode, client_shares(clients, workers), lanes_per_client, i),
{
    let shares = split_u64_even(clients as u64, workers);
    let budgets = split_u64_even(total_requests, workers);
    let ghost cl = client_shares(clients, workers);
    proof {
        assert forall|j: int| 0 <= j < workers implies #[trigger] cl[j] as nat == even_share(clients as nat, workers as nat, j) by {
            lemma_share_le_total(clients as nat, workers as nat, j);
        }
    }
    assert(shares@ =~= cl);
    let mut plan: Vec<WorkerShare> = Vec::new();
    let mut base: usize = 0;
    let mut i: usize = 0;
    while i < workers
        invariant
            i <= workers,
            shares@ == cl,
            shares@.len() == workers,
            budgets@.len() == workers,
            forall|j: int| 0 <= j < workers ==> #[trigger] budgets@[j] == even_share(total_requests as nat, workers as nat, j),
            forall|j: int| 0 <= j < workers ==> #[trigger] cl[j] as nat == even_share(clients as nat, workers as nat, j),
            plan@.len() == i,
            base == lane_base_of(cl, lanes_per_client as nat, i as nat),
            forall|j: int| 0 <= j < i ==> #[trigger] share_ok(plan@[j], clients, workers, total_requests, duration_mode, cl, lanes_per_client, j),
        decreases workers - i,
    {
        let c = shares[i];
        proof {
            assert(even_share(clients as nat, workers as nat, i as int) <= clients) by {
                lemma_share_le_total(clients as nat, workers as nat, i as int);
            }
        }
        let budget = if duration_mode { 0 } else { budgets[i] };
        let ghost before = plan@;
        plan.push(WorkerShare { clients: c, budget, lane_base: base });
        proof {
            assert(c == cl[i as int]);
            assert forall|j: int| 0 <= j < i + 1 implies #[trigger] share_ok(plan@[j], clients, workers, total_requests, duration_mode, cl, lanes_per_client, j) by {
                if j < i {
                    assert(plan@[j] == before[j]);
                    assert(share_ok(before[j], clients, workers, total_requests, duration_mode, cl, lanes_per_client, j));
                }
            }
        }
        let lanes = (c as usize).checked_mul(lanes_per_client);
        let lanes: usize = match lanes {
            Some(v) => v,
            None => usize::MAX,
        };
        base = base.saturating_add(lanes);
        i = i + 1;
    }
    plan
}

/// A share never exceeds the total.
proof fn lemma_share_le_total(total: nat, parts: nat, i: int)
    requires
        parts > 0,
        0 <= i < parts,
    ensures
        even_share(total, parts, i) <= total,
{
    let q = total / parts;
    let r = total % parts;
    assert(q * parts + r == total) by (nonlinear_arith)
        requires parts > 0, q == total / parts, r == total % parts;
    if i < r {
        assert(q + 1 <= total) by (nonlinear_arith)
            requires q * parts + r == total, parts >= 1, r >= 1, q >= 0;
    } else {
        assert(q <= total) by (nonlinear_arith)
            requires q * parts + r == total, parts >= 1, r >= 0, q >= 0;
    }
}

/// The clients of an HTTP/3 run and the index of a worker's first client:
/// lanes divided by streams per client (at least one of each).
pub fn h3_client_span(total_lanes: usize, worker_lane_base: usize, max_streams: usize) -> (r: (usize, usize))
    ensures
        ({
            let m: int = if max_streams >= 1 { max_streams as int } else { 1 };
            &&& r.0 == (if (total_lanes as int) / m >= 1 { (total_lanes as int) / m } else { 1 })
            &&& r.1 == (worker_lane_base as int) / m
        }),
{
    let m = if max_streams >= 1 { max_streams } else { 1 };
    let total = total_lanes / m;
    (if total >= 1 { total } else { 1 }, worker_lane_base / m)
}

// ---------------------------------------------------------------------------
// Finished requests
// ---------------------------------------------------------------------------

/// Delay before a lane that failed to connect tries again, in nanoseconds.
pub const RETRY_DELAY_NS: u64 = 50_000_000;

/// Whether the latency of the next successful measured request is
/// recorded: always when every request is sampled, else every `sample`-th,
/// counted by `ok_seq`, which wraps.
pub fn sample_timing(ok_seq: &mut u64, sample: u64) -> (r: bool)
    ensures
        sample <= 1 ==> r && *final(ok_seq) == *old(ok_seq),
        sample > 1 ==> *final(ok_seq) == (if *old(ok_seq) == u64::MAX { 0 } else { (*old(ok_seq) + 1) as u64 })
            && r == (*final(ok_seq) % sample == 0),
{
    if sample <= 1 {
        true
    } else {
        *ok_seq = if *ok_seq == u64::MAX { 0 } else { *ok_seq + 1 };
        *ok_seq % sample == 0
    }
}

/// How a lane's request ended, with what its connection setup reported.
pub struct LaneCompletion {
    pub lane_idx: usize,
    pub measuring: bool,
    pub connect_us: Option<u64>,
    pub connect_addr: Option<ConnectAddr>,
    pub tls_protocol: Option<String>,
    pub tls_cipher: Option<String>,
    pub result: Result<RequestResult, RequestError>,
}

/// Room in the metrics to count one more finished request.
pub open spec fn room_for(m: &WorkerMetrics, c: &LaneCompletion) -> bool {
    &&& m.wf()
    &&& m.requests_completed < u64::MAX
    &&& c.connect_addr matches Some(a) ==> {
        &&& (a.family == crate::metrics::AddrFamily::V4 ==> m.connect_v4_count < u64::MAX)
        &&& (a.family == crate::metrics::AddrFamily::V6 ==> m.connect_v6_count < u64::MAX)
        &&& crate::counts::get_or_zero(m.connect_addr_counts@, a.text@) < u64::MAX
    }
    &&& match c.result {
        Ok(r) => {
            &&& m.ok < u64::MAX
            &&& m.bytes_in + r.bytes_in <= u64::MAX
            &&& m.bytes_out + r.bytes_out <= u64::MAX
            &&& m.status_count(r.status) < u64::MAX
        },
        Err(e) => {
            &&& (e.class == ErrorClass::Connect ==> m.err_connect < u64::MAX)
            &&& (e.class == ErrorClass::Tls ==> m.err_tls < u64::MAX)
            &&& (e.class == ErrorClass::Timeout ==> m.err_timeout < u64::MAX)
            &&& (e.class == ErrorClass::Http ==> m.err_http < u64::MAX)
        },
    }
}

/// What a finished request leaves for the loop that ran it.
#[derive(Debug)]
pub struct CompletionEffect {
    /// The lane keeps its connection (the request succeeded).
    pub keep_connection: bool,
    /// The lane waits before connecting again (a connect or TLS error).
    pub back_off: bool,
    /// The error, for the log.
    pub error: Option<RequestError>,
}

/// The next success sequence number and whether that success's timings are
/// kept: every success when `sample <= 1`, else each whose (wrapping)
/// sequence number is a multiple of `sample`.
pub open spec fn sample_step(ok_seq: u64, sample: u64) -> (u64, bool) {
    if sample <= 1 {
        (ok_seq, true)
    } else {
        let n: u64 = if ok_seq == u64::MAX { 0 } else { (ok_seq + 1) as u64 };
        (n, n % sample == 0)
    }
}

/// The TLS detail `new` keeps the first one seen: `given` where there was
/// none yet, else the old one.
pub open spec fn kept_detail(old: Option<String>, given: Option<String>, new: Option<String>) -> bool {
    if old is None && given is Some {
        new matches Some(n) && n@ == given.unwrap()@
    } else {
        new == old
    }
}

/// Applies a finished request to the metrics: the connection it opened, its
/// TLS details and, when it was measured, its success (its timing recorded
/// as `sample_timing` decides) or its error.
pub fn record_completion(metrics: &mut WorkerMetrics, c: LaneCompletion, ok_seq: &mut u64, sample: u64) -> (r: CompletionEffect)
    requires
        room_for(old(metrics), &c),
    ensures
        final(metrics).wf(),
        r.keep_connection == c.result is Ok,
        r.back_off == (c.result matches Err(e) && (e.class == ErrorClass::Connect || e.class == ErrorClass::Tls)),
        final(metrics).requests_started == old(metrics).requests_started,
        final(metrics).requests_completed == old(metrics).requests_completed + if c.measuring { 1int } else { 0int },
        final(metrics).ok == old(metrics).ok + if c.measuring && c.result is Ok { 1int } else { 0int },
        final(metrics).err_sum() == old(metrics).err_sum() + if c.measuring && c.result is Err { 1int } else { 0int },
        c.measuring ==> match c.result {
            Ok(res) => final(metrics).bytes_in == old(metrics).bytes_in + res.bytes_in
                && final(metrics).bytes_out == old(metrics).bytes_out + res.bytes_out
                && final(metrics).status_count(res.status) == old(metrics).status_count(res.status) + 1,
            Err(e) => {
                &&& final(metrics).err_connect == old(metrics).err_connect + if e.class == ErrorClass::Connect { 1int } else { 0int }
                &&& final(metrics).err_tls == old(metrics).err_tls + if e.class == ErrorClass::Tls { 1int } else { 0int }
                &&& final(metrics).err_timeout == old(metrics).err_timeout + if e.class == ErrorClass::Timeout { 1int } else { 0int }
                &&& final(metrics).err_http == old(metrics).err_http + if e.class == ErrorClass::Http { 1int } else { 0int }
            },
        },
        !c.measuring ==> final(metrics).bytes_in == old(metrics).bytes_in && final(metrics).bytes_out == old(metrics).bytes_out,
        c.connect_us is None ==> final(metrics).connect_hist == old(metrics).connect_hist,
        old(metrics).consistent() ==> final(metrics).consistent(),
        c.measuring && c.result is Ok ==> *final(ok_seq) == sample_step(*old(ok_seq), sample).0,
        !(c.measuring && c.result is Ok) ==> *final(ok_seq) == *old(ok_seq),
        c.measuring && sample_step(*old(ok_seq), sample).1 ==> match c.result {
            Ok(res) => records(old(metrics).latency_hist, final(metrics).latency_hist, res.latency_us)
                && records(old(metrics).ttfb_hist, final(metrics).ttfb_hist, res.ttfb_us),
            Err(_) => final(metrics).latency_hist == old(metrics).latency_hist
                && final(metrics).ttfb_hist == old(metrics).ttfb_hist,
        },
        !(c.measuring && sample_step(*old(ok_seq), sample).1) ==> final(metrics).latency_hist == old(
            metrics,
        ).latency_hist && final(metrics).ttfb_hist == old(metrics).ttfb_hist,
        c.connect_us matches Some(us) ==> records(old(metrics).connect_hist, final(metrics).connect_hist, us),
        final(metrics).connect_v4_count == old(metrics).connect_v4_count + if c.connect_us is Some
            && (c.connect_addr matches Some(a) && a.family == AddrFamily::V4) {
            1int
        } else {
            0int
        },
        final(metrics).connect_v6_count == old(metrics).connect_v6_count + if c.connect_us is Some
            && (c.connect_addr matches Some(a) && a.family == AddrFamily::V6) {
            1int
        } else {
            0int
        },
        (c.connect_us is Some && c.connect_addr is Some) ==> final(metrics).connect_addr_counts@ == old(
            metrics,
        ).connect_addr_counts@.insert(
            c.connect_addr.unwrap().text@,
            (get_or_zero(old(metrics).connect_addr_counts@, c.connect_addr.unwrap().text@) + 1) as u64,
        ),
        !(c.connect_us is Some && c.connect_addr is Some) ==> final(metrics).connect_addr_counts
            == old(metrics).connect_addr_counts,
        kept_detail(old(metrics).tls_protocol, c.tls_protocol, final(metrics).tls_protocol),
        kept_detail(old(metrics).tls_cipher, c.tls_cipher, final(metrics).tls_cipher),
{
    let LaneCompletion { lane_idx: _, measuring, connect_us, connect_addr, tls_protocol, tls_cipher, result } = c;
    if let Some(us) = connect_us {
        metrics.record_connect(us, connect_addr);
    }
    let p = match &tls_protocol {
        Some(s) => Some(s.as_str()),
        None => None,
    };
    let ci = match &tls_cipher {
        Some(s) => Some(s.as_str()),
        None => None,
    };
    metrics.record_tls_info(p, ci);
    match result {
        Ok(res) => {
            if measuring {
                let timing = sample_timing(ok_seq, sample);
                metrics.record_success(res.status, res.latency_us, res.ttfb_us, res.bytes_in, res.bytes_out, timing);
            }
            CompletionEffect { keep_connection: true, back_off: false, error: None }
        },
        Err(e) => {
            if measuring {
                metrics.record_error(e.class);
            }
            let back_off = e.class == ErrorClass::Connect || e.class == ErrorClass::Tls;
            CompletionEffect { keep_connection: false, back_off, error: Some(e) }
        },
    }
}

/// Whether the metrics have room to count this finished request.
pub fn has_room_for(metrics: &WorkerMetrics, c: &LaneCompletion) -> (r: bool)
    requires
        metrics.wf(),
    ensures
        r == room_for(metrics, c),
{
    if metrics.requests_completed == u64::MAX {
        return false;
    }
    match &c.connect_addr {
        Some(a) => {
            match a.family {
                crate::metrics::AddrFamily::V4 => if metrics.connect_v4_count == u64::MAX { return false; },
                crate::metrics::AddrFamily::V6 => if metrics.connect_v6_count == u64::MAX { return false; },
            }
            if metrics.connect_addr_counts.get(&a.text) == u64::MAX {
                return false;
            }
        },
        None => {},
    }
    match &c.result {
        Ok(r) => {
            metrics.ok < u64::MAX && r.bytes_in <= u64::MAX - metrics.bytes_in
                && r.bytes_out <= u64::MAX - metrics.bytes_out && metrics.status_count_of(r.status) < u64::MAX
        },
        Err(e) => match e.class {
            ErrorClass::Connect => metrics.err_connect < u64::MAX,
            ErrorClass::Tls => metrics.err_tls < u64::MAX,
            ErrorClass::Timeout => metrics.err_timeout < u64::MAX,
            ErrorClass::Http => metrics.err_http < u64::MAX,
        },
    }
}

// ---------------------------------------------------------------------------
// Lanes of multiplexed or raw connections
// ---------------------------------------------------------------------------

/// What the scan over lanes found at one lane.
#[derive(Debug)]
pub enum ScanStep {
    /// The scan of this round is over.
    Done,
    /// The lane is busy, not started yet, or waiting to retry.
    Skip,
    /// The request budget is spent; the client's pacer is to be activated
    /// first if named.
    Exhausted { activate_client: Option<usize> },
    /// The lane may start a request: activate the client's pacer first if
    /// asked, take a token from it if asked, then launch.
    Candidate { lane: usize, client: usize, measuring: bool, activate: bool, needs_token: bool },
}

/// What the loop does once a scan is over.
#[derive(Clone, Copy, Debug, PartialEq, Eq, Structural)]
pub enum RoundAction {
    /// The budget is spent and nothing is in flight: the worker is done.
    Stop,
    /// Nothing started and nothing in flight because this client's pacer had
    /// no token: sleep until it has one.
    SleepForToken(usize),
    /// Nothing to do right now: sleep briefly.
    IdleSleep,
    /// Scan again at once.
    NextRound,
    /// Wait for a request in flight to finish.
    AwaitCompletion,
}

/// The scheduling state of one worker's lanes: which are busy, when each may
/// start and retry, whose pacers are active, the request budget, and the
/// round-robin scan.
pub struct LaneScheduler {
    pub lane_busy: Vec<bool>,
    /// When each lane may retry after a failed connection, in nanoseconds
    /// after the loop started.
    pub lane_retry_at: Vec<u64>,
    /// When each lane may first start, in nanoseconds after the loop started.
    pub lane_start: Vec<u64>,
    pub pacer_active: Vec<bool>,
    pub lanes_per_client: usize,
    pub cursor: usize,
    pub budget_remaining: u64,
    pub budget_exhausted: bool,
    pub duration_mode: bool,
    pub tail_friendly: bool,
    pub has_pacers: bool,
    pub measure_starts_in: u64,
    /// Lanes still to look at in this round's scan.
    pub scan_left: usize,
    pub scheduled_any: bool,
    pub blocked_client: Option<usize>,
}

/// The number of clients `lanes` lanes of `per_client` make, rounding up.
pub open spec fn clients_of(lanes: nat, per_client: nat) -> nat {
    ((lanes + per_client - 1) / (per_client as int)) as nat
}

impl LaneScheduler {
    pub open spec fn lane_count(&self) -> nat {
        self.lane_busy@.len()
    }

    pub open spec fn wf(&self) -> bool {
        &&& self.lane_count() > 0
        &&& self.lane_retry_at@.len() == self.lane_count()
        &&& self.lane_start@.len() == self.lane_count()
        &&& self.lanes_per_client >= 1
        &&& self.pacer_active@.len() == clients_of(self.lane_count(), self.lanes_per_client as nat)
        &&& self.cursor < self.lane_count()
        &&& self.scan_left <= self.lane_count()
    }

    /// A scheduler over `lane_start.len()` lanes, none busy, none waiting to
    /// retry, no pacer active, with `budget` requests to give out.
    pub fn new(lane_start: Vec<u64>, lanes_per_client: usize, budget: u64, duration_mode: bool, tail_friendly: bool, has_pacers: bool, measure_starts_in: u64) -> (s: Self)
        requires
            lane_start@.len() > 0,
            lanes_per_client >= 1,
        ensures
            s.wf(),
            s.lane_start == lane_start,
            forall|i: int| 0 <= i < s.lane_count() ==> !#[trigger] s.lane_busy@[i] && s.lane_retry_at@[i] == 0,
            forall|c: int| 0 <= c < s.pacer_active@.len() ==> !#[trigger] s.pacer_active@[c],
            s.lanes_per_client == lanes_per_client,
            s.cursor == 0,
            s.budget_remaining == budget,
            s.budget_exhausted == (!duration_mode && budget == 0),
            s.duration_mode == duration_mode,
            s.tail_friendly == tail_friendly,
            s.has_pacers == has_pacers,
            s.measure_starts_in == measure_starts_in,
            s.scan_left == 0,
    {
        let n = lane_start.len();
        assert(n % lanes_per_client != 0 ==> n / lanes_per_client < usize::MAX) by (nonlinear_arith)
            requires lanes_per_client >= 1, n <= usize::MAX;
        let clients = n / lanes_per_client + if n % lanes_per_client == 0 { 0 } else { 1 };
        assert(clients == clients_of(n as nat, lanes_per_client as nat)) by (nonlinear_arith)
            requires clients == n / lanes_per_client + if n % lanes_per_client == 0 { 0int } else { 1int }, lanes_per_client >= 1;
        let mut busy: Vec<bool> = Vec::new();
        let mut retry: Vec<u64> = Vec::new();
        let mut i: usize = 0;
        while i < n
            invariant
                i <= n,
                busy@.len() == i,
                retry@.len() == i,
                forall|j: int| 0 <= j < i ==> !#[trigger] busy@[j] && retry@[j] == 0,
            decreases n - i,
        {
            busy.push(false);
            retry.push(0);
            i = i + 1;
        }
        let mut active: Vec<bool> = Vec::new();
        let mut c: usize = 0;
        while c < clients
            invariant
                c <= clients,
                active@.len() == c,
                forall|j: int| 0 <= j < c ==> !#[trigger] active@[j],
            decreases clients - c,
        {
            active.push(false);
            c = c + 1;
        }
        LaneScheduler {
            lane_busy: busy,
            lane_retry_at: retry,
            lane_start,
            pacer_active: active,
            lanes_per_client,
            cursor: 0,
            budget_remaining: budget,
            budget_exhausted: !duration_mode && budget == 0,
            duration_mode,
            tail_friendly,
            has_pacers,
            measure_starts_in,
            scan_left: 0,
            scheduled_any: false,
            blocked_client: None,
        }
    }

    /// Starts a round: every lane will be looked at once, from the cursor on.
    pub fn begin_round(&mut self)
        requires
            old(self).wf(),
        ensures
            final(self).wf(),
            *final(self) == (LaneScheduler {
                scan_left: old(self).lane_count() as usize,
                scheduled_any: false,
                blocked_client: None,
                ..*old(self)
            }),
    {
        self.scan_left = self.lane_busy.len();
        self.scheduled_any = false;
        self.blocked_client = None;
    }

    /// Looks at the next lane of the scan at time `elapsed` (nanoseconds
    /// after the loop started).
    pub fn next_candidate(&mut self, elapsed: u64) -> (r: ScanStep)
        requires
            old(self).wf(),
        ensures
            final(self).wf(),
            old(self).scan_left == 0 ==> r is Done && *final(self) == *old(self),
            r matches ScanStep::Candidate { measuring, .. } && measuring && !old(self).duration_mode
                ==> old(self).budget_remaining > 0,
            old(self).scan_left > 0 ==> {
                let lane = old(self).cursor as int;
                let client = lane / (old(self).lanes_per_client as int);
                let measuring = elapsed >= old(self).measure_starts_in;
                let eligible = !old(self).lane_busy@[lane] && elapsed >= old(self).lane_start@[lane]
                    && elapsed >= old(self).lane_retry_at@[lane];
                let activate = eligible && measuring && old(self).has_pacers && !old(self).pacer_active@[client];
                let exhausted = eligible && measuring && !old(self).duration_mode && old(self).budget_remaining == 0;
                &&& final(self).scan_left == old(self).scan_left - 1
                &&& final(self).cursor == (lane + 1) % (old(self).lane_count() as int)
                &&& final(self).pacer_active@ == (if activate { old(self).pacer_active@.update(client, true) } else { old(self).pacer_active@ })
                &&& final(self).budget_exhausted == (old(self).budget_exhausted || exhausted)
                &&& final(self).lane_busy == old(self).lane_busy
                &&& final(self).lane_retry_at == old(self).lane_retry_at
                &&& final(self).lane_start == old(self).lane_start
                &&& final(self).budget_remaining == old(self).budget_remaining
                &&& final(self).scheduled_any == old(self).scheduled_any
                &&& final(self).blocked_client == old(self).blocked_client
                &&& final(self).lanes_per_client == old(self).lanes_per_client
                &&& final(self).duration_mode == old(self).duration_mode
                &&& final(self).tail_friendly == old(self).tail_friendly
                &&& final(self).has_pacers == old(self).has_pacers
                &&& final(self).measure_starts_in == old(self).measure_starts_in
                &&& (!eligible ==> r is Skip)
                &&& (exhausted ==> r == (ScanStep::Exhausted { activate_client: if activate { Some(client as usize) } else { None } }))
                &&& (eligible && !exhausted ==> r == (ScanStep::Candidate {
                        lane: lane as usize,
                        client: client as usize,
                        measuring,
                        activate,
                        needs_token: measuring && old(self).has_pacers,
                    }))
            },
    {
        if self.scan_left == 0 {
            return ScanStep::Done;
        }
        self.scan_left = self.scan_left - 1;
        let n = self.lane_busy.len();
        let lane = self.cursor;
        self.cursor = (self.cursor + 1) % n;
        let client = lane / self.lanes_per_client;
        if self.lane_busy[lane] || elapsed < self.lane_start[lane] || elapsed < self.lane_retry_at[lane] {
            return ScanStep::Skip;
        }
        proof {
            assert(client < clients_of(n as nat, self.lanes_per_client as nat)) by (nonlinear_arith)
                requires client == lane / self.lanes_per_client, lane < n, self.lanes_per_client >= 1;
        }
        let measuring = elapsed >= self.measure_starts_in;
        let activate = measuring && self.has_pacers && !self.pacer_active[client];
        if activate {
            self.pacer_active.set(client, true);
        }
        if measuring && !self.duration_mode && self.budget_remaining == 0 {
            self.budget_exhausted = true;
            return ScanStep::Exhausted { activate_client: if activate { Some(client) } else { None } };
        }
        ScanStep::Candidate { lane, client, measuring, activate, needs_token: measuring && self.has_pacers }
    }

    /// The client's pacer had no token: the scan stops, blocked on it.
    pub fn token_refused(&mut self, client: usize)
        requires
            old(self).wf(),
        ensures
            final(self).wf(),
            *final(self) == (LaneScheduler { scan_left: 0, blocked_client: Some(client), ..*old(self) }),
    {
        self.scan_left = 0;
        self.blocked_client = Some(client);
    }

    /// Launches a request on `lane`: a measured request in a counted run
    /// takes one from the budget; the lane is busy; in tail-friendly mode the
    /// scan stops after one launch. Counts a measured request as started.
    pub fn launch(&mut self, lane: usize, measuring: bool, started: &mut u64)
        requires
            old(self).wf(),
            lane < old(self).lane_count(),
            measuring ==> *old(started) < u64::MAX,
        ensures
            final(self).wf(),
            *final(started) == *old(started) + if measuring { 1int } else { 0int },
            *final(self) == (LaneScheduler {
                budget_remaining: if measuring && !old(self).duration_mode && old(self).budget_remaining > 0 {
                    (old(self).budget_remaining - 1) as u64
                } else {
                    old(self).budget_remaining
                },
                lane_busy: final(self).lane_busy,
                scheduled_any: true,
                scan_left: if old(self).tail_friendly { 0 } else { old(self).scan_left },
                ..*old(self)
            }),
            final(self).lane_busy@ == old(self).lane_busy@.update(lane as int, true),
    {
        if measuring && !self.duration_mode {
            self.budget_remaining = self.budget_remaining.saturating_sub(1);
        }
        if measuring {
            *started = *started + 1;
        }
        self.lane_busy.set(lane, true);
        self.scheduled_any = true;
        if self.tail_friendly {
            self.scan_left = 0;
        }
    }

    /// What the loop does after a scan, given whether anything is in flight.
    pub fn after_scan(&self, inflight_empty: bool) -> (a: RoundAction)
        ensures
            a == (if !self.duration_mode && self.budget_exhausted && inflight_empty {
                RoundAction::Stop
            } else if inflight_empty {
                if self.scheduled_any {
                    RoundAction::NextRound
                } else {
                    match self.blocked_client {
                        Some(c) => if self.has_pacers { RoundAction::SleepForToken(c) } else { RoundAction::IdleSleep },
                        None => RoundAction::IdleSleep,
                    }
                }
            } else {
                RoundAction::AwaitCompletion
            }),
    {
        if !self.duration_mode && self.budget_exhausted && inflight_empty {
            return RoundAction::Stop;
        }
        if inflight_empty {
            if self.scheduled_any {
                return RoundAction::NextRound;
            }
            return match self.blocked_client {
                Some(c) => if self.has_pacers { RoundAction::SleepForToken(c) } else { RoundAction::IdleSleep },
                None => RoundAction::IdleSleep,
            };
        }
        RoundAction::AwaitCompletion
    }

    /// A request on `lane` finished at `elapsed`: the lane is free, and after
    /// a connect or TLS error it waits `RETRY_DELAY_NS` before connecting
    /// again.
    pub fn finished(&mut self, lane: usize, back_off: bool, elapsed: u64)
        requires
            old(self).wf(),
            lane < old(self).lane_count(),
        ensures
            final(self).wf(),
            final(self).lane_busy@ == old(self).lane_busy@.update(lane as int, false),
            final(self).lane_retry_at@ == (if back_off {
                old(self).lane_retry_at@.update(lane as int, if elapsed + RETRY_DELAY_NS > u64::MAX { u64::MAX } else { (elapsed + RETRY_DELAY_NS) as u64 })
            } else {
                old(self).lane_retry_at@
            }),
            *final(self) == (LaneScheduler { lane_busy: final(self).lane_busy, lane_retry_at: final(self).lane_retry_at, ..*old(self) }),
    {
        self.lane_busy.set(lane, false);
        if back_off {
            self.lane_retry_at.set(lane, elapsed.saturating_add(RETRY_DELAY_NS));
        }
    }
}

// ---------------------------------------------------------------------------
// HTTP/3 clients
// ---------------------------------------------------------------------------

/// Whether an HTTP/3 client may open one more stream now.
#[derive(Clone, Copy, Debug, PartialEq, Eq, Structural)]
pub enum TopUp {
    /// Not now: the client is full, the run is over, or the client has not
    /// started or is waiting to retry.
    Halt,
    /// Go on: activate the pacer first if asked; if `check_budget`, stop when
    /// the shared budget is spent; if `needs_token`, take a pacer token; if
    /// `check_budget`, take one request from the budget.
    Go { measuring: bool, activate_pacer: bool, check_budget: bool, needs_token: bool },
}

/// What an HTTP/3 client does when no stream could be opened.
#[derive(Clone, Copy, Debug, PartialEq, Eq, Structural)]
pub enum IdleAction {
    /// Its share of the budget is spent and nothing is in flight: done.
    Stop,
    /// Sleep until the pacer has a token.
    SleepForToken,
    /// Sleep briefly.
    IdleSleep,
    /// Wait for a stream in flight to finish.
    AwaitCompletion,
}

/// What becomes of an HTTP/3 client's connection when one of its streams
/// finishes.
#[derive(Clone, Copy, Debug, PartialEq, Eq, Structural)]
pub enum ConnAfter {
    /// Keep the connection the client holds.
    Keep,
    /// Take back the connection the stream ran on.
    TakeBack,
    /// Close the connection; the next stream connects anew.
    Close,
}

/// The scheduling state of one HTTP/3 client, which keeps up to
/// `max_streams` streams in flight on one connection.
pub struct H3Actor {
    pub max_streams: usize,
    /// When the client may first open a stream, in nanoseconds after the
    /// worker started.
    pub start_offset: u64,
    /// When it may try again after a failed connection.
    pub retry_at: u64,
    pub measure_starts_in: u64,
    pub duration_mode: bool,
    pub has_pacer: bool,
    pub pacer_active: bool,
    /// Successful measured requests seen, for sampling their timing.
    pub ok_seq: u64,
}

impl H3Actor {
    pub fn new(max_streams: usize, start_offset: u64, measure_starts_in: u64, duration_mode: bool, has_pacer: bool) -> (a: Self)
        ensures
            a == (H3Actor {
                max_streams,
                start_offset,
                retry_at: 0,
                measure_starts_in,
                duration_mode,
                has_pacer,
                pacer_active: false,
                ok_seq: 0,
            }),
    {
        H3Actor { max_streams, start_offset, retry_at: 0, measure_starts_in, duration_mode, has_pacer, pacer_active: false, ok_seq: 0 }
    }

    /// Whether one more stream may be opened with `inflight` in flight at
    /// time `elapsed`; activates the pacer when measuring starts.
    pub fn top_up(&mut self, inflight: usize, elapsed: u64, run_deadline: Option<u64>) -> (r: TopUp)
        ensures
            ({
                let halt = inflight >= old(self).max_streams || (run_deadline matches Some(d) && elapsed >= d)
                    || elapsed < old(self).start_offset || elapsed < old(self).retry_at;
                let measuring = elapsed >= old(self).measure_starts_in;
                let activate = !halt && measuring && old(self).has_pacer && !old(self).pacer_active;
                &&& halt ==> r == TopUp::Halt
                &&& !halt ==> r == (TopUp::Go {
                        measuring,
                        activate_pacer: activate,
                        check_budget: measuring && !old(self).duration_mode,
                        needs_token: measuring && old(self).has_pacer,
                    })
                &&& *final(self) == (H3Actor { pacer_active: old(self).pacer_active || activate, ..*old(self) })
            }),
    {
        if inflight >= self.max_streams || deadline_reached(run_deadline, elapsed) || elapsed < self.start_offset
            || elapsed < self.retry_at {
            return TopUp::Halt;
        }
        let measuring = elapsed >= self.measure_starts_in;
        let activate = measuring && self.has_pacer && !self.pacer_active;
        if activate {
            self.pacer_active = true;
        }
        TopUp::Go {
            measuring,
            activate_pacer: activate,
            check_budget: measuring && !self.duration_mode,
            needs_token: measuring && self.has_pacer,
        }
    }

    /// The client's connection attempt failed at `elapsed`: a measured
    /// failure is counted, and the client waits before trying again.
    pub fn connect_failed(&mut self, metrics: &mut WorkerMetrics, class: ErrorClass, measuring: bool, elapsed: u64)
        requires
            measuring ==> {
                &&& old(metrics).requests_completed < u64::MAX
                &&& (class == ErrorClass::Connect ==> old(metrics).err_connect < u64::MAX)
                &&& (class == ErrorClass::Tls ==> old(metrics).err_tls < u64::MAX)
                &&& (class == ErrorClass::Timeout ==> old(metrics).err_timeout < u64::MAX)
                &&& (class == ErrorClass::Http ==> old(metrics).err_http < u64::MAX)
            },
        ensures
            final(self).retry_at == (if elapsed + RETRY_DELAY_NS > u64::MAX { u64::MAX } else { (elapsed + RETRY_DELAY_NS) as u64 }),
            *final(self) == (H3Actor { retry_at: final(self).retry_at, ..*old(self) }),
            !measuring ==> *final(metrics) == *old(metrics),
            measuring ==> final(metrics).requests_completed == old(metrics).requests_completed + 1
                && final(metrics).err_sum() == old(metrics).err_sum() + 1,
            measuring ==> final(metrics).err_connect == old(metrics).err_connect + if class == ErrorClass::Connect {
                1int
            } else {
                0int
            },
            measuring ==> final(metrics).err_tls == old(metrics).err_tls + if class == ErrorClass::Tls {
                1int
            } else {
                0int
            },
            measuring ==> final(metrics).err_timeout == old(metrics).err_timeout + if class == ErrorClass::Timeout {
                1int
            } else {
                0int
            },
            measuring ==> final(metrics).err_http == old(metrics).err_http + if class == ErrorClass::Http {
                1int
            } else {
                0int
            },
            measuring ==> *final(metrics) == (WorkerMetrics {
                requests_completed: final(metrics).requests_completed,
                err_connect: final(metrics).err_connect,
                err_tls: final(metrics).err_tls,
                err_timeout: final(metrics).err_timeout,
                err_http: final(metrics).err_http,
                ..*old(metrics)
            }),
            old(metrics).consistent() ==> final(metrics).consistent(),
    {
        if measuring {
            metrics.record_error(class);
        }
        self.retry_at = elapsed.saturating_add(RETRY_DELAY_NS);
    }

    /// What the client does when its top-up opened nothing more.
    pub fn idle_action(&self, inflight_empty: bool, elapsed: u64, budget_now: u64, rps_blocked: bool) -> (a: IdleAction)
        ensures
            a == (if !inflight_empty {
                IdleAction::AwaitCompletion
            } else if !self.duration_mode && elapsed >= self.measure_starts_in && budget_now == 0 {
                IdleAction::Stop
            } else if rps_blocked && self.has_pacer {
                IdleAction::SleepForToken
            } else {
                IdleAction::IdleSleep
            }),
    {
        if !inflight_empty {
            return IdleAction::AwaitCompletion;
        }
        if !self.duration_mode && elapsed >= self.measure_starts_in && budget_now == 0 {
            return IdleAction::Stop;
        }
        if rps_blocked && self.has_pacer {
            IdleAction::SleepForToken
        } else {
            IdleAction::IdleSleep
        }
    }

    /// A stream is opened; a measured one counts as started.
    pub fn stream_opened(&self, started: &mut u64, measuring: bool)
        requires
            measuring ==> *old(started) < u64::MAX,
        ensures
            *final(started) == *old(started) + if measuring { 1int } else { 0int },
    {
        if measuring {
            *started = *started + 1;
        }
    }

    /// The connection after a stream finished: a successful stream leaves
    /// the client its connection, handing back the one it ran on where the
    /// client holds none; a failed stream closes it.
    pub fn connection_after(ok: bool, holding: bool) -> (a: ConnAfter)
        ensures
            a == (if !ok {
                ConnAfter::Close
            } else if holding {
                ConnAfter::Keep
            } else {
                ConnAfter::TakeBack
            }),
    {
        if !ok {
            ConnAfter::Close
        } else if holding {
            ConnAfter::Keep
        } else {
            ConnAfter::TakeBack
        }
    }

    /// A stream finished at `elapsed`; after a connect or TLS error the
    /// client waits before connecting again.
    pub fn finished(&mut self, back_off: bool, elapsed: u64)
        ensures
            back_off ==> final(self).retry_at == (if elapsed + RETRY_DELAY_NS > u64::MAX { u64::MAX } else { (elapsed + RETRY_DELAY_NS) as u64 }),
            !back_off ==> final(self).retry_at == old(self).retry_at,
            *final(self) == (H3Actor { retry_at: final(self).retry_at, ..*old(self) }),
    {
        if back_off {
            self.retry_at = elapsed.saturating_add(RETRY_DELAY_NS);
        }
    }
}

} // verus!
