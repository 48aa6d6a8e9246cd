use loadgen_rs::counts::{AddrCounts, StatusCounts};
use loadgen_rs::distributed::{DistributedMerge, ReportCounts, merge_distributed_reports};
use loadgen_rs::histogram::{Histogram, deserialize_histogram_b64, serialize_histogram_b64};
use loadgen_rs::metrics::{AddrFamily, ConnectAddr, ErrorClass, WorkerMetrics, merge_metrics, merge_worker_metrics};
use loadgen_rs::output::{format_connect_addrs, format_status_detail};

/// The histogram as `hdrhistogram` reads it back from its exported form.
fn decoded(h: &Histogram) -> hdrhistogram::Histogram<u64> {
    match serialize_histogram_b64(h) {
        None => hdrhistogram::Histogram::new_with_bounds(1, 60_000_000, 3).unwrap(),
        Some(text) => {
            let bytes = base64::Engine::decode(&base64::engine::general_purpose::STANDARD, text).unwrap();
            let mut reader: &[u8] = &bytes;
            hdrhistogram::serialization::Deserializer::new().deserialize(&mut reader).unwrap()
        }
    }
}

fn hist_len(h: &Histogram) -> u64 {
    decoded(h).len()
}

fn worker(ok_statuses: &[u16], errors: &[ErrorClass], addr: Option<&str>) -> WorkerMetrics {
    let mut m = WorkerMetrics::new();
    for &s in ok_statuses {
        m.requests_started += 1;
        m.record_success(s, 100, 50, 10, 5, true);
    }
    for &e in errors {
        m.requests_started += 1;
        m.record_error(e);
    }
    if let Some(a) = addr {
        m.record_connect(300, Some(ConnectAddr { family: AddrFamily::V4, text: a.to_string() }));
    }
    m
}

#[test]
fn recording_keeps_counts_consistent() {
    let m = worker(&[200, 200, 404, 700], &[ErrorClass::Timeout, ErrorClass::Http], Some("10.0.0.1:80"));
    assert_eq!(m.requests_completed, 6);
    assert_eq!(m.ok, 4);
    assert_eq!(m.err_timeout, 1);
    assert_eq!(m.err_http, 1);
    assert_eq!(m.requests_completed, m.ok + m.err_connect + m.err_tls + m.err_timeout + m.err_http);
    assert_eq!(m.status_count_of(200), 2);
    assert_eq!(m.status_count_of(700), 1);
    assert_eq!(m.status_count_of(500), 0);
    assert_eq!(m.bytes_in, 40);
    assert_eq!(hist_len(&m.latency_hist), 4);
    assert_eq!(hist_len(&m.connect_hist), 1);
    assert_eq!(m.connect_v4_count, 1);
}

#[test]
fn first_tls_details_are_kept() {
    let mut m = WorkerMetrics::new();
    m.record_tls_info(None, Some("TLS_AES_128_GCM_SHA256"));
    m.record_tls_info(Some("TLSv1.3"), Some("other"));
    m.record_tls_info(Some("TLSv1.2"), None);
    assert_eq!(m.tls_protocol.as_deref(), Some("TLSv1.3"));
    assert_eq!(m.tls_cipher.as_deref(), Some("TLS_AES_128_GCM_SHA256"));
}

#[test]
fn merging_workers_sums_everything() {
    let a = worker(&[200, 301], &[ErrorClass::Connect], Some("10.0.0.1:80"));
    let b = worker(&[200, 503, 800], &[], Some("10.0.0.1:80"));
    let merged = merge_metrics(vec![a, b], false);
    assert!(merged.latency_hist_b64.is_none() && merged.ttfb_hist_b64.is_none() && merged.connect_hist_b64.is_none());
    assert_eq!(merged.requests_started, 6);
    assert_eq!(merged.requests_completed, 6);
    assert_eq!(merged.ok, 5);
    assert_eq!(merged.err_connect, 1);
    assert_eq!(merged.err_total, 1);
    assert_eq!(merged.status_counts.get(&200), 2);
    assert_eq!(merged.status_counts.get(&800), 1);
    assert_eq!(merged.status_2xx, 2);
    assert_eq!(merged.status_3xx, 1);
    assert_eq!(merged.status_5xx, 1);
    assert_eq!(merged.connect_addr_counts.get(&"10.0.0.1:80".to_string()), 2);
    assert_eq!(hist_len(&merged.latency), 5);
}

#[test]
fn merging_one_worker_into_another() {
    let mut into = worker(&[200], &[], None);
    let from = worker(&[200, 404], &[ErrorClass::Tls], Some("a:1"));
    merge_worker_metrics(&mut into, from);
    assert_eq!(into.requests_completed, 4);
    assert_eq!(into.ok, 3);
    assert_eq!(into.err_tls, 1);
    assert_eq!(into.status_count_of(200), 2);
    assert_eq!(into.connect_addr_counts.get(&"a:1".to_string()), 1);
    assert_eq!(hist_len(&into.latency_hist), 3);
}

#[test]
fn histogram_base64_round_trip() {
    let empty = WorkerMetrics::new();
    assert!(serialize_histogram_b64(&empty.latency_hist).is_none());
    let mut m = WorkerMetrics::new();
    m.record_success(200, 1000, 10, 0, 0, true);
    m.record_success(200, 2000, 20, 0, 0, true);
    let text = serialize_histogram_b64(&m.latency_hist).unwrap();
    let back = deserialize_histogram_b64(&text).unwrap();
    let (a, b) = (decoded(&m.latency_hist), decoded(&back));
    assert_eq!(b.len(), 2);
    assert_eq!(b.min(), a.min());
    assert_eq!(b.max(), a.max());
    assert_eq!(serialize_histogram_b64(&back).unwrap(), text);
    assert!(deserialize_histogram_b64("not base64!").err().unwrap().starts_with("base64 decode error"));
    assert!(deserialize_histogram_b64("AAAA").err().unwrap().starts_with("histogram V2Deflate decode error"));
}

fn report(ok: u64, status: u16, hist: Option<String>) -> ReportCounts {
    let mut status_counts = StatusCounts::new();
    status_counts.add(&status, ok);
    let mut addrs = AddrCounts::new();
    addrs.add(&"127.0.0.1:443".to_string(), 1);
    ReportCounts {
        proto: "h2".to_string(),
        url: "https://example.test/".to_string(),
        h3_backend: None,
        clients: 2,
        threads: 1,
        max_streams: 4,
        mode: "count".to_string(),
        tls_protocol: Some("TLSv1.3".to_string()),
        tls_cipher: None,
        metrics_sample: 1,
        requests_target: ok,
        requests_started: ok,
        requests_completed: ok,
        ok,
        err_connect: 0,
        err_tls: 0,
        err_timeout: 0,
        err_http: 0,
        bytes_in: 10 * ok,
        bytes_out: ok,
        connect_v4_count: 1,
        connect_v6_count: 0,
        status_counts,
        connect_addr_counts: addrs,
        latency_hist_b64: hist.clone(),
        ttfb_hist_b64: hist,
        connect_hist_b64: None,
    }
}

#[test]
fn distributed_merge() {
    assert_eq!(
        merge_distributed_reports(vec![]).err().unwrap(),
        "no reports to merge"
    );
    assert!(matches!(merge_distributed_reports(vec![report(1, 200, None)]), Ok(DistributedMerge::Single)));
    let mut m = WorkerMetrics::new();
    m.record_success(200, 500, 500, 0, 0, true);
    let b64 = serialize_histogram_b64(&m.latency_hist);
    match merge_distributed_reports(vec![report(3, 200, b64.clone()), report(2, 404, b64)]) {
        Ok(DistributedMerge::Combined(t)) => {
            assert_eq!(t.ok, 5);
            assert_eq!(t.clients, 4);
            assert_eq!(t.requests_target, 5);
            assert_eq!(t.status_2xx, 3);
            assert_eq!(t.status_4xx, 2);
            assert_eq!(t.connect_addr_counts.get(&"127.0.0.1:443".to_string()), 2);
            assert_eq!(hist_len(&t.latency), 2);
            assert_eq!(hist_len(&t.connect), 0);
        }
        _ => panic!("two reports should combine"),
    }
    let bad = merge_distributed_reports(vec![report(1, 200, Some("!!".to_string())), report(1, 200, None)]);
    assert!(bad.err().unwrap().starts_with("base64 decode error"));
    let mut second = report(1, 200, None);
    second.ttfb_hist_b64 = Some("AAAA".to_string());
    let bad = merge_distributed_reports(vec![report(1, 200, b64_of_one_sample()), second]);
    assert!(bad.err().unwrap().starts_with("histogram V2Deflate decode error"));
}

fn b64_of_one_sample() -> Option<String> {
    let mut m = WorkerMetrics::new();
    m.record_success(200, 700, 700, 0, 0, true);
    serialize_histogram_b64(&m.latency_hist)
}

#[test]
fn single_report_stands_whatever_its_counters() {
    let mut r = report(1, 200, Some("not base64!".to_string()));
    r.err_connect = u64::MAX;
    r.err_tls = 1;
    assert!(matches!(merge_distributed_reports(vec![r]), Ok(DistributedMerge::Single)));
}

#[test]
fn exported_histograms_decode_back() {
    let text = b64_of_one_sample().unwrap();
    let back = deserialize_histogram_b64(&text).unwrap();
    assert_eq!(decoded(&back).len(), 1);
}

#[test]
fn connect_address_list() {
    let mut c = AddrCounts::new();
    assert_eq!(format_connect_addrs(&c), "");
    c.add(&"10.0.0.2:80".to_string(), 1);
    c.add(&"10.0.0.1:80".to_string(), 3);
    c.add(&"10.0.0.3:80".to_string(), 1);
    assert_eq!(format_connect_addrs(&c), "10.0.0.1:80=3|10.0.0.2:80=1|10.0.0.3:80=1");
}

#[test]
fn distributed_merge_keeps_every_key() {
    let mut first = report(1, 200, None);
    first.status_counts.add(&503, 0);
    let second = report(2, 404, None);
    match merge_distributed_reports(vec![first, second]) {
        Ok(DistributedMerge::Combined(t)) => {
            assert_eq!(t.status_counts.len(), 3);
            assert_eq!(t.status_counts.get(&503), 0);
            assert_eq!(t.status_counts.get(&200), 1);
            assert_eq!(t.status_counts.get(&404), 2);
            assert_eq!(t.connect_addr_counts.len(), 1);
        }
        _ => panic!("two reports should combine"),
    }
}

#[test]
fn status_detail_lists_codes_in_order() {
    let mut c = StatusCounts::new();
    assert_eq!(format_status_detail(&c), "");
    c.add(&404, 2);
    c.add(&200, 17);
    c.add(&503, 0);
    c.add(&200, 1);
    assert_eq!(format_status_detail(&c), "200=18, 404=2, 503=0");
}

fn b64_with_bounds(high: u64, sigfig: u8, value: u64) -> Option<String> {
    let mut h = hdrhistogram::Histogram::<u64>::new_with_bounds(1, high, sigfig).unwrap();
    h.record(value).unwrap();
    let mut bytes = Vec::new();
    hdrhistogram::serialization::Serializer::serialize(
        &mut hdrhistogram::serialization::V2DeflateSerializer::new(),
        &h,
        &mut bytes,
    )
    .unwrap();
    Some(base64::Engine::encode(&base64::engine::general_purpose::STANDARD, bytes))
}

#[test]
fn distributed_merge_names_the_first_histogram_that_fails() {
    // Other bounds whose samples fit: merged, and the later bad text decides.
    let first = report(1, 200, b64_with_bounds(100_000, 2, 500));
    let second = report(1, 200, Some("!!".to_string()));
    let e = merge_distributed_reports(vec![first, second]).err().unwrap();
    assert!(e.starts_with("base64 decode error"));
    // Other bounds with a sample beyond the standard range: adding fails.
    let first = report(1, 200, b64_with_bounds(1_000_000_000_000, 3, 100_000_000_000));
    let second = report(1, 200, Some("!!".to_string()));
    assert_eq!(
        merge_distributed_reports(vec![first, second]).err().unwrap(),
        "latency merge: The other histogram includes values that do not fit in this histogram's range"
    );
}

#[test]
fn recorded_samples_keep_their_values() {
    let mut m = WorkerMetrics::new();
    m.record_success(200, 1000, 10, 0, 0, true);
    m.record_connect(1500, None);
    let (l, t, c) = (decoded(&m.latency_hist), decoded(&m.ttfb_hist), decoded(&m.connect_hist));
    assert_eq!((l.len(), l.min(), l.max()), (1, 1000, 1000));
    assert_eq!((t.len(), t.min(), t.max()), (1, 10, 10));
    assert_eq!((c.len(), c.min(), c.max()), (1, 1500, 1500));
}

#[test]
fn exported_histograms_hold_the_merged_samples() {
    let a = worker(&[200, 200], &[], None);
    let b = worker(&[200], &[ErrorClass::Http], Some("10.0.0.1:80"));
    let merged = merge_metrics(vec![a, b], true);
    let latency = deserialize_histogram_b64(merged.latency_hist_b64.as_deref().unwrap()).unwrap();
    assert_eq!(decoded(&latency).len(), 3);
    assert_eq!(decoded(&latency).max(), 100);
    let connect = deserialize_histogram_b64(merged.connect_hist_b64.as_deref().unwrap()).unwrap();
    assert_eq!(decoded(&connect).len(), 1);
    assert_eq!(decoded(&connect).min(), 300);
    let idle = merge_metrics(vec![WorkerMetrics::new()], true);
    assert!(idle.latency_hist_b64.is_none());
}
