use loadgen_rs::driver::{RequestError, RequestResult};
use loadgen_rs::metrics::{AddrFamily, ConnectAddr, ErrorClass, WorkerMetrics};
use loadgen_rs::runner::{
    ConnAfter, H3Actor, IdleAction, LaneCompletion, LaneScheduler, RoundAction, ScanStep, TopUp, deadline_reached,
    h3_client_span, has_room_for, lanes_per_client, measure_starts_in, measured_elapsed, plan_workers,
    record_completion, run_deadline, sample_timing, scale_duration, split_u64_even, take_budget, total_lanes,
    worker_count,
};

#[test]
fn even_splits() {
    assert_eq!(split_u64_even(10, 3), vec![4, 3, 3]);
    assert_eq!(split_u64_even(100, 3), vec![34, 33, 33]);
    assert_eq!(split_u64_even(2, 4), vec![1, 1, 0, 0]);
    assert_eq!(split_u64_even(5, 0), Vec::<u64>::new());
    let parts = split_u64_even(1_000_003, 7);
    assert_eq!(parts.iter().sum::<u64>(), 1_000_003);
}

#[test]
fn run_shape() {
    assert_eq!(worker_count(0, 5), 1);
    assert_eq!(worker_count(8, 3), 3);
    assert_eq!(lanes_per_client(false, true, 8), 8);
    assert_eq!(lanes_per_client(true, true, 8), 1);
    assert_eq!(lanes_per_client(false, false, 8), 1);
    assert_eq!(lanes_per_client(false, true, 0), 1);
    assert_eq!(total_lanes(3, 4), 12);
    assert_eq!(total_lanes(0, 4), 1);
    assert_eq!(total_lanes(usize::MAX, 2), usize::MAX);
    assert_eq!(measure_starts_in(true, 5, 7), 12);
    assert_eq!(measure_starts_in(false, 5, 7), 0);
    assert_eq!(measure_starts_in(true, u64::MAX, 7), u64::MAX);
    assert_eq!(measured_elapsed(true, 10, 12), 0);
    assert_eq!(measured_elapsed(true, 20, 12), 8);
    assert_eq!(measured_elapsed(false, 20, 12), 20);
    assert_eq!(run_deadline(Some(5), 10), Some(15));
    assert_eq!(run_deadline(None, 10), None);
    assert!(deadline_reached(Some(5), 5));
    assert!(!deadline_reached(Some(5), 4));
    assert!(!deadline_reached(None, 4));
    assert_eq!(h3_client_span(12, 8, 4), (3, 2));
    assert_eq!(h3_client_span(2, 0, 4), (1, 0));
}

#[test]
fn worker_plans() {
    let plan = plan_workers(5, 2, 11, false, 3);
    assert_eq!(plan.len(), 2);
    assert_eq!((plan[0].clients, plan[0].budget, plan[0].lane_base), (3, 6, 0));
    assert_eq!((plan[1].clients, plan[1].budget, plan[1].lane_base), (2, 5, 9));
    let timed = plan_workers(4, 2, 11, true, 1);
    assert_eq!(timed[0].budget, 0);
    assert_eq!(timed[1].lane_base, 2);
}

#[test]
fn ramp_offsets() {
    assert_eq!(scale_duration(1_000, 0, 5), 0);
    assert_eq!(scale_duration(1_000, 2, 5), 500);
    assert_eq!(scale_duration(1_000, 9, 5), 1_000);
    assert_eq!(scale_duration(1_000, 1, 1), 0);
    assert_eq!(scale_duration(0, 3, 5), 0);
    assert_eq!(scale_duration(u128::MAX, 2, 3), u64::MAX);
}

#[test]
fn budget_and_sampling() {
    assert_eq!(take_budget(3), Some(2));
    assert_eq!(take_budget(0), None);
    let mut seq = 0u64;
    assert!(sample_timing(&mut seq, 1));
    assert_eq!(seq, 0);
    assert!(!sample_timing(&mut seq, 3));
    assert!(!sample_timing(&mut seq, 3));
    assert!(sample_timing(&mut seq, 3));
    let mut wrap = u64::MAX;
    assert!(sample_timing(&mut wrap, 2));
    assert_eq!(wrap, 0);
}

fn completion(measuring: bool, result: Result<RequestResult, RequestError>) -> LaneCompletion {
    LaneCompletion {
        lane_idx: 0,
        measuring,
        connect_us: Some(120),
        connect_addr: Some(ConnectAddr { family: AddrFamily::V4, text: "127.0.0.1:443".to_string() }),
        tls_protocol: Some("TLSv1.3".to_string()),
        tls_cipher: None,
        result,
    }
}

#[test]
fn completions_update_metrics() {
    let mut m = WorkerMetrics::new();
    let mut seq = 0u64;
    let ok = completion(true, Ok(RequestResult { status: 200, latency_us: 10, ttfb_us: 5, bytes_in: 100, bytes_out: 50 }));
    assert!(has_room_for(&m, &ok));
    let eff = record_completion(&mut m, ok, &mut seq, 1);
    assert!(eff.keep_connection);
    assert!(!eff.back_off);
    assert_eq!((m.requests_completed, m.ok, m.bytes_in, m.bytes_out), (1, 1, 100, 50));
    assert_eq!(m.connect_v4_count, 1);
    assert_eq!(m.tls_protocol.as_deref(), Some("TLSv1.3"));
    let err = completion(true, Err(RequestError::tls("bad cert".into())));
    let eff = record_completion(&mut m, err, &mut seq, 1);
    assert!(!eff.keep_connection);
    assert!(eff.back_off);
    assert_eq!((m.requests_completed, m.err_tls), (2, 1));
    let warm = completion(false, Err(RequestError::timeout("slow".into())));
    let eff = record_completion(&mut m, warm, &mut seq, 1);
    assert!(!eff.back_off);
    assert_eq!(m.requests_completed, 2);
    assert_eq!(m.requests_completed, m.ok + m.err_connect + m.err_tls + m.err_timeout + m.err_http);
}

fn hist_len(h: &loadgen_rs::histogram::Histogram) -> u64 {
    match loadgen_rs::histogram::serialize_histogram_b64(h) {
        None => 0,
        Some(text) => {
            let bytes = base64::Engine::decode(&base64::engine::general_purpose::STANDARD, text).unwrap();
            let mut reader: &[u8] = &bytes;
            let decoded: hdrhistogram::Histogram<u64> =
                hdrhistogram::serialization::Deserializer::new().deserialize(&mut reader).unwrap();
            decoded.len()
        }
    }
}

#[test]
fn completions_keep_every_sampled_timing() {
    let mut m = WorkerMetrics::new();
    let mut seq = 0u64;
    for _ in 0..6 {
        let mut c = completion(true, Ok(RequestResult { status: 200, latency_us: 10, ttfb_us: 5, bytes_in: 1, bytes_out: 1 }));
        c.connect_us = None;
        record_completion(&mut m, c, &mut seq, 3);
    }
    assert_eq!(seq, 6);
    assert_eq!(hist_len(&m.latency_hist), 2);
    assert_eq!(hist_len(&m.ttfb_hist), 2);
    assert_eq!(hist_len(&m.connect_hist), 0);
    let c = completion(false, Ok(RequestResult { status: 200, latency_us: 10, ttfb_us: 5, bytes_in: 1, bytes_out: 1 }));
    record_completion(&mut m, c, &mut seq, 3);
    assert_eq!(hist_len(&m.connect_hist), 1);
    assert_eq!(hist_len(&m.latency_hist), 2);
    assert_eq!(seq, 6);
    assert_eq!(m.connect_addr_counts.get(&"127.0.0.1:443".to_string()), 1);
}

#[test]
fn lane_scheduler_round() {
    // Two clients of two lanes, budget of three requests, counted run.
    let mut s = LaneScheduler::new(vec![0, 0, 0, 0], 2, 3, false, false, false, 0);
    s.begin_round();
    let mut started = 0u64;
    let mut launched = Vec::new();
    loop {
        match s.next_candidate(10) {
            ScanStep::Done => break,
            ScanStep::Skip => {}
            ScanStep::Exhausted { .. } => {}
            ScanStep::Candidate { lane, measuring, needs_token, .. } => {
                assert!(!needs_token);
                s.launch(lane, measuring, &mut started);
                launched.push(lane);
            }
        }
    }
    assert_eq!(launched, vec![0, 1, 2]);
    assert_eq!(started, 3);
    assert!(s.budget_exhausted);
    assert!(s.after_scan(false) == RoundAction::AwaitCompletion);
    s.finished(0, true, 100);
    assert_eq!(s.lane_retry_at[0], 100 + 50_000_000);
    assert!(!s.lane_busy[0]);
    assert!(s.after_scan(true) == RoundAction::Stop);
}

#[test]
fn lane_scheduler_pacing_and_ramp() {
    let mut s = LaneScheduler::new(vec![0, 1_000], 1, 0, true, true, true, 0);
    s.begin_round();
    match s.next_candidate(500) {
        ScanStep::Candidate { lane, client, activate, needs_token, .. } => {
            assert_eq!((lane, client), (0, 0));
            assert!(activate && needs_token);
            s.token_refused(client);
        }
        _ => panic!("lane 0 should be a candidate"),
    }
    assert!(matches!(s.next_candidate(500), ScanStep::Done));
    assert!(s.after_scan(true) == RoundAction::SleepForToken(0));
    s.begin_round();
    match s.next_candidate(500) {
        ScanStep::Skip => {}
        _ => panic!("lane 1 has not started yet"),
    }
}

#[test]
fn h3_actor_decisions() {
    let mut a = H3Actor::new(2, 100, 50, false, true);
    assert!(a.top_up(0, 99, None) == TopUp::Halt);
    assert!(a.top_up(0, 150, None) == TopUp::Go { measuring: true, activate_pacer: true, check_budget: true, needs_token: true });
    assert!(a.top_up(0, 160, None) == TopUp::Go { measuring: true, activate_pacer: false, check_budget: true, needs_token: true });
    assert!(a.top_up(2, 160, None) == TopUp::Halt);
    assert!(a.top_up(0, 160, Some(160)) == TopUp::Halt);
    let mut m = WorkerMetrics::new();
    a.connect_failed(&mut m, ErrorClass::Connect, true, 200);
    assert_eq!(a.retry_at, 200 + 50_000_000);
    assert_eq!(m.err_connect, 1);
    a.connect_failed(&mut m, ErrorClass::Tls, true, 200);
    assert_eq!((m.err_connect, m.err_tls, m.requests_completed), (1, 1, 2));
    a.connect_failed(&mut m, ErrorClass::Tls, false, 200);
    assert_eq!((m.err_tls, m.requests_completed), (1, 2));
    assert!(a.idle_action(true, 300, 0, false) == IdleAction::Stop);
    assert!(a.idle_action(true, 300, 5, true) == IdleAction::SleepForToken);
    assert!(a.idle_action(false, 300, 5, true) == IdleAction::AwaitCompletion);
    a.finished(false, 400);
    assert_eq!(a.retry_at, 200 + 50_000_000);
}

#[test]
fn h3_streams_count_and_connections_follow_outcomes() {
    let a = H3Actor::new(2, 0, 0, true, false);
    let mut started = 5u64;
    a.stream_opened(&mut started, false);
    assert_eq!(started, 5);
    a.stream_opened(&mut started, true);
    assert_eq!(started, 6);
    assert_eq!(H3Actor::connection_after(true, true), ConnAfter::Keep);
    assert_eq!(H3Actor::connection_after(true, false), ConnAfter::TakeBack);
    assert_eq!(H3Actor::connection_after(false, true), ConnAfter::Close);
    assert_eq!(H3Actor::connection_after(false, false), ConnAfter::Close);
}
