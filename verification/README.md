# loadgen_rs

An h2load-compatible HTTP benchmark client (HTTP/1.1, HTTP/2, HTTP/3) whose
decisions are proved with Verus.

## Layout

- `src/` — the verified library; each function carries its contract.
  - `text.rs` — characters, trimming, ASCII case, integer parsing and printing.
  - `cli.rs` — protocol selection, durations, the metrics sample rate, `-H` headers.
  - `bench.rs` — configuration defaults and validation, URL scheme, run mode.
  - `counts.rs` — small count maps (status codes, peer addresses).
  - `histogram.rs` — the latency histograms (`hdrhistogram`) and their base64
    V2-Deflate form.
  - `metrics.rs` — per-worker counters and their merge.
  - `distributed.rs` — merging the reports of several machines.
  - `driver.rs` — request configuration, errors, URIs, target and address choice.
  - `h1.rs` — raw HTTP/1.1: request heads, response heads, body decoders.
  - `h2.rs`, `h3.rs` — request size estimates, body accounting, error classes.
  - `runner.rs` — work split over threads and lanes, the lane scheduler, the
    HTTP/3 client actor.
  - `output.rs` — the peer address list and the status code list of a report.
  - `step.rs` — single scripted HTTP steps.
  - `tls.rs` — cipher suite selection, ALPN, CA file names.
- `tests/` — tests of the library on concrete values.
- `app/` — the program around the library: command line, sockets, TLS,
  HTTP/2 and HTTP/3 sessions, the async event loops, report output, and the
  C interface. Floating-point figures (rates, percentiles, means) live here.

Calls into outside crates that the library's logic makes (`httparse`, `http`,
`hdrhistogram`, `base64`, `url`) go through small wrappers whose contracts
say what the crates' sources show.
