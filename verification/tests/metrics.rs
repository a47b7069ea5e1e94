use hipfire_serve::metrics::{
    decode_throughput, prefill_throughput, FloatTexts, Histogram, Metrics, Observation,
};
use serde_json::{Number, Value};

/// What the histograms need of a float.
fn obs(value: f64) -> Option<Observation> {
    if !value.is_finite() || value < 0.0 {
        return None;
    }
    Some(Observation {
        ceil: value.ceil() as u64,
        milli: (value * 1000.0) as u64,
    })
}

fn sum_text(h: &Histogram) -> String {
    format!("{}", h.sum_milli as f64 / 1000.0)
}

fn render(m: &Metrics, depth: usize, capacity: usize, uptime: u64, model: Option<&str>) -> String {
    let t = FloatTexts {
        queue_depth: format!("{}", depth as f64),
        queue_capacity: format!("{}", capacity as f64),
        uptime_seconds: format!("{}", uptime as f64),
        ttft_sum: sum_text(&m.ttft_ms),
        latency_sum: sum_text(&m.latency_ms),
        decode_sum: sum_text(&m.decode_tok_s),
        prefill_sum: sum_text(&m.prefill_tok_s),
    };
    m.render(&t, model.is_some())
}

fn done(pairs: &[(&str, f64)]) -> Value {
    let mut m = serde_json::Map::new();
    for (k, v) in pairs {
        m.insert((*k).to_string(), Value::Number(Number::from_f64(*v).unwrap()));
    }
    Value::Object(m)
}

fn observe_done(m: &mut Metrics, done: &Value) {
    let decode = decode_throughput(done).and_then(Value::as_f64).and_then(obs);
    let prefill = prefill_throughput(done).and_then(Value::as_f64).and_then(obs);
    m.observe_done(decode, prefill);
}

#[test]
fn histogram_buckets_are_cumulative_and_sum_is_exact() {
    let mut h = Histogram::default();
    for v in [5.0, 30.0, 300.0, 90_000.0] {
        h.observe(obs(v));
    }
    let mut s = String::new();
    let sum = sum_text(&h);
    h.render(&mut s, "t", "help", &sum);
    // 5 -> le=10; 30 -> le=50; 300 -> le=500; 90000 -> +Inf
    assert!(s.contains("t_bucket{le=\"10\"} 1"), "{s}");
    assert!(s.contains("t_bucket{le=\"50\"} 2"), "{s}");
    assert!(s.contains("t_bucket{le=\"500\"} 3"), "{s}");
    assert!(s.contains("t_bucket{le=\"+Inf\"} 4"), "{s}");
    assert!(s.contains("t_count 4"), "{s}");
    assert!(s.contains("t_sum 90335"), "{s}");
}

#[test]
fn absent_fields_do_not_observe_a_zero() {
    let mut m = Metrics::default();
    observe_done(&mut m, &done(&[("prefill_tok_s", 400.0)]));
    assert_eq!(m.prefill_tok_s.count(), 1);
    assert_eq!(
        m.decode_tok_s.count(),
        0,
        "absent decode must not be recorded"
    );
    assert_eq!(m.requests_total, 1);
    // ttft/latency come from observe_timing, never from the done payload.
    m.observe_timing(None, obs(120.0));
    assert_eq!(m.ttft_ms.count(), 0, "no first token => no ttft sample");
    assert_eq!(m.latency_ms.count(), 1);
    m.observe_timing(obs(30.0), obs(200.0));
    assert_eq!(m.ttft_ms.count(), 1);
    assert_eq!(m.latency_ms.count(), 2);
}

#[test]
fn decode_falls_back_to_tok_s() {
    let mut m = Metrics::default();
    observe_done(&mut m, &done(&[("tok_s", 37.7)]));
    assert_eq!(m.decode_tok_s.count(), 1);
    let both = done(&[("tok_s", 1.0), ("decode_tok_s", 2.0)]);
    assert_eq!(decode_throughput(&both).and_then(Value::as_f64), Some(2.0));
}

#[test]
fn negative_and_nan_are_ignored() {
    let mut h = Histogram::default();
    h.observe(obs(-1.0));
    h.observe(obs(f64::NAN));
    h.observe(obs(f64::INFINITY));
    assert_eq!(h.count(), 0);
}

#[test]
fn render_emits_help_and_type_for_every_series() {
    let m = Metrics::default();
    let out = render(&m, 3, 16, 120, Some("qwen3.8-27b"));
    for name in [
        "hipfire_requests_total",
        "hipfire_queue_depth",
        "hipfire_ttft_milliseconds",
        "hipfire_decode_tokens_per_second",
    ] {
        assert!(
            out.contains(&format!("# HELP {name} ")),
            "missing HELP {name}"
        );
        assert!(
            out.contains(&format!("# TYPE {name} ")),
            "missing TYPE {name}"
        );
    }
    assert!(out.contains("hipfire_queue_depth 3"));
    assert!(out.contains("hipfire_model_loaded 1"));
    let none = render(&m, 3, 16, 120, None);
    assert!(none.contains("hipfire_model_loaded 0"));
}

#[test]
fn bounds_belong_to_their_bucket() {
    let mut h = Histogram::default();
    h.observe(obs(10.0));
    h.observe(obs(10.001));
    h.observe(obs(60000.0));
    h.observe(obs(60000.5));
    assert_eq!(h.buckets[0], 1);
    assert_eq!(h.buckets[1], 1);
    assert_eq!(h.buckets[11], 1);
    assert_eq!(h.inf, 1);
    assert_eq!(h.count(), 4);
}

#[test]
fn exposition_is_exact() {
    let mut m = Metrics::default();
    m.record_failure();
    m.record_admission_rejected();
    let out = render(&m, 0, 4, 1, None);
    assert!(out.starts_with(
        "# HELP hipfire_requests_total Completed generation requests.\n# TYPE hipfire_requests_total counter\nhipfire_requests_total 0\n# HELP hipfire_requests_failed_total Requests that ended in an error response.\n# TYPE hipfire_requests_failed_total counter\nhipfire_requests_failed_total 1\n"
    ));
    assert!(out.contains("\nhipfire_admission_rejected_total 1\n"));
    assert!(out.ends_with(
        "hipfire_prefill_tokens_per_second_bucket{le=\"+Inf\"} 0\nhipfire_prefill_tokens_per_second_sum 0\nhipfire_prefill_tokens_per_second_count 0\n"
    ));
}
