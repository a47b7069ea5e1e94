use hipfire_serve::bench_concurrency::{
    arm_is_valid, arm_label, base_prompt, batch_request, check_k, classify_frame, fold_outcomes,
    followup_prompt, median, on_frame, parse_concurrency, plain_request, sequential_prompt,
    slot_request, slot_request_messages, stream_prompt, sweep_order, turn_count, warmup_tokens,
    ArmCounts, ConcurrencyError, Frame, Middle, RunCounter, SamplesByK, StreamOutcome, StreamStep,
    Sweep, SweepStep, WorkloadSel,
};
use serde_json::Value;

#[test]
fn parse_concurrency_sorts_dedups_and_rejects_zero() {
    assert_eq!(parse_concurrency("4,1,2,1").unwrap(), vec![1, 2, 4]);
    assert!(parse_concurrency("0").is_err());
    assert!(parse_concurrency("").is_err());
    assert!(parse_concurrency("x").is_err());
}

#[test]
fn concurrency_errors_name_the_first_fault() {
    assert_eq!(
        parse_concurrency(" 3 , x1 ,0"),
        Err(ConcurrencyError::NotANumber("x1".to_string()))
    );
    assert_eq!(parse_concurrency("3,0,x"), Err(ConcurrencyError::NotPositive));
    assert_eq!(parse_concurrency(" , ,"), Err(ConcurrencyError::NoValues));
    assert_eq!(parse_concurrency(" +7,\u{2003}5 ,,"), Ok(vec![5, 7]));
    assert_eq!(
        parse_concurrency("99999999999999999999"),
        Err(ConcurrencyError::NotANumber("99999999999999999999".to_string()))
    );
    assert_eq!(
        ConcurrencyError::NotANumber("q".to_string()).message(),
        "--concurrency: not a number: q"
    );
    assert_eq!(
        ConcurrencyError::NotPositive.message(),
        "--concurrency values must be positive"
    );
    assert_eq!(
        ConcurrencyError::NoValues.message(),
        "--concurrency needs at least one value"
    );
}

/// The sweep must interleave. A blocked order (1,1,1,2,2,2) lets thermal
/// drift masquerade as a concurrency effect.
#[test]
fn sweep_order_is_interleaved_not_blocked() {
    assert_eq!(
        sweep_order(&[1, 2, 3, 4], 3),
        vec![1, 2, 3, 4, 1, 2, 3, 4, 1, 2, 3, 4]
    );
}

/// Key of a float in its total order, and back.
fn key(x: f64) -> i64 {
    let b = x.to_bits() as i64;
    b ^ ((((b >> 63) as u64) >> 1) as i64)
}

fn unkey(k: i64) -> f64 {
    f64::from_bits((k ^ ((((k >> 63) as u64) >> 1) as i64)) as u64)
}

fn median_of(xs: &mut [f64]) -> Option<f64> {
    let mut keys: Vec<i64> = xs.iter().map(|x| key(*x)).collect();
    let m = median(&mut keys);
    for (x, k) in xs.iter_mut().zip(&keys) {
        *x = unkey(*k);
    }
    m.map(|m| match m {
        Middle::One(k) => unkey(k),
        Middle::Two(a, b) => (unkey(a) + unkey(b)) / 2.0,
    })
}

#[test]
fn median_handles_odd_even_and_empty() {
    assert_eq!(median_of(&mut [3.0, 1.0, 2.0]), Some(2.0));
    assert_eq!(median_of(&mut [4.0, 1.0, 3.0, 2.0]), Some(2.5));
    assert_eq!(median_of(&mut []), None);
    let mut xs = [2.5, -1.0, 0.0];
    assert_eq!(median_of(&mut xs), Some(0.0));
    assert_eq!(xs, [-1.0, 0.0, 2.5]);
}

/// A backend must refuse k above what it was started with rather than
/// silently clamping.
#[test]
fn run_rejects_k_above_max_concurrency() {
    struct Fake {
        max: usize,
    }
    impl Fake {
        fn run(&mut self, _w: WorkloadSel, k: usize, _m: u64) -> Result<ArmCounts, String> {
            check_k("fake", self.max, k)?;
            Ok(ArmCounts {
                tokens: 0,
                rejected: 0,
                prefix_hits: 0,
            })
        }
    }
    let mut f = Fake { max: 2 };
    assert!(f.run(WorkloadSel::Stateless, 2, 8).is_ok());
    let err = f.run(WorkloadSel::Stateless, 3, 8).unwrap_err();
    assert!(err.contains("exceeds"), "unexpected error: {err}");
    assert_eq!(err, "concurrency 3 exceeds fake backend maximum 2");
}

fn parsed(text: &str) -> Value {
    serde_json::from_str(text).expect("a request is valid JSON")
}

#[test]
fn batch_request_opts_into_the_batch_route_and_answer_mode() {
    let r = parsed(&batch_request("hello", 64, "bench-c-1"));
    assert_eq!(
        r.get("serve_continuous_batch").and_then(|v| v.as_bool()),
        Some(true)
    );
    assert_eq!(r.get("type").and_then(|v| v.as_str()), Some("generate"));
    assert_eq!(r.get("id").and_then(|v| v.as_str()), Some("bench-c-1"));
    assert_eq!(r.get("max_tokens").and_then(|v| v.as_u64()), Some(64));
    // Answer mode, same contract as the single-stream bench path.
    assert_eq!(r.get("max_think_tokens").and_then(|v| v.as_u64()), Some(1));
    assert_eq!(
        r.get("assistant_prefix").and_then(|v| v.as_str()),
        Some("closed_think")
    );
    assert_eq!(r.get("prompt").and_then(|v| v.as_str()), Some("hello"));
    assert_eq!(r.get("temperature").and_then(|v| v.as_f64()), Some(0.0));
    assert_eq!(r.get("top_p").and_then(|v| v.as_f64()), Some(1.0));
    assert_eq!(r.get("repeat_penalty").and_then(|v| v.as_f64()), Some(1.1));
    assert_eq!(r.get("attempt_id").and_then(|v| v.as_u64()), Some(1));
    assert_eq!(r.get("reasoning_effort").and_then(|v| v.as_str()), Some("none"));
    assert_eq!(r.to_string(), batch_request("hello", 64, "bench-c-1"));
}

#[test]
fn slot_requests_opt_into_the_slot_engine() {
    let text = slot_request("a \"quoted\"\nline\u{1}", 8, "id\\1", 2);
    let r = parsed(&text);
    assert_eq!(r.to_string(), text);
    assert_eq!(
        r.get("prompt").and_then(|v| v.as_str()),
        Some("a \"quoted\"\nline\u{1}")
    );
    assert_eq!(r.get("id").and_then(|v| v.as_str()), Some("id\\1"));
    assert_eq!(
        r.get("experimental_multi_slot").and_then(|v| v.as_bool()),
        Some(true)
    );
    assert!(r.get("serve_continuous_batch").is_none());
    let m = parsed(&slot_request_messages("p", "a", followup_prompt(), 8, "x", 2));
    assert_eq!(
        m.pointer("/messages/1/role").and_then(|v| v.as_str()),
        Some("assistant")
    );
    assert_eq!(
        m.pointer("/messages/2/content").and_then(|v| v.as_str()),
        Some("Explain that again in one sentence.")
    );
    let p = parsed(&plain_request("p", 8, "x"));
    assert!(p.get("serve_continuous_batch").is_none());
    assert!(p.get("experimental_multi_slot").is_none());
}

#[test]
fn multiturn_without_prefix_hits_is_invalid_on_slots() {
    let no_hits = ArmCounts {
        tokens: 100,
        rejected: 0,
        prefix_hits: 0,
    };
    let hits = ArmCounts {
        tokens: 100,
        rejected: 0,
        prefix_hits: 2,
    };

    assert!(arm_is_valid(WorkloadSel::Multiturn, "slots", &no_hits).is_err());
    assert!(arm_is_valid(WorkloadSel::Multiturn, "slots", &hits).is_ok());
    // The batch backend cannot reuse a prefix at all, so zero is expected.
    assert!(arm_is_valid(WorkloadSel::Multiturn, "batch", &no_hits).is_ok());
    // Stateless never reuses anything.
    assert!(arm_is_valid(WorkloadSel::Stateless, "slots", &no_hits).is_ok());
}

#[test]
fn prompts_are_unique_and_distinct() {
    assert_eq!(stream_prompt(3, 0), "Q3-0. The capital of France is");
    assert_eq!(stream_prompt(1, 9), "Q1-9. Once upon a time, in a distant galaxy,");
    assert_ne!(stream_prompt(1, 12), stream_prompt(11, 2));
    for a in 0..8 {
        for b in 0..a {
            assert_ne!(base_prompt(a), base_prompt(b));
        }
    }
    assert_eq!(sequential_prompt(3, 0, 0), stream_prompt(3, 0));
    assert_eq!(
        sequential_prompt(3, 0, 1),
        "Q3-0. The capital of France is Explain that again in one sentence."
    );
    assert_eq!(turn_count(WorkloadSel::Multiturn), 2);
    assert_eq!(turn_count(WorkloadSel::Both), 1);
    assert_eq!(arm_label(WorkloadSel::Multiturn), Some("multiturn"));
    assert_eq!(arm_label(WorkloadSel::Both), None);
    assert_eq!((warmup_tokens(3), warmup_tokens(30)), (3, 8));
}

fn frame(text: &str) -> Frame {
    classify_frame(&parsed(text))
}

#[test]
fn frames_are_counted_and_rejections_do_not_count_tokens() {
    let mut served = StreamOutcome::default();
    assert_eq!(
        on_frame(&mut served, &frame("{\"type\":\"token\",\"text\":\"hi \"}")),
        StreamStep::Wait
    );
    assert_eq!(on_frame(&mut served, &frame("{\"type\":\"token\"}")), StreamStep::Wait);
    assert_eq!(on_frame(&mut served, &frame("{\"type\":\"gen_start\"}")), StreamStep::Wait);
    assert_eq!(on_frame(&mut served, &frame("[]")), StreamStep::Wait);
    assert_eq!(on_frame(&mut served, &Frame::Timeout), StreamStep::Wait);
    assert_eq!(
        on_frame(&mut served, &frame("{\"type\":\"commit_ready\",\"cached_tokens\":5}")),
        StreamStep::Commit
    );
    assert_eq!(
        on_frame(&mut served, &frame("{\"type\":\"commit_ready\",\"cached_tokens\":0}")),
        StreamStep::Commit
    );
    assert_eq!(on_frame(&mut served, &frame("{\"type\":\"done\"}")), StreamStep::Release);
    assert_eq!((served.tokens, served.prefix_hits, served.rejected), (2, 1, false));
    assert_eq!(served.text, "hi ");

    let mut refused = StreamOutcome::default();
    on_frame(&mut refused, &frame("{\"type\":\"token\",\"text\":\"x\"}"));
    assert_eq!(on_frame(&mut refused, &frame("{\"type\":\"error\"}")), StreamStep::Release);
    let mut lost = StreamOutcome::default();
    assert_eq!(on_frame(&mut lost, &Frame::Disconnected), StreamStep::Release);

    let mut counts = ArmCounts {
        tokens: 1,
        rejected: 0,
        prefix_hits: 0,
    };
    fold_outcomes(&mut counts, &[served, refused, lost]);
    assert_eq!((counts.tokens, counts.rejected, counts.prefix_hits), (3, 2, 1));
}

#[test]
fn samples_group_by_stream_count() {
    let mut by_k = SamplesByK::new();
    for (k, s) in [(4, 'a'), (1, 'b'), (4, 'c'), (2, 'd')] {
        by_k.push(k, s);
    }
    assert_eq!(
        by_k.into_groups(),
        vec![(1, vec!['b']), (2, vec!['d']), (4, vec!['a', 'c'])]
    );
}

#[test]
fn sweeps_warm_up_measure_and_collect() {
    let arms = [WorkloadSel::Both, WorkloadSel::Multiturn];
    let mut sweep = Sweep::new(&arms, &[1, 2], 2, 64);
    let arm = WorkloadSel::Multiturn;
    assert_eq!(
        sweep.current(),
        Some(SweepStep::WarmUp { arm, k: 1, max_tokens: 8 })
    );
    sweep.warmed_up();
    let counts = |hits: usize| ArmCounts {
        tokens: 1,
        rejected: 0,
        prefix_hits: hits,
    };
    for (i, k) in [1, 2, 1, 2].into_iter().enumerate() {
        assert_eq!(
            sweep.current(),
            Some(SweepStep::Measure { arm, k, max_tokens: 64 })
        );
        // The second run reused nothing, so its sample is not kept.
        assert_eq!(sweep.measured("slots", &counts(if i == 1 { 0 } else { 1 }), i).is_ok(), i != 1);
    }
    assert_eq!(sweep.current(), Some(SweepStep::Collect { arm }));
    assert_eq!(sweep.collect(), vec![(1, vec![0, 2]), (2, vec![3])]);
    assert_eq!(sweep.current(), None);
}

#[test]
fn runs_are_counted_from_one() {
    let mut runs = RunCounter::new();
    assert_eq!((runs.next(), runs.next(), runs.runs), (1, 2, 2));
}

#[test]
fn drivers_never_repeat_a_prompt() {
    let mut runs = RunCounter::new();
    let mut seen: Vec<String> = Vec::new();
    for k in [12, 3, 12] {
        seen.extend(runs.next_prompts(k));
    }
    assert_eq!(seen.len(), 27);
    assert_eq!(seen[0], stream_prompt(1, 0));
    assert_eq!(seen[14], "Q2-2. ".to_string() + &stream_prompt(9, 2)["Q9-2. ".len()..]);
    assert_eq!(runs.runs, 3);
    for (i, a) in seen.iter().enumerate() {
        for b in &seen[i + 1..] {
            assert_ne!(a, b);
        }
    }
    assert!(runs.next_prompts(0).is_empty());
    assert_eq!(runs.runs, 4);
}
