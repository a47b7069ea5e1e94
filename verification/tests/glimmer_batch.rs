use hipfire_serve::glimmer_batch::{
    active_lanes, attest_batch, batch_weight_formats_supported, check_batch_geometry,
    check_lane_range, check_sample_lane, lane_kv_span, lane_span, plan_batch, BatchPart,
    EmbeddingFormat, GlimmerConfig, GlimmerDecodeBatchState, GlimmerLayerType, LaneClear,
    LayerFormats, PrefillStep, Projection, Span, WeightFormats,
};

fn proj(dtype: &str, plan: &str) -> Projection {
    Projection {
        dtype: dtype.to_string(),
        plan: plan.to_string(),
    }
}

fn layer() -> LayerFormats {
    LayerFormats {
        q_proj: proj("Q8_0", "None"),
        k_proj: proj("Q8_0", "None"),
        v_proj: proj("F32", "None"),
        attn_gate_proj: proj("BF16", "None"),
        gate_proj: proj("MQ4G256", "Fwht"),
        up_proj: proj("MQ6G256", "Fwht"),
        o_proj: proj("HFQ4G256", "None"),
        down_proj: proj("Q8_0", "Other"),
    }
}

fn weights() -> WeightFormats {
    WeightFormats {
        embd_format: EmbeddingFormat::Q8_0,
        lm_head: "Q8_0".to_string(),
        layers: vec![layer(), layer()],
    }
}

fn config() -> GlimmerConfig {
    GlimmerConfig {
        n_heads: 8,
        n_kv_heads: 2,
        head_dim: 64,
        dim: 100,
        hidden_dim: 300,
        q_dim: 512,
        kv_dim: 128,
        vocab_size: 1000,
        n_layers: 3,
        layer_types: vec![
            GlimmerLayerType::Sliding,
            GlimmerLayerType::Full,
            GlimmerLayerType::Sliding,
        ],
    }
}

fn batch(max_batch: usize, lane_capacity: usize) -> GlimmerDecodeBatchState {
    match GlimmerDecodeBatchState::new(config(), max_batch, lane_capacity, None) {
        Ok(b) => b,
        Err(e) => panic!("{e}"),
    }
}

#[test]
fn batches_are_refused_in_order() {
    let why = |max_batch: usize, cap: usize, lds: Option<&str>| {
        match GlimmerDecodeBatchState::new(config(), max_batch, cap, lds) {
            Ok(_) => String::new(),
            Err(e) => e,
        }
    };
    assert_eq!(why(0, 1, Some("x")), "glimmer batch: max_batch must be 1..=64 (got 0)");
    assert_eq!(why(4, usize::MAX, Some("too big")), "glimmer batch: LDS check: too big");
    assert_eq!(why(4, usize::MAX, None), "glimmer batch: KV capacity overflow");
    assert_eq!(why(4, 10, None), "");
    let labels: Vec<&str> = batch(2, 4).reset().iter().map(|b| b.label).collect();
    assert_eq!(labels.len(), 25);
    assert_eq!((labels[0], labels[23], labels[24]), ("x_batch", "logits_scratch", "repeat_dummy"));
    assert_eq!(
        batch(4, 10).sample_lane_product(2),
        Ok(Span { offset: 2000, len: 1000 })
    );
    assert!(batch(4, 10).sample_lane_product(4).is_err());
}

#[test]
fn formats_are_checked_in_order() {
    assert_eq!(batch_weight_formats_supported(&weights()), Ok(()));
    let mut w = weights();
    w.layers[1].up_proj = proj("Q5", "Fwht");
    w.layers[1].down_proj = proj("Q5", "Fwht");
    assert_eq!(
        batch_weight_formats_supported(&w).unwrap_err(),
        "glimmer batch: layer 1 up_proj dtype Q5 not in batch allowlist"
    );
    w.layers[0].k_proj = proj("Q8_0", "Fwht");
    assert_eq!(
        batch_weight_formats_supported(&w).unwrap_err(),
        "glimmer batch: layer 0 q/k/v/attn_gate rotation plans must agree (q None, k Fwht, v None, gate None)"
    );
    w.layers[0].q_proj = proj("Q4", "None");
    assert_eq!(
        batch_weight_formats_supported(&w).unwrap_err(),
        "glimmer batch: layer 0 q_proj dtype Q4 not in batch allowlist (Q8/MQ4/HFQ4/MQ6)"
    );
    w.lm_head = "MQ4G256".to_string();
    assert_eq!(
        batch_weight_formats_supported(&w).unwrap_err(),
        "glimmer batch: lm_head must be Q8_0 or F32 or BF16 for batched decode (got MQ4G256)"
    );
    w.embd_format = EmbeddingFormat::Q4K;
    assert_eq!(
        batch_weight_formats_supported(&w).unwrap_err(),
        "glimmer batch: Q4K embed unsupported"
    );
    let mut g = weights();
    g.layers[0].up_proj = proj("Q8_0", "None");
    assert_eq!(
        batch_weight_formats_supported(&g).unwrap_err(),
        "glimmer batch: layer 0 gate/up rotation plans must agree (Fwht vs None)"
    );
}

#[test]
fn shapes_are_checked_in_order() {
    let c = config();
    assert_eq!(check_batch_geometry(&c, 64, 1), Ok(()));
    assert_eq!(
        check_batch_geometry(&c, 65, 0).unwrap_err(),
        "glimmer batch: max_batch must be 1..=64 (got 65)"
    );
    assert_eq!(
        check_batch_geometry(&c, 1, 0).unwrap_err(),
        "glimmer batch: lane_capacity must be non-zero"
    );
    let mut d = config();
    d.head_dim = 40;
    assert_eq!(
        check_batch_geometry(&d, 1, 1).unwrap_err(),
        "glimmer batch: head_dim 40 must be multiple of 32"
    );
    d.n_kv_heads = 3;
    assert_eq!(
        check_batch_geometry(&d, 1, 1).unwrap_err(),
        "glimmer batch: n_heads 8 % n_kv_heads 3 !=0"
    );
    d.vocab_size = 0;
    assert_eq!(
        check_batch_geometry(&d, 1, 1).unwrap_err(),
        "glimmer batch: zero or degenerate geometry"
    );
    assert_eq!(attest_batch(&weights(), &config(), 4, 10), Ok(()));
    let mut w = weights();
    w.embd_format = EmbeddingFormat::Q4K;
    assert!(attest_batch(&w, &config(), 0, 10).unwrap_err().contains("max_batch"));
    assert!(attest_batch(&w, &config(), 1, 10).unwrap_err().contains("Q4K"));
}

#[test]
fn buffers_are_planned_per_lane() {
    let p = plan_batch(&config(), 4, 50).unwrap();
    assert_eq!(p.total_capacity, 200);
    assert_eq!(p.kv_slot_for_layer, vec![0, 0, 1]);
    assert_eq!((p.n_sliding, p.n_full), (2, 1));
    assert_eq!(p.lane_buffers.len(), 23);
    let logits = p.lane_buffers.iter().find(|b| b.label == "logits").unwrap();
    assert_eq!((logits.len, logits.half), (4000, false));
    let last = p.lane_buffers.last().unwrap();
    assert_eq!((last.label, last.len, last.half), ("bf16_scratch", 1200, true));
    let shared: Vec<(&str, usize)> = p.shared_buffers.iter().map(|b| (b.label, b.len)).collect();
    assert_eq!(
        shared,
        vec![
            ("logits_scratch", 1000),
            ("repeat_dummy", 1),
            ("qk_norm_ones", 64),
            ("embed_norm_ones", 100)
        ]
    );
    let message = |c: &GlimmerConfig, cap: usize| match plan_batch(c, 4, cap) {
        Ok(_) => String::new(),
        Err(e) => e,
    };
    assert_eq!(message(&config(), usize::MAX), "glimmer batch: KV capacity overflow");
    let mut c = config();
    c.vocab_size = usize::MAX;
    assert_eq!(message(&c, 1), "glimmer batch: vocab size overflow");
    c.kv_dim = usize::MAX;
    assert_eq!(message(&c, 1), "glimmer batch: kv size overflow");
    c.q_dim = usize::MAX;
    assert_eq!(message(&c, 1), "glimmer batch: q size overflow");
    c.dim = usize::MAX;
    assert_eq!(message(&c, 1), "glimmer batch: x size overflow");
    let mut h = config();
    h.hidden_dim = usize::MAX;
    assert_eq!(message(&h, 1), "glimmer batch: hidden size overflow");
}

#[test]
fn a_lane_is_cleared_alone() {
    assert_eq!(lane_span(3, 10), Span { offset: 30, len: 10 });
    let zeroed = batch(4, 50).reset_lane(2).unwrap();
    assert_eq!(zeroed.rows[0], Span { offset: 200, len: 100 });
    assert_eq!(zeroed.rows.len(), 23);
    assert_eq!(zeroed.kv.offset, 2 * zeroed.kv.len);
    assert!(batch(4, 50).reset_lane(4).is_err());
    // 50 tokens of 2 heads with 2 blocks of 34 bytes.
    let bytes = 50 * 2 * 2 * 34;
    let span = lane_kv_span(&config(), 4, 50, 3).unwrap();
    assert_eq!(span, Span { offset: 3 * bytes, len: bytes });
    assert_eq!(
        lane_kv_span(&config(), 4, 50, 4).unwrap_err(),
        "glimmer batch reset_lane: lane 4 >= max_batch 4"
    );
    assert_eq!(check_lane_range(span, 1, 0), Ok(LaneClear::Skip));
    assert_eq!(check_lane_range(span, 2, 4 * bytes), Ok(LaneClear::Clear));
    assert_eq!(
        check_lane_range(span, 2, 4 * bytes - 1).unwrap_err(),
        "glimmer batch reset_lane: lane byte range exceeds parent"
    );
}

#[test]
fn prefill_feeds_each_token_once() {
    let mut p = match batch(2, 10).prefill_lane_cancellable(&weights(), 1, vec![7, 8]) {
        Ok(p) => p,
        Err(e) => panic!("{e}"),
    };
    let clear = batch(2, 10).reset_lane(1).unwrap();
    // The lane is cleared first, whether or not cancellation was asked for.
    assert_eq!(p.step(true), PrefillStep::Clear(clear));
    assert_eq!(
        p.step(false),
        PrefillStep::Token { pos: 0, token: 7, required: 11, last: false }
    );
    assert_eq!(
        p.step(false),
        PrefillStep::Token { pos: 1, token: 8, required: 12, last: true }
    );
    assert_eq!(p.step(false), PrefillStep::Done);
    assert_eq!(p.step(true), PrefillStep::Cancelled);
    assert_eq!(p.step(false), PrefillStep::Cancelled);
}

#[test]
fn a_partial_batch_is_given_back() {
    let b = batch(2, 10);
    assert_eq!(b.part_to_take(0), Some(BatchPart::SlidingKv));
    assert_eq!(b.part_to_take(1), Some(BatchPart::FullKv));
    assert_eq!(b.part_to_take(28), Some(BatchPart::Buffer(26)));
    assert_eq!(b.part_to_take(29), None);
    assert!(b.give_back(0).is_empty());
    assert_eq!(b.give_back(1), vec![BatchPart::SlidingKv]);
    assert_eq!(
        b.give_back(4),
        vec![
            BatchPart::Buffer(0),
            BatchPart::Buffer(1),
            BatchPart::FullKv,
            BatchPart::SlidingKv
        ]
    );
    assert_eq!(b.give_back(29).len(), 29);
    assert_eq!(b.buffer(23).map(|p| p.label), Some("logits_scratch"));
    assert_eq!(
        b.part_failure(BatchPart::Buffer(1), "oom"),
        "glimmer batch: alloc residual_batch: oom"
    );
    assert_eq!(b.part_failure(BatchPart::FullKv, "oom"), "glimmer batch: full kv: oom");
    assert_eq!(b.part_failure(BatchPart::SlidingKv, "oom"), "glimmer batch: sliding kv: oom");
}

#[test]
fn unfit_prompts_are_refused() {
    let message = |lane: usize, prompt: Vec<u32>| {
        match batch(2, 3).prefill_lane_cancellable(&weights(), lane, prompt) {
            Ok(_) => String::new(),
            Err(e) => e,
        }
    };
    assert_eq!(message(2, vec![]), "glimmer prefill_lane: lane 2 >= max_batch 2");
    assert_eq!(message(0, vec![]), "glimmer prefill_lane: prompt is empty");
    assert_eq!(
        message(0, vec![1, 2, 3]),
        "glimmer prefill_lane: prompt len 3 leaves no decode capacity (lane_capacity 3)"
    );
    assert_eq!(message(0, vec![1, 2]), "");
}

#[test]
fn only_active_lanes_are_sampled() {
    assert_eq!(active_lanes(0b1010, 4), vec![1, 3]);
    assert_eq!(active_lanes(0b1010, 2), vec![1]);
    let mut rng = vec![10, 11, 12, 13];
    let out = batch(4, 10).sample_product(0b1010, false, &mut rng, &[(5, 50), (6, 60)]).unwrap();
    assert_eq!(out, vec![None, Some((5, 50)), None, Some((6, 60))]);
    assert_eq!(rng, vec![10, 50, 12, 60]);
    let out = batch(4, 10).sample_product(0b0001, true, &mut rng, &[(9, 90)]).unwrap();
    assert_eq!(out, vec![Some((9, 10)), None, None, None]);
    assert_eq!(rng, vec![10, 50, 12, 60]);
    assert_eq!(
        batch(5, 10).sample_product(0, false, &mut rng, &[]).unwrap_err(),
        "sample_product rng_states len 4 < max_batch 5"
    );
    assert_eq!(check_sample_lane(3, 4), Ok(()));
    assert_eq!(
        check_sample_lane(4, 4).unwrap_err(),
        "sample_lane_product lane 4 out of range"
    );
}
