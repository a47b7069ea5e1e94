use hipfire_serve::rig::{
    build_cache_domain, check_sequential_vl, check_vision_config, chosen_kv_mode,
    evicts_page_cache, head_source, kv_dtype_tag, kv_mode_name, max_pages_per_slot, plan_rig,
    queue_refusal, size_buffers, slot_kv_view, snapshot_stamp, widest_head_row, BundledHead, EngineConfig,
    HeadSource, KvMode, LayerType, ModelDigests, PagingVars, Qwen35Bundle, RigShape, VisionSource,
};
use hipfire_serve::rig_build::{BuildEvent, BuildStep, BuildTargets, RigBuild};
use hipfire_serve::teardown::{
    bundle_free_order, note_first_error, rollback_order, shutdown_result, teardown_order,
    BuildProgress, BundlePart, RigHoldings, RigPart,
};

fn config() -> EngineConfig {
    EngineConfig {
        model_path: "m".to_string(),
        n_slots: 4,
        cap_tokens: 1000,
        prefill_chunk: 256,
        host_budget_bytes: 0,
        swap_dir: "s".to_string(),
        is_vl: true,
        vl_path: None,
        mtp_k: 3,
        kv_mode_raw: String::new(),
        prefix_cache: false,
        prefix_cache_max_bytes: 0,
        max_batch_tokens: 0,
        prefill_min_tokens: 64,
        wait_max_count: 0,
        wait_max_bytes: 0,
        wait_timeout_ticks: 0,
        structured_jump_forward: false,
    }
}

fn vars(paged: Option<&str>, pages: Option<&str>, sequential: Option<&str>) -> PagingVars {
    PagingVars {
        slots_paged: paged.map(str::to_string),
        slots_paged_pages: pages.map(str::to_string),
        vl_sequential: sequential.map(str::to_string),
    }
}

fn shape() -> RigShape {
    RigShape {
        n_fa_layers: 2,
        k_bytes_per_pos: 10,
        v_bytes_per_pos: 6,
        weight_bytes: 1000,
    }
}

#[test]
fn slabs_are_planned_for_every_slot() {
    let p = plan_rig(&config(), &vars(None, None, None), &shape());
    assert_eq!(p.prefill_chunk, 256);
    assert_eq!(p.max_batch, 1024);
    assert_eq!(p.paged_pages, None);
    // Eight pages of 128 tokens per slot.
    assert_eq!(p.kv_pages, 32);
    assert_eq!(p.kv_bytes, 2 * 32 * 128 * 16);
    assert_eq!(p.planned_bytes, 1000 + p.kv_bytes + 768 * 1024 * 1024);
    assert_eq!((p.max_batch_tokens, p.prefill_min_tokens), (1, 64));
}

#[test]
fn paging_is_a_switch_that_the_prefix_cache_forces() {
    let mut c = config();
    assert_eq!(plan_rig(&c, &vars(Some("1"), None, None), &shape()).paged_pages, Some(32));
    assert_eq!(
        plan_rig(&c, &vars(Some("on"), Some(" 40 "), None), &shape()).paged_pages,
        Some(40)
    );
    assert_eq!(
        plan_rig(&c, &vars(Some("true"), Some("x"), None), &shape()).kv_pages,
        32
    );
    assert_eq!(plan_rig(&c, &vars(Some("yes"), None, None), &shape()).paged_pages, None);
    // Sequential images need contiguous slots.
    let p = plan_rig(&c, &vars(Some("1"), None, Some("1")), &shape());
    assert!(p.vl_sequential && p.paged_pages.is_none());
    c.prefix_cache = true;
    assert_eq!(
        plan_rig(&c, &vars(None, Some("7"), Some("1")), &shape()).paged_pages,
        Some(7)
    );
}

#[test]
fn the_batch_scratch_covers_verify_blocks() {
    let mut c = config();
    c.prefill_chunk = 0;
    c.mtp_k = 7;
    assert_eq!(plan_rig(&c, &vars(None, None, None), &shape()).max_batch, 32);
    c.cap_tokens = 2;
    c.prefill_chunk = 9;
    assert_eq!(plan_rig(&c, &vars(None, None, None), &shape()).prefill_chunk, 2);
}

#[test]
fn tiers_have_tags_and_names() {
    let all = [
        KvMode::Q8,
        KvMode::Asym2,
        KvMode::Asym3,
        KvMode::Asym4,
        KvMode::Fwht2,
        KvMode::Fwht3,
        KvMode::Fwht4,
        KvMode::Bf16,
    ];
    for (i, a) in all.iter().enumerate() {
        for b in &all[..i] {
            assert_ne!(kv_dtype_tag(*a), kv_dtype_tag(*b));
            assert_ne!(kv_mode_name(*a), kv_mode_name(*b));
        }
    }
    assert!(kv_dtype_tag(KvMode::Asym3Auto).is_err());
    assert!(check_sequential_vl(true, KvMode::Q8).is_ok());
    assert!(check_sequential_vl(true, KvMode::Bf16).is_err());
    assert!(check_sequential_vl(false, KvMode::Bf16).is_ok());
    let stamp = snapshot_stamp(&shape(), KvMode::Q8, 1000, 5).unwrap();
    assert_eq!((stamp.per_pos_bytes, stamp.cap, stamp.dn_bytes), (10, 1000, 5));
    assert_eq!(
        snapshot_stamp(&shape(), KvMode::Asym3Auto, 1, 1).unwrap_err(),
        "Asym3Auto sentinel reached Rig::build"
    );
}

#[test]
fn domains_name_the_model_and_the_device() {
    let d = ModelDigests {
        model: vec![1],
        sidecars: vec![vec![2]],
        vocab: vec![3],
        tokenizer_config: vec![4],
        template: vec![5],
    };
    let a = build_cache_domain(d.clone(), "", &shape(), KvMode::Q8, 12);
    assert_eq!(a.template.normalization_tag, "prompt-frame");
    assert_eq!(a.device.device_id, "gpu-12");
    assert_eq!(a.kv_layout.layout_tag, kv_mode_name(KvMode::Q8));
    assert_eq!(a.kv_layout.k_stride_bytes, vec![10]);
    let b = build_cache_domain(d, "{{x}}", &shape(), KvMode::Q8, 12);
    assert_eq!(b.template.normalization_tag, "jinja");
    assert!(!a.same(&b));
}

#[test]
fn heads_come_from_the_model_or_the_side_file() {
    assert_eq!(head_source(0, BundledHead::Loaded, true), HeadSource::Off);
    assert_eq!(head_source(2, BundledHead::Loaded, true), HeadSource::Bundled);
    assert_eq!(head_source(2, BundledHead::Failed, true), HeadSource::Sidecar);
    assert_eq!(head_source(2, BundledHead::Absent, true), HeadSource::Sidecar);
    assert_eq!(head_source(2, BundledHead::Absent, false), HeadSource::Off);
}

#[test]
fn sizes_round_up() {
    assert_eq!(max_pages_per_slot(true, 129), 2);
    assert_eq!(max_pages_per_slot(true, 128), 1);
    assert_eq!(max_pages_per_slot(false, 128), 0);
    assert_eq!(widest_head_row(4, 5, 3, 3), 9);
    assert_eq!(widest_head_row(5, 9, 3, 3), 10);
}

#[test]
fn flat_views_map_full_layers_to_arenas() {
    let v = slot_kv_view(
        false,
        KvMode::Q8,
        &[
            LayerType::LinearAttention,
            LayerType::FullAttention,
            LayerType::LinearAttention,
            LayerType::FullAttention,
        ],
        2,
        128,
        100,
        4096,
    );
    assert_eq!(v.arenas, vec![None, Some(0), None, Some(1)]);
    assert_eq!((v.base, v.span), (4096, 100 * 2 * 4 * 34));
    assert_eq!((v.kv_dim, v.max_seq), (256, 100));
}

#[test]
fn parts_are_freed_in_order() {
    assert_eq!(
        bundle_free_order(true, false),
        vec![
            BundlePart::DecodeBatch,
            BundlePart::KvCache,
            BundlePart::Scratch,
            BundlePart::Weights,
            BundlePart::RecurrentState
        ]
    );
    assert_eq!(bundle_free_order(false, true).last(), Some(&BundlePart::Vision));
}

#[test]
fn the_first_error_is_kept() {
    let e = |s: &str| Err::<(), String>(s.to_string());
    let first = note_first_error(None, e("a"));
    assert_eq!(note_first_error(first, e("b")), Some("a".to_string()));
    assert_eq!(note_first_error(None, Ok(())), None);
    assert_eq!(shutdown_result(None, Ok(())), Ok(()));
    assert_eq!(shutdown_result(None, e("t")), e("t"));
    assert_eq!(shutdown_result(Some("p".to_string()), Ok(())), e("p"));
    assert_eq!(
        shutdown_result(Some("p".to_string()), e("t")),
        e("p; teardown failed: t")
    );
}

#[test]
fn a_failed_reset_leaves_the_cache() {
    let mut b = Qwen35Bundle {
        dim: 8,
        n_layers: 2,
        vocab_size: 100,
        compact_offset: 5,
    };
    assert_eq!(
        b.reset_session_state(Err("hip".to_string())),
        Err("qwen35 reset_session_state: hip".to_string())
    );
    assert_eq!(b.compact_offset, 5);
    assert_eq!(b.reset_session_state(Ok(())), Ok(()));
    assert_eq!(b.compact_offset, 0);
    assert_eq!((b.dim(), b.n_layers(), b.vocab_size(), b.arch_key()), (8, 2, 100, "qwen35"));
}

#[test]
fn a_failed_build_is_given_back() {
    let early = BuildProgress {
        head_hidden: false,
        verify_tape: false,
        head_rotation: false,
        head_scratch: false,
        repeat_windows: 0,
        out_tokens: false,
        logits: false,
        scratch: false,
        batch_scratch: false,
        descriptor_staging: false,
        recurrent_states: 0,
        v_arenas: 1,
        k_arenas: 2,
        kv_tier: false,
        head: false,
        vision: true,
    };
    assert_eq!(
        rollback_order(early),
        vec![
            RigPart::VArena(0),
            RigPart::KArena(1),
            RigPart::KArena(0),
            RigPart::Weights,
            RigPart::VisionWeights,
            RigPart::WeightCaches,
            RigPart::GraphState,
            RigPart::Pool
        ]
    );
    let late = BuildProgress {
        head_hidden: true,
        verify_tape: true,
        head_rotation: true,
        head_scratch: true,
        repeat_windows: 2,
        out_tokens: true,
        logits: true,
        recurrent_states: 2,
        ..early
    };
    let order = rollback_order(late);
    assert_eq!(
        order[..10],
        [
            RigPart::HeadHidden,
            RigPart::VerifyTape,
            RigPart::HeadRotation,
            RigPart::HeadScratch,
            RigPart::RepeatWindow(1),
            RigPart::RepeatWindow(0),
            RigPart::OutTokens,
            RigPart::Logits,
            RigPart::RecurrentState(1),
            RigPart::RecurrentState(0)
        ]
    );
}

#[test]
fn a_rig_is_taken_down_in_order() {
    let order = teardown_order(&RigHoldings {
        n_slots: 1,
        n_fa_layers: 2,
        head: true,
        head_states: vec![false, true],
        head_scratch: true,
        verify_tape: false,
        vision: false,
        vision_matrices: vec![true],
        vision_jobs: vec![false],
        checkpoints: true,
    });
    assert_eq!(
        order,
        vec![
            RigPart::Graph,
            RigPart::RepeatWindow(0),
            RigPart::OutTokens,
            RigPart::Logits,
            RigPart::Scratch,
            RigPart::BatchScratch,
            RigPart::DescriptorStaging,
            RigPart::KvTier,
            RigPart::RecurrentState(0),
            RigPart::VArena(1),
            RigPart::KArena(1),
            RigPart::VArena(0),
            RigPart::KArena(0),
            RigPart::Weights,
            RigPart::Head,
            RigPart::HeadState(1),
            RigPart::HeadScratch,
            RigPart::HeadRotation,
            RigPart::HeadHidden,
            RigPart::VisionMatrix(0),
            RigPart::Checkpoints,
            RigPart::WeightCaches,
            RigPart::GraphState,
            RigPart::Pool
        ]
    );
}

#[test]
fn builds_choose_their_sources() {
    assert_eq!(chosen_kv_mode("", "q8"), "q8");
    assert_eq!(chosen_kv_mode("asym3", "q8"), "asym3");
    assert!(!evicts_page_cache(Some("0"), true));
    assert!(evicts_page_cache(Some(""), false));
    assert!(evicts_page_cache(None, true) && !evicts_page_cache(None, false));
    let mut c = config();
    assert_eq!(c.vision_source(), VisionSource::Inline);
    c.vl_path = Some("x.vl".to_string());
    assert_eq!(c.vision_source(), VisionSource::Sidecar);
    c.is_vl = false;
    assert_eq!(c.vision_source(), VisionSource::Off);
    assert_eq!(check_vision_config(VisionSource::Off, false), Ok(()));
    assert_eq!(check_vision_config(VisionSource::Inline, true), Ok(()));
    assert_eq!(
        check_vision_config(VisionSource::Sidecar, false),
        Err(".vl file missing vision_config in metadata")
    );
    assert_eq!(
        check_vision_config(VisionSource::Inline, false),
        Err("VL model missing vision_config in metadata")
    );
}

#[test]
fn buffers_are_sized() {
    let c = config();
    let p = plan_rig(&c, &vars(None, None, None), &shape());
    let b = size_buffers(&c, &p, &shape(), 1000, 64, 200, true);
    assert_eq!((b.logits, b.out_tokens, b.repeat_window), (4000, 4, 2048));
    assert_eq!((b.head_hidden, b.head_rotation), (256 * 64, 256 * 200));
    assert_eq!((b.verify_rows, b.kv_bytes_per_token), (16, 32));
    assert_eq!(size_buffers(&c, &p, &shape(), 1, 1, 1, false).verify_rows, 0);
}

fn queues(max_batch: usize, min: usize, count: usize, bytes: u64) -> EngineConfig {
    let mut c = config();
    c.max_batch_tokens = max_batch;
    c.prefill_min_tokens = min;
    c.wait_max_count = count;
    c.wait_max_bytes = bytes;
    c
}

#[test]
fn bad_queue_settings_are_refused() {
    assert_eq!(queue_refusal(&queues(68, 64, 1, 1)), None);
    assert_eq!(
        queue_refusal(&queues(67, 64, 1, 1)).unwrap(),
        "fairness queue: max_batch_tokens 67 is below n_slots 4 plus prefill_min_tokens 64"
    );
    assert!(queue_refusal(&queues(4, 0, 1, 1)).is_some());
    assert!(queue_refusal(&queues(5, 0, 1, 1)).is_none());
    assert_eq!(
        queue_refusal(&queues(68, 64, 0, 1)).unwrap(),
        "wait queue: the caps on count and bytes must be non-zero"
    );
    assert!(queue_refusal(&queues(68, 64, 1, 0)).is_some());
}

/// Takes parts until the build ends.
fn run_build(cfg: &EngineConfig, fail_at: Option<RigPart>) -> (Vec<RigPart>, BuildStep) {
    run_build_on(cfg, fail_at, false, KvMode::Fwht3)
}

fn run_build_on(
    cfg: &EngineConfig,
    fail_at: Option<RigPart>,
    vl_sequential: bool,
    mode: KvMode,
) -> (Vec<RigPart>, BuildStep) {
    let mut build = RigBuild::new(
        BuildTargets {
            n_fa_layers: 2,
            n_slots: 1,
            head: true,
            mtp_k: 2,
            vl_sequential,
            mode,
        },
        true,
    );
    let mut taken = Vec::new();
    let mut event = BuildEvent::Begin;
    loop {
        match build.step(cfg, event) {
            BuildStep::Take(part) if Some(part) == fail_at => {
                event = BuildEvent::Failed("no memory".to_string());
            }
            BuildStep::Take(part) => {
                taken.push(part);
                event = BuildEvent::Taken;
            }
            end => return (taken, end),
        }
    }
}

#[test]
fn builds_refuse_the_sequential_path_under_rotated_tiers() {
    let cfg = queues(68, 64, 1, 1);
    let (taken, end) = run_build_on(&cfg, None, true, KvMode::Asym3);
    assert_eq!(taken.last(), Some(&RigPart::RepeatWindow(0)));
    match end {
        BuildStep::Fail { reason, give_back } => {
            assert!(reason.starts_with("HIPFIRE_VL_SEQUENTIAL=1 writes KV"));
            for part in &taken {
                assert!(give_back.contains(part), "{part:?} is given back");
            }
        }
        other => panic!("{other:?}"),
    }
    let (_, end) = run_build_on(&cfg, None, true, KvMode::Q8);
    assert!(matches!(end, BuildStep::Ready));
    let (taken, end) = run_build_on(&cfg, None, false, KvMode::Asym3Auto);
    assert_eq!(taken.last(), Some(&RigPart::RepeatWindow(0)));
    match end {
        BuildStep::Fail { reason, .. } => {
            assert_eq!(reason, "Asym3Auto sentinel reached Rig::build")
        }
        other => panic!("{other:?}"),
    }
}

#[test]
fn builds_take_their_parts_in_order() {
    let (taken, end) = run_build(&queues(68, 64, 1, 1), None);
    assert!(matches!(end, BuildStep::Ready));
    assert_eq!(
        taken,
        vec![
            RigPart::KArena(0),
            RigPart::VArena(0),
            RigPart::KArena(1),
            RigPart::VArena(1),
            RigPart::KvTier,
            RigPart::RecurrentState(0),
            RigPart::DescriptorStaging,
            RigPart::BatchScratch,
            RigPart::Scratch,
            RigPart::Logits,
            RigPart::OutTokens,
            RigPart::RepeatWindow(0),
            RigPart::HeadScratch,
            RigPart::HeadRotation,
            RigPart::VerifyTape,
            RigPart::HeadHidden
        ]
    );
}

#[test]
fn failed_builds_give_back_what_they_took() {
    for (cfg, fail_at, why) in [
        (queues(68, 64, 0, 1), None, "wait queue"),
        (queues(10, 64, 1, 1), None, "fairness queue"),
        (queues(68, 64, 1, 1), Some(RigPart::VArena(1)), "no memory"),
        (queues(68, 64, 1, 1), Some(RigPart::VerifyTape), "no memory"),
    ] {
        let (taken, end) = run_build(&cfg, fail_at);
        match end {
            BuildStep::Fail { reason, give_back } => {
                assert!(reason.starts_with(why), "{reason}");
                for part in &taken {
                    assert!(give_back.contains(part), "{part:?}");
                }
                // The weights, the head, the vision tower and what the device
                // keeps come on top.
                assert_eq!(give_back.len(), taken.len() + 6);
            }
            _ => panic!("the build must fail"),
        }
    }
}
