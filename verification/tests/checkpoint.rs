use hipfire_serve::checkpoint::{
    capture_checkpoint, capture_misaligned_text, plan_resume, restore_private, CaptureStep,
    CheckpointBlob, QwenCheckpointPool,
};
use hipfire_serve::fingerprint::prefix_fingerprint;
use hipfire_serve::serve_contract::{
    ArchPolicy, CacheDomain, CheckpointId, DeviceTopology, DrafterDecision, KvLayout,
    LastTokenHandling, MissReason, PrefixLookup, ResumeBundle, ResumePlan, SharingNamespace,
    TemplateIdentity, TokenizerIdentity,
};

/// Host test double: just byte-length accounting, no device buffers.
#[derive(Clone, Debug)]
struct HostBlob {
    bytes: u64,
}

impl CheckpointBlob for HostBlob {
    fn bytes_len(&self) -> u64 {
        self.bytes
    }
}

/// Build a minimal `CacheDomain` for testing.
fn test_domain(tag: &str) -> CacheDomain {
    CacheDomain {
        model_content_digest: vec![0u8; 32],
        model_load_epoch: 1,
        sidecar_digests: vec![],
        tokenizer: TokenizerIdentity {
            vocab_digest: vec![1u8; 16],
            config_digest: vec![2u8; 16],
        },
        template: TemplateIdentity {
            template_digest: vec![3u8; 16],
            normalization_tag: "default".to_string(),
        },
        arch_policy: ArchPolicy {
            arch_tag: tag.to_string(),
            state_abi_tag: "q8".to_string(),
            position_attention_tag: "causal".to_string(),
        },
        kv_layout: KvLayout {
            k_stride_bytes: vec![128],
            v_stride_bytes: vec![128],
            layout_tag: "q8".to_string(),
        },
        device: DeviceTopology {
            device_id: "gpu0".to_string(),
            topology_id: "single".to_string(),
            allocation_epoch: 1,
        },
        namespace: SharingNamespace {
            domain_id: "test".to_string(),
        },
    }
}

/// Build a `PrefixLookup` with the given `resumable_tokens`.
fn lookup(resumable: u64) -> PrefixLookup {
    PrefixLookup {
        matched_tokens: resumable,
        resident_kv_tokens: resumable,
        resumable_tokens: resumable,
    }
}

/// Deterministic prompt of `n` tokens for fingerprint tests.
fn toks(n: u64) -> Vec<u32> {
    (0..n as u32).map(|i| i.wrapping_mul(2654435761).wrapping_add(1)).collect()
}

/// Fingerprint of `toks(n)[..p]` — the prefix a checkpoint at boundary p
/// was captured under.
fn fp(p: u64) -> u64 {
    prefix_fingerprint(&toks(p.max(1)) [..p as usize])
}

// Structural — capture at p=128, plan 200-token prompt.

#[test]
fn a7_capture_at_128_plan_200() {
    let mut pool = QwenCheckpointPool::<HostBlob>::new(1 << 20);
    let dom = test_domain("a7");

    // Capture at p=128 (page-aligned).
    let (id, _) = pool.insert(dom.clone(), 128, fp(128), HostBlob { bytes: 4096 });
    assert_ne!(id, CheckpointId::none(), "insert should mint a nonzero id");

    // Plan for a 200-token prompt: p=128 < 200 → SuffixRecompute.
    let plan = plan_resume(
        &mut pool,
        &dom,
        &toks(200),
        &lookup(128),
        DrafterDecision::Ar,
    )
    .expect("resume should succeed");

    assert_eq!(plan.boundary, 128);
    assert_eq!(plan.last_token, LastTokenHandling::SuffixRecompute);
    assert!(plan.bundle.attention_pages);
    assert!(plan.bundle.dn_matrices_scales);
    assert!(plan.bundle.conv_rings);
    assert!(plan.bundle.ef_residual);
    assert_eq!(plan.bundle.drafter, DrafterDecision::Ar);
}

// Exact-match prompt selects earlier boundary.

#[test]
fn a7_exact_match_selects_earlier_boundary() {
    let mut pool = QwenCheckpointPool::<HostBlob>::new(1 << 20);
    let dom = test_domain("a7-exact");

    // Capture at p=128 only.
    pool.insert(dom.clone(), 128, fp(128), HostBlob { bytes: 4096 });

    // Prompt of exactly 128 tokens: must NOT resume at p=128.
    // Should select p=0 (initial state) with EarlierBoundary.
    let plan = plan_resume(
        &mut pool,
        &dom,
        &toks(128),
        &lookup(128),
        DrafterDecision::Ar,
    )
    .expect("resume should succeed");

    assert_ne!(
        plan.boundary, 128,
        "must not restore S_prompt_len for an exact-match prompt"
    );
    assert_eq!(plan.boundary, 0);
    assert_eq!(plan.last_token, LastTokenHandling::EarlierBoundary);
}

// Exact match with two checkpoints selects previous page.

#[test]
fn a7_exact_match_with_prior_checkpoint() {
    let mut pool = QwenCheckpointPool::<HostBlob>::new(1 << 20);
    let dom = test_domain("a7-prior");

    // Capture at p=128 and p=256.
    pool.insert(dom.clone(), 128, fp(128), HostBlob { bytes: 4096 });
    pool.insert(dom.clone(), 256, fp(256), HostBlob { bytes: 4096 });

    // Prompt of exactly 256 tokens: should select p=128, not p=256.
    let plan = plan_resume(
        &mut pool,
        &dom,
        &toks(256),
        &lookup(256),
        DrafterDecision::Ar,
    )
    .expect("resume should succeed");

    assert_eq!(plan.boundary, 128);
    assert_eq!(plan.last_token, LastTokenHandling::EarlierBoundary);
}

// Empty prompt does not underflow.

#[test]
fn a7_empty_prompt_no_underflow() {
    let mut pool = QwenCheckpointPool::<HostBlob>::new(1 << 20);
    let dom = test_domain("a7-empty");

    // No checkpoints, empty prompt, resumable=0.
    let plan = plan_resume(
        &mut pool,
        &dom,
        &toks(0),
        &lookup(0),
        DrafterDecision::Ar,
    )
    .expect("empty prompt should not underflow");

    assert_eq!(plan.boundary, 0);
    assert_eq!(plan.last_token, LastTokenHandling::SuffixRecompute);
}

// Missing checkpoint → NoCheckpoint error.

#[test]
fn a8_missing_checkpoint_is_no_checkpoint() {
    let mut pool = QwenCheckpointPool::<HostBlob>::new(1 << 20);
    let dom = test_domain("a8-missing");

    // Lookup claims 128 resumable tokens, but no checkpoint in pool.
    let err = plan_resume(
        &mut pool,
        &dom,
        &toks(200),
        &lookup(128),
        DrafterDecision::Ar,
    )
    .expect_err("should be a miss");

    assert_eq!(err, MissReason::NoCheckpoint);
}

// Evicted checkpoint → Evicted error.

#[test]
fn a8_evicted_checkpoint_is_evicted() {
    let mut pool = QwenCheckpointPool::<HostBlob>::new(1 << 20);
    let dom = test_domain("a8-evicted");

    // Insert at p=128, then evict it.
    pool.insert(dom.clone(), 128, fp(128), HostBlob { bytes: 4096 });
    assert!(pool.evict(&dom, 128, fp(128)).is_some());

    // Lookup still claims 128 resumable, but checkpoint was evicted.
    let err = plan_resume(
        &mut pool,
        &dom,
        &toks(200),
        &lookup(128),
        DrafterDecision::Ar,
    )
    .expect_err("should be a miss");

    assert_eq!(err, MissReason::Evicted);
}

// Not a silent Hit.

#[test]
fn a8_missing_is_not_silent_hit() {
    let mut pool = QwenCheckpointPool::<HostBlob>::new(1 << 20);
    let dom = test_domain("a8-silent");

    // resumable > 0 but no checkpoint → must error, not return a plan.
    let result = plan_resume(
        &mut pool,
        &dom,
        &toks(200),
        &lookup(64),
        DrafterDecision::Ar,
    );

    assert!(result.is_err(), "must not be a silent Hit");
}

// Materialized boundary excludes uncomputed last token.

#[test]
fn a9_boundary_is_materialized_prefix() {
    let mut pool = QwenCheckpointPool::<HostBlob>::new(1 << 20);
    let dom = test_domain("a9");

    // Capture at p=128.
    pool.insert(dom.clone(), 128, fp(128), HostBlob { bytes: 4096 });

    // Plan for 200-token prompt.
    let plan = plan_resume(
        &mut pool,
        &dom,
        &toks(200),
        &lookup(128),
        DrafterDecision::Ar,
    )
    .unwrap();

    // The boundary is the materialized committed prefix (tokens [0,128)
    // processed by the target). It does NOT include the 129th token or
    // any sampled-but-not-yet-materialized token. The suffix [128,200)
    // will be processed to obtain first-token logits.
    assert_eq!(plan.boundary, 128);
    assert!(plan.boundary < 200, "boundary must be < prompt_len");
    // If a CommitBoundary were constructed from this plan,
    // committed_tokens = materialized_rows = plan.boundary = 128,
    // NOT 200 (the full prompt) or 129 (a sampled last token).
}

// Exact-match boundary is strictly less than prompt_len.

#[test]
fn a9_exact_match_boundary_strictly_less() {
    let mut pool = QwenCheckpointPool::<HostBlob>::new(1 << 20);
    let dom = test_domain("a9-exact");

    pool.insert(dom.clone(), 128, fp(128), HostBlob { bytes: 4096 });
    pool.insert(dom.clone(), 256, fp(256), HostBlob { bytes: 4096 });

    let plan = plan_resume(
        &mut pool,
        &dom,
        &toks(256), // exact match
        &lookup(256),
        DrafterDecision::Ar,
    )
    .unwrap();

    // For an exact-match prompt, the resume boundary must be strictly
    // less than prompt_len — the last sampled token is NOT included
    // in the materialized prefix.
    assert!(plan.boundary < 256);
    assert_eq!(plan.boundary, 128);
}

// LRU byte bound: inserting over capacity evicts oldest unpinned.

#[test]
fn lru_evicts_oldest_unpinned() {
    // Capacity: 2 entries of 4096 bytes each.
    let mut pool = QwenCheckpointPool::<HostBlob>::new(8192);
    let dom = test_domain("lru");

    let (id0, _) = pool.insert(dom.clone(), 0, fp(0), HostBlob { bytes: 4096 });
    let (id128, _) = pool.insert(dom.clone(), 128, fp(128), HostBlob { bytes: 4096 });
    assert_eq!(pool.len(), 2);
    assert_eq!(pool.total_bytes(), 8192);

    // Insert a third — should evict the oldest (p=0).
    let (id256, _) = pool.insert(dom.clone(), 256, fp(256), HostBlob { bytes: 4096 });
    assert_eq!(pool.len(), 2, "should still have 2 entries after eviction");
    assert!(!pool.contains(&dom, 0, fp(0)), "oldest (p=0) should be evicted");
    assert!(pool.contains(&dom, 128, fp(128)));
    assert!(pool.contains(&dom, 256, fp(256)));
    assert_ne!(id0, CheckpointId::none());
    assert_ne!(id128, CheckpointId::none());
    assert_ne!(id256, CheckpointId::none());
}

/// GPU-memory discipline: every blob displaced by an insert (LRU
/// eviction, same-key replacement, ceiling refusal) is RETURNED to the
/// caller — nothing is dropped inside the pool, because a dropped
/// `DeltaNetSnapshot` leaks its device buffers (no freeing `Drop`).
#[test]
fn displaced_blobs_are_returned_never_dropped() {
    let mut pool = QwenCheckpointPool::<HostBlob>::new(8192);
    let dom = test_domain("displaced");

    // LRU eviction returns the evicted blob.
    let _ = pool.insert(dom.clone(), 0, fp(0), HostBlob { bytes: 4096 });
    let _ = pool.insert(dom.clone(), 128, fp(128), HostBlob { bytes: 4096 });
    let (_, displaced) = pool.insert(dom.clone(), 256, fp(256), HostBlob { bytes: 4096 });
    assert_eq!(displaced.len(), 1, "evicted blob must be handed back");
    assert_eq!(displaced[0].bytes, 4096);
    assert!(!pool.contains(&dom, 0, fp(0)), "p=0 was the one evicted");

    // Same-key replacement returns the replaced blob.
    let (_, displaced) = pool.insert(dom.clone(), 256, fp(256), HostBlob { bytes: 2048 });
    assert_eq!(displaced.len(), 1, "replaced blob must be handed back");
    assert_eq!(displaced[0].bytes, 4096);
    assert_eq!(pool.total_bytes(), 4096 + 2048);

    // Ceiling refusal with everything pinned returns the refused blob.
    pool.pin(&dom, 128, fp(128));
    pool.pin(&dom, 256, fp(256));
    let (id, displaced) = pool.insert(dom.clone(), 384, fp(384), HostBlob { bytes: 8192 });
    assert_eq!(id, CheckpointId::none(), "refused capture reports NONE");
    assert_eq!(
        displaced.len(),
        1,
        "the refused capture's blob must be handed back for freeing"
    );
    assert_eq!(displaced[0].bytes, 8192);

    // Unaligned boundary: same contract.
    let (id, displaced) = pool.insert(dom.clone(), 100, fp(100), HostBlob { bytes: 4096 });
    assert_eq!(id, CheckpointId::none());
    assert_eq!(displaced.len(), 1);
}

// LRU byte bound: pinned checkpoints survive eviction.

#[test]
fn lru_pinned_survives_eviction() {
    let mut pool = QwenCheckpointPool::<HostBlob>::new(8192);
    let dom = test_domain("lru-pinned");

    pool.insert(dom.clone(), 0, fp(0), HostBlob { bytes: 4096 });
    pool.insert(dom.clone(), 128, fp(128), HostBlob { bytes: 4096 });

    // Pin the oldest (p=0).
    assert!(pool.pin(&dom, 0, fp(0)));
    assert!(pool.is_pinned(&dom, 0, fp(0)));

    // Insert a third — p=128 (unpinned, newer) should be evicted,
    // NOT p=0 (pinned, older).
    pool.insert(dom.clone(), 256, fp(256), HostBlob { bytes: 4096 });

    assert!(pool.contains(&dom, 0, fp(0)), "pinned p=0 must survive eviction");
    assert!(!pool.contains(&dom, 128, fp(128)), "unpinned p=128 should be evicted");
    assert!(pool.contains(&dom, 256, fp(256)));
}

// LRU: access refreshes recency.

#[test]
fn lru_access_refreshes_recency() {
    let mut pool = QwenCheckpointPool::<HostBlob>::new(8192);
    let dom = test_domain("lru-recency");

    pool.insert(dom.clone(), 0, fp(0), HostBlob { bytes: 4096 });
    pool.insert(dom.clone(), 128, fp(128), HostBlob { bytes: 4096 });

    // Access p=0 to make it more recent than p=128.
    let _ = pool.get(&dom, 0, fp(0));

    // Insert a third — p=128 (now oldest) should be evicted.
    pool.insert(dom.clone(), 256, fp(256), HostBlob { bytes: 4096 });

    assert!(pool.contains(&dom, 0, fp(0)), "recently accessed p=0 survives");
    assert!(!pool.contains(&dom, 128, fp(128)), "oldest p=128 evicted");
}

// Domain isolation: different domains don't share state.

#[test]
fn domain_isolation() {
    let mut pool = QwenCheckpointPool::<HostBlob>::new(1 << 20);
    let dom_a = test_domain("isolation-a");
    let dom_b = test_domain("isolation-b");

    pool.insert(dom_a.clone(), 128, fp(128), HostBlob { bytes: 4096 });

    // dom_b has no checkpoint at p=128.
    assert!(!pool.contains(&dom_b, 128, fp(128)));
    assert!(pool.contains(&dom_a, 128, fp(128)));

    // Planning with dom_b should miss.
    let err = plan_resume(
        &mut pool,
        &dom_b,
        &toks(200),
        &lookup(128),
        DrafterDecision::Ar,
    )
    .expect_err("different domain should miss");

    assert_eq!(err, MissReason::NoCheckpoint);

    // Planning with dom_a should succeed.
    let plan = plan_resume(
        &mut pool,
        &dom_a,
        &toks(200),
        &lookup(128),
        DrafterDecision::Ar,
    )
    .expect("same domain should hit");

    assert_eq!(plan.boundary, 128);
}

// Domain isolation: eviction in one domain doesn't affect another.

#[test]
fn domain_isolation_eviction() {
    let mut pool = QwenCheckpointPool::<HostBlob>::new(8192);
    let dom_a = test_domain("iso-evict-a");
    let dom_b = test_domain("iso-evict-b");

    pool.insert(dom_a.clone(), 128, fp(128), HostBlob { bytes: 4096 });
    pool.insert(dom_b.clone(), 128, fp(128), HostBlob { bytes: 4096 });

    // Inserting a third entry evicts the oldest unpinned (dom_a, 128).
    pool.insert(dom_a.clone(), 256, fp(256), HostBlob { bytes: 4096 });

    assert!(!pool.contains(&dom_a, 128, fp(128)), "dom_a p=128 evicted");
    assert!(pool.contains(&dom_b, 128, fp(128)), "dom_b p=128 must survive");
}

// Page alignment: non-aligned boundary is rejected.

#[test]
fn non_aligned_boundary_rejected() {
    let mut pool = QwenCheckpointPool::<HostBlob>::new(1 << 20);
    let dom = test_domain("align");

    let (id, _) = pool.insert(dom.clone(), 100, fp(100), HostBlob { bytes: 4096 });
    assert_eq!(id, CheckpointId::none(), "non-page-aligned boundary must be rejected");
    assert!(!pool.contains(&dom, 100, fp(100)));
    assert_eq!(pool.total_bytes(), 0);
}

// P=0 is a valid capture boundary.

#[test]
fn p0_is_valid_boundary() {
    let mut pool = QwenCheckpointPool::<HostBlob>::new(1 << 20);
    let dom = test_domain("p0");

    let (id, _) = pool.insert(dom.clone(), 0, fp(0), HostBlob { bytes: 0 });
    assert_ne!(id, CheckpointId::none());
    assert!(pool.contains(&dom, 0, fp(0)));
}

// CheckpointId is monotonic.

#[test]
fn checkpoint_ids_are_monotonic() {
    let mut pool = QwenCheckpointPool::<HostBlob>::new(1 << 20);
    let dom = test_domain("monotonic");

    let (id1, _) = pool.insert(dom.clone(), 0, fp(0), HostBlob { bytes: 100 });
    let (id2, _) = pool.insert(dom.clone(), 128, fp(128), HostBlob { bytes: 100 });
    let (id3, _) = pool.insert(dom.clone(), 256, fp(256), HostBlob { bytes: 100 });

    assert!(id1 < id2);
    assert!(id2 < id3);
    assert_eq!(id1, CheckpointId(1));
}

// Byte accounting is accurate.

#[test]
fn byte_accounting() {
    let mut pool = QwenCheckpointPool::<HostBlob>::new(1 << 20);
    let dom = test_domain("bytes");

    pool.insert(dom.clone(), 0, fp(0), HostBlob { bytes: 1000 });
    assert_eq!(pool.total_bytes(), 1000);

    pool.insert(dom.clone(), 128, fp(128), HostBlob { bytes: 2000 });
    assert_eq!(pool.total_bytes(), 3000);

    let _ = pool.evict(&dom, 0, fp(0));
    assert_eq!(pool.total_bytes(), 2000);
}

// The drafter decision is passed through, not inferred.

#[test]
fn drafter_decision_is_input() {
    let mut pool = QwenCheckpointPool::<HostBlob>::new(1 << 20);
    let dom = test_domain("drafter");

    pool.insert(dom.clone(), 128, fp(128), HostBlob { bytes: 4096 });

    // Default Ar.
    let plan_ar = plan_resume(
        &mut pool,
        &dom,
        &toks(200),
        &lookup(128),
        DrafterDecision::Ar,
    )
    .unwrap();
    assert_eq!(plan_ar.bundle.drafter, DrafterDecision::Ar);

    // Admission can choose Checkpoint.
    let plan_ckpt = plan_resume(
        &mut pool,
        &dom,
        &toks(200),
        &lookup(128),
        DrafterDecision::Checkpoint,
    )
    .unwrap();
    assert_eq!(plan_ckpt.bundle.drafter, DrafterDecision::Checkpoint);

    // Or Reseed.
    let plan_reseed = plan_resume(
        &mut pool,
        &dom,
        &toks(200),
        &lookup(128),
        DrafterDecision::Reseed,
    )
    .unwrap();
    assert_eq!(plan_reseed.bundle.drafter, DrafterDecision::Reseed);
}

// ResumePlan refuses incomplete bundle.

#[test]
fn resume_plan_refuses_incomplete_bundle() {
    let incomplete = ResumeBundle {
        attention_pages: false,
        dn_matrices_scales: true,
        conv_rings: true,
        ef_residual: true,
        drafter: DrafterDecision::Ar,
    };
    let err = ResumePlan::new(128, incomplete, 4096, LastTokenHandling::SuffixRecompute);
    assert!(err.is_err());
}

// Exact match with only p=0 checkpoint.

#[test]
fn exact_match_falls_back_to_p0() {
    let mut pool = QwenCheckpointPool::<HostBlob>::new(1 << 20);
    let dom = test_domain("fallback-p0");

    // Only a checkpoint at p=0.
    pool.insert(dom.clone(), 0, fp(0), HostBlob { bytes: 0 });

    // Prompt of exactly 128 tokens, lookup says 128 resumable.
    // But no checkpoint at 128 → NoCheckpoint (p=0 checkpoint doesn't
    // help for a 128-token prompt with resumable=128).
    let err = plan_resume(
        &mut pool,
        &dom,
        &toks(128),
        &lookup(128),
        DrafterDecision::Ar,
    )
    .expect_err("no checkpoint at 128");

    assert_eq!(err, MissReason::NoCheckpoint);
}

// Resumable between page boundaries rounds down.

#[test]
fn resumable_rounds_down_to_page_boundary() {
    let mut pool = QwenCheckpointPool::<HostBlob>::new(1 << 20);
    let dom = test_domain("round");

    // Checkpoint at p=128 only.
    pool.insert(dom.clone(), 128, fp(128), HostBlob { bytes: 4096 });

    // Lookup says 200 resumable (not page-aligned). Should find p=128.
    let plan = plan_resume(
        &mut pool,
        &dom,
        &toks(300),
        &lookup(200),
        DrafterDecision::Ar,
    )
    .unwrap();

    assert_eq!(plan.boundary, 128);
}

// Two prefixes at the same boundary must not clobber.
//
// With the fingerprint in the key two prefixes get distinct entries, and a
// lookup for prefix A can never resolve prefix B's blob.

/// A prompt that shares `toks(n)[..p]` for its first `p` tokens but
/// diverges after — the "other" prefix at the same boundary.
fn toks_variant(n: u64) -> Vec<u32> {
    (0..n as u32)
        .map(|i| i.wrapping_mul(2654435761).wrapping_add(1).wrapping_add(0x9e3779b9))
        .collect()
}

fn fp_variant(p: u64) -> u64 {
    prefix_fingerprint(&toks_variant(p.max(1))[..p as usize])
}

#[test]
fn r1_divergent_prefixes_same_boundary_get_distinct_entries() {
    let mut pool = QwenCheckpointPool::<HostBlob>::new(1 << 20);
    let dom = test_domain("r1");

    // Prefix A captures at p=128.
    let (id_a, _) = pool.insert(dom.clone(), 128, fp(128), HostBlob { bytes: 4096 });
    // Prefix B (diverges before 128) captures at the SAME boundary.
    let (id_b, _) = pool.insert(dom.clone(), 128, fp_variant(128), HostBlob { bytes: 8192 });

    // Distinct entries, distinct ids — B did NOT replace A.
    assert_ne!(id_a, id_b, "divergent prefixes must not share a checkpoint id");
    assert_eq!(pool.len(), 2, "both prefixes' checkpoints must coexist");
    // Each resolves to its own blob.
    assert_eq!(pool.peek(&dom, 128, fp(128)).map(|b| b.bytes_len()), Some(4096));
    assert_eq!(pool.peek(&dom, 128, fp_variant(128)).map(|b| b.bytes_len()), Some(8192));
}

#[test]
fn r1_resume_for_prefix_a_never_returns_prefix_b_state() {
    let mut pool = QwenCheckpointPool::<HostBlob>::new(1 << 20);
    let dom = test_domain("r1b");

    // A captures at 128; B (divergent) captures at 128 too.
    pool.insert(dom.clone(), 128, fp(128), HostBlob { bytes: 4096 });
    pool.insert(dom.clone(), 128, fp_variant(128), HostBlob { bytes: 8192 });

    // A 200-token prompt on prefix A resumes at 128 with A's state.
    let plan_a = plan_resume(&mut pool, &dom, &toks(200), &lookup(128), DrafterDecision::Ar)
        .expect("prefix A should resume");
    assert_eq!(plan_a.boundary, 128);
    assert_eq!(
        pool.peek(&dom, plan_a.boundary, fp(128)).map(|b| b.bytes_len()),
        Some(4096),
        "prefix A must resolve its own checkpoint, not B's"
    );

    // A prompt on prefix B resolves B's state, not A's.
    let plan_b = plan_resume(&mut pool, &dom, &toks_variant(200), &lookup(128), DrafterDecision::Ar)
        .expect("prefix B should resume");
    assert_eq!(
        pool.peek(&dom, plan_b.boundary, fp_variant(128)).map(|b| b.bytes_len()),
        Some(8192),
        "prefix B must resolve its own checkpoint, not A's"
    );
}

#[test]
fn r1_shared_prefix_reuses_same_checkpoint() {
    // Two prompts that genuinely share the first 128 tokens MUST share
    // the checkpoint — the fingerprint is over tokens[..p], so a shared
    // prefix yields the same key. This is the correct-sharing case.
    let mut pool = QwenCheckpointPool::<HostBlob>::new(1 << 20);
    let dom = test_domain("r1c");
    pool.insert(dom.clone(), 128, fp(128), HostBlob { bytes: 4096 });

    // A longer prompt on the SAME prefix (toks(300)[..128] == toks(128)).
    let plan = plan_resume(&mut pool, &dom, &toks(300), &lookup(128), DrafterDecision::Ar)
        .expect("shared prefix should resume");
    assert_eq!(plan.boundary, 128);
}

// Capture and restore.

#[test]
fn capture_is_decided_before_the_snapshot() {
    let mut pool = QwenCheckpointPool::<HostBlob>::new(1000);
    let dom = test_domain("capture");
    let tokens = toks(128);
    assert_eq!(
        capture_checkpoint(&pool, dom.clone(), 100, &tokens[..100], 10),
        CaptureStep::Misaligned
    );
    assert_eq!(
        capture_misaligned_text(),
        "capture_checkpoint: boundary not page-aligned"
    );
    assert_eq!(
        capture_checkpoint(&pool, dom.clone(), 128, &tokens, 1001),
        CaptureStep::Refused
    );
    assert_eq!(
        capture_checkpoint(&pool, dom.clone(), 128, &tokens, 1000),
        CaptureStep::Snapshot(fp(128))
    );
    // Pinned bytes cannot be evicted to make room.
    pool.insert(dom.clone(), 0, fp(0), HostBlob { bytes: 600 });
    pool.pin(&dom, 0, fp(0));
    assert!(!pool.can_afford(&(dom.clone(), 128, fp(128)), 401));
    assert!(pool.can_afford(&(dom.clone(), 128, fp(128)), 400));
    pool.unpin(&dom, 0, fp(0));
    assert!(pool.can_afford(&(dom, 128, fp(128)), 1000));
}

#[test]
fn a_captured_state_reads_back() {
    let mut pool = QwenCheckpointPool::<HostBlob>::new(1000);
    let dom = test_domain("readback");
    let (id, displaced) = pool.insert(dom.clone(), 128, fp(128), HostBlob { bytes: 77 });
    assert!(displaced.is_empty());
    assert_eq!(pool.id_of(&dom, 128, fp(128)), Some(id));
    assert_eq!(restore_private(&pool, &dom, 128, fp(128)).unwrap().bytes, 77);
    assert_eq!(
        restore_private(&pool, &dom, 0, fp(0)).unwrap_err(),
        "restore_private: checkpoint not found"
    );
    // A recapture keeps the id and hands the old state back.
    let (again, displaced) = pool.insert(dom.clone(), 128, fp(128), HostBlob { bytes: 78 });
    assert_eq!(again, id);
    assert_eq!(displaced.len(), 1);
    assert_eq!(displaced[0].bytes, 77);
    // Another domain does not see it.
    let other = test_domain("other");
    assert!(pool.id_of(&other, 128, fp(128)).is_none());
}

#[test]
fn drained_blobs_are_all_of_them() {
    let mut pool = QwenCheckpointPool::<HostBlob>::new(1000);
    let dom = test_domain("drain");
    pool.insert(dom.clone(), 0, fp(0), HostBlob { bytes: 1 });
    pool.insert(dom.clone(), 128, fp(128), HostBlob { bytes: 2 });
    pool.pin(&dom, 128, fp(128));
    let mut sizes: Vec<u64> = pool.drain_blobs().iter().map(|b| b.bytes).collect();
    sizes.sort();
    assert_eq!(sizes, vec![1, 2]);
    assert!(pool.is_empty());
    assert_eq!(pool.total_bytes(), 0);
}

#[test]
fn an_empty_prompt_resumes_at_the_initial_state() {
    let mut pool = QwenCheckpointPool::<HostBlob>::new(1 << 20);
    let dom = test_domain("empty");
    pool.insert(dom.clone(), 128, fp(128), HostBlob { bytes: 10 });
    pool.evict(&dom, 128, fp(128));
    let plan = plan_resume(&mut pool, &dom, &[], &lookup(256), DrafterDecision::Ar)
        .expect("an empty prompt always resumes");
    assert_eq!(plan.boundary, 0);
    assert_eq!(plan.byte_cost, 0);
}

#[test]
fn the_ceiling_holds_and_ids_are_not_reused() {
    let mut pool = QwenCheckpointPool::<HostBlob>::new(100);
    let dom = test_domain("seq");
    let mut last = 0;
    for i in 0..20u64 {
        let (id, _) = pool.insert(dom.clone(), 128 * i, i, HostBlob { bytes: 40 });
        assert!(id.0 > last, "a new key gets an id above all before it");
        last = id.0;
        assert!(pool.total_bytes() <= pool.max_bytes());
        pool.evict(&dom, 128 * i, i);
    }
    assert_eq!(last, 20);
    let (refused, back) = pool.insert(dom, 0, 0, HostBlob { bytes: 101 });
    assert_eq!((refused, back.len()), (CheckpointId::none(), 1));
    assert_eq!(pool.total_bytes(), 0);
}
