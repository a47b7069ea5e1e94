use hipfire_serve::admission::{
    admit_step, choose_swap_victim, counts_as_rejected, install_cold_text, install_cold_visual,
    install_continuation, queue_charge, refusal_text, session_after_accept, AcceptedTurn,
    AdmitAction, AdmitEvent, AdmitFacts, AdmitState, ContinuationKind, MatchedSession, OpenOutcome,
    PrefixHit, Refusal, SessionRecord, Speculation, VisualData,
};
use hipfire_serve::commands::{
    bump_allocation_epoch, cancel_session, check_reset, evict_outcome, evicted_well,
    request_in_flight, restored_well, EvictOutcome,
};
use hipfire_serve::commit::{
    commit_sampled_token, page_handles, plan_publication, prefill_publication, Commit, PageHandle,
    Publication, SampledToken,
};
use hipfire_serve::engine_state::InFlight;
use hipfire_serve::fairness::{
    apply_starved_backfill, eligibility_mask, eligible_ids_from_selection, granted_ids,
    oldest_active_session, slot_needs, Grant, Selection,
};
use hipfire_serve::grammar::{apply_mask, build_mask, GrammarMaskError, TokenFacts};
use hipfire_serve::mtp::{
    draft_step, note_mtp_cycle, return_seed, sequential_vl_ready, vision_tower_ready,
    vl_encoded, vl_forward_remaining, vl_sequential_step, DraftStep, VlSequentialStep, VlToken,
    MTP_RETIRE_WINDOW,
};
use hipfire_serve::policy::{
    clear_work_slot, commit_budget, count_active, fail_all_active, has_free_slot, is_idle,
    loop_gate, mtp_allowed, mtp_verify_fits_cap, penalty_window, request_penalized,
    retries_waiter, reused_tokens_from_plan, should_lookup_prefix, should_retain_terminal_tok,
    should_wait_instead_of_reject, shutdown_reason, DoneReason, JumpForward, LoopGate,
};
use hipfire_serve::scheduler::{PendingWork, VlPrefill};
use hipfire_serve::serve_contract::{
    ArchPolicy, CacheDomain, DeviceTopology, KvLayout, SharingNamespace, TemplateIdentity,
    TokenizerIdentity,
};
use hipfire_serve::slot_batch::{SlotBatch, SlotId};
use hipfire_serve::step::{
    check_ext_upload, count_rows, count_verify_rows, isolate_failed, needs_ext_upload, row_bases,
    sample_step, scheduler_budget, shrink_to_budget, verify_slots, write_interval, SampleStep,
    StepReservation,
};
use hipfire_serve::step_rows::{
    first_row, inject_mtp_verify_tokens, rebuild_batch_excluding_failed, MtpDraftOutput,
};

/// Only a spent budget keeps the terminal emitted token in the transcript.
fn apply_terminal(tokens: &mut Vec<u32>, tok: u32, reason: DoneReason) {
    if should_retain_terminal_tok(reason) {
        tokens.push(tok);
    }
}

#[test]
fn max_tokens_retains_final_emitted_tok_for_continuation() {
    let mut tokens = vec![10, 20];
    apply_terminal(&mut tokens, 99, DoneReason::MaxTokens);
    assert_eq!(tokens, vec![10, 20, 99]);
}

#[test]
fn eos_and_client_gone_do_not_retain_terminal_tok() {
    let mut tokens = vec![10, 20];
    apply_terminal(&mut tokens, 1, DoneReason::Eos);
    apply_terminal(&mut tokens, 2, DoneReason::ClientGone);
    assert_eq!(tokens, vec![10, 20]);
}

#[test]
fn mtp_verify_frontier_must_land_inside_the_cap() {
    // cap 100, k 3: verify writes rows at next_pos..next_pos+3, frontier
    // next_pos+4. next_pos 96 is the last position that fits (frontier 100).
    assert!(mtp_verify_fits_cap(96, 3, 100));
    assert!(!mtp_verify_fits_cap(97, 3, 100));
    // A full verify batch is exactly k+1 rows.
    assert!(mtp_verify_fits_cap(0, 3, 4));
    assert!(!mtp_verify_fits_cap(0, 3, 3));
    // k = 0 degenerates to plain decode: one row, frontier next_pos+1.
    assert!(mtp_verify_fits_cap(99, 0, 100));
    assert!(!mtp_verify_fits_cap(100, 0, 100));
    // next_pos at or past the cap never fits, whatever k is.
    assert!(!mtp_verify_fits_cap(100, 3, 100));
}

#[test]
fn grammar_mask_applied_before_sampler_forbids_highest_logit() {
    // A 4-token vocabulary: [forbidden, allowed, allowed, allowed]. The
    // forbidden token has the highest logit.
    let mut logits = vec![10.0f32, 1.0, 2.0, 3.0];
    let mask = [false, true, true, true];
    apply_mask(&mut logits, &mask, f32::NEG_INFINITY);
    let argmax = logits
        .iter()
        .enumerate()
        .max_by(|(_, a), (_, b)| a.partial_cmp(b).unwrap_or(std::cmp::Ordering::Equal))
        .map(|(i, _)| i)
        .unwrap();
    assert_eq!(argmax, 3, "masked argmax must skip the forbidden token");
    assert_eq!(logits, vec![f32::NEG_INFINITY, 1.0, 2.0, 3.0]);
}

#[test]
fn grammar_empty_allowed_set_is_typed_error() {
    let err = GrammarMaskError::EmptyAllowedSet;
    assert!(err.message().contains("empty allowed set"));
    assert!(err.message().contains("violating the schema"));
    assert!(GrammarMaskError::Unsatisfiable
        .message()
        .contains("unsatisfiable state"));
    let none = TokenFacts {
        terminator: false,
        empty: false,
        continues: false,
    };
    assert_eq!(build_mask(&[none, none], false), Err(err));
}

#[test]
fn grammar_constrained_requests_select_ar_not_mtp() {
    let grammar_constrained = true;
    let mtp_available = true;
    let penalized = false;
    let sampled = false;
    let mtp_active = mtp_allowed(mtp_available, 3, false, penalized, sampled, grammar_constrained);
    assert!(!mtp_active, "grammar-constrained requests must use AR");
    assert!(mtp_allowed(true, 3, false, false, false, false));
    assert!(!mtp_allowed(true, 0, false, false, false, false));
    assert!(!mtp_allowed(true, 3, true, false, false, false));
    assert!(!mtp_allowed(true, 3, false, true, false, false));
    assert!(!mtp_allowed(true, 3, false, false, true, false));
}

#[test]
fn should_lookup_prefix_off_never_lookups() {
    assert!(!should_lookup_prefix(false, false));
    assert!(!should_lookup_prefix(false, true));
}

#[test]
fn should_lookup_prefix_vision_skips_even_when_enabled() {
    assert!(!should_lookup_prefix(true, true));
}

#[test]
fn should_lookup_prefix_text_request_lookups_when_enabled() {
    assert!(should_lookup_prefix(true, false));
}

#[test]
fn reused_tokens_full_when_boundary_covers_entire_prompt() {
    assert_eq!(reused_tokens_from_plan(100, 100), 100);
}

#[test]
fn reused_tokens_zero_when_boundary_is_zero() {
    assert_eq!(reused_tokens_from_plan(0, 100), 0);
}

#[test]
fn reused_tokens_returns_boundary_on_partial_match() {
    assert_eq!(reused_tokens_from_plan(64, 128), 64);
    assert_eq!(reused_tokens_from_plan(1, 2), 1);
}

fn domain_at(epoch: u64) -> CacheDomain {
    CacheDomain {
        model_content_digest: vec![1, 2, 3],
        model_load_epoch: 0,
        sidecar_digests: Vec::new(),
        tokenizer: TokenizerIdentity {
            vocab_digest: vec![0; 32],
            config_digest: vec![0; 32],
        },
        template: TemplateIdentity {
            template_digest: vec![0; 32],
            normalization_tag: "default".to_owned(),
        },
        arch_policy: ArchPolicy {
            arch_tag: "qwen35-deltanet".to_owned(),
            state_abi_tag: "dn-q8".to_owned(),
            position_attention_tag: "mrope".to_owned(),
        },
        kv_layout: KvLayout {
            k_stride_bytes: vec![128],
            v_stride_bytes: vec![128],
            layout_tag: "q8".to_owned(),
        },
        device: DeviceTopology {
            device_id: "gpu0".to_owned(),
            topology_id: "single".to_owned(),
            allocation_epoch: epoch,
        },
        namespace: SharingNamespace {
            domain_id: "owner".to_owned(),
        },
    }
}

#[test]
fn reset_epoch_bump_makes_cache_domain_unequal() {
    let before = domain_at(0);
    let after = domain_at(1);
    assert_ne!(before, after, "epoch bump must invalidate domain equality");
    assert!(!before.same(&after));
    // Same epoch: equal.
    assert_eq!(domain_at(0), domain_at(0));
    assert!(domain_at(0).same(&domain_at(0)));
    let mut bumped = domain_at(0);
    bump_allocation_epoch(&mut bumped);
    assert_eq!(bumped, after);
}

#[test]
fn eligible_ids_from_selection_collects_granted_ids() {
    let sel = Selection {
        grants: vec![
            Grant::Decode { id: 7 },
            Grant::Prefill { id: 3, rows: 16 },
            Grant::Verify { id: 9, rows: 4 },
        ],
        starved_oldest: false,
    };
    let ids = eligible_ids_from_selection(&sel);
    assert_eq!(ids.len(), 3, "one entry per granted id");
    assert!(ids.contains(&7), "decode grant id 7");
    assert!(ids.contains(&3), "prefill grant id 3");
    assert!(ids.contains(&9), "verify grant id 9");
    // An empty selection yields no eligible ids.
    assert!(eligible_ids_from_selection(&Selection::default()).is_empty());
}

#[test]
fn starved_oldest_backfill_yields_only_oldest_id() {
    let sel = Selection {
        grants: vec![
            Grant::Prefill { id: 3, rows: 16 },
            Grant::Verify { id: 9, rows: 4 },
        ],
        starved_oldest: true,
    };
    let ids = apply_starved_backfill(&sel, 7);
    assert_eq!(ids.len(), 1, "backfill keeps only the oldest");
    assert!(ids.contains(&7), "the starved oldest is force-eligible");
    assert!(!ids.contains(&3) && !ids.contains(&9), "younger work dropped");
    // Without an oldest in flight the grants stand.
    assert_eq!(granted_ids(&sel, None).len(), 2);
    assert_eq!(granted_ids(&sel, Some(7)).len(), 1);
}

#[test]
fn should_wait_when_all_busy_and_wait_enabled() {
    assert!(should_wait_instead_of_reject(true, true));
}

#[test]
fn should_not_wait_when_not_all_busy() {
    assert!(!should_wait_instead_of_reject(false, true));
}

#[test]
fn should_not_wait_when_wait_disabled() {
    assert!(!should_wait_instead_of_reject(true, false));
}

fn jump(enabled: bool, constrained: bool, greedy: bool) -> JumpForward {
    JumpForward {
        enabled,
        constrained,
        greedy,
        prefilling: false,
        mtp_active: false,
        max_tokens: 100,
        produced: 0,
        max_batch_tokens: 4096,
    }
}

#[test]
fn jump_forward_skipped_when_flag_false() {
    let structured_jump_forward = false;
    let has_grammar = true;
    let greedy = true;
    let should_jump = jump(structured_jump_forward, has_grammar, greedy).max_run().is_some();
    assert!(!should_jump, "jump-forward must be skipped when flag is false");
}

#[test]
fn jump_forward_requires_grammar_constraint() {
    let structured_jump_forward = true;
    let has_grammar = false;
    let greedy = true;
    let should_jump = jump(structured_jump_forward, has_grammar, greedy).max_run().is_some();
    assert!(!should_jump, "jump-forward requires a grammar constraint");
}

#[test]
fn jump_forward_greedy_only() {
    let structured_jump_forward = true;
    let has_grammar = true;
    let greedy = false; // sampled
    let should_jump = jump(structured_jump_forward, has_grammar, greedy).max_run().is_some();
    assert!(!should_jump, "jump-forward must be skipped for sampled requests");
}

#[test]
fn jump_forward_run_is_bounded() {
    assert_eq!(jump(true, true, true).max_run(), Some(64));
    let mut j = jump(true, true, true);
    j.produced = 90;
    assert_eq!(j.max_run(), Some(10));
    j.max_batch_tokens = 4;
    assert_eq!(j.max_run(), Some(4));
    j.produced = 100;
    assert_eq!(j.max_run(), None);
    let mut k = jump(true, true, true);
    k.prefilling = true;
    assert_eq!(k.max_run(), None);
    k.prefilling = false;
    k.mtp_active = true;
    assert_eq!(k.max_run(), None);
}

// ---- Slots and work ----

fn work(slot: usize, prompt: Vec<u32>, next_pos: usize) -> PendingWork {
    PendingWork {
        slot: SlotId(slot),
        remaining_prompt: prompt,
        next_pos,
        decoding: false,
        vl_prefill: None,
        mtp_active: false,
        mtp_cycles: 0,
        mtp_committed: 0,
        mtp_retire_fails: 0,
        pos3_delta: 0,
    }
}

fn flight(session: u64) -> InFlight {
    InFlight {
        session,
        produced: 0,
        max_tokens: 3,
        repeat_window_req: 0,
        reused_tokens: 0,
        last_published_boundary: 0,
        constrained: false,
    }
}

#[test]
fn clearing_work_leaves_nothing_of_the_request() {
    let mut w = work(4, vec![1, 2], 9);
    w.decoding = true;
    w.mtp_active = true;
    w.mtp_cycles = 3;
    w.mtp_committed = 4;
    w.mtp_retire_fails = 1;
    w.pos3_delta = -5;
    clear_work_slot(&mut w);
    assert!(w.remaining_prompt.is_empty());
    assert_eq!((w.next_pos, w.decoding, w.mtp_active), (0, false, false));
    assert_eq!((w.mtp_cycles, w.mtp_committed, w.mtp_retire_fails), (0, 0, 0));
    assert_eq!(w.pos3_delta, 0);
    assert_eq!(w.slot, SlotId(4));
}

#[test]
fn idle_loop_blocks_only_with_nothing_queued() {
    let empty: Vec<Option<InFlight>> = vec![None, None];
    assert!(is_idle(&empty));
    assert_eq!(loop_gate(&empty, 0), LoopGate::Block);
    assert_eq!(loop_gate(&empty, 1), LoopGate::Poll);
    let busy = vec![None, Some(flight(1))];
    assert_eq!(loop_gate(&busy, 0), LoopGate::Poll);
    assert_eq!(count_active(&busy), 1);
    assert!(has_free_slot(&busy));
    assert!(!has_free_slot(&[Some(flight(1))]));
}

#[test]
fn failing_all_takes_every_active_request() {
    let mut slots = vec![Some(flight(5)), None, Some(flight(7))];
    let mut w = vec![work(0, vec![1], 1), work(1, vec![2], 2), work(2, vec![3], 3)];
    let failed = fail_all_active(&mut slots, &mut w);
    let got: Vec<(usize, u64)> = failed.iter().map(|f| (f.slot, f.session)).collect();
    assert_eq!(got, vec![(0, 5), (2, 7)]);
    assert!(is_idle(&slots));
    assert!(w[0].remaining_prompt.is_empty() && w[2].remaining_prompt.is_empty());
    assert_eq!(w[1].remaining_prompt, vec![2], "an idle slot is left alone");
    assert_eq!(shutdown_reason(None), "engine shutdown");
    assert_eq!(shutdown_reason(Some("boom")), "boom");
}

#[test]
fn oldest_session_is_by_tick_then_id() {
    let slots = vec![Some(flight(9)), Some(flight(4)), None, Some(flight(3))];
    assert_eq!(
        oldest_active_session(&slots, &[Some(5), Some(2), Some(0), Some(2)]),
        Some(3)
    );
    assert_eq!(oldest_active_session(&slots, &[Some(5), None, None, None]), Some(9));
    assert_eq!(oldest_active_session(&slots, &[None, None, None, None]), None);
}

#[test]
fn mask_holds_granted_slots_in_flight() {
    let slots = vec![Some(flight(9)), None, Some(flight(4))];
    let sel = Selection {
        grants: vec![Grant::Decode { id: 4 }],
        starved_oldest: false,
    };
    let ids = eligible_ids_from_selection(&sel);
    assert_eq!(eligibility_mask(&slots, &ids), vec![false, false, true]);
    let w = work(0, vec![1, 2, 3], 0);
    let n = slot_needs(&w, true, false, 3);
    assert_eq!((n.wants_decode, n.verify_rows, n.uncached), (false, 4, 3));
}

#[test]
fn penalty_window_is_the_tail() {
    assert_eq!(penalty_window(2, &[1, 2, 3]), vec![2, 3]);
    assert_eq!(penalty_window(9, &[1, 2, 3]), vec![1, 2, 3]);
    assert_eq!(penalty_window(0, &[1, 2, 3]), Vec::<u32>::new());
    assert!(request_penalized(1, false, true, false));
    assert!(!request_penalized(0, true, true, true));
    assert!(!request_penalized(8, false, false, false));
}

#[test]
fn commit_budget_is_bounded_and_positive() {
    assert_eq!(commit_budget(10, 4, 100, 0), 6);
    assert_eq!(commit_budget(10, 4, 100, 98), 2);
    assert_eq!(commit_budget(10, 10, 100, 0), 1);
    assert_eq!(commit_budget(10, 12, 100, 200), 1);
}

// ---- Committing ----

fn sampled(id: u32) -> SampledToken {
    SampledToken {
        id,
        terminator: false,
        delivered: true,
        grammar_incomplete: false,
    }
}

#[test]
fn committing_goes_on_until_the_budget() {
    let mut slot = Some(flight(8));
    let mut w = work(0, vec![], 5);
    assert_eq!(
        commit_sampled_token(&mut slot, &mut w, sampled(11), Some(5), 100, true),
        Some(Commit::Continue)
    );
    assert_eq!(w.remaining_prompt, vec![11]);
    assert_eq!(slot.unwrap().produced, 1);
    commit_sampled_token(&mut slot, &mut w, sampled(12), Some(6), 100, true);
    let Some(Commit::Finished(end)) =
        commit_sampled_token(&mut slot, &mut w, sampled(13), Some(7), 100, true)
    else {
        panic!("the third token ends the request");
    };
    assert_eq!(end.reason, DoneReason::MaxTokens);
    assert_eq!(end.generated, 3);
    assert!(end.retain && end.publish && !end.close_session && !end.reject_incomplete);
    assert!(slot.is_none() && w.remaining_prompt.is_empty());
    assert_eq!(
        commit_sampled_token(&mut slot, &mut w, sampled(1), None, 100, true),
        None
    );
}

#[test]
fn terminators_and_lost_clients_are_not_counted() {
    let mut slot = Some(flight(8));
    let mut w = work(0, vec![], 5);
    let mut eos = sampled(2);
    eos.terminator = true;
    eos.delivered = false;
    eos.grammar_incomplete = true;
    let Some(Commit::Finished(end)) =
        commit_sampled_token(&mut slot, &mut w, eos, Some(5), 100, false)
    else {
        panic!("a terminator ends the request");
    };
    assert_eq!((end.reason, end.generated), (DoneReason::Eos, 0));
    assert!(end.reject_incomplete && !end.publish && !end.retain);

    let mut slot = Some(flight(8));
    let mut gone = sampled(3);
    gone.delivered = false;
    gone.grammar_incomplete = true;
    let Some(Commit::Finished(end)) =
        commit_sampled_token(&mut slot, &mut w, gone, Some(5), 100, true)
    else {
        panic!("a lost client ends the request");
    };
    assert_eq!((end.reason, end.generated), (DoneReason::ClientGone, 0));
    assert!(end.close_session && !end.reject_incomplete && !end.publish);
}

#[test]
fn a_full_context_ends_the_request() {
    let mut slot = Some(flight(8));
    let mut w = work(0, vec![], 5);
    let r = commit_sampled_token(&mut slot, &mut w, sampled(3), Some(99), 100, false);
    assert!(matches!(r, Some(Commit::Finished(f)) if f.reason == DoneReason::MaxTokens));
}

#[test]
fn publication_covers_new_full_pages() {
    assert_eq!(plan_publication(127, 0, 9), None);
    assert_eq!(
        plan_publication(300, 128, 9),
        Some(Publication {
            first_page: 1,
            n_pages: 2,
            boundary: 256
        })
    );
    assert_eq!(plan_publication(300, 256, 9), None, "published once");
    assert_eq!(plan_publication(300, 0, 1), None, "pages must be mapped");
    let mut w = work(0, vec![], 300);
    assert!(prefill_publication(true, 4, &w, 0, 9, 300).is_some());
    assert!(prefill_publication(false, 4, &w, 0, 9, 300).is_none());
    assert!(prefill_publication(true, 0, &w, 0, 9, 300).is_none());
    assert!(prefill_publication(true, 4, &w, 0, 9, 255).is_none());
    w.decoding = true;
    assert!(prefill_publication(true, 4, &w, 0, 9, 300).is_none());
    assert_eq!(
        page_handles(&[7, 3], &[1, 2], 2),
        vec![
            PageHandle {
                phys: 7,
                epoch: 0,
                generation: 1,
                token_offset: 0
            },
            PageHandle {
                phys: 3,
                epoch: 0,
                generation: 2,
                token_offset: 128
            },
        ]
    );
}

// ---- Speculation ----

#[test]
fn a_draft_takes_the_seed_and_the_cap_retires() {
    let mut w = work(0, vec![4, 5], 10);
    w.decoding = true;
    w.mtp_active = true;
    assert_eq!(draft_step(&mut w, true, false, 3, 100), DraftStep::Skip);
    assert_eq!(
        draft_step(&mut w, true, true, 3, 100),
        DraftStep::Draft { seed: 5, pos: 10 }
    );
    assert!(w.remaining_prompt.is_empty());
    return_seed(&mut w, 5);
    assert_eq!(w.remaining_prompt, vec![5]);
    w.remaining_prompt = vec![4, 5];
    assert_eq!(draft_step(&mut w, true, true, 3, 13), DraftStep::Retired);
    assert_eq!(w.remaining_prompt, vec![5]);
    assert!(!w.mtp_active);
}

#[test]
fn two_bad_windows_in_a_row_retire() {
    let mut w = work(0, vec![1, 2], 0);
    w.mtp_active = true;
    let mut retired = false;
    for i in 0..2 * MTP_RETIRE_WINDOW {
        retired = note_mtp_cycle(&mut w, 2);
        if i < 2 * MTP_RETIRE_WINDOW - 1 {
            assert!(!retired, "not before the second window is full");
        }
    }
    assert!(retired);
    assert!(!w.mtp_active);
    assert_eq!(w.remaining_prompt, vec![2]);

    // 70 tokens over 32 cycles is below 2.2 each, 71 is not.
    let mut w = work(0, vec![1], 0);
    w.mtp_active = true;
    w.mtp_cycles = 31;
    w.mtp_committed = 69;
    assert!(!note_mtp_cycle(&mut w, 1));
    assert_eq!(w.mtp_retire_fails, 1);
    w.mtp_cycles = 31;
    w.mtp_committed = 70;
    assert!(!note_mtp_cycle(&mut w, 1));
    assert_eq!(w.mtp_retire_fails, 0);
}

fn vl(n_visual: usize, dim: usize, held: usize) -> VlPrefill {
    VlPrefill {
        patches: vec![],
        grid_h: 1,
        grid_w: 1,
        n_visual_tokens: n_visual,
        embeddings: vec![0; held],
        dim,
        visual_idx: 0,
        image_pad_id: 42,
        mrope_positions: vec![],
        rope_delta: 0,
        base: 0,
    }
}

#[test]
fn sequential_image_step_routes_pads_to_embeddings() {
    let mut w = work(0, vec![7, 42, 42, 42], 5);
    w.vl_prefill = Some(vl(2, 4, 8));
    assert!(sequential_vl_ready(&w, true, true));
    assert!(!sequential_vl_ready(&w, true, false));
    assert!(!vision_tower_ready(&w, true, false), "embeddings are there");
    let plan = vl_forward_remaining(&mut w, 42).unwrap();
    assert_eq!(
        plan,
        vec![
            VlToken::Token { id: 7, pos: 5 },
            VlToken::Embed { start: 0, pos: 6 },
            VlToken::Embed { start: 4, pos: 7 },
            VlToken::Token { id: 42, pos: 8 },
        ]
    );
    assert_eq!(w.next_pos, 9);
    assert_eq!(w.vl_prefill.as_ref().unwrap().visual_idx, 2);

    let mut short = work(0, vec![42, 42], 0);
    short.vl_prefill = Some(vl(2, 4, 4));
    assert_eq!(
        vl_forward_remaining(&mut short, 42),
        Err("VL embedding slice out of range")
    );
    assert_eq!(short.remaining_prompt, vec![42, 42]);
    let mut text = work(0, vec![1], 0);
    assert!(vl_forward_remaining(&mut text, 42).is_err());
    let mut waiting = work(0, vec![42], 0);
    waiting.vl_prefill = Some(vl(1, 4, 0));
    assert!(vision_tower_ready(&waiting, true, false));
}

#[test]
fn sequential_images_are_encoded_before_they_are_fed() {
    let mut w = work(3, vec![1], 9);
    let vd = VisualData {
        patches: vec![11, 12, 13],
        grid_h: 2,
        grid_w: 4,
        n_visual_tokens: 2,
        mrope_positions: vec![[0, 0, 0], [1, 1, 1], [2, 2, 2], [3, 3, 3]],
        rope_delta: -2,
    };
    install_cold_visual(&mut w, vec![7, 42, 42, 8], vd, 4, Some(42));
    assert!(sequential_vl_ready(&w, true, true));

    assert_eq!(
        vl_sequential_step(&mut w, 42, false, false),
        Err("VL request but model has no vision encoder")
    );
    assert_eq!(
        vl_sequential_step(&mut w, 42, true, false),
        Err("VL request but model has no vision config")
    );
    assert_eq!(vl_sequential_step(&mut w, 42, true, true), Ok(VlSequentialStep::Encode));
    assert_eq!(w.remaining_prompt, vec![7, 42, 42, 8]);

    assert_eq!(
        vl_encoded(&mut w, Err("out of memory".to_string()), 3),
        Err("vision_forward: out of memory".to_string())
    );
    let kept = w.vl_prefill.as_ref().unwrap();
    assert_eq!((kept.patches.len(), kept.dim, kept.embeddings.len()), (3, 4, 0));

    assert_eq!(vl_encoded(&mut w, Ok(vec![1, 2, 3, 4, 5, 6]), 3), Ok(()));
    let held = w.vl_prefill.as_ref().unwrap();
    assert_eq!(held.embeddings, vec![1, 2, 3, 4, 5, 6]);
    assert_eq!((held.patches.len(), held.dim, held.grid_w), (0, 3, 4));

    assert_eq!(
        vl_sequential_step(&mut w, 42, true, true),
        Ok(VlSequentialStep::Feed(vec![
            VlToken::Token { id: 7, pos: 0 },
            VlToken::Embed { start: 0, pos: 1 },
            VlToken::Embed { start: 3, pos: 2 },
            VlToken::Token { id: 8, pos: 3 },
        ]))
    );
    assert!(w.remaining_prompt.is_empty());
    assert_eq!(w.next_pos, 4);

    let mut short = work(0, vec![42, 42], 0);
    short.vl_prefill = Some(vl(2, 4, 0));
    assert_eq!(vl_encoded(&mut short, Ok(vec![0; 7]), 4), Ok(()));
    assert_eq!(
        vl_sequential_step(&mut short, 42, true, true),
        Err("VL embedding slice out of range")
    );
    let mut text = work(0, vec![1], 0);
    assert_eq!(
        vl_sequential_step(&mut text, 42, true, true),
        Err("vl_forward_remaining: slot has no VL state")
    );
    assert_eq!(
        vl_encoded(&mut text, Ok(vec![1]), 1),
        Err("vl_forward_remaining: slot has no VL state".to_string())
    );
}

// ---- Steps ----

fn two_slot_batch() -> SlotBatch {
    SlotBatch::build(&[
        (SlotId(0), &[10u32, 11][..], 100),
        (SlotId(1), &[][..], 0),
        (SlotId(2), &[30u32][..], 7),
    ])
}

fn draft(tokens: Vec<u32>, cur_pos: usize) -> Option<MtpDraftOutput> {
    Some(MtpDraftOutput {
        verify_tokens: tokens,
        cur_pos,
    })
}

#[test]
fn verify_rows_join_the_step_in_slot_order() {
    let b = two_slot_batch();
    let r = inject_mtp_verify_tokens(&b, &[None, draft(vec![5, 6], 50), None], 3, &[0, 3, 0], false);
    assert_eq!(r.m_per_slot, vec![2, 2, 1]);
    assert_eq!(r.tokens, vec![10, 11, 5, 6, 30]);
    assert_eq!(r.positions, vec![100, 101, 50, 51, 7]);
    assert_eq!(r.row_slot, vec![0, 0, 1, 1, 2]);
    assert!(r.pos3.is_empty());
    assert_eq!(first_row(&r, 2), 4);
}

#[test]
fn verify_only_steps_keep_the_shifted_phases() {
    let b = SlotBatch::build(&[(SlotId(0), &[][..], 0)]);
    let r = inject_mtp_verify_tokens(&b, &[draft(vec![5, 6], 50)], 1, &[-10], true);
    assert_eq!(r.pos3, vec![[40, 40, 40], [41, 41, 41]]);
    assert_eq!(r.ext_emb, vec![-1, -1]);
}

#[test]
fn failed_slots_leave_the_others_aligned() {
    let mut b = two_slot_batch();
    rebuild_batch_excluding_failed(&mut b, &[0]);
    assert_eq!(b.m_per_slot, vec![0, 0, 1]);
    assert_eq!(b.tokens, vec![30]);
    assert_eq!(b.positions, vec![7]);
    assert_eq!(b.row_slot, vec![2]);

    let mut b = two_slot_batch();
    let mut drafts = vec![draft(vec![1], 0), None, draft(vec![2], 0)];
    isolate_failed(&mut b, &mut drafts, &[2]);
    assert_eq!(b.tokens, vec![10, 11]);
    assert_eq!(verify_slots(&drafts), vec![true, false, false]);
}

#[test]
fn steps_shrink_by_dropping_drafts_in_slot_order() {
    let mut drafts = vec![draft(vec![9, 1], 0), None, draft(vec![8, 2], 0)];
    assert_eq!(count_verify_rows(&drafts, 3), 8);
    assert_eq!(scheduler_budget(10, 8), 2);
    assert_eq!(scheduler_budget(4, 8), 0);
    let mut res = StepReservation {
        prefill_rows: 2,
        decode_rows: 1,
        verify_rows: 8,
        forced_rows: 0,
    };
    assert_eq!(res.fits(11), Ok(true));
    assert_eq!(res.fits(10), Ok(false));
    let dropped = shrink_to_budget(&mut res, &mut drafts, 3, 8);
    assert_eq!(dropped.len(), 1);
    assert_eq!((dropped[0].slot, dropped[0].seed), (0, 9));
    assert_eq!(res.verify_rows, 4);
    assert!(drafts[0].is_none() && drafts[2].is_some());
    let dropped = shrink_to_budget(&mut res, &mut drafts, 3, 1);
    assert_eq!(dropped.len(), 1);
    assert_eq!((res.prefill_rows, res.decode_rows, res.verify_rows), (0, 1, 0));
    let big = StepReservation {
        prefill_rows: u64::MAX,
        decode_rows: 1,
        verify_rows: 0,
        forced_rows: 0,
    };
    assert!(big.fits(u64::MAX).is_err());
}

#[test]
fn rows_are_counted_by_phase() {
    let b = two_slot_batch();
    let mut w = vec![work(0, vec![], 102), work(1, vec![], 0), work(2, vec![], 8)];
    w[2].decoding = true;
    assert_eq!(count_rows(&w, &b), (2, 1));
    w[2].mtp_active = true;
    assert_eq!(count_rows(&w, &b), (2, 0));
}

#[test]
fn write_intervals_cover_a_slots_rows() {
    let b = two_slot_batch();
    assert_eq!(write_interval(&b, 0), Some((100, 102)));
    assert_eq!(write_interval(&b, 1), None);
    assert_eq!(write_interval(&b, 2), Some((7, 8)));
}

#[test]
fn external_rows_read_their_slots_matrix() {
    let mut b = two_slot_batch();
    assert!(!needs_ext_upload(&b));
    b.ext_emb = vec![-1, 0, -1];
    assert!(needs_ext_upload(&b));
    assert_eq!(row_bases(&b, &[Some(64), None, None]), vec![64, 64, 0]);
    assert!(check_ext_upload(8, 8, 1, 1).is_ok());
    assert_eq!(
        check_ext_upload(24, 16, 3, 2),
        Err("vl ext ptr upload of 24 bytes exceeds staging capacity 16 (batch of 3 rows vs max_batch 2)".to_string())
    );
}

#[test]
fn sampling_skips_slots_that_still_prefill() {
    let mut w = work(0, vec![], 4);
    assert_eq!(sample_step(&w, true, false, 1, 0), SampleStep::Commit);
    assert_eq!(sample_step(&w, true, false, 1, 2), SampleStep::Forced);
    assert_eq!(sample_step(&w, false, false, 1, 0), SampleStep::Skip);
    assert_eq!(sample_step(&w, true, true, 4, 0), SampleStep::VerifyAccept);
    w.mtp_active = true;
    assert_eq!(
        sample_step(&w, true, false, 2, 0),
        SampleStep::HeadPrefill { seed: true }
    );
    w.remaining_prompt = vec![1];
    assert_eq!(
        sample_step(&w, true, false, 2, 0),
        SampleStep::HeadPrefill { seed: false }
    );
    w.mtp_active = false;
    assert_eq!(sample_step(&w, true, false, 2, 0), SampleStep::Skip);
}

#[test]
fn masks_allow_terminators_only_when_accepting() {
    let t = |terminator, empty, continues| TokenFacts {
        terminator,
        empty,
        continues,
    };
    let vocab = [t(true, false, false), t(false, true, true), t(false, false, true)];
    assert_eq!(build_mask(&vocab, false), Ok(vec![false, false, true]));
    assert_eq!(build_mask(&vocab, true), Ok(vec![true, false, true]));
    assert_eq!(build_mask(&vocab[..2], false), Err(GrammarMaskError::EmptyAllowedSet));
}

// ---- Admission ----

fn facts() -> AdmitFacts {
    AdmitFacts {
        has_visual: false,
        vision_loaded: false,
        paged: true,
        vl_sequential: false,
        image_pad_known: true,
        n_visual_tokens: 0,
        phase_rows: 0,
        prompt_len: 300,
        continuation: ContinuationKind::Cold,
        suffix_len: 0,
        max_tokens: 50,
        cap_tokens: 1000,
        prefix_cache: true,
        wait_enabled: true,
        has_schema: false,
        queue_bytes: 0,
    }
}

#[test]
fn cold_admission_shares_a_cached_prefix() {
    let f = facts();
    let (s, a) = admit_step(&f, AdmitState::Start, AdmitEvent::Submitted);
    assert_eq!(a, AdmitAction::Open);
    let (s, a) = admit_step(&f, s, AdmitEvent::Opened(OpenOutcome::PoolFull));
    assert_eq!(a, AdmitAction::PickVictim);
    let (s, a) = admit_step(&f, s, AdmitEvent::Victim(Some(3)));
    assert_eq!(a, AdmitAction::ParkVictim(3));
    let (s, a) = admit_step(&f, s, AdmitEvent::Evicted(true));
    assert_eq!(a, AdmitAction::Open);
    let (s, _) = admit_step(&f, s, AdmitEvent::Opened(OpenOutcome::Opened(9)));
    let (s, a) = admit_step(&f, s, AdmitEvent::Located(Some(2)));
    assert_eq!(a, AdmitAction::ResetState { slot: 2 });
    let (s, a) = admit_step(&f, s, AdmitEvent::StateReset(true));
    assert_eq!(a, AdmitAction::LookUp);
    let hit = PrefixHit {
        boundary: 256,
        pages_found: 2,
    };
    let (s, a) = admit_step(&f, s, AdmitEvent::LookedUp(Some(hit)));
    assert_eq!(a, AdmitAction::Share { slot: 2, pages: 2 });
    let (s, a) = admit_step(&f, s, AdmitEvent::Shared(true));
    assert_eq!(
        a,
        AdmitAction::Tell {
            session: 9,
            reused: 256,
            prefill: 44
        }
    );
    let (s, a) = admit_step(&f, s, AdmitEvent::Told(true));
    assert_eq!(
        a,
        AdmitAction::InstallCold {
            session: 9,
            slot: 2,
            reused: 256,
            prefix_hit: true
        }
    );
    assert_eq!(admit_step(&f, s, AdmitEvent::Told(true)).1, AdmitAction::Stop);
}

#[test]
fn a_missing_page_falls_back_to_a_cold_turn() {
    let f = facts();
    let s = AdmitState::LookingUp { session: 9, slot: 2 };
    let hit = PrefixHit {
        boundary: 256,
        pages_found: 1,
    };
    let (s, a) = admit_step(&f, s, AdmitEvent::LookedUp(Some(hit)));
    assert_eq!(a, AdmitAction::UnpinThenBegin { session: 9 });
    let (_, a) = admit_step(&f, s, AdmitEvent::TurnBegun(None));
    assert_eq!(
        a,
        AdmitAction::RejectAndClose {
            why: Refusal::TurnFailed,
            session: 9
        }
    );
}

#[test]
fn over_budget_closes_and_an_empty_house_queues() {
    let f = facts();
    let (s, _) = admit_step(
        &f,
        AdmitState::Opening,
        AdmitEvent::Opened(OpenOutcome::OverBudget),
    );
    assert_eq!(
        admit_step(&f, s, AdmitEvent::Victim(Some(3))).1,
        AdmitAction::CloseVictim(3)
    );
    let (s, a) = admit_step(&f, s, AdmitEvent::Victim(None));
    assert_eq!(a, AdmitAction::Enqueue { bytes: 1 });
    assert_eq!(admit_step(&f, s, AdmitEvent::Enqueued(true)).1, AdmitAction::Stop);
    assert_eq!(
        admit_step(&f, s, AdmitEvent::Enqueued(false)).1,
        AdmitAction::Reject(Refusal::QueueFull)
    );
    let mut g = facts();
    g.wait_enabled = false;
    let s = AdmitState::ChoosingVictim { over_budget: false };
    assert_eq!(
        admit_step(&g, s, AdmitEvent::Victim(None)).1,
        AdmitAction::Reject(Refusal::NotOpened)
    );
    assert_eq!(
        admit_step(&g, AdmitState::Evicting, AdmitEvent::Evicted(false)).1,
        AdmitAction::Reject(Refusal::EvictionFailed)
    );
}

#[test]
fn continuations_must_fit_the_context() {
    let mut f = facts();
    f.continuation = ContinuationKind::UserTurn;
    f.suffix_len = 10;
    let (s, a) = admit_step(&f, AdmitState::Start, AdmitEvent::Submitted);
    assert_eq!(a, AdmitAction::Match(ContinuationKind::UserTurn));
    let at = |held, slot| {
        AdmitEvent::Matched(Some(MatchedSession {
            session: 4,
            held,
            slot,
        }))
    };
    assert_eq!(
        admit_step(&f, s, at(990, Some(1))).1,
        AdmitAction::RejectAndClose {
            why: Refusal::ContextFull {
                held: 1000,
                cap: 1000
            },
            session: 4
        }
    );
    assert_eq!(
        admit_step(&f, s, at(941, Some(1))).1,
        AdmitAction::Reject(Refusal::ContextBudget {
            held: 951,
            asked: 50,
            cap: 1000
        })
    );
    let (s2, a) = admit_step(&f, s, at(940, None));
    assert_eq!(a, AdmitAction::Acquire { session: 4 });
    let (s2, a) = admit_step(&f, s2, AdmitEvent::Acquired(Some(1)));
    assert_eq!(a, AdmitAction::Restore { session: 4, slot: 1 });
    assert_eq!(
        admit_step(&f, s2, AdmitEvent::Restored(false)).1,
        AdmitAction::ReleaseThenOpen { slot: 1 }
    );
    let (s2, a) = admit_step(&f, s2, AdmitEvent::Restored(true));
    assert_eq!(a, AdmitAction::BeginTurn { session: 4 });
    let (s2, a) = admit_step(&f, s2, AdmitEvent::TurnBegun(Some(940)));
    assert_eq!(
        a,
        AdmitAction::Tell {
            session: 4,
            reused: 940,
            prefill: 10
        }
    );
    assert_eq!(
        admit_step(&f, s2, AdmitEvent::Told(false)).1,
        AdmitAction::DropSession { session: 4 }
    );
    assert_eq!(
        admit_step(&f, s2, AdmitEvent::Told(true)).1,
        AdmitAction::InstallContinued {
            session: 4,
            slot: 1,
            reused: 940,
            head_kept: false
        }
    );
}

#[test]
fn image_requests_are_checked_in_order() {
    let mut f = facts();
    f.has_visual = true;
    let first = |f: &AdmitFacts| admit_step(f, AdmitState::Start, AdmitEvent::Submitted).1;
    assert_eq!(first(&f), AdmitAction::Reject(Refusal::NoVisionEncoder));
    f.vision_loaded = true;
    f.vl_sequential = true;
    assert_eq!(first(&f), AdmitAction::Reject(Refusal::NeedsContiguousSlots));
    f.vl_sequential = false;
    f.image_pad_known = false;
    assert_eq!(first(&f), AdmitAction::Reject(Refusal::NoImagePad));
    f.image_pad_known = true;
    assert_eq!(first(&f), AdmitAction::Reject(Refusal::NoVisualTokens));
    f.n_visual_tokens = 4;
    assert_eq!(
        first(&f),
        AdmitAction::Reject(Refusal::PhaseRows {
            rows: 0,
            prompt: 300
        })
    );
    f.phase_rows = 300;
    assert_eq!(first(&f), AdmitAction::Open);
    f.prompt_len = 1000;
    f.phase_rows = 1000;
    assert_eq!(
        first(&f),
        AdmitAction::Reject(Refusal::PromptTooLong {
            prompt: 1000,
            cap: 1000
        })
    );
}

#[test]
fn failures_after_opening_close_the_session() {
    let mut f = facts();
    f.has_schema = true;
    let s = AdmitState::Resetting { session: 9, slot: 2 };
    assert_eq!(
        admit_step(&f, s, AdmitEvent::StateReset(false)).1,
        AdmitAction::RejectAndClose {
            why: Refusal::ResetFailed,
            session: 9
        }
    );
    let s = AdmitState::TellingCold {
        session: 9,
        slot: 2,
        reused: 0,
        prefix_hit: false,
    };
    let (s, a) = admit_step(&f, s, AdmitEvent::Told(true));
    assert_eq!(a, AdmitAction::Compile);
    assert_eq!(
        admit_step(&f, s, AdmitEvent::SchemaCompiled(false)).1,
        AdmitAction::RejectAndClose {
            why: Refusal::SchemaFailed,
            session: 9
        }
    );
    assert_eq!(
        admit_step(&f, AdmitState::Locating { session: 9 }, AdmitEvent::Located(None)).1,
        AdmitAction::Reject(Refusal::NoSlot)
    );
}

#[test]
fn refusals_say_why() {
    assert_eq!(
        refusal_text(Refusal::PhaseRows { rows: 3, prompt: 4 }, ""),
        "VL mrope_positions length 3 != prompt_tokens 4"
    );
    assert_eq!(
        refusal_text(Refusal::PromptTooLong { prompt: 10, cap: 9 }, ""),
        "prompt of 10 tokens exceeds the slot context cap of 9 tokens"
    );
    assert_eq!(
        refusal_text(Refusal::ContextFull { held: 10, cap: 10 }, ""),
        "context window full: the conversation holds 10 of 10 tokens and cannot extend — start a new conversation"
    );
    assert_eq!(
        refusal_text(
            Refusal::ContextBudget {
                held: 8,
                asked: 5,
                cap: 10
            },
            ""
        ),
        "context window budget: the conversation would hold 8 tokens and the request asks for 5 more, beyond the 10 token context — reduce max_tokens or start a new conversation"
    );
    assert_eq!(refusal_text(Refusal::QueueFull, "4 waiting"), "serve queue full: 4 waiting");
    assert_eq!(refusal_text(Refusal::ResetFailed, "x"), "state reset failed: x");
    assert_eq!(
        refusal_text(Refusal::SchemaFailed, "x"),
        "json_schema compile failed on admit: x"
    );
    assert_eq!(refusal_text(Refusal::TurnFailed, "x"), "x");
    assert_eq!(refusal_text(Refusal::NoSlot, "x"), "admitted session holds no slot");
    assert_eq!(refusal_text(Refusal::EvictionFailed, ""), "eviction failed");
}

fn speculation() -> Speculation {
    Speculation {
        head_loaded: true,
        mtp_k: 3,
        penalized: false,
        sampled: false,
        constrained: false,
    }
}

#[test]
fn turns_start_with_what_is_not_reused() {
    let mut w = work(1, vec![9], 3);
    let reset = install_continuation(&mut w, &vec![1, 2, 3, 4], 2, -7, speculation(), true, true);
    assert!(!reset);
    assert_eq!(w.remaining_prompt, vec![3, 4]);
    assert_eq!((w.next_pos, w.pos3_delta, w.mtp_active), (2, -7, true));
    assert!(install_continuation(&mut w, &vec![1, 2], 1, 0, speculation(), false, true));

    let mut constrained = speculation();
    constrained.constrained = true;
    install_cold_text(&mut w, &vec![1, 2, 3], 1, constrained);
    assert_eq!(w.remaining_prompt, vec![2, 3]);
    assert_eq!((w.next_pos, w.pos3_delta, w.mtp_active), (1, 0, false));

    let vd = VisualData {
        patches: vec![1],
        grid_h: 2,
        grid_w: 3,
        n_visual_tokens: 1,
        mrope_positions: vec![[0, 0, 0]],
        rope_delta: 5,
    };
    install_cold_visual(&mut w, vec![42], vd, 8, None);
    let vl = w.vl_prefill.as_ref().unwrap();
    assert_eq!((vl.image_pad_id, vl.dim, vl.rope_delta, vl.visual_idx), (u32::MAX, 8, 5, 0));
    assert!(vl.embeddings.is_empty());
    assert_eq!(w.next_pos, 0);
}

#[test]
fn commands_cancel_and_reset() {
    let mut slots = vec![None, Some(flight(6))];
    let mut w = vec![work(0, vec![1], 1), work(1, vec![2], 2)];
    assert_eq!(
        check_reset(&slots, 0),
        Err("reset rejected: requests in flight".to_string())
    );
    assert_eq!(cancel_session(&mut slots, &mut w, 5), None);
    assert_eq!(cancel_session(&mut slots, &mut w, 6), Some(1));
    assert!(slots[1].is_none() && w[1].remaining_prompt.is_empty());
    assert_eq!(
        check_reset(&slots, 2),
        Err("reset rejected: requests queued in the wait room".to_string())
    );
    assert_eq!(check_reset(&slots, 0), Ok(()));
    let f = request_in_flight(3, 0, 5000, true, 128, true, false);
    assert_eq!((f.max_tokens, f.repeat_window_req), (1, 2048));
    assert_eq!((f.reused_tokens, f.last_published_boundary), (128, 128));
    let f = request_in_flight(3, 7, 5, false, 128, false, true);
    assert_eq!((f.reused_tokens, f.last_published_boundary, f.max_tokens), (0, 0, 7));
}

#[test]
fn evictions_that_go_wrong_are_cold() {
    assert_eq!(evict_outcome(true, true, true), EvictOutcome::Swapped);
    assert_eq!(evict_outcome(true, false, false), EvictOutcome::Cold);
    assert_eq!(evict_outcome(true, true, false), EvictOutcome::Cold);
    assert_eq!(evict_outcome(false, false, false), EvictOutcome::NothingToEvict);
    assert!(evicted_well(EvictOutcome::Swapped));
    assert!(!evicted_well(EvictOutcome::Cold));
    assert!(restored_well(true, true) && !restored_well(true, false));
}

/// A request that continues a swapped session, up to the restore into slot 6.
fn restoring(f: &AdmitFacts) -> AdmitState {
    let (s, _) = admit_step(f, AdmitState::Start, AdmitEvent::Submitted);
    let swapped = MatchedSession {
        session: 4,
        held: 10,
        slot: None,
    };
    let (s, a) = admit_step(f, s, AdmitEvent::Matched(Some(swapped)));
    assert_eq!(a, AdmitAction::Acquire { session: 4 });
    let (s, a) = admit_step(f, s, AdmitEvent::Acquired(None));
    assert_eq!(a, AdmitAction::PickVictim);
    let (s, a) = admit_step(f, s, AdmitEvent::Victim(Some(7)));
    assert_eq!(a, AdmitAction::ParkThenAcquire { victim: 7 });
    let (s, a) = admit_step(f, s, AdmitEvent::Acquired(Some(6)));
    assert_eq!(a, AdmitAction::Restore { session: 4, slot: 6 });
    s
}

fn continuing() -> AdmitFacts {
    let mut f = facts();
    f.continuation = ContinuationKind::UserTurn;
    f.suffix_len = 5;
    f
}

#[test]
fn a_slot_that_was_taken_for_a_restore_is_given_back() {
    let f = continuing();
    let (s, a) = admit_step(&f, restoring(&f), AdmitEvent::Restored(false));
    assert_eq!((s, a), (AdmitState::Opening, AdmitAction::ReleaseThenOpen { slot: 6 }));
    let mut long = continuing();
    long.prompt_len = 1000;
    let (s, a) = admit_step(&long, restoring(&long), AdmitEvent::Restored(false));
    assert_eq!(s, AdmitState::Done);
    assert_eq!(
        a,
        AdmitAction::ReleaseThenReject {
            slot: 6,
            why: Refusal::PromptTooLong { prompt: 1000, cap: 1000 }
        }
    );
}

#[test]
fn a_swapped_session_does_not_evict_itself() {
    assert_eq!(choose_swap_victim(4, Some(4)), None);
    assert_eq!(choose_swap_victim(4, Some(5)), Some(5));
    assert_eq!(choose_swap_victim(4, None), None);
    let f = continuing();
    let s = AdmitState::ChoosingSwapVictim { session: 4, held: 10 };
    let (_, a) = admit_step(&f, s, AdmitEvent::Victim(Some(4)));
    assert_eq!(a, AdmitAction::Open);
}

#[test]
fn every_missed_lookup_unpins() {
    let f = facts();
    let s = AdmitState::LookingUp { session: 9, slot: 2 };
    for hit in [
        None,
        Some(PrefixHit { boundary: 256, pages_found: 1 }),
        Some(PrefixHit { boundary: 0, pages_found: 9 }),
    ] {
        let (_, a) = admit_step(&f, s, AdmitEvent::LookedUp(hit));
        assert_eq!(a, AdmitAction::UnpinThenBegin { session: 9 });
    }
    let s = AdmitState::Sharing { session: 9, slot: 2, boundary: 256 };
    let (_, a) = admit_step(&f, s, AdmitEvent::Shared(false));
    assert_eq!(a, AdmitAction::UnpinThenBegin { session: 9 });
}

#[test]
fn waiters_are_charged_and_retried() {
    assert_eq!((queue_charge(0), queue_charge(1), queue_charge(77)), (1, 1, 77));
    let busy = [None, None].map(|_: Option<u8>| {
        Some(InFlight {
            session: 1,
            produced: 0,
            max_tokens: 1,
            repeat_window_req: 0,
            reused_tokens: 0,
            last_published_boundary: 0,
            constrained: false,
        })
    });
    assert!(!retries_waiter(&busy, None));
    let half = [busy[0], None];
    assert!(retries_waiter(&half, None));
    assert!(retries_waiter(&half, Some(0)));
    assert!(!retries_waiter(&half, Some(1)));
}

#[test]
fn full_contexts_are_told_without_being_counted() {
    assert!(!counts_as_rejected(Refusal::ContextFull { held: 1, cap: 1 }));
    assert!(!counts_as_rejected(Refusal::ContextBudget { held: 1, asked: 1, cap: 1 }));
    assert!(counts_as_rejected(Refusal::QueueFull));
    assert!(counts_as_rejected(Refusal::PromptTooLong { prompt: 1, cap: 1 }));
}

#[test]
fn sessions_remember_the_image_offset_for_follow_ups() {
    let fresh = SessionRecord {
        tokens: vec![],
        convo: vec![],
        next_pos: 0,
        rope_delta: 7,
    };
    let image = AcceptedTurn::Cold {
        prompt: vec![1, 42, 42, 2],
        prefix_reused: None,
        image_delta: Some(-2),
    };
    let mut record = session_after_accept(fresh, image, vec![11]);
    assert_eq!(record.tokens, vec![1, 42, 42, 2]);
    assert_eq!((record.convo.clone(), record.next_pos, record.rope_delta), (vec![11], 0, -2));

    record.next_pos = 5;
    record.tokens.push(9);
    let follow = AcceptedTurn::Continued { suffix: vec![3, 4] };
    let record = session_after_accept(record, follow, vec![11, 12]);
    assert_eq!(record.tokens, vec![1, 42, 42, 2, 9, 3, 4]);
    assert_eq!((record.convo.clone(), record.next_pos, record.rope_delta), (vec![11, 12], 5, -2));
    let mut w = work(0, vec![], 0);
    let spec = Speculation {
        head_loaded: false,
        mtp_k: 0,
        penalized: false,
        sampled: false,
        constrained: false,
    };
    install_continuation(&mut w, &record.tokens, 5, record.rope_delta, spec, false, false);
    assert_eq!((w.remaining_prompt.clone(), w.next_pos, w.pos3_delta), (vec![3, 4], 5, -2));

    let cold = AcceptedTurn::Cold {
        prompt: vec![8, 8],
        prefix_reused: Some(1),
        image_delta: None,
    };
    let record = session_after_accept(record, cold, vec![20]);
    assert_eq!((record.tokens, record.convo), (vec![8, 8], vec![20]));
    assert_eq!((record.next_pos, record.rope_delta), (1, 0));
}
