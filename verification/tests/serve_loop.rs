use hipfire_serve::engine_state::InFlight;
use hipfire_serve::fairness::{Grant, Selection};
use hipfire_serve::mtp::{advance_verified, head_chunk, DraftStep};
use hipfire_serve::scheduler::{PendingWork, Scheduler, VlPrefill};
use hipfire_serve::serve_loop::{
    after_stage, commands_outcome, draft_phase, fail_slot, fail_unprovisioned, fault_text,
    plan_step, queue_timeout_text, rows_outcome, unprovisioned_text, write_intervals, DeviceFault,
    LoopStep, Stage, StageOutcome, StepLimits,
};
use hipfire_serve::slot_batch::{SlotBatch, SlotId};
use hipfire_serve::step::DroppedDraft;
use hipfire_serve::step_rows::MtpDraftOutput;
use hipfire_serve::vision::{tower_event, tower_started, tower_step, TowerEvent, TowerStep};

fn request(session: u64) -> Option<InFlight> {
    Some(InFlight {
        session,
        produced: 0,
        max_tokens: 100,
        repeat_window_req: 0,
        reused_tokens: 0,
        last_published_boundary: 0,
        constrained: false,
    })
}

fn work(slot: usize, prompt: Vec<u32>, next_pos: usize) -> PendingWork {
    PendingWork {
        slot: SlotId(slot),
        remaining_prompt: prompt,
        next_pos,
        decoding: false,
        vl_prefill: None,
        mtp_active: false,
        mtp_cycles: 0,
        mtp_committed: 0,
        mtp_retire_fails: 0,
        pos3_delta: 0,
    }
}

fn speculating(slot: usize, seeds: Vec<u32>, next_pos: usize) -> PendingWork {
    let mut w = work(slot, seeds, next_pos);
    w.decoding = true;
    w.mtp_active = true;
    w
}

fn scheduler() -> Scheduler {
    Scheduler {
        chunk_size: 8,
        vl_sequential: false,
        prefill_cursor: 0,
    }
}

fn granted(ids: &[u64]) -> Selection {
    Selection {
        grants: ids.iter().map(|id| Grant::Decode { id: *id }).collect(),
        starved_oldest: false,
    }
}

fn draft(seed: u32, pos: usize) -> Option<MtpDraftOutput> {
    Some(MtpDraftOutput {
        verify_tokens: vec![seed, seed + 1, seed + 2],
        cur_pos: pos,
    })
}

#[test]
fn drafting_and_retiring() {
    let slots = [request(1), request(2), None];
    let mut w = [
        speculating(0, vec![5, 6], 10),
        speculating(1, vec![7, 8], 18),
        speculating(2, vec![9], 0),
    ];
    let steps = draft_phase(&slots, &mut w, true, 2, 20);
    assert_eq!(
        steps,
        vec![
            DraftStep::Draft { seed: 6, pos: 10 },
            DraftStep::Retired,
            DraftStep::Skip
        ]
    );
    assert!(w[0].remaining_prompt.is_empty() && w[0].mtp_active);
    assert_eq!(w[1].remaining_prompt, vec![8]);
    assert!(!w[1].mtp_active);
    assert_eq!(w[2].remaining_prompt, vec![9]);
}

#[test]
fn verify_rows_join_the_step() {
    let slots = [request(1), request(2)];
    let mut w = [speculating(0, vec![], 10), work(1, vec![1, 2, 3, 4, 5], 0)];
    let mut drafts = vec![draft(70, 10), None];
    let p = plan_step(
        &slots,
        &mut w,
        &mut scheduler(),
        &mut drafts,
        &granted(&[1, 2]),
        &[Some(0), Some(1)],
        StepLimits {
            mtp_k: 2,
            max_batch_tokens: 7,
            prefill_min_tokens: 1,
        },
    );
    assert_eq!(p.eligible, vec![true, true]);
    assert!(p.dropped.is_empty());
    assert_eq!(p.batch.m_per_slot, vec![3, 4]);
    assert_eq!(p.batch.tokens, vec![70, 71, 72, 1, 2, 3, 4]);
    assert_eq!(p.batch.positions, vec![10, 11, 12, 0, 1, 2, 3]);
    assert_eq!(w[1].remaining_prompt, vec![5]);
    assert_eq!(
        write_intervals(&p.batch),
        vec![Some((10, 13)), Some((0, 4))]
    );
}

#[test]
fn drafts_that_do_not_fit_give_their_seed_back() {
    let slots = [request(1), request(2), request(3)];
    let mut w = [
        speculating(0, vec![], 10),
        speculating(1, vec![], 20),
        work(2, vec![1, 2], 0),
    ];
    let mut drafts = vec![draft(70, 10), draft(80, 20), None];
    let p = plan_step(
        &slots,
        &mut w,
        &mut scheduler(),
        &mut drafts,
        &granted(&[1, 2, 3]),
        &[None, None, None],
        StepLimits {
            mtp_k: 2,
            max_batch_tokens: 4,
            prefill_min_tokens: 1,
        },
    );
    assert_eq!(p.dropped, vec![DroppedDraft { slot: 0, seed: 70 }]);
    assert_eq!(p.batch.m_per_slot, vec![0, 3, 0]);
    assert_eq!(p.batch.tokens, vec![80, 81, 82]);
    assert_eq!(w[0].remaining_prompt, vec![70]);
    assert!(w[0].mtp_active);
    assert!(drafts[0].is_none() && drafts[1].is_some());
    assert_eq!(w[2].remaining_prompt, vec![1, 2]);
}

#[test]
fn a_starved_request_runs_alone() {
    let slots = [request(5), request(6)];
    let mut w = [work(0, vec![1, 2], 0), work(1, vec![3, 4], 0)];
    let sel = Selection {
        grants: vec![Grant::Prefill { id: 5, rows: 2 }],
        starved_oldest: true,
    };
    let p = plan_step(
        &slots,
        &mut w,
        &mut scheduler(),
        &mut vec![None, None],
        &sel,
        &[Some(9), Some(3)],
        StepLimits {
            mtp_k: 0,
            max_batch_tokens: 8,
            prefill_min_tokens: 1,
        },
    );
    assert_eq!(p.eligible, vec![false, true]);
    assert_eq!(p.batch.tokens, vec![3, 4]);
}

#[test]
fn unprovisioned_slots_leave_alone() {
    let mut slots = [request(1), request(2), None];
    let mut w = [
        work(0, vec![9], 4),
        work(1, vec![8], 5),
        work(2, vec![], 0),
    ];
    let mut batch = SlotBatch::build(&[
        (SlotId(0), &[1, 2], 0),
        (SlotId(1), &[3, 4, 5], 7),
        (SlotId(2), &[6], 1),
    ]);
    let mut drafts = vec![draft(1, 0), draft(2, 0), None];
    let gone = fail_unprovisioned(&mut slots, &mut w, &mut batch, &mut drafts, &[1, 2]);
    assert_eq!(gone.len(), 1);
    assert_eq!((gone[0].slot, gone[0].session), (1, 2));
    assert_eq!(batch.m_per_slot, vec![2, 0, 0]);
    assert_eq!(batch.tokens, vec![1, 2]);
    assert!(slots[0].is_some() && slots[1].is_none());
    assert_eq!(w[0].remaining_prompt, vec![9]);
    assert!(w[1].remaining_prompt.is_empty());
    assert!(drafts[0].is_some() && drafts[1].is_none());
    assert_eq!(unprovisioned_text(), "COW reservation failed for this slot");
    assert_eq!(fail_slot(&mut slots, &mut w, 0), Some(1));
    assert_eq!(fail_slot(&mut slots, &mut w, 0), None);
    assert!(w[0].remaining_prompt.is_empty());
}

#[test]
fn stages_follow_each_other() {
    let mut stage = Stage::Commands;
    let mut count = 1;
    loop {
        match after_stage(stage, StageOutcome::Done) {
            LoopStep::Go(next) => {
                stage = next;
                count += 1;
            }
            LoopStep::Again => break,
            _ => panic!("a stage that is done goes on"),
        }
    }
    assert_eq!((stage, count), (Stage::Commit, 16));
    let fail = |s: Stage| after_stage(s, StageOutcome::Failed("x".to_string()));
    assert!(matches!(fail(Stage::Forward), LoopStep::RejectAll(_)));
    assert!(matches!(fail(Stage::Sample), LoopStep::Poison(_)));
    assert!(matches!(after_stage(Stage::Plan, StageOutcome::Nothing), LoopStep::Again));
    assert!(matches!(after_stage(Stage::Commands, StageOutcome::Closed), LoopStep::Stop));
    assert!(matches!(commands_outcome(true, true, &[None]), StageOutcome::Closed));
    assert!(matches!(commands_outcome(true, false, &[None]), StageOutcome::Nothing));
    assert!(matches!(commands_outcome(false, true, &[request(1)]), StageOutcome::Done));
    assert!(matches!(rows_outcome(&SlotBatch::default()), StageOutcome::Nothing));
}

#[test]
fn faults_have_reasons() {
    assert_eq!(fault_text(DeviceFault::Upload, "e"), "vl ext ptr upload failed: e");
    assert_eq!(fault_text(DeviceFault::Synchronize, "e"), "device synchronize failed: e");
    assert_eq!(fault_text(DeviceFault::RepeatWindow, "e"), "repeat window upload failed: e");
    assert_eq!(
        fault_text(DeviceFault::MaskRead { slot: 12 }, "e"),
        "grammar mask D2H failed for slot 12: e"
    );
    assert_eq!(
        fault_text(DeviceFault::MaskWrite { slot: 0 }, "e"),
        "grammar mask H2D failed for slot 0: e"
    );
    assert_eq!(fault_text(DeviceFault::Sample, "e"), "sample failed: e");
    assert_eq!(fault_text(DeviceFault::ReadBack, "e"), "DtoH failed: e");
    assert_eq!(
        queue_timeout_text(),
        "serve queue timeout: request waited beyond the configured deadline"
    );
}

#[test]
fn towers_free_their_slot_when_finished() {
    assert_eq!(tower_step(false, true, true), Ok(TowerStep::Start));
    assert_eq!(tower_step(true, true, true), Ok(TowerStep::Layer));
    assert_eq!(
        tower_step(false, false, true),
        Err("VL request but model has no vision encoder")
    );
    assert_eq!(
        tower_step(true, true, false),
        Err("VL request but model has no vision config")
    );
    let mut vl = VlPrefill {
        patches: vec![1, 2, 3],
        grid_h: 1,
        grid_w: 1,
        n_visual_tokens: 2,
        embeddings: vec![],
        dim: 0,
        visual_idx: 0,
        image_pad_id: 9,
        mrope_positions: vec![],
        rope_delta: 0,
        base: 0,
    };
    tower_started(&mut vl);
    assert!(vl.patches.is_empty());
    assert_eq!(tower_event(&mut vl, TowerEvent::More, 4, 4), Ok(false));
    assert_eq!(
        tower_event(&mut vl, TowerEvent::Failed("oom".to_string()), 4, 4),
        Err("vision_forward: oom".to_string())
    );
    assert!(vl.embeddings.is_empty());
    assert_eq!(
        tower_event(&mut vl, TowerEvent::Finished { values: 9 }, 4, 6),
        Ok(true)
    );
    assert_eq!((vl.embeddings, vl.dim), (vec![0; 8], 6));
}

#[test]
fn head_chunks_and_verified_rows() {
    let c = head_chunk(true, true, 3, 2, 10).unwrap();
    assert_eq!((c.hidden_start, c.hidden_len, c.seed_start, c.seed_len), (30, 20, 40, 40));
    assert_eq!(
        head_chunk(false, true, 0, 1, 1).unwrap_err(),
        "mtp_head_prefill_chunk: MTP head not loaded"
    );
    assert_eq!(
        head_chunk(true, false, 0, 1, 1).unwrap_err(),
        "mtp_head_prefill_chunk: batched head scratch missing"
    );
    let mut w = speculating(0, vec![], 10);
    assert_eq!(advance_verified(&mut w, 3), 13);
    assert_eq!(w.next_pos, 13);
}
