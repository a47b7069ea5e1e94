use hipfire_serve::scheduler::{PendingWork, Scheduler, VlPrefill};
use hipfire_serve::slot_batch::SlotId;


fn prompt(n: usize) -> Vec<u32> {
    (0..n as u32).collect()
}

#[test]
fn a_long_prompt_is_chunked_not_run_whole() {
    let mut s = Scheduler { chunk_size: 256, vl_sequential: false, prefill_cursor: 0 };
    let mut work = vec![PendingWork {
        slot: SlotId(0),
        remaining_prompt: prompt(1000),
        next_pos: 0,
        decoding: false,
        vl_prefill: None, mtp_active: false, mtp_cycles: 0, mtp_committed: 0, mtp_retire_fails: 0, pos3_delta: 0,
    }];
    let b = s.next_batch(&mut work, 4096, 1);
    assert_eq!(
        b.total_rows(),
        256,
        "must take one chunk, not the whole prompt"
    );
    assert_eq!(work[0].remaining_prompt.len(), 744);
    assert_eq!(work[0].next_pos, 256);
}

#[test]
fn prefill_and_decode_mix_in_one_batch() {
    let mut s = Scheduler { chunk_size: 256, vl_sequential: false, prefill_cursor: 0 };
    let mut work = vec![
        PendingWork {
            slot: SlotId(0),
            remaining_prompt: prompt(300),
            next_pos: 0,
            decoding: false,
            vl_prefill: None, mtp_active: false, mtp_cycles: 0, mtp_committed: 0, mtp_retire_fails: 0, pos3_delta: 0,
        },
        PendingWork {
            slot: SlotId(1),
            remaining_prompt: vec![42],
            next_pos: 10,
            decoding: true,
            vl_prefill: None, mtp_active: false, mtp_cycles: 0, mtp_committed: 0, mtp_retire_fails: 0, pos3_delta: 0,
        },
    ];
    let b = s.next_batch(&mut work, 4096, 1);
    assert_eq!(
        b.m_per_slot,
        vec![256, 1],
        "a prefilling slot must not block a decoding one"
    );
}

#[test]
fn a_prompt_shorter_than_a_chunk_completes_in_one_batch() {
    let mut s = Scheduler { chunk_size: 256, vl_sequential: false, prefill_cursor: 0 };
    let mut work = vec![PendingWork {
        slot: SlotId(0),
        remaining_prompt: prompt(10),
        next_pos: 0,
        decoding: false,
        vl_prefill: None, mtp_active: false, mtp_cycles: 0, mtp_committed: 0, mtp_retire_fails: 0, pos3_delta: 0,
    }];
    let b = s.next_batch(&mut work, 4096, 1);
    assert_eq!(b.total_rows(), 10);
    assert!(work[0].remaining_prompt.is_empty());
}

#[test]
fn an_idle_slot_contributes_nothing() {
    let mut s = Scheduler { chunk_size: 256, vl_sequential: false, prefill_cursor: 0 };
    let mut work = vec![PendingWork {
        slot: SlotId(0),
        remaining_prompt: vec![],
        next_pos: 0,
        decoding: false,
        vl_prefill: None, mtp_active: false, mtp_cycles: 0, mtp_committed: 0, mtp_retire_fails: 0, pos3_delta: 0,
    }];
    let b = s.next_batch(&mut work, 4096, 1);
    assert!(b.is_empty());
}

fn vl_state(n_visual: usize, n_prompt: usize) -> VlPrefill {
    VlPrefill {
        patches: vec![],
        grid_h: 1,
        grid_w: 1,
        n_visual_tokens: n_visual,
        embeddings: vec![0; n_visual * 4],
        dim: 4,
        visual_idx: 0,
        image_pad_id: 42,
        // Phases for the prompt: text rows [p,p,p]; an "image" row at
        // position 4 stretched on h/w (values arbitrary but distinct
        // from the 1D phase, to prove the table wins).
        mrope_positions: (0..n_prompt)
            .map(|p| {
                if p == 4 {
                    [4, 9, 9]
                } else {
                    [p as i32, p as i32, p as i32]
                }
            })
            .collect(),
        rope_delta: 7,
        base: 0,
    }
}

#[test]
fn vl_slots_waiting_on_vision_forward_are_skipped() {
    // Embeddings not yet produced: the slot must not enter the batch
    // (image pads would embed garbage), but the decoding slot next to it
    // is unaffected.
    let mut s = Scheduler { chunk_size: 256, vl_sequential: false, prefill_cursor: 0 };
    let mut work = vec![
        PendingWork {
            slot: SlotId(0),
            remaining_prompt: prompt(10),
            next_pos: 0,
            decoding: false,
            vl_prefill: Some(VlPrefill {
                embeddings: vec![],
                ..vl_state(1, 10)
            }),
            mtp_active: false, mtp_cycles: 0, mtp_committed: 0, mtp_retire_fails: 0, pos3_delta: 0,
        },
        PendingWork {
            slot: SlotId(1),
            remaining_prompt: vec![7],
            next_pos: 3,
            decoding: true,
            vl_prefill: None, mtp_active: false, mtp_cycles: 0, mtp_committed: 0, mtp_retire_fails: 0, pos3_delta: 0,
        },
    ];
    let b = s.next_batch(&mut work, 4096, 1);
    assert_eq!(b.m_per_slot, vec![0, 1], "unprepared VL slots must wait");
    assert_eq!(work[0].remaining_prompt.len(), 10);
    assert_eq!(work[0].next_pos, 0);
    assert!(work[1].remaining_prompt.is_empty());
}

#[test]
fn batched_vl_rows_carry_mrope_phases() {
    let mut s = Scheduler { chunk_size: 256, vl_sequential: false, prefill_cursor: 0 };
    // Prompt where position 4 is an image pad.
    let mut toks = prompt(10);
    toks[4] = 42;
    let mut work = vec![PendingWork {
        slot: SlotId(0),
        remaining_prompt: toks,
        next_pos: 0,
        decoding: false,
        vl_prefill: Some(vl_state(1, 10)),
        mtp_active: false, mtp_cycles: 0, mtp_committed: 0, mtp_retire_fails: 0, pos3_delta: 0,
    }];
    let b = s.next_batch(&mut work, 4096, 1);
    assert_eq!(b.total_rows(), 10);
    assert_eq!(b.pos3.len(), 10, "one phase triplet per row");
    assert_eq!(b.pos3[4], [4, 9, 9], "the image row reads the table");
    assert_eq!(b.pos3[0], [0, 0, 0], "text rows stay at [p, p, p]");
    assert_eq!(b.ext_emb, vec![-1, -1, -1, -1, 0, -1, -1, -1, -1, -1]);
    assert_eq!(work[0].vl_prefill.as_ref().unwrap().visual_idx, 1);
}

#[test]
fn vl_decode_rows_use_pos_plus_rope_delta() {
    let mut s = Scheduler { chunk_size: 4, vl_sequential: false, prefill_cursor: 0 };
    let mut work = vec![PendingWork {
        slot: SlotId(0),
        remaining_prompt: vec![9],
        next_pos: 12,
        decoding: true,
        vl_prefill: Some(vl_state(2, 4)),
        mtp_active: false, mtp_cycles: 0, mtp_committed: 0, mtp_retire_fails: 0, pos3_delta: 0,
    }];
    let b = s.next_batch(&mut work, 4096, 1);
    assert_eq!(b.total_rows(), 1);
    // Position 12 is past the 4-row table: [p + rope_delta; 3].
    assert_eq!(b.pos3[0], [12 + 7, 12 + 7, 12 + 7]);
    assert_eq!(b.ext_emb[0], -1, "decode rows never splice embeddings");
}

#[test]
fn sequential_vl_slots_still_bypass_the_batch() {
    let mut s = Scheduler { chunk_size: 256, vl_sequential: true, prefill_cursor: 0 };
    let mut work = vec![PendingWork {
        slot: SlotId(0),
        remaining_prompt: prompt(10),
        next_pos: 0,
        decoding: false,
        vl_prefill: Some(vl_state(1, 10)),
        mtp_active: false, mtp_cycles: 0, mtp_committed: 0, mtp_retire_fails: 0, pos3_delta: 0,
    }];
    let b = s.next_batch(&mut work, 4096, 1);
    assert!(b.is_empty(), "sequential mode owns the slot");
    assert!(b.pos3.is_empty(), "no VL rows implies no side arrays");
    assert_eq!(work[0].remaining_prompt.len(), 10);
}

#[test]
fn mtp_prefill_slots_batch_but_decoding_mtp_slots_are_skipped() {        let mut s = Scheduler { chunk_size: 256, vl_sequential: false, prefill_cursor: 0 };
    let mut work = vec![
        PendingWork {
            // MTP slot still prefilling: its prompt chunk flows through
            // the batched path (the head-KV fill runs post-forward).
            slot: SlotId(0),
            remaining_prompt: prompt(10),
            next_pos: 0,
            decoding: false,
            vl_prefill: None,
            mtp_active: true,
            mtp_cycles: 0,
            mtp_committed: 0,
            mtp_retire_fails: 0, pos3_delta: 0,
        },
        PendingWork {
            // MTP slot decoding: owned by the draft/verify cycle; its
            // verify rows are injected by the engine, not the scheduler.
            slot: SlotId(1),
            remaining_prompt: vec![7],
            next_pos: 3,
            decoding: true,
            vl_prefill: None,
            mtp_active: true,
            mtp_cycles: 0,
            mtp_committed: 0,
            mtp_retire_fails: 0, pos3_delta: 0,
        },
    ];
    let b = s.next_batch(&mut work, 4096, 1);
    assert_eq!(
        b.m_per_slot,
        vec![10, 0],
        "prefilling MTP slots batch; decoding MTP slots are injected separately"
    );
    assert!(work[0].remaining_prompt.is_empty());
    assert_eq!(work[0].next_pos, 10);
    assert_eq!(work[1].remaining_prompt, vec![7], "seed stays put");
    assert_eq!(work[1].next_pos, 3);
}

#[test]
fn continuation_rope_delta_shifts_phases_without_splicing_embeddings() {
    // A text follow-up to an image turn: no vl_prefill, but the session's
    // rope delta must phase-shift every row while ext_emb stays -1 (no
    // vision matrix exists any more). A pure-text neighbour keeps
    // [p, p, p].
    let mut s = Scheduler { chunk_size: 256, vl_sequential: false, prefill_cursor: 0 };
    let mut work = vec![
        PendingWork {
            slot: SlotId(0),
            remaining_prompt: prompt(3),
            next_pos: 300,
            decoding: false,
            vl_prefill: None,
            mtp_active: false,
            mtp_cycles: 0,
            mtp_committed: 0,
            mtp_retire_fails: 0,
            pos3_delta: -240,
        },
        PendingWork {
            slot: SlotId(1),
            remaining_prompt: vec![9],
            next_pos: 5,
            decoding: true,
            vl_prefill: None,
            mtp_active: false,
            mtp_cycles: 0,
            mtp_committed: 0,
            mtp_retire_fails: 0,
            pos3_delta: 0,
        },
    ];
    let b = s.next_batch(&mut work, 4096, 1);
    assert_eq!(b.m_per_slot, vec![3, 1]);
    assert_eq!(b.pos3.len(), 4, "delta rows put the step on M-RoPE too");
    assert_eq!(b.pos3[0], [300 - 240; 3], "phase = pos + session delta");
    assert_eq!(b.pos3[2], [302 - 240; 3]);
    assert_eq!(b.pos3[3], [5, 5, 5], "pure-text rows stay at [p, p, p]");
    assert!(b.ext_emb.iter().all(|&e| e == -1), "never splice here");
}

#[test]
fn plain_text_step_still_skips_the_pos3_arrays() {
    let mut s = Scheduler { chunk_size: 256, vl_sequential: false, prefill_cursor: 0 };
    let mut work = vec![PendingWork {
        slot: SlotId(0),
        remaining_prompt: prompt(4),
        next_pos: 0,
        decoding: false,
        vl_prefill: None,
        mtp_active: true,
        mtp_cycles: 0,
        mtp_committed: 0,
        mtp_retire_fails: 0,
        pos3_delta: 0,
    }];
    let b = s.next_batch(&mut work, 4096, 1);
    assert_eq!(b.total_rows(), 4);
    assert!(b.pos3.is_empty(), "no VL rows implies no side arrays");
    assert!(b.ext_emb.is_empty());
}

fn work_prefill(slot: usize, prompt_len: usize, next_pos: usize) -> PendingWork {
    PendingWork {
        slot: SlotId(slot),
        remaining_prompt: prompt(prompt_len),
        next_pos,
        decoding: false,
        vl_prefill: None,
        mtp_active: false,
        mtp_cycles: 0,
        mtp_committed: 0,
        mtp_retire_fails: 0,
        pos3_delta: 0,
    }
}

fn work_decode(slot: usize, seed: u32, next_pos: usize) -> PendingWork {
    PendingWork {
        slot: SlotId(slot),
        remaining_prompt: vec![seed],
        next_pos,
        decoding: true,
        vl_prefill: None,
        mtp_active: false,
        mtp_cycles: 0,
        mtp_committed: 0,
        mtp_retire_fails: 0,
        pos3_delta: 0,
    }
}

#[test]
fn mixed_decode_and_prefill_never_exceeds_max_batch_tokens() {
    // 4 decode slots + 1 prefill slot (300 tokens, chunk 256). Budget 6.
    // Decode gets 4 rows (one each), prefill gets 2 (remaining budget).
    let mut s = Scheduler { chunk_size: 256, vl_sequential: false, prefill_cursor: 0 };
    let mut work = vec![
        work_decode(0, 1, 10),
        work_decode(1, 2, 20),
        work_decode(2, 3, 30),
        work_decode(3, 4, 40),
        work_prefill(4, 300, 0),
    ];
    let b = s.next_batch(&mut work, 6, 1);
    assert!(
        b.total_rows() <= 6,
        "batch must not exceed budget: got {}",
        b.total_rows()
    );
    assert_eq!(b.m_per_slot[0..4], vec![1, 1, 1, 1], "all 4 decode slots served");
    assert_eq!(b.m_per_slot[4], 2, "prefill gets the remaining 2 rows");
    assert_eq!(work[4].remaining_prompt.len(), 298);
    assert_eq!(work[4].next_pos, 2);
}

#[test]
fn one_huge_prefill_chunk_is_truncated_to_remaining_budget() {
    // A single prefill slot with a huge prompt. Budget 10, chunk 256.
    // The slot gets only 10 rows (the budget), not the whole chunk.
    let mut s = Scheduler { chunk_size: 256, vl_sequential: false, prefill_cursor: 0 };
    let mut work = vec![work_prefill(0, 1000, 0)];
    let b = s.next_batch(&mut work, 10, 1);
    assert_eq!(b.total_rows(), 10, "prefill truncated to remaining budget");
    assert_eq!(work[0].remaining_prompt.len(), 990);
    assert_eq!(work[0].next_pos, 10);
}

#[test]
fn rotation_serves_two_prefills_across_ticks() {
    // Two prefill slots, budget 4, chunk 256, prefill_min 1.
    // Tick 1: cursor 0 → slot 0 gets the quantum (at least 1 row), then
    // leftover budget (3) is distributed round-robin: slot 0 gets more
    // up to chunk, then slot 1. With chunk=256 and budget=4, slot 0
    // gets 4 rows total (quantum 1 + 3 extra), slot 1 gets 0.
    // Tick 2: cursor advances to 1 → slot 1 gets the quantum first.
    let mut s = Scheduler { chunk_size: 256, vl_sequential: false, prefill_cursor: 0 };
    let mut work = vec![
        work_prefill(0, 100, 0),
        work_prefill(1, 100, 0),
    ];
    // Tick 1: cursor=0, slot 0 is the head.
    let b1 = s.next_batch(&mut work, 4, 1);
    assert_eq!(b1.total_rows(), 4);
    assert!(b1.m_per_slot[0] > 0, "slot 0 gets rows on tick 1");
    // Tick 2: cursor=1, slot 1 is the head.
    let b2 = s.next_batch(&mut work, 4, 1);
    assert_eq!(b2.total_rows(), 4);
    assert!(
        b2.m_per_slot[1] > 0,
        "slot 1 gets rows on tick 2 (rotation): {:?}",
        b2.m_per_slot
    );
    // Both slots made progress across the two ticks.
    assert!(work[0].next_pos > 0 && work[1].next_pos > 0);
}

#[test]
fn zero_remaining_budget_returns_empty_batch() {
    // Budget 0: no rows can be allocated, even with runnable work.
    let mut s = Scheduler { chunk_size: 256, vl_sequential: false, prefill_cursor: 0 };
    let mut work = vec![
        work_decode(0, 1, 10),
        work_prefill(1, 300, 0),
    ];
    let b = s.next_batch(&mut work, 0, 1);
    assert!(b.is_empty(), "zero budget → empty batch");
    assert_eq!(work[0].remaining_prompt, vec![1], "decode seed untouched");
    assert_eq!(work[1].remaining_prompt.len(), 300, "prefill prompt untouched");
}

#[test]
fn decode_lanes_admitted_only_up_to_budget() {
    // 5 decode slots, budget 3: only 3 decode lanes get a row.
    let mut s = Scheduler { chunk_size: 256, vl_sequential: false, prefill_cursor: 0 };
    let mut work = vec![
        work_decode(0, 1, 10),
        work_decode(1, 2, 20),
        work_decode(2, 3, 30),
        work_decode(3, 4, 40),
        work_decode(4, 5, 50),
    ];
    let b = s.next_batch(&mut work, 3, 1);
    assert_eq!(b.total_rows(), 3);
    assert_eq!(b.m_per_slot, vec![1, 1, 1, 0, 0]);
    // The unserved decode slots keep their seed.
    assert_eq!(work[3].remaining_prompt, vec![4]);
    assert_eq!(work[4].remaining_prompt, vec![5]);
}

#[test]
fn prefill_min_tokens_guaranteed_when_space_remains() {
    // 1 decode (1 row) + 1 prefill (100 tokens). Budget 5, prefill_min 3.
    // Decode gets 1, prefill gets at least 3 (the min quantum).
    let mut s = Scheduler { chunk_size: 256, vl_sequential: false, prefill_cursor: 0 };
    let mut work = vec![
        work_decode(0, 1, 10),
        work_prefill(1, 100, 0),
    ];
    let b = s.next_batch(&mut work, 5, 3);
    assert_eq!(b.m_per_slot[0], 1, "decode gets 1 row");
    assert!(
        b.m_per_slot[1] >= 3,
        "prefill gets at least prefill_min_tokens: got {}",
        b.m_per_slot[1]
    );
    assert!(b.total_rows() <= 5);
}

/// An ineligible slot contributes 0 rows and its `remaining_prompt` is
/// NOT drained — no tokens are lost. This is the contract the serve
/// engine relies on when it passes the FairQueue grant mask: an
/// un-granted slot must contribute 0 rows.
#[test]
fn ineligible_slot_contributes_zero_rows_and_keeps_its_prompt() {
    let mut s = Scheduler { chunk_size: 256, vl_sequential: false, prefill_cursor: 0 };
    let mut work = vec![
        PendingWork {
            slot: SlotId(0),
            remaining_prompt: prompt(100),
            next_pos: 0,
            decoding: false,
            vl_prefill: None, mtp_active: false, mtp_cycles: 0, mtp_committed: 0, mtp_retire_fails: 0, pos3_delta: 0,
        },
        PendingWork {
            slot: SlotId(1),
            remaining_prompt: prompt(100),
            next_pos: 0,
            decoding: false,
            vl_prefill: None, mtp_active: false, mtp_cycles: 0, mtp_committed: 0, mtp_retire_fails: 0, pos3_delta: 0,
        },
    ];
    // Only slot 0 is eligible (FairQueue granted it); slot 1 is not.
    let eligible = [true, false];
    let b = s.next_batch_eligible(&mut work, 4096, 1, &eligible);
    assert_eq!(b.m_per_slot, vec![100, 0], "ineligible slot contributes 0 rows");
    // Slot 1's prompt is untouched (not drained).
    assert_eq!(work[1].remaining_prompt.len(), 100, "ineligible slot keeps its prompt");
    assert_eq!(work[1].next_pos, 0);
    // Slot 0's prompt was consumed.
    assert!(work[0].remaining_prompt.is_empty());
}
