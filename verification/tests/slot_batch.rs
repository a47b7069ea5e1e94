use hipfire_serve::slot_batch::{SlotBatch, SlotId};


#[test]
fn packs_tokens_in_slot_order() {
    let b = SlotBatch::build(&[
        (SlotId(0), &[10u32, 11][..], 100),
        (SlotId(1), &[20u32][..], 5),
    ]);
    assert_eq!(b.tokens, vec![10, 11, 20]);
    assert_eq!(b.m_per_slot, vec![2, 1]);
    assert_eq!(b.total_rows(), 3);
}

#[test]
fn positions_advance_within_a_slot_from_its_own_start() {
    // Slot 0 verifying 3 tokens at start_pos 100 occupies 100,101,102.
    // Slot 1 decoding 1 token at start_pos 5 occupies 5. They are
    // independent -- positions are per-slot absolute, not batch-global.
    let b = SlotBatch::build(&[
        (SlotId(0), &[1u32, 2, 3][..], 100),
        (SlotId(1), &[9u32][..], 5),
    ]);
    assert_eq!(b.positions, vec![100, 101, 102, 5]);
}

#[test]
fn row_slot_maps_every_flat_row_to_its_slot() {
    let b = SlotBatch::build(&[
        (SlotId(0), &[1u32, 2, 3][..], 0),
        (SlotId(2), &[7u32][..], 0),
    ]);
    assert_eq!(b.row_slot, vec![0, 0, 0, 2]);
}

#[test]
fn idle_slots_contribute_no_rows() {
    let b = SlotBatch::build(&[(SlotId(0), &[][..], 0), (SlotId(1), &[5u32][..], 42)]);
    assert_eq!(b.m_per_slot, vec![0, 1]);
    assert_eq!(b.tokens, vec![5]);
    assert_eq!(b.positions, vec![42]);
    assert_eq!(b.row_slot, vec![1]);
}

#[test]
fn an_all_idle_batch_is_empty() {
    let b = SlotBatch::build(&[(SlotId(0), &[][..], 0)]);
    assert!(b.is_empty());
    assert_eq!(b.total_rows(), 0);
}

#[test]
fn mixed_prefill_and_decode_is_the_shape_this_exists_for() {
    // slot 0 verifies 8 draft tokens, slot 1 chunk-prefills 256,
    // slots 2-3 decode 1 each.
    let p0: Vec<u32> = (0..8).collect();
    let p1: Vec<u32> = (0..256).collect();
    let b = SlotBatch::build(&[
        (SlotId(0), &p0[..], 1000),
        (SlotId(1), &p1[..], 0),
        (SlotId(2), &[1u32][..], 50),
        (SlotId(3), &[2u32][..], 77),
    ]);
    assert_eq!(b.total_rows(), 266);
    assert_eq!(b.row_slot.iter().filter(|&&s| s == 1).count(), 256);
    assert_eq!(b.positions[b.positions.len() - 1], 77);
}
