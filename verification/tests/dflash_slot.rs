use hipfire_serve::dflash_slot::{
    check_draft, dflash_slot_draft_step, dflash_slot_verify_accept, draft_block,
    draft_from_proposal, draft_positions, load_dflash_shared, new_dflash_slot_state,
    noise_embedding, plan_accept, reset_dflash_slot, resolve_ctx_capacity, resolve_window,
    scatter_staging_rows_to_interleaved, verify_row_tokens, DraftModel, NoiseEmbedding, RowCopy,
    VerifiedRows, DEFAULT_DFLASH_CTX_CAP,
};
use hipfire_serve::glimmer_batch::EmbeddingFormat;

#[test]
fn the_setting_overrides_the_declared_window() {
    assert_eq!(resolve_window(None, Some(512), true), Some(512));
    assert_eq!(resolve_window(Some("64"), Some(512), true), Some(64));
    assert_eq!(resolve_window(Some("0"), Some(512), true), None);
    assert_eq!(resolve_window(Some("wide"), Some(512), true), Some(512));
    assert_eq!(resolve_window(Some("64"), Some(512), false), None);
}

#[test]
fn the_context_is_the_window_or_capped() {
    assert_eq!(resolve_ctx_capacity(Some(7), Some("3"), 100), 7);
    assert_eq!(resolve_ctx_capacity(None, Some("3"), 100), 3);
    assert_eq!(resolve_ctx_capacity(None, Some("0"), 100_000), 100_000);
    assert_eq!(resolve_ctx_capacity(None, None, 100_000), DEFAULT_DFLASH_CTX_CAP);
    assert_eq!(resolve_ctx_capacity(None, None, 10), 10);
}

#[test]
fn unfit_drafts_are_refused() {
    assert_eq!(check_draft(true, &[0, 3], 4), Ok(()));
    assert_eq!(
        check_draft(true, &[0, 4, 9], 4).unwrap_err(),
        "draft target_layer_ids contains 4 >= num_target_layers 4"
    );
    assert_eq!(
        check_draft(false, &[9], 4).unwrap_err(),
        "slots DFlash requires a DFlash2 draft (candidate selector); legacy DFlash drafts are sequential-path only"
    );
}

#[test]
fn a_draft_is_fed_the_newest_rows() {
    assert_eq!(draft_block(7, 99, 4), vec![7, 99, 99, 99]);
    let p = draft_positions(&[1, 2, 3, 4], 2, 3);
    assert_eq!((p.ctx_len, p.q, p.k), (2, vec![2, 3, 4], vec![3, 4, 2, 3, 4]));
    let p = draft_positions(&[0, 1], 9, 1);
    assert_eq!((p.ctx_len, p.k), (2, vec![0, 1, 9]));
    assert_eq!(verify_row_tokens(7, &[1, 2, 3], 3), vec![7, 1, 2]);
    assert_eq!(verify_row_tokens(7, &[1], 3), vec![7, 1]);
}

#[test]
fn bursts_are_cut_to_what_can_be_kept() {
    let full = plan_accept(vec![1, 2, 3, 4], false, 10, Some(9), 4);
    assert_eq!((full.committed, full.hit_eos, full.repair), (vec![1, 2, 3, 4], false, false));
    let cut = plan_accept(vec![1, 2, 3, 4], false, 2, None, 4);
    assert_eq!((cut.committed, cut.hit_eos, cut.repair), (vec![1, 2], false, true));
    let least = plan_accept(vec![1, 2], false, 0, None, 4);
    assert_eq!(least.committed, vec![1]);
    let eot = plan_accept(vec![1, 9, 3, 4], false, 10, Some(9), 4);
    assert_eq!((eot.committed, eot.hit_eos, eot.repair), (vec![1, 9], true, true));
    let last = plan_accept(vec![1, 2, 3, 9], false, 10, Some(9), 4);
    assert_eq!((last.committed, last.hit_eos), (vec![1, 2, 3, 9], false));
    let eos = plan_accept(vec![1, 2], true, 10, None, 2);
    assert!(eos.hit_eos && eos.repair);
}

#[test]
fn rows_scatter_into_the_ring() {
    let c = scatter_staging_rows_to_interleaved(2, 10, Some(4), 5, 3, 2);
    assert_eq!(
        c,
        vec![
            RowCopy { layer: 0, src: 50, dst: 60 },
            RowCopy { layer: 0, src: 60, dst: 0 },
            RowCopy { layer: 1, src: 50, dst: 70 },
            RowCopy { layer: 1, src: 60, dst: 10 },
        ]
    );
    let flat = scatter_staging_rows_to_interleaved(1, 10, None, 0, 6, 1);
    assert_eq!(flat, vec![RowCopy { layer: 0, src: 0, dst: 60 }]);
}

fn model() -> DraftModel {
    DraftModel {
        has_candidate_selector: true,
        declared_window: Some(4),
        all_layers_sliding: true,
        target_layer_ids: vec![1, 3],
        block_size: 3,
        hidden: 10,
        mask_token_id: 99,
    }
}

#[test]
fn a_draft_model_is_loaded_for_the_slots() {
    let s = load_dflash_shared(&model(), None, None, 4, 100, 32).unwrap();
    assert_eq!((s.window, s.ctx_capacity, s.n_extract, s.staging_rows), (Some(4), 4, 2, 32));
    let capped = load_dflash_shared(&model(), Some("0"), Some("50"), 4, 100, 32).unwrap();
    assert_eq!((capped.window, capped.ctx_capacity), (None, 50));
    assert!(load_dflash_shared(&model(), None, None, 3, 100, 32).is_err());
}

#[test]
fn a_cycle_drafts_verifies_and_commits() {
    let shared = load_dflash_shared(&model(), None, None, 4, 100, 32).unwrap();
    let mut st = new_dflash_slot_state();
    assert!(st.session.is_none() && st.draft.is_none());
    reset_dflash_slot(&mut st, 4);
    let f = dflash_slot_draft_step(&shared, 7, 3, &[0, 1, 2]);
    assert_eq!(f.block, vec![7, 99, 99]);
    assert_eq!((f.positions.ctx_len, f.positions.k), (3, vec![0, 1, 2, 3, 4, 5]));
    let mut draft = draft_from_proposal(&shared, 7, 3, &[8, 9, 10]);
    assert_eq!((draft.n_verify(), draft.cur_pos), (3, 3));
    assert_eq!(draft.verify_tokens, vec![7, 8, 9]);
    let rows = VerifiedRows {
        pos: 3,
        row_off: 5,
        modulus: Some(4),
    };
    let out = dflash_slot_verify_accept(
        &shared,
        &mut st,
        &mut draft,
        rows,
        vec![8, 20],
        false,
        10,
        None,
    );
    assert_eq!(out.accept.committed, vec![8, 20]);
    assert!(out.accept.repair);
    assert_eq!(out.copies, scatter_staging_rows_to_interleaved(2, 10, Some(4), 5, 3, 2));
    assert_eq!((st.session, st.seeded_through), (Some(4), 5));
    assert_eq!(draft.n_verify(), 0);
}

#[test]
fn noise_lookups_follow_the_format() {
    assert_eq!(
        noise_embedding(true, EmbeddingFormat::Q4K),
        Ok(NoiseEmbedding::Fused)
    );
    assert_eq!(
        noise_embedding(false, EmbeddingFormat::F32),
        Ok(NoiseEmbedding::PerRow)
    );
    assert_eq!(
        noise_embedding(false, EmbeddingFormat::Q4K),
        Err("dflash slot: unsupported target embedding format for noise lookup")
    );
}
