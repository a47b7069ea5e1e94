use hipfire_serve::dflash_verify_pm4::{
    fingerprint_u64, DflashVerifyBinding, DflashVerifyPm4, DflashVerifyPm4Phase,
    DflashVerifyRoute, DflashVerifyWindow, PreparedReplayIdentity, RecordedKernargSnapshot,
    ReplayCommand, ReplayQuiescence, DFLASH_VERIFY_PM4_BLOCK,
};
use serde_json::Value;

fn binding(generation: u64, max_position: usize) -> DflashVerifyBinding {
    DflashVerifyBinding::new(DFLASH_VERIFY_PM4_BLOCK, "gfx1201", 0xabc, generation, max_position)
}

fn identity(dispatch_count: usize) -> PreparedReplayIdentity {
    PreparedReplayIdentity {
        dispatch_count,
        packet_count: Some(dispatch_count),
        queue_id: 1,
        command_dwords: None,
        queue_count: 1,
        phase_count: 1,
    }
}

fn window<'a>(bound: &'a DflashVerifyBinding, batch: usize, position: usize) -> DflashVerifyWindow<'a> {
    DflashVerifyWindow {
        batch,
        tree: false,
        want_full_logits: false,
        position,
        binding: bound,
    }
}

#[test]
fn disabled_route_never_leaves_hip() {
    let bound = binding(1, 4096);
    let mut route = DflashVerifyPm4::disabled("unsupported arch");
    assert_eq!(
        route.plan_route(&window(&bound, 16, 0)),
        DflashVerifyRoute::HipAuto
    );
    assert!(route.controller_mut().is_none());
    assert_eq!(route.counters().full_hip, 1);
}

#[test]
fn partial_blocks_are_counted_separately_and_stay_hip() {
    let bound = binding(1, 4096);
    let mut route = DflashVerifyPm4::armed();
    assert_eq!(
        route.plan_route(&window(&bound, 4, 0)),
        DflashVerifyRoute::HipAuto
    );
    assert_eq!(route.counters().partial_hip, 1);
    assert_eq!(route.counters().full_hip, 0);
    assert_eq!(*route.phase(), DflashVerifyPm4Phase::Armed);
}

#[test]
fn tree_and_full_logits_windows_stay_hip() {
    let bound = binding(1, 4096);
    let mut route = DflashVerifyPm4::armed();
    let mut tree = window(&bound, 16, 0);
    tree.tree = true;
    assert_eq!(route.plan_route(&tree), DflashVerifyRoute::HipAuto);
    let mut logits = window(&bound, 16, 0);
    logits.want_full_logits = true;
    assert_eq!(route.plan_route(&logits), DflashVerifyRoute::HipAuto);
    assert_eq!(route.counters().full_hip, 2);
}

#[test]
fn arm_prime_capture_ready_replay_progression() {
    let bound = binding(1, 4096);
    let mut route = DflashVerifyPm4::armed();
    assert_eq!(
        route.plan_route(&window(&bound, 16, 0)),
        DflashVerifyRoute::PrimeDirect
    );
    route.note_prime_success(bound.clone());
    assert_eq!(*route.phase(), DflashVerifyPm4Phase::Primed);
    assert_eq!(
        route.plan_route(&window(&bound, 16, 16)),
        DflashVerifyRoute::CaptureRecord
    );
    route.note_capture();
    route.note_ready(
        bound.clone(),
        identity(1154),
    );
    assert_eq!(*route.phase(), DflashVerifyPm4Phase::Ready);
    assert_eq!(
        route.plan_route(&window(&bound, 16, 32)),
        DflashVerifyRoute::Pm4
    );
    route.note_replay_success(32);
    assert_eq!(route.counters().replays, 1);
    assert_eq!(route.counters().first_replay_position, Some(32));
    assert_eq!(route.counters().last_replay_position, Some(32));
}

#[test]
fn position_beyond_prepared_max_rearms_instead_of_replaying() {
    let bound = binding(1, 64);
    let mut route = DflashVerifyPm4::armed();
    route.note_prime_success(bound.clone());
    route.note_ready(
        bound.clone(),
        identity(8),
    );
    // Exactly at the prepared bound (48 + 16 == 64) is still admitted.
    assert_eq!(
        route.plan_route(&window(&bound, 16, 48)),
        DflashVerifyRoute::Pm4
    );
    // One window past it must rearm rather than replay geometry that was
    // prepared too small.
    assert_eq!(
        route.plan_route(&window(&bound, 16, 56)),
        DflashVerifyRoute::PrimeDirect
    );
    assert_eq!(*route.phase(), DflashVerifyPm4Phase::Armed);
    assert_eq!(route.counters().rearms, 1);
    assert_eq!(route.counters().poison_count, 0);
}

#[test]
fn layout_generation_change_rearms_without_poison() {
    let bound = binding(1, 4096);
    let grown = binding(2, 8192);
    let mut route = DflashVerifyPm4::armed();
    route.note_prime_success(bound.clone());
    route.note_ready(
        bound,
        identity(8),
    );
    assert_eq!(
        route.plan_route(&window(&grown, 16, 0)),
        DflashVerifyRoute::PrimeDirect
    );
    assert_eq!(route.counters().rearms, 1);
    assert!(route.prepared_identity().is_none());
}

#[test]
fn proven_replay_failure_poisons_and_allows_hip_retry() {
    let bound = binding(1, 4096);
    let mut route = DflashVerifyPm4::armed();
    route.note_prime_success(bound.clone());
    route.note_ready(
        bound.clone(),
        identity(8),
    );
    route.note_replay_failure(64, ReplayQuiescence::Proven, "signal timeout");
    assert!(matches!(
        route.phase(),
        DflashVerifyPm4Phase::Poisoned { .. }
    ));
    route.note_safe_hip_retry();
    assert_eq!(
        route.plan_route(&window(&bound, 16, 64)),
        DflashVerifyRoute::HipAuto
    );
    assert_eq!(route.counters().safe_hip_retries, 1);
    assert_eq!(route.counters().replay_failures, 1);
}

#[test]
fn unknown_quiescence_quarantines_and_poison_cannot_downgrade_it() {
    let bound = binding(1, 4096);
    let mut route = DflashVerifyPm4::armed();
    route.note_prime_success(bound.clone());
    route.note_ready(
        bound,
        identity(8),
    );
    route.note_replay_failure(80, ReplayQuiescence::Unknown, "teardown failed");
    assert!(matches!(
        route.phase(),
        DflashVerifyPm4Phase::Quarantined { .. }
    ));
    route.poison("later failure");
    assert!(matches!(
        route.phase(),
        DflashVerifyPm4Phase::Quarantined { .. }
    ));
}

#[test]
fn fingerprint_is_order_sensitive_and_stable() {
    assert_eq!(fingerprint_u64(&[1, 2, 3]), fingerprint_u64(&[1, 2, 3]));
    assert_ne!(fingerprint_u64(&[1, 2, 3]), fingerprint_u64(&[3, 2, 1]));
    assert_eq!(fingerprint_u64(&[]), 0xcbf2_9ce4_8422_2325);
}

#[test]
fn commands_reach_the_controller_in_order() {
    let bound = binding(1, 64);
    let mut route = DflashVerifyPm4::armed();
    route.plan_route(&window(&bound, 16, 0));
    route.note_prime_success(bound.clone());
    // A window past the prepared bound rearms.
    let grown = binding(2, 4096);
    route.plan_route(&window(&grown, 16, 0));
    route.poison("gone wrong");
    let commands = route.controller_mut().unwrap().take_commands();
    assert_eq!(
        commands,
        vec![
            ReplayCommand::RearmAfterLayoutGrowth,
            ReplayCommand::Poison("gone wrong".to_string())
        ]
    );
    assert!(route.controller_mut().unwrap().take_commands().is_empty());
    assert_eq!(route.phase().reason(), Some("gone wrong"));
}

#[test]
fn calibration_takes_two_positions() {
    let bound = binding(1, 4096);
    let mut route = DflashVerifyPm4::armed();
    route.plan_route(&window(&bound, 16, 0));
    route.note_prime_success(bound.clone());
    route.note_calibration_capture(
        RecordedKernargSnapshot {
            kernargs: vec![vec![1, 2]],
        },
        32,
    );
    assert_eq!(*route.phase(), DflashVerifyPm4Phase::Calibrating);
    assert_eq!(route.calibration().unwrap().1, 32);
    assert_eq!(route.counters().calibration_captures, 1);
    assert_eq!(
        route.plan_route(&window(&bound, 16, 32)),
        DflashVerifyRoute::PrimeDirect
    );
    assert_eq!(
        route.plan_route(&window(&bound, 16, 48)),
        DflashVerifyRoute::CaptureRecord
    );
    route.note_position_bindings(3);
    assert_eq!(route.counters().position_bindings, 3);
}

#[test]
fn rejections_poison_the_route() {
    let mut route = DflashVerifyPm4::armed();
    route.note_contract_failure("bad tape");
    assert_eq!(route.counters().contract_failures, 1);
    assert!(!route.phase().is_live());
    let mut other = DflashVerifyPm4::armed();
    other.note_prepare_failure("no space");
    assert_eq!(other.counters().prepare_failures, 1);
    assert_eq!(other.phase().label(), "poisoned");
}

#[test]
fn the_report_is_exact() {
    let mut route = DflashVerifyPm4::disabled("no \"support\"");
    let text = route.report_json();
    let v: Value = serde_json::from_str(&text).unwrap();
    assert_eq!(v.to_string(), text);
    assert_eq!(v.get("phase").and_then(Value::as_str), Some("disabled"));
    assert_eq!(v.get("reason").and_then(Value::as_str), Some("no \"support\""));
    assert!(v.get("binding").unwrap().is_null());
    assert!(v.get("prepared_queue_id").unwrap().is_null());
    assert_eq!(v.get("kv_mode").and_then(Value::as_str), Some("q8"));
    let bound = binding(9, 4096);
    route = DflashVerifyPm4::armed();
    route.plan_route(&window(&bound, 16, 0));
    route.note_prime_success(bound.clone());
    route.note_ready(bound.clone(), identity(12));
    route.note_replay_success(160);
    let text = route.report_json();
    let v: Value = serde_json::from_str(&text).unwrap();
    assert_eq!(v.to_string(), text);
    assert_eq!(v.pointer("/binding/arch").and_then(Value::as_str), Some("gfx1201"));
    assert_eq!(v.pointer("/binding/layout_generation").and_then(Value::as_u64), Some(9));
    assert_eq!(v.get("prepared_dispatch_count").and_then(Value::as_u64), Some(12));
    assert_eq!(v.get("prepared_packet_count").and_then(Value::as_u64), Some(12));
    assert_eq!(v.pointer("/counters/replays").and_then(Value::as_u64), Some(1));
    assert_eq!(
        v.pointer("/counters/first_replay_position").and_then(Value::as_u64),
        Some(160)
    );
    assert!(v.get("reason").unwrap().is_null());
}

#[test]
fn notices_do_not_revive_a_stopped_route() {
    let bound = binding(1, 4096);
    let mut route = DflashVerifyPm4::disabled("never admitted");
    route.note_ready(bound.clone(), identity(4));
    route.note_calibration_capture(RecordedKernargSnapshot { kernargs: vec![] }, 3);
    assert_eq!(route.phase().label(), "disabled");
    assert!(route.prepared_identity().is_none() && route.calibration().is_none());
    assert_eq!(route.counters().calibration_captures, 1);
    let mut poisoned = DflashVerifyPm4::armed();
    poisoned.poison("broken");
    poisoned.note_ready(bound.clone(), identity(4));
    assert_eq!(
        poisoned.plan_route(&window(&bound, 16, 0)),
        DflashVerifyRoute::HipAuto
    );
}
