use tracker_core::agnss::{AgnssAck, AgnssState};
use tracker_core::gps_state_machine::{has_elapsed, GpsAction, GpsStateMachine, StepInput};
use tracker_core::system_info::GpsState;

fn input(state: GpsState) -> StepInput {
    StepInput {
        state,
        location_valid: false,
        is_stationary: true,
        keep_alive: false,
        fast: false,
        ack: AgnssAck::NoReply,
    }
}

fn written(actions: &[GpsAction]) -> Vec<Vec<u8>> {
    actions
        .iter()
        .filter_map(|a| match a {
            GpsAction::Write(m) => Some(m.as_slice().to_vec()),
            _ => None,
        })
        .collect()
}

#[test]
fn agnss_ack_sequence_through_state_machine() {
    let mut sm = GpsStateMachine::new();
    let mut ag = AgnssState::new();
    ag.set_agnss_message_queue(&[vec![1u8; 100], vec![2u8; 100]]).unwrap();
    let mut wire = Vec::new();
    let mut now = 20_000;
    let out = sm.step(&mut ag, input(GpsState::S2IdleGpsOff), now);
    assert_eq!(out.next_state, GpsState::S5AgnssProcessing);
    wire.extend(written(&out.actions));
    let mut state = out.next_state;
    for _ in 0..2 {
        now += 200;
        let mut i = input(state);
        i.ack = AgnssAck::Ack;
        let out = sm.step(&mut ag, i, now);
        wire.extend(written(&out.actions));
        state = out.next_state;
        assert_eq!(ag.current_retry, 0);
    }
    assert_eq!(state, GpsState::S2IdleGpsOff);
    assert_eq!(wire.len(), 2);
    assert_eq!(wire.concat().len(), 200);
    assert_eq!(wire[0], vec![1u8; 100]);
    assert_eq!(wire[1], vec![2u8; 100]);
    assert_eq!(ag.queue.len(), 0);
}

#[test]
fn agnss_retry_exhaustion_through_state_machine() {
    let mut sm = GpsStateMachine::new();
    let mut ag = AgnssState::new();
    ag.set_agnss_message_queue(&[vec![5u8; 40]]).unwrap();
    let mut now = 12_000;
    let out = sm.step(&mut ag, input(GpsState::S3TrackingFixed), now);
    // tracking without a fix drops back to searching before any upload
    assert_eq!(out.next_state, GpsState::S1GpsSearchingFix);
    let mut state = out.next_state;
    let mut writes = written(&out.actions).len();
    for _ in 0..10 {
        now += 200;
        let out = sm.step(&mut ag, input(state), now);
        writes += written(&out.actions).len();
        state = out.next_state;
        if state != GpsState::S5AgnssProcessing && writes > 0 {
            break;
        }
    }
    assert_eq!(writes, 3);
    assert_eq!(state, GpsState::S1GpsSearchingFix);
}

#[test]
fn idle_wakes_on_motion_and_tracks_fix() {
    let mut sm = GpsStateMachine::new();
    let mut ag = AgnssState::new();
    let out = sm.step(&mut ag, input(GpsState::S0Initializing), 0);
    assert_eq!(out.next_state, GpsState::S2IdleGpsOff);
    let out = sm.step(&mut ag, input(GpsState::S2IdleGpsOff), 200);
    assert_eq!(out.next_state, GpsState::S2IdleGpsOff);
    let mut i = input(GpsState::S2IdleGpsOff);
    i.is_stationary = false;
    let out = sm.step(&mut ag, i, 400);
    assert_eq!(out.next_state, GpsState::S1GpsSearchingFix);
    assert!(matches!(out.actions[..], [GpsAction::PowerOn]));
    let mut i = input(GpsState::S1GpsSearchingFix);
    i.location_valid = true;
    let out = sm.step(&mut ag, i, 600);
    assert_eq!(out.next_state, GpsState::S3TrackingFixed);
    assert!(matches!(out.actions[..], [GpsAction::RecordFix]));
    let mut i = input(GpsState::S3TrackingFixed);
    i.location_valid = true;
    i.is_stationary = false;
    let out = sm.step(&mut ag, i, 1_600);
    assert!(matches!(out.actions[..], [GpsAction::LogPoint]));
    // stationary for a full minute: analyze stillness, then idle on timeout
    i.is_stationary = true;
    assert_eq!(sm.step(&mut ag, i, 1_800).next_state, GpsState::S3TrackingFixed);
    let out = sm.step(&mut ag, i, 61_800);
    assert_eq!(out.next_state, GpsState::S4AnalyzingStillness);
    let s4 = input(GpsState::S4AnalyzingStillness);
    assert_eq!(sm.step(&mut ag, s4, 62_000).next_state, GpsState::S4AnalyzingStillness);
    let out = sm.step(&mut ag, s4, 66_800);
    assert_eq!(out.next_state, GpsState::S2IdleGpsOff);
    assert!(matches!(out.actions[..], [GpsAction::PowerOff]));
}

#[test]
fn stillness_returns_to_tracking_when_fast() {
    let mut sm = GpsStateMachine::new();
    let mut ag = AgnssState::new();
    let mut i = input(GpsState::S4AnalyzingStillness);
    assert_eq!(sm.step(&mut ag, i, 1_000).next_state, GpsState::S4AnalyzingStillness);
    i.location_valid = true;
    i.fast = true;
    assert_eq!(sm.step(&mut ag, i, 2_000).next_state, GpsState::S3TrackingFixed);
    let mut i = input(GpsState::S4AnalyzingStillness);
    i.keep_alive = true;
    assert_eq!(sm.step(&mut ag, i, 3_000).next_state, GpsState::S3TrackingFixed);
}

#[test]
fn search_timeouts_and_warm_restart() {
    let mut sm = GpsStateMachine::new();
    let mut ag = AgnssState::new();
    ag.set_agnss_message_queue(&[]).unwrap();
    let s1 = input(GpsState::S1GpsSearchingFix);
    assert_eq!(sm.step(&mut ag, s1, 0).next_state, GpsState::S1GpsSearchingFix);
    assert_eq!(sm.step(&mut ag, s1, 89_999).next_state, GpsState::S1GpsSearchingFix);
    assert_eq!(sm.step(&mut ag, s1, 90_000).next_state, GpsState::S2IdleGpsOff);
    // with keep-alive the attempt restarts in place; the 16th failure warm-restarts
    let mut k = s1;
    k.keep_alive = true;
    let mut now = 100_000;
    sm.step(&mut ag, k, now);
    let mut restarts = 0;
    for _ in 0..16 {
        now += 90_000;
        let out = sm.step(&mut ag, k, now);
        assert_eq!(out.next_state, GpsState::S1GpsSearchingFix);
        restarts += out.actions.iter().filter(|a| matches!(a, GpsAction::WarmRestart)).count();
    }
    assert_eq!(restarts, 1);
    assert!(has_elapsed(Some(10), 20, 10));
    assert!(!has_elapsed(None, 20, 10));
    assert!(has_elapsed(Some(u64::MAX), 5, 6));
}
