use tracker_core::agnss::{AgnssAck, AgnssOutcome, AgnssState};
use tracker_core::clock::gps_unix_ts;
use tracker_core::eid::{fmdn_address, fmdn_step, AdvertiserEvent, FmdnAction, FmdnDiagState, FmdnSession};
use tracker_core::findmy::{findmy_step, FindMyAction, FindMySession};
use tracker_core::gps_state_machine::{GpsAction, GpsStateMachine, StepInput};
use tracker_core::log_codec::GpxPointInternal;
use tracker_core::log_store::{log_files, plan_delete, DeletePlan, DirEntryInfo, LogStore};
use tracker_core::protocol::{FileTransferProtocol, ListDirOutcome};
use tracker_core::system_info::GpsState;
use sha2::{Digest, Sha256};

#[test]
fn unanswered_message_is_abandoned_for_the_next() {
    let mut st = AgnssState::new();
    st.set_agnss_message_queue(&[vec![1u8; 4], vec![2u8; 4]]).unwrap();
    let mut sent = vec![st.start_processing(20_000, GpsState::S2IdleGpsOff).unwrap().as_slice().to_vec()];
    loop {
        match st.retry_or_fail() {
            AgnssOutcome::Send(m) => sent.push(m.as_slice().to_vec()),
            AgnssOutcome::Complete => break,
        }
    }
    assert_eq!(sent, vec![vec![1u8; 4], vec![1u8; 4], vec![1u8; 4], vec![2u8; 4], vec![2u8; 4], vec![2u8; 4]]);
}

#[test]
fn state_machine_writes_each_message_three_times_without_reply() {
    let mut sm = GpsStateMachine::new();
    let mut ag = AgnssState::new();
    ag.set_agnss_message_queue(&[vec![7u8; 10], vec![8u8; 10]]).unwrap();
    let mut state = GpsState::S2IdleGpsOff;
    let mut writes = Vec::new();
    let mut now = 20_000;
    for _ in 0..20 {
        let out = sm.step(
            &mut ag,
            StepInput { state, location_valid: false, is_stationary: true, keep_alive: false, fast: false, ack: AgnssAck::NoReply },
            now,
        );
        for a in &out.actions {
            if let GpsAction::Write(m) = a {
                writes.push(m.as_slice()[0]);
            }
        }
        state = out.next_state;
        now += 200;
        if state == GpsState::S2IdleGpsOff && !writes.is_empty() {
            break;
        }
    }
    assert_eq!(writes, vec![7, 7, 7, 8, 8, 8]);
}

#[test]
fn new_day_and_deleted_log_restart_with_anchor() {
    let mut s = LogStore::new();
    s.start_day(20240101);
    let p = GpxPointInternal { timestamp: 5, latitude_scaled_1e7: 1, longitude_scaled_1e7: 1, altitude_m_scaled_1e1: 1 };
    s.stage(p);
    assert!(!s.commit());
    let q = GpxPointInternal { timestamp: 6, ..p };
    s.stage(q);
    s.commit();
    s.drop_active_log();
    let (len, _) = s.stage(q);
    assert_eq!(len, 17);
    s.flushed();
    s.start_day(20240102);
    assert_eq!(s.stage(p).0, 17);
}

#[test]
fn delete_plans() {
    let active = *b"20240101.gpz";
    assert!(matches!(plan_delete(b"/20240101.gpz", true, &active), DeletePlan::Refuse));
    assert!(matches!(plan_delete(b"", false, &active), DeletePlan::Refuse));
    assert!(matches!(plan_delete(b"///", false, &active), DeletePlan::Refuse));
    assert!(matches!(plan_delete(&[b'a'; 64], false, &active), DeletePlan::Refuse));
    match plan_delete(b"/20240101.GPZ/", false, &active) {
        DeletePlan::Delete { dir, name, is_active } => {
            assert!(dir.is_empty());
            assert_eq!(name, b"20240101.GPZ".to_vec());
            assert!(is_active);
        }
        DeletePlan::Refuse => panic!("expected a delete"),
    }
    match plan_delete(b"logs/old/x.gpz", false, &active) {
        DeletePlan::Delete { dir, name, is_active } => {
            assert_eq!(dir, b"logs/old".to_vec());
            assert_eq!(name, b"x.gpz".to_vec());
            assert!(!is_active);
        }
        DeletePlan::Refuse => panic!("expected a delete"),
    }
}

#[test]
fn only_gpz_files_are_log_files() {
    let e = |n: &[u8; 11], d: bool, s: u32| DirEntryInfo { name: *n, is_dir: d, size: s };
    let logs = log_files(&[e(b"20240101GPZ", false, 5), e(b"README  TXT", false, 9), e(b"LOGS    GPZ", true, 0), e(b"20240102gpz", false, 7)]);
    assert_eq!(logs.len(), 2);
    assert_eq!(logs[0].size, 5);
    assert_eq!(logs[1].size, 7);
}

#[test]
fn fmdn_session_steps() {
    let mut s = FmdnSession::new();
    let eik = [3u8; 32];
    assert!(matches!(fmdn_step(&mut s, &eik, AdvertiserEvent::Poll { unix_ts: Some(1) }), FmdnAction::Wait { secs: 1 }));
    s.control.set_enabled(true);
    assert!(matches!(fmdn_step(&mut s, &eik, AdvertiserEvent::Poll { unix_ts: None }), FmdnAction::Wait { secs: 5 }));
    assert_eq!(s.control.diag_state(), FmdnDiagState::WaitingGpsTime);
    assert!(matches!(fmdn_step(&mut s, &eik, AdvertiserEvent::Poll { unix_ts: Some(1_700_000_000) }), FmdnAction::Acquire));
    match fmdn_step(&mut s, &eik, AdvertiserEvent::Granted { unix_ts: Some(1_700_000_000), battery_percent: 50 }) {
        FmdnAction::Advertise { eid, payload, address, secs } => {
            assert_eq!(&payload[8..28], &eid.eid);
            let h = Sha256::digest(eid.eid);
            assert_eq!(&address[..5], &h[..5]);
            assert_eq!(address[5], h[5] | 0xC0);
            assert_eq!(address, fmdn_address(&eid.eid));
            assert_eq!(secs, 1024 - 1_700_000_000 % 1024 + 1);
        }
        _ => panic!("expected advertising"),
    }
    assert!(matches!(fmdn_step(&mut s, &eik, AdvertiserEvent::Stop), FmdnAction::StopAndRelease));
}

#[test]
fn findmy_session_persists_forward_only() {
    let mut keys = [0x11u8; 68];
    keys[60..68].copy_from_slice(&1_699_999_100u64.to_le_bytes());
    let mut s = FindMySession::new();
    s.control.set_enabled(true);
    let grant = |ts| AdvertiserEvent::Granted { unix_ts: Some(ts), battery_percent: 90 };
    match findmy_step(&mut s, &keys, grant(1_700_000_000)) {
        FindMyAction::Advertise { persist, payload, secs, .. } => {
            assert_eq!(persist.map(|p| p.1), Some(1));
            assert_eq!(payload[6], 0x10);
            assert_eq!(secs, 101);
        }
        _ => panic!("expected advertising"),
    }
    match findmy_step(&mut s, &keys, grant(1_700_000_050)) {
        FindMyAction::Advertise { persist, .. } => assert!(persist.is_none()),
        _ => panic!("expected advertising"),
    }
    match findmy_step(&mut s, &keys, grant(1_700_000_900)) {
        FindMyAction::Advertise { persist, .. } => assert_eq!(persist.map(|p| p.1), Some(2)),
        _ => panic!("expected advertising"),
    }
    assert!(matches!(findmy_step(&mut s, &keys, grant(1_600_000_000)), FindMyAction::Release { then_wait_secs: 10 }));
    assert_eq!(s.persisted_counter, Some(2));
}

#[test]
fn gps_time_and_listing_responses() {
    assert_eq!(gps_unix_ts(true, 2023, 11, 14, 22, 13, 20), Some(1_700_000_000));
    assert_eq!(gps_unix_ts(false, 2023, 11, 14, 22, 13, 20), None);
    let mut p = FileTransferProtocol::new();
    let n = p.encode_list_outcome(&ListDirOutcome::Done);
    assert_eq!(p.response(n), &[1, 0, 0]);
    let n = p.encode_list_outcome(&ListDirOutcome::Error);
    assert_eq!(p.response(n), &[0, 0]);
    let n = p.encode_open_result(Some(0x0102));
    assert_eq!(p.response(n), &[4, 0, 2, 1, 0, 0]);
    let n = p.encode_read_result(&[9, 8]);
    assert_eq!(p.response(n), &[4, 0, 2, 0, 9, 8]);
}
