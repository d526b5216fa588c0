use tracker_core::agnss::{AgnssAck, AgnssState};
use tracker_core::gps_state_machine::{GpsAction, GpsStateMachine, StepInput};
use tracker_core::log_codec::GpxPointInternal;
use tracker_core::log_store::{list_entry_at, DirEntryInfo, ListingCursor, LogStore};
use tracker_core::nmea::NmeaBuffer;
use tracker_core::system_info::GpsState;

#[test]
fn listing_restarts_on_another_path() {
    let mut c = ListingCursor::new();
    assert!(c.start(b"/logs"));
    c.advance();
    c.advance();
    assert!(!c.start(b"/logs"));
    assert_eq!(c.index, 2);
    assert!(c.start(b"/other"));
    assert_eq!(c.index, 0);
    c.finish();
    assert!(c.start(b"/other"));
}

#[test]
fn listing_skips_dot_entries() {
    let e = |n: &[u8; 11]| DirEntryInfo { name: *n, is_dir: true, size: 0 };
    let entries = [e(b".          "), e(b"..         "), e(b"A       GPZ"), e(b"B       GPZ")];
    assert_eq!(list_entry_at(&entries, 0), Some(2));
    assert_eq!(list_entry_at(&entries, 1), Some(3));
    assert_eq!(list_entry_at(&entries, 2), None);
}

#[test]
fn staged_record_follows_the_session() {
    let mut s = LogStore::new();
    s.start_day(20240101);
    let p = GpxPointInternal { timestamp: 10, latitude_scaled_1e7: 5, longitude_scaled_1e7: 5, altitude_m_scaled_1e1: 5 };
    assert_eq!(s.stage(p).0, 17);
    s.commit();
    let q = GpxPointInternal { timestamp: 11, ..p };
    assert_eq!(s.stage(q).0, 2);
}

#[test]
fn ascii_sentences_read_as_text() {
    let mut b = NmeaBuffer::new();
    let mut n = None;
    for c in b"$GPRMC,1\n" {
        n = b.push(*c).or(n);
    }
    assert_eq!(b.as_str(n.unwrap()), Some("$GPRMC,1"));
}

#[test]
fn step_powers_and_resets_timers() {
    let mut sm = GpsStateMachine::new();
    let mut ag = AgnssState::new();
    ag.set_agnss_message_queue(&[]).unwrap();
    let i = |state, stationary| StepInput { state, location_valid: false, is_stationary: stationary, keep_alive: false, fast: false, ack: AgnssAck::NoReply };
    let out = sm.step(&mut ag, i(GpsState::S2IdleGpsOff, false), 1_000);
    assert!(matches!(out.actions[..], [GpsAction::PowerOn]));
    assert_eq!(sm.fix_attempt_start, Some(1_000));
    assert!(sm.is_gps_powered_on);
    let out = sm.step(&mut ag, i(GpsState::S1GpsSearchingFix, true), 91_000);
    assert_eq!(out.next_state, GpsState::S2IdleGpsOff);
    assert!(matches!(out.actions[..], [GpsAction::PowerOff]));
    assert_eq!(sm.fix_attempt_start, None);
    assert_eq!(sm.consecutive_fix_failures, 1);
    assert!(sm.is_first_fix_attempt_cycle);
}
