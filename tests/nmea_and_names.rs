use tracker_core::eid::{AdvertiserControl as FmdnControl, FmdnDiagState};
use tracker_core::findmy::{AdvertiserControl as FindMyControl, FindMyDiagState};
use tracker_core::log_name::{build_log_filename, is_leap_year, two_digits, unix_to_date, year_to_digits};
use tracker_core::nmea::{location_valid, NmeaBuffer};
use tracker_core::timezone::date_time_to_unix_timestamp;

#[test]
fn nmea_sentence_accumulates_to_line_feed() {
    let mut b = NmeaBuffer::new();
    let mut done = None;
    for c in b"noise$GPGGA,1*00\r\n" {
        if let Some(n) = b.push(*c) {
            done = Some(n);
        }
    }
    let n = done.unwrap();
    assert_eq!(b.as_str(n), Some("$GPGGA,1*00"));
    // bytes outside a sentence are ignored
    assert_eq!(b.push(b'x'), None);
    // an over-long sentence is dropped
    b.push(b'$');
    for _ in 0..200 {
        b.push(b'A');
    }
    assert_eq!(b.push(b'\n'), None);
    b.reset();
    assert_eq!(b.push(b'\n'), None);
}

#[test]
fn log_file_names_follow_utc_days() {
    assert_eq!(unix_to_date(0), (1970, 1, 1));
    assert_eq!(unix_to_date(1_700_000_000), (2023, 11, 14));
    assert_eq!(unix_to_date(951_782_400), (2000, 2, 29));
    assert_eq!(unix_to_date(4_107_542_400), (2100, 3, 1));
    assert_eq!(unix_to_date(u32::MAX), (2106, 2, 7));
    for ts in [86_399u32, 86_400, 1_709_208_000, 4_133_980_799] {
        let (y, m, d) = unix_to_date(ts);
        let start = date_time_to_unix_timestamp(y, m, d, 0, 0, 0).unwrap();
        assert_eq!(start / 86_400, ts / 86_400);
    }
    assert_eq!(&build_log_filename(2024, 3, 7), b"20240307.gpz");
    assert_eq!(year_to_digits(1999), *b"1999");
    assert_eq!(two_digits(5), *b"05");
    assert!(is_leap_year(2000) && !is_leap_year(2100) && is_leap_year(2024));
}

#[test]
fn diagnostic_states_round_trip() {
    for raw in 0..=7u8 {
        assert!(FindMyDiagState::from_raw(raw).is_some());
        assert!(FmdnDiagState::from_raw(raw).is_some());
    }
    assert_eq!(FindMyDiagState::from_raw(3), Some(FindMyDiagState::AddressReady));
    assert_eq!(FmdnDiagState::from_raw(3), Some(FmdnDiagState::EidReady));
    assert_eq!(FmdnDiagState::from_raw(8), None);
    let mut c = FindMyControl::new();
    assert!(!c.is_enabled());
    c.set_enabled(true);
    assert!(c.is_enabled());
    assert_eq!(c.diag_state(), FindMyDiagState::WaitingGpsTime);
    c.set_diag_state(FindMyDiagState::Advertising);
    c.set_enabled(false);
    assert_eq!(c.diag_state(), FindMyDiagState::Disabled);
    let mut f = FmdnControl::new();
    f.set_enabled(true);
    assert_eq!(f.diag_state(), FmdnDiagState::WaitingGpsTime);
}

#[test]
fn fix_quality_gate() {
    assert!(location_valid(true, 2025, 4, true, false));
    assert!(!location_valid(true, 2025, 4, false, false));
    assert!(location_valid(true, 2025, 4, false, true));
    assert!(!location_valid(true, 2025, 3, true, true));
    assert!(!location_valid(true, 2024, 8, true, false));
    assert!(!location_valid(false, 2025, 8, true, false));
}
