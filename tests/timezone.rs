use tracker_core::timezone::{date_time_to_unix_timestamp, UtcOffset};

const SECS_PER_DAY: u32 = 86_400;

#[test]
fn unix_epoch_zero() {
    assert_eq!(date_time_to_unix_timestamp(1970, 1, 1, 0, 0, 0), Some(0));
}

#[test]
fn leap_year_2000_feb29() {
    let feb28 = date_time_to_unix_timestamp(2000, 2, 28, 0, 0, 0).unwrap();
    let mar1 = date_time_to_unix_timestamp(2000, 3, 1, 0, 0, 0).unwrap();
    assert_eq!(mar1 - feb28, 2 * SECS_PER_DAY);
}

#[test]
fn non_leap_year_2100() {
    let feb28 = date_time_to_unix_timestamp(2100, 2, 28, 0, 0, 0).unwrap();
    let mar1 = date_time_to_unix_timestamp(2100, 3, 1, 0, 0, 0).unwrap();
    assert_eq!(mar1 - feb28, SECS_PER_DAY);
}

#[test]
fn rejects_invalid_date_time() {
    assert!(date_time_to_unix_timestamp(2024, 0, 1, 0, 0, 0).is_none());
    assert!(date_time_to_unix_timestamp(2024, 13, 1, 0, 0, 0).is_none());
    assert!(date_time_to_unix_timestamp(2024, 2, 30, 0, 0, 0).is_none());
    assert!(date_time_to_unix_timestamp(2024, 1, 1, 24, 0, 0).is_none());
    assert!(date_time_to_unix_timestamp(2024, 1, 1, 0, 60, 0).is_none());
    assert!(date_time_to_unix_timestamp(2024, 1, 1, 0, 0, 60).is_none());
    assert!(date_time_to_unix_timestamp(2101, 1, 1, 0, 0, 0).is_none());
}

#[test]
fn known_timestamps() {
    assert_eq!(date_time_to_unix_timestamp(2023, 11, 14, 22, 13, 20), Some(1_700_000_000));
    assert_eq!(date_time_to_unix_timestamp(2100, 12, 31, 23, 59, 59), Some(4_133_980_799));
    assert_eq!(date_time_to_unix_timestamp(2024, 2, 29, 12, 0, 0), Some(1_709_208_000));
    assert!(date_time_to_unix_timestamp(1969, 12, 31, 23, 59, 59).is_none());
    assert!(date_time_to_unix_timestamp(2023, 2, 29, 0, 0, 0).is_none());
    assert!(date_time_to_unix_timestamp(2024, 4, 0, 0, 0, 0).is_none());
}

#[test]
fn utc_offset_parts() {
    let o = UtcOffset::from_minutes(330);
    assert_eq!((o.hours(), o.minutes(), o.is_positive()), (5, 30, true));
    let o = UtcOffset::from_minutes(-210);
    assert_eq!((o.hours(), o.minutes(), o.is_positive()), (-3, 30, false));
    let o = UtcOffset::from_minutes(0);
    assert_eq!((o.hours(), o.minutes(), o.is_positive()), (0, 0, true));
}
