use tracker_core::clock::{unix_ts_with_fallback, KeepAlive, TimeAnchor};

#[test]
fn keep_alive_deadline() {
    let mut k = KeepAlive::new();
    assert!(!k.is_keep_alive_active(0));
    assert!(k.set_gps_keep_alive(2, 1_000));
    assert_eq!(k.get_keep_alive_remaining_s(1_000), 120);
    assert!(k.is_keep_alive_active(120_999));
    assert_eq!(k.get_keep_alive_remaining_s(60_999), 60);
    assert!(!k.is_keep_alive_active(121_000));
    assert_eq!(k.deadline, None);
    assert!(k.set_gps_keep_alive(5, 0));
    assert!(!k.set_gps_keep_alive(0, 10));
    assert!(!k.is_keep_alive_active(20));
    assert!(k.set_gps_keep_alive(1, u64::MAX - 5));
    assert_eq!(k.deadline, Some(u64::MAX));
}

#[test]
fn gps_time_fallback() {
    let mut anchor: Option<TimeAnchor> = None;
    assert_eq!(unix_ts_with_fallback(&mut anchor, None, 5_000), None);
    assert_eq!(unix_ts_with_fallback(&mut anchor, Some(1_700_000_000), 10_000), Some(1_700_000_000));
    assert_eq!(unix_ts_with_fallback(&mut anchor, None, 12_999), Some(1_700_000_002));
    assert_eq!(unix_ts_with_fallback(&mut anchor, None, 9_000), Some(1_700_000_000));
    assert_eq!(unix_ts_with_fallback(&mut anchor, Some(1_700_000_100), 20_000), Some(1_700_000_100));
    assert_eq!(anchor.unwrap().monotonic_ms, 20_000);
}
