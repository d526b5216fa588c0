use tracker_core::log_codec::GpxPointInternal;
use tracker_core::log_store::{find_oldest_index, plan_eviction, GpxFileInfo, LogStore, CACHE_SIZE};

fn file(name: &[u8; 11], size: u32) -> GpxFileInfo {
    GpxFileInfo { name: *name, size }
}

#[test]
fn eviction_deletes_oldest_until_under_budget() {
    let files = [
        file(b"20240103GPZ", 400),
        file(b"20240101GPZ", 300),
        file(b"20240102GPZ", 200),
        file(b"20240104GPZ", 100),
    ];
    assert_eq!(find_oldest_index(&files), 1);
    assert_eq!(plan_eviction(&files, 1_000), Vec::<usize>::new());
    assert_eq!(plan_eviction(&files, 700), vec![1]);
    assert_eq!(plan_eviction(&files, 500), vec![1, 2]);
    assert_eq!(plan_eviction(&files, 450), vec![1, 2, 0]);
    assert_eq!(plan_eviction(&files, 0), vec![1, 2, 0, 3]);
    assert_eq!(plan_eviction(&[], 0), Vec::<usize>::new());
}

#[test]
fn timestamps_zero_or_jumping_are_rejected() {
    let mut s = LogStore::new();
    assert!(!s.accept_timestamp(0, 10));
    assert!(s.accept_timestamp(1_700_000_000, 10));
    assert!(s.accept_timestamp(1_700_000_100, 110));
    // GPS time jumped two hours while the monotonic clock moved 10 s
    assert!(!s.accept_timestamp(1_700_007_300, 120));
    assert!(s.accept_timestamp(1_700_003_700, 120));
}

#[test]
fn day_rotation_and_cache_flush_points() {
    let mut s = LogStore::new();
    let code = LogStore::date_code(1_700_000_000);
    assert_eq!(code, 20231114);
    assert!(s.needs_rotation(code));
    s.start_day(code);
    assert_eq!(s.current_date(), 20231114);
    assert!(!s.needs_rotation(LogStore::date_code(1_700_000_000 + 3_600)));
    assert!(s.needs_rotation(LogStore::date_code(1_700_000_000 + 86_400)));
    let mut flushes = 0;
    let mut written = 0usize;
    for k in 0..2_000u32 {
        let p = GpxPointInternal {
            timestamp: 1_700_000_000 + k,
            latitude_scaled_1e7: 400_000_000 + k as i32,
            longitude_scaled_1e7: -740_000_000,
            altitude_m_scaled_1e1: 100,
        };
        let (len, flush_first) = s.stage(p);
        if flush_first {
            written += s.cache().len();
            s.flushed();
            flushes += 1;
        }
        assert!(len > 0);
        if s.commit() {
            written += s.cache().len();
            s.flushed();
            flushes += 1;
        }
        assert!(s.cache().len() < CACHE_SIZE);
    }
    assert!(flushes >= 1);
    assert!(written + s.cache().len() > CACHE_SIZE);
    s.drop_active_log();
    assert!(s.cache().is_empty());
}
