use tracker_core::eid::{
    battery_to_flags, build_adv_payload, build_aes_input, compute_eid, secs_until_next_rotation,
};

#[test]
fn test_build_aes_input() {
    let block = build_aes_input(1700000000);
    for i in 0..11 {
        assert_eq!(block[i], 0xFF, "byte {} should be 0xFF", i);
    }
    assert_eq!(block[11], 10);
    let expected_ts = (1700000000u32) & 0xFFFF_FC00;
    let ts_bytes = expected_ts.to_be_bytes();
    assert_eq!(&block[12..16], &ts_bytes);
    for i in 16..27 {
        assert_eq!(block[i], 0x00, "byte {} should be 0x00", i);
    }
    assert_eq!(block[27], 10);
    assert_eq!(&block[28..32], &ts_bytes);
}

#[test]
fn aes_input_masks_low_ten_bits() {
    let slot = 1_700_000_000u64 & !0x3FF;
    let block = build_aes_input(slot + 1023);
    assert_eq!(&block[12..16], &(slot as u32).to_be_bytes());
    let block = build_aes_input(slot + 1024);
    assert_eq!(&block[12..16], &((slot + 1024) as u32).to_be_bytes());
    let block = build_aes_input(0x1_0000_0400);
    assert_eq!(&block[12..16], &[0x00, 0x00, 0x04, 0x00]);
}

#[test]
fn test_build_adv_payload() {
    let eid = [0x42u8; 20];
    let payload = build_adv_payload(&eid, 0xAB, false);
    assert_eq!(payload.len(), 29);
    assert_eq!(payload[0], 0x02);
    assert_eq!(payload[1], 0x01);
    assert_eq!(payload[2], 0x06);
    assert_eq!(payload[3], 0x19);
    assert_eq!(payload[4], 0x16);
    assert_eq!(payload[5], 0xAA);
    assert_eq!(payload[6], 0xFE);
    assert_eq!(payload[7], 0x40);
    assert_eq!(&payload[8..28], &[0x42u8; 20]);
    assert_eq!(payload[28], 0xAB);
}

#[test]
fn test_build_adv_payload_utp() {
    let eid = [0x00u8; 20];
    let payload = build_adv_payload(&eid, 0x00, true);
    assert_eq!(payload[7], 0x41);
}

#[test]
fn test_battery_to_flags() {
    assert_eq!(battery_to_flags(100), 0b01 << 5);
    assert_eq!(battery_to_flags(50), 0b01 << 5);
    assert_eq!(battery_to_flags(31), 0b01 << 5);
    assert_eq!(battery_to_flags(30), 0b10 << 5);
    assert_eq!(battery_to_flags(15), 0b10 << 5);
    assert_eq!(battery_to_flags(10), 0b11 << 5);
    assert_eq!(battery_to_flags(0), 0b11 << 5);
}

#[test]
fn test_secs_until_next_rotation() {
    assert_eq!(secs_until_next_rotation(0), 1024);
    assert_eq!(secs_until_next_rotation(1024), 1024);
    assert_eq!(secs_until_next_rotation(1), 1023);
    assert_eq!(secs_until_next_rotation(500), 524);
}

#[test]
fn rotation_lands_on_boundary() {
    for ts in [1_700_000_000u64, 1_700_000_001, 123_456_789, u64::MAX - 5000] {
        let s = secs_until_next_rotation(ts);
        assert!(s > 0 && s <= 1024);
        assert_eq!((ts as u128 + s as u128) % 1024, 0);
    }
}

#[test]
fn eid_depends_on_key_and_slot() {
    let eik = [0x11u8; 32];
    let slot = 1_700_000_000u64 & !0x3FF;
    let a = compute_eid(&eik, slot, 0x20);
    let b = compute_eid(&eik, slot + 1023, 0x20);
    let c = compute_eid(&eik, slot + 1024, 0x20);
    let d = compute_eid(&[0x22u8; 32], slot, 0x20);
    assert_eq!(a.eid, b.eid);
    assert_eq!(a.masked_ts, 1_700_000_000 & 0xFFFF_FC00);
    assert_ne!(a.eid, c.eid);
    assert_ne!(a.eid, d.eid);
    assert_ne!(a.eid, [0u8; 20]);
    // the flags byte carries the battery bits through the hash
    let e = compute_eid(&eik, slot, 0x60);
    assert_eq!(a.hashed_flags ^ e.hashed_flags, 0x20 ^ 0x60);
}
