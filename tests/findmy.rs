use sha2::{Digest, Sha256};
use tracker_core::findmy::{
    advance_sk, battery_to_status, build_adv_payload, build_ble_address, counter_from_unix,
    derive_key_at, epoch_secs, kdf, secs_until_next_rotation_from_unix, SkCache,
};

fn block(input: &[u8], c: u32, info: &[u8]) -> Vec<u8> {
    let mut h = Sha256::new();
    h.update(input);
    h.update(c.to_be_bytes());
    h.update(info);
    h.finalize().to_vec()
}

#[test]
fn kdf_is_x963_with_sha256() {
    let input = [7u8; 32];
    let out = kdf(&input, b"diversify", 72);
    let mut expected = block(&input, 1, b"diversify");
    expected.extend(block(&input, 2, b"diversify"));
    expected.extend(&block(&input, 3, b"diversify")[..8]);
    assert_eq!(out, expected);
    assert_eq!(kdf(&input, b"update", 32), block(&input, 1, b"update"));
    assert!(kdf(&input, b"update", 0).is_empty());
}

#[test]
fn sk_chain_advances_by_update() {
    let sk0 = [1u8; 32];
    let sk1 = advance_sk(&sk0, 0, 1);
    assert_eq!(sk1.to_vec(), block(&sk0, 1, b"update"));
    let sk3 = advance_sk(&sk0, 0, 3);
    assert_eq!(advance_sk(&sk1, 1, 3), sk3);
    assert_eq!(advance_sk(&sk3, 5, 2), sk3);
}

#[test]
fn rolling_key_from_cache_matches_cold_start() {
    let master = [0x42u8; 28];
    let sk0 = [0x24u8; 32];
    let mut cold = SkCache::new();
    let a = derive_key_at(&mut cold, &master, &sk0, 5).unwrap();
    assert!(cold.valid);
    assert_eq!(cold.counter, 5);
    let mut warm = SkCache::new();
    derive_key_at(&mut warm, &master, &sk0, 2).unwrap();
    let b = derive_key_at(&mut warm, &master, &sk0, 5).unwrap();
    assert_eq!(a, b);
    assert_eq!(warm.sk, cold.sk);
    let c = derive_key_at(&mut warm, &master, &sk0, 6).unwrap();
    assert_ne!(a, c);
}

#[test]
fn findmy_payload_and_address() {
    let mut x = [0u8; 28];
    for (i, b) in x.iter_mut().enumerate() {
        *b = i as u8 + 0x80;
    }
    let p = build_adv_payload(&x, 0x50);
    assert_eq!(&p[..7], &[0x1e, 0xff, 0x4c, 0x00, 0x12, 0x19, 0x50]);
    assert_eq!(&p[7..29], &x[6..28]);
    assert_eq!(p[29], 0x80 >> 6);
    assert_eq!(p[30], 0);
    let a = build_ble_address(&x);
    assert_eq!(a, [0x85, 0x84, 0x83, 0x82, 0x81, 0x80 | 0xC0]);
}

#[test]
fn findmy_battery_status() {
    assert_eq!(battery_to_status(100), 0x10);
    assert_eq!(battery_to_status(81), 0x10);
    assert_eq!(battery_to_status(80), 0x50);
    assert_eq!(battery_to_status(31), 0x50);
    assert_eq!(battery_to_status(30), 0x90);
    assert_eq!(battery_to_status(11), 0x90);
    assert_eq!(battery_to_status(10), 0xD0);
    assert_eq!(battery_to_status(0), 0xD0);
}

#[test]
fn findmy_counter_and_rotation() {
    let epoch = 1_699_999_100;
    assert_eq!(counter_from_unix(epoch - 1, epoch), None);
    assert_eq!(counter_from_unix(1_700_000_000, epoch), Some(1));
    assert_eq!(counter_from_unix(epoch, epoch), Some(0));
    assert_eq!(secs_until_next_rotation_from_unix(1_700_000_000, epoch), Some(100));
    assert_eq!(secs_until_next_rotation_from_unix(1_700_000_100, epoch), Some(900));
    assert_eq!(secs_until_next_rotation_from_unix(0, epoch), None);
    let mut keys = [0u8; 68];
    keys[60..68].copy_from_slice(&epoch.to_le_bytes());
    assert_eq!(epoch_secs(&keys), epoch);
}
