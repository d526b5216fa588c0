use tracker_core::log_codec::{decode_record, GpsDataEncoder, GpxPointInternal, FULL_BLOCK_INTERVAL};

fn pt(ts: u32, lat: i32, lon: i32, alt: i32) -> GpxPointInternal {
    GpxPointInternal {
        timestamp: ts,
        latitude_scaled_1e7: lat,
        longitude_scaled_1e7: lon,
        altitude_m_scaled_1e1: alt,
    }
}

#[test]
fn log_codec_rollover() {
    let mut enc = GpsDataEncoder::new(FULL_BLOCK_INTERVAL);
    let ts = 1_700_000_000u32;
    let lat = (40.0f64 * 1e7).round() as i32;
    let lon = (-74.0f64 * 1e7).round() as i32;
    let alt = (10.0f64 * 10.0).round() as i32;
    assert_eq!(enc.encode(pt(ts, lat, lon, alt)), 17);
    assert_eq!(enc.buffer()[0], 0xFE);
    for i in 1..=63u32 {
        enc.encode(pt(ts + i, lat + i as i32, lon, alt));
        assert_eq!(enc.buffer()[0], 0x10 | 0x08 | 0x04);
    }
    enc.encode(pt(ts + 64, lat + 64, lon, alt));
    assert_eq!(enc.buffer()[0], 0xFE);
}

#[test]
fn anchors_every_interval() {
    let mut enc = GpsDataEncoder::new(64);
    for k in 0..200u32 {
        enc.encode(pt(k, 0, 0, 0));
        assert_eq!(enc.buffer()[0] == 0xFE, k % 64 == 0, "record {}", k);
    }
}

#[test]
fn full_record_layout() {
    let mut enc = GpsDataEncoder::new(64);
    enc.encode(pt(0x01020304, -1, 0x7FFF_FFFF, 100));
    assert_eq!(
        enc.buffer(),
        &[
            0xFE, 0x04, 0x03, 0x02, 0x01, 0xFF, 0xFF, 0xFF, 0xFF, 0xFF, 0xFF, 0xFF, 0x7F, 100, 0,
            0, 0
        ]
    );
}

#[test]
fn delta_record_layout() {
    let mut enc = GpsDataEncoder::new(64);
    enc.encode(pt(1000, 500, 500, 10));
    // dt = 1 -> zz 2; dlat = -1 -> zz 1; dlon = 0 (absent); dalt = 100 -> zz 200 -> C8 01
    let n = enc.encode(pt(1001, 499, 500, 110));
    assert_eq!(n, 5);
    assert_eq!(enc.buffer(), &[0x10 | 0x08 | 0x04 | 0x01, 0x02, 0x01, 0xC8, 0x01]);
    // nothing changed: header only
    assert_eq!(enc.encode(pt(1001, 499, 500, 110)), 1);
    assert_eq!(enc.buffer(), &[0x10]);
}

#[test]
fn delta_wraps_extreme_values() {
    let mut enc = GpsDataEncoder::new(64);
    enc.encode(pt(0, i32::MIN, 0, 0));
    enc.encode(pt(0, i32::MAX, 0, 0));
    // difference wraps to -1 -> zigzag 1
    assert_eq!(enc.buffer(), &[0x14, 0x01]);
    enc.encode(pt(0, i32::MAX, i32::MIN, 0));
    // dlon = i32::MIN -> zigzag 0xFFFF_FFFF -> five bytes
    assert_eq!(enc.buffer(), &[0x12, 0xFF, 0xFF, 0xFF, 0xFF, 0x0F]);
}

#[test]
fn clear_restarts_with_anchor() {
    let mut enc = GpsDataEncoder::new(0);
    enc.encode(pt(1, 1, 1, 1));
    // an interval of 0 counts as 1: every record is an anchor
    enc.encode(pt(2, 1, 1, 1));
    assert_eq!(enc.buffer()[0], 0xFE);
    let mut enc = GpsDataEncoder::new(64);
    enc.encode(pt(1, 1, 1, 1));
    enc.encode(pt(2, 1, 1, 1));
    assert_eq!(enc.buffer()[0], 0x18);
    enc.clear();
    assert!(enc.buffer().is_empty());
    enc.encode(pt(3, 1, 1, 1));
    assert_eq!(enc.buffer()[0], 0xFE);
}

#[test]
fn decode_reads_back_what_encode_wrote() {
    let pts = [
        pt(1_700_000_000, 400_000_000, -740_000_000, 100),
        pt(1_700_000_001, 400_000_001, -740_000_000, 100),
        pt(1_700_000_001, 400_000_001, -740_000_000, 100),
        pt(1_700_000_900, i32::MIN, i32::MAX, -5),
        pt(0, i32::MAX, i32::MIN, 7),
    ];
    let mut enc = GpsDataEncoder::new(64);
    let mut prev = pt(0, 0, 0, 0);
    for p in pts {
        enc.encode(p);
        let mut bytes = enc.buffer().to_vec();
        bytes.extend_from_slice(&[0xAA, 0xBB]);
        let (q, n) = decode_record(&bytes, prev).unwrap();
        assert_eq!(q, p);
        assert_eq!(n, enc.buffer().len());
        prev = p;
    }
    assert!(decode_record(&[], prev).is_none());
    assert!(decode_record(&[0xFE, 1, 2], prev).is_none());
    assert!(decode_record(&[0x20], prev).is_none());
    assert!(decode_record(&[0x18, 0x80, 0x80], prev).is_none());
}
