use tracker_core::casic::{CasicParser, CasicParserState};

fn frame(class_id: u8, msg_id: u8, payload: &[u8], corrupt: bool) -> Vec<u8> {
    let len = payload.len() as u16;
    let mut sum: u32 = ((msg_id as u32) << 24) | ((class_id as u32) << 16) | len as u32;
    for w in payload.chunks(4) {
        sum = sum.wrapping_add(u32::from_le_bytes([w[0], w[1], w[2], w[3]]));
    }
    if corrupt {
        sum ^= 1;
    }
    let mut out = vec![0xBA, 0xCE, (len & 0xFF) as u8, (len >> 8) as u8, class_id, msg_id];
    out.extend_from_slice(payload);
    out.extend_from_slice(&sum.to_le_bytes());
    out
}

#[test]
fn casic_ack_happy_path() {
    let mut p = CasicParser::new();
    let payload = [0x01u8, 0x02, 0x03, 0x04, 0x05, 0x06, 0x07, 0x08];
    let cksum: u32 = ((0x01u32 << 24) | (0x05 << 16) | 0x0008)
        .wrapping_add(0x04030201)
        .wrapping_add(0x08070605);
    let mut bytes = vec![0xBA, 0xCE, 0x08, 0x00, 0x05, 0x01];
    bytes.extend_from_slice(&payload);
    bytes.extend_from_slice(&cksum.to_le_bytes());
    let mut completions = 0;
    let mut acks_seen = 0;
    for (i, b) in bytes.iter().enumerate() {
        if p.encode(*b, i as u64) {
            completions += 1;
        }
        if p.has_new_ack() {
            acks_seen += 1;
            p.clear_casic_data();
        }
    }
    assert_eq!(completions, 1);
    assert_eq!(acks_seen, 1);
    assert!(!p.has_new_ack());
    assert!(!p.has_new_nack());
    let pkt = p.last_casic_packet();
    assert!(pkt.valid);
    assert_eq!(pkt.checksum, cksum);
    assert_eq!(pkt.calculated_checksum, cksum);
    assert_eq!(pkt.payload_length, 8);
    assert_eq!(&pkt.payload[..8], &payload);
    assert_eq!(p.parser_state(), CasicParserState::Idle);
}

#[test]
fn casic_bad_checksum_is_dropped() {
    let mut p = CasicParser::new();
    let mut completed = false;
    for b in frame(0x05, 0x01, &[1, 2, 3, 4], true) {
        completed |= p.encode(b, 0);
    }
    assert!(completed);
    assert!(!p.is_new_casic_data());
    assert!(!p.last_casic_packet().valid);
}

#[test]
fn casic_partial_frame_gives_no_event() {
    let mut p = CasicParser::new();
    let f = frame(0x05, 0x00, &[9, 9, 9, 9], false);
    for b in &f[..f.len() - 1] {
        assert!(!p.encode(*b, 0));
        assert!(!p.is_new_casic_data());
    }
    assert_eq!(p.parser_state(), CasicParserState::Checksum4);
    assert!(p.encode(f[f.len() - 1], 0));
    assert!(p.has_new_nack());
}

#[test]
fn casic_timeout_resets_frame() {
    let mut p = CasicParser::new();
    let f = frame(0x08, 0x07, &[], false);
    p.encode(f[0], 0);
    p.encode(f[1], 10);
    // the rest arrives more than 30 s later: the frame restarts from Idle
    let mut done = false;
    for b in &f[2..] {
        done |= p.encode(*b, 40_011);
    }
    assert!(!done);
    assert!(!p.is_new_casic_data());
    for b in &f {
        p.encode(*b, 50_000);
    }
    assert!(p.has_new_ephemeris());
}

#[test]
fn casic_oversized_length_resets() {
    let mut p = CasicParser::new();
    for b in [0xBA, 0xCE, 0x04, 0x01] {
        p.encode(b, 0);
    }
    assert_eq!(p.parser_state(), CasicParserState::Idle);
    p.encode(0xBA, 1);
    p.reset(2);
    assert_eq!(p.parser_state(), CasicParserState::Idle);
}

#[test]
fn casic_resync_after_noise() {
    let mut p = CasicParser::new();
    let mut stream = vec![0x00, 0xBA, 0xBA, 0x13];
    stream.extend(frame(0x05, 0x01, &[0xFF; 8], false));
    for b in stream {
        p.encode(b, 5);
    }
    assert!(p.has_new_ack());
}
