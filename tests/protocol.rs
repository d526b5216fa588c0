use tracker_core::protocol::{parse_request, Command, CommandState, FileTransferProtocol, Request};

fn feed(p: &mut FileTransferProtocol, bytes: &[u8]) -> Vec<Command> {
    let mut out = Vec::new();
    for b in bytes {
        if let Some(c) = p.push_byte(*b) {
            out.push(c);
        }
    }
    out
}

#[test]
fn frames_commands_and_parses_requests() {
    let mut p = FileTransferProtocol::new();
    let cmds = feed(&mut p, &[0x0B, 0x02, 0x00, 0x1E, 0x00, 0x06, 0x00, 0x00]);
    assert_eq!(cmds.len(), 2);
    assert!(matches!(parse_request(&cmds[0]), Request::GpsKeepAlive { minutes: 30 }));
    assert!(matches!(parse_request(&cmds[1]), Request::GetSysInfo));
    let cmds = feed(&mut p, &[0x03, 0x06, 0x00, 0x10, 0x00, 0x00, 0x00, 0xFF, 0x00]);
    assert!(matches!(parse_request(&cmds[0]), Request::ReadChunk { offset: 16, count: 254 }));
    let cmds = feed(&mut p, &[0x01, 0x04, 0x00, 0x09, b'/', b'a', b'b']);
    match parse_request(&cmds[0]) {
        Request::ListDir { path } => assert_eq!(path, b"/ab".to_vec()),
        _ => panic!("expected list-dir"),
    }
    assert!(matches!(parse_request(&Command { cmd_id: 0x42, payload: vec![] }), Request::Unknown));
}

#[test]
fn oversized_length_resets_framer() {
    let mut p = FileTransferProtocol::new();
    // 571 bytes declared: dropped, the next byte is a new command id
    assert!(feed(&mut p, &[0x08, 0x3B, 0x02]).is_empty());
    let cmds = feed(&mut p, &[0x0A, 0x00, 0x00]);
    assert_eq!(cmds.len(), 1);
    assert_eq!(cmds[0].cmd_id, 0x0A);
    assert!(cmds[0].payload.is_empty());
    let _ = CommandState::WaitCmdId;
}

#[test]
fn responses_are_length_prefixed() {
    let mut p = FileTransferProtocol::new();
    assert_eq!(p.encode_response(&[1, 2, 3]), 5);
    assert_eq!(p.response(5), &[3, 0, 1, 2, 3]);
    assert_eq!(p.encode_response(&[7u8; 300]), 258);
    assert_eq!(&p.response(3)[..3], &[0, 1, 7]);
    assert_eq!(p.encode_empty_response(), 2);
    assert_eq!(p.response(2), &[0, 0]);
    let n = p.encode_list_entry(false, b"20240101.gpz", 1234);
    assert_eq!(
        p.response(n),
        &[19, 0, 1, 0, 12, b'2', b'0', b'2', b'4', b'0', b'1', b'0', b'1', b'.', b'g', b'p', b'z', 0xD2, 0x04, 0, 0]
    );
    let n = p.encode_list_entry(true, b"LOGS", 0);
    assert_eq!(p.response(n), &[7, 0, 1, 1, 4, b'L', b'O', b'G', b'S']);
}

#[test]
fn agnss_staging_hands_over_batch() {
    let mut p = FileTransferProtocol::new();
    p.handle_write_agnss_chunk(Some(vec![9]));
    assert_eq!(p.handle_end_agnss_write(), None);
    p.handle_start_agnss_write();
    let chunk = feed(&mut p, &[0x08, 0x05, 0x00, 0x03, 0x00, 0xAA, 0xBB, 0xCC]);
    match parse_request(&chunk[0]) {
        Request::WriteAgnssChunk { data } => {
            assert_eq!(data, Some(vec![0xAA, 0xBB, 0xCC]));
            p.handle_write_agnss_chunk(data);
        }
        _ => panic!("expected chunk"),
    }
    let bad = Command { cmd_id: 0x08, payload: vec![0x05, 0x00, 0x01] };
    match parse_request(&bad) {
        Request::WriteAgnssChunk { data } => assert_eq!(data, None),
        _ => panic!("expected chunk"),
    }
    p.handle_write_agnss_chunk(Some(vec![1, 2]));
    assert_eq!(p.handle_end_agnss_write(), Some(vec![vec![0xAA, 0xBB, 0xCC], vec![1, 2]]));
    assert_eq!(p.response(2), &[0, 0]);
}
