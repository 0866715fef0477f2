use ykctl::device::{
    build_frame, check_response, read_config, select, send, write_config, SendError,
};

#[test]
fn frame_construction() {
    let mut sent = Vec::new();
    let r = send(
        |req: Vec<u8>| {
            sent = req;
            Ok(vec![0x90, 0x00])
        },
        &[0, 0x1d, 0, 0],
        &[],
        0x90,
    );
    assert_eq!(sent, vec![0, 0x1d, 0, 0, 0]);
    assert_eq!(r.unwrap(), (0x90, vec![]));
}

#[test]
fn frame_with_payload() {
    assert_eq!(build_frame(&[0, 0xa4, 4, 0], &[1, 2, 3]), vec![0, 0xa4, 4, 0, 3, 1, 2, 3]);
    let payload = vec![0xeeu8; 255];
    let f = build_frame(&[1, 2, 3, 4], &payload);
    assert_eq!(f.len(), 260);
    assert_eq!(f[4], 255);
}

#[test]
fn status_match_returns_payload() {
    let r = check_response(vec![0xde, 0xad, 0x90, 0x00], 0x90).unwrap();
    assert_eq!(r, (0x90, vec![0xde, 0xad]));
    let r = send(|_| Ok(vec![7, 0x34, 0x12]), &[0, 1, 0, 0], &[], 0x1234).unwrap();
    assert_eq!(r, (0x1234, vec![7]));
}

#[test]
fn status_mismatch_is_reported() {
    match check_response(vec![1, 2, 0x6a, 0x82], 0x90) {
        Err(SendError::UnexpectedStatus(sw)) => assert_eq!(sw, 0x826a),
        other => panic!("{:?}", other),
    }
    match check_response(vec![0x00, 0x90], 0x90) {
        Err(SendError::UnexpectedStatus(sw)) => assert_eq!(sw, 0x9000),
        other => panic!("{:?}", other),
    }
}

#[test]
fn short_responses_are_refused() {
    assert!(matches!(check_response(vec![], 0x90), Err(SendError::ShortResponse)));
    assert!(matches!(check_response(vec![0x90], 0x90), Err(SendError::ShortResponse)));
    let r = send(|_| Ok(vec![0x00]), &[0, 0x1d, 0, 0], &[], 0x90);
    assert!(matches!(r, Err(SendError::ShortResponse)));
}

#[test]
fn exactly_two_bytes_is_an_empty_payload() {
    assert_eq!(check_response(vec![0x90, 0x00], 0x90).unwrap(), (0x90, vec![]));
}

#[test]
fn transport_errors_pass_through() {
    let r = send(|_| Err("reader gone".to_string()), &[0, 0x1d, 0, 0], &[], 0x90);
    match r {
        Err(SendError::Transport(m)) => assert_eq!(m, "reader gone"),
        other => panic!("{:?}", other),
    }
}

#[test]
fn select_sends_the_identifier() {
    let mut sent = Vec::new();
    let aid = [0xa0, 0, 0, 0x5, 0x27, 0x47, 0x11, 0x17];
    let r = select(
        |req: Vec<u8>| {
            sent = req;
            Ok(b"mgr\x90\x00".to_vec())
        },
        &aid,
    );
    assert!(r.is_ok());
    assert_eq!(sent, vec![0, 0xa4, 4, 0, 8, 0xa0, 0, 0, 0x5, 0x27, 0x47, 0x11, 0x17]);
    let r = select(|_| Ok(vec![0x6a, 0x82]), &aid);
    assert!(matches!(r, Err(SendError::UnexpectedStatus(0x826a))));
}

#[test]
fn read_config_returns_the_blob() {
    let mut sent = Vec::new();
    let r = read_config(|req: Vec<u8>| {
        sent = req;
        Ok(vec![2, 0x01, 0x00, 0x90, 0x00])
    });
    assert_eq!(sent, vec![0, 0x1d, 0, 0, 0]);
    assert_eq!(r.unwrap(), vec![2, 0x01, 0x00]);
}

#[test]
fn write_config_sends_the_blob() {
    let mut sent = Vec::new();
    let r = write_config(
        |req: Vec<u8>| {
            sent = req;
            Ok(vec![0x90, 0x00])
        },
        &[2, 0x0c, 0x00],
    );
    assert!(r.is_ok());
    assert_eq!(sent, vec![0, 0x1c, 0, 0, 3, 2, 0x0c, 0x00]);
    assert!(matches!(write_config(|_| Ok(vec![]), &[0]), Err(SendError::ShortResponse)));
}
