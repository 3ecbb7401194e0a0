use snag::protocol::codec::{
    encode_frame, encode_request, encode_response, msg_type_for_request, msg_type_for_response,
    parse_frame_header, raw_request, raw_response, HEADER_SIZE, MAX_PAYLOAD_SIZE,
};
use snag::protocol::types::{Request, Response, ResponseData, MSG_ERROR, MSG_OK, MSG_PTY_INPUT, MSG_PTY_OUTPUT, MSG_SESSION_DETACH, MSG_SESSION_NEW};
use snag::error::SnagError;

#[test]
fn test_frame_header_size() {
    let req = Request::SessionDetach;
    let body = rmp_serde::to_vec("SessionDetach").unwrap();
    let frame = encode_request(&req, &body);
    assert!(frame.len() >= 5); // minimum: 5-byte header
    let len = u32::from_le_bytes([frame[1], frame[2], frame[3], frame[4]]) as usize;
    assert_eq!(frame.len(), 5 + len);
}

#[test]
fn frame_layout() {
    let f = encode_frame(0x42, &[1, 2, 3]);
    assert_eq!(f, vec![0x42, 3, 0, 0, 0, 1, 2, 3]);
    assert_eq!(HEADER_SIZE, 5);
    match parse_frame_header(&f[..5]) {
        Ok((t, n)) => {
            assert_eq!(t, 0x42);
            assert_eq!(n, 3);
        }
        Err(_) => panic!("header refused"),
    }
}

#[test]
fn oversized_payload_is_refused() {
    let n = MAX_PAYLOAD_SIZE + 1;
    let b = n.to_le_bytes();
    let header = [MSG_OK, b[0], b[1], b[2], b[3]];
    match parse_frame_header(&header) {
        Err(SnagError::ProtocolError(m)) => assert_eq!(m, format!("payload too large: {n} bytes")),
        _ => panic!("expected a protocol error"),
    }
}

#[test]
fn raw_terminal_data_travels_unencoded() {
    let f = encode_request(&Request::PtyInput(b"ls\r".to_vec()), b"ignored");
    assert_eq!(f, vec![MSG_PTY_INPUT, 3, 0, 0, 0, b'l', b's', b'\r']);
    match raw_request(MSG_PTY_INPUT, b"ls\r") {
        Some(Request::PtyInput(d)) => assert_eq!(d, b"ls\r"),
        _ => panic!("expected terminal input"),
    }
    assert!(raw_request(MSG_SESSION_NEW, b"x").is_none());
    let f = encode_response(&Response::PtyOutput(b"hi".to_vec()), b"");
    assert_eq!(f, vec![MSG_PTY_OUTPUT, 2, 0, 0, 0, b'h', b'i']);
    match raw_response(MSG_PTY_OUTPUT, b"hi") {
        Some(Response::PtyOutput(d)) => assert_eq!(d, b"hi"),
        _ => panic!("expected terminal output"),
    }
}

#[test]
fn message_types() {
    assert_eq!(msg_type_for_request(&Request::SessionNew { shell: None, name: None, cwd: None }), MSG_SESSION_NEW);
    assert_eq!(msg_type_for_request(&Request::SessionDetach), MSG_SESSION_DETACH);
    assert_eq!(msg_type_for_response(&Response::Success(ResponseData::Empty)), MSG_OK);
    assert_eq!(msg_type_for_response(&Response::Error { code: 1, message: String::new() }), MSG_ERROR);
    let body = b"\x81\xa1x\x01";
    let f = encode_response(&Response::Success(ResponseData::Empty), body);
    assert_eq!(&f[5..], body);
}
