use crate::error::SnagError;
use crate::protocol::types::{
    Request, Response, MSG_DAEMON_STATUS, MSG_DAEMON_STOP, MSG_ERROR, MSG_OK, MSG_PTY_INPUT, MSG_PTY_OUTPUT,
    MSG_RESIZE, MSG_SESSION_ATTACH, MSG_SESSION_CWD, MSG_SESSION_DETACH, MSG_SESSION_EVENT,
    MSG_SESSION_GREP, MSG_SESSION_INFO, MSG_SESSION_KILL, MSG_SESSION_LIST, MSG_SESSION_NEW,
    MSG_SESSION_OUTPUT, MSG_SESSION_PS, MSG_SESSION_REGISTER, MSG_SESSION_RENAME, MSG_SESSION_SEND,
    MSG_SESSION_UNREGISTER,
};
use crate::text::{push_decimal, push_str, decimal};
use vstd::prelude::*;
use vstd::slice::slice_to_vec;

verus! {

/// Bytes in a frame header: the message type, then the payload length.
pub const HEADER_SIZE: usize = 5;

/// Largest payload a frame may announce (16 MiB).
pub const MAX_PAYLOAD_SIZE: u32 = 16 * 1024 * 1024;

/// The message type a request travels under.
pub open spec fn request_type(req: Request) -> u8 {
    match req {
        Request::SessionNew { .. } => MSG_SESSION_NEW,
        Request::SessionKill { .. } => MSG_SESSION_KILL,
        Request::SessionRename { .. } => MSG_SESSION_RENAME,
        Request::SessionList => MSG_SESSION_LIST,
        Request::SessionInfo { .. } => MSG_SESSION_INFO,
        Request::SessionAttach { .. } => MSG_SESSION_ATTACH,
        Request::SessionDetach => MSG_SESSION_DETACH,
        Request::SessionSend { .. } => MSG_SESSION_SEND,
        Request::SessionOutput { .. } => MSG_SESSION_OUTPUT,
        Request::SessionCwd { .. } => MSG_SESSION_CWD,
        Request::SessionPs { .. } => MSG_SESSION_PS,
        Request::SessionRegister { .. } => MSG_SESSION_REGISTER,
        Request::SessionUnregister { .. } => MSG_SESSION_UNREGISTER,
        Request::SessionGrep { .. } => MSG_SESSION_GREP,
        Request::Resize { .. } => MSG_RESIZE,
        Request::PtyInput(_) => MSG_PTY_INPUT,
        Request::DaemonStatus => MSG_DAEMON_STATUS,
        Request::DaemonStop => MSG_DAEMON_STOP,
    }
}

/// The message type a response travels under.
pub open spec fn response_type(resp: Response) -> u8 {
    match resp {
        Response::Success(_) => MSG_OK,
        Response::Error { .. } => MSG_ERROR,
        Response::PtyOutput(_) => MSG_PTY_OUTPUT,
        Response::SessionEvent { .. } => MSG_SESSION_EVENT,
    }
}

/// The message type for a request.
pub fn msg_type_for_request(req: &Request) -> (t: u8)
    ensures
        t == request_type(*req),
{
    match req {
        Request::SessionNew { .. } => MSG_SESSION_NEW,
        Request::SessionKill { .. } => MSG_SESSION_KILL,
        Request::SessionRename { .. } => MSG_SESSION_RENAME,
        Request::SessionList => MSG_SESSION_LIST,
        Request::SessionInfo { .. } => MSG_SESSION_INFO,
        Request::SessionAttach { .. } => MSG_SESSION_ATTACH,
        Request::SessionDetach => MSG_SESSION_DETACH,
        Request::SessionSend { .. } => MSG_SESSION_SEND,
        Request::SessionOutput { .. } => MSG_SESSION_OUTPUT,
        Request::SessionCwd { .. } => MSG_SESSION_CWD,
        Request::SessionPs { .. } => MSG_SESSION_PS,
        Request::SessionRegister { .. } => MSG_SESSION_REGISTER,
        Request::SessionUnregister { .. } => MSG_SESSION_UNREGISTER,
        Request::SessionGrep { .. } => MSG_SESSION_GREP,
        Request::Resize { .. } => MSG_RESIZE,
        Request::PtyInput(_) => MSG_PTY_INPUT,
        Request::DaemonStatus => MSG_DAEMON_STATUS,
        Request::DaemonStop => MSG_DAEMON_STOP,
    }
}

/// The message type for a response.
pub fn msg_type_for_response(resp: &Response) -> (t: u8)
    ensures
        t == response_type(*resp),
{
    match resp {
        Response::Success(_) => MSG_OK,
        Response::Error { .. } => MSG_ERROR,
        Response::PtyOutput(_) => MSG_PTY_OUTPUT,
        Response::SessionEvent { .. } => MSG_SESSION_EVENT,
    }
}

/// `n` as four little-endian bytes.
pub open spec fn le32(n: u32) -> Seq<u8> {
    seq![(n % 256) as u8, ((n / 256) % 256) as u8, ((n / 65536) % 256) as u8, (n / 16777216) as u8]
}

/// The number four little-endian bytes stand for.
pub open spec fn from_le32(b: Seq<u8>) -> u32 {
    (b[0] + 256 * b[1] + 65536 * b[2] + 16777216 * b[3]) as u32
}

/// A frame: the message type, the payload length as a little-endian `u32`
/// (cut to 32 bits), then the payload.
pub open spec fn frame(msg_type: u8, payload: Seq<u8>) -> Seq<u8> {
    seq![msg_type] + le32(payload.len() as u32) + payload
}

/// The payload a request travels with: the raw bytes of terminal input, or
/// else `body`, its MessagePack encoding.
pub open spec fn request_payload(req: Request, body: Seq<u8>) -> Seq<u8> {
    match req {
        Request::PtyInput(data) => data@,
        _ => body,
    }
}

/// The payload a response travels with: raw terminal output, or else
/// `body`, its MessagePack encoding.
pub open spec fn response_payload(resp: Response, body: Seq<u8>) -> Seq<u8> {
    match resp {
        Response::PtyOutput(data) => data@,
        _ => body,
    }
}

/// Builds the frame for `msg_type` and `payload`.
pub fn encode_frame(msg_type: u8, payload: &[u8]) -> (f: Vec<u8>)
    ensures
        f@ == frame(msg_type, payload@),
{
    let n = payload.len() as u32;
    let mut f: Vec<u8> = Vec::new();
    f.push(msg_type);
    f.push((n % 256) as u8);
    f.push(((n / 256) % 256) as u8);
    f.push(((n / 65536) % 256) as u8);
    f.push((n / 16777216) as u8);
    let ghost head = f@;
    let mut i: usize = 0;
    while i < payload.len()
        invariant
            i <= payload@.len(),
            f@ == head + payload@.take(i as int),
        decreases payload@.len() - i,
    {
        f.push(payload[i]);
        i = i + 1;
        assert(f@ =~= head + payload@.take(i as int));
    }
    assert(payload@.take(i as int) =~= payload@);
    assert(f@ =~= frame(msg_type, payload@));
    f
}

/// The frame for a request whose MessagePack encoding is `body` (ignored
/// for terminal input, which travels raw).
pub fn encode_request(req: &Request, body: &[u8]) -> (f: Vec<u8>)
    ensures
        f@ == frame(request_type(*req), request_payload(*req, body@)),
{
    let t = msg_type_for_request(req);
    match req {
        Request::PtyInput(data) => encode_frame(t, data.as_slice()),
        _ => encode_frame(t, body),
    }
}

/// The frame for a response whose MessagePack encoding is `body` (ignored
/// for terminal output, which travels raw).
pub fn encode_response(resp: &Response, body: &[u8]) -> (f: Vec<u8>)
    ensures
        f@ == frame(response_type(*resp), response_payload(*resp, body@)),
{
    let t = msg_type_for_response(resp);
    match resp {
        Response::PtyOutput(data) => encode_frame(t, data.as_slice()),
        _ => encode_frame(t, body),
    }
}

/// What a frame header says: its message type and payload length, or a
/// protocol error when the length is over `MAX_PAYLOAD_SIZE`.
pub open spec fn header_ok(header: Seq<u8>) -> bool {
    from_le32(header.subrange(1, 5)) <= MAX_PAYLOAD_SIZE
}

/// Reads a frame header: the message type and the announced payload
/// length, refused when the length is over `MAX_PAYLOAD_SIZE`.
pub fn parse_frame_header(header: &[u8]) -> (r: Result<(u8, u32), SnagError>)
    requires
        header@.len() == HEADER_SIZE,
    ensures
        header_ok(header@) ==> r == Ok::<(u8, u32), SnagError>(
            (header@[0], from_le32(header@.subrange(1, 5))),
        ),
        !header_ok(header@) ==> (r matches Err(SnagError::ProtocolError(m)) && m@
            == "payload too large: "@ + decimal(from_le32(header@.subrange(1, 5)) as nat)
            + " bytes"@),
{
    let msg_type = header[0];
    let len: u32 = ((header[1] as u32) + 256 * (header[2] as u32) + 65536 * (header[3] as u32)
        + 16777216 * (header[4] as u32)) as u32;
    assert(len == from_le32(header@.subrange(1, 5)));
    if len > MAX_PAYLOAD_SIZE {
        let mut m = String::new();
        push_str(&mut m, "payload too large: ");
        push_decimal(&mut m, len as u64);
        push_str(&mut m, " bytes");
        return Err(SnagError::ProtocolError(m));
    }
    Ok((msg_type, len))
}

/// The request a frame stands for when its payload travels raw: terminal
/// input. Other message types carry MessagePack and give `None`.
pub fn raw_request(msg_type: u8, payload: &[u8]) -> (r: Option<Request>)
    ensures
        msg_type == MSG_PTY_INPUT ==> (r matches Some(Request::PtyInput(d)) && d@ == payload@),
        msg_type != MSG_PTY_INPUT ==> r is None,
{
    if msg_type == MSG_PTY_INPUT {
        Some(Request::PtyInput(slice_to_vec(payload)))
    } else {
        None
    }
}

/// The response a frame stands for when its payload travels raw: terminal
/// output. Other message types carry MessagePack and give `None`.
pub fn raw_response(msg_type: u8, payload: &[u8]) -> (r: Option<Response>)
    ensures
        msg_type == MSG_PTY_OUTPUT ==> (r matches Some(Response::PtyOutput(d)) && d@ == payload@),
        msg_type != MSG_PTY_OUTPUT ==> r is None,
{
    if msg_type == MSG_PTY_OUTPUT {
        Some(Response::PtyOutput(slice_to_vec(payload)))
    } else {
        None
    }
}

/// Reading a frame back: its header gives the message type and the length
/// of the payload it was built from, that length passes the size check,
/// and the payload follows the header unchanged.
pub proof fn lemma_frame_roundtrip(msg_type: u8, payload: Seq<u8>)
    requires
        payload.len() <= MAX_PAYLOAD_SIZE,
    ensures
        frame(msg_type, payload).len() == HEADER_SIZE + payload.len(),
        frame(msg_type, payload)[0] == msg_type,
        from_le32(frame(msg_type, payload).subrange(1, 5)) == payload.len(),
        header_ok(frame(msg_type, payload).take(5)),
        frame(msg_type, payload).skip(5) == payload,
{
    let n = payload.len() as u32;
    assert((n % 256) + 256 * ((n / 256) % 256) + 65536 * ((n / 65536) % 256) + 16777216 * (n
        / 16777216) == n) by (bit_vector);
    assert(n / 16777216 < 256) by (bit_vector);
    let f = frame(msg_type, payload);
    assert(f.subrange(1, 5) =~= le32(n));
    assert(f.take(5).subrange(1, 5) =~= le32(n));
    assert(f.skip(5) =~= payload);
}

/// Each kind of request travels under the type number the protocol
/// publishes for it, and each number belongs to one kind only: in
/// particular only terminal input travels as `0x10`, and a resize as
/// `0x0E`.
pub proof fn lemma_request_type_table(req: Request)
    ensures
        (request_type(req) == 0x01) <==> req is SessionNew,
        (request_type(req) == 0x02) <==> req is SessionKill,
        (request_type(req) == 0x03) <==> req is SessionRename,
        (request_type(req) == 0x04) <==> req is SessionList,
        (request_type(req) == 0x05) <==> req is SessionInfo,
        (request_type(req) == 0x06) <==> req is SessionAttach,
        (request_type(req) == 0x07) <==> req is SessionDetach,
        (request_type(req) == 0x08) <==> req is SessionSend,
        (request_type(req) == 0x09) <==> req is SessionOutput,
        (request_type(req) == 0x0A) <==> req is SessionCwd,
        (request_type(req) == 0x0B) <==> req is SessionPs,
        (request_type(req) == 0x12) <==> req is SessionRegister,
        (request_type(req) == 0x13) <==> req is SessionUnregister,
        (request_type(req) == 0x11) <==> req is SessionGrep,
        (request_type(req) == 0x0E) <==> req is Resize,
        (request_type(req) == 0x10) <==> req is PtyInput,
        (request_type(req) == 0xF0) <==> req is DaemonStatus,
        (request_type(req) == 0xF1) <==> req is DaemonStop,
{
}

/// Two requests travel under the same type exactly when they are of the
/// same kind, so the daemon can tell every kind apart by its type byte.
pub proof fn lemma_request_type_distinguishes(a: Request, b: Request)
    ensures
        (request_type(a) == request_type(b)) <==> (
            (a is SessionNew && b is SessionNew) || (a is SessionKill && b is SessionKill)
            || (a is SessionRename && b is SessionRename) || (a is SessionList && b is SessionList)
            || (a is SessionInfo && b is SessionInfo) || (a is SessionAttach && b is SessionAttach)
            || (a is SessionDetach && b is SessionDetach) || (a is SessionSend && b is SessionSend)
            || (a is SessionOutput && b is SessionOutput) || (a is SessionCwd && b is SessionCwd)
            || (a is SessionPs && b is SessionPs) || (a is SessionRegister && b is SessionRegister)
            || (a is SessionUnregister && b is SessionUnregister) || (a is SessionGrep && b is SessionGrep)
            || (a is Resize && b is Resize) || (a is PtyInput && b is PtyInput)
            || (a is DaemonStatus && b is DaemonStatus) || (a is DaemonStop && b is DaemonStop)
        ),
{
    lemma_request_type_table(a);
    lemma_request_type_table(b);
}

/// Each kind of response travels under its published type number, and
/// each number belongs to one kind only.
pub proof fn lemma_response_type_table(resp: Response)
    ensures
        (response_type(resp) == 0x80) <==> resp is Success,
        (response_type(resp) == 0x81) <==> resp is Error,
        (response_type(resp) == 0x82) <==> resp is PtyOutput,
        (response_type(resp) == 0x83) <==> resp is SessionEvent,
{
}

} // verus!
