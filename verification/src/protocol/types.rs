use vstd::prelude::*;

verus! {

pub const MSG_SESSION_NEW: u8 = 0x01;
pub const MSG_SESSION_KILL: u8 = 0x02;
pub const MSG_SESSION_RENAME: u8 = 0x03;
pub const MSG_SESSION_LIST: u8 = 0x04;
pub const MSG_SESSION_INFO: u8 = 0x05;
pub const MSG_SESSION_ATTACH: u8 = 0x06;
pub const MSG_SESSION_DETACH: u8 = 0x07;
pub const MSG_SESSION_SEND: u8 = 0x08;
pub const MSG_SESSION_OUTPUT: u8 = 0x09;
pub const MSG_SESSION_CWD: u8 = 0x0A;
pub const MSG_SESSION_PS: u8 = 0x0B;
pub const MSG_SESSION_SCAN: u8 = 0x0C;
pub const MSG_SESSION_ADOPT: u8 = 0x0D;
pub const MSG_SESSION_RELEASE: u8 = 0x0F;
pub const MSG_SESSION_GREP: u8 = 0x11;
pub const MSG_SESSION_REGISTER: u8 = 0x12;
pub const MSG_SESSION_UNREGISTER: u8 = 0x13;
pub const MSG_RESIZE: u8 = 0x0E;
pub const MSG_PTY_INPUT: u8 = 0x10;
pub const MSG_DAEMON_STATUS: u8 = 0xF0;
pub const MSG_DAEMON_STOP: u8 = 0xF1;

pub const MSG_OK: u8 = 0x80;
pub const MSG_ERROR: u8 = 0x81;
pub const MSG_PTY_OUTPUT: u8 = 0x82;
pub const MSG_SESSION_EVENT: u8 = 0x83;

/// A client's request to the daemon.
#[derive(Debug, Clone)]
pub enum Request {
    SessionNew { shell: Option<String>, name: Option<String>, cwd: Option<String> },
    SessionKill { target: String },
    SessionRename { target: String, new_name: String },
    SessionList,
    SessionInfo { target: String },
    SessionAttach { target: String, read_only: bool },
    SessionDetach,
    SessionSend { target: String, input: String },
    SessionOutput { target: String, lines: Option<u32>, follow: bool },
    SessionCwd { target: String },
    SessionPs { target: String },
    SessionRegister { pts: String, shell_pid: u32, name: Option<String> },
    SessionUnregister { target: String },
    SessionGrep { pattern: String },
    Resize { cols: u16, rows: u16 },
    PtyInput(Vec<u8>),
    DaemonStatus,
    DaemonStop,
}

/// The daemon's answer or unsolicited message to a client.
#[derive(Debug, Clone)]
pub enum Response {
    Success(ResponseData),
    Error { code: u16, message: String },
    PtyOutput(Vec<u8>),
    SessionEvent { event: String, session_id: String },
}

/// The payload of a successful response.
#[derive(Debug, Clone)]
pub enum ResponseData {
    SessionCreated { id: String },
    SessionRegistered { id: String, capture_path: String },
    SessionList(Vec<SessionInfo>),
    SessionListDiscovered { sessions: Vec<SessionInfo>, discovered: Vec<DiscoveredSession> },
    SessionInfo(SessionInfo),
    Output(String),
    Cwd(String),
    ProcessInfo(Vec<ProcessEntry>),
    ScanResult(Vec<DiscoveredSession>),
    DaemonStatus { pid: u32, uptime_secs: u64, session_count: usize },
    GrepResult(Vec<GrepMatch>),
    Empty,
}

/// The lines of one session's scrollback that matched a search.
#[derive(Debug, Clone)]
pub struct GrepMatch {
    pub session_id: String,
    pub session_name: Option<String>,
    pub lines: Vec<String>,
}

/// What a client is told about a session.
#[derive(Debug, Clone)]
pub struct SessionInfo {
    pub id: String,
    pub name: Option<String>,
    pub shell: String,
    pub cwd: String,
    pub state: String,
    pub fg_process: Option<String>,
    pub attached: usize,
    pub registered: bool,
    pub created_at: String,
    /// Who has taken this session over, when someone has.
    pub snagged_by: Option<String>,
}

/// One process in a session's foreground.
#[derive(Debug, Clone)]
pub struct ProcessEntry {
    pub pid: u32,
    pub command: String,
}

/// A terminal found on the machine that could be taken over.
#[derive(Debug, Clone)]
pub struct DiscoveredSession {
    pub pts: String,
    pub holder_pid: u32,
    pub holder_fd: i32,
    pub shell_pid: Option<u32>,
    pub command: String,
    pub cwd: String,
    pub adoptable: bool,
}

/// `r` reports the error `code` with the text `msg`.
pub open spec fn is_error(r: Response, code: u16, msg: Seq<char>) -> bool {
    r matches Response::Error { code: c, message: m } && c == code && m@ == msg
}

/// `r` reports success with nothing more to say.
pub open spec fn is_done(r: Response) -> bool {
    r matches Response::Success(ResponseData::Empty)
}

/// An error response with `code` and `message`.
pub fn error_response(code: u16, message: String) -> (r: Response)
    ensures
        is_error(r, code, message@),
{
    Response::Error { code, message }
}

/// The success response with nothing more to say.
pub fn done() -> (r: Response)
    ensures
        is_done(r),
{
    Response::Success(ResponseData::Empty)
}

} // verus!
