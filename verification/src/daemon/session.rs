use crate::daemon::clock::{chrono_now, is_utc_timestamp};
use crate::daemon::ringbuf::RingBuffer;
use crate::error::SnagError;
use crate::protocol::types::SessionInfo;
use crate::text::{chars_of, decimal, push_char, push_decimal, push_signed_decimal, push_str, signed_decimal};
use vstd::prelude::*;
use vstd::string::StringSliceAdditionalSpecFns;
use vstd::utf8::encode_utf8;

verus! {

pub type SessionId = String;

pub type ClientId = u64;

/// Whether a session's shell still runs.
#[derive(Debug, Clone, Copy, PartialEq, Eq, Structural)]
pub enum SessionState {
    Running,
    Exited(i32),
}

/// Characters a session name may hold.
pub open spec fn is_name_char(c: char) -> bool {
    ||| ('a' <= c && c <= 'z')
    ||| ('A' <= c && c <= 'Z')
    ||| ('0' <= c && c <= '9')
    ||| c == '.'
    ||| c == '_'
    ||| c == '-'
    ||| c == ' '
}

/// A usable session name: 1 to 64 bytes of letters, digits, `.`, `_`, `-`
/// and spaces.
pub open spec fn valid_session_name(name: Seq<char>) -> bool {
    &&& encode_utf8(name).len() <= 64
    &&& forall|i: int| 0 <= i < name.len() ==> is_name_char(#[trigger] name[i])
    &&& name.len() > 0
}

/// Checks a session name; the error carries the rejected name.
pub fn validate_session_name(name: &str) -> (r: Result<(), SnagError>)
    ensures
        r is Ok <==> valid_session_name(name@),
        r matches Err(e) ==> e matches SnagError::InvalidSessionName(n) && n@ == name@,
{
    assert(name.spec_bytes() == encode_utf8(name@));
    if name.len() > 64 {
        return Err(SnagError::InvalidSessionName(name.to_owned()));
    }
    let cs = chars_of(name);
    let mut i: usize = 0;
    while i < cs.len()
        invariant
            cs@ == name@,
            i <= cs@.len(),
            forall|k: int| 0 <= k < i ==> is_name_char(#[trigger] cs@[k]),
        decreases cs@.len() - i,
    {
        let c = cs[i];
        let ok = (c >= 'a' && c <= 'z') || (c >= 'A' && c <= 'Z') || (c >= '0' && c <= '9') || c
            == '.' || c == '_' || c == '-' || c == ' ';
        if !ok {
            return Err(SnagError::InvalidSessionName(name.to_owned()));
        }
        i = i + 1;
    }
    assert(forall|k: int| 0 <= k < name@.len() ==> is_name_char(#[trigger] name@[k]));
    proof {
        assert(vstd::utf8::is_ascii_chars(name@));
        vstd::utf8::is_ascii_chars_encode_utf8(name@);
    }
    if name.is_empty() {
        return Err(SnagError::InvalidSessionName(name.to_owned()));
    }
    Ok(())
}

/// The lowercase hexadecimal digit for `n` (below 16).
pub open spec fn hex_digit(n: nat) -> char {
    if n < 10 {
        ((48 + n) as u8) as char
    } else {
        ((87 + n) as u8) as char
    }
}

/// Lowercase hexadecimal text of `b`: two digits per byte, high nibble first.
pub open spec fn hex_text(b: Seq<u8>) -> Seq<char> {
    Seq::new(
        2 * b.len(),
        |i: int|
            if i % 2 == 0 {
                hex_digit((b[i / 2] / 16) as nat)
            } else {
                hex_digit((b[i / 2] % 16) as nat)
            },
    )
}

#[verifier::external_type_specification]
#[verifier::external_body]
pub struct ExRandomError(getrandom::Error);

/// Fills `dest` from the operating system's random source
/// (`getrandom::getrandom`). Nothing is promised of the bytes.
#[verifier::external_body]
fn fill_random(dest: &mut [u8; 8]) -> (r: Result<(), getrandom::Error>) {
    getrandom::getrandom(dest)
}

/// Lowercase hexadecimal text of `bytes` (`hex::encode`): two digits per
/// byte, high nibble first.
#[verifier::external_body]
fn hex_encode(bytes: &[u8; 8]) -> (s: String)
    ensures
        s@ == hex_text(bytes@),
{
    hex::encode(bytes)
}

/// A fresh session ID: 8 random bytes in lowercase hexadecimal. Fails only
/// when the system's random source does.
pub fn generate_session_id() -> (r: Result<SessionId, SnagError>)
    ensures
        r matches Ok(id) ==> exists|b: Seq<u8>| b.len() == 8 && id@ == hex_text(b),
        r matches Err(e) ==> e matches SnagError::Io(_),
{
    let mut bytes = [0u8; 8];
    match fill_random(&mut bytes) {
        Ok(()) => {
            let id = hex_encode(&bytes);
            assert(bytes@.len() == 8);
            Ok(id)
        },
        Err(_) => {
            let mut msg = String::new();
            push_str(&mut msg, "getrandom failed");
            Err(SnagError::Io(msg))
        },
    }
}

/// A shell session the daemon manages. `master_fd` is the raw descriptor of
/// the PTY master, which the daemon keeps open while the session exists.
pub struct Session {
    pub id: SessionId,
    pub name: Option<String>,
    pub master_fd: i32,
    pub child_pid: Option<u32>,
    pub shell: String,
    pub pts_path: String,
    pub state: SessionState,
    pub created_at_utc: String,
    pub scrollback: RingBuffer,
    pub attached_clients: Vec<ClientId>,
    pub registered: bool,
    pub capture_path: Option<String>,
}

/// The state as clients see it: `running` or `exited(<code>)`.
pub open spec fn state_text(state: SessionState) -> Seq<char> {
    match state {
        SessionState::Running => "running"@,
        SessionState::Exited(code) => "exited("@ + signed_decimal(code as int) + ")"@,
    }
}

/// Whether the foreground process `pid` is not the session's shell.
pub open spec fn not_the_shell(pid: u32, child_pid: Option<u32>) -> bool {
    match child_pid {
        Some(cp) => pid != cp,
        None => true,
    }
}

/// The command of the first foreground process that is not the shell.
pub open spec fn first_non_shell(fg: Seq<(u32, String)>, child_pid: Option<u32>) -> Option<Seq<char>>
    decreases fg.len(),
{
    if fg.len() == 0 {
        None
    } else if not_the_shell(fg[0].0, child_pid) {
        Some(fg[0].1@)
    } else {
        first_non_shell(fg.drop_first(), child_pid)
    }
}

/// What a session reports as its foreground process: the first foreground
/// process other than the shell, `idle` when only the shell is there, and
/// nothing when no foreground process is known.
pub open spec fn fg_process_text(fg: Seq<(u32, String)>, child_pid: Option<u32>) -> Option<Seq<char>> {
    match first_non_shell(fg, child_pid) {
        Some(c) => Some(c),
        None => if fg.len() == 0 {
            None
        } else {
            Some("idle"@)
        },
    }
}

pub open spec fn opt_text(o: Option<String>) -> Option<Seq<char>> {
    match o {
        Some(s) => Some(s@),
        None => None,
    }
}

/// `info` is what clients are told about session `s`, given its shell's
/// working directory `cwd` (when it could be read) and the processes `fg`
/// in the foreground of its terminal.
pub open spec fn info_of(info: SessionInfo, s: Session, cwd: Option<String>, fg: Seq<(u32, String)>) -> bool {
    &&& info.id@ == s.id@
    &&& opt_text(info.name) == opt_text(s.name)
    &&& info.shell@ == s.shell@
    &&& info.cwd@ == match cwd {
        Some(c) => c@,
        None => "?"@,
    }
    &&& info.state@ == state_text(s.state)
    &&& opt_text(info.fg_process) == fg_process_text(fg, s.child_pid)
    &&& info.attached == s.attached_clients@.len()
    &&& info.registered == s.registered
    &&& info.created_at@ == s.created_at_utc@
    &&& info.snagged_by is None
}

impl Session {
    pub open spec fn wf(&self) -> bool {
        self.scrollback.wf()
    }

    /// A running session whose shell this daemon spawned.
    pub fn new_spawned(
        id: SessionId,
        name: Option<String>,
        master_fd: i32,
        child_pid: u32,
        shell: String,
        pts_path: String,
        scrollback_bytes: usize,
    ) -> (s: Self)
        requires
            scrollback_bytes <= isize::MAX,
        ensures
            s.wf(),
            s.id == id,
            s.name == name,
            s.master_fd == master_fd,
            s.child_pid == Some(child_pid),
            s.shell == shell,
            s.pts_path == pts_path,
            s.state == SessionState::Running,
            is_utc_timestamp(s.created_at_utc@),
            s.scrollback@ == Seq::<u8>::empty(),
            s.scrollback.capacity() == scrollback_bytes,
            s.attached_clients@ == Seq::<ClientId>::empty(),
            !s.registered,
            s.capture_path is None,
    {
        let created_at_utc = chrono_now();
        Session {
            id,
            name,
            master_fd,
            child_pid: Some(child_pid),
            shell,
            pts_path,
            state: SessionState::Running,
            created_at_utc,
            scrollback: RingBuffer::new(scrollback_bytes),
            attached_clients: Vec::new(),
            registered: false,
            capture_path: None,
        }
    }

    /// A running session for a shell that already ran in another terminal
    /// and registered itself.
    pub fn new_registered(
        id: SessionId,
        name: Option<String>,
        master_fd: i32,
        shell_pid: Option<u32>,
        shell: String,
        pts_path: String,
        scrollback_bytes: usize,
        capture_path: Option<String>,
    ) -> (s: Self)
        requires
            scrollback_bytes <= isize::MAX,
        ensures
            s.wf(),
            s.id == id,
            s.name == name,
            s.master_fd == master_fd,
            s.child_pid == shell_pid,
            s.shell == shell,
            s.pts_path == pts_path,
            s.state == SessionState::Running,
            is_utc_timestamp(s.created_at_utc@),
            s.scrollback@ == Seq::<u8>::empty(),
            s.scrollback.capacity() == scrollback_bytes,
            s.attached_clients@ == Seq::<ClientId>::empty(),
            s.registered,
            s.capture_path == capture_path,
    {
        let created_at_utc = chrono_now();
        Session {
            id,
            name,
            master_fd,
            child_pid: shell_pid,
            shell,
            pts_path,
            state: SessionState::Running,
            created_at_utc,
            scrollback: RingBuffer::new(scrollback_bytes),
            attached_clients: Vec::new(),
            registered: true,
            capture_path,
        }
    }

    /// What clients are told about this session, given its shell's working
    /// directory (when it could be read) and the processes in the
    /// foreground of its terminal.
    pub fn to_info(&self, cwd: Option<String>, fg: &Vec<(u32, String)>) -> (info: SessionInfo)
        ensures
            info_of(info, *self, cwd, fg@),
    {
        let cwd = match cwd {
            Some(c) => c,
            None => {
                let mut q = String::new();
                push_str(&mut q, "?");
                q
            },
        };
        let mut fg_process: Option<String> = None;
        let mut i: usize = 0;
        assert(fg@.subrange(0, fg@.len() as int) =~= fg@);
        while i < fg.len()
            invariant_except_break
                i <= fg@.len(),
                fg_process is None,
                first_non_shell(fg@, self.child_pid) == first_non_shell(
                    fg@.subrange(i as int, fg@.len() as int),
                    self.child_pid,
                ),
            ensures
                opt_text(fg_process) == first_non_shell(fg@, self.child_pid),
            decreases fg@.len() - i,
        {
            let (pid, ref cmd) = fg[i];
            let other = match self.child_pid {
                Some(cp) => pid != cp,
                None => true,
            };
            assert(fg@.subrange(i as int, fg@.len() as int).drop_first() =~= fg@.subrange(
                i + 1,
                fg@.len() as int,
            ));
            if other {
                fg_process = Some(cmd.clone());
                break;
            }
            i = i + 1;
        }
        if fg_process.is_none() && fg.len() > 0 {
            let mut idle = String::new();
            push_str(&mut idle, "idle");
            fg_process = Some(idle);
        }
        let mut state = String::new();
        match self.state {
            SessionState::Running => push_str(&mut state, "running"),
            SessionState::Exited(code) => {
                push_str(&mut state, "exited(");
                push_signed_decimal(&mut state, code as i64);
                push_str(&mut state, ")");
            },
        }
        SessionInfo {
            id: self.id.clone(),
            name: self.name.clone(),
            shell: self.shell.clone(),
            cwd,
            state,
            fg_process,
            attached: self.attached_clients.len(),
            registered: self.registered,
            created_at: self.created_at_utc.clone(),
            snagged_by: None,
        }
    }

    /// The raw descriptor of the PTY master.
    pub fn raw_fd(&self) -> (fd: i32)
        ensures
            fd == self.master_fd,
    {
        self.master_fd
    }
}

} // verus!
