use crate::text::{push_signed_decimal, push_str, signed_decimal};
use vstd::prelude::*;

verus! {

/// Everything that can go wrong in snag.
#[derive(Debug)]
pub enum SnagError {
    SessionNotFound(String),
    SessionNameConflict(String),
    SessionAmbiguousTarget(String, Vec<String>),
    SessionExited(String, i32),
    InvalidSessionName(String),
    DaemonNotRunning,
    DaemonStartFailed(String),
    DaemonAlreadyRunning,
    AdoptionFailed(String),
    KernelTooOld { required: String, found: String },
    PermissionDenied(String),
    /// An I/O failure, with the operating system's description of it.
    Io(String),
    /// A failed system call, with the operating system's description of it.
    Nix(String),
    ProtocolError(String),
    ConnectionLost,
}

pub type Result<T> = core::result::Result<T, SnagError>;

/// The elements of `items` separated by `sep`.
pub open spec fn joined(items: Seq<Seq<char>>, sep: Seq<char>) -> Seq<char>
    decreases items.len(),
{
    if items.len() == 0 {
        Seq::empty()
    } else if items.len() == 1 {
        items[0]
    } else {
        joined(items.drop_last(), sep) + sep + items.last()
    }
}

/// The human-readable text of an error.
pub open spec fn error_text(e: SnagError) -> Seq<char> {
    match e {
        SnagError::SessionNotFound(t) => "session not found: "@ + t@,
        SnagError::SessionNameConflict(n) => "session name already in use: "@ + n@,
        SnagError::SessionAmbiguousTarget(t, m) => "ambiguous target '"@ + t@ + "', matches: "@
            + joined(m@.map_values(|x: String| x@), ", "@),
        SnagError::SessionExited(id, code) => "session "@ + id@ + " has exited with code "@
            + signed_decimal(code as int),
        SnagError::InvalidSessionName(n) => "invalid session name '"@ + n@
            + "': must match [a-zA-Z0-9._-] and be at most 64 characters"@,
        SnagError::DaemonNotRunning => "daemon is not running"@,
        SnagError::DaemonStartFailed(m) => "failed to start daemon: "@ + m@,
        SnagError::DaemonAlreadyRunning => "daemon is already running"@,
        SnagError::AdoptionFailed(m) => "session adoption failed: "@ + m@,
        SnagError::KernelTooOld { required, found } => "kernel too old: "@ + required@
            + " required, found "@ + found@,
        SnagError::PermissionDenied(m) => "permission denied: "@ + m@,
        SnagError::Io(m) => "I/O error: "@ + m@,
        SnagError::Nix(m) => "system error: "@ + m@,
        SnagError::ProtocolError(m) => "protocol error: "@ + m@,
        SnagError::ConnectionLost => "connection to daemon lost"@,
    }
}

impl SnagError {
    /// The human-readable text of the error.
    pub fn message(&self) -> (s: String)
        ensures
            s@ == error_text(*self),
    {
        let mut s = String::new();
        match self {
            SnagError::SessionNotFound(t) => {
                push_str(&mut s, "session not found: ");
                push_str(&mut s, t.as_str());
            },
            SnagError::SessionNameConflict(n) => {
                push_str(&mut s, "session name already in use: ");
                push_str(&mut s, n.as_str());
            },
            SnagError::SessionAmbiguousTarget(t, matches) => {
                push_str(&mut s, "ambiguous target '");
                push_str(&mut s, t.as_str());
                push_str(&mut s, "', matches: ");
                let ghost before = s@;
                let mut i: usize = 0;
                while i < matches.len()
                    invariant
                        i <= matches@.len(),
                        s@ == before + joined(
                            matches@.take(i as int).map_values(|x: String| x@),
                            ", "@,
                        ),
                    decreases matches@.len() - i,
                {
                    let ghost prev = matches@.take(i as int).map_values(|x: String| x@);
                    if i > 0 {
                        push_str(&mut s, ", ");
                    }
                    push_str(&mut s, matches[i].as_str());
                    proof {
                        let next = matches@.take(i + 1).map_values(|x: String| x@);
                        assert(next.drop_last() =~= prev);
                        assert(next.last() == matches@[i as int]@);
                        if i == 0 {
                            assert(next.len() == 1);
                        }
                    }
                    i = i + 1;
                    assert(s@ =~= before + joined(
                        matches@.take(i as int).map_values(|x: String| x@),
                        ", "@,
                    ));
                }
                assert(matches@.take(i as int) =~= matches@);
            },
            SnagError::SessionExited(id, code) => {
                push_str(&mut s, "session ");
                push_str(&mut s, id.as_str());
                push_str(&mut s, " has exited with code ");
                push_signed_decimal(&mut s, *code as i64);
            },
            SnagError::InvalidSessionName(n) => {
                push_str(&mut s, "invalid session name '");
                push_str(&mut s, n.as_str());
                push_str(&mut s, "': must match [a-zA-Z0-9._-] and be at most 64 characters");
            },
            SnagError::DaemonNotRunning => {
                push_str(&mut s, "daemon is not running");
            },
            SnagError::DaemonStartFailed(m) => {
                push_str(&mut s, "failed to start daemon: ");
                push_str(&mut s, m.as_str());
            },
            SnagError::DaemonAlreadyRunning => {
                push_str(&mut s, "daemon is already running");
            },
            SnagError::AdoptionFailed(m) => {
                push_str(&mut s, "session adoption failed: ");
                push_str(&mut s, m.as_str());
            },
            SnagError::KernelTooOld { required, found } => {
                push_str(&mut s, "kernel too old: ");
                push_str(&mut s, required.as_str());
                push_str(&mut s, " required, found ");
                push_str(&mut s, found.as_str());
            },
            SnagError::PermissionDenied(m) => {
                push_str(&mut s, "permission denied: ");
                push_str(&mut s, m.as_str());
            },
            SnagError::Io(m) => {
                push_str(&mut s, "I/O error: ");
                push_str(&mut s, m.as_str());
            },
            SnagError::Nix(m) => {
                push_str(&mut s, "system error: ");
                push_str(&mut s, m.as_str());
            },
            SnagError::ProtocolError(m) => {
                push_str(&mut s, "protocol error: ");
                push_str(&mut s, m.as_str());
            },
            SnagError::ConnectionLost => {
                push_str(&mut s, "connection to daemon lost");
            },
        }
        assert(s@ =~= error_text(*self));
        s
    }
}

} // verus!
