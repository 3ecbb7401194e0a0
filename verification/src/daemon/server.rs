use crate::daemon::clients::{ClientState, ClientTable};
use crate::daemon::registry::{
    attached_to, detached_from, enumerates, only_changed, rename_result, resolves_to, same_identity, without_name,
    SessionRegistry,
};
use crate::daemon::ringbuf::is_last_lines;
use crate::daemon::session::{
    info_of, opt_text, validate_session_name, valid_session_name, ClientId, Session, SessionId,
    SessionState,
};
use crate::error::{error_text, SnagError};
use crate::protocol::types::{
    done, error_response, is_done, is_error, DiscoveredSession, GrepMatch, ProcessEntry, Response, ResponseData, SessionInfo,
};
use crate::ansi::{strip_ansi, stripped};
use crate::scan::{lines, lines_of, occurs, occurs_in, trim_chars, trimmed, views};
use crate::text::{
    chars_of, lossy_text, lowercase, push_str, same_text, string_of, to_lowercase, utf8_lossy,
};
use vstd::slice::slice_to_vec;
use vstd::string::StringSliceAdditionalSpecFns;
use vstd::prelude::*;

verus! {

/// What the shell spawner reports of a shell it started on a new PTY.
pub struct SpawnedShell {
    pub master_fd: i32,
    pub child_pid: u32,
    pub pts_path: String,
}

/// Whether `name`, asked for a new session, is refused given the names in
/// use: an invalid name with code 1, a name in use with code 2.
pub open spec fn name_check(names: Map<Seq<char>, Seq<char>>, name: Option<String>, r: Option<Response>) -> bool {
    match name {
        None => r is None,
        Some(n) => if !valid_session_name(n@) {
            r matches Some(e) && is_error(e, 1, error_text(SnagError::InvalidSessionName(n)))
        } else if names.contains_key(n@) {
            r matches Some(e) && is_error(e, 2, "session name already in use: "@ + n@)
        } else {
            r is None
        },
    }
}

/// Checks the name asked for a new session; `None` when it may be used.
pub fn check_new_name(registry: &SessionRegistry, name: &Option<String>) -> (r: Option<Response>)
    requires
        registry.wf(),
    ensures
        name_check(registry.names_view(), *name, r),
{
    match name {
        None => None,
        Some(n) => match validate_session_name(n.as_str()) {
            Err(e) => Some(error_response(1, e.message())),
            Ok(()) => {
                if registry.has_name(n.as_str()) {
                    let mut m = String::new();
                    push_str(&mut m, "session name already in use: ");
                    push_str(&mut m, n.as_str());
                    Some(error_response(2, m))
                } else {
                    None
                }
            },
        },
    }
}

/// `p` is an absolute path.
pub open spec fn is_absolute(p: Seq<char>) -> bool {
    p.len() > 0 && p[0] == '/'
}

/// Whether a new session's shell `shell` and working directory `cwd` are
/// refused before anything is spawned, given whether the shell exists on
/// disk and whether the directory does: a shell path that is not
/// absolute, a missing shell and a missing directory are each reported
/// with code 3.
pub open spec fn spawn_check(shell: Seq<char>, shell_exists: bool, cwd: Seq<char>, cwd_exists: bool, r: Option<Response>) -> bool {
    if !is_absolute(shell) {
        r matches Some(e) && is_error(e, 3, "failed to spawn session: shell path must be absolute: "@ + shell)
    } else if !shell_exists {
        r matches Some(e) && is_error(e, 3, "failed to spawn session: shell not found: "@ + shell)
    } else if !cwd_exists {
        r matches Some(e) && is_error(e, 3, "failed to spawn session: working directory not found: "@ + cwd)
    } else {
        r is None
    }
}

/// Checks the shell path and working directory of a new session before
/// it is spawned; `shell_exists` and `cwd_exists` are what a look at the
/// disk found. `None` when the session may be spawned.
pub fn check_spawn_paths(shell: &str, shell_exists: bool, cwd: &str, cwd_exists: bool) -> (r: Option<Response>)
    ensures
        spawn_check(shell@, shell_exists, cwd@, cwd_exists, r),
{
    proof {
        reveal_strlit("failed to spawn session: ");
        reveal_strlit("shell path must be absolute: ");
        reveal_strlit("shell not found: ");
        reveal_strlit("working directory not found: ");
        reveal_strlit("failed to spawn session: shell path must be absolute: ");
        reveal_strlit("failed to spawn session: shell not found: ");
        reveal_strlit("failed to spawn session: working directory not found: ");
    }
    let cs = chars_of(shell);
    let absolute = cs.len() > 0 && cs[0] == '/';
    let mut m = String::new();
    push_str(&mut m, "failed to spawn session: ");
    if !absolute {
        push_str(&mut m, "shell path must be absolute: ");
        push_str(&mut m, shell);
        assert(m@ =~= "failed to spawn session: shell path must be absolute: "@ + shell@);
        Some(error_response(3, m))
    } else if !shell_exists {
        push_str(&mut m, "shell not found: ");
        push_str(&mut m, shell);
        assert(m@ =~= "failed to spawn session: shell not found: "@ + shell@);
        Some(error_response(3, m))
    } else if !cwd_exists {
        push_str(&mut m, "working directory not found: ");
        push_str(&mut m, cwd);
        assert(m@ =~= "failed to spawn session: working directory not found: "@ + cwd@);
        Some(error_response(3, m))
    } else {
        None
    }
}

/// Checks a request for a new session before anything is spawned: first
/// its name, then its shell and working directory. `None` when the session
/// may be spawned.
pub fn check_session_new(
    registry: &SessionRegistry,
    name: &Option<String>,
    shell: &str,
    shell_exists: bool,
    cwd: &str,
    cwd_exists: bool,
) -> (r: Option<Response>)
    requires
        registry.wf(),
    ensures
        ({
            let n = name_check(registry.names_view(), *name, r);
            let named_ok = name_check(registry.names_view(), *name, None);
            if named_ok {
                spawn_check(shell@, shell_exists, cwd@, cwd_exists, r)
            } else {
                n
            }
        }),
{
    match check_new_name(registry, name) {
        Some(refusal) => Some(refusal),
        None => check_spawn_paths(shell, shell_exists, cwd, cwd_exists),
    }
}

/// `s` is the session made for a freshly spawned shell.
pub open spec fn spawned_session(
    s: Session,
    id: SessionId,
    name: Option<String>,
    shell: String,
    sp: SpawnedShell,
    scrollback_bytes: usize,
) -> bool {
    &&& s.wf()
    &&& s.id == id
    &&& s.name == name
    &&& s.master_fd == sp.master_fd
    &&& s.child_pid == Some(sp.child_pid)
    &&& s.shell == shell
    &&& s.pts_path == sp.pts_path
    &&& s.state == SessionState::Running
    &&& s.scrollback@ == Seq::<u8>::empty()
    &&& s.scrollback.capacity() == scrollback_bytes
    &&& s.attached_clients@ == Seq::<ClientId>::empty()
    &&& !s.registered
    &&& s.capture_path is None
}

/// The names after adding a session with ID `id` and name `name`.
pub open spec fn with_name(names: Map<Seq<char>, Seq<char>>, name: Option<String>, id: Seq<char>) -> Map<Seq<char>, Seq<char>> {
    match name {
        Some(n) => names.insert(n@, id),
        None => names,
    }
}

/// Finishes a request for a new session once the shell has been spawned
/// (or has failed to spawn): the session `id` is added and reported, or the
/// failure is reported with code 3.
pub fn complete_session_new(
    registry: &mut SessionRegistry,
    id: SessionId,
    name: Option<String>,
    shell: String,
    spawned: Result<SpawnedShell, SnagError>,
    scrollback_bytes: usize,
) -> (r: Response)
    requires
        old(registry).wf(),
        scrollback_bytes <= isize::MAX,
    ensures
        final(registry).wf(),
        match spawned {
            Err(e) => is_error(r, 3, "failed to spawn session: "@ + error_text(e)) && *final(registry)
                == *old(registry),
            Ok(sp) => {
                &&& r matches Response::Success(ResponseData::SessionCreated { id: rid }) && rid@ == id@
                &&& exists|s: Session|
                    spawned_session(s, id, name, shell, sp, scrollback_bytes)
                        && final(registry).sessions_view() == old(registry).sessions_view().insert(
                        id@,
                        s,
                    )
                &&& final(registry).names_view() == with_name(old(registry).names_view(), name, id@)
            },
        },
{
    match spawned {
        Err(e) => {
            let mut m = String::new();
            push_str(&mut m, "failed to spawn session: ");
            let text = e.message();
            push_str(&mut m, text.as_str());
            error_response(3, m)
        },
        Ok(sp) => {
            let reply_id = id.clone();
            let SpawnedShell { master_fd, child_pid, pts_path } = sp;
            let session = Session::new_spawned(
                id,
                name,
                master_fd,
                child_pid,
                shell,
                pts_path,
                scrollback_bytes,
            );
            registry.insert(session);
            Response::Success(ResponseData::SessionCreated { id: reply_id })
        },
    }
}

/// Kills the session `target` resolves to: it leaves the registry and is
/// handed back so that its shell can be hung up or its capture torn down.
/// Failures to resolve are reported with code 4.
pub fn handle_session_kill(registry: &mut SessionRegistry, target: &str) -> (r: (Response, Option<Session>))
    requires
        old(registry).wf(),
    ensures
        final(registry).wf(),
        exists|r0: Result<SessionId, SnagError>|
            resolves_to(old(registry).sessions_view(), old(registry).names_view(), old(registry).id_order(), target, r0)
                && match r0 {
                Err(e) => is_error(r.0, 4, error_text(e)) && r.1 is None && *final(registry)
                    == *old(registry),
                Ok(id) => if old(registry).sessions_view().contains_key(id@) {
                    let s = old(registry).sessions_view()[id@];
                    &&& is_done(r.0)
                    &&& r.1 == Some(s)
                    &&& final(registry).sessions_view() == old(registry).sessions_view().remove(id@)
                    &&& final(registry).names_view() == without_name(old(registry).names_view(), s.name)
                } else {
                    is_error(r.0, 4, "session not found: "@ + target@) && r.1 is None
                        && *final(registry) == *old(registry)
                },
            },
{
    match registry.resolve(target) {
        Err(e) => (error_response(4, e.message()), None),
        Ok(id) => match registry.remove(id.as_str()) {
            Some(s) => (done(), Some(s)),
            None => {
                let mut m = String::new();
                push_str(&mut m, "session not found: ");
                push_str(&mut m, target);
                (error_response(4, m), None)
            },
        },
    }
}

/// Renames the session `target` resolves to: an invalid name is refused
/// with code 1, a failed rename is reported with code 5.
pub fn handle_session_rename(registry: &mut SessionRegistry, target: &str, new_name: String) -> (r: Response)
    requires
        old(registry).wf(),
    ensures
        final(registry).wf(),
        !valid_session_name(new_name@) ==> is_error(
            r,
            1,
            error_text(SnagError::InvalidSessionName(new_name)),
        ) && *final(registry) == *old(registry),
        valid_session_name(new_name@) ==> exists|rr: Result<(), SnagError>|
            rename_result(*old(registry), *final(registry), target, new_name, rr) && match rr {
                Ok(()) => is_done(r),
                Err(e) => is_error(r, 5, error_text(e)),
            },
{
    match validate_session_name(new_name.as_str()) {
        Err(e) => error_response(1, e.message()),
        Ok(()) => match registry.rename(target, new_name) {
            Ok(()) => done(),
            Err(e) => error_response(5, e.message()),
        },
    }
}

/// What must be done outside the registry when a session goes away.
pub enum Cleanup {
    /// A registered session: stop capturing its output (restoring the
    /// shell's own output when a capture file was set up) and remove the
    /// capture file. Its shell keeps running.
    TeardownCapture { master_fd: i32, capture_path: Option<String> },
    /// A spawned session: hang up its shell.
    Hangup(u32),
    /// Nothing to do.
    Nothing,
}

/// `c` is what must be done when session `s` goes away.
pub open spec fn cleanup_of(s: Session, c: Cleanup) -> bool {
    if s.registered {
        c matches Cleanup::TeardownCapture { master_fd, capture_path } && master_fd == s.master_fd
            && opt_text(capture_path) == opt_text(s.capture_path)
    } else {
        match s.child_pid {
            Some(p) => c matches Cleanup::Hangup(q) && q == p,
            None => c is Nothing,
        }
    }
}

/// What must be done when session `s` goes away: registered sessions only
/// lose their capture, spawned ones have their shell hung up.
pub fn cleanup_for(s: &Session) -> (c: Cleanup)
    ensures
        cleanup_of(*s, c),
{
    if s.registered {
        let capture_path = match &s.capture_path {
            Some(p) => Some(p.clone()),
            None => None,
        };
        Cleanup::TeardownCapture { master_fd: s.master_fd, capture_path }
    } else {
        match s.child_pid {
            Some(p) => Cleanup::Hangup(p),
            None => Cleanup::Nothing,
        }
    }
}

/// What must be done for every session when the daemon shuts down, in the
/// order of some listing of the sessions.
pub fn shutdown_plan(registry: &SessionRegistry) -> (r: Vec<Cleanup>)
    requires
        registry.wf(),
    ensures
        exists|order: Seq<Session>|
            enumerates(order, registry.sessions_view()) && r@.len() == order.len() && forall|i: int|
                0 <= i < order.len() ==> cleanup_of(#[trigger] order[i], r@[i]),
{
    let sessions = registry.sessions();
    let mut r: Vec<Cleanup> = Vec::new();
    let mut i: usize = 0;
    while i < sessions.len()
        invariant
            i <= sessions@.len(),
            r@.len() == i,
            forall|j: int| 0 <= j < i ==> cleanup_of(#[trigger] sessions@[j], r@[j]),
        decreases sessions@.len() - i,
    {
        let c = cleanup_for(&sessions[i]);
        r.push(c);
        i = i + 1;
    }
    r
}


/// What is read of a session's shell from outside the daemon: its working
/// directory, when it could be read, and the processes in the foreground
/// of its terminal.
pub struct SessionProbe {
    pub cwd: Option<String>,
    pub fg: Vec<(u32, String)>,
}

/// `info` is what clients are told of session `s` given `probe`.
pub open spec fn describes(info: SessionInfo, s: Session, probe: SessionProbe) -> bool {
    info_of(info, s, probe.cwd, probe.fg@)
}

/// The answer to a request for the list of sessions: each of `sessions`
/// described with its probe, in order.
pub fn list_response(sessions: &[Session], probes: &Vec<SessionProbe>) -> (r: Response)
    requires
        probes@.len() == sessions@.len(),
    ensures
        r matches Response::Success(ResponseData::SessionList(infos)) && infos@.len() == sessions@.len()
            && forall|i: int|
            0 <= i < sessions@.len() ==> describes(#[trigger] infos@[i], sessions@[i], probes@[i]),
{
    let mut infos: Vec<SessionInfo> = Vec::new();
    let mut i: usize = 0;
    while i < sessions.len()
        invariant
            probes@.len() == sessions@.len(),
            i <= sessions@.len(),
            infos@.len() == i,
            forall|j: int| 0 <= j < i ==> describes(#[trigger] infos@[j], sessions@[j], probes@[j]),
        decreases sessions@.len() - i,
    {
        let p = &probes[i];
        let cwd = match &p.cwd {
            Some(c) => Some(c.clone()),
            None => None,
        };
        let info = sessions[i].to_info(cwd, &p.fg);
        infos.push(info);
        i = i + 1;
    }
    Response::Success(ResponseData::SessionList(infos))
}

/// The session a request about `target` is about, or the error (code 4)
/// to answer with.
pub fn target_session<'a>(registry: &'a SessionRegistry, target: &str) -> (r: Result<&'a Session, Response>)
    requires
        registry.wf(),
    ensures
        exists|r0: Result<SessionId, SnagError>|
            resolves_to(registry.sessions_view(), registry.names_view(), registry.id_order(), target, r0) && match r0 {
                Err(e) => r matches Err(resp) && is_error(resp, 4, error_text(e)),
                Ok(id) => if registry.sessions_view().contains_key(id@) {
                    r matches Ok(s) && *s == registry.sessions_view()[id@]
                } else {
                    r matches Err(resp) && is_error(resp, 4, "session not found: "@ + target@)
                },
            },
{
    match registry.resolve_session(target) {
        Ok(s) => Ok(s),
        Err(e) => Err(error_response(4, e.message())),
    }
}

/// The answer to a request for a session's details.
pub fn info_response(s: &Session, probe: SessionProbe) -> (r: Response)
    ensures
        r matches Response::Success(ResponseData::SessionInfo(info)) && describes(info, *s, probe),
{
    let SessionProbe { cwd, fg } = probe;
    Response::Success(ResponseData::SessionInfo(s.to_info(cwd, &fg)))
}

/// The answer to a request for a session's working directory: `?` when
/// it could not be read.
pub fn cwd_response(cwd: Option<String>) -> (r: Response)
    ensures
        r matches Response::Success(ResponseData::Cwd(c)) && c@ == match cwd {
            Some(d) => d@,
            None => "?"@,
        },
{
    match cwd {
        Some(d) => Response::Success(ResponseData::Cwd(d)),
        None => {
            let mut q = String::new();
            push_str(&mut q, "?");
            Response::Success(ResponseData::Cwd(q))
        },
    }
}

/// The answer to a request for a session's foreground processes.
pub fn ps_response(procs: Vec<(u32, String)>) -> (r: Response)
    ensures
        r matches Response::Success(ResponseData::ProcessInfo(entries)) && entries@.len() == procs@.len()
            && forall|i: int|
            0 <= i < procs@.len() ==> (#[trigger] entries@[i]).pid == procs@[i].0 && entries@[i].command
                == procs@[i].1,
{
    let mut entries: Vec<ProcessEntry> = Vec::new();
    let mut procs = procs;
    let ghost all = procs@;
    let mut rest: Vec<(u32, String)> = Vec::new();
    // Take the processes from the back, then put them in order.
    while procs.len() > 0
        invariant
            procs@ + rest@.reverse() == all,
        decreases procs@.len(),
    {
        let p = procs.pop().unwrap();
        let ghost before = rest@;
        rest.push(p);
        assert(procs@ + rest@.reverse() =~= all) by {
            assert(rest@.reverse() =~= seq![p] + before.reverse());
        }
    }
    assert(rest@.reverse() =~= all);
    while rest.len() > 0
        invariant
            entries@.len() + rest@.len() == all.len(),
            forall|i: int|
                0 <= i < entries@.len() ==> (#[trigger] entries@[i]).pid == all[i].0
                    && entries@[i].command == all[i].1,
            forall|i: int| 0 <= i < rest@.len() ==> #[trigger] rest@[i] == all[all.len() - 1 - i],
        decreases rest@.len(),
    {
        let (pid, command) = rest.pop().unwrap();
        entries.push(ProcessEntry { pid, command });
    }
    Response::Success(ResponseData::ProcessInfo(entries))
}

/// The answer to a request for the daemon's status.
pub fn status_response(registry: &SessionRegistry, pid: u32, uptime_secs: u64) -> (r: Response)
    requires
        registry.wf(),
    ensures
        r matches Response::Success(ResponseData::DaemonStatus { pid: p, uptime_secs: u, session_count: n })
            && p == pid && u == uptime_secs && n == registry.sessions_view().dom().len(),
{
    Response::Success(ResponseData::DaemonStatus { pid, uptime_secs, session_count: registry.len() })
}


/// Attaches client `client_id` to the session `target` resolves to and
/// answers with the session's scrollback; failures to resolve are reported
/// with code 4.
pub fn handle_session_attach(
    registry: &mut SessionRegistry,
    clients: &mut ClientTable,
    client_id: ClientId,
    target: &str,
    read_only: bool,
) -> (r: Response)
    requires
        old(registry).wf(),
    ensures
        final(registry).wf(),
        exists|r0: Result<SessionId, SnagError>|
            resolves_to(old(registry).sessions_view(), old(registry).names_view(), old(registry).id_order(), target, r0)
                && match r0 {
                Err(e) => is_error(r, 4, error_text(e)) && *final(registry) == *old(registry)
                    && final(clients)@ == old(clients)@,
                Ok(id) => if old(registry).sessions_view().contains_key(id@) {
                    &&& attached_to(*old(registry), *final(registry), id@, client_id)
                    &&& watches(old(clients)@, final(clients)@, client_id, id, read_only)
                    &&& r matches Response::Success(ResponseData::Output(text)) && text@ == utf8_lossy(
                        old(registry).sessions_view()[id@].scrollback@,
                    )
                } else {
                    is_error(r, 4, "session not found: "@ + target@) && *final(registry)
                        == *old(registry) && final(clients)@ == old(clients)@
                },
            },
{
    match registry.resolve(target) {
        Err(e) => error_response(4, e.message()),
        Ok(id) => {
            if registry.attach_client(id.as_str(), client_id) {
                let scrollback = match registry.get(id.as_str()) {
                    Some(s) => s.scrollback.all_bytes(),
                    None => Vec::new(),
                };
                clients.attach(client_id, id, read_only);
                Response::Success(ResponseData::Output(lossy_text(scrollback.as_slice())))
            } else {
                let mut m = String::new();
                push_str(&mut m, "session not found: ");
                push_str(&mut m, target);
                error_response(4, m)
            }
        },
    }
}

/// `after` records that client `c`, when it was connected in `before`,
/// now watches (or drives, when not `read_only`) session `id`.
pub open spec fn watches(
    before: Map<ClientId, ClientState>,
    after: Map<ClientId, ClientState>,
    c: ClientId,
    id: SessionId,
    read_only: bool,
) -> bool {
    if before.contains_key(c) {
        after == before.insert(c, ClientState { read_only, session_id: Some(id) })
    } else {
        after == before
    }
}

/// The registry after client `c`, attached to `session` (if to anything),
/// has left it.
pub open spec fn left_session(
    before: SessionRegistry,
    after: SessionRegistry,
    session: Option<SessionId>,
    c: ClientId,
) -> bool {
    match session {
        Some(sid) => if before.sessions_view().contains_key(sid@) {
            detached_from(before, after, sid@, c)
        } else {
            after == before
        },
        None => after == before,
    }
}

/// Detaches client `client_id` from the session it watches.
pub fn handle_session_detach(registry: &mut SessionRegistry, clients: &mut ClientTable, client_id: ClientId) -> (r: Response)
    requires
        old(registry).wf(),
    ensures
        final(registry).wf(),
        is_done(r),
        !old(clients)@.contains_key(client_id) ==> final(clients)@ == old(clients)@ && *final(registry)
            == *old(registry),
        old(clients)@.contains_key(client_id) ==> {
            let c = old(clients)@[client_id];
            &&& final(clients)@ == old(clients)@.insert(
                client_id,
                ClientState { read_only: c.read_only, session_id: None },
            )
            &&& left_session(*old(registry), *final(registry), c.session_id, client_id)
        },
{
    match clients.take_session(client_id) {
        Some(sid) => {
            registry.detach_client(sid.as_str(), client_id);
        },
        None => {},
    }
    done()
}

/// Forgets client `client_id`, which has gone, and takes it off the
/// session it watched.
pub fn client_disconnected(registry: &mut SessionRegistry, clients: &mut ClientTable, client_id: ClientId)
    requires
        old(registry).wf(),
    ensures
        final(registry).wf(),
        final(clients)@ == old(clients)@.remove(client_id),
        !old(clients)@.contains_key(client_id) ==> *final(registry) == *old(registry),
        old(clients)@.contains_key(client_id) ==> left_session(
            *old(registry),
            *final(registry),
            old(clients)@[client_id].session_id,
            client_id,
        ),
{
    match clients.disconnect(client_id) {
        Some(c) => match c.session_id {
            Some(sid) => {
                registry.detach_client(sid.as_str(), client_id);
            },
            None => {},
        },
        None => {},
    }
}

/// Text given when a registered session's output cannot be read.
pub open spec fn no_capture_text() -> Seq<char> {
    "output capture not available: shell does not support process substitution (requires bash or zsh)"@
}

/// The scrollback bytes a request for output returns: the last `lines`
/// lines when given, else all of it.
pub open spec fn output_bytes(scrollback: Seq<u8>, lines: Option<u32>, out: Seq<u8>) -> bool {
    match lines {
        Some(n) => is_last_lines(scrollback, n as nat, out),
        None => out == scrollback,
    }
}

/// Answers with the output of the session `target` resolves to (its last
/// `lines` lines, or all of it); with `follow`, the client also starts to
/// watch it, read-only. A registered session without a capture file and
/// with nothing captured is refused with code 9; failures to resolve with
/// code 4.
pub fn handle_session_output(
    registry: &mut SessionRegistry,
    clients: &mut ClientTable,
    client_id: ClientId,
    target: &str,
    lines: Option<u32>,
    follow: bool,
) -> (r: Response)
    requires
        old(registry).wf(),
    ensures
        final(registry).wf(),
        exists|r0: Result<SessionId, SnagError>|
            resolves_to(old(registry).sessions_view(), old(registry).names_view(), old(registry).id_order(), target, r0)
                && match r0 {
                Err(e) => is_error(r, 4, error_text(e)) && *final(registry) == *old(registry)
                    && final(clients)@ == old(clients)@,
                Ok(id) => if !old(registry).sessions_view().contains_key(id@) {
                    is_error(r, 4, "session not found: "@ + target@) && *final(registry)
                        == *old(registry) && final(clients)@ == old(clients)@
                } else {
                    let s = old(registry).sessions_view()[id@];
                    if s.registered && s.capture_path is None && s.scrollback@.len() == 0 {
                        is_error(r, 9, no_capture_text()) && *final(registry) == *old(registry)
                            && final(clients)@ == old(clients)@
                    } else {
                        &&& exists|out: Seq<u8>|
                            output_bytes(s.scrollback@, lines, out) && (r matches Response::Success(
                                ResponseData::Output(text),
                            ) && text@ == utf8_lossy(out))
                        &&& follow ==> attached_to(*old(registry), *final(registry), id@, client_id)
                            && watches(old(clients)@, final(clients)@, client_id, id, true)
                        &&& !follow ==> *final(registry) == *old(registry) && final(clients)@
                            == old(clients)@
                    }
                },
            },
{
    let id = match registry.resolve(target) {
        Err(e) => {
            return error_response(4, e.message());
        },
        Ok(id) => id,
    };
    let output = match registry.get(id.as_str()) {
        None => {
            let mut m = String::new();
            push_str(&mut m, "session not found: ");
            push_str(&mut m, target);
            return error_response(4, m);
        },
        Some(s) => {
            // For registered sessions without capture, warn
            if s.registered && s.capture_path.is_none() && s.scrollback.is_empty() {
                let mut m = String::new();
                push_str(
                    &mut m,
                    "output capture not available: shell does not support process substitution (requires bash or zsh)",
                );
                return error_response(9, m);
            }
            match lines {
                Some(n) => s.scrollback.last_n_lines(n as usize),
                None => s.scrollback.all_bytes(),
            }
        },
    };
    let ghost sb = old(registry).sessions_view()[id@].scrollback@;
    assert(output_bytes(sb, lines, output@));
    if follow {
        registry.attach_client(id.as_str(), client_id);
        clients.attach(client_id, id, true);
    }
    let r = Response::Success(ResponseData::Output(lossy_text(output.as_slice())));
    assert(output_bytes(sb, lines, output@) && (r matches Response::Success(ResponseData::Output(text))
        && text@ == utf8_lossy(output@)));
    r
}

/// Where input for the session `target` resolves to goes: the session's
/// PTY master and the bytes of `input` followed by a newline; or the error
/// (code 4) to answer with.
pub fn plan_session_send(registry: &SessionRegistry, target: &str, input: &str) -> (r: Result<(i32, Vec<u8>), Response>)
    requires
        registry.wf(),
    ensures
        exists|r0: Result<SessionId, SnagError>|
            resolves_to(registry.sessions_view(), registry.names_view(), registry.id_order(), target, r0) && match r0 {
                Err(e) => r matches Err(resp) && is_error(resp, 4, error_text(e)),
                Ok(id) => if registry.sessions_view().contains_key(id@) {
                    r matches Ok((fd, bytes)) && fd == registry.sessions_view()[id@].master_fd
                        && bytes@ == input.spec_bytes().push(10u8)
                } else {
                    r matches Err(resp) && is_error(resp, 4, "session not found: "@ + target@)
                },
            },
{
    match registry.resolve(target) {
        Err(e) => Err(error_response(4, e.message())),
        Ok(id) => match registry.get(id.as_str()) {
            Some(s) => {
                let mut bytes = slice_to_vec(input.as_bytes());
                bytes.push(10u8);
                Ok((s.master_fd, bytes))
            },
            None => {
                let mut m = String::new();
                push_str(&mut m, "session not found: ");
                push_str(&mut m, target);
                Err(error_response(4, m))
            },
        },
    }
}

/// The PTY master that input from client `client_id` goes to: none when
/// the client is unknown, watches read-only, or watches nothing that
/// exists.
pub fn input_target(registry: &SessionRegistry, clients: &ClientTable, client_id: ClientId) -> (r: Option<i32>)
    requires
        registry.wf(),
    ensures
        r == match clients@.get(client_id) {
            None => None,
            Some(c) => if c.read_only {
                None
            } else {
                session_fd(registry.sessions_view(), c.session_id)
            },
        },
{
    match clients.get(client_id) {
        None => None,
        Some(c) => {
            if c.read_only {
                None
            } else {
                fd_of(registry, &c.session_id)
            }
        },
    }
}

/// The PTY master of the session client `client_id` watches, whose window
/// size a resize request from it sets.
pub fn resize_target(registry: &SessionRegistry, clients: &ClientTable, client_id: ClientId) -> (r: Option<i32>)
    requires
        registry.wf(),
    ensures
        r == match clients@.get(client_id) {
            None => None,
            Some(c) => session_fd(registry.sessions_view(), c.session_id),
        },
{
    match clients.get(client_id) {
        None => None,
        Some(c) => fd_of(registry, &c.session_id),
    }
}

/// The PTY master of session `id`, when there is such a session.
pub open spec fn session_fd(sv: Map<Seq<char>, Session>, id: Option<SessionId>) -> Option<i32> {
    match id {
        Some(sid) => if sv.contains_key(sid@) {
            Some(sv[sid@].master_fd)
        } else {
            None
        },
        None => None,
    }
}

fn fd_of(registry: &SessionRegistry, id: &Option<SessionId>) -> (r: Option<i32>)
    requires
        registry.wf(),
    ensures
        r == session_fd(registry.sessions_view(), *id),
{
    match id {
        Some(sid) => match registry.get(sid.as_str()) {
            Some(s) => Some(s.master_fd),
            None => None,
        },
        None => None,
    }
}

/// Records that session `id` has ended with `code`; returns the clients to
/// tell (none when there is no such session) and whether every session
/// has now ended, so that the daemon's grace period starts.
pub fn session_ended(registry: &mut SessionRegistry, id: &str, code: i32) -> (r: (Option<Vec<ClientId>>, bool))
    requires
        old(registry).wf(),
    ensures
        final(registry).wf(),
        final(registry).names_view() == old(registry).names_view(),
        final(registry).id_order() == old(registry).id_order(),
        match r.0 {
            None => !old(registry).sessions_view().contains_key(id@) && *final(registry)
                == *old(registry),
            Some(c) => {
                let before = old(registry).sessions_view()[id@];
                let after = final(registry).sessions_view()[id@];
                &&& old(registry).sessions_view().contains_key(id@)
                &&& only_changed(old(registry).sessions_view(), final(registry).sessions_view(), id@)
                &&& same_identity(after, before)
                &&& after.state == SessionState::Exited(code)
                &&& after.attached_clients == before.attached_clients
                &&& after.capture_path == before.capture_path
                &&& after.scrollback == before.scrollback
                &&& c@ == before.attached_clients@
            },
        },
        r.1 == forall|k: Seq<char>|
            #[trigger] final(registry).sessions_view().contains_key(k) ==> final(registry).sessions_view()[k].state
                is Exited,
{
    let notify = registry.set_exited(id, code);
    let all = registry.all_exited();
    (notify, all)
}


/// Picks, among the terminals found on the machine, the one a shell
/// registering from `pts` runs in; the error (code 4) when none is.
pub fn register_target(found: &Vec<DiscoveredSession>, pts: &str) -> (r: Result<usize, Response>)
    ensures
        match r {
            Ok(i) => i < found@.len() && found@[i as int].pts@ == pts@ && forall|j: int|
                0 <= j < i ==> (#[trigger] found@[j]).pts@ != pts@,
            Err(resp) => is_error(resp, 4, "no PTY session found for: "@ + pts@) && forall|j: int|
                0 <= j < found@.len() ==> (#[trigger] found@[j]).pts@ != pts@,
        },
{
    let mut i: usize = 0;
    while i < found.len()
        invariant
            i <= found@.len(),
            forall|j: int| 0 <= j < i ==> (#[trigger] found@[j]).pts@ != pts@,
        decreases found@.len() - i,
    {
        if same_text(found[i].pts.as_str(), pts) {
            return Ok(i);
        }
        i = i + 1;
    }
    let mut m = String::new();
    push_str(&mut m, "no PTY session found for: ");
    push_str(&mut m, pts);
    Err(error_response(4, m))
}

/// Second step of a registration, once `check_new_name` has passed the
/// name, given what the scan of the machine's terminals gave: a failed scan is refused with
/// code 7, a terminal `pts` that no process holds with code 4; otherwise
/// the first terminal found at `pts` is the one to take over. A refusal
/// is the reply; nothing is added.
pub fn register_scanned(scan: Result<Vec<DiscoveredSession>, SnagError>, pts: &str) -> (r: Result<DiscoveredSession, Response>)
    ensures
        match scan {
            Err(e) => r matches Err(resp) && is_error(resp, 7, error_text(e)),
            Ok(found) => if exists|i: int| 0 <= i < found@.len() && (#[trigger] found@[i]).pts@ == pts@ {
                exists|i: int|
                    0 <= i < found@.len() && (forall|j: int| 0 <= j < i ==> (#[trigger] found@[j]).pts@ != pts@)
                        && r == Ok::<DiscoveredSession, Response>(found@[i])
            } else {
                r matches Err(resp) && is_error(resp, 4, "no PTY session found for: "@ + pts@)
            },
        },
{
    match scan {
        Err(e) => Err(error_response(7, e.message())),
        Ok(found) => match register_target(&found, pts) {
            Ok(i) => {
                let mut found = found;
                let d = found.remove(i);
                Ok(d)
            },
            Err(resp) => Err(resp),
        },
    }
}

/// Third step of a registration, given what taking over the terminal's
/// master gave: its descriptor, or the failure, refused with code 8 (the
/// reply; nothing is added). `complete_register` adds the session.
pub fn register_adopted(adopted: Result<i32, SnagError>) -> (r: Result<i32, Response>)
    ensures
        match adopted {
            Ok(fd) => r == Ok::<i32, Response>(fd),
            Err(e) => r matches Err(resp) && is_error(resp, 8, error_text(e)),
        },
{
    match adopted {
        Ok(fd) => Ok(fd),
        Err(e) => Err(error_response(8, e.message())),
    }
}

/// `s` is the session made for a shell that registered itself.
pub open spec fn registered_session(
    s: Session,
    id: SessionId,
    name: Option<String>,
    master_fd: i32,
    shell_pid: Option<u32>,
    shell: Seq<char>,
    pts: String,
    scrollback_bytes: usize,
    capture_path: Option<String>,
) -> bool {
    &&& s.wf()
    &&& s.id == id
    &&& s.name == name
    &&& s.master_fd == master_fd
    &&& s.child_pid == shell_pid
    &&& s.shell@ == shell
    &&& s.pts_path == pts
    &&& s.state == SessionState::Running
    &&& s.scrollback@ == Seq::<u8>::empty()
    &&& s.scrollback.capacity() == scrollback_bytes
    &&& s.attached_clients@ == Seq::<ClientId>::empty()
    &&& s.registered
    &&& s.capture_path == capture_path
}

/// Last step of a registration, once the daemon has taken over the
/// terminal's master: the session `id` is added, with the registering
/// shell's process `shell_pid` (its shell named by that process's command,
/// `shell` when that could not be read), and reported with its capture
/// file, if one was set up.
pub fn complete_register(
    registry: &mut SessionRegistry,
    id: SessionId,
    name: Option<String>,
    master_fd: i32,
    shell_pid: u32,
    shell_name: Option<String>,
    pts: String,
    scrollback_bytes: usize,
    capture_path: Option<String>,
) -> (r: Response)
    requires
        old(registry).wf(),
        scrollback_bytes <= isize::MAX,
    ensures
        final(registry).wf(),
        r matches Response::Success(ResponseData::SessionRegistered { id: rid, capture_path: cp })
            && rid@ == id@ && cp@ == match capture_path {
            Some(p) => p@,
            None => Seq::<char>::empty(),
        },
        exists|s: Session|
            registered_session(
                s,
                id,
                name,
                master_fd,
                Some(shell_pid),
                match shell_name {
                    Some(n) => n@,
                    None => "shell"@,
                },
                pts,
                scrollback_bytes,
                capture_path,
            ) && final(registry).sessions_view() == old(registry).sessions_view().insert(id@, s),
        final(registry).names_view() == with_name(old(registry).names_view(), name, id@),
{
    let shell = match shell_name {
        Some(n) => n,
        None => {
            let mut d = String::new();
            push_str(&mut d, "shell");
            d
        },
    };
    let reply_path = match &capture_path {
        Some(p) => p.clone(),
        None => String::new(),
    };
    let reply_id = id.clone();
    let session = Session::new_registered(
        id,
        name,
        master_fd,
        Some(shell_pid),
        shell,
        pts,
        scrollback_bytes,
        capture_path,
    );
    registry.insert(session);
    Response::Success(ResponseData::SessionRegistered { id: reply_id, capture_path: reply_path })
}

/// Text given when asked to unregister a session the daemon spawned.
pub open spec fn not_registered_text() -> Seq<char> {
    "cannot unregister a spawned session; use 'kill' instead"@
}

/// Unregisters the session `target` resolves to: it leaves the registry
/// and is handed back so that its capture can be torn down; its shell
/// keeps running. Spawned sessions are refused with code 10, failures to
/// resolve reported with code 4.
pub fn handle_session_unregister(registry: &mut SessionRegistry, target: &str) -> (r: (Response, Option<Session>))
    requires
        old(registry).wf(),
    ensures
        final(registry).wf(),
        exists|r0: Result<SessionId, SnagError>|
            resolves_to(old(registry).sessions_view(), old(registry).names_view(), old(registry).id_order(), target, r0)
                && match r0 {
                Err(e) => is_error(r.0, 4, error_text(e)) && r.1 is None && *final(registry)
                    == *old(registry),
                Ok(id) => if !old(registry).sessions_view().contains_key(id@) {
                    is_error(r.0, 4, "session not found: "@ + target@) && r.1 is None
                        && *final(registry) == *old(registry)
                } else {
                    let s = old(registry).sessions_view()[id@];
                    if !s.registered {
                        is_error(r.0, 10, not_registered_text()) && r.1 is None && *final(registry)
                            == *old(registry)
                    } else {
                        &&& is_done(r.0)
                        &&& r.1 == Some(s)
                        &&& final(registry).sessions_view() == old(registry).sessions_view().remove(
                            id@,
                        )
                        &&& final(registry).names_view() == without_name(
                            old(registry).names_view(),
                            s.name,
                        )
                    }
                },
            },
{
    let id = match registry.resolve(target) {
        Err(e) => {
            return (error_response(4, e.message()), None);
        },
        Ok(id) => id,
    };
    match registry.get(id.as_str()) {
        Some(s) => {
            if !s.registered {
                let mut m = String::new();
                push_str(&mut m, "cannot unregister a spawned session; use 'kill' instead");
                return (error_response(10, m), None);
            }
        },
        None => {},
    }
    match registry.remove(id.as_str()) {
        Some(s) => (done(), Some(s)),
        None => {
            let mut m = String::new();
            push_str(&mut m, "session not found: ");
            push_str(&mut m, target);
            (error_response(4, m), None)
        },
    }
}


/// A line of output matches the lowercase pattern `pat`: it is not blank,
/// and its text, trimmed and lowercased, contains `pat`.
pub open spec fn line_matches(line: Seq<char>, pat: Seq<char>) -> bool {
    trimmed(line).len() > 0 && occurs_in(pat, lowercase(trimmed(line)))
}

/// The lines of `ls` that match `pat`, in order.
pub open spec fn matching_lines(ls: Seq<Seq<char>>, pat: Seq<char>) -> Seq<Seq<char>>
    decreases ls.len(),
{
    if ls.len() == 0 {
        Seq::empty()
    } else {
        (if line_matches(ls[0], pat) {
            seq![ls[0]]
        } else {
            Seq::empty()
        }) + matching_lines(ls.drop_first(), pat)
    }
}

/// The lines of session `s`'s scrollback, read as text and stripped of
/// escape sequences, that match `pat`.
pub open spec fn session_matches(s: Session, pat: Seq<char>) -> Seq<Seq<char>> {
    if s.scrollback@.len() == 0 {
        Seq::empty()
    } else {
        matching_lines(lines(stripped(utf8_lossy(s.scrollback@))), pat)
    }
}

/// A search result as plain values: the session's ID, its name, the lines.
pub open spec fn grep_view(m: GrepMatch) -> (Seq<char>, Option<Seq<char>>, Seq<Seq<char>>) {
    (m.session_id@, opt_text(m.session_name), views(m.lines@))
}

/// The results of searching the sessions `order` for `pat`: one for each
/// session with matching lines, in order.
pub open spec fn grep_results(order: Seq<Session>, pat: Seq<char>) -> Seq<(Seq<char>, Option<Seq<char>>, Seq<Seq<char>>)>
    decreases order.len(),
{
    if order.len() == 0 {
        Seq::empty()
    } else {
        let s = order[0];
        let ls = session_matches(s, pat);
        (if ls.len() > 0 {
            seq![(s.id@, opt_text(s.name), ls)]
        } else {
            Seq::empty()
        }) + grep_results(order.drop_first(), pat)
    }
}

/// The lines of `s`'s scrollback that match `pat`.
fn session_grep(s: &Session, pat: &Vec<char>) -> (r: Vec<String>)
    requires
        s.wf(),
    ensures
        views(r@) == session_matches(*s, pat@),
{
    let raw = s.scrollback.all_bytes();
    if raw.len() == 0 {
        let r: Vec<String> = Vec::new();
        assert(views(r@) =~= Seq::<Seq<char>>::empty());
        return r;
    }
    let text = lossy_text(raw.as_slice());
    let plain = strip_ansi(text.as_str());
    let cs = chars_of(plain.as_str());
    let ls = lines_of(&cs);
    let ghost all = views(ls@);
    let mut out: Vec<String> = Vec::new();
    let mut j: usize = 0;
    assert(all.skip(0) =~= all);
    assert(views(out@) + matching_lines(all.skip(0), pat@) =~= matching_lines(all, pat@));
    while j < ls.len()
        invariant
            all == views(ls@),
            j <= ls@.len(),
            views(out@) + matching_lines(all.skip(j as int), pat@) == matching_lines(all, pat@),
        decreases ls@.len() - j,
    {
        let ghost rest = all.skip(j as int);
        assert(rest.drop_first() =~= all.skip(j + 1));
        assert(rest[0] == ls@[j as int]@);
        let lc = chars_of(ls[j].as_str());
        let t = trim_chars(&lc);
        let mut hit = false;
        if t.len() > 0 {
            let ts = string_of(t.as_slice());
            let lower = to_lowercase(ts.as_str());
            let lower_chars = chars_of(lower.as_str());
            hit = occurs(pat, &lower_chars);
        }
        assert(hit == line_matches(rest[0], pat@));
        let ghost before = views(out@);
        if hit {
            out.push(ls[j].clone());
            assert(views(out@) =~= before + seq![rest[0]]);
            assert(before + (seq![rest[0]] + matching_lines(all.skip(j + 1), pat@)) =~= views(out@)
                + matching_lines(all.skip(j + 1), pat@));
        } else {
            assert(Seq::<Seq<char>>::empty() + matching_lines(all.skip(j + 1), pat@) =~= matching_lines(
                all.skip(j + 1),
                pat@,
            ));
        }
        j = j + 1;
    }
    assert(all.skip(j as int) =~= Seq::<Seq<char>>::empty());
    assert(views(out@) + Seq::<Seq<char>>::empty() =~= views(out@));
    out
}

/// Searches every session's scrollback for lines that contain `pattern`,
/// ignoring case, escape sequences and blank lines.
pub fn handle_session_grep(registry: &SessionRegistry, pattern: &str) -> (r: Response)
    requires
        registry.wf(),
    ensures
        r matches Response::Success(ResponseData::GrepResult(ms)) && exists|order: Seq<Session>|
            enumerates(order, registry.sessions_view()) && ms@.map_values(|m: GrepMatch| grep_view(m))
                == grep_results(order, lowercase(pattern@)),
{
    let lower = to_lowercase(pattern);
    let pat = chars_of(lower.as_str());
    let sessions = registry.sessions();
    let ghost order = sessions@;
    let mut ms: Vec<GrepMatch> = Vec::new();
    let mut i: usize = 0;
    assert(order.skip(0) =~= order);
    assert(ms@.map_values(|m: GrepMatch| grep_view(m)) + grep_results(order.skip(0), pat@) =~= grep_results(
        order,
        pat@,
    ));
    while i < sessions.len()
        invariant
            order == sessions@,
            forall|k: int| 0 <= k < order.len() ==> (#[trigger] order[k]).wf(),
            i <= order.len(),
            ms@.map_values(|m: GrepMatch| grep_view(m)) + grep_results(order.skip(i as int), pat@)
                == grep_results(order, pat@),
        decreases order.len() - i,
    {
        let ghost rest = order.skip(i as int);
        assert(rest.drop_first() =~= order.skip(i + 1));
        let s = &sessions[i];
        let found = session_grep(s, &pat);
        let ghost before = ms@.map_values(|m: GrepMatch| grep_view(m));
        if found.len() > 0 {
            let name = match &s.name {
                Some(n) => Some(n.clone()),
                None => None,
            };
            let m = GrepMatch { session_id: s.id.clone(), session_name: name, lines: found };
            ms.push(m);
            assert(ms@.map_values(|m: GrepMatch| grep_view(m)) =~= before + seq![grep_view(m)]);
            assert(before + (seq![grep_view(m)] + grep_results(order.skip(i + 1), pat@)) =~= ms@.map_values(
                |m: GrepMatch| grep_view(m),
            ) + grep_results(order.skip(i + 1), pat@));
        } else {
            assert(Seq::<(Seq<char>, Option<Seq<char>>, Seq<Seq<char>>)>::empty() + grep_results(
                order.skip(i + 1),
                pat@,
            ) =~= grep_results(order.skip(i + 1), pat@));
        }
        i = i + 1;
    }
    assert(order.skip(i as int) =~= Seq::<Session>::empty());
    assert(ms@.map_values(|m: GrepMatch| grep_view(m)) + Seq::<(Seq<char>, Option<Seq<char>>, Seq<Seq<char>>)>::empty()
        =~= ms@.map_values(|m: GrepMatch| grep_view(m)));
    Response::Success(ResponseData::GrepResult(ms))
}

} // verus!
