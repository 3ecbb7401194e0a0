use snag::daemon::clients::ClientTable;
use snag::daemon::grace::{grace_step, GraceAction, GraceEvent};
use snag::daemon::registry::SessionRegistry;
use snag::daemon::server::{
    check_new_name, check_session_new, cleanup_for, client_disconnected, complete_register, complete_session_new,
    cwd_response, handle_session_attach, handle_session_detach, handle_session_grep,
    handle_session_kill, handle_session_output, handle_session_rename, handle_session_unregister,
    input_target, list_response, plan_session_send, ps_response, register_adopted, register_scanned, register_target, resize_target,
    session_ended, shutdown_plan, status_response, target_session, Cleanup, SessionProbe,
    SpawnedShell,
};
use snag::daemon::session::{Session, SessionState};
use snag::error::SnagError;
use snag::protocol::types::{DiscoveredSession, Response, ResponseData};

fn spawned(id: &str, name: Option<&str>, fd: i32, pid: u32) -> Session {
    Session::new_spawned(
        id.to_string(),
        name.map(|s| s.to_string()),
        fd,
        pid,
        "/bin/bash".to_string(),
        "/dev/pts/3".to_string(),
        1024,
    )
}

fn error_of(r: &Response) -> (u16, String) {
    match r {
        Response::Error { code, message } => (*code, message.clone()),
        _ => panic!("expected an error response"),
    }
}

fn is_done(r: &Response) -> bool {
    matches!(r, Response::Success(ResponseData::Empty))
}

#[test]
fn new_session_name_checks() {
    let mut reg = SessionRegistry::new();
    reg.insert(spawned("abc123", Some("dev"), 3, 10));
    assert!(check_new_name(&reg, &None).is_none());
    assert!(check_new_name(&reg, &Some("fresh".to_string())).is_none());
    let (code, msg) = error_of(&check_new_name(&reg, &Some("dev".to_string())).unwrap());
    assert_eq!(code, 2);
    assert_eq!(msg, "session name already in use: dev");
    let (code, msg) = error_of(&check_new_name(&reg, &Some("foo/bar".to_string())).unwrap());
    assert_eq!(code, 1);
    assert!(msg.starts_with("invalid session name 'foo/bar'"));
}

#[test]
fn new_session_is_added_or_failure_reported() {
    let mut reg = SessionRegistry::new();
    let r = complete_session_new(
        &mut reg,
        "0123456789abcdef".to_string(),
        Some("dev".to_string()),
        "/bin/zsh".to_string(),
        Ok(SpawnedShell { master_fd: 5, child_pid: 42, pts_path: "/dev/pts/9".to_string() }),
        2048,
    );
    match r {
        Response::Success(ResponseData::SessionCreated { id }) => assert_eq!(id, "0123456789abcdef"),
        _ => panic!("expected the new session"),
    }
    let s = reg.get("0123456789abcdef").unwrap();
    assert_eq!(s.master_fd, 5);
    assert_eq!(s.child_pid, Some(42));
    assert_eq!(s.shell, "/bin/zsh");
    assert_eq!(reg.resolve("dev").unwrap(), "0123456789abcdef");
    let r = complete_session_new(
        &mut reg,
        "ffff".to_string(),
        None,
        "/bin/sh".to_string(),
        Err(SnagError::Io("no pty".to_string())),
        16,
    );
    assert_eq!(error_of(&r), (3, "failed to spawn session: I/O error: no pty".to_string()));
    assert_eq!(reg.len(), 1);
}

#[test]
fn kill_removes_and_reports() {
    let mut reg = SessionRegistry::new();
    reg.insert(spawned("abc123", Some("dev"), 3, 77));
    let (r, s) = handle_session_kill(&mut reg, "nonexistent");
    assert_eq!(error_of(&r), (4, "session not found: nonexistent".to_string()));
    assert!(s.is_none());
    let (r, s) = handle_session_kill(&mut reg, "dev");
    assert!(is_done(&r));
    let s = s.unwrap();
    assert!(matches!(cleanup_for(&s), Cleanup::Hangup(77)));
    assert!(reg.is_empty());
    assert!(!reg.has_name("dev"));
}

#[test]
fn rename_handler_codes() {
    let mut reg = SessionRegistry::new();
    reg.insert(spawned("abc123", Some("dev"), 3, 1));
    reg.insert(spawned("xyz789", Some("ci"), 4, 2));
    assert_eq!(error_of(&handle_session_rename(&mut reg, "dev", "a/b".to_string())).0, 1);
    let (code, msg) = error_of(&handle_session_rename(&mut reg, "dev", "ci".to_string()));
    assert_eq!(code, 5);
    assert_eq!(msg, "session name already in use: ci");
    assert!(is_done(&handle_session_rename(&mut reg, "dev", "prod".to_string())));
    assert_eq!(reg.resolve("prod").unwrap(), "abc123");
}

#[test]
fn attach_output_and_detach() {
    let mut reg = SessionRegistry::new();
    let mut clients = ClientTable::new();
    clients.connect(1);
    reg.insert(spawned("abc123", Some("dev"), 3, 1));
    reg.write_output("abc123", b"one\ntwo\nthree\n");
    match handle_session_attach(&mut reg, &mut clients, 1, "dev", false) {
        Response::Success(ResponseData::Output(text)) => assert_eq!(text, "one\ntwo\nthree\n"),
        _ => panic!("expected the scrollback"),
    }
    assert_eq!(reg.get("abc123").unwrap().attached_clients, vec![1]);
    assert_eq!(clients.get(1).unwrap().session_id.as_deref(), Some("abc123"));
    assert_eq!(input_target(&reg, &clients, 1), Some(3));
    assert_eq!(resize_target(&reg, &clients, 1), Some(3));
    match handle_session_output(&mut reg, &mut clients, 2, "abc", Some(2), false) {
        Response::Success(ResponseData::Output(text)) => assert_eq!(text, "two\nthree\n"),
        _ => panic!("expected output"),
    }
    assert!(is_done(&handle_session_detach(&mut reg, &mut clients, 1)));
    assert!(reg.get("abc123").unwrap().attached_clients.is_empty());
    assert_eq!(input_target(&reg, &clients, 1), None);
    assert_eq!(error_of(&handle_session_attach(&mut reg, &mut clients, 1, "zz", false)).0, 4);
}

#[test]
fn following_output_watches_read_only() {
    let mut reg = SessionRegistry::new();
    let mut clients = ClientTable::new();
    clients.connect(5);
    reg.insert(spawned("abc123", None, 3, 1));
    let r = handle_session_output(&mut reg, &mut clients, 5, "abc123", None, true);
    assert!(matches!(r, Response::Success(ResponseData::Output(ref t)) if t.is_empty()));
    let c = clients.get(5).unwrap();
    assert!(c.read_only);
    assert_eq!(input_target(&reg, &clients, 5), None);
    assert_eq!(resize_target(&reg, &clients, 5), Some(3));
    client_disconnected(&mut reg, &mut clients, 5);
    assert!(clients.get(5).is_none());
    assert!(reg.get("abc123").unwrap().attached_clients.is_empty());
}

#[test]
fn registered_session_without_capture() {
    let mut reg = SessionRegistry::new();
    let r = complete_register(
        &mut reg,
        "feed".to_string(),
        None,
        9,
        4242,
        None,
        "/dev/pts/2".to_string(),
        64,
        None,
    );
    match r {
        Response::Success(ResponseData::SessionRegistered { id, capture_path }) => {
            assert_eq!(id, "feed");
            assert_eq!(capture_path, "");
        }
        _ => panic!("expected the registration"),
    }
    assert_eq!(reg.get("feed").unwrap().shell, "shell");
    assert_eq!(reg.get("feed").unwrap().child_pid, Some(4242));
    assert!(reg.get("feed").unwrap().registered);
    let mut clients = ClientTable::new();
    let (code, msg) = error_of(&handle_session_output(&mut reg, &mut clients, 1, "feed", None, false));
    assert_eq!(code, 9);
    assert_eq!(
        msg,
        "output capture not available: shell does not support process substitution (requires bash or zsh)"
    );
    let s = reg.get("feed").unwrap();
    match cleanup_for(s) {
        Cleanup::TeardownCapture { master_fd, capture_path } => {
            assert_eq!(master_fd, 9);
            assert!(capture_path.is_none());
        }
        _ => panic!("registered sessions lose their capture only"),
    }
    let (r, gone) = handle_session_unregister(&mut reg, "feed");
    assert!(is_done(&r));
    assert!(gone.is_some());
    assert!(reg.is_empty());
}

#[test]
fn unregister_refuses_spawned_sessions() {
    let mut reg = SessionRegistry::new();
    reg.insert(spawned("abc123", None, 3, 1));
    let (r, gone) = handle_session_unregister(&mut reg, "abc123");
    assert_eq!(
        error_of(&r),
        (10, "cannot unregister a spawned session; use 'kill' instead".to_string())
    );
    assert!(gone.is_none());
    assert_eq!(reg.len(), 1);
}

#[test]
fn send_appends_a_newline() {
    let mut reg = SessionRegistry::new();
    reg.insert(spawned("abc123", None, 8, 1));
    match plan_session_send(&reg, "abc", "echo hi") {
        Ok((fd, bytes)) => {
            assert_eq!(fd, 8);
            assert_eq!(bytes, b"echo hi\n");
        }
        Err(_) => panic!("expected a target"),
    }
    assert!(plan_session_send(&reg, "zzz", "x").is_err());
}

#[test]
fn grep_finds_lines_ignoring_case_and_escapes() {
    let mut reg = SessionRegistry::new();
    reg.insert(spawned("abc123", Some("dev"), 3, 1));
    reg.insert(spawned("xyz789", None, 4, 2));
    reg.write_output("abc123", b"\x1b[31mERROR\x1b[0m: disk\nok\n   \nerror again\r\n");
    reg.write_output("xyz789", b"nothing here\n");
    match handle_session_grep(&reg, "Error") {
        Response::Success(ResponseData::GrepResult(ms)) => {
            assert_eq!(ms.len(), 1);
            assert_eq!(ms[0].session_id, "abc123");
            assert_eq!(ms[0].session_name.as_deref(), Some("dev"));
            assert_eq!(ms[0].lines, vec!["ERROR: disk".to_string(), "error again".to_string()]);
        }
        _ => panic!("expected search results"),
    }
}

#[test]
fn listing_and_status() {
    let mut reg = SessionRegistry::new();
    reg.insert(spawned("abc123", Some("dev"), 3, 1));
    let probes = vec![SessionProbe { cwd: Some("/home/u".to_string()), fg: vec![(1, "bash".to_string())] }];
    match list_response(reg.sessions(), &probes) {
        Response::Success(ResponseData::SessionList(infos)) => {
            assert_eq!(infos.len(), 1);
            assert_eq!(infos[0].cwd, "/home/u");
            assert_eq!(infos[0].fg_process.as_deref(), Some("idle"));
            assert_eq!(infos[0].name.as_deref(), Some("dev"));
        }
        _ => panic!("expected a list"),
    }
    match status_response(&reg, 99, 3600) {
        Response::Success(ResponseData::DaemonStatus { pid, uptime_secs, session_count }) => {
            assert_eq!((pid, uptime_secs, session_count), (99, 3600, 1));
        }
        _ => panic!("expected the status"),
    }
    assert!(matches!(cwd_response(None), Response::Success(ResponseData::Cwd(ref c)) if c == "?"));
    match ps_response(vec![(5, "vim".to_string()), (6, "less".to_string())]) {
        Response::Success(ResponseData::ProcessInfo(e)) => {
            assert_eq!(e.len(), 2);
            assert_eq!((e[0].pid, e[0].command.as_str()), (5, "vim"));
            assert_eq!((e[1].pid, e[1].command.as_str()), (6, "less"));
        }
        _ => panic!("expected processes"),
    }
    assert!(target_session(&reg, "dev").is_ok());
    assert!(target_session(&reg, "nope").is_err());
}

#[test]
fn ending_sessions_starts_the_grace_period() {
    let mut reg = SessionRegistry::new();
    reg.insert(spawned("a1", None, 3, 1));
    reg.insert(spawned("b2", None, 4, 2));
    let (notify, all) = session_ended(&mut reg, "a1", 0);
    assert_eq!(notify, Some(vec![]));
    assert!(!all);
    let (_, all) = session_ended(&mut reg, "b2", 1);
    assert!(all);
    assert_eq!(reg.get("b2").unwrap().state, SessionState::Exited(1));
    let plan = shutdown_plan(&reg);
    assert_eq!(plan.len(), 2);
    assert!(plan.iter().all(|c| matches!(c, Cleanup::Hangup(_))));
}

#[test]
fn register_picks_the_terminal() {
    let found = vec![
        DiscoveredSession {
            pts: "/dev/pts/1".to_string(),
            holder_pid: 10,
            holder_fd: 3,
            shell_pid: None,
            command: String::new(),
            cwd: String::new(),
            adoptable: true,
        },
        DiscoveredSession {
            pts: "/dev/pts/2".to_string(),
            holder_pid: 11,
            holder_fd: 4,
            shell_pid: Some(12),
            command: "bash".to_string(),
            cwd: "/".to_string(),
            adoptable: true,
        },
    ];
    assert_eq!(register_target(&found, "/dev/pts/2").ok(), Some(1));
    match register_target(&found, "/dev/pts/7") {
        Err(r) => assert_eq!(error_of(&r), (4, "no PTY session found for: /dev/pts/7".to_string())),
        Ok(_) => panic!("no such terminal"),
    }
}

#[test]
fn register_steps_and_their_codes() {
    let terminal = |pts: &str, holder_pid: u32| DiscoveredSession {
        pts: pts.to_string(),
        holder_pid,
        holder_fd: 5,
        shell_pid: None,
        command: String::new(),
        cwd: String::new(),
        adoptable: true,
    };
    let found = vec![terminal("/dev/pts/1", 10), terminal("/dev/pts/2", 20), terminal("/dev/pts/2", 30)];
    match register_scanned(Ok(found.clone()), "/dev/pts/2") {
        Ok(d) => assert_eq!((d.pts.as_str(), d.holder_pid), ("/dev/pts/2", 20)),
        Err(_) => panic!("the terminal is there"),
    }
    match register_scanned(Ok(found), "/dev/pts/9") {
        Err(r) => assert_eq!(error_of(&r), (4, "no PTY session found for: /dev/pts/9".to_string())),
        Ok(_) => panic!("no such terminal"),
    }
    match register_scanned(Err(SnagError::Io("denied".to_string())), "/dev/pts/1") {
        Err(r) => assert_eq!(error_of(&r).0, 7),
        Ok(_) => panic!("the scan failed"),
    }
    assert_eq!(register_adopted(Ok(7)).ok(), Some(7));
    match register_adopted(Err(SnagError::Nix("EPERM".to_string()))) {
        Err(r) => assert_eq!(error_of(&r).0, 8),
        Ok(_) => panic!("adoption failed"),
    }
}

#[test]
fn new_session_paths_checked_before_spawn() {
    let mut reg = SessionRegistry::new();
    reg.insert(spawned("aaaa1111", Some("dev"), 3, 10));
    let msg = |r: Option<Response>| error_of(&r.expect("refused"));
    assert_eq!(
        msg(check_session_new(&reg, &None, "zsh", true, "/tmp", true)),
        (3, "failed to spawn session: shell path must be absolute: zsh".to_string())
    );
    assert_eq!(
        msg(check_session_new(&reg, &None, "/no/such/sh", false, "/tmp", true)),
        (3, "failed to spawn session: shell not found: /no/such/sh".to_string())
    );
    assert_eq!(
        msg(check_session_new(&reg, &None, "/bin/sh", true, "/nowhere", false)),
        (3, "failed to spawn session: working directory not found: /nowhere".to_string())
    );
    assert_eq!(
        msg(check_session_new(&reg, &Some("dev".to_string()), "zsh", false, "/x", false)).0,
        2
    );
    assert!(check_session_new(&reg, &Some("web".to_string()), "/bin/sh", true, "/tmp", true).is_none());
    assert_eq!(reg.len(), 1);
}

#[test]
fn grace_timer_decisions() {
    assert_eq!(grace_step(false, GraceEvent::AllSessionsEnded), GraceAction::Arm);
    assert_eq!(grace_step(true, GraceEvent::SessionCreated), GraceAction::Disarm);
    assert_eq!(grace_step(true, GraceEvent::Other), GraceAction::Keep);
    assert_eq!(grace_step(true, GraceEvent::Expired), GraceAction::Exit);
    assert_eq!(grace_step(false, GraceEvent::Expired), GraceAction::Keep);
    // After the last session ends, requests that create nothing keep the
    // timer, and its expiry ends the daemon.
    let mut armed = false;
    for e in [GraceEvent::AllSessionsEnded, GraceEvent::Other, GraceEvent::Other] {
        match grace_step(armed, e) {
            GraceAction::Arm => armed = true,
            GraceAction::Disarm => armed = false,
            _ => {}
        }
    }
    assert_eq!(grace_step(armed, GraceEvent::Expired), GraceAction::Exit);
}
