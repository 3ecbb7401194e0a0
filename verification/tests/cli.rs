use snag::cli::attach::{
    end_notice, frame_action, key_event_to_bytes, parse_detach_key, DetachTracker, FrameAction, KeyAction, KeyCode,
    KeyPress,
};
use snag::cli::output::{
    grep_json_label, grep_lines, hook_script, process_lines, register_export_line,
    session_info_lines, session_list_lines, short_shell, shorten_path, shorten_path_defined,
    status_lines,
};
use snag::cli::wrap::{reaped_code, title_sequence, wrap_exit_code, RelayState, ShellExit};
use snag::protocol::types::{GrepMatch, ProcessEntry, Response, SessionInfo, MSG_OK, MSG_PTY_OUTPUT, MSG_SESSION_EVENT};

fn key(code: KeyCode) -> KeyPress {
    KeyPress { code, ctrl: false }
}

fn ctrl(c: char) -> KeyPress {
    KeyPress { code: KeyCode::Char(c), ctrl: true }
}

#[test]
fn key_bytes() {
    assert_eq!(key_event_to_bytes(&ctrl('a')), vec![1]);
    assert_eq!(key_event_to_bytes(&ctrl('Z')), vec![26]);
    assert_eq!(key_event_to_bytes(&ctrl('1')), Vec::<u8>::new());
    assert_eq!(key_event_to_bytes(&key(KeyCode::Char('x'))), b"x".to_vec());
    assert_eq!(key_event_to_bytes(&key(KeyCode::Char('é'))), "é".as_bytes().to_vec());
    assert_eq!(key_event_to_bytes(&key(KeyCode::Enter)), vec![b'\r']);
    assert_eq!(key_event_to_bytes(&key(KeyCode::Backspace)), vec![0x7f]);
    assert_eq!(key_event_to_bytes(&key(KeyCode::Up)), b"\x1b[A".to_vec());
    assert_eq!(key_event_to_bytes(&key(KeyCode::PageDown)), b"\x1b[6~".to_vec());
    assert_eq!(key_event_to_bytes(&key(KeyCode::F(1))), b"\x1bOP".to_vec());
    assert_eq!(key_event_to_bytes(&key(KeyCode::F(12))), b"\x1b[24~".to_vec());
    assert_eq!(key_event_to_bytes(&key(KeyCode::F(13))), Vec::<u8>::new());
    assert_eq!(key_event_to_bytes(&key(KeyCode::Other)), Vec::<u8>::new());
}

#[test]
fn double_detach_key_detaches() {
    let d = parse_detach_key("ctrl-\\");
    let mut t = DetachTracker::new();
    assert!(matches!(t.on_key(&ctrl('\\'), &d, false, 1_000, 500), KeyAction::Ignore));
    assert!(matches!(t.on_key(&ctrl('\\'), &d, false, 1_200, 500), KeyAction::Detach));
    let mut t = DetachTracker::new();
    assert!(matches!(t.on_key(&ctrl('\\'), &d, false, 0, 500), KeyAction::Ignore));
    assert!(matches!(t.on_key(&ctrl('\\'), &d, false, 600, 500), KeyAction::Ignore));
    assert!(matches!(t.on_key(&key(KeyCode::Char('a')), &d, false, 700, 500), KeyAction::Send(ref b) if b == b"a"));
    assert_eq!(t.last_detach_key, None);
    assert!(matches!(t.on_key(&key(KeyCode::Char('a')), &d, true, 800, 500), KeyAction::Ignore));
}

#[test]
fn configured_detach_key() {
    let d = parse_detach_key("ctrl-]");
    assert!(d == ctrl(']'));
    let mut t = DetachTracker::new();
    assert!(matches!(t.on_key(&ctrl('\\'), &d, false, 0, 500), KeyAction::Ignore));
    assert!(matches!(t.on_key(&ctrl('\\'), &d, false, 5, 500), KeyAction::Ignore));
    assert_eq!(t.last_detach_key, None);
    assert!(matches!(t.on_key(&ctrl('q'), &d, false, 10, 500), KeyAction::Send(ref b) if b == &vec![0x11]));
    assert!(matches!(t.on_key(&ctrl(']'), &d, false, 20, 500), KeyAction::Ignore));
    assert!(matches!(t.on_key(&ctrl(']'), &d, false, 30, 500), KeyAction::Detach));
    assert!(parse_detach_key("ctrl-Q") == ctrl('q'));
    assert!(parse_detach_key("ctrl-\\") == ctrl('\\'));
    assert!(parse_detach_key("alt-x") == ctrl('\\'));
    assert!(parse_detach_key("") == ctrl('\\'));
}

#[test]
fn frames_and_notices() {
    assert!(frame_action(MSG_PTY_OUTPUT) == FrameAction::Show);
    assert!(frame_action(MSG_SESSION_EVENT) == FrameAction::End);
    assert!(frame_action(MSG_OK) == FrameAction::Ignore);
    let stolen = Some(Response::SessionEvent { event: "stolen".to_string(), session_id: "x".to_string() });
    assert_eq!(end_notice(&stolen), "\r\n\x1b[33m[Session stolen by another client]\x1b[0m\r\n");
    let exited = Some(Response::SessionEvent { event: "exited".to_string(), session_id: "x".to_string() });
    assert_eq!(end_notice(&exited), "\r\n\x1b[33m[Session killed by snag]\x1b[0m\r\n");
    assert_eq!(end_notice(&None), "\r\n\x1b[33m[Session ended]\x1b[0m\r\n");
}

#[test]
fn relay_snag_and_replay() {
    let mut r = RelayState::new();
    assert!(r.on_output(10));
    assert_eq!(r.tty_bytes_written, 10);
    assert!(r.on_snag());
    assert!(!r.on_snag());
    assert!(!r.on_output(5));
    assert_eq!(r.tty_bytes_written, 10);
    assert_eq!(r.on_unsnag(), Some(10));
    r.replayed(5);
    assert_eq!(r.tty_bytes_written, 15);
    assert_eq!(r.on_unsnag(), None);
}

#[test]
fn exit_codes_and_title() {
    assert_eq!(wrap_exit_code(ShellExit::Exited(3)), 3);
    assert_eq!(wrap_exit_code(ShellExit::Signaled(9)), 137);
    assert_eq!(wrap_exit_code(ShellExit::Unknown), 0);
    assert_eq!(reaped_code(ShellExit::Signaled(1)), Some(129));
    assert_eq!(reaped_code(ShellExit::Unknown), None);
    assert_eq!(title_sequence("/usr/bin/zsh"), "\x1b]0;zsh\x07");
}

#[test]
fn shell_and_path_shortening() {
    assert_eq!(short_shell("/bin/bash"), "bash");
    assert_eq!(short_shell("fish"), "fish");
    assert_eq!(short_shell("/opt/"), "");
    assert_eq!(shorten_path("/home/u/src/project", Some("/home/u"), 30), "~/src/project");
    assert_eq!(shorten_path("/tmp", Some("/home/u"), 30), "/tmp");
    assert_eq!(shorten_path("/a/very/long/path/that/does/not/fit/here", None, 20), "...does/not/fit/here");
    assert_eq!(shorten_path("/a/very/long/path/that/does/not/fit/here", None, 20).len(), 20);
    assert!(shorten_path_defined("/tmp", None, 30));
    // A cut inside a multi-byte character is not defined.
    assert!(!shorten_path_defined("ééééé", None, 4));
}

fn info(id: &str, name: Option<&str>, shell: &str, cwd: &str, state: &str, fg: Option<&str>) -> SessionInfo {
    SessionInfo {
        id: id.to_string(),
        name: name.map(|s| s.to_string()),
        shell: shell.to_string(),
        cwd: cwd.to_string(),
        state: state.to_string(),
        fg_process: fg.map(|s| s.to_string()),
        attached: 0,
        registered: false,
        created_at: "2026-03-22T10:00:00Z".to_string(),
        snagged_by: None,
    }
}

#[test]
fn session_table_lines() {
    assert_eq!(session_list_lines(&[], None), vec!["No sessions.".to_string()]);
    let rows = [
        info("0123456789abcdef", Some("dev"), "/bin/zsh", "/tmp", "running", Some("cargo")),
        info("abc", None, "/usr/bin/fish", "/", "exited(0)", None),
    ];
    let lines = session_list_lines(&rows, None);
    let expected_header = format!(
        "{:<8}  {:<4}  {:<5}  {:<10}  {:<30}  FG PROCESS",
        "ID", "NAME", "SHELL", "STATE", "CWD"
    );
    assert_eq!(lines[0], expected_header);
    assert_eq!(
        lines[1],
        format!("{:<8}  {:<4}  {:<5}  {:<10}  {:<30}  {}", "01234567", "dev", "zsh", "running", "/tmp", "cargo")
    );
    assert_eq!(
        lines[2],
        format!("{:<8}  {:<4}  {:<5}  {:<10}  {:<30}  {}", "abc", "-", "fish", "exited(0)", "/", "idle")
    );
}

#[test]
fn info_grep_process_status_lines() {
    let i = info("abc", None, "/bin/sh", "/", "running", None);
    let lines = session_info_lines(&i);
    assert_eq!(lines[0], "ID:           abc");
    assert_eq!(lines[1], "Name:         (none)");
    assert_eq!(lines[5], "FG Process:   idle");
    assert_eq!(lines[6], "Attached:     0");
    assert_eq!(lines[7], "Registered:   false");
    let ms = vec![
        GrepMatch { session_id: "0123456789".to_string(), session_name: None, lines: vec!["a".to_string(), "b".to_string()] },
        GrepMatch { session_id: "x".to_string(), session_name: Some("dev".to_string()), lines: vec!["c".to_string()] },
    ];
    assert_eq!(grep_lines(&ms, false, false), vec!["[01234567]", "  a", "  b", "", "[dev]", "  c"]);
    assert_eq!(grep_lines(&ms, true, false), vec!["01234567", "dev"]);
    assert_eq!(grep_lines(&ms, false, true), vec!["[01234567]", "  b", "", "[dev]", "  c"]);
    assert_eq!(grep_lines(&[], false, false), vec!["No matches."]);
    assert_eq!(grep_json_label(&ms[0]), "0123456789");
    let ps = vec![ProcessEntry { pid: 42, command: "vim".to_string() }];
    assert_eq!(process_lines(&ps), vec!["      42  vim"]);
    assert_eq!(process_lines(&[]), vec!["No foreground processes."]);
    assert_eq!(status_lines(7, 60, 2), vec!["PID:       7", "Uptime:    60s", "Sessions:  2"]);
    assert_eq!(register_export_line("abc"), "export SNAG_SESSION=abc");
    assert!(hook_script("bash").unwrap().contains("[ -n \"$SNAG_SESSION\" ] && return"));
    assert!(hook_script("zsh").unwrap().contains("[[ -n \"$SNAG_SESSION\" ]] && return"));
    assert!(hook_script("fish").is_none());
}
