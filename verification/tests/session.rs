use snag::daemon::clock::{chrono_now, days_to_ymd, format_utc_timestamp};
use snag::daemon::session::{generate_session_id, validate_session_name, Session, SessionState};
use snag::error::SnagError;

#[test]
fn test_generate_session_id_length() {
    let id = generate_session_id().unwrap();
    assert_eq!(id.len(), 16); // 8 bytes -> 16 hex chars
}

#[test]
fn test_generate_session_id_unique() {
    let ids: Vec<String> = (0..100).map(|_| generate_session_id().unwrap()).collect();
    for i in 0..ids.len() {
        for j in (i + 1)..ids.len() {
            assert_ne!(ids[i], ids[j], "duplicate session ID generated");
        }
    }
}

#[test]
fn test_generate_session_id_hex() {
    let id = generate_session_id().unwrap();
    assert!(id.chars().all(|c| c.is_ascii_hexdigit()));
}

#[test]
fn test_validate_session_name_valid() {
    assert!(validate_session_name("dev").is_ok());
    assert!(validate_session_name("ci-runner").is_ok());
    assert!(validate_session_name("staging.deploy").is_ok());
    assert!(validate_session_name("test_session").is_ok());
    assert!(validate_session_name("a").is_ok());
    assert!(validate_session_name("A1B2").is_ok());
    assert!(validate_session_name("foo-bar.baz_qux").is_ok());
}

#[test]
fn test_validate_session_name_invalid_chars() {
    assert!(validate_session_name("hello world").is_ok()); // spaces allowed
    assert!(validate_session_name("foo/bar").is_err());
    assert!(validate_session_name("foo:bar").is_err());
    assert!(validate_session_name("foo@bar").is_err());
    assert!(validate_session_name("foo#bar").is_err());
    assert!(validate_session_name("caf\u{e9}").is_err());
}

#[test]
fn test_validate_session_name_empty() {
    assert!(validate_session_name("").is_err());
}

#[test]
fn test_validate_session_name_too_long() {
    let long_name = "a".repeat(65);
    assert!(validate_session_name(&long_name).is_err());

    let max_name = "a".repeat(64);
    assert!(validate_session_name(&max_name).is_ok());
}

#[test]
fn test_chrono_now_format() {
    let ts = chrono_now();
    // Should match ISO 8601 pattern: YYYY-MM-DDTHH:MM:SSZ
    assert_eq!(ts.len(), 20);
    assert_eq!(&ts[4..5], "-");
    assert_eq!(&ts[7..8], "-");
    assert_eq!(&ts[10..11], "T");
    assert_eq!(&ts[13..14], ":");
    assert_eq!(&ts[16..17], ":");
    assert_eq!(&ts[19..20], "Z");
}

#[test]
fn invalid_name_error_text() {
    match validate_session_name("foo/bar") {
        Err(e) => {
            assert!(matches!(e, SnagError::InvalidSessionName(ref n) if n == "foo/bar"));
            assert_eq!(
                e.message(),
                "invalid session name 'foo/bar': must match [a-zA-Z0-9._-] and be at most 64 characters"
            );
        }
        Ok(()) => panic!("accepted an invalid name"),
    }
}

#[test]
fn days_to_ymd_known_dates() {
    assert_eq!(days_to_ymd(0), (1970, 1, 1));
    assert_eq!(days_to_ymd(59), (1970, 3, 1));
    assert_eq!(days_to_ymd(11016), (2000, 2, 29));
    assert_eq!(days_to_ymd(19723), (2024, 1, 1));
}

#[test]
fn timestamp_text_of_known_instants() {
    assert_eq!(format_utc_timestamp(0), "1970-01-01T00:00:00Z");
    assert_eq!(format_utc_timestamp(1_700_000_000), "2023-11-14T22:13:20Z");
}

#[test]
fn session_info_reports_foreground_process() {
    let s = Session::new_spawned(
        "abc123def4567890".to_string(),
        Some("dev".to_string()),
        7,
        100,
        "/bin/bash".to_string(),
        "/dev/pts/4".to_string(),
        1024,
    );
    let shell_only = vec![(100u32, "bash".to_string())];
    let info = s.to_info(None, &shell_only);
    assert_eq!(info.cwd, "?");
    assert_eq!(info.fg_process.as_deref(), Some("idle"));
    assert_eq!(info.state, "running");
    let busy = vec![(100u32, "bash".to_string()), (200u32, "vim".to_string())];
    let info = s.to_info(Some("/tmp".to_string()), &busy);
    assert_eq!(info.cwd, "/tmp");
    assert_eq!(info.fg_process.as_deref(), Some("vim"));
    let none: Vec<(u32, String)> = Vec::new();
    assert_eq!(s.to_info(None, &none).fg_process, None);
}

#[test]
fn exited_state_text() {
    let mut s = Session::new_spawned(
        "abc".to_string(),
        None,
        3,
        1,
        "/bin/sh".to_string(),
        "/dev/pts/0".to_string(),
        16,
    );
    s.state = SessionState::Exited(-2);
    let none: Vec<(u32, String)> = Vec::new();
    assert_eq!(s.to_info(None, &none).state, "exited(-2)");
}
