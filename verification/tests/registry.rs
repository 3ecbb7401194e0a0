use snag::daemon::registry::SessionRegistry;
use snag::daemon::session::{Session, SessionState};
use snag::error::SnagError;

fn make_test_session(id: &str, name: Option<&str>) -> Session {
    Session::new_spawned(
        id.to_string(),
        name.map(|s| s.to_string()),
        3,
        1,
        "/bin/sh".to_string(),
        "/dev/pts/0".to_string(),
        1024,
    )
}

#[test]
fn test_insert_and_get() {
    let mut reg = SessionRegistry::new();
    let session = make_test_session("abc123", Some("dev"));
    reg.insert(session);

    assert_eq!(reg.len(), 1);
    assert!(reg.get("abc123").is_some());
    assert_eq!(reg.get("abc123").unwrap().name.as_deref(), Some("dev"));
}

#[test]
fn test_resolve_exact_name() {
    let mut reg = SessionRegistry::new();
    reg.insert(make_test_session("abc123def456", Some("dev")));
    reg.insert(make_test_session("xyz789ghi012", Some("ci")));

    let resolved = reg.resolve("dev").unwrap();
    assert_eq!(resolved, "abc123def456");
}

#[test]
fn test_resolve_exact_id() {
    let mut reg = SessionRegistry::new();
    reg.insert(make_test_session("abc123def456", None));

    let resolved = reg.resolve("abc123def456").unwrap();
    assert_eq!(resolved, "abc123def456");
}

#[test]
fn test_resolve_id_prefix() {
    let mut reg = SessionRegistry::new();
    reg.insert(make_test_session("abc123def456", None));

    let resolved = reg.resolve("abc").unwrap();
    assert_eq!(resolved, "abc123def456");
}

#[test]
fn test_resolve_prefix_too_short() {
    let mut reg = SessionRegistry::new();
    reg.insert(make_test_session("abc123def456", None));

    // 2 chars is too short for prefix match
    assert!(reg.resolve("ab").is_err());
}

#[test]
fn test_resolve_ambiguous() {
    let mut reg = SessionRegistry::new();
    reg.insert(make_test_session("abc123", None));
    reg.insert(make_test_session("abc456", None));

    let err = reg.resolve("abc").unwrap_err();
    assert!(matches!(err, SnagError::SessionAmbiguousTarget(_, _)));
}

#[test]
fn test_resolve_not_found() {
    let mut reg = SessionRegistry::new();
    reg.insert(make_test_session("abc123", Some("dev")));

    let err = reg.resolve("nonexistent").unwrap_err();
    assert!(matches!(err, SnagError::SessionNotFound(_)));
}

#[test]
fn test_resolve_name_takes_priority() {
    let mut reg = SessionRegistry::new();
    // Session with name "abc" but different id
    reg.insert(make_test_session("xyz789012345", Some("abc")));
    // Session with id starting with "abc"
    reg.insert(make_test_session("abc123456789", None));

    // Should resolve to the named session, not the id prefix
    let resolved = reg.resolve("abc").unwrap();
    assert_eq!(resolved, "xyz789012345");
}

#[test]
fn test_rename() {
    let mut reg = SessionRegistry::new();
    reg.insert(make_test_session("abc123", Some("dev")));

    reg.rename("dev", "production".to_string()).unwrap();
    assert!(reg.resolve("production").is_ok());
    assert!(reg.resolve("dev").is_err());
}

#[test]
fn test_rename_conflict() {
    let mut reg = SessionRegistry::new();
    reg.insert(make_test_session("abc123", Some("dev")));
    reg.insert(make_test_session("xyz789", Some("ci")));

    let err = reg.rename("dev", "ci".to_string()).unwrap_err();
    assert!(matches!(err, SnagError::SessionNameConflict(_)));
}

#[test]
fn test_remove() {
    let mut reg = SessionRegistry::new();
    reg.insert(make_test_session("abc123", Some("dev")));

    let removed = reg.remove("abc123");
    assert!(removed.is_some());
    assert_eq!(reg.len(), 0);
    assert!(reg.resolve("dev").is_err());
}

#[test]
fn test_has_name() {
    let mut reg = SessionRegistry::new();
    reg.insert(make_test_session("abc123", Some("dev")));

    assert!(reg.has_name("dev"));
    assert!(!reg.has_name("ci"));
}

#[test]
fn test_is_empty() {
    let reg = SessionRegistry::new();
    assert!(reg.is_empty());
}

#[test]
fn ambiguous_error_lists_every_match() {
    let mut reg = SessionRegistry::new();
    reg.insert(make_test_session("abc123", None));
    reg.insert(make_test_session("abc456", None));
    let err = reg.resolve("abc").unwrap_err();
    match &err {
        SnagError::SessionAmbiguousTarget(t, m) => {
            assert_eq!(t, "abc");
            let mut m = m.clone();
            m.sort();
            assert_eq!(m, vec!["abc123".to_string(), "abc456".to_string()]);
        }
        _ => panic!("expected an ambiguity"),
    }
    assert!(err.message().starts_with("ambiguous target 'abc', matches: abc"));
}

#[test]
fn rename_frees_the_old_name_and_points_the_new_one() {
    let mut reg = SessionRegistry::new();
    reg.insert(make_test_session("abc123", Some("dev")));
    reg.rename("abc123", "prod".to_string()).unwrap();
    assert!(!reg.has_name("dev"));
    assert!(reg.has_name("prod"));
    assert_eq!(reg.resolve("prod").unwrap(), "abc123");
    assert_eq!(reg.get("abc123").unwrap().name.as_deref(), Some("prod"));
}

#[test]
fn remove_unknown_changes_nothing() {
    let mut reg = SessionRegistry::new();
    reg.insert(make_test_session("abc123", Some("dev")));
    assert!(reg.remove("zzz").is_none());
    assert_eq!(reg.len(), 1);
    assert!(reg.has_name("dev"));
}

#[test]
fn output_and_exit_reach_attached_clients() {
    let mut reg = SessionRegistry::new();
    reg.insert(make_test_session("abc123", None));
    assert!(reg.attach_client("abc123", 7));
    assert!(reg.attach_client("abc123", 9));
    assert_eq!(reg.write_output("abc123", b"hi"), Some(vec![7, 9]));
    assert_eq!(reg.get("abc123").unwrap().scrollback.all_bytes(), b"hi");
    assert!(reg.detach_client("abc123", 7));
    assert_eq!(reg.set_exited("abc123", 3), Some(vec![9]));
    assert_eq!(reg.get("abc123").unwrap().state, SessionState::Exited(3));
    assert!(reg.all_exited());
    assert_eq!(reg.write_output("nope", b"x"), None);
}

#[test]
fn session_ids_lists_each_once() {
    let mut reg = SessionRegistry::new();
    reg.insert(make_test_session("a1", None));
    reg.insert(make_test_session("b2", None));
    reg.insert(make_test_session("a1", Some("again")));
    let mut ids = reg.session_ids();
    ids.sort();
    assert_eq!(ids, vec!["a1".to_string(), "b2".to_string()]);
}

#[test]
fn ambiguity_lists_matches_in_registry_order() {
    let mut reg = SessionRegistry::new();
    reg.insert(make_test_session("abc9", None));
    reg.insert(make_test_session("xyz1", None));
    reg.insert(make_test_session("abc1", None));
    reg.insert(make_test_session("abc5", None));
    let expected = vec!["abc9".to_string(), "abc1".to_string(), "abc5".to_string()];
    match reg.resolve("abc") {
        Err(SnagError::SessionAmbiguousTarget(_, m)) => assert_eq!(m, expected),
        _ => panic!("expected an ambiguity"),
    }
    match reg.rename("abc", "new".to_string()) {
        Err(SnagError::SessionAmbiguousTarget(_, m)) => assert_eq!(m, expected),
        _ => panic!("expected an ambiguity"),
    }
}
