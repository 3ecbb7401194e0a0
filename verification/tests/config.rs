use snag::config::{config_path, join_path, Config};

#[test]
fn test_default_config() {
    let config = Config::default();
    assert!(config.shell.is_none());
    assert_eq!(config.scrollback_bytes, 1_048_576);
    assert!(config.socket.is_none());
    assert_eq!(config.detach_key, "ctrl-\\");
    assert_eq!(config.detach_timeout_ms, 500);
    assert_eq!(config.daemon_grace_period, 30);
}

#[test]
fn test_default_shell_from_config() {
    let config = Config {
        shell: Some("/bin/fish".to_string()),
        ..Config::default()
    };
    assert_eq!(config.default_shell(Some("/bin/bash")), "/bin/fish");
}

#[test]
fn test_socket_path_default() {
    let config = Config::default();
    let path = config.socket_path(None, None, 1000);
    assert!(path.contains("snag"));
    assert!(path.ends_with("snag.sock"));
    let path = config.socket_path(None, Some("/run/user/1000"), 1000);
    assert!(path.contains("snag"));
    assert!(path.ends_with("snag.sock"));
}

#[test]
fn test_socket_path_override() {
    let config = Config {
        socket: Some("/tmp/custom.sock".to_string()),
        ..Config::default()
    };
    assert_eq!(config.socket_path(None, Some("/run/user/1000"), 1000), "/tmp/custom.sock");
}

#[test]
fn test_pid_path() {
    let config = Config::default();
    let pid_path = config.pid_path(None, None, 1000);
    assert!(pid_path.ends_with("snag.pid"));
}

#[test]
fn socket_and_pid_paths_exactly() {
    let config = Config::default();
    assert_eq!(config.socket_path(None, None, 1000), "/tmp/snag-1000/snag.sock");
    assert_eq!(config.socket_path(None, Some("/run/user/7/"), 7), "/run/user/7/snag/snag.sock");
    assert_eq!(config.pid_path(None, None, 1000), "/tmp/snag-1000/snag.pid");
    let custom = Config {
        socket: Some("/tmp/custom.sock".to_string()),
        ..Config::default()
    };
    assert_eq!(custom.pid_path(None, None, 1), "/tmp/snag.pid");
    let bare = Config {
        socket: Some("/".to_string()),
        ..Config::default()
    };
    assert_eq!(bare.pid_path(None, None, 1), "/tmp/snag.pid");
}

#[test]
fn default_shell_falls_back() {
    let config = Config::default();
    assert_eq!(config.default_shell(Some("/bin/zsh")), "/bin/zsh");
    assert_eq!(config.default_shell(None), "/bin/sh");
}

#[test]
fn config_file_location() {
    assert_eq!(config_path(Some("/x"), Some("/home/u")), "/x/snag/config.toml");
    assert_eq!(config_path(None, Some("/home/u")), "/home/u/.config/snag/config.toml");
    assert_eq!(config_path(None, None), "/etc/snag/config.toml");
    assert_eq!(join_path("", "a"), "a");
    assert_eq!(join_path("/", "a"), "/a");
    assert_eq!(join_path("/tmp", "/etc/x"), "/etc/x");
    assert_eq!(join_path("/tmp", ""), "/tmp/");
}

#[test]
fn overrides_replace_settings() {
    let mut config = Config::default();
    config.apply_overrides(Some("/s.sock".to_string()), None);
    assert_eq!(config.socket.as_deref(), Some("/s.sock"));
    assert_eq!(config.scrollback_bytes, 1_048_576);
    config.apply_overrides(None, Some(10));
    assert_eq!(config.scrollback_bytes, 10);
    assert_eq!(config.socket.as_deref(), Some("/s.sock"));
}

#[test]
fn snag_socket_overrides_runtime_dir() {
    let config = Config::default();
    assert_eq!(
        config.socket_path(Some("/tmp/env.sock"), Some("/run/user/1000"), 1000),
        "/tmp/env.sock"
    );
    assert_eq!(config.pid_path(Some("/tmp/env.sock"), None, 1000), "/tmp/snag.pid");
    let mut custom = Config::default();
    custom.socket = Some("/tmp/custom.sock".to_string());
    assert_eq!(custom.socket_path(Some("/tmp/env.sock"), None, 1000), "/tmp/custom.sock");
}
