use snag::daemon::procfs::{
    capture_dir, capture_file_path, comm_text, current_pts, dedup_by_pts, expected_tty_nr,
    fdinfo_tty_index, is_pty_master_link, pidfd_getfd_error, pidfd_open_error, pts_number,
    pts_path, stat_foreground, stat_readable, stat_tty, status_uid, SlaveCandidate,
};
use snag::error::SnagError;
use snag::protocol::types::DiscoveredSession;

fn found(pts: &str, holder: u32) -> DiscoveredSession {
    DiscoveredSession {
        pts: pts.to_string(),
        holder_pid: holder,
        holder_fd: 3,
        shell_pid: None,
        command: String::new(),
        cwd: String::new(),
        adoptable: true,
    }
}

#[test]
fn proc_text_parsing() {
    let status = "Name:\tbash\nUmask:\t0022\nUid:\t1000\t1000\t1000\t1000\nGid:\t1000\n";
    assert_eq!(status_uid(status), Some(1000));
    assert_eq!(status_uid("Name: x\n"), None);
    assert_eq!(fdinfo_tty_index("pos:\t0\nflags:\t02\ntty-index:\t7\n"), Some(Some(7)));
    assert_eq!(fdinfo_tty_index("tty-index: x\n"), Some(None));
    assert_eq!(fdinfo_tty_index("pos: 0\n"), None);
    assert!(is_pty_master_link("/dev/ptmx"));
    assert!(is_pty_master_link("/dev/pts/ptmx"));
    assert!(!is_pty_master_link("/dev/pts/3"));
    assert_eq!(pts_number("/dev/pts/12"), Some(12));
    assert_eq!(pts_number("/dev/pts/ptmx"), None);
    assert_eq!(pts_number("/dev/tty1"), None);
    assert_eq!(pts_path(4), "/dev/pts/4");
    assert_eq!(expected_tty_nr(5), Some(34821));
    // Device 136:261, as the kernel encodes it in /proc.
    assert_eq!(expected_tty_nr(261), Some(5 | (136 << 8) | (256 << 12)));
    assert_ne!(expected_tty_nr(261), expected_tty_nr(5));
    assert_eq!(expected_tty_nr(0xfffff), Some(0xff | (136 << 8) | (0xfff00 << 12)));
    assert_eq!(expected_tty_nr(0x100000), None);
    let stat = "1234 (my (odd) cmd) S 1234 1234 1234 34821 1234 4194560";
    assert!(stat_readable(stat));
    assert_eq!(stat_tty(stat), Some((34821, true)));
    assert_eq!(stat_tty("99 (x) R 1 50 60 34816 0"), Some((34816, false)));
    assert_eq!(stat_tty("no parens"), None);
    // pgrp 1300 is the terminal's foreground group 1300; 60 is not 1300.
    assert_eq!(stat_foreground("1300 (vim) S 1234 1300 1234 34821 1300 0"), Some((34821, true)));
    assert_eq!(stat_foreground("1234 (bash) S 1 1234 1234 34821 1300 0"), Some((34821, false)));
    assert_eq!(stat_foreground("1234 (bash) S 1 1234 1234 34821"), None);
    assert!(!stat_readable("1 (x)"));
    assert_eq!(comm_text("bash\n"), "bash");
    assert_eq!(current_pts("/dev/pts/3".to_string()).as_deref(), Some("/dev/pts/3"));
    assert_eq!(current_pts("/dev/null".to_string()), None);
}

#[test]
fn session_leaders_win() {
    let mut c = SlaveCandidate::new();
    c.offer(10, false, "vim".to_string(), "/a".to_string());
    c.offer(11, false, "less".to_string(), "/b".to_string());
    assert_eq!(c.pid, Some(10));
    c.offer(12, true, "bash".to_string(), "/c".to_string());
    assert_eq!(c.pid, Some(12));
    assert_eq!(c.comm, "bash");
}

#[test]
fn one_terminal_per_path_sorted() {
    let out = dedup_by_pts(vec![
        found("/dev/pts/3", 1),
        found("/dev/pts/1", 2),
        found("/dev/pts/3", 3),
        found("/dev/pts/10", 4),
    ]);
    let got: Vec<(String, u32)> = out.iter().map(|d| (d.pts.clone(), d.holder_pid)).collect();
    assert_eq!(
        got,
        vec![
            ("/dev/pts/1".to_string(), 2),
            ("/dev/pts/10".to_string(), 4),
            ("/dev/pts/3".to_string(), 1),
        ]
    );
}

#[test]
fn adoption_errors_and_capture_paths() {
    match pidfd_open_error(42, true, "") {
        SnagError::AdoptionFailed(m) => assert_eq!(
            m,
            "permission denied: cannot open pidfd for PID 42. Ensure kernel.yama.ptrace_scope=0: sudo sysctl kernel.yama.ptrace_scope=0"
        ),
        _ => panic!(),
    }
    match pidfd_getfd_error(42, 5, false, "", "No such process") {
        SnagError::AdoptionFailed(m) => assert_eq!(m, "pidfd_getfd failed for PID 42 fd 5: No such process"),
        _ => panic!(),
    }
    assert_eq!(capture_dir(Some("/run/user/1000"), 1000), "/run/user/1000/snag");
    assert_eq!(capture_dir(None, 1000), "/tmp/snag-1000");
    assert_eq!(capture_file_path("/tmp/snag-1000", "abc"), "/tmp/snag-1000/capture-abc");
}

#[test]
fn pts_path_reads_back() {
    for n in [0u32, 7, 10, 305, u32::MAX] {
        assert_eq!(pts_number(&pts_path(n)), Some(n));
    }
}
