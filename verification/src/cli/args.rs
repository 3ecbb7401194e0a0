use crate::config::Config;
use vstd::prelude::*;

verus! {

/// The command line: a subcommand (none opens the session browser) and
/// the settings it overrides.
pub struct Cli {
    pub command: Option<Command>,
    /// Overrides the default socket path.
    pub socket: Option<String>,
    /// Overrides the scrollback buffer size (bytes).
    pub scrollback: Option<usize>,
}

/// What the command line asks for.
pub enum Command {
    /// Spawn a new session.
    New { name: Option<String>, shell: Option<String>, cwd: Option<String> },
    /// Kill a session.
    Kill { target: String },
    /// Rename a session.
    Rename { target: String, new_name: String },
    /// List sessions.
    List { json: bool },
    /// Show session details.
    Info { target: String, json: bool },
    /// Attach to a session.
    Attach { target: String, read_only: bool },
    /// Send a command to a session.
    Send { target: String, command: String },
    /// Read session output.
    Output { target: String, lines: Option<u32>, follow: bool, json: bool },
    /// Print session working directory.
    Cwd { target: String },
    /// Print session foreground processes.
    Ps { target: String },
    /// Search session output for a pattern.
    Grep { pattern: String, json: bool },
    /// Print shell hook code for automatic session registration.
    Hook { shell: String },
    /// Register the current shell session with the daemon.
    Register { pid: Option<u32>, name: Option<String> },
    /// Unregister a shell session from the daemon.
    Unregister { target: String },
    /// Manage the daemon.
    Daemon { action: DaemonAction },
    /// Relay between the terminal and a shell, capturing its output.
    Wrap { capture: String },
}

/// What to do with the daemon.
#[derive(Clone, Copy, PartialEq, Eq, Structural)]
pub enum DaemonAction {
    Start,
    Stop,
    Status,
}

impl Config {
    /// The settings with the command line's overrides applied.
    pub fn apply_overrides(&mut self, socket: Option<String>, scrollback: Option<usize>)
        ensures
            final(self).socket == match socket {
                Some(s) => Some(s),
                None => old(self).socket,
            },
            final(self).scrollback_bytes == match scrollback {
                Some(n) => n,
                None => old(self).scrollback_bytes,
            },
            final(self).shell == old(self).shell,
            final(self).detach_key == old(self).detach_key,
            final(self).detach_timeout_ms == old(self).detach_timeout_ms,
            final(self).daemon_grace_period == old(self).daemon_grace_period,
    {
        match socket {
            Some(s) => {
                self.socket = Some(s);
            },
            None => {},
        }
        match scrollback {
            Some(n) => {
                self.scrollback_bytes = n;
            },
            None => {},
        }
    }
}

} // verus!
