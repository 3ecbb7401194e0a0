use crate::text::{decimal, push_decimal, push_str};
use vstd::prelude::*;

verus! {

/// The user's settings (from `config.toml`; defaults for what it leaves
/// out).
#[derive(Debug, Clone)]
pub struct Config {
    /// The shell new sessions run, when not the user's own.
    pub shell: Option<String>,
    /// Bytes of output each session keeps.
    pub scrollback_bytes: usize,
    /// Where the daemon listens, when not in the usual place.
    pub socket: Option<String>,
    /// The key that, pressed twice, detaches.
    pub detach_key: String,
    /// How soon the second press must follow the first, in milliseconds.
    pub detach_timeout_ms: u64,
    /// How long the daemon waits, in seconds, once every session has ended.
    pub daemon_grace_period: u64,
}

impl Default for Config {
    fn default() -> (c: Self)
        ensures
            c.shell is None,
            c.scrollback_bytes == 1_048_576,
            c.socket is None,
            c.detach_key@ == "ctrl-\\"@,
            c.detach_timeout_ms == 500,
            c.daemon_grace_period == 30,
    {
        let mut detach_key = String::new();
        push_str(&mut detach_key, "ctrl-\\");
        Config {
            shell: None,
            scrollback_bytes: 1_048_576,
            socket: None,
            detach_key,
            detach_timeout_ms: 500,
            daemon_grace_period: 30,
        }
    }
}

/// `dir` joined with the path `name` (std's `Path::join`): `name` itself
/// when it is absolute, else a `/` between them unless `dir` is empty or
/// already ends with one.
pub open spec fn joined_path(dir: Seq<char>, name: Seq<char>) -> Seq<char> {
    if name.len() > 0 && name[0] == '/' {
        name
    } else if dir.len() == 0 || dir.last() == '/' {
        dir + name
    } else {
        dir + seq!['/'] + name
    }
}

/// `dir` joined with the path `name`.
pub fn join_path(dir: &str, name: &str) -> (r: String)
    ensures
        r@ == joined_path(dir@, name@),
{
    let ns = crate::text::chars_of(name);
    if ns.len() > 0 && ns[0] == '/' {
        return name.to_owned();
    }
    let cs = crate::text::chars_of(dir);
    let mut r = String::new();
    push_str(&mut r, dir);
    if cs.len() > 0 && cs[cs.len() - 1] != '/' {
        push_str(&mut r, "/");
        proof {
            reveal_strlit("/");
        }
    }
    push_str(&mut r, name);
    r
}

/// What std's `Path::parent` gives for the path `p`.
pub uninterp spec fn path_parent(p: Seq<char>) -> Option<Seq<char>>;

/// The path `p` without its last component (std's `Path::parent`): none
/// when `p` ends in the root or is empty.
#[verifier::external_body]
fn parent_of(p: &str) -> (r: Option<String>)
    ensures
        match r {
            Some(q) => path_parent(p@) == Some(q@),
            None => path_parent(p@) is None,
        },
{
    std::path::Path::new(p).parent().map(|q| q.to_string_lossy().into_owned())
}

/// Where the settings are read from: under `$XDG_CONFIG_HOME`, else under
/// `$HOME/.config`, else `/etc/snag/config.toml`.
pub fn config_path(xdg_config_home: Option<&str>, home: Option<&str>) -> (r: String)
    ensures
        r@ == match xdg_config_home {
            Some(d) => joined_path(joined_path(d@, "snag"@), "config.toml"@),
            None => match home {
                Some(h) => joined_path(joined_path(joined_path(h@, ".config"@), "snag"@), "config.toml"@),
                None => "/etc/snag/config.toml"@,
            },
        },
{
    proof {
        reveal_strlit("snag");
        reveal_strlit("config.toml");
        reveal_strlit(".config");
    }
    match xdg_config_home {
        Some(d) => {
            let a = join_path(d, "snag");
            join_path(a.as_str(), "config.toml")
        },
        None => match home {
            Some(h) => {
                let a = join_path(h, ".config");
                let b = join_path(a.as_str(), "snag");
                join_path(b.as_str(), "config.toml")
            },
            None => {
                let mut r = String::new();
                push_str(&mut r, "/etc/snag/config.toml");
                r
            },
        },
    }
}

/// The usual directory for the daemon's files of user `uid`, when there is
/// no runtime directory.
pub open spec fn tmp_dir(uid: u32) -> Seq<char> {
    "/tmp/snag-"@ + decimal(uid as nat)
}

impl Config {
    /// Where the daemon listens: the configured socket, else `$SNAG_SOCKET`,
    /// else `snag/snag.sock` under `$XDG_RUNTIME_DIR`, else under
    /// `/tmp/snag-<uid>`.
    pub open spec fn socket_path_of(
        &self,
        env_socket: Option<Seq<char>>,
        runtime_dir: Option<Seq<char>>,
        uid: u32,
    ) -> Seq<char> {
        match self.socket {
            Some(p) => p@,
            None => match env_socket {
                Some(e) => e,
                None => match runtime_dir {
                    Some(d) => joined_path(joined_path(d, "snag"@), "snag.sock"@),
                    None => joined_path(tmp_dir(uid), "snag.sock"@),
                },
            },
        }
    }

    /// Where the daemon listens, given `$SNAG_SOCKET` and
    /// `$XDG_RUNTIME_DIR` (when set) and the user's ID.
    pub fn socket_path(&self, env_socket: Option<&str>, runtime_dir: Option<&str>, uid: u32) -> (r: String)
        ensures
            r@ == self.socket_path_of(
                match env_socket {
                    Some(e) => Some(e@),
                    None => None,
                },
                match runtime_dir {
                    Some(d) => Some(d@),
                    None => None,
                },
                uid,
            ),
    {
        proof {
            reveal_strlit("snag");
            reveal_strlit("snag.sock");
        }
        match &self.socket {
            Some(p) => p.clone(),
            None => match env_socket {
                Some(e) => e.to_owned(),
                None => match runtime_dir {
                    Some(d) => {
                        let a = join_path(d, "snag");
                        join_path(a.as_str(), "snag.sock")
                    },
                    None => {
                        let mut t = String::new();
                        push_str(&mut t, "/tmp/snag-");
                        push_decimal(&mut t, uid as u64);
                        join_path(t.as_str(), "snag.sock")
                    },
                },
            },
        }
    }

    /// Where the daemon writes its PID: `snag.pid` beside its socket (in
    /// `/tmp` when the socket's path has no parent).
    pub fn pid_path(&self, env_socket: Option<&str>, runtime_dir: Option<&str>, uid: u32) -> (r: String)
        ensures
            ({
                let sock = self.socket_path_of(
                    match env_socket {
                        Some(e) => Some(e@),
                        None => None,
                    },
                    match runtime_dir {
                        Some(d) => Some(d@),
                        None => None,
                    },
                    uid,
                );
                r@ == joined_path(
                    match path_parent(sock) {
                        Some(q) => q,
                        None => "/tmp"@,
                    },
                    "snag.pid"@,
                )
            }),
    {
        proof {
            reveal_strlit("snag.pid");
        }
        let sock = self.socket_path(env_socket, runtime_dir, uid);
        let dir = match parent_of(sock.as_str()) {
            Some(q) => q,
            None => {
                let mut t = String::new();
                push_str(&mut t, "/tmp");
                t
            },
        };
        join_path(dir.as_str(), "snag.pid")
    }

    /// The shell new sessions run: the configured one, else `$SHELL`
    /// (when set), else `/bin/sh`.
    pub fn default_shell(&self, env_shell: Option<&str>) -> (r: String)
        ensures
            r@ == match self.shell {
                Some(s) => s@,
                None => match env_shell {
                    Some(e) => e@,
                    None => "/bin/sh"@,
                },
            },
    {
        match &self.shell {
            Some(s) => s.clone(),
            None => match env_shell {
                Some(e) => e.to_owned(),
                None => {
                    let mut t = String::new();
                    push_str(&mut t, "/bin/sh");
                    t
                },
            },
        }
    }
}

} // verus!
