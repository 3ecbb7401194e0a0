use crate::cli::output::{after_last_slash, short_shell};
use crate::text::push_str;
use vstd::prelude::*;

verus! {

/// What the relay between the outer terminal and the shell it wraps
/// keeps: whether a remote client has taken the session over (the outer
/// terminal then shows a notice instead of the shell's output), and how
/// many bytes of the shell's output the outer terminal has been shown.
pub struct RelayState {
    pub snagged: bool,
    pub tty_bytes_written: u64,
}

impl RelayState {
    /// Not taken over, nothing shown yet.
    pub fn new() -> (r: Self)
        ensures
            !r.snagged,
            r.tty_bytes_written == 0,
    {
        RelayState { snagged: false, tty_bytes_written: 0 }
    }

    /// A remote client has taken the session over; returns whether the
    /// outer terminal must now switch to the notice (it was not taken over
    /// already).
    pub fn on_snag(&mut self) -> (show_notice: bool)
        ensures
            show_notice == !old(self).snagged,
            final(self).snagged,
            final(self).tty_bytes_written == old(self).tty_bytes_written,
    {
        let show = !self.snagged;
        self.snagged = true;
        show
    }

    /// The remote client has let go; when the session was taken over,
    /// returns the offset in the capture file from which the outer
    /// terminal must be shown what it missed.
    pub fn on_unsnag(&mut self) -> (replay_from: Option<u64>)
        ensures
            old(self).snagged ==> replay_from == Some(old(self).tty_bytes_written),
            !old(self).snagged ==> replay_from is None,
            !final(self).snagged,
            final(self).tty_bytes_written == old(self).tty_bytes_written,
    {
        if self.snagged {
            self.snagged = false;
            Some(self.tty_bytes_written)
        } else {
            None
        }
    }

    /// `n` more bytes of the capture file have been replayed to the outer
    /// terminal.
    pub fn replayed(&mut self, n: u64)
        requires
            old(self).tty_bytes_written + n <= u64::MAX,
        ensures
            final(self).snagged == old(self).snagged,
            final(self).tty_bytes_written == old(self).tty_bytes_written + n,
    {
        self.tty_bytes_written = self.tty_bytes_written + n;
    }

    /// The shell wrote `n` bytes (they always go to the capture file);
    /// returns whether they go to the outer terminal too, which is when
    /// the session is not taken over.
    pub fn on_output(&mut self, n: u64) -> (to_tty: bool)
        requires
            !old(self).snagged ==> old(self).tty_bytes_written + n <= u64::MAX,
        ensures
            to_tty == !old(self).snagged,
            final(self).snagged == old(self).snagged,
            final(self).tty_bytes_written == if to_tty {
                old(self).tty_bytes_written + n
            } else {
                old(self).tty_bytes_written as int
            },
    {
        if self.snagged {
            false
        } else {
            self.tty_bytes_written = self.tty_bytes_written + n;
            true
        }
    }
}

/// How the wrapped shell ended.
pub enum ShellExit {
    /// It exited with this code.
    Exited(i32),
    /// A signal with this number killed it.
    Signaled(i32),
    /// Neither could be learned.
    Unknown,
}

/// The exit code of the wrapper for how its shell ended: the shell's own,
/// 128 plus the signal that killed it, or 0.
pub fn wrap_exit_code(e: ShellExit) -> (code: i32)
    requires
        e matches ShellExit::Signaled(sig) ==> sig <= i32::MAX - 128,
    ensures
        code == match e {
            ShellExit::Exited(c) => c as int,
            ShellExit::Signaled(sig) => 128 + sig,
            ShellExit::Unknown => 0,
        },
{
    match e {
        ShellExit::Exited(c) => c,
        ShellExit::Signaled(sig) => 128 + sig,
        ShellExit::Unknown => 0,
    }
}

/// The escape sequence that sets the outer terminal's title to the name of
/// the shell `shell`.
pub fn title_sequence(shell: &str) -> (r: String)
    ensures
        r@ == "\u{1b}]0;"@ + after_last_slash(shell@) + "\u{7}"@,
{
    let mut t = String::new();
    push_str(&mut t, "\u{1b}]0;");
    let name = short_shell(shell);
    push_str(&mut t, name.as_str());
    push_str(&mut t, "\u{7}");
    t
}


/// The exit code the daemon records for a reaped shell: its own, or 128
/// plus the signal that killed it; none when it has not ended.
pub fn reaped_code(e: ShellExit) -> (code: Option<i32>)
    requires
        e matches ShellExit::Signaled(sig) ==> sig <= i32::MAX - 128,
    ensures
        code == match e {
            ShellExit::Exited(c) => Some(c),
            ShellExit::Signaled(sig) => Some((128 + sig) as i32),
            ShellExit::Unknown => None::<i32>,
        },
{
    match e {
        ShellExit::Exited(c) => Some(c),
        ShellExit::Signaled(sig) => Some(128 + sig),
        ShellExit::Unknown => None,
    }
}

} // verus!
