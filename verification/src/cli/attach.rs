use crate::protocol::types::{Response, MSG_PTY_OUTPUT, MSG_SESSION_EVENT};
use crate::text::{chars_of, chars_start_with, push_char, push_str};
use vstd::prelude::*;
use vstd::slice::slice_to_vec;
use vstd::string::StringSliceAdditionalSpecFns;
use vstd::utf8::{encode_scalar, encode_utf8};

verus! {

/// A key, as the terminal reports it.
#[derive(Clone, Copy, PartialEq, Eq, Structural)]
pub enum KeyCode {
    Char(char),
    Enter,
    Backspace,
    Tab,
    Esc,
    Up,
    Down,
    Right,
    Left,
    Home,
    End,
    PageUp,
    PageDown,
    Delete,
    Insert,
    F(u8),
    /// Any other key.
    Other,
}

/// A key press: the key, and whether Control was held.
#[derive(Clone, Copy, PartialEq, Eq, Structural)]
pub struct KeyPress {
    pub code: KeyCode,
    pub ctrl: bool,
}

/// The ASCII lowercase of `c` (std's `char::to_ascii_lowercase`).
pub open spec fn ascii_lower(c: char) -> char {
    if 'A' <= c && c <= 'Z' {
        ((c as u32) + 32) as char
    } else {
        c
    }
}

/// The byte Control with `c` sends: the low byte of `c`'s lowercase, less
/// `a`, plus one, wrapping; `None` beyond Control-Z.
pub open spec fn ctrl_byte(c: char) -> Option<u8> {
    let b = (((ascii_lower(c) as u32) % 256) + 160) % 256;
    if b <= 26 {
        Some(b as u8)
    } else {
        None
    }
}

/// The bytes of an ASCII string.
pub open spec fn ascii_bytes(s: Seq<char>) -> Seq<u8> {
    s.map_values(|c: char| c as u8)
}

/// The bytes a terminal sends for function key `n`.
pub open spec fn function_key_bytes(n: u8) -> Seq<u8> {
    if n == 1 {
        ascii_bytes("\u{1b}OP"@)
    } else if n == 2 {
        ascii_bytes("\u{1b}OQ"@)
    } else if n == 3 {
        ascii_bytes("\u{1b}OR"@)
    } else if n == 4 {
        ascii_bytes("\u{1b}OS"@)
    } else if n == 5 {
        ascii_bytes("\u{1b}[15~"@)
    } else if n == 6 {
        ascii_bytes("\u{1b}[17~"@)
    } else if n == 7 {
        ascii_bytes("\u{1b}[18~"@)
    } else if n == 8 {
        ascii_bytes("\u{1b}[19~"@)
    } else if n == 9 {
        ascii_bytes("\u{1b}[20~"@)
    } else if n == 10 {
        ascii_bytes("\u{1b}[21~"@)
    } else if n == 11 {
        ascii_bytes("\u{1b}[23~"@)
    } else if n == 12 {
        ascii_bytes("\u{1b}[24~"@)
    } else {
        Seq::empty()
    }
}

/// The bytes a terminal sends for key press `k`; nothing for keys it has
/// no sequence for.
pub open spec fn key_bytes(k: KeyPress) -> Seq<u8> {
    match k.code {
        KeyCode::Char(c) => if k.ctrl {
            match ctrl_byte(c) {
                Some(b) => seq![b],
                None => Seq::empty(),
            }
        } else {
            encode_utf8(seq![c])
        },
        KeyCode::Enter => seq![13u8],
        KeyCode::Backspace => seq![0x7fu8],
        KeyCode::Tab => seq![9u8],
        KeyCode::Esc => seq![0x1bu8],
        KeyCode::Up => ascii_bytes("\u{1b}[A"@),
        KeyCode::Down => ascii_bytes("\u{1b}[B"@),
        KeyCode::Right => ascii_bytes("\u{1b}[C"@),
        KeyCode::Left => ascii_bytes("\u{1b}[D"@),
        KeyCode::Home => ascii_bytes("\u{1b}[H"@),
        KeyCode::End => ascii_bytes("\u{1b}[F"@),
        KeyCode::PageUp => ascii_bytes("\u{1b}[5~"@),
        KeyCode::PageDown => ascii_bytes("\u{1b}[6~"@),
        KeyCode::Delete => ascii_bytes("\u{1b}[3~"@),
        KeyCode::Insert => ascii_bytes("\u{1b}[2~"@),
        KeyCode::F(n) => function_key_bytes(n),
        KeyCode::Other => Seq::empty(),
    }
}

/// What a terminal sends for each named key, byte by byte (as xterm and
/// the VT220 define them): the arrows `ESC [ A` (up), `B` (down), `C`
/// (right) and `D` (left); Home and End `ESC [ H` and `ESC [ F`; Page Up
/// and Page Down, Delete and Insert `ESC [ 5 ~`, `6 ~`, `3 ~`, `2 ~`;
/// Enter a carriage return, Backspace DEL, Tab a tab and Escape ESC;
/// F1 to F4 `ESC O P` to `ESC O S`; nothing for a key it has no sequence
/// for. Control is ignored on these keys.
pub proof fn lemma_named_key_bytes(k: KeyPress)
    ensures
        k.code == KeyCode::Up ==> key_bytes(k) == seq![27u8, 91u8, 65u8],
        k.code == KeyCode::Down ==> key_bytes(k) == seq![27u8, 91u8, 66u8],
        k.code == KeyCode::Right ==> key_bytes(k) == seq![27u8, 91u8, 67u8],
        k.code == KeyCode::Left ==> key_bytes(k) == seq![27u8, 91u8, 68u8],
        k.code == KeyCode::Home ==> key_bytes(k) == seq![27u8, 91u8, 72u8],
        k.code == KeyCode::End ==> key_bytes(k) == seq![27u8, 91u8, 70u8],
        k.code == KeyCode::PageUp ==> key_bytes(k) == seq![27u8, 91u8, 53u8, 126u8],
        k.code == KeyCode::PageDown ==> key_bytes(k) == seq![27u8, 91u8, 54u8, 126u8],
        k.code == KeyCode::Delete ==> key_bytes(k) == seq![27u8, 91u8, 51u8, 126u8],
        k.code == KeyCode::Insert ==> key_bytes(k) == seq![27u8, 91u8, 50u8, 126u8],
        k.code == KeyCode::Enter ==> key_bytes(k) == seq![13u8],
        k.code == KeyCode::Backspace ==> key_bytes(k) == seq![127u8],
        k.code == KeyCode::Tab ==> key_bytes(k) == seq![9u8],
        k.code == KeyCode::Esc ==> key_bytes(k) == seq![27u8],
        k.code == KeyCode::F(1) ==> key_bytes(k) == seq![27u8, 79u8, 80u8],
        k.code == KeyCode::F(2) ==> key_bytes(k) == seq![27u8, 79u8, 81u8],
        k.code == KeyCode::F(3) ==> key_bytes(k) == seq![27u8, 79u8, 82u8],
        k.code == KeyCode::F(4) ==> key_bytes(k) == seq![27u8, 79u8, 83u8],
        k.code == KeyCode::F(5) ==> key_bytes(k) == seq![27u8, 91u8, 49u8, 53u8, 126u8],
        k.code == KeyCode::F(12) ==> key_bytes(k) == seq![27u8, 91u8, 50u8, 52u8, 126u8],
        k.code == KeyCode::Other ==> key_bytes(k) == Seq::<u8>::empty(),
        (k.code matches KeyCode::F(n) && (n == 0 || n > 12)) ==> key_bytes(k) == Seq::<u8>::empty(),
{
    reveal_strlit("\u{1b}[A");
    reveal_strlit("\u{1b}[B");
    reveal_strlit("\u{1b}[C");
    reveal_strlit("\u{1b}[D");
    reveal_strlit("\u{1b}[H");
    reveal_strlit("\u{1b}[F");
    reveal_strlit("\u{1b}[5~");
    reveal_strlit("\u{1b}[6~");
    reveal_strlit("\u{1b}[3~");
    reveal_strlit("\u{1b}[2~");
    reveal_strlit("\u{1b}OP");
    reveal_strlit("\u{1b}OQ");
    reveal_strlit("\u{1b}OR");
    reveal_strlit("\u{1b}OS");
    reveal_strlit("\u{1b}[15~");
    reveal_strlit("\u{1b}[24~");
    assert(ascii_bytes("\u{1b}[A"@) =~= seq![27u8, 91u8, 65u8]);
    assert(ascii_bytes("\u{1b}[B"@) =~= seq![27u8, 91u8, 66u8]);
    assert(ascii_bytes("\u{1b}[C"@) =~= seq![27u8, 91u8, 67u8]);
    assert(ascii_bytes("\u{1b}[D"@) =~= seq![27u8, 91u8, 68u8]);
    assert(ascii_bytes("\u{1b}[H"@) =~= seq![27u8, 91u8, 72u8]);
    assert(ascii_bytes("\u{1b}[F"@) =~= seq![27u8, 91u8, 70u8]);
    assert(ascii_bytes("\u{1b}[5~"@) =~= seq![27u8, 91u8, 53u8, 126u8]);
    assert(ascii_bytes("\u{1b}[6~"@) =~= seq![27u8, 91u8, 54u8, 126u8]);
    assert(ascii_bytes("\u{1b}[3~"@) =~= seq![27u8, 91u8, 51u8, 126u8]);
    assert(ascii_bytes("\u{1b}[2~"@) =~= seq![27u8, 91u8, 50u8, 126u8]);
    assert(ascii_bytes("\u{1b}OP"@) =~= seq![27u8, 79u8, 80u8]);
    assert(ascii_bytes("\u{1b}OQ"@) =~= seq![27u8, 79u8, 81u8]);
    assert(ascii_bytes("\u{1b}OR"@) =~= seq![27u8, 79u8, 82u8]);
    assert(ascii_bytes("\u{1b}OS"@) =~= seq![27u8, 79u8, 83u8]);
    assert(ascii_bytes("\u{1b}[15~"@) =~= seq![27u8, 91u8, 49u8, 53u8, 126u8]);
    assert(ascii_bytes("\u{1b}[24~"@) =~= seq![27u8, 91u8, 50u8, 52u8, 126u8]);
}

/// Control with a letter sends that letter's place in the alphabet (A or
/// a is 1, Z or z is 26), whatever its case; an ASCII character typed
/// without Control is sent as its own byte.
pub proof fn lemma_char_key_bytes(c: char)
    ensures
        'a' <= c <= 'z' ==> key_bytes(KeyPress { code: KeyCode::Char(c), ctrl: true })
            == seq![((c as u32) - 96) as u8],
        'A' <= c <= 'Z' ==> key_bytes(KeyPress { code: KeyCode::Char(c), ctrl: true })
            == seq![((c as u32) - 64) as u8],
        (c as u32) < 0x80 ==> key_bytes(KeyPress { code: KeyCode::Char(c), ctrl: false })
            == seq![c as u8],
{
    if (c as u32) < 0x80 {
        assert(encode_utf8(seq![c]) =~= encode_scalar(c as u32) + encode_utf8(seq![c].drop_first()));
        assert(seq![c].drop_first() =~= Seq::<char>::empty());
        let x = c as u32;
        assert(x < 0x80 ==> (x & 0x7f) == x) by (bit_vector);
        assert(encode_scalar(c as u32) =~= seq![c as u8]);
        assert(encode_utf8(seq![c]) =~= seq![c as u8]);
    }
}

/// The bytes of the ASCII text `s`.
fn ascii(s: &str) -> (v: Vec<u8>)
    requires
        vstd::utf8::is_ascii_chars(s@),
    ensures
        v@ == ascii_bytes(s@),
{
    let b = s.as_bytes();
    proof {
        vstd::utf8::is_ascii_chars_encode_utf8(s@);
        assert(b@ =~= ascii_bytes(s@));
    }
    slice_to_vec(b)
}

/// The bytes to send to a shell for key press `key`.
pub fn key_event_to_bytes(key: &KeyPress) -> (r: Vec<u8>)
    ensures
        r@ == key_bytes(*key),
{
    proof {
        reveal_strlit("\u{1b}[A");
        reveal_strlit("\u{1b}[B");
        reveal_strlit("\u{1b}[C");
        reveal_strlit("\u{1b}[D");
        reveal_strlit("\u{1b}[H");
        reveal_strlit("\u{1b}[F");
        reveal_strlit("\u{1b}[5~");
        reveal_strlit("\u{1b}[6~");
        reveal_strlit("\u{1b}[3~");
        reveal_strlit("\u{1b}[2~");
    }
    match key.code {
        KeyCode::Char(c) => {
            if key.ctrl {
                // Ctrl+A=1, Ctrl+B=2, ..., Ctrl+Z=26
                let lower: char = if 'A' <= c && c <= 'Z' {
                    ((c as u32) + 32) as u8 as char
                } else {
                    c
                };
                let low: u8 = ((lower as u32) % 256) as u8;
                let byte: u8 = low.wrapping_sub(97u8).wrapping_add(1u8);
                proof {
                    assert(lower == ascii_lower(c));
                    assert(byte == (((ascii_lower(c) as u32) % 256) + 160) % 256);
                }
                if byte <= 26 {
                    let mut v: Vec<u8> = Vec::new();
                    v.push(byte);
                    v
                } else {
                    Vec::new()
                }
            } else {
                let mut s = String::new();
                push_char(&mut s, c);
                let b = s.as_str().as_bytes();
                slice_to_vec(b)
            }
        },
        KeyCode::Enter => vec![13u8],
        KeyCode::Backspace => vec![0x7fu8],
        KeyCode::Tab => vec![9u8],
        KeyCode::Esc => vec![0x1bu8],
        KeyCode::Up => ascii("\u{1b}[A"),
        KeyCode::Down => ascii("\u{1b}[B"),
        KeyCode::Right => ascii("\u{1b}[C"),
        KeyCode::Left => ascii("\u{1b}[D"),
        KeyCode::Home => ascii("\u{1b}[H"),
        KeyCode::End => ascii("\u{1b}[F"),
        KeyCode::PageUp => ascii("\u{1b}[5~"),
        KeyCode::PageDown => ascii("\u{1b}[6~"),
        KeyCode::Delete => ascii("\u{1b}[3~"),
        KeyCode::Insert => ascii("\u{1b}[2~"),
        KeyCode::F(n) => function_key_to_bytes(n),
        KeyCode::Other => Vec::new(),
    }
}

fn function_key_to_bytes(n: u8) -> (r: Vec<u8>)
    ensures
        r@ == function_key_bytes(n),
{
    proof {
        reveal_strlit("\u{1b}OP");
        reveal_strlit("\u{1b}OQ");
        reveal_strlit("\u{1b}OR");
        reveal_strlit("\u{1b}OS");
        reveal_strlit("\u{1b}[15~");
        reveal_strlit("\u{1b}[17~");
        reveal_strlit("\u{1b}[18~");
        reveal_strlit("\u{1b}[19~");
        reveal_strlit("\u{1b}[20~");
        reveal_strlit("\u{1b}[21~");
        reveal_strlit("\u{1b}[23~");
        reveal_strlit("\u{1b}[24~");
    }
    if n == 1 {
        ascii("\u{1b}OP")
    } else if n == 2 {
        ascii("\u{1b}OQ")
    } else if n == 3 {
        ascii("\u{1b}OR")
    } else if n == 4 {
        ascii("\u{1b}OS")
    } else if n == 5 {
        ascii("\u{1b}[15~")
    } else if n == 6 {
        ascii("\u{1b}[17~")
    } else if n == 7 {
        ascii("\u{1b}[18~")
    } else if n == 8 {
        ascii("\u{1b}[19~")
    } else if n == 9 {
        ascii("\u{1b}[20~")
    } else if n == 10 {
        ascii("\u{1b}[21~")
    } else if n == 11 {
        ascii("\u{1b}[23~")
    } else if n == 12 {
        ascii("\u{1b}[24~")
    } else {
        Vec::new()
    }
}


/// The detach key a setting such as `ctrl-\` or `ctrl-]` names: Control
/// with the one character after `ctrl-` (letters in lowercase, as the
/// terminal reports them); Control-Backslash, the default, for any other
/// setting.
pub open spec fn detach_key_of(setting: Seq<char>) -> KeyPress {
    if setting.len() == 6 && setting.take(5) == "ctrl-"@ {
        KeyPress { code: KeyCode::Char(ascii_lower(setting[5])), ctrl: true }
    } else {
        KeyPress { code: KeyCode::Char('\\'), ctrl: true }
    }
}

/// Reads the configured detach key (`detach_key` in the settings).
pub fn parse_detach_key(setting: &str) -> (k: KeyPress)
    ensures
        k == detach_key_of(setting@),
{
    proof {
        reveal_strlit("ctrl-");
    }
    let cs = chars_of(setting);
    if cs.len() == 6 && chars_start_with(&cs, &chars_of("ctrl-")) {
        let c = cs[5];
        let lower = if 'A' <= c && c <= 'Z' {
            ((c as u32) + 32) as u8 as char
        } else {
            c
        };
        proof {
            if 'A' <= c && c <= 'Z' {
                assert(((c as u32) + 32) as u8 as char == ((c as u32) + 32) as char);
            }
        }
        KeyPress { code: KeyCode::Char(lower), ctrl: true }
    } else {
        KeyPress { code: KeyCode::Char('\\'), ctrl: true }
    }
}

/// Whether `k` is the detach key `d`.
pub open spec fn is_detach_key(k: KeyPress, d: KeyPress) -> bool {
    k.ctrl == d.ctrl && k.code == d.code
}

/// What an attached client does with a key press.
pub enum KeyAction {
    /// Leave the session.
    Detach,
    /// Send these bytes to the session.
    Send(Vec<u8>),
    /// Nothing.
    Ignore,
}

/// The detach sequence: a detach key pressed twice within the timeout.
/// `last_detach_key` is when the last detach key was pressed, if the key
/// pressed after it was none other.
pub struct DetachTracker {
    pub last_detach_key: Option<u128>,
}

impl DetachTracker {
    /// No detach key pressed yet.
    pub fn new() -> (t: Self)
        ensures
            t.last_detach_key is None,
    {
        DetachTracker { last_detach_key: None }
    }

    /// Decides what key press `key`, at time `now` (nanoseconds on a
    /// monotonic clock), does, with `detach` the configured detach key: a
    /// detach key within `timeout` of the previous one detaches, another
    /// starts the sequence; any other key ends it and is sent to the
    /// session unless the client only watches.
    pub fn on_key(
        &mut self,
        key: &KeyPress,
        detach: &KeyPress,
        read_only: bool,
        now: u128,
        timeout: u128,
    ) -> (r: KeyAction)
        ensures
            is_detach_key(*key, *detach) ==> match old(self).last_detach_key {
                Some(t) if (if now >= t { now - t } else { 0 }) < timeout => r is Detach
                    && final(self).last_detach_key == old(self).last_detach_key,
                _ => r is Ignore && final(self).last_detach_key == Some(now),
            },
            !is_detach_key(*key, *detach) ==> {
                &&& final(self).last_detach_key is None
                &&& (read_only || key_bytes(*key).len() == 0) ==> r is Ignore
                &&& !read_only && key_bytes(*key).len() > 0 ==> (r matches KeyAction::Send(b) && b@
                    == key_bytes(*key))
            },
    {
        if key.ctrl == detach.ctrl && key.code == detach.code {
            match self.last_detach_key {
                Some(t) => {
                    let elapsed = if now >= t { now - t } else { 0 };
                    if elapsed < timeout {
                        return KeyAction::Detach;
                    }
                },
                None => {},
            }
            self.last_detach_key = Some(now);
            return KeyAction::Ignore;
        }
        self.last_detach_key = None;
        if read_only {
            return KeyAction::Ignore;
        }
        let bytes = key_event_to_bytes(key);
        if bytes.len() > 0 {
            KeyAction::Send(bytes)
        } else {
            KeyAction::Ignore
        }
    }
}

/// What an attached client does with a frame from the daemon.
#[derive(Clone, Copy, PartialEq, Eq, Structural)]
pub enum FrameAction {
    /// Show the payload: it is the session's output.
    Show,
    /// The session has ended for this client.
    End,
    /// Nothing (an answer to a control message).
    Ignore,
}

/// Decides what a frame of type `msg_type` means to an attached client.
pub fn frame_action(msg_type: u8) -> (r: FrameAction)
    ensures
        r == if msg_type == MSG_PTY_OUTPUT {
            FrameAction::Show
        } else if msg_type == MSG_SESSION_EVENT {
            FrameAction::End
        } else {
            FrameAction::Ignore
        },
{
    if msg_type == MSG_PTY_OUTPUT {
        FrameAction::Show
    } else if msg_type == MSG_SESSION_EVENT {
        FrameAction::End
    } else {
        FrameAction::Ignore
    }
}

/// The notice shown when the session ends for an attached client, given
/// the event that ended it (`None` when it could not be read): taken over
/// by another client, killed, or ended.
pub open spec fn end_notice_text(event: Option<Response>) -> Seq<char> {
    match event {
        Some(Response::SessionEvent { event: e, .. }) if e@ == "stolen"@ =>
            "\r\n\u{1b}[33m[Session stolen by another client]\u{1b}[0m\r\n"@,
        Some(_) => "\r\n\u{1b}[33m[Session killed by snag]\u{1b}[0m\r\n"@,
        None => "\r\n\u{1b}[33m[Session ended]\u{1b}[0m\r\n"@,
    }
}

/// The notice shown when the session ends for an attached client.
pub fn end_notice(event: &Option<Response>) -> (r: String)
    ensures
        r@ == end_notice_text(*event),
{
    let mut m = String::new();
    match event {
        Some(Response::SessionEvent { event: e, .. }) => {
            if crate::text::same_text(e.as_str(), "stolen") {
                push_str(&mut m, "\r\n\u{1b}[33m[Session stolen by another client]\u{1b}[0m\r\n");
            } else {
                push_str(&mut m, "\r\n\u{1b}[33m[Session killed by snag]\u{1b}[0m\r\n");
            }
        },
        Some(_) => {
            push_str(&mut m, "\r\n\u{1b}[33m[Session killed by snag]\u{1b}[0m\r\n");
        },
        None => {
            push_str(&mut m, "\r\n\u{1b}[33m[Session ended]\u{1b}[0m\r\n");
        },
    }
    m
}

} // verus!
