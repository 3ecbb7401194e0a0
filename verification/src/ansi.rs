use crate::text::{chars_of, lossy_text, string_of, utf8_lossy};
use vstd::prelude::*;
use vstd::string::StringSliceAdditionalSpecFns;

verus! {

/// `c` is a control character (general category Cc, std's
/// `char::is_control`).
pub open spec fn is_control(c: char) -> bool {
    c <= '\u{1f}' || ('\u{7f}' <= c && c <= '\u{9f}')
}

/// Where a scan for escape sequences stands.
#[derive(Clone, Copy, PartialEq, Eq, Structural)]
pub enum AnsiScan {
    /// Plain text.
    Text,
    /// Just after an escape character.
    Escape,
    /// Inside a control sequence (`ESC [`), up to its final letter or `~`.
    Csi,
    /// Inside an operating system command (`ESC ]`), up to BEL or `ESC \`.
    Osc,
    /// Inside an operating system command, just after an escape character.
    OscEscape,
}

/// `o` as a sequence of at most one character.
pub open spec fn opt_seq(o: Option<char>) -> Seq<char> {
    match o {
        Some(c) => seq![c],
        None => Seq::empty(),
    }
}

/// One step of the scan that strips escape sequences: the next state, and
/// the character kept, if any.
pub open spec fn ansi_step(st: AnsiScan, c: char) -> (AnsiScan, Option<char>) {
    match st {
        AnsiScan::Text => if c == '\u{1b}' {
            (AnsiScan::Escape, None)
        } else if is_control(c) && c != '\n' && c != '\t' {
            (AnsiScan::Text, None)
        } else {
            (AnsiScan::Text, Some(c))
        },
        AnsiScan::Escape => if c == '[' {
            (AnsiScan::Csi, None)
        } else if c == ']' {
            (AnsiScan::Osc, None)
        } else {
            (AnsiScan::Text, None)
        },
        AnsiScan::Csi => if ('a' <= c && c <= 'z') || ('A' <= c && c <= 'Z') || c == '~' {
            (AnsiScan::Text, None)
        } else {
            (AnsiScan::Csi, None)
        },
        AnsiScan::Osc => if c == '\u{7}' {
            (AnsiScan::Text, None)
        } else if c == '\u{1b}' {
            (AnsiScan::OscEscape, None)
        } else {
            (AnsiScan::Osc, None)
        },
        AnsiScan::OscEscape => if c == '\\' || c == '\u{7}' {
            (AnsiScan::Text, None)
        } else if c == '\u{1b}' {
            (AnsiScan::OscEscape, None)
        } else {
            (AnsiScan::Osc, None)
        },
    }
}

/// What the scan keeps of `s`, starting in state `st`.
pub open spec fn ansi_run(st: AnsiScan, s: Seq<char>) -> Seq<char>
    decreases s.len(),
{
    if s.len() == 0 {
        Seq::empty()
    } else {
        let (next, kept) = ansi_step(st, s[0]);
        opt_seq(kept) + ansi_run(next, s.drop_first())
    }
}

/// `s` without escape sequences and without control characters other
/// than newline and tab.
pub open spec fn stripped(s: Seq<char>) -> Seq<char> {
    ansi_run(AnsiScan::Text, s)
}

/// A character the stripping scan keeps when it reads it as plain text.
pub open spec fn is_plain(c: char) -> bool {
    !is_control(c) || c == '\n' || c == '\t'
}

proof fn lemma_run_is_plain(st: AnsiScan, s: Seq<char>)
    ensures
        forall|i: int| 0 <= i < ansi_run(st, s).len() ==> is_plain(#[trigger] ansi_run(st, s)[i]),
    decreases s.len(),
{
    if s.len() > 0 {
        let (next, kept) = ansi_step(st, s[0]);
        lemma_run_is_plain(next, s.drop_first());
        let rest = ansi_run(next, s.drop_first());
        assert forall|i: int| 0 <= i < ansi_run(st, s).len() implies is_plain(
            #[trigger] ansi_run(st, s)[i],
        ) by {
            if kept is Some && i == 0 {
            } else if kept is Some {
                assert(ansi_run(st, s)[i] == rest[i - 1]);
            } else {
                assert(ansi_run(st, s)[i] == rest[i]);
            }
        }
    }
}

proof fn lemma_plain_run_keeps(s: Seq<char>)
    requires
        forall|i: int| 0 <= i < s.len() ==> is_plain(#[trigger] s[i]),
    ensures
        ansi_run(AnsiScan::Text, s) == s,
    decreases s.len(),
{
    if s.len() > 0 {
        assert(is_plain(s[0]));
        assert forall|i: int| 0 <= i < s.drop_first().len() implies is_plain(
            #[trigger] s.drop_first()[i],
        ) by {
            assert(s.drop_first()[i] == s[i + 1]);
        }
        lemma_plain_run_keeps(s.drop_first());
        assert(seq![s[0]] + s.drop_first() =~= s);
    }
}

/// `a` is `b` with some characters left out, the rest in their order.
pub open spec fn subsequence_of(a: Seq<char>, b: Seq<char>) -> bool
    decreases b.len(),
{
    if b.len() == 0 {
        a.len() == 0
    } else {
        subsequence_of(a, b.drop_first()) || (a.len() > 0 && a[0] == b[0] && subsequence_of(
            a.drop_first(),
            b.drop_first(),
        ))
    }
}

proof fn lemma_run_is_subsequence(st: AnsiScan, s: Seq<char>)
    ensures
        subsequence_of(ansi_run(st, s), s),
    decreases s.len(),
{
    if s.len() > 0 {
        let (next, kept) = ansi_step(st, s[0]);
        lemma_run_is_subsequence(next, s.drop_first());
        let rest = ansi_run(next, s.drop_first());
        if kept is Some {
            assert(ansi_run(st, s) =~= seq![s[0]] + rest);
            assert(ansi_run(st, s).drop_first() =~= rest);
        } else {
            assert(ansi_run(st, s) =~= rest);
        }
    }
}

/// What stripping leaves is the input with characters left out, never
/// added or reordered, and holds no escape character and no control
/// character but newline and tab.
pub proof fn lemma_strip_keeps_plain_text(s: Seq<char>)
    ensures
        subsequence_of(stripped(s), s),
        forall|i: int| 0 <= i < stripped(s).len() ==> is_plain(#[trigger] stripped(s)[i]),
        !stripped(s).contains('\u{1b}'),
{
    lemma_run_is_subsequence(AnsiScan::Text, s);
    lemma_run_is_plain(AnsiScan::Text, s);
    if stripped(s).contains('\u{1b}') {
        let i = choose|i: int| 0 <= i < stripped(s).len() && stripped(s)[i] == '\u{1b}';
        assert(is_plain(stripped(s)[i]));
    }
}

proof fn lemma_csi_skips_params(params: Seq<char>, rest: Seq<char>)
    requires
        forall|i: int| 0 <= i < params.len() ==> '0' <= #[trigger] params[i] <= '?',
    ensures
        ansi_run(AnsiScan::Csi, params + rest) == ansi_run(AnsiScan::Csi, rest),
    decreases params.len(),
{
    if params.len() > 0 {
        assert((params + rest).drop_first() =~= params.drop_first() + rest);
        assert(forall|i: int| 0 <= i < params.drop_first().len() ==> params.drop_first()[i] == params[i + 1]);
        lemma_csi_skips_params(params.drop_first(), rest);
    } else {
        assert(params + rest =~= rest);
    }
}

/// A control sequence is removed whole: `ESC [`, its parameter bytes
/// (`0` to `?`, such as digits and `;`), and its final letter, in either
/// case; plain text after it (no escape, no control character but newline
/// and tab) is kept exactly. So `ESC [ K error` leaves `error`, and
/// `ESC [ 2 J ESC [ H hello` leaves `hello`.
pub proof fn lemma_strip_removes_control_sequence(params: Seq<char>, f: char, t: Seq<char>)
    requires
        forall|i: int| 0 <= i < params.len() ==> '0' <= #[trigger] params[i] <= '?',
        ('a' <= f <= 'z') || ('A' <= f <= 'Z'),
        forall|i: int|
            0 <= i < t.len() ==> (#[trigger] t[i] == '\n' || t[i] == '\t' || !(t[i] <= '\u{1f}' || (
            '\u{7f}' <= t[i] <= '\u{9f}'))),
    ensures
        stripped(seq!['\u{1b}', '['] + params + seq![f] + t) == t,
{
    let s = seq!['\u{1b}', '['] + params + seq![f] + t;
    assert(s.drop_first() =~= seq!['['] + params + seq![f] + t);
    assert(s.drop_first().drop_first() =~= params + (seq![f] + t));
    lemma_csi_skips_params(params, seq![f] + t);
    assert((seq![f] + t).drop_first() =~= t);
    assert forall|i: int| 0 <= i < t.len() implies is_plain(#[trigger] t[i]) by {}
    lemma_plain_run_keeps(t);
    assert(ansi_run(AnsiScan::Text, s) == ansi_run(AnsiScan::Escape, s.drop_first()));
    assert(ansi_run(AnsiScan::Escape, s.drop_first()) == ansi_run(AnsiScan::Csi, params + (seq![f] + t)));
    assert(ansi_run(AnsiScan::Csi, seq![f] + t) == ansi_run(AnsiScan::Text, t));
}

/// Plain text (no escape, no control character but newline and tab) is
/// left exactly as it is.
pub proof fn lemma_strip_keeps_plain(t: Seq<char>)
    requires
        forall|i: int|
            0 <= i < t.len() ==> (#[trigger] t[i] == '\n' || t[i] == '\t' || !(t[i] <= '\u{1f}' || (
            '\u{7f}' <= t[i] <= '\u{9f}'))),
    ensures
        stripped(t) == t,
{
    assert forall|i: int| 0 <= i < t.len() implies is_plain(#[trigger] t[i]) by {}
    lemma_plain_run_keeps(t);
}

/// Stripping is idempotent: what it leaves holds no escape sequence or
/// stray control character, so stripping it again changes nothing.
pub proof fn lemma_strip_idempotent(s: Seq<char>)
    ensures
        stripped(stripped(s)) == stripped(s),
{
    lemma_run_is_plain(AnsiScan::Text, s);
    lemma_plain_run_keeps(stripped(s));
}

fn ansi_step_exec(st: AnsiScan, c: char) -> (r: (AnsiScan, Option<char>))
    ensures
        r == ansi_step(st, c),
{
    match st {
        AnsiScan::Text => if c == '\u{1b}' {
            (AnsiScan::Escape, None)
        } else if (c <= '\u{1f}' || ('\u{7f}' <= c && c <= '\u{9f}')) && c != '\n' && c != '\t' {
            (AnsiScan::Text, None)
        } else {
            (AnsiScan::Text, Some(c))
        },
        AnsiScan::Escape => if c == '[' {
            (AnsiScan::Csi, None)
        } else if c == ']' {
            (AnsiScan::Osc, None)
        } else {
            (AnsiScan::Text, None)
        },
        AnsiScan::Csi => if ('a' <= c && c <= 'z') || ('A' <= c && c <= 'Z') || c == '~' {
            (AnsiScan::Text, None)
        } else {
            (AnsiScan::Csi, None)
        },
        AnsiScan::Osc => if c == '\u{7}' {
            (AnsiScan::Text, None)
        } else if c == '\u{1b}' {
            (AnsiScan::OscEscape, None)
        } else {
            (AnsiScan::Osc, None)
        },
        AnsiScan::OscEscape => if c == '\\' || c == '\u{7}' {
            (AnsiScan::Text, None)
        } else if c == '\u{1b}' {
            (AnsiScan::OscEscape, None)
        } else {
            (AnsiScan::Osc, None)
        },
    }
}

/// Strips ANSI escape sequences (control sequences and operating system
/// commands) and control characters other than newline and tab, for plain
/// text searching.
pub fn strip_ansi(s: &str) -> (r: String)
    ensures
        r@ == stripped(s@),
{
    let cs = chars_of(s);
    let mut out: Vec<char> = Vec::new();
    let mut st = AnsiScan::Text;
    let mut i: usize = 0;
    assert(cs@.skip(0) =~= cs@);
    assert(out@ + ansi_run(st, cs@.skip(0)) =~= stripped(s@));
    while i < cs.len()
        invariant
            cs@ == s@,
            i <= cs@.len(),
            out@ + ansi_run(st, cs@.skip(i as int)) == stripped(s@),
        decreases cs@.len() - i,
    {
        let ghost rest = cs@.skip(i as int);
        assert(rest.drop_first() =~= cs@.skip(i + 1));
        let (next, kept) = ansi_step_exec(st, cs[i]);
        let ghost before = out@;
        match kept {
            Some(c) => {
                out.push(c);
            },
            None => {},
        }
        assert(out@ =~= before + opt_seq(kept));
        assert(before + (opt_seq(kept) + ansi_run(next, cs@.skip(i + 1))) =~= out@ + ansi_run(
            next,
            cs@.skip(i + 1),
        ));
        st = next;
        i = i + 1;
    }
    assert(cs@.skip(i as int) =~= Seq::<char>::empty());
    assert(out@ + Seq::<char>::empty() =~= out@);
    string_of(out.as_slice())
}

/// Where the scan of terminal output for the preview pane stands.
#[derive(Clone, Copy, PartialEq, Eq, Structural)]
pub enum PreviewScan {
    /// Plain text.
    Text,
    /// Just after an escape byte.
    Escape,
    /// Inside a control sequence (`ESC [`), among its parameter and
    /// intermediate bytes.
    Csi,
    /// Inside an operating system command (`ESC ]`).
    Osc,
    /// Inside an operating system command, just after an escape byte.
    OscEscape,
    /// One byte left to skip of a character set designation.
    SkipOne,
}

/// A byte that continues a control sequence: a parameter byte
/// (0x30 to 0x3F) or an intermediate byte (0x20 to 0x2F). Any other byte
/// ends it.
pub open spec fn continues_csi(b: u8) -> bool {
    0x20 <= b && b <= 0x3f
}

/// One step of the preview scan over byte `b`, with `pending` the bytes of
/// the control sequence read so far: the next state, the new pending
/// bytes, and the bytes kept.
pub open spec fn preview_step(st: PreviewScan, pending: Seq<u8>, b: u8) -> (PreviewScan, Seq<u8>, Seq<u8>) {
    match st {
        PreviewScan::Text => if b == 0x1b {
            (PreviewScan::Escape, Seq::empty(), Seq::empty())
        } else if b < 0x20 && b != 10 && b != 9 && b != 13 {
            (PreviewScan::Text, Seq::empty(), Seq::empty())
        } else {
            (PreviewScan::Text, Seq::empty(), seq![b])
        },
        PreviewScan::Escape => if b == 91 {
            (PreviewScan::Csi, seq![0x1bu8, 91u8], Seq::empty())
        } else if b == 93 {
            (PreviewScan::Osc, Seq::empty(), Seq::empty())
        } else if b == 40 || b == 41 {
            (PreviewScan::SkipOne, Seq::empty(), Seq::empty())
        } else {
            (PreviewScan::Text, Seq::empty(), Seq::empty())
        },
        PreviewScan::Csi => if continues_csi(b) {
            (PreviewScan::Csi, pending.push(b), Seq::empty())
        } else if b == 109 {
            (PreviewScan::Text, Seq::empty(), pending.push(b))
        } else {
            (PreviewScan::Text, Seq::empty(), Seq::empty())
        },
        PreviewScan::Osc => if b == 7 {
            (PreviewScan::Text, Seq::empty(), Seq::empty())
        } else if b == 0x1b {
            (PreviewScan::OscEscape, Seq::empty(), Seq::empty())
        } else {
            (PreviewScan::Osc, Seq::empty(), Seq::empty())
        },
        PreviewScan::OscEscape => if b == 92 || b == 7 {
            (PreviewScan::Text, Seq::empty(), Seq::empty())
        } else if b == 0x1b {
            (PreviewScan::OscEscape, Seq::empty(), Seq::empty())
        } else {
            (PreviewScan::Osc, Seq::empty(), Seq::empty())
        },
        PreviewScan::SkipOne => (PreviewScan::Text, Seq::empty(), Seq::empty()),
    }
}

/// The bytes the preview scan keeps of `s`.
pub open spec fn preview_run(st: PreviewScan, pending: Seq<u8>, s: Seq<u8>) -> Seq<u8>
    decreases s.len(),
{
    if s.len() == 0 {
        Seq::empty()
    } else {
        let (next, p, kept) = preview_step(st, pending, s[0]);
        kept + preview_run(next, p, s.drop_first())
    }
}

/// `s` without carriage returns, and with no more than two newlines in a
/// row, when `nl` newlines came just before it.
pub open spec fn tidy_run(nl: nat, s: Seq<char>) -> Seq<char>
    decreases s.len(),
{
    if s.len() == 0 {
        Seq::empty()
    } else if s[0] == '\r' {
        tidy_run(nl, s.drop_first())
    } else if s[0] == '\n' {
        if nl >= 2 {
            tidy_run(nl, s.drop_first())
        } else {
            seq!['\n'] + tidy_run(nl + 1, s.drop_first())
        }
    } else {
        seq![s[0]] + tidy_run(0, s.drop_first())
    }
}

/// What the preview pane shows of the terminal output `raw` (its bytes):
/// colour sequences (`ESC [ ... m`) and text kept, every other escape
/// sequence and control byte but newline and tab dropped, the kept bytes
/// read as UTF-8 (invalid sequences as U+FFFD), carriage returns dropped,
/// and runs of blank lines shortened to one.
pub open spec fn preview_text(raw: Seq<u8>) -> Seq<char> {
    tidy_run(0, utf8_lossy(preview_run(PreviewScan::Text, Seq::empty(), raw)))
}

proof fn lemma_preview_run_keeps_plain(raw: Seq<u8>)
    requires
        forall|i: int|
            0 <= i < raw.len() ==> #[trigger] raw[i] >= 0x20 || raw[i] == 9 || raw[i] == 10,
    ensures
        preview_run(PreviewScan::Text, Seq::empty(), raw) == raw,
    decreases raw.len(),
{
    if raw.len() > 0 {
        assert(raw[0] >= 0x20 || raw[0] == 9 || raw[0] == 10);
        assert forall|i: int| 0 <= i < raw.drop_first().len() implies #[trigger] raw.drop_first()[i]
            >= 0x20 || raw.drop_first()[i] == 9 || raw.drop_first()[i] == 10 by {
            assert(raw.drop_first()[i] == raw[i + 1]);
        }
        lemma_preview_run_keeps_plain(raw.drop_first());
        assert(seq![raw[0]] + raw.drop_first() =~= raw);
    }
}

/// No carriage return, and no three newlines in a row, in `t`.
pub open spec fn tidy_already(t: Seq<char>) -> bool {
    &&& forall|i: int| 0 <= i < t.len() ==> #[trigger] t[i] != '\r'
    &&& forall|i: int| 0 <= i && i + 2 < t.len() ==> !(#[trigger] t[i] == '\n' && t[i + 1] == '\n' && t[i + 2] == '\n')
}

proof fn lemma_tidy_keeps(nl: nat, t: Seq<char>)
    requires
        tidy_already(t),
        nl <= 2,
        nl == 1 ==> !(t.len() >= 2 && t[0] == '\n' && t[1] == '\n'),
        nl == 2 ==> !(t.len() >= 1 && t[0] == '\n'),
    ensures
        tidy_run(nl, t) == t,
    decreases t.len(),
{
    if t.len() > 0 {
        let r = t.drop_first();
        assert forall|i: int| 0 <= i < r.len() implies #[trigger] r[i] != '\r' by {
            assert(r[i] == t[i + 1]);
        }
        assert forall|i: int| 0 <= i && i + 2 < r.len() implies !(#[trigger] r[i] == '\n' && r[i + 1] == '\n'
            && r[i + 2] == '\n') by {
            assert(r[i] == t[i + 1] && r[i + 1] == t[i + 2] && r[i + 2] == t[i + 3]);
        }
        assert(t[0] != '\r');
        if t[0] == '\n' {
            if r.len() >= 2 {
                assert(!(t[0] == '\n' && t[1] == '\n' && t[2] == '\n'));
            }
            lemma_tidy_keeps(nl + 1, r);
        } else {
            lemma_tidy_keeps(0, r);
        }
        assert(seq![t[0]] + r =~= t);
    }
}

/// Plain output passes through the preview as std reads its bytes as
/// UTF-8: when no byte is a control byte other than tab and newline (so
/// no escape and no carriage return) and the text has no three newlines
/// in a row, the preview is exactly that text, tabs and newlines
/// included.
pub proof fn lemma_preview_keeps_plain_text(raw: Seq<u8>)
    requires
        forall|i: int|
            0 <= i < raw.len() ==> #[trigger] raw[i] >= 0x20 || raw[i] == 9 || raw[i] == 10,
        tidy_already(utf8_lossy(raw)),
    ensures
        preview_text(raw) == utf8_lossy(raw),
{
    lemma_preview_run_keeps_plain(raw);
    lemma_tidy_keeps(0, utf8_lossy(raw));
}

fn preview_step_exec(st: PreviewScan, pending: &mut Vec<u8>, b: u8, out: &mut Vec<u8>) -> (next: PreviewScan)
    ensures
        ({
            let (n, p, kept) = preview_step(st, old(pending)@, b);
            &&& next == n
            &&& final(pending)@ == p
            &&& final(out)@ == old(out)@ + kept
        }),
{
    let ghost o = out@;
    match st {
        PreviewScan::Text => {
            pending.clear();
            if b == 0x1b {
                PreviewScan::Escape
            } else if b < 0x20 && b != 10 && b != 9 && b != 13 {
                PreviewScan::Text
            } else {
                out.push(b);
                assert(out@ =~= o + seq![b]);
                PreviewScan::Text
            }
        },
        PreviewScan::Escape => {
            pending.clear();
            if b == 91 {
                pending.push(0x1b);
                pending.push(91);
                assert(pending@ =~= seq![0x1bu8, 91u8]);
                PreviewScan::Csi
            } else if b == 93 {
                PreviewScan::Osc
            } else if b == 40 || b == 41 {
                PreviewScan::SkipOne
            } else {
                PreviewScan::Text
            }
        },
        PreviewScan::Csi => {
            if 0x20 <= b && b <= 0x3f {
                pending.push(b);
                PreviewScan::Csi
            } else {
                if b == 109 {
                    pending.push(b);
                    let mut k: usize = 0;
                    while k < pending.len()
                        invariant
                            k <= pending@.len(),
                            out@ == o + pending@.take(k as int),
                        decreases pending@.len() - k,
                    {
                        out.push(pending[k]);
                        k = k + 1;
                        assert(out@ =~= o + pending@.take(k as int));
                    }
                    assert(pending@.take(k as int) =~= pending@);
                } else {
                    assert(out@ =~= o + Seq::<u8>::empty());
                }
                pending.clear();
                PreviewScan::Text
            }
        },
        PreviewScan::Osc => {
            pending.clear();
            assert(out@ =~= o + Seq::<u8>::empty());
            if b == 7 {
                PreviewScan::Text
            } else if b == 0x1b {
                PreviewScan::OscEscape
            } else {
                PreviewScan::Osc
            }
        },
        PreviewScan::OscEscape => {
            pending.clear();
            assert(out@ =~= o + Seq::<u8>::empty());
            if b == 92 || b == 7 {
                PreviewScan::Text
            } else if b == 0x1b {
                PreviewScan::OscEscape
            } else {
                PreviewScan::Osc
            }
        },
        PreviewScan::SkipOne => {
            pending.clear();
            assert(out@ =~= o + Seq::<u8>::empty());
            PreviewScan::Text
        },
    }
}

/// Keeps colour (SGR) sequences of terminal output and strips every other
/// escape sequence and control character, for the preview pane; reads the
/// rest as UTF-8; then drops carriage returns and shortens runs of blank
/// lines to one.
pub fn sanitize_for_preview(raw: &str) -> (r: String)
    ensures
        r@ == preview_text(raw.spec_bytes()),
{
    let bytes = raw.as_bytes();
    let mut kept: Vec<u8> = Vec::new();
    let mut pending: Vec<u8> = Vec::new();
    let mut st = PreviewScan::Text;
    let mut i: usize = 0;
    let ghost all = preview_run(PreviewScan::Text, Seq::empty(), bytes@);
    assert(bytes@.skip(0) =~= bytes@);
    assert(kept@ + preview_run(st, pending@, bytes@.skip(0)) =~= all);
    while i < bytes.len()
        invariant
            i <= bytes@.len(),
            all == preview_run(PreviewScan::Text, Seq::empty(), bytes@),
            kept@ + preview_run(st, pending@, bytes@.skip(i as int)) == all,
        decreases bytes@.len() - i,
    {
        let ghost rest = bytes@.skip(i as int);
        assert(rest.drop_first() =~= bytes@.skip(i + 1));
        let ghost (n, p, k) = preview_step(st, pending@, bytes@[i as int]);
        let ghost before = kept@;
        st = preview_step_exec(st, &mut pending, bytes[i], &mut kept);
        assert(before + (k + preview_run(n, p, bytes@.skip(i + 1))) =~= kept@ + preview_run(
            n,
            p,
            bytes@.skip(i + 1),
        ));
        i = i + 1;
    }
    assert(bytes@.skip(i as int) =~= Seq::<u8>::empty());
    assert(kept@ + Seq::<u8>::empty() =~= kept@);
    let text = lossy_text(kept.as_slice());
    let chars = chars_of(text.as_str());
    // Clean up: drop carriage returns and runs of more than two newlines
    let mut out: Vec<char> = Vec::new();
    let mut nl: usize = 0;
    let mut j: usize = 0;
    assert(chars@.skip(0) =~= chars@);
    assert(out@ + tidy_run(0, chars@.skip(0)) =~= preview_text(raw.spec_bytes()));
    while j < chars.len()
        invariant
            j <= chars@.len(),
            nl <= 2,
            out@ + tidy_run(nl as nat, chars@.skip(j as int)) == preview_text(raw.spec_bytes()),
        decreases chars@.len() - j,
    {
        let ghost rest = chars@.skip(j as int);
        assert(rest.drop_first() =~= chars@.skip(j + 1));
        let c = chars[j];
        let ghost before = out@;
        if c == '\r' {
        } else if c == '\n' {
            if nl < 2 {
                out.push('\n');
                nl = nl + 1;
                assert(before + (seq!['\n'] + tidy_run(nl as nat, chars@.skip(j + 1))) =~= out@
                    + tidy_run(nl as nat, chars@.skip(j + 1)));
            }
        } else {
            out.push(c);
            nl = 0;
            assert(before + (seq![c] + tidy_run(0, chars@.skip(j + 1))) =~= out@ + tidy_run(
                0,
                chars@.skip(j + 1),
            ));
        }
        j = j + 1;
    }
    assert(chars@.skip(j as int) =~= Seq::<char>::empty());
    assert(out@ + Seq::<char>::empty() =~= out@);
    string_of(out.as_slice())
}

} // verus!
