use crate::daemon::registry::has_prefix;
use crate::protocol::types::{GrepMatch, ProcessEntry, SessionInfo};
use crate::scan::views;
use crate::text::{
    chars_of, chars_start_with, decimal, decimal_len, push_char, push_decimal, push_str, string_of,
};
use vstd::prelude::*;
use vstd::string::StringSliceAdditionalSpecFns;
use vstd::utf8::{decode_utf8, encode_utf8, is_char_boundary};

verus! {

broadcast use {vstd::utf8::encode_utf8_decode_utf8, vstd::utf8::encode_utf8_valid_utf8};

/// What follows the last `/` of `s`; all of `s` when it has none.
pub open spec fn after_last_slash(s: Seq<char>) -> Seq<char>
    decreases s.len(),
{
    if s.len() == 0 {
        s
    } else if s.last() == '/' {
        Seq::empty()
    } else {
        after_last_slash(s.drop_last()).push(s.last())
    }
}

/// The name of a shell without its directory.
pub fn short_shell(shell: &str) -> (r: String)
    ensures
        r@ == after_last_slash(shell@),
{
    let cs = chars_of(shell);
    let mut i: usize = cs.len();
    assert(cs@.take(i as int) =~= cs@);
    assert(cs@ + cs@.skip(i as int) =~= cs@);
    while i > 0 && cs[i - 1] != '/'
        invariant
            i <= cs@.len(),
            cs@ == shell@,
            after_last_slash(shell@) == after_last_slash(cs@.take(i as int)) + cs@.skip(i as int),
        decreases i,
    {
        let ghost t = cs@.take(i as int);
        assert(t.drop_last() =~= cs@.take(i - 1));
        assert(after_last_slash(t) == after_last_slash(cs@.take(i - 1)).push(cs@[i - 1]));
        assert(after_last_slash(cs@.take(i - 1)).push(cs@[i - 1]) + cs@.skip(i as int) =~= after_last_slash(
            cs@.take(i - 1),
        ) + cs@.skip(i - 1));
        i = i - 1;
    }
    proof {
        if i == 0 {
            assert(cs@.take(0) =~= Seq::<char>::empty());
        }
        assert(after_last_slash(cs@.take(i as int)) =~= Seq::<char>::empty());
    }
    let mut r: Vec<char> = Vec::new();
    let mut j: usize = i;
    while j < cs.len()
        invariant
            i <= j <= cs@.len(),
            r@ == cs@.subrange(i as int, j as int),
        decreases cs@.len() - j,
    {
        r.push(cs[j]);
        j = j + 1;
        assert(r@ =~= cs@.subrange(i as int, j as int));
    }
    assert(r@ =~= cs@.skip(i as int));
    assert(Seq::<char>::empty() + cs@.skip(i as int) =~= cs@.skip(i as int));
    string_of(r.as_slice())
}

/// Number of bytes of the UTF-8 text of `s`.
pub open spec fn byte_len(s: Seq<char>) -> nat {
    encode_utf8(s).len()
}

/// The path as `~` and what follows the home directory `home`, when the
/// path lies under it.
pub open spec fn home_form(path: Seq<char>, home: Option<Seq<char>>) -> Option<Seq<char>> {
    match home {
        Some(h) => if has_prefix(path, h) {
            Some(seq!['~'] + path.skip(h.len() as int))
        } else {
            None
        },
        None => None,
    }
}

/// Where the kept tail of a path too long for `max_len` bytes begins.
pub open spec fn tail_start(path: Seq<char>, max_len: nat) -> int {
    byte_len(path) - max_len + 3
}

/// Whether the home form of `path` is used: it exists and fits.
pub open spec fn uses_home_form(path: Seq<char>, home: Option<Seq<char>>, max_len: nat) -> bool {
    home_form(path, home) matches Some(sh) && byte_len(sh) <= max_len
}

/// Whether shortening `path` is defined: the kept tail of a path too long
/// must begin within the path, at a character boundary.
pub open spec fn shortening_defined(path: Seq<char>, home: Option<Seq<char>>, max_len: nat) -> bool {
    uses_home_form(path, home, max_len) || byte_len(path) <= max_len || (max_len >= 3
        && is_char_boundary(encode_utf8(path), tail_start(path, max_len)))
}

/// A path fitted into `max_len` bytes for display: under the home
/// directory written with `~` when that fits, else as it is when it fits,
/// else `...` and its last `max_len - 3` bytes.
pub open spec fn shortened_path(path: Seq<char>, home: Option<Seq<char>>, max_len: nat) -> Seq<char> {
    if uses_home_form(path, home, max_len) {
        home_form(path, home).unwrap()
    } else if byte_len(path) <= max_len {
        path
    } else {
        "..."@ + decode_utf8(encode_utf8(path).subrange(tail_start(path, max_len), byte_len(path) as int))
    }
}

/// The text of `home`, when there is one.
pub open spec fn home_view(home: Option<&str>) -> Option<Seq<char>> {
    match home {
        Some(h) => Some(h@),
        None => None,
    }
}

/// The home form of `path`, when it lies under `home`, with its length in
/// bytes.
fn home_form_of(path: &str, home: Option<&str>) -> (r: Option<String>)
    ensures
        match r {
            Some(s) => home_form(path@, home_view(home)) == Some(s@),
            None => home_form(path@, home_view(home)) is None,
        },
{
    match home {
        None => None,
        Some(h) => {
            let pc = chars_of(path);
            let hc = chars_of(h);
            if chars_start_with(&pc, &hc) {
                let mut s = String::new();
                push_char(&mut s, '~');
                let mut i: usize = hc.len();
                while i < pc.len()
                    invariant
                        hc@.len() <= i <= pc@.len(),
                        s@ == seq!['~'] + pc@.subrange(hc@.len() as int, i as int),
                    decreases pc@.len() - i,
                {
                    push_char(&mut s, pc[i]);
                    i = i + 1;
                    assert(s@ =~= seq!['~'] + pc@.subrange(hc@.len() as int, i as int));
                }
                assert(pc@.subrange(hc@.len() as int, i as int) =~= path@.skip(h@.len() as int));
                Some(s)
            } else {
                None
            }
        },
    }
}

/// Whether shortening `path` for display is defined (see
/// `shortening_defined`).
pub fn shorten_path_defined(path: &str, home: Option<&str>, max_len: usize) -> (r: bool)
    ensures
        r == shortening_defined(path@, home_view(home), max_len as nat),
{
    assert(path.spec_bytes() == encode_utf8(path@));
    match home_form_of(path, home) {
        Some(sh) => {
            let shs = sh.as_str();
            assert(shs.spec_bytes() == encode_utf8(shs@));
            if shs.as_bytes().len() <= max_len {
                return true;
            }
        },
        None => {},
    }
    let n = path.as_bytes().len();
    if n <= max_len {
        return true;
    }
    if max_len < 3 {
        return false;
    }
    path.is_char_boundary(n - max_len + 3)
}

/// Fits `path` into `max_len` bytes for display (see `shortened_path`);
/// `home` is the user's home directory, when known.
pub fn shorten_path(path: &str, home: Option<&str>, max_len: usize) -> (r: String)
    requires
        shortening_defined(path@, home_view(home), max_len as nat),
    ensures
        r@ == shortened_path(path@, home_view(home), max_len as nat),
{
    assert(path.spec_bytes() == encode_utf8(path@));
    match home_form_of(path, home) {
        Some(sh) => {
            let fits = {
                let shs = sh.as_str();
                assert(shs.spec_bytes() == encode_utf8(shs@));
                shs.as_bytes().len() <= max_len
            };
            if fits {
                return sh;
            }
        },
        None => {},
    }
    let n = path.as_bytes().len();
    if n <= max_len {
        return path.to_owned();
    }
    let (_, tail) = path.split_at(n - max_len + 3);
    let mut r = String::new();
    push_str(&mut r, "...");
    push_str(&mut r, tail);
    proof {
        assert(decode_utf8(encode_utf8(tail@)) == tail@);
    }
    r
}

/// `s` followed by spaces up to `width` characters (std's `{:<width}`).
pub open spec fn pad_right(s: Seq<char>, width: nat) -> Seq<char> {
    if s.len() >= width {
        s
    } else {
        s + Seq::new((width - s.len()) as nat, |i: int| ' ')
    }
}

/// Spaces up to `width` characters followed by `s` (std's `{:>width}`).
pub open spec fn pad_left(s: Seq<char>, width: nat) -> Seq<char> {
    if s.len() >= width {
        s
    } else {
        Seq::new((width - s.len()) as nat, |i: int| ' ') + s
    }
}

/// Appends `t` to `out`, followed by spaces up to `width` characters.
pub fn push_padded(out: &mut String, t: &str, width: usize)
    ensures
        final(out)@ == old(out)@ + pad_right(t@, width as nat),
{
    let cs = chars_of(t);
    push_str(out, t);
    let mut k: usize = cs.len();
    while k < width
        invariant
            cs@.len() <= k,
            k <= width || k == cs@.len(),
            out@ == old(out)@ + t@ + Seq::new((k - cs@.len()) as nat, |i: int| ' '),
        decreases width - k,
    {
        push_char(out, ' ');
        k = k + 1;
        assert(out@ =~= old(out)@ + t@ + Seq::new((k - cs@.len()) as nat, |i: int| ' '));
    }
    if cs.len() >= width {
        assert(out@ =~= old(out)@ + pad_right(t@, width as nat));
    } else {
        assert(out@ =~= old(out)@ + pad_right(t@, width as nat));
    }
}


/// The first `n` bytes of `s`, as text; all of `s` when it is no longer.
pub open spec fn byte_prefix(s: Seq<char>, n: nat) -> Seq<char> {
    if byte_len(s) > n {
        decode_utf8(encode_utf8(s).take(n as int))
    } else {
        s
    }
}

/// Whether cutting `s` after `n` bytes is defined: it is no longer, or the
/// cut falls at a character boundary.
pub open spec fn prefix_defined(s: Seq<char>, n: nat) -> bool {
    byte_len(s) <= n || is_char_boundary(encode_utf8(s), n as int)
}

/// The first `n` bytes of `s`.
pub fn byte_prefix_of(s: &str, n: usize) -> (r: String)
    requires
        prefix_defined(s@, n as nat),
    ensures
        r@ == byte_prefix(s@, n as nat),
{
    assert(s.spec_bytes() == encode_utf8(s@));
    if s.as_bytes().len() > n {
        let (head, _) = s.split_at(n);
        proof {
            assert(head.spec_bytes() =~= encode_utf8(s@).take(n as int));
            assert(decode_utf8(encode_utf8(head@)) == head@);
        }
        head.to_owned()
    } else {
        s.to_owned()
    }
}

/// Whether `prefix_defined` holds.
pub fn byte_prefix_defined(s: &str, n: usize) -> (r: bool)
    ensures
        r == prefix_defined(s@, n as nat),
{
    assert(s.spec_bytes() == encode_utf8(s@));
    s.as_bytes().len() <= n || s.is_char_boundary(n)
}

/// A session's name as listed: `-` when it has none.
pub open spec fn name_or_dash(s: SessionInfo) -> Seq<char> {
    match s.name {
        Some(n) => n@,
        None => "-"@,
    }
}

/// A session's foreground process as listed: `idle` when none is known.
pub open spec fn fg_or_idle(s: SessionInfo) -> Seq<char> {
    match s.fg_process {
        Some(f) => f@,
        None => "idle"@,
    }
}

/// The larger of `a` and `b`.
pub open spec fn max_nat(a: nat, b: nat) -> nat {
    if a >= b {
        a
    } else {
        b
    }
}

/// Width of the NAME column: the longest name in bytes, at least 4.
pub open spec fn name_width(ss: Seq<SessionInfo>) -> nat
    decreases ss.len(),
{
    if ss.len() == 0 {
        4
    } else {
        max_nat(name_width(ss.drop_last()), byte_len(name_or_dash(ss.last())))
    }
}

/// Width of the SHELL column: the longest shell name in bytes, at least 5.
pub open spec fn shell_width(ss: Seq<SessionInfo>) -> nat
    decreases ss.len(),
{
    if ss.len() == 0 {
        5
    } else {
        max_nat(shell_width(ss.drop_last()), byte_len(after_last_slash(ss.last().shell@)))
    }
}

/// The header line of the session table.
pub open spec fn list_header(nw: nat, sw: nat) -> Seq<char> {
    pad_right("ID"@, 8) + "  "@ + pad_right("NAME"@, nw) + "  "@ + pad_right("SHELL"@, sw) + "  "@
        + pad_right("STATE"@, 10) + "  "@ + pad_right("CWD"@, 30) + "  FG PROCESS"@
}

/// The line of the session table for `s`.
pub open spec fn list_row(s: SessionInfo, nw: nat, sw: nat, home: Option<Seq<char>>) -> Seq<char> {
    pad_right(byte_prefix(s.id@, 8), 8) + "  "@ + pad_right(name_or_dash(s), nw) + "  "@ + pad_right(
        after_last_slash(s.shell@),
        sw,
    ) + "  "@ + pad_right(s.state@, 10) + "  "@ + pad_right(shortened_path(s.cwd@, home, 30), 30)
        + "  "@ + fg_or_idle(s)
}

/// Whether every line of the session table for `ss` can be made: IDs cut
/// at a character boundary and working directories that can be shortened.
pub open spec fn list_defined(ss: Seq<SessionInfo>, home: Option<Seq<char>>) -> bool {
    forall|i: int|
        0 <= i < ss.len() ==> prefix_defined((#[trigger] ss[i]).id@, 8) && shortening_defined(
            ss[i].cwd@,
            home,
            30,
        )
}

/// The number of bytes of the UTF-8 text of `s`.
fn utf8_len(s: &str) -> (n: usize)
    ensures
        n == byte_len(s@),
{
    assert(s.spec_bytes() == encode_utf8(s@));
    s.as_bytes().len()
}

/// The lines that print a table of `sessions` (`home` is the user's home
/// directory, when known): `No sessions.` when there are none, else a
/// header and one line per session.
pub fn session_list_lines(sessions: &[SessionInfo], home: Option<&str>) -> (r: Vec<String>)
    requires
        list_defined(sessions@, home_view(home)),
    ensures
        sessions@.len() == 0 ==> views(r@) == seq!["No sessions."@],
        sessions@.len() > 0 ==> views(r@) == seq![
            list_header(name_width(sessions@), shell_width(sessions@)),
        ] + Seq::new(
            sessions@.len(),
            |i: int|
                list_row(
                    sessions@[i],
                    name_width(sessions@),
                    shell_width(sessions@),
                    home_view(home),
                ),
        ),
{
    if sessions.len() == 0 {
        let mut m = String::new();
        push_str(&mut m, "No sessions.");
        let mut r: Vec<String> = Vec::new();
        r.push(m);
        assert(views(r@) =~= seq!["No sessions."@]);
        return r;
    }
    // Calculate column widths
    let mut nw: usize = 4;
    let mut sw: usize = 5;
    let mut i: usize = 0;
    while i < sessions.len()
        invariant
            i <= sessions@.len(),
            nw == name_width(sessions@.take(i as int)),
            sw == shell_width(sessions@.take(i as int)),
        decreases sessions@.len() - i,
    {
        assert(sessions@.take(i + 1).drop_last() =~= sessions@.take(i as int));
        let s = &sessions[i];
        let n = match &s.name {
            Some(n) => utf8_len(n.as_str()),
            None => {
                proof {
                    reveal_strlit("-");
                    vstd::utf8::is_ascii_chars_encode_utf8("-"@);
                }
                1
            },
        };
        if n > nw {
            nw = n;
        }
        let sh = short_shell(s.shell.as_str());
        let k = utf8_len(sh.as_str());
        if k > sw {
            sw = k;
        }
        i = i + 1;
    }
    assert(sessions@.take(i as int) =~= sessions@);
    let mut lines: Vec<String> = Vec::new();
    let mut header = String::new();
    push_padded(&mut header, "ID", 8);
    push_str(&mut header, "  ");
    push_padded(&mut header, "NAME", nw);
    push_str(&mut header, "  ");
    push_padded(&mut header, "SHELL", sw);
    push_str(&mut header, "  ");
    push_padded(&mut header, "STATE", 10);
    push_str(&mut header, "  ");
    push_padded(&mut header, "CWD", 30);
    push_str(&mut header, "  FG PROCESS");
    assert(header@ =~= list_header(nw as nat, sw as nat));
    lines.push(header);
    let mut j: usize = 0;
    while j < sessions.len()
        invariant
            j <= sessions@.len(),
            list_defined(sessions@, home_view(home)),
            nw == name_width(sessions@),
            sw == shell_width(sessions@),
            lines@.len() == j + 1,
            views(lines@)[0] == list_header(nw as nat, sw as nat),
            forall|k: int|
                0 <= k < j ==> views(lines@)[k + 1] == list_row(
                    sessions@[k],
                    nw as nat,
                    sw as nat,
                    home_view(home),
                ),
        decreases sessions@.len() - j,
    {
        let s = &sessions[j];
        assert(prefix_defined(s.id@, 8) && shortening_defined(s.cwd@, home_view(home), 30));
        let mut row = String::new();
        let id_short = byte_prefix_of(s.id.as_str(), 8);
        push_padded(&mut row, id_short.as_str(), 8);
        push_str(&mut row, "  ");
        match &s.name {
            Some(n) => push_padded(&mut row, n.as_str(), nw),
            None => push_padded(&mut row, "-", nw),
        }
        push_str(&mut row, "  ");
        let sh = short_shell(s.shell.as_str());
        push_padded(&mut row, sh.as_str(), sw);
        push_str(&mut row, "  ");
        push_padded(&mut row, s.state.as_str(), 10);
        push_str(&mut row, "  ");
        let cwd = shorten_path(s.cwd.as_str(), home, 30);
        push_padded(&mut row, cwd.as_str(), 30);
        push_str(&mut row, "  ");
        match &s.fg_process {
            Some(f) => push_str(&mut row, f.as_str()),
            None => push_str(&mut row, "idle"),
        }
        assert(row@ =~= list_row(*s, nw as nat, sw as nat, home_view(home)));
        lines.push(row);
        j = j + 1;
    }
    assert(views(lines@) =~= seq![list_header(name_width(sessions@), shell_width(sessions@))]
        + Seq::new(
        sessions@.len(),
        |i: int| list_row(sessions@[i], name_width(sessions@), shell_width(sessions@), home_view(home)),
    ));
    lines
}


/// `true` or `false`, as Rust prints a `bool`.
pub open spec fn bool_text(b: bool) -> Seq<char> {
    if b {
        "true"@
    } else {
        "false"@
    }
}

/// The lines that print the details of a session.
pub open spec fn info_lines(info: SessionInfo) -> Seq<Seq<char>> {
    seq![
        "ID:           "@ + info.id@,
        "Name:         "@ + match info.name {
            Some(n) => n@,
            None => "(none)"@,
        },
        "Shell:        "@ + info.shell@,
        "CWD:          "@ + info.cwd@,
        "State:        "@ + info.state@,
        "FG Process:   "@ + fg_or_idle(info),
        "Attached:     "@ + decimal(info.attached as nat),
        "Registered:   "@ + bool_text(info.registered),
        "Created:      "@ + info.created_at@,
    ]
}

/// `snag info` prints nine lines, each a label padded to 14 columns and
/// then the value of that label's own field: the ID, the name (`(none)`
/// without one), the shell, the working directory, the state, the
/// foreground process (`idle` without one), the number of attached
/// clients, whether the shell registered itself, and when the session was
/// created.
pub proof fn lemma_info_lines_fields(info: SessionInfo)
    ensures
        info_lines(info).len() == 9,
        info_lines(info)[0].take(14) == "ID:           "@ && info_lines(info)[0].skip(14) == (info.id@),
        info_lines(info)[1].take(14) == "Name:         "@ && info_lines(info)[1].skip(14) == (match info.name { Some(n) => n@, None => "(none)"@ }),
        info_lines(info)[2].take(14) == "Shell:        "@ && info_lines(info)[2].skip(14) == (info.shell@),
        info_lines(info)[3].take(14) == "CWD:          "@ && info_lines(info)[3].skip(14) == (info.cwd@),
        info_lines(info)[4].take(14) == "State:        "@ && info_lines(info)[4].skip(14) == (info.state@),
        info_lines(info)[5].take(14) == "FG Process:   "@ && info_lines(info)[5].skip(14) == (match info.fg_process { Some(f) => f@, None => "idle"@ }),
        info_lines(info)[6].take(14) == "Attached:     "@ && info_lines(info)[6].skip(14) == (decimal(info.attached as nat)),
        info_lines(info)[7].take(14) == "Registered:   "@ && info_lines(info)[7].skip(14) == (if info.registered { "true"@ } else { "false"@ }),
        info_lines(info)[8].take(14) == "Created:      "@ && info_lines(info)[8].skip(14) == (info.created_at@),
{
    reveal_strlit("ID:           ");
    reveal_strlit("Name:         ");
    reveal_strlit("Shell:        ");
    reveal_strlit("CWD:          ");
    reveal_strlit("State:        ");
    reveal_strlit("FG Process:   ");
    reveal_strlit("Attached:     ");
    reveal_strlit("Registered:   ");
    reveal_strlit("Created:      ");
    reveal_strlit("(none)");
    reveal_strlit("idle");
    reveal_strlit("true");
    reveal_strlit("false");
    assert(info_lines(info)[0].take(14) =~= "ID:           "@);
    assert(info_lines(info)[0].skip(14) =~= (info.id@));
    assert(info_lines(info)[1].take(14) =~= "Name:         "@);
    assert(info_lines(info)[1].skip(14) =~= (match info.name { Some(n) => n@, None => "(none)"@ }));
    assert(info_lines(info)[2].take(14) =~= "Shell:        "@);
    assert(info_lines(info)[2].skip(14) =~= (info.shell@));
    assert(info_lines(info)[3].take(14) =~= "CWD:          "@);
    assert(info_lines(info)[3].skip(14) =~= (info.cwd@));
    assert(info_lines(info)[4].take(14) =~= "State:        "@);
    assert(info_lines(info)[4].skip(14) =~= (info.state@));
    assert(info_lines(info)[5].take(14) =~= "FG Process:   "@);
    assert(info_lines(info)[5].skip(14) =~= (match info.fg_process { Some(f) => f@, None => "idle"@ }));
    assert(info_lines(info)[6].take(14) =~= "Attached:     "@);
    assert(info_lines(info)[6].skip(14) =~= (decimal(info.attached as nat)));
    assert(info_lines(info)[7].take(14) =~= "Registered:   "@);
    assert(info_lines(info)[7].skip(14) =~= (if info.registered { "true"@ } else { "false"@ }));
    assert(info_lines(info)[8].take(14) =~= "Created:      "@);
    assert(info_lines(info)[8].skip(14) =~= (info.created_at@));
}

fn line_of(label: &str, value: &str) -> (r: String)
    ensures
        r@ == label@ + value@,
{
    let mut m = String::new();
    push_str(&mut m, label);
    push_str(&mut m, value);
    m
}

/// The lines that print the details of a session.
pub fn session_info_lines(info: &SessionInfo) -> (r: Vec<String>)
    ensures
        views(r@) == info_lines(*info),
{
    let mut r: Vec<String> = Vec::new();
    r.push(line_of("ID:           ", info.id.as_str()));
    match &info.name {
        Some(n) => r.push(line_of("Name:         ", n.as_str())),
        None => r.push(line_of("Name:         ", "(none)")),
    }
    r.push(line_of("Shell:        ", info.shell.as_str()));
    r.push(line_of("CWD:          ", info.cwd.as_str()));
    r.push(line_of("State:        ", info.state.as_str()));
    match &info.fg_process {
        Some(f) => r.push(line_of("FG Process:   ", f.as_str())),
        None => r.push(line_of("FG Process:   ", "idle")),
    }
    let mut a = String::new();
    push_str(&mut a, "Attached:     ");
    push_decimal(&mut a, info.attached as u64);
    r.push(a);
    if info.registered {
        r.push(line_of("Registered:   ", "true"));
    } else {
        r.push(line_of("Registered:   ", "false"));
    }
    r.push(line_of("Created:      ", info.created_at.as_str()));
    assert(views(r@) =~= info_lines(*info));
    r
}

/// How a search result is labelled: by the session's name, else by the
/// first 8 bytes of its ID.
pub open spec fn grep_label(m: GrepMatch) -> Seq<char> {
    match m.session_name {
        Some(n) => n@,
        None => byte_prefix(m.session_id@, 8),
    }
}

/// The lines that print search result `m`, the `i`-th: a blank line
/// between results unless only sessions are listed; then its label alone
/// (`sessions_only`), or the label in brackets and its last matching line
/// (`last`) or all of them, indented.
pub open spec fn grep_block(m: GrepMatch, i: int, sessions_only: bool, last: bool) -> Seq<Seq<char>> {
    let label = grep_label(m);
    let sep = if i > 0 && !sessions_only {
        seq![Seq::<char>::empty()]
    } else {
        Seq::empty()
    };
    let ls = views(m.lines@);
    sep + if sessions_only {
        seq![label]
    } else if last {
        seq!["["@ + label + "]"@] + if ls.len() > 0 {
            seq!["  "@ + ls.last()]
        } else {
            Seq::empty()
        }
    } else {
        seq!["["@ + label + "]"@] + ls.map_values(|l: Seq<char>| "  "@ + l)
    }
}

/// The lines that print the search results `ms[..n]`.
pub open spec fn grep_blocks(ms: Seq<GrepMatch>, n: int, sessions_only: bool, last: bool) -> Seq<Seq<char>>
    decreases n,
{
    if n <= 0 {
        Seq::empty()
    } else {
        grep_blocks(ms, n - 1, sessions_only, last) + grep_block(ms[n - 1], n - 1, sessions_only, last)
    }
}

/// Whether every label of `ms` can be made.
pub open spec fn grep_defined(ms: Seq<GrepMatch>) -> bool {
    forall|i: int| 0 <= i < ms.len() ==> prefix_defined((#[trigger] ms[i]).session_id@, 8)
}

/// The lines that print search results: `No matches.` when there are none.
pub fn grep_lines(matches: &[GrepMatch], sessions_only: bool, last: bool) -> (r: Vec<String>)
    requires
        grep_defined(matches@),
    ensures
        matches@.len() == 0 ==> views(r@) == seq!["No matches."@],
        matches@.len() > 0 ==> views(r@) == grep_blocks(
            matches@,
            matches@.len() as int,
            sessions_only,
            last,
        ),
{
    let mut r: Vec<String> = Vec::new();
    if matches.len() == 0 {
        let mut m = String::new();
        push_str(&mut m, "No matches.");
        r.push(m);
        assert(views(r@) =~= seq!["No matches."@]);
        return r;
    }
    let mut i: usize = 0;
    while i < matches.len()
        invariant
            i <= matches@.len(),
            grep_defined(matches@),
            views(r@) == grep_blocks(matches@, i as int, sessions_only, last),
        decreases matches@.len() - i,
    {
        let m = &matches[i];
        let ghost before = views(r@);
        if i > 0 && !sessions_only {
            r.push(String::new());
        }
        let ghost with_sep = views(r@);
        assert(prefix_defined(m.session_id@, 8));
        let label = match &m.session_name {
            Some(n) => n.clone(),
            None => byte_prefix_of(m.session_id.as_str(), 8),
        };
        if sessions_only {
            r.push(label);
        } else {
            let mut head = String::new();
            push_str(&mut head, "[");
            push_str(&mut head, label.as_str());
            push_str(&mut head, "]");
            r.push(head);
            if last {
                if m.lines.len() > 0 {
                    let n = m.lines.len();
                    r.push(line_of("  ", m.lines[n - 1].as_str()));
                }
            } else {
                let mut k: usize = 0;
                let ghost base = views(r@);
                while k < m.lines.len()
                    invariant
                        k <= m.lines@.len(),
                        views(r@).len() == base.len() + k,
                        forall|j: int| 0 <= j < base.len() ==> views(r@)[j] == base[j],
                        forall|j: int|
                            0 <= j < k ==> views(r@)[base.len() + j] == "  "@ + m.lines@[j]@,
                    decreases m.lines@.len() - k,
                {
                    r.push(line_of("  ", m.lines[k].as_str()));
                    k = k + 1;
                }
                assert(views(r@) =~= base + views(m.lines@).map_values(|l: Seq<char>| "  "@ + l));
            }
        }
        assert(views(r@) =~= grep_blocks(matches@, i + 1, sessions_only, last));
        i = i + 1;
    }
    r
}

/// The label of a search result in machine-readable output: the session's
/// name, else its whole ID.
pub fn grep_json_label(m: &GrepMatch) -> (r: String)
    ensures
        r@ == match m.session_name {
            Some(n) => n@,
            None => m.session_id@,
        },
{
    match &m.session_name {
        Some(n) => n.clone(),
        None => m.session_id.clone(),
    }
}

/// The line that prints a foreground process: its PID right-aligned in 8
/// columns, two spaces, its command.
pub open spec fn process_line(e: ProcessEntry) -> Seq<char> {
    pad_left(decimal(e.pid as nat), 8) + "  "@ + e.command@
}

/// The lines that print foreground processes: `No foreground processes.`
/// when there are none.
pub fn process_lines(entries: &[ProcessEntry]) -> (r: Vec<String>)
    ensures
        entries@.len() == 0 ==> views(r@) == seq!["No foreground processes."@],
        entries@.len() > 0 ==> views(r@) == entries@.map_values(|e: ProcessEntry| process_line(e)),
{
    let mut r: Vec<String> = Vec::new();
    if entries.len() == 0 {
        let mut m = String::new();
        push_str(&mut m, "No foreground processes.");
        r.push(m);
        assert(views(r@) =~= seq!["No foreground processes."@]);
        return r;
    }
    let mut i: usize = 0;
    while i < entries.len()
        invariant
            i <= entries@.len(),
            views(r@).len() == i,
            forall|k: int| 0 <= k < i ==> views(r@)[k] == process_line(entries@[k]),
        decreases entries@.len() - i,
    {
        let e = &entries[i];
        let mut digits = String::new();
        push_decimal(&mut digits, e.pid as u64);
        let mut line = String::new();
        let n = decimal_len(e.pid as u64);
        let mut k: u64 = n;
        while k < 8
            invariant
                n <= k,
                k <= 8 || k == n,
                n == decimal(e.pid as nat).len(),
                line@ == Seq::new((k - n) as nat, |j: int| ' '),
            decreases 8 - k,
        {
            push_char(&mut line, ' ');
            k = k + 1;
            assert(line@ =~= Seq::new((k - n) as nat, |j: int| ' '));
        }
        push_str(&mut line, digits.as_str());
        push_str(&mut line, "  ");
        push_str(&mut line, e.command.as_str());
        assert(line@ =~= process_line(*e));
        let ghost before = views(r@);
        r.push(line);
        assert(views(r@) =~= before.push(process_line(entries@[i as int])));
        i = i + 1;
    }
    assert(views(r@) =~= entries@.map_values(|e: ProcessEntry| process_line(e)));
    r
}

/// The lines that print the daemon's status.
pub fn status_lines(pid: u32, uptime_secs: u64, session_count: usize) -> (r: Vec<String>)
    ensures
        views(r@) == seq![
            "PID:       "@ + decimal(pid as nat),
            "Uptime:    "@ + decimal(uptime_secs as nat) + "s"@,
            "Sessions:  "@ + decimal(session_count as nat),
        ],
{
    let mut a = String::new();
    push_str(&mut a, "PID:       ");
    push_decimal(&mut a, pid as u64);
    let mut b = String::new();
    push_str(&mut b, "Uptime:    ");
    push_decimal(&mut b, uptime_secs);
    push_str(&mut b, "s");
    let mut c = String::new();
    push_str(&mut c, "Sessions:  ");
    push_decimal(&mut c, session_count as u64);
    let mut r: Vec<String> = Vec::new();
    r.push(a);
    r.push(b);
    r.push(c);
    assert(views(r@) =~= seq![
        "PID:       "@ + decimal(pid as nat),
        "Uptime:    "@ + decimal(uptime_secs as nat) + "s"@,
        "Sessions:  "@ + decimal(session_count as nat),
    ]);
    r
}

/// What a shell evaluates to learn the session it was registered as.
pub fn register_export_line(id: &str) -> (r: String)
    ensures
        r@ == "export SNAG_SESSION="@ + id@,
{
    line_of("export SNAG_SESSION=", id)
}


/// The shell code that registers a bash session with the daemon.
pub open spec fn bash_hook() -> Seq<char> {
    "_snag_hook() {\n  [ -n \"$SNAG_SESSION\" ] && return\n  # Auto-start daemon if not running\n  snag daemon status &>/dev/null || snag daemon start &>/dev/null &\n  sleep 0.2\n  local _snag_result\n  _snag_result=\"$(snag register --pid $$ 2>/dev/null)\"\n  if [ $? -eq 0 ] && [ -n \"$_snag_result\" ]; then\n    eval \"$_snag_result\"\n    trap 'snag unregister $SNAG_SESSION 2>/dev/null' EXIT\n  fi\n}\n\n_snag_hook\n"@
}

/// The shell code that registers a zsh session with the daemon.
pub open spec fn zsh_hook() -> Seq<char> {
    "_snag_hook() {\n  [[ -n \"$SNAG_SESSION\" ]] && return\n  # Auto-start daemon if not running\n  snag daemon status &>/dev/null || snag daemon start &>/dev/null &\n  sleep 0.2\n  local _snag_result\n  _snag_result=\"$(snag register --pid $$ 2>/dev/null)\"\n  if [[ $? -eq 0 ]] && [[ -n \"$_snag_result\" ]]; then\n    eval \"$_snag_result\"\n    trap 'snag unregister $SNAG_SESSION 2>/dev/null' EXIT\n  fi\n}\n\n_snag_hook\n"@
}

/// The shell code that registers a session of `shell` with the daemon, for
/// bash and zsh; none for other shells.
pub fn hook_script(shell: &str) -> (r: Option<String>)
    ensures
        shell@ == "bash"@ ==> (r matches Some(t) && t@ == bash_hook()),
        shell@ == "zsh"@ ==> (r matches Some(t) && t@ == zsh_hook()),
        shell@ != "bash"@ && shell@ != "zsh"@ ==> r is None,
{
    proof {
        reveal_strlit("bash");
        reveal_strlit("zsh");
        assert("bash"@.len() != "zsh"@.len());
    }
    if crate::text::same_text(shell, "bash") {
        let mut t = String::new();
        push_str(
            &mut t,
            "_snag_hook() {\n  [ -n \"$SNAG_SESSION\" ] && return\n  # Auto-start daemon if not running\n  snag daemon status &>/dev/null || snag daemon start &>/dev/null &\n  sleep 0.2\n  local _snag_result\n  _snag_result=\"$(snag register --pid $$ 2>/dev/null)\"\n  if [ $? -eq 0 ] && [ -n \"$_snag_result\" ]; then\n    eval \"$_snag_result\"\n    trap 'snag unregister $SNAG_SESSION 2>/dev/null' EXIT\n  fi\n}\n\n_snag_hook\n",
        );
        Some(t)
    } else if crate::text::same_text(shell, "zsh") {
        let mut t = String::new();
        push_str(
            &mut t,
            "_snag_hook() {\n  [[ -n \"$SNAG_SESSION\" ]] && return\n  # Auto-start daemon if not running\n  snag daemon status &>/dev/null || snag daemon start &>/dev/null &\n  sleep 0.2\n  local _snag_result\n  _snag_result=\"$(snag register --pid $$ 2>/dev/null)\"\n  if [[ $? -eq 0 ]] && [[ -n \"$_snag_result\" ]]; then\n    eval \"$_snag_result\"\n    trap 'snag unregister $SNAG_SESSION 2>/dev/null' EXIT\n  fi\n}\n\n_snag_hook\n",
        );
        Some(t)
    } else {
        None
    }
}

} // verus!
