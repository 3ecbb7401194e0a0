use crate::daemon::registry::has_prefix;
use crate::error::SnagError;
use crate::protocol::types::DiscoveredSession;
use crate::scan::{
    lines, lines_of, occurs, occurs_in, parse_u32, trim_chars, trimmed, u32_text, views, words,
    words_of,
};
use crate::config::{join_path, joined_path, tmp_dir};
use crate::text::{
    chars_of, chars_start_with, decimal, push_decimal, push_signed_decimal, push_str, signed_decimal,
    string_of,
};
use vstd::prelude::*;

verus! {

/// The first of `ls` that begins with `p`.
pub open spec fn first_with_prefix(ls: Seq<Seq<char>>, p: Seq<char>) -> Option<Seq<char>>
    decreases ls.len(),
{
    if ls.len() == 0 {
        None
    } else if has_prefix(ls[0], p) {
        Some(ls[0])
    } else {
        first_with_prefix(ls.drop_first(), p)
    }
}

/// The first line of `ls` that begins with `p`, as an index.
fn find_prefixed(ls: &Vec<String>, p: &str) -> (r: Option<usize>)
    ensures
        match r {
            Some(i) => i < ls@.len() && first_with_prefix(views(ls@), p@) == Some(ls@[i as int]@)
                && has_prefix(ls@[i as int]@, p@),
            None => first_with_prefix(views(ls@), p@) is None,
        },
{
    let pc = chars_of(p);
    let mut i: usize = 0;
    assert(views(ls@).skip(0) =~= views(ls@));
    while i < ls.len()
        invariant
            i <= ls@.len(),
            pc@ == p@,
            first_with_prefix(views(ls@), p@) == first_with_prefix(views(ls@).skip(i as int), p@),
        decreases ls@.len() - i,
    {
        assert(views(ls@).skip(i as int).drop_first() =~= views(ls@).skip(i + 1));
        let lc = chars_of(ls[i].as_str());
        if chars_start_with(&lc, &pc) {
            return Some(i);
        }
        i = i + 1;
    }
    None
}

/// The owner's user ID in the text of `/proc/<pid>/status`: the second
/// word of the first line that begins with `Uid:`.
pub open spec fn status_uid_of(status: Seq<char>) -> Option<u32> {
    match first_with_prefix(lines(status), "Uid:"@) {
        Some(l) => if words(l).len() > 1 {
            u32_text(words(l)[1])
        } else {
            None
        },
        None => None,
    }
}

/// The owner's user ID in the text of `/proc/<pid>/status`.
pub fn status_uid(status: &str) -> (r: Option<u32>)
    ensures
        r == status_uid_of(status@),
{
    let ls = lines_of(&chars_of(status));
    match find_prefixed(&ls, "Uid:") {
        None => None,
        Some(i) => {
            let ws = words_of(&chars_of(ls[i].as_str()));
            if ws.len() > 1 {
                parse_u32(ws[1].as_str())
            } else {
                None
            }
        },
    }
}

/// Whether a descriptor's link names a PTY master (`/dev/ptmx` or
/// `/dev/pts/ptmx`).
pub fn is_pty_master_link(link: &str) -> (r: bool)
    ensures
        r == occurs_in("ptmx"@, link@),
{
    occurs(&chars_of("ptmx"), &chars_of(link))
}

/// The number of the terminal a PTY master controls, from the text of its
/// `/proc/<pid>/fdinfo/<fd>`: what follows `tty-index:` on the first line
/// that begins with it, trimmed.
pub open spec fn tty_index_of(info: Seq<char>) -> Option<Option<u32>> {
    match first_with_prefix(lines(info), "tty-index:"@) {
        Some(l) => Some(u32_text(trimmed(l.skip(10)))),
        None => None,
    }
}

/// The number of the terminal a PTY master controls, from its fdinfo:
/// none when no line gives it, else what its line reads as.
pub fn fdinfo_tty_index(info: &str) -> (r: Option<Option<u32>>)
    ensures
        r == tty_index_of(info@),
{
    proof {
        reveal_strlit("tty-index:");
    }
    let ls = lines_of(&chars_of(info));
    match find_prefixed(&ls, "tty-index:") {
        None => None,
        Some(i) => {
            let lc = chars_of(ls[i].as_str());
            let mut rest: Vec<char> = Vec::new();
            let mut k: usize = 10;
            while k < lc.len()
                invariant
                    10 <= k <= lc@.len(),
                    rest@ == lc@.subrange(10, k as int),
                decreases lc@.len() - k,
            {
                rest.push(lc[k]);
                k = k + 1;
                assert(rest@ =~= lc@.subrange(10, k as int));
            }
            assert(rest@ =~= lc@.skip(10));
            let t = trim_chars(&rest);
            Some(parse_u32(string_of(t.as_slice()).as_str()))
        },
    }
}

/// The number `N` of a terminal path `/dev/pts/N`.
pub open spec fn pts_number_of(path: Seq<char>) -> Option<u32> {
    if has_prefix(path, "/dev/pts/"@) {
        u32_text(path.skip(9))
    } else {
        None
    }
}

/// The number `N` of a terminal path `/dev/pts/N` (none for `/dev/pts/ptmx`
/// and other paths).
pub fn pts_number(path: &str) -> (r: Option<u32>)
    ensures
        r == pts_number_of(path@),
{
    proof {
        reveal_strlit("/dev/pts/");
    }
    let pc = chars_of(path);
    if !chars_start_with(&pc, &chars_of("/dev/pts/")) {
        return None;
    }
    let mut rest: Vec<char> = Vec::new();
    let mut k: usize = 9;
    while k < pc.len()
        invariant
            9 <= k <= pc@.len(),
            rest@ == pc@.subrange(9, k as int),
        decreases pc@.len() - k,
    {
        rest.push(pc[k]);
        k = k + 1;
        assert(rest@ =~= pc@.subrange(9, k as int));
    }
    assert(rest@ =~= path@.skip(9));
    parse_u32(string_of(rest.as_slice()).as_str())
}

/// The path of terminal number `n`.
pub fn pts_path(n: u32) -> (r: String)
    ensures
        r@ == "/dev/pts/"@ + decimal(n as nat),
{
    let mut p = String::new();
    push_str(&mut p, "/dev/pts/");
    push_decimal(&mut p, n as u64);
    p
}

/// The device number (`tty_nr` in `/proc/<pid>/stat`) of terminal `n`,
/// which is device 136:`n`, as the kernel writes it there: the low byte of
/// the minor number, the major number in the next byte, the rest of the
/// minor number from bit 20 on. Minor numbers have 20 bits, so there is no
/// terminal from 2^20 on.
pub fn expected_tty_nr(n: u32) -> (r: Option<u32>)
    ensures
        n < 0x100000 ==> r == Some((n % 256 + 136 * 256 + (n / 256) * 0x100000) as u32),
        n >= 0x100000 ==> r is None,
{
    if n >= 0x100000 {
        return None;
    }
    let high = n / 256;
    assert(high * 0x100000 <= 4095 * 0x100000) by (nonlinear_arith)
        requires
            high <= 4095,
    ;
    Some(n % 256 + 136 * 256 + high * 0x100000)
}

/// Index of the last `)` of `s`, if any.
pub open spec fn last_paren(s: Seq<char>) -> Option<int>
    decreases s.len(),
{
    if s.len() == 0 {
        None
    } else if s.last() == ')' {
        Some(s.len() - 1)
    } else {
        last_paren(s.drop_last())
    }
}

/// Whether the fields after the command of a `/proc/<pid>/stat` text can
/// be read: when it has a `)`, one ASCII character follows the last one.
pub open spec fn stat_defined(s: Seq<char>) -> bool {
    match last_paren(s) {
        Some(j) => j + 1 < s.len() && s[j + 1] <= '\u{7f}',
        None => true,
    }
}

/// The fields after the command (which stands in parentheses) of a
/// `/proc/<pid>/stat` text: the words after the last `)` and the character
/// following it.
pub open spec fn stat_fields_of(s: Seq<char>) -> Option<Seq<Seq<char>>> {
    match last_paren(s) {
        Some(j) => Some(words(s.skip(j + 2))),
        None => None,
    }
}

proof fn lemma_last_paren(s: Seq<char>, j: int)
    requires
        -1 <= j < s.len(),
        j >= 0 ==> s[j] == ')',
        forall|k: int| j < k < s.len() ==> s[k] != ')',
    ensures
        last_paren(s) == if j >= 0 {
            Some(j)
        } else {
            None::<int>
        },
    decreases s.len(),
{
    if s.len() > 0 && s.len() - 1 != j {
        lemma_last_paren(s.drop_last(), j);
    }
}

/// The fields after the command of a `/proc/<pid>/stat` text.
pub fn stat_fields(stat: &str) -> (r: Option<Vec<String>>)
    requires
        stat_defined(stat@),
    ensures
        match r {
            Some(v) => stat_fields_of(stat@) == Some(views(v@)),
            None => stat_fields_of(stat@) is None,
        },
{
    let cs = chars_of(stat);
    let mut j: usize = cs.len();
    while j > 0 && cs[j - 1] != ')'
        invariant
            j <= cs@.len(),
            cs@ == stat@,
            forall|k: int| j <= k < cs@.len() ==> cs@[k] != ')',
        decreases j,
    {
        j = j - 1;
    }
    if j == 0 {
        proof {
            lemma_last_paren(stat@, -1);
        }
        return None;
    }
    proof {
        lemma_last_paren(stat@, j - 1);
    }
    let mut rest: Vec<char> = Vec::new();
    let mut k: usize = j + 1;
    while k < cs.len()
        invariant
            j + 1 <= k <= cs@.len(),
            rest@ == cs@.subrange(j + 1, k as int),
        decreases cs@.len() - k,
    {
        rest.push(cs[k]);
        k = k + 1;
        assert(rest@ =~= cs@.subrange(j + 1, k as int));
    }
    assert(rest@ =~= stat@.skip(j + 1));
    Some(words_of(&rest))
}

/// A process's terminal and whether it leads its session, from the fields
/// after its command in `/proc/<pid>/stat`: field 4 is the terminal's
/// device number, and it leads when field 1 (its session) equals field 3.
pub open spec fn tty_info_of(fields: Seq<Seq<char>>) -> Option<(u32, bool)> {
    if fields.len() > 4 {
        match u32_text(fields[4]) {
            Some(tty) => Some((tty, fields[1] == fields[3])),
            None => None,
        }
    } else {
        None
    }
}

/// A process's terminal and whether it leads its session, from the text of
/// its `/proc/<pid>/stat`.
pub fn stat_tty(stat: &str) -> (r: Option<(u32, bool)>)
    requires
        stat_defined(stat@),
    ensures
        r == match stat_fields_of(stat@) {
            Some(f) => tty_info_of(f),
            None => None,
        },
{
    match stat_fields(stat) {
        None => None,
        Some(fields) => {
            if fields.len() > 4 {
                match parse_u32(fields[4].as_str()) {
                    Some(tty) => {
                        let leader = crate::text::same_text(fields[1].as_str(), fields[3].as_str());
                        Some((tty, leader))
                    },
                    None => None,
                }
            } else {
                None
            }
        },
    }
}

/// A process's terminal and whether it is in that terminal's foreground,
/// from the fields after its command in `/proc/<pid>/stat`: field 4 is the
/// terminal's device number, and the process is in the foreground when
/// its process group (field 2) is the terminal's foreground group
/// (field 5).
pub open spec fn fg_info_of(fields: Seq<Seq<char>>) -> Option<(u32, bool)> {
    if fields.len() > 5 {
        match u32_text(fields[4]) {
            Some(tty) => Some((tty, fields[2] == fields[5])),
            None => None,
        }
    } else {
        None
    }
}

/// A process's terminal and whether it is in that terminal's foreground
/// process group, from the text of its `/proc/<pid>/stat`.
pub fn stat_foreground(stat: &str) -> (r: Option<(u32, bool)>)
    requires
        stat_defined(stat@),
    ensures
        r == match stat_fields_of(stat@) {
            Some(f) => fg_info_of(f),
            None => None,
        },
{
    match stat_fields(stat) {
        None => None,
        Some(fields) => {
            if fields.len() > 5 {
                match parse_u32(fields[4].as_str()) {
                    Some(tty) => {
                        let fg = crate::text::same_text(fields[2].as_str(), fields[5].as_str());
                        Some((tty, fg))
                    },
                    None => None,
                }
            } else {
                None
            }
        },
    }
}

/// Whether `stat_defined` holds.
pub fn stat_readable(stat: &str) -> (r: bool)
    ensures
        r == stat_defined(stat@),
{
    let cs = chars_of(stat);
    let mut j: usize = cs.len();
    while j > 0 && cs[j - 1] != ')'
        invariant
            j <= cs@.len(),
            cs@ == stat@,
            forall|k: int| j <= k < cs@.len() ==> cs@[k] != ')',
        decreases j,
    {
        j = j - 1;
    }
    if j == 0 {
        proof {
            lemma_last_paren(stat@, -1);
        }
        return true;
    }
    proof {
        lemma_last_paren(stat@, j - 1);
    }
    j < cs.len() && cs[j] <= '\u{7f}'
}

/// The best process seen so far on a terminal's slave side: its PID,
/// command and working directory.
pub struct SlaveCandidate {
    pub pid: Option<u32>,
    pub comm: String,
    pub cwd: String,
}

impl SlaveCandidate {
    /// None seen yet.
    pub fn new() -> (c: Self)
        ensures
            c.pid is None,
            c.comm@ == Seq::<char>::empty(),
            c.cwd@ == Seq::<char>::empty(),
    {
        SlaveCandidate { pid: None, comm: String::new(), cwd: String::new() }
    }

    /// Process `pid` is on the terminal: it becomes the candidate when
    /// there is none yet, or when it leads its session (a shell rather
    /// than one of its children).
    pub fn offer(&mut self, pid: u32, leader: bool, comm: String, cwd: String)
        ensures
            (old(self).pid is None || leader) ==> final(self).pid == Some(pid) && final(self).comm
                == comm && final(self).cwd == cwd,
            !(old(self).pid is None || leader) ==> *final(self) == *old(self),
    {
        if self.pid.is_none() || leader {
            self.pid = Some(pid);
            self.comm = comm;
            self.cwd = cwd;
        }
    }
}

/// The command name in the text of `/proc/<pid>/comm`: trimmed.
pub fn comm_text(raw: &str) -> (r: String)
    ensures
        r@ == trimmed(raw@),
{
    let t = trim_chars(&chars_of(raw));
    string_of(t.as_slice())
}

/// The terminal the link of standard input names, when it is one of the
/// `/dev/pts/` terminals.
pub fn current_pts(link: String) -> (r: Option<String>)
    ensures
        has_prefix(link@, "/dev/pts/"@) ==> r == Some(link),
        !has_prefix(link@, "/dev/pts/"@) ==> r is None,
{
    if chars_start_with(&chars_of(link.as_str()), &chars_of("/dev/pts/")) {
        Some(link)
    } else {
        None
    }
}


/// `a` comes before `b` in the order of strings: compared character by
/// character, a prefix first (the order of their UTF-8 bytes).
pub open spec fn text_lt(a: Seq<char>, b: Seq<char>) -> bool
    decreases a.len(),
{
    if a.len() == 0 {
        b.len() > 0
    } else if b.len() == 0 {
        false
    } else if a[0] != b[0] {
        a[0] < b[0]
    } else {
        text_lt(a.drop_first(), b.drop_first())
    }
}

proof fn lemma_text_lt_irreflexive(a: Seq<char>)
    ensures
        !text_lt(a, a),
    decreases a.len(),
{
    if a.len() > 0 {
        lemma_text_lt_irreflexive(a.drop_first());
    }
}

proof fn lemma_text_lt_transitive(a: Seq<char>, b: Seq<char>, c: Seq<char>)
    requires
        text_lt(a, b),
        text_lt(b, c),
    ensures
        text_lt(a, c),
    decreases a.len(),
{
    if a.len() > 0 && b.len() > 0 && c.len() > 0 && a[0] == b[0] && b[0] == c[0] {
        lemma_text_lt_transitive(a.drop_first(), b.drop_first(), c.drop_first());
    }
}

proof fn lemma_text_lt_total(a: Seq<char>, b: Seq<char>)
    ensures
        text_lt(a, b) || text_lt(b, a) || a == b,
    decreases a.len(),
{
    if a.len() == 0 && b.len() == 0 {
        assert(a =~= b);
    } else if a.len() > 0 && b.len() > 0 && a[0] == b[0] {
        lemma_text_lt_total(a.drop_first(), b.drop_first());
        if a.drop_first() == b.drop_first() {
            assert(a.drop_first().len() == a.len() - 1);
            assert(b.drop_first().len() == b.len() - 1);
            assert(a.len() == b.len());
            assert(a =~= b) by {
                assert forall|i: int| 0 <= i < a.len() implies a[i] == b[i] by {
                    if i > 0 {
                        assert(a[i] == a.drop_first()[i - 1]);
                        assert(b[i] == b.drop_first()[i - 1]);
                    }
                }
            }
        }
    }
}

/// Whether `a` comes before `b` in the order of strings.
fn chars_lt(a: &Vec<char>, b: &Vec<char>) -> (r: bool)
    ensures
        r == text_lt(a@, b@),
{
    let mut i: usize = 0;
    assert(a@.skip(0) =~= a@);
    assert(b@.skip(0) =~= b@);
    while i < a.len() && i < b.len() && a[i] == b[i]
        invariant
            i <= a@.len(),
            i <= b@.len(),
            text_lt(a@, b@) == text_lt(a@.skip(i as int), b@.skip(i as int)),
        decreases a@.len() - i,
    {
        assert(a@.skip(i as int).drop_first() =~= a@.skip(i + 1));
        assert(b@.skip(i as int).drop_first() =~= b@.skip(i + 1));
        i = i + 1;
    }
    if i == a.len() {
        i < b.len()
    } else if i == b.len() {
        false
    } else {
        a[i] < b[i]
    }
}

/// No session before `found[k]` was on its terminal.
pub open spec fn first_of_path(found: Seq<DiscoveredSession>, k: int) -> bool {
    forall|m: int| 0 <= m < k ==> (#[trigger] found[m]).pts@ != found[k].pts@
}

/// `x` is the first of `found` on its terminal.
pub open spec fn is_first_found(found: Seq<DiscoveredSession>, x: DiscoveredSession) -> bool {
    exists|k: int| 0 <= k < found.len() && x == found[k] && first_of_path(found, k)
}

/// Some session of `out` is on terminal `p`.
pub open spec fn has_path(out: Seq<DiscoveredSession>, p: Seq<char>) -> bool {
    exists|i: int| 0 <= i < out.len() && out[i].pts@ == p
}

/// `out` holds, in the order of their terminals' paths, the first of
/// `found` for each terminal.
pub open spec fn deduplicated(found: Seq<DiscoveredSession>, out: Seq<DiscoveredSession>) -> bool {
    &&& forall|i: int, j: int|
        0 <= i < j < out.len() ==> text_lt(#[trigger] out[i].pts@, #[trigger] out[j].pts@)
    &&& forall|i: int| 0 <= i < out.len() ==> is_first_found(found, #[trigger] out[i])
    &&& forall|k: int| 0 <= k < found.len() ==> has_path(out, (#[trigger] found[k]).pts@)
}

/// A session first found among `seen` is still first among `seen` and one more.
proof fn lemma_first_found_grows(seen: Seq<DiscoveredSession>, y: DiscoveredSession, x: DiscoveredSession)
    requires
        is_first_found(seen, x),
    ensures
        is_first_found(seen.push(y), x),
{
    let k = choose|k: int| 0 <= k < seen.len() && x == seen[k] && first_of_path(seen, k);
    let s2 = seen.push(y);
    assert(s2[k] == seen[k]);
    assert forall|m: int| 0 <= m < k implies (#[trigger] s2[m]).pts@ != s2[k].pts@ by {
        assert(s2[m] == seen[m]);
    }
}

/// Keeps one of the terminals found per path, the first found, ordered by
/// path.
pub fn dedup_by_pts(found: Vec<DiscoveredSession>) -> (r: Vec<DiscoveredSession>)
    ensures
        deduplicated(found@, r@),
{
    let ghost all = found@;
    let total = found.len();
    let mut out: Vec<DiscoveredSession> = Vec::new();
    let mut found = found;
    let mut rest: Vec<DiscoveredSession> = Vec::new();
    // Reverse, so that popping yields the sessions in the order found.
    while found.len() > 0
        invariant
            found@ + rest@.reverse() == all,
        decreases found@.len(),
    {
        let x = found.pop().unwrap();
        let ghost before = rest@;
        rest.push(x);
        assert(found@ + rest@.reverse() =~= all) by {
            assert(rest@.reverse() =~= seq![x] + before.reverse());
        }
    }
    assert(rest@.reverse() =~= all);
    let mut n: usize = 0;
    assert(deduplicated(all.take(0), out@));
    while rest.len() > 0
        invariant
            n + rest@.len() == all.len(),
            all.len() == total,
            forall|i: int| 0 <= i < rest@.len() ==> #[trigger] rest@[i] == all[all.len() - 1 - i],
            deduplicated(all.take(n as int), out@),
        decreases rest@.len(),
    {
        let x = rest.pop().unwrap();
        assert(x == all[n as int]);
        let ghost prev = out@;
        let ghost seen = all.take(n as int);
        let xc = chars_of(x.pts.as_str());
        // First position whose path does not come before x's.
        let mut p: usize = 0;
        while p < out.len() && chars_lt(&chars_of(out[p].pts.as_str()), &xc)
            invariant
                p <= out@.len(),
                out@ == prev,
                xc@ == x.pts@,
                forall|q: int| 0 <= q < p ==> text_lt(out@[q].pts@, x.pts@),
            decreases out@.len() - p,
        {
            p = p + 1;
        }
        let dup = p < out.len() && crate::text::same_text(out[p].pts.as_str(), x.pts.as_str());
        let ghost seen2 = all.take(n + 1);
        assert(seen2 =~= seen.push(x));
        if dup {
            proof {
                assert forall|i: int| 0 <= i < out@.len() implies is_first_found(seen2, #[trigger] out@[i]) by {
                    lemma_first_found_grows(seen, x, out@[i]);
                }
                assert forall|k: int| 0 <= k < seen2.len() implies has_path(out@, (#[trigger] seen2[k]).pts@) by {
                    if k < n {
                        assert(seen2[k] == seen[k]);
                    } else {
                        assert(out@[p as int].pts@ == seen2[k].pts@);
                    }
                }
            }
        } else {
            proof {
                if p < out@.len() {
                    lemma_text_lt_total(out@[p as int].pts@, x.pts@);
                }
            }
            out.insert(p, x);
            proof {
                assert(out@ == prev.insert(p as int, x));
                // Sorted: x lies between its neighbours.
                assert forall|i: int, j: int| 0 <= i < j < out@.len() implies text_lt(
                    #[trigger] out@[i].pts@,
                    #[trigger] out@[j].pts@,
                ) by {
                    if j < p {
                        assert(out@[i] == prev[i] && out@[j] == prev[j]);
                    } else if j == p {
                        assert(out@[i] == prev[i]);
                    } else if i < p {
                        assert(out@[i] == prev[i] && out@[j] == prev[j - 1]);
                        assert(text_lt(x.pts@, prev[p as int].pts@));
                        if j - 1 > p {
                            assert(text_lt(prev[p as int].pts@, prev[j - 1].pts@));
                            lemma_text_lt_transitive(x.pts@, prev[p as int].pts@, prev[j - 1].pts@);
                        }
                        lemma_text_lt_transitive(prev[i].pts@, x.pts@, prev[j - 1].pts@);
                    } else if i == p {
                        assert(out@[j] == prev[j - 1]);
                        if j - 1 > p {
                            assert(text_lt(prev[p as int].pts@, prev[j - 1].pts@));
                            lemma_text_lt_transitive(x.pts@, prev[p as int].pts@, prev[j - 1].pts@);
                        }
                    } else {
                        assert(out@[i] == prev[i - 1]);
                        assert(out@[j] == prev[j - 1]);
                    }
                }
                // x is new: no earlier session had its path.
                assert forall|m: int| 0 <= m < n implies (#[trigger] seen2[m]).pts@ != x.pts@ by {
                    assert(seen2[m] == seen[m]);
                    if seen[m].pts@ == x.pts@ {
                        assert(has_path(prev, seen[m].pts@));
                        let i = choose|i: int| 0 <= i < prev.len() && prev[i].pts@ == seen[m].pts@;
                        if i < p {
                            lemma_text_lt_irreflexive(x.pts@);
                        } else if i > p {
                            assert(text_lt(prev[p as int].pts@, prev[i].pts@));
                            lemma_text_lt_transitive(x.pts@, prev[p as int].pts@, prev[i].pts@);
                            lemma_text_lt_irreflexive(x.pts@);
                        }
                    }
                }
                assert(first_of_path(seen2, n as int));
                assert forall|i: int| 0 <= i < out@.len() implies is_first_found(seen2, #[trigger] out@[i]) by {
                    if i == p {
                        assert(out@[i] == seen2[n as int]);
                    } else {
                        let pi = if i < p { i } else { i - 1 };
                        assert(out@[i] == prev[pi]);
                        lemma_first_found_grows(seen, x, prev[pi]);
                    }
                }
                assert forall|k: int| 0 <= k < seen2.len() implies has_path(out@, (#[trigger] seen2[k]).pts@) by {
                    if k < n {
                        assert(seen2[k] == seen[k]);
                        let i = choose|i: int| 0 <= i < prev.len() && prev[i].pts@ == seen[k].pts@;
                        if i < p {
                            assert(out@[i] == prev[i]);
                        } else {
                            assert(out@[i + 1] == prev[i]);
                        }
                    } else {
                        assert(out@[p as int] == x);
                    }
                }
            }
        }
        n = n + 1;
    }
    assert(all.take(n as int) =~= all);
    out
}


/// Why taking over a PTY master failed at opening a handle on its holder
/// `pid`: permission refused (`eperm`), or the system's reason `reason`.
pub fn pidfd_open_error(pid: u32, eperm: bool, reason: &str) -> (e: SnagError)
    ensures
        e matches SnagError::AdoptionFailed(m) && m@ == if eperm {
            "permission denied: cannot open pidfd for PID "@ + decimal(pid as nat)
                + ". Ensure kernel.yama.ptrace_scope=0: sudo sysctl kernel.yama.ptrace_scope=0"@
        } else {
            "pidfd_open failed for PID "@ + decimal(pid as nat) + ": "@ + reason@
        },
{
    let mut m = String::new();
    if eperm {
        push_str(&mut m, "permission denied: cannot open pidfd for PID ");
        push_decimal(&mut m, pid as u64);
        push_str(&mut m, ". Ensure kernel.yama.ptrace_scope=0: sudo sysctl kernel.yama.ptrace_scope=0");
    } else {
        push_str(&mut m, "pidfd_open failed for PID ");
        push_decimal(&mut m, pid as u64);
        push_str(&mut m, ": ");
        push_str(&mut m, reason);
    }
    SnagError::AdoptionFailed(m)
}

/// Why taking over descriptor `fd` of process `pid` failed: permission
/// refused (`eperm`, with the ptrace scope read from the system), or the
/// system's reason `reason`.
pub fn pidfd_getfd_error(pid: u32, fd: i32, eperm: bool, ptrace_scope: &str, reason: &str) -> (e: SnagError)
    ensures
        e matches SnagError::AdoptionFailed(m) && m@ == if eperm {
            "permission denied: cannot access fd "@ + signed_decimal(fd as int) + " of PID "@ + decimal(
                pid as nat,
            ) + ". kernel.yama.ptrace_scope is currently "@ + ptrace_scope@
                + " (needs 0). Fix with: sudo sysctl kernel.yama.ptrace_scope=0"@
        } else {
            "pidfd_getfd failed for PID "@ + decimal(pid as nat) + " fd "@ + signed_decimal(fd as int)
                + ": "@ + reason@
        },
{
    let mut m = String::new();
    if eperm {
        push_str(&mut m, "permission denied: cannot access fd ");
        push_signed_decimal(&mut m, fd as i64);
        push_str(&mut m, " of PID ");
        push_decimal(&mut m, pid as u64);
        push_str(&mut m, ". kernel.yama.ptrace_scope is currently ");
        push_str(&mut m, ptrace_scope);
        push_str(&mut m, " (needs 0). Fix with: sudo sysctl kernel.yama.ptrace_scope=0");
    } else {
        push_str(&mut m, "pidfd_getfd failed for PID ");
        push_decimal(&mut m, pid as u64);
        push_str(&mut m, " fd ");
        push_signed_decimal(&mut m, fd as i64);
        push_str(&mut m, ": ");
        push_str(&mut m, reason);
    }
    SnagError::AdoptionFailed(m)
}

/// The directory of capture files: `snag` under `$XDG_RUNTIME_DIR`, else
/// `/tmp/snag-<uid>`.
pub fn capture_dir(runtime_dir: Option<&str>, uid: u32) -> (r: String)
    ensures
        r@ == match runtime_dir {
            Some(d) => joined_path(d@, "snag"@),
            None => tmp_dir(uid),
        },
{
    proof {
        reveal_strlit("snag");
    }
    match runtime_dir {
        Some(d) => join_path(d, "snag"),
        None => {
            let mut t = String::new();
            push_str(&mut t, "/tmp/snag-");
            push_decimal(&mut t, uid as u64);
            t
        },
    }
}

/// The capture file of session `id` in directory `dir`.
pub fn capture_file_path(dir: &str, id: &str) -> (r: String)
    ensures
        r@ == joined_path(dir@, "capture-"@ + id@),
{
    proof {
        reveal_strlit("capture-");
    }
    let mut name = String::new();
    push_str(&mut name, "capture-");
    push_str(&mut name, id);
    join_path(dir, name.as_str())
}


/// The terminal number read back from the path the library writes for it
/// is that number.
pub proof fn lemma_pts_path_roundtrip(n: u32)
    ensures
        pts_number_of("/dev/pts/"@ + decimal(n as nat)) == Some(n),
{
    reveal_strlit("/dev/pts/");
    let p = "/dev/pts/"@ + decimal(n as nat);
    assert(p.take(9) =~= "/dev/pts/"@);
    assert(p.skip(9) =~= decimal(n as nat));
    crate::scan::lemma_u32_text_of_decimal(n);
}

} // verus!
