use crate::text::{chars_of, decimal, digit_char};
use vstd::prelude::*;

verus! {

/// `c` is an ASCII decimal digit.
pub open spec fn is_digit(c: char) -> bool {
    '0' <= c && c <= '9'
}

/// Every character of `s` is an ASCII decimal digit.
pub open spec fn all_digits(s: Seq<char>) -> bool {
    forall|i: int| 0 <= i < s.len() ==> is_digit(#[trigger] s[i])
}

/// The number the decimal digits `s` spell.
pub open spec fn digits_value(s: Seq<char>) -> nat
    decreases s.len(),
{
    if s.len() == 0 {
        0
    } else {
        digits_value(s.drop_last()) * 10 + ((s.last() as nat) - ('0' as nat)) as nat
    }
}

/// The digits of an unsigned number's text: without one leading `+`.
pub open spec fn unsigned_digits(s: Seq<char>) -> Seq<char> {
    if s.len() > 0 && s[0] == '+' {
        s.drop_first()
    } else {
        s
    }
}

/// What reading `s` as a `u32` gives (std's `str::parse::<u32>`): an
/// optional `+`, then at least one digit, the value within range.
pub open spec fn u32_text(s: Seq<char>) -> Option<u32> {
    let d = unsigned_digits(s);
    if d.len() > 0 && all_digits(d) && digits_value(d) <= u32::MAX {
        Some(digits_value(d) as u32)
    } else {
        None
    }
}

/// What reading `s` as an `i32` gives (std's `str::parse::<i32>`): an
/// optional sign, then at least one digit, the value within range.
pub open spec fn i32_text(s: Seq<char>) -> Option<i32> {
    if s.len() > 0 && s[0] == '-' {
        let d = s.drop_first();
        if d.len() > 0 && all_digits(d) && digits_value(d) <= 0x8000_0000 {
            Some((0 - digits_value(d)) as i32)
        } else {
            None
        }
    } else {
        let d = unsigned_digits(s);
        if d.len() > 0 && all_digits(d) && digits_value(d) <= i32::MAX {
            Some(digits_value(d) as i32)
        } else {
            None
        }
    }
}

proof fn lemma_digits_value_grows(s: Seq<char>, c: char)
    requires
        is_digit(c),
    ensures
        digits_value(s.push(c)) >= digits_value(s),
        digits_value(s.push(c)) == digits_value(s) * 10 + ((c as nat) - ('0' as nat)),
{
    assert(s.push(c).drop_last() =~= s);
}

/// Reads the digits `d[from..]`; `None` when one is not a digit or the
/// value exceeds `limit`.
fn read_digits(d: &Vec<char>, from: usize, limit: u64) -> (r: Option<u64>)
    requires
        from <= d@.len(),
        limit <= u32::MAX + 1,
    ensures
        ({
            let t = d@.skip(from as int);
            match r {
                Some(v) => all_digits(t) && v == digits_value(t) && v <= limit,
                None => !(all_digits(t) && digits_value(t) <= limit),
            }
        }),
{
    let ghost t = d@.skip(from as int);
    let mut acc: u64 = 0;
    let mut i: usize = from;
    while i < d.len()
        invariant
            from <= i <= d@.len(),
            t == d@.skip(from as int),
            limit <= u32::MAX + 1,
            acc <= limit,
            all_digits(d@.subrange(from as int, i as int)),
            acc == digits_value(d@.subrange(from as int, i as int)),
        decreases d@.len() - i,
    {
        let c = d[i];
        let ghost pre = d@.subrange(from as int, i as int);
        assert(d@.subrange(from as int, i + 1) =~= pre.push(c));
        if !('0' <= c && c <= '9') {
            assert(t[i - from] == c);
            return None;
        }
        proof {
            lemma_digits_value_grows(pre, c);
        }
        let dv = (c as u32 - '0' as u32) as u64;
        acc = acc * 10 + dv;
        i = i + 1;
        if acc > limit {
            proof {
                assert(t.take((i - from) as int) =~= d@.subrange(from as int, i as int));
                lemma_digits_value_prefix_bound(t, (i - from) as int);
            }
            return None;
        }
    }
    assert(d@.subrange(from as int, i as int) =~= t);
    Some(acc)
}

/// A number's digits spell at least as much as any prefix of them.
proof fn lemma_digits_value_prefix_bound(t: Seq<char>, k: int)
    requires
        0 <= k <= t.len(),
        all_digits(t.take(k)),
    ensures
        all_digits(t) ==> digits_value(t) >= digits_value(t.take(k)),
    decreases t.len() - k,
{
    if k < t.len() && all_digits(t) {
        lemma_digits_value_prefix_bound(t, k + 1);
        assert(t.take(k + 1) =~= t.take(k).push(t[k]));
        lemma_digits_value_grows(t.take(k), t[k]);
    } else if k == t.len() {
        assert(t.take(k) =~= t);
    }
}

/// Reads `s` as a `u32`, as std's `str::parse::<u32>` does.
pub fn parse_u32(s: &str) -> (r: Option<u32>)
    ensures
        r == u32_text(s@),
{
    let d = chars_of(s);
    let from: usize = if d.len() > 0 && d[0] == '+' { 1 } else { 0 };
    assert(d@.skip(from as int) =~= unsigned_digits(s@));
    if from == d.len() {
        return None;
    }
    match read_digits(&d, from, 0xffff_ffff) {
        Some(v) => Some(v as u32),
        None => None,
    }
}

/// Reads `s` as an `i32`, as std's `str::parse::<i32>` does.
pub fn parse_i32(s: &str) -> (r: Option<i32>)
    ensures
        r == i32_text(s@),
{
    let d = chars_of(s);
    if d.len() > 0 && d[0] == '-' {
        assert(d@.skip(1) =~= s@.drop_first());
        if d.len() == 1 {
            return None;
        }
        match read_digits(&d, 1, 0x8000_0000) {
            Some(v) => {
                let r = (0i64 - v as i64) as i32;
                Some(r)
            },
            None => None,
        }
    } else {
        let from: usize = if d.len() > 0 && d[0] == '+' { 1 } else { 0 };
        assert(d@.skip(from as int) =~= unsigned_digits(s@));
        if from == d.len() {
            return None;
        }
        match read_digits(&d, from, 0x7fff_ffff) {
            Some(v) => Some(v as i32),
            None => None,
        }
    }
}


/// `c` is white space as Unicode defines it (std's `char::is_whitespace`).
pub open spec fn is_white(c: char) -> bool {
    ('\u{9}' <= c && c <= '\u{d}') || c == ' ' || c == '\u{85}' || c == '\u{a0}' || c == '\u{1680}'
        || ('\u{2000}' <= c && c <= '\u{200a}') || c == '\u{2028}' || c == '\u{2029}' || c
        == '\u{202f}' || c == '\u{205f}' || c == '\u{3000}'
}

/// Whether `c` is white space (std's `char::is_whitespace`).
pub fn white(c: char) -> (r: bool)
    ensures
        r == is_white(c),
{
    ('\u{9}' <= c && c <= '\u{d}') || c == ' ' || c == '\u{85}' || c == '\u{a0}' || c == '\u{1680}'
        || ('\u{2000}' <= c && c <= '\u{200a}') || c == '\u{2028}' || c == '\u{2029}' || c
        == '\u{202f}' || c == '\u{205f}' || c == '\u{3000}'
}

/// The views of `v`'s strings.
pub open spec fn views(v: Seq<String>) -> Seq<Seq<char>> {
    v.map_values(|w: String| w@)
}

/// The white-space separated words of `s`, given the word `cur` read so
/// far (std's `str::split_whitespace`).
pub open spec fn split_words(s: Seq<char>, cur: Seq<char>) -> Seq<Seq<char>>
    decreases s.len(),
{
    if s.len() == 0 {
        if cur.len() > 0 {
            seq![cur]
        } else {
            Seq::empty()
        }
    } else if is_white(s[0]) {
        (if cur.len() > 0 {
            seq![cur]
        } else {
            Seq::empty()
        }) + split_words(s.drop_first(), Seq::empty())
    } else {
        split_words(s.drop_first(), cur.push(s[0]))
    }
}

/// The white-space separated words of `s`.
pub open spec fn words(s: Seq<char>) -> Seq<Seq<char>> {
    split_words(s, Seq::empty())
}

/// `x` without one trailing carriage return.
pub open spec fn strip_cr(x: Seq<char>) -> Seq<char> {
    if x.len() > 0 && x.last() == '\r' {
        x.drop_last()
    } else {
        x
    }
}

/// The lines of `s`, given the line `cur` read so far (std's
/// `str::lines`): split at `\n`, a `\r` before it dropped, no empty line
/// after a final `\n`.
pub open spec fn split_lines(s: Seq<char>, cur: Seq<char>) -> Seq<Seq<char>>
    decreases s.len(),
{
    if s.len() == 0 {
        if cur.len() > 0 {
            seq![cur]
        } else {
            Seq::empty()
        }
    } else if s[0] == '\n' {
        seq![strip_cr(cur)] + split_lines(s.drop_first(), Seq::empty())
    } else {
        split_lines(s.drop_first(), cur.push(s[0]))
    }
}

/// The lines of `s`.
pub open spec fn lines(s: Seq<char>) -> Seq<Seq<char>> {
    split_lines(s, Seq::empty())
}

/// Number of white-space characters `s` begins with.
pub open spec fn lead_white(s: Seq<char>) -> nat
    decreases s.len(),
{
    if s.len() > 0 && is_white(s[0]) {
        1 + lead_white(s.drop_first())
    } else {
        0
    }
}

/// Number of white-space characters `s` ends with.
pub open spec fn trail_white(s: Seq<char>) -> nat
    decreases s.len(),
{
    if s.len() > 0 && is_white(s.last()) {
        1 + trail_white(s.drop_last())
    } else {
        0
    }
}

/// `s` without leading and trailing white space (std's `str::trim`).
pub open spec fn trimmed(s: Seq<char>) -> Seq<char> {
    let t = s.skip(lead_white(s) as int);
    t.take(t.len() - trail_white(t))
}

/// `needle` occurs in `hay`.
pub open spec fn occurs_in(needle: Seq<char>, hay: Seq<char>) -> bool {
    exists|i: int| 0 <= i && i + needle.len() <= hay.len() && #[trigger] hay.subrange(i, i + needle.len()) == needle
}

proof fn lemma_lead_white(s: Seq<char>, k: int)
    requires
        0 <= k <= s.len(),
        forall|j: int| 0 <= j < k ==> is_white(#[trigger] s[j]),
        k == s.len() || !is_white(s[k]),
    ensures
        lead_white(s) == k,
    decreases k,
{
    if k > 0 {
        lemma_lead_white(s.drop_first(), k - 1);
    }
}

proof fn lemma_trail_white(s: Seq<char>, k: int)
    requires
        0 <= k <= s.len(),
        forall|j: int| s.len() - k <= j < s.len() ==> is_white(#[trigger] s[j]),
        k == s.len() || !is_white(s[s.len() - k - 1]),
    ensures
        trail_white(s) == k,
    decreases k,
{
    if k > 0 {
        lemma_trail_white(s.drop_last(), k - 1);
    }
}

/// `s` without leading and trailing white space.
pub fn trim_chars(s: &Vec<char>) -> (r: Vec<char>)
    ensures
        r@ == trimmed(s@),
{
    let mut a: usize = 0;
    while a < s.len() && white(s[a])
        invariant
            a <= s@.len(),
            forall|j: int| 0 <= j < a ==> is_white(#[trigger] s@[j]),
        decreases s@.len() - a,
    {
        a = a + 1;
    }
    proof {
        lemma_lead_white(s@, a as int);
    }
    let ghost t = s@.skip(a as int);
    let mut b: usize = s.len();
    while b > a && white(s[b - 1])
        invariant
            a <= b <= s@.len(),
            t == s@.skip(a as int),
            forall|j: int| b <= j < s@.len() ==> is_white(#[trigger] s@[j]),
        decreases b,
    {
        b = b - 1;
    }
    proof {
        let k = s@.len() - b;
        assert forall|j: int| t.len() - k <= j < t.len() implies is_white(#[trigger] t[j]) by {
            assert(t[j] == s@[j + a]);
        }
        if k < t.len() {
            assert(t[t.len() - k - 1] == s@[b - 1]);
        }
        lemma_trail_white(t, k);
    }
    let mut r: Vec<char> = Vec::new();
    let mut i: usize = a;
    while i < b
        invariant
            a <= i <= b,
            b <= s@.len(),
            r@ == s@.subrange(a as int, i as int),
        decreases b - i,
    {
        r.push(s[i]);
        i = i + 1;
        assert(r@ =~= s@.subrange(a as int, i as int));
    }
    assert(r@ =~= trimmed(s@));
    r
}

/// The white-space separated words of `s`.
pub fn words_of(s: &Vec<char>) -> (r: Vec<String>)
    ensures
        views(r@) == words(s@),
{
    let mut r: Vec<String> = Vec::new();
    let mut cur: Vec<char> = Vec::new();
    let mut i: usize = 0;
    assert(s@.skip(0) =~= s@);
    assert(views(r@) + split_words(s@, cur@) =~= words(s@));
    while i < s.len()
        invariant
            i <= s@.len(),
            views(r@) + split_words(s@.skip(i as int), cur@) == words(s@),
        decreases s@.len() - i,
    {
        let ghost rest = s@.skip(i as int);
        assert(rest.drop_first() =~= s@.skip(i + 1));
        let c = s[i];
        if white(c) {
            if cur.len() > 0 {
                let ghost before = views(r@);
                r.push(crate::text::string_of(cur.as_slice()));
                assert(views(r@) =~= before + seq![cur@]);
                assert(before + seq![cur@] + split_words(s@.skip(i + 1), Seq::empty()) =~= before
                    + (seq![cur@] + split_words(s@.skip(i + 1), Seq::empty())));
            } else {
                assert(Seq::<Seq<char>>::empty() + split_words(s@.skip(i + 1), Seq::empty())
                    =~= split_words(s@.skip(i + 1), Seq::empty()));
            }
            cur = Vec::new();
        } else {
            cur.push(c);
        }
        i = i + 1;
    }
    assert(s@.skip(i as int) =~= Seq::<char>::empty());
    if cur.len() > 0 {
        let ghost before = views(r@);
        r.push(crate::text::string_of(cur.as_slice()));
        assert(views(r@) =~= before + seq![cur@]);
    } else {
        assert(views(r@) + Seq::<Seq<char>>::empty() =~= views(r@));
    }
    r
}

/// The lines of `s`.
pub fn lines_of(s: &Vec<char>) -> (r: Vec<String>)
    ensures
        views(r@) == lines(s@),
{
    let mut r: Vec<String> = Vec::new();
    let mut cur: Vec<char> = Vec::new();
    let mut i: usize = 0;
    assert(s@.skip(0) =~= s@);
    assert(views(r@) + split_lines(s@, cur@) =~= lines(s@));
    while i < s.len()
        invariant
            i <= s@.len(),
            views(r@) + split_lines(s@.skip(i as int), cur@) == lines(s@),
        decreases s@.len() - i,
    {
        let ghost rest = s@.skip(i as int);
        assert(rest.drop_first() =~= s@.skip(i + 1));
        let c = s[i];
        if c == '\n' {
            let ghost before = views(r@);
            let n = cur.len();
            if n > 0 && cur[n - 1] == '\r' {
                cur.pop();
            }
            r.push(crate::text::string_of(cur.as_slice()));
            assert(views(r@) =~= before + seq![cur@]);
            assert(before + seq![cur@] + split_lines(s@.skip(i + 1), Seq::empty()) =~= before + (
            seq![cur@] + split_lines(s@.skip(i + 1), Seq::empty())));
            cur = Vec::new();
        } else {
            cur.push(c);
        }
        i = i + 1;
    }
    assert(s@.skip(i as int) =~= Seq::<char>::empty());
    if cur.len() > 0 {
        let ghost before = views(r@);
        r.push(crate::text::string_of(cur.as_slice()));
        assert(views(r@) =~= before + seq![cur@]);
    } else {
        assert(views(r@) + Seq::<Seq<char>>::empty() =~= views(r@));
    }
    r
}

/// Whether `needle` occurs in `hay` (std's `str::contains`).
pub fn occurs(needle: &Vec<char>, hay: &Vec<char>) -> (r: bool)
    ensures
        r == occurs_in(needle@, hay@),
{
    if needle.len() > hay.len() {
        return false;
    }
    let n = needle.len();
    let mut i: usize = 0;
    while i <= hay.len() - n
        invariant
            n == needle@.len(),
            n <= hay.len(),
            i <= hay@.len() - n + 1,
            forall|j: int| 0 <= j < i ==> #[trigger] hay@.subrange(j, j + n) != needle@,
        decreases hay@.len() - i,
    {
        let mut k: usize = 0;
        let mut same = true;
        while k < n
            invariant
                n == needle@.len(),
                i + n <= hay.len(),
                k <= n,
                same == forall|m: int| 0 <= m < k ==> hay@[i + m] == needle@[m],
            decreases n - k,
        {
            if hay[i + k] != needle[k] {
                same = false;
            }
            k = k + 1;
        }
        if same {
            assert(hay@.subrange(i as int, i + n) =~= needle@);
            return true;
        } else {
            assert(hay@.subrange(i as int, i + n) != needle@) by {
                let m = choose|m: int| 0 <= m < n && hay@[i + m] != needle@[m];
                assert(hay@.subrange(i as int, i + n)[m] == hay@[i + m]);
            }
        }
        i = i + 1;
    }
    assert forall|j: int| 0 <= j && j + needle@.len() <= hay@.len() implies #[trigger] hay@.subrange(
        j,
        j + needle@.len(),
    ) != needle@ by {
        assert(j < i);
    }
    false
}


/// The decimal text of `n` is all digits and spells `n`.
pub proof fn lemma_decimal_reads_back(n: nat)
    ensures
        decimal(n).len() > 0,
        all_digits(decimal(n)),
        digits_value(decimal(n)) == n,
    decreases n,
{
    let d = (n % 10) as nat;
    assert(digit_char(d) as nat == 48 + d) by {
        assert(((48 + d) as u8) as nat == 48 + d);
    }
    if n >= 10 {
        lemma_decimal_reads_back(n / 10);
        vstd::arithmetic::div_mod::lemma_fundamental_div_mod(n as int, 10);
        let t = decimal(n / 10);
        assert(decimal(n) == t.push(digit_char(d)));
        assert(t.push(digit_char(d)).drop_last() =~= t);
        assert(digits_value(t.push(digit_char(d))) == digits_value(t) * 10 + d);
        assert forall|i: int| 0 <= i < decimal(n).len() implies is_digit(#[trigger] decimal(n)[i]) by {
            if i < t.len() {
                assert(decimal(n)[i] == t[i]);
            }
        }
    } else {
        assert(seq![digit_char(d)].drop_last() =~= Seq::<char>::empty());
        assert(digits_value(Seq::<char>::empty()) == 0);
        assert(digits_value(seq![digit_char(d)]) == d);
    }
}

/// Reading a number back from its decimal text gives the number.
pub proof fn lemma_u32_text_of_decimal(n: u32)
    ensures
        u32_text(decimal(n as nat)) == Some(n),
{
    lemma_decimal_reads_back(n as nat);
    assert(is_digit(decimal(n as nat)[0]));
    assert(unsigned_digits(decimal(n as nat)) == decimal(n as nat));
}

} // verus!
