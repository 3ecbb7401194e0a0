use vstd::prelude::*;
use vstd::slice::{slice_subrange, slice_to_vec};

verus! {

/// The bytes a buffer of capacity `cap` keeps after it has been fed `s`:
/// the last `cap` of them.
pub open spec fn keep_last(s: Seq<u8>, cap: nat) -> Seq<u8> {
    if s.len() <= cap {
        s
    } else {
        s.subrange(s.len() - cap, s.len() as int)
    }
}

/// Number of newline bytes in `s`.
pub open spec fn newline_count(s: Seq<u8>) -> nat
    decreases s.len(),
{
    if s.len() == 0 {
        0
    } else {
        (if s[0] == 10u8 { 1nat } else { 0nat }) + newline_count(s.drop_first())
    }
}

/// `cut` is where the last `n` lines of `s` begin: either the whole of `s`
/// holds at most `n` newlines and `cut` is 0, or `cut` follows a newline
/// and exactly `n` newlines lie after it.
pub open spec fn is_line_cut(s: Seq<u8>, n: nat, cut: int) -> bool {
    &&& 0 <= cut <= s.len()
    &&& {
        ||| cut == 0 && newline_count(s) <= n
        ||| cut > 0 && s[cut - 1] == 10u8 && newline_count(s.subrange(cut, s.len() as int)) == n
    }
}

/// `out` is the last `n` lines of `s` (nothing when `n` is 0).
pub open spec fn is_last_lines(s: Seq<u8>, n: nat, out: Seq<u8>) -> bool {
    if n == 0 {
        out == Seq::<u8>::empty()
    } else {
        exists|cut: int| is_line_cut(s, n, cut) && out == s.subrange(cut, s.len() as int)
    }
}

/// Fixed-capacity scrollback: keeps the most recent `capacity` bytes written.
pub struct RingBuffer {
    buf: Vec<u8>,
    write_pos: usize,
    len: usize,
}

impl RingBuffer {
    /// The buffer's internal invariant: the stored length fits the
    /// capacity and the write position lies inside the buffer.
    pub closed spec fn wf(&self) -> bool {
        &&& self.len <= self.buf@.len()
        &&& self.buf@.len() <= isize::MAX
        &&& (self.buf@.len() == 0 ==> self.write_pos == 0)
        &&& (self.buf@.len() > 0 ==> self.write_pos < self.buf@.len())
    }

    /// Number of bytes the buffer can hold.
    pub closed spec fn capacity(&self) -> nat {
        self.buf@.len()
    }

    /// How many of the stored bytes, oldest first, lie before the end of
    /// the underlying storage (the rest wrapped round to its start).
    pub closed spec fn first_run(&self) -> nat {
        let cap = self.buf@.len() as int;
        let start = start_of(cap, self.write_pos as int, self.len as int);
        if start + self.len <= cap {
            self.len as nat
        } else {
            (cap - start) as nat
        }
    }

    /// The stored bytes, oldest first.
    pub closed spec fn contents(&self) -> Seq<u8> {
        stored(self.buf@, self.write_pos as int, self.len as int)
    }
}

/// Physical index of the oldest byte of a buffer of capacity `cap` whose
/// next write goes to `wp` and which holds `l` bytes.
spec fn start_of(cap: int, wp: int, l: int) -> int {
    if wp >= l {
        wp - l
    } else {
        wp + cap - l
    }
}

/// Maps a position in `[0, 2 * cap)` onto `[0, cap)`.
spec fn wrap(cap: int, i: int) -> int {
    if i >= cap {
        i - cap
    } else {
        i
    }
}

/// The `l` bytes stored in `buf`, oldest first, when the next write goes to `wp`.
spec fn stored(buf: Seq<u8>, wp: int, l: int) -> Seq<u8> {
    Seq::new(
        l as nat,
        |k: int| buf[wrap(buf.len() as int, start_of(buf.len() as int, wp, l) + k)],
    )
}

/// The buffer after `d` has been copied in, wrapping, from position `wp`.
spec fn written(buf: Seq<u8>, wp: int, d: Seq<u8>) -> Seq<u8> {
    Seq::new(
        buf.len(),
        |p: int|
            {
                let off = if p >= wp {
                    p - wp
                } else {
                    p + buf.len() - wp
                };
                if off < d.len() {
                    d[off]
                } else {
                    buf[p]
                }
            },
    )
}

/// Writing `d` (no longer than the capacity) at the write position stores
/// the last `capacity` bytes of the old contents followed by `d`.
proof fn lemma_write_stores(buf: Seq<u8>, wp: int, l: int, d: Seq<u8>)
    requires
        0 < buf.len(),
        0 <= l <= buf.len(),
        0 <= wp < buf.len(),
        d.len() <= buf.len(),
    ensures
        ({
            let c = buf.len() as int;
            let n = d.len() as int;
            let new_wp = wrap(c, wp + n);
            let new_l = if l + n < c {
                l + n
            } else {
                c
            };
            stored(written(buf, wp, d), new_wp, new_l) =~= keep_last(
                stored(buf, wp, l) + d,
                buf.len(),
            )
        }),
{
    let c = buf.len() as int;
    let n = d.len() as int;
    let new_wp = wrap(c, wp + n);
    let new_l = if l + n < c {
        l + n
    } else {
        c
    };
    let nb = written(buf, wp, d);
    let old_s = stored(buf, wp, l);
    let whole = old_s + d;
    let target = keep_last(whole, buf.len());
    assert(target.len() == new_l);
    assert forall|k: int| 0 <= k < new_l implies #[trigger] stored(nb, new_wp, new_l)[k]
        == target[k] by {
        let idx = l + n - new_l + k;
        assert(target[k] == whole[idx]);
        let p = wrap(c, start_of(c, new_wp, new_l) + k);
        if idx >= l {
            assert(whole[idx] == d[idx - l]);
        } else {
            assert(whole[idx] == old_s[idx]);
        }
    }
}

impl View for RingBuffer {
    type V = Seq<u8>;

    open spec fn view(&self) -> Seq<u8> {
        self.contents()
    }
}


impl RingBuffer {
    /// An empty buffer holding up to `capacity` bytes.
    pub fn new(capacity: usize) -> (rb: Self)
        requires
            capacity <= isize::MAX,
        ensures
            rb.wf(),
            rb@ == Seq::<u8>::empty(),
            rb.capacity() == capacity,
    {
        let rb = RingBuffer { buf: vec![0u8; capacity], write_pos: 0, len: 0 };
        assert(rb.contents() =~= Seq::<u8>::empty());
        rb
    }

    /// Copies `src` into `dst[at..at + src.len()]`.
    fn copy_into(dst: &mut Vec<u8>, at: usize, src: &[u8])
        requires
            at + src@.len() <= old(dst)@.len(),
            old(dst)@.len() <= isize::MAX,
        ensures
            final(dst)@.len() == old(dst)@.len(),
            forall|p: int|
                0 <= p < final(dst)@.len() ==> #[trigger] final(dst)@[p] == if at <= p < at
                    + src@.len() {
                    src@[p - at]
                } else {
                    old(dst)@[p]
                },
    {
        let mut j: usize = 0;
        while j < src.len()
            invariant
                at + src@.len() <= old(dst)@.len(),
                old(dst)@.len() <= isize::MAX,
                j <= src@.len(),
                dst@.len() == old(dst)@.len(),
                forall|p: int|
                    0 <= p < dst@.len() ==> #[trigger] dst@[p] == if at <= p < at + j {
                        src@[p - at]
                    } else {
                        old(dst)@[p]
                    },
            decreases src@.len() - j,
        {
            dst.set(at + j, src[j]);
            j = j + 1;
        }
    }

    /// Appends `data`; once more than `capacity` bytes have been written,
    /// the oldest are dropped.
    pub fn write(&mut self, data: &[u8])
        requires
            old(self).wf(),
        ensures
            final(self).wf(),
            final(self).capacity() == old(self).capacity(),
            final(self)@ == keep_last(old(self)@ + data@, old(self).capacity()),
    {
        let cap = self.buf.len();
        if cap == 0 {
            assert(keep_last(old(self)@ + data@, 0) =~= Seq::<u8>::empty());
            assert(self@ =~= Seq::<u8>::empty());
            return ;
        }
        let ghost orig_data = data@;
        // If data is larger than capacity, only keep the tail
        let data = if data.len() > cap {
            slice_subrange(data, data.len() - cap, data.len())
        } else {
            data
        };
        let ghost old_buf = self.buf@;
        let n = data.len();
        let first_chunk = cap - self.write_pos;
        if n <= first_chunk {
            Self::copy_into(&mut self.buf, self.write_pos, data);
        } else {
            Self::copy_into(&mut self.buf, self.write_pos, slice_subrange(data, 0, first_chunk));
            let remainder = n - first_chunk;
            Self::copy_into(&mut self.buf, 0, slice_subrange(data, first_chunk, n));
        }
        assert(self.buf@ =~= written(old_buf, old(self).write_pos as int, data@));
        let sum = self.write_pos + n;
        self.write_pos = if sum >= cap {
            sum - cap
        } else {
            sum
        };
        self.len = if self.len + n < cap {
            self.len + n
        } else {
            cap
        };
        proof {
            lemma_write_stores(old_buf, old(self).write_pos as int, old(self).len as int, data@);
            if orig_data.len() > cap {
                assert(data@ =~= orig_data.subrange(orig_data.len() - cap, orig_data.len() as int));
                assert(keep_last(old(self)@ + orig_data, cap as nat) =~= keep_last(
                    old(self)@ + data@,
                    cap as nat,
                ));
            }
        }
    }

    /// The stored bytes as two slices of the buffer that, joined, hold
    /// them oldest first.
    pub fn as_slices(&self) -> (r: (&[u8], &[u8]))
        requires
            self.wf(),
        ensures
            r.0@ + r.1@ == self@,
            r.0@.len() == self.first_run(),
    {
        let whole = self.buf.as_slice();
        if self.len == 0 {
            assert(self@ =~= Seq::<u8>::empty());
            return (slice_subrange(whole, 0, 0), slice_subrange(whole, 0, 0));
        }
        if self.len < self.buf.len() {
            // Buffer hasn't wrapped yet
            let start = if self.write_pos >= self.len {
                self.write_pos - self.len
            } else {
                self.buf.len() - (self.len - self.write_pos)
            };
            if start < self.write_pos {
                let r = (slice_subrange(whole, start, self.write_pos), slice_subrange(whole, 0, 0));
                assert(r.0@ + r.1@ =~= self@);
                r
            } else {
                let r = (
                    slice_subrange(whole, start, self.buf.len()),
                    slice_subrange(whole, 0, self.write_pos),
                );
                assert(r.0@ + r.1@ =~= self@);
                r
            }
        } else {
            // Buffer is full
            let r = (
                slice_subrange(whole, self.write_pos, self.buf.len()),
                slice_subrange(whole, 0, self.write_pos),
            );
            assert(r.0@ + r.1@ =~= self@);
            r
        }
    }

    /// `first` followed by `second`, as a new vector.
    fn joined(first: &[u8], second: &[u8]) -> (v: Vec<u8>)
        ensures
            v@ == first@ + second@,
    {
        let mut v: Vec<u8> = Vec::new();
        let mut i: usize = 0;
        while i < first.len()
            invariant
                i <= first@.len(),
                v@ == first@.subrange(0, i as int),
            decreases first@.len() - i,
        {
            v.push(first[i]);
            i = i + 1;
            assert(v@ =~= first@.subrange(0, i as int));
        }
        let mut j: usize = 0;
        while j < second.len()
            invariant
                i == first@.len(),
                j <= second@.len(),
                v@ == first@ + second@.subrange(0, j as int),
            decreases second@.len() - j,
        {
            v.push(second[j]);
            j = j + 1;
            assert(v@ =~= first@ + second@.subrange(0, j as int));
        }
        assert(second@.subrange(0, j as int) =~= second@);
        v
    }

    /// The stored bytes from the start of the last `n` lines; empty when
    /// `n` is 0. A trailing newline ends the last line.
    pub fn last_n_lines(&self, n: usize) -> (r: Vec<u8>)
        requires
            self.wf(),
        ensures
            is_last_lines(self@, n as nat, r@),
    {
        if n == 0 || self.len == 0 {
            let r: Vec<u8> = Vec::new();
            proof {
                if n > 0 {
                    assert(is_line_cut(self@, n as nat, 0));
                    assert(r@ =~= self@.subrange(0, self@.len() as int));
                }
            }
            return r;
        }
        let (first, second) = self.as_slices();
        let result = Self::joined(first, second);
        let ghost s = result@;
        assert(s.subrange(0, s.len() as int) =~= s);
        // Scan backwards for newlines
        let mut lines_found: usize = 0;
        let mut cut_pos: usize = 0;
        let mut i: usize = result.len();
        while i > 0
            invariant_except_break
                s == result@,
                i <= s.len(),
                lines_found <= n,
                lines_found <= s.len() - i,
                s.len() <= isize::MAX,
                s.subrange(0, s.len() as int) == s,
                lines_found == newline_count(s.subrange(i as int, s.len() as int)),
                cut_pos == 0,
            ensures
                is_line_cut(s, n as nat, cut_pos as int),
            decreases i,
        {
            i = i - 1;
            proof {
                let tail = s.subrange(i as int, s.len() as int);
                assert(tail.drop_first() =~= s.subrange(i + 1, s.len() as int));
            }
            if result[i] == 10u8 {
                lines_found = lines_found + 1;
                if lines_found > n {
                    cut_pos = i + 1;
                    proof {
                        assert(s.subrange(cut_pos as int, s.len() as int) =~= s.subrange(
                            i + 1,
                            s.len() as int,
                        ));
                    }
                    break;
                }
            }
        }
        proof {
            if i == 0 && cut_pos == 0 {
                assert(s.subrange(0, s.len() as int) =~= s);
            }
        }
        let out = slice_to_vec(slice_subrange(result.as_slice(), cut_pos, result.len()));
        out
    }

    /// All stored bytes, oldest first.
    pub fn all_bytes(&self) -> (r: Vec<u8>)
        requires
            self.wf(),
        ensures
            r@ == self@,
    {
        let (first, second) = self.as_slices();
        Self::joined(first, second)
    }

    /// Number of stored bytes.
    pub fn len(&self) -> (r: usize)
        requires
            self.wf(),
        ensures
            r == self@.len(),
            r <= self.capacity(),
    {
        self.len
    }

    /// Whether no byte is stored.
    pub fn is_empty(&self) -> (r: bool)
        requires
            self.wf(),
        ensures
            r == (self@.len() == 0),
    {
        self.len == 0
    }

    /// Drops every stored byte; the capacity stays.
    pub fn clear(&mut self)
        requires
            old(self).wf(),
        ensures
            final(self).wf(),
            final(self)@ == Seq::<u8>::empty(),
            final(self).capacity() == old(self).capacity(),
    {
        self.write_pos = 0;
        self.len = 0;
        assert(self@ =~= Seq::<u8>::empty());
    }
}


/// Newlines of a concatenation are those of both parts.
pub proof fn lemma_newline_count_concat(x: Seq<u8>, y: Seq<u8>)
    ensures
        newline_count(x + y) == newline_count(x) + newline_count(y),
    decreases x.len(),
{
    if x.len() > 0 {
        assert((x + y).drop_first() =~= x.drop_first() + y);
        lemma_newline_count_concat(x.drop_first(), y);
    } else {
        assert(x + y =~= y);
    }
}

/// Feeding a buffer `a` and then `b` leaves it holding what feeding it
/// `a` and `b` at once would: writes may be split anywhere.
pub proof fn lemma_keep_last_split(s: Seq<u8>, a: Seq<u8>, b: Seq<u8>, cap: nat)
    ensures
        keep_last(keep_last(s + a, cap) + b, cap) == keep_last(s + a + b, cap),
{
    let x = s + a;
    let k = keep_last(x, cap);
    if x.len() > cap {
        let whole = x + b;
        if k.len() + b.len() > cap {
            assert((k + b).subrange((k + b).len() - cap, (k + b).len() as int) =~= whole.subrange(
                whole.len() - cap,
                whole.len() as int,
            ));
        }
    }
    assert(s + a + b =~= x + b);
}

/// What a buffer of capacity `cap` holds after the operations `ops`,
/// applied one by one from empty as `write` (`Some(data)`) and `clear`
/// (`None`) state them.
pub open spec fn after_ops(cap: nat, ops: Seq<Option<Seq<u8>>>) -> Seq<u8>
    decreases ops.len(),
{
    if ops.len() == 0 {
        Seq::empty()
    } else {
        match ops.last() {
            Some(d) => keep_last(after_ops(cap, ops.drop_last()) + d, cap),
            None => Seq::empty(),
        }
    }
}

/// Everything written by `ops` since the last `clear`, in order.
pub open spec fn written_since_clear(ops: Seq<Option<Seq<u8>>>) -> Seq<u8>
    decreases ops.len(),
{
    if ops.len() == 0 {
        Seq::empty()
    } else {
        match ops.last() {
            Some(d) => written_since_clear(ops.drop_last()) + d,
            None => Seq::empty(),
        }
    }
}

/// Whatever writes and clears a buffer has seen since it was made, it
/// holds the last `capacity` bytes written since the last clear, oldest
/// first.
pub proof fn lemma_holds_last_written(cap: nat, ops: Seq<Option<Seq<u8>>>)
    ensures
        after_ops(cap, ops) == keep_last(written_since_clear(ops), cap),
    decreases ops.len(),
{
    if ops.len() > 0 {
        lemma_holds_last_written(cap, ops.drop_last());
        match ops.last() {
            Some(d) => {
                let w = written_since_clear(ops.drop_last());
                lemma_keep_last_split(Seq::empty(), w, d, cap);
                assert(Seq::<u8>::empty() + w =~= w);
            },
            None => {},
        }
    }
}

/// At most one position is where the last `n` lines of `s` begin, so the
/// bytes `last_n_lines` returns are fixed by the stored bytes and `n`.
pub proof fn lemma_line_cut_unique(s: Seq<u8>, n: nat, c1: int, c2: int)
    requires
        is_line_cut(s, n, c1),
        is_line_cut(s, n, c2),
    ensures
        c1 == c2,
{
    if c1 != c2 {
        let (lo, hi) = if c1 < c2 { (c1, c2) } else { (c2, c1) };
        let end = s.len() as int;
        // The newline just before `hi` lies after `lo`.
        assert(s.subrange(lo, end) =~= s.subrange(lo, hi - 1) + (seq![s[hi - 1]] + s.subrange(hi, end)));
        lemma_newline_count_concat(s.subrange(lo, hi - 1), seq![s[hi - 1]] + s.subrange(hi, end));
        lemma_newline_count_concat(seq![s[hi - 1]], s.subrange(hi, end));
        assert(seq![s[hi - 1]].drop_first() =~= Seq::<u8>::empty());
        if lo == 0 {
            assert(s.subrange(0, end) =~= s);
        }
    }
}

} // verus!
