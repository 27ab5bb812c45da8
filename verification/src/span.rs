//! Cursor spans over an immutable source buffer, and the span algebra that
//! reconstructs one combined region from two cursors without copying text
//! around: spans share one buffer and carry offset, line and length.

use std::rc::Rc;
use vstd::prelude::*;
use vstd::slice::slice_subrange;

verus! {

/// How many line-feed bytes a byte sequence holds.
pub open spec fn newlines(s: Seq<u8>) -> nat
    decreases s.len(),
{
    if s.len() == 0 {
        0
    } else {
        newlines(s.drop_last()) + if s.last() == 10u8 {
            1nat
        } else {
            0nat
        }
    }
}

/// The 1-based line number of byte position `p` of `buf`.
pub open spec fn line_at(buf: Seq<u8>, p: int) -> int {
    1 + newlines(buf.subrange(0, p)) as int
}

/// Splitting a sequence splits its line-feed count.
pub proof fn lemma_newlines_add(a: Seq<u8>, b: Seq<u8>)
    ensures
        newlines(a + b) == newlines(a) + newlines(b),
    decreases b.len(),
{
    if b.len() == 0 {
        assert(a + b =~= a);
    } else {
        assert((a + b).drop_last() =~= a + b.drop_last());
        lemma_newlines_add(a, b.drop_last());
    }
}

/// The line number never decreases along the buffer.
pub proof fn lemma_line_at_monotone(buf: Seq<u8>, p: int, q: int)
    requires
        0 <= p <= q <= buf.len(),
    ensures
        line_at(buf, p) <= line_at(buf, q),
{
    assert(buf.subrange(0, q) =~= buf.subrange(0, p) + buf.subrange(p, q));
    lemma_newlines_add(buf.subrange(0, p), buf.subrange(p, q));
}

/// A non-owning cursor into a source buffer. The buffer is shared between all
/// spans drawn from it; a span marks a fragment by offset and length and
/// remembers the line number of its first byte.
#[derive(Debug)]
pub struct Span {
    /// The whole underlying buffer, shared by every span drawn from it.
    pub buf: Rc<Vec<u8>>,
    /// Byte offset of the fragment within the buffer.
    pub offset: usize,
    /// 1-based line number of the byte at `offset`.
    pub line: u32,
    /// Length of the fragment in bytes.
    pub len: usize,
}

impl Span {
    /// The bytes of the fragment this span stands for.
    pub open spec fn frag(self) -> Seq<u8> {
        self.buf@.subrange(self.offset as int, self.offset + self.len)
    }

    /// One past the last byte of the fragment.
    pub open spec fn end(self) -> int {
        self.offset + self.len
    }

    /// The fragment lies inside the buffer, the line number matches the
    /// offset, and every line number of the buffer fits in a `u32`.
    pub open spec fn wf(self) -> bool {
        &&& self.offset + self.len <= self.buf@.len()
        &&& self.buf@.len() <= usize::MAX
        &&& self.line == line_at(self.buf@, self.offset as int)
        &&& line_at(self.buf@, self.buf@.len() as int) <= u32::MAX
    }

    /// A span over the whole of `buf`, anchored at offset 0, line 1.
    pub fn new(buf: Vec<u8>) -> (r: Span)
        requires
            1 + newlines(buf@) <= u32::MAX,
        ensures
            r.wf(),
            r.buf@ == buf@,
            r.offset == 0,
            r.line == 1,
            r.len == buf@.len(),
    {
        proof {
            assert(buf@.subrange(0, 0) =~= Seq::<u8>::empty());
            assert(buf@.subrange(0, buf@.len() as int) =~= buf@);
        }
        let len = buf.len();
        Span { buf: Rc::new(buf), offset: 0, line: 1, len }
    }

    /// Byte offset of the fragment within the buffer.
    pub fn location_offset(&self) -> (r: usize)
        ensures
            r == self.offset,
    {
        self.offset
    }

    /// 1-based line number of the first byte of the fragment.
    pub fn location_line(&self) -> (r: u32)
        ensures
            r == self.line,
    {
        self.line
    }

    /// Length of the fragment in bytes.
    pub fn span_len(&self) -> (r: usize)
        ensures
            r == self.len,
    {
        self.len
    }

    /// Whether the fragment is empty.
    pub fn is_empty(&self) -> (r: bool)
        ensures
            r == (self.len == 0),
    {
        self.len == 0
    }

    /// A copy of the bytes of the fragment.
    pub fn fragment(&self) -> (r: Vec<u8>)
        requires
            self.wf(),
        ensures
            r@ == self.frag(),
    {
        let blen = rc_vec_len(&self.buf);
        let mut r: Vec<u8> = Vec::new();
        let mut i: usize = self.offset;
        let hi: usize = self.offset + self.len;
        while i < hi
            invariant
                self.offset <= i <= hi,
                hi == self.offset + self.len <= self.buf@.len(),
                r@ == self.buf@.subrange(self.offset as int, i as int),
            decreases hi - i,
        {
            let b: u8 = (*self.buf)[i];
            r.push(b);
            i = i + 1;
            proof {
                assert(r@ =~= self.buf@.subrange(self.offset as int, i as int));
            }
        }
        proof {
            assert(r@ =~= self.frag());
        }
        r
    }

    /// Splits the fragment at byte position `n`, handing back the prefix and
    /// the rest as spans over the same buffer.
    pub fn split_at(&self, n: usize) -> (r: (Span, Span))
        requires
            self.wf(),
            n <= self.len,
        ensures
            r.0.wf(),
            r.1.wf(),
            r.0.buf == self.buf,
            r.1.buf == self.buf,
            r.0.offset == self.offset,
            r.0.line == self.line,
            r.0.len == n,
            r.1.offset == self.offset + n,
            r.1.line == line_at(self.buf@, self.offset + n),
            r.1.len == self.len - n,
    {
        let blen = rc_vec_len(&self.buf);
        let cnt = count_newlines(&*self.buf, self.offset, self.offset + n);
        proof {
            assert(self.buf@.subrange(0, self.offset + n) =~= self.buf@.subrange(
                0,
                self.offset as int,
            ) + self.buf@.subrange(self.offset as int, self.offset + n));
            lemma_newlines_add(
                self.buf@.subrange(0, self.offset as int),
                self.buf@.subrange(self.offset as int, self.offset + n),
            );
            lemma_line_at_monotone(self.buf@, self.offset + n, self.buf@.len() as int);
        }
        let prefix = Span { buf: Rc::clone(&self.buf), offset: self.offset, line: self.line, len: n };
        let rest = Span {
            buf: Rc::clone(&self.buf),
            offset: self.offset + n,
            line: self.line + cnt as u32,
            len: self.len - n,
        };
        (prefix, rest)
    }
}

impl Clone for Span {
    /// A clone shares the buffer and copies the cursor fields.
    fn clone(&self) -> (r: Self)
        ensures
            r == *self,
    {
        Span { buf: Rc::clone(&self.buf), offset: self.offset, line: self.line, len: self.len }
    }
}

/// Counts the line-feed bytes in `buf[from..to]`.
fn count_newlines(buf: &Vec<u8>, from: usize, to: usize) -> (cnt: usize)
    requires
        from <= to <= buf@.len(),
    ensures
        cnt == newlines(buf@.subrange(from as int, to as int)),
        cnt <= to - from,
{
    let mut cnt: usize = 0;
    let mut i: usize = from;
    proof {
        assert(buf@.subrange(from as int, from as int) =~= Seq::<u8>::empty());
    }
    while i < to
        invariant
            from <= i <= to <= buf@.len(),
            cnt == newlines(buf@.subrange(from as int, i as int)),
            cnt <= i - from,
        decreases to - i,
    {
        proof {
            assert(buf@.subrange(from as int, i + 1).drop_last() =~= buf@.subrange(
                from as int,
                i as int,
            ));
            assert(buf@.subrange(from as int, i + 1).last() == buf@[i as int]);
        }
        if buf[i] == 10u8 {
            cnt = cnt + 1;
        }
        i = i + 1;
    }
    cnt
}

/// The region reaching from the beginning of `span0` to the end of `span1`:
/// same buffer, `span0`'s offset and line, extended through `span1`'s end.
pub open spec fn union_spec(span0: Span, span1: Span) -> Span {
    Span {
        buf: span0.buf,
        offset: span0.offset,
        line: span0.line,
        len: (span1.offset - span0.offset + span1.len) as usize,
    }
}

/// Builds the union region without any guard: the callers have checked the
/// preconditions already.
fn union_raw(span0: &Span, span1: &Span) -> (r: Span)
    requires
        span0.wf(),
        span1.wf(),
        span0.buf@ == span1.buf@,
        span0.offset <= span1.offset,
    ensures
        r == union_spec(*span0, *span1),
        r.wf(),
        r.frag() == span0.buf@.subrange(span0.offset as int, span1.end()),
{
    let blen = rc_vec_len(&span1.buf);
    let new_len = (span1.offset - span0.offset) + span1.len;
    Span { buf: Rc::clone(&span0.buf), offset: span0.offset, line: span0.line, len: new_len }
}

/// Returns a new span that reaches from the beginning of `span0` to the end
/// of `span1`. Both spans must be drawn from the same buffer and `span0` must
/// not start after `span1`; the guard runs at run time too, so a violating
/// call aborts rather than building a wrong region.
pub fn span_union(span0: &Span, span1: &Span) -> (r: Span)
    requires
        span0.wf(),
        span1.wf(),
        span0.buf@ == span1.buf@,
        span0.offset <= span1.offset,
    ensures
        r == union_spec(*span0, *span1),
        r.wf(),
        r.frag() == span0.buf@.subrange(span0.offset as int, span1.end()),
{
    match span_union_checked(span0, span1) {
        Some(u) => u,
        None => vstd::pervasive::unreached(),
    }
}

/// `span_union` with an optional leading span: when the leading optional
/// element did not match, the second span is returned unchanged.
pub fn span_union_opt(span0: Option<&Span>, span1: &Span) -> (r: Span)
    requires
        span1.wf(),
        span0 matches Some(s) ==> s.wf() && s.buf@ == span1.buf@ && s.offset <= span1.offset,
    ensures
        span0 matches Some(s) ==> r == union_spec(*s, *span1),
        span0 is None ==> r == *span1,
{
    match span0 {
        None => span1.clone(),
        Some(s) => span_union(s, span1),
    }
}

/// The guarded union: hands back the union only when both spans are drawn
/// from the same buffer, in non-decreasing offset order and well formed, and
/// reports `None` in every other case instead of building a wrong region.
pub fn span_union_checked(span0: &Span, span1: &Span) -> (r: Option<Span>)
    ensures
        r matches Some(u) ==> u == union_spec(*span0, *span1) && span0.wf() && span1.wf()
            && span0.buf@ == span1.buf@ && span0.offset <= span1.offset,
        r is None <==> !(span0.wf() && span1.wf() && span0.buf@ == span1.buf@ && span0.offset
            <= span1.offset),
{
    if !span_wf_check(span0) {
        return None;
    }
    if !span_wf_check(span1) {
        return None;
    }
    if !bytes_eq(&span0.buf, &span1.buf) {
        return None;
    }
    if span0.offset > span1.offset {
        return None;
    }
    Some(union_raw(span0, span1))
}

/// Round-trip union: splitting a span into a prefix and the rest and uniting
/// the two parts reproduces the whole span: same buffer, offset, line and
/// text. The parts are as `split_at` hands them out.
pub proof fn lemma_union_round_trip(s: Span, p: Span, q: Span)
    requires
        s.wf(),
        p.buf == s.buf,
        p.offset == s.offset,
        p.line == s.line,
        p.len <= s.len,
        q.buf == s.buf,
        q.offset == s.offset + p.len,
        q.len == s.len - p.len,
    ensures
        union_spec(p, q) == s,
{
}

/// Associativity: for three spans from the same buffer in non-decreasing
/// offset order, uniting the first two and then the third gives the same
/// span as uniting the first with the union of the last two.
pub proof fn lemma_union_assoc(a: Span, b: Span, c: Span)
    requires
        a.wf(),
        b.wf(),
        c.wf(),
        a.buf@ == b.buf@,
        b.buf@ == c.buf@,
        a.offset <= b.offset,
        b.offset <= c.offset,
    ensures
        union_spec(union_spec(a, b), c) == union_spec(a, union_spec(b, c)),
{
}

/// Whether two byte buffers hold the same bytes.
fn bytes_eq(a: &Vec<u8>, b: &Vec<u8>) -> (r: bool)
    ensures
        r == (a@ == b@),
{
    if a.len() != b.len() {
        proof {
            assert(a@ != b@);
        }
        return false;
    }
    let n = a.len();
    let mut i: usize = 0;
    while i < n
        invariant
            0 <= i <= n,
            n == a@.len() == b@.len(),
            forall|j: int| 0 <= j < i ==> a@[j] == b@[j],
        decreases n - i,
    {
        if a[i] != b[i] {
            return false;
        }
        i = i + 1;
    }
    proof {
        assert(a@ =~= b@);
    }
    true
}

/// Whether a span is well formed, checked at run time.
fn span_wf_check(s: &Span) -> (r: bool)
    ensures
        r == s.wf(),
{
    let blen = rc_vec_len(&s.buf);
    if s.len > blen {
        return false;
    }
    if s.offset > blen - s.len {
        return false;
    }
    let total = count_newlines(&*s.buf, 0, blen);
    proof {
        assert(s.buf@.subrange(0, s.buf@.len() as int) =~= s.buf@);
    }
    if total > (u32::MAX - 1) as usize {
        return false;
    }
    proof {
        assert(s.buf@.subrange(0, s.buf@.len() as int) =~= s.buf@.subrange(0, s.offset as int)
            + s.buf@.subrange(s.offset as int, s.buf@.len() as int));
        lemma_newlines_add(
            s.buf@.subrange(0, s.offset as int),
            s.buf@.subrange(s.offset as int, s.buf@.len() as int),
        );
    }
    let here = count_newlines(&*s.buf, 0, s.offset);
    if s.line as usize != 1 + here {
        return false;
    }
    true
}

/// The length of a shared byte buffer.
fn rc_vec_len(v: &Rc<Vec<u8>>) -> (r: usize)
    ensures
        r == v@.len(),
{
    (**v).len()
}

/// Relies on memchr::memchr: the index of the first occurrence of `needle`
/// in `haystack`, if any.
#[verifier::external_body]
fn find_byte(needle: u8, haystack: &[u8]) -> (r: Option<usize>)
    ensures
        r matches Some(i) ==> i < haystack@.len() && haystack@[i as int] == needle && (forall|j: int|
            0 <= j < i ==> haystack@[j] != needle),
        r is None ==> forall|j: int| 0 <= j < haystack@.len() ==> haystack@[j] != needle,
{
    memchr::memchr(needle, haystack)
}

/// Relies on memchr::memrchr: the index of the last occurrence of `needle`
/// in `haystack`, if any.
#[verifier::external_body]
fn rfind_byte(needle: u8, haystack: &[u8]) -> (r: Option<usize>)
    ensures
        r matches Some(i) ==> i < haystack@.len() && haystack@[i as int] == needle && (forall|j: int|
            i < j < haystack@.len() ==> haystack@[j] != needle),
        r is None ==> forall|j: int| 0 <= j < haystack@.len() ==> haystack@[j] != needle,
{
    memchr::memrchr(needle, haystack)
}

/// The position of the first line feed of `buf` at or after `from` and
/// before `upto`, or `upto` when there is none.
pub open spec fn first_nl(buf: Seq<u8>, from: int, upto: int) -> int
    decreases upto - from,
{
    if from >= upto {
        upto
    } else if buf[from] == 10u8 {
        from
    } else {
        first_nl(buf, from + 1, upto)
    }
}

/// The position of the last line feed of `buf` before `upto`, or -1 when
/// there is none.
pub open spec fn last_nl(buf: Seq<u8>, upto: int) -> int
    decreases upto,
{
    if upto <= 0 {
        -1
    } else if buf[upto - 1] == 10u8 {
        upto - 1
    } else {
        last_nl(buf, upto - 1)
    }
}

/// The first-occurrence properties determine `first_nl`.
proof fn lemma_first_nl_is(buf: Seq<u8>, from: int, upto: int, k: int)
    requires
        from <= k <= upto,
        forall|j: int| from <= j < k ==> buf[j] != 10u8,
        k < upto ==> buf[k] == 10u8,
    ensures
        first_nl(buf, from, upto) == k,
    decreases k - from,
{
    if from < k {
        lemma_first_nl_is(buf, from + 1, upto, k);
    }
}

/// The last-occurrence properties determine `last_nl`.
proof fn lemma_last_nl_is(buf: Seq<u8>, upto: int, k: int)
    requires
        0 <= upto,
        -1 <= k < upto,
        k >= 0 ==> buf[k] == 10u8,
        forall|j: int| k < j < upto ==> buf[j] != 10u8,
    ensures
        last_nl(buf, upto) == k,
    decreases upto,
{
    if upto > 0 && upto - 1 != k {
        lemma_last_nl_is(buf, upto - 1, k);
    }
}

/// The line pieces of `buf[pos..upto]`: each piece runs to the next line
/// feed, which it does not include; the final piece, possibly empty, runs to
/// `upto`. A piece carries (offset, line label, length), labels counting up
/// from `line`.
pub open spec fn lines_from(buf: Seq<u8>, pos: int, upto: int, line: int) -> Seq<(int, int, int)>
    decreases upto - pos,
    via lines_from_dec
{
    let k = first_nl(buf, pos, upto);
    if pos >= upto {
        seq![(pos, line, 0)]
    } else if k == upto {
        seq![(pos, line, upto - pos)]
    } else {
        seq![(pos, line, k - pos)] + lines_from(buf, k + 1, upto, line + 1)
    }
}

#[via_fn]
proof fn lines_from_dec(buf: Seq<u8>, pos: int, upto: int, line: int)
{
    if pos < upto {
        lemma_first_nl_range(buf, pos, upto);
    }
}

/// `first_nl` stays within its range, marks a line feed when inside it, and
/// nothing before it is a line feed.
proof fn lemma_first_nl_range(buf: Seq<u8>, from: int, upto: int)
    requires
        from <= upto,
    ensures
        from <= first_nl(buf, from, upto) <= upto,
        first_nl(buf, from, upto) < upto ==> buf[first_nl(buf, from, upto)] == 10u8,
        forall|j: int| from <= j < first_nl(buf, from, upto) ==> buf[j] != 10u8,
    decreases upto - from,
{
    if from < upto && buf[from] != 10u8 {
        lemma_first_nl_range(buf, from + 1, upto);
    }
}

/// Where the current line of a span begins: one past the last line feed at
/// or before the span's offset (the byte at the offset itself is part of the
/// search), or the head of the buffer.
pub open spec fn line_head(s: Span) -> int {
    last_nl(s.buf@, s.offset + 1) + 1
}

/// The line pieces that `get_lines_after` hands out: the current line and up
/// to `n` following pieces inside the span's visible region. When the
/// current line closes the region with its line feed, the empty piece after
/// it is not reported.
pub open spec fn lines_after_spec(s: Span, n: int) -> Seq<(int, int, int)> {
    let upto = s.end();
    let ls = lines_from(s.buf@, line_head(s), upto, s.line as int);
    if n == 0 {
        ls.take(1)
    } else if ls.len() >= 2 && ls[1].0 == upto {
        ls.take(1)
    } else if ls.len() <= n + 1 {
        ls
    } else {
        ls.take(n + 1)
    }
}

/// Whether the returned spans carry exactly the pieces: the same shared
/// buffer, and per piece its offset, line label and length.
pub open spec fn pieces_match(r: Seq<Span>, s: Span, ps: Seq<(int, int, int)>) -> bool {
    &&& r.len() == ps.len()
    &&& forall|m: int|
        0 <= m < r.len() ==> (#[trigger] r[m]).buf == s.buf && r[m].offset == ps[m].0 && r[m].line
            == ps[m].1 && r[m].len == ps[m].2
}

/// A line feed right before a position raises the line number by one.
proof fn lemma_line_at_step(buf: Seq<u8>, k: int)
    requires
        0 <= k < buf.len(),
    ensures
        buf[k] == 10u8 ==> line_at(buf, k + 1) == line_at(buf, k) + 1,
        buf[k] != 10u8 ==> line_at(buf, k + 1) == line_at(buf, k),
{
    assert(buf.subrange(0, k + 1).drop_last() =~= buf.subrange(0, k));
    assert(buf.subrange(0, k + 1).last() == buf[k]);
}

/// Between a line head and the next line feed the line number is constant.
proof fn lemma_line_at_flat(buf: Seq<u8>, a: int, b: int)
    requires
        0 <= a <= b <= buf.len(),
        forall|j: int| a <= j < b ==> buf[j] != 10u8,
    ensures
        line_at(buf, b) == line_at(buf, a),
    decreases b - a,
{
    if a < b {
        lemma_line_at_flat(buf, a, b - 1);
        lemma_line_at_step(buf, b - 1);
    }
}

/// The first line feed of `buf[from..upto]`, as an absolute position, or
/// `upto` when there is none.
fn find_nl(bufv: &Rc<Vec<u8>>, from: usize, upto: usize) -> (k: usize)
    requires
        from <= upto <= bufv@.len(),
    ensures
        k as int == first_nl(bufv@, from as int, upto as int),
        from <= k <= upto,
        k < upto ==> bufv@[k as int] == 10u8,
{
    let sl = slice_subrange((**bufv).as_slice(), from, upto);
    let found = find_byte(10u8, sl);
    match found {
        None => {
            proof {
                assert forall|j: int| from <= j < upto implies bufv@[j] != 10u8 by {
                    assert(sl@[j - from] != 10u8);
                }
                lemma_first_nl_is(bufv@, from as int, upto as int, upto as int);
            }
            upto
        },
        Some(rel) => {
            proof {
                assert(bufv@[from + rel] == 10u8) by {
                    assert(sl@[rel as int] == 10u8);
                }
                assert forall|j: int| from <= j < from + rel implies bufv@[j] != 10u8 by {
                    assert(sl@[j - from] != 10u8);
                }
                lemma_first_nl_is(bufv@, from as int, upto as int, from + rel);
            }
            from + rel
        },
    }
}

/// The position one past the last line feed of `buf[0..upto]`, or 0 when
/// there is none: the head of the line holding position `upto - 1`.
fn rfind_nl(bufv: &Rc<Vec<u8>>, upto: usize) -> (b: usize)
    requires
        upto <= bufv@.len(),
    ensures
        b as int == last_nl(bufv@, upto as int) + 1,
        b <= upto,
        b > 0 ==> bufv@[b as int - 1] == 10u8,
        forall|j: int| b <= j < upto ==> bufv@[j] != 10u8,
{
    let sl = slice_subrange((**bufv).as_slice(), 0, upto);
    let found = rfind_byte(10u8, sl);
    match found {
        None => {
            proof {
                assert forall|j: int| 0 <= j < upto implies bufv@[j] != 10u8 by {
                    assert(sl@[j] != 10u8);
                }
                lemma_last_nl_is(bufv@, upto as int, -1);
            }
            0
        },
        Some(i) => {
            proof {
                assert(bufv@[i as int] == 10u8) by {
                    assert(sl@[i as int] == 10u8);
                }
                assert forall|j: int| i < j < upto implies bufv@[j] != 10u8 by {
                    assert(sl@[j] != 10u8);
                }
                lemma_last_nl_is(bufv@, upto as int, i as int);
            }
            i + 1
        },
    }
}

/// Returns the current line and up to `n` following lines of the region the
/// span can see, each line as a span carrying its own offset and line label;
/// the labels count up from this span's line number.
pub fn get_lines_after(span0: &Span, n: u32) -> (r: Vec<Span>)
    requires
        span0.wf(),
        span0.len >= 1,
    ensures
        pieces_match(r@, *span0, lines_after_spec(*span0, n as int)),
{
    let upto = span0.offset + span0.len;
    let blen = rc_vec_len(&span0.buf);
    let ghost buf = span0.buf@;
    let start = rfind_nl(&span0.buf, span0.offset + 1);
    proof {
        assert(start as int == line_head(*span0));
        lemma_line_at_flat(buf, start as int, span0.offset + 1);
        lemma_line_at_monotone(buf, span0.offset as int, span0.offset + 1);
        assert(span0.line <= line_at(buf, start as int));
    }
    let ghost ls = lines_from(buf, start as int, upto as int, span0.line as int);
    let mut v: Vec<Span> = Vec::new();
    let k0 = find_nl(&span0.buf, start, upto);
    proof {
        if start == upto {
            assert(ls == seq![(start as int, span0.line as int, 0int)]);
        } else if k0 == upto {
            assert(ls == seq![(start as int, span0.line as int, upto - start as int)]);
        } else {
            assert(ls == seq![(start as int, span0.line as int, k0 - start as int)] + lines_from(
                buf,
                k0 as int + 1,
                upto as int,
                span0.line as int + 1,
            ));
        }
        assert(ls[0] == (start as int, span0.line as int, k0 - start as int));
    }
    v.push(Span { buf: Rc::clone(&span0.buf), offset: start, line: span0.line, len: k0 - start });
    proof {
        assert(pieces_match(v@, *span0, ls.take(1)));
    }
    if k0 == upto {
        proof {
            assert(ls =~= ls.take(1));
        }
        return v;
    }
    if k0 + 1 == upto {
        proof {
            assert(lines_from(buf, k0 as int + 1, upto as int, span0.line as int + 1)[0] == (
                upto as int,
                span0.line as int + 1,
                0int,
            ));
            assert(ls.len() >= 2 && ls[1].0 == upto);
        }
        return v;
    }
    if n == 0 {
        return v;
    }
    proof {
        lemma_line_at_step(buf, k0 as int);
        lemma_line_at_monotone(buf, k0 + 1, blen as int);
        lemma_line_at_monotone(buf, span0.offset as int, k0 as int);
        assert(ls.subrange(1, ls.len() as int) =~= lines_from(
            buf,
            k0 + 1,
            upto as int,
            span0.line + 1,
        ));
        assert(ls[1].0 == k0 + 1 < upto);
    }
    let mut pos: usize = k0 + 1;
    let mut line: u32 = span0.line + 1;
    let mut i: u32 = 1;
    while i <= n
        invariant
            1 <= i <= n + 1,
            span0.wf(),
            span0.len >= 1,
            buf == span0.buf@,
            upto == span0.offset + span0.len,
            blen == buf.len() <= usize::MAX,
            ls == lines_from(buf, line_head(*span0), upto as int, span0.line as int),
            ls.len() >= 2 && ls[1].0 < upto,
            pos <= upto,
            line as int == span0.line + i,
            line as int <= line_at(buf, pos as int),
            v@.len() == i,
            pieces_match(v@, *span0, ls.take(i as int)),
            lines_from(buf, pos as int, upto as int, line as int) == ls.subrange(
                i as int,
                ls.len() as int,
            ),
            ls.len() > i,
        decreases n + 1 - i,
    {
        let k = find_nl(&span0.buf, pos, upto);
        proof {
            let lf = lines_from(buf, pos as int, upto as int, line as int);
            if pos == upto {
                assert(lf == seq![(pos as int, line as int, 0int)]);
            } else if k == upto {
                assert(lf == seq![(pos as int, line as int, upto - pos as int)]);
            } else {
                assert(lf == seq![(pos as int, line as int, k - pos as int)] + lines_from(
                    buf,
                    k as int + 1,
                    upto as int,
                    line as int + 1,
                ));
            }
            assert(lf[0] == (pos as int, line as int, k - pos as int));
            assert(ls[i as int] == lf[0]);
        }
        v.push(Span { buf: Rc::clone(&span0.buf), offset: pos, line, len: k - pos });
        proof {
            assert(pieces_match(v@, *span0, ls.take(i + 1)));
        }
        if k == upto {
            proof {
                assert(ls.len() == i + 1);
                assert(ls =~= ls.take(i + 1));
                assert(ls.len() <= n + 1);
            }
            return v;
        }
        proof {
            let rest = lines_from(buf, k as int + 1, upto as int, line as int + 1);
            let lf = lines_from(buf, pos as int, upto as int, line as int);
            assert(lf == seq![(pos as int, line as int, k - pos as int)] + rest);
            assert(ls.len() - i == lf.len());
            assert forall|m: int| 0 <= m < rest.len() implies ls.subrange(
                i as int + 1,
                ls.len() as int,
            )[m] == rest[m] by {
                assert(ls.subrange(i as int, ls.len() as int)[m + 1] == lf[m + 1]);
                assert(ls[i + 1 + m] == lf[m + 1]);
                assert(lf[m + 1] == rest[m]);
            }
            assert(ls.subrange(i as int + 1, ls.len() as int) =~= rest);
            lemma_line_at_step(buf, k as int);
            lemma_line_at_monotone(buf, k + 1, blen as int);
            lemma_line_at_monotone(buf, pos as int, k as int);
        }
        pos = k + 1;
        line = line + 1;
        i = i + 1;
    }
    proof {
        assert(ls.len() > n + 1);
    }
    v
}

/// The full lines that end just before position `b`, a line head: at most
/// `cnt` of them, in buffer order, labeled downwards from `line - 1`.
pub open spec fn back_lines(buf: Seq<u8>, b: int, line: int, cnt: int) -> Seq<(int, int, int)>
    decreases b,
    via back_lines_dec
{
    if cnt <= 0 || b <= 0 {
        Seq::empty()
    } else {
        let p = last_nl(buf, b - 1);
        if p < 0 {
            seq![(0, line - 1, b - 1)]
        } else {
            back_lines(buf, p + 1, line - 1, cnt - 1) + seq![(p + 1, line - 1, b - 1 - (p + 1))]
        }
    }
}

#[via_fn]
proof fn back_lines_dec(buf: Seq<u8>, b: int, line: int, cnt: int)
{
    if !(cnt <= 0 || b <= 0) {
        lemma_last_nl_range(buf, b - 1);
    }
}

/// `last_nl` stays below its bound, marks a line feed when it found one, and
/// nothing after it is a line feed.
proof fn lemma_last_nl_range(buf: Seq<u8>, upto: int)
    requires
        0 <= upto,
    ensures
        -1 <= last_nl(buf, upto) < upto,
        last_nl(buf, upto) >= 0 ==> buf[last_nl(buf, upto)] == 10u8,
        forall|j: int| last_nl(buf, upto) < j < upto ==> buf[j] != 10u8,
    decreases upto,
{
    if upto > 0 && buf[upto - 1] != 10u8 {
        lemma_last_nl_range(buf, upto - 1);
    }
}

/// The line pieces that `get_lines_before` hands out: up to `n` full lines
/// above the current one, in buffer order, labeled downwards from this
/// span's line, then the current line, which runs from its head to its line
/// feed or to the end of the visible region.
pub open spec fn lines_before_spec(s: Span, n: int) -> Seq<(int, int, int)> {
    let upto = s.end();
    let b = line_head(s);
    let k = first_nl(s.buf@, b, upto);
    back_lines(s.buf@, b, s.line as int, n) + seq![(b, s.line as int, k - b)]
}

/// Returns up to `n` lines before the span, if possible, maybe fewer. The
/// current line is completed and handed out too, as the last span, and is
/// not included in the count.
pub fn get_lines_before(span0: &Span, n: u32) -> (r: Vec<Span>)
    requires
        span0.wf(),
        span0.len >= 1,
    ensures
        pieces_match(r@, *span0, lines_before_spec(*span0, n as int)),
{
    let upto = span0.offset + span0.len;
    let blen = rc_vec_len(&span0.buf);
    let ghost buf = span0.buf@;
    let start = rfind_nl(&span0.buf, span0.offset + 1);
    proof {
        assert(start as int == line_head(*span0));
        lemma_line_at_flat(buf, start as int, span0.offset + 1);
        lemma_line_at_step(buf, span0.offset as int);
        lemma_line_at_monotone(buf, span0.offset as int, span0.offset + 1);
        assert(span0.line <= line_at(buf, start as int));
        assert(line_at(buf, start as int) - 1 <= span0.line);
    }
    let ghost total = back_lines(buf, start as int, span0.line as int, n as int);
    let mut out: Vec<Span> = Vec::new();
    let ghost acc: Seq<(int, int, int)> = Seq::empty();
    let mut b: usize = start;
    let mut label: u32 = span0.line;
    let mut i: u32 = 0;
    while i < n && b > 0
        invariant
            0 <= i <= n,
            span0.wf(),
            span0.len >= 1,
            buf == span0.buf@,
            blen == buf.len() <= usize::MAX,
            b as int <= start as int <= span0.offset + 1,
            b > 0 ==> buf[b as int - 1] == 10u8,
            b > 0 ==> label as int <= line_at(buf, b as int) && line_at(buf, b as int) - 1
                <= label,
            total == back_lines(buf, b as int, label as int, n as int - i as int) + acc,
            pieces_match(out@, *span0, acc),
        decreases n - i,
    {
        proof {
            lemma_line_at_step(buf, b as int - 1);
            lemma_line_at_monotone(buf, 0, b as int - 1);
            assert(buf.subrange(0, 0) =~= Seq::<u8>::empty());
            assert(line_at(buf, 0) == 1);
            assert(label >= 1);
        }
        let prev = rfind_nl(&span0.buf, b - 1);
        proof {
            let bl = back_lines(buf, b as int, label as int, n as int - i as int);
            if prev == 0 && last_nl(buf, b as int - 1) < 0 {
                assert(bl == seq![(0int, label as int - 1, b as int - 1)]);
            } else {
                assert(bl == back_lines(buf, prev as int, label as int - 1, n as int - i as int - 1)
                    + seq![(prev as int, label as int - 1, b as int - 1 - prev as int)]);
            }
            assert(bl.last() == (prev as int, label as int - 1, b as int - 1 - prev as int));
        }
        out.insert(0, Span {
            buf: Rc::clone(&span0.buf),
            offset: prev,
            line: label - 1,
            len: (b - 1) - prev,
        });
        proof {
            acc = seq![(prev as int, label as int - 1, b as int - 1 - prev as int)] + acc;
            assert(pieces_match(out@, *span0, acc));
            if prev > 0 {
                lemma_line_at_flat(buf, prev as int, b as int - 1);
            } else {
                lemma_line_at_flat(buf, 0, b as int - 1);
            }
        }
        b = prev;
        label = label - 1;
        i = i + 1;
    }
    proof {
        assert(back_lines(buf, b as int, label as int, n as int - i as int) =~= Seq::<
            (int, int, int),
        >::empty());
        assert(total =~= acc);
    }
    let k0 = find_nl(&span0.buf, start, upto);
    out.push(Span { buf: Rc::clone(&span0.buf), offset: start, line: span0.line, len: k0 - start });
    proof {
        assert(pieces_match(out@, *span0, lines_before_spec(*span0, n as int)));
    }
    out
}

/// The span of the whole region a span was drawn from: offset 0, line 1,
/// running to the end of this span's fragment.
pub fn get_unoffsetted_span(span0: &Span) -> (r: Span)
    requires
        span0.wf(),
    ensures
        r.wf(),
        r.buf == span0.buf,
        r.offset == 0,
        r.line == 1,
        r.len == span0.offset + span0.len,
{
    proof {
        assert(span0.buf@.subrange(0, 0) =~= Seq::<u8>::empty());
    }
    Span { buf: Rc::clone(&span0.buf), offset: 0, line: 1, len: span0.offset + span0.len }
}

} // verus!
