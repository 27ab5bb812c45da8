//! A small check harness for parser runs: it records one run and lets a test
//! chain checks on it. A check that does not hold sets the fail flag; a
//! report judges the finished run from that flag.

use crate::error::ParserError;
use crate::span::Span;
use crate::Code;
use std::rc::Rc;
use vstd::prelude::*;

verus! {

/// One recorded parser run: extension data, the input, the result, and
/// whether any check on it has failed so far.
pub struct Test<P, I, O, E> {
    /// Extension data: the tracer of the run, if any.
    pub x: P,
    /// Input span.
    pub span: I,
    /// Result.
    pub result: Result<O, E>,
    /// Whether any check failed.
    pub fail: bool,
}

/// Result reporting: judges a finished run; `true` rejects it.
pub trait Report<P, I, O, E> {
    /// Judges a run; `true` rejects it.
    fn report(&self, test: &Test<P, I, O, E>) -> bool;
}

/// Rejects a run when any check on it failed.
pub struct CheckDump {}

/// Never rejects: the run's data is for dumping only.
pub struct Dump {}

/// Never rejects: reports how long the run took, divided by its factor.
pub struct Timing(pub u32);

/// Rejects a run when any check on it failed; the full trace is of interest.
pub struct CheckTrace {}

/// Never rejects: the full trace is for dumping only.
pub struct Trace {}

/// Never rejects: the replay trace is for dumping only.
pub struct RTrace {}

impl<P, I, O, E> Report<P, I, O, E> for CheckDump {
    fn report(&self, test: &Test<P, I, O, E>) -> bool {
        test.fail
    }
}

impl<P, I, O, E> Report<P, I, O, E> for Dump {
    fn report(&self, test: &Test<P, I, O, E>) -> bool {
        let _ = test;
        false
    }
}

impl<P, I, O, E> Report<P, I, O, E> for Timing {
    fn report(&self, test: &Test<P, I, O, E>) -> bool {
        let _ = test;
        false
    }
}

impl<P, I, O, E> Report<P, I, O, E> for CheckTrace {
    fn report(&self, test: &Test<P, I, O, E>) -> bool {
        test.fail
    }
}

impl<P, I, O, E> Report<P, I, O, E> for Trace {
    fn report(&self, test: &Test<P, I, O, E>) -> bool {
        let _ = test;
        false
    }
}

impl<P, I, O, E> Report<P, I, O, E> for RTrace {
    fn report(&self, test: &Test<P, I, O, E>) -> bool {
        let _ = test;
        false
    }
}

/// Extension data for a run traced by the full-tracking tracer.
pub struct TestTracer<const TRACK: bool> {
    /// The tracer of the run.
    pub trace: crate::tracer::CTracer<TRACK>,
}

/// Extension data for a run traced by the replay-only tracer.
pub struct TestRTracer {
    /// The tracer of the run.
    pub trace: crate::rtracer::RTracer,
}

/// Extension data for an untraced run.
pub struct TestNoTracer {}

impl<P, I, O, E> Test<P, I, O, E> {
    /// Runs a test function on `input` and records the result, keeping
    /// `span` as the run's reference input.
    pub fn run<F: Fn(I) -> Result<O, E>>(span: I, input: I, fn_test: F, x: P) -> (r: Self)
        requires
            call_requires(fn_test, (input,)),
        ensures
            r.x == x,
            r.span == span,
            !r.fail,
            call_ensures(fn_test, (input,), r.result),
    {
        let result = fn_test(input);
        Self { x, span, result, fail: false }
    }

    /// Sets the failed flag.
    pub fn flag_fail(&mut self)
        ensures
            final(self).fail,
            final(self).x == old(self).x,
            final(self).span == old(self).span,
            final(self).result == old(self).result,
    {
        self.fail = true;
    }

    /// Always fails.
    pub fn fail(&mut self)
        ensures
            final(self).fail,
            final(self).x == old(self).x,
            final(self).span == old(self).span,
            final(self).result == old(self).result,
    {
        self.flag_fail();
    }

    /// Checks for ok: any result that is not an error passes.
    pub fn okok(&mut self)
        ensures
            final(self).fail == (old(self).fail || old(self).result is Err),
            final(self).x == old(self).x,
            final(self).span == old(self).span,
            final(self).result == old(self).result,
    {
        match &self.result {
            Ok(_) => {},
            Err(_) => {
                self.flag_fail();
            },
        }
    }

    /// Checks for any error.
    pub fn errerr(&mut self)
        ensures
            final(self).fail == (old(self).fail || old(self).result is Ok),
            final(self).x == old(self).x,
            final(self).span == old(self).span,
            final(self).result == old(self).result,
    {
        match &self.result {
            Ok(_) => {
                self.flag_fail();
            },
            Err(_) => {},
        }
    }

    /// Runs the associated report on the finished run; `true` rejects it.
    pub fn q<R: Report<P, I, O, E>>(&self, r: &R) -> bool {
        r.report(self)
    }
}

/// Whether a span lies inside its buffer and its fragment is exactly `frag`.
pub open spec fn frag_is(s: Span, frag: Seq<u8>) -> bool {
    &&& s.end() <= s.buf@.len()
    &&& s.frag() == frag
}

/// Whether a span sits at `offset` and shows exactly the fragment `frag`.
pub open spec fn span_shows(s: Span, offset: int, frag: Seq<u8>) -> bool {
    &&& s.offset == offset
    &&& frag_is(s, frag)
}

/// Checks a span's fragment bytes at run time.
pub fn frag_check(s: &Span, frag: &[u8]) -> (r: bool)
    ensures
        r == frag_is(*s, frag@),
{
    let blen = rc_len(&s.buf);
    if s.len > blen {
        return false;
    }
    if s.offset > blen - s.len {
        return false;
    }
    if s.len != frag.len() {
        return false;
    }
    let n = s.len;
    let mut i: usize = 0;
    while i < n
        invariant
            0 <= i <= n == s.len == frag@.len(),
            s.offset + s.len <= s.buf@.len(),
            s.buf@.len() <= usize::MAX,
            forall|j: int| 0 <= j < i ==> s.buf@[s.offset + j] == frag@[j],
        decreases n - i,
    {
        if (*s.buf)[s.offset + i] != frag[i] {
            proof {
                assert(s.frag()[i as int] != frag@[i as int]);
            }
            return false;
        }
        i = i + 1;
    }
    proof {
        assert(s.frag() =~= frag@);
    }
    true
}

/// Checks a span's offset and fragment bytes at run time.
pub fn span_check(s: &Span, offset: usize, frag: &[u8]) -> (r: bool)
    ensures
        r == span_shows(*s, offset as int, frag@),
{
    if s.offset != offset {
        return false;
    }
    frag_check(s, frag)
}

/// The length of a shared byte buffer.
fn rc_len(v: &Rc<Vec<u8>>) -> (r: usize)
    ensures
        r == v@.len(),
{
    (**v).len()
}

impl<P, O, E> Test<P, Span, (Span, O), E> {
    /// Checks the remaining input after parsing against the given bytes.
    pub fn rest(&mut self, test: &[u8])
        ensures
            final(self).fail == (old(self).fail || !(old(self).result matches Ok(p) && frag_is(
                p.0,
                test@,
            ))),
            final(self).x == old(self).x,
            final(self).span == old(self).span,
            final(self).result == old(self).result,
    {
        let hold = match &self.result {
            Ok((rest_span, _)) => frag_check(rest_span, test),
            Err(_) => false,
        };
        if !hold {
            self.flag_fail();
        }
    }
}

impl<P, O> Test<P, Span, O, ParserError> {
    /// Checks that the run failed with this error code.
    pub fn err(&mut self, code: Code)
        ensures
            final(self).fail == (old(self).fail || !(old(self).result matches Err(e) && e.code
                == code)),
            final(self).x == old(self).x,
            final(self).span == old(self).span,
            final(self).result == old(self).result,
    {
        let hold = match &self.result {
            Ok(_) => false,
            Err(e) => e.code == code,
        };
        if !hold {
            self.flag_fail();
        }
    }

    /// Checks that the run failed and expected this code.
    pub fn expect(&mut self, code: Code)
        ensures
            final(self).fail == (old(self).fail || !(old(self).result matches Err(e)
                && e.is_expected_spec(code))),
            final(self).x == old(self).x,
            final(self).span == old(self).span,
            final(self).result == old(self).result,
    {
        let hold = match &self.result {
            Ok(_) => false,
            Err(e) => e.is_expected(code),
        };
        if !hold {
            self.flag_fail();
        }
    }

    /// Checks that the run failed with `code` relabeled into `parent`.
    pub fn expect2(&mut self, code: Code, parent: Code)
        ensures
            final(self).fail == (old(self).fail || !(old(self).result matches Err(e)
                && e.is_expected2_spec(code, parent))),
            final(self).x == old(self).x,
            final(self).span == old(self).span,
            final(self).result == old(self).result,
    {
        let hold = match &self.result {
            Ok(_) => false,
            Err(e) => e.is_expected2(code, parent),
        };
        if !hold {
            self.flag_fail();
        }
    }
}

/// Checks on values that contain a span, independent of `Test`.
pub trait TestSpan {
    /// Whether the value shows a span at `offset` with exactly `fragment`.
    fn ok(&self, offset: usize, fragment: &[u8]) -> bool;
}

/// Checks on values that contain an optional span and a span.
pub trait TestSpanPair {
    /// Whether the first, optional span is there, at `offset` with exactly
    /// `fragment`.
    fn ok_0(&self, offset: usize, fragment: &[u8]) -> bool;

    /// Whether the first, optional span is absent.
    fn ok_0_isnone(&self) -> bool;

    /// Whether the second span sits at `offset` with exactly `fragment`.
    fn ok_1(&self, offset: usize, fragment: &[u8]) -> bool;
}

/// Checks on the error variant of a result.
pub trait TestFail {
    /// Whether the value failed with this code.
    fn err(&self, code: Code) -> bool;
}

impl TestSpan for Span {
    /// Whether this span sits at `offset` with exactly `fragment`.
    fn ok(&self, offset: usize, fragment: &[u8]) -> (r: bool)
        ensures
            r == span_shows(*self, offset as int, fragment@),
    {
        span_check(self, offset, fragment)
    }
}

impl TestSpan for (Span, Span) {
    /// Whether the matched span, the second of the pair, sits at `offset`
    /// with exactly `fragment`.
    fn ok(&self, offset: usize, fragment: &[u8]) -> (r: bool)
        ensures
            r == span_shows(self.1, offset as int, fragment@),
    {
        span_check(&self.1, offset, fragment)
    }
}

impl TestSpan for crate::ParserResult<(Span, Span)> {
    /// Whether the parse succeeded and its matched span sits at `offset`
    /// with exactly `fragment`.
    fn ok(&self, offset: usize, fragment: &[u8]) -> (r: bool)
        ensures
            r == (self matches Ok(p) && span_shows(p.1, offset as int, fragment@)),
    {
        match self {
            Ok(p) => span_check(&p.1, offset, fragment),
            Err(_) => false,
        }
    }
}

impl TestSpanPair for crate::ParserResult<(Span, (Option<Span>, Span))> {
    /// Whether the parse succeeded, the optional leading span is there, at
    /// `offset` with exactly `fragment`.
    fn ok_0(&self, offset: usize, fragment: &[u8]) -> (r: bool)
        ensures
            r == (self matches Ok(p) && (p.1.0 matches Some(s) && span_shows(
                s,
                offset as int,
                fragment@,
            ))),
    {
        match self {
            Ok((_, (opt, _))) => match opt {
                Some(s) => span_check(s, offset, fragment),
                None => false,
            },
            Err(_) => false,
        }
    }

    /// Whether the parse succeeded with the optional leading span absent.
    fn ok_0_isnone(&self) -> (r: bool)
        ensures
            r == (self matches Ok(p) && p.1.0 is None),
    {
        match self {
            Ok((_, (opt, _))) => match opt {
                Some(_) => false,
                None => true,
            },
            Err(_) => false,
        }
    }

    /// Whether the parse succeeded and the second span sits at `offset` with
    /// exactly `fragment`.
    fn ok_1(&self, offset: usize, fragment: &[u8]) -> (r: bool)
        ensures
            r == (self matches Ok(p) && span_shows(p.1.1, offset as int, fragment@)),
    {
        match self {
            Ok((_, (_, s))) => span_check(s, offset, fragment),
            Err(_) => false,
        }
    }
}

impl TestFail for crate::ParserResult<(Span, Span)> {
    /// Whether the parse failed with this grammar code; failures with a
    /// reserved sentinel code never pass.
    fn err(&self, code: Code) -> (r: bool)
        ensures
            r == (self matches Err(e) && e.code == code && !e.code.is_special_spec()),
    {
        match self {
            Ok(_) => false,
            Err(e) => {
                if e.is_special() {
                    false
                } else {
                    codes_eq(e.code, code)
                }
            },
        }
    }
}

/// Whether two codes are the same.
fn codes_eq(a: Code, b: Code) -> (r: bool)
    ensures
        r == (a == b),
{
    a == b
}

} // verus!
