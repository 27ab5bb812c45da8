//! Width-restricted views of span fragments for debug output: a fragment is
//! cut to the width class and marked with an ellipsis. Rendering the bytes
//! as text is left to the caller.

use crate::error::DebugWidth;
use crate::span::Span;
use vstd::prelude::*;

verus! {

/// The fragment bytes cut to at most `max_len`, with `...` appended.
pub open spec fn restricted(frag: Seq<u8>, max_len: int) -> Seq<u8> {
    let cut = if frag.len() <= max_len {
        frag
    } else {
        frag.subrange(0, max_len)
    };
    cut + seq![46u8, 46u8, 46u8]
}

/// Cuts a span's fragment to at most `max_len` bytes and appends `...`.
pub fn restrict_n(max_len: usize, span: &Span) -> (r: Vec<u8>)
    requires
        span.wf(),
    ensures
        r@ == restricted(span.frag(), max_len as int),
{
    let mut r = span.fragment();
    if r.len() > max_len {
        r.truncate(max_len);
    }
    r.push(46u8);
    r.push(46u8);
    r.push(46u8);
    proof {
        assert(r@ =~= restricted(span.frag(), max_len as int));
    }
    r
}

/// Cuts a span's fragment to the width class: 20 bytes for short, 40 for
/// medium, 60 for long.
pub fn restrict(w: DebugWidth, span: &Span) -> (r: Vec<u8>)
    requires
        span.wf(),
    ensures
        w is Short ==> r@ == restricted(span.frag(), 20),
        w is Medium ==> r@ == restricted(span.frag(), 40),
        w is Long ==> r@ == restricted(span.frag(), 60),
{
    match w {
        DebugWidth::Short => restrict_n(20, span),
        DebugWidth::Medium => restrict_n(40, span),
        DebugWidth::Long => restrict_n(60, span),
    }
}

} // verus!
