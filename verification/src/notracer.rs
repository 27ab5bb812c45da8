//! The no-op tracer: no bookkeeping at all beyond handing results through,
//! for zero-overhead production builds. It is interchangeable with the
//! tracking tracers behind the shared tracer interface.

use crate::error::{DebugWidth, ParserError};
use crate::span::Span;
use crate::{Code, ParserResult};
use vstd::prelude::*;

verus! {

/// A tracer that does no bookkeeping at all.
pub struct NoTracer {}

impl NoTracer {
    /// A fresh no-op tracer.
    pub fn new() -> (r: Self) {
        NoTracer {}
    }

    /// Enter a parser function: nothing is recorded.
    pub fn enter(&mut self, func: Code, span: Span)
        ensures
            *final(self) == *old(self),
    {
        let _ = func;
        let _ = span;
    }

    /// A step inside a parser function: nothing is recorded.
    pub fn step(&mut self, step: &'static str, span: Span)
        ensures
            *final(self) == *old(self),
    {
        let _ = step;
        let _ = span;
    }

    /// Debug information: nothing is recorded.
    pub fn debug(&mut self, dbg: String)
        ensures
            *final(self) == *old(self),
    {
        let _ = dbg;
    }

    /// A suggestion: nothing is recorded.
    pub fn suggest(&mut self, suggest: Code, span: Span)
        ensures
            *final(self) == *old(self),
    {
        let _ = suggest;
        let _ = span;
    }

    /// An expectation: nothing is recorded.
    pub fn expect(&mut self, expect: Code, span: Span)
        ensures
            *final(self) == *old(self),
    {
        let _ = expect;
        let _ = span;
    }

    /// A retired error: nothing is recorded.
    pub fn stash(&mut self, err: ParserError)
        ensures
            *final(self) == *old(self),
    {
        let _ = err;
    }

    /// Hands back the ok result unchanged.
    pub fn ok<T>(&mut self, rest: Span, span: Span, val: T) -> (r: ParserResult<(Span, T)>)
        ensures
            r matches Ok(p) && p.0 == rest && p.1 == val,
    {
        let _ = span;
        Ok((rest, val))
    }

    /// Hands back the error unchanged.
    pub fn err<T>(&mut self, err: ParserError) -> (r: ParserResult<T>)
        ensures
            r matches Err(e) && e == err,
    {
        Err(err)
    }

    /// Write a debug output of the tracer state: a no-op tracer has none.
    pub fn write(&self, w: DebugWidth) -> (r: String)
        ensures
            r@ == Seq::<char>::empty(),
    {
        let _ = w;
        String::new()
    }
}

} // verus!
