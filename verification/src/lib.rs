//! Diagnostics and error context for hand-written recursive-descent parsers.
//!
//! The crate has three cooperating parts: a span algebra that reconstructs one
//! combined source region from two cursors over the same buffer, an error and
//! hint model that separates hard failures from soft expectations and
//! suggestions, and a tracer that mirrors the parser's own call stack to
//! collect, scope, and on success discard or on failure promote those hints.

use vstd::prelude::*;

pub mod debug;
pub mod error;
pub mod group;
pub mod notracer;
pub mod rtracer;
pub mod span;
pub mod test;
pub mod tracer;

verus! {

/// Result type of a parser function: a value or a parser error.
pub type ParserResult<O> = Result<O, crate::error::ParserError>;

/// Identifies either a named grammar rule or one of the three reserved
/// sentinel kinds for failures that carry no grammar-specific meaning yet.
#[derive(Clone, Copy, Debug, PartialEq, Eq, Structural)]
pub enum Code {
    /// Sentinel: an ordinary mismatch reported by the elementary matcher.
    NomError,
    /// Sentinel: a fatal mismatch reported by the elementary matcher.
    NomFailure,
    /// Sentinel: the input ended before the grammar was satisfied.
    ParseIncomplete,
    /// A named grammar rule.
    Grammar(u32),
}

impl Code {
    /// Whether the code is one of the three reserved sentinel kinds.
    pub open spec fn is_special_spec(self) -> bool {
        self == Code::NomError || self == Code::NomFailure || self == Code::ParseIncomplete
    }

    /// Whether the code is one of the three reserved sentinel kinds.
    pub fn is_special(&self) -> (r: bool)
        ensures
            r == self.is_special_spec(),
    {
        match self {
            Code::NomError => true,
            Code::NomFailure => true,
            Code::ParseIncomplete => true,
            Code::Grammar(_) => false,
        }
    }
}

/// The tracer interface shared by the three interchangeable strategies:
/// full-tracking, replay-only, and no-op. The interface promises only what
/// all three keep: the framing protocol and the shape of the results; the
/// exact bookkeeping is stated on each implementation's own methods.
pub trait Tracer: Sized {
    /// Whether the bookkeeping is consistent and a new top-level frame may be
    /// entered.
    spec fn ready(&self) -> bool;

    /// Whether a frame is open, so that hints may be recorded and the frame
    /// resolved.
    spec fn open_frame(&self) -> bool;

    /// Create a new tracer.
    fn new() -> (r: Self)
        ensures
            r.ready(),
    ;

    /// Enter a parser function. Necessary for the rest.
    fn enter(&mut self, func: Code, span: crate::span::Span)
        requires
            old(self).ready(),
        ensures
            final(self).ready(),
            final(self).open_frame(),
    ;

    /// Keep track of steps in a complicated parser.
    fn step(&mut self, step: &'static str, span: crate::span::Span)
        requires
            old(self).open_frame(),
        ensures
            final(self).open_frame(),
            final(self).ready() == old(self).ready(),
    ;

    /// Some detailed debug information.
    fn debug(&mut self, dbg: String)
        requires
            old(self).open_frame(),
        ensures
            final(self).open_frame(),
            final(self).ready() == old(self).ready(),
    ;

    /// Adds a suggestion for the current stack frame.
    fn suggest(&mut self, suggest: Code, span: crate::span::Span)
        requires
            old(self).open_frame(),
        ensures
            final(self).open_frame(),
            final(self).ready() == old(self).ready(),
    ;

    /// Adds an expectation for the current stack frame.
    fn expect(&mut self, expect: Code, span: crate::span::Span)
        requires
            old(self).open_frame(),
        ensures
            final(self).open_frame(),
            final(self).ready() == old(self).ready(),
    ;

    /// Keep track of this error without propagating it.
    fn stash(&mut self, err: crate::error::ParserError)
        requires
            old(self).open_frame(),
        ensures
            final(self).open_frame(),
            final(self).ready() == old(self).ready(),
    ;

    /// Write a track for an ok result and close the current frame.
    fn ok<T>(&mut self, rest: crate::span::Span, span: crate::span::Span, val: T) -> (r:
        ParserResult<(crate::span::Span, T)>)
        requires
            old(self).open_frame(),
        ensures
            r matches Ok(p) && p.0 == rest && p.1 == val,
    ;

    /// Write a track for an error and close the current frame.
    fn err<T>(&mut self, err: crate::error::ParserError) -> (r: ParserResult<T>)
        requires
            old(self).open_frame(),
        ensures
            final(self).ready(),
            r is Err,
    ;
}

impl<const TRACK: bool> Tracer for crate::tracer::CTracer<TRACK> {
    open spec fn ready(&self) -> bool {
        self.wf() && self.balanced()
    }

    open spec fn open_frame(&self) -> bool {
        self.wf() && self.depth() >= 1
    }

    fn new() -> (r: Self) {
        crate::tracer::CTracer::<TRACK>::new()
    }

    fn enter(&mut self, func: Code, span: crate::span::Span) {
        crate::tracer::CTracer::<TRACK>::enter(self, func, span)
    }

    fn step(&mut self, step: &'static str, span: crate::span::Span) {
        crate::tracer::CTracer::<TRACK>::step(self, step, span)
    }

    fn debug(&mut self, dbg: String) {
        crate::tracer::CTracer::<TRACK>::debug(self, dbg)
    }

    fn suggest(&mut self, suggest: Code, span: crate::span::Span) {
        crate::tracer::CTracer::<TRACK>::suggest(self, suggest, span)
    }

    fn expect(&mut self, expect: Code, span: crate::span::Span) {
        crate::tracer::CTracer::<TRACK>::expect(self, expect, span)
    }

    fn stash(&mut self, err: crate::error::ParserError) {
        crate::tracer::CTracer::<TRACK>::stash(self, err)
    }

    fn ok<T>(&mut self, rest: crate::span::Span, span: crate::span::Span, val: T) -> (r:
        ParserResult<(crate::span::Span, T)>) {
        crate::tracer::CTracer::<TRACK>::ok(self, rest, span, val)
    }

    fn err<T>(&mut self, err: crate::error::ParserError) -> (r: ParserResult<T>) {
        crate::tracer::CTracer::<TRACK>::err(self, err)
    }
}

impl Tracer for crate::notracer::NoTracer {
    open spec fn ready(&self) -> bool {
        true
    }

    open spec fn open_frame(&self) -> bool {
        true
    }

    fn new() -> (r: Self) {
        crate::notracer::NoTracer::new()
    }

    fn enter(&mut self, func: Code, span: crate::span::Span) {
        crate::notracer::NoTracer::enter(self, func, span)
    }

    fn step(&mut self, step: &'static str, span: crate::span::Span) {
        crate::notracer::NoTracer::step(self, step, span)
    }

    fn debug(&mut self, dbg: String) {
        crate::notracer::NoTracer::debug(self, dbg)
    }

    fn suggest(&mut self, suggest: Code, span: crate::span::Span) {
        crate::notracer::NoTracer::suggest(self, suggest, span)
    }

    fn expect(&mut self, expect: Code, span: crate::span::Span) {
        crate::notracer::NoTracer::expect(self, expect, span)
    }

    fn stash(&mut self, err: crate::error::ParserError) {
        crate::notracer::NoTracer::stash(self, err)
    }

    fn ok<T>(&mut self, rest: crate::span::Span, span: crate::span::Span, val: T) -> (r:
        ParserResult<(crate::span::Span, T)>) {
        crate::notracer::NoTracer::ok(self, rest, span, val)
    }

    fn err<T>(&mut self, err: crate::error::ParserError) -> (r: ParserResult<T>) {
        crate::notracer::NoTracer::err(self, err)
    }
}

/// Adds a span as location and converts a foreign error to a parser error.
pub trait IntoParserResultAddSpan<O>: Sized {
    /// Maps some error and adds the span where the error occurred.
    fn into_with_span(self, span: crate::span::Span) -> ParserResult<O>;
}

/// Adds a code, converts a foreign error to a parser error, and wraps it up
/// in a parser result.
pub trait IntoParserResultAddCode<O>: Sized {
    /// Maps some error with a special error code.
    fn into_with_code(self, code: Code) -> ParserResult<O>;
}

/// Adds a code and converts a foreign error to a parser error.
pub trait IntoParserError: Sized {
    /// Maps some error with a special error code.
    fn into_with_code(self, code: Code) -> crate::error::ParserError;
}

impl<O> IntoParserResultAddCode<O> for ParserResult<O> {
    /// Relabels the error of a failed result, archiving its old code as an
    /// expectation; a success passes through.
    fn into_with_code(self, code: Code) -> (r: ParserResult<O>)
        ensures
            self matches Ok(v) ==> r matches Ok(v2) && v2 == v,
            self matches Err(e) ==> r matches Err(e2) && e2.code == code && e2.span == e.span
                && (e.code != code ==> e2.hints@.len() == e.hints@.len() + 1 && (e2.hints@.last()
                matches crate::error::Hints::Expect(x) && x.code == e.code && x.span == e.span))
                && (e.code == code ==> e2.hints@ == e.hints@),
    {
        match self {
            Ok(v) => Ok(v),
            Err(e) => Err(e.into_code(code)),
        }
    }
}

/// Trait for one static parser.
pub trait Parser<O> {
    /// Function and error code.
    fn id() -> Code;

    /// Possible look-ahead: whether a full parse is worth attempting.
    fn lah(span: &crate::span::Span) -> bool {
        !span.is_empty()
    }

    /// Parses the expression.
    fn parse<T: Tracer>(trace: &mut T, rest: crate::span::Span) -> ParserResult<
        (crate::span::Span, O),
    >;
}

/// Trait for one parser with configuration.
pub trait ConfParser<O> {
    /// Function and error code.
    fn id(&self) -> Code;

    /// Possible look-ahead: whether a full parse is worth attempting.
    fn lah(&self, span: &crate::span::Span) -> bool {
        let _ = span;
        true
    }

    /// Parses the expression.
    fn parse<T: Tracer>(&self, trace: &mut T, rest: crate::span::Span) -> ParserResult<
        (crate::span::Span, O),
    >;
}

/// Treats the result of a parser as optional.
pub trait ParseAsOptional<O>: Sized {
    /// Turns a failure into a successful `None` at the error's span.
    fn optional(self) -> ParserResult<O>;
}

impl<O> ParseAsOptional<(crate::span::Span, Option<O>)> for ParserResult<(crate::span::Span, O)> {
    /// Returns `None` at the error's span for any failure.
    fn optional(self) -> (r: ParserResult<(crate::span::Span, Option<O>)>)
        ensures
            self matches Ok(p) ==> r matches Ok(q) && q.0 == p.0 && q.1 == Some(p.1),
            self matches Err(e) ==> r matches Ok(q) && q.0 == e.span && q.1 is None,
    {
        match self {
            Ok((rest, tok)) => Ok((rest, Some(tok))),
            Err(e) => Ok((e.span, None)),
        }
    }
}

/// Tracks the result of a call to another parser: an error is handed to the
/// tracer, closing the current frame; a success passes through.
pub trait TrackParseResult<O>: Sized {
    /// Tracks the error and marks the current function as finished.
    fn track<T: Tracer>(self, trace: &mut T) -> ParserResult<O>
        requires
            old(trace).open_frame(),
    ;

    /// Translates the error code, then tracks the error and marks the
    /// current function as finished.
    fn track_as<T: Tracer>(self, trace: &mut T, code: Code) -> ParserResult<O>
        requires
            old(trace).open_frame(),
    ;
}

impl<O> TrackParseResult<O> for ParserResult<O> {
    /// A success passes through unchanged; a failure is handed to the
    /// tracer, which closes the current frame and enriches the error.
    fn track<T: Tracer>(self, trace: &mut T) -> (r: ParserResult<O>)
        ensures
            self matches Ok(v) ==> r matches Ok(v2) && v2 == v,
            self is Err ==> r is Err,
    {
        match self {
            Ok(v) => Ok(v),
            Err(e) => trace.err(e),
        }
    }

    /// As `track`, relabeling the error first.
    fn track_as<T: Tracer>(self, trace: &mut T, code: Code) -> (r: ParserResult<O>)
        ensures
            self matches Ok(v) ==> r matches Ok(v2) && v2 == v,
            self is Err ==> r is Err,
    {
        match self {
            Ok(v) => Ok(v),
            Err(e) => trace.err(e.into_code(code)),
        }
    }
}

} // verus!
