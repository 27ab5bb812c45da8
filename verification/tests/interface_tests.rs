use iparse::error::ParserError;
use iparse::notracer::NoTracer;
use iparse::rtracer::RTracer;
use iparse::span::Span;
use iparse::tracer::CTracer;
use iparse::{Code, IntoParserResultAddCode, ParseAsOptional, ParserResult, TrackParseResult, Tracer};

const C_A: Code = Code::Grammar(1);
const C_B: Code = Code::Grammar(2);
const C_ROOT: Code = Code::Grammar(20);

fn span_of(text: &str) -> Span {
    Span::new(text.as_bytes().to_vec())
}

/// One terminal written against the shared tracer interface, so that any of
/// the three strategies can run it.
fn terminal_a<T: Tracer>(t: &mut T, input: Span) -> ParserResult<(Span, Span)> {
    t.enter(C_A, input.clone());
    if input.span_len() >= 1 && input.fragment()[0] == b'A' {
        let (matched, rest) = input.split_at(1);
        t.ok(rest, matched.clone(), matched)
    } else {
        t.err(ParserError::new(C_A, input))
    }
}

/// A rule that calls the terminal and tracks its outcome.
fn rule<T: Tracer>(t: &mut T, input: Span) -> ParserResult<(Span, Span)> {
    t.enter(C_ROOT, input.clone());
    let (rest, matched) = match terminal_a(t, input).track(t) {
        Ok(v) => v,
        Err(e) => return Err(e),
    };
    t.ok(rest, matched.clone(), matched)
}

#[test]
fn the_three_strategies_are_interchangeable() {
    let mut full: CTracer<true> = Tracer::new();
    let mut replay: RTracer = Tracer::new();
    let mut none: NoTracer = Tracer::new();
    for input in ["AB", "XB"] {
        let r1 = rule(&mut full, span_of(input));
        let r2 = rule(&mut replay, span_of(input));
        let r3 = rule(&mut none, span_of(input));
        assert_eq!(r1.is_ok(), r2.is_ok());
        assert_eq!(r2.is_ok(), r3.is_ok());
    }
    assert!(!full.track.is_empty());
    assert!(replay.track.is_empty());
}

#[test]
fn track_encloses_the_failure() {
    let mut t: CTracer<true> = CTracer::new();
    let e = rule(&mut t, span_of("XB")).unwrap_err();
    // the terminal's frame and the rule's frame have both resolved
    assert!(t.func.is_empty());
    assert_eq!(e.code, C_A);
}

#[test]
fn track_as_relabels() {
    let mut t: CTracer<true> = CTracer::new();
    t.enter(C_ROOT, span_of("XB"));
    let r: ParserResult<(Span, Span)> = terminal_a(&mut t, span_of("XB"));
    let e = r.track_as(&mut t, C_B).unwrap_err();
    assert_eq!(e.code, C_B);
    assert!(e.is_expected(C_A));
}

#[test]
fn optional_turns_failure_into_none() {
    let bad: ParserResult<(Span, Span)> = Err(ParserError::new(C_A, span_of("XB")));
    let r = bad.optional().unwrap();
    assert!(r.1.is_none());
    assert_eq!(r.0.location_offset(), 0);

    let s = span_of("AB");
    let (matched, rest) = s.split_at(1);
    let good: ParserResult<(Span, Span)> = Ok((rest, matched));
    let r = good.optional().unwrap();
    assert!(r.1.is_some());
}

#[test]
fn into_with_code_relabels_failures_only() {
    let bad: ParserResult<(Span, Span)> = Err(ParserError::new(C_A, span_of("XB")));
    let e = bad.into_with_code(C_B).unwrap_err();
    assert_eq!(e.code, C_B);
    assert!(e.is_expected(C_A));

    let s = span_of("AB");
    let (matched, rest) = s.split_at(1);
    let good: ParserResult<(Span, Span)> = Ok((rest, matched));
    assert!(good.into_with_code(C_B).is_ok());
}
