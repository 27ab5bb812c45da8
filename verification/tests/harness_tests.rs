use iparse::error::ParserError;
use iparse::span::Span;
use iparse::test::{
    CheckDump, CheckTrace, Dump, RTrace, Test, TestFail, TestNoTracer, TestSpan, TestSpanPair,
    Timing, Trace,
};
use iparse::{Code, ParserResult};

const C_A: Code = Code::Grammar(1);
const C_B: Code = Code::Grammar(2);

fn span_of(text: &str) -> Span {
    Span::new(text.as_bytes().to_vec())
}

fn match_one(input: Span) -> ParserResult<(Span, Span)> {
    if input.span_len() >= 1 && input.fragment()[0] == b'A' {
        let (matched, rest) = input.split_at(1);
        Ok((rest, matched))
    } else {
        Err(ParserError::new(C_A, input))
    }
}

#[test]
fn run_records_the_result() {
    let mut t = Test::run(span_of("AB"), span_of("AB"), match_one, TestNoTracer {});
    assert!(!t.fail);
    t.okok();
    assert!(!t.fail);
    t.rest(b"B");
    assert!(!t.fail);
    assert!(!t.q(&CheckDump {}));
    assert!(!t.q(&CheckTrace {}));
}

#[test]
fn failed_checks_set_the_flag() {
    let mut t = Test::run(span_of("XB"), span_of("XB"), match_one, TestNoTracer {});
    t.okok();
    assert!(t.fail);
    assert!(t.q(&CheckDump {}));
}

#[test]
fn err_and_expect_checks() {
    let mut t = Test::run(span_of("XB"), span_of("XB"), match_one, TestNoTracer {});
    t.errerr();
    assert!(!t.fail);
    t.err(C_A);
    assert!(!t.fail);
    t.err(C_B);
    assert!(t.fail);

    let mut t = Test::run(span_of("XB"), span_of("XB"), match_one, TestNoTracer {});
    t.expect(C_A);
    // a bare error expects nothing yet
    assert!(t.fail);
}

#[test]
fn expect2_follows_relabeling() {
    let run = |input: Span| -> ParserResult<(Span, Span)> {
        match match_one(input) {
            Ok(v) => Ok(v),
            Err(e) => Err(e.into_code(C_B)),
        }
    };
    let mut t = Test::run(span_of("XB"), span_of("XB"), run, TestNoTracer {});
    t.expect(C_A);
    assert!(!t.fail);
    t.expect2(C_A, C_B);
    assert!(!t.fail);
    t.expect2(C_B, C_A);
    assert!(t.fail);
}

#[test]
fn flag_and_fail_are_sticky() {
    let mut t = Test::run(span_of("AB"), span_of("AB"), match_one, TestNoTracer {});
    t.flag_fail();
    assert!(t.fail);
    t.okok();
    assert!(t.fail);
    let mut t2 = Test::run(span_of("AB"), span_of("AB"), match_one, TestNoTracer {});
    t2.fail();
    assert!(t2.fail);
}

#[test]
fn permissive_reports_accept_everything() {
    let mut t = Test::run(span_of("XB"), span_of("XB"), match_one, TestNoTracer {});
    t.okok();
    assert!(t.fail);
    assert!(!t.q(&Dump {}));
    assert!(!t.q(&Trace {}));
    assert!(!t.q(&RTrace {}));
    assert!(!t.q(&Timing(1)));
}

#[test]
fn span_checks_on_results() {
    let s = span_of("AB");
    let (matched, rest) = s.split_at(1);
    assert!(matched.ok(0, b"A"));
    assert!(!matched.ok(1, b"A"));
    assert!(!matched.ok(0, b"B"));
    assert!((rest.clone(), matched.clone()).ok(0, b"A"));

    let r: ParserResult<(Span, Span)> = Ok((rest.clone(), matched.clone()));
    assert!(TestSpan::ok(&r, 0, b"A"));
    assert!(!TestFail::err(&r, C_A));

    let bad: ParserResult<(Span, Span)> = Err(ParserError::new(C_A, span_of("AB")));
    assert!(!TestSpan::ok(&bad, 0, b"A"));
    assert!(TestFail::err(&bad, C_A));
    assert!(!TestFail::err(&bad, C_B));
    let sentinel: ParserResult<(Span, Span)> = Err(ParserError::new(Code::NomError, span_of("A")));
    assert!(!TestFail::err(&sentinel, Code::NomError));
}

#[test]
fn span_pair_checks() {
    let s = span_of("AB");
    let (matched, rest) = s.split_at(1);
    let some: ParserResult<(Span, (Option<Span>, Span))> =
        Ok((rest.clone(), (Some(matched.clone()), rest.clone())));
    assert!(some.ok_0(0, b"A"));
    assert!(!some.ok_0_isnone());
    assert!(some.ok_1(1, b"B"));
    let none: ParserResult<(Span, (Option<Span>, Span))> =
        Ok((rest.clone(), (None, matched.clone())));
    assert!(none.ok_0_isnone());
    assert!(!none.ok_0(0, b"A"));
    assert!(none.ok_1(0, b"A"));
}
