use iparse::error::{Expect, Hints, ParserError, Suggest};
use iparse::span::Span;
use iparse::Code;
use std::rc::Rc;

fn span_of(text: &str) -> Span {
    Span::new(text.as_bytes().to_vec())
}

fn at(buf: &Rc<Vec<u8>>, offset: usize, line: u32) -> Span {
    Span { buf: Rc::clone(buf), offset, line, len: 1 }
}

#[test]
fn new_error_is_bare() {
    let s = span_of("abc");
    let e = ParserError::new(Code::Grammar(7), s);
    assert_eq!(e.code, Code::Grammar(7));
    assert!(!e.tracing);
    assert!(e.hints.is_empty());
    assert!(e.is_parser());
    assert!(!e.is_special());
}

#[test]
fn new_suggest_records_itself() {
    let s = span_of("abc");
    let e = ParserError::new_suggest(Code::Grammar(3), s);
    assert_eq!(e.hints.len(), 1);
    match &e.hints[0] {
        Hints::Suggest(sg) => {
            assert_eq!(sg.code, Code::Grammar(3));
            assert_eq!(sg.span.location_offset(), 0);
        }
        _ => panic!("expected a suggestion hint"),
    }
}

#[test]
fn new_with_nom_records_the_kind() {
    let s = span_of("abc");
    let e = ParserError::new_with_nom(Code::NomError, 42, s);
    assert!(e.is_special());
    assert!(e.is_kind(42));
    assert!(!e.is_kind(41));
    assert_eq!(e.nom().len(), 1);
    assert_eq!(e.nom()[0].kind, 42);
}

#[test]
fn parse_incomplete_uses_the_sentinel() {
    let s = span_of("abc");
    let e = ParserError::parse_incomplete(s);
    assert_eq!(e.code, Code::ParseIncomplete);
    assert!(e.is_special());
}

#[test]
fn into_code_archives_the_old_code() {
    let s = span_of("abc");
    let e = ParserError::new(Code::Grammar(1), s);
    let e = e.into_code(Code::Grammar(2));
    assert_eq!(e.code, Code::Grammar(2));
    assert!(e.is_expected(Code::Grammar(1)));
    let e = e.into_code(Code::Grammar(2));
    // relabeling to the same code adds nothing
    assert_eq!(e.hints.len(), 1);
    let e = e.into_code(Code::Grammar(3));
    assert_eq!(e.code, Code::Grammar(3));
    // the chain of relabeling: 1 directly below 2
    assert!(e.is_expected2(Code::Grammar(1), Code::Grammar(2)));
    // and 2 is the newest expectation under the error's own code 3
    assert!(e.is_expected2(Code::Grammar(2), Code::Grammar(3)));
    assert!(!e.is_expected2(Code::Grammar(2), Code::Grammar(1)));
}

#[test]
fn add_and_extract_hints() {
    let s = span_of("abcdef");
    let mut e = ParserError::new(Code::Grammar(1), s.clone());
    e.add_expect(Code::Grammar(2), s.clone());
    e.add_suggest(Code::Grammar(3), s.clone());
    e.add_expect(Code::Grammar(4), s.clone());
    assert_eq!(e.hints.len(), 3);

    let exp = e.expect_as_ref();
    assert_eq!(exp.len(), 2);
    assert_eq!(exp[0].code, Code::Grammar(2));
    assert_eq!(exp[1].code, Code::Grammar(4));
    let sug = e.suggest_as_ref();
    assert_eq!(sug.len(), 1);
    assert_eq!(sug[0].code, Code::Grammar(3));

    let taken = e.to_expect();
    assert_eq!(taken.len(), 2);
    assert_eq!(e.hints.len(), 1);
    let taken2 = e.to_suggest();
    assert_eq!(taken2.len(), 1);
    assert!(e.hints.is_empty());
}

#[test]
fn to_results_splits_both_kinds() {
    let s = span_of("abcdef");
    let mut e = ParserError::new(Code::Grammar(1), s.clone());
    e.add_suggest(Code::Grammar(5), s.clone());
    e.add_expect(Code::Grammar(6), s.clone());
    let (exp, sug) = e.to_results();
    assert_eq!(exp.len(), 1);
    assert_eq!(exp[0].code, Code::Grammar(6));
    assert_eq!(sug.len(), 1);
    assert_eq!(sug[0].code, Code::Grammar(5));
}

#[test]
fn append_keeps_order() {
    let s = span_of("abcdef");
    let mut e = ParserError::new(Code::Grammar(1), s.clone());
    let extra = vec![
        Expect { code: Code::Grammar(8), span: s.clone(), parents: Rc::new(vec![]) },
        Expect { code: Code::Grammar(9), span: s.clone(), parents: Rc::new(vec![]) },
    ];
    e.append_expect(extra);
    let sug = vec![Suggest { code: Code::Grammar(10), span: s.clone(), parents: Rc::new(vec![]) }];
    e.append_suggest(sug);
    let exp = e.expect_as_ref();
    assert_eq!(exp.len(), 2);
    assert_eq!(exp[0].code, Code::Grammar(8));
    assert_eq!(exp[1].code, Code::Grammar(9));
    assert_eq!(e.suggest_as_ref().len(), 1);
}

#[test]
fn grouping_by_offset_ten_hints_three_offsets() {
    // ten expectations recorded at three distinct offsets must yield exactly
    // three groups, ordered by descending offset, each keeping insertion
    // order of its members
    let buf = Rc::new("0123456789".as_bytes().to_vec());
    let offsets = [5usize, 2, 9, 5, 9, 2, 2, 9, 5, 9];
    let mut hints: Vec<Expect> = Vec::new();
    for (i, off) in offsets.iter().enumerate() {
        hints.push(Expect {
            code: Code::Grammar(i as u32),
            span: at(&buf, *off, 1),
            parents: Rc::new(vec![]),
        });
    }
    let groups = Expect::group_by_offset(hints);
    assert_eq!(groups.len(), 3);
    assert_eq!(groups[0].0, 9);
    assert_eq!(groups[1].0, 5);
    assert_eq!(groups[2].0, 2);
    let codes = |g: &Vec<Expect>| g.iter().map(|e| e.code).collect::<Vec<_>>();
    assert_eq!(
        codes(&groups[0].1),
        vec![Code::Grammar(2), Code::Grammar(4), Code::Grammar(7), Code::Grammar(9)]
    );
    assert_eq!(
        codes(&groups[1].1),
        vec![Code::Grammar(0), Code::Grammar(3), Code::Grammar(8)]
    );
    assert_eq!(
        codes(&groups[2].1),
        vec![Code::Grammar(1), Code::Grammar(5), Code::Grammar(6)]
    );
}

#[test]
fn grouping_by_line_merges_runs() {
    let buf = Rc::new("ab\ncd\nef".as_bytes().to_vec());
    // offsets 0,1 lie on line 1; 3,4 on line 2; 6 on line 3
    let mk = |off: usize, line: u32, code: u32| Suggest {
        code: Code::Grammar(code),
        span: at(&buf, off, line),
        parents: Rc::new(vec![]),
    };
    let hints = vec![mk(0, 1, 0), mk(6, 3, 1), mk(3, 2, 2), mk(4, 2, 3), mk(1, 1, 4)];
    let groups = Suggest::group_by_line(hints);
    // sorted by descending offset: 6@3, 4@2, 3@2, 1@1, 0@1 -> runs 3, 2, 1
    assert_eq!(groups.len(), 3);
    assert_eq!(groups[0].0, 3);
    assert_eq!(groups[1].0, 2);
    assert_eq!(groups[2].0, 1);
    assert_eq!(groups[1].1.len(), 2);
    assert_eq!(groups[1].1[0].code, Code::Grammar(3));
    assert_eq!(groups[1].1[1].code, Code::Grammar(2));
    assert_eq!(groups[2].1.len(), 2);
    assert_eq!(groups[2].1[0].code, Code::Grammar(4));
    assert_eq!(groups[2].1[1].code, Code::Grammar(0));
}

#[test]
fn grouping_on_the_error() {
    let buf = Rc::new("0123456789".as_bytes().to_vec());
    let mut e = ParserError::new(Code::Grammar(1), at(&buf, 0, 1));
    e.add_expect(Code::Grammar(2), at(&buf, 4, 1));
    e.add_expect(Code::Grammar(3), at(&buf, 7, 1));
    e.add_expect(Code::Grammar(4), at(&buf, 4, 1));
    let groups = e.expect_grouped_by_offset();
    assert_eq!(groups.len(), 2);
    assert_eq!(groups[0].0, 7);
    assert_eq!(groups[1].0, 4);
    assert_eq!(groups[1].1.len(), 2);
    e.add_suggest(Code::Grammar(9), at(&buf, 2, 1));
    let sgroups = e.suggest_grouped_by_offset();
    assert_eq!(sgroups.len(), 1);
    assert_eq!(sgroups[0].0, 2);
    let lgroups = e.expect_grouped_by_line();
    assert_eq!(lgroups.len(), 1);
    assert_eq!(lgroups[0].0, 1);
    assert_eq!(lgroups[0].1.len(), 3);
    let slgroups = e.suggest_grouped_by_line();
    assert_eq!(slgroups.len(), 1);
}

#[test]
fn code_sentinels() {
    assert!(Code::NomError.is_special());
    assert!(Code::NomFailure.is_special());
    assert!(Code::ParseIncomplete.is_special());
    assert!(!Code::Grammar(0).is_special());
}

#[test]
fn grouping_nothing_yields_nothing() {
    let groups = Expect::group_by_offset(Vec::new());
    assert!(groups.is_empty());
    let groups = Suggest::group_by_line(Vec::new());
    assert!(groups.is_empty());
}

#[test]
fn grouping_equal_offsets_is_one_group() {
    let buf = Rc::new("0123".as_bytes().to_vec());
    let hints: Vec<Expect> = (0..4u32)
        .map(|i| Expect { code: Code::Grammar(i), span: at(&buf, 2, 1), parents: Rc::new(vec![]) })
        .collect();
    let groups = Expect::group_by_offset(hints);
    assert_eq!(groups.len(), 1);
    assert_eq!(groups[0].0, 2);
    assert_eq!(groups[0].1.len(), 4);
    for (i, e) in groups[0].1.iter().enumerate() {
        assert_eq!(e.code, Code::Grammar(i as u32));
    }
}
