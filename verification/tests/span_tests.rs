use iparse::debug::{restrict, restrict_n};
use iparse::error::DebugWidth;
use iparse::span::{
    get_lines_after, get_lines_before, get_unoffsetted_span, span_union, span_union_checked,
    span_union_opt, Span,
};

fn span_of(text: &str) -> Span {
    Span::new(text.as_bytes().to_vec())
}

fn check_line(s: &Span, offset: usize, line: u32, frag: &str) {
    assert_eq!(s.location_offset(), offset);
    assert_eq!(s.location_line(), line);
    assert_eq!(s.fragment(), frag.as_bytes().to_vec());
}

#[test]
fn test_lines_after() {
    let span0 = span_of("1234\n5678\nabcd\nefgh\n");
    let (_s1, s0) = span0.split_at(7);
    assert_eq!(s0.location_offset(), 7);
    assert_eq!(s0.location_line(), 2);

    let r = get_lines_after(&s0, 0);
    assert_eq!(r.len(), 1);
    check_line(&r[0], 5, 2, "5678");

    let r = get_lines_after(&s0, 1);
    assert_eq!(r.len(), 2);
    check_line(&r[1], 10, 3, "abcd");

    let r = get_lines_after(&s0, 2);
    assert_eq!(r.len(), 3);
    check_line(&r[2], 15, 4, "efgh");

    let r = get_lines_after(&s0, 3);
    assert_eq!(r.len(), 4);
    check_line(&r[3], 20, 5, "");

    let r = get_lines_after(&s0, 4);
    assert_eq!(r.len(), 4);

    let span0 = span_of("1234\n5678\nabcd\nefgh");
    let (_s1, s0) = span0.split_at(16);
    assert_eq!(s0.location_line(), 4);
    let r = get_lines_after(&s0, 0);
    assert_eq!(r.len(), 1);
    check_line(&r[0], 15, 4, "efgh");
    let r = get_lines_after(&s0, 1);
    assert_eq!(r.len(), 1);
    let r = get_lines_after(&s0, 2);
    assert_eq!(r.len(), 1);
}

#[test]
fn test_lines_before() {
    let span0 = span_of("1234\n5678\nabcd\nefgh\n");
    let (s1, s0) = span0.split_at(12);
    assert_eq!(s0.location_offset(), 12);
    assert_eq!(s0.location_line(), 3);

    let r = get_lines_before(&s0, 0);
    assert_eq!(r.len(), 1);
    check_line(&r[0], 10, 3, "abcd");

    let r = get_lines_before(&s0, 1);
    assert_eq!(r.len(), 2);
    check_line(&r[0], 5, 2, "5678");
    check_line(&r[1], 10, 3, "abcd");

    let r = get_lines_before(&s0, 2);
    assert_eq!(r.len(), 3);
    check_line(&r[0], 0, 1, "1234");
    check_line(&r[1], 5, 2, "5678");
    check_line(&r[2], 10, 3, "abcd");

    let r = get_lines_before(&s0, 3);
    assert_eq!(r.len(), 3);
    let r = get_lines_before(&s0, 4);
    assert_eq!(r.len(), 3);

    let r = get_lines_before(&s1, 4);
    assert_eq!(r.len(), 1);
    check_line(&r[0], 0, 1, "1234");
}

#[test]
fn test_union_ok() {
    let span = span_of("1234 test");
    let _other = span_of("5678 xxxx");

    let (number, rest) = span.split_at(4);
    let (_gap, name) = rest.split_at(1);
    assert_eq!(number.fragment(), b"1234".to_vec());
    assert_eq!(name.fragment(), b"test".to_vec());

    let u = span_union(&number, &name);
    assert_eq!(u.location_offset(), 0);
    assert_eq!(u.location_line(), 1);
    assert_eq!(u.fragment(), b"1234 test".to_vec());
}

#[test]
fn test_union_order() {
    let span = span_of("1234 test");
    let _other = span_of("5678 xxxx");

    let (number, rest) = span.split_at(4);
    let (_gap, name) = rest.split_at(1);

    // reversed offsets: the guarded union must refuse, never hand back a
    // wrong region
    assert!(span_union_checked(&name, &number).is_none());
    assert!(span_union_checked(&number, &name).is_some());
}

#[test]
fn test_union_other_1() {
    let span = span_of("1234 test");
    let other = span_of("5678 xxxx");

    let (_number, rest) = span.split_at(4);
    let (_gap, name) = rest.split_at(1);

    // spans from different buffers must be refused
    assert!(span_union_checked(&other, &name).is_none());
}

#[test]
fn test_union_other_2() {
    let span = span_of("1234 test");
    let other = span_of("5678 xxxx");

    let (_number, rest) = span.split_at(4);
    let (_gap, name) = rest.split_at(1);

    assert!(span_union_checked(&name, &other).is_none());
}

#[test]
fn union_round_trip() {
    // splitting anywhere and uniting the parts reproduces the whole span
    let s = span_of("ab\ncd\nef");
    for n in 0..=8usize {
        let (p, q) = s.split_at(n);
        let u = span_union(&p, &q);
        assert_eq!(u.location_offset(), s.location_offset());
        assert_eq!(u.location_line(), s.location_line());
        assert_eq!(u.fragment(), s.fragment());
    }
}

#[test]
fn union_associative() {
    let s = span_of("aa bb cc dd");
    let (a, rest) = s.split_at(2);
    let (b, rest2) = rest.split_at(4);
    let (c, _) = rest2.split_at(3);
    let left = span_union(&span_union(&a, &b), &c);
    let right = span_union(&a, &span_union(&b, &c));
    assert_eq!(left.location_offset(), right.location_offset());
    assert_eq!(left.location_line(), right.location_line());
    assert_eq!(left.span_len(), right.span_len());
    assert_eq!(left.fragment(), right.fragment());
}

#[test]
fn union_opt_none_keeps_second() {
    let s = span_of("hello");
    let (a, b) = s.split_at(2);
    let kept = span_union_opt(None, &b);
    assert_eq!(kept.location_offset(), 2);
    assert_eq!(kept.fragment(), b"llo".to_vec());
    let joined = span_union_opt(Some(&a), &b);
    assert_eq!(joined.location_offset(), 0);
    assert_eq!(joined.fragment(), b"hello".to_vec());
}

#[test]
fn split_counts_lines() {
    let s = span_of("a\nb\nc");
    let (p, q) = s.split_at(4);
    assert_eq!(p.location_line(), 1);
    assert_eq!(q.location_offset(), 4);
    assert_eq!(q.location_line(), 3);
    assert_eq!(q.fragment(), b"c".to_vec());
}

#[test]
fn unoffsetted_covers_the_region() {
    let s = span_of("12\n45");
    let (_p, q) = s.split_at(3);
    let w = get_unoffsetted_span(&q);
    assert_eq!(w.location_offset(), 0);
    assert_eq!(w.location_line(), 1);
    assert_eq!(w.fragment(), b"12\n45".to_vec());
}

#[test]
fn restricted_fragments() {
    let s = span_of("abcdefgh");
    assert_eq!(restrict_n(4, &s), b"abcd...".to_vec());
    assert_eq!(restrict_n(100, &s), b"abcdefgh...".to_vec());
    assert_eq!(restrict(DebugWidth::Short, &s), b"abcdefgh...".to_vec());
    let long = span_of("0123456789012345678901234567890123456789");
    assert_eq!(restrict(DebugWidth::Short, &long).len(), 23);
    assert_eq!(restrict(DebugWidth::Medium, &long).len(), 43);
    assert_eq!(restrict(DebugWidth::Long, &long).len(), 43);
}

#[test]
fn empty_buffer_span() {
    let s = span_of("");
    assert_eq!(s.span_len(), 0);
    assert!(s.is_empty());
    let (p, q) = s.split_at(0);
    let u = span_union(&p, &q);
    assert_eq!(u.span_len(), 0);
    assert_eq!(u.location_line(), 1);
    assert_eq!(u.fragment(), Vec::<u8>::new());
}

#[test]
fn lines_on_a_single_line() {
    let s = span_of("x");
    let r = get_lines_after(&s, 5);
    assert_eq!(r.len(), 1);
    check_line(&r[0], 0, 1, "x");
    let r = get_lines_before(&s, 5);
    assert_eq!(r.len(), 1);
    check_line(&r[0], 0, 1, "x");
}
