//! The error and hint model: a parser error carries the code of the rule that
//! rejected the input, the span where rejection was recognized, and an
//! ordered list of hints: raw matcher diagnostics, expectations and
//! suggestions collected while the error bubbles outward.

use crate::group::{groups_by_offset, groups_match, group_by_line_of, group_by_offset_of, dup_all, line_groups_match, runs_by_line, sorted_by_offset, Anchored};
use crate::span::Span;
use crate::Code;
use std::rc::Rc;
use vstd::prelude::*;

verus! {

/// Width classes for debug rendering.
#[derive(Clone, Copy, PartialEq, Eq, Structural, Debug)]
pub enum DebugWidth {
    /// Debug flag, can be set with width=0.
    Short,
    /// Debug flag, can be set with width=1.
    Medium,
    /// Debug flag, can be set with width=2.
    Long,
}

/// A diagnostic gathered from the elementary matcher: its error-kind number
/// and the span where it gave up.
#[derive(Debug)]
pub struct Nom {
    /// Error kind number of the elementary matcher.
    pub kind: u32,
    /// Span.
    pub span: Span,
}

/// A suggestion: an optional construct considered at `span`, tagged with a
/// snapshot of the code call-stack at the moment it was recorded.
#[derive(Debug)]
pub struct Suggest {
    /// Code for the token.
    pub code: Code,
    /// Span.
    pub span: Span,
    /// Parser call stack at the moment the hint was recorded.
    pub parents: Rc<Vec<Code>>,
}

/// An expectation: a token that would have been accepted at `span`, tagged
/// with a snapshot of the code call-stack at the moment it was recorded.
#[derive(Debug)]
pub struct Expect {
    /// Code for the token.
    pub code: Code,
    /// Span.
    pub span: Span,
    /// Parser call stack at the moment the hint was recorded.
    pub parents: Rc<Vec<Code>>,
}

/// One collected hint of a parser error.
#[derive(Debug)]
pub enum Hints {
    /// Raw diagnostic from the elementary matcher.
    Nom(Nom),
    /// A soft suggestion.
    Suggest(Suggest),
    /// A soft expectation.
    Expect(Expect),
}

impl Clone for Nom {
    /// A clone is equal to the original.
    fn clone(&self) -> (r: Self)
        ensures
            r == *self,
    {
        Nom { kind: self.kind, span: self.span.clone() }
    }
}

impl Clone for Suggest {
    /// A clone is equal to the original.
    fn clone(&self) -> (r: Self)
        ensures
            r == *self,
    {
        Suggest { code: self.code, span: self.span.clone(), parents: Rc::clone(&self.parents) }
    }
}

impl Clone for Expect {
    /// A clone is equal to the original.
    fn clone(&self) -> (r: Self)
        ensures
            r == *self,
    {
        Expect { code: self.code, span: self.span.clone(), parents: Rc::clone(&self.parents) }
    }
}

impl Clone for Hints {
    /// A clone is equal to the original.
    fn clone(&self) -> (r: Self)
        ensures
            r == *self,
    {
        match self {
            Hints::Nom(n) => Hints::Nom(n.clone()),
            Hints::Suggest(s) => Hints::Suggest(s.clone()),
            Hints::Expect(e) => Hints::Expect(e.clone()),
        }
    }
}

/// The expectations of a hint list, in order.
pub open spec fn expects_of(hints: Seq<Hints>) -> Seq<Expect>
    decreases hints.len(),
{
    if hints.len() == 0 {
        Seq::empty()
    } else {
        let rest = expects_of(hints.drop_last());
        match hints.last() {
            Hints::Expect(e) => rest.push(e),
            _ => rest,
        }
    }
}

/// The suggestions of a hint list, in order.
pub open spec fn suggests_of(hints: Seq<Hints>) -> Seq<Suggest>
    decreases hints.len(),
{
    if hints.len() == 0 {
        Seq::empty()
    } else {
        let rest = suggests_of(hints.drop_last());
        match hints.last() {
            Hints::Suggest(s) => rest.push(s),
            _ => rest,
        }
    }
}

/// The raw matcher diagnostics of a hint list, in order.
pub open spec fn noms_of(hints: Seq<Hints>) -> Seq<Nom>
    decreases hints.len(),
{
    if hints.len() == 0 {
        Seq::empty()
    } else {
        let rest = noms_of(hints.drop_last());
        match hints.last() {
            Hints::Nom(n) => rest.push(n),
            _ => rest,
        }
    }
}

/// A hint list without its expectations.
pub open spec fn without_expects(hints: Seq<Hints>) -> Seq<Hints>
    decreases hints.len(),
{
    if hints.len() == 0 {
        Seq::empty()
    } else {
        let rest = without_expects(hints.drop_last());
        if hints.last() is Expect {
            rest
        } else {
            rest.push(hints.last())
        }
    }
}

/// A hint list without its suggestions.
pub open spec fn without_suggests(hints: Seq<Hints>) -> Seq<Hints>
    decreases hints.len(),
{
    if hints.len() == 0 {
        Seq::empty()
    } else {
        let rest = without_suggests(hints.drop_last());
        if hints.last() is Suggest {
            rest
        } else {
            rest.push(hints.last())
        }
    }
}

/// Splitting a hint list splits its expectations.
pub proof fn lemma_expects_of_add(a: Seq<Hints>, b: Seq<Hints>)
    ensures
        expects_of(a + b) == expects_of(a) + expects_of(b),
    decreases b.len(),
{
    if b.len() == 0 {
        assert(a + b =~= a);
        assert(expects_of(a) + expects_of(b) =~= expects_of(a));
    } else {
        assert((a + b).drop_last() =~= a + b.drop_last());
        lemma_expects_of_add(a, b.drop_last());
        match b.last() {
            Hints::Expect(e) => {
                assert(expects_of(a) + expects_of(b) =~= (expects_of(a) + expects_of(
                    b.drop_last(),
                )).push(e));
            },
            _ => {},
        }
    }
}

/// Splitting a hint list splits its suggestions.
pub proof fn lemma_suggests_of_add(a: Seq<Hints>, b: Seq<Hints>)
    ensures
        suggests_of(a + b) == suggests_of(a) + suggests_of(b),
    decreases b.len(),
{
    if b.len() == 0 {
        assert(a + b =~= a);
        assert(suggests_of(a) + suggests_of(b) =~= suggests_of(a));
    } else {
        assert((a + b).drop_last() =~= a + b.drop_last());
        lemma_suggests_of_add(a, b.drop_last());
        match b.last() {
            Hints::Suggest(s) => {
                assert(suggests_of(a) + suggests_of(b) =~= (suggests_of(a) + suggests_of(
                    b.drop_last(),
                )).push(s));
            },
            _ => {},
        }
    }
}

/// Splitting a hint list splits its raw matcher diagnostics.
pub proof fn lemma_noms_of_add(a: Seq<Hints>, b: Seq<Hints>)
    ensures
        noms_of(a + b) == noms_of(a) + noms_of(b),
    decreases b.len(),
{
    if b.len() == 0 {
        assert(a + b =~= a);
        assert(noms_of(a) + noms_of(b) =~= noms_of(a));
    } else {
        assert((a + b).drop_last() =~= a + b.drop_last());
        lemma_noms_of_add(a, b.drop_last());
        match b.last() {
            Hints::Nom(n) => {
                assert(noms_of(a) + noms_of(b) =~= (noms_of(a) + noms_of(b.drop_last())).push(
                    n,
                ));
            },
            _ => {},
        }
    }
}

/// A list of wrapped expectations reads back as itself and holds nothing else.
pub proof fn lemma_of_all_expects(exps: Seq<Expect>)
    ensures
        expects_of(exps.map_values(|e: Expect| Hints::Expect(e))) == exps,
        suggests_of(exps.map_values(|e: Expect| Hints::Expect(e))) == Seq::<Suggest>::empty(),
        noms_of(exps.map_values(|e: Expect| Hints::Expect(e))) == Seq::<Nom>::empty(),
    decreases exps.len(),
{
    let m = exps.map_values(|e: Expect| Hints::Expect(e));
    if exps.len() == 0 {
        assert(m =~= Seq::<Hints>::empty());
        assert(expects_of(m) =~= exps);
    } else {
        lemma_of_all_expects(exps.drop_last());
        assert(m.drop_last() =~= exps.drop_last().map_values(|e: Expect| Hints::Expect(e)));
        assert(m.last() == Hints::Expect(exps.last()));
        assert(expects_of(m) =~= exps);
    }
}

/// A list of wrapped suggestions reads back as itself and holds nothing else.
pub proof fn lemma_of_all_suggests(sugs: Seq<Suggest>)
    ensures
        suggests_of(sugs.map_values(|s: Suggest| Hints::Suggest(s))) == sugs,
        expects_of(sugs.map_values(|s: Suggest| Hints::Suggest(s))) == Seq::<Expect>::empty(),
        noms_of(sugs.map_values(|s: Suggest| Hints::Suggest(s))) == Seq::<Nom>::empty(),
    decreases sugs.len(),
{
    let m = sugs.map_values(|s: Suggest| Hints::Suggest(s));
    if sugs.len() == 0 {
        assert(m =~= Seq::<Hints>::empty());
        assert(suggests_of(m) =~= sugs);
    } else {
        lemma_of_all_suggests(sugs.drop_last());
        assert(m.drop_last() =~= sugs.drop_last().map_values(|s: Suggest| Hints::Suggest(s)));
        assert(m.last() == Hints::Suggest(sugs.last()));
        assert(suggests_of(m) =~= sugs);
    }
}

/// Error of the parser: the code of the rule that rejected the input, the
/// span where rejection was recognized, and the collected hints.
#[derive(Debug)]
pub struct ParserError {
    /// Error code.
    pub code: Code,
    /// Error span.
    pub span: Span,
    /// Whether a tracer frame has already observed this error.
    pub tracing: bool,
    /// Collected hints.
    pub hints: Vec<Hints>,
}

impl ParserError {
    /// New error with no hints.
    pub fn new(code: Code, span: Span) -> (r: Self)
        ensures
            r.code == code,
            r.span == span,
            !r.tracing,
            r.hints@ == Seq::<Hints>::empty(),
    {
        Self { code, span, tracing: false, hints: Vec::new() }
    }

    /// New error that carries its own code as a suggestion too.
    pub fn new_suggest(code: Code, span: Span) -> (r: Self)
        ensures
            r.code == code,
            r.span == span,
            !r.tracing,
            r.hints@.len() == 1,
            r.hints@[0] matches Hints::Suggest(s) && s.code == code && s.span == span
                && s.parents@ == Seq::<Code>::empty(),
    {
        let mut hints: Vec<Hints> = Vec::new();
        let parents: Rc<Vec<Code>> = Rc::new(Vec::new());
        hints.push(Hints::Suggest(Suggest { code, span: span.clone(), parents }));
        Self { code, span, tracing: false, hints }
    }

    /// New error that records a diagnostic of the elementary matcher.
    pub fn new_with_nom(code: Code, nom_kind: u32, span: Span) -> (r: Self)
        ensures
            r.code == code,
            r.span == span,
            !r.tracing,
            r.hints@.len() == 1,
            r.hints@[0] matches Hints::Nom(n) && n.kind == nom_kind && n.span == span,
    {
        let mut hints: Vec<Hints> = Vec::new();
        hints.push(Hints::Nom(Nom { kind: nom_kind, span: span.clone() }));
        Self { code, span, tracing: false, hints }
    }

    /// The error for input that ended before the grammar was satisfied.
    pub fn parse_incomplete(span: Span) -> (r: Self)
        ensures
            r.code == Code::ParseIncomplete,
            r.span == span,
            !r.tracing,
            r.hints@ == Seq::<Hints>::empty(),
    {
        Self::new(Code::ParseIncomplete, span)
    }

    /// Re-labels the error. When the new code differs from the old one, the
    /// old code is archived as an expectation at the same span first, so the
    /// chain of relabeling survives as the error bubbles outward.
    pub fn into_code(self, code: Code) -> (r: Self)
        ensures
            r.code == code,
            r.span == self.span,
            r.tracing == self.tracing,
            self.code != code ==> {
                &&& r.hints@.len() == self.hints@.len() + 1
                &&& r.hints@.subrange(0, self.hints@.len() as int) == self.hints@
                &&& r.hints@.last() matches Hints::Expect(e) && e.code == self.code && e.span
                    == self.span && e.parents@ == Seq::<Code>::empty()
            },
            self.code == code ==> r.hints@ == self.hints@,
    {
        let mut r = self;
        if !code_eq(r.code, code) {
            let old_code = r.code;
            let sp = r.span.clone();
            r.add_expect(old_code, sp);
        }
        r.code = code;
        proof {
            if self.code != code {
                assert(r.hints@.subrange(0, self.hints@.len() as int) =~= self.hints@);
            }
        }
        r
    }

    /// Whether the error code is one of the three reserved sentinel kinds.
    pub fn is_special(&self) -> (r: bool)
        ensures
            r == self.code.is_special_spec(),
    {
        self.code.is_special()
    }

    /// Whether the error code names a grammar rule.
    pub fn is_parser(&self) -> (r: bool)
        ensures
            r == !self.code.is_special_spec(),
    {
        !self.code.is_special()
    }

    /// Whether any raw matcher diagnostic carries this kind number.
    pub open spec fn is_kind_spec(self, kind: u32) -> bool {
        exists|i: int|
            0 <= i < self.hints@.len() && ((#[trigger] self.hints@[i]) matches Hints::Nom(n)
                && n.kind == kind)
    }

    /// Whether any raw matcher diagnostic carries this kind number.
    pub fn is_kind(&self, kind: u32) -> (r: bool)
        ensures
            r == self.is_kind_spec(kind),
    {
        let n = self.hints.len();
        let mut i: usize = 0;
        while i < n
            invariant
                0 <= i <= n == self.hints@.len(),
                forall|j: int|
                    0 <= j < i ==> !((#[trigger] self.hints@[j]) matches Hints::Nom(nm)
                        && nm.kind == kind),
            decreases n - i,
        {
            match &self.hints[i] {
                Hints::Nom(nm) => {
                    if nm.kind == kind {
                        return true;
                    }
                },
                _ => {},
            }
            i = i + 1;
        }
        false
    }

    /// Whether any expectation carries this code.
    pub open spec fn is_expected_spec(self, code: Code) -> bool {
        exists|i: int|
            0 <= i < self.hints@.len() && ((#[trigger] self.hints@[i]) matches Hints::Expect(e)
                && e.code == code)
    }

    /// Whether any expectation carries this code.
    pub fn is_expected(&self, code: Code) -> (r: bool)
        ensures
            r == self.is_expected_spec(code),
    {
        let n = self.hints.len();
        let mut i: usize = 0;
        while i < n
            invariant
                0 <= i <= n == self.hints@.len(),
                forall|j: int|
                    0 <= j < i ==> !((#[trigger] self.hints@[j]) matches Hints::Expect(e)
                        && e.code == code),
            decreases n - i,
        {
            match &self.hints[i] {
                Hints::Expect(e) => {
                    if code_eq(e.code, code) {
                        return true;
                    }
                },
                _ => {},
            }
            i = i + 1;
        }
        false
    }

    /// Whether `code` was relabeled into `parent`: either the error's own
    /// code is `parent` and the newest expectation carries `code`, or two
    /// adjacent expectations carry `code` directly before `parent`.
    pub open spec fn is_expected2_spec(self, code: Code, parent: Code) -> bool {
        let ex = expects_of(self.hints@);
        ||| (self.code == parent && ex.len() >= 1 && ex.last().code == code)
        ||| exists|i: int| 1 <= i < ex.len() && (#[trigger] ex[i]).code == parent && ex[i - 1].code == code
    }

    /// Finds two consecutive expect values: `code` directly below `parent`
    /// in the chain of relabeling.
    pub fn is_expected2(&self, code: Code, parent: Code) -> (r: bool)
        ensures
            r == self.is_expected2_spec(code, parent),
    {
        let ex = self.expect_as_ref();
        let n = ex.len();
        if code_eq(self.code, parent) && n >= 1 {
            if code_eq(ex[n - 1].code, code) {
                return true;
            }
        }
        let mut i: usize = 1;
        while i < n
            invariant
                1 <= i <= n || (n == 0 && i == 1),
                n == expects_of(self.hints@).len(),
                ex@ == expects_of(self.hints@),
                forall|j: int|
                    1 <= j < i ==> !((#[trigger] ex@[j]).code == parent && ex@[j - 1].code
                        == code),
            decreases n - i,
        {
            if code_eq(ex[i].code, parent) && code_eq(ex[i - 1].code, code) {
                return true;
            }
            i = i + 1;
        }
        false
    }

    /// The raw matcher diagnostics, in order.
    pub fn nom(&self) -> (r: Vec<Nom>)
        ensures
            r@ == noms_of(self.hints@),
    {
        let n = self.hints.len();
        let mut r: Vec<Nom> = Vec::new();
        let mut i: usize = 0;
        while i < n
            invariant
                0 <= i <= n == self.hints@.len(),
                r@ == noms_of(self.hints@.subrange(0, i as int)),
            decreases n - i,
        {
            proof {
                assert(self.hints@.subrange(0, i + 1).drop_last() =~= self.hints@.subrange(
                    0,
                    i as int,
                ));
                assert(self.hints@.subrange(0, i + 1).last() == self.hints@[i as int]);
            }
            match &self.hints[i] {
                Hints::Nom(nm) => {
                    r.push(nm.clone());
                },
                _ => {},
            }
            i = i + 1;
        }
        proof {
            assert(self.hints@.subrange(0, n as int) =~= self.hints@);
        }
        r
    }

    /// Adds an expectation for `code` at `span`.
    pub fn add_expect(&mut self, code: Code, span: Span)
        ensures
            final(self).code == old(self).code,
            final(self).span == old(self).span,
            final(self).tracing == old(self).tracing,
            final(self).hints@.len() == old(self).hints@.len() + 1,
            final(self).hints@.subrange(0, old(self).hints@.len() as int) == old(self).hints@,
            final(self).hints@.last() matches Hints::Expect(e) && e.code == code && e.span == span
                && e.parents@ == Seq::<Code>::empty(),
    {
        let parents: Rc<Vec<Code>> = Rc::new(Vec::new());
        self.hints.push(Hints::Expect(Expect { code, span, parents }));
        proof {
            assert(self.hints@.subrange(0, old(self).hints@.len() as int) =~= old(self).hints@);
        }
    }

    /// Adds a suggestion for `code` at `span`.
    pub fn add_suggest(&mut self, code: Code, span: Span)
        ensures
            final(self).code == old(self).code,
            final(self).span == old(self).span,
            final(self).tracing == old(self).tracing,
            final(self).hints@.len() == old(self).hints@.len() + 1,
            final(self).hints@.subrange(0, old(self).hints@.len() as int) == old(self).hints@,
            final(self).hints@.last() matches Hints::Suggest(s) && s.code == code && s.span == span
                && s.parents@ == Seq::<Code>::empty(),
    {
        let parents: Rc<Vec<Code>> = Rc::new(Vec::new());
        self.hints.push(Hints::Suggest(Suggest { code, span, parents }));
        proof {
            assert(self.hints@.subrange(0, old(self).hints@.len() as int) =~= old(self).hints@);
        }
    }

    /// Appends expectations, keeping their order and tags.
    pub fn append_expect(&mut self, exp: Vec<Expect>)
        ensures
            final(self).code == old(self).code,
            final(self).span == old(self).span,
            final(self).tracing == old(self).tracing,
            final(self).hints@ == old(self).hints@ + exp@.map_values(|e: Expect| Hints::Expect(e)),
            expects_of(final(self).hints@) == expects_of(old(self).hints@) + exp@,
            suggests_of(final(self).hints@) == suggests_of(old(self).hints@),
            noms_of(final(self).hints@) == noms_of(old(self).hints@),
    {
        let ghost all: Seq<Expect> = exp@;
        let mut exp = exp;
        let ghost done: int = 0;
        while exp.len() > 0
            invariant
                0 <= done <= all.len(),
                exp@ == all.subrange(done, all.len() as int),
                self.code == old(self).code,
                self.span == old(self).span,
                self.tracing == old(self).tracing,
                self.hints@ == old(self).hints@ + all.subrange(0, done).map_values(
                    |e: Expect| Hints::Expect(e),
                ),
            decreases exp.len(),
        {
            let e = exp.remove(0);
            proof {
                assert(e == all[done]);
            }
            self.hints.push(Hints::Expect(e));
            proof {
                done = done + 1;
                assert(exp@ =~= all.subrange(done, all.len() as int));
                assert(self.hints@ =~= old(self).hints@ + all.subrange(0, done).map_values(
                    |e: Expect| Hints::Expect(e),
                ));
            }
        }
        proof {
            assert(all.subrange(0, all.len() as int) =~= all);
            lemma_expects_of_add(old(self).hints@, all.map_values(|e: Expect| Hints::Expect(e)));
            lemma_suggests_of_add(old(self).hints@, all.map_values(|e: Expect| Hints::Expect(e)));
            lemma_noms_of_add(old(self).hints@, all.map_values(|e: Expect| Hints::Expect(e)));
            lemma_of_all_expects(all);
        }
    }

    /// Appends suggestions, keeping their order and tags.
    pub fn append_suggest(&mut self, sug: Vec<Suggest>)
        ensures
            final(self).code == old(self).code,
            final(self).span == old(self).span,
            final(self).tracing == old(self).tracing,
            final(self).hints@ == old(self).hints@ + sug@.map_values(
                |s: Suggest| Hints::Suggest(s),
            ),
            suggests_of(final(self).hints@) == suggests_of(old(self).hints@) + sug@,
            expects_of(final(self).hints@) == expects_of(old(self).hints@),
            noms_of(final(self).hints@) == noms_of(old(self).hints@),
    {
        let ghost all: Seq<Suggest> = sug@;
        let mut sug = sug;
        let ghost done: int = 0;
        while sug.len() > 0
            invariant
                0 <= done <= all.len(),
                sug@ == all.subrange(done, all.len() as int),
                self.code == old(self).code,
                self.span == old(self).span,
                self.tracing == old(self).tracing,
                self.hints@ == old(self).hints@ + all.subrange(0, done).map_values(
                    |s: Suggest| Hints::Suggest(s),
                ),
            decreases sug.len(),
        {
            let s = sug.remove(0);
            proof {
                assert(s == all[done]);
            }
            self.hints.push(Hints::Suggest(s));
            proof {
                done = done + 1;
                assert(sug@ =~= all.subrange(done, all.len() as int));
                assert(self.hints@ =~= old(self).hints@ + all.subrange(0, done).map_values(
                    |s: Suggest| Hints::Suggest(s),
                ));
            }
        }
        proof {
            assert(all.subrange(0, all.len() as int) =~= all);
            lemma_expects_of_add(old(self).hints@, all.map_values(|s: Suggest| Hints::Suggest(s)));
            lemma_suggests_of_add(old(self).hints@, all.map_values(|s: Suggest| Hints::Suggest(s)));
            lemma_noms_of_add(old(self).hints@, all.map_values(|s: Suggest| Hints::Suggest(s)));
            lemma_of_all_suggests(all);
        }
    }

    /// Copies of the collected expectations, in order.
    pub fn expect_as_ref(&self) -> (r: Vec<Expect>)
        ensures
            r@ == expects_of(self.hints@),
    {
        let n = self.hints.len();
        let mut r: Vec<Expect> = Vec::new();
        let mut i: usize = 0;
        while i < n
            invariant
                0 <= i <= n == self.hints@.len(),
                r@ == expects_of(self.hints@.subrange(0, i as int)),
            decreases n - i,
        {
            proof {
                assert(self.hints@.subrange(0, i + 1).drop_last() =~= self.hints@.subrange(
                    0,
                    i as int,
                ));
                assert(self.hints@.subrange(0, i + 1).last() == self.hints@[i as int]);
            }
            match &self.hints[i] {
                Hints::Expect(e) => {
                    r.push(e.clone());
                },
                _ => {},
            }
            i = i + 1;
        }
        proof {
            assert(self.hints@.subrange(0, n as int) =~= self.hints@);
        }
        r
    }

    /// Copies of the collected suggestions, in order.
    pub fn suggest_as_ref(&self) -> (r: Vec<Suggest>)
        ensures
            r@ == suggests_of(self.hints@),
    {
        let n = self.hints.len();
        let mut r: Vec<Suggest> = Vec::new();
        let mut i: usize = 0;
        while i < n
            invariant
                0 <= i <= n == self.hints@.len(),
                r@ == suggests_of(self.hints@.subrange(0, i as int)),
            decreases n - i,
        {
            proof {
                assert(self.hints@.subrange(0, i + 1).drop_last() =~= self.hints@.subrange(
                    0,
                    i as int,
                ));
                assert(self.hints@.subrange(0, i + 1).last() == self.hints@[i as int]);
            }
            match &self.hints[i] {
                Hints::Suggest(s) => {
                    r.push(s.clone());
                },
                _ => {},
            }
            i = i + 1;
        }
        proof {
            assert(self.hints@.subrange(0, n as int) =~= self.hints@);
        }
        r
    }

    /// Extracts the collected expectations: they leave the hint list and are
    /// handed back, in order; the other hints stay, in order.
    pub fn to_expect(&mut self) -> (r: Vec<Expect>)
        ensures
            final(self).code == old(self).code,
            final(self).span == old(self).span,
            final(self).tracing == old(self).tracing,
            r@ == expects_of(old(self).hints@),
            final(self).hints@ == without_expects(old(self).hints@),
    {
        let n = self.hints.len();
        let mut taken: Vec<Hints> = Vec::new();
        std::mem::swap(&mut taken, &mut self.hints);
        let mut r: Vec<Expect> = Vec::new();
        let mut i: usize = 0;
        while i < n
            invariant
                0 <= i <= n == taken@.len(),
                self.code == old(self).code,
                self.span == old(self).span,
                self.tracing == old(self).tracing,
                taken@ == old(self).hints@,
                r@ == expects_of(taken@.subrange(0, i as int)),
                self.hints@ == without_expects(taken@.subrange(0, i as int)),
            decreases n - i,
        {
            proof {
                assert(taken@.subrange(0, i + 1).drop_last() =~= taken@.subrange(0, i as int));
                assert(taken@.subrange(0, i + 1).last() == taken@[i as int]);
            }
            match &taken[i] {
                Hints::Expect(e) => {
                    r.push(e.clone());
                },
                h => {
                    self.hints.push(h.clone());
                },
            }
            i = i + 1;
        }
        proof {
            assert(taken@.subrange(0, n as int) =~= taken@);
        }
        r
    }

    /// Extracts the collected suggestions: they leave the hint list and are
    /// handed back, in order; the other hints stay, in order.
    pub fn to_suggest(&mut self) -> (r: Vec<Suggest>)
        ensures
            final(self).code == old(self).code,
            final(self).span == old(self).span,
            final(self).tracing == old(self).tracing,
            r@ == suggests_of(old(self).hints@),
            final(self).hints@ == without_suggests(old(self).hints@),
    {
        let n = self.hints.len();
        let mut taken: Vec<Hints> = Vec::new();
        std::mem::swap(&mut taken, &mut self.hints);
        let mut r: Vec<Suggest> = Vec::new();
        let mut i: usize = 0;
        while i < n
            invariant
                0 <= i <= n == taken@.len(),
                self.code == old(self).code,
                self.span == old(self).span,
                self.tracing == old(self).tracing,
                taken@ == old(self).hints@,
                r@ == suggests_of(taken@.subrange(0, i as int)),
                self.hints@ == without_suggests(taken@.subrange(0, i as int)),
            decreases n - i,
        {
            proof {
                assert(taken@.subrange(0, i + 1).drop_last() =~= taken@.subrange(0, i as int));
                assert(taken@.subrange(0, i + 1).last() == taken@[i as int]);
            }
            match &taken[i] {
                Hints::Suggest(s) => {
                    r.push(s.clone());
                },
                h => {
                    self.hints.push(h.clone());
                },
            }
            i = i + 1;
        }
        proof {
            assert(taken@.subrange(0, n as int) =~= taken@);
        }
        r
    }

    /// Extracts all the collected expectations and suggestions.
    pub fn to_results(&mut self) -> (r: (Vec<Expect>, Vec<Suggest>))
        ensures
            final(self).code == old(self).code,
            final(self).span == old(self).span,
            final(self).tracing == old(self).tracing,
            r.0@ == expects_of(old(self).hints@),
            r.1@ == suggests_of(old(self).hints@),
    {
        let e = self.to_expect();
        proof {
            lemma_suggests_of_without_expects(old(self).hints@);
        }
        let s = self.to_suggest();
        (e, s)
    }
}

/// Removing the expectations leaves the suggestions untouched.
pub proof fn lemma_suggests_of_without_expects(hints: Seq<Hints>)
    ensures
        suggests_of(without_expects(hints)) == suggests_of(hints),
    decreases hints.len(),
{
    if hints.len() > 0 {
        lemma_suggests_of_without_expects(hints.drop_last());
        match hints.last() {
            Hints::Expect(_) => {},
            h => {
                let w = without_expects(hints.drop_last()).push(h);
                assert(w.drop_last() =~= without_expects(hints.drop_last()));
                assert(w.last() == h);
            },
        }
    }
}

impl Anchored for Expect {
    open spec fn anchor(&self) -> Span {
        self.span
    }

    fn anchor_offset(&self) -> (r: usize) {
        self.span.location_offset()
    }

    fn anchor_line(&self) -> (r: u32) {
        self.span.location_line()
    }

    fn dup(&self) -> (r: Self) {
        self.clone()
    }
}

impl Anchored for Suggest {
    open spec fn anchor(&self) -> Span {
        self.span
    }

    fn anchor_offset(&self) -> (r: usize) {
        self.span.location_offset()
    }

    fn anchor_line(&self) -> (r: u32) {
        self.span.location_line()
    }

    fn dup(&self) -> (r: Self) {
        self.clone()
    }
}

impl Expect {
    /// The expectations grouped by the offset of their span, starting with
    /// the largest offset; each group keeps insertion order.
    pub fn group_by_offset(vec: Vec<Expect>) -> (r: Vec<(usize, Vec<Expect>)>)
        ensures
            groups_match(r@, groups_by_offset(vec@)),
    {
        group_by_offset_of(vec)
    }

    /// As `group_by_offset`, on a borrowed list.
    pub fn group_by_offset_owned(vec: &Vec<Expect>) -> (r: Vec<(usize, Vec<Expect>)>)
        ensures
            groups_match(r@, groups_by_offset(vec@)),
    {
        group_by_offset_of(dup_all(vec))
    }

    /// The expectations grouped by the line of their span: sorted by
    /// descending offset, then split into maximal runs of one line.
    pub fn group_by_line(vec: Vec<Expect>) -> (r: Vec<(u32, Vec<Expect>)>)
        ensures
            line_groups_match(r@, runs_by_line(sorted_by_offset(vec@))),
    {
        group_by_line_of(vec)
    }

    /// As `group_by_line`, on a borrowed list.
    pub fn group_by_line_owned(vec: &Vec<Expect>) -> (r: Vec<(u32, Vec<Expect>)>)
        ensures
            line_groups_match(r@, runs_by_line(sorted_by_offset(vec@))),
    {
        group_by_line_of(dup_all(vec))
    }
}

impl Suggest {
    /// The suggestions grouped by the offset of their span, starting with
    /// the largest offset; each group keeps insertion order.
    pub fn group_by_offset(vec: Vec<Suggest>) -> (r: Vec<(usize, Vec<Suggest>)>)
        ensures
            groups_match(r@, groups_by_offset(vec@)),
    {
        group_by_offset_of(vec)
    }

    /// As `group_by_offset`, on a borrowed list.
    pub fn group_by_offset_owned(vec: &Vec<Suggest>) -> (r: Vec<(usize, Vec<Suggest>)>)
        ensures
            groups_match(r@, groups_by_offset(vec@)),
    {
        group_by_offset_of(dup_all(vec))
    }

    /// The suggestions grouped by the line of their span: sorted by
    /// descending offset, then split into maximal runs of one line.
    pub fn group_by_line(vec: Vec<Suggest>) -> (r: Vec<(u32, Vec<Suggest>)>)
        ensures
            line_groups_match(r@, runs_by_line(sorted_by_offset(vec@))),
    {
        group_by_line_of(vec)
    }

    /// As `group_by_line`, on a borrowed list.
    pub fn group_by_line_owned(vec: &Vec<Suggest>) -> (r: Vec<(u32, Vec<Suggest>)>)
        ensures
            line_groups_match(r@, runs_by_line(sorted_by_offset(vec@))),
    {
        group_by_line_of(dup_all(vec))
    }
}

impl ParserError {
    /// The collected expectations grouped by offset, largest offset first.
    pub fn expect_grouped_by_offset(&self) -> (r: Vec<(usize, Vec<Expect>)>)
        ensures
            groups_match(r@, groups_by_offset(expects_of(self.hints@))),
    {
        Expect::group_by_offset(self.expect_as_ref())
    }

    /// The collected expectations grouped by line, largest offset first.
    pub fn expect_grouped_by_line(&self) -> (r: Vec<(u32, Vec<Expect>)>)
        ensures
            line_groups_match(r@, runs_by_line(sorted_by_offset(expects_of(self.hints@)))),
    {
        Expect::group_by_line(self.expect_as_ref())
    }

    /// The collected suggestions grouped by offset, largest offset first.
    pub fn suggest_grouped_by_offset(&self) -> (r: Vec<(usize, Vec<Suggest>)>)
        ensures
            groups_match(r@, groups_by_offset(suggests_of(self.hints@))),
    {
        Suggest::group_by_offset(self.suggest_as_ref())
    }

    /// The collected suggestions grouped by line, largest offset first.
    pub fn suggest_grouped_by_line(&self) -> (r: Vec<(u32, Vec<Suggest>)>)
        ensures
            line_groups_match(r@, runs_by_line(sorted_by_offset(suggests_of(self.hints@)))),
    {
        Suggest::group_by_line(self.suggest_as_ref())
    }
}

/// Whether two codes are the same.
fn code_eq(a: Code, b: Code) -> (r: bool)
    ensures
        r == (a == b),
{
    a == b
}

impl vstd::std_specs::convert::FromSpecImpl<Option<usize>> for DebugWidth {
    open spec fn obeys_from_spec() -> bool {
        true
    }

    open spec fn from_spec(v: Option<usize>) -> Self {
        if v == Some(1usize) {
            DebugWidth::Medium
        } else if v == Some(2usize) {
            DebugWidth::Long
        } else {
            DebugWidth::Short
        }
    }
}

impl From<Option<usize>> for DebugWidth {
    /// Debug width from an optional width number: 1 is medium, 2 is long,
    /// anything else is short.
    fn from(value: Option<usize>) -> (r: Self) {
        match value {
            Some(1usize) => DebugWidth::Medium,
            Some(2usize) => DebugWidth::Long,
            _ => DebugWidth::Short,
        }
    }
}

/// Combined error holding both the parse failure and the tracer that
/// collected the parse's events.
pub struct TracerError<const TRACK: bool> {
    /// The parse failure.
    pub parse: ParserError,
    /// The tracer as it stood when the parse ended.
    pub trace: crate::tracer::CTracer<TRACK>,
}

} // verus!
