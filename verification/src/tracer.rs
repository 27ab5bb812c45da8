//! The full-tracking tracer: an owned stack of per-call-frame hint
//! accumulators that mirrors the parser's own call stack, plus an append-only
//! log of typed events for replay and debugging.
//!
//! A frame is pushed by `enter` and resolved exactly once: `ok` discards the
//! frame's expectations and merges its suggestions into the enclosing frame
//! (at the outermost level the suggestion frame is kept, so suggestions
//! survive a successful parse and can still be read out); `err` folds both
//! lists into the propagating error.

use crate::error::{expects_of, suggests_of, noms_of, lemma_suggests_of_without_expects, Expect, ParserError, Suggest};
use crate::span::Span;
use crate::{Code, ParserResult};
use std::rc::Rc;
use vstd::prelude::*;

verus! {

/// How an `ExpectTrack` or `SuggestTrack` was used.
#[derive(Clone, Copy, Debug, PartialEq, Eq, Structural)]
pub enum Usage {
    /// Newly created, currently in use.
    Track,
    /// Forgotten.
    Drop,
    /// Moved to a parser error.
    Use,
}

/// One expectation accumulator per stack frame.
pub struct ExpectTrack {
    /// Function of the frame.
    pub func: Code,
    /// Usage flag.
    pub usage: Usage,
    /// Collected expectation hints.
    pub list: Vec<Expect>,
    /// The caller chain at the moment the frame was pushed.
    pub parents: Rc<Vec<Code>>,
}

/// One suggestion accumulator per stack frame.
pub struct SuggestTrack {
    /// Function of the frame.
    pub func: Code,
    /// Usage flag.
    pub usage: Usage,
    /// Collected suggestion hints.
    pub list: Vec<Suggest>,
    /// The caller chain at the moment the frame was pushed.
    pub parents: Rc<Vec<Code>>,
}

/// Log entry: a parser function was entered.
pub struct EnterTrack {
    /// Function.
    pub func: Code,
    /// Span.
    pub span: Span,
    /// Parser call stack.
    pub parents: Rc<Vec<Code>>,
}

/// Log entry: a step inside a parser function.
pub struct StepTrack {
    /// Function.
    pub func: Code,
    /// Step description.
    pub step: &'static str,
    /// Span.
    pub span: Span,
    /// Parser call stack.
    pub parents: Rc<Vec<Code>>,
}

/// Log entry: free-form debug information.
pub struct DebugTrack {
    /// Function.
    pub func: Code,
    /// Debug info.
    pub dbg: String,
    /// Parser call stack.
    pub parents: Rc<Vec<Code>>,
}

/// Log entry: a parser function returned successfully.
pub struct OkTrack {
    /// Function.
    pub func: Code,
    /// Matched span.
    pub span: Span,
    /// Remaining span.
    pub rest: Span,
    /// Parser call stack.
    pub parents: Rc<Vec<Code>>,
}

/// Log entry: a parser function failed.
pub struct ErrTrack {
    /// Function.
    pub func: Code,
    /// Span of the error.
    pub span: Span,
    /// Code of the error.
    pub code: Code,
    /// Parser call stack.
    pub parents: Rc<Vec<Code>>,
}

/// Log entry: a parser function was left.
pub struct ExitTrack {
    /// Function.
    pub func: Code,
    /// Parser call stack.
    pub parents: Rc<Vec<Code>>,
}

/// One entry of the parse trace log.
pub enum Track {
    /// A parser function was entered.
    Enter(EnterTrack),
    /// A step inside a parser function.
    Step(StepTrack),
    /// Free-form debug information.
    Debug(DebugTrack),
    /// Expectations were recorded, dropped or used.
    Expect(ExpectTrack),
    /// Suggestions were recorded, dropped or used.
    Suggest(SuggestTrack),
    /// A parser function returned successfully.
    Okay(OkTrack),
    /// A parser function failed.
    Error(ErrTrack),
    /// A parser function was left.
    Exit(ExitTrack),
}

impl Track {
    /// The function a log entry belongs to.
    pub open spec fn func_spec(self) -> Code {
        match self {
            Track::Enter(v) => v.func,
            Track::Step(v) => v.func,
            Track::Debug(v) => v.func,
            Track::Expect(v) => v.func,
            Track::Suggest(v) => v.func,
            Track::Okay(v) => v.func,
            Track::Error(v) => v.func,
            Track::Exit(v) => v.func,
        }
    }

    /// The call stack a log entry was recorded under.
    pub open spec fn parents_spec(self) -> Seq<Code> {
        match self {
            Track::Enter(v) => v.parents@,
            Track::Step(v) => v.parents@,
            Track::Debug(v) => v.parents@,
            Track::Expect(v) => v.parents@,
            Track::Suggest(v) => v.parents@,
            Track::Okay(v) => v.parents@,
            Track::Error(v) => v.parents@,
            Track::Exit(v) => v.parents@,
        }
    }

    /// Returns the func value for each branch.
    pub fn func(&self) -> (r: Code)
        ensures
            r == self.func_spec(),
    {
        match self {
            Track::Enter(v) => v.func,
            Track::Step(v) => v.func,
            Track::Debug(v) => v.func,
            Track::Expect(v) => v.func,
            Track::Suggest(v) => v.func,
            Track::Okay(v) => v.func,
            Track::Error(v) => v.func,
            Track::Exit(v) => v.func,
        }
    }

    /// Returns the parser call stack for each branch.
    pub fn parents(&self) -> (r: &Rc<Vec<Code>>)
        ensures
            r@ == self.parents_spec(),
    {
        match self {
            Track::Enter(v) => &v.parents,
            Track::Step(v) => &v.parents,
            Track::Debug(v) => &v.parents,
            Track::Expect(v) => &v.parents,
            Track::Suggest(v) => &v.parents,
            Track::Okay(v) => &v.parents,
            Track::Error(v) => &v.parents,
            Track::Exit(v) => &v.parents,
        }
    }
}

/// Whether `post` extends `pre`, and does not even do that when the log is
/// switched off.
pub open spec fn track_extended(tracking: bool, pre: Seq<Track>, post: Seq<Track>) -> bool {
    &&& pre.len() <= post.len()
    &&& post.subrange(0, pre.len() as int) == pre
    &&& !tracking ==> post == pre
}

/// A snapshot of the current call stack.
fn snapshot(func: &Vec<Code>) -> (r: Rc<Vec<Code>>)
    ensures
        r@ == func@,
{
    let mut v: Vec<Code> = Vec::new();
    let n = func.len();
    let mut i: usize = 0;
    while i < n
        invariant
            0 <= i <= n == func@.len(),
            v@ == func@.subrange(0, i as int),
        decreases n - i,
    {
        v.push(func[i]);
        i = i + 1;
        proof {
            assert(v@ =~= func@.subrange(0, i as int));
        }
    }
    proof {
        assert(v@ =~= func@);
    }
    Rc::new(v)
}

/// The full-tracking tracer. `TRACK` switches the event log: with `false`
/// only the frame stacks are maintained, which is cheaper when only the
/// final error's hints matter.
pub struct CTracer<const TRACK: bool> {
    /// Function call stack.
    pub func: Vec<Code>,
    /// One shared snapshot of the call stack per frame: hints reference the
    /// innermost snapshot instead of copying the chain for every hint.
    pub chain: Vec<Rc<Vec<Code>>>,
    /// Collected log entries.
    pub track: Vec<Track>,
    /// Suggestion accumulators, one per frame.
    pub suggest: Vec<SuggestTrack>,
    /// Expectation accumulators, one per frame.
    pub expect: Vec<ExpectTrack>,
}

impl<const TRACK: bool> CTracer<TRACK> {
    /// The depth of the function-code stack.
    pub open spec fn depth(self) -> nat {
        self.func@.len()
    }

    /// Whether all three stacks have the same depth.
    pub open spec fn balanced(self) -> bool {
        self.suggest@.len() == self.func@.len()
    }

    /// The frame stacks mirror the function-code stack: one expectation frame
    /// per function, each tagged with its caller chain. The suggestion stack
    /// does the same, except that after the outermost frame has resolved
    /// successfully one suggestion frame survives for reading out.
    pub open spec fn wf(self) -> bool {
        &&& self.expect@.len() == self.func@.len()
        &&& forall|i: int|
            0 <= i < self.func@.len() ==> (#[trigger] self.expect@[i]).func == self.func@[i]
                && self.expect@[i].parents@ == self.func@.subrange(0, i)
        &&& (self.suggest@.len() == self.func@.len() || (self.func@.len() == 0 && self.suggest@.len()
            == 1))
        &&& forall|i: int|
            0 <= i < self.func@.len() && i < self.suggest@.len() ==> (#[trigger] self.suggest@[i]).func
                == self.func@[i] && self.suggest@[i].parents@ == self.func@.subrange(0, i)
        &&& (self.func@.len() == 0 && self.suggest@.len() == 1 ==> self.suggest@[0].parents@
            == Seq::<Code>::empty())
        &&& self.chain@.len() == self.func@.len()
        &&& forall|i: int|
            0 <= i < self.func@.len() ==> (#[trigger] self.chain@[i])@ == self.func@.subrange(
                0,
                i + 1,
            )
    }

    /// How `enter` changes the tracer: one frame pushed on each stack, tagged
    /// with the caller chain, and an enter event logged.
    pub open spec fn enter_rel(pre: Self, post: Self, func: Code, span: Span) -> bool {
        &&& post.func@ == pre.func@.push(func)
        &&& post.expect@.len() == pre.expect@.len() + 1
        &&& post.expect@.subrange(0, pre.expect@.len() as int) == pre.expect@
        &&& post.expect@.last().func == func
        &&& post.expect@.last().usage == Usage::Track
        &&& post.expect@.last().list@ == Seq::<Expect>::empty()
        &&& post.expect@.last().parents@ == pre.func@
        &&& post.suggest@.len() == pre.suggest@.len() + 1
        &&& post.suggest@.subrange(0, pre.suggest@.len() as int) == pre.suggest@
        &&& post.suggest@.last().func == func
        &&& post.suggest@.last().usage == Usage::Track
        &&& post.suggest@.last().list@ == Seq::<Suggest>::empty()
        &&& post.suggest@.last().parents@ == pre.func@
        &&& track_extended(TRACK, pre.track@, post.track@)
        &&& TRACK ==> post.track@.len() == pre.track@.len() + 1 && (post.track@.last()
            matches Track::Enter(t) && t.func == func && t.span == span && t.parents@
            == post.func@)
    }

    /// How `suggest` changes the tracer: one suggestion hint appended to the
    /// innermost frame, tagged with the call stack at the moment of the call.
    pub open spec fn suggest_rel(pre: Self, post: Self, code: Code, span: Span) -> bool {
        &&& post.func@ == pre.func@
        &&& post.chain@ == pre.chain@
        &&& post.expect@ == pre.expect@
        &&& post.track@ == pre.track@
        &&& post.suggest@.len() == pre.suggest@.len()
        &&& post.suggest@.subrange(0, pre.suggest@.len() - 1) == pre.suggest@.subrange(
            0,
            pre.suggest@.len() - 1,
        )
        &&& post.suggest@.last().func == pre.suggest@.last().func
        &&& post.suggest@.last().usage == pre.suggest@.last().usage
        &&& post.suggest@.last().parents == pre.suggest@.last().parents
        &&& post.suggest@.last().list@.len() == pre.suggest@.last().list@.len() + 1
        &&& post.suggest@.last().list@.subrange(0, pre.suggest@.last().list@.len() as int)
            == pre.suggest@.last().list@
        &&& post.suggest@.last().list@.last().code == code
        &&& post.suggest@.last().list@.last().span == span
        &&& post.suggest@.last().list@.last().parents@ == pre.func@
    }

    /// How recording one expectation changes the tracer: one hint appended to
    /// the innermost expectation frame, tagged with the call stack at the
    /// moment of the call, and a single-hint event logged.
    pub open spec fn expect_rel(pre: Self, post: Self, code: Code, span: Span) -> bool {
        &&& post.func@ == pre.func@
        &&& post.chain@ == pre.chain@
        &&& post.suggest@ == pre.suggest@
        &&& post.expect@.len() == pre.expect@.len()
        &&& post.expect@.subrange(0, pre.expect@.len() - 1) == pre.expect@.subrange(
            0,
            pre.expect@.len() - 1,
        )
        &&& post.expect@.last().func == pre.expect@.last().func
        &&& post.expect@.last().usage == pre.expect@.last().usage
        &&& post.expect@.last().parents == pre.expect@.last().parents
        &&& post.expect@.last().list@.len() == pre.expect@.last().list@.len() + 1
        &&& post.expect@.last().list@.subrange(0, pre.expect@.last().list@.len() as int)
            == pre.expect@.last().list@
        &&& post.expect@.last().list@.last().code == code
        &&& post.expect@.last().list@.last().span == span
        &&& post.expect@.last().list@.last().parents@ == pre.func@
        &&& track_extended(TRACK, pre.track@, post.track@)
        &&& TRACK ==> post.track@.len() == pre.track@.len() + 1 && (post.track@.last()
            matches Track::Expect(t) && t.func == pre.func@.last() && t.usage == Usage::Track
            && t.list@.len() == 1 && t.list@[0].code == code && t.list@[0].span == span
            && t.parents@ == pre.func@)
    }

    /// How `stash` changes the tracer: the retired error's own code and span
    /// become a new expectation of the current frame, then the error's
    /// expectation and suggestion hints are spliced into the current frame's
    /// accumulators; its raw matcher diagnostics are dropped.
    pub open spec fn stash_rel(pre: Self, post: Self, err: ParserError) -> bool {
        let pe = pre.expect@.last().list@;
        let ps = pre.suggest@.last().list@;
        &&& post.func@ == pre.func@
        &&& post.chain@ == pre.chain@
        &&& post.expect@.len() == pre.expect@.len()
        &&& post.expect@.subrange(0, pre.expect@.len() - 1) == pre.expect@.subrange(
            0,
            pre.expect@.len() - 1,
        )
        &&& post.expect@.last().func == pre.expect@.last().func
        &&& post.expect@.last().usage == pre.expect@.last().usage
        &&& post.expect@.last().parents == pre.expect@.last().parents
        &&& post.expect@.last().list@.len() == pe.len() + 1 + expects_of(err.hints@).len()
        &&& post.expect@.last().list@.subrange(0, pe.len() as int) == pe
        &&& post.expect@.last().list@[pe.len() as int].code == err.code
        &&& post.expect@.last().list@[pe.len() as int].span == err.span
        &&& post.expect@.last().list@[pe.len() as int].parents@ == pre.func@
        &&& post.expect@.last().list@.subrange(
            pe.len() as int + 1,
            post.expect@.last().list@.len() as int,
        ) == expects_of(err.hints@)
        &&& post.suggest@.len() == pre.suggest@.len()
        &&& post.suggest@.subrange(0, pre.suggest@.len() - 1) == pre.suggest@.subrange(
            0,
            pre.suggest@.len() - 1,
        )
        &&& post.suggest@.last().func == pre.suggest@.last().func
        &&& post.suggest@.last().usage == pre.suggest@.last().usage
        &&& post.suggest@.last().parents == pre.suggest@.last().parents
        &&& post.suggest@.last().list@ == ps + suggests_of(err.hints@)
        &&& track_extended(TRACK, pre.track@, post.track@)
    }

    /// How `ok` changes the tracer: the expectation frame is popped and
    /// discarded; the suggestion frame is popped and merged into the
    /// enclosing frame when one exists, else kept; the function is popped.
    pub open spec fn ok_rel(pre: Self, post: Self) -> bool {
        &&& post.func@ == pre.func@.drop_last()
        &&& post.expect@ == pre.expect@.drop_last()
        &&& (if pre.suggest@.len() >= 2 {
            &&& post.suggest@.len() == pre.suggest@.len() - 1
            &&& post.suggest@.subrange(0, pre.suggest@.len() - 2) == pre.suggest@.subrange(
                0,
                pre.suggest@.len() - 2,
            )
            &&& post.suggest@.last().func == pre.suggest@[pre.suggest@.len() - 2].func
            &&& post.suggest@.last().usage == pre.suggest@[pre.suggest@.len() - 2].usage
            &&& post.suggest@.last().parents == pre.suggest@[pre.suggest@.len() - 2].parents
            &&& post.suggest@.last().list@ == pre.suggest@[pre.suggest@.len() - 2].list@
                + pre.suggest@.last().list@
        } else {
            post.suggest@ == pre.suggest@
        })
        &&& track_extended(TRACK, pre.track@, post.track@)
        &&& TRACK ==> post.track@.len() >= pre.track@.len() + 2 && (post.track@[pre.track@.len() as int]
            matches Track::Okay(t) && t.func == pre.func@.last()) && (post.track@.last()
            matches Track::Exit(t) && t.func == pre.func@.last())
    }

    /// How `err` enriches the propagating error: when the error is seen for
    /// the first time its own code and span are recorded as an expectation of
    /// the current frame first; then the frame's expectations and suggestions
    /// are folded into the error's hint list, and the frames are popped.
    pub open spec fn err_rel(pre: Self, post: Self, e_in: ParserError, e_out: ParserError) -> bool {
        let guard: int = if !e_in.tracing {
            1
        } else {
            0
        };
        let k = expects_of(e_in.hints@).len() as int;
        let m = pre.expect@.last().list@.len() as int;
        let ex = expects_of(e_out.hints@);
        &&& post.func@ == pre.func@.drop_last()
        &&& post.expect@ == pre.expect@.drop_last()
        &&& post.suggest@ == pre.suggest@.drop_last()
        &&& e_out.code == e_in.code
        &&& e_out.span == e_in.span
        &&& e_out.tracing
        &&& noms_of(e_out.hints@) == noms_of(e_in.hints@)
        &&& suggests_of(e_out.hints@) == suggests_of(e_in.hints@) + pre.suggest@.last().list@
        &&& ex.len() == k + m + guard
        &&& ex.subrange(0, k) == expects_of(e_in.hints@)
        &&& ex.subrange(k, k + m) == pre.expect@.last().list@
        &&& (!e_in.tracing ==> ex.last().code == e_in.code && ex.last().span == e_in.span
            && ex.last().parents@ == pre.func@)
        &&& track_extended(TRACK, pre.track@, post.track@)
        &&& TRACK ==> post.track@.len() >= pre.track@.len() + 2 && (post.track@[post.track@.len()
            - 2] matches Track::Error(t) && t.func == pre.func@.last() && t.code == e_out.code
            && t.span == e_out.span) && (post.track@.last() matches Track::Exit(t) && t.func
            == pre.func@.last())
    }

    /// A fresh tracer: empty code stack, empty frame stacks, empty log.
    pub fn new() -> (r: Self)
        ensures
            r.wf(),
            r.balanced(),
            r.depth() == 0,
            r.func@ == Seq::<Code>::empty(),
            r.track@ == Seq::<Track>::empty(),
            r.suggest@ == Seq::<SuggestTrack>::empty(),
            r.expect@ == Seq::<ExpectTrack>::empty(),
            r.chain@ == Seq::<Rc<Vec<Code>>>::empty(),
    {
        Self {
            func: Vec::new(),
            chain: Vec::new(),
            track: Vec::new(),
            suggest: Vec::new(),
            expect: Vec::new(),
        }
    }

    /// Enter a parser function: pushes the code, one empty expectation frame
    /// and one empty suggestion frame, each tagged with the caller chain.
    pub fn enter(&mut self, func: Code, span: Span)
        requires
            old(self).wf(),
            old(self).balanced(),
        ensures
            final(self).wf(),
            final(self).balanced(),
            final(self).depth() == old(self).depth() + 1,
            Self::enter_rel(*old(self), *final(self), func, span),
    {
        let parents = snapshot(&self.func);
        self.func.push(func);
        let full = snapshot(&self.func);
        self.chain.push(full);
        self.suggest.push(
            SuggestTrack {
                func,
                usage: Usage::Track,
                list: Vec::new(),
                parents: Rc::clone(&parents),
            },
        );
        self.expect.push(
            ExpectTrack { func, usage: Usage::Track, list: Vec::new(), parents: Rc::clone(&parents) },
        );
        if TRACK {
            let tparents = Rc::clone(&self.chain[self.chain.len() - 1]);
            self.track.push(Track::Enter(EnterTrack { func, span, parents: tparents }));
        }
        proof {
            assert(self.chain@.subrange(0, old(self).chain@.len() as int) =~= old(self).chain@);
            assert forall|i: int| 0 <= i < self.func@.len() implies (#[trigger] self.chain@[i])@
                == self.func@.subrange(0, i + 1) by {
                if i < old(self).func@.len() {
                    assert(self.chain@[i] == old(self).chain@[i]);
                    assert(self.func@.subrange(0, i + 1) =~= old(self).func@.subrange(0, i + 1));
                } else {
                    assert(self.func@.subrange(0, i + 1) =~= self.func@);
                }
            }
            assert(self.expect@.subrange(0, old(self).expect@.len() as int) =~= old(self).expect@);
            assert(self.suggest@.subrange(0, old(self).suggest@.len() as int) =~= old(
                self,
            ).suggest@);
            assert(self.track@.subrange(0, old(self).track@.len() as int) =~= old(self).track@);
            assert forall|i: int| 0 <= i < self.func@.len() implies (#[trigger] self.expect@[i]).func
                == self.func@[i] && self.expect@[i].parents@ == self.func@.subrange(0, i) by {
                if i < old(self).func@.len() {
                    assert(self.expect@[i] == old(self).expect@[i]);
                    assert(self.func@.subrange(0, i) =~= old(self).func@.subrange(0, i));
                } else {
                    assert(self.func@.subrange(0, i) =~= old(self).func@);
                }
            }
            assert forall|i: int| 0 <= i < self.func@.len() && i < self.suggest@.len() implies (
            #[trigger] self.suggest@[i]).func == self.func@[i] && self.suggest@[i].parents@
                == self.func@.subrange(0, i) by {
                if i < old(self).func@.len() {
                    assert(self.suggest@[i] == old(self).suggest@[i]);
                    assert(self.func@.subrange(0, i) =~= old(self).func@.subrange(0, i));
                } else {
                    assert(self.func@.subrange(0, i) =~= old(self).func@);
                }
            }
        }
    }

    /// Keep track of steps in a complicated parser: log only.
    pub fn step(&mut self, step: &'static str, span: Span)
        ensures
            final(self).func@ == old(self).func@,
            final(self).chain@ == old(self).chain@,
            final(self).expect@ == old(self).expect@,
            final(self).suggest@ == old(self).suggest@,
            track_extended(TRACK, old(self).track@, final(self).track@),
            final(self).wf() == old(self).wf(),
            TRACK && old(self).func@.len() >= 1 ==> final(self).track@.len() == old(
                self,
            ).track@.len() + 1 && (final(self).track@.last() matches Track::Step(t) && t.func
                == old(self).func@.last() && t.span == span && t.parents@ == old(self).func@),
    {
        if TRACK {
            if self.func.len() >= 1 {
                let f = self.func[self.func.len() - 1];
                let parents = snapshot(&self.func);
                self.track.push(Track::Step(StepTrack { func: f, step, span, parents }));
            }
        }
        proof {
            assert(self.track@.subrange(0, old(self).track@.len() as int) =~= old(self).track@);
        }
    }

    /// Some detailed debug information: log only.
    pub fn debug(&mut self, dbg: String)
        ensures
            final(self).func@ == old(self).func@,
            final(self).chain@ == old(self).chain@,
            final(self).expect@ == old(self).expect@,
            final(self).suggest@ == old(self).suggest@,
            track_extended(TRACK, old(self).track@, final(self).track@),
            final(self).wf() == old(self).wf(),
            TRACK && old(self).func@.len() >= 1 ==> final(self).track@.len() == old(
                self,
            ).track@.len() + 1 && (final(self).track@.last() matches Track::Debug(t) && t.func
                == old(self).func@.last() && t.dbg == dbg && t.parents@ == old(self).func@),
    {
        if TRACK {
            if self.func.len() >= 1 {
                let f = self.func[self.func.len() - 1];
                let parents = snapshot(&self.func);
                self.track.push(Track::Debug(DebugTrack { func: f, dbg, parents }));
            }
        }
        proof {
            assert(self.track@.subrange(0, old(self).track@.len() as int) =~= old(self).track@);
        }
    }

    /// Adds a suggestion for the current stack frame: an optional construct
    /// was considered at `span`.
    pub fn suggest(&mut self, suggest: Code, span: Span)
        requires
            old(self).wf(),
            old(self).depth() >= 1,
        ensures
            final(self).wf(),
            final(self).balanced() == old(self).balanced(),
            final(self).depth() == old(self).depth(),
            Self::suggest_rel(*old(self), *final(self), suggest, span),
    {
        // an unmatched call is a programming error in the parser: reading the
        // innermost frame makes it stop here at run time instead of no-opping
        let _ = self.func[self.func.len() - 1];
        let parents = Rc::clone(&self.chain[self.chain.len() - 1]);
        proof {
            assert(self.chain@.last()@ =~= self.func@);
        }
        match self.suggest.pop() {
            Some(mut fr) => {
                fr.list.push(Suggest { code: suggest, span, parents });
                self.suggest.push(fr);
            },
            None => {},
        }
        proof {
            assert(self.suggest@.subrange(0, old(self).suggest@.len() - 1) =~= old(
                self,
            ).suggest@.subrange(0, old(self).suggest@.len() - 1));
            assert(self.suggest@.last().list@.subrange(
                0,
                old(self).suggest@.last().list@.len() as int,
            ) =~= old(self).suggest@.last().list@);
            assert forall|i: int| 0 <= i < self.func@.len() && i < self.suggest@.len() implies (
            #[trigger] self.suggest@[i]).func == self.func@[i] && self.suggest@[i].parents@
                == self.func@.subrange(0, i) by {
                if i < self.suggest@.len() - 1 {
                    assert(self.suggest@[i] == old(self).suggest@[i]);
                }
            }
        }
    }

    /// Adds an expectation for the current stack frame, and logs it.
    pub fn expect(&mut self, expect: Code, span: Span)
        requires
            old(self).wf(),
            old(self).depth() >= 1,
        ensures
            final(self).wf(),
            final(self).balanced() == old(self).balanced(),
            final(self).depth() == old(self).depth(),
            Self::expect_rel(*old(self), *final(self), expect, span),
    {
        self.add_expect(expect, span);
    }

    /// Appends one expectation to the innermost frame and logs it.
    fn add_expect(&mut self, code: Code, span: Span)
        requires
            old(self).wf(),
            old(self).depth() >= 1,
        ensures
            final(self).wf(),
            final(self).balanced() == old(self).balanced(),
            final(self).depth() == old(self).depth(),
            Self::expect_rel(*old(self), *final(self), code, span),
    {
        // an unmatched call is a programming error in the parser: reading the
        // innermost frame makes it stop here at run time instead of no-opping
        let _ = self.func[self.func.len() - 1];
        let parents = Rc::clone(&self.chain[self.chain.len() - 1]);
        proof {
            assert(self.chain@.last()@ =~= self.func@);
        }
        if TRACK {
            let f = self.func[self.func.len() - 1];
            let tparents = Rc::clone(&self.chain[self.chain.len() - 1]);
            let mut single: Vec<Expect> = Vec::new();
            single.push(
                Expect { code, span: span.clone(), parents: Rc::new(Vec::new()) },
            );
            self.track.push(
                Track::Expect(
                    ExpectTrack { func: f, usage: Usage::Track, list: single, parents: tparents },
                ),
            );
        }
        match self.expect.pop() {
            Some(mut fr) => {
                fr.list.push(Expect { code, span, parents });
                self.expect.push(fr);
            },
            None => {},
        }
        proof {
            assert(self.expect@.subrange(0, old(self).expect@.len() - 1) =~= old(
                self,
            ).expect@.subrange(0, old(self).expect@.len() - 1));
            assert(self.expect@.last().list@.subrange(
                0,
                old(self).expect@.last().list@.len() as int,
            ) =~= old(self).expect@.last().list@);
            assert(self.track@.subrange(0, old(self).track@.len() as int) =~= old(self).track@);
            assert forall|i: int| 0 <= i < self.func@.len() implies (#[trigger] self.expect@[i]).func
                == self.func@[i] && self.expect@[i].parents@ == self.func@.subrange(0, i) by {
                if i < self.expect@.len() - 1 {
                    assert(self.expect@[i] == old(self).expect@[i]);
                }
            }
        }
    }

    /// Retires an error that the caller decided not to propagate: its code
    /// and span become an expectation of the current frame, and its
    /// expectation and suggestion hints are spliced into the current frame's
    /// accumulators. Raw matcher diagnostics are dropped.
    pub fn stash(&mut self, err: ParserError)
        requires
            old(self).wf(),
            old(self).depth() >= 1,
        ensures
            final(self).wf(),
            final(self).balanced() == old(self).balanced(),
            final(self).depth() == old(self).depth(),
            Self::stash_rel(*old(self), *final(self), err),
    {
        let sp = err.span.clone();
        self.add_expect(err.code, sp);
        let ghost mid = *self;
        let mut e = err;
        let mut exp = e.to_expect();
        let mut sug = e.to_suggest();
        match self.expect.pop() {
            Some(mut fr) => {
                fr.list.append(&mut exp);
                self.expect.push(fr);
            },
            None => {},
        }
        match self.suggest.pop() {
            Some(mut fr) => {
                fr.list.append(&mut sug);
                self.suggest.push(fr);
            },
            None => {},
        }
        proof {
            assert(self.expect@.subrange(0, old(self).expect@.len() - 1) =~= mid.expect@.subrange(
                0,
                old(self).expect@.len() - 1,
            ));
            assert(self.suggest@.subrange(0, old(self).suggest@.len() - 1)
                =~= mid.suggest@.subrange(0, old(self).suggest@.len() - 1));
            assert(self.expect@.last().list@.subrange(
                0,
                old(self).expect@.last().list@.len() as int,
            ) =~= old(self).expect@.last().list@);
            assert(self.expect@.last().list@.subrange(
                old(self).expect@.last().list@.len() as int + 1,
                self.expect@.last().list@.len() as int,
            ) =~= expects_of(err.hints@));
            lemma_suggests_of_without_expects(err.hints@);
            assert(self.suggest@.last().list@ =~= old(self).suggest@.last().list@ + suggests_of(
                err.hints@,
            ));
            assert(self.track@.subrange(0, old(self).track@.len() as int) =~= old(self).track@);
            assert forall|i: int| 0 <= i < self.func@.len() implies (#[trigger] self.expect@[i]).func
                == self.func@[i] && self.expect@[i].parents@ == self.func@.subrange(0, i) by {
                if i < self.expect@.len() - 1 {
                    assert(self.expect@[i] == mid.expect@[i]);
                }
            }
            assert forall|i: int| 0 <= i < self.func@.len() && i < self.suggest@.len() implies (
            #[trigger] self.suggest@[i]).func == self.func@[i] && self.suggest@[i].parents@
                == self.func@.subrange(0, i) by {
                if i < self.suggest@.len() - 1 {
                    assert(self.suggest@[i] == mid.suggest@[i]);
                }
            }
        }
    }

    /// Writes a track for an ok result and leaves the current frame: the
    /// expectation frame is discarded, the suggestion frame is merged into
    /// the enclosing frame when one exists, else kept for reading out.
    pub fn ok<T>(&mut self, rest: Span, span: Span, val: T) -> (r: ParserResult<(Span, T)>)
        requires
            old(self).wf(),
            old(self).depth() >= 1,
        ensures
            final(self).wf(),
            final(self).depth() == old(self).depth() - 1,
            Self::ok_rel(*old(self), *final(self)),
            r matches Ok(p) && p.0 == rest && p.1 == val,
    {
        // an unmatched call is a programming error in the parser: reading the
        // innermost frame makes it stop here at run time instead of no-opping
        let _ = self.func[self.func.len() - 1];
        if TRACK {
            let f = self.func[self.func.len() - 1];
            let parents = snapshot(&self.func);
            self.track.push(
                Track::Okay(
                    OkTrack { func: f, span: span.clone(), rest: rest.clone(), parents },
                ),
            );
        }
        match self.expect.pop() {
            Some(exp_fr) => {
                if TRACK {
                    if exp_fr.list.len() > 0 {
                        let f = self.func[self.func.len() - 1];
                        let parents = snapshot(&self.func);
                        self.track.push(
                            Track::Expect(
                                ExpectTrack {
                                    func: f,
                                    usage: Usage::Drop,
                                    list: exp_fr.list,
                                    parents,
                                },
                            ),
                        );
                    }
                }
            },
            None => {},
        }
        match self.suggest.pop() {
            Some(mut sug_fr) => {
                if self.suggest.len() > 0 {
                    match self.suggest.pop() {
                        Some(mut outer) => {
                            outer.list.append(&mut sug_fr.list);
                            self.suggest.push(outer);
                        },
                        None => {},
                    }
                } else {
                    self.suggest.push(sug_fr);
                }
            },
            None => {},
        }
        if TRACK {
            let f = self.func[self.func.len() - 1];
            let parents = snapshot(&self.func);
            self.track.push(Track::Exit(ExitTrack { func: f, parents }));
        }
        self.func.pop();
        self.chain.pop();
        proof {
            assert(self.func@ =~= old(self).func@.drop_last());
            assert(self.chain@ =~= old(self).chain@.drop_last());
            assert forall|i: int| 0 <= i < self.func@.len() implies (#[trigger] self.chain@[i])@
                == self.func@.subrange(0, i + 1) by {
                assert(self.chain@[i] == old(self).chain@[i]);
                assert(self.func@.subrange(0, i + 1) =~= old(self).func@.subrange(0, i + 1));
            }
            assert(self.expect@ =~= old(self).expect@.drop_last());
            if old(self).suggest@.len() >= 2 {
                assert(self.suggest@.subrange(0, old(self).suggest@.len() - 2) =~= old(
                    self,
                ).suggest@.subrange(0, old(self).suggest@.len() - 2));
            } else {
                assert(self.suggest@ =~= old(self).suggest@);
            }
            assert(self.track@.subrange(0, old(self).track@.len() as int) =~= old(self).track@);
            assert forall|i: int| 0 <= i < self.func@.len() implies (#[trigger] self.expect@[i]).func
                == self.func@[i] && self.expect@[i].parents@ == self.func@.subrange(0, i) by {
                assert(self.expect@[i] == old(self).expect@[i]);
                assert(old(self).func@.subrange(0, i) =~= self.func@.subrange(0, i));
            }
            assert forall|i: int| 0 <= i < self.func@.len() && i < self.suggest@.len() implies (
            #[trigger] self.suggest@[i]).func == self.func@[i] && self.suggest@[i].parents@
                == self.func@.subrange(0, i) by {
                assert(old(self).func@.subrange(0, i) =~= self.func@.subrange(0, i));
                if i < self.suggest@.len() - 1 || old(self).suggest@.len() < 2 {
                    assert(self.suggest@[i] == old(self).suggest@[i]);
                } else {
                    assert(self.suggest@[i].func == old(self).suggest@[i].func);
                    assert(self.suggest@[i].parents == old(self).suggest@[i].parents);
                }
            }
            if self.func@.len() == 0 && self.suggest@.len() == 1 {
                assert(old(self).func@.subrange(0, 0) =~= Seq::<Code>::empty());
            }
        }
        Ok((rest, val))
    }

    /// Writes a track for an error and leaves the current frame: the frame's
    /// expectations and suggestions fold into the propagating error.
    pub fn err<T>(&mut self, err: ParserError) -> (r: ParserResult<T>)
        requires
            old(self).wf(),
            old(self).depth() >= 1,
        ensures
            final(self).wf(),
            final(self).balanced(),
            final(self).depth() == old(self).depth() - 1,
            r matches Err(e) && Self::err_rel(*old(self), *final(self), err, e),
    {
        // an unmatched call is a programming error in the parser: reading the
        // innermost frame makes it stop here at run time instead of no-opping
        let _ = self.func[self.func.len() - 1];
        let mut e = err;
        if !e.tracing {
            e.tracing = true;
            let sp = e.span.clone();
            self.add_expect(e.code, sp);
        }
        let ghost mid = *self;
        match self.expect.pop() {
            Some(exp_fr) => {
                if TRACK {
                    if exp_fr.list.len() > 0 {
                        let f = self.func[self.func.len() - 1];
                        let parents = snapshot(&self.func);
                        let lcopy = clone_expects(&exp_fr.list);
                        self.track.push(
                            Track::Expect(
                                ExpectTrack { func: f, usage: Usage::Use, list: lcopy, parents },
                            ),
                        );
                    }
                }
                e.append_expect(exp_fr.list);
            },
            None => {},
        }
        match self.suggest.pop() {
            Some(sug_fr) => {
                if TRACK {
                    if sug_fr.list.len() > 0 {
                        let f = self.func[self.func.len() - 1];
                        let parents = snapshot(&self.func);
                        let lcopy = clone_suggests(&sug_fr.list);
                        self.track.push(
                            Track::Suggest(
                                SuggestTrack { func: f, usage: Usage::Use, list: lcopy, parents },
                            ),
                        );
                    }
                }
                e.append_suggest(sug_fr.list);
            },
            None => {},
        }
        if TRACK {
            let f = self.func[self.func.len() - 1];
            let parents = snapshot(&self.func);
            self.track.push(
                Track::Error(ErrTrack { func: f, span: e.span.clone(), code: e.code, parents }),
            );
            let f2 = self.func[self.func.len() - 1];
            let parents2 = snapshot(&self.func);
            self.track.push(Track::Exit(ExitTrack { func: f2, parents: parents2 }));
        }
        self.func.pop();
        self.chain.pop();
        proof {
            assert(self.func@ =~= old(self).func@.drop_last());
            assert(self.chain@ =~= old(self).chain@.drop_last());
            assert forall|i: int| 0 <= i < self.func@.len() implies (#[trigger] self.chain@[i])@
                == self.func@.subrange(0, i + 1) by {
                assert(self.chain@[i] == old(self).chain@[i]);
                assert(mid.func@.subrange(0, i + 1) =~= self.func@.subrange(0, i + 1));
            }
            assert(self.expect@ =~= mid.expect@.drop_last());
            assert(self.suggest@ =~= mid.suggest@.drop_last());
            assert(self.track@.subrange(0, old(self).track@.len() as int) =~= old(self).track@);
            let k = expects_of(err.hints@).len() as int;
            let m = old(self).expect@.last().list@.len() as int;
            assert(expects_of(e.hints@).subrange(0, k) =~= expects_of(err.hints@));
            assert(expects_of(e.hints@).subrange(k, k + m) =~= old(self).expect@.last().list@);
            assert forall|i: int| 0 <= i < self.func@.len() implies (#[trigger] self.expect@[i]).func
                == self.func@[i] && self.expect@[i].parents@ == self.func@.subrange(0, i) by {
                assert(self.expect@[i] == mid.expect@[i]);
                assert(mid.func@.subrange(0, i) =~= self.func@.subrange(0, i));
            }
            assert forall|i: int| 0 <= i < self.func@.len() && i < self.suggest@.len() implies (
            #[trigger] self.suggest@[i]).func == self.func@[i] && self.suggest@[i].parents@
                == self.func@.subrange(0, i) by {
                assert(self.suggest@[i] == mid.suggest@[i]);
                assert(mid.func@.subrange(0, i) =~= self.func@.subrange(0, i));
            }
        }
        Err(e)
    }

    /// The spliced-out expectations of all frames, outermost first. The
    /// frame stack is emptied.
    pub fn to_expect(&mut self) -> (r: Vec<Expect>)
        ensures
            r@ == flat_expects(old(self).expect@),
            final(self).expect@ == Seq::<ExpectTrack>::empty(),
            final(self).func@ == old(self).func@,
            final(self).suggest@ == old(self).suggest@,
            final(self).track@ == old(self).track@,
            final(self).chain@ == old(self).chain@,
    {
        let mut taken: Vec<ExpectTrack> = Vec::new();
        std::mem::swap(&mut taken, &mut self.expect);
        let ghost all = taken@;
        let mut r: Vec<Expect> = Vec::new();
        let ghost done: int = 0;
        while taken.len() > 0
            invariant
                0 <= done <= all.len(),
                taken@ == all.subrange(done, all.len() as int),
                r@ == flat_expects(all.subrange(0, done)),
                self.expect@ == Seq::<ExpectTrack>::empty(),
                self.func@ == old(self).func@,
                self.suggest@ == old(self).suggest@,
                self.track@ == old(self).track@,
            decreases taken.len(),
        {
            let mut fr = taken.remove(0);
            proof {
                assert(fr == all[done]);
            }
            r.append(&mut fr.list);
            proof {
                done = done + 1;
                assert(taken@ =~= all.subrange(done, all.len() as int));
                assert(all.subrange(0, done).drop_last() =~= all.subrange(0, done - 1));
                assert(all.subrange(0, done).last() == all[done - 1]);
            }
        }
        proof {
            assert(all.subrange(0, all.len() as int) =~= all);
        }
        r
    }

    /// The spliced-out suggestions of all frames, outermost first. The
    /// frame stack is emptied.
    pub fn to_suggest(&mut self) -> (r: Vec<Suggest>)
        ensures
            r@ == flat_suggests(old(self).suggest@),
            final(self).suggest@ == Seq::<SuggestTrack>::empty(),
            final(self).func@ == old(self).func@,
            final(self).expect@ == old(self).expect@,
            final(self).track@ == old(self).track@,
            final(self).chain@ == old(self).chain@,
    {
        let mut taken: Vec<SuggestTrack> = Vec::new();
        std::mem::swap(&mut taken, &mut self.suggest);
        let ghost all = taken@;
        let mut r: Vec<Suggest> = Vec::new();
        let ghost done: int = 0;
        while taken.len() > 0
            invariant
                0 <= done <= all.len(),
                taken@ == all.subrange(done, all.len() as int),
                r@ == flat_suggests(all.subrange(0, done)),
                self.suggest@ == Seq::<SuggestTrack>::empty(),
                self.func@ == old(self).func@,
                self.expect@ == old(self).expect@,
                self.track@ == old(self).track@,
            decreases taken.len(),
        {
            let mut fr = taken.remove(0);
            proof {
                assert(fr == all[done]);
            }
            r.append(&mut fr.list);
            proof {
                done = done + 1;
                assert(taken@ =~= all.subrange(done, all.len() as int));
                assert(all.subrange(0, done).drop_last() =~= all.subrange(0, done - 1));
                assert(all.subrange(0, done).last() == all[done - 1]);
            }
        }
        proof {
            assert(all.subrange(0, all.len() as int) =~= all);
        }
        r
    }

    /// All collected expectations and suggestions; both frame stacks are
    /// emptied.
    pub fn to_results(&mut self) -> (r: (Vec<Expect>, Vec<Suggest>))
        ensures
            r.0@ == flat_expects(old(self).expect@),
            r.1@ == flat_suggests(old(self).suggest@),
            final(self).expect@ == Seq::<ExpectTrack>::empty(),
            final(self).suggest@ == Seq::<SuggestTrack>::empty(),
            final(self).func@ == old(self).func@,
            final(self).track@ == old(self).track@,
    {
        let e = self.to_expect();
        let s = self.to_suggest();
        (e, s)
    }
}

/// The expectation lists of a frame stack, flattened in stack order.
pub open spec fn flat_expects(frames: Seq<ExpectTrack>) -> Seq<Expect>
    decreases frames.len(),
{
    if frames.len() == 0 {
        Seq::empty()
    } else {
        flat_expects(frames.drop_last()) + frames.last().list@
    }
}

/// The suggestion lists of a frame stack, flattened in stack order.
pub open spec fn flat_suggests(frames: Seq<SuggestTrack>) -> Seq<Suggest>
    decreases frames.len(),
{
    if frames.len() == 0 {
        Seq::empty()
    } else {
        flat_suggests(frames.drop_last()) + frames.last().list@
    }
}

/// Copies of a list of expectations.
fn clone_expects(v: &Vec<Expect>) -> (r: Vec<Expect>)
    ensures
        r@ == v@,
{
    let mut r: Vec<Expect> = Vec::new();
    let n = v.len();
    let mut i: usize = 0;
    while i < n
        invariant
            0 <= i <= n == v@.len(),
            r@ == v@.subrange(0, i as int),
        decreases n - i,
    {
        r.push(v[i].clone());
        i = i + 1;
        proof {
            assert(r@ =~= v@.subrange(0, i as int));
        }
    }
    proof {
        assert(r@ =~= v@);
    }
    r
}

/// Copies of a list of suggestions.
fn clone_suggests(v: &Vec<Suggest>) -> (r: Vec<Suggest>)
    ensures
        r@ == v@,
{
    let mut r: Vec<Suggest> = Vec::new();
    let n = v.len();
    let mut i: usize = 0;
    while i < n
        invariant
            0 <= i <= n == v@.len(),
            r@ == v@.subrange(0, i as int),
        decreases n - i,
    {
        r.push(v[i].clone());
        i = i + 1;
        proof {
            assert(r@ =~= v@.subrange(0, i as int));
        }
    }
    proof {
        assert(r@ =~= v@);
    }
    r
}

/// The net frame depth of a sequence of enter (`true`) and resolve (`false`)
/// steps.
pub open spec fn net_depth(ops: Seq<bool>) -> int
    decreases ops.len(),
{
    if ops.len() == 0 {
        0
    } else {
        net_depth(ops.drop_last()) + if ops.last() {
            1int
        } else {
            -1int
        }
    }
}

/// A sequence of enter and resolve steps with exactly one resolution per
/// enter, properly nested: no prefix resolves more frames than were entered,
/// and the whole sequence resolves all of them.
pub open spec fn balanced_ops(ops: Seq<bool>) -> bool {
    &&& net_depth(ops) == 0
    &&& forall|i: int| 0 <= i <= ops.len() ==> net_depth(#[trigger] ops.subrange(0, i)) >= 0
}

/// The stack depth before each step equals the net depth of the steps so far.
proof fn lemma_depth_prefix(ops: Seq<bool>, depths: Seq<int>, i: int)
    requires
        depths.len() == ops.len() + 1,
        depths[0] == 0,
        forall|j: int|
            0 <= j < ops.len() ==> depths[j + 1] == depths[j] + if ops[j] {
                1int
            } else {
                -1int
            },
        0 <= i <= ops.len(),
    ensures
        depths[i] == net_depth(ops.subrange(0, i)),
    decreases i,
{
    if i == 0 {
        assert(ops.subrange(0, 0) =~= Seq::<bool>::empty());
    } else {
        lemma_depth_prefix(ops, depths, i - 1);
        assert(ops.subrange(0, i).drop_last() =~= ops.subrange(0, i - 1));
        assert(ops.subrange(0, i).last() == ops[i - 1]);
    }
}

/// Frame balance: take any sequence of enter and resolve steps with exactly
/// one resolution per enter, and the code-stack depths along a run of the
/// tracer, starting empty, where each enter raises the depth by one and each
/// resolution lowers it by one, as `enter_rel`, `ok_rel` and `err_rel`
/// ensure. Then the code stack is empty once the outermost frame resolves,
/// and every resolution found a frame to pop, so none of them underflows: the
/// guard that makes an unmatched `ok` or `err` fail fast is never reached.
pub proof fn lemma_frame_balance(ops: Seq<bool>, depths: Seq<int>)
    requires
        depths.len() == ops.len() + 1,
        depths[0] == 0,
        forall|j: int|
            0 <= j < ops.len() ==> depths[j + 1] == depths[j] + if ops[j] {
                1int
            } else {
                -1int
            },
        balanced_ops(ops),
    ensures
        depths.last() == 0,
        forall|i: int| 0 <= i < ops.len() && !ops[i] ==> depths[i] >= 1,
{
    lemma_depth_prefix(ops, depths, ops.len() as int);
    assert(ops.subrange(0, ops.len() as int) =~= ops);
    assert forall|i: int| 0 <= i < ops.len() && !ops[i] implies depths[i] >= 1 by {
        lemma_depth_prefix(ops, depths, i);
        assert(ops.subrange(0, i + 1).drop_last() =~= ops.subrange(0, i));
        assert(ops.subrange(0, i + 1).last() == ops[i]);
        assert(net_depth(ops.subrange(0, i + 1)) >= 0);
        lemma_depth_prefix(ops, depths, i + 1);
    }
}

/// Hint propagation: when an inner frame records a suggestion and then
/// succeeds, and the enclosing frame afterwards fails, the failure's hint
/// list carries that suggestion, tagged with the inner frame's code in its
/// parent chain.
pub proof fn lemma_suggest_survives<const TRACK: bool>(
    t0: CTracer<TRACK>,
    t1: CTracer<TRACK>,
    t2: CTracer<TRACK>,
    t3: CTracer<TRACK>,
    t4: CTracer<TRACK>,
    t5: CTracer<TRACK>,
    outer: Code,
    inner: Code,
    x: Code,
    sp_outer: Span,
    sp_inner: Span,
    sp_x: Span,
    e_in: ParserError,
    e_out: ParserError,
)
    requires
        t0.wf(),
        t0.balanced(),
        CTracer::enter_rel(t0, t1, outer, sp_outer),
        CTracer::enter_rel(t1, t2, inner, sp_inner),
        CTracer::suggest_rel(t2, t3, x, sp_x),
        CTracer::ok_rel(t3, t4),
        CTracer::err_rel(t4, t5, e_in, e_out),
    ensures
        exists|i: int|
            0 <= i < suggests_of(e_out.hints@).len() && (#[trigger] suggests_of(e_out.hints@)[i]).code
                == x && suggests_of(e_out.hints@)[i].span == sp_x && suggests_of(
                e_out.hints@,
            )[i].parents@.contains(inner),
{
    let n2 = t2.suggest@.len() as int;
    assert(n2 == t0.suggest@.len() + 2);
    let hint = t3.suggest@.last().list@.last();
    assert(hint.code == x && hint.span == sp_x);
    assert(hint.parents@ == t2.func@);
    assert(t2.func@ == t0.func@.push(outer).push(inner));
    assert(hint.parents@[t2.func@.len() - 1] == inner);
    assert(hint.parents@.contains(inner));
    assert(t3.suggest@.len() == n2);
    assert(t4.suggest@.last().list@ == t3.suggest@[n2 - 2].list@ + t3.suggest@.last().list@);
    let fl = t4.suggest@.last().list@;
    assert(fl.last() == hint);
    let out = suggests_of(e_out.hints@);
    assert(out == suggests_of(e_in.hints@) + fl);
    let idx = suggests_of(e_in.hints@).len() + fl.len() - 1;
    assert(out[idx as int] == hint);
}

/// Stash scoping, failure side: when a retired alternative's error has been
/// stashed into a frame and that frame afterwards fails, the retired error's
/// code and span appear among the failure's expectations.
pub proof fn lemma_stash_used_on_err<const TRACK: bool>(
    t1: CTracer<TRACK>,
    t2: CTracer<TRACK>,
    t3: CTracer<TRACK>,
    e_stashed: ParserError,
    e_in: ParserError,
    e_out: ParserError,
)
    requires
        t1.wf(),
        t1.depth() >= 1,
        CTracer::stash_rel(t1, t2, e_stashed),
        CTracer::err_rel(t2, t3, e_in, e_out),
    ensures
        exists|i: int|
            0 <= i < expects_of(e_out.hints@).len() && (#[trigger] expects_of(e_out.hints@)[i]).code
                == e_stashed.code && expects_of(e_out.hints@)[i].span == e_stashed.span,
{
    let pe = t1.expect@.last().list@.len() as int;
    let guard = t2.expect@.last().list@[pe];
    assert(guard.code == e_stashed.code && guard.span == e_stashed.span);
    let k = expects_of(e_in.hints@).len() as int;
    let m = t2.expect@.last().list@.len() as int;
    let ex = expects_of(e_out.hints@);
    assert(ex.subrange(k, k + m) == t2.expect@.last().list@);
    assert(ex.subrange(k, k + m)[pe] == guard);
    assert(ex[k + pe] == guard);
}

/// Stash scoping, success side: when a retired alternative's error has been
/// stashed into a frame and that frame afterwards succeeds, the frame is
/// discarded whole: the remaining expectation frames are exactly the
/// enclosing ones, untouched by the stash.
pub proof fn lemma_stash_dropped_on_ok<const TRACK: bool>(
    t1: CTracer<TRACK>,
    t2: CTracer<TRACK>,
    t3: CTracer<TRACK>,
    e_stashed: ParserError,
)
    requires
        t1.wf(),
        t1.depth() >= 1,
        CTracer::stash_rel(t1, t2, e_stashed),
        CTracer::ok_rel(t2, t3),
    ensures
        t3.expect@ == t1.expect@.drop_last(),
{
    assert(t3.expect@ =~= t1.expect@.drop_last());
}

} // verus!
