//! Grouping of located hints for diagnostic rendering. Hints are keyed by the
//! byte offset or the line number of the span they are anchored at; groups
//! come in descending key order and each group keeps insertion order, so the
//! rendering is deterministic.

use crate::span::Span;
use vstd::prelude::*;

verus! {

/// A hint that is anchored at a span.
pub trait Anchored: Sized {
    /// The span the hint is anchored at.
    spec fn anchor(&self) -> Span;

    /// The byte offset of the anchor.
    fn anchor_offset(&self) -> (r: usize)
        ensures
            r == self.anchor().offset,
    ;

    /// The line number of the anchor.
    fn anchor_line(&self) -> (r: u32)
        ensures
            r == self.anchor().line,
    ;

    /// A copy equal to the original.
    fn dup(&self) -> (r: Self)
        ensures
            r == *self,
    ;
}

/// The items of `s` anchored at offset `off`, in order.
pub open spec fn with_offset<T: Anchored>(s: Seq<T>, off: int) -> Seq<T>
    decreases s.len(),
{
    if s.len() == 0 {
        Seq::empty()
    } else {
        let rest = with_offset(s.drop_last(), off);
        if s.last().anchor().offset == off {
            rest.push(s.last())
        } else {
            rest
        }
    }
}

/// The items of `s` anchored elsewhere than offset `off`, in order.
pub open spec fn without_offset<T: Anchored>(s: Seq<T>, off: int) -> Seq<T>
    decreases s.len(),
{
    if s.len() == 0 {
        Seq::empty()
    } else {
        let rest = without_offset(s.drop_last(), off);
        if s.last().anchor().offset == off {
            rest
        } else {
            rest.push(s.last())
        }
    }
}

/// The largest anchor offset in `s`, or -1 for an empty sequence.
pub open spec fn max_offset<T: Anchored>(s: Seq<T>) -> int
    decreases s.len(),
{
    if s.len() == 0 {
        -1
    } else {
        let m = max_offset(s.drop_last());
        if s.last().anchor().offset >= m {
            s.last().anchor().offset as int
        } else {
            m
        }
    }
}

/// Taking out one offset keeps the items of every other offset.
pub proof fn lemma_with_without<T: Anchored>(s: Seq<T>, cut: int, off: int)
    ensures
        off != cut ==> with_offset(without_offset(s, cut), off) == with_offset(s, off),
        with_offset(s, cut).len() + without_offset(s, cut).len() == s.len(),
        without_offset(s, cut).len() <= s.len(),
    decreases s.len(),
{
    if s.len() > 0 {
        lemma_with_without(s.drop_last(), cut, off);
        if off != cut && s.last().anchor().offset != cut {
            let w = without_offset(s.drop_last(), cut).push(s.last());
            assert(w.drop_last() =~= without_offset(s.drop_last(), cut));
            assert(w.last() == s.last());
        }
    }
}

/// Every item's offset is bounded by the largest one, and in a non-empty
/// sequence the largest offset is attained.
pub proof fn lemma_max_offset<T: Anchored>(s: Seq<T>)
    ensures
        forall|i: int| 0 <= i < s.len() ==> (#[trigger] s[i]).anchor().offset <= max_offset(s),
        s.len() > 0 ==> with_offset(s, max_offset(s)).len() >= 1,
    decreases s.len(),
{
    if s.len() > 0 {
        lemma_max_offset(s.drop_last());
        assert(forall|i: int| 0 <= i < s.len() - 1 ==> s[i] == s.drop_last()[i]);
        if s.last().anchor().offset >= max_offset(s.drop_last()) {
            assert(max_offset(s) == s.last().anchor().offset as int);
            assert(with_offset(s, max_offset(s)) == with_offset(
                s.drop_last(),
                max_offset(s),
            ).push(s.last()));
        } else {
            assert(max_offset(s) == max_offset(s.drop_last()));
            assert(with_offset(s, max_offset(s)) == with_offset(s.drop_last(), max_offset(s)));
        }
    }
}

/// The groups of `s` by anchor offset: keys strictly descending, each group
/// holding exactly the items of its key, in insertion order.
pub open spec fn groups_by_offset<T: Anchored>(s: Seq<T>) -> Seq<(int, Seq<T>)>
    decreases s.len(),
    via groups_by_offset_dec::<T>
{
    if s.len() == 0 {
        Seq::empty()
    } else {
        let m = max_offset(s);
        seq![(m, with_offset(s, m))] + groups_by_offset(without_offset(s, m))
    }
}

#[via_fn]
proof fn groups_by_offset_dec<T: Anchored>(s: Seq<T>)
{
    if s.len() > 0 {
        lemma_max_offset(s);
        lemma_with_without(s, max_offset(s), 0);
    }
}

/// Whether an executable group list matches a specification-level one.
pub open spec fn groups_match<T: Anchored>(r: Seq<(usize, Vec<T>)>, g: Seq<(int, Seq<T>)>) -> bool {
    &&& r.len() == g.len()
    &&& forall|j: int|
        0 <= j < r.len() ==> (#[trigger] r[j]).0 == g[j].0 && r[j].1@ == g[j].1
}

/// Grouping is sound: group keys fall strictly, each group holds exactly the
/// input items anchored at its key, in input order, at least one of them, and
/// every input item has a group.
pub proof fn lemma_groups_by_offset_sound<T: Anchored>(s: Seq<T>)
    ensures
        forall|j1: int, j2: int|
            0 <= j1 < j2 < groups_by_offset(s).len() ==> (#[trigger] groups_by_offset(s)[j1]).0 > (
            #[trigger] groups_by_offset(s)[j2]).0,
        forall|j: int|
            0 <= j < groups_by_offset(s).len() ==> (#[trigger] groups_by_offset(s)[j]).1
                == with_offset(s, groups_by_offset(s)[j].0) && groups_by_offset(s)[j].1.len() >= 1,
        forall|i: int|
            0 <= i < s.len() ==> exists|j: int|
                0 <= j < groups_by_offset(s).len() && (#[trigger] groups_by_offset(s)[j]).0 == (
                #[trigger] s[i]).anchor().offset,
    decreases s.len(),
{
    if s.len() > 0 {
        let m = max_offset(s);
        let rest = without_offset(s, m);
        let g = groups_by_offset(s);
        let gr = groups_by_offset(rest);
        lemma_max_offset(s);
        lemma_with_without(s, m, 0);
        lemma_groups_by_offset_sound(rest);
        lemma_max_offset(rest);
        lemma_without_bound(s, m);
        assert(forall|j: int| 0 <= j < gr.len() ==> g[j + 1] == gr[j]);
        assert(g[0].1 == with_offset(s, m));
        assert forall|j: int| 1 <= j < g.len() implies (#[trigger] g[j]).1 == with_offset(s, g[j].0)
            && g[j].1.len() >= 1 by {
            assert(g[j] == gr[j - 1]);
            assert(gr[j - 1].1 == with_offset(rest, gr[j - 1].0));
            assert(gr[j - 1].0 <= max_offset(rest) < m) by {
                if j - 1 > 0 {
                    assert(gr[0].0 > gr[j - 1].0);
                }
            }
            lemma_with_without(s, m, g[j].0);
        }
        assert forall|j1: int, j2: int| 0 <= j1 < j2 < g.len() implies (#[trigger] g[j1]).0 > (
        #[trigger] g[j2]).0 by {
            if j1 > 0 {
                assert(g[j1] == gr[j1 - 1] && g[j2] == gr[j2 - 1]);
            } else {
                assert(g[j2] == gr[j2 - 1]);
                assert(gr[j2 - 1].0 <= max_offset(rest) < m) by {
                    if j2 - 1 > 0 {
                        assert(gr[0].0 > gr[j2 - 1].0);
                    }
                }
            }
        }
        assert forall|i: int| 0 <= i < s.len() implies exists|j: int|
            0 <= j < g.len() && (#[trigger] g[j]).0 == (#[trigger] s[i]).anchor().offset by {
            if s[i].anchor().offset == m {
                assert(g[0].0 == s[i].anchor().offset);
            } else {
                lemma_without_contains(s, m, i);
                let off_i = s[i].anchor().offset as int;
                let i2 = choose|i2: int|
                    0 <= i2 < rest.len() && (#[trigger] rest[i2]).anchor().offset == off_i;
                let j2 = choose|j: int|
                    0 <= j < gr.len() && (#[trigger] gr[j]).0 == rest[i2].anchor().offset;
                assert(g[j2 + 1].0 == s[i].anchor().offset);
            }
        }
    }
}

/// What survives the cut: items of every other offset, none of the cut one,
/// and none larger than the largest offset of the whole sequence.
proof fn lemma_without_elems<T: Anchored>(s: Seq<T>, cut: int)
    ensures
        forall|i: int|
            0 <= i < without_offset(s, cut).len() ==> (#[trigger] without_offset(s, cut)[i]).anchor().offset
                != cut && without_offset(s, cut)[i].anchor().offset <= max_offset(s),
    decreases s.len(),
{
    if s.len() > 0 {
        lemma_without_elems(s.drop_last(), cut);
        lemma_max_mono(s);
        let wd = without_offset(s.drop_last(), cut);
        if s.last().anchor().offset != cut {
            let w = without_offset(s, cut);
            assert(w == wd.push(s.last()));
            assert(forall|i: int| 0 <= i < w.len() - 1 ==> w[i] == wd[i]);
            assert(s.last().anchor().offset <= max_offset(s));
        }
    }
}

/// The largest offset never falls when the sequence grows by one item.
proof fn lemma_max_mono<T: Anchored>(s: Seq<T>)
    requires
        s.len() > 0,
    ensures
        max_offset(s.drop_last()) <= max_offset(s),
{
}

/// After cutting out an attained maximal offset, the largest offset falls.
proof fn lemma_without_bound<T: Anchored>(s: Seq<T>, m: int)
    requires
        m == max_offset(s),
    ensures
        without_offset(s, m).len() > 0 ==> max_offset(without_offset(s, m)) < m,
{
    lemma_without_elems(s, m);
    lemma_max_bounded(without_offset(s, m), m);
}

/// A sequence whose offsets all lie below a bound has its maximum below it.
proof fn lemma_max_bounded<T: Anchored>(s: Seq<T>, m: int)
    requires
        forall|i: int| 0 <= i < s.len() ==> (#[trigger] s[i]).anchor().offset != m
            && s[i].anchor().offset <= m,
    ensures
        s.len() > 0 ==> max_offset(s) < m,
    decreases s.len(),
{
    if s.len() > 0 {
        assert(forall|i: int| 0 <= i < s.len() - 1 ==> s.drop_last()[i] == s[i]);
        lemma_max_bounded(s.drop_last(), m);
        assert(s.last().anchor().offset < m);
        if s.len() == 1 {
            assert(max_offset(s.drop_last()) == -1);
        }
    }
}

/// An item whose offset is not the cut offset survives the cut.
proof fn lemma_without_contains<T: Anchored>(s: Seq<T>, cut: int, i: int)
    requires
        0 <= i < s.len(),
        s[i].anchor().offset != cut,
    ensures
        exists|i2: int|
            0 <= i2 < without_offset(s, cut).len() && (#[trigger] without_offset(s, cut)[i2]).anchor().offset
                == s[i].anchor().offset,
    decreases s.len(),
{
    let w = without_offset(s, cut);
    if i == s.len() - 1 {
        assert(w.last() == s.last());
        assert(w[w.len() - 1].anchor().offset == s[i].anchor().offset);
    } else {
        lemma_without_contains(s.drop_last(), cut, i);
        let wd = without_offset(s.drop_last(), cut);
        let off_i = s.drop_last()[i].anchor().offset as int;
        let i2 = choose|i2: int|
            0 <= i2 < wd.len() && (#[trigger] wd[i2]).anchor().offset == off_i;
        assert(w[i2].anchor().offset == s[i].anchor().offset);
    }
}

/// The groups flattened back into one sequence: every hint, in descending
/// anchor-offset order, insertion order within one offset.
pub open spec fn flatten_groups<T: Anchored>(g: Seq<(int, Seq<T>)>) -> Seq<T>
    decreases g.len(),
{
    if g.len() == 0 {
        Seq::empty()
    } else {
        flatten_groups(g.drop_last()) + g.last().1
    }
}

/// Every hint of `s`, in descending anchor-offset order, insertion order
/// within one offset.
pub open spec fn sorted_by_offset<T: Anchored>(s: Seq<T>) -> Seq<T> {
    flatten_groups(groups_by_offset(s))
}

/// The length of the leading run of items anchored at `line`.
pub open spec fn run_len<T: Anchored>(s: Seq<T>, line: int) -> nat
    decreases s.len(),
{
    if s.len() == 0 {
        0
    } else if s.first().anchor().line != line {
        0
    } else {
        1 + run_len(s.subrange(1, s.len() as int), line)
    }
}

/// A run never outruns the sequence, and holds the first item when that item
/// is anchored at the run's line.
proof fn lemma_run_len<T: Anchored>(s: Seq<T>, line: int)
    ensures
        run_len(s, line) <= s.len(),
        s.len() > 0 && s.first().anchor().line == line ==> run_len(s, line) >= 1,
    decreases s.len(),
{
    if s.len() > 0 && s.first().anchor().line == line {
        lemma_run_len(s.subrange(1, s.len() as int), line);
    }
}

/// The maximal contiguous runs of one line number, in order: the partition
/// that line grouping hands out after sorting by offset.
pub open spec fn runs_by_line<T: Anchored>(s: Seq<T>) -> Seq<(int, Seq<T>)>
    decreases s.len(),
    via runs_by_line_dec::<T>
{
    if s.len() == 0 {
        Seq::empty()
    } else {
        let l = s.first().anchor().line as int;
        let k = run_len(s, l) as int;
        seq![(l, s.subrange(0, k))] + runs_by_line(s.subrange(k, s.len() as int))
    }
}

#[via_fn]
proof fn runs_by_line_dec<T: Anchored>(s: Seq<T>)
{
    if s.len() > 0 {
        lemma_run_len(s, s.first().anchor().line as int);
    }
}

/// The leading run is exactly the longest prefix anchored at `line`.
proof fn lemma_run_len_is<T: Anchored>(s: Seq<T>, line: int, k: int)
    requires
        0 <= k <= s.len(),
        forall|i: int| 0 <= i < k ==> (#[trigger] s[i]).anchor().line == line,
        k < s.len() ==> s[k].anchor().line != line,
    ensures
        run_len(s, line) == k,
    decreases s.len(),
{
    if k > 0 {
        let tail = s.subrange(1, s.len() as int);
        assert(forall|i: int| 0 <= i < tail.len() ==> tail[i] == s[i + 1]);
        lemma_run_len_is(tail, line, k - 1);
    }
}


/// Flattening distributes over splitting a group list.
proof fn lemma_flatten_add<T: Anchored>(a: Seq<(int, Seq<T>)>, b: Seq<(int, Seq<T>)>)
    ensures
        flatten_groups(a + b) == flatten_groups(a) + flatten_groups(b),
    decreases b.len(),
{
    if b.len() == 0 {
        assert(a + b =~= a);
        assert(flatten_groups(a) + flatten_groups(b) =~= flatten_groups(a));
    } else {
        assert((a + b).drop_last() =~= a + b.drop_last());
        lemma_flatten_add(a, b.drop_last());
        assert(flatten_groups(a) + flatten_groups(b) =~= (flatten_groups(a) + flatten_groups(
            b.drop_last(),
        )) + b.last().1);
    }
}

/// The leading run holds only items of its line, and it is maximal.
proof fn lemma_run_elems<T: Anchored>(s: Seq<T>, line: int)
    ensures
        forall|i: int| 0 <= i < run_len(s, line) ==> (#[trigger] s[i]).anchor().line == line,
        run_len(s, line) < s.len() ==> s[run_len(s, line) as int].anchor().line != line,
        run_len(s, line) <= s.len(),
    decreases s.len(),
{
    if s.len() > 0 && s.first().anchor().line == line {
        let tail = s.subrange(1, s.len() as int);
        lemma_run_elems(tail, line);
        assert(run_len(s, line) == 1 + run_len(tail, line));
        assert forall|i: int| 0 <= i < run_len(s, line) implies (#[trigger] s[i]).anchor().line
            == line by {
            if i >= 1 {
                assert(s[i] == tail[i - 1]);
                assert(tail[i - 1].anchor().line == line);
            }
        }
        if run_len(s, line) < s.len() {
            assert(s[run_len(s, line) as int] == tail[run_len(tail, line) as int]);
        }
    }
}

/// The line runs are sound: every run is non-empty and homogeneous in its
/// line, neighboring runs have different lines, and the runs concatenate
/// back to the whole sequence.
pub proof fn lemma_runs_by_line_sound<T: Anchored>(s: Seq<T>)
    ensures
        forall|j: int|
            0 <= j < runs_by_line(s).len() ==> (#[trigger] runs_by_line(s)[j]).1.len() >= 1
                && (forall|i: int|
                0 <= i < runs_by_line(s)[j].1.len() ==> (#[trigger] runs_by_line(
                    s,
                )[j].1[i]).anchor().line == runs_by_line(s)[j].0),
        forall|j: int|
            0 <= j < runs_by_line(s).len() - 1 ==> (#[trigger] runs_by_line(s)[j]).0 != runs_by_line(
                s,
            )[j + 1].0,
        flatten_groups(runs_by_line(s)) == s,
    decreases s.len(),
{
    let r = runs_by_line(s);
    if s.len() == 0 {
        assert(flatten_groups(r) =~= s);
    } else {
        let l = s.first().anchor().line as int;
        let k = run_len(s, l) as int;
        let tail = s.subrange(k, s.len() as int);
        let rt = runs_by_line(tail);
        lemma_run_len(s, l);
        lemma_run_elems(s, l);
        lemma_runs_by_line_sound(tail);
        assert(r == seq![(l, s.subrange(0, k))] + rt);
        assert(forall|j: int| 0 <= j < rt.len() ==> r[j + 1] == rt[j]);
        lemma_flatten_add(seq![(l, s.subrange(0, k))], rt);
        assert(seq![(l, s.subrange(0, k))].drop_last() =~= Seq::<(int, Seq<T>)>::empty());
        assert(flatten_groups(Seq::<(int, Seq<T>)>::empty()) == Seq::<T>::empty());
        assert(flatten_groups(seq![(l, s.subrange(0, k))]) =~= s.subrange(0, k));
        assert(flatten_groups(r) =~= s);
        assert forall|j: int| 0 <= j < r.len() implies (#[trigger] r[j]).1.len() >= 1 && forall|
            i: int,
        |
            0 <= i < r[j].1.len() ==> (#[trigger] r[j].1[i]).anchor().line == r[j].0 by {
            if j == 0 {
                assert(forall|i: int| 0 <= i < k ==> r[0].1[i] == s[i]);
            } else {
                assert(r[j] == rt[j - 1]);
            }
        }
        assert forall|j: int| 0 <= j < r.len() - 1 implies (#[trigger] r[j]).0 != r[j + 1].0 by {
            if j == 0 {
                if k < s.len() {
                    assert(rt.len() >= 1);
                    assert(rt[0].0 == tail.first().anchor().line as int);
                    assert(tail.first() == s[k]);
                    assert(rt[0].1.len() >= 1);
                } else {
                    assert(tail.len() == 0);
                    assert(rt.len() == 0);
                }
            } else {
                assert(r[j] == rt[j - 1] && r[j + 1] == rt[j]);
            }
        }
    }
}

/// Whether an executable line-group list matches a specification-level one.
pub open spec fn line_groups_match<T: Anchored>(
    r: Seq<(u32, Vec<T>)>,
    g: Seq<(int, Seq<T>)>,
) -> bool {
    &&& r.len() == g.len()
    &&& forall|j: int|
        0 <= j < r.len() ==> (#[trigger] r[j]).0 == g[j].0 && r[j].1@ == g[j].1
}

/// Copies of all items of a list.
pub fn dup_all<T: Anchored>(v: &Vec<T>) -> (r: Vec<T>)
    ensures
        r@ == v@,
{
    let mut r: Vec<T> = Vec::new();
    let n = v.len();
    let mut i: usize = 0;
    while i < n
        invariant
            0 <= i <= n == v@.len(),
            r@ == v@.subrange(0, i as int),
        decreases n - i,
    {
        r.push(v[i].dup());
        i = i + 1;
        proof {
            assert(r@ =~= v@.subrange(0, i as int));
        }
    }
    proof {
        assert(r@ =~= v@);
    }
    r
}

/// Groups the items by the byte offset of their anchor: group keys strictly
/// descending, each group in insertion order.
pub fn group_by_offset_of<T: Anchored>(vec: Vec<T>) -> (r: Vec<(usize, Vec<T>)>)
    ensures
        groups_match(r@, groups_by_offset(vec@)),
{
    let ghost g = groups_by_offset(vec@);
    let mut rem = vec;
    let mut out: Vec<(usize, Vec<T>)> = Vec::new();
    proof {
        assert(groups_by_offset(rem@) =~= g.subrange(0, g.len() as int));
    }
    while rem.len() > 0
        invariant
            out@.len() <= g.len(),
            groups_by_offset(rem@) == g.subrange(out@.len() as int, g.len() as int),
            forall|j: int|
                0 <= j < out@.len() ==> (#[trigger] out@[j]).0 == g[j].0 && out@[j].1@ == g[j].1,
        decreases rem.len(),
    {
        let n = rem.len();
        let mut m: usize = rem[0].anchor_offset();
        let mut widx: usize = 0;
        let mut i: usize = 1;
        proof {
            assert(rem@.subrange(0, 1).drop_last() =~= Seq::<T>::empty());
            assert(rem@.subrange(0, 1).last() == rem@[0]);
            assert(max_offset(Seq::<T>::empty()) == -1);
            assert(max_offset(rem@.subrange(0, 1)) == rem@[0].anchor().offset as int);
        }
        while i < n
            invariant
                1 <= i <= n == rem@.len(),
                widx < i,
                m == rem@[widx as int].anchor().offset,
                m as int == max_offset(rem@.subrange(0, i as int)),
            decreases n - i,
        {
            proof {
                assert(rem@.subrange(0, i + 1).drop_last() =~= rem@.subrange(0, i as int));
                assert(rem@.subrange(0, i + 1).last() == rem@[i as int]);
            }
            let o = rem[i].anchor_offset();
            if o > m {
                m = o;
                widx = i;
            }
            i = i + 1;
        }
        proof {
            assert(rem@.subrange(0, n as int) =~= rem@);
        }
        let ghost rem0 = rem@;
        let mut kept: Vec<T> = Vec::new();
        let mut rest: Vec<T> = Vec::new();
        let ghost done: int = 0;
        proof {
            assert(rem@ =~= rem0.subrange(0, rem0.len() as int));
        }
        while rem.len() > 0
            invariant
                0 <= done <= rem0.len(),
                rem@ == rem0.subrange(done, rem0.len() as int),
                kept@ == with_offset(rem0.subrange(0, done), m as int),
                rest@ == without_offset(rem0.subrange(0, done), m as int),
                done > widx ==> kept@.len() >= 1,
                widx < rem0.len(),
                m == rem0[widx as int].anchor().offset,
            decreases rem.len(),
        {
            let t = rem.remove(0);
            proof {
                assert(t == rem0[done]);
                assert(rem0.subrange(0, done + 1).drop_last() =~= rem0.subrange(0, done));
                assert(rem0.subrange(0, done + 1).last() == rem0[done]);
            }
            if t.anchor_offset() == m {
                kept.push(t);
            } else {
                rest.push(t);
            }
            proof {
                done = done + 1;
                assert(rem@ =~= rem0.subrange(done, rem0.len() as int));
            }
        }
        proof {
            assert(rem0.subrange(0, rem0.len() as int) =~= rem0);
            assert(kept@ == with_offset(rem0, m as int));
            assert(rest@ == without_offset(rem0, m as int));
            lemma_with_without(rem0, m as int, 0);
            let gs = g.subrange(out@.len() as int, g.len() as int);
            assert(gs == groups_by_offset(rem0));
            assert(groups_by_offset(rem0) == seq![(m as int, with_offset(rem0, m as int))]
                + groups_by_offset(without_offset(rem0, m as int)));
            assert(gs.len() >= 1);
            assert(gs[0] == (m as int, with_offset(rem0, m as int)));
            assert(g[out@.len() as int] == gs[0]);
            assert(groups_by_offset(rest@) =~= gs.subrange(1, gs.len() as int));
            assert(gs.subrange(1, gs.len() as int) =~= g.subrange(
                out@.len() as int + 1,
                g.len() as int,
            ));
        }
        out.push((m, kept));
        rem = rest;
    }
    proof {
        assert(groups_by_offset(rem@) =~= Seq::<(int, Seq<T>)>::empty());
        assert(out@.len() == g.len());
    }
    out
}

/// Whether a list starts with an item anchored at `line`.
fn first_line_is<T: Anchored>(v: &Vec<T>, line: u32) -> (r: bool)
    ensures
        r == (v@.len() > 0 && v@.first().anchor().line == line),
{
    if v.len() == 0 {
        return false;
    }
    v[0].anchor_line() == line
}

/// Groups the items by the line of their anchor: first the items are put in
/// descending anchor-offset order, then maximal contiguous runs of one line
/// number become the groups, in that order.
pub fn group_by_line_of<T: Anchored>(vec: Vec<T>) -> (r: Vec<(u32, Vec<T>)>)
    ensures
        line_groups_match(r@, runs_by_line(sorted_by_offset(vec@))),
{
    let ghost gspec = groups_by_offset(vec@);
    let mut groups = group_by_offset_of(vec);
    let mut flat: Vec<T> = Vec::new();
    let ghost gall = groups@;
    let ghost done: int = 0;
    while groups.len() > 0
        invariant
            0 <= done <= gall.len(),
            groups@ == gall.subrange(done, gall.len() as int),
            flat@ == flatten_groups(gspec.subrange(0, done)),
            groups_match(gall, gspec),
        decreases groups.len(),
    {
        let grp = groups.remove(0);
        let mut members = grp.1;
        proof {
            assert(grp == gall[done]);
            assert(members@ == gspec[done].1);
        }
        flat.append(&mut members);
        proof {
            done = done + 1;
            assert(groups@ =~= gall.subrange(done, gall.len() as int));
            assert(gspec.subrange(0, done).drop_last() =~= gspec.subrange(0, done - 1));
            assert(gspec.subrange(0, done).last() == gspec[done - 1]);
        }
    }
    proof {
        assert(gspec.subrange(0, gspec.len() as int) =~= gspec);
        assert(flat@ == sorted_by_offset(vec@));
    }
    let ghost flat0 = flat@;
    let ghost rr = runs_by_line(flat0);
    let mut rem = flat;
    let mut out: Vec<(u32, Vec<T>)> = Vec::new();
    proof {
        assert(runs_by_line(rem@) =~= rr.subrange(0, rr.len() as int));
    }
    while rem.len() > 0
        invariant
            out@.len() <= rr.len(),
            runs_by_line(rem@) == rr.subrange(out@.len() as int, rr.len() as int),
            forall|j: int|
                0 <= j < out@.len() ==> (#[trigger] out@[j]).0 == rr[j].0 && out@[j].1@ == rr[j].1,
        decreases rem.len(),
    {
        let ghost rstart = rem@;
        let l = rem[0].anchor_line();
        let mut cur: Vec<T> = Vec::new();
        let t0 = rem.remove(0);
        cur.push(t0);
        proof {
            assert(cur@ =~= rstart.subrange(0, 1));
            assert(rem@ =~= rstart.subrange(1, rstart.len() as int));
        }
        while first_line_is(&rem, l)
            invariant
                1 <= cur@.len() <= rstart.len(),
                cur@ == rstart.subrange(0, cur@.len() as int),
                rem@ == rstart.subrange(cur@.len() as int, rstart.len() as int),
                forall|i: int| 0 <= i < cur@.len() ==> (#[trigger] cur@[i]).anchor().line == l,
            decreases rem.len(),
        {
            let ghost k0 = cur@.len() as int;
            let t = rem.remove(0);
            proof {
                assert(t == rstart[k0]);
            }
            cur.push(t);
            proof {
                assert(cur@ =~= rstart.subrange(0, k0 + 1));
                assert(rem@ =~= rstart.subrange(k0 + 1, rstart.len() as int));
            }
        }
        proof {
            let k = cur@.len() as int;
            assert(forall|i: int| 0 <= i < k ==> rstart[i] == cur@[i]);
            if k < rstart.len() {
                assert(rem@.first() == rstart[k]);
                assert(rstart[k].anchor().line != l);
            }
            lemma_run_len_is(rstart, l as int, k);
            let rs = rr.subrange(out@.len() as int, rr.len() as int);
            assert(rs == runs_by_line(rstart));
            assert(runs_by_line(rstart) == seq![(l as int, rstart.subrange(0, k))] + runs_by_line(
                rstart.subrange(k, rstart.len() as int),
            ));
            assert(rs.len() >= 1);
            assert(rs[0] == (l as int, rstart.subrange(0, k)));
            assert(rr[out@.len() as int] == rs[0]);
            assert(runs_by_line(rem@) =~= rs.subrange(1, rs.len() as int));
            assert(rs.subrange(1, rs.len() as int) =~= rr.subrange(
                out@.len() as int + 1,
                rr.len() as int,
            ));
        }
        out.push((l, cur));
    }
    proof {
        assert(runs_by_line(rem@) =~= Seq::<(int, Seq<T>)>::empty());
        assert(out@.len() == rr.len());
    }
    out
}

} // verus!
