//! Reading order: sorting raw glyph runs top-to-bottom, left-to-right.
//!
//! Page coordinates increase upward, so reading order is descending `y`
//! first and ascending `x` second. The sort is specified by the stable
//! insertion fold [`sort_runs_spec`], and [`sort_runs`] returns exactly
//! that fold's result: runs with equal positions keep their stream order.

use vstd::prelude::*;
use crate::runs::{RawGlyphRun, RawRunView};

verus! {

/// Reading order on runs: `a` comes no later than `b` when `a` is on a
/// strictly higher line, or on the same line no further right.
pub open spec fn run_le(a: RawRunView, b: RawRunView) -> bool {
    a.y > b.y || (a.y == b.y && a.x <= b.x)
}

/// `a` comes strictly before `b` in reading order: a strictly higher
/// line, or the same line strictly further left.
pub open spec fn pos_lt(ay: int, ax: int, by: int, bx: int) -> bool {
    ay > by || (ay == by && ax < bx)
}

/// `x` inserted after every element that compares no later than it: the
/// insertion step of a stable insertion sort.
pub open spec fn insert_sorted(x: RawRunView, s: Seq<RawRunView>) -> Seq<RawRunView>
    decreases s.len(),
{
    if s.len() == 0 {
        seq![x]
    } else if run_le(s.first(), x) {
        seq![s.first()] + insert_sorted(x, s.drop_first())
    } else {
        seq![x] + s
    }
}

/// The whole sequence sorted by [`run_le`], stably: each element is
/// inserted, in stream order, after the elements already placed that
/// compare no later than it.
pub open spec fn sort_runs_spec(s: Seq<RawRunView>) -> Seq<RawRunView>
    decreases s.len(),
{
    if s.len() == 0 {
        Seq::empty()
    } else {
        insert_sorted(s.last(), sort_runs_spec(s.drop_last()))
    }
}

/// Pairwise sortedness under [`run_le`].
pub open spec fn sorted_runs(s: Seq<RawRunView>) -> bool {
    forall|i: int, j: int| 0 <= i < j < s.len() ==> run_le(#[trigger] s[i], #[trigger] s[j])
}

/// Inserting at the first position whose element does not compare
/// `run_le`-before `x` realises [`insert_sorted`].
proof fn lemma_insert_sorted_at(x: RawRunView, s: Seq<RawRunView>, p: int)
    requires
        0 <= p <= s.len(),
        forall|i: int| 0 <= i < p ==> run_le(#[trigger] s[i], x),
        p < s.len() ==> !run_le(s[p], x),
    ensures
        insert_sorted(x, s) == s.insert(p, x),
    decreases p,
{
    if p == 0 {
        if s.len() == 0 {
            assert(insert_sorted(x, s) =~= s.insert(0, x));
        } else {
            assert(!run_le(s.first(), x));
            assert(insert_sorted(x, s) =~= s.insert(0, x));
        }
    } else {
        assert(run_le(s.first(), x));
        assert forall|i: int| 0 <= i < p - 1 implies run_le(#[trigger] s.drop_first()[i], x) by {
            assert(s.drop_first()[i] == s[i + 1]);
        }
        lemma_insert_sorted_at(x, s.drop_first(), p - 1);
        assert(insert_sorted(x, s) =~= s.insert(p, x));
    }
}

/// Insertion keeps sortedness.
proof fn lemma_insert_sorted_sorted(x: RawRunView, s: Seq<RawRunView>)
    requires
        sorted_runs(s),
    ensures
        sorted_runs(insert_sorted(x, s)),
    decreases s.len(),
{
    if s.len() == 0 {
    } else if run_le(s.first(), x) {
        assert forall|i: int, j: int|
            0 <= i < j < s.drop_first().len() implies run_le(
            #[trigger] s.drop_first()[i],
            #[trigger] s.drop_first()[j],
        ) by {
            assert(s.drop_first()[i] == s[i + 1]);
            assert(s.drop_first()[j] == s[j + 1]);
        }
        lemma_insert_sorted_sorted(x, s.drop_first());
        let r = seq![s.first()] + insert_sorted(x, s.drop_first());
        assert forall|i: int, j: int| 0 <= i < j < r.len() implies run_le(
            #[trigger] r[i],
            #[trigger] r[j],
        ) by {
            if i == 0 {
                let inner = insert_sorted(x, s.drop_first());
                assert(r[j] == inner[j - 1]);
                lemma_insert_sorted_members(x, s.drop_first());
                if inner[j - 1] == x {
                } else {
                    assert(exists|k: int|
                        0 <= k < s.drop_first().len() && s.drop_first()[k] == inner[j - 1]);
                    let k = choose|k: int|
                        0 <= k < s.drop_first().len() && s.drop_first()[k] == inner[j - 1];
                    assert(s.drop_first()[k] == s[k + 1]);
                    assert(run_le(s[0], s[k + 1]));
                }
            } else {
                assert(r[i] == insert_sorted(x, s.drop_first())[i - 1]);
                assert(r[j] == insert_sorted(x, s.drop_first())[j - 1]);
            }
        }
    } else {
        assert forall|i: int, j: int|
            0 <= i < j < insert_sorted(x, s).len() implies run_le(
            #[trigger] insert_sorted(x, s)[i],
            #[trigger] insert_sorted(x, s)[j],
        ) by {
            let r = insert_sorted(x, s);
            if i == 0 {
                assert(r[0] == x);
                assert(r[j] == s[j - 1]);
                assert(!run_le(s[0], x));
                assert(run_le(x, s[0]));
                if j > 1 {
                    assert(run_le(s[0], s[j - 1]));
                }
            } else {
                assert(r[i] == s[i - 1]);
                assert(r[j] == s[j - 1]);
            }
        }
    }
}

/// Every element of an insertion result is `x` or one of the original
/// elements.
proof fn lemma_insert_sorted_members(x: RawRunView, s: Seq<RawRunView>)
    ensures
        forall|i: int|
            0 <= i < insert_sorted(x, s).len() ==> (#[trigger] insert_sorted(x, s)[i] == x
                || exists|k: int| 0 <= k < s.len() && s[k] == insert_sorted(x, s)[i]),
    decreases s.len(),
{
    if s.len() == 0 {
    } else if run_le(s.first(), x) {
        lemma_insert_sorted_members(x, s.drop_first());
        assert forall|i: int|
            0 <= i < insert_sorted(x, s).len() implies (#[trigger] insert_sorted(x, s)[i] == x
            || exists|k: int| 0 <= k < s.len() && s[k] == insert_sorted(x, s)[i]) by {
            let r = insert_sorted(x, s);
            if i == 0 {
                assert(r[0] == s[0]);
            } else {
                let inner = insert_sorted(x, s.drop_first());
                assert(r[i] == inner[i - 1]);
                if inner[i - 1] == x {
                } else {
                    let k = choose|k: int|
                        0 <= k < s.drop_first().len() && s.drop_first()[k] == inner[i - 1];
                    assert(s[k + 1] == inner[i - 1]);
                }
            }
        }
    } else {
    }
}

/// Insertion adds exactly `x` to the multiset of elements.
proof fn lemma_insert_sorted_multiset(x: RawRunView, s: Seq<RawRunView>)
    ensures
        insert_sorted(x, s).to_multiset() =~= s.to_multiset().insert(x),
    decreases s.len(),
{
    broadcast use vstd::seq_lib::group_to_multiset_ensures;

    if s.len() == 0 {
        assert(insert_sorted(x, s) =~= Seq::empty().push(x));
        assert(Seq::<RawRunView>::empty().push(x).to_multiset() =~= Seq::<
            RawRunView,
        >::empty().to_multiset().insert(x));
    } else if run_le(s.first(), x) {
        lemma_insert_sorted_multiset(x, s.drop_first());
        assert(insert_sorted(x, s) =~= insert_sorted(x, s.drop_first()).insert(
            0,
            s.first(),
        ));
        lemma_multiset_insert_any(insert_sorted(x, s.drop_first()), 0, s.first());
        assert(s =~= s.drop_first().insert(0, s.first()));
        lemma_multiset_insert_any(s.drop_first(), 0, s.first());
    } else {
        assert(insert_sorted(x, s) =~= s.insert(0, x));
        lemma_multiset_insert_any(s, 0, x);
    }
}

/// Inserting an element anywhere in a sequence inserts it into the
/// multiset of elements.
proof fn lemma_multiset_insert_any(s: Seq<RawRunView>, p: int, x: RawRunView)
    requires
        0 <= p <= s.len(),
    ensures
        s.insert(p, x).to_multiset() =~= s.to_multiset().insert(x),
    decreases s.len() - p,
{
    broadcast use vstd::seq_lib::group_to_multiset_ensures;

    if p == s.len() {
        assert(s.insert(p, x) =~= s.push(x));
    } else {
        lemma_multiset_insert_any(s, p + 1, x);
        let a = s.insert(p, x);
        let b = s.insert(p + 1, x);
        assert(a =~= b.update(p, x).update(p + 1, s[p]));
        lemma_multiset_swap_adjacent(b, p);
    }
}

/// Swapping two adjacent elements keeps the multiset of elements.
proof fn lemma_multiset_swap_adjacent(s: Seq<RawRunView>, p: int)
    requires
        0 <= p,
        p + 1 < s.len(),
    ensures
        s.update(p, s[p + 1]).update(p + 1, s[p]).to_multiset() =~= s.to_multiset(),
    decreases s.len(),
{
    broadcast use vstd::seq_lib::group_to_multiset_ensures;

    let t = s.update(p, s[p + 1]).update(p + 1, s[p]);
    if p + 2 == s.len() {
        let base = s.drop_last().drop_last();
        assert(s =~= base.push(s[p]).push(s[p + 1]));
        assert(t =~= base.push(s[p + 1]).push(s[p]));
        assert(base.push(s[p]).push(s[p + 1]).to_multiset() =~= base.to_multiset().insert(
            s[p],
        ).insert(s[p + 1]));
        assert(base.push(s[p + 1]).push(s[p]).to_multiset() =~= base.to_multiset().insert(
            s[p + 1],
        ).insert(s[p]));
    } else {
        let s0 = s.drop_last();
        lemma_multiset_swap_adjacent(s0, p);
        assert(s =~= s0.push(s.last()));
        assert(t =~= s0.update(p, s[p + 1]).update(p + 1, s[p]).push(s.last()));
    }
}

/// The sort permutes its input: same elements, same multiplicities.
pub proof fn lemma_sort_runs_multiset(s: Seq<RawRunView>)
    ensures
        sort_runs_spec(s).to_multiset() =~= s.to_multiset(),
    decreases s.len(),
{
    broadcast use vstd::seq_lib::group_to_multiset_ensures;

    if s.len() > 0 {
        lemma_sort_runs_multiset(s.drop_last());
        lemma_insert_sorted_multiset(s.last(), sort_runs_spec(s.drop_last()));
        assert(s =~= s.drop_last().push(s.last()));
    }
}

/// The sort's result is sorted by [`run_le`].
pub proof fn lemma_sort_runs_sorted(s: Seq<RawRunView>)
    ensures
        sorted_runs(sort_runs_spec(s)),
    decreases s.len(),
{
    if s.len() > 0 {
        lemma_sort_runs_sorted(s.drop_last());
        lemma_insert_sorted_sorted(s.last(), sort_runs_spec(s.drop_last()));
    }
}

/// Sorts the runs into reading order: descending `y`, then ascending `x`,
/// runs with equal positions keeping their stream order. Returns exactly
/// [`sort_runs_spec`] of the input.
pub fn sort_runs(runs: Vec<RawGlyphRun>) -> (r: Vec<RawGlyphRun>)
    ensures
        r.deep_view() == sort_runs_spec(runs.deep_view()),
{
    let ghost g: Seq<RawRunView> = runs.deep_view();
    let mut rest = runs;
    let mut out: Vec<RawGlyphRun> = Vec::new();
    let ghost mut k: int = 0;
    while rest.len() > 0
        invariant
            0 <= k <= g.len(),
            rest.deep_view() =~= g.skip(k),
            out.deep_view() == sort_runs_spec(g.take(k)),
        decreases rest.len(),
    {
        let x = rest.remove(0);
        proof {
            assert(g.skip(k).remove(0) =~= g.skip(k + 1));
            assert(x.deep_view() == g.skip(k)[0]);
            assert(g.skip(k)[0] == g[k]);
        }
        let ghost xv = x.deep_view();
        let mut p: usize = 0;
        while p < out.len() && run_le_exec(&out[p], &x)
            invariant
                0 <= p <= out.len(),
                forall|i: int| 0 <= i < p ==> run_le(#[trigger] out.deep_view()[i], xv),
                xv == x.deep_view(),
            decreases out.len() - p,
        {
            p += 1;
        }
        proof {
            lemma_insert_sorted_at(xv, out.deep_view(), p as int);
        }
        out.insert(p, x);
        proof {
            assert(g.take(k + 1).drop_last() =~= g.take(k));
            assert(g.take(k + 1).last() == g[k]);
            k = k + 1;
        }
    }
    proof {
        assert(g.skip(k).len() == 0);
        assert(k == g.len());
        assert(g.take(k) =~= g);
    }
    out
}

/// The reading-order comparison on concrete runs; equals [`run_le`] of the
/// views.
pub fn run_le_exec(a: &RawGlyphRun, b: &RawGlyphRun) -> (r: bool)
    ensures
        r == run_le(a@, b@),
{
    a.y > b.y || (a.y == b.y && a.x <= b.x)
}

} // verus!
