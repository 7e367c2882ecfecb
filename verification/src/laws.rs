//! The library's global guarantees, stated and proved over the same
//! specifications the executable contracts use.

use vstd::prelude::*;
use crate::cluster::{
    merged_run, should_merge, spec_cluster, spec_cluster_rec, ClusterParamsView,
};
use crate::errors::ExtractErrorView;
use crate::fonts::FontResourceView;
use crate::ops::PageOpView;
use crate::order::pos_lt;
use crate::pipeline::spec_extract;
use crate::runs::DecodedRunView;
use vstd::math::abs;

verus! {

/// Determinism: extraction is a function of the operator sequence, the
/// font table and the tolerances alone, so for fixed inputs any two
/// results meeting the extraction contract are the same value, byte for
/// byte.
pub proof fn lemma_extract_deterministic(
    ops: Seq<PageOpView>,
    table: Seq<FontResourceView>,
    params: ClusterParamsView,
    r1: Result<Seq<Seq<char>>, ExtractErrorView>,
    r2: Result<Seq<Seq<char>>, ExtractErrorView>,
)
    requires
        r1 == spec_extract(ops, table, params),
        r2 == spec_extract(ops, table, params),
    ensures
        r1 == r2,
{
}

/// Font-boundary non-merge: two runs with differing font references are
/// never treated as a continuation, regardless of geometric distance.
pub proof fn lemma_font_boundary_non_merge(
    a: DecodedRunView,
    r: DecodedRunView,
    p: ClusterParamsView,
)
    requires
        a.font_ref != r.font_ref,
    ensures
        !should_merge(a, r, p),
{
}

/// Vertical-tolerance non-merge: a run whose baseline distance from the
/// accumulator reaches the vertical tolerance is never merged, even at
/// horizontal distance zero.
pub proof fn lemma_vertical_non_merge(a: DecodedRunView, r: DecodedRunView, p: ClusterParamsView)
    requires
        abs(r.y - a.y) >= p.dy_tolerance,
    ensures
        !should_merge(a, r, p),
{
}

/// A refused continuation flushes the accumulator: the next output run
/// starts exactly at the refused run.
pub proof fn lemma_non_merge_flushes(
    acc: DecodedRunView,
    s: Seq<DecodedRunView>,
    p: ClusterParamsView,
)
    requires
        s.len() > 0,
        !should_merge(acc, s.first(), p),
    ensures
        spec_cluster_rec(acc, s, p) == seq![acc] + spec_cluster_rec(s.first(), s.drop_first(), p),
{
}

/// Strict reading order between two positions.
pub open spec fn run_pos_lt(a: DecodedRunView, b: DecodedRunView) -> bool {
    pos_lt(a.y, a.x, b.y, b.x)
}

/// Pairwise strict reading order.
pub open spec fn strictly_ordered(s: Seq<DecodedRunView>) -> bool {
    forall|i: int, j: int| 0 <= i < j < s.len() ==> run_pos_lt(#[trigger] s[i], #[trigger] s[j])
}

proof fn lemma_cluster_rec_ordering(
    acc: DecodedRunView,
    s: Seq<DecodedRunView>,
    p: ClusterParamsView,
)
    requires
        strictly_ordered(s),
        forall|i: int| 0 <= i < s.len() ==> run_pos_lt(acc, #[trigger] s[i]),
    ensures
        strictly_ordered(spec_cluster_rec(acc, s, p)),
        spec_cluster_rec(acc, s, p).len() > 0,
        spec_cluster_rec(acc, s, p)[0].x == acc.x,
        spec_cluster_rec(acc, s, p)[0].y == acc.y,
        forall|i: int|
            0 <= i < spec_cluster_rec(acc, s, p).len() ==> ((#[trigger] spec_cluster_rec(
                acc,
                s,
                p,
            )[i]).x == acc.x && spec_cluster_rec(acc, s, p)[i].y == acc.y || exists|k: int|
                0 <= k < s.len() && spec_cluster_rec(acc, s, p)[i].x == s[k].x
                    && spec_cluster_rec(acc, s, p)[i].y == s[k].y),
    decreases s.len(),
{
    let out = spec_cluster_rec(acc, s, p);
    if s.len() == 0 {
        assert(out =~= seq![acc]);
    } else {
        assert forall|i: int, j: int|
            0 <= i < j < s.drop_first().len() implies run_pos_lt(
            #[trigger] s.drop_first()[i],
            #[trigger] s.drop_first()[j],
        ) by {
            assert(s.drop_first()[i] == s[i + 1]);
            assert(s.drop_first()[j] == s[j + 1]);
        }
        if should_merge(acc, s.first(), p) {
            let m = merged_run(acc, s.first());
            assert forall|i: int|
                0 <= i < s.drop_first().len() implies run_pos_lt(
                m,
                #[trigger] s.drop_first()[i],
            ) by {
                assert(s.drop_first()[i] == s[i + 1]);
            }
            lemma_cluster_rec_ordering(m, s.drop_first(), p);
            assert forall|i: int|
                0 <= i < out.len() implies ((#[trigger] out[i]).x == acc.x && out[i].y == acc.y
                || exists|k: int| 0 <= k < s.len() && out[i].x == s[k].x && out[i].y == s[k].y) by {
                if out[i].x == m.x && out[i].y == m.y {
                } else {
                    let k = choose|k: int|
                        0 <= k < s.drop_first().len() && out[i].x == s.drop_first()[k].x
                            && out[i].y == s.drop_first()[k].y;
                    assert(s.drop_first()[k] == s[k + 1]);
                    assert(out[i].x == s[k + 1].x && out[i].y == s[k + 1].y);
                }
            }
        } else {
            let f = s.first();
            assert forall|i: int|
                0 <= i < s.drop_first().len() implies run_pos_lt(
                f,
                #[trigger] s.drop_first()[i],
            ) by {
                assert(s.drop_first()[i] == s[i + 1]);
            }
            lemma_cluster_rec_ordering(f, s.drop_first(), p);
            let rest = spec_cluster_rec(f, s.drop_first(), p);
            assert(out =~= seq![acc] + rest);
            assert forall|i: int|
                0 <= i < out.len() implies ((#[trigger] out[i]).x == acc.x && out[i].y == acc.y
                || exists|k: int| 0 <= k < s.len() && out[i].x == s[k].x && out[i].y == s[k].y) by {
                if i == 0 {
                    assert(out[0] == acc);
                } else {
                    assert(out[i] == rest[i - 1]);
                    if rest[i - 1].x == f.x && rest[i - 1].y == f.y {
                        assert(out[i].x == s[0].x && out[i].y == s[0].y);
                    } else {
                        let k = choose|k: int|
                            0 <= k < s.drop_first().len() && rest[i - 1].x == s.drop_first()[k].x
                                && rest[i - 1].y == s.drop_first()[k].y;
                        assert(s.drop_first()[k] == s[k + 1]);
                        assert(out[i].x == s[k + 1].x && out[i].y == s[k + 1].y);
                    }
                }
            }
            assert forall|i: int, j: int|
                0 <= i < j < out.len() implies run_pos_lt(
                #[trigger] out[i],
                #[trigger] out[j],
            ) by {
                if i == 0 {
                    assert(out[j] == rest[j - 1]);
                    if rest[j - 1].x == f.x && rest[j - 1].y == f.y {
                        assert(run_pos_lt(acc, f));
                    } else {
                        let k = choose|k: int|
                            0 <= k < s.drop_first().len() && rest[j - 1].x == s.drop_first()[k].x
                                && rest[j - 1].y == s.drop_first()[k].y;
                        assert(s.drop_first()[k] == s[k + 1]);
                        assert(run_pos_lt(acc, s[k + 1]));
                    }
                } else {
                    assert(out[i] == rest[i - 1]);
                    assert(out[j] == rest[j - 1]);
                }
            }
        }
    }
}

/// Ordering invariant: when the decoded runs stand in strict reading
/// order — strictly higher line, or the same line strictly further left,
/// which sorting yields whenever no two runs share a position — the
/// merged runs the clusterer emits stand in the same strict order, so
/// each emitted string's source lies strictly above, or strictly left
/// on the same line of, the next one's.
pub proof fn lemma_cluster_preserves_order(s: Seq<DecodedRunView>, p: ClusterParamsView)
    requires
        strictly_ordered(s),
    ensures
        strictly_ordered(spec_cluster(s, p)),
{
    if s.len() > 0 {
        assert forall|i: int, j: int|
            0 <= i < j < s.drop_first().len() implies run_pos_lt(
            #[trigger] s.drop_first()[i],
            #[trigger] s.drop_first()[j],
        ) by {
            assert(s.drop_first()[i] == s[i + 1]);
            assert(s.drop_first()[j] == s[j + 1]);
        }
        assert forall|i: int|
            0 <= i < s.drop_first().len() implies run_pos_lt(
            s[0],
            #[trigger] s.drop_first()[i],
        ) by {
            assert(s.drop_first()[i] == s[i + 1]);
        }
        lemma_cluster_rec_ordering(s[0], s.drop_first(), p);
    }
}

} // verus!

verus! {

/// No two runs share a position.
pub open spec fn distinct_positions(s: Seq<crate::runs::RawRunView>) -> bool {
    forall|i: int, j: int|
        0 <= i < j < s.len() ==> !((#[trigger] s[i]).x == (#[trigger] s[j]).x && s[i].y == s[j].y)
}

/// Two distinct indices holding one value give that value multiplicity
/// at least two.
proof fn lemma_dup_count(s: Seq<crate::runs::RawRunView>, i: int, j: int)
    requires
        0 <= i < j < s.len(),
        s[i] == s[j],
    ensures
        s.to_multiset().count(s[i]) >= 2,
{
    broadcast use vstd::seq_lib::group_to_multiset_ensures;

    let r = s.remove(i);
    assert(r.to_multiset() =~= s.to_multiset().remove(s[i]));
    assert(r[j - 1] == s[j]);
    assert(r.contains(s[i]));
    assert(r.to_multiset().count(s[i]) > 0);
    assert(s.to_multiset().count(s[i]) == r.to_multiset().count(s[i]) + 1);
}

/// A permutation of runs with pairwise distinct positions has pairwise
/// distinct positions.
proof fn lemma_permutation_distinct(orig: Seq<crate::runs::RawRunView>, perm: Seq<
    crate::runs::RawRunView,
>)
    requires
        perm.to_multiset() =~= orig.to_multiset(),
        distinct_positions(orig),
    ensures
        distinct_positions(perm),
{
    broadcast use vstd::seq_lib::group_to_multiset_ensures;

    assert forall|i: int, j: int|
        0 <= i < j < perm.len() implies !((#[trigger] perm[i]).x == (#[trigger] perm[j]).x
        && perm[i].y == perm[j].y) by {
        if perm[i].x == perm[j].x && perm[i].y == perm[j].y {
            if perm[i] == perm[j] {
                lemma_dup_count(perm, i, j);
                assert(orig.to_multiset().count(perm[i]) >= 2);
                let r = orig.remove_value(perm[i]);
                assert(orig.contains(perm[i]));
                let k = choose|k: int| 0 <= k < orig.len() && orig[k] == perm[i];
                assert(orig.remove(k).to_multiset() =~= orig.to_multiset().remove(orig[k]));
                assert(orig.remove(k).to_multiset().count(perm[i]) >= 1);
                assert(orig.remove(k).contains(perm[i]));
                let l = choose|l: int|
                    0 <= l < orig.remove(k).len() && orig.remove(k)[l] == perm[i];
                if l < k {
                    assert(orig[l] == perm[i]);
                    assert(!(orig[l].x == orig[k].x && orig[l].y == orig[k].y));
                } else {
                    assert(orig[l + 1] == perm[i]);
                    assert(!(orig[k].x == orig[l + 1].x && orig[k].y == orig[l + 1].y));
                }
            } else {
                assert(perm.contains(perm[i]));
                assert(perm.contains(perm[j]));
                assert(orig.to_multiset().count(perm[i]) > 0);
                assert(orig.to_multiset().count(perm[j]) > 0);
                assert(orig.contains(perm[i]));
                assert(orig.contains(perm[j]));
                let k = choose|k: int| 0 <= k < orig.len() && orig[k] == perm[i];
                let l = choose|l: int| 0 <= l < orig.len() && orig[l] == perm[j];
                assert(k != l);
                if k < l {
                    assert(!(orig[k].x == orig[l].x && orig[k].y == orig[l].y));
                } else {
                    assert(!(orig[l].x == orig[k].x && orig[l].y == orig[k].y));
                }
            }
        }
    }
}

/// A successfully decoded page has one decoded run per raw run, in
/// order, each at its raw run's position.
proof fn lemma_decode_all_positions(runs: Seq<crate::runs::RawRunView>, table: Seq<
    FontResourceView,
>)
    ensures
        match crate::pipeline::spec_decode_all(runs, table) {
            Ok(ds) => ds.len() == runs.len() && forall|i: int|
                0 <= i < ds.len() ==> (#[trigger] ds[i]).x == runs[i].x && ds[i].y == runs[i].y,
            Err(_) => true,
        },
    decreases runs.len(),
{
    if runs.len() > 0 {
        lemma_decode_all_positions(runs.drop_first(), table);
        match crate::pipeline::spec_decode_all(runs, table) {
            Ok(ds) => {
                let d0 = crate::decode::spec_decode_run(runs.first(), table);
                match crate::pipeline::spec_decode_all(runs.drop_first(), table) {
                    Ok(rest) => {
                        assert forall|i: int|
                            0 <= i < ds.len() implies (#[trigger] ds[i]).x == runs[i].x && ds[i].y
                            == runs[i].y by {
                            if i == 0 {
                                assert(ds[0] == d0->Ok_0);
                            } else {
                                assert(ds[i] == rest[i - 1]);
                                assert(runs.drop_first()[i - 1] == runs[i]);
                            }
                        }
                    },
                    Err(_) => {},
                }
            },
            Err(_) => {},
        }
    }
}

/// Ordering invariant, end to end: when no two scanned runs of a page
/// share a position, the merged runs a successful extraction clusters —
/// whose trimmed texts are the page's output strings, in this order —
/// stand in strict reading order: each strictly above the next, or on
/// the same line strictly to its left.
pub proof fn lemma_extract_ordering(
    ops: Seq<PageOpView>,
    table: Seq<FontResourceView>,
    params: ClusterParamsView,
)
    requires
        distinct_positions(crate::scan::spec_scan(ops)),
        crate::pipeline::spec_decode_all(
            crate::order::sort_runs_spec(crate::scan::spec_scan(ops)),
            table,
        ) is Ok,
    ensures
        strictly_ordered(
            spec_cluster(
                crate::pipeline::spec_decode_all(
                    crate::order::sort_runs_spec(crate::scan::spec_scan(ops)),
                    table,
                )->Ok_0,
                params,
            ),
        ),
{
    let raw = crate::scan::spec_scan(ops);
    let sorted = crate::order::sort_runs_spec(raw);
    crate::order::lemma_sort_runs_multiset(raw);
    crate::order::lemma_sort_runs_sorted(raw);
    lemma_permutation_distinct(raw, sorted);
    let ds = crate::pipeline::spec_decode_all(sorted, table)->Ok_0;
    lemma_decode_all_positions(sorted, table);
    assert forall|i: int, j: int| 0 <= i < j < ds.len() implies run_pos_lt(
        #[trigger] ds[i],
        #[trigger] ds[j],
    ) by {
        assert(crate::order::run_le(sorted[i], sorted[j]));
        assert(!(sorted[i].x == sorted[j].x && sorted[i].y == sorted[j].y));
        assert(ds[i].x == sorted[i].x && ds[i].y == sorted[i].y);
        assert(ds[j].x == sorted[j].x && ds[j].y == sorted[j].y);
    }
    lemma_cluster_preserves_order(ds, params);
}

} // verus!
