//! The whole page pipeline: operators in, reading-ordered strings out.
//!
//! One page's operator sequence is scanned into raw glyph runs, the
//! runs are sorted into reading order, each run is decoded through the
//! font table — the first failure aborting the whole page, with no
//! partial output — and the decoded runs are clustered and trimmed.
//! The result is pinned to the specification [`spec_extract`], a
//! function of the operators, the table and the tolerances alone.

use vstd::prelude::*;
use crate::cluster::{cluster_to_strings, spec_cluster_strings, ClusterParams, ClusterParamsView};
use crate::decode::{decode_run, lemma_decode_run_wf, spec_decode_run};
use crate::errors::{ExtractError, ExtractErrorView};
use crate::fonts::{table_wf, FontResourceView, FontTable};
use crate::ops::{PageOp, PageOpView};
use crate::order::{sort_runs, sort_runs_spec};
use crate::runs::{DecodedGlyphRun, DecodedRunView, RawGlyphRun, RawRunView};
use crate::scan::{lemma_scan_wf, scan_ops, spec_scan};

verus! {

/// Every run decoded, in order; the first failure fails the page.
pub open spec fn spec_decode_all(runs: Seq<RawRunView>, table: Seq<FontResourceView>) -> Result<
    Seq<DecodedRunView>,
    ExtractErrorView,
>
    decreases runs.len(),
{
    if runs.len() == 0 {
        Ok(Seq::empty())
    } else {
        match spec_decode_run(runs.first(), table) {
            Err(e) => Err(e),
            Ok(d) => match spec_decode_all(runs.drop_first(), table) {
                Ok(rest) => Ok(seq![d] + rest),
                Err(e) => Err(e),
            },
        }
    }
}

/// Decoding preserves well-formedness run by run.
pub proof fn lemma_decode_all_wf(runs: Seq<RawRunView>, table: Seq<FontResourceView>)
    requires
        forall|i: int| 0 <= i < runs.len() ==> (#[trigger] runs[i]).wf(),
        table_wf(table),
    ensures
        match spec_decode_all(runs, table) {
            Ok(ds) => forall|i: int| 0 <= i < ds.len() ==> (#[trigger] ds[i]).wf(),
            Err(_) => true,
        },
    decreases runs.len(),
{
    if runs.len() > 0 {
        assert(runs[0].wf());
        lemma_decode_run_wf(runs.first(), table);
        assert forall|i: int|
            0 <= i < runs.drop_first().len() implies (#[trigger] runs.drop_first()[i]).wf() by {
            assert(runs.drop_first()[i] == runs[i + 1]);
        }
        lemma_decode_all_wf(runs.drop_first(), table);
        match spec_decode_run(runs.first(), table) {
            Err(_) => {},
            Ok(d) => {
                match spec_decode_all(runs.drop_first(), table) {
                    Ok(rest) => {
                        assert forall|i: int|
                            0 <= i < (seq![d] + rest).len() implies (#[trigger] (seq![d]
                            + rest)[i]).wf() by {
                            if i == 0 {
                                assert((seq![d] + rest)[0] == d);
                            } else {
                                assert((seq![d] + rest)[i] == rest[i - 1]);
                            }
                        }
                    },
                    Err(_) => {},
                }
            },
        }
    }
}

/// What one page's extraction yields: the clustered, trimmed, non-empty
/// strings of the sorted and decoded runs, or the first run's failure.
pub open spec fn spec_extract(
    ops: Seq<PageOpView>,
    table: Seq<FontResourceView>,
    params: ClusterParamsView,
) -> Result<Seq<Seq<char>>, ExtractErrorView> {
    let sorted = sort_runs_spec(spec_scan(ops));
    match spec_decode_all(sorted, table) {
        Err(e) => Err(e),
        Ok(ds) => Ok(spec_cluster_strings(ds, params)),
    }
}

/// `rest` with `prefix` prepended on success.
spec fn dcat(
    prefix: Seq<DecodedRunView>,
    rest: Result<Seq<DecodedRunView>, ExtractErrorView>,
) -> Result<Seq<DecodedRunView>, ExtractErrorView> {
    match rest {
        Ok(r) => Ok(prefix + r),
        Err(e) => Err(e),
    }
}

/// Decodes every run in order: returns exactly [`spec_decode_all`].
#[verifier::loop_isolation(false)]
pub fn decode_all(runs: &Vec<RawGlyphRun>, table: &FontTable) -> (r: Result<
    Vec<DecodedGlyphRun>,
    ExtractError,
>)
    ensures
        match r {
            Ok(ds) => spec_decode_all(runs.deep_view(), table@) == Ok::<
                Seq<DecodedRunView>,
                ExtractErrorView,
            >(ds.deep_view()),
            Err(e) => spec_decode_all(runs.deep_view(), table@) == Err::<
                Seq<DecodedRunView>,
                ExtractErrorView,
            >(e@),
        },
{
    let ghost rv = runs.deep_view();
    let mut out: Vec<DecodedGlyphRun> = Vec::new();
    let mut i: usize = 0;
    proof {
        assert(rv.skip(0) =~= rv);
        match spec_decode_all(rv, table@) {
            Ok(ds) => {
                assert(Seq::<DecodedRunView>::empty() + ds =~= ds);
            },
            Err(_) => {},
        }
    }
    while i < runs.len()
        invariant
            i <= runs.len(),
            spec_decode_all(rv, table@) == dcat(
                out.deep_view(),
                spec_decode_all(rv.skip(i as int), table@),
            ),
        decreases runs.len() - i,
    {
        let ghost pre = out.deep_view();
        proof {
            assert(rv.skip(i as int).first() == rv[i as int]);
            assert(rv.skip(i as int).drop_first() =~= rv.skip(i as int + 1));
        }
        match decode_run(&runs[i], table) {
            Ok(d) => {
                let ghost dv = d@;
                out.push(d);
                proof {
                    assert(out.deep_view() =~= pre.push(dv));
                    match spec_decode_all(rv.skip(i as int + 1), table@) {
                        Ok(rest) => {
                            assert(pre + (seq![dv] + rest) =~= pre.push(dv) + rest);
                        },
                        Err(_) => {},
                    }
                }
            },
            Err(e) => {
                return Err(e);
            },
        }
        i += 1;
    }
    proof {
        assert(rv.skip(rv.len() as int).len() == 0);
        match spec_decode_all(rv, table@) {
            Ok(ds) => {
                assert(out.deep_view() + Seq::<DecodedRunView>::empty() =~= out.deep_view());
            },
            Err(_) => {},
        }
    }
    Ok(out)
}

/// Extracts one page's strings: scans the operators, sorts the runs
/// into reading order, decodes them through the table, clusters and
/// trims. Returns exactly [`spec_extract`]; the first decoding failure
/// aborts the page with no partial output.
pub fn extract_page_strings(ops: &Vec<PageOp>, table: &FontTable, params: &ClusterParams) -> (r:
    Result<Vec<String>, ExtractError>)
    requires
        forall|i: int| 0 <= i < ops.deep_view().len() ==> (#[trigger] ops.deep_view()[i]).wf(),
        table_wf(table@),
        params@.wf(),
    ensures
        match r {
            Ok(v) => spec_extract(ops.deep_view(), table@, params@) == Ok::<
                Seq<Seq<char>>,
                ExtractErrorView,
            >(v.deep_view()),
            Err(e) => spec_extract(ops.deep_view(), table@, params@) == Err::<
                Seq<Seq<char>>,
                ExtractErrorView,
            >(e@),
        },
{
    let raw = scan_ops(ops);
    let sorted = sort_runs(raw);
    proof {
        lemma_scan_wf(ops.deep_view());
        crate::order::lemma_sort_runs_multiset(spec_scan(ops.deep_view()));
        lemma_sorted_wf(spec_scan(ops.deep_view()), sorted.deep_view());
    }
    let decoded = match decode_all(&sorted, table) {
        Ok(d) => d,
        Err(e) => {
            return Err(e);
        },
    };
    proof {
        lemma_decode_all_wf(sorted.deep_view(), table@);
    }
    let strings = cluster_to_strings(decoded, params);
    Ok(strings)
}

/// A permutation of well-formed runs is well-formed.
proof fn lemma_sorted_wf(orig: Seq<RawRunView>, sorted: Seq<RawRunView>)
    requires
        forall|i: int| 0 <= i < orig.len() ==> (#[trigger] orig[i]).wf(),
        sorted.to_multiset() =~= orig.to_multiset(),
    ensures
        forall|i: int| 0 <= i < sorted.len() ==> (#[trigger] sorted[i]).wf(),
{
    broadcast use vstd::seq_lib::group_to_multiset_ensures;

    assert forall|i: int| 0 <= i < sorted.len() implies (#[trigger] sorted[i]).wf() by {
        assert(sorted.to_multiset().count(sorted[i]) > 0);
        assert(orig.contains(sorted[i]));
        let k = choose|k: int| 0 <= k < orig.len() && orig[k] == sorted[i];
        assert(orig[k].wf());
    }
}

} // verus!
