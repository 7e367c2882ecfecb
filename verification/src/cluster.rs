//! The spatial clusterer: merging a position-sorted sequence of decoded
//! runs into the logical words and lines a reader perceives.
//!
//! One forward pass holds a single accumulator. The next run is merged
//! into the accumulator exactly when it has the same font reference, its
//! vertical distance from the accumulator is under the vertical tolerance,
//! and its horizontal distance from where the accumulator's text is
//! estimated to end is under the horizontal tolerance. The estimate is
//!
//! ```text
//! expected_advance = len(acc.text) * acc.font_size * acc.avg_glyph_width / 1000
//! ```
//!
//! with text length in UTF-8 bytes and 1000 glyph-space units per em. In
//! the milli-unit representation the advance in milli-units is
//! `len * size_milli * width_milli / 1_000_000`, so both sides of the
//! horizontal comparison are scaled by `1_000_000` and compared exactly,
//! with no division. A merged run keeps the accumulator's position, size,
//! font and width; only the text is concatenated. The clusterer never
//! fails.
//!
//! The tolerances are empirically tuned configuration points, not
//! physical constants, so they arrive as [`ClusterParams`];
//! [`ClusterParams::standard`] gives the tuned defaults.

use vstd::prelude::*;
use vstd::math::abs;
use crate::runs::{DecodedGlyphRun, DecodedRunView};
use crate::text::{chars_to_string, text_byte_len, trim_chars, trimmed, utf8_len};

verus! {

/// Default horizontal tolerance, in milli-units: 22 units absorbs
/// inter-word spacing and kerning inaccuracy without bridging separate
/// columns.
pub const DX_TOLERANCE: i64 = 22_000;

/// Default vertical tolerance, in milli-units: 0.05 units is near zero,
/// so runs on different baselines never merge.
pub const DY_TOLERANCE: i64 = 50;

/// Largest tolerance magnitude the clusterer accepts, in milli-units.
pub const TOLERANCE_LIMIT: i64 = 1_000_000_000_000;

/// The clusterer's adjustable tolerances, in milli-units.
#[derive(Debug, Clone, Copy, PartialEq, Eq)]
pub struct ClusterParams {
    /// Horizontal tolerance on the distance between a run's origin and
    /// the accumulator's estimated text end.
    pub dx_tolerance: i64,
    /// Vertical tolerance on the baseline distance.
    pub dy_tolerance: i64,
}

/// Spec-level mirror of [`ClusterParams`].
pub struct ClusterParamsView {
    pub dx_tolerance: int,
    pub dy_tolerance: int,
}

impl View for ClusterParams {
    type V = ClusterParamsView;

    open spec fn view(&self) -> ClusterParamsView {
        ClusterParamsView {
            dx_tolerance: self.dx_tolerance as int,
            dy_tolerance: self.dy_tolerance as int,
        }
    }
}

impl ClusterParamsView {
    /// Tolerances within the magnitudes the arithmetic accepts.
    pub open spec fn wf(self) -> bool {
        &&& 0 <= self.dx_tolerance <= TOLERANCE_LIMIT
        &&& 0 <= self.dy_tolerance <= TOLERANCE_LIMIT
    }
}

impl ClusterParams {
    /// The empirically tuned default tolerances.
    pub fn standard() -> (r: ClusterParams)
        ensures
            r@.dx_tolerance == DX_TOLERANCE,
            r@.dy_tolerance == DY_TOLERANCE,
            r@.wf(),
    {
        ClusterParams { dx_tolerance: DX_TOLERANCE, dy_tolerance: DY_TOLERANCE }
    }
}

/// The accumulator's estimated advance, scaled by `1_000_000`: text
/// length in UTF-8 bytes times size and average width in milli-units.
pub open spec fn advance_scaled(a: DecodedRunView) -> int {
    utf8_len(a.text) * a.font_size * a.avg_glyph_width
}

/// Horizontal distance between `r`'s origin and `a`'s estimated text end,
/// in milli-units scaled by `1_000_000`.
pub open spec fn dx_scaled(a: DecodedRunView, r: DecodedRunView) -> int {
    abs(1_000_000 * (r.x - a.x) - advance_scaled(a)) as int
}

/// Vertical distance between the two baselines, in milli-units.
pub open spec fn dy_milli(a: DecodedRunView, r: DecodedRunView) -> int {
    abs(r.y - a.y) as int
}

/// Whether the next run `r` continues the accumulator `a`: same font, and
/// both distances under the tolerances. Runs of differing fonts never
/// merge, whatever their geometry.
pub open spec fn should_merge(a: DecodedRunView, r: DecodedRunView, p: ClusterParamsView) -> bool {
    &&& a.font_ref == r.font_ref
    &&& dx_scaled(a, r) < p.dx_tolerance * 1_000_000
    &&& dy_milli(a, r) < p.dy_tolerance
}

/// The accumulator after absorbing a continuation: the texts are
/// concatenated and the accumulator's position, size, font and width are
/// kept.
pub open spec fn merged_run(a: DecodedRunView, r: DecodedRunView) -> DecodedRunView {
    DecodedRunView { text: a.text + r.text, ..a }
}

/// The runs flushed by the merge pass, given the current accumulator and
/// the runs still to come; the final accumulator is flushed last.
pub open spec fn spec_cluster_rec(
    acc: DecodedRunView,
    s: Seq<DecodedRunView>,
    p: ClusterParamsView,
) -> Seq<DecodedRunView>
    decreases s.len(),
{
    if s.len() == 0 {
        seq![acc]
    } else if should_merge(acc, s.first(), p) {
        spec_cluster_rec(merged_run(acc, s.first()), s.drop_first(), p)
    } else {
        seq![acc] + spec_cluster_rec(s.first(), s.drop_first(), p)
    }
}

/// The whole merge pass: the first run seeds the accumulator; an empty
/// input yields an empty output.
pub open spec fn spec_cluster(s: Seq<DecodedRunView>, p: ClusterParamsView) -> Seq<
    DecodedRunView,
> {
    if s.len() == 0 {
        Seq::empty()
    } else {
        spec_cluster_rec(s[0], s.drop_first(), p)
    }
}

/// Each flushed run mapped to its whitespace-trimmed text, with runs that
/// trim to nothing dropped.
pub open spec fn trim_and_drop(s: Seq<DecodedRunView>) -> Seq<Seq<char>>
    decreases s.len(),
{
    if s.len() == 0 {
        Seq::empty()
    } else {
        let rest = trim_and_drop(s.drop_first());
        let t = trimmed(s.first().text);
        if t.len() == 0 {
            rest
        } else {
            seq![t] + rest
        }
    }
}

/// The strings one page's decoded, sorted runs cluster to, in order.
pub open spec fn spec_cluster_strings(s: Seq<DecodedRunView>, p: ClusterParamsView) -> Seq<
    Seq<char>,
> {
    trim_and_drop(spec_cluster(s, p))
}

/// Decides [`should_merge`] on concrete runs, exactly and without
/// overflow.
pub fn should_merge_exec(a: &DecodedGlyphRun, r: &DecodedGlyphRun, p: &ClusterParams) -> (m: bool)
    requires
        a@.wf(),
        r@.wf(),
        p@.wf(),
    ensures
        m == should_merge(a@, r@, p@),
{
    if a.font_ref != r.font_ref {
        return false;
    }
    let len: i128 = text_byte_len(&a.text);
    let size: i128 = a.font_size as i128;
    let width: i128 = a.avg_glyph_width as i128;
    proof {
        assert(0 <= len <= 0x4_0000_0000_0000_0000);
        assert(-1_000_000_000 <= size <= 1_000_000_000);
        assert(-1_000_000_000 <= width <= 1_000_000_000);
        assert(-0x4_0000_0000_0000_0000 * 1_000_000_000 <= len * size <= 0x4_0000_0000_0000_0000
            * 1_000_000_000) by (nonlinear_arith)
            requires
                0 <= len <= 0x4_0000_0000_0000_0000,
                -1_000_000_000 <= size <= 1_000_000_000,
        ;
    }
    let m1: i128 = len * size;
    proof {
        assert(-0x4_0000_0000_0000_0000 * 1_000_000_000 * 1_000_000_000 <= m1 * width
            <= 0x4_0000_0000_0000_0000 * 1_000_000_000 * 1_000_000_000) by (nonlinear_arith)
            requires
                -0x4_0000_0000_0000_0000 * 1_000_000_000 <= m1 <= 0x4_0000_0000_0000_0000
                    * 1_000_000_000,
                -1_000_000_000 <= width <= 1_000_000_000,
        ;
    }
    let adv: i128 = m1 * width;
    let dx_base: i128 = 1_000_000 * ((r.x as i128) - (a.x as i128)) - adv;
    let dx: i128 = if dx_base < 0 {
        -dx_base
    } else {
        dx_base
    };
    let dy: i64 = if r.y >= a.y {
        r.y - a.y
    } else {
        a.y - r.y
    };
    proof {
        assert(dx == dx_scaled(a@, r@));
        assert(dy == dy_milli(a@, r@));
    }
    dx < (p.dx_tolerance as i128) * 1_000_000 && (dy as i128) < (p.dy_tolerance as i128)
}

/// Merges the position-sorted runs in one forward pass: returns exactly
/// [`spec_cluster`] of the input. Garbage positions produce garbage
/// clustering, never an error.
pub fn cluster_runs(runs: Vec<DecodedGlyphRun>, p: &ClusterParams) -> (out: Vec<DecodedGlyphRun>)
    requires
        forall|i: int| 0 <= i < runs.deep_view().len() ==> (#[trigger] runs.deep_view()[i]).wf(),
        p@.wf(),
    ensures
        out.deep_view() == spec_cluster(runs.deep_view(), p@),
{
    let ghost g: Seq<DecodedRunView> = runs.deep_view();
    let mut rest = runs;
    let mut out: Vec<DecodedGlyphRun> = Vec::new();
    if rest.len() == 0 {
        proof {
            assert(out.deep_view() =~= spec_cluster(g, p@));
        }
        return out;
    }
    let mut acc = rest.remove(0);
    proof {
        assert(acc.deep_view() == g[0]);
        assert(rest.deep_view() =~= g.drop_first());
    }
    while rest.len() > 0
        invariant
            acc@.wf(),
            p@.wf(),
            forall|i: int|
                0 <= i < rest.deep_view().len() ==> (#[trigger] rest.deep_view()[i]).wf(),
            out.deep_view() + spec_cluster_rec(acc@, rest.deep_view(), p@) == spec_cluster(g, p@),
        decreases rest.len(),
    {
        let ghost rest0 = rest.deep_view();
        let r = rest.remove(0);
        proof {
            assert(r.deep_view() == rest0[0]);
            assert(rest.deep_view() =~= rest0.drop_first());
        }
        if should_merge_exec(&acc, &r, p) {
            let ghost accv = acc@;
            let mut rtext = r.text;
            acc.text.append(&mut rtext);
            proof {
                assert(acc@ == merged_run(accv, rest0.first()));
            }
        } else {
            let ghost accv = acc@;
            out.push(acc);
            acc = r;
            proof {
                assert(out.deep_view().last() == accv);
                assert((out.deep_view() + spec_cluster_rec(acc@, rest.deep_view(), p@)) =~= (
                out.deep_view().drop_last() + (seq![accv] + spec_cluster_rec(
                    acc@,
                    rest.deep_view(),
                    p@,
                ))));
            }
        }
    }
    let ghost accv = acc@;
    out.push(acc);
    proof {
        assert(spec_cluster_rec(accv, Seq::empty(), p@) =~= seq![accv]);
        assert(out.deep_view() =~= out.deep_view().drop_last() + seq![accv]);
        assert(out.deep_view() =~= spec_cluster(g, p@));
    }
    out
}

/// Runs the merge pass and maps each flushed run to its trimmed text,
/// dropping texts that trim to nothing: returns exactly
/// [`spec_cluster_strings`] of the input, as owned strings.
pub fn cluster_to_strings(runs: Vec<DecodedGlyphRun>, p: &ClusterParams) -> (out: Vec<String>)
    requires
        forall|i: int| 0 <= i < runs.deep_view().len() ==> (#[trigger] runs.deep_view()[i]).wf(),
        p@.wf(),
    ensures
        out.deep_view() == spec_cluster_strings(runs.deep_view(), p@),
{
    let ghost g: Seq<DecodedRunView> = runs.deep_view();
    let clustered = cluster_runs(runs, p);
    let ghost cv = clustered.deep_view();
    let mut out: Vec<String> = Vec::new();
    let mut i: usize = 0;
    proof {
        assert(cv.skip(0) =~= cv);
        assert(Seq::<Seq<char>>::empty() + trim_and_drop(cv) =~= trim_and_drop(cv));
    }
    while i < clustered.len()
        invariant
            i <= clustered.len(),
            cv == clustered.deep_view(),
            trim_and_drop(cv) == out.deep_view() + trim_and_drop(cv.skip(i as int)),
        decreases clustered.len() - i,
    {
        let t = trim_chars(&clustered[i].text);
        proof {
            assert(cv.skip(i as int).first() == cv[i as int]);
            assert(cv.skip(i as int).drop_first() =~= cv.skip(i as int + 1));
        }
        if t.len() > 0 {
            let s = chars_to_string(&t);
            out.push(s);
            proof {
                assert(out.deep_view() =~= out.deep_view().drop_last() + seq![
                    trimmed(cv[i as int].text),
                ]);
                assert((out.deep_view().drop_last() + seq![trimmed(cv[i as int].text)])
                    + trim_and_drop(cv.skip(i as int + 1)) =~= out.deep_view().drop_last() + (seq![
                    trimmed(cv[i as int].text),
                ] + trim_and_drop(cv.skip(i as int + 1))));
            }
        }
        i += 1;
    }
    proof {
        assert(cv.skip(cv.len() as int).len() == 0);
        assert(out.deep_view() =~= out.deep_view() + trim_and_drop(cv.skip(cv.len() as int)));
        assert(out.deep_view() == trim_and_drop(spec_cluster(g, p@)));
    }
    out
}

} // verus!
