//! The operator scanner: a stateful reduction of one page's operator
//! sequence into discrete raw glyph runs, in stream order.
//!
//! The scanner accumulates four pending pieces of state independently —
//! position, text bytes, font size and font reference — and emits a
//! [`RawGlyphRun`] at each "end text object" boundary at which all four have
//! been established since the last boundary. Runs missing any of the four
//! are silently dropped; the scanner itself never fails, and unrecognised
//! operators are ignored.
//!
//! The whole pass is specified by the fold [`spec_scan`] over
//! [`spec_step_state`] and [`spec_step_emit`], and [`scan_ops`] returns
//! exactly that fold's result.

use vstd::prelude::*;
use crate::ops::{PageOp, PageOpView, ShowPart, ShowPartView};
use crate::runs::{RawGlyphRun, RawRunView};
use crate::text::copy_bytes;

verus! {

/// The scanner's pending state between operators.
#[derive(Debug, Clone, PartialEq, Eq)]
pub struct ScanState {
    /// Translation components of the last text matrix, in milli-units.
    pub coords: Option<(i64, i64)>,
    /// The byte payload of the last show instruction.
    pub text: Option<Vec<u8>>,
    /// The last font selection: reference and size in milli-units.
    pub font: Option<(u64, i64)>,
}

/// Spec-level mirror of [`ScanState`].
pub struct ScanStateView {
    pub coords: Option<(int, int)>,
    pub text: Option<Seq<u8>>,
    pub font: Option<(u64, int)>,
}

impl View for ScanState {
    type V = ScanStateView;

    open spec fn view(&self) -> ScanStateView {
        ScanStateView {
            coords: match self.coords {
                Some((x, y)) => Some((x as int, y as int)),
                None => None,
            },
            text: match &self.text {
                Some(t) => Some(t@),
                None => None,
            },
            font: match self.font {
                Some((f, s)) => Some((f, s as int)),
                None => None,
            },
        }
    }
}

/// The state at a text-object boundary: nothing pending.
pub open spec fn initial_state() -> ScanStateView {
    ScanStateView { coords: None, text: None, font: None }
}

/// The bytes one element of a position-adjusted show instruction
/// contributes: its literal payload, or nothing for a spacing adjustment.
pub open spec fn part_bytes(p: ShowPartView) -> Seq<u8> {
    match p {
        ShowPartView::Spacing(_) => Seq::empty(),
        ShowPartView::Text(b) => b,
    }
}

/// The concatenated literal payloads of a position-adjusted show
/// instruction, in order, with spacing adjustments skipped.
pub open spec fn parts_bytes(parts: Seq<ShowPartView>) -> Seq<u8>
    decreases parts.len(),
{
    if parts.len() == 0 {
        Seq::empty()
    } else {
        parts_bytes(parts.drop_last()) + part_bytes(parts.last())
    }
}

/// The scanner's state after consuming one operator.
///
/// A text-object begin clears position and text but keeps the font, which
/// persists across boundaries; a text-object end clears everything. Each
/// show instruction replaces the pending text with its own payload.
pub open spec fn spec_step_state(st: ScanStateView, op: PageOpView) -> ScanStateView {
    match op {
        PageOpView::BeginText => ScanStateView { coords: None, text: None, font: st.font },
        PageOpView::EndText => initial_state(),
        PageOpView::SetFont { font_ref, size } => (
            ScanStateView { font: Some((font_ref, size)), ..st }
        ),
        PageOpView::SetTextPosition { x, y } => (
            ScanStateView { coords: Some((x, y)), ..st }
        ),
        PageOpView::ShowText { bytes } => ScanStateView { text: Some(bytes), ..st },
        PageOpView::ShowTextAdjusted { parts } => (
            ScanStateView { text: Some(parts_bytes(parts)), ..st }
        ),
        PageOpView::Other => st,
    }
}

/// The run one operator emits, if any: only a text-object end emits, and
/// only when position, text, size and font are all pending.
pub open spec fn spec_step_emit(st: ScanStateView, op: PageOpView) -> Option<RawRunView> {
    match op {
        PageOpView::EndText => match (st.coords, st.text, st.font) {
            (Some((x, y)), Some(bytes), Some((font_ref, size))) => (
                Some(
                    RawRunView {
                        x: x,
                        y: y,
                        raw_bytes: bytes,
                        font_size: size,
                        font_ref: font_ref,
                    },
                )
            ),
            _ => None,
        },
        _ => None,
    }
}

/// The scanner's state after a whole operator sequence, from the initial
/// state.
pub open spec fn scan_state_after(ops: Seq<PageOpView>) -> ScanStateView
    decreases ops.len(),
{
    if ops.len() == 0 {
        initial_state()
    } else {
        spec_step_state(scan_state_after(ops.drop_last()), ops.last())
    }
}

/// Every run a whole operator sequence emits, in stream order.
pub open spec fn spec_scan(ops: Seq<PageOpView>) -> Seq<RawRunView>
    decreases ops.len(),
{
    if ops.len() == 0 {
        Seq::empty()
    } else {
        let prev = spec_scan(ops.drop_last());
        match spec_step_emit(scan_state_after(ops.drop_last()), ops.last()) {
            Some(r) => prev.push(r),
            None => prev,
        }
    }
}

impl ScanState {
    /// The scanner's starting state: nothing pending.
    pub fn new() -> (r: ScanState)
        ensures
            r@ == initial_state(),
    {
        ScanState { coords: None, text: None, font: None }
    }
}

/// Feeds one operator to the scanner: the reducer
/// `(state, operator) -> (state, optional emitted run)`.
pub fn scan_step(st: &mut ScanState, op: &PageOp) -> (emitted: Option<RawGlyphRun>)
    ensures
        final(st)@ == spec_step_state(old(st)@, op@),
        emitted.deep_view() == spec_step_emit(old(st)@, op@),
{
    match op {
        PageOp::BeginText => {
            st.coords = None;
            st.text = None;
            None
        },
        PageOp::EndText => {
            let coords = st.coords;
            let font = st.font;
            let text = st.text.take();
            st.coords = None;
            st.font = None;
            match (coords, text, font) {
                (Some((x, y)), Some(bytes), Some((font_ref, size))) => (
                    Some(
                        RawGlyphRun {
                            x: x,
                            y: y,
                            raw_bytes: bytes,
                            font_size: size,
                            font_ref: font_ref,
                        },
                    )
                ),
                _ => None,
            }
        },
        PageOp::SetFont { font_ref, size } => {
            st.font = Some((*font_ref, *size));
            None
        },
        PageOp::SetTextPosition { x, y } => {
            st.coords = Some((*x, *y));
            None
        },
        PageOp::ShowText { bytes } => {
            st.text = Some(copy_bytes(bytes));
            None
        },
        PageOp::ShowTextAdjusted { parts } => {
            let mut buf: Vec<u8> = Vec::new();
            let mut i: usize = 0;
            while i < parts.len()
                invariant
                    i <= parts.len(),
                    buf@ == parts_bytes(parts.deep_view().take(i as int)),
                decreases parts.len() - i,
            {
                match &parts[i] {
                    ShowPart::Spacing(_) => {},
                    ShowPart::Text(b) => {
                        let mut piece = copy_bytes(b);
                        buf.append(&mut piece);
                    },
                }
                proof {
                    let pv = parts.deep_view();
                    assert(pv.take(i as int + 1).drop_last() =~= pv.take(i as int));
                    assert(pv.take(i as int + 1).last() == pv[i as int]);
                }
                i += 1;
            }
            proof {
                assert(parts.deep_view().take(parts.len() as int) =~= parts.deep_view());
            }
            st.text = Some(buf);
            None
        },
        PageOp::Other => None,
    }
}

/// Scans a whole operator sequence and returns every emitted run, in
/// stream order (not yet position-sorted).
pub fn scan_ops(ops: &Vec<PageOp>) -> (runs: Vec<RawGlyphRun>)
    ensures
        runs.deep_view() == spec_scan(ops.deep_view()),
{
    let mut st = ScanState::new();
    let mut out: Vec<RawGlyphRun> = Vec::new();
    let mut i: usize = 0;
    while i < ops.len()
        invariant
            i <= ops.len(),
            st@ == scan_state_after(ops.deep_view().take(i as int)),
            out.deep_view() == spec_scan(ops.deep_view().take(i as int)),
        decreases ops.len() - i,
    {
        let emitted = scan_step(&mut st, &ops[i]);
        proof {
            let ov = ops.deep_view();
            assert(ov.take(i as int + 1).drop_last() =~= ov.take(i as int));
            assert(ov.take(i as int + 1).last() == ov[i as int]);
        }
        match emitted {
            Some(r) => {
                out.push(r);
            },
            None => {},
        }
        i += 1;
    }
    proof {
        assert(ops.deep_view().take(ops.len() as int) =~= ops.deep_view());
    }
    out
}

/// Every run the scanner emits from a sequence of well-formed operators is
/// itself well-formed: its position and size lie within the accepted
/// magnitudes.
pub proof fn lemma_scan_wf(ops: Seq<PageOpView>)
    requires
        forall|i: int| 0 <= i < ops.len() ==> (#[trigger] ops[i]).wf(),
    ensures
        forall|i: int| 0 <= i < spec_scan(ops).len() ==> (#[trigger] spec_scan(ops)[i]).wf(),
    decreases ops.len(),
{
    if ops.len() > 0 {
        assert forall|i: int|
            0 <= i < ops.drop_last().len() implies (#[trigger] ops.drop_last()[i]).wf() by {
            assert(ops.drop_last()[i] == ops[i]);
        }
        lemma_scan_state_wf(ops.drop_last());
        lemma_scan_wf(ops.drop_last());
        let prev = spec_scan(ops.drop_last());
        match spec_step_emit(scan_state_after(ops.drop_last()), ops.last()) {
            Some(r) => {
                assert(r.wf());
                assert forall|i: int|
                    0 <= i < spec_scan(ops).len() implies (#[trigger] spec_scan(ops)[i]).wf() by {
                    if i < prev.len() {
                        assert(spec_scan(ops)[i] == prev[i]);
                    } else {
                        assert(spec_scan(ops)[i] == r);
                    }
                }
            },
            None => {},
        }
    }
}

/// The pending state after well-formed operators holds only bounded
/// values.
pub open spec fn state_wf(st: ScanStateView) -> bool {
    &&& match st.coords {
        Some((x, y)) => crate::runs::coord_ok(x) && crate::runs::coord_ok(y),
        None => true,
    }
    &&& match st.font {
        Some((_, s)) => -crate::runs::FONT_SIZE_LIMIT <= s <= crate::runs::FONT_SIZE_LIMIT,
        None => true,
    }
}

proof fn lemma_scan_state_wf(ops: Seq<PageOpView>)
    requires
        forall|i: int| 0 <= i < ops.len() ==> (#[trigger] ops[i]).wf(),
    ensures
        state_wf(scan_state_after(ops)),
    decreases ops.len(),
{
    if ops.len() > 0 {
        lemma_scan_state_wf(ops.drop_last());
        assert(ops[ops.len() - 1].wf());
    }
}

} // verus!
