//! The content-stream operators the scanner recognises.
//!
//! A page's drawing instructions arrive as an ordered sequence of
//! [`PageOp`] values. Only the six text operators below matter to the
//! scanner; every other instruction is handed in as [`PageOp::Other`] and
//! ignored. Geometry is in milli-units, as laid out in [`crate::runs`].

use vstd::prelude::*;
use crate::runs::{coord_ok, FONT_SIZE_LIMIT};

verus! {

/// One element of a position-adjusted show instruction: either a literal
/// byte payload or a spacing adjustment (in milli-glyph-units). Spacing
/// entries affect only geometry, which the text matrix already captured at
/// draw time, so the scanner skips them.
#[derive(Debug, Clone, PartialEq, Eq)]
pub enum ShowPart {
    Spacing(i64),
    Text(Vec<u8>),
}

/// Spec-level mirror of [`ShowPart`].
pub enum ShowPartView {
    Spacing(int),
    Text(Seq<u8>),
}

impl View for ShowPart {
    type V = ShowPartView;

    open spec fn view(&self) -> ShowPartView {
        match self {
            ShowPart::Spacing(v) => ShowPartView::Spacing(*v as int),
            ShowPart::Text(b) => ShowPartView::Text(b@),
        }
    }
}

impl DeepView for ShowPart {
    type V = ShowPartView;

    open spec fn deep_view(&self) -> ShowPartView {
        self.view()
    }
}

/// One content-stream operator, reduced to what the scanner reads.
#[derive(Debug, Clone, PartialEq, Eq)]
pub enum PageOp {
    /// Begin a text object: pending position and pending text are cleared;
    /// the font selection persists.
    BeginText,
    /// End a text object: a run is emitted if position, text, size and font
    /// were all established since the last boundary.
    EndText,
    /// Select a font resource and a size (milli-units).
    SetFont { font_ref: u64, size: i64 },
    /// Set the text matrix; only its translation components are tracked,
    /// in milli-units.
    SetTextPosition { x: i64, y: i64 },
    /// Show a literal byte payload.
    ShowText { bytes: Vec<u8> },
    /// Show a payload interleaved with spacing adjustments.
    ShowTextAdjusted { parts: Vec<ShowPart> },
    /// Any other instruction; a no-op for the scanner.
    Other,
}

/// Spec-level mirror of [`PageOp`].
pub enum PageOpView {
    BeginText,
    EndText,
    SetFont { font_ref: u64, size: int },
    SetTextPosition { x: int, y: int },
    ShowText { bytes: Seq<u8> },
    ShowTextAdjusted { parts: Seq<ShowPartView> },
    Other,
}

impl View for PageOp {
    type V = PageOpView;

    open spec fn view(&self) -> PageOpView {
        match self {
            PageOp::BeginText => PageOpView::BeginText,
            PageOp::EndText => PageOpView::EndText,
            PageOp::SetFont { font_ref, size } => PageOpView::SetFont {
                font_ref: *font_ref,
                size: *size as int,
            },
            PageOp::SetTextPosition { x, y } => PageOpView::SetTextPosition {
                x: *x as int,
                y: *y as int,
            },
            PageOp::ShowText { bytes } => PageOpView::ShowText { bytes: bytes@ },
            PageOp::ShowTextAdjusted { parts } => PageOpView::ShowTextAdjusted {
                parts: parts.deep_view(),
            },
            PageOp::Other => PageOpView::Other,
        }
    }
}

impl DeepView for PageOp {
    type V = PageOpView;

    open spec fn deep_view(&self) -> PageOpView {
        self.view()
    }
}

impl PageOpView {
    /// Operator values within the magnitudes the pipeline accepts.
    pub open spec fn wf(self) -> bool {
        match self {
            PageOpView::SetFont { font_ref, size } => (
                -FONT_SIZE_LIMIT <= size <= FONT_SIZE_LIMIT
            ),
            PageOpView::SetTextPosition { x, y } => coord_ok(x) && coord_ok(y),
            _ => true,
        }
    }
}

} // verus!
