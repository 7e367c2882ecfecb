//! Glyph-run data model and the fixed-point conventions of the library.
//!
//! Geometry is carried in *milli-units*: one thousandth of a text-space
//! unit. A page coordinate of `200.01` units is the integer `200_010`;
//! a font size of `10` units is `10_000`. Average glyph widths are in
//! *milli-glyph-units*, one thousandth of a glyph-space unit, where 1000
//! glyph-space units make one em: a declared average width of `500`
//! glyph-space units is `500_000`. With every quantity an integer, each
//! geometric comparison of the clusterer is exact.

use vstd::prelude::*;

verus! {

/// Largest coordinate magnitude, in milli-units, the pipeline accepts.
pub const COORD_LIMIT: i64 = 1_000_000_000_000_000;

/// Largest font-size magnitude, in milli-units, the pipeline accepts.
pub const FONT_SIZE_LIMIT: i64 = 1_000_000_000;

/// Largest average-glyph-width magnitude, in milli-glyph-units, the
/// pipeline accepts.
pub const AVG_WIDTH_LIMIT: i64 = 1_000_000_000;

/// Average glyph width assumed, in milli-glyph-units, when a font exposes
/// no width metadata. The clustering heuristic needs some estimate, and a
/// missing descriptor should not abort extraction.
pub const FALLBACK_AVG_WIDTH: i64 = 521;

/// One contiguous glyph-show instruction's output: the exact byte payload
/// together with the text-space position, size and font in effect when it
/// was drawn.
#[derive(Debug, Clone, PartialEq, Eq)]
pub struct RawGlyphRun {
    /// Text-space origin, horizontal, in milli-units.
    pub x: i64,
    /// Text-space origin, vertical, in milli-units.
    pub y: i64,
    /// The byte payload of the show instruction, opaque until decoded.
    pub raw_bytes: Vec<u8>,
    /// Text size in effect, in milli-units.
    pub font_size: i64,
    /// Identifier of the font resource active when the run was drawn.
    pub font_ref: u64,
}

/// Spec-level mirror of [`RawGlyphRun`].
pub struct RawRunView {
    pub x: int,
    pub y: int,
    pub raw_bytes: Seq<u8>,
    pub font_size: int,
    pub font_ref: u64,
}

impl View for RawGlyphRun {
    type V = RawRunView;

    open spec fn view(&self) -> RawRunView {
        RawRunView {
            x: self.x as int,
            y: self.y as int,
            raw_bytes: self.raw_bytes@,
            font_size: self.font_size as int,
            font_ref: self.font_ref,
        }
    }
}

impl DeepView for RawGlyphRun {
    type V = RawRunView;

    open spec fn deep_view(&self) -> RawRunView {
        self.view()
    }
}

/// A [`RawGlyphRun`] after decoding: the resolved Unicode text and the
/// owning font's average glyph width, kept for the clusterer's advance
/// estimate.
#[derive(Debug, Clone, PartialEq, Eq)]
pub struct DecodedGlyphRun {
    /// Text-space origin, horizontal, in milli-units.
    pub x: i64,
    /// Text-space origin, vertical, in milli-units.
    pub y: i64,
    /// The Unicode text decoded from the run's raw bytes.
    pub text: Vec<char>,
    /// Text size in effect, in milli-units.
    pub font_size: i64,
    /// Identifier of the font resource active when the run was drawn.
    pub font_ref: u64,
    /// The font's average glyph width, in milli-glyph-units.
    pub avg_glyph_width: i64,
}

/// Spec-level mirror of [`DecodedGlyphRun`].
pub struct DecodedRunView {
    pub x: int,
    pub y: int,
    pub text: Seq<char>,
    pub font_size: int,
    pub font_ref: u64,
    pub avg_glyph_width: int,
}

impl View for DecodedGlyphRun {
    type V = DecodedRunView;

    open spec fn view(&self) -> DecodedRunView {
        DecodedRunView {
            x: self.x as int,
            y: self.y as int,
            text: self.text@,
            font_size: self.font_size as int,
            font_ref: self.font_ref,
            avg_glyph_width: self.avg_glyph_width as int,
        }
    }
}

impl DeepView for DecodedGlyphRun {
    type V = DecodedRunView;

    open spec fn deep_view(&self) -> DecodedRunView {
        self.view()
    }
}

/// A coordinate within the magnitude the pipeline accepts.
pub open spec fn coord_ok(v: int) -> bool {
    -COORD_LIMIT <= v <= COORD_LIMIT
}

impl RawRunView {
    /// Field bounds under which every later arithmetic step fits its
    /// machine type.
    pub open spec fn wf(self) -> bool {
        &&& coord_ok(self.x)
        &&& coord_ok(self.y)
        &&& -FONT_SIZE_LIMIT <= self.font_size <= FONT_SIZE_LIMIT
    }
}

impl DecodedRunView {
    /// Field bounds under which every later arithmetic step fits its
    /// machine type.
    pub open spec fn wf(self) -> bool {
        &&& coord_ok(self.x)
        &&& coord_ok(self.y)
        &&& -FONT_SIZE_LIMIT <= self.font_size <= FONT_SIZE_LIMIT
        &&& -AVG_WIDTH_LIMIT <= self.avg_glyph_width <= AVG_WIDTH_LIMIT
    }
}

} // verus!
