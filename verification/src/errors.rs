//! Error taxonomy of the extraction pipeline.
//!
//! The operator scanner and the spatial clusterer never fail; every failure
//! comes out of the encoding resolver, and a failure on one run aborts the
//! whole page.

use vstd::prelude::*;

verus! {

/// Why a page could not be decoded.
///
/// Each variant carries the context a caller needs to diagnose one bad page:
/// the font reference involved and, for an unmapped character, the offending
/// byte chunk.
#[derive(Debug, Clone, PartialEq, Eq)]
pub enum ExtractError {
    /// The run's font reference is absent from the page's font table.
    FontLookup { font_ref: u64 },
    /// The font's character-map program could not be parsed, or it lacks a
    /// codespace declaration, or its entries do not fit the fixed-width code
    /// convention.
    MapParse { font_ref: u64 },
    /// A chunk of the run's raw bytes has no entry in the font's map.
    /// `chunk` is the offending code, left-padded with zero bytes to the
    /// map's code width.
    UnmappedCharacter { font_ref: u64, chunk: Vec<u8> },
    /// The mapped UTF-16 code-unit sequence is malformed (an unpaired
    /// surrogate).
    InvalidEncoding { font_ref: u64 },
}

/// Spec-level mirror of [`ExtractError`].
pub enum ExtractErrorView {
    FontLookup { font_ref: u64 },
    MapParse { font_ref: u64 },
    UnmappedCharacter { font_ref: u64, chunk: Seq<u8> },
    InvalidEncoding { font_ref: u64 },
}

impl View for ExtractError {
    type V = ExtractErrorView;

    open spec fn view(&self) -> ExtractErrorView {
        match self {
            ExtractError::FontLookup { font_ref } => ExtractErrorView::FontLookup {
                font_ref: *font_ref,
            },
            ExtractError::MapParse { font_ref } => ExtractErrorView::MapParse {
                font_ref: *font_ref,
            },
            ExtractError::UnmappedCharacter { font_ref, chunk } => (
                ExtractErrorView::UnmappedCharacter { font_ref: *font_ref, chunk: chunk@ }
            ),
            ExtractError::InvalidEncoding { font_ref } => ExtractErrorView::InvalidEncoding {
                font_ref: *font_ref,
            },
        }
    }
}

impl DeepView for ExtractError {
    type V = ExtractErrorView;

    open spec fn deep_view(&self) -> ExtractErrorView {
        self.view()
    }
}

} // verus!
