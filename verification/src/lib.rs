//! Reconstruction of human-readable, spatially ordered text from the drawing
//! operators of one page of a page-description document.
//!
//! The pipeline has three stages, each verified against a functional
//! specification:
//!
//! 1. the operator scanner ([`scan`]) reduces an ordered operator sequence to
//!    discrete positioned glyph runs;
//! 2. the encoding resolver ([`decode`], [`cmap_lex`], [`cmap_walk`],
//!    [`fontmap`], [`utf16`]) turns each run's raw bytes into Unicode text,
//!    through the owning font's embedded character map when one is present;
//! 3. the spatial clusterer ([`cluster`]) merges adjacent runs that read as
//!    one word or line, and emits the trimmed, non-empty strings in reading
//!    order.
//!
//! Coordinates, font sizes and glyph widths are carried as fixed-point
//! integers in thousandths of a unit, so that every geometric comparison is
//! exact; see [`runs`] for the conventions.

pub mod cluster;
pub mod cmap_lex;
pub mod cmap_walk;
pub mod decode;
pub mod errors;
pub mod fontmap;
pub mod fonts;
pub mod laws;
pub mod ops;
pub mod order;
pub mod pipeline;
pub mod runs;
pub mod scan;
pub mod text;
pub mod utf16;
