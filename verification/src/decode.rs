//! The encoding resolver: one raw glyph run's bytes to Unicode text.
//!
//! The run's font reference is looked up in the page's font table; a
//! missing font fails the run. A font without a custom character map
//! decodes each raw byte directly as one Unicode scalar value — the
//! deliberately lossy single-byte fallback. A font with a map has the
//! map program resolved ([`crate::cmap_walk::parse_font_map`]), the raw
//! bytes split into fixed-width chunks and looked up
//! ([`crate::fontmap`]), and the found UTF-16 units decoded to
//! characters ([`crate::utf16`]). Each failure carries the font
//! reference, and an unmapped chunk carries the offending bytes; there
//! is no silent skip, by design, since dropped characters would corrupt
//! downstream matching.

use vstd::prelude::*;
use crate::cmap_walk::{parse_font_map, spec_font_map};
use crate::errors::{ExtractError, ExtractErrorView};
use crate::fontmap::spec_decode_units;
use crate::fonts::{lemma_lookup_font_wf, lookup_font, table_wf, FontResourceView, FontTable};
use crate::runs::{DecodedGlyphRun, DecodedRunView, RawGlyphRun, RawRunView, FALLBACK_AVG_WIDTH};
use crate::utf16::{utf16_decode, utf16_to_chars};

verus! {

/// Each byte read directly as one Unicode scalar value.
pub open spec fn latin1_chars(bytes: Seq<u8>) -> Seq<char> {
    bytes.map_values(|b: u8| b as char)
}

/// The font's average glyph width, or the configured fallback when the
/// descriptor exposes none.
pub open spec fn spec_avg_width(f: FontResourceView) -> int {
    match f.avg_glyph_width {
        Some(w) => w,
        None => FALLBACK_AVG_WIDTH as int,
    }
}

/// The decoded run a raw run and its text and width make.
pub open spec fn decoded_from(run: RawRunView, text: Seq<char>, width: int) -> DecodedRunView {
    DecodedRunView {
        x: run.x,
        y: run.y,
        text: text,
        font_size: run.font_size,
        font_ref: run.font_ref,
        avg_glyph_width: width,
    }
}

/// What decoding one raw run yields: its text and width on success, and
/// which failure on which input otherwise. Success is owed exactly when
/// the font is present and either has no map, or has a map that
/// resolves, covers every chunk, and yields well-formed UTF-16.
pub open spec fn spec_decode_run(run: RawRunView, table: Seq<FontResourceView>) -> Result<
    DecodedRunView,
    ExtractErrorView,
> {
    match lookup_font(table, run.font_ref) {
        None => Err(ExtractErrorView::FontLookup { font_ref: run.font_ref }),
        Some(f) => match f.char_map {
            None => Ok(decoded_from(run, latin1_chars(run.raw_bytes), spec_avg_width(f))),
            Some(map_bytes) => match spec_font_map(map_bytes) {
                None => Err(ExtractErrorView::MapParse { font_ref: run.font_ref }),
                Some(m) => match spec_decode_units(run.raw_bytes, m) {
                    Err(chunk) => Err(
                        ExtractErrorView::UnmappedCharacter {
                            font_ref: run.font_ref,
                            chunk: chunk,
                        },
                    ),
                    Ok(units) => match utf16_decode(units) {
                        None => Err(ExtractErrorView::InvalidEncoding { font_ref: run.font_ref }),
                        Some(text) => Ok(decoded_from(run, text, spec_avg_width(f))),
                    },
                },
            },
        },
    }
}

/// A successfully decoded run keeps the raw run's position, size and
/// font, and is well-formed whenever the raw run and the table are.
pub proof fn lemma_decode_run_wf(run: RawRunView, table: Seq<FontResourceView>)
    requires
        run.wf(),
        table_wf(table),
    ensures
        match spec_decode_run(run, table) {
            Ok(d) => d.wf() && d.x == run.x && d.y == run.y && d.font_size == run.font_size
                && d.font_ref == run.font_ref,
            Err(_) => true,
        },
{
    lemma_lookup_font_wf(table, run.font_ref);
}

/// Decodes one raw run against the font table: returns exactly
/// [`spec_decode_run`].
pub fn decode_run(run: &RawGlyphRun, table: &FontTable) -> (r: Result<
    DecodedGlyphRun,
    ExtractError,
>)
    ensures
        match r {
            Ok(d) => spec_decode_run(run@, table@) == Ok::<DecodedRunView, ExtractErrorView>(d@),
            Err(e) => spec_decode_run(run@, table@) == Err::<DecodedRunView, ExtractErrorView>(
                e@,
            ),
        },
{
    let f = match table.find(run.font_ref) {
        Some(f) => f,
        None => {
            return Err(ExtractError::FontLookup { font_ref: run.font_ref });
        },
    };
    let width: i64 = match f.avg_glyph_width {
        Some(w) => w,
        None => FALLBACK_AVG_WIDTH,
    };
    match &f.char_map {
        None => {
            let mut text: Vec<char> = Vec::new();
            let mut i: usize = 0;
            proof {
                assert(text@ =~= latin1_chars(run.raw_bytes@.take(0)));
            }
            while i < run.raw_bytes.len()
                invariant
                    i <= run.raw_bytes.len(),
                    text@ == latin1_chars(run.raw_bytes@.take(i as int)),
                decreases run.raw_bytes.len() - i,
            {
                let b = run.raw_bytes[i];
                text.push(b as char);
                proof {
                    assert(run.raw_bytes@.take(i as int + 1) =~= run.raw_bytes@.take(
                        i as int,
                    ).push(run.raw_bytes@[i as int]));
                    assert(latin1_chars(run.raw_bytes@.take(i as int + 1)) =~= latin1_chars(
                        run.raw_bytes@.take(i as int),
                    ).push(b as char));
                }
                i += 1;
            }
            proof {
                assert(run.raw_bytes@.take(run.raw_bytes@.len() as int) =~= run.raw_bytes@);
            }
            Ok(
                DecodedGlyphRun {
                    x: run.x,
                    y: run.y,
                    text: text,
                    font_size: run.font_size,
                    font_ref: run.font_ref,
                    avg_glyph_width: width,
                },
            )
        },
        Some(map_bytes) => {
            let fm = match parse_font_map(map_bytes) {
                Some(fm) => fm,
                None => {
                    return Err(ExtractError::MapParse { font_ref: run.font_ref });
                },
            };
            let units = match fm.decode_units(&run.raw_bytes) {
                Ok(u) => u,
                Err(chunk) => {
                    return Err(
                        ExtractError::UnmappedCharacter { font_ref: run.font_ref, chunk: chunk },
                    );
                },
            };
            let text = match utf16_to_chars(&units) {
                Some(t) => t,
                None => {
                    return Err(ExtractError::InvalidEncoding { font_ref: run.font_ref });
                },
            };
            Ok(
                DecodedGlyphRun {
                    x: run.x,
                    y: run.y,
                    text: text,
                    font_size: run.font_size,
                    font_ref: run.font_ref,
                    avg_glyph_width: width,
                },
            )
        },
    }
}

} // verus!
