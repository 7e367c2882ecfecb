//! The page's font-resource table.
//!
//! The resolver receives, per font reference, whether the font carries a
//! custom character-map program (and its raw bytes), and the font's
//! optional average-glyph-width metadata. The table is read-only for the
//! duration of one page's processing; lookup finds the first entry with
//! the sought reference.

use vstd::prelude::*;
use crate::runs::AVG_WIDTH_LIMIT;

verus! {

/// One font resource, as the resolver sees it.
#[derive(Debug, Clone, PartialEq, Eq)]
pub struct FontResource {
    /// The reference the page's runs name this font by.
    pub font_ref: u64,
    /// The raw bytes of the font's embedded character-map program, when
    /// the font has one.
    pub char_map: Option<Vec<u8>>,
    /// The font's declared average glyph width, in milli-glyph-units,
    /// when the descriptor exposes one.
    pub avg_glyph_width: Option<i64>,
}

/// Spec-level mirror of [`FontResource`].
pub struct FontResourceView {
    pub font_ref: u64,
    pub char_map: Option<Seq<u8>>,
    pub avg_glyph_width: Option<int>,
}

impl View for FontResource {
    type V = FontResourceView;

    open spec fn view(&self) -> FontResourceView {
        FontResourceView {
            font_ref: self.font_ref,
            char_map: match &self.char_map {
                Some(m) => Some(m@),
                None => None,
            },
            avg_glyph_width: match self.avg_glyph_width {
                Some(w) => Some(w as int),
                None => None,
            },
        }
    }
}

impl DeepView for FontResource {
    type V = FontResourceView;

    open spec fn deep_view(&self) -> FontResourceView {
        self.view()
    }
}

impl FontResourceView {
    /// Width metadata within the magnitude the clusterer's arithmetic
    /// accepts.
    pub open spec fn wf(self) -> bool {
        match self.avg_glyph_width {
            Some(w) => -AVG_WIDTH_LIMIT <= w <= AVG_WIDTH_LIMIT,
            None => true,
        }
    }
}

/// The page's font-resource table.
#[derive(Debug, Clone, PartialEq, Eq)]
pub struct FontTable {
    /// The page's font resources, in any order; lookup takes the first
    /// match.
    pub fonts: Vec<FontResource>,
}

impl View for FontTable {
    type V = Seq<FontResourceView>;

    open spec fn view(&self) -> Seq<FontResourceView> {
        self.fonts.deep_view()
    }
}

/// The first entry with the sought reference, if any.
pub open spec fn lookup_font(table: Seq<FontResourceView>, font_ref: u64) -> Option<
    FontResourceView,
>
    decreases table.len(),
{
    if table.len() == 0 {
        None
    } else if table.first().font_ref == font_ref {
        Some(table.first())
    } else {
        lookup_font(table.drop_first(), font_ref)
    }
}

/// Every entry of a well-formed table is well-formed.
pub open spec fn table_wf(table: Seq<FontResourceView>) -> bool {
    forall|i: int| 0 <= i < table.len() ==> (#[trigger] table[i]).wf()
}

/// A looked-up entry of a well-formed table is well-formed.
pub proof fn lemma_lookup_font_wf(table: Seq<FontResourceView>, font_ref: u64)
    requires
        table_wf(table),
    ensures
        match lookup_font(table, font_ref) {
            Some(f) => f.wf(),
            None => true,
        },
    decreases table.len(),
{
    if table.len() > 0 {
        assert(table[0].wf());
        if table.first().font_ref != font_ref {
            let rest = table.drop_first();
            assert forall|i: int| 0 <= i < rest.len() implies (#[trigger] rest[i]).wf() by {
                assert(rest[i] == table[i + 1]);
            }
            lemma_lookup_font_wf(table.drop_first(), font_ref);
        }
    }
}

impl FontTable {
    /// A table with no fonts.
    pub fn new() -> (r: FontTable)
        ensures
            r@ =~= Seq::<FontResourceView>::empty(),
    {
        FontTable { fonts: Vec::new() }
    }

    /// Looks a font reference up: returns the first entry carrying it,
    /// exactly as [`lookup_font`] does.
    pub fn find(&self, font_ref: u64) -> (r: Option<&FontResource>)
        ensures
            match r {
                Some(f) => lookup_font(self@, font_ref) == Some(f.deep_view()),
                None => lookup_font(self@, font_ref) is None,
            },
    {
        let mut i: usize = 0;
        proof {
            assert(self@.skip(0) =~= self@);
        }
        while i < self.fonts.len()
            invariant
                i <= self.fonts.len(),
                lookup_font(self@, font_ref) == lookup_font(self@.skip(i as int), font_ref),
            decreases self.fonts.len() - i,
        {
            proof {
                assert(self@.skip(i as int).first() == self@[i as int]);
                assert(self@.skip(i as int).drop_first() =~= self@.skip(i as int + 1));
            }
            if self.fonts[i].font_ref == font_ref {
                return Some(&self.fonts[i]);
            }
            i += 1;
        }
        proof {
            assert(self@.skip(self.fonts.len() as int).len() == 0);
        }
        None
    }
}

} // verus!
