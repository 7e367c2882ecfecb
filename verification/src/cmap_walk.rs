//! Walking a lexed character-map program: collecting the codespace
//! declaration and the code-to-Unicode table, and deriving the resolved
//! [`FontMap`].
//!
//! The walk reads three sections, each announced by an integer count
//! followed by its operator: `begincodespacerange` with pairs of equal
//! length byte strings, `beginbfchar` with (code, value) byte-string
//! pairs, and `beginbfrange` with (low, high, start) triples whose
//! start is a two- or four-byte string — incremented through the range —
//! or an array of per-code byte strings. Every other token is skipped.
//! A section that does not fit this shape, a range arithmetic that
//! overflows its width, or a program with no token at all is malformed.
//!
//! The code width is the byte length of the first codespace bound,
//! halved and incremented: this format declares an N-byte code with
//! 2N-or-so-byte bounds, so `<00>`-style one-byte bounds declare a
//! one-byte code and `<0000>`-style two-byte bounds a two-byte code.
//! Declared keys wider than the code width are dropped (no code can
//! reach them); a table value shorter than two bytes is malformed; the
//! first two bytes of a longer value are its UTF-16 unit.

use vstd::prelude::*;
use crate::cmap_lex::{
    lex_cmap, spec_tokens, CmapArrItem, CmapArrItemView, CmapToken, CmapTokenView,
};
use crate::fontmap::{entries_map, pow256, FontMap, FontMapView, MAX_CODE_WIDTH};

verus! {

/// What the walk collects: the first codespace bound's byte length, and
/// the declared (code, value bytes) entries in declaration order.
pub struct CmapData {
    pub first_cs_len: Option<usize>,
    pub entries: Vec<(u64, Vec<u8>)>,
}

/// Spec-level mirror of [`CmapData`].
pub struct CmapDataView {
    pub first_cs_len: Option<int>,
    pub entries: Seq<(u64, Seq<u8>)>,
}

impl View for CmapData {
    type V = CmapDataView;

    open spec fn view(&self) -> CmapDataView {
        CmapDataView {
            first_cs_len: match self.first_cs_len {
                Some(l) => Some(l as int),
                None => None,
            },
            entries: Seq::new(self.entries@.len(), |i: int| (self.entries@[i].0, self.entries@[i].1@)),
        }
    }
}

/// The value of a declared byte string as a code: big-endian, wrapped to
/// 32 bits as the declaring format's readers do.
pub open spec fn as_code(s: Seq<u8>) -> int
    decreases s.len(),
{
    if s.len() == 0 {
        0
    } else {
        (as_code(s.drop_last()) * 256 + s.last()) % 0x1_0000_0000
    }
}

/// The keyword announcing a codespace section.
pub open spec fn is_kw_codespace(s: Seq<u8>) -> bool {
    s.len() == 19 && s[0] == 0x62 && s[1] == 0x65 && s[2] == 0x67 && s[3] == 0x69 && s[4] == 0x6E
        && s[5] == 0x63 && s[6] == 0x6F && s[7] == 0x64 && s[8] == 0x65 && s[9] == 0x73 && s[10]
        == 0x70 && s[11] == 0x61 && s[12] == 0x63 && s[13] == 0x65 && s[14] == 0x72 && s[15]
        == 0x61 && s[16] == 0x6E && s[17] == 0x67 && s[18] == 0x65
}

/// The keyword announcing a single-code section.
pub open spec fn is_kw_bfchar(s: Seq<u8>) -> bool {
    s.len() == 11 && s[0] == 0x62 && s[1] == 0x65 && s[2] == 0x67 && s[3] == 0x69 && s[4] == 0x6E
        && s[5] == 0x62 && s[6] == 0x66 && s[7] == 0x63 && s[8] == 0x68 && s[9] == 0x61 && s[10]
        == 0x72
}

/// The keyword announcing a code-range section.
pub open spec fn is_kw_bfrange(s: Seq<u8>) -> bool {
    s.len() == 12 && s[0] == 0x62 && s[1] == 0x65 && s[2] == 0x67 && s[3] == 0x69 && s[4] == 0x6E
        && s[5] == 0x62 && s[6] == 0x66 && s[7] == 0x72 && s[8] == 0x61 && s[9] == 0x6E && s[10]
        == 0x67 && s[11] == 0x65
}

/// The integer count standing right before a section keyword.
pub open spec fn prev_int(toks: Seq<CmapTokenView>, i: int) -> Option<i64> {
    if i >= 1 {
        match toks[i - 1] {
            CmapTokenView::Int(c) => Some(c),
            _ => None,
        }
    } else {
        None
    }
}

/// The two big-endian bytes of a 16-bit value.
pub open spec fn be2(x: int) -> Seq<u8> {
    seq![(x / 256) as u8, (x % 256) as u8]
}

/// The four big-endian bytes of a 32-bit value.
pub open spec fn be4(x: int) -> Seq<u8> {
    seq![
        (x / 0x1000000) as u8,
        ((x / 0x10000) % 256) as u8,
        ((x / 256) % 256) as u8,
        (x % 256) as u8,
    ]
}

/// The first `n` entries of a two-byte-start range: code `lo + k` maps
/// to the unit `val + k`.
pub open spec fn range_entries2(lo: int, n: nat, val: int) -> Seq<(u64, Seq<u8>)>
    decreases n,
{
    if n == 0 {
        Seq::empty()
    } else {
        range_entries2(lo, (n - 1) as nat, val).push(
            ((lo + n - 1) as u64, be2(val + n - 1)),
        )
    }
}

/// The first `n` entries of a four-byte-start range.
pub open spec fn range_entries4(lo: int, n: nat, val: int) -> Seq<(u64, Seq<u8>)>
    decreases n,
{
    if n == 0 {
        Seq::empty()
    } else {
        range_entries4(lo, (n - 1) as nat, val).push(
            ((lo + n - 1) as u64, be4(val + n - 1)),
        )
    }
}

/// The first `n` entries of an array-start range: code `lo + k` maps to
/// the `k`-th array element's bytes; a non-string element is malformed.
pub open spec fn range_entries_arr(lo: int, items: Seq<CmapArrItemView>, n: nat) -> Option<
    Seq<(u64, Seq<u8>)>,
>
    decreases n,
{
    if n == 0 {
        Some(Seq::empty())
    } else {
        match range_entries_arr(lo, items, (n - 1) as nat) {
            Some(pre) => match items[n - 1] {
                CmapArrItemView::Str(b) => Some(pre.push(((lo + n - 1) as u64, b))),
                _ => None,
            },
            None => None,
        }
    }
}

/// Consumes the pairs of a codespace section: the first bound's length
/// is recorded once, bounds of unequal length are malformed, and the
/// position after the section's end operator is returned.
pub open spec fn spec_cs_entries(
    toks: Seq<CmapTokenView>,
    i: int,
    n: nat,
    st: CmapDataView,
) -> Option<(CmapDataView, int)>
    decreases n,
{
    if n == 0 {
        Some((st, i + 1))
    } else if 0 <= i && i + 1 < toks.len() {
        match (toks[i], toks[i + 1]) {
            (CmapTokenView::Str(lo), CmapTokenView::Str(hi)) => if lo.len() == hi.len() {
                let st2 = CmapDataView {
                    first_cs_len: match st.first_cs_len {
                        Some(l) => Some(l),
                        None => Some(lo.len() as int),
                    },
                    entries: st.entries,
                };
                spec_cs_entries(toks, i + 2, (n - 1) as nat, st2)
            } else {
                None
            },
            _ => None,
        }
    } else {
        None
    }
}

/// Consumes the pairs of a single-code section, declaring one entry
/// each.
pub open spec fn spec_bfchar_entries(
    toks: Seq<CmapTokenView>,
    i: int,
    n: nat,
    st: CmapDataView,
) -> Option<(CmapDataView, int)>
    decreases n,
{
    if n == 0 {
        Some((st, i + 1))
    } else if 0 <= i && i + 1 < toks.len() {
        match (toks[i], toks[i + 1]) {
            (CmapTokenView::Str(code), CmapTokenView::Str(uni)) => {
                let st2 = CmapDataView {
                    first_cs_len: st.first_cs_len,
                    entries: st.entries.push((as_code(code) as u64, uni)),
                };
                spec_bfchar_entries(toks, i + 2, (n - 1) as nat, st2)
            },
            _ => None,
        }
    } else {
        None
    }
}

/// Consumes the triples of a code-range section. An empty range (low
/// above high) declares nothing; an increment past the start's width,
/// a start of another length than two or four bytes, an array of the
/// wrong length or with a non-string element is malformed.
pub open spec fn spec_bfrange_entries(
    toks: Seq<CmapTokenView>,
    i: int,
    n: nat,
    st: CmapDataView,
) -> Option<(CmapDataView, int)>
    decreases n,
{
    if n == 0 {
        Some((st, i + 1))
    } else if 0 <= i && i + 2 < toks.len() {
        match (toks[i], toks[i + 1]) {
            (CmapTokenView::Str(lo_s), CmapTokenView::Str(hi_s)) => {
                let lo = as_code(lo_s);
                let hi = as_code(hi_s);
                match toks[i + 2] {
                    CmapTokenView::Str(start) => if start.len() == 4 {
                        let val = as_code(start);
                        if lo > hi {
                            spec_bfrange_entries(toks, i + 3, (n - 1) as nat, st)
                        } else if val + (hi - lo) < 0x1_0000_0000 {
                            let st2 = CmapDataView {
                                first_cs_len: st.first_cs_len,
                                entries: st.entries + range_entries4(
                                    lo,
                                    (hi - lo + 1) as nat,
                                    val,
                                ),
                            };
                            spec_bfrange_entries(toks, i + 3, (n - 1) as nat, st2)
                        } else {
                            None
                        }
                    } else if start.len() == 2 {
                        let val = as_code(start);
                        if lo > hi {
                            spec_bfrange_entries(toks, i + 3, (n - 1) as nat, st)
                        } else if val + (hi - lo) <= 0xFFFF {
                            let st2 = CmapDataView {
                                first_cs_len: st.first_cs_len,
                                entries: st.entries + range_entries2(
                                    lo,
                                    (hi - lo + 1) as nat,
                                    val,
                                ),
                            };
                            spec_bfrange_entries(toks, i + 3, (n - 1) as nat, st2)
                        } else {
                            None
                        }
                    } else {
                        None
                    },
                    CmapTokenView::Arr(items) => if lo <= hi && hi - lo + 1 == items.len() {
                        match range_entries_arr(lo, items, items.len()) {
                            Some(es) => {
                                let st2 = CmapDataView {
                                    first_cs_len: st.first_cs_len,
                                    entries: st.entries + es,
                                };
                                spec_bfrange_entries(toks, i + 3, (n - 1) as nat, st2)
                            },
                            None => None,
                        }
                    } else {
                        None
                    },
                    _ => None,
                }
            },
            _ => None,
        }
    } else {
        None
    }
}

/// The count a section keyword takes, as repetitions: a missing or
/// negative count means no repetitions is not an error only when the
/// count token stands there as a non-negative integer.
pub open spec fn count_reps(c: i64) -> nat {
    if c > 0 {
        c as nat
    } else {
        0
    }
}

/// Walks the tokens from position `i` with the data collected so far.
pub open spec fn spec_walk_from(toks: Seq<CmapTokenView>, i: int, st: CmapDataView) -> Option<
    CmapDataView,
>
    decreases toks.len() - i,
    when 0 <= i <= toks.len()
{
    if i >= toks.len() {
        Some(st)
    } else {
        match toks[i] {
            CmapTokenView::Op(name) => {
                if is_kw_codespace(name) {
                    match prev_int(toks, i) {
                        Some(c) => match spec_cs_entries(toks, i + 1, count_reps(c), st) {
                            Some((st2, j)) => if j >= toks.len() {
                                Some(st2)
                            } else if j > i {
                                spec_walk_from(toks, j, st2)
                            } else {
                                None
                            },
                            None => None,
                        },
                        None => None,
                    }
                } else if is_kw_bfchar(name) {
                    match prev_int(toks, i) {
                        Some(c) => match spec_bfchar_entries(toks, i + 1, count_reps(c), st) {
                            Some((st2, j)) => if j >= toks.len() {
                                Some(st2)
                            } else if j > i {
                                spec_walk_from(toks, j, st2)
                            } else {
                                None
                            },
                            None => None,
                        },
                        None => None,
                    }
                } else if is_kw_bfrange(name) {
                    match prev_int(toks, i) {
                        Some(c) => match spec_bfrange_entries(toks, i + 1, count_reps(c), st) {
                            Some((st2, j)) => if j >= toks.len() {
                                Some(st2)
                            } else if j > i {
                                spec_walk_from(toks, j, st2)
                            } else {
                                None
                            },
                            None => None,
                        },
                        None => None,
                    }
                } else {
                    spec_walk_from(toks, i + 1, st)
                }
            },
            _ => spec_walk_from(toks, i + 1, st),
        }
    }
}

/// The whole walk, from an empty state.
pub open spec fn spec_walk(toks: Seq<CmapTokenView>) -> Option<CmapDataView> {
    spec_walk_from(toks, 0, CmapDataView { first_cs_len: None, entries: Seq::empty() })
}

/// The table entries the collected declarations resolve to, under a
/// code width: a declared key too wide for the code width is dropped, a
/// value shorter than two bytes is malformed, and the first two bytes
/// of a value are its UTF-16 unit.
pub open spec fn spec_map_entries(src: Seq<(u64, Seq<u8>)>, cw: int) -> Option<Seq<(u64, u16)>>
    decreases src.len(),
{
    if src.len() == 0 {
        Some(Seq::empty())
    } else {
        match spec_map_entries(src.drop_last(), cw) {
            Some(pre) => {
                let (k, v) = src.last();
                if k >= pow256(cw) {
                    Some(pre)
                } else if v.len() < 2 {
                    None
                } else {
                    Some(pre.push((k, (v[0] * 256 + v[1]) as u16)))
                }
            },
            None => None,
        }
    }
}

/// The font map a character-map program resolves to, or `None` when the
/// program, its declarations, its code width or its table values are
/// malformed.
pub open spec fn spec_font_map(bytes: Seq<u8>) -> Option<FontMapView> {
    match spec_tokens(bytes) {
        None => None,
        Some(toks) => match spec_walk(toks) {
            None => None,
            Some(data) => match data.first_cs_len {
                None => None,
                Some(l) => {
                    let cw = l / 2 + 1;
                    if cw > MAX_CODE_WIDTH {
                        None
                    } else {
                        match spec_map_entries(data.entries, cw) {
                            None => None,
                            Some(es) => Some(FontMapView { code_width: cw, map: entries_map(es) }),
                        }
                    }
                },
            },
        },
    }
}

} // verus!

verus! {

fn is_kw_codespace_exec(v: &Vec<u8>) -> (r: bool)
    ensures
        r == is_kw_codespace(v@),
{
    v.len() == 19 && v[0] == 0x62 && v[1] == 0x65 && v[2] == 0x67 && v[3] == 0x69 && v[4] == 0x6E
        && v[5] == 0x63 && v[6] == 0x6F && v[7] == 0x64 && v[8] == 0x65 && v[9] == 0x73 && v[10]
        == 0x70 && v[11] == 0x61 && v[12] == 0x63 && v[13] == 0x65 && v[14] == 0x72 && v[15]
        == 0x61 && v[16] == 0x6E && v[17] == 0x67 && v[18] == 0x65
}

fn is_kw_bfchar_exec(v: &Vec<u8>) -> (r: bool)
    ensures
        r == is_kw_bfchar(v@),
{
    v.len() == 11 && v[0] == 0x62 && v[1] == 0x65 && v[2] == 0x67 && v[3] == 0x69 && v[4] == 0x6E
        && v[5] == 0x62 && v[6] == 0x66 && v[7] == 0x63 && v[8] == 0x68 && v[9] == 0x61 && v[10]
        == 0x72
}

fn is_kw_bfrange_exec(v: &Vec<u8>) -> (r: bool)
    ensures
        r == is_kw_bfrange(v@),
{
    v.len() == 12 && v[0] == 0x62 && v[1] == 0x65 && v[2] == 0x67 && v[3] == 0x69 && v[4] == 0x6E
        && v[5] == 0x62 && v[6] == 0x66 && v[7] == 0x72 && v[8] == 0x61 && v[9] == 0x6E && v[10]
        == 0x67 && v[11] == 0x65
}

/// Reads a byte string's code value, wrapped to 32 bits: returns exactly
/// [`as_code`].
fn as_code_exec(v: &Vec<u8>) -> (r: u64)
    ensures
        r as int == as_code(v@),
        r < 0x1_0000_0000,
{
    let mut acc: u64 = 0;
    let mut i: usize = 0;
    proof {
        assert(v@.take(0) =~= Seq::<u8>::empty());
    }
    while i < v.len()
        invariant
            i <= v.len(),
            acc as int == as_code(v@.take(i as int)),
            acc < 0x1_0000_0000,
        decreases v.len() - i,
    {
        proof {
            assert(v@.take(i as int + 1).drop_last() =~= v@.take(i as int));
            assert(v@.take(i as int + 1).last() == v@[i as int]);
        }
        acc = (acc * 256 + (v[i] as u64)) % 0x1_0000_0000;
        i += 1;
    }
    proof {
        assert(v@.take(v@.len() as int) =~= v@);
    }
    acc
}


/// A range declared through an array with a non-string element resolves
/// to nothing, whatever its length.
proof fn lemma_range_arr_none(lo: int, items: Seq<CmapArrItemView>, m: int, n: nat)
    requires
        0 <= m < n,
        !(items[m] is Str),
    ensures
        range_entries_arr(lo, items, n) is None,
    decreases n,
{
    if m + 1 < n {
        lemma_range_arr_none(lo, items, m, (n - 1) as nat);
    }
}

/// Appends a two-byte-start range's entries.
fn push_range2(st: &mut CmapData, lo: u64, hi: u64, val: u64)
    requires
        lo <= hi < 0x1_0000_0000,
        val + (hi - lo) <= 0xFFFF,
    ensures
        final(st)@.first_cs_len == old(st)@.first_cs_len,
        final(st)@.entries == old(st)@.entries + range_entries2(
            lo as int,
            (hi - lo + 1) as nat,
            val as int,
        ),
{
    let ghost pre = st@;
    let n2 = hi - lo + 1;
    let mut m: u64 = 0;
    proof {
        assert(st@.entries =~= pre.entries + range_entries2(lo as int, 0nat, val as int));
    }
    while m < n2
        invariant
            m <= n2,
            n2 == hi - lo + 1,
            lo <= hi < 0x1_0000_0000,
            val + (hi - lo) <= 0xFFFF,
            st@.first_cs_len == pre.first_cs_len,
            st@.entries =~= pre.entries + range_entries2(lo as int, m as nat, val as int),
        decreases n2 - m,
    {
        let x = val + m;
        let mut b: Vec<u8> = Vec::new();
        b.push((x / 256) as u8);
        b.push((x % 256) as u8);
        proof {
            assert(b@ =~= be2(x as int));
        }
        let ghost before = st@.entries;
        st.entries.push((lo + m, b));
        proof {
            assert(st@.entries =~= before.push(((lo + m) as u64, be2(x as int))));
            assert(st@.entries =~= pre.entries + range_entries2(
                lo as int,
                (m + 1) as nat,
                val as int,
            ));
        }
        m += 1;
    }
}

/// Appends a four-byte-start range's entries.
fn push_range4(st: &mut CmapData, lo: u64, hi: u64, val: u64)
    requires
        lo <= hi < 0x1_0000_0000,
        val + (hi - lo) < 0x1_0000_0000,
    ensures
        final(st)@.first_cs_len == old(st)@.first_cs_len,
        final(st)@.entries == old(st)@.entries + range_entries4(
            lo as int,
            (hi - lo + 1) as nat,
            val as int,
        ),
{
    let ghost pre = st@;
    let n2 = hi - lo + 1;
    let mut m: u64 = 0;
    proof {
        assert(st@.entries =~= pre.entries + range_entries4(lo as int, 0nat, val as int));
    }
    while m < n2
        invariant
            m <= n2,
            n2 == hi - lo + 1,
            lo <= hi < 0x1_0000_0000,
            val + (hi - lo) < 0x1_0000_0000,
            st@.first_cs_len == pre.first_cs_len,
            st@.entries =~= pre.entries + range_entries4(lo as int, m as nat, val as int),
        decreases n2 - m,
    {
        let x = val + m;
        let mut b: Vec<u8> = Vec::new();
        b.push((x / 0x1000000) as u8);
        b.push(((x / 0x10000) % 256) as u8);
        b.push(((x / 256) % 256) as u8);
        b.push((x % 256) as u8);
        proof {
            assert(b@ =~= be4(x as int));
        }
        let ghost before = st@.entries;
        st.entries.push((lo + m, b));
        proof {
            assert(st@.entries =~= before.push(((lo + m) as u64, be4(x as int))));
            assert(st@.entries =~= pre.entries + range_entries4(
                lo as int,
                (m + 1) as nat,
                val as int,
            ));
        }
        m += 1;
    }
}

/// Appends an array-start range's entries; `false` when an element is
/// not a byte string.
#[verifier::rlimit(50)]
#[verifier::loop_isolation(false)]
fn push_range_arr(st: &mut CmapData, lo: u64, hi: u64, items: &Vec<CmapArrItem>) -> (ok: bool)
    requires
        lo <= hi < 0x1_0000_0000,
        hi - lo + 1 == items@.len(),
    ensures
        final(st)@.first_cs_len == old(st)@.first_cs_len,
        ok ==> (range_entries_arr(lo as int, items.deep_view(), items.deep_view().len() as nat)
            matches Some(es) && final(st)@.entries == old(st)@.entries + es),
        !ok ==> range_entries_arr(lo as int, items.deep_view(), items.deep_view().len() as nat)
            is None,
{
    let ghost pre = st@;
    let ghost itemsv = items.deep_view();
    let ghost n0 = st.entries@.len() as int;
    let mut m: usize = 0;
    proof {
        assert(range_entries_arr(lo as int, itemsv, 0nat) == Some(
            Seq::<(u64, Seq<u8>)>::empty(),
        ));
        assert(st@.entries.skip(n0) =~= Seq::<(u64, Seq<u8>)>::empty());
        assert(st@.entries.take(n0) =~= pre.entries);
    }
    while m < items.len()
        invariant
            m <= items@.len(),
            itemsv == items.deep_view(),
            lo <= hi < 0x1_0000_0000,
            hi - lo + 1 == items@.len(),
            n0 == pre.entries.len(),
            st@.first_cs_len == pre.first_cs_len,
            st@.entries.len() == n0 + m,
            st@.entries.take(n0) =~= pre.entries,
            range_entries_arr(lo as int, itemsv, m as nat) == Some(st@.entries.skip(n0)),
        decreases items@.len() - m,
    {
        match &items[m] {
            CmapArrItem::Str(bs) => {
                let b = crate::text::copy_bytes(bs);
                let ghost before = st@.entries;
                proof {
                    assert(itemsv[m as int] == CmapArrItemView::Str(bs@));
                }
                st.entries.push((lo + (m as u64), b));
                proof {
                    assert(st@.entries =~= before.push(((lo + m) as u64, bs@)));
                    assert(st@.entries.skip(n0) =~= before.skip(n0).push(((lo + m) as u64, bs@)));
                    assert(st@.entries.take(n0) =~= pre.entries);
                }
                m += 1;
            },
            _ => {
                proof {
                    assert(itemsv[m as int] == items@[m as int].deep_view());
                    lemma_range_arr_none(lo as int, itemsv, m as int, itemsv.len() as nat);
                }
                return false;
            },
        }
    }
    proof {
        assert(st@.entries =~= pre.entries + st@.entries.skip(n0));
    }
    true
}

/// Consumes a codespace section's entries, from the first entry
/// position; returns the end-operator position.
#[verifier::rlimit(50)]
#[verifier::loop_isolation(false)]
fn cs_section(toks: &Vec<CmapToken>, i1: usize, cnt: i64, st: &mut CmapData) -> (r: Option<usize>)
    requires
        1 <= i1 <= toks@.len(),
    ensures
        match r {
            Some(j) => spec_cs_entries(toks.deep_view(), i1 as int, count_reps(cnt), old(st)@)
                == Some((final(st)@, j as int + 1)) && i1 <= j <= toks@.len(),
            None => spec_cs_entries(toks.deep_view(), i1 as int, count_reps(cnt), old(st)@)
                is None,
        },
{
    let ghost tv = toks.deep_view();
    let ghost st0 = st@;
    let ghost r0 = spec_cs_entries(tv, i1 as int, count_reps(cnt), st0);
    let mut j: usize = i1;
    let mut k: i64 = 0;
    while k < cnt
        invariant
            0 <= k,
            cnt >= 0 ==> k <= cnt,
            cnt < 0 ==> k == 0,
            i1 <= j <= toks@.len(),
            j == i1 + 2 * k,
            tv == toks.deep_view(),
            spec_cs_entries(
                tv,
                j as int,
                (if cnt >= k {
                    (cnt - k) as nat
                } else {
                    0nat
                }),
                st@,
            ) == r0,
        decreases cnt - k,
    {
        if toks.len() - j <= 1 {
            return None;
        }
        let lo_len: usize;
        match &toks[j] {
            CmapToken::Str(lo) => {
                proof {
                    assert(tv[j as int] == CmapTokenView::Str(lo@));
                }
                match &toks[j + 1] {
                    CmapToken::Str(hi) => {
                        proof {
                            assert(tv[j as int + 1] == CmapTokenView::Str(hi@));
                        }
                        if lo.len() != hi.len() {
                            return None;
                        }
                        lo_len = lo.len();
                    },
                    _ => {
                        proof {
                            assert(!(tv[j as int + 1] is Str));
                        }
                        return None;
                    },
                }
            },
            _ => {
                proof {
                    assert(!(tv[j as int] is Str));
                }
                return None;
            },
        }
        let ghost st_before = st@;
        let ghost rem: nat = (cnt - k) as nat;
        if st.first_cs_len.is_none() {
            st.first_cs_len = Some(lo_len);
        }
        proof {
            assert(st@ == (CmapDataView {
                first_cs_len: match st_before.first_cs_len {
                    Some(l) => Some(l),
                    None => Some(lo_len as int),
                },
                entries: st_before.entries,
            }));
            assert(spec_cs_entries(tv, j as int, rem, st_before) == spec_cs_entries(
                tv,
                j as int + 2,
                (rem - 1) as nat,
                st@,
            ));
        }
        j += 2;
        k += 1;
    }
    proof {
        assert(spec_cs_entries(
            tv,
            j as int,
            (if cnt >= k { (cnt - k) as nat } else { 0nat }),
            st@,
        ) == Some((st@, j as int + 1)));
        assert(r0 == Some((st@, j as int + 1)));
    }
    Some(j)
}

/// Consumes a single-code section's entries, from the first entry
/// position; returns the end-operator position.
#[verifier::rlimit(50)]
#[verifier::loop_isolation(false)]
fn bfchar_section(toks: &Vec<CmapToken>, i1: usize, cnt: i64, st: &mut CmapData) -> (r: Option<
    usize,
>)
    requires
        1 <= i1 <= toks@.len(),
    ensures
        match r {
            Some(j) => spec_bfchar_entries(toks.deep_view(), i1 as int, count_reps(cnt), old(st)@)
                == Some((final(st)@, j as int + 1)) && i1 <= j <= toks@.len(),
            None => spec_bfchar_entries(toks.deep_view(), i1 as int, count_reps(cnt), old(st)@)
                is None,
        },
{
    let ghost tv = toks.deep_view();
    let ghost st0 = st@;
    let ghost r0 = spec_bfchar_entries(tv, i1 as int, count_reps(cnt), st0);
    let mut j: usize = i1;
    let mut k: i64 = 0;
    while k < cnt
        invariant
            0 <= k,
            cnt >= 0 ==> k <= cnt,
            cnt < 0 ==> k == 0,
            i1 <= j <= toks@.len(),
            j == i1 + 2 * k,
            tv == toks.deep_view(),
            spec_bfchar_entries(
                tv,
                j as int,
                (if cnt >= k {
                    (cnt - k) as nat
                } else {
                    0nat
                }),
                st@,
            ) == r0,
        decreases cnt - k,
    {
        if toks.len() - j <= 1 {
            return None;
        }
        let ghost pre = st@;
        let code_val: u64;
        let uni: Vec<u8>;
        match &toks[j] {
            CmapToken::Str(code) => {
                proof {
                    assert(tv[j as int] == CmapTokenView::Str(code@));
                }
                match &toks[j + 1] {
                    CmapToken::Str(u) => {
                        proof {
                            assert(tv[j as int + 1] == CmapTokenView::Str(u@));
                        }
                        code_val = as_code_exec(code);
                        uni = crate::text::copy_bytes(u);
                    },
                    _ => {
                        proof {
                            assert(!(tv[j as int + 1] is Str));
                        }
                        return None;
                    },
                }
            },
            _ => {
                proof {
                    assert(!(tv[j as int] is Str));
                }
                return None;
            },
        }
        st.entries.push((code_val, uni));
        proof {
            assert(st@.entries =~= pre.entries.push((code_val, uni@)));
            assert(st@ == (CmapDataView {
                first_cs_len: pre.first_cs_len,
                entries: pre.entries.push((code_val, uni@)),
            }));
        }
        j += 2;
        k += 1;
    }
    Some(j)
}

/// Consumes a code-range section's entries, from the first entry
/// position; returns the end-operator position.
#[verifier::rlimit(80)]
#[verifier::loop_isolation(false)]
fn bfrange_section(toks: &Vec<CmapToken>, i1: usize, cnt: i64, st: &mut CmapData) -> (r: Option<
    usize,
>)
    requires
        1 <= i1 <= toks@.len(),
    ensures
        match r {
            Some(j) => spec_bfrange_entries(toks.deep_view(), i1 as int, count_reps(cnt), old(st)@)
                == Some((final(st)@, j as int + 1)) && i1 <= j <= toks@.len(),
            None => spec_bfrange_entries(toks.deep_view(), i1 as int, count_reps(cnt), old(st)@)
                is None,
        },
{
    let ghost tv = toks.deep_view();
    let ghost st0 = st@;
    let ghost r0 = spec_bfrange_entries(tv, i1 as int, count_reps(cnt), st0);
    let mut j: usize = i1;
    let mut k: i64 = 0;
    while k < cnt
        invariant
            0 <= k,
            cnt >= 0 ==> k <= cnt,
            cnt < 0 ==> k == 0,
            i1 <= j <= toks@.len(),
            j == i1 + 3 * k,
            tv == toks.deep_view(),
            spec_bfrange_entries(
                tv,
                j as int,
                (if cnt >= k {
                    (cnt - k) as nat
                } else {
                    0nat
                }),
                st@,
            ) == r0,
        decreases cnt - k,
    {
        if toks.len() - j <= 2 {
            return None;
        }
        let lo: u64;
        let hi: u64;
        match &toks[j] {
            CmapToken::Str(lo_s) => {
                proof {
                    assert(tv[j as int] == CmapTokenView::Str(lo_s@));
                }
                match &toks[j + 1] {
                    CmapToken::Str(hi_s) => {
                        proof {
                            assert(tv[j as int + 1] == CmapTokenView::Str(hi_s@));
                        }
                        lo = as_code_exec(lo_s);
                        hi = as_code_exec(hi_s);
                    },
                    _ => {
                        proof {
                            assert(!(tv[j as int + 1] is Str));
                        }
                        return None;
                    },
                }
            },
            _ => {
                proof {
                    assert(!(tv[j as int] is Str));
                }
                return None;
            },
        }
        match &toks[j + 2] {
            CmapToken::Str(start) => {
                proof {
                    assert(tv[j as int + 2] == CmapTokenView::Str(start@));
                }
                if start.len() == 4 {
                    let val = as_code_exec(start);
                    if lo <= hi {
                        if val + (hi - lo) >= 0x1_0000_0000 {
                            return None;
                        }
                        push_range4(st, lo, hi, val);
                    }
                } else if start.len() == 2 {
                    let val = as_code_exec(start);
                    if lo <= hi {
                        if val + (hi - lo) > 0xFFFF {
                            return None;
                        }
                        push_range2(st, lo, hi, val);
                    }
                } else {
                    return None;
                }
            },
            CmapToken::Arr(items) => {
                proof {
                    assert(tv[j as int + 2] == CmapTokenView::Arr(items.deep_view()));
                }
                if lo > hi {
                    return None;
                }
                if hi - lo + 1 != items.len() as u64 {
                    return None;
                }
                if !push_range_arr(st, lo, hi, items) {
                    return None;
                }
            },
            _ => {
                return None;
            },
        }
        j += 3;
        k += 1;
    }
    Some(j)
}

/// Walks a lexed program and collects its declarations: returns exactly
/// [`spec_walk`].
#[verifier::rlimit(50)]
#[verifier::loop_isolation(false)]
pub fn walk_tokens(toks: &Vec<CmapToken>) -> (r: Option<CmapData>)
    ensures
        match r {
            Some(d) => spec_walk(toks.deep_view()) == Some(d@),
            None => spec_walk(toks.deep_view()) is None,
        },
{
    let ghost tv = toks.deep_view();
    let mut st = CmapData { first_cs_len: None, entries: Vec::new() };
    proof {
        assert(st@.entries =~= Seq::<(u64, Seq<u8>)>::empty());
        assert(st@ == (CmapDataView { first_cs_len: None, entries: Seq::empty() }));
    }
    let mut i: usize = 0;
    while i < toks.len()
        invariant
            i <= toks.len(),
            tv == toks.deep_view(),
            spec_walk(tv) == spec_walk_from(tv, i as int, st@),
        decreases toks.len() - i,
    {
        match &toks[i] {
            CmapToken::Op(name) => {
                proof {
                    assert(tv[i as int] == CmapTokenView::Op(name@));
                }
                let is_cs = is_kw_codespace_exec(name);
                let is_bc = is_kw_bfchar_exec(name);
                let is_br = is_kw_bfrange_exec(name);
                if !is_cs && !is_bc && !is_br {
                    proof {
                        assert(spec_walk_from(tv, i as int, st@) == spec_walk_from(
                            tv,
                            i as int + 1,
                            st@,
                        ));
                    }
                    i += 1;
                } else {
                    if i == 0 {
                        proof {
                            assert(prev_int(tv, 0) is None);
                            assert(spec_walk_from(tv, 0, st@) is None);
                        }
                        return None;
                    }
                    let cnt: i64;
                    match &toks[i - 1] {
                        CmapToken::Int(c) => {
                            cnt = *c;
                            proof {
                                assert(tv[i as int - 1] == CmapTokenView::Int(cnt));
                                assert(prev_int(tv, i as int) == Some(cnt));
                            }
                        },
                        _ => {
                            proof {
                                assert(prev_int(tv, i as int) is None);
                                assert(spec_walk_from(tv, i as int, st@) is None);
                            }
                            return None;
                        },
                    }
                    let ghost st_in = st@;
                    let sect = if is_cs {
                        cs_section(toks, i + 1, cnt, &mut st)
                    } else if is_bc {
                        bfchar_section(toks, i + 1, cnt, &mut st)
                    } else {
                        bfrange_section(toks, i + 1, cnt, &mut st)
                    };
                    match sect {
                        None => {
                            proof {
                                assert(spec_walk_from(tv, i as int, st_in) is None);
                            }
                            return None;
                        },
                        Some(j) => {
                            if toks.len() - j >= 2 {
                                proof {
                                    assert(j as int + 1 > i as int);
                                    assert(spec_walk_from(tv, i as int, st_in)
                                        == spec_walk_from(tv, j as int + 1, st@));
                                }
                                i = j + 1;
                            } else {
                                proof {
                                    assert(j as int + 1 >= tv.len());
                                    assert(spec_walk_from(tv, i as int, st_in) == Some(st@));
                                }
                                return Some(st);
                            }
                        },
                    }
                }
            },
            _ => {
                proof {
                    assert(!(tv[i as int] is Op));
                    assert(spec_walk_from(tv, i as int, st@) == spec_walk_from(
                        tv,
                        i as int + 1,
                        st@,
                    ));
                }
                i += 1;
            },
        }
    }
    Some(st)
}

} // verus!

verus! {

/// Once malformed, a longer prefix of declarations stays malformed.
proof fn lemma_map_entries_none(src: Seq<(u64, Seq<u8>)>, cw: int, m: int, n: int)
    requires
        0 <= m <= n <= src.len(),
        spec_map_entries(src.take(m), cw) is None,
    ensures
        spec_map_entries(src.take(n), cw) is None,
    decreases n - m,
{
    if m < n {
        lemma_map_entries_none(src, cw, m, n - 1);
        assert(src.take(n).drop_last() =~= src.take(n - 1));
    }
}

/// The numeric bound under which a declared key fits `cw` bytes.
fn key_limit(cw: usize) -> (r: u64)
    requires
        1 <= cw <= 7,
    ensures
        r as int == pow256(cw as int),
{
    proof {
        reveal_with_fuel(pow256, 9);
    }
    if cw == 1 {
        0x100
    } else if cw == 2 {
        0x1_0000
    } else if cw == 3 {
        0x100_0000
    } else if cw == 4 {
        0x1_0000_0000
    } else if cw == 5 {
        0x100_0000_0000
    } else if cw == 6 {
        0x1_0000_0000_0000
    } else {
        0x100_0000_0000_0000
    }
}

/// Resolves a character-map program into a font map: returns exactly
/// [`spec_font_map`], with `None` for every malformed program.
#[verifier::loop_isolation(false)]
pub fn parse_font_map(bytes: &Vec<u8>) -> (r: Option<FontMap>)
    ensures
        match r {
            Some(fm) => spec_font_map(bytes@) == Some(fm@) && fm@.wf(),
            None => spec_font_map(bytes@) is None,
        },
{
    let toks = match lex_cmap(bytes) {
        Some(t) => t,
        None => {
            return None;
        },
    };
    let data = match walk_tokens(&toks) {
        Some(d) => d,
        None => {
            return None;
        },
    };
    let l: usize = match data.first_cs_len {
        Some(l) => l,
        None => {
            return None;
        },
    };
    let cw = l / 2 + 1;
    if cw > 8 {
        return None;
    }
    let ghost src = data@.entries;
    let mut entries: Vec<(u64, u16)> = Vec::new();
    let mut i: usize = 0;
    proof {
        assert(src.take(0) =~= Seq::<(u64, Seq<u8>)>::empty());
        assert(spec_map_entries(src.take(0), cw as int) == Some(entries@));
        assert(entries@ =~= Seq::<(u64, u16)>::empty());
    }
    while i < data.entries.len()
        invariant
            i <= data.entries.len(),
            spec_map_entries(src.take(i as int), cw as int) == Some(entries@),
        decreases data.entries.len() - i,
    {
        let k = data.entries[i].0;
        let ghost pre = entries@;
        proof {
            assert(src[i as int] == (data.entries@[i as int].0, data.entries@[i as int].1@));
            assert(src.take(i as int + 1).drop_last() =~= src.take(i as int));
            assert(src.take(i as int + 1).last() == src[i as int]);
        }
        let in_range: bool = if cw == 8 {
            proof {
                crate::fontmap::lemma_pow256_le(8, 8);
                reveal_with_fuel(pow256, 10);
            }
            true
        } else {
            k < key_limit(cw)
        };
        if in_range {
            let v = &data.entries[i].1;
            if v.len() < 2 {
                proof {
                    assert(spec_map_entries(src.take(i as int + 1), cw as int) is None);
                    lemma_map_entries_none(src, cw as int, i as int + 1, src.len() as int);
                    assert(src.take(src.len() as int) =~= src);
                }
                return None;
            }
            let unit: u16 = (v[0] as u16) * 256 + (v[1] as u16);
            entries.push((k, unit));
            proof {
                assert(entries@ =~= pre.push((k, unit)));
            }
        }
        i += 1;
    }
    proof {
        assert(src.take(src.len() as int) =~= src);
    }
    let fm = FontMap { code_width: cw, entries };
    proof {
        assert(fm@ == (FontMapView { code_width: cw as int, map: entries_map(fm.entries@) }));
    }
    Some(fm)
}

} // verus!
