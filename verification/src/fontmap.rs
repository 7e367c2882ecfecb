//! A font's resolved character map: fixed code width and the
//! code-to-Unicode table, plus the chunk-by-chunk decoding of a run's raw
//! bytes through it.
//!
//! Every key of the table stands for a code of exactly `code_width`
//! bytes; a shorter declared key is read as if left-padded with zero
//! bytes, which leaves its big-endian value unchanged. A run's raw bytes
//! are split into consecutive `code_width`-byte chunks (a final short
//! chunk is likewise zero-padded on the left), each chunk's value is
//! looked up, and the found UTF-16 units are concatenated. A chunk
//! without an entry fails the whole run, carrying the padded chunk for
//! diagnostics.

use vstd::prelude::*;

verus! {

/// Largest supported code width, in bytes: a code's value must fit the
/// machine word the table is keyed by.
pub const MAX_CODE_WIDTH: usize = 8;

/// A parsed character map: the fixed byte width of one code, and the
/// code-to-Unicode-unit table.
#[derive(Debug, Clone, PartialEq, Eq)]
pub struct FontMap {
    /// Fixed byte width of one character code.
    pub code_width: usize,
    /// Table entries, as (code value, UTF-16 unit) pairs; a later entry
    /// for the same code overrides an earlier one.
    pub entries: Vec<(u64, u16)>,
}

/// Spec-level mirror of [`FontMap`]: the width and the entries as a map.
pub struct FontMapView {
    pub code_width: int,
    pub map: Map<u64, u16>,
}

/// The map an entry list denotes: later entries override earlier ones.
pub open spec fn entries_map(s: Seq<(u64, u16)>) -> Map<u64, u16>
    decreases s.len(),
{
    if s.len() == 0 {
        Map::empty()
    } else {
        entries_map(s.drop_last()).insert(s.last().0, s.last().1)
    }
}

impl View for FontMap {
    type V = FontMapView;

    open spec fn view(&self) -> FontMapView {
        FontMapView { code_width: self.code_width as int, map: entries_map(self.entries@) }
    }
}

impl FontMapView {
    /// A usable map: the code width is positive and its codes fit the
    /// keying word.
    pub open spec fn wf(self) -> bool {
        1 <= self.code_width <= MAX_CODE_WIDTH
    }
}

/// The value found for a key, if any.
pub open spec fn map_get(m: Map<u64, u16>, k: u64) -> Option<u16> {
    if m.contains_key(k) {
        Some(m[k])
    } else {
        None
    }
}

/// The big-endian integer value of a byte string.
pub open spec fn chunk_code(s: Seq<u8>) -> int
    decreases s.len(),
{
    if s.len() == 0 {
        0
    } else {
        chunk_code(s.drop_last()) * 256 + s.last()
    }
}

/// `256^n`: the number of byte strings of length `n`.
pub open spec fn pow256(n: int) -> int
    decreases n,
{
    if n <= 0 {
        1
    } else {
        256 * pow256(n - 1)
    }
}

/// A byte string's value lies under `256^length`.
pub proof fn lemma_chunk_code_bound(s: Seq<u8>)
    ensures
        0 <= chunk_code(s) < pow256(s.len() as int),
    decreases s.len(),
{
    if s.len() > 0 {
        lemma_chunk_code_bound(s.drop_last());
        assert(chunk_code(s.drop_last()) * 256 <= (pow256(s.len() - 1) - 1) * 256)
            by (nonlinear_arith)
            requires
                chunk_code(s.drop_last()) <= pow256(s.len() - 1) - 1,
        ;
    }
}

/// The byte string left-padded with zero bytes to width `w`.
pub open spec fn zero_pad(s: Seq<u8>, w: int) -> Seq<u8> {
    Seq::new((w - s.len()) as nat, |i: int| 0u8) + s
}

/// `rest` with `prefix` prepended on success.
pub open spec fn ucat(prefix: Seq<u16>, rest: Result<Seq<u16>, Seq<u8>>) -> Result<
    Seq<u16>,
    Seq<u8>,
> {
    match rest {
        Ok(r) => Ok(prefix + r),
        Err(e) => Err(e),
    }
}

/// The UTF-16 units a run's raw bytes map to through the table, chunk by
/// chunk, or the first padded chunk that has no entry.
pub open spec fn spec_decode_units(raw: Seq<u8>, m: FontMapView) -> Result<Seq<u16>, Seq<u8>>
    decreases raw.len(),
    when m.code_width >= 1
{
    if raw.len() == 0 {
        Ok(Seq::empty())
    } else {
        let w = m.code_width;
        let step = if raw.len() >= w {
            w
        } else {
            raw.len() as int
        };
        let chunk = raw.take(step);
        let code = chunk_code(chunk);
        if m.map.contains_key(code as u64) {
            match spec_decode_units(raw.skip(step), m) {
                Ok(rest) => Ok(seq![m.map[code as u64]] + rest),
                Err(e) => Err(e),
            }
        } else {
            Err(zero_pad(chunk, w))
        }
    }
}

impl FontMap {
    /// Looks a code value up in the table: the last entry for the code
    /// wins, exactly as in the map view.
    pub fn lookup(&self, code: u64) -> (r: Option<u16>)
        ensures
            r == map_get(self@.map, code),
    {
        let mut found: Option<u16> = None;
        let mut i: usize = 0;
        proof {
            assert(self.entries@.take(0) =~= Seq::<(u64, u16)>::empty());
        }
        while i < self.entries.len()
            invariant
                i <= self.entries.len(),
                found == map_get(entries_map(self.entries@.take(i as int)), code),
            decreases self.entries.len() - i,
        {
            let e = self.entries[i];
            if e.0 == code {
                found = Some(e.1);
            }
            proof {
                assert(self.entries@.take(i as int + 1).drop_last() =~= self.entries@.take(
                    i as int,
                ));
                assert(self.entries@.take(i as int + 1).last() == self.entries@[i as int]);
            }
            i += 1;
        }
        proof {
            assert(self.entries@.take(self.entries@.len() as int) =~= self.entries@);
        }
        found
    }

    /// Splits the raw bytes into `code_width`-byte chunks, zero-padding a
    /// final short chunk on the left, and looks each chunk up: returns
    /// exactly [`spec_decode_units`], with the offending padded chunk on
    /// failure.
    pub fn decode_units(&self, raw: &Vec<u8>) -> (r: Result<Vec<u16>, Vec<u8>>)
        requires
            self@.wf(),
        ensures
            match r {
                Ok(units) => spec_decode_units(raw@, self@) == Ok::<Seq<u16>, Seq<u8>>(units@),
                Err(chunk) => spec_decode_units(raw@, self@) == Err::<Seq<u16>, Seq<u8>>(chunk@),
            },
    {
        let w = self.code_width;
        let mut out: Vec<u16> = Vec::new();
        let mut i: usize = 0;
        proof {
            assert(raw@.skip(0) =~= raw@);
            match spec_decode_units(raw@, self@) {
                Ok(rest) => {
                    assert(Seq::<u16>::empty() + rest =~= rest);
                },
                Err(_) => {},
            }
        }
        while i < raw.len()
            invariant
                i <= raw.len(),
                w == self.code_width,
                self@.wf(),
                spec_decode_units(raw@, self@) == ucat(
                    out@,
                    spec_decode_units(raw@.skip(i as int), self@),
                ),
            decreases raw.len() - i,
        {
            let ghost suffix = raw@.skip(i as int);
            let end = if raw.len() - i >= w {
                i + w
            } else {
                raw.len()
            };
            let ghost step = end - i;
            proof {
                assert(suffix.take(step) =~= raw@.subrange(i as int, end as int));
                assert(suffix.skip(step) =~= raw@.skip(end as int));
                lemma_chunk_code_bound(raw@.subrange(i as int, end as int));
                lemma_pow256_le(step, 8);
                reveal_with_fuel(pow256, 10);
            }
            let mut acc: u64 = 0;
            let mut j: usize = i;
            while j < end
                invariant
                    i <= j <= end <= raw.len(),
                    end - i <= 8,
                    acc == chunk_code(raw@.subrange(i as int, j as int)),
                    acc < pow256(j - i),
                decreases end - j,
            {
                proof {
                    assert(raw@.subrange(i as int, j as int + 1).drop_last() =~= raw@.subrange(
                        i as int,
                        j as int,
                    ));
                    assert(raw@.subrange(i as int, j as int + 1).last() == raw@[j as int]);
                    lemma_pow256_le(j - i + 1, 8);
                    reveal_with_fuel(pow256, 10);
                    assert(acc * 256 + raw@[j as int] < pow256(j - i + 1)) by (nonlinear_arith)
                        requires
                            acc < pow256(j - i),
                            pow256(j - i + 1) == 256 * pow256(j - i),
                            raw@[j as int] < 256,
                    ;
                }
                acc = acc * 256 + (raw[j] as u64);
                j += 1;
            }
            match self.lookup(acc) {
                Some(unit) => {
                    let ghost pre = out@;
                    out.push(unit);
                    proof {
                        match spec_decode_units(raw@.skip(end as int), self@) {
                            Ok(rest) => {
                                assert(pre + (seq![unit] + rest) =~= pre.push(unit) + rest);
                            },
                            Err(_) => {},
                        }
                    }
                },
                None => {
                    let mut chunk: Vec<u8> = Vec::new();
                    let mut z: usize = 0;
                    let pad = w - (end - i);
                    while z < pad
                        invariant
                            z <= pad,
                            chunk@.len() == z,
                            forall|q: int| 0 <= q < z ==> chunk@[q] == 0u8,
                        decreases pad - z,
                    {
                        chunk.push(0u8);
                        z += 1;
                    }
                    let mut j2: usize = i;
                    while j2 < end
                        invariant
                            i <= j2 <= end <= raw.len(),
                            chunk@.len() == pad + (j2 - i),
                            pad == w - (end - i),
                            forall|q: int| 0 <= q < pad ==> chunk@[q] == 0u8,
                            forall|q: int|
                                pad <= q < chunk@.len() ==> chunk@[q] == raw@[i + q - pad],
                        decreases end - j2,
                    {
                        chunk.push(raw[j2]);
                        j2 += 1;
                    }
                    proof {
                        assert(chunk@ =~= zero_pad(raw@.subrange(i as int, end as int), w as int));
                    }
                    return Err(chunk);
                },
            }
            i = end;
        }
        proof {
            assert(raw@.skip(raw@.len() as int).len() == 0);
            match spec_decode_units(raw@, self@) {
                Ok(rest) => {
                    assert(out@ + Seq::<u16>::empty() =~= out@);
                },
                Err(_) => {},
            }
        }
        Ok(out)
    }
}

/// `256^a` divides into `256^b` when `a <= b`; in particular the smaller
/// power is no larger.
pub proof fn lemma_pow256_le(a: int, b: int)
    requires
        a <= b,
    ensures
        pow256(a) <= pow256(b),
        pow256(a) >= 1,
    decreases b - a,
{
    if a < b {
        lemma_pow256_le(a, b - 1);
        if b > 0 {
            assert(pow256(b) == 256 * pow256(b - 1));
        }
    } else {
        lemma_pow256_pos(a);
    }
}

proof fn lemma_pow256_pos(a: int)
    ensures
        pow256(a) >= 1,
    decreases (if a > 0 { a } else { 0 }),
{
    if a > 0 {
        lemma_pow256_pos(a - 1);
    }
}

} // verus!
