//! Decoding a sequence of UTF-16 code units into characters.
//!
//! A unit outside the surrogate range stands for itself; a high surrogate
//! followed by a low surrogate combines into one supplementary character;
//! anything else — an unpaired or reversed surrogate — is malformed and
//! the whole sequence is rejected.

use vstd::prelude::*;

verus! {

/// The Unicode scalar values a UTF-16 code-unit sequence decodes to, or
/// `None` when the sequence is malformed.
pub open spec fn utf16_points(s: Seq<u16>) -> Option<Seq<u32>>
    decreases s.len(),
{
    if s.len() == 0 {
        Some(Seq::empty())
    } else {
        let u = s.first();
        if u < 0xD800 || u > 0xDFFF {
            match utf16_points(s.drop_first()) {
                Some(rest) => Some(seq![u as u32] + rest),
                None => None,
            }
        } else if u < 0xDC00 {
            if s.len() >= 2 && 0xDC00 <= s[1] && s[1] <= 0xDFFF {
                let cp: u32 = (0x10000 + (s.first() - 0xD800) * 0x400 + (s[1] - 0xDC00)) as u32;
                match utf16_points(s.skip(2)) {
                    Some(rest) => Some(seq![cp] + rest),
                    None => None,
                }
            } else {
                None
            }
        } else {
            None
        }
    }
}

/// The characters of the given scalar values.
pub open spec fn points_chars(ps: Seq<u32>) -> Seq<char> {
    ps.map_values(|p: u32| p as char)
}

/// The characters a UTF-16 code-unit sequence decodes to, or `None` when
/// the sequence is malformed.
pub open spec fn utf16_decode(s: Seq<u16>) -> Option<Seq<char>> {
    match utf16_points(s) {
        Some(ps) => Some(points_chars(ps)),
        None => None,
    }
}

/// Relies on `char::from_u32`: it returns `Some` exactly on Unicode
/// scalar values — code points up to `0x10FFFF` outside the surrogate
/// range — and the returned character has the given value.
#[verifier::external_body]
fn char_from_u32(u: u32) -> (r: Option<char>)
    ensures
        r is Some <==> (u < 0xD800 || (0xE000 <= u && u <= 0x10FFFF)),
        r matches Some(c) ==> c as u32 == u,
{
    char::from_u32(u)
}

/// `rest` with `prefix` prepended on success.
spec fn pcat(prefix: Seq<u32>, rest: Option<Seq<u32>>) -> Option<Seq<u32>> {
    match rest {
        Some(r) => Some(prefix + r),
        None => None,
    }
}

/// The scalar values of the characters, undoing [`points_chars`].
pub open spec fn chars_points(cs: Seq<char>) -> Seq<u32> {
    cs.map_values(|c: char| c as u32)
}

/// Decodes the units into characters: returns exactly [`utf16_decode`] of
/// the input, with `None` for a malformed sequence.
pub fn utf16_to_chars(units: &Vec<u16>) -> (r: Option<Vec<char>>)
    ensures
        r is Some <==> utf16_decode(units@) is Some,
        r matches Some(v) ==> Some(v@) == utf16_decode(units@),
{
    let mut out: Vec<char> = Vec::new();
    let mut i: usize = 0;
    proof {
        assert(units@.skip(0) =~= units@);
        assert(chars_points(out@) =~= Seq::<u32>::empty());
        match utf16_points(units@) {
            Some(rest) => {
                assert(Seq::<u32>::empty() + rest =~= rest);
            },
            None => {},
        }
    }
    while i < units.len()
        invariant
            i <= units.len(),
            utf16_points(units@) == pcat(chars_points(out@), utf16_points(units@.skip(i as int))),
        decreases units.len() - i,
    {
        let ghost pre = out@;
        let ghost suffix = units@.skip(i as int);
        let u = units[i];
        proof {
            assert(suffix.first() == units@[i as int]);
            assert(suffix.drop_first() =~= units@.skip(i as int + 1));
        }
        if u < 0xD800 || u > 0xDFFF {
            let p: u32 = u as u32;
            let c = match char_from_u32(p) {
                Some(c) => c,
                None => {
                    proof {
                        assert(false);
                    }
                    ' '
                },
            };
            out.push(c);
            proof {
                assert(chars_points(out@) =~= chars_points(pre).push(p));
                match utf16_points(units@.skip(i as int + 1)) {
                    Some(rest) => {
                        assert(chars_points(pre) + (seq![p] + rest) =~= chars_points(
                            pre,
                        ).push(p) + rest);
                    },
                    None => {},
                }
            }
            i += 1;
        } else if u < 0xDC00 && i + 1 < units.len() {
            let u2 = units[i + 1];
            proof {
                assert(suffix[1] == units@[i as int + 1]);
            }
            if 0xDC00 <= u2 && u2 <= 0xDFFF {
                let p: u32 = 0x10000 + ((u - 0xD800) as u32) * 0x400 + ((u2 - 0xDC00) as u32);
                let c = match char_from_u32(p) {
                    Some(c) => c,
                    None => {
                        proof {
                            assert(false);
                        }
                        ' '
                    },
                };
                out.push(c);
                proof {
                    assert(suffix.skip(2) =~= units@.skip(i as int + 2));
                    assert(p == (0x10000 + (suffix.first() - 0xD800) * 0x400 + (suffix[1]
                        - 0xDC00)) as u32);
                    assert(chars_points(out@) =~= chars_points(pre).push(p));
                    match utf16_points(units@.skip(i as int + 2)) {
                        Some(rest) => {
                            assert(chars_points(pre) + (seq![p] + rest) =~= chars_points(
                                pre,
                            ).push(p) + rest);
                        },
                        None => {},
                    }
                }
                i += 2;
            } else {
                return None;
            }
        } else {
            return None;
        }
    }
    proof {
        assert(units@.skip(units@.len() as int).len() == 0);
        match utf16_points(units@) {
            Some(ps) => {
                assert(chars_points(out@) + Seq::<u32>::empty() =~= chars_points(out@));
                assert(ps == chars_points(out@));
                assert forall|j: int|
                    0 <= j < out@.len() implies points_chars(chars_points(out@))[j] == out@[j] by {
                    let c = out@[j];
                    vstd::utf8::char_u32_cast(c, c as u32);
                    assert(chars_points(out@)[j] == c as u32);
                }
                assert(points_chars(chars_points(out@)) =~= out@);
            },
            None => {
                assert(false);
            },
        }
    }
    Some(out)
}

} // verus!
