//! Lexing a character-map program into a token stream.
//!
//! A character-map program is PostScript-flavoured text: whitespace and
//! `%` comments between tokens; integers and reals; `/names`; operator
//! words; `(literal strings)` with backslash escapes and balanced nested
//! parentheses; `<hex strings>`; `<< ... >>` dictionaries; and
//! `[ ... ]` arrays. The resolver's walk only distinguishes integers,
//! strings, operators and arrays of those, so names, reals, booleans and
//! dictionaries are consumed and carried as [`CmapToken::Other`]; a
//! dictionary is consumed as a balanced value sequence. Lexing collects
//! tokens until the first position where no token can start; a program
//! yielding no token at all is malformed.
//!
//! The whole lexer is specified by [`spec_tokens`] and its helpers, and
//! the executable functions return exactly what the specification says.

use vstd::prelude::*;

verus! {

/// One element of a lexed array: arrays never nest in what the walk
/// reads, so nested composites are carried as `Other`.
#[derive(Debug, Clone, PartialEq, Eq)]
pub enum CmapArrItem {
    Int(i64),
    Str(Vec<u8>),
    Op(Vec<u8>),
    Other,
}

/// Spec-level mirror of [`CmapArrItem`].
pub enum CmapArrItemView {
    Int(i64),
    Str(Seq<u8>),
    Op(Seq<u8>),
    Other,
}

impl View for CmapArrItem {
    type V = CmapArrItemView;

    open spec fn view(&self) -> CmapArrItemView {
        match self {
            CmapArrItem::Int(v) => CmapArrItemView::Int(*v),
            CmapArrItem::Str(b) => CmapArrItemView::Str(b@),
            CmapArrItem::Op(b) => CmapArrItemView::Op(b@),
            CmapArrItem::Other => CmapArrItemView::Other,
        }
    }
}

impl DeepView for CmapArrItem {
    type V = CmapArrItemView;

    open spec fn deep_view(&self) -> CmapArrItemView {
        self.view()
    }
}

/// One lexed token.
#[derive(Debug, Clone, PartialEq, Eq)]
pub enum CmapToken {
    /// An integer that fits a machine word; a wider digit string lexes
    /// as `Other`, as a real does.
    Int(i64),
    /// A literal or hexadecimal string's bytes.
    Str(Vec<u8>),
    /// The items of an array.
    Arr(Vec<CmapArrItem>),
    /// An operator word: a run of letters and `* ' "`.
    Op(Vec<u8>),
    /// A name, real, dictionary or other value the walk does not read.
    Other,
}

/// Spec-level mirror of [`CmapToken`].
pub enum CmapTokenView {
    Int(i64),
    Str(Seq<u8>),
    Arr(Seq<CmapArrItemView>),
    Op(Seq<u8>),
    Other,
}

impl View for CmapToken {
    type V = CmapTokenView;

    open spec fn view(&self) -> CmapTokenView {
        match self {
            CmapToken::Int(v) => CmapTokenView::Int(*v),
            CmapToken::Str(b) => CmapTokenView::Str(b@),
            CmapToken::Arr(items) => CmapTokenView::Arr(items.deep_view()),
            CmapToken::Op(b) => CmapTokenView::Op(b@),
            CmapToken::Other => CmapTokenView::Other,
        }
    }
}

impl DeepView for CmapToken {
    type V = CmapTokenView;

    open spec fn deep_view(&self) -> CmapTokenView {
        self.view()
    }
}

/// An array item carries what its token carried, with composites
/// flattened to `Other`.
pub open spec fn demote_token(t: CmapTokenView) -> CmapArrItemView {
    match t {
        CmapTokenView::Int(v) => CmapArrItemView::Int(v),
        CmapTokenView::Str(b) => CmapArrItemView::Str(b),
        CmapTokenView::Op(b) => CmapArrItemView::Op(b),
        CmapTokenView::Arr(_) => CmapArrItemView::Other,
        CmapTokenView::Other => CmapArrItemView::Other,
    }
}

/// Inter-token whitespace.
pub open spec fn is_ws(b: u8) -> bool {
    b == 0x20 || b == 0x09 || b == 0x0D || b == 0x0A || b == 0x00 || b == 0x0C
}

pub open spec fn is_digit(b: u8) -> bool {
    0x30 <= b <= 0x39
}

pub open spec fn is_oct_digit(b: u8) -> bool {
    0x30 <= b <= 0x37
}

pub open spec fn is_hex_digit(b: u8) -> bool {
    is_digit(b) || (0x41 <= b <= 0x46) || (0x61 <= b <= 0x66)
}

/// The value of one hexadecimal digit.
pub open spec fn hex_val(b: u8) -> int {
    if is_digit(b) {
        b - 0x30
    } else if 0x41 <= b <= 0x46 {
        b - 0x41 + 10
    } else {
        b - 0x61 + 10
    }
}

pub open spec fn is_alpha(b: u8) -> bool {
    (0x41 <= b <= 0x5A) || (0x61 <= b <= 0x7A)
}

/// The characters an operator word is made of: letters and `* ' "`.
pub open spec fn is_op_char(b: u8) -> bool {
    is_alpha(b) || b == 0x2A || b == 0x27 || b == 0x22
}

/// The characters that end a name: delimiters, whitespace, `%` and `#`.
pub open spec fn is_name_stop(b: u8) -> bool {
    ||| b == 0x20
    ||| b == 0x09
    ||| b == 0x0A
    ||| b == 0x0D
    ||| b == 0x0C
    ||| b == 0x28
    ||| b == 0x29
    ||| b == 0x3C
    ||| b == 0x3E
    ||| b == 0x5B
    ||| b == 0x5D
    ||| b == 0x7B
    ||| b == 0x7D
    ||| b == 0x2F
    ||| b == 0x25
    ||| b == 0x23
}

/// The first position at or after `p` holding a non-whitespace byte.
pub open spec fn spec_skip_ws(s: Seq<u8>, p: int) -> int
    decreases s.len() - p,
    when 0 <= p <= s.len()
{
    if p < s.len() && is_ws(s[p]) {
        spec_skip_ws(s, p + 1)
    } else {
        p
    }
}

/// The position after a comment starting before `q`: the first
/// end-of-line at or after `q` is consumed (`\r\n` as one); a comment
/// the input ends inside has no end.
pub open spec fn spec_comment_end(s: Seq<u8>, q: int) -> Option<int>
    decreases s.len() - q,
    when 0 <= q <= s.len()
{
    if q >= s.len() {
        None
    } else if s[q] == 0x0A {
        Some(q + 1)
    } else if s[q] == 0x0D {
        if q + 1 < s.len() && s[q + 1] == 0x0A {
            Some(q + 2)
        } else {
            Some(q + 1)
        }
    } else {
        spec_comment_end(s, q + 1)
    }
}

/// The first position at or after `p` not holding a decimal digit.
pub open spec fn spec_digits_end(s: Seq<u8>, p: int) -> int
    decreases s.len() - p,
    when 0 <= p <= s.len()
{
    if p < s.len() && is_digit(s[p]) {
        spec_digits_end(s, p + 1)
    } else {
        p
    }
}

/// The value of the digit string in `[a, b)`.
pub open spec fn spec_digits_value(s: Seq<u8>, a: int, b: int) -> int
    decreases b - a,
{
    if b <= a {
        0
    } else {
        spec_digits_value(s, a, b - 1) * 10 + (s[b - 1] - 0x30)
    }
}

/// The first position at or after `p` where a name ends; a `#` escape
/// consumes its two hexadecimal digits.
pub open spec fn spec_name_end(s: Seq<u8>, p: int) -> int
    decreases s.len() - p,
    when 0 <= p <= s.len()
{
    if p >= s.len() {
        p
    } else if s[p] == 0x23 {
        if p + 2 < s.len() && is_hex_digit(s[p + 1]) && is_hex_digit(s[p + 2]) {
            spec_name_end(s, p + 3)
        } else {
            p
        }
    } else if is_name_stop(s[p]) {
        p
    } else {
        spec_name_end(s, p + 1)
    }
}

/// The first position at or after `p` not holding an operator character.
pub open spec fn spec_op_end(s: Seq<u8>, p: int) -> int
    decreases s.len() - p,
    when 0 <= p <= s.len()
{
    if p < s.len() && is_op_char(s[p]) {
        spec_op_end(s, p + 1)
    } else {
        p
    }
}

/// What a backslash escape at `p` contributes, and the position after
/// it: named escapes and up-to-three-digit octal codes contribute their
/// byte; a line break after the backslash, an oversized octal code or
/// any other byte contribute nothing, the last consuming the backslash
/// alone.
pub open spec fn spec_escape(s: Seq<u8>, p: int) -> (Seq<u8>, int) {
    if p + 1 >= s.len() {
        (Seq::empty(), p + 1)
    } else {
        let b = s[p + 1];
        if b == 0x5C || b == 0x28 || b == 0x29 {
            (seq![b], p + 2)
        } else if b == 0x6E {
            (seq![0x0Au8], p + 2)
        } else if b == 0x72 {
            (seq![0x0Du8], p + 2)
        } else if b == 0x74 {
            (seq![0x09u8], p + 2)
        } else if b == 0x62 {
            (seq![0x08u8], p + 2)
        } else if b == 0x66 {
            (seq![0x0Cu8], p + 2)
        } else if is_oct_digit(b) {
            let d2 = p + 2 < s.len() && is_oct_digit(s[p + 2]);
            let d3 = p + 3 < s.len() && is_oct_digit(s[p + 2]) && is_oct_digit(s[p + 3]);
            if d3 {
                let v = (b - 0x30) * 64 + (s[p + 2] - 0x30) * 8 + (s[p + 3] - 0x30);
                if v <= 255 {
                    (seq![v as u8], p + 4)
                } else {
                    (Seq::empty(), p + 1)
                }
            } else if d2 {
                (seq![((b - 0x30) * 8 + (s[p + 2] - 0x30)) as u8], p + 3)
            } else {
                (seq![(b - 0x30) as u8], p + 2)
            }
        } else if b == 0x0D {
            if p + 2 < s.len() && s[p + 2] == 0x0A {
                (Seq::empty(), p + 3)
            } else {
                (Seq::empty(), p + 2)
            }
        } else if b == 0x0A {
            (Seq::empty(), p + 2)
        } else {
            (Seq::empty(), p + 1)
        }
    }
}

/// The bytes of a literal string from just inside its opening
/// parenthesis up to and including the matching closing one, and the
/// position after it. A nested balanced group keeps its parentheses in
/// the bytes; an unterminated string is malformed.
pub open spec fn spec_string_body(s: Seq<u8>, p: int) -> Option<(Seq<u8>, int)>
    decreases s.len() - p,
    when 0 <= p <= s.len()
{
    if p >= s.len() {
        None
    } else if s[p] == 0x29 {
        Some((Seq::empty(), p + 1))
    } else if s[p] == 0x28 {
        match spec_string_body(s, p + 1) {
            Some((inner, q)) => if p + 1 < q <= s.len() {
                match spec_string_body(s, q) {
                    Some((rest, r)) => Some(
                        (seq![0x28u8] + inner + seq![0x29u8] + rest, r),
                    ),
                    None => None,
                }
            } else {
                None
            },
            None => None,
        }
    } else if s[p] == 0x5C {
        let (emitted, q) = spec_escape(s, p);
        if p < q <= s.len() {
            match spec_string_body(s, q) {
                Some((rest, r)) => Some((emitted + rest, r)),
                None => None,
            }
        } else {
            None
        }
    } else {
        match spec_string_body(s, p + 1) {
            Some((rest, r)) => Some((seq![s[p]] + rest, r)),
            None => None,
        }
    }
}

/// The bytes of a hexadecimal string from just inside its `<` up to and
/// including the closing `>`, and the position after it. Whitespace may
/// stand between byte pairs; a lone trailing digit or an unterminated
/// string is malformed.
pub open spec fn spec_hex_body(s: Seq<u8>, p: int) -> Option<(Seq<u8>, int)>
    decreases s.len() - p,
    when 0 <= p <= s.len()
{
    if p >= s.len() {
        None
    } else if is_ws(s[p]) {
        spec_hex_body(s, p + 1)
    } else if s[p] == 0x3E {
        Some((Seq::empty(), p + 1))
    } else if p + 1 < s.len() && is_hex_digit(s[p]) && is_hex_digit(s[p + 1]) {
        match spec_hex_body(s, p + 2) {
            Some((rest, q)) => Some((seq![(hex_val(s[p]) * 16 + hex_val(s[p + 1])) as u8] + rest, q)),
            None => None,
        }
    } else {
        None
    }
}

/// A number token starting at `p`: an integer that fits a machine word
/// lexes as [`CmapTokenView::Int`]; a real, or a wider integer, as
/// [`CmapTokenView::Other`]. Returns the token and the position after
/// its digits.
pub open spec fn spec_number(s: Seq<u8>, p: int) -> Option<(CmapTokenView, int)> {
    let q0 = if s[p] == 0x2B || s[p] == 0x2D {
        p + 1
    } else {
        p
    };
    let neg = s[p] == 0x2D;
    let q1 = spec_digits_end(s, q0);
    if q1 > q0 {
        if q1 < s.len() && s[q1] == 0x2E {
            Some((CmapTokenView::Other, spec_digits_end(s, q1 + 1)))
        } else {
            let v = spec_digits_value(s, q0, q1);
            let sv = if neg {
                -v
            } else {
                v
            };
            if -0x8000_0000_0000_0000 <= sv <= 0x7FFF_FFFF_FFFF_FFFF {
                Some((CmapTokenView::Int(sv as i64), q1))
            } else {
                Some((CmapTokenView::Other, q1))
            }
        }
    } else if q0 < s.len() && s[q0] == 0x2E {
        let q2 = spec_digits_end(s, q0 + 1);
        if q2 > q0 + 1 {
            Some((CmapTokenView::Other, q2))
        } else {
            None
        }
    } else {
        None
    }
}

/// One value starting exactly at `p`, and the position after it and its
/// trailing whitespace; `None` when no value starts at `p`.
pub open spec fn spec_value(s: Seq<u8>, p: int) -> Option<(CmapTokenView, int)>
    decreases s.len() - p, 0int,
    when 0 <= p <= s.len()
{
    if p >= s.len() {
        None
    } else {
        let b = s[p];
        if is_digit(b) || b == 0x2B || b == 0x2D || b == 0x2E {
            match spec_number(s, p) {
                Some((t, q)) => if p < q <= s.len() {
                    Some((t, spec_skip_ws(s, q)))
                } else {
                    None
                },
                None => None,
            }
        } else if b == 0x2F {
            let q = spec_name_end(s, p + 1);
            Some((CmapTokenView::Other, spec_skip_ws(s, q)))
        } else if b == 0x28 {
            match spec_string_body(s, p + 1) {
                Some((bytes, q)) => Some((CmapTokenView::Str(bytes), spec_skip_ws(s, q))),
                None => None,
            }
        } else if b == 0x3C {
            if p + 1 < s.len() && s[p + 1] == 0x3C {
                match spec_dict_loop(s, p + 2) {
                    Some(q) => Some((CmapTokenView::Other, spec_skip_ws(s, q))),
                    None => None,
                }
            } else {
                match spec_hex_body(s, p + 1) {
                    Some((bytes, q)) => Some((CmapTokenView::Str(bytes), spec_skip_ws(s, q))),
                    None => None,
                }
            }
        } else if b == 0x5B {
            match spec_array_loop(s, p + 1) {
                Some((items, q)) => Some((CmapTokenView::Arr(items), spec_skip_ws(s, q))),
                None => None,
            }
        } else if is_op_char(b) {
            let q = spec_op_end(s, p + 1);
            Some((CmapTokenView::Op(s.subrange(p, q)), spec_skip_ws(s, q)))
        } else {
            None
        }
    }
}

/// The items of an array from just inside its `[` up to and including
/// the closing `]`, and the position after it.
pub open spec fn spec_array_loop(s: Seq<u8>, p: int) -> Option<(Seq<CmapArrItemView>, int)>
    decreases s.len() - p, 1int,
    when 0 <= p <= s.len()
{
    if p >= s.len() {
        None
    } else if is_ws(s[p]) {
        spec_array_loop(s, p + 1)
    } else if s[p] == 0x5D {
        Some((Seq::empty(), p + 1))
    } else {
        match spec_value(s, p) {
            Some((t, q)) => if p < q <= s.len() {
                match spec_array_loop(s, q) {
                    Some((items, r)) => Some((seq![demote_token(t)] + items, r)),
                    None => None,
                }
            } else {
                None
            },
            None => None,
        }
    }
}

/// The position after a dictionary's closing `>>`, its contents
/// consumed as a balanced value sequence.
pub open spec fn spec_dict_loop(s: Seq<u8>, p: int) -> Option<int>
    decreases s.len() - p, 1int,
    when 0 <= p <= s.len()
{
    if p >= s.len() {
        None
    } else if is_ws(s[p]) {
        spec_dict_loop(s, p + 1)
    } else if s[p] == 0x3E {
        if p + 1 < s.len() && s[p + 1] == 0x3E {
            Some(p + 2)
        } else {
            None
        }
    } else {
        match spec_value(s, p) {
            Some((t, q)) => if p < q <= s.len() {
                spec_dict_loop(s, q)
            } else {
                None
            },
            None => None,
        }
    }
}

/// Every token from position `p` on: whitespace and comments are
/// skipped, and collection stops at the first position where no token
/// can start.
pub open spec fn spec_tokens_from(s: Seq<u8>, p: int) -> Seq<CmapTokenView>
    decreases s.len() - p,
    when 0 <= p <= s.len()
{
    if p >= s.len() {
        Seq::empty()
    } else if is_ws(s[p]) {
        spec_tokens_from(s, p + 1)
    } else if s[p] == 0x25 {
        match spec_comment_end(s, p + 1) {
            Some(q) => if p < q <= s.len() {
                spec_tokens_from(s, q)
            } else {
                Seq::empty()
            },
            None => Seq::empty(),
        }
    } else {
        match spec_value(s, p) {
            Some((t, q)) => if p < q <= s.len() {
                seq![t] + spec_tokens_from(s, q)
            } else {
                seq![t]
            },
            None => Seq::empty(),
        }
    }
}

/// The token stream of a whole program, or `None` when not even one
/// token can be lexed.
pub open spec fn spec_tokens(s: Seq<u8>) -> Option<Seq<CmapTokenView>> {
    let t = spec_tokens_from(s, 0);
    if t.len() == 0 {
        None
    } else {
        Some(t)
    }
}

} // verus!

verus! {

/// Whether a byte is inter-token whitespace.
fn is_ws_exec(b: u8) -> (r: bool)
    ensures
        r == is_ws(b),
{
    b == 0x20 || b == 0x09 || b == 0x0D || b == 0x0A || b == 0x00 || b == 0x0C
}

fn is_digit_exec(b: u8) -> (r: bool)
    ensures
        r == is_digit(b),
{
    0x30 <= b && b <= 0x39
}

fn is_hex_digit_exec(b: u8) -> (r: bool)
    ensures
        r == is_hex_digit(b),
{
    (0x30 <= b && b <= 0x39) || (0x41 <= b && b <= 0x46) || (0x61 <= b && b <= 0x66)
}

fn hex_val_exec(b: u8) -> (r: u8)
    requires
        is_hex_digit(b),
    ensures
        r == hex_val(b),
{
    if 0x30 <= b && b <= 0x39 {
        b - 0x30
    } else if 0x41 <= b && b <= 0x46 {
        b - 0x41 + 10
    } else {
        b - 0x61 + 10
    }
}

fn is_op_char_exec(b: u8) -> (r: bool)
    ensures
        r == is_op_char(b),
{
    (0x41 <= b && b <= 0x5A) || (0x61 <= b && b <= 0x7A) || b == 0x2A || b == 0x27 || b == 0x22
}

fn is_name_stop_exec(b: u8) -> (r: bool)
    ensures
        r == is_name_stop(b),
{
    b == 0x20 || b == 0x09 || b == 0x0A || b == 0x0D || b == 0x0C || b == 0x28 || b == 0x29
        || b == 0x3C || b == 0x3E || b == 0x5B || b == 0x5D || b == 0x7B || b == 0x7D || b == 0x2F
        || b == 0x25 || b == 0x23
}

/// Skips whitespace: returns exactly [`spec_skip_ws`].
fn skip_ws_exec(s: &Vec<u8>, p: usize) -> (q: usize)
    requires
        p <= s@.len(),
    ensures
        q as int == spec_skip_ws(s@, p as int),
        p <= q <= s@.len(),
{
    let mut q = p;
    while q < s.len() && is_ws_exec(s[q])
        invariant
            p <= q <= s@.len(),
            spec_skip_ws(s@, p as int) == spec_skip_ws(s@, q as int),
        decreases s@.len() - q,
    {
        q += 1;
    }
    q
}

/// Scans to the end of a comment: returns exactly [`spec_comment_end`].
fn comment_end_exec(s: &Vec<u8>, p: usize) -> (r: Option<usize>)
    requires
        p <= s@.len(),
    ensures
        match r {
            Some(q) => spec_comment_end(s@, p as int) == Some(q as int) && p < q <= s@.len(),
            None => spec_comment_end(s@, p as int) is None,
        },
{
    let mut q = p;
    while q < s.len() && s[q] != 0x0A && s[q] != 0x0D
        invariant
            p <= q <= s@.len(),
            spec_comment_end(s@, p as int) == spec_comment_end(s@, q as int),
        decreases s@.len() - q,
    {
        q += 1;
    }
    if q >= s.len() {
        None
    } else if s[q] == 0x0A {
        Some(q + 1)
    } else {
        if q + 1 < s.len() && s[q + 1] == 0x0A {
            Some(q + 2)
        } else {
            Some(q + 1)
        }
    }
}

/// Scans past decimal digits: returns exactly [`spec_digits_end`].
fn digits_end_exec(s: &Vec<u8>, p: usize) -> (q: usize)
    requires
        p <= s@.len(),
    ensures
        q as int == spec_digits_end(s@, p as int),
        p <= q <= s@.len(),
{
    let mut q = p;
    while q < s.len() && is_digit_exec(s[q])
        invariant
            p <= q <= s@.len(),
            spec_digits_end(s@, p as int) == spec_digits_end(s@, q as int),
        decreases s@.len() - q,
    {
        q += 1;
    }
    q
}

/// Scans past a name's characters: returns exactly [`spec_name_end`].
fn name_end_exec(s: &Vec<u8>, p: usize) -> (q: usize)
    requires
        p <= s@.len(),
    ensures
        q as int == spec_name_end(s@, p as int),
        p <= q <= s@.len(),
{
    let mut q = p;
    loop
        invariant
            p <= q <= s@.len(),
            spec_name_end(s@, p as int) == spec_name_end(s@, q as int),
        decreases s@.len() - q,
    {
        if q >= s.len() {
            return q;
        }
        let b = s[q];
        if b == 0x23 {
            if s.len() - q > 2 && is_hex_digit_exec(s[q + 1]) && is_hex_digit_exec(s[q + 2]) {
                q += 3;
            } else {
                return q;
            }
        } else if is_name_stop_exec(b) {
            return q;
        } else {
            q += 1;
        }
    }
}

/// Scans past operator characters: returns exactly [`spec_op_end`].
fn op_end_exec(s: &Vec<u8>, p: usize) -> (q: usize)
    requires
        p <= s@.len(),
    ensures
        q as int == spec_op_end(s@, p as int),
        p <= q <= s@.len(),
{
    let mut q = p;
    while q < s.len() && is_op_char_exec(s[q])
        invariant
            p <= q <= s@.len(),
            spec_op_end(s@, p as int) == spec_op_end(s@, q as int),
        decreases s@.len() - q,
    {
        q += 1;
    }
    q
}

/// Copies the bytes in `[a, b)`.
fn copy_range(s: &Vec<u8>, a: usize, b: usize) -> (r: Vec<u8>)
    requires
        a <= b <= s@.len(),
    ensures
        r@ == s@.subrange(a as int, b as int),
{
    let mut r: Vec<u8> = Vec::new();
    let mut i = a;
    while i < b
        invariant
            a <= i <= b <= s@.len(),
            r@ == s@.subrange(a as int, i as int),
        decreases b - i,
    {
        r.push(s[i]);
        proof {
            assert(s@.subrange(a as int, i as int + 1) =~= s@.subrange(a as int, i as int).push(
                s@[i as int],
            ));
        }
        i += 1;
    }
    r
}

/// Reads one backslash escape: returns exactly [`spec_escape`].
fn escape_exec(s: &Vec<u8>, p: usize) -> (r: (Vec<u8>, usize))
    requires
        p < s@.len(),
    ensures
        (r.0@, r.1 as int) == spec_escape(s@, p as int),
        p < r.1 <= s@.len(),
{
    let n = s.len();
    let mut out: Vec<u8> = Vec::new();
    if n - p == 1 {
        return (out, p + 1);
    }
    let b = s[p + 1];
    if b == 0x5C || b == 0x28 || b == 0x29 {
        out.push(b);
        proof {
            assert(out@ =~= seq![b]);
        }
        (out, p + 2)
    } else if b == 0x6E {
        out.push(0x0A);
        proof {
            assert(out@ =~= seq![0x0Au8]);
        }
        (out, p + 2)
    } else if b == 0x72 {
        out.push(0x0D);
        proof {
            assert(out@ =~= seq![0x0Du8]);
        }
        (out, p + 2)
    } else if b == 0x74 {
        out.push(0x09);
        proof {
            assert(out@ =~= seq![0x09u8]);
        }
        (out, p + 2)
    } else if b == 0x62 {
        out.push(0x08);
        proof {
            assert(out@ =~= seq![0x08u8]);
        }
        (out, p + 2)
    } else if b == 0x66 {
        out.push(0x0C);
        proof {
            assert(out@ =~= seq![0x0Cu8]);
        }
        (out, p + 2)
    } else if 0x30 <= b && b <= 0x37 {
        let d3 = n - p > 3 && (0x30 <= s[p + 2] && s[p + 2] <= 0x37) && (0x30 <= s[p + 3]
            && s[p + 3] <= 0x37);
        let d2 = n - p > 2 && (0x30 <= s[p + 2] && s[p + 2] <= 0x37);
        if d3 {
            let v: u32 = ((b - 0x30) as u32) * 64 + ((s[p + 2] - 0x30) as u32) * 8 + ((s[p + 3]
                - 0x30) as u32);
            if v <= 255 {
                out.push(v as u8);
                proof {
                    assert(out@ =~= seq![v as u8]);
                }
                (out, p + 4)
            } else {
                (out, p + 1)
            }
        } else if d2 {
            let v: u8 = (b - 0x30) * 8 + (s[p + 2] - 0x30);
            out.push(v);
            proof {
                assert(out@ =~= seq![v]);
            }
            (out, p + 3)
        } else {
            out.push(b - 0x30);
            proof {
                assert(out@ =~= seq![(b - 0x30) as u8]);
            }
            (out, p + 2)
        }
    } else if b == 0x0D {
        if n - p > 2 && s[p + 2] == 0x0A {
            (out, p + 3)
        } else {
            (out, p + 2)
        }
    } else if b == 0x0A {
        (out, p + 2)
    } else {
        (out, p + 1)
    }
}

/// `rest` with `prefix` prepended to the parsed bytes.
spec fn scat(prefix: Seq<u8>, rest: Option<(Seq<u8>, int)>) -> Option<(Seq<u8>, int)> {
    match rest {
        Some((b, q)) => Some((prefix + b, q)),
        None => None,
    }
}

/// Reads a literal string's body: returns exactly [`spec_string_body`].
fn string_body_exec(s: &Vec<u8>, p: usize) -> (r: Option<(Vec<u8>, usize)>)
    requires
        p <= s@.len(),
    ensures
        match r {
            Some((bytes, q)) => spec_string_body(s@, p as int) == Some((bytes@, q as int)) && p
                < q <= s@.len(),
            None => spec_string_body(s@, p as int) is None,
        },
    decreases s@.len() - p,
{
    let mut out: Vec<u8> = Vec::new();
    let mut cur = p;
    proof {
        assert(scat(out@, spec_string_body(s@, p as int)) == spec_string_body(s@, p as int)) by {
            match spec_string_body(s@, p as int) {
                Some((b, q)) => {
                    assert(out@ + b =~= b);
                },
                None => {},
            }
        }
    }
    while cur < s.len()
        invariant
            p <= cur <= s@.len(),
            spec_string_body(s@, p as int) == scat(out@, spec_string_body(s@, cur as int)),
        decreases s@.len() - cur,
    {
        let ghost pre = out@;
        let b = s[cur];
        if b == 0x29 {
            proof {
                assert(pre + Seq::<u8>::empty() =~= pre);
            }
            return Some((out, cur + 1));
        } else if b == 0x28 {
            match string_body_exec(s, cur + 1) {
                Some((inner, q)) => {
                    out.push(0x28);
                    let mut tmp = inner;
                    out.append(&mut tmp);
                    out.push(0x29);
                    proof {
                        match spec_string_body(s@, q as int) {
                            Some((rest, r2)) => {
                                assert(pre + ((seq![0x28u8] + spec_string_body(
                                    s@,
                                    cur as int + 1,
                                ).unwrap().0 + seq![0x29u8]) + rest) =~= out@ + rest);
                            },
                            None => {},
                        }
                    }
                    cur = q;
                },
                None => {
                    return None;
                },
            }
        } else if b == 0x5C {
            let (emitted, q) = escape_exec(s, cur);
            let mut tmp = emitted;
            out.append(&mut tmp);
            proof {
                let e = spec_escape(s@, cur as int);
                match spec_string_body(s@, q as int) {
                    Some((rest, r2)) => {
                        assert(pre + (e.0 + rest) =~= (pre + e.0) + rest);
                    },
                    None => {},
                }
            }
            cur = q;
        } else {
            out.push(b);
            proof {
                match spec_string_body(s@, cur as int + 1) {
                    Some((rest, r2)) => {
                        assert(pre + (seq![b] + rest) =~= pre.push(b) + rest);
                    },
                    None => {},
                }
            }
            cur += 1;
        }
    }
    None
}

/// Reads a hexadecimal string's body: returns exactly [`spec_hex_body`].
fn hex_body_exec(s: &Vec<u8>, p: usize) -> (r: Option<(Vec<u8>, usize)>)
    requires
        p <= s@.len(),
    ensures
        match r {
            Some((bytes, q)) => spec_hex_body(s@, p as int) == Some((bytes@, q as int)) && p < q
                <= s@.len(),
            None => spec_hex_body(s@, p as int) is None,
        },
{
    let mut out: Vec<u8> = Vec::new();
    let mut cur = p;
    proof {
        assert(scat(out@, spec_hex_body(s@, p as int)) == spec_hex_body(s@, p as int)) by {
            match spec_hex_body(s@, p as int) {
                Some((b, q)) => {
                    assert(out@ + b =~= b);
                },
                None => {},
            }
        }
    }
    while cur < s.len()
        invariant
            p <= cur <= s@.len(),
            spec_hex_body(s@, p as int) == scat(out@, spec_hex_body(s@, cur as int)),
        decreases s@.len() - cur,
    {
        let ghost pre = out@;
        let b = s[cur];
        if is_ws_exec(b) {
            cur += 1;
        } else if b == 0x3E {
            proof {
                assert(pre + Seq::<u8>::empty() =~= pre);
            }
            return Some((out, cur + 1));
        } else if cur + 1 < s.len() && is_hex_digit_exec(b) && is_hex_digit_exec(s[cur + 1]) {
            let v: u8 = hex_val_exec(b) * 16 + hex_val_exec(s[cur + 1]);
            out.push(v);
            proof {
                match spec_hex_body(s@, cur as int + 2) {
                    Some((rest, q)) => {
                        assert(pre + (seq![v] + rest) =~= pre.push(v) + rest);
                    },
                    None => {},
                }
            }
            cur += 2;
        } else {
            return None;
        }
    }
    None
}

} // verus!

verus! {

/// Every byte a digit scan passes over is a digit.
proof fn lemma_digits_end_digits(s: Seq<u8>, p: int)
    requires
        0 <= p <= s.len(),
    ensures
        forall|k: int| p <= k < spec_digits_end(s, p) ==> is_digit(#[trigger] s[k]),
        p <= spec_digits_end(s, p) <= s.len(),
    decreases s.len() - p,
{
    if p < s.len() && is_digit(s[p]) {
        lemma_digits_end_digits(s, p + 1);
    }
}

/// Reads a number token: returns exactly [`spec_number`], the position
/// being the one right after the digits.
fn number_exec(s: &Vec<u8>, p: usize) -> (r: Option<(CmapToken, usize)>)
    requires
        p < s@.len(),
    ensures
        match r {
            Some((t, q)) => spec_number(s@, p as int) == Some((t.deep_view(), q as int)) && p < q
                <= s@.len(),
            None => spec_number(s@, p as int) is None,
        },
{
    let n = s.len();
    let b0 = s[p];
    let neg = b0 == 0x2D;
    let q0 = if b0 == 0x2B || b0 == 0x2D {
        p + 1
    } else {
        p
    };
    let q1 = digits_end_exec(s, q0);
    proof {
        lemma_digits_end_digits(s@, q0 as int);
    }
    if q1 > q0 {
        if q1 < n && s[q1] == 0x2E {
            let q2 = digits_end_exec(s, q1 + 1);
            Some((CmapToken::Other, q2))
        } else {
            let mut acc: u64 = 0;
            let mut big: bool = false;
            let mut j = q0;
            while j < q1
                invariant
                    q0 <= j <= q1 <= s@.len(),
                    q1 as int == spec_digits_end(s@, q0 as int),
                    forall|k: int| q0 <= k < q1 ==> is_digit(#[trigger] s@[k]),
                    big ==> spec_digits_value(s@, q0 as int, j as int) > 0xFFFF_FFFF_FFFF_FFFF,
                    !big ==> acc == spec_digits_value(s@, q0 as int, j as int),
                decreases q1 - j,
            {
                let ghost v = spec_digits_value(s@, q0 as int, j as int);
                let ghost dg = s@[j as int] - 0x30;
                let d = s[j] - 0x30;
                if big {
                    proof {
                        assert(v * 10 + dg > 0xFFFF_FFFF_FFFF_FFFF) by (nonlinear_arith)
                            requires
                                v > 0xFFFF_FFFF_FFFF_FFFF,
                                dg >= 0,
                        ;
                    }
                } else if acc > 1844674407370955161 || (acc == 1844674407370955161 && d > 5) {
                    big = true;
                    proof {
                        assert(v * 10 + dg > 0xFFFF_FFFF_FFFF_FFFF) by (nonlinear_arith)
                            requires
                                v == acc,
                                acc > 1844674407370955161 || (acc == 1844674407370955161 && dg
                                    > 5),
                                dg >= 0,
                        ;
                    }
                } else {
                    proof {
                        assert(acc * 10 + dg <= 0xFFFF_FFFF_FFFF_FFFF) by (nonlinear_arith)
                            requires
                                acc < 1844674407370955161 || (acc == 1844674407370955161 && dg
                                    <= 5),
                                0 <= dg <= 9,
                                acc >= 0,
                        ;
                    }
                    acc = acc * 10 + (d as u64);
                }
                j += 1;
            }
            let ghost v = spec_digits_value(s@, q0 as int, q1 as int);
            if big {
                Some((CmapToken::Other, q1))
            } else if neg {
                if acc <= 0x8000_0000_0000_0000 {
                    let value: i64 = if acc == 0x8000_0000_0000_0000 {
                        (-0x7FFF_FFFF_FFFF_FFFF) - 1
                    } else {
                        -(acc as i64)
                    };
                    Some((CmapToken::Int(value), q1))
                } else {
                    Some((CmapToken::Other, q1))
                }
            } else {
                if acc <= 0x7FFF_FFFF_FFFF_FFFF {
                    Some((CmapToken::Int(acc as i64), q1))
                } else {
                    Some((CmapToken::Other, q1))
                }
            }
        }
    } else if q0 < n && s[q0] == 0x2E {
        let q2 = digits_end_exec(s, q0 + 1);
        if q2 > q0 + 1 {
            Some((CmapToken::Other, q2))
        } else {
            None
        }
    } else {
        None
    }
}

/// Turns a token into an array item, flattening composites.
fn demote_exec(t: CmapToken) -> (r: CmapArrItem)
    ensures
        r.deep_view() == demote_token(t.deep_view()),
{
    match t {
        CmapToken::Int(v) => CmapArrItem::Int(v),
        CmapToken::Str(b) => CmapArrItem::Str(b),
        CmapToken::Op(b) => CmapArrItem::Op(b),
        CmapToken::Arr(_) => CmapArrItem::Other,
        CmapToken::Other => CmapArrItem::Other,
    }
}

/// `rest` with `prefix` prepended to the parsed items.
spec fn acat(prefix: Seq<CmapArrItemView>, rest: Option<(Seq<CmapArrItemView>, int)>) -> Option<
    (Seq<CmapArrItemView>, int),
> {
    match rest {
        Some((items, q)) => Some((prefix + items, q)),
        None => None,
    }
}

/// Reads one value: returns exactly [`spec_value`].
fn value_exec(s: &Vec<u8>, p: usize) -> (r: Option<(CmapToken, usize)>)
    requires
        p <= s@.len(),
    ensures
        match r {
            Some((t, q)) => spec_value(s@, p as int) == Some((t.deep_view(), q as int)) && p < q
                <= s@.len(),
            None => spec_value(s@, p as int) is None,
        },
    decreases s@.len() - p, 0int,
{
    let n = s.len();
    if p >= n {
        return None;
    }
    let b = s[p];
    if is_digit_exec(b) || b == 0x2B || b == 0x2D || b == 0x2E {
        match number_exec(s, p) {
            Some((t, q)) => {
                let q2 = skip_ws_exec(s, q);
                Some((t, q2))
            },
            None => None,
        }
    } else if b == 0x2F {
        let q = name_end_exec(s, p + 1);
        let q2 = skip_ws_exec(s, q);
        Some((CmapToken::Other, q2))
    } else if b == 0x28 {
        match string_body_exec(s, p + 1) {
            Some((bytes, q)) => {
                let q2 = skip_ws_exec(s, q);
                Some((CmapToken::Str(bytes), q2))
            },
            None => None,
        }
    } else if b == 0x3C {
        if p + 1 < n && s[p + 1] == 0x3C {
            match dict_loop_exec(s, p + 2) {
                Some(q) => {
                    let q2 = skip_ws_exec(s, q);
                    Some((CmapToken::Other, q2))
                },
                None => None,
            }
        } else {
            match hex_body_exec(s, p + 1) {
                Some((bytes, q)) => {
                    let q2 = skip_ws_exec(s, q);
                    Some((CmapToken::Str(bytes), q2))
                },
                None => None,
            }
        }
    } else if b == 0x5B {
        match array_loop_exec(s, p + 1) {
            Some((items, q)) => {
                let q2 = skip_ws_exec(s, q);
                Some((CmapToken::Arr(items), q2))
            },
            None => None,
        }
    } else if is_op_char_exec(b) {
        let q = op_end_exec(s, p + 1);
        let bytes = copy_range(s, p, q);
        let q2 = skip_ws_exec(s, q);
        Some((CmapToken::Op(bytes), q2))
    } else {
        None
    }
}

/// Reads an array's items up to its `]`: returns exactly
/// [`spec_array_loop`].
fn array_loop_exec(s: &Vec<u8>, p: usize) -> (r: Option<(Vec<CmapArrItem>, usize)>)
    requires
        p <= s@.len(),
    ensures
        match r {
            Some((items, q)) => spec_array_loop(s@, p as int) == Some(
                (items.deep_view(), q as int),
            ) && p < q <= s@.len(),
            None => spec_array_loop(s@, p as int) is None,
        },
    decreases s@.len() - p, 1int,
{
    let mut items: Vec<CmapArrItem> = Vec::new();
    let mut cur = p;
    proof {
        assert(acat(items.deep_view(), spec_array_loop(s@, p as int)) == spec_array_loop(
            s@,
            p as int,
        )) by {
            match spec_array_loop(s@, p as int) {
                Some((rest, q)) => {
                    assert(items.deep_view() + rest =~= rest);
                },
                None => {},
            }
        }
    }
    while cur < s.len()
        invariant
            p <= cur <= s@.len(),
            spec_array_loop(s@, p as int) == acat(
                items.deep_view(),
                spec_array_loop(s@, cur as int),
            ),
        decreases s@.len() - cur,
    {
        let ghost pre = items.deep_view();
        let b = s[cur];
        if is_ws_exec(b) {
            cur += 1;
        } else if b == 0x5D {
            proof {
                assert(pre + Seq::<CmapArrItemView>::empty() =~= pre);
            }
            return Some((items, cur + 1));
        } else {
            match value_exec(s, cur) {
                Some((t, q)) => {
                    let ghost tv = t.deep_view();
                    let item = demote_exec(t);
                    items.push(item);
                    proof {
                        assert(items.deep_view() =~= pre.push(demote_token(tv)));
                        match spec_array_loop(s@, q as int) {
                            Some((rest, r2)) => {
                                assert(pre + (seq![demote_token(tv)] + rest) =~= pre.push(
                                    demote_token(tv),
                                ) + rest);
                            },
                            None => {},
                        }
                    }
                    cur = q;
                },
                None => {
                    return None;
                },
            }
        }
    }
    None
}

/// Consumes a dictionary up to its `>>`: returns exactly
/// [`spec_dict_loop`].
fn dict_loop_exec(s: &Vec<u8>, p: usize) -> (r: Option<usize>)
    requires
        p <= s@.len(),
    ensures
        match r {
            Some(q) => spec_dict_loop(s@, p as int) == Some(q as int) && p < q <= s@.len(),
            None => spec_dict_loop(s@, p as int) is None,
        },
    decreases s@.len() - p, 1int,
{
    let mut cur = p;
    while cur < s.len()
        invariant
            p <= cur <= s@.len(),
            spec_dict_loop(s@, p as int) == spec_dict_loop(s@, cur as int),
        decreases s@.len() - cur,
    {
        let b = s[cur];
        if is_ws_exec(b) {
            cur += 1;
        } else if b == 0x3E {
            if cur + 1 < s.len() && s[cur + 1] == 0x3E {
                return Some(cur + 2);
            } else {
                return None;
            }
        } else {
            match value_exec(s, cur) {
                Some((t, q)) => {
                    cur = q;
                },
                None => {
                    return None;
                },
            }
        }
    }
    None
}

/// Lexes a whole character-map program: returns exactly [`spec_tokens`],
/// with `None` when not even one token can be lexed.
pub fn lex_cmap(s: &Vec<u8>) -> (r: Option<Vec<CmapToken>>)
    ensures
        match r {
            Some(toks) => spec_tokens(s@) == Some(toks.deep_view()),
            None => spec_tokens(s@) is None,
        },
{
    let mut out: Vec<CmapToken> = Vec::new();
    let mut cur: usize = 0;
    proof {
        assert(out.deep_view() + spec_tokens_from(s@, 0) =~= spec_tokens_from(s@, 0));
    }
    while cur < s.len()
        invariant
            cur <= s@.len(),
            spec_tokens_from(s@, 0) == out.deep_view() + spec_tokens_from(s@, cur as int),
        decreases s@.len() - cur,
    {
        let ghost pre = out.deep_view();
        let b = s[cur];
        if is_ws_exec(b) {
            cur += 1;
        } else if b == 0x25 {
            match comment_end_exec(s, cur + 1) {
                Some(q) => {
                    cur = q;
                },
                None => {
                    proof {
                        assert(pre + Seq::<CmapTokenView>::empty() =~= pre);
                    }
                    if out.len() == 0 {
                        return None;
                    } else {
                        return Some(out);
                    }
                },
            }
        } else {
            match value_exec(s, cur) {
                Some((t, q)) => {
                    let ghost tv = t.deep_view();
                    out.push(t);
                    proof {
                        assert(out.deep_view() =~= pre.push(tv));
                        assert(pre + (seq![tv] + spec_tokens_from(s@, q as int)) =~= pre.push(tv)
                            + spec_tokens_from(s@, q as int));
                    }
                    cur = q;
                },
                None => {
                    proof {
                        assert(pre + Seq::<CmapTokenView>::empty() =~= pre);
                    }
                    if out.len() == 0 {
                        return None;
                    } else {
                        return Some(out);
                    }
                },
            }
        }
    }
    proof {
        assert(out.deep_view() + spec_tokens_from(s@, s@.len() as int) =~= out.deep_view());
    }
    if out.len() == 0 {
        None
    } else {
        Some(out)
    }
}

} // verus!
