//! A small JSON reader for the LFS wire format, written directly on bytes.
//!
//! Rather than building a document tree, the functions here walk the input:
//! strings and numbers are decoded in place, unknown values are skipped, and
//! an object is read as a list of `(key, value position)` pairs. Numbers with
//! a fraction or exponent are carried inexactly and never read back as
//! integers; the protocol only ever reads small integer codes. When one key
//! occurs twice in an object, the first occurrence wins.

use vstd::prelude::*;
use crate::bytes::{spec_dec_value, spec_is_digit, sub_bytes};

verus! {

/// JSON insignificant whitespace.
pub open spec fn spec_is_ws(b: u8) -> bool {
    b == 0x20 || b == 0x09 || b == 0x0a || b == 0x0d
}

/// The first position at or after `i` holding a non-whitespace byte (or the
/// end of input; positions past the end stay put).
pub open spec fn spec_skip_ws(s: Seq<u8>, i: int) -> int
    decreases s.len() - i,
{
    if 0 <= i < s.len() && spec_is_ws(s[i]) {
        spec_skip_ws(s, i + 1)
    } else {
        i
    }
}

/// Skipping whitespace never moves backwards nor past the end.
pub proof fn lemma_skip_ws_bounds(s: Seq<u8>, i: int)
    ensures
        i <= spec_skip_ws(s, i),
        i <= s.len() ==> spec_skip_ws(s, i) <= s.len(),
    decreases s.len() - i,
{
    if 0 <= i < s.len() && spec_is_ws(s[i]) {
        lemma_skip_ws_bounds(s, i + 1);
    }
}

/// `lemma_skip_ws_bounds` at every position at once.
pub proof fn lemma_skip_ws_le(s: Seq<u8>)
    ensures
        forall|x: int|
            x <= #[trigger] spec_skip_ws(s, x) && (x <= s.len() ==> spec_skip_ws(s, x) <= s.len()),
{
    assert forall|x: int|
        x <= #[trigger] spec_skip_ws(s, x) && (x <= s.len() ==> spec_skip_ws(s, x)
            <= s.len()) by {
        lemma_skip_ws_bounds(s, x);
    }
}

/// Advances over whitespace.
pub fn skip_ws(s: &Vec<u8>, i: usize) -> (r: usize)
    requires
        i <= s@.len(),
    ensures
        r == spec_skip_ws(s@, i as int),
        i <= r <= s@.len(),
{
    let mut j = i;
    while j < s.len() && (s[j] == 0x20 || s[j] == 0x09 || s[j] == 0x0a || s[j] == 0x0d)
        invariant
            i <= j <= s@.len(),
            spec_skip_ws(s@, i as int) == spec_skip_ws(s@, j as int),
        decreases s@.len() - j,
    {
        j = j + 1;
    }
    proof {
        lemma_skip_ws_bounds(s@, j as int);
    }
    j
}

/// The value of a hexadecimal digit, or -1.
pub open spec fn spec_hex_val(b: u8) -> int {
    if 0x30 <= b <= 0x39 {
        b - 0x30
    } else if 0x61 <= b <= 0x66 {
        b - 0x61 + 10
    } else if 0x41 <= b <= 0x46 {
        b - 0x41 + 10
    } else {
        -1
    }
}

/// The value of the four hexadecimal digits at `i`, or -1.
pub open spec fn spec_hex4(s: Seq<u8>, i: int) -> int {
    if 0 <= i && i + 4 <= s.len() && spec_hex_val(s[i]) >= 0 && spec_hex_val(s[i + 1]) >= 0
        && spec_hex_val(s[i + 2]) >= 0 && spec_hex_val(s[i + 3]) >= 0 {
        spec_hex_val(s[i]) * 0x1000 + spec_hex_val(s[i + 1]) * 0x100 + spec_hex_val(s[i + 2]) * 16
            + spec_hex_val(s[i + 3])
    } else {
        -1
    }
}

/// The value of a single hexadecimal digit byte, or -1.
fn hex_val(b: u8) -> (r: i32)
    ensures
        r as int == spec_hex_val(b),
{
    if 0x30 <= b && b <= 0x39 {
        (b - 0x30) as i32
    } else if 0x61 <= b && b <= 0x66 {
        (b - 0x61) as i32 + 10
    } else if 0x41 <= b && b <= 0x46 {
        (b - 0x41) as i32 + 10
    } else {
        -1
    }
}

/// Reads the four hexadecimal digits at `i`, or -1.
fn hex4(s: &Vec<u8>, i: usize) -> (r: i32)
    ensures
        r as int == spec_hex4(s@, i as int),
        -1 <= r < 0x10000,
{
    if i > s.len() || s.len() - i < 4 {
        return -1;
    }
    let a = hex_val(s[i]);
    let b = hex_val(s[i + 1]);
    let c = hex_val(s[i + 2]);
    let d = hex_val(s[i + 3]);
    if a < 0 || b < 0 || c < 0 || d < 0 {
        return -1;
    }
    a * 0x1000 + b * 0x100 + c * 16 + d
}

/// The UTF-8 encoding of the scalar value `cp`.
pub open spec fn spec_utf8_enc(cp: int) -> Seq<u8> {
    if cp < 0x80 {
        seq![cp as u8]
    } else if cp < 0x800 {
        seq![(0xc0 + cp / 0x40) as u8, (0x80 + cp % 0x40) as u8]
    } else if cp < 0x10000 {
        seq![
            (0xe0 + cp / 0x1000) as u8,
            (0x80 + (cp / 0x40) % 0x40) as u8,
            (0x80 + cp % 0x40) as u8,
        ]
    } else {
        seq![
            (0xf0 + cp / 0x40000) as u8,
            (0x80 + (cp / 0x1000) % 0x40) as u8,
            (0x80 + (cp / 0x40) % 0x40) as u8,
            (0x80 + cp % 0x40) as u8,
        ]
    }
}

/// Encodes a scalar value as UTF-8.
fn utf8_enc(cp: u32) -> (r: Vec<u8>)
    requires
        cp < 0x110000,
    ensures
        r@ == spec_utf8_enc(cp as int),
{
    let mut r: Vec<u8> = Vec::new();
    if cp < 0x80 {
        r.push(cp as u8);
        assert(r@ =~= spec_utf8_enc(cp as int));
    } else if cp < 0x800 {
        r.push((0xc0 + cp / 0x40) as u8);
        r.push((0x80 + cp % 0x40) as u8);
        assert(r@ =~= spec_utf8_enc(cp as int));
    } else if cp < 0x10000 {
        r.push((0xe0 + cp / 0x1000) as u8);
        r.push((0x80 + (cp / 0x40) % 0x40) as u8);
        r.push((0x80 + cp % 0x40) as u8);
        assert(r@ =~= spec_utf8_enc(cp as int));
    } else {
        r.push((0xf0 + cp / 0x40000) as u8);
        r.push((0x80 + (cp / 0x1000) % 0x40) as u8);
        r.push((0x80 + (cp / 0x40) % 0x40) as u8);
        r.push((0x80 + cp % 0x40) as u8);
        assert(r@ =~= spec_utf8_enc(cp as int));
    }
    r
}

/// Decodes the rest of a JSON string, starting inside the quotes at `i`;
/// yields the decoded bytes and the position just after the closing quote.
pub open spec fn spec_string_body(s: Seq<u8>, i: int) -> Option<(Seq<u8>, int)>
    decreases s.len() - i,
    via spec_string_body_decreases
{
    if i < 0 || i >= s.len() {
        None
    } else if s[i] == '"' as u8 {
        Some((Seq::empty(), i + 1))
    } else if s[i] == '\\' as u8 {
        if i + 1 >= s.len() {
            None
        } else {
            let e = s[i + 1];
            if e == 'u' as u8 {
                let h = spec_hex4(s, i + 2);
                if h < 0 {
                    None
                } else if 0xd800 <= h < 0xdc00 {
                    if i + 8 <= s.len() && s[i + 6] == '\\' as u8 && s[i + 7] == 'u' as u8 {
                        let l = spec_hex4(s, i + 8);
                        if 0xdc00 <= l < 0xe000 {
                            let cp = 0x10000 + (h - 0xd800) * 0x400 + (l - 0xdc00);
                            match spec_string_body(s, i + 12) {
                                Some((rest, j)) => Some((spec_utf8_enc(cp) + rest, j)),
                                None => None,
                            }
                        } else {
                            None
                        }
                    } else {
                        None
                    }
                } else if 0xdc00 <= h < 0xe000 {
                    None
                } else {
                    match spec_string_body(s, i + 6) {
                        Some((rest, j)) => Some((spec_utf8_enc(h) + rest, j)),
                        None => None,
                    }
                }
            } else {
                let b = spec_escape_byte(e);
                if b < 0 {
                    None
                } else {
                    match spec_string_body(s, i + 2) {
                        Some((rest, j)) => Some((seq![b as u8] + rest, j)),
                        None => None,
                    }
                }
            }
        }
    } else if s[i] < 0x20 {
        None
    } else {
        match spec_string_body(s, i + 1) {
            Some((rest, j)) => Some((seq![s[i]] + rest, j)),
            None => None,
        }
    }
}

#[via_fn]
proof fn spec_string_body_decreases(s: Seq<u8>, i: int) {
}

/// The byte for a single-character escape, or -1.
pub open spec fn spec_escape_byte(e: u8) -> int {
    if e == '"' as u8 {
        0x22
    } else if e == '\\' as u8 {
        0x5c
    } else if e == '/' as u8 {
        0x2f
    } else if e == 'b' as u8 {
        0x08
    } else if e == 'f' as u8 {
        0x0c
    } else if e == 'n' as u8 {
        0x0a
    } else if e == 'r' as u8 {
        0x0d
    } else if e == 't' as u8 {
        0x09
    } else {
        -1
    }
}

/// A JSON string starting with its opening quote at `i`: the decoded bytes
/// and the position after the closing quote.
pub open spec fn spec_parse_string(s: Seq<u8>, i: int) -> Option<(Seq<u8>, int)> {
    if 0 <= i < s.len() && s[i] == '"' as u8 {
        spec_string_body(s, i + 1)
    } else {
        None
    }
}

/// A decoded string body ends after at least its closing quote, within the
/// input.
pub proof fn lemma_string_body_bounds(s: Seq<u8>, i: int)
    ensures
        spec_string_body(s, i) matches Some((v, j)) ==> i + 1 <= j <= s.len(),
    decreases s.len() - i,
{
    if 0 <= i < s.len() {
        if s[i] == '"' as u8 {
        } else if s[i] == '\\' as u8 {
            if i + 1 < s.len() {
                let e = s[i + 1];
                if e == 'u' as u8 {
                    let h = spec_hex4(s, i + 2);
                    if h >= 0 {
                        if 0xd800 <= h < 0xdc00 {
                            if i + 8 <= s.len() && s[i + 6] == '\\' as u8 && s[i + 7] == 'u' as u8 {
                                let l = spec_hex4(s, i + 8);
                                if 0xdc00 <= l < 0xe000 {
                                    lemma_string_body_bounds(s, i + 12);
                                }
                            }
                        } else if !(0xdc00 <= h < 0xe000) {
                            lemma_string_body_bounds(s, i + 6);
                        }
                    }
                } else if spec_escape_byte(e) >= 0 {
                    lemma_string_body_bounds(s, i + 2);
                }
            }
        } else if s[i] >= 0x20 {
            lemma_string_body_bounds(s, i + 1);
        }
    }
}

/// A parsed string spans at least its two quotes, within the input.
pub proof fn lemma_parse_string_bounds(s: Seq<u8>, i: int)
    ensures
        spec_parse_string(s, i) matches Some((v, j)) ==> i + 2 <= j <= s.len(),
{
    lemma_string_body_bounds(s, i + 1);
}

/// Decodes a string body as `spec_string_body` describes.
fn string_body(s: &Vec<u8>, i: usize) -> (r: Option<(Vec<u8>, usize)>)
    ensures
        match r {
            Some((v, j)) => spec_string_body(s@, i as int) == Some((v@, j as int)) && i < j
                <= s@.len(),
            None => spec_string_body(s@, i as int) is None,
        },
    decreases s@.len() - i,
{
    proof {
        lemma_string_body_bounds(s@, i as int);
    }
    if i >= s.len() {
        return None;
    }
    let b0 = s[i];
    if b0 == '"' as u8 {
        return Some((Vec::new(), i + 1));
    }
    if b0 == '\\' as u8 {
        if i + 1 >= s.len() {
            return None;
        }
        let e = s[i + 1];
        if e == 'u' as u8 {
            let h = hex4(s, i + 2);
            if h < 0 {
                return None;
            }
            assert(i + 6 <= s@.len());
            if 0xd800 <= h && h < 0xdc00 {
                if s.len() - i >= 8 && s[i + 6] == '\\' as u8 && s[i + 7] == 'u' as u8 {
                    let l = hex4(s, i + 8);
                    if 0xdc00 <= l && l < 0xe000 {
                        assert(i + 12 <= s@.len());
                        let cp: u32 = 0x10000 + (h as u32 - 0xd800) * 0x400 + (l as u32 - 0xdc00);
                        match string_body(s, i + 12) {
                            Some((rest, j)) => {
                                let enc = utf8_enc(cp);
                                let out = crate::bytes::concat_bytes(&enc, &rest);
                                Some((out, j))
                            },
                            None => None,
                        }
                    } else {
                        None
                    }
                } else {
                    None
                }
            } else if 0xdc00 <= h && h < 0xe000 {
                None
            } else {
                match string_body(s, i + 6) {
                    Some((rest, j)) => {
                        let enc = utf8_enc(h as u32);
                        let out = crate::bytes::concat_bytes(&enc, &rest);
                        Some((out, j))
                    },
                    None => None,
                }
            }
        } else {
            let eb: i32 = if e == '"' as u8 {
                0x22
            } else if e == '\\' as u8 {
                0x5c
            } else if e == '/' as u8 {
                0x2f
            } else if e == 'b' as u8 {
                0x08
            } else if e == 'f' as u8 {
                0x0c
            } else if e == 'n' as u8 {
                0x0a
            } else if e == 'r' as u8 {
                0x0d
            } else if e == 't' as u8 {
                0x09
            } else {
                -1
            };
            assert(eb as int == spec_escape_byte(e));
            if eb < 0 {
                return None;
            }
            match string_body(s, i + 2) {
                Some((rest, j)) => {
                    let mut out: Vec<u8> = Vec::new();
                    out.push(eb as u8);
                    let out2 = crate::bytes::concat_bytes(&out, &rest);
                    assert(out2@ =~= seq![spec_escape_byte(e) as u8] + rest@);
                    Some((out2, j))
                },
                None => None,
            }
        }
    } else if b0 < 0x20 {
        None
    } else {
        match string_body(s, i + 1) {
            Some((rest, j)) => {
                let mut out: Vec<u8> = Vec::new();
                out.push(b0);
                let out2 = crate::bytes::concat_bytes(&out, &rest);
                assert(out2@ =~= seq![s@[i as int]] + rest@);
                Some((out2, j))
            },
            None => None,
        }
    }
}

/// End of the run of decimal digits starting at `i`.
pub open spec fn spec_digits_end(s: Seq<u8>, i: int) -> int
    decreases s.len() - i,
{
    if 0 <= i < s.len() && spec_is_digit(s[i]) {
        spec_digits_end(s, i + 1)
    } else {
        i
    }
}

/// A digit run stays within the input and holds only digits.
pub proof fn lemma_digits_end_bounds(s: Seq<u8>, i: int)
    requires
        0 <= i <= s.len(),
    ensures
        i <= spec_digits_end(s, i) <= s.len(),
        forall|j: int| i <= j < spec_digits_end(s, i) ==> spec_is_digit(#[trigger] s[j]),
    decreases s.len() - i,
{
    if i < s.len() && spec_is_digit(s[i]) {
        lemma_digits_end_bounds(s, i + 1);
    }
}

/// Advances over decimal digits.
fn digits_end(s: &Vec<u8>, i: usize) -> (r: usize)
    requires
        i <= s@.len(),
    ensures
        r == spec_digits_end(s@, i as int),
        i <= r <= s@.len(),
{
    let mut j = i;
    while j < s.len() && 0x30 <= s[j] && s[j] <= 0x39
        invariant
            i <= j <= s@.len(),
            spec_digits_end(s@, i as int) == spec_digits_end(s@, j as int),
        decreases s@.len() - j,
    {
        j = j + 1;
    }
    proof {
        lemma_digits_end_bounds(s@, j as int);
    }
    j
}

/// A JSON number as this reader carries it: a sign and, when the number is a
/// plain integer that fits 64 bits, its magnitude. A number with a fraction,
/// an exponent, or an overflowing magnitude is kept only as `exact == false`.
#[derive(PartialEq, Eq, Structural, Clone, Copy, Debug)]
pub struct JsonNum {
    pub neg: bool,
    pub mag: u64,
    pub exact: bool,
}

/// A JSON number starting at `i`: its value and the position after it.
pub open spec fn spec_parse_number(s: Seq<u8>, i: int) -> Option<(JsonNum, int)> {
    let neg = 0 <= i < s.len() && s[i] == '-' as u8;
    let i1 = if neg {
        i + 1
    } else {
        i
    };
    if !(0 <= i1 < s.len() && spec_is_digit(s[i1])) {
        None
    } else {
        let e1 = spec_digits_end(s, i1);
        let has_frac = e1 < s.len() && s[e1] == '.' as u8;
        if has_frac && !(e1 + 1 < s.len() && spec_is_digit(s[e1 + 1])) {
            None
        } else {
            let e2 = if has_frac {
                spec_digits_end(s, e1 + 1)
            } else {
                e1
            };
            let has_exp = e2 < s.len() && (s[e2] == 'e' as u8 || s[e2] == 'E' as u8);
            if has_exp {
                let e3 = if e2 + 1 < s.len() && (s[e2 + 1] == '+' as u8 || s[e2 + 1]
                    == '-' as u8) {
                    e2 + 2
                } else {
                    e2 + 1
                };
                if !(e3 < s.len() && spec_is_digit(s[e3])) {
                    None
                } else {
                    Some((JsonNum { neg, mag: 0, exact: false }, spec_digits_end(s, e3)))
                }
            } else if has_frac {
                Some((JsonNum { neg, mag: 0, exact: false }, e2))
            } else {
                let v = spec_dec_value(s.subrange(i1, e1));
                if v <= u64::MAX {
                    Some((JsonNum { neg, mag: v as u64, exact: true }, e1))
                } else {
                    Some((JsonNum { neg, mag: 0, exact: false }, e1))
                }
            }
        }
    }
}

/// Parses a number at `i`.
pub fn parse_number(s: &Vec<u8>, i: usize) -> (r: Option<(JsonNum, usize)>)
    ensures
        match r {
            Some((n, j)) => spec_parse_number(s@, i as int) == Some((n, j as int)) && i < j
                <= s@.len(),
            None => spec_parse_number(s@, i as int) is None,
        },
{
    let neg = i < s.len() && s[i] == '-' as u8;
    let i1 = if neg {
        i + 1
    } else {
        i
    };
    if !(i1 < s.len() && 0x30 <= s[i1] && s[i1] <= 0x39) {
        return None;
    }
    let e1 = digits_end(s, i1);
    proof {
        lemma_digits_end_bounds(s@, i1 as int);
        assert(spec_digits_end(s@, i1 as int) > i1) by {
            assert(spec_is_digit(s@[i1 as int]));
            lemma_digits_end_bounds(s@, i1 + 1);
        }
    }
    let has_frac = e1 < s.len() && s[e1] == '.' as u8;
    if has_frac && !(e1 + 1 < s.len() && 0x30 <= s[e1 + 1] && s[e1 + 1] <= 0x39) {
        return None;
    }
    let e2 = if has_frac {
        digits_end(s, e1 + 1)
    } else {
        e1
    };
    let has_exp = e2 < s.len() && (s[e2] == 'e' as u8 || s[e2] == 'E' as u8);
    if has_exp {
        let e3 = if e2 + 1 < s.len() && (s[e2 + 1] == '+' as u8 || s[e2 + 1] == '-' as u8) {
            e2 + 2
        } else {
            e2 + 1
        };
        if !(e3 < s.len() && 0x30 <= s[e3] && s[e3] <= 0x39) {
            return None;
        }
        let e4 = digits_end(s, e3);
        Some((JsonNum { neg, mag: 0, exact: false }, e4))
    } else if has_frac {
        Some((JsonNum { neg, mag: 0, exact: false }, e2))
    } else {
        match crate::bytes::parse_dec_u64(s, i1, e1) {
            Some(v) => Some((JsonNum { neg, mag: v, exact: true }, e1)),
            None => {
                assert(crate::bytes::spec_all_digits(s@.subrange(i1 as int, e1 as int)));
                Some((JsonNum { neg, mag: 0, exact: false }, e1))
            },
        }
    }
}

/// `true`
pub open spec fn spec_true_lit() -> Seq<u8> {
    seq!['t' as u8, 'r' as u8, 'u' as u8, 'e' as u8]
}

/// `false`
pub open spec fn spec_false_lit() -> Seq<u8> {
    seq!['f' as u8, 'a' as u8, 'l' as u8, 's' as u8, 'e' as u8]
}

/// `null`
pub open spec fn spec_null_lit() -> Seq<u8> {
    seq!['n' as u8, 'u' as u8, 'l' as u8, 'l' as u8]
}

/// Skips one JSON value starting at `i`; the position after it.
///
/// The in-range tests on returned positions always pass; they keep the
/// definition visibly well-founded.
pub open spec fn spec_skip_value(s: Seq<u8>, i: int) -> Option<int>
    decreases s.len() - i, 0int,
    via spec_skip_value_decreases
{
    if !(0 <= i < s.len()) {
        None
    } else if s[i] == '"' as u8 {
        match spec_parse_string(s, i) {
            Some((v, j)) => Some(j),
            None => None,
        }
    } else if s[i] == '{' as u8 {
        let i0 = spec_skip_ws(s, i + 1);
        if i0 < s.len() && s[i0] == '}' as u8 {
            Some(i0 + 1)
        } else {
            match spec_member_seq(s, i0) {
                Some((m, e)) => Some(e),
                None => None,
            }
        }
    } else if s[i] == '[' as u8 {
        let i0 = spec_skip_ws(s, i + 1);
        if i0 < s.len() && s[i0] == ']' as u8 {
            Some(i0 + 1)
        } else {
            match spec_elem_seq(s, i0) {
                Some((ps, e)) => Some(e),
                None => None,
            }
        }
    } else if s[i] == 't' as u8 {
        if i + 4 <= s.len() && s.subrange(i, i + 4) == spec_true_lit() {
            Some(i + 4)
        } else {
            None
        }
    } else if s[i] == 'n' as u8 {
        if i + 4 <= s.len() && s.subrange(i, i + 4) == spec_null_lit() {
            Some(i + 4)
        } else {
            None
        }
    } else if s[i] == 'f' as u8 {
        if i + 5 <= s.len() && s.subrange(i, i + 5) == spec_false_lit() {
            Some(i + 5)
        } else {
            None
        }
    } else {
        match spec_parse_number(s, i) {
            Some((n, j)) => Some(j),
            None => None,
        }
    }
}

#[via_fn]
proof fn spec_skip_value_decreases(s: Seq<u8>, i: int) {
    if 0 <= i < s.len() {
        lemma_skip_ws_bounds(s, i + 1);
    }
}

/// The members of an object, starting at the first key's quote at `i`: each
/// key with the position where its value starts, and the position after the
/// closing brace.
pub open spec fn spec_member_seq(s: Seq<u8>, i: int) -> Option<(Seq<(Seq<u8>, int)>, int)>
    decreases s.len() - i, 1int,
    via spec_member_seq_decreases
{
    match spec_parse_string(s, i) {
        None => None,
        Some((k, j)) => {
            let c = spec_skip_ws(s, j);
            if !(c < s.len() && s[c] == ':' as u8) {
                None
            } else {
                let vs = spec_skip_ws(s, c + 1);
                match spec_skip_value(s, vs) {
                    None => None,
                    Some(ve) => if !(vs < ve <= s.len()) {
                        None
                    } else {
                        let t = spec_skip_ws(s, ve);
                        if t < s.len() && s[t] == ',' as u8 {
                            let n = spec_skip_ws(s, t + 1);
                            match spec_member_seq(s, n) {
                                Some((rest, e)) => Some((seq![(k, vs)] + rest, e)),
                                None => None,
                            }
                        } else if t < s.len() && s[t] == '}' as u8 {
                            Some((seq![(k, vs)], t + 1))
                        } else {
                            None
                        }
                    },
                }
            }
        },
    }
}

#[via_fn]
proof fn spec_member_seq_decreases(s: Seq<u8>, i: int) {
    lemma_parse_string_bounds(s, i);
    lemma_skip_ws_le(s);
}

/// The elements of an array, starting at the first element at `i`: each
/// element's start position, and the position after the closing bracket.
pub open spec fn spec_elem_seq(s: Seq<u8>, i: int) -> Option<(Seq<int>, int)>
    decreases s.len() - i, 1int,
    via spec_elem_seq_decreases
{
    match spec_skip_value(s, i) {
        None => None,
        Some(ve) => if !(i < ve <= s.len()) {
            None
        } else {
            let t = spec_skip_ws(s, ve);
            if t < s.len() && s[t] == ',' as u8 {
                let n = spec_skip_ws(s, t + 1);
                match spec_elem_seq(s, n) {
                    Some((ps, e)) => Some((seq![i] + ps, e)),
                    None => None,
                }
            } else if t < s.len() && s[t] == ']' as u8 {
                Some((seq![i], t + 1))
            } else {
                None
            }
        },
    }
}

#[via_fn]
proof fn spec_elem_seq_decreases(s: Seq<u8>, i: int) {
    lemma_skip_ws_le(s);
}

/// Parses a quoted string at `i`.
pub fn parse_string(s: &Vec<u8>, i: usize) -> (r: Option<(Vec<u8>, usize)>)
    ensures
        match r {
            Some((v, j)) => spec_parse_string(s@, i as int) == Some((v@, j as int)) && i < j
                <= s@.len(),
            None => spec_parse_string(s@, i as int) is None,
        },
{
    if i < s.len() && s[i] == '"' as u8 {
        string_body(s, i + 1)
    } else {
        None
    }
}

/// The ghost view of an exec member list.
pub open spec fn spec_members_view(m: Seq<(Vec<u8>, usize)>) -> Seq<(Seq<u8>, int)> {
    m.map_values(|p: (Vec<u8>, usize)| (p.0@, p.1 as int))
}

/// The bytes of `true`.
fn true_lit() -> (v: Vec<u8>)
    ensures
        v@ == spec_true_lit(),
{
    let mut v: Vec<u8> = Vec::new();
    v.push('t' as u8);
    v.push('r' as u8);
    v.push('u' as u8);
    v.push('e' as u8);
    assert(v@ =~= spec_true_lit());
    v
}

/// The bytes of `false`.
fn false_lit() -> (v: Vec<u8>)
    ensures
        v@ == spec_false_lit(),
{
    let mut v: Vec<u8> = Vec::new();
    v.push('f' as u8);
    v.push('a' as u8);
    v.push('l' as u8);
    v.push('s' as u8);
    v.push('e' as u8);
    assert(v@ =~= spec_false_lit());
    v
}

/// The bytes of `null`.
fn null_lit() -> (v: Vec<u8>)
    ensures
        v@ == spec_null_lit(),
{
    let mut v: Vec<u8> = Vec::new();
    v.push('n' as u8);
    v.push('u' as u8);
    v.push('l' as u8);
    v.push('l' as u8);
    assert(v@ =~= spec_null_lit());
    v
}

/// Skips one value as `spec_skip_value` describes.
pub fn skip_value(s: &Vec<u8>, i: usize) -> (r: Option<usize>)
    ensures
        match r {
            Some(j) => spec_skip_value(s@, i as int) == Some(j as int) && i < j <= s@.len(),
            None => spec_skip_value(s@, i as int) is None,
        },
    decreases s@.len() - i, 0int,
{
    if i >= s.len() {
        return None;
    }
    let b = s[i];
    if b == '"' as u8 {
        match parse_string(s, i) {
            Some((v, j)) => Some(j),
            None => None,
        }
    } else if b == '{' as u8 {
        let i0 = skip_ws(s, i + 1);
        if i0 < s.len() && s[i0] == '}' as u8 {
            Some(i0 + 1)
        } else {
            match member_seq(s, i0) {
                Some((m, e)) => Some(e),
                None => None,
            }
        }
    } else if b == '[' as u8 {
        let i0 = skip_ws(s, i + 1);
        if i0 < s.len() && s[i0] == ']' as u8 {
            Some(i0 + 1)
        } else {
            match elem_seq(s, i0) {
                Some((ps, e)) => Some(e),
                None => None,
            }
        }
    } else if b == 't' as u8 {
        let lit = true_lit();
        if s.len() - i >= 4 && crate::bytes::range_eq(s, i, i + 4, &lit) {
            Some(i + 4)
        } else {
            None
        }
    } else if b == 'n' as u8 {
        let lit = null_lit();
        if s.len() - i >= 4 && crate::bytes::range_eq(s, i, i + 4, &lit) {
            Some(i + 4)
        } else {
            None
        }
    } else if b == 'f' as u8 {
        let lit = false_lit();
        if s.len() - i >= 5 && crate::bytes::range_eq(s, i, i + 5, &lit) {
            Some(i + 5)
        } else {
            None
        }
    } else {
        match parse_number(s, i) {
            Some((n, j)) => Some(j),
            None => None,
        }
    }
}

/// Reads an object's members as `spec_member_seq` describes.
pub fn member_seq(s: &Vec<u8>, i: usize) -> (r: Option<(Vec<(Vec<u8>, usize)>, usize)>)
    ensures
        match r {
            Some((m, e)) => spec_member_seq(s@, i as int) == Some(
                (spec_members_view(m@), e as int),
            ) && i < e <= s@.len(),
            None => spec_member_seq(s@, i as int) is None,
        },
    decreases s@.len() - i, 1int,
{
    let (k, j) = match parse_string(s, i) {
        Some(kj) => kj,
        None => {
            return None;
        },
    };
    let c = skip_ws(s, j);
    if !(c < s.len() && s[c] == ':' as u8) {
        return None;
    }
    let vs = skip_ws(s, c + 1);
    let ve = match skip_value(s, vs) {
        Some(ve) => ve,
        None => {
            return None;
        },
    };
    let t = skip_ws(s, ve);
    if t < s.len() && s[t] == ',' as u8 {
        let n = skip_ws(s, t + 1);
        match member_seq(s, n) {
            Some((rest, e)) => {
                let mut m = rest;
                m.insert(0, (k, vs));
                proof {
                    assert(spec_members_view(m@) =~= seq![(k@, vs as int)] + spec_members_view(
                        m@.subrange(1, m@.len() as int),
                    ));
                    assert(m@.subrange(1, m@.len() as int) =~= m@.remove(0));
                }
                Some((m, e))
            },
            None => None,
        }
    } else if t < s.len() && s[t] == '}' as u8 {
        let mut m: Vec<(Vec<u8>, usize)> = Vec::new();
        m.push((k, vs));
        assert(spec_members_view(m@) =~= seq![(k@, vs as int)]);
        Some((m, t + 1))
    } else {
        None
    }
}

/// Reads an array's element positions as `spec_elem_seq` describes.
pub fn elem_seq(s: &Vec<u8>, i: usize) -> (r: Option<(Vec<usize>, usize)>)
    ensures
        match r {
            Some((ps, e)) => spec_elem_seq(s@, i as int) == Some(
                (ps@.map_values(|x: usize| x as int), e as int),
            ) && i < e <= s@.len(),
            None => spec_elem_seq(s@, i as int) is None,
        },
    decreases s@.len() - i, 1int,
{
    let ve = match skip_value(s, i) {
        Some(ve) => ve,
        None => {
            return None;
        },
    };
    let t = skip_ws(s, ve);
    if t < s.len() && s[t] == ',' as u8 {
        let n = skip_ws(s, t + 1);
        match elem_seq(s, n) {
            Some((rest, e)) => {
                let mut ps = rest;
                ps.insert(0, i);
                assert(ps@.map_values(|x: usize| x as int) =~= seq![i as int] + ps@.subrange(
                    1,
                    ps@.len() as int,
                ).map_values(|x: usize| x as int));
                assert(ps@.subrange(1, ps@.len() as int) =~= ps@.remove(0));
                Some((ps, e))
            },
            None => None,
        }
    } else if t < s.len() && s[t] == ']' as u8 {
        let mut ps: Vec<usize> = Vec::new();
        ps.push(i);
        assert(ps@.map_values(|x: usize| x as int) =~= seq![i as int]);
        Some((ps, t + 1))
    } else {
        None
    }
}

/// An object at `i`: its members and the position after the closing brace.
pub open spec fn spec_object_members(s: Seq<u8>, i: int) -> Option<(Seq<(Seq<u8>, int)>, int)> {
    if 0 <= i < s.len() && s[i] == '{' as u8 {
        let i0 = spec_skip_ws(s, i + 1);
        if i0 < s.len() && s[i0] == '}' as u8 {
            Some((Seq::empty(), i0 + 1))
        } else {
            spec_member_seq(s, i0)
        }
    } else {
        None
    }
}

/// Reads the object at `i`.
pub fn object_members(s: &Vec<u8>, i: usize) -> (r: Option<(Vec<(Vec<u8>, usize)>, usize)>)
    ensures
        match r {
            Some((m, e)) => spec_object_members(s@, i as int) == Some(
                (spec_members_view(m@), e as int),
            ) && i < e <= s@.len(),
            None => spec_object_members(s@, i as int) is None,
        },
{
    if !(i < s.len() && s[i] == '{' as u8) {
        return None;
    }
    let i0 = skip_ws(s, i + 1);
    if i0 < s.len() && s[i0] == '}' as u8 {
        let m: Vec<(Vec<u8>, usize)> = Vec::new();
        assert(spec_members_view(m@) =~= Seq::<(Seq<u8>, int)>::empty());
        Some((m, i0 + 1))
    } else {
        member_seq(s, i0)
    }
}

/// An array at `i`: its element start positions and the position after the
/// closing bracket.
pub open spec fn spec_array_elems(s: Seq<u8>, i: int) -> Option<(Seq<int>, int)> {
    if 0 <= i < s.len() && s[i] == '[' as u8 {
        let i0 = spec_skip_ws(s, i + 1);
        if i0 < s.len() && s[i0] == ']' as u8 {
            Some((Seq::empty(), i0 + 1))
        } else {
            spec_elem_seq(s, i0)
        }
    } else {
        None
    }
}

/// Reads the array at `i`.
pub fn array_elems(s: &Vec<u8>, i: usize) -> (r: Option<(Vec<usize>, usize)>)
    ensures
        match r {
            Some((ps, e)) => spec_array_elems(s@, i as int) == Some(
                (ps@.map_values(|x: usize| x as int), e as int),
            ) && i < e <= s@.len(),
            None => spec_array_elems(s@, i as int) is None,
        },
{
    if !(i < s.len() && s[i] == '[' as u8) {
        return None;
    }
    let i0 = skip_ws(s, i + 1);
    if i0 < s.len() && s[i0] == ']' as u8 {
        let ps: Vec<usize> = Vec::new();
        assert(ps@.map_values(|x: usize| x as int) =~= Seq::<int>::empty());
        Some((ps, i0 + 1))
    } else {
        elem_seq(s, i0)
    }
}

/// The value position of the first member named `key`, looking from `idx`
/// on.
pub open spec fn spec_find_member_from(
    m: Seq<(Seq<u8>, int)>,
    key: Seq<u8>,
    idx: int,
) -> Option<int>
    decreases m.len() - idx,
{
    if idx < 0 || idx >= m.len() {
        None
    } else if m[idx].0 == key {
        Some(m[idx].1)
    } else {
        spec_find_member_from(m, key, idx + 1)
    }
}

/// The value position of the first member named `key`.
pub open spec fn spec_find_member(m: Seq<(Seq<u8>, int)>, key: Seq<u8>) -> Option<int> {
    spec_find_member_from(m, key, 0)
}

/// Finds the first member named `key`.
pub fn find_member(m: &Vec<(Vec<u8>, usize)>, key: &Vec<u8>) -> (r: Option<usize>)
    ensures
        match r {
            Some(p) => spec_find_member(spec_members_view(m@), key@) == Some(p as int),
            None => spec_find_member(spec_members_view(m@), key@) is None,
        },
{
    let ghost mv = spec_members_view(m@);
    let mut idx: usize = 0;
    while idx < m.len()
        invariant
            idx <= m@.len(),
            mv == spec_members_view(m@),
            mv.len() == m@.len(),
            spec_find_member_from(mv, key@, 0) == spec_find_member_from(mv, key@, idx as int),
        decreases m@.len() - idx,
    {
        assert(mv[idx as int] == (m@[idx as int].0@, m@[idx as int].1 as int));
        if crate::bytes::range_eq(&m[idx].0, 0, m[idx].0.len(), key) {
            assert(m@[idx as int].0@.subrange(0, m@[idx as int].0@.len() as int) =~= m@[
                idx as int].0@);
            return Some(m[idx].1);
        }
        assert(m@[idx as int].0@.subrange(0, m@[idx as int].0@.len() as int) =~= m@[idx as int].0@);
        idx = idx + 1;
    }
    None
}

/// A whole document that is one object with nothing but whitespace around
/// it: its members.
pub open spec fn spec_root_members(s: Seq<u8>) -> Option<Seq<(Seq<u8>, int)>> {
    let r0 = spec_skip_ws(s, 0);
    match spec_object_members(s, r0) {
        Some((m, e)) => if 0 <= e <= s.len() && spec_skip_ws(s, e) == s.len() {
            Some(m)
        } else {
            None
        },
        None => None,
    }
}

/// Reads a document that must be a single object.
pub fn root_members(s: &Vec<u8>) -> (r: Option<Vec<(Vec<u8>, usize)>>)
    ensures
        match r {
            Some(m) => spec_root_members(s@) == Some(spec_members_view(m@)),
            None => spec_root_members(s@) is None,
        },
{
    let r0 = skip_ws(s, 0);
    match object_members(s, r0) {
        Some((m, e)) => {
            if skip_ws(s, e) == s.len() {
                Some(m)
            } else {
                None
            }
        },
        None => None,
    }
}

} // verus!
