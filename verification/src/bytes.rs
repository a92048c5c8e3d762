//! Byte-sequence helpers shared by the parsers: searching, comparing,
//! decimal and hexadecimal conversions, and line splitting.

use vstd::prelude::*;

verus! {

use vstd::string::StringSliceAdditionalSpecFns;

/// Index of the first occurrence of `b` in `s` at or after `from`.
pub open spec fn spec_find_byte(s: Seq<u8>, b: u8, from: int) -> Option<int>
    decreases s.len() - from,
{
    if from < 0 || from >= s.len() {
        None
    } else if s[from] == b {
        Some(from)
    } else {
        spec_find_byte(s, b, from + 1)
    }
}

/// `s` begins with `p`.
pub open spec fn spec_starts_with(s: Seq<u8>, p: Seq<u8>) -> bool {
    p.len() <= s.len() && s.subrange(0, p.len() as int) == p
}

/// `s` ends with `p`.
pub open spec fn spec_ends_with(s: Seq<u8>, p: Seq<u8>) -> bool {
    p.len() <= s.len() && s.subrange(s.len() - p.len(), s.len() as int) == p
}

/// The bytes of a string literal, for building values whose contracts are
/// stated over the literal's `spec_bytes`.
pub fn ascii_bytes(s: &str) -> (v: Vec<u8>)
    ensures
        v@ == s.spec_bytes(),
{
    vstd::slice::slice_to_vec(s.as_bytes())
}

/// First occurrence of `b` in `s` at or after `from`.
pub fn find_byte(s: &Vec<u8>, b: u8, from: usize) -> (r: Option<usize>)
    ensures
        match r {
            Some(i) => spec_find_byte(s@, b, from as int) == Some(i as int),
            None => spec_find_byte(s@, b, from as int) is None,
        },
{
    let mut i: usize = from;
    while i < s.len()
        invariant
            from <= i,
            spec_find_byte(s@, b, from as int) == spec_find_byte(s@, b, i as int),
        decreases s@.len() - i,
    {
        if s[i] == b {
            return Some(i);
        }
        i = i + 1;
    }
    None
}

/// Whether `s[s_from .. s_to]` equals all of `p`.
pub fn range_eq(s: &Vec<u8>, s_from: usize, s_to: usize, p: &Vec<u8>) -> (r: bool)
    requires
        s_from <= s_to <= s@.len(),
    ensures
        r == (s@.subrange(s_from as int, s_to as int) == p@),
{
    if s_to - s_from != p.len() {
        assert(s@.subrange(s_from as int, s_to as int).len() != p@.len());
        return false;
    }
    let n = p.len();
    let mut i: usize = 0;
    while i < n
        invariant
            s_from <= s_to <= s@.len(),
            n == p@.len(),
            s_to - s_from == n,
            i <= n,
            forall|j: int| 0 <= j < i ==> s@[s_from + j] == p@[j],
        decreases n - i,
    {
        if s[s_from + i] != p[i] {
            assert(s@.subrange(s_from as int, s_to as int)[i as int] != p@[i as int]);
            return false;
        }
        i = i + 1;
    }
    assert(s@.subrange(s_from as int, s_to as int) =~= p@);
    true
}

/// Whether `s` begins with `p`.
pub fn starts_with(s: &Vec<u8>, p: &Vec<u8>) -> (r: bool)
    ensures
        r == spec_starts_with(s@, p@),
{
    if p.len() > s.len() {
        return false;
    }
    range_eq(s, 0, p.len(), p)
}

/// Whether `s` ends with `p`.
pub fn ends_with(s: &Vec<u8>, p: &Vec<u8>) -> (r: bool)
    ensures
        r == spec_ends_with(s@, p@),
{
    if p.len() > s.len() {
        return false;
    }
    range_eq(s, s.len() - p.len(), s.len(), p)
}

/// `a` followed by `b`.
pub fn concat_bytes(a: &Vec<u8>, b: &Vec<u8>) -> (r: Vec<u8>)
    ensures
        r@ == a@ + b@,
{
    let mut r = a.clone();
    let mut i: usize = 0;
    while i < b.len()
        invariant
            i <= b@.len(),
            r@ == a@ + b@.subrange(0, i as int),
        decreases b@.len() - i,
    {
        r.push(b[i]);
        assert(a@ + b@.subrange(0, i + 1 as int) =~= (a@ + b@.subrange(0, i as int)).push(b@[i as int]));
        i = i + 1;
    }
    assert(b@.subrange(0, b@.len() as int) =~= b@);
    r
}

/// A copy of `s[from .. to]`.
pub fn sub_bytes(s: &Vec<u8>, from: usize, to: usize) -> (r: Vec<u8>)
    requires
        from <= to <= s@.len(),
    ensures
        r@ == s@.subrange(from as int, to as int),
{
    let mut r: Vec<u8> = Vec::new();
    let mut i: usize = from;
    while i < to
        invariant
            from <= i <= to <= s@.len(),
            r@ == s@.subrange(from as int, i as int),
        decreases to - i,
    {
        r.push(s[i]);
        assert(s@.subrange(from as int, i + 1 as int) =~= s@.subrange(from as int, i as int).push(s@[i as int]));
        i = i + 1;
    }
    r
}

/// `b` is an ASCII decimal digit.
pub open spec fn spec_is_digit(b: u8) -> bool {
    0x30 <= b <= 0x39
}

/// Every byte of `s` is a decimal digit, and there is at least one.
pub open spec fn spec_all_digits(s: Seq<u8>) -> bool {
    s.len() > 0 && forall|i: int| 0 <= i < s.len() ==> spec_is_digit(#[trigger] s[i])
}

/// The number written in decimal by `s` (0 for the empty sequence).
pub open spec fn spec_dec_value(s: Seq<u8>) -> nat
    decreases s.len(),
{
    if s.len() == 0 {
        0
    } else {
        spec_dec_value(s.drop_last()) * 10 + (if spec_is_digit(s.last()) {
            (s.last() - 0x30) as nat
        } else {
            0
        })
    }
}

/// Reads `s[from .. to]` as a decimal `u64`.
///
/// `None` when the range is empty, holds a non-digit, or the value does not
/// fit in 64 bits.
pub fn parse_dec_u64(s: &Vec<u8>, from: usize, to: usize) -> (r: Option<u64>)
    requires
        from <= to <= s@.len(),
    ensures
        match r {
            Some(v) => spec_all_digits(s@.subrange(from as int, to as int)) && v
                == spec_dec_value(s@.subrange(from as int, to as int)),
            None => !spec_all_digits(s@.subrange(from as int, to as int)) || spec_dec_value(
                s@.subrange(from as int, to as int),
            ) > u64::MAX,
        },
{
    let ghost whole = s@.subrange(from as int, to as int);
    if from == to {
        return None;
    }
    let mut acc: u64 = 0;
    let mut i: usize = from;
    while i < to
        invariant
            from <= i <= to <= s@.len(),
            whole == s@.subrange(from as int, to as int),
            to > from,
            spec_all_digits(s@.subrange(from as int, i as int)) || i == from,
            acc == spec_dec_value(s@.subrange(from as int, i as int)),
        decreases to - i,
    {
        let b = s[i];
        if b < 0x30 || b > 0x39 {
            assert(whole[i - from] == b);
            return None;
        }
        let d: u64 = (b - 0x30) as u64;
        let ghost pre = s@.subrange(from as int, i as int);
        let ghost cur = s@.subrange(from as int, i + 1 as int);
        assert(cur.drop_last() =~= pre);
        assert(cur.last() == b);
        let acc10 = match acc.checked_mul(10) {
            Some(x) => x,
            None => {
                proof {
                    lemma_dec_overflow_rest(s@, from as int, i as int, to as int);
                }
                return None;
            },
        };
        let next = match acc10.checked_add(d) {
            Some(x) => x,
            None => {
                proof {
                    lemma_dec_overflow_rest(s@, from as int, i as int, to as int);
                }
                return None;
            },
        };
        acc = next;
        i = i + 1;
    }
    assert(whole =~= s@.subrange(from as int, to as int));
    Some(acc)
}

/// Once the prefix up to `i` is already past `u64::MAX / 10`-ish bounds, the
/// whole range's value is past `u64::MAX` too.
proof fn lemma_dec_overflow_rest(s: Seq<u8>, from: int, i: int, to: int)
    requires
        0 <= from <= i < to <= s.len(),
        spec_dec_value(s.subrange(from, i)) * 10 + (s[i] - 0x30) > u64::MAX,
        spec_is_digit(s[i]),
    ensures
        spec_dec_value(s.subrange(from, to)) > u64::MAX,
    decreases to - i,
{
    let cur = s.subrange(from, i + 1);
    assert(cur.drop_last() =~= s.subrange(from, i));
    assert(cur.last() == s[i]);
    assert(spec_dec_value(cur) > u64::MAX);
    lemma_dec_prefix_monotone(s, from, i + 1, to);
}

/// The decimal value of a longer digit range is at least that of its prefix.
proof fn lemma_dec_prefix_monotone(s: Seq<u8>, from: int, i: int, to: int)
    requires
        0 <= from <= i <= to <= s.len(),
    ensures
        spec_dec_value(s.subrange(from, to)) >= spec_dec_value(s.subrange(from, i)),
    decreases to - i,
{
    if i < to {
        let longer = s.subrange(from, to);
        assert(longer.drop_last() =~= s.subrange(from, to - 1));
        lemma_dec_prefix_monotone(s, from, i, to - 1);
    }
}

/// The decimal digits of `n`, most significant first.
pub open spec fn spec_dec_bytes(n: nat) -> Seq<u8>
    decreases n,
{
    if n < 10 {
        seq![(0x30 + n) as u8]
    } else {
        spec_dec_bytes(n / 10).push((0x30 + n % 10) as u8)
    }
}

/// Writes `n` in decimal.
pub fn format_dec_u64(n: u64) -> (r: Vec<u8>)
    ensures
        r@ == spec_dec_bytes(n as nat),
    decreases n,
{
    if n < 10 {
        let mut r: Vec<u8> = Vec::new();
        r.push((0x30 + n) as u8);
        assert(r@ =~= seq![(0x30 + (n as nat)) as u8]);
        r
    } else {
        let mut r = format_dec_u64(n / 10);
        r.push((0x30 + n % 10) as u8);
        r
    }
}

/// `b` is a lowercase hexadecimal digit.
pub open spec fn spec_is_lower_hex_digit(b: u8) -> bool {
    (0x30 <= b <= 0x39) || (0x61 <= b <= 0x66)
}

/// Every byte of `s` is a lowercase hexadecimal digit.
pub open spec fn spec_all_lower_hex(s: Seq<u8>) -> bool {
    forall|i: int| 0 <= i < s.len() ==> spec_is_lower_hex_digit(#[trigger] s[i])
}

/// Whether all of `s[from .. to]` is lowercase hexadecimal.
pub fn all_lower_hex(s: &Vec<u8>, from: usize, to: usize) -> (r: bool)
    requires
        from <= to <= s@.len(),
    ensures
        r == spec_all_lower_hex(s@.subrange(from as int, to as int)),
{
    let ghost whole = s@.subrange(from as int, to as int);
    let mut i: usize = from;
    while i < to
        invariant
            from <= i <= to <= s@.len(),
            whole == s@.subrange(from as int, to as int),
            forall|j: int| 0 <= j < i - from ==> spec_is_lower_hex_digit(#[trigger] whole[j]),
        decreases to - i,
    {
        let b = s[i];
        assert(whole[i - from] == b);
        if !((0x30 <= b && b <= 0x39) || (0x61 <= b && b <= 0x66)) {
            return false;
        }
        i = i + 1;
    }
    true
}

/// The lowercase hexadecimal digit for `n < 16`.
pub open spec fn spec_hex_digit(n: u8) -> u8 {
    if n < 10 {
        (0x30 + n) as u8
    } else {
        (0x61 + (n - 10)) as u8
    }
}

/// Two lowercase hexadecimal digits for each byte of `s`, in order.
pub open spec fn spec_hex_of(s: Seq<u8>) -> Seq<u8>
    decreases s.len(),
{
    if s.len() == 0 {
        Seq::empty()
    } else {
        spec_hex_of(s.drop_last()).push(spec_hex_digit(s.last() / 16)).push(
            spec_hex_digit(s.last() % 16),
        )
    }
}

/// Writes `s` in lowercase hexadecimal, two digits per byte.
pub fn hex_encode(s: &Vec<u8>) -> (r: Vec<u8>)
    ensures
        r@ == spec_hex_of(s@),
        r@.len() == 2 * s@.len(),
{
    let mut r: Vec<u8> = Vec::new();
    let mut i: usize = 0;
    proof {
        lemma_hex_len(s@.subrange(0, 0));
    }
    while i < s.len()
        invariant
            i <= s@.len(),
            r@ == spec_hex_of(s@.subrange(0, i as int)),
        decreases s@.len() - i,
    {
        let b = s[i];
        let hi = b / 16;
        let lo = b % 16;
        let hid: u8 = if hi < 10 {
            0x30 + hi
        } else {
            0x61 + (hi - 10)
        };
        let lod: u8 = if lo < 10 {
            0x30 + lo
        } else {
            0x61 + (lo - 10)
        };
        r.push(hid);
        r.push(lod);
        proof {
            let cur = s@.subrange(0, i + 1 as int);
            assert(cur.drop_last() =~= s@.subrange(0, i as int));
            assert(cur.last() == b);
        }
        i = i + 1;
    }
    proof {
        assert(s@.subrange(0, s@.len() as int) =~= s@);
        lemma_hex_len(s@);
    }
    r
}

/// Hexadecimal writing doubles the length.
pub proof fn lemma_hex_len(s: Seq<u8>)
    ensures
        spec_hex_of(s).len() == 2 * s.len(),
    decreases s.len(),
{
    if s.len() > 0 {
        lemma_hex_len(s.drop_last());
    }
}

/// `p` occurs in `s` starting at `i`.
pub open spec fn spec_occurs_at(s: Seq<u8>, p: Seq<u8>, i: int) -> bool {
    0 <= i && i + p.len() <= s.len() && s.subrange(i, i + p.len()) == p
}

/// `p` occurs somewhere in `s`.
pub open spec fn spec_contains_seq(s: Seq<u8>, p: Seq<u8>) -> bool {
    exists|i: int| spec_occurs_at(s, p, i)
}

/// Whether `p` occurs anywhere in `s`.
pub fn contains_seq(s: &Vec<u8>, p: &Vec<u8>) -> (r: bool)
    ensures
        r == spec_contains_seq(s@, p@),
{
    if p.len() > s.len() {
        assert(forall|i: int| !spec_occurs_at(s@, p@, i));
        return false;
    }
    if p.len() == 0 {
        assert(s@.subrange(0, 0) =~= p@);
        assert(spec_occurs_at(s@, p@, 0));
        return true;
    }
    let last = s.len() - p.len();
    let mut i: usize = 0;
    while i <= last
        invariant
            s@.len() <= usize::MAX,
            0 < p@.len() <= s@.len(),
            last == s@.len() - p@.len(),
            i <= last + 1,
            forall|j: int| 0 <= j < i ==> !spec_occurs_at(s@, p@, j),
        decreases last + 1 - i,
    {
        assert(i + p@.len() <= s@.len());
        let end: usize = i + p.len();
        if range_eq(s, i, end, p) {
            assert(spec_occurs_at(s@, p@, i as int));
            return true;
        }
        i = i + 1;
    }
    assert(forall|j: int| j > last ==> !spec_occurs_at(s@, p@, j));
    false
}

/// The lines of `s`, split on newline bytes; each line loses a trailing
/// carriage return, and a final newline does not open an empty last line.
pub open spec fn spec_lines(s: Seq<u8>) -> Seq<Seq<u8>>
    decreases s.len(),
    via spec_lines_decreases
{
    if s.len() == 0 {
        Seq::empty()
    } else {
        match spec_find_byte(s, 0x0a, 0) {
            Some(k) => seq![spec_strip_cr(s.subrange(0, k))] + spec_lines(
                s.subrange(k + 1, s.len() as int),
            ),
            None => seq![spec_strip_cr(s)],
        }
    }
}

#[via_fn]
proof fn spec_lines_decreases(s: Seq<u8>) {
    if s.len() > 0 {
        lemma_find_byte_in_range(s, 0x0a, 0);
    }
}

/// `s` without a trailing carriage return, if it has one.
pub open spec fn spec_strip_cr(s: Seq<u8>) -> Seq<u8> {
    if s.len() > 0 && s.last() == 0x0d {
        s.drop_last()
    } else {
        s
    }
}

/// A found byte is in range and is the byte searched for.
pub proof fn lemma_find_byte_in_range(s: Seq<u8>, b: u8, from: int)
    requires
        0 <= from,
    ensures
        match spec_find_byte(s, b, from) {
            Some(k) => from <= k < s.len() && s[k] == b,
            None => true,
        },
    decreases s.len() - from,
{
    if from < s.len() && s[from] != b {
        lemma_find_byte_in_range(s, b, from + 1);
    }
}

/// Splits `s` into lines as `spec_lines` describes.
pub fn split_lines(s: &Vec<u8>) -> (r: Vec<Vec<u8>>)
    ensures
        r@.len() == spec_lines(s@).len(),
        forall|i: int| 0 <= i < r@.len() ==> r@[i]@ == spec_lines(s@)[i],
{
    let mut r: Vec<Vec<u8>> = Vec::new();
    let mut pos: usize = 0;
    proof {
        assert(r@.map_values(|v: Vec<u8>| v@) =~= Seq::<Seq<u8>>::empty());
        assert(s@.subrange(0, s@.len() as int) =~= s@);
    }
    while pos < s.len()
        invariant
            pos <= s@.len(),
            spec_lines(s@) == r@.map_values(|v: Vec<u8>| v@) + spec_lines(
                s@.subrange(pos as int, s@.len() as int),
            ),
        decreases s@.len() - pos,
    {
        let ghost rest = s@.subrange(pos as int, s@.len() as int);
        let line_end: usize;
        let next_pos: usize;
        match find_byte(s, 0x0a, pos) {
            Some(k) => {
                proof {
                    lemma_find_byte_in_range(s@, 0x0a, pos as int);
                    lemma_find_byte_shift(s@, 0x0a, pos as int);
                }
                line_end = k;
                next_pos = k + 1;
            },
            None => {
                proof {
                    lemma_find_byte_shift(s@, 0x0a, pos as int);
                }
                line_end = s.len();
                next_pos = s.len();
            },
        }
        let mut line = sub_bytes(s, pos, line_end);
        if line.len() > 0 && line[line.len() - 1] == 0x0d {
            line.pop();
            assert(line@ =~= spec_strip_cr(s@.subrange(pos as int, line_end as int)));
        }
        proof {
            assert(line@ == spec_strip_cr(s@.subrange(pos as int, line_end as int)));
            if line_end < s@.len() {
                assert(rest.subrange(0, line_end - pos) =~= s@.subrange(
                    pos as int,
                    line_end as int,
                ));
                assert(rest.subrange(line_end - pos + 1, rest.len() as int) =~= s@.subrange(
                    next_pos as int,
                    s@.len() as int,
                ));
            } else {
                assert(rest =~= s@.subrange(pos as int, line_end as int));
            }
        }
        let ghost old_r = r@;
        r.push(line);
        proof {
            assert(r@.map_values(|v: Vec<u8>| v@) =~= old_r.map_values(|v: Vec<u8>| v@).push(
                line@,
            ));
            assert(spec_lines(s@) =~= r@.map_values(|v: Vec<u8>| v@) + spec_lines(
                s@.subrange(next_pos as int, s@.len() as int),
            ));
        }
        pos = next_pos;
    }
    proof {
        assert(spec_lines(s@.subrange(pos as int, s@.len() as int)) =~= Seq::<Seq<u8>>::empty());
        assert(spec_lines(s@) =~= r@.map_values(|v: Vec<u8>| v@));
        assert(forall|i: int|
            0 <= i < r@.len() ==> r@.map_values(|v: Vec<u8>| v@)[i] == #[trigger] r@[i]@);
    }
    r
}

/// Searching from `from` in `s` finds the same byte as searching from the
/// start of the suffix `s[from ..]`.
proof fn lemma_find_byte_shift(s: Seq<u8>, b: u8, from: int)
    requires
        0 <= from <= s.len(),
    ensures
        match spec_find_byte(s, b, from) {
            Some(k) => spec_find_byte(s.subrange(from, s.len() as int), b, 0) == Some(k - from),
            None => spec_find_byte(s.subrange(from, s.len() as int), b, 0) is None,
        },
{
    lemma_find_byte_shift_rec(s, b, from, from);
}

proof fn lemma_find_byte_shift_rec(s: Seq<u8>, b: u8, base: int, from: int)
    requires
        0 <= base <= from <= s.len(),
    ensures
        match spec_find_byte(s, b, from) {
            Some(k) => spec_find_byte(s.subrange(base, s.len() as int), b, from - base) == Some(
                k - base,
            ),
            None => spec_find_byte(s.subrange(base, s.len() as int), b, from - base) is None,
        },
    decreases s.len() - from,
{
    if from < s.len() && s[from] != b {
        lemma_find_byte_shift_rec(s, b, base, from + 1);
    }
}

} // verus!

