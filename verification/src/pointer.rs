//! The LFS pointer file format: a three-line text file naming a SHA-256
//! digest and a byte count in place of the real content.

use vstd::prelude::*;
use crate::bytes::{
    spec_find_byte, spec_starts_with, spec_all_lower_hex, spec_all_digits, spec_dec_value,
    spec_is_digit, spec_is_lower_hex_digit, starts_with, find_byte, range_eq, all_lower_hex,
    parse_dec_u64, sub_bytes, lemma_find_byte_in_range,
};
use crate::Error;

verus! {

/// The mandatory first line, newline included:
/// `version https://git-lfs.github.com/spec/v1\n`.
pub open spec fn spec_version_prefix() -> Seq<u8> {
    seq![
        'v' as u8, 'e' as u8, 'r' as u8, 's' as u8, 'i' as u8, 'o' as u8, 'n' as u8, ' ' as u8,
        'h' as u8, 't' as u8, 't' as u8, 'p' as u8, 's' as u8, ':' as u8, '/' as u8, '/' as u8,
        'g' as u8, 'i' as u8, 't' as u8, '-' as u8, 'l' as u8, 'f' as u8, 's' as u8, '.' as u8,
        'g' as u8, 'i' as u8, 't' as u8, 'h' as u8, 'u' as u8, 'b' as u8, '.' as u8, 'c' as u8,
        'o' as u8, 'm' as u8, '/' as u8, 's' as u8, 'p' as u8, 'e' as u8, 'c' as u8, '/' as u8,
        'v' as u8, '1' as u8, '\n' as u8,
    ]
}

/// The prefix of the second line: `oid sha256:`.
pub open spec fn spec_oid_prefix() -> Seq<u8> {
    seq![
        'o' as u8, 'i' as u8, 'd' as u8, ' ' as u8, 's' as u8, 'h' as u8, 'a' as u8, '2' as u8,
        '5' as u8, '6' as u8, ':' as u8,
    ]
}

/// The prefix of the third line: `size `.
pub open spec fn spec_size_prefix() -> Seq<u8> {
    seq!['s' as u8, 'i' as u8, 'z' as u8, 'e' as u8, ' ' as u8]
}

/// The first line of `spec_version_prefix()`, as runtime bytes.
#[verifier::rlimit(30)]
pub fn version_prefix() -> (v: Vec<u8>)
    ensures
        v@ == spec_version_prefix(),
{
    let mut v: Vec<u8> = Vec::new();
    v.push('v' as u8);
    v.push('e' as u8);
    v.push('r' as u8);
    v.push('s' as u8);
    v.push('i' as u8);
    v.push('o' as u8);
    v.push('n' as u8);
    v.push(' ' as u8);
    v.push('h' as u8);
    v.push('t' as u8);
    v.push('t' as u8);
    v.push('p' as u8);
    v.push('s' as u8);
    v.push(':' as u8);
    v.push('/' as u8);
    v.push('/' as u8);
    v.push('g' as u8);
    v.push('i' as u8);
    v.push('t' as u8);
    v.push('-' as u8);
    v.push('l' as u8);
    v.push('f' as u8);
    v.push('s' as u8);
    v.push('.' as u8);
    v.push('g' as u8);
    v.push('i' as u8);
    v.push('t' as u8);
    v.push('h' as u8);
    v.push('u' as u8);
    v.push('b' as u8);
    v.push('.' as u8);
    v.push('c' as u8);
    v.push('o' as u8);
    v.push('m' as u8);
    v.push('/' as u8);
    v.push('s' as u8);
    v.push('p' as u8);
    v.push('e' as u8);
    v.push('c' as u8);
    v.push('/' as u8);
    v.push('v' as u8);
    v.push('1' as u8);
    v.push('\n' as u8);
    assert(v@ =~= spec_version_prefix());
    v
}

/// The bytes of `spec_oid_prefix()`.
pub fn oid_prefix() -> (v: Vec<u8>)
    ensures
        v@ == spec_oid_prefix(),
{
    let mut v: Vec<u8> = Vec::new();
    v.push('o' as u8);
    v.push('i' as u8);
    v.push('d' as u8);
    v.push(' ' as u8);
    v.push('s' as u8);
    v.push('h' as u8);
    v.push('a' as u8);
    v.push('2' as u8);
    v.push('5' as u8);
    v.push('6' as u8);
    v.push(':' as u8);
    assert(v@ =~= spec_oid_prefix());
    v
}

/// The bytes of `spec_size_prefix()`.
pub fn size_prefix() -> (v: Vec<u8>)
    ensures
        v@ == spec_size_prefix(),
{
    let mut v: Vec<u8> = Vec::new();
    v.push('s' as u8);
    v.push('i' as u8);
    v.push('z' as u8);
    v.push('e' as u8);
    v.push(' ' as u8);
    assert(v@ =~= spec_size_prefix());
    v
}

/// A successfully parsed pointer: a SHA-256 digest in lowercase hexadecimal
/// and the content's byte count.
pub struct LfsPointer {
    pub oid: Vec<u8>,
    pub size: u64,
}

impl LfsPointer {
    /// The oid is exactly 64 lowercase hexadecimal digits.
    pub open spec fn wf(&self) -> bool {
        self.oid@.len() == 64 && spec_all_lower_hex(self.oid@)
    }
}

/// What a candidate file's bytes mean.
pub enum PointerParse {
    /// The first line is not the version line: use the file as content.
    NotPointer,
    /// The version line is there, but the oid or size line is broken.
    Malformed,
    /// A complete pointer.
    Pointer { oid: Seq<u8>, size: u64 },
}

/// Parsing, defined over the raw bytes. A file is a pointer iff it begins
/// with the exact version line. The second line must then be
/// `oid sha256:` plus 64 lowercase hex digits, newline-terminated, and the
/// third `size ` plus a decimal count that fits in 64 bits,
/// newline-terminated; anything after the third newline is ignored.
pub open spec fn spec_parse_pointer(s: Seq<u8>) -> PointerParse {
    if !spec_starts_with(s, spec_version_prefix()) {
        PointerParse::NotPointer
    } else {
        let p1 = spec_version_prefix().len() as int;
        match spec_find_byte(s, '\n' as u8, p1) {
            None => PointerParse::Malformed,
            Some(e1) => {
                let line2 = s.subrange(p1, e1);
                if !spec_starts_with(line2, spec_oid_prefix()) {
                    PointerParse::Malformed
                } else {
                    let oid = line2.subrange(spec_oid_prefix().len() as int, line2.len() as int);
                    if !(oid.len() == 64 && spec_all_lower_hex(oid)) {
                        PointerParse::Malformed
                    } else {
                        match spec_find_byte(s, '\n' as u8, e1 + 1) {
                            None => PointerParse::Malformed,
                            Some(e2) => {
                                let line3 = s.subrange(e1 + 1, e2);
                                if !spec_starts_with(line3, spec_size_prefix()) {
                                    PointerParse::Malformed
                                } else {
                                    let digits = line3.subrange(
                                        spec_size_prefix().len() as int,
                                        line3.len() as int,
                                    );
                                    if spec_all_digits(digits) && spec_dec_value(digits)
                                        <= u64::MAX {
                                        PointerParse::Pointer {
                                            oid,
                                            size: spec_dec_value(digits) as u64,
                                        }
                                    } else {
                                        PointerParse::Malformed
                                    }
                                }
                            },
                        }
                    }
                }
            },
        }
    }
}

/// Reads a candidate pointer file's bytes.
///
/// `Ok(None)` is the "not a pointer" outcome; a broken oid or size line under
/// a correct version line is the fatal `MalformedPointer` error.
pub fn parse_lfs_link_file(contents: &Vec<u8>) -> (r: Result<Option<LfsPointer>, Error>)
    ensures
        match r {
            Ok(Some(p)) => spec_parse_pointer(contents@) == (PointerParse::Pointer {
                oid: p.oid@,
                size: p.size,
            }) && p.wf(),
            Ok(None) => spec_parse_pointer(contents@) is NotPointer,
            Err(e) => spec_parse_pointer(contents@) is Malformed && e is MalformedPointer,
        },
{
    let vp = version_prefix();
    if !starts_with(contents, &vp) {
        return Ok(None);
    }
    let p1 = vp.len();
    let e1 = match find_byte(contents, '\n' as u8, p1) {
        Some(e1) => e1,
        None => {
            return Err(Error::MalformedPointer);
        },
    };
    proof {
        lemma_find_byte_in_range(contents@, '\n' as u8, p1 as int);
    }
    let ghost line2 = contents@.subrange(p1 as int, e1 as int);
    let op = oid_prefix();
    if e1 - p1 < op.len() {
        assert(!spec_starts_with(line2, spec_oid_prefix()));
        return Err(Error::MalformedPointer);
    }
    if !range_eq(contents, p1, p1 + op.len(), &op) {
        assert(line2.subrange(0, spec_oid_prefix().len() as int) =~= contents@.subrange(
            p1 as int,
            p1 + op.len(),
        ));
        return Err(Error::MalformedPointer);
    }
    assert(line2.subrange(0, spec_oid_prefix().len() as int) =~= contents@.subrange(
        p1 as int,
        p1 + op.len(),
    ));
    assert(spec_starts_with(line2, spec_oid_prefix()));
    let oid_start = p1 + op.len();
    let ghost oid_spec = line2.subrange(spec_oid_prefix().len() as int, line2.len() as int);
    assert(oid_spec =~= contents@.subrange(oid_start as int, e1 as int));
    if e1 - oid_start != 64 {
        return Err(Error::MalformedPointer);
    }
    if !all_lower_hex(contents, oid_start, e1) {
        return Err(Error::MalformedPointer);
    }
    let e2 = match find_byte(contents, '\n' as u8, e1 + 1) {
        Some(e2) => e2,
        None => {
            return Err(Error::MalformedPointer);
        },
    };
    proof {
        lemma_find_byte_in_range(contents@, '\n' as u8, e1 + 1 as int);
    }
    let ghost line3 = contents@.subrange(e1 + 1 as int, e2 as int);
    let sp = size_prefix();
    if e2 - (e1 + 1) < sp.len() {
        assert(!spec_starts_with(line3, spec_size_prefix()));
        return Err(Error::MalformedPointer);
    }
    if !range_eq(contents, e1 + 1, e1 + 1 + sp.len(), &sp) {
        assert(line3.subrange(0, spec_size_prefix().len() as int) =~= contents@.subrange(
            e1 + 1 as int,
            e1 + 1 + sp.len(),
        ));
        return Err(Error::MalformedPointer);
    }
    assert(line3.subrange(0, spec_size_prefix().len() as int) =~= contents@.subrange(
        e1 + 1 as int,
        e1 + 1 + sp.len(),
    ));
    assert(spec_starts_with(line3, spec_size_prefix()));
    let digits_start = e1 + 1 + sp.len();
    let ghost digits = line3.subrange(spec_size_prefix().len() as int, line3.len() as int);
    assert(digits =~= contents@.subrange(digits_start as int, e2 as int));
    let size = match parse_dec_u64(contents, digits_start, e2) {
        Some(v) => v,
        None => {
            return Err(Error::MalformedPointer);
        },
    };
    let oid = sub_bytes(contents, oid_start, e1);
    Ok(Some(LfsPointer { oid, size }))
}

/// A file whose first line is not the exact version line is never an error:
/// it is simply not a pointer.
pub proof fn lemma_non_version_is_not_pointer(s: Seq<u8>)
    requires
        !spec_starts_with(s, spec_version_prefix()),
    ensures
        spec_parse_pointer(s) is NotPointer,
{
}

/// `spec_find_byte` finds exactly the byte position that is known to be the
/// first occurrence.
proof fn lemma_find_byte_exact(s: Seq<u8>, b: u8, from: int, k: int)
    requires
        0 <= from <= k < s.len(),
        s[k] == b,
        forall|j: int| from <= j < k ==> s[j] != b,
    ensures
        spec_find_byte(s, b, from) == Some(k),
    decreases k - from,
{
    if from < k {
        lemma_find_byte_exact(s, b, from + 1, k);
    }
}

/// Every well-formed pointer file parses to exactly its own oid and the
/// decimal value of its size line: for any 64-digit lowercase hex `oid`, any
/// decimal `digits` whose value fits in 64 bits, and any trailing `rest`, the
/// file assembled from the three lines parses to `Pointer { oid, value }`.
pub proof fn lemma_well_formed_pointer_parses(oid: Seq<u8>, digits: Seq<u8>, rest: Seq<u8>)
    requires
        oid.len() == 64,
        spec_all_lower_hex(oid),
        spec_all_digits(digits),
        spec_dec_value(digits) <= u64::MAX,
    ensures
        spec_parse_pointer(
            spec_version_prefix() + spec_oid_prefix() + oid + seq!['\n' as u8]
                + spec_size_prefix() + digits + seq!['\n' as u8] + rest,
        ) == (PointerParse::Pointer { oid, size: spec_dec_value(digits) as u64 }),
{
    let s = spec_version_prefix() + spec_oid_prefix() + oid + seq!['\n' as u8]
        + spec_size_prefix() + digits + seq!['\n' as u8] + rest;
    let p1 = spec_version_prefix().len() as int;
    let e1 = p1 + spec_oid_prefix().len() + oid.len();
    let e2 = e1 + 1 + spec_size_prefix().len() + digits.len();
    assert(s.subrange(0, p1) =~= spec_version_prefix());
    assert(spec_starts_with(s, spec_version_prefix()));
    assert forall|j: int| p1 <= j < e1 implies s[j] != '\n' as u8 by {
        if j < p1 + spec_oid_prefix().len() {
            assert(s[j] == spec_oid_prefix()[j - p1]);
        } else {
            assert(s[j] == oid[j - p1 - spec_oid_prefix().len()]);
            assert(spec_is_lower_hex_digit(oid[j - p1 - spec_oid_prefix().len()]));
        }
    }
    assert(s[e1] == '\n' as u8);
    lemma_find_byte_exact(s, '\n' as u8, p1, e1);
    let line2 = s.subrange(p1, e1);
    assert(line2.subrange(0, spec_oid_prefix().len() as int) =~= spec_oid_prefix());
    assert(spec_starts_with(line2, spec_oid_prefix()));
    assert(line2.subrange(spec_oid_prefix().len() as int, line2.len() as int) =~= oid);
    assert forall|j: int| e1 + 1 <= j < e2 implies s[j] != '\n' as u8 by {
        if j < e1 + 1 + spec_size_prefix().len() {
            assert(s[j] == spec_size_prefix()[j - e1 - 1]);
        } else {
            assert(s[j] == digits[j - e1 - 1 - spec_size_prefix().len()]);
            assert(spec_is_digit(digits[j - e1 - 1 - spec_size_prefix().len()]));
        }
    }
    assert(s[e2] == '\n' as u8);
    lemma_find_byte_exact(s, '\n' as u8, e1 + 1, e2);
    let line3 = s.subrange(e1 + 1, e2);
    assert(line3.subrange(0, spec_size_prefix().len() as int) =~= spec_size_prefix());
    assert(spec_starts_with(line3, spec_size_prefix()));
    assert(line3.subrange(spec_size_prefix().len() as int, line3.len() as int) =~= digits);
}

} // verus!
