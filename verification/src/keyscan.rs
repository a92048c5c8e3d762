//! Deciding, without decrypting anything, whether a private key file will
//! ask for a passphrase: the legacy text format announces encryption in a
//! header line, the modern format names its cipher inside a base64-encoded
//! container.

use vstd::prelude::*;
use crate::bytes::{
    spec_lines, spec_contains_seq, spec_starts_with, split_lines, contains_seq, sub_bytes,
    concat_bytes, range_eq,
};

verus! {

/// A recoverable fault while scanning a key: the caller reports "no
/// passphrase" after logging it.
#[derive(PartialEq, Eq, Structural, Clone, Copy, Debug)]
pub enum KeyScanError {
    /// A length field runs past the end of the decoded container.
    Truncated,
    /// The cipher name field is not UTF-8.
    InvalidUtf8,
}

/// The 15-byte magic that opens the modern private-key container:
/// `openssh-key-v1` and a NUL.
pub open spec fn spec_key_magic() -> Seq<u8> {
    seq![
        'o' as u8, 'p' as u8, 'e' as u8, 'n' as u8, 's' as u8, 's' as u8, 'h' as u8, '-' as u8,
        'k' as u8, 'e' as u8, 'y' as u8, '-' as u8, 'v' as u8, '1' as u8, 0u8,
    ]
}

/// The bytes of `spec_key_magic()`.
fn key_magic() -> (v: Vec<u8>)
    ensures
        v@ == spec_key_magic(),
{
    let mut v: Vec<u8> = Vec::new();
    v.push('o' as u8);
    v.push('p' as u8);
    v.push('e' as u8);
    v.push('n' as u8);
    v.push('s' as u8);
    v.push('s' as u8);
    v.push('h' as u8);
    v.push('-' as u8);
    v.push('k' as u8);
    v.push('e' as u8);
    v.push('y' as u8);
    v.push('-' as u8);
    v.push('v' as u8);
    v.push('1' as u8);
    v.push(0u8);
    assert(v@ =~= spec_key_magic());
    v
}

/// `ENCRYPTED`
pub open spec fn spec_encrypted_marker() -> Seq<u8> {
    seq![
        'E' as u8, 'N' as u8, 'C' as u8, 'R' as u8, 'Y' as u8, 'P' as u8, 'T' as u8, 'E' as u8,
        'D' as u8,
    ]
}

fn encrypted_marker() -> (v: Vec<u8>)
    ensures
        v@ == spec_encrypted_marker(),
{
    let mut v: Vec<u8> = Vec::new();
    v.push('E' as u8);
    v.push('N' as u8);
    v.push('C' as u8);
    v.push('R' as u8);
    v.push('Y' as u8);
    v.push('P' as u8);
    v.push('T' as u8);
    v.push('E' as u8);
    v.push('D' as u8);
    assert(v@ =~= spec_encrypted_marker());
    v
}

/// `none`
pub open spec fn spec_none_cipher() -> Seq<u8> {
    seq!['n' as u8, 'o' as u8, 'n' as u8, 'e' as u8]
}

fn none_cipher() -> (v: Vec<u8>)
    ensures
        v@ == spec_none_cipher(),
{
    let mut v: Vec<u8> = Vec::new();
    v.push('n' as u8);
    v.push('o' as u8);
    v.push('n' as u8);
    v.push('e' as u8);
    assert(v@ =~= spec_none_cipher());
    v
}

/// The big-endian 32-bit value at `i` (callers establish the bounds).
pub open spec fn spec_be_u32(s: Seq<u8>, i: int) -> int {
    s[i] * 0x1000000 + s[i + 1] * 0x10000 + s[i + 2] * 0x100 + s[i + 3]
}

/// A length-prefixed byte string at `i`: a 4-byte big-endian length and
/// that many bytes; nothing when either part runs past the end.
pub open spec fn spec_read_string(s: Seq<u8>, i: int) -> Option<(Seq<u8>, int)> {
    if 0 <= i && i + 4 <= s.len() {
        let n = spec_be_u32(s, i);
        if i + 4 + n <= s.len() {
            Some((s.subrange(i + 4, i + 4 + n), i + 4 + n))
        } else {
            None
        }
    } else {
        None
    }
}

/// Reads the big-endian 32-bit length field at `pos`.
pub fn read_uint32(s: &Vec<u8>, pos: usize) -> (r: Result<(u32, usize), KeyScanError>)
    ensures
        match r {
            Ok((n, j)) => pos + 4 <= s@.len() && n == spec_be_u32(s@, pos as int) && j == pos + 4,
            Err(e) => e == KeyScanError::Truncated && (pos + 4 > s@.len()),
        },
{
    if pos > s.len() || s.len() - pos < 4 {
        return Err(KeyScanError::Truncated);
    }
    let n: u32 = (s[pos] as u32) * 0x1000000 + (s[pos + 1] as u32) * 0x10000 + (s[pos + 2] as u32)
        * 0x100 + (s[pos + 3] as u32);
    Ok((n, pos + 4))
}

/// Reads the length-prefixed byte string at `pos`, as the modern key
/// container stores its fields.
pub fn read_string(s: &Vec<u8>, pos: usize) -> (r: Result<(Vec<u8>, usize), KeyScanError>)
    ensures
        match r {
            Ok((v, j)) => spec_read_string(s@, pos as int) == Some((v@, j as int)) && j <= s@.len(),
            Err(e) => e == KeyScanError::Truncated && spec_read_string(s@, pos as int) is None,
        },
{
    let (n, body) = match read_uint32(s, pos) {
        Ok(x) => x,
        Err(e) => {
            return Err(e);
        },
    };
    if (n as usize) > s.len() - body {
        return Err(KeyScanError::Truncated);
    }
    let end = body + (n as usize);
    let v = sub_bytes(s, body, end);
    Ok((v, end))
}

/// A continuation byte: `0x80 ..= 0xbf`.
pub open spec fn spec_is_cont(b: u8) -> bool {
    0x80 <= b <= 0xbf
}

/// UTF-8 validity of `s` from `i` on, by the RFC 3629 table: ASCII, two- to
/// four-byte sequences with their continuation ranges, no overlong forms,
/// no surrogates, nothing above U+10FFFF.
pub open spec fn spec_utf8_ok_from(s: Seq<u8>, i: int) -> bool
    decreases s.len() - i,
{
    if !(0 <= i <= s.len()) {
        false
    } else if i == s.len() {
        true
    } else {
        let b = s[i];
        if b < 0x80 {
            spec_utf8_ok_from(s, i + 1)
        } else if 0xc2 <= b <= 0xdf {
            i + 2 <= s.len() && spec_is_cont(s[i + 1]) && spec_utf8_ok_from(s, i + 2)
        } else if b == 0xe0 {
            i + 3 <= s.len() && 0xa0 <= s[i + 1] <= 0xbf && spec_is_cont(s[i + 2])
                && spec_utf8_ok_from(s, i + 3)
        } else if 0xe1 <= b <= 0xec || b == 0xee || b == 0xef {
            i + 3 <= s.len() && spec_is_cont(s[i + 1]) && spec_is_cont(s[i + 2])
                && spec_utf8_ok_from(s, i + 3)
        } else if b == 0xed {
            i + 3 <= s.len() && 0x80 <= s[i + 1] <= 0x9f && spec_is_cont(s[i + 2])
                && spec_utf8_ok_from(s, i + 3)
        } else if b == 0xf0 {
            i + 4 <= s.len() && 0x90 <= s[i + 1] <= 0xbf && spec_is_cont(s[i + 2]) && spec_is_cont(
                s[i + 3],
            ) && spec_utf8_ok_from(s, i + 4)
        } else if 0xf1 <= b <= 0xf3 {
            i + 4 <= s.len() && spec_is_cont(s[i + 1]) && spec_is_cont(s[i + 2]) && spec_is_cont(
                s[i + 3],
            ) && spec_utf8_ok_from(s, i + 4)
        } else if b == 0xf4 {
            i + 4 <= s.len() && 0x80 <= s[i + 1] <= 0x8f && spec_is_cont(s[i + 2]) && spec_is_cont(
                s[i + 3],
            ) && spec_utf8_ok_from(s, i + 4)
        } else {
            false
        }
    }
}

/// Whole-sequence UTF-8 validity.
pub open spec fn spec_utf8_ok(s: Seq<u8>) -> bool {
    spec_utf8_ok_from(s, 0)
}

fn is_cont(b: u8) -> (r: bool)
    ensures
        r == spec_is_cont(b),
{
    0x80 <= b && b <= 0xbf
}

/// Checks UTF-8 validity from `i` on.
fn utf8_ok_from(s: &Vec<u8>, i: usize) -> (r: bool)
    requires
        i <= s@.len(),
    ensures
        r == spec_utf8_ok_from(s@, i as int),
    decreases s@.len() - i,
{
    if i == s.len() {
        return true;
    }
    let b = s[i];
    if b < 0x80 {
        utf8_ok_from(s, i + 1)
    } else if 0xc2 <= b && b <= 0xdf {
        s.len() - i >= 2 && is_cont(s[i + 1]) && utf8_ok_from(s, i + 2)
    } else if b == 0xe0 {
        s.len() - i >= 3 && 0xa0 <= s[i + 1] && s[i + 1] <= 0xbf && is_cont(s[i + 2])
            && utf8_ok_from(s, i + 3)
    } else if (0xe1 <= b && b <= 0xec) || b == 0xee || b == 0xef {
        s.len() - i >= 3 && is_cont(s[i + 1]) && is_cont(s[i + 2]) && utf8_ok_from(s, i + 3)
    } else if b == 0xed {
        s.len() - i >= 3 && 0x80 <= s[i + 1] && s[i + 1] <= 0x9f && is_cont(s[i + 2])
            && utf8_ok_from(s, i + 3)
    } else if b == 0xf0 {
        s.len() - i >= 4 && 0x90 <= s[i + 1] && s[i + 1] <= 0xbf && is_cont(s[i + 2]) && is_cont(
            s[i + 3],
        ) && utf8_ok_from(s, i + 4)
    } else if 0xf1 <= b && b <= 0xf3 {
        s.len() - i >= 4 && is_cont(s[i + 1]) && is_cont(s[i + 2]) && is_cont(s[i + 3])
            && utf8_ok_from(s, i + 4)
    } else if b == 0xf4 {
        s.len() - i >= 4 && 0x80 <= s[i + 1] && s[i + 1] <= 0x8f && is_cont(s[i + 2]) && is_cont(
            s[i + 3],
        ) && utf8_ok_from(s, i + 4)
    } else {
        false
    }
}

/// Reads the length-prefixed field at `pos` and requires it to be UTF-8, as
/// the cipher name must be.
pub fn read_utf8(s: &Vec<u8>, pos: usize) -> (r: Result<(Vec<u8>, usize), KeyScanError>)
    ensures
        match r {
            Ok((v, j)) => spec_read_string(s@, pos as int) == Some((v@, j as int)) && spec_utf8_ok(
                v@,
            ),
            Err(e) => match spec_read_string(s@, pos as int) {
                Some((v, j)) => e == KeyScanError::InvalidUtf8 && !spec_utf8_ok(v),
                None => e == KeyScanError::Truncated,
            },
        },
{
    let (mut v, j) = match read_string(s, pos) {
        Ok(x) => x,
        Err(e) => {
            return Err(e);
        },
    };
    if utf8_ok_from(&v, 0) {
        Ok((v, j))
    } else {
        zeroize_bytes(&mut v);
        Err(KeyScanError::InvalidUtf8)
    }
}

/// What the decoded bytes of a candidate modern-format key hold.
pub enum ScanOutcome {
    /// No modern container magic: not a modern-format key.
    NotModern,
    /// The container's cipher name.
    Cipher(Seq<u8>),
    /// The cipher name field runs past the end.
    Truncated,
    /// The cipher name is not UTF-8.
    BadUtf8,
}

/// Scanning decoded key bytes: the magic must open them, then the cipher
/// name is the length-prefixed field right after it.
pub open spec fn spec_scan_key(kd: Seq<u8>) -> ScanOutcome {
    if !(kd.len() >= 16 && kd.subrange(0, 15) == spec_key_magic()) {
        ScanOutcome::NotModern
    } else {
        match spec_read_string(kd, 15) {
            None => ScanOutcome::Truncated,
            Some((v, _)) => if spec_utf8_ok(v) {
                ScanOutcome::Cipher(v)
            } else {
                ScanOutcome::BadUtf8
            },
        }
    }
}

/// Reads a decoded key container's cipher name: `Ok(None)` when the bytes
/// are not the modern format at all.
pub fn modern_key_cipher(kd: &Vec<u8>) -> (r: Result<Option<Vec<u8>>, KeyScanError>)
    ensures
        match r {
            Ok(Some(c)) => spec_scan_key(kd@) == ScanOutcome::Cipher(c@),
            Ok(None) => spec_scan_key(kd@) is NotModern,
            Err(KeyScanError::Truncated) => spec_scan_key(kd@) is Truncated,
            Err(KeyScanError::InvalidUtf8) => spec_scan_key(kd@) is BadUtf8,
        },
{
    let magic = key_magic();
    if !(kd.len() >= 16 && range_eq(kd, 0, 15, &magic)) {
        return Ok(None);
    }
    match read_utf8(kd, 15) {
        Ok((v, _j)) => Ok(Some(v)),
        Err(e) => Err(e),
    }
}

/// Relies on `base64::decode` with the standard alphabet: the result is a
/// function of the input bytes alone, named `base64_decode_of`.
pub uninterp spec fn base64_decode_of(s: Seq<u8>) -> Option<Seq<u8>>;

/// Relies on `base64::decode`: standard alphabet, `None` exactly on inputs
/// the crate rejects.
#[verifier::external_body]
fn b64_decode(s: &Vec<u8>) -> (r: Option<Vec<u8>>)
    ensures
        match r {
            Some(v) => base64_decode_of(s@) == Some(v@),
            None => base64_decode_of(s@) is None,
        },
{
    match base64::decode(s.as_slice()) {
        Ok(v) => Some(v),
        Err(_) => None,
    }
}

/// Relies on `zeroize::Zeroize` for `Vec<u8>`: overwrites the buffer's
/// bytes and spare capacity, then clears it.
#[verifier::external_body]
fn zeroize_bytes(v: &mut Vec<u8>)
    ensures
        final (v)@.len() == 0,
{
    zeroize::Zeroize::zeroize(v);
}

/// A PEM guard or armor line, excluded before classification.
pub open spec fn spec_is_guard(line: Seq<u8>) -> bool {
    line.len() > 0 && line[0] == '-' as u8
}

/// A metadata line: one holding `: `, as `Key: Value` headers do.
pub open spec fn spec_is_metadata(line: Seq<u8>) -> bool {
    spec_contains_seq(line, seq![':' as u8, ' ' as u8])
}

/// Some metadata line from `i` on announces encryption.
pub open spec fn spec_meta_encrypted_from(lines: Seq<Seq<u8>>, i: int) -> bool
    decreases lines.len() - i,
{
    if !(0 <= i < lines.len()) {
        false
    } else {
        (!spec_is_guard(lines[i]) && spec_is_metadata(lines[i]) && spec_contains_seq(
            lines[i],
            spec_encrypted_marker(),
        )) || spec_meta_encrypted_from(lines, i + 1)
    }
}

/// The base64 payload: every kept line that is not metadata, in order.
pub open spec fn spec_payload_from(lines: Seq<Seq<u8>>, i: int) -> Seq<u8>
    decreases lines.len() - i,
{
    if !(0 <= i < lines.len()) {
        Seq::empty()
    } else if !spec_is_guard(lines[i]) && !spec_is_metadata(lines[i]) {
        lines[i] + spec_payload_from(lines, i + 1)
    } else {
        spec_payload_from(lines, i + 1)
    }
}

/// The whole decision over a key file's bytes. A metadata line holding
/// `ENCRYPTED` means a passphrase is needed. Otherwise the payload is
/// base64-decoded; a modern container asks for a passphrase exactly when
/// its cipher is not `none`; anything else means no passphrase. Faults
/// inside a recognized modern container are reported as errors.
pub open spec fn spec_requires_passphrase(s: Seq<u8>) -> Result<bool, KeyScanError> {
    let lines = spec_lines(s);
    if spec_meta_encrypted_from(lines, 0) {
        Ok(true)
    } else {
        match base64_decode_of(spec_payload_from(lines, 0)) {
            None => Ok(false),
            Some(kd) => match spec_scan_key(kd) {
                ScanOutcome::NotModern => Ok(false),
                ScanOutcome::Cipher(c) => Ok(c != spec_none_cipher()),
                ScanOutcome::Truncated => Err(KeyScanError::Truncated),
                ScanOutcome::BadUtf8 => Err(KeyScanError::InvalidUtf8),
            },
        }
    }
}

/// Decides whether the key in `contents` will ask for a passphrase, without
/// decrypting anything. Decoded key material is cleared before returning,
/// on every path.
pub fn ssh_key_requires_passphrase(contents: &Vec<u8>) -> (r: Result<bool, KeyScanError>)
    ensures
        r == spec_requires_passphrase(contents@),
{
    let lines = split_lines(contents);
    let ghost lv = spec_lines(contents@);
    let marker = encrypted_marker();
    let mut payload: Vec<u8> = Vec::new();
    let mut encrypted = false;
    let mut i: usize = 0;
    while i < lines.len()
        invariant
            i <= lines@.len(),
            lines@.len() == lv.len(),
            forall|k: int| 0 <= k < lines@.len() ==> lines@[k]@ == lv[k],
            marker@ == spec_encrypted_marker(),
            spec_meta_encrypted_from(lv, 0) == (encrypted || spec_meta_encrypted_from(
                lv,
                i as int,
            )),
            encrypted ==> spec_meta_encrypted_from(lv, 0),
            spec_payload_from(lv, 0) == payload@ + spec_payload_from(lv, i as int),
        decreases lines@.len() - i,
    {
        let line = &lines[i];
        let is_guard = line.len() > 0 && line[0] == '-' as u8;
        let mut colon_space: Vec<u8> = Vec::new();
        colon_space.push(':' as u8);
        colon_space.push(' ' as u8);
        assert(colon_space@ =~= seq![':' as u8, ' ' as u8]);
        let is_meta = contains_seq(line, &colon_space);
        if !is_guard && is_meta {
            if contains_seq(line, &marker) {
                encrypted = true;
            }
        } else if !is_guard && !is_meta {
            payload = concat_bytes(&payload, line);
        }
        i = i + 1;
    }
    if encrypted {
        return Ok(true);
    }
    assert(payload@ == spec_payload_from(lv, 0));
    let mut kd = match b64_decode(&payload) {
        Some(kd) => kd,
        None => {
            return Ok(false);
        },
    };
    let outcome = modern_key_cipher(&kd);
    zeroize_bytes(&mut kd);
    match outcome {
        Ok(Some(mut c)) => {
            let none_lit = none_cipher();
            let is_none = range_eq(&c, 0, c.len(), &none_lit);
            assert(c@.subrange(0, c@.len() as int) =~= c@);
            zeroize_bytes(&mut c);
            Ok(!is_none)
        },
        Ok(None) => Ok(false),
        Err(e) => Err(e),
    }
}

/// A legacy-format key that announces `ENCRYPTED` in a metadata line is
/// reported as requiring a passphrase, whatever else the file holds.
pub proof fn lemma_legacy_encrypted_requires_passphrase(s: Seq<u8>, k: int)
    requires
        0 <= k < spec_lines(s).len(),
        !spec_is_guard(spec_lines(s)[k]),
        spec_is_metadata(spec_lines(s)[k]),
        spec_contains_seq(spec_lines(s)[k], spec_encrypted_marker()),
    ensures
        spec_requires_passphrase(s) == Ok::<bool, KeyScanError>(true),
{
    lemma_meta_encrypted_witness(spec_lines(s), 0, k);
}

proof fn lemma_meta_encrypted_witness(lines: Seq<Seq<u8>>, from: int, k: int)
    requires
        0 <= from <= k < lines.len(),
        !spec_is_guard(lines[k]),
        spec_is_metadata(lines[k]),
        spec_contains_seq(lines[k], spec_encrypted_marker()),
    ensures
        spec_meta_encrypted_from(lines, from),
    decreases k - from,
{
    if from < k {
        lemma_meta_encrypted_witness(lines, from + 1, k);
    }
}

/// A modern-format key whose decoded cipher name is exactly `none` is
/// reported as not requiring a passphrase, provided no metadata line
/// announces encryption.
pub proof fn lemma_modern_none_cipher_no_passphrase(s: Seq<u8>, kd: Seq<u8>)
    requires
        !spec_meta_encrypted_from(spec_lines(s), 0),
        base64_decode_of(spec_payload_from(spec_lines(s), 0)) == Some(kd),
        spec_scan_key(kd) == ScanOutcome::Cipher(spec_none_cipher()),
    ensures
        spec_requires_passphrase(s) == Ok::<bool, KeyScanError>(false),
{
}

} // verus!
