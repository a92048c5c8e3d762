//! Content integrity: a downloaded object is valid exactly when the
//! SHA-256 of its bytes, written in lowercase hexadecimal, is the oid its
//! pointer declared.

use vstd::prelude::*;
use crate::bytes::{spec_hex_of, spec_hex_digit, hex_encode, range_eq, lemma_hex_len};
use crate::Error;

verus! {

/// Relies on `crypto_hash::digest` with the SHA-256 algorithm: the digest
/// is a function of the data alone, named `sha256_of` here.
pub uninterp spec fn sha256_of(data: Seq<u8>) -> Seq<u8>;

/// Relies on `crypto_hash::digest(Algorithm::SHA256, ..)`: a 256-bit
/// digest of exactly the given bytes.
#[verifier::external_body]
fn sha256_digest(data: &Vec<u8>) -> (r: Vec<u8>)
    ensures
        r@ == sha256_of(data@),
        r@.len() == 32,
{
    crypto_hash::digest(crypto_hash::Algorithm::SHA256, data.as_slice())
}

/// The object id of some content: its SHA-256 digest written as 64
/// lowercase hexadecimal digits.
pub fn get_oid(data: &Vec<u8>) -> (r: Vec<u8>)
    ensures
        r@ == spec_hex_of(sha256_of(data@)),
        r@.len() == 64,
{
    let digest = sha256_digest(data);
    hex_encode(&digest)
}

/// Accepts downloaded bytes exactly when their digest, in hexadecimal, is
/// the declared oid; a mismatch is the distinct integrity-violation error,
/// carrying both digests.
pub fn verify_lfs_object(data: &Vec<u8>, expected_oid: &Vec<u8>) -> (r: Result<(), Error>)
    ensures
        r is Ok <==> spec_hex_of(sha256_of(data@)) == expected_oid@,
        match r {
            Ok(_) => true,
            Err(e) => e matches Error::IntegrityViolation { expected, actual }
                && expected@ == expected_oid@ && actual@ == spec_hex_of(sha256_of(data@)),
        },
{
    let actual = get_oid(data);
    let same = range_eq(&actual, 0, actual.len(), expected_oid);
    assert(actual@.subrange(0, actual@.len() as int) =~= actual@);
    if same {
        Ok(())
    } else {
        Err(Error::IntegrityViolation { expected: expected_oid.clone(), actual })
    }
}

/// Hexadecimal digits of distinct values differ.
proof fn lemma_hex_digit_injective(x: u8, y: u8)
    requires
        x < 16,
        y < 16,
        spec_hex_digit(x) == spec_hex_digit(y),
    ensures
        x == y,
{
}

/// Hexadecimal writing is injective: equal hex strings come from equal
/// bytes.
pub proof fn lemma_hex_injective(a: Seq<u8>, b: Seq<u8>)
    requires
        spec_hex_of(a) == spec_hex_of(b),
    ensures
        a == b,
    decreases a.len(),
{
    lemma_hex_len(a);
    lemma_hex_len(b);
    if a.len() == 0 {
        assert(a =~= b);
    } else {
        let ha = spec_hex_of(a);
        let hb = spec_hex_of(b);
        assert(ha.last() == spec_hex_digit(a.last() % 16));
        assert(ha[ha.len() - 2] == spec_hex_digit(a.last() / 16));
        assert(hb.last() == spec_hex_digit(b.last() % 16));
        assert(hb[hb.len() - 2] == spec_hex_digit(b.last() / 16));
        lemma_hex_digit_injective(a.last() % 16, b.last() % 16);
        lemma_hex_digit_injective(a.last() / 16, b.last() / 16);
        assert(a.last() == b.last());
        assert(spec_hex_of(a.drop_last()) =~= spec_hex_of(a).subrange(
            0,
            spec_hex_of(a).len() - 2,
        ));
        assert(spec_hex_of(b.drop_last()) =~= spec_hex_of(b).subrange(
            0,
            spec_hex_of(b).len() - 2,
        ));
        lemma_hex_injective(a.drop_last(), b.drop_last());
        assert(a =~= a.drop_last().push(a.last()));
        assert(b =~= b.drop_last().push(b.last()));
    }
}

/// Content whose digest is the pointer's oid passes the check, and any
/// content with a different digest fails it: the check cannot accept both.
pub proof fn lemma_integrity_separates(good: Seq<u8>, bad: Seq<u8>, oid: Seq<u8>)
    requires
        spec_hex_of(sha256_of(good)) == oid,
        sha256_of(bad) != sha256_of(good),
    ensures
        spec_hex_of(sha256_of(bad)) != oid,
{
    if spec_hex_of(sha256_of(bad)) == oid {
        lemma_hex_injective(sha256_of(bad), sha256_of(good));
    }
}

} // verus!
