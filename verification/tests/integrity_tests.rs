use gpm::integrity::{get_oid, verify_lfs_object};
use gpm::Error;

// SHA-256 of "abc", a published test vector.
const ABC_DIGEST: &str = "ba7816bf8f01cfea414140de5dae2223b00361a396177a9cb410ff61f20015ad";

#[test]
fn get_oid_matches_published_vector() {
    assert_eq!(get_oid(&b"abc".to_vec()), ABC_DIGEST.as_bytes().to_vec());
}

#[test]
fn get_oid_of_empty_input() {
    assert_eq!(
        get_oid(&Vec::new()),
        b"e3b0c44298fc1c149afbf4c8996fb92427ae41e4649b934ca495991b7852b855".to_vec()
    );
}

#[test]
fn matching_digest_verifies() {
    assert!(verify_lfs_object(&b"abc".to_vec(), &ABC_DIGEST.as_bytes().to_vec()).is_ok());
}

#[test]
fn flipping_one_byte_fails_with_integrity_violation() {
    // 1024 bytes of content; its own digest verifies, and flipping any one
    // byte (here: a few sample positions) must be rejected.
    let content: Vec<u8> = (0..1024u32).map(|i| (i % 251) as u8).collect();
    let oid = get_oid(&content);
    assert!(verify_lfs_object(&content, &oid).is_ok());
    for pos in [0usize, 1, 511, 1023] {
        let mut corrupted = content.clone();
        corrupted[pos] ^= 0x01;
        match verify_lfs_object(&corrupted, &oid) {
            Err(Error::IntegrityViolation { expected, actual }) => {
                assert_eq!(expected, oid);
                assert_eq!(actual, get_oid(&corrupted));
                assert_ne!(expected, actual);
            },
            _ => panic!("corrupted content must fail the integrity check"),
        }
    }
}
