use gpm::pointer::{parse_lfs_link_file, LfsPointer};
use gpm::Error;

fn well_formed(oid: &str, size: &str) -> Vec<u8> {
    let mut v = Vec::new();
    v.extend_from_slice(b"version https://git-lfs.github.com/spec/v1\n");
    v.extend_from_slice(b"oid sha256:");
    v.extend_from_slice(oid.as_bytes());
    v.push(b'\n');
    v.extend_from_slice(b"size ");
    v.extend_from_slice(size.as_bytes());
    v.push(b'\n');
    v
}

#[test]
fn parses_well_formed_pointer() {
    let oid = "a".repeat(64);
    let contents = well_formed(&oid, "1024");
    let p: LfsPointer = parse_lfs_link_file(&contents).unwrap().unwrap();
    assert_eq!(p.oid, oid.as_bytes().to_vec());
    assert_eq!(p.size, 1024u64);
}

#[test]
fn parses_mixed_hex_digits_and_large_size() {
    let oid = "0123456789abcdef".repeat(4);
    let contents = well_formed(&oid, "18446744073709551615");
    let p = parse_lfs_link_file(&contents).unwrap().unwrap();
    assert_eq!(p.oid, oid.as_bytes().to_vec());
    assert_eq!(p.size, u64::MAX);
}

#[test]
fn trailing_content_is_ignored() {
    let oid = "b".repeat(64);
    let mut contents = well_formed(&oid, "7");
    contents.extend_from_slice(b"anything at all after the third line");
    let p = parse_lfs_link_file(&contents).unwrap().unwrap();
    assert_eq!(p.size, 7u64);
}

#[test]
fn wrong_first_line_is_not_a_pointer_not_an_error() {
    let r = parse_lfs_link_file(&b"just some file contents\nwith lines\n".to_vec());
    assert!(matches!(r, Ok(None)));
}

#[test]
fn missing_version_newline_is_not_a_pointer() {
    let r = parse_lfs_link_file(&b"version https://git-lfs.github.com/spec/v1".to_vec());
    assert!(matches!(r, Ok(None)));
}

#[test]
fn empty_file_is_not_a_pointer() {
    assert!(matches!(parse_lfs_link_file(&Vec::new()), Ok(None)));
}

#[test]
fn short_oid_is_malformed() {
    let contents = well_formed(&"a".repeat(63), "10");
    assert!(matches!(parse_lfs_link_file(&contents), Err(Error::MalformedPointer)));
}

#[test]
fn uppercase_oid_is_malformed() {
    let contents = well_formed(&"A".repeat(64), "10");
    assert!(matches!(parse_lfs_link_file(&contents), Err(Error::MalformedPointer)));
}

#[test]
fn bad_size_is_malformed() {
    let contents = well_formed(&"c".repeat(64), "12x4");
    assert!(matches!(parse_lfs_link_file(&contents), Err(Error::MalformedPointer)));
}

#[test]
fn overflowing_size_is_malformed() {
    let contents = well_formed(&"c".repeat(64), "18446744073709551616");
    assert!(matches!(parse_lfs_link_file(&contents), Err(Error::MalformedPointer)));
}

#[test]
fn missing_size_line_is_malformed() {
    let mut v = Vec::new();
    v.extend_from_slice(b"version https://git-lfs.github.com/spec/v1\n");
    v.extend_from_slice(b"oid sha256:");
    v.extend_from_slice("d".repeat(64).as_bytes());
    v.push(b'\n');
    assert!(matches!(parse_lfs_link_file(&v), Err(Error::MalformedPointer)));
}

#[test]
fn wrong_oid_prefix_is_malformed() {
    let mut v = Vec::new();
    v.extend_from_slice(b"version https://git-lfs.github.com/spec/v1\n");
    v.extend_from_slice(b"oid md5:");
    v.extend_from_slice("d".repeat(64).as_bytes());
    v.extend_from_slice(b"\nsize 5\n");
    assert!(matches!(parse_lfs_link_file(&v), Err(Error::MalformedPointer)));
}
