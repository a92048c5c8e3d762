use gpm::sshcfg::{
    find_ssh_key_in_ssh_config, find_ssh_key_for_host, glob_match, SSHConfigParser,
};

#[test]
fn first_matching_block_wins_over_exact_later_block() {
    // The wildcard block comes first in file order, so a lookup for
    // git.example.com takes its key, never the later exact block's.
    let config = b"Host *.example.com\n  IdentityFile ~/.ssh/wildcard_key\nHost git.example.com\n  IdentityFile ~/.ssh/exact_key\n".to_vec();
    let r = find_ssh_key_in_ssh_config(&config, &b"git.example.com".to_vec());
    assert_eq!(r, Some(b"~/.ssh/wildcard_key".to_vec()));
}

#[test]
fn exact_block_is_found_when_it_comes_first() {
    let config = b"Host git.example.com\n  IdentityFile ~/.ssh/exact_key\nHost *.example.com\n  IdentityFile ~/.ssh/wildcard_key\n".to_vec();
    let r = find_ssh_key_in_ssh_config(&config, &b"git.example.com".to_vec());
    assert_eq!(r, Some(b"~/.ssh/exact_key".to_vec()));
}

#[test]
fn no_matching_block_yields_nothing() {
    let config = b"Host other.example.org\n  IdentityFile ~/.ssh/other\n".to_vec();
    assert_eq!(find_ssh_key_in_ssh_config(&config, &b"git.example.com".to_vec()), None);
}

#[test]
fn matching_block_without_identity_file_yields_nothing() {
    let config = b"Host git.example.com\n  User git\n  Port 2222\n".to_vec();
    assert_eq!(find_ssh_key_in_ssh_config(&config, &b"git.example.com".to_vec()), None);
}

#[test]
fn any_pattern_of_a_block_can_match() {
    let config = b"Host a.example.com b.example.com\n  IdentityFile shared_key\n".to_vec();
    assert_eq!(
        find_ssh_key_in_ssh_config(&config, &b"b.example.com".to_vec()),
        Some(b"shared_key".to_vec())
    );
}

#[test]
fn comments_and_blanks_are_ignored() {
    let config =
        b"# global comment\n\nHost git.example.com\n  # a comment\n  IdentityFile the_key\n"
            .to_vec();
    assert_eq!(
        find_ssh_key_in_ssh_config(&config, &b"git.example.com".to_vec()),
        Some(b"the_key".to_vec())
    );
}

#[test]
fn parser_reads_blocks_patterns_and_options() {
    let config = b"Host *.example.com git.other.net\n  User git\n  IdentityFile k1\nHost x\n".to_vec();
    let entries = SSHConfigParser::parse(&config);
    assert_eq!(entries.len(), 2);
    assert_eq!(entries[0].patterns.len(), 2);
    assert_eq!(entries[0].patterns[0], b"*.example.com".to_vec());
    assert_eq!(entries[0].options.len(), 2);
    assert_eq!(entries[0].options[1].0, b"IdentityFile".to_vec());
    assert_eq!(entries[0].options[1].1, b"k1".to_vec());
    assert_eq!(entries[1].patterns[0], b"x".to_vec());
    assert_eq!(entries[1].options.len(), 0);
}

#[test]
fn glob_matches_whole_host_only() {
    assert!(glob_match(&b"*.example.com".to_vec(), &b"git.example.com".to_vec()));
    assert!(glob_match(&b"git.example.com".to_vec(), &b"git.example.com".to_vec()));
    assert!(!glob_match(&b"*.example.com".to_vec(), &b"example.com".to_vec()));
    assert!(!glob_match(&b"git.example.com".to_vec(), &b"agit.example.com".to_vec()));
    assert!(glob_match(&b"git.*".to_vec(), &b"git.example.com".to_vec()));
    assert!(glob_match(&b"*".to_vec(), &b"anything".to_vec()));
    assert!(!glob_match(&b"".to_vec(), &b"x".to_vec()));
}

#[test]
fn crlf_line_endings_are_accepted() {
    let config = b"Host git.example.com\r\n  IdentityFile the_key\r\n".to_vec();
    assert_eq!(
        find_ssh_key_in_ssh_config(&config, &b"git.example.com".to_vec()),
        Some(b"the_key".to_vec())
    );
}

#[test]
fn for_host_prefers_config_then_default() {
    let config = b"Host git.example.com\n  IdentityFile config_key\n".to_vec();
    assert_eq!(
        find_ssh_key_for_host(
            &b"git.example.com".to_vec(),
            Some(&config),
            Some(b"default_key".to_vec())
        ),
        Some(b"config_key".to_vec())
    );
    assert_eq!(
        find_ssh_key_for_host(
            &b"absent.example.com".to_vec(),
            Some(&config),
            Some(b"default_key".to_vec())
        ),
        Some(b"default_key".to_vec())
    );
    assert_eq!(
        find_ssh_key_for_host(&b"git.example.com".to_vec(), None, Some(b"default_key".to_vec())),
        Some(b"default_key".to_vec())
    );
    assert_eq!(find_ssh_key_for_host(&b"git.example.com".to_vec(), None, None), None);
}
