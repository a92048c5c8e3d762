use gpm::auth::{build_auth_command, parse_auth_response};
use gpm::remote::RemoteUrl;
use gpm::Error;

#[test]
fn auth_command_strips_leading_slash_and_names_operation() {
    let u = RemoteUrl {
        scheme: b"ssh".to_vec(),
        username: b"git".to_vec(),
        password: None,
        host: b"example.com".to_vec(),
        port: None,
        path: b"/user/repo.git".to_vec(),
    };
    assert_eq!(
        build_auth_command(&u, &b"download".to_vec()),
        b"git-lfs-authenticate user/repo.git download".to_vec()
    );
}

#[test]
fn token_reply_with_header_and_href() {
    let body = br#"{"header":{"Authorization":"RemoteAuth token-abc123"},"href":"https://example.com/user/repo.git/info/lfs"}"#.to_vec();
    let t = parse_auth_response(&body).unwrap();
    assert_eq!(t.header, Some(b"RemoteAuth token-abc123".to_vec()));
    assert_eq!(t.href, b"https://example.com/user/repo.git/info/lfs".to_vec());
}

#[test]
fn token_reply_without_header_is_accepted() {
    let body = br#"{"href":"https://example.com/lfs"}"#.to_vec();
    let t = parse_auth_response(&body).unwrap();
    assert_eq!(t.header, None);
}

#[test]
fn token_reply_without_href_is_an_authentication_failure() {
    let body = br#"{"header":{"Authorization":"x"}}"#.to_vec();
    assert!(matches!(parse_auth_response(&body), Err(Error::Authentication { .. })));
}

#[test]
fn garbage_token_reply_is_an_authentication_failure() {
    assert!(matches!(
        parse_auth_response(&b"ERROR: not a json document".to_vec()),
        Err(Error::Authentication { .. })
    ));
}
