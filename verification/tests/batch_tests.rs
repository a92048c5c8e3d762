use gpm::batch::{
    build_batch_payload, parse_batch_response, batch_start, batch_step, BatchAction, BatchEvent,
    BatchRequest, BatchState, PostAuth,
};
use gpm::remote::RemoteUrl;
use gpm::Error;

fn remote_url(username: &str, host: &str, path: &str) -> RemoteUrl {
    RemoteUrl {
        scheme: b"ssh".to_vec(),
        username: username.as_bytes().to_vec(),
        password: None,
        host: host.as_bytes().to_vec(),
        port: None,
        path: path.as_bytes().to_vec(),
    }
}

fn request(refspec: Option<&str>) -> BatchRequest {
    BatchRequest {
        oid: "a".repeat(64).into_bytes(),
        size: 1024,
        refspec: refspec.map(|r| r.as_bytes().to_vec()),
    }
}

#[test]
fn payload_without_refspec_is_exact() {
    let payload = build_batch_payload(&request(None));
    let expected = format!(
        "{{\"operation\":\"download\",\"transfers\":[\"basic\"],\"objects\":[{{\"oid\":\"{}\",\"size\":1024}}]}}",
        "a".repeat(64)
    );
    assert_eq!(payload, expected.into_bytes());
}

#[test]
fn payload_with_refspec_is_exact() {
    let payload = build_batch_payload(&request(Some("refs/tags/pkg/1.0.0")));
    let expected = format!(
        "{{\"operation\":\"download\",\"transfers\":[\"basic\"],\"objects\":[{{\"oid\":\"{}\",\"size\":1024}}],\"ref\":{{\"name\":\"refs/tags/pkg/1.0.0\"}}}}",
        "a".repeat(64)
    );
    assert_eq!(payload, expected.into_bytes());
}

#[test]
fn payload_escapes_refspec() {
    let payload = build_batch_payload(&BatchRequest {
        oid: "b".repeat(64).into_bytes(),
        size: 1,
        refspec: Some(b"refs/tags/a\"b\\c".to_vec()),
    });
    let text = String::from_utf8(payload).unwrap();
    assert!(text.contains("\"name\":\"refs/tags/a\\\"b\\\\c\""));
}

#[test]
fn response_with_download_action_yields_link() {
    let body = br#"{
        "transfer": "basic",
        "objects": [
            {
                "oid": "aaaa",
                "size": 1024,
                "actions": {
                    "download": {
                        "href": "https://cdn.example.com/obj/1",
                        "header": {"Authorization": "RemoteAuth token-123"},
                        "expires_in": 3600
                    }
                }
            }
        ]
    }"#
        .to_vec();
    let link = parse_batch_response(&body).unwrap();
    assert_eq!(link.href, b"https://cdn.example.com/obj/1".to_vec());
    assert_eq!(link.header, Some(b"RemoteAuth token-123".to_vec()));
}

#[test]
fn response_without_header_yields_link_without_authorization() {
    let body = br#"{"objects":[{"actions":{"download":{"href":"https://x/y"}}}]}"#.to_vec();
    let link = parse_batch_response(&body).unwrap();
    assert_eq!(link.href, b"https://x/y".to_vec());
    assert_eq!(link.header, None);
}

#[test]
fn response_with_escaped_href_is_decoded() {
    let body = br#"{"objects":[{"actions":{"download":{"href":"https:\/\/x\/A"}}}]}"#.to_vec();
    let link = parse_batch_response(&body).unwrap();
    assert_eq!(link.href, b"https://x/A".to_vec());
}

#[test]
fn per_object_error_is_surfaced_with_code_and_message() {
    let body =
        br#"{"objects":[{"error":{"code":404,"message":"Object does not exist"}}]}"#.to_vec();
    match parse_batch_response(&body) {
        Err(Error::DownloadLink { code, message }) => {
            assert_eq!(code, 404);
            assert_eq!(message, b"Object does not exist".to_vec());
        },
        _ => panic!("expected a download-link error"),
    }
}

#[test]
fn bodies_without_required_fields_are_malformed() {
    for body in [
        &b"not json"[..],
        br#"{"objects":[]}"#,
        br#"{"objects":[{"actions":{"download":{}}}]}"#,
        br#"{"objects":[{"error":{"code":"high"}}]}"#,
        br#"{"objects":[{"error":{"code":40.4,"message":"x"}}]}"#,
        br#"{"objects":[{"error":{"code":-404,"message":"x"}}]}"#,
        br#"{"no_objects":true}"#,
    ] {
        assert!(matches!(
            parse_batch_response(&body.to_vec()),
            Err(Error::MalformedResponse)
        ));
    }
}

#[test]
fn start_posts_to_guessed_endpoint() {
    let repo = remote_url("", "example.com", "/user/repo.git");
    let (state, action) = batch_start(&request(None), &repo);
    assert!(matches!(state, BatchState::Unauthenticated));
    match action {
        BatchAction::Post { url, auth, body } => {
            assert_eq!(
                url,
                b"https://example.com/user/repo.git/info/lfs/objects/batch".to_vec()
            );
            assert!(matches!(auth, PostAuth::NoAuth));
            assert_eq!(body, build_batch_payload(&request(None)));
        },
        _ => panic!("expected a post"),
    }
}

#[test]
fn start_with_ssh_user_uses_that_user_as_basic_auth() {
    // An embedded username, the conventional `git` included, is applied as
    // HTTP basic auth on the unauthenticated attempt.
    let repo = remote_url("git", "example.com", "/user/repo.git");
    let (_, action) = batch_start(&request(None), &repo);
    match action {
        BatchAction::Post { auth, .. } => match auth {
            PostAuth::BasicAuth { username, password } => {
                assert_eq!(username, b"git".to_vec());
                assert_eq!(password, None);
            },
            _ => panic!("expected basic auth from the embedded username"),
        },
        _ => panic!("expected a post"),
    }
}

#[test]
fn start_uses_basic_auth_when_url_embeds_username() {
    let repo = RemoteUrl {
        scheme: b"https".to_vec(),
        username: b"alice".to_vec(),
        password: Some(b"s3cret".to_vec()),
        host: b"example.com".to_vec(),
        port: None,
        path: b"/user/repo.git".to_vec(),
    };
    let (_, action) = batch_start(&request(None), &repo);
    match action {
        BatchAction::Post { auth, .. } => match auth {
            PostAuth::BasicAuth { username, password } => {
                assert_eq!(username, b"alice".to_vec());
                assert_eq!(password, Some(b"s3cret".to_vec()));
            },
            _ => panic!("expected basic auth"),
        },
        _ => panic!("expected a post"),
    }
}

#[test]
fn first_401_triggers_exactly_one_authenticated_retry() {
    let req = request(Some("refs/heads/master"));
    let repo = remote_url("git", "example.com", "/user/repo.git");
    let (state, _) = batch_start(&req, &repo);

    // First 401: the machine asks for authentication, nothing else.
    let (state, action) = batch_step(
        state,
        BatchEvent::Response { status: 401, body: b"Unauthorized".to_vec() },
        &req,
    );
    assert!(matches!(state, BatchState::Authenticating));
    assert!(matches!(action, BatchAction::Authenticate));

    // The token leads to one retry against the authenticated href.
    let (state, action) = batch_step(
        state,
        BatchEvent::Token {
            header: Some(b"RemoteAuth abc".to_vec()),
            href: b"https://example.com/user/repo.git/info/lfs".to_vec(),
        },
        &req,
    );
    assert!(matches!(state, BatchState::Authenticated));
    match action {
        BatchAction::Post { url, auth, body } => {
            assert_eq!(
                url,
                b"https://example.com/user/repo.git/info/lfs/objects/batch".to_vec()
            );
            assert!(matches!(auth, PostAuth::TokenHeader { value } if value == b"RemoteAuth abc".to_vec()));
            assert_eq!(body, build_batch_payload(&req));
        },
        _ => panic!("expected the retry post"),
    }

    // A second 401 is terminal: an authentication error, not another loop.
    let (state, action) = batch_step(
        state,
        BatchEvent::Response { status: 401, body: b"still unauthorized".to_vec() },
        &req,
    );
    assert!(matches!(state, BatchState::Finished));
    match action {
        BatchAction::Done(Err(Error::Authentication { message })) => {
            assert_eq!(message, b"still unauthorized".to_vec());
        },
        _ => panic!("expected a terminal authentication error"),
    }
}

#[test]
fn non_401_failure_is_a_server_error() {
    let req = request(None);
    let repo = remote_url("git", "example.com", "/user/repo.git");
    let (state, _) = batch_start(&req, &repo);
    let (state, action) = batch_step(
        state,
        BatchEvent::Response { status: 500, body: b"boom".to_vec() },
        &req,
    );
    assert!(matches!(state, BatchState::Finished));
    match action {
        BatchAction::Done(Err(Error::Server { status, message })) => {
            assert_eq!(status, 500);
            assert_eq!(message, b"boom".to_vec());
        },
        _ => panic!("expected a server error"),
    }
}

#[test]
fn failed_token_exchange_is_terminal() {
    let req = request(None);
    let (state, action) = batch_step(
        BatchState::Authenticating,
        BatchEvent::TokenFailed { message: b"ssh auth failed".to_vec() },
        &req,
    );
    assert!(matches!(state, BatchState::Finished));
    assert!(matches!(action, BatchAction::Done(Err(Error::Authentication { .. }))));
}

#[test]
fn success_on_first_attempt_finishes_with_link() {
    let req = request(None);
    let repo = remote_url("git", "example.com", "/user/repo.git");
    let (state, _) = batch_start(&req, &repo);
    let body = br#"{"objects":[{"actions":{"download":{"href":"https://cdn/x"}}}]}"#.to_vec();
    let (state, action) = batch_step(state, BatchEvent::Response { status: 200, body }, &req);
    assert!(matches!(state, BatchState::Finished));
    match action {
        BatchAction::Done(Ok(link)) => assert_eq!(link.href, b"https://cdn/x".to_vec()),
        _ => panic!("expected success"),
    }
}
