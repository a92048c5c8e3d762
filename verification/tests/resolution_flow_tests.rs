//! End-to-end drives of the resolution flow, with the transport simulated:
//! pointer file in, state machine through a 401 and an authenticated
//! retry, and the downloaded bytes held to the pointer's oid.

use gpm::batch::{batch_start, batch_step, BatchAction, BatchEvent, BatchRequest, BatchState};
use gpm::integrity::{get_oid, verify_lfs_object};
use gpm::pointer::parse_lfs_link_file;
use gpm::remote::RemoteUrl;
use gpm::Error;

fn remote_url(username: &str, host: &str, path: &str) -> RemoteUrl {
    RemoteUrl {
        scheme: b"ssh".to_vec(),
        username: username.as_bytes().to_vec(),
        password: None,
        host: host.as_bytes().to_vec(),
        port: None,
        path: path.as_bytes().to_vec(),
    }
}

fn pointer_file(oid: &[u8], size: u64) -> Vec<u8> {
    let mut v = Vec::new();
    v.extend_from_slice(b"version https://git-lfs.github.com/spec/v1\n");
    v.extend_from_slice(b"oid sha256:");
    v.extend_from_slice(oid);
    v.extend_from_slice(format!("\nsize {}\n", size).into_bytes().as_slice());
    v
}

#[test]
fn full_resolution_with_one_retry_succeeds() {
    // 1024 bytes of content, and a pointer naming their true digest.
    let content: Vec<u8> = (0..1024u32).map(|i| (i * 7 % 256) as u8).collect();
    let oid = get_oid(&content);
    let pointer = parse_lfs_link_file(&pointer_file(&oid, 1024)).unwrap().unwrap();
    assert_eq!(pointer.size, 1024);

    let repo = remote_url("", "example.com", "/user/repo.git");
    let req = BatchRequest {
        oid: pointer.oid.clone(),
        size: pointer.size,
        refspec: Some(b"refs/tags/pkg/1.0.0".to_vec()),
    };

    // Unauthenticated attempt; the server answers 401.
    let (state, action) = batch_start(&req, &repo);
    assert!(matches!(action, BatchAction::Post { .. }));
    let (state, action) = batch_step(
        state,
        BatchEvent::Response { status: 401, body: b"Unauthorized".to_vec() },
        &req,
    );
    assert!(matches!(action, BatchAction::Authenticate));

    // The SSH exchange hands back a token; the retry is posted.
    let (state, action) = batch_step(
        state,
        BatchEvent::Token {
            header: Some(b"RemoteAuth ok".to_vec()),
            href: b"https://example.com/user/repo.git/info/lfs".to_vec(),
        },
        &req,
    );
    assert!(matches!(action, BatchAction::Post { .. }));

    // The authenticated batch call succeeds with a download href.
    let body =
        br#"{"objects":[{"actions":{"download":{"href":"https://cdn.example.com/obj"}}}]}"#
            .to_vec();
    let (state, action) = batch_step(state, BatchEvent::Response { status: 200, body }, &req);
    assert!(matches!(state, BatchState::Finished));
    let link = match action {
        BatchAction::Done(Ok(link)) => link,
        _ => panic!("expected a download link"),
    };
    assert_eq!(link.href, b"https://cdn.example.com/obj".to_vec());

    // The "downloaded" bytes hash to the pointer's oid: overall success.
    assert!(verify_lfs_object(&content, &pointer.oid).is_ok());
}

#[test]
fn full_resolution_with_corrupted_download_is_an_integrity_violation() {
    let content: Vec<u8> = (0..1024u32).map(|i| (i * 7 % 256) as u8).collect();
    let oid = get_oid(&content);
    let pointer = parse_lfs_link_file(&pointer_file(&oid, 1024)).unwrap().unwrap();

    // Same flow, but the download produced 1024 bytes with one byte off.
    let mut corrupted = content.clone();
    corrupted[100] = corrupted[100].wrapping_add(1);
    assert_eq!(corrupted.len(), 1024);
    match verify_lfs_object(&corrupted, &pointer.oid) {
        Err(Error::IntegrityViolation { expected, actual }) => {
            assert_eq!(expected, pointer.oid);
            assert_ne!(actual, expected);
        },
        _ => panic!("corrupted bytes must not be treated as valid content"),
    }
}
