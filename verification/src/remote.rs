//! A model of the parts of a Git remote URL that LFS resolution reads, and
//! the derivation of the LFS batch endpoint from it.

use vstd::prelude::*;
use crate::bytes::{
    spec_ends_with, spec_dec_bytes, ascii_bytes, concat_bytes, ends_with, format_dec_u64,
    sub_bytes,
};

verus! {

use vstd::string::StringSliceAdditionalSpecFns;

/// The components of a Git remote URL that this crate's logic reads.
///
/// An empty `username` means none; `path` is as the URL parser reports it,
/// beginning with `/` when there is one. Query and fragment play no part in
/// LFS resolution and are not modeled.
pub struct RemoteUrl {
    pub scheme: Vec<u8>,
    pub username: Vec<u8>,
    pub password: Option<Vec<u8>>,
    pub host: Vec<u8>,
    pub port: Option<u16>,
    pub path: Vec<u8>,
}

/// `https://`
pub open spec fn spec_https_scheme() -> Seq<u8> {
    "https://".spec_bytes()
}

/// `.git`
pub open spec fn spec_dot_git() -> Seq<u8> {
    ".git".spec_bytes()
}

/// `/info/lfs`
pub open spec fn spec_info_lfs() -> Seq<u8> {
    "/info/lfs".spec_bytes()
}

/// `.git/info/lfs`
pub open spec fn spec_dot_git_info_lfs() -> Seq<u8> {
    ".git/info/lfs".spec_bytes()
}

/// `/objects/batch`
pub open spec fn spec_objects_batch() -> Seq<u8> {
    "/objects/batch".spec_bytes()
}

/// The `user[:password]@` part, or nothing when the username is empty.
pub open spec fn spec_userinfo(u: RemoteUrl) -> Seq<u8> {
    if u.username@.len() == 0 {
        Seq::empty()
    } else {
        match u.password {
            Some(p) => u.username@ + seq![':' as u8] + p@ + seq!['@' as u8],
            None => u.username@ + seq!['@' as u8],
        }
    }
}

/// The remote rewritten to the `https` scheme with any explicit port
/// removed, userinfo kept.
pub open spec fn spec_https_string(u: RemoteUrl) -> Seq<u8> {
    spec_https_scheme() + spec_userinfo(u) + u.host@ + u.path@
}

/// The same rewrite with the userinfo dropped, as sent on the wire.
pub open spec fn spec_sanitized_https_string(u: RemoteUrl) -> Seq<u8> {
    spec_https_scheme() + u.host@ + u.path@
}

/// The LFS suffix rule: a URL already ending in `.git` gains `/info/lfs`,
/// any other gains `.git/info/lfs`.
pub open spec fn spec_lfs_suffix(s: Seq<u8>) -> Seq<u8> {
    if spec_ends_with(s, spec_dot_git()) {
        s + spec_info_lfs()
    } else {
        s + spec_dot_git_info_lfs()
    }
}

/// The guessed LFS base URL of a remote: its https rewrite plus the suffix
/// rule.
pub open spec fn spec_guess_lfs_url(u: RemoteUrl) -> Seq<u8> {
    spec_lfs_suffix(spec_https_string(u))
}

/// The batch endpoint actually posted to: as the guess, but without
/// userinfo, and with `/objects/batch` appended.
pub open spec fn spec_batch_endpoint(u: RemoteUrl) -> Seq<u8> {
    spec_lfs_suffix(spec_sanitized_https_string(u)) + spec_objects_batch()
}

/// Serializes the https rewrite, with or without userinfo.
fn https_string(u: &RemoteUrl, with_userinfo: bool) -> (r: Vec<u8>)
    ensures
        with_userinfo ==> r@ == spec_https_string(*u),
        !with_userinfo ==> r@ == spec_sanitized_https_string(*u),
{
    let mut r = ascii_bytes("https://");
    if with_userinfo && u.username.len() > 0 {
        r = concat_bytes(&r, &u.username);
        match &u.password {
            Some(p) => {
                r.push(':' as u8);
                r = concat_bytes(&r, p);
                r.push('@' as u8);
                assert(r@ =~= spec_https_scheme() + spec_userinfo(*u));
            },
            None => {
                r.push('@' as u8);
                assert(r@ =~= spec_https_scheme() + spec_userinfo(*u));
            },
        }
    } else {
        assert(with_userinfo ==> r@ =~= spec_https_scheme() + spec_userinfo(*u));
    }
    r = concat_bytes(&r, &u.host);
    r = concat_bytes(&r, &u.path);
    proof {
        if with_userinfo {
            assert(r@ =~= spec_https_string(*u));
        } else {
            assert(r@ =~= spec_sanitized_https_string(*u));
        }
    }
    r
}

/// Appends the LFS suffix rule to a serialized URL.
fn push_lfs_suffix(s: Vec<u8>) -> (r: Vec<u8>)
    ensures
        r@ == spec_lfs_suffix(s@),
{
    let dot_git = ascii_bytes(".git");
    if ends_with(&s, &dot_git) {
        concat_bytes(&s, &ascii_bytes("/info/lfs"))
    } else {
        concat_bytes(&s, &ascii_bytes(".git/info/lfs"))
    }
}

/// Derives the LFS base URL from a Git remote by convention: force `https`,
/// drop any explicit port, and apply the `.git` suffix rule. Used only for
/// the unauthenticated first attempt.
pub fn guess_lfs_url(repository: &RemoteUrl) -> (r: Vec<u8>)
    ensures
        r@ == spec_guess_lfs_url(*repository),
{
    push_lfs_suffix(https_string(repository, true))
}

/// The exact URL the batch request is posted to: the sanitized guess plus
/// `/objects/batch`.
pub fn batch_endpoint(repository: &RemoteUrl) -> (r: Vec<u8>)
    ensures
        r@ == spec_batch_endpoint(*repository),
{
    concat_bytes(&push_lfs_suffix(https_string(repository, false)), &ascii_bytes("/objects/batch"))
}

/// `host:port`, with 22 as the default port, for the SSH token exchange.
pub open spec fn spec_host_and_port(u: RemoteUrl) -> Seq<u8> {
    u.host@ + seq![':' as u8] + spec_dec_bytes(
        (match u.port {
            Some(p) => p as nat,
            None => 22,
        }),
    )
}

/// Writes `host:port` for the SSH connection, defaulting to port 22.
pub fn host_and_port(u: &RemoteUrl) -> (r: Vec<u8>)
    requires
        u.host@.len() > 0,
    ensures
        r@ == spec_host_and_port(*u),
{
    let mut r = u.host.clone();
    r.push(':' as u8);
    let port: u64 = match u.port {
        Some(p) => p as u64,
        None => 22,
    };
    let r2 = concat_bytes(&r, &format_dec_u64(port));
    assert(r2@ =~= spec_host_and_port(*u));
    r2
}

/// The repository path handed to `git-lfs-authenticate`: the URL path with
/// its leading slash stripped.
pub open spec fn spec_repo_path(u: RemoteUrl) -> Seq<u8> {
    if u.path@.len() > 0 && u.path@[0] == '/' as u8 {
        u.path@.subrange(1, u.path@.len() as int)
    } else {
        u.path@
    }
}

/// Strips the leading slash from the remote's path.
pub fn repo_path(u: &RemoteUrl) -> (r: Vec<u8>)
    ensures
        r@ == spec_repo_path(*u),
{
    if u.path.len() > 0 && u.path[0] == '/' as u8 {
        sub_bytes(&u.path, 1, u.path.len())
    } else {
        u.path.clone()
    }
}

} // verus!
