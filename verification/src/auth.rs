//! The SSH token exchange: the remote command line that asks for a token,
//! and the reading of its JSON answer.

use vstd::prelude::*;
use crate::bytes::{ascii_bytes, concat_bytes};
use crate::json::{
    spec_parse_string, spec_find_member, spec_object_members, spec_root_members, parse_string,
    find_member, object_members, root_members,
};
use crate::remote::{RemoteUrl, spec_repo_path, repo_path};
use crate::{AuthToken, Error};

verus! {

use vstd::string::StringSliceAdditionalSpecFns;

/// The remote command executed over SSH:
/// `git-lfs-authenticate <path> <operation>`, with the repository path taken
/// from the remote URL without its leading slash.
pub open spec fn spec_auth_command(u: RemoteUrl, op: Seq<u8>) -> Seq<u8> {
    "git-lfs-authenticate ".spec_bytes() + spec_repo_path(u) + seq![' ' as u8] + op
}

/// Builds the `git-lfs-authenticate` command line.
pub fn build_auth_command(u: &RemoteUrl, op: &Vec<u8>) -> (r: Vec<u8>)
    ensures
        r@ == spec_auth_command(*u, op@),
{
    let mut r = ascii_bytes("git-lfs-authenticate ");
    r = concat_bytes(&r, &repo_path(u));
    r.push(' ' as u8);
    let r2 = concat_bytes(&r, op);
    assert(r2@ =~= spec_auth_command(*u, op@));
    r2
}

/// What the command's JSON output means: the required `href` and the
/// optional `header.Authorization`, or nothing when the shape is wrong.
pub open spec fn spec_auth_reply(s: Seq<u8>) -> Option<(Option<Seq<u8>>, Seq<u8>)> {
    match spec_root_members(s) {
        None => None,
        Some(root) => match spec_find_member(root, "href".spec_bytes()) {
            None => None,
            Some(ph) => match spec_parse_string(s, ph) {
                None => None,
                Some((href, _)) => match spec_find_member(root, "header".spec_bytes()) {
                    None => Some((None, href)),
                    Some(phd) => match spec_object_members(s, phd) {
                        None => None,
                        Some((hm, _)) => match spec_find_member(
                            hm,
                            "Authorization".spec_bytes(),
                        ) {
                            None => Some((None, href)),
                            Some(pau) => match spec_parse_string(s, pau) {
                                None => None,
                                Some((au, _)) => Some((Some(au), href)),
                            },
                        },
                    },
                },
            },
        },
    }
}

/// Reads the token exchange's output. Any departure from the expected JSON
/// shape is an authentication failure: this path only runs once a 401 made
/// authentication mandatory.
pub fn parse_auth_response(s: &Vec<u8>) -> (r: Result<AuthToken, Error>)
    ensures
        match r {
            Ok(t) => spec_auth_reply(s@) == Some((crate::spec_opt_bytes(t.header), t.href@)),
            Err(e) => e is Authentication && spec_auth_reply(s@) is None,
        },
{
    let root = match root_members(s) {
        Some(root) => root,
        None => {
            return Err(Error::Authentication { message: ascii_bytes("malformed token reply") });
        },
    };
    let ph = match find_member(&root, &ascii_bytes("href")) {
        Some(ph) => ph,
        None => {
            return Err(Error::Authentication { message: ascii_bytes("malformed token reply") });
        },
    };
    let (href, _j) = match parse_string(s, ph) {
        Some(x) => x,
        None => {
            return Err(Error::Authentication { message: ascii_bytes("malformed token reply") });
        },
    };
    let phd = match find_member(&root, &ascii_bytes("header")) {
        Some(phd) => phd,
        None => {
            return Ok(AuthToken { header: None, href });
        },
    };
    let (hm, _e) = match object_members(s, phd) {
        Some(x) => x,
        None => {
            return Err(Error::Authentication { message: ascii_bytes("malformed token reply") });
        },
    };
    let pau = match find_member(&hm, &ascii_bytes("Authorization")) {
        Some(pau) => pau,
        None => {
            return Ok(AuthToken { header: None, href });
        },
    };
    let (au, _j2) = match parse_string(s, pau) {
        Some(x) => x,
        None => {
            return Err(Error::Authentication { message: ascii_bytes("malformed token reply") });
        },
    };
    Ok(AuthToken { header: Some(au), href })
}

} // verus!
