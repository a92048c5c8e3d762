//! The LFS batch API: building the request payload, reading the response,
//! and the retry state machine around them.

use vstd::prelude::*;
use crate::bytes::{
    spec_dec_bytes, spec_hex_digit, ascii_bytes, concat_bytes, format_dec_u64,
};
use crate::json::{
    spec_parse_string, spec_parse_number, spec_find_member, spec_object_members,
    spec_array_elems, spec_root_members, parse_string, parse_number, find_member,
    object_members, array_elems, root_members,
};
use crate::remote::{RemoteUrl, spec_batch_endpoint, batch_endpoint};
use crate::{AuthToken, Error, SpecAuthToken, SpecError};

verus! {

use vstd::string::StringSliceAdditionalSpecFns;

/// One object to resolve: the pointer's digest and size, and the refspec the
/// request is made for, when one is known.
pub struct BatchRequest {
    pub oid: Vec<u8>,
    pub size: u64,
    pub refspec: Option<Vec<u8>>,
}

/// The ghost view of a request.
pub struct SpecBatchRequest {
    pub oid: Seq<u8>,
    pub size: u64,
    pub refspec: Option<Seq<u8>>,
}

impl View for BatchRequest {
    type V = SpecBatchRequest;

    open spec fn view(&self) -> SpecBatchRequest {
        SpecBatchRequest {
            oid: self.oid@,
            size: self.size,
            refspec: match self.refspec {
                Some(ref r) => Some(r@),
                None => None,
            },
        }
    }
}

/// The escape of one byte inside a JSON string: quote and backslash get a
/// backslash, control bytes become `\u00XX`, all else stands as it is.
pub open spec fn spec_escape_one(b: u8) -> Seq<u8> {
    if b == '"' as u8 {
        seq!['\\' as u8, '"' as u8]
    } else if b == '\\' as u8 {
        seq!['\\' as u8, '\\' as u8]
    } else if b < 0x20 {
        seq![
            '\\' as u8,
            'u' as u8,
            '0' as u8,
            '0' as u8,
            spec_hex_digit(b / 16),
            spec_hex_digit(b % 16),
        ]
    } else {
        seq![b]
    }
}

/// `s` written as the inside of a JSON string.
pub open spec fn spec_escape(s: Seq<u8>) -> Seq<u8>
    decreases s.len(),
{
    if s.len() == 0 {
        Seq::empty()
    } else {
        spec_escape(s.drop_last()) + spec_escape_one(s.last())
    }
}

/// Escapes `s` for inclusion in a JSON string.
pub fn escape_json(s: &Vec<u8>) -> (r: Vec<u8>)
    ensures
        r@ == spec_escape(s@),
{
    let mut r: Vec<u8> = Vec::new();
    let mut i: usize = 0;
    proof {
        assert(s@.subrange(0, 0) =~= Seq::<u8>::empty());
    }
    while i < s.len()
        invariant
            i <= s@.len(),
            r@ == spec_escape(s@.subrange(0, i as int)),
        decreases s@.len() - i,
    {
        let b = s[i];
        if b == '"' as u8 {
            r.push('\\' as u8);
            r.push('"' as u8);
        } else if b == '\\' as u8 {
            r.push('\\' as u8);
            r.push('\\' as u8);
        } else if b < 0x20 {
            r.push('\\' as u8);
            r.push('u' as u8);
            r.push('0' as u8);
            r.push('0' as u8);
            let hi = b / 16;
            let lo = b % 16;
            r.push(
                if hi < 10 {
                    0x30 + hi
                } else {
                    0x61 + (hi - 10)
                },
            );
            r.push(
                if lo < 10 {
                    0x30 + lo
                } else {
                    0x61 + (lo - 10)
                },
            );
        } else {
            r.push(b);
        }
        proof {
            let cur = s@.subrange(0, i + 1 as int);
            assert(cur.drop_last() =~= s@.subrange(0, i as int));
            assert(cur.last() == b);
            assert(r@ =~= spec_escape(s@.subrange(0, i as int)) + spec_escape_one(b));
        }
        i = i + 1;
    }
    proof {
        assert(s@.subrange(0, s@.len() as int) =~= s@);
    }
    r
}

/// The batch payload, byte for byte: the `download` operation, the `basic`
/// transfer, the one object, and the `ref` name when a refspec is known.
pub open spec fn spec_payload(req: SpecBatchRequest) -> Seq<u8> {
    "{\"operation\":\"download\",\"transfers\":[\"basic\"],\"objects\":[{\"oid\":\"".spec_bytes()
        + spec_escape(req.oid) + "\",\"size\":".spec_bytes() + spec_dec_bytes(req.size as nat)
        + "}]".spec_bytes() + (match req.refspec {
        Some(r) => ",\"ref\":{\"name\":\"".spec_bytes() + spec_escape(r) + "\"}".spec_bytes(),
        None => Seq::<u8>::empty(),
    }) + "}".spec_bytes()
}

/// Builds the batch payload.
pub fn build_batch_payload(req: &BatchRequest) -> (r: Vec<u8>)
    ensures
        r@ == spec_payload(req@),
{
    let mut r = ascii_bytes("{\"operation\":\"download\",\"transfers\":[\"basic\"],\"objects\":[{\"oid\":\"");
    r = concat_bytes(&r, &escape_json(&req.oid));
    r = concat_bytes(&r, &ascii_bytes("\",\"size\":"));
    r = concat_bytes(&r, &format_dec_u64(req.size));
    r = concat_bytes(&r, &ascii_bytes("}]"));
    match &req.refspec {
        Some(refspec) => {
            r = concat_bytes(&r, &ascii_bytes(",\"ref\":{\"name\":\""));
            r = concat_bytes(&r, &escape_json(refspec));
            r = concat_bytes(&r, &ascii_bytes("\"}"));
        },
        None => {},
    }
    r = concat_bytes(&r, &ascii_bytes("}"));
    assert(r@ =~= spec_payload(req@));
    r
}

/// What a 2xx batch response body means.
pub enum BatchReply {
    /// Not the JSON shape the protocol requires.
    Malformed,
    /// The server reported the object unavailable, with its code and
    /// message.
    ObjectError { code: u32, message: Seq<u8> },
    /// A download action: the URL and, when given, an Authorization value.
    Link { authorization: Option<Seq<u8>>, href: Seq<u8> },
}

/// The `error` member of the first object, when that member is present.
pub open spec fn spec_object_error(s: Seq<u8>, pe: int) -> BatchReply {
    match spec_object_members(s, pe) {
        None => BatchReply::Malformed,
        Some((em, _)) => match spec_find_member(em, "code".spec_bytes()) {
            None => BatchReply::Malformed,
            Some(pc) => match spec_parse_number(s, pc) {
                None => BatchReply::Malformed,
                Some((n, _)) => if n.exact && !n.neg && n.mag <= u32::MAX {
                    match spec_find_member(em, "message".spec_bytes()) {
                        None => BatchReply::Malformed,
                        Some(pm) => match spec_parse_string(s, pm) {
                            None => BatchReply::Malformed,
                            Some((msg, _)) => BatchReply::ObjectError {
                                code: n.mag as u32,
                                message: msg,
                            },
                        },
                    }
                } else {
                    BatchReply::Malformed
                },
            },
        },
    }
}

/// The `actions.download` member of the first object: its required `href`
/// and optional `header.Authorization`.
pub open spec fn spec_download_link(s: Seq<u8>, obj: Seq<(Seq<u8>, int)>) -> BatchReply {
    match spec_find_member(obj, "actions".spec_bytes()) {
        None => BatchReply::Malformed,
        Some(pa) => match spec_object_members(s, pa) {
            None => BatchReply::Malformed,
            Some((am, _)) => match spec_find_member(am, "download".spec_bytes()) {
                None => BatchReply::Malformed,
                Some(pd) => match spec_object_members(s, pd) {
                    None => BatchReply::Malformed,
                    Some((dm, _)) => match spec_find_member(dm, "href".spec_bytes()) {
                        None => BatchReply::Malformed,
                        Some(ph) => match spec_parse_string(s, ph) {
                            None => BatchReply::Malformed,
                            Some((href, _)) => match spec_find_member(
                                dm,
                                "header".spec_bytes(),
                            ) {
                                None => BatchReply::Link { authorization: None, href },
                                Some(phd) => match spec_object_members(s, phd) {
                                    None => BatchReply::Malformed,
                                    Some((hm, _)) => match spec_find_member(
                                        hm,
                                        "Authorization".spec_bytes(),
                                    ) {
                                        None => BatchReply::Link { authorization: None, href },
                                        Some(pau) => match spec_parse_string(s, pau) {
                                            None => BatchReply::Malformed,
                                            Some((au, _)) => BatchReply::Link {
                                                authorization: Some(au),
                                                href,
                                            },
                                        },
                                    },
                                },
                            },
                        },
                    },
                },
            },
        },
    }
}

/// What a whole 2xx response body means: `objects[0].error` wins over
/// `objects[0].actions.download`.
pub open spec fn spec_batch_reply(s: Seq<u8>) -> BatchReply {
    match spec_root_members(s) {
        None => BatchReply::Malformed,
        Some(root) => match spec_find_member(root, "objects".spec_bytes()) {
            None => BatchReply::Malformed,
            Some(po) => match spec_array_elems(s, po) {
                None => BatchReply::Malformed,
                Some((ps, _)) => if ps.len() == 0 {
                    BatchReply::Malformed
                } else {
                    match spec_object_members(s, ps[0]) {
                        None => BatchReply::Malformed,
                        Some((obj, _)) => match spec_find_member(obj, "error".spec_bytes()) {
                            Some(pe) => spec_object_error(s, pe),
                            None => spec_download_link(s, obj),
                        },
                    }
                },
            },
        },
    }
}

/// Reads the `error` object at `pe`.
fn object_error(s: &Vec<u8>, pe: usize) -> (r: Result<AuthToken, Error>)
    ensures
        match r {
            Ok(_) => false,
            Err(e) => match e {
                Error::DownloadLink { code, message } => spec_object_error(s@, pe as int)
                    == (BatchReply::ObjectError { code, message: message@ }),
                Error::MalformedResponse => spec_object_error(s@, pe as int) is Malformed,
                _ => false,
            },
        },
{
    let (em, _e) = match object_members(s, pe) {
        Some(x) => x,
        None => {
            return Err(Error::MalformedResponse);
        },
    };
    let pc = match find_member(&em, &ascii_bytes("code")) {
        Some(pc) => pc,
        None => {
            return Err(Error::MalformedResponse);
        },
    };
    let (n, _j) = match parse_number(s, pc) {
        Some(x) => x,
        None => {
            return Err(Error::MalformedResponse);
        },
    };
    if !(n.exact && !n.neg && n.mag <= u32::MAX as u64) {
        return Err(Error::MalformedResponse);
    }
    let pm = match find_member(&em, &ascii_bytes("message")) {
        Some(pm) => pm,
        None => {
            return Err(Error::MalformedResponse);
        },
    };
    let (msg, _j2) = match parse_string(s, pm) {
        Some(x) => x,
        None => {
            return Err(Error::MalformedResponse);
        },
    };
    Err(Error::DownloadLink { code: n.mag as u32, message: msg })
}

/// Reads `actions.download` out of the first object's members.
fn download_link(s: &Vec<u8>, obj: &Vec<(Vec<u8>, usize)>) -> (r: Result<AuthToken, Error>)
    ensures
        match r {
            Ok(t) => spec_download_link(s@, crate::json::spec_members_view(obj@))
                == (BatchReply::Link { authorization: crate::spec_opt_bytes(t.header), href: t.href@ }),
            Err(e) => e is MalformedResponse && spec_download_link(
                s@,
                crate::json::spec_members_view(obj@),
            ) is Malformed,
        },
{
    let pa = match find_member(obj, &ascii_bytes("actions")) {
        Some(pa) => pa,
        None => {
            return Err(Error::MalformedResponse);
        },
    };
    let (am, _e1) = match object_members(s, pa) {
        Some(x) => x,
        None => {
            return Err(Error::MalformedResponse);
        },
    };
    let pd = match find_member(&am, &ascii_bytes("download")) {
        Some(pd) => pd,
        None => {
            return Err(Error::MalformedResponse);
        },
    };
    let (dm, _e2) = match object_members(s, pd) {
        Some(x) => x,
        None => {
            return Err(Error::MalformedResponse);
        },
    };
    let ph = match find_member(&dm, &ascii_bytes("href")) {
        Some(ph) => ph,
        None => {
            return Err(Error::MalformedResponse);
        },
    };
    let (href, _j) = match parse_string(s, ph) {
        Some(x) => x,
        None => {
            return Err(Error::MalformedResponse);
        },
    };
    let phd = match find_member(&dm, &ascii_bytes("header")) {
        Some(phd) => phd,
        None => {
            return Ok(AuthToken { header: None, href });
        },
    };
    let (hm, _e3) = match object_members(s, phd) {
        Some(x) => x,
        None => {
            return Err(Error::MalformedResponse);
        },
    };
    let pau = match find_member(&hm, &ascii_bytes("Authorization")) {
        Some(pau) => pau,
        None => {
            return Ok(AuthToken { header: None, href });
        },
    };
    let (au, _j2) = match parse_string(s, pau) {
        Some(x) => x,
        None => {
            return Err(Error::MalformedResponse);
        },
    };
    Ok(AuthToken { header: Some(au), href })
}

/// Reads a 2xx batch response body: the download link on success, the
/// server's per-object error when it reports one, `MalformedResponse` when
/// the body does not have the protocol's shape.
pub fn parse_batch_response(s: &Vec<u8>) -> (r: Result<AuthToken, Error>)
    ensures
        match r {
            Ok(t) => spec_batch_reply(s@) == (BatchReply::Link {
                authorization: crate::spec_opt_bytes(t.header),
                href: t.href@,
            }),
            Err(e) => match e {
                Error::DownloadLink { code, message } => spec_batch_reply(s@)
                    == (BatchReply::ObjectError { code, message: message@ }),
                Error::MalformedResponse => spec_batch_reply(s@) is Malformed,
                _ => false,
            },
        },
{
    let root = match root_members(s) {
        Some(root) => root,
        None => {
            return Err(Error::MalformedResponse);
        },
    };
    let po = match find_member(&root, &ascii_bytes("objects")) {
        Some(po) => po,
        None => {
            return Err(Error::MalformedResponse);
        },
    };
    let (ps, _e) = match array_elems(s, po) {
        Some(x) => x,
        None => {
            return Err(Error::MalformedResponse);
        },
    };
    if ps.len() == 0 {
        return Err(Error::MalformedResponse);
    }
    let p0 = ps[0];
    assert(ps@.map_values(|x: usize| x as int)[0] == p0 as int);
    let (obj, _e2) = match object_members(s, p0) {
        Some(x) => x,
        None => {
            return Err(Error::MalformedResponse);
        },
    };
    match find_member(&obj, &ascii_bytes("error")) {
        Some(pe) => object_error(s, pe),
        None => download_link(s, &obj),
    }
}

/// Where a resolution stands.
#[derive(PartialEq, Eq, Structural, Clone, Copy, Debug)]
pub enum BatchState {
    /// The first, unauthenticated request has been issued.
    Unauthenticated,
    /// A 401 came back; the SSH token exchange is under way.
    Authenticating,
    /// The one authenticated retry has been issued.
    Authenticated,
    /// A terminal outcome has been produced.
    Finished,
}

/// How a batch POST authenticates.
pub enum PostAuth {
    NoAuth,
    /// HTTP basic auth from a username embedded in the remote URL.
    BasicAuth { username: Vec<u8>, password: Option<Vec<u8>> },
    /// An Authorization header from the SSH token exchange.
    TokenHeader { value: Vec<u8> },
}

/// The ghost mirror of `PostAuth`.
pub enum SpecPostAuth {
    NoAuth,
    BasicAuth { username: Seq<u8>, password: Option<Seq<u8>> },
    TokenHeader { value: Seq<u8> },
}

impl View for PostAuth {
    type V = SpecPostAuth;

    open spec fn view(&self) -> SpecPostAuth {
        match self {
            PostAuth::NoAuth => SpecPostAuth::NoAuth,
            PostAuth::BasicAuth { username, password } => SpecPostAuth::BasicAuth {
                username: username@,
                password: crate::spec_opt_bytes(*password),
            },
            PostAuth::TokenHeader { value } => SpecPostAuth::TokenHeader { value: value@ },
        }
    }
}

/// What the unverified driver reports back to the state machine.
pub enum BatchEvent {
    /// An HTTP response to the pending batch POST.
    Response { status: u16, body: Vec<u8> },
    /// The SSH token exchange succeeded.
    Token { header: Option<Vec<u8>>, href: Vec<u8> },
    /// The SSH token exchange failed.
    TokenFailed { message: Vec<u8> },
}

/// The ghost mirror of `BatchEvent`.
pub enum SpecBatchEvent {
    Response { status: u16, body: Seq<u8> },
    Token { header: Option<Seq<u8>>, href: Seq<u8> },
    TokenFailed { message: Seq<u8> },
}

impl View for BatchEvent {
    type V = SpecBatchEvent;

    open spec fn view(&self) -> SpecBatchEvent {
        match self {
            BatchEvent::Response { status, body } => SpecBatchEvent::Response {
                status: *status,
                body: body@,
            },
            BatchEvent::Token { header, href } => SpecBatchEvent::Token {
                header: crate::spec_opt_bytes(*header),
                href: href@,
            },
            BatchEvent::TokenFailed { message } => SpecBatchEvent::TokenFailed {
                message: message@,
            },
        }
    }
}

/// What the driver must do next.
pub enum BatchAction {
    /// POST `body` to `url` with the given authentication.
    Post { url: Vec<u8>, auth: PostAuth, body: Vec<u8> },
    /// Resolve a credential and run the SSH token exchange.
    Authenticate,
    /// The resolution is over, with this outcome.
    Done(Result<AuthToken, Error>),
}

/// The ghost mirror of `BatchAction`.
pub enum SpecBatchAction {
    Post { url: Seq<u8>, auth: SpecPostAuth, body: Seq<u8> },
    Authenticate,
    Done(Result<SpecAuthToken, SpecError>),
}

/// The ghost view of a `Done` payload.
pub open spec fn spec_outcome_view(r: Result<AuthToken, Error>) -> Result<
    SpecAuthToken,
    SpecError,
> {
    match r {
        Ok(t) => Ok(t@),
        Err(e) => Err(e@),
    }
}

impl View for BatchAction {
    type V = SpecBatchAction;

    open spec fn view(&self) -> SpecBatchAction {
        match self {
            BatchAction::Post { url, auth, body } => SpecBatchAction::Post {
                url: url@,
                auth: auth@,
                body: body@,
            },
            BatchAction::Authenticate => SpecBatchAction::Authenticate,
            BatchAction::Done(r) => SpecBatchAction::Done(spec_outcome_view(*r)),
        }
    }
}

/// The authentication the first POST carries: basic auth when the remote
/// URL embeds a username, none otherwise.
pub open spec fn spec_start_auth(u: RemoteUrl) -> SpecPostAuth {
    if u.username@.len() > 0 {
        SpecPostAuth::BasicAuth {
            username: u.username@,
            password: crate::spec_opt_bytes(u.password),
        }
    } else {
        SpecPostAuth::NoAuth
    }
}

/// The outcome a 2xx body decides.
pub open spec fn spec_reply_outcome(body: Seq<u8>) -> Result<SpecAuthToken, SpecError> {
    match spec_batch_reply(body) {
        BatchReply::Link { authorization, href } => Ok(
            SpecAuthToken { header: authorization, href },
        ),
        BatchReply::ObjectError { code, message } => Err(
            SpecError::DownloadLink { code, message },
        ),
        BatchReply::Malformed => Err(SpecError::MalformedResponse),
    }
}

/// Which events each state accepts.
pub open spec fn spec_step_enabled(state: BatchState, event: SpecBatchEvent) -> bool {
    match (state, event) {
        (BatchState::Unauthenticated, SpecBatchEvent::Response { .. }) => true,
        (BatchState::Authenticating, SpecBatchEvent::Token { .. }) => true,
        (BatchState::Authenticating, SpecBatchEvent::TokenFailed { .. }) => true,
        (BatchState::Authenticated, SpecBatchEvent::Response { .. }) => true,
        _ => false,
    }
}

/// The transition relation. A 401 on the first attempt asks for
/// authentication; a 401 on the retry, or a failed token exchange, is a
/// terminal authentication error; any other non-2xx status is a terminal
/// server error; a 2xx body decides the outcome at either stage.
pub open spec fn spec_batch_step(
    state: BatchState,
    event: SpecBatchEvent,
    req: SpecBatchRequest,
) -> (BatchState, SpecBatchAction)
    recommends
        spec_step_enabled(state, event),
{
    match (state, event) {
        (BatchState::Unauthenticated, SpecBatchEvent::Response { status, body }) => {
            if 200 <= status < 300 {
                (BatchState::Finished, SpecBatchAction::Done(spec_reply_outcome(body)))
            } else if status == 401 {
                (BatchState::Authenticating, SpecBatchAction::Authenticate)
            } else {
                (
                    BatchState::Finished,
                    SpecBatchAction::Done(Err(SpecError::Server { status, message: body })),
                )
            }
        },
        (BatchState::Authenticating, SpecBatchEvent::Token { header, href }) => (
            BatchState::Authenticated,
            SpecBatchAction::Post {
                url: href + "/objects/batch".spec_bytes(),
                auth: match header {
                    Some(h) => SpecPostAuth::TokenHeader { value: h },
                    None => SpecPostAuth::NoAuth,
                },
                body: spec_payload(req),
            },
        ),
        (BatchState::Authenticating, SpecBatchEvent::TokenFailed { message }) => (
            BatchState::Finished,
            SpecBatchAction::Done(Err(SpecError::Authentication { message })),
        ),
        (BatchState::Authenticated, SpecBatchEvent::Response { status, body }) => {
            if 200 <= status < 300 {
                (BatchState::Finished, SpecBatchAction::Done(spec_reply_outcome(body)))
            } else if status == 401 {
                (
                    BatchState::Finished,
                    SpecBatchAction::Done(Err(SpecError::Authentication { message: body })),
                )
            } else {
                (
                    BatchState::Finished,
                    SpecBatchAction::Done(Err(SpecError::Server { status, message: body })),
                )
            }
        },
        _ => (BatchState::Finished, SpecBatchAction::Done(Err(SpecError::MalformedResponse))),
    }
}

/// Opens a resolution: the state machine's first state and the
/// unauthenticated POST, aimed at the guessed endpoint, carrying basic auth
/// exactly when the remote URL embeds a username.
pub fn batch_start(req: &BatchRequest, repository: &RemoteUrl) -> (r: (BatchState, BatchAction))
    ensures
        r.0 == BatchState::Unauthenticated,
        r.1@ == (SpecBatchAction::Post {
            url: spec_batch_endpoint(*repository),
            auth: spec_start_auth(*repository),
            body: spec_payload(req@),
        }),
{
    let url = batch_endpoint(repository);
    let body = build_batch_payload(req);
    let auth = if repository.username.len() > 0 {
        PostAuth::BasicAuth {
            username: repository.username.clone(),
            password: match &repository.password {
                Some(p) => Some(p.clone()),
                None => None,
            },
        }
    } else {
        PostAuth::NoAuth
    };
    (BatchState::Unauthenticated, BatchAction::Post { url, auth, body })
}

/// Feeds the state machine one event.
pub fn batch_step(state: BatchState, event: BatchEvent, req: &BatchRequest) -> (r: (
    BatchState,
    BatchAction,
))
    requires
        spec_step_enabled(state, event@),
    ensures
        r.0 == spec_batch_step(state, event@, req@).0,
        r.1@ == spec_batch_step(state, event@, req@).1,
{
    match (state, event) {
        (BatchState::Unauthenticated, BatchEvent::Response { status, body }) => {
            if 200 <= status && status < 300 {
                (BatchState::Finished, BatchAction::Done(parse_batch_response(&body)))
            } else if status == 401 {
                (BatchState::Authenticating, BatchAction::Authenticate)
            } else {
                (
                    BatchState::Finished,
                    BatchAction::Done(Err(Error::Server { status, message: body })),
                )
            }
        },
        (BatchState::Authenticating, BatchEvent::Token { header, href }) => {
            let url = concat_bytes(&href, &ascii_bytes("/objects/batch"));
            let auth = match header {
                Some(h) => PostAuth::TokenHeader { value: h },
                None => PostAuth::NoAuth,
            };
            let body = build_batch_payload(req);
            (BatchState::Authenticated, BatchAction::Post { url, auth, body })
        },
        (BatchState::Authenticating, BatchEvent::TokenFailed { message }) => (
            BatchState::Finished,
            BatchAction::Done(Err(Error::Authentication { message })),
        ),
        (BatchState::Authenticated, BatchEvent::Response { status, body }) => {
            if 200 <= status && status < 300 {
                (BatchState::Finished, BatchAction::Done(parse_batch_response(&body)))
            } else if status == 401 {
                (
                    BatchState::Finished,
                    BatchAction::Done(Err(Error::Authentication { message: body })),
                )
            } else {
                (
                    BatchState::Finished,
                    BatchAction::Done(Err(Error::Server { status, message: body })),
                )
            }
        },
        _ => {
            proof {
                assert(false);
            }
            (BatchState::Finished, BatchAction::Done(Err(Error::MalformedResponse)))
        },
    }
}

/// How many more POSTs a state may still issue.
pub open spec fn spec_posts_budget(state: BatchState) -> nat {
    match state {
        BatchState::Unauthenticated => 1,
        BatchState::Authenticating => 1,
        BatchState::Authenticated => 0,
        BatchState::Finished => 0,
    }
}

/// The POST budget never grows, and every POST action spends it: since the
/// opening state's budget is 1, a resolution issues at most one POST beyond
/// the opening one, so at most two in all.
pub proof fn lemma_budget_spent(state: BatchState, event: SpecBatchEvent, req: SpecBatchRequest)
    requires
        spec_step_enabled(state, event),
    ensures
        spec_posts_budget(spec_batch_step(state, event, req).0) <= spec_posts_budget(state),
        spec_batch_step(state, event, req).1 is Post ==> spec_posts_budget(
            spec_batch_step(state, event, req).0,
        ) < spec_posts_budget(state),
{
}

/// The actions a run of the machine produces: the fold of `spec_batch_step`
/// over a sequence of events, stopping at the first event the current state
/// does not accept.
pub open spec fn spec_run_actions(
    state: BatchState,
    events: Seq<SpecBatchEvent>,
    req: SpecBatchRequest,
) -> Seq<SpecBatchAction>
    decreases events.len(),
{
    if events.len() == 0 || !spec_step_enabled(state, events[0]) {
        Seq::empty()
    } else {
        seq![spec_batch_step(state, events[0], req).1] + spec_run_actions(
            spec_batch_step(state, events[0], req).0,
            events.drop_first(),
            req,
        )
    }
}

/// How many of a run's actions are POSTs.
pub open spec fn spec_count_posts(actions: Seq<SpecBatchAction>) -> nat
    decreases actions.len(),
{
    if actions.len() == 0 {
        0
    } else {
        (if actions[0] is Post {
            1nat
        } else {
            0nat
        }) + spec_count_posts(actions.drop_first())
    }
}

/// Whatever events the server and the token exchange produce, a run from
/// any state issues no more POSTs than that state's budget: from the
/// opening state, at most one beyond the POST that opened the resolution —
/// the retry is never repeated or looped.
pub proof fn lemma_run_posts_bounded(
    state: BatchState,
    events: Seq<SpecBatchEvent>,
    req: SpecBatchRequest,
)
    ensures
        spec_count_posts(spec_run_actions(state, events, req)) <= spec_posts_budget(state),
    decreases events.len(),
{
    if events.len() > 0 && spec_step_enabled(state, events[0]) {
        let next = spec_batch_step(state, events[0], req);
        lemma_budget_spent(state, events[0], req);
        lemma_run_posts_bounded(next.0, events.drop_first(), req);
        let actions = spec_run_actions(state, events, req);
        assert(actions.drop_first() =~= spec_run_actions(next.0, events.drop_first(), req));
    }
}

/// A finished resolution accepts no further event.
pub proof fn lemma_finished_is_terminal(event: SpecBatchEvent)
    ensures
        !spec_step_enabled(BatchState::Finished, event),
{
}

/// The authenticated retry happens exactly once: a first 401 asks for
/// authentication, the token leads to exactly one more POST, and a second
/// 401 is a terminal authentication error carrying the server's body —
/// never another attempt.
pub proof fn lemma_retry_exactly_once(
    req: SpecBatchRequest,
    body1: Seq<u8>,
    header: Option<Seq<u8>>,
    href: Seq<u8>,
    body2: Seq<u8>,
)
    ensures
        spec_batch_step(
            BatchState::Unauthenticated,
            SpecBatchEvent::Response { status: 401, body: body1 },
            req,
        ) == (BatchState::Authenticating, SpecBatchAction::Authenticate),
        spec_batch_step(BatchState::Authenticating, SpecBatchEvent::Token { header, href }, req).0
            == BatchState::Authenticated,
        spec_batch_step(BatchState::Authenticating, SpecBatchEvent::Token { header, href }, req).1
            is Post,
        spec_batch_step(
            BatchState::Authenticated,
            SpecBatchEvent::Response { status: 401, body: body2 },
            req,
        ) == (
            BatchState::Finished,
            SpecBatchAction::Done(
                Err::<SpecAuthToken, SpecError>(SpecError::Authentication { message: body2 }),
            ),
        ),
{
}

} // verus!
