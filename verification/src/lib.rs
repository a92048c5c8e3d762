//! Resolution of Git LFS pointer files into verified content, together with
//! the SSH credential resolution that the authenticated retry path needs.
//!
//! The crate covers the pointer file format, LFS server URL derivation from a
//! Git remote, the JSON batch protocol with its single authenticated retry,
//! download integrity checking by SHA-256, SSH client configuration lookup,
//! and detection of passphrase-protected private keys.

pub mod auth;
pub mod batch;
pub mod bytes;
pub mod commands;
pub mod credential;
pub mod integrity;
pub mod json;
pub mod keyscan;
pub mod pointer;
pub mod remote;
pub mod sshcfg;

use vstd::prelude::*;

verus! {

/// Errors of the LFS resolution core.
///
/// Transport failures (socket errors and the like) belong to the unverified
/// driver; this enum covers the outcomes that the protocol logic itself
/// decides.
#[derive(Debug)]
pub enum Error {
    /// A file had the LFS pointer version line but a broken oid or size line.
    MalformedPointer,
    /// The server answered 401 on the authenticated retry, or the token
    /// exchange failed: authentication is refused.
    Authentication { message: Vec<u8> },
    /// A non-2xx, non-401 HTTP status from the batch endpoint.
    Server { status: u16, message: Vec<u8> },
    /// The batch API reported a per-object error.
    DownloadLink { code: u32, message: Vec<u8> },
    /// A 2xx response body that does not carry the required JSON fields.
    MalformedResponse,
    /// The downloaded bytes hash to a different digest than the pointer's oid.
    IntegrityViolation { expected: Vec<u8>, actual: Vec<u8> },
}

/// The ghost view of an optional byte string.
pub open spec fn spec_opt_bytes(o: Option<Vec<u8>>) -> Option<Seq<u8>> {
    match o {
        Some(v) => Some(v@),
        None => None,
    }
}

/// The ghost mirror of `Error`.
pub enum SpecError {
    MalformedPointer,
    Authentication { message: Seq<u8> },
    Server { status: u16, message: Seq<u8> },
    DownloadLink { code: u32, message: Seq<u8> },
    MalformedResponse,
    IntegrityViolation { expected: Seq<u8>, actual: Seq<u8> },
}

impl View for Error {
    type V = SpecError;

    open spec fn view(&self) -> SpecError {
        match self {
            Error::MalformedPointer => SpecError::MalformedPointer,
            Error::Authentication { message } => SpecError::Authentication { message: message@ },
            Error::Server { status, message } => SpecError::Server {
                status: *status,
                message: message@,
            },
            Error::DownloadLink { code, message } => SpecError::DownloadLink {
                code: *code,
                message: message@,
            },
            Error::MalformedResponse => SpecError::MalformedResponse,
            Error::IntegrityViolation { expected, actual } => SpecError::IntegrityViolation {
                expected: expected@,
                actual: actual@,
            },
        }
    }
}

/// An authorization to fetch: an optional HTTP Authorization value and the
/// URL it is for. Produced both by the SSH token exchange and by a batch
/// response's download action.
pub struct AuthToken {
    pub header: Option<Vec<u8>>,
    pub href: Vec<u8>,
}

/// The ghost mirror of `AuthToken`.
pub struct SpecAuthToken {
    pub header: Option<Seq<u8>>,
    pub href: Seq<u8>,
}

impl View for AuthToken {
    type V = SpecAuthToken;

    open spec fn view(&self) -> SpecAuthToken {
        SpecAuthToken { header: spec_opt_bytes(self.header), href: self.href@ }
    }
}

} // verus!
