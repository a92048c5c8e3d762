//! The credential decision for one host: which private key to use, and
//! whether and where to get a passphrase for it. The unverified driver
//! supplies what only the system can know — the environment overrides, the
//! configuration file's bytes, whether paths exist — and performs the
//! interactive prompt when told to.

use vstd::prelude::*;
use crate::keyscan::{spec_requires_passphrase, ssh_key_requires_passphrase};
use crate::sshcfg::{spec_lookup_identity, spec_parse_config, find_ssh_key_for_host};
use crate::spec_opt_bytes;

verus! {

/// Which key to authenticate with: an existing file named by the
/// environment override wins; otherwise the configuration lookup, then the
/// conventional default key.
pub open spec fn spec_choose_key(
    env_key: Option<Seq<u8>>,
    env_key_is_file: bool,
    config: Option<Seq<u8>>,
    host: Seq<u8>,
    default_key: Option<Seq<u8>>,
) -> Option<Seq<u8>> {
    match env_key {
        Some(k) => if env_key_is_file {
            Some(k)
        } else {
            spec_fallback_key(config, host, default_key)
        },
        None => spec_fallback_key(config, host, default_key),
    }
}

/// The key when no usable override is set: the configuration lookup's
/// answer, else the default.
pub open spec fn spec_fallback_key(
    config: Option<Seq<u8>>,
    host: Seq<u8>,
    default_key: Option<Seq<u8>>,
) -> Option<Seq<u8>> {
    let from_config = match config {
        Some(c) => spec_lookup_identity(spec_parse_config(c), host),
        None => None,
    };
    match from_config {
        Some(p) => Some(p),
        None => default_key,
    }
}

/// Picks the private key path for `host`. `env_key` is the environment
/// override with `env_key_is_file` saying whether it names an existing
/// file; an override that does not is ignored, the caller having warned
/// about it.
pub fn choose_ssh_key(
    env_key: Option<Vec<u8>>,
    env_key_is_file: bool,
    host: &Vec<u8>,
    config_contents: Option<&Vec<u8>>,
    default_key: Option<Vec<u8>>,
) -> (r: Option<Vec<u8>>)
    ensures
        spec_opt_bytes(r) == spec_choose_key(
            spec_opt_bytes(env_key),
            env_key_is_file,
            match config_contents {
                Some(c) => Some(c@),
                None => None,
            },
            host@,
            spec_opt_bytes(default_key),
        ),
{
    match env_key {
        Some(k) => {
            if env_key_is_file {
                Some(k)
            } else {
                find_ssh_key_for_host(host, config_contents, default_key)
            }
        },
        None => find_ssh_key_for_host(host, config_contents, default_key),
    }
}

/// How to obtain the passphrase, when one is needed at all.
pub enum PassphraseDecision {
    /// The key is not passphrase-protected (or could not be scanned, which
    /// callers treat the same way, after logging).
    NotNeeded,
    /// The environment override supplies it.
    FromEnvironment(Vec<u8>),
    /// Ask the user, with a masked interactive prompt.
    Prompt,
}

/// Decides the passphrase source for a key file's bytes: scan the key;
/// when it is protected, the environment override wins over the prompt;
/// when it is not, or the scan fails, no passphrase is used.
pub fn get_ssh_passphrase(key_contents: &Vec<u8>, env_pass: Option<Vec<u8>>) -> (r:
    PassphraseDecision)
    ensures
        match spec_requires_passphrase(key_contents@) {
            Ok(true) => match env_pass {
                Some(p) => r matches PassphraseDecision::FromEnvironment(v) && v@ == p@,
                None => r is Prompt,
            },
            Ok(false) => r is NotNeeded,
            Err(_) => r is NotNeeded,
        },
{
    match ssh_key_requires_passphrase(key_contents) {
        Ok(true) => match env_pass {
            Some(p) => PassphraseDecision::FromEnvironment(p),
            None => PassphraseDecision::Prompt,
        },
        Ok(false) => PassphraseDecision::NotNeeded,
        Err(_) => PassphraseDecision::NotNeeded,
    }
}

} // verus!
