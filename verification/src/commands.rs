//! The decisions the command layer makes before and after its I/O: which
//! situations are errors, and when a run counts as a success. The argument
//! handling and the filesystem work around them live outside the library.

use vstd::prelude::*;

verus! {

/// Installs a package under a prefix directory.
pub struct InstallPackageCommand {}

/// What the install prefix path turned out to be.
#[derive(PartialEq, Eq, Structural, Clone, Copy, Debug)]
pub enum PrefixCheck {
    /// Installation may proceed.
    Usable,
    /// The prefix does not exist and `--force` was not given.
    NotFound,
    /// The prefix exists but is not a directory.
    NotADirectory,
}

impl InstallPackageCommand {
    /// Validates the prefix: a missing prefix needs `--force` to be
    /// created, and an existing prefix must be a directory.
    pub fn check_prefix(exists: bool, is_dir: bool, force: bool) -> (r: PrefixCheck)
        ensures
            r == (if !exists && !force {
                PrefixCheck::NotFound
            } else if exists && !is_dir {
                PrefixCheck::NotADirectory
            } else {
                PrefixCheck::Usable
            }),
    {
        if !exists && !force {
            PrefixCheck::NotFound
        } else if exists && !is_dir {
            PrefixCheck::NotADirectory
        } else {
            PrefixCheck::Usable
        }
    }

    /// A run succeeds exactly when at least one file was extracted.
    pub fn run_succeeded(extracted: u64) -> (r: bool)
        ensures
            r == (extracted != 0),
    {
        extracted != 0
    }
}

/// Downloads a package archive into the working directory.
pub struct DownloadPackageCommand {}

impl DownloadPackageCommand {
    /// An existing target file stops the download unless `--force` is
    /// given.
    pub fn blocked_by_existing(target_exists: bool, force: bool) -> (r: bool)
        ensures
            r == (target_exists && !force),
    {
        target_exists && !force
    }
}

/// Removes every cached repository.
pub struct CleanCacheCommand {}

impl CleanCacheCommand {
    /// Cleaning proceeds only when the cache directory is there to remove.
    pub fn should_clean(cache_exists: bool, cache_is_dir: bool) -> (r: bool)
        ensures
            r == (cache_exists && cache_is_dir),
    {
        cache_exists && cache_is_dir
    }
}

/// Fetches the latest state of every known package repository.
pub struct UpdatePackageRepositoriesCommand {}

impl UpdatePackageRepositoriesCommand {
    /// An update run succeeds exactly when every repository was updated.
    pub fn run_succeeded(num_repos: u64, num_updated: u64) -> (r: bool)
        ensures
            r == (num_updated == num_repos),
    {
        num_updated == num_repos
    }
}

} // verus!
