use gpm::credential::{choose_ssh_key, get_ssh_passphrase, PassphraseDecision};
use gpm::commands::{
    CleanCacheCommand, DownloadPackageCommand, InstallPackageCommand, PrefixCheck,
    UpdatePackageRepositoriesCommand,
};

#[test]
fn valid_environment_override_wins() {
    let config = b"Host git.example.com\n  IdentityFile config_key\n".to_vec();
    let r = choose_ssh_key(
        Some(b"/custom/key".to_vec()),
        true,
        &b"git.example.com".to_vec(),
        Some(&config),
        Some(b"default_key".to_vec()),
    );
    assert_eq!(r, Some(b"/custom/key".to_vec()));
}

#[test]
fn invalid_environment_override_falls_through_to_config() {
    let config = b"Host git.example.com\n  IdentityFile config_key\n".to_vec();
    let r = choose_ssh_key(
        Some(b"/missing/key".to_vec()),
        false,
        &b"git.example.com".to_vec(),
        Some(&config),
        Some(b"default_key".to_vec()),
    );
    assert_eq!(r, Some(b"config_key".to_vec()));
}

#[test]
fn without_override_or_config_the_default_is_used() {
    let r = choose_ssh_key(None, false, &b"git.example.com".to_vec(), None, Some(
        b"default_key".to_vec(),
    ));
    assert_eq!(r, Some(b"default_key".to_vec()));
}

#[test]
fn nothing_found_yields_none() {
    assert_eq!(choose_ssh_key(None, false, &b"h".to_vec(), None, None), None);
}

#[test]
fn protected_key_takes_passphrase_from_environment() {
    let key = b"Proc-Type: 4,ENCRYPTED\npayload\n".to_vec();
    match get_ssh_passphrase(&key, Some(b"hunter2".to_vec())) {
        PassphraseDecision::FromEnvironment(p) => assert_eq!(p, b"hunter2".to_vec()),
        _ => panic!("expected the environment passphrase"),
    }
}

#[test]
fn protected_key_without_environment_prompts() {
    let key = b"Proc-Type: 4,ENCRYPTED\npayload\n".to_vec();
    assert!(matches!(get_ssh_passphrase(&key, None), PassphraseDecision::Prompt));
}

#[test]
fn unprotected_key_needs_no_passphrase() {
    let key = b"c29tZSBrZXkgbWF0ZXJpYWw=\n".to_vec();
    assert!(matches!(
        get_ssh_passphrase(&key, Some(b"unused".to_vec())),
        PassphraseDecision::NotNeeded
    ));
}

#[test]
fn install_prefix_checks() {
    assert_eq!(InstallPackageCommand::check_prefix(false, false, false), PrefixCheck::NotFound);
    assert_eq!(InstallPackageCommand::check_prefix(false, false, true), PrefixCheck::Usable);
    assert_eq!(InstallPackageCommand::check_prefix(true, false, true), PrefixCheck::NotADirectory);
    assert_eq!(InstallPackageCommand::check_prefix(true, true, false), PrefixCheck::Usable);
}

#[test]
fn install_succeeds_only_when_files_were_extracted() {
    assert!(!InstallPackageCommand::run_succeeded(0));
    assert!(InstallPackageCommand::run_succeeded(3));
}

#[test]
fn download_respects_existing_target() {
    assert!(DownloadPackageCommand::blocked_by_existing(true, false));
    assert!(!DownloadPackageCommand::blocked_by_existing(true, true));
    assert!(!DownloadPackageCommand::blocked_by_existing(false, false));
}

#[test]
fn clean_only_removes_an_existing_cache_directory() {
    assert!(CleanCacheCommand::should_clean(true, true));
    assert!(!CleanCacheCommand::should_clean(false, true));
    assert!(!CleanCacheCommand::should_clean(true, false));
}

#[test]
fn update_succeeds_only_when_every_repository_updated() {
    assert!(UpdatePackageRepositoriesCommand::run_succeeded(3, 3));
    assert!(!UpdatePackageRepositoriesCommand::run_succeeded(3, 2));
    assert!(UpdatePackageRepositoriesCommand::run_succeeded(0, 0));
}
