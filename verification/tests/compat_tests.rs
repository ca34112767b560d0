use ibexgit_core::compat::{
    capabilities_for_version, detect_outcome, parse_version, GitCapabilities, ALL_CAPABILITIES, BLAME_PORCELAIN,
    PORCELAIN_V2, STASH,
};
use ibexgit_core::error::AppError;

#[test]
fn parses_windows_and_plain_versions() {
    assert_eq!(parse_version("git version 2.40.0.windows.1").unwrap(), (2, 40, 0));
    assert_eq!(parse_version("git version 2.45.2\n").unwrap(), (2, 45, 2));
}

#[test]
fn unparsable_versions_are_errors() {
    match parse_version("nonsense") {
        Err(AppError::Parse { message }) => assert_eq!(message, "Unable to parse git version: nonsense"),
        other => panic!("unexpected {other:?}"),
    }
    match parse_version("git version 99999999999.1.2") {
        Err(AppError::Parse { message }) => assert_eq!(message, "number too large to fit in target type"),
        other => panic!("unexpected {other:?}"),
    }
}

#[test]
fn supported_versions_get_every_capability() {
    let caps = capabilities_for_version("git version 2.40.0").unwrap();
    assert_eq!(caps.bits(), ALL_CAPABILITIES);
    assert!(caps.contains(PORCELAIN_V2 | STASH | BLAME_PORCELAIN));
    assert!(capabilities_for_version("git version 3.0.0").is_ok());
}

#[test]
fn old_versions_are_refused() {
    match capabilities_for_version("git version 2.39.5\n") {
        Err(AppError::GitVersionTooOld { found, required }) => {
            assert_eq!(found, "git version 2.39.5");
            assert_eq!(required, "2.40.0");
        }
        other => panic!("unexpected {other:?}"),
    }
}

#[test]
fn failed_version_run_is_a_git_error() {
    match detect_outcome(false, b"out", b"err") {
        Err(AppError::GitCommand { command, stderr, stdout, .. }) => {
            assert_eq!(command, "git --version");
            assert_eq!(stderr, "err");
            assert_eq!(stdout, "out");
        }
        other => panic!("unexpected {other:?}"),
    }
    assert!(detect_outcome(true, b"git version 2.41.0\n", b"").is_ok());
}

#[test]
fn capability_set_operations() {
    let mut c = GitCapabilities::empty();
    assert_eq!(c.bits(), 0);
    assert!(!c.contains(STASH));
    c.insert(STASH);
    assert!(c.contains(STASH));
    assert!(!c.contains(STASH | PORCELAIN_V2));
}
