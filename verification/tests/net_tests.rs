use ibexgit_core::ai_config::{
    default_exclude_patterns, finish_event, guard_enabled, key_present, validate_kind, AiConfig,
    AiConfigDto,
};
use ibexgit_core::error::AppError;
use ibexgit_core::net::{
    clip_log_message, clone_finish_event, clone_line_event, clone_start_event, git_path_input,
    non_blank, validate_clone_request, validate_url, CloneRequest,
};

fn request(url: &str, dest: &str, depth: Option<u32>) -> CloneRequest {
    CloneRequest { url: url.into(), dest: dest.into(), depth, single_branch: true, recurse_submodules: false }
}

fn parse_message(e: AppError) -> String {
    match e {
        AppError::Parse { message } => message,
        other => panic!("unexpected {other:?}"),
    }
}

#[test]
fn url_refusal_quotes_the_input() {
    assert_eq!(
        parse_message(validate_url("-c x").unwrap_err()),
        "invalid repository url: \"-c x\""
    );
    assert_eq!(parse_message(validate_url("a\tb/c").unwrap_err()), "invalid repository url: \"a\\tb/c\"");
}

#[test]
fn clone_request_checks_in_order() {
    let ok = validate_clone_request(request("  https://h/o/r.git ", " /tmp/r ", Some(1))).unwrap();
    assert_eq!(ok.url, "https://h/o/r.git");
    assert_eq!(ok.dest, "/tmp/r");
    assert_eq!(ok.depth, Some(1));
    assert!(ok.single_branch);
    assert_eq!(parse_message(validate_clone_request(request(" ", "", None)).err().unwrap()), "clone: url is required");
    assert_eq!(
        parse_message(validate_clone_request(request("https://h/r", " ", None)).err().unwrap()),
        "clone: destination path is required"
    );
    assert_eq!(
        parse_message(validate_clone_request(request("word", "/d", None)).err().unwrap()),
        "invalid repository url: \"word\""
    );
    assert_eq!(
        parse_message(validate_clone_request(request("https://h/r", "/d", Some(0))).err().unwrap()),
        "clone: depth must be 1..=100000"
    );
    assert!(validate_clone_request(request("https://h/r", "/d", Some(100_000))).is_ok());
    assert!(validate_clone_request(request("https://h/r", "/d", Some(100_001))).is_err());
}

#[test]
fn clone_events() {
    let s = clone_start_event(7, "https://h/r");
    assert_eq!((s.task_id, s.phase.as_str(), s.message.as_str()), (7, "start", "clone https://h/r"));
    let p = clone_line_event(7, "Receiving objects:  45% (123/273)".into());
    assert_eq!(p.phase, "progress");
    assert_eq!(p.stage.as_deref(), Some("receiving"));
    assert_eq!(p.percent, Some(45));
    let done = clone_finish_event(7, Ok(()), "/tmp/r");
    assert_eq!((done.phase.as_str(), done.percent, done.message.as_str()), ("done", Some(100), "cloned into /tmp/r"));
    let cancelled = clone_finish_event(7, Err(AppError::CredentialCancelled), "/tmp/r");
    assert_eq!((cancelled.phase.as_str(), cancelled.message.as_str()), ("cancelled", "clone cancelled"));
    let failed = clone_finish_event(7, Err(AppError::parse("bad".into())), "/tmp/r");
    assert_eq!(failed.phase, "failed");
    assert_eq!(failed.error, Some(AppError::Parse { message: "bad".into() }));
}

#[test]
fn log_lines_are_clipped_with_an_ellipsis() {
    assert_eq!(clip_log_message("short".into()), "short");
    let long: String = "é".repeat(4001);
    let clipped = clip_log_message(long);
    assert_eq!(clipped.chars().count(), 4001);
    assert!(clipped.ends_with("é…"));
}

#[test]
fn git_path_and_blank_settings() {
    assert_eq!(git_path_input("  /usr/bin/git ").unwrap(), "/usr/bin/git");
    assert_eq!(parse_message(git_path_input("  ").unwrap_err()), "git path is empty");
    assert_eq!(non_blank(Some(" ".into())), None);
    assert_eq!(non_blank(Some(" x ".into())).as_deref(), Some(" x "));
    assert_eq!(non_blank(None), None);
}

#[test]
fn ai_settings_checks() {
    assert!(key_present(&Ok(Some("sk".into()))));
    assert!(!key_present(&Ok(Some(String::new()))));
    assert!(!key_present(&Ok(None)));
    assert!(!key_present(&Err("no keychain".into())));
    let mut cfg = AiConfig::default();
    assert_eq!(guard_enabled(&cfg), Err(AppError::AiDisabled));
    cfg.enabled = true;
    assert_eq!(guard_enabled(&cfg), Ok(()));
    assert_eq!(validate_kind("weekly").unwrap(), "weekly");
    assert_eq!(parse_message(validate_kind("monthly").unwrap_err()), "unknown report kind: monthly");
    assert_eq!(default_exclude_patterns().len(), 15);
    let dto = AiConfigDto::from(cfg.clone(), true);
    assert!(dto.has_key);
    assert_eq!(dto.into_config(), cfg);
}

#[test]
fn generation_finish_events() {
    let done = finish_event(3, Ok("msg".into()), "commit message");
    assert_eq!((done.phase.as_str(), done.text.as_deref()), ("done", Some("msg")));
    let cancelled = finish_event(3, Err(AppError::OperationCancelled), "report");
    assert_eq!((cancelled.phase.as_str(), cancelled.message.as_deref()), ("cancelled", Some("report cancelled")));
    let failed = finish_event(3, Err(AppError::AiDisabled), "report");
    assert_eq!(failed.phase, "failed");
    assert_eq!(failed.error, Some(AppError::AiDisabled));
}
