use ibexgit_core::ai_config::{AiConfig, ProviderKind};
use ibexgit_core::context::PathFilter;
use ibexgit_core::error::AppError;
use ibexgit_core::generate::{
    auth_header, commit_message_request, event_delta, idle_timeout_error, map_transport_error,
    messages_url, plan_provider, plan_report, provider_label, reduce_request, stream_deltas,
    AuthStyle, ReportParams, ReportPlan, WireFormat,
};
use ibexgit_core::model::{DiffModel, DiffSource, NumstatCommit, NumstatFile};
use ibexgit_core::sse::SseEvent;

fn cfg(provider: ProviderKind, base: &str, model: &str) -> AiConfig {
    let mut c = AiConfig::default();
    c.provider = provider;
    c.base_url = base.to_string();
    c.model = model.to_string();
    c
}

fn config_message(r: Result<ibexgit_core::generate::ProviderPlan, AppError>) -> String {
    match r {
        Err(AppError::AiConfig { message }) => message,
        Err(e) => panic!("unexpected error {e:?}"),
        Ok(p) => panic!("unexpected plan {p:?}"),
    }
}

#[test]
fn ollama_plan_is_local_without_key() {
    let p = plan_provider(&cfg(ProviderKind::Ollama, " http://localhost:11434/v1/ ", " qwen3:8b "), None).unwrap();
    assert_eq!(p.wire, WireFormat::OpenAi);
    assert_eq!(p.url, "http://localhost:11434/v1/chat/completions");
    assert_eq!(p.key, "");
    assert_eq!(p.auth, AuthStyle::NoAuth);
    assert_eq!(p.model, "qwen3:8b");
    assert_eq!(p.timeout_secs, 60);
    assert_eq!(p.label, "Ollama（本地离线）· qwen3:8b");
}

#[test]
fn provider_refusals_are_config_errors() {
    assert_eq!(
        config_message(plan_provider(&cfg(ProviderKind::Ollama, "x", "  "), None)),
        "model is not configured (Settings → AI)"
    );
    assert_eq!(
        config_message(plan_provider(&cfg(ProviderKind::Ollama, " / ", "m"), None)),
        "Base URL is empty"
    );
    assert_eq!(
        config_message(plan_provider(&cfg(ProviderKind::OpenAiCompatible, "ftp://x", "m"), Some("k".into()))),
        "invalid Base URL: ftp://x"
    );
    assert_eq!(
        config_message(plan_provider(&cfg(ProviderKind::Anthropic, "https://api.anthropic.com", "m"), Some("  ".into()))),
        "API key is missing (Settings → AI → 保存密钥)"
    );
    assert_eq!(
        config_message(plan_provider(&cfg(ProviderKind::Custom, "api.example.com", "m"), None)),
        "custom endpoint must be a full http(s) URL"
    );
    assert_eq!(
        config_message(plan_provider(&cfg(ProviderKind::Custom, "https://gw/x", "m"), None)),
        "auth style requires an API key (or switch to none)"
    );
}

#[test]
fn keyed_providers_and_custom_auth() {
    let mut c = cfg(ProviderKind::Anthropic, "https://api.anthropic.com/v1/", "msg-model");
    c.timeout_secs = 2;
    let p = plan_provider(&c, Some("sk".into())).unwrap();
    assert_eq!(p.wire, WireFormat::Anthropic);
    assert_eq!(p.url, "https://api.anthropic.com/v1/messages");
    assert_eq!(p.timeout_secs, 5);
    assert_eq!(p.label, "Anthropic · msg-model");
    // The Messages API takes its key in `x-api-key`.
    assert_eq!(p.auth, AuthStyle::XApiKey);
    assert_eq!(messages_url("https://h/"), "https://h/v1/messages");

    let o = plan_provider(&cfg(ProviderKind::OpenAiCompatible, "https://api.deepseek.com", "ds"), Some("sk".into())).unwrap();
    assert_eq!(o.url, "https://api.deepseek.com/chat/completions");
    assert_eq!(o.auth, AuthStyle::Bearer);
    assert_eq!(o.label, "OpenAI 兼容 · api.deepseek.com · ds");

    let mut custom = cfg(ProviderKind::Custom, "https://gw.local:8443/v1/chat/", "m");
    custom.custom_auth = "none".into();
    let q = plan_provider(&custom, None).unwrap();
    assert_eq!(q.url, "https://gw.local:8443/v1/chat");
    assert_eq!(q.auth, AuthStyle::NoAuth);
    assert_eq!(provider_label(&custom), "自定义端点 · gw.local · m");
    custom.custom_auth = "x_api_key".into();
    assert_eq!(plan_provider(&custom, Some("k".into())).unwrap().auth, AuthStyle::XApiKey);
}

#[test]
fn auth_headers() {
    assert_eq!(auth_header(AuthStyle::Bearer, "k"), Some(("authorization".to_string(), "Bearer k".to_string())));
    assert_eq!(auth_header(AuthStyle::XApiKey, "k"), Some(("x-api-key".to_string(), "k".to_string())));
    assert_eq!(auth_header(AuthStyle::NoAuth, "k"), None);
    assert_eq!(auth_header(AuthStyle::Bearer, ""), None);
}

#[test]
fn transport_and_idle_errors() {
    match map_transport_error(true, true, "x") {
        AppError::AiNetwork { message } => assert_eq!(message, "timed out: x"),
        e => panic!("{e:?}"),
    }
    match map_transport_error(false, true, "y") {
        AppError::AiNetwork { message } => assert_eq!(message, "connection failed: y"),
        e => panic!("{e:?}"),
    }
    match idle_timeout_error(30) {
        AppError::AiNetwork { message } => assert_eq!(message, "idle timeout after 30s (stream stalled)"),
        e => panic!("{e:?}"),
    }
}

#[test]
fn openai_and_anthropic_event_deltas() {
    assert_eq!(event_delta(WireFormat::OpenAi, "[DONE]").unwrap(), None);
    assert_eq!(
        event_delta(WireFormat::OpenAi, r#"{"choices":[{"delta":{"content":"Hel"}}]}"#).unwrap().as_deref(),
        Some("Hel")
    );
    assert_eq!(event_delta(WireFormat::OpenAi, r#"{"choices":[{"delta":{}}]}"#).unwrap(), None);
    match event_delta(WireFormat::OpenAi, "not json") {
        Err(AppError::AiNetwork { message }) => assert!(message.starts_with("bad SSE json: ")),
        other => panic!("{other:?}"),
    }
    assert_eq!(
        event_delta(WireFormat::Anthropic, r#"{"type":"content_block_delta","delta":{"text":"lo"}}"#)
            .unwrap()
            .as_deref(),
        Some("lo")
    );
    assert_eq!(event_delta(WireFormat::Anthropic, r#"{"type":"ping"}"#).unwrap(), None);
    match event_delta(WireFormat::Anthropic, r#"{"type":"error","error":{"message":"overloaded"}}"#) {
        Err(AppError::AiProvider { status, message }) => {
            assert_eq!(status, 200);
            assert_eq!(message, "overloaded");
        }
        other => panic!("{other:?}"),
    }
}

fn ev(data: &str) -> SseEvent {
    SseEvent { event: None, data: data.to_string() }
}

#[test]
fn stream_collects_deltas_until_first_failure() {
    let evs = vec![
        ev(r#"{"choices":[{"delta":{"content":"a"}}]}"#),
        ev(""),
        ev(r#"{"choices":[{"delta":{"content":"b"}}]}"#),
        ev("[DONE]"),
    ];
    assert_eq!(stream_deltas(WireFormat::OpenAi, &evs, true).unwrap(), vec!["a", "b"]);
    // Without skipping, the empty payload is not JSON.
    assert!(stream_deltas(WireFormat::OpenAi, &evs, false).is_err());
}

fn commit(subject: &str) -> NumstatCommit {
    NumstatCommit {
        hash: "h".into(),
        short_hash: "s".into(),
        author: "A".into(),
        email: "a@x".into(),
        date: "2026-01-01".into(),
        subject: subject.into(),
        repo: String::new(),
        files: vec![NumstatFile { path: "f.rs".into(), orig_path: None, additions: 1, deletions: 0, binary: false }],
    }
}

fn params() -> ReportParams {
    ReportParams {
        kind: "weekly".into(),
        since: "2026-01-05T00:00:00".into(),
        repo_count: 1,
        author_note: String::new(),
        language: "en".into(),
    }
}

#[test]
fn report_plans_single_or_map_reduce() {
    match plan_report(&[], &PathFilter::empty(), &params()) {
        Err(AppError::Parse { message }) => {
            assert_eq!(message, "no commits found in the selected range (nothing to report)")
        }
        _ => panic!("expected refusal"),
    }
    let few: Vec<NumstatCommit> = (0..3).map(|i| commit(&format!("c{i}"))).collect();
    match plan_report(&few, &PathFilter::empty(), &params()).unwrap() {
        ReportPlan::Single(req) => {
            assert_eq!(req.max_tokens, 4000);
            assert!(req.user.starts_with("Write a weekly report from the following commits.\n"));
            assert!(req.user.ends_with("- 2026-01-01 s <a@x> A\n  c2\n  f.rs +1 -0\n"));
        }
        _ => panic!("expected a single request"),
    }
    let many: Vec<NumstatCommit> = (0..130).map(|i| commit(&format!("c{i}"))).collect();
    match plan_report(&many, &PathFilter::empty(), &params()).unwrap() {
        ReportPlan::MapReduce { batches, requests } => {
            assert_eq!(batches.len(), 3);
            assert_eq!(batches[0].len(), 60);
            assert_eq!(batches[2], (120..130).collect::<Vec<usize>>());
            assert_eq!(requests.len(), 3);
            assert_eq!(requests[0].max_tokens, 1200);
            assert!(requests[2].user.starts_with("Summarize these commits:\n\n- 2026-01-01 s <a@x> A\n  c120\n"));
        }
        _ => panic!("expected map-reduce"),
    }
}

#[test]
fn reduce_merges_or_reports_the_failed_batch() {
    let ok = reduce_request(vec![Ok("one".into()), Ok("two".into())], &params()).unwrap();
    assert!(ok.user.ends_with("### Batch 1 summary\none\n### Batch 2 summary\ntwo\n"));
    match reduce_request(vec![Ok("one".into()), Ok("  ".into()), Err(AppError::OperationCancelled)], &params()) {
        Err(AppError::AiProvider { status, message }) => {
            assert_eq!(status, 200);
            assert_eq!(message, "map batch 2 returned an empty summary");
        }
        other => panic!("{other:?}"),
    }
    assert_eq!(
        reduce_request(vec![Err(AppError::OperationCancelled), Ok("x".into())], &params()).unwrap_err(),
        AppError::OperationCancelled
    );
}

#[test]
fn commit_message_needs_staged_changes() {
    let empty = DiffModel { id: 0, source: DiffSource::Staged, old_revision: None, new_revision: None, files: vec![] };
    match commit_message_request(&empty, &PathFilter::empty(), true, "en") {
        Err(AppError::Parse { message }) => assert_eq!(
            message,
            "nothing staged: stage some changes before generating a commit message"
        ),
        other => panic!("{other:?}"),
    }
}
