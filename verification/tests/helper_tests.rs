use ibexgit_core::ai_config::{AiConfig, ProviderKind};
use ibexgit_core::context::{build_diff_context, DiffBudget, PathFilter};
use ibexgit_core::credential::{CredResponse, CREDENTIAL_CANCELLED_MARKER};
use ibexgit_core::generate::{author_filter, commit_preview, merge_report_commits, report_preview};
use ibexgit_core::helper::{askpass_output, askpass_request, helper_output, helper_request, HelperOutput};
use ibexgit_core::model::{
    DiffFile, DiffHunk, DiffLine, DiffLineKind, DiffModel, DiffSource, NumstatCommit, NumstatFile,
};
use ibexgit_core::untracked::synthesize_untracked;

#[test]
fn helper_builds_requests_from_git_input() {
    let input = "protocol=https\nhost=github.com\npath=\nusername=me\n\npassword=late\n";
    let r = helper_request("get", input, "h1".into(), Some(42)).unwrap();
    assert_eq!(r.op, "get");
    assert_eq!(r.protocol.as_deref(), Some("https"));
    assert_eq!(r.host.as_deref(), Some("github.com"));
    assert_eq!(r.path, None);
    assert_eq!(r.username.as_deref(), Some("me"));
    assert_eq!(r.secret, None);
    assert_eq!(r.ppid, Some(42));
    assert!(helper_request("list", input, "h2".into(), None).is_none());
}

fn resp(username: Option<&str>, secret: Option<&str>, answer: Option<&str>, cancelled: Option<bool>) -> CredResponse {
    CredResponse {
        id: "x".into(),
        ok: true,
        username: username.map(str::to_string),
        secret: secret.map(str::to_string),
        answer: answer.map(str::to_string),
        cancelled,
    }
}

#[test]
fn helper_output_for_get_store_and_cancel() {
    let quiet = HelperOutput { exit_code: 0, stdout: None, stderr: None };
    assert_eq!(helper_output("get", None), quiet);
    assert_eq!(helper_output("store", Some(resp(Some("u"), Some("p"), None, None))), quiet);
    let got = helper_output("get", Some(resp(Some("u"), Some("p"), None, None)));
    assert_eq!(got.stdout.as_deref(), Some("username=u\npassword=p\n\n"));
    let cancelled = helper_output("get", Some(resp(None, None, None, Some(true))));
    assert_eq!(cancelled.exit_code, 3);
    assert_eq!(cancelled.stderr.as_deref(), Some(CREDENTIAL_CANCELLED_MARKER));
    assert_eq!(helper_output("get", Some(resp(Some("u"), None, None, None))), quiet);
}

#[test]
fn askpass_answers_or_fails() {
    let q = askpass_request("Password: ", "a1".into(), None);
    assert_eq!((q.op.as_str(), q.prompt.as_deref()), ("askpass", Some("Password: ")));
    assert_eq!(askpass_output(Some(resp(None, Some("s"), Some("yes"), None))).stdout.as_deref(), Some("yes\n"));
    assert_eq!(askpass_output(Some(resp(None, Some("s"), None, None))).stdout.as_deref(), Some("s\n"));
    assert_eq!(askpass_output(Some(resp(None, None, None, Some(false)))).stdout.as_deref(), Some("\n"));
    assert_eq!(askpass_output(Some(resp(None, Some("s"), None, Some(true)))).exit_code, 1);
    assert_eq!(askpass_output(None).exit_code, 1);
}

#[test]
fn synth_text_file_with_and_without_trailing_newline() {
    let f = synthesize_untracked("a.txt", false, b"one\ntwo\n");
    assert!(!f.binary);
    assert_eq!(f.old_path, None);
    let lines = &f.hunks[0].lines;
    assert_eq!(lines.len(), 2);
    assert!(!lines[1].no_eol);
    assert_eq!(lines[1].right_no, Some(2));
    assert_eq!(f.hunks[0].new_count, 2);

    let f = synthesize_untracked("b.txt", false, b"one\ntwo");
    let lines = &f.hunks[0].lines;
    assert_eq!(lines.len(), 2);
    assert!(lines[1].no_eol);
    assert_eq!(lines[1].content, "two");
}

#[test]
fn synth_empty_and_binary_files() {
    let f = synthesize_untracked("empty.txt", false, b"");
    assert!(!f.binary);
    assert!(f.hunks.is_empty());
    let f = synthesize_untracked("img.bin", false, b"\x00\x01\x02nul");
    assert!(f.binary);
    assert!(f.hunks.is_empty());
}

#[test]
fn synth_oversize_becomes_binary_placeholder() {
    let f = synthesize_untracked("big.txt", true, b"");
    assert!(f.binary);
    assert_eq!(f.new_path.as_deref(), Some("big.txt"));
    let f = synthesize_untracked("big.txt", false, "x".repeat(64).as_bytes());
    assert!(!f.binary);
}

fn commit(date: &str, subject: &str) -> NumstatCommit {
    NumstatCommit {
        hash: "h".into(),
        short_hash: "s".into(),
        author: "A".into(),
        email: "a@x".into(),
        date: date.into(),
        subject: subject.into(),
        repo: String::new(),
        files: vec![NumstatFile { path: "f".into(), orig_path: None, additions: 2, deletions: 1, binary: false }],
    }
}

#[test]
fn report_commits_labelled_and_newest_first() {
    let merged = merge_report_commits(vec![
        ("repo-a".into(), vec![commit("2026-01-03", "a1"), commit("2026-01-01", "a2")]),
        ("repo-b".into(), vec![commit("2026-01-02", "b1"), commit("2026-01-03", "b2")]),
    ]);
    let order: Vec<(&str, &str)> = merged.iter().map(|c| (c.repo.as_str(), c.subject.as_str())).collect();
    assert_eq!(order, vec![("repo-a", "a1"), ("repo-b", "b2"), ("repo-b", "b1"), ("repo-a", "a2")]);
}

#[test]
fn previews_summarise_what_would_be_sent() {
    let mut cfg = AiConfig::default();
    cfg.model = "m".into();
    let commits = vec![commit("d", "c1"), commit("d", "c2")];
    let mut labelled = commits.clone();
    labelled[0].repo = "r1".into();
    labelled[1].repo = "r1".into();
    let p = report_preview(&cfg, &["r1".to_string(), "r2".to_string()], &labelled, &PathFilter::empty());
    assert_eq!(p.kind, "report");
    assert_eq!(p.items, vec!["r1: 2", "r2: 0"]);
    assert_eq!(p.commits, 2);
    assert_eq!(p.batches, 1);
    assert_eq!(p.provider, "Ollama（本地离线）· m");

    let model = DiffModel {
        id: 0,
        source: DiffSource::Staged,
        old_revision: None,
        new_revision: None,
        files: vec![DiffFile {
            old_path: None,
            new_path: Some("n.txt".into()),
            similarity: None,
            binary: false,
            hunks: vec![DiffHunk {
                old_start: 0,
                old_count: 0,
                new_start: 1,
                new_count: 1,
                header: String::new(),
                lines: vec![DiffLine { content: "x".into(), left_no: None, right_no: Some(1), kind: DiffLineKind::Add, no_eol: false }],
            }],
        }],
    };
    let ctx = build_diff_context(&model, &PathFilter::empty(), &DiffBudget::default());
    cfg.provider = ProviderKind::Anthropic;
    let c = commit_preview(&cfg, &ctx);
    assert_eq!(c.items, vec!["n.txt (+1 -0)"]);
    assert_eq!(c.chars as usize, ctx.total_chars);
    assert_eq!(c.provider, "Anthropic · m");
    assert_eq!(author_filter(&Some("  a@x ".into())).as_deref(), Some("a@x"));
    assert_eq!(author_filter(&Some("   ".into())), None);
}
