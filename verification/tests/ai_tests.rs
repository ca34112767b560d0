use ibexgit_core::ai_config::{AiConfig, ProviderKind};
use ibexgit_core::context::{
    batch_for_map_reduce, build_diff_context, needs_map_reduce, render_diff_context,
    render_report_batch, render_report_batch_refs, DiffBudget, DiffContext, PathFilter,
};
use ibexgit_core::error::AppError;
use ibexgit_core::generate::{completions_url, map_http_error};
use ibexgit_core::model::{
    DiffFile, DiffHunk, DiffLine, DiffLineKind, DiffModel, DiffSource, NumstatCommit, NumstatFile,
};
use ibexgit_core::net::validate_url;
use ibexgit_core::prompt::{
    commit_message_system, commit_message_user, map_user, reduce_user, report_system, report_user,
};



#[test]
fn commit_system_switches_style_and_language() {
    let conv = commit_message_system(true, "zh-CN");
    assert!(conv.contains("Conventional Commits"));
    assert!(conv.contains("Simplified Chinese"));
    let plain = commit_message_system(false, "en");
    assert!(plain.contains("no type prefix"));
    assert!(plain.contains("English"));
}

#[test]
fn commit_user_embeds_context() {
    let ctx = DiffContext::default();
    let user = commit_message_user(&ctx);
    assert!(user.contains("Staged changes: 0 files"));
}

#[test]
fn report_prompts_carry_constraints() {
    let s = report_system("en");
    assert!(s.contains("NEVER invent"));
    let u = report_user("weekly", "2026-09-14", 2, "Author: alice@x.com", "DATA");
    assert!(u.contains("weekly") && u.contains("2026-09-14") && u.contains("DATA"));
    let m = map_user("BATCH");
    assert!(m.contains("BATCH"));
    let r = reduce_user("daily", "today", 3, &["a".into(), "b".into()]);
    assert!(r.contains("Batch 1") && r.contains("Batch 2"));
}



#[test]
fn accepts_common_urls() {
    for u in [
        "https://github.com/o/r.git",
        "http://example.com/r.git",
        "ssh://git@github.com/o/r.git",
        "git@github.com:o/r.git",
        "git://example.com/r",
        "file:///tmp/repo",
        "/local/path/repo",
        "C:\\repos\\demo",
        "./relative/repo",
    ] {
        assert!(validate_url(u).is_ok(), "{u} must be accepted");
    }
}

#[test]
fn rejects_garbage_and_flag_injection() {
    for u in ["", "   ", "-c credential.helper=evil", "justaword"] {
        assert!(validate_url(u).is_err(), "{u:?} must be rejected");
    }
}

#[test]
fn default_config_is_opt_in_off() {
    let cfg = AiConfig::default();
    assert!(!cfg.enabled, "privacy: default must be disabled");
    assert_eq!(cfg.provider, ProviderKind::Ollama);
    assert!(!cfg.exclude_patterns.is_empty());
}




fn patterns(list: &[&str]) -> PathFilter {
    PathFilter::new(&list.iter().map(|s| s.to_string()).collect::<Vec<_>>())
}

fn model(files: Vec<DiffFile>) -> DiffModel {
    DiffModel {
        id: 0,
        source: DiffSource::Staged,
        old_revision: None,
        new_revision: None,
        files,
    }
}

fn file(path: &str, adds: &[&str], dels: &[&str]) -> DiffFile {
    let mut lines = Vec::new();
    for d in dels {
        lines.push(DiffLine {
            content: d.to_string(),
            left_no: Some(1),
            right_no: None,
            kind: DiffLineKind::Remove,
            no_eol: false,
        });
    }
    for a in adds {
        lines.push(DiffLine {
            content: a.to_string(),
            left_no: None,
            right_no: Some(1),
            kind: DiffLineKind::Add,
            no_eol: false,
        });
    }
    DiffFile {
        old_path: Some(path.to_string()),
        new_path: Some(path.to_string()),
        similarity: None,
        binary: false,
        hunks: vec![DiffHunk {
            old_start: 1,
            old_count: dels.len() as u32,
            new_start: 1,
            new_count: adds.len() as u32,
            header: String::new(),
            lines,
        }],
    }
}

fn numstat(path: &str, adds: u32, dels: u32) -> NumstatFile {
    NumstatFile {
        path: path.into(),
        orig_path: None,
        additions: adds,
        deletions: dels,
        binary: false,
    }
}

// ---------- PathFilter ----------

#[test]
fn glob_matches_full_path_basename_and_case_insensitive() {
    let f = patterns(&["*.env", "*.env.*", "*secret*", "*.pem"]);
    assert!(f.is_excluded("config/.env"));
    assert!(!f.is_excluded("app/environment.rs"));
    assert!(f.is_excluded("deploy/.env.production"));
    assert!(f.is_excluded("src/SECRET_KEY.txt"));
    assert!(f.is_excluded("server.pem"));
    assert!(!f.is_excluded("src/main.rs"));
}

#[test]
fn filter_counts_exclusions() {
    let f = patterns(&["*.env", "*.env.*"]);
    let (kept, excluded) = f.filter(&["src/main.rs", ".env", "x/.env.local"]);
    assert_eq!(kept, vec!["src/main.rs".to_string()]);
    assert_eq!(excluded, 2);
}

// ---------- diff 采样 ----------

#[test]
fn diff_context_excludes_and_counts() {
    let m = model(vec![
        file("src/main.rs", &["fn main() {}"], &["old"]),
        file(".env", &["SECRET=1"], &[]),
    ]);
    let ctx = build_diff_context(&m, &patterns(&["*.env"]), &DiffBudget::default());
    assert_eq!(ctx.files.len(), 1);
    assert_eq!(ctx.excluded_files, 1);
    assert!(ctx.files[0].text.contains("src/main.rs"));
    assert!(!render_diff_context(&ctx).contains("SECRET"));
}

#[test]
fn diff_context_budget_drops_smallest_files_to_placeholders() {
    // 大文件渲染体量超过总预算 → 降级为占位，小文件保留。
    let big: Vec<String> = (0..2000).map(|i| format!("line{i}")).collect();
    let big_refs: Vec<&str> = big.iter().map(String::as_str).collect();
    let m = model(vec![
        file("small.txt", &["tiny"], &[]),
        file("big.txt", &big_refs, &[]),
    ]);
    let ctx = build_diff_context(
        &m,
        &PathFilter::empty(),
        &DiffBudget {
            per_file_lines: 2000,
            total_chars: 8_000,
        },
    );
    assert_eq!(ctx.files.len(), 2);
    assert!(ctx.truncated);
    let small = ctx.files.iter().find(|f| f.path == "small.txt").unwrap();
    let bigf = ctx.files.iter().find(|f| f.path == "big.txt").unwrap();
    // 大文件独占超预算 → 整体降级为占位；小文件保留。
    assert!(bigf.text.contains("omitted"), "{}", bigf.text);
    assert!(small.text.contains("tiny"), "{}", small.text);
    assert!(ctx.total_chars < 12_000);
}

#[test]
fn diff_context_per_file_line_cap() {
    let lines: Vec<String> = (0..500).map(|i| format!("l{i}")).collect();
    let refs: Vec<&str> = lines.iter().map(String::as_str).collect();
    let m = model(vec![file("a.txt", &refs, &[])]);
    let ctx = build_diff_context(
        &m,
        &PathFilter::empty(),
        &DiffBudget {
            per_file_lines: 50,
            total_chars: 100_000,
        },
    );
    let f = &ctx.files[0];
    assert!(f.truncated);
    assert!(f.text.contains("truncated"));
    assert_eq!(f.added, 50, "counts only sampled lines");
}

#[test]
fn binary_file_gets_placeholder() {
    let mut f = file("img.png", &[], &[]);
    f.binary = true;
    f.hunks.clear();
    let ctx = build_diff_context(
        &model(vec![f]),
        &PathFilter::empty(),
        &DiffBudget::default(),
    );
    assert!(ctx.files[0].is_binary);
    assert!(ctx.files[0].text.contains("binary"));
}

#[test]
fn render_includes_privacy_note_and_totals() {
    let m = model(vec![file("src/a.rs", &["x"], &["y"])]);
    let ctx = build_diff_context(&m, &patterns(&["*.env"]), &DiffBudget::default());
    let text = render_diff_context(&ctx);
    assert!(text.contains("Staged changes: 1 files"));
    assert!(text.contains("--- src/a.rs"));
    assert!(text.contains("+1 -1"));
}

// ---------- 报告上下文 ----------

fn commit(subject: &str, files: Vec<NumstatFile>) -> NumstatCommit {
    NumstatCommit {
        hash: "0123456789abcdef0123456789abcdef01234567".into(),
        short_hash: "0123456".into(),
        author: "Alice".into(),
        email: "alice@example.com".into(),
        date: "2026-09-17T09:00:00+08:00".into(),
        subject: subject.into(),
        repo: "repo-a".into(),
        files,
    }
}

#[test]
fn report_batch_renders_compact_and_excludes_paths() {
    let commits = vec![
        commit(
            "feat: add login",
            vec![numstat("src/login.ts", 120, 4), numstat(".env", 3, 0)],
        ),
        commit("fix: crash", vec![]),
    ];
    let (text, excluded) = render_report_batch(&commits, &patterns(&["*.env"]));
    assert_eq!(excluded, 1);
    assert!(text.contains("feat: add login"));
    assert!(text.contains("src/login.ts +120 -4"));
    assert!(!text.contains(".env"), "excluded path must not leak");
    assert!(text.contains("fix: crash"));
    // 上下文不含 diff 内容（默认不发 diff）。
    assert!(!text.contains("@@"));
}

#[test]
fn batching_respects_commit_and_char_limits() {
    let commits: Vec<NumstatCommit> = (0..250)
        .map(|i| {
            commit(
                &format!("commit {i}"),
                vec![numstat("src/a.rs", 10, 1), numstat("src/b.rs", 5, 2)],
            )
        })
        .collect();
    let batches = batch_for_map_reduce(&commits, &PathFilter::empty(), 60, 12_000);
    assert_eq!(batches.len(), 5, "250/60 → ceil");
    assert!(batches.iter().all(|b| b.len() <= 60));
    // 覆盖全部且不重复。
    let all: Vec<usize> = batches.concat();
    assert_eq!(all.len(), 250);
    assert_eq!(
        all.iter()
            .copied()
            .collect::<std::collections::HashSet<_>>()
            .len(),
        250
    );
    // 单批渲染体积不超上限（除非单条超限）。
    for b in &batches {
        let (text, _) = render_report_batch_refs(
            &b.iter().map(|&i| &commits[i]).collect::<Vec<_>>(),
            &PathFilter::empty(),
        );
        assert!(text.len() <= 14_000, "{}", text.len());
    }
}

#[test]
fn map_reduce_threshold() {
    let small: Vec<NumstatCommit> = (0..10)
        .map(|i| commit(&format!("c{i}"), vec![numstat("a.rs", 1, 0)]))
        .collect();
    assert!(!needs_map_reduce(&small, &PathFilter::empty()));
    let big: Vec<NumstatCommit> = (0..130)
        .map(|i| commit(&format!("c{i}"), vec![numstat("a.rs", 1, 0)]))
        .collect();
    assert!(needs_map_reduce(&big, &PathFilter::empty()));
}

// ---------- 错误映射 ----------

#[test]
fn http_errors_map_to_distinct_codes() {
    let auth = map_http_error(401, r#"{"error":{"message":"bad key"}}"#);
    assert!(matches!(auth, AppError::AiAuth { status: 401, .. }));
    let limit = map_http_error(429, r#"{"error":{"message":"quota"}}"#);
    assert!(matches!(limit, AppError::AiRateLimit { status: 429, .. }));
    let other = map_http_error(500, "boom");
    assert!(matches!(other, AppError::AiProvider { status: 500, .. }));
    // 非 JSON 体 → 截断为短字符串。
    let other2 = map_http_error(502, "bad gateway");
    assert!(matches!(
        other2,
        AppError::AiProvider {
            message,
            ..
        } if message == "bad gateway"
    ));
}

#[test]
fn completions_url_normalizes_trailing_slash() {
    assert_eq!(
        completions_url("http://localhost:11434/v1/"),
        "http://localhost:11434/v1/chat/completions"
    );
}


