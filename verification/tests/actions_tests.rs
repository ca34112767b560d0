use ibexgit_core::actions::{
    check_worktree_path, PathPart, check_reset_mode, clean_targets, diff_options, discard_plan, discard_scope, discard_targets, is_untracked_path,
    line_op_flags, repo_config_values, reset_targets, restore_targets, split_diff_paths, squash_base, DiscardScope,
    DiscardTarget,
};
use ibexgit_core::error::AppError;
use ibexgit_core::model::{CommitInfo, DiffSource, FileStatus};
use ibexgit_core::patch::LineOp;

fn st(path: &str, staged: bool, unstaged: bool, untracked: bool, conflict: bool, orig: Option<&str>) -> FileStatus {
    FileStatus {
        path: path.into(),
        status: String::new(),
        orig_path: orig.map(|o| o.to_string()),
        submodule: false,
        submodule_dirty: false,
        submodule_commit_changed: false,
        eol_only: false,
        staged,
        unstaged,
        untracked,
        skipped: false,
        conflict,
    }
}

fn target(path: &str, untracked: bool, conflict: bool) -> DiscardTarget {
    DiscardTarget { path: path.into(), untracked, conflict }
}

#[test]
fn discard_scope_is_all_only_when_asked() {
    assert_eq!(discard_scope("all"), DiscardScope::All);
    assert_eq!(discard_scope("worktree"), DiscardScope::Worktree);
    assert_eq!(discard_scope("ALL"), DiscardScope::Worktree);
}

#[test]
fn discard_of_a_staged_rename_also_restores_the_old_path() {
    let status = vec![
        st("new.txt", true, false, false, false, Some("old.txt")),
        st("u.txt", false, false, true, false, None),
        st("c.txt", false, true, false, true, None),
    ];
    let paths = vec!["new.txt".to_string(), "gone.txt".to_string(), "u.txt".to_string(), "c.txt".to_string(), "old.txt".to_string()];
    let targets = discard_targets(&paths, &status);
    assert_eq!(
        targets,
        vec![target("new.txt", false, false), target("old.txt", false, false), target("u.txt", true, false), target("c.txt", false, true)]
    );
}

#[test]
fn discard_plan_routes_each_target() {
    let targets = vec![target("a", false, false), target("b", true, false), target("c", false, true)];
    let plan = discard_plan(&targets, DiscardScope::Worktree);
    assert_eq!(plan.worktree, vec!["a"]);
    assert_eq!(plan.head, vec!["c"]);
    assert_eq!(plan.untracked, vec!["b"]);
    let all = discard_plan(&targets, DiscardScope::All);
    assert!(all.worktree.is_empty());
    assert_eq!(all.head, vec!["a", "c"]);
}

#[test]
fn reset_snapshots_tracked_changes_only() {
    let status = vec![
        st("s", true, false, false, false, None),
        st("u", false, false, true, false, None),
        st("w", false, true, false, false, None),
        st("clean", false, false, false, false, None),
        st("x", false, false, false, true, None),
    ];
    assert_eq!(reset_targets(&status), vec![target("s", false, false), target("w", false, false), target("x", false, true)]);
}

#[test]
fn restore_and_clean_targets() {
    let status = vec![st("n.txt", false, false, true, false, None), st("k.txt", false, false, true, true, None)];
    assert!(is_untracked_path(&status, "n.txt"));
    assert!(!is_untracked_path(&status, "k.txt"));
    let r = restore_targets(&["n.txt".to_string(), "k.txt".to_string()], &status);
    assert_eq!(r, vec![target("n.txt", true, false), target("k.txt", false, false)]);
    let c = clean_targets(&["build/".to_string(), "x.log".to_string()]);
    assert_eq!(c, vec![target("build", true, false), target("x.log", true, false)]);
}

#[test]
fn worktree_diff_synthesizes_untracked_paths() {
    let status = vec![st("n.txt", false, false, true, false, None), st("m.txt", false, true, false, false, None)];
    let req = vec!["m.txt".to_string(), "n.txt".to_string()];
    let (git, synth) = split_diff_paths(DiffSource::Worktree, req.clone(), &status);
    assert_eq!(git, vec!["m.txt"]);
    assert_eq!(synth, vec!["n.txt"]);
    let (git, synth) = split_diff_paths(DiffSource::Staged, req, &status);
    assert_eq!(git, vec!["m.txt", "n.txt"]);
    assert!(synth.is_empty());
}

#[test]
fn diff_options_default_and_clamp() {
    let o = diff_options(None, None);
    assert_eq!(o.context_lines, 3);
    assert!(!o.ignore_whitespace);
    assert_eq!(diff_options(Some(1_000_000), Some(true)).context_lines, 100_000);
    assert!(diff_options(Some(5), Some(true)).ignore_whitespace);
}

#[test]
fn line_ops_apply_flags() {
    assert_eq!(line_op_flags(LineOp::Stage), (true, false));
    assert_eq!(line_op_flags(LineOp::Discard), (false, true));
    assert_eq!(line_op_flags(LineOp::Unstage), (true, true));
}

fn commit(hash: &str, parents: &[&str]) -> CommitInfo {
    CommitInfo {
        hash: hash.into(),
        short_hash: String::new(),
        author: String::new(),
        email: String::new(),
        date: String::new(),
        message: String::new(),
        refs: Vec::new(),
        parents: parents.iter().map(|p| p.to_string()).collect(),
    }
}

fn squash_err(r: Result<String, AppError>) -> String {
    match r {
        Err(AppError::Parse { message }) => message,
        other => panic!("expected a parse error, got {other:?}"),
    }
}

#[test]
fn squash_base_is_the_parent_of_the_oldest_selected() {
    let log = vec![commit("c3", &["c2"]), commit("c2", &["c1"]), commit("c1", &["c0"])];
    let hs = vec!["c2".to_string(), "c3".to_string()];
    assert_eq!(squash_base(&hs, &log[..2]).unwrap(), "c1");
}

#[test]
fn squash_rejects_bad_selections() {
    let log = vec![commit("c3", &["c2"]), commit("c2", &["c1", "m"]), commit("c1", &[])];
    assert_eq!(
        squash_err(squash_base(&["c3".to_string(), "c2".to_string(), "c1".to_string(), "c0".to_string()], &log)),
        "squash: selection extends past the repository root"
    );
    assert_eq!(
        squash_err(squash_base(&["c3".to_string(), "c1".to_string()], &log[..2])),
        "squash: selection must be the newest consecutive commits"
    );
    assert_eq!(
        squash_err(squash_base(&["c3".to_string(), "c3".to_string()], &log[..2])),
        "squash: selection must be the newest consecutive commits"
    );
    assert_eq!(
        squash_err(squash_base(&["c3".to_string(), "c2".to_string()], &log[..2])),
        "squash: merge commits cannot be squashed (v1)"
    );
    let linear = vec![commit("c3", &["c2"]), commit("c2", &["x", "y"])];
    assert_eq!(
        squash_err(squash_base(&["c3".to_string(), "c2".to_string()], &linear)),
        "squash: merge commits cannot be squashed (v1)"
    );
}

#[test]
fn repo_config_values_last_occurrence_wins() {
    let local = vec![("user.name".to_string(), "a".to_string()), ("user.name".to_string(), "b".to_string())];
    let merged = vec![
        ("user.name".to_string(), "b".to_string()),
        ("pull.rebase".to_string(), "true".to_string()),
        ("other.key".to_string(), "x".to_string()),
    ];
    let v = repo_config_values(local, merged);
    assert_eq!(v.len(), 8);
    assert_eq!(v[0].key, "user.name");
    assert_eq!(v[0].local.as_deref(), Some("b"));
    assert_eq!(v[0].effective.as_deref(), Some("b"));
    assert_eq!(v[5].key, "pull.rebase");
    assert_eq!(v[5].local, None);
    assert_eq!(v[5].effective.as_deref(), Some("true"));
    assert_eq!(v[7].key, "push.autoSetupRemote");
}

#[test]
fn reset_mode_errors_name_the_mode() {
    assert!(check_reset_mode("hard", false).is_ok());
    match check_reset_mode("wipe", false) {
        Err(AppError::Parse { message }) => assert_eq!(message, "reset: invalid mode \"wipe\" (soft|mixed|hard)"),
        other => panic!("unexpected {other:?}"),
    }
    match check_reset_mode("wipe", true) {
        Err(AppError::Parse { message }) => assert_eq!(message, "undo reset: invalid mode \"wipe\""),
        other => panic!("unexpected {other:?}"),
    }
}

fn internal(r: Result<(), AppError>) -> String {
    match r {
        Err(AppError::Internal { message }) => message,
        other => panic!("expected an internal error, got {other:?}"),
    }
}

#[test]
fn worktree_paths_stay_below_the_root() {
    let n = PathPart::Normal;
    assert!(check_worktree_path("a/b", false, &[n, n]).is_ok());
    assert!(check_worktree_path("a/../b", false, &[n, PathPart::ParentDir, n]).is_ok());
    assert_eq!(internal(check_worktree_path("../x", false, &[PathPart::ParentDir, n])), "path escapes repo: ../x");
    assert_eq!(internal(check_worktree_path("a/..", false, &[n, PathPart::ParentDir])), "path escapes repo: a/..");
    assert_eq!(internal(check_worktree_path(".", false, &[PathPart::CurDir])), "path escapes repo: .");
    assert_eq!(internal(check_worktree_path("/etc", true, &[PathPart::RootDir, n])), "absolute path not allowed: /etc");
    assert_eq!(internal(check_worktree_path("C:x", false, &[PathPart::Prefix, n])), "absolute path not allowed: C:x");
}
