use ibexgit_core::error::AppError;
use ibexgit_core::gitcmd::{
    branch_compare, clone_args, commit_args, commit_detail, commit_result, config_set_args, config_set_outcome,
    detail_commit, detail_files_args, diff_args, file_history_args, file_history_page, find_conflict_model,
    gitignore_append, head_message_outcome, keep_side_bytes, keep_side_entry, log_args, log_numstat_args,
    merge_args, merge_base_outcome, merge_outcome, mergetool_args, operation_command, pull_args, pull_outcome,
    push_commands, ConfigTarget, OperationAction,
};
use ibexgit_core::gitcmd::{blob_content_outcome, cat_file_args, content_of, object_size, object_spec, oversized_content};
use ibexgit_core::gitcmd::{
    apply_args, backup_delete_args, clean_args, create_branch_args, create_tag_args, delete_branch_args, fetch_args,
    has_eol_candidates, mark_eol_only, numstat_paths_args, range_count_args, reflog_args, remove_index_feed,
    remove_path_args, reset_args, restore_from_args, restore_to_head_args, restore_worktree_args, rev_list_args,
    set_remote_url_args, set_upstream_args, stage_args, stash_entry_args, stash_push_args, unstage_args,
};
use ibexgit_core::model::FileStatus;
use ibexgit_core::model::{CloneOptions, CommitInfo, DiffOptions, DiffSource, IndexEntry, OperationKind};

fn parse_message(e: AppError) -> String {
    match e {
        AppError::Parse { message } => message,
        other => panic!("expected a parse error, got {other:?}"),
    }
}

#[test]
fn push_runs_branch_then_tags() {
    let cmds = push_commands("/r", "origin", "main", true, true, true).unwrap();
    assert_eq!(
        cmds,
        vec![
            vec!["-C", "/r", "push", "--force-with-lease", "--set-upstream", "origin", "main"],
            vec!["-C", "/r", "push", "origin", "--tags"],
        ]
    );
    let only_tags = push_commands("/r", "origin", "", false, false, true).unwrap();
    assert_eq!(only_tags, vec![vec!["-C", "/r", "push", "origin", "--tags"]]);
    assert_eq!(
        parse_message(push_commands("/r", "origin", "", false, false, false).unwrap_err()),
        "push: nothing to push (no branch and no tags requested)"
    );
}

#[test]
fn pull_modes_and_outcome() {
    assert_eq!(pull_args("/r", Some("origin"), Some("dev"), Some("rebase")), vec!["-C", "/r", "pull", "--rebase", "origin", "dev"]);
    assert_eq!(pull_args("/r", None, None, Some("ff_only")), vec!["-C", "/r", "pull", "--ff-only"]);
    assert_eq!(pull_args("/r", None, None, Some("merge")), vec!["-C", "/r", "pull"]);
    let ok = pull_outcome(Some(0), "Updating a..b\nFast-forward\n".into(), String::new()).unwrap();
    assert!(ok.success && ok.fast_forward);
    let failed = pull_outcome(Some(1), String::new(), "fatal: conflict".into()).unwrap();
    assert!(!failed.success && !failed.fast_forward);
    assert_eq!(failed.message, "fatal: conflict");
    assert!(matches!(
        pull_outcome(Some(128), String::new(), "ibexgit: credential-cancelled\n".into()),
        Err(AppError::CredentialCancelled)
    ));
}

#[test]
fn merge_args_and_outcome() {
    assert_eq!(merge_args("/r", "dev", true), vec!["-C", "/r", "merge", "--ff-only", "--no-edit", "dev"]);
    let m = merge_outcome(Some(0), "Merge made".into(), String::new());
    assert!(m.success);
    assert_eq!(m.message, "Merge made");
    let m = merge_outcome(Some(1), "out".into(), "CONFLICT".into());
    assert!(!m.success);
    assert_eq!(m.message, "CONFLICT");
}

#[test]
fn commit_args_and_result() {
    assert_eq!(
        commit_args("/r", "msg", true, true),
        vec!["-C", "/r", "commit", "--amend", "--no-verify", "--cleanup=strip", "-m", "msg"]
    );
    assert_eq!(commit_args("/r", "m", false, false), vec!["-C", "/r", "commit", "--cleanup=strip", "-m", "m"]);
    let r = commit_result("0123456789abcdef\n", "msg");
    assert_eq!(r.hash, "0123456789abcdef");
    assert_eq!(r.short_hash, "0123456");
    assert_eq!(r.message, "msg");
    assert_eq!(commit_result("abc", "m").short_hash, "abc");
}

#[test]
fn operation_commands() {
    assert_eq!(operation_command("/r", Some(OperationKind::Rebase), OperationAction::Continue).unwrap(), vec!["-C", "/r", "rebase", "--continue"]);
    assert_eq!(operation_command("/r", Some(OperationKind::Bisect), OperationAction::Abort).unwrap(), vec!["-C", "/r", "bisect", "reset"]);
    assert_eq!(operation_command("/r", Some(OperationKind::Apply), OperationAction::Skip).unwrap(), vec!["-C", "/r", "am", "--skip"]);
    assert_eq!(operation_command("/r", Some(OperationKind::CherryPick), OperationAction::Abort).unwrap(), vec!["-C", "/r", "cherry-pick", "--abort"]);
    assert_eq!(parse_message(operation_command("/r", None, OperationAction::Abort).unwrap_err()), "no operation in progress");
    assert_eq!(
        parse_message(operation_command("/r", Some(OperationKind::Bisect), OperationAction::Continue).unwrap_err()),
        "continue is not available while bisecting"
    );
    assert_eq!(
        parse_message(operation_command("/r", Some(OperationKind::Merge), OperationAction::Skip).unwrap_err()),
        "skip is not available for this operation"
    );
}

#[test]
fn merge_base_outcomes() {
    assert_eq!(merge_base_outcome(Some(0), "abc123\n".into(), String::new()).unwrap().as_deref(), Some("abc123"));
    assert_eq!(merge_base_outcome(Some(0), "\n".into(), String::new()).unwrap(), None);
    assert_eq!(merge_base_outcome(Some(1), String::new(), String::new()).unwrap(), None);
    match merge_base_outcome(Some(128), "o".into(), "bad rev".into()) {
        Err(AppError::GitCommand { command, stderr, stdout, .. }) => {
            assert_eq!(command, "git merge-base exited with code 128");
            assert_eq!(stderr, "bad rev");
            assert_eq!(stdout, "o");
        }
        other => panic!("unexpected {other:?}"),
    }
    assert!(matches!(merge_base_outcome(None, String::new(), String::new()), Err(AppError::Internal { .. })));
    let c = branch_compare("3\t5\n", Some("abc".into()));
    assert_eq!((c.ahead, c.behind), (3, 5));
    assert_eq!(c.merge_base.as_deref(), Some("abc"));
}

#[test]
fn head_message_cases() {
    assert_eq!(head_message_outcome(Some(1), None, String::new(), String::new()).unwrap(), None);
    assert_eq!(head_message_outcome(Some(0), Some(0), "subject\n\nbody\n\n".into(), String::new()).unwrap().as_deref(), Some("subject\n\nbody"));
    assert!(matches!(head_message_outcome(Some(0), Some(128), String::new(), "e".into()), Err(AppError::GitCommand { .. })));
}

#[test]
fn file_history_args_and_page() {
    assert_eq!(
        file_history_args("/r", "a.txt", 50, Some("abc")),
        vec![
            "-C", "/r", "log", "--follow", "--no-color", "--format=%H%x00%h%x00%an%x00%ae%x00%aI%x00%s%x00%P",
            "--name-status", "-z", "-n", "51", "abc", "--", "a.txt"
        ]
    );
    assert_eq!(
        file_history_args("/r", "a.txt", 0, None),
        vec!["-C", "/r", "log", "--follow", "--no-color", "--format=%H%x00%h%x00%an%x00%ae%x00%aI%x00%s%x00%P", "--name-status", "-z", "--", "a.txt"]
    );
    let h1 = "a".repeat(40);
    let h2 = "b".repeat(40);
    let rec = |hash: &str, msg: &str, parents: &str| format!("{hash}\0{hash}1\0Ann\0Ann@x\02026-01-01T00:00:00Z\0{msg}\0{parents}\0\n");
    let out = format!("{}M\0a.txt\0{}M\0a.txt\0", rec(&h1, "second", &h2), rec(&h2, "first", ""));
    let page = file_history_page(Some(0), out.clone(), String::new(), Some(&h1)).unwrap();
    assert_eq!(page.len(), 1);
    assert_eq!(page[0].hash, h2);
    let full = file_history_page(Some(0), out, String::new(), None).unwrap();
    assert_eq!(full.len(), 2);
    assert!(file_history_page(Some(128), String::new(), "fatal: your current branch 'main' does not have any commits yet".into(), None).unwrap().is_empty());
    match file_history_page(Some(2), "o".into(), "e".into(), None) {
        Err(AppError::GitCommand { command, .. }) => assert_eq!(command, "git exited with code Some(2)"),
        other => panic!("unexpected {other:?}"),
    }
}

#[test]
fn mergetool_args_cases() {
    assert_eq!(
        mergetool_args("/r", "a.txt", Some("meld"), None).unwrap(),
        vec![
            "-C", "/r", "-c", "merge.tool=meld", "-c", "mergetool.prompt=false", "-c", "mergetool.meld.trustExitCode=true",
            "-c", "mergetool.keepBackup=false", "mergetool", "--", "a.txt"
        ]
    );
    let custom = mergetool_args("/r", "a.txt", None, Some("code --wait $MERGED")).unwrap();
    assert_eq!(custom[3], "merge.tool=ibexgit-custom");
    assert_eq!(custom[10], "-c");
    assert_eq!(custom[11], "mergetool.ibexgit-custom.cmd=code --wait $MERGED");
    assert_eq!(parse_message(mergetool_args("/r", "a", Some("bad tool"), None).unwrap_err()), "invalid merge tool name \"bad tool\"");
    assert_eq!(parse_message(mergetool_args("/r", "a", None, None).unwrap_err()), "mergetool: no tool configured");
}

#[test]
fn config_writes() {
    assert_eq!(config_set_args(ConfigTarget::Global, "user.name", Some("A")).unwrap(), vec!["config", "--global", "--", "user.name", "A"]);
    assert_eq!(config_set_args(ConfigTarget::Global, "user.name", None).unwrap(), vec!["config", "--global", "--unset", "--", "user.name"]);
    assert_eq!(
        config_set_args(ConfigTarget::Local("/r"), "http.proxy", Some("-x")).unwrap(),
        vec!["-C", "/r", "config", "--local", "--replace-all", "--", "http.proxy", "-x"]
    );
    assert_eq!(
        config_set_args(ConfigTarget::Local("/r"), "http.proxy", None).unwrap(),
        vec!["-C", "/r", "config", "--local", "--unset-all", "--", "http.proxy"]
    );
    assert_eq!(parse_message(config_set_args(ConfigTarget::Global, "--unset", None).unwrap_err()), "invalid config key: \"--unset\"");
    assert!(config_set_outcome(true, Some(5), String::new(), String::new()).is_ok());
    assert!(config_set_outcome(false, Some(5), String::new(), String::new()).is_err());
    assert!(config_set_outcome(false, Some(0), String::new(), String::new()).is_ok());
}

fn entry(path: &str, sha: &str, stage: u32) -> IndexEntry {
    IndexEntry { path: path.into(), mode: "100644".into(), sha: sha.into(), stage }
}

#[test]
fn keep_side_picks_the_stage() {
    let groups = vec![("a.txt".to_string(), vec![(1, entry("a.txt", "s1", 1)), (2, entry("a.txt", "s2", 2))])];
    assert_eq!(keep_side_entry(&groups, "a.txt", "ours").unwrap().sha, "s2");
    assert_eq!(parse_message(keep_side_entry(&groups, "a.txt", "theirs").unwrap_err()), "path \"a.txt\" has no theirs (stage 3) entry");
    assert_eq!(parse_message(keep_side_entry(&groups, "b.txt", "ours").unwrap_err()), "path \"b.txt\" has no unmerged index entry");
    assert_eq!(parse_message(keep_side_entry(&groups, "a.txt", "base").unwrap_err()), "unknown conflict side \"base\"");
    assert_eq!(keep_side_bytes(Some(b"x".to_vec()), "a.txt", "ours").unwrap(), b"x");
    assert_eq!(parse_message(keep_side_bytes(None, "a.txt", "ours").unwrap_err()), "ours side of \"a.txt\" is unavailable");
}

#[test]
fn clone_and_log_args() {
    let opts = CloneOptions { url: "https://h/r.git".into(), dest: "/d".into(), depth: Some(1), single_branch: true, recurse_submodules: false };
    assert_eq!(clone_args(&opts), vec!["clone", "--progress", "--depth", "1", "--single-branch", "--", "https://h/r.git", "/d"]);
    assert_eq!(
        log_args("/r", 10, 20, &["a".to_string()]),
        vec!["-C", "/r", "log", "--topo-order", "--format=%H%n%h%n%an%n%ae%n%aI%n%s%n%d%n%P", "--no-color", "-n", "10", "--skip", "20", "--", "a"]
    );
    assert_eq!(
        log_numstat_args("/r", Some("2024-01-01"), None, Some("me"), 0),
        vec!["-C", "/r", "log", "--all", "--no-color", "-z", "--numstat", "--format=%x1e%H%x1f%an%x1f%ae%x1f%aI%x1f%s", "--since", "2024-01-01", "--author", "me"]
    );
}

#[test]
fn diff_args_by_source() {
    let o = DiffOptions { context_lines: 3, ignore_whitespace: false };
    assert_eq!(diff_args("/r", DiffSource::Staged, None, &[], o), vec!["-C", "/r", "diff", "--no-color", "-M", "--diff-filter=ACDMRTUXB", "--cached"]);
    assert_eq!(
        diff_args("/r", DiffSource::Stash, None, &["p".to_string()], DiffOptions { context_lines: 10, ignore_whitespace: true }),
        vec!["-C", "/r", "diff", "--no-color", "-M", "--diff-filter=ACDMRTUXB", "--unified=10", "-w", "stash", "--", "p"]
    );
    assert_eq!(
        diff_args("/r", DiffSource::Commit, Some(("a", "b")), &[], o),
        vec!["-C", "/r", "diff", "--no-color", "-M", "--diff-filter=ACDMRTUXB", "a", "b"]
    );
}

fn commit(hash: &str, parents: &[&str]) -> CommitInfo {
    CommitInfo {
        hash: hash.into(),
        short_hash: String::new(),
        author: String::new(),
        email: String::new(),
        date: String::new(),
        message: String::new(),
        refs: Vec::new(),
        parents: parents.iter().map(|p| p.to_string()).collect(),
    }
}

#[test]
fn commit_detail_pieces() {
    assert_eq!(detail_files_args("/r", &commit("m", &["p1", "p2"])), vec!["-C", "/r", "diff-tree", "-r", "-M", "-z", "--name-status", "--no-commit-id", "p1", "m"]);
    assert_eq!(detail_files_args("/r", &commit("c", &[])), vec!["-C", "/r", "diff-tree", "--root", "-r", "-M", "-z", "--name-status", "--no-commit-id", "c"]);
    assert_eq!(parse_message(detail_commit("", "abc").unwrap_err()), "no commit \"abc\"");
    let d = commit_detail(commit("c", &["p"]), "M\0a.txt\0");
    assert_eq!(d.parent.as_deref(), Some("p"));
    assert_eq!(d.files.len(), 1);
    assert!(commit_detail(commit("r", &[]), "").parent.is_none());
}

#[test]
fn find_model_by_path() {
    assert_eq!(parse_message(find_conflict_model(Vec::new(), "x").unwrap_err()), "path \"x\" has no unmerged index entry");
}

#[test]
fn gitignore_append_skips_listed_paths() {
    let paths = vec!["build".to_string(), "a\\b.txt".to_string(), "/keep".to_string()];
    assert_eq!(gitignore_append("/build\n", &paths).as_deref(), Some("/a/b.txt\n//keep\n"));
    assert_eq!(gitignore_append("x", &["y".to_string()]).as_deref(), Some("\n/y\n"));
    assert_eq!(gitignore_append("  y  \n", &["y".to_string()]), None);
    assert_eq!(gitignore_append("", &[]), None);
}

#[test]
fn file_content_pieces() {
    assert_eq!(object_spec("HEAD~1", "src/a.rs"), "HEAD~1:src/a.rs");
    assert_eq!(cat_file_args("/r", "HEAD:a", true), vec!["-C", "/r", "cat-file", "-s", "HEAD:a"]);
    assert_eq!(cat_file_args("/r", "HEAD:a", false), vec!["-C", "/r", "cat-file", "blob", "HEAD:a"]);
    assert_eq!(object_size(" 1234\n"), 1234);
    assert_eq!(object_size("junk"), 0);
    let big = oversized_content(20 * 1024 * 1024);
    assert_eq!(big.size, 20 * 1024 * 1024);
    assert!(big.data.is_none());
    assert_eq!(oversized_content(u64::MAX).size, u32::MAX);
    let c = content_of(b"hello");
    assert_eq!(c.size, 5);
    assert_eq!(c.data.as_deref(), Some("aGVsbG8="));
    match blob_content_outcome(Some(128), b"", "fatal: bad object".into(), "HEAD:x") {
        Err(AppError::GitCommand { command, stderr, stdout, .. }) => {
            assert_eq!(command, "git cat-file blob HEAD:x");
            assert_eq!(stderr, "fatal: bad object");
            assert!(stdout.is_empty());
        }
        other => panic!("unexpected {other:?}"),
    }
    assert_eq!(blob_content_outcome(Some(0), b"ab", String::new(), "o").unwrap().data.as_deref(), Some("YWI="));
}

fn strings(v: &[&str]) -> Vec<String> {
    v.iter().map(|s| s.to_string()).collect()
}

#[test]
fn index_and_worktree_commands() {
    let p = strings(&["a", "b"]);
    assert_eq!(stage_args("/r", &p).unwrap(), vec!["-C", "/r", "add", "a", "b"]);
    assert!(stage_args("/r", &[]).is_none());
    assert_eq!(unstage_args("/r", &p).unwrap(), vec!["-C", "/r", "restore", "--staged", "a", "b"]);
    assert_eq!(restore_worktree_args("/r", &p).unwrap(), vec!["-C", "/r", "restore", "a", "b"]);
    assert_eq!(
        restore_to_head_args("/r", &p).unwrap(),
        vec!["-C", "/r", "restore", "--source=HEAD", "--staged", "--worktree", "a", "b"]
    );
    assert_eq!(clean_args("/r", &p).unwrap(), vec!["-C", "/r", "clean", "-fd", "--", "a", "b"]);
    assert!(clean_args("/r", &[]).is_none());
    assert_eq!(restore_from_args("/r", "HEAD~2", &p), vec!["-C", "/r", "restore", "--source", "HEAD~2", "--worktree", "--", "a", "b"]);
    assert_eq!(apply_args("/r", true, true), vec!["-C", "/r", "apply", "--cached", "--reverse"]);
    assert_eq!(remove_path_args("/r", "x", true), vec!["-C", "/r", "rm", "-f", "--cached", "--", "x"]);
    assert_eq!(remove_path_args("/r", "x", false), vec!["-C", "/r", "rm", "-f", "--", "x"]);
    assert_eq!(remove_index_feed(&p), "a\0b\0");
}

fn fs(path: &str, unstaged: bool, untracked: bool) -> FileStatus {
    FileStatus {
        path: path.into(),
        status: String::new(),
        orig_path: None,
        submodule: false,
        submodule_dirty: false,
        submodule_commit_changed: false,
        eol_only: false,
        staged: false,
        unstaged,
        untracked,
        skipped: false,
        conflict: false,
    }
}

#[test]
fn eol_only_changes_are_marked() {
    let mut st = vec![fs("crlf.txt", true, false), fs("real.txt", true, false), fs("new.txt", false, true)];
    assert!(has_eol_candidates(&st));
    assert!(!has_eol_candidates(&[fs("new.txt", false, true)]));
    assert_eq!(numstat_paths_args("/r", true), vec!["-C", "/r", "diff", "--numstat", "-z", "--ignore-cr-at-eol"]);
    mark_eol_only(&mut st, &strings(&["crlf.txt", "real.txt"]), &strings(&["real.txt"]));
    assert!(st[0].eol_only);
    assert!(!st[1].eol_only);
    assert!(!st[2].eol_only);
}

#[test]
fn branch_tag_stash_remote_commands() {
    assert_eq!(create_branch_args("/r", "f", Some("main")), vec!["-C", "/r", "branch", "f", "main"]);
    assert_eq!(delete_branch_args("/r", "f", true), vec!["-C", "/r", "branch", "-D", "f"]);
    assert_eq!(delete_branch_args("/r", "f", false), vec!["-C", "/r", "branch", "-d", "f"]);
    assert_eq!(set_upstream_args("/r", "f", Some("origin/f")), vec!["-C", "/r", "branch", "--set-upstream-to", "origin/f", "f"]);
    assert_eq!(set_upstream_args("/r", "f", None), vec!["-C", "/r", "branch", "--unset-upstream", "f"]);
    assert_eq!(create_tag_args("/r", "v1", Some("rel"), "HEAD"), vec!["-C", "/r", "tag", "v1", "-a", "-m", "rel", "HEAD"]);
    assert_eq!(create_tag_args("/r", "v1", None, "HEAD"), vec!["-C", "/r", "tag", "v1", "HEAD"]);
    assert_eq!(stash_push_args("/r", Some("wip")), vec!["-C", "/r", "stash", "push", "-u", "-m", "wip"]);
    assert_eq!(stash_entry_args("/r", "pop", 2), vec!["-C", "/r", "stash", "pop", "stash@{2}"]);
    assert_eq!(set_remote_url_args("/r", "o", "u", true), vec!["-C", "/r", "remote", "set-url", "--push", "o", "u"]);
    assert_eq!(fetch_args("/r", None), vec!["-C", "/r", "fetch"]);
    assert_eq!(reflog_args("/r", Some("main")), vec!["-C", "/r", "reflog", "--format=%H%x00%h%x00%gd%x00%gs%x00%cr", "main"]);
    assert_eq!(reset_args("/r", "hard", "HEAD~1"), vec!["-C", "/r", "reset", "--hard", "HEAD~1"]);
    assert_eq!(
        rev_list_args("/r", "a..b", 5, 10),
        vec!["-C", "/r", "log", "--topo-order", "--no-color", "--format=%H%n%h%n%an%n%ae%n%aI%n%s%n%d%n%P", "--skip=10", "-n5", "a..b"]
    );
    assert_eq!(range_count_args("/r", "main", "dev"), vec!["-C", "/r", "rev-list", "--left-right", "--count", "main...dev"]);
    assert_eq!(
        backup_delete_args("/r", "refs/ibexgit/backups/reset-1").unwrap(),
        vec!["-C", "/r", "update-ref", "-d", "refs/ibexgit/backups/reset-1"]
    );
    assert_eq!(parse_message(backup_delete_args("/r", "refs/heads/main").unwrap_err()), "refuse to delete non-backup ref \"refs/heads/main\"");
}

#[test]
fn content_is_standard_padded_base64() {
    // RFC 4648 test vectors, and every digit range of the alphabet.
    let cases: [(&[u8], &str); 7] = [
        (b"", ""),
        (b"f", "Zg=="),
        (b"fo", "Zm8="),
        (b"foo", "Zm9v"),
        (b"foobar", "Zm9vYmFy"),
        (&[0xfb, 0xff, 0xbf], "+/+/"),
        (&[0x00, 0x10, 0x83, 0x10, 0x51, 0x87], "ABCDEFGH"),
    ];
    for (bytes, text) in cases {
        assert_eq!(content_of(bytes).data.as_deref(), Some(text));
    }
}
