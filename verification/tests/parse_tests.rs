use ibexgit_core::diff::parse_diff;
use ibexgit_core::history::{iso_from_ts_tz, parse_blame, parse_file_history, BLAME_UNCOMMITTED_SHA};
use ibexgit_core::model::{BlameResult, CommitFileStat, DiffLineKind, DiffSource, FileCommit};
use ibexgit_core::parse::{
    config_key_valid, config_last_wins, parse_backup_refs, parse_branches, parse_commit_files,
    parse_config_list_z, parse_log, parse_log_numstat, parse_ls_files, parse_nul_paths,
    parse_numstat_paths, parse_range_count, parse_reflog, parse_remotes, parse_stash, parse_status,
    parse_tags,
};
use ibexgit_core::progress::{parse_clone_progress, parse_dirty_worktree, CloneProgress};



// ---------- log --numstat (P11 AI 报告采集) ----------

/// 与真实 git 输出字节一致的 fixture（含 binary / rename / 空提交）。
const NUMSTAT_FIXTURE: &str = "\x1eb9771711aa88f5b6c441f3de51b3818ee395c48\x1fA\x1fa@x.com\x1f2026-09-17T09:21:42+08:00\x1fbinary\0\n-\t-\tbin.dat\0\x1e79d1cb4b5e28fa7b65addbc191b838ade7c8f0be\x1fA\x1fa@x.com\x1f2026-09-17T09:21:42+08:00\x1frename\0\n0\t0\t\0a.txt\0b.txt\0\x1e2eff30d5739d660e4234bed7bc3a4e15fc584ca1\x1fA\x1fa@x.com\x1f2026-09-17T09:21:42+08:00\x1fadd a.txt\0\n1\t0\ta.txt\0\x1efbcc88bca339d7f904775fb6f7441e116e2227\x1fA\x1fa@x.com\x1f2026-09-17T09:21:42+08:00\x1fempty commit\0";

#[test]
fn log_numstat_binary_rename_and_empty() {
    let out = parse_log_numstat(NUMSTAT_FIXTURE);
    assert_eq!(out.len(), 4);
    // newest first (input order preserved)
    let binary = &out[0];
    assert_eq!(binary.subject, "binary");
    assert_eq!(binary.short_hash, "b977171");
    assert_eq!(binary.files.len(), 1);
    assert!(binary.files[0].binary);
    assert_eq!(binary.files[0].path, "bin.dat");

    let rename = &out[1];
    assert_eq!(rename.files.len(), 1);
    assert_eq!(rename.files[0].orig_path.as_deref(), Some("a.txt"));
    assert_eq!(rename.files[0].path, "b.txt");
    assert_eq!(
        (rename.files[0].additions, rename.files[0].deletions),
        (0, 0)
    );

    let add = &out[2];
    assert_eq!(add.files.len(), 1);
    assert_eq!((add.files[0].additions, add.files[0].deletions), (1, 0));

    let empty = &out[3];
    assert_eq!(empty.subject, "empty commit");
    assert!(empty.files.is_empty());
    // header fields round-trip
    assert_eq!(empty.author, "A");
    assert_eq!(empty.email, "a@x.com");
    assert_eq!(empty.date, "2026-09-17T09:21:42+08:00");
}

#[test]
fn log_numstat_empty_and_truncated_input() {
    assert!(parse_log_numstat("").is_empty());
    // Truncated tail (no header NUL) is skipped, complete records kept.
    let raw = "\x1eabc\x1fA\x1fa@x\x1f2026-01-01T00:00:00+00:00\x1fs1\0\n1\t0\tf\0\x1etrunc";
    let out = parse_log_numstat(raw);
    assert_eq!(out.len(), 1);
    assert_eq!(out[0].subject, "s1");
}

#[test]
fn log_numstat_subject_with_unit_separator_is_rejoined() {
    let raw = "\x1eabc\x1fA\x1fa@x\x1f2026-01-01T00:00:00+00:00\x1ftitle\x1fpart\0\n1\t0\tf\0";
    let out = parse_log_numstat(raw);
    assert_eq!(out[0].subject, "title\x1fpart");
}

// ---------- status ----------

#[test]
fn status_v2_ordinary_modified() {
    // M. = staged modified; .M = unstaged modified
    let raw = "1 .M N... 100644 100644 100644 abc def src/main.rs\0";
    let out = parse_status(raw);
    assert_eq!(out.len(), 1);
    let f = &out[0];
    assert_eq!(f.path, "src/main.rs");
    assert_eq!(f.status, ".M");
    assert!(f.unstaged);
    assert!(!f.staged);
    assert!(!f.untracked);
    assert!(!f.conflict);
}

#[test]
fn status_v2_staged_and_unstaged() {
    let raw = "1 MM N... 100644 100644 100644 abc def a.txt\0";
    let out = parse_status(raw);
    let f = &out[0];
    assert!(f.staged);
    assert!(f.unstaged);
}

#[test]
fn status_v2_untracked_and_ignored() {
    let raw = "? new.txt\0! ignored.log\x001 .M N... 100644 100644 100644 a b tracked\0";
    let out = parse_status(raw);
    assert_eq!(out.len(), 2);
    assert_eq!(out[0].path, "new.txt");
    assert!(out[0].untracked);
    assert_eq!(out[1].path, "tracked");
}

#[test]
fn status_v2_rename_with_orig_path() {
    // rename entries are `2 ... <path>\0<origPath>\0`
    let raw = "2 R. N... 100644 100644 100644 abc def R95 new.txt\0old.txt\0";
    let out = parse_status(raw);
    assert_eq!(out.len(), 1);
    let f = &out[0];
    assert_eq!(f.path, "new.txt");
    assert_eq!(f.orig_path.as_deref(), Some("old.txt"));
    assert_eq!(f.status, "R.");
    assert!(f.staged);
    assert!(!f.unstaged);
}

#[test]
fn status_v2_unmerged_conflict() {
    let raw = "u AA N... 000000 100644 100644 000000 h1 h2 h3 conflict.txt\0";
    let out = parse_status(raw);
    let f = &out[0];
    assert_eq!(f.path, "conflict.txt");
    assert!(f.conflict);
    assert!(f.staged && f.unstaged);
}

#[test]
fn status_v2_chinese_filename_raw_utf8() {
    // core.quotepath=false → raw UTF-8, no quoting
    let raw = "? 中文文件.txt\0";
    let out = parse_status(raw);
    assert_eq!(out[0].path, "中文文件.txt");
}

#[test]
fn status_v2_skip_worktree() {
    let raw = "1 .S N... 100644 100644 100644 a b skip.txt\0";
    let out = parse_status(raw);
    assert!(out[0].skipped);
}

#[test]
fn status_v2_submodule_states() {
    // sub field (real git output): N... = plain, S..U = untracked content
    // inside the submodule (dirty), SC.. = different checked-in commit.
    let raw = "1 .M S..U 160000 160000 160000 a b sub1\0\
               1 .M N... 100644 100644 100644 a b file\0\
               1 .M SC.. 160000 160000 160000 a b sub2\0";
    let out = parse_status(raw);
    assert_eq!(out.len(), 3);
    assert!(out[0].submodule && out[0].submodule_dirty);
    assert!(!out[0].submodule_commit_changed);
    assert!(!out[1].submodule && !out[1].submodule_dirty);
    assert!(out[2].submodule && out[2].submodule_commit_changed);
    assert!(!out[2].submodule_dirty);
}

// ---------- ls-files -s ----------

#[test]
fn ls_files_basic_and_unmerged() {
    let raw = "100644 1111111111111111111111111111111111111111 0\ta.txt\0\
               100755 2222222222222222222222222222222222222222 0\tsh\0\
               100644 3333333333333333333333333333333333333333 1\tc.txt\0\
               100644 4444444444444444444444444444444444444444 2\tc.txt\0\
               100644 5555555555555555555555555555555555555555 3\tc.txt\0";
    let out = parse_ls_files(raw);
    assert_eq!(out.len(), 5);
    assert_eq!(out[0].path, "a.txt");
    assert_eq!(out[0].mode, "100644");
    assert_eq!(out[0].stage, 0);
    assert_eq!(out[1].mode, "100755");
    let stages: Vec<u32> = out[2..]
        .iter()
        .filter(|e| e.path == "c.txt")
        .map(|e| e.stage)
        .collect();
    assert_eq!(stages, vec![1, 2, 3]);
}

// ---------- numstat -z ----------

#[test]
fn numstat_paths_basic_and_binary() {
    let raw = "1\t2\ta.txt\0-\t-\timg.png\x005\t0\tb.md\0";
    let out = parse_numstat_paths(raw);
    assert_eq!(out, vec!["a.txt", "img.png", "b.md"]);
}

#[test]
fn numstat_paths_rename_empty_path_slot() {
    // rename layout: `1\t0\t\0orig\0new\0` (path slot empty)
    let raw = "1\t0\t\0old.txt\0new.txt\x003\t1\tok.txt\0";
    let out = parse_numstat_paths(raw);
    assert_eq!(out, vec!["new.txt", "ok.txt"]);
}

#[test]
fn numstat_paths_chinese_filename_raw_utf8() {
    let raw = "1\t1\t中文.txt\0";
    let out = parse_numstat_paths(raw);
    assert_eq!(out, vec!["中文.txt"]);
}

// ---------- diff ----------

#[test]
fn diff_simple_modify() {
    // NOTE: `\x20` renders the mandatory context-line prefix space that the
    // Rust string continuation `\`+newline would otherwise strip.
    let raw = "diff --git a/a.txt b/a.txt\n\
               index 111..222 100644\n\
               --- a/a.txt\n\
               +++ b/a.txt\n\
               @@ -1,3 +1,3 @@ fn section\n\
               \x20context line\n\
               -old line\n\
               +new line\n\
               \x20another context\n";
    let model = parse_diff(raw, DiffSource::Worktree, None).unwrap();
    assert_eq!(model.files.len(), 1);
    let f = &model.files[0];
    assert_eq!(f.old_path.as_deref(), Some("a.txt"));
    assert_eq!(f.new_path.as_deref(), Some("a.txt"));
    assert_eq!(f.hunks.len(), 1);
    let h = &f.hunks[0];
    assert_eq!(h.old_start, 1);
    assert_eq!(h.new_start, 1);
    assert_eq!(h.header, "fn section");
    assert_eq!(h.lines.len(), 4);
    assert_eq!(h.lines[0].kind, DiffLineKind::Context);
    assert_eq!(h.lines[0].left_no, Some(1));
    assert_eq!(h.lines[0].right_no, Some(1));
    assert_eq!(h.lines[1].kind, DiffLineKind::Remove);
    assert_eq!(h.lines[1].left_no, Some(2));
    assert_eq!(h.lines[1].right_no, None);
    assert_eq!(h.lines[2].kind, DiffLineKind::Add);
    assert_eq!(h.lines[2].right_no, Some(2));
    assert_eq!(h.lines[3].left_no, Some(3));
}

#[test]
fn diff_add_and_delete_file() {
    let raw = "diff --git a/added.txt b/added.txt\n\
               new file mode 100644\n\
               index 000..abc\n\
               --- /dev/null\n\
               +++ b/added.txt\n\
               @@ -0,0 +1,2 @@\n\
               +line one\n\
               +line two\n\
               diff --git a/deleted.txt b/deleted.txt\n\
               deleted file mode 100644\n\
               index abc..000\n\
               --- a/deleted.txt\n\
               +++ /dev/null\n\
               @@ -1,1 +0,0 @@\n\
               -goodbye\n";
    let model = parse_diff(raw, DiffSource::Staged, None).unwrap();
    assert_eq!(model.files.len(), 2);
    assert_eq!(model.files[0].old_path, None);
    assert_eq!(model.files[0].new_path.as_deref(), Some("added.txt"));
    assert_eq!(model.files[0].hunks[0].lines.len(), 2);
    assert_eq!(model.files[1].old_path.as_deref(), Some("deleted.txt"));
    assert_eq!(model.files[1].new_path, None);
    assert_eq!(model.files[1].hunks[0].lines[0].kind, DiffLineKind::Remove);
}

#[test]
fn diff_rename_with_similarity() {
    let raw = "diff --git a/old_name.txt b/new_name.txt\n\
               similarity index 92%\n\
               rename from old_name.txt\n\
               rename to new_name.txt\n\
               index 111..222 100644\n\
               --- a/old_name.txt\n\
               +++ b/new_name.txt\n\
               @@ -1 +1 @@\n\
               -content\n\
               +content2\n";
    let model = parse_diff(raw, DiffSource::Worktree, None).unwrap();
    let f = &model.files[0];
    assert_eq!(f.old_path.as_deref(), Some("old_name.txt"));
    assert_eq!(f.new_path.as_deref(), Some("new_name.txt"));
    assert_eq!(f.similarity, Some(92));
}

#[test]
fn diff_binary_and_no_newline_marker() {
    let raw = "diff --git a/img.png b/img.png\n\
               index 111..222 100644\n\
               Binary files a/img.png and b/img.png differ\n\
               diff --git a/x.txt b/x.txt\n\
               index 333..444 100644\n\
               --- a/x.txt\n\
               +++ b/x.txt\n\
               @@ -1 +1 @@\n\
               -old\\n\n\
               +new\n\
               \\ No newline at end of file\n";
    let model = parse_diff(raw, DiffSource::Worktree, None).unwrap();
    assert_eq!(model.files.len(), 2);
    assert!(model.files[0].binary);
    // "\ No newline" line must not be counted as a diff line.
    assert_eq!(model.files[1].hunks[0].lines.len(), 2);
}

#[test]
fn diff_body_line_starting_with_dashes_not_misparsed() {
    // A removed line whose content is "-- separator" appears as "--- separator"
    // and must stay a body line, not start a new file.
    let raw = "diff --git a/doc.md b/doc.md\n\
               index 111..222 100644\n\
               --- a/doc.md\n\
               +++ b/doc.md\n\
               @@ -1,3 +1,2 @@\n\
               \x20title\n\
               --- separator\n\
               -old\n\
               +new\n\
               diff --git a/next.txt b/next.txt\n\
               index 333..444 100644\n\
               --- a/next.txt\n\
               +++ b/next.txt\n\
               @@ -1 +1 @@\n\
               -a\n\
               +b\n";
    let model = parse_diff(raw, DiffSource::Worktree, None).unwrap();
    assert_eq!(model.files.len(), 2);
    let f0 = &model.files[0];
    assert_eq!(f0.old_path.as_deref(), Some("doc.md"));
    let h = &f0.hunks[0];
    assert_eq!(h.lines.len(), 4);
    assert_eq!(h.lines[1].kind, DiffLineKind::Remove);
    assert_eq!(h.lines[1].content, "-- separator");
    assert_eq!(model.files[1].old_path.as_deref(), Some("next.txt"));
    assert_eq!(model.files[1].hunks.len(), 1);
}

#[test]
fn diff_path_with_space_and_empty_context_line() {
    let raw = "diff --git a/sp ace.txt b/sp ace.txt\n\
               index 111..222 100644\n\
               --- a/sp ace.txt\n\
               +++ b/sp ace.txt\n\
               @@ -1,3 +1,3 @@\n\
               \x20first\n\
               \x20\n\
               -third\n\
               +changed\n";
    let model = parse_diff(raw, DiffSource::Worktree, None).unwrap();
    let f = &model.files[0];
    assert_eq!(f.old_path.as_deref(), Some("sp ace.txt"));
    let h = &f.hunks[0];
    // The blank context line is preserved.
    assert_eq!(h.lines[1].kind, DiffLineKind::Context);
    assert_eq!(h.lines[1].content, "");
    assert_eq!(h.lines.len(), 4);
}

#[test]
fn diff_hunk_counts_advance_line_numbers() {
    let raw = "diff --git a/n.txt b/n.txt\n\
               index 111..222 100644\n\
               --- a/n.txt\n\
               +++ b/n.txt\n\
               @@ -10,3 +10,4 @@\n\
               \x20a\n\
               +b\n\
               \x20c\n\
               \x20d\n";
    let model = parse_diff(raw, DiffSource::Worktree, None).unwrap();
    let lines = &model.files[0].hunks[0].lines;
    assert_eq!(lines[0].left_no, Some(10));
    assert_eq!(lines[0].right_no, Some(10));
    assert_eq!(lines[1].right_no, Some(11));
    assert_eq!(lines[2].right_no, Some(12));
    assert_eq!(lines[2].left_no, Some(11));
}

#[test]
fn diff_rev_range_recorded() {
    let model = parse_diff("", DiffSource::Commit, Some(("HEAD~1", "HEAD"))).unwrap();
    assert_eq!(model.old_revision.as_deref(), Some("HEAD~1"));
    assert_eq!(model.new_revision.as_deref(), Some("HEAD"));
}

#[test]
fn diff_octal_escaped_path_unquoted() {
    // With quotepath=false non-ASCII comes raw, but quoted fallback still handled.
    // \\346\\226\\207 = UTF-8 bytes of 文.
    let raw = "diff --git a/\\346\\226\\207.txt b/\\346\\226\\207.txt\n\
               index 111..222 100644\n\
               --- \"a/\\346\\226\\207.txt\"\n\
               +++ \"b/\\346\\226\\207.txt\"\n\
               @@ -1 +1 @@\n\
               -a\n\
               +b\n";
    let model = parse_diff(raw, DiffSource::Worktree, None).unwrap();
    let f = &model.files[0];
    assert_eq!(f.old_path, Some("文.txt".to_string()));
}

#[test]
fn diff_no_newline_marker_flags_lines() {
    // Old side: "old" without trailing newline; new side adds two lines.
    let raw = "diff --git a/x.txt b/x.txt\n\
               index 333..444 100644\n\
               --- a/x.txt\n\
               +++ b/x.txt\n\
               @@ -1 +1,2 @@\n\
               -old\n\
               \\ No newline at end of file\n\
               +old\n\
               +new\n";
    let model = parse_diff(raw, DiffSource::Worktree, None).unwrap();
    let lines = &model.files[0].hunks[0].lines;
    assert_eq!(lines.len(), 3);
    assert!(lines[0].no_eol, "remove line must be flagged");
    assert!(!lines[1].no_eol);
    assert!(!lines[2].no_eol);
}

#[test]
fn diff_no_newline_on_both_sides_and_add_only() {
    // Both sides end without newline (context marker) + a pure-add tail.
    let raw = "diff --git a/y.txt b/y.txt\n\
               index 333..444 100644\n\
               --- a/y.txt\n\
               +++ b/y.txt\n\
               @@ -1 +1,2 @@\n\
               \x20last\n\
               \\ No newline at end of file\n\
               +appended\n\
               \\ No newline at end of file\n";
    let model = parse_diff(raw, DiffSource::Worktree, None).unwrap();
    let lines = &model.files[0].hunks[0].lines;
    assert_eq!(lines.len(), 2);
    assert!(lines[0].kind == DiffLineKind::Context && lines[0].no_eol);
    assert!(lines[1].kind == DiffLineKind::Add && lines[1].no_eol);
}

#[test]
fn diff_worktree_only_change_removes_trailing_newline() {
    let raw = "diff --git a/z.txt b/z.txt\n\
               index 333..444 100644\n\
               --- a/z.txt\n\
               +++ b/z.txt\n\
               @@ -1 +1 @@\n\
               -tail\n\
               +tail\n\
               \\ No newline at end of file\n";
    let model = parse_diff(raw, DiffSource::Worktree, None).unwrap();
    let lines = &model.files[0].hunks[0].lines;
    assert!(!lines[0].no_eol);
    assert!(lines[1].no_eol);
}

// ---------- log ----------

#[test]
fn log_two_commits_with_parents_and_refs() {
    let raw = "aaaa1111aaaa1111aaaa1111aaaa1111aaaa1111\n\
               aaaa111\n\
               Alice\n\
               alice@example.com\n\
               2024-01-01T10:00:00+08:00\n\
               add feature\n\
               (HEAD -> main, origin/main)\n\
               \n\
               bbbb2222bbbb2222bbbb2222bbbb2222bbbb2222\n\
               bbbb222\n\
               Bob\n\
               bob@example.com\n\
               2024-01-02T10:00:00+08:00\n\
               initial\n\
               \n\
               aaaa1111aaaa1111aaaa1111aaaa1111aaaa1111\n";
    let out = parse_log(raw);
    assert_eq!(out.len(), 2);
    let c0 = &out[0];
    assert_eq!(c0.hash, "aaaa1111aaaa1111aaaa1111aaaa1111aaaa1111");
    assert_eq!(c0.author, "Alice");
    assert_eq!(c0.message, "add feature");
    assert_eq!(c0.refs, vec!["HEAD -> main", "origin/main"]);
    assert!(c0.parents.is_empty()); // root commit
    let c1 = &out[1];
    assert_eq!(c1.parents, vec!["aaaa1111aaaa1111aaaa1111aaaa1111aaaa1111"]);
    assert!(c1.refs.is_empty());
}

// ---------- branches ----------

#[test]
fn branches_parse_track_and_head() {
    let raw = "refs/heads/feature\0feature\0\0\0 \0abc1234abc1234abc1234abc1234abc1234\n\
               refs/heads/main\0main\0origin/main\0[ahead 1, behind 2]\0*\0def5678def5678def5678def5678def5678\n";
    let out = parse_branches(raw);
    assert_eq!(out.len(), 2);
    let feat = &out[0];
    assert_eq!(feat.name, "feature");
    assert_eq!(feat.full_name, "refs/heads/feature");
    assert_eq!(feat.upstream, None);
    assert_eq!((feat.ahead, feat.behind), (0, 0));
    assert!(!feat.current);
    let main = &out[1];
    assert_eq!(main.upstream.as_deref(), Some("origin/main"));
    assert_eq!((main.ahead, main.behind), (1, 2));
    assert!(main.current);
}

#[test]
fn branches_parse_gone_upstream() {
    let raw = "refs/heads/dev\0dev\0origin/dev\0[gone]\0 \0abc\n";
    let out = parse_branches(raw);
    let b = &out[0];
    assert_eq!((b.ahead, b.behind), (0, 0));
    assert_eq!(b.upstream.as_deref(), Some("origin/dev"));
}

// ---------- tags ----------

#[test]
fn tags_parse() {
    let raw =
        "refs/tags/v1.0\0v1.0\0abc1234full\0Alice\x002024-01-01 10:00:00 +0800\0release one\n\
               refs/tags/light\0light\0def5678full\0\0\0\n";
    let out = parse_tags(raw);
    assert_eq!(out.len(), 2);
    let t = &out[0];
    assert_eq!(t.name, "v1.0");
    assert_eq!(t.full_name, "refs/tags/v1.0");
    assert_eq!(t.tagger.as_deref(), Some("Alice"));
    assert_eq!(t.message.as_deref(), Some("release one"));
    let light = &out[1];
    assert_eq!(light.tagger, None::<String>);
    assert_eq!(light.message, None::<String>);
}

// ---------- stash ----------

#[test]
fn stash_parse_wip_and_on() {
    let raw = "h1\0stash@{0}\0WIP on main: abc123 some commit\x002 hours ago\n\
               h2\0stash@{1}\0On feature: manual message\0yesterday\n";
    let out = parse_stash(raw);
    assert_eq!(out.len(), 2);
    let s0 = &out[0];
    assert_eq!(s0.index, 0);
    assert_eq!(s0.branch.as_deref(), Some("main"));
    assert_eq!(s0.message, "abc123 some commit");
    let s1 = &out[1];
    assert_eq!(s1.index, 1);
    assert_eq!(s1.branch.as_deref(), Some("feature"));
    assert_eq!(s1.message, "manual message");
}

// ---------- remotes ----------

#[test]
fn remotes_parse_fetch_and_push() {
    let raw = "origin\thttps://example.com/a.git (fetch)\n\
               origin\thttps://example.com/a.git (push)\n\
               upstream\tgit@github.com:b/b.git (fetch)\n";
    let out = parse_remotes(raw);
    assert_eq!(out.len(), 2);
    let o = &out[0];
    assert_eq!(o.name, "origin");
    assert_eq!(o.fetch_url, "https://example.com/a.git");
    assert_eq!(o.push_url, "https://example.com/a.git");
    let u = &out[1];
    assert_eq!(u.name, "upstream");
    assert_eq!(u.fetch_url, "git@github.com:b/b.git");
    assert_eq!(u.push_url, "");
}

// ---------- reflog ----------

#[test]
fn reflog_parse() {
    let raw = "h1\0s1\0HEAD@{0}\0commit: fix bug\x002024-01-01 10:00:00 +0800\n\
               h2\0s2\0HEAD@{1}\0checkout: moving from main to dev\x002024-01-01 09:00:00 +0800\n";
    let out = parse_reflog(raw);
    assert_eq!(out.len(), 2);
    let r0 = &out[0];
    assert_eq!(r0.hash, "h1");
    assert_eq!(r0.ref_name, "HEAD");
    assert_eq!(r0.message, "commit: fix bug");
    assert_eq!(r0.date, "2024-01-01 10:00:00 +0800");
}

// ---------- commit files (name-status -z) ----------


#[test]
fn commit_files_parse_basic_and_rename() {
    // M, A, D and a rename with score; trailing NUL terminates.
    let raw = "M\0src/app.rs\0A\0new.txt\0D\0old.txt\0R93\0a.txt\0b.txt\0\0";
    let out = parse_commit_files(raw);
    assert_eq!(
        out,
        vec![
            CommitFileStat {
                status: "M".into(),
                score: None,
                path: "src/app.rs".into(),
                orig_path: None
            },
            CommitFileStat {
                status: "A".into(),
                score: None,
                path: "new.txt".into(),
                orig_path: None
            },
            CommitFileStat {
                status: "D".into(),
                score: None,
                path: "old.txt".into(),
                orig_path: None
            },
            CommitFileStat {
                status: "R".into(),
                score: Some(93),
                path: "b.txt".into(),
                orig_path: Some("a.txt".into())
            },
        ]
    );
}

#[test]
fn commit_files_parse_empty_output() {
    assert!(parse_commit_files("").is_empty());
    assert!(parse_commit_files("\0").is_empty());
}

/// Chinese paths pass through raw (core.quotepath=false enforced at the
/// runner level); typechange letters carry no score.
#[test]
fn commit_files_parse_unicode_and_typechange() {
    let raw = "T\0链接\0C75\0orig\\20name\0dst\0\0";
    let out = parse_commit_files(raw);
    assert_eq!(out.len(), 2);
    assert_eq!(out[0].status, "T");
    assert_eq!(out[0].path, "链接");
    assert_eq!(out[1].status, "C");
    assert_eq!(out[1].score, Some(75));
    assert_eq!(out[1].orig_path.as_deref(), Some("orig\\20name"));
}

// ---------- clean / backup refs (P6) ----------

#[test]
fn nul_paths_split_and_skip_empty() {
    let raw = "a.txt\0dir/\0中 文.txt\0\0";
    let out = parse_nul_paths(raw);
    assert_eq!(out, vec!["a.txt", "dir/", "中 文.txt"]);
    assert!(parse_nul_paths("").is_empty());
}

// ---------- config --list -z (P10 配置查看器) ----------

#[test]
fn config_list_z_basic_and_empty() {
    assert!(parse_config_list_z("").is_empty());
    // Trailing NUL yields no phantom entry.
    let raw = "core\nvalue with = and spaces\0user\n张三\0";
    let out = parse_config_list_z(raw);
    assert_eq!(
        out,
        vec![
            ("core".to_string(), "value with = and spaces".to_string()),
            ("user".to_string(), "张三".to_string()),
        ]
    );
}

#[test]
fn config_list_z_multiline_and_valueless() {
    // Multi-line value: only the first LF separates key from value.
    // Valueless (boolean-true) key = no LF at all → empty value.
    let raw = "alias.lg\nlog --oneline\n --graph\0core.bare\0";
    let out = parse_config_list_z(raw);
    assert_eq!(
        out,
        vec![
            (
                "alias.lg".to_string(),
                "log --oneline\n --graph".to_string()
            ),
            ("core.bare".to_string(), String::new()),
        ]
    );
}

// ---------- config key validation (P10 常用配置编辑) ----------

#[test]
fn config_key_accepts_common_shapes() {
    for key in [
        "user.name",
        "user.email",
        "http.proxy",
        "https.proxy",
        "remote.origin.url",
        "remote.o-1.url", // subsection with digits/dashes
    ] {
        assert!(config_key_valid(key), "{key} should be valid");
    }
}

#[test]
fn config_key_rejects_injection_and_malformed() {
    for key in [
        "",           // empty
        "username",   // no dot → no section separator
        "--unset",    // argument injection
        "-user.name", // leading dash
        ".user.name", // leading dot
        "user.name.", // trailing dot
        "user..name", // empty segment
        "user name",  // whitespace
        "user\nname", // control char
        "usér.name",  // non-ASCII
    ] {
        assert!(!config_key_valid(key), "{key:?} should be rejected");
    }
}

#[test]
fn config_last_wins_takes_final_occurrence() {
    let entries = vec![
        ("user.name".to_string(), "first".to_string()),
        ("http.proxy".to_string(), "p1".to_string()),
        ("user.name".to_string(), "second".to_string()),
    ];
    let m = config_last_wins(entries);
    assert_eq!(m.get("user.name").map(String::as_str), Some("second"));
    assert_eq!(m.get("http.proxy").map(String::as_str), Some("p1"));
    assert!(!m.contains_key("absent"));
    assert!(config_last_wins(Vec::new()).is_empty());
}

#[test]
fn range_count_parses_tab_and_space() {
    assert_eq!(parse_range_count("3\t7\n"), (3, 7));
    assert_eq!(parse_range_count("0 0"), (0, 0));
    assert_eq!(parse_range_count(""), (0, 0));
    assert_eq!(parse_range_count("garbage"), (0, 0));
}

#[test]
fn backup_refs_parse() {
    // NOTE: `\0` must stay isolated — `\02024` would parse as octal.
    let raw = "refs/ibexgit/backups/reset-123\0reset-123\0h1\0s1\02024-01-01 10:00:00 +0800\0commit: point\nrefs/ibexgit/backups/rebase-456\0rebase-456\0h2\0s2\0\0\n";
    let out = parse_backup_refs(raw);
    assert_eq!(out.len(), 2);
    let b = &out[0];
    assert_eq!(b.full_name, "refs/ibexgit/backups/reset-123");
    assert_eq!(b.name, "reset-123");
    assert_eq!(b.hash, "h1");
    assert_eq!(b.short_hash, "s1");
    assert_eq!(b.subject, "commit: point");
    assert_eq!(out[1].date, "");
    assert_eq!(out[1].subject, "");
}



fn parse(line: &str) -> CloneProgress {
    parse_clone_progress(line)
}

#[test]
fn receiving_objects_percent_and_pair() {
    let p = parse("Receiving objects:  45% (123/273), 1.20 MiB | 2.31 MiB/s");
    assert_eq!(p.phase, "receiving");
    assert_eq!(p.percent, Some(45));
    assert_eq!(p.current, Some(123));
    assert_eq!(p.total, Some(273));
}

#[test]
fn resolving_and_updating() {
    let p = parse("Resolving deltas: 100% (45/45), done.");
    assert_eq!(p.phase, "resolving");
    assert_eq!(p.percent, Some(100));
    assert_eq!(p.total, Some(45));

    let p = parse("Updating files:  33% (4/12)");
    assert_eq!(p.phase, "updating");
    assert_eq!(p.percent, Some(33));
}

#[test]
fn remote_prefix_is_unwrapped() {
    let p = parse("remote: Counting objects: 100% (12/12), done.");
    assert_eq!(p.phase, "counting");
    assert_eq!(p.percent, Some(100));

    let p = parse("remote: Enumerating objects: 12, done.");
    assert_eq!(p.phase, "enumerating");
    assert_eq!(p.percent, None);
}

#[test]
fn header_lines_map_to_other() {
    let p = parse("Cloning into 'repo'...");
    assert_eq!(p.phase, "other");
    assert_eq!(p.percent, None);

    // `remote:` 后无第二段 phase。
    let p = parse("remote: Total 273 (delta 0), reused 0 (delta 0)");
    assert_eq!(p.phase, "other");
}

#[test]
fn done_lines_without_percent() {
    let p = parse("Receiving objects: 100% (273/273), done.");
    assert_eq!(p.percent, Some(100));
}



// Format under test (cli.rs::file_history):
// %H%x00%h%x00%an%x00%ae%x00%aI%x00%s%x00%P + --name-status -z

fn rec(hash: &str, author: &str, date: &str, msg: &str, parents: &str) -> String {
    format!("{hash}\0{hash}1\0{author}\0{author}@x\0{date}\0{msg}\0{parents}\0\n")
}

// ---------- parse_file_history ----------

#[test]
fn file_history_modify_only() {
    let raw = format!(
        "{}M\0src/a.rs\0{}M\0src/a.rs\0",
        rec(
            &"a".repeat(40),
            "Ann",
            "2026-01-02T10:00:00+08:00",
            "second",
            &"b".repeat(40)
        ),
        rec(
            &"b".repeat(40),
            "Bob",
            "2026-01-01T10:00:00+08:00",
            "first",
            ""
        )
    );
    let out = parse_file_history(&raw);
    assert_eq!(out.len(), 2);
    assert_eq!(out[0].hash, "a".repeat(40));
    assert_eq!(out[0].path, "src/a.rs");
    assert_eq!(out[0].status, "M");
    assert_eq!(out[0].orig_path, None);
    assert_eq!(out[0].parents, vec!["b".repeat(40)]);
    assert_eq!(out[1].status, "M");
    assert!(out[1].parents.is_empty());
}

#[test]
fn file_history_rename_entry_carries_old_and_new_path() {
    // rename commit R100: status, old, new — then the next record.
    let raw = format!(
        "{}R100\0f.txt\0d/g.txt\0{}A\0f.txt\0",
        rec(
            &"a".repeat(40),
            "Ann",
            "2026-01-02T10:00:00+08:00",
            "rename",
            &"b".repeat(40)
        ),
        rec(
            &"b".repeat(40),
            "Bob",
            "2026-01-01T10:00:00+08:00",
            "first",
            ""
        )
    );
    let out = parse_file_history(&raw);
    assert_eq!(out.len(), 2);
    assert_eq!(out[0].status, "R");
    assert_eq!(out[0].score, Some(100));
    assert_eq!(out[0].orig_path.as_deref(), Some("f.txt"));
    assert_eq!(out[0].path, "d/g.txt");
    // pre-rename history keeps the old path
    assert_eq!(out[1].path, "f.txt");
}

#[test]
fn file_history_chinese_and_typed_paths() {
    let raw = format!(
        "{}M\0中文/文档.md\0",
        rec(&"a".repeat(40), "安", "2026-01-01T00:00:00Z", "标题", "")
    );
    let out = parse_file_history(&raw);
    assert_eq!(out[0].path, "中文/文档.md");
}

#[test]
fn file_history_skips_empty_token_and_stops_on_garbage() {
    // trailing NUL → empty token; non-hex token terminates the stream.
    let raw = format!("{}M\0a.rs\0\0", rec(&"a".repeat(40), "A", "t", "m", ""));
    let out = parse_file_history(&raw);
    assert_eq!(out.len(), 1);
    assert_eq!(parse_file_history("nonsense"), Vec::<FileCommit>::new());
}

#[test]
fn file_history_subject_looking_like_hex_stays_positional() {
    // 40-hex *subject* is a positional format field — consumed, never
    // mistaken for the next record (which starts after the name-status).
    let subject = "F".repeat(40);
    let raw = format!(
        "{}M\0a.rs\0{}M\0a.rs\0",
        rec(&"a".repeat(40), "A", "t", &subject, &"b".repeat(40)),
        rec(&"b".repeat(40), "B", "t", "plain", "")
    );
    let out = parse_file_history(&raw);
    assert_eq!(out.len(), 2);
    assert_eq!(out[0].message, subject);
}

// ---------- parse_blame ----------

const SHA1: &str = "1111111111111111111111111111111111111111";
const SHA2: &str = "2222222222222222222222222222222222222222";

fn meta(author: &str, ts: &str, tz: &str, summary: &str, path: &str) -> String {
    format!(
        "author {author}\nauthor-mail <{author}@x>\nauthor-time {ts}\nauthor-tz {tz}\n\
         committer {author}\ncommitter-mail <{author}@x>\ncommitter-time {ts}\n\
         committer-tz {tz}\nsummary {summary}\nboundary\nfilename {path}\n"
    )
}

#[test]
fn blame_basic_attribution_and_dedup() {
    let raw = format!(
        "{SHA1} 1 1 1\n{}\tline one\n{SHA1} 2 2 1\n\tline two\n{SHA2} 3 3 1\n{}\tline three\n",
        meta("Ann", "1700000000", "+0800", "c1", "a.txt"),
        meta("Bob", "1700000100", "-0530", "c2", "a.txt"),
    );
    let out = parse_blame(&raw);
    assert_eq!(out.commits.len(), 2);
    assert_eq!(out.lines.len(), 3);
    assert_eq!(out.commits[0].hash, SHA1);
    assert_eq!(out.commits[0].author, "Ann");
    assert_eq!(out.commits[0].path, "a.txt");
    assert!(out.commits[0].boundary);
    assert!(!out.commits[0].uncommitted);
    // author ts+tz → ISO with offset
    assert_eq!(out.commits[0].date, "2023-11-15T06:13:20+08:00");
    assert_eq!(out.commits[1].date, "2023-11-14T16:45:00-05:30");
    // lines 1+2 share commit index 0; line 3 → commit 1
    assert_eq!(out.lines[0].commit, 0);
    assert_eq!(out.lines[1].commit, 0);
    assert_eq!(out.lines[2].commit, 1);
    assert_eq!(out.lines[0].content, "line one");
    assert_eq!(out.lines[2].orig_no, 3);
    assert_eq!(out.lines[2].final_no, 3);
}

#[test]
fn blame_uncommitted_lines_use_zero_sha_pseudo_commit() {
    let raw = format!(
        "{SHA1} 1 1 1\n{}\tcommitted\n{BLAME_UNCOMMITTED_SHA} 2 2 1\n{}\tlocal edit\n",
        meta("Ann", "1700000000", "+0000", "c1", "a.txt"),
        "author Not Committed Yet\nauthor-mail <not.committed.yet>\n\
         author-time 1700000500\nauthor-tz +0000\nsummary Version of a.txt\n\
         filename a.txt\n",
    );
    let out = parse_blame(&raw);
    assert_eq!(out.commits.len(), 2);
    assert!(!out.commits[0].uncommitted);
    assert!(out.commits[1].uncommitted);
    assert_eq!(out.lines[1].commit, 1);
    assert_eq!(out.lines[1].content, "local edit");
}

#[test]
fn blame_preserves_crlf_and_empty_content() {
    // CRLF file: git emits "\tcontent\r\n" — the trailing CR is stripped
    // for display; a genuinely empty content line stays empty. The
    // second line re-uses the seen commit (no metadata block repeat).
    let raw = format!(
        "{SHA1} 1 1 2\n{}\tfirst\r\n{SHA1} 2 2 2\n\t\n",
        meta("Ann", "1700000000", "+0000", "c1", "a.txt"),
    );
    let out = parse_blame(&raw);
    assert_eq!(out.lines.len(), 2);
    assert_eq!(out.commits.len(), 1);
    assert_eq!(out.lines[0].content, "first");
    assert_eq!(out.lines[1].content, "");
    assert_eq!(out.lines[1].commit, 0);
}

#[test]
fn blame_empty_file_yields_empty_result() {
    assert_eq!(parse_blame(""), BlameResult::default());
}

#[test]
fn blame_iso_fallback_on_bad_ts() {
    assert_eq!(iso_from_ts_tz("nope", "+0800"), "");
    // unknown tz → UTC ISO rather than failure
    assert_eq!(iso_from_ts_tz("0", "xxxxx"), "1970-01-01T00:00:00+00:00");
}



/// Real-world shape (codeup.aliyun.com pull refused by a dirty vue file).
#[test]
fn pull_merge_with_file_list() {
    let stderr = "From codeup.aliyun.com:64264d90eafb57df57532d6c/saas/hs-saas-tms-web\n\
                  * branch            dev        -> FETCH_HEAD\n\
                  error: Your local changes to the following files would be overwritten by merge:\n\
                  \tsrc/views/cms/customsbroker/declarationhead.vue\n\
                  Please commit your changes or stash them before you merge.\n\
                  Aborting";
    let d = parse_dirty_worktree(stderr).expect("classified");
    assert_eq!(d.operation, "merge");
    assert!(!d.untracked);
    assert_eq!(
        d.files,
        vec!["src/views/cms/customsbroker/declarationhead.vue"]
    );
}

#[test]
fn checkout_multiple_files() {
    let stderr =
        "error: Your local changes to the following files would be overwritten by checkout:\n\
                  \tsrc/a.ts\n\
                  \tsrc/b.rs\n\
                  Please commit your changes or stash them before you switch branches.\n\
                  Aborting";
    let d = parse_dirty_worktree(stderr).expect("classified");
    assert_eq!(d.operation, "checkout");
    assert_eq!(d.files, vec!["src/a.ts", "src/b.rs"]);
}

#[test]
fn untracked_variant_is_flagged() {
    let stderr =
        "error: The following untracked working tree files would be overwritten by merge:\n\
                  \tconfig/local.json\n\
                  Please move or remove them before you merge.\n\
                  Aborting";
    let d = parse_dirty_worktree(stderr).expect("classified");
    assert_eq!(d.operation, "merge");
    assert!(d.untracked);
    assert_eq!(d.files, vec!["config/local.json"]);
}

#[test]
fn rebase_refusal_without_file_list() {
    let d = parse_dirty_worktree(
        "error: cannot pull with rebase: You have unstaged changes.\nerror: Please commit or stash them.",
    )
    .expect("classified");
    assert_eq!(d.operation, "pull");
    assert!(d.files.is_empty());

    let d =
        parse_dirty_worktree("error: cannot rebase: Your index contains uncommitted changes.")
            .expect("classified");
    assert_eq!(d.operation, "rebase");
    assert!(d.files.is_empty());
}

#[test]
fn unrelated_stderr_is_none() {
    assert!(parse_dirty_worktree("fatal: couldn't find remote ref dev").is_none());
    assert!(parse_dirty_worktree("").is_none());
    assert!(parse_dirty_worktree(
        "error: Your local changes to the following files would be overwritten by merge:\nPlease commit"
    )
    .is_none());
    // Not a refusal we translate: keep raw stderr.
    assert!(
        parse_dirty_worktree("error: pathspec 'x' did not match any file(s) known to git")
            .is_none()
    );
}

#[test]
fn find_file_matches_the_displayed_path() {
    let raw = "diff --git a/p.txt b/q.txt\n\
               similarity index 100%\n\
               rename from p.txt\n\
               rename to q.txt\n";
    let model = parse_diff(raw, DiffSource::Worktree, None).unwrap();
    assert_eq!(model.files[0].old_path.as_deref(), Some("p.txt"));
    assert!(model.find_file("q.txt").is_some());
    assert!(model.find_file("p.txt").is_none());
}

#[test]
fn nul_joined_paths_parse_back() {
    let paths = vec!["a.txt".to_string(), "dir/b c.rs".to_string(), "x".to_string()];
    let joined = paths.join("\0");
    assert_eq!(parse_nul_paths(&joined), paths);
    assert_eq!(parse_nul_paths(&(joined + "\0")), paths);
    assert!(parse_nul_paths("\0").is_empty());
}

#[test]
fn blame_time_past_the_calendar_is_empty() {
    let last = chrono::NaiveDateTime::MAX.and_utc().timestamp();
    assert_eq!(iso_from_ts_tz(&last.to_string(), "+0800"), "");
    assert!(!iso_from_ts_tz(&last.to_string(), "+0000").is_empty());
}
