//! The git command lines of the engine's operations, and what their exit
//! codes and output mean: push, pull, merge, commit, the continue / abort /
//! skip of an operation, the merge base of a comparison and the message of
//! HEAD.

use vstd::prelude::*;
use crate::text::{
    strs, opt_str, to_chars, contains, contains_seq, lines, trim, trim_end, split_lines, trim_chars, trim_end_chars,
    string_of, push_str, string_of_range, eq_chars, dec_string,
};
use crate::model::{PullResult, MergeResult, CommitResult, OperationKind, FileCommit, FileCommitV, CloneOptions, IndexEntry, IndexEntryV, seq_view};
use crate::history::{parse_file_history, history_from, history_tokens};
use crate::patch::{debug_quoted, str_debug};
use crate::text::{push_u64, push_char};
use crate::ops::{exit_code_text, LOG_FORMAT};
use crate::model::{CommitInfo, CommitInfoV, CommitDetail, CommitFileStat, DiffSource, DiffOptions};
use crate::parse::{parse_log, log_model, parse_commit_files, commit_files_model};
use crate::conflict::{ConflictModel, ConflictSummary};
use crate::model::{FileContent, FileStatus, FileStatusV};
use crate::text::{parse_u64, parse_u64_chars};
use base64::Engine;
use crate::ops::{push_arg, ensure_success, int_text, push_i32, is_exit_error};
use crate::parse::{parse_range_count, range_count_model};
use crate::credential::CREDENTIAL_CANCELLED_MARKER;
use crate::error::AppError;

verus! {

pub open spec fn flag(on: bool, f: Seq<char>) -> Seq<Seq<char>> {
    if on {
        seq![f]
    } else {
        Seq::<Seq<char>>::empty()
    }
}

pub open spec fn opt_arg(o: Option<Seq<char>>) -> Seq<Seq<char>> {
    match o {
        Some(s) => seq![s],
        None => Seq::<Seq<char>>::empty(),
    }
}

pub open spec fn str_opt(o: Option<&str>) -> Option<Seq<char>> {
    match o {
        Some(s) => Some(s@),
        None => None,
    }
}

fn push_flag(args: &mut Vec<String>, on: bool, f: &str)
    ensures
        strs(final(args)@) == strs(old(args)@) + flag(on, f@),
{
    if on {
        push_arg(args, f);
    } else {
        assert(strs(args@) =~= strs(args@) + Seq::<Seq<char>>::empty());
    }
}

fn push_opt(args: &mut Vec<String>, o: Option<&str>)
    ensures
        strs(final(args)@) == strs(old(args)@) + opt_arg(str_opt(o)),
{
    match o {
        Some(s) => push_arg(args, s),
        None => {
            assert(strs(args@) =~= strs(args@) + Seq::<Seq<char>>::empty());
        },
    }
}

fn parse_error(msg: &str) -> (r: AppError)
    ensures
        r matches AppError::Parse { message } && message@ == msg@,
{
    AppError::parse(String::from_str(msg))
}

// =====================
// push
// =====================

pub open spec fn push_branch_args(repo: Seq<char>, remote: Seq<char>, branch: Seq<char>, force_with_lease: bool, set_upstream: bool) -> Seq<Seq<char>> {
    seq!["-C"@, repo, "push"@] + flag(force_with_lease, "--force-with-lease"@) + flag(set_upstream, "--set-upstream"@)
        + seq![remote, branch]
}

pub open spec fn push_tags_args(repo: Seq<char>, remote: Seq<char>) -> Seq<Seq<char>> {
    seq!["-C"@, repo, "push"@, remote, "--tags"@]
}

pub open spec fn arg_lists(v: Seq<Vec<String>>) -> Seq<Seq<Seq<char>>> {
    v.map_values(|a: Vec<String>| strs(a@))
}

/// The git invocations of a push, in order: the branch (when one is
/// named), then the tags (when asked); an error when neither is.
pub fn push_commands(repo: &str, remote: &str, branch: &str, force_with_lease: bool, set_upstream: bool, tags: bool) -> (r: Result<
    Vec<Vec<String>>,
    AppError,
>)
    ensures
        branch@.len() == 0 && !tags ==> (r matches Err(AppError::Parse { message }) && message@
            == "push: nothing to push (no branch and no tags requested)"@),
        !(branch@.len() == 0 && !tags) ==> (r matches Ok(cmds) && arg_lists(cmds@) == (if branch@.len() > 0 {
            seq![push_branch_args(repo@, remote@, branch@, force_with_lease, set_upstream)]
        } else {
            Seq::<Seq<Seq<char>>>::empty()
        }) + (if tags {
            seq![push_tags_args(repo@, remote@)]
        } else {
            Seq::<Seq<Seq<char>>>::empty()
        })),
{
    if branch.is_empty() && !tags {
        return Err(parse_error("push: nothing to push (no branch and no tags requested)"));
    }
    let mut cmds: Vec<Vec<String>> = Vec::new();
    if !branch.is_empty() {
        let mut a: Vec<String> = Vec::new();
        push_arg(&mut a, "-C");
        push_arg(&mut a, repo);
        push_arg(&mut a, "push");
        push_flag(&mut a, force_with_lease, "--force-with-lease");
        push_flag(&mut a, set_upstream, "--set-upstream");
        push_arg(&mut a, remote);
        push_arg(&mut a, branch);
        assert(strs(a@) =~= push_branch_args(repo@, remote@, branch@, force_with_lease, set_upstream));
        cmds.push(a);
    }
    let ghost first = arg_lists(cmds@);
    assert(first =~= if branch@.len() > 0 {
        seq![push_branch_args(repo@, remote@, branch@, force_with_lease, set_upstream)]
    } else {
        Seq::<Seq<Seq<char>>>::empty()
    });
    if tags {
        let mut t: Vec<String> = Vec::new();
        push_arg(&mut t, "-C");
        push_arg(&mut t, repo);
        push_arg(&mut t, "push");
        push_arg(&mut t, remote);
        push_arg(&mut t, "--tags");
        assert(strs(t@) =~= push_tags_args(repo@, remote@));
        let ghost before = cmds@;
        cmds.push(t);
        assert(arg_lists(cmds@) =~= arg_lists(before).push(push_tags_args(repo@, remote@)));
    }
    assert(arg_lists(cmds@) =~= first + (if tags {
        seq![push_tags_args(repo@, remote@)]
    } else {
        Seq::<Seq<Seq<char>>>::empty()
    }));
    Ok(cmds)
}

// =====================
// pull and merge
// =====================

pub open spec fn pull_mode_args(mode: Option<Seq<char>>) -> Seq<Seq<char>> {
    match mode {
        Some(m) => if m == "rebase"@ {
            seq!["--rebase"@]
        } else if m == "ff_only"@ {
            seq!["--ff-only"@]
        } else {
            Seq::<Seq<char>>::empty()
        },
        None => Seq::<Seq<char>>::empty(),
    }
}

/// `git pull`: the mode (`rebase`, `ff_only`, or git's default), then the
/// remote and branch when given.
pub fn pull_args(repo: &str, remote: Option<&str>, branch: Option<&str>, mode: Option<&str>) -> (r: Vec<String>)
    ensures
        strs(r@) == seq!["-C"@, repo@, "pull"@] + pull_mode_args(str_opt(mode)) + opt_arg(str_opt(remote)) + opt_arg(
            str_opt(branch),
        ),
{
    let mut a: Vec<String> = Vec::new();
    push_arg(&mut a, "-C");
    push_arg(&mut a, repo);
    push_arg(&mut a, "pull");
    let ghost a0 = strs(a@);
    match mode {
        Some(m) => {
            let mc = to_chars(m);
            let rb = to_chars("rebase");
            let ff = to_chars("ff_only");
            if eq_chars(mc.as_slice(), rb.as_slice()) {
                push_arg(&mut a, "--rebase");
            } else if eq_chars(mc.as_slice(), ff.as_slice()) {
                push_arg(&mut a, "--ff-only");
            }
        },
        None => {},
    }
    assert(strs(a@) =~= a0 + pull_mode_args(str_opt(mode)));
    push_opt(&mut a, remote);
    push_opt(&mut a, branch);
    a
}

/// A pull's outcome: a cancelled credential prompt is an error; otherwise
/// whether it succeeded, git's stderr as the message, and whether it was a
/// fast-forward (as git's output says).
pub fn pull_outcome(exit_code: Option<i32>, stdout: String, stderr: String) -> (r: Result<PullResult, AppError>)
    ensures
        exit_code != Some(0i32) && contains(stderr@, CREDENTIAL_CANCELLED_MARKER@) ==> r matches Err(
            AppError::CredentialCancelled,
        ),
        !(exit_code != Some(0i32) && contains(stderr@, CREDENTIAL_CANCELLED_MARKER@)) ==> (r matches Ok(p) && p.success
            == (exit_code == Some(0i32)) && p.message@ == stderr@ && p.fast_forward == (contains(
            stdout@ + stderr@,
            "Fast-forward"@,
        ) || contains(stdout@ + stderr@, "fast-forward"@))),
{
    let ec = to_chars(stderr.as_str());
    let marker = to_chars(CREDENTIAL_CANCELLED_MARKER);
    if exit_code != Some(0i32) && contains_seq(ec.as_slice(), marker.as_slice()) {
        return Err(AppError::CredentialCancelled);
    }
    let mut combined = String::new();
    push_str(&mut combined, stdout.as_str());
    push_str(&mut combined, stderr.as_str());
    let cc = to_chars(combined.as_str());
    let f1 = to_chars("Fast-forward");
    let f2 = to_chars("fast-forward");
    let fast_forward = contains_seq(cc.as_slice(), f1.as_slice()) || contains_seq(cc.as_slice(), f2.as_slice());
    Ok(PullResult { success: exit_code == Some(0i32), message: stderr, fast_forward })
}

/// `git merge`: fast-forward only when asked, never opening an editor.
pub fn merge_args(repo: &str, target: &str, ff_only: bool) -> (r: Vec<String>)
    ensures
        strs(r@) == seq!["-C"@, repo@, "merge"@] + flag(ff_only, "--ff-only"@) + seq!["--no-edit"@, target@],
{
    let mut a: Vec<String> = Vec::new();
    push_arg(&mut a, "-C");
    push_arg(&mut a, repo);
    push_arg(&mut a, "merge");
    push_flag(&mut a, ff_only, "--ff-only");
    push_arg(&mut a, "--no-edit");
    push_arg(&mut a, target);
    a
}

/// A merge's outcome: whether it succeeded, and git's stderr (its stdout
/// when stderr is empty) as the message.
pub fn merge_outcome(exit_code: Option<i32>, stdout: String, stderr: String) -> (r: MergeResult)
    ensures
        r.success == (exit_code == Some(0i32)),
        r.message@ == if stderr@.len() == 0 {
            stdout@
        } else {
            stderr@
        },
{
    let success = exit_code == Some(0i32);
    let message = if stderr.as_str().is_empty() {
        stdout
    } else {
        stderr
    };
    MergeResult { success, message }
}

// =====================
// commit
// =====================

/// `git commit` with git's interactive comment cleanup and the message.
pub fn commit_args(repo: &str, message: &str, amend: bool, skip_hooks: bool) -> (r: Vec<String>)
    ensures
        strs(r@) == seq!["-C"@, repo@, "commit"@] + flag(amend, "--amend"@) + flag(skip_hooks, "--no-verify"@) + seq![
            "--cleanup=strip"@,
            "-m"@,
            message@,
        ],
{
    let mut a: Vec<String> = Vec::new();
    push_arg(&mut a, "-C");
    push_arg(&mut a, repo);
    push_arg(&mut a, "commit");
    push_flag(&mut a, amend, "--amend");
    push_flag(&mut a, skip_hooks, "--no-verify");
    push_arg(&mut a, "--cleanup=strip");
    push_arg(&mut a, "-m");
    push_arg(&mut a, message);
    a
}

/// The result of a commit from `git rev-parse HEAD`: the full hash, its
/// first seven characters, and the message.
pub fn commit_result(rev_parse_stdout: &str, message: &str) -> (r: CommitResult)
    ensures
        r.hash@ == trim(rev_parse_stdout@),
        r.short_hash@ == trim(rev_parse_stdout@).take(if trim(rev_parse_stdout@).len() < 7 {
            trim(rev_parse_stdout@).len() as int
        } else {
            7
        }),
        r.message@ == message@,
{
    let h = trim_chars(to_chars(rev_parse_stdout).as_slice());
    let n: usize = if h.len() < 7 {
        h.len()
    } else {
        7
    };
    let short = string_of_range(h.as_slice(), 0, n);
    assert(short@ =~= h@.take(n as int));
    CommitResult { hash: string_of(h.as_slice()), short_hash: short, message: String::from_str(message) }
}

// =====================
// continue / abort / skip
// =====================

/// What is asked of an in-progress operation.
#[derive(Debug, Clone, Copy, PartialEq, Eq, Structural)]
pub enum OperationAction {
    Abort,
    Continue,
    Skip,
}

pub open spec fn verb_of(kind: OperationKind) -> Seq<char> {
    match kind {
        OperationKind::Merge => "merge"@,
        OperationKind::Rebase => "rebase"@,
        OperationKind::CherryPick => "cherry-pick"@,
        OperationKind::Revert => "revert"@,
        OperationKind::Apply => "am"@,
        OperationKind::Bisect => "bisect"@,
    }
}

/// The git subcommand and flag that carry out `action` on the operation in
/// progress, or why it cannot be done (`Err` holds the message).
pub open spec fn operation_step(kind: Option<OperationKind>, action: OperationAction) -> Result<(Seq<char>, Seq<char>), Seq<char>> {
    match kind {
        None => Err("no operation in progress"@),
        Some(k) => match action {
            OperationAction::Abort => Ok(
                (
                    verb_of(k),
                    if k == OperationKind::Bisect {
                        "reset"@
                    } else {
                        "--abort"@
                    },
                ),
            ),
            OperationAction::Continue => if k == OperationKind::Bisect {
                Err("continue is not available while bisecting"@)
            } else {
                Ok((verb_of(k), "--continue"@))
            },
            OperationAction::Skip => if k == OperationKind::Merge || k == OperationKind::Bisect {
                Err("skip is not available for this operation"@)
            } else {
                Ok((verb_of(k), "--skip"@))
            },
        },
    }
}

fn verb_str(kind: OperationKind) -> (r: &'static str)
    ensures
        r@ == verb_of(kind),
{
    match kind {
        OperationKind::Merge => "merge",
        OperationKind::Rebase => "rebase",
        OperationKind::CherryPick => "cherry-pick",
        OperationKind::Revert => "revert",
        OperationKind::Apply => "am",
        OperationKind::Bisect => "bisect",
    }
}

/// The `git -C <repo> <verb> <flag>` that carries out `action` on the
/// operation `kind` in progress.
pub fn operation_command(repo: &str, kind: Option<OperationKind>, action: OperationAction) -> (r: Result<Vec<String>, AppError>)
    ensures
        match operation_step(kind, action) {
            Ok((verb, f)) => r matches Ok(a) && strs(a@) == seq!["-C"@, repo@, verb, f],
            Err(m) => r matches Err(AppError::Parse { message }) && message@ == m,
        },
{
    let k = match kind {
        None => {
            return Err(parse_error("no operation in progress"));
        },
        Some(k) => k,
    };
    let f: &str = match action {
        OperationAction::Abort => if k == OperationKind::Bisect {
            "reset"
        } else {
            "--abort"
        },
        OperationAction::Continue => {
            if k == OperationKind::Bisect {
                return Err(parse_error("continue is not available while bisecting"));
            }
            "--continue"
        },
        OperationAction::Skip => {
            if k == OperationKind::Merge || k == OperationKind::Bisect {
                return Err(parse_error("skip is not available for this operation"));
            }
            "--skip"
        },
    };
    let mut a: Vec<String> = Vec::new();
    push_arg(&mut a, "-C");
    push_arg(&mut a, repo);
    push_arg(&mut a, verb_str(k));
    push_arg(&mut a, f);
    Ok(a)
}

// =====================
// merge base and comparison
// =====================

pub open spec fn first_line(s: Seq<char>) -> Seq<char> {
    if lines(s).len() > 0 {
        lines(s)[0]
    } else {
        Seq::<char>::empty()
    }
}

/// `git merge-base`: the trimmed first line on success (`None` if empty),
/// `None` when git reports no merge base (exit 1), an error otherwise.
pub fn merge_base_outcome(exit_code: Option<i32>, stdout: String, stderr: String) -> (r: Result<Option<String>, AppError>)
    ensures
        exit_code == Some(0i32) ==> (r matches Ok(o) && opt_str(o) == (if trim(first_line(stdout@)).len() == 0 {
            None
        } else {
            Some(trim(first_line(stdout@)))
        })),
        exit_code == Some(1i32) ==> (r matches Ok(o) && o is None),
        (exit_code matches Some(c) && c != 0 && c != 1) ==> (r matches Err(
            AppError::GitCommand { command, stderr: e, stdout: o, detail },
        ) && command@ == "git merge-base exited with code "@ + int_text(exit_code->0) && e@ == stderr@ && o@
            == stdout@ && detail is None),
        exit_code is None ==> (r matches Err(AppError::Internal { message }) && message@
            == "git process terminated by signal"@),
{
    match exit_code {
        Some(0i32) => {
            let sc = to_chars(stdout.as_str());
            let ls = split_lines(sc.as_slice());
            let empty: Vec<char> = Vec::new();
            let line: Vec<char> = if ls.len() > 0 {
                assert(ls@[0]@ == crate::text::views(ls@)[0]);
                trim_chars(ls[0].as_slice())
            } else {
                assert(empty@ =~= Seq::<char>::empty());
                trim_chars(empty.as_slice())
            };
            if line.len() == 0 {
                Ok(None)
            } else {
                Ok(Some(string_of(line.as_slice())))
            }
        },
        Some(1i32) => Ok(None),
        Some(c) => {
            let mut command = String::new();
            push_str(&mut command, "git merge-base exited with code ");
            push_i32(&mut command, c);
            Err(AppError::git_command(command, stderr, stdout))
        },
        None => Err(AppError::internal(String::from_str("git process terminated by signal"))),
    }
}

/// Two refs compared: commits only in the left, only in the right, and
/// their merge base.
#[derive(Debug, Clone, PartialEq, Eq)]
pub struct BranchCompare {
    /// Commits in `left` not in `right`.
    pub ahead: u32,
    /// Commits in `right` not in `left`.
    pub behind: u32,
    pub merge_base: Option<String>,
}

/// The comparison of two refs from `git rev-list --left-right --count` and
/// their merge base.
pub fn branch_compare(range_count_output: &str, merge_base: Option<String>) -> (r: BranchCompare)
    ensures
        (r.ahead, r.behind) == range_count_model(range_count_output@),
        opt_str(r.merge_base) == opt_str(merge_base),
{
    let (ahead, behind) = parse_range_count(range_count_output);
    BranchCompare { ahead, behind, merge_base }
}

// =====================
// HEAD's message
// =====================

/// The message an amend starts from: none on an unborn HEAD (the
/// `rev-parse --verify` probe failed), otherwise `git log -1 --format=%B`
/// with trailing whitespace dropped, or its error.
pub fn head_message_outcome(verify_exit: Option<i32>, log_exit: Option<i32>, log_stdout: String, log_stderr: String) -> (r:
    Result<Option<String>, AppError>)
    ensures
        verify_exit != Some(0i32) ==> (r matches Ok(o) && o is None),
        verify_exit == Some(0i32) && log_exit == Some(0i32) ==> (r matches Ok(o) && opt_str(o) == Some(
            trim_end(log_stdout@),
        )),
        verify_exit == Some(0i32) && log_exit != Some(0i32) ==> (r matches Err(e) && is_exit_error(
            e,
            log_exit,
            log_stderr@,
            log_stdout@,
        )),
{
    if verify_exit != Some(0i32) {
        return Ok(None);
    }
    if log_exit != Some(0i32) {
        return match ensure_success(log_exit, log_stderr, log_stdout) {
            Ok(()) => Ok(None),
            Err(e) => Err(e),
        };
    }
    let t = trim_end_chars(to_chars(log_stdout.as_str()).as_slice());
    Ok(Some(string_of(t.as_slice())))
}

// =====================
// File history
// =====================

/// The record format of a file's history.
pub const FILE_HISTORY_FORMAT: &'static str = "--format=%H%x00%h%x00%an%x00%ae%x00%aI%x00%s%x00%P";

/// `git log --follow` of one file: with a page start, one extra record is
/// asked for (the start itself, dropped from the page).
pub open spec fn file_history_args_spec(repo: Seq<char>, path: Seq<char>, limit: u32, start: Option<Seq<char>>) -> Seq<Seq<char>> {
    seq!["-C"@, repo, "log"@, "--follow"@, "--no-color"@, FILE_HISTORY_FORMAT@, "--name-status"@, "-z"@] + (if limit > 0 {
        seq!["-n"@, dec_string((limit + if start is Some { 1nat } else { 0nat }) as nat)]
    } else {
        Seq::<Seq<char>>::empty()
    }) + opt_arg(start) + seq!["--"@, path]
}

pub fn file_history_args(repo: &str, path: &str, limit: u32, start: Option<&str>) -> (r: Vec<String>)
    requires
        start is Some ==> limit < u32::MAX,
    ensures
        strs(r@) == file_history_args_spec(repo@, path@, limit, str_opt(start)),
{
    let mut a: Vec<String> = Vec::new();
    push_arg(&mut a, "-C");
    push_arg(&mut a, repo);
    push_arg(&mut a, "log");
    push_arg(&mut a, "--follow");
    push_arg(&mut a, "--no-color");
    push_arg(&mut a, FILE_HISTORY_FORMAT);
    push_arg(&mut a, "--name-status");
    push_arg(&mut a, "-z");
    let ghost a0 = strs(a@);
    if limit > 0 {
        let n: u32 = if start.is_some() {
            limit + 1
        } else {
            limit
        };
        push_arg(&mut a, "-n");
        let mut t = String::new();
        push_u64(&mut t, n as u64);
        push_arg(&mut a, t.as_str());
    }
    assert(strs(a@) =~= a0 + (if limit > 0 {
        seq!["-n"@, dec_string((limit + if str_opt(start) is Some { 1nat } else { 0nat }) as nat)]
    } else {
        Seq::<Seq<char>>::empty()
    }));
    push_opt(&mut a, start);
    push_arg(&mut a, "--");
    push_arg(&mut a, path);
    a
}

/// The page a file-history run gives: its records without the page start
/// heading them, no records for a repository without commits, the git
/// error otherwise.
pub fn file_history_page(exit_code: Option<i32>, stdout: String, stderr: String, start: Option<&str>) -> (r: Result<
    Vec<FileCommit>,
    AppError,
>)
    ensures
        exit_code == Some(0i32) ==> (r matches Ok(v) && seq_view(v@) == {
            let h = history_from(history_tokens(stdout@), 0);
            match str_opt(start) {
                Some(s) => if h.len() > 0 && h[0].hash == s {
                    h.skip(1)
                } else {
                    h
                },
                None => h,
            }
        }),
        exit_code != Some(0i32) && contains(stderr@, "does not have any commits"@) ==> (r matches Ok(v) && v@.len()
            == 0),
        exit_code != Some(0i32) && !contains(stderr@, "does not have any commits"@) ==> (r matches Err(
            AppError::GitCommand { command, stderr: e, stdout: o, detail },
        ) && command@ == "git exited with code "@ + exit_code_text(exit_code) && e@ == stderr@ && o@ == stdout@
            && detail is None),
{
    if exit_code != Some(0i32) {
        let ec = to_chars(stderr.as_str());
        let marker = to_chars("does not have any commits");
        if contains_seq(ec.as_slice(), marker.as_slice()) {
            return Ok(Vec::new());
        }
        let mut command = String::new();
        push_str(&mut command, "git exited with code ");
        crate::ops::push_exit_code(&mut command, exit_code);
        return Err(AppError::git_command(command, stderr, stdout));
    }
    let mut commits = parse_file_history(stdout.as_str());
    match start {
        Some(s) => {
            if commits.len() > 0 {
                let hc = to_chars(commits[0].hash.as_str());
                let sc = to_chars(s);
                if eq_chars(hc.as_slice(), sc.as_slice()) {
                    let ghost before = commits@;
                    assert(seq_view(before)[0].hash == commits@[0].hash@);
                    commits.remove(0);
                    assert(seq_view(commits@) =~= seq_view(before).skip(1));
                }
            }
        },
        None => {},
    }
    Ok(commits)
}

// =====================
// mergetool
// =====================

pub open spec fn tool_name_ok(t: Seq<char>) -> bool {
    t.len() > 0 && forall|i: int|
        0 <= i < t.len() ==> crate::parse::is_ascii_alnum(#[trigger] t[i]) || t[i] == '-' || t[i] == '_'
}

/// The tool a mergetool run uses: the named one (which must be a plain
/// name), a custom command's own tool, or none configured.
pub open spec fn mergetool_name(tool: Option<Seq<char>>, cmd: Option<Seq<char>>) -> Result<Seq<char>, Seq<char>> {
    match tool {
        Some(t) => if tool_name_ok(t) {
            Ok(t)
        } else {
            Err("invalid merge tool name "@ + str_debug(t))
        },
        None => match cmd {
            Some(_) => Ok("ibexgit-custom"@),
            None => Err("mergetool: no tool configured"@),
        },
    }
}

/// `git mergetool` on one path with the tool set for this run only: no
/// prompt, the tool's exit code trusted, no backup files.
pub open spec fn mergetool_args_spec(repo: Seq<char>, path: Seq<char>, name: Seq<char>, cmd: Option<Seq<char>>) -> Seq<Seq<char>> {
    seq![
        "-C"@,
        repo,
        "-c"@,
        "merge.tool="@ + name,
        "-c"@,
        "mergetool.prompt=false"@,
        "-c"@,
        "mergetool."@ + name + ".trustExitCode=true"@,
        "-c"@,
        "mergetool.keepBackup=false"@,
    ] + (match cmd {
        Some(c) => seq!["-c"@, "mergetool."@ + name + ".cmd="@ + c],
        None => Seq::<Seq<char>>::empty(),
    }) + seq!["mergetool"@, "--"@, path]
}

fn tool_name_valid(t: &str) -> (r: bool)
    ensures
        r == tool_name_ok(t@),
{
    let c = to_chars(t);
    if c.len() == 0 {
        return false;
    }
    let mut i: usize = 0;
    while i < c.len()
        invariant
            0 <= i <= c@.len(),
            c@ == t@,
            forall|j: int| 0 <= j < i ==> crate::parse::is_ascii_alnum(#[trigger] c@[j]) || c@[j] == '-' || c@[j] == '_',
        decreases c.len() - i,
    {
        let ch = c[i];
        let ok = ('a' <= ch && ch <= 'z') || ('A' <= ch && ch <= 'Z') || ('0' <= ch && ch <= '9') || ch == '-' || ch == '_';
        if !ok {
            return false;
        }
        i += 1;
    }
    true
}

pub fn mergetool_args(repo: &str, path: &str, tool: Option<&str>, cmd: Option<&str>) -> (r: Result<Vec<String>, AppError>)
    ensures
        match mergetool_name(str_opt(tool), str_opt(cmd)) {
            Ok(name) => r matches Ok(a) && strs(a@) == mergetool_args_spec(repo@, path@, name, str_opt(cmd)),
            Err(m) => r matches Err(AppError::Parse { message }) && message@ == m,
        },
{
    let name: String = match tool {
        Some(t) => {
            if !tool_name_valid(t) {
                let mut m = String::new();
                push_str(&mut m, "invalid merge tool name ");
                let q = debug_quoted(t);
                push_str(&mut m, q.as_str());
                return Err(AppError::parse(m));
            }
            String::from_str(t)
        },
        None => match cmd {
            Some(_) => String::from_str("ibexgit-custom"),
            None => {
                return Err(parse_error("mergetool: no tool configured"));
            },
        },
    };
    let mut a: Vec<String> = Vec::new();
    push_arg(&mut a, "-C");
    push_arg(&mut a, repo);
    push_arg(&mut a, "-c");
    let mut s1 = String::new();
    push_str(&mut s1, "merge.tool=");
    push_str(&mut s1, name.as_str());
    push_arg(&mut a, s1.as_str());
    push_arg(&mut a, "-c");
    push_arg(&mut a, "mergetool.prompt=false");
    push_arg(&mut a, "-c");
    let mut s2 = String::new();
    push_str(&mut s2, "mergetool.");
    push_str(&mut s2, name.as_str());
    push_str(&mut s2, ".trustExitCode=true");
    push_arg(&mut a, s2.as_str());
    push_arg(&mut a, "-c");
    push_arg(&mut a, "mergetool.keepBackup=false");
    let ghost a0 = strs(a@);
    match cmd {
        Some(c) => {
            push_arg(&mut a, "-c");
            let mut s3 = String::new();
            push_str(&mut s3, "mergetool.");
            push_str(&mut s3, name.as_str());
            push_str(&mut s3, ".cmd=");
            push_str(&mut s3, c);
            push_arg(&mut a, s3.as_str());
        },
        None => {},
    }
    assert(strs(a@) =~= a0 + (match str_opt(cmd) {
        Some(c) => seq!["-c"@, "mergetool."@ + name@ + ".cmd="@ + c],
        None => Seq::<Seq<char>>::empty(),
    }));
    push_arg(&mut a, "mergetool");
    push_arg(&mut a, "--");
    push_arg(&mut a, path);
    Ok(a)
}

// =====================
// config set / unset
// =====================

/// Where a config write goes: the user's global file, or a repository's.
pub enum ConfigTarget<'a> {
    Global,
    Local(&'a str),
}

pub open spec fn config_set_args_spec(repo: Option<Seq<char>>, key: Seq<char>, value: Option<Seq<char>>) -> Seq<Seq<char>> {
    match repo {
        None => match value {
            Some(v) => seq!["config"@, "--global"@, "--"@, key, v],
            None => seq!["config"@, "--global"@, "--unset"@, "--"@, key],
        },
        Some(r) => match value {
            Some(v) => seq!["-C"@, r, "config"@, "--local"@, "--replace-all"@, "--"@, key, v],
            None => seq!["-C"@, r, "config"@, "--local"@, "--unset-all"@, "--"@, key],
        },
    }
}

pub open spec fn target_repo(t: ConfigTarget) -> Option<Seq<char>> {
    match t {
        ConfigTarget::Global => None,
        ConfigTarget::Local(r) => Some(r@),
    }
}

/// The `git config` write of `key` (`None`: unset it): the key is checked
/// first (it must not read as an option); `--` keeps the value positional.
pub fn config_set_args(target: ConfigTarget, key: &str, value: Option<&str>) -> (r: Result<Vec<String>, AppError>)
    ensures
        crate::parse::config_key_ok(key@) ==> (r matches Ok(a) && strs(a@) == config_set_args_spec(
            target_repo(target),
            key@,
            str_opt(value),
        )),
        !crate::parse::config_key_ok(key@) ==> (r matches Err(AppError::Parse { message }) && message@
            == "invalid config key: "@ + str_debug(key@)),
{
    if !crate::parse::config_key_valid(key) {
        let mut m = String::new();
        push_str(&mut m, "invalid config key: ");
        let q = debug_quoted(key);
        push_str(&mut m, q.as_str());
        return Err(AppError::parse(m));
    }
    let mut a: Vec<String> = Vec::new();
    match target {
        ConfigTarget::Global => {
            push_arg(&mut a, "config");
            push_arg(&mut a, "--global");
            match value {
                Some(v) => {
                    push_arg(&mut a, "--");
                    push_arg(&mut a, key);
                    push_arg(&mut a, v);
                },
                None => {
                    push_arg(&mut a, "--unset");
                    push_arg(&mut a, "--");
                    push_arg(&mut a, key);
                },
            }
        },
        ConfigTarget::Local(repo) => {
            push_arg(&mut a, "-C");
            push_arg(&mut a, repo);
            push_arg(&mut a, "config");
            push_arg(&mut a, "--local");
            match value {
                Some(v) => {
                    push_arg(&mut a, "--replace-all");
                    push_arg(&mut a, "--");
                    push_arg(&mut a, key);
                    push_arg(&mut a, v);
                },
                None => {
                    push_arg(&mut a, "--unset-all");
                    push_arg(&mut a, "--");
                    push_arg(&mut a, key);
                },
            }
        },
    }
    Ok(a)
}

/// The outcome of a config write: unsetting a key that is not there
/// (exit 5) succeeds; otherwise the run must succeed.
pub fn config_set_outcome(unset: bool, exit_code: Option<i32>, stderr: String, stdout: String) -> (r: Result<(), AppError>)
    ensures
        (exit_code == Some(0i32) || (unset && exit_code == Some(5i32))) ==> r is Ok,
        !(exit_code == Some(0i32) || (unset && exit_code == Some(5i32))) ==> (r matches Err(e) && is_exit_error(
            e,
            exit_code,
            stderr@,
            stdout@,
        )),
{
    if unset && exit_code == Some(5i32) {
        return Ok(());
    }
    ensure_success(exit_code, stderr, stdout)
}

// =====================
// Keeping one side of a conflict
// =====================

/// The stage of a side: `ours` is stage 2, `theirs` stage 3.
pub open spec fn side_stage(side: Seq<char>) -> Option<u32> {
    if side == "ours"@ {
        Some(2u32)
    } else if side == "theirs"@ {
        Some(3u32)
    } else {
        None
    }
}

/// The first `(path, stages)` group of `path`.
pub open spec fn group_of(groups: Seq<(Seq<char>, Seq<(u32, IndexEntryV)>)>, path: Seq<char>) -> Option<Seq<(u32, IndexEntryV)>>
    decreases groups.len(),
{
    if groups.len() == 0 {
        None
    } else if groups[0].0 == path {
        Some(groups[0].1)
    } else {
        group_of(groups.skip(1), path)
    }
}

/// The first entry of `stage`.
pub open spec fn stage_entry(stages: Seq<(u32, IndexEntryV)>, stage: u32) -> Option<IndexEntryV>
    decreases stages.len(),
{
    if stages.len() == 0 {
        None
    } else if stages[0].0 == stage {
        Some(stages[0].1)
    } else {
        stage_entry(stages.skip(1), stage)
    }
}

/// The index entry whose blob keeping `side` of `path` writes back, or why
/// there is none (`Err` holds the message).
pub open spec fn keep_side_entry_spec(groups: Seq<(Seq<char>, Seq<(u32, IndexEntryV)>)>, path: Seq<char>, side: Seq<char>) -> Result<IndexEntryV, Seq<char>> {
    match side_stage(side) {
        None => Err("unknown conflict side "@ + str_debug(side)),
        Some(n) => match group_of(groups, path) {
            None => Err("path "@ + str_debug(path) + " has no unmerged index entry"@),
            Some(stages) => match stage_entry(stages, n) {
                None => Err("path "@ + str_debug(path) + " has no "@ + side + " (stage "@ + dec_string(n as nat) + ") entry"@),
                Some(e) => Ok(e),
            },
        },
    }
}

pub open spec fn group_views(groups: Seq<(String, Vec<(u32, IndexEntry)>)>) -> Seq<(Seq<char>, Seq<(u32, IndexEntryV)>)> {
    groups.map_values(|g: (String, Vec<(u32, IndexEntry)>)| (g.0@, crate::blobs::stage_views(g.1@)))
}

pub fn keep_side_entry(groups: &[(String, Vec<(u32, IndexEntry)>)], path: &str, side: &str) -> (r: Result<IndexEntry, AppError>)
    ensures
        match keep_side_entry_spec(group_views(groups@), path@, side@) {
            Ok(e) => r matches Ok(x) && x@ == e,
            Err(m) => r matches Err(AppError::Parse { message }) && message@ == m,
        },
{
    let sc = to_chars(side);
    let ours = to_chars("ours");
    let theirs = to_chars("theirs");
    proof {
        reveal_strlit("ours");
        reveal_strlit("theirs");
    }
    let stage_no: u32 = if eq_chars(sc.as_slice(), ours.as_slice()) {
        2
    } else if eq_chars(sc.as_slice(), theirs.as_slice()) {
        3
    } else {
        let mut m = String::new();
        push_str(&mut m, "unknown conflict side ");
        let q = debug_quoted(side);
        push_str(&mut m, q.as_str());
        return Err(AppError::parse(m));
    };
    let ghost gv = group_views(groups@);
    let pc = to_chars(path);
    let mut i: usize = 0;
    assert(gv.skip(0) =~= gv);
    assert(side_stage(side@) == Some(stage_no));
    while i < groups.len()
        invariant
            0 <= i <= groups@.len(),
            gv == group_views(groups@),
            side_stage(side@) == Some(stage_no),
            pc@ == path@,
            group_of(gv, path@) == group_of(gv.skip(i as int), path@),
        decreases groups.len() - i,
    {
        proof {
            assert(gv.skip(i as int)[0] == gv[i as int]);
            assert(gv.skip(i as int).skip(1) =~= gv.skip(i + 1));
        }
        let gc = to_chars(groups[i].0.as_str());
        if eq_chars(gc.as_slice(), pc.as_slice()) {
            let stages = &groups[i].1;
            let ghost sv = crate::blobs::stage_views(stages@);
            let mut k: usize = 0;
            assert(sv.skip(0) =~= sv);
            assert(gv[i as int] == (groups@[i as int].0@, sv));
            assert(group_of(gv, path@) == Some(sv));
            while k < stages.len()
                invariant
                    0 <= k <= stages@.len(),
                    sv == crate::blobs::stage_views(stages@),
                    group_of(gv, path@) == Some(sv),
                    gv == group_views(groups@),
                    side_stage(side@) == Some(stage_no),
                    stage_entry(sv, stage_no) == stage_entry(sv.skip(k as int), stage_no),
                decreases stages.len() - k,
            {
                proof {
                    assert(sv.skip(k as int)[0] == sv[k as int]);
                    assert(sv.skip(k as int).skip(1) =~= sv.skip(k + 1));
                }
                if stages[k].0 == stage_no {
                    let e = &stages[k].1;
                    assert(sv[k as int] == (stages@[k as int].0, e@));
                    assert(stage_entry(sv.skip(k as int), stage_no) == Some(e@));
                    let x = IndexEntry { path: e.path.clone(), mode: e.mode.clone(), sha: e.sha.clone(), stage: e.stage };
                    assert(x@ == e@);
                    return Ok(x);
                }
                k += 1;
            }
            assert(sv.skip(k as int).len() == 0);
            let mut m = String::new();
            push_str(&mut m, "path ");
            let q = debug_quoted(path);
            push_str(&mut m, q.as_str());
            push_str(&mut m, " has no ");
            push_str(&mut m, side);
            push_str(&mut m, " (stage ");
            push_u64(&mut m, stage_no as u64);
            push_str(&mut m, ") entry");
            return Err(AppError::parse(m));
        }
        i += 1;
    }
    assert(gv.skip(i as int).len() == 0);
    let mut m = String::new();
    push_str(&mut m, "path ");
    let q = debug_quoted(path);
    push_str(&mut m, q.as_str());
    push_str(&mut m, " has no unmerged index entry");
    Err(AppError::parse(m))
}

/// The bytes keeping a side writes back: the side's blob, or an error when
/// it could not be read.
pub fn keep_side_bytes(blob: Option<Vec<u8>>, path: &str, side: &str) -> (r: Result<Vec<u8>, AppError>)
    ensures
        match blob {
            Some(b) => r matches Ok(x) && x@ == b@,
            None => r matches Err(AppError::Parse { message }) && message@ == side@ + " side of "@ + str_debug(path@)
                + " is unavailable"@,
        },
{
    match blob {
        Some(b) => Ok(b),
        None => {
            let mut m = String::new();
            push_str(&mut m, side);
            push_str(&mut m, " side of ");
            let q = debug_quoted(path);
            push_str(&mut m, q.as_str());
            push_str(&mut m, " is unavailable");
            Err(AppError::parse(m))
        },
    }
}

// =====================
// clone
// =====================

/// `git clone` with progress, the requested depth, branch and submodule
/// options, and `--` before the URL and destination.
pub fn clone_args(opts: &CloneOptions) -> (r: Vec<String>)
    ensures
        strs(r@) == seq!["clone"@, "--progress"@] + (match opts.depth {
            Some(d) => seq!["--depth"@, dec_string(d as nat)],
            None => Seq::<Seq<char>>::empty(),
        }) + flag(opts.single_branch, "--single-branch"@) + flag(opts.recurse_submodules, "--recurse-submodules"@) + seq![
            "--"@,
            opts.url@,
            opts.dest@,
        ],
{
    let mut a: Vec<String> = Vec::new();
    push_arg(&mut a, "clone");
    push_arg(&mut a, "--progress");
    let ghost a0 = strs(a@);
    match opts.depth {
        Some(d) => {
            push_arg(&mut a, "--depth");
            let mut t = String::new();
            push_u64(&mut t, d as u64);
            push_arg(&mut a, t.as_str());
        },
        None => {},
    }
    assert(strs(a@) =~= a0 + (match opts.depth {
        Some(d) => seq!["--depth"@, dec_string(d as nat)],
        None => Seq::<Seq<char>>::empty(),
    }));
    push_flag(&mut a, opts.single_branch, "--single-branch");
    push_flag(&mut a, opts.recurse_submodules, "--recurse-submodules");
    push_arg(&mut a, "--");
    push_arg(&mut a, opts.url.as_str());
    push_arg(&mut a, opts.dest.as_str());
    a
}

// =====================
// diff and log
// =====================

fn push_all(args: &mut Vec<String>, v: &[String])
    ensures
        strs(final(args)@) == strs(old(args)@) + strs(v@),
{
    let ghost a0 = strs(args@);
    let mut i: usize = 0;
    while i < v.len()
        invariant
            0 <= i <= v@.len(),
            strs(args@) == a0 + strs(v@).take(i as int),
        decreases v.len() - i,
    {
        push_arg(args, v[i].as_str());
        assert(strs(v@).take(i + 1) =~= strs(v@).take(i as int).push(v@[i as int]@));
        i += 1;
    }
    assert(strs(v@).take(v@.len() as int) =~= strs(v@));
}

/// `--` and the paths, when there are any.
pub open spec fn path_args(paths: Seq<Seq<char>>) -> Seq<Seq<char>> {
    if paths.len() > 0 {
        seq!["--"@] + paths
    } else {
        Seq::<Seq<char>>::empty()
    }
}

fn push_paths(args: &mut Vec<String>, paths: &[String])
    ensures
        strs(final(args)@) == strs(old(args)@) + path_args(strs(paths@)),
{
    if paths.len() > 0 {
        let ghost a0 = strs(args@);
        push_arg(args, "--");
        push_all(args, paths);
        assert(strs(args@) =~= a0 + (seq!["--"@] + strs(paths@)));
    } else {
        assert(strs(args@) =~= strs(args@) + Seq::<Seq<char>>::empty());
    }
}

pub open spec fn rev_pair(r: Option<(&str, &str)>) -> Option<(Seq<char>, Seq<char>)> {
    match r {
        Some((a, b)) => Some((a@, b@)),
        None => None,
    }
}

/// What a diff source adds to `git diff`: the index for staged changes,
/// the revision pair of a commit or stash entry, the latest stash
/// otherwise.
pub open spec fn source_args(source: DiffSource, rev_range: Option<(Seq<char>, Seq<char>)>) -> Seq<Seq<char>> {
    match source {
        DiffSource::Staged => seq!["--cached"@],
        DiffSource::Commit => match rev_range {
            Some((a, b)) => seq![a, b],
            None => Seq::<Seq<char>>::empty(),
        },
        DiffSource::Stash => match rev_range {
            Some((a, b)) => seq![a, b],
            None => seq!["stash"@],
        },
        DiffSource::Worktree => Seq::<Seq<char>>::empty(),
    }
}

pub open spec fn diff_args_spec(repo: Seq<char>, source: DiffSource, rev_range: Option<(Seq<char>, Seq<char>)>, paths: Seq<Seq<char>>, opts: DiffOptions) -> Seq<Seq<char>> {
    seq!["-C"@, repo, "diff"@, "--no-color"@, "-M"@, "--diff-filter=ACDMRTUXB"@] + (if opts.context_lines != 3 {
        seq!["--unified="@ + dec_string(opts.context_lines as nat)]
    } else {
        Seq::<Seq<char>>::empty()
    }) + flag(opts.ignore_whitespace, "-w"@) + source_args(source, rev_range) + path_args(paths)
}

/// The `git diff` of a source: renames detected, the context and
/// whitespace options, the source's revisions and the paths.
pub fn diff_args(repo: &str, source: DiffSource, rev_range: Option<(&str, &str)>, paths: &[String], opts: DiffOptions) -> (r: Vec<String>)
    ensures
        strs(r@) == diff_args_spec(repo@, source, rev_pair(rev_range), strs(paths@), opts),
{
    let mut a: Vec<String> = Vec::new();
    push_arg(&mut a, "-C");
    push_arg(&mut a, repo);
    push_arg(&mut a, "diff");
    push_arg(&mut a, "--no-color");
    push_arg(&mut a, "-M");
    push_arg(&mut a, "--diff-filter=ACDMRTUXB");
    let ghost a0 = strs(a@);
    if opts.context_lines != 3 {
        let mut u = String::new();
        push_str(&mut u, "--unified=");
        push_u64(&mut u, opts.context_lines as u64);
        push_arg(&mut a, u.as_str());
    }
    assert(strs(a@) =~= a0 + (if opts.context_lines != 3 {
        seq!["--unified="@ + dec_string(opts.context_lines as nat)]
    } else {
        Seq::<Seq<char>>::empty()
    }));
    push_flag(&mut a, opts.ignore_whitespace, "-w");
    let ghost a1 = strs(a@);
    match source {
        DiffSource::Staged => push_arg(&mut a, "--cached"),
        DiffSource::Commit => match rev_range {
            Some((x, y)) => {
                push_arg(&mut a, x);
                push_arg(&mut a, y);
            },
            None => {},
        },
        DiffSource::Stash => match rev_range {
            Some((x, y)) => {
                push_arg(&mut a, x);
                push_arg(&mut a, y);
            },
            None => push_arg(&mut a, "stash"),
        },
        DiffSource::Worktree => {},
    }
    assert(strs(a@) =~= a1 + source_args(source, rev_pair(rev_range)));
    push_paths(&mut a, paths);
    a
}

pub open spec fn count_args(on: bool, f: Seq<char>, n: u32) -> Seq<Seq<char>> {
    if on {
        seq![f, dec_string(n as nat)]
    } else {
        Seq::<Seq<char>>::empty()
    }
}

fn push_count(args: &mut Vec<String>, on: bool, f: &str, n: u32)
    ensures
        strs(final(args)@) == strs(old(args)@) + count_args(on, f@, n),
{
    if on {
        let ghost a0 = strs(args@);
        push_arg(args, f);
        let mut t = String::new();
        push_u64(&mut t, n as u64);
        push_arg(args, t.as_str());
        assert(strs(args@) =~= a0 + seq![f@, dec_string(n as nat)]);
    } else {
        assert(strs(args@) =~= strs(args@) + Seq::<Seq<char>>::empty());
    }
}

/// A page of `git log` in topological order, in the graph's record format.
pub fn log_args(repo: &str, limit: u32, offset: u32, paths: &[String]) -> (r: Vec<String>)
    ensures
        strs(r@) == seq!["-C"@, repo@, "log"@, "--topo-order"@, "--format="@ + LOG_FORMAT@, "--no-color"@] + count_args(
            limit > 0,
            "-n"@,
            limit,
        ) + count_args(offset > 0, "--skip"@, offset) + path_args(strs(paths@)),
{
    let mut a: Vec<String> = Vec::new();
    push_arg(&mut a, "-C");
    push_arg(&mut a, repo);
    push_arg(&mut a, "log");
    push_arg(&mut a, "--topo-order");
    let mut f = String::new();
    push_str(&mut f, "--format=");
    push_str(&mut f, LOG_FORMAT);
    push_arg(&mut a, f.as_str());
    push_arg(&mut a, "--no-color");
    push_count(&mut a, limit > 0, "-n", limit);
    push_count(&mut a, offset > 0, "--skip", offset);
    push_paths(&mut a, paths);
    a
}

pub open spec fn opt_flag_arg(f: Seq<char>, o: Option<Seq<char>>) -> Seq<Seq<char>> {
    match o {
        Some(v) => seq![f, v],
        None => Seq::<Seq<char>>::empty(),
    }
}

fn push_opt_flag(args: &mut Vec<String>, f: &str, o: Option<&str>)
    ensures
        strs(final(args)@) == strs(old(args)@) + opt_flag_arg(f@, str_opt(o)),
{
    match o {
        Some(v) => {
            push_arg(args, f);
            push_arg(args, v);
        },
        None => {
            assert(strs(args@) =~= strs(args@) + Seq::<Seq<char>>::empty());
        },
    }
}

/// The commits of a report: all branches, with per-file line counts, in
/// the report's record format, within the date range and author.
pub fn log_numstat_args(repo: &str, since: Option<&str>, until: Option<&str>, author: Option<&str>, limit: u32) -> (r: Vec<String>)
    ensures
        strs(r@) == seq![
            "-C"@,
            repo@,
            "log"@,
            "--all"@,
            "--no-color"@,
            "-z"@,
            "--numstat"@,
            "--format=%x1e%H%x1f%an%x1f%ae%x1f%aI%x1f%s"@,
        ] + opt_flag_arg("--since"@, str_opt(since)) + opt_flag_arg("--until"@, str_opt(until)) + opt_flag_arg(
            "--author"@,
            str_opt(author),
        ) + count_args(limit > 0, "-n"@, limit),
{
    let mut a: Vec<String> = Vec::new();
    push_arg(&mut a, "-C");
    push_arg(&mut a, repo);
    push_arg(&mut a, "log");
    push_arg(&mut a, "--all");
    push_arg(&mut a, "--no-color");
    push_arg(&mut a, "-z");
    push_arg(&mut a, "--numstat");
    push_arg(&mut a, "--format=%x1e%H%x1f%an%x1f%ae%x1f%aI%x1f%s");
    push_opt_flag(&mut a, "--since", since);
    push_opt_flag(&mut a, "--until", until);
    push_opt_flag(&mut a, "--author", author);
    push_count(&mut a, limit > 0, "-n", limit);
    a
}

/// The author and commit time of each non-merge commit of `rev`.
pub fn commit_stats_args(repo: &str, rev: &str) -> (r: Vec<String>)
    ensures
        strs(r@) == seq!["-C"@, repo@, "log"@, "--no-color"@, "--no-merges"@, rev@, "--format=%x1e%an%x1f%ae%x1f%ct"@],
{
    let mut a: Vec<String> = Vec::new();
    push_arg(&mut a, "-C");
    push_arg(&mut a, repo);
    push_arg(&mut a, "log");
    push_arg(&mut a, "--no-color");
    push_arg(&mut a, "--no-merges");
    push_arg(&mut a, rev);
    push_arg(&mut a, "--format=%x1e%an%x1f%ae%x1f%ct");
    a
}

// =====================
// Commit detail
// =====================

/// The metadata of one commit.
pub fn commit_detail_args(repo: &str, hash: &str) -> (r: Vec<String>)
    ensures
        strs(r@) == seq!["-C"@, repo@, "log"@, "-1"@, "--no-color"@, "--format="@ + LOG_FORMAT@, hash@],
{
    let mut a: Vec<String> = Vec::new();
    push_arg(&mut a, "-C");
    push_arg(&mut a, repo);
    push_arg(&mut a, "log");
    push_arg(&mut a, "-1");
    push_arg(&mut a, "--no-color");
    let mut f = String::new();
    push_str(&mut f, "--format=");
    push_str(&mut f, LOG_FORMAT);
    push_arg(&mut a, f.as_str());
    push_arg(&mut a, hash);
    a
}

/// The commit the metadata run shows: its last record, or an error naming
/// the hash when there is none.
pub fn detail_commit(stdout: &str, hash: &str) -> (r: Result<CommitInfo, AppError>)
    ensures
        log_model(stdout@).len() > 0 ==> (r matches Ok(c) && c@ == log_model(stdout@).last()),
        log_model(stdout@).len() == 0 ==> (r matches Err(AppError::Parse { message }) && message@ == "no commit "@
            + str_debug(hash@)),
{
    let mut commits = parse_log(stdout);
    let ghost before = commits@;
    match commits.pop() {
        Some(c) => {
            assert(seq_view(before).last() == c@);
            Ok(c)
        },
        None => {
            let mut m = String::new();
            push_str(&mut m, "no commit ");
            let q = debug_quoted(hash);
            push_str(&mut m, q.as_str());
            Err(AppError::parse(m))
        },
    }
}

/// The changed files of a commit: a merge against its first parent, any
/// other commit against its parent (or the empty tree for a root).
pub open spec fn detail_files_args_spec(repo: Seq<char>, c: CommitInfoV) -> Seq<Seq<char>> {
    if c.parents.len() > 1 {
        seq!["-C"@, repo, "diff-tree"@, "-r"@, "-M"@, "-z"@, "--name-status"@, "--no-commit-id"@, c.parents[0], c.hash]
    } else {
        seq!["-C"@, repo, "diff-tree"@, "--root"@, "-r"@, "-M"@, "-z"@, "--name-status"@, "--no-commit-id"@, c.hash]
    }
}

pub fn detail_files_args(repo: &str, commit: &CommitInfo) -> (r: Vec<String>)
    ensures
        strs(r@) == detail_files_args_spec(repo@, commit@),
{
    let mut a: Vec<String> = Vec::new();
    push_arg(&mut a, "-C");
    push_arg(&mut a, repo);
    push_arg(&mut a, "diff-tree");
    if commit.parents.len() > 1 {
        assert(commit@.parents[0] == commit.parents@[0]@);
        push_arg(&mut a, "-r");
        push_arg(&mut a, "-M");
        push_arg(&mut a, "-z");
        push_arg(&mut a, "--name-status");
        push_arg(&mut a, "--no-commit-id");
        push_arg(&mut a, commit.parents[0].as_str());
    } else {
        push_arg(&mut a, "--root");
        push_arg(&mut a, "-r");
        push_arg(&mut a, "-M");
        push_arg(&mut a, "-z");
        push_arg(&mut a, "--name-status");
        push_arg(&mut a, "--no-commit-id");
    }
    push_arg(&mut a, commit.hash.as_str());
    a
}

/// A commit with its first parent and changed files.
pub fn commit_detail(commit: CommitInfo, files_stdout: &str) -> (r: CommitDetail)
    ensures
        r.commit@ == commit@,
        opt_str(r.parent) == (if commit@.parents.len() > 0 {
            Some(commit@.parents[0])
        } else {
            None
        }),
        seq_view(r.files@) == commit_files_model(files_stdout@),
{
    let parent = if commit.parents.len() > 0 {
        assert(commit@.parents[0] == commit.parents@[0]@);
        Some(commit.parents[0].clone())
    } else {
        None
    };
    let files = parse_commit_files(files_stdout);
    CommitDetail { commit, parent, files }
}

// =====================
// Conflicts
// =====================

/// The list entry of a conflicted path.
pub fn conflict_summary(m: &ConflictModel) -> (r: ConflictSummary)
    ensures
        r.path@ == m.path@,
        r.code@ == m.code@,
        r.conflict_type == m.conflict_type,
        r.block_count == m.block_count,
        r.binary == m.binary,
        r.oversized == m.oversized,
        r.directory == m.directory,
        r.submodule == m.submodule,
        r.editable == m.editable,
{
    ConflictSummary {
        path: m.path.clone(),
        code: m.code.clone(),
        conflict_type: m.conflict_type,
        block_count: m.block_count,
        binary: m.binary,
        oversized: m.oversized,
        directory: m.directory,
        submodule: m.submodule,
        editable: m.editable,
    }
}

/// The first model of `path` among all conflicted paths' models.
pub fn find_conflict_model(models: Vec<ConflictModel>, path: &str) -> (r: Result<ConflictModel, AppError>)
    ensures
        match r {
            Ok(m) => exists|i: int|
                0 <= i < models@.len() && models@[i] == m && m.path@ == path@ && forall|j: int|
                    0 <= j < i ==> (#[trigger] models@[j]).path@ != path@,
            Err(e) => {
                &&& forall|j: int| 0 <= j < models@.len() ==> (#[trigger] models@[j]).path@ != path@
                &&& e matches AppError::Parse { message } && message@ == "path "@ + str_debug(path@)
                    + " has no unmerged index entry"@
            },
        },
{
    let pc = to_chars(path);
    let ghost all = models@;
    let mut rest = models;
    let mut i: usize = 0;
    while i < rest.len()
        invariant
            0 <= i <= rest@.len(),
            rest@ == all,
            all == models@,
            pc@ == path@,
            forall|j: int| 0 <= j < i ==> (#[trigger] all[j]).path@ != path@,
        decreases rest.len() - i,
    {
        let mc = to_chars(rest[i].path.as_str());
        if eq_chars(mc.as_slice(), pc.as_slice()) {
            let m = rest.swap_remove(i);
            assert(all[i as int] == m);
            return Ok(m);
        }
        i += 1;
    }
    let mut msg = String::new();
    push_str(&mut msg, "path ");
    let q = debug_quoted(path);
    push_str(&mut msg, q.as_str());
    push_str(&mut msg, " has no unmerged index entry");
    Err(AppError::parse(msg))
}

// =====================
// .gitignore
// =====================

/// `path` as a root-anchored pattern, backslashes turned into slashes.
pub open spec fn ignore_pattern(path: Seq<char>) -> Seq<char> {
    seq!['/'] + Seq::new(path.len(), |i: int| if path[i] == '\\' { '/' } else { path[i] })
}

/// The trimmed lines of a `.gitignore`.
pub open spec fn known_patterns(existing: Seq<char>) -> Seq<Seq<char>> {
    lines(existing).map_values(|l: Seq<char>| trim(l))
}

pub open spec fn not_ignored(existing: Seq<char>) -> spec_fn(Seq<char>) -> bool {
    |p: Seq<char>| !known_patterns(existing).contains(ignore_pattern(p)) && !known_patterns(existing).contains(p)
}

/// The patterns ignoring `paths` adds: each path not already listed (as
/// itself or as its pattern), in order.
pub open spec fn added_patterns(existing: Seq<char>, paths: Seq<Seq<char>>) -> Seq<Seq<char>> {
    paths.filter(not_ignored(existing)).map_values(|p: Seq<char>| ignore_pattern(p))
}

/// Each pattern on a line of its own.
pub open spec fn pattern_lines(ps: Seq<Seq<char>>) -> Seq<char>
    decreases ps.len(),
{
    if ps.len() == 0 {
        Seq::<char>::empty()
    } else {
        pattern_lines(ps.drop_last()) + ps.last().push('\n')
    }
}

/// The text to append to a `.gitignore` holding `existing` so that it
/// ignores `paths`: a line break first when the file does not end in one,
/// then one pattern per line; `None` when every path is already listed.
pub open spec fn gitignore_append_spec(existing: Seq<char>, paths: Seq<Seq<char>>) -> Option<Seq<char>> {
    let added = added_patterns(existing, paths);
    if added.len() == 0 {
        None
    } else {
        Some(
            (if existing.len() > 0 && existing.last() != '\n' {
                seq!['\n']
            } else {
                Seq::<char>::empty()
            }) + pattern_lines(added),
        )
    }
}

fn pattern_of(path: &str) -> (r: String)
    ensures
        r@ == ignore_pattern(path@),
{
    let pc = to_chars(path);
    let mut out = String::new();
    push_char(&mut out, '/');
    let mut i: usize = 0;
    while i < pc.len()
        invariant
            0 <= i <= pc@.len(),
            pc@ == path@,
            out@ == seq!['/'] + Seq::new(i as nat, |j: int| if path@[j] == '\\' { '/' } else { path@[j] }),
        decreases pc.len() - i,
    {
        let c = if pc[i] == '\\' {
            '/'
        } else {
            pc[i]
        };
        let ghost before = out@;
        push_char(&mut out, c);
        assert(out@ =~= seq!['/'] + Seq::new((i + 1) as nat, |j: int| if path@[j] == '\\' { '/' } else { path@[j] }));
        i += 1;
    }
    out
}

fn listed(known: &Vec<Vec<char>>, p: &[char]) -> (r: bool)
    ensures
        r == crate::text::views(known@).contains(p@),
{
    let mut i: usize = 0;
    while i < known.len()
        invariant
            0 <= i <= known@.len(),
            forall|j: int| 0 <= j < i ==> (#[trigger] known@[j])@ != p@,
        decreases known.len() - i,
    {
        if eq_chars(known[i].as_slice(), p) {
            assert(crate::text::views(known@)[i as int] == p@);
            return true;
        }
        i += 1;
    }
    assert forall|j: int| 0 <= j < crate::text::views(known@).len() implies crate::text::views(known@)[j] != p@ by {
        assert(crate::text::views(known@)[j] == known@[j]@);
    }
    false
}

/// What ignoring `paths` appends to a `.gitignore` holding `existing`.
pub fn gitignore_append(existing: &str, paths: &[String]) -> (r: Option<String>)
    ensures
        opt_str(r) == gitignore_append_spec(existing@, strs(paths@)),
{
    let ec = to_chars(existing);
    let ls = split_lines(ec.as_slice());
    let mut known: Vec<Vec<char>> = Vec::new();
    let mut k: usize = 0;
    while k < ls.len()
        invariant
            0 <= k <= ls@.len(),
            crate::text::views(ls@) == lines(existing@),
            crate::text::views(known@) == lines(existing@).take(k as int).map_values(|l: Seq<char>| trim(l)),
        decreases ls.len() - k,
    {
        let t = trim_chars(ls[k].as_slice());
        let ghost before = known@;
        assert(ls@[k as int]@ == lines(existing@)[k as int]);
        known.push(t);
        assert(crate::text::views(known@) =~= crate::text::views(before).push(t@));
        assert(lines(existing@).take(k + 1) =~= lines(existing@).take(k as int).push(lines(existing@)[k as int]));
        assert(lines(existing@).take(k + 1).map_values(|l: Seq<char>| trim(l)) =~= lines(existing@).take(k as int).map_values(
            |l: Seq<char>| trim(l),
        ).push(trim(lines(existing@)[k as int])));
        k += 1;
    }
    assert(lines(existing@).take(ls@.len() as int) =~= lines(existing@));
    let ghost kv = crate::text::views(known@);
    assert(kv == known_patterns(existing@));
    let mut out = String::new();
    let lead = ec.len() > 0 && ec[ec.len() - 1] != '\n';
    if lead {
        push_char(&mut out, '\n');
    }
    let ghost prefix = out@;
    let ghost pv = strs(paths@);
    let ghost keep = not_ignored(existing@);
    let mut added: usize = 0;
    let mut i: usize = 0;
    while i < paths.len()
        invariant
            0 <= i <= paths@.len(),
            pv == strs(paths@),
            kv == crate::text::views(known@),
            kv == known_patterns(existing@),
            keep == not_ignored(existing@),
            added as int == pv.take(i as int).filter(keep).len(),
            out@ == prefix + pattern_lines(pv.take(i as int).filter(keep).map_values(|p: Seq<char>| ignore_pattern(p))),
        decreases paths.len() - i,
    {
        let p = &paths[i];
        let pat = pattern_of(p.as_str());
        let patc = to_chars(pat.as_str());
        let pc = to_chars(p.as_str());
        let skip = listed(&known, patc.as_slice()) || listed(&known, pc.as_slice());
        proof {
            assert(pv.take(i + 1) =~= pv.take(i as int).push(p@));
            pv.take(i as int).lemma_filter_push(p@, keep);
        }
        if !skip {
            let ghost before = out@;
            push_str(&mut out, pat.as_str());
            push_char(&mut out, '\n');
            proof {
                let f0 = pv.take(i as int).filter(keep).map_values(|p: Seq<char>| ignore_pattern(p));
                let f1 = pv.take(i as int).filter(keep).push(p@).map_values(|p: Seq<char>| ignore_pattern(p));
                assert(f1 =~= f0.push(ignore_pattern(p@)));
                assert(f1.drop_last() =~= f0);
                assert(out@ =~= prefix + pattern_lines(f1));
            }
            added = added + 1;
        }
        i += 1;
    }
    assert(pv.take(paths@.len() as int) =~= pv);
    if added == 0 {
        None
    } else {
        Some(out)
    }
}

// =====================
// File content
// =====================

/// Above this many bytes a file's content is not sent, only its size.
pub const MAX_CONTENT_BYTES: u64 = 10 * 1024 * 1024;

/// Digit `v` (0..64) of the standard base64 alphabet of RFC 4648:
/// `A`-`Z`, `a`-`z`, `0`-`9`, `+`, `/`.
pub open spec fn base64_digit(v: int) -> char {
    if v < 26 {
        (('A' as int) + v) as char
    } else if v < 52 {
        (('a' as int) + v - 26) as char
    } else if v < 62 {
        (('0' as int) + v - 52) as char
    } else if v == 62 {
        '+'
    } else {
        '/'
    }
}

/// Standard padded base64 (RFC 4648): each group of three bytes becomes
/// four digits of six bits; a last group of one or two bytes is padded
/// with `=`.
pub open spec fn base64_standard(b: Seq<u8>) -> Seq<char>
    decreases b.len(),
{
    if b.len() == 0 {
        Seq::<char>::empty()
    } else if b.len() == 1 {
        seq![base64_digit((b[0] as int) / 4), base64_digit(((b[0] as int) % 4) * 16), '=', '=']
    } else if b.len() == 2 {
        seq![base64_digit((b[0] as int) / 4), base64_digit(((b[0] as int) % 4) * 16 + (b[1] as int) / 16), base64_digit(((b[1] as int) % 16) * 4), '=']
    } else {
        seq![
            base64_digit((b[0] as int) / 4),
            base64_digit(((b[0] as int) % 4) * 16 + (b[1] as int) / 16),
            base64_digit(((b[1] as int) % 16) * 4 + (b[2] as int) / 64),
            base64_digit((b[2] as int) % 64),
        ] + base64_standard(b.skip(3))
    }
}

/// `base64::engine::general_purpose::STANDARD.encode` (base64 crate): the
/// `STANDARD` engine is documented as the standard alphabet with padding.
/// Claimed: the result is `base64_standard` of the bytes. The crate panics
/// when the encoded length overflows `usize`; half of `usize::MAX` bytes or
/// fewer never do.
#[verifier::external_body]
fn base64_encode(bytes: &[u8]) -> (r: String)
    requires
        bytes@.len() <= usize::MAX / 2,
    ensures
        r@ == base64_standard(bytes@),
{
    base64::engine::general_purpose::STANDARD.encode(bytes)
}

/// The object name of `path` at `rev`: `<rev>:<path>`.
pub fn object_spec(rev: &str, path: &str) -> (r: String)
    ensures
        r@ == rev@ + ":"@ + path@,
{
    let mut s = String::new();
    push_str(&mut s, rev);
    push_str(&mut s, ":");
    push_str(&mut s, path);
    s
}

/// `git cat-file -s <object>`, then `git cat-file blob <object>`.
pub fn cat_file_args(repo: &str, object: &str, size_only: bool) -> (r: Vec<String>)
    ensures
        strs(r@) == seq!["-C"@, repo@, "cat-file"@, if size_only {
            "-s"@
        } else {
            "blob"@
        }, object@],
{
    let mut a: Vec<String> = Vec::new();
    push_arg(&mut a, "-C");
    push_arg(&mut a, repo);
    push_arg(&mut a, "cat-file");
    if size_only {
        push_arg(&mut a, "-s");
    } else {
        push_arg(&mut a, "blob");
    }
    push_arg(&mut a, object);
    a
}

/// The size `git cat-file -s` printed (0 when it is not a number).
pub fn object_size(stdout: &str) -> (r: u64)
    ensures
        r == match parse_u64(trim(stdout@)) {
            Some(n) => n,
            None => 0,
        },
{
    let t = trim_chars(to_chars(stdout).as_slice());
    match parse_u64_chars(t.as_slice()) {
        Some(n) => n,
        None => 0,
    }
}

/// A file too large to send: its size (at most `u32::MAX`), no content.
pub fn oversized_content(size: u64) -> (r: FileContent)
    ensures
        r.size == (if size > u32::MAX {
            u32::MAX
        } else {
            size as u32
        }),
        r.data is None,
{
    FileContent {
        size: if size > 0xFFFF_FFFF {
            0xFFFF_FFFF
        } else {
            size as u32
        },
        data: None,
    }
}

/// A file's content for the wire: its size and its bytes in base64.
pub fn content_of(bytes: &[u8]) -> (r: FileContent)
    requires
        bytes@.len() <= usize::MAX / 2,
    ensures
        r.size == bytes@.len() as u32,
        opt_str(r.data) == Some(base64_standard(bytes@)),
{
    FileContent { size: bytes.len() as u32, data: Some(base64_encode(bytes)) }
}

/// The content of an object from `git cat-file blob`: its bytes, or the
/// git error naming the object.
pub fn blob_content_outcome(exit_code: Option<i32>, stdout: &[u8], stderr: String, object: &str) -> (r: Result<FileContent, AppError>)
    requires
        stdout@.len() <= usize::MAX / 2,
    ensures
        exit_code == Some(0i32) ==> (r matches Ok(c) && c.size == stdout@.len() as u32 && opt_str(c.data) == Some(
            base64_standard(stdout@),
        )),
        exit_code != Some(0i32) ==> (r matches Err(AppError::GitCommand { command, stderr: e, stdout: o, detail })
            && command@ == "git cat-file blob "@ + object@ && e@ == stderr@ && o@.len() == 0 && detail is None),
{
    if exit_code != Some(0i32) {
        let mut c = String::new();
        push_str(&mut c, "git cat-file blob ");
        push_str(&mut c, object);
        return Err(AppError::git_command(c, stderr, String::new()));
    }
    Ok(content_of(stdout))
}

// =====================
// Index and worktree
// =====================

/// `git -C <repo>` and a subcommand with its flags, then `paths`; nothing to
/// run when there are no paths.
pub open spec fn paths_command(repo: Seq<char>, head: Seq<Seq<char>>, paths: Seq<Seq<char>>) -> Option<Seq<Seq<char>>> {
    if paths.len() == 0 {
        None
    } else {
        Some(seq!["-C"@, repo] + head + paths)
    }
}

fn paths_args(repo: &str, head: &[&str], paths: &[String]) -> (r: Option<Vec<String>>)
    ensures
        match r {
            Some(a) => paths_command(repo@, head@.map_values(|h: &str| h@), strs(paths@)) == Some(strs(a@)),
            None => paths_command(repo@, head@.map_values(|h: &str| h@), strs(paths@)) is None,
        },
{
    if paths.len() == 0 {
        return None;
    }
    let mut a: Vec<String> = Vec::new();
    push_arg(&mut a, "-C");
    push_arg(&mut a, repo);
    let ghost a0 = strs(a@);
    let mut i: usize = 0;
    while i < head.len()
        invariant
            0 <= i <= head@.len(),
            strs(a@) == a0 + head@.map_values(|h: &str| h@).take(i as int),
        decreases head.len() - i,
    {
        push_arg(&mut a, head[i]);
        assert(head@.map_values(|h: &str| h@).take(i + 1) =~= head@.map_values(|h: &str| h@).take(i as int).push(head@[i as int]@));
        i += 1;
    }
    assert(head@.map_values(|h: &str| h@).take(head@.len() as int) =~= head@.map_values(|h: &str| h@));
    push_all(&mut a, paths);
    Some(a)
}

/// `git add` of the paths.
pub fn stage_args(repo: &str, paths: &[String]) -> (r: Option<Vec<String>>)
    ensures
        match r {
            Some(a) => paths_command(repo@, seq!["add"@], strs(paths@)) == Some(strs(a@)),
            None => paths@.len() == 0,
        },
{
    let head = ["add"];
    let r = paths_args(repo, &head, paths);
    assert(head@.map_values(|h: &str| h@) =~= seq!["add"@]);
    r
}

/// `git restore --staged` of the paths (the worktree keeps its content).
pub fn unstage_args(repo: &str, paths: &[String]) -> (r: Option<Vec<String>>)
    ensures
        match r {
            Some(a) => paths_command(repo@, seq!["restore"@, "--staged"@], strs(paths@)) == Some(strs(a@)),
            None => paths@.len() == 0,
        },
{
    let head = ["restore", "--staged"];
    let r = paths_args(repo, &head, paths);
    assert(head@.map_values(|h: &str| h@) =~= seq!["restore"@, "--staged"@]);
    r
}

/// `git restore` of the paths (worktree changes dropped, index kept).
pub fn restore_worktree_args(repo: &str, paths: &[String]) -> (r: Option<Vec<String>>)
    ensures
        match r {
            Some(a) => paths_command(repo@, seq!["restore"@], strs(paths@)) == Some(strs(a@)),
            None => paths@.len() == 0,
        },
{
    let head = ["restore"];
    let r = paths_args(repo, &head, paths);
    assert(head@.map_values(|h: &str| h@) =~= seq!["restore"@]);
    r
}

/// Index and worktree of the paths back to HEAD in one go (which also
/// clears unmerged entries).
pub fn restore_to_head_args(repo: &str, paths: &[String]) -> (r: Option<Vec<String>>)
    ensures
        match r {
            Some(a) => paths_command(
                repo@,
                seq!["restore"@, "--source=HEAD"@, "--staged"@, "--worktree"@],
                strs(paths@),
            ) == Some(strs(a@)),
            None => paths@.len() == 0,
        },
{
    let head = ["restore", "--source=HEAD", "--staged", "--worktree"];
    let r = paths_args(repo, &head, paths);
    assert(head@.map_values(|h: &str| h@) =~= seq!["restore"@, "--source=HEAD"@, "--staged"@, "--worktree"@]);
    r
}

/// The untracked paths a clean deletes (directories included).
pub fn clean_args(repo: &str, paths: &[String]) -> (r: Option<Vec<String>>)
    ensures
        match r {
            Some(a) => paths_command(repo@, seq!["clean"@, "-fd"@, "--"@], strs(paths@)) == Some(strs(a@)),
            None => paths@.len() == 0,
        },
{
    let head = ["clean", "-fd", "--"];
    let r = paths_args(repo, &head, paths);
    assert(head@.map_values(|h: &str| h@) =~= seq!["clean"@, "-fd"@, "--"@]);
    r
}

/// The paths restored from `source` into the worktree only.
pub fn restore_from_args(repo: &str, source: &str, paths: &[String]) -> (r: Vec<String>)
    ensures
        strs(r@) == seq!["-C"@, repo@, "restore"@, "--source"@, source@, "--worktree"@, "--"@] + strs(paths@),
{
    let mut a: Vec<String> = Vec::new();
    push_arg(&mut a, "-C");
    push_arg(&mut a, repo);
    push_arg(&mut a, "restore");
    push_arg(&mut a, "--source");
    push_arg(&mut a, source);
    push_arg(&mut a, "--worktree");
    push_arg(&mut a, "--");
    push_all(&mut a, paths);
    a
}

/// `git apply` of a patch read from stdin, to the index and/or reversed.
pub fn apply_args(repo: &str, cached: bool, reverse: bool) -> (r: Vec<String>)
    ensures
        strs(r@) == seq!["-C"@, repo@, "apply"@] + flag(cached, "--cached"@) + flag(reverse, "--reverse"@),
{
    let mut a: Vec<String> = Vec::new();
    push_arg(&mut a, "-C");
    push_arg(&mut a, repo);
    push_arg(&mut a, "apply");
    push_flag(&mut a, cached, "--cached");
    push_flag(&mut a, reverse, "--reverse");
    a
}

/// Removing a conflicted path: from the index only when the worktree holds
/// a directory there or nothing at all.
pub fn remove_path_args(repo: &str, path: &str, index_only: bool) -> (r: Vec<String>)
    ensures
        strs(r@) == seq!["-C"@, repo@, "rm"@, "-f"@] + flag(index_only, "--cached"@) + seq!["--"@, path@],
{
    let mut a: Vec<String> = Vec::new();
    push_arg(&mut a, "-C");
    push_arg(&mut a, repo);
    push_arg(&mut a, "rm");
    push_arg(&mut a, "-f");
    push_flag(&mut a, index_only, "--cached");
    push_arg(&mut a, "--");
    push_arg(&mut a, path);
    a
}

/// The standard input that removes index entries: each path NUL-ended.
pub open spec fn nul_feed(paths: Seq<Seq<char>>) -> Seq<char>
    decreases paths.len(),
{
    if paths.len() == 0 {
        Seq::<char>::empty()
    } else {
        nul_feed(paths.drop_last()) + paths.last().push('\0')
    }
}

pub fn remove_index_feed(paths: &[String]) -> (r: String)
    ensures
        r@ == nul_feed(strs(paths@)),
{
    let mut out = String::new();
    let mut i: usize = 0;
    while i < paths.len()
        invariant
            0 <= i <= paths@.len(),
            out@ == nul_feed(strs(paths@).take(i as int)),
        decreases paths.len() - i,
    {
        push_str(&mut out, paths[i].as_str());
        push_char(&mut out, '\0');
        assert(strs(paths@).take(i + 1).drop_last() =~= strs(paths@).take(i as int));
        i += 1;
    }
    assert(strs(paths@).take(paths@.len() as int) =~= strs(paths@));
    out
}

// =====================
// Line-ending-only changes
// =====================

/// A status entry whose worktree change may be line endings only.
pub open spec fn eol_candidate(f: FileStatusV) -> bool {
    f.unstaged && !f.untracked && !f.conflict && !f.submodule
}

/// Whether any entry may be a line-ending-only change (else the two
/// numstat runs are skipped).
pub fn has_eol_candidates(status: &[FileStatus]) -> (r: bool)
    ensures
        r == exists|i: int| 0 <= i < status@.len() && eol_candidate(#[trigger] status@[i]@),
{
    let mut i: usize = 0;
    while i < status.len()
        invariant
            0 <= i <= status@.len(),
            forall|j: int| 0 <= j < i ==> !eol_candidate(#[trigger] status@[j]@),
        decreases status.len() - i,
    {
        let f = &status[i];
        if f.unstaged && !f.untracked && !f.conflict && !f.submodule {
            assert(eol_candidate(status@[i as int]@));
            return true;
        }
        i += 1;
    }
    false
}

/// `git diff --numstat -z`, optionally ignoring a CR at line ends.
pub fn numstat_paths_args(repo: &str, ignore_cr: bool) -> (r: Vec<String>)
    ensures
        strs(r@) == seq!["-C"@, repo@, "diff"@, "--numstat"@, "-z"@] + flag(ignore_cr, "--ignore-cr-at-eol"@),
{
    let mut a: Vec<String> = Vec::new();
    push_arg(&mut a, "-C");
    push_arg(&mut a, repo);
    push_arg(&mut a, "diff");
    push_arg(&mut a, "--numstat");
    push_arg(&mut a, "-z");
    push_flag(&mut a, ignore_cr, "--ignore-cr-at-eol");
    a
}

/// A path changes only in its line endings: the plain numstat lists it,
/// the one ignoring CRs does not.
pub open spec fn eol_only_path(normal: Seq<Seq<char>>, ignore_cr: Seq<Seq<char>>, path: Seq<char>) -> bool {
    normal.contains(path) && !ignore_cr.contains(path)
}

fn listed_path(v: &[String], p: &str) -> (r: bool)
    ensures
        r == strs(v@).contains(p@),
{
    let pc = to_chars(p);
    let mut i: usize = 0;
    while i < v.len()
        invariant
            0 <= i <= v@.len(),
            pc@ == p@,
            forall|j: int| 0 <= j < i ==> (#[trigger] v@[j])@ != p@,
        decreases v.len() - i,
    {
        let vc = to_chars(v[i].as_str());
        if eq_chars(vc.as_slice(), pc.as_slice()) {
            assert(strs(v@)[i as int] == p@);
            return true;
        }
        i += 1;
    }
    assert forall|j: int| 0 <= j < strs(v@).len() implies strs(v@)[j] != p@ by {
        assert(strs(v@)[j] == v@[j]@);
    }
    false
}

/// Flags the entries whose change is line endings only; nothing else of
/// the status changes.
pub fn mark_eol_only(status: &mut Vec<FileStatus>, normal: &[String], ignore_cr: &[String])
    ensures
        final(status)@.len() == old(status)@.len(),
        forall|i: int|
            0 <= i < old(status)@.len() ==> (#[trigger] final(status)@[i])@ == (FileStatusV {
                eol_only: old(status)@[i]@.eol_only || eol_only_path(strs(normal@), strs(ignore_cr@), old(status)@[i]@.path),
                ..old(status)@[i]@
            }),
{
    let mut i: usize = 0;
    while i < status.len()
        invariant
            0 <= i <= status@.len(),
            status@.len() == old(status)@.len(),
            forall|j: int|
                0 <= j < i ==> (#[trigger] status@[j])@ == (FileStatusV {
                    eol_only: old(status)@[j]@.eol_only || eol_only_path(strs(normal@), strs(ignore_cr@), old(status)@[j]@.path),
                    ..old(status)@[j]@
                }),
            forall|j: int| i <= j < status@.len() ==> #[trigger] status@[j] == old(status)@[j],
        decreases status.len() - i,
    {
        let mark = listed_path(normal, status[i].path.as_str()) && !listed_path(ignore_cr, status[i].path.as_str());
        if mark {
            status[i].eol_only = true;
        }
        i += 1;
    }
}

// =====================
// Branches, tags, stashes, remotes
// =====================

/// `git branch <name> [<start>]`.
pub fn create_branch_args(repo: &str, name: &str, start_point: Option<&str>) -> (r: Vec<String>)
    ensures
        strs(r@) == seq!["-C"@, repo@, "branch"@, name@] + opt_arg(str_opt(start_point)),
{
    let mut a: Vec<String> = Vec::new();
    push_arg(&mut a, "-C");
    push_arg(&mut a, repo);
    push_arg(&mut a, "branch");
    push_arg(&mut a, name);
    push_opt(&mut a, start_point);
    a
}

/// `git branch -d <name>`, `-D` when forced.
pub fn delete_branch_args(repo: &str, name: &str, force: bool) -> (r: Vec<String>)
    ensures
        strs(r@) == seq!["-C"@, repo@, "branch"@, if force {
            "-D"@
        } else {
            "-d"@
        }, name@],
{
    let mut a: Vec<String> = Vec::new();
    push_arg(&mut a, "-C");
    push_arg(&mut a, repo);
    push_arg(&mut a, "branch");
    if force {
        push_arg(&mut a, "-D");
    } else {
        push_arg(&mut a, "-d");
    }
    push_arg(&mut a, name);
    a
}

/// Sets a branch's upstream, or unsets it.
pub fn set_upstream_args(repo: &str, branch: &str, upstream: Option<&str>) -> (r: Vec<String>)
    ensures
        strs(r@) == match str_opt(upstream) {
            Some(u) => seq!["-C"@, repo@, "branch"@, "--set-upstream-to"@, u, branch@],
            None => seq!["-C"@, repo@, "branch"@, "--unset-upstream"@, branch@],
        },
{
    let mut a: Vec<String> = Vec::new();
    push_arg(&mut a, "-C");
    push_arg(&mut a, repo);
    push_arg(&mut a, "branch");
    match upstream {
        Some(u) => {
            push_arg(&mut a, "--set-upstream-to");
            push_arg(&mut a, u);
        },
        None => push_arg(&mut a, "--unset-upstream"),
    }
    push_arg(&mut a, branch);
    a
}

/// `git tag <name>`, annotated with the message when there is one, at
/// `target`.
pub fn create_tag_args(repo: &str, name: &str, message: Option<&str>, target: &str) -> (r: Vec<String>)
    ensures
        strs(r@) == seq!["-C"@, repo@, "tag"@, name@] + (match str_opt(message) {
            Some(m) => seq!["-a"@, "-m"@, m],
            None => Seq::<Seq<char>>::empty(),
        }) + seq![target@],
{
    let mut a: Vec<String> = Vec::new();
    push_arg(&mut a, "-C");
    push_arg(&mut a, repo);
    push_arg(&mut a, "tag");
    push_arg(&mut a, name);
    let ghost a0 = strs(a@);
    match message {
        Some(m) => {
            push_arg(&mut a, "-a");
            push_arg(&mut a, "-m");
            push_arg(&mut a, m);
        },
        None => {},
    }
    assert(strs(a@) =~= a0 + (match str_opt(message) {
        Some(m) => seq!["-a"@, "-m"@, m],
        None => Seq::<Seq<char>>::empty(),
    }));
    push_arg(&mut a, target);
    a
}

/// `git stash push -u`, with the message when there is one.
pub fn stash_push_args(repo: &str, message: Option<&str>) -> (r: Vec<String>)
    ensures
        strs(r@) == seq!["-C"@, repo@, "stash"@, "push"@, "-u"@] + opt_flag_arg("-m"@, str_opt(message)),
{
    let mut a: Vec<String> = Vec::new();
    push_arg(&mut a, "-C");
    push_arg(&mut a, repo);
    push_arg(&mut a, "stash");
    push_arg(&mut a, "push");
    push_arg(&mut a, "-u");
    push_opt_flag(&mut a, "-m", message);
    a
}

/// The stash entry `stash@{index}`.
pub fn stash_ref(index: usize) -> (r: String)
    ensures
        r@ == "stash@{"@ + dec_string(index as nat) + "}"@,
{
    let mut s = String::new();
    push_str(&mut s, "stash@{");
    push_u64(&mut s, index as u64);
    push_str(&mut s, "}");
    s
}

/// `git stash apply|pop|drop stash@{index}`.
pub fn stash_entry_args(repo: &str, action: &str, index: usize) -> (r: Vec<String>)
    ensures
        strs(r@) == seq!["-C"@, repo@, "stash"@, action@, "stash@{"@ + dec_string(index as nat) + "}"@],
{
    let mut a: Vec<String> = Vec::new();
    push_arg(&mut a, "-C");
    push_arg(&mut a, repo);
    push_arg(&mut a, "stash");
    push_arg(&mut a, action);
    let r = stash_ref(index);
    push_arg(&mut a, r.as_str());
    a
}

/// `git remote set-url`, of the push URL when asked.
pub fn set_remote_url_args(repo: &str, name: &str, url: &str, push: bool) -> (r: Vec<String>)
    ensures
        strs(r@) == seq!["-C"@, repo@, "remote"@, "set-url"@] + flag(push, "--push"@) + seq![name@, url@],
{
    let mut a: Vec<String> = Vec::new();
    push_arg(&mut a, "-C");
    push_arg(&mut a, repo);
    push_arg(&mut a, "remote");
    push_arg(&mut a, "set-url");
    push_flag(&mut a, push, "--push");
    push_arg(&mut a, name);
    push_arg(&mut a, url);
    a
}

/// `git fetch`, of one remote when named.
pub fn fetch_args(repo: &str, remote: Option<&str>) -> (r: Vec<String>)
    ensures
        strs(r@) == seq!["-C"@, repo@, "fetch"@] + opt_arg(str_opt(remote)),
{
    let mut a: Vec<String> = Vec::new();
    push_arg(&mut a, "-C");
    push_arg(&mut a, repo);
    push_arg(&mut a, "fetch");
    push_opt(&mut a, remote);
    a
}

/// `git reflog` in its record format, of one ref when named.
pub fn reflog_args(repo: &str, ref_name: Option<&str>) -> (r: Vec<String>)
    ensures
        strs(r@) == seq!["-C"@, repo@, "reflog"@, "--format=%H%x00%h%x00%gd%x00%gs%x00%cr"@] + opt_arg(str_opt(ref_name)),
{
    let mut a: Vec<String> = Vec::new();
    push_arg(&mut a, "-C");
    push_arg(&mut a, repo);
    push_arg(&mut a, "reflog");
    push_arg(&mut a, "--format=%H%x00%h%x00%gd%x00%gs%x00%cr");
    push_opt(&mut a, ref_name);
    a
}

/// `git reset --<mode> <target>`.
pub fn reset_args(repo: &str, mode: &str, target: &str) -> (r: Vec<String>)
    ensures
        strs(r@) == seq!["-C"@, repo@, "reset"@, "--"@ + mode@, target@],
{
    let mut a: Vec<String> = Vec::new();
    push_arg(&mut a, "-C");
    push_arg(&mut a, repo);
    push_arg(&mut a, "reset");
    let mut m = String::new();
    push_str(&mut m, "--");
    push_str(&mut m, mode);
    push_arg(&mut a, m.as_str());
    push_arg(&mut a, target);
    a
}

/// The commits of a revision range in the graph's record format, paged.
pub fn rev_list_args(repo: &str, range: &str, limit: u32, offset: u32) -> (r: Vec<String>)
    ensures
        strs(r@) == seq!["-C"@, repo@, "log"@, "--topo-order"@, "--no-color"@, "--format="@ + LOG_FORMAT@] + (if offset > 0 {
            seq!["--skip="@ + dec_string(offset as nat)]
        } else {
            Seq::<Seq<char>>::empty()
        }) + (if limit > 0 {
            seq!["-n"@ + dec_string(limit as nat)]
        } else {
            Seq::<Seq<char>>::empty()
        }) + seq![range@],
{
    let mut a: Vec<String> = Vec::new();
    push_arg(&mut a, "-C");
    push_arg(&mut a, repo);
    push_arg(&mut a, "log");
    push_arg(&mut a, "--topo-order");
    push_arg(&mut a, "--no-color");
    let mut f = String::new();
    push_str(&mut f, "--format=");
    push_str(&mut f, LOG_FORMAT);
    push_arg(&mut a, f.as_str());
    let ghost a0 = strs(a@);
    if offset > 0 {
        let mut t = String::new();
        push_str(&mut t, "--skip=");
        push_u64(&mut t, offset as u64);
        push_arg(&mut a, t.as_str());
    }
    assert(strs(a@) =~= a0 + (if offset > 0 {
        seq!["--skip="@ + dec_string(offset as nat)]
    } else {
        Seq::<Seq<char>>::empty()
    }));
    let ghost a1 = strs(a@);
    if limit > 0 {
        let mut t = String::new();
        push_str(&mut t, "-n");
        push_u64(&mut t, limit as u64);
        push_arg(&mut a, t.as_str());
    }
    assert(strs(a@) =~= a1 + (if limit > 0 {
        seq!["-n"@ + dec_string(limit as nat)]
    } else {
        Seq::<Seq<char>>::empty()
    }));
    push_arg(&mut a, range);
    a
}

/// The left/right commit counts of `left...right`.
pub fn range_count_args(repo: &str, left: &str, right: &str) -> (r: Vec<String>)
    ensures
        strs(r@) == seq!["-C"@, repo@, "rev-list"@, "--left-right"@, "--count"@, left@ + "..."@ + right@],
{
    let mut a: Vec<String> = Vec::new();
    push_arg(&mut a, "-C");
    push_arg(&mut a, repo);
    push_arg(&mut a, "rev-list");
    push_arg(&mut a, "--left-right");
    push_arg(&mut a, "--count");
    let mut sp = String::new();
    push_str(&mut sp, left);
    push_str(&mut sp, "...");
    push_str(&mut sp, right);
    push_arg(&mut a, sp.as_str());
    a
}

/// Backup refs live under this namespace; only they may be deleted.
pub const BACKUP_NAMESPACE: &'static str = "refs/ibexgit/backups/";

/// The `update-ref -d` of one backup ref; refused for a name outside the
/// backup namespace.
pub fn backup_delete_args(repo: &str, name: &str) -> (r: Result<Vec<String>, AppError>)
    ensures
        crate::text::starts_with(name@, BACKUP_NAMESPACE@) ==> (r matches Ok(a) && strs(a@) == seq![
            "-C"@,
            repo@,
            "update-ref"@,
            "-d"@,
            name@,
        ]),
        !crate::text::starts_with(name@, BACKUP_NAMESPACE@) ==> (r matches Err(AppError::Parse { message })
            && message@ == "refuse to delete non-backup ref "@ + str_debug(name@)),
{
    let nc = to_chars(name);
    let pc = to_chars(BACKUP_NAMESPACE);
    if !crate::text::has_prefix(nc.as_slice(), pc.as_slice()) {
        let mut m = String::new();
        push_str(&mut m, "refuse to delete non-backup ref ");
        let q = debug_quoted(name);
        push_str(&mut m, q.as_str());
        return Err(AppError::parse(m));
    }
    let mut a: Vec<String> = Vec::new();
    push_arg(&mut a, "-C");
    push_arg(&mut a, repo);
    push_arg(&mut a, "update-ref");
    push_arg(&mut a, "-d");
    push_arg(&mut a, name);
    Ok(a)
}

} // verus!
