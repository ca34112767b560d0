//! Shared data types of the git engine, each with its mathematical view
//! (strings as `Seq<char>`).

use vstd::prelude::*;
use crate::text::{opt_str, strs};

verus! {

/// Views of a sequence of values, element by element.
pub open spec fn seq_view<T: View>(s: Seq<T>) -> Seq<T::V> {
    s.map_values(|t: T| t@)
}

/// Keeps the `Some` results of `f` over `s`, in order.
pub open spec fn filter_map<A, B>(s: Seq<A>, f: spec_fn(A) -> Option<B>) -> Seq<B>
    decreases s.len(),
{
    if s.len() == 0 {
        Seq::<B>::empty()
    } else {
        let prev = filter_map(s.drop_last(), f);
        match f(s.last()) {
            Some(b) => prev.push(b),
            None => prev,
        }
    }
}

/// One step of `filter_map` over a growing prefix.
pub proof fn lemma_filter_map_step<A, B>(s: Seq<A>, f: spec_fn(A) -> Option<B>, i: int)
    requires
        0 <= i < s.len(),
    ensures
        filter_map(s.take(i + 1), f) == match f(s[i]) {
            Some(b) => filter_map(s.take(i), f).push(b),
            None => filter_map(s.take(i), f),
        },
{
    assert(s.take(i + 1).drop_last() =~= s.take(i));
    assert(s.take(i + 1).last() == s[i]);
}

pub proof fn lemma_seq_view_push<T: View>(s: Seq<T>, x: T)
    ensures
        seq_view(s.push(x)) == seq_view(s).push(x@),
{
    assert(seq_view(s.push(x)) =~= seq_view(s).push(x@));
}

// =====================
// Index / status
// =====================

/// One path in the git index (`git ls-files -s`).
#[derive(Debug, Clone, PartialEq, Eq)]
pub struct IndexEntry {
    pub path: String,
    /// e.g. "100644", "100755", "160000", "120000"
    pub mode: String,
    /// 40-hex object id.
    pub sha: String,
    /// 0 = merged, 1..3 = unmerged stages (base/ours/theirs).
    pub stage: u32,
}

pub struct IndexEntryV {
    pub path: Seq<char>,
    pub mode: Seq<char>,
    pub sha: Seq<char>,
    pub stage: u32,
}

impl View for IndexEntry {
    type V = IndexEntryV;

    open spec fn view(&self) -> IndexEntryV {
        IndexEntryV { path: self.path@, mode: self.mode@, sha: self.sha@, stage: self.stage }
    }
}

/// One entry of `git status`.
#[derive(Debug, Clone, PartialEq, Eq)]
pub struct FileStatus {
    pub path: String,
    pub status: String,
    pub orig_path: Option<String>,
    pub submodule: bool,
    /// Submodule with modified or untracked content.
    pub submodule_dirty: bool,
    /// Submodule whose checked-in commit differs.
    pub submodule_commit_changed: bool,
    /// The worktree change consists only of line-ending differences.
    pub eol_only: bool,
    pub staged: bool,
    pub unstaged: bool,
    pub untracked: bool,
    /// skip-worktree.
    pub skipped: bool,
    pub conflict: bool,
}

pub struct FileStatusV {
    pub path: Seq<char>,
    pub status: Seq<char>,
    pub orig_path: Option<Seq<char>>,
    pub submodule: bool,
    pub submodule_dirty: bool,
    pub submodule_commit_changed: bool,
    pub eol_only: bool,
    pub staged: bool,
    pub unstaged: bool,
    pub untracked: bool,
    pub skipped: bool,
    pub conflict: bool,
}

impl View for FileStatus {
    type V = FileStatusV;

    open spec fn view(&self) -> FileStatusV {
        FileStatusV {
            path: self.path@,
            status: self.status@,
            orig_path: opt_str(self.orig_path),
            submodule: self.submodule,
            submodule_dirty: self.submodule_dirty,
            submodule_commit_changed: self.submodule_commit_changed,
            eol_only: self.eol_only,
            staged: self.staged,
            unstaged: self.unstaged,
            untracked: self.untracked,
            skipped: self.skipped,
            conflict: self.conflict,
        }
    }
}

// =====================
// Commits
// =====================

#[derive(Debug, Clone, PartialEq, Eq)]
pub struct CommitInfo {
    pub hash: String,
    pub short_hash: String,
    pub author: String,
    pub email: String,
    pub date: String,
    pub message: String,
    pub refs: Vec<String>,
    pub parents: Vec<String>,
}

pub struct CommitInfoV {
    pub hash: Seq<char>,
    pub short_hash: Seq<char>,
    pub author: Seq<char>,
    pub email: Seq<char>,
    pub date: Seq<char>,
    pub message: Seq<char>,
    pub refs: Seq<Seq<char>>,
    pub parents: Seq<Seq<char>>,
}

impl View for CommitInfo {
    type V = CommitInfoV;

    open spec fn view(&self) -> CommitInfoV {
        CommitInfoV {
            hash: self.hash@,
            short_hash: self.short_hash@,
            author: self.author@,
            email: self.email@,
            date: self.date@,
            message: self.message@,
            refs: strs(self.refs@),
            parents: strs(self.parents@),
        }
    }
}

/// Search/filter for the history graph query.
#[derive(Debug, Clone, Default, PartialEq, Eq)]
pub struct GraphFilter {
    /// Message search; a pure-hex prefix of at least 4 chars is a hash jump.
    pub text: Option<String>,
    /// Author substring.
    pub author: Option<String>,
    /// `--since`.
    pub since: Option<String>,
    /// `--until`.
    pub until: Option<String>,
    /// History touching any of these paths.
    pub paths: Vec<String>,
}

impl GraphFilter {
    /// `true` when nothing is set (the unfiltered graph).
    pub fn is_empty(&self) -> (r: bool)
        ensures
            r == (self.text is None && self.author is None && self.since is None && self.until is None
                && self.paths@.len() == 0),
    {
        self.text.is_none() && self.author.is_none() && self.since.is_none()
            && self.until.is_none() && self.paths.len() == 0
    }
}

/// One changed file of a commit.
#[derive(Debug, Clone, PartialEq, Eq)]
pub struct CommitFileStat {
    /// git name-status letter.
    pub status: String,
    /// Rename/copy similarity score, if any.
    pub score: Option<u32>,
    /// Destination path.
    pub path: String,
    /// Source path for renames/copies.
    pub orig_path: Option<String>,
}

pub struct CommitFileStatV {
    pub status: Seq<char>,
    pub score: Option<u32>,
    pub path: Seq<char>,
    pub orig_path: Option<Seq<char>>,
}

impl View for CommitFileStat {
    type V = CommitFileStatV;

    open spec fn view(&self) -> CommitFileStatV {
        CommitFileStatV {
            status: self.status@,
            score: self.score,
            path: self.path@,
            orig_path: opt_str(self.orig_path),
        }
    }
}

/// Commit metadata + changed files.
#[derive(Debug, Clone)]
pub struct CommitDetail {
    pub commit: CommitInfo,
    /// First parent, `None` for a root commit.
    pub parent: Option<String>,
    pub files: Vec<CommitFileStat>,
}

// =====================
// Diff model
// =====================

#[derive(Debug, Clone, Copy, PartialEq, Eq, Structural)]
pub enum DiffLineKind {
    Context,
    Add,
    Remove,
    Header,
}

#[derive(Debug, Clone, PartialEq, Eq)]
pub struct DiffLine {
    pub content: String,
    pub left_no: Option<u32>,
    pub right_no: Option<u32>,
    pub kind: DiffLineKind,
    /// Followed by `\ No newline at end of file`.
    pub no_eol: bool,
}

pub struct DiffLineV {
    pub content: Seq<char>,
    pub left_no: Option<u32>,
    pub right_no: Option<u32>,
    pub kind: DiffLineKind,
    pub no_eol: bool,
}

impl View for DiffLine {
    type V = DiffLineV;

    open spec fn view(&self) -> DiffLineV {
        DiffLineV {
            content: self.content@,
            left_no: self.left_no,
            right_no: self.right_no,
            kind: self.kind,
            no_eol: self.no_eol,
        }
    }
}

#[derive(Debug, Clone, PartialEq, Eq)]
pub struct DiffHunk {
    pub old_start: u32,
    pub old_count: u32,
    pub new_start: u32,
    pub new_count: u32,
    pub header: String,
    pub lines: Vec<DiffLine>,
}

pub struct DiffHunkV {
    pub old_start: u32,
    pub old_count: u32,
    pub new_start: u32,
    pub new_count: u32,
    pub header: Seq<char>,
    pub lines: Seq<DiffLineV>,
}

impl View for DiffHunk {
    type V = DiffHunkV;

    open spec fn view(&self) -> DiffHunkV {
        DiffHunkV {
            old_start: self.old_start,
            old_count: self.old_count,
            new_start: self.new_start,
            new_count: self.new_count,
            header: self.header@,
            lines: seq_view(self.lines@),
        }
    }
}

#[derive(Debug, Clone, PartialEq, Eq)]
pub struct DiffFile {
    pub old_path: Option<String>,
    pub new_path: Option<String>,
    pub similarity: Option<u32>,
    pub binary: bool,
    pub hunks: Vec<DiffHunk>,
}

pub struct DiffFileV {
    pub old_path: Option<Seq<char>>,
    pub new_path: Option<Seq<char>>,
    pub similarity: Option<u32>,
    pub binary: bool,
    pub hunks: Seq<DiffHunkV>,
}

impl View for DiffFile {
    type V = DiffFileV;

    open spec fn view(&self) -> DiffFileV {
        DiffFileV {
            old_path: opt_str(self.old_path),
            new_path: opt_str(self.new_path),
            similarity: self.similarity,
            binary: self.binary,
            hunks: seq_view(self.hunks@),
        }
    }
}

#[derive(Debug, Clone, Copy, PartialEq, Eq, Structural)]
pub enum DiffSource {
    Worktree,
    Staged,
    Commit,
    Stash,
}

#[derive(Debug, Clone, PartialEq, Eq)]
pub struct DiffModel {
    /// Identity of the cached model (0 = not cached).
    pub id: u32,
    pub source: DiffSource,
    pub old_revision: Option<String>,
    pub new_revision: Option<String>,
    pub files: Vec<DiffFile>,
}

pub struct DiffModelV {
    pub id: u32,
    pub source: DiffSource,
    pub old_revision: Option<Seq<char>>,
    pub new_revision: Option<Seq<char>>,
    pub files: Seq<DiffFileV>,
}

impl View for DiffModel {
    type V = DiffModelV;

    open spec fn view(&self) -> DiffModelV {
        DiffModelV {
            id: self.id,
            source: self.source,
            old_revision: opt_str(self.old_revision),
            new_revision: opt_str(self.new_revision),
            files: seq_view(self.files@),
        }
    }
}

/// Options for a diff query: context lines and whitespace mode.
#[derive(Debug, Clone, Copy, PartialEq, Eq)]
pub struct DiffOptions {
    /// `--unified=N` context lines.
    pub context_lines: u32,
    /// `--ignore-all-space`.
    pub ignore_whitespace: bool,
}

/// One selected diff line for line-level operations.
#[derive(Debug, Clone, Copy, PartialEq, Eq, Structural)]
pub struct LineSelection {
    /// Index into `DiffFile.hunks`.
    pub hunk: u32,
    /// Index into `DiffHunk.lines`.
    pub line: u32,
}

/// Content of one file revision, base64-encoded for the wire.
#[derive(Debug, Clone)]
pub struct FileContent {
    pub size: u32,
    pub data: Option<String>,
}

// =====================
// Refs
// =====================

#[derive(Debug, Clone, PartialEq, Eq)]
pub struct BranchInfo {
    pub name: String,
    pub full_name: String,
    pub upstream: Option<String>,
    pub ahead: u32,
    pub behind: u32,
    pub current: bool,
    pub detached: bool,
}

pub struct BranchInfoV {
    pub name: Seq<char>,
    pub full_name: Seq<char>,
    pub upstream: Option<Seq<char>>,
    pub ahead: u32,
    pub behind: u32,
    pub current: bool,
    pub detached: bool,
}

impl View for BranchInfo {
    type V = BranchInfoV;

    open spec fn view(&self) -> BranchInfoV {
        BranchInfoV {
            name: self.name@,
            full_name: self.full_name@,
            upstream: opt_str(self.upstream),
            ahead: self.ahead,
            behind: self.behind,
            current: self.current,
            detached: self.detached,
        }
    }
}

#[derive(Debug, Clone, PartialEq, Eq)]
pub struct TagInfo {
    pub name: String,
    pub full_name: String,
    pub target: String,
    pub tagger: Option<String>,
    pub date: Option<String>,
    pub message: Option<String>,
}

pub struct TagInfoV {
    pub name: Seq<char>,
    pub full_name: Seq<char>,
    pub target: Seq<char>,
    pub tagger: Option<Seq<char>>,
    pub date: Option<Seq<char>>,
    pub message: Option<Seq<char>>,
}

impl View for TagInfo {
    type V = TagInfoV;

    open spec fn view(&self) -> TagInfoV {
        TagInfoV {
            name: self.name@,
            full_name: self.full_name@,
            target: self.target@,
            tagger: opt_str(self.tagger),
            date: opt_str(self.date),
            message: opt_str(self.message),
        }
    }
}

#[derive(Debug, Clone, PartialEq, Eq)]
pub struct RemoteInfo {
    pub name: String,
    pub url: String,
    pub fetch_url: String,
    pub push_url: String,
}

pub struct RemoteInfoV {
    pub name: Seq<char>,
    pub url: Seq<char>,
    pub fetch_url: Seq<char>,
    pub push_url: Seq<char>,
}

impl View for RemoteInfo {
    type V = RemoteInfoV;

    open spec fn view(&self) -> RemoteInfoV {
        RemoteInfoV {
            name: self.name@,
            url: self.url@,
            fetch_url: self.fetch_url@,
            push_url: self.push_url@,
        }
    }
}

/// One backup ref under `refs/ibexgit/backups/`.
#[derive(Debug, Clone, PartialEq, Eq)]
pub struct BackupRef {
    /// Short name, e.g. `reset-1699999999999`.
    pub name: String,
    /// Full refname.
    pub full_name: String,
    pub hash: String,
    pub short_hash: String,
    pub date: String,
    pub subject: String,
}

pub struct BackupRefV {
    pub name: Seq<char>,
    pub full_name: Seq<char>,
    pub hash: Seq<char>,
    pub short_hash: Seq<char>,
    pub date: Seq<char>,
    pub subject: Seq<char>,
}

impl View for BackupRef {
    type V = BackupRefV;

    open spec fn view(&self) -> BackupRefV {
        BackupRefV {
            name: self.name@,
            full_name: self.full_name@,
            hash: self.hash@,
            short_hash: self.short_hash@,
            date: self.date@,
            subject: self.subject@,
        }
    }
}

/// What the frontend needs to undo one reset.
#[derive(Debug, Clone)]
pub struct ResetUndo {
    pub backup_ref: String,
    pub snapshot_id: Option<String>,
}

#[derive(Debug, Clone, PartialEq, Eq)]
pub struct StashEntry {
    /// Position in the stash stack (`stash@{N}`).
    pub index: u32,
    pub message: String,
    pub branch: Option<String>,
    pub date: String,
}

pub struct StashEntryV {
    pub index: u32,
    pub message: Seq<char>,
    pub branch: Option<Seq<char>>,
    pub date: Seq<char>,
}

impl View for StashEntry {
    type V = StashEntryV;

    open spec fn view(&self) -> StashEntryV {
        StashEntryV {
            index: self.index,
            message: self.message@,
            branch: opt_str(self.branch),
            date: self.date@,
        }
    }
}

#[derive(Debug, Clone, PartialEq, Eq)]
pub struct ReflogEntry {
    pub hash: String,
    pub short_hash: String,
    pub ref_name: String,
    pub message: String,
    pub date: String,
    pub author: String,
}

pub struct ReflogEntryV {
    pub hash: Seq<char>,
    pub short_hash: Seq<char>,
    pub ref_name: Seq<char>,
    pub message: Seq<char>,
    pub date: Seq<char>,
    pub author: Seq<char>,
}

impl View for ReflogEntry {
    type V = ReflogEntryV;

    open spec fn view(&self) -> ReflogEntryV {
        ReflogEntryV {
            hash: self.hash@,
            short_hash: self.short_hash@,
            ref_name: self.ref_name@,
            message: self.message@,
            date: self.date@,
            author: self.author@,
        }
    }
}

#[derive(Debug, Clone)]
pub struct RebaseState {
    pub state: String,
    pub current_step: u32,
    pub total_steps: u32,
    pub current_commit: Option<String>,
}

#[derive(Debug, Clone)]
pub struct MergeResult {
    pub success: bool,
    pub message: String,
}

#[derive(Debug, Clone)]
pub struct PullResult {
    pub success: bool,
    pub message: String,
    pub fast_forward: bool,
}

#[derive(Debug, Clone)]
pub struct CommitResult {
    pub hash: String,
    pub short_hash: String,
    pub message: String,
}

// =====================
// File history / blame
// =====================

/// One commit of a single file's history (`git log --follow`).
#[derive(Debug, Clone, PartialEq, Eq)]
pub struct FileCommit {
    pub hash: String,
    pub short_hash: String,
    pub author: String,
    pub email: String,
    pub date: String,
    pub message: String,
    pub parents: Vec<String>,
    /// The path this file had at this commit.
    pub path: String,
    /// Old path when this commit renamed/copied the file.
    pub orig_path: Option<String>,
    /// name-status letter of this file in the commit.
    pub status: String,
    /// Rename/copy similarity score.
    pub score: Option<u32>,
}

pub struct FileCommitV {
    pub hash: Seq<char>,
    pub short_hash: Seq<char>,
    pub author: Seq<char>,
    pub email: Seq<char>,
    pub date: Seq<char>,
    pub message: Seq<char>,
    pub parents: Seq<Seq<char>>,
    pub path: Seq<char>,
    pub orig_path: Option<Seq<char>>,
    pub status: Seq<char>,
    pub score: Option<u32>,
}

impl View for FileCommit {
    type V = FileCommitV;

    open spec fn view(&self) -> FileCommitV {
        FileCommitV {
            hash: self.hash@,
            short_hash: self.short_hash@,
            author: self.author@,
            email: self.email@,
            date: self.date@,
            message: self.message@,
            parents: strs(self.parents@),
            path: self.path@,
            orig_path: opt_str(self.orig_path),
            status: self.status@,
            score: self.score,
        }
    }
}

/// One distinct commit in a blame result.
#[derive(Debug, Clone, PartialEq, Eq)]
pub struct BlameCommit {
    pub hash: String,
    pub short_hash: String,
    pub author: String,
    pub email: String,
    /// Author date, ISO 8601 with the author-tz offset.
    pub date: String,
    pub summary: String,
    /// The path this file had at this commit.
    pub path: String,
    /// History ends here (root commit / shallow boundary).
    pub boundary: bool,
    /// Working-tree change that is not committed yet (all-zero sha).
    pub uncommitted: bool,
}

pub struct BlameCommitV {
    pub hash: Seq<char>,
    pub short_hash: Seq<char>,
    pub author: Seq<char>,
    pub email: Seq<char>,
    pub date: Seq<char>,
    pub summary: Seq<char>,
    pub path: Seq<char>,
    pub boundary: bool,
    pub uncommitted: bool,
}

impl View for BlameCommit {
    type V = BlameCommitV;

    open spec fn view(&self) -> BlameCommitV {
        BlameCommitV {
            hash: self.hash@,
            short_hash: self.short_hash@,
            author: self.author@,
            email: self.email@,
            date: self.date@,
            summary: self.summary@,
            path: self.path@,
            boundary: self.boundary,
            uncommitted: self.uncommitted,
        }
    }
}

/// One blamed line; `commit` is an index into `BlameResult::commits`.
#[derive(Debug, Clone, PartialEq, Eq)]
pub struct BlameLine {
    pub commit: u32,
    /// Line number in the commit's version of the file (1-based).
    pub orig_no: u32,
    /// Line number in the current worktree file (1-based).
    pub final_no: u32,
    pub content: String,
}

pub struct BlameLineV {
    pub commit: u32,
    pub orig_no: u32,
    pub final_no: u32,
    pub content: Seq<char>,
}

impl View for BlameLine {
    type V = BlameLineV;

    open spec fn view(&self) -> BlameLineV {
        BlameLineV {
            commit: self.commit,
            orig_no: self.orig_no,
            final_no: self.final_no,
            content: self.content@,
        }
    }
}

#[derive(Debug, Clone, PartialEq, Eq, Default)]
pub struct BlameResult {
    pub commits: Vec<BlameCommit>,
    pub lines: Vec<BlameLine>,
}

pub struct BlameResultV {
    pub commits: Seq<BlameCommitV>,
    pub lines: Seq<BlameLineV>,
}

impl View for BlameResult {
    type V = BlameResultV;

    open spec fn view(&self) -> BlameResultV {
        BlameResultV { commits: seq_view(self.commits@), lines: seq_view(self.lines@) }
    }
}

// =====================
// Operations / config
// =====================

/// In-progress repository operation.
#[derive(Debug, Clone, Copy, PartialEq, Eq, Structural)]
pub enum OperationKind {
    Merge,
    Rebase,
    CherryPick,
    Revert,
    /// `git am` residue.
    Apply,
    Bisect,
}

impl OperationKind {
    /// `continue`/`abort` subcommand family; `None` = no such verb.
    pub fn verb(self) -> (r: Option<&'static str>)
        ensures
            r matches Some(v) && v@ == match self {
                OperationKind::Merge => "merge"@,
                OperationKind::Rebase => "rebase"@,
                OperationKind::CherryPick => "cherry-pick"@,
                OperationKind::Revert => "revert"@,
                OperationKind::Apply => "am"@,
                OperationKind::Bisect => "bisect"@,
            },
    {
        match self {
            OperationKind::Merge => Some("merge"),
            OperationKind::Rebase => Some("rebase"),
            OperationKind::CherryPick => Some("cherry-pick"),
            OperationKind::Revert => Some("revert"),
            OperationKind::Apply => Some("am"),
            OperationKind::Bisect => Some("bisect"),
        }
    }
}

/// What the frontend needs for the operation guidance banner.
#[derive(Debug, Clone, PartialEq, Eq)]
pub struct OperationState {
    pub kind: OperationKind,
    /// Head being merged/rebased onto.
    pub onto: Option<String>,
    /// 1-based step within the sequence.
    pub step: Option<u32>,
    pub total: Option<u32>,
    /// `MERGE_MSG` for the commit prefill.
    pub message: Option<String>,
}

pub struct OperationStateV {
    pub kind: OperationKind,
    pub onto: Option<Seq<char>>,
    pub step: Option<u32>,
    pub total: Option<u32>,
    pub message: Option<Seq<char>>,
}

impl View for OperationState {
    type V = OperationStateV;

    open spec fn view(&self) -> OperationStateV {
        OperationStateV {
            kind: self.kind,
            onto: opt_str(self.onto),
            step: self.step,
            total: self.total,
            message: opt_str(self.message),
        }
    }
}

/// One `key = value` pair from `git config --list -z`.
#[derive(Debug, Clone, PartialEq, Eq)]
pub struct ConfigEntry {
    pub key: String,
    pub value: String,
}

/// The global gitignore file, read for the read-only viewer.
#[derive(Debug, Clone, PartialEq, Eq)]
pub struct GitignoreFile {
    pub path: String,
    pub content: String,
}

/// The commit message template (`commit.template`).
#[derive(Debug, Clone, PartialEq, Eq)]
pub struct CommitTemplate {
    pub path: String,
    pub content: String,
}

/// One common config key resolved for a repository.
#[derive(Debug, Clone, PartialEq, Eq)]
pub struct RepoConfigValue {
    pub key: String,
    /// Value in the repo-local config; `None` = no local override.
    pub local: Option<String>,
    /// Effective value after merging all scopes.
    pub effective: Option<String>,
}

// =====================
// numstat
// =====================

/// One file's line-count stats within a commit.
#[derive(Debug, Clone, PartialEq, Eq)]
pub struct NumstatFile {
    pub path: String,
    /// Pre-rename path.
    pub orig_path: Option<String>,
    pub additions: u32,
    pub deletions: u32,
    pub binary: bool,
}

pub struct NumstatFileV {
    pub path: Seq<char>,
    pub orig_path: Option<Seq<char>>,
    pub additions: u32,
    pub deletions: u32,
    pub binary: bool,
}

impl View for NumstatFile {
    type V = NumstatFileV;

    open spec fn view(&self) -> NumstatFileV {
        NumstatFileV {
            path: self.path@,
            orig_path: opt_str(self.orig_path),
            additions: self.additions,
            deletions: self.deletions,
            binary: self.binary,
        }
    }
}

/// One commit with per-file stats.
#[derive(Debug, Clone, PartialEq, Eq)]
pub struct NumstatCommit {
    pub hash: String,
    pub short_hash: String,
    pub author: String,
    pub email: String,
    /// Author date, ISO 8601.
    pub date: String,
    pub subject: String,
    /// Source repo label (empty from the parser).
    pub repo: String,
    pub files: Vec<NumstatFile>,
}

pub struct NumstatCommitV {
    pub hash: Seq<char>,
    pub short_hash: Seq<char>,
    pub author: Seq<char>,
    pub email: Seq<char>,
    pub date: Seq<char>,
    pub subject: Seq<char>,
    pub repo: Seq<char>,
    pub files: Seq<NumstatFileV>,
}

impl View for NumstatCommit {
    type V = NumstatCommitV;

    open spec fn view(&self) -> NumstatCommitV {
        NumstatCommitV {
            hash: self.hash@,
            short_hash: self.short_hash@,
            author: self.author@,
            email: self.email@,
            date: self.date@,
            subject: self.subject@,
            repo: self.repo@,
            files: seq_view(self.files@),
        }
    }
}

/// Clone parameters.
#[derive(Debug, Clone, PartialEq, Eq)]
pub struct CloneOptions {
    pub url: String,
    /// Destination directory (absolute path).
    pub dest: String,
    /// `--depth N`.
    pub depth: Option<u32>,
    /// `--single-branch`.
    pub single_branch: bool,
    /// `--recurse-submodules`.
    pub recurse_submodules: bool,
}

} // verus!
