//! The decisions of the repository actions around their git calls: what a
//! discard restores and how, what a reset, clean or restore first keeps in
//! a recovery snapshot, which requested paths a worktree diff builds
//! itself, where a squash resets to, and the common config keys' values.

use vstd::prelude::*;
use crate::text::{to_chars, eq_chars, trim_end_char, trim_end_char_chars, string_of, push_str};
use crate::model::{FileStatus, FileStatusV, CommitInfo, CommitInfoV, DiffSource, DiffOptions, RepoConfigValue};
use crate::patch::{LineOp, debug_quoted, str_debug};
use crate::parse::{config_last_wins, config_get, last_value, pair_views};
use crate::error::AppError;

verus! {

// =====================
// Discard
// =====================

/// How far a discard reaches for tracked paths.
#[derive(Debug, Clone, Copy, PartialEq, Eq, Structural)]
pub enum DiscardScope {
    /// Worktree changes only (the staged state is kept).
    Worktree,
    /// Worktree and index, back to HEAD.
    All,
}

/// A path whose current content a destructive action replaces.
#[derive(Debug, Clone, PartialEq, Eq)]
pub struct DiscardTarget {
    pub path: String,
    pub untracked: bool,
    pub conflict: bool,
}

pub struct DiscardTargetV {
    pub path: Seq<char>,
    pub untracked: bool,
    pub conflict: bool,
}

impl View for DiscardTarget {
    type V = DiscardTargetV;

    open spec fn view(&self) -> DiscardTargetV {
        DiscardTargetV { path: self.path@, untracked: self.untracked, conflict: self.conflict }
    }
}

pub open spec fn target_views(v: Seq<DiscardTarget>) -> Seq<DiscardTargetV> {
    v.map_values(|t: DiscardTarget| t@)
}

pub open spec fn status_views(v: Seq<FileStatus>) -> Seq<FileStatusV> {
    v.map_values(|f: FileStatus| f@)
}

/// `"all"` discards back to HEAD; anything else only the worktree.
pub fn discard_scope(scope: &str) -> (r: DiscardScope)
    ensures
        r == (if scope@ == "all"@ {
            DiscardScope::All
        } else {
            DiscardScope::Worktree
        }),
{
    let s = to_chars(scope);
    let all = to_chars("all");
    if eq_chars(s.as_slice(), all.as_slice()) {
        DiscardScope::All
    } else {
        DiscardScope::Worktree
    }
}

/// The first status entry of `path`.
pub open spec fn status_of(status: Seq<FileStatusV>, path: Seq<char>) -> Option<FileStatusV>
    decreases status.len(),
{
    if status.len() == 0 {
        None
    } else if status[0].path == path {
        Some(status[0])
    } else {
        status_of(status.skip(1), path)
    }
}

pub open spec fn has_target(ts: Seq<DiscardTargetV>, path: Seq<char>) -> bool {
    exists|j: int| 0 <= j < ts.len() && #[trigger] ts[j].path == path
}

/// The targets of a discard of `paths`: each path the status lists (with
/// its untracked and conflict flags), and for a staged rename also its
/// original path, once.
pub open spec fn discard_targets_of(paths: Seq<Seq<char>>, status: Seq<FileStatusV>) -> Seq<DiscardTargetV>
    decreases paths.len(),
{
    if paths.len() == 0 {
        Seq::<DiscardTargetV>::empty()
    } else {
        let acc = discard_targets_of(paths.drop_last(), status);
        let p = paths.last();
        match status_of(status, p) {
            None => acc,
            Some(f) => {
                let acc2 = acc.push(DiscardTargetV { path: p, untracked: f.untracked, conflict: f.conflict });
                match f.orig_path {
                    Some(o) => if f.staged && !f.untracked && o != f.path && !has_target(acc2, o) {
                        acc2.push(DiscardTargetV { path: o, untracked: false, conflict: false })
                    } else {
                        acc2
                    },
                    None => acc2,
                }
            },
        }
    }
}

fn find_status(status: &[FileStatus], path: &str) -> (r: Option<usize>)
    ensures
        match r {
            Some(i) => i < status@.len() && status_of(status_views(status@), path@) == Some(status@[i as int]@),
            None => status_of(status_views(status@), path@) is None,
        },
{
    let ghost sv = status_views(status@);
    let pc = to_chars(path);
    let mut i: usize = 0;
    assert(sv.skip(0) =~= sv);
    while i < status.len()
        invariant
            0 <= i <= status@.len(),
            sv == status_views(status@),
            pc@ == path@,
            status_of(sv, path@) == status_of(sv.skip(i as int), path@),
        decreases status.len() - i,
    {
        proof {
            assert(sv.skip(i as int)[0] == status@[i as int]@);
            assert(sv.skip(i as int).skip(1) =~= sv.skip(i + 1));
        }
        let fc = to_chars(status[i].path.as_str());
        if eq_chars(fc.as_slice(), pc.as_slice()) {
            return Some(i);
        }
        i += 1;
    }
    None
}

fn target_exists(ts: &Vec<DiscardTarget>, path: &str) -> (r: bool)
    ensures
        r == has_target(target_views(ts@), path@),
{
    let pc = to_chars(path);
    let mut i: usize = 0;
    while i < ts.len()
        invariant
            0 <= i <= ts@.len(),
            pc@ == path@,
            forall|j: int| 0 <= j < i ==> (#[trigger] ts@[j]).path@ != path@,
        decreases ts.len() - i,
    {
        let tc = to_chars(ts[i].path.as_str());
        if eq_chars(tc.as_slice(), pc.as_slice()) {
            assert(target_views(ts@)[i as int].path == path@);
            return true;
        }
        i += 1;
    }
    assert forall|j: int| 0 <= j < target_views(ts@).len() implies #[trigger] target_views(ts@)[j].path != path@ by {
        assert(target_views(ts@)[j] == ts@[j]@);
    }
    false
}

/// The targets of a discard of `paths` against a fresh status.
pub fn discard_targets(paths: &[String], status: &[FileStatus]) -> (r: Vec<DiscardTarget>)
    ensures
        target_views(r@) == discard_targets_of(paths@.map_values(|p: String| p@), status_views(status@)),
{
    let ghost pv = paths@.map_values(|p: String| p@);
    let ghost sv = status_views(status@);
    let mut out: Vec<DiscardTarget> = Vec::new();
    let mut i: usize = 0;
    while i < paths.len()
        invariant
            0 <= i <= paths@.len(),
            pv == paths@.map_values(|p: String| p@),
            sv == status_views(status@),
            target_views(out@) == discard_targets_of(pv.take(i as int), sv),
        decreases paths.len() - i,
    {
        let p = &paths[i];
        proof {
            assert(pv.take(i + 1).drop_last() =~= pv.take(i as int));
            assert(pv.take(i + 1).last() == p@);
        }
        match find_status(status, p.as_str()) {
            None => {},
            Some(k) => {
                let f = &status[k];
                let ghost before = out@;
                out.push(DiscardTarget { path: p.clone(), untracked: f.untracked, conflict: f.conflict });
                let ghost mid = out@;
                assert(target_views(mid) =~= target_views(before).push(
                    DiscardTargetV { path: p@, untracked: f.untracked, conflict: f.conflict },
                ));
                if f.staged && !f.untracked {
                    match &f.orig_path {
                        Some(orig) => {
                            let oc = to_chars(orig.as_str());
                            let fc = to_chars(f.path.as_str());
                            if !eq_chars(oc.as_slice(), fc.as_slice()) && !target_exists(&out, orig.as_str()) {
                                out.push(DiscardTarget { path: orig.clone(), untracked: false, conflict: false });
                                assert(target_views(out@) =~= target_views(mid).push(
                                    DiscardTargetV { path: orig@, untracked: false, conflict: false },
                                ));
                            }
                        },
                        None => {},
                    }
                }
            },
        }
        i += 1;
    }
    assert(pv.take(paths@.len() as int) =~= pv);
    out
}

/// The paths a discard hands to each git call.
pub struct DiscardPlan {
    /// `git restore`: tracked paths, worktree only.
    pub worktree: Vec<String>,
    /// Restore from HEAD, index and worktree: everything with scope `All`,
    /// and conflicted paths whatever the scope.
    pub head: Vec<String>,
    /// Deleted from disk.
    pub untracked: Vec<String>,
}

pub open spec fn to_head(scope: DiscardScope) -> spec_fn(DiscardTargetV) -> bool {
    |t: DiscardTargetV| !t.untracked && (t.conflict || scope == DiscardScope::All)
}

pub open spec fn to_worktree(scope: DiscardScope) -> spec_fn(DiscardTargetV) -> bool {
    |t: DiscardTargetV| !t.untracked && !(t.conflict || scope == DiscardScope::All)
}

pub open spec fn is_untracked_target() -> spec_fn(DiscardTargetV) -> bool {
    |t: DiscardTargetV| t.untracked
}

pub open spec fn paths_of(ts: Seq<DiscardTargetV>) -> Seq<Seq<char>> {
    ts.map_values(|t: DiscardTargetV| t.path)
}

pub open spec fn strings(v: Seq<String>) -> Seq<Seq<char>> {
    v.map_values(|s: String| s@)
}

/// Splits the targets between the three git calls, each in target order.
pub fn discard_plan(targets: &[DiscardTarget], scope: DiscardScope) -> (r: DiscardPlan)
    ensures
        strings(r.worktree@) == paths_of(target_views(targets@).filter(to_worktree(scope))),
        strings(r.head@) == paths_of(target_views(targets@).filter(to_head(scope))),
        strings(r.untracked@) == paths_of(target_views(targets@).filter(is_untracked_target())),
{
    let ghost tv = target_views(targets@);
    let mut worktree: Vec<String> = Vec::new();
    let mut head: Vec<String> = Vec::new();
    let mut untracked: Vec<String> = Vec::new();
    let mut i: usize = 0;
    while i < targets.len()
        invariant
            0 <= i <= targets@.len(),
            tv == target_views(targets@),
            strings(worktree@) == paths_of(tv.take(i as int).filter(to_worktree(scope))),
            strings(head@) == paths_of(tv.take(i as int).filter(to_head(scope))),
            strings(untracked@) == paths_of(tv.take(i as int).filter(is_untracked_target())),
        decreases targets.len() - i,
    {
        let t = &targets[i];
        let ghost (w0, h0, u0) = (worktree@, head@, untracked@);
        proof {
            assert(tv.take(i + 1) =~= tv.take(i as int).push(t@));
            tv.take(i as int).lemma_filter_push(t@, to_worktree(scope));
            tv.take(i as int).lemma_filter_push(t@, to_head(scope));
            tv.take(i as int).lemma_filter_push(t@, is_untracked_target());
        }
        if t.untracked {
            untracked.push(t.path.clone());
            assert(strings(untracked@) =~= strings(u0).push(t.path@));
            assert(paths_of(tv.take(i as int).filter(is_untracked_target()).push(t@)) =~= paths_of(
                tv.take(i as int).filter(is_untracked_target()),
            ).push(t.path@));
        } else if t.conflict || scope == DiscardScope::All {
            head.push(t.path.clone());
            assert(strings(head@) =~= strings(h0).push(t.path@));
            assert(paths_of(tv.take(i as int).filter(to_head(scope)).push(t@)) =~= paths_of(
                tv.take(i as int).filter(to_head(scope)),
            ).push(t.path@));
        } else {
            worktree.push(t.path.clone());
            assert(strings(worktree@) =~= strings(w0).push(t.path@));
            assert(paths_of(tv.take(i as int).filter(to_worktree(scope)).push(t@)) =~= paths_of(
                tv.take(i as int).filter(to_worktree(scope)),
            ).push(t.path@));
        }
        i += 1;
    }
    assert(tv.take(targets@.len() as int) =~= tv);
    DiscardPlan { worktree, head, untracked }
}

// =====================
// Snapshot targets of reset, restore and clean
// =====================

pub open spec fn reset_touches() -> spec_fn(FileStatusV) -> bool {
    |f: FileStatusV| (f.staged || f.unstaged || f.conflict) && !f.untracked
}

/// A tracked path with changes a `mixed`/`hard` reset rewrites.
pub open spec fn reset_target(f: FileStatusV) -> DiscardTargetV {
    DiscardTargetV { path: f.path, untracked: false, conflict: f.conflict }
}

/// What a `mixed` or `hard` reset snapshots first: every tracked path with
/// staged, unstaged or conflicted changes (untracked files are untouched).
pub fn reset_targets(status: &[FileStatus]) -> (r: Vec<DiscardTarget>)
    ensures
        target_views(r@) == status_views(status@).filter(reset_touches()).map_values(|f: FileStatusV| reset_target(f)),
{
    let ghost sv = status_views(status@);
    let mut out: Vec<DiscardTarget> = Vec::new();
    let mut i: usize = 0;
    while i < status.len()
        invariant
            0 <= i <= status@.len(),
            sv == status_views(status@),
            target_views(out@) == sv.take(i as int).filter(reset_touches()).map_values(|f: FileStatusV| reset_target(f)),
        decreases status.len() - i,
    {
        let f = &status[i];
        let ghost before = out@;
        proof {
            assert(sv.take(i + 1) =~= sv.take(i as int).push(f@));
            sv.take(i as int).lemma_filter_push(f@, reset_touches());
        }
        if (f.staged || f.unstaged || f.conflict) && !f.untracked {
            out.push(DiscardTarget { path: f.path.clone(), untracked: false, conflict: f.conflict });
            assert(target_views(out@) =~= target_views(before).push(reset_target(f@)));
            assert(sv.take(i as int).filter(reset_touches()).push(f@).map_values(|f: FileStatusV| reset_target(f))
                =~= sv.take(i as int).filter(reset_touches()).map_values(|f: FileStatusV| reset_target(f)).push(
                reset_target(f@),
            ));
        }
        i += 1;
    }
    assert(sv.take(status@.len() as int) =~= sv);
    out
}

/// The status lists `path` as untracked (and not conflicted).
pub open spec fn untracked_in(status: Seq<FileStatusV>, path: Seq<char>) -> bool {
    exists|j: int| 0 <= j < status.len() && #[trigger] status[j].path == path && status[j].untracked && !status[j].conflict
}

/// Whether the status lists `path` as an untracked, unconflicted file.
pub fn is_untracked_path(status: &[FileStatus], path: &str) -> (r: bool)
    ensures
        r == untracked_in(status_views(status@), path@),
{
    let ghost sv = status_views(status@);
    let pc = to_chars(path);
    let mut i: usize = 0;
    while i < status.len()
        invariant
            0 <= i <= status@.len(),
            sv == status_views(status@),
            pc@ == path@,
            forall|j: int| 0 <= j < i ==> !((#[trigger] sv[j]).path == path@ && sv[j].untracked && !sv[j].conflict),
        decreases status.len() - i,
    {
        let f = &status[i];
        assert(sv[i as int] == f@);
        if f.untracked && !f.conflict {
            let fc = to_chars(f.path.as_str());
            if eq_chars(fc.as_slice(), pc.as_slice()) {
                assert(sv[i as int].path == path@ && sv[i as int].untracked && !sv[i as int].conflict);
                return true;
            }
        }
        i += 1;
    }
    false
}

/// What restoring `paths` from a revision snapshots first: each path, as
/// untracked when the status says so.
pub fn restore_targets(paths: &[String], status: &[FileStatus]) -> (r: Vec<DiscardTarget>)
    ensures
        r@.len() == paths@.len(),
        forall|i: int|
            0 <= i < paths@.len() ==> (#[trigger] r@[i])@ == (DiscardTargetV {
                path: paths@[i]@,
                untracked: untracked_in(status_views(status@), paths@[i]@),
                conflict: false,
            }),
{
    let mut out: Vec<DiscardTarget> = Vec::new();
    let mut i: usize = 0;
    while i < paths.len()
        invariant
            0 <= i <= paths@.len(),
            out@.len() == i,
            forall|m: int|
                0 <= m < i ==> (#[trigger] out@[m])@ == (DiscardTargetV {
                    path: paths@[m]@,
                    untracked: untracked_in(status_views(status@), paths@[m]@),
                    conflict: false,
                }),
        decreases paths.len() - i,
    {
        let u = is_untracked_path(status, paths[i].as_str());
        out.push(DiscardTarget { path: paths[i].clone(), untracked: u, conflict: false });
        i += 1;
    }
    out
}

/// What a clean snapshots first: each confirmed path (trailing `/` of a
/// directory dropped), as untracked.
pub fn clean_targets(paths: &[String]) -> (r: Vec<DiscardTarget>)
    ensures
        r@.len() == paths@.len(),
        forall|i: int|
            0 <= i < paths@.len() ==> (#[trigger] r@[i])@ == (DiscardTargetV {
                path: trim_end_char(paths@[i]@, '/'),
                untracked: true,
                conflict: false,
            }),
{
    let mut out: Vec<DiscardTarget> = Vec::new();
    let mut i: usize = 0;
    while i < paths.len()
        invariant
            0 <= i <= paths@.len(),
            out@.len() == i,
            forall|m: int|
                0 <= m < i ==> (#[trigger] out@[m])@ == (DiscardTargetV {
                    path: trim_end_char(paths@[m]@, '/'),
                    untracked: true,
                    conflict: false,
                }),
        decreases paths.len() - i,
    {
        let pc = to_chars(paths[i].as_str());
        let t = trim_end_char_chars(pc.as_slice(), '/');
        out.push(DiscardTarget { path: string_of(t.as_slice()), untracked: true, conflict: false });
        i += 1;
    }
    out
}

// =====================
// Diff requests
// =====================

/// The requested paths a worktree diff asks git for (all but the untracked
/// ones), and those it synthesizes; other sources ask git for all.
pub fn split_diff_paths(source: DiffSource, requested: Vec<String>, status: &[FileStatus]) -> (r: (Vec<String>, Vec<String>))
    ensures
        source == DiffSource::Worktree && requested@.len() > 0 ==> {
            &&& strings(r.0@) == strings(requested@).filter(|p: Seq<char>| !untracked_in(status_views(status@), p))
            &&& strings(r.1@) == strings(requested@).filter(|p: Seq<char>| untracked_in(status_views(status@), p))
        },
        !(source == DiffSource::Worktree && requested@.len() > 0) ==> strings(r.0@) == strings(requested@) && r.1@.len()
            == 0,
{
    if !(source == DiffSource::Worktree && requested.len() > 0) {
        return (requested, Vec::new());
    }
    let ghost rv = strings(requested@);
    let ghost sv = status_views(status@);
    let ghost in_git = |p: Seq<char>| !untracked_in(sv, p);
    let ghost synthesized = |p: Seq<char>| untracked_in(sv, p);
    let mut from_git: Vec<String> = Vec::new();
    let mut untracked: Vec<String> = Vec::new();
    let mut i: usize = 0;
    while i < requested.len()
        invariant
            0 <= i <= requested@.len(),
            rv == strings(requested@),
            sv == status_views(status@),
            in_git == (|p: Seq<char>| !untracked_in(sv, p)),
            synthesized == (|p: Seq<char>| untracked_in(sv, p)),
            strings(from_git@) == rv.take(i as int).filter(in_git),
            strings(untracked@) == rv.take(i as int).filter(synthesized),
        decreases requested.len() - i,
    {
        let p = &requested[i];
        let ghost (t0, u0) = (from_git@, untracked@);
        proof {
            assert(rv.take(i + 1) =~= rv.take(i as int).push(p@));
            rv.take(i as int).lemma_filter_push(p@, in_git);
            rv.take(i as int).lemma_filter_push(p@, synthesized);
        }
        if is_untracked_path(status, p.as_str()) {
            untracked.push(p.clone());
            assert(strings(untracked@) =~= strings(u0).push(p@));
        } else {
            from_git.push(p.clone());
            assert(strings(from_git@) =~= strings(t0).push(p@));
        }
        i += 1;
    }
    assert(rv.take(requested@.len() as int) =~= rv);
    (from_git, untracked)
}

/// The options of a diff request: 3 context lines unless given, at most
/// 100000; whitespace counted unless asked otherwise.
pub fn diff_options(context_lines: Option<u32>, ignore_whitespace: Option<bool>) -> (r: DiffOptions)
    ensures
        r.context_lines == match context_lines {
            Some(n) => if n > 100_000 {
                100_000
            } else {
                n
            },
            None => 3,
        },
        r.ignore_whitespace == match ignore_whitespace {
            Some(b) => b,
            None => false,
        },
{
    let n = match context_lines {
        Some(n) => n,
        None => 3,
    };
    DiffOptions {
        context_lines: if n > 100_000 {
            100_000
        } else {
            n
        },
        ignore_whitespace: match ignore_whitespace {
            Some(b) => b,
            None => false,
        },
    }
}

/// How a line-level patch is applied: (`--cached`, `--reverse`).
pub fn line_op_flags(op: LineOp) -> (r: (bool, bool))
    ensures
        r == match op {
            LineOp::Stage => (true, false),
            LineOp::Discard => (false, true),
            LineOp::Unstage => (true, true),
        },
{
    match op {
        LineOp::Stage => (true, false),
        LineOp::Discard => (false, true),
        LineOp::Unstage => (true, true),
    }
}

// =====================
// Squash
// =====================

pub open spec fn commit_views(v: Seq<CommitInfo>) -> Seq<CommitInfoV> {
    v.map_values(|c: CommitInfo| c@)
}

/// `c` has exactly one parent, `next` (a first-parent link, no merge).
pub open spec fn links_to(c: CommitInfoV, next: Seq<char>) -> bool {
    c.parents.len() == 1 && c.parents[0] == next
}

/// Where squashing the selected commits resets to, given the newest
/// `hashes.len()` commits of HEAD's log: the selection must be exactly
/// those commits, linked first-parent without merges; the base is the
/// parent of the oldest. `Err` carries the message.
pub open spec fn squash_outcome(hashes: Seq<Seq<char>>, log: Seq<CommitInfoV>) -> Result<Seq<char>, Seq<char>> {
    let k = hashes.len() as int;
    if log.len() < k {
        Err("squash: selection extends past the repository root"@)
    } else if !hashes.no_duplicates() || exists|j: int| 0 <= j < k && !hashes.contains(#[trigger] log[j].hash) {
        Err("squash: selection must be the newest consecutive commits"@)
    } else if exists|j: int| 0 <= j < k - 1 && !links_to(#[trigger] log[j], log[j + 1].hash) {
        Err("squash: merge commits cannot be squashed (v1)"@)
    } else if log[k - 1].parents.len() != 1 {
        Err("squash: merge commits cannot be squashed (v1)"@)
    } else {
        Ok(log[k - 1].parents[0])
    }
}

fn contains_string(v: &[String], s: &String) -> (r: bool)
    ensures
        r == strings(v@).contains(s@),
{
    let sc = to_chars(s.as_str());
    let mut i: usize = 0;
    while i < v.len()
        invariant
            0 <= i <= v@.len(),
            sc@ == s@,
            forall|j: int| 0 <= j < i ==> (#[trigger] v@[j])@ != s@,
        decreases v.len() - i,
    {
        let vc = to_chars(v[i].as_str());
        if eq_chars(vc.as_slice(), sc.as_slice()) {
            assert(strings(v@)[i as int] == s@);
            return true;
        }
        i += 1;
    }
    assert forall|j: int| 0 <= j < strings(v@).len() implies strings(v@)[j] != s@ by {
        assert(strings(v@)[j] == v@[j]@);
    }
    false
}

fn all_distinct(v: &[String]) -> (r: bool)
    ensures
        r == strings(v@).no_duplicates(),
{
    let ghost sv = strings(v@);
    let mut i: usize = 0;
    while i < v.len()
        invariant
            0 <= i <= v@.len(),
            sv == strings(v@),
            forall|a: int, b: int| 0 <= a < b < v@.len() && a < i ==> #[trigger] sv[a] != #[trigger] sv[b],
        decreases v.len() - i,
    {
        let ic = to_chars(v[i].as_str());
        let mut j: usize = i + 1;
        while j < v.len()
            invariant
                i < j <= v@.len(),
                i < v@.len(),
                sv == strings(v@),
                ic@ == sv[i as int],
                forall|b: int| i < b < j ==> sv[i as int] != #[trigger] sv[b],
            decreases v.len() - j,
        {
            let jc = to_chars(v[j].as_str());
            assert(sv[j as int] == v@[j as int]@);
            if eq_chars(ic.as_slice(), jc.as_slice()) {
                assert(!sv.no_duplicates());
                return false;
            }
            j += 1;
        }
        i += 1;
    }
    true
}

fn parse_error(msg: &str) -> (r: AppError)
    ensures
        r matches AppError::Parse { message } && message@ == msg@,
{
    AppError::parse(String::from_str(msg))
}

/// The base a squash of `hashes` resets to (`reset --soft`), from the
/// newest `hashes.len()` commits of HEAD's log.
pub fn squash_base(hashes: &[String], log: &[CommitInfo]) -> (r: Result<String, AppError>)
    requires
        hashes@.len() > 0,
    ensures
        match squash_outcome(strings(hashes@), commit_views(log@)) {
            Ok(b) => r matches Ok(s) && s@ == b,
            Err(m) => r matches Err(AppError::Parse { message }) && message@ == m,
        },
{
    let ghost hv = strings(hashes@);
    let ghost lv = commit_views(log@);
    let k = hashes.len();
    if log.len() < k {
        return Err(parse_error("squash: selection extends past the repository root"));
    }
    let mut consecutive = all_distinct(hashes);
    let mut j: usize = 0;
    while consecutive && j < k
        invariant
            0 <= j <= k,
            k == hashes@.len(),
            k <= log@.len(),
            hv == strings(hashes@),
            lv == commit_views(log@),
            consecutive ==> hv.no_duplicates() && forall|m: int| 0 <= m < j ==> hv.contains(#[trigger] lv[m].hash),
            !consecutive ==> !hv.no_duplicates() || exists|m: int| 0 <= m < k && !hv.contains(#[trigger] lv[m].hash),
        decreases k - j,
    {
        assert(lv[j as int].hash == log@[j as int].hash@);
        if !contains_string(hashes, &log[j].hash) {
            consecutive = false;
        }
        j += 1;
    }
    if !consecutive {
        return Err(parse_error("squash: selection must be the newest consecutive commits"));
    }
    let mut m: usize = 0;
    while m + 1 < k
        invariant
            0 <= m,
            k == hashes@.len(),
            k <= log@.len(),
            lv == commit_views(log@),
            hv == strings(hashes@),
            hv.no_duplicates(),
            forall|q: int| 0 <= q < k ==> hv.contains(#[trigger] lv[q].hash),
            m + 1 <= k,
            forall|q: int| 0 <= q < m ==> links_to(#[trigger] lv[q], lv[q + 1].hash),
        decreases k - m,
    {
        let c = &log[m];
        assert(lv[m as int] == c@);
        assert(lv[m + 1].hash == log@[m + 1].hash@);
        let linked = c.parents.len() == 1 && {
            let a = to_chars(c.parents[0].as_str());
            let b = to_chars(log[m + 1].hash.as_str());
            eq_chars(a.as_slice(), b.as_slice())
        };
        if !linked {
            proof {
                if c.parents@.len() == 1 {
                    assert(lv[m as int].parents[0] == c.parents@[0]@);
                }
                assert(!links_to(lv[m as int], lv[m + 1].hash));
            }
            return Err(parse_error("squash: merge commits cannot be squashed (v1)"));
        }
        assert(lv[m as int].parents[0] == c.parents@[0]@);
        m += 1;
    }
    let oldest = &log[k - 1];
    assert(lv[k - 1] == oldest@);
    if oldest.parents.len() != 1 {
        return Err(parse_error("squash: merge commits cannot be squashed (v1)"));
    }
    assert(lv[k - 1].parents[0] == oldest.parents@[0]@);
    Ok(oldest.parents[0].clone())
}

// =====================
// Repository config keys
// =====================

/// The config keys the repository settings show, in their order.
pub open spec fn repo_config_keys() -> Seq<Seq<char>> {
    seq![
        "user.name"@,
        "user.email"@,
        "http.proxy"@,
        "https.proxy"@,
        "core.autocrlf"@,
        "pull.rebase"@,
        "fetch.prune"@,
        "push.autoSetupRemote"@,
    ]
}

fn repo_config_key(i: usize) -> (r: &'static str)
    requires
        i < 8,
    ensures
        r@ == repo_config_keys()[i as int],
{
    if i == 0 {
        "user.name"
    } else if i == 1 {
        "user.email"
    } else if i == 2 {
        "http.proxy"
    } else if i == 3 {
        "https.proxy"
    } else if i == 4 {
        "core.autocrlf"
    } else if i == 5 {
        "pull.rebase"
    } else if i == 6 {
        "fetch.prune"
    } else {
        "push.autoSetupRemote"
    }
}

/// Each common key with its value in the repository's own config and its
/// effective value, the last occurrence of the key winning in each list.
pub fn repo_config_values(local: Vec<(String, String)>, merged: Vec<(String, String)>) -> (r: Vec<RepoConfigValue>)
    ensures
        r@.len() == 8,
        forall|i: int|
            0 <= i < 8 ==> {
                &&& (#[trigger] r@[i]).key@ == repo_config_keys()[i]
                &&& crate::text::opt_str(r@[i].local) == last_value(pair_views(local@), repo_config_keys()[i])
                &&& crate::text::opt_str(r@[i].effective) == last_value(pair_views(merged@), repo_config_keys()[i])
            },
{
    let lm = config_last_wins(local);
    let mm = config_last_wins(merged);
    let mut out: Vec<RepoConfigValue> = Vec::new();
    let mut i: usize = 0;
    while i < 8
        invariant
            0 <= i <= 8,
            out@.len() == i,
            forall|k: Seq<char>| #[trigger] config_get(lm@, k) == last_value(pair_views(local@), k),
            forall|k: Seq<char>| #[trigger] config_get(mm@, k) == last_value(pair_views(merged@), k),
            forall|m: int|
                0 <= m < i ==> {
                    &&& (#[trigger] out@[m]).key@ == repo_config_keys()[m]
                    &&& crate::text::opt_str(out@[m].local) == last_value(pair_views(local@), repo_config_keys()[m])
                    &&& crate::text::opt_str(out@[m].effective) == last_value(pair_views(merged@), repo_config_keys()[m])
                },
        decreases 8 - i,
    {
        let key = repo_config_key(i);
        let l = match lm.get(key) {
            Some(v) => Some(v.clone()),
            None => None,
        };
        let e = match mm.get(key) {
            Some(v) => Some(v.clone()),
            None => None,
        };
        out.push(RepoConfigValue { key: String::from_str(key), local: l, effective: e });
        i += 1;
    }
    out
}

// =====================
// Reset modes
// =====================

/// The reset mode check of a reset (`undo` false) or of its undo: `Ok` for
/// `soft`, `mixed` and `hard`, otherwise the parse error naming the mode.
pub fn check_reset_mode(mode: &str, undo: bool) -> (r: Result<(), AppError>)
    ensures
        (mode@ == "soft"@ || mode@ == "mixed"@ || mode@ == "hard"@) ==> r is Ok,
        !(mode@ == "soft"@ || mode@ == "mixed"@ || mode@ == "hard"@) ==> (r matches Err(AppError::Parse { message })
            && message@ == if undo {
            "undo reset: invalid mode "@ + str_debug(mode@)
        } else {
            "reset: invalid mode "@ + str_debug(mode@) + " (soft|mixed|hard)"@
        }),
{
    if crate::ops::valid_reset_mode(mode) {
        return Ok(());
    }
    let mut msg = String::new();
    if undo {
        push_str(&mut msg, "undo reset: invalid mode ");
        let q = debug_quoted(mode);
        push_str(&mut msg, q.as_str());
    } else {
        push_str(&mut msg, "reset: invalid mode ");
        let q = debug_quoted(mode);
        push_str(&mut msg, q.as_str());
        push_str(&mut msg, " (soft|mixed|hard)");
    }
    Err(AppError::parse(msg))
}

// =====================
// Worktree paths
// =====================

/// The kind of one component of a path, as the platform splits it.
#[derive(Debug, Clone, Copy, PartialEq, Eq, Structural)]
pub enum PathPart {
    /// A drive or share prefix (Windows).
    Prefix,
    /// The root separator.
    RootDir,
    /// `.`
    CurDir,
    /// `..`
    ParentDir,
    /// A name.
    Normal,
}

/// Why a relative path is refused.
#[derive(Debug, Clone, Copy, PartialEq, Eq, Structural)]
pub enum PathRefusal {
    Absolute,
    Escapes,
}

/// The depth a path reaches below the root, walking its components from
/// `depth`, or why it is refused: an absolute component, or a `..` above
/// the root.
pub open spec fn path_walk(parts: Seq<PathPart>, depth: nat) -> Result<nat, PathRefusal>
    decreases parts.len(),
{
    if parts.len() == 0 {
        Ok(depth)
    } else {
        match parts[0] {
            PathPart::CurDir => path_walk(parts.skip(1), depth),
            PathPart::ParentDir => if depth == 0 {
                Err(PathRefusal::Escapes)
            } else {
                path_walk(parts.skip(1), (depth - 1) as nat)
            },
            PathPart::Normal => path_walk(parts.skip(1), depth + 1),
            PathPart::Prefix => Err(PathRefusal::Absolute),
            PathPart::RootDir => Err(PathRefusal::Absolute),
        }
    }
}

/// Whether a path relative to the worktree root may be used: not absolute,
/// and naming something strictly below the root.
pub open spec fn path_refusal(absolute: bool, parts: Seq<PathPart>) -> Option<PathRefusal> {
    if absolute {
        Some(PathRefusal::Absolute)
    } else {
        match path_walk(parts, 0) {
            Err(r) => Some(r),
            Ok(d) => if d == 0 {
                Some(PathRefusal::Escapes)
            } else {
                None
            },
        }
    }
}

/// Checks a status-provided path before it is joined onto the worktree
/// root (`absolute` and `parts` as the platform reads the path): an
/// internal error naming the path when it is absolute or escapes the
/// repository.
pub fn check_worktree_path(rel: &str, absolute: bool, parts: &[PathPart]) -> (r: Result<(), AppError>)
    ensures
        match path_refusal(absolute, parts@) {
            None => r is Ok,
            Some(PathRefusal::Absolute) => r matches Err(AppError::Internal { message }) && message@
                == "absolute path not allowed: "@ + rel@,
            Some(PathRefusal::Escapes) => r matches Err(AppError::Internal { message }) && message@
                == "path escapes repo: "@ + rel@,
        },
{
    let mut refusal: Option<PathRefusal> = None;
    if absolute {
        refusal = Some(PathRefusal::Absolute);
    } else {
        let mut depth: usize = 0;
        let mut i: usize = 0;
        let mut done = false;
        assert(parts@.skip(0) =~= parts@);
        while !done && i < parts.len()
            invariant
                0 <= i <= parts@.len(),
                depth <= i,
                !done ==> refusal is None && path_walk(parts@, 0) == path_walk(parts@.skip(i as int), depth as nat),
                done ==> refusal is Some && path_walk(parts@, 0) == Err::<nat, PathRefusal>(refusal->0),
            decreases parts.len() - i + (if done { 0int } else { 1int }),
        {
            proof {
                assert(parts@.skip(i as int)[0] == parts@[i as int]);
                assert(parts@.skip(i as int).skip(1) =~= parts@.skip(i + 1));
            }
            match parts[i] {
                PathPart::CurDir => {},
                PathPart::ParentDir => {
                    if depth == 0 {
                        refusal = Some(PathRefusal::Escapes);
                        done = true;
                    } else {
                        depth -= 1;
                    }
                },
                PathPart::Normal => {
                    depth += 1;
                },
                PathPart::Prefix => {
                    refusal = Some(PathRefusal::Absolute);
                    done = true;
                },
                PathPart::RootDir => {
                    refusal = Some(PathRefusal::Absolute);
                    done = true;
                },
            }
            if !done {
                i += 1;
            }
        }
        if !done {
            assert(parts@.skip(i as int).len() == 0);
            if depth == 0 {
                refusal = Some(PathRefusal::Escapes);
            }
        }
    }
    match refusal {
        None => Ok(()),
        Some(PathRefusal::Absolute) => {
            let mut m = String::new();
            push_str(&mut m, "absolute path not allowed: ");
            push_str(&mut m, rel);
            Err(AppError::internal(m))
        },
        Some(PathRefusal::Escapes) => {
            let mut m = String::new();
            push_str(&mut m, "path escapes repo: ");
            push_str(&mut m, rel);
            Err(AppError::internal(m))
        },
    }
}

} // verus!
