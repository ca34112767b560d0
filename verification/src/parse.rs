//! Parsers for git's machine-readable output. Each parser is a pure
//! function over the raw text; its contract gives the result as a model
//! over the text's characters.

use vstd::prelude::*;
use crate::text::{lemma_split_join, lemma_split_append_free, find_from, occurs_at, 
    split, lines, non_empty, opt_str, strs, views, words, trim, trim_start_char, trim_end_char,
    strip_prefix, strip_suffix, split_once, split_once_seq, rsplit_once, parse_u32, to_chars,
    split_lines, split_chars, string_of, opt_string, strip_prefix_chars, strip_suffix_chars,
    split_once_str, split_once_char, rsplit_once_char, u32_or_zero, trim_chars,
    trim_start_char_chars, trim_end_char_chars, eq_chars, drop_empty, strings_of, slice_range,
    split_words, parse_u32_chars, push_char, split_str, split_str_chars, starts_with, contains,
    is_ascii_char, find, join, find_char, has_prefix, lemma_find_occurs, lemma_split_len,
    string_of_range, push_chars,
};
use crate::model::{
    seq_view, filter_map, lemma_filter_map_step, lemma_seq_view_push, TagInfo, TagInfoV,
    BackupRef, BackupRefV, ReflogEntry, ReflogEntryV, StashEntry, StashEntryV, BranchInfo,
    BranchInfoV, RemoteInfo, RemoteInfoV, IndexEntry, IndexEntryV, CommitFileStat,
    CommitFileStatV, CommitInfo, CommitInfoV, FileStatus, FileStatusV, NumstatFile, NumstatFileV,
    NumstatCommit, NumstatCommitV,
};

verus! {

// =====================
// tags
// =====================

/// One record of `git tag -l --format=%(refname)%00%(refname:short)%00%(objectname)%00%(taggername)%00%(creatordate:iso)%00%(subject)`.
pub open spec fn tag_record(rec: Seq<char>) -> Option<TagInfoV> {
    let f = split(rec, '\0');
    if rec.len() == 0 || f.len() < 6 {
        None
    } else {
        Some(
            TagInfoV {
                full_name: f[0],
                name: f[1],
                target: f[2],
                tagger: non_empty(f[3]),
                date: non_empty(f[4]),
                message: non_empty(f[5]),
            },
        )
    }
}

pub open spec fn tags_model(output: Seq<char>) -> Seq<TagInfoV> {
    filter_map(lines(output), |r: Seq<char>| tag_record(r))
}

/// Parse the tag listing: one tag per line, NUL-separated fields; short
/// lines are skipped and empty tagger/date/subject become `None`.
pub fn parse_tags(output: &str) -> (r: Vec<TagInfo>)
    ensures
        seq_view(r@) == tags_model(output@),
{
    let chars = to_chars(output);
    let recs = split_lines(chars.as_slice());
    let ghost rs = views(recs@);
    let mut out: Vec<TagInfo> = Vec::new();
    let mut i: usize = 0;
    while i < recs.len()
        invariant
            rs == views(recs@),
            rs == lines(output@),
            0 <= i <= rs.len(),
            seq_view(out@) == filter_map(rs.take(i as int), |r: Seq<char>| tag_record(r)),
        decreases recs.len() - i,
    {
        proof {
            lemma_filter_map_step(rs, |r: Seq<char>| tag_record(r), i as int);
        }
        let rec = &recs[i];
        if rec.len() > 0 {
            let f = split_chars(rec.as_slice(), '\0');
            if f.len() >= 6 {
                let t = TagInfo {
                    full_name: string_of(f[0].as_slice()),
                    name: string_of(f[1].as_slice()),
                    target: string_of(f[2].as_slice()),
                    tagger: opt_string(f[3].as_slice()),
                    date: opt_string(f[4].as_slice()),
                    message: opt_string(f[5].as_slice()),
                };
                proof {
                    lemma_seq_view_push(out@, t);
                }
                out.push(t);
            }
        }
        i += 1;
    }
    assert(rs.take(rs.len() as int) =~= rs);
    out
}

// =====================
// backup refs
// =====================

pub open spec fn backup_record(rec: Seq<char>) -> Option<BackupRefV> {
    let f = split(rec, '\0');
    if rec.len() == 0 || f.len() < 6 {
        None
    } else {
        Some(
            BackupRefV {
                full_name: f[0],
                name: match strip_prefix(f[0], "refs/ibexgit/backups/"@) {
                    Some(n) => n,
                    None => f[1],
                },
                hash: f[2],
                short_hash: f[3],
                date: f[4],
                subject: f[5],
            },
        )
    }
}

pub open spec fn backup_refs_model(output: Seq<char>) -> Seq<BackupRefV> {
    filter_map(lines(output), |r: Seq<char>| backup_record(r))
}

/// Parse the backup-ref listing (refname, short name, objectname, short
/// objectname, date, subject — NUL separated); the display name is the
/// refname without the backup namespace.
pub fn parse_backup_refs(output: &str) -> (r: Vec<BackupRef>)
    ensures
        seq_view(r@) == backup_refs_model(output@),
{
    let chars = to_chars(output);
    let recs = split_lines(chars.as_slice());
    let ns = to_chars("refs/ibexgit/backups/");
    let ghost rs = views(recs@);
    let mut out: Vec<BackupRef> = Vec::new();
    let mut i: usize = 0;
    while i < recs.len()
        invariant
            rs == views(recs@),
            rs == lines(output@),
            ns@ == "refs/ibexgit/backups/"@,
            0 <= i <= rs.len(),
            seq_view(out@) == filter_map(rs.take(i as int), |r: Seq<char>| backup_record(r)),
        decreases recs.len() - i,
    {
        proof {
            lemma_filter_map_step(rs, |r: Seq<char>| backup_record(r), i as int);
        }
        let rec = &recs[i];
        if rec.len() > 0 {
            let f = split_chars(rec.as_slice(), '\0');
            if f.len() >= 6 {
                let name = match strip_prefix_chars(f[0].as_slice(), ns.as_slice()) {
                    Some(n) => string_of(n.as_slice()),
                    None => string_of(f[1].as_slice()),
                };
                let b = BackupRef {
                    full_name: string_of(f[0].as_slice()),
                    name,
                    hash: string_of(f[2].as_slice()),
                    short_hash: string_of(f[3].as_slice()),
                    date: string_of(f[4].as_slice()),
                    subject: string_of(f[5].as_slice()),
                };
                proof {
                    lemma_seq_view_push(out@, b);
                }
                out.push(b);
            }
        }
        i += 1;
    }
    assert(rs.take(rs.len() as int) =~= rs);
    out
}

// =====================
// reflog
// =====================

pub open spec fn reflog_record(rec: Seq<char>) -> Option<ReflogEntryV> {
    let f = split(rec, '\0');
    if rec.len() == 0 || f.len() < 5 {
        None
    } else {
        Some(
            ReflogEntryV {
                hash: f[0],
                short_hash: f[1],
                ref_name: match split_once_seq(f[2], "@{"@) {
                    Some((r, _)) => r,
                    None => f[2],
                },
                message: f[3],
                date: f[4],
                author: Seq::<char>::empty(),
            },
        )
    }
}

pub open spec fn reflog_model(output: Seq<char>) -> Seq<ReflogEntryV> {
    filter_map(lines(output), |r: Seq<char>| reflog_record(r))
}

/// Parse `git reflog --format=%H%00%h%00%gd%00%gs%00%cr`; the ref name is
/// the selector before `@{`.
pub fn parse_reflog(output: &str) -> (r: Vec<ReflogEntry>)
    ensures
        seq_view(r@) == reflog_model(output@),
{
    let chars = to_chars(output);
    let recs = split_lines(chars.as_slice());
    let sel = to_chars("@{");
    let ghost rs = views(recs@);
    let mut out: Vec<ReflogEntry> = Vec::new();
    let mut i: usize = 0;
    while i < recs.len()
        invariant
            rs == views(recs@),
            rs == lines(output@),
            sel@ == "@{"@,
            0 <= i <= rs.len(),
            seq_view(out@) == filter_map(rs.take(i as int), |r: Seq<char>| reflog_record(r)),
        decreases recs.len() - i,
    {
        proof {
            lemma_filter_map_step(rs, |r: Seq<char>| reflog_record(r), i as int);
        }
        let rec = &recs[i];
        if rec.len() > 0 {
            let f = split_chars(rec.as_slice(), '\0');
            if f.len() >= 5 {
                let ref_name = match split_once_str(f[2].as_slice(), sel.as_slice()) {
                    Some((r, _)) => string_of(r.as_slice()),
                    None => string_of(f[2].as_slice()),
                };
                let e = ReflogEntry {
                    hash: string_of(f[0].as_slice()),
                    short_hash: string_of(f[1].as_slice()),
                    ref_name,
                    message: string_of(f[3].as_slice()),
                    date: string_of(f[4].as_slice()),
                    author: String::new(),
                };
                proof {
                    lemma_seq_view_push(out@, e);
                }
                out.push(e);
            }
        }
        i += 1;
    }
    assert(rs.take(rs.len() as int) =~= rs);
    out
}

// =====================
// stash
// =====================

/// `"WIP on main: abc123 msg"` / `"On main: msg"` → (branch, message).
pub open spec fn stash_subject(s: Seq<char>) -> (Option<Seq<char>>, Seq<char>) {
    match strip_prefix(s, "WIP on "@) {
        Some(rest) => match split_once_seq(rest, ": "@) {
            Some((b, m)) => (Some(b), m),
            None => (None, s),
        },
        None => match strip_prefix(s, "On "@) {
            Some(rest) => match split_once_seq(rest, ": "@) {
                Some((b, m)) => (Some(b), m),
                None => (None, s),
            },
            None => (None, s),
        },
    }
}

/// The `N` of a `stash@{N}` selector, `0` when absent.
pub open spec fn stash_index(sel: Seq<char>) -> u32 {
    match rsplit_once(sel, '{') {
        Some((_, rest)) => match strip_suffix(rest, seq!['}']) {
            Some(n) => match parse_u32(n) {
                Some(v) => v,
                None => 0,
            },
            None => 0,
        },
        None => 0,
    }
}

pub open spec fn stash_record(rec: Seq<char>) -> Option<StashEntryV> {
    let f = split(rec, '\0');
    if rec.len() == 0 || f.len() < 4 {
        None
    } else {
        Some(
            StashEntryV {
                index: stash_index(f[1]),
                branch: stash_subject(f[2]).0,
                message: stash_subject(f[2]).1,
                date: f[3],
            },
        )
    }
}

pub open spec fn stash_model(output: Seq<char>) -> Seq<StashEntryV> {
    filter_map(lines(output), |r: Seq<char>| stash_record(r))
}

fn split_stash_subject(s: &[char]) -> (r: (Option<String>, String))
    ensures
        opt_str(r.0) == stash_subject(s@).0,
        r.1@ == stash_subject(s@).1,
{
    let wip = to_chars("WIP on ");
    let on = to_chars("On ");
    let sep = to_chars(": ");
    match strip_prefix_chars(s, wip.as_slice()) {
        Some(rest) => match split_once_str(rest.as_slice(), sep.as_slice()) {
            Some((b, m)) => (Some(string_of(b.as_slice())), string_of(m.as_slice())),
            None => (None, string_of(s)),
        },
        None => match strip_prefix_chars(s, on.as_slice()) {
            Some(rest) => match split_once_str(rest.as_slice(), sep.as_slice()) {
                Some((b, m)) => (Some(string_of(b.as_slice())), string_of(m.as_slice())),
                None => (None, string_of(s)),
            },
            None => (None, string_of(s)),
        },
    }
}

fn stash_index_of(sel: &[char]) -> (r: u32)
    ensures
        r == stash_index(sel@),
{
    match rsplit_once_char(sel, '{') {
        Some((_, rest)) => {
            let close = vec!['}'];
            assert(close@ == seq!['}']);
            match strip_suffix_chars(rest.as_slice(), close.as_slice()) {
                Some(n) => u32_or_zero(n.as_slice()),
                None => 0,
            }
        },
        None => 0,
    }
}

/// Parse `git stash list --format=%H%00%gd%00%gs%00%cr`.
pub fn parse_stash(output: &str) -> (r: Vec<StashEntry>)
    ensures
        seq_view(r@) == stash_model(output@),
{
    let chars = to_chars(output);
    let recs = split_lines(chars.as_slice());
    let ghost rs = views(recs@);
    let mut out: Vec<StashEntry> = Vec::new();
    let mut i: usize = 0;
    while i < recs.len()
        invariant
            rs == views(recs@),
            rs == lines(output@),
            0 <= i <= rs.len(),
            seq_view(out@) == filter_map(rs.take(i as int), |r: Seq<char>| stash_record(r)),
        decreases recs.len() - i,
    {
        proof {
            lemma_filter_map_step(rs, |r: Seq<char>| stash_record(r), i as int);
        }
        let rec = &recs[i];
        if rec.len() > 0 {
            let f = split_chars(rec.as_slice(), '\0');
            if f.len() >= 4 {
                let index = stash_index_of(f[1].as_slice());
                let (branch, message) = split_stash_subject(f[2].as_slice());
                let e = StashEntry { index, message, branch, date: string_of(f[3].as_slice()) };
                proof {
                    lemma_seq_view_push(out@, e);
                }
                out.push(e);
            }
        }
        i += 1;
    }
    assert(rs.take(rs.len() as int) =~= rs);
    out
}

// =====================
// branches
// =====================

/// Counts carried by one comma-separated part of `[ahead 1, behind 2]`.
pub open spec fn track_step(acc: (u32, u32), part: Seq<char>) -> (u32, u32) {
    let p = trim(part);
    match strip_prefix(p, "ahead "@) {
        Some(n) => (
            match parse_u32(trim(n)) {
                Some(v) => v,
                None => 0,
            },
            acc.1,
        ),
        None => match strip_prefix(p, "behind "@) {
            Some(n) => (
                acc.0,
                match parse_u32(trim(n)) {
                    Some(v) => v,
                    None => 0,
                },
            ),
            None => acc,
        },
    }
}

pub open spec fn track_fold(parts: Seq<Seq<char>>) -> (u32, u32)
    decreases parts.len(),
{
    if parts.len() == 0 {
        (0, 0)
    } else {
        track_step(track_fold(parts.drop_last()), parts.last())
    }
}

/// `[ahead 1, behind 2]` / `[ahead 2]` / `[behind 1]` / `[gone]` / `` → (ahead, behind).
pub open spec fn upstream_track(s: Seq<char>) -> (u32, u32) {
    track_fold(split(trim_end_char(trim_start_char(s, '['), ']'), ','))
}

fn parse_upstream_track(s: &[char]) -> (r: (u32, u32))
    ensures
        r == upstream_track(s@),
{
    let a = trim_start_char_chars(s, '[');
    let inner = trim_end_char_chars(a.as_slice(), ']');
    let parts = split_chars(inner.as_slice(), ',');
    let ghost ps = views(parts@);
    let ahead_p = to_chars("ahead ");
    let behind_p = to_chars("behind ");
    let mut ahead: u32 = 0;
    let mut behind: u32 = 0;
    let mut i: usize = 0;
    assert(ps.take(0) =~= Seq::<Seq<char>>::empty());
    while i < parts.len()
        invariant
            ps == views(parts@),
            ahead_p@ == "ahead "@,
            behind_p@ == "behind "@,
            0 <= i <= ps.len(),
            (ahead, behind) == track_fold(ps.take(i as int)),
        decreases parts.len() - i,
    {
        assert(ps.take(i + 1).drop_last() =~= ps.take(i as int));
        let part = trim_chars(parts[i].as_slice());
        match strip_prefix_chars(part.as_slice(), ahead_p.as_slice()) {
            Some(n) => {
                let t = trim_chars(n.as_slice());
                ahead = u32_or_zero(t.as_slice());
            },
            None => match strip_prefix_chars(part.as_slice(), behind_p.as_slice()) {
                Some(n) => {
                    let t = trim_chars(n.as_slice());
                    behind = u32_or_zero(t.as_slice());
                },
                None => {},
            },
        }
        i += 1;
    }
    assert(ps.take(ps.len() as int) =~= ps);
    (ahead, behind)
}

pub open spec fn branch_record(rec: Seq<char>) -> Option<BranchInfoV> {
    let f = split(rec, '\0');
    if rec.len() == 0 || f.len() < 6 {
        None
    } else {
        Some(
            BranchInfoV {
                full_name: f[0],
                name: f[1],
                upstream: non_empty(f[2]),
                ahead: upstream_track(f[3]).0,
                behind: upstream_track(f[3]).1,
                current: f[4] == seq!['*'],
                detached: f[5].len() == 0,
            },
        )
    }
}

pub open spec fn branches_model(output: Seq<char>) -> Seq<BranchInfoV> {
    filter_map(lines(output), |r: Seq<char>| branch_record(r))
}

/// Parse `git for-each-ref --format=%(refname)%00%(refname:short)%00%(upstream:short)%00%(upstream:track)%00%(HEAD)%00%(objectname)`.
pub fn parse_branches(output: &str) -> (r: Vec<BranchInfo>)
    ensures
        seq_view(r@) == branches_model(output@),
{
    let chars = to_chars(output);
    let recs = split_lines(chars.as_slice());
    let star = vec!['*'];
    let ghost rs = views(recs@);
    let mut out: Vec<BranchInfo> = Vec::new();
    let mut i: usize = 0;
    while i < recs.len()
        invariant
            rs == views(recs@),
            rs == lines(output@),
            star@ == seq!['*'],
            0 <= i <= rs.len(),
            seq_view(out@) == filter_map(rs.take(i as int), |r: Seq<char>| branch_record(r)),
        decreases recs.len() - i,
    {
        proof {
            lemma_filter_map_step(rs, |r: Seq<char>| branch_record(r), i as int);
        }
        let rec = &recs[i];
        if rec.len() > 0 {
            let f = split_chars(rec.as_slice(), '\0');
            if f.len() >= 6 {
                let (ahead, behind) = parse_upstream_track(f[3].as_slice());
                let b = BranchInfo {
                    name: string_of(f[1].as_slice()),
                    full_name: string_of(f[0].as_slice()),
                    upstream: opt_string(f[2].as_slice()),
                    ahead,
                    behind,
                    current: eq_chars(f[4].as_slice(), star.as_slice()),
                    detached: f[5].len() == 0,
                };
                proof {
                    lemma_seq_view_push(out@, b);
                }
                out.push(b);
            }
        }
        i += 1;
    }
    assert(rs.take(rs.len() as int) =~= rs);
    out
}

// =====================
// NUL path lists / config
// =====================

/// The non-empty pieces, in order.
pub open spec fn non_empty_pieces(pieces: Seq<Seq<char>>) -> Seq<Seq<char>> {
    pieces.filter(|w: Seq<char>| w.len() > 0)
}

proof fn lemma_non_empty_all(pieces: Seq<Seq<char>>)
    requires
        forall|i: int| 0 <= i < pieces.len() ==> (#[trigger] pieces[i]).len() > 0,
    ensures
        non_empty_pieces(pieces) == pieces,
        non_empty_pieces(pieces.push(Seq::<char>::empty())) == pieces,
    decreases pieces.len(),
{
    reveal(Seq::filter);
    let q = pieces.push(Seq::<char>::empty());
    assert(q.drop_last() =~= pieces);
    if pieces.len() > 0 {
        let init = pieces.drop_last();
        assert forall|i: int| 0 <= i < init.len() implies (#[trigger] init[i]).len() > 0 by {
            assert(init[i] == pieces[i]);
        }
        lemma_non_empty_all(init);
        assert(pieces.last().len() > 0) by {
            assert(pieces[pieces.len() - 1] == pieces.last());
        }
        assert(init.push(pieces.last()) =~= pieces);
    } else {
        assert(pieces.filter(|w: Seq<char>| w.len() > 0) =~= pieces);
    }
}

/// Paths that are non-empty and hold no NUL, joined with NUL, parse back to
/// themselves, with or without a final NUL: a trailing NUL gives no
/// phantom entry.
pub proof fn law_nul_paths_round_trip(paths: Seq<Seq<char>>)
    requires
        forall|i: int| 0 <= i < paths.len() ==> (#[trigger] paths[i]).len() > 0 && !paths[i].contains('\0'),
    ensures
        non_empty_pieces(split(join(paths, '\0'), '\0')) == paths,
        non_empty_pieces(split(join(paths, '\0').push('\0'), '\0')) == paths,
{
    lemma_non_empty_all(paths);
    let j = join(paths, '\0');
    if paths.len() == 0 {
        let e = Seq::<char>::empty();
        assert(split(j, '\0') =~= paths.push(e));
        assert(j.push('\0').drop_last() =~= j);
        let two = paths.push(e).push(e);
        reveal(Seq::filter);
        assert(split(j.push('\0'), '\0') =~= two);
        assert(two.drop_last() =~= paths.push(e));
        assert(non_empty_pieces(two) == non_empty_pieces(paths.push(e)));
    } else {
        lemma_split_join(paths, '\0');
        assert(j.push('\0').drop_last() =~= j);
        assert(split(j.push('\0'), '\0') == paths.push(Seq::<char>::empty()));
    }
}

/// Split a NUL-separated path list into its non-empty paths.
pub fn parse_nul_paths(output: &str) -> (r: Vec<String>)
    ensures
        strs(r@) == non_empty_pieces(split(output@, '\0')),
{
    let chars = to_chars(output);
    let parts = split_chars(chars.as_slice(), '\0');
    let kept = drop_empty(parts);
    strings_of(&kept)
}

/// One entry of `git config --list -z`: the first LF separates key from
/// value; a valueless key has an empty value.
pub open spec fn config_entry(e: Seq<char>) -> Option<(Seq<char>, Seq<char>)> {
    if e.len() == 0 {
        None
    } else {
        match split_once(e, '\n') {
            Some((k, v)) => Some((k, v)),
            None => Some((e, Seq::<char>::empty())),
        }
    }
}

pub open spec fn config_list_model(output: Seq<char>) -> Seq<(Seq<char>, Seq<char>)> {
    filter_map(split(output, '\0'), |e: Seq<char>| config_entry(e))
}

/// Parse `git config --list -z` output into (key, value) pairs.
pub fn parse_config_list_z(output: &str) -> (r: Vec<(String, String)>)
    ensures
        seq_view(r@) == config_list_model(output@),
{
    let chars = to_chars(output);
    let recs = split_chars(chars.as_slice(), '\0');
    let ghost rs = views(recs@);
    let mut out: Vec<(String, String)> = Vec::new();
    let mut i: usize = 0;
    while i < recs.len()
        invariant
            rs == views(recs@),
            rs == split(output@, '\0'),
            0 <= i <= rs.len(),
            seq_view(out@) == filter_map(rs.take(i as int), |e: Seq<char>| config_entry(e)),
        decreases recs.len() - i,
    {
        proof {
            lemma_filter_map_step(rs, |e: Seq<char>| config_entry(e), i as int);
        }
        let rec = &recs[i];
        if rec.len() > 0 {
            let pair = match split_once_char(rec.as_slice(), '\n') {
                Some((k, v)) => (string_of(k.as_slice()), string_of(v.as_slice())),
                None => (string_of(rec.as_slice()), String::new()),
            };
            proof {
                lemma_seq_view_push(out@, pair);
            }
            out.push(pair);
        }
        i += 1;
    }
    assert(rs.take(rs.len() as int) =~= rs);
    out
}

/// ASCII letters and digits.
pub open spec fn is_ascii_alnum(c: char) -> bool {
    ('a' <= c && c <= 'z') || ('A' <= c && c <= 'Z') || ('0' <= c && c <= '9')
}

/// The accepted shape of a `git config` key: ASCII alphanumerics plus
/// `.`/`-`, at least one `.`, no leading `-`/`.`, no trailing `.`, no
/// empty dot segment.
pub open spec fn config_key_ok(key: Seq<char>) -> bool {
    &&& key.len() > 0
    &&& forall|i: int|
        0 <= i < key.len() ==> is_ascii_alnum(#[trigger] key[i]) || key[i] == '.' || key[i] == '-'
    &&& key[0] != '-' && key[0] != '.'
    &&& key.last() != '.'
    &&& !(exists|i: int| 0 <= i < key.len() - 1 && #[trigger] key[i] == '.' && key[i + 1] == '.')
    &&& exists|i: int| 0 <= i < key.len() && #[trigger] key[i] == '.'
}

/// Validate a `git config` key before it reaches argv (defense against
/// argument injection such as `--unset`).
pub fn config_key_valid(key: &str) -> (r: bool)
    ensures
        r == config_key_ok(key@),
{
    let k = to_chars(key);
    let n = k.len();
    if n == 0 {
        return false;
    }
    let mut i: usize = 0;
    let mut has_dot = false;
    while i < n
        invariant
            n == k@.len(),
            k@ == key@,
            0 <= i <= n,
            forall|j: int|
                0 <= j < i ==> is_ascii_alnum(#[trigger] k@[j]) || k@[j] == '.' || k@[j] == '-',
            !(exists|j: int| 0 <= j < i - 1 && #[trigger] k@[j] == '.' && k@[j + 1] == '.'),
            has_dot == (exists|j: int| 0 <= j < i && #[trigger] k@[j] == '.'),
        decreases n - i,
    {
        let c = k[i];
        if !((('a' <= c && c <= 'z') || ('A' <= c && c <= 'Z') || ('0' <= c && c <= '9')) || c
            == '.' || c == '-') {
            return false;
        }
        if c == '.' && i > 0 && k[i - 1] == '.' {
            assert(k@[i - 1] == '.' && k@[(i - 1) + 1] == '.');
            return false;
        }
        if c == '.' {
            has_dot = true;
        }
        i += 1;
    }
    k[0] != '-' && k[0] != '.' && k[n - 1] != '.' && has_dot
}

/// Parse `git rev-list --left-right --count A...B` → `(left, right)`.
pub open spec fn range_count_model(output: Seq<char>) -> (u32, u32) {
    let line = if lines(output).len() > 0 {
        lines(output)[0]
    } else {
        Seq::<char>::empty()
    };
    let w = words(line);
    (
        if w.len() > 0 {
            match parse_u32(w[0]) {
                Some(v) => v,
                None => 0,
            }
        } else {
            0
        },
        if w.len() > 1 {
            match parse_u32(w[1]) {
                Some(v) => v,
                None => 0,
            }
        } else {
            0
        },
    )
}

pub fn parse_range_count(output: &str) -> (r: (u32, u32))
    ensures
        r == range_count_model(output@),
{
    let chars = to_chars(output);
    let ls = split_lines(chars.as_slice());
    let line: Vec<char> = if ls.len() > 0 {
        slice_range(ls[0].as_slice(), 0, ls[0].len())
    } else {
        Vec::new()
    };
    assert(ls.len() > 0 ==> line@ =~= lines(output@)[0]);
    let w = split_words(line.as_slice());
    let left = if w.len() > 0 {
        u32_or_zero(w[0].as_slice())
    } else {
        0
    };
    let right = if w.len() > 1 {
        u32_or_zero(w[1].as_slice())
    } else {
        0
    };
    (left, right)
}

// =====================
// remotes
// =====================

/// Position of the first remote named `name`.
pub open spec fn remote_index(acc: Seq<RemoteInfoV>, name: Seq<char>, i: int) -> Option<int>
    decreases acc.len() - i,
{
    if i < 0 || i >= acc.len() {
        None
    } else if acc[i].name == name {
        Some(i)
    } else {
        remote_index(acc, name, i + 1)
    }
}

/// URL and kind (0 fetch, 1 push, 2 other) of the text after the TAB.
pub open spec fn remote_url_kind(rest: Seq<char>) -> (Seq<char>, int) {
    match rsplit_once(rest, ' ') {
        Some((u, k)) => if k == "(fetch)"@ {
            (u, 0)
        } else if k == "(push)"@ {
            (u, 1)
        } else {
            (rest, 2)
        },
        None => (rest, 2),
    }
}

/// One line of `git remote -v` folded into the remotes seen so far.
pub open spec fn remotes_step(acc: Seq<RemoteInfoV>, line: Seq<char>) -> Seq<RemoteInfoV> {
    if line.len() == 0 {
        acc
    } else {
        match split_once(line, '\t') {
            None => acc,
            Some((name, rest)) => {
                let (url, kind) = remote_url_kind(rest);
                match remote_index(acc, name, 0) {
                    Some(j) => if kind == 1 {
                        acc.update(j, RemoteInfoV { push_url: url, ..acc[j] })
                    } else if kind == 0 {
                        acc.update(j, RemoteInfoV { fetch_url: url, ..acc[j] })
                    } else {
                        acc
                    },
                    None => acc.push(
                        RemoteInfoV {
                            name,
                            url: Seq::<char>::empty(),
                            fetch_url: if kind == 1 {
                                Seq::<char>::empty()
                            } else {
                                url
                            },
                            push_url: if kind == 1 {
                                url
                            } else {
                                Seq::<char>::empty()
                            },
                        },
                    ),
                }
            },
        }
    }
}

pub open spec fn remotes_fold(ls: Seq<Seq<char>>) -> Seq<RemoteInfoV>
    decreases ls.len(),
{
    if ls.len() == 0 {
        Seq::<RemoteInfoV>::empty()
    } else {
        remotes_step(remotes_fold(ls.drop_last()), ls.last())
    }
}

pub open spec fn remotes_model(output: Seq<char>) -> Seq<RemoteInfoV> {
    remotes_fold(lines(output))
}

fn find_remote(acc: &Vec<RemoteInfo>, name: &[char]) -> (r: Option<usize>)
    ensures
        match r {
            Some(j) => remote_index(seq_view(acc@), name@, 0) == Some(j as int) && j
                < acc@.len(),
            None => remote_index(seq_view(acc@), name@, 0) is None,
        },
{
    let ghost a = seq_view(acc@);
    let mut j: usize = 0;
    while j < acc.len()
        invariant
            a == seq_view(acc@),
            0 <= j <= acc@.len(),
            remote_index(a, name@, 0) == remote_index(a, name@, j as int),
        decreases acc.len() - j,
    {
        let nm = to_chars(acc[j].name.as_str());
        if eq_chars(nm.as_slice(), name) {
            return Some(j);
        }
        j += 1;
    }
    None
}

/// Parse `git remote -v`: `name<TAB>url (fetch|push)`, merging the fetch
/// and push lines of each name into one entry (first appearance order).
pub fn parse_remotes(output: &str) -> (r: Vec<RemoteInfo>)
    ensures
        seq_view(r@) == remotes_model(output@),
{
    let chars = to_chars(output);
    let ls = split_lines(chars.as_slice());
    let fetch = to_chars("(fetch)");
    let push = to_chars("(push)");
    let ghost lv = views(ls@);
    let mut out: Vec<RemoteInfo> = Vec::new();
    let mut i: usize = 0;
    while i < ls.len()
        invariant
            lv == views(ls@),
            lv == lines(output@),
            fetch@ == "(fetch)"@,
            push@ == "(push)"@,
            0 <= i <= lv.len(),
            seq_view(out@) == remotes_fold(lv.take(i as int)),
        decreases ls.len() - i,
    {
        assert(lv.take(i + 1).drop_last() =~= lv.take(i as int));
        assert(lv.take(i + 1).last() == ls@[i as int]@);
        let ghost before = seq_view(out@);
        let line = &ls[i];
        if line.len() > 0 {
            match split_once_char(line.as_slice(), '\t') {
                None => {},
                Some((name, rest)) => {
                    let (url, kind): (Vec<char>, u8) = match rsplit_once_char(
                        rest.as_slice(),
                        ' ',
                    ) {
                        Some((u, k)) => {
                            if eq_chars(k.as_slice(), fetch.as_slice()) {
                                (u, 0)
                            } else if eq_chars(k.as_slice(), push.as_slice()) {
                                (u, 1)
                            } else {
                                (slice_range(rest.as_slice(), 0, rest.len()), 2)
                            }
                        },
                        None => (slice_range(rest.as_slice(), 0, rest.len()), 2),
                    };
                    assert(url@ =~= remote_url_kind(rest@).0);
                    assert(kind as int == remote_url_kind(rest@).1);
                    match find_remote(&out, name.as_slice()) {
                        Some(j) => {
                            if kind == 1 {
                                let old = &out[j];
                                let e = RemoteInfo {
                                    name: string_of(to_chars(old.name.as_str()).as_slice()),
                                    url: string_of(to_chars(old.url.as_str()).as_slice()),
                                    fetch_url: string_of(
                                        to_chars(old.fetch_url.as_str()).as_slice(),
                                    ),
                                    push_url: string_of(url.as_slice()),
                                };
                                out.set(j, e);
                                assert(seq_view(out@) =~= before.update(
                                    j as int,
                                    RemoteInfoV { push_url: url@, ..before[j as int] },
                                ));
                            } else if kind == 0 {
                                let old = &out[j];
                                let e = RemoteInfo {
                                    name: string_of(to_chars(old.name.as_str()).as_slice()),
                                    url: string_of(to_chars(old.url.as_str()).as_slice()),
                                    fetch_url: string_of(url.as_slice()),
                                    push_url: string_of(
                                        to_chars(old.push_url.as_str()).as_slice(),
                                    ),
                                };
                                out.set(j, e);
                                assert(seq_view(out@) =~= before.update(
                                    j as int,
                                    RemoteInfoV { fetch_url: url@, ..before[j as int] },
                                ));
                            }
                        },
                        None => {
                            let e = if kind == 1 {
                                RemoteInfo {
                                    name: string_of(name.as_slice()),
                                    url: String::new(),
                                    fetch_url: String::new(),
                                    push_url: string_of(url.as_slice()),
                                }
                            } else {
                                RemoteInfo {
                                    name: string_of(name.as_slice()),
                                    url: String::new(),
                                    fetch_url: string_of(url.as_slice()),
                                    push_url: String::new(),
                                }
                            };
                            proof {
                                lemma_seq_view_push(out@, e);
                            }
                            out.push(e);
                        },
                    }
                },
            }
        }
        i += 1;
    }
    assert(lv.take(lv.len() as int) =~= lv);
    out
}


// =====================
// ls-files -s -z
// =====================

pub open spec fn ls_record(rec: Seq<char>) -> Option<IndexEntryV> {
    if rec.len() == 0 {
        None
    } else {
        match split_once(rec, '\t') {
            None => None,
            Some((meta, path)) => {
                let w = words(meta);
                if w.len() < 3 || path.len() == 0 {
                    None
                } else {
                    match parse_u32(w[2]) {
                        Some(stage) => Some(
                            IndexEntryV { path, mode: w[0], sha: w[1], stage },
                        ),
                        None => None,
                    }
                }
            },
        }
    }
}

pub open spec fn ls_files_model(raw: Seq<char>) -> Seq<IndexEntryV> {
    filter_map(split(raw, '\0'), |r: Seq<char>| ls_record(r))
}

/// Parse `git ls-files -s -z`: `<mode> <sha> <stage>\t<path>` NUL-separated
/// records; malformed records are skipped.
pub fn parse_ls_files(raw: &str) -> (r: Vec<IndexEntry>)
    ensures
        seq_view(r@) == ls_files_model(raw@),
{
    let chars = to_chars(raw);
    let recs = split_chars(chars.as_slice(), '\0');
    let ghost rs = views(recs@);
    let mut out: Vec<IndexEntry> = Vec::new();
    let mut i: usize = 0;
    while i < recs.len()
        invariant
            rs == views(recs@),
            rs == split(raw@, '\0'),
            0 <= i <= rs.len(),
            seq_view(out@) == filter_map(rs.take(i as int), |r: Seq<char>| ls_record(r)),
        decreases recs.len() - i,
    {
        proof {
            lemma_filter_map_step(rs, |r: Seq<char>| ls_record(r), i as int);
        }
        let rec = &recs[i];
        if rec.len() > 0 {
            match split_once_char(rec.as_slice(), '\t') {
                None => {},
                Some((meta, path)) => {
                    let w = split_words(meta.as_slice());
                    if w.len() >= 3 && path.len() > 0 {
                        match parse_u32_chars(w[2].as_slice()) {
                            Some(stage) => {
                                let e = IndexEntry {
                                    path: string_of(path.as_slice()),
                                    mode: string_of(w[0].as_slice()),
                                    sha: string_of(w[1].as_slice()),
                                    stage,
                                };
                                proof {
                                    lemma_seq_view_push(out@, e);
                                }
                                out.push(e);
                            },
                            None => {},
                        }
                    }
                },
            }
        }
        i += 1;
    }
    assert(rs.take(rs.len() as int) =~= rs);
    out
}

// =====================
// diff --numstat -z paths
// =====================

/// Paths of the numstat records from token `i` on.
pub open spec fn numstat_paths_from(parts: Seq<Seq<char>>, i: int) -> Seq<Seq<char>>
    decreases parts.len() + 3 - i,
{
    if i < 0 || i >= parts.len() {
        Seq::<Seq<char>>::empty()
    } else {
        let fields = split(parts[i], '\t');
        if fields.len() < 2 {
            numstat_paths_from(parts, i + 1)
        } else if fields.len() >= 3 && fields[2].len() > 0 {
            seq![fields[2]] + numstat_paths_from(parts, i + 1)
        } else {
            (if i + 2 < parts.len() && parts[i + 2].len() > 0 {
                seq![parts[i + 2]]
            } else {
                Seq::<Seq<char>>::empty()
            }) + numstat_paths_from(parts, i + 3)
        }
    }
}

pub open spec fn numstat_paths_model(raw: Seq<char>) -> Seq<Seq<char>> {
    numstat_paths_from(split(raw, '\0'), 0)
}

/// Extract the changed paths from `git diff --numstat -z` output
/// (ordinary, binary and rename layouts).
pub fn parse_numstat_paths(raw: &str) -> (r: Vec<String>)
    ensures
        strs(r@) == numstat_paths_model(raw@),
{
    let chars = to_chars(raw);
    let parts = split_chars(chars.as_slice(), '\0');
    let ghost ps = views(parts@);
    let mut out: Vec<String> = Vec::new();
    let mut i: usize = 0;
    while i < parts.len()
        invariant
            ps == views(parts@),
            ps == split(raw@, '\0'),
            0 <= i <= ps.len(),
            strs(out@) + numstat_paths_from(ps, i as int) == numstat_paths_from(ps, 0),
        decreases parts.len() - i,
    {
        let ghost before = strs(out@);
        let fields = split_chars(parts[i].as_slice(), '\t');
        if fields.len() < 2 {
            i += 1;
        } else if fields.len() >= 3 && fields[2].len() > 0 {
            let p = string_of(fields[2].as_slice());
            out.push(p);
            assert(strs(out@) =~= before + seq![p@]);
            assert(strs(out@) + numstat_paths_from(ps, i + 1) =~= before + (seq![fields@[2]@]
                + numstat_paths_from(ps, i + 1)));
            i += 1;
        } else {
            if parts.len() - i > 2 && parts[i + 2].len() > 0 {
                let p = string_of(parts[i + 2].as_slice());
                out.push(p);
                assert(strs(out@) =~= before + seq![p@]);
                assert(strs(out@) + numstat_paths_from(ps, i + 3) =~= before + (seq![
                    ps[i + 2],
                ] + numstat_paths_from(ps, i + 3)));
            } else {
                assert(before + numstat_paths_from(ps, i + 3) =~= before + (
                Seq::<Seq<char>>::empty() + numstat_paths_from(ps, i + 3)));
            }
            if parts.len() - i <= 3 {
                assert(numstat_paths_from(ps, i + 3) =~= Seq::<Seq<char>>::empty());
                assert(strs(out@) =~= strs(out@) + numstat_paths_from(ps, i + 3));
                return out;
            }
            i += 3;
        }
    }
    assert(strs(out@) =~= strs(out@) + numstat_paths_from(ps, i as int));
    out
}

// =====================
// diff-tree --name-status -z
// =====================

/// Changed files of the name-status token stream from token `i` on.
pub open spec fn commit_files_from(toks: Seq<Seq<char>>, i: int) -> Seq<CommitFileStatV>
    decreases toks.len() - i,
{
    if i < 0 || i >= toks.len() || toks[i].len() == 0 || i + 1 >= toks.len() {
        Seq::<CommitFileStatV>::empty()
    } else {
        let st = toks[i];
        let letter = seq![st[0]];
        if st[0] == 'R' || st[0] == 'C' {
            if i + 2 >= toks.len() {
                Seq::<CommitFileStatV>::empty()
            } else {
                seq![
                    CommitFileStatV {
                        status: letter,
                        score: parse_u32(st.skip(1)),
                        path: toks[i + 2],
                        orig_path: Some(toks[i + 1]),
                    },
                ] + commit_files_from(toks, i + 3)
            }
        } else {
            seq![
                CommitFileStatV {
                    status: letter,
                    score: None,
                    path: toks[i + 1],
                    orig_path: None,
                },
            ] + commit_files_from(toks, i + 2)
        }
    }
}

pub open spec fn commit_files_model(output: Seq<char>) -> Seq<CommitFileStatV> {
    commit_files_from(split(output, '\0'), 0)
}

/// Parse `git diff-tree -r --root -M -z --name-status <hash>` output.
pub fn parse_commit_files(output: &str) -> (r: Vec<CommitFileStat>)
    ensures
        seq_view(r@) == commit_files_model(output@),
{
    let chars = to_chars(output);
    let toks = split_chars(chars.as_slice(), '\0');
    let ghost ts = views(toks@);
    let mut out: Vec<CommitFileStat> = Vec::new();
    let mut i: usize = 0;
    while i < toks.len()
        invariant
            ts == views(toks@),
            ts == split(output@, '\0'),
            seq_view(out@) + commit_files_from(ts, i as int) == commit_files_from(ts, 0),
        decreases toks.len() - i,
    {
        let ghost before = seq_view(out@);
        let st = &toks[i];
        if st.len() == 0 || i + 1 >= toks.len() {
            assert(commit_files_from(ts, i as int) =~= Seq::<CommitFileStatV>::empty());
            assert(seq_view(out@) =~= seq_view(out@) + commit_files_from(ts, i as int));
            return out;
        }
        let c0 = st[0];
        let mut letter = String::new();
        push_char(&mut letter, c0);
        if c0 == 'R' || c0 == 'C' {
            if i + 2 >= toks.len() {
                assert(commit_files_from(ts, i as int) =~= Seq::<CommitFileStatV>::empty());
                assert(seq_view(out@) =~= seq_view(out@) + commit_files_from(ts, i as int));
                return out;
            }
            let rest = slice_range(st.as_slice(), 1, st.len());
            assert(rest@ =~= st@.skip(1));
            let score = parse_u32_chars(rest.as_slice());
            let e = CommitFileStat {
                status: letter,
                score,
                path: string_of(toks[i + 2].as_slice()),
                orig_path: Some(string_of(toks[i + 1].as_slice())),
            };
            proof {
                lemma_seq_view_push(out@, e);
            }
            out.push(e);
            assert(seq_view(out@) + commit_files_from(ts, i + 3) =~= before + (seq![e@]
                + commit_files_from(ts, i + 3)));
            if toks.len() - i <= 3 {
                assert(commit_files_from(ts, i + 3) =~= Seq::<CommitFileStatV>::empty());
                assert(seq_view(out@) =~= seq_view(out@) + commit_files_from(ts, i + 3));
                return out;
            }
            i += 3;
        } else {
            let e = CommitFileStat {
                status: letter,
                score: None,
                path: string_of(toks[i + 1].as_slice()),
                orig_path: None,
            };
            proof {
                lemma_seq_view_push(out@, e);
            }
            out.push(e);
            assert(seq_view(out@) + commit_files_from(ts, i + 2) =~= before + (seq![e@]
                + commit_files_from(ts, i + 2)));
            i += 2;
        }
    }
    assert(seq_view(out@) =~= seq_view(out@) + commit_files_from(ts, i as int));
    out
}

// =====================
// log
// =====================

/// Removes leading and trailing `(` / `)` characters.
pub open spec fn is_paren(c: char) -> bool {
    c == '(' || c == ')'
}

pub open spec fn trim_parens_start(s: Seq<char>) -> Seq<char>
    decreases s.len(),
{
    if s.len() > 0 && is_paren(s[0]) {
        trim_parens_start(s.skip(1))
    } else {
        s
    }
}

pub open spec fn trim_parens_end(s: Seq<char>) -> Seq<char>
    decreases s.len(),
{
    if s.len() > 0 && is_paren(s.last()) {
        trim_parens_end(s.drop_last())
    } else {
        s
    }
}

/// The ref names of a `%d` decoration: `(HEAD -> main, origin/main)`.
pub open spec fn decoration_refs(d: Seq<char>) -> Seq<Seq<char>> {
    split_str(trim_parens_end(trim_parens_start(d)), ", "@).filter(|w: Seq<char>| w.len() > 0)
}

pub open spec fn log_commit(ls: Seq<Seq<char>>, i: int) -> CommitInfoV {
    CommitInfoV {
        hash: ls[i],
        short_hash: ls[i + 1],
        author: ls[i + 2],
        email: ls[i + 3],
        date: ls[i + 4],
        message: ls[i + 5],
        refs: decoration_refs(ls[i + 6]),
        parents: words(ls[i + 7]),
    }
}

/// Commits of the 8-lines-per-commit log from line `i` on.
pub open spec fn log_from(ls: Seq<Seq<char>>, i: int) -> Seq<CommitInfoV>
    decreases ls.len() - i,
{
    if i < 0 || i + 8 > ls.len() || ls[i].len() == 0 {
        Seq::<CommitInfoV>::empty()
    } else {
        seq![log_commit(ls, i)] + log_from(ls, i + 8)
    }
}

pub open spec fn log_model(output: Seq<char>) -> Seq<CommitInfoV> {
    log_from(lines(output), 0)
}

fn trim_parens(s: &[char]) -> (r: Vec<char>)
    ensures
        r@ == trim_parens_end(trim_parens_start(s@)),
{
    let mut lo: usize = 0;
    assert(s@.skip(0) =~= s@);
    while lo < s.len() && (s[lo] == '(' || s[lo] == ')')
        invariant
            0 <= lo <= s@.len(),
            trim_parens_start(s@) == trim_parens_start(s@.skip(lo as int)),
        decreases s.len() - lo,
    {
        assert(s@.skip(lo as int).skip(1) =~= s@.skip(lo + 1));
        lo += 1;
    }
    let ghost st = s@.skip(lo as int);
    let mut hi: usize = s.len();
    assert(st.take(st.len() as int) =~= st);
    while hi > lo && (s[hi - 1] == '(' || s[hi - 1] == ')')
        invariant
            lo <= hi <= s@.len(),
            st == s@.skip(lo as int),
            trim_parens_end(st) == trim_parens_end(st.take(hi - lo)),
        decreases hi,
    {
        assert(st.take(hi - lo).drop_last() =~= st.take(hi - lo - 1));
        hi -= 1;
    }
    assert(st.take(hi - lo) =~= s@.subrange(lo as int, hi as int));
    slice_range(s, lo, hi)
}

/// Parse `git log --format=%H%n%h%n%an%n%ae%n%aI%n%s%n%d%n%P` output:
/// 8 lines per commit; parsing stops at an empty hash line.
pub fn parse_log(output: &str) -> (r: Vec<CommitInfo>)
    ensures
        seq_view(r@) == log_model(output@),
{
    let chars = to_chars(output);
    let ls = split_lines(chars.as_slice());
    let sep = to_chars(", ");
    proof {
        reveal_strlit(", ");
    }
    let ghost lv = views(ls@);
    let mut out: Vec<CommitInfo> = Vec::new();
    let mut i: usize = 0;
    while ls.len() - i >= 8
        invariant
            lv == views(ls@),
            lv == lines(output@),
            0 <= i <= lv.len(),
            sep@ == ", "@,
            sep@.len() == 2,
            seq_view(out@) + log_from(lv, i as int) == log_from(lv, 0),
        decreases ls.len() - i,
    {
        if ls[i].len() == 0 {
            assert(log_from(lv, i as int) =~= Seq::<CommitInfoV>::empty());
            assert(seq_view(out@) =~= seq_view(out@) + log_from(lv, i as int));
            return out;
        }
        let ghost before = seq_view(out@);
        let trimmed = trim_parens(ls[i + 6].as_slice());
        let pieces = split_str_chars(trimmed.as_slice(), sep.as_slice());
        let kept = drop_empty(pieces);
        let refs = strings_of(&kept);
        let parent_words = split_words(ls[i + 7].as_slice());
        let parents = strings_of(&parent_words);
        let c = CommitInfo {
            hash: string_of(ls[i].as_slice()),
            short_hash: string_of(ls[i + 1].as_slice()),
            author: string_of(ls[i + 2].as_slice()),
            email: string_of(ls[i + 3].as_slice()),
            date: string_of(ls[i + 4].as_slice()),
            message: string_of(ls[i + 5].as_slice()),
            refs,
            parents,
        };
        assert(c@ == log_commit(lv, i as int));
        proof {
            lemma_seq_view_push(out@, c);
        }
        out.push(c);
        assert(seq_view(out@) + log_from(lv, i + 8) =~= before + (seq![c@] + log_from(
            lv,
            i + 8,
        )));
        i += 8;
    }
    assert(log_from(lv, i as int) =~= Seq::<CommitInfoV>::empty());
    assert(seq_view(out@) =~= seq_view(out@) + log_from(lv, i as int));
    out
}


// =====================
// status --porcelain=v2 -z
// =====================

/// The `X` status byte of an `XY` field equals the ASCII character `c`
/// (`.` when the field is empty).
pub open spec fn x_is(xy: Seq<char>, c: char) -> bool {
    if xy.len() == 0 {
        c == '.'
    } else {
        xy[0] == c
    }
}

/// The `Y` status byte (second byte) of an `XY` field equals the ASCII
/// character `c` (`.` when the field has fewer than two bytes).
pub open spec fn y_is(xy: Seq<char>, c: char) -> bool {
    if xy.len() == 0 || (xy.len() == 1 && is_ascii_char(xy[0])) {
        c == '.'
    } else {
        is_ascii_char(xy[0]) && xy[1] == c
    }
}

pub open spec fn file_status(
    xy: Seq<char>,
    sub: Seq<char>,
    path: Seq<char>,
    orig_path: Option<Seq<char>>,
    conflict: bool,
) -> FileStatusV {
    let submodule = sub.len() > 0 && sub[0] == 'S';
    FileStatusV {
        path,
        status: xy,
        orig_path,
        submodule,
        submodule_dirty: submodule && (contains(sub, seq!['M']) || contains(sub, seq!['U'])),
        submodule_commit_changed: submodule && contains(sub, seq!['C']),
        eol_only: false,
        staged: conflict || (!x_is(xy, '.') && !x_is(xy, '?')),
        unstaged: conflict || (!y_is(xy, '.') && !y_is(xy, '?')),
        untracked: false,
        skipped: x_is(xy, 'S') || y_is(xy, 'S'),
        conflict,
    }
}

/// `1 <XY> <sub> <mH> <mI> <mW> <hH> <hI> <path>`.
pub open spec fn v2_ordinary(rec: Seq<char>) -> Option<FileStatusV> {
    match strip_prefix(rec, seq!['1', ' ']) {
        Some(rest) => {
            let f = split(rest, ' ');
            if f.len() < 8 {
                None
            } else {
                Some(file_status(f[0], f[1], f[7], None, false))
            }
        },
        None => None,
    }
}

/// `2 <XY> <sub> <mH> <mI> <mW> <hH> <hI> <X><score> <path>` + `<origPath>`.
pub open spec fn v2_rename(rest: Seq<char>, orig: Seq<char>) -> Option<FileStatusV> {
    let f = split(rest, ' ');
    if f.len() < 9 {
        None
    } else {
        Some(file_status(f[0], f[1], f[8], non_empty(orig), false))
    }
}

/// `u <XY> <sub> <m1> <m2> <m3> <mW> <h1> <h2> <h3> <path>`.
pub open spec fn v2_unmerged(rec: Seq<char>) -> Option<FileStatusV> {
    match strip_prefix(rec, seq!['u', ' ']) {
        Some(rest) => {
            let f = split(rest, ' ');
            if f.len() < 10 {
                None
            } else {
                Some(file_status(f[0], f[1], f[9], None, true))
            }
        },
        None => None,
    }
}

pub open spec fn untracked_status(path: Seq<char>) -> FileStatusV {
    FileStatusV {
        path,
        status: seq!['?'],
        orig_path: None,
        submodule: false,
        submodule_dirty: false,
        submodule_commit_changed: false,
        eol_only: false,
        staged: false,
        unstaged: false,
        untracked: true,
        skipped: false,
        conflict: false,
    }
}

pub open spec fn opt_seq<A>(o: Option<A>) -> Seq<A> {
    match o {
        Some(a) => seq![a],
        None => Seq::<A>::empty(),
    }
}

/// Entries of the status record stream from record `i` on.
pub open spec fn status_from(parts: Seq<Seq<char>>, i: int) -> Seq<FileStatusV>
    decreases parts.len() + 2 - i,
{
    if i < 0 || i >= parts.len() {
        Seq::<FileStatusV>::empty()
    } else {
        let rec = parts[i];
        if rec.len() == 0 {
            status_from(parts, i + 1)
        } else if starts_with(rec, seq!['2', ' ']) {
            let orig = if i + 1 < parts.len() {
                parts[i + 1]
            } else {
                Seq::<char>::empty()
            };
            opt_seq(v2_rename(rec.skip(2), orig)) + status_from(parts, i + 2)
        } else if rec[0] == '1' {
            opt_seq(v2_ordinary(rec)) + status_from(parts, i + 1)
        } else if rec[0] == 'u' {
            opt_seq(v2_unmerged(rec)) + status_from(parts, i + 1)
        } else if rec[0] == '?' {
            (if rec.skip(2).len() > 0 {
                seq![untracked_status(rec.skip(2))]
            } else {
                Seq::<FileStatusV>::empty()
            }) + status_from(parts, i + 1)
        } else {
            status_from(parts, i + 1)
        }
    }
}

/// Every untracked (`?`) record the walk reads has its path at byte 2
/// (the original slices the record there, which panics otherwise).
pub open spec fn status_records_ok(parts: Seq<Seq<char>>, i: int) -> bool
    decreases parts.len() + 2 - i,
{
    if i < 0 || i >= parts.len() {
        true
    } else {
        let rec = parts[i];
        if rec.len() == 0 {
            status_records_ok(parts, i + 1)
        } else if starts_with(rec, seq!['2', ' ']) {
            status_records_ok(parts, i + 2)
        } else if rec[0] == '?' {
            rec.len() >= 2 && is_ascii_char(rec[1]) && status_records_ok(parts, i + 1)
        } else {
            status_records_ok(parts, i + 1)
        }
    }
}

pub open spec fn status_model(raw: Seq<char>) -> Seq<FileStatusV> {
    status_from(split(raw, '\0'), 0)
}

fn x_byte_is(xy: &[char], c: char) -> (r: bool)
    ensures
        r == x_is(xy@, c),
{
    if xy.len() == 0 {
        c == '.'
    } else {
        xy[0] == c
    }
}

fn y_byte_is(xy: &[char], c: char) -> (r: bool)
    ensures
        r == y_is(xy@, c),
{
    if xy.len() == 0 || (xy.len() == 1 && (xy[0] as u32) < 128) {
        c == '.'
    } else {
        (xy[0] as u32) < 128 && xy[1] == c
    }
}

fn build_file_status(
    xy: &[char],
    sub: &[char],
    path: &[char],
    orig_path: Option<String>,
    conflict: bool,
) -> (r: FileStatus)
    ensures
        r@ == file_status(xy@, sub@, path@, opt_str(orig_path), conflict),
{
    let submodule = sub.len() > 0 && sub[0] == 'S';
    let has_m = find_char(sub, 'M').is_some();
    let has_u = find_char(sub, 'U').is_some();
    let has_c = find_char(sub, 'C').is_some();
    FileStatus {
        path: string_of(path),
        status: string_of(xy),
        orig_path,
        submodule,
        submodule_dirty: submodule && (has_m || has_u),
        submodule_commit_changed: submodule && has_c,
        eol_only: false,
        staged: conflict || (!x_byte_is(xy, '.') && !x_byte_is(xy, '?')),
        unstaged: conflict || (!y_byte_is(xy, '.') && !y_byte_is(xy, '?')),
        untracked: false,
        skipped: x_byte_is(xy, 'S') || y_byte_is(xy, 'S'),
        conflict,
    }
}

fn parse_v2_ordinary(rec: &[char]) -> (r: Option<FileStatus>)
    ensures
        match r {
            Some(f) => v2_ordinary(rec@) == Some(f@),
            None => v2_ordinary(rec@) is None,
        },
{
    let pfx = vec!['1', ' '];
    assert(pfx@ == seq!['1', ' ']);
    match strip_prefix_chars(rec, pfx.as_slice()) {
        Some(rest) => {
            let f = split_chars(rest.as_slice(), ' ');
            if f.len() < 8 {
                None
            } else {
                Some(build_file_status(f[0].as_slice(), f[1].as_slice(), f[7].as_slice(), None, false))
            }
        },
        None => None,
    }
}

fn parse_v2_rename(rest: &[char], orig: &[char]) -> (r: Option<FileStatus>)
    ensures
        match r {
            Some(f) => v2_rename(rest@, orig@) == Some(f@),
            None => v2_rename(rest@, orig@) is None,
        },
{
    let f = split_chars(rest, ' ');
    if f.len() < 9 {
        None
    } else {
        let o = opt_string(orig);
        Some(build_file_status(f[0].as_slice(), f[1].as_slice(), f[8].as_slice(), o, false))
    }
}

fn parse_v2_unmerged(rec: &[char]) -> (r: Option<FileStatus>)
    ensures
        match r {
            Some(f) => v2_unmerged(rec@) == Some(f@),
            None => v2_unmerged(rec@) is None,
        },
{
    let pfx = vec!['u', ' '];
    assert(pfx@ == seq!['u', ' ']);
    match strip_prefix_chars(rec, pfx.as_slice()) {
        Some(rest) => {
            let f = split_chars(rest.as_slice(), ' ');
            if f.len() < 10 {
                None
            } else {
                Some(build_file_status(f[0].as_slice(), f[1].as_slice(), f[9].as_slice(), None, true))
            }
        },
        None => None,
    }
}

fn push_opt_status(out: &mut Vec<FileStatus>, o: Option<FileStatus>)
    ensures
        seq_view(final(out)@) == seq_view(old(out)@) + opt_seq(
            match o {
                Some(f) => Some(f@),
                None => None,
            },
        ),
{
    match o {
        Some(f) => {
            proof {
                lemma_seq_view_push(out@, f);
            }
            out.push(f);
            assert(seq_view(out@) =~= seq_view(old(out)@) + seq![f@]);
        },
        None => {
            assert(seq_view(out@) =~= seq_view(old(out)@) + Seq::<FileStatusV>::empty());
        },
    }
}

/// Parse `git status --porcelain=v2 -z` output (ordinary, rename, unmerged
/// and untracked entries; ignored entries are skipped).
pub fn parse_status(raw: &str) -> (r: Vec<FileStatus>)
    requires
        status_records_ok(split(raw@, '\0'), 0),
    ensures
        seq_view(r@) == status_model(raw@),
{
    let chars = to_chars(raw);
    let parts = split_chars(chars.as_slice(), '\0');
    let two = vec!['2', ' '];
    let ghost ps = views(parts@);
    let mut out: Vec<FileStatus> = Vec::new();
    let mut i: usize = 0;
    while i < parts.len()
        invariant
            ps == views(parts@),
            ps == split(raw@, '\0'),
            two@ == seq!['2', ' '],
            0 <= i <= ps.len(),
            status_records_ok(ps, i as int),
            seq_view(out@) + status_from(ps, i as int) == status_from(ps, 0),
        decreases parts.len() - i,
    {
        let ghost before = seq_view(out@);
        let rec = &parts[i];
        if rec.len() == 0 {
            i += 1;
        } else if has_prefix(rec.as_slice(), two.as_slice()) {
            let empty: Vec<char> = Vec::new();
            let orig: &[char] = if i + 1 < parts.len() {
                parts[i + 1].as_slice()
            } else {
                empty.as_slice()
            };
            let rest = slice_range(rec.as_slice(), 2, rec.len());
            assert(rest@ =~= rec@.skip(2));
            let fs = parse_v2_rename(rest.as_slice(), orig);
            push_opt_status(&mut out, fs);
            if parts.len() - i <= 2 {
                assert(status_from(ps, i + 2) =~= Seq::<FileStatusV>::empty());
                assert(seq_view(out@) =~= seq_view(out@) + status_from(ps, i + 2));
                return out;
            }
            i += 2;
        } else if rec[0] == '1' {
            let fs = parse_v2_ordinary(rec.as_slice());
            push_opt_status(&mut out, fs);
            i += 1;
        } else if rec[0] == 'u' {
            let fs = parse_v2_unmerged(rec.as_slice());
            push_opt_status(&mut out, fs);
            i += 1;
        } else if rec[0] == '?' {
            let path = slice_range(rec.as_slice(), 2, rec.len());
            assert(path@ =~= rec@.skip(2));
            if path.len() > 0 {
                let p = string_of(path.as_slice());
                let q = String::new();
                let mut st = String::new();
                push_char(&mut st, '?');
                let f = FileStatus {
                    path: p,
                    status: st,
                    orig_path: None,
                    submodule: false,
                    submodule_dirty: false,
                    submodule_commit_changed: false,
                    eol_only: false,
                    staged: false,
                    unstaged: false,
                    untracked: true,
                    skipped: false,
                    conflict: false,
                };
                assert(f@ == untracked_status(rec@.skip(2)));
                push_opt_status(&mut out, Some(f));
            } else {
                push_opt_status(&mut out, None);
            }
            i += 1;
        } else {
            i += 1;
        }
    }
    assert(seq_view(out@) =~= seq_view(out@) + status_from(ps, i as int));
    out
}

// =====================
// log --numstat -z
// =====================

/// `s.trim_start_matches(['\n', '\r'])`.
pub open spec fn trim_newlines_start(s: Seq<char>) -> Seq<char>
    decreases s.len(),
{
    if s.len() > 0 && (s[0] == '\n' || s[0] == '\r') {
        trim_newlines_start(s.skip(1))
    } else {
        s
    }
}

/// Field `k`, or empty text when there are fewer fields.
pub open spec fn field(f: Seq<Seq<char>>, k: int) -> Seq<char> {
    if 0 <= k < f.len() {
        f[k]
    } else {
        Seq::<char>::empty()
    }
}

pub open spec fn u32_or_zero_of(s: Seq<char>) -> u32 {
    match parse_u32(s) {
        Some(v) => v,
        None => 0,
    }
}

/// File stats of the numstat token stream from token `i` on.
pub open spec fn numstat_files_from(t: Seq<Seq<char>>, i: int) -> Seq<NumstatFileV>
    decreases t.len() + 3 - i,
{
    if i < 0 || i >= t.len() {
        Seq::<NumstatFileV>::empty()
    } else {
        let tok = t[i];
        let fields = split(tok, '\t');
        if tok.len() == 0 || fields.len() < 3 {
            numstat_files_from(t, i + 1)
        } else {
            let binary = fields[0] == seq!['-'];
            let additions = u32_or_zero_of(fields[0]);
            let deletions = u32_or_zero_of(fields[1]);
            if fields[2].len() == 0 {
                let orig = field(t, i + 1);
                let path = field(t, i + 2);
                (if path.len() > 0 {
                    seq![
                        NumstatFileV {
                            path,
                            orig_path: non_empty(orig),
                            additions,
                            deletions,
                            binary,
                        },
                    ]
                } else {
                    Seq::<NumstatFileV>::empty()
                }) + numstat_files_from(t, i + 3)
            } else {
                seq![
                    NumstatFileV {
                        path: fields[2],
                        orig_path: None,
                        additions,
                        deletions,
                        binary,
                    },
                ] + numstat_files_from(t, i + 1)
            }
        }
    }
}

pub open spec fn numstat_section(raw: Seq<char>) -> Seq<NumstatFileV> {
    numstat_files_from(split(trim_newlines_start(raw), '\0'), 0)
}

/// One `\x1e`-opened commit record of the report collector's log.
pub open spec fn numstat_commit(record: Seq<char>) -> Option<NumstatCommitV> {
    if record.len() == 0 {
        None
    } else {
        match find(record, seq!['\0']) {
            None => None,
            Some(nul) => {
                let fields = split(record.take(nul), '\x1f');
                let hash = fields[0];
                if hash.len() == 0 {
                    None
                } else {
                    Some(
                        NumstatCommitV {
                            hash,
                            short_hash: if hash.len() <= 7 {
                                hash
                            } else {
                                hash.take(7)
                            },
                            author: field(fields, 1),
                            email: field(fields, 2),
                            date: field(fields, 3),
                            subject: if fields.len() > 4 {
                                join(fields.skip(4), '\x1f')
                            } else {
                                Seq::<char>::empty()
                            },
                            repo: Seq::<char>::empty(),
                            files: numstat_section(record.skip(nul + 1)),
                        },
                    )
                }
            },
        }
    }
}

pub open spec fn log_numstat_model(raw: Seq<char>) -> Seq<NumstatCommitV> {
    filter_map(split(raw, '\x1e'), |r: Seq<char>| numstat_commit(r))
}

fn field_of(f: &Vec<Vec<char>>, k: usize) -> (r: String)
    ensures
        r@ == field(views(f@), k as int),
{
    if k < f.len() {
        string_of(f[k].as_slice())
    } else {
        String::new()
    }
}

fn parse_numstat_section(raw: &[char]) -> (r: Vec<NumstatFile>)
    ensures
        seq_view(r@) == numstat_section(raw@),
{
    let mut lo: usize = 0;
    assert(raw@.skip(0) =~= raw@);
    while lo < raw.len() && (raw[lo] == '\n' || raw[lo] == '\r')
        invariant
            0 <= lo <= raw@.len(),
            trim_newlines_start(raw@) == trim_newlines_start(raw@.skip(lo as int)),
        decreases raw.len() - lo,
    {
        assert(raw@.skip(lo as int).skip(1) =~= raw@.skip(lo + 1));
        lo += 1;
    }
    let body = slice_range(raw, lo, raw.len());
    assert(body@ =~= raw@.skip(lo as int));
    let toks = split_chars(body.as_slice(), '\0');
    let dash = vec!['-'];
    let ghost ts = views(toks@);
    let mut out: Vec<NumstatFile> = Vec::new();
    let mut i: usize = 0;
    while i < toks.len()
        invariant
            ts == views(toks@),
            ts == split(trim_newlines_start(raw@), '\0'),
            dash@ == seq!['-'],
            0 <= i <= ts.len(),
            seq_view(out@) + numstat_files_from(ts, i as int) == numstat_files_from(ts, 0),
        decreases toks.len() - i,
    {
        let ghost before = seq_view(out@);
        let tok = &toks[i];
        let fields = split_chars(tok.as_slice(), '\t');
        assert(ts[i as int] == tok@);
        if tok.len() == 0 || fields.len() < 3 {
            assert(numstat_files_from(ts, i as int) == numstat_files_from(ts, i + 1));
            i += 1;
        } else {
            let binary = eq_chars(fields[0].as_slice(), dash.as_slice());
            let additions = u32_or_zero(fields[0].as_slice());
            let deletions = u32_or_zero(fields[1].as_slice());
            let ghost fv = split(ts[i as int], '\t');
            assert(fv == views(fields@));
            assert(fv[0] == fields@[0]@ && fv[1] == fields@[1]@ && fv[2] == fields@[2]@);
            assert(binary == (fv[0] == seq!['-']));
            assert(additions == u32_or_zero_of(fv[0]));
            assert(deletions == u32_or_zero_of(fv[1]));
            if fields[2].len() == 0 {
                let orig = field_of(&toks, i + 1);
                let path = if toks.len() - i > 2 {
                    string_of(toks[i + 2].as_slice())
                } else {
                    String::new()
                };
                assert(orig@ == field(ts, i + 1));
                assert(path@ == field(ts, i + 2));
                if !path.as_str().is_empty() {
                    let o = if !orig.as_str().is_empty() {
                        Some(orig)
                    } else {
                        None
                    };
                    let f = NumstatFile { path, orig_path: o, additions, deletions, binary };
                    proof {
                        lemma_seq_view_push(out@, f);
                    }
                    out.push(f);
                    assert(seq_view(out@) + numstat_files_from(ts, i + 3) =~= before + (seq![f@]
                        + numstat_files_from(ts, i + 3)));
                } else {
                    assert(before + numstat_files_from(ts, i + 3) =~= before + (
                    Seq::<NumstatFileV>::empty() + numstat_files_from(ts, i + 3)));
                }
                if toks.len() - i <= 3 {
                    assert(numstat_files_from(ts, i + 3) =~= Seq::<NumstatFileV>::empty());
                    assert(seq_view(out@) =~= seq_view(out@) + numstat_files_from(ts, i + 3));
                    return out;
                }
                i += 3;
            } else {
                let f = NumstatFile {
                    path: string_of(fields[2].as_slice()),
                    orig_path: None,
                    additions,
                    deletions,
                    binary,
                };
                proof {
                    lemma_seq_view_push(out@, f);
                }
                out.push(f);
                assert(seq_view(out@) + numstat_files_from(ts, i + 1) =~= before + (seq![f@]
                    + numstat_files_from(ts, i + 1)));
                i += 1;
            }
        }
    }
    assert(seq_view(out@) =~= seq_view(out@) + numstat_files_from(ts, i as int));
    out
}

fn join_from(f: &Vec<Vec<char>>, start: usize, sep: char) -> (r: String)
    requires
        start < f@.len(),
    ensures
        r@ == join(views(f@).skip(start as int), sep),
{
    let ghost fs = views(f@).skip(start as int);
    let n: usize = f.len();
    let mut r = string_of(f[start].as_slice());
    let mut k: usize = start + 1;
    assert(fs.take(1) =~= seq![fs[0]]);
    while k < f.len()
        invariant
            fs == views(f@).skip(start as int),
            start < k <= f@.len(),
            r@ == join(fs.take(k - start), sep),
        decreases f.len() - k,
    {
        let ghost prev = fs.take(k - start);
        assert(fs.take(k - start + 1).drop_last() =~= prev);
        assert(fs.take(k - start + 1).last() == f@[k as int]@);
        push_char(&mut r, sep);
        push_chars(&mut r, f[k].as_slice());
        k += 1;
    }
    assert(fs.take(k - start) =~= fs);
    r
}

/// Parse `git log --all --numstat -z --format=%x1e%H%x1f%an%x1f%ae%x1f%aI%x1f%s`
/// into commit records with per-file stats; a record without its
/// NUL-terminated header (truncated tail) is skipped.
pub fn parse_log_numstat(raw: &str) -> (r: Vec<NumstatCommit>)
    ensures
        seq_view(r@) == log_numstat_model(raw@),
{
    let chars = to_chars(raw);
    let recs = split_chars(chars.as_slice(), '\x1e');
    let ghost rs = views(recs@);
    let mut out: Vec<NumstatCommit> = Vec::new();
    let mut i: usize = 0;
    while i < recs.len()
        invariant
            rs == views(recs@),
            rs == split(raw@, '\x1e'),
            0 <= i <= rs.len(),
            seq_view(out@) == filter_map(rs.take(i as int), |r: Seq<char>| numstat_commit(r)),
        decreases recs.len() - i,
    {
        proof {
            lemma_filter_map_step(rs, |r: Seq<char>| numstat_commit(r), i as int);
        }
        let rec = &recs[i];
        if rec.len() > 0 {
            match find_char(rec.as_slice(), '\0') {
                None => {},
                Some(nul) => {
                    proof {
                        lemma_find_occurs(rec@, seq!['\0']);
                        assert(seq!['\0'].len() == 1);
                        lemma_split_len(rec@.take(nul as int), '\x1f');
                    }
                    let head = slice_range(rec.as_slice(), 0, nul);
                    assert(head@ =~= rec@.take(nul as int));
                    let fields = split_chars(head.as_slice(), '\x1f');
                    if fields[0].len() > 0 {
                        let hash = string_of(fields[0].as_slice());
                        let short_hash = if fields[0].len() <= 7 {
                            string_of(fields[0].as_slice())
                        } else {
                            string_of_range(fields[0].as_slice(), 0, 7)
                        };
                        let subject = if fields.len() > 4 {
                            join_from(&fields, 4, '\x1f')
                        } else {
                            String::new()
                        };
                        let body = slice_range(rec.as_slice(), nul + 1, rec.len());
                        assert(body@ =~= rec@.skip(nul + 1));
                        let files = parse_numstat_section(body.as_slice());
                        let c = NumstatCommit {
                            hash,
                            short_hash,
                            author: field_of(&fields, 1),
                            email: field_of(&fields, 2),
                            date: field_of(&fields, 3),
                            subject,
                            repo: String::new(),
                            files,
                        };
                        proof {
                            lemma_seq_view_push(out@, c);
                        }
                        out.push(c);
                    }
                },
            }
        }
        i += 1;
    }
    assert(rs.take(rs.len() as int) =~= rs);
    out
}


// =====================
// config: last occurrence wins
// =====================

pub open spec fn pair_views(v: Seq<(String, String)>) -> Seq<(Seq<char>, Seq<char>)> {
    v.map_values(|p: (String, String)| (p.0@, p.1@))
}

/// The value of the last entry for `key`.
pub open spec fn last_value(es: Seq<(Seq<char>, Seq<char>)>, key: Seq<char>) -> Option<Seq<char>>
    decreases es.len(),
{
    if es.len() == 0 {
        None
    } else if es.last().0 == key {
        Some(es.last().1)
    } else {
        last_value(es.drop_last(), key)
    }
}

/// The first entry at or after `i` for `key`.
pub open spec fn entry_from(es: Seq<(Seq<char>, Seq<char>)>, key: Seq<char>, i: int) -> Option<int>
    decreases es.len() - i,
{
    if i < 0 || i >= es.len() {
        None
    } else if es[i].0 == key {
        Some(i)
    } else {
        entry_from(es, key, i + 1)
    }
}

/// The value a map's entries give `key`.
pub open spec fn config_get(es: Seq<(Seq<char>, Seq<char>)>, key: Seq<char>) -> Option<Seq<char>> {
    match entry_from(es, key, 0) {
        Some(k) => Some(es[k].1),
        None => None,
    }
}

proof fn lemma_entry_from(es: Seq<(Seq<char>, Seq<char>)>, key: Seq<char>, i: int)
    requires
        0 <= i,
    ensures
        match entry_from(es, key, i) {
            Some(k) => i <= k < es.len() && es[k].0 == key && forall|j: int| i <= j < k ==> es[j].0 != key,
            None => forall|j: int| i <= j < es.len() ==> es[j].0 != key,
        },
    decreases es.len() - i,
{
    if i < es.len() && es[i].0 != key {
        lemma_entry_from(es, key, i + 1);
    }
}

proof fn lemma_entry_unique(es: Seq<(Seq<char>, Seq<char>)>, key: Seq<char>, k: int)
    requires
        0 <= k < es.len(),
        es[k].0 == key,
        forall|j: int| 0 <= j < k ==> es[j].0 != key,
    ensures
        entry_from(es, key, 0) == Some(k),
{
    lemma_entry_from(es, key, 0);
}

/// No two entries have the same key.
pub open spec fn keys_unique(es: Seq<(Seq<char>, Seq<char>)>) -> bool {
    forall|i: int, j: int| 0 <= i < j < es.len() ==> #[trigger] es[i].0 != #[trigger] es[j].0
}

/// A `key -> value` map of text entries: one entry per key.
#[derive(Debug, Clone, PartialEq, Eq)]
pub struct StringMap {
    entries: Vec<(String, String)>,
}

impl View for StringMap {
    type V = Seq<(Seq<char>, Seq<char>)>;

    closed spec fn view(&self) -> Seq<(Seq<char>, Seq<char>)> {
        pair_views(self.entries@)
    }
}

impl StringMap {
    fn index_of(&self, key: &[char]) -> (r: Option<usize>)
        ensures
            match r {
                Some(k) => entry_from(self@, key@, 0) == Some(k as int) && k < self@.len(),
                None => entry_from(self@, key@, 0) is None,
            },
    {
        let ghost es = self@;
        let mut i: usize = 0;
        while i < self.entries.len()
            invariant
                es == self@,
                0 <= i <= es.len(),
                entry_from(es, key@, 0) == entry_from(es, key@, i as int),
            decreases self.entries.len() - i,
        {
            assert(es[i as int].0 == self.entries@[i as int].0@);
            let k = to_chars(self.entries[i].0.as_str());
            if eq_chars(k.as_slice(), key) {
                return Some(i);
            }
            i += 1;
        }
        None
    }

    /// The value of `key`.
    pub fn get(&self, key: &str) -> (r: Option<&String>)
        ensures
            match r {
                Some(v) => config_get(self@, key@) == Some(v@),
                None => config_get(self@, key@) is None,
            },
    {
        let k = to_chars(key);
        match self.index_of(k.as_slice()) {
            Some(i) => {
                assert(self@[i as int].1 == self.entries@[i as int].1@);
                Some(&self.entries[i].1)
            },
            None => None,
        }
    }

    /// Whether `key` has a value.
    pub fn contains_key(&self, key: &str) -> (r: bool)
        ensures
            r == config_get(self@, key@) is Some,
    {
        let k = to_chars(key);
        self.index_of(k.as_slice()).is_some()
    }

    /// Number of distinct keys.
    pub fn len(&self) -> (r: usize)
        ensures
            r == self@.len(),
    {
        self.entries.len()
    }

    pub fn is_empty(&self) -> (r: bool)
        ensures
            r == (self@.len() == 0),
    {
        self.entries.len() == 0
    }
}

/// Collapse a parsed config list into a `key -> value` map with git's
/// "last occurrence wins" semantics (`git config --get` returns the last
/// value of a multi-valued key).
pub fn config_last_wins(entries: Vec<(String, String)>) -> (r: StringMap)
    ensures
        forall|key: Seq<char>| #[trigger] config_get(r@, key) == last_value(pair_views(entries@), key),
        r@.len() == 0 <==> entries@.len() == 0,
        keys_unique(r@),
{
    let ghost ev = pair_views(entries@);
    let mut m = StringMap { entries: Vec::new() };
    assert(m@ =~= Seq::<(Seq<char>, Seq<char>)>::empty());
    let mut i: usize = 0;
    while i < entries.len()
        invariant
            ev == pair_views(entries@),
            0 <= i <= ev.len(),
            forall|key: Seq<char>| #[trigger] config_get(m@, key) == last_value(ev.take(i as int), key),
            m@.len() <= i,
            i > 0 ==> m@.len() > 0,
            keys_unique(m@),
        decreases entries.len() - i,
    {
        let ghost before = m@;
        let (k, v) = (&entries[i].0, &entries[i].1);
        assert(ev[i as int] == (k@, v@));
        let kc = to_chars(k.as_str());
        assert(ev.take(i + 1).drop_last() =~= ev.take(i as int));
        assert(ev.take(i + 1).last() == (k@, v@));
        match m.index_of(kc.as_slice()) {
            Some(j) => {
                proof {
                    lemma_entry_from(before, k@, 0);
                }
                m.entries.set(j, (k.clone(), v.clone()));
                assert(m@ =~= before.update(j as int, (k@, v@)));
                assert(before[j as int].0 == k@);
                assert(keys_unique(m@)) by {
                    assert forall|a: int, b: int| 0 <= a < b < m@.len() implies #[trigger] m@[a].0 != #[trigger] m@[b].0 by {
                        assert(m@[a].0 == before[a].0);
                        assert(m@[b].0 == before[b].0);
                    }
                }
                assert forall|key: Seq<char>| #[trigger] config_get(m@, key) == last_value(ev.take(i + 1), key) by {
                    assert(config_get(before, key) == last_value(ev.take(i as int), key));
                    lemma_entry_from(before, key, 0);
                    lemma_entry_from(m@, key, 0);
                    if key == k@ {
                        lemma_entry_unique(m@, key, j as int);
                    } else {
                        match entry_from(before, key, 0) {
                            Some(x) => {
                                assert(m@[x] == before[x]);
                                lemma_entry_unique(m@, key, x);
                            },
                            None => {
                                if let Some(y) = entry_from(m@, key, 0) {
                                    assert(m@[y] == before[y]);
                                }
                            },
                        }
                    }
                }
            },
            None => {
                proof {
                    lemma_entry_from(before, k@, 0);
                }
                m.entries.push((k.clone(), v.clone()));
                assert(m@ =~= before.push((k@, v@)));
                assert(keys_unique(m@)) by {
                    assert forall|a: int, b: int| 0 <= a < b < m@.len() implies #[trigger] m@[a].0 != #[trigger] m@[b].0 by {
                        assert(m@[a] == before[a]);
                        if b < before.len() {
                            assert(m@[b] == before[b]);
                        }
                    }
                }
                assert forall|key: Seq<char>| #[trigger] config_get(m@, key) == last_value(ev.take(i + 1), key) by {
                    assert(config_get(before, key) == last_value(ev.take(i as int), key));
                    lemma_entry_from(before, key, 0);
                    lemma_entry_from(m@, key, 0);
                    if key == k@ {
                        lemma_entry_unique(m@, key, before.len() as int);
                    } else {
                        match entry_from(before, key, 0) {
                            Some(x) => {
                                assert(m@[x] == before[x]);
                                lemma_entry_unique(m@, key, x);
                            },
                            None => {
                                if let Some(y) = entry_from(m@, key, 0) {
                                    if y < before.len() {
                                        assert(m@[y] == before[y]);
                                    }
                                }
                            },
                        }
                    }
                }
            },
        }
        i += 1;
    }
    assert(ev.take(ev.len() as int) =~= ev);
    m
}

// =====================
// Status records
// =====================

proof fn lemma_contains_char_from(s: Seq<char>, c: char, i: int)
    requires
        0 <= i,
    ensures
        (find_from(s, seq![c], i) is Some) <==> (exists|j: int| i <= j < s.len() && s[j] == c),
    decreases s.len() + 1 - i,
{
    if i + 1 <= s.len() {
        if occurs_at(s, seq![c], i) {
            assert(s.subrange(i, i + 1)[0] == s[i]);
        } else {
            if s[i] == c {
                assert(s.subrange(i, i + 1) =~= seq![c]);
            }
            lemma_contains_char_from(s, c, i + 1);
            assert forall|j: int| i <= j < s.len() && s[j] == c implies i + 1 <= j by {}
        }
    }
}

proof fn lemma_contains_char(s: Seq<char>, c: char)
    ensures
        contains(s, seq![c]) == s.contains(c),
{
    lemma_contains_char_from(s, c, 0);
    if s.contains(c) {
        let j = choose|j: int| 0 <= j < s.len() && s[j] == c;
    }
}

/// The flags of a status entry read its fields: a submodule when the
/// submodule field starts with `S`; dirty when that field also shows
/// modified tracked content (`M`) or untracked files (`U`); its commit
/// moved when it shows `C`; staged when the `X` byte is neither `.` nor
/// `?`, unstaged likewise by the `Y` byte, both for a conflict; skipped
/// when either byte is `S`.
pub proof fn law_status_flags(xy: Seq<char>, sub: Seq<char>, path: Seq<char>, orig: Option<Seq<char>>, conflict: bool)
    ensures
        ({
            let e = file_status(xy, sub, path, orig, conflict);
            let is_sub = sub.len() > 0 && sub[0] == 'S';
            &&& e.path == path && e.status == xy && e.orig_path == orig && e.conflict == conflict
            &&& e.submodule == is_sub
            &&& e.submodule_dirty == (is_sub && (sub.contains('M') || sub.contains('U')))
            &&& e.submodule_commit_changed == (is_sub && sub.contains('C'))
            &&& !e.untracked
            &&& (conflict ==> e.staged && e.unstaged)
            &&& (xy.len() == 2 && is_ascii_char(xy[0]) ==> {
                &&& e.staged == (conflict || (xy[0] != '.' && xy[0] != '?'))
                &&& e.unstaged == (conflict || (xy[1] != '.' && xy[1] != '?'))
                &&& e.skipped == (xy[0] == 'S' || xy[1] == 'S')
            })
        }),
{
    lemma_contains_char(sub, 'M');
    lemma_contains_char(sub, 'U');
    lemma_contains_char(sub, 'C');
}

/// The fields of an ordinary (`1 `) or unmerged (`u `) record: the text
/// after the two-byte tag, split at spaces.
pub open spec fn record_fields(rec: Seq<char>) -> Seq<Seq<char>> {
    split(rec.skip(2), ' ')
}

/// One ordinary record `1 <XY> <sub> <mH> <mI> <mW> <hH> <hI> <path>`
/// (no NUL in it) parses to one entry: the path is the eighth field, the
/// status the first, and the submodule field sets the submodule flags.
pub proof fn law_ordinary_record(rec: Seq<char>)
    requires
        rec.len() >= 2 && rec[0] == '1' && rec[1] == ' ',
        !rec.contains('\0'),
        record_fields(rec).len() >= 8,
    ensures
        ({
            let f = record_fields(rec);
            let sub = f[1];
            let es = status_model(rec);
            &&& es.len() == 1
            &&& es[0].path == f[7] && es[0].status == f[0] && !es[0].conflict
            &&& es[0].submodule == (sub.len() > 0 && sub[0] == 'S')
            &&& es[0].submodule_dirty == (sub.len() > 0 && sub[0] == 'S' && (sub.contains('M') || sub.contains('U')))
        }),
{
    lemma_one_record(rec);
    assert(rec.subrange(0, 2) =~= seq!['1', ' ']);
    assert(strip_prefix(rec, seq!['1', ' ']) == Some(rec.skip(2)));
    let f = record_fields(rec);
    let parts = seq![rec];
    assert(status_from(parts, 1) == Seq::<FileStatusV>::empty());
    assert(v2_ordinary(rec) is Some);
    assert(status_from(parts, 0) == opt_seq(v2_ordinary(rec)) + status_from(parts, 1));
    assert(status_model(rec) =~= seq![v2_ordinary(rec)->0]);
    law_status_flags(f[0], f[1], f[7], None, false);
}

/// One unmerged record `u <XY> <sub> <m1> <m2> <m3> <mW> <h1> <h2> <h3>
/// <path>` (no NUL in it) parses to one conflicted entry of the tenth
/// field, with the submodule flags of the second.
pub proof fn law_unmerged_record(rec: Seq<char>)
    requires
        rec.len() >= 2 && rec[0] == 'u' && rec[1] == ' ',
        !rec.contains('\0'),
        record_fields(rec).len() >= 10,
    ensures
        ({
            let f = record_fields(rec);
            let sub = f[1];
            let es = status_model(rec);
            &&& es.len() == 1
            &&& es[0].path == f[9] && es[0].status == f[0] && es[0].conflict
            &&& es[0].staged && es[0].unstaged
            &&& es[0].submodule_dirty == (sub.len() > 0 && sub[0] == 'S' && (sub.contains('M') || sub.contains('U')))
        }),
{
    lemma_one_record(rec);
    assert(rec.subrange(0, 2) =~= seq!['u', ' ']);
    assert(strip_prefix(rec, seq!['u', ' ']) == Some(rec.skip(2)));
    let f = record_fields(rec);
    let parts = seq![rec];
    assert(status_from(parts, 1) == Seq::<FileStatusV>::empty());
    assert(v2_unmerged(rec) is Some);
    assert(status_from(parts, 0) == opt_seq(v2_unmerged(rec)) + status_from(parts, 1));
    assert(status_model(rec) =~= seq![v2_unmerged(rec)->0]);
    law_status_flags(f[0], f[1], f[9], None, true);
}

/// A rename record `2 <XY> <sub> <mH> <mI> <mW> <hH> <hI> <X><score>
/// <path>` and its original path (NUL-separated, neither holding a NUL)
/// parse to one entry: the path is the ninth field, the original path the
/// record after it (none when empty), the status the first field.
pub proof fn law_rename_record(rec: Seq<char>, orig: Seq<char>)
    requires
        rec.len() >= 2 && rec[0] == '2' && rec[1] == ' ',
        !rec.contains('\0') && !orig.contains('\0'),
        record_fields(rec).len() >= 9,
    ensures
        ({
            let f = record_fields(rec);
            let sub = f[1];
            let es = status_model(rec + seq!['\0'] + orig);
            &&& es.len() == 1
            &&& es[0].path == f[8] && es[0].status == f[0] && !es[0].conflict
            &&& es[0].orig_path == (if orig.len() > 0 {
                Some(orig)
            } else {
                None
            })
            &&& es[0].submodule_dirty == (sub.len() > 0 && sub[0] == 'S' && (sub.contains('M') || sub.contains('U')))
        }),
{
    let parts = seq![rec, orig];
    lemma_two_records(rec, orig);
    let raw = rec + seq!['\0'] + orig;
    assert(rec.subrange(0, 2) =~= seq!['2', ' ']);
    assert(starts_with(rec, seq!['2', ' ']));
    assert(status_from(parts, 2) == Seq::<FileStatusV>::empty());
    assert(v2_rename(rec.skip(2), orig) is Some);
    assert(status_from(parts, 0) == opt_seq(v2_rename(rec.skip(2), orig)) + status_from(parts, 2));
    assert(status_model(raw) =~= seq![v2_rename(rec.skip(2), orig)->0]);
    let f = record_fields(rec);
    law_status_flags(f[0], f[1], f[8], non_empty(orig), false);
}

proof fn lemma_two_records(rec: Seq<char>, orig: Seq<char>)
    requires
        !rec.contains('\0') && !orig.contains('\0'),
    ensures
        split(rec + seq!['\0'] + orig, '\0') == seq![rec, orig],
{
    let parts = seq![rec, orig];
    assert forall|i: int| 0 <= i < parts.len() implies !(#[trigger] parts[i]).contains('\0') by {}
    lemma_split_join(parts, '\0');
    assert(parts.drop_last() =~= seq![rec]);
    assert(join(seq![rec], '\0') == rec);
    assert(parts.last() == orig);
    assert(join(parts, '\0') == join(parts.drop_last(), '\0').push('\0') + parts.last());
    assert(join(parts, '\0') =~= rec + seq!['\0'] + orig);
}

proof fn lemma_one_record(rec: Seq<char>)
    requires
        rec.len() >= 2,
        !rec.contains('\0'),
    ensures
        split(rec, '\0') == seq![rec],
        !starts_with(rec, seq!['2', ' ']) || rec[0] == '2',
{
    let e = Seq::<char>::empty();
    lemma_split_append_free(e, rec, '\0');
    assert(e + rec =~= rec);
    assert(split(e, '\0') =~= seq![e]);
    assert(seq![e].update(0, e + rec) =~= seq![rec]);
    if starts_with(rec, seq!['2', ' ']) {
        assert(rec.subrange(0, 2)[0] == rec[0]);
    }
}

// =====================
// Log records
// =====================

/// Commit `c` is the record of the 8-line log format starting at line
/// `at`: `%H`, `%h`, `%an`, `%ae`, `%aI`, `%s`, `%d` (its ref names), `%P`
/// (its words), in that order.
pub open spec fn log_record_at(ls: Seq<Seq<char>>, at: int, c: CommitInfoV) -> bool {
    &&& 0 <= at && at + 8 <= ls.len() && ls[at].len() > 0
    &&& c.hash == ls[at] && c.short_hash == ls[at + 1]
    &&& c.author == ls[at + 2] && c.email == ls[at + 3]
    &&& c.date == ls[at + 4] && c.message == ls[at + 5]
    &&& c.refs == decoration_refs(ls[at + 6])
    &&& c.parents == words(ls[at + 7])
}

proof fn lemma_log_from_records(ls: Seq<Seq<char>>, i: int)
    requires
        0 <= i,
    ensures
        forall|k: int| 0 <= k < log_from(ls, i).len() ==> log_record_at(ls, i + 8 * k, #[trigger] log_from(ls, i)[k]),
    decreases ls.len() - i,
{
    if !(i + 8 > ls.len() || ls[i].len() == 0) {
        lemma_log_from_records(ls, i + 8);
        let r = log_from(ls, i);
        let rest = log_from(ls, i + 8);
        assert forall|k: int| 0 <= k < r.len() implies log_record_at(ls, i + 8 * k, #[trigger] r[k]) by {
            if k > 0 {
                assert(r[k] == rest[k - 1]);
                assert(log_record_at(ls, (i + 8) + 8 * (k - 1), rest[k - 1]));
                assert((i + 8) + 8 * (k - 1) == i + 8 * k);
            }
        }
    }
}

/// Commit `k` of a parsed log is the `k`-th 8-line record of the output:
/// hash, short hash, author name, author email and date, subject and
/// parents, each from its own line of that record.
pub proof fn law_log_fields(output: Seq<char>)
    ensures
        forall|k: int|
            0 <= k < log_model(output).len() ==> log_record_at(lines(output), 8 * k, #[trigger] log_model(output)[k]),
{
    lemma_log_from_records(lines(output), 0);
}

} // verus!
