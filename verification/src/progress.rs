//! Readings of git's stderr: clone progress lines and the refusals of a
//! worktree-mutating operation over uncommitted changes.

use vstd::prelude::*;
use crate::text::{
    trim, words, split_once, find, contains, strip_suffix, parse_u32, parse_u64, lines, starts_with,
    to_chars, trim_chars, split_words, split_once_char, find_seq, find_char, contains_seq,
    strip_suffix_chars, parse_u32_chars, parse_u64_chars, slice_range, string_of, split_lines,
    views, has_prefix, lemma_find_occurs, strs,
};

verus! {

// =====================
// Clone progress
// =====================

/// One parsed progress line of `git clone --progress`.
#[derive(Debug, Clone, PartialEq, Eq)]
pub struct CloneProgress {
    /// Lower-cased first word of git's phase name (`receiving`,
    /// `resolving`, ...), or `other`.
    pub phase: String,
    /// 0..=100, when the line carries a percentage.
    pub percent: Option<u32>,
    /// The `(current/total)` pair, when present.
    pub current: Option<u64>,
    pub total: Option<u64>,
}

pub struct CloneProgressV {
    pub phase: Seq<char>,
    pub percent: Option<u32>,
    pub current: Option<u64>,
    pub total: Option<u64>,
}

impl View for CloneProgress {
    type V = CloneProgressV;

    open spec fn view(&self) -> CloneProgressV {
        CloneProgressV { phase: self.phase@, percent: self.percent, current: self.current, total: self.total }
    }
}

/// What `str::to_lowercase` gives for `s` (Unicode lower case).
pub uninterp spec fn lowercase(s: Seq<char>) -> Seq<char>;

/// `str::to_lowercase` (std). Claimed: the result is `lowercase` of the
/// text, a function of it alone.
#[verifier::external_body]
pub(crate) fn to_lowercase(s: &str) -> (r: String)
    ensures
        r@ == lowercase(s@),
{
    s.to_lowercase()
}

/// The code of `c` with ASCII upper case folded to lower case.
pub open spec fn ascii_lower(c: char) -> u32 {
    if 'A' <= c && c <= 'Z' {
        ((c as u32) + 32) as u32
    } else {
        c as u32
    }
}

/// `a.eq_ignore_ascii_case(b)` of std.
pub open spec fn eq_ignore_ascii_case(a: Seq<char>, b: Seq<char>) -> bool {
    a.len() == b.len() && forall|i: int| 0 <= i < a.len() ==> ascii_lower(#[trigger] a[i]) == ascii_lower(b[i])
}

pub open spec fn other_progress() -> CloneProgressV {
    CloneProgressV { phase: "other"@, percent: None, current: None, total: None }
}

/// The phase's first word, lower-cased.
pub open spec fn phase_word(p: Seq<char>) -> Seq<char> {
    if words(p).len() > 0 {
        lowercase(words(p)[0])
    } else {
        lowercase("other"@)
    }
}

/// Percentage (capped at 100) and `(current/total)` pair of the text after
/// the phase.
pub open spec fn progress_body(phase: Seq<char>, rest0: Seq<char>) -> CloneProgressV {
    let rest = trim(rest0);
    let percent = if words(rest).len() > 0 {
        match strip_suffix(words(rest)[0], seq!['%']) {
            Some(num) => match parse_u32(num) {
                Some(v) => Some(if v < 100 {
                    v
                } else {
                    100u32
                }),
                None => None,
            },
            None => None,
        }
    } else {
        None
    };
    let pair: Option<(u64, u64)> = match find(rest, seq!['(']) {
        Some(open) => match find(rest.skip(open), seq![')']) {
            Some(close) => match split_once(rest.subrange(open + 1, open + close), '/') {
                Some((c, t)) => match (parse_u64(trim(c)), parse_u64(trim(t))) {
                    (Some(c), Some(t)) => Some((c, t)),
                    _ => None,
                },
                None => None,
            },
            None => None,
        },
        None => None,
    };
    CloneProgressV {
        phase,
        percent,
        current: match pair {
            Some((c, _)) => Some(c),
            None => None,
        },
        total: match pair {
            Some((_, t)) => Some(t),
            None => None,
        },
    }
}

/// One stderr line of `git clone --progress`, like
/// `Receiving objects:  45% (123/273), 1.20 MiB | 2.31 MiB/s`.
pub open spec fn clone_progress(line0: Seq<char>) -> CloneProgressV {
    let line = trim(line0);
    match split_once(line, ':') {
        None => other_progress(),
        Some((head0, rest)) => {
            let head = trim(head0);
            if head.len() == 0 || contains(head, seq!['(']) {
                other_progress()
            } else if eq_ignore_ascii_case(head, "remote"@) {
                match split_once(trim(rest), ':') {
                    Some((p, r)) => if trim(p).len() > 0 {
                        progress_body(phase_word(p), r)
                    } else {
                        other_progress()
                    },
                    None => other_progress(),
                }
            } else {
                progress_body(phase_word(head), rest)
            }
        },
    }
}

fn other_exec() -> (r: CloneProgress)
    ensures
        r@ == other_progress(),
{
    CloneProgress { phase: String::from_str("other"), percent: None, current: None, total: None }
}

fn phase_word_exec(p: &[char]) -> (r: String)
    ensures
        r@ == phase_word(p@),
{
    let w = split_words(p);
    if w.len() > 0 {
        assert(views(w@)[0] == w@[0]@);
        let s = string_of(w[0].as_slice());
        to_lowercase(s.as_str())
    } else {
        to_lowercase("other")
    }
}

fn eq_ignore_ascii_case_exec(a: &[char], b: &[char]) -> (r: bool)
    ensures
        r == eq_ignore_ascii_case(a@, b@),
{
    if a.len() != b.len() {
        return false;
    }
    let mut i: usize = 0;
    while i < a.len()
        invariant
            a@.len() == b@.len(),
            0 <= i <= a@.len(),
            forall|j: int| 0 <= j < i ==> ascii_lower(#[trigger] a@[j]) == ascii_lower(b@[j]),
        decreases a.len() - i,
    {
        let x = a[i];
        let y = b[i];
        let lx: u32 = if 'A' <= x && x <= 'Z' {
            (x as u32) + 32
        } else {
            x as u32
        };
        let ly: u32 = if 'A' <= y && y <= 'Z' {
            (y as u32) + 32
        } else {
            y as u32
        };
        if lx != ly {
            return false;
        }
        i += 1;
    }
    true
}

fn progress_body_exec(phase: String, rest0: &[char]) -> (r: CloneProgress)
    ensures
        r@ == progress_body(phase@, rest0@),
{
    let rest = trim_chars(rest0);
    let w = split_words(rest.as_slice());
    let pct = vec!['%'];
    assert(pct@ =~= seq!['%']);
    let percent = if w.len() > 0 {
        assert(views(w@)[0] == w@[0]@);
        match strip_suffix_chars(w[0].as_slice(), pct.as_slice()) {
            Some(num) => match parse_u32_chars(num.as_slice()) {
                Some(v) => Some(if v < 100 {
                    v
                } else {
                    100u32
                }),
                None => None,
            },
            None => None,
        }
    } else {
        None
    };
    let mut current: Option<u64> = None;
    let mut total: Option<u64> = None;
    let n: usize = rest.len();
    match find_char(rest.as_slice(), '(') {
        Some(open) => {
            proof {
                lemma_find_occurs(rest@, seq!['(']);
            }
            let tail = slice_range(rest.as_slice(), open, n);
            assert(tail@ =~= rest@.skip(open as int));
            match find_char(tail.as_slice(), ')') {
                Some(close) => {
                    proof {
                        lemma_find_occurs(tail@, seq![')']);
                    }
                    assert(tail@[0] == '(');
                    assert(close >= 1) by {
                        if close == 0 {
                            assert(tail@.subrange(0, 1)[0] == tail@[0]);
                        }
                    }
                    let pair = slice_range(rest.as_slice(), open + 1, open + close);
                    match split_once_char(pair.as_slice(), '/') {
                        Some((c, t)) => {
                            let ct = trim_chars(c.as_slice());
                            let tt = trim_chars(t.as_slice());
                            match (parse_u64_chars(ct.as_slice()), parse_u64_chars(tt.as_slice())) {
                                (Some(cv), Some(tv)) => {
                                    current = Some(cv);
                                    total = Some(tv);
                                },
                                _ => {},
                            }
                        },
                        None => {},
                    }
                },
                None => {},
            }
        },
        None => {},
    }
    CloneProgress { phase, percent, current, total }
}

/// Parse one stderr progress line of `git clone --progress`. Lines without
/// a `<Phase>:` prefix map to phase `other` with no numbers; a `remote:`
/// prefix is unwrapped to the phase it carries.
pub fn parse_clone_progress(line: &str) -> (r: CloneProgress)
    ensures
        r@ == clone_progress(line@),
{
    let c = to_chars(line);
    let l = trim_chars(c.as_slice());
    let (head0, rest) = match split_once_char(l.as_slice(), ':') {
        Some(x) => x,
        None => return other_exec(),
    };
    let head = trim_chars(head0.as_slice());
    let open = vec!['('];
    assert(open@ =~= seq!['(']);
    if head.len() == 0 || contains_seq(head.as_slice(), open.as_slice()) {
        return other_exec();
    }
    let remote = to_chars("remote");
    if eq_ignore_ascii_case_exec(head.as_slice(), remote.as_slice()) {
        let rt = trim_chars(rest.as_slice());
        return match split_once_char(rt.as_slice(), ':') {
            Some((p, r)) => {
                let pt = trim_chars(p.as_slice());
                if pt.len() > 0 {
                    progress_body_exec(phase_word_exec(p.as_slice()), r.as_slice())
                } else {
                    other_exec()
                }
            },
            None => other_exec(),
        };
    }
    progress_body_exec(phase_word_exec(head.as_slice()), rest.as_slice())
}

// =====================
// Dirty worktree refusals
// =====================

/// Structured reason for a refused worktree-mutating operation.
#[derive(Debug, Clone, PartialEq, Eq)]
pub struct DirtyWorktree {
    /// Operation git refused, as git prints it (`merge`, `checkout`, ...).
    pub operation: String,
    /// Paths git listed as conflicting; empty when git names none.
    pub files: Vec<String>,
    /// The blocked paths are untracked files.
    pub untracked: bool,
}

pub struct DirtyWorktreeV {
    pub operation: Seq<char>,
    pub files: Seq<Seq<char>>,
    pub untracked: bool,
}

impl View for DirtyWorktree {
    type V = DirtyWorktreeV;

    open spec fn view(&self) -> DirtyWorktreeV {
        DirtyWorktreeV { operation: self.operation@, files: strs(self.files@), untracked: self.untracked }
    }
}

/// First non-empty line at or after `i`.
pub open spec fn skip_empty(ts: Seq<Seq<char>>, i: int) -> int
    decreases ts.len() - i,
{
    if i < 0 || i >= ts.len() {
        ts.len() as int
    } else if ts[i].len() == 0 {
        skip_empty(ts, i + 1)
    } else {
        i
    }
}

/// The listed paths from line `i` on: up to an empty line or `Please ...`,
/// without `error:` lines.
pub open spec fn listed_files(ts: Seq<Seq<char>>, i: int) -> Seq<Seq<char>>
    decreases ts.len() - i,
{
    if i < 0 || i >= ts.len() || ts[i].len() == 0 || starts_with(ts[i], "Please "@) {
        Seq::<Seq<char>>::empty()
    } else {
        (if starts_with(ts[i], "error:"@) {
            Seq::<Seq<char>>::empty()
        } else {
            seq![ts[i]]
        }) + listed_files(ts, i + 1)
    }
}

pub open spec fn trimmed_lines(s: Seq<char>) -> Seq<Seq<char>> {
    lines(s).map_values(|l: Seq<char>| trim(l))
}

/// The rebase-family refusals and the operation each names.
pub open spec fn rebase_refusal(stderr: Seq<char>) -> Option<Seq<char>> {
    if contains(stderr, "cannot pull with rebase: You have unstaged changes."@) {
        Some("pull"@)
    } else if contains(stderr, "cannot pull with rebase: Your index contains uncommitted changes."@) {
        Some("pull"@)
    } else if contains(stderr, "cannot rebase: You have unstaged changes."@) {
        Some("rebase"@)
    } else if contains(stderr, "cannot rebase: Your index contains uncommitted changes."@) {
        Some("rebase"@)
    } else {
        None
    }
}

pub open spec fn rebase_result(stderr: Seq<char>) -> Option<DirtyWorktreeV> {
    match rebase_refusal(stderr) {
        Some(op) => Some(DirtyWorktreeV { operation: op, files: Seq::<Seq<char>>::empty(), untracked: false }),
        None => None,
    }
}

/// The "local changes would be overwritten" family in git's stderr.
pub open spec fn dirty_worktree(stderr: Seq<char>) -> Option<DirtyWorktreeV> {
    let marker = "would be overwritten by "@;
    match find(stderr, marker) {
        Some(pos) => {
            let rest = stderr.skip(pos + marker.len());
            match find(rest, seq![':']) {
                None => None,
                Some(end) => {
                    let operation = trim(rest.take(end));
                    if operation.len() == 0 {
                        None
                    } else {
                        let ts = trimmed_lines(rest.skip(end + 1));
                        let files = listed_files(ts, skip_empty(ts, 0));
                        if files.len() > 0 {
                            Some(
                                DirtyWorktreeV {
                                    operation,
                                    files,
                                    untracked: contains(stderr.take(pos), "untracked working tree files"@),
                                },
                            )
                        } else {
                            rebase_result(stderr)
                        }
                    }
                },
            }
        },
        None => rebase_result(stderr),
    }
}

fn rebase_exec(stderr: &[char]) -> (r: Option<DirtyWorktree>)
    ensures
        match r {
            Some(d) => rebase_result(stderr@) == Some(d@),
            None => rebase_result(stderr@) is None,
        },
{
    let a = to_chars("cannot pull with rebase: You have unstaged changes.");
    let b = to_chars("cannot pull with rebase: Your index contains uncommitted changes.");
    let c = to_chars("cannot rebase: You have unstaged changes.");
    let d = to_chars("cannot rebase: Your index contains uncommitted changes.");
    let op = if contains_seq(stderr, a.as_slice()) || contains_seq(stderr, b.as_slice()) {
        Some(String::from_str("pull"))
    } else if contains_seq(stderr, c.as_slice()) || contains_seq(stderr, d.as_slice()) {
        Some(String::from_str("rebase"))
    } else {
        None
    };
    match op {
        Some(o) => {
            let r = DirtyWorktree { operation: o, files: Vec::new(), untracked: false };
            assert(r@.files =~= Seq::<Seq<char>>::empty());
            Some(r)
        },
        None => None,
    }
}

fn listed_files_exec(rest: &[char]) -> (r: Vec<String>)
    ensures
        strs(r@) == listed_files(trimmed_lines(rest@), skip_empty(trimmed_lines(rest@), 0)),
{
    let raw = split_lines(rest);
    let ghost ts = trimmed_lines(rest@);
    let mut t: Vec<Vec<char>> = Vec::new();
    let mut k: usize = 0;
    while k < raw.len()
        invariant
            views(raw@) == lines(rest@),
            ts == trimmed_lines(rest@),
            0 <= k <= raw@.len(),
            views(t@) == ts.take(k as int),
        decreases raw.len() - k,
    {
        assert(views(raw@)[k as int] == raw@[k as int]@);
        let x = trim_chars(raw[k].as_slice());
        let ghost before = views(t@);
        t.push(x);
        assert(views(t@) =~= before.push(x@));
        assert(ts.take(k + 1) =~= ts.take(k as int).push(x@));
        k += 1;
    }
    assert(ts.take(k as int) =~= ts);
    let n: usize = t.len();
    let mut i: usize = 0;
    while i < n && t[i].len() == 0
        invariant
            views(t@) == ts,
            n == ts.len(),
            0 <= i <= n,
            skip_empty(ts, 0) == skip_empty(ts, i as int),
        decreases n - i,
    {
        assert(ts[i as int] == t@[i as int]@);
        i += 1;
    }
    proof {
        if i < n {
            assert(ts[i as int] == t@[i as int]@);
        }
    }
    let please = to_chars("Please ");
    let error = to_chars("error:");
    let ghost start = i as int;
    let mut out: Vec<String> = Vec::new();
    while i < n && t[i].len() > 0 && !has_prefix(t[i].as_slice(), please.as_slice())
        invariant
            views(t@) == ts,
            n == ts.len(),
            please@ == "Please "@,
            error@ == "error:"@,
            start <= i <= n,
            strs(out@) + listed_files(ts, i as int) == listed_files(ts, start),
        decreases n - i,
    {
        assert(ts[i as int] == t@[i as int]@);
        let ghost before = strs(out@);
        if !has_prefix(t[i].as_slice(), error.as_slice()) {
            let s = string_of(t[i].as_slice());
            out.push(s);
            assert(strs(out@) =~= before.push(s@));
        }
        assert(strs(out@) + listed_files(ts, i + 1) =~= before + listed_files(ts, i as int));
        i += 1;
    }
    proof {
        if i < n {
            assert(ts[i as int] == t@[i as int]@);
        }
    }
    assert(strs(out@) =~= strs(out@) + listed_files(ts, i as int));
    out
}

/// Recognize the "your local changes would be overwritten" family in git's
/// stderr (tracked and untracked overwrite refusals with their path list,
/// and the rebase-family refusals that name no files); `None` for anything
/// else.
pub fn parse_dirty_worktree(stderr: &str) -> (r: Option<DirtyWorktree>)
    ensures
        match r {
            Some(d) => dirty_worktree(stderr@) == Some(d@),
            None => dirty_worktree(stderr@) is None,
        },
{
    let s = to_chars(stderr);
    let marker = to_chars("would be overwritten by ");
    match find_seq(s.as_slice(), marker.as_slice()) {
        Some(pos) => {
            proof {
                lemma_find_occurs(s@, marker@);
            }
            let n: usize = s.len();
            let rest = slice_range(s.as_slice(), pos + marker.len(), n);
            assert(rest@ =~= s@.skip(pos + marker@.len()));
            let end = match find_char(rest.as_slice(), ':') {
                Some(e) => e,
                None => return None,
            };
            proof {
                lemma_find_occurs(rest@, seq![':']);
            }
            let op_raw = slice_range(rest.as_slice(), 0, end);
            assert(op_raw@ =~= rest@.take(end as int));
            let operation = trim_chars(op_raw.as_slice());
            if operation.len() == 0 {
                return None;
            }
            let after = slice_range(rest.as_slice(), end + 1, rest.len());
            assert(after@ =~= rest@.skip(end + 1));
            let files = listed_files_exec(after.as_slice());
            if files.len() > 0 {
                let before = slice_range(s.as_slice(), 0, pos);
                assert(before@ =~= s@.take(pos as int));
                let ut = to_chars("untracked working tree files");
                let untracked = contains_seq(before.as_slice(), ut.as_slice());
                return Some(DirtyWorktree { operation: string_of(operation.as_slice()), files, untracked });
            }
            rebase_exec(s.as_slice())
        },
        None => rebase_exec(s.as_slice()),
    }
}

} // verus!
