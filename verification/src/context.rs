//! What is sent to the language model: privacy filtering of paths by glob
//! rules, sampling of a staged diff under a line and character budget, and
//! the compact commit listing of a report with its map-reduce batching.

use vstd::prelude::*;
use crate::text::{trim, strs, dec_string, to_chars, trim_chars, string_of_range, push_str, push_u64, push_char};
use crate::model::{filter_map, lemma_filter_map_step, DiffLineKind, DiffLineV, DiffHunkV, DiffFileV, DiffFile, DiffModel, NumstatCommit, NumstatCommitV, NumstatFileV, seq_view};
use crate::matching::{regex_first_match, regex_valid, regex_is_match, regex_compiles, escaped, escape_char};

verus! {

// =====================
// Privacy path filter
// =====================

/// One glob character as regex text: `*` spans anything (directories
/// too), `?` is one character, anything else is itself.
pub open spec fn glob_piece(c: char) -> Seq<char> {
    if c == '*' {
        seq!['.', '*']
    } else if c == '?' {
        seq!['.']
    } else {
        escaped(c)
    }
}

/// The regex text of the glob characters `p`, in order.
pub open spec fn glob_body(p: Seq<char>) -> Seq<char>
    decreases p.len(),
{
    if p.len() == 0 {
        Seq::<char>::empty()
    } else {
        glob_body(p.drop_last()) + glob_piece(p.last())
    }
}

/// The case-insensitive, whole-text regex of a glob rule.
pub open spec fn glob_regex(p: Seq<char>) -> Seq<char> {
    seq!['(', '?', 'i', ')', '^'] + glob_body(trim(p)) + seq!['$']
}

/// The regex a rule contributes: none for a blank rule or one whose
/// regex does not compile.
pub open spec fn rule_regex(p: Seq<char>) -> Option<Seq<char>> {
    if trim(p).len() > 0 && regex_valid(glob_regex(p)) {
        Some(glob_regex(p))
    } else {
        None
    }
}

/// Whether regex `re` matches somewhere in `t`.
pub open spec fn regex_matches(re: Seq<char>, t: Seq<char>) -> bool {
    regex_first_match(re, t) is Some
}

/// Last position before `i` of a path separator (`/` or `\`).
pub open spec fn last_sep_before(s: Seq<char>, i: int) -> Option<int>
    decreases i,
{
    if i <= 0 || i > s.len() {
        None
    } else if s[i - 1] == '/' || s[i - 1] == '\\' {
        Some(i - 1)
    } else {
        last_sep_before(s, i - 1)
    }
}

/// The file name of a path: what follows its last separator.
pub open spec fn basename(s: Seq<char>) -> Seq<char> {
    match last_sep_before(s, s.len() as int) {
        Some(i) => s.skip(i + 1),
        None => s,
    }
}

/// Whether some regex matches the whole path or its file name.
pub open spec fn excluded_by(regexes: Seq<Seq<char>>, path: Seq<char>) -> bool {
    exists|i: int|
        #![trigger regexes[i]]
        0 <= i < regexes.len() && (regex_matches(regexes[i], path) || regex_matches(
            regexes[i],
            basename(path),
        ))
}

/// Glob exclusion rules, compiled. `*` spans directories, `?` is one
/// character; a rule is tried on the whole path and on the file name,
/// ignoring case.
pub struct PathFilter {
    regexes: Vec<String>,
    /// The rules as given.
    pub patterns: Vec<String>,
}

pub struct PathFilterV {
    pub regexes: Seq<Seq<char>>,
    pub patterns: Seq<Seq<char>>,
}

impl View for PathFilter {
    type V = PathFilterV;

    closed spec fn view(&self) -> PathFilterV {
        PathFilterV { regexes: strs(self.regexes@), patterns: strs(self.patterns@) }
    }
}

/// The regex text of a glob rule's (trimmed) characters.
fn glob_regex_string(t: &[char]) -> (r: String)
    ensures
        r@ == seq!['(', '?', 'i', ')', '^'] + glob_body(t@) + seq!['$'],
{
    let mut re = String::new();
    push_char(&mut re, '(');
    push_char(&mut re, '?');
    push_char(&mut re, 'i');
    push_char(&mut re, ')');
    push_char(&mut re, '^');
    let ghost head = re@;
    assert(head =~= seq!['(', '?', 'i', ')', '^']);
    let mut i: usize = 0;
    while i < t.len()
        invariant
            0 <= i <= t@.len(),
            re@ == head + glob_body(t@.take(i as int)),
        decreases t.len() - i,
    {
        let c = t[i];
        proof {
            assert(t@.take(i + 1).drop_last() =~= t@.take(i as int));
            assert(t@.take(i + 1).last() == c);
        }
        if c == '*' {
            push_char(&mut re, '.');
            push_char(&mut re, '*');
        } else if c == '?' {
            push_char(&mut re, '.');
        } else {
            let e = escape_char(c);
            push_str(&mut re, e.as_str());
        }
        assert(re@ =~= head + glob_body(t@.take(i + 1)));
        i += 1;
    }
    assert(t@.take(t@.len() as int) =~= t@);
    push_char(&mut re, '$');
    re
}

fn clone_strings(v: &[String]) -> (r: Vec<String>)
    ensures
        strs(r@) == strs(v@),
{
    let mut r: Vec<String> = Vec::new();
    let mut i: usize = 0;
    while i < v.len()
        invariant
            0 <= i <= v@.len(),
            strs(r@) == strs(v@).take(i as int),
        decreases v.len() - i,
    {
        let s = v[i].clone();
        let ghost before = r@;
        r.push(s);
        assert(strs(r@) =~= strs(before).push(s@));
        assert(strs(v@).take(i + 1) =~= strs(v@).take(i as int).push(v@[i as int]@));
        i += 1;
    }
    assert(strs(v@).take(v@.len() as int) =~= strs(v@));
    r
}

impl PathFilter {
    /// Compiles the rules; blank rules and rules that do not compile are
    /// dropped.
    pub fn new(patterns: &[String]) -> (r: PathFilter)
        ensures
            r@.regexes == filter_map(strs(patterns@), |p: Seq<char>| rule_regex(p)),
            r@.patterns == strs(patterns@),
    {
        let ghost f = |p: Seq<char>| rule_regex(p);
        let mut regexes: Vec<String> = Vec::new();
        let mut i: usize = 0;
        while i < patterns.len()
            invariant
                0 <= i <= patterns@.len(),
                f == (|p: Seq<char>| rule_regex(p)),
                strs(regexes@) == filter_map(strs(patterns@).take(i as int), f),
            decreases patterns.len() - i,
        {
            proof {
                lemma_filter_map_step(strs(patterns@), f, i as int);
            }
            let pc = to_chars(patterns[i].as_str());
            let t = trim_chars(pc.as_slice());
            if t.len() > 0 {
                let re = glob_regex_string(t.as_slice());
                if regex_compiles(re.as_str()) {
                    regexes.push(re);
                    assert(strs(regexes@) =~= strs(regexes@.drop_last()).push(re@));
                }
            }
            i += 1;
        }
        assert(strs(patterns@).take(patterns@.len() as int) =~= strs(patterns@));
        PathFilter { regexes, patterns: clone_strings(patterns) }
    }

    /// A filter without rules: nothing is excluded.
    pub fn empty() -> (r: PathFilter)
        ensures
            r@.regexes.len() == 0,
            r@.patterns.len() == 0,
    {
        let none: Vec<String> = Vec::new();
        let r = PathFilter::new(none.as_slice());
        assert(strs(none@) =~= Seq::<Seq<char>>::empty());
        r
    }

    pub fn is_empty(&self) -> (r: bool)
        ensures
            r == (self@.regexes.len() == 0),
    {
        self.regexes.len() == 0
    }

    /// Whether some rule matches the path or its file name.
    pub fn is_excluded(&self, path: &str) -> (r: bool)
        ensures
            r == excluded_by(self@.regexes, path@),
    {
        let pc = to_chars(path);
        let mut k: usize = pc.len();
        while k > 0 && pc[k - 1] != '/' && pc[k - 1] != '\\'
            invariant
                k <= pc@.len(),
                pc@ == path@,
                last_sep_before(pc@, pc@.len() as int) == last_sep_before(pc@, k as int),
            decreases k,
        {
            k -= 1;
        }
        let base = string_of_range(pc.as_slice(), k, pc.len());
        assert(base@ == basename(path@)) by {
            if k > 0 {
                assert(last_sep_before(pc@, k as int) == Some(k - 1));
            } else {
                assert(last_sep_before(pc@, 0) is None);
                assert(pc@.subrange(0, pc@.len() as int) =~= pc@);
            }
        }
        let mut i: usize = 0;
        while i < self.regexes.len()
            invariant
                0 <= i <= self.regexes@.len(),
                base@ == basename(path@),
                forall|j: int|
                    #![trigger self@.regexes[j]]
                    0 <= j < i ==> !(regex_matches(self@.regexes[j], path@) || regex_matches(
                        self@.regexes[j],
                        basename(path@),
                    )),
            decreases self.regexes.len() - i,
        {
            let re = self.regexes[i].as_str();
            assert(re@ == self@.regexes[i as int]);
            if regex_is_match(re, path) || regex_is_match(re, base.as_str()) {
                assert(regex_matches(self@.regexes[i as int], path@) || regex_matches(
                    self@.regexes[i as int],
                    basename(path@),
                ));
                proof {
                    let j = i as int;
                    assert(0 <= j < self@.regexes.len());
                    assert(excluded_by(self@.regexes, path@));
                }
                return true;
            }
            i += 1;
        }
        proof {
            if excluded_by(self@.regexes, path@) {
                let j = choose|j: int|
                    #![trigger self@.regexes[j]]
                    0 <= j < self@.regexes.len() && (regex_matches(self@.regexes[j], path@)
                        || regex_matches(self@.regexes[j], basename(path@)));
                assert(false);
            }
        }
        false
    }

    /// Splits paths into the kept ones and the number excluded.
    pub fn filter(&self, paths: &[&str]) -> (r: (Vec<String>, usize))
        ensures
            strs(r.0@) == filter_map(
                paths@,
                |p: &str|
                    if excluded_by(self@.regexes, p@) {
                        None
                    } else {
                        Some(p@)
                    },
            ),
            r.1 + r.0@.len() == paths@.len(),
    {
        let ghost f = |p: &str|
            if excluded_by(self@.regexes, p@) {
                None
            } else {
                Some(p@)
            };
        let mut kept: Vec<String> = Vec::new();
        let mut excluded: usize = 0;
        let mut i: usize = 0;
        while i < paths.len()
            invariant
                0 <= i <= paths@.len(),
                f == (|p: &str|
                    if excluded_by(self@.regexes, p@) {
                        None
                    } else {
                        Some(p@)
                    }),
                strs(kept@) == filter_map(paths@.take(i as int), f),
                excluded + kept@.len() == i,
            decreases paths.len() - i,
        {
            proof {
                lemma_filter_map_step(paths@, f, i as int);
            }
            let p = paths[i];
            if self.is_excluded(p) {
                excluded += 1;
            } else {
                let s = p.to_string();
                kept.push(s);
                assert(strs(kept@) =~= strs(kept@.drop_last()).push(p@));
            }
            i += 1;
        }
        assert(paths@.take(paths@.len() as int) =~= paths@);
        (kept, excluded)
    }
}


// =====================
// Staged diff sampling
// =====================

/// The sampling budget of a staged diff.
#[derive(Debug, Clone, Copy)]
pub struct DiffBudget {
    /// Most diff lines of one file that enter the context.
    pub per_file_lines: usize,
    /// Characters of all files together.
    pub total_chars: usize,
}

impl Default for DiffBudget {
    fn default() -> (r: Self)
        ensures
            r.per_file_lines == 300,
            r.total_chars == 60_000,
    {
        DiffBudget { per_file_lines: 300, total_chars: 60_000 }
    }
}

/// One file of the sampled context.
#[derive(Debug, Clone, PartialEq, Eq)]
pub struct DiffFileCtx {
    pub path: String,
    pub is_binary: bool,
    pub added: u32,
    pub removed: u32,
    /// The rendered excerpt, or a placeholder line.
    pub text: String,
    /// The file lost lines to the line cap.
    pub truncated: bool,
}

pub struct DiffFileCtxV {
    pub path: Seq<char>,
    pub is_binary: bool,
    pub added: nat,
    pub removed: nat,
    pub text: Seq<char>,
    pub truncated: bool,
}

impl View for DiffFileCtx {
    type V = DiffFileCtxV;

    open spec fn view(&self) -> DiffFileCtxV {
        DiffFileCtxV {
            path: self.path@,
            is_binary: self.is_binary,
            added: self.added as nat,
            removed: self.removed as nat,
            text: self.text@,
            truncated: self.truncated,
        }
    }
}

/// Whether a model line carries diff content (hunk header lines do not).
pub open spec fn is_body(l: DiffLineV) -> bool {
    l.kind != DiffLineKind::Header
}

/// How many content lines `ls` has.
pub open spec fn body_count(ls: Seq<DiffLineV>) -> nat
    decreases ls.len(),
{
    if ls.len() == 0 {
        0
    } else {
        (if is_body(ls[0]) {
            1nat
        } else {
            0nat
        }) + body_count(ls.drop_first())
    }
}

/// The first `room` content lines of `ls`.
pub open spec fn sampled_lines(ls: Seq<DiffLineV>, room: nat) -> Seq<DiffLineV>
    decreases ls.len(),
{
    if ls.len() == 0 {
        Seq::<DiffLineV>::empty()
    } else if !is_body(ls[0]) {
        sampled_lines(ls.drop_first(), room)
    } else if room == 0 {
        Seq::<DiffLineV>::empty()
    } else {
        seq![ls[0]] + sampled_lines(ls.drop_first(), (room - 1) as nat)
    }
}

/// Hunks sampled while line room is left, each with its sampled lines.
pub open spec fn sampled_hunks(hs: Seq<DiffHunkV>, room: nat) -> Seq<(DiffHunkV, Seq<DiffLineV>)>
    decreases hs.len(),
{
    if hs.len() == 0 || room == 0 {
        Seq::<(DiffHunkV, Seq<DiffLineV>)>::empty()
    } else {
        let ls = sampled_lines(hs[0].lines, room);
        seq![(hs[0], ls)] + sampled_hunks(hs.drop_first(), (room - ls.len()) as nat)
    }
}

/// Whether the line cap cut something off.
pub open spec fn sample_truncated(hs: Seq<DiffHunkV>, room: nat) -> bool
    decreases hs.len(),
{
    if hs.len() == 0 {
        false
    } else if room == 0 {
        true
    } else if body_count(hs[0].lines) > room {
        true
    } else {
        sample_truncated(hs.drop_first(), (room - body_count(hs[0].lines)) as nat)
    }
}

/// `+`, `-` or a space before a line's content.
pub open spec fn line_prefix(k: DiffLineKind) -> char {
    match k {
        DiffLineKind::Add => '+',
        DiffLineKind::Remove => '-',
        _ => ' ',
    }
}

pub open spec fn line_text(l: DiffLineV) -> Seq<char> {
    seq![line_prefix(l.kind)] + l.content + seq!['\n']
}

pub open spec fn lines_text(ls: Seq<DiffLineV>) -> Seq<char>
    decreases ls.len(),
{
    if ls.len() == 0 {
        Seq::<char>::empty()
    } else {
        lines_text(ls.drop_last()) + line_text(ls.last())
    }
}

/// How many lines of kind `k` there are.
pub open spec fn kind_count(ls: Seq<DiffLineV>, k: DiffLineKind) -> nat
    decreases ls.len(),
{
    if ls.len() == 0 {
        0
    } else {
        kind_count(ls.drop_last(), k) + (if ls.last().kind == k {
            1nat
        } else {
            0nat
        })
    }
}

/// `@@ -a,b +c,d @@` and a newline.
pub open spec fn range_line(h: DiffHunkV) -> Seq<char> {
    "@@ -"@ + dec_string(h.old_start as nat) + ","@ + dec_string(h.old_count as nat) + " +"@
        + dec_string(h.new_start as nat) + ","@ + dec_string(h.new_count as nat) + " @@\n"@
}

pub open spec fn hunks_text(hl: Seq<(DiffHunkV, Seq<DiffLineV>)>) -> Seq<char>
    decreases hl.len(),
{
    if hl.len() == 0 {
        Seq::<char>::empty()
    } else {
        hunks_text(hl.drop_last()) + range_line(hl.last().0) + lines_text(hl.last().1)
    }
}

pub open spec fn hunks_kind_count(hl: Seq<(DiffHunkV, Seq<DiffLineV>)>, k: DiffLineKind) -> nat
    decreases hl.len(),
{
    if hl.len() == 0 {
        0
    } else {
        hunks_kind_count(hl.drop_last(), k) + kind_count(hl.last().1, k)
    }
}

/// Content lines of a whole file.
pub open spec fn file_body_lines(hs: Seq<DiffHunkV>) -> nat
    decreases hs.len(),
{
    if hs.len() == 0 {
        0
    } else {
        body_count(hs[0].lines) + file_body_lines(hs.drop_first())
    }
}

/// The excerpt of one file: a binary file is one placeholder line; a text
/// file is a `---` line with its sampled counts, then its sampled hunks.
pub open spec fn render_spec(f: DiffFileV, path: Seq<char>, max_lines: nat) -> DiffFileCtxV {
    if f.binary {
        DiffFileCtxV {
            path,
            is_binary: true,
            added: 0,
            removed: 0,
            text: "[binary file: "@ + path + "]\n"@,
            truncated: false,
        }
    } else {
        let hl = sampled_hunks(f.hunks, max_lines);
        let added = hunks_kind_count(hl, DiffLineKind::Add);
        let removed = hunks_kind_count(hl, DiffLineKind::Remove);
        let truncated = sample_truncated(f.hunks, max_lines);
        DiffFileCtxV {
            path,
            is_binary: false,
            added,
            removed,
            text: "--- "@ + path + " (+"@ + dec_string(added) + " -"@ + dec_string(removed) + (if truncated {
                ", truncated"@
            } else {
                Seq::<char>::empty()
            }) + ")\n"@ + hunks_text(hl),
            truncated,
        }
    }
}

proof fn lemma_sampled_len(ls: Seq<DiffLineV>, room: nat)
    ensures
        sampled_lines(ls, room).len() == if body_count(ls) <= room {
            body_count(ls)
        } else {
            room
        },
        sampled_lines(ls, room).len() <= room,
    decreases ls.len(),
{
    if ls.len() > 0 {
        if !is_body(ls[0]) {
            lemma_sampled_len(ls.drop_first(), room);
        } else if room > 0 {
            lemma_sampled_len(ls.drop_first(), (room - 1) as nat);
        }
    }
}

proof fn lemma_sampled_zero(ls: Seq<DiffLineV>)
    ensures
        sampled_lines(ls, 0) == Seq::<DiffLineV>::empty(),
    decreases ls.len(),
{
    if ls.len() > 0 {
        lemma_sampled_zero(ls.drop_first());
    }
}

proof fn lemma_kind_count_le(ls: Seq<DiffLineV>, k: DiffLineKind)
    ensures
        kind_count(ls, k) <= ls.len(),
    decreases ls.len(),
{
    if ls.len() > 0 {
        lemma_kind_count_le(ls.drop_last(), k);
    }
}

proof fn lemma_body_count_le(ls: Seq<DiffLineV>)
    ensures
        body_count(ls) <= ls.len(),
    decreases ls.len(),
{
    if ls.len() > 0 {
        lemma_body_count_le(ls.drop_first());
    }
}

/// The content lines and kind counts of sampled hunks stay within the file's.
proof fn lemma_hunks_count_le(hs: Seq<DiffHunkV>, room: nat, k: DiffLineKind)
    ensures
        hunks_kind_count(sampled_hunks(hs, room), k) <= file_body_lines(hs),
    decreases hs.len(),
{
    if hs.len() > 0 && room > 0 {
        let ls = sampled_lines(hs[0].lines, room);
        let rest = sampled_hunks(hs.drop_first(), (room - ls.len()) as nat);
        lemma_hunks_count_le(hs.drop_first(), (room - ls.len()) as nat, k);
        lemma_hunks_kind_count_concat(seq![(hs[0], ls)], rest, k);
        assert(seq![(hs[0], ls)].drop_last() =~= Seq::<(DiffHunkV, Seq<DiffLineV>)>::empty());
        lemma_kind_count_le(ls, k);
        lemma_sampled_len(hs[0].lines, room);
        assert(sampled_hunks(hs, room) == seq![(hs[0], ls)] + rest);
        assert(seq![(hs[0], ls)].last() == (hs[0], ls));
        assert(hunks_kind_count(Seq::<(DiffHunkV, Seq<DiffLineV>)>::empty(), k) == 0);
        assert(hunks_kind_count(seq![(hs[0], ls)], k) == kind_count(ls, k));
    }
}

proof fn lemma_hunks_kind_count_concat(
    a: Seq<(DiffHunkV, Seq<DiffLineV>)>,
    b: Seq<(DiffHunkV, Seq<DiffLineV>)>,
    k: DiffLineKind,
)
    ensures
        hunks_kind_count(a + b, k) == hunks_kind_count(a, k) + hunks_kind_count(b, k),
    decreases b.len(),
{
    if b.len() == 0 {
        assert(a + b =~= a);
    } else {
        lemma_hunks_kind_count_concat(a, b.drop_last(), k);
        assert((a + b).drop_last() =~= a + b.drop_last());
        assert((a + b).last() == b.last());
    }
}

/// The sampled counts of a file stay within its content lines.
pub proof fn lemma_render_added_le(f: DiffFileV, path: Seq<char>, max_lines: nat)
    ensures
        render_spec(f, path, max_lines).added <= file_body_lines(f.hunks),
        render_spec(f, path, max_lines).removed <= file_body_lines(f.hunks),
{
    lemma_hunks_count_le(f.hunks, max_lines, DiffLineKind::Add);
    lemma_hunks_count_le(f.hunks, max_lines, DiffLineKind::Remove);
}

/// Renders one file's excerpt under the per-file line cap.
fn render_file(f: &DiffFile, path: &str, max_lines: usize) -> (r: DiffFileCtx)
    requires
        file_body_lines(f@.hunks) <= u32::MAX,
    ensures
        r@ == render_spec(f@, path@, max_lines as nat),
{
    if f.binary {
        let mut text = String::new();
        push_str(&mut text, "[binary file: ");
        push_str(&mut text, path);
        push_str(&mut text, "]\n");
        return DiffFileCtx {
            path: path.to_string(),
            is_binary: true,
            added: 0,
            removed: 0,
            text,
            truncated: false,
        };
    }
    let ghost hs = f@.hunks;
    let ghost max = max_lines as nat;
    let mut added: u32 = 0;
    let mut removed: u32 = 0;
    let mut lines: usize = 0;
    let mut truncated = false;
    let mut stop = false;
    let mut body = String::new();
    let ghost mut done: Seq<(DiffHunkV, Seq<DiffLineV>)> = Seq::empty();
    proof {
        lemma_hunks_count_le(hs, max, DiffLineKind::Add);
        lemma_hunks_count_le(hs, max, DiffLineKind::Remove);
        assert(hs.skip(0) =~= hs);
    }
    let mut i: usize = 0;
    while i < f.hunks.len() && !stop
        invariant
            0 <= i <= f.hunks@.len(),
            hs == f@.hunks,
            max == max_lines as nat,
            lines <= max_lines,
            stop ==> lines == max_lines && i < hs.len() && truncated,
            done + sampled_hunks(hs.skip(i as int), (max - lines) as nat) == sampled_hunks(hs, max),
            body@ == hunks_text(done),
            added == hunks_kind_count(done, DiffLineKind::Add),
            removed == hunks_kind_count(done, DiffLineKind::Remove),
            hunks_kind_count(sampled_hunks(hs, max), DiffLineKind::Add) <= u32::MAX,
            hunks_kind_count(sampled_hunks(hs, max), DiffLineKind::Remove) <= u32::MAX,
            sample_truncated(hs, max) == (truncated || sample_truncated(hs.skip(i as int), (max - lines) as nat)),
        decreases (f.hunks.len() - i) + (if stop { 0int } else { 1int }),
    {
        if lines >= max_lines {
            truncated = true;
            stop = true;
            assert(sample_truncated(hs.skip(i as int), 0));
        } else {
            let hunk = &f.hunks[i];
            let ghost room0: nat = (max - lines) as nat;
            let ghost ls = hunk@.lines;
            let ghost body0 = body@;
            let ghost added0 = added;
            let ghost removed0 = removed;
            let ghost truncated0 = truncated;
            proof {
                assert(hs.skip(i as int)[0] == hunk@);
                assert(hs.skip(i as int).drop_first() =~= hs.skip(i + 1));
                assert(ls.skip(0) =~= ls);
            }
            push_str(&mut body, "@@ -");
            push_u64(&mut body, hunk.old_start as u64);
            push_str(&mut body, ",");
            push_u64(&mut body, hunk.old_count as u64);
            push_str(&mut body, " +");
            push_u64(&mut body, hunk.new_start as u64);
            push_str(&mut body, ",");
            push_u64(&mut body, hunk.new_count as u64);
            push_str(&mut body, " @@\n");
            let ghost head = body@;
            assert(head == body0 + range_line(hunk@));
            proof {
                let rest0 = sampled_hunks(hs.skip(i + 1), (room0 - sampled_lines(ls, room0).len()) as nat);
                assert(sampled_hunks(hs.skip(i as int), room0) == seq![(hunk@, sampled_lines(ls, room0))] + rest0);
                lemma_hunks_kind_count_concat(done, seq![(hunk@, sampled_lines(ls, room0))] + rest0, DiffLineKind::Add);
                lemma_hunks_kind_count_concat(done, seq![(hunk@, sampled_lines(ls, room0))] + rest0, DiffLineKind::Remove);
                lemma_hunks_kind_count_concat(seq![(hunk@, sampled_lines(ls, room0))], rest0, DiffLineKind::Add);
                lemma_hunks_kind_count_concat(seq![(hunk@, sampled_lines(ls, room0))], rest0, DiffLineKind::Remove);
                assert(seq![(hunk@, sampled_lines(ls, room0))].drop_last() =~= Seq::<(DiffHunkV, Seq<DiffLineV>)>::empty());
            }
            let ghost mut taken: Seq<DiffLineV> = Seq::empty();
            let mut inner_stop = false;
            let mut j: usize = 0;
            while j < hunk.lines.len() && !inner_stop
                invariant
                    0 <= j <= ls.len(),
                    ls == hunk@.lines,
                    hunk.lines@.len() == ls.len(),
                    max == max_lines as nat,
                    truncated == (truncated0 || inner_stop),
                    lines <= max_lines,
                    (max - lines) as nat + taken.len() == room0,
                    inner_stop ==> lines == max_lines,
                    inner_stop ==> taken == sampled_lines(ls, room0),
                    !inner_stop ==> taken + sampled_lines(ls.skip(j as int), (max - lines) as nat) == sampled_lines(ls, room0),
                    (body_count(ls) > room0) == (inner_stop || body_count(ls.skip(j as int)) > (max - lines) as nat),
                    body@ == head + lines_text(taken),
                    added as nat == added0 as nat + kind_count(taken, DiffLineKind::Add),
                    removed as nat == removed0 as nat + kind_count(taken, DiffLineKind::Remove),
                    added0 as nat + kind_count(sampled_lines(ls, room0), DiffLineKind::Add) <= u32::MAX,
                    removed0 as nat + kind_count(sampled_lines(ls, room0), DiffLineKind::Remove) <= u32::MAX,
                decreases (hunk.lines.len() - j) + (if inner_stop { 0int } else { 1int }),
            {
                let l = &hunk.lines[j];
                proof {
                    assert(ls.skip(j as int)[0] == l@);
                    assert(ls.skip(j as int).drop_first() =~= ls.skip(j + 1));
                }
                if l.kind == DiffLineKind::Header {
                    j += 1;
                } else if lines >= max_lines {
                    truncated = true;
                    inner_stop = true;
                    proof {
                        lemma_sampled_zero(ls.skip(j as int));
                        assert((max - lines) as nat == 0);
                        assert(sampled_lines(ls.skip(j as int), 0) == Seq::<DiffLineV>::empty());
                        assert(taken + Seq::<DiffLineV>::empty() =~= taken);
                        assert(taken == sampled_lines(ls, room0));
                    }
                } else {
                    proof {
                        assert(is_body(l@));
                        assert(sampled_lines(ls.skip(j as int), (max - lines) as nat) == seq![l@] + sampled_lines(ls.skip(j + 1), (max - lines - 1) as nat));
                        assert(taken.push(l@) + sampled_lines(ls.skip(j + 1), (max - lines - 1) as nat)
                            =~= taken + sampled_lines(ls.skip(j as int), (max - lines) as nat));
                        assert(taken.push(l@).drop_last() =~= taken);
                        lemma_kind_count_mono(sampled_lines(ls, room0), taken.push(l@), DiffLineKind::Add);
                        lemma_kind_count_mono(sampled_lines(ls, room0), taken.push(l@), DiffLineKind::Remove);
                    }
                    if l.kind == DiffLineKind::Add {
                        added += 1;
                        push_char(&mut body, '+');
                    } else if l.kind == DiffLineKind::Remove {
                        removed += 1;
                        push_char(&mut body, '-');
                    } else {
                        push_char(&mut body, ' ');
                    }
                    push_str(&mut body, l.content.as_str());
                    push_char(&mut body, '\n');
                    proof {
                        taken = taken.push(l@);
                        assert(body@ =~= head + lines_text(taken));
                    }
                    lines += 1;
                    j += 1;
                }
            }
            proof {
                if !inner_stop {
                    assert(ls.skip(j as int) =~= Seq::<DiffLineV>::empty());
                    assert(taken + Seq::<DiffLineV>::empty() =~= taken);
                }
                lemma_sampled_len(ls, room0);
                let rest = sampled_hunks(hs.skip(i + 1), (max - lines) as nat);
                assert(sampled_hunks(hs.skip(i as int), room0) == seq![(hunk@, taken)] + rest);
                assert(done.push((hunk@, taken)) + rest =~= done + (seq![(hunk@, taken)] + rest));
                assert(done.push((hunk@, taken)).drop_last() =~= done);
                done = done.push((hunk@, taken));
                if inner_stop {
                    assert(body_count(ls) > room0);
                    assert(sample_truncated(hs.skip(i as int), room0));
                } else {
                    assert(body_count(ls) <= room0);
                    assert(taken.len() == body_count(ls));
                    assert(sample_truncated(hs.skip(i as int), room0) == sample_truncated(hs.skip(i + 1), (room0 - body_count(ls)) as nat));
                }
            }
            if inner_stop {
                stop = i + 1 < f.hunks.len();
                if !stop {
                    proof {
                        assert(hs.skip(i + 1) =~= Seq::<DiffHunkV>::empty());
                    }
                }
            }
            i += 1;
        }
    }
    proof {
        if !stop {
            assert(hs.skip(i as int) =~= Seq::<DiffHunkV>::empty());
            assert(done + Seq::<(DiffHunkV, Seq<DiffLineV>)>::empty() =~= done);
        } else {
            assert(sampled_hunks(hs.skip(i as int), 0) =~= Seq::<(DiffHunkV, Seq<DiffLineV>)>::empty());
            assert(done + Seq::<(DiffHunkV, Seq<DiffLineV>)>::empty() =~= done);
        }
    }
    assert(done == sampled_hunks(hs, max));
    assert(truncated == sample_truncated(hs, max));
    let mut text = String::new();
    push_str(&mut text, "--- ");
    push_str(&mut text, path);
    push_str(&mut text, " (+");
    push_u64(&mut text, added as u64);
    push_str(&mut text, " -");
    push_u64(&mut text, removed as u64);
    if truncated {
        push_str(&mut text, ", truncated");
    }
    push_str(&mut text, ")\n");
    push_str(&mut text, body.as_str());
    DiffFileCtx { path: path.to_string(), is_binary: false, added, removed, text, truncated }
}

proof fn lemma_kind_count_mono(all: Seq<DiffLineV>, pre: Seq<DiffLineV>, k: DiffLineKind)
    requires
        pre.len() <= all.len(),
        forall|i: int| 0 <= i < pre.len() ==> pre[i] == all[i],
    ensures
        kind_count(pre, k) <= kind_count(all, k),
    decreases all.len(),
{
    if all.len() > pre.len() {
        lemma_kind_count_mono(all.drop_last(), pre, k);
    } else if pre.len() > 0 {
        lemma_kind_count_mono(all.drop_last(), pre.drop_last(), k);
        assert(pre.last() == all.last());
    }
}


/// The path a file is shown under: the new path, else the old one.
pub open spec fn file_path(f: DiffFileV) -> Seq<char> {
    match f.new_path {
        Some(p) => p,
        None => match f.old_path {
            Some(p) => p,
            None => "(unknown)"@,
        },
    }
}

/// The excerpts of the files that the filter lets through, in diff order.
pub open spec fn rendered_kept(files: Seq<DiffFileV>, regexes: Seq<Seq<char>>, max_lines: nat) -> Seq<DiffFileCtxV> {
    filter_map(
        files,
        |f: DiffFileV|
            if excluded_by(regexes, file_path(f)) {
                None
            } else {
                Some(render_spec(f, file_path(f), max_lines))
            },
    )
}

/// Changed lines of each excerpt.
pub open spec fn weights(cs: Seq<DiffFileCtxV>) -> Seq<nat> {
    Seq::new(cs.len(), |p: int| cs[p].added + cs[p].removed)
}

/// Characters of each excerpt.
pub open spec fn sizes(cs: Seq<DiffFileCtxV>) -> Seq<nat> {
    Seq::new(cs.len(), |p: int| cs[p].text.len())
}

/// Inserts position `p` before the first position that is lighter.
pub open spec fn insert_ranked(o: Seq<int>, p: int, ws: Seq<nat>) -> Seq<int>
    decreases o.len(),
{
    if o.len() == 0 {
        seq![p]
    } else if ws[p] > ws[o[0]] {
        seq![p] + o
    } else {
        seq![o[0]] + insert_ranked(o.drop_first(), p, ws)
    }
}

/// Positions `0..n` heaviest first; equal weights keep their order (a
/// stable sort by descending weight).
pub open spec fn rank_order(ws: Seq<nat>, n: nat) -> Seq<int>
    decreases n,
{
    if n == 0 {
        Seq::<int>::empty()
    } else {
        insert_ranked(rank_order(ws, (n - 1) as nat), n - 1, ws)
    }
}

/// Greedy budget: in order `o`, a position whose excerpt still fits in
/// `room` keeps it and uses that room; the others are omitted.
pub open spec fn omitted_from(o: Seq<int>, sizes: Seq<nat>, room: nat) -> Set<int>
    decreases o.len(),
{
    if o.len() == 0 {
        Set::<int>::empty()
    } else if sizes[o[0]] <= room {
        omitted_from(o.drop_first(), sizes, (room - sizes[o[0]]) as nat)
    } else {
        omitted_from(o.drop_first(), sizes, room).insert(o[0])
    }
}

pub open spec fn budget_omitted(cs: Seq<DiffFileCtxV>, total: nat) -> Set<int> {
    omitted_from(rank_order(weights(cs), cs.len()), sizes(cs), total)
}

/// The one line that stands for an omitted excerpt.
pub open spec fn placeholder_text(c: DiffFileCtxV) -> Seq<char> {
    "["@ + c.path + " omitted: +"@ + dec_string(c.added) + " -"@ + dec_string(c.removed)
        + " lines exceeded the context budget]\n"@
}

/// The excerpts after the budget: omitted ones become their placeholder.
pub open spec fn budgeted(cs: Seq<DiffFileCtxV>, total: nat) -> Seq<DiffFileCtxV> {
    Seq::new(
        cs.len(),
        |p: int|
            if budget_omitted(cs, total).contains(p) {
                DiffFileCtxV { text: placeholder_text(cs[p]), ..cs[p] }
            } else {
                cs[p]
            },
    )
}

/// Characters of all excerpts.
pub open spec fn total_text(fs: Seq<DiffFileCtxV>) -> nat
    decreases fs.len(),
{
    if fs.len() == 0 {
        0
    } else {
        total_text(fs.drop_last()) + fs.last().text.len()
    }
}

/// Whether one of the first `n` excerpts was omitted by the budget or cut
/// by the line cap.
pub open spec fn any_cut(cs: Seq<DiffFileCtxV>, total: nat, n: int) -> bool {
    exists|x: int| 0 <= x < n && #[trigger] cut_at(cs, total, x)
}

/// Excerpt `x` was omitted by the budget or cut by the line cap.
pub open spec fn cut_at(cs: Seq<DiffFileCtxV>, total: nat, x: int) -> bool {
    budget_omitted(cs, total).contains(x) || cs[x].truncated
}

/// The sampled context of a staged diff.
#[derive(Debug, Clone)]
pub struct DiffContext {
    pub files: Vec<DiffFileCtx>,
    pub excluded_files: usize,
    /// Characters rendered, placeholders included.
    pub total_chars: usize,
    /// Some file was cut by the line cap or omitted by the budget.
    pub truncated: bool,
}

pub struct DiffContextV {
    pub files: Seq<DiffFileCtxV>,
    pub excluded_files: nat,
    pub total_chars: nat,
    pub truncated: bool,
}

impl View for DiffContext {
    type V = DiffContextV;

    open spec fn view(&self) -> DiffContextV {
        DiffContextV {
            files: seq_view(self.files@),
            excluded_files: self.excluded_files as nat,
            total_chars: self.total_chars as nat,
            truncated: self.truncated,
        }
    }
}

impl Default for DiffContext {
    fn default() -> (r: Self)
        ensures
            r@.files.len() == 0,
            r@.excluded_files == 0,
            r@.total_chars == 0,
            !r@.truncated,
    {
        DiffContext { files: Vec::new(), excluded_files: 0, total_chars: 0, truncated: false }
    }
}

/// What `build_diff_context` gives for a model under a filter and budget.
pub open spec fn diff_context_spec(files: Seq<DiffFileV>, regexes: Seq<Seq<char>>, per_file: nat, total: nat) -> DiffContextV {
    let cs = rendered_kept(files, regexes, per_file);
    let out = budgeted(cs, total);
    DiffContextV {
        files: out,
        excluded_files: (files.len() - cs.len()) as nat,
        total_chars: if total_text(out) <= usize::MAX {
            total_text(out)
        } else {
            usize::MAX as nat
        },
        truncated: any_cut(cs, total, cs.len() as int),
    }
}

fn char_count(s: &str) -> (r: usize)
    ensures
        r == s@.len(),
{
    let v = to_chars(s);
    v.len()
}

fn copy_string(s: &String) -> (r: String)
    ensures
        r@ == s@,
{
    s.clone()
}

proof fn lemma_insert_ranked_step(o: Seq<int>, p: int, ws: Seq<nat>, q: int)
    requires
        0 <= q < o.len(),
        !(ws[p] > ws[o[q]]),
    ensures
        o.take(q) + insert_ranked(o.skip(q), p, ws) == o.take(q + 1) + insert_ranked(o.skip(q + 1), p, ws),
{
    assert(o.skip(q).drop_first() =~= o.skip(q + 1));
    assert(o.skip(q)[0] == o[q]);
    assert(insert_ranked(o.skip(q), p, ws) == seq![o[q]] + insert_ranked(o.skip(q + 1), p, ws));
    assert(o.take(q) + (seq![o[q]] + insert_ranked(o.skip(q + 1), p, ws)) =~= o.take(q + 1) + insert_ranked(
        o.skip(q + 1),
        p,
        ws,
    ));
}

/// The positions of the excerpts in the order the budget is spent.
fn rank_positions(ws: &Vec<u64>) -> (r: Vec<usize>)
    ensures
        r@.len() == ws@.len(),
        forall|t: int| 0 <= t < r@.len() ==> #[trigger] r@[t] < ws@.len(),
        r@.map_values(|x: usize| x as int) == rank_order(ws@.map_values(|w: u64| w as nat), ws@.len()),
{
    let ghost wn = ws@.map_values(|w: u64| w as nat);
    let mut order: Vec<usize> = Vec::new();
    let mut p: usize = 0;
    while p < ws.len()
        invariant
            0 <= p <= ws@.len(),
            wn == ws@.map_values(|w: u64| w as nat),
            order@.len() == p,
            forall|t: int| 0 <= t < order@.len() ==> #[trigger] order@[t] < p,
            order@.map_values(|x: usize| x as int) == rank_order(wn, p as nat),
        decreases ws.len() - p,
    {
        let ghost o = order@.map_values(|x: usize| x as int);
        let mut q: usize = 0;
        assert(o.skip(0) =~= o);
        assert(o.take(0) + insert_ranked(o.skip(0), p as int, wn) =~= insert_ranked(o, p as int, wn));
        while q < order.len() && !(ws[p] > ws[order[q]])
            invariant
                0 <= q <= order@.len(),
                p < ws@.len(),
                wn == ws@.map_values(|w: u64| w as nat),
                o == order@.map_values(|x: usize| x as int),
                forall|t: int| 0 <= t < order@.len() ==> #[trigger] order@[t] < p,
                o.take(q as int) + insert_ranked(o.skip(q as int), p as int, wn) == insert_ranked(o, p as int, wn),
            decreases order.len() - q,
        {
            proof {
                lemma_insert_ranked_step(o, p as int, wn, q as int);
            }
            q += 1;
        }
        proof {
            if q < order.len() {
                assert(o.skip(q as int)[0] == o[q as int]);
                assert(insert_ranked(o.skip(q as int), p as int, wn) == seq![p as int] + o.skip(q as int));
            } else {
                assert(o.skip(q as int) =~= Seq::<int>::empty());
            }
        }
        order.insert(q, p);
        proof {
            assert(order@.map_values(|x: usize| x as int) =~= o.take(q as int) + insert_ranked(
                o.skip(q as int),
                p as int,
                wn,
            ));
        }
        p += 1;
    }
    order
}

/// Builds the sampled context of a staged diff: files the filter excludes
/// are left out (and counted); each other file is rendered under the
/// per-file line cap; then, heaviest first, excerpts that no longer fit in
/// the character budget become a one-line placeholder. Diff order is kept.
pub fn build_diff_context(model: &DiffModel, filter: &PathFilter, budget: &DiffBudget) -> (r: DiffContext)
    requires
        forall|k: int| 0 <= k < model@.files.len() ==> file_body_lines(#[trigger] model@.files[k].hunks) <= u32::MAX,
    ensures
        r@ == diff_context_spec(model@.files, filter@.regexes, budget.per_file_lines as nat, budget.total_chars as nat),
{
    let ghost files = model@.files;
    let ghost regexes = filter@.regexes;
    let ghost per_file = budget.per_file_lines as nat;
    let ghost fk = |f: DiffFileV|
        if excluded_by(regexes, file_path(f)) {
            None
        } else {
            Some(render_spec(f, file_path(f), per_file))
        };
    let mut cs: Vec<DiffFileCtx> = Vec::new();
    let mut excluded_files: usize = 0;
    let mut k: usize = 0;
    while k < model.files.len()
        invariant
            0 <= k <= files.len(),
            files == model@.files,
            regexes == filter@.regexes,
            per_file == budget.per_file_lines as nat,
            fk == (|f: DiffFileV|
                if excluded_by(regexes, file_path(f)) {
                    None
                } else {
                    Some(render_spec(f, file_path(f), per_file))
                }),
            forall|j: int| 0 <= j < files.len() ==> file_body_lines(#[trigger] files[j].hunks) <= u32::MAX,
            seq_view(cs@) == filter_map(files.take(k as int), fk),
            excluded_files + cs@.len() == k,
        decreases model.files.len() - k,
    {
        proof {
            lemma_filter_map_step(files, fk, k as int);
        }
        let f = &model.files[k];
        assert(f@ == files[k as int]);
        let path: String = match &f.new_path {
            Some(p) => copy_string(p),
            None => match &f.old_path {
                Some(p) => copy_string(p),
                None => "(unknown)".to_string(),
            },
        };
        assert(path@ == file_path(f@));
        if filter.is_excluded(path.as_str()) {
            excluded_files += 1;
        } else {
            let c = render_file(f, path.as_str(), budget.per_file_lines);
            let ghost before = cs@;
            cs.push(c);
            proof {
                crate::model::lemma_seq_view_push(before, c);
            }
        }
        k += 1;
    }
    assert(files.take(files.len() as int) =~= files);
    let ghost csv = seq_view(cs@);
    assert(csv == rendered_kept(files, regexes, per_file));
    let m = cs.len();
    // Weights and sizes of the kept excerpts.
    let mut ws: Vec<u64> = Vec::new();
    let mut sz: Vec<usize> = Vec::new();
    let mut p: usize = 0;
    while p < m
        invariant
            0 <= p <= m,
            m == cs@.len(),
            csv == seq_view(cs@),
            ws@.len() == p,
            sz@.len() == p,
            forall|t: int| 0 <= t < p ==> #[trigger] ws@[t] == csv[t].added + csv[t].removed,
            forall|t: int| 0 <= t < p ==> #[trigger] sz@[t] == csv[t].text.len(),
        decreases m - p,
    {
        let c = &cs[p];
        ws.push(c.added as u64 + c.removed as u64);
        let n = char_count(c.text.as_str());
        sz.push(n);
        p += 1;
    }
    let ghost wn = ws@.map_values(|w: u64| w as nat);
    assert(wn =~= weights(csv));
    let ghost sn = sizes(csv);
    let order = rank_positions(&ws);
    let ghost o = order@.map_values(|x: usize| x as int);
    assert(o == rank_order(weights(csv), csv.len()));
    // Spend the character budget, heaviest first.
    let mut omit: Vec<bool> = Vec::new();
    let mut t: usize = 0;
    while t < m
        invariant
            0 <= t <= m,
            omit@.len() == t,
            forall|x: int| 0 <= x < t ==> !(#[trigger] omit@[x]),
        decreases m - t,
    {
        omit.push(false);
        t += 1;
    }
    let ghost total = budget.total_chars as nat;
    let ghost mut done: Set<int> = Set::empty();
    let mut used: usize = 0;
    t = 0;
    assert(o.skip(0) =~= o);
    assert(done.union(omitted_from(o.skip(0), sn, total)) =~= omitted_from(o, sn, total));
    while t < m
        invariant
            0 <= t <= m,
            m == cs@.len(),
            csv == seq_view(cs@),
            sn == sizes(csv),
            order@.len() == m,
            o == order@.map_values(|x: usize| x as int),
            forall|x: int| 0 <= x < m ==> #[trigger] order@[x] < m,
            sz@.len() == m,
            forall|x: int| 0 <= x < m ==> #[trigger] sz@[x] == csv[x].text.len(),
            total == budget.total_chars as nat,
            used <= budget.total_chars,
            omit@.len() == m,
            forall|x: int| 0 <= x < m ==> #[trigger] omit@[x] == done.contains(x),
            done.union(omitted_from(o.skip(t as int), sn, (total - used) as nat)) == omitted_from(o, sn, total),
        decreases m - t,
    {
        let pos = order[t];
        let n = sz[pos];
        let ghost room = (total - used) as nat;
        proof {
            assert(o.skip(t as int)[0] == pos as int);
            assert(o.skip(t as int).drop_first() =~= o.skip(t + 1));
            assert(sn[pos as int] == n);
        }
        if n <= budget.total_chars - used {
            used += n;
        } else {
            omit.set(pos, true);
            proof {
                let rest = omitted_from(o.skip(t + 1), sn, room);
                assert(done.insert(pos as int).union(rest) =~= done.union(rest.insert(pos as int)));
                done = done.insert(pos as int);
            }
        }
        t += 1;
    }
    assert(o.skip(m as int) =~= Seq::<int>::empty());
    assert(done =~= budget_omitted(csv, total));
    // Assemble in diff order.
    let ghost out = budgeted(csv, total);
    let mut files_out: Vec<DiffFileCtx> = Vec::new();
    let mut total_chars: usize = 0;
    let mut truncated = false;
    p = 0;
    while p < m
        invariant
            0 <= p <= m,
            m == cs@.len(),
            csv == seq_view(cs@),
            out == budgeted(csv, total),
            omit@.len() == m,
            forall|x: int| 0 <= x < m ==> #[trigger] omit@[x] == budget_omitted(csv, total).contains(x),
            seq_view(files_out@) == out.take(p as int),
            truncated == any_cut(csv, total, p as int),
            total_chars as nat == (if total_text(out.take(p as int)) <= usize::MAX {
                total_text(out.take(p as int))
            } else {
                usize::MAX as nat
            }),
        decreases m - p,
    {
        assert(truncated == any_cut(csv, total, p as int));
        let c = &cs[p];
        let text = if omit[p] {
            let mut t = String::new();
            push_str(&mut t, "[");
            push_str(&mut t, c.path.as_str());
            push_str(&mut t, " omitted: +");
            push_u64(&mut t, c.added as u64);
            push_str(&mut t, " -");
            push_u64(&mut t, c.removed as u64);
            push_str(&mut t, " lines exceeded the context budget]\n");
            t
        } else {
            copy_string(&c.text)
        };
        let n = char_count(text.as_str());
        let entry = DiffFileCtx {
            path: copy_string(&c.path),
            is_binary: c.is_binary,
            added: c.added,
            removed: c.removed,
            text,
            truncated: c.truncated,
        };
        assert(entry@ == out[p as int]);
        proof {
            assert(out.take(p + 1).drop_last() =~= out.take(p as int));
            assert(out.take(p + 1).last() == entry@);
        }
        total_chars = total_chars.saturating_add(n);
        let ghost was = truncated;
        assert(was == any_cut(csv, total, p as int));
        truncated = truncated || omit[p] || c.truncated;
        proof {
            assert(csv[p as int] == c@);
            if truncated && !was {
                assert(budget_omitted(csv, total).contains(p as int) || csv[p as int].truncated);
            }
            if !truncated {
                assert(!cut_at(csv, total, p as int));
                if any_cut(csv, total, p + 1) {
                    let x = choose|x: int| 0 <= x < p + 1 && #[trigger] cut_at(csv, total, x);
                    assert(x < p);
                    assert(any_cut(csv, total, p as int));
                }
            } else if was {
                let x = choose|x: int| 0 <= x < p && #[trigger] cut_at(csv, total, x);
                assert(0 <= x < p + 1 && cut_at(csv, total, x));
            } else {
                assert(cut_at(csv, total, p as int));
            }
        }
        let ghost before = files_out@;
        files_out.push(entry);
        proof {
            crate::model::lemma_seq_view_push(before, entry);
        }
        p += 1;
    }
    assert(out.take(m as int) =~= out);
    DiffContext { files: files_out, excluded_files, total_chars, truncated }
}

/// Added and removed lines over all excerpts.
pub open spec fn sum_added(fs: Seq<DiffFileCtxV>) -> nat
    decreases fs.len(),
{
    if fs.len() == 0 {
        0
    } else {
        sum_added(fs.drop_last()) + fs.last().added
    }
}

pub open spec fn sum_removed(fs: Seq<DiffFileCtxV>) -> nat
    decreases fs.len(),
{
    if fs.len() == 0 {
        0
    } else {
        sum_removed(fs.drop_last()) + fs.last().removed
    }
}

pub open spec fn texts(fs: Seq<DiffFileCtxV>) -> Seq<char>
    decreases fs.len(),
{
    if fs.len() == 0 {
        Seq::<char>::empty()
    } else {
        texts(fs.drop_last()) + fs.last().text
    }
}

/// The text sent to the model for a sampled context.
pub open spec fn diff_context_text(c: DiffContextV) -> Seq<char> {
    "Staged changes: "@ + dec_string(c.files.len()) + " files (+"@ + dec_string(sum_added(c.files)) + " -"@
        + dec_string(sum_removed(c.files)) + ")\n"@ + (if c.excluded_files > 0 {
        "("@ + dec_string(c.excluded_files) + " files were excluded by privacy rules and are NOT shown)\n"@
    } else {
        Seq::<char>::empty()
    }) + "\n"@ + texts(c.files)
}

proof fn lemma_sum_mono(fs: Seq<DiffFileCtxV>, i: int)
    requires
        0 <= i <= fs.len(),
    ensures
        sum_added(fs.take(i)) <= sum_added(fs),
        sum_removed(fs.take(i)) <= sum_removed(fs),
    decreases fs.len() - i,
{
    if i < fs.len() {
        lemma_sum_mono(fs, i + 1);
        assert(fs.take(i + 1).drop_last() =~= fs.take(i));
    } else {
        assert(fs.take(i) =~= fs);
    }
}

/// Renders a sampled context as the model reads it: a summary line, a
/// privacy note when files were excluded, a blank line, the excerpts.
pub fn render_diff_context(ctx: &DiffContext) -> (r: String)
    requires
        sum_added(ctx@.files) <= u32::MAX,
        sum_removed(ctx@.files) <= u32::MAX,
    ensures
        r@ == diff_context_text(ctx@),
{
    let ghost fs = ctx@.files;
    let mut added: u32 = 0;
    let mut removed: u32 = 0;
    let mut body = String::new();
    let mut i: usize = 0;
    while i < ctx.files.len()
        invariant
            0 <= i <= fs.len(),
            fs == ctx@.files,
            sum_added(fs) <= u32::MAX,
            sum_removed(fs) <= u32::MAX,
            added == sum_added(fs.take(i as int)),
            removed == sum_removed(fs.take(i as int)),
            body@ == texts(fs.take(i as int)),
        decreases ctx.files.len() - i,
    {
        let f = &ctx.files[i];
        proof {
            assert(fs.take(i + 1).drop_last() =~= fs.take(i as int));
            assert(fs.take(i + 1).last() == f@);
            lemma_sum_mono(fs, i + 1);
        }
        added = added + f.added;
        removed = removed + f.removed;
        push_str(&mut body, f.text.as_str());
        i += 1;
    }
    assert(fs.take(fs.len() as int) =~= fs);
    let mut out = String::new();
    push_str(&mut out, "Staged changes: ");
    push_u64(&mut out, ctx.files.len() as u64);
    push_str(&mut out, " files (+");
    push_u64(&mut out, added as u64);
    push_str(&mut out, " -");
    push_u64(&mut out, removed as u64);
    push_str(&mut out, ")\n");
    if ctx.excluded_files > 0 {
        push_str(&mut out, "(");
        push_u64(&mut out, ctx.excluded_files as u64);
        push_str(&mut out, " files were excluded by privacy rules and are NOT shown)\n");
    }
    push_str(&mut out, "\n");
    push_str(&mut out, body.as_str());
    out
}


// =====================
// Report context: commit listings
// =====================

/// Above this many commits a report is summarised batch by batch.
pub const MAP_REDUCE_COMMIT_THRESHOLD: usize = 120;
/// Above this many bytes of listing a report is summarised batch by batch.
pub const MAP_REDUCE_CHARS_THRESHOLD: usize = 24_000;
/// Most commits in one batch.
pub const BATCH_MAX_COMMITS: usize = 60;
/// Most bytes of listing in one batch.
pub const BATCH_MAX_CHARS: usize = 12_000;

/// One file's line in a listing.
pub open spec fn stat_text(f: NumstatFileV) -> Seq<char> {
    if f.binary {
        f.path + " (binary)"@
    } else {
        f.path + " +"@ + dec_string(f.additions as nat) + " -"@ + dec_string(f.deletions as nat)
    }
}

/// The file lines of the files the filter lets through.
pub open spec fn kept_stats(files: Seq<NumstatFileV>, regexes: Seq<Seq<char>>) -> Seq<Seq<char>> {
    filter_map(
        files,
        |f: NumstatFileV|
            if excluded_by(regexes, f.path) {
                None
            } else {
                Some(stat_text(f))
            },
    )
}

/// `pieces` joined with `sep` between neighbours.
pub open spec fn join_with(pieces: Seq<Seq<char>>, sep: Seq<char>) -> Seq<char>
    decreases pieces.len(),
{
    if pieces.len() == 0 {
        Seq::<char>::empty()
    } else if pieces.len() == 1 {
        pieces[0]
    } else {
        join_with(pieces.drop_last(), sep) + sep + pieces.last()
    }
}

/// The compact listing of one commit: date, short hash, author and
/// subject, then its kept files' line counts (never a diff).
pub open spec fn commit_text(c: NumstatCommitV, regexes: Seq<Seq<char>>) -> Seq<char> {
    let stats = kept_stats(c.files, regexes);
    "- "@ + c.date + " "@ + c.short_hash + " <"@ + c.email + "> "@ + c.author + "\n  "@ + c.subject + "\n"@
        + (if stats.len() > 0 {
        "  "@ + join_with(stats, "; "@) + "\n"@
    } else {
        Seq::<char>::empty()
    })
}

/// The listings of commits, one after another.
pub open spec fn batch_text(cs: Seq<NumstatCommitV>, regexes: Seq<Seq<char>>) -> Seq<char>
    decreases cs.len(),
{
    if cs.len() == 0 {
        Seq::<char>::empty()
    } else {
        batch_text(cs.drop_last(), regexes) + commit_text(cs.last(), regexes)
    }
}

/// Files the filter excluded over commits.
pub open spec fn batch_excluded(cs: Seq<NumstatCommitV>, regexes: Seq<Seq<char>>) -> nat
    decreases cs.len(),
{
    if cs.len() == 0 {
        0
    } else {
        batch_excluded(cs.drop_last(), regexes) + (cs.last().files.len() - kept_stats(
            cs.last().files,
            regexes,
        ).len()) as nat
    }
}

/// The byte length of a text in UTF-8, as `str::len` gives it.
pub open spec fn byte_len(t: Seq<char>) -> nat {
    (vstd::utf8::encode_utf8(t).len() as usize) as nat
}

fn join_strings(pieces: &Vec<String>, sep: &str) -> (r: String)
    ensures
        r@ == join_with(strs(pieces@), sep@),
{
    let ghost ps = strs(pieces@);
    let mut out = String::new();
    if pieces.len() == 0 {
        return out;
    }
    push_str(&mut out, pieces[0].as_str());
    assert(ps.take(1).len() == 1);
    assert(ps.take(1)[0] == ps[0]);
    let mut i: usize = 1;
    while i < pieces.len()
        invariant
            1 <= i <= pieces@.len(),
            ps == strs(pieces@),
            out@ == join_with(ps.take(i as int), sep@),
        decreases pieces.len() - i,
    {
        assert(ps.take(i + 1).drop_last() =~= ps.take(i as int));
        assert(ps.take(i + 1).last() == pieces@[i as int]@);
        push_str(&mut out, sep);
        push_str(&mut out, pieces[i].as_str());
        i += 1;
    }
    assert(ps.take(pieces@.len() as int) =~= ps);
    out
}

/// The listing of one commit under the filter, with the number of its
/// files the filter excluded.
fn render_commit(c: &NumstatCommit, filter: &PathFilter) -> (r: (String, usize))
    ensures
        r.0@ == commit_text(c@, filter@.regexes),
        r.1 + kept_stats(c@.files, filter@.regexes).len() == c@.files.len(),
{
    let ghost regexes = filter@.regexes;
    let ghost fs = c@.files;
    let ghost fk = |f: NumstatFileV|
        if excluded_by(regexes, f.path) {
            None
        } else {
            Some(stat_text(f))
        };
    let mut stats: Vec<String> = Vec::new();
    let mut excluded: usize = 0;
    let mut i: usize = 0;
    while i < c.files.len()
        invariant
            0 <= i <= fs.len(),
            fs == c@.files,
            regexes == filter@.regexes,
            fk == (|f: NumstatFileV|
                if excluded_by(regexes, f.path) {
                    None
                } else {
                    Some(stat_text(f))
                }),
            strs(stats@) == filter_map(fs.take(i as int), fk),
            excluded + stats@.len() == i,
        decreases c.files.len() - i,
    {
        proof {
            lemma_filter_map_step(fs, fk, i as int);
        }
        let f = &c.files[i];
        assert(f@ == fs[i as int]);
        if filter.is_excluded(f.path.as_str()) {
            excluded += 1;
        } else {
            let mut t = String::new();
            push_str(&mut t, f.path.as_str());
            if f.binary {
                push_str(&mut t, " (binary)");
            } else {
                push_str(&mut t, " +");
                push_u64(&mut t, f.additions as u64);
                push_str(&mut t, " -");
                push_u64(&mut t, f.deletions as u64);
            }
            let ghost before = stats@;
            stats.push(t);
            assert(strs(stats@) =~= strs(before).push(t@));
        }
        i += 1;
    }
    assert(fs.take(fs.len() as int) =~= fs);
    let mut out = String::new();
    push_str(&mut out, "- ");
    push_str(&mut out, c.date.as_str());
    push_str(&mut out, " ");
    push_str(&mut out, c.short_hash.as_str());
    push_str(&mut out, " <");
    push_str(&mut out, c.email.as_str());
    push_str(&mut out, "> ");
    push_str(&mut out, c.author.as_str());
    push_str(&mut out, "\n  ");
    push_str(&mut out, c.subject.as_str());
    push_str(&mut out, "\n");
    if stats.len() > 0 {
        push_str(&mut out, "  ");
        let joined = join_strings(&stats, "; ");
        push_str(&mut out, joined.as_str());
        push_str(&mut out, "\n");
    }
    (out, excluded)
}

/// Renders commits (by reference) as listings, with the number of files
/// the filter excluded (saturating at `usize::MAX`).
pub fn render_report_batch_refs(commits: &[&NumstatCommit], filter: &PathFilter) -> (r: (String, usize))
    ensures
        r.0@ == batch_text(seq_view(commits@), filter@.regexes),
        r.1 as nat == (if batch_excluded(seq_view(commits@), filter@.regexes) <= usize::MAX {
            batch_excluded(seq_view(commits@), filter@.regexes)
        } else {
            usize::MAX as nat
        }),
{
    let ghost cs = seq_view(commits@);
    let ghost regexes = filter@.regexes;
    let mut out = String::new();
    let mut excluded: usize = 0;
    let mut i: usize = 0;
    while i < commits.len()
        invariant
            0 <= i <= commits@.len(),
            cs == seq_view(commits@),
            regexes == filter@.regexes,
            out@ == batch_text(cs.take(i as int), regexes),
            excluded as nat == (if batch_excluded(cs.take(i as int), regexes) <= usize::MAX {
                batch_excluded(cs.take(i as int), regexes)
            } else {
                usize::MAX as nat
            }),
        decreases commits.len() - i,
    {
        let c: &NumstatCommit = commits[i];
        proof {
            assert(cs.take(i + 1).drop_last() =~= cs.take(i as int));
            assert(cs.take(i + 1).last() == c@);
        }
        let (text, ex) = render_commit(c, filter);
        push_str(&mut out, text.as_str());
        excluded = excluded.saturating_add(ex);
        i += 1;
    }
    assert(cs.take(cs.len() as int) =~= cs);
    (out, excluded)
}

/// Renders commits as listings, with the number of excluded files.
pub fn render_report_batch(commits: &[NumstatCommit], filter: &PathFilter) -> (r: (String, usize))
    ensures
        r.0@ == batch_text(seq_view(commits@), filter@.regexes),
        r.1 as nat == (if batch_excluded(seq_view(commits@), filter@.regexes) <= usize::MAX {
            batch_excluded(seq_view(commits@), filter@.regexes)
        } else {
            usize::MAX as nat
        }),
{
    let mut refs: Vec<&NumstatCommit> = Vec::new();
    let mut i: usize = 0;
    while i < commits.len()
        invariant
            0 <= i <= commits@.len(),
            seq_view(refs@) == seq_view(commits@).take(i as int),
        decreases commits.len() - i,
    {
        let ghost before = refs@;
        refs.push(&commits[i]);
        assert(seq_view(refs@) =~= seq_view(before).push(commits@[i as int]@));
        assert(seq_view(commits@).take(i + 1) =~= seq_view(commits@).take(i as int).push(commits@[i as int]@));
        i += 1;
    }
    assert(seq_view(commits@).take(commits@.len() as int) =~= seq_view(commits@));
    render_report_batch_refs(refs.as_slice(), filter)
}

/// The state of batching after some commits: closed batches, the open
/// batch and its size.
pub open spec fn batch_scan(sizes: Seq<nat>, max_commits: nat, max_chars: nat) -> (Seq<Seq<int>>, Seq<int>, nat)
    decreases sizes.len(),
{
    if sizes.len() == 0 {
        (Seq::<Seq<int>>::empty(), Seq::<int>::empty(), 0)
    } else {
        let prev = batch_scan(sizes.drop_last(), max_commits, max_chars);
        let i = sizes.len() - 1;
        let s = sizes.last();
        if prev.1.len() > 0 && (prev.1.len() >= max_commits || prev.2 + s > max_chars) {
            (prev.0.push(prev.1), seq![i], s)
        } else {
            (prev.0, prev.1.push(i), prev.2 + s)
        }
    }
}

/// Consecutive batches of commit positions: a batch closes before a
/// commit that would take it past `max_commits` commits or `max_chars`
/// bytes (a commit alone may exceed the byte limit).
pub open spec fn batches_of(sizes: Seq<nat>, max_commits: nat, max_chars: nat) -> Seq<Seq<int>> {
    let st = batch_scan(sizes, max_commits, max_chars);
    if st.1.len() > 0 {
        st.0.push(st.1)
    } else {
        st.0
    }
}

/// The byte sizes of the commits' listings.
pub open spec fn listing_sizes(cs: Seq<NumstatCommitV>, regexes: Seq<Seq<char>>) -> Seq<nat> {
    Seq::new(cs.len(), |i: int| byte_len(commit_text(cs[i], regexes)))
}

pub open spec fn index_batches(v: Seq<Vec<usize>>) -> Seq<Seq<int>> {
    v.map_values(|b: Vec<usize>| b@.map_values(|i: usize| i as int))
}

/// The batches, joined end to end.
pub open spec fn joined(bs: Seq<Seq<int>>) -> Seq<int>
    decreases bs.len(),
{
    if bs.len() == 0 {
        Seq::<int>::empty()
    } else {
        joined(bs.drop_last()) + bs.last()
    }
}

/// The bytes of the listings of a batch.
pub open spec fn batch_bytes(sizes: Seq<nat>, batch: Seq<int>) -> nat
    decreases batch.len(),
{
    if batch.len() == 0 {
        0
    } else {
        batch_bytes(sizes, batch.drop_last()) + sizes[batch.last()]
    }
}

/// What a batch keeps to: not empty, at most `max_commits` commits (one
/// when that limit is 0), within `max_chars` bytes unless it is one
/// commit alone.
pub open spec fn batch_ok(sizes: Seq<nat>, b: Seq<int>, max_commits: nat, max_chars: nat) -> bool {
    &&& b.len() > 0
    &&& b.len() <= (if max_commits == 0 {
        1
    } else {
        max_commits
    })
    &&& b.len() > 1 ==> batch_bytes(sizes, b) <= max_chars
}

pub(crate) proof fn lemma_scan_in_range(sizes: Seq<nat>, mc: nat, mx: nat)
    ensures
        forall|b: int, t: int|
            0 <= b < batch_scan(sizes, mc, mx).0.len() && 0 <= t
                < batch_scan(sizes, mc, mx).0[b].len() ==> 0
                <= #[trigger] batch_scan(sizes, mc, mx).0[b][t] < sizes.len(),
        forall|t: int|
            0 <= t < batch_scan(sizes, mc, mx).1.len() ==> 0
                <= #[trigger] batch_scan(sizes, mc, mx).1[t] < sizes.len(),
    decreases sizes.len(),
{
    if sizes.len() > 0 {
        lemma_scan_in_range(sizes.drop_last(), mc, mx);
        let prev = batch_scan(sizes.drop_last(), mc, mx);
        let st = batch_scan(sizes, mc, mx);
        let i = sizes.len() - 1;
        if prev.1.len() > 0 && (prev.1.len() >= mc || prev.2 + sizes.last() > mx) {
            assert(st.0 == prev.0.push(prev.1));
            assert(st.1 == seq![i]);
            assert forall|b: int, t: int| 0 <= b < st.0.len() && 0 <= t < st.0[b].len() implies 0 <= #[trigger] st.0[b][t] < sizes.len() by {
                if b < prev.0.len() {
                    assert(st.0[b] == prev.0[b]);
                } else {
                    assert(st.0[b] == prev.1);
                }
            }
        } else {
            assert(st.0 == prev.0);
            assert(st.1 == prev.1.push(i));
            assert forall|t: int| 0 <= t < st.1.len() implies 0 <= #[trigger] st.1[t] < sizes.len() by {
                if t < prev.1.len() {
                    assert(st.1[t] == prev.1[t]);
                }
            }
        }
    }
}

proof fn lemma_scan_partition(sizes: Seq<nat>, mc: nat, mx: nat)
    ensures
        joined(batch_scan(sizes, mc, mx).0) + batch_scan(sizes, mc, mx).1 == Seq::new(sizes.len(), |i: int| i),
        forall|b: int|
            0 <= b < batch_scan(sizes, mc, mx).0.len() ==> batch_ok(
                sizes,
                #[trigger] batch_scan(sizes, mc, mx).0[b],
                mc,
                mx,
            ),
        batch_scan(sizes, mc, mx).1.len() <= (if mc == 0 {
            1
        } else {
            mc
        }),
        batch_scan(sizes, mc, mx).2 == batch_bytes(sizes, batch_scan(sizes, mc, mx).1),
        batch_scan(sizes, mc, mx).1.len() > 1 ==> batch_scan(sizes, mc, mx).2 <= mx,
        (batch_scan(sizes, mc, mx).1.len() > 0) == (sizes.len() > 0),
    decreases sizes.len(),
{
    if sizes.len() > 0 {
        let pre = sizes.drop_last();
        lemma_scan_partition(pre, mc, mx);
        lemma_scan_in_range(pre, mc, mx);
        lemma_bytes_prefix(sizes, batch_scan(pre, mc, mx).1);
        let prev = batch_scan(pre, mc, mx);
        let i = sizes.len() - 1;
        let s = sizes.last();
        let st = batch_scan(sizes, mc, mx);
        if prev.1.len() > 0 && (prev.1.len() >= mc || prev.2 + s > mx) {
            assert(st == (prev.0.push(prev.1), seq![i], s));
            assert(joined(prev.0.push(prev.1)) == joined(prev.0) + prev.1) by {
                assert(prev.0.push(prev.1).drop_last() =~= prev.0);
            }
            assert(joined(st.0) + st.1 =~= Seq::new(sizes.len(), |j: int| j)) by {
                assert(joined(prev.0) + prev.1 =~= Seq::new(pre.len(), |j: int| j));
            }
            assert forall|b: int| 0 <= b < st.0.len() implies batch_ok(sizes, #[trigger] st.0[b], mc, mx) by {
                if b < prev.0.len() {
                    assert(st.0[b] == prev.0[b]);
                    lemma_bytes_prefix(sizes, prev.0[b]);
                }
            }
            assert(batch_bytes(sizes, seq![i]) == s) by {
                assert(seq![i].drop_last() =~= Seq::<int>::empty());
                assert(batch_bytes(sizes, Seq::<int>::empty()) == 0);
                assert(seq![i].last() == i);
            }
        } else {
            assert(st == (prev.0, prev.1.push(i), prev.2 + s));
            assert(joined(st.0) + st.1 =~= Seq::new(sizes.len(), |j: int| j)) by {
                assert(joined(prev.0) + prev.1 =~= Seq::new(pre.len(), |j: int| j));
                assert(joined(prev.0) + prev.1.push(i) =~= (joined(prev.0) + prev.1).push(i));
                assert(Seq::new(sizes.len(), |j: int| j) =~= Seq::new(pre.len(), |j: int| j).push(i));
            }
            assert forall|b: int| 0 <= b < st.0.len() implies batch_ok(sizes, #[trigger] st.0[b], mc, mx) by {
                lemma_bytes_prefix(sizes, prev.0[b]);
            }
            assert(prev.1.push(i).drop_last() =~= prev.1);
        }
    }
}

/// Positions of a shorter prefix weigh the same in the longer sizes.
proof fn lemma_bytes_prefix(sizes: Seq<nat>, b: Seq<int>)
    requires
        sizes.len() > 0,
        forall|t: int| 0 <= t < b.len() ==> 0 <= #[trigger] b[t] < sizes.len() - 1,
    ensures
        batch_bytes(sizes.drop_last(), b) == batch_bytes(sizes, b),
    decreases b.len(),
{
    if b.len() > 0 {
        lemma_bytes_prefix(sizes, b.drop_last());
    }
}

/// Map-reduce batching keeps every commit exactly once and in order: the
/// batches joined are the positions `0..n`; each batch is non-empty,
/// holds at most `max_commits` commits (one when that limit is 0), and
/// stays within `max_chars` bytes unless it is a single commit.
pub proof fn lemma_batches_partition(sizes: Seq<nat>, max_commits: nat, max_chars: nat)
    ensures
        joined(batches_of(sizes, max_commits, max_chars)) == Seq::new(sizes.len(), |i: int| i),
        forall|b: int|
            0 <= b < batches_of(sizes, max_commits, max_chars).len() ==> batch_ok(
                sizes,
                #[trigger] batches_of(sizes, max_commits, max_chars)[b],
                max_commits,
                max_chars,
            ),
{
    lemma_scan_partition(sizes, max_commits, max_chars);
    let st = batch_scan(sizes, max_commits, max_chars);
    if st.1.len() > 0 {
        assert(st.0.push(st.1).drop_last() =~= st.0);
        assert forall|b: int| 0 <= b < st.0.push(st.1).len() implies batch_ok(
            sizes,
            #[trigger] st.0.push(st.1)[b],
            max_commits,
            max_chars,
        ) by {
            if b < st.0.len() {
                assert(st.0.push(st.1)[b] == st.0[b]);
            }
        }
    } else {
        assert(joined(st.0) + st.1 =~= joined(st.0));
    }
}

/// Splits commits, in order, into batches for map-reduce summarising.
pub fn batch_for_map_reduce(commits: &[NumstatCommit], filter: &PathFilter, max_commits: usize, max_chars: usize) -> (r: Vec<Vec<usize>>)
    ensures
        index_batches(r@) == batches_of(
            listing_sizes(seq_view(commits@), filter@.regexes),
            max_commits as nat,
            max_chars as nat,
        ),
{
    let ghost sizes = listing_sizes(seq_view(commits@), filter@.regexes);
    let ghost mc = max_commits as nat;
    let ghost mx = max_chars as nat;
    let mut batches: Vec<Vec<usize>> = Vec::new();
    let mut current: Vec<usize> = Vec::new();
    let mut chars: usize = 0;
    let mut i: usize = 0;
    while i < commits.len()
        invariant
            0 <= i <= commits@.len(),
            sizes == listing_sizes(seq_view(commits@), filter@.regexes),
            mc == max_commits as nat,
            mx == max_chars as nat,
            index_batches(batches@) == batch_scan(sizes.take(i as int), mc, mx).0,
            current@.map_values(|x: usize| x as int) == batch_scan(sizes.take(i as int), mc, mx).1,
            chars as nat == batch_scan(sizes.take(i as int), mc, mx).2,
            current@.len() == 0 ==> chars == 0,
            forall|t: int| 0 <= t < current@.len() ==> #[trigger] current@[t] < i,
        decreases commits.len() - i,
    {
        let (text, _) = render_commit(&commits[i], filter);
        let size = text.as_str().len();
        proof {
            assert(sizes.take(i + 1).drop_last() =~= sizes.take(i as int));
            assert(sizes.take(i + 1).last() == sizes[i as int]);
            assert(sizes[i as int] == size as nat);
        }
        if current.len() > 0 && (current.len() >= max_commits || chars > max_chars || size > max_chars - chars) {
            let ghost before = batches@;
            let ghost cur = current@;
            batches.push(current);
            current = Vec::new();
            chars = 0;
            assert(index_batches(batches@) =~= index_batches(before).push(cur.map_values(|x: usize| x as int)));
        }
        let ghost cur0 = current@;
        current.push(i);
        assert(current@.map_values(|x: usize| x as int) =~= cur0.map_values(|x: usize| x as int).push(i as int));
        chars = chars + size;
        i += 1;
    }
    assert(sizes.take(commits@.len() as int) =~= sizes);
    if current.len() > 0 {
        let ghost before = batches@;
        let ghost cur = current@;
        batches.push(current);
        assert(index_batches(batches@) =~= index_batches(before).push(cur.map_values(|x: usize| x as int)));
    }
    batches
}

/// Whether a report is too large for one request: too many commits, or a
/// listing longer than the byte threshold.
pub fn needs_map_reduce(commits: &[NumstatCommit], filter: &PathFilter) -> (r: bool)
    ensures
        r == (commits@.len() > MAP_REDUCE_COMMIT_THRESHOLD || byte_len(
            batch_text(seq_view(commits@), filter@.regexes),
        ) > MAP_REDUCE_CHARS_THRESHOLD),
{
    if commits.len() > MAP_REDUCE_COMMIT_THRESHOLD {
        return true;
    }
    let (text, _) = render_report_batch(commits, filter);
    text.as_str().len() > MAP_REDUCE_CHARS_THRESHOLD
}

} // verus!
