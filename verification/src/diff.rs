//! The unified-diff parser: `git diff` text to a [`DiffModel`], read line by
//! line as a state machine whose every step has a model over characters.

use vstd::prelude::*;
use crate::text::{
    split, starts_with, strip_prefix, strip_suffix, ends_with, find, trim, trim_end_char, words,
    split_once, to_chars, has_prefix, has_suffix, strip_prefix_chars, strip_suffix_chars,
    find_seq, lemma_find_occurs, slice_range, string_of, trim_chars, trim_end_char_chars,
    split_words, split_once_char, u32_or_zero, eq_chars, split_chars, views, opt_str,
};
use crate::parse::u32_or_zero_of;
use crate::utf8::{utf8_of, utf8_lossy, push_utf8, string_from_utf8_lossy};
use crate::error::AppError;
use crate::model::{
    seq_view, lemma_seq_view_push, DiffLine, DiffLineV, DiffLineKind, DiffHunk, DiffHunkV,
    DiffFile, DiffFileV, DiffSource, DiffModel, DiffModelV,
};

verus! {

// =====================
// Quoted paths
// =====================

pub open spec fn is_octal(c: char) -> bool {
    '0' <= c && c <= '7'
}

pub open spec fn octal_digit(c: char) -> int {
    c as int - '0' as int
}

/// How many octal digits (one to three) open `t`, whose first is one.
pub open spec fn octal_run(t: Seq<char>) -> int {
    if t.len() >= 3 && is_octal(t[0]) && is_octal(t[1]) && is_octal(t[2]) {
        3
    } else if t.len() >= 2 && is_octal(t[0]) && is_octal(t[1]) {
        2
    } else {
        1
    }
}

/// The byte of an octal escape of `k` digits; `?` when it does not fit a byte.
pub open spec fn octal_byte(t: Seq<char>, k: int) -> u8 {
    let v = if k == 1 {
        octal_digit(t[0])
    } else if k == 2 {
        octal_digit(t[0]) * 8 + octal_digit(t[1])
    } else {
        octal_digit(t[0]) * 64 + octal_digit(t[1]) * 8 + octal_digit(t[2])
    };
    if v <= 255 {
        v as u8
    } else {
        63u8
    }
}

/// The bytes that git's C-style escapes inside a quoted path stand for.
pub open spec fn unquote_bytes(s: Seq<char>) -> Seq<u8>
    decreases s.len(),
{
    if s.len() == 0 {
        Seq::<u8>::empty()
    } else if s[0] == '\\' && s.len() > 1 {
        let c = s[1];
        if c == 'n' {
            seq![10u8] + unquote_bytes(s.skip(2))
        } else if c == 't' {
            seq![9u8] + unquote_bytes(s.skip(2))
        } else if c == 'r' {
            seq![13u8] + unquote_bytes(s.skip(2))
        } else if c == '"' {
            seq![34u8] + unquote_bytes(s.skip(2))
        } else if c == '\\' {
            seq![92u8] + unquote_bytes(s.skip(2))
        } else if is_octal(c) {
            let k = octal_run(s.skip(1));
            seq![octal_byte(s.skip(1), k)] + unquote_bytes(s.skip(1 + k))
        } else {
            utf8_of(c) + unquote_bytes(s.skip(2))
        }
    } else {
        utf8_of(s[0]) + unquote_bytes(s.skip(1))
    }
}

/// A path as git prints it, with its C-style quoting undone.
pub open spec fn unquote_path(p: Seq<char>) -> Seq<char> {
    if starts_with(p, seq!['"']) && ends_with(p, seq!['"']) && p.len() >= 2 {
        utf8_lossy(unquote_bytes(p.subrange(1, p.len() - 1)))
    } else {
        p
    }
}

fn is_octal_char(c: char) -> (r: bool)
    ensures
        r == is_octal(c),
{
    '0' <= c && c <= '7'
}

fn octal_value(c: char) -> (r: u32)
    requires
        is_octal(c),
    ensures
        r == octal_digit(c),
{
    (c as u32) - ('0' as u32)
}

fn unquote_bytes_exec(s: &[char]) -> (r: Vec<u8>)
    ensures
        r@ == unquote_bytes(s@),
{
    let n: usize = s.len();
    let mut out: Vec<u8> = Vec::new();
    let mut i: usize = 0;
    assert(s@.skip(0) =~= s@);
    while i < n
        invariant
            n == s@.len(),
            0 <= i <= n,
            out@ + unquote_bytes(s@.skip(i as int)) == unquote_bytes(s@),
        decreases n - i,
    {
        let ghost before = out@;
        let ghost t = s@.skip(i as int);
        if s[i] == '\\' && n - i > 1 {
            let c = s[i + 1];
            assert(t[1] == c);
            let mut step: usize = 2;
            if c == 'n' {
                out.push(10u8);
            } else if c == 't' {
                out.push(9u8);
            } else if c == 'r' {
                out.push(13u8);
            } else if c == '"' {
                out.push(34u8);
            } else if c == '\\' {
                out.push(92u8);
            } else if is_octal_char(c) {
                let k: usize = if n - i >= 4 && is_octal_char(s[i + 2]) && is_octal_char(
                    s[i + 3],
                ) {
                    3
                } else if n - i >= 3 && is_octal_char(s[i + 2]) {
                    2
                } else {
                    1
                };
                assert(k == octal_run(t.skip(1)));
                let d0 = octal_value(c);
                let v: u32 = if k == 1 {
                    d0
                } else if k == 2 {
                    d0 * 8 + octal_value(s[i + 2])
                } else {
                    d0 * 64 + octal_value(s[i + 2]) * 8 + octal_value(s[i + 3])
                };
                let b: u8 = if v <= 255 {
                    v as u8
                } else {
                    63u8
                };
                assert(b == octal_byte(t.skip(1), k as int));
                out.push(b);
                step = 1 + k;
            } else {
                push_utf8(&mut out, c);
            }
            assert(t.skip(step as int) =~= s@.skip(i + step));
            assert(out@ + unquote_bytes(s@.skip(i + step)) =~= before + unquote_bytes(t));
            i += step;
        } else {
            push_utf8(&mut out, s[i]);
            assert(t.skip(1) =~= s@.skip(i + 1));
            assert(out@ + unquote_bytes(s@.skip(i + 1)) =~= before + unquote_bytes(t));
            i += 1;
        }
    }
    assert(out@ + unquote_bytes(s@.skip(i as int)) =~= out@);
    out
}

/// Undo git's C-style path quoting (`"..."` with backslash and octal
/// escapes); octal escapes are raw UTF-8 bytes, decoded at the byte level.
pub fn unquote_path_chars(p: &[char]) -> (r: String)
    ensures
        r@ == unquote_path(p@),
{
    let n: usize = p.len();
    if n >= 2 && p[0] == '"' && p[n - 1] == '"' {
        assert(p@.take(1) =~= seq!['"']);
        assert(p@.skip(p@.len() - 1) =~= seq!['"']);
        assert(starts_with(p@, seq!['"']));
        assert(ends_with(p@, seq!['"']));
        let inner = slice_range(p, 1, n - 1);
        let bytes = unquote_bytes_exec(inner.as_slice());
        string_from_utf8_lossy(bytes.as_slice())
    } else {
        assert(!(starts_with(p@, seq!['"']) && ends_with(p@, seq!['"']) && p@.len() >= 2)) by {
            if starts_with(p@, seq!['"']) && ends_with(p@, seq!['"']) && p@.len() >= 2 {
                assert(p@.take(1)[0] == p@[0]);
                assert(p@.skip(p@.len() - 1)[0] == p@[n - 1]);
            }
        }
        string_of(p)
    }
}


// =====================
// Header lines
// =====================

/// `--- a/path` / `+++ b/path` / `--- /dev/null` to the path it names.
pub open spec fn decode_ab_path(s: Seq<char>) -> Option<Seq<char>> {
    if s == "/dev/null"@ {
        None
    } else {
        let p = unquote_path(s);
        Some(
            match strip_prefix(p, "a/"@) {
                Some(x) => x,
                None => match strip_prefix(p, "b/"@) {
                    Some(x) => x,
                    None => p,
                },
            },
        )
    }
}

/// The `a/old b/new` fallback paths after `diff --git `.
pub open spec fn git_paths(rest: Seq<char>) -> (Option<Seq<char>>, Option<Seq<char>>) {
    match strip_prefix(rest, "a/"@) {
        None => (None, None),
        Some(a) => match find(a, " b/"@) {
            None => (None, None),
            Some(idx) => {
                let tail = a.skip(idx + 3);
                (
                    Some(a.take(idx)),
                    Some(
                        match strip_prefix(tail, "b/"@) {
                            Some(t) => t,
                            None => tail,
                        },
                    ),
                )
            },
        },
    }
}

/// `l,c` (or `l`, count 1) of a hunk header; unparsable numbers read as 0.
pub open spec fn range_of(s: Seq<char>) -> (u32, u32) {
    match split_once(s, ',') {
        Some((a, b)) => (u32_or_zero_of(a), u32_or_zero_of(b)),
        None => (u32_or_zero_of(s), 1),
    }
}

/// `@@ -l,c +l,c @@ header` to an empty hunk.
pub open spec fn hunk_header(line: Seq<char>) -> Option<DiffHunkV> {
    match strip_prefix(line, "@@ "@) {
        None => None,
        Some(rest) => match find(rest, " @@"@) {
            None => None,
            Some(end) => {
                let parts = words(rest.take(end));
                if parts.len() < 2 {
                    None
                } else {
                    match (strip_prefix(parts[0], seq!['-']), strip_prefix(parts[1], seq!['+'])) {
                        (Some(o), Some(n)) => Some(
                            DiffHunkV {
                                old_start: range_of(o).0,
                                old_count: range_of(o).1,
                                new_start: range_of(n).0,
                                new_count: range_of(n).1,
                                header: trim(rest.skip(end + 3)),
                                lines: Seq::<DiffLineV>::empty(),
                            },
                        ),
                        _ => None,
                    }
                }
            },
        },
    }
}

/// What an extended header line does to the current file, if it is one.
pub open spec fn header_update(f: DiffFileV, line: Seq<char>) -> Option<DiffFileV> {
    if let Some(sim) = strip_prefix(line, "similarity index "@) {
        Some(
            DiffFileV { similarity: Some(u32_or_zero_of(trim(trim_end_char(sim, '%')))), ..f },
        )
    } else if let Some(p) = strip_prefix(line, "rename from "@) {
        Some(DiffFileV { old_path: Some(unquote_path(p)), ..f })
    } else if let Some(p) = strip_prefix(line, "rename to "@) {
        Some(DiffFileV { new_path: Some(unquote_path(p)), ..f })
    } else if let Some(p) = strip_prefix(line, "copy from "@) {
        Some(DiffFileV { old_path: Some(unquote_path(p)), ..f })
    } else if let Some(p) = strip_prefix(line, "copy to "@) {
        Some(DiffFileV { new_path: Some(unquote_path(p)), ..f })
    } else if starts_with(line, "Binary files "@) || starts_with(line, "GIT binary patch"@) {
        Some(DiffFileV { binary: true, ..f })
    } else if let Some(p) = strip_prefix(line, "--- "@) {
        Some(DiffFileV { old_path: decode_ab_path(trim(p)), ..f })
    } else if let Some(p) = strip_prefix(line, "+++ "@) {
        Some(DiffFileV { new_path: decode_ab_path(trim(p)), ..f })
    } else {
        None
    }
}

fn lit(s: &str) -> (r: Vec<char>)
    ensures
        r@ == s@,
{
    to_chars(s)
}

fn decode_ab_path_exec(s: &[char]) -> (r: Option<String>)
    ensures
        opt_str(r) == decode_ab_path(s@),
{
    let dev_null = lit("/dev/null");
    if eq_chars(s, dev_null.as_slice()) {
        return None;
    }
    let p = unquote_path_chars(s);
    let pc = to_chars(p.as_str());
    let a = lit("a/");
    let b = lit("b/");
    match strip_prefix_chars(pc.as_slice(), a.as_slice()) {
        Some(x) => Some(string_of(x.as_slice())),
        None => match strip_prefix_chars(pc.as_slice(), b.as_slice()) {
            Some(x) => Some(string_of(x.as_slice())),
            None => Some(p),
        },
    }
}

fn split_git_paths(rest: &[char]) -> (r: (Option<String>, Option<String>))
    ensures
        (opt_str(r.0), opt_str(r.1)) == git_paths(rest@),
{
    let ap = lit("a/");
    let sep = lit(" b/");
    let bp = lit("b/");
    match strip_prefix_chars(rest, ap.as_slice()) {
        None => (None, None),
        Some(a) => match find_seq(a.as_slice(), sep.as_slice()) {
            None => (None, None),
            Some(idx) => {
                proof {
                    lemma_find_occurs(a@, sep@);
                    reveal_strlit(" b/");
                }
                let old = slice_range(a.as_slice(), 0, idx);
                let alen: usize = a.len();
                let tail = slice_range(a.as_slice(), idx + 3, alen);
                assert(old@ == a@.take(idx as int));
                assert(tail@ == a@.skip(idx + 3));
                let new = match strip_prefix_chars(tail.as_slice(), bp.as_slice()) {
                    Some(t) => string_of(t.as_slice()),
                    None => string_of(tail.as_slice()),
                };
                (Some(string_of(old.as_slice())), Some(new))
            },
        },
    }
}

fn parse_range(s: &[char]) -> (r: (u32, u32))
    ensures
        r == range_of(s@),
{
    match split_once_char(s, ',') {
        Some((a, b)) => (u32_or_zero(a.as_slice()), u32_or_zero(b.as_slice())),
        None => (u32_or_zero(s), 1),
    }
}

fn parse_hunk_header(line: &[char]) -> (r: Option<DiffHunk>)
    ensures
        match r {
            Some(h) => hunk_header(line@) == Some(h@),
            None => hunk_header(line@) is None,
        },
{
    let at = lit("@@ ");
    let close = lit(" @@");
    let rest = match strip_prefix_chars(line, at.as_slice()) {
        Some(x) => x,
        None => return None,
    };
    let end = match find_seq(rest.as_slice(), close.as_slice()) {
        Some(e) => e,
        None => return None,
    };
    proof {
        lemma_find_occurs(rest@, close@);
        reveal_strlit(" @@");
    }
    let ranges = slice_range(rest.as_slice(), 0, end);
    let rlen: usize = rest.len();
    let tail = slice_range(rest.as_slice(), end + 3, rlen);
    assert(ranges@ == rest@.take(end as int));
    assert(tail@ == rest@.skip(end + 3));
    let parts = split_words(ranges.as_slice());
    if parts.len() < 2 {
        return None;
    }
    assert(views(parts@)[0] == parts@[0]@ && views(parts@)[1] == parts@[1]@);
    let minus = vec!['-'];
    let plus = vec!['+'];
    assert(minus@ =~= seq!['-'] && plus@ =~= seq!['+']);
    let om = strip_prefix_chars(parts[0].as_slice(), minus.as_slice());
    let nm = strip_prefix_chars(parts[1].as_slice(), plus.as_slice());
    let (o, n) = match (om, nm) {
        (Some(o), Some(n)) => (o, n),
        _ => return None,
    };
    let (os, oc) = parse_range(o.as_slice());
    let (ns, nc) = parse_range(n.as_slice());
    let header = trim_chars(tail.as_slice());
    let h = DiffHunk {
        old_start: os,
        old_count: oc,
        new_start: ns,
        new_count: nc,
        header: string_of(header.as_slice()),
        lines: Vec::new(),
    };
    assert(h@.lines =~= Seq::<DiffLineV>::empty());
    Some(h)
}

/// Applies an extended header line to `f`; false when the line is none.
fn apply_header(f: &mut DiffFile, line: &[char]) -> (matched: bool)
    ensures
        matched == header_update(old(f)@, line@) is Some,
        matched ==> header_update(old(f)@, line@) == Some(final(f)@),
        !matched ==> final(f)@ == old(f)@,
{
    let sim_p = lit("similarity index ");
    let rf = lit("rename from ");
    let rt = lit("rename to ");
    let cf = lit("copy from ");
    let ct = lit("copy to ");
    let bin = lit("Binary files ");
    let gbp = lit("GIT binary patch");
    let minus = lit("--- ");
    let plus = lit("+++ ");
    if let Some(sim) = strip_prefix_chars(line, sim_p.as_slice()) {
        let t = trim_end_char_chars(sim.as_slice(), '%');
        let t2 = trim_chars(t.as_slice());
        f.similarity = Some(u32_or_zero(t2.as_slice()));
        true
    } else if let Some(p) = strip_prefix_chars(line, rf.as_slice()) {
        f.old_path = Some(unquote_path_chars(p.as_slice()));
        true
    } else if let Some(p) = strip_prefix_chars(line, rt.as_slice()) {
        f.new_path = Some(unquote_path_chars(p.as_slice()));
        true
    } else if let Some(p) = strip_prefix_chars(line, cf.as_slice()) {
        f.old_path = Some(unquote_path_chars(p.as_slice()));
        true
    } else if let Some(p) = strip_prefix_chars(line, ct.as_slice()) {
        f.new_path = Some(unquote_path_chars(p.as_slice()));
        true
    } else if has_prefix(line, bin.as_slice()) || has_prefix(line, gbp.as_slice()) {
        f.binary = true;
        true
    } else if let Some(p) = strip_prefix_chars(line, minus.as_slice()) {
        let t = trim_chars(p.as_slice());
        f.old_path = decode_ab_path_exec(t.as_slice());
        true
    } else if let Some(p) = strip_prefix_chars(line, plus.as_slice()) {
        let t = trim_chars(p.as_slice());
        f.new_path = decode_ab_path_exec(t.as_slice());
        true
    } else {
        false
    }
}


// =====================
// The line-by-line scan
// =====================

/// State of the scan between two lines.
pub struct DiffScan {
    /// Files completed so far.
    pub files: Seq<DiffFileV>,
    /// The file whose headers and hunks are being read.
    pub cur: Option<DiffFileV>,
    /// The hunk whose body is being read.
    pub hunk: Option<DiffHunkV>,
    /// Old-side and new-side body lines the hunk header still announces.
    pub left_old: u32,
    pub left_new: u32,
    /// Line numbers the next body line gets on each side.
    pub next_old: u32,
    pub next_new: u32,
    /// A line number went past `u32::MAX`.
    pub overflow: bool,
}

pub open spec fn scan_start() -> DiffScan {
    DiffScan {
        files: Seq::<DiffFileV>::empty(),
        cur: None,
        hunk: None,
        left_old: 0,
        left_new: 0,
        next_old: 0,
        next_new: 0,
        overflow: false,
    }
}

/// `f` with `h` appended to its hunks, when both are there.
pub open spec fn with_hunk(f: Option<DiffFileV>, h: Option<DiffHunkV>) -> Option<DiffFileV> {
    match (f, h) {
        (Some(f), Some(h)) => Some(DiffFileV { hunks: f.hunks.push(h), ..f }),
        _ => f,
    }
}

/// Flags the hunk's last line as lacking its trailing newline.
pub open spec fn mark_no_eol(h: DiffHunkV) -> DiffHunkV {
    if h.lines.len() == 0 {
        h
    } else {
        DiffHunkV {
            lines: h.lines.update(h.lines.len() - 1, DiffLineV { no_eol: true, ..h.lines.last() }),
            ..h
        }
    }
}

pub open spec fn bump(x: u32) -> u32 {
    if x == u32::MAX {
        x
    } else {
        (x + 1) as u32
    }
}

pub open spec fn sat_dec(x: u32) -> u32 {
    if x == 0 {
        0
    } else {
        (x - 1) as u32
    }
}

pub open spec fn body_line(content: Seq<char>, left: Option<u32>, right: Option<u32>, kind: DiffLineKind) -> DiffLineV {
    DiffLineV { content, left_no: left, right_no: right, kind, no_eol: false }
}

/// One body line of hunk `h` (context, addition or removal); other lines
/// consume nothing.
pub open spec fn body_step(st: DiffScan, h: DiffHunkV, line: Seq<char>) -> DiffScan {
    if let Some(rest) = strip_prefix(line, seq![' ']) {
        DiffScan {
            hunk: Some(
                DiffHunkV {
                    lines: h.lines.push(
                        body_line(rest, Some(st.next_old), Some(st.next_new), DiffLineKind::Context),
                    ),
                    ..h
                },
            ),
            next_old: bump(st.next_old),
            next_new: bump(st.next_new),
            left_old: sat_dec(st.left_old),
            left_new: sat_dec(st.left_new),
            overflow: st.overflow || st.next_old == u32::MAX || st.next_new == u32::MAX,
            ..st
        }
    } else if let Some(rest) = strip_prefix(line, seq!['+']) {
        DiffScan {
            hunk: Some(
                DiffHunkV {
                    lines: h.lines.push(body_line(rest, None, Some(st.next_new), DiffLineKind::Add)),
                    ..h
                },
            ),
            next_new: bump(st.next_new),
            left_new: sat_dec(st.left_new),
            overflow: st.overflow || st.next_new == u32::MAX,
            ..st
        }
    } else if let Some(rest) = strip_prefix(line, seq!['-']) {
        DiffScan {
            hunk: Some(
                DiffHunkV {
                    lines: h.lines.push(
                        body_line(rest, Some(st.next_old), None, DiffLineKind::Remove),
                    ),
                    ..h
                },
            ),
            next_old: bump(st.next_old),
            left_old: sat_dec(st.left_old),
            overflow: st.overflow || st.next_old == u32::MAX,
            ..st
        }
    } else {
        st
    }
}

/// One line of `git diff` output.
pub open spec fn diff_step(st: DiffScan, line: Seq<char>) -> DiffScan {
    if starts_with(line, seq!['\\']) {
        DiffScan {
            hunk: match st.hunk {
                Some(h) => Some(mark_no_eol(h)),
                None => None,
            },
            ..st
        }
    } else if st.left_old > 0 || st.left_new > 0 {
        match st.hunk {
            None => DiffScan { left_old: 0, left_new: 0, ..st },
            Some(h) => body_step(st, h, line),
        }
    } else if let Some(rest) = strip_prefix(line, "diff --git "@) {
        DiffScan {
            files: match with_hunk(st.cur, st.hunk) {
                Some(f) => st.files.push(f),
                None => st.files,
            },
            cur: Some(
                DiffFileV {
                    old_path: git_paths(rest).0,
                    new_path: git_paths(rest).1,
                    similarity: None,
                    binary: false,
                    hunks: Seq::<DiffHunkV>::empty(),
                },
            ),
            hunk: None,
            ..st
        }
    } else {
        match st.cur {
            None => st,
            Some(f) => match header_update(f, line) {
                Some(f2) => DiffScan { cur: Some(f2), ..st },
                None => match hunk_header(line) {
                    Some(h) => DiffScan {
                        cur: with_hunk(Some(f), st.hunk),
                        hunk: Some(h),
                        left_old: h.old_count,
                        left_new: h.new_count,
                        next_old: h.old_start,
                        next_new: h.new_start,
                        ..st
                    },
                    None => st,
                },
            },
        }
    }
}

/// The scan after the given lines.
pub open spec fn diff_scan(lines: Seq<Seq<char>>) -> DiffScan
    decreases lines.len(),
{
    if lines.len() == 0 {
        scan_start()
    } else {
        diff_step(diff_scan(lines.drop_last()), lines.last())
    }
}

/// The lines of the output, split on `\n` only (a `\r` stays in its line).
pub open spec fn diff_lines(output: Seq<char>) -> Seq<Seq<char>> {
    split(
        match strip_suffix(output, seq!['\n']) {
            Some(b) => b,
            None => output,
        },
        '\n',
    )
}

/// The files of a finished scan: the open hunk and file are closed.
pub open spec fn scan_files(st: DiffScan) -> Seq<DiffFileV> {
    match with_hunk(st.cur, st.hunk) {
        Some(f) => st.files.push(f),
        None => st.files,
    }
}

/// Every body line number of the output fits a `u32`.
pub open spec fn diff_fits(output: Seq<char>) -> bool {
    !diff_scan(diff_lines(output)).overflow
}

pub open spec fn rev_old(rev: Option<(&str, &str)>) -> Option<Seq<char>> {
    match rev {
        Some((a, _)) => Some(a@),
        None => None,
    }
}

pub open spec fn rev_new(rev: Option<(&str, &str)>) -> Option<Seq<char>> {
    match rev {
        Some((_, b)) => Some(b@),
        None => None,
    }
}

/// The model of `git diff` output.
pub open spec fn diff_model(output: Seq<char>, source: DiffSource, old_rev: Option<Seq<char>>, new_rev: Option<Seq<char>>) -> DiffModelV {
    DiffModelV {
        id: 0,
        source,
        old_revision: old_rev,
        new_revision: new_rev,
        files: scan_files(diff_scan(diff_lines(output))),
    }
}

pub open spec fn opt_file(o: Option<DiffFile>) -> Option<DiffFileV> {
    match o {
        Some(f) => Some(f@),
        None => None,
    }
}

pub open spec fn opt_hunk(o: Option<DiffHunk>) -> Option<DiffHunkV> {
    match o {
        Some(h) => Some(h@),
        None => None,
    }
}

struct DiffScanner {
    files: Vec<DiffFile>,
    cur: Option<DiffFile>,
    hunk: Option<DiffHunk>,
    left_old: u32,
    left_new: u32,
    next_old: u32,
    next_new: u32,
    overflow: bool,
}

impl View for DiffScanner {
    type V = DiffScan;

    closed spec fn view(&self) -> DiffScan {
        DiffScan {
            files: seq_view(self.files@),
            cur: opt_file(self.cur),
            hunk: opt_hunk(self.hunk),
            left_old: self.left_old,
            left_new: self.left_new,
            next_old: self.next_old,
            next_new: self.next_new,
            overflow: self.overflow,
        }
    }
}

fn mark_last_no_eol(h: &mut DiffHunk)
    ensures
        final(h)@ == mark_no_eol(old(h)@),
{
    let ghost before = h.lines@;
    match h.lines.pop() {
        Some(mut l) => {
            l.no_eol = true;
            proof {
                lemma_seq_view_push(h.lines@, l);
            }
            h.lines.push(l);
            assert(seq_view(h.lines@) =~= seq_view(before).update(
                before.len() - 1,
                DiffLineV { no_eol: true, ..seq_view(before).last() },
            ));
        },
        None => {},
    }
}

fn bump_exec(x: u32) -> (r: u32)
    ensures
        r == bump(x),
{
    if x == u32::MAX {
        x
    } else {
        x + 1
    }
}

fn sat_dec_exec(x: u32) -> (r: u32)
    ensures
        r == sat_dec(x),
{
    if x == 0 {
        0
    } else {
        x - 1
    }
}

impl DiffScanner {
    fn new() -> (r: Self)
        ensures
            r@ == scan_start(),
    {
        let r = DiffScanner {
            files: Vec::new(),
            cur: None,
            hunk: None,
            left_old: 0,
            left_new: 0,
            next_old: 0,
            next_new: 0,
            overflow: false,
        };
        assert(r@.files =~= Seq::<DiffFileV>::empty());
        r
    }

    /// A body line of the taken-out hunk `h`.
    fn body(&mut self, h: DiffHunk, line: &[char])
        requires
            old(self).hunk is None,
        ensures
            final(self)@ == body_step(DiffScan { hunk: Some(h@), ..old(self)@ }, h@, line@),
    {
        let mut h = h;
        let sp = vec![' '];
        let pl = vec!['+'];
        let mi = vec!['-'];
        assert(sp@ =~= seq![' '] && pl@ =~= seq!['+'] && mi@ =~= seq!['-']);
        if let Some(rest) = strip_prefix_chars(line, sp.as_slice()) {
            let l = DiffLine {
                content: string_of(rest.as_slice()),
                left_no: Some(self.next_old),
                right_no: Some(self.next_new),
                kind: DiffLineKind::Context,
                no_eol: false,
            };
            proof {
                lemma_seq_view_push(h.lines@, l);
            }
            h.lines.push(l);
            self.overflow = self.overflow || self.next_old == u32::MAX || self.next_new == u32::MAX;
            self.next_old = bump_exec(self.next_old);
            self.next_new = bump_exec(self.next_new);
            self.left_old = sat_dec_exec(self.left_old);
            self.left_new = sat_dec_exec(self.left_new);
        } else if let Some(rest) = strip_prefix_chars(line, pl.as_slice()) {
            let l = DiffLine {
                content: string_of(rest.as_slice()),
                left_no: None,
                right_no: Some(self.next_new),
                kind: DiffLineKind::Add,
                no_eol: false,
            };
            proof {
                lemma_seq_view_push(h.lines@, l);
            }
            h.lines.push(l);
            self.overflow = self.overflow || self.next_new == u32::MAX;
            self.next_new = bump_exec(self.next_new);
            self.left_new = sat_dec_exec(self.left_new);
        } else if let Some(rest) = strip_prefix_chars(line, mi.as_slice()) {
            let l = DiffLine {
                content: string_of(rest.as_slice()),
                left_no: Some(self.next_old),
                right_no: None,
                kind: DiffLineKind::Remove,
                no_eol: false,
            };
            proof {
                lemma_seq_view_push(h.lines@, l);
            }
            h.lines.push(l);
            self.overflow = self.overflow || self.next_old == u32::MAX;
            self.next_old = bump_exec(self.next_old);
            self.left_old = sat_dec_exec(self.left_old);
        }
        self.hunk = Some(h);
    }

    /// `diff --git` opens a new file, closing the current one.
    fn open_file(&mut self, rest: &[char])
        ensures
            final(self)@ == (DiffScan {
                files: match with_hunk(old(self)@.cur, old(self)@.hunk) {
                    Some(f) => old(self)@.files.push(f),
                    None => old(self)@.files,
                },
                cur: Some(
                    DiffFileV {
                        old_path: git_paths(rest@).0,
                        new_path: git_paths(rest@).1,
                        similarity: None,
                        binary: false,
                        hunks: Seq::<DiffHunkV>::empty(),
                    },
                ),
                hunk: None,
                ..old(self)@
            }),
    {
        let h = self.hunk.take();
        let c = self.cur.take();
        match c {
            Some(mut f) => {
                match h {
                    Some(h) => {
                        proof {
                            lemma_seq_view_push(f.hunks@, h);
                        }
                        f.hunks.push(h);
                    },
                    None => {},
                }
                proof {
                    lemma_seq_view_push(self.files@, f);
                }
                self.files.push(f);
            },
            None => {},
        }
        let (op, np) = split_git_paths(rest);
        let f = DiffFile { old_path: op, new_path: np, similarity: None, binary: false, hunks: Vec::new() };
        assert(f@.hunks =~= Seq::<DiffHunkV>::empty());
        self.cur = Some(f);
    }

    /// A line between files and hunks: an extended header or a hunk header.
    fn header(&mut self, line: &[char])
        ensures
            final(self)@ == match old(self)@.cur {
                None => old(self)@,
                Some(f) => match header_update(f, line@) {
                    Some(f2) => DiffScan { cur: Some(f2), ..old(self)@ },
                    None => match hunk_header(line@) {
                        Some(h) => DiffScan {
                            cur: with_hunk(Some(f), old(self)@.hunk),
                            hunk: Some(h),
                            left_old: h.old_count,
                            left_new: h.new_count,
                            next_old: h.old_start,
                            next_new: h.new_start,
                            ..old(self)@
                        },
                        None => old(self)@,
                    },
                },
            },
    {
        match self.cur.take() {
            None => {},
            Some(mut f) => {
                if apply_header(&mut f, line) {
                    self.cur = Some(f);
                } else {
                    match parse_hunk_header(line) {
                        Some(h) => {
                            self.left_old = h.old_count;
                            self.left_new = h.new_count;
                            self.next_old = h.old_start;
                            self.next_new = h.new_start;
                            match self.hunk.take() {
                                Some(p) => {
                                    proof {
                                        lemma_seq_view_push(f.hunks@, p);
                                    }
                                    f.hunks.push(p);
                                },
                                None => {},
                            }
                            self.cur = Some(f);
                            self.hunk = Some(h);
                        },
                        None => {
                            self.cur = Some(f);
                        },
                    }
                }
            },
        }
    }

    fn step(&mut self, line: &[char])
        ensures
            final(self)@ == diff_step(old(self)@, line@),
    {
        if line.len() > 0 && line[0] == '\\' {
            assert(line@.subrange(0, 1) =~= seq!['\\']);
            match self.hunk.take() {
                Some(mut h) => {
                    mark_last_no_eol(&mut h);
                    self.hunk = Some(h);
                },
                None => {},
            }
            return;
        }
        assert(!starts_with(line@, seq!['\\'])) by {
            if starts_with(line@, seq!['\\']) {
                assert(line@.subrange(0, 1)[0] == line@[0]);
            }
        }
        if self.left_old > 0 || self.left_new > 0 {
            match self.hunk.take() {
                None => {
                    self.left_old = 0;
                    self.left_new = 0;
                },
                Some(h) => {
                    self.body(h, line);
                },
            }
            return;
        }
        let dg = lit("diff --git ");
        if let Some(rest) = strip_prefix_chars(line, dg.as_slice()) {
            self.open_file(rest.as_slice());
            return;
        }
        self.header(line);
    }

    fn finish(self) -> (r: Vec<DiffFile>)
        ensures
            seq_view(r@) == scan_files(self@),
    {
        let mut files = self.files;
        match self.cur {
            Some(mut f) => {
                match self.hunk {
                    Some(h) => {
                        proof {
                            lemma_seq_view_push(f.hunks@, h);
                        }
                        f.hunks.push(h);
                    },
                    None => {},
                }
                proof {
                    lemma_seq_view_push(files@, f);
                }
                files.push(f);
            },
            None => {},
        }
        files
    }
}

fn scan_output(output: &str) -> (r: DiffScanner)
    ensures
        r@ == diff_scan(diff_lines(output@)),
{
    let chars = to_chars(output);
    let nl = vec!['\n'];
    assert(nl@ =~= seq!['\n']);
    let body = match strip_suffix_chars(chars.as_slice(), nl.as_slice()) {
        Some(b) => b,
        None => chars,
    };
    let lines = split_chars(body.as_slice(), '\n');
    let ghost ls = views(lines@);
    assert(ls == diff_lines(output@));
    let mut sc = DiffScanner::new();
    let mut i: usize = 0;
    while i < lines.len()
        invariant
            ls == views(lines@),
            0 <= i <= ls.len(),
            sc@ == diff_scan(ls.take(i as int)),
        decreases lines.len() - i,
    {
        sc.step(lines[i].as_slice());
        assert(ls.take(i + 1).drop_last() =~= ls.take(i as int));
        assert(ls.take(i + 1).last() == lines@[i as int]@);
        i += 1;
    }
    assert(ls.take(ls.len() as int) =~= ls);
    sc
}

/// Whether every body line number of `output` fits a `u32`: the input
/// `parse_diff` takes.
pub fn diff_line_numbers_fit(output: &str) -> (r: bool)
    ensures
        r == diff_fits(output@),
{
    let sc = scan_output(output);
    !sc.overflow
}

/// Parse unified `git diff` output into a [`DiffModel`].
///
/// Handles add/delete/modify, rename and copy headers, similarity index,
/// binary files and `\ No newline at end of file`. Hunk bodies are consumed
/// by the header's remaining-line counters, so body lines that start with
/// `---`, `+++` or `@@` are never taken for headers.
pub fn parse_diff(output: &str, source: DiffSource, rev_range: Option<(&str, &str)>) -> (r: Result<
    DiffModel,
    AppError,
>)
    requires
        diff_fits(output@),
    ensures
        r matches Ok(m) && m@ == diff_model(output@, source, rev_old(rev_range), rev_new(rev_range)),
{
    let sc = scan_output(output);
    let files = sc.finish();
    let (old_revision, new_revision) = match rev_range {
        Some((a, b)) => (Some(String::from_str(a)), Some(String::from_str(b))),
        None => (None, None),
    };
    Ok(DiffModel { id: 0, source, old_revision, new_revision, files })
}

impl DiffModel {
    /// The first file displayed under `path`: its new path, or its old path
    /// where it has no new one.
    pub fn find_file(&self, path: &str) -> (r: Option<&DiffFile>)
        ensures
            match r {
                Some(f) => exists|i: int|
                    0 <= i < self.files@.len() && self.files@[i] == *f && names_file(
                        self.files@[i]@,
                        path@,
                    ) && forall|j: int| 0 <= j < i ==> !names_file(#[trigger] self.files@[j]@, path@),
                None => forall|j: int|
                    0 <= j < self.files@.len() ==> !names_file(#[trigger] self.files@[j]@, path@),
            },
    {
        let p = to_chars(path);
        let mut i: usize = 0;
        while i < self.files.len()
            invariant
                p@ == path@,
                0 <= i <= self.files@.len(),
                forall|j: int| 0 <= j < i ==> !names_file(#[trigger] self.files@[j]@, path@),
            decreases self.files.len() - i,
        {
            let f = &self.files[i];
            let hit = match &f.new_path {
                Some(np) => {
                    let c = to_chars(np.as_str());
                    eq_chars(c.as_slice(), p.as_slice())
                },
                None => match &f.old_path {
                    Some(op) => {
                        let c = to_chars(op.as_str());
                        eq_chars(c.as_slice(), p.as_slice())
                    },
                    None => false,
                },
            };
            if hit {
                return Some(f);
            }
            i += 1;
        }
        None
    }
}

/// `f` is displayed under `path`: its new path, or its old path where it
/// has no new one, is `path`.
pub open spec fn names_file(f: DiffFileV, path: Seq<char>) -> bool {
    match f.new_path {
        Some(n) => n == path,
        None => f.old_path == Some(path),
    }
}

// =====================
// Body line numbering
// =====================

/// Old-side lines (context and removals) among the first `i` lines.
pub open spec fn old_before(lines: Seq<DiffLineV>, i: int) -> int
    decreases i,
{
    if i <= 0 {
        0
    } else {
        old_before(lines, i - 1) + if lines[i - 1].kind != DiffLineKind::Add {
            1int
        } else {
            0int
        }
    }
}

/// New-side lines (context and additions) among the first `i` lines.
pub open spec fn new_before(lines: Seq<DiffLineV>, i: int) -> int
    decreases i,
{
    if i <= 0 {
        0
    } else {
        new_before(lines, i - 1) + if lines[i - 1].kind != DiffLineKind::Remove {
            1int
        } else {
            0int
        }
    }
}

/// Each body line of the hunk is numbered from the header's starts: a
/// context line on both sides, an addition on the new side only, a removal
/// on the old side only, each number one past the side's previous line.
pub open spec fn hunk_numbered(h: DiffHunkV) -> bool {
    forall|i: int|
        0 <= i < h.lines.len() ==> {
            let l = #[trigger] h.lines[i];
            &&& l.kind != DiffLineKind::Header
            &&& (l.left_no is None <==> l.kind == DiffLineKind::Add)
            &&& (l.right_no is None <==> l.kind == DiffLineKind::Remove)
            &&& (l.left_no matches Some(n) ==> n == h.old_start + old_before(h.lines, i))
            &&& (l.right_no matches Some(n) ==> n == h.new_start + new_before(h.lines, i))
        }
}

pub open spec fn file_numbered(f: DiffFileV) -> bool {
    forall|j: int| 0 <= j < f.hunks.len() ==> hunk_numbered(#[trigger] f.hunks[j])
}

/// Without overflow: every hunk read so far is numbered, and the open one
/// continues from its numbers.
pub open spec fn scan_numbered(st: DiffScan) -> bool {
    !st.overflow ==> {
        &&& forall|k: int| 0 <= k < st.files.len() ==> file_numbered(#[trigger] st.files[k])
        &&& (st.cur matches Some(f) ==> file_numbered(f))
        &&& (st.hunk matches Some(h) ==> hunk_numbered(h) && st.next_old == h.old_start + old_before(
            h.lines,
            h.lines.len() as int,
        ) && st.next_new == h.new_start + new_before(h.lines, h.lines.len() as int))
    }
}

proof fn lemma_before_prefix(lines: Seq<DiffLineV>, x: DiffLineV, i: int)
    requires
        0 <= i <= lines.len(),
    ensures
        old_before(lines.push(x), i) == old_before(lines, i),
        new_before(lines.push(x), i) == new_before(lines, i),
    decreases i,
{
    if i > 0 {
        lemma_before_prefix(lines, x, i - 1);
        assert(lines.push(x)[i - 1] == lines[i - 1]);
    }
}

proof fn lemma_before_same_kinds(a: Seq<DiffLineV>, b: Seq<DiffLineV>, i: int)
    requires
        0 <= i <= a.len(),
        a.len() == b.len(),
        forall|j: int| 0 <= j < a.len() ==> #[trigger] a[j].kind == b[j].kind,
    ensures
        old_before(a, i) == old_before(b, i),
        new_before(a, i) == new_before(b, i),
    decreases i,
{
    if i > 0 {
        lemma_before_same_kinds(a, b, i - 1);
        assert(a[i - 1].kind == b[i - 1].kind);
    }
}

proof fn lemma_push_numbered(h: DiffHunkV, x: DiffLineV)
    requires
        hunk_numbered(h),
        x.kind != DiffLineKind::Header,
        x.left_no is None <==> x.kind == DiffLineKind::Add,
        x.right_no is None <==> x.kind == DiffLineKind::Remove,
        x.left_no matches Some(n) ==> n == h.old_start + old_before(h.lines, h.lines.len() as int),
        x.right_no matches Some(n) ==> n == h.new_start + new_before(h.lines, h.lines.len() as int),
    ensures
        hunk_numbered(DiffHunkV { lines: h.lines.push(x), ..h }),
        old_before(h.lines.push(x), h.lines.len() + 1int) == old_before(h.lines, h.lines.len() as int) + (
        if x.kind != DiffLineKind::Add {
            1int
        } else {
            0int
        }),
        new_before(h.lines.push(x), h.lines.len() + 1int) == new_before(h.lines, h.lines.len() as int) + (
        if x.kind != DiffLineKind::Remove {
            1int
        } else {
            0int
        }),
{
    let h2 = DiffHunkV { lines: h.lines.push(x), ..h };
    let n = h.lines.len() as int;
    lemma_before_prefix(h.lines, x, n);
    assert(h.lines.push(x)[n] == x);
    assert forall|i: int| 0 <= i < h2.lines.len() implies {
        let l = #[trigger] h2.lines[i];
        &&& l.kind != DiffLineKind::Header
        &&& (l.left_no is None <==> l.kind == DiffLineKind::Add)
        &&& (l.right_no is None <==> l.kind == DiffLineKind::Remove)
        &&& (l.left_no matches Some(m) ==> m == h2.old_start + old_before(h2.lines, i))
        &&& (l.right_no matches Some(m) ==> m == h2.new_start + new_before(h2.lines, i))
    } by {
        if i < n {
            lemma_before_prefix(h.lines, x, i);
            assert(h2.lines[i] == h.lines[i]);
        }
    }
}

proof fn lemma_mark_no_eol_numbered(h: DiffHunkV)
    requires
        hunk_numbered(h),
    ensures
        hunk_numbered(mark_no_eol(h)),
        mark_no_eol(h).lines.len() == h.lines.len(),
        old_before(mark_no_eol(h).lines, h.lines.len() as int) == old_before(h.lines, h.lines.len() as int),
        new_before(mark_no_eol(h).lines, h.lines.len() as int) == new_before(h.lines, h.lines.len() as int),
        mark_no_eol(h).old_start == h.old_start && mark_no_eol(h).new_start == h.new_start,
{
    let m = mark_no_eol(h);
    if h.lines.len() > 0 {
        assert forall|j: int| 0 <= j < h.lines.len() implies #[trigger] m.lines[j].kind == h.lines[j].kind by {}
        assert forall|i: int| 0 <= i < m.lines.len() implies {
            let l = #[trigger] m.lines[i];
            &&& l.kind != DiffLineKind::Header
            &&& (l.left_no is None <==> l.kind == DiffLineKind::Add)
            &&& (l.right_no is None <==> l.kind == DiffLineKind::Remove)
            &&& (l.left_no matches Some(n) ==> n == m.old_start + old_before(m.lines, i))
            &&& (l.right_no matches Some(n) ==> n == m.new_start + new_before(m.lines, i))
        } by {
            lemma_before_same_kinds(m.lines, h.lines, i);
            assert(m.lines[i].left_no == h.lines[i].left_no);
            assert(m.lines[i].right_no == h.lines[i].right_no);
            assert(h.lines[i] == h.lines[i]);
        }
        lemma_before_same_kinds(m.lines, h.lines, h.lines.len() as int);
    }
}

proof fn lemma_with_hunk_numbered(f: Option<DiffFileV>, h: Option<DiffHunkV>)
    requires
        f matches Some(x) ==> file_numbered(x),
        h matches Some(y) ==> hunk_numbered(y),
    ensures
        with_hunk(f, h) matches Some(x) ==> file_numbered(x),
{
    match (f, h) {
        (Some(x), Some(y)) => {
            let g = DiffFileV { hunks: x.hunks.push(y), ..x };
            assert forall|j: int| 0 <= j < g.hunks.len() implies hunk_numbered(#[trigger] g.hunks[j]) by {
                if j < x.hunks.len() {
                    assert(g.hunks[j] == x.hunks[j]);
                }
            }
        },
        _ => {},
    }
}

proof fn lemma_body_step_numbered(st: DiffScan, h: DiffHunkV, line: Seq<char>)
    requires
        !st.overflow,
        st.hunk == Some(h),
        hunk_numbered(h),
        st.next_old == h.old_start + old_before(h.lines, h.lines.len() as int),
        st.next_new == h.new_start + new_before(h.lines, h.lines.len() as int),
    ensures
        !body_step(st, h, line).overflow ==> (body_step(st, h, line).hunk matches Some(h2) && hunk_numbered(h2)
            && body_step(st, h, line).next_old == h2.old_start + old_before(h2.lines, h2.lines.len() as int)
            && body_step(st, h, line).next_new == h2.new_start + new_before(h2.lines, h2.lines.len() as int)),
{
    if let Some(rest) = strip_prefix(line, seq![' ']) {
        lemma_push_numbered(h, body_line(rest, Some(st.next_old), Some(st.next_new), DiffLineKind::Context));
    } else if let Some(rest) = strip_prefix(line, seq!['+']) {
        lemma_push_numbered(h, body_line(rest, None, Some(st.next_new), DiffLineKind::Add));
    } else if let Some(rest) = strip_prefix(line, seq!['-']) {
        lemma_push_numbered(h, body_line(rest, Some(st.next_old), None, DiffLineKind::Remove));
    }
}

proof fn lemma_header_update_hunks(f: DiffFileV, line: Seq<char>)
    ensures
        header_update(f, line) matches Some(g) ==> g.hunks == f.hunks,
{
}

proof fn lemma_diff_step_numbered(st: DiffScan, line: Seq<char>)
    requires
        scan_numbered(st),
    ensures
        scan_numbered(diff_step(st, line)),
        diff_step(st, line).overflow ==> true,
        st.overflow ==> diff_step(st, line).overflow,
{
    let r = diff_step(st, line);
    if !st.overflow {
        if starts_with(line, seq!['\\']) {
            if let Some(h) = st.hunk {
                lemma_mark_no_eol_numbered(h);
            }
        } else if st.left_old > 0 || st.left_new > 0 {
            if let Some(h) = st.hunk {
                lemma_body_step_numbered(st, h, line);
            }
        } else if let Some(rest) = strip_prefix(line, "diff --git "@) {
            lemma_with_hunk_numbered(st.cur, st.hunk);
            assert forall|k: int| 0 <= k < r.files.len() implies file_numbered(#[trigger] r.files[k]) by {
                if k < st.files.len() {
                    assert(r.files[k] == st.files[k]);
                }
            }
        } else {
            match st.cur {
                None => {},
                Some(f) => {
                    lemma_header_update_hunks(f, line);
                    match header_update(f, line) {
                        Some(f2) => {},
                        None => {
                            lemma_with_hunk_numbered(Some(f), st.hunk);
                        },
                    }
                },
            }
        }
    }
}

proof fn lemma_diff_scan_numbered(lines: Seq<Seq<char>>)
    ensures
        scan_numbered(diff_scan(lines)),
    decreases lines.len(),
{
    if lines.len() > 0 {
        lemma_diff_scan_numbered(lines.drop_last());
        lemma_diff_step_numbered(diff_scan(lines.drop_last()), lines.last());
    }
}

/// Every body line of a parsed diff carries the right numbers: counted
/// from its hunk's header, a context line on both sides, an addition on
/// the new side, a removal on the old side (when no number overflows, the
/// case in which `parse_diff` succeeds).
pub proof fn law_diff_lines_numbered(output: Seq<char>)
    requires
        diff_fits(output),
    ensures
        forall|k: int|
            0 <= k < scan_files(diff_scan(diff_lines(output))).len() ==> file_numbered(
                #[trigger] scan_files(diff_scan(diff_lines(output)))[k],
            ),
{
    let st = diff_scan(diff_lines(output));
    lemma_diff_scan_numbered(diff_lines(output));
    lemma_with_hunk_numbered(st.cur, st.hunk);
    let fs = scan_files(st);
    assert forall|k: int| 0 <= k < fs.len() implies file_numbered(#[trigger] fs[k]) by {
        if k < st.files.len() {
            assert(fs[k] == st.files[k]);
        }
    }
}

} // verus!
