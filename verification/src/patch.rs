//! Line-level patch builder: from a diff model and selected line indices,
//! the unified patch that stages, discards or unstages exactly those lines.
//!
//! Unselected changes survive untouched, which dictates how each original
//! diff line is re-emitted:
//!
//! | line        | Stage (old side anchors) | Discard/Unstage (new side anchors) |
//! |-------------|--------------------------|------------------------------------|
//! | context     | context                  | context                            |
//! | `+` sel     | `+`                      | `+`                                |
//! | `+` unsel   | skipped                  | context                            |
//! | `-` sel     | `-`                      | `-`                                |
//! | `-` unsel   | context                  | skipped                            |
//!
//! The anchor side reuses the original hunk numbers; the other side is
//! renumbered with a running delta of the selected changes.

use vstd::prelude::*;
use crate::text::{dec_string, push_str, push_u64, push_char, push_chars, to_chars};
use crate::model::{
    DiffFile, DiffFileV, DiffHunk, DiffHunkV, DiffLine, DiffLineV, DiffLineKind, LineSelection,
    seq_view,
};
use crate::error::AppError;

verus! {

/// Which direction a line-level patch flows.
#[derive(Debug, Clone, Copy, PartialEq, Eq, Structural)]
pub enum LineOp {
    /// Stage selected worktree lines into the index (`apply --cached`).
    Stage,
    /// Revert selected lines in the worktree (`apply --reverse`).
    Discard,
    /// Remove selected lines from the index (`apply --cached --reverse`).
    Unstage,
}

/// How a diff line is re-emitted.
#[derive(Debug, Clone, Copy, PartialEq, Eq, Structural)]
pub enum Emit {
    Context,
    Add,
    Del,
}

/// One re-emitted line.
pub struct Emitted {
    pub kind: Emit,
    pub text: String,
    /// The original line was the no-trailing-newline end of the old side.
    pub old_mark: bool,
    /// Same for the new side.
    pub new_mark: bool,
}

pub struct EmittedV {
    pub kind: Emit,
    pub text: Seq<char>,
    pub old_mark: bool,
    pub new_mark: bool,
}

impl View for Emitted {
    type V = EmittedV;

    open spec fn view(&self) -> EmittedV {
        EmittedV { kind: self.kind, text: self.text@, old_mark: self.old_mark, new_mark: self.new_mark }
    }
}

// =====================
// Hunk bodies
// =====================

/// Line `l` of hunk `h` is selected.
pub open spec fn is_selected(sels: Seq<LineSelection>, h: int, l: int) -> bool {
    exists|k: int| 0 <= k < sels.len() && #[trigger] sels[k].hunk == h as u32 && sels[k].line == l as u32
}

/// How a line of the given kind is re-emitted (`None`: skipped).
pub open spec fn emit_kind(kind: DiffLineKind, selected: bool, stage: bool) -> Option<Emit> {
    match kind {
        DiffLineKind::Context => Some(Emit::Context),
        DiffLineKind::Header => None,
        DiffLineKind::Add => if selected {
            Some(Emit::Add)
        } else if stage {
            None
        } else {
            Some(Emit::Context)
        },
        DiffLineKind::Remove => if selected {
            Some(Emit::Del)
        } else if stage {
            Some(Emit::Context)
        } else {
            None
        },
    }
}

pub open spec fn emit_line(line: DiffLineV, selected: bool, stage: bool) -> Option<EmittedV> {
    match emit_kind(line.kind, selected, stage) {
        None => None,
        Some(kind) => Some(
            EmittedV {
                kind,
                text: line.content,
                old_mark: (line.kind == DiffLineKind::Context || line.kind == DiffLineKind::Remove)
                    && line.no_eol,
                new_mark: (line.kind == DiffLineKind::Context || line.kind == DiffLineKind::Add)
                    && line.no_eol,
            },
        ),
    }
}

/// The re-emitted lines of hunk `h`'s first `n` lines.
pub open spec fn raw_body(lines: Seq<DiffLineV>, h: int, sels: Seq<LineSelection>, stage: bool, n: int) -> Seq<EmittedV>
    decreases n,
{
    if n <= 0 {
        Seq::<EmittedV>::empty()
    } else {
        let p = raw_body(lines, h, sels, stage, n - 1);
        match emit_line(lines[n - 1], is_selected(sels, h, n - 1), stage) {
            Some(e) => p.push(e),
            None => p,
        }
    }
}

pub open spec fn is_changed(l: DiffLineV) -> bool {
    l.kind == DiffLineKind::Add || l.kind == DiffLineKind::Remove
}

/// Changed lines among the first `n`, and how many of them are selected.
pub open spec fn changed_counts(lines: Seq<DiffLineV>, h: int, sels: Seq<LineSelection>, n: int) -> (nat, nat)
    decreases n,
{
    if n <= 0 {
        (0, 0)
    } else {
        let (c, s) = changed_counts(lines, h, sels, n - 1);
        if is_changed(lines[n - 1]) {
            (c + 1, if is_selected(sels, h, n - 1) {
                s + 1
            } else {
                s
            })
        } else {
            (c, s)
        }
    }
}

/// A hunk with a no-newline marker on a changed line, of which some but not
/// all changed lines are selected.
pub open spec fn partial_marker_hunk(hunk: DiffHunkV, h: int, sels: Seq<LineSelection>) -> bool {
    let (c, s) = changed_counts(hunk.lines, h, sels, hunk.lines.len() as int);
    &&& exists|i: int|
        0 <= i < hunk.lines.len() && (#[trigger] hunk.lines[i]).no_eol && hunk.lines[i].kind
            != DiffLineKind::Context
    &&& c > 0 && s > 0 && s < c
}

pub open spec fn on_old_side(k: Emit) -> bool {
    k == Emit::Context || k == Emit::Del
}

pub open spec fn on_new_side(k: Emit) -> bool {
    k == Emit::Context || k == Emit::Add
}

/// The last of the first `n` lines on the old side.
pub open spec fn last_old(body: Seq<EmittedV>, n: int) -> Option<int>
    decreases n,
{
    if n <= 0 {
        None
    } else if on_old_side(body[n - 1].kind) {
        Some(n - 1)
    } else {
        last_old(body, n - 1)
    }
}

/// The last of the first `n` lines on the new side.
pub open spec fn last_new(body: Seq<EmittedV>, n: int) -> Option<int>
    decreases n,
{
    if n <= 0 {
        None
    } else if on_new_side(body[n - 1].kind) {
        Some(n - 1)
    } else {
        last_new(body, n - 1)
    }
}

/// Splits a context line that ends the old side without a newline while
/// the new side continues into `-text`, marker, `+text`.
pub open spec fn fix_no_eol(body: Seq<EmittedV>) -> Seq<EmittedV> {
    let n = body.len() as int;
    match last_old(body, n) {
        Some(c) => if body[c].kind != Emit::Context || last_new(body, n) == Some(c) {
            body
        } else if body[c].old_mark {
            body.update(c, EmittedV { kind: Emit::Del, text: body[c].text, old_mark: true, new_mark: false }).insert(
                c + 1,
                EmittedV { kind: Emit::Add, text: body[c].text, old_mark: false, new_mark: false },
            )
        } else if last_new(body, n) == Some(c) && body[c].new_mark && last_old(body, n) != Some(c) {
            body.update(c, EmittedV { kind: Emit::Del, text: body[c].text, old_mark: false, new_mark: false }).insert(
                c + 1,
                EmittedV { kind: Emit::Add, text: body[c].text, old_mark: false, new_mark: true },
            )
        } else {
            body
        },
        None => body,
    }
}

pub open spec fn has_change(body: Seq<EmittedV>) -> bool {
    exists|i: int| 0 <= i < body.len() && (#[trigger] body[i]).kind != Emit::Context
}

/// The patch body of hunk `h`: empty when nothing in it is selected.
pub open spec fn hunk_body(hunk: DiffHunkV, h: int, sels: Seq<LineSelection>, stage: bool) -> Seq<EmittedV> {
    let b = raw_body(hunk.lines, h, sels, stage, hunk.lines.len() as int);
    if has_change(b) {
        fix_no_eol(b)
    } else {
        Seq::<EmittedV>::empty()
    }
}

fn selected_exec(sels: &[LineSelection], h: u32, l: u32) -> (r: bool)
    ensures
        r == exists|k: int| 0 <= k < sels@.len() && #[trigger] sels@[k].hunk == h && sels@[k].line == l,
{
    let mut i: usize = 0;
    while i < sels.len()
        invariant
            0 <= i <= sels@.len(),
            forall|k: int| 0 <= k < i ==> !(#[trigger] sels@[k].hunk == h && sels@[k].line == l),
        decreases sels.len() - i,
    {
        if sels[i].hunk == h && sels[i].line == l {
            return true;
        }
        i += 1;
    }
    false
}

fn emit_line_exec(line: &DiffLine, selected: bool, stage: bool) -> (r: Option<Emitted>)
    ensures
        match r {
            Some(e) => emit_line(line@, selected, stage) == Some(e@),
            None => emit_line(line@, selected, stage) is None,
        },
{
    let kind = match line.kind {
        DiffLineKind::Context => Some(Emit::Context),
        DiffLineKind::Header => None,
        DiffLineKind::Add => if selected {
            Some(Emit::Add)
        } else if stage {
            None
        } else {
            Some(Emit::Context)
        },
        DiffLineKind::Remove => if selected {
            Some(Emit::Del)
        } else if stage {
            Some(Emit::Context)
        } else {
            None
        },
    };
    match kind {
        None => None,
        Some(k) => {
            let old_side = match line.kind {
                DiffLineKind::Context | DiffLineKind::Remove => true,
                _ => false,
            };
            let new_side = match line.kind {
                DiffLineKind::Context | DiffLineKind::Add => true,
                _ => false,
            };
            Some(
                Emitted {
                    kind: k,
                    text: line.content.clone(),
                    old_mark: old_side && line.no_eol,
                    new_mark: new_side && line.no_eol,
                },
            )
        },
    }
}

fn last_old_exec(body: &Vec<Emitted>) -> (r: Option<usize>)
    ensures
        match r {
            Some(i) => last_old(seq_view(body@), body@.len() as int) == Some(i as int) && i < body@.len(),
            None => last_old(seq_view(body@), body@.len() as int) is None,
        },
{
    let ghost b = seq_view(body@);
    let mut n: usize = body.len();
    while n > 0
        invariant
            b == seq_view(body@),
            n <= b.len(),
            last_old(b, b.len() as int) == last_old(b, n as int),
        decreases n,
    {
        if body[n - 1].kind == Emit::Context || body[n - 1].kind == Emit::Del {
            return Some(n - 1);
        }
        n -= 1;
    }
    None
}

fn last_new_exec(body: &Vec<Emitted>) -> (r: Option<usize>)
    ensures
        match r {
            Some(i) => last_new(seq_view(body@), body@.len() as int) == Some(i as int) && i < body@.len(),
            None => last_new(seq_view(body@), body@.len() as int) is None,
        },
{
    let ghost b = seq_view(body@);
    let mut n: usize = body.len();
    while n > 0
        invariant
            b == seq_view(body@),
            n <= b.len(),
            last_new(b, b.len() as int) == last_new(b, n as int),
        decreases n,
    {
        if body[n - 1].kind == Emit::Context || body[n - 1].kind == Emit::Add {
            return Some(n - 1);
        }
        n -= 1;
    }
    None
}

fn fix_no_eol_exec(body: Vec<Emitted>) -> (r: Vec<Emitted>)
    ensures
        seq_view(r@) == fix_no_eol(seq_view(body@)),
{
    let mut body = body;
    let ghost b = seq_view(body@);
    let lo = last_old_exec(&body);
    let ln = last_new_exec(&body);
    let c = match lo {
        Some(c) => c,
        None => return body,
    };
    if body[c].kind != Emit::Context || ln == Some(c) {
        return body;
    }
    if body[c].old_mark {
        let text = body[c].text.clone();
        let del = Emitted { kind: Emit::Del, text: body[c].text.clone(), old_mark: true, new_mark: false };
        body.set(c, del);
        body.insert(c + 1, Emitted { kind: Emit::Add, text, old_mark: false, new_mark: false });
        assert(seq_view(body@) =~= fix_no_eol(b));
        return body;
    }
    let lo2 = last_old_exec(&body);
    if ln == Some(c) && body[c].new_mark && lo2.is_some() && lo2 != Some(c) {
        let text = body[c].text.clone();
        let del = Emitted { kind: Emit::Del, text: body[c].text.clone(), old_mark: false, new_mark: false };
        body.set(c, del);
        body.insert(c + 1, Emitted { kind: Emit::Add, text, old_mark: false, new_mark: true });
        assert(seq_view(body@) =~= fix_no_eol(b));
    }
    body
}


fn changed_counts_exec(lines: &Vec<DiffLine>, h: u32, sels: &[LineSelection]) -> (r: (usize, usize))
    ensures
        (r.0 as nat, r.1 as nat) == changed_counts(seq_view(lines@), h as int, sels@, lines@.len() as int),
{
    let ghost ls = seq_view(lines@);
    let mut c: usize = 0;
    let mut s: usize = 0;
    let mut i: usize = 0;
    while i < lines.len()
        invariant
            ls == seq_view(lines@),
            0 <= i <= ls.len(),
            (c as nat, s as nat) == changed_counts(ls, h as int, sels@, i as int),
            s <= c <= i,
        decreases lines.len() - i,
    {
        let l = &lines[i];
        assert(ls[i as int] == l@);
        if l.kind == DiffLineKind::Add || l.kind == DiffLineKind::Remove {
            c += 1;
            if selected_exec(sels, h, i as u32) {
                s += 1;
            }
        }
        i += 1;
    }
    (c, s)
}

fn partial_marker_exec(hunk: &DiffHunk, h: u32, sels: &[LineSelection]) -> (r: bool)
    ensures
        r == partial_marker_hunk(hunk@, h as int, sels@),
{
    let ghost ls = hunk@.lines;
    let mut marker = false;
    let mut i: usize = 0;
    while i < hunk.lines.len()
        invariant
            ls == hunk@.lines,
            0 <= i <= ls.len(),
            marker == exists|j: int|
                0 <= j < i && (#[trigger] ls[j]).no_eol && ls[j].kind != DiffLineKind::Context,
        decreases hunk.lines.len() - i,
    {
        assert(ls[i as int] == hunk.lines@[i as int]@);
        if hunk.lines[i].no_eol && hunk.lines[i].kind != DiffLineKind::Context {
            marker = true;
        }
        i += 1;
    }
    if !marker {
        return false;
    }
    let (c, s) = changed_counts_exec(&hunk.lines, h, sels);
    c > 0 && s > 0 && s < c
}

fn hunk_body_exec(hunk: &DiffHunk, h: u32, sels: &[LineSelection], stage: bool) -> (r: Vec<Emitted>)
    requires
        hunk.lines@.len() <= u32::MAX,
    ensures
        seq_view(r@) == hunk_body(hunk@, h as int, sels@, stage),
{
    let ghost ls = hunk@.lines;
    let mut body: Vec<Emitted> = Vec::new();
    let mut i: usize = 0;
    while i < hunk.lines.len()
        invariant
            ls == hunk@.lines,
            ls.len() <= u32::MAX,
            0 <= i <= ls.len(),
            seq_view(body@) == raw_body(ls, h as int, sels@, stage, i as int),
        decreases hunk.lines.len() - i,
    {
        let line = &hunk.lines[i];
        assert(ls[i as int] == line@);
        let sel = selected_exec(sels, h, i as u32);
        match emit_line_exec(line, sel, stage) {
            Some(e) => {
                proof {
                    crate::model::lemma_seq_view_push(body@, e);
                }
                body.push(e);
            },
            None => {},
        }
        i += 1;
    }
    let ghost b = seq_view(body@);
    let mut change = false;
    let mut k: usize = 0;
    while k < body.len()
        invariant
            b == seq_view(body@),
            0 <= k <= b.len(),
            change == exists|j: int| 0 <= j < k && (#[trigger] b[j]).kind != Emit::Context,
        decreases body.len() - k,
    {
        assert(b[k as int] == body@[k as int]@);
        if body[k].kind != Emit::Context {
            change = true;
        }
        k += 1;
    }
    if change {
        fix_no_eol_exec(body)
    } else {
        let e: Vec<Emitted> = Vec::new();
        assert(seq_view(e@) =~= Seq::<EmittedV>::empty());
        e
    }
}

// =====================
// Patch text
// =====================

/// `start` for a count of 1 (git's compact form), `start,count` otherwise.
pub open spec fn format_range(start: u32, count: u32) -> Seq<char> {
    if count == 1 {
        dec_string(start as nat)
    } else {
        dec_string(start as nat) + seq![','] + dec_string(count as nat)
    }
}

/// Lines of kind `k` among the first `n`.
pub open spec fn count_kind(body: Seq<EmittedV>, k: Emit, n: int) -> nat
    decreases n,
{
    if n <= 0 {
        0
    } else {
        count_kind(body, k, n - 1) + if body[n - 1].kind == k {
            1nat
        } else {
            0nat
        }
    }
}

pub open spec fn prefix_char(k: Emit) -> char {
    match k {
        Emit::Context => ' ',
        Emit::Add => '+',
        Emit::Del => '-',
    }
}

/// The old side ends without a newline at its last line in `body`.
pub open spec fn old_no_eol(body: Seq<EmittedV>) -> bool {
    match last_old(body, body.len() as int) {
        Some(i) => body[i].old_mark,
        None => false,
    }
}

pub open spec fn new_no_eol(body: Seq<EmittedV>) -> bool {
    match last_new(body, body.len() as int) {
        Some(i) => body[i].new_mark,
        None => false,
    }
}

/// The text of the first `n` lines of a hunk body, each followed by the
/// no-newline marker where a side ends without one.
pub open spec fn body_text(body: Seq<EmittedV>, n: int) -> Seq<char>
    decreases n,
{
    if n <= 0 {
        Seq::<char>::empty()
    } else {
        let e = body[n - 1];
        let ends = (last_old(body, body.len() as int) == Some(n - 1) && old_no_eol(body)) || (
        last_new(body, body.len() as int) == Some(n - 1) && new_no_eol(body));
        body_text(body, n - 1) + seq![prefix_char(e.kind)] + e.text + seq!['\n'] + if ends {
            "\\ No newline at end of file\n"@
        } else {
            Seq::<char>::empty()
        }
    }
}

/// Header line of a hunk.
pub open spec fn hunk_header_text(old_start: u32, old_count: u32, new_start: u32, new_count: u32) -> Seq<char> {
    "@@ -"@ + format_range(old_start, old_count) + " +"@ + format_range(new_start, new_count)
        + " @@\n"@
}

/// Numbers of a hunk body given the running delta: (old start, old count,
/// new start, new count).
pub open spec fn hunk_numbers(hunk: DiffHunkV, body: Seq<EmittedV>, stage: bool, delta: int) -> (u32, u32, u32, u32) {
    let n = body.len() as int;
    let ctx = count_kind(body, Emit::Context, n);
    let add = count_kind(body, Emit::Add, n);
    let del = count_kind(body, Emit::Del, n);
    let anchor_start = if stage {
        hunk.old_start
    } else {
        hunk.new_start
    };
    let anchor_count = (if stage {
        ctx + del
    } else {
        ctx + add
    }) as u32;
    let computed_count = (if stage {
        ctx + add
    } else {
        ctx + del
    }) as u32;
    let adjust: int = if anchor_count > 0 && computed_count == 0 {
        -1
    } else if anchor_count == 0 && computed_count > 0 {
        1
    } else {
        0
    };
    let x = anchor_start + delta + adjust;
    let computed_start = (if x < 0 {
        0
    } else {
        x
    }) as u32;
    if stage {
        (anchor_start, anchor_count, computed_start, computed_count)
    } else {
        (computed_start, computed_count, anchor_start, anchor_count)
    }
}

/// The delta a hunk body adds: computed-side count minus anchor-side count.
pub open spec fn hunk_delta(body: Seq<EmittedV>, stage: bool) -> int {
    let n = body.len() as int;
    let ctx = count_kind(body, Emit::Context, n);
    let add = count_kind(body, Emit::Add, n);
    let del = count_kind(body, Emit::Del, n);
    if stage {
        (ctx + add) - (ctx + del)
    } else {
        (ctx + del) - (ctx + add)
    }
}

/// The text of the first `n` hunks, and the running delta after them.
pub open spec fn hunks_text(hunks: Seq<DiffHunkV>, bodies: Seq<Seq<EmittedV>>, stage: bool, n: int) -> (Seq<char>, int)
    decreases n,
{
    if n <= 0 {
        (Seq::<char>::empty(), 0)
    } else {
        let (t, d) = hunks_text(hunks, bodies, stage, n - 1);
        let body = bodies[n - 1];
        if body.len() == 0 {
            (t, d)
        } else {
            let (os, oc, ns, nc) = hunk_numbers(hunks[n - 1], body, stage, d);
            (t + hunk_header_text(os, oc, ns, nc) + body_text(body, body.len() as int), d + hunk_delta(body, stage))
        }
    }
}


fn push_range(out: &mut String, start: u32, count: u32)
    ensures
        final(out)@ == old(out)@ + format_range(start, count),
{
    push_u64(out, start as u64);
    if count != 1 {
        push_char(out, ',');
        push_u64(out, count as u64);
    }
}

fn counts_exec(body: &Vec<Emitted>) -> (r: (usize, usize, usize))
    ensures
        r.0 as nat == count_kind(seq_view(body@), Emit::Context, body@.len() as int),
        r.1 as nat == count_kind(seq_view(body@), Emit::Add, body@.len() as int),
        r.2 as nat == count_kind(seq_view(body@), Emit::Del, body@.len() as int),
        r.0 + r.1 + r.2 == body@.len(),
{
    let ghost b = seq_view(body@);
    let mut c: usize = 0;
    let mut a: usize = 0;
    let mut d: usize = 0;
    let mut i: usize = 0;
    while i < body.len()
        invariant
            b == seq_view(body@),
            0 <= i <= b.len(),
            c as nat == count_kind(b, Emit::Context, i as int),
            a as nat == count_kind(b, Emit::Add, i as int),
            d as nat == count_kind(b, Emit::Del, i as int),
            c + a + d == i,
        decreases body.len() - i,
    {
        assert(b[i as int] == body@[i as int]@);
        match body[i].kind {
            Emit::Context => c += 1,
            Emit::Add => a += 1,
            Emit::Del => d += 1,
        }
        i += 1;
    }
    (c, a, d)
}

fn push_body(out: &mut String, body: &Vec<Emitted>)
    ensures
        final(out)@ == old(out)@ + body_text(seq_view(body@), body@.len() as int),
{
    let ghost b = seq_view(body@);
    let lo = last_old_exec(body);
    let ln = last_new_exec(body);
    let old_eol = match lo {
        Some(i) => body[i].old_mark,
        None => false,
    };
    let new_eol = match ln {
        Some(i) => body[i].new_mark,
        None => false,
    };
    let marker = "\\ No newline at end of file\n";
    let mut i: usize = 0;
    while i < body.len()
        invariant
            b == seq_view(body@),
            0 <= i <= b.len(),
            old_eol == old_no_eol(b),
            new_eol == new_no_eol(b),
            marker@ == "\\ No newline at end of file\n"@,
            match lo {
                Some(x) => last_old(b, b.len() as int) == Some(x as int),
                None => last_old(b, b.len() as int) is None,
            },
            match ln {
                Some(x) => last_new(b, b.len() as int) == Some(x as int),
                None => last_new(b, b.len() as int) is None,
            },
            out@ == old(out)@ + body_text(b, i as int),
        decreases body.len() - i,
    {
        let e = &body[i];
        let ghost before = out@;
        assert(b[i as int] == e@);
        let prefix = match e.kind {
            Emit::Context => ' ',
            Emit::Add => '+',
            Emit::Del => '-',
        };
        push_char(out, prefix);
        push_str(out, e.text.as_str());
        push_char(out, '\n');
        let ends_old = match lo {
            Some(x) => x == i && old_eol,
            None => false,
        };
        let ends_new = match ln {
            Some(x) => x == i && new_eol,
            None => false,
        };
        let ghost mid = out@;
        assert(mid =~= before + seq![prefix_char(e@.kind)] + e@.text + seq!['\n']);
        if ends_old || ends_new {
            push_str(out, marker);
            assert(out@ == mid + marker@);
        } else {
            assert(out@ == mid);
        }
        assert(out@ =~= old(out)@ + body_text(b, i + 1));
        i += 1;
    }
}

/// Why a patch cannot be built, or its text.
pub enum PatchOutcome {
    Text(Seq<char>),
    Binary,
    Renamed,
    BadPath(Seq<char>),
    PartialMarker,
}

/// What `format!("{:?}", s)` renders a string as (quoted, escaped).
pub uninterp spec fn str_debug(s: Seq<char>) -> Seq<char>;

/// `<str as Debug>::fmt` (std) through `format!`: the quoted, escaped form.
/// Claimed: the result is `str_debug` of the text, a function of it alone.
#[verifier::external_body]
pub(crate) fn debug_quoted(s: &str) -> (r: String)
    ensures
        r@ == str_debug(s@),
{
    format!("{:?}", s)
}

/// A path a patch header can carry: not empty, not `/dev/null`, no line
/// breaks or NUL.
pub open spec fn path_ok(p: Seq<char>) -> bool {
    p.len() > 0 && p != "/dev/null"@ && !(exists|i: int|
        0 <= i < p.len() && (#[trigger] p[i] == '\n' || p[i] == '\r' || p[i] == '\0'))
}

pub open spec fn bodies_of(hunks: Seq<DiffHunkV>, sels: Seq<LineSelection>, stage: bool) -> Seq<Seq<EmittedV>> {
    Seq::new(hunks.len(), |h: int| hunk_body(hunks[h], h, sels, stage))
}

/// No body puts a line on the old side.
pub open spec fn old_side_empty(bodies: Seq<Seq<EmittedV>>) -> bool {
    forall|h: int, i: int| 0 <= h < bodies.len() && 0 <= i < bodies[h].len() ==> !on_old_side(#[trigger] bodies[h][i].kind)
}

pub open spec fn new_side_empty(bodies: Seq<Seq<EmittedV>>) -> bool {
    forall|h: int, i: int| 0 <= h < bodies.len() && 0 <= i < bodies[h].len() ==> !on_new_side(#[trigger] bodies[h][i].kind)
}

/// The patch text: the `diff --git` line, mode lines for a created or
/// deleted file, the `---`/`+++` headers, then the hunks.
pub open spec fn assembled(old_path: Seq<char>, new_path: Seq<char>, old_dev: bool, new_dev: bool, hunks: Seq<char>) -> Seq<char> {
    "diff --git a/"@ + old_path + " b/"@ + new_path + "\n"@ + (if old_dev {
        "new file mode 100644\n"@
    } else {
        Seq::<char>::empty()
    }) + (if new_dev {
        "deleted file mode 100644\n"@
    } else {
        Seq::<char>::empty()
    }) + (if old_dev {
        "--- /dev/null\n"@
    } else {
        "--- a/"@ + old_path + "\n"@
    }) + (if new_dev {
        "+++ /dev/null\n"@
    } else {
        "+++ b/"@ + new_path + "\n"@
    }) + hunks
}

/// The patch of the selected lines of one file, or why there is none.
pub open spec fn patch_outcome(file: DiffFileV, path: Seq<char>, sels: Seq<LineSelection>, op: LineOp) -> PatchOutcome {
    patch_outcome_dir(file, path, sels, op == LineOp::Stage)
}

/// The patch of the selected lines, anchored on the old side (`stage`) or
/// on the new side.
pub open spec fn patch_outcome_dir(file: DiffFileV, path: Seq<char>, sels: Seq<LineSelection>, stage: bool) -> PatchOutcome {
    let old_path = match file.old_path {
        Some(p) => p,
        None => path,
    };
    let new_path = match file.new_path {
        Some(p) => p,
        None => path,
    };
    if file.binary {
        PatchOutcome::Binary
    } else if file.hunks.len() == 0 {
        PatchOutcome::Text(Seq::<char>::empty())
    } else if file.old_path is Some && file.new_path is Some && file.old_path != file.new_path {
        PatchOutcome::Renamed
    } else if !path_ok(old_path) {
        PatchOutcome::BadPath(old_path)
    } else if !path_ok(new_path) {
        PatchOutcome::BadPath(new_path)
    } else if exists|h: int| 0 <= h < file.hunks.len() && partial_marker_hunk(#[trigger] file.hunks[h], h, sels) {
        PatchOutcome::PartialMarker
    } else {
        let bodies = bodies_of(file.hunks, sels, stage);
        if forall|h: int| 0 <= h < bodies.len() ==> (#[trigger] bodies[h]).len() == 0 {
            PatchOutcome::Text(Seq::<char>::empty())
        } else {
            let old_dev = file.old_path is None && old_side_empty(bodies);
            let new_dev = file.new_path is None && new_side_empty(bodies);
            PatchOutcome::Text(
                assembled(
                    old_path,
                    new_path,
                    old_dev,
                    new_dev,
                    hunks_text(file.hunks, bodies, stage, file.hunks.len() as int).0,
                ),
            )
        }
    }
}

/// Discard and Unstage build the same patch, or fail alike: both anchor on
/// the new side and reverse the selection the same way.
pub proof fn law_discard_matches_unstage(file: DiffFileV, path: Seq<char>, sels: Seq<LineSelection>)
    ensures
        patch_outcome(file, path, sels, LineOp::Discard) == patch_outcome(file, path, sels, LineOp::Unstage),
{
    assert(LineOp::Discard != LineOp::Stage);
    assert(LineOp::Unstage != LineOp::Stage);
}

fn path_ok_exec(p: &String) -> (r: bool)
    ensures
        r == path_ok(p@),
{
    let c = to_chars(p.as_str());
    let dn = to_chars("/dev/null");
    if c.len() == 0 || crate::text::eq_chars(c.as_slice(), dn.as_slice()) {
        return false;
    }
    let mut i: usize = 0;
    while i < c.len()
        invariant
            c@ == p@,
            0 <= i <= c@.len(),
            forall|j: int| 0 <= j < i ==> !(#[trigger] c@[j] == '\n' || c@[j] == '\r' || c@[j] == '\0'),
        decreases c.len() - i,
    {
        if c[i] == '\n' || c[i] == '\r' || c[i] == '\0' {
            return false;
        }
        i += 1;
    }
    true
}

pub open spec fn bodies_view(bodies: Seq<Vec<Emitted>>) -> Seq<Seq<EmittedV>> {
    bodies.map_values(|b: Vec<Emitted>| seq_view(b@))
}

fn parse_error(msg: &str) -> (r: AppError)
    ensures
        r matches AppError::Parse { message } && message@ == msg@,
{
    AppError::parse(String::from_str(msg))
}

/// The patch bodies of all hunks, `None` when a no-newline hunk is only
/// partly selected.
fn build_bodies(file: &DiffFile, sels: &[LineSelection], stage: bool) -> (r: Option<Vec<Vec<Emitted>>>)
    requires
        file.hunks@.len() <= 0x1_0000_0000,
        forall|h: int| 0 <= h < file.hunks@.len() ==> (#[trigger] file.hunks@[h]).lines@.len() < u32::MAX,
    ensures
        match r {
            Some(b) => bodies_view(b@) == bodies_of(file@.hunks, sels@, stage) && !exists|h: int|
                0 <= h < file@.hunks.len() && partial_marker_hunk(#[trigger] file@.hunks[h], h, sels@),
            None => exists|h: int|
                0 <= h < file@.hunks.len() && partial_marker_hunk(#[trigger] file@.hunks[h], h, sels@),
        },
{
    let ghost hv = file@.hunks;
    let mut bodies: Vec<Vec<Emitted>> = Vec::new();
    let mut h: usize = 0;
    while h < file.hunks.len()
        invariant
            hv == file@.hunks,
            hv.len() <= 0x1_0000_0000,
            forall|j: int| 0 <= j < hv.len() ==> (#[trigger] file.hunks@[j]).lines@.len() < u32::MAX,
            0 <= h <= hv.len(),
            bodies@.len() == h,
            forall|j: int| 0 <= j < h ==> !partial_marker_hunk(#[trigger] hv[j], j, sels@),
            forall|j: int| 0 <= j < h ==> #[trigger] bodies_view(bodies@)[j] == hunk_body(hv[j], j, sels@, stage),
        decreases file.hunks.len() - h,
    {
        let hunk = &file.hunks[h];
        assert(hv[h as int] == hunk@);
        assert(file.hunks@[h as int].lines@.len() < u32::MAX);
        if partial_marker_exec(hunk, h as u32, sels) {
            assert(partial_marker_hunk(hv[h as int], h as int, sels@));
            return None;
        }
        let b = hunk_body_exec(hunk, h as u32, sels, stage);
        let ghost before = bodies_view(bodies@);
        bodies.push(b);
        assert(bodies_view(bodies@) =~= before.push(seq_view(b@)));
        h += 1;
    }
    assert(bodies_view(bodies@) =~= bodies_of(hv, sels@, stage));
    Some(bodies)
}

fn all_bodies_empty(bodies: &Vec<Vec<Emitted>>) -> (r: bool)
    ensures
        r == forall|j: int| 0 <= j < bodies@.len() ==> (#[trigger] bodies_view(bodies@)[j]).len() == 0,
{
    let ghost bv = bodies_view(bodies@);
    let mut k: usize = 0;
    while k < bodies.len()
        invariant
            bv == bodies_view(bodies@),
            0 <= k <= bv.len(),
            forall|j: int| 0 <= j < k ==> (#[trigger] bv[j]).len() == 0,
        decreases bodies.len() - k,
    {
        assert(bv[k as int].len() == bodies@[k as int]@.len());
        if bodies[k].len() != 0 {
            return false;
        }
        k += 1;
    }
    true
}

/// The numbers of a hunk's header and the new running delta.
fn hunk_numbers_exec(hunk: &DiffHunk, body: &Vec<Emitted>, stage: bool, delta: i128) -> (r: (u32, u32, u32, u32, i128))
    requires
        body@.len() <= u32::MAX,
        -0x1_0000_0000_0000_0000 <= delta <= 0x1_0000_0000_0000_0000,
    ensures
        (r.0, r.1, r.2, r.3) == hunk_numbers(hunk@, seq_view(body@), stage, delta as int),
        r.4 as int == delta + hunk_delta(seq_view(body@), stage),
{
    let (ctx, add, del) = counts_exec(body);
    let anchor_start: u32 = if stage {
        hunk.old_start
    } else {
        hunk.new_start
    };
    let anchor_count: u32 = if stage {
        (ctx + del) as u32
    } else {
        (ctx + add) as u32
    };
    let computed_count: u32 = if stage {
        (ctx + add) as u32
    } else {
        (ctx + del) as u32
    };
    let adjust: i128 = if anchor_count > 0 && computed_count == 0 {
        -1
    } else if anchor_count == 0 && computed_count > 0 {
        1
    } else {
        0
    };
    let x: i128 = anchor_start as i128 + delta + adjust;
    let computed_start: u32 = if x < 0 {
        0
    } else {
        x as u32
    };
    let r: i128 = delta + computed_count as i128 - anchor_count as i128;
    if stage {
        (anchor_start, anchor_count, computed_start, computed_count, r)
    } else {
        (computed_start, computed_count, anchor_start, anchor_count, r)
    }
}

/// Appends one hunk (header and body) and returns the new running delta.
fn push_hunk(text: &mut String, hunk: &DiffHunk, body: &Vec<Emitted>, stage: bool, delta: i128) -> (r: i128)
    requires
        body@.len() <= u32::MAX,
        -0x1_0000_0000_0000_0000 <= delta <= 0x1_0000_0000_0000_0000,
    ensures
        ({
            let (os, oc, ns, nc) = hunk_numbers(hunk@, seq_view(body@), stage, delta as int);
            final(text)@ == old(text)@ + hunk_header_text(os, oc, ns, nc) + body_text(
                seq_view(body@),
                body@.len() as int,
            )
        }),
        r as int == delta + hunk_delta(seq_view(body@), stage),
{
    let (os, oc, ns, nc, r) = hunk_numbers_exec(hunk, body, stage, delta);
    push_str(text, "@@ -");
    push_range(text, os, oc);
    push_str(text, " +");
    push_range(text, ns, nc);
    push_str(text, " @@\n");
    push_body(text, body);
    assert(text@ =~= old(text)@ + hunk_header_text(os, oc, ns, nc) + body_text(seq_view(body@), body@.len() as int));
    r
}

fn hunks_text_exec(hunks: &Vec<DiffHunk>, bodies: &Vec<Vec<Emitted>>, sels: &[LineSelection], stage: bool) -> (r: String)
    requires
        hunks@.len() <= 0x1_0000_0000,
        forall|h: int| 0 <= h < hunks@.len() ==> (#[trigger] hunks@[h]).lines@.len() < u32::MAX,
        bodies_view(bodies@) == bodies_of(seq_view(hunks@), sels@, stage),
    ensures
        r@ == hunks_text(seq_view(hunks@), bodies_view(bodies@), stage, hunks@.len() as int).0,
{
    let ghost hv = seq_view(hunks@);
    let ghost bv = bodies_view(bodies@);
    assert(bodies@.len() == bv.len());
    let mut text = String::new();
    let mut delta: i128 = 0;
    let mut i: usize = 0;
    while i < hunks.len()
        invariant
            hv == seq_view(hunks@),
            bv == bodies_view(bodies@),
            bv == bodies_of(hv, sels@, stage),
            bodies@.len() == hv.len(),
            hv.len() <= 0x1_0000_0000,
            forall|h: int| 0 <= h < hunks@.len() ==> (#[trigger] hunks@[h]).lines@.len() < u32::MAX,
            0 <= i <= hv.len(),
            (text@, delta as int) == hunks_text(hv, bv, stage, i as int),
            -(i as int) * 0x1_0000_0000 <= delta <= (i as int) * 0x1_0000_0000,
        decreases hunks.len() - i,
    {
        let hunk = &hunks[i];
        let body = &bodies[i];
        assert(bv[i as int] == seq_view(body@));
        assert(hv[i as int] == hunk@);
        if body.len() != 0 {
            proof {
                lemma_hunk_body_len(hunk@, i as int, sels@, stage);
                assert(hunks@[i as int].lines@.len() < u32::MAX);
                lemma_delta_bound(seq_view(body@), stage);
            }
            delta = push_hunk(&mut text, hunk, body, stage, delta);
        }
        i += 1;
    }
    text
}

proof fn lemma_count_bound(body: Seq<EmittedV>, n: int)
    requires
        0 <= n <= body.len(),
    ensures
        count_kind(body, Emit::Context, n) + count_kind(body, Emit::Add, n) + count_kind(
            body,
            Emit::Del,
            n,
        ) == n,
    decreases n,
{
    if n > 0 {
        lemma_count_bound(body, n - 1);
    }
}

proof fn lemma_delta_bound(body: Seq<EmittedV>, stage: bool)
    ensures
        -(body.len() as int) <= hunk_delta(body, stage) <= body.len(),
{
    lemma_count_bound(body, body.len() as int);
}

/// Whether no body puts a line on the old side, and on the new side.
fn side_flags(bodies: &Vec<Vec<Emitted>>) -> (r: (bool, bool))
    ensures
        r.0 == old_side_empty(bodies_view(bodies@)),
        r.1 == new_side_empty(bodies_view(bodies@)),
{
    let ghost bv = bodies_view(bodies@);
    let mut old_empty = true;
    let mut new_empty = true;
    let mut a: usize = 0;
    while a < bodies.len()
        invariant
            bv == bodies_view(bodies@),
            0 <= a <= bv.len(),
            old_empty == forall|h2: int, j: int|
                0 <= h2 < a && 0 <= j < bv[h2].len() ==> !on_old_side(#[trigger] bv[h2][j].kind),
            new_empty == forall|h2: int, j: int|
                0 <= h2 < a && 0 <= j < bv[h2].len() ==> !on_new_side(#[trigger] bv[h2][j].kind),
        decreases bodies.len() - a,
    {
        let (o, n) = body_sides(&bodies[a]);
        assert(bv[a as int] == seq_view(bodies@[a as int]@));
        if o {
            old_empty = false;
        }
        if n {
            new_empty = false;
        }
        a += 1;
    }
    (old_empty, new_empty)
}

/// Whether a body puts some line on the old side, and on the new side.
fn body_sides(body: &Vec<Emitted>) -> (r: (bool, bool))
    ensures
        r.0 == exists|j: int| 0 <= j < body@.len() && on_old_side(#[trigger] seq_view(body@)[j].kind),
        r.1 == exists|j: int| 0 <= j < body@.len() && on_new_side(#[trigger] seq_view(body@)[j].kind),
{
    let ghost b = seq_view(body@);
    let mut o = false;
    let mut n = false;
    let mut j: usize = 0;
    while j < body.len()
        invariant
            b == seq_view(body@),
            0 <= j <= b.len(),
            o == exists|j2: int| 0 <= j2 < j && on_old_side(#[trigger] b[j2].kind),
            n == exists|j2: int| 0 <= j2 < j && on_new_side(#[trigger] b[j2].kind),
        decreases body.len() - j,
    {
        assert(b[j as int] == body@[j as int]@);
        let kd = body[j].kind;
        if kd == Emit::Context || kd == Emit::Del {
            assert(on_old_side(b[j as int].kind));
            o = true;
        }
        if kd == Emit::Context || kd == Emit::Add {
            assert(on_new_side(b[j as int].kind));
            n = true;
        }
        j += 1;
    }
    (o, n)
}

/// Build the unified patch for the selected lines of one file.
///
/// Returns an empty text when the selection produces no changes (nothing
/// selected, or only context selected): the caller does nothing.
pub fn build_line_patch(file: &DiffFile, path: &str, sels: &[LineSelection], op: LineOp) -> (r: Result<String, AppError>)
    requires
        file.hunks@.len() <= 0x1_0000_0000,
        forall|h: int| 0 <= h < file.hunks@.len() ==> (#[trigger] file.hunks@[h]).lines@.len() < u32::MAX,
    ensures
        match patch_outcome(file@, path@, sels@, op) {
            PatchOutcome::Text(t) => r matches Ok(s) && s@ == t,
            PatchOutcome::Binary => r matches Err(AppError::Parse { message }) && message@
                == "line-level operations are not supported for binary files"@,
            PatchOutcome::Renamed => r matches Err(AppError::Parse { message }) && message@
                == "line-level operations are not supported for renamed files"@,
            PatchOutcome::BadPath(p) => r matches Err(AppError::Parse { message }) && message@
                == "unsupported diff path: "@ + str_debug(p),
            PatchOutcome::PartialMarker => r matches Err(AppError::Parse { message }) && message@
                == "this hunk contains no-newline-at-EOF changes; select all of its lines or none"@,
        },
{
    let ghost fv = file@;
    if file.binary {
        return Err(parse_error("line-level operations are not supported for binary files"));
    }
    if file.hunks.len() == 0 {
        return Ok(String::new());
    }
    match (&file.old_path, &file.new_path) {
        (Some(o), Some(n)) => {
            let oc = to_chars(o.as_str());
            let nc = to_chars(n.as_str());
            if !crate::text::eq_chars(oc.as_slice(), nc.as_slice()) {
                return Err(parse_error("line-level operations are not supported for renamed files"));
            }
        },
        _ => {},
    }
    let old_path = match &file.old_path {
        Some(p) => p.clone(),
        None => String::from_str(path),
    };
    let new_path = match &file.new_path {
        Some(p) => p.clone(),
        None => String::from_str(path),
    };
    assert(old_path@ == match fv.old_path {
        Some(p) => p,
        None => path@,
    });
    assert(new_path@ == match fv.new_path {
        Some(p) => p,
        None => path@,
    });
    if !path_ok_exec(&old_path) {
        return Err(bad_path(&old_path));
    }
    if !path_ok_exec(&new_path) {
        return Err(bad_path(&new_path));
    }
    let stage = op == LineOp::Stage;
    let bodies = match build_bodies(file, sels, stage) {
        Some(b) => b,
        None => {
            return Err(parse_error("this hunk contains no-newline-at-EOF changes; select all of its lines or none"));
        },
    };
    let ghost bv = bodies_view(bodies@);
    if all_bodies_empty(&bodies) {
        return Ok(String::new());
    }
    let text = hunks_text_exec(&file.hunks, &bodies, sels, stage);
    let (old_empty, new_empty) = side_flags(&bodies);
    let old_dev = file.old_path.is_none() && old_empty;
    let new_dev = file.new_path.is_none() && new_empty;
    Ok(assemble(&old_path, &new_path, old_dev, new_dev, &text))
}

fn assemble(old_path: &String, new_path: &String, old_dev: bool, new_dev: bool, text: &String) -> (r: String)
    ensures
        r@ == assembled(old_path@, new_path@, old_dev, new_dev, text@),
{
    let mut out = String::from_str("diff --git a/");
    push_str(&mut out, old_path.as_str());
    push_str(&mut out, " b/");
    push_str(&mut out, new_path.as_str());
    push_str(&mut out, "\n");
    if old_dev {
        push_str(&mut out, "new file mode 100644\n");
    }
    if new_dev {
        push_str(&mut out, "deleted file mode 100644\n");
    }
    if old_dev {
        push_str(&mut out, "--- /dev/null\n");
    } else {
        push_str(&mut out, "--- a/");
        push_str(&mut out, old_path.as_str());
        push_str(&mut out, "\n");
    }
    if new_dev {
        push_str(&mut out, "+++ /dev/null\n");
    } else {
        push_str(&mut out, "+++ b/");
        push_str(&mut out, new_path.as_str());
        push_str(&mut out, "\n");
    }
    push_str(&mut out, text.as_str());
    assert(out@ =~= assembled(old_path@, new_path@, old_dev, new_dev, text@));
    out
}

fn bad_path(p: &String) -> (r: AppError)
    ensures
        r matches AppError::Parse { message } && message@ == "unsupported diff path: "@ + str_debug(p@),
{
    let mut m = String::from_str("unsupported diff path: ");
    let q = debug_quoted(p.as_str());
    push_str(&mut m, q.as_str());
    AppError::parse(m)
}

proof fn lemma_last_range(body: Seq<EmittedV>, n: int)
    ensures
        last_old(body, n) matches Some(i) ==> 0 <= i < n,
        last_new(body, n) matches Some(i) ==> 0 <= i < n,
    decreases n,
{
    if n > 0 {
        lemma_last_range(body, n - 1);
    }
}

/// A hunk body has at most one line more than the hunk.
proof fn lemma_hunk_body_len(hunk: DiffHunkV, h: int, sels: Seq<LineSelection>, stage: bool)
    ensures
        hunk_body(hunk, h, sels, stage).len() <= hunk.lines.len() + 1,
{
    let b = raw_body(hunk.lines, h, sels, stage, hunk.lines.len() as int);
    lemma_raw_body_len(hunk.lines, h, sels, stage, hunk.lines.len() as int);
    lemma_last_range(b, b.len() as int);
}

proof fn lemma_raw_body_len(lines: Seq<DiffLineV>, h: int, sels: Seq<LineSelection>, stage: bool, n: int)
    requires
        0 <= n <= lines.len(),
    ensures
        raw_body(lines, h, sels, stage, n).len() <= n,
    decreases n,
{
    if n > 0 {
        lemma_raw_body_len(lines, h, sels, stage, n - 1);
    }
}

} // verus!
