//! Conflict markers: scanning a worktree document for conflict blocks,
//! validating a resolved document, and classifying a conflicted path.

use vstd::prelude::*;
use crate::text::{
    split, strip_cr, strip_prefix, starts_with, dec_string, to_chars, split_chars, views,
    strip_prefix_chars, eq_chars, push_str, push_u64, contains, contains_seq, opt_str,
};
use crate::error::AppError;
use crate::model::{IndexEntry, IndexEntryV};
use crate::utf8::{utf8_text, utf8_encode, string_from_utf8, lemma_utf8_encode_len};

verus! {

// =====================
// Markers
// =====================

/// A conflict marker line.
#[derive(Debug, Clone, Copy, PartialEq, Eq, Structural)]
pub enum Marker {
    Start,
    Base,
    Sep,
    End,
}

/// `l` is `pfx` alone or `pfx` followed by a space (and a label).
pub open spec fn opens_with_marker(l: Seq<char>, pfx: Seq<char>) -> bool {
    match strip_prefix(l, pfx) {
        Some(rest) => rest.len() == 0 || rest[0] == ' ',
        None => false,
    }
}

/// git's marker rules: `<<<<<<<`, `|||||||` and `>>>>>>>` are markers when
/// exactly seven characters followed by the end of the line or a space;
/// `=======` must be exactly seven equals. One trailing `\r` is ignored.
pub open spec fn marker_of(line: Seq<char>) -> Option<Marker> {
    let l = strip_cr(line);
    if opens_with_marker(l, "<<<<<<<"@) {
        Some(Marker::Start)
    } else if opens_with_marker(l, ">>>>>>>"@) {
        Some(Marker::End)
    } else if opens_with_marker(l, "|||||||"@) {
        Some(Marker::Base)
    } else if l == "======="@ {
        Some(Marker::Sep)
    } else {
        None
    }
}

fn opens_with_marker_exec(l: &[char], pfx: &[char]) -> (r: bool)
    ensures
        r == opens_with_marker(l@, pfx@),
{
    match strip_prefix_chars(l, pfx) {
        Some(rest) => rest.len() == 0 || rest[0] == ' ',
        None => false,
    }
}

fn marker_chars(line: &[char]) -> (r: Option<Marker>)
    ensures
        r == marker_of(line@),
{
    let n: usize = line.len();
    let l: &[char] = if n > 0 && line[n - 1] == '\r' {
        &line[0..n - 1]
    } else {
        line
    };
    assert(l@ == strip_cr(line@)) by {
        if n > 0 && line@[n - 1] == '\r' {
            assert(l@ =~= line@.drop_last());
        }
    }
    let start = to_chars("<<<<<<<");
    let end = to_chars(">>>>>>>");
    let base = to_chars("|||||||");
    let sep = to_chars("=======");
    if opens_with_marker_exec(l, start.as_slice()) {
        Some(Marker::Start)
    } else if opens_with_marker_exec(l, end.as_slice()) {
        Some(Marker::End)
    } else if opens_with_marker_exec(l, base.as_slice()) {
        Some(Marker::Base)
    } else if eq_chars(l, sep.as_slice()) {
        Some(Marker::Sep)
    } else {
        None
    }
}

/// The marker a line is, if any.
pub fn marker_at(line: &str) -> (r: Option<Marker>)
    ensures
        r == marker_of(line@),
{
    let c = to_chars(line);
    marker_chars(c.as_slice())
}

// =====================
// Block scan
// =====================

/// One conflict region of the worktree text. All fields are 0-based line
/// indexes; `*_end` is exclusive.
#[derive(Debug, Clone, Copy, PartialEq, Eq)]
pub struct ConflictBlock {
    /// Line of the `<<<<<<<` marker.
    pub start: u32,
    /// First content line of the current (ours) side.
    pub current_start: u32,
    /// One past the last content line of the current side.
    pub current_end: u32,
    /// Lines of the diff3 base section (`|||||||`), when present.
    pub base_start: Option<u32>,
    pub base_end: Option<u32>,
    /// First content line of the incoming (theirs) side.
    pub incoming_start: u32,
    /// One past the last incoming line (equals `end`).
    pub incoming_end: u32,
    /// Line of the `>>>>>>>` marker.
    pub end: u32,
}

/// Where the scan is within a conflict region.
#[derive(Debug, Clone, Copy, PartialEq, Eq, Structural)]
pub enum ScanState {
    Idle,
    Ours,
    Base,
    Theirs,
}

/// Block under construction: start marker, ours start, base range, theirs start.
#[derive(Debug, Clone, Copy)]
pub struct PartialBlock {
    pub start: u32,
    pub current_start: u32,
    pub base: Option<(u32, u32)>,
    pub incoming_start: u32,
}

/// The scan between two lines.
pub struct BlockScan {
    pub blocks: Seq<ConflictBlock>,
    pub state: ScanState,
    pub cur: Option<PartialBlock>,
}

pub open spec fn fresh_block(i: u32) -> PartialBlock {
    PartialBlock {
        start: i,
        current_start: (i + 1) as u32,
        base: None,
        incoming_start: (i + 1) as u32,
    }
}

/// Completes a block at the end-marker line `end`. The current side ends
/// at the base or separator marker; a block closed without either has an
/// empty current side, ending where it starts.
pub open spec fn finish_block(c: PartialBlock, end: u32) -> ConflictBlock {
    ConflictBlock {
        start: c.start,
        current_start: c.current_start,
        current_end: match c.base {
            Some(b) => (b.0 - 1) as u32,
            None => if c.incoming_start > c.current_start {
                (c.incoming_start - 1) as u32
            } else {
                c.current_start
            },
        },
        base_start: match c.base {
            Some(b) => Some(b.0),
            None => None,
        },
        base_end: match c.base {
            Some(b) => Some(b.1),
            None => None,
        },
        incoming_start: c.incoming_start,
        incoming_end: end,
        end,
    }
}

pub open spec fn close_block(st: BlockScan, i: u32) -> BlockScan {
    BlockScan {
        blocks: match st.cur {
            Some(c) => st.blocks.push(finish_block(c, i)),
            None => st.blocks,
        },
        state: ScanState::Idle,
        cur: None,
    }
}

/// Line `i` of the document.
pub open spec fn block_step(st: BlockScan, i: u32, line: Seq<char>) -> BlockScan {
    let m = marker_of(line);
    let next = (i + 1) as u32;
    match st.state {
        ScanState::Idle => if m == Some(Marker::Start) {
            BlockScan { cur: Some(fresh_block(i)), state: ScanState::Ours, ..st }
        } else {
            st
        },
        ScanState::Ours => match m {
            Some(Marker::Base) => BlockScan {
                cur: match st.cur {
                    Some(c) => Some(PartialBlock { base: Some((next, next)), ..c }),
                    None => None,
                },
                state: ScanState::Base,
                ..st
            },
            Some(Marker::Sep) => BlockScan {
                cur: match st.cur {
                    Some(c) => Some(PartialBlock { incoming_start: next, ..c }),
                    None => None,
                },
                state: ScanState::Theirs,
                ..st
            },
            Some(Marker::End) => close_block(st, i),
            Some(Marker::Start) => BlockScan { cur: Some(fresh_block(i)), ..st },
            None => st,
        },
        ScanState::Base => match m {
            Some(Marker::Sep) => BlockScan {
                cur: match st.cur {
                    Some(c) => Some(
                        PartialBlock {
                            base: match c.base {
                                Some(b) => Some((b.0, i)),
                                None => None,
                            },
                            incoming_start: next,
                            ..c
                        },
                    ),
                    None => None,
                },
                state: ScanState::Theirs,
                ..st
            },
            Some(Marker::Base) => BlockScan {
                cur: match st.cur {
                    Some(c) => Some(
                        PartialBlock {
                            base: match c.base {
                                Some(b) => Some((b.0, next)),
                                None => None,
                            },
                            ..c
                        },
                    ),
                    None => None,
                },
                ..st
            },
            Some(Marker::Start) => BlockScan {
                cur: Some(fresh_block(i)),
                state: ScanState::Ours,
                ..st
            },
            Some(Marker::End) => BlockScan { cur: None, state: ScanState::Idle, ..st },
            None => st,
        },
        ScanState::Theirs => if m == Some(Marker::End) {
            close_block(st, i)
        } else {
            st
        },
    }
}

pub open spec fn scan_start() -> BlockScan {
    BlockScan { blocks: Seq::<ConflictBlock>::empty(), state: ScanState::Idle, cur: None }
}

/// The scan after lines `ls` (line `k` has index `k`).
pub open spec fn block_scan(ls: Seq<Seq<char>>) -> BlockScan
    decreases ls.len(),
{
    if ls.len() == 0 {
        scan_start()
    } else {
        block_step(block_scan(ls.drop_last()), (ls.len() - 1) as u32, ls.last())
    }
}

/// The document's lines; the empty piece after a final `\n` is not a line.
pub open spec fn doc_lines(text: Seq<char>) -> Seq<Seq<char>> {
    let ls = split(text, '\n');
    if ls.len() > 1 && ls.last().len() == 0 {
        ls.drop_last()
    } else {
        ls
    }
}

/// The complete conflict blocks of a document.
pub open spec fn blocks_of(text: Seq<char>) -> Seq<ConflictBlock> {
    block_scan(doc_lines(text)).blocks
}

/// Every line index of the document fits a `u32`.
pub open spec fn line_indexes_fit(text: Seq<char>) -> bool {
    split(text, '\n').len() <= u32::MAX
}

pub open spec fn partial_ok(c: Option<PartialBlock>) -> bool {
    match c {
        Some(p) => match p.base {
            Some(b) => b.0 >= 1,
            None => true,
        },
        None => true,
    }
}

struct BlockScanner {
    blocks: Vec<ConflictBlock>,
    state: ScanState,
    cur: Option<PartialBlock>,
}

impl View for BlockScanner {
    type V = BlockScan;

    closed spec fn view(&self) -> BlockScan {
        BlockScan { blocks: self.blocks@, state: self.state, cur: self.cur }
    }
}

fn fresh_block_exec(i: u32) -> (r: PartialBlock)
    requires
        i < u32::MAX,
    ensures
        r == fresh_block(i),
{
    PartialBlock { start: i, current_start: i + 1, base: None, incoming_start: i + 1 }
}

fn finish_block_exec(c: PartialBlock, end: u32) -> (r: ConflictBlock)
    requires
        partial_ok(Some(c)),
    ensures
        r == finish_block(c, end),
{
    let (current_end, base_start, base_end) = match c.base {
        Some(b) => (b.0 - 1, Some(b.0), Some(b.1)),
        None => (
            if c.incoming_start > c.current_start {
                c.incoming_start - 1
            } else {
                c.current_start
            },
            None,
            None,
        ),
    };
    ConflictBlock {
        start: c.start,
        current_start: c.current_start,
        current_end,
        base_start,
        base_end,
        incoming_start: c.incoming_start,
        incoming_end: end,
        end,
    }
}

impl BlockScanner {
    fn close(&mut self, i: u32)
        requires
            partial_ok(old(self).cur),
        ensures
            final(self)@ == close_block(old(self)@, i),
            final(self)@.blocks.len() <= old(self)@.blocks.len() + 1,
    {
        match self.cur {
            Some(c) => {
                let b = finish_block_exec(c, i);
                self.blocks.push(b);
            },
            None => {},
        }
        self.cur = None;
        self.state = ScanState::Idle;
    }

    fn step(&mut self, i: u32, line: &[char])
        requires
            i < u32::MAX,
            partial_ok(old(self)@.cur),
        ensures
            final(self)@ == block_step(old(self)@, i, line@),
            partial_ok(final(self)@.cur),
            final(self)@.blocks.len() <= old(self)@.blocks.len() + 1,
    {
        let m = marker_chars(line);
        let next = i + 1;
        match self.state {
            ScanState::Idle => {
                if m == Some(Marker::Start) {
                    self.cur = Some(fresh_block_exec(i));
                    self.state = ScanState::Ours;
                }
            },
            ScanState::Ours => match m {
                Some(Marker::Base) => {
                    self.cur = match self.cur {
                        Some(c) => Some(PartialBlock { base: Some((next, next)), ..c }),
                        None => None,
                    };
                    self.state = ScanState::Base;
                },
                Some(Marker::Sep) => {
                    self.cur = match self.cur {
                        Some(c) => Some(PartialBlock { incoming_start: next, ..c }),
                        None => None,
                    };
                    self.state = ScanState::Theirs;
                },
                Some(Marker::End) => {
                    self.close(i);
                },
                Some(Marker::Start) => {
                    self.cur = Some(fresh_block_exec(i));
                },
                None => {},
            },
            ScanState::Base => match m {
                Some(Marker::Sep) => {
                    self.cur = match self.cur {
                        Some(c) => Some(
                            PartialBlock {
                                base: match c.base {
                                    Some(b) => Some((b.0, i)),
                                    None => None,
                                },
                                incoming_start: next,
                                ..c
                            },
                        ),
                        None => None,
                    };
                    self.state = ScanState::Theirs;
                },
                Some(Marker::Base) => {
                    self.cur = match self.cur {
                        Some(c) => Some(
                            PartialBlock {
                                base: match c.base {
                                    Some(b) => Some((b.0, next)),
                                    None => None,
                                },
                                ..c
                            },
                        ),
                        None => None,
                    };
                },
                Some(Marker::Start) => {
                    self.cur = Some(fresh_block_exec(i));
                    self.state = ScanState::Ours;
                },
                Some(Marker::End) => {
                    self.cur = None;
                    self.state = ScanState::Idle;
                },
                None => {},
            },
            ScanState::Theirs => {
                if m == Some(Marker::End) {
                    self.close(i);
                }
            },
        }
    }
}

/// The document's lines as character vectors, and their count.
fn document_lines(text: &str) -> (r: (Vec<Vec<char>>, usize))
    ensures
        r.1 <= r.0@.len(),
        views(r.0@).take(r.1 as int) == doc_lines(text@),
        views(r.0@) == split(text@, '\n'),
{
    let chars = to_chars(text);
    let parts = split_chars(chars.as_slice(), '\n');
    let count: usize = parts.len();
    proof {
        crate::text::lemma_split_len(text@, '\n');
    }
    let m: usize = if count > 1 && parts[count - 1].len() == 0 {
        count - 1
    } else {
        count
    };
    assert(views(parts@).take(m as int) =~= doc_lines(text@));
    (parts, m)
}

/// Scan worktree text for conflict blocks. Incomplete regions (end of text
/// before `>>>>>>>`) are dropped; the leftover-marker validation on resolve
/// still rejects such documents.
pub fn scan_blocks(text: &str) -> (r: Vec<ConflictBlock>)
    requires
        line_indexes_fit(text@),
    ensures
        r@ == blocks_of(text@),
        r@.len() <= doc_lines(text@).len(),
        blocks_ordered(r@, doc_lines(text@)),
{
    proof {
        law_blocks_ordered(text@);
    }
    let (parts, m) = document_lines(text);
    let ghost ls = doc_lines(text@);
    let mut sc = BlockScanner { blocks: Vec::new(), state: ScanState::Idle, cur: None };
    assert(sc@.blocks =~= Seq::<ConflictBlock>::empty());
    let mut i: usize = 0;
    while i < m
        invariant
            m <= parts@.len() <= u32::MAX,
            ls == views(parts@).take(m as int),
            0 <= i <= m,
            sc@ == block_scan(ls.take(i as int)),
            partial_ok(sc@.cur),
            sc@.blocks.len() <= i,
        decreases m - i,
    {
        sc.step(i as u32, parts[i].as_slice());
        assert(ls.take(i + 1).drop_last() =~= ls.take(i as int));
        assert(ls.take(i + 1).last() == parts@[i as int]@);
        i += 1;
    }
    assert(ls.take(m as int) =~= ls);
    sc.blocks
}

// =====================
// Leftover markers and validation
// =====================

/// Start/end markers outside completed blocks, with whether the scan is
/// inside a block. Bare `=======` is not counted (setext headings).
pub open spec fn leftover_scan(ls: Seq<Seq<char>>) -> (bool, nat)
    decreases ls.len(),
{
    if ls.len() == 0 {
        (false, 0)
    } else {
        let (in_block, n) = leftover_scan(ls.drop_last());
        match marker_of(ls.last()) {
            Some(Marker::Start) => if !in_block {
                (true, n + 1)
            } else {
                (in_block, n)
            },
            Some(Marker::End) => if in_block {
                (false, n)
            } else {
                (in_block, n + 1)
            },
            _ => (in_block, n),
        }
    }
}

pub open spec fn leftover_count(text: Seq<char>) -> nat {
    leftover_scan(split(text, '\n')).1
}

fn leftover_marker_count(text: &str) -> (r: usize)
    ensures
        r == leftover_count(text@),
{
    let (parts, _m) = document_lines(text);
    let ghost ls = views(parts@);
    let mut in_block = false;
    let mut n: usize = 0;
    let mut i: usize = 0;
    while i < parts.len()
        invariant
            ls == views(parts@),
            0 <= i <= ls.len(),
            (in_block, n as nat) == leftover_scan(ls.take(i as int)),
            n <= i,
        decreases parts.len() - i,
    {
        assert(ls.take(i + 1).drop_last() =~= ls.take(i as int));
        assert(ls.take(i + 1).last() == parts@[i as int]@);
        match marker_chars(parts[i].as_slice()) {
            Some(Marker::Start) => {
                if !in_block {
                    in_block = true;
                    n += 1;
                }
            },
            Some(Marker::End) => {
                if in_block {
                    in_block = false;
                } else {
                    n += 1;
                }
            },
            _ => {},
        }
        i += 1;
    }
    assert(ls.take(ls.len() as int) =~= ls);
    n
}

/// The message of a refused resolve.
pub open spec fn unresolved_message(blocks: nat, leftover: nat) -> Seq<char> {
    "conflict markers still present ("@ + dec_string(blocks) + " blocks, "@ + dec_string(leftover)
        + " stray markers); resolve every conflict before staging"@
}

/// Resolve-time validation: a document may only be staged when no conflict
/// markers remain.
pub fn validate_resolved(text: &str) -> (r: Result<(), AppError>)
    requires
        line_indexes_fit(text@),
    ensures
        r is Ok <==> (blocks_of(text@).len() == 0 && leftover_count(text@) == 0),
        r matches Err(e) ==> (e matches AppError::Parse { message } && message@
            == unresolved_message(blocks_of(text@).len(), leftover_count(text@))),
{
    let complete = scan_blocks(text).len();
    let leftover = leftover_marker_count(text);
    if complete == 0 && leftover == 0 {
        return Ok(());
    }
    let mut s = String::new();
    push_str(&mut s, "conflict markers still present (");
    push_u64(&mut s, complete as u64);
    push_str(&mut s, " blocks, ");
    push_u64(&mut s, leftover as u64);
    push_str(&mut s, " stray markers); resolve every conflict before staging");
    Err(AppError::parse(s))
}


// =====================
// Laws
// =====================

/// A `<<<<<<<` or `>>>>>>>` marker line.
pub open spec fn is_start_or_end(line: Seq<char>) -> bool {
    marker_of(line) == Some(Marker::Start) || marker_of(line) == Some(Marker::End)
}

proof fn lemma_leftover_zero(ls: Seq<Seq<char>>)
    ensures
        (leftover_scan(ls).1 == 0) <==> (forall|k: int|
            0 <= k < ls.len() ==> !is_start_or_end(#[trigger] ls[k])),
        leftover_scan(ls).0 ==> leftover_scan(ls).1 >= 1,
    decreases ls.len(),
{
    if ls.len() > 0 {
        let p = ls.drop_last();
        lemma_leftover_zero(p);
        assert forall|k: int| 0 <= k < p.len() implies #[trigger] p[k] == ls[k] by {}
        if leftover_scan(ls).1 == 0 {
            assert forall|k: int| 0 <= k < ls.len() implies !is_start_or_end(#[trigger] ls[k]) by {
                if k < p.len() {
                    assert(p[k] == ls[k]);
                }
            }
        }
        if forall|k: int| 0 <= k < ls.len() ==> !is_start_or_end(#[trigger] ls[k]) {
            assert(!is_start_or_end(ls[ls.len() - 1]));
            assert forall|k: int| 0 <= k < p.len() implies !is_start_or_end(#[trigger] p[k]) by {
                assert(p[k] == ls[k]);
            }
        }
    }
}

proof fn lemma_blocks_need_start(ls: Seq<Seq<char>>)
    ensures
        (block_scan(ls).blocks.len() > 0 || block_scan(ls).state != ScanState::Idle) ==> exists|
            k: int,
        |
            0 <= k < ls.len() && marker_of(#[trigger] ls[k]) == Some(Marker::Start),
    decreases ls.len(),
{
    if ls.len() > 0 {
        let p = ls.drop_last();
        lemma_blocks_need_start(p);
        let prev = block_scan(p);
        if prev.blocks.len() > 0 || prev.state != ScanState::Idle {
            let k = choose|k: int| 0 <= k < p.len() && marker_of(#[trigger] p[k]) == Some(
                Marker::Start,
            );
            assert(p[k] == ls[k]);
        } else {
            if block_scan(ls).blocks.len() > 0 || block_scan(ls).state != ScanState::Idle {
                assert(marker_of(ls[ls.len() - 1]) == Some(Marker::Start));
            }
        }
    }
}

/// A document passes the resolve-time validation exactly when none of its
/// lines is a `<<<<<<<` or `>>>>>>>` marker.
pub proof fn lemma_resolved_iff_no_markers(text: Seq<char>)
    ensures
        (blocks_of(text).len() == 0 && leftover_count(text) == 0) <==> (forall|k: int|
            0 <= k < split(text, '\n').len() ==> !is_start_or_end(#[trigger] split(text, '\n')[k])),
{
    let all = split(text, '\n');
    let ls = doc_lines(text);
    lemma_leftover_zero(all);
    lemma_blocks_need_start(ls);
    if blocks_of(text).len() > 0 {
        let k = choose|k: int| 0 <= k < ls.len() && marker_of(#[trigger] ls[k]) == Some(Marker::Start);
        assert(ls[k] == all[k]);
        assert(is_start_or_end(all[k]));
    }
}


// =====================
// Classification
// =====================

/// Above this size a side/worktree is not loaded into a model; the file
/// routes to choose-side resolution only.
pub const MAX_SIDE_BYTES: u64 = 2097152;

/// Model-level conflict classification.
#[derive(Debug, Clone, Copy, PartialEq, Eq, Structural)]
pub enum ConflictType {
    /// Both sides modified a text file: the inline conflict editor.
    Content,
    /// Deleted on one side, modified on the other.
    DeleteModify,
    /// Both sides added the file.
    AddAdd,
    /// Both sides renamed the same base path to different names.
    Rename,
    /// Kept for wire stability; rename/delete folds into `DeleteModify`.
    RenameDelete,
    /// NUL byte on a relevant side: no editing, choose a side.
    Binary,
    /// A file on one side, a directory in the worktree.
    DirectoryFile,
}

pub open spec fn type_key(t: ConflictType) -> Seq<char> {
    match t {
        ConflictType::Content => "content"@,
        ConflictType::DeleteModify => "delete_modify"@,
        ConflictType::AddAdd => "add_add"@,
        ConflictType::Rename => "rename"@,
        ConflictType::RenameDelete => "rename_delete"@,
        ConflictType::Binary => "binary"@,
        ConflictType::DirectoryFile => "directory_file"@,
    }
}

impl ConflictType {
    /// Short badge label key suffix.
    pub fn key(self) -> (r: &'static str)
        ensures
            r@ == type_key(self),
    {
        match self {
            ConflictType::Content => "content",
            ConflictType::DeleteModify => "delete_modify",
            ConflictType::AddAdd => "add_add",
            ConflictType::Rename => "rename",
            ConflictType::RenameDelete => "rename_delete",
            ConflictType::Binary => "binary",
            ConflictType::DirectoryFile => "directory_file",
        }
    }
}

/// The XY unmerged code of a stage set (which of stages 1, 2, 3 exist).
#[derive(Debug, Clone, Copy, PartialEq, Eq, Structural)]
pub enum StageCode {
    UU,
    AA,
    AU,
    UA,
    UD,
    DU,
    DD,
}

pub open spec fn code_of(base: bool, ours: bool, theirs: bool) -> Option<StageCode> {
    match (base, ours, theirs) {
        (true, true, true) => Some(StageCode::UU),
        (false, true, true) => Some(StageCode::AA),
        (false, true, false) => Some(StageCode::AU),
        (false, false, true) => Some(StageCode::UA),
        (true, true, false) => Some(StageCode::UD),
        (true, false, true) => Some(StageCode::DU),
        (true, false, false) => Some(StageCode::DD),
        (false, false, false) => None,
    }
}

pub open spec fn code_text(c: StageCode) -> Seq<char> {
    match c {
        StageCode::UU => "UU"@,
        StageCode::AA => "AA"@,
        StageCode::AU => "AU"@,
        StageCode::UA => "UA"@,
        StageCode::UD => "UD"@,
        StageCode::DU => "DU"@,
        StageCode::DD => "DD"@,
    }
}

pub open spec fn stage_code_of(stages: Seq<u32>) -> Option<StageCode> {
    code_of(stages.contains(1), stages.contains(2), stages.contains(3))
}

pub open spec fn opt_text(o: Option<&str>) -> Option<Seq<char>> {
    match o {
        Some(s) => Some(s@),
        None => None,
    }
}

fn has_u32(v: &[u32], x: u32) -> (r: bool)
    ensures
        r == v@.contains(x),
{
    let mut i: usize = 0;
    while i < v.len()
        invariant
            0 <= i <= v@.len(),
            forall|j: int| 0 <= j < i ==> v@[j] != x,
        decreases v.len() - i,
    {
        if v[i] == x {
            return true;
        }
        i += 1;
    }
    false
}

fn stage_code_kind(stages: &[u32]) -> (r: Option<StageCode>)
    ensures
        r == stage_code_of(stages@),
{
    let b = has_u32(stages, 1);
    let o = has_u32(stages, 2);
    let t = has_u32(stages, 3);
    match (b, o, t) {
        (true, true, true) => Some(StageCode::UU),
        (false, true, true) => Some(StageCode::AA),
        (false, true, false) => Some(StageCode::AU),
        (false, false, true) => Some(StageCode::UA),
        (true, true, false) => Some(StageCode::UD),
        (true, false, true) => Some(StageCode::DU),
        (true, false, false) => Some(StageCode::DD),
        (false, false, false) => None,
    }
}

fn code_str(c: StageCode) -> (r: &'static str)
    ensures
        r@ == code_text(c),
{
    match c {
        StageCode::UU => "UU",
        StageCode::AA => "AA",
        StageCode::AU => "AU",
        StageCode::UA => "UA",
        StageCode::UD => "UD",
        StageCode::DU => "DU",
        StageCode::DD => "DD",
    }
}

/// XY unmerged code from the set of stages present (git's wt-status rule).
pub fn stage_code(stages: &[u32]) -> (r: Option<&'static str>)
    ensures
        opt_text(r) == match stage_code_of(stages@) {
            Some(c) => Some(code_text(c)),
            None => None,
        },
{
    match stage_code_kind(stages) {
        Some(c) => Some(code_str(c)),
        None => None,
    }
}

/// A NUL byte within the first 8000 bytes.
pub open spec fn binary_bytes(b: Seq<u8>) -> bool {
    exists|i: int| 0 <= i < b.len() && i < 8000 && b[i] == 0
}

/// NUL byte within the first 8 KiB means binary (the rule git uses).
pub fn looks_binary(bytes: &[u8]) -> (r: bool)
    ensures
        r == binary_bytes(bytes@),
{
    let mut i: usize = 0;
    while i < bytes.len() && i < 8000
        invariant
            0 <= i <= bytes@.len(),
            i <= 8000,
            forall|j: int| 0 <= j < i ==> bytes@[j] != 0,
        decreases bytes.len() - i,
    {
        if bytes[i] == 0 {
            return true;
        }
        i += 1;
    }
    false
}

/// The first entry of `stages` for stage `k`.
pub open spec fn first_stage(stages: Seq<(u32, IndexEntry)>, k: u32) -> Option<IndexEntryV>
    decreases stages.len(),
{
    if stages.len() == 0 {
        None
    } else if stages[0].0 == k {
        Some(stages[0].1@)
    } else {
        first_stage(stages.skip(1), k)
    }
}

pub open spec fn stage_nums(stages: Seq<(u32, IndexEntry)>) -> Seq<u32> {
    stages.map_values(|s: (u32, IndexEntry)| s.0)
}

pub open spec fn entry_views(records: Seq<IndexEntry>) -> Seq<IndexEntryV> {
    records.map_values(|r: IndexEntry| r@)
}

/// rename/rename(1to2) detection over the unmerged records.
pub open spec fn rename_pair(
    path: Seq<char>,
    records: Seq<IndexEntryV>,
    stages: Seq<(u32, IndexEntry)>,
) -> bool {
    let code = stage_code_of(stage_nums(stages));
    if code == Some(StageCode::UD) || code == Some(StageCode::DU) {
        match first_stage(stages, 1) {
            None => false,
            Some(base) => exists|i: int|
                0 <= i < records.len() && #[trigger] records[i].path != path && records[i].stage
                    == 1 && records[i].sha == base.sha && records[i].mode == base.mode,
        }
    } else if code == Some(StageCode::AU) || code == Some(StageCode::UA) {
        let own = match (if code == Some(StageCode::AU) {
            first_stage(stages, 2)
        } else {
            None
        }) {
            Some(e) => Some(e),
            None => first_stage(stages, 3),
        };
        let other: u32 = if code == Some(StageCode::AU) {
            3
        } else {
            2
        };
        match own {
            None => false,
            Some(o) => exists|i: int|
                0 <= i < records.len() && #[trigger] records[i].path != path && records[i].stage
                    == other && records[i].sha == o.sha,
        }
    } else if code == Some(StageCode::DD) {
        match first_stage(stages, 1) {
            None => false,
            Some(base) => exists|i: int|
                0 <= i < records.len() && (#[trigger] records[i].stage == 2 || records[i].stage
                    == 3) && records[i].sha == base.sha,
        }
    } else {
        false
    }
}

fn first_stage_exec(stages: &[(u32, IndexEntry)], k: u32) -> (r: Option<&IndexEntry>)
    ensures
        match r {
            Some(e) => first_stage(stages@, k) == Some(e@),
            None => first_stage(stages@, k) is None,
        },
{
    let mut i: usize = 0;
    assert(stages@.skip(0) =~= stages@);
    while i < stages.len()
        invariant
            0 <= i <= stages@.len(),
            first_stage(stages@, k) == first_stage(stages@.skip(i as int), k),
        decreases stages.len() - i,
    {
        assert(stages@.skip(i as int)[0] == stages@[i as int]);
        if stages[i].0 == k {
            return Some(&stages[i].1);
        }
        assert(stages@.skip(i as int).skip(1) =~= stages@.skip(i + 1));
        i += 1;
    }
    None
}

fn stage_numbers(stages: &[(u32, IndexEntry)]) -> (r: Vec<u32>)
    ensures
        r@ == stage_nums(stages@),
{
    let mut r: Vec<u32> = Vec::new();
    let mut i: usize = 0;
    while i < stages.len()
        invariant
            0 <= i <= stages@.len(),
            r@ == stage_nums(stages@.take(i as int)),
        decreases stages.len() - i,
    {
        r.push(stages[i].0);
        assert(stage_nums(stages@.take(i + 1)) =~= stage_nums(stages@.take(i as int)).push(
            stages@[i as int].0,
        ));
        i += 1;
    }
    assert(stages@.take(stages@.len() as int) =~= stages@);
    r
}

fn code_is(c: Option<StageCode>, k: StageCode) -> (r: bool)
    ensures
        r == (c == Some(k)),
{
    match c {
        Some(x) => x == k,
        None => false,
    }
}

fn same_text(a: &String, b: &String) -> (r: bool)
    ensures
        r == (a@ == b@),
{
    let x = to_chars(a.as_str());
    let y = to_chars(b.as_str());
    eq_chars(x.as_slice(), y.as_slice())
}

/// rename/rename(1to2) detection: a UD/DU path whose stage-1 (mode, sha)
/// equals another unmerged path's stage-1 record; an AU/UA path whose own
/// blob is another path's other side; a DD origin whose base blob is one
/// of the new names'.
pub fn is_rename_pair(path: &str, records: &[IndexEntry], stages: &[(u32, IndexEntry)]) -> (r:
    bool)
    ensures
        r == rename_pair(path@, entry_views(records@), stages@),
{
    let nums = stage_numbers(stages);
    let code = stage_code_kind(nums.as_slice());
    let p = String::from_str(path);
    let ghost rv = entry_views(records@);
    if code_is(code, StageCode::UD) || code_is(code, StageCode::DU) {
        let base = match first_stage_exec(stages, 1) {
            Some(b) => b,
            None => return false,
        };
        let mut i: usize = 0;
        while i < records.len()
            invariant
                rv == entry_views(records@),
                p@ == path@,
                first_stage(stages@, 1) == Some(base@),
                code == stage_code_of(stage_nums(stages@)),
                code == Some(StageCode::UD) || code == Some(StageCode::DU),
                0 <= i <= records@.len(),
                forall|j: int|
                    0 <= j < i ==> !(#[trigger] rv[j].path != path@ && rv[j].stage == 1 && rv[j].sha
                        == base@.sha && rv[j].mode == base@.mode),
            decreases records.len() - i,
        {
            let r = &records[i];
            assert(rv[i as int] == r@);
            if !same_text(&r.path, &p) && r.stage == 1 && same_text(&r.sha, &base.sha)
                && same_text(&r.mode, &base.mode) {
                assert(rv[i as int].path != path@ && rv[i as int].stage == 1 && rv[i as int].sha
                    == base@.sha && rv[i as int].mode == base@.mode);
                return true;
            }
            i += 1;
        }
        false
    } else if code_is(code, StageCode::AU) || code_is(code, StageCode::UA) {
        let first = if code_is(code, StageCode::AU) {
            first_stage_exec(stages, 2)
        } else {
            None
        };
        let own = match first {
            Some(e) => e,
            None => match first_stage_exec(stages, 3) {
                Some(e) => e,
                None => return false,
            },
        };
        let other: u32 = if code_is(code, StageCode::AU) {
            3
        } else {
            2
        };
        let mut i: usize = 0;
        while i < records.len()
            invariant
                rv == entry_views(records@),
                p@ == path@,
                code == stage_code_of(stage_nums(stages@)),
                code == Some(StageCode::AU) || code == Some(StageCode::UA),
                match (if code == Some(StageCode::AU) {
                    first_stage(stages@, 2)
                } else {
                    None
                }) {
                    Some(e) => Some(e),
                    None => first_stage(stages@, 3),
                } == Some(own@),
                other == (if code == Some(StageCode::AU) {
                    3u32
                } else {
                    2u32
                }),
                0 <= i <= records@.len(),
                forall|j: int|
                    0 <= j < i ==> !(#[trigger] rv[j].path != path@ && rv[j].stage == other
                        && rv[j].sha == own@.sha),
            decreases records.len() - i,
        {
            let r = &records[i];
            assert(rv[i as int] == r@);
            if !same_text(&r.path, &p) && r.stage == other && same_text(&r.sha, &own.sha) {
                assert(rv[i as int].path != path@);
                return true;
            }
            i += 1;
        }
        false
    } else if code_is(code, StageCode::DD) {
        let base = match first_stage_exec(stages, 1) {
            Some(b) => b,
            None => return false,
        };
        let mut i: usize = 0;
        while i < records.len()
            invariant
                rv == entry_views(records@),
                first_stage(stages@, 1) == Some(base@),
                code == stage_code_of(stage_nums(stages@)),
                code == Some(StageCode::DD),
                0 <= i <= records@.len(),
                forall|j: int|
                    0 <= j < i ==> !((#[trigger] rv[j].stage == 2 || rv[j].stage == 3) && rv[j].sha
                        == base@.sha),
            decreases records.len() - i,
        {
            let r = &records[i];
            assert(rv[i as int] == r@);
            if (r.stage == 2 || r.stage == 3) && same_text(&r.sha, &base.sha) {
                assert(rv[i as int].stage == r.stage);
                return true;
            }
            i += 1;
        }
        false
    } else {
        false
    }
}


// =====================
// Conflict model
// =====================

/// State of the worktree path as observed by the engine.
#[derive(Debug, Clone, Copy, PartialEq, Eq, Structural)]
pub enum WorktreeState {
    /// Regular file within the size cap, bytes passed to the model.
    Regular,
    /// The path is a directory.
    Directory,
    /// Regular file above the size cap.
    Oversized,
    /// Missing or unreadable.
    Missing,
}

/// Lightweight per-path conflict info for the conflict file list.
#[derive(Debug, Clone)]
pub struct ConflictSummary {
    pub path: String,
    /// XY unmerged code from the stage set.
    pub code: String,
    pub conflict_type: ConflictType,
    /// Number of parsed conflict blocks in the worktree text.
    pub block_count: u32,
    pub binary: bool,
    /// Any side or the worktree exceeds the size cap.
    pub oversized: bool,
    /// Worktree path is a directory.
    pub directory: bool,
    /// Stage mode is 160000 (submodule pointer conflict).
    pub submodule: bool,
    /// Whether the inline editor can open.
    pub editable: bool,
}

/// Full model for one conflicted path (editor input).
#[derive(Debug, Clone)]
pub struct ConflictModel {
    pub path: String,
    pub code: String,
    pub conflict_type: ConflictType,
    pub block_count: u32,
    pub binary: bool,
    pub oversized: bool,
    pub directory: bool,
    pub submodule: bool,
    pub editable: bool,
    /// Stage availability (base = stage 1, current = stage 2, incoming = 3).
    pub has_base: bool,
    pub has_current: bool,
    pub has_incoming: bool,
    /// Worktree document the editor opens, `None` when unreadable, not
    /// UTF-8 or oversized.
    pub worktree_text: Option<String>,
    /// The worktree file uses CRLF line endings.
    pub crlf: bool,
    pub base_text: Option<String>,
    pub current_text: Option<String>,
    pub incoming_text: Option<String>,
    pub blocks: Vec<ConflictBlock>,
}

pub struct ConflictModelV {
    pub path: Seq<char>,
    pub code: Seq<char>,
    pub conflict_type: ConflictType,
    pub block_count: u32,
    pub binary: bool,
    pub oversized: bool,
    pub directory: bool,
    pub submodule: bool,
    pub editable: bool,
    pub has_base: bool,
    pub has_current: bool,
    pub has_incoming: bool,
    pub worktree_text: Option<Seq<char>>,
    pub crlf: bool,
    pub base_text: Option<Seq<char>>,
    pub current_text: Option<Seq<char>>,
    pub incoming_text: Option<Seq<char>>,
    pub blocks: Seq<ConflictBlock>,
}

impl View for ConflictModel {
    type V = ConflictModelV;

    open spec fn view(&self) -> ConflictModelV {
        ConflictModelV {
            path: self.path@,
            code: self.code@,
            conflict_type: self.conflict_type,
            block_count: self.block_count,
            binary: self.binary,
            oversized: self.oversized,
            directory: self.directory,
            submodule: self.submodule,
            editable: self.editable,
            has_base: self.has_base,
            has_current: self.has_current,
            has_incoming: self.has_incoming,
            worktree_text: opt_str(self.worktree_text),
            crlf: self.crlf,
            base_text: opt_str(self.base_text),
            current_text: opt_str(self.current_text),
            incoming_text: opt_str(self.incoming_text),
            blocks: self.blocks@,
        }
    }
}

pub open spec fn side_views(side: Seq<(u32, Option<Vec<u8>>)>) -> Seq<(u32, Option<Seq<u8>>)> {
    side.map_values(
        |x: (u32, Option<Vec<u8>>)|
            (
                x.0,
                match x.1 {
                    Some(b) => Some(b@),
                    None => None,
                },
            ),
    )
}

/// The bytes of the first side entry for stage `k` (`Some(None)`: above the cap).
pub open spec fn first_side(side: Seq<(u32, Option<Seq<u8>>)>, k: u32) -> Option<Option<Seq<u8>>>
    decreases side.len(),
{
    if side.len() == 0 {
        None
    } else if side[0].0 == k {
        Some(side[0].1)
    } else {
        first_side(side.skip(1), k)
    }
}

/// The text of stage `k`, when the path has that stage and its bytes are
/// loaded UTF-8.
pub open spec fn side_text_of(
    side: Seq<(u32, Option<Seq<u8>>)>,
    stages: Seq<(u32, IndexEntry)>,
    k: u32,
) -> Option<Seq<char>> {
    if !stage_nums(stages).contains(k) {
        None
    } else {
        match first_side(side, k) {
            Some(Some(b)) => utf8_text(b),
            _ => None,
        }
    }
}

/// Some stage's loaded side bytes look binary.
pub open spec fn sides_binary(side: Seq<(u32, Option<Seq<u8>>)>, stages: Seq<(u32, IndexEntry)>) -> bool {
    exists|i: int|
        0 <= i < stages.len() && match first_side(side, #[trigger] stages[i].0) {
            Some(Some(b)) => binary_bytes(b),
            _ => false,
        }
}

pub open spec fn classify(
    directory: bool,
    submodule: bool,
    rename: bool,
    binary: bool,
    code: Option<StageCode>,
) -> ConflictType {
    if directory {
        ConflictType::DirectoryFile
    } else if submodule {
        ConflictType::Binary
    } else if rename {
        ConflictType::Rename
    } else if binary {
        ConflictType::Binary
    } else {
        match code {
            Some(StageCode::AA) | Some(StageCode::AU) | Some(StageCode::UA) => ConflictType::AddAdd,
            Some(StageCode::DU) | Some(StageCode::UD) => ConflictType::DeleteModify,
            _ => ConflictType::Content,
        }
    }
}

/// The model of one conflicted path.
pub open spec fn conflict_model(
    path: Seq<char>,
    records: Seq<IndexEntryV>,
    stages: Seq<(u32, IndexEntry)>,
    state: WorktreeState,
    worktree: Option<Seq<u8>>,
    sibling_directory: bool,
    side: Seq<(u32, Option<Seq<u8>>)>,
) -> ConflictModelV {
    let kind = stage_code_of(stage_nums(stages));
    let directory = state == WorktreeState::Directory || sibling_directory;
    let submodule = exists|i: int| 0 <= i < stages.len() && (#[trigger] stages[i].1).mode@ == "160000"@;
    let oversized = (exists|i: int| 0 <= i < side.len() && (#[trigger] side[i]).1 is None) || state
        == WorktreeState::Oversized;
    let worktree_binary = match worktree {
        Some(b) => state == WorktreeState::Regular && binary_bytes(b),
        None => false,
    };
    let binary = !directory && (sides_binary(side, stages) || worktree_binary);
    let text = match worktree {
        Some(b) => utf8_text(b),
        None => None,
    };
    let blocks = match text {
        Some(t) => blocks_of(t),
        None => Seq::<ConflictBlock>::empty(),
    };
    ConflictModelV {
        path,
        code: match kind {
            Some(c) => code_text(c),
            None => "UU"@,
        },
        conflict_type: classify(
            directory,
            submodule,
            rename_pair(path, records, stages),
            binary,
            kind,
        ),
        block_count: blocks.len() as u32,
        binary,
        oversized,
        directory,
        submodule,
        editable: state == WorktreeState::Regular && text is Some && !binary && !oversized && !directory,
        has_base: stage_nums(stages).contains(1),
        has_current: stage_nums(stages).contains(2),
        has_incoming: stage_nums(stages).contains(3),
        worktree_text: text,
        crlf: match text {
            Some(t) => contains(t, "\r\n"@),
            None => false,
        },
        base_text: side_text_of(side, stages, 1),
        current_text: side_text_of(side, stages, 2),
        incoming_text: side_text_of(side, stages, 3),
        blocks,
    }
}

fn first_side_exec(side: &[(u32, Option<Vec<u8>>)], k: u32) -> (r: Option<&Option<Vec<u8>>>)
    ensures
        match r {
            Some(b) => first_side(side_views(side@), k) == Some(
                match *b {
                    Some(v) => Some(v@),
                    None => None,
                },
            ),
            None => first_side(side_views(side@), k) is None,
        },
{
    let ghost sv = side_views(side@);
    let mut i: usize = 0;
    assert(sv.skip(0) =~= sv);
    while i < side.len()
        invariant
            sv == side_views(side@),
            0 <= i <= side@.len(),
            first_side(sv, k) == first_side(sv.skip(i as int), k),
        decreases side.len() - i,
    {
        assert(sv.skip(i as int)[0] == sv[i as int]);
        if side[i].0 == k {
            return Some(&side[i].1);
        }
        assert(sv.skip(i as int).skip(1) =~= sv.skip(i + 1));
        i += 1;
    }
    None
}

fn side_binary(b: Option<&Option<Vec<u8>>>) -> (r: bool)
    ensures
        r == match b {
            Some(Some(v)) => binary_bytes(v@),
            _ => false,
        },
{
    match b {
        Some(Some(v)) => looks_binary(v.as_slice()),
        _ => false,
    }
}

fn side_text(side: &[(u32, Option<Vec<u8>>)], stages: &[(u32, IndexEntry)], k: u32) -> (r: Option<
    String,
>)
    ensures
        opt_str(r) == side_text_of(side_views(side@), stages@, k),
{
    let nums = stage_numbers(stages);
    if !has_u32(nums.as_slice(), k) {
        return None;
    }
    match first_side_exec(side, k) {
        Some(Some(b)) => string_from_utf8(b.as_slice()),
        _ => None,
    }
}

proof fn lemma_split_len_bound(s: Seq<char>, sep: char)
    ensures
        split(s, sep).len() <= s.len() + 1,
    decreases s.len(),
{
    if s.len() > 0 {
        lemma_split_len_bound(s.drop_last(), sep);
        crate::text::lemma_split_len(s.drop_last(), sep);
        let p = split(s.drop_last(), sep);
        assert(split(s, sep).len() <= p.len() + 1);
    } else {
        assert(split(s, sep).len() == 1);
    }
}

/// Read and classify one conflicted path into a [`ConflictModel`].
///
/// `stages` are this path's (stage, entry) records; `records` all unmerged
/// records (rename-pair correlation); `worktree_bytes` the capped file
/// content when `state` is `Ok`; `side_bytes` the stage contents (`None`
/// for a stage above the cap).
pub fn build_model(
    path: &str,
    records: &[IndexEntry],
    stages: &[(u32, IndexEntry)],
    state: WorktreeState,
    worktree_bytes: Option<&[u8]>,
    sibling_directory: bool,
    side_bytes: &[(u32, Option<Vec<u8>>)],
) -> (r: ConflictModel)
    requires
        worktree_bytes matches Some(b) ==> b@.len() < u32::MAX,
    ensures
        r@ == conflict_model(
            path@,
            entry_views(records@),
            stages@,
            state,
            match worktree_bytes {
                Some(b) => Some(b@),
                None => None,
            },
            sibling_directory,
            side_views(side_bytes@),
        ),
{
    let ghost sv = side_views(side_bytes@);
    let nums = stage_numbers(stages);
    let kind = stage_code_kind(nums.as_slice());
    let code = match kind {
        Some(c) => String::from_str(code_str(c)),
        None => String::from_str("UU"),
    };
    let directory = state == WorktreeState::Directory || sibling_directory;
    let sub_mode = to_chars("160000");
    let mut submodule = false;
    let mut i: usize = 0;
    while i < stages.len()
        invariant
            sub_mode@ == "160000"@,
            0 <= i <= stages@.len(),
            submodule == exists|j: int| 0 <= j < i && (#[trigger] stages@[j].1).mode@ == "160000"@,
        decreases stages.len() - i,
    {
        let m = to_chars(stages[i].1.mode.as_str());
        if eq_chars(m.as_slice(), sub_mode.as_slice()) {
            submodule = true;
        }
        i += 1;
    }
    let mut missing_side = false;
    let mut i: usize = 0;
    while i < side_bytes.len()
        invariant
            sv == side_views(side_bytes@),
            0 <= i <= side_bytes@.len(),
            missing_side == exists|j: int| 0 <= j < i && (#[trigger] sv[j]).1 is None,
        decreases side_bytes.len() - i,
    {
        assert(sv[i as int].1 is None <==> side_bytes@[i as int].1 is None);
        if side_bytes[i].1.is_none() {
            missing_side = true;
        }
        i += 1;
    }
    let oversized = missing_side || state == WorktreeState::Oversized;
    let mut sides_bin = false;
    let mut i: usize = 0;
    while i < stages.len()
        invariant
            sv == side_views(side_bytes@),
            0 <= i <= stages@.len(),
            sides_bin == exists|j: int|
                0 <= j < i && match first_side(sv, #[trigger] stages@[j].0) {
                    Some(Some(b)) => binary_bytes(b),
                    _ => false,
                },
        decreases stages.len() - i,
    {
        if side_binary(first_side_exec(side_bytes, stages[i].0)) {
            sides_bin = true;
        }
        i += 1;
    }
    let wt_bin = match worktree_bytes {
        Some(b) => state == WorktreeState::Regular && looks_binary(b),
        None => false,
    };
    let binary = !directory && (sides_bin || wt_bin);
    let rename = is_rename_pair(path, records, stages);
    let conflict_type = if directory {
        ConflictType::DirectoryFile
    } else if submodule {
        ConflictType::Binary
    } else if rename {
        ConflictType::Rename
    } else if binary {
        ConflictType::Binary
    } else {
        match kind {
            Some(StageCode::AA) | Some(StageCode::AU) | Some(StageCode::UA) => ConflictType::AddAdd,
            Some(StageCode::DU) | Some(StageCode::UD) => ConflictType::DeleteModify,
            _ => ConflictType::Content,
        }
    };
    let worktree_text = match worktree_bytes {
        Some(b) => string_from_utf8(b),
        None => None,
    };
    let (crlf, blocks) = match &worktree_text {
        Some(t) => {
            proof {
                lemma_utf8_encode_len(t@);
                lemma_split_len_bound(t@, '\n');
            }
            let tc = to_chars(t.as_str());
            let crlf_p = to_chars("\r\n");
            (contains_seq(tc.as_slice(), crlf_p.as_slice()), scan_blocks(t.as_str()))
        },
        None => (false, Vec::new()),
    };
    let editable = state == WorktreeState::Regular && worktree_text.is_some() && !binary && !oversized
        && !directory;
    let has_base = has_u32(nums.as_slice(), 1);
    let has_current = has_u32(nums.as_slice(), 2);
    let has_incoming = has_u32(nums.as_slice(), 3);
    let block_count = blocks.len() as u32;
    let r = ConflictModel {
        path: String::from_str(path),
        code,
        conflict_type,
        block_count,
        binary,
        oversized,
        directory,
        submodule,
        editable,
        has_base,
        has_current,
        has_incoming,
        worktree_text,
        crlf,
        base_text: side_text(side_bytes, stages, 1),
        current_text: side_text(side_bytes, stages, 2),
        incoming_text: side_text(side_bytes, stages, 3),
        blocks,
    };
    r
}

// =====================
// Blocks come in order
// =====================

/// A block's sections follow one another from its start marker to its end
/// marker: start < current side <= (base) <= incoming side, the incoming
/// side ending at the end marker.
pub open spec fn block_ok(b: ConflictBlock, ls: Seq<Seq<char>>) -> bool {
    &&& b.start < b.current_start <= b.current_end <= b.incoming_start <= b.incoming_end
    &&& b.incoming_end == b.end
    &&& b.end < ls.len()
    &&& (b.base_start is Some <==> b.base_end is Some)
    &&& (b.base_start matches Some(bs) ==> b.current_end < bs && bs <= b.base_end->0 && b.base_end->0 < b.incoming_start)
    &&& marker_of(ls[b.start as int]) == Some(Marker::Start)
    &&& marker_of(ls[b.end as int]) == Some(Marker::End)
}

/// Each block is well formed, and the blocks follow one another without
/// overlapping.
pub open spec fn blocks_ordered(bs: Seq<ConflictBlock>, ls: Seq<Seq<char>>) -> bool {
    &&& forall|k: int| 0 <= k < bs.len() ==> block_ok(#[trigger] bs[k], ls)
    &&& forall|j: int, k: int| 0 <= j < k < bs.len() ==> #[trigger] bs[j].end < #[trigger] bs[k].start
}

/// The block under construction after `n` lines, by the scan state.
pub open spec fn partial_shape(st: BlockScan, ls: Seq<Seq<char>>, n: int) -> bool {
    match st.cur {
        None => st.state == ScanState::Idle,
        Some(c) => {
            &&& st.state != ScanState::Idle
            &&& c.start < n
            &&& marker_of(ls[c.start as int]) == Some(Marker::Start)
            &&& c.current_start == c.start + 1
            &&& match st.state {
                ScanState::Ours => c.base is None && c.incoming_start == c.current_start,
                ScanState::Base => c.incoming_start == c.current_start && (c.base matches Some(b) && c.current_start
                    < b.0 <= b.1 <= n),
                _ => c.current_start < c.incoming_start <= n && (c.base matches Some(b) ==> c.current_start < b.0
                    && b.0 <= b.1 && b.1 < c.incoming_start),
            }
        },
    }
}

/// After `n` lines: the blocks are ordered and end before line `n`, and
/// an open block starts after all of them.
pub open spec fn scan_ordered(st: BlockScan, ls: Seq<Seq<char>>, n: int) -> bool {
    &&& blocks_ordered(st.blocks, ls)
    &&& forall|k: int| 0 <= k < st.blocks.len() ==> #[trigger] st.blocks[k].end < n
    &&& partial_shape(st, ls, n)
    &&& (st.cur matches Some(c) ==> forall|k: int| 0 <= k < st.blocks.len() ==> #[trigger] st.blocks[k].end < c.start)
}

proof fn lemma_block_step_ordered(st: BlockScan, ls: Seq<Seq<char>>, i: u32)
    requires
        scan_ordered(st, ls, i as int),
        i < ls.len(),
        ls.len() <= u32::MAX,
    ensures
        scan_ordered(block_step(st, i, ls[i as int]), ls, i + 1),
{
    let line = ls[i as int];
    let r = block_step(st, i, line);
    if r.blocks.len() > st.blocks.len() {
        let c = st.cur->0;
        assert(r.blocks == st.blocks.push(finish_block(c, i)));
        let n = st.blocks.len() as int;
        assert(r.blocks[n] == finish_block(c, i));
        assert(block_ok(finish_block(c, i), ls));
        assert forall|j: int, k: int| 0 <= j < k < r.blocks.len() implies #[trigger] r.blocks[j].end
            < #[trigger] r.blocks[k].start by {
            assert(r.blocks[j] == st.blocks[j]);
            if k < n {
                assert(r.blocks[k] == st.blocks[k]);
            }
        }
        assert forall|k: int| 0 <= k < r.blocks.len() implies block_ok(#[trigger] r.blocks[k], ls) by {
            if k < n {
                assert(r.blocks[k] == st.blocks[k]);
            }
        }
        assert forall|k: int| 0 <= k < r.blocks.len() implies #[trigger] r.blocks[k].end < i + 1 by {
            if k < n {
                assert(r.blocks[k] == st.blocks[k]);
            }
        }
    } else {
        assert(r.blocks == st.blocks);
    }
}

proof fn lemma_block_scan_ordered(ls: Seq<Seq<char>>, n: int)
    requires
        ls.len() <= u32::MAX,
        0 <= n <= ls.len(),
    ensures
        scan_ordered(block_scan(ls.take(n)), ls, n),
    decreases n,
{
    if n > 0 {
        lemma_block_scan_ordered(ls, n - 1);
        assert(ls.take(n).drop_last() =~= ls.take(n - 1));
        assert(ls.take(n).last() == ls[n - 1]);
        lemma_block_step_ordered(block_scan(ls.take(n - 1)), ls, (n - 1) as u32);
    } else {
        assert(block_scan(ls.take(0)).blocks.len() == 0);
    }
}

/// The complete conflict blocks of a document come in document order, each
/// from a start marker line to a later end marker line, its sections in
/// order between them (an empty current side ends where it starts), none
/// overlapping the next.
pub proof fn law_blocks_ordered(text: Seq<char>)
    requires
        line_indexes_fit(text),
    ensures
        blocks_ordered(blocks_of(text), doc_lines(text)),
{
    let ls = doc_lines(text);
    lemma_block_scan_ordered(ls, ls.len() as int);
    assert(ls.take(ls.len() as int) =~= ls);
}

// =====================
// The binary rule
// =====================

/// Content is binary exactly when a NUL byte occurs among its first 8000
/// bytes: one there makes it binary, and content without one (text in any
/// script, UTF-8 beyond ASCII included) is not binary; bytes past the
/// first 8000 never matter.
pub proof fn law_binary_is_early_nul(b: Seq<u8>, i: int)
    ensures
        0 <= i < b.len() && i < 8000 && b[i] == 0u8 ==> binary_bytes(b),
        (forall|j: int| 0 <= j < b.len() && j < 8000 ==> b[j] != 0u8) ==> !binary_bytes(b),
        b.len() >= 8000 ==> binary_bytes(b) == binary_bytes(b.take(8000)),
{
    if b.len() >= 8000 && binary_bytes(b) {
        let j = choose|j: int| 0 <= j < b.len() && j < 8000 && b[j] == 0;
        assert(b.take(8000)[j] == b[j]);
    }
    if b.len() >= 8000 && binary_bytes(b.take(8000)) {
        let j = choose|j: int| 0 <= j < b.take(8000).len() && j < 8000 && b.take(8000)[j] == 0;
        assert(b.take(8000)[j] == b[j]);
    }
}

} // verus!
