//! What the conflict view reads from git before it classifies a path: the
//! unmerged index records grouped by path, and the stage blobs read in one
//! `git cat-file --batch` stream.

use vstd::prelude::*;
use vstd::slice::{slice_subrange, slice_to_vec};
use crate::text::{words, parse_usize, to_chars, split_words, string_of, eq_chars, parse_usize_chars, push_str, push_char};
use crate::utf8::{utf8_lossy, string_from_utf8_lossy};
use crate::model::{IndexEntry, IndexEntryV};
use crate::conflict::MAX_SIDE_BYTES;
use crate::error::AppError;
use crate::conflict::{ConflictModel, ConflictModelV, WorktreeState, build_model, conflict_model, entry_views};

verus! {

// =====================
// Unmerged records by path
// =====================

/// The paths of `recs`, each once, in the order they first occur.
pub open spec fn first_seen_paths(recs: Seq<IndexEntryV>) -> Seq<Seq<char>>
    decreases recs.len(),
{
    if recs.len() == 0 {
        Seq::<Seq<char>>::empty()
    } else {
        let p = first_seen_paths(recs.drop_last());
        if p.contains(recs.last().path) {
            p
        } else {
            p.push(recs.last().path)
        }
    }
}

pub open spec fn at_path(path: Seq<char>) -> spec_fn(IndexEntryV) -> bool {
    |e: IndexEntryV| e.path == path
}

/// The records of `path`, in order, each with its stage.
pub open spec fn stages_at(recs: Seq<IndexEntryV>, path: Seq<char>) -> Seq<(u32, IndexEntryV)> {
    recs.filter(at_path(path)).map_values(|e: IndexEntryV| (e.stage, e))
}

pub open spec fn stage_views(v: Seq<(u32, IndexEntry)>) -> Seq<(u32, IndexEntryV)> {
    v.map_values(|x: (u32, IndexEntry)| (x.0, x.1@))
}

fn copy_entry(e: &IndexEntry) -> (r: IndexEntry)
    ensures
        r@ == e@,
{
    IndexEntry { path: e.path.clone(), mode: e.mode.clone(), sha: e.sha.clone(), stage: e.stage }
}

proof fn lemma_first_seen(recs: Seq<IndexEntryV>, p: Seq<char>)
    ensures
        first_seen_paths(recs).contains(p) == (recs.filter(at_path(p)).len() > 0),
    decreases recs.len(),
{
    if recs.len() > 0 {
        let rest = recs.drop_last();
        lemma_first_seen(rest, p);
        assert(recs =~= rest.push(recs.last()));
        rest.lemma_filter_push(recs.last(), at_path(p));
        let q = first_seen_paths(rest);
        if !q.contains(recs.last().path) {
            assert(q.push(recs.last().path)[q.len() as int] == recs.last().path);
            if q.push(recs.last().path).contains(p) && p != recs.last().path {
                let j = choose|j: int| 0 <= j < q.len() + 1 && q.push(recs.last().path)[j] == p;
                assert(q[j] == p);
            }
            if q.contains(p) {
                let j = choose|j: int| 0 <= j < q.len() && q[j] == p;
                assert(q.push(recs.last().path)[j] == p);
            }
        }
    }
}

proof fn lemma_first_seen_distinct(recs: Seq<IndexEntryV>)
    ensures
        first_seen_paths(recs).no_duplicates(),
    decreases recs.len(),
{
    if recs.len() > 0 {
        lemma_first_seen_distinct(recs.drop_last());
    }
}

/// Groups unmerged records by path: one group per path, in the order the
/// paths first occur, each with that path's records (and their stages) in
/// order.
pub fn group_unmerged(records: &[IndexEntry]) -> (r: Vec<(String, Vec<(u32, IndexEntry)>)>)
    ensures
        r@.len() == first_seen_paths(records@.map_values(|e: IndexEntry| e@)).len(),
        forall|i: int|
            0 <= i < r@.len() ==> {
                let recs = records@.map_values(|e: IndexEntry| e@);
                &&& (#[trigger] r@[i]).0@ == first_seen_paths(recs)[i]
                &&& stage_views(r@[i].1@) == stages_at(recs, r@[i].0@)
            },
{
    let ghost recs = records@.map_values(|e: IndexEntry| e@);
    let mut groups: Vec<(String, Vec<(u32, IndexEntry)>)> = Vec::new();
    let mut k: usize = 0;
    while k < records.len()
        invariant
            0 <= k <= records@.len(),
            recs == records@.map_values(|e: IndexEntry| e@),
            groups@.len() == first_seen_paths(recs.take(k as int)).len(),
            forall|i: int|
                0 <= i < groups@.len() ==> {
                    &&& (#[trigger] groups@[i]).0@ == first_seen_paths(recs.take(k as int))[i]
                    &&& stage_views(groups@[i].1@) == stages_at(recs.take(k as int), groups@[i].0@)
                },
        decreases records.len() - k,
    {
        let rec = &records[k];
        let ghost before = groups@;
        let ghost t = recs.take(k as int);
        let ghost t2 = recs.take(k + 1);
        proof {
            assert(t2 =~= t.push(rec@));
            assert(t2.drop_last() =~= t);
            lemma_first_seen_distinct(t);
        }
        let rc = to_chars(rec.path.as_str());
        let mut found: Option<usize> = None;
        let mut j: usize = 0;
        while j < groups.len()
            invariant
                0 <= j <= groups@.len(),
                groups@ == before,
                rc@ == rec@.path,
                found is None ==> forall|m: int| 0 <= m < j ==> (#[trigger] groups@[m]).0@ != rec@.path,
                found matches Some(f) ==> f < groups@.len() && groups@[f as int].0@ == rec@.path,
            decreases groups.len() - j,
        {
            if found.is_none() {
                let gc = to_chars(groups[j].0.as_str());
                if eq_chars(gc.as_slice(), rc.as_slice()) {
                    found = Some(j);
                }
            }
            j += 1;
        }
        let entry = (rec.stage, copy_entry(rec));
        match found {
            Some(f) => {
                groups[f].1.push(entry);
                proof {
                    let fs = first_seen_paths(t);
                    assert(fs[f as int] == rec@.path);
                    assert(fs.contains(rec@.path));
                    assert(first_seen_paths(t2) == fs);
                    assert forall|i: int| 0 <= i < groups@.len() implies {
                        &&& (#[trigger] groups@[i]).0@ == first_seen_paths(t2)[i]
                        &&& stage_views(groups@[i].1@) == stages_at(t2, groups@[i].0@)
                    } by {
                        t.lemma_filter_push(rec@, at_path(groups@[i].0@));
                        if i == f {
                            assert(stage_views(groups@[i].1@) =~= stage_views(before[i].1@).push((rec.stage, rec@)));
                            assert(stages_at(t2, groups@[i].0@) =~= stages_at(t, groups@[i].0@).push((rec.stage, rec@)));
                        } else {
                            assert(groups@[i] == before[i]);
                            assert(fs[i] != fs[f as int]);
                        }
                    }
                }
            },
            None => {
                let mut v: Vec<(u32, IndexEntry)> = Vec::new();
                v.push(entry);
                groups.push((rec.path.clone(), v));
                proof {
                    let fs = first_seen_paths(t);
                    assert(!fs.contains(rec@.path)) by {
                        if fs.contains(rec@.path) {
                            let m = choose|m: int| 0 <= m < fs.len() && fs[m] == rec@.path;
                            assert(before[m].0@ == rec@.path);
                        }
                    }
                    assert(first_seen_paths(t2) == fs.push(rec@.path));
                    lemma_first_seen(t, rec@.path);
                    assert forall|i: int| 0 <= i < groups@.len() implies {
                        &&& (#[trigger] groups@[i]).0@ == first_seen_paths(t2)[i]
                        &&& stage_views(groups@[i].1@) == stages_at(t2, groups@[i].0@)
                    } by {
                        t.lemma_filter_push(rec@, at_path(groups@[i].0@));
                        if i == before.len() {
                            assert(t.filter(at_path(rec@.path)) =~= Seq::<IndexEntryV>::empty());
                            assert(stage_views(groups@[i].1@) =~= seq![(rec.stage, rec@)]);
                            assert(stages_at(t2, groups@[i].0@) =~= seq![(rec.stage, rec@)]);
                        } else {
                            assert(groups@[i] == before[i]);
                            assert(fs[i] != rec@.path);
                        }
                    }
                }
            },
        }
        k += 1;
    }
    assert(recs.take(records@.len() as int) =~= recs);
    groups
}

// =====================
// The `cat-file --batch` stream
// =====================

/// One record of the stream: the sha it echoes and the blob, when it is a
/// non-empty blob within the size cap.
pub type BatchRecord = (Seq<char>, Option<Seq<u8>>);

pub open spec fn word_or_empty(w: Seq<Seq<char>>, i: int) -> Seq<char> {
    if 0 <= i < w.len() {
        w[i]
    } else {
        Seq::<char>::empty()
    }
}

/// The sha, type and size a header line names (missing fields: empty, and
/// a size of 0).
pub open spec fn batch_header(h: Seq<char>) -> (Seq<char>, Seq<char>, nat) {
    let w = words(h);
    let size: nat = match parse_usize(word_or_empty(w, 2)) {
        Some(v) => v as nat,
        None => 0,
    };
    (word_or_empty(w, 0), word_or_empty(w, 1), size)
}

/// The first line feed at or after `pos`.
pub open spec fn newline_from(buf: Seq<u8>, pos: int) -> Option<int>
    decreases buf.len() - pos,
{
    if pos < 0 || pos >= buf.len() {
        None
    } else if buf[pos] == 10u8 {
        Some(pos)
    } else {
        newline_from(buf, pos + 1)
    }
}

/// At most `n` records of the stream from byte `pos`: each header line
/// `<sha> <type> <size>` is followed, for a non-empty blob, by its bytes and
/// a line feed; the records stop at a missing header line or a truncated
/// payload. `None` where reading would index past the end of the stream
/// (a position beyond it, or a size that overflows).
pub open spec fn batch_parse(buf: Seq<u8>, pos: int, n: nat) -> Option<Seq<BatchRecord>>
    decreases n,
{
    if n == 0 {
        Some(Seq::<BatchRecord>::empty())
    } else if pos > buf.len() {
        None
    } else {
        match newline_from(buf, pos) {
            None => Some(Seq::<BatchRecord>::empty()),
            Some(nl) => {
                let (sha, ty, size) = batch_header(utf8_lossy(buf.subrange(pos, nl)));
                let after = nl + 1;
                if ty != "blob"@ || size == 0 {
                    match batch_parse(buf, after, (n - 1) as nat) {
                        Some(rest) => Some(seq![(sha, None::<Seq<u8>>)] + rest),
                        None => None,
                    }
                } else if after + size > usize::MAX {
                    None
                } else if after + size > buf.len() {
                    Some(Seq::<BatchRecord>::empty())
                } else {
                    let data = buf.subrange(after, after + size);
                    let blob = if size <= MAX_SIDE_BYTES {
                        Some(data)
                    } else {
                        None
                    };
                    match batch_parse(buf, after + size + 1, (n - 1) as nat) {
                        Some(rest) => Some(seq![(sha, blob)] + rest),
                        None => None,
                    }
                }
            },
        }
    }
}

/// The blob of the first record that echoes `sha`.
pub open spec fn first_blob(recs: Seq<BatchRecord>, sha: Seq<char>) -> Option<Seq<u8>>
    decreases recs.len(),
{
    if recs.len() == 0 {
        None
    } else if recs[0].0 == sha {
        recs[0].1
    } else {
        first_blob(recs.skip(1), sha)
    }
}

pub open spec fn opt_bytes(o: Option<Vec<u8>>) -> Option<Seq<u8>> {
    match o {
        Some(v) => Some(v@),
        None => None,
    }
}

pub open spec fn record_views(v: Seq<(String, Option<Vec<u8>>)>) -> Seq<BatchRecord> {
    v.map_values(|r: (String, Option<Vec<u8>>)| (r.0@, opt_bytes(r.1)))
}

fn find_newline(buf: &[u8], pos: usize) -> (r: Option<usize>)
    requires
        pos <= buf@.len(),
    ensures
        match r {
            Some(i) => newline_from(buf@, pos as int) == Some(i as int) && pos <= i < buf@.len(),
            None => newline_from(buf@, pos as int) is None,
        },
{
    let mut i = pos;
    while i < buf.len()
        invariant
            pos <= i <= buf@.len(),
            newline_from(buf@, pos as int) == newline_from(buf@, i as int),
        decreases buf.len() - i,
    {
        if buf[i] == 10u8 {
            return Some(i);
        }
        i += 1;
    }
    None
}

fn copy_bytes(v: &Option<Vec<u8>>) -> (r: Option<Vec<u8>>)
    ensures
        opt_bytes(r) == opt_bytes(*v),
{
    match v {
        Some(b) => Some(slice_to_vec(b.as_slice())),
        None => None,
    }
}

/// The records of the stream (`None` exactly where `batch_parse` is).
fn scan_batch(buf: &[u8], n: usize) -> (r: Option<Vec<(String, Option<Vec<u8>>)>>)
    requires
        buf@.len() < usize::MAX,
    ensures
        match r {
            Some(v) => batch_parse(buf@, 0, n as nat) == Some(record_views(v@)),
            None => batch_parse(buf@, 0, n as nat) is None,
        },
{
    let blob = to_chars("blob");
    let mut out: Vec<(String, Option<Vec<u8>>)> = Vec::new();
    let mut pos: usize = 0;
    let mut k: usize = 0;
    let mut stop = false;
    while !stop && k < n
        invariant
            k <= n,
            buf@.len() < usize::MAX,
            blob@ == "blob"@,
            pos <= buf@.len() + 1,
            stop ==> batch_parse(buf@, 0, n as nat) == Some(record_views(out@)),
            !stop ==> batch_parse(buf@, 0, n as nat) == match batch_parse(buf@, pos as int, (n - k) as nat) {
                Some(rest) => Some(record_views(out@) + rest),
                None => None::<Seq<BatchRecord>>,
            },
        decreases n - k + (if stop { 0int } else { 1int }),
    {
        if pos > buf.len() {
            return None;
        }
        let ghost before = out@;
        match find_newline(buf, pos) {
            None => {
                assert(record_views(out@) + Seq::<BatchRecord>::empty() =~= record_views(out@));
                stop = true;
            },
            Some(nl) => {
                let header = string_from_utf8_lossy(slice_subrange(buf, pos, nl));
                let hc = to_chars(header.as_str());
                let w = split_words(hc.as_slice());
                proof {
                    assert(crate::text::views(w@) == words(utf8_lossy(buf@.subrange(pos as int, nl as int))));
                }
                let sha = if w.len() > 0 {
                    string_of(w[0].as_slice())
                } else {
                    String::new()
                };
                let is_blob = w.len() > 1 && eq_chars(w[1].as_slice(), blob.as_slice());
                let size: usize = if w.len() > 2 {
                    match parse_usize_chars(w[2].as_slice()) {
                        Some(v) => v,
                        None => 0,
                    }
                } else {
                    0
                };
                proof {
                    reveal_strlit("blob");
                    if w.len() > 1 {
                        assert(w@[1]@ == crate::text::views(w@)[1]);
                    }
                    let h = batch_header(utf8_lossy(buf@.subrange(pos as int, nl as int)));
                    assert(sha@ == h.0);
                    assert(is_blob == (h.1 == "blob"@));
                    assert(size as nat == h.2);
                }
                let after = nl + 1;
                if !is_blob || size == 0 {
                    out.push((sha, None));
                    proof {
                        assert(record_views(out@) =~= record_views(before).push((sha@, None::<Seq<u8>>)));
                        let rest = batch_parse(buf@, after as int, (n - k - 1) as nat);
                        if rest is Some {
                            assert(record_views(before) + (seq![(sha@, None::<Seq<u8>>)] + rest.unwrap())
                                =~= record_views(out@) + rest.unwrap());
                        }
                    }
                    pos = after;
                    k += 1;
                } else if size > buf.len() - after {
                    if size > usize::MAX - after {
                        return None;
                    }
                    assert(record_views(out@) + Seq::<BatchRecord>::empty() =~= record_views(out@));
                    stop = true;
                } else {
                    let data = slice_to_vec(slice_subrange(buf, after, after + size));
                    let keep = size as u64 <= MAX_SIDE_BYTES;
                    let b = if keep {
                        Some(data)
                    } else {
                        None
                    };
                    let ghost bv = opt_bytes(b);
                    out.push((sha, b));
                    proof {
                        assert(record_views(out@) =~= record_views(before).push((sha@, bv)));
                        let rest = batch_parse(buf@, after + size + 1, (n - k - 1) as nat);
                        if rest is Some {
                            assert(record_views(before) + (seq![(sha@, bv)] + rest.unwrap()) =~= record_views(out@)
                                + rest.unwrap());
                        }
                    }
                    pos = after + size + 1;
                    k += 1;
                }
            },
        }
    }
    if !stop {
        assert(record_views(out@) + Seq::<BatchRecord>::empty() =~= record_views(out@));
    }
    Some(out)
}

/// Whether the stream can be read for `n` requested objects without
/// indexing past its end.
pub fn batch_stream_ok(stdout: &[u8], n: usize) -> (r: bool)
    requires
        stdout@.len() < usize::MAX,
    ensures
        r == batch_parse(stdout@, 0, n as nat) is Some,
{
    scan_batch(stdout, n).is_some()
}

/// The blobs of `shas` from a `cat-file --batch` stream, in the requested
/// order: each is the blob of the first record that echoes its sha, `None`
/// for a missing, empty, non-blob or oversized object or a short stream.
pub fn parse_batch_blobs(stdout: &[u8], shas: &[&str]) -> (r: Vec<Option<Vec<u8>>>)
    requires
        stdout@.len() < usize::MAX,
        batch_parse(stdout@, 0, shas@.len() as nat) is Some,
    ensures
        r@.len() == shas@.len(),
        forall|i: int|
            0 <= i < shas@.len() ==> opt_bytes(#[trigger] r@[i]) == first_blob(
                batch_parse(stdout@, 0, shas@.len() as nat).unwrap(),
                shas@[i]@,
            ),
{
    let recs = match scan_batch(stdout, shas.len()) {
        Some(v) => v,
        None => Vec::new(),
    };
    let ghost rv = record_views(recs@);
    let mut r: Vec<Option<Vec<u8>>> = Vec::new();
    let mut i: usize = 0;
    while i < shas.len()
        invariant
            0 <= i <= shas@.len(),
            rv == record_views(recs@),
            rv == batch_parse(stdout@, 0, shas@.len() as nat).unwrap(),
            r@.len() == i,
            forall|m: int| 0 <= m < i ==> opt_bytes(#[trigger] r@[m]) == first_blob(rv, shas@[m]@),
        decreases shas.len() - i,
    {
        let sc = to_chars(shas[i]);
        let mut j: usize = 0;
        assert(rv.skip(0) =~= rv);
        let mut hit: Option<Vec<u8>> = None;
        let mut done = false;
        while !done && j < recs.len()
            invariant
                0 <= j <= recs@.len(),
                rv == record_views(recs@),
                sc@ == shas@[i as int]@,
                done ==> opt_bytes(hit) == first_blob(rv, sc@),
                !done ==> hit is None,
                !done ==> first_blob(rv, sc@) == first_blob(rv.skip(j as int), sc@),
            decreases recs.len() - j + (if done { 0int } else { 1int }),
        {
            proof {
                assert(rv.skip(j as int).skip(1) =~= rv.skip(j + 1));
                assert(rv.skip(j as int)[0] == rv[j as int]);
            }
            let ec = to_chars(recs[j].0.as_str());
            assert(rv[j as int] == (recs@[j as int].0@, opt_bytes(recs@[j as int].1)));
            if eq_chars(ec.as_slice(), sc.as_slice()) {
                hit = copy_bytes(&recs[j].1);
                assert(first_blob(rv.skip(j as int), sc@) == rv[j as int].1);
                done = true;
            } else {
                j += 1;
            }
        }
        if !done {
            assert(rv.skip(j as int) =~= Seq::<BatchRecord>::empty());
            assert(first_blob(rv.skip(j as int), sc@) is None);
        }
        assert(opt_bytes(hit) == first_blob(rv, shas@[i as int]@));
        let ghost before = r@;
        r.push(hit);
        assert(r@[i as int] == hit);
        assert forall|m: int| 0 <= m < i + 1 implies opt_bytes(#[trigger] r@[m]) == first_blob(rv, shas@[m]@) by {
            if m < i {
                assert(r@[m] == before[m]);
            }
        }
        i += 1;
    }
    r
}

/// The standard input of `git cat-file --batch`: each sha on a line.
pub fn batch_input(shas: &[&str]) -> (r: String)
    ensures
        r@ == batch_input_text(shas@.map_values(|s: &str| s@)),
{
    let mut out = String::new();
    let mut i: usize = 0;
    while i < shas.len()
        invariant
            0 <= i <= shas@.len(),
            out@ == batch_input_text(shas@.map_values(|s: &str| s@).take(i as int)),
        decreases shas.len() - i,
    {
        let ghost before = out@;
        push_str(&mut out, shas[i]);
        push_char(&mut out, '\n');
        proof {
            let v = shas@.map_values(|s: &str| s@);
            assert(v.take(i + 1).drop_last() =~= v.take(i as int));
        }
        i += 1;
    }
    assert(shas@.map_values(|s: &str| s@).take(shas@.len() as int) =~= shas@.map_values(|s: &str| s@));
    out
}

/// The shas, each followed by a line feed.
pub open spec fn batch_input_text(shas: Seq<Seq<char>>) -> Seq<char>
    decreases shas.len(),
{
    if shas.len() == 0 {
        Seq::<char>::empty()
    } else {
        batch_input_text(shas.drop_last()) + shas.last().push('\n')
    }
}

/// The outcome of `git cat-file --batch`: the blobs on success, the git
/// error (with its stderr) otherwise.
pub fn batch_outcome(exit_code: Option<i32>, stdout: &[u8], stderr: String, shas: &[&str]) -> (r: Result<
    Vec<Option<Vec<u8>>>,
    AppError,
>)
    requires
        exit_code == Some(0i32) ==> stdout@.len() < usize::MAX && batch_parse(stdout@, 0, shas@.len() as nat) is Some,
    ensures
        exit_code == Some(0i32) ==> (r matches Ok(v) && v@.len() == shas@.len() && forall|i: int|
            0 <= i < shas@.len() ==> opt_bytes(#[trigger] v@[i]) == first_blob(
                batch_parse(stdout@, 0, shas@.len() as nat).unwrap(),
                shas@[i]@,
            )),
        exit_code != Some(0i32) ==> (r matches Err(AppError::GitCommand { command, stderr: e, stdout: o, detail })
            && command@ == "git cat-file --batch"@ && e@ == stderr@ && o@.len() == 0 && detail is None),
{
    if exit_code != Some(0i32) {
        return Err(AppError::git_command(String::from_str("git cat-file --batch"), stderr, String::new()));
    }
    Ok(parse_batch_blobs(stdout, shas))
}

// =====================
// Models of all conflicted paths
// =====================

pub type Group = (String, Vec<(u32, IndexEntry)>);

/// The stage shas of the groups, group by group, in stage order: the
/// objects one batch read fetches.
pub open spec fn group_shas(groups: Seq<Group>) -> Seq<Seq<char>>
    decreases groups.len(),
{
    if groups.len() == 0 {
        Seq::<Seq<char>>::empty()
    } else {
        group_shas(groups.drop_last()) + groups.last().1@.map_values(|x: (u32, IndexEntry)| x.1.sha@)
    }
}

/// How many stages the first `i` groups hold.
pub open spec fn stages_before(groups: Seq<Group>, i: int) -> nat
    decreases i,
{
    if i <= 0 || groups.len() == 0 {
        0
    } else {
        stages_before(groups, i - 1) + groups[i - 1].1@.len()
    }
}

/// The blob handed to stage `k` of group `i`: the next one of the flat
/// batch result, `None` once it runs out.
pub open spec fn side_of(groups: Seq<Group>, blobs: Seq<Option<Vec<u8>>>, i: int, k: int) -> (u32, Option<Seq<u8>>) {
    let at = stages_before(groups, i) + k;
    (groups[i].1@[k].0, if at < blobs.len() {
        opt_bytes(blobs[at])
    } else {
        None
    })
}

pub open spec fn sides_of(groups: Seq<Group>, blobs: Seq<Option<Vec<u8>>>, i: int) -> Seq<(u32, Option<Seq<u8>>)> {
    Seq::new(groups[i].1@.len(), |k: int| side_of(groups, blobs, i, k))
}

/// What the worktree holds at a conflicted path.
pub struct PathProbe {
    pub state: WorktreeState,
    /// The capped file content when `state` is `Regular`.
    pub worktree_bytes: Option<Vec<u8>>,
    /// The plain path under a `~<label>` suffix is a directory.
    pub sibling_directory: bool,
}

proof fn lemma_stages_before_step(groups: Seq<Group>, i: int)
    requires
        0 <= i < groups.len(),
    ensures
        stages_before(groups, i + 1) == stages_before(groups, i) + groups[i].1@.len(),
{
}

/// The stage shas of the groups, in the order `conflict_models` hands the
/// blobs back out.
pub fn blob_shas(groups: &[Group]) -> (r: Vec<String>)
    ensures
        r@.map_values(|s: String| s@) == group_shas(groups@),
{
    let mut r: Vec<String> = Vec::new();
    let mut i: usize = 0;
    while i < groups.len()
        invariant
            0 <= i <= groups@.len(),
            r@.map_values(|s: String| s@) == group_shas(groups@.take(i as int)),
        decreases groups.len() - i,
    {
        let stages = &groups[i].1;
        let ghost before = r@.map_values(|s: String| s@);
        let mut k: usize = 0;
        while k < stages.len()
            invariant
                0 <= k <= stages@.len(),
                stages@ == groups@[i as int].1@,
                r@.map_values(|s: String| s@) == before + stages@.map_values(|x: (u32, IndexEntry)| x.1.sha@).take(k as int),
            decreases stages.len() - k,
        {
            let ghost prev = r@;
            r.push(stages[k].1.sha.clone());
            assert(r@.map_values(|s: String| s@) =~= prev.map_values(|s: String| s@).push(stages@[k as int].1.sha@));
            assert(stages@.map_values(|x: (u32, IndexEntry)| x.1.sha@).take(k + 1) =~= stages@.map_values(
                |x: (u32, IndexEntry)| x.1.sha@,
            ).take(k as int).push(stages@[k as int].1.sha@));
            k += 1;
        }
        assert(stages@.map_values(|x: (u32, IndexEntry)| x.1.sha@).take(k as int) =~= stages@.map_values(
            |x: (u32, IndexEntry)| x.1.sha@,
        ));
        assert(groups@.take(i + 1).drop_last() =~= groups@.take(i as int));
        i += 1;
    }
    assert(groups@.take(groups@.len() as int) =~= groups@);
    r
}

/// The model of every conflicted path: each group is classified with its
/// probe and its stages' blobs, handed out in order from the flat batch
/// result.
pub fn conflict_models(records: &[IndexEntry], groups: &[Group], blobs: &[Option<Vec<u8>>], probes: &[PathProbe]) -> (r: Vec<
    ConflictModel,
>)
    requires
        probes@.len() == groups@.len(),
        forall|i: int|
            0 <= i < probes@.len() ==> ((#[trigger] probes@[i]).worktree_bytes matches Some(b) ==> b@.len() < u32::MAX),
    ensures
        r@.len() == groups@.len(),
        forall|i: int|
            0 <= i < groups@.len() ==> (#[trigger] r@[i])@ == conflict_model(
                groups@[i].0@,
                entry_views(records@),
                groups@[i].1@,
                probes@[i].state,
                opt_bytes(probes@[i].worktree_bytes),
                probes@[i].sibling_directory,
                sides_of(groups@, blobs@, i),
            ),
{
    let mut r: Vec<ConflictModel> = Vec::new();
    // the next unused blob, stopping at the end of `blobs`
    let mut cursor: usize = 0;
    let mut i: usize = 0;
    while i < groups.len()
        invariant
            0 <= i <= groups@.len(),
            probes@.len() == groups@.len(),
            forall|m: int|
                0 <= m < probes@.len() ==> ((#[trigger] probes@[m]).worktree_bytes matches Some(b) ==> b@.len() < u32::MAX),
            cursor as int == min_int(stages_before(groups@, i as int) as int, blobs@.len() as int),
            r@.len() == i,
            forall|m: int|
                0 <= m < i ==> (#[trigger] r@[m])@ == conflict_model(
                    groups@[m].0@,
                    entry_views(records@),
                    groups@[m].1@,
                    probes@[m].state,
                    opt_bytes(probes@[m].worktree_bytes),
                    probes@[m].sibling_directory,
                    sides_of(groups@, blobs@, m),
                ),
        decreases groups.len() - i,
    {
        let stages = &groups[i].1;
        let mut sides: Vec<(u32, Option<Vec<u8>>)> = Vec::new();
        let mut k: usize = 0;
        while k < stages.len()
            invariant
                0 <= k <= stages@.len(),
                i < groups@.len(),
                stages@ == groups@[i as int].1@,
                cursor as int == min_int(stages_before(groups@, i as int) + k, blobs@.len() as int),
                sides@.len() == k,
                forall|j: int| 0 <= j < k ==> #[trigger] crate::conflict::side_views(sides@)[j] == side_of(groups@, blobs@, i as int, j),
            decreases stages.len() - k,
        {
            let ghost c0 = cursor;
            let ghost at = stages_before(groups@, i as int) + k;
            let b = if cursor < blobs.len() {
                let c = copy_bytes(&blobs[cursor]);
                cursor = cursor + 1;
                c
            } else {
                None
            };
            let ghost before = sides@;
            sides.push((stages[k].0, b));
            proof {
                assert forall|j: int| 0 <= j < k + 1 implies #[trigger] crate::conflict::side_views(sides@)[j] == side_of(groups@, blobs@, i as int, j) by {
                    if j < k {
                        assert(sides@[j] == before[j]);
                        assert(crate::conflict::side_views(before)[j] == side_of(groups@, blobs@, i as int, j));
                    } else {
                        assert(sides@[j] == (stages@[k as int].0, b));
                        if c0 < blobs@.len() {
                            assert(c0 == at);
                            assert(opt_bytes(b) == opt_bytes(blobs@[at]));
                        } else {
                            assert(at >= blobs@.len());
                            assert(b is None);
                        }
                    }
                }
            }
            k += 1;
        }
        assert(crate::conflict::side_views(sides@) =~= sides_of(groups@, blobs@, i as int));
        let probe = &probes[i];
        let wb: Option<&[u8]> = match &probe.worktree_bytes {
            Some(v) => Some(v.as_slice()),
            None => None,
        };
        let m = build_model(
            groups[i].0.as_str(),
            records,
            stages.as_slice(),
            probe.state,
            wb,
            probe.sibling_directory,
            sides.as_slice(),
        );
        let ghost before = r@;
        r.push(m);
        proof {
            lemma_stages_before_step(groups@, i as int);
            assert forall|q: int| 0 <= q < i + 1 implies (#[trigger] r@[q])@ == conflict_model(
                groups@[q].0@,
                entry_views(records@),
                groups@[q].1@,
                probes@[q].state,
                opt_bytes(probes@[q].worktree_bytes),
                probes@[q].sibling_directory,
                sides_of(groups@, blobs@, q),
            ) by {
                if q < i {
                    assert(r@[q] == before[q]);
                }
            }
        }
        i += 1;
    }
    r
}

pub open spec fn min_int(a: int, b: int) -> int {
    if a < b {
        a
    } else {
        b
    }
}

} // verus!
