//! Per-file history (`git log --follow --name-status -z`) and blame
//! (`git blame --porcelain`) parsers.

use vstd::prelude::*;
use crate::text::{
    split, words, strip_prefix, strip_cr, starts_with, split_once, all_digits, is_digit, parse_i64,
    parse_u32, to_chars, split_chars, views, string_of, split_words, strings_of, slice_range,
    strip_prefix_chars, split_once_char, parse_i64_chars, parse_u32_chars, eq_chars, trim_start_char,
    trim_end_char, trim_start_char_chars, trim_end_char_chars, opt_str, strs,
};
use crate::parse::u32_or_zero_of;
use crate::model::{seq_view, lemma_seq_view_push, FileCommit, FileCommitV, BlameCommit, BlameCommitV, BlameLine, BlameLineV, BlameResult, BlameResultV};

verus! {

// =====================
// Shared token tests
// =====================

pub open spec fn is_hex_char(c: char) -> bool {
    ('0' <= c && c <= '9') || ('a' <= c && c <= 'f') || ('A' <= c && c <= 'F')
}

/// A full 40-hex object id.
pub open spec fn is_hex40(t: Seq<char>) -> bool {
    t.len() == 40 && forall|i: int| 0 <= i < t.len() ==> is_hex_char(#[trigger] t[i])
}

fn is_hex40_exec(t: &[char]) -> (r: bool)
    ensures
        r == is_hex40(t@),
{
    if t.len() != 40 {
        return false;
    }
    let mut i: usize = 0;
    while i < t.len()
        invariant
            0 <= i <= t@.len(),
            forall|j: int| 0 <= j < i ==> is_hex_char(#[trigger] t@[j]),
        decreases t.len() - i,
    {
        let c = t[i];
        if !(('0' <= c && c <= '9') || ('a' <= c && c <= 'f') || ('A' <= c && c <= 'F')) {
            return false;
        }
        i += 1;
    }
    true
}

// =====================
// File history
// =====================

/// A `--name-status` marker: a single status letter, or a rename/copy
/// marker with its score (`R93`, `C100`).
pub open spec fn is_status_token(t: Seq<char>) -> bool {
    t == seq!['A'] || t == seq!['M'] || t == seq!['D'] || t == seq!['T'] || t == seq!['U'] || (
    t.len() >= 2 && (t[0] == 'R' || t[0] == 'C') && all_digits(t.skip(1)))
}

/// The file's entry of one commit.
pub struct StatusEntry {
    pub status: Seq<char>,
    pub path: Seq<char>,
    pub orig_path: Option<Seq<char>>,
    pub score: Option<u32>,
}

pub open spec fn clamp(j: int, lo: int, hi: int) -> int {
    if j < lo {
        lo
    } else if j > hi {
        hi
    } else {
        j
    }
}

/// Consumes the name-status groups from token `j` on; keeps the first.
pub open spec fn status_scan(t: Seq<Seq<char>>, j: int, first: Option<StatusEntry>) -> (Option<StatusEntry>, int)
    decreases t.len() - j,
{
    if 0 <= j < t.len() && t[j].len() > 0 && is_status_token(t[j]) {
        let st = t[j];
        if j + 1 >= t.len() {
            (first, t.len() as int)
        } else {
            let p1 = t[j + 1];
            let two = st[0] == 'R' || st[0] == 'C';
            match first {
                None => {
                    let status = seq![st[0]];
                    let score = parse_u32(st.skip(1));
                    if two {
                        let path = if j + 2 < t.len() {
                            t[j + 2]
                        } else {
                            Seq::<char>::empty()
                        };
                        status_scan(
                            t,
                            clamp(j + 3, j + 1, t.len() as int),
                            Some(StatusEntry { status, path, orig_path: Some(p1), score }),
                        )
                    } else {
                        status_scan(t, j + 2, Some(StatusEntry { status, path: p1, orig_path: None, score }))
                    }
                },
                Some(e) => if two {
                    status_scan(t, clamp(j + 3, j + 1, t.len() as int), first)
                } else {
                    status_scan(t, j + 2, first)
                },
            }
        }
    } else {
        (first, j)
    }
}

pub open spec fn history_commit(t: Seq<Seq<char>>, i: int, e: StatusEntry) -> FileCommitV {
    FileCommitV {
        hash: t[i],
        short_hash: t[i + 1],
        author: t[i + 2],
        email: t[i + 3],
        date: t[i + 4],
        message: t[i + 5],
        parents: words(t[i + 6]),
        path: e.path,
        orig_path: e.orig_path,
        status: e.status,
        score: e.score,
    }
}

/// The commits of the token stream from token `i` on.
pub open spec fn history_from(t: Seq<Seq<char>>, i: int) -> Seq<FileCommitV>
    decreases t.len() - i,
{
    if i < 0 || i >= t.len() {
        Seq::<FileCommitV>::empty()
    } else if t[i].len() == 0 {
        history_from(t, i + 1)
    } else if !is_hex40(t[i]) {
        Seq::<FileCommitV>::empty()
    } else if i + 6 >= t.len() {
        Seq::<FileCommitV>::empty()
    } else {
        let (e, j) = status_scan(t, i + 7, None);
        let next = clamp(j, i + 1, t.len() as int);
        match e {
            None => history_from(t, next),
            Some(e) => seq![history_commit(t, i, e)] + history_from(t, next),
        }
    }
}

/// The tokens: NUL-separated, each without the record-ending newline that
/// glues onto it.
pub open spec fn history_tokens(output: Seq<char>) -> Seq<Seq<char>> {
    split(output, '\0').map_values(
        |t: Seq<char>|
            match strip_prefix(t, seq!['\n']) {
                Some(x) => x,
                None => t,
            },
    )
}

fn is_name_status_token(t: &[char]) -> (r: bool)
    ensures
        r == is_status_token(t@),
{
    if t.len() == 1 {
        let c = t[0];
        let r = c == 'A' || c == 'M' || c == 'D' || c == 'T' || c == 'U';
        assert(r == is_status_token(t@)) by {
            assert(seq!['A'].len() == 1);
            if t@ == seq!['A'] || t@ == seq!['M'] || t@ == seq!['D'] || t@ == seq!['T'] || t@ == seq!['U'] {
                assert(t@[0] == c);
            }
            if c == 'A' {
                assert(t@ =~= seq!['A']);
            } else if c == 'M' {
                assert(t@ =~= seq!['M']);
            } else if c == 'D' {
                assert(t@ =~= seq!['D']);
            } else if c == 'T' {
                assert(t@ =~= seq!['T']);
            } else if c == 'U' {
                assert(t@ =~= seq!['U']);
            }
        }
        return r;
    }
    if t.len() < 2 || !(t[0] == 'R' || t[0] == 'C') {
        return false;
    }
    let mut i: usize = 1;
    while i < t.len()
        invariant
            1 <= i <= t@.len(),
            forall|j: int| 1 <= j < i ==> is_digit(#[trigger] t@[j]),
        decreases t.len() - i,
    {
        if !('0' <= t[i] && t[i] <= '9') {
            assert(!is_digit(t@.skip(1)[i - 1]));
            return false;
        }
        i += 1;
    }
    assert(all_digits(t@.skip(1))) by {
        assert forall|j: int| 0 <= j < t@.skip(1).len() implies is_digit(#[trigger] t@.skip(1)[j]) by {
            assert(t@.skip(1)[j] == t@[j + 1]);
        }
    }
    true
}

fn token_at(t: &Vec<Vec<char>>, k: usize) -> (r: Vec<char>)
    requires
        k < t@.len(),
    ensures
        r@ == t@[k as int]@,
{
    slice_range(t[k].as_slice(), 0, t[k].len())
}

struct EntryExec {
    status: String,
    path: String,
    orig_path: Option<String>,
    score: Option<u32>,
}

spec fn entry_view(e: Option<EntryExec>) -> Option<StatusEntry> {
    match e {
        Some(x) => Some(StatusEntry { status: x.status@, path: x.path@, orig_path: opt_str(x.orig_path), score: x.score }),
        None => None,
    }
}

fn status_scan_exec(t: &Vec<Vec<char>>, j0: usize) -> (r: (Option<EntryExec>, usize))
    requires
        j0 <= t@.len(),
    ensures
        (entry_view(r.0), r.1 as int) == status_scan(views(t@), j0 as int, None),
        r.1 <= t@.len(),
{
    let ghost tv = views(t@);
    let n: usize = t.len();
    let mut first: Option<EntryExec> = None;
    let mut j: usize = j0;
    while j < n && t[j].len() > 0 && is_name_status_token(t[j].as_slice())
        invariant
            tv == views(t@),
            n == tv.len(),
            j0 <= j <= n,
            status_scan(tv, j0 as int, None) == status_scan(tv, j as int, entry_view(first)),
        decreases n - j,
    {
        assert(tv[j as int] == t@[j as int]@);
        let st = &t[j];
        if n - j <= 1 {
            j = n;
            assert(status_scan(tv, j0 as int, None) == (entry_view(first), n as int));
            return (first, j);
        }
        let two = st[0] == 'R' || st[0] == 'C';
        let ghost old_first = entry_view(first);
        match first {
            None => {
                let status = string_of(&st.as_slice()[0..1]);
                assert(st@.subrange(0, 1) =~= seq![st@[0]]);
                let rest = slice_range(st.as_slice(), 1, st.len());
                assert(rest@ =~= st@.skip(1));
                let score = parse_u32_chars(rest.as_slice());
                let p1 = string_of(t[j + 1].as_slice());
                assert(tv[j + 1] == t@[j + 1]@);
                if two {
                    let path = if n - j > 2 {
                        assert(tv[j + 2] == t@[j + 2]@);
                        string_of(t[j + 2].as_slice())
                    } else {
                        String::new()
                    };
                    first = Some(EntryExec { status, path, orig_path: Some(p1), score });
                    j = if n - j >= 3 {
                        j + 3
                    } else {
                        n
                    };
                } else {
                    first = Some(EntryExec { status, path: p1, orig_path: None, score });
                    j = j + 2;
                }
            },
            Some(e) => {
                first = Some(e);
                j = if two {
                    if n - j >= 3 {
                        j + 3
                    } else {
                        n
                    }
                } else {
                    j + 2
                };
            },
        }
    }
    (first, j)
}

/// Parse `git log --follow --format=%H%x00%h%x00%an%x00%ae%x00%aI%x00%s%x00%P
/// --name-status -z -- <path>`: records of seven NUL-separated fields, each
/// followed by its name-status entries; a new record begins at a 40-hex
/// token, trailing garbage ends the walk.
pub fn parse_file_history(output: &str) -> (r: Vec<FileCommit>)
    ensures
        seq_view(r@) == history_from(history_tokens(output@), 0),
{
    let chars = to_chars(output);
    let raw = split_chars(chars.as_slice(), '\0');
    let nl = vec!['\n'];
    assert(nl@ =~= seq!['\n']);
    let mut toks: Vec<Vec<char>> = Vec::new();
    let mut k: usize = 0;
    while k < raw.len()
        invariant
            nl@ == seq!['\n'],
            0 <= k <= raw@.len(),
            views(toks@) == history_tokens(output@).take(k as int),
            views(raw@) == split(output@, '\0'),
        decreases raw.len() - k,
    {
        let t = match strip_prefix_chars(raw[k].as_slice(), nl.as_slice()) {
            Some(x) => x,
            None => slice_range(raw[k].as_slice(), 0, raw[k].len()),
        };
        assert(views(raw@)[k as int] == raw@[k as int]@);
        assert(t@ == match strip_prefix(raw@[k as int]@, seq!['\n']) {
            Some(x) => x,
            None => raw@[k as int]@,
        });
        assert(history_tokens(output@)[k as int] == t@);
        let ghost before = views(toks@);
        toks.push(t);
        assert(views(toks@) =~= before.push(t@));
        assert(history_tokens(output@).take(k + 1) =~= history_tokens(output@).take(k as int).push(t@));
        k += 1;
    }
    assert(history_tokens(output@).take(k as int) =~= history_tokens(output@));
    let ghost tv = views(toks@);
    let n: usize = toks.len();
    let mut out: Vec<FileCommit> = Vec::new();
    let mut i: usize = 0;
    while i < n
        invariant
            tv == views(toks@),
            tv == history_tokens(output@),
            n == tv.len(),
            0 <= i <= n,
            seq_view(out@) + history_from(tv, i as int) == history_from(tv, 0),
        decreases n - i,
    {
        let ghost before = seq_view(out@);
        assert(tv[i as int] == toks@[i as int]@);
        if toks[i].len() == 0 {
            i += 1;
        } else if !is_hex40_exec(toks[i].as_slice()) {
            assert(seq_view(out@) =~= seq_view(out@) + history_from(tv, i as int));
            return out;
        } else if n - i <= 6 {
            assert(seq_view(out@) =~= seq_view(out@) + history_from(tv, i as int));
            return out;
        } else {
            let (e, j) = status_scan_exec(&toks, i + 7);
            let next: usize = if j < i + 1 {
                i + 1
            } else {
                j
            };
            match e {
                None => {},
                Some(e) => {
                    let parents = split_words(toks[i + 6].as_slice());
                    assert(tv[i + 6] == toks@[i + 6]@);
                    assert(tv[i + 1] == toks@[i + 1]@ && tv[i + 2] == toks@[i + 2]@ && tv[i + 3]
                        == toks@[i + 3]@ && tv[i + 4] == toks@[i + 4]@ && tv[i + 5] == toks@[i + 5]@);
                    let c = FileCommit {
                        hash: string_of(toks[i].as_slice()),
                        short_hash: string_of(toks[i + 1].as_slice()),
                        author: string_of(toks[i + 2].as_slice()),
                        email: string_of(toks[i + 3].as_slice()),
                        date: string_of(toks[i + 4].as_slice()),
                        message: string_of(toks[i + 5].as_slice()),
                        parents: strings_of(&parents),
                        path: e.path,
                        orig_path: e.orig_path,
                        status: e.status,
                        score: e.score,
                    };
                    proof {
                        lemma_seq_view_push(out@, c);
                    }
                    out.push(c);
                    assert(seq_view(out@) + history_from(tv, next as int) =~= before + history_from(
                        tv,
                        i as int,
                    ));
                },
            }
            i = next;
        }
    }
    assert(seq_view(out@) =~= seq_view(out@) + history_from(tv, i as int));
    out
}


// =====================
// Blame
// =====================

/// The offsets `chrono::FixedOffset::east_opt` accepts: strictly within a day.
pub open spec fn offset_valid(secs: int) -> bool {
    -86400 < secs && secs < 86400
}

/// What chrono renders `secs` (unix seconds) at a fixed offset of `offset`
/// seconds as, RFC 3339 to the second; `None` when the time stamp, or its
/// local time at the offset, is out of chrono's range.
pub uninterp spec fn rfc3339_at(secs: i64, offset: i32) -> Option<Seq<char>>;

/// `chrono::DateTime::from_timestamp(secs, 0)` shown at the fixed offset
/// (`FixedOffset::east_opt`, `with_timezone`) with `to_rfc3339_opts(Secs,
/// false)`, once `NaiveDateTime::checked_add_offset` has shown that the
/// local time is in range (else rendering would panic). Claimed: the
/// result is `rfc3339_at` of the two numbers, a function of them alone.
#[verifier::external_body]
fn rfc3339_secs(secs: i64, offset: i32) -> (r: Option<String>)
    requires
        offset_valid(offset as int),
    ensures
        opt_str(r) == rfc3339_at(secs, offset),
{
    match (chrono::FixedOffset::east_opt(offset), chrono::DateTime::from_timestamp(secs, 0)) {
        (Some(off), Some(utc)) => match utc.naive_utc().checked_add_offset(off) {
            Some(_) => Some(utc.with_timezone(&off).to_rfc3339_opts(chrono::SecondsFormat::Secs, false)),
            None => None,
        },
        _ => None,
    }
}

/// `+HHMM` / `-HHMM` to seconds east of UTC.
pub open spec fn tz_offset(tz: Seq<char>) -> Option<int> {
    if tz.len() != 5 || !(tz[0] == '+' || tz[0] == '-') {
        None
    } else {
        match (parse_i64(tz.subrange(1, 3)), parse_i64(tz.subrange(3, 5))) {
            (Some(hh), Some(mm)) => Some(
                (if tz[0] == '-' {
                    -1int
                } else {
                    1int
                }) * (hh * 3600 + mm * 60),
            ),
            _ => None,
        }
    }
}

/// Unix seconds and a `+HHMM` offset to ISO 8601 (git's `%aI` style); an
/// unknown offset reads as UTC, an unparsable time stamp gives empty text.
pub open spec fn iso_of(ts: Seq<char>, tz: Seq<char>) -> Seq<char> {
    match parse_i64(ts) {
        None => Seq::<char>::empty(),
        Some(secs) => {
            let off: int = match tz_offset(tz) {
                Some(o) => if offset_valid(o) {
                    o
                } else {
                    0
                },
                None => 0,
            };
            match rfc3339_at(secs, off as i32) {
                Some(s) => s,
                None => Seq::<char>::empty(),
            }
        },
    }
}

proof fn lemma_two_digit_value(s: Seq<char>)
    requires
        s.len() == 2,
    ensures
        parse_i64(s) matches Some(v) ==> -9 <= v <= 99,
{
    if let Some(v) = parse_i64(s) {
        if s[0] == '-' {
            assert(s.skip(1).len() == 1);
            assert(crate::text::dec_value(s.skip(1)) <= 9) by {
                reveal_with_fuel(crate::text::dec_value, 2);
            }
        } else {
            let d = crate::text::unsigned_digits(s);
            assert(d.len() <= 2);
            assert(crate::text::dec_value(d) <= 99) by {
                reveal_with_fuel(crate::text::dec_value, 3);
                if d.len() == 2 {
                    assert(d.drop_last().len() == 1);
                }
            }
        }
    }
}

/// The ISO 8601 date of a blame timestamp (`author-time`) in its zone
/// (`author-tz`, `+hhmm`): empty for a bad timestamp, UTC for a bad zone.
pub fn iso_from_ts_tz(ts: &str, tz: &str) -> (r: String)
    ensures
        r@ == iso_of(ts@, tz@),
{
    let t = to_chars(ts);
    let z = to_chars(tz);
    iso_from_ts_tz_chars(t.as_slice(), z.as_slice())
}

fn iso_from_ts_tz_chars(ts: &[char], tz: &[char]) -> (r: String)
    ensures
        r@ == iso_of(ts@, tz@),
{
    let secs = match parse_i64_chars(ts) {
        Some(v) => v,
        None => return String::new(),
    };
    let mut off: i32 = 0;
    if tz.len() == 5 && (tz[0] == '+' || tz[0] == '-') {
        let h = slice_range(tz, 1, 3);
        let m = slice_range(tz, 3, 5);
        proof {
            lemma_two_digit_value(h@);
            lemma_two_digit_value(m@);
        }
        match (parse_i64_chars(h.as_slice()), parse_i64_chars(m.as_slice())) {
            (Some(hh), Some(mm)) => {
                let v: i64 = hh * 3600 + mm * 60;
                let o: i64 = if tz[0] == '-' {
                    -v
                } else {
                    v
                };
                assert(h@ == tz@.subrange(1, 3) && m@ == tz@.subrange(3, 5));
                assert(tz_offset(tz@) == Some(o as int)) by {
                    if tz@[0] == '-' {
                        assert((-1int) * (hh * 3600 + mm * 60) == -(hh * 3600 + mm * 60));
                    } else {
                        assert(1int * (hh * 3600 + mm * 60) == hh * 3600 + mm * 60);
                    }
                }
                if -86400 < o && o < 86400 {
                    off = o as i32;
                }
            },
            _ => {
                assert(tz_offset(tz@) is None);
            },
        }
    }
    match rfc3339_secs(secs, off) {
        Some(s) => s,
        None => String::new(),
    }
}

/// The commit being read from its metadata block, with its raw time fields.
pub struct MetaAcc {
    pub c: BlameCommitV,
    pub ts: Seq<char>,
    pub tz: Seq<char>,
}

pub open spec fn is_angle(c: char) -> bool {
    c == '<' || c == '>'
}

pub open spec fn trim_angles_start(s: Seq<char>) -> Seq<char>
    decreases s.len(),
{
    if s.len() > 0 && is_angle(s[0]) {
        trim_angles_start(s.skip(1))
    } else {
        s
    }
}

pub open spec fn trim_angles_end(s: Seq<char>) -> Seq<char>
    decreases s.len(),
{
    if s.len() > 0 && is_angle(s.last()) {
        trim_angles_end(s.drop_last())
    } else {
        s
    }
}

/// `s.trim_matches(|c| c == '<' || c == '>')`.
pub open spec fn trim_angles(s: Seq<char>) -> Seq<char> {
    trim_angles_end(trim_angles_start(s))
}

pub open spec fn meta_key(line: Seq<char>) -> Seq<char> {
    match split_once(line, ' ') {
        Some((k, _)) => k,
        None => line,
    }
}

pub open spec fn meta_value(line: Seq<char>) -> Seq<char> {
    match split_once(line, ' ') {
        Some((_, v)) => v,
        None => Seq::<char>::empty(),
    }
}

pub open spec fn apply_meta(m: MetaAcc, key: Seq<char>, value: Seq<char>) -> MetaAcc {
    if key == "author"@ {
        MetaAcc { c: BlameCommitV { author: value, ..m.c }, ..m }
    } else if key == "author-mail"@ {
        MetaAcc { c: BlameCommitV { email: trim_angles(value), ..m.c }, ..m }
    } else if key == "author-time"@ {
        MetaAcc { ts: value, ..m }
    } else if key == "author-tz"@ {
        MetaAcc { tz: value, ..m }
    } else if key == "summary"@ {
        MetaAcc { c: BlameCommitV { summary: value, ..m.c }, ..m }
    } else if key == "filename"@ {
        MetaAcc { c: BlameCommitV { path: value, ..m.c }, ..m }
    } else if key == "boundary"@ {
        MetaAcc { c: BlameCommitV { boundary: true, ..m.c }, ..m }
    } else {
        m
    }
}

/// Reads metadata lines from line `j` until a content line or the next
/// record's header.
pub open spec fn meta_scan(ls: Seq<Seq<char>>, j: int, m: MetaAcc) -> (MetaAcc, int)
    decreases ls.len() - j,
{
    if j < 0 || j >= ls.len() {
        (m, j)
    } else if starts_with(ls[j], seq!['\t']) || is_hex40(meta_key(ls[j])) {
        (m, j)
    } else {
        meta_scan(ls, j + 1, apply_meta(m, meta_key(ls[j]), meta_value(ls[j])))
    }
}

/// The first commit of `commits` with hash `sha`.
pub open spec fn commit_index(commits: Seq<BlameCommitV>, sha: Seq<char>, k: int) -> Option<int>
    decreases commits.len() - k,
{
    if k < 0 || k >= commits.len() {
        None
    } else if commits[k].hash == sha {
        Some(k)
    } else {
        commit_index(commits, sha, k + 1)
    }
}

pub open spec fn fresh_commit(sha: Seq<char>) -> BlameCommitV {
    BlameCommitV {
        hash: sha,
        short_hash: sha.take(7),
        author: Seq::<char>::empty(),
        email: Seq::<char>::empty(),
        date: Seq::<char>::empty(),
        summary: Seq::<char>::empty(),
        path: Seq::<char>::empty(),
        boundary: false,
        uncommitted: sha == "0000000000000000000000000000000000000000"@,
    }
}

/// The blame walk from line `i` on, adding to `acc`.
pub open spec fn blame_from(ls: Seq<Seq<char>>, i: int, acc: BlameResultV) -> BlameResultV
    decreases ls.len() - i,
{
    if i < 0 || i >= ls.len() {
        acc
    } else if ls[i].len() == 0 {
        blame_from(ls, i + 1, acc)
    } else {
        let parts = split(ls[i], ' ');
        let sha = parts[0];
        if !is_hex40(sha) {
            blame_from(ls, i + 1, acc)
        } else {
            let orig_no = if parts.len() > 1 {
                u32_or_zero_of(parts[1])
            } else {
                0
            };
            let final_no = if parts.len() > 2 {
                u32_or_zero_of(parts[2])
            } else {
                0
            };
            let (idx, commits, j) = match commit_index(acc.commits, sha, 0) {
                Some(k) => (k, acc.commits, i + 1),
                None => {
                    let (m, j) = meta_scan(
                        ls,
                        i + 1,
                        MetaAcc { c: fresh_commit(sha), ts: Seq::<char>::empty(), tz: Seq::<char>::empty() },
                    );
                    (
                        acc.commits.len() as int,
                        acc.commits.push(BlameCommitV { date: iso_of(m.ts, m.tz), ..m.c }),
                        j,
                    )
                },
            };
            let j1 = clamp(j, i + 1, ls.len() as int);
            let has_content = j1 < ls.len() && starts_with(ls[j1], seq!['\t']);
            let content = if has_content {
                strip_cr(ls[j1].skip(1))
            } else {
                Seq::<char>::empty()
            };
            let j2 = if has_content {
                j1 + 1
            } else {
                j1
            };
            blame_from(
                ls,
                j2,
                BlameResultV {
                    commits,
                    lines: acc.lines.push(
                        BlameLineV { commit: idx as u32, orig_no, final_no, content },
                    ),
                },
            )
        }
    }
}

pub open spec fn blame_model(output: Seq<char>) -> BlameResultV {
    blame_from(
        split(output, '\n'),
        0,
        BlameResultV { commits: Seq::<BlameCommitV>::empty(), lines: Seq::<BlameLineV>::empty() },
    )
}

fn trim_angles_exec(s: &[char]) -> (r: Vec<char>)
    ensures
        r@ == trim_angles(s@),
{
    let mut lo: usize = 0;
    assert(s@.skip(0) =~= s@);
    while lo < s.len() && (s[lo] == '<' || s[lo] == '>')
        invariant
            0 <= lo <= s@.len(),
            trim_angles_start(s@) == trim_angles_start(s@.skip(lo as int)),
        decreases s.len() - lo,
    {
        assert(s@.skip(lo as int).skip(1) =~= s@.skip(lo + 1));
        lo += 1;
    }
    let t = slice_range(s, lo, s.len());
    assert(t@ =~= s@.skip(lo as int));
    let mut hi: usize = t.len();
    assert(t@.take(t@.len() as int) =~= t@);
    while hi > 0 && (t[hi - 1] == '<' || t[hi - 1] == '>')
        invariant
            hi <= t@.len(),
            trim_angles_end(t@) == trim_angles_end(t@.take(hi as int)),
        decreases hi,
    {
        assert(t@.take(hi as int).drop_last() =~= t@.take(hi - 1));
        hi -= 1;
    }
    let r = slice_range(t.as_slice(), 0, hi);
    assert(r@ =~= t@.take(hi as int));
    r
}

struct MetaExec {
    c: BlameCommit,
    ts: Vec<char>,
    tz: Vec<char>,
}

spec fn meta_view(m: MetaExec) -> MetaAcc {
    MetaAcc { c: m.c@, ts: m.ts@, tz: m.tz@ }
}

fn key_value(line: &[char]) -> (r: (Vec<char>, Vec<char>))
    ensures
        r.0@ == meta_key(line@),
        r.1@ == meta_value(line@),
{
    match split_once_char(line, ' ') {
        Some((k, v)) => (k, v),
        None => (slice_range(line, 0, line.len()), Vec::new()),
    }
}

fn apply_meta_exec(m: &mut MetaExec, key: &[char], value: Vec<char>)
    ensures
        meta_view(*final(m)) == apply_meta(meta_view(*old(m)), key@, value@),
{
    let author = to_chars("author");
    let mail = to_chars("author-mail");
    let time = to_chars("author-time");
    let tzk = to_chars("author-tz");
    let summary = to_chars("summary");
    let filename = to_chars("filename");
    let boundary = to_chars("boundary");
    if eq_chars(key, author.as_slice()) {
        m.c.author = string_of(value.as_slice());
    } else if eq_chars(key, mail.as_slice()) {
        let t = trim_angles_exec(value.as_slice());
        m.c.email = string_of(t.as_slice());
    } else if eq_chars(key, time.as_slice()) {
        m.ts = value;
    } else if eq_chars(key, tzk.as_slice()) {
        m.tz = value;
    } else if eq_chars(key, summary.as_slice()) {
        m.c.summary = string_of(value.as_slice());
    } else if eq_chars(key, filename.as_slice()) {
        m.c.path = string_of(value.as_slice());
    } else if eq_chars(key, boundary.as_slice()) {
        m.c.boundary = true;
    }
}

fn meta_continues(line: &[char]) -> (r: bool)
    ensures
        r == !(starts_with(line@, seq!['\t']) || is_hex40(meta_key(line@))),
{
    if line.len() > 0 && line[0] == '\t' {
        assert(line@.subrange(0, 1) =~= seq!['\t']);
        return false;
    }
    assert(!starts_with(line@, seq!['\t'])) by {
        if starts_with(line@, seq!['\t']) {
            assert(line@.subrange(0, 1)[0] == line@[0]);
        }
    }
    let (k, _v) = key_value(line);
    !is_hex40_exec(k.as_slice())
}

fn meta_scan_exec(ls: &Vec<Vec<char>>, j0: usize, m: MetaExec) -> (r: (MetaExec, usize))
    requires
        j0 <= ls@.len(),
    ensures
        (meta_view(r.0), r.1 as int) == meta_scan(views(ls@), j0 as int, meta_view(m)),
        j0 <= r.1 <= ls@.len(),
{
    let ghost lv = views(ls@);
    let ghost target = meta_scan(lv, j0 as int, meta_view(m));
    let mut m = m;
    let mut j: usize = j0;
    while j < ls.len() && meta_continues(ls[j].as_slice())
        invariant
            lv == views(ls@),
            j0 <= j <= lv.len(),
            meta_scan(lv, j as int, meta_view(m)) == target,
        decreases ls.len() - j,
    {
        assert(lv[j as int] == ls@[j as int]@);
        let (k, v) = key_value(ls[j].as_slice());
        apply_meta_exec(&mut m, k.as_slice(), v);
        j += 1;
    }
    proof {
        if j < ls.len() {
            assert(lv[j as int] == ls@[j as int]@);
        }
    }
    (m, j)
}

fn commit_index_exec(commits: &Vec<BlameCommit>, sha: &[char]) -> (r: Option<usize>)
    ensures
        match r {
            Some(k) => commit_index(seq_view(commits@), sha@, 0) == Some(k as int) && k < commits@.len(),
            None => commit_index(seq_view(commits@), sha@, 0) is None,
        },
{
    let ghost cv = seq_view(commits@);
    let mut k: usize = 0;
    while k < commits.len()
        invariant
            cv == seq_view(commits@),
            0 <= k <= cv.len(),
            commit_index(cv, sha@, 0) == commit_index(cv, sha@, k as int),
        decreases commits.len() - k,
    {
        assert(cv[k as int] == commits@[k as int]@);
        let h = to_chars(commits[k].hash.as_str());
        if eq_chars(h.as_slice(), sha) {
            return Some(k);
        }
        k += 1;
    }
    None
}

/// The object id git blame gives lines not yet committed.
pub const BLAME_UNCOMMITTED_SHA: &'static str = "0000000000000000000000000000000000000000";

/// Parse `git blame --porcelain -- <path>`: per line a header
/// `<sha> <origNo> <finalNo> [<groupSize>]`, the metadata block for the
/// first line of each commit, then the TAB-prefixed content (one trailing
/// CR stripped).
pub fn parse_blame(output: &str) -> (r: BlameResult)
    ensures
        r@ == blame_model(output@),
{
    let chars = to_chars(output);
    let ls = split_chars(chars.as_slice(), '\n');
    let ghost lv = views(ls@);
    let mut out = BlameResult { commits: Vec::new(), lines: Vec::new() };
    assert(out@.commits =~= Seq::<BlameCommitV>::empty() && out@.lines =~= Seq::<BlameLineV>::empty());
    let ghost target = blame_model(output@);
    let zero = to_chars(BLAME_UNCOMMITTED_SHA);
    let n: usize = ls.len();
    let mut i: usize = 0;
    while i < n
        invariant
            lv == views(ls@),
            lv == split(output@, '\n'),
            n == lv.len(),
            0 <= i <= n,
            zero@ == "0000000000000000000000000000000000000000"@,
            blame_from(lv, i as int, out@) == target,
        decreases n - i,
    {
        let ghost acc = out@;
        assert(lv[i as int] == ls@[i as int]@);
        if ls[i].len() == 0 {
            i += 1;
        } else {
            let parts = split_chars(ls[i].as_slice(), ' ');
            proof {
                crate::text::lemma_split_len(ls@[i as int]@, ' ');
            }
            assert(views(parts@)[0] == parts@[0]@);
            if !is_hex40_exec(parts[0].as_slice()) {
                i += 1;
            } else {
                let sha = &parts[0];
                let orig_no: u32 = if parts.len() > 1 {
                    assert(views(parts@)[1] == parts@[1]@);
                    crate::text::u32_or_zero(parts[1].as_slice())
                } else {
                    0
                };
                let final_no: u32 = if parts.len() > 2 {
                    assert(views(parts@)[2] == parts@[2]@);
                    crate::text::u32_or_zero(parts[2].as_slice())
                } else {
                    0
                };
                let (idx, j) = match commit_index_exec(&out.commits, sha.as_slice()) {
                    Some(k) => (k, i + 1),
                    None => {
                        let short = string_of(&sha.as_slice()[0..7]);
                        assert(sha@.subrange(0, 7) =~= sha@.take(7));
                        let c = BlameCommit {
                            hash: string_of(sha.as_slice()),
                            short_hash: short,
                            author: String::new(),
                            email: String::new(),
                            date: String::new(),
                            summary: String::new(),
                            path: String::new(),
                            boundary: false,
                            uncommitted: eq_chars(sha.as_slice(), zero.as_slice()),
                        };
                        let m0 = MetaExec { c, ts: Vec::new(), tz: Vec::new() };
                        assert(meta_view(m0) == MetaAcc {
                            c: fresh_commit(sha@),
                            ts: Seq::<char>::empty(),
                            tz: Seq::<char>::empty(),
                        });
                        let (m, j) = meta_scan_exec(&ls, i + 1, m0);
                        let mut c = m.c;
                        c.date = iso_from_ts_tz_chars(m.ts.as_slice(), m.tz.as_slice());
                        let k = out.commits.len();
                        proof {
                            lemma_seq_view_push(out.commits@, c);
                        }
                        out.commits.push(c);
                        (k, j)
                    },
                };
                let j1: usize = if j < i + 1 {
                    i + 1
                } else if j > n {
                    n
                } else {
                    j
                };
                let has_content = j1 < n && ls[j1].len() > 0 && ls[j1][0] == '\t';
                let content = if has_content {
                    assert(lv[j1 as int] == ls@[j1 as int]@);
                    assert(ls@[j1 as int]@.subrange(0, 1) =~= seq!['\t']);
                    let raw = slice_range(ls[j1].as_slice(), 1, ls[j1].len());
                    assert(raw@ =~= ls@[j1 as int]@.skip(1));
                    let m: usize = raw.len();
                    if m > 0 && raw[m - 1] == '\r' {
                        assert(raw@.subrange(0, m - 1) =~= raw@.drop_last());
                        string_of(&raw.as_slice()[0..m - 1])
                    } else {
                        string_of(raw.as_slice())
                    }
                } else {
                    proof {
                        if j1 < n {
                            assert(lv[j1 as int] == ls@[j1 as int]@);
                            if starts_with(lv[j1 as int], seq!['\t']) {
                                assert(lv[j1 as int].subrange(0, 1)[0] == lv[j1 as int][0]);
                            }
                        }
                    }
                    String::new()
                };
                let line = BlameLine { commit: idx as u32, orig_no, final_no, content };
                proof {
                    lemma_seq_view_push(out.lines@, line);
                }
                out.lines.push(line);
                i = if has_content {
                    j1 + 1
                } else {
                    j1
                };
            }
        }
    }
    out
}

// =====================
// History and blame records
// =====================

/// Commit `c` is the record of the history stream starting at token `at`:
/// `%H`, `%h`, `%an`, `%ae`, `%aI`, `%s`, `%P`, in that order.
pub open spec fn history_record_at(t: Seq<Seq<char>>, at: int, c: FileCommitV) -> bool {
    &&& 0 <= at && at + 6 < t.len() && is_hex40(t[at])
    &&& c.hash == t[at] && c.short_hash == t[at + 1]
    &&& c.author == t[at + 2] && c.email == t[at + 3]
    &&& c.date == t[at + 4] && c.message == t[at + 5]
    &&& c.parents == words(t[at + 6])
}

pub open spec fn from_history_record(t: Seq<Seq<char>>, c: FileCommitV) -> bool {
    exists|at: int| #[trigger] history_record_at(t, at, c)
}

proof fn lemma_history_records(t: Seq<Seq<char>>, i: int)
    ensures
        forall|k: int| 0 <= k < history_from(t, i).len() ==> from_history_record(t, #[trigger] history_from(t, i)[k]),
    decreases t.len() - i,
{
    if i < 0 || i >= t.len() {
    } else if t[i].len() == 0 {
        lemma_history_records(t, i + 1);
        assert(history_from(t, i) == history_from(t, i + 1));
    } else if !is_hex40(t[i]) {
    } else if i + 6 >= t.len() {
    } else {
        let (e, j) = status_scan(t, i + 7, None);
        let next = clamp(j, i + 1, t.len() as int);
        lemma_history_records(t, next);
        match e {
            None => {
                assert(history_from(t, i) == history_from(t, next));
            },
            Some(e) => {
                let c = history_commit(t, i, e);
                let r = history_from(t, i);
                assert(r == seq![c] + history_from(t, next));
                assert forall|k: int| 0 <= k < r.len() implies from_history_record(t, #[trigger] r[k]) by {
                    if k > 0 {
                        assert(r[k] == history_from(t, next)[k - 1]);
                    } else {
                        assert(r[0] == c);
                        assert(history_record_at(t, i, r[0]));
                    }
                }
            },
        }
    }
}

/// Every commit of a parsed file history is one record of the stream: its
/// hash, short hash, author name, author email, date, subject and parents
/// are the record's tokens in that order.
pub proof fn law_history_fields(output: Seq<char>)
    ensures
        forall|k: int|
            0 <= k < history_from(history_tokens(output), 0).len() ==> from_history_record(
                history_tokens(output),
                #[trigger] history_from(history_tokens(output), 0)[k],
            ),
{
    lemma_history_records(history_tokens(output), 0);
}

/// `e` is the name-status group at token `js`: a status token, then the
/// path, or for a rename or copy (`R`/`C` with a score) the old path and
/// then the new one.
pub open spec fn status_entry_at(t: Seq<Seq<char>>, js: int, e: StatusEntry) -> bool {
    &&& 0 <= js && js + 1 < t.len() && t[js].len() > 0 && is_status_token(t[js])
    &&& e.status == seq![t[js][0]]
    &&& e.score == parse_u32(t[js].skip(1))
    &&& if t[js][0] == 'R' || t[js][0] == 'C' {
        e.orig_path == Some(t[js + 1]) && e.path == (if js + 2 < t.len() {
            t[js + 2]
        } else {
            Seq::<char>::empty()
        })
    } else {
        e.path == t[js + 1] && e.orig_path is None
    }
}

proof fn lemma_status_scan(t: Seq<Seq<char>>, j: int, first: Option<StatusEntry>)
    requires
        0 <= j,
    ensures
        match status_scan(t, j, first).0 {
            Some(e) => match first {
                Some(f) => e == f,
                None => exists|js: int| j <= js && #[trigger] status_entry_at(t, js, e),
            },
            None => first is None,
        },
    decreases t.len() - j,
{
    if 0 <= j < t.len() && t[j].len() > 0 && is_status_token(t[j]) && j + 1 < t.len() {
        let st = t[j];
        let p1 = t[j + 1];
        let two = st[0] == 'R' || st[0] == 'C';
        match first {
            None => {
                let status = seq![st[0]];
                let score = parse_u32(st.skip(1));
                let e = if two {
                    let path = if j + 2 < t.len() {
                        t[j + 2]
                    } else {
                        Seq::<char>::empty()
                    };
                    StatusEntry { status, path, orig_path: Some(p1), score }
                } else {
                    StatusEntry { status, path: p1, orig_path: None, score }
                };
                assert(status_entry_at(t, j, e));
                if two {
                    lemma_status_scan(t, clamp(j + 3, j + 1, t.len() as int), Some(e));
                } else {
                    lemma_status_scan(t, j + 2, Some(e));
                }
            },
            Some(f) => {
                if two {
                    lemma_status_scan(t, clamp(j + 3, j + 1, t.len() as int), first);
                } else {
                    lemma_status_scan(t, j + 2, first);
                }
            },
        }
    }
}

/// Every commit of a parsed file history carries the file's first
/// name-status group after the commit's record: its status letter and
/// score, and its path (for a rename or copy, the new path, with the old
/// one as the original path).
pub proof fn law_history_entries(output: Seq<char>)
    ensures
        forall|k: int|
            0 <= k < history_from(history_tokens(output), 0).len() ==> from_history_entry(
                history_tokens(output),
                #[trigger] history_from(history_tokens(output), 0)[k],
            ),
{
    lemma_history_entries(history_tokens(output), 0);
}

pub open spec fn history_entry_of(t: Seq<Seq<char>>, at: int, js: int, c: FileCommitV) -> bool {
    &&& history_record_at(t, at, c)
    &&& at + 7 <= js
    &&& status_entry_at(t, js, StatusEntry { status: c.status, path: c.path, orig_path: c.orig_path, score: c.score })
}

pub open spec fn from_history_entry(t: Seq<Seq<char>>, c: FileCommitV) -> bool {
    exists|at: int, js: int| #[trigger] history_entry_of(t, at, js, c)
}

proof fn lemma_history_entries(t: Seq<Seq<char>>, i: int)
    ensures
        forall|k: int| 0 <= k < history_from(t, i).len() ==> from_history_entry(t, #[trigger] history_from(t, i)[k]),
    decreases t.len() - i,
{
    if i < 0 || i >= t.len() {
    } else if t[i].len() == 0 {
        lemma_history_entries(t, i + 1);
        assert(history_from(t, i) == history_from(t, i + 1));
    } else if !is_hex40(t[i]) {
    } else if i + 6 >= t.len() {
    } else {
        let (e, j) = status_scan(t, i + 7, None);
        let next = clamp(j, i + 1, t.len() as int);
        lemma_history_entries(t, next);
        lemma_status_scan(t, i + 7, None);
        match e {
            None => {
                assert(history_from(t, i) == history_from(t, next));
            },
            Some(e) => {
                let c = history_commit(t, i, e);
                let r = history_from(t, i);
                assert(r == seq![c] + history_from(t, next));
                let js = choose|js: int| i + 7 <= js && #[trigger] status_entry_at(t, js, e);
                assert(StatusEntry { status: c.status, path: c.path, orig_path: c.orig_path, score: c.score } == e);
                assert forall|k: int| 0 <= k < r.len() implies from_history_entry(t, #[trigger] r[k]) by {
                    if k > 0 {
                        assert(r[k] == history_from(t, next)[k - 1]);
                    } else {
                        assert(r[0] == c);
                        assert(history_entry_of(t, i, js, r[0]));
                    }
                }
            },
        }
    }
}

/// Field `n` of a blame header line read as a line number (0 when absent
/// or not a number).
pub open spec fn header_number(line: Seq<char>, n: int) -> u32 {
    let p = split(line, ' ');
    if p.len() > n {
        u32_or_zero_of(p[n])
    } else {
        0
    }
}

/// Blame line `l` comes from the header line `h`, `<sha> <orig> <final>
/// ...`: its numbers are the header's second and third fields, its commit
/// is the one with the header's hash, and its content is the text of the
/// tab-led line `jc` after the header (without the tab and a final `\r`),
/// or empty when line `jc` is no content line.
pub open spec fn blame_line_at(ls: Seq<Seq<char>>, commits: Seq<BlameCommitV>, h: int, jc: int, l: BlameLineV) -> bool {
    &&& 0 <= h < ls.len() && ls[h].len() > 0
    &&& h < jc <= ls.len()
    &&& if jc < ls.len() && starts_with(ls[jc], seq!['\t']) {
        l.content == strip_cr(ls[jc].skip(1))
    } else {
        l.content.len() == 0
    }
    &&& is_hex40(split(ls[h], ' ')[0])
    &&& l.orig_no == header_number(ls[h], 1)
    &&& l.final_no == header_number(ls[h], 2)
    &&& l.commit < commits.len()
    &&& commits[l.commit as int].hash == split(ls[h], ' ')[0]
}

pub open spec fn from_blame_header(ls: Seq<Seq<char>>, commits: Seq<BlameCommitV>, l: BlameLineV) -> bool {
    exists|h: int, jc: int| #[trigger] blame_line_at(ls, commits, h, jc, l)
}

pub open spec fn blame_lines_ok(ls: Seq<Seq<char>>, r: BlameResultV) -> bool {
    forall|k: int| 0 <= k < r.lines.len() ==> from_blame_header(ls, r.commits, #[trigger] r.lines[k])
}

proof fn lemma_meta_scan_hash(ls: Seq<Seq<char>>, j: int, m: MetaAcc)
    ensures
        meta_scan(ls, j, m).0.c.hash == m.c.hash,
    decreases ls.len() - j,
{
    if !(j < 0 || j >= ls.len()) && !(starts_with(ls[j], seq!['\t']) || is_hex40(meta_key(ls[j]))) {
        lemma_meta_scan_hash(ls, j + 1, apply_meta(m, meta_key(ls[j]), meta_value(ls[j])));
    }
}

proof fn lemma_commit_index(commits: Seq<BlameCommitV>, sha: Seq<char>, k: int)
    requires
        0 <= k,
    ensures
        commit_index(commits, sha, k) matches Some(x) ==> k <= x < commits.len() && commits[x].hash == sha,
    decreases commits.len() - k,
{
    if k < commits.len() && commits[k].hash != sha {
        lemma_commit_index(commits, sha, k + 1);
    }
}

proof fn lemma_blame_from(ls: Seq<Seq<char>>, i: int, acc: BlameResultV)
    requires
        0 <= i,
        ls.len() <= u32::MAX,
        acc.commits.len() <= i,
        blame_lines_ok(ls, acc),
    ensures
        blame_lines_ok(ls, blame_from(ls, i, acc)),
    decreases ls.len() - i,
{
    if i >= ls.len() {
    } else if ls[i].len() == 0 {
        lemma_blame_from(ls, i + 1, acc);
    } else {
        let parts = split(ls[i], ' ');
        let sha = parts[0];
        if !is_hex40(sha) {
            lemma_blame_from(ls, i + 1, acc);
        } else {
            let orig_no = if parts.len() > 1 {
                u32_or_zero_of(parts[1])
            } else {
                0
            };
            let final_no = if parts.len() > 2 {
                u32_or_zero_of(parts[2])
            } else {
                0
            };
            lemma_commit_index(acc.commits, sha, 0);
            let (idx, commits, j) = match commit_index(acc.commits, sha, 0) {
                Some(k) => (k, acc.commits, i + 1),
                None => {
                    let (m, j) = meta_scan(
                        ls,
                        i + 1,
                        MetaAcc { c: fresh_commit(sha), ts: Seq::<char>::empty(), tz: Seq::<char>::empty() },
                    );
                    lemma_meta_scan_hash(
                        ls,
                        i + 1,
                        MetaAcc { c: fresh_commit(sha), ts: Seq::<char>::empty(), tz: Seq::<char>::empty() },
                    );
                    (
                        acc.commits.len() as int,
                        acc.commits.push(BlameCommitV { date: iso_of(m.ts, m.tz), ..m.c }),
                        j,
                    )
                },
            };
            let j1 = clamp(j, i + 1, ls.len() as int);
            let has_content = j1 < ls.len() && starts_with(ls[j1], seq!['\t']);
            let content = if has_content {
                strip_cr(ls[j1].skip(1))
            } else {
                Seq::<char>::empty()
            };
            let j2 = if has_content {
                j1 + 1
            } else {
                j1
            };
            let line = BlameLineV { commit: idx as u32, orig_no, final_no, content };
            let acc2 = BlameResultV { commits, lines: acc.lines.push(line) };
            assert(idx < commits.len() && commits[idx].hash == sha);
            assert(line.commit as int == idx);
            assert(blame_line_at(ls, commits, i, j1, line));
            assert forall|k: int| 0 <= k < acc2.lines.len() implies from_blame_header(ls, acc2.commits, #[trigger] acc2.lines[k]) by {
                if k < acc.lines.len() {
                    assert(acc2.lines[k] == acc.lines[k]);
                    assert(from_blame_header(ls, acc.commits, acc.lines[k]));
                    let (h, jc) = choose|h: int, jc: int| #[trigger] blame_line_at(ls, acc.commits, h, jc, acc.lines[k]);
                    let c = acc.lines[k].commit as int;
                    assert(commits[c] == acc.commits[c]);
                    assert(blame_line_at(ls, commits, h, jc, acc2.lines[k]));
                } else {
                    assert(acc2.lines[k] == line);
                }
            }
            assert(blame_from(ls, i, acc) == blame_from(ls, j2, acc2));
            lemma_blame_from(ls, j2, acc2);
        }
    }
}

/// Every line of a parsed blame comes from a header line `<sha> <orig>
/// <final> ...` of the output: its original line number is the header's
/// second field, its final line number the third, its commit the one with
/// the header's hash, and its content that of the content line after it
/// (for output of fewer than 2^32 lines).
pub proof fn law_blame_lines(output: Seq<char>)
    requires
        split(output, '\n').len() <= u32::MAX,
    ensures
        blame_lines_ok(split(output, '\n'), blame_model(output)),
{
    let acc = BlameResultV { commits: Seq::<BlameCommitV>::empty(), lines: Seq::<BlameLineV>::empty() };
    lemma_blame_from(split(output, '\n'), 0, acc);
}

} // verus!
