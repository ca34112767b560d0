//! Commit statistics aggregated: contributors of a period (by email, the
//! name of their newest commit, most commits first) and the zero-filled
//! time axes (months of the whole history, days of this month and week,
//! hours of today) in local time.

use vstd::prelude::*;
use crate::text::{to_chars, eq_chars};
use crate::stats::{RawStatCommit, RawStatCommitV, ContributorStat, StatBucket, PeriodStats, CommitStatsDto};
use crate::generate::{text_lt, text_less};
use crate::model::{seq_view, lemma_seq_view_push};
use crate::calendar::{CalDate, LocalTime, date_of_days, days_date, local_at_offset, local_time_at, local_parts};
use crate::text::{dec_string, push_str, push_u64, push_char};

verus! {

// =====================
// Contributors
// =====================

pub struct ContributorV {
    pub name: Seq<char>,
    pub email: Seq<char>,
    pub count: nat,
}

pub open spec fn contributor_view(c: ContributorStat) -> ContributorV {
    ContributorV { name: c.name@, email: c.email@, count: c.count as nat }
}

pub open spec fn contributor_views(v: Seq<ContributorStat>) -> Seq<ContributorV> {
    v.map_values(|c: ContributorStat| contributor_view(c))
}

/// How many of the commits are by `email`.
pub open spec fn email_count(ps: Seq<RawStatCommitV>, email: Seq<char>) -> nat
    decreases ps.len(),
{
    if ps.len() == 0 {
        0
    } else {
        email_count(ps.drop_last(), email) + if ps.last().email == email {
            1nat
        } else {
            0nat
        }
    }
}

/// The author name of the first commit by `email` (the newest: the log
/// runs newest first).
pub open spec fn first_name(ps: Seq<RawStatCommitV>, email: Seq<char>) -> Option<Seq<char>>
    decreases ps.len(),
{
    if ps.len() == 0 {
        None
    } else {
        match first_name(ps.drop_last(), email) {
            Some(n) => Some(n),
            None => if ps.last().email == email {
                Some(ps.last().name)
            } else {
                None
            },
        }
    }
}

/// The emails of the commits, each once, in the order they first occur.
pub open spec fn first_emails(ps: Seq<RawStatCommitV>) -> Seq<Seq<char>>
    decreases ps.len(),
{
    if ps.len() == 0 {
        Seq::<Seq<char>>::empty()
    } else {
        let es = first_emails(ps.drop_last());
        if es.contains(ps.last().email) {
            es
        } else {
            es.push(ps.last().email)
        }
    }
}

/// One contributor of the commits: the newest name of the email, and how
/// many commits it has.
pub open spec fn contributor_of(ps: Seq<RawStatCommitV>, email: Seq<char>) -> ContributorV {
    ContributorV {
        name: match first_name(ps, email) {
            Some(n) => n,
            None => Seq::<char>::empty(),
        },
        email,
        count: email_count(ps, email),
    }
}

/// The contributors of the commits, in the order their emails first occur.
pub open spec fn tally(ps: Seq<RawStatCommitV>) -> Seq<ContributorV> {
    first_emails(ps).map_values(|e: Seq<char>| contributor_of(ps, e))
}

/// `a` comes before `b`: more commits, then the smaller name, then the
/// smaller email.
pub open spec fn ranks_before(a: ContributorV, b: ContributorV) -> bool {
    a.count > b.count || (a.count == b.count && (text_lt(a.name, b.name) || (a.name == b.name && text_lt(
        a.email,
        b.email,
    ))))
}

/// No contributor comes before an earlier one.
pub open spec fn ranked(v: Seq<ContributorV>) -> bool {
    forall|i: int, j: int| 0 <= i < j < v.len() ==> !ranks_before(#[trigger] v[j], #[trigger] v[i])
}

proof fn lemma_text_lt_irrefl(a: Seq<char>)
    ensures
        !text_lt(a, a),
    decreases a.len(),
{
    if a.len() > 0 {
        lemma_text_lt_irrefl(a.drop_first());
    }
}

proof fn lemma_text_lt_trans(a: Seq<char>, b: Seq<char>, c: Seq<char>)
    requires
        text_lt(a, b),
        text_lt(b, c),
    ensures
        text_lt(a, c),
    decreases a.len(),
{
    if a.len() > 0 && b.len() > 0 && c.len() > 0 && a[0] == b[0] && b[0] == c[0] {
        lemma_text_lt_trans(a.drop_first(), b.drop_first(), c.drop_first());
    }
}

proof fn lemma_text_lt_asym(a: Seq<char>, b: Seq<char>)
    requires
        text_lt(a, b),
    ensures
        !text_lt(b, a),
{
    if text_lt(b, a) {
        lemma_text_lt_trans(a, b, a);
        lemma_text_lt_irrefl(a);
    }
}

proof fn lemma_ranks_trans(a: ContributorV, b: ContributorV, c: ContributorV)
    requires
        ranks_before(a, b),
        ranks_before(b, c),
    ensures
        ranks_before(a, c),
{
    if a.count == b.count && b.count == c.count {
        lemma_text_lt_irrefl(b.name);
        if text_lt(a.name, b.name) && text_lt(b.name, c.name) {
            lemma_text_lt_trans(a.name, b.name, c.name);
        }
        if a.name == b.name && b.name == c.name {
            lemma_text_lt_trans(a.email, b.email, c.email);
        }
    }
}

proof fn lemma_ranks_irrefl(a: ContributorV)
    ensures
        !ranks_before(a, a),
{
    lemma_text_lt_irrefl(a.name);
    lemma_text_lt_irrefl(a.email);
}

proof fn lemma_insert_ranked(s: Seq<ContributorV>, p: int, c: ContributorV)
    requires
        ranked(s),
        0 <= p <= s.len(),
        forall|k: int| 0 <= k < p ==> !ranks_before(c, #[trigger] s[k]),
        p < s.len() ==> ranks_before(c, s[p]),
    ensures
        ranked(s.insert(p, c)),
{
    let t = s.insert(p, c);
    assert forall|i: int, j: int| 0 <= i < j < t.len() implies !ranks_before(#[trigger] t[j], #[trigger] t[i]) by {
        if j < p {
            assert(t[i] == s[i] && t[j] == s[j]);
        } else if j == p {
            assert(t[i] == s[i] && t[j] == c);
        } else if i == p {
            assert(t[i] == c && t[j] == s[j - 1]);
            if ranks_before(s[j - 1], c) {
                lemma_ranks_trans(s[j - 1], c, s[p]);
                if j - 1 == p {
                    lemma_ranks_irrefl(s[p]);
                } else {
                    assert(!ranks_before(s[j - 1], s[p]));
                }
            }
        } else if i < p {
            assert(t[i] == s[i] && t[j] == s[j - 1]);
        } else {
            assert(t[i] == s[i - 1] && t[j] == s[j - 1]);
        }
    }
}

fn comes_before(a: &ContributorStat, b: &ContributorStat) -> (r: bool)
    ensures
        r == ranks_before(contributor_view(*a), contributor_view(*b)),
{
    if a.count != b.count {
        return a.count > b.count;
    }
    let an = to_chars(a.name.as_str());
    let bn = to_chars(b.name.as_str());
    if text_less(an.as_slice(), bn.as_slice()) {
        return true;
    }
    if !eq_chars(an.as_slice(), bn.as_slice()) {
        return false;
    }
    let ae = to_chars(a.email.as_str());
    let be = to_chars(b.email.as_str());
    text_less(ae.as_slice(), be.as_slice())
}

fn copy_contributor(c: &ContributorStat) -> (r: ContributorStat)
    ensures
        contributor_view(r) == contributor_view(*c),
{
    ContributorStat { name: c.name.clone(), email: c.email.clone(), count: c.count }
}

/// The contributors in rank order.
fn rank(v: &Vec<ContributorStat>) -> (r: Vec<ContributorStat>)
    ensures
        ranked(contributor_views(r@)),
        contributor_views(r@).to_multiset() == contributor_views(v@).to_multiset(),
{
    let mut out: Vec<ContributorStat> = Vec::new();
    let mut i: usize = 0;
    assert(contributor_views(out@) =~= contributor_views(v@).take(0));
    while i < v.len()
        invariant
            0 <= i <= v@.len(),
            ranked(contributor_views(out@)),
            contributor_views(out@).to_multiset() == contributor_views(v@).take(i as int).to_multiset(),
        decreases v.len() - i,
    {
        let c = &v[i];
        let mut p: usize = 0;
        let mut found = false;
        while !found && p < out.len()
            invariant
                0 <= p <= out@.len(),
                forall|k: int| 0 <= k < p ==> !ranks_before(contributor_view(*c), #[trigger] contributor_views(out@)[k]),
                found ==> p < out@.len() && ranks_before(contributor_view(*c), contributor_views(out@)[p as int]),
            decreases out.len() - p + (if found { 0int } else { 1int }),
        {
            if comes_before(c, &out[p]) {
                found = true;
            } else {
                p += 1;
            }
        }
        let ghost before = contributor_views(out@);
        proof {
            lemma_insert_ranked(before, p as int, contributor_view(*c));
            vstd::seq_lib::to_multiset_insert(before, p as int, contributor_view(*c));
            assert(contributor_views(v@).take(i + 1) =~= contributor_views(v@).take(i as int).push(contributor_view(*c)));
            vstd::seq_lib::to_multiset_build(contributor_views(v@).take(i as int), contributor_view(*c));
        }
        out.insert(p, copy_contributor(c));
        assert(contributor_views(out@) =~= before.insert(p as int, contributor_view(*c)));
        i += 1;
    }
    assert(contributor_views(v@).take(v@.len() as int) =~= contributor_views(v@));
    out
}

proof fn lemma_tally_facts(ps: Seq<RawStatCommitV>, e: Seq<char>)
    ensures
        (first_name(ps, e) is Some) == first_emails(ps).contains(e),
        (email_count(ps, e) > 0) == first_emails(ps).contains(e),
        email_count(ps, e) <= ps.len(),
        first_emails(ps).no_duplicates(),
    decreases ps.len(),
{
    if ps.len() > 0 {
        let rest = ps.drop_last();
        lemma_tally_facts(rest, e);
        let es = first_emails(rest);
        if !es.contains(ps.last().email) {
            assert(es.push(ps.last().email)[es.len() as int] == ps.last().email);
            if es.push(ps.last().email).contains(e) && e != ps.last().email {
                let k = choose|k: int| 0 <= k < es.len() + 1 && es.push(ps.last().email)[k] == e;
                assert(es[k] == e);
            }
            if es.contains(e) {
                let k = choose|k: int| 0 <= k < es.len() && es[k] == e;
                assert(es.push(ps.last().email)[k] == e);
            }
        }
    }
}

proof fn lemma_tally_step(ps: Seq<RawStatCommitV>, p: RawStatCommitV, e: Seq<char>)
    ensures
        email_count(ps.push(p), e) == email_count(ps, e) + if e == p.email {
            1nat
        } else {
            0nat
        },
        first_name(ps.push(p), e) == match first_name(ps, e) {
            Some(n) => Some(n),
            None => if e == p.email {
                Some(p.name)
            } else {
                None
            },
        },
        first_emails(ps.push(p)) == if first_emails(ps).contains(p.email) {
            first_emails(ps)
        } else {
            first_emails(ps).push(p.email)
        },
{
    assert(ps.push(p).drop_last() =~= ps);
}

/// Tallies the commits by email, in the order the emails first occur.
fn tally_commits(ps: &[RawStatCommit]) -> (r: Vec<ContributorStat>)
    requires
        ps@.len() < u32::MAX,
    ensures
        contributor_views(r@) == tally(seq_view(ps@)),
{
    let ghost pv = seq_view(ps@);
    let mut acc: Vec<ContributorStat> = Vec::new();
    let mut i: usize = 0;
    assert(tally(pv.take(0)) =~= Seq::<ContributorV>::empty());
    assert(contributor_views(acc@) =~= Seq::<ContributorV>::empty());
    while i < ps.len()
        invariant
            0 <= i <= ps@.len(),
            ps@.len() < u32::MAX,
            pv == seq_view(ps@),
            contributor_views(acc@) == tally(pv.take(i as int)),
        decreases ps.len() - i,
    {
        let p = &ps[i];
        let ghost t = pv.take(i as int);
        let ghost t2 = pv.take(i + 1);
        proof {
            assert(t2 =~= t.push(p@));
            lemma_tally_facts(t, p@.email);
        }
        let pe = to_chars(p.email.as_str());
        let mut j: usize = 0;
        let mut found = false;
        while !found && j < acc.len()
            invariant
                0 <= j <= acc@.len(),
                pe@ == p@.email,
                forall|k: int| 0 <= k < j ==> (#[trigger] acc@[k]).email@ != p@.email,
                found ==> j < acc@.len() && acc@[j as int].email@ == p@.email,
            decreases acc.len() - j + (if found { 0int } else { 1int }),
        {
            let ae = to_chars(acc[j].email.as_str());
            if eq_chars(ae.as_slice(), pe.as_slice()) {
                found = true;
            } else {
                j += 1;
            }
        }
        let ghost before = contributor_views(acc@);
        let ghost es = first_emails(t);
        assert(before.len() == es.len());
        if found {
            proof {
                assert(before[j as int].email == es[j as int]);
                assert(es.contains(p@.email));
                assert(before[j as int] == contributor_of(t, p@.email));
                lemma_tally_facts(t, p@.email);
            }
            let ghost acc0 = acc@;
            let n = acc[j].count;
            acc[j].count = n + 1;
            proof {
                assert forall|k: int| 0 <= k < es.len() implies #[trigger] contributor_views(acc@)[k] == contributor_of(t2, es[k]) by {
                    lemma_tally_step(t, p@, es[k]);
                    lemma_tally_facts(t, es[k]);
                    assert(before[k] == contributor_of(t, es[k]));
                    assert(before[k] == contributor_view(acc0[k]));
                    assert(contributor_views(acc@)[k] == contributor_view(acc@[k]));
                    if k != j {
                        assert(es[k] != es[j as int]);
                        assert(acc@[k] == acc0[k]);
                    } else {
                        assert(acc@[k].count == n + 1);
                        assert(acc@[k].name == acc0[k].name && acc@[k].email == acc0[k].email);
                    }
                }
                lemma_tally_step(t, p@, p@.email);
                assert(contributor_views(acc@) =~= tally(t2));
            }
        } else {
            proof {
                assert forall|k: int| 0 <= k < es.len() implies es[k] != p@.email by {
                    assert(before[k].email == es[k]);
                    assert(acc@[k].email@ == before[k].email);
                }
                assert(!es.contains(p@.email));
            }
            acc.push(ContributorStat { name: p.name.clone(), email: p.email.clone(), count: 1 });
            proof {
                lemma_tally_step(t, p@, p@.email);
                lemma_tally_facts(t, p@.email);
                assert forall|k: int| 0 <= k < es.len() implies #[trigger] contributor_views(acc@)[k] == contributor_of(t2, es[k]) by {
                    lemma_tally_step(t, p@, es[k]);
                    lemma_tally_facts(t, es[k]);
                    assert(before[k] == contributor_of(t, es[k]));
                    assert(contributor_views(acc@)[k] == before[k]);
                    assert(es[k] != p@.email);
                }
                assert(contributor_views(acc@) =~= tally(t2));
            }
        }
        i += 1;
    }
    assert(pv.take(ps@.len() as int) =~= pv);
    acc
}

/// The totals of a period's commits: how many, and the contributors in
/// rank order.
pub open spec fn period_ok(st: PeriodStats, ps: Seq<RawStatCommitV>) -> bool {
    &&& st.total == ps.len()
    &&& ranked(contributor_views(st.contributors@))
    &&& contributor_views(st.contributors@).to_multiset() == tally(ps).to_multiset()
}

/// The totals of the commits of one period.
pub fn period_stats(ps: &[RawStatCommit]) -> (r: PeriodStats)
    requires
        ps@.len() < u32::MAX,
    ensures
        period_ok(r, seq_view(ps@)),
{
    let acc = tally_commits(ps);
    let contributors = rank(&acc);
    PeriodStats { total: ps.len() as u32, contributors }
}

// =====================
// Periods and axes
// =====================

/// The periods of the statistics.
#[derive(Debug, Clone, Copy, PartialEq, Eq, Structural)]
pub enum Period {
    /// The whole history.
    All,
    /// From the first of this month to today.
    Month,
    /// From this week's Monday to today.
    Week,
    /// Today up to the current hour.
    Today,
}

pub open spec fn month_start(now: LocalTime) -> int {
    now.date.days - (now.date.day - 1)
}

pub open spec fn week_start(now: LocalTime) -> int {
    now.date.days - now.weekday
}

/// A commit's local time falls in the period (a commit dated after `now`
/// only counts for the whole history).
pub open spec fn in_period(period: Period, t: LocalTime, now: LocalTime) -> bool {
    match period {
        Period::All => true,
        Period::Month => month_start(now) <= t.date.days <= now.date.days,
        Period::Week => week_start(now) <= t.date.days <= now.date.days,
        Period::Today => t.date.days == now.date.days && t.hour <= now.hour,
    }
}

/// The commits of a period, in order (those without a local time are
/// left out).
pub open spec fn period_commits(ps: Seq<RawStatCommitV>, ts: Seq<Option<LocalTime>>, period: Period, now: LocalTime) -> Seq<RawStatCommitV>
    decreases ps.len(),
{
    if ps.len() == 0 || ts.len() == 0 {
        Seq::<RawStatCommitV>::empty()
    } else {
        period_commits(ps.drop_last(), ts.drop_last(), period, now) + match ts.last() {
            Some(t) => if in_period(period, t, now) {
                seq![ps.last()]
            } else {
                Seq::<RawStatCommitV>::empty()
            },
            None => Seq::<RawStatCommitV>::empty(),
        }
    }
}

/// A cell of an axis: a month, a day of a period, or an hour of today.
#[derive(Debug, Clone, Copy, PartialEq, Eq, Structural)]
pub enum Cell {
    Month(i32, u32),
    Day(i32, u32, u32, Period),
    Hour(u32),
}

pub open spec fn in_cell(cell: Cell, t: LocalTime, now: LocalTime) -> bool {
    match cell {
        Cell::Month(y, m) => t.date.year == y && t.date.month == m,
        Cell::Day(y, m, d, period) => in_period(period, t, now) && t.date.year == y && t.date.month == m && t.date.day == d,
        Cell::Hour(h) => in_period(Period::Today, t, now) && t.hour == h,
    }
}

/// How many commits fall in the cell.
pub open spec fn cell_count(ts: Seq<Option<LocalTime>>, cell: Cell, now: LocalTime) -> nat
    decreases ts.len(),
{
    if ts.len() == 0 {
        0
    } else {
        cell_count(ts.drop_last(), cell, now) + match ts.last() {
            Some(t) => if in_cell(cell, t, now) {
                1nat
            } else {
                0nat
            },
            None => 0nat,
        }
    }
}

proof fn lemma_cell_count_bound(ts: Seq<Option<LocalTime>>, cell: Cell, now: LocalTime)
    ensures
        cell_count(ts, cell, now) <= ts.len(),
    decreases ts.len(),
{
    if ts.len() > 0 {
        lemma_cell_count_bound(ts.drop_last(), cell, now);
    }
}

fn in_period_exec(period: Period, t: &LocalTime, now: &LocalTime) -> (r: bool)
    ensures
        r == in_period(period, *t, *now),
{
    let ms: i64 = now.date.days as i64 - (now.date.day as i64 - 1);
    let ws: i64 = now.date.days as i64 - now.weekday as i64;
    let d: i64 = t.date.days as i64;
    let today: i64 = now.date.days as i64;
    match period {
        Period::All => true,
        Period::Month => ms <= d && d <= today,
        Period::Week => ws <= d && d <= today,
        Period::Today => d == today && t.hour <= now.hour,
    }
}

fn in_cell_exec(cell: Cell, t: &LocalTime, now: &LocalTime) -> (r: bool)
    ensures
        r == in_cell(cell, *t, *now),
{
    match cell {
        Cell::Month(y, m) => t.date.year == y && t.date.month == m,
        Cell::Day(y, m, dd, period) => in_period_exec(period, t, now) && t.date.year == y && t.date.month == m
            && t.date.day == dd,
        Cell::Hour(h) => in_period_exec(Period::Today, t, now) && t.hour == h,
    }
}

fn count_cell(ts: &[Option<LocalTime>], cell: Cell, now: &LocalTime) -> (r: u32)
    requires
        ts@.len() < u32::MAX,
    ensures
        r == cell_count(ts@, cell, *now),
{
    let mut c: u32 = 0;
    let mut i: usize = 0;
    while i < ts.len()
        invariant
            0 <= i <= ts@.len(),
            ts@.len() < u32::MAX,
            c == cell_count(ts@.take(i as int), cell, *now),
        decreases ts.len() - i,
    {
        proof {
            assert(ts@.take(i + 1).drop_last() =~= ts@.take(i as int));
            lemma_cell_count_bound(ts@.take(i as int), cell, *now);
        }
        match &ts[i] {
            Some(t) => {
                if in_cell_exec(cell, t, now) {
                    c = c + 1;
                }
            },
            None => {},
        }
        i += 1;
    }
    assert(ts@.take(ts@.len() as int) =~= ts@);
    c
}

// =====================
// Bucket keys
// =====================

/// `n` in decimal, zero-padded to `width` digits.
pub open spec fn zero_pad(n: nat, width: nat) -> Seq<char> {
    let s = dec_string(n);
    if s.len() < width {
        Seq::new((width - s.len()) as nat, |i: int| '0') + s
    } else {
        s
    }
}

/// A year as `{:04}` shows it (sign included in the width).
pub open spec fn year_text(y: i32) -> Seq<char> {
    if y >= 0 {
        zero_pad(y as nat, 4)
    } else {
        seq!['-'] + zero_pad((-y) as nat, 3)
    }
}

pub open spec fn month_key(y: i32, m: u32) -> Seq<char> {
    year_text(y) + seq!['-'] + zero_pad(m as nat, 2)
}

pub open spec fn day_key(y: i32, m: u32, d: u32) -> Seq<char> {
    month_key(y, m) + seq!['-'] + zero_pad(d as nat, 2)
}

pub(crate) fn push_padded(s: &mut String, n: u64, width: usize)
    ensures
        final(s)@ == old(s)@ + zero_pad(n as nat, width as nat),
{
    let mut digits = String::new();
    push_u64(&mut digits, n);
    let len = to_chars(digits.as_str()).len();
    let ghost base = s@;
    if len < width {
        let mut k: usize = 0;
        while k < width - len
            invariant
                0 <= k <= width - len,
                s@ == base + Seq::new(k as nat, |i: int| '0'),
            decreases width - len - k,
        {
            push_char(s, '0');
            assert(s@ =~= base + Seq::new((k + 1) as nat, |i: int| '0'));
            k += 1;
        }
    }
    push_str(s, digits.as_str());
    assert(s@ =~= base + zero_pad(n as nat, width as nat));
}

fn push_year(s: &mut String, y: i32)
    ensures
        final(s)@ == old(s)@ + year_text(y),
{
    let ghost base = s@;
    if y >= 0 {
        push_padded(s, y as u64, 4);
    } else {
        push_char(s, '-');
        let a: i64 = -(y as i64);
        push_padded(s, a as u64, 3);
        assert(s@ =~= base + year_text(y));
    }
}

fn month_key_text(y: i32, m: u32) -> (r: String)
    ensures
        r@ == month_key(y, m),
{
    let mut s = String::new();
    push_year(&mut s, y);
    push_char(&mut s, '-');
    push_padded(&mut s, m as u64, 2);
    assert(s@ =~= month_key(y, m));
    s
}

fn day_key_text(y: i32, m: u32, d: u32) -> (r: String)
    ensures
        r@ == day_key(y, m, d),
{
    let mut s = month_key_text(y, m);
    push_char(&mut s, '-');
    push_padded(&mut s, d as u64, 2);
    assert(s@ =~= day_key(y, m, d));
    s
}

pub open spec fn bucket_view(b: StatBucket) -> (Seq<char>, nat) {
    (b.key@, b.count as nat)
}

pub open spec fn bucket_views(v: Seq<StatBucket>) -> Seq<(Seq<char>, nat)> {
    v.map_values(|b: StatBucket| bucket_view(b))
}

// =====================
// Axes
// =====================

/// The hours of today up to the current one, each with today's commits of
/// that hour.
pub open spec fn hour_axis(ts: Seq<Option<LocalTime>>, now: LocalTime) -> Seq<(Seq<char>, nat)> {
    Seq::new((now.hour + 1) as nat, |h: int| (zero_pad(h as nat, 2), cell_count(ts, Cell::Hour(h as u32), now)))
}

fn hour_buckets(ts: &[Option<LocalTime>], now: &LocalTime) -> (r: Vec<StatBucket>)
    requires
        ts@.len() < u32::MAX,
    ensures
        bucket_views(r@) == hour_axis(ts@, *now),
{
    let mut out: Vec<StatBucket> = Vec::new();
    let mut h: u64 = 0;
    while h <= now.hour as u64
        invariant
            0 <= h <= now.hour + 1,
            ts@.len() < u32::MAX,
            bucket_views(out@) == hour_axis(ts@, *now).take(h as int),
        decreases now.hour + 1 - h,
    {
        let mut key = String::new();
        push_padded(&mut key, h, 2);
        let c = count_cell(ts, Cell::Hour(h as u32), now);
        let ghost before = out@;
        let ghost kv = key@;
        out.push(StatBucket { key, count: c });
        proof {
            let ax = hour_axis(ts@, *now);
            assert(kv =~= zero_pad(h as nat, 2));
            assert(ax[h as int] == (zero_pad(h as nat, 2), cell_count(ts@, Cell::Hour(h as u32), *now)));
            assert(bucket_views(out@) =~= bucket_views(before).push((kv, c as nat)));
            assert(ax.take(h + 1) =~= ax.take(h as int).push(ax[h as int]));
        }
        h += 1;
    }
    assert(hour_axis(ts@, *now).take(h as int) =~= hour_axis(ts@, *now));
    out
}

/// The month after `(y, m)`.
pub open spec fn next_month(y: int, m: int) -> (int, int) {
    if m >= 12 {
        (y + 1, 1)
    } else {
        (y, m + 1)
    }
}

/// The months from `(y, m)` to the current month, each with the commits of
/// that month.
pub open spec fn months_from(y: int, m: int, ts: Seq<Option<LocalTime>>, now: LocalTime) -> Seq<(Seq<char>, nat)>
    decreases now.date.year - y + 1, 12 - m,
{
    if y < now.date.year || (y == now.date.year && m <= now.date.month) {
        let n = next_month(y, m);
        seq![(month_key(y as i32, m as u32), cell_count(ts, Cell::Month(y as i32, m as u32), now))] + months_from(
            n.0,
            n.1,
            ts,
            now,
        )
    } else {
        Seq::<(Seq<char>, nat)>::empty()
    }
}

/// The local time with the earliest date (the first of equal ones).
pub open spec fn earliest(ts: Seq<Option<LocalTime>>) -> Option<LocalTime>
    decreases ts.len(),
{
    if ts.len() == 0 {
        None
    } else {
        match earliest(ts.drop_last()) {
            None => ts.last(),
            Some(e) => match ts.last() {
                Some(t) => if t.date.days < e.date.days {
                    Some(t)
                } else {
                    Some(e)
                },
                None => Some(e),
            },
        }
    }
}

/// The month axis: from the month of the earliest commit to the current
/// month, empty months included.
pub open spec fn month_axis(ts: Seq<Option<LocalTime>>, now: LocalTime) -> Seq<(Seq<char>, nat)> {
    match earliest(ts) {
        Some(e) => months_from(e.date.year as int, e.date.month as int, ts, now),
        None => Seq::<(Seq<char>, nat)>::empty(),
    }
}

fn earliest_time(ts: &[Option<LocalTime>]) -> (r: Option<LocalTime>)
    ensures
        r == earliest(ts@),
{
    let mut e: Option<LocalTime> = None;
    let mut i: usize = 0;
    while i < ts.len()
        invariant
            0 <= i <= ts@.len(),
            e == earliest(ts@.take(i as int)),
        decreases ts.len() - i,
    {
        assert(ts@.take(i + 1).drop_last() =~= ts@.take(i as int));
        match ts[i] {
            Some(t) => {
                e = match e {
                    None => Some(t),
                    Some(x) => if t.date.days < x.date.days {
                        Some(t)
                    } else {
                        Some(x)
                    },
                };
            },
            None => {},
        }
        i += 1;
    }
    assert(ts@.take(ts@.len() as int) =~= ts@);
    e
}

fn month_buckets(ts: &[Option<LocalTime>], now: &LocalTime) -> (r: Vec<StatBucket>)
    requires
        ts@.len() < u32::MAX,
    ensures
        bucket_views(r@) == month_axis(ts@, *now),
{
    let mut out: Vec<StatBucket> = Vec::new();
    let first = match earliest_time(ts) {
        Some(e) => e,
        None => {
            assert(bucket_views(out@) =~= Seq::<(Seq<char>, nat)>::empty());
            return out;
        },
    };
    let mut y: i64 = first.date.year as i64;
    let mut m: u64 = first.date.month as u64;
    let ny: i64 = now.date.year as i64;
    let nm: u64 = now.date.month as u64;
    assert(bucket_views(out@) + months_from(y as int, m as int, ts@, *now) =~= month_axis(ts@, *now));
    while y < ny || (y == ny && m <= nm)
        invariant
            ts@.len() < u32::MAX,
            ny == now.date.year,
            nm == now.date.month,
            first.date.year <= y,
            y <= ny + 1 || y == first.date.year,
            m <= u32::MAX,
            bucket_views(out@) + months_from(y as int, m as int, ts@, *now) == month_axis(ts@, *now),
        decreases ny - y + 1, 12 - m,
    {
        let ghost (y0, m0) = (y as int, m as int);
        let key = month_key_text(y as i32, m as u32);
        let c = count_cell(ts, Cell::Month(y as i32, m as u32), now);
        let ghost before = out@;
        out.push(StatBucket { key, count: c });
        if m >= 12 {
            y = y + 1;
            m = 1;
        } else {
            m = m + 1;
        }
        proof {
            let rest = months_from(y as int, m as int, ts@, *now);
            assert(months_from(y0, m0, ts@, *now) == seq![(month_key(y0 as i32, m0 as u32), c as nat)] + rest);
            assert(bucket_views(out@) =~= bucket_views(before).push((month_key(y0 as i32, m0 as u32), c as nat)));
            assert(bucket_views(out@) + rest =~= bucket_views(before) + (seq![(month_key(y0 as i32, m0 as u32), c as nat)] + rest));
        }
    }
    assert(bucket_views(out@) + Seq::<(Seq<char>, nat)>::empty() =~= bucket_views(out@));
    out
}

/// The date chrono gives a day number (none outside `i32`).
pub open spec fn day_date(n: int) -> Option<(i32, u32, u32, i32)> {
    if i32::MIN <= n <= i32::MAX {
        date_of_days(n as i32)
    } else {
        None
    }
}

/// The days from day number `n` to `to`, each with the period's commits of
/// that day; `None` when chrono has no date for one of them.
pub open spec fn days_from(n: int, to: int, period: Period, ts: Seq<Option<LocalTime>>, now: LocalTime) -> Option<Seq<(Seq<char>, nat)>>
    decreases to - n + 1,
{
    if n > to {
        Some(Seq::<(Seq<char>, nat)>::empty())
    } else {
        match day_date(n) {
            None => None,
            Some(d) => match days_from(n + 1, to, period, ts, now) {
                Some(rest) => Some(
                    seq![(day_key(d.0, d.1, d.2), cell_count(ts, Cell::Day(d.0, d.1, d.2, period), now))] + rest,
                ),
                None => None,
            },
        }
    }
}

fn day_buckets(ts: &[Option<LocalTime>], from: i64, period: Period, now: &LocalTime) -> (r: Option<Vec<StatBucket>>)
    requires
        ts@.len() < u32::MAX,
    ensures
        match r {
            Some(v) => days_from(from as int, now.date.days as int, period, ts@, *now) == Some(bucket_views(v@)),
            None => days_from(from as int, now.date.days as int, period, ts@, *now) is None,
        },
{
    let to: i64 = now.date.days as i64;
    let mut out: Vec<StatBucket> = Vec::new();
    let mut n: i64 = from;
    assert(bucket_views(out@) =~= Seq::<(Seq<char>, nat)>::empty());
    while n <= to
        invariant
            ts@.len() < u32::MAX,
            to == now.date.days,
            from <= n,
            n == from || n <= to + 1,
            days_from(from as int, to as int, period, ts@, *now) == match days_from(n as int, to as int, period, ts@, *now) {
                Some(rest) => Some(bucket_views(out@) + rest),
                None => None::<Seq<(Seq<char>, nat)>>,
            },
        decreases to + 1 - n,
    {
        if n < i32::MIN as i64 || n > i32::MAX as i64 {
            return None;
        }
        let d = match days_date(n as i32) {
            Some(d) => d,
            None => {
                return None;
            },
        };
        let key = day_key_text(d.year, d.month, d.day);
        let c = count_cell(ts, Cell::Day(d.year, d.month, d.day, period), now);
        let ghost before = out@;
        out.push(StatBucket { key, count: c });
        proof {
            assert(day_date(n as int) == Some((d.year, d.month, d.day, d.days)));
            assert(bucket_views(out@) =~= bucket_views(before).push((day_key(d.year, d.month, d.day), c as nat)));
            match days_from(n + 1, to as int, period, ts@, *now) {
                Some(rest) => {
                    assert(bucket_views(before) + (seq![(day_key(d.year, d.month, d.day), c as nat)] + rest) =~= bucket_views(out@)
                        + rest);
                },
                None => {},
            }
        }
        n = n + 1;
    }
    assert(bucket_views(out@) + Seq::<(Seq<char>, nat)>::empty() =~= bucket_views(out@));
    Some(out)
}

// =====================
// The statistics
// =====================

fn copy_commit(c: &RawStatCommit) -> (r: RawStatCommit)
    ensures
        r@ == c@,
{
    RawStatCommit { name: c.name.clone(), email: c.email.clone(), ts: c.ts }
}

/// The commits of a period, in order.
fn period_points(ps: &[RawStatCommit], ts: &[Option<LocalTime>], period: Period, now: &LocalTime) -> (r: Vec<RawStatCommit>)
    requires
        ps@.len() == ts@.len(),
    ensures
        seq_view(r@) == period_commits(seq_view(ps@), ts@, period, *now),
        r@.len() <= ps@.len(),
{
    let mut out: Vec<RawStatCommit> = Vec::new();
    let mut i: usize = 0;
    while i < ps.len()
        invariant
            0 <= i <= ps@.len(),
            ps@.len() == ts@.len(),
            out@.len() <= i,
            seq_view(out@) == period_commits(seq_view(ps@.take(i as int)), ts@.take(i as int), period, *now),
        decreases ps.len() - i,
    {
        proof {
            assert(seq_view(ps@.take(i + 1)).drop_last() =~= seq_view(ps@.take(i as int)));
            assert(ts@.take(i + 1).drop_last() =~= ts@.take(i as int));
            assert(seq_view(ps@.take(i + 1)).last() == ps@[i as int]@);
        }
        let ghost before = out@;
        match ts[i] {
            Some(t) => {
                if in_period_exec(period, &t, now) {
                    let c = copy_commit(&ps[i]);
                    proof {
                        lemma_seq_view_push(out@, c);
                    }
                    out.push(c);
                    assert(seq_view(out@) =~= seq_view(before) + seq![ps@[i as int]@]);
                } else {
                    assert(seq_view(out@) =~= seq_view(before) + Seq::<RawStatCommitV>::empty());
                }
            },
            None => {
                assert(seq_view(out@) =~= seq_view(before) + Seq::<RawStatCommitV>::empty());
            },
        }
        i += 1;
    }
    assert(ps@.take(ps@.len() as int) =~= ps@);
    assert(ts@.take(ts@.len() as int) =~= ts@);
    out
}

/// The two day axes can be built: chrono has a date for every day from the
/// first of this month and from this week's Monday to today.
pub open spec fn days_ok(ts: Seq<Option<LocalTime>>, now: LocalTime) -> bool {
    &&& days_from(month_start(now), now.date.days as int, Period::Month, ts, now) is Some
    &&& days_from(week_start(now), now.date.days as int, Period::Week, ts, now) is Some
}

pub open spec fn period_empty(p: PeriodStats) -> bool {
    p.total == 0 && p.contributors@.len() == 0
}

/// The statistics of the commits `ps`, whose local times are `ts`, at the
/// local time `now`: without commits every period and axis is empty; else
/// each period has the totals of its commits, the month axis runs from the
/// month of the earliest commit to this month, the day axes from the first
/// of the month and from Monday to today, and the hour axis from hour 0 to
/// the current hour, each cell with its count and empty cells included.
pub open spec fn stats_ok(r: CommitStatsDto, ps: Seq<RawStatCommitV>, ts: Seq<Option<LocalTime>>, now: LocalTime) -> bool {
    if ps.len() == 0 {
        &&& period_empty(r.all) && period_empty(r.month) && period_empty(r.week) && period_empty(r.today)
        &&& r.months@.len() == 0 && r.month_days@.len() == 0
        &&& r.week_days@.len() == 0 && r.today_hours@.len() == 0
    } else {
        &&& period_ok(r.all, period_commits(ps, ts, Period::All, now))
        &&& period_ok(r.month, period_commits(ps, ts, Period::Month, now))
        &&& period_ok(r.week, period_commits(ps, ts, Period::Week, now))
        &&& period_ok(r.today, period_commits(ps, ts, Period::Today, now))
        &&& bucket_views(r.months@) == month_axis(ts, now)
        &&& days_from(month_start(now), now.date.days as int, Period::Month, ts, now) == Some(
            bucket_views(r.month_days@),
        )
        &&& days_from(week_start(now), now.date.days as int, Period::Week, ts, now) == Some(
            bucket_views(r.week_days@),
        )
        &&& bucket_views(r.today_hours@) == hour_axis(ts, now)
    }
}

fn empty_period() -> (r: PeriodStats)
    ensures
        period_empty(r),
{
    PeriodStats { total: 0, contributors: Vec::new() }
}

/// The statistics of `points` whose local times are `times` (`None` for a
/// commit without one), at the local time `now`; `None` where a day axis
/// cannot be built.
pub fn aggregate_local(points: &[RawStatCommit], times: &[Option<LocalTime>], now: &LocalTime) -> (r: Option<CommitStatsDto>)
    requires
        points@.len() == times@.len(),
        points@.len() < u32::MAX,
    ensures
        r is Some <==> (points@.len() == 0 || days_ok(times@, *now)),
        r matches Some(d) ==> stats_ok(d, seq_view(points@), times@, *now),
{
    if points.len() == 0 {
        let d = CommitStatsDto {
            all: empty_period(),
            month: empty_period(),
            week: empty_period(),
            today: empty_period(),
            months: Vec::new(),
            month_days: Vec::new(),
            week_days: Vec::new(),
            today_hours: Vec::new(),
        };
        return Some(d);
    }
    let ms: i64 = now.date.days as i64 - (now.date.day as i64 - 1);
    let ws: i64 = now.date.days as i64 - now.weekday as i64;
    let month_days = match day_buckets(times, ms, Period::Month, now) {
        Some(v) => v,
        None => {
            return None;
        },
    };
    let week_days = match day_buckets(times, ws, Period::Week, now) {
        Some(v) => v,
        None => {
            return None;
        },
    };
    let all_pts = period_points(points, times, Period::All, now);
    let month_pts = period_points(points, times, Period::Month, now);
    let week_pts = period_points(points, times, Period::Week, now);
    let today_pts = period_points(points, times, Period::Today, now);
    let d = CommitStatsDto {
        all: period_stats(all_pts.as_slice()),
        month: period_stats(month_pts.as_slice()),
        week: period_stats(week_pts.as_slice()),
        today: period_stats(today_pts.as_slice()),
        months: month_buckets(times, now),
        month_days,
        week_days,
        today_hours: hour_buckets(times, now),
    };
    Some(d)
}

/// The local time with the parts `p`.
pub open spec fn local_of(p: Option<(i32, u32, u32, i32, u32, u32)>) -> Option<LocalTime> {
    match p {
        Some(x) => Some(
            LocalTime { date: CalDate { year: x.0, month: x.1, day: x.2, days: x.3 }, hour: x.4, weekday: x.5 },
        ),
        None => None,
    }
}

proof fn lemma_local_of_parts(t: Option<LocalTime>)
    ensures
        local_of(local_parts(t)) == t,
{
}

/// The local times of the commits at `offset` seconds east of UTC.
pub open spec fn local_times(ps: Seq<RawStatCommitV>, offset: i32) -> Seq<Option<LocalTime>> {
    Seq::new(ps.len(), |i: int| local_of(local_time_at(ps[i].ts, offset)))
}

/// The statistics of `points` at the instant `now_ts` (unix seconds), in
/// the time zone `offset` seconds east of UTC: `aggregate_local` of the
/// commits' and the instant's local times; `None` where the instant has no
/// local time.
pub fn aggregate_stats(points: &[RawStatCommit], now_ts: i64, offset: i32) -> (r: Option<CommitStatsDto>)
    requires
        points@.len() < u32::MAX,
    ensures
        match local_of(local_time_at(now_ts, offset)) {
            None => r is None,
            Some(now) => {
                let ps = seq_view(points@);
                let ts = local_times(ps, offset);
                &&& r is Some <==> (ps.len() == 0 || days_ok(ts, now))
                &&& r matches Some(d) ==> stats_ok(d, ps, ts, now)
            },
        },
{
    let now = match local_at_offset(now_ts, offset) {
        Some(n) => n,
        None => {
            proof {
                lemma_local_of_parts(None);
            }
            return None;
        },
    };
    proof {
        lemma_local_of_parts(Some(now));
    }
    let mut times: Vec<Option<LocalTime>> = Vec::new();
    let mut i: usize = 0;
    while i < points.len()
        invariant
            0 <= i <= points@.len(),
            times@.len() == i,
            forall|j: int| 0 <= j < i ==> #[trigger] times@[j] == local_of(local_time_at(points@[j].ts, offset)),
        decreases points.len() - i,
    {
        let t = local_at_offset(points[i].ts, offset);
        proof {
            lemma_local_of_parts(t);
        }
        times.push(t);
        i += 1;
    }
    assert(times@ =~= local_times(seq_view(points@), offset));
    aggregate_local(points, times.as_slice(), &now)
}

// =====================
// Periods and axes agree
// =====================

/// How many commits have a local time in the period.
pub open spec fn period_count(ts: Seq<Option<LocalTime>>, period: Period, now: LocalTime) -> nat
    decreases ts.len(),
{
    if ts.len() == 0 {
        0
    } else {
        period_count(ts.drop_last(), period, now) + match ts.last() {
            Some(t) => if in_period(period, t, now) {
                1nat
            } else {
                0nat
            },
            None => 0nat,
        }
    }
}

/// The sum of an axis's counts.
pub open spec fn axis_total(s: Seq<(Seq<char>, nat)>) -> nat
    decreases s.len(),
{
    if s.len() == 0 {
        0
    } else {
        axis_total(s.drop_last()) + s.last().1
    }
}

/// The commits of today in the hours below `k`.
pub open spec fn hours_total(ts: Seq<Option<LocalTime>>, now: LocalTime, k: nat) -> nat
    decreases k,
{
    if k == 0 {
        0
    } else {
        hours_total(ts, now, (k - 1) as nat) + cell_count(ts, Cell::Hour((k - 1) as u32), now)
    }
}

proof fn lemma_period_commits_len(ps: Seq<RawStatCommitV>, ts: Seq<Option<LocalTime>>, period: Period, now: LocalTime)
    requires
        ps.len() == ts.len(),
    ensures
        period_commits(ps, ts, period, now).len() == period_count(ts, period, now),
    decreases ps.len(),
{
    if ps.len() > 0 {
        lemma_period_commits_len(ps.drop_last(), ts.drop_last(), period, now);
    }
}

proof fn lemma_axis_hours(ts: Seq<Option<LocalTime>>, now: LocalTime, k: nat)
    requires
        k <= now.hour + 1,
    ensures
        axis_total(hour_axis(ts, now).take(k as int)) == hours_total(ts, now, k),
    decreases k,
{
    let ax = hour_axis(ts, now);
    if k > 0 {
        lemma_axis_hours(ts, now, (k - 1) as nat);
        assert(ax.take(k as int).drop_last() =~= ax.take(k - 1));
    } else {
        assert(ax.take(0) =~= Seq::<(Seq<char>, nat)>::empty());
    }
}

proof fn lemma_hours_split(ts: Seq<Option<LocalTime>>, now: LocalTime, k: nat)
    requires
        ts.len() > 0,
        k <= now.hour + 1,
    ensures
        hours_total(ts, now, k) == hours_total(ts.drop_last(), now, k) + match ts.last() {
            Some(t) => if in_period(Period::Today, t, now) && t.hour < k {
                1nat
            } else {
                0nat
            },
            None => 0nat,
        },
    decreases k,
{
    if k > 0 {
        lemma_hours_split(ts, now, (k - 1) as nat);
    }
}

proof fn lemma_hours_today(ts: Seq<Option<LocalTime>>, now: LocalTime)
    ensures
        hours_total(ts, now, (now.hour + 1) as nat) == period_count(ts, Period::Today, now),
    decreases ts.len(),
{
    if ts.len() == 0 {
        lemma_hours_empty(ts, now, (now.hour + 1) as nat);
    } else {
        lemma_hours_today(ts.drop_last(), now);
        lemma_hours_split(ts, now, (now.hour + 1) as nat);
    }
}

proof fn lemma_hours_empty(ts: Seq<Option<LocalTime>>, now: LocalTime, k: nat)
    requires
        ts.len() == 0,
    ensures
        hours_total(ts, now, k) == 0,
    decreases k,
{
    if k > 0 {
        lemma_hours_empty(ts, now, (k - 1) as nat);
    }
}

/// The hour axis counts each of today's commits once: its counts add up to
/// the number of commits of today, the total of the today period.
pub proof fn law_hours_add_up_to_today(ps: Seq<RawStatCommitV>, ts: Seq<Option<LocalTime>>, now: LocalTime)
    requires
        ps.len() == ts.len(),
    ensures
        axis_total(hour_axis(ts, now)) == period_commits(ps, ts, Period::Today, now).len(),
{
    let ax = hour_axis(ts, now);
    lemma_axis_hours(ts, now, (now.hour + 1) as nat);
    assert(ax.take(ax.len() as int) =~= ax);
    lemma_hours_today(ts, now);
    lemma_period_commits_len(ps, ts, Period::Today, now);
}

} // verus!
