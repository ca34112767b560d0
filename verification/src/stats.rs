//! Commit statistics: the raw points of `git log` and the aggregate types.

use vstd::prelude::*;
use crate::text::{split, trim, parse_i64, to_chars, split_chars, views, string_of, trim_chars, parse_i64_chars};
use crate::model::{seq_view, filter_map, lemma_filter_map_step, lemma_seq_view_push};

verus! {

/// One commit point of the log: author and committer time.
#[derive(Debug, Clone, PartialEq, Eq)]
pub struct RawStatCommit {
    pub name: String,
    pub email: String,
    /// Committer time (unix seconds, `%ct`).
    pub ts: i64,
}

pub struct RawStatCommitV {
    pub name: Seq<char>,
    pub email: Seq<char>,
    pub ts: i64,
}

impl View for RawStatCommit {
    type V = RawStatCommitV;

    open spec fn view(&self) -> RawStatCommitV {
        RawStatCommitV { name: self.name@, email: self.email@, ts: self.ts }
    }
}

/// One contributor (aggregated by email; the name of their newest commit).
#[derive(Debug, Clone, PartialEq, Eq)]
pub struct ContributorStat {
    pub name: String,
    pub email: String,
    pub count: u32,
}

/// One time bucket: `key` is the zero-padded month, day or hour.
#[derive(Debug, Clone, PartialEq, Eq)]
pub struct StatBucket {
    pub key: String,
    pub count: u32,
}

/// The totals of one period: contributors by commit count, and the total.
#[derive(Debug, Clone, PartialEq, Eq)]
pub struct PeriodStats {
    pub total: u32,
    pub contributors: Vec<ContributorStat>,
}

/// The result of one statistics query: four periods and four bucket axes.
#[derive(Debug, Clone, PartialEq, Eq)]
pub struct CommitStatsDto {
    pub all: PeriodStats,
    pub month: PeriodStats,
    pub week: PeriodStats,
    pub today: PeriodStats,
    /// Whole history by month, empty months included.
    pub months: Vec<StatBucket>,
    /// This month by day.
    pub month_days: Vec<StatBucket>,
    /// This week by day.
    pub week_days: Vec<StatBucket>,
    /// Today by hour.
    pub today_hours: Vec<StatBucket>,
}

/// One `\x1e`-opened record `name\x1f email\x1f ts`; a record whose time
/// stamp is not a number (a truncated tail) is skipped.
pub open spec fn stat_record(record: Seq<char>) -> Option<RawStatCommitV> {
    let f = split(record, '\x1f');
    if record.len() == 0 {
        None
    } else if f.len() < 3 {
        None
    } else {
        match parse_i64(trim(f[2])) {
            Some(ts) => Some(RawStatCommitV { name: f[0], email: f[1], ts }),
            None => None,
        }
    }
}

pub open spec fn stats_log_model(raw: Seq<char>) -> Seq<RawStatCommitV> {
    filter_map(split(raw, '\x1e'), |r: Seq<char>| stat_record(r))
}

/// Parse `git log --format=%x1e%an%x1f%ae%x1f%ct`: records open with
/// `\x1e`, fields are separated by `\x1f`, the time stamp is trimmed.
pub fn parse_stats_log(raw: &str) -> (r: Vec<RawStatCommit>)
    ensures
        seq_view(r@) == stats_log_model(raw@),
{
    let chars = to_chars(raw);
    let recs = split_chars(chars.as_slice(), '\x1e');
    let ghost rs = views(recs@);
    let mut out: Vec<RawStatCommit> = Vec::new();
    let mut i: usize = 0;
    while i < recs.len()
        invariant
            rs == views(recs@),
            rs == split(raw@, '\x1e'),
            0 <= i <= rs.len(),
            seq_view(out@) == filter_map(rs.take(i as int), |r: Seq<char>| stat_record(r)),
        decreases recs.len() - i,
    {
        proof {
            lemma_filter_map_step(rs, |r: Seq<char>| stat_record(r), i as int);
        }
        let rec = &recs[i];
        assert(rs[i as int] == rec@);
        if rec.len() > 0 {
            let f = split_chars(rec.as_slice(), '\x1f');
            if f.len() >= 3 {
                assert(views(f@)[2] == f@[2]@);
                let t = trim_chars(f[2].as_slice());
                match parse_i64_chars(t.as_slice()) {
                    Some(ts) => {
                        let c = RawStatCommit {
                            name: string_of(f[0].as_slice()),
                            email: string_of(f[1].as_slice()),
                            ts,
                        };
                        assert(views(f@)[0] == f@[0]@ && views(f@)[1] == f@[1]@);
                        proof {
                            lemma_seq_view_push(out@, c);
                        }
                        out.push(c);
                    },
                    None => {},
                }
            }
        }
        i += 1;
    }
    assert(rs.take(rs.len() as int) =~= rs);
    out
}

} // verus!
