//! Calendar dates and local times, as chrono computes them: a date's
//! year, month, day and day number, and the local time of an instant.

use vstd::prelude::*;
use chrono::{Datelike, Timelike};

verus! {

/// A calendar date: year, month, day, and its day number (days since
/// January 1 of year 1 in the proleptic Gregorian calendar, that day
/// being 1).
#[derive(Debug, Clone, Copy, PartialEq, Eq, Structural)]
pub struct CalDate {
    pub year: i32,
    pub month: u32,
    pub day: u32,
    pub days: i32,
}

/// The date chrono reads from a `YYYY-MM-DD` text (`None` when it reads
/// none).
pub uninterp spec fn date_of_text(s: Seq<char>) -> Option<(i32, u32, u32, i32)>;

/// The date chrono makes of a year, month and day (`None` for no such
/// date).
pub uninterp spec fn date_of_ymd(year: i32, month: u32, day: u32) -> Option<(i32, u32, u32, i32)>;

/// A date as its (year, month, day, day number).
pub open spec fn date_parts(d: Option<CalDate>) -> Option<(i32, u32, u32, i32)> {
    match d {
        Some(x) => Some((x.year, x.month, x.day, x.days)),
        None => None,
    }
}

/// `s.parse::<chrono::NaiveDate>()` (chrono), converted to its year,
/// month, day and `num_days_from_ce`. Claimed: the result is
/// `date_of_text` of the text, a function of it alone.
#[verifier::external_body]
pub(crate) fn parse_date(s: &str) -> (r: Option<CalDate>)
    ensures
        date_parts(r) == date_of_text(s@),
{
    match s.parse::<chrono::NaiveDate>() {
        Ok(d) => Some(CalDate { year: d.year(), month: d.month(), day: d.day(), days: d.num_days_from_ce() }),
        Err(_) => None,
    }
}

/// `chrono::NaiveDate::from_ymd_opt` (chrono), converted as `parse_date`
/// does. Claimed: the result is `date_of_ymd` of the three numbers, a
/// function of them alone.
#[verifier::external_body]
fn ymd_date(year: i32, month: u32, day: u32) -> (r: Option<CalDate>)
    ensures
        date_parts(r) == date_of_ymd(year, month, day),
{
    match chrono::NaiveDate::from_ymd_opt(year, month, day) {
        Some(d) => Some(CalDate { year: d.year(), month: d.month(), day: d.day(), days: d.num_days_from_ce() }),
        None => None,
    }
}

impl CalDate {
    /// The date of a year, month and day, when there is one.
    pub fn from_ymd(year: i32, month: u32, day: u32) -> (r: Option<CalDate>)
        ensures
            date_parts(r) == date_of_ymd(year, month, day),
    {
        ymd_date(year, month, day)
    }
}


/// The date chrono gives a day number (`None` out of its range).
pub uninterp spec fn date_of_days(days: i32) -> Option<(i32, u32, u32, i32)>;

/// `chrono::NaiveDate::from_num_days_from_ce_opt` (chrono), converted as
/// `parse_date` does. Claimed: the result is `date_of_days` of the number,
/// a function of it alone.
#[verifier::external_body]
pub(crate) fn days_date(days: i32) -> (r: Option<CalDate>)
    ensures
        date_parts(r) == date_of_days(days),
{
    match chrono::NaiveDate::from_num_days_from_ce_opt(days) {
        Some(d) => Some(CalDate { year: d.year(), month: d.month(), day: d.day(), days: d.num_days_from_ce() }),
        None => None,
    }
}

/// A local time: its date and hour, and the weekday (days since Monday).
#[derive(Debug, Clone, Copy, PartialEq, Eq, Structural)]
pub struct LocalTime {
    pub date: CalDate,
    pub hour: u32,
    pub weekday: u32,
}

/// A local time as (year, month, day, day number, hour, weekday).
pub open spec fn local_parts(t: Option<LocalTime>) -> Option<(i32, u32, u32, i32, u32, u32)> {
    match t {
        Some(x) => Some((x.date.year, x.date.month, x.date.day, x.date.days, x.hour, x.weekday)),
        None => None,
    }
}

/// The local time chrono gives the instant `ts` (unix seconds) at a fixed
/// offset of `offset` seconds east of UTC (`None` for an offset, an
/// instant or a local time out of chrono's range).
pub uninterp spec fn local_time_at(ts: i64, offset: i32) -> Option<(i32, u32, u32, i32, u32, u32)>;

/// `chrono::FixedOffset::east_opt(offset)`, `DateTime::from_timestamp(ts,
/// 0)` and `NaiveDateTime::checked_add_offset` (chrono), converted to the
/// date, hour and weekday from Monday; each of the three answers `None`
/// out of range, and none panics. Claimed: the result is `local_time_at`
/// of the two numbers, a function of them alone.
#[verifier::external_body]
pub(crate) fn local_at_offset(ts: i64, offset: i32) -> (r: Option<LocalTime>)
    ensures
        local_parts(r) == local_time_at(ts, offset),
{
    match (chrono::FixedOffset::east_opt(offset), chrono::DateTime::from_timestamp(ts, 0)) {
        (Some(tz), Some(utc)) => match utc.naive_utc().checked_add_offset(tz) {
            Some(t) => {
                let d = t.date();
                let date = CalDate { year: d.year(), month: d.month(), day: d.day(), days: d.num_days_from_ce() };
                Some(LocalTime { date, hour: t.hour(), weekday: d.weekday().num_days_from_monday() })
            },
            None => None,
        },
        _ => None,
    }
}

} // verus!
