//! Log retention: the daily log files are named `ibexgit.log.YYYY-MM-DD`;
//! at start-up those older than the retention window are deleted, and no
//! other file is touched.

use vstd::prelude::*;
use crate::text::{strip_prefix, to_chars, strip_prefix_chars, string_of};
use crate::calendar::{CalDate, date_of_text, date_parts, parse_date};

verus! {

/// The prefix of the daily log files.
pub const LOG_FILE_PREFIX: &'static str = "ibexgit.log";

/// Log files of the last this many days are kept.
pub const LOG_KEEP_DAYS: u32 = 14;

/// The date a log file's name carries: `ibexgit.log.` then a date.
pub open spec fn log_file_date(name: Seq<char>) -> Option<(i32, u32, u32, i32)> {
    match strip_prefix(name, LOG_FILE_PREFIX@) {
        Some(rest) => match strip_prefix(rest, "."@) {
            Some(d) => date_of_text(d),
            None => None,
        },
        None => None,
    }
}

/// The date of a daily log file, `None` for any other name.
pub fn dated_log_file(name: &str) -> (r: Option<CalDate>)
    ensures
        date_parts(r) == log_file_date(name@),
{
    let nc = to_chars(name);
    let pc = to_chars(LOG_FILE_PREFIX);
    let dot = to_chars(".");
    match strip_prefix_chars(nc.as_slice(), pc.as_slice()) {
        Some(rest) => match strip_prefix_chars(rest.as_slice(), dot.as_slice()) {
            Some(d) => {
                let ds = string_of(d.as_slice());
                parse_date(ds.as_str())
            },
            None => None,
        },
        None => None,
    }
}

/// A date is past the retention window: earlier than `keep_days` days
/// before today.
pub open spec fn expired(date_days: i32, today: CalDate, keep_days: u32) -> bool {
    (date_days as int) < (today.days as int) - (keep_days as int)
}

/// Whether a directory entry is an expired daily log file (directories and
/// other names are never deleted).
pub fn should_prune(name: &str, is_dir: bool, today: CalDate, keep_days: u32) -> (r: bool)
    ensures
        r == (!is_dir && match log_file_date(name@) {
            Some(d) => expired(d.3, today, keep_days),
            None => false,
        }),
{
    if is_dir {
        return false;
    }
    match dated_log_file(name) {
        Some(d) => (d.days as i64) < (today.days as i64) - (keep_days as i64),
        None => false,
    }
}

} // verus!
