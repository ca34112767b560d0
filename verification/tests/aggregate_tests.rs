use chrono::{FixedOffset, TimeZone};
use ibexgit_core::aggregate::aggregate_stats;
use ibexgit_core::stats::{CommitStatsDto, RawStatCommit};

/// UTC+8; the aggregation assumes no time zone of its own.
const OFFSET: i32 = 8 * 3600;

fn tz() -> FixedOffset {
    FixedOffset::east_opt(OFFSET).unwrap()
}

fn at(y: i32, m: u32, d: u32, h: u32, min: u32) -> i64 {
    tz().with_ymd_and_hms(y, m, d, h, min, 0).single().expect("valid test timestamp").timestamp()
}

fn pt(name: &str, email: &str, y: i32, m: u32, d: u32, h: u32) -> RawStatCommit {
    RawStatCommit { name: name.to_string(), email: email.to_string(), ts: at(y, m, d, h, 0) }
}

fn aggregate(points: &[RawStatCommit], now_ts: i64) -> CommitStatsDto {
    aggregate_stats(points, now_ts, OFFSET).expect("stats at a valid instant")
}

#[test]
fn aggregate_groups_by_email_keeping_newest_name() {
    // git log runs newest first: a@x's oldest commit is "Old A", its newest "A One".
    let points = vec![
        pt("A One", "a@x", 2026, 9, 3, 10),
        pt("A Two", "a2@x", 2026, 9, 2, 10),
        pt("Old A", "a@x", 2026, 8, 1, 10),
    ];
    let dto = aggregate(&points, at(2026, 9, 3, 12, 0));
    assert_eq!(dto.all.total, 3);
    assert_eq!(dto.all.contributors.len(), 2);
    assert_eq!(dto.all.contributors[0].name, "A One");
    assert_eq!(dto.all.contributors[0].email, "a@x");
    assert_eq!(dto.all.contributors[0].count, 2);
    assert_eq!(dto.all.contributors[1].count, 1);
}

#[test]
fn aggregate_fills_zero_buckets_all_axes() {
    // now = 2026-09-03 (a Thursday) 14:30; commits in July, August and September.
    let points = vec![
        pt("a", "a@x", 2026, 7, 15, 8),
        pt("a", "a@x", 2026, 8, 20, 9),
        pt("a", "a@x", 2026, 9, 1, 10),
        pt("a", "a@x", 2026, 9, 3, 14),
    ];
    let dto = aggregate(&points, at(2026, 9, 3, 14, 30));

    assert_eq!(
        dto.months.iter().map(|b| (b.key.as_str(), b.count)).collect::<Vec<_>>(),
        vec![("2026-07", 1), ("2026-08", 1), ("2026-09", 2)]
    );
    assert_eq!(
        dto.month_days.iter().map(|b| (b.key.as_str(), b.count)).collect::<Vec<_>>(),
        vec![("2026-09-01", 1), ("2026-09-02", 0), ("2026-09-03", 1),]
    );
    assert_eq!(
        dto.week_days.iter().map(|b| (b.key.as_str(), b.count)).collect::<Vec<_>>(),
        vec![("2026-08-31", 0), ("2026-09-01", 1), ("2026-09-02", 0), ("2026-09-03", 1),]
    );
    assert_eq!(dto.today_hours.len(), 15);
    assert_eq!(dto.today_hours[0].key, "00");
    assert_eq!(dto.today_hours[0].count, 0);
    assert_eq!(dto.today_hours[14].key, "14");
    assert_eq!(dto.today_hours[14].count, 1);

    assert_eq!(dto.all.total, 4);
    assert_eq!(dto.month.total, 2);
    assert_eq!(dto.week.total, 2);
    assert_eq!(dto.today.total, 1);
    assert_eq!(dto.today.contributors.len(), 1);
    assert_eq!(dto.today.contributors[0].email, "a@x");
}

#[test]
fn aggregate_excludes_future_and_out_of_range() {
    let points = vec![
        pt("a", "a@x", 2026, 9, 3, 20), // today, but after now (14:30)
        pt("a", "a@x", 2026, 8, 30, 8), // the Sunday before Monday 08-31
    ];
    let dto = aggregate(&points, at(2026, 9, 3, 14, 30));

    assert_eq!(
        dto.months.iter().map(|b| (b.key.as_str(), b.count)).collect::<Vec<_>>(),
        vec![("2026-08", 1), ("2026-09", 1)]
    );
    assert_eq!(dto.month_days.last().unwrap().count, 1);
    assert!(dto.today_hours.iter().all(|b| b.count == 0));
    assert_eq!(dto.today_hours.last().unwrap().key, "14");
    assert_eq!(dto.all.total, 2);
    assert_eq!(dto.month.total, 1);
    assert_eq!(dto.week.total, 1);
    assert_eq!(dto.today.total, 0);
    assert_eq!(dto.week_days.last().unwrap().count, 1);
    assert!(dto.week_days[..dto.week_days.len() - 1].iter().all(|b| b.count == 0));
    assert_eq!(dto.months.first().unwrap().key, "2026-08");
}

#[test]
fn aggregate_empty_points() {
    let dto = aggregate(&[], at(2026, 9, 3, 14, 30));
    assert_eq!(dto.all.total, 0);
    assert!(dto.all.contributors.is_empty());
    assert_eq!(dto.month.total, 0);
    assert_eq!(dto.week.total, 0);
    assert_eq!(dto.today.total, 0);
    assert!(dto.months.is_empty());
    assert!(dto.month_days.is_empty());
    assert!(dto.week_days.is_empty());
    assert!(dto.today_hours.is_empty());
}

#[test]
fn aggregate_month_axis_crosses_a_year() {
    let points = vec![pt("b", "b@x", 2025, 11, 5, 9), pt("a", "a@x", 2026, 1, 2, 9)];
    let dto = aggregate(&points, at(2026, 1, 2, 10, 0));
    assert_eq!(
        dto.months.iter().map(|b| (b.key.as_str(), b.count)).collect::<Vec<_>>(),
        vec![("2025-11", 1), ("2025-12", 0), ("2026-01", 1)]
    );
    // 2026-01-02 is a Friday: the week starts on Monday 2025-12-29.
    assert_eq!(dto.week_days.first().unwrap().key, "2025-12-29");
    assert_eq!(dto.week_days.len(), 5);
    assert_eq!(dto.month_days.len(), 2);
    // Equal counts rank by name.
    assert_eq!(dto.all.contributors[0].name, "a");
    assert_eq!(dto.all.contributors[1].name, "b");
}

#[test]
fn aggregate_refuses_an_offset_out_of_range() {
    let points = vec![pt("a", "a@x", 2026, 9, 3, 10)];
    assert!(aggregate_stats(&points, at(2026, 9, 3, 12, 0), 90_000).is_none());
}

#[test]
fn hour_axis_adds_up_to_today_total() {
    let points = vec![
        pt("a", "a@x", 2026, 9, 3, 1),
        pt("b", "b@x", 2026, 9, 3, 9),
        pt("a", "a@x", 2026, 9, 3, 9),
        pt("c", "c@x", 2026, 9, 3, 23),
        pt("a", "a@x", 2026, 9, 2, 9),
    ];
    let dto = aggregate(&points, at(2026, 9, 3, 10, 15));
    let sum: u32 = dto.today_hours.iter().map(|b| b.count).sum();
    assert_eq!(sum, 3);
    assert_eq!(dto.today.total, 3);
    assert_eq!(dto.today_hours[9].count, 2);
    assert_eq!(dto.today.contributors[0].email, "a@x");
}

#[test]
fn an_instant_at_the_end_of_the_calendar_is_refused() {
    let last = chrono::NaiveDateTime::MAX.and_utc().timestamp();
    // Eight hours east, the local time would fall past chrono's last date.
    assert!(aggregate_stats(&[], last, OFFSET).is_none());
    assert!(aggregate_stats(&[], last, 0).is_some());
}
