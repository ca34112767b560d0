use ibexgit_core::calendar::CalDate;
use ibexgit_core::logs::{dated_log_file, should_prune, LOG_KEEP_DAYS};

#[test]
fn parses_only_dated_names() {
    let d = CalDate::from_ymd(2026, 2, 10).unwrap();
    assert_eq!(dated_log_file("ibexgit.log.2026-02-10"), Some(d));
    assert_eq!(dated_log_file("ibexgit.log"), None);
    assert_eq!(dated_log_file("ibexgit.log.not-a-date"), None);
    assert_eq!(dated_log_file("other.txt"), None);
    assert_eq!(dated_log_file("ibexgit.log."), None);
}

#[test]
fn prunes_only_expired_dated_files() {
    let today = CalDate::from_ymd(2026, 2, 10).unwrap();
    let entries = [
        ("ibexgit.log.2026-01-11", false), // 30 days ago: deleted
        ("ibexgit.log.2026-01-27", false), // exactly today - 14: kept
        ("ibexgit.log.2026-02-09", false), // yesterday: kept
        ("ibexgit.log.2026-02-10", false), // today: kept
        ("ibexgit.log", false),            // no date: untouched
        ("ibexgit.log.not-a-date", false), // unparsable: untouched
        ("other.txt", false),              // foreign file: untouched
        ("subdir", true),                  // directory: untouched
    ];
    let removed: Vec<&str> = entries
        .iter()
        .filter(|(name, is_dir)| should_prune(name, *is_dir, today, LOG_KEEP_DAYS))
        .map(|(name, _)| *name)
        .collect();
    assert_eq!(removed, vec!["ibexgit.log.2026-01-11"]);
}

#[test]
fn dates_across_a_month_and_a_year() {
    let jan1 = CalDate::from_ymd(2026, 1, 1).unwrap();
    let dec31 = CalDate::from_ymd(2025, 12, 31).unwrap();
    assert_eq!(jan1.days - dec31.days, 1);
    assert!(CalDate::from_ymd(2026, 2, 30).is_none());
    assert!(should_prune("ibexgit.log.2025-12-17", false, jan1, 14));
    assert!(!should_prune("ibexgit.log.2025-12-18", false, jan1, 14));
}
