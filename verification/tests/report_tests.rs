use ibexgit_core::calendar::{CalDate, LocalTime};
use ibexgit_core::error::AppError;
use ibexgit_core::generate::{author_note, report_range, require_sources};

/// 2026-09-03, a Thursday (weekday 3 from Monday).
fn thursday() -> LocalTime {
    let date = CalDate::from_ymd(2026, 9, 3).expect("valid date");
    LocalTime { date, hour: 14, weekday: 3 }
}

#[test]
fn daily_report_starts_today() {
    assert_eq!(report_range("daily", &thursday()).unwrap(), "2026-09-03T00:00:00");
}

#[test]
fn weekly_report_starts_on_monday() {
    assert_eq!(report_range("weekly", &thursday()).unwrap(), "2026-08-31T00:00:00");
}

#[test]
fn weekly_report_crosses_a_year() {
    let date = CalDate::from_ymd(2026, 1, 2).expect("valid date");
    let friday = LocalTime { date, hour: 9, weekday: 4 };
    assert_eq!(report_range("weekly", &friday).unwrap(), "2025-12-29T00:00:00");
}

#[test]
fn author_note_names_the_filter() {
    assert_eq!(author_note(&Some("a@x".to_string())), "Only commits authored by <a@x> are included.");
    assert_eq!(author_note(&None), "Commits from all authors are included.");
}

#[test]
fn a_report_needs_a_repository() {
    assert!(require_sources(2).is_ok());
    match require_sources(0) {
        Err(AppError::Parse { message }) => assert_eq!(message, "no repositories selected"),
        other => panic!("unexpected {:?}", other),
    }
}
