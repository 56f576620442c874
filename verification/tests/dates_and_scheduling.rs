use onbrix::clock::{months_back, read_today, utc_now, yesterday};
use onbrix::date::{date_minus_days, date_pred, format_stamp, format_ymd, parse_date_prefix,
    parse_ymd, Date, Stamp};
use onbrix::scheduler::{daily_job_due, is_synced_on, is_synced_today, startup_job_due,
    CATALOG_SYNC_HOUR, POLL_INTERVAL_SECS, REVIEW_CRAWL_HOUR};

fn d(y: i32, m: u8, day: u8) -> Date {
    Date { year: y, month: m, day }
}

#[test]
fn parses_only_real_calendar_dates() {
    assert_eq!(parse_ymd("2024-02-29"), Some(d(2024, 2, 29)));
    assert_eq!(parse_ymd("2023-02-29"), None);
    assert_eq!(parse_ymd("2023-02-28"), Some(d(2023, 2, 28)));
    assert_eq!(parse_ymd("2024-13-01"), None);
    assert_eq!(parse_ymd("2024-00-10"), None);
    assert_eq!(parse_ymd("2024-04-31"), None);
    assert_eq!(parse_ymd("2024-4-31"), None);
    assert_eq!(parse_ymd("not-a-date"), None);
    assert_eq!(parse_ymd(""), None);
}

#[test]
fn reads_the_date_before_the_first_space() {
    assert_eq!(parse_date_prefix("2026-01-20 08:00:00"), Some(d(2026, 1, 20)));
    assert_eq!(parse_date_prefix("2026-01-20"), Some(d(2026, 1, 20)));
    assert_eq!(parse_date_prefix("2026-01-20x08:00"), None);
    assert_eq!(parse_date_prefix(" 2026-01-20"), None);
}

#[test]
fn date_arithmetic_crosses_months_and_years() {
    assert_eq!(date_pred(&d(2024, 3, 1)), d(2024, 2, 29));
    assert_eq!(date_pred(&d(2023, 3, 1)), d(2023, 2, 28));
    assert_eq!(date_pred(&d(2024, 1, 1)), d(2023, 12, 31));
    assert_eq!(date_minus_days(&d(2024, 1, 10), 0), Some(d(2024, 1, 10)));
    assert_eq!(date_minus_days(&d(2024, 1, 10), 15), Some(d(2023, 12, 26)));
    assert_eq!(date_minus_days(&d(2024, 3, 1), 366), Some(d(2023, 3, 1)));
}

#[test]
fn stamps_format_as_markers() {
    let st = Stamp { date: d(2024, 5, 1), hour: 8, minute: 30, second: 0 };
    assert_eq!(format_stamp(&st), "2024-05-01 08:30:00");
    assert_eq!(format_ymd(&d(2024, 5, 1)), "2024-05-01");
    assert_eq!(format_ymd(&d(33, 5, 1)), "0033-05-01");
}

#[test]
fn synced_markers_compare_calendar_days() {
    let today = d(2026, 1, 20);
    assert!(!is_synced_on(&None, &today));
    assert!(is_synced_on(&Some("2026-01-20 08:00:00".to_string()), &today));
    assert!(is_synced_on(&Some("2026-01-21 00:00:00".to_string()), &today));
    assert!(!is_synced_on(&Some("2026-01-19 23:59:59".to_string()), &today));
    assert!(!is_synced_on(&Some("garbage".to_string()), &today));
}

#[test]
fn daily_jobs_fire_once_inside_their_window() {
    let today = d(2026, 1, 20);
    let stale = Some("2026-01-19 08:00:00".to_string());
    let fresh = Some("2026-01-20 08:00:00".to_string());
    assert!(daily_job_due(CATALOG_SYNC_HOUR, CATALOG_SYNC_HOUR, &stale, &today));
    assert!(!daily_job_due(CATALOG_SYNC_HOUR, CATALOG_SYNC_HOUR, &fresh, &today));
    assert!(!daily_job_due(9, CATALOG_SYNC_HOUR, &stale, &today));
    assert!(daily_job_due(REVIEW_CRAWL_HOUR, REVIEW_CRAWL_HOUR, &None, &today));
    assert!(startup_job_due(&None, &today));
    assert!(!startup_job_due(&fresh, &today));
    assert_eq!(POLL_INTERVAL_SECS, 3600);
}

#[test]
fn the_clock_yields_workable_values() {
    // Far future and far past markers decide the same way whatever today is.
    assert!(is_synced_today(&Some("9999-12-31 23:59:59".to_string())));
    assert!(!is_synced_today(&Some("1970-01-01 00:00:00".to_string())));
    assert!(!is_synced_today(&None));
    let today = read_today();
    assert!((1..=12).contains(&today.month));
    assert!((1..=31).contains(&today.day));
    let utc = utc_now();
    assert!(utc.hour < 24 && utc.minute < 60 && utc.second < 60);
    assert!(yesterday().is_some());
    assert_eq!(months_back(-1), None);
    let back = months_back(1).unwrap();
    assert!((1..=12).contains(&back.month));
}
