use chrono::{DateTime, Utc};
use upmon::history::{
    daily_summary, hourly_rows, hourly_summary, tally_by, window_of, DailySummary, HistoryRow,
};
use upmon::models::Timestamp;
use upmon::summary::build_hourly_summary;

fn instant(text: &str) -> Timestamp {
    let dt = text.parse::<DateTime<Utc>>().unwrap();
    Timestamp { secs: dt.timestamp(), nanos: dt.timestamp_subsec_nanos() }
}

fn check(project: &str, site: &str, when: &str, is_up: bool) -> HistoryRow {
    HistoryRow {
        project_id: project.into(),
        site_key: site.into(),
        checked_at: instant(when),
        is_up,
    }
}

fn day(total_checks: u64, up_checks: u64) -> DailySummary {
    DailySummary {
        project_id: "p".into(),
        site_key: "s".into(),
        day: 0,
        total_checks,
        up_checks,
    }
}

#[test]
fn uptime_of_no_checks_is_zero() {
    assert_eq!(day(0, 0).uptime_milli_pct(), 0);
}

#[test]
fn uptime_of_two_in_three() {
    let pct = day(3, 2).uptime_milli_pct();
    assert_eq!(pct, 66_666);
    // Rounded down to a thousandth of a percent: within one of 66.667.
    assert!((pct as f64 / 1000.0 - 66.667).abs() < 0.0015);
    let d = day(3, 2);
    let exact = 100.0 * d.up_checks as f64 / d.total_checks as f64;
    assert!((exact - 66.667).abs() < 0.001);
    assert!(exact - pct as f64 / 1000.0 < 0.001);
}

#[test]
fn uptime_extremes() {
    assert_eq!(day(5, 5).uptime_milli_pct(), 100_000);
    assert_eq!(day(5, 0).uptime_milli_pct(), 0);
    assert_eq!(day(1, 1).uptime_milli_pct(), 100_000);
    assert_eq!(day(u64::MAX, u64::MAX).uptime_milli_pct(), 100_000);
    assert_eq!(day(u64::MAX, u64::MAX - 1).uptime_milli_pct(), 99_999);
    assert_eq!(day(200_000, 1).uptime_milli_pct(), 0);
    assert_eq!(day(4, 1).uptime_milli_pct(), 25_000);
}

#[test]
fn daily_summary_of_nothing_is_empty() {
    assert!(daily_summary(&[]).is_empty());
    assert!(hourly_rows(&[]).is_empty());
}

#[test]
fn daily_summary_counts_by_site_and_day() {
    let history = vec![
        check("p", "s", "2025-01-15T00:00:01Z", true),
        check("p", "s", "2025-01-15T08:00:00Z", false),
        check("p", "t", "2025-01-15T08:00:00Z", true),
        check("p", "s", "2025-01-15T23:59:59Z", true),
        check("p", "s", "2025-01-16T00:00:00Z", false),
    ];
    let days = daily_summary(&history);
    let seen: Vec<(&str, &str, i64, u64, u64)> = days
        .iter()
        .map(|d| (d.project_id.as_str(), d.site_key.as_str(), d.day, d.total_checks, d.up_checks))
        .collect();
    assert_eq!(
        seen,
        vec![("p", "s", 20_103, 3, 2), ("p", "t", 20_103, 1, 1), ("p", "s", 20_104, 1, 0)]
    );
    assert_eq!(days[0].uptime_milli_pct(), 66_666);
    assert_eq!(days[1].uptime_milli_pct(), 100_000);
    assert_eq!(days[2].uptime_milli_pct(), 0);
}

#[test]
fn hourly_rows_are_up_only_if_every_check_was_up() {
    let history = vec![
        check("p", "s", "2025-01-15T10:00:00Z", true),
        check("p", "s", "2025-01-15T10:20:00Z", true),
        check("p", "s", "2025-01-15T11:05:00Z", true),
        check("p", "s", "2025-01-15T11:25:00Z", false),
        check("p", "s", "2025-01-15T11:45:00Z", true),
        check("p", "s", "2025-01-15T13:59:59Z", false),
    ];
    let rows = hourly_rows(&history);
    let seen: Vec<(i64, u32, bool)> =
        rows.iter().map(|r| (r.hour.secs, r.hour.nanos, r.all_up)).collect();
    assert_eq!(
        seen,
        vec![
            (instant("2025-01-15T10:00:00Z").secs, 0, true),
            (instant("2025-01-15T11:00:00Z").secs, 0, false),
            (instant("2025-01-15T13:00:00Z").secs, 0, false),
        ]
    );
}

#[test]
fn hourly_rows_feed_the_summary() {
    let history = vec![
        check("p", "s", "2025-01-15T22:10:00Z", true),
        check("p", "s", "2025-01-15T23:10:00Z", false),
        check("p", "s", "2025-01-15T23:40:00Z", true),
        check("p", "s", "2025-01-16T00:10:00Z", true),
    ];
    let summary = build_hourly_summary(hourly_rows(&history));
    let days = summary.get("p", "s").unwrap();
    assert_eq!(days.len(), 2);
    assert_eq!(days[0].checks[22], Some(1));
    assert_eq!(days[0].checks[23], Some(0));
    assert_eq!(days[0].checks[21], None);
    assert_eq!(days[1].checks[0], Some(1));
    assert_eq!(days[1].checks[1], None);
}

#[test]
fn tallies_group_rows_that_are_not_adjacent() {
    let history = vec![
        check("p", "a", "2025-01-15T10:00:00Z", true),
        check("p", "b", "2025-01-15T10:00:00Z", false),
        check("p", "a", "2025-01-15T10:30:00Z", false),
        check("q", "a", "2025-01-15T10:30:00Z", true),
        check("p", "b", "2025-01-15T10:59:59Z", false),
    ];
    let tallies = tally_by(&history, 3_600);
    let seen: Vec<(&str, &str, u64, u64)> = tallies
        .iter()
        .map(|t| (t.project_id.as_str(), t.site_key.as_str(), t.total_checks, t.up_checks))
        .collect();
    assert_eq!(seen, vec![("p", "a", 2, 1), ("p", "b", 2, 0), ("q", "a", 1, 1)]);
    let hour = instant("2025-01-15T10:00:00Z").secs / 3_600;
    assert!(tallies.iter().all(|t| t.bucket == hour));
}

#[test]
fn windows_are_counted_from_the_epoch() {
    assert_eq!(window_of(0, 3_600), 0);
    assert_eq!(window_of(3_599, 3_600), 0);
    assert_eq!(window_of(3_600, 3_600), 1);
    assert_eq!(window_of(-1, 3_600), -1);
    assert_eq!(window_of(-3_600, 3_600), -1);
    assert_eq!(window_of(-3_601, 3_600), -2);
    assert_eq!(window_of(i64::MIN, 86_400), i64::MIN.div_euclid(86_400));
    assert_eq!(window_of(i64::MAX, 1), i64::MAX);
    assert_eq!(window_of(i64::MIN, 1), i64::MIN);
}

#[test]
fn earliest_hour_stays_in_range() {
    let history = vec![HistoryRow {
        project_id: "p".into(),
        site_key: "s".into(),
        checked_at: Timestamp { secs: i64::MIN + 5, nanos: 0 },
        is_up: true,
    }];
    let rows = hourly_rows(&history);
    assert_eq!(rows.len(), 1);
    assert_eq!(rows[0].hour.secs, i64::MIN);
    assert!(rows[0].all_up);
}

#[test]
fn hourly_summary_tells_up_down_and_no_data_apart() {
    let history = vec![
        check("p", "s", "2025-01-15T22:10:00Z", true),
        check("p", "s", "2025-01-15T22:40:00Z", true),
        check("p", "s", "2025-01-15T23:10:00Z", false),
        check("p", "s", "2025-01-15T23:40:00Z", true),
        check("p", "s", "2025-01-16T00:10:00Z", true),
        check("p", "t", "2025-01-16T00:10:00Z", false),
    ];
    let summary = hourly_summary(&history);
    assert_eq!(summary.sites.len(), 2);
    let days = summary.get("p", "s").unwrap();
    assert_eq!(days.len(), 2);
    assert_eq!(days[0].day, 20_103);
    assert_eq!(days[1].day, 20_104);
    let mut first: Vec<Option<i32>> = vec![None; 24];
    first[22] = Some(1);
    first[23] = Some(0);
    let mut second: Vec<Option<i32>> = vec![None; 24];
    second[0] = Some(1);
    assert_eq!(days[0].checks, first);
    assert_eq!(days[1].checks, second);
    let other = summary.get("p", "t").unwrap();
    assert_eq!(other.len(), 1);
    assert_eq!(other[0].checks[0], Some(0));
    assert!(summary.get("q", "s").is_none());
}

#[test]
fn hourly_summary_of_nothing_is_empty() {
    assert!(hourly_summary(&[]).is_empty());
}

#[test]
fn hourly_summary_before_the_epoch() {
    let history = vec![
        check("p", "s", "1969-12-31T23:59:59Z", false),
        check("p", "s", "1970-01-01T00:00:00Z", true),
    ];
    let summary = hourly_summary(&history);
    let days = summary.get("p", "s").unwrap();
    assert_eq!(days.len(), 2);
    assert_eq!(days[0].day, -1);
    assert_eq!(days[0].checks[23], Some(0));
    assert_eq!(days[1].day, 0);
    assert_eq!(days[1].checks[0], Some(1));
}
