use chrono::{DateTime, Datelike, NaiveDate, Timelike, Utc};
use upmon::models::Timestamp;
use upmon::summary::{build_hourly_summary, day_of, hour_of, record, DayChecks, HourlyRow};

fn instant(text: &str) -> Timestamp {
    let dt = text.parse::<DateTime<Utc>>().unwrap();
    Timestamp { secs: dt.timestamp(), nanos: dt.timestamp_subsec_nanos() }
}

fn day_number(date: NaiveDate) -> i64 {
    date.signed_duration_since(NaiveDate::from_ymd_opt(1970, 1, 1).unwrap()).num_days()
}

fn make_row(project: &str, site: &str, hour_str: &str, all_up: bool) -> HourlyRow {
    HourlyRow {
        project_id: project.into(),
        site_key: site.into(),
        hour: instant(hour_str),
        all_up,
    }
}

#[test]
fn empty_rows_empty_result() {
    let result = build_hourly_summary(vec![]);
    assert!(result.is_empty());
}

#[test]
fn single_project_single_day() {
    let rows = vec![
        make_row("p1", "s1", "2025-01-15T00:00:00Z", true),
        make_row("p1", "s1", "2025-01-15T01:00:00Z", false),
        make_row("p1", "s1", "2025-01-15T05:00:00Z", true),
    ];
    let result = build_hourly_summary(rows);
    let days = result.get("p1", "s1").unwrap();
    assert_eq!(days.len(), 1);
    assert_eq!(days[0].day, day_number(NaiveDate::from_ymd_opt(2025, 1, 15).unwrap()));
    assert_eq!(days[0].checks[0], Some(1));
    assert_eq!(days[0].checks[1], Some(0));
    assert_eq!(days[0].checks[2], None);
    assert_eq!(days[0].checks[5], Some(1));
}

#[test]
fn multiple_projects_and_sites() {
    let rows = vec![
        make_row("p1", "s1", "2025-01-15T10:00:00Z", true),
        make_row("p2", "s2", "2025-01-15T11:00:00Z", false),
    ];
    let result = build_hourly_summary(rows);
    assert!(result.contains_project("p1"));
    assert!(result.contains_project("p2"));
    assert_eq!(result.get("p1", "s1").unwrap()[0].checks[10], Some(1));
    assert_eq!(result.get("p2", "s2").unwrap()[0].checks[11], Some(0));
}

#[test]
fn hours_spanning_two_days() {
    let rows = vec![
        make_row("p1", "s1", "2025-01-15T23:00:00Z", true),
        make_row("p1", "s1", "2025-01-16T00:00:00Z", false),
    ];
    let result = build_hourly_summary(rows);
    let days = result.get("p1", "s1").unwrap();
    assert_eq!(days.len(), 2);
    assert_eq!(days[0].day, day_number(NaiveDate::from_ymd_opt(2025, 1, 15).unwrap()));
    assert_eq!(days[0].checks[23], Some(1));
    assert_eq!(days[1].day, day_number(NaiveDate::from_ymd_opt(2025, 1, 16).unwrap()));
    assert_eq!(days[1].checks[0], Some(0));
}

#[test]
fn single_day_has_only_observed_hours_set() {
    let rows = vec![
        make_row("p1", "s1", "2025-01-15T03:00:00Z", true),
        make_row("p1", "s1", "2025-01-15T07:00:00Z", false),
        make_row("p1", "s1", "2025-01-15T23:00:00Z", true),
    ];
    let result = build_hourly_summary(rows);
    let days = result.get("p1", "s1").unwrap();
    assert_eq!(days.len(), 1);
    let mut expected: Vec<Option<i32>> = vec![None; 24];
    expected[3] = Some(1);
    expected[7] = Some(0);
    expected[23] = Some(1);
    assert_eq!(days[0].checks, expected);
}

#[test]
fn every_day_record_has_24_slots() {
    let rows = vec![
        make_row("p", "s", "2025-03-01T12:00:00Z", true),
        make_row("p", "s", "2025-03-02T12:00:00Z", true),
        make_row("p", "s", "2025-03-09T00:00:00Z", false),
    ];
    let result = build_hourly_summary(rows);
    let days = result.get("p", "s").unwrap();
    assert_eq!(days.len(), 3);
    for d in days {
        assert_eq!(d.checks.len(), 24);
    }
}

#[test]
fn sites_interleaved_keep_their_own_days() {
    let rows = vec![
        make_row("p", "a", "2025-01-15T10:00:00Z", true),
        make_row("p", "b", "2025-01-16T10:00:00Z", false),
        make_row("p", "a", "2025-01-15T11:00:00Z", false),
        make_row("q", "a", "2025-01-17T00:00:00Z", true),
        make_row("p", "b", "2025-01-16T12:00:00Z", true),
    ];
    let result = build_hourly_summary(rows);
    assert_eq!(result.sites.len(), 3);
    let a = result.get("p", "a").unwrap();
    assert_eq!(a.len(), 1);
    assert_eq!(a[0].checks[10], Some(1));
    assert_eq!(a[0].checks[11], Some(0));
    let b = result.get("p", "b").unwrap();
    assert_eq!(b.len(), 1);
    assert_eq!(b[0].checks[10], Some(0));
    assert_eq!(b[0].checks[12], Some(1));
    assert_eq!(b[0].checks[11], None);
    let qa = result.get("q", "a").unwrap();
    assert_eq!(qa[0].day, day_number(NaiveDate::from_ymd_opt(2025, 1, 17).unwrap()));
    assert!(result.get("q", "b").is_none());
    assert!(result.get("a", "p").is_none());
    assert!(!result.contains_project("r"));
    assert!(!result.is_empty());
}

#[test]
fn sites_stand_in_order_of_first_occurrence() {
    let rows = vec![
        make_row("z", "z", "2025-01-15T10:00:00Z", true),
        make_row("a", "a", "2025-01-15T10:00:00Z", true),
        make_row("z", "z", "2025-01-15T11:00:00Z", true),
        make_row("m", "m", "2025-01-15T10:00:00Z", true),
    ];
    let result = build_hourly_summary(rows);
    let keys: Vec<&str> = result.sites.iter().map(|s| s.project_id.as_str()).collect();
    assert_eq!(keys, vec!["z", "a", "m"]);
}

#[test]
fn same_hour_twice_keeps_the_later_value() {
    let rows = vec![
        make_row("p", "s", "2025-01-15T10:00:00Z", true),
        make_row("p", "s", "2025-01-15T10:00:00Z", false),
    ];
    let result = build_hourly_summary(rows);
    let days = result.get("p", "s").unwrap();
    assert_eq!(days.len(), 1);
    assert_eq!(days[0].checks[10], Some(0));
}

#[test]
fn a_day_that_comes_back_gets_a_new_record() {
    // Only the last record is looked at: rows out of order open a record anew.
    let rows = vec![
        make_row("p", "s", "2025-01-15T10:00:00Z", true),
        make_row("p", "s", "2025-01-16T10:00:00Z", true),
        make_row("p", "s", "2025-01-15T11:00:00Z", false),
    ];
    let result = build_hourly_summary(rows);
    let days = result.get("p", "s").unwrap();
    assert_eq!(days.len(), 3);
    let d15 = day_number(NaiveDate::from_ymd_opt(2025, 1, 15).unwrap());
    assert_eq!(days[0].day, d15);
    assert_eq!(days[1].day, d15 + 1);
    assert_eq!(days[2].day, d15);
    assert_eq!(days[2].checks[11], Some(0));
    assert_eq!(days[2].checks[10], None);
}

#[test]
fn day_and_hour_agree_with_the_calendar() {
    let samples = [
        "1970-01-01T00:00:00Z",
        "1970-01-01T23:59:59Z",
        "1969-12-31T23:59:59Z",
        "1969-12-31T00:00:00Z",
        "1901-02-03T04:05:06Z",
        "2000-02-29T12:00:00Z",
        "2024-12-31T23:00:00Z",
        "2025-01-15T05:30:00Z",
        "2262-04-11T23:47:16Z",
    ];
    for text in samples {
        let dt = text.parse::<DateTime<Utc>>().unwrap();
        let t = instant(text);
        assert_eq!(day_of(t), day_number(dt.date_naive()), "day of {}", text);
        assert_eq!(hour_of(t), dt.hour() as usize, "hour of {}", text);
    }
    let t = instant("2025-01-15T05:30:00Z");
    let date = "2025-01-15T05:30:00Z".parse::<DateTime<Utc>>().unwrap().date_naive();
    assert_eq!((date.year(), date.month(), date.day()), (2025, 1, 15));
    assert_eq!(day_of(t), 20_103);
    assert_eq!(hour_of(t), 5);
}

#[test]
fn day_and_hour_at_the_ends_of_the_range() {
    assert_eq!(day_of(Timestamp { secs: 0, nanos: 0 }), 0);
    assert_eq!(day_of(Timestamp { secs: -1, nanos: 0 }), -1);
    assert_eq!(hour_of(Timestamp { secs: -1, nanos: 999_999_999 }), 23);
    assert_eq!(day_of(Timestamp { secs: 86_399, nanos: 0 }), 0);
    assert_eq!(day_of(Timestamp { secs: 86_400, nanos: 0 }), 1);
    assert_eq!(hour_of(Timestamp { secs: 3_599, nanos: 0 }), 0);
    assert_eq!(hour_of(Timestamp { secs: 3_600, nanos: 0 }), 1);
    assert_eq!(day_of(Timestamp { secs: i64::MAX, nanos: 0 }), i64::MAX.div_euclid(86_400));
    assert_eq!(day_of(Timestamp { secs: i64::MIN, nanos: 0 }), i64::MIN.div_euclid(86_400));
    assert_eq!(
        hour_of(Timestamp { secs: i64::MIN, nanos: 0 }),
        (i64::MIN.rem_euclid(86_400) / 3_600) as usize
    );
}

#[test]
fn record_writes_into_the_last_day_or_opens_one() {
    let mut days: Vec<DayChecks> = Vec::new();
    record(&mut days, 7, 0, true);
    record(&mut days, 7, 23, false);
    record(&mut days, 8, 1, true);
    assert_eq!(days.len(), 2);
    assert_eq!(days[0].day, 7);
    assert_eq!(days[0].checks[0], Some(1));
    assert_eq!(days[0].checks[23], Some(0));
    assert_eq!(days[0].checks.iter().filter(|c| c.is_some()).count(), 2);
    assert_eq!(days[1].day, 8);
    assert_eq!(days[1].checks[1], Some(1));
    assert_eq!(days[1].checks.len(), 24);
}

#[test]
fn find_gives_the_position_of_a_site() {
    let rows = vec![
        make_row("p", "a", "2025-01-15T10:00:00Z", true),
        make_row("p", "b", "2025-01-15T10:00:00Z", true),
    ];
    let result = build_hourly_summary(rows);
    assert_eq!(result.find("p", "a"), Some(0));
    assert_eq!(result.find("p", "b"), Some(1));
    assert_eq!(result.find("p", "c"), None);
    assert_eq!(result.find("b", "p"), None);
}
