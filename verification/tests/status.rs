use upmon::models::{CheckResult, ErrorType, Timestamp};
use upmon::status::{merge_status, MonitorStatus};

fn at(secs: i64) -> Timestamp {
    Timestamp { secs, nanos: 500 }
}

fn up(secs: i64) -> CheckResult {
    CheckResult {
        project_id: "p".into(),
        site_key: "s".into(),
        url: "http://example.com".into(),
        status_code: Some(200),
        response_ms: 42,
        is_up: true,
        error_type: None,
        error_message: None,
        checked_at: at(secs),
    }
}

fn down(secs: i64) -> CheckResult {
    CheckResult {
        project_id: "p".into(),
        site_key: "s".into(),
        url: "http://example.com/new".into(),
        status_code: Some(503),
        response_ms: 77,
        is_up: false,
        error_type: Some(ErrorType::UnexpectedStatus),
        error_message: Some("unavailable".into()),
        checked_at: at(secs),
    }
}

#[test]
fn first_success_sets_last_up() {
    let status = merge_status(None, &up(100));
    assert!(status.is_up);
    assert_eq!(status.last_checked_at, at(100));
    assert_eq!(status.last_up_at, Some(at(100)));
}

#[test]
fn first_failure_has_no_last_up() {
    let status = merge_status(None, &down(100));
    assert!(!status.is_up);
    assert_eq!(status.last_checked_at, at(100));
    assert_eq!(status.last_up_at, None);
}

#[test]
fn failure_does_not_overwrite_last_up() {
    let first = merge_status(None, &up(100));
    let second = merge_status(Some(&first), &down(160));
    assert!(!second.is_up);
    assert_eq!(second.last_checked_at, at(160));
    assert_eq!(second.last_up_at, Some(at(100)));
    let third = merge_status(Some(&second), &down(220));
    assert_eq!(third.last_up_at, Some(at(100)));
    assert_eq!(third.last_checked_at, at(220));
}

#[test]
fn success_sets_last_up_to_its_own_time() {
    let first = merge_status(None, &up(100));
    let second = merge_status(Some(&first), &down(160));
    let third = merge_status(Some(&second), &up(220));
    assert!(third.is_up);
    assert_eq!(third.last_up_at, Some(at(220)));
    assert_eq!(third.last_checked_at, at(220));
}

#[test]
fn success_with_an_earlier_time_still_sets_last_up() {
    let first = merge_status(None, &up(500));
    let second = merge_status(Some(&first), &up(400));
    assert_eq!(second.last_up_at, Some(at(400)));
}

#[test]
fn merge_takes_every_descriptive_field_from_the_result() {
    let first = merge_status(None, &up(100));
    let merged: MonitorStatus = merge_status(Some(&first), &down(160));
    assert_eq!(merged.project_id, "p");
    assert_eq!(merged.site_key, "s");
    assert_eq!(merged.url, "http://example.com/new");
    assert_eq!(merged.status_code, Some(503));
    assert_eq!(merged.response_ms, 77);
    assert_eq!(merged.error_type, Some(ErrorType::UnexpectedStatus));
    assert_eq!(merged.error_message.as_deref(), Some("unavailable"));
    let back = merge_status(Some(&merged), &up(220));
    assert_eq!(back.url, "http://example.com");
    assert_eq!(back.status_code, Some(200));
    assert_eq!(back.error_type, None);
    assert_eq!(back.error_message, None);
}
