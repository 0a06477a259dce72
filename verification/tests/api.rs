use upmon::api::{
    credential_accepted, summary_days, DEFAULT_SUMMARY_DAYS, MAX_SUMMARY_DAYS, MIN_SUMMARY_DAYS,
};

#[test]
fn summary_days_defaults_to_a_week() {
    assert_eq!(DEFAULT_SUMMARY_DAYS, 7);
    assert_eq!(summary_days(None), 7);
}

#[test]
fn summary_days_is_clamped() {
    assert_eq!((MIN_SUMMARY_DAYS, MAX_SUMMARY_DAYS), (1, 90));
    assert_eq!(summary_days(Some(1)), 1);
    assert_eq!(summary_days(Some(30)), 30);
    assert_eq!(summary_days(Some(90)), 90);
    assert_eq!(summary_days(Some(91)), 90);
    assert_eq!(summary_days(Some(0)), 1);
    assert_eq!(summary_days(Some(-5)), 1);
    assert_eq!(summary_days(Some(i32::MAX)), 90);
    assert_eq!(summary_days(Some(i32::MIN)), 1);
}

#[test]
fn credential_must_be_present_and_equal() {
    assert!(credential_accepted(Some("s3cret"), "s3cret"));
    assert!(!credential_accepted(None, "s3cret"));
    assert!(!credential_accepted(Some("s3cret "), "s3cret"));
    assert!(!credential_accepted(Some("S3CRET"), "s3cret"));
    assert!(!credential_accepted(Some(""), "s3cret"));
    assert!(!credential_accepted(Some("s3cre"), "s3cret"));
    assert!(credential_accepted(Some(""), ""));
    assert!(!credential_accepted(None, ""));
}
