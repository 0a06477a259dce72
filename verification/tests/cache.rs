use upmon::cache::StatusCache;
use upmon::models::{CheckResult, ErrorType, Timestamp};

fn result(project: &str, site: &str, secs: i64, is_up: bool) -> CheckResult {
    CheckResult {
        project_id: project.into(),
        site_key: site.into(),
        url: format!("http://{}/{}", project, site),
        status_code: if is_up { Some(200) } else { None },
        response_ms: 10,
        is_up,
        error_type: if is_up { None } else { Some(ErrorType::Timeout) },
        error_message: if is_up { None } else { Some("timed out".into()) },
        checked_at: Timestamp { secs, nanos: 0 },
    }
}

#[test]
fn new_cache_is_empty() {
    let cache = StatusCache::new();
    assert_eq!(cache.len(), 0);
    assert!(cache.get("p", "s").is_none());
    assert!(cache.entries().is_empty());
}

#[test]
fn insert_then_get() {
    let mut cache = StatusCache::new();
    cache.insert(result("p", "s", 1, true));
    let got = cache.get("p", "s").unwrap();
    assert_eq!(got.checked_at.secs, 1);
    assert!(got.is_up);
    assert_eq!(cache.len(), 1);
    assert!(cache.get("p", "t").is_none());
    assert!(cache.get("s", "p").is_none());
}

#[test]
fn insert_replaces_the_entry_wholesale() {
    let mut cache = StatusCache::new();
    cache.insert(result("p", "s", 1, true));
    cache.insert(result("p", "t", 2, true));
    cache.insert(result("p", "s", 3, false));
    assert_eq!(cache.len(), 2);
    let got = cache.get("p", "s").unwrap();
    assert_eq!(got.checked_at.secs, 3);
    assert!(!got.is_up);
    assert_eq!(got.status_code, None);
    assert_eq!(got.error_type, Some(ErrorType::Timeout));
    assert_eq!(got.error_message.as_deref(), Some("timed out"));
    let other = cache.get("p", "t").unwrap();
    assert_eq!(other.checked_at.secs, 2);
    assert!(other.is_up);
}

#[test]
fn keys_are_pairs_not_joined_text() {
    let mut cache = StatusCache::new();
    cache.insert(result("ab", "c", 1, true));
    cache.insert(result("a", "bc", 2, true));
    assert_eq!(cache.len(), 2);
    assert_eq!(cache.get("ab", "c").unwrap().checked_at.secs, 1);
    assert_eq!(cache.get("a", "bc").unwrap().checked_at.secs, 2);
}

#[test]
fn from_entries_keeps_the_later_of_two() {
    let cache = StatusCache::from_entries(vec![
        result("p", "s", 1, true),
        result("q", "s", 2, true),
        result("p", "s", 3, false),
    ]);
    assert_eq!(cache.len(), 2);
    assert_eq!(cache.get("p", "s").unwrap().checked_at.secs, 3);
    assert_eq!(cache.get("q", "s").unwrap().checked_at.secs, 2);
    assert_eq!(StatusCache::from_entries(vec![]).len(), 0);
}

#[test]
fn entries_round_trip_through_from_entries() {
    let mut cache = StatusCache::new();
    cache.insert(result("p", "a", 1, true));
    cache.insert(result("p", "b", 2, false));
    cache.insert(result("q", "a", 3, true));
    cache.insert(result("p", "a", 4, false));
    let snapshot = cache.entries();
    assert_eq!(snapshot.len(), 3);
    let mut keys: Vec<(String, String, i64)> = snapshot
        .iter()
        .map(|r| (r.project_id.clone(), r.site_key.clone(), r.checked_at.secs))
        .collect();
    keys.sort();
    assert_eq!(
        keys,
        vec![
            ("p".to_string(), "a".to_string(), 4),
            ("p".to_string(), "b".to_string(), 2),
            ("q".to_string(), "a".to_string(), 3),
        ]
    );
    let again = StatusCache::from_entries(snapshot);
    assert_eq!(again.len(), 3);
    for (p, s, secs) in keys {
        assert_eq!(again.get(&p, &s).unwrap().checked_at.secs, secs);
    }
}

#[test]
fn missing_snapshot_gives_an_empty_cache() {
    let cache = StatusCache::from_snapshot(None);
    assert_eq!(cache.len(), 0);
    assert!(cache.entries().is_empty());
}

#[test]
fn snapshot_is_loaded_like_a_list_of_entries() {
    let cache = StatusCache::from_snapshot(Some(vec![
        result("p", "s", 1, true),
        result("p", "s", 2, false),
        result("p", "t", 3, true),
    ]));
    assert_eq!(cache.len(), 2);
    assert_eq!(cache.get("p", "s").unwrap().checked_at.secs, 2);
    assert!(!cache.get("p", "s").unwrap().is_up);
    assert_eq!(cache.get("p", "t").unwrap().checked_at.secs, 3);
    assert_eq!(StatusCache::from_snapshot(Some(vec![])).len(), 0);
}
