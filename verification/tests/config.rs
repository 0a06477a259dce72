use std::time::Duration;

use serde_json::Value;
use upmon::config::{
    default_api_port, default_http_method, default_retention_days, default_status_code,
    validate_methods, Config, ConfigError, Defaults, Monitor, Project, ResolvedMonitor,
};

fn opt_u64(v: &Value, field: &str) -> Option<u64> {
    v.get(field).and_then(|x| x.as_u64())
}

fn opt_string(v: &Value, field: &str) -> Option<String> {
    v.get(field).and_then(|x| x.as_str()).map(|s| s.to_string())
}

fn parse(json: &str) -> Config {
    let v: Value = serde_json::from_str(json).unwrap();
    let d = &v["defaults"];
    let defaults = Defaults {
        interval_sec: opt_u64(d, "interval_sec").unwrap(),
        timeout_sec: opt_u64(d, "timeout_sec").unwrap(),
        expected_status_code: opt_u64(d, "expected_status_code")
            .map(|c| c as u16)
            .unwrap_or_else(default_status_code),
        http_method: opt_string(d, "http_method").unwrap_or_else(default_http_method),
        expected_body: d.get("expected_body").cloned(),
    };
    let mut projects = Vec::new();
    for p in v["projects"].as_array().unwrap() {
        let mut monitors = Vec::new();
        for m in p["monitors"].as_array().unwrap() {
            monitors.push(Monitor {
                site_key: opt_string(m, "site_key").unwrap(),
                url: opt_string(m, "url").unwrap(),
                interval_sec: opt_u64(m, "interval_sec"),
                timeout_sec: opt_u64(m, "timeout_sec"),
                expected_status_code: opt_u64(m, "expected_status_code").map(|c| c as u16),
                http_method: opt_string(m, "http_method"),
                expected_body: m.get("expected_body").cloned(),
            });
        }
        projects.push(Project { id: opt_string(p, "id").unwrap(), monitors });
    }
    Config {
        defaults,
        retention_days: opt_u64(&v, "retention_days")
            .map(|d| d as u32)
            .unwrap_or_else(default_retention_days),
        projects,
    }
}

#[test]
fn monitor_inherits_all_defaults() {
    let config = parse(r#"{
            "defaults": { "interval_sec": 60, "timeout_sec": 10 },
            "projects": [{
                "id": "proj1",
                "monitors": [{ "site_key": "site1", "url": "http://example.com" }]
            }]
        }"#);
    let resolved = config.resolve();
    assert_eq!(resolved.len(), 1);
    let m = &resolved[0];
    assert_eq!(m.project_id, "proj1");
    assert_eq!(m.interval, Duration::from_secs(60));
    assert_eq!(m.timeout, Duration::from_secs(10));
    assert_eq!(m.expected_status_code, 200);
    assert_eq!(m.http_method, "GET");
}

#[test]
fn monitor_overrides_take_precedence() {
    let config = parse(r#"{
            "defaults": { "interval_sec": 60, "timeout_sec": 10 },
            "projects": [{
                "id": "proj1",
                "monitors": [{
                    "site_key": "site1",
                    "url": "http://example.com",
                    "interval_sec": 30,
                    "timeout_sec": 5,
                    "expected_status_code": 204,
                    "http_method": "HEAD"
                }]
            }]
        }"#);
    let resolved = config.resolve();
    let m = &resolved[0];
    assert_eq!(m.interval, Duration::from_secs(30));
    assert_eq!(m.timeout, Duration::from_secs(5));
    assert_eq!(m.expected_status_code, 204);
    assert_eq!(m.http_method, "HEAD");
}

#[test]
fn default_retention_days_when_omitted() {
    let config = parse(r#"{
            "defaults": { "interval_sec": 60, "timeout_sec": 10 },
            "projects": []
        }"#);
    assert_eq!(config.retention_days, 90);
}

#[test]
fn defaults_have_their_documented_values() {
    assert_eq!(default_retention_days(), 90);
    assert_eq!(default_status_code(), 200);
    assert_eq!(default_http_method(), "GET");
    assert_eq!(default_api_port(), 3000);
}

#[test]
fn resolve_without_projects_is_empty() {
    let config = parse(r#"{
            "defaults": { "interval_sec": 60, "timeout_sec": 10 },
            "projects": []
        }"#);
    assert!(config.resolve().is_empty());
}

#[test]
fn resolve_keeps_configured_order() {
    let config = parse(r#"{
            "defaults": { "interval_sec": 60, "timeout_sec": 10, "http_method": "HEAD" },
            "projects": [
                { "id": "a", "monitors": [
                    { "site_key": "a1", "url": "http://a/1" },
                    { "site_key": "a2", "url": "http://a/2", "interval_sec": 5 }
                ]},
                { "id": "empty", "monitors": [] },
                { "id": "b", "monitors": [
                    { "site_key": "b1", "url": "http://b/1", "http_method": "POST" }
                ]}
            ]
        }"#);
    let resolved = config.resolve();
    let seen: Vec<(String, String, String, u64, String)> = resolved
        .iter()
        .map(|m| {
            (
                m.project_id.clone(),
                m.site_key.clone(),
                m.url.clone(),
                m.interval.as_secs(),
                m.http_method.clone(),
            )
        })
        .collect();
    let want = |p: &str, s: &str, u: &str, i: u64, h: &str| {
        (p.to_string(), s.to_string(), u.to_string(), i, h.to_string())
    };
    assert_eq!(
        seen,
        vec![
            want("a", "a1", "http://a/1", 60, "HEAD"),
            want("a", "a2", "http://a/2", 5, "HEAD"),
            want("b", "b1", "http://b/1", 60, "POST"),
        ]
    );
}

#[test]
fn expected_body_falls_back_to_the_default() {
    let config = parse(r#"{
            "defaults": {
                "interval_sec": 60, "timeout_sec": 10,
                "expected_body": { "status": "ok" }
            },
            "projects": [{ "id": "p", "monitors": [
                { "site_key": "plain", "url": "http://p/1" },
                { "site_key": "own", "url": "http://p/2", "expected_body": [1, 2] }
            ]}]
        }"#);
    let resolved = config.resolve();
    let ok: Value = serde_json::from_str(r#"{"status":"ok"}"#).unwrap();
    let own: Value = serde_json::from_str("[1,2]").unwrap();
    assert_eq!(resolved[0].expected_body, Some(ok));
    assert_eq!(resolved[1].expected_body, Some(own));
}

#[test]
fn expected_body_is_absent_unless_configured() {
    let config = parse(r#"{
            "defaults": { "interval_sec": 60, "timeout_sec": 10 },
            "projects": [{ "id": "p", "monitors": [
                { "site_key": "s", "url": "http://p/1" }
            ]}]
        }"#);
    assert_eq!(config.resolve()[0].expected_body, None);
}

fn monitor_with_method(site: &str, method: &str) -> ResolvedMonitor {
    ResolvedMonitor {
        project_id: "proj".into(),
        site_key: site.into(),
        url: "http://example.com".into(),
        interval: Duration::from_secs(60),
        timeout: Duration::from_secs(10),
        expected_status_code: 200,
        http_method: method.into(),
        expected_body: None,
    }
}

#[test]
fn known_and_extension_methods_are_valid() {
    let monitors = vec![
        monitor_with_method("a", "GET"),
        monitor_with_method("b", "HEAD"),
        monitor_with_method("c", "OPTIONS"),
        monitor_with_method("d", "PURGE"),
        monitor_with_method("e", "get"),
        monitor_with_method("f", "M-SEARCH"),
        monitor_with_method("g", "A_VERY_LONG_EXTENSION_METHOD_NAME.v2~x"),
    ];
    assert!(validate_methods(&monitors).is_ok());
    assert!(validate_methods(&[]).is_ok());
}

#[test]
fn invalid_method_names_the_first_offender() {
    let monitors = vec![
        monitor_with_method("fine", "GET"),
        monitor_with_method("spaced", "GE T"),
        monitor_with_method("empty", ""),
    ];
    match validate_methods(&monitors) {
        Err(ConfigError::InvalidMethod { project_id, site_key, http_method }) => {
            assert_eq!(project_id, "proj");
            assert_eq!(site_key, "spaced");
            assert_eq!(http_method, "GE T");
        }
        Ok(()) => panic!("an invalid method was accepted"),
    }
}

#[test]
fn methods_outside_the_token_alphabet_are_invalid() {
    for bad in ["", " ", "GET ", "G(T", "GET/1", "G\u{e9}T", "GET\n", "a,b", "\"GET\"", "{}"] {
        let monitors = vec![monitor_with_method("s", bad)];
        assert!(validate_methods(&monitors).is_err(), "accepted {:?}", bad);
    }
    for good in ["!", "#$%&'*+-.^_`|~", "0", "Az09"] {
        let monitors = vec![monitor_with_method("s", good)];
        assert!(validate_methods(&monitors).is_ok(), "refused {:?}", good);
    }
}

#[test]
fn config_error_message_names_method_and_monitor() {
    let err = ConfigError::InvalidMethod {
        project_id: "proj".into(),
        site_key: "site".into(),
        http_method: "GE T".into(),
    };
    assert_eq!(err.message(), "invalid HTTP method 'GE T' for proj/site");
}
