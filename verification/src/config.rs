//! Monitor configuration and its resolution against shared defaults.

use crate::json::clone_json;
use crate::span::duration_nanos;
use serde_json::Value;
use std::time::Duration;
use vstd::prelude::*;
use vstd::string::*;

verus! {

/// The whole configuration: shared defaults and the projects to watch.
pub struct Config {
    pub defaults: Defaults,
    pub retention_days: u32,
    pub projects: Vec<Project>,
}

/// Values a monitor falls back to when it leaves a field out.
pub struct Defaults {
    pub interval_sec: u64,
    pub timeout_sec: u64,
    pub expected_status_code: u16,
    pub http_method: String,
    pub expected_body: Option<Value>,
}

/// A project and the monitors that belong to it.
pub struct Project {
    pub id: String,
    pub monitors: Vec<Monitor>,
}

/// One monitor as configured; an absent field takes the shared default.
pub struct Monitor {
    pub site_key: String,
    pub url: String,
    pub interval_sec: Option<u64>,
    pub timeout_sec: Option<u64>,
    pub expected_status_code: Option<u16>,
    pub http_method: Option<String>,
    pub expected_body: Option<Value>,
}

/// A monitor with every field settled.
pub struct ResolvedMonitor {
    pub project_id: String,
    pub site_key: String,
    pub url: String,
    pub interval: Duration,
    pub timeout: Duration,
    pub expected_status_code: u16,
    pub http_method: String,
    pub expected_body: Option<Value>,
}

/// A resolved monitor as the contracts see it: texts by their characters,
/// spans by their nanoseconds.
pub struct ResolvedMonitorView {
    pub project_id: Seq<char>,
    pub site_key: Seq<char>,
    pub url: Seq<char>,
    pub interval_nanos: nat,
    pub timeout_nanos: nat,
    pub expected_status_code: u16,
    pub http_method: Seq<char>,
    pub expected_body: Option<Value>,
}

impl View for ResolvedMonitor {
    type V = ResolvedMonitorView;

    open spec fn view(&self) -> ResolvedMonitorView {
        ResolvedMonitorView {
            project_id: self.project_id@,
            site_key: self.site_key@,
            url: self.url@,
            interval_nanos: duration_nanos(self.interval),
            timeout_nanos: duration_nanos(self.timeout),
            expected_status_code: self.expected_status_code,
            http_method: self.http_method@,
            expected_body: self.expected_body,
        }
    }
}

/// The retention period, in days, of a configuration that names none.
pub fn default_retention_days() -> (days: u32)
    ensures
        days == 90,
{
    90
}

/// The status code a monitor expects when neither it nor the defaults say.
pub fn default_status_code() -> (code: u16)
    ensures
        code == 200,
{
    200
}

/// The request method used when neither a monitor nor the defaults say.
pub fn default_http_method() -> (method: String)
    ensures
        method@ == "GET"@,
{
    String::from_str("GET")
}

/// The port the API listens on when the environment names none.
pub fn default_api_port() -> (port: u16)
    ensures
        port == 3000,
{
    3000
}

/// `given` if it is there, else `fallback`.
pub open spec fn or_default<T>(given: Option<T>, fallback: T) -> T {
    match given {
        Some(v) => v,
        None => fallback,
    }
}

/// The monitor `m` of project `project_id`, each absent field taken from
/// `defaults`.
pub open spec fn resolved(defaults: Defaults, project_id: Seq<char>, m: Monitor)
    -> ResolvedMonitorView {
    ResolvedMonitorView {
        project_id,
        site_key: m.site_key@,
        url: m.url@,
        interval_nanos: or_default(m.interval_sec, defaults.interval_sec) as nat * 1_000_000_000,
        timeout_nanos: or_default(m.timeout_sec, defaults.timeout_sec) as nat * 1_000_000_000,
        expected_status_code: or_default(m.expected_status_code, defaults.expected_status_code),
        http_method: match m.http_method {
            Some(method) => method@,
            None => defaults.http_method@,
        },
        expected_body: match m.expected_body {
            Some(body) => Some(body),
            None => defaults.expected_body,
        },
    }
}

/// The monitors of one project, resolved, in their configured order.
pub open spec fn resolved_project(defaults: Defaults, p: Project) -> Seq<ResolvedMonitorView> {
    Seq::new(p.monitors@.len(), |i: int| resolved(defaults, p.id@, p.monitors@[i]))
}

/// The monitors of the first `n` projects, resolved: project after project,
/// each project's monitors in their configured order.
pub open spec fn resolved_prefix(defaults: Defaults, projects: Seq<Project>, n: nat) -> Seq<
    ResolvedMonitorView,
>
    decreases n,
{
    if n == 0 {
        Seq::empty()
    } else {
        resolved_prefix(defaults, projects, (n - 1) as nat) + resolved_project(
            defaults,
            projects[n - 1],
        )
    }
}

/// The views of a list of resolved monitors.
pub open spec fn monitor_views(monitors: Seq<ResolvedMonitor>) -> Seq<ResolvedMonitorView> {
    Seq::new(monitors.len(), |i: int| monitors[i]@)
}

/// Copies an optional document.
fn clone_opt_json(v: &Option<Value>) -> (c: Option<Value>)
    ensures
        c == *v,
{
    match v {
        Some(doc) => Some(clone_json(doc)),
        None => None,
    }
}

impl Config {
    /// The flat list of monitors: every monitor of every project, in
    /// configured order, with the defaults filled in.
    pub fn resolve(self) -> (out: Vec<ResolvedMonitor>)
        ensures
            monitor_views(out@) == resolved_prefix(
                self.defaults,
                self.projects@,
                self.projects@.len(),
            ),
    {
        let mut out: Vec<ResolvedMonitor> = Vec::new();
        let mut i: usize = 0;
        while i < self.projects.len()
            invariant
                i <= self.projects@.len(),
                monitor_views(out@) == resolved_prefix(self.defaults, self.projects@, i as nat),
            decreases self.projects@.len() - i,
        {
            let project = &self.projects[i];
            let ghost before = monitor_views(out@);
            let mut j: usize = 0;
            while j < project.monitors.len()
                invariant
                    j <= project.monitors@.len(),
                    monitor_views(out@) == before + resolved_project(self.defaults, *project).take(
                        j as int,
                    ),
                decreases project.monitors@.len() - j,
            {
                let m = &project.monitors[j];
                let resolved_monitor = resolve_monitor(&self.defaults, &project.id, m);
                let ghost prev = out@;
                out.push(resolved_monitor);
                assert(monitor_views(out@) =~= monitor_views(prev).push(resolved_monitor@));
                assert(resolved_project(self.defaults, *project).take(j as int + 1)
                    =~= resolved_project(self.defaults, *project).take(j as int).push(
                    resolved(self.defaults, project.id@, *m),
                ));
                j += 1;
            }
            assert(resolved_project(self.defaults, *project).take(j as int)
                =~= resolved_project(self.defaults, *project));
            i += 1;
        }
        out
    }
}

/// Resolves one monitor of project `project_id` against `defaults`.
pub fn resolve_monitor(defaults: &Defaults, project_id: &String, m: &Monitor) -> (out:
    ResolvedMonitor)
    ensures
        out@ == resolved(*defaults, project_id@, *m),
{
    let interval_sec = match m.interval_sec {
        Some(s) => s,
        None => defaults.interval_sec,
    };
    let timeout_sec = match m.timeout_sec {
        Some(s) => s,
        None => defaults.timeout_sec,
    };
    let expected_status_code = match m.expected_status_code {
        Some(c) => c,
        None => defaults.expected_status_code,
    };
    let http_method = match &m.http_method {
        Some(method) => method.clone(),
        None => defaults.http_method.clone(),
    };
    let expected_body = match &m.expected_body {
        Some(body) => Some(clone_json(body)),
        None => clone_opt_json(&defaults.expected_body),
    };
    ResolvedMonitor {
        project_id: project_id.clone(),
        site_key: m.site_key.clone(),
        url: m.url.clone(),
        interval: Duration::from_secs(interval_sec),
        timeout: Duration::from_secs(timeout_sec),
        expected_status_code,
        http_method,
        expected_body,
    }
}

/// Whether `c` may stand in the name of a request method: a letter, a
/// digit, or one of the marks that a token may hold.
pub open spec fn is_method_char(c: char) -> bool {
    ||| 'a' <= c <= 'z'
    ||| 'A' <= c <= 'Z'
    ||| '0' <= c <= '9'
    ||| c == '!'
    ||| c == '#'
    ||| c == '$'
    ||| c == '%'
    ||| c == '&'
    ||| c == '\''
    ||| c == '*'
    ||| c == '+'
    ||| c == '-'
    ||| c == '.'
    ||| c == '^'
    ||| c == '_'
    ||| c == '`'
    ||| c == '|'
    ||| c == '~'
}

/// Whether `text` names a request method: it is not empty, and each of its
/// characters may stand in such a name.
pub open spec fn is_http_method(text: Seq<char>) -> bool {
    text.len() > 0 && forall|i: int| 0 <= i < text.len() ==> is_method_char(#[trigger] text[i])
}

/// Parses `text` as a `reqwest::Method` (`Method::from_str`) and says
/// whether that succeeded. Assumed: the parser accepts exactly the non-empty
/// texts made of token characters, as its table of method characters lays
/// down.
#[verifier::external_body]
pub(crate) fn method_parses(text: &str) -> (ok: bool)
    ensures
        ok == is_http_method(text@),
{
    text.parse::<reqwest::Method>().is_ok()
}

/// A configuration that cannot be run.
#[derive(Debug)]
pub enum ConfigError {
    /// The monitor `site_key` of project `project_id` names `http_method`,
    /// which is no request method.
    InvalidMethod { project_id: String, site_key: String, http_method: String },
}

impl ConfigError {
    /// The error in words.
    pub fn message(&self) -> (text: String)
        ensures
            match *self {
                ConfigError::InvalidMethod { project_id, site_key, http_method } => text@
                    == "invalid HTTP method '"@ + http_method@ + "' for "@ + project_id@ + "/"@
                    + site_key@,
            },
    {
        match self {
            ConfigError::InvalidMethod { project_id, site_key, http_method } => {
                let mut text = String::from_str("invalid HTTP method '");
                text.append(http_method.as_str());
                text.append("' for ");
                text.append(project_id.as_str());
                text.append("/");
                text.append(site_key.as_str());
                text
            },
        }
    }
}

/// Checks, before anything is scheduled, that every monitor names a
/// request method. The error names the first monitor that does not.
pub fn validate_methods(monitors: &[ResolvedMonitor]) -> (checked: Result<(), ConfigError>)
    ensures
        checked is Ok <==> forall|i: int|
            0 <= i < monitors@.len() ==> is_http_method(#[trigger] monitors@[i].http_method@),
        checked matches Err(ConfigError::InvalidMethod { project_id, site_key, http_method })
            ==> exists|i: int|
            0 <= i < monitors@.len() && !is_http_method(#[trigger] monitors@[i].http_method@)
                && (forall|j: int|
                0 <= j < i ==> is_http_method(#[trigger] monitors@[j].http_method@))
                && project_id@ == monitors@[i].project_id@ && site_key@ == monitors@[i].site_key@
                && http_method@ == monitors@[i].http_method@,
{
    let mut i: usize = 0;
    while i < monitors.len()
        invariant
            i <= monitors@.len(),
            forall|j: int| 0 <= j < i ==> is_http_method(#[trigger] monitors@[j].http_method@),
        decreases monitors@.len() - i,
    {
        let m = &monitors[i];
        if !method_parses(m.http_method.as_str()) {
            return Err(
                ConfigError::InvalidMethod {
                    project_id: m.project_id.clone(),
                    site_key: m.site_key.clone(),
                    http_method: m.http_method.clone(),
                },
            );
        }
        i += 1;
    }
    Ok(())
}

} // verus!
