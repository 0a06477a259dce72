//! The core of an uptime monitor.
//!
//! Monitors are probed on a schedule, each probe is judged up or down, the
//! result is kept as the current status of its monitor, and the history of
//! results is folded into hourly and daily summaries. This library holds the
//! rules of all that, stated as contracts and proved; the program around it
//! sends the requests, talks to the database and serves the API.
//!
//! - [`config`]: the configured monitors and their resolution against defaults.
//! - [`scheduler`]: the start-up stagger and the loop of one monitor.
//! - [`monitor`]: from the outcome of a request to the result of a probe.
//! - [`status`]: merging a result into the current status of its monitor.
//! - [`cache`]: the latest result of each monitor, kept in memory.
//! - [`history`]: checks counted by hour and by day.
//! - [`summary`]: hourly rows folded into day-records.
//! - [`api`]: the rules of the read-only API.
//! - [`models`], [`text`], [`json`], [`span`]: the values these work on.

pub mod api;
pub mod cache;
pub mod config;
pub mod history;
pub mod json;
pub mod models;
pub mod monitor;
pub mod scheduler;
pub mod span;
pub mod status;
pub mod summary;
pub mod text;
