//! The current status of a monitor, and how a new result is merged into it.

use crate::models::{
    clone_opt_error, clone_opt_string, opt_text, CheckResult, CheckResultView, ErrorType,
    Timestamp,
};
use vstd::prelude::*;
use vstd::string::*;

verus! {

/// The current status of one monitor: what its latest result said, when
/// that was, and when it was last seen up.
#[derive(Debug)]
pub struct MonitorStatus {
    pub project_id: String,
    pub site_key: String,
    pub url: String,
    pub status_code: Option<i16>,
    pub response_ms: i32,
    pub is_up: bool,
    pub error_type: Option<ErrorType>,
    pub error_message: Option<String>,
    pub last_checked_at: Timestamp,
    pub last_up_at: Option<Timestamp>,
}

/// A status as the contracts see it.
pub struct MonitorStatusView {
    pub project_id: Seq<char>,
    pub site_key: Seq<char>,
    pub url: Seq<char>,
    pub status_code: Option<i16>,
    pub response_ms: i32,
    pub is_up: bool,
    pub error_type: Option<ErrorType>,
    pub error_message: Option<Seq<char>>,
    pub last_checked_at: Timestamp,
    pub last_up_at: Option<Timestamp>,
}

impl View for MonitorStatus {
    type V = MonitorStatusView;

    open spec fn view(&self) -> MonitorStatusView {
        MonitorStatusView {
            project_id: self.project_id@,
            site_key: self.site_key@,
            url: self.url@,
            status_code: self.status_code,
            response_ms: self.response_ms,
            is_up: self.is_up,
            error_type: self.error_type,
            error_message: opt_text(self.error_message),
            last_checked_at: self.last_checked_at,
            last_up_at: self.last_up_at,
        }
    }
}

/// The time a monitor was last seen up, once `result` is merged into a
/// status that had it as `previous`: the time of the result if it is up,
/// and the previous time if it is not.
pub open spec fn merged_last_up(previous: Option<Timestamp>, result: CheckResultView) -> Option<
    Timestamp,
> {
    if result.is_up {
        Some(result.checked_at)
    } else {
        previous
    }
}

/// The time a monitor was last seen up according to `existing`.
pub open spec fn last_up_of(existing: Option<MonitorStatusView>) -> Option<Timestamp> {
    match existing {
        Some(status) => status.last_up_at,
        None => None,
    }
}

/// The status after `result` is merged into `existing`: every descriptive
/// field is that of the result, and only the time last seen up may survive
/// from the status that was there.
pub open spec fn merged(existing: Option<MonitorStatusView>, result: CheckResultView)
    -> MonitorStatusView {
    MonitorStatusView {
        project_id: result.project_id,
        site_key: result.site_key,
        url: result.url,
        status_code: result.status_code,
        response_ms: result.response_ms,
        is_up: result.is_up,
        error_type: result.error_type,
        error_message: result.error_message,
        last_checked_at: result.checked_at,
        last_up_at: merged_last_up(last_up_of(existing), result),
    }
}

/// Merges a result into the status of its monitor; `existing` is the status
/// that is there, if any.
pub fn merge_status(existing: Option<&MonitorStatus>, result: &CheckResult) -> (status:
    MonitorStatus)
    ensures
        status@ == merged(
            match existing {
                Some(e) => Some(e@),
                None => None,
            },
            result@,
        ),
{
    let last_up_at = if result.is_up {
        Some(result.checked_at)
    } else {
        match existing {
            Some(e) => e.last_up_at,
            None => None,
        }
    };
    MonitorStatus {
        project_id: result.project_id.clone(),
        site_key: result.site_key.clone(),
        url: result.url.clone(),
        status_code: result.status_code,
        response_ms: result.response_ms,
        is_up: result.is_up,
        error_type: clone_opt_error(&result.error_type),
        error_message: clone_opt_string(&result.error_message),
        last_checked_at: result.checked_at,
        last_up_at,
    }
}

/// The status of a monitor after its results `history` were merged one
/// after the other, starting from no status.
pub open spec fn status_after(history: Seq<CheckResultView>) -> Option<MonitorStatusView>
    decreases history.len(),
{
    if history.len() == 0 {
        None
    } else {
        Some(merged(status_after(history.drop_last()), history.last()))
    }
}

/// The time of the latest result in `history` that is up, if there is one.
pub open spec fn latest_up(history: Seq<CheckResultView>) -> Option<Timestamp>
    decreases history.len(),
{
    if history.len() == 0 {
        None
    } else if history.last().is_up {
        Some(history.last().checked_at)
    } else {
        latest_up(history.drop_last())
    }
}

/// A failing result leaves the time last seen up as it was; a result that
/// is up sets it to the time of that result.
pub proof fn lemma_merge_last_up(existing: Option<MonitorStatusView>, result: CheckResultView)
    ensures
        !result.is_up ==> merged(existing, result).last_up_at == last_up_of(existing),
        result.is_up ==> merged(existing, result).last_up_at == Some(result.checked_at),
        merged(existing, result).last_checked_at == result.checked_at,
{
}

/// After any history of results the status shows the latest result, and
/// its time last seen up is the time of the latest result that was up: no
/// failing result ever overwrites it.
pub proof fn lemma_last_up_is_latest_up(history: Seq<CheckResultView>)
    requires
        history.len() > 0,
    ensures
        status_after(history) is Some,
        status_after(history)->0.last_up_at == latest_up(history),
        status_after(history)->0.last_checked_at == history.last().checked_at,
        status_after(history)->0.is_up == history.last().is_up,
    decreases history.len(),
{
    if history.len() > 1 {
        lemma_last_up_is_latest_up(history.drop_last());
    } else {
        assert(status_after(history.drop_last()) is None);
        assert(latest_up(history.drop_last()) is None);
    }
}

} // verus!
