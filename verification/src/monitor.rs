//! From what a request came to, to the result of the probe.

use crate::config::{ResolvedMonitor, ResolvedMonitorView};
use crate::json::{json_equal, json_parsed, json_rendered, json_same, parse_json, render_json};
use crate::models::{
    opt_text, truncate_error_message, truncated, CheckResult, CheckResultView, ErrorType,
    Timestamp,
};
use serde_json::Value;
use vstd::prelude::*;
use vstd::string::*;

verus! {

/// The most bytes of a response body that are read.
pub const BODY_READ_LIMIT: usize = 2048;

/// What the one request of a probe came to.
pub enum ProbeOutcome {
    /// No response arrived; `timed_out` tells a timeout from other failures.
    Failed { timed_out: bool, description: String },
    /// A response arrived, but its body could not be read.
    BodyUnreadable { status: u16, description: String },
    /// A response arrived and its body was read.
    Responded { status: u16, body: String },
}

/// An outcome as the contracts see it.
pub enum ProbeOutcomeView {
    Failed { timed_out: bool, description: Seq<char> },
    BodyUnreadable { status: u16, description: Seq<char> },
    Responded { status: u16, body: Seq<char> },
}

impl View for ProbeOutcome {
    type V = ProbeOutcomeView;

    open spec fn view(&self) -> ProbeOutcomeView {
        match *self {
            ProbeOutcome::Failed { timed_out, description } => ProbeOutcomeView::Failed {
                timed_out,
                description: description@,
            },
            ProbeOutcome::BodyUnreadable { status, description } => {
                ProbeOutcomeView::BodyUnreadable { status, description: description@ }
            },
            ProbeOutcome::Responded { status, body } => ProbeOutcomeView::Responded {
                status,
                body: body@,
            },
        }
    }
}

/// How a response body compares with the body a monitor expects.
pub enum BodyVerdict {
    /// The monitor expects no particular body.
    NotChecked,
    /// The body is the expected document.
    Matches,
    /// The body is another document; `actual` is that document written out.
    Differs { actual: String },
    /// The body is no JSON document.
    NotJson,
}

/// A verdict as the contracts see it.
pub enum BodyVerdictView {
    NotChecked,
    Matches,
    Differs { actual: Seq<char> },
    NotJson,
}

impl View for BodyVerdict {
    type V = BodyVerdictView;

    open spec fn view(&self) -> BodyVerdictView {
        match *self {
            BodyVerdict::NotChecked => BodyVerdictView::NotChecked,
            BodyVerdict::Matches => BodyVerdictView::Matches,
            BodyVerdict::Differs { actual } => BodyVerdictView::Differs { actual: actual@ },
            BodyVerdict::NotJson => BodyVerdictView::NotJson,
        }
    }
}

/// The verdict on `body` for a monitor that expects `expected`.
pub open spec fn body_verdict(expected: Option<Value>, body: Seq<char>) -> BodyVerdictView {
    match expected {
        None => BodyVerdictView::NotChecked,
        Some(want) => match json_parsed(body) {
            None => BodyVerdictView::NotJson,
            Some(got) => if json_same(got, want) {
                BodyVerdictView::Matches
            } else {
                BodyVerdictView::Differs { actual: json_rendered(got) }
            },
        },
    }
}

/// Compares a response body with the expected one.
pub fn judge_body(expected: &Option<Value>, body: &str) -> (verdict: BodyVerdict)
    ensures
        verdict@ == body_verdict(*expected, body@),
{
    match expected {
        None => BodyVerdict::NotChecked,
        Some(want) => match parse_json(body) {
            None => BodyVerdict::NotJson,
            Some(got) => {
                if json_equal(&got, want) {
                    BodyVerdict::Matches
                } else {
                    BodyVerdict::Differs { actual: render_json(&got) }
                }
            },
        },
    }
}

/// Whether a probe is up, and if not, why.
pub struct Judgement {
    pub is_up: bool,
    pub error_type: Option<ErrorType>,
    pub error_message: Option<String>,
}

/// A judgement as the contracts see it.
pub struct JudgementView {
    pub is_up: bool,
    pub error_type: Option<ErrorType>,
    pub error_message: Option<Seq<char>>,
}

impl View for Judgement {
    type V = JudgementView;

    open spec fn view(&self) -> JudgementView {
        JudgementView {
            is_up: self.is_up,
            error_type: self.error_type,
            error_message: opt_text(self.error_message),
        }
    }
}

/// The judgement "up".
pub open spec fn judged_up() -> JudgementView {
    JudgementView { is_up: true, error_type: None, error_message: None }
}

/// The judgement "down" for the reason `error` with the message `message`.
pub open spec fn judged_down(error: ErrorType, message: Seq<char>) -> JudgementView {
    JudgementView { is_up: false, error_type: Some(error), error_message: Some(message) }
}

/// The judgement on a response: a status other than the expected one is an
/// unexpected status, reported with the shortened body; with the expected
/// status the verdict on the body decides.
pub open spec fn judged_response(
    expected_status: u16,
    status: u16,
    body: Seq<char>,
    verdict: BodyVerdictView,
) -> JudgementView {
    if status != expected_status {
        judged_down(ErrorType::UnexpectedStatus, truncated(body))
    } else {
        match verdict {
            BodyVerdictView::NotChecked => judged_up(),
            BodyVerdictView::Matches => judged_up(),
            BodyVerdictView::Differs { actual } => judged_down(
                ErrorType::UnexpectedBody,
                truncated(actual),
            ),
            BodyVerdictView::NotJson => judged_down(ErrorType::UnexpectedBody, truncated(body)),
        }
    }
}

/// Judges a response from its status, its body and the verdict on the body.
pub fn classify_response(expected_status: u16, status: u16, body: &str, verdict: BodyVerdict) -> (j:
    Judgement)
    ensures
        j@ == judged_response(expected_status, status, body@, verdict@),
{
    if status != expected_status {
        return Judgement {
            is_up: false,
            error_type: Some(ErrorType::UnexpectedStatus),
            error_message: Some(truncate_error_message(body)),
        };
    }
    match verdict {
        BodyVerdict::NotChecked => Judgement { is_up: true, error_type: None, error_message: None },
        BodyVerdict::Matches => Judgement { is_up: true, error_type: None, error_message: None },
        BodyVerdict::Differs { actual } => Judgement {
            is_up: false,
            error_type: Some(ErrorType::UnexpectedBody),
            error_message: Some(truncate_error_message(actual.as_str())),
        },
        BodyVerdict::NotJson => Judgement {
            is_up: false,
            error_type: Some(ErrorType::UnexpectedBody),
            error_message: Some(truncate_error_message(body)),
        },
    }
}

/// The status code as it is stored: the sixteen bits of `status` read as a
/// signed number.
pub open spec fn stored_status(status: u16) -> i16 {
    if status <= i16::MAX {
        status as i16
    } else {
        (status - 0x1_0000) as i16
    }
}

/// The status code of a response in the form in which it is stored.
pub fn status_code_of(status: u16) -> (code: i16)
    ensures
        code == stored_status(status),
{
    if status <= 0x7fff {
        status as i16
    } else {
        (status as i32 - 0x1_0000) as i16
    }
}

/// The response time that is stored for a probe that took `elapsed_ms`
/// milliseconds: the time itself, capped at the largest `i32`.
pub open spec fn capped_ms(elapsed_ms: u128) -> i32 {
    if elapsed_ms > i32::MAX {
        i32::MAX
    } else {
        elapsed_ms as i32
    }
}

/// Caps an elapsed time in milliseconds for storage.
pub fn cap_response_ms(elapsed_ms: u128) -> (ms: i32)
    ensures
        ms == capped_ms(elapsed_ms),
        ms >= 0,
{
    if elapsed_ms > 0x7fff_ffff {
        i32::MAX
    } else {
        elapsed_ms as i32
    }
}

/// The text that opens the message of a response whose body was not read.
pub open spec fn unreadable_head() -> Seq<char> {
    "failed to read response body: "@
}

/// The judgement on an outcome for a monitor that expects the status
/// `expected_status` and the body `expected_body`.
pub open spec fn judged(
    expected_status: u16,
    expected_body: Option<Value>,
    outcome: ProbeOutcomeView,
) -> JudgementView {
    match outcome {
        ProbeOutcomeView::Failed { timed_out, description } => judged_down(
            if timed_out {
                ErrorType::Timeout
            } else {
                ErrorType::ConnectionError
            },
            description,
        ),
        ProbeOutcomeView::BodyUnreadable { description, .. } => judged_down(
            ErrorType::ConnectionError,
            unreadable_head() + description,
        ),
        ProbeOutcomeView::Responded { status, body } => judged_response(
            expected_status,
            status,
            body,
            body_verdict(expected_body, body),
        ),
    }
}

/// The status code that is stored for an outcome: that of the response, and
/// none where no response arrived.
pub open spec fn outcome_status(outcome: ProbeOutcomeView) -> Option<i16> {
    match outcome {
        ProbeOutcomeView::Failed { .. } => None,
        ProbeOutcomeView::BodyUnreadable { status, .. } => Some(stored_status(status)),
        ProbeOutcomeView::Responded { status, .. } => Some(stored_status(status)),
    }
}

/// The result of a probe of `monitor` that came to `outcome` after
/// `elapsed_ms` milliseconds and was finished at `checked_at`.
pub open spec fn concluded(
    monitor: ResolvedMonitorView,
    outcome: ProbeOutcomeView,
    elapsed_ms: u128,
    checked_at: Timestamp,
) -> CheckResultView {
    let j = judged(monitor.expected_status_code, monitor.expected_body, outcome);
    CheckResultView {
        project_id: monitor.project_id,
        site_key: monitor.site_key,
        url: monitor.url,
        status_code: outcome_status(outcome),
        response_ms: capped_ms(elapsed_ms),
        is_up: j.is_up,
        error_type: j.error_type,
        error_message: j.error_message,
        checked_at,
    }
}

/// Judges an outcome against what the monitor expects.
pub fn judge_outcome(expected_status: u16, expected_body: &Option<Value>, outcome: &ProbeOutcome)
    -> (j: Judgement)
    ensures
        j@ == judged(expected_status, *expected_body, outcome@),
{
    match outcome {
        ProbeOutcome::Failed { timed_out, description } => {
            let error = if *timed_out {
                ErrorType::Timeout
            } else {
                ErrorType::ConnectionError
            };
            Judgement {
                is_up: false,
                error_type: Some(error),
                error_message: Some(description.clone()),
            }
        },
        ProbeOutcome::BodyUnreadable { description, .. } => {
            let mut message = String::from_str("failed to read response body: ");
            message.append(description.as_str());
            Judgement {
                is_up: false,
                error_type: Some(ErrorType::ConnectionError),
                error_message: Some(message),
            }
        },
        ProbeOutcome::Responded { status, body } => {
            let verdict = if *status == expected_status {
                judge_body(expected_body, body.as_str())
            } else {
                BodyVerdict::NotChecked
            };
            classify_response(expected_status, *status, body.as_str(), verdict)
        },
    }
}

/// Turns the outcome of a request into the result of the probe. Every
/// outcome gives a result; none is an error of the caller.
pub fn conclude_check(
    monitor: &ResolvedMonitor,
    outcome: &ProbeOutcome,
    elapsed_ms: u128,
    checked_at: Timestamp,
) -> (result: CheckResult)
    ensures
        result@ == concluded(monitor@, outcome@, elapsed_ms, checked_at),
        result@.wf(),
{
    let j = judge_outcome(monitor.expected_status_code, &monitor.expected_body, outcome);
    let status_code = match outcome {
        ProbeOutcome::Failed { .. } => None,
        ProbeOutcome::BodyUnreadable { status, .. } => Some(status_code_of(*status)),
        ProbeOutcome::Responded { status, .. } => Some(status_code_of(*status)),
    };
    CheckResult {
        project_id: monitor.project_id.clone(),
        site_key: monitor.site_key.clone(),
        url: monitor.url.clone(),
        status_code,
        response_ms: cap_response_ms(elapsed_ms),
        is_up: j.is_up,
        error_type: j.error_type,
        error_message: j.error_message,
        checked_at,
    }
}

/// A probe is up only where a response with the expected status arrived;
/// a response with another status is an unexpected status whose message is
/// the shortened body; and where no response arrived there is no status
/// code, and the error is a timeout exactly when the request timed out.
pub proof fn lemma_classification(
    monitor: ResolvedMonitorView,
    outcome: ProbeOutcomeView,
    elapsed_ms: u128,
    checked_at: Timestamp,
)
    ensures
        ({
            let r = concluded(monitor, outcome, elapsed_ms, checked_at);
            &&& r.wf()
            &&& match outcome {
                ProbeOutcomeView::Responded { status, body } => {
                    &&& r.status_code == Some(stored_status(status))
                    &&& r.is_up ==> status == monitor.expected_status_code
                    &&& status != monitor.expected_status_code ==> r.error_type == Some(
                        ErrorType::UnexpectedStatus,
                    ) && r.error_message == Some(truncated(body))
                    &&& status == monitor.expected_status_code && monitor.expected_body is None
                        ==> r.is_up
                },
                ProbeOutcomeView::BodyUnreadable { status, .. } => {
                    &&& !r.is_up
                    &&& r.status_code == Some(stored_status(status))
                    &&& r.error_type == Some(ErrorType::ConnectionError)
                },
                ProbeOutcomeView::Failed { timed_out, description } => {
                    &&& !r.is_up
                    &&& r.status_code is None
                    &&& r.error_message == Some(description)
                    &&& r.error_type == Some(
                        if timed_out {
                            ErrorType::Timeout
                        } else {
                            ErrorType::ConnectionError
                        },
                    )
                },
            }
        }),
{
}

/// Adds `chunk` to what was read of a body, keeping at most `limit` bytes
/// in all; says whether the limit is reached.
pub fn append_bounded(buf: &mut Vec<u8>, chunk: &[u8], limit: usize) -> (full: bool)
    ensures
        old(buf)@.len() >= limit ==> final(buf)@ == old(buf)@,
        old(buf)@.len() < limit && old(buf)@.len() + chunk@.len() <= limit ==> final(buf)@
            == old(buf)@ + chunk@,
        old(buf)@.len() < limit && old(buf)@.len() + chunk@.len() > limit ==> final(buf)@ == (
        old(buf)@ + chunk@).take(limit as int),
        full == (final(buf)@.len() >= limit),
{
    let mut i: usize = 0;
    while i < chunk.len() && buf.len() < limit
        invariant
            i <= chunk@.len(),
            old(buf)@.len() >= limit ==> i == 0,
            buf@ == old(buf)@ + chunk@.take(i as int),
            old(buf)@.len() < limit ==> buf@.len() <= limit,
        decreases chunk@.len() - i,
    {
        buf.push(chunk[i]);
        assert(chunk@.take(i as int + 1) =~= chunk@.take(i as int).push(chunk@[i as int]));
        i += 1;
    }
    proof {
        if old(buf)@.len() >= limit {
            assert(chunk@.take(0) =~= Seq::<u8>::empty());
            assert(buf@ =~= old(buf)@);
        } else if old(buf)@.len() + chunk@.len() <= limit {
            assert(chunk@.take(i as int) =~= chunk@);
        } else {
            assert(buf@ =~= (old(buf)@ + chunk@).take(limit as int));
        }
    }
    buf.len() >= limit
}

} // verus!
