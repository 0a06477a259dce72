//! Value types shared by the probe classifier, the sinks and the aggregator.

use vstd::prelude::*;
use crate::text::{
    decimal_string, decimal_text, decimal_value, lemma_decimal_round_trip, str_equal,
};
use vstd::string::*;

verus! {

/// Why a probe was judged to be down.
#[derive(Debug, PartialEq, Eq, Structural)]
pub enum ErrorType {
    Timeout,
    ConnectionError,
    UnexpectedStatus,
    UnexpectedBody,
}

impl ErrorType {
    /// The tag under which the error is stored and shown.
    pub open spec fn tag(self) -> Seq<char> {
        match self {
            ErrorType::Timeout => "timeout"@,
            ErrorType::ConnectionError => "connection_error"@,
            ErrorType::UnexpectedStatus => "unexpected_status"@,
            ErrorType::UnexpectedBody => "unexpected_body"@,
        }
    }

    /// The tag of the error as text.
    pub fn as_str(&self) -> (s: &'static str)
        ensures
            s@ == self.tag(),
    {
        match self {
            ErrorType::Timeout => "timeout",
            ErrorType::ConnectionError => "connection_error",
            ErrorType::UnexpectedStatus => "unexpected_status",
            ErrorType::UnexpectedBody => "unexpected_body",
        }
    }

    /// Reads a stored tag back; `None` for text that is no tag.
    pub fn from_tag(text: &str) -> (e: Option<ErrorType>)
        ensures
            match e {
                Some(t) => text@ == t.tag(),
                None => forall|t: ErrorType| text@ != t.tag(),
            },
    {
        if str_equal(text, "timeout") {
            Some(ErrorType::Timeout)
        } else if str_equal(text, "connection_error") {
            Some(ErrorType::ConnectionError)
        } else if str_equal(text, "unexpected_status") {
            Some(ErrorType::UnexpectedStatus)
        } else if str_equal(text, "unexpected_body") {
            Some(ErrorType::UnexpectedBody)
        } else {
            None
        }
    }
}

impl Clone for ErrorType {
    fn clone(&self) -> (e: Self)
        ensures
            e == *self,
    {
        match self {
            ErrorType::Timeout => ErrorType::Timeout,
            ErrorType::ConnectionError => ErrorType::ConnectionError,
            ErrorType::UnexpectedStatus => ErrorType::UnexpectedStatus,
            ErrorType::UnexpectedBody => ErrorType::UnexpectedBody,
        }
    }
}

/// An instant on the UTC time line: whole seconds since the Unix epoch and
/// the nanoseconds into that second.
#[derive(Clone, Copy, Debug, PartialEq, Eq, Structural)]
pub struct Timestamp {
    pub secs: i64,
    pub nanos: u32,
}

/// The outcome of one probe of one monitor.
#[derive(Debug)]
pub struct CheckResult {
    pub project_id: String,
    pub site_key: String,
    pub url: String,
    pub status_code: Option<i16>,
    pub response_ms: i32,
    pub is_up: bool,
    pub error_type: Option<ErrorType>,
    pub error_message: Option<String>,
    pub checked_at: Timestamp,
}

/// Copies an optional string.
pub fn clone_opt_string(s: &Option<String>) -> (c: Option<String>)
    ensures
        c == *s,
{
    match s {
        Some(t) => Some(t.clone()),
        None => None,
    }
}

/// Copies an optional error tag.
pub fn clone_opt_error(e: &Option<ErrorType>) -> (c: Option<ErrorType>)
    ensures
        c == *e,
{
    match e {
        Some(t) => Some(t.clone()),
        None => None,
    }
}

impl Clone for CheckResult {
    fn clone(&self) -> (r: Self)
        ensures
            r == *self,
    {
        CheckResult {
            project_id: self.project_id.clone(),
            site_key: self.site_key.clone(),
            url: self.url.clone(),
            status_code: self.status_code,
            response_ms: self.response_ms,
            is_up: self.is_up,
            error_type: clone_opt_error(&self.error_type),
            error_message: clone_opt_string(&self.error_message),
            checked_at: self.checked_at,
        }
    }
}

/// A result as the contracts see it: each text by its characters.
pub struct CheckResultView {
    pub project_id: Seq<char>,
    pub site_key: Seq<char>,
    pub url: Seq<char>,
    pub status_code: Option<i16>,
    pub response_ms: i32,
    pub is_up: bool,
    pub error_type: Option<ErrorType>,
    pub error_message: Option<Seq<char>>,
    pub checked_at: Timestamp,
}

/// The characters of an optional text.
pub open spec fn opt_text(s: Option<String>) -> Option<Seq<char>> {
    match s {
        Some(t) => Some(t@),
        None => None,
    }
}

impl View for CheckResult {
    type V = CheckResultView;

    open spec fn view(&self) -> CheckResultView {
        CheckResultView {
            project_id: self.project_id@,
            site_key: self.site_key@,
            url: self.url@,
            status_code: self.status_code,
            response_ms: self.response_ms,
            is_up: self.is_up,
            error_type: self.error_type,
            error_message: opt_text(self.error_message),
            checked_at: self.checked_at,
        }
    }
}

impl CheckResultView {
    /// The key under which the result is stored: project and site.
    pub open spec fn key(self) -> (Seq<char>, Seq<char>) {
        (self.project_id, self.site_key)
    }

    /// What every result of a probe satisfies: a response time that is not
    /// negative, and an error recorded exactly when the probe was judged down.
    pub open spec fn wf(self) -> bool {
        &&& self.response_ms >= 0
        &&& self.is_up ==> self.error_type is None && self.error_message is None
        &&& !self.is_up ==> self.error_type is Some && self.error_message is Some
    }
}

/// The number of leading characters of an error message that are kept.
pub const MAX_ERROR_CHARS: usize = 500;

/// The text that opens the truncation marker.
pub open spec fn marker_head() -> Seq<char> {
    "... (truncated, "@
}

/// The text that closes the truncation marker.
pub open spec fn marker_tail() -> Seq<char> {
    " chars)"@
}

/// `body` cut down for storage: unchanged up to `MAX_ERROR_CHARS`
/// characters, else its first `MAX_ERROR_CHARS` characters followed by a
/// marker that gives the number of characters the message had.
pub open spec fn truncated(body: Seq<char>) -> Seq<char> {
    if body.len() <= MAX_ERROR_CHARS {
        body
    } else {
        body.take(MAX_ERROR_CHARS as int) + marker_head() + decimal_text(body.len())
            + marker_tail()
    }
}

/// Cuts a message down for storage: a message of more than
/// `MAX_ERROR_CHARS` characters keeps that many and ends in a marker with
/// the number of characters it had.
pub fn truncate_error_message(body: &str) -> (out: String)
    ensures
        out@ == truncated(body@),
{
    let char_count = body.unicode_len();
    if char_count <= MAX_ERROR_CHARS {
        return String::from_str(body);
    }
    let mut out = String::from_str(body.substring_char(0, MAX_ERROR_CHARS));
    out.append("... (truncated, ");
    let digits = decimal_string(char_count);
    out.append(digits.as_str());
    out.append(" chars)");
    assert(body@.subrange(0, MAX_ERROR_CHARS as int) =~= body@.take(MAX_ERROR_CHARS as int));
    out
}

/// A message of at most `MAX_ERROR_CHARS` characters is kept as it is.
pub proof fn lemma_truncation_keeps_short_messages(body: Seq<char>)
    requires
        body.len() <= MAX_ERROR_CHARS,
    ensures
        truncated(body) == body,
{
}

/// Of a longer message exactly the first `MAX_ERROR_CHARS` characters are
/// kept, and what follows them is the marker with the decimal numeral of
/// the number of characters the message had.
pub proof fn lemma_truncation_cuts_long_messages(body: Seq<char>)
    requires
        body.len() > MAX_ERROR_CHARS,
    ensures
        truncated(body).len() > MAX_ERROR_CHARS,
        truncated(body).take(MAX_ERROR_CHARS as int) == body.take(MAX_ERROR_CHARS as int),
        truncated(body).skip(MAX_ERROR_CHARS as int) == marker_head() + decimal_text(body.len())
            + marker_tail(),
        decimal_value(decimal_text(body.len())) == body.len(),
{
    let kept = body.take(MAX_ERROR_CHARS as int);
    let marker = marker_head() + decimal_text(body.len()) + marker_tail();
    assert(truncated(body) =~= kept + marker);
    assert((kept + marker).take(MAX_ERROR_CHARS as int) =~= kept);
    assert((kept + marker).skip(MAX_ERROR_CHARS as int) =~= marker);
    lemma_decimal_round_trip(body.len());
}

} // verus!
