//! The rules of the read-only API that do not depend on how it is served.

use crate::text::str_equal;
use vstd::prelude::*;

verus! {

/// The number of days a summary covers when the request names none.
pub const DEFAULT_SUMMARY_DAYS: i32 = 7;

/// The fewest days a summary covers.
pub const MIN_SUMMARY_DAYS: i32 = 1;

/// The most days a summary covers.
pub const MAX_SUMMARY_DAYS: i32 = 90;

/// The number of days a summary covers for a request that asks for
/// `requested` days: the default where it asks for none, and else what it
/// asks for, brought into the allowed range.
pub open spec fn window_days(requested: Option<i32>) -> int {
    let asked = match requested {
        Some(days) => days,
        None => DEFAULT_SUMMARY_DAYS,
    };
    if asked < MIN_SUMMARY_DAYS {
        MIN_SUMMARY_DAYS as int
    } else if asked > MAX_SUMMARY_DAYS {
        MAX_SUMMARY_DAYS as int
    } else {
        asked as int
    }
}

/// The number of days a summary covers.
pub fn summary_days(requested: Option<i32>) -> (days: i32)
    ensures
        days == window_days(requested),
        MIN_SUMMARY_DAYS <= days <= MAX_SUMMARY_DAYS,
{
    let asked = match requested {
        Some(days) => days,
        None => DEFAULT_SUMMARY_DAYS,
    };
    if asked < MIN_SUMMARY_DAYS {
        MIN_SUMMARY_DAYS
    } else if asked > MAX_SUMMARY_DAYS {
        MAX_SUMMARY_DAYS
    } else {
        asked
    }
}

/// Whether a request may pass: it presents a credential, and that is the
/// shared secret.
pub fn credential_accepted(presented: Option<&str>, secret: &str) -> (accepted: bool)
    ensures
        accepted == match presented {
            Some(key) => key@ == secret@,
            None => false,
        },
{
    match presented {
        Some(key) => str_equal(key, secret),
        None => false,
    }
}

} // verus!
