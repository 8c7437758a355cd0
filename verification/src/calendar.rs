//! The calendar check behind datetime values: a timestamp is only accepted
//! when the calendar maps it to exactly one instant.

use chrono::offset::{LocalResult, TimeZone};
use vstd::prelude::*;

verus! {

/// Whether the UTC calendar has exactly one instant for the given
/// seconds-and-nanoseconds timestamp. The answer is a function of the two
/// numbers alone.
pub uninterp spec fn utc_in_range(secs: int, nanos: int) -> bool;

/// Outcome of looking a timestamp up in the calendar.
#[derive(Clone, Copy, Debug, PartialEq, Eq, Structural)]
pub enum CalendarCheck {
    Unique,
    Missing,
    Ambiguous,
}

/// Relies on chrono's `TimeZone::timestamp_opt` for `Utc`: it returns
/// `Single` for an in-range timestamp, `None` for an out-of-range one, and
/// never `Ambiguous` (an absolute UTC instant has no second reading).
#[verifier::external_body]
pub fn utc_timestamp_check(secs: i64, nanos: u32) -> (r: CalendarCheck)
    ensures
        r is Unique <==> utc_in_range(secs as int, nanos as int),
        !(r is Ambiguous),
{
    match chrono::Utc.timestamp_opt(secs, nanos) {
        LocalResult::Single(_) => CalendarCheck::Unique,
        LocalResult::None => CalendarCheck::Missing,
        LocalResult::Ambiguous(_, _) => CalendarCheck::Ambiguous,
    }
}

} // verus!
