//! When a shift starts: its timestamp, read as a day and an hour in UTC.
//!
//! Timestamps are read by `chrono`. Nothing here is proved about how it reads
//! them; the two functions that call it state what is taken on trust.

use crate::model::{ShiftStart, StartView};
use vstd::prelude::*;

verus! {

/// One of the seven three-letter English abbreviations of a day of the week.
pub open spec fn is_day_abbreviation(day: Seq<char>) -> bool {
    ||| day == "Mon"@
    ||| day == "Tue"@
    ||| day == "Wed"@
    ||| day == "Thu"@
    ||| day == "Fri"@
    ||| day == "Sat"@
    ||| day == "Sun"@
}

/// A day and an hour that a clock can show.
pub open spec fn is_utc_start(at: StartView) -> bool {
    &&& is_day_abbreviation(at.day)
    &&& 0 <= at.hour < 24
}

/// The day and hour, in UTC, that `chrono::DateTime::parse_from_rfc3339`
/// reads from a text; `None` where it rejects the text.
pub uninterp spec fn rfc3339_start(text: Seq<char>) -> Option<StartView>;

/// `at` can be the start of a shift whose timestamp is `text`: the day and
/// hour that the timestamp names, or, where it names none, any day and hour.
pub open spec fn starts_at(text: Seq<char>, at: StartView) -> bool {
    &&& is_utc_start(at)
    &&& rfc3339_start(text) matches Some(read) ==> at == read
}

/// Reads an RFC 3339 timestamp with `chrono::DateTime::parse_from_rfc3339`
/// and moves it to UTC.
///
/// Trusted: the result is `rfc3339_start` of the text, so equal texts are
/// read alike; the day is what `chrono` formats for `%a`, one of the seven
/// English abbreviations, and the hour is what `Timelike::hour` returns,
/// which `chrono` documents as 0 to 23.
#[verifier::external_body]
fn read_rfc3339(text: &str) -> (at: Option<ShiftStart>)
    ensures
        match at {
            Some(start) => rfc3339_start(text@) == Some(start@) && is_utc_start(start@),
            None => rfc3339_start(text@) is None,
        },
{
    match chrono::DateTime::parse_from_rfc3339(text) {
        Ok(parsed) => {
            let utc = parsed.with_timezone(&chrono::Utc);
            Some(ShiftStart { day: utc.format("%a").to_string(), hour: chrono::Timelike::hour(&utc) })
        },
        Err(_) => None,
    }
}

/// Reads the wall clock with `chrono::Utc::now`.
///
/// Trusted: the day is one of the seven English abbreviations and the hour
/// is below 24, as for a timestamp. Which day and hour is not stated: it
/// differs from call to call. `chrono` does not return if the system clock
/// stands before 1970.
#[verifier::external_body]
fn read_clock() -> (at: ShiftStart)
    ensures
        is_utc_start(at@),
{
    let now = chrono::Utc::now();
    ShiftStart { day: now.format("%a").to_string(), hour: chrono::Timelike::hour(&now) }
}

/// The start of a shift from its timestamp. A timestamp that cannot be read
/// is no error: the shift then counts as starting now.
pub fn resolve_start(text: &str) -> (at: ShiftStart)
    ensures
        starts_at(text@, at@),
{
    match read_rfc3339(text) {
        Some(at) => at,
        None => read_clock(),
    }
}

} // verus!
