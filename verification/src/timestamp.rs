//! Timestamps as calendar dates.

use vstd::prelude::*;
use chrono::DateTime;

verus! {

/// What chrono prints for the instant `millis` milliseconds after the Unix
/// epoch, taken in UTC, or `None` where chrono has no date for that instant.
pub uninterp spec fn calendar_text(millis: int) -> Option<Seq<char>>;

/// Calls `DateTime::from_timestamp_millis` of chrono and prints the date it
/// gives through chrono's `Display`. Neither is proved here. The contract
/// claims only that the outcome is a function of `millis`, and names it.
#[verifier::external_body]
fn format_millis(millis: i64) -> (text: Option<String>)
    ensures
        text.deep_view() == calendar_text(millis as int),
{
    match DateTime::from_timestamp_millis(millis) {
        Some(instant) => Some(instant.to_string()),
        None => None,
    }
}

/// The calendar date of a timestamp in seconds, or `None` where the timestamp
/// has no calendar date: its milliseconds do not fit in 64 bits, or chrono has
/// no date for them.
pub open spec fn timestamp_text(secs: int) -> Option<Seq<char>> {
    if i64::MIN <= secs * 1000 <= i64::MAX {
        calendar_text(secs * 1000)
    } else {
        None
    }
}

/// Renders a timestamp in seconds since the Unix epoch as a calendar date.
pub fn render_timestamp(secs: i64) -> (text: Option<String>)
    ensures
        text.deep_view() == timestamp_text(secs as int),
{
    match secs.checked_mul(1000) {
        Some(millis) => format_millis(millis),
        None => None,
    }
}

} // verus!
