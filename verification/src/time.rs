//! Timestamps of files as calendar dates.

use chrono::NaiveDateTime;
use vstd::prelude::*;

verus! {

/// A date and time of the `chrono` crate, without a time zone.
#[verifier::external_type_specification]
#[verifier::external_body]
pub struct ExNaiveDateTime(chrono::NaiveDateTime);

/// The date and time that `chrono::NaiveDateTime::from_timestamp_opt` makes of
/// a number of whole seconds since the Unix epoch; `None` for a number that
/// chrono cannot represent.
pub uninterp spec fn datetime_at(secs: i64) -> Option<NaiveDateTime>;

/// Calls `chrono::NaiveDateTime::from_timestamp_opt` with no nanoseconds. The
/// result is named by [`datetime_at`].
#[verifier::external_body]
#[allow(deprecated)]
fn from_timestamp(secs: i64) -> (r: Option<NaiveDateTime>)
    ensures
        r == datetime_at(secs),
{
    NaiveDateTime::from_timestamp_opt(secs, 0)
}

/// Why a number of seconds has no date.
#[derive(Clone, Copy, Debug, PartialEq, Eq, Structural)]
pub enum TimeError {
    /// The number does not fit a signed 64-bit integer.
    TooLarge,
    /// The date lies outside the range of the calendar.
    OutOfRange,
}

/// The date and time of a number of seconds since the Unix epoch.
pub open spec fn time_of(secs: u64) -> Result<NaiveDateTime, TimeError> {
    if secs > i64::MAX {
        Err(TimeError::TooLarge)
    } else {
        match datetime_at(secs as i64) {
            Some(t) => Ok(t),
            None => Err(TimeError::OutOfRange),
        }
    }
}

/// Turns the seconds since the Unix epoch, as a file's modification time
/// gives them, into a date and time.
pub fn timestamp(secs: u64) -> (r: Result<NaiveDateTime, TimeError>)
    ensures
        r == time_of(secs),
{
    if secs > 0x7fff_ffff_ffff_ffffu64 {
        return Err(TimeError::TooLarge);
    }
    match from_timestamp(secs as i64) {
        Some(t) => Ok(t),
        None => Err(TimeError::OutOfRange),
    }
}

} // verus!
