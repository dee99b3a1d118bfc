//! The system clock, reduced to the calendar fields the wire format needs.

use vstd::prelude::*;

verus! {

use crate::der::GeneralizedTime;

/// The current UTC time, shifted forward by `days` days, as raw calendar
/// fields `(year, month, day, hour, minute, second)`.
///
/// Relies on `chrono::Utc::now` plus `chrono::TimeDelta::days`, read back
/// through the accessors of `chrono::Datelike` and `chrono::Timelike`.
/// Nothing is promised of the values: the time is whatever the clock says.
#[verifier::external_body]
fn raw_now_plus_days(days: u16) -> (u16, u8, u8, u8, u8, u8) {
    let t = chrono::Utc::now() + chrono::TimeDelta::days(days as i64);
    (
        chrono::Datelike::year(&t) as u16,
        chrono::Datelike::month(&t) as u8,
        chrono::Datelike::day(&t) as u8,
        chrono::Timelike::hour(&t) as u8,
        chrono::Timelike::minute(&t) as u8,
        chrono::Timelike::second(&t) as u8,
    )
}

/// The current UTC time, shifted forward by `days` days, with every field
/// forced into the ranges the wire rendering handles (a leap second becomes
/// second 59).
pub fn now_plus_days(days: u16) -> (r: GeneralizedTime)
    ensures
        r.wf(),
{
    let (year, month, day, hour, minute, second) = raw_now_plus_days(days);
    GeneralizedTime {
        year: if year > 9999 {
            9999
        } else {
            year
        },
        month: if month < 1 {
            1
        } else if month > 12 {
            12
        } else {
            month
        },
        day: if day < 1 {
            1
        } else if day > 31 {
            31
        } else {
            day
        },
        hour: if hour > 23 {
            23
        } else {
            hour
        },
        minute: if minute > 59 {
            59
        } else {
            minute
        },
        second: if second > 59 {
            59
        } else {
            second
        },
    }
}

/// The current UTC time as calendar fields.
pub fn now_utc() -> (r: GeneralizedTime)
    ensures
        r.wf(),
{
    now_plus_days(0)
}

} // verus!
