//! The local calendar, read through chrono.

use chrono::TimeZone;
use vstd::prelude::*;

verus! {

#[verifier::external_type_specification]
#[verifier::external_body]
pub struct ExNaiveDate(chrono::NaiveDate);

#[verifier::external_type_specification]
#[verifier::external_body]
pub struct ExNaiveDateTime(chrono::NaiveDateTime);

/// Calls `chrono::Local::now` and takes its calendar date
/// (`DateTime::date_naive`). Depends on the clock: nothing is promised.
#[verifier::external_body]
fn local_today() -> (d: chrono::NaiveDate) {
    chrono::Local::now().date_naive()
}

/// Calls `chrono::NaiveDate::and_hms_opt`, which gives a date-time exactly
/// when the hour is below 24 and the minute and second below 60.
#[verifier::external_body]
fn at_time_of_day(d: &chrono::NaiveDate, hour: u32, min: u32, sec: u32) -> (r: Option<
    chrono::NaiveDateTime,
>)
    ensures
        r is Some <==> (hour < 24 && min < 60 && sec < 60),
{
    d.and_hms_opt(hour, min, sec)
}

/// Calls `TimeZone::from_local_datetime` on `chrono::Local` and keeps the
/// Unix timestamp of an unambiguous result (`single`, `timestamp`); `None`
/// when the local time does not exist or is ambiguous. Depends on the
/// machine's time zone: nothing is promised.
#[verifier::external_body]
fn local_epoch_seconds(dt: &chrono::NaiveDateTime) -> (r: Option<i64>) {
    match chrono::Local.from_local_datetime(dt).single() {
        Some(t) => Some(t.timestamp()),
        None => None,
    }
}

/// Unix seconds of today's local midnight, or 0 when local midnight does
/// not map to a single instant.
pub fn start_of_today() -> i64 {
    let today = local_today();
    let midnight = at_time_of_day(&today, 0, 0, 0);
    match midnight {
        Some(m) => match local_epoch_seconds(&m) {
            Some(t) => t,
            None => 0,
        },
        None => 0,
    }
}

} // verus!
