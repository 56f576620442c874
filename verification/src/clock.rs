//! Access to the local wall clock, the one ambient input of the scheduler.

use vstd::prelude::*;

use chrono::{Datelike, Timelike};

use crate::date::{valid_date, valid_stamp, Date, Stamp};

verus! {

/// Relies on chrono's `Local::now` and its `Datelike`/`Timelike` accessors:
/// the reading is an existing calendar date (month 1 to 12, day within the
/// month) with an in-range time of day (hour below 24, minute and second
/// below 60). Nothing more can be said of a clock reading.
#[verifier::external_body]
fn read_clock() -> (r: Stamp)
    ensures
        valid_stamp(r),
{
    let now = chrono::Local::now();
    Stamp {
        date: Date { year: now.year(), month: now.month() as u8, day: now.day() as u8 },
        hour: now.hour() as u8,
        minute: now.minute() as u8,
        second: now.second() as u8,
    }
}

/// The current local date and time of day.
pub fn now_stamp() -> (r: Stamp)
    ensures
        valid_stamp(r),
{
    read_clock()
}

/// The current local calendar date.
pub fn read_today() -> (r: Date)
    ensures
        valid_date(r),
{
    read_clock().date
}

/// Relies on chrono's `Utc::now` and its `Datelike`/`Timelike` accessors,
/// exactly as the local reading does: the result is an existing calendar
/// date with an in-range time of day.
#[verifier::external_body]
fn read_clock_utc() -> (r: Stamp)
    ensures
        valid_stamp(r),
{
    let now = chrono::Utc::now();
    Stamp {
        date: Date { year: now.year(), month: now.month() as u8, day: now.day() as u8 },
        hour: now.hour() as u8,
        minute: now.minute() as u8,
        second: now.second() as u8,
    }
}

/// The current UTC date and time of day.
pub fn utc_now() -> (r: Stamp)
    ensures
        valid_stamp(r),
{
    read_clock_utc()
}

/// The previous calendar day, by the local clock. `None` only in the
/// unreachable case that the clock reads the first representable day.
pub fn yesterday() -> (r: Option<Date>)
    ensures
        r matches Some(d) ==> valid_date(d),
{
    let today = read_today();
    crate::date::date_minus_days(&today, 1)
}

/// The local calendar date a whole number of months (of thirty days) back:
/// the reach of a bulk review ingestion. `None` when `months` is negative or
/// unworkably large.
pub fn months_back(months: i32) -> (r: Option<Date>)
    ensures
        months < 0 ==> r is None,
        r matches Some(d) ==> valid_date(d),
{
    if months < 0 {
        return None;
    }
    if months > i32::MAX / 30 {
        return None;
    }
    let days = (months * 30) as u32;
    let today = read_today();
    crate::date::date_minus_days(&today, days)
}

} // verus!
