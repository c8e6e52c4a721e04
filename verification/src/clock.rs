//! The current time, and the Taiwan stock market's trading hours.

use vstd::prelude::*;
use crate::fetcher::Date;
use chrono::{Datelike, Timelike};
use std::time::{Instant, SystemTime};

verus! {

/// A moment in local time: the calendar date, the day of the week (0 for
/// Monday to 6 for Sunday), the hour and the minute.
#[derive(Debug, Clone, Copy, PartialEq, Eq, Structural)]
pub struct LocalTime {
    pub year: i32,
    pub month: u32,
    pub day: u32,
    pub weekday: u32,
    pub hour: u32,
    pub minute: u32,
}

/// Taiwan time is UTC+8 all year round, in seconds east of UTC.
pub const TAIPEI_OFFSET_SECS: i32 = 28800;

#[verifier::external_type_specification]
#[verifier::external_body]
pub struct ExSystemTime(std::time::SystemTime);

#[verifier::external_type_specification]
#[verifier::external_body]
pub struct ExInstant(std::time::Instant);

/// The local time, at `offset_secs` seconds east of UTC, of an instant
/// given in milliseconds since the Unix epoch, as chrono computes it
/// (`DateTime::from_timestamp_millis`, then `with_timezone` at
/// `FixedOffset::east_opt(offset_secs)`); `None` where chrono has no date
/// for the instant.
pub uninterp spec fn local_time(ms: i64, offset_secs: i32) -> Option<LocalTime>;

/// `std::time::SystemTime::now()`: the system clock's reading, of which
/// nothing is claimed.
#[verifier::external_body]
fn system_now() -> (t: SystemTime) {
    SystemTime::now()
}

/// The whole milliseconds from the Unix epoch to `t`
/// (`SystemTime::duration_since(UNIX_EPOCH)`, then `Duration::as_millis`);
/// `None` where `t` is before the epoch. Which value comes back depends on
/// the clock's reading and is left unsaid.
#[verifier::external_body]
fn millis_after_epoch(t: &SystemTime) -> (r: Option<u128>) {
    match t.duration_since(std::time::UNIX_EPOCH) {
        Ok(d) => Some(d.as_millis()),
        Err(_) => None,
    }
}

/// `std::time::Instant::now()`: a reading of the monotonic clock.
#[verifier::external_body]
pub(crate) fn instant_now() -> (t: Instant) {
    Instant::now()
}

/// The whole milliseconds since `t` on the monotonic clock
/// (`Instant::elapsed`, then `Duration::as_millis`). The value depends on
/// the time of the call and is left unsaid.
#[verifier::external_body]
pub(crate) fn millis_since(t: &Instant) -> (ms: u128) {
    t.elapsed().as_millis()
}

/// Converts an instant to local time with chrono (see `local_time`); the
/// contract also states the ranges of the fields that chrono's `Datelike`
/// and `Timelike` accessors give. `east_opt` accepts offsets of less than
/// a day either way.
#[verifier::external_body]
fn local_time_at(ms: i64, offset_secs: i32) -> (r: Option<LocalTime>)
    requires
        -86_400 < offset_secs < 86_400,
    ensures
        r == local_time(ms, offset_secs),
        r matches Some(t) ==> {
            &&& 1 <= t.month <= 12
            &&& 1 <= t.day <= 31
            &&& t.weekday < 7
            &&& t.hour < 24
            &&& t.minute < 60
        },
{
    let offset = chrono::FixedOffset::east_opt(offset_secs).unwrap();
    chrono::DateTime::from_timestamp_millis(ms).map(|t| {
        let local = t.with_timezone(&offset);
        LocalTime {
            year: local.year(),
            month: local.month(),
            day: local.day(),
            weekday: local.weekday().num_days_from_monday(),
            hour: local.hour(),
            minute: local.minute(),
        }
    })
}

/// The Taiwan time now: the system clock read as milliseconds since the
/// Unix epoch and converted at UTC+8; `None` where the clock reads before
/// the epoch or past what an `i64` of milliseconds holds, or chrono has no
/// date for the reading.
pub fn taipei_now() -> (r: Option<LocalTime>)
    ensures
        r is Some ==> exists|ms: i64| ms >= 0 && r == local_time(ms, TAIPEI_OFFSET_SECS),
{
    let now = system_now();
    match millis_after_epoch(&now) {
        Some(ms) => {
            if ms <= i64::MAX as u128 {
                let ms: i64 = ms as i64;
                local_time_at(ms, TAIPEI_OFFSET_SECS)
            } else {
                None
            }
        },
        None => None,
    }
}

/// The date part of a local time.
pub fn date_of(t: LocalTime) -> (d: Date)
    ensures
        d == (Date { year: t.year, month: t.month, day: t.day }),
{
    Date { year: t.year, month: t.month, day: t.day }
}

/// The market trades on weekdays that are not TWSE holidays, from 09:00 to
/// 13:00 Taiwan time, both included.
pub open spec fn market_open_at(t: LocalTime, holidays: Seq<Date>) -> bool {
    &&& t.weekday < 5
    &&& !holidays.contains(Date { year: t.year, month: t.month, day: t.day })
    &&& 9 * 60 <= t.hour * 60 + t.minute <= 13 * 60
}

/// Whether the market is trading at `t`, given the year's holidays.
pub fn market_open(t: LocalTime, holidays: &Vec<Date>) -> (r: bool)
    ensures
        r == market_open_at(t, holidays@),
{
    if t.weekday >= 5 {
        return false;
    }
    if crate::fetcher::is_holiday(holidays, date_of(t)) {
        return false;
    }
    let mins: u64 = t.hour as u64 * 60 + t.minute as u64;
    540 <= mins && mins <= 780
}


/// Trading hours: never on a Saturday or Sunday (weekdays 5 and 6) or a
/// holiday; on other days, from 09:00 to 13:00 inclusive and at no other
/// minute of the day.
pub proof fn law_market_hours(t: LocalTime, holidays: Seq<Date>)
    requires
        t.minute < 60,
    ensures
        t.weekday >= 5 ==> !market_open_at(t, holidays),
        holidays.contains(Date { year: t.year, month: t.month, day: t.day }) ==> !market_open_at(t, holidays),
        t.weekday < 5 && !holidays.contains(Date { year: t.year, month: t.month, day: t.day }) ==> (market_open_at(t, holidays)
            <==> (9 <= t.hour && (t.hour < 13 || (t.hour == 13 && t.minute == 0)))),
{
}

} // verus!
