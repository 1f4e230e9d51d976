//! Day counts between calendar dates and today.
use vstd::prelude::*;
use crate::error::{Error, Kind};

verus! {

/// Days from 1970-01-01 to the given date, by the Julian day number
/// (Gregorian correction included; years before 1 counted backwards from 1).
pub open spec fn day_number(year: int, month: int, day: int) -> int {
    let bc = year < 1;
    let y0 = if bc { 1 - year } else { year };
    let (y, m) = if month < 3 { (y0 - 1, month + 12) } else { (y0, month) };
    let a = y / 100;
    let c = 2 - a + a / 4;
    let e = (1461 * (y + 4716)) / 4;
    let f = (306001 * (m + 1)) / 10000;
    let days = c + day + e + f - 1524 - 2440588;
    if bc { -days } else { days }
}

/// Whether `(month, day)` passes the range checks: a month from 1 to 12 and
/// a day from 1 to 31.
pub open spec fn date_in_range(month: int, day: int) -> bool {
    1 <= month <= 12 && 1 <= day <= 31
}

/// Days from 1970-01-01 to the given date; fails on a month outside 1..=12
/// or a day outside 1..=31.
pub fn days_since_epoch(year: i16, month: u8, day: u8) -> (r: Result<i64, Error>)
    ensures
        r is Ok <==> date_in_range(month as int, day as int),
        r matches Ok(d) ==> d == day_number(year as int, month as int, day as int),
        r matches Err(e) ==> e.kind == Kind::Other,
{
    if !(1 <= month && month <= 12) || day == 0 || day > 31 {
        return Err(Error::from_message(Kind::Other, "Invalid date"));
    }
    let bc = year < 1;
    let mut y: i64 = if bc { 1 - year as i64 } else { year as i64 };
    let mut m: i64 = month as i64;
    if m < 3 {
        m = m + 12;
        y = y - 1;
    }
    let a = y / 100;
    let c = 2 - a + a / 4;
    let e = (1461 * (y + 4716)) / 4;
    let f = (306001 * (m + 1)) / 10000;
    let days = c + day as i64 + e + f - 1524 - 2440588;
    Ok(if bc { -days } else { days })
}

/// Whether `year` is a leap year of the Gregorian calendar.
pub fn is_leap_year(year: u16) -> (r: bool)
    ensures
        r == ((year % 4 == 0 && year % 100 != 0) || year % 400 == 0),
{
    (year % 4 == 0 && year % 100 != 0) || year % 400 == 0
}

/// Relies on std::time::SystemTime::now and duration_since(UNIX_EPOCH): the
/// time elapsed since 1970-01-01 as whole seconds and the nanoseconds past
/// them, `None` when the clock is set before it. The time depends on when the
/// call is made; only that the nanoseconds stay below a second is stated.
#[verifier::external_body]
pub(crate) fn time_since_epoch() -> (r: Option<(u64, u32)>)
    ensures
        r matches Some(t) ==> t.1 < 1_000_000_000,
{
    match std::time::SystemTime::now().duration_since(std::time::UNIX_EPOCH) {
        Ok(d) => Some((d.as_secs(), d.subsec_nanos())),
        Err(_) => None,
    }
}

/// Whole days elapsed since 1970-01-01, `None` when the clock is set before it.
pub fn now_since_epoch() -> (r: Option<u64>)
    ensures
        r matches Some(d) ==> d <= u64::MAX / 86400,
{
    match time_since_epoch() {
        Some(t) => Some(t.0 / 86400),
        None => None,
    }
}

/// Days from the date to day number `today` (days since 1970-01-01).
pub fn days_between(today: u64, date: (i16, u8, u8)) -> (r: Result<i64, Error>)
    requires
        today <= u64::MAX / 86400,
    ensures
        r is Ok <==> date_in_range(date.1 as int, date.2 as int),
        r matches Ok(d) ==> d == today - day_number(date.0 as int, date.1 as int, date.2 as int),
        r matches Err(e) ==> e.kind == Kind::Other,
{
    let given = days_since_epoch(date.0, date.1, date.2)?;
    Ok(today as i64 - given)
}

/// Days from the date to today; fails on an invalid date and when the
/// system clock is set before 1970.
pub fn days_between_dates(date: (i16, u8, u8)) -> (r: Result<i64, Error>)
    ensures
        !date_in_range(date.1 as int, date.2 as int) ==> r is Err,
        r matches Err(e) ==> e.kind == Kind::Other,
        r matches Ok(d) ==> d + day_number(date.0 as int, date.1 as int, date.2 as int) >= 0,
{
    match now_since_epoch() {
        Some(today) => days_between(today, date),
        None => Err(Error::from_message(Kind::Other, "system time before Unix epoch")),
    }
}

} // verus!
