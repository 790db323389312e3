//! Calendar dates and UTC timestamps as plain values.
//!
//! A `Date` is the day number in the proleptic Gregorian calendar with
//! January 1 of year 1 as day 1 (chrono's `num_days_from_ce`). A `Timestamp`
//! is a count of seconds since the Unix epoch with a sub-second part.
//! Everything calendar-related is computed by chrono.

use chrono::{DateTime, Datelike, Days, NaiveDate, Timelike};
use std::time::{SystemTime, UNIX_EPOCH};
use vstd::prelude::*;

verus! {

/// Day number of chrono's earliest representable date (January 1, 262144 BCE).
pub const MIN_DAYS: i32 = -95746129i32;

/// Day number of chrono's latest representable date (December 31, 262142 CE).
pub const MAX_DAYS: i32 = 95745399i32;

/// Day number of January 1, 1970.
pub const EPOCH_DAYS: i64 = 719163i64;

/// A calendar date, held as its day number counted from January 1 of year 1 (day 1).
#[derive(Clone, Copy, Debug, PartialEq, Eq)]
pub struct Date {
    pub days: i32,
}

impl Date {
    /// The day number lies in the range of dates that chrono can represent.
    pub open spec fn wf(self) -> bool {
        MIN_DAYS <= self.days <= MAX_DAYS
    }

    /// Builds a date from its day number; `None` outside chrono's range.
    pub fn from_days(days: i32) -> (r: Option<Date>)
        ensures
            r is Some <==> MIN_DAYS <= days <= MAX_DAYS,
            r matches Some(d) ==> d.days == days && d.wf(),
    {
        if MIN_DAYS <= days && days <= MAX_DAYS {
            Some(Date { days })
        } else {
            None
        }
    }
}

/// A UTC instant: whole seconds since 1970-01-01T00:00:00Z and the nanoseconds past them.
#[derive(Clone, Copy, Debug, PartialEq, Eq)]
pub struct Timestamp {
    pub secs: i64,
    pub nanos: u32,
}

/// Day number of the UTC calendar day on which the instant falls.
pub open spec fn day_of(secs: i64) -> int {
    secs / 86400 + EPOCH_DAYS
}

/// Hour of the UTC day (0 to 23) at which the instant falls.
pub open spec fn hour_of(secs: i64) -> int {
    (secs % 86400) / 3600
}

impl Timestamp {
    /// The instant is one that chrono's `DateTime<Utc>` can hold: its day is in range and the
    /// sub-second part is below one second, or below two seconds on a leap second.
    pub open spec fn wf(self) -> bool {
        &&& MIN_DAYS <= day_of(self.secs) <= MAX_DAYS
        &&& (self.nanos < 1_000_000_000 || (self.nanos < 2_000_000_000 && (self.secs % 86400)
            % 60 == 59))
    }

    /// Builds an instant from seconds and nanoseconds; `None` where chrono would refuse it.
    pub fn from_parts(secs: i64, nanos: u32) -> (r: Option<Timestamp>)
        ensures
            r is Some <==> (Timestamp { secs, nanos }).wf(),
            r matches Some(t) ==> t.secs == secs && t.nanos == nanos,
    {
        match timestamp_in_range(secs, nanos) {
            true => Some(Timestamp { secs, nanos }),
            false => None,
        }
    }

    /// The UTC calendar date of this instant.
    pub fn date(&self) -> (d: Date)
        requires
            self.wf(),
        ensures
            d.days == day_of(self.secs),
            d.wf(),
    {
        utc_date_of(*self)
    }

    /// The hour of the UTC day of this instant.
    pub fn hour(&self) -> (h: u32)
        requires
            self.wf(),
        ensures
            h == hour_of(self.secs),
            h < 24,
    {
        utc_hour_of(*self)
    }
}

/// Whether chrono's `DateTime::from_timestamp` accepts the pair: per its source it splits the
/// seconds into a day (`div_euclid(86400)` plus the epoch's day number) and the seconds of that
/// day, and refuses a day outside `NaiveDate`'s range or a sub-second part that
/// `NaiveTime::from_num_seconds_from_midnight_opt` refuses.
#[verifier::external_body]
fn timestamp_in_range(secs: i64, nanos: u32) -> (ok: bool)
    ensures
        ok == (Timestamp { secs, nanos }).wf(),
{
    DateTime::from_timestamp(secs, nanos).is_some()
}

/// chrono's `DateTime::<Utc>::date_naive`, read back as a day number: per chrono's source the day
/// is the seconds' Euclidean quotient by 86400 plus the day number of 1970-01-01.
#[verifier::external_body]
fn utc_date_of(t: Timestamp) -> (d: Date)
    requires
        t.wf(),
    ensures
        d.days == day_of(t.secs),
{
    let dt = DateTime::from_timestamp(t.secs, t.nanos).unwrap();
    Date { days: dt.date_naive().num_days_from_ce() }
}

/// chrono's `Timelike::hour` of a `DateTime<Utc>`: per chrono's source, the seconds past midnight
/// (the Euclidean remainder by 86400) divided by 3600.
#[verifier::external_body]
fn utc_hour_of(t: Timestamp) -> (h: u32)
    requires
        t.wf(),
    ensures
        h == hour_of(t.secs),
{
    let dt = DateTime::from_timestamp(t.secs, t.nanos).unwrap();
    dt.hour()
}

/// The system clock read as whole seconds and nanoseconds since the Unix epoch: std's
/// `SystemTime::now().duration_since(UNIX_EPOCH)`, `None` when the clock reads before the epoch.
/// It depends on the clock: all that is stated is that the nanoseconds are below one second
/// (`Duration::subsec_nanos`).
#[verifier::external_body]
fn clock_since_epoch() -> (r: Option<(u64, u32)>)
    ensures
        r matches Some(c) ==> c.1 < 1_000_000_000,
{
    SystemTime::now().duration_since(UNIX_EPOCH).ok().map(|d| (d.as_secs(), d.subsec_nanos()))
}

/// The current instant on the system clock, `None` when the clock reads before the Unix epoch
/// or after the last instant chrono can hold.
pub fn now_utc() -> (r: Option<Timestamp>)
    ensures
        r matches Some(t) ==> t.wf() && t.secs >= 0 && t.nanos < 1_000_000_000,
{
    match clock_since_epoch() {
        Some((secs, nanos)) => {
            if secs <= i64::MAX as u64 {
                Timestamp::from_parts(secs as i64, nanos)
            } else {
                None
            }
        },
        None => None,
    }
}

/// Today's UTC date on the system clock, `None` when the clock reads before the Unix epoch or
/// after the last date chrono can hold.
pub fn today_utc() -> (r: Option<Date>)
    ensures
        r matches Some(d) ==> d.wf() && d.days >= EPOCH_DAYS,
{
    match now_utc() {
        Some(t) => Some(t.date()),
        None => None,
    }
}

/// The instant that chrono's `DateTime::parse_from_rfc3339` reads from a text, taken in UTC;
/// `None` when it refuses the text.
pub uninterp spec fn rfc3339_instant(text: Seq<char>) -> Option<Timestamp>;

/// chrono's `DateTime::parse_from_rfc3339` followed by `to_utc`, read back as seconds and
/// nanoseconds (`timestamp`, `timestamp_subsec_nanos`). A `DateTime<Utc>` always round-trips
/// through `DateTime::from_timestamp`, so a parsed instant is one chrono can hold.
#[verifier::external_body]
pub(crate) fn parse_rfc3339(text: &str) -> (r: Option<Timestamp>)
    ensures
        r == rfc3339_instant(text@),
        r matches Some(t) ==> t.wf(),
{
    DateTime::parse_from_rfc3339(text).ok().map(|dt| {
        let u = dt.to_utc();
        Timestamp { secs: u.timestamp(), nanos: u.timestamp_subsec_nanos() }
    })
}

/// Days since the last Monday, 0 for a Monday up to 6 for a Sunday, of the date with this day
/// number: day 1, January 1 of year 1, is a Monday in the proleptic Gregorian calendar.
pub open spec fn weekday_from_monday(days: int) -> int {
    (days - 1) % 7
}

/// chrono's `Datelike::weekday().num_days_from_monday()`: days since the last Monday.
#[verifier::external_body]
pub(crate) fn days_from_monday(d: Date) -> (n: u32)
    requires
        d.wf(),
    ensures
        n == weekday_from_monday(d.days as int),
{
    NaiveDate::from_num_days_from_ce_opt(d.days).unwrap().weekday().num_days_from_monday()
}

/// chrono's `NaiveDate::checked_sub_days`: the date `n` days earlier, `None` when that date is
/// before chrono's first date (or `n` exceeds `i32::MAX`).
#[verifier::external_body]
pub(crate) fn sub_days(d: Date, n: u64) -> (r: Option<Date>)
    requires
        d.wf(),
    ensures
        r is Some <==> d.days - n >= MIN_DAYS,
        r matches Some(e) ==> e.days == d.days - n && e.wf(),
{
    NaiveDate::from_num_days_from_ce_opt(d.days).unwrap().checked_sub_days(Days::new(n)).map(
        |e| Date { days: e.num_days_from_ce() },
    )
}

/// chrono's `NaiveDate::checked_add_days`: the date `n` days later, `None` when that date is
/// after chrono's last date (or `n` exceeds `i32::MAX`).
#[verifier::external_body]
pub(crate) fn add_days(d: Date, n: u64) -> (r: Option<Date>)
    requires
        d.wf(),
    ensures
        r is Some <==> d.days + n <= MAX_DAYS,
        r matches Some(e) ==> e.days == d.days + n && e.wf(),
{
    NaiveDate::from_num_days_from_ce_opt(d.days).unwrap().checked_add_days(Days::new(n)).map(
        |e| Date { days: e.num_days_from_ce() },
    )
}

/// chrono's `NaiveDate::succ_opt`: the next calendar date, `None` on chrono's last date.
#[verifier::external_body]
pub(crate) fn next_day(d: Date) -> (r: Option<Date>)
    requires
        d.wf(),
    ensures
        r is Some <==> d.days < MAX_DAYS,
        r matches Some(e) ==> e.days == d.days + 1 && e.wf(),
{
    NaiveDate::from_num_days_from_ce_opt(d.days).unwrap().succ_opt().map(
        |e| Date { days: e.num_days_from_ce() },
    )
}

/// The calendar year of the date with this day number, as chrono's `Datelike::year` gives it.
pub uninterp spec fn year_of(days: int) -> int;

/// The calendar month (1 to 12) of the date with this day number, as chrono's
/// `Datelike::month` gives it.
pub uninterp spec fn month_of(days: int) -> int;

/// The day number of the calendar date (year, month, day) that chrono's
/// `NaiveDate::from_ymd_opt` makes, `None` where it refuses the date.
pub uninterp spec fn ymd_days(year: int, month: int, day: int) -> Option<int>;

/// chrono's `Datelike::year` of a date.
#[verifier::external_body]
pub(crate) fn year_of_date(d: Date) -> (y: i32)
    requires
        d.wf(),
    ensures
        y == year_of(d.days as int),
{
    NaiveDate::from_num_days_from_ce_opt(d.days).unwrap().year()
}

/// chrono's `Datelike::month` of a date: 1 to 12. The first day of that month of that year is a
/// date chrono makes, at most 30 days before the date and not after it.
#[verifier::external_body]
pub(crate) fn month_of_date(d: Date) -> (m: u32)
    requires
        d.wf(),
    ensures
        m == month_of(d.days as int),
        1 <= m <= 12,
        ymd_days(year_of(d.days as int), m as int, 1) is Some,
        d.days - 30 <= ymd_days(year_of(d.days as int), m as int, 1)->0 <= d.days,
        MIN_DAYS <= ymd_days(year_of(d.days as int), m as int, 1)->0,
{
    NaiveDate::from_num_days_from_ce_opt(d.days).unwrap().month()
}

/// chrono's `NaiveDate::from_ymd_opt`: the date of the given year, month and day, `None` when
/// there is no such date or chrono cannot represent it.
#[verifier::external_body]
pub(crate) fn from_ymd(year: i32, month: u32, day: u32) -> (r: Option<Date>)
    ensures
        r matches Some(e) ==> ymd_days(year as int, month as int, day as int) == Some(e.days as int)
            && e.wf(),
        r is None ==> ymd_days(year as int, month as int, day as int) is None,
{
    NaiveDate::from_ymd_opt(year, month, day).map(|e| Date { days: e.num_days_from_ce() })
}

/// Day number of the first day of the month of the date with this day number.
pub open spec fn month_start_of(days: int) -> int {
    match ymd_days(year_of(days), month_of(days), 1) {
        Some(k) => k,
        None => days,
    }
}

/// chrono's `(a - b).num_days()` for two dates: the signed number of days from `b` to `a`.
#[verifier::external_body]
pub(crate) fn days_between(a: Date, b: Date) -> (n: i64)
    requires
        a.wf(),
        b.wf(),
    ensures
        n == a.days - b.days,
{
    let na = NaiveDate::from_num_days_from_ce_opt(a.days).unwrap();
    let nb = NaiveDate::from_num_days_from_ce_opt(b.days).unwrap();
    (na - nb).num_days()
}

/// The text that chrono's `Display` for `NaiveDate` writes for the date with this day number.
pub uninterp spec fn iso_date_text(days: int) -> Seq<char>;

/// chrono's `NaiveDate::to_string`, the `%Y-%m-%d` form of the date.
#[verifier::external_body]
pub(crate) fn date_text(d: Date) -> (s: String)
    requires
        d.wf(),
    ensures
        s@ == iso_date_text(d.days as int),
{
    NaiveDate::from_num_days_from_ce_opt(d.days).unwrap().to_string()
}

} // verus!
