//! The time window the dashboard's detail table shows, and the start-up choices made from the
//! command line (initial window, refresh interval, frame period).

use crate::date::{
    days_from_monday, from_ymd, month_of_date, month_start_of, sub_days, today_utc,
    weekday_from_monday, year_of_date, Date, EPOCH_DAYS, MIN_DAYS,
};
use vstd::prelude::*;

verus! {

/// Which time window the detail table shows.
#[derive(Debug, Clone, Copy, PartialEq, Eq, Structural)]
pub enum Scope {
    Today,
    Week,
    Month,
}

/// The Monday that starts the week of `today` is a date chrono can represent.
pub open spec fn week_start_in_range(today: Date) -> bool {
    today.days - weekday_from_monday(today.days as int) >= MIN_DAYS
}

/// Day number of the first day of the window `s`, seen from the date `today`.
pub open spec fn window_start(s: Scope, today: Date) -> int {
    match s {
        Scope::Today => today.days as int,
        Scope::Week => today.days - weekday_from_monday(today.days as int),
        Scope::Month => month_start_of(today.days as int),
    }
}

/// The label shown for a window.
pub open spec fn scope_label(s: Scope) -> Seq<char> {
    match s {
        Scope::Today => "Today"@,
        Scope::Week => "This Week"@,
        Scope::Month => "This Month"@,
    }
}

impl Scope {
    /// The window's label: "Today", "This Week" or "This Month".
    pub fn label(self) -> (r: &'static str)
        ensures
            r@ == scope_label(self),
    {
        match self {
            Scope::Today => "Today",
            Scope::Week => "This Week",
            Scope::Month => "This Month",
        }
    }

    /// The first date of the window, seen from `today`: today itself, the Monday of today's
    /// week, or the first of today's month.
    pub fn since_on(self, today: Date) -> (d: Date)
        requires
            today.wf(),
            self is Week ==> week_start_in_range(today),
        ensures
            d.days == window_start(self, today),
            d.wf(),
            d.days <= today.days,
            today.days - d.days <= 30,
            self is Week ==> weekday_from_monday(d.days as int) == 0 && today.days - d.days < 7,
    {
        match self {
            Scope::Today => today,
            Scope::Week => {
                let n = days_from_monday(today);
                let r = sub_days(today, n as u64);
                proof {
                    lemma_monday(today.days as int);
                }
                r.unwrap()
            },
            Scope::Month => {
                let y = year_of_date(today);
                let m = month_of_date(today);
                match from_ymd(y, m, 1) {
                    Some(first) => first,
                    None => today,
                }
            },
        }
    }

    /// The first date of the window, seen from today's UTC date on the system clock; `None`
    /// when the clock reads before the Unix epoch or after chrono's last date.
    pub fn since(self) -> (r: Option<Date>)
        ensures
            r matches Some(d) ==> d.wf() && exists|today: Date|
                today.wf() && today.days >= EPOCH_DAYS && d.days == window_start(self, today)
                    && d.days <= today.days && today.days - d.days <= 30 && (self is Week
                    ==> weekday_from_monday(d.days as int) == 0 && today.days - d.days < 7),
    {
        match today_utc() {
            Some(today) => {
                proof {
                    lemma_epoch_weeks_in_range(today);
                }
                Some(self.since_on(today))
            },
            None => None,
        }
    }
}

/// The Monday of a date's week is a Monday, at most six days earlier.
pub proof fn lemma_monday(t: int)
    ensures
        0 <= weekday_from_monday(t) < 7,
        weekday_from_monday(t - weekday_from_monday(t)) == 0,
{
}

/// Every date from 1970 on has its week's Monday within chrono's range.
pub proof fn lemma_epoch_weeks_in_range(today: Date)
    requires
        today.days >= EPOCH_DAYS,
    ensures
        week_start_in_range(today),
{
    lemma_monday(today.days as int);
}

/// Whether two strings hold the same text: std's `PartialEq` for `str`.
#[verifier::external_body]
pub(crate) fn same_text(a: &str, b: &str) -> (r: bool)
    ensures
        r == (a@ == b@),
{
    a == b
}

/// The window the dashboard opens on, from the name given on the command line: "week" or "w"
/// for the week, "month" or "m" for the month, anything else for today.
pub fn initial_scope(view: &str) -> (s: Scope)
    ensures
        s == (if view@ == "week"@ || view@ == "w"@ {
            Scope::Week
        } else if view@ == "month"@ || view@ == "m"@ {
            Scope::Month
        } else {
            Scope::Today
        }),
{
    if same_text(view, "week") || same_text(view, "w") {
        Scope::Week
    } else if same_text(view, "month") || same_text(view, "m") {
        Scope::Month
    } else {
        Scope::Today
    }
}

/// Data poll interval, in seconds, used when none is given.
pub const DEFAULT_TICK_SECS: u64 = 2u64;

/// Target frame rate for rendering.
pub const RENDER_FPS: u64 = 30u64;

/// The data poll interval in seconds: the one given, or the default when 0 is given.
pub fn tick_secs(tick_interval: u64) -> (r: u64)
    ensures
        r == (if tick_interval == 0 {
            DEFAULT_TICK_SECS
        } else {
            tick_interval
        }),
        r > 0,
{
    if tick_interval == 0 {
        DEFAULT_TICK_SECS
    } else {
        tick_interval
    }
}

/// Milliseconds between two rendered frames at the target frame rate.
pub fn frame_millis() -> (r: u64)
    ensures
        r == 1000u64 / RENDER_FPS,
        r == 33,
{
    1000 / RENDER_FPS
}

/// The first date of the records the dashboard loads: thirty days before the first of the
/// month of `today`. `None` when that date is before the first date chrono can represent.
pub fn records_window_start(today: Date) -> (r: Option<Date>)
    requires
        today.wf(),
    ensures
        r is Some <==> month_start_of(today.days as int) - 30 >= MIN_DAYS,
        r matches Some(d) ==> d.days == month_start_of(today.days as int) - 30 && d.wf() && d.days
            + 30 == window_start(Scope::Month, today) && d.days + 30 <= today.days,
{
    let start = Scope::Month.since_on(today);
    sub_days(start, 30)
}

} // verus!
