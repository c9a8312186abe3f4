//! The local wall clock and the reporting window taken from it.
use crate::calendar::{
    date_after, first_of_month, is_last_date, is_valid_date, ymd_text, Date,
};
use chrono::{DateTime, Datelike, Local, Timelike};
use vstd::prelude::*;

verus! {

/// A moment on the local wall clock, to the second.
#[derive(Clone, Copy, Debug, PartialEq, Eq, Structural)]
pub struct LocalDateTime {
    pub date: Date,
    pub hour: u32,
    pub minute: u32,
    pub second: u32,
}

impl LocalDateTime {
    pub open spec fn wf(&self) -> bool {
        &&& is_valid_date(self.date)
        &&& self.hour < 24
        &&& self.minute < 60
        &&& self.second < 60
    }
}

/// The dates that bound one cost query, as `YYYY-MM-DD`: `start` is
/// included, `end` is not.
#[derive(Clone, Debug)]
pub struct ReportingWindow {
    pub start: String,
    pub end: String,
}

/// Relies on `SystemTime::now`, chrono's `DateTime::from_timestamp` and
/// `with_timezone(&Local)`, then the `Datelike` and `Timelike` accessors:
/// a date that chrono can represent, hour below 24, minute and second
/// below 60. `None` when the system clock reads before 1970 or past
/// chrono's last date. chrono's lookup of the local time zone can still
/// panic when the zone data cannot be read.
#[verifier::external_body]
fn local_now() -> (r: Option<LocalDateTime>)
    ensures
        r matches Some(n) ==> n.wf(),
{
    let since = std::time::SystemTime::now().duration_since(std::time::UNIX_EPOCH).ok()?;
    let secs = i64::try_from(since.as_secs()).ok()?;
    let utc = DateTime::from_timestamp(secs, since.subsec_nanos())?;
    let now = utc.with_timezone(&Local);
    Some(LocalDateTime {
        date: Date { year: now.year(), month: now.month(), day: now.day() },
        hour: now.hour(),
        minute: now.minute(),
        second: now.second(),
    })
}

/// The first day of the month of `now`, at any time of that day.
pub fn start_of_month_at(now: &LocalDateTime) -> (r: String)
    requires
        now.wf(),
    ensures
        r@ == ymd_text(first_of_month(now.date)),
{
    now.date.month_start().to_ymd_string()
}

/// The calendar day after the day of `now`; `None` only when `now` falls on
/// the last date that chrono can represent.
pub fn tomorrow_at(now: &LocalDateTime) -> (r: Option<String>)
    requires
        now.wf(),
    ensures
        r.is_none() <==> is_last_date(now.date),
        r is Some ==> r->0@ == ymd_text(date_after(now.date)),
{
    match now.date.next_day() {
        Some(d) => Some(d.to_ymd_string()),
        None => None,
    }
}

/// The window from the first day of the month of `now` up to, and not
/// including, the day after `now`.
pub fn reporting_window_at(now: &LocalDateTime) -> (r: Option<ReportingWindow>)
    requires
        now.wf(),
    ensures
        r.is_none() <==> is_last_date(now.date),
        r is Some ==> r->0.start@ == ymd_text(first_of_month(now.date)),
        r is Some ==> r->0.end@ == ymd_text(date_after(now.date)),
{
    let start = start_of_month_at(now);
    match tomorrow_at(now) {
        Some(end) => Some(ReportingWindow { start, end }),
        None => None,
    }
}

/// The first day of the current local month as `YYYY-MM-DD`; `None` when
/// the system clock cannot be read as a local time.
pub fn start_of_month() -> (r: Option<String>)
    ensures
        r matches Some(s) ==> exists|now: LocalDateTime|
            #[trigger] now.wf() && s@ == ymd_text(first_of_month(now.date)),
{
    match local_now() {
        Some(now) => Some(start_of_month_at(&now)),
        None => None,
    }
}

/// The local calendar day after today as `YYYY-MM-DD`; `None` when the
/// system clock cannot be read as a local time, or today is the last date
/// that chrono can represent.
pub fn tomorrow() -> (r: Option<String>)
    ensures
        r matches Some(s) ==> exists|now: LocalDateTime|
            #[trigger] now.wf() && !is_last_date(now.date) && s@ == ymd_text(
                date_after(now.date),
            ),
{
    match local_now() {
        Some(now) => tomorrow_at(&now),
        None => None,
    }
}

/// The reporting window for the current local time, both ends read from
/// one reading of the clock; `None` when `tomorrow` would be.
pub fn reporting_window() -> (r: Option<ReportingWindow>)
    ensures
        r matches Some(w) ==> exists|now: LocalDateTime|
            #[trigger] now.wf() && !is_last_date(now.date) && w.start@ == ymd_text(
                first_of_month(now.date),
            ) && w.end@ == ymd_text(date_after(now.date)),
{
    match local_now() {
        Some(now) => reporting_window_at(&now),
        None => None,
    }
}

/// Any two moments of one month, whatever their day or time of day, give
/// the same start of month: the first day of that month.
pub proof fn lemma_start_of_month_independent_of_day(a: LocalDateTime, b: LocalDateTime)
    requires
        a.wf(),
        b.wf(),
        a.date.year == b.date.year,
        a.date.month == b.date.month,
    ensures
        ymd_text(first_of_month(a.date)) == ymd_text(first_of_month(b.date)),
        first_of_month(a.date) == (Date { year: a.date.year, month: a.date.month, day: 1 }),
{
    crate::calendar::lemma_month_start_same_within_month(a.date, b.date);
}

} // verus!
