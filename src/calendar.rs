//! Dates of the proleptic Gregorian calendar, as the chrono crate counts
//! them, and their `YYYY-MM-DD` text.
use chrono::{Datelike, NaiveDate};
use vstd::prelude::*;

verus! {

/// The earliest year that chrono can represent.
pub const MIN_YEAR: i32 = -262143;

/// The latest year that chrono can represent.
pub const MAX_YEAR: i32 = 262142;

/// A calendar date without a time zone.
#[derive(Clone, Copy, Debug, PartialEq, Eq, Structural)]
pub struct Date {
    pub year: i32,
    pub month: u32,
    pub day: u32,
}

pub open spec fn is_leap_year(y: int) -> bool {
    (y % 4 == 0 && y % 100 != 0) || y % 400 == 0
}

pub open spec fn days_in_month(y: int, m: int) -> int {
    if m == 2 {
        if is_leap_year(y) { 29 } else { 28 }
    } else if m == 4 || m == 6 || m == 9 || m == 11 {
        30
    } else {
        31
    }
}

pub open spec fn days_in_year(y: int) -> int {
    if is_leap_year(y) { 366 } else { 365 }
}

/// A date that exists and lies in chrono's range.
pub open spec fn is_valid_date(d: Date) -> bool {
    &&& MIN_YEAR <= d.year <= MAX_YEAR
    &&& 1 <= d.month <= 12
    &&& 1 <= d.day <= days_in_month(d.year as int, d.month as int)
}

/// The last date that chrono can represent.
pub open spec fn is_last_date(d: Date) -> bool {
    d.year == MAX_YEAR && d.month == 12 && d.day == 31
}

/// The calendar day after `d`.
pub open spec fn date_after(d: Date) -> Date {
    if (d.day as int) < days_in_month(d.year as int, d.month as int) {
        Date { year: d.year, month: d.month, day: (d.day + 1) as u32 }
    } else if d.month < 12 {
        Date { year: d.year, month: (d.month + 1) as u32, day: 1 }
    } else {
        Date { year: (d.year + 1) as i32, month: 1, day: 1 }
    }
}

/// The first day of the month that holds `d`.
pub open spec fn first_of_month(d: Date) -> Date {
    Date { year: d.year, month: d.month, day: 1 }
}

/// Days from the first day of chrono's first year up to the first day of `y`.
pub open spec fn days_before_year(y: int) -> int
    decreases y - MIN_YEAR,
{
    if y <= MIN_YEAR {
        0
    } else {
        days_before_year(y - 1) + days_in_year(y - 1)
    }
}

/// Days from the first day of year `y` up to the first day of month `m`.
pub open spec fn days_before_month(y: int, m: int) -> int
    decreases m,
{
    if m <= 1 {
        0
    } else {
        days_before_month(y, m - 1) + days_in_month(y, m - 1)
    }
}

/// Position of `d` on a running count of days.
pub open spec fn day_number(d: Date) -> int {
    days_before_year(d.year as int) + days_before_month(d.year as int, d.month as int) + d.day - 1
}

pub open spec fn digit(n: int) -> char {
    seq!['0', '1', '2', '3', '4', '5', '6', '7', '8', '9'][n]
}

pub open spec fn two_digits(n: int) -> Seq<char> {
    seq![digit((n / 10) % 10), digit(n % 10)]
}

pub open spec fn four_digits(n: int) -> Seq<char> {
    seq![digit((n / 1000) % 10), digit((n / 100) % 10), digit((n / 10) % 10), digit(n % 10)]
}

/// The decimal digits of `n`, without leading zeros.
pub open spec fn decimal_digits(n: nat) -> Seq<char>
    decreases n,
{
    if n < 10 {
        seq![digit(n as int)]
    } else {
        decimal_digits(n / 10).push(digit((n % 10) as int))
    }
}

/// `s` with zeros in front, up to `w` characters.
pub open spec fn zero_padded(s: Seq<char>, w: nat) -> Seq<char> {
    if s.len() >= w {
        s
    } else {
        Seq::new((w - s.len()) as nat, |i: int| '0') + s
    }
}

/// The year as chrono writes it for `%Y`: four digits for years 0 to
/// 9999; otherwise a sign, then at least four digits.
pub open spec fn year_text(y: int) -> Seq<char> {
    if 0 <= y <= 9999 {
        four_digits(y)
    } else if y < 0 {
        seq!['-'] + zero_padded(decimal_digits((-y) as nat), 4)
    } else {
        seq!['+'] + zero_padded(decimal_digits(y as nat), 4)
    }
}

/// `YYYY-MM-DD`, each field padded with zeros.
pub open spec fn ymd_text(d: Date) -> Seq<char> {
    year_text(d.year as int) + seq!['-'] + two_digits(d.month as int) + seq!['-'] + two_digits(
        d.day as int,
    )
}

/// Relies on chrono's `NaiveDate::from_ymd_opt` and `NaiveDate::succ_opt`:
/// the following calendar day, absent only after chrono's last date.
#[verifier::external_body]
fn following_date(d: Date) -> (r: Option<Date>)
    requires
        is_valid_date(d),
    ensures
        is_last_date(d) ==> r.is_none(),
        !is_last_date(d) ==> r == Some(date_after(d)),
{
    let n = NaiveDate::from_ymd_opt(d.year, d.month, d.day)?;
    let s = n.succ_opt()?;
    Some(Date { year: s.year(), month: s.month(), day: s.day() })
}

/// Relies on chrono's `NaiveDate::format` with `%Y-%m-%d`: the year as
/// `year_text` gives it, then month and day in two digits, zero padded.
#[verifier::external_body]
fn date_text(d: Date) -> (r: String)
    requires
        is_valid_date(d),
    ensures
        r@ == ymd_text(d),
{
    match NaiveDate::from_ymd_opt(d.year, d.month, d.day) {
        Some(n) => n.format("%Y-%m-%d").to_string(),
        None => String::new(),
    }
}

impl Date {
    /// The first day of this date's month.
    pub fn month_start(&self) -> (r: Date)
        requires
            is_valid_date(*self),
        ensures
            r == first_of_month(*self),
            is_valid_date(r),
    {
        Date { year: self.year, month: self.month, day: 1 }
    }

    /// The calendar day after this one, or `None` after chrono's last date.
    pub fn next_day(&self) -> (r: Option<Date>)
        requires
            is_valid_date(*self),
        ensures
            is_last_date(*self) ==> r.is_none(),
            !is_last_date(*self) ==> r == Some(date_after(*self)),
    {
        following_date(*self)
    }

    /// This date as `YYYY-MM-DD`.
    pub fn to_ymd_string(&self) -> (r: String)
        requires
            is_valid_date(*self),
        ensures
            r@ == ymd_text(*self),
    {
        date_text(*self)
    }
}

/// Every day of a month has the same first day of the month: the first
/// day of that month, which is a valid date.
pub proof fn lemma_month_start_same_within_month(d1: Date, d2: Date)
    requires
        is_valid_date(d1),
        is_valid_date(d2),
        d1.year == d2.year,
        d1.month == d2.month,
    ensures
        first_of_month(d1) == first_of_month(d2),
        first_of_month(d1).day == 1,
        first_of_month(d1).year == d1.year,
        first_of_month(d1).month == d1.month,
        is_valid_date(first_of_month(d1)),
        ymd_text(first_of_month(d1)) == ymd_text(first_of_month(d2)),
{
}

proof fn lemma_year_length(y: int)
    ensures
        days_before_month(y, 12) + 31 == days_in_year(y),
{
    reveal_with_fuel(days_before_month, 12);
}

/// The day after a date is a valid date exactly one day later on the
/// running count, and later in calendar order: within a month the day
/// grows by one, at a month's end the next month starts, and after
/// December 31 January 1 of the next year follows.
pub proof fn lemma_date_after_is_next_day(d: Date)
    requires
        is_valid_date(d),
        !is_last_date(d),
    ensures
        is_valid_date(date_after(d)),
        day_number(date_after(d)) == day_number(d) + 1,
        date_after(d).year > d.year || (date_after(d).year == d.year && date_after(d).month > d.month)
            || (date_after(d).year == d.year && date_after(d).month == d.month && date_after(d).day
            > d.day),
        (d.day as int) < days_in_month(d.year as int, d.month as int) ==> date_after(d) == (Date {
            year: d.year,
            month: d.month,
            day: (d.day + 1) as u32,
        }),
        d.day as int == days_in_month(d.year as int, d.month as int) && d.month < 12
            ==> date_after(d) == (Date { year: d.year, month: (d.month + 1) as u32, day: 1 }),
        d.month == 12 && d.day == 31 ==> date_after(d) == (Date {
            year: (d.year + 1) as i32,
            month: 1,
            day: 1,
        }),
{
    let n = date_after(d);
    if (d.day as int) < days_in_month(d.year as int, d.month as int) {
    } else if d.month < 12 {
        assert(days_before_month(d.year as int, d.month as int + 1) == days_before_month(
            d.year as int,
            d.month as int,
        ) + days_in_month(d.year as int, d.month as int));
    } else {
        lemma_year_length(d.year as int);
        assert(days_before_year(d.year as int + 1) == days_before_year(d.year as int)
            + days_in_year(d.year as int));
        assert(days_before_month(n.year as int, 1) == 0);
    }
}

/// The text of a date is at least ten characters long and ends with the
/// month and the day, each in two digits after a dash.
pub proof fn lemma_ymd_text_shape(d: Date)
    ensures
        ymd_text(d).len() >= 10,
        ymd_text(d).subrange(ymd_text(d).len() - 6, ymd_text(d).len() as int) == seq!['-']
            + two_digits(d.month as int) + seq!['-'] + two_digits(d.day as int),
{
    let y = year_text(d.year as int);
    assert(y.len() >= 4);
    let tail = seq!['-'] + two_digits(d.month as int) + seq!['-'] + two_digits(d.day as int);
    assert(ymd_text(d) =~= y + tail);
    assert(ymd_text(d).subrange(ymd_text(d).len() - 6, ymd_text(d).len() as int) =~= tail);
}

} // verus!
