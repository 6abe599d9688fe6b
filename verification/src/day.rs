//! The day record model: calendar dates, the calendar-day comparison that
//! decides which record is "today", and the immutable `Day` value.

use vstd::prelude::*;

verus! {

/// A calendar date with year, month and day-of-month resolution.
///
/// Dates always carry a four-digit year, so every well-formed value has
/// `0 <= year <= 9999`; see [`date_wf`].
#[derive(Clone, Copy, Debug, PartialEq, Eq, Structural)]
pub struct Date {
    pub year: i32,
    pub month: u32,
    pub day: u32,
}

/// A leap year is divisible by 4, except for centuries not divisible by 400.
pub open spec fn spec_is_leap_year(year: i32) -> bool {
    (year % 4 == 0 && year % 100 != 0) || year % 400 == 0
}

/// The number of days in `month` of `year`; 31 for months outside 1..=12.
pub open spec fn spec_days_in_month(year: i32, month: u32) -> u32 {
    if month == 2 {
        if spec_is_leap_year(year) {
            29
        } else {
            28
        }
    } else if month == 4 || month == 6 || month == 9 || month == 11 {
        30
    } else {
        31
    }
}

/// A well-formed date: four-digit year, existing month, and a day that the
/// month actually has in that year.
pub open spec fn date_wf(d: Date) -> bool {
    &&& 0 <= d.year <= 9999
    &&& 1 <= d.month <= 12
    &&& 1 <= d.day
    &&& d.day <= spec_days_in_month(d.year, d.month)
}

/// The number of days of `year` that lie in months strictly before `month`.
pub open spec fn spec_days_before_month(year: i32, month: u32) -> nat
    decreases month,
{
    if month <= 1 {
        0
    } else {
        (spec_days_before_month(year, (month - 1) as u32) + spec_days_in_month(
            year,
            (month - 1) as u32,
        )) as nat
    }
}

/// The ordinal of the date within its year (1 for January 1st).
pub open spec fn spec_day_of_year(d: Date) -> nat {
    (spec_days_before_month(d.year, d.month) + d.day) as nat
}

/// Two dates name the same calendar day when their day-of-year, month and
/// year all coincide.
pub open spec fn spec_same_day(a: Date, b: Date) -> bool {
    &&& spec_day_of_year(a) == spec_day_of_year(b)
    &&& a.month == b.month
    &&& a.year == b.year
}

pub fn is_leap_year(year: i32) -> (r: bool)
    requires
        0 <= year,
    ensures
        r == spec_is_leap_year(year),
{
    (year % 4 == 0 && year % 100 != 0) || year % 400 == 0
}

pub fn days_in_month(year: i32, month: u32) -> (r: u32)
    requires
        0 <= year,
    ensures
        r == spec_days_in_month(year, month),
{
    if month == 2 {
        if is_leap_year(year) {
            29
        } else {
            28
        }
    } else if month == 4 || month == 6 || month == 9 || month == 11 {
        30
    } else {
        31
    }
}

/// Whether a date is well-formed; lets unverified callers establish the
/// precondition of the loading functions.
pub fn date_is_valid(d: &Date) -> (r: bool)
    ensures
        r == date_wf(*d),
{
    0 <= d.year && d.year <= 9999 && 1 <= d.month && d.month <= 12 && 1 <= d.day && d.day
        <= days_in_month(d.year, d.month)
}

proof fn lemma_days_before_month_bound(year: i32, month: u32)
    ensures
        spec_days_before_month(year, month) <= 31 * month,
    decreases month,
{
    if month > 1 {
        lemma_days_before_month_bound(year, (month - 1) as u32);
    }
}

pub fn day_of_year(d: &Date) -> (r: u32)
    requires
        date_wf(*d),
    ensures
        r == spec_day_of_year(*d),
{
    let mut m: u32 = 1;
    let mut acc: u32 = 0;
    while m < d.month
        invariant
            1 <= m <= d.month,
            date_wf(*d),
            acc == spec_days_before_month(d.year, m),
            acc <= 31 * (m - 1),
        decreases d.month - m,
    {
        acc = acc + days_in_month(d.year, m);
        m = m + 1;
    }
    proof {
        lemma_days_before_month_bound(d.year, d.month);
    }
    acc + d.day
}

/// Whether two dates fall on the same calendar day.
pub fn same_day(one: &Date, other: &Date) -> (r: bool)
    requires
        date_wf(*one),
        date_wf(*other),
    ensures
        r == spec_same_day(*one, *other),
{
    day_of_year(one) == day_of_year(other) && one.month == other.month && one.year == other.year
}

/// One calendar day's tracked time: the date together with the worked and
/// break durations, counted in seconds. A `Day` is never mutated after
/// construction; a correction requires constructing a replacement.
#[derive(Clone, Copy, Debug, PartialEq, Eq, Structural)]
pub struct Day {
    pub date: Date,
    pub worktime: u32,
    pub breaktime: u32,
}

impl Day {
    /// Constructs a record from its three fields. Together with the
    /// accessors' contracts this states the round trip: what was put in is
    /// exactly what is read back.
    pub fn new(date: Date, worktime: u32, breaktime: u32) -> (r: Day)
        ensures
            r.date == date,
            r.worktime == worktime,
            r.breaktime == breaktime,
    {
        Day { date, worktime, breaktime }
    }

    pub fn date(&self) -> (r: Date)
        ensures
            r == self.date,
    {
        self.date
    }

    pub fn worktime(&self) -> (r: u32)
        ensures
            r == self.worktime,
    {
        self.worktime
    }

    pub fn breaktime(&self) -> (r: u32)
        ensures
            r == self.breaktime,
    {
        self.breaktime
    }
}

} // verus!
