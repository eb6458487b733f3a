//! Calendar arithmetic on plain values: proleptic Gregorian dates, day numbers and instants.
use chrono::{Datelike, NaiveDate};
use vstd::prelude::*;

verus! {

/// The earliest year a `Date` may hold.
pub const MIN_YEAR: i32 = -262143;

/// The latest year a `Date` may hold.
pub const MAX_YEAR: i32 = 262142;

pub open spec fn is_leap_year(y: int) -> bool {
    (y % 4 == 0 && y % 100 != 0) || y % 400 == 0
}

pub open spec fn days_in_month(y: int, m: int) -> int {
    if m == 2 {
        if is_leap_year(y) {
            29
        } else {
            28
        }
    } else if m == 4 || m == 6 || m == 9 || m == 11 {
        30
    } else {
        31
    }
}

/// Number of days in the months of year `y` that come before month `m`.
pub open spec fn days_before_month(y: int, m: int) -> int
    decreases m,
{
    if m <= 1 {
        0
    } else {
        days_before_month(y, m - 1) + days_in_month(y, m - 1)
    }
}

/// Number of days in the years before year `y`, counted from year 1.
pub open spec fn days_before_year(y: int) -> int {
    365 * (y - 1) + (y - 1) / 4 - (y - 1) / 100 + (y - 1) / 400
}

/// The day count of a date, 0001-01-01 being day 1.
pub open spec fn day_number(y: int, m: int, d: int) -> int {
    days_before_year(y) + days_before_month(y, m) + d
}

/// Weekday of a day count, Monday being 1 and Sunday 7 (0001-01-01 was a Monday).
pub open spec fn weekday_of(n: int) -> int {
    (n + 6) % 7 + 1
}

/// A calendar date.
#[derive(Clone, Copy, Debug, PartialEq, Eq, Structural)]
pub struct Date {
    pub year: i32,
    pub month: u32,
    pub day: u32,
}

/// A point in time to the second, in UTC.
#[derive(Clone, Copy, Debug, PartialEq, Eq, Structural)]
pub struct Instant {
    pub date: Date,
    pub hour: u32,
    pub minute: u32,
    pub second: u32,
}

impl Date {
    pub open spec fn wf(self) -> bool {
        &&& MIN_YEAR <= self.year <= MAX_YEAR
        &&& 1 <= self.month <= 12
        &&& 1 <= self.day <= days_in_month(self.year as int, self.month as int)
    }

    pub open spec fn number(self) -> int {
        day_number(self.year as int, self.month as int, self.day as int)
    }
}

/// The valid date whose day count is `n`.
pub open spec fn date_of_number(n: int) -> Date {
    choose|d: Date| d.wf() && d.number() == n
}

impl Instant {
    pub open spec fn wf(self) -> bool {
        &&& self.date.wf()
        &&& self.hour < 24
        &&& self.minute < 60
        &&& self.second < 60
    }

    /// Seconds since the start of day 0.
    pub open spec fn seconds(self) -> int {
        self.date.number() * 86400 + self.hour * 3600 + self.minute * 60 + self.second
    }
}

pub open spec fn date_before(a: Date, b: Date) -> bool {
    a.year < b.year || (a.year == b.year && (a.month < b.month || (a.month == b.month && a.day
        < b.day)))
}

proof fn lemma_year_length(y: int)
    ensures
        days_before_month(y, 13) == 365 + (if is_leap_year(y) { 1int } else { 0 }),
{
    reveal_with_fuel(days_before_month, 13);
}

proof fn lemma_days_before_year_step(y: int)
    ensures
        days_before_year(y + 1) == days_before_year(y) + days_before_month(y, 13),
{
    lemma_year_length(y);
    let a = y - 1;
    assert(y / 4 == a / 4 + (if y % 4 == 0 { 1int } else { 0 }));
    assert(y / 100 == a / 100 + (if y % 100 == 0 { 1int } else { 0 }));
    assert(y / 400 == a / 400 + (if y % 400 == 0 { 1int } else { 0 }));
}

/// Consecutive years are a year's length apart.
pub proof fn lemma_year_step(y: int)
    ensures
        days_before_year(y + 1) == days_before_year(y) + 365 + (if is_leap_year(y) { 1int } else { 0 }),
{
    lemma_days_before_year_step(y);
    lemma_year_length(y);
}

proof fn lemma_days_before_month_mono(y: int, m1: int, m2: int)
    requires
        m1 <= m2,
    ensures
        days_before_month(y, m1) <= days_before_month(y, m2),
    decreases m2 - m1,
{
    if m1 < m2 {
        lemma_days_before_month_mono(y, m1, m2 - 1);
    }
}

proof fn lemma_days_before_year_mono(y1: int, y2: int)
    requires
        y1 <= y2,
    ensures
        days_before_year(y1) + 365 * (y2 - y1) <= days_before_year(y2),
    decreases y2 - y1,
{
    if y1 < y2 {
        lemma_days_before_year_mono(y1, y2 - 1);
        lemma_days_before_year_step(y2 - 1);
        lemma_year_length(y2 - 1);
    }
}

/// A valid date's day count lies within its year.
pub proof fn lemma_number_in_year(d: Date)
    requires
        d.wf(),
    ensures
        days_before_year(d.year as int) < d.number(),
        d.number() <= days_before_year(d.year as int + 1),
{
    let y = d.year as int;
    let m = d.month as int;
    lemma_days_before_month_mono(y, 1, m);
    lemma_days_before_month_mono(y, m + 1, 13);
    lemma_days_before_year_step(y);
}

/// Day counts follow the calendar order of valid dates.
pub proof fn lemma_number_strictly_increasing(a: Date, b: Date)
    requires
        a.wf(),
        b.wf(),
        date_before(a, b),
    ensures
        a.number() < b.number(),
{
    lemma_number_in_year(a);
    lemma_number_in_year(b);
    if a.year < b.year {
        lemma_days_before_year_mono(a.year as int + 1, b.year as int);
    } else if a.month < b.month {
        lemma_days_before_month_mono(a.year as int, a.month as int + 1, b.month as int);
    }
}

/// Two valid dates with the same day count are the same date.
pub proof fn lemma_number_injective(a: Date, b: Date)
    requires
        a.wf(),
        b.wf(),
        a.number() == b.number(),
    ensures
        a == b,
{
    if date_before(a, b) {
        lemma_number_strictly_increasing(a, b);
    } else if date_before(b, a) {
        lemma_number_strictly_increasing(b, a);
    }
}

/// A date returned for a day count is the one `date_of_number` names.
pub proof fn lemma_date_of_number(d: Date)
    requires
        d.wf(),
    ensures
        date_of_number(d.number()) == d,
{
    let c = date_of_number(d.number());
    assert(c.wf() && c.number() == d.number());
    lemma_number_injective(c, d);
}


/// The day count of the earliest valid date, `MIN_YEAR`-01-01.
pub open spec fn min_number() -> int {
    day_number(MIN_YEAR as int, 1, 1)
}

/// The day count of the latest valid date, `MAX_YEAR`-12-31.
pub open spec fn max_number() -> int {
    day_number(MAX_YEAR as int, 12, 31)
}

/// Every valid date has a day count between those of the first and the last valid date,
/// which leaves room for one more year before the last one.
pub proof fn lemma_number_bounds(d: Date)
    requires
        d.wf(),
    ensures
        min_number() <= d.number() <= max_number(),
        d.year < MAX_YEAR ==> d.number() + 365 <= max_number(),
        -100_000_000 < min_number(),
        max_number() < 100_000_000,
{
    lemma_number_in_year(d);
    lemma_days_before_year_mono(MIN_YEAR as int, d.year as int);
    lemma_days_before_year_step(MAX_YEAR as int);
    reveal_with_fuel(days_before_month, 13);
    if d.year < MAX_YEAR {
        lemma_days_before_year_mono(d.year as int + 1, MAX_YEAR as int);
    }
}

/// The number of days of a month of a year.
pub fn last_day_of_month(year: i32, month: u32) -> (r: u32)
    requires
        1 <= month <= 12,
    ensures
        r == days_in_month(year as int, month as int),
{
    if month == 2 {
        if (year % 4 == 0 && year % 100 != 0) || year % 400 == 0 {
            29
        } else {
            28
        }
    } else if month == 4 || month == 6 || month == 9 || month == 11 {
        30
    } else {
        31
    }
}

/// Relies on chrono's `NaiveDate::from_ymd_opt` and `Datelike::num_days_from_ce`:
/// the day count of a valid date, 0001-01-01 being day 1.
#[verifier::external_body]
fn chrono_day_number(date: Date) -> (r: i32)
    requires
        date.wf(),
    ensures
        r as int == date.number(),
{
    NaiveDate::from_ymd_opt(date.year, date.month, date.day).unwrap().num_days_from_ce()
}

/// Relies on chrono's `NaiveDate::from_num_days_from_ce_opt`: the date of a day count.
#[verifier::external_body]
fn chrono_date_of_number(n: i32) -> (r: Date)
    requires
        min_number() <= n <= max_number(),
    ensures
        r.wf(),
        r.number() == n,
{
    let d = NaiveDate::from_num_days_from_ce_opt(n).unwrap();
    Date { year: d.year(), month: d.month(), day: d.day() }
}

/// Relies on chrono's `Datelike::weekday` and `Weekday::number_from_monday`:
/// the weekday of a valid date, Monday being 1.
#[verifier::external_body]
fn chrono_weekday(date: Date) -> (r: u32)
    requires
        date.wf(),
    ensures
        r as int == weekday_of(date.number()),
{
    NaiveDate::from_ymd_opt(date.year, date.month, date.day).unwrap().weekday().number_from_monday()
}

impl Date {
    /// The date of a year, month and day, if it exists.
    pub fn new(year: i32, month: u32, day: u32) -> (r: Option<Date>)
        ensures
            r is Some <==> (Date { year, month, day }).wf(),
            r is Some ==> r->0 == (Date { year, month, day }),
    {
        if year < MIN_YEAR || year > MAX_YEAR || month < 1 || month > 12 || day < 1 || day
            > last_day_of_month(year, month) {
            None
        } else {
            Some(Date { year, month, day })
        }
    }

    /// The day count, 0001-01-01 being day 1.
    pub fn number_from_ce(&self) -> (r: i32)
        requires
            self.wf(),
        ensures
            r == self.number(),
    {
        chrono_day_number(*self)
    }

    /// The weekday, Monday being 1 and Sunday 7.
    pub fn weekday(&self) -> (r: u32)
        requires
            self.wf(),
        ensures
            r == weekday_of(self.number()),
            1 <= r <= 7,
    {
        chrono_weekday(*self)
    }

    /// The date `n` days later (earlier, for a negative `n`).
    pub fn add_days(&self, n: i32) -> (r: Date)
        requires
            self.wf(),
            min_number() <= self.number() + n <= max_number(),
        ensures
            r.wf(),
            r.number() == self.number() + n,
            r == date_of_number(self.number() + n),
    {
        proof {
            lemma_number_bounds(*self);
        }
        let here = chrono_day_number(*self);
        let r = chrono_date_of_number(here + n);
        proof {
            lemma_date_of_number(r);
        }
        r
    }

    /// The signed number of days from this date to `other`.
    pub fn days_until(&self, other: &Date) -> (r: i32)
        requires
            self.wf(),
            other.wf(),
        ensures
            r == other.number() - self.number(),
    {
        proof {
            lemma_number_bounds(*self);
            lemma_number_bounds(*other);
        }
        let a = chrono_day_number(*self);
        let b = chrono_day_number(*other);
        b - a
    }

    /// Whether this date comes before `other`.
    pub fn is_before(&self, other: &Date) -> (r: bool)
        ensures
            r == date_before(*self, *other),
    {
        self.year < other.year || (self.year == other.year && (self.month < other.month || (
        self.month == other.month && self.day < other.day)))
    }
}

impl Instant {
    /// The instant of a date and a time of day, if both exist.
    pub fn new(year: i32, month: u32, day: u32, hour: u32, minute: u32, second: u32) -> (r:
        Option<Instant>)
        ensures
            r is Some <==> (Instant { date: Date { year, month, day }, hour, minute, second }).wf(),
            r is Some ==> r->0 == (Instant { date: Date { year, month, day }, hour, minute, second }),
    {
        match Date::new(year, month, day) {
            Some(date) => {
                if hour < 24 && minute < 60 && second < 60 {
                    Some(Instant { date, hour, minute, second })
                } else {
                    None
                }
            },
            None => None,
        }
    }

    /// Whether this instant is not later than `other`.
    pub fn is_at_or_before(&self, other: &Instant) -> (r: bool)
        requires
            self.wf(),
            other.wf(),
        ensures
            r == (self.seconds() <= other.seconds()),
    {
        proof {
            if date_before(self.date, other.date) {
                lemma_number_strictly_increasing(self.date, other.date);
            } else if date_before(other.date, self.date) {
                lemma_number_strictly_increasing(other.date, self.date);
            }
        }
        if self.date.is_before(&other.date) {
            true
        } else if self.date == other.date {
            self.hour < other.hour || (self.hour == other.hour && (self.minute < other.minute || (
            self.minute == other.minute && self.second <= other.second)))
        } else {
            false
        }
    }
}

} // verus!
