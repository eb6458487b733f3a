//! Cron-like intervals: five sets of allowed values and the next instant they lead to.
use crate::calendar::{
    date_of_number, days_in_month, last_day_of_month, lemma_date_of_number, lemma_number_bounds,
    lemma_number_in_year, lemma_number_strictly_increasing, lemma_year_step, weekday_of, Date,
    Instant, MAX_YEAR, MIN_YEAR,
};
use crate::error::{Error, ErrorKind};
use crate::expression::{expression_ok, field_matches, parse_field, split_words, views, words};
use vstd::prelude::*;
use vstd::string::StringSliceAdditionalSpecFns;

verus! {

/// A parsed interval expression: minutes, hours, days of month, months and weekdays.
/// An empty field allows every value.
pub struct Interval {
    pub expression: String,
    /// 0 to 59
    pub minutes: Vec<u32>,
    /// 0 to 23
    pub hours: Vec<u32>,
    /// 1 to 31
    pub days: Vec<u32>,
    /// 1 to 12
    pub months: Vec<u32>,
    /// 1 (Monday) to 7 (Sunday)
    pub weekdays: Vec<u32>,
}

pub open spec fn sorted(s: Seq<u32>) -> bool {
    forall|i: int, j: int| 0 <= i < j < s.len() ==> s[i] <= s[j]
}

pub open spec fn within(s: Seq<u32>, lo: int, hi: int) -> bool {
    forall|i: int| 0 <= i < s.len() ==> lo <= #[trigger] s[i] <= hi
}

/// Some allowed value is at least `v`.
pub open spec fn has_at_least(s: Seq<u32>, v: int) -> bool {
    exists|i: int| 0 <= i < s.len() && s[i] >= v
}

/// The first allowed value, in the field's order, that is at least `v`.
pub open spec fn first_at_least(s: Seq<u32>, v: int) -> u32 {
    s[choose|i: int| 0 <= i < s.len() && s[i] >= v && forall|j: int| 0 <= j < i ==> s[j] < v]
}

pub open spec fn with_minute(t: Instant, m: u32) -> Instant {
    Instant { minute: m, ..t }
}

pub open spec fn with_hour(t: Instant, h: u32) -> Instant {
    Instant { hour: h, ..t }
}

pub open spec fn with_date(t: Instant, d: Date) -> Instant {
    Instant { date: d, ..t }
}

/// The same time of day, `n` days later.
pub open spec fn add_days(t: Instant, n: int) -> Instant {
    with_date(t, date_of_number(t.date.number() + n))
}

/// One hour later.
pub open spec fn add_hour(t: Instant) -> Instant {
    if t.hour < 23 {
        with_hour(t, (t.hour + 1) as u32)
    } else {
        add_days(with_hour(t, 0), 1)
    }
}

/// The start of the minute after the one `t` falls in.
pub open spec fn next_minute_start(t: Instant) -> Instant {
    let t0 = Instant { second: 0, ..t };
    if t.minute < 59 {
        with_minute(t0, (t.minute + 1) as u32)
    } else {
        add_hour(with_minute(t0, 0))
    }
}

/// The date of day `d` of month `m` of year `y`, where month 13 is January of the next
/// year, and a day past the end of the month is the month's last day.
pub open spec fn safe_date(y: int, m: int, d: int) -> Date {
    let (y2, m2) = if m > 12 {
        (y + 1, m - 12)
    } else {
        (y, m)
    };
    let last = days_in_month(y2, m2);
    Date { year: y2 as i32, month: m2 as u32, day: (if d <= last { d } else { last }) as u32 }
}

/// Days from `from` to the next weekday `to` (zero when they are the same).
pub open spec fn weekday_distance(from: int, to: int) -> int {
    (to + 7 - from) % 7
}

impl Interval {
    pub open spec fn wf(&self) -> bool {
        &&& sorted(self.minutes@) && within(self.minutes@, 0, 59)
        &&& sorted(self.hours@) && within(self.hours@, 0, 23)
        &&& sorted(self.days@) && within(self.days@, 1, 31)
        &&& sorted(self.months@) && within(self.months@, 1, 12)
        &&& sorted(self.weekdays@) && within(self.weekdays@, 1, 7)
    }

    /// The minute pass: the first allowed minute not before the current one, else the first
    /// allowed minute of the next hour.
    #[verifier::opaque]
    pub open spec fn minute_pass(&self, t: Instant) -> Instant {
        let s = self.minutes@;
        if s.len() == 0 {
            t
        } else if has_at_least(s, t.minute as int) {
            with_minute(t, first_at_least(s, t.minute as int))
        } else {
            add_hour(with_minute(t, s[0]))
        }
    }

    /// The hour pass: the first allowed hour not before the current one, else the first
    /// allowed hour of the next day.
    #[verifier::opaque]
    pub open spec fn hour_pass(&self, t: Instant) -> Instant {
        let s = self.hours@;
        if s.len() == 0 {
            t
        } else if has_at_least(s, t.hour as int) {
            with_hour(t, first_at_least(s, t.hour as int))
        } else {
            add_days(with_hour(t, s[0]), 1)
        }
    }

    /// The weekday pass, skipped when days of month are given: forward to the first allowed
    /// weekday not before the current one, else to the first allowed weekday of next week.
    #[verifier::opaque]
    pub open spec fn weekday_pass(&self, t: Instant) -> Instant {
        let s = self.weekdays@;
        let cur = weekday_of(t.date.number());
        if s.len() == 0 || self.days@.len() != 0 {
            t
        } else if has_at_least(s, cur) {
            add_days(t, weekday_distance(cur, first_at_least(s, cur) as int))
        } else {
            add_days(t, weekday_distance(cur, s[0] as int))
        }
    }

    /// The day-of-month pass: the first allowed day not before the current one, else the
    /// first allowed day of the next month; either clamped to the month's length.
    #[verifier::opaque]
    pub open spec fn day_pass(&self, t: Instant) -> Instant {
        let s = self.days@;
        let d = t.date;
        if s.len() == 0 {
            t
        } else if has_at_least(s, d.day as int) {
            with_date(t, safe_date(d.year as int, d.month as int, first_at_least(s, d.day as int) as int))
        } else {
            with_date(t, safe_date(d.year as int, d.month as int + 1, s[0] as int))
        }
    }

    /// The month pass: the first allowed month not before the current one, else the first
    /// allowed month of the next year; the day is clamped to the month's length.
    #[verifier::opaque]
    pub open spec fn month_pass(&self, t: Instant) -> Instant {
        let s = self.months@;
        let d = t.date;
        if s.len() == 0 {
            t
        } else if has_at_least(s, d.month as int) {
            with_date(t, safe_date(d.year as int, first_at_least(s, d.month as int) as int, d.day as int))
        } else {
            with_date(t, safe_date(d.year as int + 1, s[0] as int, d.day as int))
        }
    }

    /// The next run after `previous`: from the start of the following minute, the minute,
    /// hour, weekday, day and month passes in turn.
    pub open spec fn next_run(&self, previous: Instant) -> Instant {
        self.month_pass(
            self.day_pass(
                self.weekday_pass(self.hour_pass(self.minute_pass(next_minute_start(previous)))),
            ),
        )
    }
}

/// Adding up to a year of days to a valid date moves it at most into the next year.
proof fn lemma_add_days_year(d: Date, r: Date, k: int)
    requires
        d.wf(),
        r.wf(),
        0 <= k <= 365,
        r.number() == d.number() + k,
    ensures
        d.year <= r.year <= d.year + 1,
{
    lemma_number_in_year(d);
    lemma_number_in_year(r);
    if r.year < d.year {
        lemma_number_strictly_increasing(r, d);
    }
    if r.year > d.year + 1 {
        let j = Date { year: (d.year + 2) as i32, month: 1, day: 1 };
        let e = Date { year: d.year, month: 12, day: 31 };
        lemma_number_strictly_increasing(j, r);
        lemma_number_strictly_increasing(e, j);
        lemma_number_strictly_increasing(d, e);
        lemma_number_in_year(j);
        lemma_number_in_year(e);
        assert(days_in_month(d.year as int, 12) == 31);
        lemma_year_step(d.year as int + 1);
        lemma_year_step(d.year as int);
    }
}

impl Default for Interval {
    /// The interval of the empty expression, with every field a wildcard.
    fn default() -> (r: Interval)
        ensures
            r.expression@.len() == 0,
            r.minutes@.len() == 0,
            r.hours@.len() == 0,
            r.days@.len() == 0,
            r.months@.len() == 0,
            r.weekdays@.len() == 0,
    {
        Interval {
            expression: String::new(),
            minutes: Vec::new(),
            hours: Vec::new(),
            days: Vec::new(),
            months: Vec::new(),
            weekdays: Vec::new(),
        }
    }
}

/// The first value of `s` that is at least `v`, if any.
fn find_at_least(s: &Vec<u32>, v: u32) -> (r: Option<u32>)
    ensures
        r is Some <==> has_at_least(s@, v as int),
        r is Some ==> r->0 == first_at_least(s@, v as int) && r->0 >= v,
        r is Some ==> exists|k: int| 0 <= k < s@.len() && s@[k] == r->0,
{
    let mut i: usize = 0;
    while i < s.len()
        invariant
            i <= s.len(),
            forall|j: int| 0 <= j < i ==> s@[j] < v,
        decreases s.len() - i,
    {
        if s[i] >= v {
            proof {
                let c = choose|c: int|
                    0 <= c < s@.len() && s@[c] >= v && forall|j: int| 0 <= j < c ==> s@[j] < v;
                assert(0 <= i < s@.len() && s@[i as int] >= v && forall|j: int|
                    0 <= j < i ==> s@[j] < v);
                assert(c == i) by {
                    if c < i {
                        assert(s@[c] < v);
                    } else if c > i {
                        assert(s@[i as int] < v);
                    }
                }
            }
            assert(s@[i as int] == s[i as int]);
            return Some(s[i]);
        }
        i += 1;
    }
    None
}

/// One hour later.
fn plus_one_hour(t: Instant) -> (r: Instant)
    requires
        t.wf(),
        t.date.year < MAX_YEAR,
    ensures
        r == add_hour(t),
        r.wf(),
        r.seconds() == t.seconds() + 3600,
        t.date.year <= r.date.year <= t.date.year + 1,
{
    if t.hour < 23 {
        Instant { date: t.date, hour: t.hour + 1, minute: t.minute, second: t.second }
    } else {
        proof {
            lemma_number_bounds(t.date);
        }
        let date = t.date.add_days(1);
        proof {
            lemma_add_days_year(t.date, date, 1);
        }
        Instant { date, hour: 0, minute: t.minute, second: t.second }
    }
}

/// The same time of day, `n` days later, for up to a week.
fn plus_days(t: Instant, n: i32) -> (r: Instant)
    requires
        t.wf(),
        t.date.year < MAX_YEAR,
        0 <= n <= 7,
    ensures
        r == add_days(t, n as int),
        r.wf(),
        r.seconds() == t.seconds() + 86400 * n,
        t.date.year <= r.date.year <= t.date.year + 1,
{
    proof {
        lemma_number_bounds(t.date);
    }
    let date = t.date.add_days(n);
    proof {
        lemma_add_days_year(t.date, date, n as int);
    }
    Instant { date, hour: t.hour, minute: t.minute, second: t.second }
}

/// The same time of day on `target`, reached by moving `days` days.
fn shift_to(date: Instant, days: i32, Ghost(target): Ghost<Date>) -> (r: Instant)
    requires
        date.wf(),
        target.wf(),
        days == target.number() - date.date.number(),
        date.date.number() <= target.number(),
        date.date.year <= target.year <= date.date.year + 1,
    ensures
        r == with_date(date, target),
        r.wf(),
        date.seconds() <= r.seconds(),
        r.second == date.second,
        date.date.year <= r.date.year <= date.date.year + 1,
{
    proof {
        lemma_number_bounds(target);
        lemma_date_of_number(target);
    }
    let moved = date.date.add_days(days);
    Instant { date: moved, hour: date.hour, minute: date.minute, second: date.second }
}

impl Interval {
    /// Parses an expression of five whitespace-separated fields (minute, hour, day of month,
    /// month, weekday), each `*` or a comma-separated list of numbers within the field's range.
    pub fn new(expression: &str) -> (r: Result<Interval, Error>)
        ensures
            r is Ok <==> expression_ok(expression.spec_bytes()),
            r is Ok ==> ({
                let iv = r->Ok_0;
                let w = words(expression.spec_bytes());
                &&& iv.wf()
                &&& iv.expression@ == expression@
                &&& field_matches(iv.minutes@, w[0])
                &&& field_matches(iv.hours@, w[1])
                &&& field_matches(iv.days@, w[2])
                &&& field_matches(iv.months@, w[3])
                &&& field_matches(iv.weekdays@, w[4])
            }),
            r is Err ==> (r->Err_0.kind is InvalidIntervalExpression
                && r->Err_0.kind->InvalidIntervalExpression_0@ == expression@),
    {
        let bytes = expression.as_bytes();
        let fields = split_words(bytes);
        proof {
            assert(views(fields@) == words(expression.spec_bytes()));
        }
        if fields.len() != 5 {
            return Err(Error::new(ErrorKind::InvalidIntervalExpression(expression.to_owned())));
        }
        proof {
            assert forall|k: int| 0 <= k < 5 implies fields@[k]@ == words(expression.spec_bytes())[k] by {
                assert(views(fields@)[k] == fields@[k]@);
            }
        }
        let minutes = parse_field(&fields[0], 0, 59);
        let hours = parse_field(&fields[1], 0, 23);
        let days = parse_field(&fields[2], 1, 31);
        let months = parse_field(&fields[3], 1, 12);
        let weekdays = parse_field(&fields[4], 1, 7);
        match (minutes, hours, days, months, weekdays) {
            (Some(minutes), Some(hours), Some(days), Some(months), Some(weekdays)) => {
                Ok(Interval { expression: expression.to_owned(), minutes, hours, days, months, weekdays })
            },
            _ => Err(Error::new(ErrorKind::InvalidIntervalExpression(expression.to_owned()))),
        }
    }

    /// Days from weekday `from` to the next weekday `to`, zero when they are the same.
    pub fn days_to_weekday(from: u32, to: u32) -> (r: i64)
        requires
            from <= to + 7,
            to + 7 <= u32::MAX,
        ensures
            r == weekday_distance(from as int, to as int),
    {
        (((to + 7) - from) % 7) as i64
    }

    /// Days from `date` to day `day` of month `month` of `year` (month 13 being January of
    /// the next year), the day clamped to the month's length.
    pub fn days_to_safe_date(date: Date, year: i32, month: u32, day: u32) -> (r: i32)
        requires
            date.wf(),
            1 <= month <= 13,
            1 <= day,
            MIN_YEAR <= year <= MAX_YEAR,
            month == 13 ==> year < MAX_YEAR,
        ensures
            safe_date(year as int, month as int, day as int).wf(),
            r == safe_date(year as int, month as int, day as int).number() - date.number(),
    {
        let mut y = year;
        let mut m = month;
        if m > 12 {
            y = y + 1;
            m = m - 12;
        }
        let last = last_day_of_month(y, m);
        let d = if day <= last {
            day
        } else {
            last
        };
        let target = Date { year: y, month: m, day: d };
        date.days_until(&target)
    }

    pub fn next_minute_or_carry_hour(&self, date: Instant) -> (r: Instant)
        requires
            self.wf(),
            date.wf(),
            date.date.year < MAX_YEAR,
        ensures
            r == self.minute_pass(date),
            r.wf(),
            date.seconds() <= r.seconds(),
            r.second == date.second,
            date.date.year <= r.date.year <= date.date.year + 1,
    {
        reveal(Interval::minute_pass);
        if self.minutes.len() == 0 {
            return date;
        }
        let first = self.minutes[0];
        match find_at_least(&self.minutes, date.minute) {
            Some(minute) => Instant {
                date: date.date,
                hour: date.hour,
                minute,
                second: date.second,
            },
            None => plus_one_hour(
                Instant { date: date.date, hour: date.hour, minute: first, second: date.second },
            ),
        }
    }

    pub fn next_hour_or_carry_day(&self, date: Instant) -> (r: Instant)
        requires
            self.wf(),
            date.wf(),
            date.date.year < MAX_YEAR,
        ensures
            r == self.hour_pass(date),
            r.wf(),
            date.seconds() <= r.seconds(),
            r.second == date.second,
            date.date.year <= r.date.year <= date.date.year + 1,
    {
        reveal(Interval::hour_pass);
        if self.hours.len() == 0 {
            return date;
        }
        let first = self.hours[0];
        match find_at_least(&self.hours, date.hour) {
            Some(hour) => Instant {
                date: date.date,
                hour,
                minute: date.minute,
                second: date.second,
            },
            None => plus_days(
                Instant { date: date.date, hour: first, minute: date.minute, second: date.second },
                1,
            ),
        }
    }

    pub fn next_weekday_or_carry_month(&self, date: Instant) -> (r: Instant)
        requires
            self.wf(),
            date.wf(),
            date.date.year < MAX_YEAR,
        ensures
            r == self.weekday_pass(date),
            r.wf(),
            date.seconds() <= r.seconds(),
            r.second == date.second,
            date.date.year <= r.date.year <= date.date.year + 1,
    {
        reveal(Interval::weekday_pass);
        if self.weekdays.len() == 0 || self.days.len() != 0 {
            return date;
        }
        let current = date.date.weekday();
        let first = self.weekdays[0];
        let target = match find_at_least(&self.weekdays, current) {
            Some(weekday) => weekday,
            None => first,
        };
        let days = Interval::days_to_weekday(current, target);
        plus_days(date, days as i32)
    }

    pub fn next_day_or_carry_month(&self, date: Instant) -> (r: Instant)
        requires
            self.wf(),
            date.wf(),
            date.date.year < MAX_YEAR,
        ensures
            r == self.day_pass(date),
            r.wf(),
            date.seconds() <= r.seconds(),
            r.second == date.second,
            date.date.year <= r.date.year <= date.date.year + 1,
    {
        reveal(Interval::day_pass);
        if self.days.len() == 0 {
            return date;
        }
        let d = date.date;
        let first = self.days[0];
        match find_at_least(&self.days, d.day) {
            Some(day) => {
                let days = Interval::days_to_safe_date(d, d.year, d.month, day);
                let ghost target = safe_date(d.year as int, d.month as int, day as int);
                shift_to(date, days, Ghost(target))
            },
            None => {
                let days = Interval::days_to_safe_date(d, d.year, d.month + 1, first);
                let ghost target = safe_date(d.year as int, d.month as int + 1, first as int);
                proof {
                    lemma_number_strictly_increasing(d, target);
                }
                shift_to(date, days, Ghost(target))
            },
        }
    }

    pub fn next_month_or_carry_year(&self, date: Instant) -> (r: Instant)
        requires
            self.wf(),
            date.wf(),
            date.date.year < MAX_YEAR,
        ensures
            r == self.month_pass(date),
            r.wf(),
            date.seconds() <= r.seconds(),
            r.second == date.second,
            date.date.year <= r.date.year <= date.date.year + 1,
    {
        reveal(Interval::month_pass);
        if self.months.len() == 0 {
            return date;
        }
        let d = date.date;
        let first = self.months[0];
        match find_at_least(&self.months, d.month) {
            Some(month) => {
                let days = Interval::days_to_safe_date(d, d.year, month, d.day);
                let ghost target = safe_date(d.year as int, month as int, d.day as int);
                proof {
                    if month > d.month {
                        lemma_number_strictly_increasing(d, target);
                    } else {
                        assert(target == d);
                    }
                }
                shift_to(date, days, Ghost(target))
            },
            None => {
                let days = Interval::days_to_safe_date(d, d.year + 1, first, d.day);
                let ghost target = safe_date(d.year as int + 1, first as int, d.day as int);
                proof {
                    lemma_number_strictly_increasing(d, target);
                }
                shift_to(date, days, Ghost(target))
            },
        }
    }

    /// The next run after `previous`.
    pub fn next_time(&self, previous: Instant) -> (r: Instant)
        requires
            self.wf(),
            previous.wf(),
            previous.date.year <= MAX_YEAR - 6,
        ensures
            r == self.next_run(previous),
            r.wf(),
            r.second == 0,
            previous.seconds() < r.seconds(),
            previous.seconds() - previous.second + 60 <= r.seconds(),
    {
        let start = Instant {
            date: previous.date,
            hour: previous.hour,
            minute: previous.minute,
            second: 0,
        };
        let next = if previous.minute < 59 {
            Instant { date: start.date, hour: start.hour, minute: start.minute + 1, second: 0 }
        } else {
            plus_one_hour(Instant { date: start.date, hour: start.hour, minute: 0, second: 0 })
        };
        let next = self.next_minute_or_carry_hour(next);
        let next = self.next_hour_or_carry_day(next);
        let next = self.next_weekday_or_carry_month(next);
        let next = self.next_day_or_carry_month(next);
        let next = self.next_month_or_carry_year(next);
        next
    }

    /// Whether a run is due at `now`, the last one having been at `previous`.
    pub fn should_run(&self, previous: Instant, now: Instant) -> (r: bool)
        requires
            self.wf(),
            previous.wf(),
            previous.date.year <= MAX_YEAR - 6,
            now.wf(),
        ensures
            r == (self.next_run(previous).seconds() <= now.seconds()),
    {
        let next = self.next_time(previous);
        next.is_at_or_before(&now)
    }
}

} // verus!
