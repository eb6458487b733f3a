use pipeline_scheduler::calendar::Instant;
use pipeline_scheduler::interval::Interval;

fn at(year: i32, month: u32, day: u32, hour: u32, minute: u32, second: u32) -> Instant {
    Instant::new(year, month, day, hour, minute, second).expect("invalid instant")
}

#[test]
fn expression_valid() {
    let interval = Interval::new("0,45,30,15 10,20 * * *").expect("invalid expression");

    assert_eq!(interval.minutes[0], 0);
    assert_eq!(interval.minutes[1], 15);
    assert_eq!(interval.minutes[2], 30);
    assert_eq!(interval.minutes[3], 45);
    assert_eq!(interval.hours[0], 10);
    assert_eq!(interval.hours[1], 20);
    assert_eq!(interval.days.is_empty(), true);
    assert_eq!(interval.months.is_empty(), true);
    assert_eq!(interval.weekdays.is_empty(), true);
}

#[test]
fn expression_invalid_chars() {
    let interval = Interval::new("0,45 a * * *");

    assert_eq!(interval.is_err(), true);
}

#[test]
fn expression_invalid_length() {
    let interval = Interval::new("0,45 * *");

    assert_eq!(interval.is_err(), true);
}

#[test]
fn minute_found() {
    let interval = Interval::new("0,30 * * * *").expect("invalid expression");

    let current_date = at(2019, 7, 1, 12, 15, 0);
    let next_date = interval.next_minute_or_carry_hour(current_date);

    assert_eq!(next_date, at(2019, 7, 1, 12, 30, 0));
}

#[test]
fn minute_carry_hour() {
    let interval = Interval::new("0,30 * * * *").expect("invalid expression");

    let current_date = at(2019, 7, 1, 12, 31, 0);
    let next_date = interval.next_minute_or_carry_hour(current_date);

    assert_eq!(next_date, at(2019, 7, 1, 13, 0, 0));
}

#[test]
fn minute_carry_hour_and_day() {
    let interval = Interval::new("0,30 * * * *").expect("invalid expression");

    let current_date = at(2019, 7, 1, 23, 31, 0);
    let next_date = interval.next_minute_or_carry_hour(current_date);

    assert_eq!(next_date, at(2019, 7, 2, 0, 0, 0));
}

#[test]
fn hour_found() {
    let interval = Interval::new("* 0,12 * * *").expect("invalid expression");

    let current_date = at(2019, 7, 1, 6, 0, 0);
    let next_date = interval.next_hour_or_carry_day(current_date);

    assert_eq!(next_date, at(2019, 7, 1, 12, 0, 0));
}

#[test]
fn hour_carry_day() {
    let interval = Interval::new("* 0,12 * * *").expect("invalid expression");

    let current_date = at(2019, 7, 1, 18, 0, 0);
    let next_date = interval.next_hour_or_carry_day(current_date);

    assert_eq!(next_date, at(2019, 7, 2, 0, 0, 0));
}

#[test]
fn hour_carry_day_and_month() {
    let interval = Interval::new("* 0,12 * * *").expect("invalid expression");

    let current_date = at(2019, 7, 31, 18, 0, 0);
    let next_date = interval.next_hour_or_carry_day(current_date);

    assert_eq!(next_date, at(2019, 8, 1, 0, 0, 0));
}

#[test]
fn day_found() {
    let interval = Interval::new("* * 1,20 * *").expect("invalid expression");

    let current_date = at(2019, 7, 10, 12, 0, 0);
    let next_date = interval.next_day_or_carry_month(current_date);

    assert_eq!(next_date, at(2019, 7, 20, 12, 0, 0));
}

#[test]
fn day_carry_month() {
    let interval = Interval::new("* * 1,20 * *").expect("invalid expression");

    let current_date = at(2019, 7, 25, 12, 0, 0);
    let next_date = interval.next_day_or_carry_month(current_date);

    assert_eq!(next_date, at(2019, 8, 1, 12, 0, 0));
}

#[test]
fn day_carry_month_and_year() {
    let interval = Interval::new("* * 1,20 * *").expect("invalid expression");

    let current_date = at(2019, 12, 25, 12, 0, 0);
    let next_date = interval.next_day_or_carry_month(current_date);

    assert_eq!(next_date, at(2020, 1, 1, 12, 0, 0));
}

#[test]
fn weekday_monday_friday() {
    assert_eq!(Interval::days_to_weekday(1, 5), 4);
}

#[test]
fn weekday_friday_monday() {
    assert_eq!(Interval::days_to_weekday(5, 1), 3);
}

#[test]
fn weekday_sunday_monday() {
    assert_eq!(Interval::days_to_weekday(7, 1), 1);
}

#[test]
fn weekday_sunday_sunday() {
    assert_eq!(Interval::days_to_weekday(7, 7), 0);
}

#[test]
fn weekday_found() {
    let interval = Interval::new("* * * * 1,4").expect("invalid expression");

    let current_date = at(2019, 7, 2, 12, 0, 0);
    let next_date = interval.next_weekday_or_carry_month(current_date);

    assert_eq!(next_date, at(2019, 7, 4, 12, 0, 0));
}

#[test]
fn weekday_carry_month() {
    let interval = Interval::new("* * * * 1,4").expect("invalid expression");

    let current_date = at(2019, 7, 30, 12, 0, 0);
    let next_date = interval.next_weekday_or_carry_month(current_date);

    assert_eq!(next_date, at(2019, 8, 1, 12, 0, 0));
}

#[test]
fn weekday_carry_month_and_year() {
    let interval = Interval::new("* * * * 1,4").expect("invalid expression");

    let current_date = at(2019, 12, 31, 12, 0, 0);
    let next_date = interval.next_weekday_or_carry_month(current_date);

    assert_eq!(next_date, at(2020, 1, 2, 12, 0, 0));
}

#[test]
fn month_found() {
    let interval = Interval::new("* * * 1,6 *").expect("invalid expression");

    let current_date = at(2019, 3, 1, 12, 0, 0);
    let next_date = interval.next_month_or_carry_year(current_date);

    assert_eq!(next_date, at(2019, 6, 1, 12, 0, 0));
}

#[test]
fn month_carry_year() {
    let interval = Interval::new("* * * 1,6 *").expect("invalid expression");

    let current_date = at(2019, 8, 1, 12, 0, 0);
    let next_date = interval.next_month_or_carry_year(current_date);

    assert_eq!(next_date, at(2020, 1, 1, 12, 0, 0));
}

#[test]
fn next_time_hour() {
    let interval = Interval::new("0 0,6,12,18 * * *").expect("invalid expression");

    let mut next_date = at(2019, 7, 1, 12, 0, 0);

    next_date = interval.next_time(next_date);
    assert_eq!(next_date, at(2019, 7, 1, 18, 0, 0));

    next_date = interval.next_time(next_date);
    assert_eq!(next_date, at(2019, 7, 2, 0, 0, 0));

    next_date = interval.next_time(next_date);
    assert_eq!(next_date, at(2019, 7, 2, 6, 0, 0));
}

#[test]
fn next_time_weekday() {
    let interval = Interval::new("0 6,18 * * 1").expect("invalid expression");

    let mut next_date = at(2019, 7, 1, 6, 0, 0);

    next_date = interval.next_time(next_date);
    assert_eq!(next_date, at(2019, 7, 1, 18, 0, 0));

    next_date = interval.next_time(next_date);
    assert_eq!(next_date, at(2019, 7, 8, 6, 0, 0));

    next_date = interval.next_time(next_date);
    assert_eq!(next_date, at(2019, 7, 8, 18, 0, 0));

    next_date = interval.next_time(next_date);
    assert_eq!(next_date, at(2019, 7, 15, 6, 0, 0));
}

#[test]
fn next_time_day_end_month() {
    let interval = Interval::new("0 0 31 * *").expect("invalid expression");

    let mut next_date = at(2019, 1, 30, 0, 0, 0);

    next_date = interval.next_time(next_date);
    assert_eq!(next_date, at(2019, 1, 31, 0, 0, 0));

    next_date = interval.next_time(next_date);
    assert_eq!(next_date, at(2019, 2, 28, 0, 0, 0));

    next_date = interval.next_time(next_date);
    assert_eq!(next_date, at(2019, 3, 31, 0, 0, 0));

    next_date = interval.next_time(next_date);
    assert_eq!(next_date, at(2019, 4, 30, 0, 0, 0));
}

#[test]
fn next_time_month_end_month() {
    let interval = Interval::new("0 0 31 1,2,3,4 *").expect("invalid expression");

    let mut next_date = at(2019, 1, 30, 0, 0, 0);

    next_date = interval.next_time(next_date);
    assert_eq!(next_date, at(2019, 1, 31, 0, 0, 0));

    next_date = interval.next_time(next_date);
    assert_eq!(next_date, at(2019, 2, 28, 0, 0, 0));

    next_date = interval.next_time(next_date);
    assert_eq!(next_date, at(2019, 3, 31, 0, 0, 0));

    next_date = interval.next_time(next_date);
    assert_eq!(next_date, at(2019, 4, 30, 0, 0, 0));
}
