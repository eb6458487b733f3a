use pipeline_scheduler::calendar::{Date, Instant};
use pipeline_scheduler::error::ErrorKind;
use pipeline_scheduler::interval::Interval;

fn at(year: i32, month: u32, day: u32, hour: u32, minute: u32, second: u32) -> Instant {
    Instant::new(year, month, day, hour, minute, second).expect("invalid instant")
}

#[test]
fn next_time_wraps_minute_and_carries_hour() {
    let interval = Interval::new("0,30 * * * *").unwrap();
    assert_eq!(interval.next_time(at(2019, 7, 1, 12, 31, 0)), at(2019, 7, 1, 13, 0, 0));
}

#[test]
fn next_time_is_strictly_later_and_on_a_minute() {
    let interval = Interval::new("* * * * *").unwrap();
    let next = interval.next_time(at(2019, 7, 1, 12, 31, 45));
    assert_eq!(next, at(2019, 7, 1, 12, 32, 0));
    let again = interval.next_time(next);
    assert_eq!(again, at(2019, 7, 1, 12, 33, 0));
    let interval = Interval::new("0 0 1 1 *").unwrap();
    assert_eq!(interval.next_time(at(2019, 12, 31, 23, 59, 30)), at(2020, 1, 1, 0, 0, 0));
    assert_eq!(interval.next_time(at(2020, 1, 1, 0, 0, 0)), at(2021, 1, 1, 0, 0, 0));
}

#[test]
fn day_set_wins_over_weekday_set() {
    // 2019-07-02 is a Tuesday; the weekday field asks for Mondays but is ignored.
    let interval = Interval::new("0 0 10 * 1").unwrap();
    assert_eq!(interval.next_time(at(2019, 7, 2, 0, 0, 0)), at(2019, 7, 10, 0, 0, 0));
}

#[test]
fn month_pass_clamps_day_to_month_length() {
    let interval = Interval::new("0 0 31 2 *").unwrap();
    assert_eq!(interval.next_time(at(2019, 1, 30, 0, 0, 0)), at(2019, 2, 28, 0, 0, 0));
}

#[test]
fn safe_date_clamps_and_carries_into_next_year() {
    let d = Date::new(2019, 12, 25).unwrap();
    assert_eq!(Interval::days_to_safe_date(d, 2019, 13, 1), 7);
    let d = Date::new(2019, 1, 30).unwrap();
    assert_eq!(Interval::days_to_safe_date(d, 2019, 2, 31), 29);
}

#[test]
fn should_run_compares_next_run_with_now() {
    let interval = Interval::new("0,30 * * * *").unwrap();
    let previous = at(2019, 7, 1, 12, 31, 0);
    assert!(!interval.should_run(previous, at(2019, 7, 1, 12, 59, 59)));
    assert!(interval.should_run(previous, at(2019, 7, 1, 13, 0, 0)));
    assert!(interval.should_run(previous, at(2019, 7, 2, 0, 0, 0)));
}

#[test]
fn expression_keeps_duplicates_and_sorts() {
    let interval = Interval::new(" 5,1,5\t2 *  *\n7,1 ").unwrap();
    assert_eq!(interval.minutes, vec![1, 5, 5]);
    assert_eq!(interval.hours, vec![2]);
    assert!(interval.days.is_empty());
    assert!(interval.months.is_empty());
    assert_eq!(interval.weekdays, vec![1, 7]);
    assert_eq!(interval.expression, " 5,1,5\t2 *  *\n7,1 ");
}

#[test]
fn expression_bounds_are_inclusive() {
    assert!(Interval::new("0,59 0,23 1,31 1,12 1,7").is_ok());
    assert!(Interval::new("60 * * * *").is_err());
    assert!(Interval::new("* 24 * * *").is_err());
    assert!(Interval::new("* * 0 * *").is_err());
    assert!(Interval::new("* * 32 * *").is_err());
    assert!(Interval::new("* * * 0 *").is_err());
    assert!(Interval::new("* * * 13 *").is_err());
    assert!(Interval::new("* * * * 0").is_err());
    assert!(Interval::new("* * * * 8").is_err());
    assert!(Interval::new("99999999999 * * * *").is_err());
}

#[test]
fn expression_malformed_fields() {
    assert!(Interval::new("").is_err());
    assert!(Interval::new("* * * * * *").is_err());
    assert!(Interval::new("1,,2 * * * *").is_err());
    assert!(Interval::new(",1 * * * *").is_err());
    assert!(Interval::new("1, * * * *").is_err());
    assert!(Interval::new("1,* * * * *").is_err());
    assert!(Interval::new("** * * * *").is_err());
    assert!(Interval::new("-1 * * * *").is_err());
}

#[test]
fn invalid_expression_error_names_the_expression() {
    match Interval::new("0,45 a * * *") {
        Err(e) => match e.kind {
            ErrorKind::InvalidIntervalExpression(s) => assert_eq!(s, "0,45 a * * *"),
            other => panic!("unexpected kind {:?}", other),
        },
        Ok(_) => panic!("expression accepted"),
    }
}
