use earnings_scheduler::calendar::{Date, DatelikeExt, Weekday};

fn d(y: i64, m: i64, day: i64) -> Date {
    Date::from_ymd(y, m, day).unwrap()
}

#[test]
fn epoch_is_monday() {
    let first = d(1, 1, 1);
    assert_eq!(first.day_number_value(), 1);
    assert_eq!(first.weekday(), Weekday::Monday);
}

#[test]
fn known_weekdays() {
    assert_eq!(d(2018, 5, 4).weekday(), Weekday::Friday);
    assert_eq!(d(2018, 5, 5).weekday(), Weekday::Saturday);
    assert_eq!(d(2018, 5, 6).weekday(), Weekday::Sunday);
    assert_eq!(d(2018, 5, 7).weekday(), Weekday::Monday);
    assert_eq!(d(2018, 5, 8).weekday(), Weekday::Tuesday);
}

#[test]
fn closest_trading_day_saturday_steps_back_to_friday() {
    assert_eq!(d(2018, 5, 5).closest_trading_day(), d(2018, 5, 4));
}

#[test]
fn closest_trading_day_sunday_steps_back_two_days_to_friday() {
    assert_eq!(d(2018, 5, 6).closest_trading_day(), d(2018, 5, 4));
}

#[test]
fn closest_trading_day_keeps_a_weekday() {
    assert_eq!(d(2018, 5, 8).closest_trading_day(), d(2018, 5, 8));
}

#[test]
fn next_trading_day_after_friday_is_monday() {
    assert_eq!(d(2018, 5, 4).next_trading_day(), d(2018, 5, 7));
}

#[test]
fn next_trading_day_after_saturday_is_monday() {
    assert_eq!(d(2018, 5, 5).next_trading_day(), d(2018, 5, 7));
}

#[test]
fn next_trading_day_after_tuesday_is_wednesday() {
    assert_eq!(d(2018, 5, 8).next_trading_day(), d(2018, 5, 9));
}

#[test]
fn prev_trading_day_before_monday_is_friday() {
    assert_eq!(d(2018, 5, 7).prev_trading_day(), d(2018, 5, 4));
}

#[test]
fn prev_trading_day_before_sunday_is_friday() {
    assert_eq!(d(2018, 5, 6).prev_trading_day(), d(2018, 5, 4));
}

#[test]
fn from_ymd_rejects_bad_dates() {
    assert!(Date::from_ymd(2019, 2, 29).is_none());
    assert!(Date::from_ymd(2018, 13, 1).is_none());
    assert!(Date::from_ymd(2018, 0, 1).is_none());
    assert!(Date::from_ymd(2018, 4, 31).is_none());
    assert!(Date::from_ymd(0, 1, 1).is_none());
    assert!(Date::from_ymd(10000, 1, 1).is_none());
}

#[test]
fn from_ymd_accepts_leap_day() {
    assert!(Date::from_ymd(2020, 2, 29).is_some());
    assert!(Date::from_ymd(2000, 2, 29).is_some());
    assert!(Date::from_ymd(1900, 2, 29).is_none());
}

#[test]
fn last_representable_day() {
    assert_eq!(d(9999, 12, 31).day_number_value(), 3652059);
    assert!(Date::from_day_number(3652059).is_some());
    assert!(Date::from_day_number(3652060).is_none());
    assert!(Date::from_day_number(0).is_none());
}

#[test]
fn consecutive_days_count_up() {
    assert_eq!(d(2018, 5, 4).day_number_value() + 1, d(2018, 5, 5).day_number_value());
    assert_eq!(d(2018, 12, 31).day_number_value() + 1, d(2019, 1, 1).day_number_value());
    assert_eq!(d(2020, 2, 28).day_number_value() + 2, d(2020, 3, 1).day_number_value());
}

#[test]
fn plus_days_moves_by_the_offset() {
    assert_eq!(d(2018, 5, 4).plus_days(3), d(2018, 5, 7));
    assert_eq!(d(2018, 5, 4).plus_days(-4), d(2018, 4, 30));
}
