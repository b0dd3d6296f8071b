use attendance_cli::date::Date;
use attendance_cli::handler::day::category;
use attendance_cli::model::{Category, WeekendDay};

fn date(day: i8) -> Date {
    Date::new(2025, 12, day).unwrap()
}

#[test]
fn categorises_saturday() {
    let date = date(13);
    assert_eq!(category(&date), Category::Weekend(WeekendDay::Saturday))
}

#[test]
fn categorises_sunday() {
    let date = date(14);
    assert_eq!(category(&date), Category::Weekend(WeekendDay::Sunday))
}

#[test]
fn categorises_bank_holiday() {
    let date = date(25);
    assert_eq!(category(&date), Category::BankHoliday)
}

#[test]
fn categorises_workday() {
    let date = date(12);
    assert_eq!(category(&date), Category::Workday)
}

#[test]
fn weekday_comes_from_the_calendar() {
    // 2025-12-01 was a Monday, 2024-02-29 a Thursday, 1970-01-01 a Thursday.
    assert_eq!(Date::new(2025, 12, 1).unwrap().weekday(), 0);
    assert_eq!(Date::new(2024, 2, 29).unwrap().weekday(), 3);
    assert_eq!(Date::new(1970, 1, 1).unwrap().weekday(), 3);
    assert_eq!(Date::new(-9999, 1, 1).unwrap().weekday(), 0);
}

#[test]
fn boxing_day_and_easter_monday_are_bank_holidays() {
    assert_eq!(category(&Date::new(2025, 12, 26).unwrap()), Category::BankHoliday);
    assert_eq!(category(&Date::new(2025, 4, 21).unwrap()), Category::BankHoliday);
    assert_eq!(category(&Date::new(2022, 9, 19).unwrap()), Category::BankHoliday);
    assert_eq!(category(&Date::new(2025, 4, 22).unwrap()), Category::Workday);
}

#[test]
fn rejects_dates_that_do_not_exist() {
    assert!(Date::new(2025, 2, 29).is_none());
    assert!(Date::new(2024, 2, 29).is_some());
    assert!(Date::new(1900, 2, 29).is_none());
    assert!(Date::new(2000, 2, 29).is_some());
    assert!(Date::new(2025, 13, 1).is_none());
    assert!(Date::new(2025, 4, 31).is_none());
    assert!(Date::new(10000, 1, 1).is_none());
    assert!(Date::new(-10000, 1, 1).is_none());
    assert!(Date::new(2025, 1, 0).is_none());
}

#[test]
fn formats_dates() {
    assert_eq!(Date::new(2025, 12, 1).unwrap().to_iso(), "2025-12-01");
    assert_eq!(Date::new(7, 3, 9).unwrap().to_iso(), "0007-03-09");
    assert_eq!(Date::new(-1, 3, 9).unwrap().to_iso(), "-000001-03-09");
}
