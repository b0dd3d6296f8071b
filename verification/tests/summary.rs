use attendance_cli::cli::summary::Arguments;
use attendance_cli::date::Date;
use attendance_cli::handler::summary::{last_n_months, summarise, summarise_month, summary_on};
use attendance_cli::model::{HalfDay, Key, Mode, Record, RecordType, Summary};

/// 2025-10-31T10:00:00Z
const CREATED: i128 = 1_761_904_800_000_000_000;

fn date(year: i16, month: i8, day: i8) -> Date {
    Date::new(year, month, day).unwrap()
}

fn record_on(day: Date, record_type: RecordType) -> Record {
    Record::new(0x0a766a52c8694be5a6954b258e2f2e87, CREATED, Mode::Create, record_type, Key::FullDay(day), None)
}

fn workdays(s: &Summary) -> f32 {
    s.workday_halves as f32 / 2.0
}

fn target_days(s: &Summary) -> f32 {
    s.target_quarters() as f32 / 4.0
}

fn office_days(s: &Summary) -> f32 {
    s.office_days as f32
}

fn attendance(s: &Summary) -> f32 {
    match s.attendance_thousandths {
        Some(a) => a as f32 / 1000.0,
        None => f32::NAN,
    }
}

fn today() -> Date {
    date(2025, 12, 3)
}

#[test]
fn summarises_latest_month_when_no_records() {
    let args = Arguments::new(None, false);
    let printed = summary_on(&args, vec![], &today());
    assert_eq!(printed.len(), 1);
    let s = &printed[0];
    assert_eq!(s.month, date(2025, 12, 1));
    assert_eq!(target_days(s), 10.5);
    assert_eq!(office_days(s), 0.0);
    assert_eq!(workdays(s), 21.0);
    assert_eq!(attendance(s), 0.0);
}

#[test]
fn summarises_each_month() {
    let records = vec![
        record_on(date(2025, 9, 1), RecordType::Office),
        record_on(date(2025, 10, 1), RecordType::Office),
        record_on(date(2025, 11, 1), RecordType::Office),
    ];
    let actual = summarise(records);
    let expected: Vec<(Date, f32, f32, f32, f32)> = vec![
        (date(2025, 9, 1), 11.0, 1.0, 22.0, 0.045),
        (date(2025, 10, 1), 11.5, 1.0, 23.0, 0.043),
        (date(2025, 11, 1), 10.0, 1.0, 20.0, 0.05),
    ];
    let actual: Vec<(Date, f32, f32, f32, f32)> = actual
        .iter()
        .map(|s| (s.month, target_days(s), office_days(s), workdays(s), attendance(s)))
        .collect();
    assert_eq!(actual, expected)
}

#[test]
fn counts_office_days() {
    let month = date(2025, 10, 1);
    let records = vec![
        record_on(date(2025, 10, 1), RecordType::Office),
        record_on(date(2025, 10, 2), RecordType::Office),
        record_on(date(2025, 10, 6), RecordType::Office),
    ];
    let actual = summarise_month(&month, &records);
    assert_eq!(office_days(&actual), 3.0)
}

#[test]
fn counts_workdays() {
    let month = date(2025, 10, 1);
    let actual = summarise_month(&month, &vec![]);
    assert_eq!(workdays(&actual), 23.0)
}

#[test]
fn counts_workdays_including_exclusions() {
    let month = date(2025, 10, 1);
    let records = vec![
        record_on(date(2025, 10, 1), RecordType::WorkingFromHome),
        record_on(date(2025, 10, 2), RecordType::AnnualLeave),
        record_on(date(2025, 10, 6), RecordType::Sick),
    ];
    let actual = summarise_month(&month, &records);
    assert_eq!(workdays(&actual), 20.0)
}

#[test]
fn counts_workdays_excluding_bank_holidays() {
    let month = date(2025, 12, 1);
    let actual = summarise_month(&month, &vec![]);
    assert_eq!(workdays(&actual), 21.0)
}

#[test]
fn calculates_attendance() {
    let month = date(2025, 10, 1);
    let records = vec![
        record_on(date(2025, 10, 1), RecordType::Office),
        record_on(date(2025, 10, 2), RecordType::Office),
        record_on(date(2025, 10, 6), RecordType::Office),
    ];
    let actual = summarise_month(&month, &records);
    assert_eq!(attendance(&actual), 0.13)
}

#[test]
fn calculates_target_days() {
    let month = date(2025, 10, 1);
    let actual = summarise_month(&month, &vec![]);
    assert_eq!(target_days(&actual), 11.5)
}

#[test]
fn a_half_day_off_counts_half_a_workday() {
    let month = date(2025, 10, 1);
    let half = Record::new(1, CREATED, Mode::Create, RecordType::AnnualLeave,
        Key::HalfDay { date: date(2025, 10, 7), half: HalfDay::Pm }, None);
    let actual = summarise_month(&month, &vec![half]);
    assert_eq!(actual.workday_halves, 45);
    assert_eq!(workdays(&actual), 22.5);
    assert_eq!(target_days(&actual), 11.25);
}

#[test]
fn no_workdays_leaves_attendance_undefined() {
    let month = date(2025, 10, 1);
    let records: Vec<Record> = (1..=31)
        .filter_map(|d| Date::new(2025, 10, d))
        .map(|d| record_on(d, RecordType::AnnualLeave))
        .collect();
    let actual = summarise_month(&month, &records);
    assert_eq!(actual.workday_halves, 0);
    assert_eq!(actual.attendance_thousandths, None);
}

#[test]
fn lists_the_months_asked_for_latest_first() {
    let months = last_n_months(3, &date(2025, 2, 14));
    assert_eq!(months, vec![date(2025, 2, 1), date(2025, 1, 1), date(2024, 12, 1)]);
    assert_eq!(last_n_months(0, &date(2025, 2, 14)), vec![]);
    assert_eq!(last_n_months(5, &date(-9999, 2, 14)), vec![date(-9999, 2, 1), date(-9999, 1, 1)]);
}

#[test]
fn summarises_the_latest_state_of_each_day_in_the_months_asked_for() {
    let args = Arguments::new(Some(2), false);
    let records = vec![
        record_on(date(2025, 11, 3), RecordType::Office),
        Record::new(2, CREATED + 1, Mode::Delete, RecordType::Office, Key::FullDay(date(2025, 11, 3)), None),
        record_on(date(2025, 11, 4), RecordType::Office),
        record_on(date(2025, 12, 1), RecordType::Office),
        record_on(date(2025, 10, 1), RecordType::Office),
    ];
    let printed = summary_on(&args, records, &today());
    let months: Vec<Date> = printed.iter().map(|s| s.month).collect();
    assert_eq!(months, vec![date(2025, 12, 1), date(2025, 11, 1)]);
    assert_eq!(printed[0].office_days, 1);
    assert_eq!(printed[1].office_days, 1);
}

#[test]
fn full_and_half_days_of_one_month_share_its_summary() {
    let args = Arguments::new(Some(2), false);
    let records = vec![
        record_on(date(2025, 10, 1), RecordType::Office),
        record_on(date(2025, 11, 3), RecordType::Office),
        Record::new(3, CREATED, Mode::Create, RecordType::Office,
            Key::HalfDay { date: date(2025, 10, 2), half: HalfDay::Am }, None),
    ];
    let printed = summary_on(&args, records, &date(2025, 11, 5));
    let actual: Vec<(Date, f32, f32, f32, f32)> = printed
        .iter()
        .map(|s| (s.month, target_days(s), office_days(s), workdays(s), attendance(s)))
        .collect();
    assert_eq!(actual, vec![
        (date(2025, 11, 1), 10.0, 1.0, 20.0, 0.05),
        (date(2025, 10, 1), 11.5, 2.0, 23.0, 0.087),
    ]);
}

#[test]
fn the_latest_exclusion_of_a_date_decides_its_weight() {
    // On one date the afternoon's record comes after the full day's.
    let month = date(2025, 10, 1);
    let records = vec![
        Record::new(1, CREATED, Mode::Create, RecordType::WorkingFromHome,
            Key::HalfDay { date: date(2025, 10, 2), half: HalfDay::Pm }, None),
        Record::new(2, CREATED, Mode::Create, RecordType::WorkingFromHome, Key::FullDay(date(2025, 10, 3)), None),
    ];
    let s = summarise_month(&month, &records);
    assert_eq!(workdays(&s), 21.5);
}

#[test]
fn no_months_given_is_one_month() {
    let records = vec![
        record_on(date(2025, 12, 1), RecordType::Office),
        record_on(date(2025, 11, 3), RecordType::Office),
    ];
    let unset = summary_on(&Arguments::new(None, false), records.clone(), &today());
    let one = summary_on(&Arguments::new(Some(1), true), records, &today());
    assert_eq!(unset, one);
    assert_eq!(unset.len(), 1);
    assert_eq!(unset[0].month, date(2025, 12, 1));
}

#[test]
fn deleting_a_day_is_removing_its_records() {
    let args = Arguments::new(Some(2), false);
    let kept = record_on(date(2025, 12, 2), RecordType::Office);
    let gone = record_on(date(2025, 12, 1), RecordType::Office);
    let delete = Record::new(9, CREATED + 5, Mode::Delete, RecordType::Office, Key::FullDay(date(2025, 12, 1)), None);
    let deleted = summary_on(&args, vec![gone, kept.clone(), delete], &today());
    let removed = summary_on(&args, vec![kept], &today());
    assert_eq!(deleted, removed);
    assert_eq!(deleted[0].office_days, 1);
}
