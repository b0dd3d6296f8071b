use attendance_cli::cli::show::Arguments;
use attendance_cli::date::Date;
use attendance_cli::handler::show::show;
use attendance_cli::model::{Key, Mode, Record, RecordType};

const MINUTE: i128 = 60_000_000_000;
/// 2025-12-01T10:00:00Z
const START: i128 = 1_764_583_200_000_000_000;

fn record(day: i8, minute: i8) -> Record {
    let created = START + (day as i128 - 1) * 1440 * MINUTE + minute as i128 * MINUTE;
    Record::new(
        (day as u128) * 100 + minute as u128,
        created,
        Mode::Create,
        RecordType::Office,
        Key::FullDay(Date::new(2025, 12, day).unwrap()),
        None,
    )
}

fn ids(records: &[Record]) -> Vec<u128> {
    records.iter().map(|r| r.id()).collect()
}

#[test]
fn prints_top_n_records_with_latest_first() {
    let first = record(1, 10);
    let second = record(1, 15);
    let fourth = record(1, 25);
    let third = record(1, 20);
    let args = Arguments::new(2, None);
    let printed = show(&args, &vec![first, second, fourth.clone(), third.clone()]);
    assert_eq!(ids(&printed), ids(&[fourth, third]))
}

#[test]
fn prints_all_records_if_top_greater_than_record_size() {
    let first = record(1, 10);
    let second = record(1, 15);
    let args = Arguments::new(3, None);
    let printed = show(&args, &vec![first.clone(), second.clone()]);
    assert_eq!(ids(&printed), ids(&[second, first]))
}

#[test]
fn prints_all_records_for_requested_date() {
    let first = record(1, 10);
    let second = record(1, 15);
    let third = record(2, 5);
    let args = Arguments::new(1, Some(Date::new(2025, 12, 1).unwrap()));
    let printed = show(&args, &vec![first, second.clone(), third]);
    assert_eq!(ids(&printed), ids(&[second]))
}

#[test]
fn keeps_log_order_between_records_made_together() {
    let a = record(1, 10);
    let b = Record::new(7, a.created(), Mode::Append, RecordType::Sick, a.key(), None);
    let printed = show(&Arguments::new(10, None), &vec![a.clone(), b.clone()]);
    assert_eq!(ids(&printed), ids(&[a, b]))
}

#[test]
fn shows_nothing_when_top_is_zero() {
    let printed = show(&Arguments::new(0, None), &vec![record(1, 10)]);
    assert!(printed.is_empty())
}
