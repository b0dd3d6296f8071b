use attendance_cli::date::Date;
use attendance_cli::handler::records::Records;
use attendance_cli::model::{HalfDay, Key, Mode, Record, RecordType};

const CREATED: i128 = 1_765_000_000_000_000_000;
const SECOND: i128 = 1_000_000_000;

fn date(day: i8) -> Date {
    Date::new(2025, 12, day).unwrap()
}

fn record(created: i128, mode: Mode, key: Key) -> Record {
    Record::new(1, created, mode, RecordType::Office, key, None)
}

fn records() -> Records {
    Records::new(vec![
        record(CREATED, Mode::Create, Key::FullDay(date(1))),
        record(CREATED, Mode::Create, Key::FullDay(date(2))),
        record(CREATED + 10 * SECOND, Mode::Delete, Key::FullDay(date(2))),
        record(CREATED, Mode::Create, Key::HalfDay { date: date(3), half: HalfDay::Am }),
        record(CREATED + 10 * SECOND, Mode::Delete, Key::HalfDay { date: date(3), half: HalfDay::Am }),
        record(CREATED + 20 * SECOND, Mode::Create, Key::HalfDay { date: date(3), half: HalfDay::Pm }),
        record(CREATED, Mode::Create, Key::HalfDay { date: date(4), half: HalfDay::Am }),
    ])
}

#[test]
fn returns_true_if_latest_record_for_day_is_active() {
    let key = Key::FullDay(date(1));
    assert!(records().contains(&key))
}

#[test]
fn records_returns_true_if_latest_record_for_part_of_day_is_active() {
    let key = Key::FullDay(date(3));
    assert!(records().contains(&key));
    let key = Key::HalfDay { date: date(3), half: HalfDay::Pm };
    assert!(records().contains(&key))
}

#[test]
fn returns_false_if_latest_record_for_day_is_deleted() {
    let key = Key::FullDay(date(2));
    assert!(!records().contains(&key))
}

#[test]
fn records_returns_false_if_no_record_for_day() {
    let key = Key::FullDay(date(5));
    assert!(!records().contains(&key));
    let key = Key::HalfDay { date: date(5), half: HalfDay::Am };
    assert!(!records().contains(&key))
}

#[test]
fn returns_true_if_latest_record_for_full_day_is_active() {
    let key = Key::HalfDay { date: date(1), half: HalfDay::Am };
    assert!(records().contains(&key))
}

#[test]
fn returns_false_if_latest_record_for_part_of_day_is_deleted() {
    let key = Key::HalfDay { date: date(3), half: HalfDay::Am };
    assert!(!records().contains(&key))
}

#[test]
fn returns_false_if_latest_record_for_full_day_is_deleted() {
    let key = Key::HalfDay { date: date(2), half: HalfDay::Am };
    assert!(!records().contains(&key))
}

#[test]
fn returns_false_if_no_record_for_part_of_day() {
    let key = Key::HalfDay { date: date(4), half: HalfDay::Pm };
    assert!(!records().contains(&key))
}

#[test]
fn records_made_at_the_same_instant_count_in_log_order() {
    let deleted_last = Records::new(vec![
        record(CREATED, Mode::Create, Key::FullDay(date(8))),
        record(CREATED, Mode::Delete, Key::FullDay(date(8))),
    ]);
    assert!(!deleted_last.contains(&Key::FullDay(date(8))));
    let created_last = Records::new(vec![
        record(CREATED, Mode::Delete, Key::FullDay(date(8))),
        record(CREATED, Mode::Create, Key::FullDay(date(8))),
    ]);
    assert!(created_last.contains(&Key::FullDay(date(8))));
}

#[test]
fn the_latest_record_wins_whatever_its_place_in_the_log() {
    let records = Records::new(vec![
        record(CREATED + SECOND, Mode::Append, Key::FullDay(date(9))),
        record(CREATED, Mode::Delete, Key::FullDay(date(9))),
    ]);
    assert!(records.contains(&Key::FullDay(date(9))));
}
