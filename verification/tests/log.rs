use attendance_cli::cli::log::{self, Arguments};
use attendance_cli::date::Date;
use attendance_cli::error::Error;
use attendance_cli::handler::log::{log, log_with};
use attendance_cli::model::{Key, Mode, Record, RecordType, WeekendDay};

const NOW: i128 = 1_765_000_000_000_000_000;

fn date(day: i8) -> Date {
    Date::new(2025, 12, day).unwrap()
}

fn record(date: Date, mode: Mode, created: i128) -> Record {
    Record::new(7, created, mode, RecordType::WorkingFromHome, Key::FullDay(date), None)
}

fn args(record_date: Date, mode: log::Mode) -> Arguments {
    Arguments::new(log::RecordType::WorkingFromHome, Some(record_date), None, None, mode)
}

/// Logs as the command does, adding the record to the log when it is accepted.
fn log_into(args: &Arguments, repository: &mut Vec<Record>) -> Result<(), Error> {
    let record = log_with(args, repository.clone(), 99, NOW, &date(1))?;
    repository.push(record);
    Ok(())
}

fn contents(repository: &[Record]) -> Vec<(Date, Mode)> {
    repository.iter().map(|r| (r.key().date(), r.mode())).collect()
}

#[test]
fn returns_error_if_bank_holiday() {
    let record_date = date(25);
    let args = args(record_date, log::Mode::Create);
    let mut repository = vec![];
    let result = log_into(&args, &mut repository);
    assert_eq!(result.unwrap_err(), Error::IsBankHoliday(record_date))
}

#[test]
fn returns_error_if_saturday() {
    let record_date = date(13);
    let args = args(record_date, log::Mode::Create);
    let mut repository = vec![];
    let result = log_into(&args, &mut repository);
    assert_eq!(result.unwrap_err(), Error::IsWeekend(record_date, WeekendDay::Saturday))
}

#[test]
fn returns_error_if_sunday() {
    let record_date = date(14);
    let args = args(record_date, log::Mode::Create);
    let mut repository = vec![];
    let result = log_into(&args, &mut repository);
    assert_eq!(result.unwrap_err(), Error::IsWeekend(record_date, WeekendDay::Sunday))
}

#[test]
fn returns_error_if_record_exits_for_day() {
    let record_date = date(12);
    let args = args(record_date, log::Mode::Create);
    let mut repository = vec![record(record_date, Mode::Create, NOW - 100)];
    let result = log_into(&args, &mut repository);
    assert_eq!(result.unwrap_err(), Error::RecordExistsForDate(record_date))
}

#[test]
fn adds_record_to_repository_if_not_present() {
    let record_date = date(12);
    let args = args(record_date, log::Mode::Create);
    let mut repository = vec![record(date(11), Mode::Create, NOW - 100)];
    log_into(&args, &mut repository).unwrap();
    assert_eq!(contents(&repository), vec![(date(11), Mode::Create), (date(12), Mode::Create)])
}

#[test]
fn adds_record_to_repository_if_not_latest_state_is_delete() {
    let record_date = date(12);
    let args = args(record_date, log::Mode::Create);
    let mut repository = vec![
        record(date(11), Mode::Create, NOW - 100),
        record(record_date, Mode::Delete, NOW - 50),
    ];
    log_into(&args, &mut repository).unwrap();
    assert_eq!(
        contents(&repository),
        vec![(date(11), Mode::Create), (date(12), Mode::Delete), (date(12), Mode::Create)]
    )
}

#[test]
fn log_returns_error_if_no_record_exists_for_date() {
    let record_date = date(12);
    let mut repository = vec![];
    let result = log_into(&args(record_date, log::Mode::Append), &mut repository);
    assert_eq!(result.unwrap_err(), Error::NoRecordToAppend(record_date));
    let result = log_into(&args(record_date, log::Mode::Delete), &mut repository);
    assert_eq!(result.unwrap_err(), Error::NoRecordToDelete(record_date))
}

#[test]
fn appends_existing_record() {
    let record_date = date(12);
    let args = args(record_date, log::Mode::Append);
    let mut repository = vec![record(record_date, Mode::Create, NOW - 100)];
    log_into(&args, &mut repository).unwrap();
    assert_eq!(contents(&repository), vec![(date(12), Mode::Create), (date(12), Mode::Append)])
}

#[test]
fn deletes_existing_record() {
    let record_date = date(12);
    let args = args(record_date, log::Mode::Delete);
    let mut repository = vec![record(record_date, Mode::Create, NOW - 100)];
    log_into(&args, &mut repository).unwrap();
    assert_eq!(contents(&repository), vec![(date(12), Mode::Create), (date(12), Mode::Delete)])
}

#[test]
fn logged_record_carries_the_arguments() {
    let args = Arguments::new(
        log::RecordType::AnnualLeave,
        Some(date(3)),
        Some(log::HalfDay::Pm),
        Some("Monza".to_string()),
        log::Mode::Create,
    );
    let record = log_with(&args, vec![], 42, NOW, &date(1)).unwrap();
    assert_eq!(record.id(), 42);
    assert_eq!(record.created(), NOW);
    assert_eq!(record.record_type(), RecordType::AnnualLeave);
    assert_eq!(record.key(), Key::HalfDay { date: date(3), half: attendance_cli::model::HalfDay::Pm });
    assert_eq!(record.description(), Some("Monza"));
    assert_eq!(record.mode(), Mode::Create);
}

#[test]
fn defaults_to_today() {
    let args = Arguments::new(log::RecordType::Office, None, None, None, log::Mode::Create);
    // 2025-12-06 is a Saturday, whatever the time of creation.
    let result = log_with(&args, vec![], 1, NOW, &date(6));
    assert_eq!(result.unwrap_err(), Error::IsWeekend(date(6), WeekendDay::Saturday));
    // The creation time falls on 2025-12-06 in UTC; today's date decides.
    let record = log_with(&args, vec![], 1, NOW, &date(5)).unwrap();
    assert_eq!(record.key(), Key::FullDay(date(5)));
}

#[test]
fn a_half_day_is_taken_by_the_full_day() {
    let mut repository = vec![record(date(12), Mode::Create, NOW - 100)];
    let half = Arguments::new(log::RecordType::Sick, Some(date(12)), Some(log::HalfDay::Am), None, log::Mode::Create);
    assert_eq!(log_into(&half, &mut repository).unwrap_err(), Error::RecordExistsForDate(date(12)));
}

#[test]
fn the_command_stamps_records_with_a_fresh_version_4_id() {
    let args = args(date(12), log::Mode::Create);
    let record = log(&args, vec![]);
    // Whatever today is, 2025-12-12 is a workday with nothing logged.
    let record = record.unwrap();
    assert_eq!((record.id() >> 76) & 0xf, 4);
    assert_eq!((record.id() >> 62) & 0x3, 2);
    assert!(record.created() > NOW);
}

#[test]
fn the_local_date_of_an_instant_lies_within_a_day_of_utc() {
    // 2025-12-06T05:46:40Z: on any clock within ±25:59:59 of UTC.
    let local = attendance_cli::time::local_date(NOW);
    assert!(local == date(5) || local == date(6) || local == date(7));
    // Far from the epoch, so a body that handed back a day count would fail.
    assert_ne!(local, Date::new(1970, 1, 1).unwrap());
}
