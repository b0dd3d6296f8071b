use attendance_cli::date::Date;
use attendance_cli::error::Error;
use attendance_cli::model::{HalfDay, Key, Mode, Record, RecordType, Summary, WeekendDay};
use attendance_cli::printer::cell::{Alignment, Attribute, Colour};
use attendance_cli::printer::record::Table;
use attendance_cli::printer::summary::{self, Output};
use attendance_cli::printer::{TableRecordPrinter, TableSummaryPrinter};

/// 2025-12-01T10:00:00Z
const CREATED: i128 = 1_764_583_200_000_000_000;

fn date(day: i8) -> Date {
    Date::new(2025, 12, day).unwrap()
}

#[test]
fn describes_errors() {
    assert_eq!(Error::Io("disk".to_string()).message(), "Io error: disk.");
    assert_eq!(Error::ReadFailure("gone".to_string()).message(), "Failed to read log file: gone.");
    assert_eq!(Error::WriteFailure("full".to_string()).message(), "Failed to write to log file: full.");
    assert_eq!(Error::IsBankHoliday(date(25)).message(), "'2025-12-25' is a bank holiday (England & Wales).");
    assert_eq!(Error::IsWeekend(date(13), WeekendDay::Saturday).message(), "'2025-12-13' is on the weekend (Saturday).");
    assert_eq!(
        Error::RecordExistsForDate(date(1)).message(),
        "Record exists for date '2025-12-01'. To append an existing record, use `--mode append`."
    );
    assert_eq!(Error::NoRecordToAppend(date(1)).message(), "Cannot append record for date '2025-12-01' as no record exists.");
    assert_eq!(Error::NoRecordToDelete(date(1)).message(), "Cannot delete record for date '2025-12-01' as no record exists.");
}

#[test]
fn record_rows_show_date_type_half_description_and_mode() {
    let record = Record::new(1, CREATED, Mode::Append, RecordType::WorkingFromHome,
        Key::HalfDay { date: date(1), half: HalfDay::Am }, Some("Went home".to_string()));
    let row = Table::row_with_logged(&record, "then".to_string());
    let texts: Vec<&str> = row.iter().map(|c| c.text.as_str()).collect();
    assert_eq!(texts, vec!["2025-12-01 (Mon)", "WorkingFromHome", "Morning", "Went home", "Append", "then"]);
    assert_eq!(row[0].colour, Some(Colour::DarkYellow));
    assert_eq!(row[2].alignment, Some(Alignment::Left));
    assert_eq!(row[3].colour, None);

    let deleted = Record::new(1, CREATED, Mode::Delete, RecordType::Office, Key::FullDay(date(2)), None);
    let row = Table::row_from(&deleted);
    assert_eq!(row[0].text, "2025-12-02 (Tue)");
    assert_eq!(row[2].text, "null");
    assert_eq!(row[2].attributes, vec![Attribute::Dim, Attribute::Italic]);
    assert_eq!(row[3].text, "null");
    assert_eq!(row[5].colour, Some(Colour::Red));
    assert!(row[5].text.starts_with("2025-12-01T") || row[5].text.starts_with("2025-12-02T"));
}

#[test]
fn record_headers() {
    let texts: Vec<String> = Table::header().into_iter().map(|c| c.text).collect();
    assert_eq!(texts, vec!["Date", "Where?", "Half Day?", "Description", "Mode", "Logged"]);
    let texts: Vec<String> = TableRecordPrinter::header().into_iter().map(|c| c.text).collect();
    assert_eq!(texts, vec!["Date", "Where?", "Half Day?", "Description", "Logged"]);
    assert_eq!(Table::header()[0].attributes, vec![Attribute::Bold]);
}

#[test]
fn compact_rows_log_times_to_the_second_in_utc() {
    let record = Record::new(1, CREATED + 123_456_789, Mode::Create, RecordType::Office, Key::FullDay(date(1)), None);
    let row = TableRecordPrinter::row_from(&record);
    let texts: Vec<&str> = row.iter().map(|c| c.text.as_str()).collect();
    assert_eq!(texts, vec!["2025-12-01", "Office", "null", "null", "2025-12-01 10:00:00 UTC"]);
    assert_eq!(row[4].colour, Some(Colour::Green));
    let before_epoch = Record::new(1, -1, Mode::Create, RecordType::Office, Key::FullDay(date(1)), None);
    assert_eq!(TableRecordPrinter::row_from(&before_epoch)[4].text, "1969-12-31 23:59:59 UTC");
}

#[test]
fn summary_rows_show_days_and_attendance() {
    let s = Summary { month: date(1), office_days: 3, workday_halves: 41, attendance_thousandths: Some(146) };
    let row = summary::Table::row_from(&s, "15%".to_string());
    let texts: Vec<&str> = row.iter().map(|c| c.text.as_str()).collect();
    assert_eq!(texts, vec!["December 2025", "10.25", "3", "20.5", "15%"]);
    assert_eq!(row[4].colour, Some(Colour::Red));
    assert_eq!(row[1].alignment, Some(Alignment::Right));
    let middling = Summary { attendance_thousandths: Some(300), ..s };
    assert_eq!(TableSummaryPrinter::row_from(&middling, String::new())[4].colour, Some(Colour::DarkYellow));
    let good = Summary { attendance_thousandths: Some(500), ..s };
    assert_eq!(summary::Table::row_from(&good, String::new())[4].colour, Some(Colour::Green));
    let none = Summary { attendance_thousandths: None, ..s };
    assert_eq!(summary::Table::row_from(&none, String::new())[4].colour, Some(Colour::Green));
    let texts: Vec<String> = summary::Table::header().into_iter().map(|c| c.text).collect();
    assert_eq!(texts, vec!["Month", "Target Days", "Days in Office", "Working Days", "Attendance"]);
}

#[test]
fn chooses_the_summary_output() {
    let json = attendance_cli::cli::summary::Arguments::new(None, true);
    let table = attendance_cli::cli::summary::Arguments::new(Some(2), false);
    assert_eq!(summary::from_args(&json), Output::Json);
    assert_eq!(summary::from_args(&table), Output::Table);
}
