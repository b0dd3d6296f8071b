//! What the `show` and `summary` commands print, as table cells.

use vstd::prelude::*;
use crate::date::{Date, DateView, signed_year_text};
use crate::model::{HalfDay, Key, Mode, Record, RecordView, Summary};
use crate::printer::cell::{Alignment, Cell, CellView, Colour, Row, aligned, coloured, header_view, null_cell, plain_cell, row_view};
use crate::printer::record::{coloured_view, description_view_cell, half_day_view, mode_colour};
use crate::text::{push_zero_padded, zero_padded};
use crate::time::{utc_date, utc_day_number};

pub mod cell;
pub mod record;
pub mod summary;

verus! {

/// A date as `YYYY-MM-DD`, the year signed when negative.
pub open spec fn plain_date_text(d: DateView) -> Seq<char> {
    signed_year_text(d.year) + "-"@ + zero_padded(d.month as nat, 2) + "-"@ + zero_padded(d.day as nat, 2)
}

/// Nanoseconds that fit a signed 64-bit integer: about 1677 to 2262.
pub open spec fn fits_i64_nanos(nanos: int) -> bool {
    i64::MIN <= nanos <= i64::MAX
}

/// The second of the day (UTC) in which an instant falls.
pub open spec fn second_of_day(nanos: int) -> int {
    (nanos / 1_000_000_000) % 86400
}

/// An instant cut down to the second, in UTC: `YYYY-MM-DD HH:MM:SS UTC`,
/// `date` being its UTC date.
pub open spec fn utc_second_text(date: DateView, nanos: int) -> Seq<char> {
    let s = second_of_day(nanos);
    plain_date_text(date) + " "@ + zero_padded((s / 3600) as nat, 2) + ":"@ + zero_padded(((s % 3600) / 60) as nat, 2)
        + ":"@ + zero_padded((s % 60) as nat, 2) + " UTC"@
}

/// The row for a record: date, type, half day, description, and when it was
/// logged, to the second in UTC.
pub open spec fn compact_record_row(r: RecordView, logged_date: DateView) -> Seq<CellView> {
    let colour = mode_colour(r.mode);
    seq![
        coloured_view(plain_date_text(r.key.date_view()), colour),
        coloured_view(r.record_type.name(), colour),
        half_day_view(r.key, colour),
        description_view_cell(r.description),
        coloured_view(utc_second_text(logged_date, r.created), colour),
    ]
}

pub open spec fn compact_record_header() -> Seq<CellView> {
    seq![
        header_view("Date"@),
        header_view("Where?"@),
        header_view("Half Day?"@),
        header_view("Description"@),
        header_view("Logged"@),
    ]
}

/// Appends the date as `YYYY-MM-DD`, the year signed when negative.
fn push_plain_date(s: &mut String, date: &Date)
    ensures
        final(s)@ == old(s)@ + plain_date_text(date@),
{
    date.push_signed_year(s);
    s.append("-");
    push_zero_padded(s, date.month() as u64, 2);
    s.append("-");
    push_zero_padded(s, date.day() as u64, 2);
    proof { assert(s@ =~= old(s)@ + plain_date_text(date@)); }
}

/// The second of the day (UTC) in which an instant falls.
fn second_of_day_of(nanos: i128) -> (s: u64)
    ensures
        s as int == second_of_day(nanos as int),
        s < 86400,
{
    let seconds: i128 = if nanos >= 0 {
        nanos / 1_000_000_000
    } else {
        -((-(nanos + 1)) / 1_000_000_000) - 1
    };
    assert(seconds == nanos as int / 1_000_000_000);
    let sod: i128 = if seconds >= 0 {
        seconds % 86400
    } else {
        let r = (-(seconds + 1)) % 86400;
        86399 - r
    };
    assert(sod == seconds as int % 86400);
    sod as u64
}

/// An instant to the second in UTC, with its UTC date.
fn utc_second_label(nanos: i128) -> (res: (String, Date))
    requires
        crate::time::timestamp_in_range(nanos as int),
    ensures
        res.1@.is_valid(),
        res.1@.day_number() == utc_day_number(nanos as int),
        res.0@ == utc_second_text(res.1@, nanos as int),
{
    let date = utc_date(nanos);
    let sod = second_of_day_of(nanos);
    let mut logged = String::new();
    push_plain_date(&mut logged, &date);
    logged.append(" ");
    push_zero_padded(&mut logged, sod / 3600, 2);
    logged.append(":");
    push_zero_padded(&mut logged, (sod % 3600) / 60, 2);
    logged.append(":");
    push_zero_padded(&mut logged, sod % 60, 2);
    logged.append(" UTC");
    proof { assert(logged@ =~= utc_second_text(date@, nanos as int)); }
    (logged, date)
}

/// A header cell.
pub fn header_cell(name: &str) -> (c: Cell)
    ensures
        c@ == header_view(name@),
{
    cell::header(name)
}

/// Prints records as a compact table, times in UTC.
pub struct TableRecordPrinter;

impl TableRecordPrinter {
    pub fn header() -> (row: Row)
        ensures
            row_view(row@) == compact_record_header(),
    {
        let mut row: Row = Vec::new();
        row.push(header_cell("Date"));
        row.push(header_cell("Where?"));
        row.push(header_cell("Half Day?"));
        row.push(header_cell("Description"));
        row.push(header_cell("Logged"));
        proof { assert(row_view(row@) =~= compact_record_header()); }
        row
    }

    /// The row for a record made within the 64-bit nanosecond range of timestamps;
    /// its last cell shows the UTC date on which the record was made (the one
    /// valid date whose day number is that of the instant) and the second of that day.
    pub fn row_from(record: &Record) -> (row: Row)
        requires
            fits_i64_nanos(record@.created),
        ensures
            exists|d: DateView| d.is_valid() && d.day_number() == utc_day_number(record@.created)
                && row_view(row@) == compact_record_row(record@, d),
    {
        let colour = match record.mode() {
            Mode::Create => Colour::Green,
            Mode::Append => Colour::DarkYellow,
            Mode::Delete => Colour::Red,
        };
        let key = record.key();
        let mut date_text = String::new();
        push_plain_date(&mut date_text, &key.date());
        let half_day = match key {
            Key::FullDay(_) => null_cell(),
            Key::HalfDay { half: HalfDay::Am, .. } => aligned(coloured(plain_cell("Morning".to_owned()), colour), Alignment::Left),
            Key::HalfDay { half: HalfDay::Pm, .. } => aligned(coloured(plain_cell("Afternoon".to_owned()), colour), Alignment::Left),
        };
        let description = match record.description() {
            Some(d) => plain_cell(d.to_owned()),
            None => null_cell(),
        };
        let created = record.created();
        let (logged, logged_date) = utc_second_label(created);
        let mut row: Row = Vec::new();
        row.push(coloured(plain_cell(date_text), colour));
        row.push(coloured(plain_cell(record.record_type().name_str().to_owned()), colour));
        row.push(half_day);
        row.push(description);
        row.push(coloured(plain_cell(logged), colour));
        proof { assert(row_view(row@) =~= compact_record_row(record@, logged_date@)); }
        row
    }
}

/// Prints summaries as a table.
pub struct TableSummaryPrinter;

impl TableSummaryPrinter {
    pub fn header() -> (row: Row)
        ensures
            row_view(row@) == summary::summary_header(),
    {
        summary::Table::header()
    }

    /// The row for a summary whose attendance reads `percent`.
    pub fn row_from(s: &Summary, percent: String) -> (row: Row)
        ensures
            row_view(row@) == summary::summary_row(*s, percent@),
    {
        summary::Table::row_from(s, percent)
    }
}

} // verus!
