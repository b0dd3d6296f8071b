//! The table of records that the `show` command prints.

use vstd::prelude::*;
use crate::date::{Date, DateView, padded_year_text, weekday_abbreviation, weekday_abbreviation_str};
use crate::model::{HalfDay, Key, Mode, Record, RecordView};
use crate::printer::cell::{
    Alignment, Cell, CellView, Colour, Row, coloured, aligned, header, header_view, null_cell, null_view, plain,
    plain_cell, row_view,
};
use crate::text::{push_zero_padded, zero_padded};
use crate::time::timestamp_in_range;

verus! {

/// Each row takes the colour of its record's mode.
pub open spec fn mode_colour(m: Mode) -> Colour {
    match m {
        Mode::Create => Colour::Green,
        Mode::Append => Colour::DarkYellow,
        Mode::Delete => Colour::Red,
    }
}

/// The date as `%Y-%m-%d (%a)`, e.g. `2025-12-01 (Mon)`.
pub open spec fn date_label(d: DateView) -> Seq<char> {
    padded_year_text(d.year) + "-"@ + zero_padded(d.month as nat, 2) + "-"@ + zero_padded(d.day as nat, 2)
        + " ("@ + weekday_abbreviation(d.weekday()) + ")"@
}

pub open spec fn coloured_view(text: Seq<char>, colour: Colour) -> CellView {
    CellView { colour: Some(colour), ..plain(text) }
}

/// The half-day column: null for a full day, else which half, on the left.
pub open spec fn half_day_view(key: Key, colour: Colour) -> CellView {
    match key {
        Key::FullDay(_) => null_view(),
        Key::HalfDay { half: HalfDay::Am, .. } => CellView { alignment: Some(Alignment::Left), ..coloured_view("Morning"@, colour) },
        Key::HalfDay { half: HalfDay::Pm, .. } => CellView { alignment: Some(Alignment::Left), ..coloured_view("Afternoon"@, colour) },
    }
}

pub open spec fn description_view_cell(description: Option<Seq<char>>) -> CellView {
    match description {
        Some(d) => plain(d),
        None => null_view(),
    }
}

/// The row for a record, `logged` being the text of its creation time: date,
/// type, half day, description, mode, and when it was logged.
pub open spec fn record_row(r: RecordView, logged: Seq<char>) -> Seq<CellView> {
    let colour = mode_colour(r.mode);
    seq![
        coloured_view(date_label(r.key.date_view()), colour),
        coloured_view(r.record_type.name(), colour),
        half_day_view(r.key, colour),
        description_view_cell(r.description),
        coloured_view(r.mode.name(), colour),
        coloured_view(logged, colour),
    ]
}

pub open spec fn record_header() -> Seq<CellView> {
    seq![
        header_view("Date"@),
        header_view("Where?"@),
        header_view("Half Day?"@),
        header_view("Description"@),
        header_view("Mode"@),
        header_view("Logged"@),
    ]
}

/// A local date and time as `%Y-%m-%dT%H:%M:%S %Z` writes it: the civil
/// date `d` and the time of day of `second` (seconds since the epoch on the
/// local clock), then the time zone's name.
pub open spec fn local_time_text(d: DateView, second: int, zone: Seq<char>) -> Seq<char> {
    let s = second % 86400;
    padded_year_text(d.year) + "-"@ + zero_padded(d.month as nat, 2) + "-"@ + zero_padded(d.day as nat, 2)
        + "T"@ + zero_padded((s / 3600) as nat, 2) + ":"@ + zero_padded(((s % 3600) / 60) as nat, 2) + ":"@
        + zero_padded((s % 60) as nat, 2) + " "@ + zone
}

/// `text` writes the instant `nanos` on some local clock: the instant moved
/// by an offset of at most 25:59:59 and cut to the second, on the valid date
/// into which that second falls, followed by some time zone name.
pub open spec fn is_local_time_text(text: Seq<char>, nanos: int) -> bool {
    exists|offset: int, d: DateView, zone: Seq<char>|
        -93599 <= offset <= 93599
        && d.is_valid()
        && d.day_number() == (nanos / 1_000_000_000 + offset) / 86400
        && text == #[trigger] local_time_text(d, nanos / 1_000_000_000 + offset, zone)
}

/// When a record was made, in the system's time zone, as
/// `%Y-%m-%dT%H:%M:%S %Z`, by jiff's `Timestamp::to_zoned` and `strftime`.
/// Claims only the shape that every time zone gives: the local date and time
/// under some offset of at most 25:59:59 (the bound of jiff's `Offset`),
/// to the second, then the zone's abbreviation. Which offset and which name
/// depend on the system's time zone database and are not stated.
#[verifier::external_body]
fn local_logged_text(created: i128) -> (t: String)
    requires
        timestamp_in_range(created as int),
    ensures
        is_local_time_text(t@, created as int),
{
    jiff::Timestamp::from_nanosecond(created)
        .unwrap()
        .to_zoned(jiff::tz::TimeZone::system())
        .strftime("%Y-%m-%dT%H:%M:%S %Z")
        .to_string()
}

/// Appends the date as `%Y-%m-%d (%a)`.
pub fn push_date_label(s: &mut String, date: &Date)
    ensures
        final(s)@ == old(s)@ + date_label(date@),
{
    date.push_padded_year(s);
    s.append("-");
    push_zero_padded(s, date.month() as u64, 2);
    s.append("-");
    push_zero_padded(s, date.day() as u64, 2);
    s.append(" (");
    s.append(weekday_abbreviation_str(date.weekday()));
    s.append(")");
    proof { assert(s@ =~= old(s)@ + date_label(date@)); }
}

fn text_cell(text: &str, colour: Colour) -> (c: Cell)
    ensures
        c@ == coloured_view(text@, colour),
{
    coloured(plain_cell(text.to_owned()), colour)
}

/// Prints records as a table.
pub struct Table;

impl Table {
    /// The row for a record whose creation time reads `logged`.
    pub fn row_with_logged(record: &Record, logged: String) -> (row: Row)
        ensures
            row_view(row@) == record_row(record@, logged@),
    {
        let colour = match record.mode() {
            Mode::Create => Colour::Green,
            Mode::Append => Colour::DarkYellow,
            Mode::Delete => Colour::Red,
        };
        let key = record.key();
        let mut date_text = String::new();
        push_date_label(&mut date_text, &key.date());
        let half_day = match key {
            Key::FullDay(_) => null_cell(),
            Key::HalfDay { half: HalfDay::Am, .. } => aligned(text_cell("Morning", colour), Alignment::Left),
            Key::HalfDay { half: HalfDay::Pm, .. } => aligned(text_cell("Afternoon", colour), Alignment::Left),
        };
        let description = match record.description() {
            Some(d) => plain_cell(d.to_owned()),
            None => null_cell(),
        };
        let mut row: Row = Vec::new();
        row.push(coloured(plain_cell(date_text), colour));
        row.push(text_cell(record.record_type().name_str(), colour));
        row.push(half_day);
        row.push(description);
        row.push(text_cell(record.mode().name_str(), colour));
        row.push(coloured(plain_cell(logged), colour));
        proof { assert(row_view(row@) =~= record_row(record@, logged@)); }
        row
    }

    /// The row for a record, its creation time written in the system's time zone.
    pub fn row_from(record: &Record) -> (row: Row)
        ensures
            exists|logged: Seq<char>| is_local_time_text(logged, record@.created) && row_view(row@) == record_row(record@, logged),
    {
        let logged = local_logged_text(record.created());
        Table::row_with_logged(record, logged)
    }

    pub fn header() -> (row: Row)
        ensures
            row_view(row@) == record_header(),
    {
        let mut row: Row = Vec::new();
        row.push(header("Date"));
        row.push(header("Where?"));
        row.push(header("Half Day?"));
        row.push(header("Description"));
        row.push(header("Mode"));
        row.push(header("Logged"));
        proof { assert(row_view(row@) =~= record_header()); }
        row
    }
}

} // verus!
