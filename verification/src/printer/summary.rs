//! The month-by-month summaries that the `summary` command prints.

use vstd::prelude::*;
use crate::cli::summary::Arguments;
use crate::date::{DateView, month_name, month_name_str, signed_year_text};
use crate::model::Summary;
use crate::printer::cell::{
    Alignment, Cell, CellView, Colour, Row, aligned, coloured, header, header_view, plain, plain_cell, row_view,
};
use crate::text::{decimal, push_decimal};

verus! {

/// How summaries are printed.
#[derive(Clone, Copy, Debug, PartialEq, Eq, Structural)]
pub enum Output {
    Json,
    Table,
}

/// JSON when the arguments ask for it, else a table.
pub fn from_args(args: &Arguments) -> (o: Output)
    ensures
        o == (if args.json { Output::Json } else { Output::Table }),
{
    if args.json() {
        Output::Json
    } else {
        Output::Table
    }
}

/// A number of quarters as a decimal number of units, e.g. 42 as `10.5`.
pub open spec fn quarters_text(q: nat) -> Seq<char> {
    decimal(q / 4) + if q % 4 == 0 {
        Seq::empty()
    } else if q % 4 == 1 {
        ".25"@
    } else if q % 4 == 2 {
        ".5"@
    } else {
        ".75"@
    }
}

/// The month as `%B %Y`, e.g. `December 2025`.
pub open spec fn month_label(d: DateView) -> Seq<char> {
    month_name(d.month) + " "@ + signed_year_text(d.year)
}

/// Attendance below 30% is red, below 50% dark yellow, and otherwise (also
/// when there are no working days) green.
pub open spec fn attendance_colour(attendance: Option<u128>) -> Colour {
    match attendance {
        Some(a) => if a < 300 {
            Colour::Red
        } else if a < 500 {
            Colour::DarkYellow
        } else {
            Colour::Green
        },
        None => Colour::Green,
    }
}

pub open spec fn right(text: Seq<char>) -> CellView {
    CellView { alignment: Some(Alignment::Right), ..plain(text) }
}

/// The row for a summary, `percent` being the text of its attendance: month,
/// target days, days in the office, working days and attendance.
pub open spec fn summary_row(s: Summary, percent: Seq<char>) -> Seq<CellView> {
    seq![
        plain(month_label(s.month@)),
        right(quarters_text(s.workday_halves as nat)),
        right(decimal(s.office_days as nat)),
        right(quarters_text(2 * s.workday_halves as nat)),
        CellView { colour: Some(attendance_colour(s.attendance_thousandths)), ..right(percent) },
    ]
}

pub open spec fn summary_header() -> Seq<CellView> {
    seq![
        header_view("Month"@),
        header_view("Target Days"@),
        header_view("Days in Office"@),
        header_view("Working Days"@),
        header_view("Attendance"@),
    ]
}

/// Appends a number of quarters as a decimal number.
pub fn push_quarters(s: &mut String, q: u64)
    ensures
        final(s)@ == old(s)@ + quarters_text(q as nat),
{
    push_decimal(s, q / 4);
    let rest = q % 4;
    if rest == 1 {
        s.append(".25");
    } else if rest == 2 {
        s.append(".5");
    } else if rest == 3 {
        s.append(".75");
    }
    proof { assert(s@ =~= old(s)@ + quarters_text(q as nat)); }
}

/// Appends a number of halves as a decimal number.
pub fn push_halves(s: &mut String, h: u64)
    ensures
        final(s)@ == old(s)@ + quarters_text(2 * h as nat),
{
    push_decimal(s, h / 2);
    if h % 2 == 1 {
        s.append(".5");
    }
    proof {
        assert((2 * h as nat) / 4 == h / 2 && (2 * h as nat) % 4 == 2 * (h % 2));
        assert(s@ =~= old(s)@ + quarters_text(2 * h as nat));
    }
}

fn right_cell(text: String) -> (c: Cell)
    ensures
        c@ == right(text@),
{
    aligned(plain_cell(text), Alignment::Right)
}

/// The colour of an attendance (see [`attendance_colour`]).
pub fn colour_of(attendance: Option<u128>) -> (c: Colour)
    ensures
        c == attendance_colour(attendance),
{
    match attendance {
        Some(a) => if a < 300 {
            Colour::Red
        } else if a < 500 {
            Colour::DarkYellow
        } else {
            Colour::Green
        },
        None => Colour::Green,
    }
}

/// The label of a summary's month.
pub fn month_label_of(summary: &Summary) -> (t: String)
    ensures
        t@ == month_label(summary.month@),
{
    let mut s = String::new();
    s.append(month_name_str(summary.month.month()));
    s.append(" ");
    summary.month.push_signed_year(&mut s);
    proof { assert(s@ =~= month_label(summary.month@)); }
    s
}

/// Prints summaries as a table.
pub struct Table;

impl Table {
    /// The row for a summary whose attendance reads `percent`.
    pub fn row_from(summary: &Summary, percent: String) -> (row: Row)
        ensures
            row_view(row@) == summary_row(*summary, percent@),
    {
        let mut target = String::new();
        push_quarters(&mut target, summary.workday_halves);
        let mut office = String::new();
        push_decimal(&mut office, summary.office_days);
        let mut workdays = String::new();
        push_halves(&mut workdays, summary.workday_halves);
        let mut row: Row = Vec::new();
        row.push(plain_cell(month_label_of(summary)));
        row.push(right_cell(target));
        row.push(right_cell(office));
        row.push(right_cell(workdays));
        row.push(coloured(right_cell(percent), colour_of(summary.attendance_thousandths)));
        proof { assert(row_view(row@) =~= summary_row(*summary, percent@)); }
        row
    }

    pub fn header() -> (row: Row)
        ensures
            row_view(row@) == summary_header(),
    {
        let mut row: Row = Vec::new();
        row.push(header("Month"));
        row.push(header("Target Days"));
        row.push(header("Days in Office"));
        row.push(header("Working Days"));
        row.push(header("Attendance"));
        proof { assert(row_view(row@) =~= summary_header()); }
        row
    }
}

} // verus!
