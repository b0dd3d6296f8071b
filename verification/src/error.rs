//! The errors that the attendance log reports.

use vstd::prelude::*;
use crate::date::{Date, iso_date_text};
use crate::model::WeekendDay;

verus! {

#[derive(Debug, PartialEq)]
pub enum Error {
    Io(String),
    ReadFailure(String),
    WriteFailure(String),
    IsWeekend(Date, WeekendDay),
    IsBankHoliday(Date),
    RecordExistsForDate(Date),
    NoRecordToAppend(Date),
    NoRecordToDelete(Date),
}

pub type Result<T> = core::result::Result<T, Error>;

/// The message that describes an error.
pub open spec fn message_of(e: Error) -> Seq<char> {
    match e {
        Error::Io(m) => "Io error: "@ + m@ + "."@,
        Error::ReadFailure(m) => "Failed to read log file: "@ + m@ + "."@,
        Error::WriteFailure(m) => "Failed to write to log file: "@ + m@ + "."@,
        Error::IsBankHoliday(d) => "'"@ + iso_date_text(d@) + "' is a bank holiday (England & Wales)."@,
        Error::IsWeekend(d, day) => "'"@ + iso_date_text(d@) + "' is on the weekend ("@ + day.name() + ")."@,
        Error::RecordExistsForDate(d) => "Record exists for date '"@ + iso_date_text(d@)
            + "'. To append an existing record, use `--mode append`."@,
        Error::NoRecordToAppend(d) => "Cannot append record for date '"@ + iso_date_text(d@)
            + "' as no record exists."@,
        Error::NoRecordToDelete(d) => "Cannot delete record for date '"@ + iso_date_text(d@)
            + "' as no record exists."@,
    }
}

impl Error {
    /// The message that describes the error.
    pub fn message(&self) -> (m: String)
        ensures
            m@ == message_of(*self),
    {
        let mut s = String::new();
        match self {
            Error::Io(m) => {
                s.append("Io error: ");
                s.append(m.as_str());
                s.append(".");
            },
            Error::ReadFailure(m) => {
                s.append("Failed to read log file: ");
                s.append(m.as_str());
                s.append(".");
            },
            Error::WriteFailure(m) => {
                s.append("Failed to write to log file: ");
                s.append(m.as_str());
                s.append(".");
            },
            Error::IsBankHoliday(d) => {
                s.append("'");
                d.push_iso(&mut s);
                s.append("' is a bank holiday (England & Wales).");
            },
            Error::IsWeekend(d, day) => {
                s.append("'");
                d.push_iso(&mut s);
                s.append("' is on the weekend (");
                s.append(day.name_str());
                s.append(").");
            },
            Error::RecordExistsForDate(d) => {
                s.append("Record exists for date '");
                d.push_iso(&mut s);
                s.append("'. To append an existing record, use `--mode append`.");
            },
            Error::NoRecordToAppend(d) => {
                s.append("Cannot append record for date '");
                d.push_iso(&mut s);
                s.append("' as no record exists.");
            },
            Error::NoRecordToDelete(d) => {
                s.append("Cannot delete record for date '");
                d.push_iso(&mut s);
                s.append("' as no record exists.");
            },
        }
        proof { assert(s@ =~= message_of(*self)); }
        s
    }
}

} // verus!
