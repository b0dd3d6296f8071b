//! The records that make up the attendance log, and what is derived from them.

use vstd::prelude::*;
use crate::date::{Date, DateView};
use crate::time::timestamp_in_range;

verus! {

use crate::date::lemma_date_bounds;

#[derive(Clone, Copy, Debug, PartialEq, Eq, Structural)]
pub enum WeekendDay {
    Saturday,
    Sunday,
}

/// What kind of day a date is.
#[derive(Clone, Copy, Debug, PartialEq, Eq, Structural)]
pub enum Category {
    Workday,
    Weekend(WeekendDay),
    BankHoliday,
}

/// What a record does to the log entry for its key.
#[derive(Clone, Copy, Debug, PartialEq, Eq, Structural)]
pub enum Mode {
    Create,
    Append,
    Delete,
}

/// Where a day (or half day) was spent.
#[derive(Clone, Copy, Debug, PartialEq, Eq, Structural)]
pub enum RecordType {
    Office,
    WorkingFromHome,
    AnnualLeave,
    Sick,
    Other,
}

#[derive(Clone, Copy, Debug, PartialEq, Eq, Structural)]
pub enum HalfDay {
    Am,
    Pm,
}

/// The day, or half of a day, that a record is about.
#[derive(Clone, Copy, Debug, PartialEq, Eq, Structural)]
pub enum Key {
    FullDay(Date),
    HalfDay { date: Date, half: HalfDay },
}

impl HalfDay {
    pub open spec fn index(self) -> int {
        match self {
            HalfDay::Am => 0,
            HalfDay::Pm => 1,
        }
    }
}

impl Key {
    pub open spec fn date_view(self) -> DateView {
        match self {
            Key::FullDay(d) => d@,
            Key::HalfDay { date, .. } => date@,
        }
    }

    pub open spec fn date_value(self) -> Date {
        match self {
            Key::FullDay(d) => d,
            Key::HalfDay { date, .. } => date,
        }
    }

    pub open spec fn is_half_day(self) -> bool {
        self is HalfDay
    }

    /// Orders keys by date, and on one date the full day first, then the
    /// morning, then the afternoon; tells keys apart.
    pub open spec fn sort_rank(self) -> int {
        match self {
            Key::FullDay(d) => 4 * d@.rank(),
            Key::HalfDay { date, half } => 4 * date@.rank() + 1 + half.index(),
        }
    }

    pub fn date(&self) -> (d: Date)
        ensures
            d == self.date_value(),
            d@ == self.date_view(),
    {
        match *self {
            Key::FullDay(date) | Key::HalfDay { date, half: _ } => date,
        }
    }

    pub fn half_day(&self) -> (b: bool)
        ensures
            b == self.is_half_day(),
    {
        match *self {
            Key::FullDay(_) => false,
            Key::HalfDay { .. } => true,
        }
    }

    /// The key's rank as a machine integer.
    pub fn rank(&self) -> (r: u64)
        ensures
            r as int == self.sort_rank(),
            r < 0x4_0000_0000,
    {
        let (date, code): (Date, u64) = match *self {
            Key::FullDay(date) => (date, 0),
            Key::HalfDay { date, half: HalfDay::Am } => (date, 1),
            Key::HalfDay { date, half: HalfDay::Pm } => (date, 2),
        };
        4 * date.rank() + code
    }
}

/// Keys with the same rank are the same key.
pub proof fn lemma_key_rank_injective(a: Key, b: Key)
    requires
        a.sort_rank() == b.sort_rank(),
    ensures
        a == b,
{
    let (da, db) = (a.date_view(), b.date_view());
    match a {
        Key::FullDay(x) => { lemma_date_bounds(x); },
        Key::HalfDay { date: x, .. } => { lemma_date_bounds(x); },
    }
    match b {
        Key::FullDay(x) => { lemma_date_bounds(x); },
        Key::HalfDay { date: x, .. } => { lemma_date_bounds(x); },
    }
    let ca = a.sort_rank() - 4 * da.rank();
    let cb = b.sort_rank() - 4 * db.rank();
    assert(0 <= ca <= 2 && 0 <= cb <= 2);
    assert(da.rank() == db.rank());
    crate::date::lemma_rank_injective(da, db);
    crate::date::lemma_date_view_injective(a.date_value(), b.date_value());
}

/// Keys are ordered by their dates first.
pub proof fn lemma_key_rank_by_date(a: Key, b: Key)
    requires
        a.sort_rank() < b.sort_rank(),
    ensures
        a.date_view().rank() <= b.date_view().rank(),
{
}

impl WeekendDay {
    pub open spec fn name(self) -> Seq<char> {
        match self {
            WeekendDay::Saturday => "Saturday"@,
            WeekendDay::Sunday => "Sunday"@,
        }
    }

    pub fn name_str(&self) -> (t: &'static str)
        ensures
            t@ == self.name(),
    {
        match self {
            WeekendDay::Saturday => "Saturday",
            WeekendDay::Sunday => "Sunday",
        }
    }
}

impl Mode {
    /// The name that the mode is shown by.
    pub open spec fn name(self) -> Seq<char> {
        match self {
            Mode::Create => "Create"@,
            Mode::Append => "Append"@,
            Mode::Delete => "Delete"@,
        }
    }

    pub fn name_str(&self) -> (t: &'static str)
        ensures
            t@ == self.name(),
    {
        match self {
            Mode::Create => "Create",
            Mode::Append => "Append",
            Mode::Delete => "Delete",
        }
    }
}

impl RecordType {
    /// The name that the record type is shown by.
    pub open spec fn name(self) -> Seq<char> {
        match self {
            RecordType::Office => "Office"@,
            RecordType::WorkingFromHome => "WorkingFromHome"@,
            RecordType::AnnualLeave => "AnnualLeave"@,
            RecordType::Sick => "Sick"@,
            RecordType::Other => "Other"@,
        }
    }

    pub fn name_str(&self) -> (t: &'static str)
        ensures
            t@ == self.name(),
    {
        match self {
            RecordType::Office => "Office",
            RecordType::WorkingFromHome => "WorkingFromHome",
            RecordType::AnnualLeave => "AnnualLeave",
            RecordType::Sick => "Sick",
            RecordType::Other => "Other",
        }
    }
}

/// Each record type is shown by a name of its own, its variant's name: two
/// types shown by the same name are the same type.
pub proof fn lemma_record_type_names(a: RecordType, b: RecordType)
    ensures
        a.name() == b.name() ==> a == b,
        RecordType::Office.name() == "Office"@,
        RecordType::WorkingFromHome.name() == "WorkingFromHome"@,
        RecordType::AnnualLeave.name() == "AnnualLeave"@,
        RecordType::Sick.name() == "Sick"@,
        RecordType::Other.name() == "Other"@,
{
    reveal_strlit("Office");
    reveal_strlit("WorkingFromHome");
    reveal_strlit("AnnualLeave");
    reveal_strlit("Sick");
    reveal_strlit("Other");
    if a.name() == b.name() && a != b {
        assert(a.name().len() != b.name().len());
    }
}

/// Each mode is shown by a name of its own, its variant's name.
pub proof fn lemma_mode_names(a: Mode, b: Mode)
    ensures
        a.name() == b.name() ==> a == b,
        Mode::Create.name() == "Create"@,
        Mode::Append.name() == "Append"@,
        Mode::Delete.name() == "Delete"@,
{
    reveal_strlit("Create");
    reveal_strlit("Append");
    reveal_strlit("Delete");
    if a.name() == b.name() && a != b {
        assert(a.name()[0] != b.name()[0]);
    }
}

/// Each weekend day is shown by a name of its own, its variant's name.
pub proof fn lemma_weekend_day_names(a: WeekendDay, b: WeekendDay)
    ensures
        a.name() == b.name() ==> a == b,
        WeekendDay::Saturday.name() == "Saturday"@,
        WeekendDay::Sunday.name() == "Sunday"@,
{
    reveal_strlit("Saturday");
    reveal_strlit("Sunday");
    if a.name() == b.name() && a != b {
        assert(a.name().len() != b.name().len());
    }
}

/// The attendance of one month. Days are counted in halves: `workday_halves`
/// is twice the number of working days, `target` is half of them, and
/// `attendance_thousandths` is the share of office days in thousandths,
/// absent when there are no working days.
#[derive(Clone, Copy, Debug, PartialEq, Eq)]
pub struct Summary {
    pub month: Date,
    pub office_days: u64,
    pub workday_halves: u64,
    pub attendance_thousandths: Option<u128>,
}

impl Summary {
    pub fn month(&self) -> (m: &Date)
        ensures
            *m == self.month,
    {
        &self.month
    }

    pub fn office_days(&self) -> (n: u64)
        ensures
            n == self.office_days,
    {
        self.office_days
    }

    /// Twice the number of working days.
    pub fn workday_halves(&self) -> (n: u64)
        ensures
            n == self.workday_halves,
    {
        self.workday_halves
    }

    /// The target, half of the working days, in quarter days.
    pub fn target_quarters(&self) -> (n: u64)
        ensures
            n == self.workday_halves,
    {
        self.workday_halves
    }

    pub fn attendance_thousandths(&self) -> (a: Option<u128>)
        ensures
            a == self.attendance_thousandths,
    {
        self.attendance_thousandths
    }
}

/// A month of a year, the year counted in the common era (year 1 BCE being 1).
#[derive(Clone, Copy, Debug, PartialEq, Eq, Structural)]
pub struct SummaryMonth {
    year: u32,
    month: u8,
}

/// The year of the common era that a proleptic Gregorian year falls in:
/// years before year 1 count backwards from 1.
pub open spec fn year_of_era(year: int) -> int {
    if year >= 1 { year } else { 1 - year }
}

impl SummaryMonth {
    pub closed spec fn year_spec(self) -> int {
        self.year as int
    }

    pub closed spec fn month_spec(self) -> int {
        self.month as int
    }

    /// The month that a date falls in.
    pub fn new(date: Date) -> (m: SummaryMonth)
        ensures
            m.year_spec() == year_of_era(date@.year),
            m.month_spec() == date@.month,
    {
        let y = date.year();
        let year: u32 = if y >= 1 { y as u32 } else { (1 - y as i32) as u32 };
        SummaryMonth { year, month: date.month() as u8 }
    }

    pub fn from_parts(year: u32, month: u8) -> (m: SummaryMonth)
        ensures
            m.year_spec() == year,
            m.month_spec() == month,
    {
        SummaryMonth { year, month }
    }

    pub fn year(&self) -> (y: u32)
        ensures
            y == self.year_spec(),
    {
        self.year
    }

    /// The month's number, January being 1.
    pub fn month(&self) -> (m: u8)
        ensures
            m == self.month_spec(),
    {
        self.month
    }
}

/// The mathematical content of a [`Record`].
pub struct RecordView {
    pub id: u128,
    pub created: int,
    pub mode: Mode,
    pub record_type: RecordType,
    pub key: Key,
    pub description: Option<Seq<char>>,
}

/// One line of the attendance log.
#[derive(Debug)]
pub struct Record {
    id: u128,
    created: i128,
    mode: Mode,
    record_type: RecordType,
    key: Key,
    description: Option<String>,
}

pub open spec fn description_view(description: Option<String>) -> Option<Seq<char>> {
    match description {
        Some(s) => Some(s@),
        None => None,
    }
}

impl View for Record {
    type V = RecordView;

    closed spec fn view(&self) -> RecordView {
        RecordView {
            id: self.id,
            created: self.created as int,
            mode: self.mode,
            record_type: self.record_type,
            key: self.key,
            description: description_view(self.description),
        }
    }
}

impl Record {
    #[verifier::type_invariant]
    spec fn inv(self) -> bool {
        timestamp_in_range(self.created as int)
    }

    /// A record with the given fields; `created` is in nanoseconds since the Unix epoch.
    pub fn new(
        id: u128,
        created: i128,
        mode: Mode,
        record_type: RecordType,
        key: Key,
        description: Option<String>,
    ) -> (r: Record)
        requires
            timestamp_in_range(created as int),
        ensures
            r@ == (RecordView {
                id,
                created: created as int,
                mode,
                record_type,
                key,
                description: description_view(description),
            }),
    {
        Record { id, created, mode, record_type, key, description }
    }

    pub fn id(&self) -> (id: u128)
        ensures
            id == self@.id,
    {
        self.id
    }

    /// When the record was made, in nanoseconds since the Unix epoch.
    pub fn created(&self) -> (t: i128)
        ensures
            t as int == self@.created,
            timestamp_in_range(t as int),
    {
        proof { use_type_invariant(self); }
        self.created
    }

    pub fn mode(&self) -> (m: Mode)
        ensures
            m == self@.mode,
    {
        self.mode
    }

    pub fn record_type(&self) -> (t: RecordType)
        ensures
            t == self@.record_type,
    {
        self.record_type
    }

    pub fn key(&self) -> (k: Key)
        ensures
            k == self@.key,
    {
        self.key
    }

    pub fn description(&self) -> (d: Option<&str>)
        ensures
            d matches Some(s) ==> self@.description == Some(s@),
            d is None ==> self@.description is None,
    {
        match &self.description {
            Some(s) => Some(s.as_str()),
            None => None,
        }
    }

    /// A copy of the record.
    pub fn duplicate(&self) -> (r: Record)
        ensures
            r@ == self@,
    {
        proof { use_type_invariant(self); }
        let description = match &self.description {
            Some(s) => Some(s.clone()),
            None => None,
        };
        Record {
            id: self.id,
            created: self.created,
            mode: self.mode,
            record_type: self.record_type,
            key: self.key,
            description,
        }
    }
}

impl Clone for Record {
    fn clone(&self) -> (r: Record)
        ensures
            r@ == self@,
    {
        self.duplicate()
    }
}

} // verus!
