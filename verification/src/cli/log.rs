//! The arguments of the `log` command.

use vstd::prelude::*;
use crate::date::Date;
use crate::model;

verus! {

/// Where the logged day was spent.
#[derive(Clone, Copy, Debug, PartialEq, Eq, Structural)]
pub enum RecordType {
    /// Office day
    Office,
    /// Authorised working from home
    WorkingFromHome,
    /// Annual leave
    AnnualLeave,
    /// Sick day
    Sick,
    /// Other
    Other,
}

#[derive(Clone, Copy, Debug, PartialEq, Eq, Structural)]
pub enum HalfDay {
    Am,
    Pm,
}

#[derive(Clone, Copy, Debug, PartialEq, Eq, Structural)]
pub enum Mode {
    Create,
    Append,
    Delete,
}

impl Default for RecordType {
    fn default() -> (t: RecordType)
        ensures
            t == RecordType::Office,
    {
        RecordType::Office
    }
}

impl Default for Mode {
    fn default() -> (m: Mode)
        ensures
            m == Mode::Create,
    {
        Mode::Create
    }
}

pub open spec fn model_record_type(t: RecordType) -> model::RecordType {
    match t {
        RecordType::Office => model::RecordType::Office,
        RecordType::WorkingFromHome => model::RecordType::WorkingFromHome,
        RecordType::AnnualLeave => model::RecordType::AnnualLeave,
        RecordType::Sick => model::RecordType::Sick,
        RecordType::Other => model::RecordType::Other,
    }
}

pub open spec fn model_half_day(h: Option<HalfDay>) -> Option<model::HalfDay> {
    match h {
        None => None,
        Some(HalfDay::Am) => Some(model::HalfDay::Am),
        Some(HalfDay::Pm) => Some(model::HalfDay::Pm),
    }
}

pub open spec fn model_mode(m: Mode) -> model::Mode {
    match m {
        Mode::Create => model::Mode::Create,
        Mode::Append => model::Mode::Append,
        Mode::Delete => model::Mode::Delete,
    }
}

/// The arguments of the `log` command.
#[derive(Debug, PartialEq)]
pub struct Arguments {
    pub record_type: RecordType,
    /// Date to log; today's date when absent.
    pub date: Option<Date>,
    pub half_day: Option<HalfDay>,
    pub description: Option<String>,
    pub mode: Mode,
}

impl Arguments {
    pub fn new(
        record_type: RecordType,
        date: Option<Date>,
        half_day: Option<HalfDay>,
        description: Option<String>,
        mode: Mode,
    ) -> (a: Arguments)
        ensures
            a.record_type == record_type,
            a.date == date,
            a.half_day == half_day,
            a.description == description,
            a.mode == mode,
    {
        Arguments { record_type, date, half_day, description, mode }
    }

    pub fn record_type(&self) -> (t: model::RecordType)
        ensures
            t == model_record_type(self.record_type),
    {
        match self.record_type {
            RecordType::Office => model::RecordType::Office,
            RecordType::WorkingFromHome => model::RecordType::WorkingFromHome,
            RecordType::AnnualLeave => model::RecordType::AnnualLeave,
            RecordType::Sick => model::RecordType::Sick,
            RecordType::Other => model::RecordType::Other,
        }
    }

    pub fn date(&self) -> (d: Option<&Date>)
        ensures
            d matches Some(x) ==> self.date == Some(*x),
            d is None ==> self.date is None,
    {
        self.date.as_ref()
    }

    pub fn half_day(&self) -> (h: Option<model::HalfDay>)
        ensures
            h == model_half_day(self.half_day),
    {
        match self.half_day {
            None => None,
            Some(HalfDay::Am) => Some(model::HalfDay::Am),
            Some(HalfDay::Pm) => Some(model::HalfDay::Pm),
        }
    }

    pub fn description(&self) -> (d: Option<&String>)
        ensures
            d matches Some(x) ==> self.description == Some(*x),
            d is None ==> self.description is None,
    {
        self.description.as_ref()
    }

    pub fn mode(&self) -> (m: model::Mode)
        ensures
            m == model_mode(self.mode),
    {
        match self.mode {
            Mode::Create => model::Mode::Create,
            Mode::Append => model::Mode::Append,
            Mode::Delete => model::Mode::Delete,
        }
    }
}

} // verus!
