//! The commands of the attendance logger and their arguments.

use vstd::prelude::*;
use crate::date::Date;
use crate::model::Mode;

pub mod completion;
pub mod log;
pub mod show;
pub mod summary;

verus! {

#[derive(Debug, PartialEq)]
pub enum Command {
    /// Generate completions
    Completion(completion::Arguments),
    /// Log attendance
    Log(log::Arguments),
    /// Show log
    Show(show::Arguments),
    /// Output the command-line specification
    Spec,
    /// Summarise attendance
    Summary(summary::Arguments),
}

/// A parsed command line.
#[derive(Debug, PartialEq)]
pub struct Cli {
    pub command: Command,
    pub debug: bool,
}

impl Cli {
    pub fn new(command: Command, debug: bool) -> (c: Cli)
        ensures
            c.command == command,
            c.debug == debug,
    {
        Cli { command, debug }
    }

    pub fn command(&self) -> (c: &Command)
        ensures
            *c == self.command,
    {
        &self.command
    }

    pub fn debug(&self) -> (d: bool)
        ensures
            d == self.debug,
    {
        self.debug
    }
}

/// Excluded (non-office) kinds of day, for [`LogArgs`].
#[derive(Clone, Copy, Debug, PartialEq, Eq, Structural)]
pub enum Exclusion {
    /// Authorised working from home
    WorkingFromHome,
    /// Annual leave
    AnnualLeave,
    /// Sick day
    Sick,
    /// Other
    Other,
}

/// At most one of `append` and `delete` is set.
#[derive(Clone, Copy, Debug, PartialEq, Eq, Structural)]
pub struct LogFlags {
    pub append: bool,
    pub delete: bool,
}

/// Logging arguments given as an exclusion, a half-day switch and mode flags.
#[derive(Debug, PartialEq)]
pub struct LogArgs {
    pub exclusion: Option<Exclusion>,
    pub date: Option<Date>,
    pub half_day: bool,
    pub description: Option<String>,
    pub flags: LogFlags,
}

impl LogArgs {
    pub fn exclusion(&self) -> (e: Option<&Exclusion>)
        ensures
            e matches Some(x) ==> self.exclusion == Some(*x),
            e is None ==> self.exclusion is None,
    {
        self.exclusion.as_ref()
    }

    pub fn date(&self) -> (d: Option<&Date>)
        ensures
            d matches Some(x) ==> self.date == Some(*x),
            d is None ==> self.date is None,
    {
        self.date.as_ref()
    }

    pub fn half_day(&self) -> (h: bool)
        ensures
            h == self.half_day,
    {
        self.half_day
    }

    pub fn description(&self) -> (d: Option<&String>)
        ensures
            d matches Some(x) ==> self.description == Some(*x),
            d is None ==> self.description is None,
    {
        self.description.as_ref()
    }

    /// The mode that the flags select: append, delete, or else create.
    /// The flags exclude each other, so both are never set.
    pub fn state(&self) -> (m: Mode)
        requires
            !(self.flags.append && self.flags.delete),
        ensures
            m == (if self.flags.append {
                Mode::Append
            } else if self.flags.delete {
                Mode::Delete
            } else {
                Mode::Create
            }),
    {
        match (self.flags.append, self.flags.delete) {
            (false, false) => Mode::Create,
            (true, false) => Mode::Append,
            _ => Mode::Delete,
        }
    }
}

#[derive(Debug, PartialEq)]
pub struct ShowArgs {
    pub top: Option<usize>,
}

impl ShowArgs {
    pub fn top(&self) -> (n: Option<usize>)
        ensures
            n == self.top,
    {
        self.top
    }
}

#[derive(Debug, PartialEq)]
pub struct SummaryArgs {
    pub months: Option<usize>,
}

impl SummaryArgs {
    pub fn months(&self) -> (m: Option<usize>)
        ensures
            m == self.months,
    {
        self.months
    }
}

} // verus!
