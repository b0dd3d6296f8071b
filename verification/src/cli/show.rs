//! The arguments of the `show` command.

use vstd::prelude::*;
use crate::date::Date;

verus! {

#[derive(Debug, PartialEq)]
pub struct Arguments {
    /// Limit the number of records returned (10 unless given)
    pub top: usize,
    /// Show records for a specific date
    pub date: Option<Date>,
}

impl Arguments {
    pub fn new(top: usize, date: Option<Date>) -> (a: Arguments)
        ensures
            a.top == top,
            a.date == date,
    {
        Arguments { top, date }
    }

    pub fn top(&self) -> (n: usize)
        ensures
            n == self.top,
    {
        self.top
    }

    pub fn date(&self) -> (d: Option<&Date>)
        ensures
            d matches Some(x) ==> self.date == Some(*x),
            d is None ==> self.date is None,
    {
        self.date.as_ref()
    }
}

} // verus!
