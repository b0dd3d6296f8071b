//! The arguments of the `summary` command.

use vstd::prelude::*;

verus! {

#[derive(Debug, PartialEq)]
pub struct Arguments {
    /// Number of months to summarise; only the current month when absent
    pub months: Option<usize>,
    /// Output as JSON
    pub json: bool,
}

impl Arguments {
    pub fn new(months: Option<usize>, json: bool) -> (a: Arguments)
        ensures
            a.months == months,
            a.json == json,
    {
        Arguments { months, json }
    }

    pub fn months(&self) -> (m: Option<usize>)
        ensures
            m == self.months,
    {
        self.months
    }

    pub fn json(&self) -> (j: bool)
        ensures
            j == self.json,
    {
        self.json
    }
}

} // verus!
