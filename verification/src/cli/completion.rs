//! The arguments of the `completion` command.

use vstd::prelude::*;

verus! {

#[derive(Clone, Copy, Debug, PartialEq, Eq, Structural)]
pub enum Shell {
    Bash,
    Fish,
    Zsh,
}

#[derive(Debug, PartialEq)]
pub struct Arguments {
    pub shell: Shell,
}

impl Arguments {
    pub fn new(shell: Shell) -> (a: Arguments)
        ensures
            a.shell == shell,
    {
        Arguments { shell }
    }

    pub fn shell(&self) -> (s: Shell)
        ensures
            s == self.shell,
    {
        self.shell
    }
}

} // verus!
