//! What commands print. Primary output goes to standard output; status, warnings and
//! hints go to standard error, so that a pipe gets clean output. A quiet interface prints
//! no status.

use crate::text;
use vstd::prelude::*;

verus! {

/// When output is coloured.
#[derive(Clone, Copy, Debug, PartialEq, Eq, Structural)]
pub enum ColorChoice {
    Always,
    Never,
    Auto,
}

impl Default for ColorChoice {
    fn default() -> (r: ColorChoice)
        ensures
            r == ColorChoice::Auto,
    {
        ColorChoice::Auto
    }
}

/// How a command talks to the user.
#[derive(Clone, Copy, Debug, PartialEq, Eq, Structural)]
pub struct Ui {
    pub quiet: bool,
    pub color: ColorChoice,
}

/// Something to print.
#[derive(Debug)]
pub enum Output {
    Stdout(String),
    Stderr(String),
    Nothing,
}

impl Ui {
    /// An interface that is quiet or not.
    pub fn new(quiet: bool, color: ColorChoice) -> (r: Ui)
        ensures
            r == (Ui { quiet, color }),
    {
        Ui { quiet, color }
    }

    /// A line of primary output.
    pub fn say(&self, line: &str) -> (r: Output)
        ensures
            r is Stdout && r->Stdout_0@ == line@ + "\n"@,
    {
        Output::Stdout(text::concat(line, "\n"))
    }

    /// Primary output as it is.
    pub fn stdout(&self, s: String) -> (r: Output)
        ensures
            r is Stdout && r->Stdout_0@ == s@,
    {
        Output::Stdout(s)
    }

    /// A line of status, unless the interface is quiet.
    pub fn status(&self, line: &str) -> (r: Output)
        ensures
            if self.quiet {
                r is Nothing
            } else {
                r is Stderr && r->Stderr_0@ == line@ + "\n"@
            },
    {
        if self.quiet {
            return Output::Nothing;
        }
        Output::Stderr(text::concat(line, "\n"))
    }

    /// A warning.
    pub fn warning(&self, line: &str) -> (r: Output)
        ensures
            r is Stderr && r->Stderr_0@ == "Warning: "@ + line@ + "\n"@,
    {
        Output::Stderr(text::concat3("Warning: ", line, "\n"))
    }

    /// A hint.
    pub fn hint(&self, line: &str) -> (r: Output)
        ensures
            r is Stderr && r->Stderr_0@ == "Hint: "@ + line@ + "\n"@,
    {
        Output::Stderr(text::concat3("Hint: ", line, "\n"))
    }

    /// Text for standard error as it is.
    pub fn stderr(&self, s: &str) -> (r: Output)
        ensures
            r is Stderr && r->Stderr_0@ == s@,
    {
        Output::Stderr(s.to_owned())
    }

    /// Asks for a pager. There is none yet.
    pub fn request_pager(&mut self)
        ensures
            *final(self) == *old(self),
    {
    }
}

} // verus!
