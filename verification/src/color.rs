//! ANSI color codes for terminal output.  Purely presentational: a color is
//! the escape sequence that switches the terminal to it.

use vstd::prelude::*;

verus! {

/// One ANSI color or style switch.
#[non_exhaustive]
pub struct Color {
    code: &'static str,
}

impl Color {
    /// The escape sequence the color stands for.
    pub closed spec fn code_seq(self) -> Seq<char> {
        self.code@
    }

    /// The escape sequence, ready to print.
    pub fn ansi(&self) -> (s: &'static str)
        ensures
            s@ == self.code_seq(),
    {
        self.code
    }

    pub fn reset() -> (c: Color)
        ensures
            c.code_seq() == "\u{1b}[0m"@,
    {
        Color { code: "\u{1b}[0m" }
    }

    pub fn red() -> (c: Color)
        ensures
            c.code_seq() == "\u{1b}[0;31m"@,
    {
        Color { code: "\u{1b}[0;31m" }
    }

    pub fn green() -> (c: Color)
        ensures
            c.code_seq() == "\u{1b}[0;32m"@,
    {
        Color { code: "\u{1b}[0;32m" }
    }

    pub fn yellow() -> (c: Color)
        ensures
            c.code_seq() == "\u{1b}[0;33m"@,
    {
        Color { code: "\u{1b}[0;33m" }
    }

    pub fn cyan() -> (c: Color)
        ensures
            c.code_seq() == "\u{1b}[0;36m"@,
    {
        Color { code: "\u{1b}[0;36m" }
    }
}

} // verus!
