//! The quoting, escaping and command-substitution tracker shared by the scans.

use vstd::prelude::*;

verus! {

/// What the scanner knows about the text read so far.
#[derive(Clone, Copy)]
pub struct ScanState {
    /// A backslash was read; the next character is taken literally.
    pub escape: bool,
    pub single_quote: bool,
    pub double_quote: bool,
    /// A `$` was read outside quotes; a `(` now opens a substitution.
    pub dollar: bool,
    /// Inside `$( ... )`, up to the next unguarded `)`.
    pub substitution: bool,
}

impl ScanState {
    pub open spec fn initial() -> ScanState {
        ScanState {
            escape: false,
            single_quote: false,
            double_quote: false,
            dollar: false,
            substitution: false,
        }
    }

    /// Blanks and operators are plain text here.
    pub open spec fn significant(self) -> bool {
        self.escape || self.single_quote || self.double_quote || self.substitution
    }

    /// The state after reading `c`.
    pub open spec fn next(self, c: char) -> ScanState {
        if self.escape {
            ScanState { escape: false, dollar: false, ..self }
        } else if c == '\\' {
            ScanState { escape: true, dollar: false, ..self }
        } else if c == '(' && self.dollar {
            ScanState { dollar: false, substitution: true, ..self }
        } else if c == ')' && self.substitution {
            ScanState { dollar: false, substitution: false, ..self }
        } else if c == '\'' && !self.double_quote && !self.substitution {
            ScanState { single_quote: !self.single_quote, dollar: false, ..self }
        } else if c == '"' && !self.single_quote && !self.substitution {
            ScanState { double_quote: !self.double_quote, dollar: false, ..self }
        } else if c == '$' && !self.single_quote && !self.double_quote && !self.substitution {
            ScanState { dollar: true, ..self }
        } else {
            ScanState { dollar: false, ..self }
        }
    }

    pub fn new() -> (r: ScanState)
        ensures
            r == ScanState::initial(),
    {
        ScanState {
            escape: false,
            single_quote: false,
            double_quote: false,
            dollar: false,
            substitution: false,
        }
    }

    pub fn is_significant(&self) -> (r: bool)
        ensures
            r == self.significant(),
    {
        self.escape || self.single_quote || self.double_quote || self.substitution
    }

    pub fn advance(&self, c: char) -> (r: ScanState)
        ensures
            r == self.next(c),
    {
        let s = *self;
        if s.escape {
            ScanState { escape: false, dollar: false, ..s }
        } else if c == '\\' {
            ScanState { escape: true, dollar: false, ..s }
        } else if c == '(' && s.dollar {
            ScanState { dollar: false, substitution: true, ..s }
        } else if c == ')' && s.substitution {
            ScanState { dollar: false, substitution: false, ..s }
        } else if c == '\'' && !s.double_quote && !s.substitution {
            ScanState { single_quote: !s.single_quote, dollar: false, ..s }
        } else if c == '"' && !s.single_quote && !s.substitution {
            ScanState { double_quote: !s.double_quote, dollar: false, ..s }
        } else if c == '$' && !s.single_quote && !s.double_quote && !s.substitution {
            ScanState { dollar: true, ..s }
        } else {
            ScanState { dollar: false, ..s }
        }
    }
}

} // verus!
