use vstd::prelude::*;

verus! {

/// A position in the source text: 1-based line and column.
/// Locations are carried through terms for diagnostics only; no semantic
/// operation of the engine reads them.
#[derive(Clone, Copy, Debug)]
pub struct Loc {
    pub line: u64,
    pub col: u64,
}

impl Loc {
    /// The position of the first character of a source text.
    pub fn new() -> (r: Loc)
        ensures
            r.line == 1,
            r.col == 1,
    {
        Loc { line: 1, col: 1 }
    }

    /// Advance past one character within the current line (the column
    /// saturates rather than wraps on monstrous lines).
    pub fn col(&mut self)
        ensures
            final(self).line == old(self).line,
            old(self).col < u64::MAX ==> final(self).col == old(self).col + 1,
    {
        if self.col < u64::MAX {
            self.col = self.col + 1;
        }
    }

    /// Advance to the start of the next line (the line count saturates
    /// rather than wraps on monstrous texts).
    pub fn new_line(&mut self)
        ensures
            final(self).col == 1,
            old(self).line < u64::MAX ==> final(self).line == old(self).line + 1,
    {
        if self.line < u64::MAX {
            self.line = self.line + 1;
        }
        self.col = 1;
    }
}

impl Default for Loc {
    fn default() -> (r: Loc)
        ensures
            r.line == 1,
            r.col == 1,
    {
        Loc::new()
    }
}

/// What kind of fault an `Error` reports.
#[derive(Clone, Copy, Debug, PartialEq, Eq, Structural)]
pub enum ErrorTy {
    SyntaxError,
}

/// A fault found while scanning or parsing, with the position it was found at
/// and a human-readable description.  Resolution failures are not `Error`s:
/// they are ordinary control signals of the search (see `unify::ApplyError`).
#[derive(Clone, Debug)]
pub struct Error {
    pub loc: Loc,
    pub ty: ErrorTy,
    pub desc: String,
}

impl Error {
    /// The description of the fault, for display to the user.
    pub fn message(&self) -> (s: &str)
        ensures
            s@ == self.desc@,
    {
        self.desc.as_str()
    }
}

} // verus!
