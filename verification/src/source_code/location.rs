use crate::text::{decimal, decimal_text};
use vstd::prelude::*;
use vstd::string::StringExecFns;

verus! {

/// A place in a source text: the absolute character `position`, and the
/// same place as a zero-based `line` and the `offset` within that line.
#[derive(Debug, Clone, Copy, PartialEq, Eq, PartialOrd, Ord, Structural)]
pub struct Location {
    pub position: usize,
    pub line: usize,
    pub offset: usize,
}

impl Location {
    /// The location with the given offset, line and offset within the line.
    pub fn new(position: usize, line: usize, offset: usize) -> (l: Location)
        ensures
            l == (Location { position, line, offset }),
    {
        Location { line, offset, position }
    }

    /// The line and the offset in decimal, with a colon between them.
    pub open spec fn rendered(self) -> Seq<char> {
        decimal(self.line as nat) + seq![':'] + decimal(self.offset as nat)
    }

    /// This location as text: the line, a colon, the offset.
    pub fn to_string(&self) -> (s: String)
        ensures
            s@ == self.rendered(),
    {
        let mut s = decimal_text(self.line as u128);
        s.push(':');
        s.append(decimal_text(self.offset as u128).as_str());
        assert(s@ =~= self.rendered());
        s
    }
}

} // verus!
