use vstd::prelude::*;

verus! {

/// The two ways in which a read can fail.
#[derive(Debug, Clone, Copy, PartialEq, Eq, Structural)]
pub enum ParseError {
    /// A requested range starts beyond the end of the scope.
    BadOffset,
    /// A requested range ends beyond the available bytes.
    BadEof,
}

/// A sequential read ran past the end of its scope.
#[derive(Debug, Clone, Copy)]
pub struct ReadEof {}

impl From<ReadEof> for ParseError {
    fn from(_e: ReadEof) -> (r: ParseError)
        ensures
            r == ParseError::BadEof,
    {
        ParseError::BadEof
    }
}

impl vstd::std_specs::convert::FromSpecImpl<ReadEof> for ParseError {
    open spec fn obeys_from_spec() -> bool {
        true
    }

    open spec fn from_spec(v: ReadEof) -> ParseError {
        ParseError::BadEof
    }
}

} // verus!
