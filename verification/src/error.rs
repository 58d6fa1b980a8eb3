//! What can go wrong.

use vstd::prelude::*;

verus! {

/// The ways in which an operation on a table fails.
#[derive(Clone, Copy, Debug, PartialEq, Eq, Structural)]
pub enum Error {
    /// The stored stream could not be read, or the table has been released.
    IOError,
    /// Columns disagree with the table's schema, or a stored stream has
    /// another schema than the table.
    SchemaError,
    /// The arguments of a push do not fit together: arrays of different
    /// lengths, or coordinates that do not match the active dimensions.
    ValidationError,
    /// The table has no identifier left to hand out.
    Exhausted,
}

impl Error {
    /// A short description of the error, for display.
    pub fn message(&self) -> (text: &'static str)
        ensures
            text@ == match self {
                Error::IOError => "IO Error: the stream cannot be read or written"@,
                Error::SchemaError => "Schema Error: the columns do not match the schema"@,
                Error::ValidationError => "Validation Error: the arguments do not fit together"@,
                Error::Exhausted => "Exhausted: no identifier is left"@,
            },
    {
        match self {
            Error::IOError => "IO Error: the stream cannot be read or written",
            Error::SchemaError => "Schema Error: the columns do not match the schema",
            Error::ValidationError => "Validation Error: the arguments do not fit together",
            Error::Exhausted => "Exhausted: no identifier is left",
        }
    }
}

} // verus!
