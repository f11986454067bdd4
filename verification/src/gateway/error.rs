//! What ends the work on an entry.

use crate::database::error::{error_text as database_error_text, Error as DatabaseError};
use vstd::prelude::*;
use vstd::string::*;

verus! {

/// What ends the work on an entry.
#[derive(Debug, PartialEq)]
pub enum Error {
    DatabaseError(DatabaseError),
    /// An analyzer has conditions and no statements for them, or statements and no
    /// conditions.
    DiffCondAndCondStmt(),
}


/// The line that tells of the failure.
pub open spec fn error_text(e: Error) -> Seq<char> {
    match e {
        Error::DatabaseError(e) => database_error_text(e),
        Error::DiffCondAndCondStmt() =>
            "ShapeMismatch: difference conditions struct and condition stmt"@,
    }
}

impl Error {
    /// The line that tells of the failure.
    pub fn message(&self) -> (text: String)
        ensures
            text@ == error_text(*self),
    {
        match self {
            Error::DatabaseError(e) => e.message(),
            Error::DiffCondAndCondStmt() => String::from_str(
                "ShapeMismatch: difference conditions struct and condition stmt",
            ),
        }
    }
}

} // verus!
