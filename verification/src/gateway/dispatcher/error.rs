//! What can go wrong before an analyzer is run.

use vstd::prelude::*;
use vstd::string::*;

verus! {

/// What can go wrong before an analyzer is run.
#[derive(Debug, PartialEq, Eq, Clone, Copy)]
pub enum Error {
    /// The extension of the analyzer names no way of running it.
    UndefinedExtensionError(),
}


impl Error {
    /// The line that tells of the failure.
    pub fn message(&self) -> (text: String)
        ensures
            text@ == "undefined extension error"@,
    {
        String::from_str("undefined extension error")
    }
}

} // verus!
