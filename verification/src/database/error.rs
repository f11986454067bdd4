//! What can go wrong between the configuration and the store.

use vstd::prelude::*;
use vstd::string::*;

verus! {

/// What can go wrong between the configuration and the store.
#[derive(Debug, PartialEq)]
pub enum Error {
    /// The path of an accessor on an analyzer starts with an index.
    AnalyzerNameDoesNotHaveAnArray(),
    /// An index of an accessor is itself an accessor.
    JsonArrayDoesNotHaveOtherThanInt(),
    /// The accessor asks for something that is not offered: a path below `path`.
    UnimplementedError(),
    /// `pathlist` was given a path.
    PathListDoesNotHaveAcess(),
    /// No statements were prepared under this analyzer name.
    NotAnalyzerNameInDataBase(String),
    /// The two sides of a comparison are of kinds that the operator cannot relate.
    ComparisonErrorTypeMismatch(),
    /// The conditions and the statements prepared for them differ in number.
    DiffCondAndCondStmt(),
    /// A literal is paired with a statement, or an accessor with none.
    NoAccessSatement(),
    /// No insert statement was prepared under this analyzer name.
    NoAnalyzerName(),
    /// A statement was asked for its query before its placeholders were bound.
    BindRequired(),
    /// What was handed in is not what the step under way waits for.
    MismatchedBindType(),
}


/// The line that tells of the failure.
pub open spec fn error_text(e: Error) -> Seq<char> {
    match e {
        Error::NotAnalyzerNameInDataBase(name) => "analyzer name: `"@ + name@
            + "` is not in database"@,
        Error::AnalyzerNameDoesNotHaveAnArray() => "Compile: analyzer name does not have array"@,
        Error::JsonArrayDoesNotHaveOtherThanInt() => "Compile: json array does not have other than int"@,
        Error::UnimplementedError() => "Compile: unimplemented error"@,
        Error::PathListDoesNotHaveAcess() => "Compile: path list does not have access"@,
        Error::ComparisonErrorTypeMismatch() => "TypeMismatch: comparison error"@,
        Error::DiffCondAndCondStmt() => "ShapeMismatch: difference conditions struct and condition stmt"@,
        Error::NoAccessSatement() => "ShapeMismatch: there is access struct and is not access statement"@,
        Error::NoAnalyzerName() => "NoAnalyzerName: no analyzer name"@,
        Error::BindRequired() => "BindMissing: bind required"@,
        Error::MismatchedBindType() => "mismatch bind type"@,
    }
}

impl Error {
    /// The line that tells of the failure.
    pub fn message(&self) -> (text: String)
        ensures
            text@ == error_text(*self),
    {
        match self {
            Error::NotAnalyzerNameInDataBase(name) => {
                let mut text: String = String::from_str("analyzer name: `");
                text.append(name.as_str());
                text.append("` is not in database");
                text
            },
            Error::AnalyzerNameDoesNotHaveAnArray() => String::from_str("Compile: analyzer name does not have array"),
            Error::JsonArrayDoesNotHaveOtherThanInt() => String::from_str("Compile: json array does not have other than int"),
            Error::UnimplementedError() => String::from_str("Compile: unimplemented error"),
            Error::PathListDoesNotHaveAcess() => String::from_str("Compile: path list does not have access"),
            Error::ComparisonErrorTypeMismatch() => String::from_str("TypeMismatch: comparison error"),
            Error::DiffCondAndCondStmt() => String::from_str("ShapeMismatch: difference conditions struct and condition stmt"),
            Error::NoAccessSatement() => String::from_str("ShapeMismatch: there is access struct and is not access statement"),
            Error::NoAnalyzerName() => String::from_str("NoAnalyzerName: no analyzer name"),
            Error::BindRequired() => String::from_str("BindMissing: bind required"),
            Error::MismatchedBindType() => String::from_str("mismatch bind type"),
        }
    }
}

} // verus!
