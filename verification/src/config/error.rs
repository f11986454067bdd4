//! Why a configuration is refused, and the line that tells of it.

use crate::config::parser::arguments_parser::{ParseArgumentError, ParseArgumentErrorView};
use crate::config::parser::base_parser::{ParseError, ParseErrorView};
use crate::config::parser::conditions_parser::{ParseConditionError, ParseConditionErrorView};
use crate::text::{nat_text, push_nat};
use vstd::prelude::*;
use vstd::string::*;

verus! {

/// The kinds of failure of the expression parser.
#[derive(Debug, PartialEq, Eq, Clone, Copy)]
pub enum ExpressionErrorKind {
    /// The expression ends too early, or goes on after its end.
    Syntax,
    /// A value is missing or followed by something that is no blank.
    InvalidValue,
    /// The operator is missing or followed by something that is no blank.
    InvalidOperator,
    /// The chain word is neither `and` nor `or`, or is followed by something that is no
    /// blank.
    InvalidChain,
    /// An argument holds no accessor.
    NoneValue,
    /// A run of digits is above `i32::MAX`.
    IntegerOverflow,
    /// A `.` is not followed by a key.
    DotWithoutKey,
    /// A bracket pair holds neither an integer nor an accessor.
    InvalidDataInArray,
    /// A `[` has no matching `]`.
    UnmatchedBracket,
}

/// A failure of the expression parser on one line of the configuration: the analyzer,
/// the line, the kind of failure, the input that was left, and a word on what was
/// expected.
#[derive(Debug, PartialEq)]
pub struct ExpressionError {
    pub analyzer: String,
    pub line: String,
    pub kind: ExpressionErrorKind,
    pub rest: String,
    pub message: String,
}

/// A rule of the configuration that the analyzers break.
#[derive(Debug, PartialEq)]
pub enum ValidationError {
    /// The analyzer at this position has an empty name.
    EmptyName(usize),
    /// The name is no identifier: a letter or `_`, then letters, digits and `_`.
    InvalidName(String),
    /// The name is taken by the store or by the accessor language, or is a word of SQL.
    ReservedName(String),
    /// Two analyzers have this name.
    DuplicateName(String),
    /// The analyzer depends on a name that no earlier analyzer has.
    UnknownDependency { analyzer: String, dependency: String },
    /// A condition of the analyzer ends in `or`, which is not offered.
    UnsupportedChain { analyzer: String },
}

/// Why a configuration is refused.
#[derive(Debug, PartialEq)]
pub enum Error {
    ExpressionParse(ExpressionError),
    ConfigValidation(ValidationError),
}

/// Mathematical value of a parser failure, without the analyzer and the line.
pub struct FailureView {
    pub kind: ExpressionErrorKind,
    pub rest: Seq<char>,
    pub message: Seq<char>,
}

/// Mathematical value of an `ExpressionError`.
pub struct ExpressionErrorView {
    pub analyzer: Seq<char>,
    pub line: Seq<char>,
    pub failure: FailureView,
}

/// Mathematical value of a `ValidationError`.
pub enum ValidationErrorView {
    EmptyName(usize),
    InvalidName(Seq<char>),
    ReservedName(Seq<char>),
    DuplicateName(Seq<char>),
    UnknownDependency { analyzer: Seq<char>, dependency: Seq<char> },
    UnsupportedChain { analyzer: Seq<char> },
}

/// Mathematical value of an `Error`.
pub enum ErrorView {
    ExpressionParse(ExpressionErrorView),
    ConfigValidation(ValidationErrorView),
}

impl View for ExpressionError {
    type V = ExpressionErrorView;

    open spec fn view(&self) -> ExpressionErrorView {
        ExpressionErrorView {
            analyzer: self.analyzer@,
            line: self.line@,
            failure: FailureView { kind: self.kind, rest: self.rest@, message: self.message@ },
        }
    }
}

impl View for ValidationError {
    type V = ValidationErrorView;

    open spec fn view(&self) -> ValidationErrorView {
        match self {
            ValidationError::EmptyName(i) => ValidationErrorView::EmptyName(*i),
            ValidationError::InvalidName(n) => ValidationErrorView::InvalidName(n@),
            ValidationError::ReservedName(n) => ValidationErrorView::ReservedName(n@),
            ValidationError::DuplicateName(n) => ValidationErrorView::DuplicateName(n@),
            ValidationError::UnknownDependency { analyzer, dependency } =>
                ValidationErrorView::UnknownDependency {
                    analyzer: analyzer@,
                    dependency: dependency@,
                },
            ValidationError::UnsupportedChain { analyzer } => ValidationErrorView::UnsupportedChain {
                analyzer: analyzer@,
            },
        }
    }
}

impl View for Error {
    type V = ErrorView;

    open spec fn view(&self) -> ErrorView {
        match self {
            Error::ExpressionParse(e) => ErrorView::ExpressionParse(e@),
            Error::ConfigValidation(e) => ErrorView::ConfigValidation(e@),
        }
    }
}

/// The failure that a failure of the base parser stands for.
pub open spec fn base_failure(e: ParseErrorView) -> FailureView {
    match e {
        ParseErrorView::Str2Digits(rest) => FailureView {
            kind: ExpressionErrorKind::IntegerOverflow,
            rest,
            message: "number does not fit 32 bits"@,
        },
        ParseErrorView::AccessPathDotError(rest) => FailureView {
            kind: ExpressionErrorKind::DotWithoutKey,
            rest,
            message: "error occurred after parsing the `.`"@,
        },
        ParseErrorView::InvalidDataInArray(rest) => FailureView {
            kind: ExpressionErrorKind::InvalidDataInArray,
            rest,
            message: "invalid data in array"@,
        },
        ParseErrorView::UnmatchedClosingBracket(rest) => FailureView {
            kind: ExpressionErrorKind::UnmatchedBracket,
            rest,
            message: "unmatched closing bracket"@,
        },
    }
}

/// The failure that a failure of the condition parser stands for.
pub open spec fn condition_failure(e: ParseConditionErrorView) -> FailureView {
    match e {
        ParseConditionErrorView::BaseParseError(b) => base_failure(b),
        ParseConditionErrorView::SyntaxError(rest, message) => FailureView {
            kind: ExpressionErrorKind::Syntax,
            rest,
            message,
        },
        ParseConditionErrorView::InvalidValue(rest, message) => FailureView {
            kind: ExpressionErrorKind::InvalidValue,
            rest,
            message,
        },
        ParseConditionErrorView::InvalidOperator(rest, message) => FailureView {
            kind: ExpressionErrorKind::InvalidOperator,
            rest,
            message,
        },
        ParseConditionErrorView::InvalidChain(rest, message) => FailureView {
            kind: ExpressionErrorKind::InvalidChain,
            rest,
            message,
        },
    }
}

/// The failure that a failure of the argument parser stands for.
pub open spec fn argument_failure(e: ParseArgumentErrorView) -> FailureView {
    match e {
        ParseArgumentErrorView::BaseParseError(b) => base_failure(b),
        ParseArgumentErrorView::NoneValue(rest, message) => FailureView {
            kind: ExpressionErrorKind::NoneValue,
            rest,
            message,
        },
        ParseArgumentErrorView::InvalidValue(rest, message) => FailureView {
            kind: ExpressionErrorKind::InvalidValue,
            rest,
            message,
        },
    }
}

/// The parts of a failure, each as a text of its own.
pub struct Failure {
    pub kind: ExpressionErrorKind,
    pub rest: String,
    pub message: String,
}

impl View for Failure {
    type V = FailureView;

    open spec fn view(&self) -> FailureView {
        FailureView { kind: self.kind, rest: self.rest@, message: self.message@ }
    }
}

impl Failure {
    /// The failure that a failure of the base parser stands for, its texts copied.
    pub fn from_base(e: &ParseError) -> (failure: Failure)
        ensures
            failure@ == base_failure(e@),
    {
        match e {
            ParseError::Str2Digits(rest) => Failure {
                kind: ExpressionErrorKind::IntegerOverflow,
                rest: String::from_str(rest),
                message: String::from_str("number does not fit 32 bits"),
            },
            ParseError::AccessPathDotError(rest) => Failure {
                kind: ExpressionErrorKind::DotWithoutKey,
                rest: String::from_str(rest),
                message: String::from_str("error occurred after parsing the `.`"),
            },
            ParseError::InvalidDataInArray(rest) => Failure {
                kind: ExpressionErrorKind::InvalidDataInArray,
                rest: String::from_str(rest),
                message: String::from_str("invalid data in array"),
            },
            ParseError::UnmatchedClosingBracket(rest) => Failure {
                kind: ExpressionErrorKind::UnmatchedBracket,
                rest: String::from_str(rest),
                message: String::from_str("unmatched closing bracket"),
            },
        }
    }

    /// The failure that a failure of the condition parser stands for, its texts copied.
    pub fn from_condition(e: &ParseConditionError) -> (failure: Failure)
        ensures
            failure@ == condition_failure(e@),
    {
        match e {
            ParseConditionError::BaseParseError(b) => Failure::from_base(b),
            ParseConditionError::SyntaxError(rest, message) => Failure {
                kind: ExpressionErrorKind::Syntax,
                rest: String::from_str(rest),
                message: String::from_str(message),
            },
            ParseConditionError::InvalidValue(rest, message) => Failure {
                kind: ExpressionErrorKind::InvalidValue,
                rest: String::from_str(rest),
                message: String::from_str(message),
            },
            ParseConditionError::InvalidOperator(rest, message) => Failure {
                kind: ExpressionErrorKind::InvalidOperator,
                rest: String::from_str(rest),
                message: String::from_str(message),
            },
            ParseConditionError::InvalidChain(rest, message) => Failure {
                kind: ExpressionErrorKind::InvalidChain,
                rest: String::from_str(rest),
                message: String::from_str(message),
            },
        }
    }

    /// The failure that a failure of the argument parser stands for, its texts copied.
    pub fn from_argument(e: &ParseArgumentError) -> (failure: Failure)
        ensures
            failure@ == argument_failure(e@),
    {
        match e {
            ParseArgumentError::BaseParseError(b) => Failure::from_base(b),
            ParseArgumentError::NoneValue(rest, message) => Failure {
                kind: ExpressionErrorKind::NoneValue,
                rest: String::from_str(rest),
                message: String::from_str(message),
            },
            ParseArgumentError::InvalidValue(rest, message) => Failure {
                kind: ExpressionErrorKind::InvalidValue,
                rest: String::from_str(rest),
                message: String::from_str(message),
            },
        }
    }
}


/// The name of a kind of failure.
pub open spec fn kind_text(kind: ExpressionErrorKind) -> Seq<char> {
    match kind {
        ExpressionErrorKind::Syntax => "syntax error"@,
        ExpressionErrorKind::InvalidValue => "invalid value"@,
        ExpressionErrorKind::InvalidOperator => "invalid operator"@,
        ExpressionErrorKind::InvalidChain => "invalid chain"@,
        ExpressionErrorKind::NoneValue => "no value"@,
        ExpressionErrorKind::IntegerOverflow => "integer overflow"@,
        ExpressionErrorKind::DotWithoutKey => "dot not followed by key"@,
        ExpressionErrorKind::InvalidDataInArray => "invalid data in array"@,
        ExpressionErrorKind::UnmatchedBracket => "unmatched bracket"@,
    }
}

/// The line that tells of a failure of the expression parser: the analyzer, the line,
/// the kind of failure with the word on what was expected, and the input that was left.
pub open spec fn expression_error_text(e: ExpressionErrorView) -> Seq<char> {
    "ExpressionParse: analyzer `"@ + e.analyzer + "`, line `"@ + e.line + "`: "@ + kind_text(
        e.failure.kind,
    ) + ": "@ + e.failure.message + " (at `"@ + e.failure.rest + "`)"@
}

/// The line that tells of a rule that the analyzers break.
pub open spec fn validation_error_text(e: ValidationErrorView) -> Seq<char> {
    match e {
        ValidationErrorView::EmptyName(position) => "ConfigValidation: the analyzer at position "@
            + nat_text(position as nat) + " has no name"@,
        ValidationErrorView::InvalidName(name) => "ConfigValidation: analyzer `"@ + name
            + "`: the name is no identifier"@,
        ValidationErrorView::ReservedName(name) => "ConfigValidation: analyzer `"@ + name
            + "`: the name is reserved"@,
        ValidationErrorView::DuplicateName(name) => "ConfigValidation: analyzer `"@ + name
            + "`: the name is used twice"@,
        ValidationErrorView::UnknownDependency { analyzer, dependency } =>
            "ConfigValidation: analyzer `"@ + analyzer + "`: no earlier analyzer is named `"@
                + dependency + "`"@,
        ValidationErrorView::UnsupportedChain { analyzer } => "ConfigValidation: analyzer `"@
            + analyzer + "`: `or` is not offered"@,
    }
}

/// The line that tells why a configuration is refused.
pub open spec fn error_text(e: ErrorView) -> Seq<char> {
    match e {
        ErrorView::ExpressionParse(e) => expression_error_text(e),
        ErrorView::ConfigValidation(e) => validation_error_text(e),
    }
}

impl ExpressionErrorKind {
    /// The name of the kind.
    pub fn name(&self) -> (text: &'static str)
        ensures
            text@ == kind_text(*self),
    {
        match self {
            ExpressionErrorKind::Syntax => "syntax error",
            ExpressionErrorKind::InvalidValue => "invalid value",
            ExpressionErrorKind::InvalidOperator => "invalid operator",
            ExpressionErrorKind::InvalidChain => "invalid chain",
            ExpressionErrorKind::NoneValue => "no value",
            ExpressionErrorKind::IntegerOverflow => "integer overflow",
            ExpressionErrorKind::DotWithoutKey => "dot not followed by key",
            ExpressionErrorKind::InvalidDataInArray => "invalid data in array",
            ExpressionErrorKind::UnmatchedBracket => "unmatched bracket",
        }
    }
}

impl ExpressionError {
    /// The line that tells of the failure.
    pub fn message(&self) -> (text: String)
        ensures
            text@ == expression_error_text(self@),
    {
        let mut text: String = String::from_str("ExpressionParse: analyzer `");
        text.append(self.analyzer.as_str());
        text.append("`, line `");
        text.append(self.line.as_str());
        text.append("`: ");
        text.append(self.kind.name());
        text.append(": ");
        text.append(self.message.as_str());
        text.append(" (at `");
        text.append(self.rest.as_str());
        text.append("`)");
        text
    }
}

impl ValidationError {
    /// The line that tells of the rule that is broken.
    pub fn message(&self) -> (text: String)
        ensures
            text@ == validation_error_text(self@),
    {
        match self {
            ValidationError::EmptyName(position) => {
                let mut text: String = String::from_str(
                    "ConfigValidation: the analyzer at position ",
                );
                push_nat(&mut text, *position as u64);
                text.append(" has no name");
                text
            },
            ValidationError::InvalidName(name) => {
                let mut text: String = String::from_str("ConfigValidation: analyzer `");
                text.append(name.as_str());
                text.append("`: the name is no identifier");
                text
            },
            ValidationError::ReservedName(name) => {
                let mut text: String = String::from_str("ConfigValidation: analyzer `");
                text.append(name.as_str());
                text.append("`: the name is reserved");
                text
            },
            ValidationError::DuplicateName(name) => {
                let mut text: String = String::from_str("ConfigValidation: analyzer `");
                text.append(name.as_str());
                text.append("`: the name is used twice");
                text
            },
            ValidationError::UnknownDependency { analyzer, dependency } => {
                let mut text: String = String::from_str("ConfigValidation: analyzer `");
                text.append(analyzer.as_str());
                text.append("`: no earlier analyzer is named `");
                text.append(dependency.as_str());
                text.append("`");
                text
            },
            ValidationError::UnsupportedChain { analyzer } => {
                let mut text: String = String::from_str("ConfigValidation: analyzer `");
                text.append(analyzer.as_str());
                text.append("`: `or` is not offered");
                text
            },
        }
    }
}

impl Error {
    /// The line that tells why the configuration is refused.
    pub fn message(&self) -> (text: String)
        ensures
            text@ == error_text(self@),
    {
        match self {
            Error::ExpressionParse(e) => e.message(),
            Error::ConfigValidation(e) => e.message(),
        }
    }
}

} // verus!
