//! The parser of arguments.

use crate::config::arguments::Argument;
use crate::config::parser::base_parser::{
    access_rule, parse_access, parse_error_text, parse_whitespace, rest_of, whitespace_rule,
    ParseError, ParseErrorView, ParseInput, Parsed,
};
use crate::config::parser::conditions_parser::{failure_line, line_of};
use crate::config::parser::parser_type::AccessView;
use vstd::prelude::*;

verus! {

/// Why a text is no argument. The second and third variants carry the input that was
/// left and a word on what was expected.
#[derive(Debug, PartialEq)]
pub enum ParseArgumentError<'a> {
    BaseParseError(ParseError<'a>),
    NoneValue(ParseInput<'a>, &'a str),
    InvalidValue(ParseInput<'a>, &'a str),
}

/// Mathematical value of a `ParseArgumentError`.
pub enum ParseArgumentErrorView {
    BaseParseError(ParseErrorView),
    NoneValue(Seq<char>, Seq<char>),
    InvalidValue(Seq<char>, Seq<char>),
}

impl<'a> View for ParseArgumentError<'a> {
    type V = ParseArgumentErrorView;

    open spec fn view(&self) -> ParseArgumentErrorView {
        match self {
            ParseArgumentError::BaseParseError(e) => ParseArgumentErrorView::BaseParseError(e@),
            ParseArgumentError::NoneValue(r, m) => ParseArgumentErrorView::NoneValue(r@, m@),
            ParseArgumentError::InvalidValue(r, m) => ParseArgumentErrorView::InvalidValue(r@, m@),
        }
    }
}

/// `argument := WS accessor WS EOF`, with the error for each way of not being one.
pub open spec fn argument_rule(s: Seq<char>) -> Result<AccessView, ParseArgumentErrorView> {
    let start = rest_of(whitespace_rule(s), s);
    match access_rule(start) {
        Parsed::Failed(e) => Err(ParseArgumentErrorView::BaseParseError(e)),
        Parsed::Absent => if start.len() == 0 {
            Err(ParseArgumentErrorView::NoneValue(start, "The variable is empty"@))
        } else {
            Err(ParseArgumentErrorView::NoneValue(start, "not argument"@))
        },
        Parsed::Found { value, rest } => {
            let end = rest_of(whitespace_rule(rest), rest);
            if end.len() == 0 {
                Ok(value)
            } else {
                Err(
                    ParseArgumentErrorView::InvalidValue(
                        end,
                        "Unexpected data exists in value suffix"@,
                    ),
                )
            }
        },
    }
}

/// Whether an exec result says what `argument_rule` says.
pub open spec fn argument_agrees(
    result: Result<Argument, ParseArgumentError>,
    rule: Result<AccessView, ParseArgumentErrorView>,
) -> bool {
    match rule {
        Ok(value) => result is Ok && result->Ok_0@ == value,
        Err(e) => result is Err && result->Err_0@ == e,
    }
}

/// Reads one argument: an accessor with blanks allowed around it and nothing else.
pub fn parse_argument<'a>(input: ParseInput<'a>) -> (result: Result<
    Argument,
    ParseArgumentError<'a>,
>)
    ensures
        argument_agrees(result, argument_rule(input@)),
{
    let start = match parse_whitespace(input) {
        Err(e) => { return Err(ParseArgumentError::BaseParseError(e)); },
        Ok((rest, _)) => rest,
    };
    let (remaining, value) = match parse_access(start) {
        Err(e) => { return Err(ParseArgumentError::BaseParseError(e)); },
        Ok((_, None)) => {
            if start.unicode_len() == 0 {
                return Err(ParseArgumentError::NoneValue(start, "The variable is empty"));
            }
            return Err(ParseArgumentError::NoneValue(start, "not argument"));
        },
        Ok((rest, Some(value))) => (rest, value),
    };
    let end = match parse_whitespace(remaining) {
        Err(e) => { return Err(ParseArgumentError::BaseParseError(e)); },
        Ok((rest, _)) => rest,
    };
    if end.unicode_len() == 0 {
        Ok(Argument { value })
    } else {
        Err(ParseArgumentError::InvalidValue(end, "Unexpected data exists in value suffix"))
    }
}


/// The line that tells why a text is no argument.
pub open spec fn argument_error_text(e: ParseArgumentErrorView) -> Seq<char> {
    match e {
        ParseArgumentErrorView::BaseParseError(b) => parse_error_text(b),
        ParseArgumentErrorView::NoneValue(rest, info) => failure_line(
            "None Value Error"@,
            rest,
            info,
        ),
        ParseArgumentErrorView::InvalidValue(rest, info) => failure_line(
            "Invalid Value"@,
            rest,
            info,
        ),
    }
}

impl<'a> ParseArgumentError<'a> {
    /// The line that tells of the failure.
    pub fn message(&self) -> (text: String)
        ensures
            text@ == argument_error_text(self@),
    {
        match self {
            ParseArgumentError::BaseParseError(e) => e.message(),
            ParseArgumentError::NoneValue(rest, info) => line_of("None Value Error", rest, info),
            ParseArgumentError::InvalidValue(rest, info) => line_of("Invalid Value", rest, info),
        }
    }
}

} // verus!
