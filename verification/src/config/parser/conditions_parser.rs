//! The parser of conditions.

use crate::config::conditions::{Condition, ConditionView};
use crate::config::parser::base_parser::{
    chain_rule, operator_rule, parse_chain, parse_error_text, parse_operator, parse_value,
    parse_whitespace, rest_of, value_rule, whitespace_rule, ParseError, ParseErrorView,
    ParseInput, Parsed,
};
use crate::config::parser::parser_type::{Chain, Operator, Value, ValueView};
use vstd::prelude::*;
use vstd::string::*;

verus! {

/// Why a text is no condition. All variants but the first carry the input that was left
/// and a word on what was expected.
#[derive(Debug, PartialEq)]
pub enum ParseConditionError<'a> {
    BaseParseError(ParseError<'a>),
    SyntaxError(ParseInput<'a>, &'a str),
    InvalidValue(ParseInput<'a>, &'a str),
    InvalidOperator(ParseInput<'a>, &'a str),
    InvalidChain(ParseInput<'a>, &'a str),
}

/// Mathematical value of a `ParseConditionError`.
pub enum ParseConditionErrorView {
    BaseParseError(ParseErrorView),
    SyntaxError(Seq<char>, Seq<char>),
    InvalidValue(Seq<char>, Seq<char>),
    InvalidOperator(Seq<char>, Seq<char>),
    InvalidChain(Seq<char>, Seq<char>),
}

impl<'a> View for ParseConditionError<'a> {
    type V = ParseConditionErrorView;

    open spec fn view(&self) -> ParseConditionErrorView {
        match self {
            ParseConditionError::BaseParseError(e) => ParseConditionErrorView::BaseParseError(e@),
            ParseConditionError::SyntaxError(r, m) => ParseConditionErrorView::SyntaxError(r@, m@),
            ParseConditionError::InvalidValue(r, m) => ParseConditionErrorView::InvalidValue(
                r@,
                m@,
            ),
            ParseConditionError::InvalidOperator(r, m) => ParseConditionErrorView::InvalidOperator(
                r@,
                m@,
            ),
            ParseConditionError::InvalidChain(r, m) => ParseConditionErrorView::InvalidChain(
                r@,
                m@,
            ),
        }
    }
}

/// The word of the error for an expression that ends too early.
pub open spec fn truncated() -> Seq<char> {
    "Truncated expression: Expected operator and right-hand value after left-hand value"@
}

/// `condition := WS value WS operator WS value WS [chain] WS EOF`, with the error for each
/// way of not being one. Blanks are required on both sides of the operator, and between
/// the right-hand value and the chain word.
pub open spec fn condition_rule(s: Seq<char>) -> Result<ConditionView, ParseConditionErrorView> {
    let start = rest_of(whitespace_rule(s), s);
    match value_rule(start) {
        Parsed::Failed(e) => Err(ParseConditionErrorView::BaseParseError(e)),
        Parsed::Absent => if start.len() == 0 {
            Err(ParseConditionErrorView::SyntaxError(start, "Missing left-hand value"@))
        } else {
            Err(ParseConditionErrorView::InvalidValue(start, "Invalid left-hand value"@))
        },
        Parsed::Found { value: left, rest } => if rest.len() == 0 {
            Err(ParseConditionErrorView::SyntaxError(rest, truncated()))
        } else {
            after_left(left, rest)
        },
    }
}

/// The rule from the end of the left-hand value on; `s` is not empty.
pub open spec fn after_left(left: ValueView, s: Seq<char>) -> Result<
    ConditionView,
    ParseConditionErrorView,
> {
    let start = rest_of(whitespace_rule(s), s);
    if whitespace_rule(s) is Absent {
        Err(
            ParseConditionErrorView::InvalidValue(
                start,
                "Unexpected data exists in left value suffix"@,
            ),
        )
    } else if start.len() == 0 {
        Err(ParseConditionErrorView::SyntaxError(start, truncated()))
    } else {
        match operator_rule(start) {
            Parsed::Failed(e) => Err(ParseConditionErrorView::BaseParseError(e)),
            Parsed::Absent => Err(
                ParseConditionErrorView::InvalidOperator(start, "Invalid Operator"@),
            ),
            Parsed::Found { value: op, rest } => if rest.len() == 0 {
                Err(ParseConditionErrorView::SyntaxError(rest, truncated()))
            } else {
                after_operator(left, op, rest)
            },
        }
    }
}

/// The rule from the end of the operator on; `s` is not empty.
pub open spec fn after_operator(left: ValueView, op: Operator, s: Seq<char>) -> Result<
    ConditionView,
    ParseConditionErrorView,
> {
    let start = rest_of(whitespace_rule(s), s);
    if whitespace_rule(s) is Absent {
        Err(
            ParseConditionErrorView::InvalidOperator(
                start,
                "Unexpected data exists in operator suffix"@,
            ),
        )
    } else if start.len() == 0 {
        Err(ParseConditionErrorView::SyntaxError(start, truncated()))
    } else {
        match value_rule(start) {
            Parsed::Failed(e) => Err(ParseConditionErrorView::BaseParseError(e)),
            Parsed::Absent => Err(
                ParseConditionErrorView::InvalidValue(start, "Invalid right-hand value"@),
            ),
            Parsed::Found { value: right, rest } => if rest.len() == 0 {
                Ok(ConditionView { left, op, right, chain: None })
            } else {
                after_right(left, op, right, rest)
            },
        }
    }
}

/// The rule from the end of the right-hand value on; `s` is not empty.
pub open spec fn after_right(
    left: ValueView,
    op: Operator,
    right: ValueView,
    s: Seq<char>,
) -> Result<ConditionView, ParseConditionErrorView> {
    let start = rest_of(whitespace_rule(s), s);
    if whitespace_rule(s) is Absent {
        Err(
            ParseConditionErrorView::InvalidValue(
                start,
                "Unexpected data exists in right value suffix"@,
            ),
        )
    } else if start.len() == 0 {
        Ok(ConditionView { left, op, right, chain: None })
    } else {
        match chain_rule(start) {
            Parsed::Failed(e) => Err(ParseConditionErrorView::BaseParseError(e)),
            Parsed::Absent => Err(ParseConditionErrorView::InvalidChain(start, "Invalid chain"@)),
            Parsed::Found { value: chain, rest } => {
                let end = rest_of(whitespace_rule(rest), rest);
                if rest.len() == 0 {
                    Ok(ConditionView { left, op, right, chain: Some(chain) })
                } else if whitespace_rule(rest) is Absent {
                    Err(
                        ParseConditionErrorView::InvalidChain(
                            end,
                            "Unexpected data exists in right Chain suffix"@,
                        ),
                    )
                } else if end.len() == 0 {
                    Ok(ConditionView { left, op, right, chain: Some(chain) })
                } else {
                    Err(
                        ParseConditionErrorView::SyntaxError(
                            end,
                            "Data exists at the rear of Chain"@,
                        ),
                    )
                }
            },
        }
    }
}

/// Whether an exec result says what `condition_rule` says.
pub open spec fn condition_agrees(
    result: Result<Condition, ParseConditionError>,
    rule: Result<ConditionView, ParseConditionErrorView>,
) -> bool {
    match rule {
        Ok(value) => result is Ok && result->Ok_0@ == value,
        Err(e) => result is Err && result->Err_0@ == e,
    }
}

/// Reads one condition line.
pub fn parse_condition<'a>(input: ParseInput<'a>) -> (result: Result<
    Condition,
    ParseConditionError<'a>,
>)
    ensures
        condition_agrees(result, condition_rule(input@)),
{
    let start = match parse_whitespace(input) {
        Err(e) => { return Err(ParseConditionError::BaseParseError(e)); },
        Ok((rest, _)) => rest,
    };
    let (remaining, left) = match parse_value(start) {
        Err(e) => { return Err(ParseConditionError::BaseParseError(e)); },
        Ok((_, None)) => {
            if start.unicode_len() == 0 {
                return Err(ParseConditionError::SyntaxError(start, "Missing left-hand value"));
            }
            return Err(ParseConditionError::InvalidValue(start, "Invalid left-hand value"));
        },
        Ok((rest, Some(value))) => (rest, value),
    };
    if remaining.unicode_len() == 0 {
        return Err(
            ParseConditionError::SyntaxError(
                remaining,
                "Truncated expression: Expected operator and right-hand value after left-hand value",
            ),
        );
    }
    let remaining = match parse_whitespace(remaining) {
        Err(e) => { return Err(ParseConditionError::BaseParseError(e)); },
        Ok((rest, None)) => {
            return Err(
                ParseConditionError::InvalidValue(
                    rest,
                    "Unexpected data exists in left value suffix",
                ),
            );
        },
        Ok((rest, Some(_))) => rest,
    };
    if remaining.unicode_len() == 0 {
        return Err(
            ParseConditionError::SyntaxError(
                remaining,
                "Truncated expression: Expected operator and right-hand value after left-hand value",
            ),
        );
    }
    let (remaining, op) = match parse_operator(remaining) {
        Err(e) => { return Err(ParseConditionError::BaseParseError(e)); },
        Ok((rest, None)) => {
            return Err(ParseConditionError::InvalidOperator(rest, "Invalid Operator"));
        },
        Ok((rest, Some(op))) => (rest, op),
    };
    if remaining.unicode_len() == 0 {
        return Err(
            ParseConditionError::SyntaxError(
                remaining,
                "Truncated expression: Expected operator and right-hand value after left-hand value",
            ),
        );
    }
    let remaining = match parse_whitespace(remaining) {
        Err(e) => { return Err(ParseConditionError::BaseParseError(e)); },
        Ok((rest, None)) => {
            return Err(
                ParseConditionError::InvalidOperator(
                    rest,
                    "Unexpected data exists in operator suffix",
                ),
            );
        },
        Ok((rest, Some(_))) => rest,
    };
    if remaining.unicode_len() == 0 {
        return Err(
            ParseConditionError::SyntaxError(
                remaining,
                "Truncated expression: Expected operator and right-hand value after left-hand value",
            ),
        );
    }
    let (remaining, right) = match parse_value(remaining) {
        Err(e) => { return Err(ParseConditionError::BaseParseError(e)); },
        Ok((rest, None)) => {
            return Err(ParseConditionError::InvalidValue(rest, "Invalid right-hand value"));
        },
        Ok((rest, Some(value))) => (rest, value),
    };
    if remaining.unicode_len() == 0 {
        return Ok(Condition { left, op, right, chain: None });
    }
    let remaining = match parse_whitespace(remaining) {
        Err(e) => { return Err(ParseConditionError::BaseParseError(e)); },
        Ok((rest, None)) => {
            return Err(
                ParseConditionError::InvalidValue(
                    rest,
                    "Unexpected data exists in right value suffix",
                ),
            );
        },
        Ok((rest, Some(_))) => rest,
    };
    if remaining.unicode_len() == 0 {
        return Ok(Condition { left, op, right, chain: None });
    }
    let (remaining, chain) = match parse_chain(remaining) {
        Err(e) => { return Err(ParseConditionError::BaseParseError(e)); },
        Ok((rest, None)) => {
            return Err(ParseConditionError::InvalidChain(rest, "Invalid chain"));
        },
        Ok((rest, Some(chain))) => (rest, chain),
    };
    if remaining.unicode_len() == 0 {
        return Ok(Condition { left, op, right, chain: Some(chain) });
    }
    let remaining = match parse_whitespace(remaining) {
        Err(e) => { return Err(ParseConditionError::BaseParseError(e)); },
        Ok((rest, None)) => {
            return Err(
                ParseConditionError::InvalidChain(
                    rest,
                    "Unexpected data exists in right Chain suffix",
                ),
            );
        },
        Ok((rest, Some(_))) => rest,
    };
    if remaining.unicode_len() == 0 {
        return Ok(Condition { left, op, right, chain: Some(chain) });
    }
    Err(ParseConditionError::SyntaxError(remaining, "Data exists at the rear of Chain"))
}


/// The line that tells of a failure as `head`, the input that was left and the word on
/// what was expected.
pub open spec fn failure_line(head: Seq<char>, rest: Seq<char>, info: Seq<char>) -> Seq<char> {
    head + ": input: `"@ + rest + "`, error info: "@ + info
}

/// The line that tells why a text is no condition.
pub open spec fn condition_error_text(e: ParseConditionErrorView) -> Seq<char> {
    match e {
        ParseConditionErrorView::BaseParseError(b) => parse_error_text(b),
        ParseConditionErrorView::SyntaxError(rest, info) => failure_line(
            "Syntax Error"@,
            rest,
            info,
        ),
        ParseConditionErrorView::InvalidValue(rest, info) => failure_line(
            "Invalid Value"@,
            rest,
            info,
        ),
        ParseConditionErrorView::InvalidOperator(rest, info) => failure_line(
            "Invalid Operator"@,
            rest,
            info,
        ),
        ParseConditionErrorView::InvalidChain(rest, info) => failure_line(
            "Invalid Chain"@,
            rest,
            info,
        ),
    }
}

/// The line that tells of a failure as `head`, the input that was left and the word on
/// what was expected.
pub fn line_of(head: &str, rest: &str, info: &str) -> (text: String)
    ensures
        text@ == failure_line(head@, rest@, info@),
{
    let mut text: String = String::from_str(head);
    text.append(": input: `");
    text.append(rest);
    text.append("`, error info: ");
    text.append(info);
    text
}

impl<'a> ParseConditionError<'a> {
    /// The line that tells of the failure.
    pub fn message(&self) -> (text: String)
        ensures
            text@ == condition_error_text(self@),
    {
        match self {
            ParseConditionError::BaseParseError(e) => e.message(),
            ParseConditionError::SyntaxError(rest, info) => line_of("Syntax Error", rest, info),
            ParseConditionError::InvalidValue(rest, info) => line_of("Invalid Value", rest, info),
            ParseConditionError::InvalidOperator(rest, info) => line_of(
                "Invalid Operator",
                rest,
                info,
            ),
            ParseConditionError::InvalidChain(rest, info) => line_of("Invalid Chain", rest, info),
        }
    }
}

} // verus!
