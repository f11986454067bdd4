//! The rules of the expression language, each as a function on texts, and the
//! functions that read a text by them.

use super::parser_type::{
    lemma_access_view, paths_view, Access, AccessPath, AccessPathView, AccessView, Chain,
    FloatLiteral, FloatLiteralView, IndexValue, IndexValueView, LiteralValue, LiteralView,
    Operator, Value,
    ValueView,
};
use vstd::prelude::*;
use vstd::string::*;

verus! {

/// The text that is left to read.
pub type ParseInput<'a> = &'a str;

/// What a parser read: none where the text does not begin with what it reads.
pub type ParseResult<OutputType> = Option<OutputType>;

/// Why a piece of input could not be read. Each variant carries the input that was left
/// when the failure was found.
#[derive(Debug, PartialEq)]
pub enum ParseError<'a> {
    /// A run of digits denotes a number above `i32::MAX`; carries the input at the run.
    Str2Digits(ParseInput<'a>),
    /// A `.` is not followed by a key; carries the input after the `.`.
    AccessPathDotError(ParseInput<'a>),
    /// A bracket pair holds neither an integer nor an accessor; carries the input after
    /// the pair.
    InvalidDataInArray(ParseInput<'a>),
    /// A `[` has no matching `]`; carries the input at the `[`.
    UnmatchedClosingBracket(ParseInput<'a>),
}

/// Mathematical value of a `ParseError`.
pub enum ParseErrorView {
    Str2Digits(Seq<char>),
    AccessPathDotError(Seq<char>),
    InvalidDataInArray(Seq<char>),
    UnmatchedClosingBracket(Seq<char>),
}

impl<'a> View for ParseError<'a> {
    type V = ParseErrorView;

    open spec fn view(&self) -> ParseErrorView {
        match self {
            ParseError::Str2Digits(r) => ParseErrorView::Str2Digits(r@),
            ParseError::AccessPathDotError(r) => ParseErrorView::AccessPathDotError(r@),
            ParseError::InvalidDataInArray(r) => ParseErrorView::InvalidDataInArray(r@),
            ParseError::UnmatchedClosingBracket(r) => ParseErrorView::UnmatchedClosingBracket(r@),
        }
    }
}

/// What a grammar rule makes of an input: a value and the input after it, no match
/// (nothing consumed), or a failure that ends the whole parse.
pub enum Parsed<V> {
    Found { value: V, rest: Seq<char> },
    Absent,
    Failed(ParseErrorView),
}

/// The classes of characters that the grammar reads in runs.
#[derive(Debug, PartialEq, Eq, Clone, Copy)]
pub enum CharClass {
    /// Space, tab, line feed, carriage return.
    Space,
    /// `0` to `9`.
    Digit,
    /// ASCII letters, digits and `_`: what may follow the first letter of a key.
    KeyTail,
    /// Anything but `"`: the content of a string literal.
    NotQuote,
    /// Anything but a line feed: the content of a line.
    NotNewline,
}

/// An ASCII letter.
pub open spec fn is_alpha(c: char) -> bool {
    ('a' <= c && c <= 'z') || ('A' <= c && c <= 'Z')
}

/// An ASCII digit.
pub open spec fn is_digit(c: char) -> bool {
    '0' <= c && c <= '9'
}

/// Whether `c` is of `class`.
pub open spec fn class_holds(c: char, class: CharClass) -> bool {
    match class {
        CharClass::Space => c == ' ' || c == '\t' || c == '\n' || c == '\r',
        CharClass::Digit => is_digit(c),
        CharClass::KeyTail => is_alpha(c) || is_digit(c) || c == '_',
        CharClass::NotQuote => c != '"',
        CharClass::NotNewline => c != '\n',
    }
}

/// The end of the longest run of characters of `class` that starts at `i`.
pub open spec fn run_end(s: Seq<char>, i: int, class: CharClass) -> int
    decreases s.len() - i,
{
    if 0 <= i < s.len() && class_holds(s[i], class) {
        run_end(s, i + 1, class)
    } else {
        i
    }
}

/// `s` begins with `p`.
pub open spec fn has_prefix(s: Seq<char>, p: Seq<char>) -> bool {
    p.len() <= s.len() && s.subrange(0, p.len() as int) == p
}

/// `s` without its first `n` characters.
pub open spec fn after(s: Seq<char>, n: int) -> Seq<char> {
    s.subrange(n, s.len() as int)
}

/// The number that a sequence of decimal digits denotes.
pub open spec fn digits_value(s: Seq<char>) -> nat
    decreases s.len(),
{
    if s.len() == 0 {
        0
    } else {
        (10 * digits_value(s.drop_last()) + (s.last() as nat - '0' as nat)) as nat
    }
}

/// A run ends inside the text, holds characters of its class only, and stops at the first
/// character that is not of it.
pub proof fn lemma_run_end_bounds(s: Seq<char>, i: int, class: CharClass)
    requires
        0 <= i <= s.len(),
    ensures
        i <= run_end(s, i, class) <= s.len(),
        forall|j: int| i <= j < run_end(s, i, class) ==> class_holds(#[trigger] s[j], class),
        run_end(s, i, class) < s.len() ==> !class_holds(s[run_end(s, i, class)], class),
    decreases s.len() - i,
{
    if i < s.len() && class_holds(s[i], class) {
        lemma_run_end_bounds(s, i + 1, class);
    }
}

/// More digits never denote less.
pub proof fn lemma_digits_value_grows(s: Seq<char>, j: int, k: int)
    requires
        0 <= j <= k <= s.len(),
        forall|i: int| 0 <= i < k ==> is_digit(#[trigger] s[i]),
    ensures
        digits_value(s.subrange(0, j)) <= digits_value(s.subrange(0, k)),
    decreases k - j,
{
    if j < k {
        lemma_digits_value_grows(s, j, k - 1);
        assert(s.subrange(0, k).drop_last() =~= s.subrange(0, k - 1));
    }
}

/// Whether `c` is of `class`.
pub fn in_class(c: char, class: CharClass) -> (b: bool)
    ensures
        b == class_holds(c, class),
{
    match class {
        CharClass::Space => c == ' ' || c == '\t' || c == '\n' || c == '\r',
        CharClass::Digit => '0' <= c && c <= '9',
        CharClass::KeyTail => ('a' <= c && c <= 'z') || ('A' <= c && c <= 'Z') || ('0' <= c && c
            <= '9') || c == '_',
        CharClass::NotQuote => c != '"',
        CharClass::NotNewline => c != '\n',
    }
}

/// Length of the longest prefix of `input` made of characters of `class`.
pub fn scan(input: &str, class: CharClass) -> (n: usize)
    ensures
        n == run_end(input@, 0, class),
        n <= input@.len(),
{
    scan_from(input, 0, class)
}

/// `input` from its character `n` on.
pub fn tail<'a>(input: &'a str, n: usize) -> (rest: &'a str)
    requires
        n <= input@.len(),
    ensures
        rest@ == after(input@, n as int),
{
    let len: usize = input.unicode_len();
    input.substring_char(n, len)
}

/// Whether `input` begins with `tag`.
pub fn starts_with(input: &str, tag: &str) -> (b: bool)
    ensures
        b == has_prefix(input@, tag@),
{
    let n: usize = tag.unicode_len();
    let len: usize = input.unicode_len();
    if len < n {
        return false;
    }
    let mut i: usize = 0;
    while i < n
        invariant
            n == tag@.len(),
            len == input@.len(),
            n <= len,
            0 <= i <= n,
            forall|j: int| 0 <= j < i ==> input@[j] == tag@[j],
        decreases n - i,
    {
        if input.get_char(i) != tag.get_char(i) {
            proof {
                assert(input@.subrange(0, n as int)[i as int] == input@[i as int]);
            }
            return false;
        }
        i = i + 1;
    }
    proof {
        assert(input@.subrange(0, n as int) =~= tag@);
    }
    true
}


/// Takes `tag` off the front of `input`, if it is there.
pub fn take_tag<'a>(input: &'a str, tag: &str) -> (rest: Option<&'a str>)
    ensures
        match rest {
            Some(r) => has_prefix(input@, tag@) && r@ == after(input@, tag@.len() as int),
            None => !has_prefix(input@, tag@),
        },
{
    if starts_with(input, tag) {
        let n: usize = tag.unicode_len();
        Some(tail(input, n))
    } else {
        None
    }
}

/// Whether an exec parse result says what a grammar rule says of the input `s`.
pub open spec fn agrees<'a, T: View>(
    result: Result<(&'a str, Option<T>), ParseError<'a>>,
    s: Seq<char>,
    rule: Parsed<T::V>,
) -> bool {
    match rule {
        Parsed::Found { value, rest } => match result {
            Ok((r, Some(v))) => r@ == rest && v@ == value,
            _ => false,
        },
        Parsed::Absent => match result {
            Ok((r, None)) => r@ == s,
            _ => false,
        },
        Parsed::Failed(e) => match result {
            Err(err) => err@ == e,
            _ => false,
        },
    }
}

/// The input that a rule leaves: what follows the value, or all of `s` where it found none.
pub open spec fn rest_of<V>(p: Parsed<V>, s: Seq<char>) -> Seq<char> {
    match p {
        Parsed::Found { value, rest } => rest,
        _ => s,
    }
}

/// `WS`: the longest run of blanks, absent where there is none.
pub open spec fn whitespace_rule(s: Seq<char>) -> Parsed<Seq<char>> {
    let n = run_end(s, 0, CharClass::Space);
    if n == 0 {
        Parsed::Absent
    } else {
        Parsed::Found { value: s.subrange(0, n), rest: after(s, n) }
    }
}

/// `digit+`, read as a number that must fit an `i32`; the number is never negative.
pub open spec fn digit_rule(s: Seq<char>) -> Parsed<i32> {
    let n = run_end(s, 0, CharClass::Digit);
    if n == 0 {
        Parsed::Absent
    } else if digits_value(s.subrange(0, n)) > i32::MAX {
        Parsed::Failed(ParseErrorView::Str2Digits(s))
    } else {
        Parsed::Found { value: digits_value(s.subrange(0, n)) as i32, rest: after(s, n) }
    }
}

/// `sign`: a leading `-` or `+`.
pub open spec fn sign_rule(s: Seq<char>) -> Parsed<char> {
    if s.len() > 0 && (s[0] == '-' || s[0] == '+') {
        Parsed::Found { value: s[0], rest: after(s, 1) }
    } else {
        Parsed::Absent
    }
}

/// `int := [sign] digit+`.
pub open spec fn int_rule(s: Seq<char>) -> Parsed<i32> {
    match digit_rule(rest_of(sign_rule(s), s)) {
        Parsed::Found { value, rest } => Parsed::Found {
            value: if s[0] == '-' {
                (-value) as i32
            } else {
                value
            },
            rest,
        },
        Parsed::Absent => Parsed::Absent,
        Parsed::Failed(e) => Parsed::Failed(e),
    }
}

/// A single `.`.
pub open spec fn dot_rule(s: Seq<char>) -> Parsed<char> {
    if s.len() > 0 && s[0] == '.' {
        Parsed::Found { value: '.', rest: after(s, 1) }
    } else {
        Parsed::Absent
    }
}

/// `float := [sign] digit+ "." digit+`, kept as it is written: the sign, the number
/// before the point, the number after it and the count of the digits after it.
pub open spec fn float_rule(s: Seq<char>) -> Parsed<FloatLiteralView> {
    match digit_rule(rest_of(sign_rule(s), s)) {
        Parsed::Found { value: int_part, rest: after_int } => match dot_rule(after_int) {
            Parsed::Found { value: _, rest: after_dot } => match digit_rule(after_dot) {
                Parsed::Found { value: frac_part, rest } => Parsed::Found {
                    value: FloatLiteralView {
                        negative: s[0] == '-',
                        int_part: int_part as nat,
                        frac_part: frac_part as nat,
                        frac_digits: run_end(after_dot, 0, CharClass::Digit) as nat,
                    },
                    rest,
                },
                Parsed::Absent => Parsed::Absent,
                Parsed::Failed(e) => Parsed::Failed(e),
            },
            _ => Parsed::Absent,
        },
        Parsed::Absent => Parsed::Absent,
        Parsed::Failed(e) => Parsed::Failed(e),
    }
}

/// `string := '"' (not '"')* '"'`; the value is what stands between the quotes.
pub open spec fn string_rule(s: Seq<char>) -> Parsed<Seq<char>> {
    let n = run_end(s, 1, CharClass::NotQuote);
    if s.len() > 0 && s[0] == '"' && n < s.len() {
        Parsed::Found { value: s.subrange(1, n), rest: after(s, n + 1) }
    } else {
        Parsed::Absent
    }
}

/// `bool := "true" | "false"`.
pub open spec fn bool_rule(s: Seq<char>) -> Parsed<bool> {
    if has_prefix(s, "true"@) {
        Parsed::Found { value: true, rest: after(s, "true"@.len() as int) }
    } else if has_prefix(s, "false"@) {
        Parsed::Found { value: false, rest: after(s, "false"@.len() as int) }
    } else {
        Parsed::Absent
    }
}

/// `"null"`.
pub open spec fn null_rule(s: Seq<char>) -> Parsed<LiteralView> {
    if has_prefix(s, "null"@) {
        Parsed::Found { value: LiteralView::Null, rest: after(s, "null"@.len() as int) }
    } else {
        Parsed::Absent
    }
}

/// `literal := float | int | string | bool | "null"`, tried in this order.
pub open spec fn literal_rule(s: Seq<char>) -> Parsed<LiteralView> {
    match float_rule(s) {
        Parsed::Found { value, rest } => Parsed::Found { value: LiteralView::Float(value), rest },
        Parsed::Failed(e) => Parsed::Failed(e),
        Parsed::Absent => match int_rule(s) {
            Parsed::Found { value, rest } => Parsed::Found { value: LiteralView::Int(value), rest },
            Parsed::Failed(e) => Parsed::Failed(e),
            Parsed::Absent => match string_rule(s) {
                Parsed::Found { value, rest } => Parsed::Found {
                    value: LiteralView::String(value),
                    rest,
                },
                Parsed::Failed(e) => Parsed::Failed(e),
                Parsed::Absent => match bool_rule(s) {
                    Parsed::Found { value, rest } => Parsed::Found {
                        value: LiteralView::Bool(value),
                        rest,
                    },
                    Parsed::Failed(e) => Parsed::Failed(e),
                    Parsed::Absent => null_rule(s),
                },
            },
        },
    }
}

/// `operator := "==" | "!=" | "<=" | ">=" | "<" | ">" | "in"`, tried in this order.
pub open spec fn operator_rule(s: Seq<char>) -> Parsed<Operator> {
    if has_prefix(s, "=="@) {
        Parsed::Found { value: Operator::Equal, rest: after(s, "=="@.len() as int) }
    } else if has_prefix(s, "!="@) {
        Parsed::Found { value: Operator::NotEqual, rest: after(s, "!="@.len() as int) }
    } else if has_prefix(s, "<="@) {
        Parsed::Found { value: Operator::LessThanEqual, rest: after(s, "<="@.len() as int) }
    } else if has_prefix(s, ">="@) {
        Parsed::Found { value: Operator::GreaterThanEqual, rest: after(s, ">="@.len() as int) }
    } else if has_prefix(s, "<"@) {
        Parsed::Found { value: Operator::LessThan, rest: after(s, "<"@.len() as int) }
    } else if has_prefix(s, ">"@) {
        Parsed::Found { value: Operator::GreaterThan, rest: after(s, ">"@.len() as int) }
    } else if has_prefix(s, "in"@) {
        Parsed::Found { value: Operator::In, rest: after(s, "in"@.len() as int) }
    } else {
        Parsed::Absent
    }
}

/// `chain := "and" | "or"`.
pub open spec fn chain_rule(s: Seq<char>) -> Parsed<Chain> {
    if has_prefix(s, "and"@) {
        Parsed::Found { value: Chain::And, rest: after(s, "and"@.len() as int) }
    } else if has_prefix(s, "or"@) {
        Parsed::Found { value: Chain::Or, rest: after(s, "or"@.len() as int) }
    } else {
        Parsed::Absent
    }
}

/// `accessKey := alpha (alphanum | "_")*`.
pub open spec fn key_rule(s: Seq<char>) -> Parsed<Seq<char>> {
    let n = run_end(s, 1, CharClass::KeyTail);
    if s.len() > 0 && is_alpha(s[0]) {
        Parsed::Found { value: s.subrange(0, n), rest: after(s, n) }
    } else {
        Parsed::Absent
    }
}

/// Ten to the number of decimal digits of `n`.
pub open spec fn scale_of(n: nat) -> nat
    decreases n,
{
    if n == 0 {
        1
    } else {
        10 * scale_of(n / 10)
    }
}

/// The scale of a number of at most ten digits is at most ten to the tenth.
pub proof fn lemma_scale_of_bound(n: nat)
    requires
        n <= 0x8000_0000,
    ensures
        scale_of(n) <= 10_000_000_000,
{
    reveal_with_fuel(scale_of, 12);
}

/// Reads the blanks at the front of `input`.
pub fn parse_whitespace<'a>(input: ParseInput<'a>) -> (result: Result<
    (ParseInput<'a>, ParseResult<&'a str>),
    ParseError<'a>,
>)
    ensures
        agrees(result, input@, whitespace_rule(input@)),
{
    let n: usize = scan(input, CharClass::Space);
    if n == 0 {
        return Ok((input, None));
    }
    Ok((tail(input, n), Some(input.substring_char(0, n))))
}

/// Reads a run of digits as a number; a number above `i32::MAX` is an error.
pub fn parse_digit<'a>(input: ParseInput<'a>) -> (result: Result<
    (ParseInput<'a>, ParseResult<i32>),
    ParseError<'a>,
>)
    ensures
        agrees(result, input@, digit_rule(input@)),
{
    let n: usize = scan(input, CharClass::Digit);
    if n == 0 {
        return Ok((input, None));
    }
    proof {
        lemma_run_end_bounds(input@, 0, CharClass::Digit);
    }
    let mut value: i64 = 0;
    let mut i: usize = 0;
    while i < n
        invariant
            0 <= i <= n <= input@.len(),
            n == run_end(input@, 0, CharClass::Digit),
            forall|j: int| 0 <= j < n ==> is_digit(#[trigger] input@[j]),
            value == digits_value(input@.subrange(0, i as int)),
            value <= i32::MAX,
        decreases n - i,
    {
        let c: char = input.get_char(i);
        let d: i64 = (c as u32 - '0' as u32) as i64;
        proof {
            assert(input@.subrange(0, i + 1).drop_last() =~= input@.subrange(0, i as int));
            assert(is_digit(input@[i as int]));
        }
        value = value * 10 + d;
        if value > 0x7fff_ffff {
            proof {
                lemma_digits_value_grows(input@, i + 1, n as int);
            }
            return Err(ParseError::Str2Digits(input));
        }
        i = i + 1;
    }
    Ok((tail(input, n), Some(value as i32)))
}

/// Reads a `-` or a `+`.
pub fn parse_sign<'a>(input: ParseInput<'a>) -> (result: Result<
    (ParseInput<'a>, ParseResult<char>),
    ParseError<'a>,
>)
    ensures
        agrees(result, input@, sign_rule(input@)),
{
    if input.unicode_len() > 0 {
        let c: char = input.get_char(0);
        if c == '-' || c == '+' {
            return Ok((tail(input, 1), Some(c)));
        }
    }
    Ok((input, None))
}

/// Reads an integer: an optional sign and digits.
pub fn parse_int<'a>(input: ParseInput<'a>) -> (result: Result<
    (ParseInput<'a>, ParseResult<i32>),
    ParseError<'a>,
>)
    ensures
        agrees(result, input@, int_rule(input@)),
{
    let (after_sign, sign) = match parse_sign(input) {
        Ok(found) => found,
        Err(e) => { return Err(e); },
    };
    match parse_digit(after_sign) {
        Err(e) => Err(e),
        Ok((_, None)) => Ok((input, None)),
        Ok((rest, Some(digits))) => {
            let value: i32 = match sign {
                Some('-') => -digits,
                _ => digits,
            };
            Ok((rest, Some(value)))
        },
    }
}

/// Reads a `.`.
pub fn parse_dot<'a>(input: ParseInput<'a>) -> (result: Result<
    (ParseInput<'a>, ParseResult<char>),
    ParseError<'a>,
>)
    ensures
        agrees(result, input@, dot_rule(input@)),
{
    if input.unicode_len() > 0 {
        if input.get_char(0) == '.' {
            return Ok((tail(input, 1), Some('.')));
        }
    }
    Ok((input, None))
}

/// Reads the word `null`.
pub fn parse_null<'a>(input: ParseInput<'a>) -> (result: Result<
    (ParseInput<'a>, ParseResult<LiteralValue>),
    ParseError<'a>,
>)
    ensures
        agrees(result, input@, null_rule(input@)),
{
    match take_tag(input, "null") {
        Some(rest) => Ok((rest, Some(LiteralValue::Null))),
        None => Ok((input, None)),
    }
}

/// Reads the word `true` or the word `false`.
pub fn parse_bool<'a>(input: ParseInput<'a>) -> (result: Result<
    (ParseInput<'a>, ParseResult<bool>),
    ParseError<'a>,
>)
    ensures
        agrees(result, input@, bool_rule(input@)),
{
    if let Some(rest) = take_tag(input, "true") {
        return Ok((rest, Some(true)));
    }
    if let Some(rest) = take_tag(input, "false") {
        return Ok((rest, Some(false)));
    }
    Ok((input, None))
}

/// Length of the longest run of characters of `class` in `input` from `start` on,
/// given as the position where it ends.
pub fn scan_from(input: &str, start: usize, class: CharClass) -> (n: usize)
    requires
        start <= input@.len(),
    ensures
        n == run_end(input@, start as int, class),
        start <= n <= input@.len(),
{
    let len: usize = input.unicode_len();
    let mut i: usize = start;
    while i < len && in_class(input.get_char(i), class)
        invariant
            len == input@.len(),
            start <= i <= len,
            run_end(input@, start as int, class) == run_end(input@, i as int, class),
        decreases len - i,
    {
        i = i + 1;
    }
    proof {
        lemma_run_end_bounds(input@, i as int, class);
    }
    i
}

/// Reads a string between quotes.
pub fn parse_string<'a>(input: ParseInput<'a>) -> (result: Result<
    (ParseInput<'a>, ParseResult<String>),
    ParseError<'a>,
>)
    ensures
        agrees(result, input@, string_rule(input@)),
{
    let len: usize = input.unicode_len();
    if len == 0 {
        return Ok((input, None));
    }
    if input.get_char(0) != '"' {
        return Ok((input, None));
    }
    let n: usize = scan_from(input, 1, CharClass::NotQuote);
    if n >= len {
        return Ok((input, None));
    }
    let content: &str = input.substring_char(1, n);
    Ok((tail(input, n + 1), Some(content.to_owned())))
}

/// Reads a number with a fraction: an optional sign, digits, a point and digits.
pub fn parse_float<'a>(input: ParseInput<'a>) -> (result: Result<
    (ParseInput<'a>, ParseResult<FloatLiteral>),
    ParseError<'a>,
>)
    ensures
        agrees(result, input@, float_rule(input@)),
{
    let (after_sign, sign) = match parse_sign(input) {
        Ok(found) => found,
        Err(e) => { return Err(e); },
    };
    let (after_int, int_part) = match parse_digit(after_sign) {
        Err(e) => { return Err(e); },
        Ok((_, None)) => { return Ok((input, None)); },
        Ok((rest, Some(v))) => (rest, v),
    };
    let after_dot = match parse_dot(after_int) {
        Err(e) => { return Err(e); },
        Ok((_, None)) => { return Ok((input, None)); },
        Ok((rest, Some(_))) => rest,
    };
    let frac_digits: usize = scan(after_dot, CharClass::Digit);
    match parse_digit(after_dot) {
        Err(e) => Err(e),
        Ok((_, None)) => Ok((input, None)),
        Ok((rest, Some(frac_part))) => {
            let negative: bool = match sign {
                Some('-') => true,
                _ => false,
            };
            Ok(
                (
                    rest,
                    Some(
                        FloatLiteral {
                            negative,
                            int_part: int_part as u32,
                            frac_part: frac_part as u32,
                            frac_digits,
                        },
                    ),
                ),
            )
        },
    }
}

/// Ten to the number of decimal digits of `digits`, and 1 for 0.
pub fn power_of_ten_based_on(digits: i32) -> (pow: u64)
    ensures
        pow == scale_of(vstd::math::abs(digits as int) as nat),
{
    let mut left: i64 = digits as i64;
    if left < 0 {
        left = -left;
    }
    let ghost start: nat = left as nat;
    let mut pow: u64 = 1;
    proof {
        assert(start == vstd::math::abs(digits as int));
        assert(1 * scale_of(start) == scale_of(start));
        lemma_scale_of_bound(start);
    }
    while left > 0
        invariant
            0 <= left <= start <= 0x8000_0000,
            pow * scale_of(left as nat) == scale_of(start),
            scale_of(start) <= 10_000_000_000,
            pow >= 1,
        decreases left,
    {
        proof {
            assert(scale_of(left as nat) == 10 * scale_of((left / 10) as nat));
            assert(pow * (10 * scale_of((left / 10) as nat)) == (pow * 10) * scale_of(
                (left / 10) as nat,
            )) by (nonlinear_arith);
            assert(scale_of((left / 10) as nat) >= 1) by {
                lemma_scale_of_positive((left / 10) as nat);
            }
            assert(pow * 10 <= (pow * 10) * scale_of((left / 10) as nat)) by (nonlinear_arith)
                requires
                    scale_of((left / 10) as nat) >= 1,
                    pow >= 1,
            ;
        }
        pow = pow * 10;
        left = left / 10;
    }
    proof {
        assert(scale_of(0) == 1);
        assert(pow * 1 == pow);
    }
    pow
}

/// A scale is at least one.
pub proof fn lemma_scale_of_positive(n: nat)
    ensures
        scale_of(n) >= 1,
    decreases n,
{
    if n != 0 {
        lemma_scale_of_positive(n / 10);
    }
}

/// Reads a literal: a float, an integer, a string, a truth value or `null`, tried in this
/// order.
pub fn parse_literal_value<'a>(input: ParseInput<'a>) -> (result: Result<
    (ParseInput<'a>, ParseResult<LiteralValue>),
    ParseError<'a>,
>)
    ensures
        agrees(result, input@, literal_rule(input@)),
{
    match parse_float(input) {
        Err(e) => { return Err(e); },
        Ok((rest, Some(v))) => { return Ok((rest, Some(LiteralValue::Float(v)))); },
        Ok((_, None)) => {},
    }
    match parse_int(input) {
        Err(e) => { return Err(e); },
        Ok((rest, Some(v))) => { return Ok((rest, Some(LiteralValue::Int(v)))); },
        Ok((_, None)) => {},
    }
    match parse_string(input) {
        Err(e) => { return Err(e); },
        Ok((rest, Some(v))) => { return Ok((rest, Some(LiteralValue::String(v)))); },
        Ok((_, None)) => {},
    }
    match parse_bool(input) {
        Err(e) => { return Err(e); },
        Ok((rest, Some(v))) => { return Ok((rest, Some(LiteralValue::Bool(v)))); },
        Ok((_, None)) => {},
    }
    parse_null(input)
}

/// Reads an operator.
pub fn parse_operator<'a>(input: ParseInput<'a>) -> (result: Result<
    (ParseInput<'a>, ParseResult<Operator>),
    ParseError<'a>,
>)
    ensures
        agrees(result, input@, operator_rule(input@)),
{
    if let Some(rest) = take_tag(input, "==") {
        return Ok((rest, Some(Operator::Equal)));
    }
    if let Some(rest) = take_tag(input, "!=") {
        return Ok((rest, Some(Operator::NotEqual)));
    }
    if let Some(rest) = take_tag(input, "<=") {
        return Ok((rest, Some(Operator::LessThanEqual)));
    }
    if let Some(rest) = take_tag(input, ">=") {
        return Ok((rest, Some(Operator::GreaterThanEqual)));
    }
    if let Some(rest) = take_tag(input, "<") {
        return Ok((rest, Some(Operator::LessThan)));
    }
    if let Some(rest) = take_tag(input, ">") {
        return Ok((rest, Some(Operator::GreaterThan)));
    }
    if let Some(rest) = take_tag(input, "in") {
        return Ok((rest, Some(Operator::In)));
    }
    Ok((input, None))
}

/// Reads the word `and` or the word `or`.
pub fn parse_chain<'a>(input: ParseInput<'a>) -> (result: Result<
    (ParseInput<'a>, ParseResult<Chain>),
    ParseError<'a>,
>)
    ensures
        agrees(result, input@, chain_rule(input@)),
{
    if let Some(rest) = take_tag(input, "and") {
        return Ok((rest, Some(Chain::And)));
    }
    if let Some(rest) = take_tag(input, "or") {
        return Ok((rest, Some(Chain::Or)));
    }
    Ok((input, None))
}

/// Reads a key: a letter, then letters, digits and `_`.
pub fn parse_access_key<'a>(input: ParseInput<'a>) -> (result: Result<
    (ParseInput<'a>, ParseResult<String>),
    ParseError<'a>,
>)
    ensures
        agrees(result, input@, key_rule(input@)),
{
    if input.unicode_len() == 0 {
        return Ok((input, None));
    }
    let c: char = input.get_char(0);
    if !(('a' <= c && c <= 'z') || ('A' <= c && c <= 'Z')) {
        return Ok((input, None));
    }
    let n: usize = scan_from(input, 1, CharClass::KeyTail);
    let key: &str = input.substring_char(0, n);
    Ok((tail(input, n), Some(key.to_owned())))
}


/// Position of the `]` that closes the bracket group under way: scanning goes on from `i`
/// with `depth` brackets open.
pub open spec fn bracket_close(s: Seq<char>, i: int, depth: nat) -> Option<int>
    decreases s.len() - i,
{
    if i < 0 || i >= s.len() {
        None
    } else if s[i] == '[' {
        bracket_close(s, i + 1, depth + 1)
    } else if s[i] == ']' {
        if depth <= 1 {
            Some(i)
        } else {
            bracket_close(s, i + 1, (depth - 1) as nat)
        }
    } else {
        bracket_close(s, i + 1, depth)
    }
}

/// A balanced bracket group at the front of `s`; the value is what stands between the
/// outer brackets.
pub open spec fn bracket_rule(s: Seq<char>) -> Parsed<Seq<char>> {
    if s.len() > 0 && s[0] == '[' {
        match bracket_close(s, 1, 1) {
            Some(end) => Parsed::Found { value: s.subrange(1, end), rest: after(s, end + 1) },
            None => Parsed::Failed(ParseErrorView::UnmatchedClosingBracket(s)),
        }
    } else {
        Parsed::Absent
    }
}

/// A closing bracket that is found lies inside the text, at or after the place where the
/// search began.
pub proof fn lemma_bracket_close_bounds(s: Seq<char>, i: int, depth: nat)
    requires
        0 <= i,
    ensures
        bracket_close(s, i, depth) is Some ==> i <= bracket_close(s, i, depth)->0 < s.len(),
    decreases s.len() - i,
{
    if i < s.len() {
        if s[i] == '[' {
            lemma_bracket_close_bounds(s, i + 1, depth + 1);
        } else if s[i] == ']' {
            if depth > 1 {
                lemma_bracket_close_bounds(s, i + 1, (depth - 1) as nat);
            }
        } else {
            lemma_bracket_close_bounds(s, i + 1, depth);
        }
    }
}

/// What a bracket group holds, and what follows it, are shorter than the input.
pub proof fn lemma_bracket_rule_consumes(s: Seq<char>)
    ensures
        bracket_rule(s) is Found ==> bracket_rule(s)->value.len() + 2 + bracket_rule(s)->rest.len()
            == s.len(),
{
    lemma_bracket_close_bounds(s, 1, 1);
}

/// What follows a key is shorter than the input.
pub proof fn lemma_key_rule_consumes(s: Seq<char>)
    ensures
        key_rule(s) is Found ==> key_rule(s)->rest.len() < s.len(),
{
    if s.len() > 0 {
        lemma_run_end_bounds(s, 1, CharClass::KeyTail);
    }
}

/// The words that are literals and so no accessor inside brackets.
pub open spec fn is_keyword(s: Seq<char>) -> bool {
    s == "true"@ || s == "false"@ || s == "null"@
}

/// Puts `prefix` before the path that `p` found.
pub open spec fn with_prefix(prefix: Seq<AccessPathView>, p: Parsed<Seq<AccessPathView>>) -> Parsed<
    Seq<AccessPathView>,
> {
    match p {
        Parsed::Found { value, rest } => Parsed::Found { value: prefix + value, rest },
        Parsed::Absent => Parsed::Absent,
        Parsed::Failed(e) => Parsed::Failed(e),
    }
}

/// What stands between brackets: all of `c` is an `int`, or all of it is an accessor that
/// is not one of the literal words. Absent where it is neither.
pub open spec fn index_value_rule(c: Seq<char>) -> Parsed<IndexValueView>
    decreases c.len(), 1nat,
{
    match int_rule(c) {
        Parsed::Failed(e) => Parsed::Failed(e),
        Parsed::Found { value, rest } if rest.len() == 0 => Parsed::Found {
            value: IndexValueView::Int(value),
            rest,
        },
        _ => if is_keyword(c) {
            Parsed::Absent
        } else {
            match access_rule(c) {
                Parsed::Failed(e) => Parsed::Failed(e),
                Parsed::Found { value, rest } if rest.len() == 0 => Parsed::Found {
                    value: IndexValueView::Access(value),
                    rest,
                },
                _ => Parsed::Absent,
            }
        },
    }
}

/// `( index | "." accessKey )*`: the path of an accessor.
pub open spec fn path_rule(s: Seq<char>) -> Parsed<Seq<AccessPathView>>
    decreases s.len(), 0nat,
{
    match bracket_rule(s) {
        Parsed::Failed(e) => Parsed::Failed(e),
        Parsed::Found { value: content, rest } => {
            proof {
                lemma_bracket_rule_consumes(s);
            }
            match index_value_rule(content) {
                Parsed::Failed(e) => Parsed::Failed(e),
                Parsed::Absent => Parsed::Failed(ParseErrorView::InvalidDataInArray(rest)),
                Parsed::Found { value, rest: _ } => with_prefix(
                    seq![AccessPathView::Index(value)],
                    path_rule(rest),
                ),
            }
        },
        Parsed::Absent => match dot_rule(s) {
            Parsed::Found { value: _, rest: after_dot } => match key_rule(after_dot) {
                Parsed::Found { value: key, rest } => {
                    proof {
                        lemma_key_rule_consumes(after_dot);
                    }
                    with_prefix(seq![AccessPathView::Key(key)], path_rule(rest))
                },
                _ => Parsed::Failed(ParseErrorView::AccessPathDotError(after_dot)),
            },
            _ => Parsed::Found { value: Seq::empty(), rest: s },
        },
    }
}

/// `accessor := accessKey ( index | "." accessKey )*`.
pub open spec fn access_rule(s: Seq<char>) -> Parsed<AccessView>
    decreases s.len(), 0nat,
{
    match key_rule(s) {
        Parsed::Found { value: base, rest: after_key } => {
            proof {
                lemma_key_rule_consumes(s);
            }
            match path_rule(after_key) {
                Parsed::Found { value: path, rest } => Parsed::Found {
                    value: AccessView {
                        base,
                        path: if path.len() == 0 {
                            None
                        } else {
                            Some(path)
                        },
                    },
                    rest,
                },
                Parsed::Failed(e) => Parsed::Failed(e),
                Parsed::Absent => Parsed::Absent,
            }
        },
        _ => Parsed::Absent,
    }
}

/// `index := "[" (int | accessor) "]"`.
pub open spec fn index_rule(s: Seq<char>) -> Parsed<AccessPathView> {
    match bracket_rule(s) {
        Parsed::Failed(e) => Parsed::Failed(e),
        Parsed::Absent => Parsed::Absent,
        Parsed::Found { value: content, rest } => match index_value_rule(content) {
            Parsed::Failed(e) => Parsed::Failed(e),
            Parsed::Absent => Parsed::Failed(ParseErrorView::InvalidDataInArray(rest)),
            Parsed::Found { value, rest: _ } => Parsed::Found {
                value: AccessPathView::Index(value),
                rest,
            },
        },
    }
}

/// One step of a path: `index | "." accessKey`.
pub open spec fn step_rule(s: Seq<char>) -> Parsed<AccessPathView> {
    match index_rule(s) {
        Parsed::Found { value, rest } => Parsed::Found { value, rest },
        Parsed::Failed(e) => Parsed::Failed(e),
        Parsed::Absent => match dot_rule(s) {
            Parsed::Found { value: _, rest: after_dot } => match key_rule(after_dot) {
                Parsed::Found { value: key, rest } => Parsed::Found {
                    value: AccessPathView::Key(key),
                    rest,
                },
                _ => Parsed::Failed(ParseErrorView::AccessPathDotError(after_dot)),
            },
            _ => Parsed::Absent,
        },
    }
}

/// `value := literal | accessor`, the literal tried first.
pub open spec fn value_rule(s: Seq<char>) -> Parsed<ValueView> {
    match literal_rule(s) {
        Parsed::Found { value, rest } => Parsed::Found { value: ValueView::Literal(value), rest },
        Parsed::Failed(e) => Parsed::Failed(e),
        Parsed::Absent => match access_rule(s) {
            Parsed::Found { value, rest } => Parsed::Found {
                value: ValueView::Access(value),
                rest,
            },
            Parsed::Failed(e) => Parsed::Failed(e),
            Parsed::Absent => Parsed::Absent,
        },
    }
}

/// Whether two texts are the same.
pub fn same_text(a: &str, b: &str) -> (same: bool)
    ensures
        same == (a@ == b@),
{
    if a.unicode_len() != b.unicode_len() {
        return false;
    }
    let same: bool = starts_with(a, b);
    proof {
        assert(a@.subrange(0, b@.len() as int) =~= a@);
    }
    same
}

/// The bracket group at the front of `input`: what follows it, and what is inside.
pub fn parse_bracket<'a>(input: ParseInput<'a>) -> (result: Result<
    (ParseInput<'a>, ParseResult<&'a str>),
    ParseError<'a>,
>)
    ensures
        agrees(result, input@, bracket_rule(input@)),
{
    let len: usize = input.unicode_len();
    if len == 0 {
        return Ok((input, None));
    }
    if input.get_char(0) != '[' {
        return Ok((input, None));
    }
    let mut depth: usize = 1;
    let mut i: usize = 1;
    while i < len
        invariant
            len == input@.len(),
            input@[0] == '[',
            1 <= i <= len,
            1 <= depth <= i,
            bracket_close(input@, 1, 1) == bracket_close(input@, i as int, depth as nat),
        decreases len - i,
    {
        let c: char = input.get_char(i);
        if c == '[' {
            depth = depth + 1;
        } else if c == ']' {
            if depth == 1 {
                proof {
                    assert(bracket_close(input@, i as int, depth as nat) == Some(i as int));
                }
                return Ok((tail(input, i + 1), Some(input.substring_char(1, i))));
            }
            depth = depth - 1;
        }
        i = i + 1;
    }
    Err(ParseError::UnmatchedClosingBracket(input))
}

/// Reads an index: a bracket pair that holds an integer or an accessor and nothing else.
pub fn parse_access_index<'a>(input: ParseInput<'a>) -> (result: Result<
    (ParseInput<'a>, ParseResult<AccessPath>),
    ParseError<'a>,
>)
    ensures
        agrees(result, input@, index_rule(input@)),
    decreases input@.len(), 0nat,
{
    let (rest, content) = match parse_bracket(input) {
        Err(e) => { return Err(e); },
        Ok((_, None)) => { return Ok((input, None)); },
        Ok((rest, Some(content))) => (rest, content),
    };
    proof {
        lemma_bracket_rule_consumes(input@);
    }
    match parse_int(content) {
        Err(e) => { return Err(e); },
        Ok((left, Some(v))) => {
            if left.unicode_len() == 0 {
                proof {
                    assert(left@ =~= Seq::<char>::empty());
                }
                return Ok((rest, Some(AccessPath::Index(IndexValue::Int(v)))));
            }
        },
        Ok((_, None)) => {},
    }
    if same_text(content, "true") || same_text(content, "false") || same_text(content, "null") {
        return Err(ParseError::InvalidDataInArray(rest));
    }
    match parse_access(content) {
        Err(e) => Err(e),
        Ok((left, Some(a))) => {
            if left.unicode_len() == 0 {
                Ok((rest, Some(AccessPath::Index(IndexValue::Access(a)))))
            } else {
                Err(ParseError::InvalidDataInArray(rest))
            }
        },
        Ok((_, None)) => Err(ParseError::InvalidDataInArray(rest)),
    }
}

/// Reads one step of a path: an index, or a `.` and a key.
pub fn parse_access_path<'a>(input: ParseInput<'a>) -> (result: Result<
    (ParseInput<'a>, ParseResult<AccessPath>),
    ParseError<'a>,
>)
    ensures
        agrees(result, input@, step_rule(input@)),
    decreases input@.len(), 1nat,
{
    match parse_access_index(input) {
        Err(e) => { return Err(e); },
        Ok((rest, Some(step))) => { return Ok((rest, Some(step))); },
        Ok((_, None)) => {},
    }
    let after_dot = match parse_dot(input) {
        Err(e) => { return Err(e); },
        Ok((_, None)) => { return Ok((input, None)); },
        Ok((rest, Some(_))) => rest,
    };
    match parse_access_key(after_dot) {
        Err(e) => Err(e),
        Ok((_, None)) => Err(ParseError::AccessPathDotError(after_dot)),
        Ok((rest, Some(key))) => Ok((rest, Some(AccessPath::Key(key)))),
    }
}

/// Reads an accessor: a key and the steps of its path.
pub fn parse_access<'a>(input: ParseInput<'a>) -> (result: Result<
    (ParseInput<'a>, ParseResult<Access>),
    ParseError<'a>,
>)
    ensures
        agrees(result, input@, access_rule(input@)),
    decreases input@.len(), 2nat,
{
    let (after_key, base) = match parse_access_key(input) {
        Err(e) => { return Err(e); },
        Ok((_, None)) => { return Ok((input, None)); },
        Ok((rest, Some(key))) => (rest, key),
    };
    proof {
        lemma_key_rule_consumes(input@);
    }
    let mut path: Vec<AccessPath> = Vec::new();
    let mut current: &'a str = after_key;
    let mut more: bool = true;
    proof {
        assert(with_prefix(paths_view(path@), path_rule(current@)) == path_rule(after_key@)) by {
            lemma_with_empty_prefix(paths_view(path@), path_rule(current@));
        }
    }
    while more
        invariant
            current@.len() <= after_key@.len() < input@.len(),
            key_rule(input@) == (Parsed::Found { value: base@, rest: after_key@ }),
            path_rule(after_key@) == with_prefix(paths_view(path@), path_rule(current@)),
            !more ==> path_rule(current@) == (Parsed::Found {
                value: Seq::<AccessPathView>::empty(),
                rest: current@,
            }),
        decreases current@.len() + (if more { 1nat } else { 0nat }),
    {
        let ghost before = path@;
        proof {
            lemma_bracket_rule_consumes(current@);
            if dot_rule(current@) is Found {
                lemma_key_rule_consumes(dot_rule(current@)->rest);
            }
        }
        match parse_access_path(current) {
            Err(e) => { return Err(e); },
            Ok((rest, Some(step))) => {
                path.push(step);
                current = rest;
                proof {
                    lemma_with_prefix_step(before, step@, path_rule(rest@));
                    assert(paths_view(path@) =~= before_view(before, step@));
                }
            },
            Ok((_, None)) => {
                more = false;
            },
        }
    }
    proof {
        assert(paths_view(path@) + Seq::<AccessPathView>::empty() =~= paths_view(path@));
    }
    let access = if path.len() == 0 {
        Access { base, path: None }
    } else {
        Access { base, path: Some(path) }
    };
    proof {
        lemma_access_view(access);
    }
    Ok((current, Some(access)))
}

/// The values of `before` followed by `step`.
pub open spec fn before_view(before: Seq<AccessPath>, step: AccessPathView) -> Seq<
    AccessPathView,
> {
    paths_view(before) + seq![step]
}

/// Nothing put before a path leaves the path as it is.
pub proof fn lemma_with_empty_prefix(prefix: Seq<AccessPathView>, p: Parsed<Seq<AccessPathView>>)
    requires
        prefix.len() == 0,
    ensures
        with_prefix(prefix, p) == p,
{
    if let Parsed::Found { value, rest } = p {
        assert(prefix + value =~= value);
    }
}

/// Putting a step before a path, and steps before that, is putting all of them before the
/// path.
pub proof fn lemma_with_prefix_step(
    before: Seq<AccessPath>,
    step: AccessPathView,
    p: Parsed<Seq<AccessPathView>>,
)
    ensures
        with_prefix(paths_view(before), with_prefix(seq![step], p)) == with_prefix(
            before_view(before, step),
            p,
        ),
{
    if let Parsed::Found { value, rest } = p {
        assert(paths_view(before) + (seq![step] + value) =~= (paths_view(before) + seq![step])
            + value);
    }
}

/// Reads a value: a literal or, where there is none, an accessor.
pub fn parse_value<'a>(input: ParseInput<'a>) -> (result: Result<
    (ParseInput<'a>, ParseResult<Value>),
    ParseError<'a>,
>)
    ensures
        agrees(result, input@, value_rule(input@)),
{
    match parse_literal_value(input) {
        Err(e) => { return Err(e); },
        Ok((rest, Some(v))) => { return Ok((rest, Some(Value::Literal(v)))); },
        Ok((_, None)) => {},
    }
    match parse_access(input) {
        Err(e) => Err(e),
        Ok((rest, Some(a))) => Ok((rest, Some(Value::Access(a)))),
        Ok((_, None)) => Ok((input, None)),
    }
}


/// The line that tells of a failure of the base parser, with the input that was left.
pub open spec fn parse_error_text(e: ParseErrorView) -> Seq<char> {
    match e {
        ParseErrorView::Str2Digits(rest) => "number does not fit 32 bits: `"@ + rest + "`"@,
        ParseErrorView::AccessPathDotError(rest) => "error occurred after parsing the `.`: `"@
            + rest + "`"@,
        ParseErrorView::InvalidDataInArray(rest) => "invalid data in array: `"@ + rest + "`"@,
        ParseErrorView::UnmatchedClosingBracket(rest) => "unmatched closing bracket `"@ + rest
            + "`"@,
    }
}

impl<'a> ParseError<'a> {
    /// The line that tells of the failure.
    pub fn message(&self) -> (text: String)
        ensures
            text@ == parse_error_text(self@),
    {
        let (head, rest): (&str, &str) = match self {
            ParseError::Str2Digits(rest) => ("number does not fit 32 bits: `", *rest),
            ParseError::AccessPathDotError(rest) => (
                "error occurred after parsing the `.`: `",
                *rest,
            ),
            ParseError::InvalidDataInArray(rest) => ("invalid data in array: `", *rest),
            ParseError::UnmatchedClosingBracket(rest) => ("unmatched closing bracket `", *rest),
        };
        let mut text: String = String::from_str(head);
        text.append(rest);
        text.append("`");
        text
    }
}

} // verus!
