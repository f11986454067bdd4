use faaf::config::parser::base_parser::{
    parse_access, parse_access_index, parse_access_key, parse_access_path, parse_bool,
    parse_bracket, parse_chain, parse_digit, parse_dot, parse_float, parse_int,
    parse_literal_value, parse_null, parse_operator, parse_sign, parse_string, parse_value,
    parse_whitespace, power_of_ten_based_on, ParseError,
};
use faaf::config::parser::parser_type::{
    Access, AccessPath, Chain, FloatLiteral, IndexValue, LiteralValue, Operator, Value,
};

fn float_value(f: FloatLiteral) -> f64 {
    f.to_text().parse::<f64>().unwrap()
}

#[test]
fn test_parse_int() {
    let result = parse_int("123");
    println!("{:?}", result);
    assert_eq!(result, Ok(("", Some(123))));

    let result = parse_int("-123");
    println!("{:?}", result);
    assert_eq!(result, Ok(("", Some(-123))));

    let result = parse_int("123abc");
    println!("{:?}", result);
    assert_eq!(result, Ok(("abc", Some(123))));
}

#[test]
fn test_parse_float() {
    let (rest, value) = parse_float("123.456").unwrap();
    println!("{:?}", value);
    assert_eq!(rest, "");
    assert_eq!(float_value(value.unwrap()), 123.456);

    let (rest, value) = parse_float("-123.456abc").unwrap();
    println!("{:?}", value);
    assert_eq!(rest, "abc");
    assert_eq!(float_value(value.unwrap()), -123.456);
}

#[test]
fn test_parse_string() {
    let result = parse_string("\"hello\"");
    println!("{:?}", result);
    assert_eq!(result, Ok(("", Some("hello".to_string()))));

    let result = parse_string("\"hello\"world");
    println!("{:?}", result);
    assert_eq!(result, Ok(("world", Some("hello".to_string()))));
}

#[test]
fn test_parse_bool() {
    let result = parse_bool("true");
    println!("{:?}", result);
    assert_eq!(result, Ok(("", Some(true))));

    let result = parse_bool("false");
    println!("{:?}", result);
    assert_eq!(result, Ok(("", Some(false))));
}

#[test]
fn test_parse_access_path() {
    let result = parse_access_path(".keyName");
    println!("{:?}", result);
    assert_eq!(result, Ok(("", Some(AccessPath::Key("keyName".to_string())))));

    let result = parse_access_path("[123]");
    println!("{:?}", result);
    assert_eq!(result, Ok(("", Some(AccessPath::Index(IndexValue::Int(123))))));
}

#[test]
fn test_parse_access() {
    let result = parse_access("object.key");
    println!("{:?}", result);
    assert_eq!(
        result,
        Ok((
            "",
            Some(Access {
                base: "object".to_string(),
                path: Some(vec![AccessPath::Key("key".to_string())])
            })
        ))
    );
}

#[test]
fn test_parse_value() {
    let result = parse_value("123");
    println!("{:?}", result);
    assert_eq!(result, Ok(("", Some(Value::Literal(LiteralValue::Int(123))))));
}

#[test]
fn test_parse_null() {
    let result = parse_null("null");
    println!("{:?}", result);
    assert_eq!(result, Ok(("", Some(LiteralValue::Null))));
}

#[test]
fn test_parse_operator() {
    let result = parse_operator("==");
    println!("{:?}", result);
    assert_eq!(result, Ok(("", Some(Operator::Equal))));
}

#[test]
fn test_parse_chain() {
    let result = parse_chain("and");
    println!("{:?}", result);
    assert_eq!(result, Ok(("", Some(Chain::And))));
}

#[test]
fn test_parse_digit_valid_input() {
    assert_eq!(parse_digit("12345abc"), Ok(("abc", Some(12345))));
}

#[test]
fn test_parse_digit_invalid_input() {
    assert_eq!(parse_digit("abc12345"), Ok(("abc12345", None)));
}

#[test]
fn test_parse_digit_empty_input() {
    assert_eq!(parse_digit(""), Ok(("", None)));
}

#[test]
fn test_parse_int_positive() {
    assert_eq!(parse_int("+12345abc"), Ok(("abc", Some(12345))));
}

#[test]
fn test_parse_int_negative() {
    assert_eq!(parse_int("-12345abc"), Ok(("abc", Some(-12345))));
}

#[test]
fn test_parse_int_without_sign() {
    assert_eq!(parse_int("12345abc"), Ok(("abc", Some(12345))));
}

#[test]
fn test_parse_int_invalid_input() {
    assert_eq!(parse_int("abc-12345"), Ok(("abc-12345", None)));
}

#[test]
fn test_parse_sign_positive() {
    assert_eq!(parse_sign("+12345"), Ok(("12345", Some('+'))));
}

#[test]
fn test_parse_sign_negative() {
    assert_eq!(parse_sign("-12345"), Ok(("12345", Some('-'))));
}

#[test]
fn test_parse_sign_without_sign() {
    assert_eq!(parse_sign("12345"), Ok(("12345", None)));
}

#[test]
fn test_parse_sign_invalid_input() {
    assert_eq!(parse_sign("abc-12345"), Ok(("abc-12345", None)));
}

#[test]
fn test_parse_float_valid() {
    let (remaining, result) = parse_float("+123.456").unwrap();
    assert_eq!(remaining, "");
    assert_eq!(result.map(float_value), Some(123.456));
}

#[test]
fn test_parse_float_no_integer_part() {
    let (remaining, result) = parse_float(".456").unwrap();
    assert_eq!(remaining, ".456");
    assert_eq!(result, None);
}

#[test]
fn test_parse_float_no_fractional_part() {
    let (remaining, result) = parse_float("123.").unwrap();
    assert_eq!(remaining, "123.");
    assert_eq!(result, None);
}

#[test]
fn test_parse_float_invalid_input() {
    let (remaining, result) = parse_float("abc.123").unwrap();
    assert_eq!(remaining, "abc.123");
    assert_eq!(result, None);
}

#[test]
fn test_parse_float_empty_input() {
    let (remaining, result) = parse_float("").unwrap();
    assert_eq!(remaining, "");
    assert_eq!(result, None);
}

#[test]
fn test_parse_literal_value_with_float() {
    let result = parse_literal_value("3.14");
    assert_eq!(
        result,
        Ok(("", Some(LiteralValue::Float(FloatLiteral { negative: false, int_part: 3, frac_part: 14, frac_digits: 2 }))))
    );
    assert_eq!(float_value(FloatLiteral { negative: false, int_part: 3, frac_part: 14, frac_digits: 2 }), 3.14);
}

#[test]
fn test_parse_literal_value_with_int() {
    let result = parse_literal_value("42");
    assert_eq!(result, Ok(("", Some(LiteralValue::Int(42)))));
}

#[test]
fn test_parse_literal_value_with_string() {
    let result = parse_literal_value("\"hello\"");
    assert_eq!(result, Ok(("", Some(LiteralValue::String("hello".to_string())))));
}

#[test]
fn test_parse_literal_value_with_bool() {
    let result = parse_literal_value("true");
    assert_eq!(result, Ok(("", Some(LiteralValue::Bool(true)))));
}

#[test]
fn test_parse_literal_value_with_null() {
    let result = parse_literal_value("null");
    assert_eq!(result, Ok(("", Some(LiteralValue::Null))));
}

#[test]
fn test_parse_access_single_key() {
    let input = "variable";
    let result = parse_access(input).unwrap();
    println!("{:?}", result);

    assert_eq!(result, ("", Some(Access { base: "variable".to_string(), path: None })));
}

#[test]
fn test_parse_access_chained_key() {
    let input = "struct1.struct2.struct3";
    let result = parse_access(input).unwrap();
    println!("{:?}", result);

    assert_eq!(
        result,
        (
            "",
            Some(Access {
                base: "struct1".to_string(),
                path: Some(vec![
                    AccessPath::Key("struct2".to_string()),
                    AccessPath::Key("struct3".to_string())
                ])
            })
        )
    );
}

#[test]
fn test_parse_access_key_with_index() {
    let input = "array[0]";
    let result = parse_access(input).unwrap();
    assert_eq!(
        result,
        (
            "",
            Some(Access {
                base: "array".to_string(),
                path: Some(vec![AccessPath::Index(IndexValue::Int(0))])
            })
        )
    );
}

#[test]
fn test_multiple_index_access() {
    let input = "root[0][1]";
    let result = parse_access(input).unwrap();
    println!("{:?}", result);
    assert_eq!(
        result,
        (
            "",
            Some(Access {
                base: "root".to_string(),
                path: Some(vec![
                    AccessPath::Index(IndexValue::Int(0)),
                    AccessPath::Index(IndexValue::Int(1))
                ])
            })
        )
    );
}

#[test]
fn test_mixed_dot_and_index_access() {
    let input = "root.key[1]";
    let result = parse_access(input);
    println!("{:?}", result);
    assert_eq!(
        result,
        Ok((
            "",
            Some(Access {
                base: "root".to_string(),
                path: Some(vec![
                    AccessPath::Key("key".to_string()),
                    AccessPath::Index(IndexValue::Int(1))
                ])
            })
        ))
    );
}

#[test]
fn test_struct_inside_array_access_1() {
    let input = "root[result[333]]";
    let result = parse_access(input);
    println!("{:?}", result);
    assert_eq!(
        result,
        Ok((
            "",
            Some(Access {
                base: "root".to_string(),
                path: Some(vec![AccessPath::Index(IndexValue::Access(Access {
                    base: "result".to_string(),
                    path: Some(vec![AccessPath::Index(IndexValue::Int(333))])
                }))])
            })
        ))
    );
}

#[test]
fn whitespace_is_the_longest_run_of_blanks() {
    assert_eq!(parse_whitespace(" \t\r\n x "), Ok(("x ", Some(" \t\r\n "))));
    assert_eq!(parse_whitespace("x "), Ok(("x ", None)));
    assert_eq!(parse_whitespace(""), Ok(("", None)));
}

#[test]
fn digits_above_i32_are_an_overflow() {
    assert_eq!(parse_digit("2147483647"), Ok(("", Some(2147483647))));
    assert_eq!(parse_digit("2147483648"), Err(ParseError::Str2Digits("2147483648")));
    assert_eq!(parse_int("-2147483647"), Ok(("", Some(-2147483647))));
    assert_eq!(parse_int("-99999999999x"), Err(ParseError::Str2Digits("99999999999x")));
    assert_eq!(parse_digit("000000000000012"), Ok(("", Some(12))));
    assert_eq!(parse_float("1.99999999999"), Err(ParseError::Str2Digits("99999999999")));
}

#[test]
fn float_before_int_in_literals() {
    assert_eq!(
        parse_literal_value("1.5"),
        Ok(("", Some(LiteralValue::Float(FloatLiteral { negative: false, int_part: 1, frac_part: 5, frac_digits: 1 }))))
    );
    assert_eq!(parse_literal_value("123."), Ok((".", Some(LiteralValue::Int(123)))));
    assert_eq!(parse_literal_value(".5"), Ok((".5", None)));
    assert_eq!(parse_literal_value("x"), Ok(("x", None)));
}

#[test]
fn a_float_keeps_what_is_written() {
    let read = |text: &str| parse_float(text).unwrap().1.unwrap();
    assert_eq!(read("0.05"), FloatLiteral { negative: false, int_part: 0, frac_part: 5, frac_digits: 2 });
    assert_eq!(read("0.5"), FloatLiteral { negative: false, int_part: 0, frac_part: 5, frac_digits: 1 });
    assert_eq!(read("0.50"), FloatLiteral { negative: false, int_part: 0, frac_part: 50, frac_digits: 2 });
    assert_eq!(read("-0.5"), FloatLiteral { negative: true, int_part: 0, frac_part: 5, frac_digits: 1 });
    assert_eq!(read("+0.5"), FloatLiteral { negative: false, int_part: 0, frac_part: 5, frac_digits: 1 });
    assert_eq!(read("-12.0034"), FloatLiteral { negative: true, int_part: 12, frac_part: 34, frac_digits: 4 });
    assert_eq!(read("007.000"), FloatLiteral { negative: false, int_part: 7, frac_part: 0, frac_digits: 3 });
    assert_eq!(read("2147483647.2147483647"), FloatLiteral { negative: false, int_part: 2147483647, frac_part: 2147483647, frac_digits: 10 });
    assert_eq!(read("0.000000000000000000005"), FloatLiteral { negative: false, int_part: 0, frac_part: 5, frac_digits: 21 });
    assert_ne!(read("0.05"), read("0.5"));
    assert_eq!(float_value(read("0.05")), 0.05);
    assert_eq!(float_value(read("0.5")), 0.5);
    assert_eq!(float_value(read("-0.5")), -0.5);
    assert_eq!(float_value(read("1.05")), 1.05);
    assert_eq!(float_value(read("-12.0034")), -12.0034);
    assert_eq!(float_value(read("0.000000000000000000005")), 5e-21);
    assert_eq!(float_value(read("-0.0")).to_bits(), (-0.0f64).to_bits());
    assert_eq!(read("0.05").to_text(), "0.05");
    assert_eq!(read("-0.5").to_text(), "-0.5");
    assert_eq!(read("+007.000").to_text(), "7.000");
    assert_eq!(
        FloatLiteral { negative: true, int_part: 1, frac_part: 123, frac_digits: 2 }.to_text(),
        "-1.123"
    );
    assert_eq!(parse_float("2147483648.5"), Err(ParseError::Str2Digits("2147483648.5")));
    assert_eq!(parse_float("-1.5x"), Ok(("x", Some(FloatLiteral { negative: true, int_part: 1, frac_part: 5, frac_digits: 1 }))));
    assert_eq!(parse_float("-.5"), Ok(("-.5", None)));
    assert_eq!(parse_float("-1."), Ok(("-1.", None)));
}

#[test]
fn string_may_be_empty_and_needs_its_closing_quote() {
    assert_eq!(parse_string("\"\""), Ok(("", Some(String::new()))));
    assert_eq!(parse_string("\"abc"), Ok(("\"abc", None)));
    assert_eq!(parse_string("abc\""), Ok(("abc\"", None)));
    assert_eq!(parse_string("\"a b\" c"), Ok((" c", Some("a b".to_string()))));
}

#[test]
fn every_operator_is_read() {
    assert_eq!(parse_operator("!= x"), Ok((" x", Some(Operator::NotEqual))));
    assert_eq!(parse_operator("<= x"), Ok((" x", Some(Operator::LessThanEqual))));
    assert_eq!(parse_operator(">= x"), Ok((" x", Some(Operator::GreaterThanEqual))));
    assert_eq!(parse_operator("< x"), Ok((" x", Some(Operator::LessThan))));
    assert_eq!(parse_operator("> x"), Ok((" x", Some(Operator::GreaterThan))));
    assert_eq!(parse_operator("in x"), Ok((" x", Some(Operator::In))));
    assert_eq!(parse_operator("= x"), Ok(("= x", None)));
    assert_eq!(parse_chain("or"), Ok(("", Some(Chain::Or))));
    assert_eq!(parse_chain("xor"), Ok(("xor", None)));
}

#[test]
fn key_is_a_letter_then_letters_digits_underscores() {
    assert_eq!(parse_access_key("a_1-b"), Ok(("-b", Some("a_1".to_string()))));
    assert_eq!(parse_access_key("_a"), Ok(("_a", None)));
    assert_eq!(parse_access_key("1a"), Ok(("1a", None)));
    assert_eq!(parse_access_key("\u{e9}a"), Ok(("\u{e9}a", None)));
    assert_eq!(parse_dot(".a"), Ok(("a", Some('.'))));
    assert_eq!(parse_dot("a"), Ok(("a", None)));
}

#[test]
fn brackets_must_balance() {
    assert_eq!(parse_bracket("[hello world]!"), Ok(("!", Some("hello world"))));
    assert_eq!(parse_bracket("hello [world]!"), Ok(("hello [world]!", None)));
    assert_eq!(parse_bracket("[hello [world]]!"), Ok(("!", Some("hello [world]"))));
    assert_eq!(parse_bracket("hello world]"), Ok(("hello world]", None)));
    assert_eq!(
        parse_bracket("[hello world"),
        Err(ParseError::UnmatchedClosingBracket("[hello world"))
    );
    assert_eq!(parse_bracket("[a[b]"), Err(ParseError::UnmatchedClosingBracket("[a[b]")));
    assert_eq!(parse_bracket("[]x"), Ok(("x", Some(""))));
}

#[test]
fn index_holds_an_int_or_an_accessor_and_nothing_else() {
    assert_eq!(
        parse_access_index("[-3].x"),
        Ok((".x", Some(AccessPath::Index(IndexValue::Int(-3)))))
    );
    assert_eq!(parse_access_index("[]x"), Err(ParseError::InvalidDataInArray("x")));
    assert_eq!(parse_access_index("[\"s\"]"), Err(ParseError::InvalidDataInArray("")));
    assert_eq!(parse_access_index("[1.5]"), Err(ParseError::InvalidDataInArray("")));
    assert_eq!(parse_access_index("[true]"), Err(ParseError::InvalidDataInArray("")));
    assert_eq!(parse_access_index("[false]"), Err(ParseError::InvalidDataInArray("")));
    assert_eq!(parse_access_index("[null]"), Err(ParseError::InvalidDataInArray("")));
    assert_eq!(parse_access_index("[12abc]"), Err(ParseError::InvalidDataInArray("")));
    assert_eq!(parse_access_index("[a b]"), Err(ParseError::InvalidDataInArray("")));
    assert_eq!(parse_access_index("[ 1 ]"), Err(ParseError::InvalidDataInArray("")));
    assert_eq!(parse_access_index("[99999999999]"), Err(ParseError::Str2Digits("99999999999")));
    assert_eq!(
        parse_access_index("[truth]"),
        Ok((
            "",
            Some(AccessPath::Index(IndexValue::Access(Access {
                base: "truth".to_string(),
                path: None
            })))
        ))
    );
    assert_eq!(parse_access_index("x[1]"), Ok(("x[1]", None)));
}

#[test]
fn a_dot_needs_a_key() {
    assert_eq!(parse_access("a."), Err(ParseError::AccessPathDotError("")));
    assert_eq!(parse_access("a.1"), Err(ParseError::AccessPathDotError("1")));
    assert_eq!(parse_access("a..b"), Err(ParseError::AccessPathDotError(".b")));
    assert_eq!(parse_access("a[1"), Err(ParseError::UnmatchedClosingBracket("[1")));
    assert_eq!(
        parse_access("a rest"),
        Ok((" rest", Some(Access { base: "a".to_string(), path: None })))
    );
    assert_eq!(parse_access("1a"), Ok(("1a", None)));
}

#[test]
fn value_prefers_the_literal() {
    assert_eq!(parse_value("truex"), Ok(("x", Some(Value::Literal(LiteralValue::Bool(true))))));
    assert_eq!(
        parse_value("tru"),
        Ok(("", Some(Value::Access(Access { base: "tru".to_string(), path: None }))))
    );
    assert_eq!(parse_value("=="), Ok(("==", None)));
}

#[test]
fn power_of_ten_counts_the_digits() {
    assert_eq!(power_of_ten_based_on(0), 1);
    assert_eq!(power_of_ten_based_on(7), 10);
    assert_eq!(power_of_ten_based_on(10), 100);
    assert_eq!(power_of_ten_based_on(456), 1000);
    assert_eq!(power_of_ten_based_on(-456), 1000);
    assert_eq!(power_of_ten_based_on(i32::MAX), 10_000_000_000);
    assert_eq!(power_of_ten_based_on(i32::MIN), 10_000_000_000);
}
