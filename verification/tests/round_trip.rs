use faaf::config::parser::arguments_parser::parse_argument;
use faaf::config::parser::conditions_parser::parse_condition;
use faaf::config::parser::parser_type::{
    Access, AccessPath, FloatLiteral, IndexValue, LiteralValue, Operator, Value,
};

#[test]
fn the_text_of_a_parsed_condition_parses_to_the_same_condition() {
    let lines = [
        ("a == b", "a == b"),
        ("  a   ==\tb  and \n", "a == b and"),
        ("a != \"x y\" or", "a != \"x y\" or"),
        ("basic.size >= -5000", "basic.size >= -5000"),
        ("+7 < a", "7 < a"),
        ("-0 <= a", "0 <= a"),
        ("-0.5 > a", "-0.5 > a"),
        ("+0.5 > a", "0.5 > a"),
        ("1.05 > a", "1.05 > a"),
        ("0.000 > a", "0.000 > a"),
        ("007.250 > a", "7.250 > a"),
        ("true == false", "true == false"),
        ("null in a", "null in a"),
        ("\"\" in a", "\"\" in a"),
        ("a[1][b[c.d[2]].e].f == x[-3]", "a[1][b[c.d[2]].e].f == x[-3]"),
        ("a[truth] == a[true.x]", "a[truth] == a[true.x]"),
        ("in in in", "in in in"),
        ("a <= 2147483647", "a <= 2147483647"),
    ];
    for (line, text) in lines {
        let parsed = parse_condition(line).unwrap();
        let written = parsed.to_text();
        assert_eq!(written, text);
        assert_eq!(parse_condition(&written), Ok(parsed));
    }
}

#[test]
fn the_text_of_a_parsed_argument_parses_to_the_same_argument() {
    for (line, text) in [
        (" basic ", "basic"),
        ("basic.mime", "basic.mime"),
        ("true", "true"),
        ("a.b[0][x.y[-1]].c\n", "a.b[0][x.y[-1]].c"),
    ] {
        let parsed = parse_argument(line).unwrap();
        let written = parsed.to_text();
        assert_eq!(written, text);
        assert_eq!(parse_argument(&written), Ok(parsed));
    }
}

#[test]
fn texts_of_values_and_operators() {
    assert_eq!(Value::Literal(LiteralValue::Int(-12)).to_text(), "-12");
    assert_eq!(Value::Literal(LiteralValue::Int(i32::MIN)).to_text(), "-2147483648");
    assert_eq!(Value::Literal(LiteralValue::Int(i32::MAX)).to_text(), "2147483647");
    assert_eq!(
        Value::Literal(LiteralValue::Float(FloatLiteral { negative: true, int_part: 3, frac_part: 14, frac_digits: 2 })).to_text(),
        "-3.14"
    );
    assert_eq!(Value::Literal(LiteralValue::String("a b".to_string())).to_text(), "\"a b\"");
    assert_eq!(Value::Literal(LiteralValue::Bool(false)).to_text(), "false");
    assert_eq!(Value::Literal(LiteralValue::Null).to_text(), "null");
    assert_eq!(
        Access {
            base: "a".to_string(),
            path: Some(vec![
                AccessPath::Key("b".to_string()),
                AccessPath::Index(IndexValue::Int(100)),
                AccessPath::Index(IndexValue::Access(Access { base: "c".to_string(), path: None })),
            ])
        }
        .to_text(),
        "a.b[100][c]"
    );
    let operators = [
        (Operator::Equal, "=="),
        (Operator::NotEqual, "!="),
        (Operator::LessThan, "<"),
        (Operator::LessThanEqual, "<="),
        (Operator::GreaterThan, ">"),
        (Operator::GreaterThanEqual, ">="),
        (Operator::In, "in"),
    ];
    for (op, text) in operators {
        assert_eq!(op.to_text(), text);
    }
}
