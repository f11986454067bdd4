use faaf::config::analyzer::InnerAnalyzer;
use faaf::config::config::Config;
use faaf::config::parser::arguments_parser::parse_argument;
use faaf::config::parser::base_parser::ParseError;
use faaf::config::parser::conditions_parser::parse_condition;
use faaf::database::error::Error as DatabaseError;
use faaf::gateway::dispatcher::error::Error as DispatcherError;
use faaf::gateway::error::Error as StepError;

fn refused(name: &str, dependencies: &[&str], conditions: Option<&str>) -> String {
    let entry = InnerAnalyzer {
        name: name.to_string(),
        extension: "so".to_string(),
        arguments: None,
        dependencies: if dependencies.is_empty() {
            None
        } else {
            Some(dependencies.iter().map(|d| d.to_string()).collect())
        },
        conditions: conditions.map(|c| c.to_string()),
    };
    let first = InnerAnalyzer {
        name: "basic".to_string(),
        extension: "so".to_string(),
        arguments: None,
        dependencies: None,
        conditions: None,
    };
    Config::load(&vec![first, entry]).unwrap_err().message()
}

#[test]
fn configuration_errors_tell_kind_analyzer_and_excerpt() {
    assert_eq!(
        refused("ldd", &[], Some("basic.mime ==")),
        "ExpressionParse: analyzer `ldd`, line `basic.mime ==`: syntax error: Truncated expression: Expected operator and right-hand value after left-hand value (at ``)"
    );
    assert_eq!(
        refused("ldd", &[], Some("a[1 == 2")),
        "ExpressionParse: analyzer `ldd`, line `a[1 == 2`: unmatched bracket: unmatched closing bracket (at `[1 == 2`)"
    );
    assert_eq!(refused("", &[], None), "ConfigValidation: the analyzer at position 1 has no name");
    assert_eq!(
        refused("a b", &[], None),
        "ConfigValidation: analyzer `a b`: the name is no identifier"
    );
    assert_eq!(refused("select", &[], None), "ConfigValidation: analyzer `select`: the name is reserved");
    assert_eq!(refused("basic", &[], None), "ConfigValidation: analyzer `basic`: the name is used twice");
    assert_eq!(
        refused("ldd", &["basic", "other"], None),
        "ConfigValidation: analyzer `ldd`: no earlier analyzer is named `other`"
    );
    assert_eq!(
        refused("ldd", &[], Some("a == 1 or")),
        "ConfigValidation: analyzer `ldd`: `or` is not offered"
    );
}

#[test]
fn parser_errors_tell_what_was_left() {
    assert_eq!(
        parse_condition("a a").unwrap_err().message(),
        "Invalid Operator: input: `a`, error info: Invalid Operator"
    );
    assert_eq!(
        parse_condition("== a").unwrap_err().message(),
        "Invalid Value: input: `== a`, error info: Invalid left-hand value"
    );
    assert_eq!(
        parse_condition("").unwrap_err().message(),
        "Syntax Error: input: ``, error info: Missing left-hand value"
    );
    assert_eq!(
        parse_condition("a == b x").unwrap_err().message(),
        "Invalid Chain: input: `x`, error info: Invalid chain"
    );
    assert_eq!(
        parse_condition("a. == b").unwrap_err().message(),
        "error occurred after parsing the `.`: ` == b`"
    );
    assert_eq!(
        parse_argument("1").unwrap_err().message(),
        "None Value Error: input: `1`, error info: not argument"
    );
    assert_eq!(
        parse_argument("a b").unwrap_err().message(),
        "Invalid Value: input: `b`, error info: Unexpected data exists in value suffix"
    );
    assert_eq!(
        parse_argument("a[").unwrap_err().message(),
        "unmatched closing bracket `[`"
    );
    assert_eq!(ParseError::Str2Digits("99999999999").message(), "number does not fit 32 bits: `99999999999`");
    assert_eq!(ParseError::InvalidDataInArray(".x").message(), "invalid data in array: `.x`");
}

#[test]
fn store_errors_tell_their_kind() {
    assert_eq!(
        DatabaseError::AnalyzerNameDoesNotHaveAnArray().message(),
        "Compile: analyzer name does not have array"
    );
    assert_eq!(
        DatabaseError::JsonArrayDoesNotHaveOtherThanInt().message(),
        "Compile: json array does not have other than int"
    );
    assert_eq!(DatabaseError::UnimplementedError().message(), "Compile: unimplemented error");
    assert_eq!(
        DatabaseError::PathListDoesNotHaveAcess().message(),
        "Compile: path list does not have access"
    );
    assert_eq!(
        DatabaseError::NotAnalyzerNameInDataBase("ldd".to_string()).message(),
        "analyzer name: `ldd` is not in database"
    );
    assert_eq!(
        DatabaseError::ComparisonErrorTypeMismatch().message(),
        "TypeMismatch: comparison error"
    );
    assert_eq!(
        DatabaseError::DiffCondAndCondStmt().message(),
        "ShapeMismatch: difference conditions struct and condition stmt"
    );
    assert_eq!(
        DatabaseError::NoAccessSatement().message(),
        "ShapeMismatch: there is access struct and is not access statement"
    );
    assert_eq!(DatabaseError::NoAnalyzerName().message(), "NoAnalyzerName: no analyzer name");
    assert_eq!(DatabaseError::BindRequired().message(), "BindMissing: bind required");
    assert_eq!(DatabaseError::MismatchedBindType().message(), "mismatch bind type");
    assert_eq!(
        StepError::DatabaseError(DatabaseError::BindRequired()).message(),
        "BindMissing: bind required"
    );
    assert_eq!(
        StepError::DiffCondAndCondStmt().message(),
        "ShapeMismatch: difference conditions struct and condition stmt"
    );
    assert_eq!(DispatcherError::UndefinedExtensionError().message(), "undefined extension error");
}
