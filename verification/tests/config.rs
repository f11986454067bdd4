use faaf::config::analyzer::{Analyzer, InnerAnalyzer};
use faaf::config::arguments::Argument;
use faaf::config::conditions::Condition;
use faaf::config::config::Config;
use faaf::config::error::{Error, ExpressionError, ExpressionErrorKind, ValidationError};
use faaf::config::names::{check_identifier, check_reserved};
use faaf::config::parser::parser_type::{
    Access, AccessPath, Chain, LiteralValue, Operator, Value,
};

fn entry(name: &str) -> InnerAnalyzer {
    InnerAnalyzer {
        name: name.to_string(),
        extension: "so".to_string(),
        arguments: None,
        dependencies: None,
        conditions: None,
    }
}

fn with_conditions(name: &str, conditions: &str) -> InnerAnalyzer {
    InnerAnalyzer { conditions: Some(conditions.to_string()), ..entry(name) }
}

fn with_dependencies(name: &str, dependencies: &[&str]) -> InnerAnalyzer {
    InnerAnalyzer {
        dependencies: Some(dependencies.iter().map(|d| d.to_string()).collect()),
        ..entry(name)
    }
}

#[test]
fn load_keeps_the_entries_in_order() {
    let entries = vec![
        InnerAnalyzer {
            name: "analyzer1".to_string(),
            extension: "ext1".to_string(),
            arguments: None,
            dependencies: None,
            conditions: None,
        },
        InnerAnalyzer {
            name: "analyzer2".to_string(),
            extension: "ext2".to_string(),
            arguments: Some(vec!["arg1".to_string(), "arg2".to_string()]),
            dependencies: None,
            conditions: None,
        },
    ];
    let config = Config::load(&entries).expect("Failed to load config");
    assert_eq!(config.analyzer.len(), 2);
    assert_eq!(config.analyzer[0].name, "analyzer1");
    assert_eq!(config.analyzer[0].extension, "ext1");
    assert_eq!(config.analyzer[1].name, "analyzer2");
    assert_eq!(config.analyzer[1].extension, "ext2");
    assert_eq!(
        config.analyzer[1].arguments.as_ref().unwrap()[0],
        Argument { value: Access { base: "arg1".to_string(), path: None } }
    );
    assert_eq!(config.analyzer[1].arguments.as_ref().unwrap().len(), 2);
}

#[test]
fn empty_configuration_loads() {
    assert_eq!(Config::load(&Vec::new()), Ok(Config { analyzer: Vec::new() }));
}

#[test]
fn conditions_are_read_line_by_line_and_blank_lines_skipped() {
    let inner = with_conditions(
        "ldd",
        "\n  basic.mime == \"application/x-pie-executable\"\n\n\t \n  basic.size > 5000 and\n",
    );
    let analyzer = Analyzer::deserialize(&inner).unwrap();
    assert_eq!(
        analyzer.conditions,
        Some(vec![
            Condition {
                left: Value::Access(Access {
                    base: "basic".to_string(),
                    path: Some(vec![AccessPath::Key("mime".to_string())])
                }),
                op: Operator::Equal,
                right: Value::Literal(LiteralValue::String(
                    "application/x-pie-executable".to_string()
                )),
                chain: None
            },
            Condition {
                left: Value::Access(Access {
                    base: "basic".to_string(),
                    path: Some(vec![AccessPath::Key("size".to_string())])
                }),
                op: Operator::GreaterThan,
                right: Value::Literal(LiteralValue::Int(5000)),
                chain: Some(Chain::And)
            },
        ])
    );
    assert_eq!(Analyzer::deserialize(&with_conditions("x", "")).unwrap().conditions, Some(vec![]));
    assert_eq!(
        Analyzer::deserialize(&with_conditions("x", " \n\n")).unwrap().conditions,
        Some(vec![])
    );
    assert_eq!(Analyzer::deserialize(&entry("x")).unwrap().conditions, None);
}

#[test]
fn a_condition_that_does_not_parse_names_analyzer_and_line() {
    let entries = vec![entry("basic"), with_conditions("ldd", "basic.mime == \"x\"\n  a ==\nb == c")];
    assert_eq!(
        Config::load(&entries),
        Err(Error::ExpressionParse(ExpressionError {
            analyzer: "ldd".to_string(),
            line: "  a ==".to_string(),
            kind: ExpressionErrorKind::Syntax,
            rest: "".to_string(),
            message:
                "Truncated expression: Expected operator and right-hand value after left-hand value"
                    .to_string(),
        }))
    );
}

#[test]
fn an_argument_that_does_not_parse_names_analyzer_and_text() {
    let inner = InnerAnalyzer {
        arguments: Some(vec!["basic.mime".to_string(), "111aaa".to_string(), "x.".to_string()]),
        ..entry("ldd")
    };
    assert_eq!(
        Analyzer::deserialize(&inner),
        Err(ExpressionError {
            analyzer: "ldd".to_string(),
            line: "111aaa".to_string(),
            kind: ExpressionErrorKind::NoneValue,
            rest: "111aaa".to_string(),
            message: "not argument".to_string(),
        })
    );
    let inner = InnerAnalyzer {
        arguments: Some(vec!["x[".to_string()]),
        conditions: Some("a ==".to_string()),
        ..entry("ldd")
    };
    assert_eq!(
        Analyzer::deserialize(&inner),
        Err(ExpressionError {
            analyzer: "ldd".to_string(),
            line: "x[".to_string(),
            kind: ExpressionErrorKind::UnmatchedBracket,
            rest: "[".to_string(),
            message: "unmatched closing bracket".to_string(),
        })
    );
}

#[test]
fn every_parser_failure_has_its_kind() {
    let kind = |line: &str| Analyzer::deserialize(&with_conditions("x", line)).unwrap_err().kind;
    assert_eq!(kind("a"), ExpressionErrorKind::Syntax);
    assert_eq!(kind("== a"), ExpressionErrorKind::InvalidValue);
    assert_eq!(kind("a a"), ExpressionErrorKind::InvalidOperator);
    assert_eq!(kind("a == b andand"), ExpressionErrorKind::InvalidChain);
    assert_eq!(kind("a == 99999999999"), ExpressionErrorKind::IntegerOverflow);
    assert_eq!(kind("a. == 1"), ExpressionErrorKind::DotWithoutKey);
    assert_eq!(kind("a[] == 1"), ExpressionErrorKind::InvalidDataInArray);
    assert_eq!(kind("a[ == 1"), ExpressionErrorKind::UnmatchedBracket);
    let inner = InnerAnalyzer { arguments: Some(vec![" ".to_string()]), ..entry("x") };
    assert_eq!(Analyzer::deserialize(&inner).unwrap_err().kind, ExpressionErrorKind::NoneValue);
}

#[test]
fn names_must_be_identifiers() {
    let refused = |name: &str| Config::load(&vec![entry(name)]);
    assert_eq!(refused(""), Err(Error::ConfigValidation(ValidationError::EmptyName(0))));
    for name in
        ["my analyzer", "a\"b", "a'b", "a;b", "a; DROP TABLE result", "1abc", "a-b", "a.b", "\u{e9}"]
    {
        assert_eq!(
            refused(name),
            Err(Error::ConfigValidation(ValidationError::InvalidName(name.to_string())))
        );
    }
    for name in
        ["select", "SELECT", "Table", "drop", "where", "result", "Result", "without", "path", "pathlist"]
    {
        assert_eq!(
            refused(name),
            Err(Error::ConfigValidation(ValidationError::ReservedName(name.to_string())))
        );
    }
    for name in ["basic", "_basic", "b", "basic_info2", "selects", "paths", "Path", "PATHLIST"] {
        assert!(refused(name).is_ok());
    }
    assert_eq!(
        Config::load(&vec![entry("a"), entry("")]),
        Err(Error::ConfigValidation(ValidationError::EmptyName(1)))
    );
}

#[test]
fn identifier_and_reserved_checks() {
    assert!(check_identifier("_"));
    assert!(check_identifier("a_1"));
    assert!(!check_identifier(""));
    assert!(!check_identifier("1a"));
    assert!(!check_identifier("a b"));
    assert!(check_reserved("AutoIncrement"));
    assert!(check_reserved("current_timestamp"));
    assert!(check_reserved("path"));
    assert!(check_reserved("pathlist"));
    assert!(!check_reserved("Path"));
    assert!(!check_reserved("basic"));
    assert!(!check_reserved("selec"));
}

#[test]
fn names_must_differ() {
    assert_eq!(
        Config::load(&vec![entry("a"), entry("b"), entry("a")]),
        Err(Error::ConfigValidation(ValidationError::DuplicateName("a".to_string())))
    );
    assert!(Config::load(&vec![entry("a"), entry("A")]).is_ok());
}

#[test]
fn dependencies_must_come_earlier() {
    assert!(Config::load(&vec![entry("a"), entry("b"), with_dependencies("c", &["a", "b"])])
        .is_ok());
    assert_eq!(
        Config::load(&vec![with_dependencies("c", &["a"]), entry("a")]),
        Err(Error::ConfigValidation(ValidationError::UnknownDependency {
            analyzer: "c".to_string(),
            dependency: "a".to_string()
        }))
    );
    assert_eq!(
        Config::load(&vec![entry("a"), with_dependencies("c", &["a", "x", "y"])]),
        Err(Error::ConfigValidation(ValidationError::UnknownDependency {
            analyzer: "c".to_string(),
            dependency: "x".to_string()
        }))
    );
    assert_eq!(
        Config::load(&vec![with_dependencies("c", &["c"])]),
        Err(Error::ConfigValidation(ValidationError::UnknownDependency {
            analyzer: "c".to_string(),
            dependency: "c".to_string()
        }))
    );
}

#[test]
fn or_is_refused_and_and_is_kept() {
    assert_eq!(
        Config::load(&vec![with_conditions("a", "x == 1 and\ny == 2 or")]),
        Err(Error::ConfigValidation(ValidationError::UnsupportedChain {
            analyzer: "a".to_string()
        }))
    );
    let config = Config::load(&vec![with_conditions("a", "x == 1 and\ny == 2")]).unwrap();
    assert_eq!(config.analyzer[0].conditions.as_ref().unwrap()[0].chain, Some(Chain::And));
}

#[test]
fn the_first_refused_entry_decides() {
    assert_eq!(
        Config::load(&vec![entry("a b"), with_conditions("c", "a ==")]),
        Err(Error::ConfigValidation(ValidationError::InvalidName("a b".to_string())))
    );
    let error = Config::load(&vec![with_conditions("a b", "a =="), entry("c")]).unwrap_err();
    assert!(matches!(error, Error::ExpressionParse(_)));
}
