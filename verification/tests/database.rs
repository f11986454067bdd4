use faaf::config::analyzer::InnerAnalyzer;
use faaf::config::conditions::Condition;
use faaf::config::config::Config;
use faaf::config::parser::arguments_parser::parse_argument;
use faaf::config::parser::base_parser::parse_access;
use faaf::config::parser::conditions_parser::parse_condition;
use faaf::config::parser::parser_type::{Access, FloatLiteral, LiteralValue, Operator};
use faaf::database::column::{decode_column, Column};
use faaf::database::compare::{json_compare, needs_float_order};
use faaf::database::database::{
    Database, Execution, InsertAnalyerStatement, Param, SelectAnalyzerStatement, Transaction,
};
use faaf::database::evaluate::{
    Answer, ArgumentStatement, ConditionStatement, IsMatchCodition, Reply, Request,
};
use faaf::database::statement::{AccessStatement, BindRequirement, BindType, Query, Statement};
use faaf::database::error::Error;
use faaf::json::{FloatOrder, Json, Number};

fn access(text: &str) -> Access {
    let (rest, parsed) = parse_access(text).unwrap();
    assert_eq!(rest, "");
    parsed.unwrap()
}

fn sql_of(text: &str) -> String {
    match access(text).generate_stmt().unwrap() {
        AccessStatement::Stmt(statement, _) => statement.sql,
        AccessStatement::Format(text) => text,
    }
}

fn text(s: &str) -> Json {
    Json::String(s.to_string())
}

fn whole(i: i64) -> Json {
    Json::Number(Number::from_i64(i))
}

fn float(f: f64) -> Json {
    Json::Number(Number::Float(f.to_bits()))
}

fn bound(text: &str, id: i64) -> AccessStatement {
    let mut statement = access(text).generate_stmt().unwrap();
    statement.set_placeholder(id).unwrap();
    statement
}

fn condition(line: &str) -> Condition {
    parse_condition(line).unwrap()
}

#[test]
fn path_compiles_to_the_lookup_by_result_id() {
    assert_eq!(
        access("path").generate_stmt(),
        Ok(AccessStatement::Stmt(
            Statement { sql: "SELECT path FROM result WHERE id = ?1".to_string() },
            BindRequirement::Required(vec![BindType::ResultId(0)])
        ))
    );
    assert_eq!(access("path.x").generate_stmt(), Err(Error::UnimplementedError()));
    assert_eq!(access("path[0]").generate_stmt(), Err(Error::UnimplementedError()));
}

#[test]
fn pathlist_compiles_to_all_paths_and_takes_no_path() {
    assert_eq!(
        access("pathlist").generate_stmt(),
        Ok(AccessStatement::Stmt(
            Statement { sql: "SELECT path FROM result".to_string() },
            BindRequirement::Required(vec![])
        ))
    );
    assert_eq!(access("pathlist.foo").generate_stmt(), Err(Error::PathListDoesNotHaveAcess()));
}

#[test]
fn analyzer_accessor_compiles_to_a_json_extraction() {
    assert_eq!(
        access("basic").generate_stmt(),
        Ok(AccessStatement::Stmt(
            Statement {
                sql: "SELECT analyzer.value->>'$' FROM basic AS analyzer JOIN result ON analyzer.result_id = result.id WHERE result.id = ?1".to_string()
            },
            BindRequirement::Required(vec![BindType::ResultId(0)])
        ))
    );
    assert_eq!(
        sql_of("basic.mime"),
        "SELECT analyzer.value->>'$.mime' FROM basic AS analyzer JOIN result ON analyzer.result_id = result.id WHERE result.id = ?1"
    );
    assert_eq!(
        sql_of("ldd.libs[12].name.parts[0][-3]"),
        "SELECT analyzer.value->>'$.libs[12].name.parts[0][-3]' FROM ldd AS analyzer JOIN result ON analyzer.result_id = result.id WHERE result.id = ?1"
    );
    assert_eq!(
        sql_of("a.b[2147483647]"),
        "SELECT analyzer.value->>'$.b[2147483647]' FROM a AS analyzer JOIN result ON analyzer.result_id = result.id WHERE result.id = ?1"
    );
    assert_eq!(
        sql_of("a.b[-2147483647]"),
        "SELECT analyzer.value->>'$.b[-2147483647]' FROM a AS analyzer JOIN result ON analyzer.result_id = result.id WHERE result.id = ?1"
    );
    assert_eq!(
        sql_of("a.b[10].c[105]"),
        "SELECT analyzer.value->>'$.b[10].c[105]' FROM a AS analyzer JOIN result ON analyzer.result_id = result.id WHERE result.id = ?1"
    );
}

#[test]
fn accessors_that_do_not_compile() {
    assert_eq!(access("analyzer[5]").generate_stmt(), Err(Error::AnalyzerNameDoesNotHaveAnArray()));
    assert_eq!(
        access("analyzer[x].y[z]").generate_stmt(),
        Err(Error::AnalyzerNameDoesNotHaveAnArray())
    );
    assert_eq!(
        access("analyzer.list[other]").generate_stmt(),
        Err(Error::JsonArrayDoesNotHaveOtherThanInt())
    );
    assert_eq!(
        access("analyzer.list[other.x[1]].y").generate_stmt(),
        Err(Error::JsonArrayDoesNotHaveOtherThanInt())
    );
}

#[test]
fn compiling_twice_gives_the_same_statement() {
    for text in ["path", "pathlist", "basic", "basic.a[1].b", "x.y.z"] {
        assert_eq!(access(text).generate_stmt(), access(text).generate_stmt());
    }
}

#[test]
fn a_statement_has_no_query_before_it_is_bound() {
    let mut statement = access("basic.mime").generate_stmt().unwrap();
    assert_eq!(statement.query(), Err(Error::BindRequired()));
    assert_eq!(statement.to_json(&Some(Column::Null)), Err(Error::BindRequired()));
    assert_eq!(statement.set_placeholder(7), Ok(()));
    assert_eq!(
        statement,
        AccessStatement::Stmt(
            Statement { sql: sql_of("basic.mime") },
            BindRequirement::Provided(vec![BindType::ResultId(7)])
        )
    );
    assert_eq!(statement.query(), Ok(Query { sql: sql_of("basic.mime"), params: vec![7] }));
    assert_eq!(statement.set_placeholder(8), Ok(()));
    assert_eq!(statement.query(), Ok(Query { sql: sql_of("basic.mime"), params: vec![8] }));
    let mut all = access("pathlist").generate_stmt().unwrap();
    assert_eq!(all.query(), Err(Error::BindRequired()));
    all.set_placeholder(3).unwrap();
    assert_eq!(all.query(), Ok(Query { sql: "SELECT path FROM result".to_string(), params: vec![] }));
    let mut format = AccessStatement::Format("x".to_string());
    format.set_placeholder(1).unwrap();
    assert_eq!(format, AccessStatement::Format("x".to_string()));
    assert_eq!(format.query(), Err(Error::UnimplementedError()));
    assert_eq!(format.to_json(&None), Err(Error::UnimplementedError()));
}

#[test]
fn columns_decode_to_json() {
    assert_eq!(decode_column(&Column::Text(b"text/plain".to_vec())), text("text/plain"));
    assert_eq!(decode_column(&Column::Text(vec![0x61, 0xff, 0x62])), text("a\u{fffd}b"));
    assert_eq!(decode_column(&Column::Integer(-5)), Json::Number(Number::NegInt(-5)));
    assert_eq!(decode_column(&Column::Integer(0)), Json::Number(Number::PosInt(0)));
    assert_eq!(decode_column(&Column::Integer(10000)), Json::Number(Number::PosInt(10000)));
    assert_eq!(decode_column(&Column::Real(1.5f64.to_bits())), float(1.5));
    assert_eq!(decode_column(&Column::Real(f64::NAN.to_bits())), Json::Null);
    assert_eq!(decode_column(&Column::Real(f64::INFINITY.to_bits())), Json::Null);
    assert_eq!(decode_column(&Column::Real(f64::NEG_INFINITY.to_bits())), Json::Null);
    assert_eq!(decode_column(&Column::Real(f64::MAX.to_bits())), float(f64::MAX));
    assert_eq!(decode_column(&Column::Blob(b"hello".to_vec())), text("aGVsbG8="));
    assert_eq!(decode_column(&Column::Blob(vec![])), text(""));
    assert_eq!(decode_column(&Column::Blob(vec![0xfb, 0xff])), text("+/8="));
    assert_eq!(decode_column(&Column::Null), Json::Null);
    let statement = bound("basic.mime", 1);
    assert_eq!(statement.to_json(&None), Ok(None));
    assert_eq!(statement.to_json(&Some(Column::Integer(3))), Ok(Some(whole(3))));
}

#[test]
fn literals_convert_to_json() {
    assert_eq!(LiteralValue::Int(5).to_json(0), Json::Number(Number::PosInt(5)));
    assert_eq!(LiteralValue::Int(-5).to_json(0), Json::Number(Number::NegInt(-5)));
    assert_eq!(LiteralValue::String("a".to_string()).to_json(0), text("a"));
    assert_eq!(LiteralValue::Bool(true).to_json(0), Json::Bool(true));
    assert_eq!(LiteralValue::Null.to_json(0), Json::Null);
    let literal = LiteralValue::Float(FloatLiteral { negative: false, int_part: 1, frac_part: 5, frac_digits: 1 });
    assert_eq!(literal.to_json(1.5f64.to_bits()), float(1.5));
    assert_eq!(literal.to_json(f64::NAN.to_bits()), Json::Number(Number::PosInt(0)));
    assert_eq!(literal.to_json(f64::INFINITY.to_bits()), Json::Number(Number::PosInt(0)));
}

#[test]
fn equality_is_structural() {
    let eq = |l: &Json, r: &Json| json_compare(l, &Operator::Equal, r, None);
    let ne = |l: &Json, r: &Json| json_compare(l, &Operator::NotEqual, r, None);
    assert_eq!(eq(&text("a"), &text("a")), Ok(true));
    assert_eq!(eq(&text("a"), &text("b")), Ok(false));
    assert_eq!(ne(&text("a"), &text("b")), Ok(true));
    assert_eq!(eq(&whole(1), &whole(1)), Ok(true));
    assert_eq!(eq(&whole(1), &float(1.0)), Ok(false));
    assert_eq!(eq(&float(0.0), &float(-0.0)), Ok(true));
    assert_eq!(eq(&float(1.5), &float(1.5)), Ok(true));
    assert_eq!(eq(&float(1.5), &float(2.5)), Ok(false));
    assert_eq!(eq(&Json::Null, &Json::Null), Ok(true));
    assert_eq!(eq(&Json::Null, &Json::Bool(false)), Ok(false));
    assert_eq!(eq(&Json::Bool(true), &Json::Bool(true)), Ok(true));
    assert_eq!(eq(&text("1"), &whole(1)), Ok(false));
    let list = |items: Vec<Json>| Json::Array(items);
    assert_eq!(eq(&list(vec![whole(1), text("a")]), &list(vec![whole(1), text("a")])), Ok(true));
    assert_eq!(eq(&list(vec![whole(1), text("a")]), &list(vec![text("a"), whole(1)])), Ok(false));
    assert_eq!(eq(&list(vec![whole(1)]), &list(vec![whole(1), whole(1)])), Ok(false));
    let object = |members: Vec<(&str, Json)>| {
        Json::Object(members.into_iter().map(|(k, v)| (k.to_string(), v)).collect())
    };
    assert_eq!(
        eq(&object(vec![("a", whole(1)), ("b", whole(2))]), &object(vec![("b", whole(2)), ("a", whole(1))])),
        Ok(true)
    );
    assert_eq!(
        eq(&object(vec![("a", whole(1)), ("b", whole(2))]), &object(vec![("a", whole(1)), ("b", whole(3))])),
        Ok(false)
    );
    assert_eq!(
        eq(&object(vec![("a", whole(1))]), &object(vec![("a", whole(1)), ("b", whole(3))])),
        Ok(false)
    );
    assert_eq!(
        ne(&object(vec![("a", list(vec![]))]), &object(vec![("a", list(vec![Json::Null]))])),
        Ok(true)
    );
}

#[test]
fn ordering_is_on_numbers_only() {
    let ops = [
        Operator::LessThan,
        Operator::LessThanEqual,
        Operator::GreaterThan,
        Operator::GreaterThanEqual,
    ];
    let verdicts =
        |l: &Json, r: &Json| ops.iter().map(|op| json_compare(l, op, r, None)).collect::<Vec<_>>();
    assert_eq!(verdicts(&whole(10000), &whole(5000)), vec![Ok(false), Ok(false), Ok(true), Ok(true)]);
    assert_eq!(verdicts(&whole(100), &whole(5000)), vec![Ok(true), Ok(true), Ok(false), Ok(false)]);
    assert_eq!(verdicts(&whole(-1), &whole(-1)), vec![Ok(false), Ok(true), Ok(false), Ok(true)]);
    assert_eq!(
        verdicts(&whole(i64::MIN), &whole(i64::MAX)),
        vec![Ok(true), Ok(true), Ok(false), Ok(false)]
    );
    for op in ops {
        assert_eq!(
            json_compare(&text("big"), &op, &whole(5000), None),
            Err(Error::ComparisonErrorTypeMismatch())
        );
        assert_eq!(
            json_compare(&whole(1), &op, &Json::Null, None),
            Err(Error::ComparisonErrorTypeMismatch())
        );
        assert_eq!(
            json_compare(&text("a"), &op, &text("b"), None),
            Err(Error::ComparisonErrorTypeMismatch())
        );
        assert_eq!(
            json_compare(&float(1.5), &op, &whole(1), None),
            Err(Error::ComparisonErrorTypeMismatch())
        );
    }
}

#[test]
fn numbers_outside_i64_go_by_their_order_as_doubles() {
    let big = Json::Number(Number::PosInt(u64::MAX));
    assert!(needs_float_order(&float(1.5), &Operator::LessThan, &whole(2)));
    assert!(needs_float_order(&big, &Operator::GreaterThan, &whole(2)));
    assert!(needs_float_order(&float(1.5), &Operator::GreaterThanEqual, &float(2.5)));
    assert!(!needs_float_order(&whole(1), &Operator::LessThan, &whole(2)));
    assert!(!needs_float_order(&float(1.5), &Operator::Equal, &float(2.5)));
    assert!(!needs_float_order(&float(1.5), &Operator::In, &float(2.5)));
    assert!(!needs_float_order(&float(1.5), &Operator::LessThan, &text("a")));
    let by = |op: Operator, order: FloatOrder| json_compare(&float(1.5), &op, &whole(2), Some(order));
    assert_eq!(by(Operator::LessThan, FloatOrder::Less), Ok(true));
    assert_eq!(by(Operator::LessThan, FloatOrder::Equal), Ok(false));
    assert_eq!(by(Operator::LessThan, FloatOrder::Greater), Ok(false));
    assert_eq!(by(Operator::LessThanEqual, FloatOrder::Less), Ok(true));
    assert_eq!(by(Operator::LessThanEqual, FloatOrder::Equal), Ok(true));
    assert_eq!(by(Operator::LessThanEqual, FloatOrder::Greater), Ok(false));
    assert_eq!(by(Operator::GreaterThan, FloatOrder::Less), Ok(false));
    assert_eq!(by(Operator::GreaterThan, FloatOrder::Equal), Ok(false));
    assert_eq!(by(Operator::GreaterThan, FloatOrder::Greater), Ok(true));
    assert_eq!(by(Operator::GreaterThanEqual, FloatOrder::Less), Ok(false));
    assert_eq!(by(Operator::GreaterThanEqual, FloatOrder::Equal), Ok(true));
    assert_eq!(by(Operator::GreaterThanEqual, FloatOrder::Greater), Ok(true));
    assert_eq!(
        json_compare(&whole(1), &Operator::LessThan, &whole(2), Some(FloatOrder::Greater)),
        Ok(true)
    );
}

#[test]
fn in_is_containment() {
    let inside = |l: &Json, r: &Json| json_compare(l, &Operator::In, r, None);
    assert_eq!(inside(&text("application/x-pie"), &text("x-pie")), Ok(true));
    assert_eq!(inside(&text("application/x-pie"), &text("x-pix")), Ok(false));
    assert_eq!(inside(&text("abc"), &text("")), Ok(true));
    assert_eq!(inside(&text(""), &text("")), Ok(true));
    assert_eq!(inside(&text(""), &text("a")), Ok(false));
    assert_eq!(inside(&text("abc"), &text("abc")), Ok(true));
    assert_eq!(inside(&text("abc"), &text("abcd")), Ok(false));
    assert_eq!(inside(&text("ab\u{e9}c"), &text("\u{e9}c")), Ok(true));
    let object = Json::Object(vec![("a".to_string(), whole(1)), ("b".to_string(), Json::Null)]);
    assert_eq!(inside(&object, &text("b")), Ok(true));
    assert_eq!(inside(&object, &text("c")), Ok(false));
    assert_eq!(inside(&object, &whole(1)), Err(Error::ComparisonErrorTypeMismatch()));
    let list = Json::Array(vec![whole(1), text("a"), float(0.0)]);
    assert_eq!(inside(&list, &text("a")), Ok(true));
    assert_eq!(inside(&list, &whole(1)), Ok(true));
    assert_eq!(inside(&list, &float(-0.0)), Ok(true));
    assert_eq!(inside(&list, &whole(2)), Ok(false));
    assert_eq!(inside(&Json::Array(vec![]), &Json::Null), Ok(false));
    assert_eq!(inside(&text("a"), &whole(1)), Err(Error::ComparisonErrorTypeMismatch()));
    assert_eq!(inside(&whole(1), &text("1")), Err(Error::ComparisonErrorTypeMismatch()));
    assert_eq!(inside(&Json::Null, &Json::Null), Err(Error::ComparisonErrorTypeMismatch()));
}

#[test]
fn a_condition_asks_for_each_side_and_then_decides() {
    let cond = condition("basic.size > 5000");
    let slot = (Some(bound("basic.size", 4)), None);
    let query = Query { sql: sql_of("basic.size"), params: vec![4] };
    assert_eq!(
        slot.is_match_condition(&cond, &vec![], 0),
        Ok((Reply::Ask(Request::Query(query)), 0))
    );
    let row = |c: Column| vec![Answer::Row(Some(c))];
    assert_eq!(
        slot.is_match_condition(&cond, &row(Column::Integer(10000)), 0),
        Ok((Reply::Done(true), 1))
    );
    assert_eq!(
        slot.is_match_condition(&cond, &row(Column::Integer(100)), 0),
        Ok((Reply::Done(false), 1))
    );
    assert_eq!(
        slot.is_match_condition(&cond, &row(Column::Text(b"big".to_vec())), 0),
        Err(Error::ComparisonErrorTypeMismatch())
    );
    assert_eq!(
        slot.is_match_condition(&cond, &vec![Answer::Row(None)], 0),
        Ok((Reply::Done(false), 1))
    );
    assert_eq!(
        slot.is_match_condition(&cond, &vec![Answer::Float(0)], 0),
        Err(Error::MismatchedBindType())
    );
    assert_eq!(
        slot.is_match_condition(&cond, &row(Column::Real(5000.5f64.to_bits())), 0),
        Ok((
            Reply::Ask(Request::Order(Number::Float(5000.5f64.to_bits()), Number::PosInt(5000))),
            1
        ))
    );
    assert_eq!(
        slot.is_match_condition(
            &cond,
            &vec![
                Answer::Row(Some(Column::Real(5000.5f64.to_bits()))),
                Answer::Order(Some(FloatOrder::Greater))
            ],
            0
        ),
        Ok((Reply::Done(true), 2))
    );
    assert_eq!(
        slot.is_match_condition(
            &cond,
            &vec![Answer::Row(Some(Column::Real(5000.5f64.to_bits()))), Answer::Order(None)],
            0
        ),
        Err(Error::ComparisonErrorTypeMismatch())
    );
}

#[test]
fn a_condition_checks_its_statements_first() {
    let cond = condition("basic.size > 5000");
    let none: (Option<AccessStatement>, Option<AccessStatement>) = (None, None);
    assert_eq!(none.is_match_condition(&cond, &vec![], 0), Err(Error::NoAccessSatement()));
    let both = (Some(bound("basic.size", 1)), Some(bound("basic.size", 1)));
    assert_eq!(both.is_match_condition(&cond, &vec![], 0), Err(Error::NoAccessSatement()));
    let unbound = (Some(access("basic.size").generate_stmt().unwrap()), None);
    assert_eq!(unbound.is_match_condition(&cond, &vec![], 0), Err(Error::BindRequired()));
    let unbound_and_unpaired = (Some(access("basic.size").generate_stmt().unwrap()), Some(bound("a", 1)));
    assert_eq!(
        unbound_and_unpaired.is_match_condition(&cond, &vec![], 0),
        Err(Error::NoAccessSatement())
    );
    let two = condition("basic.size > other.size");
    let unbound_and_missing = (Some(access("basic.size").generate_stmt().unwrap()), None);
    assert_eq!(
        unbound_and_missing.is_match_condition(&two, &vec![], 0),
        Err(Error::NoAccessSatement())
    );
    let format_and_missing = (Some(AccessStatement::Format("x".to_string())), None);
    assert_eq!(
        format_and_missing.is_match_condition(&two, &vec![], 0),
        Err(Error::NoAccessSatement())
    );
    assert_eq!(
        (Some(AccessStatement::Format("x".to_string())), None).is_match_condition(&cond, &vec![], 0),
        Err(Error::UnimplementedError())
    );
    let literals = condition("1 == 1");
    assert_eq!(none.is_match_condition(&literals, &vec![], 0), Ok((Reply::Done(true), 0)));
    assert_eq!(
        (None, Some(bound("a", 1))).is_match_condition(&literals, &vec![], 0),
        Err(Error::NoAccessSatement())
    );
}

#[test]
fn a_float_literal_asks_for_its_double() {
    let cond = condition("1.5 < basic.ratio");
    let slot = (None, Some(bound("basic.ratio", 2)));
    assert_eq!(
        slot.is_match_condition(&cond, &vec![], 0),
        Ok((Reply::Ask(Request::Float(FloatLiteral { negative: false, int_part: 1, frac_part: 5, frac_digits: 1 })), 0))
    );
    let query = Query { sql: sql_of("basic.ratio"), params: vec![2] };
    assert_eq!(
        slot.is_match_condition(&cond, &vec![Answer::Float(1.5f64.to_bits())], 0),
        Ok((Reply::Ask(Request::Query(query)), 1))
    );
    let answers = vec![
        Answer::Float(1.5f64.to_bits()),
        Answer::Row(Some(Column::Integer(2))),
        Answer::Order(Some(FloatOrder::Less)),
    ];
    assert_eq!(
        slot.is_match_condition(&cond, &answers[..2].iter().map(copy_answer).collect(), 0),
        Ok((Reply::Ask(Request::Order(Number::Float(1.5f64.to_bits()), Number::PosInt(2))), 2))
    );
    assert_eq!(slot.is_match_condition(&cond, &answers, 0), Ok((Reply::Done(true), 3)));
}

fn copy_answer(answer: &Answer) -> Answer {
    match answer {
        Answer::Row(Some(Column::Integer(i))) => Answer::Row(Some(Column::Integer(*i))),
        Answer::Row(Some(Column::Real(bits))) => Answer::Row(Some(Column::Real(*bits))),
        Answer::Row(Some(Column::Text(bytes))) => Answer::Row(Some(Column::Text(bytes.clone()))),
        Answer::Row(Some(Column::Blob(bytes))) => Answer::Row(Some(Column::Blob(bytes.clone()))),
        Answer::Row(Some(Column::Null)) => Answer::Row(Some(Column::Null)),
        Answer::Row(None) => Answer::Row(None),
        Answer::Float(bits) => Answer::Float(*bits),
        Answer::Order(order) => Answer::Order(*order),
    }
}

#[test]
fn the_check_of_pairs_goes_on_after_a_condition_that_does_not_hold() {
    let conditions = || vec![condition("basic.size > 5000"), condition("basic.mime < 1")];
    let tx = Transaction { next_result_id: 1 };
    let mut statements = tx.condition_stmt(&Some(conditions())).unwrap().unwrap();
    statements.set_placeholder(9).unwrap();
    let small = || Answer::Row(Some(Column::Integer(1)));
    assert_eq!(statements.is_match_condition(&conditions(), &vec![small()]), Ok(Reply::Done(false)));
    assert_eq!(
        statements.check_pairs(&conditions(), &vec![small()]),
        Ok(Reply::Ask(Request::Query(Query { sql: sql_of("basic.mime"), params: vec![9] })))
    );
    assert_eq!(
        statements.check_pairs(
            &conditions(),
            &vec![small(), Answer::Row(Some(Column::Text(b"x".to_vec())))]
        ),
        Err(Error::ComparisonErrorTypeMismatch())
    );
    assert_eq!(statements.check_pairs(&conditions(), &vec![small(), small()]), Ok(Reply::Done(())));
    assert_eq!(
        statements.check_pairs(&vec![condition("a == 1")], &vec![]),
        Err(Error::DiffCondAndCondStmt())
    );
}

#[test]
fn the_first_free_id_follows_the_greatest() {
    assert_eq!(Database::resume(None), Some(Database { next_result_id: 1 }));
    assert_eq!(Database::resume(Some(0)), Some(Database { next_result_id: 1 }));
    assert_eq!(Database::resume(Some(41)), Some(Database { next_result_id: 42 }));
    assert_eq!(Database::resume(Some(-7)), Some(Database { next_result_id: -6 }));
    assert_eq!(
        Database::resume(Some(i64::MAX - 1)),
        Some(Database { next_result_id: i64::MAX })
    );
    assert_eq!(Database::resume(Some(i64::MAX)), None);
}

#[test]
fn conditions_hold_when_each_holds() {
    let conditions = vec![condition("basic.size > 5000"), condition("basic.mime == \"x\"")];
    let tx = Transaction { next_result_id: 1 };
    let mut statements = tx.condition_stmt(&Some(conditions)).unwrap().unwrap();
    let conditions = vec![condition("basic.size > 5000"), condition("basic.mime == \"x\"")];
    assert_eq!(statements.cond_stmt_list.len(), 2);
    assert_eq!(statements.is_match_condition(&conditions, &vec![]), Err(Error::BindRequired()));
    statements.set_placeholder(9).unwrap();
    let size = Query { sql: sql_of("basic.size"), params: vec![9] };
    let mime = Query { sql: sql_of("basic.mime"), params: vec![9] };
    assert_eq!(
        statements.is_match_condition(&conditions, &vec![]),
        Ok(Reply::Ask(Request::Query(size)))
    );
    let big = Answer::Row(Some(Column::Integer(9000)));
    assert_eq!(
        statements.is_match_condition(&conditions, &vec![copy_answer(&big)]),
        Ok(Reply::Ask(Request::Query(mime)))
    );
    assert_eq!(
        statements.is_match_condition(&conditions, &vec![Answer::Row(Some(Column::Integer(1)))]),
        Ok(Reply::Done(false))
    );
    assert_eq!(
        statements.is_match_condition(
            &conditions,
            &vec![copy_answer(&big), Answer::Row(Some(Column::Text(b"x".to_vec())))]
        ),
        Ok(Reply::Done(true))
    );
    assert_eq!(
        statements.is_match_condition(
            &conditions,
            &vec![copy_answer(&big), Answer::Row(Some(Column::Text(b"y".to_vec())))]
        ),
        Ok(Reply::Done(false))
    );
    assert_eq!(
        statements.is_match_condition(&conditions[..1].iter().map(|_| condition("a == 1")).collect(), &vec![]),
        Err(Error::DiffCondAndCondStmt())
    );
    let empty = ConditionStatement { cond_stmt_list: vec![] };
    assert_eq!(empty.is_match_condition(&vec![], &vec![]), Ok(Reply::Done(true)));
}

#[test]
fn arguments_are_gathered_under_their_keys() {
    let tx = Transaction { next_result_id: 1 };
    let arguments = Some(vec![parse_argument("basic.mime").unwrap(), parse_argument("basic").unwrap()]);
    let mut statements = tx.argument_stmt(&arguments).unwrap();
    let keys: Vec<&str> = statements.arg_stmt_list.iter().map(|(k, _)| k.as_str()).collect();
    assert_eq!(keys, vec!["filename", "argument1", "argument2"]);
    assert_eq!(statements.get_argument(&vec![]), Err(Error::BindRequired()));
    statements.set_placeholder(3).unwrap();
    assert_eq!(
        statements.get_argument(&vec![]),
        Ok(Reply::Ask(Request::Query(Query {
            sql: "SELECT path FROM result WHERE id = ?1".to_string(),
            params: vec![3]
        })))
    );
    assert_eq!(
        statements.get_argument(&vec![Answer::Row(Some(Column::Text(b"/bin/ls".to_vec())))]),
        Ok(Reply::Ask(Request::Query(Query { sql: sql_of("basic.mime"), params: vec![3] })))
    );
    assert_eq!(
        statements.get_argument(&vec![
            Answer::Row(Some(Column::Text(b"/bin/ls".to_vec()))),
            Answer::Row(None),
            Answer::Row(Some(Column::Integer(5))),
        ]),
        Ok(Reply::Done(Json::Object(vec![
            ("filename".to_string(), text("/bin/ls")),
            ("argument1".to_string(), Json::Null),
            ("argument2".to_string(), whole(5)),
        ])))
    );
    assert_eq!(
        statements.get_argument(&vec![Answer::Order(None)]),
        Err(Error::MismatchedBindType())
    );
    let alone = tx.argument_stmt(&None).unwrap();
    assert_eq!(alone.arg_stmt_list.len(), 1);
    let many = Some((0..12).map(|_| parse_argument("a").unwrap()).collect::<Vec<_>>());
    let keyed = tx.argument_stmt(&many).unwrap();
    assert_eq!(keyed.arg_stmt_list[10].0, "argument10");
    assert_eq!(keyed.arg_stmt_list[12].0, "argument12");
    let failing = Some(vec![parse_argument("a").unwrap(), parse_argument("pathlist.x").unwrap()]);
    assert_eq!(tx.argument_stmt(&failing), Err(Error::PathListDoesNotHaveAcess()));
}

#[test]
fn condition_statements_pair_each_accessor_with_a_statement() {
    let tx = Transaction { next_result_id: 1 };
    assert_eq!(tx.condition_stmt(&None), Ok(None));
    let statements =
        tx.condition_stmt(&Some(vec![condition("a.x == 1"), condition("2 != b"), condition("1 < 2")]));
    let statements = statements.unwrap().unwrap();
    assert_eq!(statements.cond_stmt_list.len(), 3);
    assert!(statements.cond_stmt_list[0].0.is_some() && statements.cond_stmt_list[0].1.is_none());
    assert!(statements.cond_stmt_list[1].0.is_none() && statements.cond_stmt_list[1].1.is_some());
    assert!(statements.cond_stmt_list[2].0.is_none() && statements.cond_stmt_list[2].1.is_none());
    assert_eq!(
        tx.condition_stmt(&Some(vec![condition("a.x == 1"), condition("1 == b[2]")])),
        Err(Error::AnalyzerNameDoesNotHaveAnArray())
    );
    assert_eq!(
        tx.condition_stmt(&Some(vec![condition("path.x == b[2]")])),
        Err(Error::UnimplementedError())
    );
}

#[test]
fn schema_and_insert_statements() {
    let entry = |name: &str| InnerAnalyzer {
        name: name.to_string(),
        extension: "so".to_string(),
        arguments: None,
        dependencies: None,
        conditions: Some("path != \"\"".to_string()),
    };
    let config = Config::load(&vec![entry("basic"), entry("ldd")]).unwrap();
    let mut db = Database::open(1);
    assert_eq!(
        db.create_result_table(),
        Statement {
            sql: "CREATE TABLE result (id INTEGER PRIMARY KEY AUTOINCREMENT, path TEXT)".to_string()
        }
    );
    assert_eq!(
        db.create_analyzer_table(&config),
        vec![
            Statement {
                sql: "CREATE TABLE basic (id INTEGER PRIMARY KEY AUTOINCREMENT, result_id INTEGER, value JSON)".to_string()
            },
            Statement {
                sql: "CREATE TABLE ldd (id INTEGER PRIMARY KEY AUTOINCREMENT, result_id INTEGER, value JSON)".to_string()
            },
        ]
    );
    let mut tx = Transaction::start_transaction(&mut db);
    assert_eq!(tx, Transaction { next_result_id: 1 });
    let insert = tx.insert_stmt(&config);
    assert_eq!(
        insert,
        InsertAnalyerStatement {
            result: Statement { sql: "INSERT INTO result (path) VALUES (?1)".to_string() },
            analyzer: vec![
                (
                    "basic".to_string(),
                    Statement {
                        sql: "INSERT INTO basic (result_id, value) VALUES (?1, ?2)".to_string()
                    }
                ),
                (
                    "ldd".to_string(),
                    Statement {
                        sql: "INSERT INTO ldd (result_id, value) VALUES (?1, ?2)".to_string()
                    }
                ),
            ]
        }
    );
    assert_eq!(
        insert.insert_path("/bin/ls"),
        Execution {
            sql: "INSERT INTO result (path) VALUES (?1)".to_string(),
            params: vec![Param::Text("/bin/ls".to_string())]
        }
    );
    assert_eq!(
        insert.insert_analyzer("ldd", 4, Json::Null),
        Ok(Execution {
            sql: "INSERT INTO ldd (result_id, value) VALUES (?1, ?2)".to_string(),
            params: vec![Param::Integer(4), Param::Json(Json::Null)]
        })
    );
    assert_eq!(insert.insert_analyzer("other", 4, Json::Null), Err(Error::NoAnalyzerName()));
    assert_eq!(tx.next_result_id(), 1);
    assert_eq!(tx.next_result_id(), 2);
    tx.end_transaction(&mut db);
    assert_eq!(db, Database { next_result_id: 3 });

    let tx = db.start_transaction();
    assert_eq!(tx.next_result_id, 3);
    let mut select: SelectAnalyzerStatement = tx.select_stmt(&config).unwrap();
    assert_eq!(select.stmt.len(), 2);
    assert_eq!(select.stmt[0].0, "basic");
    assert_eq!(select.stmt[1].0, "ldd");
    assert!(select.get_stmt("ldd").is_ok());
    assert_eq!(
        select.get_stmt("other").map(|_| ()),
        Err(Error::NotAnalyzerNameInDataBase("other".to_string()))
    );
    let conditions = config.analyzer[0].conditions.as_ref();
    assert_eq!(
        select.process_analyzer_stmt("basic", conditions, &vec![]),
        Err(Error::BindRequired())
    );
    assert_eq!(
        select.process_analyzer_stmt("basic", None, &vec![]),
        Err(Error::DiffCondAndCondStmt())
    );
    assert_eq!(
        select.process_analyzer_stmt("basic", Some(&vec![]), &vec![]),
        Err(Error::DiffCondAndCondStmt())
    );
    assert_eq!(
        select.process_analyzer_stmt("basic", Some(&vec![condition("1 == 1")]), &vec![]),
        Err(Error::NoAccessSatement())
    );
    assert_eq!(
        select.process_analyzer_stmt("nobody", None, &vec![]),
        Err(Error::NotAnalyzerNameInDataBase("nobody".to_string()))
    );
    select.bind(6);
    assert_eq!(
        select.process_analyzer_stmt("basic", conditions, &vec![]),
        Ok(Reply::Ask(Request::Query(Query {
            sql: "SELECT path FROM result WHERE id = ?1".to_string(),
            params: vec![6]
        })))
    );
    assert_eq!(
        select.process_analyzer_stmt(
            "basic",
            conditions,
            &vec![Answer::Row(Some(Column::Text(b"/a".to_vec())))]
        ),
        Ok(Reply::Done(()))
    );
    assert_eq!(
        select.process_analyzer_stmt("basic", conditions, &vec![Answer::Row(None)]),
        Ok(Reply::Done(()))
    );
    assert_eq!(
        select.process_analyzer_stmt("basic", conditions, &vec![Answer::Float(0)]),
        Err(Error::MismatchedBindType())
    );
    let (arguments, conditions) = select.get_stmt("ldd").unwrap();
    assert_eq!(
        arguments.arg_stmt_list[0].1.query(),
        Ok(Query { sql: "SELECT path FROM result WHERE id = ?1".to_string(), params: vec![6] })
    );
    assert_eq!(
        conditions.as_ref().unwrap().cond_stmt_list[0].0.as_ref().unwrap().query(),
        Ok(Query { sql: "SELECT path FROM result WHERE id = ?1".to_string(), params: vec![6] })
    );
    let _unused: ArgumentStatement = ArgumentStatement { arg_stmt_list: vec![] };
}
