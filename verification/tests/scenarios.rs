use faaf::config::analyzer::InnerAnalyzer;
use faaf::config::config::Config;
use faaf::config::error::{Error as ConfigError, ExpressionErrorKind};
use faaf::config::parser::parser_type::FloatLiteral;
use faaf::database::column::{Column};
use faaf::database::database::{Database, Execution, Param, Transaction};
use faaf::database::evaluate::{Answer, Request};
use faaf::database::error::Error as DatabaseError;
use faaf::gateway::dispatcher::dispatcher::{
    mechanism, shared_object_path, shell_failure_output, shell_path, Mechanism,
};
use faaf::gateway::dispatcher::error::Error as DispatcherError;
use faaf::gateway::error::Error as StepError;
use faaf::gateway::gateway::{analyze, Action, EntryRun, Event, Stage};
use faaf::gateway::walk::Walk;
use faaf::json::{FloatOrder, Json, Number};
use rusqlite::types::ValueRef;
use rusqlite::Connection;

fn to_serde(json: &Json) -> serde_json::Value {
    match json {
        Json::Null => serde_json::Value::Null,
        Json::Bool(b) => serde_json::Value::Bool(*b),
        Json::Number(Number::PosInt(u)) => serde_json::Value::Number((*u).into()),
        Json::Number(Number::NegInt(i)) => serde_json::Value::Number((*i).into()),
        Json::Number(Number::Float(bits)) => serde_json::Value::Number(
            serde_json::Number::from_f64(f64::from_bits(*bits)).unwrap(),
        ),
        Json::String(s) => serde_json::Value::String(s.clone()),
        Json::Array(items) => serde_json::Value::Array(items.iter().map(to_serde).collect()),
        Json::Object(members) => serde_json::Value::Object(
            members.iter().map(|(k, v)| (k.clone(), to_serde(v))).collect(),
        ),
    }
}

fn from_serde(value: &serde_json::Value) -> Json {
    match value {
        serde_json::Value::Null => Json::Null,
        serde_json::Value::Bool(b) => Json::Bool(*b),
        serde_json::Value::Number(n) => Json::Number(match (n.as_u64(), n.as_i64()) {
            (Some(u), _) => Number::PosInt(u),
            (None, Some(i)) => Number::NegInt(i),
            (None, None) => Number::Float(n.as_f64().unwrap().to_bits()),
        }),
        serde_json::Value::String(s) => Json::String(s.clone()),
        serde_json::Value::Array(items) => Json::Array(items.iter().map(from_serde).collect()),
        serde_json::Value::Object(members) => {
            Json::Object(members.iter().map(|(k, v)| (k.clone(), from_serde(v))).collect())
        }
    }
}

fn parse_json(text: &str) -> Json {
    from_serde(&serde_json::from_str(text).unwrap())
}

fn double_of(literal: FloatLiteral) -> f64 {
    literal.to_text().parse::<f64>().unwrap()
}

fn as_double(number: &Number) -> f64 {
    match number {
        Number::PosInt(u) => *u as f64,
        Number::NegInt(i) => *i as f64,
        Number::Float(bits) => f64::from_bits(*bits),
    }
}

fn answer(conn: &Connection, request: &Request) -> Answer {
    match request {
        Request::Query(query) => {
            let mut statement = conn.prepare_cached(&query.sql).unwrap();
            let mut rows = statement.query(rusqlite::params_from_iter(query.params.iter())).unwrap();
            Answer::Row(match rows.next().unwrap() {
                None => None,
                Some(row) => Some(match row.get_ref(0).unwrap() {
                    ValueRef::Null => Column::Null,
                    ValueRef::Integer(i) => Column::Integer(i),
                    ValueRef::Real(f) => Column::Real(f.to_bits()),
                    ValueRef::Text(bytes) => Column::Text(bytes.to_vec()),
                    ValueRef::Blob(bytes) => Column::Blob(bytes.to_vec()),
                }),
            })
        }
        Request::Float(literal) => Answer::Float(double_of(*literal).to_bits()),
        Request::Order(left, right) => {
            Answer::Order(match as_double(left).partial_cmp(&as_double(right)) {
                Some(std::cmp::Ordering::Less) => Some(FloatOrder::Less),
                Some(std::cmp::Ordering::Equal) => Some(FloatOrder::Equal),
                Some(std::cmp::Ordering::Greater) => Some(FloatOrder::Greater),
                None => None,
            })
        }
    }
}

fn execute(conn: &Connection, execution: &Execution) -> i64 {
    let params: Vec<rusqlite::types::Value> = execution
        .params
        .iter()
        .map(|p| match p {
            Param::Integer(i) => rusqlite::types::Value::Integer(*i),
            Param::Text(t) => rusqlite::types::Value::Text(t.clone()),
            Param::Json(j) => rusqlite::types::Value::Text(to_serde(j).to_string()),
        })
        .collect();
    conn.execute(&execution.sql, rusqlite::params_from_iter(params.iter())).unwrap();
    conn.last_insert_rowid()
}

#[derive(Debug, PartialEq)]
enum Error {
    Config(ConfigError),
    Database(DatabaseError),
    Step(StepError),
}

fn use_dispatcher() {
    assert_eq!(mechanism("py"), Ok(Mechanism::Python));
    assert_eq!(mechanism("so"), Ok(Mechanism::SharedObject));
    assert_eq!(mechanism("sh"), Ok(Mechanism::Shell));
    assert_eq!(mechanism("exe"), Err(DispatcherError::UndefinedExtensionError()));
    assert_eq!(mechanism(""), Err(DispatcherError::UndefinedExtensionError()));
    assert_eq!(mechanism("PY"), Err(DispatcherError::UndefinedExtensionError()));
    assert_eq!(shared_object_path("/scripts", "basic"), "/scripts/libbasic.so");
    assert_eq!(shell_path("/scripts", "basic"), "/scripts/basic.sh");
    assert_eq!(shell_failure_output("not found"), "{ \"error\": \"not found\" } ");
}

struct Run {
    conn: Connection,
    dispatched: Vec<(String, String)>,
    arguments: Vec<Json>,
}

fn run(
    entries: &[InnerAnalyzer],
    paths: &[&str],
    stub: &dyn Fn(&str, &Json) -> Json,
) -> Result<Run, Error> {
    let config = Config::load(&entries.iter().map(copy_entry).collect())
        .map_err(Error::Config)?;
    let conn = Connection::open_in_memory().unwrap();
    let mut db = Database::open(1);
    conn.execute(&db.create_result_table().sql, ()).unwrap();
    for statement in db.create_analyzer_table(&config) {
        conn.execute(&statement.sql, ()).unwrap();
    }
    let mut tx = Transaction::start_transaction(&mut db);
    let insert = tx.insert_stmt(&config);
    let mut select = tx.select_stmt(&config).map_err(Error::Database)?;
    let mut dispatched = Vec::new();
    let mut arguments = Vec::new();
    for path in paths {
        let absolute = format!("/firmware{}", path);
        let (mut entry, record) = EntryRun::begin(&mut tx, &mut select, &insert, path, &absolute);
        let mut event = Event::Recorded(execute(&conn, &record));
        loop {
            let action =
                analyze(&config, &select, &insert, &mut entry, event).map_err(Error::Step)?;
            event = match action {
                Action::Ask(request) => Event::Answer(answer(&conn, &request)),
                Action::Dispatch { analyzer, args } => {
                    let name = config.analyzer[analyzer].name.clone();
                    dispatched.push((name.clone(), path.to_string()));
                    let output = stub(&name, &args);
                    arguments.push(args);
                    Event::Output(output)
                }
                Action::Insert(execution) => {
                    execute(&conn, &execution);
                    Event::Inserted
                }
                Action::Finished => break,
            };
        }
    }
    tx.end_transaction(&mut db);
    assert_eq!(db.next_result_id, 1 + paths.len() as i64);
    Ok(Run { conn, dispatched, arguments })
}

fn copy_entry(entry: &InnerAnalyzer) -> InnerAnalyzer {
    InnerAnalyzer {
        name: entry.name.clone(),
        extension: entry.extension.clone(),
        arguments: entry.arguments.clone(),
        dependencies: entry.dependencies.clone(),
        conditions: entry.conditions.clone(),
    }
}

fn analyzer(name: &str, arguments: &[&str], conditions: Option<&str>) -> InnerAnalyzer {
    InnerAnalyzer {
        name: name.to_string(),
        extension: "so".to_string(),
        arguments: if arguments.is_empty() {
            None
        } else {
            Some(arguments.iter().map(|a| a.to_string()).collect())
        },
        dependencies: None,
        conditions: conditions.map(|c| c.to_string()),
    }
}

fn rows(conn: &Connection, sql: &str) -> Vec<(i64, String)> {
    let mut statement = conn.prepare(sql).unwrap();
    let found = statement
        .query_map((), |row| Ok((row.get::<_, i64>(0)?, row.get::<_, String>(1)?)))
        .unwrap();
    found.map(|r| r.unwrap()).collect()
}

fn tables(conn: &Connection) -> Vec<String> {
    let mut statement = conn
        .prepare("SELECT name FROM sqlite_master WHERE type = 'table' AND name NOT LIKE 'sqlite_%' ORDER BY name")
        .unwrap();
    let found = statement.query_map((), |row| row.get::<_, String>(0)).unwrap();
    found.map(|r| r.unwrap()).collect()
}

fn file_name(args: &Json) -> String {
    match args {
        Json::Object(members) => members
            .iter()
            .find(|(k, _)| k == "filename")
            .map(|(_, v)| match v {
                Json::String(s) => s.rsplit('/').next().unwrap().to_string(),
                _ => panic!("filename is no string"),
            })
            .unwrap(),
        _ => panic!("arguments are no object"),
    }
}

#[test]
fn a_root_with_three_files_gives_four_rows_in_the_order_of_the_walk() {
    let mut walk = Walk::start("/".to_string());
    let mut paths: Vec<String> = Vec::new();
    while let Some(entry) = walk.next() {
        if entry == "/" {
            walk.listed(vec!["/f1".to_string(), "/f2".to_string(), "/f3".to_string()]);
        }
        paths.push(entry);
    }
    let borrowed: Vec<&str> = paths.iter().map(|p| p.as_str()).collect();
    let done = run(&[], &borrowed, &|_, _| panic!("dispatched")).unwrap();
    assert_eq!(
        rows(&done.conn, "SELECT id, path FROM result ORDER BY id"),
        vec![
            (1, "/".to_string()),
            (2, "/f1".to_string()),
            (3, "/f2".to_string()),
            (4, "/f3".to_string())
        ]
    );
    assert_eq!(tables(&done.conn), vec!["result".to_string()]);
    assert!(done.dispatched.is_empty());
}

#[test]
fn empty_config_records_the_paths_only() {
    let done = run(&[], &["/", "/a", "/b", "/c"], &|_, _| panic!("dispatched")).unwrap();
    assert_eq!(
        rows(&done.conn, "SELECT id, path FROM result ORDER BY id"),
        vec![
            (1, "/".to_string()),
            (2, "/a".to_string()),
            (3, "/b".to_string()),
            (4, "/c".to_string())
        ]
    );
    assert_eq!(tables(&done.conn), vec!["result".to_string()]);
    assert!(done.dispatched.is_empty());
}

#[test]
fn unconditional_analyzer_runs_on_every_entry() {
    let paths = ["/", "/a", "/b", "/c"];
    let done =
        run(&[analyzer("basic", &[], None)], &paths, &|_, _| parse_json(r#"{"mime":"x"}"#)).unwrap();
    let results = rows(&done.conn, "SELECT id, path FROM result ORDER BY id");
    let outputs = rows(&done.conn, "SELECT result_id, value FROM basic ORDER BY id");
    assert_eq!(results.len(), 4);
    assert_eq!(outputs.len(), results.len());
    for (i, (result_id, value)) in outputs.iter().enumerate() {
        assert_eq!(*result_id, results[i].0);
        assert_eq!(parse_json(value), parse_json(r#"{"mime":"x"}"#));
    }
    assert_eq!(
        done.dispatched,
        paths.iter().map(|p| ("basic".to_string(), p.to_string())).collect::<Vec<_>>()
    );
    assert_eq!(
        done.arguments[1],
        Json::Object(vec![
            ("filename".to_string(), Json::String("/a".to_string())),
            ("relative_path".to_string(), Json::String("/a".to_string())),
            ("absolute_path".to_string(), Json::String("/firmware/a".to_string())),
        ])
    );
}

#[test]
fn empty_condition_text_counts_as_no_conditions() {
    let done = run(&[analyzer("basic", &[], Some("\n  \n"))], &["/", "/a"], &|_, _| Json::Null)
        .unwrap();
    assert_eq!(done.dispatched.len(), 2);
}

#[test]
fn dependent_condition_runs_on_matching_entries_only() {
    let stub = |name: &str, args: &Json| {
        if name == "basic" {
            if file_name(args).starts_with("exec_") {
                parse_json(r#"{"mime":"application/x-pie-executable"}"#)
            } else {
                parse_json(r#"{"mime":"text/plain"}"#)
            }
        } else {
            parse_json(r#"{"libs":[]}"#)
        }
    };
    let config = [
        analyzer("basic", &[], None),
        analyzer("ldd", &["basic.mime"], Some("basic.mime == \"application/x-pie-executable\"")),
    ];
    let paths = ["/", "/exec_a", "/notes.txt", "/bin", "/bin/exec_b"];
    let done = run(&config, &paths, &stub).unwrap();
    let ldd: Vec<String> = done
        .dispatched
        .iter()
        .filter(|(name, _)| name == "ldd")
        .map(|(_, path)| path.clone())
        .collect();
    assert_eq!(ldd, vec!["/exec_a".to_string(), "/bin/exec_b".to_string()]);
    assert_eq!(
        rows(&done.conn, "SELECT result_id, value FROM ldd ORDER BY id")
            .iter()
            .map(|r| r.0)
            .collect::<Vec<_>>(),
        vec![2, 5]
    );
    assert_eq!(rows(&done.conn, "SELECT result_id, value FROM basic").len(), 5);
    let ldd_arguments: Vec<&Json> = done
        .arguments
        .iter()
        .filter(|a| matches!(a, Json::Object(m) if m.iter().any(|(k, _)| k == "argument1")))
        .collect();
    assert_eq!(
        *ldd_arguments[0],
        Json::Object(vec![
            ("filename".to_string(), Json::String("/exec_a".to_string())),
            ("argument1".to_string(), Json::String("application/x-pie-executable".to_string())),
            ("relative_path".to_string(), Json::String("/exec_a".to_string())),
            ("absolute_path".to_string(), Json::String("/firmware/exec_a".to_string())),
        ])
    );
}

#[test]
fn size_comparison_passes_for_the_large_file_only() {
    let stub = |name: &str, args: &Json| {
        if name == "basic" {
            if file_name(args) == "large" {
                parse_json(r#"{"size":10000}"#)
            } else {
                parse_json(r#"{"size":100}"#)
            }
        } else {
            Json::Null
        }
    };
    let config = [analyzer("basic", &[], None), analyzer("big", &[], Some("basic.size > 5000"))];
    let done = run(&config, &["/large", "/small"], &stub).unwrap();
    assert_eq!(
        done.dispatched,
        vec![
            ("basic".to_string(), "/large".to_string()),
            ("big".to_string(), "/large".to_string()),
            ("basic".to_string(), "/small".to_string()),
        ]
    );
    let mismatch = run(&config, &["/odd"], &|_, _| parse_json(r#"{"size":"big"}"#));
    assert_eq!(
        mismatch.map(|_| ()),
        Err(Error::Step(StepError::DatabaseError(DatabaseError::ComparisonErrorTypeMismatch())))
    );
}

#[test]
fn comparisons_with_doubles_go_through_the_float_requests() {
    let stub = |name: &str, args: &Json| {
        if name == "basic" {
            match file_name(args).as_str() {
                "half" => parse_json(r#"{"ratio":0.5,"size":18446744073709551615}"#),
                "two" => parse_json(r#"{"ratio":2,"size":3}"#),
                _ => parse_json(r#"{"ratio":1.5,"size":1.0e30}"#),
            }
        } else {
            Json::Null
        }
    };
    let config = [
        analyzer("basic", &[], None),
        analyzer("above", &[], Some("basic.ratio >= 1.5")),
        analyzer("same", &[], Some("basic.ratio == 1.5")),
        analyzer("huge", &[], Some("basic.size > 1000")),
    ];
    let done = run(&config, &["/half", "/two", "/exact"], &stub).unwrap();
    let of = |name: &str| {
        done.dispatched
            .iter()
            .filter(|(n, _)| n == name)
            .map(|(_, p)| p.clone())
            .collect::<Vec<_>>()
    };
    assert_eq!(of("above"), vec!["/two".to_string(), "/exact".to_string()]);
    assert_eq!(of("same"), vec!["/exact".to_string()]);
    assert_eq!(of("huge"), vec!["/half".to_string(), "/exact".to_string()]);
}

#[test]
fn missing_predecessor_row_makes_the_condition_false() {
    let config = [
        analyzer("a", &[], Some("path == \"never\"")),
        analyzer("b", &[], Some("a.foo == 1")),
        analyzer("c", &["a.foo"], Some("a.foo != 1\n1 == 1")),
    ];
    let done = run(&config, &["/", "/x"], &|_, _| parse_json(r#"{"foo":1}"#)).unwrap();
    assert!(done.dispatched.is_empty());
    assert!(rows(&done.conn, "SELECT result_id, value FROM b").is_empty());
    let config = [analyzer("a", &[], Some("path == \"never\"")), analyzer("c", &["a.foo"], None)];
    let done = run(&config, &["/x"], &|_, _| Json::Null).unwrap();
    assert_eq!(done.dispatched, vec![("c".to_string(), "/x".to_string())]);
    assert_eq!(
        done.arguments[0],
        Json::Object(vec![
            ("filename".to_string(), Json::String("/x".to_string())),
            ("argument1".to_string(), Json::Null),
            ("relative_path".to_string(), Json::String("/x".to_string())),
            ("absolute_path".to_string(), Json::String("/firmware/x".to_string())),
        ])
    );
}

#[test]
fn parser_failure_at_load_starts_nothing() {
    let config = [analyzer("basic", &[], None), analyzer("ldd", &[], Some("a =="))];
    match run(&config, &["/"], &|_, _| panic!("dispatched")) {
        Err(Error::Config(ConfigError::ExpressionParse(e))) => {
            assert_eq!(e.analyzer, "ldd");
            assert_eq!(e.line, "a ==");
            assert_eq!(e.kind, ExpressionErrorKind::Syntax);
        }
        _ => panic!("the configuration was not refused"),
    }
}

#[test]
fn compile_failure_surfaces_before_any_entry() {
    let config = [analyzer("basic", &["pathlist.foo"], None)];
    assert_eq!(
        run(&config, &["/"], &|_, _| panic!("dispatched")).map(|_| ()),
        Err(Error::Database(DatabaseError::PathListDoesNotHaveAcess()))
    );
}

#[test]
fn accessors_read_the_rows_of_the_current_entry_only() {
    let stub = |name: &str, args: &Json| {
        if name == "basic" {
            parse_json(&format!(r#"{{"name":"{}","list":[1,[2,3]],"blob":null}}"#, file_name(args)))
        } else {
            Json::Null
        }
    };
    let config = [
        analyzer("basic", &[], None),
        analyzer("probe", &["basic.name", "basic.list[1][0]", "basic", "path"], Some(
            "basic.name == \"b\"\n\"object\" != basic.name and\nbasic.list[0] <= basic.list[1][1]\nbasic.blob == null\n\"a\" in basic.name\n",
        )),
    ];
    let done = run(&config, &["/a", "/b", "/ab"], &stub);
    let done = done.unwrap();
    let check: Vec<&(String, String)> =
        done.dispatched.iter().filter(|(n, _)| n == "probe").collect();
    assert_eq!(check, Vec::<&(String, String)>::new());
    let config = [
        analyzer("basic", &[], None),
        analyzer("probe", &["basic.name", "basic.list[1][0]", "path"], Some(
            "basic.name == \"b\"\nbasic.list[0] <= basic.list[1][1]\nbasic.blob == null\nbasic.name in \"b\"\n",
        )),
    ];
    let done = run(&config, &["/a", "/b", "/ab"], &stub).unwrap();
    let check: Vec<String> = done
        .dispatched
        .iter()
        .filter(|(n, _)| n == "probe")
        .map(|(_, p)| p.clone())
        .collect();
    assert_eq!(check, vec!["/b".to_string()]);
    let arguments = done
        .arguments
        .iter()
        .find(|a| matches!(a, Json::Object(m) if m.iter().any(|(k, _)| k == "argument3")))
        .unwrap();
    assert_eq!(
        *arguments,
        Json::Object(vec![
            ("filename".to_string(), Json::String("/b".to_string())),
            ("argument1".to_string(), Json::String("b".to_string())),
            ("argument2".to_string(), Json::Number(Number::PosInt(2))),
            ("argument3".to_string(), Json::String("/b".to_string())),
            ("relative_path".to_string(), Json::String("/b".to_string())),
            ("absolute_path".to_string(), Json::String("/firmware/b".to_string())),
        ])
    );
}

#[test]
fn the_step_refuses_what_it_does_not_wait_for() {
    let config = Config::load(&vec![analyzer("basic", &[], None)]).unwrap();
    let mut tx = Transaction { next_result_id: 5 };
    let insert = tx.insert_stmt(&config);
    let mut select = tx.select_stmt(&config).unwrap();
    let (mut entry, record) = EntryRun::begin(&mut tx, &mut select, &insert, "/a", "/root/a");
    assert_eq!(tx.next_result_id, 6);
    assert_eq!(entry.result_id, 5);
    assert_eq!(entry.stage, Stage::Path);
    assert_eq!(record, insert.insert_path("/a"));
    let refused = Err(StepError::DatabaseError(DatabaseError::MismatchedBindType()));
    assert_eq!(analyze(&config, &select, &insert, &mut entry, Event::Inserted), refused);
    assert_eq!(analyze(&config, &select, &insert, &mut entry, Event::Recorded(4)), refused);
    assert_eq!(analyze(&config, &select, &insert, &mut entry, Event::Output(Json::Null)), refused);
    let first = analyze(&config, &select, &insert, &mut entry, Event::Recorded(5)).unwrap();
    assert!(matches!(first, Action::Ask(Request::Query(_))));
    assert_eq!(entry.stage, Stage::Arguments);
    assert_eq!(analyze(&config, &select, &insert, &mut entry, Event::Inserted), refused);
    let second = analyze(
        &config,
        &select,
        &insert,
        &mut entry,
        Event::Answer(Answer::Row(Some(Column::Text(b"/a".to_vec())))),
    )
    .unwrap();
    assert_eq!(
        second,
        Action::Dispatch {
            analyzer: 0,
            args: Json::Object(vec![
                ("filename".to_string(), Json::String("/a".to_string())),
                ("relative_path".to_string(), Json::String("/a".to_string())),
                ("absolute_path".to_string(), Json::String("/root/a".to_string())),
            ])
        }
    );
    assert_eq!(entry.stage, Stage::Dispatched);
    assert_eq!(analyze(&config, &select, &insert, &mut entry, Event::Inserted), refused);
    let third = analyze(&config, &select, &insert, &mut entry, Event::Output(Json::Bool(true)));
    assert_eq!(third, Ok(Action::Insert(insert.insert_analyzer("basic", 5, Json::Bool(true)).unwrap())));
    assert_eq!(entry.stage, Stage::Inserting);
    assert_eq!(analyze(&config, &select, &insert, &mut entry, Event::Output(Json::Null)), refused);
    assert_eq!(
        analyze(&config, &select, &insert, &mut entry, Event::Inserted),
        Ok(Action::Finished)
    );
    assert_eq!(entry.analyzer, 1);
    assert_eq!(analyze(&config, &select, &insert, &mut entry, Event::Inserted), refused);
}

#[test]
fn statements_of_another_configuration_are_refused() {
    let with = Config::load(&vec![analyzer("basic", &[], Some("path != \"\""))]).unwrap();
    let without = Config::load(&vec![analyzer("basic", &[], None)]).unwrap();
    let other = Config::load(&vec![analyzer("other", &[], None)]).unwrap();
    for (config, statements) in [(&with, &without), (&without, &with)] {
        let mut tx = Transaction { next_result_id: 1 };
        let insert = tx.insert_stmt(config);
        let mut select = tx.select_stmt(statements).unwrap();
        let (mut entry, _) = EntryRun::begin(&mut tx, &mut select, &insert, "/a", "/a");
        assert_eq!(
            analyze(config, &select, &insert, &mut entry, Event::Recorded(1)),
            Err(StepError::DiffCondAndCondStmt())
        );
    }
    let mut tx = Transaction { next_result_id: 1 };
    let insert = tx.insert_stmt(&other);
    let mut select = tx.select_stmt(&other).unwrap();
    let (mut entry, _) = EntryRun::begin(&mut tx, &mut select, &insert, "/a", "/a");
    assert_eq!(
        analyze(&without, &select, &insert, &mut entry, Event::Recorded(1)),
        Err(StepError::DatabaseError(DatabaseError::NotAnalyzerNameInDataBase(
            "basic".to_string()
        )))
    );
    let mut select = tx.select_stmt(&without).unwrap();
    let (mut entry, _) = EntryRun::begin(&mut tx, &mut select, &insert, "/a", "/a");
    let mut event = Event::Recorded(2);
    let refused = loop {
        match analyze(&without, &select, &insert, &mut entry, event) {
            Ok(Action::Ask(_)) => {
                event = Event::Answer(Answer::Row(Some(Column::Text(b"/a".to_vec()))))
            }
            Ok(Action::Dispatch { .. }) => event = Event::Output(Json::Null),
            other => break other,
        }
    };
    assert_eq!(refused, Err(StepError::DatabaseError(DatabaseError::NoAnalyzerName())));
}

#[test]
fn extensions_name_the_way_of_running() {
    use_dispatcher();
}
