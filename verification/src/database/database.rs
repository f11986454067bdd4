//! The statements of a run, and the ids that a transaction gives to paths.

use crate::config::analyzer::{arguments_view, conditions_view, AnalyzerView};
use crate::config::arguments::Argument;
use crate::config::conditions::{Condition, ConditionView};
use crate::config::config::{lemma_names_differ, well_formed, Config};
use crate::config::parser::base_parser::same_text;
use crate::config::parser::parser_type::{lemma_access_view, Access, AccessView, Value, ValueView};
use crate::database::error::Error;
use crate::database::evaluate::{
    bound_keyed, bound_slots, check_agrees, keyed_view, processing, slots_view, Answer,
    ArgumentStatement, ConditionStatement, Reply,
};
use crate::database::statement::{
    access_statement, statement_view, AccessStatement, AccessStatementView, Statement,
};
use crate::json::{Json, JsonView};
use crate::text::{nat_text, push_nat};
use vstd::prelude::*;
use vstd::string::*;

verus! {

/// The statements of every analyzer of a run, each under the name of its analyzer: those
/// of its arguments, and those of its conditions where it has any.
#[derive(Debug, PartialEq)]
pub struct SelectAnalyzerStatement {
    pub stmt: Vec<(String, (ArgumentStatement, Option<ConditionStatement>))>,
}

/// The statements that write: the one that records a path, and for each analyzer the
/// one that records its output, under the name of the analyzer.
#[derive(Debug, PartialEq)]
pub struct InsertAnalyerStatement {
    pub result: Statement,
    pub analyzer: Vec<(String, Statement)>,
}

/// A value for a placeholder of a statement that writes.
#[derive(Debug, PartialEq)]
pub enum Param {
    Integer(i64),
    Text(String),
    Json(Json),
}

/// A statement that writes, with the values of its placeholders.
#[derive(Debug, PartialEq)]
pub struct Execution {
    pub sql: String,
    pub params: Vec<Param>,
}

/// Mathematical value of a `Param`.
pub enum ParamView {
    Integer(i64),
    Text(Seq<char>),
    Json(JsonView),
}

/// Mathematical value of an `Execution`.
pub struct ExecutionView {
    pub sql: Seq<char>,
    pub params: Seq<ParamView>,
}

impl View for Param {
    type V = ParamView;

    open spec fn view(&self) -> ParamView {
        match self {
            Param::Integer(i) => ParamView::Integer(*i),
            Param::Text(t) => ParamView::Text(t@),
            Param::Json(j) => ParamView::Json(j@),
        }
    }
}

impl View for Execution {
    type V = ExecutionView;

    open spec fn view(&self) -> ExecutionView {
        ExecutionView {
            sql: self.sql@,
            params: Seq::new(self.params@.len(), |i: int| self.params@[i]@),
        }
    }
}

/// Mathematical value of the statements of one analyzer.
pub struct AnalyzerStatementsView {
    pub name: Seq<char>,
    pub arguments: Seq<(Seq<char>, AccessStatementView)>,
    pub conditions: Option<Seq<(Option<AccessStatementView>, Option<AccessStatementView>)>>,
}

/// The value of the statements of one analyzer.
pub open spec fn entry_view(
    e: (String, (ArgumentStatement, Option<ConditionStatement>)),
) -> AnalyzerStatementsView {
    AnalyzerStatementsView {
        name: e.0@,
        arguments: e.1.0@,
        conditions: match e.1.1 {
            Some(c) => Some(c@),
            None => None,
        },
    }
}

/// No two of the entries stand under the same name: the search by name finds the one
/// entry of a name, as a map from names would.
pub open spec fn distinct_names<T>(entries: Seq<(String, T)>) -> bool {
    forall|i: int, j: int|
        0 <= i < j < entries.len() ==> (#[trigger] entries[i]).0@ != (#[trigger] entries[j]).0@
}

impl SelectAnalyzerStatement {
    /// The statements are well formed: no two analyzers have the same name.
    pub open spec fn wf(&self) -> bool {
        distinct_names(self.stmt@)
    }
}

impl InsertAnalyerStatement {
    /// The statements are well formed: no two analyzers have the same name.
    pub open spec fn wf(&self) -> bool {
        distinct_names(self.analyzer@)
    }
}

impl View for SelectAnalyzerStatement {
    type V = Seq<AnalyzerStatementsView>;

    open spec fn view(&self) -> Self::V {
        Seq::new(self.stmt@.len(), |i: int| entry_view(self.stmt@[i]))
    }
}

/// The names and the texts of a list of statements.
pub open spec fn named_sql(v: Seq<(String, Statement)>) -> Seq<(Seq<char>, Seq<char>)> {
    Seq::new(v.len(), |i: int| (v[i].0@, v[i].1.sql@))
}

/// The key of the argument at position `i`, counted from 1.
pub open spec fn argument_key(i: nat) -> Seq<char> {
    "argument"@ + nat_text(i)
}

/// The accessor `path`: the path of the current result.
pub open spec fn path_access() -> AccessView {
    AccessView { base: "path"@, path: None }
}

/// The statements of the arguments of an analyzer, the first `n` of them: `filename`,
/// the path of the current result, comes first; then each argument under `argument1`,
/// `argument2` and so on. The first accessor that does not compile gives the error.
pub open spec fn argument_statements(arguments: Seq<AccessView>, n: int) -> Result<
    Seq<(Seq<char>, AccessStatementView)>,
    Error,
>
    decreases n,
{
    if n <= 0 || n > arguments.len() {
        match access_statement(path_access()) {
            Ok(s) => Ok(seq![("filename"@, s)]),
            Err(e) => Err(e),
        }
    } else {
        match argument_statements(arguments, n - 1) {
            Err(e) => Err(e),
            Ok(before) => match access_statement(arguments[n - 1]) {
                Ok(s) => Ok(before.push((argument_key(n as nat), s))),
                Err(e) => Err(e),
            },
        }
    }
}

/// The statement of one side of a condition: none for a literal.
pub open spec fn value_statement(v: ValueView) -> Result<Option<AccessStatementView>, Error> {
    match v {
        ValueView::Literal(_) => Ok(None),
        ValueView::Access(a) => match access_statement(a) {
            Ok(s) => Ok(Some(s)),
            Err(e) => Err(e),
        },
    }
}

/// The statements of the first `n` conditions, the left side of each before the right.
pub open spec fn condition_statements(conditions: Seq<ConditionView>, n: int) -> Result<
    Seq<(Option<AccessStatementView>, Option<AccessStatementView>)>,
    Error,
>
    decreases n,
{
    if n <= 0 || n > conditions.len() {
        Ok(Seq::empty())
    } else {
        match condition_statements(conditions, n - 1) {
            Err(e) => Err(e),
            Ok(before) => match value_statement(conditions[n - 1].left) {
                Err(e) => Err(e),
                Ok(left) => match value_statement(conditions[n - 1].right) {
                    Err(e) => Err(e),
                    Ok(right) => Ok(before.push((left, right))),
                },
            },
        }
    }
}

/// The statements of one analyzer, the arguments compiled before the conditions.
pub open spec fn analyzer_statements(a: AnalyzerView) -> Result<AnalyzerStatementsView, Error> {
    let arguments = match a.arguments {
        Some(list) => argument_statements(list, list.len() as int),
        None => argument_statements(Seq::empty(), 0),
    };
    let conditions = match a.conditions {
        Some(list) => match condition_statements(list, list.len() as int) {
            Ok(c) => Ok(Some(c)),
            Err(e) => Err(e),
        },
        None => Ok(None),
    };
    match arguments {
        Err(e) => Err(e),
        Ok(args) => match conditions {
            Err(e) => Err(e),
            Ok(conds) => Ok(
                AnalyzerStatementsView { name: a.name, arguments: args, conditions: conds },
            ),
        },
    }
}

/// The statements of the first `n` analyzers of a configuration.
pub open spec fn select_statements(analyzers: Seq<AnalyzerView>, n: int) -> Result<
    Seq<AnalyzerStatementsView>,
    Error,
>
    decreases n,
{
    if n <= 0 || n > analyzers.len() {
        Ok(Seq::empty())
    } else {
        match select_statements(analyzers, n - 1) {
            Err(e) => Err(e),
            Ok(before) => match analyzer_statements(analyzers[n - 1]) {
                Ok(s) => Ok(before.push(s)),
                Err(e) => Err(e),
            },
        }
    }
}

/// The text of the statement that records a path.
pub open spec fn insert_result_sql() -> Seq<char> {
    "INSERT INTO result (path) VALUES (?1)"@
}

/// The text of the statement that records an output of the analyzer `name`.
pub open spec fn insert_analyzer_sql(name: Seq<char>) -> Seq<char> {
    "INSERT INTO "@ + name + " (result_id, value) VALUES (?1, ?2)"@
}

/// The text of the statement that creates the table of the paths.
pub open spec fn create_result_sql() -> Seq<char> {
    "CREATE TABLE result (id INTEGER PRIMARY KEY AUTOINCREMENT, path TEXT)"@
}

/// The text of the statement that creates the table of the analyzer `name`.
pub open spec fn create_analyzer_sql(name: Seq<char>) -> Seq<char> {
    "CREATE TABLE "@ + name
        + " (id INTEGER PRIMARY KEY AUTOINCREMENT, result_id INTEGER, value JSON)"@
}

/// Position of the first entry from `i` on that stands under `name`; the number of
/// entries where there is none.
pub open spec fn named_position<T>(entries: Seq<(String, T)>, name: Seq<char>, i: int) -> int
    decreases entries.len() - i,
{
    if i < 0 || i >= entries.len() {
        entries.len() as int
    } else if entries[i].0@ == name {
        i
    } else {
        named_position(entries, name, i + 1)
    }
}

/// The position that the search gives lies at or after its start, and where it lies among
/// the entries, the entry there stands under the name.
pub proof fn lemma_named_position<T>(entries: Seq<(String, T)>, name: Seq<char>, i: int)
    requires
        0 <= i <= entries.len(),
    ensures
        i <= named_position(entries, name, i) <= entries.len(),
        named_position(entries, name, i) < entries.len() ==> entries[named_position(
            entries,
            name,
            i,
        )].0@ == name,
    decreases entries.len() - i,
{
    if i < entries.len() && entries[i].0@ != name {
        lemma_named_position(entries, name, i + 1);
    }
}

/// Position of the first entry that stands under `name`.
pub fn find_named<T>(entries: &Vec<(String, T)>, name: &str) -> (found: Option<usize>)
    ensures
        match found {
            Some(i) => i == named_position(entries@, name@, 0) && i < entries@.len(),
            None => named_position(entries@, name@, 0) == entries@.len(),
        },
{
    let mut i: usize = 0;
    while i < entries.len()
        invariant
            0 <= i <= entries@.len(),
            named_position(entries@, name@, 0) == named_position(entries@, name@, i as int),
        decreases entries@.len() - i,
    {
        if same_text(entries[i].0.as_str(), name) {
            return Some(i);
        }
        i = i + 1;
    }
    None
}

impl SelectAnalyzerStatement {
    /// The statements of the analyzer `analyzer_name`.
    pub fn get_stmt(&self, analyzer_name: &str) -> (result: Result<
        &(ArgumentStatement, Option<ConditionStatement>),
        Error,
    >)
        ensures
            match result {
                Ok(found) => named_position(self.stmt@, analyzer_name@, 0) < self.stmt@.len()
                    && *found == self.stmt@[named_position(self.stmt@, analyzer_name@, 0)].1,
                Err(e) => named_position(self.stmt@, analyzer_name@, 0) == self.stmt@.len() && (
                match e {
                    Error::NotAnalyzerNameInDataBase(name) => name@ == analyzer_name@,
                    _ => false,
                }),
            },
    {
        match find_named(&self.stmt, analyzer_name) {
            Some(i) => Ok(&self.stmt[i].1),
            None => Err(Error::NotAnalyzerNameInDataBase(String::from_str(analyzer_name))),
        }
    }

    /// Checks the conditions of the analyzer `analyzer_name` against the statements
    /// that were prepared for them: as many of each, and every condition evaluated
    /// against its pair, whether those before it hold or not. The result is the request
    /// whose answer the check needs next, or that it passed; the first failure is that
    /// of the check.
    pub fn process_analyzer_stmt(
        &self,
        analyzer_name: &str,
        conditions: Option<&Vec<Condition>>,
        answers: &Vec<Answer>,
    ) -> (result: Result<Reply<()>, Error>)
        ensures
            named_position(self.stmt@, analyzer_name@, 0) == self.stmt@.len() ==> (match result {
                Err(Error::NotAnalyzerNameInDataBase(name)) => name@ == analyzer_name@,
                _ => false,
            }),
            named_position(self.stmt@, analyzer_name@, 0) < self.stmt@.len() ==> check_agrees(
                result,
                processing(
                    match conditions {
                        Some(c) => Some(conditions_view(c@)),
                        None => None,
                    },
                    self@[named_position(self.stmt@, analyzer_name@, 0)].conditions,
                    answers@,
                ),
            ),
    {
        proof {
            lemma_named_position(self.stmt@, analyzer_name@, 0);
        }
        let entry = match self.get_stmt(analyzer_name) {
            Ok(entry) => entry,
            Err(e) => { return Err(e); },
        };
        proof {
            let at = named_position(self.stmt@, analyzer_name@, 0);
            assert(self@[at] == entry_view(self.stmt@[at]));
        }
        match conditions {
            Some(conds) => match &entry.1 {
                Some(stmts) => stmts.check_pairs(conds, answers),
                None => Err(Error::DiffCondAndCondStmt()),
            },
            None => match &entry.1 {
                Some(_) => Err(Error::DiffCondAndCondStmt()),
                None => Ok(Reply::Done(())),
            },
        }
    }

    /// Sets the placeholders of every statement of every analyzer to `result_id`.
    pub fn bind(&mut self, result_id: i64)
        ensures
            final(self)@ == bound_all(old(self)@, result_id),
            old(self).wf() ==> final(self).wf(),
    {
        let ghost before = self@;
        let mut i: usize = 0;
        while i < self.stmt.len()
            invariant
                0 <= i <= self.stmt@.len(),
                self.stmt@.len() == before.len(),
                forall|j: int|
                    #![trigger self.stmt@[j]]
                    0 <= j < i ==> entry_view(self.stmt@[j]) == bound_entry(before[j], result_id),
                forall|j: int|
                    #![trigger self.stmt@[j]]
                    i <= j < before.len() ==> entry_view(self.stmt@[j]) == before[j],
            decreases self.stmt@.len() - i,
        {
            let ghost here = self.stmt@;
            let _ = self.stmt[i].1.0.set_placeholder(result_id);
            match &mut self.stmt[i].1.1 {
                Some(conditions) => {
                    let _ = conditions.set_placeholder(result_id);
                },
                None => {},
            }
            proof {
                assert(self.stmt@.len() == here.len());
                assert(forall|j: int| 0 <= j < here.len() && j != i ==> self.stmt@[j] == here[j]);
                assert(self.stmt@[i as int].0 == here[i as int].0);
            }
            i = i + 1;
        }
        proof {
            assert(self@ =~= bound_all(before, result_id));
            assert forall|j: int| 0 <= j < self.stmt@.len() implies (#[trigger] self.stmt@[j]).0@
                == old(self).stmt@[j].0@ by {
                assert(entry_view(self.stmt@[j]).name == bound_entry(before[j], result_id).name);
                assert(before[j] == entry_view(old(self).stmt@[j]));
            }
        }
    }
}

/// The statements of one analyzer after every placeholder was set to `result_id`.
pub open spec fn bound_entry(e: AnalyzerStatementsView, result_id: i64) -> AnalyzerStatementsView {
    AnalyzerStatementsView {
        name: e.name,
        arguments: bound_keyed(e.arguments, result_id),
        conditions: match e.conditions {
            Some(c) => Some(bound_slots(c, result_id)),
            None => None,
        },
    }
}

/// The statements of every analyzer after every placeholder was set to `result_id`.
pub open spec fn bound_all(all: Seq<AnalyzerStatementsView>, result_id: i64) -> Seq<
    AnalyzerStatementsView,
> {
    Seq::new(all.len(), |i: int| bound_entry(all[i], result_id))
}

impl InsertAnalyerStatement {
    /// What to run to record `path`.
    pub fn insert_path(&self, path: &str) -> (execution: Execution)
        ensures
            execution@ == (ExecutionView {
                sql: self.result.sql@,
                params: seq![ParamView::Text(path@)],
            }),
    {
        let mut params: Vec<Param> = Vec::new();
        params.push(Param::Text(String::from_str(path)));
        let execution = Execution { sql: self.result.sql.clone(), params };
        proof {
            assert(execution@.params =~= seq![ParamView::Text(path@)]);
        }
        execution
    }

    /// What to run to record `value` as the output of the analyzer `analyzer_name` for
    /// the result `result_id`. An analyzer without a statement is refused.
    pub fn insert_analyzer(&self, analyzer_name: &str, result_id: i64, value: Json) -> (result:
        Result<Execution, Error>)
        ensures
            match result {
                Ok(execution) => named_position(self.analyzer@, analyzer_name@, 0)
                    < self.analyzer@.len() && execution@ == (ExecutionView {
                    sql: self.analyzer@[named_position(self.analyzer@, analyzer_name@, 0)].1.sql@,
                    params: seq![ParamView::Integer(result_id), ParamView::Json(value@)],
                }),
                Err(e) => named_position(self.analyzer@, analyzer_name@, 0)
                    == self.analyzer@.len() && e == Error::NoAnalyzerName(),
            },
    {
        match find_named(&self.analyzer, analyzer_name) {
            Some(i) => {
                let mut params: Vec<Param> = Vec::new();
                params.push(Param::Integer(result_id));
                params.push(Param::Json(value));
                let execution = Execution { sql: self.analyzer[i].1.sql.clone(), params };
                proof {
                    assert(execution@.params =~= seq![
                        ParamView::Integer(result_id),
                        ParamView::Json(value@),
                    ]);
                }
                Ok(execution)
            },
            None => Err(Error::NoAnalyzerName()),
        }
    }
}

/// What the library keeps of the open store.
pub type Database = DatabaseT;

/// The writes of one run.
pub type Transaction = TransactionT;

/// What the library keeps of the open store: the id that the next path will get.
#[derive(Debug, PartialEq, Eq, Clone, Copy)]
pub struct DatabaseT {
    pub next_result_id: i64,
}

/// The writes of one run, which the store takes all or none of: the id that the next
/// path will get.
#[derive(Debug, PartialEq, Eq)]
pub struct TransactionT {
    pub next_result_id: i64,
}

/// What is kept of a store whose greatest path id is `greatest`: the id of its next
/// path is 1 where it holds none, and one more than the greatest where that is an id.
pub open spec fn first_free(greatest: Option<i64>) -> Option<DatabaseT> {
    match greatest {
        None => Some(DatabaseT { next_result_id: 1 }),
        Some(id) => if id < i64::MAX {
            Some(DatabaseT { next_result_id: (id + 1) as i64 })
        } else {
            None
        },
    }
}

/// The id that the next path of the transaction gets, and the transaction after it.
pub open spec fn minted(tx: TransactionT) -> (i64, TransactionT) {
    (tx.next_result_id, TransactionT { next_result_id: (tx.next_result_id + 1) as i64 })
}

/// The transaction after `k` paths got their ids.
pub open spec fn after_paths(tx: TransactionT, k: nat) -> TransactionT
    decreases k,
{
    if k == 0 {
        tx
    } else {
        minted(after_paths(tx, (k - 1) as nat)).1
    }
}

/// The ids of a transaction follow the order in which the paths were recorded: the path
/// at position `k`, counted from 0, gets the first id of the transaction plus `k`, so a
/// path that comes later gets the greater id.
pub proof fn result_ids_follow_the_order_of_the_paths(tx: TransactionT, j: nat, k: nat)
    requires
        j <= k,
        tx.next_result_id + k < i64::MAX,
    ensures
        minted(after_paths(tx, k)).0 == tx.next_result_id + k,
        j < k ==> minted(after_paths(tx, j)).0 < minted(after_paths(tx, k)).0,
{
    lemma_id_after_paths(tx, j);
    lemma_id_after_paths(tx, k);
}

/// After `k` paths the next id is the first id plus `k`.
pub proof fn lemma_id_after_paths(tx: TransactionT, k: nat)
    requires
        tx.next_result_id + k < i64::MAX,
    ensures
        after_paths(tx, k).next_result_id == tx.next_result_id + k,
    decreases k,
{
    if k > 0 {
        lemma_id_after_paths(tx, (k - 1) as nat);
    }
}

/// The names of the analyzers with the texts of the statements that record their
/// outputs.
pub open spec fn insert_statements(analyzers: Seq<AnalyzerView>) -> Seq<(Seq<char>, Seq<char>)> {
    Seq::new(analyzers.len(), |i: int| (analyzers[i].name, insert_analyzer_sql(analyzers[i].name)))
}

/// The texts of the statements that create the tables of the analyzers.
pub open spec fn create_statements(analyzers: Seq<AnalyzerView>) -> Seq<Seq<char>> {
    Seq::new(analyzers.len(), |i: int| create_analyzer_sql(analyzers[i].name))
}

/// The texts of a list of statements.
pub open spec fn sql_texts(v: Seq<Statement>) -> Seq<Seq<char>> {
    Seq::new(v.len(), |i: int| v[i].sql@)
}

/// An error among the first `n` arguments is the error of any longer stretch.
pub proof fn lemma_argument_statements_error(arguments: Seq<AccessView>, n: int, m: int)
    requires
        0 <= n <= m <= arguments.len(),
        argument_statements(arguments, n) is Err,
    ensures
        argument_statements(arguments, m) == argument_statements(arguments, n),
    decreases m - n,
{
    if n < m {
        lemma_argument_statements_error(arguments, n, m - 1);
    }
}

/// An error among the first `n` conditions is the error of any longer stretch.
pub proof fn lemma_condition_statements_error(conditions: Seq<ConditionView>, n: int, m: int)
    requires
        0 <= n <= m <= conditions.len(),
        condition_statements(conditions, n) is Err,
    ensures
        condition_statements(conditions, m) == condition_statements(conditions, n),
    decreases m - n,
{
    if n < m {
        lemma_condition_statements_error(conditions, n, m - 1);
    }
}

/// An error among the first `n` analyzers is the error of any longer stretch.
pub proof fn lemma_select_statements_error(analyzers: Seq<AnalyzerView>, n: int, m: int)
    requires
        0 <= n <= m <= analyzers.len(),
        select_statements(analyzers, n) is Err,
    ensures
        select_statements(analyzers, m) == select_statements(analyzers, n),
    decreases m - n,
{
    if n < m {
        lemma_select_statements_error(analyzers, n, m - 1);
    }
}

/// The statement of one side of a condition.
pub fn generate_stmt_condition(value: &Value) -> (result: Result<Option<AccessStatement>, Error>)
    ensures
        match value_statement(value@) {
            Ok(s) => result is Ok && statement_view(result->Ok_0) == s,
            Err(e) => result is Err && result->Err_0 == e,
        },
{
    match value {
        Value::Literal(_) => Ok(None),
        Value::Access(access) => match access.generate_stmt() {
            Ok(s) => Ok(Some(s)),
            Err(e) => Err(e),
        },
    }
}

impl TransactionT {
    /// Opens the transaction of a run.
    pub fn start_transaction(db: &mut Database) -> (tx: Transaction)
        ensures
            tx.next_result_id == old(db).next_result_id,
            *final(db) == *old(db),
    {
        db.start_transaction()
    }

    /// Ends the transaction: the store keeps its writes, and the ids that it gave out
    /// are taken.
    pub fn end_transaction(self, db: &mut Database)
        ensures
            final(db).next_result_id == self.next_result_id,
    {
        db.next_result_id = self.next_result_id;
    }

    /// The id of the next path; the one after it comes next.
    pub fn next_result_id(&mut self) -> (id: i64)
        requires
            old(self).next_result_id < i64::MAX,
        ensures
            (id, *final(self)) == minted(*old(self)),
    {
        let id: i64 = self.next_result_id;
        self.next_result_id = id + 1;
        id
    }

    /// The statement that records a path.
    pub fn create_insert_result_stmt(&self) -> (stmt: Statement)
        ensures
            stmt.sql@ == insert_result_sql(),
    {
        Statement { sql: String::from_str("INSERT INTO result (path) VALUES (?1)") }
    }

    /// For each analyzer, under its name, the statement that records its outputs.
    pub fn create_insert_analyzer_stmt(&self, config: &Config) -> (list: Vec<(String, Statement)>)
        ensures
            named_sql(list@) == insert_statements(config@),
            well_formed(config@) ==> distinct_names(list@),
    {
        let mut list: Vec<(String, Statement)> = Vec::new();
        let mut i: usize = 0;
        while i < config.analyzer.len()
            invariant
                0 <= i <= config.analyzer@.len(),
                list@.len() == i,
                forall|j: int|
                    #![trigger list@[j]]
                    0 <= j < i ==> list@[j].0@ == config.analyzer@[j].name@ && list@[j].1.sql@
                        == insert_analyzer_sql(config.analyzer@[j].name@),
            decreases config.analyzer@.len() - i,
        {
            let mut sql: String = String::from_str("INSERT INTO ");
            sql.append(config.analyzer[i].name.as_str());
            sql.append(" (result_id, value) VALUES (?1, ?2)");
            list.push((config.analyzer[i].name.clone(), Statement { sql }));
            i = i + 1;
        }
        proof {
            assert(named_sql(list@) =~= insert_statements(config@));
            if well_formed(config@) {
                assert forall|a: int, b: int| 0 <= a < b < list@.len() implies (
                #[trigger] list@[a]).0@ != (#[trigger] list@[b]).0@ by {
                    lemma_names_differ(config@, a, b);
                    assert(config@[a] == config.analyzer@[a]@);
                    assert(config@[b] == config.analyzer@[b]@);
                }
            }
        }
        list
    }

    /// The statements that write.
    pub fn insert_stmt(&self, config: &Config) -> (batch: InsertAnalyerStatement)
        ensures
            batch.result.sql@ == insert_result_sql(),
            named_sql(batch.analyzer@) == insert_statements(config@),
            well_formed(config@) ==> batch.wf(),
    {
        InsertAnalyerStatement {
            result: self.create_insert_result_stmt(),
            analyzer: self.create_insert_analyzer_stmt(config),
        }
    }

    /// The statements of the arguments of an analyzer: one more than it has arguments.
    pub fn argument_stmt(&self, opt_arg_list: &Option<Vec<Argument>>) -> (result: Result<
        ArgumentStatement,
        Error,
    >)
        ensures
            match (match *opt_arg_list {
                Some(list) => argument_statements(arguments_view(list@), list@.len() as int),
                None => argument_statements(Seq::empty(), 0),
            }) {
                Ok(stmts) => result is Ok && result->Ok_0@ == stmts,
                Err(e) => result is Err && result->Err_0 == e,
            },
    {
        let mut arg_stmt: Vec<(String, AccessStatement)> = Vec::new();
        let path: Access = Access { base: String::from_str("path"), path: None };
        proof {
            lemma_access_view(path);
        }
        let value_stmt: AccessStatement = match path.generate_stmt() {
            Ok(s) => s,
            Err(e) => {
                proof {
                    assert(access_statement(path_access()) is Ok);
                    assert(false);
                }
                return Err(e);
            },
        };
        arg_stmt.push((String::from_str("filename"), value_stmt));
        proof {
            assert(keyed_view(arg_stmt@) =~= seq![("filename"@, value_stmt@)]);
        }
        match opt_arg_list {
            Some(arg_list) => {
                let mut i: usize = 0;
                while i < arg_list.len()
                    invariant
                        0 <= i <= arg_list@.len(),
                        *opt_arg_list == Some(*arg_list),
                        argument_statements(arguments_view(arg_list@), i as int) == Ok::<
                            Seq<(Seq<char>, AccessStatementView)>,
                            Error,
                        >(keyed_view(arg_stmt@)),
                    decreases arg_list@.len() - i,
                {
                    let ghost before = arg_stmt@;
                    let value_stmt: AccessStatement = match arg_list[i].value.generate_stmt() {
                        Ok(s) => s,
                        Err(e) => {
                            proof {
                                lemma_argument_statements_error(
                                    arguments_view(arg_list@),
                                    i as int + 1,
                                    arg_list@.len() as int,
                                );
                            }
                            return Err(e);
                        },
                    };
                    let mut key: String = String::from_str("argument");
                    push_nat(&mut key, (i + 1) as u64);
                    arg_stmt.push((key, value_stmt));
                    proof {
                        assert(keyed_view(arg_stmt@) =~= keyed_view(before).push(
                            (argument_key((i + 1) as nat), value_stmt@),
                        ));
                    }
                    i = i + 1;
                }
            },
            None => {},
        }
        Ok(ArgumentStatement { arg_stmt_list: arg_stmt })
    }

    /// The statements of the conditions of an analyzer, where it has any: as many as it
    /// has conditions.
    pub fn condition_stmt(&self, opt_vec_cond: &Option<Vec<Condition>>) -> (result: Result<
        Option<ConditionStatement>,
        Error,
    >)
        ensures
            match *opt_vec_cond {
                None => result is Ok && result->Ok_0 is None,
                Some(list) => match condition_statements(
                    conditions_view(list@),
                    list@.len() as int,
                ) {
                    Ok(stmts) => result is Ok && result->Ok_0 is Some && result->Ok_0->0@ == stmts,
                    Err(e) => result is Err && result->Err_0 == e,
                },
            },
    {
        let vec_cond = match opt_vec_cond {
            Some(vec_cond) => vec_cond,
            None => { return Ok(None); },
        };
        let mut cond_stmt: Vec<(Option<AccessStatement>, Option<AccessStatement>)> = Vec::new();
        let mut i: usize = 0;
        proof {
            assert(slots_view(cond_stmt@) =~= Seq::empty());
        }
        while i < vec_cond.len()
            invariant
                0 <= i <= vec_cond@.len(),
                *opt_vec_cond == Some(*vec_cond),
                condition_statements(conditions_view(vec_cond@), i as int) == Ok::<
                    Seq<(Option<AccessStatementView>, Option<AccessStatementView>)>,
                    Error,
                >(slots_view(cond_stmt@)),
            decreases vec_cond@.len() - i,
        {
            let ghost before = cond_stmt@;
            let left = match generate_stmt_condition(&vec_cond[i].left) {
                Ok(s) => s,
                Err(e) => {
                    proof {
                        lemma_condition_statements_error(
                            conditions_view(vec_cond@),
                            i as int + 1,
                            vec_cond@.len() as int,
                        );
                    }
                    return Err(e);
                },
            };
            let right = match generate_stmt_condition(&vec_cond[i].right) {
                Ok(s) => s,
                Err(e) => {
                    proof {
                        lemma_condition_statements_error(
                            conditions_view(vec_cond@),
                            i as int + 1,
                            vec_cond@.len() as int,
                        );
                    }
                    return Err(e);
                },
            };
            let ghost pair = (statement_view(left), statement_view(right));
            cond_stmt.push((left, right));
            proof {
                assert(slots_view(cond_stmt@) =~= slots_view(before).push(pair));
            }
            i = i + 1;
        }
        Ok(Some(ConditionStatement { cond_stmt_list: cond_stmt }))
    }

    /// The statements that read, for every analyzer of the configuration.
    pub fn select_stmt(&self, config: &Config) -> (result: Result<SelectAnalyzerStatement, Error>)
        ensures
            match select_statements(config@, config@.len() as int) {
                Ok(stmts) => result is Ok && result->Ok_0@ == stmts,
                Err(e) => result is Err && result->Err_0 == e,
            },
            well_formed(config@) && result is Ok ==> result->Ok_0.wf(),
    {
        let mut stmt: Vec<(String, (ArgumentStatement, Option<ConditionStatement>))> = Vec::new();
        let mut i: usize = 0;
        while i < config.analyzer.len()
            invariant
                0 <= i <= config.analyzer@.len(),
                stmt@.len() == i,
                select_statements(config@, i as int) is Ok,
                select_statements(config@, i as int)->Ok_0.len() == i,
                forall|j: int|
                    #![trigger stmt@[j]]
                    0 <= j < i ==> entry_view(stmt@[j]) == select_statements(
                        config@,
                        i as int,
                    )->Ok_0[j] && stmt@[j].0@ == config.analyzer@[j].name@,
            decreases config.analyzer@.len() - i,
        {
            proof {
                assert(config@[i as int] == config.analyzer@[i as int]@);
            }
            let arguments = match self.argument_stmt(&config.analyzer[i].arguments) {
                Ok(a) => a,
                Err(e) => {
                    proof {
                        lemma_select_statements_error(
                            config@,
                            i as int + 1,
                            config@.len() as int,
                        );
                    }
                    return Err(e);
                },
            };
            let conditions = match self.condition_stmt(&config.analyzer[i].conditions) {
                Ok(c) => c,
                Err(e) => {
                    proof {
                        lemma_select_statements_error(
                            config@,
                            i as int + 1,
                            config@.len() as int,
                        );
                    }
                    return Err(e);
                },
            };
            stmt.push((config.analyzer[i].name.clone(), (arguments, conditions)));
            i = i + 1;
        }
        let batch = SelectAnalyzerStatement { stmt };
        proof {
            assert(batch@ =~= select_statements(config@, config@.len() as int)->Ok_0);
            if well_formed(config@) {
                assert forall|a: int, b: int| 0 <= a < b < batch.stmt@.len() implies (
                #[trigger] batch.stmt@[a]).0@ != (#[trigger] batch.stmt@[b]).0@ by {
                    lemma_names_differ(config@, a, b);
                    assert(config@[a] == config.analyzer@[a]@);
                    assert(config@[b] == config.analyzer@[b]@);
                }
            }
        }
        Ok(batch)
    }
}

impl DatabaseT {
    /// What the library keeps of a store whose next path will get the id
    /// `next_result_id`; that is 1 for a store without paths.
    pub fn open(next_result_id: i64) -> (db: Database)
        ensures
            db.next_result_id == next_result_id,
    {
        DatabaseT { next_result_id }
    }

    /// What the library keeps of a store whose greatest path id is `greatest`, none
    /// where the store holds no path: the next path gets 1 in a store without paths and
    /// one more than the greatest id in any other. A store whose greatest id is the
    /// greatest `i64` has no id left, and there is nothing to keep of it.
    pub fn resume(greatest: Option<i64>) -> (db: Option<Database>)
        ensures
            db == first_free(greatest),
    {
        match greatest {
            None => Some(DatabaseT { next_result_id: 1 }),
            Some(id) => if id < 0x7fff_ffff_ffff_ffff {
                Some(DatabaseT { next_result_id: id + 1 })
            } else {
                None
            },
        }
    }

    /// Opens the transaction of a run.
    pub fn start_transaction(&mut self) -> (tx: Transaction)
        ensures
            tx.next_result_id == old(self).next_result_id,
            *final(self) == *old(self),
    {
        TransactionT { next_result_id: self.next_result_id }
    }

    /// The statement that creates the table of the paths.
    pub fn create_result_table(&self) -> (stmt: Statement)
        ensures
            stmt.sql@ == create_result_sql(),
    {
        Statement {
            sql: String::from_str(
                "CREATE TABLE result (id INTEGER PRIMARY KEY AUTOINCREMENT, path TEXT)",
            ),
        }
    }

    /// The statements that create the tables of the analyzers, one for each, in order.
    pub fn create_analyzer_table(&self, config: &Config) -> (list: Vec<Statement>)
        ensures
            sql_texts(list@) == create_statements(config@),
    {
        let mut list: Vec<Statement> = Vec::new();
        let mut i: usize = 0;
        while i < config.analyzer.len()
            invariant
                0 <= i <= config.analyzer@.len(),
                list@.len() == i,
                forall|j: int|
                    #![trigger list@[j]]
                    0 <= j < i ==> list@[j].sql@ == create_analyzer_sql(
                        config.analyzer@[j].name@,
                    ),
            decreases config.analyzer@.len() - i,
        {
            let mut sql: String = String::from_str("CREATE TABLE ");
            sql.append(config.analyzer[i].name.as_str());
            sql.append(" (id INTEGER PRIMARY KEY AUTOINCREMENT, result_id INTEGER, value JSON)");
            list.push(Statement { sql });
            i = i + 1;
        }
        proof {
            assert(sql_texts(list@) =~= create_statements(config@));
        }
        list
    }
}

} // verus!
