//! Accessors as statements with placeholders.

use crate::config::parser::base_parser::same_text;
use crate::config::parser::parser_type::{
    lemma_access_view, paths_view, Access, AccessPath, AccessPathView, AccessView, IndexValue,
    IndexValueView,
};
use crate::database::column::{column_json, decode_column, Column};
use crate::database::error::Error;
use crate::json::Json;
use crate::text::{int_text, push_int};
use vstd::prelude::*;
use vstd::string::*;

verus! {

/// The text of a statement.
pub type Statement = StatementT;

/// The text of a statement, which the store prepares.
#[derive(Debug, PartialEq)]
pub struct StatementT {
    pub sql: String,
}

/// What a placeholder of a statement stands for.
#[derive(Debug, PartialEq, Eq, Clone, Copy)]
pub enum BindType {
    ResultId(i64),
}

/// The placeholders of a statement: still required, or provided with values.
#[derive(Debug, PartialEq)]
pub enum BindRequirement {
    Required(Vec<BindType>),
    Provided(Vec<BindType>),
}

/// An accessor made ready for the store: a statement with its placeholders.
#[derive(Debug, PartialEq)]
pub enum AccessStatement {
    Stmt(Statement, BindRequirement),
    Format(String),
}

/// Mathematical value of an `AccessStatement`.
pub enum AccessStatementView {
    Stmt { sql: Seq<char>, provided: bool, binds: Seq<BindType> },
    Format(Seq<char>),
}

impl View for AccessStatement {
    type V = AccessStatementView;

    open spec fn view(&self) -> AccessStatementView {
        match self {
            AccessStatement::Stmt(s, BindRequirement::Required(b)) => AccessStatementView::Stmt {
                sql: s.sql@,
                provided: false,
                binds: b@,
            },
            AccessStatement::Stmt(s, BindRequirement::Provided(b)) => AccessStatementView::Stmt {
                sql: s.sql@,
                provided: true,
                binds: b@,
            },
            AccessStatement::Format(t) => AccessStatementView::Format(t@),
        }
    }
}

/// A statement with the values of its placeholders: what the store is asked to run.
#[derive(Debug, PartialEq)]
pub struct Query {
    pub sql: String,
    pub params: Vec<i64>,
}

/// The statement after its placeholders were set to `result_id`.
pub open spec fn bound(a: AccessStatementView, result_id: i64) -> AccessStatementView {
    match a {
        AccessStatementView::Stmt { sql, provided, binds } => AccessStatementView::Stmt {
            sql,
            provided: true,
            binds: Seq::new(binds.len(), |i: int| BindType::ResultId(result_id)),
        },
        AccessStatementView::Format(t) => a,
    }
}

/// The values of the placeholders, in order.
pub open spec fn bind_values(binds: Seq<BindType>) -> Seq<i64> {
    Seq::new(
        binds.len(),
        |i: int|
            match binds[i] {
                BindType::ResultId(id) => id,
            },
    )
}

/// The JSON path of the first `n` steps of `path`: `.key` for a key, `[i]` for an integer
/// index. An index that is an accessor has none.
pub open spec fn steps_text(path: Seq<AccessPathView>, n: int) -> Result<Seq<char>, Error>
    decreases n,
{
    if n <= 0 || n > path.len() {
        Ok(Seq::empty())
    } else {
        match steps_text(path, n - 1) {
            Err(e) => Err(e),
            Ok(before) => match path[n - 1] {
                AccessPathView::Key(k) => Ok(before + "."@ + k),
                AccessPathView::Index(IndexValueView::Int(i)) => Ok(
                    before + "["@ + int_text(i as int) + "]"@,
                ),
                AccessPathView::Index(IndexValueView::Access(_)) => Err(
                    Error::JsonArrayDoesNotHaveOtherThanInt(),
                ),
            },
        }
    }
}

/// The JSON path of an accessor on an analyzer; its first step must be a key.
pub open spec fn json_path(path: Option<Seq<AccessPathView>>) -> Result<Seq<char>, Error> {
    match path {
        None => Ok(Seq::empty()),
        Some(p) => if p.len() > 0 && p[0] is Index {
            Err(Error::AnalyzerNameDoesNotHaveAnArray())
        } else {
            steps_text(p, p.len() as int)
        },
    }
}

/// The statement that an accessor compiles to, or why it has none.
///
/// `path` alone is the path of the current result; `pathlist` alone is every path; any
/// other base is taken as the name of an analyzer, whose JSON output for the current
/// result is read at the JSON path of the accessor.
pub open spec fn access_statement(a: AccessView) -> Result<AccessStatementView, Error> {
    if a.base == "path"@ {
        if a.path is None {
            Ok(
                AccessStatementView::Stmt {
                    sql: "SELECT path FROM result WHERE id = ?1"@,
                    provided: false,
                    binds: seq![BindType::ResultId(0)],
                },
            )
        } else {
            Err(Error::UnimplementedError())
        }
    } else if a.base == "pathlist"@ {
        if a.path is None {
            Ok(
                AccessStatementView::Stmt {
                    sql: "SELECT path FROM result"@,
                    provided: false,
                    binds: Seq::empty(),
                },
            )
        } else {
            Err(Error::PathListDoesNotHaveAcess())
        }
    } else {
        match json_path(a.path) {
            Err(e) => Err(e),
            Ok(p) => Ok(
                AccessStatementView::Stmt {
                    sql: "SELECT analyzer.value->>'$"@ + p + "' FROM "@ + a.base
                        + " AS analyzer JOIN result ON analyzer.result_id = result.id WHERE result.id = ?1"@,
                    provided: false,
                    binds: seq![BindType::ResultId(0)],
                },
            ),
        }
    }
}

/// Whether an exec result is the statement, or the error, that `rule` gives.
pub open spec fn statement_agrees(
    result: Result<AccessStatement, Error>,
    rule: Result<AccessStatementView, Error>,
) -> bool {
    match rule {
        Ok(s) => result is Ok && result->Ok_0@ == s,
        Err(e) => result is Err && result->Err_0 == e,
    }
}

impl AccessStatement {
    /// Sets every placeholder to `result_id_for_placeholder`; the statement is provided
    /// from then on.
    pub fn set_placeholder(&mut self, result_id_for_placeholder: i64) -> (result: Result<
        (),
        Error,
    >)
        ensures
            result is Ok,
            final(self)@ == bound(old(self)@, result_id_for_placeholder),
    {
        match self {
            AccessStatement::Stmt(_, bind_req) => {
                let n: usize = match bind_req {
                    BindRequirement::Required(types) => types.len(),
                    BindRequirement::Provided(values) => values.len(),
                };
                let mut values: Vec<BindType> = Vec::new();
                let mut i: usize = 0;
                while i < n
                    invariant
                        0 <= i <= n,
                        values@ == Seq::new(
                            i as nat,
                            |k: int| BindType::ResultId(result_id_for_placeholder),
                        ),
                    decreases n - i,
                {
                    values.push(BindType::ResultId(result_id_for_placeholder));
                    proof {
                        assert(values@ =~= Seq::new(
                            (i + 1) as nat,
                            |k: int| BindType::ResultId(result_id_for_placeholder),
                        ));
                    }
                    i = i + 1;
                }
                *bind_req = BindRequirement::Provided(values);
            },
            AccessStatement::Format(_) => {},
        }
        Ok(())
    }

    /// What to ask the store for the value of the accessor: the statement with the
    /// values of its placeholders. A statement whose placeholders are still required has
    /// no query yet.
    pub fn query(&self) -> (result: Result<Query, Error>)
        ensures
            match self@ {
                AccessStatementView::Stmt { sql, provided, binds } => if provided {
                    result is Ok && result->Ok_0.sql@ == sql && result->Ok_0.params@
                        == bind_values(binds)
                } else {
                    result is Err && result->Err_0 == Error::BindRequired()
                },
                AccessStatementView::Format(_) => result is Err && result->Err_0
                    == Error::UnimplementedError(),
            },
    {
        match self {
            AccessStatement::Stmt(stmt, BindRequirement::Provided(values)) => {
                let mut params: Vec<i64> = Vec::new();
                let mut i: usize = 0;
                while i < values.len()
                    invariant
                        0 <= i <= values@.len(),
                        params@ == bind_values(values@.subrange(0, i as int)),
                    decreases values@.len() - i,
                {
                    match values[i] {
                        BindType::ResultId(id) => {
                            params.push(id);
                        },
                    }
                    proof {
                        assert(params@ =~= bind_values(values@.subrange(0, i + 1)));
                    }
                    i = i + 1;
                }
                proof {
                    assert(values@.subrange(0, values@.len() as int) =~= values@);
                }
                Ok(Query { sql: stmt.sql.clone(), params })
            },
            AccessStatement::Stmt(_, BindRequirement::Required(_)) => Err(Error::BindRequired()),
            AccessStatement::Format(_) => Err(Error::UnimplementedError()),
        }
    }

    /// The JSON value of the accessor, from the first row that the store gave for its
    /// query: none where the store gave no row.
    pub fn to_json(&self, row: &Option<Column>) -> (result: Result<Option<Json>, Error>)
        ensures
            match self@ {
                AccessStatementView::Stmt { sql, provided, binds } => if provided {
                    match *row {
                        Some(column) => result is Ok && result->Ok_0 is Some
                            && result->Ok_0->0@ == column_json(column),
                        None => result is Ok && result->Ok_0 is None,
                    }
                } else {
                    result is Err && result->Err_0 == Error::BindRequired()
                },
                AccessStatementView::Format(_) => result is Err && result->Err_0
                    == Error::UnimplementedError(),
            },
    {
        match self {
            AccessStatement::Stmt(_, BindRequirement::Provided(_)) => match row {
                Some(column) => Ok(Some(decode_column(column))),
                None => Ok(None),
            },
            AccessStatement::Stmt(_, BindRequirement::Required(_)) => Err(Error::BindRequired()),
            AccessStatement::Format(_) => Err(Error::UnimplementedError()),
        }
    }
}

impl Access {
    /// Compiles the accessor to its statement, the placeholders still required.
    pub fn generate_stmt(&self) -> (result: Result<AccessStatement, Error>)
        ensures
            statement_agrees(result, access_statement(self@)),
    {
        proof {
            lemma_access_view(*self);
        }
        if same_text(self.base.as_str(), "path") {
            return match &self.path {
                None => {
                    let mut binds: Vec<BindType> = Vec::new();
                    binds.push(BindType::ResultId(0));
                    proof {
                        assert(binds@ =~= seq![BindType::ResultId(0)]);
                    }
                    Ok(
                        AccessStatement::Stmt(
                            Statement {
                                sql: String::from_str("SELECT path FROM result WHERE id = ?1"),
                            },
                            BindRequirement::Required(binds),
                        ),
                    )
                },
                Some(_) => Err(Error::UnimplementedError()),
            };
        }
        if same_text(self.base.as_str(), "pathlist") {
            return match &self.path {
                None => Ok(
                    AccessStatement::Stmt(
                        Statement { sql: String::from_str("SELECT path FROM result") },
                        BindRequirement::Required(Vec::new()),
                    ),
                ),
                Some(_) => Err(Error::PathListDoesNotHaveAcess()),
            };
        }
        let mut sql: String = String::from_str("SELECT analyzer.value->>'$");
        match &self.path {
            None => {
                proof {
                    assert("SELECT analyzer.value->>'$"@ + Seq::<char>::empty()
                        =~= "SELECT analyzer.value->>'$"@);
                }
            },
            Some(steps) => {
                if steps.len() > 0 {
                    match &steps[0] {
                        AccessPath::Index(_) => {
                            return Err(Error::AnalyzerNameDoesNotHaveAnArray());
                        },
                        AccessPath::Key(_) => {},
                    }
                }
                let ghost path = paths_view(steps@);
                let mut i: usize = 0;
                proof {
                    assert("SELECT analyzer.value->>'$"@ + Seq::<char>::empty()
                        =~= "SELECT analyzer.value->>'$"@);
                }
                while i < steps.len()
                    invariant
                        0 <= i <= steps@.len(),
                        path == paths_view(steps@),
                        self@.base != "path"@,
                        self@.base != "pathlist"@,
                        self@.path == Some(path),
                        path.len() > 0 ==> !(path[0] is Index),
                        steps_text(path, i as int) is Ok,
                        sql@ == "SELECT analyzer.value->>'$"@ + steps_text(path, i as int)->Ok_0,
                    decreases steps@.len() - i,
                {
                    let ghost before = steps_text(path, i as int)->Ok_0;
                    match &steps[i] {
                        AccessPath::Key(key) => {
                            sql.append(".");
                            sql.append(key.as_str());
                            proof {
                                assert(sql@ =~= "SELECT analyzer.value->>'$"@ + (before + "."@
                                    + key@));
                            }
                        },
                        AccessPath::Index(IndexValue::Int(index)) => {
                            sql.append("[");
                            push_int(&mut sql, *index as i64);
                            sql.append("]");
                            proof {
                                assert(sql@ =~= "SELECT analyzer.value->>'$"@ + (before + "["@
                                    + int_text(*index as int) + "]"@));
                            }
                        },
                        AccessPath::Index(IndexValue::Access(_)) => {
                            proof {
                                assert(steps_text(path, i as int + 1) == Err::<Seq<char>, Error>(
                                    Error::JsonArrayDoesNotHaveOtherThanInt(),
                                ));
                                lemma_steps_text_error(path, i as int + 1, path.len() as int);
                            }
                            return Err(Error::JsonArrayDoesNotHaveOtherThanInt());
                        },
                    }
                    i = i + 1;
                }
            },
        }
        sql.append("' FROM ");
        sql.append(self.base.as_str());
        sql.append(
            " AS analyzer JOIN result ON analyzer.result_id = result.id WHERE result.id = ?1",
        );
        let mut binds: Vec<BindType> = Vec::new();
        binds.push(BindType::ResultId(0));
        proof {
            assert(binds@ =~= seq![BindType::ResultId(0)]);
        }
        Ok(AccessStatement::Stmt(Statement { sql }, BindRequirement::Required(binds)))
    }
}

/// An error among the first `n` steps is the error of any longer stretch.
pub proof fn lemma_steps_text_error(path: Seq<AccessPathView>, n: int, m: int)
    requires
        0 <= n <= m <= path.len(),
        steps_text(path, n) is Err,
    ensures
        steps_text(path, m) == steps_text(path, n),
    decreases m - n,
{
    if n < m {
        lemma_steps_text_error(path, n, m - 1);
    }
}

/// The value of an optional statement.
pub open spec fn statement_view(stmt: Option<AccessStatement>) -> Option<AccessStatementView> {
    match stmt {
        Some(s) => Some(s@),
        None => None,
    }
}

/// An optional statement after its placeholders were set to `result_id`.
pub open spec fn bound_option(a: Option<AccessStatementView>, result_id: i64) -> Option<
    AccessStatementView,
> {
    match a {
        Some(s) => Some(bound(s, result_id)),
        None => None,
    }
}

/// Two compilations of one accessor give the same statement with the same placeholders,
/// or the same error.
pub proof fn compilation_is_deterministic(
    first: Access,
    second: Access,
    first_result: Result<AccessStatement, Error>,
    second_result: Result<AccessStatement, Error>,
)
    requires
        first@ == second@,
        statement_agrees(first_result, access_statement(first@)),
        statement_agrees(second_result, access_statement(second@)),
    ensures
        first_result is Ok <==> second_result is Ok,
        first_result is Ok ==> first_result->Ok_0@ == second_result->Ok_0@,
        first_result is Err ==> first_result->Err_0 == second_result->Err_0,
{
}

/// `s` ends with `p`.
pub open spec fn has_suffix(s: Seq<char>, p: Seq<char>) -> bool {
    p.len() <= s.len() && s.subrange(s.len() - p.len(), s.len() as int) == p
}

/// Every statement that an accessor other than `pathlist` compiles to reads the rows of
/// one result only: it has the id of the result as its one placeholder, and its text
/// ends in the restriction to that id.
pub proof fn compiled_accessors_read_one_result(a: AccessView)
    requires
        access_statement(a) is Ok,
        a.base != "pathlist"@,
    ensures
        access_statement(a)->Ok_0 matches AccessStatementView::Stmt { sql, provided, binds }
            && binds == seq![BindType::ResultId(0)] && (has_suffix(sql, "WHERE id = ?1"@)
            || has_suffix(sql, "WHERE result.id = ?1"@)),
{
    reveal_strlit("WHERE id = ?1");
    reveal_strlit("WHERE result.id = ?1");
    reveal_strlit("SELECT path FROM result WHERE id = ?1");
    reveal_strlit(
        " AS analyzer JOIN result ON analyzer.result_id = result.id WHERE result.id = ?1",
    );
    if a.base == "path"@ {
        let sql = "SELECT path FROM result WHERE id = ?1"@;
        assert(sql.subrange(sql.len() - "WHERE id = ?1"@.len(), sql.len() as int)
            =~= "WHERE id = ?1"@);
    } else {
        let sql = access_statement(a)->Ok_0->sql;
        let tail =
            " AS analyzer JOIN result ON analyzer.result_id = result.id WHERE result.id = ?1"@;
        let head = "SELECT analyzer.value->>'$"@ + json_path(a.path)->Ok_0 + "' FROM "@ + a.base;
        assert(sql == head + tail);
        assert(sql.subrange(sql.len() - "WHERE result.id = ?1"@.len(), sql.len() as int)
            =~= "WHERE result.id = ?1"@) by {
            assert(tail.subrange(tail.len() - "WHERE result.id = ?1"@.len(), tail.len() as int)
                =~= "WHERE result.id = ?1"@);
            assert forall|i: int| 0 <= i < tail.len() implies sql[head.len() + i] == tail[i] by {}
        }
    }
}

} // verus!
