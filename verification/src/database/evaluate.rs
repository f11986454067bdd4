//! The evaluation of conditions and the gathering of arguments, from the answers of
//! the program around the library.

use crate::config::analyzer::conditions_view;
use crate::config::conditions::{Condition, ConditionView};
use crate::config::parser::parser_type::{
    FloatLiteral, FloatLiteralView, LiteralValue, LiteralView, Operator, Value, ValueView,
};
use crate::database::column::{column_json, decode_column, lemma_column_json_is_ok, Column};
use crate::database::compare::{comparison, float_order_needed, json_compare, needs_float_order};
use crate::database::error::Error;
use crate::database::statement::{
    bind_values, bound, bound_option, statement_view, AccessStatement, AccessStatementView,
    Query,
};
use crate::json::{
    finite_bits, inserted, is_finite_bits, json_ok, lemma_inserted_is_ok, lemma_object_view,
    members_view, object_insert, FloatOrder, Json, JsonView, Number,
};
use vstd::prelude::*;
use vstd::string::*;

verus! {

/// What the library asks of the program around it while it evaluates.
#[derive(Debug, PartialEq)]
pub enum Request {
    /// Run the query and hand back the first column of its first row.
    Query(Query),
    /// Hand back the bits of the double that the literal denotes.
    Float(FloatLiteral),
    /// Hand back how the two numbers order as doubles.
    Order(Number, Number),
}

/// Mathematical value of a `Request`.
pub enum RequestView {
    Query { sql: Seq<char>, params: Seq<i64> },
    Float(FloatLiteralView),
    Order(Number, Number),
}

impl View for Request {
    type V = RequestView;

    open spec fn view(&self) -> RequestView {
        match self {
            Request::Query(q) => RequestView::Query { sql: q.sql@, params: q.params@ },
            Request::Float(f) => RequestView::Float(f@),
            Request::Order(l, r) => RequestView::Order(*l, *r),
        }
    }
}

/// What the program around the library hands back for a `Request` of the same name.
#[derive(Debug, PartialEq)]
pub enum Answer {
    /// The first column of the first row, or none where the query gave no row.
    Row(Option<Column>),
    /// The bits of the double.
    Float(u64),
    /// The order of the two numbers, or none where they have no order.
    Order(Option<FloatOrder>),
}

/// Where an evaluation stands: it needs an answer first, or it is done.
#[derive(Debug, PartialEq)]
pub enum Reply<T> {
    Ask(Request),
    Done(T),
}

/// Where an evaluation stands after the answers it was given: it needs one more, it is
/// done with a value after reading the answers before `next`, or it failed.
pub enum Progress<V> {
    Ask(RequestView),
    Done { value: V, next: int },
    Failed(Error),
}

/// The JSON value of a literal; `bits` are those of the double that a float literal
/// denotes, and a double that is not finite counts as 0.
pub open spec fn literal_json(l: LiteralView, bits: u64) -> JsonView {
    match l {
        LiteralView::Int(i) => JsonView::Number(
            if i < 0 {
                Number::NegInt(i as i64)
            } else {
                Number::PosInt(i as u64)
            },
        ),
        LiteralView::Float(_) => if is_finite_bits(bits) {
            JsonView::Number(Number::Float(bits))
        } else {
            JsonView::Number(Number::PosInt(0))
        },
        LiteralView::String(s) => JsonView::String(s),
        LiteralView::Bool(b) => JsonView::Bool(b),
        LiteralView::Null => JsonView::Null,
    }
}

/// What one side of a condition needs before it has a value: a float literal needs its
/// double, an accessor the row of its query, any other literal nothing. A literal paired
/// with a statement, or an accessor with none, is refused.
pub open spec fn side_need(value: ValueView, stmt: Option<AccessStatementView>) -> Result<
    Option<RequestView>,
    Error,
> {
    match value {
        ValueView::Literal(l) => match stmt {
            Some(_) => Err(Error::NoAccessSatement()),
            None => Ok(
                match l {
                    LiteralView::Float(f) => Some(RequestView::Float(f)),
                    _ => None,
                },
            ),
        },
        ValueView::Access(_) => match stmt {
            None => Err(Error::NoAccessSatement()),
            Some(AccessStatementView::Stmt { sql, provided, binds }) => if provided {
                Ok(Some(RequestView::Query { sql, params: bind_values(binds) }))
            } else {
                Err(Error::BindRequired())
            },
            Some(AccessStatementView::Format(_)) => Err(Error::UnimplementedError()),
        },
    }
}

/// The JSON value of one side of a condition, `answer` being what came back for its
/// need: none where the query of an accessor gave no row. An answer of another name
/// than the need is refused.
pub open spec fn side_value(value: ValueView, answer: Option<Answer>) -> Result<
    Option<JsonView>,
    Error,
> {
    match value {
        ValueView::Literal(LiteralView::Float(f)) => match answer {
            Some(Answer::Float(bits)) => Ok(Some(literal_json(LiteralView::Float(f), bits))),
            _ => Err(Error::MismatchedBindType()),
        },
        ValueView::Literal(l) => Ok(Some(literal_json(l, 0))),
        ValueView::Access(_) => match answer {
            Some(Answer::Row(Some(column))) => Ok(Some(column_json(column))),
            Some(Answer::Row(None)) => Ok(None),
            _ => Err(Error::MismatchedBindType()),
        },
    }
}

/// The two sides of a condition are paired with statements as they should be: a
/// literal with none, an accessor with one.
pub open spec fn shape_fits(
    cond: ConditionView,
    slot: (Option<AccessStatementView>, Option<AccessStatementView>),
) -> bool {
    (cond.left is Access <==> slot.0 is Some) && (cond.right is Access <==> slot.1 is Some)
}

/// Where the evaluation of one condition stands, the answers from `k` on being its own.
///
/// A condition that is ill paired with its statements is refused before anything else
/// is looked at. Then both statements must be bound, the left before the right. Then
/// each side that needs an answer takes one, the left before the right. A side without
/// a row makes the condition false. Where the comparison needs the order of the two
/// sides as doubles, one more answer is taken for it.
pub open spec fn condition_progress(
    cond: ConditionView,
    slot: (Option<AccessStatementView>, Option<AccessStatementView>),
    answers: Seq<Answer>,
    k: int,
) -> Progress<bool> {
    if !shape_fits(cond, slot) {
        Progress::Failed(Error::NoAccessSatement())
    } else {
        paired_progress(cond, slot, answers, k)
    }
}

/// Where the evaluation of a condition that is paired with its statements as it should
/// be stands.
pub open spec fn paired_progress(
    cond: ConditionView,
    slot: (Option<AccessStatementView>, Option<AccessStatementView>),
    answers: Seq<Answer>,
    k: int,
) -> Progress<bool> {
    match side_need(cond.left, slot.0) {
        Err(e) => Progress::Failed(e),
        Ok(left_need) => match side_need(cond.right, slot.1) {
            Err(e) => Progress::Failed(e),
            Ok(right_need) => {
                if left_need is Some && k >= answers.len() {
                    Progress::Ask(left_need->0)
                } else {
                    let k1 = if left_need is Some {
                        k + 1
                    } else {
                        k
                    };
                    let left = side_value(
                        cond.left,
                        if left_need is Some {
                            Some(answers[k])
                        } else {
                            None
                        },
                    );
                    if left is Err {
                        Progress::Failed(left->Err_0)
                    } else if right_need is Some && k1 >= answers.len() {
                        Progress::Ask(right_need->0)
                    } else {
                        let k2 = if right_need is Some {
                            k1 + 1
                        } else {
                            k1
                        };
                        let right = side_value(
                            cond.right,
                            if right_need is Some {
                                Some(answers[k1])
                            } else {
                                None
                            },
                        );
                        if right is Err {
                            Progress::Failed(right->Err_0)
                        } else {
                            compared(left->Ok_0, cond.op, right->Ok_0, answers, k2)
                        }
                    }
                }
            },
        },
    }
}

/// The end of the evaluation of one condition, both sides having their values.
pub open spec fn compared(
    left: Option<JsonView>,
    op: Operator,
    right: Option<JsonView>,
    answers: Seq<Answer>,
    k: int,
) -> Progress<bool> {
    if left is None || right is None {
        Progress::Done { value: false, next: k }
    } else if float_order_needed(left->0, op, right->0) {
        if k >= answers.len() {
            Progress::Ask(RequestView::Order(left->0->Number_0, right->0->Number_0))
        } else {
            match answers[k] {
                Answer::Order(order) => match comparison(left->0, op, right->0, order) {
                    Ok(holds) => Progress::Done { value: holds, next: k + 1 },
                    Err(e) => Progress::Failed(e),
                },
                _ => Progress::Failed(Error::MismatchedBindType()),
            }
        }
    } else {
        match comparison(left->0, op, right->0, None) {
            Ok(holds) => Progress::Done { value: holds, next: k },
            Err(e) => Progress::Failed(e),
        }
    }
}

/// Whether an exec step of an evaluation says what `progress` says.
pub open spec fn reply_agrees(
    result: Result<(Reply<bool>, usize), Error>,
    progress: Progress<bool>,
) -> bool {
    match progress {
        Progress::Ask(request) => result is Ok && result->Ok_0.0 is Ask && result->Ok_0.0->Ask_0@
            == request,
        Progress::Done { value, next } => result is Ok && result->Ok_0.0 == Reply::Done(value)
            && result->Ok_0.1 == next,
        Progress::Failed(e) => result is Err && result->Err_0 == e,
    }
}

impl LiteralValue {
    /// The JSON value of the literal; `float_bits` are the bits of the double that a
    /// float literal denotes, and are not read for any other literal.
    pub fn to_json(&self, float_bits: u64) -> (value: Json)
        ensures
            value@ == literal_json(self@, float_bits),
    {
        match self {
            LiteralValue::Int(i) => Json::Number(Number::from_i64(*i as i64)),
            LiteralValue::Float(_) => if finite_bits(float_bits) {
                Json::Number(Number::Float(float_bits))
            } else {
                Json::Number(Number::PosInt(0))
            },
            LiteralValue::String(s) => Json::String(s.clone()),
            LiteralValue::Bool(b) => Json::Bool(*b),
            LiteralValue::Null => Json::Null,
        }
    }
}

/// What one side of a condition needs before it has a value.
pub fn side_request(value: &Value, stmt: &Option<AccessStatement>) -> (result: Result<
    Option<Request>,
    Error,
>)
    ensures
        match side_need(value@, statement_view(*stmt)) {
            Ok(need) => result is Ok && (match need {
                Some(request) => result->Ok_0 is Some && result->Ok_0->0@ == request,
                None => result->Ok_0 is None,
            }),
            Err(e) => result is Err && result->Err_0 == e,
        },
{
    match value {
        Value::Literal(l) => match stmt {
            Some(_) => Err(Error::NoAccessSatement()),
            None => match l {
                LiteralValue::Float(f) => Ok(Some(Request::Float(*f))),
                _ => Ok(None),
            },
        },
        Value::Access(_) => match stmt {
            None => Err(Error::NoAccessSatement()),
            Some(statement) => match statement.query() {
                Ok(q) => Ok(Some(Request::Query(q))),
                Err(e) => Err(e),
            },
        },
    }
}

/// The JSON value of one side of a condition, from the answer to its need.
pub fn side_json(value: &Value, answer: Option<&Answer>) -> (result: Result<Option<Json>, Error>)
    ensures
        match side_value(
            value@,
            match answer {
                Some(a) => Some(*a),
                None => None,
            },
        ) {
            Ok(json) => result is Ok && (match json {
                Some(j) => result->Ok_0 is Some && result->Ok_0->0@ == j,
                None => result->Ok_0 is None,
            }),
            Err(e) => result is Err && result->Err_0 == e,
        },
{
    match value {
        Value::Literal(LiteralValue::Float(f)) => match answer {
            Some(Answer::Float(bits)) => Ok(Some(LiteralValue::Float(*f).to_json(*bits))),
            _ => Err(Error::MismatchedBindType()),
        },
        Value::Literal(l) => Ok(Some(l.to_json(0))),
        Value::Access(_) => match answer {
            Some(Answer::Row(Some(column))) => Ok(Some(decode_column(column))),
            Some(Answer::Row(None)) => Ok(None),
            _ => Err(Error::MismatchedBindType()),
        },
    }
}

/// The evaluation of one condition against the statements of its two sides.
pub trait IsMatchCodition {
    /// The statements of the two sides.
    spec fn sides(&self) -> (Option<AccessStatementView>, Option<AccessStatementView>);

    /// Where the evaluation of `cond` stands, the answers from `from` on being its own:
    /// the request whose answer it needs next, or whether the condition holds and the
    /// position of the first answer that it did not read.
    fn is_match_condition(&self, cond: &Condition, answers: &Vec<Answer>, from: usize) -> (result:
        Result<(Reply<bool>, usize), Error>)
        requires
            from <= answers@.len(),
        ensures
            reply_agrees(result, condition_progress(cond@, self.sides(), answers@, from as int)),
            result is Ok ==> from <= result->Ok_0.1 <= answers@.len(),
    ;
}

impl IsMatchCodition for (Option<AccessStatement>, Option<AccessStatement>) {
    open spec fn sides(&self) -> (Option<AccessStatementView>, Option<AccessStatementView>) {
        (statement_view(self.0), statement_view(self.1))
    }

    fn is_match_condition(&self, cond: &Condition, answers: &Vec<Answer>, from: usize) -> (result:
        Result<(Reply<bool>, usize), Error>) {
        let left_fits: bool = match &cond.left {
            Value::Access(_) => self.0.is_some(),
            Value::Literal(_) => self.0.is_none(),
        };
        let right_fits: bool = match &cond.right {
            Value::Access(_) => self.1.is_some(),
            Value::Literal(_) => self.1.is_none(),
        };
        if !left_fits || !right_fits {
            return Err(Error::NoAccessSatement());
        }
        let left_need = match side_request(&cond.left, &self.0) {
            Ok(need) => need,
            Err(e) => { return Err(e); },
        };
        let right_need = match side_request(&cond.right, &self.1) {
            Ok(need) => need,
            Err(e) => { return Err(e); },
        };
        let mut k: usize = from;
        let left = match left_need {
            Some(request) => {
                if k >= answers.len() {
                    return Ok((Reply::Ask(request), k));
                }
                k = k + 1;
                side_json(&cond.left, Some(&answers[k - 1]))
            },
            None => side_json(&cond.left, None),
        };
        let left = match left {
            Ok(json) => json,
            Err(e) => { return Err(e); },
        };
        let right = match right_need {
            Some(request) => {
                if k >= answers.len() {
                    return Ok((Reply::Ask(request), k));
                }
                k = k + 1;
                side_json(&cond.right, Some(&answers[k - 1]))
            },
            None => side_json(&cond.right, None),
        };
        let right = match right {
            Ok(json) => json,
            Err(e) => { return Err(e); },
        };
        let (left, right) = match (left, right) {
            (Some(l), Some(r)) => (l, r),
            _ => { return Ok((Reply::Done(false), k)); },
        };
        if needs_float_order(&left, &cond.op, &right) {
            let (l, r) = match (&left, &right) {
                (Json::Number(l), Json::Number(r)) => (*l, *r),
                _ => { return Err(Error::ComparisonErrorTypeMismatch()); },
            };
            if k >= answers.len() {
                return Ok((Reply::Ask(Request::Order(l, r)), k));
            }
            match &answers[k] {
                Answer::Order(order) => match json_compare(&left, &cond.op, &right, *order) {
                    Ok(holds) => Ok((Reply::Done(holds), k + 1)),
                    Err(e) => Err(e),
                },
                _ => Err(Error::MismatchedBindType()),
            }
        } else {
            match json_compare(&left, &cond.op, &right, None) {
                Ok(holds) => Ok((Reply::Done(holds), k)),
                Err(e) => Err(e),
            }
        }
    }
}

/// The statements of the conditions of one analyzer: for each condition, the statement
/// of each side that is an accessor.
#[derive(Debug, PartialEq)]
pub struct ConditionStatement {
    pub cond_stmt_list: Vec<(Option<AccessStatement>, Option<AccessStatement>)>,
}

/// The statements of the arguments of one analyzer, each under the key that its value
/// has in the object handed to the analyzer.
#[derive(Debug, PartialEq)]
pub struct ArgumentStatement {
    pub arg_stmt_list: Vec<(String, AccessStatement)>,
}

/// The values of the statements of a list of conditions.
pub open spec fn slots_view(v: Seq<(Option<AccessStatement>, Option<AccessStatement>)>) -> Seq<
    (Option<AccessStatementView>, Option<AccessStatementView>),
> {
    Seq::new(v.len(), |i: int| (statement_view(v[i].0), statement_view(v[i].1)))
}

/// The values of the statements of a list of arguments.
pub open spec fn keyed_view(v: Seq<(String, AccessStatement)>) -> Seq<
    (Seq<char>, AccessStatementView),
> {
    Seq::new(v.len(), |i: int| (v[i].0@, v[i].1@))
}

impl View for ConditionStatement {
    type V = Seq<(Option<AccessStatementView>, Option<AccessStatementView>)>;

    open spec fn view(&self) -> Self::V {
        slots_view(self.cond_stmt_list@)
    }
}

impl View for ArgumentStatement {
    type V = Seq<(Seq<char>, AccessStatementView)>;

    open spec fn view(&self) -> Self::V {
        keyed_view(self.arg_stmt_list@)
    }
}

/// The statements of a list of conditions after every placeholder was set to
/// `result_id`.
pub open spec fn bound_slots(
    slots: Seq<(Option<AccessStatementView>, Option<AccessStatementView>)>,
    result_id: i64,
) -> Seq<(Option<AccessStatementView>, Option<AccessStatementView>)> {
    Seq::new(
        slots.len(),
        |i: int| (bound_option(slots[i].0, result_id), bound_option(slots[i].1, result_id)),
    )
}

/// The statements of a list of arguments after every placeholder was set to
/// `result_id`.
pub open spec fn bound_keyed(stmts: Seq<(Seq<char>, AccessStatementView)>, result_id: i64) -> Seq<
    (Seq<char>, AccessStatementView),
> {
    Seq::new(stmts.len(), |i: int| (stmts[i].0, bound(stmts[i].1, result_id)))
}

/// Where the evaluation of the conditions from `i` on stands, the answers from `k` on
/// being theirs: the conditions are taken in order, each reads its own answers, and the
/// first that does not hold ends the evaluation.
pub open spec fn conditions_progress(
    conds: Seq<ConditionView>,
    slots: Seq<(Option<AccessStatementView>, Option<AccessStatementView>)>,
    i: int,
    answers: Seq<Answer>,
    k: int,
) -> Progress<bool>
    decreases conds.len() - i,
{
    if i < 0 || i >= conds.len() {
        Progress::Done { value: true, next: k }
    } else {
        match condition_progress(conds[i], slots[i], answers, k) {
            Progress::Ask(request) => Progress::Ask(request),
            Progress::Failed(e) => Progress::Failed(e),
            Progress::Done { value, next } => if value {
                conditions_progress(conds, slots, i + 1, answers, next)
            } else {
                Progress::Done { value: false, next }
            },
        }
    }
}

/// Where the evaluation of the conditions of an analyzer stands after `answers`. The
/// conditions hold when each of them holds. Conditions and statements that differ in
/// number are refused.
pub open spec fn evaluation(
    conds: Seq<ConditionView>,
    slots: Seq<(Option<AccessStatementView>, Option<AccessStatementView>)>,
    answers: Seq<Answer>,
) -> Progress<bool> {
    if conds.len() != slots.len() {
        Progress::Failed(Error::DiffCondAndCondStmt())
    } else {
        conditions_progress(conds, slots, 0, answers, 0)
    }
}

/// Where the check of the conditions from `i` on against their statements stands, the
/// answers from `k` on being theirs: every condition is evaluated, whether those before
/// it hold or not, and the first failure is the failure of the check.
pub open spec fn pairs_progress(
    conds: Seq<ConditionView>,
    slots: Seq<(Option<AccessStatementView>, Option<AccessStatementView>)>,
    i: int,
    answers: Seq<Answer>,
    k: int,
) -> Progress<()>
    decreases conds.len() - i,
{
    if i < 0 || i >= conds.len() {
        Progress::Done { value: (), next: k }
    } else {
        match condition_progress(conds[i], slots[i], answers, k) {
            Progress::Ask(request) => Progress::Ask(request),
            Progress::Failed(e) => Progress::Failed(e),
            Progress::Done { value, next } => pairs_progress(conds, slots, i + 1, answers, next),
        }
    }
}

/// Where the check of the conditions of an analyzer against the statements that were
/// prepared for them stands after `answers`. An analyzer without conditions and without
/// statements passes; one with conditions and no statements, with statements and no
/// conditions, or with a different number of each is refused; else every condition is
/// evaluated and the first failure is that of the check.
pub open spec fn processing(
    conds: Option<Seq<ConditionView>>,
    slots: Option<Seq<(Option<AccessStatementView>, Option<AccessStatementView>)>>,
    answers: Seq<Answer>,
) -> Progress<()> {
    match conds {
        Some(c) => match slots {
            Some(s) => if c.len() != s.len() {
                Progress::Failed(Error::DiffCondAndCondStmt())
            } else {
                pairs_progress(c, s, 0, answers, 0)
            },
            None => Progress::Failed(Error::DiffCondAndCondStmt()),
        },
        None => match slots {
            Some(_) => Progress::Failed(Error::DiffCondAndCondStmt()),
            None => Progress::Done { value: (), next: 0 },
        },
    }
}

/// Whether an exec step of a check says what `progress` says.
pub open spec fn check_agrees(result: Result<Reply<()>, Error>, progress: Progress<()>) -> bool {
    match progress {
        Progress::Ask(request) => result is Ok && result->Ok_0 is Ask && result->Ok_0->Ask_0@
            == request,
        Progress::Done { value, next } => result is Ok && result->Ok_0 is Done,
        Progress::Failed(e) => result is Err && result->Err_0 == e,
    }
}

/// The JSON value of an argument from the row of its query: null where there is none.
pub open spec fn row_json(row: Option<Column>) -> JsonView {
    match row {
        Some(column) => column_json(column),
        None => JsonView::Null,
    }
}

/// Where the assembly of the first `n` arguments stands after `answers`: each argument
/// takes the row of its query, in order, and sets its key in the object.
pub open spec fn assembly(
    stmts: Seq<(Seq<char>, AccessStatementView)>,
    n: int,
    answers: Seq<Answer>,
) -> Progress<Seq<(Seq<char>, JsonView)>>
    decreases n,
{
    if n <= 0 || n > stmts.len() {
        Progress::Done { value: Seq::empty(), next: 0 }
    } else {
        match assembly(stmts, n - 1, answers) {
            Progress::Ask(request) => Progress::Ask(request),
            Progress::Failed(e) => Progress::Failed(e),
            Progress::Done { value, next } => match stmts[n - 1].1 {
                AccessStatementView::Format(_) => Progress::Failed(Error::UnimplementedError()),
                AccessStatementView::Stmt { sql, provided, binds } => if !provided {
                    Progress::Failed(Error::BindRequired())
                } else if next >= answers.len() {
                    Progress::Ask(RequestView::Query { sql, params: bind_values(binds) })
                } else {
                    match answers[next] {
                        Answer::Row(row) => Progress::Done {
                            value: inserted(value, stmts[n - 1].0, row_json(row)),
                            next: next + 1,
                        },
                        _ => Progress::Failed(Error::MismatchedBindType()),
                    }
                },
            },
        }
    }
}

/// What is owed once the assembly asked or failed holds of any longer stretch.
pub proof fn lemma_assembly_stops(
    stmts: Seq<(Seq<char>, AccessStatementView)>,
    n: int,
    m: int,
    answers: Seq<Answer>,
)
    requires
        0 <= n <= m <= stmts.len(),
        !(assembly(stmts, n, answers) is Done),
    ensures
        assembly(stmts, m, answers) == assembly(stmts, n, answers),
    decreases m - n,
{
    if n < m {
        lemma_assembly_stops(stmts, n, m - 1, answers);
    }
}

impl ConditionStatement {
    /// Where the evaluation of `conditions` stands after `answers`: the request whose
    /// answer it needs next, or whether all of the conditions hold.
    pub fn is_match_condition(&self, conditions: &Vec<Condition>, answers: &Vec<Answer>) -> (result:
        Result<Reply<bool>, Error>)
        ensures
            match evaluation(conditions_view(conditions@), self@, answers@) {
                Progress::Ask(request) => result is Ok && result->Ok_0 is Ask
                    && result->Ok_0->Ask_0@ == request,
                Progress::Done { value, next } => result is Ok && result->Ok_0 == Reply::Done(
                    value,
                ),
                Progress::Failed(e) => result is Err && result->Err_0 == e,
            },
    {
        if conditions.len() != self.cond_stmt_list.len() {
            return Err(Error::DiffCondAndCondStmt());
        }
        let mut i: usize = 0;
        let mut k: usize = 0;
        while i < conditions.len()
            invariant
                0 <= i <= conditions@.len(),
                conditions@.len() == self.cond_stmt_list@.len(),
                0 <= k <= answers@.len(),
                evaluation(conditions_view(conditions@), self@, answers@) == conditions_progress(
                    conditions_view(conditions@),
                    self@,
                    i as int,
                    answers@,
                    k as int,
                ),
            decreases conditions@.len() - i,
        {
            proof {
                assert(self@[i as int] == self.cond_stmt_list@[i as int].sides());
            }
            match self.cond_stmt_list[i].is_match_condition(&conditions[i], answers, k) {
                Err(e) => { return Err(e); },
                Ok((Reply::Ask(request), _)) => { return Ok(Reply::Ask(request)); },
                Ok((Reply::Done(holds), next)) => {
                    if !holds {
                        return Ok(Reply::Done(false));
                    }
                    k = next;
                },
            }
            i = i + 1;
        }
        Ok(Reply::Done(true))
    }

    /// Where the check of `conditions` against the statements stands after `answers`:
    /// the request whose answer it needs next, or that every condition was evaluated
    /// without a failure.
    pub fn check_pairs(&self, conditions: &Vec<Condition>, answers: &Vec<Answer>) -> (result:
        Result<Reply<()>, Error>)
        ensures
            check_agrees(
                result,
                processing(Some(conditions_view(conditions@)), Some(self@), answers@),
            ),
    {
        if conditions.len() != self.cond_stmt_list.len() {
            return Err(Error::DiffCondAndCondStmt());
        }
        let mut i: usize = 0;
        let mut k: usize = 0;
        while i < conditions.len()
            invariant
                0 <= i <= conditions@.len(),
                conditions@.len() == self.cond_stmt_list@.len(),
                0 <= k <= answers@.len(),
                processing(Some(conditions_view(conditions@)), Some(self@), answers@)
                    == pairs_progress(
                    conditions_view(conditions@),
                    self@,
                    i as int,
                    answers@,
                    k as int,
                ),
            decreases conditions@.len() - i,
        {
            proof {
                assert(self@[i as int] == self.cond_stmt_list@[i as int].sides());
            }
            match self.cond_stmt_list[i].is_match_condition(&conditions[i], answers, k) {
                Err(e) => { return Err(e); },
                Ok((Reply::Ask(request), _)) => { return Ok(Reply::Ask(request)); },
                Ok((Reply::Done(_), next)) => {
                    k = next;
                },
            }
            i = i + 1;
        }
        Ok(Reply::Done(()))
    }

    /// Sets every placeholder of every statement to `result_id_for_place_holder`.
    pub fn set_placeholder(&mut self, result_id_for_place_holder: i64) -> (result: Result<
        (),
        Error,
    >)
        ensures
            result is Ok,
            final(self)@ == bound_slots(old(self)@, result_id_for_place_holder),
    {
        let ghost before = self@;
        let mut i: usize = 0;
        while i < self.cond_stmt_list.len()
            invariant
                0 <= i <= self.cond_stmt_list@.len(),
                self.cond_stmt_list@.len() == before.len(),
                forall|j: int|
                    #![trigger self.cond_stmt_list@[j]]
                    0 <= j < i ==> statement_view(self.cond_stmt_list@[j].0) == bound_option(
                        before[j].0,
                        result_id_for_place_holder,
                    ) && statement_view(self.cond_stmt_list@[j].1) == bound_option(
                        before[j].1,
                        result_id_for_place_holder,
                    ),
                forall|j: int|
                    #![trigger self.cond_stmt_list@[j]]
                    i <= j < before.len() ==> statement_view(self.cond_stmt_list@[j].0)
                        == before[j].0 && statement_view(self.cond_stmt_list@[j].1)
                        == before[j].1,
            decreases self.cond_stmt_list@.len() - i,
        {
            let ghost here = self.cond_stmt_list@;
            match &mut self.cond_stmt_list[i].0 {
                Some(left) => {
                    let _ = left.set_placeholder(result_id_for_place_holder);
                },
                None => {},
            }
            match &mut self.cond_stmt_list[i].1 {
                Some(right) => {
                    let _ = right.set_placeholder(result_id_for_place_holder);
                },
                None => {},
            }
            proof {
                assert(self.cond_stmt_list@.len() == here.len());
                assert(forall|j: int|
                    0 <= j < here.len() && j != i ==> self.cond_stmt_list@[j] == here[j]);
            }
            i = i + 1;
        }
        proof {
            assert(self@ =~= bound_slots(before, result_id_for_place_holder));
        }
        Ok(())
    }
}

impl ArgumentStatement {
    /// Where the assembly of the arguments stands after `answers`: the query whose row
    /// it needs next, or the object of the arguments, each under its key.
    pub fn get_argument(&self, answers: &Vec<Answer>) -> (result: Result<Reply<Json>, Error>)
        ensures
            match assembly(self@, self@.len() as int, answers@) {
                Progress::Ask(request) => result is Ok && result->Ok_0 is Ask
                    && result->Ok_0->Ask_0@ == request,
                Progress::Done { value, next } => result is Ok && result->Ok_0 is Done
                    && result->Ok_0->Done_0@ == JsonView::Object(value),
                Progress::Failed(e) => result is Err && result->Err_0 == e,
            },
    {
        let mut members: Vec<(String, Json)> = Vec::new();
        let mut i: usize = 0;
        proof {
            assert(members_view(members@) =~= Seq::<(Seq<char>, JsonView)>::empty());
        }
        while i < self.arg_stmt_list.len()
            invariant
                0 <= i <= self.arg_stmt_list@.len(),
                i <= answers@.len(),
                assembly(self@, i as int, answers@) == (Progress::Done {
                    value: members_view(members@),
                    next: i as int,
                }),
            decreases self.arg_stmt_list@.len() - i,
        {
            proof {
                assert(self@[i as int] == (
                    self.arg_stmt_list@[i as int].0@,
                    self.arg_stmt_list@[i as int].1@,
                ));
            }
            let query = match self.arg_stmt_list[i].1.query() {
                Ok(q) => q,
                Err(e) => {
                    proof {
                        lemma_assembly_stops(self@, i as int + 1, self@.len() as int, answers@);
                    }
                    return Err(e);
                },
            };
            if i >= answers.len() {
                proof {
                    lemma_assembly_stops(self@, i as int + 1, self@.len() as int, answers@);
                }
                return Ok(Reply::Ask(Request::Query(query)));
            }
            let value = match &answers[i] {
                Answer::Row(Some(column)) => decode_column(column),
                Answer::Row(None) => Json::Null,
                _ => {
                    proof {
                        lemma_assembly_stops(self@, i as int + 1, self@.len() as int, answers@);
                    }
                    return Err(Error::MismatchedBindType());
                },
            };
            object_insert(&mut members, self.arg_stmt_list[i].0.clone(), value);
            i = i + 1;
        }
        proof {
            lemma_object_view(members);
        }
        Ok(Reply::Done(Json::Object(members)))
    }

    /// Sets every placeholder of every statement to `result_id_for_place_holder`.
    pub fn set_placeholder(&mut self, result_id_for_place_holder: i64) -> (result: Result<
        (),
        Error,
    >)
        ensures
            result is Ok,
            final(self)@ == bound_keyed(old(self)@, result_id_for_place_holder),
    {
        let ghost before = self@;
        let mut i: usize = 0;
        while i < self.arg_stmt_list.len()
            invariant
                0 <= i <= self.arg_stmt_list@.len(),
                self.arg_stmt_list@.len() == before.len(),
                forall|j: int|
                    #![trigger self.arg_stmt_list@[j]]
                    0 <= j < i ==> self.arg_stmt_list@[j].0@ == before[j].0
                        && self.arg_stmt_list@[j].1@ == bound(
                        before[j].1,
                        result_id_for_place_holder,
                    ),
                forall|j: int|
                    #![trigger self.arg_stmt_list@[j]]
                    i <= j < before.len() ==> self.arg_stmt_list@[j].0@ == before[j].0
                        && self.arg_stmt_list@[j].1@ == before[j].1,
            decreases self.arg_stmt_list@.len() - i,
        {
            let ghost here = self.arg_stmt_list@;
            let _ = self.arg_stmt_list[i].1.set_placeholder(result_id_for_place_holder);
            proof {
                assert(self.arg_stmt_list@.len() == here.len());
                assert(forall|j: int|
                    0 <= j < here.len() && j != i ==> self.arg_stmt_list@[j] == here[j]);
            }
            i = i + 1;
        }
        proof {
            assert(self@ =~= bound_keyed(before, result_id_for_place_holder));
        }
        Ok(())
    }
}


/// The JSON value of a literal is well formed.
pub proof fn lemma_literal_json_is_ok(l: LiteralView, bits: u64)
    ensures
        json_ok(literal_json(l, bits)),
{
}

/// The object of the arguments is well formed: its keys differ from each other, and
/// each value is that of a column or null.
pub proof fn lemma_assembly_is_ok(
    stmts: Seq<(Seq<char>, AccessStatementView)>,
    n: int,
    answers: Seq<Answer>,
)
    requires
        assembly(stmts, n, answers) is Done,
    ensures
        json_ok(JsonView::Object(assembly(stmts, n, answers)->value)),
    decreases n,
{
    if 0 < n <= stmts.len() {
        lemma_assembly_is_ok(stmts, n - 1, answers);
        let before = assembly(stmts, n - 1, answers);
        let row = answers[before->next]->Row_0;
        if let Some(column) = row {
            lemma_column_json_is_ok(column);
        }
        lemma_inserted_is_ok(before->value, stmts[n - 1].0, row_json(row));
    }
}

} // verus!
