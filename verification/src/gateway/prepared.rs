//! What holds of a run whose statements are those of its configuration.

use crate::config::analyzer::AnalyzerView;
use crate::config::conditions::ConditionView;
use crate::config::config::{has_name, lemma_name_is_new, well_formed};
use crate::config::parser::parser_type::{AccessView, ValueView};
use crate::database::compare::{comparison};
use crate::database::database::{
    analyzer_statements, argument_statements, bound_all, bound_entry, condition_statements,
    entry_view, insert_statements, named_position, named_sql, path_access, select_statements,
    value_statement, AnalyzerStatementsView, InsertAnalyerStatement, SelectAnalyzerStatement,
};
use crate::database::evaluate::{
    assembly, bound_keyed, bound_slots, compared, condition_progress, conditions_progress,
    evaluation, side_need, side_value, Answer, Progress, RequestView,
};
use crate::database::statement::{
    access_statement, bind_values, bound, bound_option, AccessStatementView, BindType,
    Statement,
};
use crate::database::error::Error as DatabaseError;
use crate::gateway::error::Error;
use crate::gateway::gateway::{
    advanced, stage_rank, step, taken_in, ActionView, Event, Outcome, RunView, Stage,
};
use vstd::prelude::*;

verus! {

/// The statements are those of the configuration, every placeholder set to
/// `result_id`, and the configuration is one that was loaded.
pub open spec fn prepared(
    config: Seq<AnalyzerView>,
    select: SelectAnalyzerStatement,
    insert: InsertAnalyerStatement,
    result_id: i64,
) -> bool {
    &&& well_formed(config)
    &&& select_statements(config, config.len() as int) is Ok
    &&& select@ == bound_all(select_statements(config, config.len() as int)->Ok_0, result_id)
    &&& named_sql(insert.analyzer@) == insert_statements(config)
}

/// What a request asks of the store, it asks of the rows of the result `result_id`.
pub open spec fn asks_of(request: RequestView, result_id: i64) -> bool {
    match request {
        RequestView::Query { sql, params } => forall|i: int|
            0 <= i < params.len() ==> #[trigger] params[i] == result_id,
        _ => true,
    }
}

/// The failure lies in what was answered: an answer of another name than the request,
/// or values that the operator cannot relate.
pub open spec fn lies_in_answers(e: DatabaseError) -> bool {
    e == DatabaseError::MismatchedBindType() || e == DatabaseError::ComparisonErrorTypeMismatch()
}

/// What holds of an evaluation over prepared statements: it asks of the rows of the
/// result only, and fails only on what was answered.
pub open spec fn sound<V>(progress: Progress<V>, result_id: i64) -> bool {
    match progress {
        Progress::Ask(request) => asks_of(request, result_id),
        Progress::Done { value, next } => true,
        Progress::Failed(e) => lies_in_answers(e),
    }
}

/// A statement that an accessor compiles to has its placeholders required; once bound,
/// they are provided and all hold the id.
pub proof fn lemma_bound_statement(a: AccessView, result_id: i64)
    requires
        access_statement(a) is Ok,
    ensures
        bound(access_statement(a)->Ok_0, result_id) matches AccessStatementView::Stmt {
            sql,
            provided,
            binds,
        } && provided && forall|i: int|
            0 <= i < bind_values(binds).len() ==> #[trigger] bind_values(binds)[i] == result_id,
{
}

/// The first `n` conditions have as many statements, each side paired as it should be.
pub proof fn lemma_condition_statements_pair(conds: Seq<ConditionView>, n: int)
    requires
        0 <= n <= conds.len(),
        condition_statements(conds, n) is Ok,
    ensures
        condition_statements(conds, n)->Ok_0.len() == n,
        forall|i: int|
            #![trigger conds[i]]
            0 <= i < n ==> {
                &&& value_statement(conds[i].left) is Ok
                &&& value_statement(conds[i].right) is Ok
                &&& condition_statements(conds, n)->Ok_0[i] == (
                    value_statement(conds[i].left)->Ok_0,
                    value_statement(conds[i].right)->Ok_0,
                )
            },
    decreases n,
{
    if n > 0 {
        lemma_condition_statements_pair(conds, n - 1);
        assert(condition_statements(conds, n)->Ok_0 == condition_statements(
            conds,
            n - 1,
        )->Ok_0.push(
            (
                value_statement(conds[n - 1].left)->Ok_0,
                value_statement(conds[n - 1].right)->Ok_0,
            ),
        ));
        assert forall|i: int|
            #![trigger conds[i]]
            0 <= i < n implies {
            &&& value_statement(conds[i].left) is Ok
            &&& value_statement(conds[i].right) is Ok
            &&& condition_statements(conds, n)->Ok_0[i] == (
                value_statement(conds[i].left)->Ok_0,
                value_statement(conds[i].right)->Ok_0,
            )
        } by {
            if i < n - 1 {
                assert(condition_statements(conds, n)->Ok_0[i] == condition_statements(
                    conds,
                    n - 1,
                )->Ok_0[i]);
            }
        }
    }
}

/// The first `n` arguments have one statement more, each compiled from its accessor.
pub proof fn lemma_argument_statements_pair(arguments: Seq<AccessView>, n: int)
    requires
        0 <= n <= arguments.len(),
        argument_statements(arguments, n) is Ok,
    ensures
        argument_statements(arguments, n)->Ok_0.len() == n + 1,
        forall|i: int|
            0 <= i <= n ==> exists|a: AccessView|
                access_statement(a) is Ok && (#[trigger] argument_statements(
                    arguments,
                    n,
                )->Ok_0[i]).1 == access_statement(a)->Ok_0,
    decreases n,
{
    if n > 0 {
        lemma_argument_statements_pair(arguments, n - 1);
        let before = argument_statements(arguments, n - 1)->Ok_0;
        let all = argument_statements(arguments, n)->Ok_0;
        assert forall|i: int| 0 <= i <= n implies exists|a: AccessView|
            access_statement(a) is Ok && (#[trigger] all[i]).1 == access_statement(a)->Ok_0 by {
            if i < n {
                assert(all[i] == before[i]);
                let a = choose|a: AccessView|
                    access_statement(a) is Ok && before[i].1 == access_statement(a)->Ok_0;
                assert(access_statement(a) is Ok && all[i].1 == access_statement(a)->Ok_0);
            } else {
                assert(access_statement(arguments[n - 1]) is Ok && all[i].1 == access_statement(
                    arguments[n - 1],
                )->Ok_0);
            }
        }
    } else {
        let all = argument_statements(arguments, n)->Ok_0;
        assert(access_statement(path_access()) is Ok && all[0].1 == access_statement(
            path_access(),
        )->Ok_0);
    }
}

/// One condition over its prepared statements asks of the rows of the result only, and
/// fails only on what was answered.
pub proof fn lemma_condition_is_sound(
    cond: ConditionView,
    result_id: i64,
    answers: Seq<Answer>,
    k: int,
)
    requires
        value_statement(cond.left) is Ok,
        value_statement(cond.right) is Ok,
    ensures
        sound(
            condition_progress(
                cond,
                (
                    bound_option(value_statement(cond.left)->Ok_0, result_id),
                    bound_option(value_statement(cond.right)->Ok_0, result_id),
                ),
                answers,
                k,
            ),
            result_id,
        ),
{
    if let ValueView::Access(a) = cond.left {
        lemma_bound_statement(a, result_id);
    }
    if let ValueView::Access(a) = cond.right {
        lemma_bound_statement(a, result_id);
    }
}

/// The conditions over their prepared statements ask of the rows of the result only,
/// and fail only on what was answered.
pub proof fn lemma_conditions_are_sound(
    conds: Seq<ConditionView>,
    result_id: i64,
    i: int,
    answers: Seq<Answer>,
    k: int,
)
    requires
        0 <= i <= conds.len(),
        condition_statements(conds, conds.len() as int) is Ok,
    ensures
        sound(
            conditions_progress(
                conds,
                bound_slots(condition_statements(conds, conds.len() as int)->Ok_0, result_id),
                i,
                answers,
                k,
            ),
            result_id,
        ),
    decreases conds.len() - i,
{
    let slots = bound_slots(condition_statements(conds, conds.len() as int)->Ok_0, result_id);
    lemma_condition_statements_pair(conds, conds.len() as int);
    if i < conds.len() {
        lemma_condition_is_sound(conds[i], result_id, answers, k);
        let one = condition_progress(conds[i], slots[i], answers, k);
        if let Progress::Done { value, next } = one {
            if value {
                lemma_conditions_are_sound(conds, result_id, i + 1, answers, next);
            }
        }
    }
}

/// The assembly of arguments over their prepared statements asks of the rows of the
/// result only, and fails only on what was answered.
pub proof fn lemma_assembly_is_sound(
    arguments: Seq<AccessView>,
    m: int,
    result_id: i64,
    n: int,
    answers: Seq<Answer>,
)
    requires
        0 <= m <= arguments.len(),
        argument_statements(arguments, m) is Ok,
        0 <= n <= m + 1,
    ensures
        sound(
            assembly(bound_keyed(argument_statements(arguments, m)->Ok_0, result_id), n, answers),
            result_id,
        ),
    decreases n,
{
    lemma_argument_statements_pair(arguments, m);
    if n > 0 {
        lemma_assembly_is_sound(arguments, m, result_id, n - 1, answers);
        let stmts = argument_statements(arguments, m)->Ok_0;
        let a = choose|a: AccessView|
            access_statement(a) is Ok && stmts[n - 1].1 == access_statement(a)->Ok_0;
        lemma_bound_statement(a, result_id);
    }
}

/// The statements of the first `n` analyzers are as many, each those of its analyzer.
pub proof fn lemma_select_statements_pair(config: Seq<AnalyzerView>, n: int)
    requires
        0 <= n <= config.len(),
        select_statements(config, n) is Ok,
    ensures
        select_statements(config, n)->Ok_0.len() == n,
        forall|i: int|
            #![trigger config[i]]
            0 <= i < n ==> {
                &&& analyzer_statements(config[i]) is Ok
                &&& select_statements(config, n)->Ok_0[i] == analyzer_statements(config[i])->Ok_0
            },
    decreases n,
{
    if n > 0 {
        lemma_select_statements_pair(config, n - 1);
        assert(select_statements(config, n)->Ok_0 == select_statements(config, n - 1)->Ok_0.push(
            analyzer_statements(config[n - 1])->Ok_0,
        ));
        assert forall|i: int|
            #![trigger config[i]]
            0 <= i < n implies {
            &&& analyzer_statements(config[i]) is Ok
            &&& select_statements(config, n)->Ok_0[i] == analyzer_statements(config[i])->Ok_0
        } by {
            if i < n - 1 {
                assert(select_statements(config, n)->Ok_0[i] == select_statements(
                    config,
                    n - 1,
                )->Ok_0[i]);
            }
        }
    }
}

/// Among entries whose names are those of analyzers that differ in name, the search for
/// the name of an analyzer ends at its position.
pub proof fn lemma_position_of_name<T>(
    config: Seq<AnalyzerView>,
    entries: Seq<(String, T)>,
    k: int,
    i: int,
)
    requires
        well_formed(config),
        entries.len() == config.len(),
        forall|j: int| 0 <= j < entries.len() ==> (#[trigger] entries[j]).0@ == config[j].name,
        0 <= i <= k < config.len(),
    ensures
        named_position(entries, config[k].name, i) == k,
    decreases k - i,
{
    if i < k {
        assert(!has_name(config, config[k].name, k));
        lemma_name_is_new(config, config[k].name, k, i);
        lemma_position_of_name(config, entries, k, i + 1);
    }
}

/// Wherever the library takes a prepared run by itself, it asks of the rows of the
/// result of the run only, and fails only on what was answered.
pub proof fn lemma_advanced_is_sound(
    config: Seq<AnalyzerView>,
    select: SelectAnalyzerStatement,
    insert: InsertAnalyerStatement,
    run: RunView,
)
    requires
        prepared(config, select, insert, run.result_id),
        run.stage == Stage::Conditions || run.stage == Stage::Arguments,
    ensures
        match advanced(config, select, run).1 {
            Outcome::Action(ActionView::Ask(request)) => asks_of(request, run.result_id),
            Outcome::Action(_) => true,
            Outcome::Failed(Error::DatabaseError(e)) => lies_in_answers(e),
            _ => false,
        },
    decreases config.len() - run.analyzer, stage_rank(run.stage),
{
    if 0 <= run.analyzer < config.len() {
        let n = config.len() as int;
        let analyzer = config[run.analyzer];
        let compiled = select_statements(config, n)->Ok_0;
        lemma_select_statements_pair(config, n);
        assert(select@.len() == n);
        assert forall|j: int| 0 <= j < select.stmt@.len() implies (#[trigger] select.stmt@[j]).0@
            == config[j].name by {
            assert(select@[j] == entry_view(select.stmt@[j]));
            assert(select@[j] == bound_entry(compiled[j], run.result_id));
        }
        lemma_position_of_name(config, select.stmt@, run.analyzer, 0);
        let at = named_position(select.stmt@, analyzer.name, 0);
        assert(at == run.analyzer);
        let entry = select@[at];
        assert(entry == bound_entry(compiled[at], run.result_id));
        assert(compiled[at] == analyzer_statements(analyzer)->Ok_0);
        let to_arguments = RunView { stage: Stage::Arguments, answers: Seq::empty(), ..run };
        let to_next = RunView {
            analyzer: run.analyzer + 1,
            stage: Stage::Conditions,
            answers: Seq::empty(),
            ..run
        };
        if run.stage == Stage::Conditions {
            lemma_advanced_is_sound(config, select, insert, to_arguments);
            lemma_advanced_is_sound(config, select, insert, to_next);
            if let Some(conds) = analyzer.conditions {
                lemma_condition_statements_pair(conds, conds.len() as int);
                lemma_conditions_are_sound(conds, run.result_id, 0, run.answers, 0);
            }
        } else {
            match analyzer.arguments {
                Some(list) => {
                    lemma_argument_statements_pair(list, list.len() as int);
                    lemma_assembly_is_sound(
                        list,
                        list.len() as int,
                        run.result_id,
                        list.len() as int + 1,
                        run.answers,
                    );
                },
                None => {
                    lemma_argument_statements_pair(Seq::empty(), 0);
                    lemma_assembly_is_sound(Seq::empty(), 0, run.result_id, 1, run.answers);
                },
            }
        }
    }
}

/// A prepared run asks of the rows of its own result only, and fails only on what it
/// was answered.
///
/// Where the statements are those of a configuration that was loaded, every placeholder
/// set to the id of the run, no step finds a statement unbound, a condition and its
/// statements ill paired, or an analyzer without statements. A step fails only where
/// the event is not the one awaited, or where the values that were answered cannot be
/// compared. Every query that a step asks for carries the id of the run and no other.
pub proof fn a_prepared_run_fails_only_on_its_answers(
    config: Seq<AnalyzerView>,
    select: SelectAnalyzerStatement,
    insert: InsertAnalyerStatement,
    run: RunView,
    event: Event,
)
    requires
        prepared(config, select, insert, run.result_id),
    ensures
        match step(config, select, insert, run, event).1 {
            Outcome::Action(ActionView::Ask(request)) => asks_of(request, run.result_id),
            Outcome::Action(_) => true,
            Outcome::Failed(Error::DatabaseError(e)) => lies_in_answers(e),
            _ => false,
        },
{
    let (taken, outcome) = taken_in(config, insert, run, event);
    if outcome is None {
        lemma_advanced_is_sound(config, select, insert, taken);
    } else if run.stage == Stage::Dispatched && event is Output && 0 <= run.analyzer
        < config.len() {
        assert(named_sql(insert.analyzer@).len() == insert_statements(config).len());
        assert(insert.analyzer@.len() == config.len());
        assert forall|j: int| 0 <= j < insert.analyzer@.len() implies (
        #[trigger] insert.analyzer@[j]).0@ == config[j].name by {
            assert(named_sql(insert.analyzer@)[j] == insert_statements(config)[j]);
            assert(named_sql(insert.analyzer@)[j].0 == insert.analyzer@[j].0@);
        }
        lemma_position_of_name(config, insert.analyzer@, run.analyzer, 0);
    }
}


/// Statements that were bound to one id and then to another are bound to the other:
/// the statements of a run stay prepared from entry to entry.
pub proof fn binding_again_binds_to_the_later_id(
    all: Seq<AnalyzerStatementsView>,
    earlier: i64,
    later: i64,
)
    ensures
        bound_all(bound_all(all, earlier), later) == bound_all(all, later),
{
    assert forall|i: int| 0 <= i < all.len() implies bound_entry(
        bound_entry(#[trigger] all[i], earlier),
        later,
    ) == bound_entry(all[i], later) by {
        let e = all[i];
        assert forall|j: int| 0 <= j < e.arguments.len() implies bound(
            bound(#[trigger] e.arguments[j].1, earlier),
            later,
        ) == bound(e.arguments[j].1, later) by {
            lemma_binding_again(e.arguments[j].1, earlier, later);
        }
        assert(bound_keyed(bound_keyed(e.arguments, earlier), later) =~= bound_keyed(
            e.arguments,
            later,
        ));
        if let Some(slots) = e.conditions {
            assert forall|j: int| 0 <= j < slots.len() implies bound_option(
                bound_option(#[trigger] slots[j].0, earlier),
                later,
            ) == bound_option(slots[j].0, later) && bound_option(
                bound_option(slots[j].1, earlier),
                later,
            ) == bound_option(slots[j].1, later) by {
                if let Some(left) = slots[j].0 {
                    lemma_binding_again(left, earlier, later);
                }
                if let Some(right) = slots[j].1 {
                    lemma_binding_again(right, earlier, later);
                }
            }
            assert(bound_slots(bound_slots(slots, earlier), later) =~= bound_slots(slots, later));
        }
    }
    assert(bound_all(bound_all(all, earlier), later) =~= bound_all(all, later));
}

/// A statement that was bound to one id and then to another is bound to the other.
pub proof fn lemma_binding_again(a: AccessStatementView, earlier: i64, later: i64)
    ensures
        bound(bound(a, earlier), later) == bound(a, later),
{
    if let AccessStatementView::Stmt { sql, provided, binds } = a {
        assert(bound(bound(a, earlier), later)->binds =~= bound(a, later)->binds);
    }
}


/// The statements of a run are prepared at every entry: where the statements are those
/// that the transaction made of a configuration that was loaded, as they were made or
/// bound to the id of an earlier entry, binding them to the id of an entry prepares the
/// run for that entry.
pub proof fn begin_prepares_the_run(
    config: Seq<AnalyzerView>,
    before: SelectAnalyzerStatement,
    select: SelectAnalyzerStatement,
    insert: InsertAnalyerStatement,
    earlier: Option<i64>,
    result_id: i64,
)
    requires
        well_formed(config),
        select_statements(config, config.len() as int) is Ok,
        before@ == (match earlier {
            None => select_statements(config, config.len() as int)->Ok_0,
            Some(id) => bound_all(select_statements(config, config.len() as int)->Ok_0, id),
        }),
        select@ == bound_all(before@, result_id),
        named_sql(insert.analyzer@) == insert_statements(config),
    ensures
        prepared(config, select, insert, result_id),
{
    if let Some(id) = earlier {
        binding_again_binds_to_the_later_id(
            select_statements(config, config.len() as int)->Ok_0,
            id,
            result_id,
        );
    }
}

} // verus!
