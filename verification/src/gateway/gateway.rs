//! The work on one entry, step by step: each step takes in what came of the step
//! before and says what to do next.

use crate::config::analyzer::AnalyzerView;
use crate::config::config::Config;
use crate::database::database::{
    bound_all, entry_view, lemma_named_position, named_position, Execution, ExecutionView,
    InsertAnalyerStatement, ParamView, SelectAnalyzerStatement, Transaction,
};
use crate::database::evaluate::{
    assembly, evaluation, Answer, Progress, Reply, Request, RequestView,
};
use crate::database::error::Error as DatabaseError;
use crate::gateway::error::Error;
use crate::json::{inserted, lemma_object_view, members_view, object_insert, Json, JsonView};
use vstd::prelude::*;
use vstd::string::*;

verus! {

/// Where the work on one entry stands.
#[derive(Debug, PartialEq, Eq, Clone, Copy)]
pub enum Stage {
    /// The path of the entry is with the store; its id is awaited.
    Path,
    /// The conditions of the analyzer under way are being evaluated.
    Conditions,
    /// The arguments of the analyzer under way are being gathered.
    Arguments,
    /// The analyzer under way is running; its output is awaited.
    Dispatched,
    /// The output of the analyzer under way is with the store.
    Inserting,
}

/// The work on one entry of the firmware tree: its result id and its paths, the
/// position of the analyzer under way, and the answers given in the stage under way.
#[derive(Debug, PartialEq)]
pub struct EntryRun {
    pub result_id: i64,
    pub relative_path: String,
    pub absolute_path: String,
    pub analyzer: usize,
    pub stage: Stage,
    pub answers: Vec<Answer>,
}

/// Mathematical value of an `EntryRun`.
pub struct RunView {
    pub result_id: i64,
    pub relative_path: Seq<char>,
    pub absolute_path: Seq<char>,
    pub analyzer: int,
    pub stage: Stage,
    pub answers: Seq<Answer>,
}

impl View for EntryRun {
    type V = RunView;

    open spec fn view(&self) -> RunView {
        RunView {
            result_id: self.result_id,
            relative_path: self.relative_path@,
            absolute_path: self.absolute_path@,
            analyzer: self.analyzer as int,
            stage: self.stage,
            answers: self.answers@,
        }
    }
}

/// What the program around the library reports after it did what it was asked to do.
#[derive(Debug, PartialEq)]
pub enum Event {
    /// The store recorded the path of the entry under this id.
    Recorded(i64),
    /// The answer to a request.
    Answer(Answer),
    /// The output of the analyzer that was run.
    Output(Json),
    /// The store recorded the output of the analyzer.
    Inserted,
}

/// What the library asks the program around it to do next.
#[derive(Debug, PartialEq)]
pub enum Action {
    /// Answer the request.
    Ask(Request),
    /// Run the analyzer at this position of the configuration on these arguments.
    Dispatch { analyzer: usize, args: Json },
    /// Have the store run the statement.
    Insert(Execution),
    /// Nothing: the entry is done.
    Finished,
}

/// Mathematical value of an `Action`.
pub enum ActionView {
    Ask(RequestView),
    Dispatch { analyzer: int, args: JsonView },
    Insert(ExecutionView),
    Finished,
}

impl View for Action {
    type V = ActionView;

    open spec fn view(&self) -> ActionView {
        match self {
            Action::Ask(r) => ActionView::Ask(r@),
            Action::Dispatch { analyzer, args } => ActionView::Dispatch {
                analyzer: *analyzer as int,
                args: args@,
            },
            Action::Insert(e) => ActionView::Insert(e@),
            Action::Finished => ActionView::Finished,
        }
    }
}

/// What a step comes to: an action, a failure, or the failure that no statements stand
/// under the name of an analyzer.
pub enum Outcome {
    Action(ActionView),
    Failed(Error),
    Unknown(Seq<char>),
}

/// The failure of an event that the stage under way does not wait for.
pub open spec fn unexpected() -> Outcome {
    Outcome::Failed(Error::DatabaseError(DatabaseError::MismatchedBindType()))
}

/// The arguments as they are handed to the analyzer: with the two paths of the entry
/// under `relative_path` and `absolute_path`.
pub open spec fn with_paths(
    members: Seq<(Seq<char>, JsonView)>,
    relative_path: Seq<char>,
    absolute_path: Seq<char>,
) -> JsonView {
    JsonView::Object(
        inserted(
            inserted(members, "relative_path"@, JsonView::String(relative_path)),
            "absolute_path"@,
            JsonView::String(absolute_path),
        ),
    )
}

/// The run after it took in `event`, and what that alone comes to, if anything.
///
/// The id under which the store recorded the path must be the id of the run. An answer
/// joins the answers of the stage under way. The output of the analyzer goes to the
/// store under the id of the run. Once the store has it, the next analyzer is under way.
pub open spec fn taken_in(
    config: Seq<AnalyzerView>,
    insert: InsertAnalyerStatement,
    run: RunView,
    event: Event,
) -> (RunView, Option<Outcome>) {
    match run.stage {
        Stage::Path => match event {
            Event::Recorded(id) => if id == run.result_id {
                (
                    RunView { analyzer: 0, stage: Stage::Conditions, answers: Seq::empty(), ..run },
                    None,
                )
            } else {
                (run, Some(unexpected()))
            },
            _ => (run, Some(unexpected())),
        },
        Stage::Conditions | Stage::Arguments => match event {
            Event::Answer(a) => if 0 <= run.analyzer < config.len() {
                (RunView { answers: run.answers.push(a), ..run }, None)
            } else {
                (run, Some(unexpected()))
            },
            _ => (run, Some(unexpected())),
        },
        Stage::Dispatched => match event {
            Event::Output(output) => if 0 <= run.analyzer < config.len() {
                let at = named_position(insert.analyzer@, config[run.analyzer].name, 0);
                if at < insert.analyzer@.len() {
                    (
                        RunView { stage: Stage::Inserting, ..run },
                        Some(
                            Outcome::Action(
                                ActionView::Insert(
                                    ExecutionView {
                                        sql: insert.analyzer@[at].1.sql@,
                                        params: seq![
                                            ParamView::Integer(run.result_id),
                                            ParamView::Json(output@),
                                        ],
                                    },
                                ),
                            ),
                        ),
                    )
                } else {
                    (
                        run,
                        Some(
                            Outcome::Failed(
                                Error::DatabaseError(DatabaseError::NoAnalyzerName()),
                            ),
                        ),
                    )
                }
            } else {
                (run, Some(unexpected()))
            },
            _ => (run, Some(unexpected())),
        },
        Stage::Inserting => match event {
            Event::Inserted => if 0 <= run.analyzer < config.len() {
                (
                    RunView {
                        analyzer: run.analyzer + 1,
                        stage: Stage::Conditions,
                        answers: Seq::empty(),
                        ..run
                    },
                    None,
                )
            } else {
                (run, Some(unexpected()))
            },
            _ => (run, Some(unexpected())),
        },
    }
}

/// The rank of a stage among those in which the library goes on by itself.
pub open spec fn stage_rank(stage: Stage) -> nat {
    match stage {
        Stage::Conditions => 1,
        _ => 0,
    }
}

/// The run as far as the library can take it by itself, and where it stops.
///
/// The analyzers are taken in the order of the configuration. An analyzer whose
/// conditions do not all hold is passed over. One whose conditions hold, or that has
/// none, has its arguments gathered and is run. The run stops where an answer is
/// needed, where an analyzer is to be run, where something fails, or at the end of the
/// analyzers.
pub open spec fn advanced(
    config: Seq<AnalyzerView>,
    select: SelectAnalyzerStatement,
    run: RunView,
) -> (RunView, Outcome)
    decreases config.len() - run.analyzer, stage_rank(run.stage),
{
    if run.analyzer < 0 || run.analyzer >= config.len() {
        (run, Outcome::Action(ActionView::Finished))
    } else {
        let analyzer = config[run.analyzer];
        let at = named_position(select.stmt@, analyzer.name, 0);
        if at >= select.stmt@.len() {
            (run, Outcome::Unknown(analyzer.name))
        } else {
            let entry = select@[at];
            match run.stage {
                Stage::Conditions => if analyzer.conditions is Some && entry.conditions is Some {
                    match evaluation(analyzer.conditions->0, entry.conditions->0, run.answers) {
                        Progress::Ask(request) => (run, Outcome::Action(ActionView::Ask(request))),
                        Progress::Failed(e) => (run, Outcome::Failed(Error::DatabaseError(e))),
                        Progress::Done { value, next } => if value {
                            advanced(
                                config,
                                select,
                                RunView { stage: Stage::Arguments, answers: Seq::empty(), ..run },
                            )
                        } else {
                            advanced(
                                config,
                                select,
                                RunView {
                                    analyzer: run.analyzer + 1,
                                    stage: Stage::Conditions,
                                    answers: Seq::empty(),
                                    ..run
                                },
                            )
                        },
                    }
                } else if analyzer.conditions is None && entry.conditions is None {
                    advanced(
                        config,
                        select,
                        RunView { stage: Stage::Arguments, answers: Seq::empty(), ..run },
                    )
                } else {
                    (run, Outcome::Failed(Error::DiffCondAndCondStmt()))
                },
                Stage::Arguments => match assembly(
                    entry.arguments,
                    entry.arguments.len() as int,
                    run.answers,
                ) {
                    Progress::Ask(request) => (run, Outcome::Action(ActionView::Ask(request))),
                    Progress::Failed(e) => (run, Outcome::Failed(Error::DatabaseError(e))),
                    Progress::Done { value, next } => (
                        RunView { stage: Stage::Dispatched, answers: Seq::empty(), ..run },
                        Outcome::Action(
                            ActionView::Dispatch {
                                analyzer: run.analyzer,
                                args: with_paths(value, run.relative_path, run.absolute_path),
                            },
                        ),
                    ),
                },
                _ => (run, unexpected()),
            }
        }
    }
}

/// One step of the work on an entry: the run takes in the event, and unless that alone
/// comes to something, goes on as far as the library can take it by itself.
pub open spec fn step(
    config: Seq<AnalyzerView>,
    select: SelectAnalyzerStatement,
    insert: InsertAnalyerStatement,
    run: RunView,
    event: Event,
) -> (RunView, Outcome) {
    let (taken, outcome) = taken_in(config, insert, run, event);
    match outcome {
        Some(o) => (taken, o),
        None => advanced(config, select, taken),
    }
}

/// Whether an exec step says what `expected` says, and leaves the run as expected.
pub open spec fn step_agrees(
    result: Result<Action, Error>,
    run: RunView,
    expected: (RunView, Outcome),
) -> bool {
    run == expected.0 && match expected.1 {
        Outcome::Action(action) => result is Ok && result->Ok_0@ == action,
        Outcome::Failed(e) => result is Err && result->Err_0 == e,
        Outcome::Unknown(name) => match result {
            Err(Error::DatabaseError(DatabaseError::NotAnalyzerNameInDataBase(n))) => n@ == name,
            _ => false,
        },
    }
}

impl EntryRun {
    /// Begins the work on an entry: the entry gets the next id of the transaction, every
    /// statement that reads is bound to that id, and the store is to record the relative
    /// path.
    pub fn begin(
        tx: &mut Transaction,
        select: &mut SelectAnalyzerStatement,
        insert: &InsertAnalyerStatement,
        relative_path: &str,
        absolute_path: &str,
    ) -> (started: (EntryRun, Execution))
        requires
            old(tx).next_result_id < i64::MAX,
        ensures
            final(tx).next_result_id == old(tx).next_result_id + 1,
            final(select)@ == bound_all(old(select)@, old(tx).next_result_id),
            started.0@ == (RunView {
                result_id: old(tx).next_result_id,
                relative_path: relative_path@,
                absolute_path: absolute_path@,
                analyzer: 0,
                stage: Stage::Path,
                answers: Seq::empty(),
            }),
            started.1@ == (ExecutionView {
                sql: insert.result.sql@,
                params: seq![ParamView::Text(relative_path@)],
            }),
    {
        let result_id: i64 = tx.next_result_id();
        select.bind(result_id);
        let run = EntryRun {
            result_id,
            relative_path: String::from_str(relative_path),
            absolute_path: String::from_str(absolute_path),
            analyzer: 0,
            stage: Stage::Path,
            answers: Vec::new(),
        };
        (run, insert.insert_path(relative_path))
    }
}

/// Takes the work on an entry one step further: `event` is what came of the action of
/// the step before, and the result is what to do next.
pub fn analyze(
    config: &Config,
    select: &SelectAnalyzerStatement,
    insert: &InsertAnalyerStatement,
    run: &mut EntryRun,
    event: Event,
) -> (result: Result<Action, Error>)
    ensures
        step_agrees(result, final(run)@, step(config@, *select, *insert, old(run)@, event)),
{
    let n: usize = config.analyzer.len();
    match run.stage {
        Stage::Path => match event {
            Event::Recorded(id) => {
                if id != run.result_id {
                    return Err(Error::DatabaseError(DatabaseError::MismatchedBindType()));
                }
                run.analyzer = 0;
                run.stage = Stage::Conditions;
                run.answers.clear();
                proof {
                    assert(run.answers@ =~= Seq::<Answer>::empty());
                }
            },
            _ => { return Err(Error::DatabaseError(DatabaseError::MismatchedBindType())); },
        },
        Stage::Conditions | Stage::Arguments => match event {
            Event::Answer(a) => {
                if run.analyzer >= n {
                    return Err(Error::DatabaseError(DatabaseError::MismatchedBindType()));
                }
                run.answers.push(a);
            },
            _ => { return Err(Error::DatabaseError(DatabaseError::MismatchedBindType())); },
        },
        Stage::Dispatched => match event {
            Event::Output(output) => {
                if run.analyzer >= n {
                    return Err(Error::DatabaseError(DatabaseError::MismatchedBindType()));
                }
                proof {
                    assert(config@[run.analyzer as int] == config.analyzer@[run.analyzer as int]@);
                }
                let name: &str = config.analyzer[run.analyzer].name.as_str();
                return match insert.insert_analyzer(name, run.result_id, output) {
                    Ok(execution) => {
                        run.stage = Stage::Inserting;
                        Ok(Action::Insert(execution))
                    },
                    Err(e) => Err(Error::DatabaseError(e)),
                };
            },
            _ => { return Err(Error::DatabaseError(DatabaseError::MismatchedBindType())); },
        },
        Stage::Inserting => match event {
            Event::Inserted => {
                if run.analyzer >= n {
                    return Err(Error::DatabaseError(DatabaseError::MismatchedBindType()));
                }
                run.analyzer = run.analyzer + 1;
                run.stage = Stage::Conditions;
                run.answers.clear();
                proof {
                    assert(run.answers@ =~= Seq::<Answer>::empty());
                }
            },
            _ => { return Err(Error::DatabaseError(DatabaseError::MismatchedBindType())); },
        },
    }
    let ghost expected = step(config@, *select, *insert, old(run)@, event);
    while run.analyzer < n
        invariant
            n == config.analyzer@.len(),
            0 <= run.analyzer <= n,
            expected == step(config@, *select, *insert, old(run)@, event),
            expected == advanced(config@, *select, run@),
        decreases 2 * (n - run.analyzer) + stage_rank(run.stage),
    {
        proof {
            assert(config@[run.analyzer as int] == config.analyzer@[run.analyzer as int]@);
            lemma_named_position(
                select.stmt@,
                config.analyzer@[run.analyzer as int].name@,
                0,
            );
        }
        let analyzer = &config.analyzer[run.analyzer];
        let entry = match select.get_stmt(analyzer.name.as_str()) {
            Ok(entry) => entry,
            Err(e) => { return Err(Error::DatabaseError(e)); },
        };
        proof {
            let at = named_position(select.stmt@, analyzer.name@, 0);
            assert(select@[at] == entry_view(select.stmt@[at]));
        }
        match run.stage {
            Stage::Conditions => match &analyzer.conditions {
                Some(conditions) => match &entry.1 {
                    Some(statements) => match statements.is_match_condition(
                        conditions,
                        &run.answers,
                    ) {
                        Err(e) => { return Err(Error::DatabaseError(e)); },
                        Ok(Reply::Ask(request)) => { return Ok(Action::Ask(request)); },
                        Ok(Reply::Done(holds)) => {
                            run.answers.clear();
                            proof {
                                assert(run.answers@ =~= Seq::<Answer>::empty());
                            }
                            if holds {
                                run.stage = Stage::Arguments;
                            } else {
                                run.analyzer = run.analyzer + 1;
                            }
                        },
                    },
                    None => { return Err(Error::DiffCondAndCondStmt()); },
                },
                None => match &entry.1 {
                    Some(_) => { return Err(Error::DiffCondAndCondStmt()); },
                    None => {
                        run.answers.clear();
                        proof {
                            assert(run.answers@ =~= Seq::<Answer>::empty());
                        }
                        run.stage = Stage::Arguments;
                    },
                },
            },
            Stage::Arguments => match entry.0.get_argument(&run.answers) {
                Err(e) => { return Err(Error::DatabaseError(e)); },
                Ok(Reply::Ask(request)) => { return Ok(Action::Ask(request)); },
                Ok(Reply::Done(gathered)) => {
                    let mut members: Vec<(String, Json)> = match gathered {
                        Json::Object(members) => {
                            proof {
                                lemma_object_view(members);
                            }
                            members
                        },
                        _ => Vec::new(),
                    };
                    object_insert(
                        &mut members,
                        String::from_str("relative_path"),
                        Json::String(run.relative_path.clone()),
                    );
                    object_insert(
                        &mut members,
                        String::from_str("absolute_path"),
                        Json::String(run.absolute_path.clone()),
                    );
                    proof {
                        lemma_object_view(members);
                    }
                    run.answers.clear();
                    proof {
                        assert(run.answers@ =~= Seq::<Answer>::empty());
                    }
                    run.stage = Stage::Dispatched;
                    return Ok(
                        Action::Dispatch { analyzer: run.analyzer, args: Json::Object(members) },
                    );
                },
            },
            _ => { return Err(Error::DatabaseError(DatabaseError::MismatchedBindType())); },
        }
    }
    Ok(Action::Finished)
}


/// The analyzer has no conditions: none were configured, or the text of its conditions
/// held no line.
pub open spec fn unconditional(analyzer: AnalyzerView) -> bool {
    analyzer.conditions is None || analyzer.conditions->0.len() == 0
}

/// What holds wherever the library takes a run by itself: the id and the paths of the
/// entry stay, the analyzer under way never goes back, and an analyzer is run only as
/// the analyzer under way, which then waits for its output.
pub proof fn lemma_advanced_keeps_the_entry(
    config: Seq<AnalyzerView>,
    select: SelectAnalyzerStatement,
    run: RunView,
)
    ensures
        advanced(config, select, run).0.result_id == run.result_id,
        advanced(config, select, run).0.relative_path == run.relative_path,
        advanced(config, select, run).0.absolute_path == run.absolute_path,
        advanced(config, select, run).0.analyzer >= run.analyzer,
        !(advanced(config, select, run).1 matches Outcome::Action(ActionView::Insert(_))),
        advanced(config, select, run).1 matches Outcome::Action(
            ActionView::Dispatch { analyzer, args },
        ) ==> analyzer == advanced(config, select, run).0.analyzer && advanced(
            config,
            select,
            run,
        ).0.stage == Stage::Dispatched,
    decreases config.len() - run.analyzer, stage_rank(run.stage),
{
    if 0 <= run.analyzer < config.len() {
        let analyzer = config[run.analyzer];
        let at = named_position(select.stmt@, analyzer.name, 0);
        if at < select.stmt@.len() {
            let entry = select@[at];
            if run.stage == Stage::Conditions {
                let to_arguments = RunView {
                    stage: Stage::Arguments,
                    answers: Seq::empty(),
                    ..run
                };
                let to_next = RunView {
                    analyzer: run.analyzer + 1,
                    stage: Stage::Conditions,
                    answers: Seq::empty(),
                    ..run
                };
                lemma_advanced_keeps_the_entry(config, select, to_arguments);
                lemma_advanced_keeps_the_entry(config, select, to_next);
            }
        }
    }
}

/// Every output goes to the store under the id of the entry that it belongs to.
///
/// A step asks the store to record something only when it took in the output of the
/// analyzer that was run, and then the first value of the statement is the id of the
/// run; no step changes that id. A run leaves its first stage only when the store
/// recorded its path under that very id.
pub proof fn outputs_are_recorded_under_the_id_of_their_entry(
    config: Seq<AnalyzerView>,
    select: SelectAnalyzerStatement,
    insert: InsertAnalyerStatement,
    run: RunView,
    event: Event,
)
    ensures
        step(config, select, insert, run, event).0.result_id == run.result_id,
        step(config, select, insert, run, event).1 matches Outcome::Action(
            ActionView::Insert(execution),
        ) ==> run.stage == Stage::Dispatched && event is Output && execution.params
            == seq![ParamView::Integer(run.result_id), ParamView::Json(event->Output_0@)],
        run.stage == Stage::Path && step(config, select, insert, run, event).1 is Action ==> event
            == Event::Recorded(run.result_id),
{
    let (taken, outcome) = taken_in(config, insert, run, event);
    if outcome is None {
        lemma_advanced_keeps_the_entry(config, select, taken);
    }
}

/// An analyzer is run at most once for an entry.
///
/// No step takes the analyzer under way back. A step that has an analyzer run has the
/// one under way run and then waits for its output; while a run waits for an output it
/// has no analyzer run, and once the store has the output, only a later analyzer can be
/// run.
pub proof fn an_analyzer_is_run_at_most_once_for_an_entry(
    config: Seq<AnalyzerView>,
    select: SelectAnalyzerStatement,
    insert: InsertAnalyerStatement,
    run: RunView,
    event: Event,
)
    ensures
        step(config, select, insert, run, event).0.analyzer >= run.analyzer || run.stage
            == Stage::Path,
        step(config, select, insert, run, event).1 matches Outcome::Action(
            ActionView::Dispatch { analyzer, args },
        ) ==> {
            &&& analyzer == step(config, select, insert, run, event).0.analyzer
            &&& step(config, select, insert, run, event).0.stage == Stage::Dispatched
            &&& run.stage != Stage::Dispatched
            &&& run.stage == Stage::Inserting ==> analyzer > run.analyzer
        },
{
    let (taken, outcome) = taken_in(config, insert, run, event);
    if outcome is None {
        lemma_advanced_keeps_the_entry(config, select, taken);
    }
}

/// An analyzer without conditions is never passed over: where the library takes the run
/// on from such an analyzer, it stops at a request for one of its arguments or at the
/// action that has it run, unless something fails.
pub proof fn an_analyzer_without_conditions_is_run(
    config: Seq<AnalyzerView>,
    select: SelectAnalyzerStatement,
    run: RunView,
)
    requires
        0 <= run.analyzer < config.len(),
        unconditional(config[run.analyzer]),
        run.stage == Stage::Conditions || run.stage == Stage::Arguments,
    ensures
        advanced(config, select, run).1 matches Outcome::Action(action) ==> {
            &&& advanced(config, select, run).0.analyzer == run.analyzer
            &&& action is Ask || (action matches ActionView::Dispatch { analyzer, args }
                && analyzer == run.analyzer)
            &&& action is Ask ==> advanced(config, select, run).0.stage == Stage::Arguments
        },
{
    let analyzer = config[run.analyzer];
    let at = named_position(select.stmt@, analyzer.name, 0);
    if at < select.stmt@.len() {
        let entry = select@[at];
        if run.stage == Stage::Conditions {
            let to_arguments = RunView { stage: Stage::Arguments, answers: Seq::empty(), ..run };
            assert(advanced(config, select, to_arguments).0.analyzer == run.analyzer);
            if analyzer.conditions is Some && entry.conditions is Some {
                if entry.conditions->0.len() == 0 {
                    assert(evaluation(analyzer.conditions->0, entry.conditions->0, run.answers)
                        == (Progress::Done { value: true, next: 0 }));
                }
            }
        }
    }
}


/// Without analyzers an entry is done once the store recorded its path: the library has
/// nothing run and nothing more recorded.
pub proof fn a_run_without_analyzers_only_records_paths(
    select: SelectAnalyzerStatement,
    insert: InsertAnalyerStatement,
    run: RunView,
)
    requires
        run.stage == Stage::Path,
    ensures
        step(Seq::empty(), select, insert, run, Event::Recorded(run.result_id)).1
            == Outcome::Action(ActionView::Finished),
{
}

} // verus!
