//! An analyzer of the configuration, and how the texts of its arguments and conditions
//! become expressions.

use crate::config::arguments::Argument;
use crate::config::conditions::{Condition, ConditionView};
use crate::config::error::{
    argument_failure, condition_failure, ExpressionError, ExpressionErrorView, Failure,
};
use crate::config::parser::arguments_parser::{argument_rule, parse_argument};
use crate::config::parser::base_parser::{
    lemma_run_end_bounds, run_end, scan, scan_from, CharClass,
};
use crate::config::parser::conditions_parser::{condition_rule, parse_condition};
use crate::config::parser::parser_type::AccessView;
use vstd::prelude::*;
use vstd::string::*;

verus! {

/// An analyzer as the configuration file spells it: the arguments and the conditions
/// still as text.
#[derive(Debug, PartialEq)]
pub struct InnerAnalyzer {
    pub name: String,
    pub extension: String,
    pub arguments: Option<Vec<String>>,
    pub dependencies: Option<Vec<String>>,
    pub conditions: Option<String>,
}

/// An analyzer of the configuration, its arguments and conditions parsed.
#[derive(Debug, PartialEq)]
pub struct Analyzer {
    pub name: String,
    pub extension: String,
    pub arguments: Option<Vec<Argument>>,
    pub dependencies: Option<Vec<String>>,
    pub conditions: Option<Vec<Condition>>,
}

/// Mathematical value of an `InnerAnalyzer`.
pub struct InnerAnalyzerView {
    pub name: Seq<char>,
    pub extension: Seq<char>,
    pub arguments: Option<Seq<Seq<char>>>,
    pub dependencies: Option<Seq<Seq<char>>>,
    pub conditions: Option<Seq<char>>,
}

/// Mathematical value of an `Analyzer`.
pub struct AnalyzerView {
    pub name: Seq<char>,
    pub extension: Seq<char>,
    pub arguments: Option<Seq<AccessView>>,
    pub dependencies: Option<Seq<Seq<char>>>,
    pub conditions: Option<Seq<ConditionView>>,
}

/// The texts of a list of strings.
pub open spec fn texts_view(v: Seq<String>) -> Seq<Seq<char>> {
    Seq::new(v.len(), |i: int| v[i]@)
}

/// The values of a list of arguments.
pub open spec fn arguments_view(v: Seq<Argument>) -> Seq<AccessView> {
    Seq::new(v.len(), |i: int| v[i]@)
}

/// The values of a list of conditions.
pub open spec fn conditions_view(v: Seq<Condition>) -> Seq<ConditionView> {
    Seq::new(v.len(), |i: int| v[i]@)
}

/// The texts of an optional list of strings.
pub open spec fn optional_texts(v: Option<Vec<String>>) -> Option<Seq<Seq<char>>> {
    match v {
        None => None,
        Some(texts) => Some(texts_view(texts@)),
    }
}

impl View for InnerAnalyzer {
    type V = InnerAnalyzerView;

    open spec fn view(&self) -> InnerAnalyzerView {
        InnerAnalyzerView {
            name: self.name@,
            extension: self.extension@,
            arguments: optional_texts(self.arguments),
            dependencies: optional_texts(self.dependencies),
            conditions: match self.conditions {
                None => None,
                Some(text) => Some(text@),
            },
        }
    }
}

impl View for Analyzer {
    type V = AnalyzerView;

    open spec fn view(&self) -> AnalyzerView {
        AnalyzerView {
            name: self.name@,
            extension: self.extension@,
            arguments: match self.arguments {
                None => None,
                Some(v) => Some(arguments_view(v@)),
            },
            dependencies: optional_texts(self.dependencies),
            conditions: match self.conditions {
                None => None,
                Some(v) => Some(conditions_view(v@)),
            },
        }
    }
}

/// The line is made of blanks only.
pub open spec fn is_blank(line: Seq<char>) -> bool {
    run_end(line, 0, CharClass::Space) == line.len()
}

/// The arguments that the first `n` texts parse to, or the failure of the first text
/// that is no argument.
pub open spec fn arguments_of(name: Seq<char>, texts: Seq<Seq<char>>, n: int) -> Result<
    Seq<AccessView>,
    ExpressionErrorView,
>
    decreases n,
{
    if n <= 0 || n > texts.len() {
        Ok(Seq::empty())
    } else {
        match arguments_of(name, texts, n - 1) {
            Err(e) => Err(e),
            Ok(before) => match argument_rule(texts[n - 1]) {
                Ok(a) => Ok(before.push(a)),
                Err(e) => Err(
                    ExpressionErrorView {
                        analyzer: name,
                        line: texts[n - 1],
                        failure: argument_failure(e),
                    },
                ),
            },
        }
    }
}

/// Puts `first` before the conditions that `later` found.
pub open spec fn conditions_after(
    first: Seq<ConditionView>,
    later: Result<Seq<ConditionView>, ExpressionErrorView>,
) -> Result<Seq<ConditionView>, ExpressionErrorView> {
    match later {
        Ok(more) => Ok(first + more),
        Err(e) => Err(e),
    }
}

/// The conditions on the lines of `text` from position `i` on, where a line starts: each
/// line that is not blank parses to one; or the failure of the first line that does not.
pub open spec fn conditions_from(name: Seq<char>, text: Seq<char>, i: int) -> Result<
    Seq<ConditionView>,
    ExpressionErrorView,
>
    decreases text.len() - i,
{
    if i < 0 || i > text.len() {
        Ok(Seq::empty())
    } else {
        let end = run_end(text, i, CharClass::NotNewline);
        let line = text.subrange(i, end);
        let later = if end < text.len() {
            proof {
                lemma_run_end_bounds(text, i, CharClass::NotNewline);
            }
            conditions_from(name, text, end + 1)
        } else {
            Ok(Seq::empty())
        };
        if is_blank(line) {
            later
        } else {
            match condition_rule(line) {
                Ok(c) => conditions_after(seq![c], later),
                Err(e) => Err(
                    ExpressionErrorView { analyzer: name, line, failure: condition_failure(e) },
                ),
            }
        }
    }
}

/// The analyzer that the texts of the configuration stand for, or the failure of the
/// first text that does not parse: the arguments are tried before the conditions.
pub open spec fn analyzer_of(inner: InnerAnalyzerView) -> Result<
    AnalyzerView,
    ExpressionErrorView,
> {
    let arguments = match inner.arguments {
        None => Ok(None),
        Some(texts) => match arguments_of(inner.name, texts, texts.len() as int) {
            Ok(a) => Ok(Some(a)),
            Err(e) => Err(e),
        },
    };
    let conditions = match inner.conditions {
        None => Ok(None),
        Some(text) => match conditions_from(inner.name, text, 0) {
            Ok(c) => Ok(Some(c)),
            Err(e) => Err(e),
        },
    };
    match arguments {
        Err(e) => Err(e),
        Ok(a) => match conditions {
            Err(e) => Err(e),
            Ok(c) => Ok(
                AnalyzerView {
                    name: inner.name,
                    extension: inner.extension,
                    arguments: a,
                    dependencies: inner.dependencies,
                    conditions: c,
                },
            ),
        },
    }
}

/// Parses each text as an argument.
pub fn parse_arguments(name: &String, texts: &Vec<String>) -> (result: Result<
    Vec<Argument>,
    ExpressionError,
>)
    ensures
        match arguments_of(name@, texts_view(texts@), texts@.len() as int) {
            Ok(a) => result is Ok && arguments_view(result->Ok_0@) == a,
            Err(e) => result is Err && result->Err_0@ == e,
        },
{
    let mut parsed: Vec<Argument> = Vec::new();
    let mut i: usize = 0;
    proof {
        assert(arguments_view(parsed@) =~= Seq::<AccessView>::empty());
    }
    while i < texts.len()
        invariant
            0 <= i <= texts@.len(),
            arguments_of(name@, texts_view(texts@), i as int) == Ok::<
                Seq<AccessView>,
                ExpressionErrorView,
            >(arguments_view(parsed@)),
        decreases texts@.len() - i,
    {
        let ghost before = parsed@;
        match parse_argument(texts[i].as_str()) {
            Ok(argument) => {
                parsed.push(argument);
                proof {
                    assert(arguments_view(parsed@) =~= arguments_view(before).push(argument@));
                }
            },
            Err(e) => {
                let failure = Failure::from_argument(&e);
                proof {
                    lemma_arguments_error(
                        name@,
                        texts_view(texts@),
                        i as int + 1,
                        texts@.len() as int,
                    );
                }
                return Err(
                    ExpressionError {
                        analyzer: name.clone(),
                        line: texts[i].clone(),
                        kind: failure.kind,
                        rest: failure.rest,
                        message: failure.message,
                    },
                );
            },
        }
        i = i + 1;
    }
    Ok(parsed)
}

/// A failure among the first `n` texts is the failure of any longer stretch.
pub proof fn lemma_arguments_error(name: Seq<char>, texts: Seq<Seq<char>>, n: int, m: int)
    requires
        0 <= n <= m <= texts.len(),
        arguments_of(name, texts, n) is Err,
    ensures
        arguments_of(name, texts, m) == arguments_of(name, texts, n),
    decreases m - n,
{
    if n < m {
        lemma_arguments_error(name, texts, n, m - 1);
    }
}

/// Parses each line of `text` that is not blank as a condition.
pub fn parse_conditions(name: &String, text: &String) -> (result: Result<
    Vec<Condition>,
    ExpressionError,
>)
    ensures
        match conditions_from(name@, text@, 0) {
            Ok(c) => result is Ok && conditions_view(result->Ok_0@) == c,
            Err(e) => result is Err && result->Err_0@ == e,
        },
{
    let input: &str = text.as_str();
    let len: usize = input.unicode_len();
    let mut parsed: Vec<Condition> = Vec::new();
    let mut start: usize = 0;
    let mut more: bool = true;
    proof {
        assert(conditions_view(parsed@) + Seq::<ConditionView>::empty() =~= Seq::<
            ConditionView,
        >::empty());
        let whole = conditions_from(name@, text@, 0);
        if let Ok(c) = whole {
            assert(Seq::<ConditionView>::empty() + c =~= c);
        }
    }
    while more
        invariant
            input@ == text@,
            len == text@.len(),
            0 <= start <= len,
            conditions_from(name@, text@, 0) == conditions_after(
                conditions_view(parsed@),
                if more {
                    conditions_from(name@, text@, start as int)
                } else {
                    Ok(Seq::empty())
                },
            ),
        decreases len - start + (if more { 1nat } else { 0nat }),
    {
        let end: usize = scan_from(input, start, CharClass::NotNewline);
        let line: &str = input.substring_char(start, end);
        let ghost before = parsed@;
        let ghost later = if end < len {
            conditions_from(name@, text@, end + 1)
        } else {
            Ok(Seq::empty())
        };
        if scan(line, CharClass::Space) < line.unicode_len() {
            match parse_condition(line) {
                Ok(condition) => {
                    parsed.push(condition);
                    proof {
                        assert(conditions_view(parsed@) =~= conditions_view(before)
                            + seq![condition@]);
                        if let Ok(more_conditions) = later {
                            assert(conditions_view(before) + (seq![condition@] + more_conditions)
                                =~= conditions_view(parsed@) + more_conditions);
                        }
                    }
                },
                Err(e) => {
                    let failure = Failure::from_condition(&e);
                    return Err(
                        ExpressionError {
                            analyzer: name.clone(),
                            line: String::from_str(line),
                            kind: failure.kind,
                            rest: failure.rest,
                            message: failure.message,
                        },
                    );
                },
            }
        }
        if end < len {
            start = end + 1;
        } else {
            more = false;
        }
    }
    proof {
        assert(conditions_view(parsed@) + Seq::<ConditionView>::empty() =~= conditions_view(
            parsed@,
        ));
    }
    Ok(parsed)
}

impl Analyzer {
    /// The analyzer that an entry of the configuration file stands for: each argument
    /// text parsed as an argument, each line of the conditions that is not blank parsed
    /// as a condition.
    pub fn deserialize(inner: &InnerAnalyzer) -> (result: Result<Analyzer, ExpressionError>)
        ensures
            match analyzer_of(inner@) {
                Ok(a) => result is Ok && result->Ok_0@ == a,
                Err(e) => result is Err && result->Err_0@ == e,
            },
    {
        let arguments: Option<Vec<Argument>> = match &inner.arguments {
            None => None,
            Some(texts) => match parse_arguments(&inner.name, texts) {
                Ok(parsed) => Some(parsed),
                Err(e) => { return Err(e); },
            },
        };
        let conditions: Option<Vec<Condition>> = match &inner.conditions {
            None => None,
            Some(text) => match parse_conditions(&inner.name, text) {
                Ok(parsed) => Some(parsed),
                Err(e) => { return Err(e); },
            },
        };
        let dependencies: Option<Vec<String>> = match &inner.dependencies {
            None => None,
            Some(names) => Some(clone_texts(names)),
        };
        Ok(
            Analyzer {
                name: inner.name.clone(),
                extension: inner.extension.clone(),
                arguments,
                dependencies,
                conditions,
            },
        )
    }
}

/// A copy of a list of strings.
pub fn clone_texts(texts: &Vec<String>) -> (copy: Vec<String>)
    ensures
        texts_view(copy@) == texts_view(texts@),
{
    let mut copy: Vec<String> = Vec::new();
    let mut i: usize = 0;
    while i < texts.len()
        invariant
            0 <= i <= texts@.len(),
            copy@.len() == i,
            forall|j: int| 0 <= j < i ==> (#[trigger] copy@[j])@ == texts@[j]@,
        decreases texts@.len() - i,
    {
        copy.push(texts[i].clone());
        i = i + 1;
    }
    proof {
        assert(texts_view(copy@) =~= texts_view(texts@));
    }
    copy
}

} // verus!
