//! What holds of the expressions of every configuration that was loaded.

use crate::config::analyzer::{
    analyzer_of, arguments_of, conditions_after, conditions_from, is_blank, AnalyzerView,
    InnerAnalyzerView,
};
use crate::config::conditions::ConditionView;
use crate::config::config::loaded;
use crate::config::parser::arguments_parser::argument_rule;
use crate::config::parser::base_parser::{
    lemma_run_end_bounds, rest_of, run_end, whitespace_rule, CharClass,
};
use crate::config::parser::conditions_parser::condition_rule;
use crate::config::parser::parser_type::AccessView;
use crate::config::parser::round_trip::{
    access_ok, lemma_access_rule_gives, lemma_condition_rule_gives, value_ok,
};
use vstd::prelude::*;

verus! {

/// Every argument and every side of every condition is one that the parser can give.
pub open spec fn expressions_ok(analyzer: AnalyzerView) -> bool {
    &&& analyzer.arguments is Some ==> forall|i: int|
        0 <= i < analyzer.arguments->0.len() ==> access_ok(#[trigger] analyzer.arguments->0[i])
    &&& analyzer.conditions is Some ==> forall|i: int|
        #![trigger analyzer.conditions->0[i]]
        0 <= i < analyzer.conditions->0.len() ==> value_ok(analyzer.conditions->0[i].left)
            && value_ok(analyzer.conditions->0[i].right)
}

/// The arguments that texts parse to are accessors that the parser can give.
pub proof fn lemma_arguments_are_parsed(name: Seq<char>, texts: Seq<Seq<char>>, n: int)
    requires
        0 <= n <= texts.len(),
        arguments_of(name, texts, n) is Ok,
    ensures
        forall|i: int|
            0 <= i < arguments_of(name, texts, n)->Ok_0.len() ==> access_ok(
                #[trigger] arguments_of(name, texts, n)->Ok_0[i],
            ),
    decreases n,
{
    if n > 0 {
        lemma_arguments_are_parsed(name, texts, n - 1);
        let before = arguments_of(name, texts, n - 1)->Ok_0;
        let text = texts[n - 1];
        let start = rest_of(whitespace_rule(text), text);
        lemma_access_rule_gives(start);
        let all = arguments_of(name, texts, n)->Ok_0;
        assert(all == before.push(argument_rule(text)->Ok_0));
        assert forall|i: int| 0 <= i < all.len() implies access_ok(#[trigger] all[i]) by {
            if i < before.len() {
                assert(all[i] == before[i]);
            }
        }
    }
}

/// The conditions that the lines of a text parse to have sides that the parser can give.
pub proof fn lemma_conditions_are_parsed(name: Seq<char>, text: Seq<char>, i: int)
    requires
        conditions_from(name, text, i) is Ok,
    ensures
        forall|j: int|
            #![trigger conditions_from(name, text, i)->Ok_0[j]]
            0 <= j < conditions_from(name, text, i)->Ok_0.len() ==> value_ok(
                conditions_from(name, text, i)->Ok_0[j].left,
            ) && value_ok(conditions_from(name, text, i)->Ok_0[j].right),
    decreases text.len() - i,
{
    if 0 <= i <= text.len() {
        let end = run_end(text, i, CharClass::NotNewline);
        let line = text.subrange(i, end);
        lemma_run_end_bounds(text, i, CharClass::NotNewline);
        let later = if end < text.len() {
            conditions_from(name, text, end + 1)
        } else {
            Ok(Seq::empty())
        };
        if end < text.len() {
            lemma_conditions_are_parsed(name, text, end + 1);
        }
        if !is_blank(line) {
            lemma_condition_rule_gives(line);
            let first = condition_rule(line)->Ok_0;
            let all = conditions_from(name, text, i)->Ok_0;
            assert(all == seq![first] + later->Ok_0);
            assert forall|j: int| #![trigger all[j]] 0 <= j < all.len() implies value_ok(
                all[j].left,
            ) && value_ok(all[j].right) by {
                if j > 0 {
                    assert(all[j] == later->Ok_0[j - 1]);
                }
            }
        }
    }
}

/// Every expression of a configuration that was loaded is one that the parser gave:
/// what is proved of parsed accessors and conditions holds of those of the
/// configuration.
pub proof fn loaded_expressions_are_parsed(entries: Seq<InnerAnalyzerView>, n: int)
    requires
        loaded(entries, n) is Ok,
    ensures
        forall|i: int|
            0 <= i < loaded(entries, n)->Ok_0.len() ==> expressions_ok(
                #[trigger] loaded(entries, n)->Ok_0[i],
            ),
    decreases n,
{
    if 0 < n <= entries.len() {
        loaded_expressions_are_parsed(entries, n - 1);
        let before = loaded(entries, n - 1)->Ok_0;
        let inner = entries[n - 1];
        let analyzer = analyzer_of(inner)->Ok_0;
        let all = loaded(entries, n)->Ok_0;
        assert(all == before.push(analyzer));
        if let Some(texts) = inner.arguments {
            lemma_arguments_are_parsed(inner.name, texts, texts.len() as int);
        }
        if let Some(text) = inner.conditions {
            lemma_conditions_are_parsed(inner.name, text, 0);
        }
        assert(expressions_ok(analyzer));
        assert forall|i: int| 0 <= i < all.len() implies expressions_ok(#[trigger] all[i]) by {
            if i < before.len() {
                assert(all[i] == before[i]);
            }
        }
    }
}

} // verus!
