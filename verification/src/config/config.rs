//! The configuration as a whole, and the rules that its analyzers keep.

use crate::config::analyzer::{
    analyzer_of, conditions_view, texts_view, Analyzer, AnalyzerView, InnerAnalyzer,
    InnerAnalyzerView,
};
use crate::config::conditions::{Condition, ConditionView};
use crate::config::error::{Error, ErrorView, ValidationError, ValidationErrorView};
use crate::config::names::{check_identifier, check_reserved, is_identifier, is_reserved};
use crate::config::parser::parser_type::Chain;
use vstd::prelude::*;
use vstd::string::*;

verus! {

/// The analyzers of a run, in the order in which they are run.
#[derive(Debug, PartialEq)]
pub struct Config {
    pub analyzer: Vec<Analyzer>,
}

/// The values of a list of analyzers.
pub open spec fn analyzers_view(v: Seq<Analyzer>) -> Seq<AnalyzerView> {
    Seq::new(v.len(), |i: int| v[i]@)
}

/// The values of the entries of a configuration file.
pub open spec fn entries_view(v: Seq<InnerAnalyzer>) -> Seq<InnerAnalyzerView> {
    Seq::new(v.len(), |i: int| v[i]@)
}

impl View for Config {
    type V = Seq<AnalyzerView>;

    open spec fn view(&self) -> Seq<AnalyzerView> {
        analyzers_view(self.analyzer@)
    }
}

/// One of the first `n` analyzers has the name `name`.
pub open spec fn has_name(analyzers: Seq<AnalyzerView>, name: Seq<char>, n: int) -> bool
    decreases n,
{
    if n <= 0 || n > analyzers.len() {
        false
    } else {
        analyzers[n - 1].name == name || has_name(analyzers, name, n - 1)
    }
}

/// The first of the first `n` dependencies that is the name of none of `earlier`.
pub open spec fn first_unknown(
    dependencies: Seq<Seq<char>>,
    earlier: Seq<AnalyzerView>,
    n: int,
) -> Option<Seq<char>>
    decreases n,
{
    if n <= 0 || n > dependencies.len() {
        None
    } else {
        match first_unknown(dependencies, earlier, n - 1) {
            Some(d) => Some(d),
            None => if has_name(earlier, dependencies[n - 1], earlier.len() as int) {
                None
            } else {
                Some(dependencies[n - 1])
            },
        }
    }
}

/// One of the first `n` conditions ends in `or`.
pub open spec fn has_or(conditions: Seq<ConditionView>, n: int) -> bool
    decreases n,
{
    if n <= 0 || n > conditions.len() {
        false
    } else {
        conditions[n - 1].chain == Some(Chain::Or) || has_or(conditions, n - 1)
    }
}

/// The rule that the analyzer at `position` breaks, `earlier` being the analyzers before
/// it; the rules are tried in the order in which `ValidationError` lists them.
pub open spec fn broken_rule(
    a: AnalyzerView,
    position: usize,
    earlier: Seq<AnalyzerView>,
) -> Option<ValidationErrorView> {
    if a.name.len() == 0 {
        Some(ValidationErrorView::EmptyName(position))
    } else if !is_identifier(a.name) {
        Some(ValidationErrorView::InvalidName(a.name))
    } else if is_reserved(a.name) {
        Some(ValidationErrorView::ReservedName(a.name))
    } else if has_name(earlier, a.name, earlier.len() as int) {
        Some(ValidationErrorView::DuplicateName(a.name))
    } else if a.dependencies is Some && first_unknown(
        a.dependencies->0,
        earlier,
        a.dependencies->0.len() as int,
    ) is Some {
        Some(
            ValidationErrorView::UnknownDependency {
                analyzer: a.name,
                dependency: first_unknown(
                    a.dependencies->0,
                    earlier,
                    a.dependencies->0.len() as int,
                )->0,
            },
        )
    } else if a.conditions is Some && has_or(a.conditions->0, a.conditions->0.len() as int) {
        Some(ValidationErrorView::UnsupportedChain { analyzer: a.name })
    } else {
        None
    }
}

/// The analyzers that the first `n` entries stand for, or why the first entry that is
/// refused is refused: it does not parse, or it breaks a rule.
pub open spec fn loaded(entries: Seq<InnerAnalyzerView>, n: int) -> Result<
    Seq<AnalyzerView>,
    ErrorView,
>
    decreases n,
{
    if n <= 0 || n > entries.len() {
        Ok(Seq::empty())
    } else {
        match loaded(entries, n - 1) {
            Err(e) => Err(e),
            Ok(earlier) => match analyzer_of(entries[n - 1]) {
                Err(e) => Err(ErrorView::ExpressionParse(e)),
                Ok(a) => match broken_rule(a, (n - 1) as usize, earlier) {
                    Some(rule) => Err(ErrorView::ConfigValidation(rule)),
                    None => Ok(earlier.push(a)),
                },
            },
        }
    }
}

/// What holds of the analyzers of every configuration that was loaded: each name is an
/// identifier that is not reserved and that no other analyzer has, each dependency is
/// the name of an earlier analyzer, and no condition ends in `or`.
pub open spec fn well_formed(analyzers: Seq<AnalyzerView>) -> bool {
    forall|i: int|
        #![trigger analyzers[i]]
        0 <= i < analyzers.len() ==> {
            &&& is_identifier(analyzers[i].name)
            &&& !is_reserved(analyzers[i].name)
            &&& !has_name(analyzers, analyzers[i].name, i)
            &&& analyzers[i].dependencies is Some ==> first_unknown(
                analyzers[i].dependencies->0,
                analyzers.subrange(0, i),
                analyzers[i].dependencies->0.len() as int,
            ) is None
            &&& analyzers[i].conditions is Some ==> !has_or(
                analyzers[i].conditions->0,
                analyzers[i].conditions->0.len() as int,
            )
        }
}

/// Names among the first `n` of a list are names among the first `n` of a longer list.
pub proof fn lemma_has_name_prefix(
    longer: Seq<AnalyzerView>,
    shorter: Seq<AnalyzerView>,
    name: Seq<char>,
    n: int,
)
    requires
        0 <= n <= shorter.len() <= longer.len(),
        forall|i: int| 0 <= i < shorter.len() ==> shorter[i] == longer[i],
    ensures
        has_name(longer, name, n) == has_name(shorter, name, n),
    decreases n,
{
    if n > 0 {
        lemma_has_name_prefix(longer, shorter, name, n - 1);
    }
}

/// Every configuration that `loaded` accepts is well formed.
pub proof fn lemma_loaded_is_well_formed(entries: Seq<InnerAnalyzerView>, n: int)
    requires
        loaded(entries, n) is Ok,
    ensures
        well_formed(loaded(entries, n)->Ok_0),
        n <= 0 || n > entries.len() || loaded(entries, n)->Ok_0.len() == n,
    decreases n,
{
    if n <= 0 || n > entries.len() {
    } else {
        lemma_loaded_is_well_formed(entries, n - 1);
        let earlier = loaded(entries, n - 1)->Ok_0;
        let a = analyzer_of(entries[n - 1])->Ok_0;
        let all = earlier.push(a);
        assert(all == loaded(entries, n)->Ok_0);
        assert(n - 1 <= 0 || earlier.len() == n - 1);
        assert(all.subrange(0, earlier.len() as int) =~= earlier);
        assert forall|i: int| #![trigger all[i]] 0 <= i < all.len() implies {
            &&& is_identifier(all[i].name)
            &&& !is_reserved(all[i].name)
            &&& !has_name(all, all[i].name, i)
            &&& all[i].dependencies is Some ==> first_unknown(
                all[i].dependencies->0,
                all.subrange(0, i),
                all[i].dependencies->0.len() as int,
            ) is None
            &&& all[i].conditions is Some ==> !has_or(
                all[i].conditions->0,
                all[i].conditions->0.len() as int,
            )
        } by {
            lemma_has_name_prefix(all, earlier, all[i].name, if i < earlier.len() {
                i
            } else {
                earlier.len() as int
            });
            if i < earlier.len() {
                assert(all[i] == earlier[i]);
                assert(all.subrange(0, i) =~= earlier.subrange(0, i));
            }
        }
    }
}

/// Whether one of `analyzers` has the name `name`.
pub fn name_taken(analyzers: &Vec<Analyzer>, name: &String) -> (taken: bool)
    ensures
        taken == has_name(analyzers_view(analyzers@), name@, analyzers@.len() as int),
{
    let mut taken: bool = false;
    let mut i: usize = 0;
    while i < analyzers.len()
        invariant
            0 <= i <= analyzers@.len(),
            taken == has_name(analyzers_view(analyzers@), name@, i as int),
        decreases analyzers@.len() - i,
    {
        if analyzers[i].name == *name {
            taken = true;
        }
        i = i + 1;
    }
    taken
}

/// Position of the first dependency that is the name of none of `earlier`.
pub fn unknown_dependency(dependencies: &Vec<String>, earlier: &Vec<Analyzer>) -> (found: Option<
    usize,
>)
    ensures
        match first_unknown(
            texts_view(dependencies@),
            analyzers_view(earlier@),
            dependencies@.len() as int,
        ) {
            Some(d) => found is Some && found->0 < dependencies@.len()
                && dependencies@[found->0 as int]@ == d,
            None => found is None,
        },
{
    let mut i: usize = 0;
    while i < dependencies.len()
        invariant
            0 <= i <= dependencies@.len(),
            first_unknown(texts_view(dependencies@), analyzers_view(earlier@), i as int) is None,
        decreases dependencies@.len() - i,
    {
        if !name_taken(earlier, &dependencies[i]) {
            proof {
                lemma_first_unknown_stays(
                    texts_view(dependencies@),
                    analyzers_view(earlier@),
                    i as int + 1,
                    dependencies@.len() as int,
                );
            }
            return Some(i);
        }
        i = i + 1;
    }
    None
}

/// An unknown dependency among the first `n` is the first unknown of any longer stretch.
pub proof fn lemma_first_unknown_stays(
    dependencies: Seq<Seq<char>>,
    earlier: Seq<AnalyzerView>,
    n: int,
    m: int,
)
    requires
        0 <= n <= m <= dependencies.len(),
        first_unknown(dependencies, earlier, n) is Some,
    ensures
        first_unknown(dependencies, earlier, m) == first_unknown(dependencies, earlier, n),
    decreases m - n,
{
    if n < m {
        lemma_first_unknown_stays(dependencies, earlier, n, m - 1);
    }
}

/// Whether one of `conditions` ends in `or`.
pub fn ends_in_or(conditions: &Vec<Condition>) -> (found: bool)
    ensures
        found == has_or(conditions_view(conditions@), conditions@.len() as int),
{
    let mut found: bool = false;
    let mut i: usize = 0;
    while i < conditions.len()
        invariant
            0 <= i <= conditions@.len(),
            found == has_or(conditions_view(conditions@), i as int),
        decreases conditions@.len() - i,
    {
        match conditions[i].chain {
            Some(Chain::Or) => {
                found = true;
            },
            _ => {},
        }
        i = i + 1;
    }
    found
}

/// The rule that `analyzer`, which stands at `position` after `earlier`, breaks.
pub fn validate(analyzer: &Analyzer, position: usize, earlier: &Vec<Analyzer>) -> (broken: Option<
    ValidationError,
>)
    ensures
        match broken_rule(analyzer@, position, analyzers_view(earlier@)) {
            Some(rule) => broken is Some && broken->0@ == rule,
            None => broken is None,
        },
{
    if analyzer.name.as_str().unicode_len() == 0 {
        return Some(ValidationError::EmptyName(position));
    }
    if !check_identifier(analyzer.name.as_str()) {
        return Some(ValidationError::InvalidName(analyzer.name.clone()));
    }
    if check_reserved(analyzer.name.as_str()) {
        return Some(ValidationError::ReservedName(analyzer.name.clone()));
    }
    if name_taken(earlier, &analyzer.name) {
        return Some(ValidationError::DuplicateName(analyzer.name.clone()));
    }
    match &analyzer.dependencies {
        Some(dependencies) => match unknown_dependency(dependencies, earlier) {
            Some(i) => {
                return Some(
                    ValidationError::UnknownDependency {
                        analyzer: analyzer.name.clone(),
                        dependency: dependencies[i].clone(),
                    },
                );
            },
            None => {},
        },
        None => {},
    }
    match &analyzer.conditions {
        Some(conditions) => if ends_in_or(conditions) {
            return Some(ValidationError::UnsupportedChain { analyzer: analyzer.name.clone() });
        },
        None => {},
    }
    None
}

impl Config {
    /// The configuration that the entries of a configuration file stand for. It is owed
    /// when every entry parses and keeps the rules, and is then well formed; else the
    /// error is that of the first entry that does not.
    pub fn load(entries: &Vec<InnerAnalyzer>) -> (result: Result<Config, Error>)
        ensures
            match loaded(entries_view(entries@), entries@.len() as int) {
                Ok(analyzers) => result is Ok && result->Ok_0@ == analyzers && well_formed(
                    analyzers,
                ),
                Err(e) => result is Err && result->Err_0@ == e,
            },
    {
        let mut analyzer: Vec<Analyzer> = Vec::new();
        let mut i: usize = 0;
        proof {
            assert(analyzers_view(analyzer@) =~= Seq::<AnalyzerView>::empty());
        }
        while i < entries.len()
            invariant
                0 <= i <= entries@.len(),
                loaded(entries_view(entries@), i as int) == Ok::<Seq<AnalyzerView>, ErrorView>(
                    analyzers_view(analyzer@),
                ),
            decreases entries@.len() - i,
        {
            let ghost earlier = analyzer@;
            let parsed = match Analyzer::deserialize(&entries[i]) {
                Ok(parsed) => parsed,
                Err(e) => {
                    proof {
                        lemma_loaded_error(
                            entries_view(entries@),
                            i as int + 1,
                            entries@.len() as int,
                        );
                    }
                    return Err(Error::ExpressionParse(e));
                },
            };
            match validate(&parsed, i, &analyzer) {
                Some(rule) => {
                    proof {
                        lemma_loaded_error(
                            entries_view(entries@),
                            i as int + 1,
                            entries@.len() as int,
                        );
                    }
                    return Err(Error::ConfigValidation(rule));
                },
                None => {},
            }
            analyzer.push(parsed);
            proof {
                assert(analyzers_view(analyzer@) =~= analyzers_view(earlier).push(parsed@));
            }
            i = i + 1;
        }
        proof {
            lemma_loaded_is_well_formed(entries_view(entries@), entries@.len() as int);
        }
        Ok(Config { analyzer })
    }
}

/// An error among the first `n` entries is the error of any longer stretch.
pub proof fn lemma_loaded_error(entries: Seq<InnerAnalyzerView>, n: int, m: int)
    requires
        0 <= n <= m <= entries.len(),
        loaded(entries, n) is Err,
    ensures
        loaded(entries, m) == loaded(entries, n),
    decreases m - n,
{
    if n < m {
        lemma_loaded_error(entries, n, m - 1);
    }
}


/// A name that none of the first `n` analyzers has is not the name of any of them.
pub proof fn lemma_name_is_new(config: Seq<AnalyzerView>, name: Seq<char>, n: int, i: int)
    requires
        0 <= i < n <= config.len(),
        !has_name(config, name, n),
    ensures
        config[i].name != name,
    decreases n,
{
    if i < n - 1 {
        lemma_name_is_new(config, name, n - 1, i);
    }
}

/// No two analyzers of a well-formed configuration have the same name.
pub proof fn lemma_names_differ(config: Seq<AnalyzerView>, i: int, j: int)
    requires
        well_formed(config),
        0 <= i < j < config.len(),
    ensures
        config[i].name != config[j].name,
{
    assert(!has_name(config, config[j].name, j));
    lemma_name_is_new(config, config[j].name, j, i);
}

} // verus!
