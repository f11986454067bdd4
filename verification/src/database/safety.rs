//! The text of a compiled statement holds nothing that ends it early.

use crate::config::names::is_identifier;
use crate::config::parser::base_parser::{class_holds, is_digit, CharClass};
use crate::config::parser::parser_type::{AccessPathView, AccessView, IndexValueView};
use crate::config::parser::round_trip::{
    access_ok, in_range, is_key, lemma_nat_text, step_ok, steps_ok,
};
use crate::database::statement::{access_statement, json_path, steps_text};
use crate::text::{int_text, nat_text};
use vstd::prelude::*;

verus! {

/// A character that a JSON path may hold: a letter, a digit, `_`, `.`, `[`, `]` or `-`.
pub open spec fn path_char(c: char) -> bool {
    class_holds(c, CharClass::KeyTail) || c == '.' || c == '[' || c == ']' || c == '-'
}

/// Every character of `t` is one that a JSON path may hold.
pub open spec fn inert(t: Seq<char>) -> bool {
    forall|i: int| 0 <= i < t.len() ==> path_char(#[trigger] t[i])
}

/// Two inert texts make an inert text.
pub proof fn lemma_inert_joined(x: Seq<char>, y: Seq<char>)
    requires
        inert(x),
        inert(y),
    ensures
        inert(x + y),
{
    assert forall|i: int| 0 <= i < (x + y).len() implies path_char(#[trigger] (x + y)[i]) by {
        if i < x.len() {
            assert((x + y)[i] == x[i]);
        } else {
            assert((x + y)[i] == y[i - x.len()]);
        }
    }
}

/// The text of an integer is inert.
pub proof fn lemma_int_text_inert(i: i32)
    requires
        in_range(i),
    ensures
        inert(int_text(i as int)),
{
    if i < 0 {
        lemma_nat_text((-i) as nat);
        let digits = nat_text((-i) as nat);
        assert forall|j: int| 0 <= j < digits.len() implies path_char(#[trigger] digits[j]) by {
            assert(is_digit(digits[j]));
        }
        assert(inert(seq!['-']));
        lemma_inert_joined(seq!['-'], digits);
    } else {
        lemma_nat_text(i as nat);
        let digits = nat_text(i as nat);
        assert forall|j: int| 0 <= j < digits.len() implies path_char(#[trigger] digits[j]) by {
            assert(is_digit(digits[j]));
        }
    }
}

/// A key is inert, and an identifier.
pub proof fn lemma_key_inert(k: Seq<char>)
    requires
        is_key(k),
    ensures
        inert(k),
        is_identifier(k),
{
    assert forall|i: int| 0 <= i < k.len() implies class_holds(
        #[trigger] k[i],
        CharClass::KeyTail,
    ) by {
        if i > 0 {
            assert(class_holds(k[i], CharClass::KeyTail));
        }
    }
}

/// The JSON path of steps that the parser can give is inert.
pub proof fn lemma_steps_text_inert(path: Seq<AccessPathView>, n: int)
    requires
        steps_ok(path),
        0 <= n <= path.len(),
        steps_text(path, n) is Ok,
    ensures
        inert(steps_text(path, n)->Ok_0),
    decreases n,
{
    reveal_strlit(".");
    reveal_strlit("[");
    reveal_strlit("]");
    if n > 0 {
        lemma_steps_text_inert(path, n - 1);
        let before = steps_text(path, n - 1)->Ok_0;
        assert(step_ok(path[n - 1]));
        assert(inert("."@));
        assert(inert("["@));
        assert(inert("]"@));
        match path[n - 1] {
            AccessPathView::Key(k) => {
                lemma_key_inert(k);
                lemma_inert_joined(before, "."@);
                lemma_inert_joined(before + "."@, k);
            },
            AccessPathView::Index(IndexValueView::Int(i)) => {
                lemma_int_text_inert(i);
                lemma_inert_joined(before, "["@);
                lemma_inert_joined(before + "["@, int_text(i as int));
                lemma_inert_joined(before + "["@ + int_text(i as int), "]"@);
            },
            AccessPathView::Index(IndexValueView::Access(_)) => {},
        }
    }
}

/// The statement of an accessor that the parser gave holds nothing but its fixed text,
/// an identifier as the name of its table, and an inert JSON path between its quotes:
/// no text of the configuration can end the quotes or the statement.
pub proof fn compiled_statements_are_inert(a: AccessView)
    requires
        access_ok(a),
        a.base != "path"@,
        a.base != "pathlist"@,
        access_statement(a) is Ok,
    ensures
        is_identifier(a.base),
        json_path(a.path) is Ok,
        inert(json_path(a.path)->Ok_0),
        access_statement(a)->Ok_0->sql == "SELECT analyzer.value->>'$"@ + json_path(
            a.path,
        )->Ok_0 + "' FROM "@ + a.base
            + " AS analyzer JOIN result ON analyzer.result_id = result.id WHERE result.id = ?1"@,
{
    lemma_key_inert(a.base);
    if let Some(path) = a.path {
        lemma_steps_text_inert(path, path.len() as int);
    }
}

} // verus!
