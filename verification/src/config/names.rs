//! The names that analyzers may have.

use crate::config::parser::base_parser::{
    class_holds, in_class, is_alpha, same_text, CharClass,
};
use vstd::prelude::*;
use vstd::string::*;

verus! {

/// The small letter of a capital ASCII letter; any other character is itself.
pub open spec fn fold_case(c: char) -> char {
    if 'A' <= c && c <= 'Z' {
        ((c as u8) + 32) as char
    } else {
        c
    }
}

/// `s` with its capital ASCII letters made small.
pub open spec fn folded(s: Seq<char>) -> Seq<char> {
    Seq::new(s.len(), |i: int| fold_case(s[i]))
}

/// An identifier: a letter or `_`, then letters, digits and `_`, all ASCII.
pub open spec fn is_identifier(s: Seq<char>) -> bool {
    s.len() > 0 && (is_alpha(s[0]) || s[0] == '_') && forall|i: int|
        0 <= i < s.len() ==> class_holds(#[trigger] s[i], CharClass::KeyTail)
}

/// Whether `s` is one of the words of SQL from `abort` to `conflict`.
pub open spec fn is_sql_word_1(s: Seq<char>) -> bool {
    s == "abort"@
        || s == "action"@
        || s == "add"@
        || s == "after"@
        || s == "all"@
        || s == "alter"@
        || s == "always"@
        || s == "analyze"@
        || s == "and"@
        || s == "as"@
        || s == "asc"@
        || s == "attach"@
        || s == "autoincrement"@
        || s == "before"@
        || s == "begin"@
        || s == "between"@
        || s == "by"@
        || s == "cascade"@
        || s == "case"@
        || s == "cast"@
        || s == "check"@
        || s == "collate"@
        || s == "column"@
        || s == "commit"@
        || s == "conflict"@
}

/// Whether `s` is one of the words of SQL from `constraint` to `exists`.
pub open spec fn is_sql_word_2(s: Seq<char>) -> bool {
    s == "constraint"@
        || s == "create"@
        || s == "cross"@
        || s == "current"@
        || s == "current_date"@
        || s == "current_time"@
        || s == "current_timestamp"@
        || s == "database"@
        || s == "default"@
        || s == "deferrable"@
        || s == "deferred"@
        || s == "delete"@
        || s == "desc"@
        || s == "detach"@
        || s == "distinct"@
        || s == "do"@
        || s == "drop"@
        || s == "each"@
        || s == "else"@
        || s == "end"@
        || s == "escape"@
        || s == "except"@
        || s == "exclude"@
        || s == "exclusive"@
        || s == "exists"@
}

/// Whether `s` is one of the words of SQL from `explain` to `intersect`.
pub open spec fn is_sql_word_3(s: Seq<char>) -> bool {
    s == "explain"@
        || s == "fail"@
        || s == "filter"@
        || s == "first"@
        || s == "following"@
        || s == "for"@
        || s == "foreign"@
        || s == "from"@
        || s == "full"@
        || s == "generated"@
        || s == "glob"@
        || s == "group"@
        || s == "groups"@
        || s == "having"@
        || s == "if"@
        || s == "ignore"@
        || s == "immediate"@
        || s == "in"@
        || s == "index"@
        || s == "indexed"@
        || s == "initially"@
        || s == "inner"@
        || s == "insert"@
        || s == "instead"@
        || s == "intersect"@
}

/// Whether `s` is one of the words of SQL from `into` to `outer`.
pub open spec fn is_sql_word_4(s: Seq<char>) -> bool {
    s == "into"@
        || s == "is"@
        || s == "isnull"@
        || s == "join"@
        || s == "key"@
        || s == "last"@
        || s == "left"@
        || s == "like"@
        || s == "limit"@
        || s == "match"@
        || s == "materialized"@
        || s == "natural"@
        || s == "no"@
        || s == "not"@
        || s == "nothing"@
        || s == "notnull"@
        || s == "null"@
        || s == "nulls"@
        || s == "of"@
        || s == "offset"@
        || s == "on"@
        || s == "or"@
        || s == "order"@
        || s == "others"@
        || s == "outer"@
}

/// Whether `s` is one of the words of SQL from `over` to `set`.
pub open spec fn is_sql_word_5(s: Seq<char>) -> bool {
    s == "over"@
        || s == "partition"@
        || s == "plan"@
        || s == "pragma"@
        || s == "preceding"@
        || s == "primary"@
        || s == "query"@
        || s == "raise"@
        || s == "range"@
        || s == "recursive"@
        || s == "references"@
        || s == "regexp"@
        || s == "reindex"@
        || s == "release"@
        || s == "rename"@
        || s == "replace"@
        || s == "restrict"@
        || s == "returning"@
        || s == "right"@
        || s == "rollback"@
        || s == "row"@
        || s == "rows"@
        || s == "savepoint"@
        || s == "select"@
        || s == "set"@
}

/// Whether `s` is one of the words of SQL from `table` to `without`.
pub open spec fn is_sql_word_6(s: Seq<char>) -> bool {
    s == "table"@
        || s == "temp"@
        || s == "temporary"@
        || s == "then"@
        || s == "ties"@
        || s == "to"@
        || s == "transaction"@
        || s == "trigger"@
        || s == "unbounded"@
        || s == "union"@
        || s == "unique"@
        || s == "update"@
        || s == "using"@
        || s == "vacuum"@
        || s == "values"@
        || s == "view"@
        || s == "virtual"@
        || s == "when"@
        || s == "where"@
        || s == "window"@
        || s == "with"@
        || s == "without"@
}

/// Whether `s`, in small letters, is a word that SQLite keeps for itself.
pub open spec fn is_sql_word(s: Seq<char>) -> bool {
    is_sql_word_1(s)
        || is_sql_word_2(s)
        || is_sql_word_3(s)
        || is_sql_word_4(s)
        || is_sql_word_5(s)
        || is_sql_word_6(s)
}

/// A name that no analyzer may have: `path` and `pathlist`, which the accessor language
/// keeps for the paths of the results; `result`, the table of the paths, in capital or
/// small letters; and the words of SQL, in capital or small letters.
pub open spec fn is_reserved(s: Seq<char>) -> bool {
    s == "path"@ || s == "pathlist"@ || folded(s) == "result"@ || is_sql_word(folded(s))
}

/// The small letter of a capital ASCII letter; any other character is itself.
pub fn fold(c: char) -> (f: char)
    ensures
        f == fold_case(c),
{
    if 'A' <= c && c <= 'Z' {
        ((c as u8) + 32) as char
    } else {
        c
    }
}

/// Whether `name` is `word` but for the case of its letters; `word` is in small letters.
pub fn same_folded(name: &str, word: &str) -> (same: bool)
    ensures
        same == (folded(name@) == word@),
{
    let len: usize = name.unicode_len();
    if len != word.unicode_len() {
        return false;
    }
    let mut i: usize = 0;
    while i < len
        invariant
            len == name@.len(),
            len == word@.len(),
            0 <= i <= len,
            forall|j: int| 0 <= j < i ==> fold_case(name@[j]) == word@[j],
        decreases len - i,
    {
        if fold(name.get_char(i)) != word.get_char(i) {
            proof {
                assert(folded(name@)[i as int] != word@[i as int]);
            }
            return false;
        }
        i = i + 1;
    }
    proof {
        assert(folded(name@) =~= word@);
    }
    true
}

/// Whether `name` is an identifier.
pub fn check_identifier(name: &str) -> (valid: bool)
    ensures
        valid == is_identifier(name@),
{
    let len: usize = name.unicode_len();
    if len == 0 {
        return false;
    }
    let first: char = name.get_char(0);
    if !(('a' <= first && first <= 'z') || ('A' <= first && first <= 'Z') || first == '_') {
        return false;
    }
    let mut i: usize = 0;
    while i < len
        invariant
            len == name@.len(),
            0 <= i <= len,
            forall|j: int| 0 <= j < i ==> class_holds(#[trigger] name@[j], CharClass::KeyTail),
        decreases len - i,
    {
        if !in_class(name.get_char(i), CharClass::KeyTail) {
            return false;
        }
        i = i + 1;
    }
    true
}

/// Whether `name`, in small letters, is one of the first words of SQL.
pub fn check_sql_word_1(name: &str) -> (found: bool)
    ensures
        found == is_sql_word_1(folded(name@)),
{
    same_folded(name, "abort")
        || same_folded(name, "action")
        || same_folded(name, "add")
        || same_folded(name, "after")
        || same_folded(name, "all")
        || same_folded(name, "alter")
        || same_folded(name, "always")
        || same_folded(name, "analyze")
        || same_folded(name, "and")
        || same_folded(name, "as")
        || same_folded(name, "asc")
        || same_folded(name, "attach")
        || same_folded(name, "autoincrement")
        || same_folded(name, "before")
        || same_folded(name, "begin")
        || same_folded(name, "between")
        || same_folded(name, "by")
        || same_folded(name, "cascade")
        || same_folded(name, "case")
        || same_folded(name, "cast")
        || same_folded(name, "check")
        || same_folded(name, "collate")
        || same_folded(name, "column")
        || same_folded(name, "commit")
        || same_folded(name, "conflict")
}

/// Whether `name`, in small letters, is one of the next words of SQL.
pub fn check_sql_word_2(name: &str) -> (found: bool)
    ensures
        found == is_sql_word_2(folded(name@)),
{
    same_folded(name, "constraint")
        || same_folded(name, "create")
        || same_folded(name, "cross")
        || same_folded(name, "current")
        || same_folded(name, "current_date")
        || same_folded(name, "current_time")
        || same_folded(name, "current_timestamp")
        || same_folded(name, "database")
        || same_folded(name, "default")
        || same_folded(name, "deferrable")
        || same_folded(name, "deferred")
        || same_folded(name, "delete")
        || same_folded(name, "desc")
        || same_folded(name, "detach")
        || same_folded(name, "distinct")
        || same_folded(name, "do")
        || same_folded(name, "drop")
        || same_folded(name, "each")
        || same_folded(name, "else")
        || same_folded(name, "end")
        || same_folded(name, "escape")
        || same_folded(name, "except")
        || same_folded(name, "exclude")
        || same_folded(name, "exclusive")
        || same_folded(name, "exists")
}

/// Whether `name`, in small letters, is one of the next words of SQL.
pub fn check_sql_word_3(name: &str) -> (found: bool)
    ensures
        found == is_sql_word_3(folded(name@)),
{
    same_folded(name, "explain")
        || same_folded(name, "fail")
        || same_folded(name, "filter")
        || same_folded(name, "first")
        || same_folded(name, "following")
        || same_folded(name, "for")
        || same_folded(name, "foreign")
        || same_folded(name, "from")
        || same_folded(name, "full")
        || same_folded(name, "generated")
        || same_folded(name, "glob")
        || same_folded(name, "group")
        || same_folded(name, "groups")
        || same_folded(name, "having")
        || same_folded(name, "if")
        || same_folded(name, "ignore")
        || same_folded(name, "immediate")
        || same_folded(name, "in")
        || same_folded(name, "index")
        || same_folded(name, "indexed")
        || same_folded(name, "initially")
        || same_folded(name, "inner")
        || same_folded(name, "insert")
        || same_folded(name, "instead")
        || same_folded(name, "intersect")
}

/// Whether `name`, in small letters, is one of the next words of SQL.
pub fn check_sql_word_4(name: &str) -> (found: bool)
    ensures
        found == is_sql_word_4(folded(name@)),
{
    same_folded(name, "into")
        || same_folded(name, "is")
        || same_folded(name, "isnull")
        || same_folded(name, "join")
        || same_folded(name, "key")
        || same_folded(name, "last")
        || same_folded(name, "left")
        || same_folded(name, "like")
        || same_folded(name, "limit")
        || same_folded(name, "match")
        || same_folded(name, "materialized")
        || same_folded(name, "natural")
        || same_folded(name, "no")
        || same_folded(name, "not")
        || same_folded(name, "nothing")
        || same_folded(name, "notnull")
        || same_folded(name, "null")
        || same_folded(name, "nulls")
        || same_folded(name, "of")
        || same_folded(name, "offset")
        || same_folded(name, "on")
        || same_folded(name, "or")
        || same_folded(name, "order")
        || same_folded(name, "others")
        || same_folded(name, "outer")
}

/// Whether `name`, in small letters, is one of the next words of SQL.
pub fn check_sql_word_5(name: &str) -> (found: bool)
    ensures
        found == is_sql_word_5(folded(name@)),
{
    same_folded(name, "over")
        || same_folded(name, "partition")
        || same_folded(name, "plan")
        || same_folded(name, "pragma")
        || same_folded(name, "preceding")
        || same_folded(name, "primary")
        || same_folded(name, "query")
        || same_folded(name, "raise")
        || same_folded(name, "range")
        || same_folded(name, "recursive")
        || same_folded(name, "references")
        || same_folded(name, "regexp")
        || same_folded(name, "reindex")
        || same_folded(name, "release")
        || same_folded(name, "rename")
        || same_folded(name, "replace")
        || same_folded(name, "restrict")
        || same_folded(name, "returning")
        || same_folded(name, "right")
        || same_folded(name, "rollback")
        || same_folded(name, "row")
        || same_folded(name, "rows")
        || same_folded(name, "savepoint")
        || same_folded(name, "select")
        || same_folded(name, "set")
}

/// Whether `name`, in small letters, is one of the last words of SQL.
pub fn check_sql_word_6(name: &str) -> (found: bool)
    ensures
        found == is_sql_word_6(folded(name@)),
{
    same_folded(name, "table")
        || same_folded(name, "temp")
        || same_folded(name, "temporary")
        || same_folded(name, "then")
        || same_folded(name, "ties")
        || same_folded(name, "to")
        || same_folded(name, "transaction")
        || same_folded(name, "trigger")
        || same_folded(name, "unbounded")
        || same_folded(name, "union")
        || same_folded(name, "unique")
        || same_folded(name, "update")
        || same_folded(name, "using")
        || same_folded(name, "vacuum")
        || same_folded(name, "values")
        || same_folded(name, "view")
        || same_folded(name, "virtual")
        || same_folded(name, "when")
        || same_folded(name, "where")
        || same_folded(name, "window")
        || same_folded(name, "with")
        || same_folded(name, "without")
}

/// Whether `name` is a name that no analyzer may have.
pub fn check_reserved(name: &str) -> (reserved: bool)
    ensures
        reserved == is_reserved(name@),
{
    same_text(name, "path") || same_text(name, "pathlist") || same_folded(name, "result")
        || check_sql_word_1(name)
        || check_sql_word_2(name)
        || check_sql_word_3(name)
        || check_sql_word_4(name)
        || check_sql_word_5(name)
        || check_sql_word_6(name)
}

} // verus!
