//! JSON values, their equality and what they contain.

use crate::config::parser::base_parser::{after, has_prefix, starts_with, tail};
use vstd::prelude::*;
use vstd::string::*;

verus! {

/// A JSON number. A whole number that is not negative is a `PosInt`, a negative one a
/// `NegInt`; any other is a `Float`, which holds the bits of a finite IEEE 754 double.
#[derive(Debug, PartialEq, Eq, Clone, Copy)]
pub enum Number {
    PosInt(u64),
    NegInt(i64),
    Float(u64),
}

/// A JSON value. An object is a list of members whose keys differ from each other.
#[derive(Debug, PartialEq)]
pub enum Json {
    Null,
    Bool(bool),
    Number(Number),
    String(String),
    Array(Vec<Json>),
    Object(Vec<(String, Json)>),
}

/// Mathematical value of a `Json`.
pub enum JsonView {
    Null,
    Bool(bool),
    Number(Number),
    String(Seq<char>),
    Array(Seq<JsonView>),
    Object(Seq<(Seq<char>, JsonView)>),
}

/// The value of `j`: its texts as sequences of characters, its lists as sequences.
pub open spec fn json_view(j: Json) -> JsonView
    decreases j,
{
    match j {
        Json::Null => JsonView::Null,
        Json::Bool(b) => JsonView::Bool(b),
        Json::Number(n) => JsonView::Number(n),
        Json::String(s) => JsonView::String(s@),
        Json::Array(items) => JsonView::Array(
            Seq::new(
                items@.len(),
                |i: int|
                    if 0 <= i < items@.len() {
                        json_view(items@[i])
                    } else {
                        JsonView::Null
                    },
            ),
        ),
        Json::Object(members) => JsonView::Object(
            Seq::new(
                members@.len(),
                |i: int|
                    if 0 <= i < members@.len() {
                        (members@[i].0@, json_view(members@[i].1))
                    } else {
                        (Seq::empty(), JsonView::Null)
                    },
            ),
        ),
    }
}

impl View for Json {
    type V = JsonView;

    open spec fn view(&self) -> JsonView {
        json_view(*self)
    }
}

/// The values of the members of an object, in order.
pub open spec fn members_view(members: Seq<(String, Json)>) -> Seq<(Seq<char>, JsonView)> {
    Seq::new(members.len(), |i: int| (members[i].0@, json_view(members[i].1)))
}

/// The values of the items of an array, in order.
pub open spec fn items_view(items: Seq<Json>) -> Seq<JsonView> {
    Seq::new(items.len(), |i: int| json_view(items[i]))
}

/// The value of an array is that of its items.
pub proof fn lemma_array_view(items: Vec<Json>)
    ensures
        Json::Array(items)@ == JsonView::Array(items_view(items@)),
{
    assert(Json::Array(items)@->Array_0 =~= items_view(items@));
}

/// The value of an object is that of its members.
pub proof fn lemma_object_view(members: Vec<(String, Json)>)
    ensures
        Json::Object(members)@ == JsonView::Object(members_view(members@)),
{
    assert(Json::Object(members)@->Object_0 =~= members_view(members@));
}

/// How two numbers order when both are taken as doubles.
#[derive(Debug, PartialEq, Eq, Clone, Copy)]
pub enum FloatOrder {
    Less,
    Equal,
    Greater,
}

/// The bits are those of `+0.0` or `-0.0`.
pub open spec fn is_zero_bits(bits: u64) -> bool {
    bits == 0 || bits == 0x8000_0000_0000_0000
}

/// The bits are those of a finite double: the exponent field is not all ones.
pub open spec fn is_finite_bits(bits: u64) -> bool {
    (bits >> 52) & 0x7ff != 0x7ff
}

/// Equality of numbers: the same kind and the same value, the two zeros of the doubles
/// being equal.
pub open spec fn number_equal(a: Number, b: Number) -> bool {
    match (a, b) {
        (Number::PosInt(x), Number::PosInt(y)) => x == y,
        (Number::NegInt(x), Number::NegInt(y)) => x == y,
        (Number::Float(x), Number::Float(y)) => x == y || (is_zero_bits(x) && is_zero_bits(y)),
        _ => false,
    }
}

/// The number as an `i64`, where it is a whole number in that range.
pub open spec fn number_as_i64(n: Number) -> Option<i64> {
    match n {
        Number::PosInt(x) => if x <= i64::MAX {
            Some(x as i64)
        } else {
            None
        },
        Number::NegInt(x) => Some(x),
        Number::Float(_) => None,
    }
}

/// Structural equality of JSON values. Arrays are equal member by member; objects are
/// equal when they have as many members and each member of the first has its key and an
/// equal value in the second.
pub open spec fn json_equal(a: JsonView, b: JsonView) -> bool
    decreases a, 0int,
{
    match a {
        JsonView::Null => b is Null,
        JsonView::Bool(x) => b is Bool && b->Bool_0 == x,
        JsonView::Number(x) => b is Number && number_equal(x, b->Number_0),
        JsonView::String(x) => b is String && b->String_0 == x,
        JsonView::Array(x) => b is Array && x.len() == b->Array_0.len() && forall|i: int|
            #![trigger x[i]]
            0 <= i < x.len() ==> json_equal(x[i], b->Array_0[i]),
        JsonView::Object(x) => b is Object && x.len() == b->Object_0.len() && forall|i: int|
            #![trigger x[i]]
            0 <= i < x.len() ==> member_of(x[i].0, x[i].1, b->Object_0, b->Object_0.len() as int),
    }
}

/// One of the first `n` members of `members` has the key `key` and a value equal to
/// `value`.
pub open spec fn member_of(
    key: Seq<char>,
    value: JsonView,
    members: Seq<(Seq<char>, JsonView)>,
    n: int,
) -> bool
    decreases value, n,
{
    if n <= 0 || n > members.len() {
        false
    } else {
        (members[n - 1].0 == key && json_equal(value, members[n - 1].1)) || member_of(
            key,
            value,
            members,
            n - 1,
        )
    }
}

/// `needle` occurs in `hay` at position `i` or later.
pub open spec fn occurs_from(hay: Seq<char>, needle: Seq<char>, i: int) -> bool
    decreases hay.len() - i,
{
    if i < 0 || i > hay.len() {
        false
    } else if i == hay.len() {
        has_prefix(after(hay, i), needle)
    } else {
        has_prefix(after(hay, i), needle) || occurs_from(hay, needle, i + 1)
    }
}

/// `needle` occurs somewhere in `hay`.
pub open spec fn is_substring(hay: Seq<char>, needle: Seq<char>) -> bool {
    occurs_from(hay, needle, 0)
}

/// One of the first `n` members has the key `key`.
pub open spec fn has_key(members: Seq<(Seq<char>, JsonView)>, key: Seq<char>, n: int) -> bool
    decreases n,
{
    if n <= 0 || n > members.len() {
        false
    } else {
        members[n - 1].0 == key || has_key(members, key, n - 1)
    }
}

/// One of the first `n` items equals `value`.
pub open spec fn has_item(items: Seq<JsonView>, value: JsonView, n: int) -> bool
    decreases n,
{
    if n <= 0 || n > items.len() {
        false
    } else {
        json_equal(items[n - 1], value) || has_item(items, value, n - 1)
    }
}

impl Number {
    /// Whether two numbers are equal.
    pub fn equals(&self, other: &Number) -> (same: bool)
        ensures
            same == number_equal(*self, *other),
    {
        match self {
            Number::PosInt(x) => match other {
                Number::PosInt(y) => *x == *y,
                _ => false,
            },
            Number::NegInt(x) => match other {
                Number::NegInt(y) => *x == *y,
                _ => false,
            },
            Number::Float(x) => match other {
                Number::Float(y) => *x == *y || ((*x == 0 || *x == 0x8000_0000_0000_0000) && (*y
                    == 0 || *y == 0x8000_0000_0000_0000)),
                _ => false,
            },
        }
    }

    /// The number as an `i64`, where it is a whole number in that range.
    pub fn as_i64(&self) -> (value: Option<i64>)
        ensures
            value == number_as_i64(*self),
    {
        match self {
            Number::PosInt(x) => if *x <= 0x7fff_ffff_ffff_ffff {
                Some(*x as i64)
            } else {
                None
            },
            Number::NegInt(x) => Some(*x),
            Number::Float(_) => None,
        }
    }

    /// The whole number `value`.
    pub fn from_i64(value: i64) -> (n: Number)
        ensures
            n == (if value < 0 {
                Number::NegInt(value)
            } else {
                Number::PosInt(value as u64)
            }),
            number_as_i64(n) == Some(value),
    {
        if value < 0 {
            Number::NegInt(value)
        } else {
            Number::PosInt(value as u64)
        }
    }
}

/// Whether the bits are those of a finite double.
pub fn finite_bits(bits: u64) -> (finite: bool)
    ensures
        finite == is_finite_bits(bits),
{
    (bits >> 52) & 0x7ff != 0x7ff
}

impl Json {
    /// Whether two values are equal.
    pub fn equals(&self, other: &Json) -> (same: bool)
        ensures
            same == json_equal(self@, other@),
        decreases *self, 0nat,
    {
        match self {
            Json::Null => match other {
                Json::Null => true,
                _ => false,
            },
            Json::Bool(x) => match other {
                Json::Bool(y) => *x == *y,
                _ => false,
            },
            Json::Number(x) => match other {
                Json::Number(y) => x.equals(y),
                _ => false,
            },
            Json::String(x) => match other {
                Json::String(y) => *x == *y,
                _ => false,
            },
            Json::Array(x) => match other {
                Json::Array(y) => {
                    proof {
                        lemma_array_view(*x);
                        lemma_array_view(*y);
                    }
                    if x.len() != y.len() {
                        return false;
                    }
                    let mut i: usize = 0;
                    while i < x.len()
                        invariant
                            0 <= i <= x@.len(),
                            x@.len() == y@.len(),
                            *self == Json::Array(*x),
                            *other == Json::Array(*y),
                            self@ == JsonView::Array(items_view(x@)),
                            other@ == JsonView::Array(items_view(y@)),
                            forall|k: int|
                                #![trigger items_view(x@)[k]]
                                0 <= k < i ==> json_equal(items_view(x@)[k], items_view(y@)[k]),
                        decreases x@.len() - i,
                    {
                        proof {
                            assert(self->Array_0 == *x);
                            assert(decreases_to!(*self => self->Array_0));
                            assert(decreases_to!(*x => x@[i as int]));
                        }
                        if !x[i].equals(&y[i]) {
                            proof {
                                assert(items_view(x@)[i as int] == x@[i as int]@);
                                assert(items_view(y@)[i as int] == y@[i as int]@);
                            }
                            return false;
                        }
                        i = i + 1;
                    }
                    true
                },
                _ => false,
            },
            Json::Object(x) => match other {
                Json::Object(y) => {
                    proof {
                        lemma_object_view(*x);
                        lemma_object_view(*y);
                    }
                    if x.len() != y.len() {
                        return false;
                    }
                    let mut i: usize = 0;
                    while i < x.len()
                        invariant
                            0 <= i <= x@.len(),
                            x@.len() == y@.len(),
                            *self == Json::Object(*x),
                            *other == Json::Object(*y),
                            self@ == JsonView::Object(members_view(x@)),
                            other@ == JsonView::Object(members_view(y@)),
                            forall|k: int|
                                #![trigger members_view(x@)[k]]
                                0 <= k < i ==> member_of(
                                    members_view(x@)[k].0,
                                    members_view(x@)[k].1,
                                    members_view(y@),
                                    y@.len() as int,
                                ),
                        decreases x@.len() - i,
                    {
                        proof {
                            assert(self->Object_0 == *x);
                            assert(decreases_to!(*self => self->Object_0));
                            assert(decreases_to!(*x => x@[i as int]));
                            assert(decreases_to!(x@[i as int] => x@[i as int].1));
                        }
                        if !x[i].1.is_member(&x[i].0, y) {
                            proof {
                                assert(members_view(x@)[i as int] == (
                                    x@[i as int].0@,
                                    x@[i as int].1@,
                                ));
                            }
                            return false;
                        }
                        i = i + 1;
                    }
                    true
                },
                _ => false,
            },
        }
    }

    /// Whether `members` has the key `key` with a value equal to `self`.
    pub fn is_member(&self, key: &String, members: &Vec<(String, Json)>) -> (found: bool)
        ensures
            found == member_of(key@, self@, members_view(members@), members@.len() as int),
        decreases *self, 1nat,
    {
        let mut j: usize = 0;
        let mut found: bool = false;
        while j < members.len()
            invariant
                0 <= j <= members@.len(),
                found == member_of(key@, self@, members_view(members@), j as int),
            decreases members@.len() - j,
        {
            if members[j].0 == *key {
                if self.equals(&members[j].1) {
                    found = true;
                }
            }
            j = j + 1;
        }
        found
    }
}


/// Whether `needle` occurs in `hay`.
pub fn contains_text(hay: &str, needle: &str) -> (found: bool)
    ensures
        found == is_substring(hay@, needle@),
{
    let len: usize = hay.unicode_len();
    let mut i: usize = 0;
    while i < len
        invariant
            len == hay@.len(),
            0 <= i <= len,
            is_substring(hay@, needle@) == occurs_from(hay@, needle@, i as int),
        decreases len - i,
    {
        if starts_with(tail(hay, i), needle) {
            return true;
        }
        i = i + 1;
    }
    starts_with(tail(hay, len), needle)
}

/// Whether one of `members` has the key `key`.
pub fn contains_key(members: &Vec<(String, Json)>, key: &String) -> (found: bool)
    ensures
        found == has_key(members_view(members@), key@, members@.len() as int),
{
    let mut j: usize = 0;
    let mut found: bool = false;
    while j < members.len()
        invariant
            0 <= j <= members@.len(),
            found == has_key(members_view(members@), key@, j as int),
        decreases members@.len() - j,
    {
        if members[j].0 == *key {
            found = true;
        }
        j = j + 1;
    }
    found
}

/// Whether one of `items` equals `value`.
pub fn contains_item(items: &Vec<Json>, value: &Json) -> (found: bool)
    ensures
        found == has_item(items_view(items@), value@, items@.len() as int),
{
    let mut j: usize = 0;
    let mut found: bool = false;
    while j < items.len()
        invariant
            0 <= j <= items@.len(),
            found == has_item(items_view(items@), value@, j as int),
        decreases items@.len() - j,
    {
        if items[j].equals(value) {
            found = true;
        }
        j = j + 1;
    }
    found
}


/// Position of the first member from `i` on that has the key `key`; the number of
/// members where there is none.
pub open spec fn key_position(members: Seq<(Seq<char>, JsonView)>, key: Seq<char>, i: int) -> int
    decreases members.len() - i,
{
    if i < 0 || i >= members.len() {
        members.len() as int
    } else if members[i].0 == key {
        i
    } else {
        key_position(members, key, i + 1)
    }
}

/// The members after `key` was set to `value`: in place of the member that had the key,
/// or at the end.
pub open spec fn inserted(
    members: Seq<(Seq<char>, JsonView)>,
    key: Seq<char>,
    value: JsonView,
) -> Seq<(Seq<char>, JsonView)> {
    let at = key_position(members, key, 0);
    if at < members.len() {
        members.update(at, (key, value))
    } else {
        members.push((key, value))
    }
}

/// Sets the key `key` of an object to `value`.
pub fn object_insert(members: &mut Vec<(String, Json)>, key: String, value: Json)
    ensures
        members_view(final(members)@) == inserted(members_view(old(members)@), key@, value@),
{
    let ghost before = members_view(members@);
    let mut i: usize = 0;
    while i < members.len()
        invariant
            0 <= i <= members@.len(),
            members_view(members@) == before,
            before == members_view(old(members)@),
            key_position(before, key@, 0) == key_position(before, key@, i as int),
        decreases members@.len() - i,
    {
        if members[i].0 == key {
            proof {
                assert(before[i as int].0 == key@);
                assert(key_position(before, key@, i as int) == i);
            }
            members.set(i, (key, value));
            proof {
                assert(members_view(members@) =~= before.update(i as int, (key@, value@)));
            }
            return ;
        }
        i = i + 1;
    }
    members.push((key, value));
    proof {
        assert(members_view(members@) =~= before.push((key@, value@)));
    }
}


/// A number as every JSON text gives it: a negative whole number is a `NegInt`, and the
/// bits of a `Float` are those of a finite double.
pub open spec fn number_ok(n: Number) -> bool {
    match n {
        Number::PosInt(_) => true,
        Number::NegInt(i) => i < 0,
        Number::Float(bits) => is_finite_bits(bits),
    }
}

/// No two of the members have the same key.
pub open spec fn distinct_keys(members: Seq<(Seq<char>, JsonView)>) -> bool {
    forall|i: int, j: int|
        0 <= i < j < members.len() ==> (#[trigger] members[i]).0 != (#[trigger] members[j]).0
}

/// A value that is well formed: its numbers are, the keys of each of its objects differ
/// from each other, and what its arrays and objects hold is well formed.
pub open spec fn json_ok(j: JsonView) -> bool
    decreases j,
{
    match j {
        JsonView::Number(n) => number_ok(n),
        JsonView::Array(items) => forall|i: int|
            0 <= i < items.len() ==> json_ok(#[trigger] items[i]),
        JsonView::Object(members) => distinct_keys(members) && forall|i: int|
            #![trigger members[i]]
            0 <= i < members.len() ==> json_ok(members[i].1),
        _ => true,
    }
}

/// Where no member from `i` on has the key, the search for it ends at the end; where it
/// ends earlier, the member there has the key and none between has it.
pub proof fn lemma_key_position(members: Seq<(Seq<char>, JsonView)>, key: Seq<char>, i: int)
    requires
        0 <= i <= members.len(),
    ensures
        i <= key_position(members, key, i) <= members.len(),
        key_position(members, key, i) < members.len() ==> members[key_position(
            members,
            key,
            i,
        )].0 == key,
        forall|j: int| i <= j < key_position(members, key, i) ==> (#[trigger] members[j]).0 != key,
    decreases members.len() - i,
{
    if i < members.len() && members[i].0 != key {
        lemma_key_position(members, key, i + 1);
    }
}

/// Setting a key of a well-formed object to a well-formed value leaves a well-formed
/// object, which has the key.
pub proof fn lemma_inserted_is_ok(
    members: Seq<(Seq<char>, JsonView)>,
    key: Seq<char>,
    value: JsonView,
)
    requires
        json_ok(JsonView::Object(members)),
        json_ok(value),
    ensures
        json_ok(JsonView::Object(inserted(members, key, value))),
        has_key(inserted(members, key, value), key, inserted(members, key, value).len() as int),
{
    let at = key_position(members, key, 0);
    let after = inserted(members, key, value);
    lemma_key_position(members, key, 0);
    assert forall|i: int, j: int| 0 <= i < j < after.len() implies (#[trigger] after[i]).0 != (
    #[trigger] after[j]).0 by {
        if at < members.len() {
            assert(after[i].0 == members[i].0);
            assert(after[j].0 == members[j].0);
        } else {
            if j < members.len() {
                assert(after[i] == members[i]);
                assert(after[j] == members[j]);
            } else {
                assert(after[i] == members[i]);
            }
        }
    }
    assert forall|i: int| #![trigger after[i]] 0 <= i < after.len() implies json_ok(
        after[i].1,
    ) by {
        if i < members.len() && i != at {
            assert(after[i] == members[i]);
        }
    }
    let found: int = if at < members.len() {
        at
    } else {
        members.len() as int
    };
    assert(after[found].0 == key);
    lemma_has_key_at(after, key, found, after.len() as int);
}

/// A member with the key among the first `n` makes the key one of theirs.
pub proof fn lemma_has_key_at(
    members: Seq<(Seq<char>, JsonView)>,
    key: Seq<char>,
    at: int,
    n: int,
)
    requires
        0 <= at < n <= members.len(),
        members[at].0 == key,
    ensures
        has_key(members, key, n),
    decreases n,
{
    if at < n - 1 {
        lemma_has_key_at(members, key, at, n - 1);
    }
}

} // verus!
