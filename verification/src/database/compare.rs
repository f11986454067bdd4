//! The comparison of two JSON values by an operator of the expression language.

use crate::config::parser::parser_type::Operator;
use crate::database::error::Error;
use crate::json::{
    contains_item, contains_key, contains_text, has_item, has_key, is_substring, json_equal,
    lemma_array_view, lemma_object_view, number_as_i64, FloatOrder, Json, JsonView, Number,
};
use vstd::prelude::*;
use vstd::string::*;

verus! {

/// The operator is one of `<`, `<=`, `>`, `>=`.
pub open spec fn is_ordering(op: Operator) -> bool {
    op == Operator::LessThan || op == Operator::LessThanEqual || op == Operator::GreaterThan || op
        == Operator::GreaterThanEqual
}

/// What an ordering operator says of two whole numbers.
pub open spec fn order_holds(op: Operator, left: int, right: int) -> bool {
    match op {
        Operator::LessThan => left < right,
        Operator::LessThanEqual => left <= right,
        Operator::GreaterThan => left > right,
        Operator::GreaterThanEqual => left >= right,
        _ => false,
    }
}

/// What an ordering operator says of two numbers that order as `order`.
pub open spec fn float_order_holds(op: Operator, order: FloatOrder) -> bool {
    match op {
        Operator::LessThan => order == FloatOrder::Less,
        Operator::LessThanEqual => order == FloatOrder::Less || order == FloatOrder::Equal,
        Operator::GreaterThan => order == FloatOrder::Greater,
        Operator::GreaterThanEqual => order == FloatOrder::Greater || order == FloatOrder::Equal,
        _ => false,
    }
}

/// The comparison needs the order of the two sides as doubles: the operator is an
/// ordering, both sides are numbers, and they are not both whole numbers in the range
/// of `i64`.
pub open spec fn float_order_needed(left: JsonView, op: Operator, right: JsonView) -> bool {
    is_ordering(op) && left is Number && right is Number && !(number_as_i64(left->Number_0) is Some
        && number_as_i64(right->Number_0) is Some)
}

/// What `left op right` comes to.
///
/// `==` and `!=` go by the equality of JSON values. The orderings hold of numbers only:
/// of two whole numbers in the range of `i64` by their values, of any other two by
/// `float_order`, their order as doubles, and a pair without such an order is a
/// mismatch. `in` holds when the right string occurs in the left string, when the right
/// string is a key of the left object, or when the right value equals a member of the
/// left array. Any other pairing is a mismatch.
pub open spec fn comparison(
    left: JsonView,
    op: Operator,
    right: JsonView,
    float_order: Option<FloatOrder>,
) -> Result<bool, Error> {
    match op {
        Operator::Equal => Ok(json_equal(left, right)),
        Operator::NotEqual => Ok(!json_equal(left, right)),
        Operator::In => match left {
            JsonView::String(l) => if right is String {
                Ok(is_substring(l, right->String_0))
            } else {
                Err(Error::ComparisonErrorTypeMismatch())
            },
            JsonView::Object(members) => if right is String {
                Ok(has_key(members, right->String_0, members.len() as int))
            } else {
                Err(Error::ComparisonErrorTypeMismatch())
            },
            JsonView::Array(items) => Ok(has_item(items, right, items.len() as int)),
            _ => Err(Error::ComparisonErrorTypeMismatch()),
        },
        _ => if left is Number && right is Number {
            if number_as_i64(left->Number_0) is Some && number_as_i64(right->Number_0) is Some {
                Ok(
                    order_holds(
                        op,
                        number_as_i64(left->Number_0)->0 as int,
                        number_as_i64(right->Number_0)->0 as int,
                    ),
                )
            } else {
                match float_order {
                    Some(order) => Ok(float_order_holds(op, order)),
                    None => Err(Error::ComparisonErrorTypeMismatch()),
                }
            }
        } else {
            Err(Error::ComparisonErrorTypeMismatch())
        },
    }
}

/// Whether the comparison needs the order of the two sides as doubles.
pub fn needs_float_order(left: &Json, op: &Operator, right: &Json) -> (needed: bool)
    ensures
        needed == float_order_needed(left@, *op, right@),
{
    match op {
        Operator::LessThan
        | Operator::LessThanEqual
        | Operator::GreaterThan
        | Operator::GreaterThanEqual => match left {
            Json::Number(l) => match right {
                Json::Number(r) => !(l.as_i64().is_some() && r.as_i64().is_some()),
                _ => false,
            },
            _ => false,
        },
        _ => false,
    }
}

/// Compares two JSON values. `float_order` is the order of the two sides as doubles, and
/// is read only where `needs_float_order` says so.
pub fn json_compare(
    left: &Json,
    op: &Operator,
    right: &Json,
    float_order: Option<FloatOrder>,
) -> (result: Result<bool, Error>)
    ensures
        result == comparison(left@, *op, right@, float_order),
{
    match op {
        Operator::Equal => Ok(left.equals(right)),
        Operator::NotEqual => Ok(!left.equals(right)),
        Operator::In => match left {
            Json::String(l) => match right {
                Json::String(r) => Ok(contains_text(l.as_str(), r.as_str())),
                _ => Err(Error::ComparisonErrorTypeMismatch()),
            },
            Json::Object(members) => {
                proof {
                    lemma_object_view(*members);
                }
                match right {
                    Json::String(r) => Ok(contains_key(members, r)),
                    _ => Err(Error::ComparisonErrorTypeMismatch()),
                }
            },
            Json::Array(items) => {
                proof {
                    lemma_array_view(*items);
                }
                Ok(contains_item(items, right))
            },
            _ => Err(Error::ComparisonErrorTypeMismatch()),
        },
        _ => match left {
            Json::Number(l) => match right {
                Json::Number(r) => match l.as_i64() {
                    Some(a) => match r.as_i64() {
                        Some(b) => Ok(
                            match op {
                                Operator::LessThan => a < b,
                                Operator::LessThanEqual => a <= b,
                                Operator::GreaterThan => a > b,
                                _ => a >= b,
                            },
                        ),
                        None => by_float_order(op, float_order),
                    },
                    None => by_float_order(op, float_order),
                },
                _ => Err(Error::ComparisonErrorTypeMismatch()),
            },
            _ => Err(Error::ComparisonErrorTypeMismatch()),
        },
    }
}

/// What an ordering operator says of two numbers, from their order as doubles.
pub fn by_float_order(op: &Operator, float_order: Option<FloatOrder>) -> (result: Result<
    bool,
    Error,
>)
    requires
        is_ordering(*op),
    ensures
        result == (match float_order {
            Some(order) => Ok::<bool, Error>(float_order_holds(*op, order)),
            None => Err::<bool, Error>(Error::ComparisonErrorTypeMismatch()),
        }),
{
    match float_order {
        None => Err(Error::ComparisonErrorTypeMismatch()),
        Some(order) => Ok(
            match op {
                Operator::LessThan => match order {
                    FloatOrder::Less => true,
                    _ => false,
                },
                Operator::LessThanEqual => match order {
                    FloatOrder::Greater => false,
                    _ => true,
                },
                Operator::GreaterThan => match order {
                    FloatOrder::Greater => true,
                    _ => false,
                },
                _ => match order {
                    FloatOrder::Less => false,
                    _ => true,
                },
            },
        ),
    }
}

} // verus!
