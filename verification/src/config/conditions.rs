//! The conditions of an analyzer.

use crate::config::parser::parser_type::{Chain, Operator, Value, ValueView};
use vstd::prelude::*;

verus! {

/// One condition of an analyzer: two values and the operator between them. The chain
/// word after it is kept as written.
#[derive(Debug, PartialEq)]
pub struct Condition {
    pub left: Value,
    pub op: Operator,
    pub right: Value,
    pub chain: Option<Chain>,
}

/// Mathematical value of a `Condition`.
pub struct ConditionView {
    pub left: ValueView,
    pub op: Operator,
    pub right: ValueView,
    pub chain: Option<Chain>,
}

impl View for Condition {
    type V = ConditionView;

    open spec fn view(&self) -> ConditionView {
        ConditionView { left: self.left@, op: self.op, right: self.right@, chain: self.chain }
    }
}

} // verus!
