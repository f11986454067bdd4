//! The text of an expression.

use crate::config::arguments::Argument;
use crate::config::conditions::{Condition, ConditionView};
use crate::config::parser::parser_type::{
    lemma_access_view, paths_view, Access, AccessPath, AccessPathView, AccessView, Chain,
    FloatLiteral, IndexValue, IndexValueView, LiteralValue, LiteralView, Operator, Value,
    ValueView,
};
use crate::text::{fraction_text, int_text, nat_text, push_fraction, push_int, push_nat};
use vstd::prelude::*;
use vstd::string::*;

verus! {

/// `-` for a negative number, nothing for any other.
pub open spec fn sign_text(negative: bool) -> Seq<char> {
    if negative {
        seq!['-']
    } else {
        Seq::empty()
    }
}

/// The text of a literal: a float as its sign, the number before the point, a point and
/// the digits after it, as many as were written; a string between quotes.
pub open spec fn literal_text(l: LiteralView) -> Seq<char> {
    match l {
        LiteralView::Int(i) => int_text(i as int),
        LiteralView::Float(f) => sign_text(f.negative) + nat_text(f.int_part) + seq!['.']
            + fraction_text(f.frac_part, f.frac_digits),
        LiteralView::String(s) => seq!['"'] + s + seq!['"'],
        LiteralView::Bool(b) => if b {
            "true"@
        } else {
            "false"@
        },
        LiteralView::Null => "null"@,
    }
}

/// The text of one step of a path: `.key`, or the index between brackets.
pub open spec fn step_text(step: AccessPathView) -> Seq<char>
    decreases step, 0nat,
{
    match step {
        AccessPathView::Key(k) => seq!['.'] + k,
        AccessPathView::Index(IndexValueView::Int(i)) => seq!['['] + int_text(i as int) + seq![']'],
        AccessPathView::Index(IndexValueView::Access(a)) => seq!['['] + access_text(a) + seq![']'],
    }
}

/// The text of the steps of a path from position `i` on.
pub open spec fn path_text(path: Seq<AccessPathView>, i: int) -> Seq<char>
    decreases path, path.len() - i,
{
    if i < 0 || i >= path.len() {
        Seq::empty()
    } else {
        step_text(path[i]) + path_text(path, i + 1)
    }
}

/// The text of an accessor: its base and the steps of its path.
pub open spec fn access_text(a: AccessView) -> Seq<char>
    decreases a, 0nat,
{
    match a.path {
        None => a.base,
        Some(path) => a.base + path_text(path, 0),
    }
}

/// The text of a value.
pub open spec fn value_text(v: ValueView) -> Seq<char> {
    match v {
        ValueView::Literal(l) => literal_text(l),
        ValueView::Access(a) => access_text(a),
    }
}

/// The text of an operator.
pub open spec fn operator_text(op: Operator) -> Seq<char> {
    match op {
        Operator::Equal => "=="@,
        Operator::NotEqual => "!="@,
        Operator::LessThan => "<"@,
        Operator::LessThanEqual => "<="@,
        Operator::GreaterThan => ">"@,
        Operator::GreaterThanEqual => ">="@,
        Operator::In => "in"@,
    }
}

/// What follows the right-hand value: nothing, or a blank and the chain word.
pub open spec fn chain_text(chain: Option<Chain>) -> Seq<char> {
    match chain {
        None => Seq::empty(),
        Some(Chain::And) => seq![' '] + "and"@,
        Some(Chain::Or) => seq![' '] + "or"@,
    }
}

/// The text of a condition: the two values with the operator between them, one blank on
/// each side of it, and the chain word after them.
pub open spec fn condition_text(c: ConditionView) -> Seq<char> {
    value_text(c.left) + seq![' '] + operator_text(c.op) + seq![' '] + value_text(c.right)
        + chain_text(c.chain)
}


/// Appends the text of a literal.
pub fn push_literal(out: &mut String, literal: &LiteralValue)
    ensures
        final(out)@ == old(out)@ + literal_text(literal@),
{
    match literal {
        LiteralValue::Int(i) => {
            push_int(out, *i as i64);
        },
        LiteralValue::Float(f) => {
            if f.negative {
                out.append("-");
            }
            push_nat(out, f.int_part as u64);
            out.append(".");
            push_fraction(out, f.frac_part as u64, f.frac_digits);
            proof {
                reveal_strlit(".");
                reveal_strlit("-");
                assert("."@ =~= seq!['.']);
                assert("-"@ =~= seq!['-']);
                assert(final(out)@ =~= old(out)@ + literal_text(literal@));
            }
        },
        LiteralValue::String(text) => {
            out.append("\"");
            out.append(text.as_str());
            out.append("\"");
            proof {
                reveal_strlit("\"");
                assert("\""@ =~= seq!['"']);
                assert(final(out)@ =~= old(out)@ + literal_text(literal@));
            }
        },
        LiteralValue::Bool(b) => {
            if *b {
                out.append("true");
            } else {
                out.append("false");
            }
        },
        LiteralValue::Null => {
            out.append("null");
        },
    }
}

/// Appends the text of one step of a path.
pub fn push_step(out: &mut String, step: &AccessPath)
    ensures
        final(out)@ == old(out)@ + step_text(step@),
    decreases *step, 0nat,
{
    proof {
        reveal_strlit(".");
        reveal_strlit("[");
        reveal_strlit("]");
        assert("."@ =~= seq!['.']);
        assert("["@ =~= seq!['[']);
        assert("]"@ =~= seq![']']);
    }
    match step {
        AccessPath::Key(key) => {
            out.append(".");
            out.append(key.as_str());
            proof {
                assert(final(out)@ =~= old(out)@ + step_text(step@));
            }
        },
        AccessPath::Index(IndexValue::Int(i)) => {
            out.append("[");
            push_int(out, *i as i64);
            out.append("]");
            proof {
                assert(final(out)@ =~= old(out)@ + step_text(step@));
            }
        },
        AccessPath::Index(IndexValue::Access(inner)) => {
            out.append("[");
            push_access(out, inner);
            out.append("]");
            proof {
                assert(final(out)@ =~= old(out)@ + step_text(step@));
            }
        },
    }
}

/// Appends the text of an accessor.
pub fn push_access(out: &mut String, access: &Access)
    ensures
        final(out)@ == old(out)@ + access_text(access@),
    decreases *access, 1nat,
{
    proof {
        lemma_access_view(*access);
    }
    out.append(access.base.as_str());
    match &access.path {
        None => {},
        Some(steps) => {
            let ghost path = paths_view(steps@);
            let ghost whole = old(out)@ + access.base@ + path_text(path, 0);
            let mut i: usize = 0;
            while i < steps.len()
                invariant
                    0 <= i <= steps@.len(),
                    path == paths_view(steps@),
                    access.path == Some(*steps),
                    whole == out@ + path_text(path, i as int),
                decreases steps@.len() - i,
            {
                proof {
                    assert(access.path->0 == *steps);
                    assert(decreases_to!(*access => access.path));
                    assert(decreases_to!(access.path => access.path->0));
                    assert(decreases_to!(*steps => steps@[i as int]));
                    assert(path[i as int] == steps@[i as int]@);
                }
                let ghost before = out@;
                push_step(out, &steps[i]);
                proof {
                    assert(before + (step_text(path[i as int]) + path_text(path, i + 1)) =~= out@
                        + path_text(path, i + 1));
                }
                i = i + 1;
            }
            proof {
                assert(out@ + path_text(path, steps@.len() as int) =~= out@);
                assert(old(out)@ + access.base@ + path_text(path, 0) =~= old(out)@ + (
                access.base@ + path_text(path, 0)));
            }
        },
    }
}

impl FloatLiteral {
    /// The literal as it is written, without a `+`: the decimal number that it denotes.
    pub fn to_text(&self) -> (text: String)
        ensures
            text@ == literal_text(LiteralView::Float(self@)),
    {
        let mut text: String = String::new();
        push_literal(&mut text, &LiteralValue::Float(*self));
        proof {
            assert(Seq::<char>::empty() + literal_text(LiteralView::Float(self@)) =~= literal_text(
                LiteralView::Float(self@),
            ));
        }
        text
    }
}

impl Access {
    /// The accessor as it is written.
    pub fn to_text(&self) -> (text: String)
        ensures
            text@ == access_text(self@),
    {
        let mut text: String = String::new();
        push_access(&mut text, self);
        proof {
            assert(Seq::<char>::empty() + access_text(self@) =~= access_text(self@));
        }
        text
    }
}

impl Argument {
    /// The argument as it is written.
    pub fn to_text(&self) -> (text: String)
        ensures
            text@ == access_text(self@),
    {
        self.value.to_text()
    }
}

impl Value {
    /// The value as it is written.
    pub fn to_text(&self) -> (text: String)
        ensures
            text@ == value_text(self@),
    {
        let mut text: String = String::new();
        match self {
            Value::Literal(literal) => {
                push_literal(&mut text, literal);
            },
            Value::Access(access) => {
                push_access(&mut text, access);
            },
        }
        proof {
            assert(Seq::<char>::empty() + value_text(self@) =~= value_text(self@));
        }
        text
    }
}

impl Operator {
    /// The operator as it is written.
    pub fn to_text(&self) -> (text: &'static str)
        ensures
            text@ == operator_text(*self),
    {
        match self {
            Operator::Equal => "==",
            Operator::NotEqual => "!=",
            Operator::LessThan => "<",
            Operator::LessThanEqual => "<=",
            Operator::GreaterThan => ">",
            Operator::GreaterThanEqual => ">=",
            Operator::In => "in",
        }
    }
}

impl Condition {
    /// The condition as it is written: the parser reads the text of every condition that
    /// it gave as that condition.
    pub fn to_text(&self) -> (text: String)
        ensures
            text@ == condition_text(self@),
    {
        let mut text: String = self.left.to_text();
        text.append(" ");
        text.append(self.op.to_text());
        text.append(" ");
        text.append(self.right.to_text().as_str());
        match self.chain {
            None => {},
            Some(Chain::And) => {
                text.append(" and");
            },
            Some(Chain::Or) => {
                text.append(" or");
            },
        }
        proof {
            reveal_strlit(" ");
            reveal_strlit(" and");
            reveal_strlit(" or");
            reveal_strlit("and");
            reveal_strlit("or");
            assert(" "@ =~= seq![' ']);
            assert(" and"@ =~= seq![' '] + "and"@);
            assert(" or"@ =~= seq![' '] + "or"@);
            assert(text@ =~= condition_text(self@));
        }
        text
    }
}

} // verus!
