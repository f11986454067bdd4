//! The values of the expression language.

use vstd::prelude::*;

verus! {

/// One step of an accessor path: a member name or an array position.
#[derive(Debug, PartialEq)]
pub enum AccessPath {
    Key(String),
    Index(IndexValue),
}

/// What stands between the brackets of an array position.
#[derive(Debug, PartialEq)]
pub enum IndexValue {
    Access(Access),
    Int(i32),
}

/// An accessor: a base name followed by an optional, non-empty path.
#[derive(Debug, PartialEq)]
pub struct Access {
    pub base: String,
    pub path: Option<Vec<AccessPath>>,
}

/// A decimal literal with a fraction, as it is written: whether a `-` stands before
/// it, the number before the point, the digits after the point read as one number, and
/// how many digits there are after the point, the zeros at their front counted.
#[derive(Debug, PartialEq, Eq, Clone, Copy)]
pub struct FloatLiteral {
    pub negative: bool,
    pub int_part: u32,
    pub frac_part: u32,
    pub frac_digits: usize,
}

/// Mathematical value of a `FloatLiteral`.
pub struct FloatLiteralView {
    pub negative: bool,
    pub int_part: nat,
    pub frac_part: nat,
    pub frac_digits: nat,
}

/// A value that the text of the configuration spells out.
#[derive(Debug, PartialEq)]
pub enum LiteralValue {
    Int(i32),
    Float(FloatLiteral),
    String(String),
    Bool(bool),
    Null,
}

/// One side of a condition: a literal or an accessor.
#[derive(Debug, PartialEq)]
pub enum Value {
    Literal(LiteralValue),
    Access(Access),
}

/// The word that may end a condition.
#[derive(Debug, PartialEq, Eq, Clone, Copy)]
pub enum Chain {
    And,
    Or,
}

/// The operator between the two sides of a condition.
#[derive(Debug, PartialEq, Eq, Clone, Copy)]
pub enum Operator {
    Equal,
    NotEqual,
    LessThan,
    LessThanEqual,
    GreaterThan,
    GreaterThanEqual,
    In,
}

/// Mathematical value of an `AccessPath`.
pub enum AccessPathView {
    Key(Seq<char>),
    Index(IndexValueView),
}

/// Mathematical value of an `IndexValue`.
pub enum IndexValueView {
    Access(AccessView),
    Int(i32),
}

/// Mathematical value of an `Access`.
pub struct AccessView {
    pub base: Seq<char>,
    pub path: Option<Seq<AccessPathView>>,
}

/// Mathematical value of a `LiteralValue`.
pub enum LiteralView {
    Int(i32),
    Float(FloatLiteralView),
    String(Seq<char>),
    Bool(bool),
    Null,
}

/// Mathematical value of a `Value`.
pub enum ValueView {
    Literal(LiteralView),
    Access(AccessView),
}

/// The value of an accessor.
pub open spec fn access_view(a: Access) -> AccessView
    decreases a,
{
    AccessView {
        base: a.base@,
        path: match a.path {
            None => None,
            Some(v) => Some(
                Seq::new(
                    v@.len(),
                    |i: int|
                        if 0 <= i < v@.len() {
                            access_path_view(v@[i])
                        } else {
                            AccessPathView::Key(Seq::empty())
                        },
                ),
            ),
        },
    }
}

/// The value of a step of a path.
pub open spec fn access_path_view(p: AccessPath) -> AccessPathView
    decreases p,
{
    match p {
        AccessPath::Key(k) => AccessPathView::Key(k@),
        AccessPath::Index(IndexValue::Int(i)) => AccessPathView::Index(IndexValueView::Int(i)),
        AccessPath::Index(IndexValue::Access(a)) => AccessPathView::Index(
            IndexValueView::Access(access_view(a)),
        ),
    }
}

/// The values of the steps of a path, in order.
pub open spec fn paths_view(v: Seq<AccessPath>) -> Seq<AccessPathView> {
    Seq::new(v.len(), |i: int| access_path_view(v[i]))
}

/// The value of an accessor, field by field.
pub proof fn lemma_access_view(a: Access)
    ensures
        a@.base == a.base@,
        a.path is None ==> a@.path is None,
        a.path is Some ==> a@.path == Some(paths_view(a.path->0@)),
{
    if let Some(v) = a.path {
        assert(a@.path->0 =~= paths_view(v@));
    }
}

impl View for Access {
    type V = AccessView;

    open spec fn view(&self) -> AccessView {
        access_view(*self)
    }
}

impl View for AccessPath {
    type V = AccessPathView;

    open spec fn view(&self) -> AccessPathView {
        access_path_view(*self)
    }
}

impl View for LiteralValue {
    type V = LiteralView;

    open spec fn view(&self) -> LiteralView {
        match self {
            LiteralValue::Int(i) => LiteralView::Int(*i),
            LiteralValue::Float(f) => LiteralView::Float(f@),
            LiteralValue::String(s) => LiteralView::String(s@),
            LiteralValue::Bool(b) => LiteralView::Bool(*b),
            LiteralValue::Null => LiteralView::Null,
        }
    }
}

impl View for FloatLiteral {
    type V = FloatLiteralView;

    open spec fn view(&self) -> FloatLiteralView {
        FloatLiteralView {
            negative: self.negative,
            int_part: self.int_part as nat,
            frac_part: self.frac_part as nat,
            frac_digits: self.frac_digits as nat,
        }
    }
}

impl View for Operator {
    type V = Operator;

    open spec fn view(&self) -> Operator {
        *self
    }
}

impl View for Chain {
    type V = Chain;

    open spec fn view(&self) -> Chain {
        *self
    }
}

impl View for Value {
    type V = ValueView;

    open spec fn view(&self) -> ValueView {
        match self {
            Value::Literal(l) => ValueView::Literal(l@),
            Value::Access(a) => ValueView::Access(a@),
        }
    }
}

} // verus!
