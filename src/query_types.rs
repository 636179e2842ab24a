//! The query language's syntax tree, and its mathematical counterpart.

use vstd::prelude::*;

use crate::number::Number;

verus! {

/// A value drawn from a packet.
#[derive(Debug, Clone)]
pub enum Lookup {
    Name,
    Id,
    Parameter(String),
    This(String),
    Environment(String),
}

/// A value written in the query.
#[derive(Debug, Clone)]
pub enum Literal {
    Bool(bool),
    String(String),
    Number(Number),
}

/// One side of a test.
#[derive(Debug, Clone)]
pub enum TestValue {
    Lookup(Lookup),
    Literal(Literal),
}

/// A comparison operator.
#[derive(Clone, Copy, Debug, PartialEq, Eq, Structural)]
pub enum Test {
    Equal,
    NotEqual,
    LessThan,
    LessThanOrEqual,
    GreaterThan,
    GreaterThanOrEqual,
}

/// A boolean connective.
#[derive(Clone, Copy, Debug, PartialEq, Eq, Structural)]
pub enum Operator {
    And,
    Or,
}

/// A query.
#[derive(Debug)]
pub enum QueryNode {
    Latest(Option<Box<QueryNode>>),
    Single(Box<QueryNode>),
    Test(Test, TestValue, TestValue),
    Negation(Box<QueryNode>),
    Brackets(Box<QueryNode>),
    BooleanOperator(Operator, Box<QueryNode>, Box<QueryNode>),
}

/// A lookup, with names as character sequences.
pub enum SLookup {
    Name,
    Id,
    Parameter(Seq<char>),
    This(Seq<char>),
    Environment(Seq<char>),
}

/// A literal, with text as a character sequence.
pub enum SLiteral {
    Bool(bool),
    Str(Seq<char>),
    Num(Number),
}

/// One side of a test.
pub enum SValue {
    Lookup(SLookup),
    Literal(SLiteral),
}

/// A query as a mathematical tree.
pub enum SNode {
    Latest(Option<Box<SNode>>),
    Single(Box<SNode>),
    Test(Test, SValue, SValue),
    Negation(Box<SNode>),
    Brackets(Box<SNode>),
    BooleanOperator(Operator, Box<SNode>, Box<SNode>),
}

impl View for Lookup {
    type V = SLookup;

    open spec fn view(&self) -> SLookup {
        match self {
            Lookup::Name => SLookup::Name,
            Lookup::Id => SLookup::Id,
            Lookup::Parameter(k) => SLookup::Parameter(k@),
            Lookup::This(k) => SLookup::This(k@),
            Lookup::Environment(k) => SLookup::Environment(k@),
        }
    }
}

impl View for Literal {
    type V = SLiteral;

    open spec fn view(&self) -> SLiteral {
        match self {
            Literal::Bool(b) => SLiteral::Bool(*b),
            Literal::String(s) => SLiteral::Str(s@),
            Literal::Number(n) => SLiteral::Num(*n),
        }
    }
}

impl View for TestValue {
    type V = SValue;

    open spec fn view(&self) -> SValue {
        match self {
            TestValue::Lookup(l) => SValue::Lookup(l@),
            TestValue::Literal(l) => SValue::Literal(l@),
        }
    }
}

/// The tree that a query denotes.
pub open spec fn node_view(n: QueryNode) -> SNode
    decreases n,
{
    match n {
        QueryNode::Latest(None) => SNode::Latest(None),
        QueryNode::Latest(Some(b)) => SNode::Latest(Some(Box::new(node_view(*b)))),
        QueryNode::Single(b) => SNode::Single(Box::new(node_view(*b))),
        QueryNode::Test(t, l, r) => SNode::Test(t, l@, r@),
        QueryNode::Negation(b) => SNode::Negation(Box::new(node_view(*b))),
        QueryNode::Brackets(b) => SNode::Brackets(Box::new(node_view(*b))),
        QueryNode::BooleanOperator(o, l, r) => SNode::BooleanOperator(
            o,
            Box::new(node_view(*l)),
            Box::new(node_view(*r)),
        ),
    }
}

impl View for QueryNode {
    type V = SNode;

    open spec fn view(&self) -> SNode {
        node_view(*self)
    }
}

} // verus!
