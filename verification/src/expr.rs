//! The abstract syntax tree: expressions over a precedence hierarchy of
//! binary, unary, grouping and literal nodes. Each non-leaf node owns its
//! child subtrees exclusively; nodes are immutable once constructed.

use vstd::prelude::*;

use crate::error::Error;
use crate::token::{Literal, LiteralV, Token, TokenV};

verus! {

/// One expression node.
#[derive(Debug, PartialEq)]
pub enum Expr {
    Literal(LiteralExpr),
    Unary(UnaryExpr),
    Binary(BinaryExpr),
    Grouping(GroupingExpr),
}

/// A leaf: a literal value, or none for the nil literal.
#[derive(Debug, PartialEq)]
pub struct LiteralExpr {
    pub value: Option<Literal>,
}

/// A parenthesized expression; owns the grouped subtree.
#[derive(Debug, PartialEq)]
pub struct GroupingExpr {
    pub expression: Box<Expr>,
}

/// A prefix operator applied to the subtree on its right.
#[derive(Debug, PartialEq)]
pub struct UnaryExpr {
    pub operator: Token,
    pub right: Box<Expr>,
}

/// An infix operator between two owned subtrees.
#[derive(Debug, PartialEq)]
pub struct BinaryExpr {
    pub left: Box<Expr>,
    pub operator: Token,
    pub right: Box<Expr>,
}

/// Mathematical model of an expression tree.
pub ghost enum ExprV {
    Literal(Option<LiteralV>),
    Unary(TokenV, Box<ExprV>),
    Binary(Box<ExprV>, TokenV, Box<ExprV>),
    Grouping(Box<ExprV>),
}

/// The model of a tree: the same shape over token and literal models.
pub open spec fn expr_view(e: Expr) -> ExprV
    decreases e,
{
    match e {
        Expr::Literal(le) => ExprV::Literal(
            match le.value {
                Some(l) => Some(l@),
                None => None,
            },
        ),
        Expr::Unary(ue) => ExprV::Unary(ue.operator@, Box::new(expr_view(*ue.right))),
        Expr::Binary(be) => ExprV::Binary(
            Box::new(expr_view(*be.left)),
            be.operator@,
            Box::new(expr_view(*be.right)),
        ),
        Expr::Grouping(ge) => ExprV::Grouping(Box::new(expr_view(*ge.expression))),
    }
}

impl View for Expr {
    type V = ExprV;

    open spec fn view(&self) -> ExprV {
        expr_view(*self)
    }
}

/// The dispatch contract for consumers of the tree: one operation per
/// node variant, tied together by the consumer's own correctness
/// predicate `visit_ok`, which relates a node's model to an acceptable
/// result for it. `Expr::accept` then guarantees `visit_ok` for the
/// whole tree it dispatches on.
pub trait ExprVisitor<T> {
    /// What this consumer promises of its result on a given tree.
    spec fn visit_ok(&self, e: ExprV, r: Result<T, Error>) -> bool;

    fn visit_literal_expr(&self, expr: &LiteralExpr) -> (r: Result<T, Error>)
        ensures
            self.visit_ok(expr_view(Expr::Literal(*expr)), r),
    ;

    fn visit_grouping_expr(&self, expr: &GroupingExpr) -> (r: Result<T, Error>)
        ensures
            self.visit_ok(expr_view(Expr::Grouping(*expr)), r),
    ;

    fn visit_unary_expr(&self, expr: &UnaryExpr) -> (r: Result<T, Error>)
        ensures
            self.visit_ok(expr_view(Expr::Unary(*expr)), r),
    ;

    fn visit_binary_expr(&self, expr: &BinaryExpr) -> (r: Result<T, Error>)
        ensures
            self.visit_ok(expr_view(Expr::Binary(*expr)), r),
    ;
}

impl Expr {
    /// Dispatches to the visitor operation matching this node's variant.
    pub fn accept<T, V: ExprVisitor<T>>(&self, expr_visitor: &V) -> (r: Result<T, Error>)
        ensures
            expr_visitor.visit_ok(self@, r),
    {
        match self {
            Expr::Literal(le) => expr_visitor.visit_literal_expr(le),
            Expr::Unary(ue) => expr_visitor.visit_unary_expr(ue),
            Expr::Binary(be) => expr_visitor.visit_binary_expr(be),
            Expr::Grouping(ge) => expr_visitor.visit_grouping_expr(ge),
        }
    }
}

impl LiteralExpr {
    pub fn new(value: Option<Literal>) -> (r: Self)
        ensures
            r == (LiteralExpr { value }),
    {
        Self { value }
    }
}

impl GroupingExpr {
    pub fn new(expression: Expr) -> (r: Self)
        ensures
            r.expression == expression,
            r@ == ExprV::Grouping(Box::new(expression@)),
    {
        Self { expression: Box::new(expression) }
    }
}

impl UnaryExpr {
    pub fn new(operator: Token, right: Expr) -> (r: Self)
        ensures
            r.operator == operator,
            r.right == right,
            r@ == ExprV::Unary(operator@, Box::new(right@)),
    {
        Self { operator, right: Box::new(right) }
    }
}

impl BinaryExpr {
    pub fn new(left: Expr, operator: Token, right: Expr) -> (r: Self)
        ensures
            r.left == left,
            r.operator == operator,
            r.right == right,
            r@ == ExprV::Binary(Box::new(left@), operator@, Box::new(right@)),
    {
        Self { left: Box::new(left), operator, right: Box::new(right) }
    }
}

/// Models of the node structs on their own, so that each visitor
/// operation can state which node model it was handed.
impl View for LiteralExpr {
    type V = ExprV;

    open spec fn view(&self) -> ExprV {
        expr_view(Expr::Literal(*self))
    }
}

impl View for GroupingExpr {
    type V = ExprV;

    open spec fn view(&self) -> ExprV {
        expr_view(Expr::Grouping(*self))
    }
}

impl View for UnaryExpr {
    type V = ExprV;

    open spec fn view(&self) -> ExprV {
        expr_view(Expr::Unary(*self))
    }
}

impl View for BinaryExpr {
    type V = ExprV;

    open spec fn view(&self) -> ExprV {
        expr_view(Expr::Binary(*self))
    }
}

} // verus!
