//! The expression tree produced by the parser, its mathematical view, and
//! the single error kind.

use vstd::prelude::*;

verus! {

/// The only way an evaluation can fail: the input is not a well-formed
/// expression, or asks for an undefined quantity.
#[derive(Debug, Clone, Copy, PartialEq, Eq, Structural)]
pub enum ParseError {
    InvalidExpression,
}

/// A binary operator.
#[derive(Debug, Clone, Copy, PartialEq, Eq, Structural)]
pub enum BinOp {
    Add,
    Sub,
    Mul,
    Div,
}

/// Mathematical view of an operand.
pub enum OperandView {
    Number { negated: bool, digits: Seq<char> },
    Group { negated: bool, inner: CompoundView },
}

/// Mathematical view of a compound expression: a flat operand list joined by
/// binary operators, `operators.len() + 1 == operands.len()`.
pub struct CompoundView {
    pub operands: Seq<OperandView>,
    pub operators: Seq<BinOp>,
}

/// Mathematical view of a whole expression.
pub enum ExprView {
    Literal { negated: bool, digits: Seq<char> },
    Log { inner: Box<ExprView> },
    Sqrt { inner: Box<ExprView> },
    Compound { compound: CompoundView },
}

/// One operand of a compound expression: a possibly negated numeral, or a
/// possibly negated parenthesized subexpression.
#[derive(Debug)]
pub enum Operand {
    Number { negated: bool, digits: Vec<char> },
    Group { negated: bool, inner: Compound },
}

/// A compound expression: operands joined left to right by binary operators.
#[derive(Debug)]
pub struct Compound {
    pub operands: Vec<Operand>,
    pub operators: Vec<BinOp>,
}

/// A parsed expression.
#[derive(Debug)]
pub enum Expr {
    Literal { negated: bool, digits: Vec<char> },
    Log { inner: Box<Expr> },
    Sqrt { inner: Box<Expr> },
    Compound { compound: Compound },
}

pub open spec fn operand_view(o: Operand) -> OperandView
    decreases o, 2nat,
{
    match o {
        Operand::Number { negated, digits } => OperandView::Number {
            negated: negated,
            digits: digits@,
        },
        Operand::Group { negated, inner } => OperandView::Group {
            negated: negated,
            inner: compound_view(inner),
        },
    }
}

/// The views of a sequence of operands, element by element.
pub open spec fn operand_views(v: Seq<Operand>) -> Seq<OperandView>
    decreases v, 0nat,
    via operand_views_decreases
{
    Seq::new(
        v.len(),
        |i: int|
            if 0 <= i < v.len() {
                operand_view(v[i])
            } else {
                arbitrary()
            },
    )
}

#[via_fn]
proof fn operand_views_decreases(v: Seq<Operand>) {
    broadcast use vstd::seq::axiom_seq_index_decreases;

}

pub open spec fn compound_view(c: Compound) -> CompoundView
    decreases c, 1nat,
    via compound_view_decreases
{
    CompoundView { operands: operand_views(c.operands@), operators: c.operators@ }
}

#[via_fn]
proof fn compound_view_decreases(c: Compound) {
    broadcast use vstd::std_specs::vec::axiom_vec_decreases_to_view;

}

pub proof fn lemma_operand_views_push(v: Seq<Operand>, o: Operand)
    ensures
        operand_views(v.push(o)) == operand_views(v).push(operand_view(o)),
{
    assert(operand_views(v.push(o)) =~= operand_views(v).push(operand_view(o)));
}

pub proof fn lemma_operand_views_singleton(o: Operand)
    ensures
        operand_views(seq![o]) == seq![operand_view(o)],
{
    assert(operand_views(seq![o]) =~= seq![operand_view(o)]);
}

pub open spec fn expr_view(e: Expr) -> ExprView
    decreases e, 2nat,
{
    match e {
        Expr::Literal { negated, digits } => ExprView::Literal {
            negated: negated,
            digits: digits@,
        },
        Expr::Log { inner } => ExprView::Log { inner: Box::new(expr_view(*inner)) },
        Expr::Sqrt { inner } => ExprView::Sqrt { inner: Box::new(expr_view(*inner)) },
        Expr::Compound { compound } => ExprView::Compound { compound: compound_view(compound) },
    }
}

impl View for Operand {
    type V = OperandView;

    open spec fn view(&self) -> OperandView {
        operand_view(*self)
    }
}

impl View for Compound {
    type V = CompoundView;

    open spec fn view(&self) -> CompoundView {
        compound_view(*self)
    }
}

impl View for Expr {
    type V = ExprView;

    open spec fn view(&self) -> ExprView {
        expr_view(*self)
    }
}

} // verus!
