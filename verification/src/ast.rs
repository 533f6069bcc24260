//! The syntax trees of the formula language.

use vstd::prelude::*;

use crate::model::Coord;
use crate::num::Bits;

verus! {

/// The operators that stand between two operands.
#[derive(Clone, Copy, PartialEq, Eq, Structural, Debug)]
pub enum BinOp {
    Add,
    Sub,
    Mul,
    Div,
    Pow,
    Concat,
    Eq,
    Ne,
    Lt,
    Le,
    Gt,
    Ge,
}

/// A formula.
#[derive(Debug, PartialEq)]
pub enum Expr {
    Num(Bits),
    Str(String),
    Bool(bool),
    /// A name that is neither a cell nor a truth value.
    ErrName,
    Ref(u32, u32),
    Range((u32, u32), (u32, u32)),
    /// `-` before its operand, or `%` after it.
    Unary(char, Box<Expr>),
    Binary(BinOp, Box<Expr>, Box<Expr>),
    /// A function, its name in capitals, and its arguments.
    Call(String, Vec<Expr>),
}

/// A formula with its texts as character sequences.
pub enum ExprV {
    Num(Bits),
    Str(Seq<char>),
    Bool(bool),
    ErrName,
    Ref(u32, u32),
    Range(Coord, Coord),
    Unary(char, Box<ExprV>),
    Binary(BinOp, Box<ExprV>, Box<ExprV>),
    Call(Seq<char>, Seq<ExprV>),
}

/// The formula with its texts as character sequences.
pub open spec fn expr_view(e: Expr) -> ExprV
    decreases e,
{
    match e {
        Expr::Num(n) => ExprV::Num(n),
        Expr::Str(s) => ExprV::Str(s@),
        Expr::Bool(b) => ExprV::Bool(b),
        Expr::ErrName => ExprV::ErrName,
        Expr::Ref(r, c) => ExprV::Ref(r, c),
        Expr::Range(a, b) => ExprV::Range(a, b),
        Expr::Unary(op, inner) => ExprV::Unary(op, Box::new(expr_view(*inner))),
        Expr::Binary(op, l, r) => ExprV::Binary(
            op,
            Box::new(expr_view(*l)),
            Box::new(expr_view(*r)),
        ),
        Expr::Call(name, args) => ExprV::Call(name@, exprs_view(args@)),
    }
}

/// The formulas with their texts as character sequences.
pub open spec fn exprs_view(es: Seq<Expr>) -> Seq<ExprV>
    decreases es,
{
    if es.len() == 0 {
        Seq::empty()
    } else {
        exprs_view(es.drop_last()).push(expr_view(es.last()))
    }
}

impl View for Expr {
    type V = ExprV;

    open spec fn view(&self) -> ExprV {
        expr_view(*self)
    }
}

/// The view of a list of formulas is the list of their views.
pub broadcast proof fn exprs_view_each(es: Seq<Expr>)
    ensures
        #![trigger exprs_view(es)]
        exprs_view(es).len() == es.len(),
        forall|i: int| 0 <= i < es.len() ==> #[trigger] exprs_view(es)[i] == expr_view(es[i]),
    decreases es.len(),
{
    if es.len() > 0 {
        exprs_view_each(es.drop_last());
        assert forall|i: int| 0 <= i < es.len() implies #[trigger] exprs_view(es)[i] == expr_view(
            es[i],
        ) by {
            if i < es.len() - 1 {
                assert(es.drop_last()[i] == es[i]);
            }
        }
    }
}

} // verus!
