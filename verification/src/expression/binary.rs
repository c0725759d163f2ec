//! Binary expression: the infix operators.

use vstd::prelude::*;

use crate::expression::render::str_eq;
use crate::expression::{binary_view, ExprV, Expression};

verus! {

/// A binary infix operator and its two exclusively-owned operands.
#[derive(Debug)]
pub enum Binary {
    Add(Expression, Expression),
    Sub(Expression, Expression),
    Mul(Expression, Expression),
    Div(Expression, Expression),
    Pow(Expression, Expression),
}

impl Clone for Binary {
    fn clone(&self) -> (r: Self)
        ensures
            r@ == self@,
    {
        match self {
            Binary::Add(l, r) => Binary::Add(l.clone(), r.clone()),
            Binary::Sub(l, r) => Binary::Sub(l.clone(), r.clone()),
            Binary::Mul(l, r) => Binary::Mul(l.clone(), r.clone()),
            Binary::Div(l, r) => Binary::Div(l.clone(), r.clone()),
            Binary::Pow(l, r) => Binary::Pow(l.clone(), r.clone()),
        }
    }
}

impl View for Binary {
    type V = ExprV;

    open spec fn view(&self) -> ExprV {
        binary_view(*self)
    }
}

impl Binary {
    /// Builds the binary node for `op`; `Some` exactly for the five operator
    /// symbols `+`, `-`, `*`, `/` and `**`.
    pub fn new(op: &str, lhs: Expression, rhs: Expression) -> (r: Option<Binary>)
        ensures
            match r {
                Some(b) => {
                    ||| (op@ == "+"@ && b@ == ExprV::Add(Box::new(lhs@), Box::new(rhs@)))
                    ||| (op@ == "-"@ && b@ == ExprV::Sub(Box::new(lhs@), Box::new(rhs@)))
                    ||| (op@ == "*"@ && b@ == ExprV::Mul(Box::new(lhs@), Box::new(rhs@)))
                    ||| (op@ == "/"@ && b@ == ExprV::Div(Box::new(lhs@), Box::new(rhs@)))
                    ||| (op@ == "**"@ && b@ == ExprV::Pow(Box::new(lhs@), Box::new(rhs@)))
                },
                None => op@ != "+"@ && op@ != "-"@ && op@ != "*"@ && op@ != "/"@ && op@ != "**"@,
            },
    {
        if str_eq(op, "+") {
            Some(Binary::Add(lhs, rhs))
        } else if str_eq(op, "-") {
            Some(Binary::Sub(lhs, rhs))
        } else if str_eq(op, "*") {
            Some(Binary::Mul(lhs, rhs))
        } else if str_eq(op, "/") {
            Some(Binary::Div(lhs, rhs))
        } else if str_eq(op, "**") {
            Some(Binary::Pow(lhs, rhs))
        } else {
            None
        }
    }
}

} // verus!
