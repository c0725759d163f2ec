//! Unary expression: negation.

use vstd::prelude::*;

use crate::expression::render::str_eq;
use crate::expression::{unary_view, ExprV, Expression};

verus! {

/// A unary operator applied to a sub-expression; only negation exists.
#[derive(Debug)]
pub enum Unary {
    Neg(Expression),
}

impl Clone for Unary {
    fn clone(&self) -> (r: Self)
        ensures
            r@ == self@,
    {
        match self {
            Unary::Neg(c) => Unary::Neg(c.clone()),
        }
    }
}

impl View for Unary {
    type V = ExprV;

    open spec fn view(&self) -> ExprV {
        unary_view(*self)
    }
}

impl Unary {
    /// Builds the unary node for `op`; `Some` exactly for `"-"`.
    pub fn new(op: &str, expr: Expression) -> (r: Option<Unary>)
        ensures
            match r {
                Some(u) => op@ == "-"@ && u@ == ExprV::Neg(Box::new(expr@)),
                None => op@ != "-"@,
            },
    {
        if str_eq(op, "-") {
            Some(Unary::Neg(expr))
        } else {
            None
        }
    }
}

} // verus!
