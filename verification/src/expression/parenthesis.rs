//! Parenthesis expression: explicit grouping.

use vstd::prelude::*;

use crate::expression::{paren_view, ExprV, Expression};

verus! {

/// Explicit grouping around one child.  It only preserves grouping when the
/// tree is printed back to text; evaluation passes straight through.
#[derive(Debug)]
pub struct Parenthesis(pub Expression);

impl Clone for Parenthesis {
    fn clone(&self) -> (r: Self)
        ensures
            r@ == self@,
    {
        Parenthesis(self.0.clone())
    }
}

impl View for Parenthesis {
    type V = ExprV;

    open spec fn view(&self) -> ExprV {
        paren_view(*self)
    }
}

impl Parenthesis {
    pub fn new(expr: Expression) -> (r: Parenthesis)
        ensures
            r@ == ExprV::Paren(Box::new(expr@)),
    {
        Parenthesis(expr)
    }
}

} // verus!
