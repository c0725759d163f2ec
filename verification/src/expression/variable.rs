//! Variable expression, i.e. `x`.

use vstd::prelude::*;

use crate::expression::ExprV;

verus! {

/// The input variable `x`.
#[derive(Debug, Default)]
pub struct Variable;

impl Clone for Variable {
    fn clone(&self) -> (r: Self)
        ensures
            r@ == self@,
    {
        Variable
    }
}

impl View for Variable {
    type V = ExprV;

    open spec fn view(&self) -> ExprV {
        ExprV::Var
    }
}

impl Variable {
    pub fn new() -> (r: Variable)
        ensures
            r@ == ExprV::Var,
    {
        Variable
    }
}

} // verus!
