//! Factorial expression, `n!` of a literal.

use vstd::prelude::*;

use crate::expression::ExprV;

verus! {

/// Factorial of an unsigned integer literal.  Valid only as a direct
/// literal operand: the grammar has no production for it, so the parser
/// never builds one; it exists for trees assembled by hand.
#[derive(Debug)]
pub struct Factorial {
    pub n: u32,
}

impl Clone for Factorial {
    fn clone(&self) -> (r: Self)
        ensures
            r@ == self@,
    {
        Factorial { n: self.n }
    }
}

impl View for Factorial {
    type V = ExprV;

    open spec fn view(&self) -> ExprV {
        ExprV::Fact(self.n)
    }
}

impl Factorial {
    pub fn new(n: u32) -> (r: Factorial)
        ensures
            r@ == ExprV::Fact(n),
    {
        Factorial { n }
    }
}

} // verus!
