//! Two-argument named function expressions.

use vstd::prelude::*;

use crate::expression::render::str_eq;
use crate::expression::{func2_view, ExprV, Expression};

verus! {

/// A named two-argument function; only `log(base, arg)` exists.
#[derive(Debug)]
pub enum Func2 {
    Log(Expression, Expression),
}

/// The recognized two-argument function names.
pub open spec fn is_func2_name(s: Seq<char>) -> bool {
    s == "log"@
}

impl Clone for Func2 {
    fn clone(&self) -> (r: Self)
        ensures
            r@ == self@,
    {
        match self {
            Func2::Log(l, r) => Func2::Log(l.clone(), r.clone()),
        }
    }
}

impl View for Func2 {
    type V = ExprV;

    open spec fn view(&self) -> ExprV {
        func2_view(*self)
    }
}

impl Func2 {
    /// Builds the function node for `f_name`; `Some` exactly for `"log"`.
    pub fn new(f_name: &str, lhs: Expression, rhs: Expression) -> (r: Option<Func2>)
        ensures
            match r {
                Some(g) => f_name@ == "log"@ && g@ == ExprV::Log(
                    Box::new(lhs@),
                    Box::new(rhs@),
                ),
                None => f_name@ != "log"@,
            },
    {
        if str_eq(f_name, "log") {
            Some(Func2::Log(lhs, rhs))
        } else {
            None
        }
    }
}

} // verus!
