//! Constant expression: the named constants `e` and `pi`.

use vstd::prelude::*;

use crate::expression::render::str_eq;
use crate::expression::{constant_view, ExprV};

verus! {

/// A named constant.
#[derive(Debug)]
pub enum Constant {
    E,
    PI,
}

impl Clone for Constant {
    fn clone(&self) -> (r: Self)
        ensures
            r@ == self@,
    {
        match self {
            Constant::E => Constant::E,
            Constant::PI => Constant::PI,
        }
    }
}

impl View for Constant {
    type V = ExprV;

    open spec fn view(&self) -> ExprV {
        constant_view(*self)
    }
}

impl Constant {
    /// Recognizes a constant name; `Some` exactly for `"e"` and `"pi"`.
    pub fn new(s: &str) -> (r: Option<Constant>)
        ensures
            match r {
                Some(c) => (s@ == "e"@ && c@ == ExprV::EConst) || (s@ == "pi"@ && c@
                    == ExprV::PiConst),
                None => s@ != "e"@ && s@ != "pi"@,
            },
    {
        if str_eq(s, "e") {
            Some(Constant::E)
        } else if str_eq(s, "pi") {
            Some(Constant::PI)
        } else {
            None
        }
    }
}

} // verus!
