//! One-argument named function expressions.

use vstd::prelude::*;

use crate::expression::render::str_eq;
use crate::expression::{func_view, ExprV, Expression};

verus! {

/// A named one-argument function applied to a sub-expression.
#[derive(Debug)]
pub enum Func {
    Sin(Expression),
    Cos(Expression),
    Tan(Expression),
    Cot(Expression),
    Sec(Expression),
    Csc(Expression),
    Arcsin(Expression),
    Arccos(Expression),
    Arctan(Expression),
    Arccot(Expression),
    Ln(Expression),
    Sqrt(Expression),
}

/// The recognized one-argument function names.
pub open spec fn is_func_name(s: Seq<char>) -> bool {
    ||| s == "sin"@
    ||| s == "cos"@
    ||| s == "tan"@
    ||| s == "cot"@
    ||| s == "sec"@
    ||| s == "csc"@
    ||| s == "arcsin"@
    ||| s == "arccos"@
    ||| s == "arctan"@
    ||| s == "arccot"@
    ||| s == "ln"@
    ||| s == "sqrt"@
}

/// The node built for a recognized name around child view `c`.
pub open spec fn func_node(s: Seq<char>, c: ExprV) -> ExprV {
    if s == "sin"@ {
        ExprV::Sin(Box::new(c))
    } else if s == "cos"@ {
        ExprV::Cos(Box::new(c))
    } else if s == "tan"@ {
        ExprV::Tan(Box::new(c))
    } else if s == "cot"@ {
        ExprV::Cot(Box::new(c))
    } else if s == "sec"@ {
        ExprV::Sec(Box::new(c))
    } else if s == "csc"@ {
        ExprV::Csc(Box::new(c))
    } else if s == "arcsin"@ {
        ExprV::Arcsin(Box::new(c))
    } else if s == "arccos"@ {
        ExprV::Arccos(Box::new(c))
    } else if s == "arctan"@ {
        ExprV::Arctan(Box::new(c))
    } else if s == "arccot"@ {
        ExprV::Arccot(Box::new(c))
    } else if s == "ln"@ {
        ExprV::Ln(Box::new(c))
    } else {
        ExprV::Sqrt(Box::new(c))
    }
}

/// Executable recognition of the one-argument function names.
pub fn is_known_func(name: &str) -> (r: bool)
    ensures
        r == is_func_name(name@),
{
    str_eq(name, "sin") || str_eq(name, "cos") || str_eq(name, "tan") || str_eq(name, "cot")
        || str_eq(name, "sec") || str_eq(name, "csc") || str_eq(name, "arcsin") || str_eq(
        name,
        "arccos",
    ) || str_eq(name, "arctan") || str_eq(name, "arccot") || str_eq(name, "ln") || str_eq(
        name,
        "sqrt",
    )
}

impl Clone for Func {
    fn clone(&self) -> (r: Self)
        ensures
            r@ == self@,
    {
        match self {
            Func::Sin(c) => Func::Sin(c.clone()),
            Func::Cos(c) => Func::Cos(c.clone()),
            Func::Tan(c) => Func::Tan(c.clone()),
            Func::Cot(c) => Func::Cot(c.clone()),
            Func::Sec(c) => Func::Sec(c.clone()),
            Func::Csc(c) => Func::Csc(c.clone()),
            Func::Arcsin(c) => Func::Arcsin(c.clone()),
            Func::Arccos(c) => Func::Arccos(c.clone()),
            Func::Arctan(c) => Func::Arctan(c.clone()),
            Func::Arccot(c) => Func::Arccot(c.clone()),
            Func::Ln(c) => Func::Ln(c.clone()),
            Func::Sqrt(c) => Func::Sqrt(c.clone()),
        }
    }
}

impl View for Func {
    type V = ExprV;

    open spec fn view(&self) -> ExprV {
        func_view(*self)
    }
}

impl Func {
    /// Builds the function node for `f_name`; `Some` exactly for the
    /// recognized one-argument function names.
    pub fn new(f_name: &str, expr: Expression) -> (r: Option<Func>)
        ensures
            match r {
                Some(f) => is_func_name(f_name@) && f@ == func_node(f_name@, expr@),
                None => !is_func_name(f_name@),
            },
    {
        if str_eq(f_name, "sin") {
            Some(Func::Sin(expr))
        } else if str_eq(f_name, "cos") {
            Some(Func::Cos(expr))
        } else if str_eq(f_name, "tan") {
            Some(Func::Tan(expr))
        } else if str_eq(f_name, "cot") {
            Some(Func::Cot(expr))
        } else if str_eq(f_name, "sec") {
            Some(Func::Sec(expr))
        } else if str_eq(f_name, "csc") {
            Some(Func::Csc(expr))
        } else if str_eq(f_name, "arcsin") {
            Some(Func::Arcsin(expr))
        } else if str_eq(f_name, "arccos") {
            Some(Func::Arccos(expr))
        } else if str_eq(f_name, "arctan") {
            Some(Func::Arctan(expr))
        } else if str_eq(f_name, "arccot") {
            Some(Func::Arccot(expr))
        } else if str_eq(f_name, "ln") {
            Some(Func::Ln(expr))
        } else if str_eq(f_name, "sqrt") {
            Some(Func::Sqrt(expr))
        } else {
            None
        }
    }
}

} // verus!
