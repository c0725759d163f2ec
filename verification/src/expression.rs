//! Function expression: tokens, parser, tree, and evaluation.
//!
//! The pipeline is: text -> [`lexer::Lexer`] (tokens) -> [`parser::Parser`]
//! ([`Expression`] tree) -> evaluation plan and domain-aware result.

pub mod binary;
pub mod constant;
pub mod eval;
pub mod factorial;
pub mod func;
pub mod func2;
pub mod laws;
pub mod lexer;
pub mod number;
pub mod parenthesis;
pub mod parser;
pub mod render;
pub mod unary;
pub mod variable;

pub use binary::Binary;
pub use eval::EvalOp;
pub use constant::Constant;
pub use factorial::Factorial;
pub use func::Func;
pub use func2::Func2;
pub use lexer::{Lexer, Token};
pub use number::Number;
pub use parser::{parse, ParseError, Parser};
pub use parenthesis::Parenthesis;
pub use unary::Unary;
pub use variable::Variable;

use vstd::prelude::*;
use vstd::string::*;

verus! {

/// Mathematical view of an expression tree: one flat recursive datatype
/// covering every node variant, with text held as character sequences.
#[verifier::ext_equal]
pub enum ExprV {
    /// A decimal literal, split at the dot; `frac` is empty when the literal
    /// has no fractional part.
    Num { whole: Seq<char>, frac: Seq<char> },
    /// A factorial of a literal, `n!`.
    Fact(u32),
    /// Euler's number.
    EConst,
    /// The circle constant.
    PiConst,
    /// The input variable `x`.
    Var,
    /// Negation.
    Neg(Box<ExprV>),
    /// Explicit grouping; kept so that printing preserves it.
    Paren(Box<ExprV>),
    Add(Box<ExprV>, Box<ExprV>),
    Sub(Box<ExprV>, Box<ExprV>),
    Mul(Box<ExprV>, Box<ExprV>),
    Div(Box<ExprV>, Box<ExprV>),
    Pow(Box<ExprV>, Box<ExprV>),
    Sin(Box<ExprV>),
    Cos(Box<ExprV>),
    Tan(Box<ExprV>),
    Cot(Box<ExprV>),
    Sec(Box<ExprV>),
    Csc(Box<ExprV>),
    Arcsin(Box<ExprV>),
    Arccos(Box<ExprV>),
    Arctan(Box<ExprV>),
    Arccot(Box<ExprV>),
    Ln(Box<ExprV>),
    Sqrt(Box<ExprV>),
    Log(Box<ExprV>, Box<ExprV>),
}

/// Top-level expression: a closed set of node variants, immutable once
/// built; non-leaf nodes exclusively own their children.
#[derive(Debug)]
pub enum Expression {
    Number(Number),
    Factorial(Factorial),
    Constant(Constant),
    Variable(Variable),
    Unary(Box<Unary>),
    Parenthesis(Box<Parenthesis>),
    Binary(Box<Binary>),
    Func(Box<Func>),
    Func2(Box<Func2>),
}

pub open spec fn expr_view(e: Expression) -> ExprV
    decreases e,
{
    match e {
        Expression::Number(n) => ExprV::Num { whole: n.whole@, frac: n.frac@ },
        Expression::Factorial(f) => ExprV::Fact(f.n),
        Expression::Constant(c) => constant_view(c),
        Expression::Variable(_) => ExprV::Var,
        Expression::Unary(u) => unary_view(*u),
        Expression::Parenthesis(p) => paren_view(*p),
        Expression::Binary(b) => binary_view(*b),
        Expression::Func(f) => func_view(*f),
        Expression::Func2(g) => func2_view(*g),
    }
}

pub open spec fn constant_view(c: Constant) -> ExprV {
    match c {
        Constant::E => ExprV::EConst,
        Constant::PI => ExprV::PiConst,
    }
}

pub open spec fn unary_view(u: Unary) -> ExprV
    decreases u,
{
    match u {
        Unary::Neg(e) => ExprV::Neg(Box::new(expr_view(e))),
    }
}

pub open spec fn paren_view(p: Parenthesis) -> ExprV
    decreases p,
{
    ExprV::Paren(Box::new(expr_view(p.0)))
}

pub open spec fn binary_view(b: Binary) -> ExprV
    decreases b,
{
    match b {
        Binary::Add(l, r) => ExprV::Add(Box::new(expr_view(l)), Box::new(expr_view(r))),
        Binary::Sub(l, r) => ExprV::Sub(Box::new(expr_view(l)), Box::new(expr_view(r))),
        Binary::Mul(l, r) => ExprV::Mul(Box::new(expr_view(l)), Box::new(expr_view(r))),
        Binary::Div(l, r) => ExprV::Div(Box::new(expr_view(l)), Box::new(expr_view(r))),
        Binary::Pow(l, r) => ExprV::Pow(Box::new(expr_view(l)), Box::new(expr_view(r))),
    }
}

pub open spec fn func_view(f: Func) -> ExprV
    decreases f,
{
    match f {
        Func::Sin(e) => ExprV::Sin(Box::new(expr_view(e))),
        Func::Cos(e) => ExprV::Cos(Box::new(expr_view(e))),
        Func::Tan(e) => ExprV::Tan(Box::new(expr_view(e))),
        Func::Cot(e) => ExprV::Cot(Box::new(expr_view(e))),
        Func::Sec(e) => ExprV::Sec(Box::new(expr_view(e))),
        Func::Csc(e) => ExprV::Csc(Box::new(expr_view(e))),
        Func::Arcsin(e) => ExprV::Arcsin(Box::new(expr_view(e))),
        Func::Arccos(e) => ExprV::Arccos(Box::new(expr_view(e))),
        Func::Arctan(e) => ExprV::Arctan(Box::new(expr_view(e))),
        Func::Arccot(e) => ExprV::Arccot(Box::new(expr_view(e))),
        Func::Ln(e) => ExprV::Ln(Box::new(expr_view(e))),
        Func::Sqrt(e) => ExprV::Sqrt(Box::new(expr_view(e))),
    }
}

pub open spec fn func2_view(g: Func2) -> ExprV
    decreases g,
{
    match g {
        Func2::Log(l, r) => ExprV::Log(Box::new(expr_view(l)), Box::new(expr_view(r))),
    }
}

impl View for Expression {
    type V = ExprV;

    open spec fn view(&self) -> ExprV {
        expr_view(*self)
    }
}

impl Clone for Expression {
    /// A structurally identical copy of the tree (trees are immutable;
    /// callers that retain one clone it).
    fn clone(&self) -> (r: Self)
        ensures
            r@ == self@,
        decreases self,
    {
        match self {
            Expression::Number(n) => Expression::Number(n.clone()),
            Expression::Factorial(f) => Expression::Factorial(f.clone()),
            Expression::Constant(c) => Expression::Constant(c.clone()),
            Expression::Variable(_) => Expression::Variable(Variable),
            Expression::Unary(u) => Expression::Unary(
                Box::new(
                    match &**u {
                        Unary::Neg(c) => Unary::Neg(c.clone()),
                    },
                ),
            ),
            Expression::Parenthesis(p) => Expression::Parenthesis(
                Box::new(Parenthesis(p.0.clone())),
            ),
            Expression::Binary(b) => Expression::Binary(
                Box::new(
                    match &**b {
                        Binary::Add(l, r) => Binary::Add(l.clone(), r.clone()),
                        Binary::Sub(l, r) => Binary::Sub(l.clone(), r.clone()),
                        Binary::Mul(l, r) => Binary::Mul(l.clone(), r.clone()),
                        Binary::Div(l, r) => Binary::Div(l.clone(), r.clone()),
                        Binary::Pow(l, r) => Binary::Pow(l.clone(), r.clone()),
                    },
                ),
            ),
            Expression::Func(f) => Expression::Func(
                Box::new(
                    match &**f {
                        Func::Sin(c) => Func::Sin(c.clone()),
                        Func::Cos(c) => Func::Cos(c.clone()),
                        Func::Tan(c) => Func::Tan(c.clone()),
                        Func::Cot(c) => Func::Cot(c.clone()),
                        Func::Sec(c) => Func::Sec(c.clone()),
                        Func::Csc(c) => Func::Csc(c.clone()),
                        Func::Arcsin(c) => Func::Arcsin(c.clone()),
                        Func::Arccos(c) => Func::Arccos(c.clone()),
                        Func::Arctan(c) => Func::Arctan(c.clone()),
                        Func::Arccot(c) => Func::Arccot(c.clone()),
                        Func::Ln(c) => Func::Ln(c.clone()),
                        Func::Sqrt(c) => Func::Sqrt(c.clone()),
                    },
                ),
            ),
            Expression::Func2(g) => Expression::Func2(
                Box::new(
                    match &**g {
                        Func2::Log(l, r) => Func2::Log(l.clone(), r.clone()),
                    },
                ),
            ),
        }
    }
}

/// A normalized decimal literal: a digit string without a spurious leading
/// zero, and a fractional digit string without a trailing zero (and so empty
/// for a whole number).  This is the canonical form literals take after
/// parsing, and the form `to_text` prints.
pub open spec fn norm_num(whole: Seq<char>, frac: Seq<char>) -> bool {
    &&& whole.len() >= 1
    &&& forall|k: int| 0 <= k < whole.len() ==> lexer::is_digit_char(whole[k])
    &&& (whole.len() > 1 ==> whole[0] != '0')
    &&& forall|k: int| 0 <= k < frac.len() ==> lexer::is_digit_char(frac[k])
    &&& (frac.len() > 0 ==> frac[frac.len() - 1] != '0')
}

/// Well-formed tree: literals are normalized and factorial literals are
/// small enough that `n!` fits in a `u32`.
pub open spec fn wf_expr(v: ExprV) -> bool
    decreases v,
{
    match v {
        ExprV::Num { whole, frac } => norm_num(whole, frac),
        ExprV::Fact(n) => n <= 12,
        ExprV::EConst => true,
        ExprV::PiConst => true,
        ExprV::Var => true,
        ExprV::Neg(c) => wf_expr(*c),
        ExprV::Paren(c) => wf_expr(*c),
        ExprV::Add(l, r) => wf_expr(*l) && wf_expr(*r),
        ExprV::Sub(l, r) => wf_expr(*l) && wf_expr(*r),
        ExprV::Mul(l, r) => wf_expr(*l) && wf_expr(*r),
        ExprV::Div(l, r) => wf_expr(*l) && wf_expr(*r),
        ExprV::Pow(l, r) => wf_expr(*l) && wf_expr(*r),
        ExprV::Sin(c) => wf_expr(*c),
        ExprV::Cos(c) => wf_expr(*c),
        ExprV::Tan(c) => wf_expr(*c),
        ExprV::Cot(c) => wf_expr(*c),
        ExprV::Sec(c) => wf_expr(*c),
        ExprV::Csc(c) => wf_expr(*c),
        ExprV::Arcsin(c) => wf_expr(*c),
        ExprV::Arccos(c) => wf_expr(*c),
        ExprV::Arctan(c) => wf_expr(*c),
        ExprV::Arccot(c) => wf_expr(*c),
        ExprV::Ln(c) => wf_expr(*c),
        ExprV::Sqrt(c) => wf_expr(*c),
        ExprV::Log(l, r) => wf_expr(*l) && wf_expr(*r),
    }
}

/// The canonical text of an expression tree.  Binary operators are spaced;
/// explicit parenthesis nodes are re-emitted, so grouping survives a
/// print/parse round trip.
pub open spec fn spec_text(v: ExprV) -> Seq<char>
    decreases v,
{
    match v {
        ExprV::Num { whole, frac } => if frac.len() == 0 {
            whole
        } else {
            whole + seq!['.'] + frac
        },
        ExprV::Fact(n) => render::spec_dec_digits(n as nat) + seq!['!'],
        ExprV::EConst => seq!['e'],
        ExprV::PiConst => seq!['p', 'i'],
        ExprV::Var => seq!['x'],
        ExprV::Neg(c) => seq!['-'] + spec_text(*c),
        ExprV::Paren(c) => seq!['('] + spec_text(*c) + seq![')'],
        ExprV::Add(l, r) => spec_text(*l) + seq![' ', '+', ' '] + spec_text(*r),
        ExprV::Sub(l, r) => spec_text(*l) + seq![' ', '-', ' '] + spec_text(*r),
        ExprV::Mul(l, r) => spec_text(*l) + seq![' ', '*', ' '] + spec_text(*r),
        ExprV::Div(l, r) => spec_text(*l) + seq![' ', '/', ' '] + spec_text(*r),
        ExprV::Pow(l, r) => spec_text(*l) + seq![' ', '*', '*', ' '] + spec_text(*r),
        ExprV::Sin(c) => seq!['s', 'i', 'n', '('] + spec_text(*c) + seq![')'],
        ExprV::Cos(c) => seq!['c', 'o', 's', '('] + spec_text(*c) + seq![')'],
        ExprV::Tan(c) => seq!['t', 'a', 'n', '('] + spec_text(*c) + seq![')'],
        ExprV::Cot(c) => seq!['c', 'o', 't', '('] + spec_text(*c) + seq![')'],
        ExprV::Sec(c) => seq!['s', 'e', 'c', '('] + spec_text(*c) + seq![')'],
        ExprV::Csc(c) => seq!['c', 's', 'c', '('] + spec_text(*c) + seq![')'],
        ExprV::Arcsin(c) => seq!['a', 'r', 'c', 's', 'i', 'n', '('] + spec_text(*c) + seq![')'],
        ExprV::Arccos(c) => seq!['a', 'r', 'c', 'c', 'o', 's', '('] + spec_text(*c) + seq![')'],
        ExprV::Arctan(c) => seq!['a', 'r', 'c', 't', 'a', 'n', '('] + spec_text(*c) + seq![')'],
        ExprV::Arccot(c) => seq!['a', 'r', 'c', 'c', 'o', 't', '('] + spec_text(*c) + seq![')'],
        ExprV::Ln(c) => seq!['l', 'n', '('] + spec_text(*c) + seq![')'],
        ExprV::Sqrt(c) => seq!['s', 'q', 'r', 't', '('] + spec_text(*c) + seq![')'],
        ExprV::Log(l, r) => seq!['l', 'o', 'g', '('] + spec_text(*l) + seq![',', ' '] + spec_text(
            *r,
        ) + seq![')'],
    }
}

/// Primary-class trees: the ones the parser's `parse_primary` step can
/// produce, which bind tighter than any binary operator when printed.
pub open spec fn is_primary(v: ExprV) -> bool
    decreases v,
{
    match v {
        ExprV::Neg(c) => is_primary(*c),
        ExprV::Add(_, _) => false,
        ExprV::Sub(_, _) => false,
        ExprV::Mul(_, _) => false,
        ExprV::Div(_, _) => false,
        ExprV::Pow(_, _) => false,
        _ => true,
    }
}

/// Binding level of a tree when printed without extra parentheses: binary
/// nodes bind at their operator's precedence, everything else tighter.
pub open spec fn level(v: ExprV) -> int {
    match v {
        ExprV::Add(_, _) => 10,
        ExprV::Sub(_, _) => 10,
        ExprV::Mul(_, _) => 20,
        ExprV::Div(_, _) => 20,
        ExprV::Pow(_, _) => 30,
        _ => 40,
    }
}

/// Trees whose canonical text parses back to the same tree: grouping agrees
/// with operator precedence and left-associativity, negation applies to a
/// primary, and no factorial node occurs (its `n!` text has no grammar
/// production).
pub open spec fn printable(v: ExprV) -> bool
    decreases v,
{
    match v {
        ExprV::Num { whole, frac } => true,
        ExprV::Fact(_) => false,
        ExprV::EConst => true,
        ExprV::PiConst => true,
        ExprV::Var => true,
        ExprV::Neg(c) => printable(*c) && is_primary(*c),
        ExprV::Paren(c) => printable(*c),
        ExprV::Add(l, r) => printable(*l) && printable(*r) && level(*l) >= 10 && level(*r) > 10,
        ExprV::Sub(l, r) => printable(*l) && printable(*r) && level(*l) >= 10 && level(*r) > 10,
        ExprV::Mul(l, r) => printable(*l) && printable(*r) && level(*l) >= 20 && level(*r) > 20,
        ExprV::Div(l, r) => printable(*l) && printable(*r) && level(*l) >= 20 && level(*r) > 20,
        ExprV::Pow(l, r) => printable(*l) && printable(*r) && level(*l) >= 30 && level(*r) > 30,
        ExprV::Sin(c) => printable(*c),
        ExprV::Cos(c) => printable(*c),
        ExprV::Tan(c) => printable(*c),
        ExprV::Cot(c) => printable(*c),
        ExprV::Sec(c) => printable(*c),
        ExprV::Csc(c) => printable(*c),
        ExprV::Arcsin(c) => printable(*c),
        ExprV::Arccos(c) => printable(*c),
        ExprV::Arctan(c) => printable(*c),
        ExprV::Arccot(c) => printable(*c),
        ExprV::Ln(c) => printable(*c),
        ExprV::Sqrt(c) => printable(*c),
        ExprV::Log(l, r) => printable(*l) && printable(*r),
    }
}

impl Expression {
    /// Appends the canonical text of this tree to `out`.
    fn push_text(&self, out: &mut String)
        ensures
            final(out)@ == old(out)@ + spec_text(self@),
        decreases self,
    {
        match self {
            Expression::Number(n) => {
                out.append(n.whole.as_str());
                if n.frac.as_str().unicode_len() > 0 {
                    out.append(".");
                    out.append(n.frac.as_str());
                    proof {
                        reveal_strlit(".");
                        assert(out@ =~= old(out)@ + spec_text(self@));
                    }
                } else {
                    proof {
                        assert(out@ =~= old(out)@ + spec_text(self@));
                    }
                }
            },
            Expression::Factorial(f) => {
                let d = render::dec_string(f.n as u64);
                out.append(d.as_str());
                out.append("!");
                proof {
                    reveal_strlit("!");
                    assert(out@ =~= old(out)@ + spec_text(self@));
                }
            },
            Expression::Constant(c) => {
                match c {
                    Constant::E => out.append("e"),
                    Constant::PI => out.append("pi"),
                }
                proof {
                    reveal_strlit("e");
                    reveal_strlit("pi");
                    assert(out@ =~= old(out)@ + spec_text(self@));
                }
            },
            Expression::Variable(_) => {
                out.append("x");
                proof {
                    reveal_strlit("x");
                    assert(out@ =~= old(out)@ + spec_text(self@));
                }
            },
            Expression::Unary(u) => {
                match &**u {
                    Unary::Neg(c) => {
                        out.append("-");
                        c.push_text(out);
                        proof {
                            reveal_strlit("-");
                            assert(out@ =~= old(out)@ + spec_text(self@));
                        }
                    },
                }
            },
            Expression::Parenthesis(p) => {
                out.append("(");
                p.0.push_text(out);
                out.append(")");
                proof {
                    reveal_strlit("(");
                    reveal_strlit(")");
                    assert(out@ =~= old(out)@ + spec_text(self@));
                }
            },
            Expression::Binary(b) => {
                let (l, op, r): (&Expression, &str, &Expression) = match &**b {
                    Binary::Add(l, r) => (l, " + ", r),
                    Binary::Sub(l, r) => (l, " - ", r),
                    Binary::Mul(l, r) => (l, " * ", r),
                    Binary::Div(l, r) => (l, " / ", r),
                    Binary::Pow(l, r) => (l, " ** ", r),
                };
                l.push_text(out);
                out.append(op);
                r.push_text(out);
                proof {
                    reveal_strlit(" + ");
                    reveal_strlit(" - ");
                    reveal_strlit(" * ");
                    reveal_strlit(" / ");
                    reveal_strlit(" ** ");
                    assert(out@ =~= old(out)@ + spec_text(self@));
                }
            },
            Expression::Func(f) => {
                let (name, c): (&str, &Expression) = match &**f {
                    Func::Sin(c) => ("sin(", c),
                    Func::Cos(c) => ("cos(", c),
                    Func::Tan(c) => ("tan(", c),
                    Func::Cot(c) => ("cot(", c),
                    Func::Sec(c) => ("sec(", c),
                    Func::Csc(c) => ("csc(", c),
                    Func::Arcsin(c) => ("arcsin(", c),
                    Func::Arccos(c) => ("arccos(", c),
                    Func::Arctan(c) => ("arctan(", c),
                    Func::Arccot(c) => ("arccot(", c),
                    Func::Ln(c) => ("ln(", c),
                    Func::Sqrt(c) => ("sqrt(", c),
                };
                out.append(name);
                c.push_text(out);
                out.append(")");
                proof {
                    reveal_strlit("sin(");
                    reveal_strlit("cos(");
                    reveal_strlit("tan(");
                    reveal_strlit("cot(");
                    reveal_strlit("sec(");
                    reveal_strlit("csc(");
                    reveal_strlit("arcsin(");
                    reveal_strlit("arccos(");
                    reveal_strlit("arctan(");
                    reveal_strlit("arccot(");
                    reveal_strlit("ln(");
                    reveal_strlit("sqrt(");
                    reveal_strlit(")");
                    assert(out@ =~= old(out)@ + spec_text(self@));
                }
            },
            Expression::Func2(g) => {
                match &**g {
                    Func2::Log(l, r) => {
                        out.append("log(");
                        l.push_text(out);
                        out.append(", ");
                        r.push_text(out);
                        out.append(")");
                        proof {
                            reveal_strlit("log(");
                            reveal_strlit(", ");
                            reveal_strlit(")");
                            assert(out@ =~= old(out)@ + spec_text(self@));
                        }
                    },
                }
            },
        }
    }

    /// Canonical re-rendering of the tree.  Literal digits are kept as
    /// written (normalized), whitespace around binary operators is canonical,
    /// and explicit parenthesis nodes are re-emitted.
    pub fn to_text(&self) -> (r: String)
        ensures
            r@ == spec_text(self@),
    {
        let mut out = String::new();
        self.push_text(&mut out);
        out
    }
}

} // verus!
