//! Domain-aware evaluation.
//!
//! Verus carries no floating-point arithmetic, so evaluation is split in
//! two.  The tree first compiles to a linear *plan* of arithmetic
//! operations ([`Expression::eval_plan`]); a small driver outside the
//! library (the binary, or a test) executes the plan in `f32`, one value
//! per operation, and hands the results back as raw IEEE-754 bit patterns.
//! The library then makes every *domain decision* itself, exactly, on those
//! bit patterns ([`Expression::is_x_valid`], [`Expression::eval`]): whether
//! a divisor is (near) zero, a power came out as no real number, an
//! inverse-trigonometric argument left `[-1, 1]`, and so on.
//!
//! The driver's contract: given `plan`, produce `vals` with
//! `vals.len() == plan.len()`, where `vals[i]` is the `f32` (as bits) that
//! operation `plan[i]` yields, reading earlier results by index.

use vstd::prelude::*;
use vstd::string::*;

use crate::expression::{expr_view, spec_text, wf_expr, Binary, Constant, ExprV, Expression, Func,
    Func2, Unary};
use crate::math::{factorial, spec_factorial};

verus! {

// ---------------------------------------------------------------------------
// IEEE-754 single-precision predicates on raw bit patterns.
//
// For non-negative floats, the integer order of the bit patterns is the
// float order, so comparisons against fixed thresholds are exact integer
// tests.  Domain tests against 0 and 1 use an absolute tolerance of 1e-6
// (a policy choice documented at the two thresholds below) instead of exact
// float equality.
// ---------------------------------------------------------------------------
/// The value is a NaN: all exponent bits set and a non-zero mantissa.
pub open spec fn f32_is_nan(b: u32) -> bool {
    (b & 0x7f80_0000) == 0x7f80_0000 && (b & 0x007f_ffff) != 0
}

/// The value is finite: not all exponent bits set (excludes NaN and the
/// infinities).
pub open spec fn f32_is_finite(b: u32) -> bool {
    (b & 0x7f80_0000) != 0x7f80_0000
}

/// The value is exactly zero (either sign).
pub open spec fn f32_is_zero(b: u32) -> bool {
    (b & 0x7fff_ffff) == 0
}

/// The value is strictly negative (false for NaN and for -0.0).
pub open spec fn f32_is_neg(b: u32) -> bool {
    !f32_is_nan(b) && (b >> 31) == 1 && !f32_is_zero(b)
}

/// The value is strictly positive (false for NaN and for +0.0).
pub open spec fn f32_is_pos(b: u32) -> bool {
    !f32_is_nan(b) && (b >> 31) == 0 && !f32_is_zero(b)
}

/// The value lies in `[-1, 1]`: its magnitude bits do not exceed those of
/// 1.0 (`0x3f80_0000`).  NaN is excluded by the same comparison.
pub open spec fn f32_within_unit(b: u32) -> bool {
    (b & 0x7fff_ffff) <= 0x3f80_0000
}

/// The value's magnitude is below the zero tolerance: `|v| < 1e-6`
/// (`0x3586_37bd` is the bit pattern of 1e-6).
pub open spec fn f32_near_zero(b: u32) -> bool {
    (b & 0x7fff_ffff) < 0x3586_37bd
}

/// The value is within the tolerance of 1: `|v - 1| < 1e-6`.  The bounds
/// are the largest float at most `1 - 1e-6` (`0x3f7f_ffef`) and the
/// smallest float at least `1 + 1e-6` (`0x3f80_0009`), excluded.
pub open spec fn f32_near_one(b: u32) -> bool {
    (b >> 31) == 0 && 0x3f7f_ffef < b && b < 0x3f80_0009
}

/// The value is zero or positive (false for NaN).
pub open spec fn f32_nonneg(b: u32) -> bool {
    !f32_is_nan(b) && ((b >> 31) == 0 || f32_is_zero(b))
}

fn is_nan_bits(b: u32) -> (r: bool)
    ensures
        r == f32_is_nan(b),
{
    (b & 0x7f80_0000) == 0x7f80_0000 && (b & 0x007f_ffff) != 0
}

fn is_finite_bits(b: u32) -> (r: bool)
    ensures
        r == f32_is_finite(b),
{
    (b & 0x7f80_0000) != 0x7f80_0000
}

fn is_zero_bits(b: u32) -> (r: bool)
    ensures
        r == f32_is_zero(b),
{
    (b & 0x7fff_ffff) == 0
}

fn is_neg_bits(b: u32) -> (r: bool)
    ensures
        r == f32_is_neg(b),
{
    !is_nan_bits(b) && (b >> 31) == 1 && !is_zero_bits(b)
}

fn is_pos_bits(b: u32) -> (r: bool)
    ensures
        r == f32_is_pos(b),
{
    !is_nan_bits(b) && (b >> 31) == 0 && !is_zero_bits(b)
}

fn within_unit_bits(b: u32) -> (r: bool)
    ensures
        r == f32_within_unit(b),
{
    (b & 0x7fff_ffff) <= 0x3f80_0000
}

fn near_zero_bits(b: u32) -> (r: bool)
    ensures
        r == f32_near_zero(b),
{
    (b & 0x7fff_ffff) < 0x3586_37bd
}

fn near_one_bits(b: u32) -> (r: bool)
    ensures
        r == f32_near_one(b),
{
    (b >> 31) == 0 && 0x3f7f_ffef < b && b < 0x3f80_0009
}

fn nonneg_bits(b: u32) -> (r: bool)
    ensures
        r == f32_nonneg(b),
{
    !is_nan_bits(b) && ((b >> 31) == 0 || is_zero_bits(b))
}

// ---------------------------------------------------------------------------
// The evaluation plan.
// ---------------------------------------------------------------------------
/// One step of an evaluation plan.  Each step produces one `f32`, reported
/// back to the library as its raw bit pattern; operands name the results of
/// earlier steps by index.
#[derive(Debug, Clone, PartialEq)]
pub enum EvalOp {
    /// Parse this decimal literal (shape `digits` or `digits.digits`).
    Num(String),
    /// The sample point `x` itself.
    X,
    /// Euler's number, `f32::consts::E`.
    EConst,
    /// The circle constant, `f32::consts::PI`.
    PiConst,
    /// This integer, converted to `f32` (used for factorial literals).
    Lit(u32),
    /// `-v`.
    Neg(usize),
    /// `a + b`.
    Add(usize, usize),
    /// `a - b`.
    Sub(usize, usize),
    /// `a * b`.
    Mul(usize, usize),
    /// `a / b`.
    Div(usize, usize),
    /// `a.powf(b)`.
    Pow(usize, usize),
    /// `v.sin()`.
    Sin(usize),
    /// `v.cos()`.
    Cos(usize),
    /// `v.tan()`.
    Tan(usize),
    /// `1.0 / v`.
    Recip(usize),
    /// `v.asin()`.
    Asin(usize),
    /// `v.acos()`.
    Acos(usize),
    /// `v.atan()`.
    Atan(usize),
    /// `FRAC_PI_2 - v.atan()`.
    Acot(usize),
    /// `v.ln()`.
    Ln(usize),
    /// `v.sqrt()`.
    Sqrt(usize),
    /// `b.log(a)`: the base-`a` logarithm of `b`.
    Log(usize, usize),
}

/// Mathematical view of a plan step, with exact integer indices.
pub enum OpV {
    Num(Seq<char>),
    X,
    EConst,
    PiConst,
    Lit(u32),
    Neg(int),
    Add(int, int),
    Sub(int, int),
    Mul(int, int),
    Div(int, int),
    Pow(int, int),
    Sin(int),
    Cos(int),
    Tan(int),
    Recip(int),
    Asin(int),
    Acos(int),
    Atan(int),
    Acot(int),
    Ln(int),
    Sqrt(int),
    Log(int, int),
}

impl View for EvalOp {
    type V = OpV;

    open spec fn view(&self) -> OpV {
        match self {
            EvalOp::Num(s) => OpV::Num(s@),
            EvalOp::X => OpV::X,
            EvalOp::EConst => OpV::EConst,
            EvalOp::PiConst => OpV::PiConst,
            EvalOp::Lit(n) => OpV::Lit(*n),
            EvalOp::Neg(a) => OpV::Neg(*a as int),
            EvalOp::Add(a, b) => OpV::Add(*a as int, *b as int),
            EvalOp::Sub(a, b) => OpV::Sub(*a as int, *b as int),
            EvalOp::Mul(a, b) => OpV::Mul(*a as int, *b as int),
            EvalOp::Div(a, b) => OpV::Div(*a as int, *b as int),
            EvalOp::Pow(a, b) => OpV::Pow(*a as int, *b as int),
            EvalOp::Sin(a) => OpV::Sin(*a as int),
            EvalOp::Cos(a) => OpV::Cos(*a as int),
            EvalOp::Tan(a) => OpV::Tan(*a as int),
            EvalOp::Recip(a) => OpV::Recip(*a as int),
            EvalOp::Asin(a) => OpV::Asin(*a as int),
            EvalOp::Acos(a) => OpV::Acos(*a as int),
            EvalOp::Atan(a) => OpV::Atan(*a as int),
            EvalOp::Acot(a) => OpV::Acot(*a as int),
            EvalOp::Ln(a) => OpV::Ln(*a as int),
            EvalOp::Sqrt(a) => OpV::Sqrt(*a as int),
            EvalOp::Log(a, b) => OpV::Log(*a as int, *b as int),
        }
    }
}

/// The views of a vector of plan steps.
pub open spec fn ops_view(v: Seq<EvalOp>) -> Seq<OpV> {
    v.map_values(|o: EvalOp| o@)
}

pub proof fn lemma_ops_view_push(v: Seq<EvalOp>, op: EvalOp)
    ensures
        ops_view(v.push(op)) == ops_view(v).push(op@),
{
    assert(ops_view(v.push(op)) =~= ops_view(v).push(op@));
}

/// Number of plan steps a tree compiles to.  Most nodes add one step to
/// their children's; a parenthesis adds none; `cot`, `sec` and `csc` add an
/// auxiliary step (`tan`, `cos`, `sin`) before the reciprocal.
pub open spec fn op_count(v: ExprV) -> int
    decreases v,
{
    match v {
        ExprV::Num { whole, frac } => 1,
        ExprV::Fact(_) => 1,
        ExprV::EConst => 1,
        ExprV::PiConst => 1,
        ExprV::Var => 1,
        ExprV::Neg(c) => op_count(*c) + 1,
        ExprV::Paren(c) => op_count(*c),
        ExprV::Add(l, r) => op_count(*l) + op_count(*r) + 1,
        ExprV::Sub(l, r) => op_count(*l) + op_count(*r) + 1,
        ExprV::Mul(l, r) => op_count(*l) + op_count(*r) + 1,
        ExprV::Div(l, r) => op_count(*l) + op_count(*r) + 1,
        ExprV::Pow(l, r) => op_count(*l) + op_count(*r) + 1,
        ExprV::Sin(c) => op_count(*c) + 1,
        ExprV::Cos(c) => op_count(*c) + 1,
        ExprV::Tan(c) => op_count(*c) + 1,
        ExprV::Cot(c) => op_count(*c) + 2,
        ExprV::Sec(c) => op_count(*c) + 2,
        ExprV::Csc(c) => op_count(*c) + 2,
        ExprV::Arcsin(c) => op_count(*c) + 1,
        ExprV::Arccos(c) => op_count(*c) + 1,
        ExprV::Arctan(c) => op_count(*c) + 1,
        ExprV::Arccot(c) => op_count(*c) + 1,
        ExprV::Ln(c) => op_count(*c) + 1,
        ExprV::Sqrt(c) => op_count(*c) + 1,
        ExprV::Log(l, r) => op_count(*l) + op_count(*r) + 1,
    }
}

pub proof fn lemma_op_count_pos(v: ExprV)
    ensures
        op_count(v) >= 1,
    decreases v,
{
    match v {
        ExprV::Neg(c) => lemma_op_count_pos(*c),
        ExprV::Paren(c) => lemma_op_count_pos(*c),
        ExprV::Add(l, r) => {
            lemma_op_count_pos(*l);
            lemma_op_count_pos(*r);
        },
        ExprV::Sub(l, r) => {
            lemma_op_count_pos(*l);
            lemma_op_count_pos(*r);
        },
        ExprV::Mul(l, r) => {
            lemma_op_count_pos(*l);
            lemma_op_count_pos(*r);
        },
        ExprV::Div(l, r) => {
            lemma_op_count_pos(*l);
            lemma_op_count_pos(*r);
        },
        ExprV::Pow(l, r) => {
            lemma_op_count_pos(*l);
            lemma_op_count_pos(*r);
        },
        ExprV::Sin(c) => lemma_op_count_pos(*c),
        ExprV::Cos(c) => lemma_op_count_pos(*c),
        ExprV::Tan(c) => lemma_op_count_pos(*c),
        ExprV::Cot(c) => lemma_op_count_pos(*c),
        ExprV::Sec(c) => lemma_op_count_pos(*c),
        ExprV::Csc(c) => lemma_op_count_pos(*c),
        ExprV::Arcsin(c) => lemma_op_count_pos(*c),
        ExprV::Arccos(c) => lemma_op_count_pos(*c),
        ExprV::Arctan(c) => lemma_op_count_pos(*c),
        ExprV::Arccot(c) => lemma_op_count_pos(*c),
        ExprV::Ln(c) => lemma_op_count_pos(*c),
        ExprV::Sqrt(c) => lemma_op_count_pos(*c),
        ExprV::Log(l, r) => {
            lemma_op_count_pos(*l);
            lemma_op_count_pos(*r);
        },
        _ => {},
    }
}

/// Index of the plan step holding the value of a tree emitted at `base`:
/// its last step.
pub open spec fn value_index(v: ExprV, base: int) -> int {
    base + op_count(v) - 1
}

/// The plan a tree compiles to when its first step sits at index `base`:
/// children first, then the node's own steps.
pub open spec fn spec_plan(v: ExprV, base: int) -> Seq<OpV>
    decreases v,
{
    match v {
        ExprV::Num { whole, frac } => seq![OpV::Num(spec_text(v))],
        ExprV::Fact(n) => seq![OpV::Lit(spec_factorial(n as nat) as u32)],
        ExprV::EConst => seq![OpV::EConst],
        ExprV::PiConst => seq![OpV::PiConst],
        ExprV::Var => seq![OpV::X],
        ExprV::Neg(c) => spec_plan(*c, base) + seq![OpV::Neg(value_index(*c, base))],
        ExprV::Paren(c) => spec_plan(*c, base),
        ExprV::Add(l, r) => spec_plan(*l, base) + spec_plan(*r, base + op_count(*l)) + seq![
            OpV::Add(value_index(*l, base), value_index(*r, base + op_count(*l))),
        ],
        ExprV::Sub(l, r) => spec_plan(*l, base) + spec_plan(*r, base + op_count(*l)) + seq![
            OpV::Sub(value_index(*l, base), value_index(*r, base + op_count(*l))),
        ],
        ExprV::Mul(l, r) => spec_plan(*l, base) + spec_plan(*r, base + op_count(*l)) + seq![
            OpV::Mul(value_index(*l, base), value_index(*r, base + op_count(*l))),
        ],
        ExprV::Div(l, r) => spec_plan(*l, base) + spec_plan(*r, base + op_count(*l)) + seq![
            OpV::Div(value_index(*l, base), value_index(*r, base + op_count(*l))),
        ],
        ExprV::Pow(l, r) => spec_plan(*l, base) + spec_plan(*r, base + op_count(*l)) + seq![
            OpV::Pow(value_index(*l, base), value_index(*r, base + op_count(*l))),
        ],
        ExprV::Sin(c) => spec_plan(*c, base) + seq![OpV::Sin(value_index(*c, base))],
        ExprV::Cos(c) => spec_plan(*c, base) + seq![OpV::Cos(value_index(*c, base))],
        ExprV::Tan(c) => spec_plan(*c, base) + seq![OpV::Tan(value_index(*c, base))],
        ExprV::Cot(c) => spec_plan(*c, base) + seq![
            OpV::Tan(value_index(*c, base)),
            OpV::Recip(base + op_count(*c)),
        ],
        ExprV::Sec(c) => spec_plan(*c, base) + seq![
            OpV::Cos(value_index(*c, base)),
            OpV::Recip(base + op_count(*c)),
        ],
        ExprV::Csc(c) => spec_plan(*c, base) + seq![
            OpV::Sin(value_index(*c, base)),
            OpV::Recip(base + op_count(*c)),
        ],
        ExprV::Arcsin(c) => spec_plan(*c, base) + seq![OpV::Asin(value_index(*c, base))],
        ExprV::Arccos(c) => spec_plan(*c, base) + seq![OpV::Acos(value_index(*c, base))],
        ExprV::Arctan(c) => spec_plan(*c, base) + seq![OpV::Atan(value_index(*c, base))],
        ExprV::Arccot(c) => spec_plan(*c, base) + seq![OpV::Acot(value_index(*c, base))],
        ExprV::Ln(c) => spec_plan(*c, base) + seq![OpV::Ln(value_index(*c, base))],
        ExprV::Sqrt(c) => spec_plan(*c, base) + seq![OpV::Sqrt(value_index(*c, base))],
        ExprV::Log(l, r) => spec_plan(*l, base) + spec_plan(*r, base + op_count(*l)) + seq![
            OpV::Log(value_index(*l, base), value_index(*r, base + op_count(*l))),
        ],
    }
}

pub proof fn lemma_plan_len(v: ExprV, base: int)
    ensures
        spec_plan(v, base).len() == op_count(v),
    decreases v,
{
    match v {
        ExprV::Neg(c) => lemma_plan_len(*c, base),
        ExprV::Paren(c) => lemma_plan_len(*c, base),
        ExprV::Add(l, r) => {
            lemma_plan_len(*l, base);
            lemma_plan_len(*r, base + op_count(*l));
        },
        ExprV::Sub(l, r) => {
            lemma_plan_len(*l, base);
            lemma_plan_len(*r, base + op_count(*l));
        },
        ExprV::Mul(l, r) => {
            lemma_plan_len(*l, base);
            lemma_plan_len(*r, base + op_count(*l));
        },
        ExprV::Div(l, r) => {
            lemma_plan_len(*l, base);
            lemma_plan_len(*r, base + op_count(*l));
        },
        ExprV::Pow(l, r) => {
            lemma_plan_len(*l, base);
            lemma_plan_len(*r, base + op_count(*l));
        },
        ExprV::Sin(c) => lemma_plan_len(*c, base),
        ExprV::Cos(c) => lemma_plan_len(*c, base),
        ExprV::Tan(c) => lemma_plan_len(*c, base),
        ExprV::Cot(c) => lemma_plan_len(*c, base),
        ExprV::Sec(c) => lemma_plan_len(*c, base),
        ExprV::Csc(c) => lemma_plan_len(*c, base),
        ExprV::Arcsin(c) => lemma_plan_len(*c, base),
        ExprV::Arccos(c) => lemma_plan_len(*c, base),
        ExprV::Arctan(c) => lemma_plan_len(*c, base),
        ExprV::Arccot(c) => lemma_plan_len(*c, base),
        ExprV::Ln(c) => lemma_plan_len(*c, base),
        ExprV::Sqrt(c) => lemma_plan_len(*c, base),
        ExprV::Log(l, r) => {
            lemma_plan_len(*l, base);
            lemma_plan_len(*r, base + op_count(*l));
        },
        _ => {},
    }
}

/// The domain table: whether the sample point is in the domain of the tree
/// emitted at `base`, judging each node's rule on the driver-computed
/// values `vals`.
pub open spec fn spec_valid(v: ExprV, base: int, vals: Seq<u32>) -> bool
    decreases v,
{
    match v {
        ExprV::Num { whole, frac } => true,
        ExprV::Fact(_) => true,
        ExprV::EConst => true,
        ExprV::PiConst => true,
        ExprV::Var => true,
        ExprV::Neg(c) => spec_valid(*c, base, vals),
        ExprV::Paren(c) => spec_valid(*c, base, vals),
        ExprV::Add(l, r) => spec_valid(*l, base, vals) && spec_valid(*r, base + op_count(*l), vals),
        ExprV::Sub(l, r) => spec_valid(*l, base, vals) && spec_valid(*r, base + op_count(*l), vals),
        ExprV::Mul(l, r) => spec_valid(*l, base, vals) && spec_valid(*r, base + op_count(*l), vals),
        // division: the divisor must be meaningfully non-zero
        ExprV::Div(l, r) => spec_valid(*l, base, vals) && spec_valid(*r, base + op_count(*l), vals)
            && !f32_near_zero(vals[value_index(*r, base + op_count(*l))]),
        // power: no negative power of zero, and the real power must exist
        ExprV::Pow(l, r) => spec_valid(*l, base, vals) && spec_valid(*r, base + op_count(*l), vals)
            && !(f32_is_zero(vals[value_index(*l, base)]) && f32_is_neg(
            vals[value_index(*r, base + op_count(*l))],
        )) && !f32_is_nan(vals[value_index(v, base)]),
        ExprV::Sin(c) => spec_valid(*c, base, vals),
        ExprV::Cos(c) => spec_valid(*c, base, vals),
        // tangent: undefined at its asymptotes
        ExprV::Tan(c) => spec_valid(*c, base, vals) && f32_is_finite(vals[value_index(v, base)]),
        // cotangent: 1/tan must be finite
        ExprV::Cot(c) => spec_valid(*c, base, vals) && f32_is_finite(vals[value_index(v, base)]),
        // secant: cos of the argument must be meaningfully non-zero
        ExprV::Sec(c) => spec_valid(*c, base, vals) && !f32_near_zero(
            vals[base + op_count(*c)],
        ),
        // cosecant: sin of the argument must be meaningfully non-zero
        ExprV::Csc(c) => spec_valid(*c, base, vals) && !f32_near_zero(
            vals[base + op_count(*c)],
        ),
        // inverse sine/cosine: the argument must lie in [-1, 1]
        ExprV::Arcsin(c) => spec_valid(*c, base, vals) && f32_within_unit(
            vals[value_index(*c, base)],
        ),
        ExprV::Arccos(c) => spec_valid(*c, base, vals) && f32_within_unit(
            vals[value_index(*c, base)],
        ),
        ExprV::Arctan(c) => spec_valid(*c, base, vals),
        ExprV::Arccot(c) => spec_valid(*c, base, vals),
        // natural log: the argument must be strictly positive
        ExprV::Ln(c) => spec_valid(*c, base, vals) && f32_is_pos(vals[value_index(*c, base)]),
        // square root: the argument must not be negative
        ExprV::Sqrt(c) => spec_valid(*c, base, vals) && f32_nonneg(vals[value_index(*c, base)]),
        // log(base, arg): base positive and not (near) 1, argument positive
        ExprV::Log(l, r) => spec_valid(*l, base, vals) && spec_valid(*r, base + op_count(*l), vals)
            && f32_is_pos(vals[value_index(*l, base)]) && !f32_near_one(
            vals[value_index(*l, base)],
        ) && f32_is_pos(vals[value_index(*r, base + op_count(*l))]),
    }
}

/// What evaluation returns: the root step's bits when the sample point is
/// in the domain and the driver's response has the right length, `None`
/// otherwise.
pub open spec fn spec_eval(v: ExprV, vals: Seq<u32>) -> Option<u32> {
    if vals.len() == op_count(v) && spec_valid(v, 0, vals) {
        Some(vals[op_count(v) - 1])
    } else {
        None
    }
}

impl Expression {
    /// Emits this tree's plan steps onto `out`.
    fn emit(&self, out: &mut Vec<EvalOp>)
        requires
            wf_expr(expr_view(*self)),
        ensures
            final(out)@.len() == old(out)@.len() + op_count(self@),
            ops_view(final(out)@) == ops_view(old(out)@) + spec_plan(self@, old(out)@.len() as int),
        decreases self,
    {
        proof {
            lemma_plan_len(self@, old(out)@.len() as int);
        }
        let ghost base = out@.len() as int;
        match self {
            Expression::Number(n) => {
                let mut text = n.whole.clone();
                if n.frac.as_str().unicode_len() > 0 {
                    text.append(".");
                    text.append(n.frac.as_str());
                }
                proof {
                    reveal_strlit(".");
                    assert(text@ == spec_text(self@));
                }
                let ghost mid = out@;
                out.push(EvalOp::Num(text));
                proof {
                    lemma_ops_view_push(mid, EvalOp::Num(text));
                    assert(ops_view(out@) =~= ops_view(old(out)@) + spec_plan(self@, base));
                }
            },
            Expression::Factorial(f) => {
                let value = factorial(f.n);
                let ghost mid = out@;
                out.push(EvalOp::Lit(value));
                proof {
                    lemma_ops_view_push(mid, EvalOp::Lit(value));
                    assert(ops_view(out@) =~= ops_view(old(out)@) + spec_plan(self@, base));
                }
            },
            Expression::Constant(c) => {
                let op = match c {
                    Constant::E => EvalOp::EConst,
                    Constant::PI => EvalOp::PiConst,
                };
                let ghost mid = out@;
                out.push(op);
                proof {
                    lemma_ops_view_push(mid, op);
                    assert(ops_view(out@) =~= ops_view(old(out)@) + spec_plan(self@, base));
                }
            },
            Expression::Variable(_) => {
                let ghost mid = out@;
                out.push(EvalOp::X);
                proof {
                    lemma_ops_view_push(mid, EvalOp::X);
                    assert(ops_view(out@) =~= ops_view(old(out)@) + spec_plan(self@, base));
                }
            },
            Expression::Unary(u) => {
                match &**u {
                    Unary::Neg(c) => {
                        proof {
                            lemma_op_count_pos(c@);
                        }
                        c.emit(out);
                        let ci = out.len() - 1;
                        let ghost mid = out@;
                        out.push(EvalOp::Neg(ci));
                        proof {
                            lemma_ops_view_push(mid, EvalOp::Neg(ci));
                            assert(ops_view(out@) =~= ops_view(old(out)@) + spec_plan(
                                self@,
                                base,
                            ));
                        }
                    },
                }
            },
            Expression::Parenthesis(p) => {
                p.0.emit(out);
                proof {
                    assert(ops_view(out@) =~= ops_view(old(out)@) + spec_plan(self@, base));
                }
            },
            Expression::Binary(b) => {
                let (l, r): (&Expression, &Expression) = match &**b {
                    Binary::Add(l, r) => (l, r),
                    Binary::Sub(l, r) => (l, r),
                    Binary::Mul(l, r) => (l, r),
                    Binary::Div(l, r) => (l, r),
                    Binary::Pow(l, r) => (l, r),
                };
                proof {
                    lemma_op_count_pos(l@);
                    lemma_op_count_pos(r@);
                }
                l.emit(out);
                let li = out.len() - 1;
                r.emit(out);
                let ri = out.len() - 1;
                let op = match &**b {
                    Binary::Add(_, _) => EvalOp::Add(li, ri),
                    Binary::Sub(_, _) => EvalOp::Sub(li, ri),
                    Binary::Mul(_, _) => EvalOp::Mul(li, ri),
                    Binary::Div(_, _) => EvalOp::Div(li, ri),
                    Binary::Pow(_, _) => EvalOp::Pow(li, ri),
                };
                let ghost mid = out@;
                out.push(op);
                proof {
                    lemma_ops_view_push(mid, op);
                    assert(ops_view(out@) =~= ops_view(old(out)@) + spec_plan(self@, base));
                }
            },
            Expression::Func(f) => {
                let c: &Expression = match &**f {
                    Func::Sin(c) => c,
                    Func::Cos(c) => c,
                    Func::Tan(c) => c,
                    Func::Cot(c) => c,
                    Func::Sec(c) => c,
                    Func::Csc(c) => c,
                    Func::Arcsin(c) => c,
                    Func::Arccos(c) => c,
                    Func::Arctan(c) => c,
                    Func::Arccot(c) => c,
                    Func::Ln(c) => c,
                    Func::Sqrt(c) => c,
                };
                proof {
                    lemma_op_count_pos(c@);
                }
                c.emit(out);
                let ci = out.len() - 1;
                let (first, second): (EvalOp, Option<EvalOp>) = match &**f {
                    Func::Sin(_) => (EvalOp::Sin(ci), None),
                    Func::Cos(_) => (EvalOp::Cos(ci), None),
                    Func::Tan(_) => (EvalOp::Tan(ci), None),
                    Func::Cot(_) => (EvalOp::Tan(ci), Some(EvalOp::Recip(ci + 1))),
                    Func::Sec(_) => (EvalOp::Cos(ci), Some(EvalOp::Recip(ci + 1))),
                    Func::Csc(_) => (EvalOp::Sin(ci), Some(EvalOp::Recip(ci + 1))),
                    Func::Arcsin(_) => (EvalOp::Asin(ci), None),
                    Func::Arccos(_) => (EvalOp::Acos(ci), None),
                    Func::Arctan(_) => (EvalOp::Atan(ci), None),
                    Func::Arccot(_) => (EvalOp::Acot(ci), None),
                    Func::Ln(_) => (EvalOp::Ln(ci), None),
                    Func::Sqrt(_) => (EvalOp::Sqrt(ci), None),
                };
                let ghost mid = out@;
                out.push(first);
                proof {
                    lemma_ops_view_push(mid, first);
                }
                match second {
                    Some(op2) => {
                        let ghost mid2 = out@;
                        out.push(op2);
                        proof {
                            lemma_ops_view_push(mid2, op2);
                            assert(ops_view(out@) =~= ops_view(old(out)@) + spec_plan(
                                self@,
                                base,
                            ));
                        }
                    },
                    None => {
                        proof {
                            assert(ops_view(out@) =~= ops_view(old(out)@) + spec_plan(
                                self@,
                                base,
                            ));
                        }
                    },
                }
            },
            Expression::Func2(g) => {
                match &**g {
                    Func2::Log(l, r) => {
                        proof {
                            lemma_op_count_pos(l@);
                            lemma_op_count_pos(r@);
                        }
                        l.emit(out);
                        let li = out.len() - 1;
                        r.emit(out);
                        let ri = out.len() - 1;
                        let ghost mid = out@;
                        out.push(EvalOp::Log(li, ri));
                        proof {
                            lemma_ops_view_push(mid, EvalOp::Log(li, ri));
                            assert(ops_view(out@) =~= ops_view(old(out)@) + spec_plan(
                                self@,
                                base,
                            ));
                        }
                    },
                }
            },
        }
    }

    /// Compiles the tree to its evaluation plan: one arithmetic step per
    /// entry, children before parents, the root value last.
    pub fn eval_plan(&self) -> (r: Vec<EvalOp>)
        requires
            wf_expr(expr_view(*self)),
        ensures
            ops_view(r@) == spec_plan(self@, 0),
            r@.len() == op_count(self@),
    {
        let mut out: Vec<EvalOp> = Vec::new();
        self.emit(&mut out);
        proof {
            assert(ops_view(out@) =~= spec_plan(self@, 0));
        }
        out
    }

    /// Checks the domain rules of the sub-tree emitted at `base`; returns
    /// the verdict and the index just past this sub-tree's steps.
    fn check(&self, vals: &Vec<u32>, base: usize) -> (r: (bool, usize))
        requires
            base + op_count(expr_view(*self)) <= vals@.len(),
        ensures
            r.1 == base + op_count(self@),
            r.0 == spec_valid(self@, base as int, vals@),
        decreases self,
    {
        proof {
            lemma_op_count_pos(self@);
            assert(vals.len() == vals@.len());
        }
        match self {
            Expression::Number(_) => (true, base + 1),
            Expression::Factorial(_) => (true, base + 1),
            Expression::Constant(_) => (true, base + 1),
            Expression::Variable(_) => (true, base + 1),
            Expression::Unary(u) => {
                match &**u {
                    Unary::Neg(c) => {
                        let (ok, next) = c.check(vals, base);
                        (ok, next + 1)
                    },
                }
            },
            Expression::Parenthesis(p) => p.0.check(vals, base),
            Expression::Binary(b) => {
                let (l, r): (&Expression, &Expression) = match &**b {
                    Binary::Add(l, r) => (l, r),
                    Binary::Sub(l, r) => (l, r),
                    Binary::Mul(l, r) => (l, r),
                    Binary::Div(l, r) => (l, r),
                    Binary::Pow(l, r) => (l, r),
                };
                proof {
                    lemma_op_count_pos(l@);
                    lemma_op_count_pos(r@);
                    assert(op_count(self@) == op_count(l@) + op_count(r@) + 1);
                }
                let (lok, mid) = l.check(vals, base);
                let (rok, next) = r.check(vals, mid);
                let both = lok && rok;
                match &**b {
                    Binary::Add(_, _) => (both, next + 1),
                    Binary::Sub(_, _) => (both, next + 1),
                    Binary::Mul(_, _) => (both, next + 1),
                    Binary::Div(_, _) => (both && !near_zero_bits(vals[next - 1]), next + 1),
                    Binary::Pow(_, _) => {
                        let base_zero = is_zero_bits(vals[mid - 1]);
                        let exp_neg = is_neg_bits(vals[next - 1]);
                        let pow_nan = is_nan_bits(vals[next]);
                        (both && !(base_zero && exp_neg) && !pow_nan, next + 1)
                    },
                }
            },
            Expression::Func(f) => {
                let c: &Expression = match &**f {
                    Func::Sin(c) => c,
                    Func::Cos(c) => c,
                    Func::Tan(c) => c,
                    Func::Cot(c) => c,
                    Func::Sec(c) => c,
                    Func::Csc(c) => c,
                    Func::Arcsin(c) => c,
                    Func::Arccos(c) => c,
                    Func::Arctan(c) => c,
                    Func::Arccot(c) => c,
                    Func::Ln(c) => c,
                    Func::Sqrt(c) => c,
                };
                proof {
                    lemma_op_count_pos(c@);
                }
                let (ok, next) = c.check(vals, base);
                match &**f {
                    Func::Sin(_) => (ok, next + 1),
                    Func::Cos(_) => (ok, next + 1),
                    Func::Tan(_) => (ok && is_finite_bits(vals[next]), next + 1),
                    Func::Cot(_) => (ok && is_finite_bits(vals[next + 1]), next + 2),
                    Func::Sec(_) => (ok && !near_zero_bits(vals[next]), next + 2),
                    Func::Csc(_) => (ok && !near_zero_bits(vals[next]), next + 2),
                    Func::Arcsin(_) => (ok && within_unit_bits(vals[next - 1]), next + 1),
                    Func::Arccos(_) => (ok && within_unit_bits(vals[next - 1]), next + 1),
                    Func::Arctan(_) => (ok, next + 1),
                    Func::Arccot(_) => (ok, next + 1),
                    Func::Ln(_) => (ok && is_pos_bits(vals[next - 1]), next + 1),
                    Func::Sqrt(_) => (ok && nonneg_bits(vals[next - 1]), next + 1),
                }
            },
            Expression::Func2(g) => {
                match &**g {
                    Func2::Log(l, r) => {
                        proof {
                            lemma_op_count_pos(l@);
                            lemma_op_count_pos(r@);
                        }
                        let (lok, mid) = l.check(vals, base);
                        let (rok, next) = r.check(vals, mid);
                        let ok = lok && rok && is_pos_bits(vals[mid - 1]) && !near_one_bits(
                            vals[mid - 1],
                        ) && is_pos_bits(vals[next - 1]);
                        (ok, next + 1)
                    },
                }
            },
        }
    }

    /// Domain probe: is the sample point whose driver-computed step values
    /// are `vals` inside this tree's domain?
    pub fn is_x_valid(&self, vals: &Vec<u32>) -> (r: bool)
        requires
            vals@.len() == op_count(expr_view(*self)),
        ensures
            r == spec_valid(self@, 0, vals@),
    {
        let (ok, _) = self.check(vals, 0);
        ok
    }

    /// Evaluation verdict for one sample point: the root value's bits, or
    /// `None` exactly when some node's domain rule rejects the point.
    pub fn eval(&self, vals: &Vec<u32>) -> (r: Option<u32>)
        requires
            vals@.len() == op_count(expr_view(*self)),
        ensures
            r == spec_eval(self@, vals@),
    {
        proof {
            lemma_op_count_pos(self@);
        }
        let (ok, _) = self.check(vals, 0);
        if ok {
            Some(vals[vals.len() - 1])
        } else {
            None
        }
    }
}

} // verus!
