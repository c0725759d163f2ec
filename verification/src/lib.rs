//! Single-variable mathematical expression compiler and domain-aware
//! evaluator: a lexer, a precedence-climbing parser, an immutable expression
//! tree, and a verified evaluation pipeline over caller-computed arithmetic.

pub mod expression;
pub mod math;
