//! Small exact integer mathematics used by the expression tree.

use vstd::prelude::*;

verus! {

/// `n!` as a mathematical natural number.
pub open spec fn spec_factorial(n: nat) -> nat
    decreases n,
{
    if n <= 1 {
        1
    } else {
        n * spec_factorial((n - 1) as nat)
    }
}

/// Every factorial up to `12!` fits in a `u32`.
pub proof fn lemma_factorial_fits(n: nat)
    requires
        n <= 12,
    ensures
        spec_factorial(n) <= 479001600,
    decreases n,
{
    reveal_with_fuel(spec_factorial, 2);
    assert(spec_factorial(0) == 1);
    assert(spec_factorial(1) == 1);
    assert(spec_factorial(2) == 2 * spec_factorial(1));
    assert(spec_factorial(3) == 3 * spec_factorial(2));
    assert(spec_factorial(4) == 4 * spec_factorial(3));
    assert(spec_factorial(5) == 5 * spec_factorial(4));
    assert(spec_factorial(6) == 6 * spec_factorial(5));
    assert(spec_factorial(7) == 7 * spec_factorial(6));
    assert(spec_factorial(8) == 8 * spec_factorial(7));
    assert(spec_factorial(9) == 9 * spec_factorial(8));
    assert(spec_factorial(10) == 10 * spec_factorial(9));
    assert(spec_factorial(11) == 11 * spec_factorial(10));
    assert(spec_factorial(12) == 12 * spec_factorial(11));
    assert(spec_factorial(12) == 479001600);
    if n == 2 {
    } else if n == 3 {
    } else if n == 4 {
    } else if n == 5 {
    } else if n == 6 {
    } else if n == 7 {
    } else if n == 8 {
    } else if n == 9 {
    } else if n == 10 {
    } else if n == 11 {
    } else if n == 12 {
    }
}

/// Factorial of a small integer; `n <= 12` keeps `n!` within `u32`.
pub fn factorial(n: u32) -> (r: u32)
    requires
        n <= 12,
    ensures
        r == spec_factorial(n as nat),
    decreases n,
{
    if n <= 1 {
        1
    } else {
        let rest = factorial(n - 1);
        proof {
            lemma_factorial_fits(n as nat);
        }
        n * rest
    }
}

} // verus!
