//! Facts about division that the other modules share.

use vstd::prelude::*;
use vstd::arithmetic::div_mod::{lemma_div_denominator, lemma_div_multiples_vanish, lemma_fundamental_div_mod, lemma_mod_bound};
use vstd::arithmetic::mul::lemma_mul_is_commutative;

verus! {

/// Dividing a multiple of `a` by a multiple of `a` cancels the common factor.
pub proof fn lemma_cancel_common_factor(x: nat, a: nat, b: nat)
    requires
        a > 0,
        b > 0,
    ensures
        (x * a) / (a * b) == x / b,
{
    lemma_div_denominator((x * a) as int, a as int, b as int);
    lemma_mul_is_commutative(x as int, a as int);
    lemma_div_multiples_vanish(x as int, a as int);
}

/// A quotient reaches `n` exactly when the dividend reaches `n` divisors.
pub proof fn lemma_quotient_at_least(x: nat, d: nat, n: nat)
    requires
        d > 0,
    ensures
        x / d >= n <==> x >= n * d,
{
    let q = x / d;
    let r = x % d;
    lemma_fundamental_div_mod(x as int, d as int);
    lemma_mod_bound(x as int, d as int);
    assert((q >= n) <==> (x >= n * d)) by (nonlinear_arith)
        requires
            x == d * q + r,
            0 <= r < d,
            d > 0,
    ;
}

} // verus!
