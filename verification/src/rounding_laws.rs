//! What rounding to a limited precision gives.

use vstd::arithmetic::power2::*;
use vstd::prelude::*;

verus! {

/// A number is rounded to one whose leading digits stand before some zeros, no more
/// zeros than it takes to stay below the limit. No number of as many zeros is nearer, and
/// of two that are as near it is the one with an even last digit.
pub proof fn law_numbers_are_rounded_to_the_nearest(n: int, d: int, limit: int) -> (result: (
    int,
    nat,
))
    requires
        0 <= n,
        0 < d,
        2 <= limit,
    ensures
        ({
            let (digits, zeros) = result;
            let unit = pow2(zeros) * d;
            &&& crate::precision::nearest(n, d, limit) == digits * pow2(zeros)
            &&& 0 <= digits <= limit
            &&& -unit <= 2 * (digits * unit - n) <= unit
            &&& 2 * (digits * unit - n) == unit || 2 * (digits * unit - n) == -unit ==> digits % 2
                == 0
            &&& zeros > 0 ==> limit <= 2 * digits + 1
        }),
    decreases n - d,
{
    if n < d * limit {
        lemma2_to64();
        let near = crate::precision::to_even(n, d);
        crate::precision::lemma_to_even(n, d);
        assert(1 * d == d && near * 1 == near);
        assert(n <= limit * d) by (nonlinear_arith)
            requires
                n < d * limit,
        ;
        crate::precision::lemma_to_even_up_to(n, d, limit);
        vstd::arithmetic::div_mod::lemma_fundamental_div_mod(n, d);
        let whole = n / d;
        assert(d * whole == whole * d && (whole + 1) * d == whole * d + d) by (nonlinear_arith);
        (near, 0)
    } else {
        assert(2 * d <= n) by (nonlinear_arith)
            requires
                n >= d * limit,
                limit >= 2,
                d > 0,
        ;
        let (digits, less) = law_numbers_are_rounded_to_the_nearest(n, 2 * d, limit);
        let zeros = less + 1;
        lemma_pow2_unfold(zeros);
        let (p, q) = (pow2(zeros) as int, pow2(less) as int);
        assert(q * (2 * d) == p * d) by (nonlinear_arith)
            requires
                p == 2 * q,
        ;
        assert(2 * (digits * q) == digits * p) by (nonlinear_arith)
            requires
                p == 2 * q,
        ;
        if less == 0 {
            lemma2_to64();
            assert(limit <= 2 * digits + 1) by (nonlinear_arith)
                requires
                    n >= d * limit,
                    -(q * (2 * d)) <= 2 * (digits * (q * (2 * d)) - n),
                    q == 1,
                    d > 0,
            {
                assert(digits * (1 * (2 * d)) == 2 * (digits * d));
                assert(2 * n <= 4 * (digits * d) + 2 * d);
                assert((2 * digits + 1 - limit) * d >= 0);
            }
        }
        (digits, zeros)
    }
}

} // verus!
