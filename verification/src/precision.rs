//! Numbers of limited precision.
//!
//! A binary number of limited precision is a whole number of some small unit, of
//! which only the leading binary digits can be other than zero. A result that
//! needs more digits is rounded to the nearest such number, and to the one with an
//! even last digit in the middle.

use vstd::arithmetic::power2::*;
use vstd::prelude::*;

verus! {

/// The leading digits of a single-precision number are less than this.
pub const SINGLE: u128 = 0x100_0000;

/// The leading digits of a double-precision number are less than this.
pub const DOUBLE: u128 = 0x20_0000_0000_0000;

/// One, in the unit of strengths and thresholds, which is 2^-60. A number of single
/// precision from 2^-37 up is a whole number of these.
pub const ONE: u64 = 0x1000_0000_0000_0000;

/// A quotient rounded to the nearest whole number, and to even in the middle.
pub open spec fn to_even(numerator: int, denominator: int) -> int {
    let whole = numerator / denominator;
    let rest = numerator % denominator;
    if 2 * rest > denominator || (2 * rest == denominator && whole % 2 == 1) {
        whole + 1
    } else {
        whole
    }
}

/// A quotient rounded to the nearest number whose leading digits are less than a
/// limit.
pub open spec fn nearest(numerator: int, denominator: int, limit: int) -> int
    decreases numerator - denominator,
{
    if denominator <= 0 || limit < 2 || numerator < denominator * limit {
        to_even(numerator, denominator)
    } else {
        proof {
            assert(2 * denominator <= numerator) by (nonlinear_arith)
                requires
                    numerator >= denominator * limit,
                    limit >= 2,
                    denominator > 0,
            ;
        }
        2 * nearest(numerator, 2 * denominator, limit)
    }
}

pub proof fn lemma_to_even(numerator: int, denominator: int)
    requires
        0 <= numerator,
        0 < denominator,
    ensures
        0 <= to_even(numerator, denominator),
        2 * (to_even(numerator, denominator) * denominator) <= 2 * numerator + denominator,
        2 * numerator - denominator <= 2 * (to_even(numerator, denominator) * denominator),
        to_even(numerator, denominator) * denominator <= 2 * numerator,
{
    let (whole, rest) = (numerator / denominator, numerator % denominator);
    vstd::arithmetic::div_mod::lemma_fundamental_div_mod(numerator, denominator);
    vstd::arithmetic::div_mod::lemma_div_pos_is_pos(numerator, denominator);
    assert(denominator * whole == whole * denominator) by (nonlinear_arith);
    assert((whole + 1) * denominator == whole * denominator + denominator) by (nonlinear_arith);
    assert(0 <= whole * denominator) by (nonlinear_arith)
        requires
            0 <= whole,
            0 < denominator,
    ;
}

/// A quotient that is at least a whole number is rounded to no less than it.
proof fn lemma_to_even_from(numerator: int, denominator: int, bound: int)
    requires
        0 <= numerator,
        0 < denominator,
        bound * denominator <= numerator,
    ensures
        bound <= to_even(numerator, denominator),
{
    lemma_to_even(numerator, denominator);
    let near = to_even(numerator, denominator);
    assert(bound <= near) by (nonlinear_arith)
        requires
            bound * denominator <= numerator,
            2 * numerator - denominator <= 2 * (near * denominator),
            0 < denominator,
    ;
}

/// A quotient that is at most a whole number is rounded to no more than it.
pub proof fn lemma_to_even_up_to(numerator: int, denominator: int, bound: int)
    requires
        0 <= numerator,
        0 < denominator,
        numerator <= bound * denominator,
    ensures
        to_even(numerator, denominator) <= bound,
{
    lemma_to_even(numerator, denominator);
    let near = to_even(numerator, denominator);
    assert(near <= bound) by (nonlinear_arith)
        requires
            numerator <= bound * denominator,
            2 * (near * denominator) <= 2 * numerator + denominator,
            0 < denominator,
    ;
}

/// A whole number stays as it is.
pub proof fn lemma_to_even_exact(value: int, denominator: int)
    requires
        0 <= value,
        0 < denominator,
    ensures
        to_even(value * denominator, denominator) == value,
{
    assert(0 <= value * denominator) by (nonlinear_arith)
        requires
            0 <= value,
            0 < denominator,
    ;
    lemma_to_even_from(value * denominator, denominator, value);
    lemma_to_even_up_to(value * denominator, denominator, value);
}

/// Rounding keeps the order.
pub proof fn lemma_to_even_order(n: int, d: int, other_n: int, other_d: int)
    requires
        0 <= n,
        0 < d,
        0 <= other_n,
        0 < other_d,
        n * other_d <= other_n * d,
    ensures
        to_even(n, d) <= to_even(other_n, other_d),
{
    let (a, b) = (to_even(n, d), to_even(other_n, other_d));
    lemma_to_even(n, d);
    lemma_to_even(other_n, other_d);
    if a > b {
        // Both lie in the middle between the same two numbers.
        assert(2 * (a * d) - d <= 2 * n);
        assert(2 * other_n <= 2 * (b * other_d) + other_d);
        assert(2 * n == 2 * (b * d) + d && 2 * other_n == 2 * (b * other_d) + other_d && a == b + 1)
            by (nonlinear_arith)
            requires
                0 < d,
                0 < other_d,
                n * other_d <= other_n * d,
                2 * (a * d) - d <= 2 * n,
                2 * other_n <= 2 * (b * other_d) + other_d,
                a >= b + 1,
        ;
        assert(n / d == b && 2 * (n % d) == d) by {
            let rest = n - b * d;
            assert(2 * rest == d) by (nonlinear_arith)
                requires
                    2 * n == 2 * (b * d) + d,
                    rest == n - b * d,
            ;
            vstd::arithmetic::div_mod::lemma_fundamental_div_mod_converse(n, d, b, rest);
        }
        assert(other_n / other_d == b && 2 * (other_n % other_d) == other_d) by {
            let rest = other_n - b * other_d;
            assert(2 * rest == other_d) by (nonlinear_arith)
                requires
                    2 * other_n == 2 * (b * other_d) + other_d,
                    rest == other_n - b * other_d,
            ;
            vstd::arithmetic::div_mod::lemma_fundamental_div_mod_converse(
                other_n,
                other_d,
                b,
                rest,
            );
        }
        assert(false);
    }
}

/// A rounded number is not negative, and at most twice the exact one.
pub proof fn lemma_nearest(n: int, d: int, limit: int)
    requires
        0 <= n,
        0 < d,
        2 <= limit,
    ensures
        0 <= nearest(n, d, limit),
        nearest(n, d, limit) * d <= 2 * n,
    decreases n - d,
{
    if n < d * limit {
        lemma_to_even(n, d);
    } else {
        assert(2 * d <= n) by (nonlinear_arith)
            requires
                n >= d * limit,
                limit >= 2,
                d > 0,
        ;
        lemma_nearest(n, 2 * d, limit);
        let half = nearest(n, 2 * d, limit);
        assert((2 * half) * d == half * (2 * d)) by (nonlinear_arith);
    }
}

/// A number of at least one is rounded to at least half of it.
pub proof fn lemma_nearest_half(n: int, d: int, limit: int)
    requires
        0 < d <= n,
        2 <= limit,
    ensures
        n <= 2 * (nearest(n, d, limit) * d),
    decreases n - d,
{
    if n < d * limit {
        lemma_to_even(n, d);
    } else {
        assert(2 * d <= n) by (nonlinear_arith)
            requires
                n >= d * limit,
                limit >= 2,
                d > 0,
        ;
        lemma_nearest_half(n, 2 * d, limit);
        let half = nearest(n, 2 * d, limit);
        assert((2 * half) * d == half * (2 * d)) by (nonlinear_arith);
    }
}

/// A number that fills half of its digits is rounded by no more than one part in
/// the limit.
pub proof fn lemma_nearest_close(n: int, d: int, limit: int)
    requires
        0 < d,
        2 <= limit,
        d * limit <= 2 * n,
    ensures
        limit * (nearest(n, d, limit) * d) <= (limit + 1) * n,
    decreases n - d,
{
    if n < d * limit {
        assert(0 <= n) by (nonlinear_arith)
            requires
                d * limit <= 2 * n,
                0 < d,
                2 <= limit,
        ;
        lemma_to_even(n, d);
        let product = to_even(n, d) * d;
        assert(limit * product <= (limit + 1) * n) by (nonlinear_arith)
            requires
                2 * product <= 2 * n + d,
                d * limit <= 2 * n,
                2 <= limit,
        ;
    } else {
        assert(2 * d <= n && (2 * d) * limit <= 2 * n) by (nonlinear_arith)
            requires
                n >= d * limit,
                limit >= 2,
                d > 0,
        ;
        lemma_nearest_close(n, 2 * d, limit);
        let half = nearest(n, 2 * d, limit);
        assert((2 * half) * d == half * (2 * d)) by (nonlinear_arith);
    }
}

/// A number that fills half of its digits loses no more than one part in the
/// limit.
pub proof fn lemma_nearest_near(n: int, d: int, limit: int)
    requires
        0 <= n,
        0 < d,
        2 <= limit,
        d * limit <= 2 * n,
    ensures
        limit * n <= limit * (nearest(n, d, limit) * d) + n,
    decreases n - d,
{
    if n < d * limit {
        lemma_to_even(n, d);
        let product = to_even(n, d) * d;
        assert(limit * n <= limit * product + n) by (nonlinear_arith)
            requires
                2 * n - d <= 2 * product,
                d * limit <= 2 * n,
                2 <= limit,
        ;
    } else {
        assert(2 * d <= n && (2 * d) * limit <= 2 * n) by (nonlinear_arith)
            requires
                n >= d * limit,
                limit >= 2,
                d > 0,
        ;
        lemma_nearest_near(n, 2 * d, limit);
        let half = nearest(n, 2 * d, limit);
        assert((2 * half) * d == half * (2 * d)) by (nonlinear_arith);
    }
}

/// Rounding moves a number by no more than one, or one part in the limit.
pub proof fn lemma_nearest_error(n: int, d: int, limit: int)
    requires
        0 <= n,
        0 < d,
        2 <= limit,
    ensures
        limit * (nearest(n, d, limit) * d) <= limit * n + n + limit * d,
        limit * n <= limit * (nearest(n, d, limit) * d) + n + limit * d,
{
    if n < d * limit {
        lemma_to_even(n, d);
        let product = to_even(n, d) * d;
        assert(limit * product <= limit * n + n + limit * d && limit * n <= limit * product + n
            + limit * d) by (nonlinear_arith)
            requires
                2 * product <= 2 * n + d,
                2 * n - d <= 2 * product,
                0 <= n,
                0 < d,
                2 <= limit,
        ;
    } else {
        assert(d * limit <= 2 * n && 0 <= limit * d && (limit + 1) * n == limit * n + n)
            by (nonlinear_arith)
            requires
                n >= d * limit,
                0 <= n,
                0 < d,
                2 <= limit,
        ;
        lemma_nearest_close(n, d, limit);
        lemma_nearest_near(n, d, limit);
    }
}

/// A number of few digits and any number of zeros after them stays as it is.
pub proof fn lemma_nearest_kept(digits: int, zeros: nat, d: int, limit: int)
    requires
        0 <= digits < limit,
        0 < d,
        2 <= limit,
    ensures
        nearest((digits * pow2(zeros)) * d, d, limit) == digits * pow2(zeros),
    decreases zeros,
{
    lemma_pow2_pos(zeros);
    let value = digits * pow2(zeros);
    assert(0 <= value) by (nonlinear_arith)
        requires
            0 <= digits,
            0 < pow2(zeros),
            value == digits * pow2(zeros),
    ;
    if value * d < d * limit {
        lemma_to_even_exact(value, d);
    } else if zeros == 0 {
        lemma2_to64();
        lemma_nearest_exact(digits, d, limit);
    } else {
        lemma_pow2_unfold(zeros);
        let half = digits * pow2((zeros - 1) as nat);
        assert(value == 2 * half && value * d == half * (2 * d)) by (nonlinear_arith)
            requires
                value == digits * pow2(zeros),
                half == digits * pow2((zeros - 1) as nat),
                pow2(zeros) == 2 * pow2((zeros - 1) as nat),
        ;
        lemma_nearest_kept(digits, (zeros - 1) as nat, 2 * d, limit);
    }
}

/// Doubling both sides of a quotient changes nothing.
proof fn lemma_to_even_doubled(n: int, d: int)
    requires
        0 <= n,
        0 < d,
    ensures
        to_even(2 * n, 2 * d) == to_even(n, d),
{
    let (whole, rest) = (n / d, n % d);
    vstd::arithmetic::div_mod::lemma_fundamental_div_mod(n, d);
    assert(2 * n == (2 * d) * whole + 2 * rest) by (nonlinear_arith)
        requires
            n == d * whole + rest,
    ;
    assert((2 * d) * whole == whole * (2 * d)) by (nonlinear_arith);
    vstd::arithmetic::div_mod::lemma_fundamental_div_mod_converse(2 * n, 2 * d, whole, 2 * rest);
}

proof fn lemma_nearest_doubled(n: int, d: int, limit: int)
    requires
        0 <= n,
        0 < d,
        2 <= limit,
    ensures
        nearest(2 * n, 2 * d, limit) == nearest(n, d, limit),
    decreases n - d,
{
    assert((2 * d) * limit == 2 * (d * limit)) by (nonlinear_arith);
    if n < d * limit {
        lemma_to_even_doubled(n, d);
    } else {
        assert(2 * d <= n) by (nonlinear_arith)
            requires
                n >= d * limit,
                limit >= 2,
                d > 0,
        ;
        lemma_nearest_doubled(n, 2 * d, limit);
    }
}

/// The same zeros behind both sides of a quotient change nothing.
pub proof fn lemma_nearest_cancel(n: int, d: int, zeros: nat, limit: int)
    requires
        0 <= n,
        0 < d,
        2 <= limit,
    ensures
        nearest(n * pow2(zeros), d * pow2(zeros), limit) == nearest(n, d, limit),
    decreases zeros,
{
    if zeros == 0 {
        lemma2_to64();
    } else {
        let (m, e) = (n * pow2((zeros - 1) as nat), d * pow2((zeros - 1) as nat));
        lemma_pow2_unfold(zeros);
        lemma_pow2_pos((zeros - 1) as nat);
        assert(n * pow2(zeros) == 2 * m && d * pow2(zeros) == 2 * e && 0 <= m && 0 < e)
            by (nonlinear_arith)
            requires
                pow2(zeros) == 2 * pow2((zeros - 1) as nat),
                0 < pow2((zeros - 1) as nat),
                m == n * pow2((zeros - 1) as nat),
                e == d * pow2((zeros - 1) as nat),
                0 <= n,
                0 < d,
        ;
        lemma_nearest_doubled(m, e, limit);
        lemma_nearest_cancel(n, d, (zeros - 1) as nat, limit);
    }
}

/// A number that fills its digits keeps the zeros behind them.
pub proof fn lemma_nearest_shifted(n: int, d: int, zeros: nat, limit: int)
    requires
        0 < d,
        2 <= limit,
        d * limit <= n,
    ensures
        nearest(n * pow2(zeros), d, limit) == nearest(n, d, limit) * pow2(zeros),
    decreases zeros,
{
    assert(0 <= d * limit) by (nonlinear_arith)
        requires
            0 < d,
            2 <= limit,
    ;
    if zeros == 0 {
        lemma2_to64();
    } else {
        let m = n * pow2((zeros - 1) as nat);
        lemma_pow2_unfold(zeros);
        lemma_pow2_pos((zeros - 1) as nat);
        assert(n * pow2(zeros) == 2 * m && n <= m) by (nonlinear_arith)
            requires
                pow2(zeros) == 2 * pow2((zeros - 1) as nat),
                0 < pow2((zeros - 1) as nat),
                m == n * pow2((zeros - 1) as nat),
                0 <= n,
        ;
        lemma_nearest_doubled(m, d, limit);
        lemma_nearest_shifted(n, d, (zeros - 1) as nat, limit);
        let near = nearest(n, d, limit);
        assert(2 * (near * pow2((zeros - 1) as nat)) == near * pow2(zeros)) by (nonlinear_arith)
            requires
                pow2(zeros) == 2 * pow2((zeros - 1) as nat),
        ;
    }
}

/// A number that overflows its digits by some zeros is rounded in front of them.
pub proof fn lemma_nearest_unfolded(n: int, d: int, zeros: nat, limit: int)
    requires
        0 < d,
        2 <= limit,
        zeros > 0 ==> (d * pow2((zeros - 1) as nat)) * limit <= n,
    ensures
        nearest(n, d, limit) == nearest(n, d * pow2(zeros), limit) * pow2(zeros),
    decreases zeros,
{
    if zeros == 0 {
        lemma2_to64();
    } else {
        let less = (zeros - 1) as nat;
        lemma_pow2_unfold(zeros);
        lemma_pow2_pos(less);
        let e = d * pow2(less);
        assert(0 < e && d * pow2(zeros) == 2 * e) by (nonlinear_arith)
            requires
                pow2(zeros) == 2 * pow2(less),
                0 < pow2(less),
                e == d * pow2(less),
                0 < d,
        ;
        if less > 0 {
            lemma_pow2_unfold(less);
            lemma_pow2_pos((less - 1) as nat);
            let f = d * pow2((less - 1) as nat);
            assert(f * limit <= e * limit) by (nonlinear_arith)
                requires
                    e == d * pow2(less),
                    f == d * pow2((less - 1) as nat),
                    pow2(less) == 2 * pow2((less - 1) as nat),
                    0 < pow2((less - 1) as nat),
                    0 < d,
                    0 < limit,
            ;
        }
        lemma_nearest_unfolded(n, d, less, limit);
        let near = nearest(n, 2 * e, limit);
        assert((2 * near) * pow2(less) == near * pow2(zeros)) by (nonlinear_arith)
            requires
                pow2(zeros) == 2 * pow2(less),
        ;
    }
}

/// What is at least a number of few digits is rounded to no less than it.
proof fn lemma_nearest_from(n: int, d: int, limit: int, bound: int)
    requires
        0 <= n,
        0 < d,
        2 <= limit,
        limit % 2 == 0,
        bound <= limit,
        bound * d <= n,
    ensures
        bound <= nearest(n, d, limit),
    decreases n - d,
{
    if n < d * limit {
        lemma_to_even_from(n, d, bound);
    } else {
        assert(2 * d <= n && (limit / 2) * (2 * d) <= n) by (nonlinear_arith)
            requires
                n >= d * limit,
                limit >= 2,
                limit % 2 == 0,
                d > 0,
        ;
        lemma_nearest_from(n, 2 * d, limit, limit / 2);
    }
}

/// Rounding to few digits keeps the order.
pub proof fn lemma_nearest_order(n: int, d: int, other_n: int, other_d: int, limit: int)
    requires
        0 <= n,
        0 < d,
        0 <= other_n,
        0 < other_d,
        n * other_d <= other_n * d,
        2 <= limit,
        limit % 2 == 0,
    ensures
        nearest(n, d, limit) <= nearest(other_n, other_d, limit),
    decreases n - d,
{
    if n < d * limit {
        if other_n < other_d * limit {
            lemma_to_even_order(n, d, other_n, other_d);
        } else {
            assert(limit * d == d * limit && limit * other_d == other_d * limit)
                by (nonlinear_arith);
            lemma_to_even_up_to(n, d, limit);
            lemma_nearest_from(other_n, other_d, limit, limit);
        }
    } else {
        assert(other_n >= other_d * limit) by (nonlinear_arith)
            requires
                n >= d * limit,
                n * other_d <= other_n * d,
                0 < d,
                0 < other_d,
        ;
        assert(2 * d <= n && n * (2 * other_d) <= other_n * (2 * d)) by (nonlinear_arith)
            requires
                n >= d * limit,
                limit >= 2,
                d > 0,
                n * other_d <= other_n * d,
        ;
        lemma_nearest_order(n, 2 * d, other_n, 2 * other_d, limit);
    }
}

/// A number of few digits stays as it is.
pub proof fn lemma_nearest_exact(value: int, d: int, limit: int)
    requires
        0 <= value < limit,
        0 < d,
        2 <= limit,
    ensures
        nearest(value * d, d, limit) == value,
{
    assert(value * d < d * limit) by (nonlinear_arith)
        requires
            0 <= value < limit,
            0 < d,
    ;
    lemma_to_even_exact(value, d);
}

/// The square root of a quotient, rounded to the nearest whole number that is not
/// above a limit.
pub open spec fn whole_root(numerator: int, denominator: int, limit: nat) -> nat
    decreases limit,
{
    if limit == 0 || reaches(numerator, denominator, limit as int) {
        limit
    } else {
        whole_root(numerator, denominator, (limit - 1) as nat)
    }
}

/// The square root of a quotient is no more than half below a number.
pub open spec fn reaches(numerator: int, denominator: int, root: int) -> bool {
    denominator * ((2 * root - 1) * (2 * root - 1)) <= 4 * numerator
}

/// The square root of a quotient, rounded to the nearest number whose leading
/// digits are less than a limit.
pub open spec fn nearest_root(numerator: int, denominator: int, limit: int) -> int
    decreases numerator - denominator,
{
    if denominator <= 0 || limit < 2 || numerator < denominator * (limit * limit) {
        whole_root(numerator, denominator, limit as nat) as int
    } else {
        proof {
            assert(4 * denominator <= numerator) by (nonlinear_arith)
                requires
                    numerator >= denominator * (limit * limit),
                    limit >= 2,
                    denominator > 0,
            {
                assert(4 <= limit * limit);
            }
        }
        2 * nearest_root(numerator, 4 * denominator, limit)
    }
}

proof fn lemma_quarter(numerator: int, denominator: int, limit: int)
    requires
        numerator >= denominator * (limit * limit),
        limit >= 2,
        denominator > 0,
    ensures
        4 * denominator <= numerator,
{
    assert(4 <= limit * limit) by (nonlinear_arith)
        requires
            limit >= 2,
    ;
    assert(4 * denominator <= denominator * (limit * limit)) by (nonlinear_arith)
        requires
            4 <= limit * limit,
            denominator > 0,
    ;
}

/// What a number reaches, every smaller one reaches too.
proof fn lemma_reaches_down(numerator: int, denominator: int, root: int, lower: int)
    requires
        0 < denominator,
        1 <= lower <= root,
        reaches(numerator, denominator, root),
    ensures
        reaches(numerator, denominator, lower),
{
    let (a, b) = (2 * lower - 1, 2 * root - 1);
    assert(denominator * (a * a) <= denominator * (b * b)) by (nonlinear_arith)
        requires
            0 < denominator,
            1 <= a <= b,
    ;
}

/// The rounded root is the greatest number that is reached.
proof fn lemma_whole_root(numerator: int, denominator: int, limit: nat, root: nat)
    requires
        0 < denominator,
        root <= limit,
        root > 0 ==> reaches(numerator, denominator, root as int),
        root < limit ==> !reaches(numerator, denominator, root as int + 1),
    ensures
        whole_root(numerator, denominator, limit) == root,
    decreases limit,
{
    if limit > root {
        if reaches(numerator, denominator, limit as int) {
            lemma_reaches_down(numerator, denominator, limit as int, root as int + 1);
        }
        lemma_whole_root(numerator, denominator, (limit - 1) as nat, root);
    }
}

proof fn lemma_whole_root_range(numerator: int, denominator: int, limit: nat)
    ensures
        whole_root(numerator, denominator, limit) <= limit,
        whole_root(numerator, denominator, limit) > 0 ==> reaches(
            numerator,
            denominator,
            whole_root(numerator, denominator, limit) as int,
        ),
    decreases limit,
{
    if limit > 0 && !reaches(numerator, denominator, limit as int) {
        lemma_whole_root_range(numerator, denominator, (limit - 1) as nat);
    }
}

/// The rounded root is not less than a number that is reached.
proof fn lemma_whole_root_from(numerator: int, denominator: int, limit: nat, root: nat)
    requires
        root <= limit,
        reaches(numerator, denominator, root as int),
    ensures
        root <= whole_root(numerator, denominator, limit),
    decreases limit,
{
    if limit > root && !reaches(numerator, denominator, limit as int) {
        lemma_whole_root_from(numerator, denominator, (limit - 1) as nat, root);
    }
}

/// The root of what is at least a square of few digits is rounded to no less than
/// its side.
proof fn lemma_nearest_root_from(numerator: int, denominator: int, limit: int, side: int)
    requires
        0 < denominator,
        2 <= limit,
        limit % 2 == 0,
        1 <= side <= limit,
        denominator * (side * side) <= numerator,
    ensures
        side <= nearest_root(numerator, denominator, limit),
    decreases numerator - denominator,
{
    if numerator < denominator * (limit * limit) {
        assert(denominator * ((2 * side - 1) * (2 * side - 1)) <= 4 * numerator)
            by (nonlinear_arith)
            requires
                denominator * (side * side) <= numerator,
                0 < denominator,
                1 <= side,
        {
            assert((2 * side - 1) * (2 * side - 1) <= 4 * (side * side));
            assert(denominator * ((2 * side - 1) * (2 * side - 1)) <= denominator * (4 * (side
                * side)));
        }
        lemma_whole_root_from(numerator, denominator, limit as nat, side as nat);
    } else {
        lemma_quarter(numerator, denominator, limit);
        let half = limit / 2;
        assert((4 * denominator) * (half * half) == denominator * (limit * limit))
            by (nonlinear_arith)
            requires
                limit == 2 * half,
        ;
        lemma_nearest_root_from(numerator, 4 * denominator, limit, half);
    }
}

/// Rounded roots keep the order.
pub proof fn lemma_nearest_root_order(numerator: int, other: int, denominator: int, limit: int)
    requires
        0 <= numerator <= other,
        0 < denominator,
        2 <= limit,
        limit % 2 == 0,
    ensures
        0 <= nearest_root(numerator, denominator, limit) <= nearest_root(
            other,
            denominator,
            limit,
        ),
    decreases numerator - denominator,
{
    if numerator < denominator * (limit * limit) {
        let root = whole_root(numerator, denominator, limit as nat);
        lemma_whole_root_range(numerator, denominator, limit as nat);
        if other < denominator * (limit * limit) {
            if root > 0 {
                lemma_whole_root_from(other, denominator, limit as nat, root);
            }
        } else {
            lemma_nearest_root_from(other, denominator, limit, limit);
        }
    } else {
        lemma_quarter(numerator, denominator, limit);
        lemma_nearest_root_order(numerator, other, 4 * denominator, limit);
    }
}

/// Rounds the square root of a quotient to the nearest number of single precision.
pub fn round_root(numerator: u128, denominator: u128) -> (root: u128)
    requires
        numerator <= 0x10_0000_0000_0000_0000_0000_0000,
        0 < denominator <= 0x1000_0000_0000_0000,
    ensures
        root == nearest_root(numerator as int, denominator as int, SINGLE as int),
        root * denominator <= 0x10_0000_0000_0000_0000_0000,
    decreases numerator - denominator,
{
    let square: u128 = 0x1_0000_0000_0000;
    assert(SINGLE * SINGLE == 0x1_0000_0000_0000) by (nonlinear_arith);
    proof {
        let (n, d, l) = (numerator as int, denominator as int, square as int);
        vstd::arithmetic::div_mod::lemma_fundamental_div_mod(n, l);
        assert(n / l < d <==> n < d * l) by (nonlinear_arith)
            requires
                n == l * (n / l) + n % l,
                0 <= n % l < l,
                0 < d,
                0 < l,
        ;
    }
    if numerator / square < denominator {
        let (mut low, mut high): (u128, u128) = (0, SINGLE + 1);
        while low + 1 < high
            invariant
                low < high <= SINGLE + 1,
                numerator <= 0x10_0000_0000_0000_0000_0000_0000,
                0 < denominator <= 0x1000_0000_0000_0000,
                low > 0 ==> reaches(numerator as int, denominator as int, low as int),
                high <= SINGLE ==> !reaches(numerator as int, denominator as int, high as int),
            decreases high - low,
        {
            let middle: u128 = (low + high) / 2;
            let odd: u128 = 2 * middle - 1;
            proof {
                assert(odd * odd <= 0x4_0000_0000_0000) by (nonlinear_arith)
                    requires
                        0 <= odd <= 0x200_0000,
                ;
                assert(denominator * (odd * odd) <= 0x1000_0000_0000_0000 * 0x4_0000_0000_0000)
                    by (nonlinear_arith)
                    requires
                        0 <= odd * odd <= 0x4_0000_0000_0000,
                        0 < denominator <= 0x1000_0000_0000_0000,
                ;
            }
            if denominator * (odd * odd) <= 4 * numerator {
                low = middle;
            } else {
                high = middle;
            }
        }
        proof {
            lemma_whole_root(numerator as int, denominator as int, SINGLE as nat, low as nat);
            assert(low * denominator <= 0x10_0000_0000_0000_0000_0000) by (nonlinear_arith)
                requires
                    0 <= low <= 0x100_0000,
                    0 < denominator <= 0x1000_0000_0000_0000,
            ;
        }
        return low;
    }
    proof {
        lemma_quarter(numerator as int, denominator as int, SINGLE as int);
        assert(4 * denominator <= 0x1000_0000_0000_0000) by (nonlinear_arith)
            requires
                numerator >= denominator * square,
                square == 0x1_0000_0000_0000,
                numerator <= 0x10_0000_0000_0000_0000_0000_0000,
        ;
    }
    let half: u128 = round_root(numerator, 4 * denominator);
    proof {
        assert(half <= 0x10_0000_0000_0000_0000_0000 && (2 * half) * denominator
            <= half * (4 * denominator)) by (nonlinear_arith)
            requires
                half * (4 * denominator) <= 0x10_0000_0000_0000_0000_0000,
                0 < denominator,
                0 <= half,
        ;
    }
    2 * half
}

/// Rounds a quotient to the nearest whole number, and to even in the middle.
pub fn round_to_even(numerator: u128, denominator: u128) -> (near: u128)
    requires
        0 < denominator <= 0x7fff_ffff_ffff_ffff_ffff_ffff_ffff_ffff,
        numerator <= 0x7fff_ffff_ffff_ffff_ffff_ffff_ffff_ffff,
    ensures
        near == to_even(numerator as int, denominator as int),
        near * denominator <= 2 * numerator,
{
    proof {
        lemma_to_even(numerator as int, denominator as int);
    }
    let (whole, rest): (u128, u128) = (numerator / denominator, numerator % denominator);
    proof {
        vstd::arithmetic::div_mod::lemma_div_is_ordered_by_denominator(
            numerator as int,
            1,
            denominator as int,
        );
    }
    if 2 * rest > denominator || (2 * rest == denominator && whole % 2 == 1) {
        whole + 1
    } else {
        whole
    }
}

/// Rounds a quotient to the nearest number whose leading digits are less than a
/// limit.
pub fn round_to_digits(numerator: u128, denominator: u128, limit: u128) -> (near: u128)
    requires
        0 < denominator <= 0x7fff_ffff_ffff_ffff_ffff_ffff_ffff_ffff,
        numerator <= 0x7fff_ffff_ffff_ffff_ffff_ffff_ffff_ffff,
        2 <= limit,
    ensures
        near == nearest(numerator as int, denominator as int, limit as int),
        near * denominator <= 2 * numerator,
    decreases numerator - denominator,
{
    proof {
        let (n, d, l) = (numerator as int, denominator as int, limit as int);
        lemma_nearest(n, d, l);
        vstd::arithmetic::div_mod::lemma_fundamental_div_mod(n, l);
        assert(n / l < d <==> n < d * l) by (nonlinear_arith)
            requires
                n == l * (n / l) + n % l,
                0 <= n % l < l,
                0 < d,
                2 <= l,
        ;
    }
    if numerator / limit < denominator {
        return round_to_even(numerator, denominator);
    }
    proof {
        assert(2 * denominator <= numerator) by (nonlinear_arith)
            requires
                numerator >= denominator * limit,
                limit >= 2,
                denominator > 0,
        ;
    }
    let half: u128 = round_to_digits(numerator, 2 * denominator, limit);
    proof {
        assert(half <= numerator) by (nonlinear_arith)
            requires
                half * (2 * denominator) <= 2 * numerator,
                0 < denominator,
                0 <= half,
        ;
    }
    2 * half
}

} // verus!
