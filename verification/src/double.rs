//! Numbers of double precision, as whole numbers of 2^-120.

use vstd::arithmetic::power2::*;
use vstd::prelude::*;

use crate::precision::{round_to_even, DOUBLE};

verus! {

/// One, in the unit 2^-120.
pub const FINE: u128 = 0x100_0000_0000_0000_0000_0000_0000_0000;

/// A quotient rounded to double precision.
pub open spec fn double(numerator: int, denominator: int) -> int {
    crate::precision::nearest(numerator, denominator, DOUBLE as int)
}

/// A number that may be negative, rounded to double precision.
pub open spec fn signed_double(value: int) -> int {
    if value < 0 {
        -double(-value, 1)
    } else {
        double(value, 1)
    }
}

/// Half of a number, rounded towards zero.
pub open spec fn half_of(value: int) -> int {
    if value < 0 {
        -((-value) / 2)
    } else {
        value / 2
    }
}

/// Few digits and the zeros that follow them.
#[derive(Clone, Copy, Debug, PartialEq, Eq, Structural)]
pub struct Rounded {
    pub digits: u64,
    pub zeros: u32,
}

impl Rounded {
    pub open spec fn value(self) -> int {
        self.digits * pow2(self.zeros as nat)
    }

    pub open spec fn wf(self) -> bool {
        self.digits <= DOUBLE && self.zeros <= 1000
    }

    /// Half of the number, rounded down.
    pub fn halved(self) -> (half: Self)
        requires
            self.wf(),
        ensures
            half.wf(),
            half.zeros <= self.zeros,
            half.value() == self.value() / 2,
    {
        if self.zeros > 0 {
            proof {
                lemma_pow2_unfold(self.zeros as nat);
                let (d, p) = (self.digits as int, pow2((self.zeros - 1) as nat) as int);
                assert(d * (2 * p) == 2 * (d * p)) by (nonlinear_arith);
                assert(self.value() == 2 * (d * p));
            }
            Rounded { digits: self.digits, zeros: self.zeros - 1 }
        } else {
            proof {
                lemma_no_zeros(self.digits as int);
                lemma_no_zeros(self.digits as int / 2);
            }
            Rounded { digits: self.digits / 2, zeros: 0 }
        }
    }
}

proof fn lemma_no_zeros(value: int)
    ensures
        value * pow2(0) == value,
{
    lemma2_to64();
    assert(value * 1 == value);
}

/// A power of two.
fn power(exponent: u32) -> (power: u128)
    requires
        exponent <= 120,
    ensures
        power == pow2(exponent as nat),
        0 < power <= FINE,
{
    let mut power: u128 = 1;
    let mut i: u32 = 0;
    proof {
        lemma2_to64();
        lemma_fine();
    }
    while i < exponent
        invariant
            i <= exponent <= 120,
            power == pow2(i as nat),
            power <= FINE,
            FINE == pow2(120),
        decreases exponent - i,
    {
        proof {
            lemma_pow2_unfold((i + 1) as nat);
            if i + 1 < 120 {
                lemma_pow2_strictly_increases((i + 1) as nat, 120);
            }
        }
        power = 2 * power;
        i = i + 1;
    }
    proof {
        lemma_pow2_pos(exponent as nat);
    }
    power
}

pub proof fn lemma_fine()
    ensures
        FINE == pow2(120),
{
    lemma2_to64_rest();
    lemma_pow2_adds(60, 60);
    assert(pow2(120) == pow2(60) * pow2(60));
    assert(0x1000_0000_0000_0000 * 0x1000_0000_0000_0000 == FINE) by (nonlinear_arith);
}

/// Rounds a quotient, with zeros behind its numerator, to double precision.
pub fn round_quotient(numerator: u128, zeros: u32, denominator: u64) -> (near: Rounded)
    requires
        numerator < FINE,
        zeros <= 800,
        0 < denominator <= DOUBLE,
    ensures
        near.wf(),
        near.zeros <= zeros + 100,
        near.value() == double(numerator * pow2(zeros as nat), denominator as int),
{
    let d: u128 = denominator as u128;
    let mut n: u128 = numerator;
    let mut left: u32 = zeros;
    let least: u128 = d * DOUBLE;
    proof {
        assert(d * DOUBLE <= 0x400_0000_0000_0000_0000_0000_0000) by (nonlinear_arith)
            requires
                0 < d <= 0x20_0000_0000_0000,
                DOUBLE == 0x20_0000_0000_0000,
        ;
    }
    while left > 0 && n < least
        invariant
            left <= zeros,
            n < FINE,
            least <= 0x400_0000_0000_0000_0000_0000_0000,
            n * pow2(left as nat) == numerator * pow2(zeros as nat),
        decreases left,
    {
        proof {
            lemma_pow2_unfold(left as nat);
            let p = pow2((left - 1) as nat) as int;
            assert(n * (2 * p) == (2 * n) * p) by (nonlinear_arith);
        }
        n = 2 * n;
        left = left - 1;
    }
    proof {
        assert(double(numerator * pow2(zeros as nat), d as int) == double(n as int, d as int)
            * pow2(left as nat)) by {
            if left > 0 {
                crate::precision::lemma_nearest_shifted(
                    n as int,
                    d as int,
                    left as nat,
                    DOUBLE as int,
                );
            } else {
                lemma_no_zeros(n as int);
                lemma_no_zeros(double(n as int, d as int));
            }
        }
    }
    let mut e: u32 = 0;
    let mut wide: u128 = d;
    let whole: u128 = n / DOUBLE;
    proof {
        lemma2_to64();
        vstd::arithmetic::div_mod::lemma_fundamental_div_mod(n as int, DOUBLE as int);
    }
    while wide <= whole
        invariant
            0 < d,
            wide == d * pow2(e as nat),
            wide <= 2 * whole || e == 0,
            0 < wide <= 0x10_0000_0000_0000_0000,
            whole < 0x8_0000_0000_0000_0000,
            whole == n / DOUBLE,
            n == DOUBLE * whole + n % DOUBLE,
            0 <= n % DOUBLE < DOUBLE,
            e <= 68,
            e > 0 ==> (d * pow2((e - 1) as nat)) * DOUBLE <= n,
        decreases 2 * whole + 2 - wide,
    {
        proof {
            lemma_pow2_unfold((e + 1) as nat);
            lemma_pow2_pos(e as nat);
            let p = pow2(e as nat) as int;
            assert(d * (2 * p) == 2 * (d * p)) by (nonlinear_arith);
            assert(wide * DOUBLE <= n) by (nonlinear_arith)
                requires
                    wide <= whole,
                    n == DOUBLE * whole + n % DOUBLE,
                    0 <= n % DOUBLE,
            ;
            assert(p <= wide) by (nonlinear_arith)
                requires
                    wide == d * p,
                    0 < d,
                    0 < p,
            ;
            if e >= 67 {
                lemma2_to64();
                lemma2_to64_rest();
                lemma_pow2_adds(64, 3);
                if e > 67 {
                    lemma_pow2_strictly_increases(67, e as nat);
                }
                assert(false);
            }
        }
        wide = 2 * wide;
        e = e + 1;
    }
    proof {
        crate::precision::lemma_nearest_unfolded(n as int, d as int, e as nat, DOUBLE as int);
        assert(n < wide * DOUBLE) by (nonlinear_arith)
            requires
                whole + 1 <= wide,
                n == DOUBLE * whole + n % DOUBLE,
                n % DOUBLE < DOUBLE,
        ;
        crate::precision::lemma_to_even_up_to(n as int, wide as int, DOUBLE as int);
        let t = crate::precision::to_even(n as int, wide as int);
        lemma_pow2_adds(e as nat, left as nat);
        let (p, q) = (pow2(e as nat) as int, pow2(left as nat) as int);
        assert((t * p) * q == t * (p * q)) by (nonlinear_arith);
    }
    let digits: u128 = round_to_even(n, wide);
    Rounded { digits: digits as u64, zeros: left + e }
}

/// A number as its whole part and the rest, in the unit 2^-120.
#[derive(Clone, Copy, Debug, PartialEq, Eq, Structural)]
pub struct Fixed {
    pub whole: u64,
    pub part: u128,
}

impl Fixed {
    pub open spec fn value(self) -> int {
        self.whole * FINE + self.part
    }

    pub open spec fn wf(self) -> bool {
        self.whole < 0x100_0000_0000 && self.part < FINE
    }

    /// A whole number.
    pub fn from_whole(whole: u32) -> (fixed: Self)
        ensures
            fixed.wf(),
            fixed.value() == whole * FINE,
    {
        Fixed { whole: whole as u64, part: 0 }
    }

    pub fn from_rounded(rounded: Rounded) -> (fixed: Self)
        requires
            rounded.wf(),
            rounded.value() < 0x100_0000_0000 * FINE,
        ensures
            fixed.wf(),
            fixed.value() == rounded.value(),
    {
        let (digits, zeros): (u64, u32) = (rounded.digits, rounded.zeros);
        proof {
            lemma_fine();
            lemma_pow2_pos(zeros as nat);
        }
        if digits == 0 {
            assert(0 * pow2(zeros as nat) == 0);
            return Fixed { whole: 0, part: 0 };
        }
        let ghost value = rounded.value();
        if zeros >= 120 {
            let more: u32 = zeros - 120;
            proof {
                lemma_pow2_adds(more as nat, 120);
                lemma_pow2_pos(more as nat);
                let (d, p) = (digits as int, pow2(more as nat) as int);
                assert(value == (d * p) * FINE) by (nonlinear_arith)
                    requires
                        value == d * (p * FINE),
                ;
                assert(d * p < 0x100_0000_0000 && p <= d * p) by (nonlinear_arith)
                    requires
                        (d * p) * FINE < 0x100_0000_0000 * FINE,
                        0 < FINE,
                        0 < d,
                        0 < p,
                ;
                lemma2_to64_rest();
                if more > 40 {
                    lemma_pow2_strictly_increases(40, more as nat);
                    assert(false);
                }
            }
            let shift: u64 = power(more) as u64;
            return Fixed { whole: digits * shift, part: 0 };
        }
        let (up, down): (u128, u128) = (power(120 - zeros), power(zeros));
        let (whole, rest): (u128, u128) = (digits as u128 / up, digits as u128 % up);
        proof {
            lemma_pow2_adds((120 - zeros) as nat, zeros as nat);
            vstd::arithmetic::div_mod::lemma_fundamental_div_mod(digits as int, up as int);
            assert(value == whole * FINE + rest * down && rest * down < FINE) by (nonlinear_arith)
                requires
                    value == digits * down,
                    digits == up * whole + rest,
                    up * down == FINE,
                    0 <= rest < up,
                    0 < down,
            ;
            assert(0 <= rest * down) by (nonlinear_arith)
                requires
                    0 <= rest,
                    0 < down,
            ;
            assert(whole < 0x100_0000_0000) by (nonlinear_arith)
                requires
                    whole * FINE <= value,
                    value < 0x100_0000_0000 * FINE,
                    0 < FINE,
            ;
        }
        Fixed { whole: whole as u64, part: rest * down }
    }

    /// Half of the number, rounded down.
    pub fn halved(self) -> (half: Self)
        requires
            self.wf(),
        ensures
            half.wf(),
            half.value() == self.value() / 2,
    {
        let carry: u128 = if self.whole % 2 == 1 {
            FINE / 2
        } else {
            0
        };
        Fixed { whole: self.whole / 2, part: carry + self.part / 2 }
    }

    pub fn at_most(self, other: Self) -> (result: bool)
        requires
            self.wf(),
            other.wf(),
        ensures
            result == (self.value() <= other.value()),
    {
        self.whole < other.whole || (self.whole == other.whole && self.part <= other.part)
    }

    fn plus(self, other: Self) -> (sum: Self)
        requires
            self.wf(),
            other.wf(),
            self.value() + other.value() < 0x100_0000_0000 * FINE,
        ensures
            sum.wf(),
            sum.value() == self.value() + other.value(),
    {
        let part: u128 = self.part + other.part;
        if part >= FINE {
            Fixed { whole: self.whole + other.whole + 1, part: part - FINE }
        } else {
            Fixed { whole: self.whole + other.whole, part }
        }
    }

    fn minus(self, other: Self) -> (difference: Self)
        requires
            self.wf(),
            other.wf(),
            other.value() <= self.value(),
        ensures
            difference.wf(),
            difference.value() == self.value() - other.value(),
    {
        if self.part >= other.part {
            Fixed { whole: self.whole - other.whole, part: self.part - other.part }
        } else {
            Fixed { whole: self.whole - other.whole - 1, part: FINE - other.part + self.part }
        }
    }

    /// Rounds to double precision.
    fn rounded(self) -> (near: Self)
        requires
            self.wf(),
            self.whole < 0x80_0000_0000,
        ensures
            near.wf(),
            near.value() == double(self.value(), 1),
    {
        let ghost value = self.value();
        proof {
            crate::precision::lemma_nearest(value, 1, DOUBLE as int);
        }
        if self.whole == 0 {
            proof {
                lemma_no_zeros(self.part as int);
            }
            return Fixed::from_rounded(round_quotient(self.part, 0, 1));
        }
        let (mut zeros, mut down, mut up): (u32, u128, u128) = (68, power(68), power(52));
        proof {
            lemma_fine();
            lemma2_to64_rest();
            lemma_pow2_adds(68, 52);
            lemma_pow2_adds(67, 53);
            assert(1 * pow2(67) == pow2(67));
            assert(FINE == pow2(67) * DOUBLE);
            assert(down * up == up * down) by (nonlinear_arith);
            self.lemma_split(up as int, down as int);
        }
        let mut whole: u128 = self.whole as u128 * up + self.part / down;
        while whole >= DOUBLE
            invariant
                self.wf(),
                self.whole < 0x80_0000_0000,
                value == self.value(),
                68 <= zeros <= 120,
                down == pow2(zeros as nat),
                up == pow2((120 - zeros) as nat),
                0 < down <= FINE,
                0 < up <= 0x10_0000_0000_0000,
                up * down == FINE,
                whole == value / down as int,
                value == whole * down + self.part % down,
                whole == self.whole * up + self.part / down,
                (1 * pow2((zeros - 1) as nat)) * DOUBLE <= value,
            decreases 120 - zeros,
        {
            proof {
                lemma2_to64_rest();
                lemma_fine();
                assert(whole * down >= DOUBLE * down) by (nonlinear_arith)
                    requires
                        whole >= DOUBLE,
                        0 < down,
                ;
                assert(DOUBLE * down == (1 * pow2(zeros as nat)) * DOUBLE) by (nonlinear_arith)
                    requires
                        down == pow2(zeros as nat),
                ;
                if zeros >= 120 {
                    lemma2_to64();
                    assert(false) by (nonlinear_arith)
                        requires
                            DOUBLE * down <= value,
                            down == FINE,
                            FINE == 0x100_0000_0000_0000_0000_0000_0000_0000,
                            DOUBLE == 0x20_0000_0000_0000,
                            value < 0x100_0000_0000 * FINE,
                    ;
                }
                lemma_pow2_unfold((zeros + 1) as nat);
                lemma_pow2_unfold((120 - zeros) as nat);
                lemma_pow2_pos((119 - zeros) as nat);
                let half = pow2((119 - zeros) as nat) as int;
                assert(half * (2 * down) == FINE && 2 * down <= FINE) by (nonlinear_arith)
                    requires
                        up == 2 * half,
                        up * down == FINE,
                        0 < half,
                        0 < down,
                ;
            }
            down = 2 * down;
            up = up / 2;
            zeros = zeros + 1;
            proof {
                self.lemma_split(up as int, down as int);
            }
            whole = self.whole as u128 * up + self.part / down;
        }
        let rest: u128 = self.part % down;
        let digits: u128 = if 2 * rest > down || (2 * rest == down && whole % 2 == 1) {
            whole + 1
        } else {
            whole
        };
        proof {
            crate::precision::lemma_nearest_unfolded(value, 1, zeros as nat, DOUBLE as int);
            assert(1 * pow2(zeros as nat) == down);
            assert(value < down * DOUBLE) by (nonlinear_arith)
                requires
                    value == whole * down + rest,
                    rest < down,
                    whole + 1 <= DOUBLE,
                    0 < down,
            ;
            vstd::arithmetic::div_mod::lemma_fundamental_div_mod_converse(
                value,
                down as int,
                whole as int,
                rest as int,
            );
            assert(digits == crate::precision::to_even(value, down as int));
        }
        Fixed::from_rounded(Rounded { digits: digits as u64, zeros })
    }

    /// A number, cut at a power of two within its rest.
    proof fn lemma_split(self, up: int, down: int)
        requires
            self.wf(),
            self.whole < 0x80_0000_0000,
            up * down == FINE,
            0 < up <= 0x10_0000_0000_0000,
            0 < down,
        ensures
            self.whole * up + self.part as int / down == self.value() / down,
            self.value() == (self.whole * up + self.part as int / down) * down + self.part as int
                % down,
            0 <= self.part as int % down < down,
            0 <= self.whole * up <= 0x80_0000_0000 * 0x10_0000_0000_0000,
            0 <= self.part as int / down <= self.part,
    {
        let (q, r) = (self.part as int / down, self.part as int % down);
        vstd::arithmetic::div_mod::lemma_fundamental_div_mod(self.part as int, down);
        vstd::arithmetic::div_mod::lemma_div_pos_is_pos(self.part as int, down);
        let whole = self.whole as int;
        assert(whole * FINE + (down * q + r) == (whole * up + q) * down + r) by (nonlinear_arith)
            requires
                up * down == FINE,
        ;
        vstd::arithmetic::div_mod::lemma_fundamental_div_mod_converse(
            self.value(),
            down,
            whole * up + q,
            r,
        );
        assert(0 <= whole * up <= 0x80_0000_0000 * 0x10_0000_0000_0000) by (nonlinear_arith)
            requires
                0 <= whole <= 0x80_0000_0000,
                0 < up <= 0x10_0000_0000_0000,
        ;
        assert(q <= self.part) by (nonlinear_arith)
            requires
                self.part == down * q + r,
                0 <= r,
                0 < down,
                0 <= q,
        ;
    }
}

/// A number that may be negative.
#[derive(Clone, Copy, Debug, PartialEq, Eq, Structural)]
pub struct Signed {
    pub negative: bool,
    pub size: Fixed,
}

/// A number as it is written: a zero has no sign.
pub open spec fn signed_of(value: int) -> Signed {
    let size = if value < 0 {
        -value
    } else {
        value
    };
    Signed {
        negative: value < 0,
        size: Fixed { whole: (size / FINE as int) as u64, part: (size % FINE as int) as u128 },
    }
}

impl Signed {
    pub open spec fn value(self) -> int {
        if self.negative {
            -self.size.value()
        } else {
            self.size.value()
        }
    }

    pub open spec fn wf(self) -> bool {
        self.size.wf()
    }

    /// The number as it is written.
    pub fn written(self) -> (same: Self)
        requires
            self.wf(),
        ensures
            same == signed_of(self.value()),
    {
        proof {
            vstd::arithmetic::div_mod::lemma_fundamental_div_mod_converse(
                self.size.value(),
                FINE as int,
                self.size.whole as int,
                self.size.part as int,
            );
        }
        if self.size.whole == 0 && self.size.part == 0 {
            Signed { negative: false, size: self.size }
        } else {
            self
        }
    }

    /// A whole number.
    pub fn from_whole(whole: u32) -> (signed: Self)
        ensures
            signed.wf(),
            signed.value() == whole * FINE,
            signed.size.whole == whole,
    {
        Signed { negative: false, size: Fixed { whole: whole as u64, part: 0 } }
    }

    pub fn negated(self) -> (negated: Self)
        ensures
            negated.value() == -self.value(),
            negated.size == self.size,
    {
        Signed { negative: !self.negative, size: self.size }
    }

    /// Half of the number, rounded towards zero.
    pub fn halved(self) -> (half: Self)
        requires
            self.wf(),
        ensures
            half.wf(),
            half.value() == half_of(self.value()),
            half.size.whole <= self.size.whole,
    {
        Signed { negative: self.negative, size: self.size.halved() }
    }

    /// The sum of two numbers, rounded to double precision.
    pub fn sum(self, other: Self) -> (sum: Self)
        requires
            self.wf(),
            other.wf(),
            self.size.whole < 0x20_0000_0000,
            other.size.whole < 0x20_0000_0000,
        ensures
            sum.wf(),
            sum.value() == signed_double(self.value() + other.value()),
    {
        let exact = if self.negative == other.negative {
            Signed { negative: self.negative, size: self.size.plus(other.size) }
        } else if other.size.at_most(self.size) {
            Signed { negative: self.negative, size: self.size.minus(other.size) }
        } else {
            Signed { negative: other.negative, size: other.size.minus(self.size) }
        };
        proof {
            if exact.size.value() == 0 {
                crate::precision::lemma_nearest_exact(0, 1, DOUBLE as int);
            }
        }
        Signed { negative: exact.negative, size: exact.size.rounded() }
    }
}

} // verus!
