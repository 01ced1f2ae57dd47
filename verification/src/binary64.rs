//! Binary64 numbers, held as bit patterns. Coordinates, scales and scroll
//! distances pass through the library in this form; it tests and compares
//! them exactly and leaves arithmetic to its callers.

use vstd::arithmetic::div_mod::lemma_div_denominator;
use vstd::arithmetic::power2::{
    lemma2_to64, lemma2_to64_rest, lemma_pow2_adds, lemma_pow2_pos, lemma_pow2_strictly_increases,
    lemma_pow2_unfold, pow2,
};
use vstd::prelude::*;

verus! {

/// A binary64 number by its bit pattern.
#[derive(Clone, Copy, Debug, PartialEq, Eq, Structural)]
pub struct Real {
    pub bits: u64,
}

impl View for Real {
    type V = Real;

    open spec fn view(&self) -> Real {
        *self
    }
}

/// The size of a number with the given exponent and fraction fields, in the
/// unit of the smallest positive number.
pub open spec fn size(exponent: nat, fraction: nat) -> nat {
    if exponent == 0 {
        fraction
    } else {
        (0x10_0000_0000_0000 + fraction) * pow2((exponent - 1) as nat)
    }
}

impl Real {
    /// Whether the sign bit is set.
    pub open spec fn negative(self) -> bool {
        self.bits >= 0x8000_0000_0000_0000
    }

    /// The bit pattern without the sign bit.
    pub open spec fn magnitude(self) -> nat {
        (self.bits % 0x8000_0000_0000_0000) as nat
    }

    /// The exponent field.
    pub open spec fn exponent(self) -> nat {
        self.magnitude() / 0x10_0000_0000_0000
    }

    /// The fraction field.
    pub open spec fn fraction(self) -> nat {
        self.magnitude() % 0x10_0000_0000_0000
    }

    /// Neither infinite nor a NaN.
    pub open spec fn finite(self) -> bool {
        self.exponent() < 2047
    }

    /// Not a number.
    pub open spec fn nan(self) -> bool {
        self.exponent() == 2047 && self.fraction() != 0
    }

    /// The number as a multiple of the smallest positive number, so that one
    /// is 2 to the power 1074. An infinity counts as the next power of two
    /// above the largest finite number.
    pub open spec fn units(self) -> int {
        if self.negative() {
            -(size(self.exponent(), self.fraction()) as int)
        } else {
            size(self.exponent(), self.fraction()) as int
        }
    }

    /// The number without its sign.
    pub open spec fn without_sign(self) -> Real {
        Real { bits: self.bits % 0x8000_0000_0000_0000 }
    }

    /// The number with the opposite sign.
    pub open spec fn opposite(self) -> Real {
        if self.negative() {
            Real { bits: (self.bits - 0x8000_0000_0000_0000) as u64 }
        } else {
            Real { bits: (self.bits + 0x8000_0000_0000_0000) as u64 }
        }
    }

    /// Whether the first number is the smaller; never so of a NaN.
    pub open spec fn less(self, other: Real) -> bool {
        !self.nan() && !other.nan() && self.units() < other.units()
    }

    /// Whether the first number is not the greater; never so of a NaN.
    pub open spec fn at_most(self, other: Real) -> bool {
        !self.nan() && !other.nan() && self.units() <= other.units()
    }
}

/// An integer in the unit in which `Real::units` counts.
pub open spec fn int_units(n: int) -> int {
    n * (pow2(1074) as int)
}

/// How many of its lowest bits a natural number has to lose so that 53 remain.
pub open spec fn excess_bits(n: nat) -> nat
    decreases n,
{
    if n < 0x20_0000_0000_0000 {
        0
    } else {
        excess_bits(n / 2) + 1
    }
}

/// The quotient of two natural numbers rounded to the nearest, and between two
/// that are equally near to the even one.
pub open spec fn nearest_quotient(n: nat, d: nat) -> nat {
    if 2 * (n % d) > d || (2 * (n % d) == d && (n / d) % 2 == 1) {
        n / d + 1
    } else {
        n / d
    }
}

/// An integer rounded to 53 significant bits.
pub open spec fn rounded(n: int) -> int {
    let size = if n < 0 {
        (-n) as nat
    } else {
        n as nat
    };
    let unit = pow2(excess_bits(size));
    let near = nearest_quotient(size, unit) * unit;
    if n < 0 {
        -near
    } else {
        near as int
    }
}

impl Real {
    /// Whether this is what an integer is as a binary64 number.
    pub open spec fn stands_for(self, n: int) -> bool {
        self.finite() && self.negative() == (n < 0) && self.units() == int_units(rounded(n))
    }
}

/// What an integer is as a binary64 number.
pub open spec fn double_of(n: int) -> Real {
    choose|x: Real| x.stands_for(n)
}

proof fn lemma_size_grows(e: nat, f: nat, e2: nat, f2: nat)
    requires
        f < 0x10_0000_0000_0000,
        f2 < 0x10_0000_0000_0000,
        e < e2 || (e == e2 && f < f2),
    ensures
        size(e, f) < size(e2, f2),
{
    let h: nat = 0x10_0000_0000_0000;
    if e == e2 {
        if e > 0 {
            let p = pow2((e - 1) as nat);
            lemma_pow2_pos((e - 1) as nat);
            assert((h + f) * p < (h + f2) * p) by (nonlinear_arith)
                requires
                    f < f2,
                    p > 0,
            ;
        }
    } else {
        let q = pow2((e2 - 1) as nat);
        lemma_pow2_pos((e2 - 1) as nat);
        assert((h + f2) * q >= h * q) by (nonlinear_arith)
            requires
                q > 0,
        ;
        if e == 0 {
            assert(h * q >= h) by (nonlinear_arith)
                requires
                    q >= 1,
                    h > 0,
            ;
        } else {
            let p = pow2((e - 1) as nat);
            lemma_pow2_pos((e - 1) as nat);
            lemma_pow2_unfold(e);
            if e < e2 - 1 {
                lemma_pow2_strictly_increases(e, (e2 - 1) as nat);
            }
            assert(2 * p <= q);
            assert((h + f) * p < h * (2 * p)) by (nonlinear_arith)
                requires
                    f < h,
                    p > 0,
            ;
            assert(h * (2 * p) <= h * q) by (nonlinear_arith)
                requires
                    2 * p <= q,
            ;
        }
    }
}

proof fn lemma_order_of_magnitudes(a: Real, b: Real)
    ensures
        a.magnitude() < b.magnitude() <==> size(a.exponent(), a.fraction()) < size(
            b.exponent(),
            b.fraction(),
        ),
        a.magnitude() == b.magnitude() <==> size(a.exponent(), a.fraction()) == size(
            b.exponent(),
            b.fraction(),
        ),
{
    if a.magnitude() < b.magnitude() {
        lemma_size_grows(a.exponent(), a.fraction(), b.exponent(), b.fraction());
    } else if b.magnitude() < a.magnitude() {
        lemma_size_grows(b.exponent(), b.fraction(), a.exponent(), a.fraction());
    }
}

/// Only one number stands for an integer.
proof fn lemma_double_of(x: Real, n: int)
    requires
        x.stands_for(n),
    ensures
        x == double_of(n),
{
    lemma_order_of_magnitudes(x, double_of(n));
}

impl Real {
    /// Whether the number is neither infinite nor a NaN.
    pub fn is_finite(self) -> (r: bool)
        ensures
            r == self.finite(),
    {
        (self.bits % 0x8000_0000_0000_0000) / 0x10_0000_0000_0000 < 2047
    }

    fn is_nan(self) -> (r: bool)
        ensures
            r == self.nan(),
    {
        let m: u64 = self.bits % 0x8000_0000_0000_0000;
        m / 0x10_0000_0000_0000 == 2047 && m % 0x10_0000_0000_0000 != 0
    }

    fn rank(self) -> (r: i64)
        ensures
            r == (if self.negative() {
                -(self.magnitude() as int)
            } else {
                self.magnitude() as int
            }),
    {
        let m: i64 = (self.bits % 0x8000_0000_0000_0000) as i64;
        if self.bits >= 0x8000_0000_0000_0000 {
            -m
        } else {
            m
        }
    }

    /// Whether this number is less than the other.
    pub fn lt(self, other: Real) -> (r: bool)
        ensures
            r == self.less(other),
    {
        proof {
            lemma_order_of_magnitudes(self, other);
            lemma_order_of_magnitudes(other, self);
            let zero = Real { bits: 0 };
            lemma_order_of_magnitudes(self, zero);
            lemma_order_of_magnitudes(other, zero);
        }
        !self.is_nan() && !other.is_nan() && self.rank() < other.rank()
    }

    /// Whether this number is less than the other or equal to it.
    pub fn le(self, other: Real) -> (r: bool)
        ensures
            r == self.at_most(other),
    {
        !self.is_nan() && !other.is_nan() && !other.lt(self)
    }

    /// The number without its sign.
    pub fn abs(self) -> (r: Real)
        ensures
            r == self.without_sign(),
            r.units() == (if self.units() < 0 {
                -self.units()
            } else {
                self.units()
            }),
    {
        proof {
            lemma_order_of_magnitudes(self, Real { bits: 0 });
        }
        Real { bits: self.bits % 0x8000_0000_0000_0000 }
    }

    /// The number with the opposite sign.
    pub fn negated(self) -> (r: Real)
        ensures
            r == self.opposite(),
            r.units() == -self.units(),
    {
        if self.bits >= 0x8000_0000_0000_0000 {
            Real { bits: self.bits - 0x8000_0000_0000_0000 }
        } else {
            Real { bits: self.bits + 0x8000_0000_0000_0000 }
        }
    }

    /// The number that a small natural number is.
    pub fn from_u64(n: u64) -> (r: Real)
        requires
            n < 0x20_0000_0000_0000,
        ensures
            r.finite(),
            !r.negative(),
            r.units() == int_units(n as int),
    {
        if n == 0 {
            return Real { bits: 0 };
        }
        let mut m: u64 = n;
        let mut k: u64 = 0;
        assert(pow2(0) == 1) by {
            lemma2_to64();
        }
        while m < 0x10_0000_0000_0000
            invariant
                0 < n <= m < 0x20_0000_0000_0000,
                m == n * pow2(k as nat),
                k < 53,
                pow2(k as nat) <= m,
            decreases 0x20_0000_0000_0000 - m,
        {
            proof {
                lemma_pow2_unfold((k + 1) as nat);
                let p = pow2(k as nat) as int;
                assert(n * (2 * p) == 2 * (n * p)) by (nonlinear_arith);
                if k + 1 >= 53 {
                    lemma2_to64_rest();
                    if k + 1 > 53 {
                        lemma_pow2_strictly_increases(53, (k + 1) as nat);
                    }
                }
            }
            m = 2 * m;
            k = k + 1;
        }
        let f: u64 = m - 0x10_0000_0000_0000;
        let e: u64 = 1075 - k;
        let r = Real { bits: e * 0x10_0000_0000_0000 + f };
        proof {
            assert(r.exponent() == e && r.fraction() == f);
            lemma_pow2_adds(k as nat, (1074 - k) as nat);
            let p = pow2(k as nat) as int;
            let q = pow2((1074 - k) as nat) as int;
            assert((n * p) * q == n * (p * q)) by (nonlinear_arith);
        }
        r
    }

    /// The number that a small integer is.
    pub fn from_i64(n: i64) -> (r: Real)
        requires
            -0x20_0000_0000_0000 < n < 0x20_0000_0000_0000,
        ensures
            r.finite(),
            r.units() == int_units(n as int),
    {
        if n < 0 {
            proof {
                let u = pow2(1074) as int;
                assert((-n) * u == -(n * u)) by (nonlinear_arith);
            }
            Real::from_u64((-n) as u64).negated()
        } else {
            Real::from_u64(n as u64)
        }
    }
    /// The number that a natural number is, rounded where it has more than 53
    /// significant bits.
    pub fn from_natural(n: u64) -> (r: Real)
        ensures
            r == double_of(n as int),
            r.stands_for(n as int),
    {
        if n < 0x20_0000_0000_0000 {
            let r = Real::from_u64(n);
            proof {
                lemma2_to64();
                let unit = pow2(excess_bits(n as nat));
                let near = nearest_quotient(n as nat, unit);
                assert(unit == 1 && near == n);
                assert(near * unit == near) by (nonlinear_arith)
                    requires
                        unit == 1,
                ;
                lemma_double_of(r, n as int);
            }
            return r;
        }
        let mut q: u64 = n;
        let mut unit: u64 = 1;
        let mut s: u64 = 0;
        proof {
            lemma2_to64();
            lemma2_to64_rest();
        }
        while q >= 0x20_0000_0000_0000
            invariant
                q == n as nat / pow2(s as nat),
                unit == pow2(s as nat),
                excess_bits(n as nat) == s + excess_bits(q as nat),
                n >= 0x20_0000_0000_0000,
                q >= 0x10_0000_0000_0000,
                unit * q <= n,
                unit <= 0x800,
                s <= 11,
                pow2(10) == 0x400,
                pow2(11) == 0x800,
            decreases q,
        {
            proof {
                lemma_pow2_unfold((s + 1) as nat);
                lemma_pow2_pos(s as nat);
                lemma_div_denominator(n as int, unit as int, 2);
                assert(unit * q >= unit * 0x20_0000_0000_0000) by (nonlinear_arith)
                    requires
                        q >= 0x20_0000_0000_0000,
                        unit >= 0,
                ;
                assert(unit < 0x800);
                if s < 10 {
                    lemma_pow2_strictly_increases(s as nat, 10);
                }
                assert((2 * unit) * (q / 2) <= unit * q) by (nonlinear_arith)
                    requires
                        unit >= 0,
                        q >= 0,
                ;
            }
            q = q / 2;
            unit = 2 * unit;
            s = s + 1;
        }
        let rest: u64 = n % unit;
        let near: u64 = if 2 * rest > unit || (2 * rest == unit && q % 2 == 1) {
            q + 1
        } else {
            q
        };
        let r = if near == 0x20_0000_0000_0000 {
            Real { bits: (1076 + s) * 0x10_0000_0000_0000 }
        } else {
            Real { bits: (1075 + s) * 0x10_0000_0000_0000 + (near - 0x10_0000_0000_0000) }
        };
        proof {
            assert(near == nearest_quotient(n as nat, unit as nat));
            let p = pow2(s as nat) as int;
            let u = pow2(1074) as int;
            lemma_pow2_adds(s as nat, 1074);
            lemma_pow2_unfold((s + 1075) as nat);
            assert(near * (p * u) == (near * p) * u) by (nonlinear_arith);
            assert(0x10_0000_0000_0000int * (2 * (p * u)) == 0x20_0000_0000_0000int * (p * u))
                by (nonlinear_arith);
            assert(r.units() == near * (p * u));
            lemma_double_of(r, n as int);
        }
        r
    }

    /// The number that an integer is, rounded where it has more than 53
    /// significant bits.
    pub fn from_integer(n: i64) -> (r: Real)
        ensures
            r == double_of(n as int),
            r.stands_for(n as int),
    {
        if n >= 0 {
            return Real::from_natural(n as u64);
        }
        let size: u64 = (-(n as i128)) as u64;
        let x = Real::from_natural(size);
        proof {
            let near = rounded(size as int);
            let u = pow2(1074) as int;
            assert((-near) * u == -(near * u)) by (nonlinear_arith);
            lemma_double_of(x.opposite(), n as int);
        }
        x.negated()
    }
}

/// A number without its sign is as far from zero and not below it, and the
/// number with the opposite sign lies as far on the other side.
pub proof fn law_signs_are_turned(x: Real)
    ensures
        x.without_sign().units() == (if x.units() < 0 {
            -x.units()
        } else {
            x.units()
        }),
        x.opposite().units() == -x.units(),
        x.without_sign().finite() == x.finite(),
        x.opposite().finite() == x.finite(),
{
    lemma_order_of_magnitudes(x, Real { bits: 0 });
}

/// The number that is meant by 120 or by 1 is exactly that.
pub proof fn lemma_small_doubles()
    ensures
        double_of(120).units() == int_units(120),
        double_of(120).finite(),
        double_of(1).units() == int_units(1),
        double_of(1).finite(),
{
    lemma2_to64();
    lemma2_to64_rest();
    lemma_pow2_adds(46, 1028);
    lemma_pow2_adds(52, 1022);
    let x = Real { bits: 0x405e_0000_0000_0000 };
    let y = Real { bits: 0x3ff0_0000_0000_0000 };
    assert(pow2(46) == 0x4000_0000_0000);
    assert(pow2(52) == 0x10_0000_0000_0000);
    let p = pow2(1028) as int;
    assert(0x1e_0000_0000_0000 * p == 120 * (0x4000_0000_0000 * p)) by (nonlinear_arith);
    assert(x.exponent() == 1029 && x.fraction() == 0xe_0000_0000_0000);
    assert(y.exponent() == 1023 && y.fraction() == 0);
    assert(rounded(120) == 120) by {
        let unit = pow2(excess_bits(120));
        assert(unit == 1);
        assert(nearest_quotient(120, unit) == 120);
        assert(120 * unit == 120) by (nonlinear_arith)
            requires
                unit == 1,
        ;
    }
    assert(rounded(1) == 1) by {
        let unit = pow2(excess_bits(1));
        assert(unit == 1);
        assert(nearest_quotient(1, unit) == 1);
        assert(1 * unit == 1) by (nonlinear_arith)
            requires
                unit == 1,
        ;
    }
    assert(x.stands_for(120));
    assert(y.stands_for(1));
}

/// Between finite numbers the comparison is that of the numbers themselves,
/// and one of the two orders or equality always holds.
pub proof fn law_order_is_total_on_finite(a: Real, b: Real)
    requires
        a.finite(),
        b.finite(),
    ensures
        a.less(b) || b.less(a) || (a.at_most(b) && b.at_most(a)),
        !(a.less(b) && b.at_most(a)),
{
}

proof fn lemma_normal_double(n: nat, m: nat, k: nat) -> (x: Real)
    requires
        0 < n <= m < 0x20_0000_0000_0000,
        m == n * pow2(k),
        k < 53,
        pow2(k) <= m,
    ensures
        x.finite(),
        !x.negative(),
        x.units() == int_units(n as int),
    decreases 0x20_0000_0000_0000 - m,
{
    if m < 0x10_0000_0000_0000 {
        lemma_pow2_unfold(k + 1);
        let p = pow2(k) as int;
        assert(n * (2 * p) == 2 * (n * p)) by (nonlinear_arith);
        if k + 1 >= 53 {
            lemma2_to64_rest();
        }
        lemma_normal_double(n, 2 * m, k + 1)
    } else {
        let f = m - 0x10_0000_0000_0000;
        let e = 1075 - k;
        let x = Real { bits: (e * 0x10_0000_0000_0000 + f) as u64 };
        assert(x.exponent() == e && x.fraction() == f);
        lemma_pow2_adds(k, (1074 - k) as nat);
        let p = pow2(k) as int;
        let q = pow2((1074 - k) as nat) as int;
        assert((n * p) * q == n * (p * q)) by (nonlinear_arith);
        x
    }
}

/// An integer of no more than 53 bits is exactly the number that stands for it.
pub proof fn law_small_integers_are_exact(n: int)
    requires
        -0x20_0000_0000_0000 < n < 0x20_0000_0000_0000,
    ensures
        double_of(n).finite(),
        double_of(n).units() == n * (pow2(1074) as int),
{
    let size = if n < 0 {
        (-n) as nat
    } else {
        n as nat
    };
    lemma2_to64();
    let unit = pow2(excess_bits(size));
    assert(unit == 1);
    assert(nearest_quotient(size, unit) == size);
    assert(size * unit == size) by (nonlinear_arith)
        requires
            unit == 1,
    ;
    assert(rounded(n) == n);
    if n == 0 {
        let zero = Real { bits: 0 };
        assert(0 * (pow2(1074) as int) == 0) by (nonlinear_arith);
        assert(zero.stands_for(n));
    } else {
        assert(size * pow2(0) == size) by (nonlinear_arith)
            requires
                pow2(0) == 1,
        ;
        let x = lemma_normal_double(size, size, 0);
        if n > 0 {
            assert(x.stands_for(n));
        } else {
            law_signs_are_turned(x);
            let u = pow2(1074) as int;
            assert((-n) * u == -(n * u)) by (nonlinear_arith);
            assert(x.opposite().stands_for(n));
        }
    }
}

} // verus!
