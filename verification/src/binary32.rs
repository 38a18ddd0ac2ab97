//! IEEE 754 single-precision values, held by their bit patterns.
//!
//! Telemetry packets carry `binary32` numbers. This module orders, clamps and
//! tests them exactly; it performs no rounding arithmetic.
use vstd::arithmetic::power2::{lemma_pow2_pos, lemma_pow2_strictly_increases, pow2};
use vstd::prelude::*;

verus! {

/// Bit pattern of the smallest negative number: the sign bit alone.
pub const SIGN_BIT: u32 = 0x8000_0000;

/// Bit pattern of positive infinity.
pub const INFINITY_BITS: u32 = 0x7f80_0000;

/// Number of patterns that share one exponent.
pub const FRACTION_SPAN: u32 = 0x0080_0000;

/// Bit pattern of zero.
pub const ZERO_BITS: u32 = 0;

/// Bit pattern of one.
pub const ONE_BITS: u32 = 0x3f80_0000;

/// Bit pattern of minus one.
pub const MINUS_ONE_BITS: u32 = 0xbf80_0000;

/// A single-precision number given by its bit pattern.
#[derive(Debug, Clone, Copy, PartialEq, Eq, Structural)]
pub struct Binary32 {
    pub bits: u32,
}

/// The number with the given pattern.
pub open spec fn num(bits: u32) -> Binary32 {
    Binary32 { bits }
}

/// The number with the given pattern.
pub fn number(bits: u32) -> (r: Binary32)
    ensures
        r == num(bits),
{
    Binary32 { bits }
}

impl Binary32 {
    /// Whether the sign bit is set.
    pub open spec fn negative(self) -> bool {
        self.bits >= SIGN_BIT
    }

    /// The pattern without its sign bit.
    pub open spec fn magnitude(self) -> int {
        if self.bits >= SIGN_BIT {
            self.bits - SIGN_BIT
        } else {
            self.bits as int
        }
    }

    /// Not a number.
    pub open spec fn nan(self) -> bool {
        self.magnitude() > INFINITY_BITS
    }

    /// Neither infinite nor not-a-number.
    pub open spec fn finite(self) -> bool {
        self.magnitude() < INFINITY_BITS
    }

    /// The position of the number among all representable numbers: zero for
    /// both zeros, and one more for each next larger number.
    pub open spec fn rank(self) -> int {
        if self.bits >= SIGN_BIT {
            -self.magnitude()
        } else {
            self.magnitude()
        }
    }

    /// The exact value of a finite number in units of two to the power -149,
    /// the smallest positive number of the format.
    pub open spec fn value(self) -> int {
        if self.bits >= SIGN_BIT {
            -magnitude_value(self.magnitude())
        } else {
            magnitude_value(self.magnitude())
        }
    }

    /// Whether `self < other` holds numerically. False if either is not a number.
    pub open spec fn below(self, other: Self) -> bool {
        !self.nan() && !other.nan() && self.rank() < other.rank()
    }

    /// Whether `self <= other` holds numerically. False if either is not a number.
    pub open spec fn at_most(self, other: Self) -> bool {
        !self.nan() && !other.nan() && self.rank() <= other.rank()
    }

    /// The larger of two numbers; a value that is not a number yields to the
    /// other, and the first of two equal values is taken.
    pub open spec fn larger(self, other: Self) -> Self {
        if self.nan() || self.below(other) {
            other
        } else {
            self
        }
    }

    /// The smaller of two numbers; a value that is not a number yields to the
    /// other, and the first of two equal values is taken.
    pub open spec fn smaller(self, other: Self) -> Self {
        if self.nan() || other.below(self) {
            other
        } else {
            self
        }
    }

    /// The number confined to `low..=high`. Not-a-number stays as it is.
    pub open spec fn clamped(self, low: Self, high: Self) -> Self {
        if self.below(low) {
            low
        } else if high.below(self) {
            high
        } else {
            self
        }
    }

    /// A signed key that grows with the number.
    fn key(self) -> (r: i64)
        ensures
            r == self.rank(),
    {
        if self.bits >= SIGN_BIT {
            -((self.bits - SIGN_BIT) as i64)
        } else {
            self.bits as i64
        }
    }

    /// Whether the value is not a number.
    pub fn is_nan(self) -> (r: bool)
        ensures
            r == self.nan(),
    {
        if self.bits >= SIGN_BIT {
            self.bits - SIGN_BIT > INFINITY_BITS
        } else {
            self.bits > INFINITY_BITS
        }
    }

    /// Whether the value is neither infinite nor not-a-number.
    pub fn is_finite(self) -> (r: bool)
        ensures
            r == self.finite(),
    {
        if self.bits >= SIGN_BIT {
            self.bits - SIGN_BIT < INFINITY_BITS
        } else {
            self.bits < INFINITY_BITS
        }
    }

    /// Numeric `self < other`.
    pub fn lt(self, other: Self) -> (r: bool)
        ensures
            r == self.below(other),
    {
        !self.is_nan() && !other.is_nan() && self.key() < other.key()
    }

    /// Numeric `self <= other`.
    pub fn le(self, other: Self) -> (r: bool)
        ensures
            r == self.at_most(other),
    {
        !self.is_nan() && !other.is_nan() && self.key() <= other.key()
    }

    /// The larger of the two.
    pub fn max(self, other: Self) -> (r: Self)
        ensures
            r == self.larger(other),
    {
        if self.is_nan() || self.lt(other) {
            other
        } else {
            self
        }
    }

    /// The smaller of the two.
    pub fn min(self, other: Self) -> (r: Self)
        ensures
            r == self.smaller(other),
    {
        if self.is_nan() || other.lt(self) {
            other
        } else {
            self
        }
    }

    /// The value confined to `low..=high`.
    pub fn clamp(self, low: Self, high: Self) -> (r: Self)
        requires
            low.at_most(high),
        ensures
            r == self.clamped(low, high),
    {
        if self.lt(low) {
            low
        } else if high.lt(self) {
            high
        } else {
            self
        }
    }

    /// The value confined to the range from zero to one.
    pub fn clamp_unit(self) -> (r: Self)
        ensures
            r == self.unit(),
    {
        self.clamp(Binary32 { bits: ZERO_BITS }, Binary32 { bits: ONE_BITS })
    }

    /// The value confined to the range from zero to one.
    pub open spec fn unit(self) -> Self {
        self.clamped((Binary32 { bits: ZERO_BITS }), (Binary32 { bits: ONE_BITS }))
    }

    /// The value confined to the range from minus one to one.
    pub open spec fn signed_unit(self) -> Self {
        self.clamped((Binary32 { bits: MINUS_ONE_BITS }), (Binary32 { bits: ONE_BITS }))
    }

    /// The value confined to the range from minus one to one.
    pub fn clamp_signed_unit(self) -> (r: Self)
        ensures
            r == self.signed_unit(),
    {
        self.clamp(Binary32 { bits: MINUS_ONE_BITS }, Binary32 { bits: ONE_BITS })
    }

    /// Whether the value is greater than zero.
    pub fn is_positive(self) -> (r: bool)
        ensures
            r == (Binary32 { bits: ZERO_BITS }).below(self),
    {
        Binary32 { bits: ZERO_BITS }.lt(self)
    }

    /// Among finite numbers the order of ranks is the order of values.
    pub proof fn lemma_rank_orders_values(self, other: Self)
        requires
            self.finite(),
            other.finite(),
        ensures
            self.rank() < other.rank() <==> self.value() < other.value(),
            self.rank() == other.rank() <==> self.value() == other.value(),
    {
        let a = self.magnitude();
        let b = other.magnitude();
        assert(magnitude_value(0) == 0);
        lemma_magnitude_value_increases(a, b);
        lemma_magnitude_value_increases(b, a);
        lemma_magnitude_value_increases(0, a);
        lemma_magnitude_value_increases(0, b);
    }

    /// A clamped number lies within the bounds unless it is not a number, and
    /// a number that already lies within them is unchanged.
    pub proof fn law_clamped_stays_within(self, low: Self, high: Self)
        requires
            low.at_most(high),
        ensures
            !self.nan() ==> low.at_most(self.clamped(low, high)) && self.clamped(low, high).at_most(high),
            low.at_most(self) && self.at_most(high) ==> self.clamped(low, high) == self,
            self.clamped(low, high).clamped(low, high) == self.clamped(low, high),
    {
    }
}

/// The value one in units of the smallest positive number.
pub open spec fn unit_value() -> int {
    pow2(149) as int
}

/// The value of a finite non-negative pattern in units of the smallest
/// positive number: a significand scaled by a power of two.
pub open spec fn magnitude_value(magnitude: int) -> int {
    let exponent = magnitude / (FRACTION_SPAN as int);
    let fraction = magnitude % (FRACTION_SPAN as int);
    if exponent == 0 {
        fraction
    } else {
        (FRACTION_SPAN + fraction) * pow2((exponent - 1) as nat)
    }
}

pub proof fn lemma_magnitude_value_increases(a: int, b: int)
    requires
        0 <= a,
        0 <= b,
    ensures
        a < b ==> magnitude_value(a) < magnitude_value(b),
{
    if a < b {
        let span = FRACTION_SPAN as int;
        let (ea, fa) = (a / span, a % span);
        let (eb, fb) = (b / span, b % span);
        vstd::arithmetic::div_mod::lemma_div_is_ordered(a, b, span);
        vstd::arithmetic::div_mod::lemma_fundamental_div_mod(a, span);
        vstd::arithmetic::div_mod::lemma_fundamental_div_mod(b, span);
        assert(0 <= fa < span && 0 <= fb < span);
        assert(ea >= 0) by {
            vstd::arithmetic::div_mod::lemma_div_pos_is_pos(a, span);
        }
        if ea == eb {
            assert(fa < fb);
            if ea > 0 {
                let p = pow2((ea - 1) as nat) as int;
                lemma_pow2_pos((ea - 1) as nat);
                assert((span + fa) * p < (span + fb) * p) by (nonlinear_arith)
                    requires
                        fa < fb,
                        p > 0,
                ;
            }
        } else {
            let q = pow2((eb - 1) as nat) as int;
            lemma_pow2_pos((eb - 1) as nat);
            assert((span + fb) * q >= span * q) by (nonlinear_arith)
                requires
                    fb >= 0,
                    q > 0,
            ;
            if ea == 0 {
                assert(span * q >= span) by (nonlinear_arith)
                    requires
                        q >= 1,
                        span > 0,
                ;
            } else {
                let p = pow2((ea - 1) as nat) as int;
                lemma_pow2_pos((ea - 1) as nat);
                vstd::arithmetic::power2::lemma_pow2_unfold(ea as nat);
                assert(pow2(ea as nat) == 2 * p);
                if ea < eb - 1 {
                    lemma_pow2_strictly_increases(ea as nat, (eb - 1) as nat);
                }
                assert(q >= 2 * p);
                assert((span + fa) * p < span * q) by (nonlinear_arith)
                    requires
                        fa < span,
                        p > 0,
                        q >= 2 * p,
                        span > 0,
                ;
            }
        }
    }
}

} // verus!
