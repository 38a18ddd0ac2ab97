//! Correctly rounded single-precision arithmetic.
//!
//! Sums, differences, products and quotients are the representable numbers
//! nearest to the exact result; of two equally near ones the one with the even
//! significand is taken, and results beyond the largest finite number become
//! infinite.
use crate::binary32::{
    lemma_magnitude_value_increases, magnitude_value, unit_value, Binary32, FRACTION_SPAN, INFINITY_BITS,
    ONE_BITS, SIGN_BIT, ZERO_BITS,
};
use vstd::arithmetic::power2::{lemma2_to64, lemma_pow2_adds, lemma_pow2_pos, lemma_pow2_strictly_increases, pow2};
use vstd::bits::{lemma_u64_pow2_no_overflow, lemma_u64_shl_is_mul};
use vstd::prelude::*;

verus! {

/// Pattern of the not-a-number that operations return.
pub const NAN_BITS: u32 = 0x7fc0_0000;

/// Pattern of one half.
pub const HALF_BITS: u32 = 0x3f00_0000;

/// Pattern of the smallest number whose double is beyond the range.
const LAST_BINADE_BITS: u32 = 0x7f00_0000;

/// Twice the number of patterns that share one exponent.
pub const DOUBLE_SPAN: u32 = 0x0100_0000;

/// Number of patterns that share one exponent, for wide counts.
const WIDE_SPAN: u64 = 0x0080_0000;

/// Exponent by which exact results are scaled so that they become integers.
pub const SCALE: u32 = 192;

/// Whether the magnitude `m` is the correct rounding of the exact non-negative
/// value `n / d`, in units of the smallest positive number: no neighbouring
/// magnitude is nearer, and none is equally near unless `m` is even.
pub open spec fn rounds_to(n: int, d: int, m: int) -> bool {
    &&& 0 <= m <= INFINITY_BITS
    &&& m > 0 ==> {
        let middle = (magnitude_value(m - 1) + magnitude_value(m)) * d;
        2 * n > middle || (2 * n == middle && m % 2 == 0)
    }
    &&& m < INFINITY_BITS ==> {
        let middle = (magnitude_value(m) + magnitude_value(m + 1)) * d;
        2 * n < middle || (2 * n == middle && m % 2 == 0)
    }
}

/// The magnitude to which the exact value `n / d` is rounded.
pub open spec fn nearest(n: int, d: int) -> int {
    choose|m: int| rounds_to(n, d, m)
}

/// The number with the given sign and magnitude.
pub open spec fn signed(negative: bool, magnitude: int) -> Binary32 {
    Binary32 {
        bits: (if negative {
            magnitude + SIGN_BIT
        } else {
            magnitude
        }) as u32,
    }
}

/// The number nearest to an integer.
pub open spec fn whole(n: nat) -> Binary32 {
    signed(false, nearest(n * unit_value(), 1))
}

/// The size of an integer.
pub open spec fn size(n: int) -> int {
    if n < 0 {
        -n
    } else {
        n
    }
}

impl Binary32 {
    /// Whether this is an infinity.
    pub open spec fn infinite(self) -> bool {
        self.magnitude() == INFINITY_BITS
    }

    /// The sum.
    pub open spec fn sum(self, other: Self) -> Self {
        if self.nan() || other.nan() {
            Binary32 { bits: NAN_BITS }
        } else if self.infinite() && other.infinite() {
            if self == other {
                self
            } else {
                Binary32 { bits: NAN_BITS }
            }
        } else if self.infinite() {
            self
        } else if other.infinite() {
            other
        } else {
            let exact = self.value() + other.value();
            if exact == 0 {
                signed(self.negative() && other.negative(), 0)
            } else {
                signed(exact < 0, nearest(size(exact), 1))
            }
        }
    }

    /// The number with the opposite sign.
    pub open spec fn opposite(self) -> Self {
        signed(!self.negative(), self.magnitude())
    }

    /// The difference.
    pub open spec fn difference(self, other: Self) -> Self {
        self.sum(other.opposite())
    }

    /// The number without its sign.
    pub open spec fn absolute(self) -> Self {
        signed(false, self.magnitude())
    }

    /// The product.
    pub open spec fn product(self, other: Self) -> Self {
        let negative = self.negative() != other.negative();
        if self.nan() || other.nan() {
            Binary32 { bits: NAN_BITS }
        } else if self.infinite() || other.infinite() {
            if self.magnitude() == 0 || other.magnitude() == 0 {
                Binary32 { bits: NAN_BITS }
            } else {
                signed(negative, INFINITY_BITS as int)
            }
        } else {
            signed(negative, nearest(size(self.value()) * size(other.value()), unit_value()))
        }
    }

    /// The quotient.
    pub open spec fn quotient(self, other: Self) -> Self {
        let negative = self.negative() != other.negative();
        if self.nan() || other.nan() || (self.infinite() && other.infinite()) || (self.magnitude() == 0
            && other.magnitude() == 0) {
            Binary32 { bits: NAN_BITS }
        } else if self.infinite() || other.magnitude() == 0 {
            signed(negative, INFINITY_BITS as int)
        } else if other.infinite() {
            signed(negative, 0)
        } else {
            signed(negative, nearest(size(self.value()) * unit_value(), size(other.value())))
        }
    }

    /// The largest integer not above a positive number, and zero for others;
    /// at most `u64::MAX`.
    pub open spec fn whole_part(self) -> int {
        if self.nan() || self.negative() {
            0
        } else if self.infinite() || self.value() / unit_value() > u64::MAX {
            u64::MAX as int
        } else {
            self.value() / unit_value()
        }
    }

    /// The smallest integer not below a positive number, and zero for others;
    /// at most `u64::MAX`.
    pub open spec fn ceiling(self) -> int {
        if self.nan() || self.negative() {
            0
        } else if self.infinite() || self.value() / unit_value() >= u64::MAX {
            u64::MAX as int
        } else if self.value() % unit_value() == 0 {
            self.value() / unit_value()
        } else {
            self.value() / unit_value() + 1
        }
    }

    /// The integer nearest to a positive number, the larger of two equally
    /// near ones, and zero for others; at most `u64::MAX`.
    pub open spec fn nearest_integer(self) -> int {
        if self.nan() || self.negative() {
            0
        } else if self.infinite() || self.value() / unit_value() >= u64::MAX {
            u64::MAX as int
        } else if 2 * (self.value() % unit_value()) < unit_value() {
            self.value() / unit_value()
        } else {
            self.value() / unit_value() + 1
        }
    }

    /// What remains of the number after whole units, with its sign.
    pub open spec fn remainder_of_one(self) -> Self {
        if self.finite() {
            signed(self.negative(), nearest(size(self.value()) % unit_value(), 1))
        } else {
            Binary32 { bits: NAN_BITS }
        }
    }

    /// The remainder after whole units, made non-negative by adding one.
    pub open spec fn fraction(self) -> Self {
        let remainder = self.remainder_of_one();
        if remainder.below((Binary32 { bits: ZERO_BITS })) {
            remainder.sum((Binary32 { bits: ONE_BITS }))
        } else {
            remainder
        }
    }

    /// The significand of the magnitude.
    pub open spec fn significand(self) -> int {
        if self.magnitude() / (FRACTION_SPAN as int) == 0 {
            self.magnitude() % (FRACTION_SPAN as int)
        } else {
            FRACTION_SPAN + self.magnitude() % (FRACTION_SPAN as int)
        }
    }

    /// The exponent that scales the significand to the value.
    pub open spec fn quantum(self) -> nat {
        if self.magnitude() / (FRACTION_SPAN as int) == 0 {
            0
        } else {
            (self.magnitude() / (FRACTION_SPAN as int) - 1) as nat
        }
    }

    pub proof fn lemma_parts(self)
        ensures
            magnitude_value(self.magnitude()) == self.significand() * pow2(self.quantum()),
            size(self.value()) == magnitude_value(self.magnitude()),
            0 <= self.significand() < DOUBLE_SPAN,
            self.finite() ==> self.quantum() <= 253,
            self.quantum() > 0 ==> self.significand() >= FRACTION_SPAN,
            self.significand() == 0 <==> self.magnitude() == 0,
    {
        lemma2_to64();
        let m = self.magnitude();
        vstd::arithmetic::div_mod::lemma_fundamental_div_mod(m, FRACTION_SPAN as int);
        lemma_pow2_pos(self.quantum());
        if self.quantum() == 0 {
            assert(self.significand() * pow2(0) == self.significand()) by (nonlinear_arith)
                requires
                    pow2(0) == 1,
            ;
        }
        lemma_magnitude_value_increases(0, m);
        assert(magnitude_value(0) == 0);
    }

    /// Splits a magnitude into significand and exponent.
    pub(crate) fn parts(self) -> (r: (u32, u32))
        ensures
            r.0 == self.significand(),
            r.1 == self.quantum(),
    {
        let magnitude: u32 = if self.bits >= SIGN_BIT {
            self.bits - SIGN_BIT
        } else {
            self.bits
        };
        let exponent: u32 = magnitude / FRACTION_SPAN;
        let fraction: u32 = magnitude % FRACTION_SPAN;
        if exponent == 0 {
            (fraction, 0)
        } else {
            (FRACTION_SPAN + fraction, exponent - 1)
        }
    }
}

pub proof fn lemma_encoding(quantum: nat, significand: int)
    requires
        0 <= significand <= DOUBLE_SPAN,
        quantum == 0 || significand >= FRACTION_SPAN,
    ensures
        magnitude_value(quantum * FRACTION_SPAN + significand) == significand * pow2(quantum),
{
    let span = FRACTION_SPAN as int;
    let m = quantum * span + significand;
    lemma2_to64();
    if significand < span {
        vstd::arithmetic::div_mod::lemma_fundamental_div_mod_converse(m, span, 0, significand);
    } else if significand < 2 * span {
        vstd::arithmetic::div_mod::lemma_fundamental_div_mod_converse(m, span, (quantum + 1) as int, significand - span);
    } else {
        vstd::arithmetic::div_mod::lemma_fundamental_div_mod_converse(m, span, (quantum + 2) as int, 0);
        vstd::arithmetic::power2::lemma_pow2_unfold((quantum + 1) as nat);
        assert(span * pow2((quantum + 1) as nat) == (2 * span) * pow2(quantum)) by (nonlinear_arith)
            requires
                pow2((quantum + 1) as nat) == 2 * pow2(quantum),
        ;
    }
}

/// At most one magnitude is the correct rounding of a value.
pub proof fn lemma_rounding_is_unique(n: int, d: int, a: int, b: int)
    requires
        d > 0,
        rounds_to(n, d, a),
        rounds_to(n, d, b),
    ensures
        a == b,
{
    lemma_rounding_order(n, d, a, b);
    lemma_rounding_order(n, d, b, a);
}

proof fn lemma_rounding_order(n: int, d: int, a: int, b: int)
    requires
        d > 0,
        rounds_to(n, d, a),
        rounds_to(n, d, b),
    ensures
        a >= b,
{
    if a < b {
        let low = magnitude_value(a) + magnitude_value(a + 1);
        let high = magnitude_value(b - 1) + magnitude_value(b);
        lemma_magnitude_value_increases(a, b - 1);
        lemma_magnitude_value_increases(a + 1, b);
        if a + 1 < b {
            assert(low * d < high * d) by (nonlinear_arith)
                requires
                    low < high,
                    d > 0,
            ;
        }
    }
}

/// Rounding decided between two neighbouring multiples of a quantum.
proof fn lemma_rounded(n: int, d: int, quantum: nat, kept: int, up: bool)
    requires
        d > 0,
        0 <= kept < DOUBLE_SPAN,
        quantum == 0 || kept >= FRACTION_SPAN,
        ({
            let a = pow2(quantum) * d;
            &&& kept * a <= n < (kept + 1) * a
            &&& up ==> 2 * n > (2 * kept + 1) * a || (2 * n == (2 * kept + 1) * a && kept % 2 == 1)
            &&& !up ==> 2 * n < (2 * kept + 1) * a || (2 * n == (2 * kept + 1) * a && kept % 2 == 0)
        }),
    ensures
        ({
            let m = quantum * FRACTION_SPAN + kept + (if up {
                1int
            } else {
                0int
            });
            rounds_to(n, d, if m < INFINITY_BITS {
                m
            } else {
                INFINITY_BITS as int
            })
        }),
{
    let p = pow2(quantum) as int;
    let a = p * d;
    let base = quantum * FRACTION_SPAN + kept;
    lemma_pow2_pos(quantum);
    assert(a > 0) by (nonlinear_arith)
        requires
            p > 0,
            d > 0,
            a == p * d,
    ;
    lemma_encoding(quantum, kept);
    lemma_encoding(quantum, kept + 1);
    let v0 = magnitude_value(base);
    let v1 = magnitude_value(base + 1);
    assert((v0 + v1) * d == (2 * kept + 1) * a) by (nonlinear_arith)
        requires
            v0 == kept * p,
            v1 == (kept + 1) * p,
            a == p * d,
    ;
    assert(v0 * d == kept * a) by (nonlinear_arith)
        requires
            v0 == kept * p,
            a == p * d,
    ;
    assert(v1 * d == (kept + 1) * a) by (nonlinear_arith)
        requires
            v1 == (kept + 1) * p,
            a == p * d,
    ;
    assert(base % 2 == kept % 2);
    let inf = INFINITY_BITS as int;
    if up {
        let v2 = magnitude_value(base + 2);
        lemma_magnitude_value_increases(base + 1, base + 2);
        assert((v1 + v2) * d > 2 * (v1 * d)) by (nonlinear_arith)
            requires
                v1 < v2,
                d > 0,
        ;
        if base + 1 > inf {
            lemma_infinite(n, d, base);
        }
    } else {
        if base > 0 {
            let below = magnitude_value(base - 1);
            lemma_magnitude_value_increases(base - 1, base);
            assert((below + v0) * d < 2 * (v0 * d)) by (nonlinear_arith)
                requires
                    below < v0,
                    d > 0,
            ;
            if base > inf {
                lemma_infinite(n, d, base);
            }
        }
    }
}

proof fn lemma_infinite(n: int, d: int, m: int)
    requires
        d > 0,
        m >= INFINITY_BITS,
        magnitude_value(m) * d <= n,
    ensures
        rounds_to(n, d, INFINITY_BITS as int),
{
    let inf = INFINITY_BITS as int;
    let last = magnitude_value(inf - 1);
    let top = magnitude_value(inf);
    let v = magnitude_value(m);
    lemma_magnitude_value_increases(inf - 1, inf);
    lemma_magnitude_value_increases(inf, m);
    assert((last + top) * d < 2 * (v * d)) by (nonlinear_arith)
        requires
            last < top,
            top <= v,
            d > 0,
    ;
}

/// Carries the bounds on a scaled value over to the value itself.
proof fn lemma_unscaled(n: int, t: int, w: int, sig: int, p: int, a: int, kept: int, rem: int, inexact: bool)
    requires
        t > 0,
        w > 0,
        p > 0,
        p * w == t * a,
        sig == kept * p + rem,
        0 <= rem < p,
        inexact ==> sig * w < n * t < (sig + 1) * w,
        !inexact ==> n * t == sig * w,
    ensures
        kept * a <= n < (kept + 1) * a,
        2 * rem > p ==> 2 * n > (2 * kept + 1) * a,
        2 * rem < p && (!inexact || 2 * (rem + 1) <= p) ==> 2 * n < (2 * kept + 1) * a,
        2 * rem == p && inexact ==> 2 * n > (2 * kept + 1) * a,
        2 * rem == p && !inexact ==> 2 * n == (2 * kept + 1) * a,
{
    let nt = n * t;
    let sw = sig * w;
    let rw = rem * w;
    let ta = t * a;
    assert(sw == kept * ta + rw) by (nonlinear_arith)
        requires
            sw == sig * w,
            sig == kept * p + rem,
            p * w == ta,
            rw == rem * w,
    ;
    assert(0 <= rw) by (nonlinear_arith)
        requires
            rw == rem * w,
            rem >= 0,
            w > 0,
    ;
    assert(rw + w <= ta) by (nonlinear_arith)
        requires
            rw == rem * w,
            rem + 1 <= p,
            w > 0,
            p * w == ta,
    ;
    assert((sig + 1) * w == sw + w) by (nonlinear_arith)
        requires
            sw == sig * w,
    ;
    assert((kept + 1) * ta == kept * ta + ta) by (nonlinear_arith);
    assert(kept * a <= n) by (nonlinear_arith)
        requires
            kept * ta <= nt,
            ta == t * a,
            nt == n * t,
            t > 0,
    ;
    assert(n < (kept + 1) * a) by (nonlinear_arith)
        requires
            nt < (kept + 1) * ta,
            ta == t * a,
            nt == n * t,
            t > 0,
    ;
    let mid = (2 * kept + 1) * ta;
    assert(mid == 2 * (kept * ta) + ta) by (nonlinear_arith)
        requires
            mid == (2 * kept + 1) * ta,
    ;
    assert(2 * nt > mid ==> 2 * n > (2 * kept + 1) * a) by (nonlinear_arith)
        requires
            mid == (2 * kept + 1) * ta,
            ta == t * a,
            nt == n * t,
            t > 0,
    ;
    assert(2 * nt < mid ==> 2 * n < (2 * kept + 1) * a) by (nonlinear_arith)
        requires
            mid == (2 * kept + 1) * ta,
            ta == t * a,
            nt == n * t,
            t > 0,
    ;
    assert(2 * nt == mid ==> 2 * n == (2 * kept + 1) * a) by (nonlinear_arith)
        requires
            mid == (2 * kept + 1) * ta,
            ta == t * a,
            nt == n * t,
            t > 0,
    ;
    if 2 * rem > p {
        assert(2 * rw > ta) by (nonlinear_arith)
            requires
                rw == rem * w,
                2 * rem > p,
                p * w == ta,
                w > 0,
        ;
    } else if 2 * rem == p {
        assert(2 * rw == ta) by (nonlinear_arith)
            requires
                rw == rem * w,
                2 * rem == p,
                p * w == ta,
        ;
    } else {
        assert(2 * rw < ta) by (nonlinear_arith)
            requires
                rw == rem * w,
                2 * rem < p,
                p * w == ta,
                w > 0,
        ;
        if 2 * (rem + 1) <= p {
            assert(2 * rw + 2 * w <= ta) by (nonlinear_arith)
                requires
                    rw == rem * w,
                    2 * (rem + 1) <= p,
                    p * w == ta,
                    w > 0,
            ;
        }
    }
}

/// Two to the power `k`.
pub(crate) fn power_of_two(k: u32) -> (r: u128)
    requires
        k <= 126,
    ensures
        r == pow2(k as nat),
{
    let low: u32 = if k > 63 {
        63
    } else {
        k
    };
    let high: u32 = k - low;
    proof {
        lemma2_to64();
        lemma_pow2_adds(low as nat, high as nat);
        lemma_u64_pow2_no_overflow(low as nat);
        lemma_u64_pow2_no_overflow(high as nat);
        lemma_u64_shl_is_mul(1, low as u64);
        lemma_u64_shl_is_mul(1, high as u64);
        lemma_pow2_is_u128_limit();
        lemma_pow2_strictly_increases(k as nat, 128);
    }
    ((1u64 << (low as u64)) as u128) * ((1u64 << (high as u64)) as u128)
}

proof fn lemma_pow2_is_u128_limit()
    ensures
        pow2(128) == 0x1_0000_0000_0000_0000_0000_0000_0000_0000int,
{
    lemma2_to64();
    lemma_pow2_adds(64, 64);
}

pub proof fn lemma_large_powers()
    ensures
        pow2(40) == 0x100_0000_0000,
        pow2(50) == 0x4_0000_0000_0000,
        pow2(100) == 0x10_0000_0000_0000_0000_0000_0000,
{
    lemma2_to64();
    lemma_pow2_adds(20, 20);
    lemma_pow2_adds(25, 25);
    lemma_pow2_adds(50, 50);
    assert(0x4_0000_0000_0000int * 0x4_0000_0000_0000int == 0x10_0000_0000_0000_0000_0000_0000int) by (nonlinear_arith);
}

/// Whether `n` lies in the block of numbers that start with the digits `rest`.
spec fn starts_with(n: int, rest: int, shift: nat) -> bool {
    pow2(shift) * rest <= n < pow2(shift) * (rest + 1)
}

/// Cuts `width` digits off the leading digits of a number, unless that would
/// leave none.
fn cut(rest: u128, shift: u32, width: u32, power: u128, Ghost(n): Ghost<int>) -> (r: (u128, u32))
    requires
        power == pow2(width as nat),
        1 <= rest,
        rest < power * power,
        shift + width <= 1000,
        starts_with(n, rest as int, shift as nat),
    ensures
        1 <= r.0 < power,
        shift <= r.1 <= shift + width,
        starts_with(n, r.0 as int, r.1 as nat),
{
    proof {
        lemma_pow2_pos(width as nat);
    }
    if rest < power {
        return (rest, shift);
    }
    let leading: u128 = rest / power;
    proof {
        let p = power as int;
        vstd::arithmetic::div_mod::lemma_fundamental_div_mod(rest as int, p);
        let m = rest as int % p;
        let b = pow2(shift as nat) as int;
        lemma_pow2_adds(shift as nat, width as nat);
        assert((b * p) * leading <= b * rest) by (nonlinear_arith)
            requires
                rest == p * leading + m,
                m >= 0,
                b >= 0,
        ;
        assert(b * (rest + 1) <= (b * p) * (leading + 1)) by (nonlinear_arith)
            requires
                rest == p * leading + m,
                m + 1 <= p,
                b >= 0,
        ;
        assert(1 <= leading < p) by (nonlinear_arith)
            requires
                rest == p * leading + m,
                0 <= m < p,
                p <= rest < p * p,
        ;
    }
    (leading, shift + width)
}

/// The number of binary digits.
fn binary_length(n: u128) -> (r: u32)
    requires
        0 < n,
        n < pow2(126),
    ensures
        1 <= r <= 128,
        pow2((r - 1) as nat) <= n < pow2(r as nat),
{
    proof {
        lemma2_to64();
        lemma_pow2_is_u128_limit();
        lemma_pow2_adds(64, 64);
        lemma_pow2_adds(32, 32);
        assert(0x1_0000_0000_0000_0000int * 0x1_0000_0000_0000_0000int
            == 0x1_0000_0000_0000_0000_0000_0000_0000_0000int) by (nonlinear_arith);
        assert(starts_with(n as int, n as int, 0));
    }
    let (rest, shift): (u128, u32) = cut(n, 0, 64, 0x1_0000_0000_0000_0000, Ghost(n as int));
    let (rest, shift): (u128, u32) = cut(rest, shift, 32, 0x1_0000_0000, Ghost(n as int));
    let (rest, shift): (u128, u32) = cut(rest, shift, 16, 0x1_0000, Ghost(n as int));
    let (rest, shift): (u128, u32) = cut(rest, shift, 8, 0x100, Ghost(n as int));
    let (rest, shift): (u128, u32) = cut(rest, shift, 4, 0x10, Ghost(n as int));
    let (rest, shift): (u128, u32) = cut(rest, shift, 2, 4, Ghost(n as int));
    let (rest, shift): (u128, u32) = cut(rest, shift, 1, 2, Ghost(n as int));
    proof {
        vstd::arithmetic::power2::lemma_pow2_unfold((shift + 1) as nat);
    }
    shift + 1
}

/// Rounds the exact value `n / d`, which is known through its scaled binary
/// digits `sig` at the exponent `e`, and whether more digits follow.
pub(crate) fn round_scaled(sig: u128, e: u32, inexact: bool, Ghost(n): Ghost<int>, Ghost(d): Ghost<int>) -> (m: u32)
    requires
        d > 0,
        sig < pow2(100),
        e <= 1000,
        inexact ==> sig >= pow2(25),
        inexact ==> sig * (pow2(e as nat) * d) < n * pow2(SCALE as nat) < (sig + 1) * (pow2(e as nat) * d),
        !inexact ==> n * pow2(SCALE as nat) == sig * (pow2(e as nat) * d),
    ensures
        rounds_to(n, d, m as int),
        m <= INFINITY_BITS,
        m == nearest(n, d),
{
    let ghost t = pow2(SCALE as nat) as int;
    let ghost ee = pow2(e as nat) as int;
    let ghost w = ee * d;
    proof {
        lemma_pow2_pos(SCALE as nat);
        lemma_pow2_pos(e as nat);
        lemma2_to64();
        assert(w > 0) by (nonlinear_arith)
            requires
                ee > 0,
                d > 0,
                w == ee * d,
        ;
    }
    if sig == 0 {
        proof {
            assert(n == 0) by (nonlinear_arith)
                requires
                    n * t == 0 * w,
                    t > 0,
            ;
            assert(magnitude_value(0) == 0);
            assert(magnitude_value(1) == 1);
            assert(rounds_to(n, d, 0));
            assert forall|m: int| rounds_to(n, d, m) implies m == 0 by {
                lemma_rounding_is_unique(n, d, m, 0);
            }
        }
        return 0;
    }
    proof {
        lemma_pow2_strictly_increases(100, 126);
    }
    let length: u32 = binary_length(sig);
    proof {
        if length > 100 {
            if length - 1 > 100 {
                lemma_pow2_strictly_increases(100, (length - 1) as nat);
            }
            assert(false);
        }
        if inexact && length < 26 {
            if length < 25 {
                lemma_pow2_strictly_increases(length as nat, 25);
            }
            assert(false);
        }
    }
    let top: u32 = length + e;
    let quantum: u32 = if top > SCALE + 24 {
        top - SCALE - 24
    } else {
        0
    };
    let target: u32 = SCALE + quantum;
    let ghost pq = pow2(quantum as nat) as int;
    let ghost a = pq * d;
    let kept: u32;
    let up: bool;
    proof {
        lemma_pow2_pos(quantum as nat);
        lemma_pow2_adds(SCALE as nat, quantum as nat);
    }
    if e >= target {
        let k: u32 = e - target;
        proof {
            assert(!inexact);
            assert(k + length <= 24);
            lemma_pow2_adds(length as nat, k as nat);
            lemma_pow2_adds((length - 1) as nat, k as nat);
            lemma_pow2_adds(target as nat, k as nat);
            lemma_pow2_pos(k as nat);
            let pk = pow2(k as nat) as int;
            assert(sig * pk < pow2((length + k) as nat)) by (nonlinear_arith)
                requires
                    sig < pow2(length as nat),
                    pow2((length + k) as nat) == pow2(length as nat) * pk,
                    pk > 0,
            ;
            assert(sig * pk >= pow2((length - 1 + k) as nat)) by (nonlinear_arith)
                requires
                    sig >= pow2((length - 1) as nat),
                    pow2((length - 1 + k) as nat) == pow2((length - 1) as nat) * pk,
                    pk > 0,
            ;
            if length + k < 24 {
                lemma_pow2_strictly_increases((length + k) as nat, 24);
            }
            assert(pow2(24) == DOUBLE_SPAN);
            assert(pow2(23) == FRACTION_SPAN);
        }
        kept = (sig * power_of_two(k)) as u32;
        up = false;
        proof {
            let pk = pow2(k as nat) as int;
            assert(kept == sig * pk);
            assert(n * t == kept * (t * a)) by (nonlinear_arith)
                requires
                    n * t == sig * w,
                    w == ee * d,
                    ee == (t * pq) * pk,
                    kept == sig * pk,
                    a == pq * d,
            ;
            assert(n == kept * a) by (nonlinear_arith)
                requires
                    n * t == kept * (t * a),
                    t > 0,
            ;
            assert(a > 0) by (nonlinear_arith)
                requires
                    a == pq * d,
                    pq > 0,
                    d > 0,
            ;
            assert((kept + 1) * a == kept * a + a && (2 * kept + 1) * a == 2 * (kept * a) + a) by (nonlinear_arith);
            if quantum > 0 {
                assert(length + k == 24);
            }
            assert(up == false);
        }
    } else {
        let shift: u32 = target - e;
        if shift > length {
            kept = 0;
            up = false;
            proof {
                assert(quantum == 0);
                lemma_pow2_adds(e as nat, length as nat);
                let limit = pow2((e + length) as nat) as int;
                let pl = pow2(length as nat) as int;
                vstd::arithmetic::power2::lemma_pow2_unfold((e + length + 1) as nat);
                if e + length + 1 < target {
                    lemma_pow2_strictly_increases((e + length + 1) as nat, target as nat);
                }
                assert(2 * limit <= t);
                assert((sig + 1) * w <= limit * d) by (nonlinear_arith)
                    requires
                        sig + 1 <= pl,
                        w == ee * d,
                        limit == ee * pl,
                        d > 0,
                        ee > 0,
                ;
                assert((sig + 1) * w == sig * w + w) by (nonlinear_arith);
                assert(n * t < limit * d);
                assert(2 * (limit * d) <= t * d) by (nonlinear_arith)
                    requires
                        2 * limit <= t,
                        d > 0,
                ;
                assert(2 * n < d) by (nonlinear_arith)
                    requires
                        2 * (n * t) < t * d,
                        t > 0,
                ;
                assert(sig * w >= 0) by (nonlinear_arith)
                    requires
                        sig >= 0,
                        w > 0,
                ;
                assert(n >= 0) by (nonlinear_arith)
                    requires
                        n * t >= 0,
                        t > 0,
                ;
                assert(pq == 1);
                assert(a == d) by (nonlinear_arith)
                    requires
                        a == pq * d,
                        pq == 1,
                ;
                assert(up == false && kept == 0);
            }
        } else {
            let p: u128 = power_of_two(shift);
            proof {
                lemma_pow2_pos(shift as nat);
            }
            let quotient: u128 = sig / p;
            let rem: u128 = sig % p;
            proof {
                vstd::arithmetic::div_mod::lemma_fundamental_div_mod(sig as int, p as int);
                let kept_int = quotient as int;
                let rest = rem as int;
                assert(p * quotient == quotient * p) by (nonlinear_arith);
                lemma_pow2_adds(shift as nat, e as nat);
                assert(p * w == t * a) by (nonlinear_arith)
                    requires
                        w == ee * d,
                        p * ee == t * pq,
                        a == pq * d,
                ;
                lemma_unscaled(n, t, w, sig as int, p as int, a, kept_int, rest, inexact);
                vstd::arithmetic::power2::lemma_pow2_unfold(shift as nat);
                assert(p % 2 == 0);
                let room = (length - shift) as nat;
                lemma_pow2_adds(room, shift as nat);
                assert(quotient < pow2(room)) by (nonlinear_arith)
                    requires
                        quotient * p <= sig,
                        sig < pow2(room) * p,
                        p > 0,
                ;
                assert(room <= 24);
                if room < 24 {
                    lemma_pow2_strictly_increases(room, 24);
                }
                assert(pow2(24) == DOUBLE_SPAN);
                if quantum > 0 {
                    assert(shift == length - 24);
                    lemma_pow2_adds(23, shift as nat);
                    assert(pow2(23) == FRACTION_SPAN);
                    assert((quotient + 1) * p == quotient * p + p) by (nonlinear_arith);
                    assert(quotient >= FRACTION_SPAN) by (nonlinear_arith)
                        requires
                            sig >= FRACTION_SPAN * p,
                            sig < (quotient + 1) * p,
                            p > 0,
                    ;
                }
            }
            kept = quotient as u32;
            let half: u128 = p / 2;
            up = rem > half || (rem == half && (inexact || kept % 2 == 1));
        }
    }
    let m: u64 = (quantum as u64) * WIDE_SPAN + (kept as u64) + (if up {
        1
    } else {
        0
    });
    let r: u32 = if m < INFINITY_BITS as u64 {
        m as u32
    } else {
        INFINITY_BITS
    };
    proof {
        lemma_rounded(n, d, quantum as nat, kept as int, up);
        assert(rounds_to(n, d, r as int));
        let other = nearest(n, d);
        lemma_rounding_is_unique(n, d, other, r as int);
    }
    r
}

impl Binary32 {
    /// The sum of two finite numbers of which the first has the larger exponent.
    fn plus_smaller(self, other: Self) -> (r: Self)
        requires
            self.finite(),
            other.finite(),
            other.quantum() <= self.quantum(),
        ensures
            r == self.sum(other),
    {
        let (s1, e1): (u32, u32) = self.parts();
        let (s2, e2): (u32, u32) = other.parts();
        let negative1: bool = self.bits >= SIGN_BIT;
        let negative2: bool = other.bits >= SIGN_BIT;
        let gap: u32 = e1 - e2;
        let ghost v1 = magnitude_value(self.magnitude());
        let ghost v2 = magnitude_value(other.magnitude());
        proof {
            self.lemma_parts();
            other.lemma_parts();
            lemma2_to64();
            lemma_pow2_adds(e2 as nat, gap as nat);
            lemma_pow2_pos(e1 as nat);
            lemma_pow2_pos(e2 as nat);
            lemma_pow2_pos(gap as nat);
        }
        if gap <= 64 {
            proof {
                if gap < 64 {
                    lemma_pow2_strictly_increases(gap as nat, 64);
                }
                assert(s1 * pow2(gap as nat) <= 0x0100_0000 * pow2(64)) by (nonlinear_arith)
                    requires
                        0 <= s1 <= 0x0100_0000,
                        0 <= pow2(gap as nat) <= pow2(64),
                ;
                assert(s1 * pow2(gap as nat) >= 0) by (nonlinear_arith)
                    requires
                        s1 >= 0,
                        pow2(gap as nat) >= 0,
                ;
            }
            let wide: u128 = (s1 as u128) * power_of_two(gap);
            let narrow: u128 = s2 as u128;
            let ghost pe = pow2(e2 as nat) as int;
            proof {
                assert(v1 == wide * pe) by (nonlinear_arith)
                    requires
                        v1 == s1 * pow2(e1 as nat),
                        pow2(e1 as nat) == pe * pow2(gap as nat),
                        wide == s1 * pow2(gap as nat),
                ;
            }
            let sig: u128;
            let negative: bool;
            if negative1 == negative2 {
                sig = wide + narrow;
                negative = negative1;
            } else if wide >= narrow {
                sig = wide - narrow;
                negative = negative1;
            } else {
                sig = narrow - wide;
                negative = negative2;
            }
            let ghost exact = self.value() + other.value();
            proof {
                assert((wide + narrow) * pe == wide * pe + narrow * pe) by (nonlinear_arith);
                assert((wide - narrow) * pe == wide * pe - narrow * pe) by (nonlinear_arith);
                assert((narrow - wide) * pe == narrow * pe - wide * pe) by (nonlinear_arith);
                assert(sig * pe >= 0 && (sig * pe == 0 <==> sig == 0)) by (nonlinear_arith)
                    requires
                        sig >= 0,
                        pe > 0,
                ;
                assert(size(exact) == sig * pe);
            }
            if sig == 0 {
                let both: bool = negative1 && negative2;
                return if both {
                    Binary32 { bits: SIGN_BIT }
                } else {
                    Binary32 { bits: ZERO_BITS }
                };
            }
            proof {
                let n = size(exact);
                lemma_pow2_adds(e2 as nat, SCALE as nat);
                let pf = pow2((e2 + SCALE) as nat) as int;
                assert(n * pow2(SCALE as nat) == sig * (pf * 1)) by (nonlinear_arith)
                    requires
                        n == sig * pe,
                        pf == pe * pow2(SCALE as nat),
                ;
                lemma_large_powers();
            }
            let m: u32 = round_scaled(sig, e2 + SCALE, false, Ghost(size(exact)), Ghost(1int));
            if negative {
                Binary32 { bits: m + SIGN_BIT }
            } else {
                Binary32 { bits: m }
            }
        } else {
            let wide: u128 = (s1 as u128) * 0x100_0000_0000;
            let ghost exact = self.value() + other.value();
            let ghost n = size(exact);
            let ghost pb = pow2((e1 - 40) as nat) as int;
            let ghost ps = pow2(SCALE as nat) as int;
            proof {
                lemma_large_powers();
                lemma_pow2_adds((e1 - 40) as nat, 40);
                lemma_pow2_pos((e1 - 40) as nat);
                lemma_pow2_pos(SCALE as nat);
                lemma_pow2_adds(24, e2 as nat);
                lemma_pow2_strictly_increases((24 + e2) as nat, (e1 - 40) as nat);
                assert(v1 == wide * pb) by (nonlinear_arith)
                    requires
                        v1 == s1 * pow2(e1 as nat),
                        pow2(e1 as nat) == pb * 0x100_0000_0000,
                        wide == s1 * 0x100_0000_0000,
                ;
                assert(0 <= v2 < pb) by (nonlinear_arith)
                    requires
                        v2 == s2 * pow2(e2 as nat),
                        0 <= s2 < 0x0100_0000,
                        pow2(e2 as nat) > 0,
                        0x0100_0000 * pow2(e2 as nat) < pb,
                ;
                assert(wide * pb >= 0x8000_0000_0000 * pb) by (nonlinear_arith)
                    requires
                        wide >= 0x8000_0000_0000,
                        pb > 0,
                ;
                assert((wide + 1) * pb == wide * pb + pb && (wide - 1) * pb == wide * pb - pb) by (nonlinear_arith);
                assert(v2 == 0 <==> s2 == 0) by (nonlinear_arith)
                    requires
                        v2 == s2 * pow2(e2 as nat),
                        pow2(e2 as nat) > 0,
                ;
            }
            let inexact: bool = s2 != 0;
            let sig: u128 = if inexact && negative1 != negative2 {
                wide - 1
            } else {
                wide
            };
            proof {
                assert(inexact ==> sig * pb < n < (sig + 1) * pb);
                assert(!inexact ==> n == sig * pb);
                let e = (e1 - 40 + SCALE) as nat;
                lemma_pow2_adds((e1 - 40) as nat, SCALE as nat);
                let w = pow2(e) * 1;
                assert(w == pb * ps);
                assert(sig * w == (sig * pb) * ps && (sig + 1) * w == ((sig + 1) * pb) * ps) by (nonlinear_arith)
                    requires
                        w == pb * ps,
                ;
                let low = sig * pb;
                let high = (sig + 1) * pb;
                assert(low < n ==> low * ps < n * ps) by (nonlinear_arith)
                    requires
                        ps > 0,
                ;
                assert(n < high ==> n * ps < high * ps) by (nonlinear_arith)
                    requires
                        ps > 0,
                ;
                lemma_large_powers();
            }
            let m: u32 = round_scaled(sig, e1 - 40 + SCALE, inexact, Ghost(n), Ghost(1int));
            if negative1 {
                Binary32 { bits: m + SIGN_BIT }
            } else {
                Binary32 { bits: m }
            }
        }
    }

    /// Adds two numbers.
    pub fn plus(self, other: Self) -> (r: Self)
        ensures
            r == self.sum(other),
    {
        if self.is_nan() || other.is_nan() {
            return Binary32 { bits: NAN_BITS };
        }
        if !self.is_finite() {
            return if other.is_finite() || self == other {
                self
            } else {
                Binary32 { bits: NAN_BITS }
            };
        }
        if !other.is_finite() {
            return other;
        }
        let (_, e1): (u32, u32) = self.parts();
        let (_, e2): (u32, u32) = other.parts();
        if e1 >= e2 {
            self.plus_smaller(other)
        } else {
            other.plus_smaller(self)
        }
    }

    /// Changes the sign.
    pub fn negate(self) -> (r: Self)
        ensures
            r == self.opposite(),
    {
        if self.bits >= SIGN_BIT {
            Binary32 { bits: self.bits - SIGN_BIT }
        } else {
            Binary32 { bits: self.bits + SIGN_BIT }
        }
    }

    /// Drops the sign.
    pub fn abs(self) -> (r: Self)
        ensures
            r == self.absolute(),
    {
        if self.bits >= SIGN_BIT {
            Binary32 { bits: self.bits - SIGN_BIT }
        } else {
            self
        }
    }

    /// Subtracts `other`.
    pub fn minus(self, other: Self) -> (r: Self)
        ensures
            r == self.difference(other),
    {
        self.plus(other.negate())
    }

    /// Multiplies two numbers.
    pub fn times(self, other: Self) -> (r: Self)
        ensures
            r == self.product(other),
    {
        if self.is_nan() || other.is_nan() {
            return Binary32 { bits: NAN_BITS };
        }
        let negative: bool = (self.bits >= SIGN_BIT) != (other.bits >= SIGN_BIT);
        let (s1, e1): (u32, u32) = self.parts();
        let (s2, e2): (u32, u32) = other.parts();
        proof {
            self.lemma_parts();
            other.lemma_parts();
        }
        let m: u32 = if !self.is_finite() || !other.is_finite() {
            if s1 == 0 || s2 == 0 {
                return Binary32 { bits: NAN_BITS };
            }
            INFINITY_BITS
        } else {
            proof {
                assert(0 <= s1 * s2 < 0x1_0000_0000_0000) by (nonlinear_arith)
                    requires
                        0 <= s1 < 0x0100_0000,
                        0 <= s2 < 0x0100_0000,
                ;
            }
            let sig: u128 = (s1 as u128) * (s2 as u128);
            let e: u32 = e1 + e2 + (SCALE - 149);
            let ghost n = size(self.value()) * size(other.value());
            let ghost d = unit_value();
            proof {
                lemma2_to64();
                lemma_pow2_pos(149);
                lemma_large_powers();
                lemma_pow2_adds(e1 as nat, e2 as nat);
                lemma_pow2_adds((e1 + e2) as nat, SCALE as nat);
                lemma_pow2_adds(e as nat, 149);
                let p1 = pow2(e1 as nat) as int;
                let p2 = pow2(e2 as nat) as int;
                let ps = pow2(SCALE as nat) as int;
                let pe = pow2(e as nat) as int;
                assert(pe * d == (p1 * p2) * ps);
                assert(n * ps == sig * (pe * d)) by (nonlinear_arith)
                    requires
                        n == (s1 * p1) * (s2 * p2),
                        sig == s1 * s2,
                        pe * d == (p1 * p2) * ps,
                ;
            }
            round_scaled(sig, e, false, Ghost(n), Ghost(d))
        };
        if negative {
            Binary32 { bits: m + SIGN_BIT }
        } else {
            Binary32 { bits: m }
        }
    }

    /// Divides by `other`.
    pub fn over(self, other: Self) -> (r: Self)
        ensures
            r == self.quotient(other),
    {
        if self.is_nan() || other.is_nan() {
            return Binary32 { bits: NAN_BITS };
        }
        let negative: bool = (self.bits >= SIGN_BIT) != (other.bits >= SIGN_BIT);
        let (s1, e1): (u32, u32) = self.parts();
        let (s2, e2): (u32, u32) = other.parts();
        proof {
            self.lemma_parts();
            other.lemma_parts();
        }
        let finite1: bool = self.is_finite();
        let finite2: bool = other.is_finite();
        if (!finite1 && !finite2) || (s1 == 0 && s2 == 0) {
            return Binary32 { bits: NAN_BITS };
        }
        let m: u32 = if !finite1 || s2 == 0 {
            INFINITY_BITS
        } else if !finite2 {
            0
        } else {
            let scaled: u128 = (s1 as u128) * 0x4_0000_0000_0000;
            let divisor: u128 = s2 as u128;
            let sig: u128 = scaled / divisor;
            let inexact: bool = scaled % divisor != 0;
            let e: u32 = (e1 + (SCALE + 99)) - e2;
            let ghost n = size(self.value()) * unit_value();
            let ghost d = size(other.value());
            proof {
                lemma2_to64();
                lemma_large_powers();
                vstd::arithmetic::div_mod::lemma_fundamental_div_mod(scaled as int, divisor as int);
                let rem = scaled % divisor;
                let p1 = pow2(e1 as nat) as int;
                let p2 = pow2(e2 as nat) as int;
                let ps = pow2(SCALE as nat) as int;
                let pe = pow2(e as nat) as int;
                lemma_pow2_pos(e as nat);
                lemma_pow2_pos(e2 as nat);
                lemma_pow2_pos(SCALE as nat);
                lemma_pow2_adds(e as nat, e2 as nat);
                lemma_pow2_adds(e1 as nat, (SCALE + 99) as nat);
                lemma_pow2_adds(SCALE as nat, 99);
                lemma_pow2_adds(50, 99);
                let base = pe * p2;
                assert(base > 0) by (nonlinear_arith)
                    requires
                        base == pe * p2,
                        pe > 0,
                        p2 > 0,
                ;
                assert(base == p1 * (ps * pow2(99)));
                assert(n * ps == scaled * base) by (nonlinear_arith)
                    requires
                        n == (s1 * p1) * (pow2(50) * pow2(99)),
                        pow2(50) == 0x4_0000_0000_0000,
                        scaled == s1 * 0x4_0000_0000_0000,
                        base == p1 * (ps * pow2(99)),
                ;
                assert(pe * d == divisor * base) by (nonlinear_arith)
                    requires
                        d == s2 * p2,
                        divisor == s2,
                        base == pe * p2,
                ;
                assert(sig * (pe * d) == (sig * divisor) * base) by (nonlinear_arith)
                    requires
                        pe * d == divisor * base,
                ;
                assert((sig + 1) * (pe * d) == (sig * divisor + divisor) * base) by (nonlinear_arith)
                    requires
                        pe * d == divisor * base,
                ;
                assert(divisor * sig == sig * divisor) by (nonlinear_arith);
                let q = sig * divisor;
                assert(q < scaled ==> q * base < scaled * base) by (nonlinear_arith)
                    requires
                        base > 0,
                ;
                assert(scaled < q + divisor ==> scaled * base < (q + divisor) * base) by (nonlinear_arith)
                    requires
                        base > 0,
                ;
                assert(d > 0) by (nonlinear_arith)
                    requires
                        d == s2 * p2,
                        s2 > 0,
                        p2 > 0,
                ;
                assert((sig + 1) * divisor == q + divisor) by (nonlinear_arith)
                    requires
                        q == sig * divisor,
                ;
                if inexact {
                    assert(s1 > 0);
                    assert(sig >= 0x200_0000) by (nonlinear_arith)
                        requires
                            scaled < (sig + 1) * divisor,
                            scaled >= 0x4_0000_0000_0000,
                            0 < divisor < 0x0100_0000,
                            sig >= 0,
                    ;
                }
                assert(sig <= scaled) by (nonlinear_arith)
                    requires
                        q <= scaled,
                        q == sig * divisor,
                        divisor >= 1,
                        sig >= 0,
                ;
            }
            round_scaled(sig, e, inexact, Ghost(n), Ghost(d))
        };
        if negative {
            Binary32 { bits: m + SIGN_BIT }
        } else {
            Binary32 { bits: m }
        }
    }
}

pub(crate) proof fn lemma_scaled_remainder(s: int, e: nat, k: nat)
    requires
        s >= 0,
    ensures
        (s * pow2(e)) % (pow2(k + e) as int) == (s % (pow2(k) as int)) * pow2(e),
        (s * pow2(e)) / (pow2(k + e) as int) == s / (pow2(k) as int),
{
    let pe = pow2(e) as int;
    let pk = pow2(k) as int;
    lemma_pow2_pos(e);
    lemma_pow2_pos(k);
    lemma_pow2_adds(k, e);
    vstd::arithmetic::div_mod::lemma_fundamental_div_mod(s, pk);
    let q = s / pk;
    let r = s % pk;
    assert(0 <= r < pk);
    assert(s * pe == (pk * pe) * q + r * pe) by (nonlinear_arith)
        requires
            s == pk * q + r,
    ;
    assert(0 <= r * pe < pk * pe) by (nonlinear_arith)
        requires
            0 <= r < pk,
            pe > 0,
    ;
    assert(q * (pk * pe) == (pk * pe) * q) by (nonlinear_arith);
    vstd::arithmetic::div_mod::lemma_fundamental_div_mod_converse(s * pe, pk * pe, q, r * pe);
}

impl Binary32 {
    /// The number nearest to an integer.
    pub fn from_u64(n: u64) -> (r: Self)
        ensures
            r == whole(n as nat),
    {
        let e: u32 = SCALE + 149;
        proof {
            lemma_large_powers();
            lemma_pow2_pos(149);
            lemma_pow2_adds(149, SCALE as nat);
            let ps = pow2(SCALE as nat) as int;
            assert((n * unit_value()) * ps == n * (pow2(e as nat) * 1)) by (nonlinear_arith)
                requires
                    pow2(e as nat) == unit_value() * ps,
            ;
        }
        Binary32 { bits: round_scaled(n as u128, e, false, Ghost(n * unit_value()), Ghost(1int)) }
    }

    /// The integer part as a `u64`: zero for negative numbers and for what is
    /// not a number, and the largest `u64` for what exceeds it.
    pub fn truncate_to_u64(self) -> (r: u64)
        ensures
            r == self.whole_part(),
    {
        if self.is_nan() || self.bits >= SIGN_BIT {
            return 0;
        }
        if !self.is_finite() {
            return u64::MAX;
        }
        let (s, e): (u32, u32) = self.parts();
        let ghost v = self.value();
        proof {
            self.lemma_parts();
            lemma2_to64();
            lemma_pow2_pos(149);
        }
        if e >= 149 {
            let k: u32 = e - 149;
            proof {
                lemma_pow2_adds(k as nat, 149);
                let pk = pow2(k as nat) as int;
                lemma_pow2_pos(k as nat);
                assert(v == unit_value() * (s * pk)) by (nonlinear_arith)
                    requires
                        v == s * pow2(e as nat),
                        pow2(e as nat) == pk * unit_value(),
                ;
                vstd::arithmetic::div_mod::lemma_div_multiples_vanish(s * pk, unit_value());
                if k > 64 {
                    lemma_pow2_strictly_increases(64, k as nat);
                }
                if k >= 64 {
                    assert(s * pk > u64::MAX) by (nonlinear_arith)
                        requires
                            s >= 1,
                            pk >= 0x1_0000_0000_0000_0000,
                    ;
                } else {
                    lemma_pow2_strictly_increases(k as nat, 64);
                    assert(0 <= s * pk <= 0x0100_0000 * 0x1_0000_0000_0000_0000) by (nonlinear_arith)
                        requires
                            0 <= s <= 0x0100_0000,
                            0 <= pk <= 0x1_0000_0000_0000_0000,
                    ;
                }
            }
            if k >= 64 {
                return u64::MAX;
            }
            let whole: u128 = (s as u128) * power_of_two(k);
            if whole > u64::MAX as u128 {
                u64::MAX
            } else {
                whole as u64
            }
        } else {
            let k: u32 = 149 - e;
            proof {
                lemma_scaled_remainder(s as int, e as nat, k as nat);
                if k >= 24 {
                    if k > 24 {
                        lemma_pow2_strictly_increases(24, k as nat);
                    }
                    vstd::arithmetic::div_mod::lemma_basic_div(s as int, pow2(k as nat) as int);
                }
            }
            if k >= 24 {
                return 0;
            }
            let p: u128 = power_of_two(k);
            proof {
                lemma_pow2_strictly_increases(k as nat, 24);
                lemma_pow2_pos(k as nat);
            }
            ((s as u128) / p) as u64
        }
    }

    fn rest_of_one(self) -> (r: Self)
        ensures
            r == self.remainder_of_one(),
            self.finite() ==> r.finite() && r.negative() == self.negative() && size(r.value()) == size(self.value())
                % unit_value(),
    {
        if !self.is_finite() {
            return Binary32 { bits: NAN_BITS };
        }
        let (s, e): (u32, u32) = self.parts();
        let ghost n = size(self.value()) % unit_value();
        proof {
            self.lemma_parts();
            lemma2_to64();
            lemma_large_powers();
            lemma_pow2_pos(149);
            lemma_pow2_pos(e as nat);
            lemma_pow2_pos(SCALE as nat);
        }
        let rest: u32;
        if e >= 149 {
            rest = 0;
            proof {
                let k = (e - 149) as nat;
                lemma_pow2_adds(k, 149);
                let pk = pow2(k) as int;
                assert(size(self.value()) == (s * pk) * unit_value()) by (nonlinear_arith)
                    requires
                        size(self.value()) == s * pow2(e as nat),
                        pow2(e as nat) == pk * unit_value(),
                ;
                vstd::arithmetic::div_mod::lemma_mod_multiples_basic(s * pk, unit_value());
            }
        } else {
            let k: u32 = 149 - e;
            proof {
                lemma_scaled_remainder(s as int, e as nat, k as nat);
                if k >= 24 {
                    if k > 24 {
                        lemma_pow2_strictly_increases(24, k as nat);
                    }
                    vstd::arithmetic::div_mod::lemma_small_mod(s as nat, pow2(k as nat));
                } else {
                    lemma_pow2_strictly_increases(k as nat, 24);
                    lemma_pow2_pos(k as nat);
                }
            }
            if k >= 24 {
                rest = s;
            } else {
                rest = ((s as u128) % power_of_two(k)) as u32;
            }
        }
        proof {
            lemma_pow2_adds(e as nat, SCALE as nat);
            let pe = pow2(e as nat) as int;
            let pf = pow2((e + SCALE) as nat) as int;
            assert(n == rest * pe);
            assert(n * pow2(SCALE as nat) == rest * (pf * 1)) by (nonlinear_arith)
                requires
                    n == rest * pe,
                    pf == pe * pow2(SCALE as nat),
            ;
        }
        let m: u32 = round_scaled(rest as u128, e + SCALE, false, Ghost(n), Ghost(1int));
        proof {
            let exact = lemma_representable(rest as int, e as nat);
            lemma_exact_value_is_kept(n, 1, exact);
            lemma_magnitude_value_increases(0, exact);
            assert(magnitude_value(0) == 0);
        }
        if self.bits >= SIGN_BIT {
            Binary32 { bits: m + SIGN_BIT }
        } else {
            Binary32 { bits: m }
        }
    }

    /// Rounds up to an integer: zero for negative numbers and for what is not
    /// a number, and the largest `u64` for what exceeds it.
    pub fn ceil_to_u64(self) -> (r: u64)
        ensures
            r == self.ceiling(),
    {
        let whole: u64 = self.truncate_to_u64();
        if self.is_nan() || self.bits >= SIGN_BIT || whole == u64::MAX {
            return whole;
        }
        let rest = self.rest_of_one();
        proof {
            rest.lemma_rank_orders_values(Binary32 { bits: ZERO_BITS });
            assert(magnitude_value(0) == 0);
        }
        if rest.is_positive() {
            whole + 1
        } else {
            whole
        }
    }

    /// Rounds to the nearest integer, halves upwards: zero for negative
    /// numbers and for what is not a number, and the largest `u64` for what
    /// exceeds it.
    pub fn round_to_u64(self) -> (r: u64)
        ensures
            r == self.nearest_integer(),
    {
        let whole: u64 = self.truncate_to_u64();
        if self.is_nan() || self.bits >= SIGN_BIT || whole == u64::MAX {
            return whole;
        }
        let rest = self.rest_of_one();
        let half = Binary32 { bits: HALF_BITS };
        proof {
            rest.lemma_rank_orders_values(half);
            lemma_half();
        }
        if rest.lt(half) {
            whole
        } else {
            whole + 1
        }
    }

    /// The position within a unit interval.
    pub fn fraction_of_one(self) -> (r: Self)
        ensures
            r == self.fraction(),
    {
        let remainder = self.rest_of_one();
        if remainder.lt(Binary32 { bits: ZERO_BITS }) {
            remainder.plus(Binary32 { bits: ONE_BITS })
        } else {
            remainder
        }
    }
}

proof fn lemma_half()
    ensures
        2 * (Binary32 { bits: HALF_BITS }).value() == unit_value(),
{
    lemma2_to64();
    lemma_pow2_adds(23, 125);
    vstd::arithmetic::power2::lemma_pow2_unfold(149);
}

/// Every non-negative value has a correct rounding.
pub proof fn lemma_rounding_exists(n: int, d: int)
    requires
        n >= 0,
        d > 0,
    ensures
        rounds_to(n, d, nearest(n, d)),
{
    assert(magnitude_value(0) == 0);
    assert(magnitude_value(0) * d <= n) by (nonlinear_arith)
        requires
            magnitude_value(0) == 0,
            n >= 0,
    ;
    let m = lemma_largest_below(n, d, INFINITY_BITS as int);
    if m == INFINITY_BITS {
        lemma_infinite(n, d, m);
    } else {
        let v0 = magnitude_value(m);
        let v1 = magnitude_value(m + 1);
        assert((v0 + v1) * d == v0 * d + v1 * d) by (nonlinear_arith);
        if 2 * n < (v0 + v1) * d || (2 * n == (v0 + v1) * d && m % 2 == 0) {
            if m > 0 {
                let below = magnitude_value(m - 1);
                lemma_magnitude_value_increases(m - 1, m);
                assert((below + v0) * d < 2 * (v0 * d)) by (nonlinear_arith)
                    requires
                        below < v0,
                        d > 0,
                ;
            }
            assert(rounds_to(n, d, m));
        } else {
            if m + 1 < INFINITY_BITS {
                let above = magnitude_value(m + 2);
                lemma_magnitude_value_increases(m + 1, m + 2);
                assert((v1 + above) * d > 2 * (v1 * d)) by (nonlinear_arith)
                    requires
                        v1 < above,
                        d > 0,
                ;
            }
            assert(rounds_to(n, d, m + 1));
        }
    }
}

proof fn lemma_largest_below(n: int, d: int, limit: int) -> (m: int)
    requires
        d > 0,
        0 <= limit <= INFINITY_BITS,
        magnitude_value(0) * d <= n,
    ensures
        0 <= m <= limit,
        magnitude_value(m) * d <= n,
        m < limit ==> n < magnitude_value(m + 1) * d,
    decreases limit,
{
    if limit == 0 || magnitude_value(limit) * d <= n {
        limit
    } else {
        lemma_largest_below(n, d, limit - 1)
    }
}

/// A value that can be represented is not changed by rounding.
pub proof fn lemma_exact_value_is_kept(n: int, d: int, m: int)
    requires
        d > 0,
        0 <= m < INFINITY_BITS,
        n == magnitude_value(m) * d,
    ensures
        nearest(n, d) == m,
{
    let v = magnitude_value(m);
    let above = magnitude_value(m + 1);
    lemma_magnitude_value_increases(m, m + 1);
    assert((v + above) * d > 2 * (v * d)) by (nonlinear_arith)
        requires
            v < above,
            d > 0,
    ;
    if m > 0 {
        let below = magnitude_value(m - 1);
        lemma_magnitude_value_increases(m - 1, m);
        assert((below + v) * d < 2 * (v * d)) by (nonlinear_arith)
            requires
                below < v,
                d > 0,
        ;
    }
    assert(rounds_to(n, d, m));
    lemma_rounding_is_unique(n, d, nearest(n, d), m);
}

/// A larger exact value is never rounded to a smaller number.
pub proof fn lemma_rounding_keeps_order(n: int, larger: int, d: int)
    requires
        0 <= n <= larger,
        d > 0,
    ensures
        nearest(n, d) <= nearest(larger, d),
{
    lemma_rounding_exists(n, d);
    lemma_rounding_exists(larger, d);
    let a = nearest(n, d);
    let b = nearest(larger, d);
    if b < a {
        let low = magnitude_value(b) + magnitude_value(b + 1);
        let high = magnitude_value(a - 1) + magnitude_value(a);
        lemma_magnitude_value_increases(b, a - 1);
        lemma_magnitude_value_increases(b + 1, a);
        if b + 1 < a {
            assert(low * d < high * d) by (nonlinear_arith)
                requires
                    low < high,
                    d > 0,
            ;
        }
    }
}

/// Sums, products and quotients of finite numbers are numbers, unless the
/// divisor is zero; products and quotients have the sign that the operands
/// give them.
pub proof fn lemma_results_are_numbers(a: Binary32, b: Binary32)
    requires
        a.finite(),
        b.finite(),
    ensures
        !a.sum(b).nan(),
        !a.product(b).nan(),
        a.product(b).negative() == (a.negative() != b.negative()),
        b.magnitude() != 0 ==> !a.quotient(b).nan(),
        b.magnitude() != 0 ==> a.quotient(b).negative() == (a.negative() != b.negative()),
{
    a.lemma_parts();
    b.lemma_parts();
    lemma_pow2_pos(149);
    let x = size(a.value());
    let y = size(b.value());
    assert(magnitude_value(0) == 0);
    lemma_magnitude_value_increases(0, a.magnitude());
    lemma_magnitude_value_increases(0, b.magnitude());
    lemma_rounding_exists(size(a.value() + b.value()), 1);
    assert(x * y >= 0) by (nonlinear_arith)
        requires
            x >= 0,
            y >= 0,
    ;
    lemma_rounding_exists(x * y, unit_value());
    assert(x * unit_value() >= 0) by (nonlinear_arith)
        requires
            x >= 0,
            unit_value() > 0,
    ;
    if b.magnitude() != 0 {
        lemma_rounding_exists(x * unit_value(), y);
    }
}

pub proof fn lemma_representable(significand: int, e: nat) -> (m: int)
    requires
        0 <= significand < DOUBLE_SPAN,
        e <= 253,
    ensures
        0 <= m < INFINITY_BITS,
        magnitude_value(m) == significand * pow2(e),
    decreases e,
{
    if e == 0 || significand >= FRACTION_SPAN {
        lemma_encoding(e, significand);
        e * FRACTION_SPAN + significand
    } else {
        vstd::arithmetic::power2::lemma_pow2_unfold(e);
        let p = pow2((e - 1) as nat) as int;
        assert(significand * (2 * p) == (2 * significand) * p) by (nonlinear_arith);
        lemma_representable(2 * significand, (e - 1) as nat)
    }
}

/// Integers of at most 24 binary digits are represented exactly.
pub proof fn lemma_whole_is_exact(n: nat)
    requires
        n < 0x100_0000,
    ensures
        whole(n).finite(),
        !whole(n).negative(),
        whole(n).value() == n * unit_value(),
{
    let m = lemma_representable(n as int, 149);
    lemma_exact_value_is_kept(n * unit_value(), 1, m);
}

/// One is the unit in which whole numbers are counted.
pub proof fn lemma_one_is_unit()
    ensures
        magnitude_value(ONE_BITS as int) == unit_value(),
{
    lemma2_to64();
    lemma_pow2_adds(23, 126);
}

/// The position within a unit interval lies between zero and one.
pub proof fn law_fraction_is_within_one(x: Binary32)
    requires
        x.finite(),
    ensures
        (Binary32 { bits: ZERO_BITS }).at_most(x.fraction()),
        x.fraction().at_most((Binary32 { bits: ONE_BITS })),
{
    let n = size(x.value()) % unit_value();
    lemma_pow2_pos(149);
    lemma_one_is_unit();
    assert(magnitude_value(0) == 0);
    lemma_exact_value_is_kept(unit_value(), 1, ONE_BITS as int);
    lemma_exact_value_is_kept(0, 1, 0);
    lemma_rounding_exists(n, 1);
    lemma_rounding_keeps_order(n, unit_value(), 1);
    let m = nearest(n, 1);
    let r = x.remainder_of_one();
    let one = Binary32 { bits: ONE_BITS };
    if r.below((Binary32 { bits: ZERO_BITS })) {
        lemma_magnitude_value_increases(0, m);
        lemma_magnitude_value_increases(m, ONE_BITS as int);
        let exact = r.value() + one.value();
        assert(exact == unit_value() - magnitude_value(m));
        lemma_rounding_exists(exact, 1);
        lemma_rounding_keeps_order(exact, unit_value(), 1);
    }
}

/// A product with zero is zero.
pub proof fn lemma_product_with_zero(a: Binary32, b: Binary32)
    requires
        a.magnitude() == 0,
        b.finite(),
    ensures
        a.product(b).magnitude() == 0,
        b.product(a).magnitude() == 0,
{
    assert(magnitude_value(0) == 0);
    lemma_pow2_pos(149);
    let y = size(b.value());
    assert(0 * y == 0 && y * 0 == 0) by (nonlinear_arith);
    assert(0 == magnitude_value(0) * unit_value()) by (nonlinear_arith)
        requires
            magnitude_value(0) == 0,
    ;
    lemma_exact_value_is_kept(0, unit_value(), 0);
}

/// Adding zero changes nothing.
pub proof fn lemma_sum_with_zero(a: Binary32, zero: Binary32)
    requires
        a.finite(),
        a.magnitude() != 0,
        zero.magnitude() == 0,
    ensures
        a.sum(zero) == a,
{
    assert(magnitude_value(0) == 0);
    lemma_magnitude_value_increases(0, a.magnitude());
    lemma_exact_value_is_kept(magnitude_value(a.magnitude()), 1, a.magnitude());
}

/// The integer part is never negative.
pub proof fn lemma_whole_part_is_natural(a: Binary32)
    ensures
        0 <= a.whole_part() <= u64::MAX,
{
    a.lemma_parts();
    lemma_pow2_pos(149);
    assert(magnitude_value(0) == 0);
    lemma_magnitude_value_increases(0, a.magnitude());
    if !a.negative() {
        vstd::arithmetic::div_mod::lemma_div_pos_is_pos(a.value(), unit_value());
    }
}

/// Zero divided by another finite number is zero.
pub proof fn lemma_quotient_of_zero(a: Binary32, b: Binary32)
    requires
        a.magnitude() == 0,
        b.finite(),
        b.magnitude() != 0,
    ensures
        a.quotient(b).magnitude() == 0,
{
    b.lemma_parts();
    assert(magnitude_value(0) == 0);
    let y = size(b.value());
    lemma_magnitude_value_increases(0, b.magnitude());
    assert(0 * unit_value() == 0) by (nonlinear_arith);
    assert(0 == magnitude_value(0) * y) by (nonlinear_arith)
        requires
            magnitude_value(0) == 0,
    ;
    lemma_exact_value_is_kept(0, y, 0);
}

/// A number minus itself is zero.
pub proof fn lemma_difference_with_itself(a: Binary32)
    requires
        a.finite(),
    ensures
        a.difference(a) == (Binary32 { bits: ZERO_BITS }),
{
    assert(magnitude_value(0) == 0);
}

/// Sums and products do not depend on the order of their operands.
pub proof fn law_sum_and_product_commute(a: Binary32, b: Binary32)
    ensures
        a.sum(b) == b.sum(a),
        a.product(b) == b.product(a),
{
    assert(size(a.value()) * size(b.value()) == size(b.value()) * size(a.value())) by (nonlinear_arith);
}

/// Whether the sum of two numbers is a number, and infinite only if one of
/// them is.
pub open spec fn adds_up(a: Binary32, b: Binary32) -> bool {
    &&& !a.sum(b).nan()
    &&& a.finite() && b.finite() ==> a.sum(b).finite()
}

/// Twice a number of the lower binades is again a number.
proof fn lemma_double_is_exact(a: Binary32) -> (m: int)
    requires
        a.magnitude() < LAST_BINADE_BITS,
    ensures
        0 <= m < INFINITY_BITS,
        magnitude_value(m) == 2 * size(a.value()),
{
    a.lemma_parts();
    let quantum = a.quantum();
    let significand = a.significand();
    vstd::arithmetic::power2::lemma_pow2_unfold(quantum + 1);
    let scale = pow2(quantum) as int;
    assert(significand * (2 * scale) == 2 * (significand * scale)) by (nonlinear_arith);
    lemma_representable(significand, quantum + 1)
}

/// Twice a number of the last binade lies beyond the range.
proof fn lemma_double_is_beyond(a: Binary32)
    requires
        a.magnitude() >= LAST_BINADE_BITS,
    ensures
        2 * size(a.value()) >= magnitude_value(INFINITY_BITS as int),
{
    a.lemma_parts();
    lemma_magnitude_value_increases(LAST_BINADE_BITS as int, a.magnitude());
    vstd::arithmetic::power2::lemma_pow2_unfold(254);
    assert(magnitude_value(LAST_BINADE_BITS as int) == FRACTION_SPAN * pow2(253));
    assert(magnitude_value(INFINITY_BITS as int) == FRACTION_SPAN * pow2(254));
}

/// A size that rounds to a finite number lies on the same side of twice a
/// number before and after rounding.
proof fn lemma_rounding_against_double(n: int, a: Binary32)
    requires
        n >= 0,
        a.finite(),
        0 <= nearest(n, 1) < INFINITY_BITS,
    ensures
        n <= 2 * size(a.value()) ==> magnitude_value(nearest(n, 1)) <= 2 * size(a.value()),
        n >= 2 * size(a.value()) ==> magnitude_value(nearest(n, 1)) >= 2 * size(a.value()),
{
    let twice = 2 * size(a.value());
    let m = nearest(n, 1);
    lemma_rounding_exists(n, 1);
    if a.magnitude() < LAST_BINADE_BITS {
        let double = lemma_double_is_exact(a);
        lemma_exact_value_is_kept(twice, 1, double);
        lemma_magnitude_value_increases(m, double);
        lemma_magnitude_value_increases(double, m);
        assert(magnitude_value(0) == 0);
        lemma_magnitude_value_increases(0, double);
        if n <= twice {
            lemma_rounding_keeps_order(n, twice, 1);
        }
        if n >= twice {
            lemma_rounding_keeps_order(twice, n, 1);
        }
    } else {
        lemma_double_is_beyond(a);
        lemma_magnitude_value_increases(m, INFINITY_BITS as int);
        lemma_magnitude_value_increases(m + 1, INFINITY_BITS as int);
    }
}

/// A sum of finite numbers that stays finite lies between twice the smaller
/// and twice the larger.
proof fn lemma_sum_between_doubles(a: Binary32, b: Binary32)
    requires
        a.finite(),
        b.finite(),
        a.sum(b).finite(),
        a.value() <= b.value(),
    ensures
        2 * a.value() <= a.sum(b).value() <= 2 * b.value(),
{
    let exact = a.value() + b.value();
    let n = size(exact);
    lemma_rounding_exists(n, 1);
    assert(magnitude_value(0) == 0);
    let m = nearest(n, 1);
    lemma_magnitude_value_increases(0, m);
    if exact != 0 {
        assert(a.sum(b).magnitude() == m);
        lemma_rounding_against_double(n, a);
        lemma_rounding_against_double(n, b);
    }
}

/// Half of a number that lies between twice two others lies between these.
proof fn lemma_half_between(a: Binary32, s: Binary32, b: Binary32)
    requires
        a.finite(),
        b.finite(),
        s.finite(),
        2 * a.value() <= s.value() <= 2 * b.value(),
    ensures
        a.at_most(s.product((Binary32 { bits: HALF_BITS }))),
        s.product((Binary32 { bits: HALF_BITS })).at_most(b),
{
    let half = Binary32 { bits: HALF_BITS };
    let scale = pow2(148) as int;
    lemma2_to64();
    lemma_pow2_adds(23, 125);
    vstd::arithmetic::power2::lemma_pow2_unfold(149);
    lemma_pow2_pos(148);
    assert(half.value() == scale && unit_value() == 2 * scale);
    assert(magnitude_value(0) == 0);
    lemma_magnitude_value_increases(0, a.magnitude());
    lemma_magnitude_value_increases(0, b.magnitude());
    lemma_magnitude_value_increases(0, s.magnitude());
    let (x, y, z) = (size(a.value()), size(b.value()), size(s.value()));
    let n = z * scale;
    assert(n >= 0 && x * unit_value() == (2 * x) * scale && y * unit_value() == (2 * y) * scale) by (nonlinear_arith)
        requires
            n == z * scale,
            z >= 0,
            scale > 0,
            unit_value() == 2 * scale,
    ;
    lemma_rounding_exists(n, unit_value());
    lemma_exact_value_is_kept(x * unit_value(), unit_value(), a.magnitude());
    lemma_exact_value_is_kept(y * unit_value(), unit_value(), b.magnitude());
    lemma_half_against(z, x, scale);
    lemma_half_against(z, y, scale);
    if s.magnitude() == 0 {
        lemma_product_with_zero(s, half);
    }
}

/// Rounding half of a size keeps its order against another size.
proof fn lemma_half_against(z: int, x: int, scale: int)
    requires
        z >= 0,
        x >= 0,
        scale > 0,
        unit_value() == 2 * scale,
    ensures
        z <= 2 * x ==> nearest(z * scale, unit_value()) <= nearest(x * unit_value(), unit_value()),
        z >= 2 * x ==> nearest(z * scale, unit_value()) >= nearest(x * unit_value(), unit_value()),
{
    let unit = unit_value();
    assert(0 <= z * scale && 0 <= x * unit && (z <= 2 * x ==> z * scale <= x * unit) && (z >= 2 * x ==> z * scale
        >= x * unit)) by (nonlinear_arith)
        requires
            z >= 0,
            x >= 0,
            scale > 0,
            unit == 2 * scale,
    ;
    if z <= 2 * x {
        lemma_rounding_keeps_order(z * scale, x * unit, unit);
    }
    if z >= 2 * x {
        lemma_rounding_keeps_order(x * unit, z * scale, unit);
    }
}

/// Half the sum of two numbers lies between them, unless the sum overflows.
pub proof fn law_middle_lies_between(a: Binary32, b: Binary32)
    requires
        a.at_most(b),
        adds_up(a, b),
    ensures
        a.at_most(a.sum(b).product((Binary32 { bits: HALF_BITS }))),
        a.sum(b).product((Binary32 { bits: HALF_BITS })).at_most(b),
{
    if a.finite() && b.finite() {
        a.lemma_rank_orders_values(b);
        lemma_sum_between_doubles(a, b);
        lemma_half_between(a, a.sum(b), b);
    }
}

} // verus!
