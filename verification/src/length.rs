//! Lengths of plane vectors, correctly rounded.
use crate::arithmetic::{
    lemma_encoding, lemma_large_powers, power_of_two, round_scaled, rounds_to, signed, DOUBLE_SPAN, NAN_BITS, SCALE,
};
use crate::binary32::{lemma_magnitude_value_increases, magnitude_value, Binary32, FRACTION_SPAN, INFINITY_BITS};
use vstd::arithmetic::power2::{lemma2_to64, lemma_pow2_adds, lemma_pow2_pos, lemma_pow2_strictly_increases, pow2};
use vstd::prelude::*;

verus! {

/// Whether the magnitude `m` is the correct rounding of the square root of
/// `n`, in units of the smallest positive number: no neighbouring magnitude is
/// nearer, and none is equally near unless `m` is even.
pub open spec fn root_rounds_to(n: int, m: int) -> bool {
    &&& 0 <= m <= INFINITY_BITS
    &&& m > 0 ==> {
        let middle = magnitude_value(m - 1) + magnitude_value(m);
        4 * n > middle * middle || (4 * n == middle * middle && m % 2 == 0)
    }
    &&& m < INFINITY_BITS ==> {
        let middle = magnitude_value(m) + magnitude_value(m + 1);
        4 * n < middle * middle || (4 * n == middle * middle && m % 2 == 0)
    }
}

/// The magnitude to which the square root of `n` is rounded.
pub open spec fn nearest_root(n: int) -> int {
    choose|m: int| root_rounds_to(n, m)
}

impl Binary32 {
    /// The length of the vector with these two components.
    pub open spec fn hypotenuse(self, other: Self) -> Self {
        if self.infinite() || other.infinite() {
            Binary32 { bits: INFINITY_BITS }
        } else if self.nan() || other.nan() {
            Binary32 { bits: NAN_BITS }
        } else {
            signed(false, nearest_root(self.value() * self.value() + other.value() * other.value()))
        }
    }
}

/// At most one magnitude is the correct rounding of a root.
pub proof fn lemma_root_is_unique(n: int, a: int, b: int)
    requires
        root_rounds_to(n, a),
        root_rounds_to(n, b),
    ensures
        a == b,
{
    lemma_root_order(n, a, b);
    lemma_root_order(n, b, a);
}

proof fn lemma_root_order(n: int, a: int, b: int)
    requires
        root_rounds_to(n, a),
        root_rounds_to(n, b),
    ensures
        a >= b,
{
    if a < b {
        let low = magnitude_value(a) + magnitude_value(a + 1);
        let high = magnitude_value(b - 1) + magnitude_value(b);
        assert(magnitude_value(0) == 0);
        lemma_magnitude_value_increases(0, a);
        lemma_magnitude_value_increases(a, b - 1);
        lemma_magnitude_value_increases(a + 1, b);
        lemma_magnitude_value_increases(a, a + 1);
        assert(low * low <= high * high) by (nonlinear_arith)
            requires
                0 <= low <= high,
        ;
        if a + 1 < b {
            assert(low * low < high * high) by (nonlinear_arith)
                requires
                    0 <= low < high,
            ;
        }
    }
}

/// The exponent that scales the significand of a magnitude.
pub open spec fn quantum_of(m: int) -> nat {
    if m / (FRACTION_SPAN as int) == 0 {
        0
    } else {
        (m / (FRACTION_SPAN as int) - 1) as nat
    }
}

/// The significand of a magnitude.
pub open spec fn significand_of(m: int) -> int {
    if m / (FRACTION_SPAN as int) == 0 {
        m % (FRACTION_SPAN as int)
    } else {
        FRACTION_SPAN + m % (FRACTION_SPAN as int)
    }
}

/// A magnitude by its significand and its quantum, which is also the distance
/// to the next one.
pub proof fn lemma_magnitude_parts(m: int)
    requires
        m >= 0,
    ensures
        0 <= significand_of(m) < DOUBLE_SPAN,
        quantum_of(m) > 0 ==> significand_of(m) >= FRACTION_SPAN,
        m == quantum_of(m) * FRACTION_SPAN + significand_of(m),
        magnitude_value(m) == significand_of(m) * pow2(quantum_of(m)),
        magnitude_value(m + 1) == magnitude_value(m) + pow2(quantum_of(m)),
{
    vstd::arithmetic::div_mod::lemma_fundamental_div_mod(m, FRACTION_SPAN as int);
    let q = quantum_of(m);
    let s = significand_of(m);
    lemma_encoding(q, s);
    lemma_encoding(q, s + 1);
    let p = pow2(q) as int;
    assert((s + 1) * p == s * p + p) by (nonlinear_arith);
}

/// A magnitude whose second successor is large has a coarse quantum.
proof fn lemma_quantum_is_coarse(m: int, j: nat)
    requires
        m >= 0,
        magnitude_value(m + 2) > pow2(25 + j),
    ensures
        quantum_of(m) >= j,
{
    lemma_magnitude_parts(m);
    lemma_magnitude_parts(m + 1);
    let q = quantum_of(m);
    if q < j {
        let p = pow2(q) as int;
        lemma_pow2_pos(q);
        let r = quantum_of(m + 1);
        assert(r <= q + 1) by {
            vstd::arithmetic::div_mod::lemma_div_is_ordered(m + 1, m + FRACTION_SPAN, FRACTION_SPAN as int);
            vstd::arithmetic::div_mod::lemma_div_plus_one(m, FRACTION_SPAN as int);
        }
        vstd::arithmetic::power2::lemma_pow2_unfold(q + 1);
        if r < q + 1 {
            lemma_pow2_strictly_increases(r, q + 1);
        }
        assert(magnitude_value(m + 2) <= (significand_of(m) + 3) * p) by (nonlinear_arith)
            requires
                magnitude_value(m + 2) <= significand_of(m) * p + p + 2 * p,
        ;
        assert((significand_of(m) + 3) * p <= 0x200_0000 * p) by (nonlinear_arith)
            requires
                significand_of(m) + 3 <= 0x200_0000,
                p > 0,
        ;
        lemma2_to64();
        lemma_pow2_adds(25, q);
        lemma_pow2_strictly_increases(25 + q, 25 + j);
    }
}

proof fn lemma_multiple_of_power(m: int, j: nat) -> (c: int)
    requires
        m >= 0,
        quantum_of(m) >= j,
    ensures
        magnitude_value(m) == c * pow2(j),
{
    lemma_magnitude_parts(m);
    let rest = (quantum_of(m) - j) as nat;
    lemma_pow2_adds(rest, j);
    let c = significand_of(m) * pow2(rest);
    assert(significand_of(m) * (pow2(rest) * pow2(j)) == c * pow2(j)) by (nonlinear_arith)
        requires
            c == significand_of(m) * pow2(rest),
    ;
    c
}

/// Larger magnitudes have no smaller quantum.
pub proof fn lemma_quantum_grows(a: int, b: int)
    requires
        0 <= a <= b,
    ensures
        quantum_of(a) <= quantum_of(b),
{
    vstd::arithmetic::div_mod::lemma_div_is_ordered(a, b, FRACTION_SPAN as int);
    vstd::arithmetic::div_mod::lemma_div_pos_is_pos(a, FRACTION_SPAN as int);
}

/// Compares a rounding boundary with a root through the digits of the root.
proof fn lemma_boundary(n: int, t: int, e: int, pk: int, r: int, inexact: bool, middle: int, c: int)
    requires
        e > 0,
        pk > 0,
        r >= 0,
        middle >= 0,
        n * (pk * pk) == t * (e * e),
        !inexact ==> t == r * r,
        inexact ==> r * r < t < (r + 1) * (r + 1),
        inexact ==> middle * pk == c * (2 * e),
    ensures
        !inexact ==> (2 * r * e > middle * pk <==> 4 * n > middle * middle),
        !inexact ==> (2 * r * e == middle * pk <==> 4 * n == middle * middle),
        !inexact ==> (2 * r * e < middle * pk <==> 4 * n < middle * middle),
        inexact ==> (2 * r + 1) * e != middle * pk,
        inexact ==> ((2 * r + 1) * e > middle * pk ==> 4 * n > middle * middle),
        inexact ==> ((2 * r + 1) * e < middle * pk ==> 4 * n < middle * middle),
{
    let a = middle * pk;
    let b = 2 * r * e;
    let kk = pk * pk;
    assert(kk > 0) by (nonlinear_arith)
        requires
            kk == pk * pk,
            pk > 0,
    ;
    assert((middle * middle) * kk == a * a) by (nonlinear_arith)
        requires
            a == middle * pk,
            kk == pk * pk,
    ;
    assert((4 * n) * kk == 4 * (t * (e * e))) by (nonlinear_arith)
        requires
            n * kk == t * (e * e),
    ;
    assert(4 * ((r * r) * (e * e)) == b * b) by (nonlinear_arith)
        requires
            b == 2 * r * e,
    ;
    assert(a >= 0) by (nonlinear_arith)
        requires
            a == middle * pk,
            middle >= 0,
            pk > 0,
    ;
    assert(b >= 0) by (nonlinear_arith)
        requires
            b == 2 * r * e,
            r >= 0,
            e > 0,
    ;
    let four_n = 4 * n;
    let mm = middle * middle;
    assert(four_n * kk > mm * kk ==> four_n > mm) by (nonlinear_arith)
        requires
            kk > 0,
    ;
    assert(four_n * kk < mm * kk ==> four_n < mm) by (nonlinear_arith)
        requires
            kk > 0,
    ;
    assert(four_n * kk == mm * kk ==> four_n == mm) by (nonlinear_arith)
        requires
            kk > 0,
    ;
    if !inexact {
        assert(b > a ==> b * b > a * a) by (nonlinear_arith)
            requires
                a >= 0,
                b >= 0,
        ;
        assert(b < a ==> b * b < a * a) by (nonlinear_arith)
            requires
                a >= 0,
                b >= 0,
        ;
    } else {
        assert((2 * r + 1) * e == b + e) by (nonlinear_arith)
            requires
                b == 2 * r * e,
        ;
        assert(b == r * (2 * e)) by (nonlinear_arith)
            requires
                b == 2 * r * e,
        ;
        assert(c <= r ==> a <= b) by (nonlinear_arith)
            requires
                a == c * (2 * e),
                b == r * (2 * e),
                e > 0,
        ;
        assert(c >= r + 1 ==> a >= b + 2 * e) by (nonlinear_arith)
            requires
                a == c * (2 * e),
                b == r * (2 * e),
                e > 0,
        ;
        let ee = e * e;
        assert(ee > 0) by (nonlinear_arith)
            requires
                ee == e * e,
                e > 0,
        ;
        assert(4 * (t * ee) > 4 * ((r * r) * ee)) by (nonlinear_arith)
            requires
                t > r * r,
                ee > 0,
        ;
        assert(4 * (t * ee) < 4 * (((r + 1) * (r + 1)) * ee)) by (nonlinear_arith)
            requires
                t < (r + 1) * (r + 1),
                ee > 0,
        ;
        let top = b + 2 * e;
        assert(4 * (((r + 1) * (r + 1)) * ee) == top * top) by (nonlinear_arith)
            requires
                top == b + 2 * e,
                b == 2 * r * e,
                ee == e * e,
        ;
        assert(a <= b ==> a * a <= b * b) by (nonlinear_arith)
            requires
                a >= 0,
                b >= 0,
        ;
        assert(a >= top ==> a * a >= top * top) by (nonlinear_arith)
            requires
                a >= 0,
                top >= 0,
        ;
    }
}

/// The largest integer whose square does not exceed `n`.
fn integer_root(n: u128) -> (r: u128)
    requires
        n < pow2(126),
    ensures
        r * r <= n < (r + 1) * (r + 1),
        r < pow2(63),
{
    let mut r: u128 = 0;
    let mut span: u128 = 0x8000_0000_0000_0000;
    let ghost mut k: nat = 63;
    proof {
        lemma2_to64();
        vstd::arithmetic::power2::lemma_pow2_unfold(64);
        lemma_pow2_adds(63, 63);
    }
    while span > 1
        invariant
            k <= 63,
            span == pow2(k),
            pow2(63) == 0x8000_0000_0000_0000,
            r * r <= n,
            n < (r + span) * (r + span),
            r + span <= 0x8000_0000_0000_0000,
        decreases span,
    {
        proof {
            lemma2_to64();
            if k == 0 {
                assert(false);
            }
            vstd::arithmetic::power2::lemma_pow2_unfold(k);
        }
        let half: u128 = span / 2;
        let next: u128 = r + half;
        assert(next * next <= 0x4000_0000_0000_0000_0000_0000_0000_0000) by (nonlinear_arith)
            requires
                0 <= next <= 0x8000_0000_0000_0000,
        ;
        if next * next <= n {
            r = next;
        }
        span = half;
        proof {
            k = (k - 1) as nat;
        }
    }
    assert((r + span) * (r + span) == (r + 1) * (r + 1));
    r
}

proof fn lemma_root_exists_at(n: int, m: int)
    requires
        root_rounds_to(n, m),
    ensures
        nearest_root(n) == m,
{
    lemma_root_is_unique(n, nearest_root(n), m);
}

/// The root of a representable square is the number itself.
pub proof fn lemma_root_of_square(m: int)
    requires
        0 <= m < INFINITY_BITS,
    ensures
        nearest_root(magnitude_value(m) * magnitude_value(m)) == m,
{
    let v = magnitude_value(m);
    let above = magnitude_value(m + 1);
    assert(magnitude_value(0) == 0);
    lemma_magnitude_value_increases(0, m);
    lemma_magnitude_value_increases(m, m + 1);
    assert(4 * (v * v) < (v + above) * (v + above)) by (nonlinear_arith)
        requires
            0 <= v < above,
    ;
    if m > 0 {
        let below = magnitude_value(m - 1);
        lemma_magnitude_value_increases(m - 1, m);
        lemma_magnitude_value_increases(0, m - 1);
        assert(4 * (v * v) > (below + v) * (below + v)) by (nonlinear_arith)
            requires
                0 <= below < v,
        ;
    }
    lemma_root_exists_at(v * v, m);
}

/// A far smaller component does not change the length.
proof fn lemma_far_smaller(m: int, small: int)
    requires
        0 < m < INFINITY_BITS,
        0 <= small,
        2 * small < pow2(quantum_of(m)),
    ensures
        nearest_root(magnitude_value(m) * magnitude_value(m) + small * small) == m,
{
    let v = magnitude_value(m);
    let below = magnitude_value(m - 1);
    let q = pow2(quantum_of(m)) as int;
    lemma_magnitude_parts(m);
    assert(magnitude_value(0) == 0);
    lemma_magnitude_value_increases(m - 1, m);
    lemma_magnitude_value_increases(0, m - 1);
    let above = magnitude_value(m + 1);
    assert(4 * (v * v + small * small) < (v + above) * (v + above)) by (nonlinear_arith)
        requires
            above == v + q,
            0 <= v,
            0 <= 2 * small < q,
    ;
    assert(4 * (v * v + small * small) > (below + v) * (below + v)) by (nonlinear_arith)
        requires
            0 <= below < v,
            small >= 0,
    ;
    lemma_root_exists_at(v * v + small * small, m);
}

/// Carries the rounding of the digits of a root over to the root.
proof fn lemma_root_from_digits(n: int, t: int, low: nat, k: nat, r: int, inexact: bool, m: int)
    requires
        low <= 253,
        k <= 26,
        low - k <= 252,
        r >= 0,
        inexact ==> r >= 0x400_0000,
        n * (pow2(k) * pow2(k)) == t * (pow2(low) * pow2(low)),
        !inexact ==> t == r * r,
        inexact ==> r * r < t < (r + 1) * (r + 1),
        rounds_to(
            (2 * r + (if inexact {
                1int
            } else {
                0int
            })) * pow2(low),
            pow2(k + 1) as int,
            m,
        ),
    ensures
        root_rounds_to(n, m),
{
    let e = pow2(low) as int;
    let pk = pow2(k) as int;
    let b: int = if inexact {
        1
    } else {
        0
    };
    let digits = (2 * r + b) * e;
    let d = pow2(k + 1) as int;
    lemma_pow2_pos(low);
    lemma_pow2_pos(k);
    lemma2_to64();
    vstd::arithmetic::power2::lemma_pow2_unfold(k + 1);
    assert(magnitude_value(0) == 0);
    if m > 0 {
        let middle = magnitude_value(m - 1) + magnitude_value(m);
        lemma_magnitude_value_increases(0, m - 1);
        lemma_magnitude_value_increases(0, m);
        let c = if inexact {
            lemma_even_multiple(low, k, r, m, m - 1)
        } else {
            0
        };
        lemma_boundary(n, t, e, pk, r, inexact, middle, c);
        assert(middle * d == 2 * (middle * pk)) by (nonlinear_arith)
            requires
                d == 2 * pk,
        ;
        assert(2 * r * e == (2 * r) * e);
    }
    if m < INFINITY_BITS {
        let middle = magnitude_value(m) + magnitude_value(m + 1);
        lemma_magnitude_value_increases(0, m);
        lemma_magnitude_value_increases(0, m + 1);
        let c = if inexact {
            lemma_even_multiple(low, k, r, m, m)
        } else {
            0
        };
        lemma_boundary(n, t, e, pk, r, inexact, middle, c);
        assert(middle * d == 2 * (middle * pk)) by (nonlinear_arith)
            requires
                d == 2 * pk,
        ;
        assert(2 * r * e == (2 * r) * e);
    }
}

/// The boundary between two neighbouring magnitudes near an inexact root is an
/// even multiple of the last digit.
proof fn lemma_even_multiple(low: nat, k: nat, r: int, m: int, left: int) -> (c: int)
    requires
        low <= 253,
        k <= 26,
        low - k <= 252,
        r >= 0x400_0000,
        rounds_to((2 * r + 1) * pow2(low), pow2(k + 1) as int, m),
        left == m - 1 || left == m,
        0 <= left < INFINITY_BITS,
    ensures
        (magnitude_value(left) + magnitude_value(left + 1)) * pow2(k) == c * (2 * pow2(low)),
{
    let middle = magnitude_value(left) + magnitude_value(left + 1);
    let e = pow2(low) as int;
    let pk = pow2(k) as int;
    vstd::arithmetic::power2::lemma_pow2_unfold(low + 1);
    if low + 1 <= k {
        let rest = (k - low - 1) as nat;
        lemma_pow2_adds(rest, low + 1);
        let c = middle * pow2(rest);
        assert(middle * (pow2(rest) * (2 * e)) == c * (2 * e)) by (nonlinear_arith)
            requires
                c == middle * pow2(rest),
        ;
        c
    } else {
        let j = (low + 1 - k) as nat;
        if m < INFINITY_BITS {
            lemma_rounded_root_is_large(low, k, r, m);
            if m > 0 {
                lemma_quantum_is_coarse(m - 1, j);
            } else {
                lemma2_to64();
                assert(magnitude_value(1) == 1);
                lemma_pow2_strictly_increases(0, 25 + j);
                assert(false);
            }
        } else {
            assert(quantum_of(INFINITY_BITS - 1) == 253);
        }
        lemma_quantum_grows(m - 1, left);
        lemma_quantum_grows(m - 1, left + 1);
        let a = lemma_multiple_of_power(left, j);
        let b = lemma_multiple_of_power(left + 1, j);
        lemma_pow2_adds(j, k);
        let pj = pow2(j) as int;
        assert(middle == (a + b) * pj) by (nonlinear_arith)
            requires
                middle == a * pj + b * pj,
        ;
        assert(((a + b) * pj) * pk == (a + b) * (2 * e)) by (nonlinear_arith)
            requires
                pj * pk == 2 * e,
        ;
        a + b
    }
}

proof fn lemma_rounded_root_is_large(low: nat, k: nat, r: int, m: int)
    requires
        k <= 26,
        k <= low,
        r >= 0x400_0000,
        0 <= m < INFINITY_BITS,
        rounds_to((2 * r + 1) * pow2(low), pow2(k + 1) as int, m),
    ensures
        magnitude_value(m + 1) > pow2((26 + low - k) as nat),
{
    let e = pow2(low) as int;
    let d = pow2(k + 1) as int;
    let v = magnitude_value(m);
    let above = magnitude_value(m + 1);
    lemma2_to64();
    lemma_pow2_pos(low);
    lemma_pow2_pos(k + 1);
    lemma_magnitude_value_increases(m, m + 1);
    let x = (26 + low - k) as nat;
    lemma_pow2_adds(x, k + 1);
    lemma_pow2_adds(27, low);
    let px = pow2(x) as int;
    assert(px * d == 0x800_0000 * e);
    if above <= px {
        assert((v + above) * d < 2 * (px * d)) by (nonlinear_arith)
            requires
                v < above,
                above <= px,
                d > 0,
        ;
        assert((2 * r + 1) * e > 0x800_0000 * e) by (nonlinear_arith)
            requires
                2 * r + 1 > 0x800_0000,
                e > 0,
        ;
        assert(false);
    }
}

impl Binary32 {
    /// The length for components of which the first has the larger exponent.
    fn length_with_smaller(self, other: Self) -> (r: Self)
        requires
            self.finite(),
            other.finite(),
            other.quantum() <= self.quantum(),
        ensures
            r == self.hypotenuse(other),
    {
        let (s1, e1): (u32, u32) = self.parts();
        let (s2, e2): (u32, u32) = other.parts();
        let gap: u32 = e1 - e2;
        let ghost v1 = magnitude_value(self.magnitude());
        let ghost v2 = magnitude_value(other.magnitude());
        let ghost n = self.value() * self.value() + other.value() * other.value();
        proof {
            self.lemma_parts();
            other.lemma_parts();
            lemma2_to64();
            lemma_large_powers();
            assert(magnitude_value(0) == 0);
            assert(self.value() * self.value() == v1 * v1) by (nonlinear_arith)
                requires
                    self.value() == v1 || self.value() == -v1,
            ;
            assert(other.value() * other.value() == v2 * v2) by (nonlinear_arith)
                requires
                    other.value() == v2 || other.value() == -v2,
            ;
            lemma_magnitude_parts(self.magnitude());
        }
        if s2 == 0 {
            proof {
                lemma_root_of_square(self.magnitude());
                assert(v2 * v2 == 0) by (nonlinear_arith)
                    requires
                        v2 == 0,
                ;
            }
            return self.abs();
        }
        if gap >= 25 {
            proof {
                lemma_pow2_adds(24, e2 as nat);
                lemma_pow2_pos(e2 as nat);
                vstd::arithmetic::power2::lemma_pow2_unfold((25 + e2) as nat);
                if 25 + e2 < e1 {
                    lemma_pow2_strictly_increases((25 + e2) as nat, e1 as nat);
                }
                assert(v2 < 0x100_0000 * pow2(e2 as nat)) by (nonlinear_arith)
                    requires
                        v2 == s2 * pow2(e2 as nat),
                        s2 < 0x100_0000,
                        pow2(e2 as nat) > 0,
                ;
                lemma_magnitude_value_increases(0, other.magnitude());
                lemma_far_smaller(self.magnitude(), v2);
            }
            return self.abs();
        }
        proof {
            lemma_pow2_strictly_increases(gap as nat, 25);
            lemma_pow2_pos(gap as nat);
            assert(0 <= s1 * pow2(gap as nat) <= 0x2_0000_0000_0000) by (nonlinear_arith)
                requires
                    0 <= s1 <= 0x100_0000,
                    0 <= pow2(gap as nat) <= 0x200_0000,
            ;
        }
        let wide: u128 = (s1 as u128) * power_of_two(gap);
        let narrow: u128 = s2 as u128;
        proof {
            assert(wide * wide <= 0x4_0000_0000_0000_0000_0000_0000) by (nonlinear_arith)
                requires
                    0 <= wide <= 0x2_0000_0000_0000,
            ;
            assert(1 <= narrow * narrow <= 0x1_0000_0000_0000) by (nonlinear_arith)
                requires
                    1 <= narrow <= 0x100_0000,
            ;
            assert(wide * wide >= 0) by (nonlinear_arith);
        }
        let squares: u128 = wide * wide + narrow * narrow;
        let fine: bool = squares < 0x400_0000_0000_0000_0000;
        let k: u32 = if fine {
            26
        } else {
            0
        };
        let t: u128 = if fine {
            squares * 0x10_0000_0000_0000
        } else {
            squares
        };
        proof {
            lemma_pow2_adds(26, 26);
            lemma_pow2_adds(26, 100);
            lemma_pow2_adds(50, 2);
            lemma_pow2_adds(52, 22);
            assert(0x4_0000_0000_0000int * 4 == 0x10_0000_0000_0000int);
            assert(pow2(126) == 0x400_0000 * 0x10_0000_0000_0000_0000_0000_0000);
            assert(t < pow2(126));
        }
        let root: u128 = integer_root(t);
        let inexact: bool = root * root != t;
        let ghost digits = (2 * root + (if inexact {
            1int
        } else {
            0int
        })) * pow2(e2 as nat);
        let ghost d = pow2((k + 1) as nat) as int;
        proof {
            let e = pow2(e2 as nat) as int;
            let pk = pow2(k as nat) as int;
            lemma_pow2_pos(e2 as nat);
            lemma_pow2_pos((k + 1) as nat);
            lemma_pow2_adds(e2 as nat, gap as nat);
            assert(v1 == wide * e) by (nonlinear_arith)
                requires
                    v1 == s1 * pow2(e1 as nat),
                    pow2(e1 as nat) == e * pow2(gap as nat),
                    wide == s1 * pow2(gap as nat),
            ;
            assert(n == squares * (e * e)) by (nonlinear_arith)
                requires
                    n == v1 * v1 + v2 * v2,
                    v1 == wide * e,
                    v2 == narrow * e,
                    squares == wide * wide + narrow * narrow,
            ;
            assert(pk * pk == if fine {
                0x10_0000_0000_0000int
            } else {
                1int
            });
            assert(n * (pk * pk) == t * (e * e)) by (nonlinear_arith)
                requires
                    n == squares * (e * e),
                    t == squares * (pk * pk),
            ;
            if fine {
                assert(t >= 0x10_0000_0000_0000);
            } else {
                assert(gap >= 12) by {
                    if gap < 12 {
                        lemma_pow2_strictly_increases(gap as nat, 12);
                        assert(wide < 0x10_0000_0000) by (nonlinear_arith)
                            requires
                                wide == s1 * pow2(gap as nat),
                                0 <= s1 <= 0x100_0000,
                                0 <= pow2(gap as nat) < 0x1000,
                        ;
                        assert(wide * wide <= 0x100_0000_0000_0000_0000) by (nonlinear_arith)
                            requires
                                0 <= wide <= 0x10_0000_0000,
                        ;
                        assert(false);
                    }
                }
            }
            assert(root >= 0x400_0000) by {
                if root < 0x400_0000 {
                    assert((root + 1) * (root + 1) <= 0x400_0000 * 0x400_0000) by (nonlinear_arith)
                        requires
                            0 <= root + 1 <= 0x400_0000,
                    ;
                    assert(false);
                }
            }
            let low = (e2 + SCALE - k) as nat;
            lemma_pow2_adds(low, (k + 1) as nat);
            lemma_pow2_adds(e2 as nat, SCALE as nat);
            vstd::arithmetic::power2::lemma_pow2_unfold((e2 + SCALE + 1) as nat);
            let ps = pow2(SCALE as nat) as int;
            let w = pow2(low) * d;
            assert(w == 2 * (e * ps));
            lemma_pow2_pos(SCALE as nat);
            assert(e * ps > 0) by (nonlinear_arith)
                requires
                    e > 0,
                    ps > 0,
            ;
            let g = e * ps;
            assert(root * w == (2 * root) * g) by (nonlinear_arith)
                requires
                    w == 2 * g,
            ;
            assert((root + 1) * w == (2 * root + 2) * g) by (nonlinear_arith)
                requires
                    w == 2 * g,
            ;
            assert(((2 * root) * e) * ps == (2 * root) * g) by (nonlinear_arith)
                requires
                    g == e * ps,
            ;
            assert(((2 * root + 1) * e) * ps == (2 * root + 1) * g) by (nonlinear_arith)
                requires
                    g == e * ps,
            ;
            assert((2 * root) * g < (2 * root + 1) * g && (2 * root + 1) * g < (2 * root + 2) * g) by (nonlinear_arith)
                requires
                    g > 0,
            ;
            lemma_pow2_strictly_increases(63, 100);
        }
        let m: u32 = round_scaled(root, e2 + SCALE - k, inexact, Ghost(digits), Ghost(d));
        proof {
            lemma_root_from_digits(n, t as int, e2 as nat, k as nat, root as int, inexact, m as int);
            lemma_root_exists_at(n, m as int);
        }
        Binary32 { bits: m }
    }

    /// The length of the vector with these two components.
    pub fn hypot(self, other: Self) -> (r: Self)
        ensures
            r == self.hypotenuse(other),
    {
        let first_infinite: bool = !self.is_finite() && !self.is_nan();
        let second_infinite: bool = !other.is_finite() && !other.is_nan();
        if first_infinite || second_infinite {
            return Binary32 { bits: INFINITY_BITS };
        }
        if self.is_nan() || other.is_nan() {
            return Binary32 { bits: NAN_BITS };
        }
        let (_, e1): (u32, u32) = self.parts();
        let (_, e2): (u32, u32) = other.parts();
        if e1 >= e2 {
            self.length_with_smaller(other)
        } else {
            other.length_with_smaller(self)
        }
    }
}

} // verus!
