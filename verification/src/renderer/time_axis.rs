//! The seconds at the marks of the time axis, in double precision.
use crate::arithmetic::power_of_two;
use crate::double::{
    double, is_exponent, lemma_common_factor, lemma_double, lemma_double_is_exact, lemma_double_scales,
    lemma_exponent_exists, nearest_even, round_to_double, SIGNIFICAND_SPAN,
};
use crate::renderer::labels::GRID_DIVISIONS;
use crate::text::{decimal, wide_decimal_text};
use vstd::arithmetic::div_mod::{lemma_basic_div, lemma_div_pos_is_pos, lemma_fundamental_div_mod, lemma_small_mod};
use vstd::arithmetic::power2::{lemma2_to64, lemma_pow2_adds, lemma_pow2_pos, lemma_pow2_strictly_increases, pow2};
use vstd::prelude::*;
use vstd::string::*;

verus! {

/// Number of patterns that share one exponent.
pub const WIDE_FRACTION_SPAN: u64 = 0x10_0000_0000_0000;

/// Pattern of two to the power 64: more seconds than a span of time can hold.
pub const WINDOW_LIMIT_BITS: u64 = 0x43f0_0000_0000_0000;

/// Pattern of negative zero.
pub const NEGATIVE_ZERO_BITS: u64 = 0x8000_0000_0000_0000;

/// A double-precision number, given by its bit pattern.
#[derive(Debug, Clone, Copy, PartialEq, Eq, Structural)]
pub struct Binary64 {
    pub bits: u64,
}

impl Binary64 {
    /// Whether the number of seconds is a span of time: not negative, and less
    /// than two to the power 64.
    pub open spec fn is_span(self) -> bool {
        self.bits < WINDOW_LIMIT_BITS || self.bits == NEGATIVE_ZERO_BITS
    }

    /// Whether the number of seconds is a span of time.
    pub fn holds_span(self) -> (r: bool)
        ensures
            r == self.is_span(),
    {
        self.bits < WINDOW_LIMIT_BITS || self.bits == NEGATIVE_ZERO_BITS
    }

    /// The exponent field of a span.
    pub open spec fn exponent(self) -> int {
        if self.bits < NEGATIVE_ZERO_BITS {
            self.bits as int / WIDE_FRACTION_SPAN as int
        } else {
            0
        }
    }

    /// The significand of a span.
    pub open spec fn significand(self) -> int {
        if self.bits >= NEGATIVE_ZERO_BITS {
            0
        } else if self.exponent() == 0 {
            self.bits as int % WIDE_FRACTION_SPAN as int
        } else {
            WIDE_FRACTION_SPAN + self.bits as int % WIDE_FRACTION_SPAN as int
        }
    }

    /// The exact value of a span in units of two to the power -1074, the
    /// smallest positive number of the format.
    pub open spec fn units(self) -> int {
        self.significand() * pow2(
            (if self.exponent() == 0 {
                0
            } else {
                self.exponent() - 1
            }) as nat,
        )
    }
}

/// One second in units of the smallest positive number.
pub open spec fn second() -> int {
    pow2(1074) as int
}

/// How far a division lies from the oldest point, each operation in double
/// precision.
pub open spec fn from_oldest(window: int, division: int) -> int {
    double(double(window * division, 1), GRID_DIVISIONS as int)
}

/// How far a division lies from the newest point, in double precision.
pub open spec fn from_newest(window: int, division: int) -> int {
    let reached = from_oldest(window, division);
    if reached < window {
        double(window - reached, 1)
    } else {
        double(reached - window, 1)
    }
}

/// The text of a time mark: zero at the newest point, and elsewhere the
/// seconds before it, without decimals.
pub open spec fn time_mark(window: Binary64, division: int) -> Seq<char> {
    if division == GRID_DIVISIONS {
        "0"@
    } else {
        let seconds = decimal(nearest_even(from_newest(window.units(), division), second()) as nat);
        if from_oldest(window.units(), division) < window.units() {
            "-"@ + seconds + "s"@
        } else {
            seconds + "s"@
        }
    }
}

/// A power of two does not affect rounding to fifty-three bits, as long as the
/// quotient has all its bits.
proof fn lemma_quotient_scales(n: int, d: int, k: nat)
    requires
        0 < d,
        SIGNIFICAND_SPAN * d <= n,
    ensures
        double(n * pow2(k), d) == double(n, d) * pow2(k),
{
    lemma_exponent_exists(n, d);
    let e = choose|e: nat| is_exponent(n, d, e);
    lemma_double(n, d, e);
    lemma_pow2_pos(e);
    lemma_pow2_pos(k);
    lemma_pow2_adds(e, k);
    lemma2_to64();
    let (pe, pk) = (pow2(e) as int, pow2(k) as int);
    let a = d * pe;
    assert(a > 0 && d * pow2(e + k) == a * pk && 0 <= n * pk) by (nonlinear_arith)
        requires
            a == d * pe,
            d > 0,
            pe > 0,
            pk > 0,
            n >= 0,
            pow2(e + k) == pe * pk,
    ;
    lemma_common_factor(n, a, pk);
    assert(e > 0) by {
        if e == 0 {
            assert(d * pow2(0) == d) by (nonlinear_arith)
                requires
                    pow2(0) == 1,
            ;
            lemma_fundamental_div_mod(n, d);
            assert(n / d >= SIGNIFICAND_SPAN) by (nonlinear_arith)
                requires
                    n == d * (n / d) + n % d,
                    0 <= n % d < d,
                    SIGNIFICAND_SPAN * d <= n,
                    d > 0,
            ;
        }
    }
    assert(is_exponent(n * pk, d, e + k));
    lemma_double(n * pk, d, e + k);
    let q = nearest_even(n, a);
    assert(q * (pe * pk) == (q * pe) * pk) by (nonlinear_arith);
}

/// A power of two never affects the rounding of an integer that it leaves an
/// integer.
proof fn lemma_integer_scales(n: int, k: nat)
    requires
        0 <= n,
    ensures
        double(n * pow2(k), 1) == double(n, 1) * pow2(k),
{
    lemma2_to64();
    if n < SIGNIFICAND_SPAN {
        lemma_double_is_exact(n, k);
        lemma_double_is_exact(n, 0);
        assert(n * pow2(0) == n) by (nonlinear_arith)
            requires
                pow2(0) == 1,
        ;
    } else {
        lemma_double_scales(n, k);
    }
}

/// Rounding does not halve a number.
proof fn lemma_rounding_keeps_half(n: int)
    requires
        2 <= n,
    ensures
        n <= 2 * double(n, 1),
{
    lemma_exponent_exists(n, 1);
    let e = choose|e: nat| is_exponent(n, 1, e);
    lemma_double(n, 1, e);
    let p = pow2(e) as int;
    lemma_pow2_pos(e);
    assert(1 * pow2(e) == p);
    lemma_fundamental_div_mod(n, p);
    lemma2_to64();
    let q = n / p;
    if e == 0 {
        assert(p == 1);
        assert(n / 1 == n);
    }
    assert(n <= 2 * (q * p)) by (nonlinear_arith)
        requires
            n == p * q + n % p,
            0 <= n % p < p,
            q >= 1,
            p > 0,
    ;
    assert(q * p <= nearest_even(n, p) * p) by (nonlinear_arith)
        requires
            q <= nearest_even(n, p),
            p > 0,
    ;
}

/// The marks of a window scale with it, as long as the smaller window has
/// bits to spare.
proof fn lemma_marks_scale(n: int, k: nat, division: int)
    requires
        8 * SIGNIFICAND_SPAN <= n,
        0 <= division <= 4,
    ensures
        from_oldest(n * pow2(k), division) == from_oldest(n, division) * pow2(k),
        from_newest(n * pow2(k), division) == from_newest(n, division) * pow2(k),
        from_oldest(n * pow2(k), division) < n * pow2(k) <==> from_oldest(n, division) < n,
        0 <= from_oldest(n, division),
{
    let p = pow2(k) as int;
    lemma_pow2_pos(k);
    assert((n * p) * division == (n * division) * p) by (nonlinear_arith);
    assert(0 <= n * division) by (nonlinear_arith)
        requires
            n >= 0,
            division >= 0,
    ;
    lemma_integer_scales(n * division, k);
    let inner = double(n * division, 1);
    if division == 0 {
        lemma2_to64();
        assert(n * 0 == 0 && 0 * p == 0);
        assert(1 * pow2(0) == 1 && 4 * pow2(0) == 4);
        lemma_double(0, 1, 0);
        lemma_double(0, 4, 0);
    } else {
        assert(n <= n * division) by (nonlinear_arith)
            requires
                n >= 0,
                division >= 1,
        ;
        lemma_rounding_keeps_half(n * division);
        lemma_quotient_scales(inner, 4, k);
    }
    let reached = from_oldest(n, division);
    lemma_double_is_natural(inner, 4);
    assert(n * p - reached * p == (n - reached) * p && reached * p - n * p == (reached - n) * p) by (nonlinear_arith);
    assert(reached * p < n * p <==> reached < n) by (nonlinear_arith)
        requires
            p > 0,
    ;
    if reached < n {
        lemma_integer_scales(n - reached, k);
    } else {
        lemma_integer_scales(reached - n, k);
    }
}

/// A rounded number is not negative.
proof fn lemma_double_is_natural(n: int, d: int)
    requires
        0 <= n,
        0 < d,
    ensures
        0 <= double(n, d),
{
    lemma_exponent_exists(n, d);
    let e = choose|e: nat| is_exponent(n, d, e);
    lemma_double(n, d, e);
    lemma_pow2_pos(e);
    let p = pow2(e) as int;
    let a = d * p;
    assert(a > 0) by (nonlinear_arith)
        requires
            a == d * p,
            d > 0,
            p > 0,
    ;
    lemma_div_pos_is_pos(n, a);
    assert(0 <= nearest_even(n, a) * p) by (nonlinear_arith)
        requires
            nearest_even(n, a) >= 0,
            p > 0,
    ;
}

/// Rounds to fifty-three bits.
fn rounded(n: u128, d: u64) -> (r: u128)
    requires
        0 < d,
        n < 0x1_0000_0000_0000_0000_0000,
    ensures
        r == double(n as int, d as int),
        r <= 2 * n + 1,
{
    let (significand, exponent): (u64, u32) = round_to_double(n, d);
    let p: u128 = power_of_two(exponent);
    proof {
        assert(significand as u128 * p <= 2 * n + 1);
    }
    (significand as u128) * p
}

/// How far a division lies from the two ends of a window of `n` units.
fn mark_of(n: u128, division: u64) -> (r: (u128, u128))
    requires
        n < 0x400_0000_0000_0000,
        division <= 4,
    ensures
        r.0 == from_oldest(n as int, division as int),
        r.1 == from_newest(n as int, division as int),
        r.1 < 0x4_0000_0000_0000_0000,
{
    proof {
        assert(n * division <= 4 * n) by (nonlinear_arith)
            requires
                division <= 4,
        ;
    }
    let product: u128 = n * (division as u128);
    let inner: u128 = rounded(product, 1);
    let reached: u128 = rounded(inner, 4);
    let rest: u128 = if reached < n {
        rounded(n - reached, 1)
    } else {
        rounded(reached - n, 1)
    };
    (reached, rest)
}

/// The whole seconds in `n` times two to the power `k` units, of two equally
/// near numbers the even one.
fn whole_seconds(n: u128, k: u32) -> (r: u128)
    requires
        n < 0x4_0000_0000_0000_0000,
        k <= 1081,
    ensures
        r == nearest_even(n * pow2(k as nat), second()),
{
    proof {
        lemma2_to64();
        lemma_pow2_pos(k as nat);
        lemma_pow2_pos(1074);
    }
    if k >= 1074 {
        let j: u32 = k - 1074;
        proof {
            lemma_pow2_adds(j as nat, 1074);
            lemma_pow2_pos(j as nat);
            let pj = pow2(j as nat) as int;
            if j < 7 {
                lemma_pow2_strictly_increases(j as nat, 7);
            }
            assert(n * pow2(k as nat) == (n * pj) * second()) by (nonlinear_arith)
                requires
                    pow2(k as nat) == pj * second(),
            ;
            assert(0 <= n * pj <= 128 * n) by (nonlinear_arith)
                requires
                    0 <= pj <= 128,
            ;
            lemma_common_factor(n * pj, 1, second());
        }
        n * power_of_two(j)
    } else {
        let j: u32 = 1074 - k;
        proof {
            lemma_pow2_adds(j as nat, k as nat);
            lemma_pow2_pos(j as nat);
            lemma_common_factor(n as int, pow2(j as nat) as int, pow2(k as nat) as int);
        }
        if j >= 67 {
            proof {
                lemma_pow2_adds(64, 3);
                if j > 67 {
                    lemma_pow2_strictly_increases(67, j as nat);
                }
                lemma_basic_div(n as int, pow2(j as nat) as int);
                lemma_small_mod(n as nat, pow2(j as nat));
            }
            return 0;
        }
        let p: u128 = power_of_two(j);
        proof {
            lemma_pow2_adds(64, 3);
            lemma_pow2_strictly_increases(j as nat, 67);
        }
        let whole: u128 = n / p;
        let rest: u128 = n % p;
        if 2 * rest < p || (2 * rest == p && whole % 2 == 0) {
            whole
        } else {
            whole + 1
        }
    }
}

/// The text of a time mark.
pub fn time_mark_text(window: Binary64, division: u64) -> (r: String)
    requires
        window.is_span(),
        division <= GRID_DIVISIONS,
    ensures
        r@ == time_mark(window, division as int),
{
    if division == GRID_DIVISIONS {
        return "0".to_owned();
    }
    proof {
        lemma2_to64();
    }
    let (significand, exponent): (u64, u64) = if window.bits >= NEGATIVE_ZERO_BITS {
        (0, 0)
    } else {
        let fraction: u64 = window.bits % WIDE_FRACTION_SPAN;
        let exponent: u64 = window.bits / WIDE_FRACTION_SPAN;
        (
            if exponent == 0 {
                fraction
            } else {
                WIDE_FRACTION_SPAN + fraction
            },
            exponent,
        )
    };
    assert(significand == window.significand() && exponent == window.exponent());
    assert(exponent <= 1086);
    let (n, k): (u128, u32) = if exponent > 5 {
        proof {
            lemma_pow2_adds(4, (exponent - 5) as nat);
            let p = pow2((exponent - 5) as nat) as int;
            assert(significand * (16 * p) == (16 * significand) * p) by (nonlinear_arith);
        }
        (16 * (significand as u128), (exponent - 5) as u32)
    } else {
        let shift: u32 = if exponent == 0 {
            0
        } else {
            (exponent - 1) as u32
        };
        let p: u128 = power_of_two(shift);
        proof {
            if shift < 4 {
                lemma_pow2_strictly_increases(shift as nat, 4);
            }
            assert(0 <= significand * p <= significand * 16) by (nonlinear_arith)
                requires
                    0 <= p <= 16,
            ;
            assert(significand * p * pow2(0) == significand * p) by (nonlinear_arith)
                requires
                    pow2(0) == 1,
            ;
        }
        ((significand as u128) * p, 0)
    };
    assert(window.units() == n * pow2(k as nat));
    let (reached, rest): (u128, u128) = mark_of(n, division);
    proof {
        if k > 0 {
            lemma_marks_scale(n as int, k as nat, division as int);
        } else {
            assert(rest * pow2(0) == rest) by (nonlinear_arith)
                requires
                    pow2(0) == 1,
            ;
        }
    }
    let seconds: u128 = whole_seconds(rest, k);
    let mut text = if reached < n {
        "-".to_owned()
    } else {
        "".to_owned()
    };
    text.append(wide_decimal_text(seconds).as_str());
    text.append("s");
    proof {
        reveal_strlit("");
        assert(text@ =~= time_mark(window, division as int));
    }
    text
}

} // verus!
