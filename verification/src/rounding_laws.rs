//! How far rounding to double precision moves the numbers that depend on it.
use crate::arithmetic::size;
use crate::buffer::{points_in_window, seconds_in_window, SECOND};
use crate::double::{
    double, is_exponent, lemma_common_factor, lemma_double, lemma_double_is_exact, lemma_exponent_exists, nearest_even,
    SIGNIFICAND_SPAN,
};
use crate::renderer::time_axis::{from_newest, from_oldest, second, time_mark, Binary64};
use crate::text::decimal;
use vstd::arithmetic::div_mod::lemma_fundamental_div_mod;
use vstd::arithmetic::power2::{lemma2_to64, lemma_pow2_adds, lemma_pow2_pos, pow2};
use vstd::prelude::*;

verus! {

/// Rounding to double precision moves a number by at most one half of the
/// smallest unit, or by one part in two to the power 53 of it.
pub proof fn law_double_precision_is_close(n: int, d: int)
    requires
        0 <= n,
        0 < d,
    ensures
        double(n, d) >= 0,
        2 * size(double(n, d) * d - n) <= d || SIGNIFICAND_SPAN * size(double(n, d) * d - n) <= n,
{
    lemma_exponent_exists(n, d);
    let e = choose|e: nat| is_exponent(n, d, e);
    lemma_double(n, d, e);
    let p = pow2(e) as int;
    lemma_pow2_pos(e);
    let step = d * p;
    assert(step > 0) by (nonlinear_arith)
        requires
            step == d * p,
            d > 0,
            p > 0,
    ;
    let q = nearest_even(n, step);
    lemma_fundamental_div_mod(n, step);
    let (k, r) = (n / step, n % step);
    assert(k >= 0) by (nonlinear_arith)
        requires
            n == step * k + r,
            0 <= r < step,
            n >= 0,
            step > 0,
    ;
    assert((k + 1) * step == step * k + step && k * step == step * k) by (nonlinear_arith);
    assert(2 * size(q * step - n) <= step);
    assert((q * p) * d == q * step && q * p >= 0) by (nonlinear_arith)
        requires
            step == d * p,
            q >= 0,
            p > 0,
    ;
    if e == 0 {
        lemma2_to64();
        assert(step == d) by (nonlinear_arith)
            requires
                step == d * p,
                p == 1,
        ;
    } else {
        assert(SIGNIFICAND_SPAN * step <= 2 * n) by (nonlinear_arith)
            requires
                n == step * k + r,
                0 <= r,
                2 * k >= SIGNIFICAND_SPAN,
                step > 0,
        ;
    }
}

/// A buffer has room for the points of its window at 240 in a second, rounded
/// up: up to rounding neither fewer nor more than one beyond that, whatever
/// part of a second the window has.
pub proof fn law_capacity_covers_the_window(window: nat)
    requires
        window < 0x10_0000 * 1_000_000_000,
    ensures
        ({
            let count = points_in_window(window) * 1_000_000_000;
            &&& 0x100_0000_0000 * (240 * window - count) <= 240 * window + 1
            &&& 0x100_0000_0000 * (count - 240 * window) <= 0x100_0000_0000 * 1_000_000_000 + 240 * window + 1
        }),
{
    let giga = 1_000_000_000int;
    let unit = SECOND as int;
    let secs = window as int / giga;
    let nanos = window as int % giga;
    lemma2_to64();
    lemma_pow2_adds(64, 18);
    assert(pow2(82) == SECOND);
    lemma_double_is_exact(secs, 82);
    law_double_precision_is_close(nanos * unit, giga);
    let x = double(nanos * unit, giga);
    let whole = secs * unit;
    law_double_precision_is_close(whole + x, 1);
    let seconds = double(whole + x, 1);
    assert(seconds == seconds_in_window(window));
    law_double_precision_is_close(seconds * 240, 1);
    let points = double(seconds * 240, 1);
    let count = points_in_window(window);
    lemma_fundamental_div_mod(points, unit);
    assert(points <= count * unit < points + unit) by {
        let (k, r) = (points / unit, points % unit);
        assert(unit * k == k * unit && (k + 1) * unit == k * unit + unit) by (nonlinear_arith);
    }
    let exact = window * unit;
    assert(exact == whole * giga + nanos * unit) by (nonlinear_arith)
        requires
            exact == window * unit,
            window == secs * giga + nanos,
            whole == secs * unit,
    ;
    // All in billionths of the smallest unit.
    let (a, b, c) = (whole * giga + x * giga, seconds * giga, points * giga);
    assert((whole + x) * giga == a) by (nonlinear_arith)
        requires
            a == whole * giga + x * giga,
    ;
    let scaled = count * giga;
    assert(scaled * unit == (count * unit) * giga) by (nonlinear_arith)
        requires
            scaled == count * giga,
    ;
    assert(0x100_0000_0000 * (240 * exact - scaled * unit) <= 240 * exact + unit);
    assert(0x100_0000_0000 * (scaled * unit - 240 * exact) <= 0x100_0000_0000 * (giga * unit) + 240 * exact + unit);
    assert(0x100_0000_0000 * (240 * window - scaled) <= 240 * window + 1) by (nonlinear_arith)
        requires
            0x100_0000_0000 * (240 * exact - scaled * unit) <= 240 * exact + unit,
            exact == window * unit,
            unit > 0,
    ;
    assert(0x100_0000_0000 * (scaled - 240 * window) <= 0x100_0000_0000 * giga + 240 * window + 1) by (
        nonlinear_arith)
        requires
            0x100_0000_0000 * (scaled * unit - 240 * exact) <= 0x100_0000_0000 * (giga * unit) + 240 * exact + unit,
            exact == window * unit,
            unit > 0,
    ;
}

/// A quarter of a whole multiple of a large power of two is exact.
proof fn lemma_quarter(m: int)
    requires
        0 <= m,
        double(m, 1) == m,
    ensures
        double(m * 4, 4) == m,
{
    lemma_exponent_exists(m, 1);
    let e = choose|e: nat| is_exponent(m, 1, e);
    let p = pow2(e) as int;
    lemma_pow2_pos(e);
    lemma_common_factor(m, p, 4);
    assert(1 * p == p && 4 * p == p * 4);
    lemma_double(m, 1, e);
    assert(is_exponent(m * 4, 4, e));
    lemma_double(m * 4, 4, e);
}

/// The marks of the time axis count the seconds back from now: for a window of
/// four times some seconds, the mark after each quarter tells the whole seconds
/// that are left, and the last one tells zero.
pub proof fn law_time_marks_count_back(window: Binary64, quarter: nat, division: int)
    requires
        0 < quarter < 0x1_0000_0000,
        window.units() == (4 * quarter) * second(),
        0 <= division <= 4,
    ensures
        division < 4 ==> time_mark(window, division) == "-"@ + decimal((quarter * (4 - division)) as nat) + "s"@,
        division == 4 ==> time_mark(window, division) == "0"@,
{
    if division < 4 {
        let p = pow2(1072) as int;
        lemma2_to64();
        lemma_pow2_adds(2, 1072);
        lemma_pow2_pos(1072);
        lemma_pow2_pos(1074);
        let w = window.units();
        let n = 4 * quarter;
        let (reached, left) = (quarter * division, quarter * (4 - division));
        assert(second() == 4 * p);
        let s = second();
        assert(w * division == (n * division) * s) by (nonlinear_arith)
            requires
                w == n * s,
        ;
        assert(n * division < 0x20_0000_0000_0000 && 0 <= n * division) by (nonlinear_arith)
            requires
                n == 4 * quarter,
                0 < quarter < 0x1_0000_0000,
                0 <= division < 4,
        ;
        lemma_double_is_exact(n * division, 1074);
        let m = reached * s;
        assert((n * division) * s == m * 4) by (nonlinear_arith)
            requires
                m == reached * s,
                reached == quarter * division,
                n == 4 * quarter,
        ;
        assert(0 <= reached < 0x20_0000_0000_0000 && 0 < left < 0x20_0000_0000_0000) by (nonlinear_arith)
            requires
                reached == quarter * division,
                left == quarter * (4 - division),
                0 < quarter < 0x1_0000_0000,
                0 <= division < 4,
        ;
        lemma_double_is_exact(reached, 1074);
        assert(0 <= m) by (nonlinear_arith)
            requires
                m == reached * s,
                0 <= reached,
                0 < s,
        ;
        lemma_quarter(m);
        assert(from_oldest(w, division) == m);
        assert(w - m == left * s && m < w) by (nonlinear_arith)
            requires
                w == n * s,
                m == reached * s,
                n == 4 * quarter,
                reached == quarter * division,
                left == quarter * (4 - division),
                0 < left,
                0 < s,
        ;
        lemma_double_is_exact(left, 1074);
        assert(from_newest(w, division) == left * s);
        lemma_common_factor(left, 1, s);
        assert(1 * s == s);
        assert(nearest_even(left, 1) == left);
    }
}

} // verus!
