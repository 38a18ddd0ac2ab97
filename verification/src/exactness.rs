//! Order and exactness of rounded results.
use crate::arithmetic::{
    law_sum_and_product_commute, lemma_exact_value_is_kept, lemma_one_is_unit, lemma_representable,
    lemma_results_are_numbers, lemma_rounding_exists, lemma_rounding_is_unique, lemma_rounding_keeps_order, nearest,
    rounds_to, size, DOUBLE_SPAN,
};
use crate::binary32::{lemma_magnitude_value_increases, magnitude_value, unit_value, Binary32, FRACTION_SPAN, INFINITY_BITS, ONE_BITS};
use vstd::arithmetic::div_mod::{lemma_div_is_ordered, lemma_fundamental_div_mod};
use vstd::arithmetic::power2::{lemma2_to64, lemma_pow2_adds, lemma_pow2_pos, lemma_pow2_unfold, pow2};
use vstd::prelude::*;

verus! {

/// Whether a number is finite and has no sign.
pub open spec fn plain(x: Binary32) -> bool {
    x.finite() && !x.negative()
}

/// The value of a number without a sign is that of its magnitude.
pub proof fn lemma_plain(x: Binary32)
    requires
        plain(x),
    ensures
        x.value() == magnitude_value(x.magnitude()),
        x.rank() == x.magnitude(),
        size(x.value()) == x.value(),
        x.value() >= 0,
        x.value() == 0 <==> x.magnitude() == 0,
{
    assert(magnitude_value(0) == 0);
    lemma_magnitude_value_increases(0, x.magnitude());
}

/// A product of plain numbers that is bounded by a plain number.
pub proof fn lemma_product_is_plain(a: Binary32, b: Binary32, bound: Binary32)
    requires
        plain(a),
        plain(b),
        plain(bound),
        a.value() * b.value() <= bound.value() * unit_value(),
    ensures
        plain(a.product(b)),
        a.product(b).value() <= bound.value(),
        a.product(b).magnitude() == nearest(a.value() * b.value(), unit_value()),
{
    lemma_plain(a);
    lemma_plain(b);
    lemma_plain(bound);
    lemma_pow2_pos(149);
    let (n, unit) = (a.value() * b.value(), unit_value());
    assert(n >= 0) by (nonlinear_arith)
        requires
            n == a.value() * b.value(),
            a.value() >= 0,
            b.value() >= 0,
    ;
    lemma_exact_value_is_kept(bound.value() * unit, unit, bound.magnitude());
    lemma_rounding_keeps_order(n, bound.value() * unit, unit);
    lemma_rounding_exists(n, unit);
    lemma_plain(a.product(b));
    lemma_magnitude_value_increases(a.product(b).magnitude(), bound.magnitude());
}

/// A product is not below a number that is not above the exact product.
pub proof fn lemma_product_is_at_least(a: Binary32, b: Binary32, bound: Binary32)
    requires
        plain(a),
        plain(b),
        plain(bound),
        plain(a.product(b)),
        bound.value() * unit_value() <= a.value() * b.value(),
    ensures
        bound.value() <= a.product(b).value(),
{
    lemma_plain(a);
    lemma_plain(b);
    lemma_plain(bound);
    lemma_plain(a.product(b));
    lemma_pow2_pos(149);
    let (n, unit) = (a.value() * b.value(), unit_value());
    assert(0 <= bound.value() * unit) by (nonlinear_arith)
        requires
            bound.value() >= 0,
            unit >= 0,
    ;
    lemma_exact_value_is_kept(bound.value() * unit, unit, bound.magnitude());
    lemma_rounding_keeps_order(bound.value() * unit, n, unit);
    lemma_rounding_exists(n, unit);
    lemma_magnitude_value_increases(bound.magnitude(), a.product(b).magnitude());
}

/// Products keep the order of their factors.
pub proof fn lemma_products_keep_order(a: Binary32, b: Binary32, c: Binary32, d: Binary32)
    requires
        plain(a),
        plain(b),
        plain(c),
        plain(d),
        plain(a.product(b)),
        plain(c.product(d)),
        a.value() <= c.value(),
        b.value() <= d.value(),
    ensures
        a.product(b).value() <= c.product(d).value(),
{
    lemma_plain(a);
    lemma_plain(b);
    lemma_plain(c);
    lemma_plain(d);
    let (x, y, z, w) = (a.value(), b.value(), c.value(), d.value());
    assert(0 <= x * y <= z * w) by (nonlinear_arith)
        requires
            0 <= x <= z,
            0 <= y <= w,
    ;
    lemma_pow2_pos(149);
    lemma_rounding_keeps_order(x * y, z * w, unit_value());
    lemma_rounding_exists(x * y, unit_value());
    lemma_rounding_exists(z * w, unit_value());
    lemma_plain(a.product(b));
    lemma_plain(c.product(d));
    lemma_magnitude_value_increases(a.product(b).magnitude(), c.product(d).magnitude());
}

/// A sum of plain numbers that is bounded by a plain number.
pub proof fn lemma_sum_is_plain(a: Binary32, b: Binary32, bound: Binary32)
    requires
        plain(a),
        plain(b),
        plain(bound),
        a.value() + b.value() <= bound.value(),
    ensures
        plain(a.sum(b)),
        a.sum(b).value() <= bound.value(),
{
    lemma_plain(a);
    lemma_plain(b);
    lemma_plain(bound);
    let n = a.value() + b.value();
    lemma_exact_value_is_kept(bound.value(), 1, bound.magnitude());
    lemma_rounding_keeps_order(n, bound.value(), 1);
    lemma_rounding_exists(n, 1);
    lemma_plain(a.sum(b));
    lemma_magnitude_value_increases(a.sum(b).magnitude(), bound.magnitude());
    assert(magnitude_value(0) == 0);
}

/// A sum is not below a number that is not above the exact sum.
pub proof fn lemma_sum_is_at_least(a: Binary32, b: Binary32, bound: Binary32)
    requires
        plain(a),
        plain(b),
        plain(bound),
        plain(a.sum(b)),
        bound.value() <= a.value() + b.value(),
    ensures
        bound.value() <= a.sum(b).value(),
{
    lemma_plain(a);
    lemma_plain(b);
    lemma_plain(bound);
    lemma_plain(a.sum(b));
    let n = a.value() + b.value();
    lemma_exact_value_is_kept(bound.value(), 1, bound.magnitude());
    lemma_rounding_keeps_order(bound.value(), n, 1);
    lemma_rounding_exists(n, 1);
    lemma_magnitude_value_increases(bound.magnitude(), a.sum(b).magnitude());
    assert(magnitude_value(0) == 0);
}

/// Sums keep the order of their operands.
pub proof fn lemma_sums_keep_order(a: Binary32, b: Binary32, c: Binary32, d: Binary32)
    requires
        plain(a),
        plain(b),
        plain(c),
        plain(d),
        plain(a.sum(b)),
        plain(c.sum(d)),
        a.value() <= c.value(),
        b.value() <= d.value(),
    ensures
        a.sum(b).value() <= c.sum(d).value(),
{
    lemma_plain(a);
    lemma_plain(b);
    lemma_plain(c);
    lemma_plain(d);
    lemma_plain(a.sum(b));
    lemma_plain(c.sum(d));
    let (n, m) = (a.value() + b.value(), c.value() + d.value());
    lemma_rounding_keeps_order(n, m, 1);
    lemma_rounding_exists(n, 1);
    lemma_rounding_exists(m, 1);
    lemma_magnitude_value_increases(a.sum(b).magnitude(), c.sum(d).magnitude());
    assert(magnitude_value(0) == 0);
}

/// A plain difference grows with the first number and is not above it.
pub proof fn lemma_differences_keep_order(a: Binary32, b: Binary32, c: Binary32)
    requires
        plain(a),
        plain(b),
        plain(c),
        c.value() <= a.value() <= b.value(),
    ensures
        plain(a.difference(c)),
        plain(b.difference(c)),
        a.difference(c).value() <= b.difference(c).value(),
{
    lemma_plain(a);
    lemma_plain(b);
    lemma_plain(c);
    assert(magnitude_value(0) == 0);
    assert(c.opposite().value() == -c.value());
    let (n, m) = (a.value() - c.value(), b.value() - c.value());
    lemma_rounding_exists(n, 1);
    lemma_rounding_exists(m, 1);
    lemma_exact_value_is_kept(a.value(), 1, a.magnitude());
    lemma_exact_value_is_kept(b.value(), 1, b.magnitude());
    lemma_rounding_keeps_order(n, a.value(), 1);
    lemma_rounding_keeps_order(m, b.value(), 1);
    lemma_rounding_keeps_order(n, m, 1);
    lemma_plain(a.difference(c));
    lemma_plain(b.difference(c));
    lemma_magnitude_value_increases(a.difference(c).magnitude(), b.difference(c).magnitude());
    if n == 0 {
        lemma_exact_value_is_kept(0, 1, 0);
    }
}

/// The difference of two numbers of like size is exact.
pub proof fn lemma_difference_is_exact(a: Binary32, b: Binary32)
    requires
        plain(a),
        plain(b),
        a.value() <= b.value(),
        b.value() <= 2 * a.value() || b.value() < DOUBLE_SPAN,
    ensures
        plain(b.difference(a)),
        b.difference(a).value() == b.value() - a.value(),
{
    lemma_plain(a);
    lemma_plain(b);
    lemma_differences_keep_order(b, b, a);
    lemma_plain(b.difference(a));
    assert(magnitude_value(0) == 0);
    let n = b.value() - a.value();
    if n > 0 {
        let m = if b.value() < DOUBLE_SPAN {
            assert(pow2(0) == 1) by {
                lemma2_to64();
            }
            assert(n * pow2(0) == n) by (nonlinear_arith)
                requires
                    pow2(0) == 1,
            ;
            lemma_representable(n, 0)
        } else {
            a.lemma_parts();
            b.lemma_parts();
            lemma_magnitude_value_increases(b.magnitude(), a.magnitude());
            lemma_div_is_ordered(a.magnitude(), b.magnitude(), FRACTION_SPAN as int);
            let (s, q) = (a.significand(), a.quantum());
            let (r, p) = (b.significand(), b.quantum());
            let k = (p - q) as nat;
            lemma_pow2_adds(q, k);
            lemma_pow2_pos(q);
            let (pq, pk) = (pow2(q) as int, pow2(k) as int);
            let steps = r * pk - s;
            assert(n == steps * pq) by (nonlinear_arith)
                requires
                    n == r * pow2(p) - s * pq,
                    pow2(p) == pq * pk,
                    steps == r * pk - s,
            ;
            assert(0 <= steps <= s) by (nonlinear_arith)
                requires
                    0 < n <= s * pq,
                    n == steps * pq,
                    pq > 0,
            ;
            lemma_representable(steps, q)
        };
        lemma_exact_value_is_kept(n, 1, m);
    }
}

/// Twice a normal magnitude lies one binade higher.
pub proof fn lemma_next_binade(m: int)
    requires
        FRACTION_SPAN <= m,
    ensures
        magnitude_value(m + FRACTION_SPAN) == 2 * magnitude_value(m),
{
    let span = FRACTION_SPAN as int;
    lemma_fundamental_div_mod(m, span);
    let e = m / span;
    let f = m % span;
    assert((m + span) / span == e + 1 && (m + span) % span == f && e >= 1);
    lemma_pow2_unfold(e as nat);
    let p = pow2((e - 1) as nat) as int;
    assert((span + f) * (2 * p) == 2 * ((span + f) * p)) by (nonlinear_arith);
}

/// Scaled by a number between zero and one, two numbers of like size stay of
/// like size.
pub proof fn lemma_scaled_pair(a: Binary32, b: Binary32, o: Binary32)
    requires
        plain(a),
        plain(b),
        plain(o),
        o.value() <= unit_value(),
        a.value() <= b.value() < 2 * a.value(),
    ensures
        plain(a.product(o)),
        plain(b.product(o)),
        a.product(o).value() <= b.product(o).value(),
        b.product(o).value() <= 2 * a.product(o).value() || b.product(o).value() < DOUBLE_SPAN,
{
    let unit = unit_value();
    lemma_pow2_pos(149);
    lemma_plain(a);
    lemma_plain(b);
    lemma_plain(o);
    let (x, y, z) = (a.value(), b.value(), o.value());
    assert(x * z <= x * unit && y * z <= y * unit) by (nonlinear_arith)
        requires
            0 <= x,
            0 <= y,
            0 <= z <= unit,
    ;
    lemma_product_is_plain(a, o, a);
    lemma_product_is_plain(b, o, b);
    lemma_products_keep_order(a, o, b, o);
    lemma_plain(a.product(o));
    lemma_plain(b.product(o));
    let m0 = a.product(o).magnitude();
    let m1 = b.product(o).magnitude();
    assert(0 <= x * z && 0 <= y * z && (z > 0 ==> y * z < 2 * (x * z)) && (z == 0 ==> y * z == 0 && x * z == 0))
        by (nonlinear_arith)
        requires
            0 <= x <= y < 2 * x,
            0 <= z,
    ;
    lemma_rounding_exists(x * z, unit);
    lemma_rounding_exists(y * z, unit);
    if z == 0 {
        assert(magnitude_value(0) == 0);
        assert(0 == 0 * unit);
        lemma_exact_value_is_kept(0, unit, 0);
    } else if m0 < FRACTION_SPAN {
        let next = 2 * m0 + 1;
        let bound = lemma_representable(next, 0);
        assert(pow2(0) == 1) by {
            lemma2_to64();
        }
        assert(magnitude_value(bound) == next) by (nonlinear_arith)
            requires
                magnitude_value(bound) == next * pow2(0),
                pow2(0) == 1,
        ;
        lemma_small_magnitudes(m0);
        assert(2 * (x * z) <= next * unit);
        lemma_exact_value_is_kept(next * unit, unit, bound);
        lemma_rounding_keeps_order(y * z, next * unit, unit);
        lemma_magnitude_value_increases(m1, bound);
    } else if m1 > m0 + FRACTION_SPAN {
        let double = m0 + FRACTION_SPAN;
        lemma_next_binade(m0);
        lemma_next_binade(m0 + 1);
        lemma_magnitude_value_increases(double, m1 - 1);
        lemma_magnitude_value_increases(double + 1, m1);
        let low = magnitude_value(m0) + magnitude_value(m0 + 1);
        let high = magnitude_value(m1 - 1) + magnitude_value(m1);
        assert(2 * low <= high);
        assert(high * unit >= 2 * (low * unit)) by (nonlinear_arith)
            requires
                2 * low <= high,
                unit > 0,
        ;
        assert(false);
    } else {
        lemma_next_binade(m0);
        lemma_magnitude_value_increases(m1, m0 + FRACTION_SPAN);
    }
}

/// A magnitude of the lowest binades is its own value.
proof fn lemma_small_magnitudes(m: int)
    requires
        0 <= m < FRACTION_SPAN,
    ensures
        magnitude_value(m) == m,
        magnitude_value(m + 1) == m + 1,
{
    lemma2_to64();
    if m + 1 == FRACTION_SPAN {
        assert(magnitude_value(m + 1) == FRACTION_SPAN * pow2(0)) by {
            assert((m + 1) / (FRACTION_SPAN as int) == 1 && (m + 1) % (FRACTION_SPAN as int) == 0);
        }
    }
}

/// A product with a number between zero and one is not above the other factor.
pub proof fn lemma_share_is_at_most_the_whole(a: Binary32, b: Binary32)
    requires
        a.magnitude() <= ONE_BITS,
        b.finite(),
    ensures
        a.product(b).magnitude() <= b.magnitude(),
        a.product(b).negative() == (a.negative() != b.negative()),
{
    let x = size(a.value());
    let y = size(b.value());
    let unit = unit_value();
    a.lemma_parts();
    b.lemma_parts();
    lemma_one_is_unit();
    lemma_pow2_pos(149);
    assert(magnitude_value(0) == 0);
    lemma_magnitude_value_increases(0, a.magnitude());
    lemma_magnitude_value_increases(0, b.magnitude());
    lemma_magnitude_value_increases(a.magnitude(), ONE_BITS as int);
    assert(0 <= x * y <= y * unit) by (nonlinear_arith)
        requires
            0 <= x <= unit,
            0 <= y,
    ;
    lemma_exact_value_is_kept(y * unit, unit, b.magnitude());
    lemma_rounding_keeps_order(x * y, y * unit, unit);
    lemma_rounding_exists(x * y, unit);
}

/// The sum of two numbers is at most twice the larger one.
pub proof fn lemma_sum_within(a: Binary32, b: Binary32, m: int)
    requires
        a.magnitude() <= m,
        b.magnitude() <= m,
        FRACTION_SPAN <= m,
        m + FRACTION_SPAN < INFINITY_BITS,
    ensures
        a.sum(b).magnitude() <= m + FRACTION_SPAN,
        a.difference(b).magnitude() <= m + FRACTION_SPAN,
{
    lemma_signed_sum_within(a, b, m);
    lemma_signed_sum_within(a, b.opposite(), m);
}

proof fn lemma_signed_sum_within(a: Binary32, b: Binary32, m: int)
    requires
        a.magnitude() <= m,
        b.magnitude() <= m,
        FRACTION_SPAN <= m,
        m + FRACTION_SPAN < INFINITY_BITS,
    ensures
        a.sum(b).magnitude() <= m + FRACTION_SPAN,
{
    let n = size(a.value() + b.value());
    let limit = magnitude_value(m + FRACTION_SPAN);
    a.lemma_parts();
    b.lemma_parts();
    lemma_next_binade(m);
    lemma_magnitude_value_increases(a.magnitude(), m);
    lemma_magnitude_value_increases(b.magnitude(), m);
    lemma_exact_value_is_kept(limit, 1, m + FRACTION_SPAN);
    lemma_rounding_keeps_order(n, limit, 1);
    lemma_rounding_exists(n, 1);
}

/// A common factor of numerator and denominator does not affect rounding.
pub proof fn lemma_common_scale(n: int, d: int, p: int)
    requires
        0 <= n,
        0 < d,
        0 < p,
    ensures
        nearest(n * p, d * p) == nearest(n, d),
        rounds_to(n, d, nearest(n, d)),
{
    lemma_rounding_exists(n, d);
    let m = nearest(n, d);
    let (np, dp) = (n * p, d * p);
    assert(0 <= np && 0 < dp) by (nonlinear_arith)
        requires
            np == n * p,
            dp == d * p,
            0 <= n,
            0 < d,
            0 < p,
    ;
    if m > 0 {
        lemma_scaled_comparison(n, d, p, magnitude_value(m - 1) + magnitude_value(m));
    }
    if m < INFINITY_BITS {
        lemma_scaled_comparison(n, d, p, magnitude_value(m) + magnitude_value(m + 1));
    }
    assert(rounds_to(np, dp, m));
    lemma_rounding_exists(np, dp);
    lemma_rounding_is_unique(np, dp, m, nearest(np, dp));
}

proof fn lemma_scaled_comparison(n: int, d: int, p: int, middle: int)
    requires
        0 < p,
    ensures
        2 * (n * p) > middle * (d * p) <==> 2 * n > middle * d,
        2 * (n * p) < middle * (d * p) <==> 2 * n < middle * d,
        2 * (n * p) == middle * (d * p) <==> 2 * n == middle * d,
{
    let (a, b) = (2 * n, middle * d);
    assert(2 * (n * p) == a * p && middle * (d * p) == b * p) by (nonlinear_arith)
        requires
            a == 2 * n,
            b == middle * d,
    ;
    assert((a * p > b * p <==> a > b) && (a * p < b * p <==> a < b) && (a * p == b * p <==> a == b))
        by (nonlinear_arith)
        requires
            0 < p,
    ;
}

/// The product of a number with an integer that is represented exactly is the
/// rounded multiple.
pub proof fn lemma_multiple(a: Binary32, b: Binary32, k: int)
    requires
        a.finite(),
        b.finite(),
        !b.negative(),
        0 <= k,
        b.value() == k * unit_value(),
    ensures
        a.product(b).magnitude() == nearest(size(a.value()) * k, 1),
        a.product(b).negative() == a.negative(),
        b.product(a) == a.product(b),
{
    let (x, u) = (size(a.value()), unit_value());
    lemma_pow2_pos(149);
    a.lemma_parts();
    b.lemma_parts();
    assert(magnitude_value(0) == 0);
    lemma_magnitude_value_increases(0, a.magnitude());
    assert(0 <= k * u && 0 <= x * k && x * (k * u) == (x * k) * u && 1 * u == u) by (nonlinear_arith)
        requires
            0 <= k,
            0 <= x,
            0 < u,
    ;
    lemma_common_scale(x * k, 1, u);
    lemma_results_are_numbers(a, b);
    law_sum_and_product_commute(a, b);
}

/// The quotient of two integers that are represented exactly is their rounded
/// ratio.
pub proof fn lemma_ratio(a: Binary32, b: Binary32, k: int, n: int)
    requires
        plain(a),
        plain(b),
        0 <= k,
        0 < n,
        a.value() == k * unit_value(),
        b.value() == n * unit_value(),
    ensures
        a.quotient(b).magnitude() == nearest(k * unit_value(), n),
        !a.quotient(b).negative(),
        !a.quotient(b).nan(),
{
    let u = unit_value();
    lemma_pow2_pos(149);
    lemma_plain(a);
    lemma_plain(b);
    assert(0 <= k * u && n * u > 0 && (k * u) * u >= 0) by (nonlinear_arith)
        requires
            0 <= k,
            0 < n,
            0 < u,
    ;
    lemma_common_scale(k * u, n, u);
    lemma_results_are_numbers(a, b);
}

/// The value of a constant that is an integer, by its significand.
pub proof fn lemma_integer_constant(x: Binary32, k: int, j: nat)
    requires
        plain(x),
        j <= 149,
        x.significand() == k * pow2(j),
        x.quantum() + j == 149,
    ensures
        x.value() == k * unit_value(),
{
    x.lemma_parts();
    lemma_plain(x);
    lemma_pow2_adds(j, x.quantum());
    let (a, b) = (pow2(j) as int, pow2(x.quantum()) as int);
    assert((k * a) * b == k * (a * b)) by (nonlinear_arith);
}

/// A sum grows with its operands, whatever their signs.
pub proof fn lemma_sum_grows(c: Binary32, a: Binary32, b: Binary32)
    requires
        a.finite(),
        b.finite(),
        c.finite(),
        c.sum(a).finite(),
        c.sum(b).finite(),
        a.value() <= b.value(),
    ensures
        c.sum(a).value() <= c.sum(b).value(),
{
    let (x, y) = (c.value() + a.value(), c.value() + b.value());
    lemma_rounding_exists(size(x), 1);
    lemma_rounding_exists(size(y), 1);
    assert(magnitude_value(0) == 0);
    let (m, n) = (nearest(size(x), 1), nearest(size(y), 1));
    lemma_magnitude_value_increases(0, m);
    lemma_magnitude_value_increases(0, n);
    if x < 0 && y < 0 {
        lemma_rounding_keeps_order(size(y), size(x), 1);
        lemma_magnitude_value_increases(n, m);
    } else if x > 0 && y > 0 {
        lemma_rounding_keeps_order(size(x), size(y), 1);
        lemma_magnitude_value_increases(m, n);
    }
}

/// A difference falls with what is taken away.
pub proof fn lemma_difference_falls(c: Binary32, a: Binary32, b: Binary32)
    requires
        a.finite(),
        b.finite(),
        c.finite(),
        c.difference(a).finite(),
        c.difference(b).finite(),
        a.value() <= b.value(),
    ensures
        c.difference(b).value() <= c.difference(a).value(),
{
    assert(a.opposite().value() == -a.value() && b.opposite().value() == -b.value());
    lemma_sum_grows(c, b.opposite(), a.opposite());
}

} // verus!
