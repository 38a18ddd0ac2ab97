//! Lengths of vectors and their directions: how far rounding can take them
//! from length one.
use crate::arithmetic::{
    lemma_exact_value_is_kept, lemma_one_is_unit, lemma_rounding_exists, lemma_rounding_keeps_order, nearest,
    size,
};
use crate::binary32::{
    lemma_magnitude_value_increases, magnitude_value, unit_value, Binary32, FRACTION_SPAN, INFINITY_BITS, ONE_BITS,
};
use crate::exactness::{lemma_next_binade, lemma_share_is_at_most_the_whole};
use crate::length::{
    lemma_magnitude_parts, lemma_quantum_grows, lemma_root_of_square, nearest_root, quantum_of, root_rounds_to,
    significand_of,
};
use vstd::arithmetic::power2::{lemma2_to64, lemma_pow2_adds, lemma_pow2_pos, lemma_pow2_strictly_increases, pow2};
use vstd::prelude::*;

verus! {

proof fn lemma_largest_root(n: int, limit: int) -> (m: int)
    requires
        n >= 0,
        0 <= limit <= INFINITY_BITS,
    ensures
        0 <= m <= limit,
        magnitude_value(m) * magnitude_value(m) <= n,
        m < limit ==> n < magnitude_value(m + 1) * magnitude_value(m + 1),
    decreases limit,
{
    assert(magnitude_value(0) == 0);
    if limit == 0 || magnitude_value(limit) * magnitude_value(limit) <= n {
        limit
    } else {
        lemma_largest_root(n, limit - 1)
    }
}

/// Every root has a correct rounding.
pub proof fn lemma_root_exists(n: int)
    requires
        n >= 0,
    ensures
        root_rounds_to(n, nearest_root(n)),
{
    let m = lemma_largest_root(n, INFINITY_BITS as int);
    let v = magnitude_value(m);
    assert(magnitude_value(0) == 0);
    lemma_magnitude_value_increases(0, m);
    if m > 0 {
        lemma_magnitude_value_increases(m - 1, m);
        lemma_magnitude_value_increases(0, m - 1);
    }
    let below = magnitude_value(m - 1);
    if m > 0 {
        assert((below + v) * (below + v) < 4 * (v * v)) by (nonlinear_arith)
            requires
                0 <= below < v,
        ;
    }
    if m < INFINITY_BITS {
        let w = magnitude_value(m + 1);
        lemma_magnitude_value_increases(m, m + 1);
        let middle = v + w;
        if 4 * n < middle * middle || (4 * n == middle * middle && m % 2 == 0) {
            assert(root_rounds_to(n, m));
        } else {
            if m + 1 < INFINITY_BITS {
                let above = magnitude_value(m + 2);
                lemma_magnitude_value_increases(m + 1, m + 2);
                assert(4 * (w * w) < (w + above) * (w + above)) by (nonlinear_arith)
                    requires
                        0 <= w < above,
                ;
            }
            assert(root_rounds_to(n, m + 1));
        }
    } else {
        assert(root_rounds_to(n, m));
    }
}

/// Rounded roots keep the order of what they are taken of.
pub proof fn lemma_roots_keep_order(n: int, larger: int)
    requires
        0 <= n <= larger,
    ensures
        nearest_root(n) <= nearest_root(larger),
{
    lemma_root_exists(n);
    lemma_root_exists(larger);
    let a = nearest_root(n);
    let b = nearest_root(larger);
    if b < a {
        let low = magnitude_value(b) + magnitude_value(b + 1);
        let high = magnitude_value(a - 1) + magnitude_value(a);
        assert(magnitude_value(0) == 0);
        lemma_magnitude_value_increases(0, b);
        lemma_magnitude_value_increases(b, b + 1);
        lemma_magnitude_value_increases(b, a - 1);
        lemma_magnitude_value_increases(b + 1, a);
        assert(low * low <= high * high) by (nonlinear_arith)
            requires
                0 <= low <= high,
        ;
        if b + 1 < a {
            assert(low * low < high * high) by (nonlinear_arith)
                requires
                    0 <= low < high,
            ;
        }
    }
}

/// A length is a number without a sign and not below either component.
pub proof fn lemma_length(x: Binary32, y: Binary32)
    requires
        x.finite(),
        y.finite(),
    ensures
        !x.hypotenuse(y).negative(),
        !x.hypotenuse(y).nan(),
        x.magnitude() <= x.hypotenuse(y).magnitude(),
        y.magnitude() <= x.hypotenuse(y).magnitude(),
        x.hypotenuse(y).magnitude() == nearest_root(x.value() * x.value() + y.value() * y.value()),
        root_rounds_to(x.value() * x.value() + y.value() * y.value(), x.hypotenuse(y).magnitude()),
{
    let (a, b) = (x.value(), y.value());
    let n = a * a + b * b;
    x.lemma_parts();
    y.lemma_parts();
    assert(0 <= a * a && 0 <= b * b && a * a == size(a) * size(a) && b * b == size(b) * size(b)) by (nonlinear_arith)
        requires
            size(a) == a || size(a) == -a,
            size(b) == b || size(b) == -b,
    ;
    lemma_root_exists(n);
    lemma_root_of_square(x.magnitude());
    lemma_root_of_square(y.magnitude());
    lemma_roots_keep_order(a * a, n);
    lemma_roots_keep_order(b * b, n);
}

/// A component divided by a number that is not below it is at most one.
pub proof fn lemma_component_is_a_share(x: Binary32, d: Binary32)
    requires
        x.finite(),
        !d.nan(),
        0 < d.magnitude(),
        x.magnitude() <= d.magnitude(),
    ensures
        x.quotient(d).magnitude() <= ONE_BITS,
        d.finite() ==> x.quotient(d).magnitude() == nearest(size(x.value()) * unit_value(), size(d.value())),
{
    if d.finite() {
        let (a, b, unit) = (size(x.value()), size(d.value()), unit_value());
        x.lemma_parts();
        d.lemma_parts();
        lemma_pow2_pos(149);
        lemma_one_is_unit();
        assert(magnitude_value(0) == 0);
        lemma_magnitude_value_increases(0, d.magnitude());
        lemma_magnitude_value_increases(0, x.magnitude());
        lemma_magnitude_value_increases(x.magnitude(), d.magnitude());
        assert(0 <= a * unit <= unit * b) by (nonlinear_arith)
            requires
                0 <= a <= b,
                unit > 0,
        ;
        lemma_exact_value_is_kept(unit * b, b, ONE_BITS as int);
        lemma_rounding_keeps_order(a * unit, unit * b, b);
        lemma_rounding_exists(a * unit, b);
    }
}

/// Two to the power 24: rounding changes a number by at most this part of it.
pub const PRECISION: u32 = 0x100_0000;

/// Neighbouring magnitudes below a limit are no farther apart than its
/// quantum.
proof fn lemma_spacing(m: int, top: int)
    requires
        0 < m <= top,
    ensures
        magnitude_value(m) - magnitude_value(m - 1) <= pow2(quantum_of(top)),
        m < top ==> magnitude_value(m + 1) - magnitude_value(m) <= pow2(quantum_of(top)),
{
    lemma_magnitude_parts(m);
    lemma_magnitude_parts(m - 1);
    lemma_quantum_grows(m - 1, top);
    lemma_quantum_grows(m, top);
    lemma_powers_grow(quantum_of(m - 1), quantum_of(top));
    lemma_powers_grow(quantum_of(m), quantum_of(top));
}

proof fn lemma_powers_grow(a: nat, b: nat)
    requires
        a <= b,
    ensures
        pow2(a) <= pow2(b),
{
    if a < b {
        lemma_pow2_strictly_increases(a, b);
    }
}

/// The quantum of a normal magnitude is a small part of it.
pub proof fn lemma_quantum_is_small(m: int)
    requires
        FRACTION_SPAN <= m,
    ensures
        FRACTION_SPAN * pow2(quantum_of(m)) <= magnitude_value(m),
        pow2(quantum_of(m)) > 0,
{
    lemma_magnitude_parts(m);
    let q = quantum_of(m);
    lemma_pow2_pos(q);
    let p = pow2(q) as int;
    let s = significand_of(m);
    assert(s >= FRACTION_SPAN) by {
        if q == 0 {
            assert(m == s);
        }
    }
    assert(FRACTION_SPAN * p <= s * p) by (nonlinear_arith)
        requires
            FRACTION_SPAN <= s,
            p > 0,
    ;
}

/// A rounded quotient that is at most a limit differs from the exact one by at
/// most half the quantum of the limit.
pub proof fn lemma_rounding_error(n: int, d: int, top: int)
    requires
        n >= 0,
        d > 0,
        0 < top < INFINITY_BITS,
        n <= magnitude_value(top) * d,
    ensures
        ({
            let m = nearest(n, d);
            let q = pow2(quantum_of(top)) as int;
            &&& 0 <= m <= top
            &&& (2 * magnitude_value(m) - q) * d <= 2 * n <= (2 * magnitude_value(m) + q) * d
        }),
{
    let m = nearest(n, d);
    let q = pow2(quantum_of(top)) as int;
    let v = magnitude_value(m);
    lemma_rounding_exists(n, d);
    lemma_exact_value_is_kept(magnitude_value(top) * d, d, top);
    lemma_rounding_keeps_order(n, magnitude_value(top) * d, d);
    lemma_pow2_pos(quantum_of(top));
    assert(magnitude_value(0) == 0);
    if m > 0 {
        lemma_spacing(m, top);
        let below = magnitude_value(m - 1);
        assert((2 * v - q) * d <= (below + v) * d) by (nonlinear_arith)
            requires
                v - below <= q,
                d > 0,
        ;
    } else {
        assert((2 * 0 - q) * d <= 0) by (nonlinear_arith)
            requires
                q > 0,
                d > 0,
        ;
    }
    if m < top {
        if m > 0 {
            lemma_spacing(m, top);
        } else {
            lemma_spacing(1, top);
        }
        let above = magnitude_value(m + 1);
        assert((v + above) * d <= (2 * v + q) * d) by (nonlinear_arith)
            requires
                above - v <= q,
                d > 0,
        ;
    } else {
        assert(2 * (v * d) <= (2 * v + q) * d) by (nonlinear_arith)
            requires
                q > 0,
                d > 0,
        ;
    }
}

/// The square of a rounded length lies close to the sum of the squares.
proof fn lemma_length_error(n: int, m: int)
    requires
        n >= 0,
        root_rounds_to(n, m),
        FRACTION_SPAN <= m < INFINITY_BITS,
    ensures
        ({
            let square = magnitude_value(m) * magnitude_value(m);
            &&& (PRECISION - 1) * (PRECISION - 1) * square <= PRECISION * PRECISION * n
            &&& PRECISION * PRECISION * n <= (PRECISION + 1) * (PRECISION + 1) * square
        }),
{
    let v = magnitude_value(m);
    let q = pow2(quantum_of(m)) as int;
    let k = PRECISION as int;
    lemma_spacing(m, m);
    lemma_magnitude_parts(m);
    lemma_quantum_is_small(m);
    lemma_magnitude_value_increases(m, m + 1);
    let below = magnitude_value(m - 1);
    let above = magnitude_value(m + 1);
    let low = below + v;
    let high = v + above;
    assert(magnitude_value(0) == 0);
    lemma_magnitude_value_increases(0, m);
    assert(0 <= 2 * (k - 1) * v <= k * low && 0 <= k * high <= 2 * (k + 1) * v) by (nonlinear_arith)
        requires
            k == 0x100_0000,
            low == below + v,
            high == v + above,
            v - below <= q,
            above - v <= q,
            0x80_0000 * q <= v,
            0 < v,
            v < above,
    ;
    let (x, y) = (2 * (k - 1) * v, k * low);
    assert(x * x <= y * y) by (nonlinear_arith)
        requires
            0 <= x <= y,
    ;
    let (z, w) = (k * high, 2 * (k + 1) * v);
    assert(z * z <= w * w) by (nonlinear_arith)
        requires
            0 <= z <= w,
    ;
    assert(x * x == 4 * ((k - 1) * (k - 1) * (v * v))) by (nonlinear_arith)
        requires
            x == 2 * (k - 1) * v,
    ;
    assert(w * w == 4 * ((k + 1) * (k + 1) * (v * v))) by (nonlinear_arith)
        requires
            w == 2 * (k + 1) * v,
    ;
    assert(y * y == k * k * (low * low)) by (nonlinear_arith)
        requires
            y == k * low,
    ;
    assert(z * z == k * k * (high * high)) by (nonlinear_arith)
        requires
            z == k * high,
    ;
    assert(k * k * (low * low) <= k * k * (4 * n) && k * k * (4 * n) <= k * k * (high * high)) by (nonlinear_arith)
        requires
            low * low <= 4 * n <= high * high,
            k == 0x100_0000,
    ;
    assert(k * k * (4 * n) == 4 * (k * k * n)) by (nonlinear_arith);
}

/// Whether the square of a vector with these components, in units of one,
/// differs from one by at most one part in two to the power 21.
pub open spec fn is_unit_square(x: int, y: int) -> bool {
    0x20_0000 * size(x * x + y * y - unit_value() * unit_value()) <= unit_value() * unit_value()
}

/// Twenty-four bits below one.
pub open spec fn grain() -> int {
    pow2(125) as int
}

pub proof fn lemma_grain()
    ensures
        unit_value() == PRECISION * grain(),
        pow2(quantum_of(ONE_BITS as int)) == 2 * grain(),
        grain() > 0,
{
    lemma2_to64();
    lemma_pow2_pos(125);
    lemma_pow2_adds(24, 125);
    lemma_pow2_adds(1, 125);
    assert(quantum_of(ONE_BITS as int) == 126);
}

/// The square of a number between two bounds that are opposite.
proof fn lemma_square_is_bounded(x: int, bound: int)
    requires
        -bound <= x <= bound,
    ensures
        0 <= x * x <= bound * bound,
{
    assert(0 <= x * x <= bound * bound) by (nonlinear_arith)
        requires
            -bound <= x <= bound,
    ;
}

/// The product of a bounded number with a factor.
proof fn lemma_product_is_bounded(x: int, bound: int, y: int, limit: int)
    requires
        -bound <= x <= bound,
        0 <= y <= limit,
    ensures
        -(bound * limit) <= x * y <= bound * limit,
{
    assert(-(bound * limit) <= x * y <= bound * limit) by (nonlinear_arith)
        requires
            -bound <= x <= bound,
            0 <= y <= limit,
    ;
}

/// The square of a rounded quotient times a length, by the exact numerator and
/// the error.
proof fn lemma_expanded_square(a: int, length: int, x: int, u: int, e: int)
    requires
        e == 2 * a * length - 2 * (x * u),
    ensures
        4 * (a * a * (length * length)) == 4 * (u * u * (x * x)) + 4 * (u * (e * x)) + e * e,
{
    let t = 2 * a * length;
    let w = 2 * (x * u);
    assert(t * t == w * w + 2 * (w * e) + e * e) by (nonlinear_arith)
        requires
            t == w + e,
    ;
    assert(t * t == 4 * (a * a * (length * length))) by (nonlinear_arith)
        requires
            t == 2 * a * length,
    ;
    assert(w * w == 4 * (u * u * (x * x))) by (nonlinear_arith)
        requires
            w == 2 * (x * u),
    ;
    assert(w * e == 2 * (u * (e * x))) by (nonlinear_arith)
        requires
            w == 2 * (x * u),
    ;
}

/// The sum of the squares of two rounded quotients, in terms of the exact
/// numerators.
proof fn lemma_square_of_shares(x: int, y: int, length: int, a: int, b: int)
    requires
        0 <= x <= length,
        0 <= y <= length,
        0 < length,
        (2 * a - 2 * grain()) * length <= 2 * (x * unit_value()) <= (2 * a + 2 * grain()) * length,
        (2 * b - 2 * grain()) * length <= 2 * (y * unit_value()) <= (2 * b + 2 * grain()) * length,
        (PRECISION - 1) * (PRECISION - 1) * (length * length) <= PRECISION * PRECISION * (x * x + y * y),
        PRECISION * PRECISION * (x * x + y * y) <= (PRECISION + 1) * (PRECISION + 1) * (length * length),
    ensures
        is_unit_square(a, b),
{
    lemma_grain();
    let g = grain();
    let u = unit_value();
    let square = length * length;
    let k: int = PRECISION as int;
    let e = 2 * a * length - 2 * (x * u);
    let f = 2 * b * length - 2 * (y * u);
    let bound = 2 * g * length;
    assert(-bound <= e <= bound && -bound <= f <= bound) by (nonlinear_arith)
        requires
            e == 2 * a * length - 2 * (x * u),
            f == 2 * b * length - 2 * (y * u),
            bound == 2 * g * length,
            (2 * a - 2 * g) * length <= 2 * (x * u) <= (2 * a + 2 * g) * length,
            (2 * b - 2 * g) * length <= 2 * (y * u) <= (2 * b + 2 * g) * length,
    ;
    lemma_square_is_bounded(e, bound);
    lemma_square_is_bounded(f, bound);
    lemma_product_is_bounded(e, bound, x, length);
    lemma_product_is_bounded(f, bound, y, length);
    let n = x * x + y * y;
    let s = a * a + b * b;
    let cross = e * x + f * y;
    lemma_expanded_square(a, length, x, u, e);
    lemma_expanded_square(b, length, y, u, f);
    assert(s * square == a * a * square + b * b * square && u * u * n == u * u * (x * x) + u * u * (y * y) && u * cross
        == u * (e * x) + u * (f * y)) by (nonlinear_arith)
        requires
            n == x * x + y * y,
            s == a * a + b * b,
            cross == e * x + f * y,
    ;
    let gg = g * g;
    let unitary = gg * square;
    assert(bound * bound == 4 * unitary && bound * length == 2 * (g * square)) by (nonlinear_arith)
        requires
            bound == 2 * g * length,
            unitary == (g * g) * (length * length),
            square == length * length,
    ;
    // The exact part.
    assert(u * u * n == gg * (k * k * n)) by (nonlinear_arith)
        requires
            u == k * g,
            gg == g * g,
    ;
    let low = (k - 1) * (k - 1);
    let high = (k + 1) * (k + 1);
    assert(gg * (low * square) <= gg * (k * k * n) <= gg * (high * square)) by (nonlinear_arith)
        requires
            low * square <= k * k * n <= high * square,
            gg >= 0,
            gg == g * g,
    ;
    assert(gg * (low * square) == low * unitary && gg * (high * square) == high * unitary) by (nonlinear_arith)
        requires
            unitary == gg * square,
    ;
    // The cross part.
    let reach = 4 * (g * square);
    assert(-reach <= cross <= reach);
    assert(-(u * reach) <= u * cross <= u * reach) by (nonlinear_arith)
        requires
            -reach <= cross <= reach,
            u > 0,
    ;
    assert(u * reach == 4 * (k * unitary)) by (nonlinear_arith)
        requires
            u == k * g,
            reach == 4 * (g * square),
            unitary == (g * g) * square,
            gg == g * g,
    ;
    assert(low == 0xff_ffff * 0xff_ffff && high == 0x100_0001 * 0x100_0001);
    assert(4 * (s * square) <= (4 * high + 16 * k + 8) * unitary) by (nonlinear_arith)
        requires
            4 * (s * square) <= 4 * (high * unitary) + 16 * (k * unitary) + 8 * unitary,
    ;
    assert((4 * low - 16 * k) * unitary <= 4 * (s * square)) by (nonlinear_arith)
        requires
            4 * (low * unitary) - 16 * (k * unitary) <= 4 * (s * square),
    ;
    // Without the square of the length.
    assert(square > 0) by (nonlinear_arith)
        requires
            square == length * length,
            length > 0,
    ;
    assert(4 * s <= (4 * high + 16 * k + 8) * gg) by (nonlinear_arith)
        requires
            4 * (s * square) <= (4 * high + 16 * k + 8) * (gg * square),
            square > 0,
    ;
    assert((4 * low - 16 * k) * gg <= 4 * s) by (nonlinear_arith)
        requires
            (4 * low - 16 * k) * (gg * square) <= 4 * (s * square),
            square > 0,
    ;
    assert(u * u == (k * k) * gg) by (nonlinear_arith)
        requires
            u == k * g,
            gg == g * g,
    ;
    assert(gg > 0) by (nonlinear_arith)
        requires
            gg == g * g,
            g > 0,
    ;
    let one = u * u;
    assert(k == 0x100_0000);
    let (top, bottom, whole) = (4 * high + 16 * k + 8, 4 * low - 16 * k, k * k);
    assert(top == 1_125_900_309_495_820 && bottom == 1_125_899_504_189_444 && whole == 281_474_976_710_656);
    assert(4 * s <= 1_125_900_309_495_820 * gg && 1_125_899_504_189_444 * gg <= 4 * s && one == 281_474_976_710_656
        * gg) by (nonlinear_arith)
        requires
            4 * s <= top * gg,
            bottom * gg <= 4 * s,
            one == whole * gg,
            top == 1_125_900_309_495_820,
            bottom == 1_125_899_504_189_444,
            whole == 281_474_976_710_656,
    ;
    assert(s - one <= 100_663_299 * gg);
    assert(one - s <= 100_663_299 * gg);
    assert(0x20_0000 * size(s - one) <= one);
}

/// A vector divided by its length has length one, up to rounding, and neither
/// component exceeds one.
pub proof fn lemma_direction(x: Binary32, y: Binary32)
    requires
        x.finite(),
        y.finite(),
        x.hypotenuse(y).finite(),
        FRACTION_SPAN <= x.hypotenuse(y).magnitude(),
    ensures
        ({
            let (a, b) = (x.quotient(x.hypotenuse(y)), y.quotient(x.hypotenuse(y)));
            &&& a.magnitude() <= ONE_BITS && b.magnitude() <= ONE_BITS
            &&& is_unit_square(a.value(), b.value())
        }),
{
    let h = x.hypotenuse(y);
    lemma_length(x, y);
    lemma_grain();
    lemma_one_is_unit();
    let (a, b) = (x.quotient(h), y.quotient(h));
    let (p, q, length) = (size(x.value()), size(y.value()), size(h.value()));
    x.lemma_parts();
    y.lemma_parts();
    h.lemma_parts();
    a.lemma_parts();
    b.lemma_parts();
    assert(magnitude_value(0) == 0);
    lemma_magnitude_value_increases(0, x.magnitude());
    lemma_magnitude_value_increases(0, y.magnitude());
    lemma_magnitude_value_increases(0, h.magnitude());
    lemma_magnitude_value_increases(x.magnitude(), h.magnitude());
    lemma_magnitude_value_increases(y.magnitude(), h.magnitude());
    lemma_component_is_a_share(x, h);
    lemma_component_is_a_share(y, h);
    let unit = unit_value();
    assert(0 <= p * unit <= unit * length && 0 <= q * unit <= unit * length) by (nonlinear_arith)
        requires
            0 <= p <= length,
            0 <= q <= length,
            unit > 0,
    ;
    lemma_rounding_error(p * unit, length, ONE_BITS as int);
    lemma_rounding_error(q * unit, length, ONE_BITS as int);
    lemma_same_square(x.value());
    lemma_same_square(y.value());
    lemma_same_square(a.value());
    lemma_same_square(b.value());
    lemma_length_error(x.value() * x.value() + y.value() * y.value(), h.magnitude());
    lemma_square_of_shares(p, q, length, size(a.value()), size(b.value()));
}

proof fn lemma_same_square(x: int)
    ensures
        x * x == size(x) * size(x),
        x * x >= 0,
{
    assert(x * x == (-x) * (-x) && x * x >= 0) by (nonlinear_arith);
}

/// Whether the square of a length differs from the square of another by at
/// most one part in two to the power 20.
pub open spec fn is_near_square(x: int, y: int, length: int) -> bool {
    0x10_0000 * size(x * x + y * y - length * length) <= length * length
}

/// The sum of the squares of two rounded products with a length.
proof fn lemma_square_of_products(a: int, b: int, length: int, x: int, y: int, q: int)
    requires
        0 <= a <= unit_value(),
        0 <= b <= unit_value(),
        is_unit_square(a, b),
        0 < length,
        0 < q,
        FRACTION_SPAN * q <= length,
        (2 * x - q) * unit_value() <= 2 * (a * length) <= (2 * x + q) * unit_value(),
        (2 * y - q) * unit_value() <= 2 * (b * length) <= (2 * y + q) * unit_value(),
    ensures
        is_near_square(x, y, length),
{
    lemma_grain();
    let g = grain();
    let u = unit_value();
    let gg = g * g;
    let square = length * length;
    let k: int = PRECISION as int;
    let e = 2 * x * u - 2 * (a * length);
    let f = 2 * y * u - 2 * (b * length);
    let bound = 2 * g * length;
    assert(q * u <= bound) by (nonlinear_arith)
        requires
            0x80_0000 * q <= length,
            u == 0x100_0000 * g,
            bound == 2 * g * length,
            g > 0,
    ;
    assert(-(q * u) <= e <= q * u && -(q * u) <= f <= q * u) by (nonlinear_arith)
        requires
            e == 2 * x * u - 2 * (a * length),
            f == 2 * y * u - 2 * (b * length),
            (2 * x - q) * u <= 2 * (a * length) <= (2 * x + q) * u,
            (2 * y - q) * u <= 2 * (b * length) <= (2 * y + q) * u,
    ;
    lemma_square_is_bounded(e, bound);
    lemma_square_is_bounded(f, bound);
    lemma_product_is_bounded(e, bound, a, u);
    lemma_product_is_bounded(f, bound, b, u);
    lemma_expanded_square(x, u, a, length, e);
    lemma_expanded_square(y, u, b, length, f);
    let s = a * a + b * b;
    let t = x * x + y * y;
    let cross = e * a + f * b;
    let one = u * u;
    assert(t * one == x * x * one + y * y * one && square * s == square * (a * a) + square * (b * b) && length * cross
        == length * (e * a) + length * (f * b)) by (nonlinear_arith)
        requires
            s == a * a + b * b,
            t == x * x + y * y,
            cross == e * a + f * b,
    ;
    let unitary = gg * square;
    assert(bound * bound == 4 * unitary) by (nonlinear_arith)
        requires
            bound == 2 * g * length,
            unitary == (g * g) * (length * length),
    ;
    let reach = 2 * (bound * u);
    assert(-(length * reach) <= length * cross <= length * reach) by (nonlinear_arith)
        requires
            -reach <= cross <= reach,
            length > 0,
    ;
    assert(length * reach == 4 * (k * unitary)) by (nonlinear_arith)
        requires
            reach == 2 * (bound * u),
            bound == 2 * g * length,
            u == k * g,
            unitary == (g * g) * (length * length),
    ;
    assert(one == 281_474_976_710_656 * gg) by (nonlinear_arith)
        requires
            one == u * u,
            u == k * g,
            k == 0x100_0000,
            gg == g * g,
    ;
    assert(gg > 0 && square > 0) by (nonlinear_arith)
        requires
            gg == g * g,
            g > 0,
            square == length * length,
            length > 0,
    ;
    assert(281_474_842_492_928 * gg <= s <= 281_475_110_928_384 * gg);
    assert(281_474_842_492_928 * unitary <= square * s <= 281_475_110_928_384 * unitary) by (nonlinear_arith)
        requires
            281_474_842_492_928 * gg <= s <= 281_475_110_928_384 * gg,
            unitary == gg * square,
            square > 0,
    ;
    assert(t * one == 281_474_976_710_656 * (t * gg)) by (nonlinear_arith)
        requires
            one == 281_474_976_710_656 * gg,
    ;
    assert(k * unitary == 0x100_0000 * unitary);
    assert(1_125_899_906_842_624 * (t * gg) <= 1_125_900_712_149_000 * unitary);
    assert(1_125_899_101_536_256 * unitary <= 1_125_899_906_842_624 * (t * gg));
    assert(1_125_899_906_842_624 * t <= 1_125_900_712_149_000 * square && 1_125_899_101_536_256 * square
        <= 1_125_899_906_842_624 * t) by (nonlinear_arith)
        requires
            1_125_899_906_842_624 * (t * gg) <= 1_125_900_712_149_000 * (gg * square),
            1_125_899_101_536_256 * (gg * square) <= 1_125_899_906_842_624 * (t * gg),
            gg > 0,
    ;
    assert(0x10_0000 * size(t - square) <= square);
}

/// A direction made as long as a radius has that length, up to rounding, and
/// neither component exceeds it.
pub proof fn lemma_offset(x: Binary32, y: Binary32, radius: Binary32)
    requires
        x.magnitude() <= ONE_BITS,
        y.magnitude() <= ONE_BITS,
        is_unit_square(x.value(), y.value()),
        radius.finite(),
        FRACTION_SPAN <= radius.magnitude(),
    ensures
        x.product(radius).magnitude() <= radius.magnitude(),
        y.product(radius).magnitude() <= radius.magnitude(),
        is_near_square(x.product(radius).value(), y.product(radius).value(), radius.value()),
{
    let (p, q) = (x.product(radius), y.product(radius));
    let (a, b, length) = (size(x.value()), size(y.value()), size(radius.value()));
    let unit = unit_value();
    lemma_share_is_at_most_the_whole(x, radius);
    lemma_share_is_at_most_the_whole(y, radius);
    lemma_one_is_unit();
    lemma_grain();
    x.lemma_parts();
    y.lemma_parts();
    radius.lemma_parts();
    p.lemma_parts();
    q.lemma_parts();
    assert(magnitude_value(0) == 0);
    lemma_magnitude_value_increases(0, x.magnitude());
    lemma_magnitude_value_increases(0, y.magnitude());
    lemma_magnitude_value_increases(0, radius.magnitude());
    lemma_magnitude_value_increases(x.magnitude(), ONE_BITS as int);
    lemma_magnitude_value_increases(y.magnitude(), ONE_BITS as int);
    assert(0 <= a * length <= length * unit && 0 <= b * length <= length * unit) by (nonlinear_arith)
        requires
            0 <= a <= unit,
            0 <= b <= unit,
            0 < length,
    ;
    lemma_rounding_error(a * length, unit, radius.magnitude());
    lemma_rounding_error(b * length, unit, radius.magnitude());
    lemma_quantum_is_small(radius.magnitude());
    lemma_same_square(x.value());
    lemma_same_square(y.value());
    lemma_same_square(p.value());
    lemma_same_square(q.value());
    lemma_same_square(radius.value());
    lemma_square_of_products(
        a,
        b,
        length,
        size(p.value()),
        size(q.value()),
        pow2(quantum_of(radius.magnitude())) as int,
    );
}

/// A sum differs from the exact one by at most one part in two to the power 24
/// of itself.
pub proof fn lemma_sum_error(a: Binary32, b: Binary32)
    requires
        a.finite(),
        b.finite(),
        a.sum(b).finite(),
    ensures
        PRECISION * size(a.sum(b).value() - (a.value() + b.value())) <= size(a.sum(b).value()),
{
    let exact = a.value() + b.value();
    let n = size(exact);
    let m = nearest(n, 1);
    lemma_rounding_exists(n, 1);
    assert(magnitude_value(0) == 0);
    if exact != 0 {
        lemma_magnitude_parts(m);
        let v = magnitude_value(m);
        let q = pow2(quantum_of(m)) as int;
        lemma_magnitude_value_increases(0, m);
        if m > 0 {
            lemma_spacing(m, m);
        }
        assert(2 * v - q <= 2 * n <= 2 * v + q);
        if m < FRACTION_SPAN {
            lemma2_to64();
            assert(q == 1);
        } else {
            lemma_quantum_is_small(m);
        }
        assert(a.sum(b).magnitude() == m);
        assert(PRECISION * size(v - n) <= v);
    }
}

/// Whether a place lies at the given distance from another, up to one part in
/// two to the power 20 of the distance and an error of each coordinate.
pub open spec fn is_at_distance(dx: int, dy: int, distance: int, error: int) -> bool {
    0x10_0000 * size(dx * dx + dy * dy - distance * distance) <= distance * distance + 0x10_0000 * (4 * (distance
        * error) + 2 * (error * error))
}

/// Small errors of the coordinates change a distance little.
pub proof fn lemma_displacement(dx: int, dy: int, x: int, y: int, distance: int, error: int)
    requires
        is_near_square(x, y, distance),
        0 <= distance,
        0 <= error,
        -distance <= x <= distance,
        -distance <= y <= distance,
        -error <= dx - x <= error,
        -error <= dy - y <= error,
    ensures
        is_at_distance(dx, dy, distance, error),
{
    lemma_moved_square(dx, x, distance, error);
    lemma_moved_square(dy, y, distance, error);
    let near = x * x + y * y - distance * distance;
    let far = dx * dx + dy * dy - distance * distance;
    let slack = 4 * (distance * error) + 2 * (error * error);
    assert(near - slack <= far <= near + slack);
}

proof fn lemma_moved_square(dx: int, x: int, distance: int, error: int)
    requires
        0 <= distance,
        0 <= error,
        -distance <= x <= distance,
        -error <= dx - x <= error,
    ensures
        x * x - 2 * (distance * error) - error * error <= dx * dx <= x * x + 2 * (distance * error) + error * error,
{
    let e = dx - x;
    lemma_square_is_bounded(e, error);
    assert(dx * dx == x * x + 2 * (x * e) + e * e) by (nonlinear_arith)
        requires
            dx == x + e,
    ;
    assert(-(distance * error) <= x * e <= distance * error) by (nonlinear_arith)
        requires
            -distance <= x <= distance,
            -error <= e <= error,
            0 <= distance,
            0 <= error,
    ;
}

/// A length is at most twice the larger component.
pub proof fn lemma_length_within(x: Binary32, y: Binary32, m: int)
    requires
        x.magnitude() <= m,
        y.magnitude() <= m,
        FRACTION_SPAN <= m,
        m + FRACTION_SPAN < INFINITY_BITS,
    ensures
        x.hypotenuse(y).magnitude() <= m + FRACTION_SPAN,
        x.hypotenuse(y).finite(),
{
    let (a, b, v) = (size(x.value()), size(y.value()), magnitude_value(m));
    let top = magnitude_value(m + FRACTION_SPAN);
    lemma_length(x, y);
    lemma_next_binade(m);
    x.lemma_parts();
    y.lemma_parts();
    assert(magnitude_value(0) == 0);
    lemma_magnitude_value_increases(0, x.magnitude());
    lemma_magnitude_value_increases(0, y.magnitude());
    lemma_magnitude_value_increases(x.magnitude(), m);
    lemma_magnitude_value_increases(y.magnitude(), m);
    lemma_same_square(x.value());
    lemma_same_square(y.value());
    assert(a * a + b * b <= top * top) by (nonlinear_arith)
        requires
            0 <= a <= v,
            0 <= b <= v,
            top == 2 * v,
    ;
    lemma_roots_keep_order(x.value() * x.value() + y.value() * y.value(), top * top);
    lemma_root_of_square(m + FRACTION_SPAN);
}

/// A rounded ratio differs from the exact one by at most one part in two to the
/// power 24 of itself.
pub proof fn lemma_relative_error(n: int, d: int)
    requires
        n >= 0,
        d > 0,
        n == 0 || FRACTION_SPAN <= nearest(n, d) < INFINITY_BITS,
    ensures
        n == 0 ==> nearest(n, d) == 0,
        PRECISION * size(magnitude_value(nearest(n, d)) * d - n) <= magnitude_value(nearest(n, d)) * d,
{
    let m = nearest(n, d);
    let v = magnitude_value(m);
    assert(magnitude_value(0) == 0);
    if n == 0 {
        assert(0 == magnitude_value(0) * d) by (nonlinear_arith)
            requires
                magnitude_value(0) == 0,
        ;
        lemma_exact_value_is_kept(0, d, 0);
    } else {
        lemma_rounding_exists(n, d);
        lemma_magnitude_parts(m);
        lemma_spacing(m, m);
        lemma_quantum_is_small(m);
        let q = pow2(quantum_of(m)) as int;
        let (below, above) = (magnitude_value(m - 1), magnitude_value(m + 1));
        assert((2 * v - q) * d <= (below + v) * d && (v + above) * d <= (2 * v + q) * d) by (nonlinear_arith)
            requires
                v - below <= q,
                above - v <= q,
                d > 0,
        ;
        let product = v * d;
        let step = q * d;
        assert((2 * v - q) * d == 2 * product - step && (2 * v + q) * d == 2 * product + step && 0x80_0000 * step
            <= product) by (nonlinear_arith)
            requires
                product == v * d,
                step == q * d,
                0x80_0000 * q <= v,
                d > 0,
        ;
    }
}

/// A ratio between two bounds that are represented exactly is rounded to a
/// number between them.
pub proof fn lemma_ratio_between(n: int, d: int, low: int, high: int)
    requires
        n >= 0,
        d > 0,
        0 <= low <= high < INFINITY_BITS,
        magnitude_value(low) * d <= n <= magnitude_value(high) * d,
    ensures
        low <= nearest(n, d) <= high,
{
    assert(magnitude_value(0) == 0);
    lemma_magnitude_value_increases(0, low);
    assert(0 <= magnitude_value(low) * d) by (nonlinear_arith)
        requires
            0 <= magnitude_value(low),
            d > 0,
    ;
    lemma_exact_value_is_kept(magnitude_value(low) * d, d, low);
    lemma_exact_value_is_kept(magnitude_value(high) * d, d, high);
    lemma_rounding_keeps_order(magnitude_value(low) * d, n, d);
    lemma_rounding_keeps_order(n, magnitude_value(high) * d, d);
}

} // verus!
