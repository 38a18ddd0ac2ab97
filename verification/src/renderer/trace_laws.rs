//! Where the history stands on the chart: time from left to right, levels
//! upwards.
use crate::arithmetic::{
    law_sum_and_product_commute, lemma_difference_with_itself, lemma_exact_value_is_kept, lemma_one_is_unit,
    lemma_product_with_zero, lemma_quotient_of_zero, lemma_results_are_numbers, lemma_rounding_exists,
    lemma_rounding_keeps_order, lemma_sum_with_zero, nearest, size,
};
use crate::binary32::{
    lemma_magnitude_value_increases, magnitude_value, num, unit_value, Binary32, FRACTION_SPAN, ONE_BITS, ZERO_BITS,
};
use crate::direction::{grain, lemma_grain, lemma_quantum_is_small, lemma_rounding_error, lemma_sum_error, PRECISION};
use crate::exactness::{
    lemma_difference_falls, lemma_differences_keep_order, lemma_integer_constant, lemma_multiple, lemma_plain,
    lemma_products_keep_order, lemma_share_is_at_most_the_whole, lemma_sum_within, plain,
};
use crate::length::quantum_of;
use crate::renderer::geometry::{between, equal_numbers, Rect};
use crate::renderer::history::{recency_of, SHORTEST_WINDOW_BITS};
use crate::renderer::hud::F1OpenHud;
use crate::renderer::hud_layout::{level_y, PEDAL_PAD_BITS, PEDAL_TWO_BITS, SPEED_SCALE_BITS};
use crate::time::{elapsed_between, in_seconds, Instant};
use crate::time_laws::{law_seconds_grow_with_nanoseconds, LONG_SPAN_NANOS};
use vstd::arithmetic::power2::{lemma2_to64, lemma_pow2_adds, lemma_pow2_pos, pow2};
use vstd::prelude::*;

verus! {

/// Pattern of two to the power 125: sums of smaller numbers are finite.
pub const FAR_BITS: u32 = 0x7e00_0000;

/// The quantum of a finite number is a small part of it, or one.
proof fn lemma_small_quantum(a: Binary32)
    requires
        a.finite(),
    ensures
        0 < pow2(quantum_of(a.magnitude())),
        0x80_0000 * pow2(quantum_of(a.magnitude())) <= size(a.value()) + 0x80_0000,
{
    a.lemma_parts();
    assert(magnitude_value(0) == 0);
    lemma_magnitude_value_increases(0, a.magnitude());
    if a.magnitude() >= FRACTION_SPAN {
        lemma_quantum_is_small(a.magnitude());
    } else {
        lemma2_to64();
    }
}

/// A share of a number: its size and how near it is to the exact share.
proof fn lemma_share_of(t: Binary32, a: Binary32)
    requires
        t.finite(),
        t.value() >= 0,
        t.magnitude() <= ONE_BITS,
        a.finite(),
    ensures
        ({
            let s = t.product(a);
            let u = unit_value();
            &&& s.magnitude() <= a.magnitude()
            &&& size(s.value()) <= size(a.value())
            &&& PRECISION * size(s.value() * u - t.value() * a.value()) <= u * (size(a.value()) + 0x80_0000)
        }),
{
    let s = t.product(a);
    let u = unit_value();
    lemma_share_is_at_most_the_whole(t, a);
    lemma_one_is_unit();
    lemma_grain();
    t.lemma_parts();
    a.lemma_parts();
    s.lemma_parts();
    assert(magnitude_value(0) == 0);
    lemma_magnitude_value_increases(0, t.magnitude());
    lemma_magnitude_value_increases(0, a.magnitude());
    lemma_magnitude_value_increases(t.magnitude(), ONE_BITS as int);
    lemma_magnitude_value_increases(s.magnitude(), a.magnitude());
    let (x, y, v) = (size(t.value()), size(a.value()), size(s.value()));
    assert(x == t.value());
    if a.magnitude() == 0 || t.magnitude() == 0 {
        if a.magnitude() == 0 {
            lemma_product_with_zero(a, t);
        } else {
            lemma_product_with_zero(t, a);
        }
        assert(t.value() * a.value() == 0) by (nonlinear_arith)
            requires
                a.value() == 0 || t.value() == 0,
        ;
        assert(s.value() * u == 0) by (nonlinear_arith)
            requires
                s.value() == 0,
        ;
        assert(0 <= u * (y + 0x80_0000)) by (nonlinear_arith)
            requires
                u > 0,
                y >= 0,
        ;
    } else {
        assert(0 <= x * y <= y * u) by (nonlinear_arith)
            requires
                0 <= x <= u,
                0 <= y,
        ;
        lemma_rounding_error(x * y, u, a.magnitude());
        lemma_small_quantum(a);
        let q = pow2(quantum_of(a.magnitude())) as int;
        let (p, n, e) = (v * u, x * y, q * u);
        assert((2 * v - q) * u == 2 * p - e && (2 * v + q) * u == 2 * p + e) by (nonlinear_arith)
            requires
                p == v * u,
                e == q * u,
        ;
        assert(0x80_0000 * e <= u * (y + 0x80_0000)) by (nonlinear_arith)
            requires
                e == q * u,
                0x80_0000 * q <= y + 0x80_0000,
                u > 0,
        ;
        assert(0x100_0000 * size(p - n) <= u * (y + 0x80_0000));
        // The signs agree.
        assert(!t.negative());
        assert(s.negative() == a.negative());
        if a.negative() {
            assert(t.value() * a.value() == -n) by (nonlinear_arith)
                requires
                    n == x * y,
                    t.value() == x,
                    a.value() == -y,
            ;
            assert(s.value() * u == -p) by (nonlinear_arith)
                requires
                    p == v * u,
                    s.value() == -v,
            ;
        }
    }
}

/// The rest of one after a share.
proof fn lemma_rest_of_one(t: Binary32)
    requires
        t.finite(),
        t.value() >= 0,
        t.magnitude() <= ONE_BITS,
    ensures
        ({
            let p = num(ONE_BITS).difference(t);
            &&& plain(p)
            &&& p.magnitude() <= ONE_BITS
            &&& size(p.value() - (unit_value() - t.value())) <= grain()
        }),
{
    let one = num(ONE_BITS);
    let p = one.difference(t);
    lemma_one_is_unit();
    lemma_grain();
    t.lemma_parts();
    assert(magnitude_value(0) == 0);
    lemma_magnitude_value_increases(0, t.magnitude());
    lemma_magnitude_value_increases(t.magnitude(), ONE_BITS as int);
    let exact = unit_value() - t.value();
    assert(t.opposite().value() == -t.value());
    assert(one.value() + t.opposite().value() == exact);
    lemma_rounding_error(exact, 1, ONE_BITS as int);
    lemma_exact_value_is_kept(0, 1, 0);
    lemma_rounding_exists(exact, 1);
    lemma_plain(p);
}

/// The value a part of the way from one number to another lies that part of
/// the way, up to one part in two to the power 22 of the two numbers.
pub proof fn law_interpolation_is_linear(a: Binary32, b: Binary32, t: Binary32)
    requires
        a.magnitude() <= FAR_BITS,
        b.magnitude() <= FAR_BITS,
        t.finite(),
        t.value() >= 0,
        t.magnitude() <= ONE_BITS,
    ensures
        ({
            let x = between(a, b, t);
            let u = unit_value();
            let exact = (u - t.value()) * a.value() + t.value() * b.value();
            &&& x.finite()
            &&& 0x40_0000 * size(x.value() * u - exact) <= u * (size(a.value()) + size(b.value()) + 0x80_0000)
        }),
{
    let u = unit_value();
    let p = num(ONE_BITS).difference(t);
    lemma_grain();
    lemma_rest_of_one(t);
    lemma_plain(p);
    lemma_share_of(p, a);
    lemma_share_of(t, b);
    let (q, r) = (p.product(a), t.product(b));
    lemma_sum_within(q, r, FAR_BITS as int);
    let x = q.sum(r);
    lemma_sum_error(q, r);
    let (av, bv, pv, tv) = (a.value(), b.value(), p.value(), t.value());
    let (sa, sb, sx) = (size(av), size(bv), size(x.value()));
    // Each part of the error, times the unit.
    let drift = pv - (u - tv);
    assert(pv * av == (u - tv) * av + drift * av) by (nonlinear_arith)
        requires
            drift == pv - (u - tv),
    ;
    assert(size(drift * av) <= grain() * sa) by (nonlinear_arith)
        requires
            -grain() <= drift <= grain(),
            sa == size(av),
            size(drift * av) == drift * av || size(drift * av) == -(drift * av),
            size(av) == av && av >= 0 || size(av) == -av && av < 0,
    ;
    let slip = x.value() - (q.value() + r.value());
    assert(x.value() * u == q.value() * u + r.value() * u + slip * u) by (nonlinear_arith)
        requires
            slip == x.value() - (q.value() + r.value()),
    ;
    assert(PRECISION * size(slip * u) <= u * sx) by (nonlinear_arith)
        requires
            PRECISION * size(slip) <= sx,
            u > 0,
            size(slip) == slip && slip >= 0 || size(slip) == -slip && slip < 0,
            size(slip * u) == slip * u && slip * u >= 0 || size(slip * u) == -(slip * u) && slip * u < 0,
    ;
    assert(u * (sa + 0x80_0000) == u * sa + 0x80_0000 * u && u * (sb + 0x80_0000) == u * sb + 0x80_0000 * u && u * (sa
        + sb + 0x80_0000) == u * sa + u * sb + 0x80_0000 * u) by (nonlinear_arith);
    assert(PRECISION * (grain() * sa) == u * sa) by (nonlinear_arith)
        requires
            u == PRECISION * grain(),
    ;
    assert(0x100_0000 * sx <= 0x100_0000 * (sa + sb) + sx);
    assert(u * sx <= 2 * (u * sa) + 2 * (u * sb)) by (nonlinear_arith)
        requires
            0x100_0000 * sx <= 0x100_0000 * (sa + sb) + sx,
            sa >= 0,
            sb >= 0,
            sx >= 0,
            u > 0,
    ;
    let exact = (u - tv) * av + tv * bv;
    assert(x.value() * u - exact == (q.value() * u - pv * av) + drift * av + (r.value() * u - tv * bv) + slip * u);
}

/// Interpolation reaches both of its ends exactly.
pub proof fn law_interpolation_reaches_its_ends(a: Binary32, b: Binary32)
    requires
        a.finite(),
        b.finite(),
    ensures
        equal_numbers(between(a, b, num(ZERO_BITS)), a),
        equal_numbers(between(a, b, num(ONE_BITS)), b),
{
    let (zero, one) = (num(ZERO_BITS), num(ONE_BITS));
    assert(magnitude_value(0) == 0);
    lemma_difference_with_itself(one);
    lemma_sum_with_zero(one, zero.opposite());
    assert(one.difference(zero) == one);
    lemma_one_times(a);
    lemma_one_times(b);
    lemma_product_with_zero(zero, a);
    lemma_product_with_zero(zero, b);
    lemma_zero_added(a, zero.product(b));
    lemma_zero_added(b, zero.product(a));
    law_sum_and_product_commute(b, zero.product(a));
}

proof fn lemma_one_times(a: Binary32)
    requires
        a.finite(),
    ensures
        num(ONE_BITS).product(a) == a,
{
    let u = unit_value();
    lemma_one_is_unit();
    lemma_pow2_pos(149);
    a.lemma_parts();
    let y = size(a.value());
    assert(u * y == y * u) by (nonlinear_arith);
    lemma_exact_value_is_kept(y * u, u, a.magnitude());
    assert(num(ONE_BITS).value() == u);
}

proof fn lemma_zero_added(a: Binary32, zero: Binary32)
    requires
        a.finite(),
        zero.magnitude() == 0,
    ensures
        equal_numbers(a.sum(zero), a),
{
    assert(magnitude_value(0) == 0);
    if a.magnitude() != 0 {
        lemma_sum_with_zero(a, zero);
    }
}

/// The window that counts: at least a thousandth of a second.
pub open spec fn counted_window(window_seconds: Binary32) -> Binary32 {
    window_seconds.larger(num(SHORTEST_WINDOW_BITS))
}

/// The share of the window that an age makes up.
proof fn lemma_share_of_window(age: Binary32, window: Binary32)
    requires
        plain(age),
        plain(window),
        0 < window.value(),
    ensures
        ({
            let share = age.quotient(window);
            let u = unit_value();
            &&& !share.nan() && !share.negative()
            &&& share.magnitude() == nearest(age.value() * u, window.value())
            &&& age.value() >= window.value() ==> ONE_BITS <= share.magnitude()
            &&& age.value() <= window.value() ==> {
                &&& plain(share) && share.magnitude() <= ONE_BITS
                &&& size(share.value() * window.value() - age.value() * u) <= grain() * window.value()
            }
        }),
{
    let u = unit_value();
    let (a, w) = (age.value(), window.value());
    lemma_plain(age);
    lemma_plain(window);
    lemma_one_is_unit();
    lemma_grain();
    lemma_results_are_numbers(age, window);
    let share = age.quotient(window);
    assert(0 <= a * u && 0 <= u * w && (a >= w ==> u * w <= a * u) && (a <= w ==> a * u <= u * w)) by (nonlinear_arith)
        requires
            0 <= a,
            0 < w,
            0 < u,
    ;
    lemma_rounding_exists(a * u, w);
    lemma_exact_value_is_kept(u * w, w, ONE_BITS as int);
    if a >= w {
        lemma_rounding_keeps_order(u * w, a * u, w);
    }
    if a <= w {
        lemma_rounding_error(a * u, w, ONE_BITS as int);
        lemma_plain(share);
        let v = share.value();
        let g = grain();
        let (p, n, e) = (v * w, a * u, g * w);
        assert((2 * v - 2 * g) * w == 2 * p - 2 * e && (2 * v + 2 * g) * w == 2 * p + 2 * e) by (nonlinear_arith)
            requires
                p == v * w,
                e == g * w,
        ;
    }
}

/// How recent a point is falls linearly with its age: one now, zero from the
/// length of the window on, and in between the part of the window that is left,
/// up to one part in two to the power 23.
pub proof fn law_recency_is_the_rest_of_the_window(age: Binary32, window_seconds: Binary32)
    requires
        plain(age),
        window_seconds.finite(),
    ensures
        ({
            let recency = recency_of(age, window_seconds);
            let window = counted_window(window_seconds);
            let u = unit_value();
            &&& plain(recency) && recency.magnitude() <= ONE_BITS
            &&& plain(window) && 0 < window.value()
            &&& age.value() == 0 ==> recency == num(ONE_BITS)
            &&& age.value() >= window.value() ==> recency == num(ZERO_BITS)
            &&& age.value() <= window.value() ==> 0x80_0000 * size(
                recency.value() * window.value() - u * (window.value() - age.value()),
            ) <= u * window.value()
        }),
{
    let window = counted_window(window_seconds);
    let one = num(ONE_BITS);
    let u = unit_value();
    lemma_plain(window);
    lemma_plain(age);
    lemma_plain(one);
    lemma_one_is_unit();
    lemma_grain();
    lemma_share_of_window(age, window);
    let share = age.quotient(window);
    let rest = one.difference(share);
    assert(magnitude_value(0) == 0);
    if age.value() >= window.value() {
        if share.finite() {
            lemma_plain(share);
            lemma_magnitude_value_increases(share.magnitude(), ONE_BITS as int);
            lemma_magnitude_value_increases(ONE_BITS as int, share.magnitude());
            assert(share.opposite().value() == -share.value());
            let exact = u - share.value();
            assert(exact <= 0);
            lemma_rounding_exists(size(exact), 1);
        }
        assert(rest.unit() == num(ZERO_BITS));
    }
    if age.value() <= window.value() {
        lemma_plain(share);
        lemma_rest_of_one(share);
        assert(rest.unit() == rest);
        let (r, v, a, w, g) = (rest.value(), share.value(), age.value(), window.value(), grain());
        let (drift, slip) = (r - (u - v), v * w - a * u);
        assert(r * w - u * (w - a) == drift * w - slip) by (nonlinear_arith)
            requires
                drift == r - (u - v),
                slip == v * w - a * u,
        ;
        assert(size(drift * w) <= g * w) by (nonlinear_arith)
            requires
                -g <= drift <= g,
                w > 0,
                size(drift * w) == drift * w || size(drift * w) == -(drift * w),
        ;
        assert(u * w == 0x100_0000 * (g * w)) by (nonlinear_arith)
            requires
                u == 0x100_0000 * g,
        ;
    }
    if age.value() == 0 {
        lemma_quotient_of_zero(age, window);
        assert(share == num(ZERO_BITS));
        lemma_sum_with_zero(one, share.opposite());
    }
}

/// An older point is not more recent.
pub proof fn law_recency_falls_with_age(younger: Binary32, older: Binary32, window_seconds: Binary32)
    requires
        plain(younger),
        plain(older),
        younger.value() <= older.value(),
        window_seconds.finite(),
    ensures
        recency_of(older, window_seconds).value() <= recency_of(younger, window_seconds).value(),
{
    let window = counted_window(window_seconds);
    let (p, q) = (recency_of(younger, window_seconds), recency_of(older, window_seconds));
    let u = unit_value();
    law_recency_is_the_rest_of_the_window(younger, window_seconds);
    law_recency_is_the_rest_of_the_window(older, window_seconds);
    lemma_plain(p);
    lemma_plain(q);
    lemma_plain(younger);
    lemma_plain(older);
    lemma_plain(window);
    assert(magnitude_value(0) == 0);
    if older.value() < window.value() {
        lemma_share_of_window(younger, window);
        lemma_share_of_window(older, window);
        let (x, y) = (younger.quotient(window), older.quotient(window));
        lemma_plain(x);
        lemma_plain(y);
        lemma_one_is_unit();
        lemma_grain();
        assert(0 <= younger.value() * u <= older.value() * u) by (nonlinear_arith)
            requires
                0 <= younger.value() <= older.value(),
                u > 0,
        ;
        lemma_rounding_keeps_order(younger.value() * u, older.value() * u, window.value());
        lemma_magnitude_value_increases(x.magnitude(), y.magnitude());
        lemma_magnitude_value_increases(y.magnitude(), ONE_BITS as int);
        lemma_rest_of_one(x);
        lemma_rest_of_one(y);
        assert(x.opposite().value() == -x.value() && y.opposite().value() == -y.value());
        lemma_rounding_keeps_order(u - y.value(), u - x.value(), 1);
        lemma_exact_value_is_kept(0, 1, 0);
        lemma_rounding_exists(u - x.value(), 1);
        lemma_rounding_exists(u - y.value(), 1);
        let one = num(ONE_BITS);
        assert(one.value() == u);
        assert(p == one.difference(x) && q == one.difference(y));
        assert(p.magnitude() == nearest(u - x.value(), 1));
        assert(q.magnitude() == nearest(u - y.value(), 1));
        lemma_magnitude_value_increases(q.magnitude(), p.magnitude());
    }
}

/// Whether the history of a display can be placed: its ages are spans of less
/// than half a year, the window is a number, and the chart is not beyond all
/// bounds.
pub open spec fn placeable(hud: F1OpenHud<'_>, rect: Rect, now: Instant) -> bool {
    &&& hud.window_seconds.finite()
    &&& rect.min.x.magnitude() <= FAR_BITS
    &&& rect.max.x.magnitude() <= FAR_BITS
    &&& forall|i: int|
        0 <= i < hud.points@.len() ==> elapsed_between((#[trigger] hud.points@[i]).captured_at@, now@) < LONG_SPAN_NANOS
}

/// The age of a point in seconds.
pub open spec fn age_of(hud: F1OpenHud<'_>, now: Instant, i: int) -> Binary32 {
    in_seconds(elapsed_between(hud.points@[i].captured_at@, now@))
}

/// The traces of all channels stand at the same place on the time axis: a point
/// captured now at the right edge, one as old as the window or older at the left
/// edge, and any other at the part of the width that its age leaves, up to
/// rounding.
pub proof fn law_age_places_a_point(hud: F1OpenHud<'_>, rect: Rect, now: Instant, i: int)
    requires
        0 <= i < hud.points@.len(),
        placeable(hud, rect, now),
    ensures
        ({
            let sample = hud.trace(rect, now)[i].positions;
            let window = counted_window(hud.window_seconds);
            let (age, u) = (age_of(hud, now, i), unit_value());
            let (left, right, x) = (rect.min.x.value(), rect.max.x.value(), sample.brake.x);
            let t = recency_of(age, hud.window_seconds).value();
            &&& sample.throttle.x == x && sample.speed.x == x
            &&& hud.points@[i].captured_at@ >= now@ ==> equal_numbers(x, rect.max.x)
            &&& plain(age) && age.value() >= window.value() ==> equal_numbers(x, rect.min.x)
            &&& plain(age) && 0x40_0000 * size(x.value() * u - ((u - t) * left + t * right)) <= u * (size(left) + size(
                right,
            ) + 0x80_0000)
        }),
{
    assert(elapsed_between(hud.points@[i].captured_at@, now@) < LONG_SPAN_NANOS);
    law_seconds_grow_with_nanoseconds(0, elapsed_between(hud.points@[i].captured_at@, now@));
    let age = age_of(hud, now, i);
    lemma_plain(age);
    assert(magnitude_value(0) == 0);
    law_recency_is_the_rest_of_the_window(age, hud.window_seconds);
    let t = recency_of(age, hud.window_seconds);
    lemma_plain(t);
    law_interpolation_is_linear(rect.min.x, rect.max.x, t);
    law_interpolation_reaches_its_ends(rect.min.x, rect.max.x);
    assert(hud.trace(rect, now)[i] == hud.sample_at(rect, now, i));
}

/// Time runs from left to right: for points in the order of their capture a
/// newer one never stands left of an older one by more than the rounding of the
/// two places, and the head stands at the right edge.
pub proof fn law_time_runs_from_left_to_right(hud: F1OpenHud<'_>, rect: Rect, now: Instant, i: int, j: int)
    requires
        0 <= i <= j < hud.points@.len(),
        hud.points@[i].captured_at@ <= hud.points@[j].captured_at@,
        placeable(hud, rect, now),
        rect.min.x.value() <= rect.max.x.value(),
    ensures
        ({
            let (older, newer) = (hud.trace(rect, now)[i].positions, hud.trace(rect, now)[j].positions);
            let width = size(rect.min.x.value()) + size(rect.max.x.value()) + 0x80_0000;
            &&& 0x20_0000 * older.brake.x.value() <= 0x20_0000 * newer.brake.x.value() + width
            &&& recency_of(age_of(hud, now, i), hud.window_seconds).value() <= recency_of(
                age_of(hud, now, j),
                hud.window_seconds,
            ).value()
            &&& hud.latest is Some ==> {
                let head = hud.trace(rect, now).last().positions;
                head.brake.x == rect.max.x && head.throttle.x == rect.max.x && head.speed.x == rect.max.x
            }
        }),
{
    let ages = (
        elapsed_between(hud.points@[i].captured_at@, now@),
        elapsed_between(hud.points@[j].captured_at@, now@),
    );
    assert(ages.1 <= ages.0 < LONG_SPAN_NANOS);
    law_seconds_grow_with_nanoseconds(ages.1, ages.0);
    let (a, b) = (age_of(hud, now, i), age_of(hud, now, j));
    b.lemma_rank_orders_values(a);
    a.lemma_rank_orders_values(b);
    law_recency_falls_with_age(b, a, hud.window_seconds);
    law_age_places_a_point(hud, rect, now, i);
    law_age_places_a_point(hud, rect, now, j);
    let (s, t) = (recency_of(a, hud.window_seconds).value(), recency_of(b, hud.window_seconds).value());
    let (left, right, u) = (rect.min.x.value(), rect.max.x.value(), unit_value());
    let (x, y) = (hud.trace(rect, now)[i].positions.brake.x.value(), hud.trace(rect, now)[j].positions.brake.x.value());
    let width = size(left) + size(right) + 0x80_0000;
    assert((u - s) * left + s * right <= (u - t) * left + t * right) by (nonlinear_arith)
        requires
            s <= t,
            left <= right,
    ;
    lemma_grain();
    assert(0x20_0000 * x <= 0x20_0000 * y + width) by (nonlinear_arith)
        requires
            0x40_0000 * (x * u) <= 0x40_0000 * (y * u) + 2 * (u * width),
            u > 0,
    ;
}

/// Whether a chart has an ordinary height: at least eight units, and its edges
/// not beyond all bounds.
pub open spec fn has_height(rect: Rect) -> bool {
    &&& rect.min.y.magnitude() <= FAR_BITS - 0x80_0000
    &&& rect.max.y.magnitude() <= FAR_BITS - 0x80_0000
    &&& rect.min.y.value() + 16 <= rect.max.y.value()
}

/// The margin above and below the levels.
spec fn margin_of(rect: Rect) -> Binary32 {
    rect.span_y().product(num(PEDAL_PAD_BITS))
}

/// The height between the levels zero and one.
spec fn reach_of(rect: Rect) -> Binary32 {
    rect.span_y().difference(num(PEDAL_TWO_BITS).product(margin_of(rect)))
}

proof fn lemma_chart(rect: Rect)
    requires
        has_height(rect),
    ensures
        plain(rect.span_y()),
        rect.span_y().magnitude() <= FAR_BITS,
        plain(margin_of(rect)),
        margin_of(rect).magnitude() <= FAR_BITS,
        plain(reach_of(rect)),
        reach_of(rect).magnitude() <= FAR_BITS,
        4 * margin_of(rect).value() <= rect.span_y().value() + 4,
{
    let h = rect.span_y();
    let c = num(PEDAL_PAD_BITS);
    let u = unit_value();
    lemma_grain();
    lemma_sum_within(rect.max.y, rect.min.y, FAR_BITS - 0x80_0000);
    assert(rect.min.y.opposite().value() == -rect.min.y.value());
    let exact = rect.max.y.value() - rect.min.y.value();
    lemma_rounding_exists(exact, 1);
    lemma_plain(h);
    lemma_sum_error(rect.max.y, rect.min.y.opposite());
    assert(h.value() >= 8);
    // The margin is at most an eighth, up to rounding.
    law_sum_and_product_commute(h, c);
    lemma_plain(c);
    lemma_one_is_unit();
    lemma_share_of(c, h);
    let eighth = num(0x3e00_0000);
    lemma_plain(eighth);
    lemma_magnitude_value_increases(c.magnitude(), eighth.magnitude());
    lemma2_to64();
    lemma_pow2_adds(23, 123);
    lemma_pow2_adds(146, 3);
    assert(magnitude_value(eighth.magnitude()) == 0x80_0000 * pow2(123));
    assert(8 * eighth.value() == u);
    let pad = margin_of(rect);
    lemma_results_are_numbers(c, h);
    assert(plain(pad));
    lemma_plain(pad);
    let (v, w, p) = (c.value(), h.value(), pad.value());
    assert(8 * (v * w) <= u * w) by (nonlinear_arith)
        requires
            8 * v <= u,
            w >= 0,
    ;
    assert(0x100_0000 * (p * u) <= 0x100_0000 * (v * w) + u * (w + 0x80_0000));
    assert(4 * p <= w + 4) by (nonlinear_arith)
        requires
            0x100_0000 * (p * u) <= 0x100_0000 * (v * w) + u * (w + 0x80_0000),
            8 * (v * w) <= u * w,
            u > 0,
            w >= 8,
    ;
    // Twice the margin is at most the height.
    let two = num(PEDAL_TWO_BITS);
    lemma_integer_constant(two, 2, 22);
    lemma_multiple(pad, two, 2);
    lemma_rounding_exists(size(p) * 2, 1);
    assert(2 * p <= w);
    lemma_exact_value_is_kept(w, 1, h.magnitude());
    lemma_rounding_keeps_order(2 * p, w, 1);
    let twice = two.product(pad);
    assert(plain(twice));
    lemma_plain(twice);
    lemma_magnitude_value_increases(twice.magnitude(), h.magnitude());
    lemma_differences_keep_order(h, h, twice);
    let rest = w - twice.value();
    assert(twice.opposite().value() == -twice.value());
    lemma_exact_value_is_kept(0, 1, 0);
    lemma_rounding_keeps_order(rest, w, 1);
    lemma_rounding_exists(rest, 1);
}

/// A larger level stands higher, or as high: the y coordinate falls. All levels
/// up to zero stand at one place near the bottom, all from one on at one place
/// near the top, and neither leaves the chart's margin.
pub proof fn law_levels_point_upwards(rect: Rect, lower: Binary32, higher: Binary32)
    requires
        has_height(rect),
        lower.at_most(higher),
    ensures
        ({
            let (low, high) = (level_y(rect, lower), level_y(rect, higher));
            &&& low.finite() && high.finite() && high.value() <= low.value()
            &&& higher.at_most(num(ZERO_BITS)) ==> equal_numbers(low, high)
            &&& num(ONE_BITS).at_most(lower) ==> equal_numbers(low, high)
        }),
{
    lemma_chart(rect);
    let reach = reach_of(rect);
    let base = rect.max.y.difference(margin_of(rect));
    let (s, t) = (unsigned(lower.unit()), unsigned(higher.unit()));
    lemma_level(rect, lower);
    lemma_level(rect, higher);
    s.lemma_rank_orders_values(t);
    t.lemma_rank_orders_values(s);
    assert(s.value() <= t.value());
    lemma_plain(reach);
    lemma_share_of(s, reach);
    lemma_share_of(t, reach);
    lemma_results_are_numbers(s, reach);
    lemma_results_are_numbers(t, reach);
    lemma_products_keep_order(s, reach, t, reach);
    lemma_difference_falls(base, s.product(reach), t.product(reach));
    level_y(rect, lower).lemma_rank_orders_values(level_y(rect, higher));
}

/// A number without the sign of a zero.
spec fn unsigned(x: Binary32) -> Binary32 {
    if x.magnitude() == 0 {
        num(ZERO_BITS)
    } else {
        x
    }
}

/// The place of a level, with its share of the reach.
proof fn lemma_level(rect: Rect, level: Binary32)
    requires
        has_height(rect),
        !level.nan(),
    ensures
        ({
            let t = unsigned(level.unit());
            let base = rect.max.y.difference(margin_of(rect));
            let part = t.product(reach_of(rect));
            &&& plain(t) && t.magnitude() <= ONE_BITS
            &&& base.finite() && plain(part) && base.difference(part).finite()
            &&& level_y(rect, level).finite()
            &&& level_y(rect, level).value() == base.difference(part).value()
        }),
{
    lemma_chart(rect);
    let reach = reach_of(rect);
    let margin = margin_of(rect);
    let t = unsigned(level.unit());
    lemma_plain(t);
    lemma_share_of(t, reach);
    lemma_results_are_numbers(t, reach);
    let part = t.product(reach);
    lemma_sum_within(rect.max.y, margin, FAR_BITS as int);
    let base = rect.max.y.difference(margin);
    lemma_sum_within(base, part, FAR_BITS + 0x80_0000);
    if t.magnitude() == 0 {
        let raw = level.unit();
        assert(raw.magnitude() == 0);
        lemma_product_with_zero(raw, reach);
        lemma_product_with_zero(t, reach);
        lemma_zero_added(base, raw.product(reach).opposite());
        lemma_zero_added(base, part.opposite());
        lemma_equal_values(base.difference(raw.product(reach)), base);
        lemma_equal_values(base.difference(part), base);
    }
}

proof fn lemma_equal_values(a: Binary32, b: Binary32)
    requires
        equal_numbers(a, b),
        b.finite(),
    ensures
        a.finite(),
        a.value() == b.value(),
{
    a.lemma_rank_orders_values(b);
}

/// Each trace shows its own channel: brake, throttle and speed in parts of a
/// hundred meters per second. What the other channels hold does not matter, and
/// more of the channel stands higher.
pub proof fn law_traces_show_their_channels(hud: F1OpenHud<'_>, rect: Rect, now: Instant, i: int, j: int)
    requires
        0 <= i < hud.points@.len(),
        0 <= j < hud.points@.len(),
        has_height(rect),
    ensures
        ({
            let (a, b) = (hud.points@[i].telemetry, hud.points@[j].telemetry);
            let (p, q) = (hud.trace(rect, now)[i].positions, hud.trace(rect, now)[j].positions);
            let (s, t) = (a.speed.quotient(num(SPEED_SCALE_BITS)), b.speed.quotient(num(SPEED_SCALE_BITS)));
            &&& a.brake.at_most(b.brake) ==> q.brake.y.value() <= p.brake.y.value()
            &&& a.throttle.at_most(b.throttle) ==> q.throttle.y.value() <= p.throttle.y.value()
            &&& s.at_most(t) ==> q.speed.y.value() <= p.speed.y.value()
            &&& a.brake == b.brake ==> p.brake.y == q.brake.y
            &&& a.throttle == b.throttle ==> p.throttle.y == q.throttle.y
            &&& a.speed == b.speed ==> p.speed.y == q.speed.y
            &&& a.brake == a.throttle ==> p.brake.y == p.throttle.y
        }),
{
    let (a, b) = (hud.points@[i].telemetry, hud.points@[j].telemetry);
    let (s, t) = (a.speed.quotient(num(SPEED_SCALE_BITS)), b.speed.quotient(num(SPEED_SCALE_BITS)));
    if a.brake.at_most(b.brake) {
        law_levels_point_upwards(rect, a.brake, b.brake);
    }
    if a.throttle.at_most(b.throttle) {
        law_levels_point_upwards(rect, a.throttle, b.throttle);
    }
    if s.at_most(t) {
        law_levels_point_upwards(rect, s, t);
    }
    assert(hud.trace(rect, now)[i] == hud.sample_at(rect, now, i));
    assert(hud.trace(rect, now)[j] == hud.sample_at(rect, now, j));
}

/// The head of the traces shows the latest point as the history would, and the
/// lock of the last point.
pub proof fn law_head_shows_the_latest_point(hud: F1OpenHud<'_>, rect: Rect, now: Instant, i: int)
    requires
        hud.latest is Some,
        0 <= i < hud.points@.len(),
        hud.points@[i].telemetry == hud.latest->0.telemetry,
    ensures
        ({
            let head = hud.trace(rect, now).last();
            let sample = hud.trace(rect, now)[i];
            &&& hud.trace(rect, now).len() == hud.points@.len() + 1
            &&& head.positions.brake.y == sample.positions.brake.y
            &&& head.positions.throttle.y == sample.positions.throttle.y
            &&& head.positions.speed.y == sample.positions.speed.y
            &&& hud.lock_history@.len() > 0 ==> head.lock == hud.lock_history@.last()
            &&& i < hud.lock_history@.len() ==> sample.lock == hud.lock_history@[i]
        }),
{
    assert(hud.trace(rect, now)[i] == hud.sample_at(rect, now, i));
}

} // verus!
