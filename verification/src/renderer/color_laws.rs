//! What mixing and dimming do to a colour.
use crate::arithmetic::{
    lemma_difference_with_itself, lemma_exact_value_is_kept, lemma_one_is_unit, lemma_product_with_zero,
    lemma_representable, lemma_rounding_exists, lemma_rounding_keeps_order, lemma_sum_with_zero, lemma_whole_is_exact,
    nearest, size, whole,
};
use crate::binary32::{
    lemma_magnitude_value_increases, magnitude_value, num, unit_value, Binary32, INFINITY_BITS, ONE_BITS, ZERO_BITS,
};
use crate::exactness::{lemma_integer_constant, lemma_multiple, lemma_plain, plain};
use crate::renderer::color::{dimmed, heated, heated_channel, mixed, mixed_channel, opaque, Color, FULL_CHANNEL_BITS};
use vstd::arithmetic::div_mod::{lemma_fundamental_div_mod, lemma_fundamental_div_mod_converse};
use vstd::arithmetic::power2::{lemma2_to64, lemma_pow2_adds, lemma_pow2_pos, pow2};
use vstd::prelude::*;

verus! {

/// An integer as a number is that integer again.
proof fn lemma_whole_number(n: nat)
    requires
        n < 0x1000,
    ensures
        plain(whole(n)),
        whole(n).value() == n * unit_value(),
        whole(n).whole_part() == n,
        whole(n).nearest_integer() == n,
        n == 0 <==> whole(n).magnitude() == 0,
        n == 0 ==> whole(n) == num(ZERO_BITS),
{
    lemma_whole_is_exact(n);
    lemma_pow2_pos(149);
    lemma_plain(whole(n));
    let u = unit_value();
    assert(n * u == u * n && (n > 0 ==> n * u > 0)) by (nonlinear_arith)
        requires
            u > 0,
    ;
    lemma_fundamental_div_mod_converse(n * u, u, n as int, 0);
}

/// A number plus the difference from it to another is that other one, for small
/// integers.
proof fn lemma_step_to(a: nat, b: nat)
    requires
        a < 256,
        b < 256,
    ensures
        ({
            let gap = whole(b).difference(whole(a));
            &&& gap.finite()
            &&& whole(a).sum(gap.product(num(ONE_BITS))).value() == whole(b).value()
            &&& whole(a).sum(gap.product(num(ONE_BITS))) == whole(b)
        }),
{
    lemma_whole_number(a);
    lemma_whole_number(b);
    let (x, y) = (whole(a), whole(b));
    let u = unit_value();
    lemma_pow2_pos(149);
    let distance: nat = if a <= b { (b - a) as nat } else { (a - b) as nat };
    lemma_whole_number(distance);
    assert(x.opposite().value() == -x.value());
    assert(b * u - a * u == (b - a) * u) by (nonlinear_arith);
    assert((a - b) * u == -((b - a) * u)) by (nonlinear_arith);
    let gap = y.difference(x);
    lemma_plain(whole(distance));
    lemma_exact_value_is_kept(distance * u, 1, whole(distance).magnitude());
    if a == b {
        lemma_difference_with_itself(x);
    }
    assert(gap.magnitude() == whole(distance).magnitude());
    assert(distance > 0 ==> gap.negative() == (b < a));
    let one = num(ONE_BITS);
    lemma_one_is_unit();
    gap.lemma_parts();
    lemma_exact_value_is_kept(size(gap.value()) * u, u, gap.magnitude());
    assert(size(one.value()) == u);
    assert(gap.product(one) == gap);
    assert(gap.value() == (b - a) * u);
    lemma_plain(y);
    if a == b {
        if a > 0 {
            lemma_sum_with_zero(x, gap);
        } else {
            lemma_exact_value_is_kept(0, 1, 0);
            assert(magnitude_value(0) == 0);
        }
    } else {
        lemma_exact_value_is_kept(b * u, 1, y.magnitude());
        assert(b > 0 ==> b * u > 0) by (nonlinear_arith)
            requires
                u > 0,
        ;
    }
}

/// Mixing in nothing changes nothing, and mixing in everything gives the other
/// colour; the alpha stays in either case.
pub proof fn law_mix_goes_from_one_color_to_the_other(a: Color, b: Color)
    requires
        a.a == 255,
    ensures
        mixed(a, b, num(ZERO_BITS)) == a,
        mixed(a, b, num(ONE_BITS)) == (Color { r: b.r, g: b.g, b: b.b, a: 255 }),
{
    lemma_no_mix(a.r, b.r);
    lemma_no_mix(a.g, b.g);
    lemma_no_mix(a.b, b.b);
    lemma_full_mix(a.r, b.r);
    lemma_full_mix(a.g, b.g);
    lemma_full_mix(a.b, b.b);
}

proof fn lemma_no_mix(from: u8, to: u8)
    ensures
        mixed_channel(from, to, num(ZERO_BITS)) == from,
{
    lemma_step_to(from as nat, to as nat);
    lemma_whole_number(from as nat);
    let (x, y) = (whole(from as nat), whole(to as nat));
    let gap = y.difference(x);
    lemma_product_with_zero(num(ZERO_BITS), gap);
    let none = gap.product(num(ZERO_BITS));
    if from > 0 {
        lemma_sum_with_zero(x, none);
    } else {
        lemma_exact_value_is_kept(0, 1, 0);
        assert(magnitude_value(0) == 0);
        assert(x.sum(none).magnitude() == 0);
        assert(x.sum(none) == num(ZERO_BITS));
    }
}

proof fn lemma_full_mix(from: u8, to: u8)
    ensures
        mixed_channel(from, to, num(ONE_BITS)) == to,
{
    lemma_step_to(from as nat, to as nat);
    lemma_whole_number(to as nat);
}

/// Heating by nothing changes nothing, and heating fully gives white.
pub proof fn law_heat_goes_from_the_color_to_white(c: Color)
    requires
        c.a == 255,
    ensures
        heated(c, num(ZERO_BITS)) == c,
        heated(c, num(ONE_BITS)) == opaque(255, 255, 255),
{
    lemma_full_channel();
    lemma_heat(c.r);
    lemma_heat(c.g);
    lemma_heat(c.b);
}

proof fn lemma_full_channel()
    ensures
        num(FULL_CHANNEL_BITS) == whole(255),
{
    let full = num(FULL_CHANNEL_BITS);
    lemma2_to64();
    lemma_integer_constant(full, 255, 16);
    lemma_plain(full);
    lemma_exact_value_is_kept(255 * unit_value(), 1, full.magnitude());
}

proof fn lemma_heat(channel: u8)
    ensures
        heated_channel(channel, num(ZERO_BITS)) == channel,
        heated_channel(channel, num(ONE_BITS)) == 255,
{
    lemma_full_channel();
    lemma_step_to(channel as nat, 255);
    lemma_whole_number(channel as nat);
    lemma_whole_number(255);
    let x = whole(channel as nat);
    let gap = whole(255).difference(x);
    lemma_product_with_zero(num(ZERO_BITS), gap);
    let none = gap.product(num(ZERO_BITS));
    if channel > 0 {
        lemma_sum_with_zero(x, none);
    } else {
        lemma_exact_value_is_kept(0, 1, 0);
        assert(magnitude_value(0) == 0);
        assert(x.sum(none) == num(ZERO_BITS));
    }
}

/// Dimming multiplies the alpha by the opacity, cut off to an integer: full
/// opacity keeps an opaque colour, none makes any colour transparent, and
/// opacities beyond one count as one.
pub proof fn law_dimming_scales_the_alpha(c: Color, opacity: Binary32)
    requires
        !opacity.nan(),
    ensures
        ({
            let r = dimmed(c, opacity);
            let exact = magnitude_value(nearest(opacity.value() * c.a, 1));
            &&& opacity.at_most(num(ZERO_BITS)) ==> r == (Color { r: 0, g: 0, b: 0, a: 0 })
            &&& num(ONE_BITS).at_most(opacity) ==> r.a == c.a
            &&& num(ONE_BITS).at_most(opacity) && c.a == 255 ==> r == c
            &&& num(ZERO_BITS).below(opacity) && opacity.below(num(ONE_BITS)) ==> r.a * unit_value() <= exact < (r.a
                + 1) * unit_value()
            &&& r.a <= c.a
        }),
{
    let t = opacity.unit();
    let a = whole(c.a as nat);
    let u = unit_value();
    lemma_whole_number(c.a as nat);
    lemma_whole_number(0);
    lemma_one_is_unit();
    lemma_pow2_pos(149);
    lemma_multiple(t, a, c.a as int);
    let product = a.product(t);
    t.lemma_parts();
    assert(magnitude_value(0) == 0);
    lemma_magnitude_value_increases(0, t.magnitude());
    lemma_magnitude_value_increases(t.magnitude(), ONE_BITS as int);
    let n = size(t.value()) * c.a;
    assert(0 <= n <= c.a * u) by (nonlinear_arith)
        requires
            n == size(t.value()) * c.a,
            0 <= size(t.value()) <= u,
            c.a >= 0,
    ;
    lemma_plain(a);
    lemma_rounding_exists(n, 1);
    lemma_exact_value_is_kept(c.a * u, 1, a.magnitude());
    lemma_rounding_keeps_order(n, c.a * u, 1);
    lemma_magnitude_value_increases(nearest(n, 1), a.magnitude());
    lemma_magnitude_value_increases(0, nearest(n, 1));
    let v = magnitude_value(nearest(n, 1));
    assert(0 <= v <= c.a * u);
    assert(product.magnitude() == nearest(n, 1));
    lemma_fundamental_div_mod(v, u);
    let q = v / u;
    assert(0 <= q <= c.a && q * u <= v < (q + 1) * u) by (nonlinear_arith)
        requires
            v == u * q + v % u,
            0 <= v % u < u,
            0 <= v <= c.a * u,
            u > 0,
    ;
    if t.magnitude() == 0 {
        lemma_product_with_zero(t, a);
        assert(v == 0);
        assert(q == 0) by (nonlinear_arith)
            requires
                q * u <= v,
                v == 0,
                0 <= q,
                u > 0,
        ;
    }
    if t == num(ONE_BITS) {
        assert(n == c.a * u) by (nonlinear_arith)
            requires
                n == size(t.value()) * c.a,
                size(t.value()) == u,
        ;
        assert(q == c.a) by (nonlinear_arith)
            requires
                v == c.a * u,
                q * u <= v < (q + 1) * u,
                u > 0,
        ;
    }
    if !product.negative() {
        assert(product.whole_part() == q);
    }
}

/// The half of an integer.
proof fn lemma_half_of_integer(n: nat)
    requires
        n < 0x1000,
    ensures
        ({
            let (m, p) = (nearest((n * pow2(148)) as int, 1), pow2(148) as int);
            &&& 0 <= m < INFINITY_BITS
            &&& magnitude_value(m) == n * p
            &&& unit_value() == 2 * p
            &&& p > 0
            &&& num(0x3f00_0000).value() == p
        }),
{
    lemma2_to64();
    lemma_pow2_adds(1, 148);
    lemma_pow2_adds(23, 125);
    lemma_pow2_pos(148);
    let m = lemma_representable(n as int, 148);
    lemma_exact_value_is_kept((n * pow2(148)) as int, 1, m);
}

/// Half of the way from one integer to another is their mean.
proof fn lemma_mean(from: nat, to: nat)
    requires
        from < 256,
        to < 256,
    ensures
        ({
            let r = whole(from).sum(whole(to).difference(whole(from)).product(num(0x3f00_0000)));
            &&& plain(r)
            &&& 2 * r.value() == (from + to) * unit_value()
            &&& r.nearest_integer() == (from + to + 1) / 2
            &&& r.whole_part() == (from + to) / 2
        }),
{
    lemma_step_to(from, to);
    lemma_whole_number(from);
    lemma_whole_number(to);
    let (x, y, half) = (whole(from), whole(to), num(0x3f00_0000));
    let distance: nat = if from <= to { (to - from) as nat } else { (from - to) as nat };
    lemma_whole_number(distance);
    lemma_half_of_integer(distance);
    lemma_half_of_integer(from + to);
    let u = unit_value();
    let p = pow2(148) as int;
    assert(x.opposite().value() == -x.value());
    assert(to * u - from * u == (to - from) * u) by (nonlinear_arith);
    assert((from - to) * u == -((to - from) * u)) by (nonlinear_arith);
    let gap = y.difference(x);
    lemma_plain(whole(distance));
    lemma_exact_value_is_kept(distance * u, 1, whole(distance).magnitude());
    if from == to {
        lemma_difference_with_itself(x);
    }
    assert(gap.magnitude() == whole(distance).magnitude());
    assert(distance > 0 ==> gap.negative() == (to < from));
    gap.lemma_parts();
    assert(size(gap.value()) == distance * u);
    let m = nearest(distance * p, 1);
    assert((distance * u) * p == (distance * p) * u) by (nonlinear_arith);
    lemma_plain(half);
    lemma_exact_value_is_kept(size(gap.value()) * half.value(), u, m);
    let step = gap.product(half);
    assert(step.magnitude() == m);
    assert(step.value() == if gap.negative() { -(distance * p) } else { distance * p });
    assert(distance == 0 ==> step.value() == 0);
    assert((to - from) * p == to * p - from * p && (from - to) * p == from * p - to * p) by (nonlinear_arith);
    assert(from * u == 2 * (from * p) && (from + to) * p == from * p + to * p) by (nonlinear_arith)
        requires
            u == 2 * p,
    ;
    assert(x.value() + step.value() == (from + to) * p);
    assert((from + to) * p >= 0) by (nonlinear_arith)
        requires
            p > 0,
            from + to >= 0,
    ;
    let r = x.sum(step);
    let n = from + to;
    assert(plain(r) && r.value() == n * p) by {
        if n * p == 0 {
            assert(magnitude_value(0) == 0);
            lemma_exact_value_is_kept(0, 1, 0);
            assert(from == 0 && to == 0) by (nonlinear_arith)
                requires
                    n * p == 0,
                    n == from + to,
                    p > 0,
            ;
            assert(x == num(ZERO_BITS));
        }
    }
    assert(2 * (n * p) == n * u) by (nonlinear_arith)
        requires
            u == 2 * p,
    ;
    let (q, rest) = (n / 2, n % 2);
    assert(n * p == q * u + rest * p && q * u == u * q) by (nonlinear_arith)
        requires
            n == 2 * q + rest,
            u == 2 * p,
    ;
    assert(rest * p == if rest == 0 { 0 } else { p }) by (nonlinear_arith)
        requires
            rest == 0 || rest == 1,
    ;
    lemma_fundamental_div_mod_converse(n * p, u, q as int, rest * p);
}

/// Mixing in one half gives the mean of both colours, rounded up where it lies
/// between two integers, and heating by one half the mean with white, cut off.
pub proof fn law_half_mix_is_the_mean(a: Color, b: Color)
    requires
        a.a == 255,
    ensures
        ({
            let mix = mixed(a, b, num(0x3f00_0000));
            let hot = heated(a, num(0x3f00_0000));
            &&& mix.r == (a.r + b.r + 1) / 2 && mix.g == (a.g + b.g + 1) / 2 && mix.b == (a.b + b.b + 1) / 2
            &&& hot.r == (a.r + 255) / 2 && hot.g == (a.g + 255) / 2 && hot.b == (a.b + 255) / 2
            &&& mix.a == 255 && hot.a == 255
        }),
{
    lemma_mean(a.r as nat, b.r as nat);
    lemma_mean(a.g as nat, b.g as nat);
    lemma_mean(a.b as nat, b.b as nat);
    lemma_full_channel();
    lemma_mean(a.r as nat, 255);
    lemma_mean(a.g as nat, 255);
    lemma_mean(a.b as nat, 255);
}

} // verus!
