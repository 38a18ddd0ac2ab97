//! How the meters, the steering arc and the shift lights show their values.
use crate::arithmetic::{
    law_sum_and_product_commute, lemma_exact_value_is_kept, lemma_one_is_unit, lemma_product_with_zero,
    lemma_quotient_of_zero, lemma_results_are_numbers, lemma_rounding_exists, lemma_rounding_is_unique,
    lemma_rounding_keeps_order, nearest, rounds_to, size,
};
use crate::binary32::{lemma_magnitude_value_increases, magnitude_value, num, unit_value, Binary32, ONE_BITS, ZERO_BITS};
use crate::exactness::{lemma_plain, lemma_sum_grows, plain};
use crate::model::{RevLights, TelemetryPoint};
use crate::renderer::brake_limit::{stepped, BrakeLimitFeedback};
use crate::renderer::brake_limit_onset::{lemma_curve, lemma_dyadic};
use crate::renderer::canvas::{sharp_parts, HudParts};
use crate::renderer::color::{dimmed, mixed, opaque};
use crate::renderer::color_laws::law_mix_goes_from_one_color_to_the_other;
use crate::renderer::display_laws::law_meter_lights_in_proportion;
use crate::renderer::geometry::{Pos2, Rect, Vec2};
use crate::renderer::hud::{F1OpenHud, GEAR_GLOW_BITS, GEAR_RADIUS_BITS, SPEED_GLOW_BITS, SPEED_RADIUS_BITS};
use crate::renderer::hud_layout::{centered_at, layout_of, GEAR_PLACE_BITS, SPEED_PLACE_BITS};
use crate::renderer::instruments::{
    arc_state, light_on, light_palette, light_state, lights_parts, lit_segments, lock_cover, meter_colors, meter_halo,
    meter_parts, meter_segment, meter_shapes, segment_halo, segment_shapes, steering_shapes, ArcEdges, MeterColors,
};
use crate::renderer::palette::{
    brake_colors, idle_gray, lock_cyan, lock_hot, rpm_high_colors, rpm_low_colors, throttle_colors, white,
    ChannelPalette,
};
use crate::renderer::segments::{SegmentState, COVER_RANGE_BITS, COVER_START_BITS, VISIBLE_BITS};
use crate::renderer::shapes::ShapeView;
use vstd::arithmetic::power2::{lemma2_to64, lemma_pow2_adds, lemma_pow2_pos, pow2};
use vstd::prelude::*;

verus! {

/// A half of the meter shows no cyan up to a lock amount of 0.05, and is fully
/// cyan from one half on.
pub proof fn law_cover_follows_the_lock_amount(amount: Binary32)
    requires
        num(ZERO_BITS).at_most(amount),
        amount.at_most(num(ONE_BITS)),
    ensures
        amount.at_most(num(0x3d4c_cccd)) ==> lock_cover(amount).magnitude() == 0,
        num(0x3f00_0000).at_most(amount) ==> lock_cover(amount) == num(ONE_BITS),
{
    let (start, range, one) = (num(COVER_START_BITS), num(COVER_RANGE_BITS), num(ONE_BITS));
    let rise = amount.difference(start);
    lemma_plain(start);
    lemma_plain(range);
    crate::exactness::lemma_sum_within(amount, start, ONE_BITS as int);
    assert(rise.finite());
    if amount.at_most(start) {
        amount.lemma_rank_orders_values(start);
        let exact = amount.value() + start.opposite().value();
        assert(start.opposite().value() == -start.value());
        assert(exact <= 0);
        if exact < 0 {
            lemma_rounding_exists(-exact, 1);
        }
        lemma_results_are_numbers(rise, range);
        assert(rise.negative() || rise.magnitude() == 0);
        if rise.magnitude() == 0 {
            lemma_quotient_of_zero(rise, range);
        }
        let t = rise.quotient(range).unit();
        assert(t.magnitude() == 0);
        lemma_product_with_zero(t, t);
        lemma_product_with_zero(t, num(0x4000_0000));
        let slope = num(0x4040_0000).difference(num(0x4000_0000).product(t));
        crate::arithmetic::lemma_sum_with_zero(num(0x4040_0000), num(0x4000_0000).product(t).opposite());
        lemma_product_with_zero(t.product(t), slope);
    }
    if num(0x3f00_0000).at_most(amount) {
        let half = num(0x3f00_0000);
        lemma_half_reaches_the_end();
        half.lemma_rank_orders_values(amount);
        law_sum_and_product_commute(half, start.opposite());
        law_sum_and_product_commute(amount, start.opposite());
        lemma_sum_grows(start.opposite(), half, amount);
        assert(magnitude_value(0) == 0);
        lemma_magnitude_value_increases(0, rise.magnitude());
        lemma_one_is_unit();
        lemma_pow2_pos(149);
        let (a, b, u) = (rise.value(), range.value(), unit_value());
        assert(b <= a);
        assert(0 <= u * b <= a * u) by (nonlinear_arith)
            requires
                0 <= b <= a,
                u > 0,
        ;
        lemma_exact_value_is_kept(u * b, b, ONE_BITS as int);
        lemma_rounding_keeps_order(u * b, a * u, b);
        lemma_rounding_exists(a * u, b);
        assert(rise.quotient(range).unit() == one);
        lemma2_to64();
        lemma_dyadic(one, 4096, 11);
        lemma_curve(one, 4096, one, 4096, one, 4096, one, 4096);
    }
}

proof fn lemma_half_reaches_the_end()
    ensures
        num(0x3f00_0000).difference(num(COVER_START_BITS)) == num(COVER_RANGE_BITS),
{
    let (half, start) = (num(0x3f00_0000), num(COVER_START_BITS));
    lemma2_to64();
    lemma_pow2_adds(3, 121);
    lemma_pow2_adds(4, 121);
    lemma_pow2_pos(121);
    let p = pow2(121) as int;
    assert(half.value() == 8_388_608 * (16 * p));
    assert(start.value() == 13_421_773 * p);
    assert(start.opposite().value() == -start.value());
    let exact = half.value() - start.value();
    assert(magnitude_value(0x3ee6_6665) == 15_099_493 * (8 * p));
    assert(magnitude_value(0x3ee6_6666) == 15_099_494 * (8 * p));
    assert(magnitude_value(0x3ee6_6667) == 15_099_495 * (8 * p));
    assert(rounds_to(exact, 1, 0x3ee6_6666));
    lemma_rounding_exists(exact, 1);
    lemma_rounding_is_unique(exact, 1, 0x3ee6_6666, nearest(exact, 1));
}

/// A half of the meter turns cyan smoothly between the lock amounts 0.05 and one
/// half.
pub proof fn law_cover_is_a_smooth_transition(amount: Binary32)
    ensures
        lock_cover(amount) == stepped(num(0x3d4c_cccd), num(0x3f00_0000), amount),
{
    lemma_half_reaches_the_end();
}

/// Without a warning, a burn or a pulse each half of a meter has its own colour:
/// that of the palette while there is little lock, and cyan from a lock amount
/// of one half on, the left half by the left wheel and the right half by the
/// right one.
pub proof fn law_lock_colors_its_own_half(palette: ChannelPalette, feedback: BrakeLimitFeedback)
    requires
        palette.body.a == 255,
        feedback.approach_mix == num(ZERO_BITS),
        feedback.burn == num(ZERO_BITS),
        feedback.pulse == num(ZERO_BITS),
        num(ZERO_BITS).at_most(feedback.lock_fl),
        feedback.lock_fl.at_most(num(ONE_BITS)),
        num(ZERO_BITS).at_most(feedback.lock_fr),
        feedback.lock_fr.at_most(num(ONE_BITS)),
    ensures
        ({
            let colors = meter_colors(palette, Some(feedback));
            let (little, much) = (num(0x3d4c_cccd), num(0x3f00_0000));
            &&& colors.base == palette.body
            &&& feedback.lock_fl.at_most(little) ==> colors.left_cover.magnitude() == 0
            &&& feedback.lock_fr.at_most(little) ==> colors.right_cover.magnitude() == 0
            &&& much.at_most(feedback.lock_fl) ==> colors.left == lock_cyan() && colors.left_cover == num(ONE_BITS)
            &&& much.at_most(feedback.lock_fr) ==> colors.right == lock_cyan() && colors.right_cover == num(ONE_BITS)
        }),
{
    let zero = num(ZERO_BITS);
    law_cover_follows_the_lock_amount(feedback.lock_fl);
    law_cover_follows_the_lock_amount(feedback.lock_fr);
    law_mix_goes_from_one_color_to_the_other(palette.body, lock_hot());
    law_mix_goes_from_one_color_to_the_other(palette.body, lock_cyan());
    law_mix_goes_from_one_color_to_the_other(lock_cyan(), white());
    lemma_no_shine();
}

proof fn lemma_no_shine()
    ensures
        ({
            let zero = num(ZERO_BITS);
            zero.product(num(0x3e99_999a)).sum(zero.product(num(0x3e38_51ec))).clamped(zero, num(0x3ee6_6666)) == zero
        }),
{
    let zero = num(ZERO_BITS);
    lemma_product_with_zero(zero, num(0x3e99_999a));
    lemma_product_with_zero(zero, num(0x3e38_51ec));
    lemma_results_are_numbers(zero, num(0x3e99_999a));
    lemma_results_are_numbers(zero, num(0x3e38_51ec));
    assert(magnitude_value(0) == 0);
    lemma_exact_value_is_kept(0, 1, 0);
}

/// A meter without lock-up feedback has one shape for each of its fifteen
/// segments, from the bottom up: those below the level times fifteen in the
/// colour of the palette, the others gray.
pub proof fn law_plain_meter_shows_the_level(
    origin: Pos2,
    viewport: Vec2,
    rect: Rect,
    level: Binary32,
    palette: ChannelPalette,
    opacity: Binary32,
    i: int,
)
    requires
        palette.body.a == 255,
        level.finite(),
        0 <= i < 15,
    ensures
        ({
            let parts = meter_parts(origin, viewport, rect, Some(level), palette, None, opacity);
            let (zero, one) = (num(ZERO_BITS), num(ONE_BITS));
            let lit = one.at_most(level) || (zero.below(level) && i * unit_value() < magnitude_value(
                nearest(level.value() * 15, 1),
            ));
            &&& parts.sharp.len() == 15
            &&& parts.sharp[i] == (ShapeView::RectFilled {
                rect: meter_segment(rect, i),
                rounding: one,
                fill: if lit {
                    dimmed(palette.body, opacity.product(num(0x3f6b_851f)))
                } else {
                    dimmed(idle_gray(), opacity.product(num(0x3e8f_5c29)))
                },
            })
            &&& parts.fallback.len() == 0
        }),
{
    let zero = num(ZERO_BITS);
    let colors = meter_colors(palette, None);
    law_cover_follows_the_lock_amount(zero);
    law_mix_goes_from_one_color_to_the_other(palette.body, lock_hot());
    assert(zero.unit() == zero);
    let lit = lit_segments(level, 15);
    law_meter_lights_in_proportion(level, 15, i);
    lemma_plain_meter(rect, lit, colors, opacity, 15);
}

proof fn lemma_plain_segment(rect: Rect, lit: int, colors: MeterColors, opacity: Binary32, i: int)
    requires
        colors.left_cover.magnitude() == 0,
        colors.right_cover.magnitude() == 0,
        colors.glow.magnitude() == 0,
    ensures
        segment_halo(rect, lit, colors, opacity, i).len() == 0,
        segment_shapes(rect, lit, colors, opacity, i) == seq![
            ShapeView::RectFilled {
                rect: meter_segment(rect, i),
                rounding: num(ONE_BITS),
                fill: if i < lit {
                    dimmed(colors.base, opacity.product(num(0x3f6b_851f)))
                } else {
                    dimmed(idle_gray(), opacity.product(num(0x3e8f_5c29)))
                },
            },
        ],
{
    reveal(segment_shapes);
    reveal(segment_halo);
    let visible = num(VISIBLE_BITS);
    assert(!visible.below(colors.left_cover) && !visible.below(colors.right_cover) && !visible.below(colors.glow));
}

proof fn lemma_plain_meter(rect: Rect, lit: int, colors: MeterColors, opacity: Binary32, count: int)
    requires
        0 <= count,
        colors.left_cover.magnitude() == 0,
        colors.right_cover.magnitude() == 0,
        colors.glow.magnitude() == 0,
    ensures
        meter_shapes(rect, lit, colors, opacity, count).len() == count,
        meter_halo(rect, lit, colors, opacity, count).len() == 0,
        forall|i: int|
            0 <= i < count ==> #[trigger] meter_shapes(rect, lit, colors, opacity, count)[i] == (
            ShapeView::RectFilled {
                rect: meter_segment(rect, i),
                rounding: num(ONE_BITS),
                fill: if i < lit {
                    dimmed(colors.base, opacity.product(num(0x3f6b_851f)))
                } else {
                    dimmed(idle_gray(), opacity.product(num(0x3e8f_5c29)))
                },
            }),
    decreases count,
{
    if count > 0 {
        lemma_plain_meter(rect, lit, colors, opacity, count - 1);
        let last = segment_shapes(rect, lit, colors, opacity, count - 1);
        let halo = segment_halo(rect, lit, colors, opacity, count - 1);
        lemma_plain_segment(rect, lit, colors, opacity, count - 1);
        assert(meter_halo(rect, lit, colors, opacity, count) == meter_halo(rect, lit, colors, opacity, count - 1)
            + halo);
        assert(meter_shapes(rect, lit, colors, opacity, count) == meter_shapes(
            rect,
            lit,
            colors,
            opacity,
            count - 1,
        ) + last);
    }
}

/// The display shows the brake of the latest point in the brake meter, with the
/// lock-up feedback, its throttle in the throttle meter, without it, and its
/// steering in the arc. Behind the gear and the speed it adds light.
pub proof fn law_instruments_show_the_latest_point(
    hud: F1OpenHud,
    point: TelemetryPoint,
    rect: Rect,
    edges: Seq<ArcEdges>,
)
    requires
        hud.latest == Some(point),
        point.telemetry.capabilities.brake,
        point.telemetry.capabilities.throttle,
        point.telemetry.capabilities.steering_input,
        num(0xbf80_0000).at_most(point.telemetry.steering_input),
        point.telemetry.steering_input.at_most(num(ONE_BITS)),
    ensures
        ({
            let vehicle = point.telemetry;
            let layout = layout_of(rect);
            let origin = rect.min;
            let viewport = rect.max.from(rect.min);
            let parts = hud.instrument_parts(rect, edges);
            let brake = meter_parts(
                origin,
                viewport,
                layout.brake_meter_rect,
                Some(vehicle.brake),
                brake_colors(),
                Some(hud.brake_limit),
                hud.opacity,
            );
            let throttle = meter_parts(
                origin,
                viewport,
                layout.throttle_meter_rect,
                Some(vehicle.throttle),
                throttle_colors(),
                None,
                hud.opacity,
            );
            let arc = steering_shapes(layout.steering_rect, Some(vehicle.steering_input), edges, hud.opacity);
            let lights = match vehicle.rev_lights {
                Some(lights) => lights_parts(origin, viewport, layout.center_rect, lights, hud.opacity, 15),
                None => HudParts { sharp: Seq::empty(), fallback: Seq::empty(), glow: Seq::empty() },
            };
            &&& parts.sharp == brake.sharp + throttle.sharp + arc + lights.sharp
            &&& parts.fallback == brake.fallback + throttle.fallback + lights.fallback
            &&& parts.glow.len() == brake.glow.len() + throttle.glow.len() + lights.glow.len() + 2
            &&& (brake.glow + throttle.glow + lights.glow).is_prefix_of(parts.glow)
            &&& parts.glow[parts.glow.len() - 2].a == centered_at(layout.center_rect, num(0x3efa_e148)).moved_back(
                (Vec2 { x: origin.x, y: origin.y }),
            )
            &&& parts.glow[parts.glow.len() - 2].radius == num(0x4230_0000)
            &&& parts.glow.last().a == centered_at(layout.center_rect, num(0x3f38_51ec)).moved_back(
                (Vec2 { x: origin.x, y: origin.y }),
            )
            &&& parts.glow.last().radius == num(0x4208_0000)
        }),
{
    let parts = hud.instrument_parts(rect, edges);
    let layout = layout_of(rect);
    let vehicle = point.telemetry;
    let origin = rect.min;
    let viewport = rect.max.from(rect.min);
    let brake = meter_parts(
        origin,
        viewport,
        layout.brake_meter_rect,
        Some(vehicle.brake),
        brake_colors(),
        Some(hud.brake_limit),
        hud.opacity,
    );
    let throttle = meter_parts(
        origin,
        viewport,
        layout.throttle_meter_rect,
        Some(vehicle.throttle),
        throttle_colors(),
        None,
        hud.opacity,
    );
    let arc = steering_shapes(layout.steering_rect, Some(vehicle.steering_input), edges, hud.opacity);
    let lights = match vehicle.rev_lights {
        Some(lights) => lights_parts(origin, viewport, layout.center_rect, lights, hud.opacity, 15),
        None => HudParts { sharp: Seq::empty(), fallback: Seq::empty(), glow: Seq::empty() },
    };
    let gear = hud.center_glow(
        centered_at(layout.center_rect, num(GEAR_PLACE_BITS)),
        num(GEAR_RADIUS_BITS),
        num(GEAR_GLOW_BITS),
        origin,
        viewport,
    );
    let speed = hud.center_glow(
        centered_at(layout.center_rect, num(SPEED_PLACE_BITS)),
        num(SPEED_RADIUS_BITS),
        num(SPEED_GLOW_BITS),
        origin,
        viewport,
    );
    assert(vehicle.steering_input.signed_unit() == vehicle.steering_input);
    assert(parts == brake.plus(throttle).plus(sharp_parts(arc)).plus(lights).plus(gear).plus(speed));
    lemma_assembled(brake, throttle, arc, lights, gear, speed);
}

proof fn lemma_assembled(a: HudParts, b: HudParts, arc: Seq<ShapeView>, c: HudParts, d: HudParts, e: HudParts)
    requires
        d.sharp.len() == 0,
        d.fallback.len() == 0,
        e.sharp.len() == 0,
        e.fallback.len() == 0,
        d.glow.len() == 1,
        e.glow.len() == 1,
    ensures
        ({
            let parts = a.plus(b).plus(sharp_parts(arc)).plus(c).plus(d).plus(e);
            &&& parts.sharp == a.sharp + b.sharp + arc + c.sharp
            &&& parts.fallback == a.fallback + b.fallback + c.fallback
            &&& parts.glow.len() == a.glow.len() + b.glow.len() + c.glow.len() + 2
            &&& (a.glow + b.glow + c.glow).is_prefix_of(parts.glow)
            &&& parts.glow[parts.glow.len() - 2] == d.glow[0]
            &&& parts.glow.last() == e.glow[0]
        }),
{
    let parts = a.plus(b).plus(sharp_parts(arc)).plus(c).plus(d).plus(e);
    assert(parts.sharp =~= a.sharp + b.sharp + arc + c.sharp);
    assert(parts.fallback =~= a.fallback + b.fallback + c.fallback);
}

/// Steering to the right lights the segments of the arc to the right of its
/// center, and to the left those to its left: the one at a distance from the
/// center exactly if its distance minus one is below the steering times
/// eighteen. The outermost of them is the edge.
pub proof fn law_arc_lights_in_proportion(steering: Binary32, distance: int)
    requires
        steering.finite(),
        steering.value() != 0,
        num(0xbf80_0000).below(steering),
        steering.below(num(ONE_BITS)),
        1 <= distance <= 18,
    ensures
        ({
            let product = magnitude_value(nearest(size(steering.value()) * 18, 1));
            let lit = (distance - 1) * unit_value() < product;
            let further = distance * unit_value() < product;
            let state = if steering.value() > 0 { arc_state(steering, 18 + distance) } else {
                arc_state(steering, 18 - distance)
            };
            let other = if steering.value() > 0 { arc_state(steering, 18 - distance) } else {
                arc_state(steering, 18 + distance)
            };
            &&& lit && (further && distance < 18) ==> state == SegmentState::Active
            &&& lit && !(further && distance < 18) ==> state == SegmentState::Edge
            &&& !lit ==> state == SegmentState::Inactive
            &&& other == SegmentState::Inactive
        }),
{
    let zero = num(ZERO_BITS);
    let level = steering.absolute();
    steering.lemma_parts();
    assert(magnitude_value(0) == 0);
    lemma_magnitude_value_increases(0, steering.magnitude());
    assert(level.value() == size(steering.value()));
    assert(zero.below(level) && level.below(num(ONE_BITS)));
    law_meter_lights_in_proportion(level, 18, distance - 1);
    if distance < 18 {
        law_meter_lights_in_proportion(level, 18, distance);
    } else {
        lemma_lit_segments_are_at_most(level, 18);
    }
}

proof fn lemma_lit_segments_are_at_most(level: Binary32, segments: nat)
    requires
        plain(level),
        level.at_most(num(ONE_BITS)),
        0 < segments < 0x1000,
    ensures
        lit_segments(level, segments) <= segments,
{
    let u = unit_value();
    let s = crate::arithmetic::whole(segments);
    crate::arithmetic::lemma_whole_is_exact(segments);
    lemma_plain(s);
    lemma_plain(level);
    law_sum_and_product_commute(level, s);
    crate::exactness::lemma_share_is_at_most_the_whole(level, s);
    let product = level.unit().product(s);
    lemma_magnitude_value_increases(product.magnitude(), s.magnitude());
    assert(magnitude_value(0) == 0);
    lemma_magnitude_value_increases(0, product.magnitude());
    let v = product.value();
    lemma_pow2_pos(149);
    assert(0 <= v <= segments * u);
    vstd::arithmetic::div_mod::lemma_fundamental_div_mod(v, u);
    let q = v / u;
    assert(q <= segments && (v % u > 0 ==> q < segments)) by (nonlinear_arith)
        requires
            v == u * q + v % u,
            0 <= v % u,
            v <= segments * u,
            u > 0,
    ;
}

/// A shift light is on exactly if its bit of the mask is set, counted from the
/// lowest. The first ten lights have one palette and the last five another.
pub proof fn law_shift_lights_show_the_mask(lights: RevLights, i: u16)
    requires
        i < 15,
    ensures
        light_state(lights, i as int) != SegmentState::Inactive <==> (lights.bit_value >> i) % 2 == 1,
        light_palette(i as int) == if i < 10 {
            rpm_low_colors()
        } else {
            rpm_high_colors()
        },
{
    let bits = lights.bit_value;
    assert((bits & (1u16 << i) != 0) <==> (bits >> i) % 2 == 1) by (bit_vector)
        requires
            i < 15,
    ;
    assert(light_on(lights, i as int) <==> (bits >> i) % 2 == 1);
}

/// The warning mixes orange into the colour of a meter, a lock mixes cyan into
/// each half by its own cover, and a burn by 0.3 and a pulse by 0.18 of their
/// levels mix in white, together at most 0.45.
pub proof fn law_warning_lock_and_shine_color_the_meter(palette: ChannelPalette, feedback: BrakeLimitFeedback)
    ensures
        ({
            let colors = meter_colors(palette, Some(feedback));
            let base = mixed(palette.body, opaque(255, 138, 69), feedback.approach_mix.unit());
            let shine = feedback.burn.unit().product(num(0x3e99_999a)).sum(
                feedback.pulse.unit().product(num(0x3e38_51ec)),
            ).clamped(num(ZERO_BITS), num(0x3ee6_6666));
            let (left, right) = (lock_cover(feedback.lock_fl.unit()), lock_cover(feedback.lock_fr.unit()));
            &&& colors.base == base
            &&& colors.left_cover == left && colors.right_cover == right
            &&& colors.left == mixed(mixed(base, opaque(56, 223, 255), left), opaque(255, 255, 255), shine)
            &&& colors.right == mixed(mixed(base, opaque(56, 223, 255), right), opaque(255, 255, 255), shine)
            &&& colors.glow == left.larger(right)
            &&& colors.approach_mix == feedback.approach_mix.unit()
        }),
{
}

} // verus!
