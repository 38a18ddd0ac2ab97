//! The places and shapes of single parts.
use crate::arithmetic::{
    law_sum_and_product_commute, lemma_exact_value_is_kept, lemma_one_is_unit, lemma_rounding_exists,
    lemma_rounding_keeps_order, lemma_whole_is_exact, size, whole,
};
use crate::binary32::{
    lemma_magnitude_value_increases, magnitude_value, num, unit_value, Binary32, FRACTION_SPAN, ONE_BITS,
};
use crate::direction::{lemma_displacement, lemma_length, lemma_length_within, lemma_offset, lemma_sum_error, PRECISION};
use crate::exactness::{
    lemma_difference_falls, lemma_integer_constant, lemma_plain, lemma_product_is_plain, lemma_products_keep_order,
    lemma_share_is_at_most_the_whole, lemma_sum_within, plain,
};
use crate::model::TelemetryPoint;
use crate::renderer::arrangement_laws::{lemma_apart, lemma_part, lemma_shift_keeps_order};
use crate::renderer::brake_limit::{detector_after, fresh_detector, wheel_sample, BrakeLimitParams, SeverityPowers};
use crate::renderer::classic::wheel_texts_of;
use crate::renderer::config_panel::{color_code, hex_digit};
use crate::renderer::geometry::{Pos2, Rect, Vec2, TWO_BITS};
use crate::renderer::glow::{direction, joint_normal, lateral_at, section_vertex, CrossSection, BISECTOR_EPSILON_BITS};
use crate::renderer::glow_laws::{
    apart, is_direction, lemma_joint_has_direction, lemma_segment_has_direction, lies_at_radius,
};
use crate::renderer::hud::F1OpenHud;
use crate::renderer::hud_layout::{segment_gap, segment_height};
use crate::renderer::instruments::meter_segment;
use crate::renderer::line_laws::lemma_turned_quotient;
use crate::renderer::palette::{brake_colors, speed_colors, throttle_colors, ChannelPalette};
use crate::renderer::stroke::{
    layer_mesh, strip_normal, stroke_shapes, stroke_visual, PrimaryStrokeLayer, PrimaryStrokeSample,
};
use crate::renderer::traces::{channel_line, Channel};
use crate::time::Instant;
use vstd::arithmetic::power2::{lemma2_to64, lemma_pow2_adds, lemma_pow2_pos};
use vstd::prelude::*;

verus! {

/// Where two parts of a line meet, the normal of the halo lies between their
/// normals: each of its components has the sign of the sum of theirs, and the
/// larger component belongs to the larger sum.
pub proof fn law_joint_normal_lies_between(before: Pos2, at: Pos2, after: Pos2)
    requires
        apart(before, at),
        apart(at, after),
        ({
            let sum = direction(before, at).turned().sum(direction(at, after).turned());
            num(BISECTOR_EPSILON_BITS).below(sum.norm())
        }),
    ensures
        ({
            let sum = direction(before, at).turned().sum(direction(at, after).turned());
            let normal = joint_normal(before, at, after);
            &&& is_direction(normal)
            &&& sum.x.value() > 0 ==> normal.x.value() >= 0
            &&& sum.x.value() < 0 ==> normal.x.value() <= 0
            &&& sum.y.value() > 0 ==> normal.y.value() >= 0
            &&& sum.y.value() < 0 ==> normal.y.value() <= 0
            &&& sum.x.magnitude() <= sum.y.magnitude() ==> normal.x.magnitude() <= normal.y.magnitude()
            &&& sum.y.magnitude() <= sum.x.magnitude() ==> normal.y.magnitude() <= normal.x.magnitude()
        }),
{
    lemma_joint_has_direction(before, at, after);
    lemma_segment_has_direction(before, at);
    lemma_segment_has_direction(at, after);
    let (n0, n1) = (direction(before, at).turned(), direction(at, after).turned());
    let sum = n0.sum(n1);
    lemma_sum_within(n0.x, n1.x, ONE_BITS as int);
    lemma_sum_within(n0.y, n1.y, ONE_BITS as int);
    lemma_length_within(sum.x, sum.y, TWO_BITS as int);
    lemma_length(sum.x, sum.y);
    lemma_turned_quotient(sum.x, sum.y, sum.norm());
    let turned = sum.divided(sum.norm()).turned();
    assert(turned.x.value() == -sum.divided(sum.norm()).y.value());
}

/// Across a line the halo has seven rows, from one edge to the other and
/// mirrored about the line, which the middle row follows.
pub proof fn law_rows_are_mirrored(row: int)
    requires
        0 <= row < 7,
    ensures
        lateral_at(row).value() == -lateral_at(6 - row).value(),
        lateral_at(3).magnitude() == 0,
        lateral_at(6) == num(ONE_BITS),
        row < 6 ==> lateral_at(row).below(lateral_at(row + 1)),
        lateral_at(5) == num(0x3f33_3333),
        lateral_at(4) == num(0x3eb3_3333),
{
    assert(magnitude_value(0) == 0);
}

/// The vertex of every row lies as far from the line as its part of the radius
/// says, and that of the middle row on the line.
pub proof fn law_rows_lie_across_the_line(
    section: CrossSection,
    row: int,
    radius: Binary32,
    origin: Pos2,
    viewport: Vec2,
    error: int,
)
    requires
        0 <= row < 7,
        row != 3,
        is_direction(section.normal),
        plain(radius),
        FRACTION_SPAN <= lateral_at(row).product(radius).magnitude(),
        0 <= error,
        ({
            let center = section.center.moved_back((Vec2 { x: origin.x, y: origin.y }));
            let position = section_vertex(section, row, radius, origin, viewport).position;
            &&& center.x.finite() && center.y.finite()
            &&& position.x.finite() && position.y.finite()
            &&& size(position.x.value()) <= PRECISION * error
            &&& size(position.y.value()) <= PRECISION * error
        }),
    ensures
        ({
            let center = section.center.moved_back((Vec2 { x: origin.x, y: origin.y }));
            let vertex = section_vertex(section, row, radius, origin, viewport);
            &&& lies_at_radius(vertex.position, center, lateral_at(row).product(radius).absolute(), error)
            &&& vertex.lateral == lateral_at(row)
        }),
{
    let center = section.center.moved_back((Vec2 { x: origin.x, y: origin.y }));
    let reach = lateral_at(row).product(radius);
    lemma_share_is_at_most_the_whole(lateral_at(row), radius);
    lemma_offset(section.normal.x, section.normal.y, reach);
    let offset = section.normal.scaled(reach);
    let position = section_vertex(section, row, radius, origin, viewport).position;
    lemma_sum_error(center.x, offset.x);
    lemma_sum_error(center.y, offset.y);
    offset.x.lemma_parts();
    offset.y.lemma_parts();
    reach.lemma_parts();
    let distance = reach.absolute();
    lemma_plain(distance);
    assert(magnitude_value(0) == 0);
    lemma_magnitude_value_increases(offset.x.magnitude(), reach.magnitude());
    lemma_magnitude_value_increases(offset.y.magnitude(), reach.magnitude());
    assert(reach.value() * reach.value() == distance.value() * distance.value()) by (nonlinear_arith)
        requires
            reach.value() == distance.value() || reach.value() == -distance.value(),
    ;
    lemma_displacement(
        position.x.value() - center.x.value(),
        position.y.value() - center.y.value(),
        offset.x.value(),
        offset.y.value(),
        distance.value(),
        error,
    );
}

/// The gear stands above the middle of the wheel and the speed below it, with
/// its unit above the speed, all on the same vertical line.
pub proof fn law_wheel_texts_stand_on_one_line(center: Pos2, radius: Binary32)
    requires
        center.y.magnitude() <= 0x4a00_0000,
        plain(radius),
        radius.magnitude() <= 0x4a00_0000,
    ensures
        ({
            let texts = wheel_texts_of(center, radius);
            &&& texts.gear.x == center.x && texts.speed.x == center.x && texts.unit.x == center.x
            &&& texts.gear.y.at_most(center.y)
            &&& center.y.at_most(texts.speed.y)
            &&& texts.unit.y.at_most(texts.speed.y)
        }),
{
    lemma_part(radius, num(0x3ea3_d70a));
    lemma_part(radius, num(0x3ed7_0a3d));
    lemma_apart(center.y, radius.product(num(0x3ea3_d70a)));
    lemma_apart(center.y, radius.product(num(0x3ed7_0a3d)));
    lemma_sum_within(center.y, radius.product(num(0x3ed7_0a3d)), 0x4a00_0000);
    let speed_size = radius.product(num(0x3ed7_0a3d)).larger(num(0x4110_0000));
    lemma_part(speed_size, num(0x3f4c_cccd));
    lemma_apart(center.y.sum(radius.product(num(0x3ed7_0a3d))), speed_size.product(num(0x3f4c_cccd)));
}

/// The number that a hexadecimal digit stands for.
pub open spec fn hex_value(c: char) -> int {
    if '0' <= c <= '9' {
        c as u32 - 48
    } else {
        c as u32 - 55
    }
}

/// The code of a colour is a sign and two hexadecimal digits for each of red,
/// green and blue, from which they can be read back.
pub proof fn law_color_codes_can_be_read_back(r: u8, g: u8, b: u8)
    ensures
        ({
            let code = color_code(r, g, b);
            &&& code.len() == 7
            &&& code[0] == '#'
            &&& 16 * hex_value(code[1]) + hex_value(code[2]) == r
            &&& 16 * hex_value(code[3]) + hex_value(code[4]) == g
            &&& 16 * hex_value(code[5]) + hex_value(code[6]) == b
        }),
{
    reveal_strlit("#");
    lemma_digit((r / 16) as nat);
    lemma_digit((r % 16) as nat);
    lemma_digit((g / 16) as nat);
    lemma_digit((g % 16) as nat);
    lemma_digit((b / 16) as nat);
    lemma_digit((b % 16) as nat);
}

proof fn lemma_digit(n: nat)
    requires
        n < 16,
    ensures
        hex_value(hex_digit(n)) == n,
{
}

/// A channel is shown if there is a latest point whose source supports it.
pub proof fn law_channels_are_shown_if_supported(hud: F1OpenHud)
    ensures
        hud.supports(Channel::Brake) <==> hud.latest is Some && hud.latest->0.telemetry.capabilities.brake,
        hud.supports(Channel::Throttle) <==> hud.latest is Some && hud.latest->0.telemetry.capabilities.throttle,
        hud.supports(Channel::Speed) <==> hud.latest is Some && hud.latest->0.telemetry.capabilities.speed,
{
}

/// Brake and throttle are painted as main lines, the speed as a secondary one,
/// each in its own colours, and only the line of the brake shows locks.
pub proof fn law_lines_are_painted_in_their_colors(hud: F1OpenHud, rect: Rect, now: Instant)
    requires
        hud.trace_layers.switched_on().painter_core,
    ensures
        ({
            let trace = hud.trace(rect, now);
            let energies = hud.trace_energies(now);
            let locks = Seq::new(trace.len(), |i: int| num(0x3c23_d70a).below(trace[i].lock));
            &&& hud.stroke_parts(rect, now, Channel::Brake).sharp == stroke_shapes(
                channel_line(trace, Channel::Brake),
                energies,
                brake_colors(),
                true,
                Some(locks),
            )
            &&& hud.stroke_parts(rect, now, Channel::Throttle).sharp == stroke_shapes(
                channel_line(trace, Channel::Throttle),
                energies,
                throttle_colors(),
                true,
                None,
            )
            &&& hud.stroke_parts(rect, now, Channel::Speed).sharp == stroke_shapes(
                channel_line(trace, Channel::Speed),
                energies,
                speed_colors(),
                false,
                None,
            )
        }),
{
    let trace = hud.trace(rect, now);
    let locks = Seq::new(trace.len(), |i: int| num(0x3c23_d70a).below(trace[i].lock));
    assert(crate::renderer::hud::locked_states(trace) =~= locks);
}

/// The first point of a history counts as a step of a sixtieth of a second.
pub proof fn law_first_step_takes_a_sixtieth(
    params: BrakeLimitParams,
    points: Seq<TelemetryPoint>,
    powers: Seq<SeverityPowers>,
)
    requires
        points.len() > 0,
    ensures
        detector_after(params, points, powers, 1) == fresh_detector(params).updated(
            num(ONE_BITS).quotient(whole(60)),
            wheel_sample(points[0].telemetry),
            powers[0],
        ),
{
    reveal_with_fuel(detector_after, 2);
    let sixty = num(0x4270_0000);
    lemma2_to64();
    lemma_integer_constant(sixty, 60, 18);
    lemma_plain(sixty);
    lemma_exact_value_is_kept(60 * unit_value(), 1, sixty.magnitude());
    assert(whole(60) == sixty);
}

/// Dividing by a number of at least one makes no number larger.
pub proof fn lemma_quotient_shrinks(a: Binary32, d: Binary32)
    requires
        a.finite(),
        plain(d),
        num(ONE_BITS).at_most(d),
    ensures
        a.quotient(d).finite(),
        a.quotient(d).magnitude() <= a.magnitude(),
{
    let one = num(ONE_BITS);
    lemma_plain(d);
    lemma_one_is_unit();
    lemma_pow2_pos(149);
    one.lemma_rank_orders_values(d);
    a.lemma_parts();
    assert(magnitude_value(0) == 0);
    lemma_magnitude_value_increases(0, a.magnitude());
    let (n, u, v) = (size(a.value()), unit_value(), d.value());
    assert(0 <= n * u <= n * v) by (nonlinear_arith)
        requires
            0 <= n,
            0 < u <= v,
    ;
    lemma_exact_value_is_kept(n * v, v, a.magnitude());
    lemma_rounding_keeps_order(n * u, n * v, v);
    lemma_rounding_exists(n * u, v);
}

/// The segments of a meter stand one above the other: each begins no lower than
/// the one before it, and all are as wide as the meter.
pub proof fn law_segments_rise_from_the_bottom(rect: Rect, i: int)
    requires
        rect.max.y.magnitude() <= 0x4a00_0000,
        plain(rect.span_y()),
        rect.span_y().magnitude() <= 0x4a00_0000,
        0 <= i < 14,
    ensures
        meter_segment(rect, i + 1).min.y.at_most(meter_segment(rect, i).min.y),
        meter_segment(rect, i).min.x == rect.min.x,
        meter_segment(rect, i).max.x == rect.min.x.sum(rect.max.x.difference(rect.min.x)),
{
    let total = rect.span_y();
    let gap = segment_gap(total);
    let height = segment_height(total);
    lemma_part(total, num(0x3cf5_c28f));
    assert(plain(gap) && gap.magnitude() <= 0x4080_0000);
    let gaps = gap.product(whole(14));
    law_sum_and_product_commute(gap, whole(14));
    lemma_times_small(14, gap);
    lemma_sum_within(total, gaps, 0x4e00_0000);
    let rest = total.difference(gaps);
    lemma_whole_is_exact(15);
    lemma_small_whole(15);
    lemma_quotient_shrinks(rest, whole(15));
    assert(plain(height) && height.magnitude() <= 0x4e80_0000);
    let (a, b) = (whole((i + 1) as nat).product(height), whole((i + 2) as nat).product(height));
    let (c, d) = (whole(i as nat).product(gap), whole((i + 1) as nat).product(gap));
    lemma_times_more((i + 1) as nat, height);
    lemma_times_more(i as nat, gap);
    lemma_sum_within(rect.max.y, a, 0x5100_0000);
    lemma_sum_within(rect.max.y, b, 0x5100_0000);
    lemma_difference_falls(rect.max.y, a, b);
    let (p, q) = (rect.max.y.difference(a), rect.max.y.difference(b));
    lemma_sum_within(p, c, 0x5180_0000);
    lemma_sum_within(q, c, 0x5180_0000);
    lemma_sum_within(q, d, 0x5180_0000);
    lemma_shift_keeps_order(q, p, c.opposite());
    lemma_difference_falls(q, c, d);
    assert(q.sum(c.opposite()) == q.difference(c));
    q.difference(d).lemma_rank_orders_values(p.difference(c));
}

pub proof fn lemma_small_whole(n: nat)
    requires
        0 < n <= 16,
    ensures
        plain(whole(n)),
        num(ONE_BITS).at_most(whole(n)),
        whole(n).value() == n * unit_value(),
{
    lemma_whole_is_exact(n);
    lemma_one_is_unit();
    lemma_pow2_pos(149);
    assert(n * unit_value() >= unit_value()) by (nonlinear_arith)
        requires
            n >= 1,
            unit_value() > 0,
    ;
    num(ONE_BITS).lemma_rank_orders_values(whole(n));
}

pub proof fn lemma_times_small(n: nat, x: Binary32)
    requires
        n <= 16,
        plain(x),
        x.magnitude() <= 0x4e80_0000,
    ensures
        plain(whole(n).product(x)),
        whole(n).product(x).magnitude() <= 0x5100_0000,
        x.magnitude() <= 0x4080_0000 ==> whole(n).product(x).magnitude() <= 0x4e00_0000,
{
    lemma_whole_is_exact(n);
    lemma_plain(whole(n));
    lemma_plain(x);
    lemma_pow2_pos(149);
    let (bound, low) = (num(0x5100_0000), num(0x4300_0000));
    lemma_plain(bound);
    lemma_plain(low);
    lemma2_to64();
    lemma_pow2_adds(23, 132);
    crate::exactness::lemma_next_binade(0x4e80_0000);
    crate::exactness::lemma_next_binade(0x4f00_0000);
    crate::exactness::lemma_next_binade(0x4f80_0000);
    crate::exactness::lemma_next_binade(0x5000_0000);
    crate::exactness::lemma_next_binade(0x5080_0000);
    crate::exactness::lemma_next_binade(0x4080_0000);
    crate::exactness::lemma_next_binade(0x4100_0000);
    crate::exactness::lemma_next_binade(0x4180_0000);
    crate::exactness::lemma_next_binade(0x4200_0000);
    crate::exactness::lemma_next_binade(0x4280_0000);
    lemma_magnitude_value_increases(x.magnitude(), 0x4e80_0000);
    lemma_magnitude_value_increases(x.magnitude(), 0x4080_0000);
    let (v, u) = (x.value(), unit_value());
    let top = magnitude_value(0x4e80_0000);
    assert((n * u) * v <= (16 * top) * u) by (nonlinear_arith)
        requires
            0 <= n <= 16,
            0 <= v <= top,
            u > 0,
    ;
    assert(16 * top <= bound.value());
    assert((16 * top) * u <= bound.value() * u) by (nonlinear_arith)
        requires
            16 * top <= bound.value(),
            u > 0,
    ;
    lemma_product_is_plain(whole(n), x, bound);
    let r = whole(n).product(x);
    r.lemma_rank_orders_values(bound);
    if x.magnitude() <= 0x4080_0000 {
        let few = magnitude_value(0x4080_0000);
        assert((n * u) * v <= (16 * few) * u) by (nonlinear_arith)
            requires
                0 <= n <= 16,
                0 <= v <= few,
                u > 0,
        ;
        assert(16 * few <= low.value());
        assert((16 * few) * u <= low.value() * u) by (nonlinear_arith)
            requires
                16 * few <= low.value(),
                u > 0,
        ;
        lemma_product_is_plain(whole(n), x, low);
        r.lemma_rank_orders_values(low);
    }
}

pub proof fn lemma_times_more(n: nat, x: Binary32)
    requires
        n < 16,
        plain(x),
        x.magnitude() <= 0x4e80_0000,
    ensures
        plain(whole(n).product(x)),
        plain(whole(n + 1).product(x)),
        whole(n).product(x).magnitude() <= 0x5100_0000,
        whole(n + 1).product(x).magnitude() <= 0x5100_0000,
        whole(n).product(x).value() <= whole(n + 1).product(x).value(),
{
    lemma_times_small(n, x);
    lemma_times_small(n + 1, x);
    lemma_whole_is_exact(n);
    lemma_whole_is_exact(n + 1);
    lemma_pow2_pos(149);
    assert(n * unit_value() <= (n + 1) * unit_value()) by (nonlinear_arith)
        requires
            unit_value() > 0,
    ;
    lemma_products_keep_order(whole(n), x, whole(n + 1), x);
}

/// A number moved by a positive part of another goes to the side of that other
/// one, and moved by a negative part to the opposite side.
proof fn lemma_side(center: Binary32, component: Binary32, reach: Binary32)
    requires
        center.magnitude() <= 0x4f00_0000,
        component.magnitude() <= ONE_BITS,
        reach.magnitude() <= 0x4f00_0000,
    ensures
        ({
            let to = center.sum(component.product(reach));
            let away = center.difference(component.product(reach));
            let same = component.negative() == reach.negative();
            &&& same ==> center.at_most(to) && away.at_most(center)
            &&& !same ==> to.at_most(center) && center.at_most(away)
        }),
{
    let step = component.product(reach);
    lemma_share_is_at_most_the_whole(component, reach);
    if step.negative() {
        lemma_apart(center, step.opposite());
        assert(step.opposite().opposite() == step);
    } else {
        lemma_apart(center, step);
    }
}

/// The first edge of a stroke lies on the side that its normal points to, and
/// the second on the other.
pub proof fn law_first_edge_lies_on_the_side_of_the_normal(
    samples: Seq<PrimaryStrokeSample>,
    palette: ChannelPalette,
    primary: bool,
    layer: PrimaryStrokeLayer,
    k: int,
)
    requires
        0 <= k < samples.len(),
        samples[k].position.x.magnitude() <= 0x4f00_0000,
        samples[k].position.y.magnitude() <= 0x4f00_0000,
        strip_normal(samples, k).x.magnitude() <= ONE_BITS,
        strip_normal(samples, k).y.magnitude() <= ONE_BITS,
    ensures
        ({
            let vertices = layer_mesh(samples, palette, primary, layer).vertices;
            let (a, b) = (vertices[2 * k].pos, vertices[2 * k + 1].pos);
            let (center, normal) = (samples[k].position, strip_normal(samples, k));
            &&& !normal.x.negative() ==> center.x.at_most(a.x) && b.x.at_most(center.x)
            &&& normal.x.negative() ==> a.x.at_most(center.x) && center.x.at_most(b.x)
            &&& !normal.y.negative() ==> center.y.at_most(a.y) && b.y.at_most(center.y)
            &&& normal.y.negative() ==> a.y.at_most(center.y) && center.y.at_most(b.y)
        }),
{
    assert((2 * k) / 2 == k && (2 * k) % 2 == 0);
    assert((2 * k + 1) / 2 == k && (2 * k + 1) % 2 == 1);
    let visual = stroke_visual(palette, primary, samples[k].state, layer);
    let half = visual.width.product(num(0x3f00_0000));
    lemma_part(visual.width, num(0x3f00_0000));
    let (center, normal) = (samples[k].position, strip_normal(samples, k));
    lemma_side(center.x, normal.x, half);
    lemma_side(center.y, normal.y, half);
}

/// The rows beyond the middle of the halo lie on the side that the normal points
/// to, and those before it on the other.
pub proof fn law_later_rows_lie_on_the_side_of_the_normal(
    section: CrossSection,
    row: int,
    radius: Binary32,
    origin: Pos2,
    viewport: Vec2,
)
    requires
        0 <= row < 7,
        row != 3,
        is_direction(section.normal),
        plain(radius),
        radius.magnitude() <= 0x4f00_0000,
        section.center.x.difference(origin.x).magnitude() <= 0x4f00_0000,
        section.center.y.difference(origin.y).magnitude() <= 0x4f00_0000,
    ensures
        ({
            let center = section.center.moved_back((Vec2 { x: origin.x, y: origin.y }));
            let position = section_vertex(section, row, radius, origin, viewport).position;
            let normal = section.normal;
            let (x_ahead, y_ahead) = (normal.x.negative() == (row < 3), normal.y.negative() == (row < 3));
            &&& x_ahead ==> center.x.at_most(position.x)
            &&& !x_ahead ==> position.x.at_most(center.x)
            &&& y_ahead ==> center.y.at_most(position.y)
            &&& !y_ahead ==> position.y.at_most(center.y)
        }),
{
    let center = section.center.moved_back((Vec2 { x: origin.x, y: origin.y }));
    let reach = lateral_at(row).product(radius);
    lemma_share_is_at_most_the_whole(lateral_at(row), radius);
    assert(reach.negative() == (row < 3));
    lemma_side(center.x, section.normal.x, reach);
    lemma_side(center.y, section.normal.y, reach);
}

} // verus!
