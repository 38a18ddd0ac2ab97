//! What the labels of the F1 display say, and where.
use crate::arithmetic::{
    lemma_exact_value_is_kept, lemma_one_is_unit, lemma_quotient_of_zero, lemma_whole_is_exact, whole,
};
use crate::binary32::{num, unit_value, Binary32, ONE_BITS, ZERO_BITS};
use crate::exactness::{lemma_plain, lemma_products_keep_order, lemma_sum_grows, lemma_sum_within, plain};
use crate::renderer::color::dimmed;
use crate::renderer::geometry::{equal_numbers, Pos2};
use crate::renderer::hud::{F1OpenHud, F1OpenHudCache, OpenHudReadings};
use crate::renderer::hud_layout::OpenHudLayout;
use crate::renderer::labels::{
    all_labels, head_circles, text_layers, time_label, LabelStyle, LabelText, TextClass, LABEL_STEP_BITS,
};
use crate::renderer::palette::{brake_colors, speed_colors, throttle_colors, ChannelPalette};
use crate::renderer::time_axis::Binary64;
use crate::renderer::trace_laws::law_interpolation_reaches_its_ends;
use vstd::arithmetic::power2::lemma_pow2_pos;
use vstd::prelude::*;

verus! {

/// Beside the traces each channel has its name on the left and its value on the
/// right, on the same line and in the colour of the channel.
pub proof fn law_channels_are_named_beside_their_values(
    layout: OpenHudLayout,
    abs: bool,
    tc: bool,
    opacity: Binary32,
    values: OpenHudReadings,
    window: Binary64,
)
    ensures
        ({
            let labels = all_labels(layout, abs, tc, opacity);
            &&& labels[0].text.content(values, window) == "BRAKE"@
            &&& labels[1].text.content(values, window) == values.brake
            &&& labels[2].text.content(values, window) == "THROTTLE"@
            &&& labels[3].text.content(values, window) == values.throttle
            &&& labels[4].text.content(values, window) == "SPEED"@
            &&& labels[5].text.content(values, window) == values.speed
            &&& forall|i: int|
                0 <= i < 3 ==> {
                    let name = #[trigger] labels[2 * i];
                    let value = labels[2 * i + 1];
                    &&& name.position.y == value.position.y
                    &&& name.position.x == layout.left_rect.min.x && value.position.x == layout.left_rect.max.x
                    &&& name.style.face == value.style.face
                }
            &&& labels[0].style.face == brake_colors().text_face
            &&& labels[2].style.face == throttle_colors().text_face
            &&& labels[4].style.face == speed_colors().text_face
        }),
{
    let labels = all_labels(layout, abs, tc, opacity);
    assert forall|i: int| 0 <= i < 3 implies {
        let name = #[trigger] labels[2 * i];
        let value = labels[2 * i + 1];
        &&& name.position.y == value.position.y
        &&& name.position.x == layout.left_rect.min.x && value.position.x == layout.left_rect.max.x
        &&& name.style.face == value.style.face
    } by {
        assert(i == 0 || i == 1 || i == 2);
    }
}

/// The names beside the traces stand one below the other.
pub proof fn law_channel_names_stand_in_rows(layout: OpenHudLayout, abs: bool, tc: bool, opacity: Binary32)
    requires
        layout.trace_rect.min.y.magnitude() <= 0x4f00_0000,
    ensures
        ({
            let labels = all_labels(layout, abs, tc, opacity);
            &&& labels[0].position.y.at_most(labels[2].position.y)
            &&& labels[2].position.y.at_most(labels[4].position.y)
        }),
{
    let step = num(LABEL_STEP_BITS);
    let top = layout.trace_rect.min.y.sum(num(crate::renderer::labels::LABEL_TOP_BITS));
    lemma_sum_within(layout.trace_rect.min.y, num(crate::renderer::labels::LABEL_TOP_BITS), 0x4f00_0000);
    lemma_rows(top, step, 0);
    lemma_rows(top, step, 1);
}

proof fn lemma_rows(top: Binary32, step: Binary32, row: nat)
    requires
        top.magnitude() <= 0x4f80_0000,
        plain(step),
        step.magnitude() <= 0x4280_0000,
        row < 2,
    ensures
        top.sum(whole(row).product(step)).at_most(top.sum(whole(row + 1).product(step))),
{
    let (a, b) = (whole(row), whole(row + 1));
    let u = unit_value();
    lemma_pow2_pos(149);
    lemma_whole_is_exact(row);
    lemma_whole_is_exact(row + 1);
    lemma_whole_is_exact(2);
    lemma_whole_is_exact(1);
    lemma_one_is_unit();
    lemma_plain(step);
    let bound = num(0x4f80_0000);
    lemma_plain(bound);
    assert(row == 0 || row == 1);
    assert(a.value() <= b.value() <= 2 * u) by (nonlinear_arith)
        requires
            a.value() == row * u,
            b.value() == (row + 1) * u,
            row < 2,
            u > 0,
    ;
    lemma_row_bound(a, step, bound);
    lemma_row_bound(b, step, bound);
    lemma_products_keep_order(a, step, b, step);
    let (p, q) = (a.product(step), b.product(step));
    lemma_plain(p);
    lemma_plain(q);
    p.lemma_rank_orders_values(bound);
    q.lemma_rank_orders_values(bound);
    lemma_sum_within(top, p, 0x4f80_0000);
    lemma_sum_within(top, q, 0x4f80_0000);
    lemma_sum_grows(top, p, q);
    top.sum(p).lemma_rank_orders_values(top.sum(q));
}

proof fn lemma_row_bound(a: Binary32, step: Binary32, bound: Binary32)
    requires
        plain(a),
        a.value() <= 2 * unit_value(),
        plain(step),
        step.magnitude() <= 0x4280_0000,
        bound == num(0x4f80_0000),
    ensures
        plain(a.product(step)),
        a.product(step).value() <= bound.value(),
{
    lemma_plain(a);
    lemma_plain(step);
    lemma_plain(bound);
    lemma_pow2_pos(149);
    let big = num(0x4300_0000);
    lemma_plain(big);
    vstd::arithmetic::power2::lemma2_to64();
    crate::exactness::lemma_integer_constant(num(0x4280_0000), 64, 17);
    lemma_plain(num(0x4280_0000));
    crate::exactness::lemma_integer_constant(big, 128, 16);
    crate::binary32::lemma_magnitude_value_increases(step.magnitude(), 0x4280_0000);
    crate::binary32::lemma_magnitude_value_increases(0x4300_0000, 0x4f80_0000);
    let (x, y, u) = (a.value(), step.value(), unit_value());
    assert(x * y <= (128 * u) * u) by (nonlinear_arith)
        requires
            0 <= x <= 2 * u,
            0 <= y <= 64 * u,
            u > 0,
    ;
    crate::exactness::lemma_product_is_plain(a, step, big);
}

/// The time axis is labelled from its left end to its right end: the first mark
/// at the left, with the whole window, and the last at the right, with zero.
pub proof fn law_time_marks_span_the_axis(
    layout: OpenHudLayout,
    abs: bool,
    tc: bool,
    opacity: Binary32,
    values: OpenHudReadings,
    window: Binary64,
)
    requires
        layout.trace_rect.min.x.finite(),
        layout.trace_rect.max.x.finite(),
    ensures
        ({
            let labels = all_labels(layout, abs, tc, opacity);
            let (first, last) = (labels[6], labels[10]);
            &&& equal_numbers(first.position.x, layout.trace_rect.min.x)
            &&& equal_numbers(last.position.x, layout.trace_rect.max.x)
            &&& first.text == LabelText::TimeMark(0)
            &&& last.text.content(values, window) == "0"@
            &&& first.position.y == last.position.y
        }),
{
    let labels = all_labels(layout, abs, tc, opacity);
    assert(labels[6] == time_label(layout, 0, opacity));
    assert(labels[10] == time_label(layout, 4, opacity));
    law_interpolation_reaches_its_ends(layout.trace_rect.min.x, layout.trace_rect.max.x);
    let four = whole(4);
    lemma_whole_is_exact(4);
    lemma_whole_is_exact(0);
    lemma_plain(four);
    lemma_plain(whole(0));
    lemma_pow2_pos(149);
    lemma_one_is_unit();
    let u = unit_value();
    assert(4 * u * u == u * (4 * u)) by (nonlinear_arith);
    lemma_exact_value_is_kept(four.value() * u, four.value(), ONE_BITS as int);
    assert(four.quotient(four) == num(ONE_BITS));
    lemma_quotient_of_zero(whole(0), four);
    crate::arithmetic::lemma_results_are_numbers(whole(0), four);
    assert(whole(0).quotient(four) == num(ZERO_BITS));
}

/// Each meter has its value above and its name below it, and the rest of the
/// display names what it shows: the steering angle, the engine speed in
/// revolutions per minute, the gear, and the speed with its unit.
pub proof fn law_meters_and_center_are_labelled(
    layout: OpenHudLayout,
    abs: bool,
    tc: bool,
    opacity: Binary32,
    values: OpenHudReadings,
    window: Binary64,
)
    ensures
        ({
            let labels = all_labels(layout, abs, tc, opacity);
            &&& labels[11].text.content(values, window) == values.brake && labels[12].text.content(values, window)
                == "BRAKE"@
            &&& labels[13].text.content(values, window) == values.throttle && labels[14].text.content(values, window)
                == "THROTTLE"@
            &&& labels[11].position.x == layout.brake_meter_rect.middle().x && labels[12].position.x
                == layout.brake_meter_rect.middle().x
            &&& labels[13].position.x == layout.throttle_meter_rect.middle().x && labels[14].position.x
                == layout.throttle_meter_rect.middle().x
            &&& labels[15].text.content(values, window) == values.steering && labels[16].text.content(values, window)
                == "STEERING"@
            &&& labels[17].text.content(values, window) == values.rpm + "  RPM"@
            &&& labels[18].text.content(values, window) == values.gear
            &&& labels[19].text.content(values, window) == values.speed
            &&& labels[20].text.content(values, window) == values.speed_unit
        }),
{
}

/// An assist is named exactly while it is active.
pub proof fn law_active_assists_are_named(
    layout: OpenHudLayout,
    abs: bool,
    tc: bool,
    opacity: Binary32,
    values: OpenHudReadings,
    window: Binary64,
)
    ensures
        ({
            let labels = all_labels(layout, abs, tc, opacity);
            &&& labels.len() == 21 + (if abs { 1int } else { 0 }) + (if tc { 1int } else { 0 })
            &&& abs ==> labels[21].text.content(values, window) == "ABS"@
            &&& tc ==> labels.last().text.content(values, window) == "TC"@
        }),
{
}

/// The head of a trace is painted where it stands, with the hot colour of its
/// channel on top, and nothing is painted without a head.
pub proof fn law_head_is_painted_at_its_place(
    head: Option<Pos2>,
    palette: ChannelPalette,
    opacity: Binary32,
    light_elsewhere: bool,
    i: int,
)
    ensures
        ({
            let circles = head_circles(head, palette, opacity, light_elsewhere);
            &&& head is None ==> circles.len() == 0
            &&& head is Some ==> circles.len() >= 2 && circles.last().color == dimmed(palette.hot, opacity)
            &&& 0 <= i < circles.len() ==> head == Some(circles[i].center)
        }),
{
}

/// With its switch on the display paints the heads of the brake, the throttle
/// and the speed in this order, each in the colours of its channel; with the
/// switch off it paints none.
pub proof fn law_heads_are_painted_in_order(hud: F1OpenHud, cache: F1OpenHudCache, additive_glow: bool)
    ensures
        ({
            let circles = hud.heads_of(cache, additive_glow);
            let full = hud.opacity.product(num(ONE_BITS));
            let brake = head_circles(cache.brake_head, brake_colors(), full, additive_glow);
            let throttle = head_circles(cache.throttle_head, throttle_colors(), full, additive_glow);
            &&& !hud.trace_layers.switched_on().endpoint ==> circles.len() == 0
            &&& hud.trace_layers.switched_on().endpoint ==> (brake + throttle).is_prefix_of(circles)
            &&& hud.trace_layers.switched_on().endpoint && cache.speed_head is None ==> circles == brake + throttle
        }),
{
    let circles = hud.heads_of(cache, additive_glow);
    let full = hud.opacity.product(num(ONE_BITS));
    let brake = head_circles(cache.brake_head, brake_colors(), full, additive_glow);
    let throttle = head_circles(cache.throttle_head, throttle_colors(), full, additive_glow);
    if cache.speed_head is None && hud.trace_layers.switched_on().endpoint {
        assert(circles =~= brake + throttle);
    }
}

/// A text is painted last at its own position, above its shadow and its glow.
pub proof fn law_text_is_painted_at_its_position(position: Pos2, style: LabelStyle)
    ensures
        text_layers(position, style).last().position == position,
        style.class == TextClass::Channel ==> text_layers(position, style).len() == 10,
        style.class == TextClass::Secondary ==> text_layers(position, style).len() == 2,
{
}

} // verus!
