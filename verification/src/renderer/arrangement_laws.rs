//! How the parts of the window and of the F1 display lie to each other.
use crate::arithmetic::{law_sum_and_product_commute, lemma_results_are_numbers, lemma_rounding_exists};
use crate::binary32::{num, Binary32, ONE_BITS, ZERO_BITS};
use crate::exactness::{
    lemma_difference_falls, lemma_differences_keep_order, lemma_plain, lemma_products_keep_order,
    lemma_share_is_at_most_the_whole, lemma_sum_grows, lemma_sum_within, plain,
};
use crate::renderer::geometry::{Pos2, Rect};
use crate::renderer::hud_layout::{
    centered_at, instrument_column, layout_of, outer_rect, steering_label_place, OpenHudLayout,
};
use crate::renderer::window::{window_of, WINDOW_PAD_BITS};
use vstd::prelude::*;

verus! {

/// The content of the window starts where its title bar ends, and is as wide.
/// The handle stands in the lower right corner of the content, and the buttons
/// in the middle of the bar's height. The content is shown if it is high enough
/// for that alone.
pub proof fn law_window_parts_meet(screen: Rect)
    ensures
        ({
            let window = window_of(screen);
            &&& window.bar.min.y == screen.min.y
            &&& window.bar.max.y == window.content.min.y
            &&& window.bar.min.x == window.content.min.x
            &&& window.bar.max.x == window.content.max.x
            &&& window.resize_handle.max == window.content.max
            &&& window.close_button.min.y == window.minimize_button.min.y
            &&& window.close_button.max.y == window.minimize_button.max.y
            &&& window.gear_button.min.y == window.minimize_button.min.y
            &&& window.gear_button.max.y == window.minimize_button.max.y
        }),
{
}

/// Whether a number is below two to the power 20 and not negative.
pub open spec fn on_screen(x: Binary32) -> bool {
    plain(x) && x.below(num(0x4980_0000))
}

/// Adding and taking away numbers on the screen stays finite.
proof fn lemma_near(a: Binary32, b: Binary32, m: int)
    requires
        a.magnitude() <= m,
        b.magnitude() <= m,
        0x0080_0000 <= m <= 0x5980_0000,
    ensures
        a.sum(b).magnitude() <= m + 0x80_0000,
        a.difference(b).magnitude() <= m + 0x80_0000,
{
    lemma_sum_within(a, b, m);
}

/// In the title bar the settings come first from the left, then minimizing, and
/// closing last.
pub proof fn law_buttons_stand_in_order(screen: Rect)
    requires
        on_screen(screen.min.x),
        on_screen(screen.max.x),
        on_screen(screen.min.y),
    ensures
        ({
            let window = window_of(screen);
            &&& window.gear_button.min.x.at_most(window.minimize_button.min.x)
            &&& window.minimize_button.min.x.at_most(window.close_button.min.x)
            &&& window.gear_button.max.x.at_most(window.minimize_button.max.x)
            &&& window.minimize_button.max.x.at_most(window.close_button.max.x)
        }),
{
    let window = window_of(screen);
    let edge = window.bar.max.x;
    lemma_near(screen.max.x, num(WINDOW_PAD_BITS), 0x4980_0000);
    let (gear, minimize, close) = (num(0x4284_0000), num(0x4220_0000), num(0x4160_0000));
    lemma_button_order(edge, gear, minimize);
    lemma_button_order(edge, minimize, close);
}

proof fn lemma_button_order(edge: Binary32, far: Binary32, near: Binary32)
    requires
        edge.magnitude() <= 0x4a00_0000,
        plain(near),
        plain(far),
        near.at_most(far),
        far.magnitude() <= 0x4a00_0000,
    ensures
        ({
            let half = num(crate::renderer::window::BUTTON_SIZE_BITS).product(num(0x3f00_0000));
            let (a, b) = (edge.difference(far), edge.difference(near));
            &&& a.difference(half).at_most(b.difference(half))
            &&& a.sum(half).at_most(b.sum(half))
        }),
{
    let size = num(crate::renderer::window::BUTTON_SIZE_BITS);
    let half = size.product(num(0x3f00_0000));
    law_sum_and_product_commute(size, num(0x3f00_0000));
    lemma_share_is_at_most_the_whole(num(0x3f00_0000), size);
    let (a, b) = (edge.difference(far), edge.difference(near));
    lemma_near(edge, far, 0x4a00_0000);
    lemma_near(edge, near, 0x4a00_0000);
    near.lemma_rank_orders_values(far);
    lemma_difference_falls(edge, near, far);
    lemma_near(a, half, 0x4a80_0000);
    lemma_near(b, half, 0x4a80_0000);
    lemma_shift_keeps_order(a, b, half);
    lemma_shift_keeps_order(a, b, half.opposite());
}

/// Two numbers keep their order when the same is added to both.
pub proof fn lemma_shift_keeps_order(a: Binary32, b: Binary32, by: Binary32)
    requires
        a.finite(),
        b.finite(),
        by.finite(),
        a.value() <= b.value(),
        a.sum(by).finite(),
        b.sum(by).finite(),
    ensures
        a.sum(by).value() <= b.sum(by).value(),
        a.sum(by).at_most(b.sum(by)),
{
    law_sum_and_product_commute(a, by);
    law_sum_and_product_commute(b, by);
    lemma_sum_grows(by, a, b);
    a.sum(by).lemma_rank_orders_values(b.sum(by));
}

/// A number on the screen plus another one is not smaller, and minus it not
/// larger.
pub proof fn lemma_apart(a: Binary32, by: Binary32)
    requires
        a.magnitude() <= 0x4f00_0000,
        plain(by),
        by.magnitude() <= 0x4f00_0000,
    ensures
        a.sum(by).finite(),
        a.difference(by).finite(),
        a.at_most(a.sum(by)),
        a.difference(by).at_most(a),
        a.value() <= a.sum(by).value(),
        a.difference(by).value() <= a.value(),
{
    lemma_near(a, by, 0x4f00_0000);
    let zero = num(ZERO_BITS);
    lemma_near(a, zero, 0x4f00_0000);
    lemma_plain(by);
    assert(crate::binary32::magnitude_value(0) == 0);
    lemma_unmoved(a);
    lemma_sum_grows(a, zero, by);
    lemma_difference_falls(a, zero, by);
    a.lemma_rank_orders_values(a.sum(by));
    a.difference(by).lemma_rank_orders_values(a);
}

proof fn lemma_unmoved(a: Binary32)
    requires
        a.finite(),
    ensures
        a.sum(num(ZERO_BITS)).value() == a.value(),
        a.difference(num(ZERO_BITS)).value() == a.value(),
{
    let zero = num(ZERO_BITS);
    if a.magnitude() != 0 {
        crate::arithmetic::lemma_sum_with_zero(a, zero);
        crate::arithmetic::lemma_sum_with_zero(a, zero.opposite());
    } else {
        assert(crate::binary32::magnitude_value(0) == 0);
        crate::arithmetic::lemma_exact_value_is_kept(0, 1, 0);
    }
}

/// A share of a number that is not negative is one as well, and not larger.
pub proof fn lemma_part(whole: Binary32, share: Binary32)
    requires
        plain(whole),
        plain(share),
        share.magnitude() <= ONE_BITS,
    ensures
        plain(whole.product(share)),
        whole.product(share).magnitude() <= whole.magnitude(),
{
    law_sum_and_product_commute(whole, share);
    lemma_share_is_at_most_the_whole(share, whole);
}

/// Whether a rectangle lies on the screen and is large enough for its margins.
pub open spec fn roomy(rect: Rect) -> bool {
    let outer = outer_rect(rect);
    &&& on_screen(rect.min.x) && on_screen(rect.min.y) && on_screen(rect.max.x) && on_screen(rect.max.y)
    &&& plain(outer.max.x) && plain(outer.max.y)
    &&& outer.min.x.at_most(outer.max.x)
    &&& outer.min.y.at_most(outer.max.y)
}

proof fn lemma_outer(rect: Rect)
    requires
        roomy(rect),
    ensures
        ({
            let outer = outer_rect(rect);
            &&& plain(outer.min.x) && outer.min.x.magnitude() <= 0x4a00_0000
            &&& plain(outer.min.y) && outer.min.y.magnitude() <= 0x4a00_0000
            &&& outer.max.x.magnitude() <= 0x4a00_0000
            &&& outer.max.y.magnitude() <= 0x4a00_0000
            &&& plain(outer.span_x()) && outer.span_x().magnitude() <= 0x4a80_0000
            &&& plain(outer.span_y()) && outer.span_y().magnitude() <= 0x4a80_0000
            &&& rect.min.x.at_most(outer.min.x) && outer.max.x.at_most(rect.max.x)
            &&& rect.min.y.at_most(outer.min.y) && outer.max.y.at_most(rect.max.y)
        }),
{
    let outer = outer_rect(rect);
    let (mx, my) = (num(0x4160_0000), num(0x4120_0000));
    lemma_near(rect.min.x, mx, 0x4980_0000);
    lemma_near(rect.min.y, my, 0x4980_0000);
    lemma_near(rect.max.x, mx, 0x4980_0000);
    lemma_near(rect.max.y, my, 0x4980_0000);
    lemma_apart(rect.min.x, mx);
    lemma_apart(rect.min.y, my);
    lemma_apart(rect.max.x, mx);
    lemma_apart(rect.max.y, my);
    lemma_results_are_numbers(rect.min.x, mx);
    lemma_positive_sum(rect.min.x, mx);
    lemma_positive_sum(rect.min.y, my);
    lemma_near(outer.max.x, outer.min.x, 0x4a00_0000);
    lemma_near(outer.max.y, outer.min.y, 0x4a00_0000);
    outer.min.x.lemma_rank_orders_values(outer.max.x);
    outer.min.y.lemma_rank_orders_values(outer.max.y);
    lemma_differences_keep_order(outer.max.x, outer.max.x, outer.min.x);
    lemma_differences_keep_order(outer.max.y, outer.max.y, outer.min.y);
}

proof fn lemma_positive_sum(a: Binary32, b: Binary32)
    requires
        plain(a),
        plain(b),
        a.sum(b).finite(),
    ensures
        plain(a.sum(b)),
{
    lemma_plain(a);
    lemma_plain(b);
    lemma_rounding_exists(a.value() + b.value(), 1);
}

/// The parts of the F1 display stand within its margins, the traces within
/// their column, and the instruments to the right of it: the brake meter left of
/// the throttle meter and as high, the steering below both, and the center to
/// the right of all.
pub proof fn law_display_parts_stand_side_by_side(rect: Rect)
    requires
        roomy(rect),
    ensures
        ({
            let layout = layout_of(rect);
            let left = layout.left_rect;
            let trace = layout.trace_rect;
            let (brake, throttle) = (layout.brake_meter_rect, layout.throttle_meter_rect);
            &&& rect.min.x.at_most(left.min.x) && rect.min.y.at_most(left.min.y)
            &&& left.min.x.at_most(trace.min.x) && trace.max.x.at_most(left.max.x)
            &&& left.min.y.at_most(trace.min.y) && trace.max.y.at_most(left.max.y)
            &&& brake.min.y == throttle.min.y && brake.max.y == throttle.max.y
            &&& brake.min.y.at_most(brake.max.y)
            &&& brake.min.x.at_most(throttle.min.x) && brake.max.x.at_most(throttle.max.x)
            &&& brake.max.y.at_most(layout.steering_rect.min.y)
            &&& left.max.x.at_most(layout.steering_rect.min.x)
            &&& layout.steering_rect.max.x.at_most(layout.center_rect.min.x)
            &&& layout.center_rect.max.x.at_most(rect.max.x) && layout.center_rect.max.y.at_most(rect.max.y)
            &&& layout.center_rect.min.y == left.min.y
        }),
{
    let outer = outer_rect(rect);
    let layout = layout_of(rect);
    lemma_outer(rect);
    let (width, height) = (outer.span_x(), outer.span_y());
    let left = layout.left_rect;
    // The column of the traces.
    let left_width = width.product(num(0x3f0c_cccd));
    lemma_part(width, num(0x3f0c_cccd));
    lemma_near(outer.min.x, left_width, 0x4a80_0000);
    lemma_near(outer.min.y, height, 0x4a80_0000);
    lemma_positive_sum(outer.min.x, left_width);
    let label = left_width.product(num(0x3e4c_cccd));
    let value = left_width.product(num(0x3e05_1eb8));
    let inset = height.product(num(0x3df5_c28f));
    lemma_part(left_width, num(0x3e4c_cccd));
    lemma_part(left_width, num(0x3e05_1eb8));
    lemma_part(height, num(0x3df5_c28f));
    let label_width = label.clamped(num(0x429c_0000), num(0x42e8_0000));
    let value_width = value.clamped(num(0x4240_0000), num(0x4294_0000));
    lemma_apart(left.min.x, label_width);
    lemma_apart(left.max.x, value_width);
    lemma_apart(left.min.y, inset);
    lemma_apart(left.max.y, inset);
    // The column of the instruments.
    let gap = num(0x4160_0000).smaller(width.product(num(0x3ccc_cccd)));
    lemma_part(width, num(0x3ccc_cccd));
    let column = instrument_column(outer);
    let column_width = width.product(num(0x3e19_999a)).clamped(num(0x42c0_0000), num(0x4320_0000));
    lemma_part(width, num(0x3e19_999a));
    lemma_near(left.max.x, gap, 0x4b00_0000);
    lemma_positive_sum(left.max.x, gap);
    lemma_apart(left.max.x, gap);
    assert(column.min.x == left.max.x.sum(gap));
    lemma_near(column.min.x, column_width, 0x4b80_0000);
    lemma_positive_sum(column.min.x, column_width);
    lemma_apart(column.min.x, column_width);
    lemma_apart(column.max.x, gap);
    lemma_near(column.max.x, column.min.x, 0x4c00_0000);
    column.min.x.lemma_rank_orders_values(column.max.x);
    lemma_differences_keep_order(column.max.x, column.max.x, column.min.x);
    let span = column.span_x();
    // The heights within it.
    let (top, bottom, start) = (num(0x3e19_999a), num(0x3f07_ae14), num(0x3f11_eb85));
    lemma_part(height, top);
    lemma_part(height, bottom);
    lemma_part(height, start);
    lemma_constants(top, bottom);
    lemma_constants(bottom, start);
    lemma_products_keep_order(height, top, height, bottom);
    lemma_products_keep_order(height, bottom, height, start);
    lemma_near(column.min.y, height.product(top), 0x4a80_0000);
    lemma_near(column.min.y, height.product(bottom), 0x4a80_0000);
    lemma_near(column.min.y, height.product(start), 0x4a80_0000);
    lemma_sum_grows(column.min.y, height.product(top), height.product(bottom));
    lemma_sum_grows(column.min.y, height.product(bottom), height.product(start));
    let (y0, y1, y2) = (
        column.min.y.sum(height.product(top)),
        column.min.y.sum(height.product(bottom)),
        column.min.y.sum(height.product(start)),
    );
    y0.lemma_rank_orders_values(y1);
    y1.lemma_rank_orders_values(y2);
    // The places across it.
    let (at_left, at_right) = (num(0x3e8f_5c29), num(0x3f38_51ec));
    lemma_part(span, at_left);
    lemma_part(span, at_right);
    lemma_constants(at_left, at_right);
    lemma_products_keep_order(span, at_left, span, at_right);
    lemma_near(column.min.x, span.product(at_left), 0x4c80_0000);
    lemma_near(column.min.x, span.product(at_right), 0x4c80_0000);
    lemma_sum_grows(column.min.x, span.product(at_left), span.product(at_right));
    let (a, b) = (column.min.x.sum(span.product(at_left)), column.min.x.sum(span.product(at_right)));
    lemma_part(span, num(0x3e6b_851f));
    let meter = span.product(num(0x3e6b_851f)).clamped(num(0x4190_0000), num(0x41e0_0000));
    lemma_part(meter, num(0x3f00_0000));
    let half = meter.product(num(0x3f00_0000));
    lemma_near(a, half, 0x4d00_0000);
    lemma_near(b, half, 0x4d00_0000);
    lemma_shift_keeps_order(a, b, half);
    lemma_shift_keeps_order(a, b, half.opposite());
}

proof fn lemma_constants(a: Binary32, b: Binary32)
    requires
        plain(a),
        plain(b),
        a.at_most(b),
    ensures
        a.value() <= b.value(),
{
    a.lemma_rank_orders_values(b);
}

/// The traces with their labels and values take 0.55 of the width within the
/// margins, the instruments 0.15 of it, but at least 96 and at most 160 points,
/// and the rest is left for the center.
pub proof fn law_columns_have_their_shares(rect: Rect)
    ensures
        ({
            let layout = layout_of(rect);
            let (left, right) = (rect.min.x.sum(num(0x4160_0000)), rect.max.x.difference(num(0x4160_0000)));
            let (top, bottom) = (rect.min.y.sum(num(0x4120_0000)), rect.max.y.difference(num(0x4120_0000)));
            let (width, height) = (right.difference(left), bottom.difference(top));
            let gap = num(0x4160_0000).smaller(width.product(num(0x3ccc_cccd)));
            let share = width.product(num(0x3e19_999a));
            let column = layout.steering_rect;
            &&& layout.left_rect.min == (Pos2 { x: left, y: top })
            &&& layout.left_rect.max.x == left.sum(width.product(num(0x3f0c_cccd)))
            &&& layout.left_rect.max.y == top.sum(height)
            &&& column.min.x == layout.left_rect.max.x.sum(gap)
            &&& num(0x42c0_0000).at_most(share) && share.at_most(num(0x4320_0000)) ==> column.max.x
                == column.min.x.sum(share)
            &&& share.below(num(0x42c0_0000)) ==> column.max.x == column.min.x.sum(num(0x42c0_0000))
            &&& num(0x4320_0000).below(share) ==> column.max.x == column.min.x.sum(num(0x4320_0000))
            &&& column.min.y == top.sum(height.product(num(0x3f11_eb85)))
            &&& layout.center_rect.min.x == column.max.x.sum(gap)
            &&& layout.center_rect.max == (Pos2 { x: right, y: bottom })
            &&& layout.brake_meter_rect.min.y == top.sum(height.product(num(0x3e19_999a)))
            &&& layout.brake_meter_rect.max.y == top.sum(height.product(num(0x3f07_ae14)))
            &&& layout.trace_rect.min.y == top.sum(height.product(num(0x3df5_c28f)))
            &&& layout.trace_rect.max.y == layout.left_rect.max.y.difference(height.product(num(0x3df5_c28f)))
        }),
{
}

/// The gear stands above the speed, and the label of the steering in the middle
/// of its part, at least four points above the lower edge.
pub proof fn law_center_values_stand_in_order(layout: OpenHudLayout)
    requires
        on_screen(layout.center_rect.min.y),
        plain(layout.center_rect.span_y()),
        layout.center_rect.span_y().magnitude() <= 0x4a00_0000,
        layout.steering_rect.max.y.finite(),
    ensures
        centered_at(layout.center_rect, num(0x3efa_e148)).y.at_most(
            centered_at(layout.center_rect, num(0x3f38_51ec)).y,
        ),
        centered_at(layout.center_rect, num(0x3efa_e148)).x == centered_at(layout.center_rect, num(0x3f38_51ec)).x,
        steering_label_place(layout).x == layout.steering_rect.middle().x,
        steering_label_place(layout).y.at_most(layout.steering_rect.max.y.difference(num(0x4080_0000))),
{
    lemma_results_are_numbers(layout.steering_rect.max.y, num(0x4080_0000).opposite());
    let (gear, speed) = (num(0x3efa_e148), num(0x3f38_51ec));
    let height = layout.center_rect.span_y();
    let top = layout.center_rect.min.y;
    lemma_part(height, gear);
    lemma_part(height, speed);
    lemma_constants(gear, speed);
    lemma_products_keep_order(height, gear, height, speed);
    lemma_near(top, height.product(gear), 0x4a00_0000);
    lemma_near(top, height.product(speed), 0x4a00_0000);
    lemma_sum_grows(top, height.product(gear), height.product(speed));
    top.sum(height.product(gear)).lemma_rank_orders_values(top.sum(height.product(speed)));
}

} // verus!
