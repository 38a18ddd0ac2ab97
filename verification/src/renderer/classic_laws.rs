//! What the classic display shows of the latest point.
use crate::arithmetic::law_sum_and_product_commute;
use crate::binary32::{num, Binary32, ONE_BITS, ZERO_BITS};
use crate::exactness::{lemma_difference_falls, lemma_products_keep_order, lemma_share_is_at_most_the_whole, plain};
use crate::model::TelemetryPoint;
use crate::renderer::brake_limit_onset::lemma_one_changes_nothing;
use crate::renderer::classic::{
    bar_of, brake_bar_color, classic_layout_of, readout_of, throttle_bar_color, BarColors, BarSettings,
};
use crate::renderer::color::Color;
use crate::renderer::geometry::Rect;
use vstd::prelude::*;

verus! {

/// The colour of the brake bar tells what happens while braking: ABS while
/// turning, ABS alone, or turning alone, each only if it is to be shown. Nothing
/// of it is told with the brake released.
pub proof fn law_brake_bar_tells_what_happens(
    brake: Binary32,
    abs_on: bool,
    steering: Binary32,
    settings: BarSettings,
    colors: BarColors,
)
    ensures
        ({
            let color = brake_bar_color(brake, abs_on, steering, settings, colors);
            let braking = num(0x3c23_d70a).below(brake);
            let turning = settings.trail_brake_threshold.below(steering.absolute());
            &&& !braking ==> color == colors.brake
            &&& braking && abs_on && settings.show_abs && !turning ==> color == colors.abs_active
            &&& braking && abs_on && settings.show_abs && !settings.show_abs_cornering ==> color == colors.abs_active
            &&& braking && abs_on && settings.show_abs && turning && settings.show_abs_cornering ==> color
                == colors.abs_cornering
            &&& braking && !abs_on && turning && settings.show_trail_brake ==> color == colors.trail_brake
            &&& braking && !settings.show_abs && turning && settings.show_trail_brake ==> color == colors.trail_brake
            &&& !abs_on && (!turning || !settings.show_trail_brake) ==> color == colors.brake
            &&& color == brake_bar_color(brake, abs_on, steering.opposite(), settings, colors)
        }),
{
}

/// The colour of the throttle bar tells whether traction control works, if it is
/// to be shown.
pub proof fn law_throttle_bar_tells_of_traction_control(tc_on: bool, settings: BarSettings, colors: BarColors)
    ensures
        tc_on && settings.show_tc ==> throttle_bar_color(tc_on, settings, colors) == colors.tc_active,
        !tc_on || !settings.show_tc ==> throttle_bar_color(tc_on, settings, colors) == colors.throttle,
{
}

/// Every value that is shown is that of the latest point. An assist counts as
/// active only where the source reports its activity.
pub proof fn law_readout_is_that_of_the_latest_point(point: TelemetryPoint)
    ensures
        ({
            let readout = readout_of(Some(point));
            let vehicle = point.telemetry;
            &&& readout.throttle == vehicle.throttle
            &&& readout.brake == vehicle.brake
            &&& readout.clutch == vehicle.clutch
            &&& readout.gear == vehicle.gear
            &&& readout.speed_ms == vehicle.speed
            &&& readout.track_position == vehicle.track_position
            &&& readout.capabilities == vehicle.capabilities
            &&& readout.abs_on <==> vehicle.capabilities.abs_activity && point.abs_active
            &&& readout.tc_on <==> vehicle.capabilities.tc_activity && vehicle.tc_active
        }),
{
}

/// Whether a bar can be filled: the edges are numbers and its height is not
/// negative.
pub open spec fn fillable(bars: Rect) -> bool {
    let top = bars.min.y.sum(num(0x4180_0000)).sum(num(0x4000_0000));
    let bottom = bars.max.y.difference(num(0x4080_0000));
    &&& bottom.magnitude() <= 0x4f00_0000
    &&& plain(bottom.difference(top)) && bottom.difference(top).magnitude() <= 0x4f00_0000
}

/// The fill of a bar stands on its lower end and is the higher the more the
/// pedal is pressed: with the pedal down it is as high as the bar, and with less
/// than 0.005, or without support, there is none.
pub proof fn law_bar_fills_with_its_pedal(
    bars: Rect,
    bar_width: Binary32,
    i: int,
    less: Binary32,
    more: Binary32,
    color: Color,
    alpha: u8,
)
    requires
        fillable(bars),
        num(ZERO_BITS).at_most(less),
        less.at_most(more),
        more.at_most(num(ONE_BITS)),
        num(0x3ba3_d70a).below(less),
    ensures
        ({
            let a = bar_of(bars, bar_width, i, less, color, true, alpha);
            let b = bar_of(bars, bar_width, i, more, color, true, alpha);
            let full = bar_of(bars, bar_width, i, num(ONE_BITS), color, true, alpha);
            let bottom = bars.max.y.difference(num(0x4080_0000));
            let height = bottom.difference(a.outline.min.y);
            &&& a.outline == b.outline && a.outline == full.outline
            &&& a.fill is Some && b.fill is Some && full.fill is Some
            &&& b.fill->0.min.y.at_most(a.fill->0.min.y)
            &&& full.fill->0.min.y.at_most(b.fill->0.min.y)
            &&& num(0x4000_0000).at_most(height) ==> full.fill->0.min.y == bottom.difference(height)
            &&& a.fill->0.min.x == a.outline.min.x
            &&& bar_of(bars, bar_width, i, less, color, false, alpha).fill is None
        }),
{
    let top = bars.min.y.sum(num(0x4180_0000)).sum(num(0x4000_0000));
    let bottom = bars.max.y.difference(num(0x4080_0000));
    let height = bottom.difference(top);
    let one = num(ONE_BITS);
    lemma_fill(bottom, height, less, more);
    lemma_fill(bottom, height, more, one);
    lemma_one_changes_nothing(height);
}

/// A value below the smallest fill is not filled in.
pub proof fn law_released_pedal_fills_nothing(
    bars: Rect,
    bar_width: Binary32,
    i: int,
    value: Binary32,
    color: Color,
    supported: bool,
    alpha: u8,
)
    requires
        value.at_most(num(0x3ba3_d70a)),
    ensures
        bar_of(bars, bar_width, i, value, color, supported, alpha).fill is None,
{
}

proof fn lemma_fill(bottom: Binary32, height: Binary32, less: Binary32, more: Binary32)
    requires
        bottom.magnitude() <= 0x4f00_0000,
        plain(height),
        height.magnitude() <= 0x4f00_0000,
        num(ZERO_BITS).below(less),
        less.at_most(more),
        more.at_most(num(ONE_BITS)),
    ensures
        ({
            let a = height.product(less).larger(num(0x4000_0000));
            let b = height.product(more).larger(num(0x4000_0000));
            bottom.difference(b).at_most(bottom.difference(a))
        }),
{
    law_sum_and_product_commute(height, less);
    law_sum_and_product_commute(height, more);
    lemma_share_is_at_most_the_whole(less, height);
    lemma_share_is_at_most_the_whole(more, height);
    less.lemma_rank_orders_values(more);
    lemma_products_keep_order(height, less, height, more);
    height.product(less).lemma_rank_orders_values(height.product(more));
    let a = height.product(less).larger(num(0x4000_0000));
    let b = height.product(more).larger(num(0x4000_0000));
    assert(a.rank() <= b.rank());
    a.lemma_rank_orders_values(b);
    crate::exactness::lemma_sum_within(bottom, a, 0x4f00_0000);
    crate::exactness::lemma_sum_within(bottom, b, 0x4f00_0000);
    lemma_difference_falls(bottom, a, b);
    bottom.difference(b).lemma_rank_orders_values(bottom.difference(a));
}

/// The track strip takes thirteen points of height from the rest, and stands at
/// the lower edge over the whole width. The graph starts in the upper left
/// corner and takes what the bars and the wheel leave.
pub proof fn law_strip_stands_below_the_graph(available: Rect, cap_radius: Binary32)
    ensures
        ({
            let with = classic_layout_of(available, cap_radius, true);
            let without = classic_layout_of(available, cap_radius, false);
            &&& with.content_height == available.max.y.difference(available.min.y).difference(num(0x4150_0000))
            &&& with.strip.min.y == available.max.y.difference(num(0x4120_0000))
            &&& with.strip.min.x == available.min.x
            &&& with.graph.min == available.min && without.graph.min == available.min
            &&& with.graph.max.x == available.min.x.sum(
                available.max.x.difference(available.min.x).difference(with.bars_column).difference(
                    with.wheel_column,
                ).difference(num(0x4180_0000)).larger(num(0x4220_0000)),
            )
            &&& with.graph.max.y == available.min.y.sum(with.content_height)
            &&& with.wheel_column == without.wheel_column && with.wheel_radius == without.wheel_radius
            &&& num(0x4120_0000).at_most(with.wheel_radius)
            &&& !with.content_height.nan() ==> num(0x4140_0000).at_most(with.bar_width) && with.bar_width.at_most(
                num(0x41b0_0000),
            )
        }),
{
    let content = available.max.y.difference(available.min.y).difference(num(0x4150_0000));
    if content.finite() {
        crate::arithmetic::lemma_results_are_numbers(content, num(0x3e8f_5c29));
    }
}

} // verus!
