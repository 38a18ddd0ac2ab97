//! The classic layout: bars, gear and speed.
use crate::arithmetic::{whole, HALF_BITS};
use crate::binary32::{num, number, Binary32, ZERO_BITS};
use crate::model::{no_capabilities, TelemetryCapabilities, TelemetryPoint};
use crate::renderer::color::{premultiplied, with_alpha, Color};
use crate::renderer::geometry::{Pos2, Rect, Vec2, TWO_BITS};
use crate::numeral::numeral;
use crate::renderer::hud::{
    gear_name, gear_text, if_supported, percent, percent_text, shown_speed, speed_in, supported, text_or_dash,
};
use vstd::prelude::*;
use vstd::string::*;

verus! {

/// Bit pattern of 0.01: less brake is no braking.
pub const BRAKING_BITS: u32 = 0x3c23_d70a;

/// Bit pattern of 0.005: less is not filled in a bar.
pub const BAR_FILL_BITS: u32 = 0x3ba3_d70a;

/// Bit pattern of 10: the height of the track strip.
pub const STRIP_HEIGHT_BITS: u32 = 0x4120_0000;

/// Bit pattern of 13: the height of the track strip and the gap above it.
pub const STRIP_SPACE_BITS: u32 = 0x4150_0000;

/// Bit pattern of 2: the space between the wheel and the round end.
pub const WHEEL_INSET_BITS: u32 = 0x4000_0000;

/// Bit pattern of 0.3: the largest share of the width that the wheel takes.
pub const WHEEL_SHARE_BITS: u32 = 0x3e99_999a;

/// Bit pattern of 0.28: the width of a bar as a share of the height.
pub const BAR_SHARE_BITS: u32 = 0x3e8f_5c29;

/// Bit pattern of 12: the narrowest bar.
pub const BAR_MIN_BITS: u32 = 0x4140_0000;

/// Bit pattern of 22: the widest bar.
pub const BAR_MAX_BITS: u32 = 0x41b0_0000;

/// Bit pattern of 3: the number of bars.
pub const BAR_COUNT_BITS: u32 = 0x4040_0000;

/// Bit pattern of 4: the space between bars.
pub const BAR_GAP_BITS: u32 = 0x4080_0000;

/// Bit pattern of 8: the space between all bars.
pub const BAR_GAPS_BITS: u32 = 0x4100_0000;

/// Bit pattern of 16: the space between the columns.
pub const COLUMN_GAPS_BITS: u32 = 0x4180_0000;

/// Bit pattern of 40: the narrowest graph.
pub const GRAPH_MIN_BITS: u32 = 0x4220_0000;

/// Bit pattern of 0.82: the wheel as a share of its column.
pub const WHEEL_FIT_BITS: u32 = 0x3f51_eb85;

/// Bit pattern of 10: the smallest wheel.
pub const WHEEL_MIN_BITS: u32 = 0x4120_0000;

/// Bit pattern of 16: the height of the labels above the bars.
pub const LABEL_HEIGHT_BITS: u32 = 0x4180_0000;

/// Bit pattern of 8: the middle of the labels above the bars.
pub const LABEL_MIDDLE_BITS: u32 = 0x4100_0000;

/// Bit pattern of 2: the space below the labels above the bars.
pub const LABEL_GAP_BITS: u32 = 0x4000_0000;

/// Bit pattern of 4: the space below the bars.
pub const BAR_BOTTOM_BITS: u32 = 0x4080_0000;

/// Bit pattern of 0.4: the length of the tick as a share of the bar.
pub const TICK_SHARE_BITS: u32 = 0x3ecc_cccd;

/// Bit pattern of 2: the smallest fill.
pub const FILL_MIN_BITS: u32 = 0x4000_0000;

/// Bit pattern of 7: how far the name of a bar stands above its end.
pub const NAME_RISE_BITS: u32 = 0x40e0_0000;

/// Bit pattern of 0.32: how far the gear stands above the center of the wheel.
pub const GEAR_RISE_BITS: u32 = 0x3ea3_d70a;

/// Bit pattern of 0.68: the size of the gear.
pub const GEAR_SHARE_BITS: u32 = 0x3f2e_147b;

/// Bit pattern of 10: the smallest gear.
pub const GEAR_MIN_BITS: u32 = 0x4120_0000;

/// Bit pattern of 0.42: how far the speed stands below the center of the wheel, and its size.
pub const SPEED_DROP_BITS: u32 = 0x3ed7_0a3d;

/// Bit pattern of 9: the smallest speed.
pub const SPEED_MIN_BITS: u32 = 0x4110_0000;

/// Bit pattern of 0.28: the size of the unit.
pub const UNIT_SHARE_BITS: u32 = 0x3e8f_5c29;

/// Bit pattern of 8: the smallest unit.
pub const UNIT_MIN_BITS: u32 = 0x4100_0000;

/// Bit pattern of 0.8: how far the unit stands above the speed.
pub const UNIT_RISE_BITS: u32 = 0x3f4c_cccd;

/// Bit pattern of 1.2: the width of the speed.
pub const SPEED_WIDTH_BITS: u32 = 0x3f99_999a;

/// The settings that the bars depend on.
#[derive(Debug, Clone, Copy, PartialEq, Eq, Structural)]
pub struct BarSettings {
    pub show_abs: bool,
    pub show_abs_cornering: bool,
    pub show_trail_brake: bool,
    pub show_tc: bool,
    /// The steering angle in degrees above which the car is turning.
    pub trail_brake_threshold: Binary32,
}

/// The colours of the bars.
#[derive(Debug, Clone, Copy, PartialEq, Eq, Structural)]
pub struct BarColors {
    pub brake: Color,
    pub abs_active: Color,
    pub abs_cornering: Color,
    pub trail_brake: Color,
    pub throttle: Color,
    pub tc_active: Color,
    pub clutch: Color,
}

/// The colour of the brake bar: while braking, ABS in a corner, ABS, and trail
/// braking take precedence in this order, each only if it is to be shown.
pub open spec fn brake_bar_color(
    brake: Binary32,
    abs_on: bool,
    steering: Binary32,
    settings: BarSettings,
    colors: BarColors,
) -> Color {
    let braking = num(BRAKING_BITS).below(brake);
    let turning = settings.trail_brake_threshold.below(steering.absolute());
    let abs_shown = abs_on && settings.show_abs;
    if braking && abs_shown && turning && settings.show_abs_cornering {
        colors.abs_cornering
    } else if braking && abs_shown {
        colors.abs_active
    } else if braking && turning && settings.show_trail_brake {
        colors.trail_brake
    } else {
        colors.brake
    }
}

/// The colour of the brake bar.
pub fn brake_color(
    brake: Binary32,
    abs_on: bool,
    steering: Binary32,
    settings: &BarSettings,
    colors: &BarColors,
) -> (r: Color)
    ensures
        r == brake_bar_color(brake, abs_on, steering, *settings, *colors),
{
    let braking = number(BRAKING_BITS).lt(brake);
    let turning = settings.trail_brake_threshold.lt(steering.abs());
    match (braking, abs_on && settings.show_abs, turning) {
        (true, true, true) => if settings.show_abs_cornering {
            colors.abs_cornering
        } else {
            colors.abs_active
        },
        (true, true, false) => colors.abs_active,
        (true, false, true) => if settings.show_trail_brake {
            colors.trail_brake
        } else {
            colors.brake
        },
        _ => colors.brake,
    }
}

/// The colour of the throttle bar.
pub open spec fn throttle_bar_color(tc_on: bool, settings: BarSettings, colors: BarColors) -> Color {
    if tc_on && settings.show_tc {
        colors.tc_active
    } else {
        colors.throttle
    }
}

/// The colour of the throttle bar.
pub fn throttle_color(tc_on: bool, settings: &BarSettings, colors: &BarColors) -> (r: Color)
    ensures
        r == throttle_bar_color(tc_on, *settings, *colors),
{
    if tc_on && settings.show_tc {
        colors.tc_active
    } else {
        colors.throttle
    }
}

/// The values of the classic layout.
#[derive(Debug, Clone, Copy, PartialEq, Eq)]
pub struct ClassicReadout {
    pub throttle: Binary32,
    pub brake: Binary32,
    pub clutch: Binary32,
    pub abs_on: bool,
    pub tc_on: bool,
    pub gear: i32,
    pub speed_ms: Binary32,
    pub track_position: Binary32,
    pub capabilities: TelemetryCapabilities,
}

/// The values of the classic layout: all zero without a point, and ABS and
/// traction control only where the provider reports them.
pub open spec fn readout_of(latest: Option<TelemetryPoint>) -> ClassicReadout {
    match latest {
        Some(point) => ClassicReadout {
            throttle: point.telemetry.throttle,
            brake: point.telemetry.brake,
            clutch: point.telemetry.clutch,
            abs_on: point.telemetry.capabilities.abs_activity && point.abs_active,
            tc_on: point.telemetry.capabilities.tc_activity && point.telemetry.tc_active,
            gear: point.telemetry.gear,
            speed_ms: point.telemetry.speed,
            track_position: point.telemetry.track_position,
            capabilities: point.telemetry.capabilities,
        },
        None => ClassicReadout {
            throttle: num(ZERO_BITS),
            brake: num(ZERO_BITS),
            clutch: num(ZERO_BITS),
            abs_on: false,
            tc_on: false,
            gear: 0,
            speed_ms: num(ZERO_BITS),
            track_position: num(ZERO_BITS),
            capabilities: no_capabilities(),
        },
    }
}

/// The values of the classic layout.
pub fn classic_readout(latest: &Option<TelemetryPoint>) -> (r: ClassicReadout)
    ensures
        r == readout_of(*latest),
{
    match latest {
        Some(point) => {
            let vehicle = point.telemetry;
            let capabilities = vehicle.capabilities;
            ClassicReadout {
                throttle: vehicle.throttle,
                brake: vehicle.brake,
                clutch: vehicle.clutch,
                abs_on: capabilities.abs_activity && point.abs_active,
                tc_on: capabilities.tc_activity && vehicle.tc_active,
                gear: vehicle.gear,
                speed_ms: vehicle.speed,
                track_position: vehicle.track_position,
                capabilities,
            }
        },
        None => {
            let zero = number(ZERO_BITS);
            ClassicReadout {
                throttle: zero,
                brake: zero,
                clutch: zero,
                abs_on: false,
                tc_on: false,
                gear: 0,
                speed_ms: zero,
                track_position: zero,
                capabilities: TelemetryCapabilities::default(),
            }
        },
    }
}

/// The text for the gear, a dash without support.
pub fn classic_gear_text(available: bool, gear: i32) -> (r: String)
    ensures
        r@ == text_or_dash(available, gear_name(gear)),
{
    supported(available, gear_text(gear))
}

/// The text for the speed, a dash without support, and the name of its unit.
pub fn classic_speed(available: bool, speed_ms: Binary32, speed_mph: bool) -> (r: (String, &'static str))
    ensures
        r.0@ == text_or_dash(available, numeral(speed_in(speed_ms, speed_mph))),
        r.1@ == if speed_mph {
            "mph"@
        } else {
            "kph"@
        },
{
    let text = supported(available, shown_speed(speed_ms, speed_mph).to_text());
    if speed_mph {
        (text, "mph")
    } else {
        (text, "kph")
    }
}

/// The text for a bar, a dash without support.
pub fn bar_text(available: bool, value: Binary32) -> (r: String)
    ensures
        r@ == text_or_dash(available, percent(value)),
{
    supported(available, percent_text(value))
}

/// The measures of the classic layout.
#[derive(Debug, Clone, Copy, PartialEq, Eq, Structural)]
pub struct ClassicLayout {
    /// The height without the track strip.
    pub content_height: Binary32,
    pub wheel_column: Binary32,
    pub bar_width: Binary32,
    pub bars_column: Binary32,
    pub graph: Rect,
    pub wheel_radius: Binary32,
    pub strip: Rect,
}

/// The measures of the classic layout: the bars grow with the height, the wheel
/// takes at most a share of the width, and the graph takes what is left.
pub open spec fn classic_layout_of(available: Rect, cap_radius: Binary32, show_track_strip: bool) -> ClassicLayout {
    let content_height = available.span_y().difference(
        if show_track_strip {
            num(STRIP_SPACE_BITS)
        } else {
            num(ZERO_BITS)
        },
    );
    let wheel_column = cap_radius.difference(num(WHEEL_INSET_BITS)).product(num(TWO_BITS)).smaller(
        available.span_x().product(num(WHEEL_SHARE_BITS)),
    );
    let bar_width = content_height.product(num(BAR_SHARE_BITS)).clamped(num(BAR_MIN_BITS), num(BAR_MAX_BITS));
    let bars_column = bar_width.product(num(BAR_COUNT_BITS)).sum(num(BAR_GAPS_BITS));
    let graph_width = available.span_x().difference(bars_column).difference(wheel_column).difference(
        num(COLUMN_GAPS_BITS),
    ).larger(num(GRAPH_MIN_BITS));
    ClassicLayout {
        content_height,
        wheel_column,
        bar_width,
        bars_column,
        graph: Rect::sized(available.min, Vec2 { x: graph_width, y: content_height }),
        wheel_radius: wheel_column.quotient(num(TWO_BITS)).product(num(WHEEL_FIT_BITS)).larger(num(WHEEL_MIN_BITS)),
        strip: Rect::sized(
            Pos2 { x: available.min.x, y: available.max.y.difference(num(STRIP_HEIGHT_BITS)) },
            Vec2 { x: available.span_x(), y: num(STRIP_HEIGHT_BITS) },
        ),
    }
}

impl ClassicLayout {
    /// The measures of the classic layout.
    pub fn new(available: Rect, cap_radius: Binary32, show_track_strip: bool) -> (r: Self)
        ensures
            r == classic_layout_of(available, cap_radius, show_track_strip),
    {
        let strip_space = if show_track_strip {
            number(STRIP_SPACE_BITS)
        } else {
            number(ZERO_BITS)
        };
        let content_height = available.height().minus(strip_space);
        let wheel_column = cap_radius.minus(number(WHEEL_INSET_BITS)).times(number(TWO_BITS)).min(
            available.width().times(number(WHEEL_SHARE_BITS)),
        );
        let bar_width = content_height.times(number(BAR_SHARE_BITS)).clamp(
            number(BAR_MIN_BITS),
            number(BAR_MAX_BITS),
        );
        let bars_column = bar_width.times(number(BAR_COUNT_BITS)).plus(number(BAR_GAPS_BITS));
        let graph_width = available.width().minus(bars_column).minus(wheel_column).minus(
            number(COLUMN_GAPS_BITS),
        ).max(number(GRAPH_MIN_BITS));
        ClassicLayout {
            content_height,
            wheel_column,
            bar_width,
            bars_column,
            graph: Rect::from_min_size(available.min, Vec2 { x: graph_width, y: content_height }),
            wheel_radius: wheel_column.over(number(TWO_BITS)).times(number(WHEEL_FIT_BITS)).max(
                number(WHEEL_MIN_BITS),
            ),
            strip: Rect::from_min_size(
                Pos2 { x: available.min.x, y: available.max.y.minus(number(STRIP_HEIGHT_BITS)) },
                Vec2 { x: available.width(), y: number(STRIP_HEIGHT_BITS) },
            ),
        }
    }
}

/// A bar of the classic layout.
#[derive(Debug, Clone, Copy, PartialEq, Eq)]
pub struct PedalBar {
    /// Where the value in percent stands.
    pub percent_place: Pos2,
    pub outline: Rect,
    /// The mark at one half.
    pub tick: (Pos2, Pos2),
    pub fill: Option<Rect>,
    pub fill_color: Color,
    pub name_place: Pos2,
}

/// A bar in the column of bars.
pub open spec fn bar_of(
    bars: Rect,
    bar_width: Binary32,
    i: int,
    value: Binary32,
    color: Color,
    supported: bool,
    alpha: u8,
) -> PedalBar {
    let x = bars.min.x.sum(whole(i as nat).product(bar_width.sum(num(BAR_GAP_BITS))));
    let top = bars.min.y.sum(num(LABEL_HEIGHT_BITS)).sum(num(LABEL_GAP_BITS));
    let bottom = bars.max.y.difference(num(BAR_BOTTOM_BITS));
    let height = bottom.difference(top);
    let middle = x.sum(bar_width.quotient(num(TWO_BITS)));
    let mid_y = top.sum(height.product(num(HALF_BITS)));
    let fill_height = height.product(value).larger(num(FILL_MIN_BITS));
    PedalBar {
        percent_place: Pos2 { x: middle, y: bars.min.y.sum(num(LABEL_MIDDLE_BITS)) },
        outline: Rect::sized(Pos2 { x, y: top }, Vec2 { x: bar_width, y: height }),
        tick: (Pos2 { x, y: mid_y }, Pos2 { x: x.sum(bar_width.product(num(TICK_SHARE_BITS))), y: mid_y }),
        fill: if_supported(
            supported && num(BAR_FILL_BITS).below(value),
            Rect::sized(Pos2 { x, y: bottom.difference(fill_height) }, Vec2 { x: bar_width, y: fill_height }),
        ),
        fill_color: premultiplied(color.r, color.g, color.b, alpha),
        name_place: Pos2 { x: middle, y: bottom.difference(num(NAME_RISE_BITS)) },
    }
}

fn build_bar(
    bars: &Rect,
    bar_width: Binary32,
    i: u64,
    value: Binary32,
    color: Color,
    supported: bool,
    alpha: u8,
) -> (r: PedalBar)
    ensures
        r == bar_of(*bars, bar_width, i as int, value, color, supported, alpha),
{
    let x = bars.min.x.plus(Binary32::from_u64(i).times(bar_width.plus(number(BAR_GAP_BITS))));
    let top = bars.min.y.plus(number(LABEL_HEIGHT_BITS)).plus(number(LABEL_GAP_BITS));
    let bottom = bars.max.y.minus(number(BAR_BOTTOM_BITS));
    let height = bottom.minus(top);
    let middle = x.plus(bar_width.over(number(TWO_BITS)));
    let mid_y = top.plus(height.times(number(HALF_BITS)));
    let fill = if supported && number(BAR_FILL_BITS).lt(value) {
        let fill_height = height.times(value).max(number(FILL_MIN_BITS));
        Some(
            Rect::from_min_size(
                Pos2 { x, y: bottom.minus(fill_height) },
                Vec2 { x: bar_width, y: fill_height },
            ),
        )
    } else {
        None
    };
    PedalBar {
        percent_place: Pos2 { x: middle, y: bars.min.y.plus(number(LABEL_MIDDLE_BITS)) },
        outline: Rect::from_min_size(Pos2 { x, y: top }, Vec2 { x: bar_width, y: height }),
        tick: (Pos2 { x, y: mid_y }, Pos2 { x: x.plus(bar_width.times(number(TICK_SHARE_BITS))), y: mid_y }),
        fill,
        fill_color: with_alpha(color, alpha),
        name_place: Pos2 { x: middle, y: bottom.minus(number(NAME_RISE_BITS)) },
    }
}

/// The bars for clutch, brake and throttle.
pub fn pedal_bars(
    bars: Rect,
    bar_width: Binary32,
    readout: &ClassicReadout,
    steering: Binary32,
    settings: &BarSettings,
    colors: &BarColors,
    alpha: u8,
) -> (r: [PedalBar; 3])
    ensures
        r@[0] == bar_of(bars, bar_width, 0, readout.clutch, colors.clutch, readout.capabilities.clutch, alpha),
        r@[1] == bar_of(
            bars,
            bar_width,
            1,
            readout.brake,
            brake_bar_color(readout.brake, readout.abs_on, steering, *settings, *colors),
            readout.capabilities.brake,
            alpha,
        ),
        r@[2] == bar_of(
            bars,
            bar_width,
            2,
            readout.throttle,
            throttle_bar_color(readout.tc_on, *settings, *colors),
            readout.capabilities.throttle,
            alpha,
        ),
{
    let brake = brake_color(readout.brake, readout.abs_on, steering, settings, colors);
    let throttle = throttle_color(readout.tc_on, settings, colors);
    let supports = readout.capabilities;
    [
        build_bar(&bars, bar_width, 0, readout.clutch, colors.clutch, supports.clutch, alpha),
        build_bar(&bars, bar_width, 1, readout.brake, brake, supports.brake, alpha),
        build_bar(&bars, bar_width, 2, readout.throttle, throttle, supports.throttle, alpha),
    ]
}

/// Where gear and speed stand in the wheel, and how large they are.
#[derive(Debug, Clone, Copy, PartialEq, Eq, Structural)]
pub struct WheelTexts {
    pub gear: Pos2,
    pub gear_size: Binary32,
    pub speed: Pos2,
    pub speed_size: Binary32,
    /// The part that can be clicked to change the unit.
    pub speed_area: Rect,
    pub unit: Pos2,
    pub unit_size: Binary32,
}

/// Where gear and speed stand in the wheel.
pub open spec fn wheel_texts_of(center: Pos2, radius: Binary32) -> WheelTexts {
    let speed = Pos2 { x: center.x, y: center.y.sum(radius.product(num(SPEED_DROP_BITS))) };
    let speed_size = radius.product(num(SPEED_DROP_BITS)).larger(num(SPEED_MIN_BITS));
    WheelTexts {
        gear: Pos2 { x: center.x, y: center.y.difference(radius.product(num(GEAR_RISE_BITS))) },
        gear_size: radius.product(num(GEAR_SHARE_BITS)).larger(num(GEAR_MIN_BITS)),
        speed,
        speed_size,
        speed_area: Rect::around(
            speed,
            Vec2 { x: radius.product(num(SPEED_WIDTH_BITS)), y: radius.product(num(HALF_BITS)) },
        ),
        unit: Pos2 { x: center.x, y: speed.y.difference(speed_size.product(num(UNIT_RISE_BITS))) },
        unit_size: radius.product(num(UNIT_SHARE_BITS)).larger(num(UNIT_MIN_BITS)),
    }
}

/// Where gear and speed stand in the wheel.
pub fn wheel_texts(center: Pos2, radius: Binary32) -> (r: WheelTexts)
    ensures
        r == wheel_texts_of(center, radius),
{
    let speed = Pos2 { x: center.x, y: center.y.plus(radius.times(number(SPEED_DROP_BITS))) };
    let speed_size = radius.times(number(SPEED_DROP_BITS)).max(number(SPEED_MIN_BITS));
    WheelTexts {
        gear: Pos2 { x: center.x, y: center.y.minus(radius.times(number(GEAR_RISE_BITS))) },
        gear_size: radius.times(number(GEAR_SHARE_BITS)).max(number(GEAR_MIN_BITS)),
        speed,
        speed_size,
        speed_area: Rect::from_center_size(
            speed,
            Vec2 { x: radius.times(number(SPEED_WIDTH_BITS)), y: radius.times(number(HALF_BITS)) },
        ),
        unit: Pos2 { x: center.x, y: speed.y.minus(speed_size.times(number(UNIT_RISE_BITS))) },
        unit_size: radius.times(number(UNIT_SHARE_BITS)).max(number(UNIT_MIN_BITS)),
    }
}

} // verus!
