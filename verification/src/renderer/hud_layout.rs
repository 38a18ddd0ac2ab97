//! Where the parts of the F1 display stand.
use crate::arithmetic::whole;
use crate::binary32::{num, number, Binary32, ONE_BITS};
use crate::renderer::geometry::{Pos2, Rect, Vec2};
use vstd::prelude::*;

verus! {

/// Segments of a pedal meter.
pub const PEDAL_SEGMENTS: u64 = 15;

/// Bit pattern of 14: the margin to the left and right.
pub const MARGIN_X_BITS: u32 = 0x4160_0000;

/// Bit pattern of 10: the margin above and below.
pub const MARGIN_Y_BITS: u32 = 0x4120_0000;

/// Bit pattern of 0.55: the share of the traces in the width.
pub const LEFT_SHARE_BITS: u32 = 0x3f0c_cccd;

/// Bit pattern of 0.15: the share of the instruments in the width.
pub const INSTRUMENT_SHARE_BITS: u32 = 0x3e19_999a;

/// Bit pattern of 96: the narrowest instrument column.
pub const INSTRUMENT_MIN_BITS: u32 = 0x42c0_0000;

/// Bit pattern of 160: the widest instrument column.
pub const INSTRUMENT_MAX_BITS: u32 = 0x4320_0000;

/// Bit pattern of 14: the widest gap between columns.
pub const GAP_MAX_BITS: u32 = 0x4160_0000;

/// Bit pattern of 0.025: the share of a gap in the width.
pub const GAP_SHARE_BITS: u32 = 0x3ccc_cccd;

/// Bit pattern of 0.2: the share of the labels in the trace column.
pub const LABEL_SHARE_BITS: u32 = 0x3e4c_cccd;

/// Bit pattern of 78: the narrowest label column.
pub const LABEL_MIN_BITS: u32 = 0x429c_0000;

/// Bit pattern of 116: the widest label column.
pub const LABEL_MAX_BITS: u32 = 0x42e8_0000;

/// Bit pattern of 0.13: the share of the values in the trace column.
pub const VALUE_SHARE_BITS: u32 = 0x3e05_1eb8;

/// Bit pattern of 48: the narrowest value column.
pub const VALUE_MIN_BITS: u32 = 0x4240_0000;

/// Bit pattern of 74: the widest value column.
pub const VALUE_MAX_BITS: u32 = 0x4294_0000;

/// Bit pattern of 0.12: the share of the height above and below the traces.
pub const TRACE_INSET_BITS: u32 = 0x3df5_c28f;

/// Bit pattern of 0.15: where the pedal meters start, as a share of the height.
pub const METER_TOP_BITS: u32 = 0x3e19_999a;

/// Bit pattern of 0.53: where the pedal meters end, as a share of the height.
pub const METER_BOTTOM_BITS: u32 = 0x3f07_ae14;

/// Bit pattern of 0.23: the share of a pedal meter in the instrument column.
pub const METER_SHARE_BITS: u32 = 0x3e6b_851f;

/// Bit pattern of 18: the narrowest pedal meter.
pub const METER_MIN_BITS: u32 = 0x4190_0000;

/// Bit pattern of 28: the widest pedal meter.
pub const METER_MAX_BITS: u32 = 0x41e0_0000;

/// Bit pattern of 0.28: the place of the brake meter across the instrument column.
pub const BRAKE_PLACE_BITS: u32 = 0x3e8f_5c29;

/// Bit pattern of 0.72: the place of the throttle meter across the instrument column.
pub const THROTTLE_PLACE_BITS: u32 = 0x3f38_51ec;

/// Bit pattern of 0.5: one half.
pub const HALF_BITS: u32 = 0x3f00_0000;

/// Bit pattern of 0.57: where the steering arc starts, as a share of the height.
pub const STEERING_TOP_BITS: u32 = 0x3f11_eb85;

/// Bit pattern of 0.72: the height of the speed in the center.
pub const SPEED_PLACE_BITS: u32 = 0x3f38_51ec;

/// Bit pattern of 0.49: the height of the gear in the center.
pub const GEAR_PLACE_BITS: u32 = 0x3efa_e148;

/// Bit pattern of 0.7: the height of the steering value.
pub const STEERING_PLACE_BITS: u32 = 0x3f33_3333;

/// Bit pattern of 23: the drop from the steering value to its label.
pub const STEERING_LABEL_DROP_BITS: u32 = 0x41b8_0000;

/// Bit pattern of 4: the margin below the steering label.
pub const STEERING_LABEL_MARGIN_BITS: u32 = 0x4080_0000;

/// Bit pattern of 0.06: the share of the height above and below a trace.
pub const PEDAL_PAD_BITS: u32 = 0x3d75_c28f;

/// Bit pattern of 2: two.
pub const PEDAL_TWO_BITS: u32 = 0x4000_0000;

/// Bit pattern of 0.03: the share of a gap between segments in the height.
pub const SEGMENT_GAP_SHARE_BITS: u32 = 0x3cf5_c28f;

/// Bit pattern of 2: the smallest gap between segments.
pub const SEGMENT_GAP_MIN_BITS: u32 = 0x4000_0000;

/// Bit pattern of 4: the largest gap between segments.
pub const SEGMENT_GAP_MAX_BITS: u32 = 0x4080_0000;

/// Bit pattern of 100: the speed at the top of the plot, in meters per second.
pub const SPEED_SCALE_BITS: u32 = 0x42c8_0000;

/// The places of the parts of the display.
#[derive(Debug, Clone, Copy, PartialEq, Eq, Structural)]
pub struct OpenHudLayout {
    pub left_rect: Rect,
    pub trace_rect: Rect,
    pub brake_meter_rect: Rect,
    pub throttle_meter_rect: Rect,
    pub steering_rect: Rect,
    pub center_rect: Rect,
}

/// The display without its margins.
pub open spec fn outer_rect(rect: Rect) -> Rect {
    rect.shrunk((Vec2 { x: num(MARGIN_X_BITS), y: num(MARGIN_Y_BITS) }))
}

/// The column of the traces with their labels and values.
pub open spec fn left_column(outer: Rect) -> Rect {
    Rect::sized(outer.min, (Vec2 { x: outer.span_x().product(num(LEFT_SHARE_BITS)), y: outer.span_y() }))
}

/// The gap between columns.
pub open spec fn column_gap(outer: Rect) -> Binary32 {
    num(GAP_MAX_BITS).smaller(outer.span_x().product(num(GAP_SHARE_BITS)))
}

/// The column of the instruments.
pub open spec fn instrument_column(outer: Rect) -> Rect {
    Rect::sized(
        (Pos2 { x: left_column(outer).max.x.sum(column_gap(outer)), y: outer.min.y }),
        (Vec2 {
            x: outer.span_x().product(num(INSTRUMENT_SHARE_BITS)).clamped(
                num(INSTRUMENT_MIN_BITS),
                num(INSTRUMENT_MAX_BITS),
            ),
            y: outer.span_y(),
        }),
    )
}

/// The plot of the traces, between their labels and values.
pub open spec fn trace_plot(outer: Rect) -> Rect {
    let left = left_column(outer);
    let left_width = outer.span_x().product(num(LEFT_SHARE_BITS));
    let label_width = left_width.product(num(LABEL_SHARE_BITS)).clamped(num(LABEL_MIN_BITS), num(LABEL_MAX_BITS));
    let value_width = left_width.product(num(VALUE_SHARE_BITS)).clamped(num(VALUE_MIN_BITS), num(VALUE_MAX_BITS));
    let inset = outer.span_y().product(num(TRACE_INSET_BITS));
    Rect {
        min: Pos2 { x: left.min.x.sum(label_width), y: left.min.y.sum(inset) },
        max: Pos2 { x: left.max.x.difference(value_width), y: left.max.y.difference(inset) },
    }
}

/// A pedal meter at the given place across the instrument column.
pub open spec fn pedal_meter(outer: Rect, place: Binary32) -> Rect {
    let column = instrument_column(outer);
    let half_width = column.span_x().product(num(METER_SHARE_BITS)).clamped(
        num(METER_MIN_BITS),
        num(METER_MAX_BITS),
    ).product(num(HALF_BITS));
    let x = column.min.x.sum(column.span_x().product(place));
    Rect {
        min: Pos2 { x: x.difference(half_width), y: column.min.y.sum(outer.span_y().product(num(METER_TOP_BITS))) },
        max: Pos2 { x: x.sum(half_width), y: column.min.y.sum(outer.span_y().product(num(METER_BOTTOM_BITS))) },
    }
}

/// The places of the parts within a rectangle.
pub open spec fn layout_of(rect: Rect) -> OpenHudLayout {
    let outer = outer_rect(rect);
    let column = instrument_column(outer);
    OpenHudLayout {
        left_rect: left_column(outer),
        trace_rect: trace_plot(outer),
        brake_meter_rect: pedal_meter(outer, num(BRAKE_PLACE_BITS)),
        throttle_meter_rect: pedal_meter(outer, num(THROTTLE_PLACE_BITS)),
        steering_rect: Rect {
            min: Pos2 { x: column.min.x, y: column.min.y.sum(outer.span_y().product(num(STEERING_TOP_BITS))) },
            max: column.max,
        },
        center_rect: Rect {
            min: Pos2 { x: column.max.x.sum(column_gap(outer)), y: outer.min.y },
            max: outer.max,
        },
    }
}

fn pedal_meter_of(outer: &Rect, column: &Rect, place: Binary32) -> (r: Rect)
    requires
        *column == instrument_column(*outer),
    ensures
        r == pedal_meter(*outer, place),
{
    let half_width = column.width().times(number(METER_SHARE_BITS)).clamp(
        number(METER_MIN_BITS),
        number(METER_MAX_BITS),
    ).times(number(HALF_BITS));
    let x = column.min.x.plus(column.width().times(place));
    Rect {
        min: Pos2 { x: x.minus(half_width), y: column.min.y.plus(outer.height().times(number(METER_TOP_BITS))) },
        max: Pos2 { x: x.plus(half_width), y: column.min.y.plus(outer.height().times(number(METER_BOTTOM_BITS))) },
    }
}

impl OpenHudLayout {
    /// Divides a rectangle.
    pub fn new(rect: Rect) -> (r: Self)
        ensures
            r == layout_of(rect),
    {
        let outer = rect.shrink(Vec2 { x: number(MARGIN_X_BITS), y: number(MARGIN_Y_BITS) });
        let left_width = outer.width().times(number(LEFT_SHARE_BITS));
        let instrument_width = outer.width().times(number(INSTRUMENT_SHARE_BITS)).clamp(
            number(INSTRUMENT_MIN_BITS),
            number(INSTRUMENT_MAX_BITS),
        );
        let gap = number(GAP_MAX_BITS).min(outer.width().times(number(GAP_SHARE_BITS)));
        let left_rect = Rect::from_min_size(outer.min, Vec2 { x: left_width, y: outer.height() });
        let label_width = left_width.times(number(LABEL_SHARE_BITS)).clamp(
            number(LABEL_MIN_BITS),
            number(LABEL_MAX_BITS),
        );
        let value_width = left_width.times(number(VALUE_SHARE_BITS)).clamp(
            number(VALUE_MIN_BITS),
            number(VALUE_MAX_BITS),
        );
        let inset = outer.height().times(number(TRACE_INSET_BITS));
        let trace_rect = Rect {
            min: Pos2 { x: left_rect.min.x.plus(label_width), y: left_rect.min.y.plus(inset) },
            max: Pos2 { x: left_rect.max.x.minus(value_width), y: left_rect.max.y.minus(inset) },
        };
        let column = Rect::from_min_size(
            Pos2 { x: left_rect.max.x.plus(gap), y: outer.min.y },
            Vec2 { x: instrument_width, y: outer.height() },
        );
        OpenHudLayout {
            left_rect,
            trace_rect,
            brake_meter_rect: pedal_meter_of(&outer, &column, number(BRAKE_PLACE_BITS)),
            throttle_meter_rect: pedal_meter_of(&outer, &column, number(THROTTLE_PLACE_BITS)),
            steering_rect: Rect {
                min: Pos2 { x: column.min.x, y: column.min.y.plus(outer.height().times(number(STEERING_TOP_BITS))) },
                max: column.max,
            },
            center_rect: Rect { min: Pos2 { x: column.max.x.plus(gap), y: outer.min.y }, max: outer.max },
        }
    }
}

/// The point in the middle of a rectangle's width, at a share of its height.
pub open spec fn centered_at(rect: Rect, share: Binary32) -> Pos2 {
    Pos2 { x: rect.middle().x, y: rect.min.y.sum(rect.span_y().product(share)) }
}

fn center_at(rect: &Rect, share: Binary32) -> (r: Pos2)
    ensures
        r == centered_at(*rect, share),
{
    Pos2 { x: rect.center().x, y: rect.min.y.plus(rect.height().times(share)) }
}

/// Where the speed stands.
pub fn speed_value_position(layout: &OpenHudLayout) -> (r: Pos2)
    ensures
        r == centered_at(layout.center_rect, num(SPEED_PLACE_BITS)),
{
    center_at(&layout.center_rect, number(SPEED_PLACE_BITS))
}

/// Where the gear stands.
pub fn gear_value_position(layout: &OpenHudLayout) -> (r: Pos2)
    ensures
        r == centered_at(layout.center_rect, num(GEAR_PLACE_BITS)),
{
    center_at(&layout.center_rect, number(GEAR_PLACE_BITS))
}

/// Where the steering value stands.
pub fn steering_value_position(layout: &OpenHudLayout) -> (r: Pos2)
    ensures
        r == centered_at(layout.steering_rect, num(STEERING_PLACE_BITS)),
{
    center_at(&layout.steering_rect, number(STEERING_PLACE_BITS))
}

/// Where the steering label stands: below the value, but not beyond the edge.
pub open spec fn steering_label_place(layout: OpenHudLayout) -> Pos2 {
    let value = centered_at(layout.steering_rect, num(STEERING_PLACE_BITS));
    Pos2 {
        x: value.x,
        y: value.y.sum(num(STEERING_LABEL_DROP_BITS)).smaller(
            layout.steering_rect.max.y.difference(num(STEERING_LABEL_MARGIN_BITS)),
        ),
    }
}

/// Where the steering label stands.
pub fn steering_label_position(layout: &OpenHudLayout) -> (r: Pos2)
    ensures
        r == steering_label_place(*layout),
{
    let value = steering_value_position(layout);
    Pos2 {
        x: value.x,
        y: value.y.plus(number(STEERING_LABEL_DROP_BITS)).min(
            layout.steering_rect.max.y.minus(number(STEERING_LABEL_MARGIN_BITS)),
        ),
    }
}

/// The height of a level between zero and one within a plot.
pub open spec fn level_y(rect: Rect, value: Binary32) -> Binary32 {
    let pad = rect.span_y().product(num(PEDAL_PAD_BITS));
    rect.max.y.difference(pad).difference(
        value.unit().product(rect.span_y().difference(num(PEDAL_TWO_BITS).product(pad))),
    )
}

/// The height of a pedal position within a plot.
pub fn pedal_y(rect: &Rect, value: Binary32) -> (r: Binary32)
    ensures
        r == level_y(*rect, value),
{
    let height = rect.height();
    let pad = height.times(number(PEDAL_PAD_BITS));
    rect.max.y.minus(pad).minus(value.clamp_unit().times(height.minus(number(PEDAL_TWO_BITS).times(pad))))
}

/// The height of a speed within a plot.
pub fn speed_y(rect: &Rect, speed_ms: Binary32) -> (r: Binary32)
    ensures
        r == level_y(*rect, speed_ms.quotient(num(SPEED_SCALE_BITS))),
{
    pedal_y(rect, speed_ms.over(number(SPEED_SCALE_BITS)))
}

/// The gap between the segments of a pedal meter.
pub open spec fn segment_gap(total_height: Binary32) -> Binary32 {
    total_height.product(num(SEGMENT_GAP_SHARE_BITS)).clamped(num(SEGMENT_GAP_MIN_BITS), num(SEGMENT_GAP_MAX_BITS))
}

/// The height of a segment of a pedal meter.
pub open spec fn segment_height(total_height: Binary32) -> Binary32 {
    total_height.difference(
        segment_gap(total_height).product(whole((PEDAL_SEGMENTS - 1) as nat)),
    ).quotient(whole(PEDAL_SEGMENTS as nat)).larger(num(ONE_BITS))
}

/// The gap between the segments of a pedal meter, and the height of a segment.
pub fn pedal_segment_geometry(total_height: Binary32) -> (r: (Binary32, Binary32))
    ensures
        r.0 == segment_gap(total_height),
        r.1 == segment_height(total_height),
{
    let gap = total_height.times(number(SEGMENT_GAP_SHARE_BITS)).clamp(
        number(SEGMENT_GAP_MIN_BITS),
        number(SEGMENT_GAP_MAX_BITS),
    );
    let gaps = gap.times(Binary32::from_u64(PEDAL_SEGMENTS - 1));
    let height = total_height.minus(gaps).over(Binary32::from_u64(PEDAL_SEGMENTS)).max(number(ONE_BITS));
    (gap, height)
}

} // verus!
