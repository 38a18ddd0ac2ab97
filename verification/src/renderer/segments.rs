//! The lit segments of the F1 display.
use crate::arithmetic::whole;
use crate::binary32::{num, number, Binary32, ONE_BITS, ZERO_BITS};
use crate::renderer::color::{dimmed, heated, hot_face, with_opacity, Color};
use crate::renderer::geometry::{between, lerp, Pos2, Rect, Vec2};
use crate::renderer::glow::{rect_glow, GlowBatchBuilder, GlowInstance};
use crate::renderer::palette::{grid_gray, grid_gray_color, idle_gray, idle_gray_color};
use crate::renderer::shapes::{add_shape, views, Shape, ShapeView, Stroke};
use vstd::prelude::*;

verus! {

/// Divisions of the time axis.
pub const GRID_DIVISIONS: u64 = 4;

/// Segments of a pedal meter.
pub const PEDAL_SEGMENTS: usize = 15;

/// Shift lights.
pub const RPM_SEGMENTS: usize = 15;

/// Segments of the steering arc on either side of the central one.
pub const STEERING_SEGMENTS_PER_SIDE: usize = 18;

/// Segments of the steering arc.
pub const STEERING_SEGMENTS: usize = 37;

/// Bit pattern of 0.3: the opacity of an unlit shift light.
pub const INACTIVE_LED_BITS: u32 = 0x3e99_999a;

/// Bit pattern of 0.1: the opacity of an unlit arc segment.
pub const INACTIVE_ARC_BITS: u32 = 0x3dcc_cccd;

/// Bit pattern of 0.95: the body of the central segment.
pub const CENTER_BODY_BITS: u32 = 0x3f73_3333;

/// Bit pattern of 0.1: the inner glow of the central segment.
pub const CENTER_INNER_BITS: u32 = 0x3dcc_cccd;

/// Bit pattern of 0.035: the outer glow of the central segment.
pub const CENTER_OUTER_BITS: u32 = 0x3d0f_5c29;

/// Bit pattern of 2: the reach of the glow of the central segment.
pub const CENTER_SPREAD_BITS: u32 = 0x4000_0000;

/// Bit pattern of 0.88: the body of a lit segment.
pub const ACTIVE_BODY_BITS: u32 = 0x3f61_47ae;

/// Bit pattern of 0.15: the inner glow of a lit segment.
pub const ACTIVE_INNER_BITS: u32 = 0x3e19_999a;

/// Bit pattern of 0.045: the outer glow of a lit segment.
pub const ACTIVE_OUTER_BITS: u32 = 0x3d38_51ec;

/// Bit pattern of 4: the reach of the glow of a lit segment.
pub const ACTIVE_SPREAD_BITS: u32 = 0x4080_0000;

/// Bit pattern of 0.22: the inner glow of the outermost lit segment.
pub const EDGE_INNER_BITS: u32 = 0x3e61_47ae;

/// Bit pattern of 0.075: the outer glow of the outermost lit segment.
pub const EDGE_OUTER_BITS: u32 = 0x3d99_999a;

/// Bit pattern of 5: the reach of the glow of the outermost lit segment.
pub const EDGE_SPREAD_BITS: u32 = 0x40a0_0000;

/// Bit pattern of 0.42: the reach of the inner glow, relative to the outer one.
pub const INNER_REACH_BITS: u32 = 0x3ed7_0a3d;

/// Bit pattern of 2: the rounding added for the outer glow.
pub const OUTER_ROUNDING_BITS: u32 = 0x4000_0000;

/// Bit pattern of 3.5: the reach of the emission of a shift light.
pub const LED_SPREAD_BITS: u32 = 0x4060_0000;

/// Bit pattern of 1.5: the gain of the emission of a shift light.
pub const LED_GAIN_BITS: u32 = 0x3fc0_0000;

/// Bit pattern of 0.38: the emission of the outermost shift light.
pub const LED_EDGE_BITS: u32 = 0x3ec2_8f5c;

/// Bit pattern of 0.26: the emission of a lit shift light.
pub const LED_ACTIVE_BITS: u32 = 0x3e85_1eb8;

/// Bit pattern of 0.15: the inset of the face of a shift light.
pub const LED_FACE_INSET_BITS: u32 = 0x3e19_999a;

/// Bit pattern of 0.46: the white in the face of a shift light.
pub const LED_FACE_WHITE_BITS: u32 = 0x3eeb_851f;

/// Bit pattern of 0.92: the opacity of the face of a shift light.
pub const LED_FACE_ALPHA_BITS: u32 = 0x3f6b_851f;

/// Bit pattern of 0.76: the white in a highlight.
pub const HOT_WHITE_BITS: u32 = 0x3f42_8f5c;

/// Bit pattern of 0.25: the place of a highlight in the height.
pub const HIGHLIGHT_PLACE_BITS: u32 = 0x3e80_0000;

/// Bit pattern of 0.7: the smallest distance of a highlight from the edge.
pub const HIGHLIGHT_MIN_BITS: u32 = 0x3f33_3333;

/// Bit pattern of 0.8: the width of a highlight.
pub const HIGHLIGHT_WIDTH_BITS: u32 = 0x3f4c_cccd;

/// Bit pattern of 0.92: the highlight of the outermost segment.
pub const HIGHLIGHT_EDGE_BITS: u32 = 0x3f6b_851f;

/// Bit pattern of 0.68: the highlight of a lit segment.
pub const HIGHLIGHT_ACTIVE_BITS: u32 = 0x3f2e_147b;

/// Bit pattern of 0.45: the fill of the outer glow, relative to its rim.
pub const OUTER_FILL_BITS: u32 = 0x3ee6_6666;

/// Bit pattern of 0.55: the fill of the inner glow, relative to its rim.
pub const INNER_FILL_BITS: u32 = 0x3f0c_cccd;

/// Bit pattern of 0.75: the width of a lit rim.
pub const RIM_WIDTH_BITS: u32 = 0x3f40_0000;

/// Bit pattern of 0.72: the opacity of a lit rim.
pub const RIM_ALPHA_BITS: u32 = 0x3f38_51ec;

/// Bit pattern of 0.14: the strength of the line at the present.
pub const GRID_NOW_BITS: u32 = 0x3e0f_5c29;

/// Bit pattern of 0.035: the strength of the oldest line.
pub const GRID_FLOOR_BITS: u32 = 0x3d0f_5c29;

/// Bit pattern of 0.65: the width of a vertical line.
pub const GRID_WIDTH_BITS: u32 = 0x3f26_6666;

/// Bit pattern of 0.5: the width of a horizontal line.
pub const GRID_ROW_WIDTH_BITS: u32 = 0x3f00_0000;

/// Bit pattern of 0.025: the strength of a horizontal line.
pub const GRID_ROW_ALPHA_BITS: u32 = 0x3ccc_cccd;

/// Bit pattern of 4: four.
pub const FOUR_BITS: u32 = 0x4080_0000;

/// Bit pattern of 0.05: the lock amount at which a half turns cyan.
pub const COVER_START_BITS: u32 = 0x3d4c_cccd;

/// Bit pattern of 0.45: the range over which a half turns cyan.
pub const COVER_RANGE_BITS: u32 = 0x3ee6_6666;

/// Bit pattern of 3: three.
pub const THREE_BITS: u32 = 0x4040_0000;

/// Bit pattern of 2: two.
pub const TWO_BITS: u32 = 0x4000_0000;

/// Bit pattern of 0.3: the white that a burn adds.
pub const BURN_WHITE_BITS: u32 = 0x3e99_999a;

/// Bit pattern of 0.18: the white that a pulse adds.
pub const PULSE_WHITE_BITS: u32 = 0x3e38_51ec;

/// Bit pattern of 0.45: the most white that is added.
pub const WHITE_MAX_BITS: u32 = 0x3ee6_6666;

/// Bit pattern of 0.02: the smallest amount that is drawn.
pub const VISIBLE_BITS: u32 = 0x3ca3_d70a;

/// Bit pattern of 0.92: the opacity of a lit meter segment.
pub const METER_ALPHA_BITS: u32 = 0x3f6b_851f;

/// Bit pattern of 0.28: the opacity of an unlit meter segment.
pub const METER_IDLE_ALPHA_BITS: u32 = 0x3e8f_5c29;

/// Bit pattern of 2: the reach of the emission of a meter segment.
pub const METER_SPREAD_BITS: u32 = 0x4000_0000;

/// Bit pattern of 0.7: the emission of a locked meter segment.
pub const METER_LOCK_GAIN_BITS: u32 = 0x3f33_3333;

/// Bit pattern of 1.2: the reach of the painted glow of a locked segment.
pub const METER_LOCK_REACH_BITS: u32 = 0x3f99_999a;

/// Bit pattern of 0.3: the painted glow of a locked segment.
pub const METER_LOCK_ALPHA_BITS: u32 = 0x3e99_999a;

/// Bit pattern of 0.4: the emission of a warned meter segment.
pub const METER_APPROACH_GAIN_BITS: u32 = 0x3ecc_cccd;

/// Bit pattern of 0.7: the height of the center of the arc.
pub const ARC_CENTER_BITS: u32 = 0x3f33_3333;

/// Bit pattern of 0.49: the radius of the arc, relative to the width.
pub const ARC_RADIUS_BITS: u32 = 0x3efa_e148;

/// Bit pattern of 8: the smallest outer radius.
pub const ARC_RADIUS_MIN_BITS: u32 = 0x4100_0000;

/// Bit pattern of 0.16: the thickness of the arc, relative to its radius.
pub const ARC_THICKNESS_BITS: u32 = 0x3e23_d70a;

/// Bit pattern of 7: the smallest thickness.
pub const ARC_THICKNESS_MIN_BITS: u32 = 0x40e0_0000;

/// Bit pattern of 12: the largest thickness.
pub const ARC_THICKNESS_MAX_BITS: u32 = 0x4140_0000;

/// Bit pattern of 2: the smallest inner radius.
pub const ARC_INNER_MIN_BITS: u32 = 0x4000_0000;

/// Bit pattern of 150: the extent of the arc in degrees.
pub const ARC_DEGREES_BITS: u32 = 0x4316_0000;

/// Bit pattern of 0.6: the gap between segments, relative to their step.
pub const ARC_GAP_BITS: u32 = 0x3f19_999a;

/// Bit pattern of 4: the gap between shift lights.
pub const LIGHT_GAP_BITS: u32 = 0x4080_0000;

/// Bit pattern of 0.16: the height of the shift lights.
pub const LIGHT_PLACE_BITS: u32 = 0x3e23_d70a;

/// Bit pattern of 5.5: the height of a shift light.
pub const LIGHT_HEIGHT_BITS: u32 = 0x40b0_0000;

/// Bit pattern of 0.9: the rounding of a shift light.
pub const LIGHT_ROUNDING_BITS: u32 = 0x3f66_6666;

/// Bit pattern of pi over 180: radians in a degree.
pub const RADIANS_PER_DEGREE_BITS: u32 = 0x3c8e_fa35;

/// Bit pattern of minus half pi: the upward direction.
pub const UPWARD_BITS: u32 = 0xbfc9_0fdb;

/// How a segment is lit.
#[derive(Debug, Clone, Copy, PartialEq, Eq, Structural)]
pub enum SegmentState {
    Inactive,
    Center,
    Active,
    Edge,
}

impl SegmentState {
    /// Whether the segment is lit.
    pub open spec fn lit(self) -> bool {
        self == SegmentState::Active || self == SegmentState::Edge
    }
}

/// Opacities of the layers of a segment, and the reach of its glow.
#[derive(Debug, Clone, Copy, PartialEq, Eq, Structural)]
pub struct SegmentStyle {
    pub body_alpha: Binary32,
    pub inner_alpha: Binary32,
    pub outer_alpha: Binary32,
    pub spread: Binary32,
}

/// The style of a segment, given the opacity of an unlit one.
pub open spec fn style_of(state: SegmentState, inactive_alpha: Binary32) -> SegmentStyle {
    match state {
        SegmentState::Inactive => SegmentStyle {
            body_alpha: inactive_alpha,
            inner_alpha: num(ZERO_BITS),
            outer_alpha: num(ZERO_BITS),
            spread: num(ZERO_BITS),
        },
        SegmentState::Center => SegmentStyle {
            body_alpha: num(CENTER_BODY_BITS),
            inner_alpha: num(CENTER_INNER_BITS),
            outer_alpha: num(CENTER_OUTER_BITS),
            spread: num(CENTER_SPREAD_BITS),
        },
        SegmentState::Active => SegmentStyle {
            body_alpha: num(ACTIVE_BODY_BITS),
            inner_alpha: num(ACTIVE_INNER_BITS),
            outer_alpha: num(ACTIVE_OUTER_BITS),
            spread: num(ACTIVE_SPREAD_BITS),
        },
        SegmentState::Edge => SegmentStyle {
            body_alpha: num(ONE_BITS),
            inner_alpha: num(EDGE_INNER_BITS),
            outer_alpha: num(EDGE_OUTER_BITS),
            spread: num(EDGE_SPREAD_BITS),
        },
    }
}

fn segment_style(state: SegmentState, inactive_alpha: Binary32) -> (r: SegmentStyle)
    ensures
        r == style_of(state, inactive_alpha),
{
    match state {
        SegmentState::Inactive => SegmentStyle {
            body_alpha: inactive_alpha,
            inner_alpha: number(ZERO_BITS),
            outer_alpha: number(ZERO_BITS),
            spread: number(ZERO_BITS),
        },
        SegmentState::Center => SegmentStyle {
            body_alpha: number(CENTER_BODY_BITS),
            inner_alpha: number(CENTER_INNER_BITS),
            outer_alpha: number(CENTER_OUTER_BITS),
            spread: number(CENTER_SPREAD_BITS),
        },
        SegmentState::Active => SegmentStyle {
            body_alpha: number(ACTIVE_BODY_BITS),
            inner_alpha: number(ACTIVE_INNER_BITS),
            outer_alpha: number(ACTIVE_OUTER_BITS),
            spread: number(ACTIVE_SPREAD_BITS),
        },
        SegmentState::Edge => SegmentStyle {
            body_alpha: number(ONE_BITS),
            inner_alpha: number(EDGE_INNER_BITS),
            outer_alpha: number(EDGE_OUTER_BITS),
            spread: number(EDGE_SPREAD_BITS),
        },
    }
}

fn is_lit(state: SegmentState) -> (r: bool)
    ensures
        r == state.lit(),
{
    state == SegmentState::Active || state == SegmentState::Edge
}

/// The painted glow around a rectangle: none for an unlit segment.
#[verifier::opaque]
pub open spec fn rect_halo(
    rect: Rect,
    rounding: Binary32,
    style: SegmentStyle,
    color: Color,
    opacity: Binary32,
) -> Seq<ShapeView> {
    if num(ZERO_BITS).below(style.outer_alpha) {
        seq![
            ShapeView::RectFilled {
                rect: rect.expanded(style.spread),
                rounding: rounding.sum(num(OUTER_ROUNDING_BITS)),
                fill: dimmed(color, opacity.product(style.outer_alpha)),
            },
            ShapeView::RectFilled {
                rect: rect.expanded(style.spread.product(num(INNER_REACH_BITS))),
                rounding: rounding.sum(num(ONE_BITS)),
                fill: dimmed(color, opacity.product(style.inner_alpha)),
            },
        ]
    } else {
        Seq::empty()
    }
}

fn push_rect_halo(
    shapes: &mut Vec<Shape>,
    rect: &Rect,
    rounding: Binary32,
    style: &SegmentStyle,
    color: Color,
    opacity: Binary32,
)
    ensures
        views(final(shapes)@) == views(old(shapes)@) + rect_halo(*rect, rounding, *style, color, opacity),
{
    if number(ZERO_BITS).lt(style.outer_alpha) {
        add_shape(
            shapes,
            Shape::RectFilled {
                rect: rect.expand(style.spread),
                rounding: rounding.plus(number(OUTER_ROUNDING_BITS)),
                fill: with_opacity(color, opacity.times(style.outer_alpha)),
            },
        );
        add_shape(
            shapes,
            Shape::RectFilled {
                rect: rect.expand(style.spread.times(number(INNER_REACH_BITS))),
                rounding: rounding.plus(number(ONE_BITS)),
                fill: with_opacity(color, opacity.times(style.inner_alpha)),
            },
        );
    }
    proof {
        reveal(rect_halo);
        assert(views(shapes@) =~= views(old(shapes)@) + rect_halo(*rect, rounding, *style, color, opacity));
    }
}

/// The painted shift light: its body, and a uniform face when lit.
#[verifier::opaque]
pub open spec fn light_shapes(
    rect: Rect,
    rounding: Binary32,
    body: Color,
    state: SegmentState,
    opacity: Binary32,
) -> Seq<ShapeView> {
    let style = style_of(state, num(INACTIVE_LED_BITS));
    let base = seq![
        ShapeView::RectFilled {
            rect,
            rounding,
            fill: dimmed(
                if state.lit() {
                    body
                } else {
                    idle_gray()
                },
                opacity.product(style.body_alpha),
            ),
        },
    ];
    if state.lit() {
        let inset = num(LED_FACE_INSET_BITS);
        base.push(
            ShapeView::RectFilled {
                rect: rect.shrunk((Vec2 { x: inset, y: inset })),
                rounding,
                fill: dimmed(heated(body, num(LED_FACE_WHITE_BITS)), opacity.product(num(LED_FACE_ALPHA_BITS))),
            },
        )
    } else {
        base
    }
}

/// The emission of a shift light: none unless it is lit.
#[verifier::opaque]
pub open spec fn light_glow(
    origin: Pos2,
    viewport: Vec2,
    rect: Rect,
    emission: Color,
    state: SegmentState,
    opacity: Binary32,
) -> Seq<GlowInstance> {
    if state.lit() {
        let intensity = if state == SegmentState::Edge {
            num(LED_EDGE_BITS)
        } else {
            num(LED_ACTIVE_BITS)
        };
        seq![
            rect_glow(
                origin,
                viewport,
                rect,
                num(LED_SPREAD_BITS),
                emission,
                opacity.product(intensity).product(num(LED_GAIN_BITS)),
            ),
        ]
    } else {
        Seq::empty()
    }
}

/// Adds a rectangular segment that emits light when lit.
pub fn push_additive_segment(
    sharp_shapes: &mut Vec<Shape>,
    fallback_emission_shapes: &mut Vec<Shape>,
    glow: &mut GlowBatchBuilder,
    rect: Rect,
    rounding: Binary32,
    emission_color: Color,
    body_color: Color,
    state: SegmentState,
    opacity: Binary32,
)
    ensures
        views(final(sharp_shapes)@) == views(old(sharp_shapes)@) + light_shapes(
            rect,
            rounding,
            body_color,
            state,
            opacity,
        ),
        views(final(fallback_emission_shapes)@) == views(old(fallback_emission_shapes)@) + rect_halo(
            rect,
            rounding,
            style_of(state, num(INACTIVE_LED_BITS)),
            emission_color,
            opacity,
        ),
        final(glow).same_mesh(*old(glow)),
        final(glow).instances@ == old(glow).instances@ + light_glow(
            old(glow).origin,
            old(glow).viewport_size,
            rect,
            emission_color,
            state,
            opacity,
        ),
{
    let style = segment_style(state, number(INACTIVE_LED_BITS));
    let active = is_lit(state);
    push_rect_halo(fallback_emission_shapes, &rect, rounding, &style, emission_color, opacity);
    let body = if active {
        body_color
    } else {
        idle_gray_color()
    };
    add_shape(
        sharp_shapes,
        Shape::RectFilled { rect, rounding, fill: with_opacity(body, opacity.times(style.body_alpha)) },
    );
    if active {
        let intensity = if state == SegmentState::Edge {
            number(LED_EDGE_BITS)
        } else {
            number(LED_ACTIVE_BITS)
        };
        glow.rounded_rect(
            rect,
            number(LED_SPREAD_BITS),
            emission_color,
            opacity.times(intensity).times(number(LED_GAIN_BITS)),
        );
        let inset = number(LED_FACE_INSET_BITS);
        let face = hot_face(body_color, number(LED_FACE_WHITE_BITS));
        add_shape(
            sharp_shapes,
            Shape::RectFilled {
                rect: rect.shrink(Vec2 { x: inset, y: inset }),
                rounding,
                fill: with_opacity(face, opacity.times(number(LED_FACE_ALPHA_BITS))),
            },
        );
    }
    proof {
        reveal(light_shapes);
        reveal(light_glow);
        assert(views(sharp_shapes@) =~= views(old(sharp_shapes)@) + light_shapes(
            rect,
            rounding,
            body_color,
            state,
            opacity,
        ));
        assert(glow.instances@ =~= old(glow).instances@ + light_glow(
            old(glow).origin,
            old(glow).viewport_size,
            rect,
            emission_color,
            state,
            opacity,
        ));
    }
}

/// The outline of a segment.
#[derive(Debug, Clone, PartialEq, Eq)]
pub enum SegmentGeometry {
    Rect(Rect, Binary32),
    Polygon(Vec<Pos2>),
}

/// The shapes of a rectangular luminous segment.
pub open spec fn luminous_rect(
    rect: Rect,
    rounding: Binary32,
    color: Color,
    state: SegmentState,
    opacity: Binary32,
) -> Seq<ShapeView> {
    let style = style_of(state, num(INACTIVE_ARC_BITS));
    let body = rect_halo(rect, rounding, style, color, opacity).push(
        ShapeView::RectFilled { rect, rounding, fill: dimmed(color, opacity.product(style.body_alpha)) },
    );
    if state.lit() {
        let y = rect.min.y.sum(rect.span_y().product(num(HIGHLIGHT_PLACE_BITS)).larger(num(HIGHLIGHT_MIN_BITS)));
        let strength = if state == SegmentState::Edge {
            num(HIGHLIGHT_EDGE_BITS)
        } else {
            num(HIGHLIGHT_ACTIVE_BITS)
        };
        body.push(
            ShapeView::LineSegment {
                start: Pos2 { x: rect.min.x.sum(num(ONE_BITS)), y },
                end: Pos2 { x: rect.max.x.difference(num(ONE_BITS)), y },
                stroke: Stroke {
                    width: num(HIGHLIGHT_WIDTH_BITS),
                    color: dimmed(heated(color, num(HOT_WHITE_BITS)), opacity.product(strength)),
                },
            },
        )
    } else {
        body
    }
}

/// The shapes of a polygonal luminous segment.
#[verifier::opaque]
pub open spec fn luminous_polygon(
    points: Seq<Pos2>,
    color: Color,
    state: SegmentState,
    opacity: Binary32,
) -> Seq<ShapeView> {
    let style = style_of(state, num(INACTIVE_ARC_BITS));
    let outer = opacity.product(style.outer_alpha);
    let inner = opacity.product(style.inner_alpha);
    let halo = if num(ZERO_BITS).below(style.outer_alpha) {
        seq![
            ShapeView::ConvexPolygon {
                points,
                fill: dimmed(color, outer.product(num(OUTER_FILL_BITS))),
                stroke: Stroke { width: style.spread, color: dimmed(color, outer) },
            },
            ShapeView::ConvexPolygon {
                points,
                fill: dimmed(color, inner.product(num(INNER_FILL_BITS))),
                stroke: Stroke {
                    width: style.spread.product(num(INNER_REACH_BITS)),
                    color: dimmed(color, inner),
                },
            },
        ]
    } else {
        Seq::empty()
    };
    let rim = if state.lit() {
        (num(RIM_WIDTH_BITS), num(RIM_ALPHA_BITS))
    } else {
        (num(ZERO_BITS), num(ZERO_BITS))
    };
    halo.push(
        ShapeView::ConvexPolygon {
            points,
            fill: dimmed(color, opacity.product(style.body_alpha)),
            stroke: Stroke {
                width: rim.0,
                color: dimmed(heated(color, num(HOT_WHITE_BITS)), opacity.product(rim.1)),
            },
        },
    )
}

/// The shapes of a luminous segment.
pub open spec fn luminous_shapes(
    geometry: SegmentGeometry,
    color: Color,
    state: SegmentState,
    opacity: Binary32,
) -> Seq<ShapeView> {
    match geometry {
        SegmentGeometry::Rect(rect, rounding) => luminous_rect(rect, rounding, color, state, opacity),
        SegmentGeometry::Polygon(points) => luminous_polygon(points@, color, state, opacity),
    }
}

fn copy_points(points: &Vec<Pos2>) -> (r: Vec<Pos2>)
    ensures
        r@ == points@,
{
    let mut copy: Vec<Pos2> = Vec::new();
    let mut i: usize = 0;
    while i < points.len()
        invariant
            i <= points@.len(),
            copy@ == points@.take(i as int),
        decreases points@.len() - i,
    {
        copy.push(points[i]);
        i = i + 1;
        proof {
            assert(copy@ =~= points@.take(i as int));
        }
    }
    proof {
        assert(copy@ =~= points@);
    }
    copy
}

/// Adds a luminous segment.
pub fn push_luminous_segment(
    shapes: &mut Vec<Shape>,
    geometry: SegmentGeometry,
    color: Color,
    state: SegmentState,
    opacity: Binary32,
)
    ensures
        views(final(shapes)@) == views(old(shapes)@) + luminous_shapes(geometry, color, state, opacity),
{
    let style = segment_style(state, number(INACTIVE_ARC_BITS));
    let active = is_lit(state);
    let hot = hot_face(color, number(HOT_WHITE_BITS));
    let ghost expected = luminous_shapes(geometry, color, state, opacity);
    match geometry {
        SegmentGeometry::Rect(rect, rounding) => {
            push_rect_halo(shapes, &rect, rounding, &style, color, opacity);
            add_shape(
                shapes,
                Shape::RectFilled { rect, rounding, fill: with_opacity(color, opacity.times(style.body_alpha)) },
            );
            if active {
                let y = rect.min.y.plus(
                    rect.height().times(number(HIGHLIGHT_PLACE_BITS)).max(number(HIGHLIGHT_MIN_BITS)),
                );
                let strength = if state == SegmentState::Edge {
                    number(HIGHLIGHT_EDGE_BITS)
                } else {
                    number(HIGHLIGHT_ACTIVE_BITS)
                };
                add_shape(
                    shapes,
                    Shape::LineSegment {
                        start: Pos2 { x: rect.min.x.plus(number(ONE_BITS)), y },
                        end: Pos2 { x: rect.max.x.minus(number(ONE_BITS)), y },
                        stroke: Stroke {
                            width: number(HIGHLIGHT_WIDTH_BITS),
                            color: with_opacity(hot, opacity.times(strength)),
                        },
                    },
                );
            }
        },
        SegmentGeometry::Polygon(points) => {
            if number(ZERO_BITS).lt(style.outer_alpha) {
                let outer = opacity.times(style.outer_alpha);
                let inner = opacity.times(style.inner_alpha);
                add_shape(
                    shapes,
                    Shape::ConvexPolygon {
                        points: copy_points(&points),
                        fill: with_opacity(color, outer.times(number(OUTER_FILL_BITS))),
                        stroke: Stroke { width: style.spread, color: with_opacity(color, outer) },
                    },
                );
                add_shape(
                    shapes,
                    Shape::ConvexPolygon {
                        points: copy_points(&points),
                        fill: with_opacity(color, inner.times(number(INNER_FILL_BITS))),
                        stroke: Stroke {
                            width: style.spread.times(number(INNER_REACH_BITS)),
                            color: with_opacity(color, inner),
                        },
                    },
                );
            }
            let rim_width = if active {
                number(RIM_WIDTH_BITS)
            } else {
                number(ZERO_BITS)
            };
            let rim_alpha = if active {
                number(RIM_ALPHA_BITS)
            } else {
                number(ZERO_BITS)
            };
            add_shape(
                shapes,
                Shape::ConvexPolygon {
                    points,
                    fill: with_opacity(color, opacity.times(style.body_alpha)),
                    stroke: Stroke { width: rim_width, color: with_opacity(hot, opacity.times(rim_alpha)) },
                },
            );
        },
    }
    proof {
        reveal(luminous_polygon);
        assert(views(shapes@) =~= views(old(shapes)@) + expected);
    }
}

/// A vertical line of the grid: brightest at the present.
pub open spec fn grid_column(rect: Rect, opacity: Binary32, division: int) -> ShapeView {
    let recency = whole(division as nat).quotient(whole(GRID_DIVISIONS as nat));
    let x = between(rect.min.x, rect.max.x, recency);
    let strength = if division == GRID_DIVISIONS {
        num(GRID_NOW_BITS)
    } else {
        num(GRID_FLOOR_BITS).sum(recency.product(num(GRID_FLOOR_BITS)))
    };
    ShapeView::LineSegment {
        start: Pos2 { x, y: rect.min.y },
        end: Pos2 { x, y: rect.max.y },
        stroke: Stroke { width: num(GRID_WIDTH_BITS), color: dimmed(grid_gray(), opacity.product(strength)) },
    }
}

/// A horizontal line of the grid.
pub open spec fn grid_row(rect: Rect, opacity: Binary32, division: int) -> ShapeView {
    let y = between(rect.min.y, rect.max.y, whole(division as nat).quotient(num(FOUR_BITS)));
    ShapeView::LineSegment {
        start: Pos2 { x: rect.min.x, y },
        end: Pos2 { x: rect.max.x, y },
        stroke: Stroke {
            width: num(GRID_ROW_WIDTH_BITS),
            color: dimmed(grid_gray(), opacity.product(num(GRID_ROW_ALPHA_BITS))),
        },
    }
}

/// The grid behind the traces.
pub open spec fn grid_shapes(rect: Rect, opacity: Binary32) -> Seq<ShapeView> {
    Seq::new((GRID_DIVISIONS + 1) as nat, |i: int| grid_column(rect, opacity, i)) + Seq::new(
        3,
        |i: int| grid_row(rect, opacity, i + 1),
    )
}

/// Adds the grid behind the traces.
pub fn build_grid(rect: &Rect, opacity: Binary32, shapes: &mut Vec<Shape>)
    ensures
        views(final(shapes)@) == views(old(shapes)@) + grid_shapes(*rect, opacity),
{
    let ghost grid = grid_shapes(*rect, opacity);
    let mut division: u64 = 0;
    proof {
        assert(views(shapes@) =~= views(old(shapes)@) + grid.take(0));
    }
    while division <= GRID_DIVISIONS
        invariant
            division <= GRID_DIVISIONS + 1,
            grid == grid_shapes(*rect, opacity),
            views(shapes@) == views(old(shapes)@) + grid.take(division as int),
        decreases GRID_DIVISIONS + 1 - division,
    {
        let recency = Binary32::from_u64(division).over(Binary32::from_u64(GRID_DIVISIONS));
        let x = lerp(rect.min.x, rect.max.x, recency);
        let strength = if division == GRID_DIVISIONS {
            number(GRID_NOW_BITS)
        } else {
            number(GRID_FLOOR_BITS).plus(recency.times(number(GRID_FLOOR_BITS)))
        };
        add_shape(
            shapes,
            Shape::LineSegment {
                start: Pos2 { x, y: rect.min.y },
                end: Pos2 { x, y: rect.max.y },
                stroke: Stroke {
                    width: number(GRID_WIDTH_BITS),
                    color: with_opacity(grid_gray_color(), opacity.times(strength)),
                },
            },
        );
        division = division + 1;
        proof {
            assert(views(shapes@) =~= views(old(shapes)@) + grid.take(division as int));
        }
    }
    let mut row: u64 = 1;
    while row < 4
        invariant
            1 <= row <= 4,
            grid == grid_shapes(*rect, opacity),
            views(shapes@) == views(old(shapes)@) + grid.take(row + 4),
        decreases 4 - row,
    {
        let y = lerp(rect.min.y, rect.max.y, Binary32::from_u64(row).over(number(FOUR_BITS)));
        add_shape(
            shapes,
            Shape::LineSegment {
                start: Pos2 { x: rect.min.x, y },
                end: Pos2 { x: rect.max.x, y },
                stroke: Stroke {
                    width: number(GRID_ROW_WIDTH_BITS),
                    color: with_opacity(grid_gray_color(), opacity.times(number(GRID_ROW_ALPHA_BITS))),
                },
            },
        );
        row = row + 1;
        proof {
            assert(views(shapes@) =~= views(old(shapes)@) + grid.take(row + 4));
        }
    }
    proof {
        assert(grid.take(8) =~= grid);
    }
}

} // verus!
