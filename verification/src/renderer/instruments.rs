//! Pedal meters, steering arc and shift lights.
use crate::arithmetic::{whole, HALF_BITS};
use crate::binary32::{num, number, Binary32, ONE_BITS, ZERO_BITS};
use crate::model::RevLights;
use crate::renderer::brake_limit::BrakeLimitFeedback;
use crate::renderer::color::{dimmed, mix_color, mixed, with_opacity, Color};
use crate::renderer::geometry::{Pos2, Rect, Vec2};
use crate::renderer::glow::{rect_glow, GlowBatchBuilder, GlowInstance};
use crate::renderer::hud_layout::{pedal_segment_geometry, segment_gap, segment_height};
use crate::renderer::palette::{
    idle_gray, idle_gray_color, lock_cyan, lock_cyan_color, lock_hot, lock_hot_color, rpm_high_colors,
    rpm_high_palette, rpm_low_colors, rpm_low_palette, steering_white, steering_white_color, white, white_color,
    ChannelPalette,
};
use crate::renderer::segments::{
    light_glow, light_shapes, luminous_polygon, luminous_shapes, push_additive_segment, push_luminous_segment,
    rect_halo, style_of, SegmentGeometry, SegmentState, ARC_CENTER_BITS, ARC_DEGREES_BITS, ARC_GAP_BITS,
    ARC_INNER_MIN_BITS, ARC_RADIUS_BITS, ARC_RADIUS_MIN_BITS, ARC_THICKNESS_BITS, ARC_THICKNESS_MAX_BITS,
    ARC_THICKNESS_MIN_BITS, BURN_WHITE_BITS, COVER_RANGE_BITS, COVER_START_BITS, INACTIVE_LED_BITS, LIGHT_GAP_BITS,
    LIGHT_HEIGHT_BITS, LIGHT_PLACE_BITS, LIGHT_ROUNDING_BITS, METER_ALPHA_BITS, METER_APPROACH_GAIN_BITS,
    METER_IDLE_ALPHA_BITS, METER_LOCK_ALPHA_BITS, METER_LOCK_GAIN_BITS, METER_LOCK_REACH_BITS, METER_SPREAD_BITS,
    PEDAL_SEGMENTS, PULSE_WHITE_BITS, RADIANS_PER_DEGREE_BITS, RPM_SEGMENTS, STEERING_SEGMENTS,
    STEERING_SEGMENTS_PER_SIDE, THREE_BITS, TWO_BITS, UPWARD_BITS, VISIBLE_BITS, WHITE_MAX_BITS,
};
use crate::renderer::canvas::{lemma_append, no_parts, HudParts};
use crate::renderer::shapes::{add_shape, views, Shape, ShapeView};
use vstd::prelude::*;

verus! {

/// What the lock-up detector contributes to a pedal meter.
pub struct MeterFeedback {
    pub approach_mix: Binary32,
    pub lock_fl: Binary32,
    pub lock_fr: Binary32,
    pub pulse: Binary32,
    pub burn: Binary32,
}

/// The levels of the feedback between zero and one, all zero without one.
pub open spec fn meter_feedback(feedback: Option<BrakeLimitFeedback>) -> MeterFeedback {
    match feedback {
        Some(value) => MeterFeedback {
            approach_mix: value.approach_mix.unit(),
            lock_fl: value.lock_fl.unit(),
            lock_fr: value.lock_fr.unit(),
            pulse: value.pulse.unit(),
            burn: value.burn.unit(),
        },
        None => MeterFeedback {
            approach_mix: num(ZERO_BITS),
            lock_fl: num(ZERO_BITS),
            lock_fr: num(ZERO_BITS),
            pulse: num(ZERO_BITS),
            burn: num(ZERO_BITS),
        },
    }
}

/// How much of a half turns cyan for a lock amount.
pub open spec fn lock_cover(value: Binary32) -> Binary32 {
    let t = value.difference(num(COVER_START_BITS)).quotient(num(COVER_RANGE_BITS)).unit();
    t.product(t).product(num(THREE_BITS).difference(num(TWO_BITS).product(t)))
}

fn cover_of(value: Binary32) -> (r: Binary32)
    ensures
        r == lock_cover(value),
{
    let t = value.minus(number(COVER_START_BITS)).over(number(COVER_RANGE_BITS)).clamp_unit();
    t.times(t).times(number(THREE_BITS).minus(number(TWO_BITS).times(t)))
}

/// The colours of the lit part of a pedal meter.
#[derive(Debug, Clone, Copy, PartialEq, Eq, Structural)]
pub struct MeterColors {
    /// The colour with the warning mixed in.
    pub base: Color,
    pub left: Color,
    pub right: Color,
    pub left_cover: Binary32,
    pub right_cover: Binary32,
    /// The stronger of both covers.
    pub glow: Binary32,
    pub approach_mix: Binary32,
}

/// The colours of the lit part of a pedal meter: a confirmed lock drives the
/// half of its wheel to cyan.
pub open spec fn meter_colors(palette: ChannelPalette, feedback: Option<BrakeLimitFeedback>) -> MeterColors {
    let levels = meter_feedback(feedback);
    let base = mixed(palette.body, lock_hot(), levels.approach_mix);
    let left_cover = lock_cover(levels.lock_fl);
    let right_cover = lock_cover(levels.lock_fr);
    let shine = levels.burn.product(num(BURN_WHITE_BITS)).sum(levels.pulse.product(num(PULSE_WHITE_BITS))).clamped(
        num(ZERO_BITS),
        num(WHITE_MAX_BITS),
    );
    MeterColors {
        base,
        left: mixed(mixed(base, lock_cyan(), left_cover), white(), shine),
        right: mixed(mixed(base, lock_cyan(), right_cover), white(), shine),
        left_cover,
        right_cover,
        glow: left_cover.larger(right_cover),
        approach_mix: levels.approach_mix,
    }
}

fn meter_colors_of(palette: &ChannelPalette, feedback: Option<BrakeLimitFeedback>) -> (r: MeterColors)
    ensures
        r == meter_colors(*palette, feedback),
{
    let zero = number(ZERO_BITS);
    let (approach_mix, lock_fl, lock_fr, pulse, burn) = match feedback {
        Some(value) => (
            value.approach_mix.clamp_unit(),
            value.lock_fl.clamp_unit(),
            value.lock_fr.clamp_unit(),
            value.pulse.clamp_unit(),
            value.burn.clamp_unit(),
        ),
        None => (zero, zero, zero, zero, zero),
    };
    let base = mix_color(palette.body, lock_hot_color(), approach_mix);
    let left_cover = cover_of(lock_fl);
    let right_cover = cover_of(lock_fr);
    let shine = burn.times(number(BURN_WHITE_BITS)).plus(pulse.times(number(PULSE_WHITE_BITS))).clamp(
        zero,
        number(WHITE_MAX_BITS),
    );
    let cyan = lock_cyan_color();
    MeterColors {
        base,
        left: mix_color(mix_color(base, cyan, left_cover), white_color(), shine),
        right: mix_color(mix_color(base, cyan, right_cover), white_color(), shine),
        left_cover,
        right_cover,
        glow: left_cover.max(right_cover),
        approach_mix,
    }
}

/// The number of lit segments for a level.
pub open spec fn lit_segments(level: Binary32, segments: nat) -> int {
    level.unit().product(whole(segments)).ceiling()
}

/// The segment of a pedal meter, counted from the bottom.
pub open spec fn meter_segment(rect: Rect, index: int) -> Rect {
    let height = segment_height(rect.span_y());
    let gap = segment_gap(rect.span_y());
    Rect::sized(
        (Pos2 {
            x: rect.min.x,
            y: rect.max.y.difference(whole((index + 1) as nat).product(height)).difference(
                whole(index as nat).product(gap),
            ),
        }),
        (Vec2 { x: rect.span_x(), y: height }),
    )
}

/// The painted shapes of a lit segment: the base, and the halves of locked
/// wheels over it.
pub open spec fn lit_segment_shapes(segment: Rect, colors: MeterColors, opacity: Binary32) -> Seq<ShapeView> {
    let middle = segment.middle().x;
    let base = seq![
        ShapeView::RectFilled {
            rect: segment,
            rounding: num(ONE_BITS),
            fill: dimmed(colors.base, opacity.product(num(METER_ALPHA_BITS))),
        },
    ];
    let with_left = if num(VISIBLE_BITS).below(colors.left_cover) {
        base.push(
            ShapeView::RectFilled {
                rect: Rect { min: segment.min, max: Pos2 { x: middle, y: segment.max.y } },
                rounding: num(ZERO_BITS),
                fill: dimmed(colors.left, opacity),
            },
        )
    } else {
        base
    };
    if num(VISIBLE_BITS).below(colors.right_cover) {
        with_left.push(
            ShapeView::RectFilled {
                rect: Rect { min: Pos2 { x: middle, y: segment.min.y }, max: segment.max },
                rounding: num(ZERO_BITS),
                fill: dimmed(colors.right, opacity),
            },
        )
    } else {
        with_left
    }
}

/// The painted shapes of the segment at `index`.
#[verifier::opaque]
pub open spec fn segment_shapes(
    rect: Rect,
    active_count: int,
    colors: MeterColors,
    opacity: Binary32,
    index: int,
) -> Seq<ShapeView> {
    let segment = meter_segment(rect, index);
    if index < active_count {
        lit_segment_shapes(segment, colors, opacity)
    } else {
        seq![
            ShapeView::RectFilled {
                rect: segment,
                rounding: num(ONE_BITS),
                fill: dimmed(idle_gray(), opacity.product(num(METER_IDLE_ALPHA_BITS))),
            },
        ]
    }
}

/// The painted glow of the segment at `index`: only of a locked one.
#[verifier::opaque]
pub open spec fn segment_halo(
    rect: Rect,
    active_count: int,
    colors: MeterColors,
    opacity: Binary32,
    index: int,
) -> Seq<ShapeView> {
    if index < active_count && num(VISIBLE_BITS).below(colors.glow) {
        seq![
            ShapeView::RectFilled {
                rect: meter_segment(rect, index).expanded(num(METER_LOCK_REACH_BITS)),
                rounding: num(TWO_BITS),
                fill: dimmed(
                    lock_cyan(),
                    opacity.product(colors.glow).product(num(METER_LOCK_ALPHA_BITS)),
                ),
            },
        ]
    } else {
        Seq::empty()
    }
}

/// The emission of the segment at `index`: cyan in a lock, a faint orange
/// before one.
#[verifier::opaque]
pub open spec fn segment_glow(
    origin: Pos2,
    viewport: Vec2,
    rect: Rect,
    active_count: int,
    colors: MeterColors,
    opacity: Binary32,
    index: int,
) -> Seq<GlowInstance> {
    let segment = meter_segment(rect, index);
    let spread = num(METER_SPREAD_BITS);
    if index >= active_count {
        Seq::empty()
    } else if num(VISIBLE_BITS).below(colors.glow) {
        seq![
            rect_glow(
                origin,
                viewport,
                segment,
                spread,
                lock_cyan(),
                opacity.product(colors.glow).product(num(METER_LOCK_GAIN_BITS)),
            ),
        ]
    } else if num(VISIBLE_BITS).below(colors.approach_mix) {
        seq![
            rect_glow(
                origin,
                viewport,
                segment,
                spread,
                lock_hot(),
                opacity.product(colors.approach_mix).product(num(METER_APPROACH_GAIN_BITS)),
            ),
        ]
    } else {
        Seq::empty()
    }
}

/// The painted shapes of the first segments of a pedal meter.
pub open spec fn meter_shapes(
    rect: Rect,
    active_count: int,
    colors: MeterColors,
    opacity: Binary32,
    count: int,
) -> Seq<ShapeView>
    decreases count,
{
    if count <= 0 {
        Seq::empty()
    } else {
        meter_shapes(rect, active_count, colors, opacity, count - 1) + segment_shapes(
            rect,
            active_count,
            colors,
            opacity,
            count - 1,
        )
    }
}

/// The painted glow of the first segments of a pedal meter.
pub open spec fn meter_halo(
    rect: Rect,
    active_count: int,
    colors: MeterColors,
    opacity: Binary32,
    count: int,
) -> Seq<ShapeView>
    decreases count,
{
    if count <= 0 {
        Seq::empty()
    } else {
        meter_halo(rect, active_count, colors, opacity, count - 1) + segment_halo(
            rect,
            active_count,
            colors,
            opacity,
            count - 1,
        )
    }
}

/// The emission of the first segments of a pedal meter.
pub open spec fn meter_glow(
    origin: Pos2,
    viewport: Vec2,
    rect: Rect,
    active_count: int,
    colors: MeterColors,
    opacity: Binary32,
    count: int,
) -> Seq<GlowInstance>
    decreases count,
{
    if count <= 0 {
        Seq::empty()
    } else {
        meter_glow(origin, viewport, rect, active_count, colors, opacity, count - 1) + segment_glow(
            origin,
            viewport,
            rect,
            active_count,
            colors,
            opacity,
            count - 1,
        )
    }
}

fn push_lit_segment(segment: &Rect, colors: &MeterColors, opacity: Binary32, shapes: &mut Vec<Shape>)
    ensures
        views(final(shapes)@) == views(old(shapes)@) + lit_segment_shapes(*segment, *colors, opacity),
{
    let middle = segment.center().x;
    add_shape(
        shapes,
        Shape::RectFilled {
            rect: *segment,
            rounding: number(ONE_BITS),
            fill: with_opacity(colors.base, opacity.times(number(METER_ALPHA_BITS))),
        },
    );
    if number(VISIBLE_BITS).lt(colors.left_cover) {
        add_shape(
            shapes,
            Shape::RectFilled {
                rect: Rect { min: segment.min, max: Pos2 { x: middle, y: segment.max.y } },
                rounding: number(ZERO_BITS),
                fill: with_opacity(colors.left, opacity),
            },
        );
    }
    if number(VISIBLE_BITS).lt(colors.right_cover) {
        add_shape(
            shapes,
            Shape::RectFilled {
                rect: Rect { min: Pos2 { x: middle, y: segment.min.y }, max: segment.max },
                rounding: number(ZERO_BITS),
                fill: with_opacity(colors.right, opacity),
            },
        );
    }
    proof {
        assert(views(shapes@) =~= views(old(shapes)@) + lit_segment_shapes(*segment, *colors, opacity));
    }
}

/// What a pedal meter adds, or nothing without a level.
pub open spec fn meter_parts(
    origin: Pos2,
    viewport: Vec2,
    rect: Rect,
    level: Option<Binary32>,
    palette: ChannelPalette,
    feedback: Option<BrakeLimitFeedback>,
    opacity: Binary32,
) -> HudParts {
    match level {
        None => no_parts(),
        Some(level) => {
            let active_count = lit_segments(level, PEDAL_SEGMENTS as nat);
            let colors = meter_colors(palette, feedback);
            let count = PEDAL_SEGMENTS as int;
            HudParts {
                sharp: meter_shapes(rect, active_count, colors, opacity, count),
                fallback: meter_halo(rect, active_count, colors, opacity, count),
                glow: meter_glow(origin, viewport, rect, active_count, colors, opacity, count),
            }
        },
    }
}

/// Adds the segment of a pedal meter at `index`.
fn push_meter_segment(
    rect: &Rect,
    index: usize,
    active_count: u64,
    colors: &MeterColors,
    opacity: Binary32,
    sharp_shapes: &mut Vec<Shape>,
    fallback_emission_shapes: &mut Vec<Shape>,
    glow: &mut GlowBatchBuilder,
)
    requires
        index < PEDAL_SEGMENTS,
    ensures
        views(final(sharp_shapes)@) == views(old(sharp_shapes)@) + segment_shapes(
            *rect,
            active_count as int,
            *colors,
            opacity,
            index as int,
        ),
        views(final(fallback_emission_shapes)@) == views(old(fallback_emission_shapes)@) + segment_halo(
            *rect,
            active_count as int,
            *colors,
            opacity,
            index as int,
        ),
        final(glow).same_mesh(*old(glow)),
        final(glow).instances@ == old(glow).instances@ + segment_glow(
            old(glow).origin,
            old(glow).viewport_size,
            *rect,
            active_count as int,
            *colors,
            opacity,
            index as int,
        ),
{
    let (gap, height) = pedal_segment_geometry(rect.height());
    let visible = number(VISIBLE_BITS);
    let spread = number(METER_SPREAD_BITS);
    let y = rect.max.y.minus(Binary32::from_u64(index as u64 + 1).times(height)).minus(
        Binary32::from_u64(index as u64).times(gap),
    );
    let segment = Rect::from_min_size(Pos2 { x: rect.min.x, y }, Vec2 { x: rect.width(), y: height });
    if (index as u64) < active_count {
        push_lit_segment(&segment, colors, opacity, sharp_shapes);
        if visible.lt(colors.glow) {
            glow.rounded_rect(
                segment,
                spread,
                lock_cyan_color(),
                opacity.times(colors.glow).times(number(METER_LOCK_GAIN_BITS)),
            );
            add_shape(
                fallback_emission_shapes,
                Shape::RectFilled {
                    rect: segment.expand(number(METER_LOCK_REACH_BITS)),
                    rounding: number(TWO_BITS),
                    fill: with_opacity(
                        lock_cyan_color(),
                        opacity.times(colors.glow).times(number(METER_LOCK_ALPHA_BITS)),
                    ),
                },
            );
        } else if visible.lt(colors.approach_mix) {
            glow.rounded_rect(
                segment,
                spread,
                lock_hot_color(),
                opacity.times(colors.approach_mix).times(number(METER_APPROACH_GAIN_BITS)),
            );
        }
    } else {
        add_shape(
            sharp_shapes,
            Shape::RectFilled {
                rect: segment,
                rounding: number(ONE_BITS),
                fill: with_opacity(idle_gray_color(), opacity.times(number(METER_IDLE_ALPHA_BITS))),
            },
        );
    }
    proof {
        reveal(segment_shapes);
        reveal(segment_halo);
        reveal(segment_glow);
        assert(views(sharp_shapes@) =~= views(old(sharp_shapes)@) + segment_shapes(
            *rect,
            active_count as int,
            *colors,
            opacity,
            index as int,
        ));
        assert(views(fallback_emission_shapes@) =~= views(old(fallback_emission_shapes)@) + segment_halo(
            *rect,
            active_count as int,
            *colors,
            opacity,
            index as int,
        ));
        assert(glow.instances@ =~= old(glow).instances@ + segment_glow(
            old(glow).origin,
            old(glow).viewport_size,
            *rect,
            active_count as int,
            *colors,
            opacity,
            index as int,
        ));
    }
}

/// Adds a pedal meter.
pub fn build_pedal_meter(
    rect: &Rect,
    level: Option<Binary32>,
    palette: &ChannelPalette,
    feedback: Option<BrakeLimitFeedback>,
    opacity: Binary32,
    sharp_shapes: &mut Vec<Shape>,
    fallback_emission_shapes: &mut Vec<Shape>,
    glow: &mut GlowBatchBuilder,
)
    ensures
        ({
            let parts = meter_parts(
                old(glow).origin,
                old(glow).viewport_size,
                *rect,
                level,
                *palette,
                feedback,
                opacity,
            );
            &&& views(final(sharp_shapes)@) == views(old(sharp_shapes)@) + parts.sharp
            &&& views(final(fallback_emission_shapes)@) == views(old(fallback_emission_shapes)@) + parts.fallback
            &&& final(glow).same_mesh(*old(glow))
            &&& final(glow).instances@ == old(glow).instances@ + parts.glow
        }),
{
    proof {
        lemma_append(views(sharp_shapes@), Seq::empty(), Seq::empty());
        lemma_append(views(fallback_emission_shapes@), Seq::empty(), Seq::empty());
        lemma_append(glow.instances@, Seq::empty(), Seq::empty());
    }
    let level = match level {
        Some(level) => level,
        None => {
            return;
        },
    };
    let active_count: u64 = level.clamp_unit().times(Binary32::from_u64(PEDAL_SEGMENTS as u64)).ceil_to_u64();
    let colors = meter_colors_of(palette, feedback);
    let ghost active = active_count as int;
    let ghost origin = glow.origin;
    let ghost viewport = glow.viewport_size;
    let mut index: usize = 0;
    while index < PEDAL_SEGMENTS
        invariant
            index <= PEDAL_SEGMENTS,
            active == active_count,
            origin == glow.origin,
            viewport == glow.viewport_size,
            glow.same_mesh(*old(glow)),
            views(sharp_shapes@) == views(old(sharp_shapes)@) + meter_shapes(
                *rect,
                active,
                colors,
                opacity,
                index as int,
            ),
            views(fallback_emission_shapes@) == views(old(fallback_emission_shapes)@) + meter_halo(
                *rect,
                active,
                colors,
                opacity,
                index as int,
            ),
            glow.instances@ == old(glow).instances@ + meter_glow(
                origin,
                viewport,
                *rect,
                active,
                colors,
                opacity,
                index as int,
            ),
        decreases PEDAL_SEGMENTS - index,
    {
        push_meter_segment(
            rect,
            index,
            active_count,
            &colors,
            opacity,
            sharp_shapes,
            fallback_emission_shapes,
            glow,
        );
        proof {
            let i = index as int;
            lemma_append(
                views(old(sharp_shapes)@),
                meter_shapes(*rect, active, colors, opacity, i),
                segment_shapes(*rect, active, colors, opacity, i),
            );
            lemma_append(
                views(old(fallback_emission_shapes)@),
                meter_halo(*rect, active, colors, opacity, i),
                segment_halo(*rect, active, colors, opacity, i),
            );
            lemma_append(
                old(glow).instances@,
                meter_glow(origin, viewport, *rect, active, colors, opacity, i),
                segment_glow(origin, viewport, *rect, active, colors, opacity, i),
            );
        }
        index = index + 1;
    }
}

/// How the segment of the steering arc at `index` is lit: the central one
/// always, those on the side of the steering up to its level, and the
/// outermost of them brightest.
pub open spec fn arc_state(steering: Binary32, index: int) -> SegmentState {
    let center = STEERING_SEGMENTS_PER_SIDE as int;
    let active_count = lit_segments(steering.absolute(), STEERING_SEGMENTS_PER_SIDE as nat);
    let left = steering.below(num(ZERO_BITS));
    let right = num(ZERO_BITS).below(steering);
    let distance = if left {
        center - index
    } else {
        index - center
    };
    if index == center {
        SegmentState::Center
    } else if (left || right) && 0 < distance == active_count {
        SegmentState::Edge
    } else if 0 < distance <= active_count {
        SegmentState::Active
    } else {
        SegmentState::Inactive
    }
}

/// The cosines and sines at the two ends of a segment of the arc.
#[derive(Debug, Clone, Copy, PartialEq, Eq, Structural)]
pub struct ArcEdges {
    pub min_cos: Binary32,
    pub min_sin: Binary32,
    pub max_cos: Binary32,
    pub max_sin: Binary32,
}

/// The extent of the arc in radians.
pub open spec fn arc_extent() -> Binary32 {
    num(ARC_DEGREES_BITS).product(num(RADIANS_PER_DEGREE_BITS))
}

/// The angle between the starts of two neighbouring segments.
pub open spec fn arc_step() -> Binary32 {
    arc_extent().quotient(whole(STEERING_SEGMENTS as nat))
}

/// The angle at which the arc starts.
pub open spec fn arc_start() -> Binary32 {
    num(UPWARD_BITS).difference(arc_extent().product(num(HALF_BITS)))
}

/// The angles between which the segment at `index` extends.
pub open spec fn arc_angles_at(index: int) -> (Binary32, Binary32) {
    let half_gap = arc_step().product(num(ARC_GAP_BITS)).product(num(HALF_BITS));
    (
        arc_start().sum(whole(index as nat).product(arc_step())).sum(half_gap),
        arc_start().sum(whole((index + 1) as nat).product(arc_step())).difference(half_gap),
    )
}

/// The angles between which each segment of the steering arc extends.
pub fn arc_angles() -> (r: Vec<(Binary32, Binary32)>)
    ensures
        r@.len() == STEERING_SEGMENTS,
        forall|i: int| 0 <= i < STEERING_SEGMENTS ==> #[trigger] r@[i] == arc_angles_at(i),
{
    let extent = number(ARC_DEGREES_BITS).times(number(RADIANS_PER_DEGREE_BITS));
    let half = number(HALF_BITS);
    let start = number(UPWARD_BITS).minus(extent.times(half));
    let step = extent.over(Binary32::from_u64(STEERING_SEGMENTS as u64));
    let half_gap = step.times(number(ARC_GAP_BITS)).times(half);
    let mut angles: Vec<(Binary32, Binary32)> = Vec::new();
    let mut index: usize = 0;
    while index < STEERING_SEGMENTS
        invariant
            index <= STEERING_SEGMENTS,
            start == arc_start(),
            step == arc_step(),
            half_gap == arc_step().product(num(ARC_GAP_BITS)).product(num(HALF_BITS)),
            angles@.len() == index,
            forall|i: int| 0 <= i < index ==> #[trigger] angles@[i] == arc_angles_at(i),
        decreases STEERING_SEGMENTS - index,
    {
        let min = start.plus(Binary32::from_u64(index as u64).times(step)).plus(half_gap);
        let max = start.plus(Binary32::from_u64(index as u64 + 1).times(step)).minus(half_gap);
        angles.push((min, max));
        index = index + 1;
    }
    angles
}

/// The outer radius of the steering arc.
pub open spec fn arc_outer(rect: Rect) -> Binary32 {
    rect.span_x().product(num(ARC_RADIUS_BITS)).larger(num(ARC_RADIUS_MIN_BITS))
}

/// The inner radius of the steering arc.
pub open spec fn arc_inner(rect: Rect) -> Binary32 {
    arc_outer(rect).difference(
        arc_outer(rect).product(num(ARC_THICKNESS_BITS)).clamped(
            num(ARC_THICKNESS_MIN_BITS),
            num(ARC_THICKNESS_MAX_BITS),
        ),
    ).larger(num(ARC_INNER_MIN_BITS))
}

/// The center of the steering arc.
pub open spec fn arc_center(rect: Rect) -> Pos2 {
    Pos2 { x: rect.middle().x, y: rect.min.y.sum(rect.span_y().product(num(ARC_CENTER_BITS))) }
}

/// The point at a distance from a center, in a direction.
pub open spec fn polar(center: Pos2, radius: Binary32, cos: Binary32, sin: Binary32) -> Pos2 {
    Pos2 { x: center.x.sum(radius.product(cos)), y: center.y.sum(radius.product(sin)) }
}

fn polar_of(center: Pos2, radius: Binary32, cos: Binary32, sin: Binary32) -> (r: Pos2)
    ensures
        r == polar(center, radius, cos, sin),
{
    Pos2 { x: center.x.plus(radius.times(cos)), y: center.y.plus(radius.times(sin)) }
}

/// The corners of a segment of an arc.
pub open spec fn arc_corners(center: Pos2, inner: Binary32, outer: Binary32, edges: ArcEdges) -> Seq<Pos2> {
    seq![
        polar(center, inner, edges.min_cos, edges.min_sin),
        polar(center, outer, edges.min_cos, edges.min_sin),
        polar(center, outer, edges.max_cos, edges.max_sin),
        polar(center, inner, edges.max_cos, edges.max_sin),
    ]
}

/// The corners of a segment of an arc.
pub fn arc_segment(center: Pos2, inner: Binary32, outer: Binary32, edges: &ArcEdges) -> (r: Vec<Pos2>)
    ensures
        r@ == arc_corners(center, inner, outer, *edges),
{
    let mut corners: Vec<Pos2> = Vec::new();
    corners.push(polar_of(center, inner, edges.min_cos, edges.min_sin));
    corners.push(polar_of(center, outer, edges.min_cos, edges.min_sin));
    corners.push(polar_of(center, outer, edges.max_cos, edges.max_sin));
    corners.push(polar_of(center, inner, edges.max_cos, edges.max_sin));
    proof {
        assert(corners@ =~= arc_corners(center, inner, outer, *edges));
    }
    corners
}

/// The shapes of the first segments of the steering arc.
pub open spec fn arc_shapes(
    rect: Rect,
    steering: Binary32,
    edges: Seq<ArcEdges>,
    opacity: Binary32,
    count: int,
) -> Seq<ShapeView>
    decreases count,
{
    if count <= 0 {
        Seq::empty()
    } else {
        arc_shapes(rect, steering, edges, opacity, count - 1) + luminous_polygon(
            arc_corners(arc_center(rect), arc_inner(rect), arc_outer(rect), edges[count - 1]),
            steering_white(),
            arc_state(steering, count - 1),
            opacity,
        )
    }
}

/// The steering arc, or nothing without a steering input.
pub open spec fn steering_shapes(
    rect: Rect,
    steering: Option<Binary32>,
    edges: Seq<ArcEdges>,
    opacity: Binary32,
) -> Seq<ShapeView> {
    match steering {
        Some(steering) => arc_shapes(rect, steering, edges, opacity, STEERING_SEGMENTS as int),
        None => Seq::empty(),
    }
}

fn arc_state_of(steering: Binary32, active_count: u64, index: usize) -> (r: SegmentState)
    requires
        active_count == lit_segments(steering.absolute(), STEERING_SEGMENTS_PER_SIDE as nat),
        index < STEERING_SEGMENTS,
    ensures
        r == arc_state(steering, index as int),
{
    let zero = number(ZERO_BITS);
    let left = steering.lt(zero);
    let right = zero.lt(steering);
    if index == STEERING_SEGMENTS_PER_SIDE {
        return SegmentState::Center;
    }
    let on_side: bool = if left {
        index < STEERING_SEGMENTS_PER_SIDE
    } else {
        index > STEERING_SEGMENTS_PER_SIDE
    };
    if !on_side {
        return SegmentState::Inactive;
    }
    let distance: u64 = if index < STEERING_SEGMENTS_PER_SIDE {
        (STEERING_SEGMENTS_PER_SIDE - index) as u64
    } else {
        (index - STEERING_SEGMENTS_PER_SIDE) as u64
    };
    if (left || right) && distance == active_count {
        SegmentState::Edge
    } else if distance <= active_count {
        SegmentState::Active
    } else {
        SegmentState::Inactive
    }
}

/// Adds the steering arc. `edges` holds the cosines and sines of the angles of
/// [`arc_angles`].
pub fn build_steering_arc(
    rect: &Rect,
    steering: Option<Binary32>,
    edges: &Vec<ArcEdges>,
    opacity: Binary32,
    shapes: &mut Vec<Shape>,
)
    requires
        edges@.len() == STEERING_SEGMENTS,
    ensures
        views(final(shapes)@) == views(old(shapes)@) + steering_shapes(*rect, steering, edges@, opacity),
{
    let steering = match steering {
        Some(steering) => steering,
        None => {
            proof {
                assert(views(shapes@) =~= views(shapes@) + Seq::empty());
            }
            return;
        },
    };
    let center = Pos2 { x: rect.center().x, y: rect.min.y.plus(rect.height().times(number(ARC_CENTER_BITS))) };
    let outer = rect.width().times(number(ARC_RADIUS_BITS)).max(number(ARC_RADIUS_MIN_BITS));
    let thickness = outer.times(number(ARC_THICKNESS_BITS)).clamp(
        number(ARC_THICKNESS_MIN_BITS),
        number(ARC_THICKNESS_MAX_BITS),
    );
    let inner = outer.minus(thickness).max(number(ARC_INNER_MIN_BITS));
    let side = Binary32::from_u64(STEERING_SEGMENTS_PER_SIDE as u64);
    let active_count: u64 = steering.abs().clamp_unit().times(side).ceil_to_u64();
    let mut index: usize = 0;
    proof {
        assert(views(shapes@) =~= views(old(shapes)@) + Seq::empty());
    }
    while index < STEERING_SEGMENTS
        invariant
            index <= STEERING_SEGMENTS,
            edges@.len() == STEERING_SEGMENTS,
            center == arc_center(*rect),
            outer == arc_outer(*rect),
            inner == arc_inner(*rect),
            active_count == lit_segments(steering.absolute(), STEERING_SEGMENTS_PER_SIDE as nat),
            views(shapes@) == views(old(shapes)@) + arc_shapes(*rect, steering, edges@, opacity, index as int),
        decreases STEERING_SEGMENTS - index,
    {
        let state = arc_state_of(steering, active_count, index);
        let corners = arc_segment(center, inner, outer, &edges[index]);
        let ghost points = corners@;
        let geometry = SegmentGeometry::Polygon(corners);
        assert(luminous_shapes(geometry, steering_white(), state, opacity) == luminous_polygon(
            points,
            steering_white(),
            state,
            opacity,
        ));
        push_luminous_segment(shapes, geometry, steering_white_color(), state, opacity);
        index = index + 1;
        proof {
            assert(views(shapes@) =~= views(old(shapes)@) + arc_shapes(*rect, steering, edges@, opacity, index as int));
        }
    }
}

/// Whether the shift light at `index` is on.
pub open spec fn light_on(lights: RevLights, index: int) -> bool {
    lights.bit_value & (1u16 << (index as u16)) != 0
}

/// Whether the shift light at `index` is the highest one that is on.
pub open spec fn highest_light(lights: RevLights, index: int) -> bool {
    light_on(lights, index) && forall|j: int| index < j < RPM_SEGMENTS ==> !#[trigger] light_on(lights, j)
}

/// How the shift light at `index` is lit.
pub open spec fn light_state(lights: RevLights, index: int) -> SegmentState {
    if highest_light(lights, index) {
        SegmentState::Edge
    } else if light_on(lights, index) {
        SegmentState::Active
    } else {
        SegmentState::Inactive
    }
}

/// The colours of the shift light at `index`: the last third differs.
pub open spec fn light_palette(index: int) -> ChannelPalette {
    if index < 10 {
        rpm_low_colors()
    } else {
        rpm_high_colors()
    }
}

/// The place of the shift light at `index`.
pub open spec fn light_rect(rect: Rect, index: int) -> Rect {
    let gap = num(LIGHT_GAP_BITS);
    let width = rect.span_x().difference(gap.product(whole((RPM_SEGMENTS - 1) as nat))).quotient(
        whole(RPM_SEGMENTS as nat),
    );
    Rect::sized(
        (Pos2 {
            x: rect.min.x.sum(whole(index as nat).product(width.sum(gap))),
            y: rect.min.y.sum(rect.span_y().product(num(LIGHT_PLACE_BITS))),
        }),
        (Vec2 { x: width.larger(num(ONE_BITS)), y: num(LIGHT_HEIGHT_BITS) }),
    )
}

/// What the first shift lights add.
pub open spec fn lights_parts(
    origin: Pos2,
    viewport: Vec2,
    rect: Rect,
    lights: RevLights,
    opacity: Binary32,
    count: int,
) -> HudParts
    decreases count,
{
    if count <= 0 {
        no_parts()
    } else {
        let earlier = lights_parts(origin, viewport, rect, lights, opacity, count - 1);
        let segment = light_rect(rect, count - 1);
        let state = light_state(lights, count - 1);
        let palette = light_palette(count - 1);
        let rounding = num(LIGHT_ROUNDING_BITS);
        HudParts {
            sharp: earlier.sharp + light_shapes(segment, rounding, palette.body, state, opacity),
            fallback: earlier.fallback + rect_halo(
                segment,
                rounding,
                style_of(state, num(INACTIVE_LED_BITS)),
                palette.emission,
                opacity,
            ),
            glow: earlier.glow + light_glow(origin, viewport, segment, palette.emission, state, opacity),
        }
    }
}

/// What the shift lights add, or nothing without them.
pub open spec fn rev_parts(
    origin: Pos2,
    viewport: Vec2,
    rect: Rect,
    lights: Option<RevLights>,
    opacity: Binary32,
) -> HudParts {
    match lights {
        Some(lights) => lights_parts(origin, viewport, rect, lights, opacity, RPM_SEGMENTS as int),
        None => no_parts(),
    }
}

fn is_light_on(lights: &RevLights, index: usize) -> (r: bool)
    requires
        index < RPM_SEGMENTS,
    ensures
        r == light_on(*lights, index as int),
{
    lights.bit_value & (1u16 << (index as u16)) != 0
}

/// How the shift light at `index` is lit.
pub fn rev_light_state(lights: &RevLights, index: usize) -> (r: SegmentState)
    requires
        index < RPM_SEGMENTS,
    ensures
        r == light_state(*lights, index as int),
{
    if !is_light_on(lights, index) {
        return SegmentState::Inactive;
    }
    let mut above: usize = index + 1;
    while above < RPM_SEGMENTS
        invariant
            index < above <= RPM_SEGMENTS,
            light_on(*lights, index as int),
            forall|j: int| index < j < above ==> !#[trigger] light_on(*lights, j),
        decreases RPM_SEGMENTS - above,
    {
        if is_light_on(lights, above) {
            return SegmentState::Active;
        }
        above = above + 1;
    }
    SegmentState::Edge
}

/// Adds the shift lights.
pub fn build_rev_lights(
    rect: &Rect,
    rev_lights: Option<RevLights>,
    opacity: Binary32,
    sharp_shapes: &mut Vec<Shape>,
    fallback_emission_shapes: &mut Vec<Shape>,
    glow: &mut GlowBatchBuilder,
)
    ensures
        ({
            let parts = rev_parts(old(glow).origin, old(glow).viewport_size, *rect, rev_lights, opacity);
            &&& views(final(sharp_shapes)@) == views(old(sharp_shapes)@) + parts.sharp
            &&& views(final(fallback_emission_shapes)@) == views(old(fallback_emission_shapes)@) + parts.fallback
            &&& final(glow).same_mesh(*old(glow))
            &&& final(glow).instances@ == old(glow).instances@ + parts.glow
        }),
{
    let lights = match rev_lights {
        Some(lights) => lights,
        None => {
            proof {
                assert(views(sharp_shapes@) =~= views(sharp_shapes@) + Seq::empty());
                assert(views(fallback_emission_shapes@) =~= views(fallback_emission_shapes@) + Seq::empty());
                assert(glow.instances@ =~= glow.instances@ + Seq::empty());
            }
            return;
        },
    };
    let gap = number(LIGHT_GAP_BITS);
    let width = rect.width().minus(gap.times(Binary32::from_u64(RPM_SEGMENTS as u64 - 1))).over(
        Binary32::from_u64(RPM_SEGMENTS as u64),
    );
    let y = rect.min.y.plus(rect.height().times(number(LIGHT_PLACE_BITS)));
    let rounding = number(LIGHT_ROUNDING_BITS);
    let ghost origin = glow.origin;
    let ghost viewport = glow.viewport_size;
    let mut index: usize = 0;
    proof {
        assert(views(sharp_shapes@) =~= views(old(sharp_shapes)@) + Seq::empty());
        assert(views(fallback_emission_shapes@) =~= views(old(fallback_emission_shapes)@) + Seq::empty());
        assert(glow.instances@ =~= old(glow).instances@ + Seq::empty());
    }
    while index < RPM_SEGMENTS
        invariant
            index <= RPM_SEGMENTS,
            gap == num(LIGHT_GAP_BITS),
            width == rect.span_x().difference(gap.product(whole((RPM_SEGMENTS - 1) as nat))).quotient(
                whole(RPM_SEGMENTS as nat),
            ),
            y == rect.min.y.sum(rect.span_y().product(num(LIGHT_PLACE_BITS))),
            rounding == num(LIGHT_ROUNDING_BITS),
            origin == glow.origin,
            viewport == glow.viewport_size,
            glow.same_mesh(*old(glow)),
            views(sharp_shapes@) == views(old(sharp_shapes)@) + lights_parts(
                origin,
                viewport,
                *rect,
                lights,
                opacity,
                index as int,
            ).sharp,
            views(fallback_emission_shapes@) == views(old(fallback_emission_shapes)@) + lights_parts(
                origin,
                viewport,
                *rect,
                lights,
                opacity,
                index as int,
            ).fallback,
            glow.instances@ == old(glow).instances@ + lights_parts(
                origin,
                viewport,
                *rect,
                lights,
                opacity,
                index as int,
            ).glow,
        decreases RPM_SEGMENTS - index,
    {
        let x = rect.min.x.plus(Binary32::from_u64(index as u64).times(width.plus(gap)));
        let segment = Rect::from_min_size(
            Pos2 { x, y },
            Vec2 { x: width.max(number(ONE_BITS)), y: number(LIGHT_HEIGHT_BITS) },
        );
        let palette = if index < 10 {
            rpm_low_palette()
        } else {
            rpm_high_palette()
        };
        let state = rev_light_state(&lights, index);
        push_additive_segment(
            sharp_shapes,
            fallback_emission_shapes,
            glow,
            segment,
            rounding,
            palette.emission,
            palette.body,
            state,
            opacity,
        );
        proof {
            let i = index as int;
            let earlier = lights_parts(origin, viewport, *rect, lights, opacity, i);
            lemma_append(
                views(old(sharp_shapes)@),
                earlier.sharp,
                light_shapes(segment, rounding, palette.body, state, opacity),
            );
            lemma_append(
                views(old(fallback_emission_shapes)@),
                earlier.fallback,
                rect_halo(segment, rounding, style_of(state, num(INACTIVE_LED_BITS)), palette.emission, opacity),
            );
            lemma_append(
                old(glow).instances@,
                earlier.glow,
                light_glow(origin, viewport, segment, palette.emission, state, opacity),
            );
        }
        index = index + 1;
    }
}

/// The steering arc lights up on the side of the steering only, its central
/// segment always, and at most one segment as the edge.
pub proof fn law_arc_lights_one_side(steering: Binary32, i: int, j: int)
    requires
        0 <= i < STEERING_SEGMENTS,
        0 <= j < STEERING_SEGMENTS,
    ensures
        arc_state(steering, STEERING_SEGMENTS_PER_SIDE as int) == SegmentState::Center,
        steering.below(num(ZERO_BITS)) && i > STEERING_SEGMENTS_PER_SIDE ==> arc_state(steering, i)
            == SegmentState::Inactive,
        num(ZERO_BITS).below(steering) && i < STEERING_SEGMENTS_PER_SIDE ==> arc_state(steering, i)
            == SegmentState::Inactive,
        arc_state(steering, i) == SegmentState::Edge && arc_state(steering, j) == SegmentState::Edge ==> i == j,
{
}

/// At most one shift light is the edge, no light that is off is lit, and every
/// light that is on is lit.
pub proof fn law_shift_lights_follow_their_bits(lights: RevLights, i: int, j: int)
    requires
        0 <= i < RPM_SEGMENTS,
        0 <= j < RPM_SEGMENTS,
    ensures
        light_state(lights, i).lit() <==> light_on(lights, i),
        light_state(lights, i) == SegmentState::Edge && light_state(lights, j) == SegmentState::Edge ==> i == j,
{
    if i < j {
        assert(highest_light(lights, i) ==> !light_on(lights, j));
    } else if j < i {
        assert(highest_light(lights, j) ==> !light_on(lights, i));
    }
}

} // verus!
