//! How single marks, lights and lines are painted.
use crate::arithmetic::whole;
use crate::binary32::{num, Binary32, ONE_BITS, ZERO_BITS};
use crate::direction::lemma_length;
use crate::model::{idle_vehicle, TelemetryPoint};
use crate::plugins::{CollectorSettings, GameConfig, ProviderConfig};
use crate::renderer::color::{dimmed, opaque, Color};
use crate::renderer::geometry::{equal_numbers, Pos2, Rect, Vec2};
use crate::renderer::history::counts_as_lock;
use crate::renderer::instruments::{light_rect, meter_segment, segment_glow, segment_halo, segment_shapes, MeterColors};
use crate::renderer::line_laws::{goes_on, lemma_turned_quotient};
use crate::renderer::overlay::{half_lock_of, is_active, RuntimeCounters};
use crate::renderer::segments::{light_glow, light_shapes, luminous_polygon, SegmentState};
use crate::renderer::stroke::{
    column_indices, incoming, outgoing, projection_mesh, strip_normal, unit_vector, PrimaryStrokeSample,
};
use crate::renderer::track_strip::{
    column_peak, columns_of, ghost_column, ghost_line, ghost_lines, live_lines, point_lines, LapPoint, StripChannel,
    StripStyle, TrackStripCache,
};
use crate::time::Instant;
use vstd::prelude::*;

verus! {

/// Without telemetry nothing is pressed, nothing moves and nothing is supported.
pub proof fn law_idle_vehicle_does_nothing()
    ensures
        ({
            let vehicle = idle_vehicle();
            let zero = num(ZERO_BITS);
            &&& vehicle.throttle == zero && vehicle.brake == zero && vehicle.clutch == zero
            &&& vehicle.steering_angle == zero && vehicle.steering_input == zero && vehicle.speed == zero
            &&& vehicle.rpm == zero && vehicle.track_position == zero && vehicle.handbrake == zero
            &&& vehicle.gear == 0 && !vehicle.abs_active && !vehicle.tc_active
            &&& vehicle.wheel_angle_degrees is None && vehicle.rev_lights is None
            &&& vehicle.wheel_slip is None && vehicle.wheel_speed is None
            &&& vehicle.assists.abs_enabled is None && vehicle.assists.traction_control_level is None
            &&& !vehicle.capabilities.throttle && !vehicle.capabilities.brake && !vehicle.capabilities.clutch
            &&& !vehicle.capabilities.steering_input && !vehicle.capabilities.speed && !vehicle.capabilities.gear
            &&& !vehicle.capabilities.rpm && !vehicle.capabilities.abs_activity && !vehicle.capabilities.tc_activity
            &&& !vehicle.capabilities.track_position && !vehicle.capabilities.wheel_slip
                && !vehicle.capabilities.wheel_speed
        }),
{
}

/// At the ends of a line its normal stands upright on it: vertical where the
/// line is horizontal, horizontal where it is vertical, and turned to the same
/// side everywhere.
pub proof fn law_stroke_normals_stand_upright(samples: Seq<PrimaryStrokeSample>)
    requires
        goes_on(samples, 0),
    ensures
        ({
            let delta = samples[1].position.from(samples[0].position);
            let normal = strip_normal(samples, 0);
            &&& delta.y.magnitude() == 0 ==> normal.x.magnitude() == 0
            &&& delta.x.magnitude() == 0 ==> normal.y.magnitude() == 0
            &&& delta.x.value() > 0 ==> normal.y.value() >= 0
            &&& delta.x.value() < 0 ==> normal.y.value() <= 0
            &&& delta.y.value() > 0 ==> normal.x.value() <= 0
            &&& delta.y.value() < 0 ==> normal.x.value() >= 0
            &&& delta.x.magnitude() <= delta.y.magnitude() ==> normal.y.magnitude() <= normal.x.magnitude()
            &&& delta.y.magnitude() <= delta.x.magnitude() ==> normal.x.magnitude() <= normal.y.magnitude()
        }),
{
    let delta = samples[1].position.from(samples[0].position);
    lemma_length(delta.x, delta.y);
    assert(outgoing(samples, 0, 1) == Some(unit_vector(delta)));
    assert(incoming(samples, 0, -1) is None);
    lemma_turned_quotient(delta.x, delta.y, delta.norm());
}

/// Within a line the normal stands upright on the direction midway between the
/// parts that meet there.
pub proof fn law_inner_normals_lie_between(samples: Seq<PrimaryStrokeSample>, k: int)
    requires
        goes_on(samples, k),
        0 < k < samples.len() - 1,
    ensures
        ({
            let before = unit_vector(samples[k].position.from(samples[k - 1].position));
            let after = unit_vector(samples[k + 1].position.from(samples[k].position));
            let way = before.sum(after);
            let normal = strip_normal(samples, k);
            &&& way.y.magnitude() == 0 ==> normal.x.magnitude() == 0
            &&& way.x.magnitude() == 0 ==> normal.y.magnitude() == 0
            &&& way.x.value() > 0 ==> normal.y.value() >= 0
            &&& way.x.value() < 0 ==> normal.y.value() <= 0
            &&& way.y.value() > 0 ==> normal.x.value() <= 0
            &&& way.y.value() < 0 ==> normal.x.value() >= 0
            &&& way.x.magnitude() <= way.y.magnitude() ==> normal.y.magnitude() <= normal.x.magnitude()
            &&& way.y.magnitude() <= way.x.magnitude() ==> normal.x.magnitude() <= normal.y.magnitude()
        }),
{
    let before = unit_vector(samples[k].position.from(samples[k - 1].position));
    let after = unit_vector(samples[k + 1].position.from(samples[k].position));
    let way = before.sum(after);
    assert(incoming(samples, k, k - 1) == Some(before));
    assert(outgoing(samples, k, k + 1) == Some(after));
    lemma_length(way.x, way.y);
    lemma_turned_quotient(way.x, way.y, way.norm());
}

/// Between two neighbouring columns a projection has four triangles, two for
/// the lower and two for the upper half.
pub proof fn law_projection_joins_neighbours(count: int, k: int)
    requires
        0 <= k < count - 1,
        count < 0x1000_0000,
    ensures
        ({
            let indices = column_indices(count);
            let (base, next) = (3 * k, 3 * k + 3);
            let at = 12 * k;
            &&& indices.len() == 12 * (count - 1)
            &&& indices[at] == base && indices[at + 1] == base + 1 && indices[at + 2] == next + 1
            &&& indices[at + 3] == base && indices[at + 4] == next + 1 && indices[at + 5] == next
            &&& indices[at + 6] == base + 1 && indices[at + 7] == base + 2 && indices[at + 8] == next + 2
            &&& indices[at + 9] == base + 1 && indices[at + 10] == next + 2 && indices[at + 11] == next + 1
        }),
{
    assert((12 * k + 0) / 12 == k && (12 * k + 0) % 12 == 0);
    assert((12 * k + 1) / 12 == k && (12 * k + 1) % 12 == 1);
    assert((12 * k + 2) / 12 == k && (12 * k + 2) % 12 == 2);
    assert((12 * k + 3) / 12 == k && (12 * k + 3) % 12 == 3);
    assert((12 * k + 4) / 12 == k && (12 * k + 4) % 12 == 4);
    assert((12 * k + 5) / 12 == k && (12 * k + 5) % 12 == 5);
    assert((12 * k + 6) / 12 == k && (12 * k + 6) % 12 == 6);
    assert((12 * k + 7) / 12 == k && (12 * k + 7) % 12 == 7);
    assert((12 * k + 8) / 12 == k && (12 * k + 8) % 12 == 8);
    assert((12 * k + 9) / 12 == k && (12 * k + 9) % 12 == 9);
    assert((12 * k + 10) / 12 == k && (12 * k + 10) % 12 == 10);
    assert((12 * k + 11) / 12 == k && (12 * k + 11) % 12 == 11);
}

/// A single locked point is projected over 0.6 points to either side, within
/// the chart.
pub proof fn law_single_point_is_projected_with_a_width(
    point: Pos2,
    rect: Rect,
    alpha_near: Binary32,
    falloff: Binary32,
    color: Color,
    opacity: Binary32,
)
    requires
        rect.min.x.at_most(point.x) && point.x.at_most(rect.max.x),
        rect.min.y.at_most(point.y) && point.y.at_most(rect.max.y),
    ensures
        ({
            let vertices = projection_mesh(seq![point], rect, alpha_near, falloff, color, opacity).vertices;
            let (left, right) = (point.x.difference(num(0x3f19_999a)), point.x.sum(num(0x3f19_999a)));
            &&& vertices.len() == 6
            &&& rect.min.x.at_most(left) && left.at_most(rect.max.x) ==> vertices[0].pos == (Pos2 {
                x: left,
                y: point.y,
            })
            &&& rect.min.x.at_most(right) && right.at_most(rect.max.x) ==> vertices[3].pos == (Pos2 {
                x: right,
                y: point.y,
            })
            &&& vertices[2].pos.y == rect.min.y && vertices[5].pos.y == rect.min.y
        }),
{
}

/// A point of the history counts as locked if its value exceeds the threshold,
/// and one without a value does not.
pub proof fn law_missing_values_are_no_locks(locks: Seq<Binary32>, index: int, threshold: Binary32)
    requires
        0 <= index,
        num(ZERO_BITS).at_most(threshold),
    ensures
        index < locks.len() ==> (counts_as_lock(locks, index, threshold) <==> threshold.below(locks[index])),
        index >= locks.len() ==> !counts_as_lock(locks, index, threshold),
{
}

/// A segment of a meter that is not lit is gray, has no halo and emits nothing.
/// A lit one has its own colour below, each half that is locked its own on top,
/// and emits cyan with a lock and orange with a warning alone.
pub proof fn law_only_lit_segments_glow(
    origin: Pos2,
    viewport: Vec2,
    rect: Rect,
    lit: int,
    colors: MeterColors,
    opacity: Binary32,
    i: int,
)
    ensures
        ({
            let shapes = segment_shapes(rect, lit, colors, opacity, i);
            let halo = segment_halo(rect, lit, colors, opacity, i);
            let glow = segment_glow(origin, viewport, rect, lit, colors, opacity, i);
            let place = meter_segment(rect, i);
            let visible = num(0x3ca3_d70a);
            &&& shapes.len() >= 1 && shapes[0] is RectFilled && shapes[0]->RectFilled_rect == place
            &&& i >= lit ==> shapes.len() == 1 && halo.len() == 0 && glow.len() == 0
            &&& i >= lit ==> shapes[0]->RectFilled_fill == dimmed(
                opaque(128, 132, 148),
                opacity.product(num(0x3e8f_5c29)),
            )
            &&& i < lit ==> shapes[0]->RectFilled_fill == dimmed(colors.base, opacity.product(num(0x3f6b_851f)))
            &&& i < lit && visible.below(colors.left_cover) ==> shapes.len() >= 2 && shapes[1]->RectFilled_rect.min
                == place.min && shapes[1]->RectFilled_rect.max.x == place.middle().x && shapes[1]->RectFilled_fill
                == dimmed(colors.left, opacity)
            &&& i < lit && visible.below(colors.right_cover) ==> shapes.last()->RectFilled_rect.max == place.max
                && shapes.last()->RectFilled_rect.min.x == place.middle().x && shapes.last()->RectFilled_fill
                == dimmed(colors.right, opacity)
            &&& i < lit && visible.below(colors.glow) ==> halo.len() == 1 && glow.len() == 1 && glow[0].red
                == crate::renderer::glow::channel_level(56) && glow[0].blue == crate::renderer::glow::channel_level(255)
            &&& i < lit && !visible.below(colors.glow) && visible.below(colors.approach_mix) ==> halo.len() == 0
                && glow.len() == 1 && glow[0].red == crate::renderer::glow::channel_level(255) && glow[0].blue
                == crate::renderer::glow::channel_level(69)
            &&& !visible.below(colors.glow) && !visible.below(colors.approach_mix) ==> glow.len() == 0
        }),
{
    reveal(segment_shapes);
    reveal(segment_halo);
    reveal(segment_glow);
}

/// A shift light that is on has the colour of its palette and a bright face, and
/// emits light; one that is off is gray and emits none.
pub proof fn law_lights_shine_when_they_are_on(
    origin: Pos2,
    viewport: Vec2,
    rect: Rect,
    rounding: Binary32,
    body: Color,
    emission: Color,
    state: SegmentState,
    opacity: Binary32,
)
    ensures
        ({
            let shapes = light_shapes(rect, rounding, body, state, opacity);
            let glow = light_glow(origin, viewport, rect, emission, state, opacity);
            let on = state == SegmentState::Active || state == SegmentState::Edge;
            &&& shapes.len() >= 1 && shapes[0] is RectFilled && shapes[0]->RectFilled_rect == rect
            &&& on ==> shapes.len() == 2 && glow.len() == 1
            &&& !on ==> shapes.len() == 1 && glow.len() == 0
            &&& state == SegmentState::Edge ==> shapes[0]->RectFilled_fill == dimmed(
                body,
                opacity.product(num(ONE_BITS)),
            )
            &&& state == SegmentState::Inactive ==> shapes[0]->RectFilled_fill == dimmed(
                opaque(128, 132, 148),
                opacity.product(num(0x3e99_999a)),
            )
            &&& state == SegmentState::Edge ==> glow[0].intensity == opacity.product(num(0x3ec2_8f5c)).product(
                num(0x3fc0_0000),
            ).unit()
            &&& state == SegmentState::Active ==> glow[0].intensity == opacity.product(num(0x3e85_1eb8)).product(
                num(0x3fc0_0000),
            ).unit()
        }),
{
    reveal(light_shapes);
    reveal(light_glow);
}

/// A segment of the arc is painted along its corners, last the segment itself
/// above its light, and one that is off has no light.
pub proof fn law_arc_segments_are_painted_along_their_corners(
    points: Seq<Pos2>,
    color: Color,
    state: SegmentState,
    opacity: Binary32,
    i: int,
)
    requires
        0 <= i < luminous_polygon(points, color, state, opacity).len(),
    ensures
        ({
            let shapes = luminous_polygon(points, color, state, opacity);
            &&& shapes[i] is ConvexPolygon && shapes[i]->ConvexPolygon_points == points
            &&& state == SegmentState::Inactive ==> shapes.len() == 1 && shapes[0]->ConvexPolygon_fill == dimmed(
                color,
                opacity.product(num(0x3dcc_cccd)),
            )
            &&& state == SegmentState::Edge ==> shapes.len() == 3 && shapes.last()->ConvexPolygon_fill == dimmed(
                color,
                opacity.product(num(ONE_BITS)),
            )
            &&& state == SegmentState::Active ==> shapes.len() == 3
        }),
{
    reveal(luminous_polygon);
}

/// A column of the reference lap shows its brake and its throttle, each only if
/// its peak exceeds 0.02, in the middle of the column.
pub proof fn law_reference_lap_shows_its_peaks(
    rect: Rect,
    style: StripStyle,
    column: int,
    brake: Binary32,
    throttle: Binary32,
)
    requires
        0 <= column,
    ensures
        ({
            let lines = ghost_column(rect, style, column, brake, throttle);
            let x = rect.min.x.sum(whole(column as nat)).sum(num(0x3f00_0000));
            let (first, second) = (num(0x3ca3_d70a).below(brake), num(0x3ca3_d70a).below(throttle));
            &&& lines.len() == (if first { 1int } else { 0 }) + (if second { 1int } else { 0 })
            &&& first ==> lines[0] is LineSegment && lines[0]->LineSegment_start == (Pos2 {
                x,
                y: rect.max.y.difference(num(ONE_BITS)),
            })
            &&& second ==> lines.last() is LineSegment && lines.last()->LineSegment_start == (Pos2 {
                x,
                y: rect.min.y.sum(num(ONE_BITS)),
            })
        }),
{
    reveal(ghost_column);
    let lines = ghost_column(rect, style, column, brake, throttle);
    let a = ghost_line(rect, StripChannel::Brake, style.brake, style.alpha, column, brake);
    let b = ghost_line(rect, StripChannel::Throttle, style.throttle, style.alpha, column, throttle);
    assert(lines == a + b);
    if b.len() == 1 {
        assert(lines.last() == b[0]);
    }
}

/// The strip paints the reference lap column by column, then the points of the
/// history from the oldest to the newest: one more column or point adds what it
/// adds.
pub proof fn law_strip_is_painted_in_order(
    rect: Rect,
    lap: Seq<LapPoint>,
    points: Seq<TelemetryPoint>,
    point: TelemetryPoint,
    now: Instant,
    style: StripStyle,
    column: int,
)
    requires
        0 <= column,
    ensures
        ghost_lines(rect, lap, style, 0).len() == 0,
        ghost_lines(rect, lap, style, column + 1) == ghost_lines(rect, lap, style, column) + ghost_column(
            rect,
            style,
            column,
            column_peak(lap, StripChannel::Brake, columns_of(rect), column),
            column_peak(lap, StripChannel::Throttle, columns_of(rect), column),
        ),
        live_lines(rect, Seq::empty(), now, style).len() == 0,
        live_lines(rect, points.push(point), now, style) == live_lines(rect, points, now, style) + point_lines(
            rect,
            point,
            now,
            style,
        ),
{
    assert(points.push(point).drop_last() =~= points);
}

/// The strip is built anew when the display is, and when its place changes.
pub proof fn law_strip_is_rebuilt_when_it_moves(cache: TrackStripCache, rect: Rect)
    ensures
        cache.is_stale(rect, true),
        cache.rect is None ==> cache.is_stale(rect, false),
        cache.rect is Some ==> (cache.is_stale(rect, false) <==> !(equal_numbers(cache.rect->0.min.x, rect.min.x)
            && equal_numbers(cache.rect->0.min.y, rect.min.y) && equal_numbers(cache.rect->0.max.x, rect.max.x)
            && equal_numbers(cache.rect->0.max.y, rect.max.y))),
{
}

/// A provider without a configuration has a half lock of 450 degrees. The
/// settings are active if the provider, the trimmed address and the port agree.
pub proof fn law_settings_decide_the_provider(
    config: GameConfig,
    settings: CollectorSettings,
    plugin: Seq<char>,
    active: ProviderConfig,
)
    ensures
        half_lock_of(None) == num(0x43e1_0000),
        half_lock_of(Some(config)) == config.max_steering_angle,
        is_active(settings, plugin, active) ==> settings.plugin@ == plugin && settings.f1_udp_port
            == active.f1_udp_port,
        settings.plugin@ != plugin ==> !is_active(settings, plugin, active),
        settings.f1_udp_port != active.f1_udp_port ==> !is_active(settings, plugin, active),
{
}

/// Every update of the window is counted, and every refresh among them.
pub proof fn law_updates_and_refreshes_are_counted(counters: RuntimeCounters, refreshed: bool)
    requires
        counters.ui_updates < u64::MAX,
        counters.visualization_work < u64::MAX,
    ensures
        counters.counted(refreshed).ui_updates == counters.ui_updates + 1,
        counters.counted(true).visualization_work == counters.visualization_work + 1,
        counters.counted(false).visualization_work == counters.visualization_work,
        counters.counted(refreshed).started_at == counters.started_at,
{
}

/// The fifteen segments of a meter share its height with the gaps between them:
/// a gap is 0.03 of the height, but at least two and at most four points, and a
/// segment takes a fifteenth of what the fourteen gaps leave, at least one.
pub proof fn law_segments_share_the_height_with_gaps(rect: Rect, i: int)
    requires
        0 <= i < 15,
    ensures
        ({
            let total = rect.max.y.difference(rect.min.y);
            let gap = total.product(num(0x3cf5_c28f)).clamped(num(0x4000_0000), num(0x4080_0000));
            let height = total.difference(gap.product(whole(14))).quotient(whole(15)).larger(num(ONE_BITS));
            let segment = meter_segment(rect, i);
            &&& segment.min.y == rect.max.y.difference(whole((i + 1) as nat).product(height)).difference(
                whole(i as nat).product(gap),
            )
            &&& segment.max.y == segment.min.y.sum(height)
        }),
{
}

/// The fifteen shift lights share the width with gaps of four points, and stand
/// 0.16 of the height below the upper edge.
pub proof fn law_lights_share_the_width_with_gaps(rect: Rect, i: int)
    requires
        0 <= i < 15,
    ensures
        ({
            let gap = num(0x4080_0000);
            let width = rect.max.x.difference(rect.min.x).difference(gap.product(whole(14))).quotient(whole(15));
            let light = light_rect(rect, i);
            &&& light.min.x == rect.min.x.sum(whole(i as nat).product(width.sum(gap)))
            &&& light.max.x == light.min.x.sum(width.larger(num(ONE_BITS)))
            &&& light.min.y == rect.min.y.sum(rect.max.y.difference(rect.min.y).product(num(0x3e23_d70a)))
            &&& light.max.y == light.min.y.sum(num(0x40b0_0000))
        }),
{
}

} // verus!
