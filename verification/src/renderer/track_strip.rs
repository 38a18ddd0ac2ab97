//! The strip that shows brake and throttle along the track.
use crate::arithmetic::{lemma_one_is_unit, lemma_whole_part_is_natural, whole};
use crate::binary32::{lemma_magnitude_value_increases, num, number, unit_value, Binary32, ONE_BITS, ZERO_BITS};
use crate::model::TelemetryPoint;
use crate::renderer::canvas::lemma_append;
use crate::renderer::color::{premultiplied, saturated, with_alpha, Color};
use crate::renderer::geometry::{Pos2, Rect, TWO_BITS};
use crate::renderer::overlay::FULL_ALPHA_BITS;
use crate::renderer::palette::white_color;
use crate::renderer::shapes::{add_shape, views, Shape, ShapeView, Stroke};
use crate::time::{elapsed_between, in_seconds, Instant};
use vstd::arithmetic::div_mod::{lemma_div_by_self, lemma_div_is_ordered};
use vstd::arithmetic::power2::lemma_pow2_pos;
use vstd::prelude::*;

verus! {

/// Bit pattern of 0.38: the strength of the reference lap.
pub const GHOST_SHARE_BITS: u32 = 0x3ec2_8f5c;

/// Bit pattern of 0.02: less is not shown.
pub const BLIP_BITS: u32 = 0x3ca3_d70a;

/// Bit pattern of 1.5: the width of a live line.
pub const LIVE_LINE_BITS: u32 = 0x3fc0_0000;

/// Bit pattern of 2: the width of the cursor.
pub const CURSOR_LINE_BITS: u32 = 0x4000_0000;

/// Bit pattern of 0.5: the middle of a column.
pub const COLUMN_MIDDLE_BITS: u32 = 0x3f00_0000;

/// The largest number of columns: their values fit in memory on every machine.
pub const MAX_COLUMNS: u64 = 0x1fff_ffff;

/// A point of a reference lap.
#[derive(Debug, Clone, Copy, PartialEq, Eq, Structural)]
pub struct LapPoint {
    /// The place on the track as a part of the lap.
    pub track_position: Binary32,
    pub throttle: Binary32,
    pub brake: Binary32,
}

/// The settings of the strip.
#[derive(Debug, Clone, Copy, PartialEq, Eq, Structural)]
pub struct StripStyle {
    /// The length of the history in seconds.
    pub window_seconds: Binary32,
    pub show_abs: bool,
    pub brake: Color,
    pub abs_active: Color,
    pub throttle: Color,
    pub alpha: u8,
}

/// The two channels of the strip.
#[derive(Debug, Clone, Copy, PartialEq, Eq, Structural)]
pub enum StripChannel {
    /// Drawn from the bottom up.
    Brake,
    /// Drawn from the top down.
    Throttle,
}

/// How many columns the strip has.
pub open spec fn columns_of(rect: Rect) -> int {
    rect.span_x().larger(num(ONE_BITS)).whole_part()
}

/// The column of a place on the track.
pub open spec fn column_of(position: Binary32, columns: int) -> int {
    let column = position.unit().product(whole(columns as nat)).whole_part();
    if column < columns {
        column
    } else {
        columns - 1
    }
}

/// The value of a point on a channel.
pub open spec fn lap_value(point: LapPoint, channel: StripChannel) -> Binary32 {
    match channel {
        StripChannel::Brake => point.brake,
        StripChannel::Throttle => point.throttle,
    }
}

/// The largest value of a channel among the points that fall into a column, but
/// not less than zero.
pub open spec fn column_peak(points: Seq<LapPoint>, channel: StripChannel, columns: int, column: int) -> Binary32
    decreases points.len(),
{
    if points.len() == 0 {
        num(ZERO_BITS)
    } else {
        let earlier = column_peak(points.drop_last(), channel, columns, column);
        if column_of(points.last().track_position, columns) == column {
            earlier.larger(lap_value(points.last(), channel))
        } else {
            earlier
        }
    }
}

/// The line of a channel at a place, as high as its value asks for.
pub open spec fn channel_line(
    rect: Rect,
    channel: StripChannel,
    x: Binary32,
    value: Binary32,
    stroke: Stroke,
) -> ShapeView {
    let height = value.product(rect.span_y().difference(num(TWO_BITS))).larger(num(ONE_BITS));
    match channel {
        StripChannel::Brake => {
            let base = rect.max.y.difference(num(ONE_BITS));
            ShapeView::LineSegment { start: Pos2 { x, y: base }, end: Pos2 { x, y: base.difference(height) }, stroke }
        },
        StripChannel::Throttle => {
            let base = rect.min.y.sum(num(ONE_BITS));
            ShapeView::LineSegment { start: Pos2 { x, y: base }, end: Pos2 { x, y: base.sum(height) }, stroke }
        },
    }
}

/// The colour with an alpha cut off to an integer.
pub open spec fn faded(color: Color, alpha: Binary32) -> Color {
    premultiplied(color.r, color.g, color.b, saturated(alpha.smaller(num(FULL_ALPHA_BITS)).whole_part()))
}

/// The line of the reference lap in a column, if its value is large enough.
pub open spec fn ghost_line(
    rect: Rect,
    channel: StripChannel,
    color: Color,
    alpha: u8,
    column: int,
    value: Binary32,
) -> Seq<ShapeView> {
    if num(BLIP_BITS).below(value) {
        let x = rect.min.x.sum(whole(column as nat)).sum(num(COLUMN_MIDDLE_BITS));
        let strength = whole(alpha as nat).product(num(GHOST_SHARE_BITS)).product(value);
        seq![channel_line(rect, channel, x, value, Stroke { width: num(ONE_BITS), color: faded(color, strength) })]
    } else {
        Seq::empty()
    }
}

/// The lines of the reference lap in a column.
#[verifier::opaque]
pub open spec fn ghost_column(
    rect: Rect,
    style: StripStyle,
    column: int,
    brake: Binary32,
    throttle: Binary32,
) -> Seq<ShapeView> {
    ghost_line(rect, StripChannel::Brake, style.brake, style.alpha, column, brake) + ghost_line(
        rect,
        StripChannel::Throttle,
        style.throttle,
        style.alpha,
        column,
        throttle,
    )
}

/// The lines of the reference lap in the first columns.
pub open spec fn ghost_lines(rect: Rect, lap: Seq<LapPoint>, style: StripStyle, count: int) -> Seq<ShapeView>
    decreases count,
{
    if count <= 0 {
        Seq::empty()
    } else {
        let column = count - 1;
        ghost_lines(rect, lap, style, column) + ghost_column(
            rect,
            style,
            column,
            column_peak(lap, StripChannel::Brake, columns_of(rect), column),
            column_peak(lap, StripChannel::Throttle, columns_of(rect), column),
        )
    }
}

/// The line of a live value, if it is strong enough.
pub open spec fn live_line(
    rect: Rect,
    channel: StripChannel,
    color: Color,
    alpha: u8,
    x: Binary32,
    value: Binary32,
    freshness: Binary32,
) -> Seq<ShapeView> {
    let intensity = value.product(freshness);
    if num(BLIP_BITS).below(intensity) {
        let strength = whole(color.a as nat).product(whole(alpha as nat).quotient(num(FULL_ALPHA_BITS))).product(
            intensity,
        );
        seq![
            channel_line(rect, channel, x, value, Stroke { width: num(LIVE_LINE_BITS), color: faded(color, strength) }),
        ]
    } else {
        Seq::empty()
    }
}

/// How fresh a point is: one when new, zero at the end of the history.
pub open spec fn freshness_of(point: TelemetryPoint, now: Instant, window_seconds: Binary32) -> Binary32 {
    num(ONE_BITS).difference(
        in_seconds(elapsed_between(point.captured_at@, now@)).quotient(window_seconds),
    ).unit()
}

/// The lines of a live point. The brake has another colour while ABS works.
#[verifier::opaque]
pub open spec fn point_lines(rect: Rect, point: TelemetryPoint, now: Instant, style: StripStyle) -> Seq<ShapeView> {
    let x = rect.min.x.sum(point.telemetry.track_position.product(rect.span_x()));
    let freshness = freshness_of(point, now, style.window_seconds);
    let brake = if point.abs_active && style.show_abs {
        style.abs_active
    } else {
        style.brake
    };
    live_line(rect, StripChannel::Brake, brake, style.alpha, x, point.telemetry.brake, freshness) + live_line(
        rect,
        StripChannel::Throttle,
        style.throttle,
        style.alpha,
        x,
        point.telemetry.throttle,
        freshness,
    )
}

/// The lines of all live points.
pub open spec fn live_lines(rect: Rect, points: Seq<TelemetryPoint>, now: Instant, style: StripStyle) -> Seq<ShapeView>
    decreases points.len(),
{
    if points.len() == 0 {
        Seq::empty()
    } else {
        live_lines(rect, points.drop_last(), now, style) + point_lines(rect, points.last(), now, style)
    }
}

/// The cursor at the current place.
pub open spec fn cursor(rect: Rect, position: Binary32, alpha: u8) -> ShapeView {
    let x = rect.min.x.sum(position.unit().product(rect.span_x()));
    ShapeView::LineSegment {
        start: Pos2 { x, y: rect.min.y },
        end: Pos2 { x, y: rect.max.y },
        stroke: Stroke { width: num(CURSOR_LINE_BITS), color: premultiplied(255, 255, 255, alpha) },
    }
}

/// What the strip shows: the reference lap, the live points over it, and the
/// cursor on top.
pub open spec fn strip_shapes(
    rect: Rect,
    points: Seq<TelemetryPoint>,
    now: Instant,
    position: Binary32,
    style: StripStyle,
    lap: Option<Seq<LapPoint>>,
) -> Seq<ShapeView> {
    let ghost_part = match lap {
        Some(lap) => ghost_lines(rect, lap, style, columns_of(rect)),
        None => Seq::empty(),
    };
    (ghost_part + live_lines(rect, points, now, style)).push(cursor(rect, position, style.alpha))
}

fn column_index(position: Binary32, columns: usize) -> (r: usize)
    requires
        0 < columns,
    ensures
        r == column_of(position, columns as int),
        r < columns,
{
    let column: u64 = position.clamp_unit().times(Binary32::from_u64(columns as u64)).truncate_to_u64();
    proof {
        lemma_whole_part_is_natural(position.unit().product(whole(columns as nat)));
    }
    if column < columns as u64 {
        column as usize
    } else {
        columns - 1
    }
}

fn channel_value(point: &LapPoint, channel: StripChannel) -> (r: Binary32)
    ensures
        r == lap_value(*point, channel),
{
    match channel {
        StripChannel::Brake => point.brake,
        StripChannel::Throttle => point.throttle,
    }
}

/// The largest value of a channel in each column.
pub fn column_peaks(lap: &[LapPoint], channel: StripChannel, columns: usize) -> (r: Vec<Binary32>)
    requires
        0 < columns,
    ensures
        r@ == Seq::new(columns as nat, |c: int| column_peak(lap@, channel, columns as int, c)),
{
    let mut peaks: Vec<Binary32> = Vec::new();
    let mut c: usize = 0;
    while c < columns
        invariant
            c <= columns,
            peaks@ == Seq::new(c as nat, |k: int| num(ZERO_BITS)),
        decreases columns - c,
    {
        peaks.push(number(ZERO_BITS));
        c = c + 1;
    }
    let mut i: usize = 0;
    proof {
        assert(peaks@ =~= Seq::new(
            columns as nat,
            |c: int| column_peak(lap@.take(0), channel, columns as int, c),
        ));
    }
    while i < lap.len()
        invariant
            0 < columns,
            i <= lap@.len(),
            peaks@ == Seq::new(
                columns as nat,
                |c: int| column_peak(lap@.take(i as int), channel, columns as int, c),
            ),
        decreases lap@.len() - i,
    {
        let point = &lap[i];
        let column = column_index(point.track_position, columns);
        let ghost before = peaks@;
        let peak = peaks[column].max(channel_value(point, channel));
        peaks.set(column, peak);
        proof {
            let longer = lap@.take(i + 1);
            assert(longer.drop_last() =~= lap@.take(i as int));
            assert(longer.last() == *point);
            assert forall|c: int| 0 <= c < columns implies peaks@[c] == column_peak(
                longer,
                channel,
                columns as int,
                c,
            ) by {
                assert(before[c] == column_peak(lap@.take(i as int), channel, columns as int, c));
            }
            assert(peaks@ =~= Seq::new(columns as nat, |c: int| column_peak(longer, channel, columns as int, c)));
        }
        i = i + 1;
    }
    proof {
        assert(lap@.take(i as int) =~= lap@);
    }
    peaks
}

fn fade(color: Color, alpha: Binary32) -> (r: Color)
    ensures
        r == faded(color, alpha),
{
    let cut: u64 = alpha.min(number(FULL_ALPHA_BITS)).truncate_to_u64();
    let alpha: u8 = if cut > 255 {
        255
    } else {
        cut as u8
    };
    with_alpha(color, alpha)
}

fn build_line(rect: &Rect, channel: StripChannel, x: Binary32, value: Binary32, stroke: Stroke) -> (r: Shape)
    ensures
        r@ == channel_line(*rect, channel, x, value, stroke),
{
    let height = value.times(rect.height().minus(number(TWO_BITS))).max(number(ONE_BITS));
    match channel {
        StripChannel::Brake => {
            let base = rect.max.y.minus(number(ONE_BITS));
            Shape::LineSegment { start: Pos2 { x, y: base }, end: Pos2 { x, y: base.minus(height) }, stroke }
        },
        StripChannel::Throttle => {
            let base = rect.min.y.plus(number(ONE_BITS));
            Shape::LineSegment { start: Pos2 { x, y: base }, end: Pos2 { x, y: base.plus(height) }, stroke }
        },
    }
}

fn add_ghost_line(
    rect: &Rect,
    channel: StripChannel,
    color: Color,
    alpha: u8,
    column: usize,
    value: Binary32,
    shapes: &mut Vec<Shape>,
)
    ensures
        views(final(shapes)@) == views(old(shapes)@) + ghost_line(*rect, channel, color, alpha, column as int, value),
{
    if number(BLIP_BITS).lt(value) {
        let x = rect.min.x.plus(Binary32::from_u64(column as u64)).plus(number(COLUMN_MIDDLE_BITS));
        let strength = Binary32::from_u64(alpha as u64).times(number(GHOST_SHARE_BITS)).times(value);
        let stroke = Stroke { width: number(ONE_BITS), color: fade(color, strength) };
        add_shape(shapes, build_line(rect, channel, x, value, stroke));
    }
    proof {
        assert(views(shapes@) =~= views(old(shapes)@) + ghost_line(
            *rect,
            channel,
            color,
            alpha,
            column as int,
            value,
        ));
    }
}

fn add_ghost_column(
    rect: &Rect,
    style: &StripStyle,
    column: usize,
    brake: Binary32,
    throttle: Binary32,
    shapes: &mut Vec<Shape>,
)
    ensures
        views(final(shapes)@) == views(old(shapes)@) + ghost_column(*rect, *style, column as int, brake, throttle),
{
    let ghost start = views(shapes@);
    add_ghost_line(rect, StripChannel::Brake, style.brake, style.alpha, column, brake, shapes);
    add_ghost_line(rect, StripChannel::Throttle, style.throttle, style.alpha, column, throttle, shapes);
    proof {
        reveal(ghost_column);
        lemma_append(
            start,
            ghost_line(*rect, StripChannel::Brake, style.brake, style.alpha, column as int, brake),
            ghost_line(*rect, StripChannel::Throttle, style.throttle, style.alpha, column as int, throttle),
        );
    }
}

fn add_ghost_lap(rect: &Rect, lap: &[LapPoint], style: &StripStyle, shapes: &mut Vec<Shape>)
    requires
        columns_of(*rect) <= MAX_COLUMNS,
    ensures
        views(final(shapes)@) == views(old(shapes)@) + ghost_lines(*rect, lap@, *style, columns_of(*rect)),
{
    let width = rect.width().max(number(ONE_BITS));
    let columns: usize = width.truncate_to_u64() as usize;
    proof {
        lemma_at_least_one_column(*rect);
    }
    let brake = column_peaks(lap, StripChannel::Brake, columns);
    let throttle = column_peaks(lap, StripChannel::Throttle, columns);
    let ghost before = views(shapes@);
    let mut c: usize = 0;
    proof {
        assert(views(shapes@) =~= before + ghost_lines(*rect, lap@, *style, 0));
    }
    while c < columns
        invariant
            c <= columns,
            columns == columns_of(*rect),
            brake@ == Seq::new(
                columns as nat,
                |c: int| column_peak(lap@, StripChannel::Brake, columns as int, c),
            ),
            throttle@ == Seq::new(
                columns as nat,
                |c: int| column_peak(lap@, StripChannel::Throttle, columns as int, c),
            ),
            views(shapes@) == before + ghost_lines(*rect, lap@, *style, c as int),
        decreases columns - c,
    {
        add_ghost_column(rect, style, c, brake[c], throttle[c], shapes);
        proof {
            lemma_append(
                before,
                ghost_lines(*rect, lap@, *style, c as int),
                ghost_column(*rect, *style, c as int, brake@[c as int], throttle@[c as int]),
            );
        }
        c = c + 1;
    }
}

fn add_live_line(
    rect: &Rect,
    channel: StripChannel,
    color: Color,
    alpha: u8,
    x: Binary32,
    value: Binary32,
    freshness: Binary32,
    shapes: &mut Vec<Shape>,
)
    ensures
        views(final(shapes)@) == views(old(shapes)@) + live_line(*rect, channel, color, alpha, x, value, freshness),
{
    let intensity = value.times(freshness);
    if number(BLIP_BITS).lt(intensity) {
        let strength = Binary32::from_u64(color.a as u64).times(
            Binary32::from_u64(alpha as u64).over(number(FULL_ALPHA_BITS)),
        ).times(intensity);
        let stroke = Stroke { width: number(LIVE_LINE_BITS), color: fade(color, strength) };
        add_shape(shapes, build_line(rect, channel, x, value, stroke));
    }
    proof {
        assert(views(shapes@) =~= views(old(shapes)@) + live_line(
            *rect,
            channel,
            color,
            alpha,
            x,
            value,
            freshness,
        ));
    }
}

fn add_point_lines(rect: &Rect, point: &TelemetryPoint, now: Instant, style: &StripStyle, shapes: &mut Vec<Shape>)
    ensures
        views(final(shapes)@) == views(old(shapes)@) + point_lines(*rect, *point, now, *style),
{
    let age = now.saturating_duration_since(point.captured_at).as_secs_f32();
    let freshness = number(ONE_BITS).minus(age.over(style.window_seconds)).clamp_unit();
    let x = rect.min.x.plus(point.telemetry.track_position.times(rect.width()));
    let brake = if point.abs_active && style.show_abs {
        style.abs_active
    } else {
        style.brake
    };
    let ghost start = views(shapes@);
    let ghost first = live_line(
        *rect,
        StripChannel::Brake,
        brake,
        style.alpha,
        x,
        point.telemetry.brake,
        freshness,
    );
    add_live_line(rect, StripChannel::Brake, brake, style.alpha, x, point.telemetry.brake, freshness, shapes);
    let ghost second = live_line(
        *rect,
        StripChannel::Throttle,
        style.throttle,
        style.alpha,
        x,
        point.telemetry.throttle,
        freshness,
    );
    add_live_line(
        rect,
        StripChannel::Throttle,
        style.throttle,
        style.alpha,
        x,
        point.telemetry.throttle,
        freshness,
        shapes,
    );
    proof {
        lemma_append(start, first, second);
        reveal(point_lines);
    }
}

fn add_live_points(rect: &Rect, points: &[TelemetryPoint], now: Instant, style: &StripStyle, shapes: &mut Vec<Shape>)
    ensures
        views(final(shapes)@) == views(old(shapes)@) + live_lines(*rect, points@, now, *style),
{
    let ghost before = views(shapes@);
    let mut i: usize = 0;
    proof {
        assert(views(shapes@) =~= before + live_lines(*rect, points@.take(0), now, *style));
    }
    while i < points.len()
        invariant
            i <= points@.len(),
            views(shapes@) == before + live_lines(*rect, points@.take(i as int), now, *style),
        decreases points@.len() - i,
    {
        add_point_lines(rect, &points[i], now, style, shapes);
        proof {
            let longer = points@.take(i + 1);
            assert(longer.drop_last() =~= points@.take(i as int));
            lemma_append(
                before,
                live_lines(*rect, points@.take(i as int), now, *style),
                point_lines(*rect, points@[i as int], now, *style),
            );
        }
        i = i + 1;
    }
    proof {
        assert(points@.take(i as int) =~= points@);
    }
}

/// A strip that has been built.
#[derive(Debug, Clone, PartialEq, Eq)]
pub struct TrackStripCache {
    pub rect: Option<Rect>,
    pub shapes: Vec<Shape>,
}

impl Default for TrackStripCache {
    fn default() -> (r: Self)
        ensures
            r.rect is None,
            r.shapes@.len() == 0,
    {
        TrackStripCache { rect: None, shapes: Vec::new() }
    }
}

impl TrackStripCache {
    /// Whether the strip must be built before it is shown: on demand, and
    /// whenever its place has changed.
    pub open spec fn is_stale(self, rect: Rect, rebuild_visualization: bool) -> bool {
        rebuild_visualization || !(self.rect is Some && self.rect->0.coincides(rect))
    }

    /// Builds the strip if it is stale.
    pub fn update(
        &mut self,
        rect: Rect,
        points: &[TelemetryPoint],
        now: Instant,
        position: Binary32,
        style: &StripStyle,
        reference_lap: Option<&[LapPoint]>,
        rebuild_visualization: bool,
    )
        requires
            reference_lap is Some ==> columns_of(rect) <= MAX_COLUMNS,
        ensures
            if old(self).is_stale(rect, rebuild_visualization) {
                &&& final(self).rect == Some(rect)
                &&& views(final(self).shapes@) == strip_shapes(
                    rect,
                    points@,
                    now,
                    position,
                    *style,
                    lap_points(reference_lap),
                )
            } else {
                *final(self) == *old(self)
            },
    {
        let stale = rebuild_visualization || match self.rect {
            Some(built) => !built.is_same_place(&rect),
            None => true,
        };
        if !stale {
            return;
        }
        let mut shapes: Vec<Shape> = Vec::new();
        if let Some(lap) = reference_lap {
            add_ghost_lap(&rect, lap, style, &mut shapes);
        }
        add_live_points(&rect, points, now, style, &mut shapes);
        let x = rect.min.x.plus(position.clamp_unit().times(rect.width()));
        add_shape(
            &mut shapes,
            Shape::LineSegment {
                start: Pos2 { x, y: rect.min.y },
                end: Pos2 { x, y: rect.max.y },
                stroke: Stroke { width: number(CURSOR_LINE_BITS), color: with_alpha(white_color(), style.alpha) },
            },
        );
        proof {
            assert(views(shapes@) =~= strip_shapes(
                rect,
                points@,
                now,
                position,
                *style,
                lap_points(reference_lap),
            ));
        }
        self.rect = Some(rect);
        self.shapes = shapes;
    }
}

/// The points of a reference lap, if there is one.
pub open spec fn lap_points(lap: Option<&[LapPoint]>) -> Option<Seq<LapPoint>> {
    match lap {
        Some(points) => Some(points@),
        None => None,
    }
}

/// Whether the strip can be built: its columns fit in memory.
pub fn columns_fit(rect: &Rect) -> (r: bool)
    ensures
        r == (columns_of(*rect) <= MAX_COLUMNS),
{
    rect.width().max(number(ONE_BITS)).truncate_to_u64() <= MAX_COLUMNS
}

proof fn lemma_at_least_one_column(rect: Rect)
    ensures
        1 <= columns_of(rect),
{
    let width = rect.span_x().larger(num(ONE_BITS));
    assert(num(ONE_BITS).at_most(width));
    if width.finite() {
        lemma_one_is_unit();
        lemma_magnitude_value_increases(ONE_BITS as int, width.magnitude());
        lemma_pow2_pos(149);
        assert(unit_value() <= width.value());
        lemma_div_is_ordered(unit_value(), width.value(), unit_value());
        lemma_div_by_self(unit_value());
    }
}

/// In each column the reference lap is at least as high as every point that
/// falls into it, so no point is lost between columns.
pub proof fn law_column_peak_covers_its_points(
    points: Seq<LapPoint>,
    channel: StripChannel,
    columns: int,
    column: int,
    i: int,
)
    requires
        0 <= i < points.len(),
        column_of(points[i].track_position, columns) == column,
        !lap_value(points[i], channel).nan(),
    ensures
        lap_value(points[i], channel).at_most(column_peak(points, channel, columns, column)),
    decreases points.len(),
{
    lemma_peak_is_a_number(points.drop_last(), channel, columns, column);
    if i < points.len() - 1 {
        law_column_peak_covers_its_points(points.drop_last(), channel, columns, column, i);
    }
}

proof fn lemma_peak_is_a_number(points: Seq<LapPoint>, channel: StripChannel, columns: int, column: int)
    ensures
        !column_peak(points, channel, columns, column).nan(),
    decreases points.len(),
{
    if points.len() > 0 {
        lemma_peak_is_a_number(points.drop_last(), channel, columns, column);
    }
}

/// Every point of a reference lap falls into a column of the strip.
pub proof fn law_every_point_has_a_column(position: Binary32, columns: int)
    requires
        0 < columns,
    ensures
        0 <= column_of(position, columns) < columns,
{
    lemma_whole_part_is_natural(position.unit().product(whole(columns as nat)));
}

} // verus!
