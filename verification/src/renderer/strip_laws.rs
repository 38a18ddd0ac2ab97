//! What the track strip shows of a lap and of the latest points.
use crate::arithmetic::{
    lemma_exact_value_is_kept, lemma_one_is_unit, lemma_rounding_exists, lemma_rounding_keeps_order,
    lemma_whole_is_exact, nearest, size, whole,
};
use crate::binary32::{lemma_magnitude_value_increases, magnitude_value, num, unit_value, Binary32, ONE_BITS, ZERO_BITS};
use crate::exactness::{
    lemma_difference_falls, lemma_multiple, lemma_plain, lemma_products_keep_order, lemma_share_is_at_most_the_whole,
    lemma_sum_grows, lemma_sum_within, plain,
};
use crate::model::TelemetryPoint;
use crate::renderer::geometry::Rect;
use crate::renderer::history::{recency_of, SHORTEST_WINDOW_BITS};
use crate::renderer::shapes::{ShapeView, Stroke};
use crate::renderer::trace_laws::{law_recency_falls_with_age, law_recency_is_the_rest_of_the_window};
use crate::renderer::track_strip::{
    channel_line, column_of, column_peak, cursor, freshness_of, live_line, point_lines, strip_shapes, LapPoint,
    StripChannel, StripStyle,
};
use crate::time::{elapsed_between, in_seconds, Instant};
use crate::time_laws::{law_seconds_grow_with_nanoseconds, LONG_SPAN_NANOS};
use vstd::arithmetic::div_mod::lemma_fundamental_div_mod;
use vstd::arithmetic::power2::lemma_pow2_pos;
use vstd::prelude::*;

verus! {

/// The peak of a column is the largest brake, or throttle, of the points that
/// fall into it: not below any of them, and equal to one of them unless it is
/// zero.
pub proof fn law_peak_is_reached(points: Seq<LapPoint>, columns: int, column: int)
    ensures
        ({
            let brake = column_peak(points, StripChannel::Brake, columns, column);
            let throttle = column_peak(points, StripChannel::Throttle, columns, column);
            &&& brake == num(ZERO_BITS) || exists|i: int|
                0 <= i < points.len() && column_of((#[trigger] points[i]).track_position, columns) == column
                    && points[i].brake == brake
            &&& throttle == num(ZERO_BITS) || exists|i: int|
                0 <= i < points.len() && column_of((#[trigger] points[i]).track_position, columns) == column
                    && points[i].throttle == throttle
        }),
    decreases points.len(),
{
    if points.len() > 0 {
        let before = points.drop_last();
        law_peak_is_reached(before, columns, column);
        let brake = column_peak(before, StripChannel::Brake, columns, column);
        let throttle = column_peak(before, StripChannel::Throttle, columns, column);
        if brake != num(ZERO_BITS) {
            let i = choose|i: int|
                0 <= i < before.len() && column_of((#[trigger] before[i]).track_position, columns) == column
                    && before[i].brake == brake;
            assert(points[i] == before[i]);
        }
        if throttle != num(ZERO_BITS) {
            let i = choose|i: int|
                0 <= i < before.len() && column_of((#[trigger] before[i]).track_position, columns) == column
                    && before[i].throttle == throttle;
            assert(points[i] == before[i]);
        }
        assert(points[points.len() - 1] == points.last());
    }
}

/// A point stands in the column that its position on the lap says: the position
/// times the number of columns, cut off; the start of the lap in the first and
/// its end in the last column.
pub proof fn law_position_picks_the_column(position: Binary32, columns: int)
    requires
        position.finite(),
        0 < columns < 0x100_0000,
    ensures
        ({
            let column = column_of(position, columns);
            let exact = magnitude_value(nearest(position.value() * columns, 1));
            &&& position.at_most(num(ZERO_BITS)) ==> column == 0
            &&& num(ONE_BITS).at_most(position) ==> column == columns - 1
            &&& num(ZERO_BITS).below(position) && position.below(num(ONE_BITS)) ==> {
                ||| column * unit_value() <= exact < (column + 1) * unit_value()
                ||| column == columns - 1 && exact == columns * unit_value()
            }
        }),
{
    let u = unit_value();
    let t = position.unit();
    let w = whole(columns as nat);
    lemma_pow2_pos(149);
    lemma_one_is_unit();
    lemma_whole_is_exact(columns as nat);
    lemma_plain(w);
    lemma_multiple(t, w, columns);
    let product = t.product(w);
    assert(magnitude_value(0) == 0);
    lemma_magnitude_value_increases(0, t.magnitude());
    lemma_magnitude_value_increases(t.magnitude(), ONE_BITS as int);
    t.lemma_parts();
    let n = size(t.value()) * columns;
    assert(0 <= n <= columns * u) by (nonlinear_arith)
        requires
            n == size(t.value()) * columns,
            0 <= size(t.value()) <= u,
            0 < columns,
    ;
    lemma_rounding_exists(n, 1);
    lemma_exact_value_is_kept(columns * u, 1, w.magnitude());
    lemma_rounding_keeps_order(n, columns * u, 1);
    lemma_magnitude_value_increases(nearest(n, 1), w.magnitude());
    lemma_magnitude_value_increases(0, nearest(n, 1));
    lemma_exact_value_is_kept(0, 1, 0);
    let v = magnitude_value(nearest(n, 1));
    lemma_fundamental_div_mod(v, u);
    let q = v / u;
    assert(0 <= q <= columns && q * u <= v < (q + 1) * u && (q == columns ==> v == columns * u)) by (nonlinear_arith)
        requires
            v == u * q + v % u,
            0 <= v % u < u,
            0 <= v <= columns * u,
            u > 0,
    ;
    if !product.negative() {
        assert(product.whole_part() == q);
    }
    if t.magnitude() == 0 {
        assert(n == 0) by (nonlinear_arith)
            requires
                n == size(t.value()) * columns,
                size(t.value()) == 0,
        ;
        assert(q == 0) by (nonlinear_arith)
            requires
                q * u <= v,
                v == 0,
                0 <= q,
                u > 0,
        ;
    }
    if t == num(ONE_BITS) {
        assert(n == columns * u) by (nonlinear_arith)
            requires
                n == size(t.value()) * columns,
                size(t.value()) == u,
        ;
        assert(q == columns) by (nonlinear_arith)
            requires
                v == columns * u,
                q * u <= v < (q + 1) * u,
                q <= columns,
                u > 0,
        ;
    }
}

/// The start of a line.
pub open spec fn line_start(shape: ShapeView) -> Binary32 {
    shape->LineSegment_start.y
}

/// The end of a line.
pub open spec fn line_end(shape: ShapeView) -> Binary32 {
    shape->LineSegment_end.y
}

/// Whether the edges of a strip are small numbers with the lower one at least
/// two below the upper one.
pub open spec fn has_lines(rect: Rect) -> bool {
    &&& rect.min.y.magnitude() <= 0x4f00_0000
    &&& rect.max.y.magnitude() <= 0x4f00_0000
    &&& plain(rect.max.y.difference(rect.min.y).difference(num(0x4000_0000)))
}

/// Brake lines stand on the lower edge and throttle lines hang from the upper
/// edge. The larger a value, the longer its line, and no line is shorter than
/// one.
pub proof fn law_lines_grow_with_their_values(
    rect: Rect,
    x: Binary32,
    less: Binary32,
    more: Binary32,
    stroke: Stroke,
)
    requires
        has_lines(rect),
        num(ZERO_BITS).at_most(less),
        less.at_most(more),
        more.at_most(num(ONE_BITS)),
        plain(less),
        plain(more),
    ensures
        ({
            let (a, b) = (
                channel_line(rect, StripChannel::Brake, x, less, stroke),
                channel_line(rect, StripChannel::Brake, x, more, stroke),
            );
            let (c, d) = (
                channel_line(rect, StripChannel::Throttle, x, less, stroke),
                channel_line(rect, StripChannel::Throttle, x, more, stroke),
            );
            let (low, high) = (rect.max.y.difference(num(ONE_BITS)), rect.min.y.sum(num(ONE_BITS)));
            &&& a is LineSegment && b is LineSegment && c is LineSegment && d is LineSegment
            &&& line_start(a) == low && line_start(b) == low
            &&& line_start(c) == high && line_start(d) == high
            &&& line_end(b).at_most(line_end(a)) && line_end(a).at_most(low.difference(num(ONE_BITS)))
            &&& line_end(c).at_most(line_end(d)) && high.sum(num(ONE_BITS)).at_most(line_end(c))
            &&& a->LineSegment_start.x == x && a->LineSegment_end.x == x
            &&& c->LineSegment_start.x == x && c->LineSegment_end.x == x
        }),
{
    let one = num(ONE_BITS);
    let height = rect.max.y.difference(rect.min.y).difference(num(0x4000_0000));
    lemma_sum_within(rect.max.y, rect.min.y, 0x4f00_0000);
    lemma_sum_within(rect.max.y.difference(rect.min.y), num(0x4000_0000), 0x4f80_0000);
    lemma_share_is_at_most_the_whole(less, height);
    lemma_share_is_at_most_the_whole(more, height);
    less.lemma_rank_orders_values(more);
    lemma_products_keep_order(less, height, more, height);
    less.product(height).lemma_rank_orders_values(more.product(height));
    let (a, b) = (less.product(height).larger(one), more.product(height).larger(one));
    assert(one.rank() <= a.rank() <= b.rank());
    one.lemma_rank_orders_values(a);
    a.lemma_rank_orders_values(b);
    let (low, high) = (rect.max.y.difference(one), rect.min.y.sum(one));
    lemma_sum_within(rect.max.y, one, 0x4f00_0000);
    lemma_sum_within(rect.min.y, one, 0x4f00_0000);
    lemma_sum_within(low, a, 0x5000_0000);
    lemma_sum_within(low, b, 0x5000_0000);
    lemma_sum_within(low, one, 0x5000_0000);
    lemma_sum_within(high, a, 0x5000_0000);
    lemma_sum_within(high, b, 0x5000_0000);
    lemma_sum_within(high, one, 0x5000_0000);
    lemma_difference_falls(low, a, b);
    lemma_difference_falls(low, one, a);
    lemma_sum_grows(high, a, b);
    lemma_sum_grows(high, one, a);
    low.difference(b).lemma_rank_orders_values(low.difference(a));
    low.difference(a).lemma_rank_orders_values(low.difference(one));
    high.sum(a).lemma_rank_orders_values(high.sum(b));
    high.sum(one).lemma_rank_orders_values(high.sum(a));
}

/// A point is shown full when it is captured, ever less as it gets older, and
/// not at all from the age of the window on.
pub proof fn law_points_fade_with_age(
    newer: TelemetryPoint,
    older: TelemetryPoint,
    now: Instant,
    window_seconds: Binary32,
)
    requires
        older.captured_at@ <= newer.captured_at@ <= now@,
        now@ - older.captured_at@ < LONG_SPAN_NANOS,
        window_seconds.finite(),
        num(SHORTEST_WINDOW_BITS).at_most(window_seconds),
    ensures
        freshness_of(older, now, window_seconds).at_most(freshness_of(newer, now, window_seconds)),
        newer.captured_at@ == now@ ==> freshness_of(newer, now, window_seconds) == num(ONE_BITS),
        window_seconds.at_most(in_seconds((now@ - older.captured_at@) as nat)) ==> freshness_of(
            older,
            now,
            window_seconds,
        ) == num(ZERO_BITS),
{
    let (young, old) = ((now@ - newer.captured_at@) as nat, (now@ - older.captured_at@) as nat);
    law_seconds_grow_with_nanoseconds(young, old);
    law_seconds_grow_with_nanoseconds(0, young);
    crate::time_laws::law_seconds_are_billions_of_nanoseconds(young);
    crate::time_laws::law_seconds_are_billions_of_nanoseconds(old);
    crate::time_laws::law_seconds_are_billions_of_nanoseconds(0);
    let (a, b) = (in_seconds(young), in_seconds(old));
    assert(window_seconds.larger(num(SHORTEST_WINDOW_BITS)) == window_seconds);
    assert(elapsed_between(newer.captured_at@, now@) == young && elapsed_between(older.captured_at@, now@) == old);
    a.lemma_rank_orders_values(b);
    law_recency_falls_with_age(a, b, window_seconds);
    law_recency_is_the_rest_of_the_window(a, window_seconds);
    law_recency_is_the_rest_of_the_window(b, window_seconds);
    let (p, q) = (recency_of(a, window_seconds), recency_of(b, window_seconds));
    q.lemma_rank_orders_values(p);
    lemma_plain(a);
    window_seconds.lemma_rank_orders_values(b);
}

/// A live point adds a brake line only if its brake times its freshness exceeds
/// 0.02, and a throttle line likewise, both at its place on the lap. With ABS
/// active the brake line has the colour of ABS, where that is to be shown.
pub proof fn law_live_point_shows_its_pedals(rect: Rect, point: TelemetryPoint, now: Instant, style: StripStyle)
    ensures
        ({
            let lines = point_lines(rect, point, now, style);
            let freshness = freshness_of(point, now, style.window_seconds);
            let braking = num(0x3ca3_d70a).below(point.telemetry.brake.product(freshness));
            let driving = num(0x3ca3_d70a).below(point.telemetry.throttle.product(freshness));
            let x = rect.min.x.sum(point.telemetry.track_position.product(rect.max.x.difference(rect.min.x)));
            let color = if point.abs_active && style.show_abs { style.abs_active } else { style.brake };
            &&& lines.len() == (if braking { 1int } else { 0 }) + (if driving { 1int } else { 0 })
            &&& braking ==> lines[0] is LineSegment && lines[0]->LineSegment_start.x == x && line_start(lines[0])
                == rect.max.y.difference(num(ONE_BITS)) && seq![lines[0]] == live_line(
                rect,
                StripChannel::Brake,
                color,
                style.alpha,
                x,
                point.telemetry.brake,
                freshness,
            )
            &&& driving ==> lines.last() is LineSegment && lines.last()->LineSegment_start.x == x && line_start(
                lines.last(),
            ) == rect.min.y.sum(num(ONE_BITS)) && seq![lines.last()] == live_line(
                rect,
                StripChannel::Throttle,
                style.throttle,
                style.alpha,
                x,
                point.telemetry.throttle,
                freshness,
            )
        }),
{
    let lines = point_lines(rect, point, now, style);
    let freshness = freshness_of(point, now, style.window_seconds);
    let x = rect.min.x.sum(point.telemetry.track_position.product(rect.max.x.difference(rect.min.x)));
    let color = if point.abs_active && style.show_abs {
        style.abs_active
    } else {
        style.brake
    };
    let a = live_line(rect, StripChannel::Brake, color, style.alpha, x, point.telemetry.brake, freshness);
    let b = live_line(
        rect,
        StripChannel::Throttle,
        style.throttle,
        style.alpha,
        x,
        point.telemetry.throttle,
        freshness,
    );
    reveal(point_lines);
    assert(lines == a + b);
    if a.len() == 1 {
        assert(seq![lines[0]] =~= a);
    }
    if b.len() == 1 {
        assert(lines.last() == b[0]);
        assert(seq![lines.last()] =~= b);
    }
}

/// The cursor goes over the whole height of the strip at the place of the car,
/// it is painted last, and it moves to the right as the car goes on.
pub proof fn law_cursor_follows_the_car(
    rect: Rect,
    points: Seq<TelemetryPoint>,
    now: Instant,
    style: StripStyle,
    lap: Option<Seq<LapPoint>>,
    earlier: Binary32,
    later: Binary32,
)
    requires
        rect.min.x.magnitude() <= 0x4f00_0000,
        rect.max.x.magnitude() <= 0x4f00_0000,
        plain(rect.max.x.difference(rect.min.x)),
        earlier.at_most(later),
        plain(earlier),
        plain(later),
    ensures
        ({
            let (a, b) = (cursor(rect, earlier, style.alpha), cursor(rect, later, style.alpha));
            &&& strip_shapes(rect, points, now, later, style, lap).last() == b
            &&& a is LineSegment && b is LineSegment
            &&& line_start(b) == rect.min.y && line_end(b) == rect.max.y
            &&& b->LineSegment_start.x == b->LineSegment_end.x
            &&& a->LineSegment_start.x.at_most(b->LineSegment_start.x)
            &&& rect.min.x.at_most(a->LineSegment_start.x)
        }),
{
    let width = rect.max.x.difference(rect.min.x);
    lemma_sum_within(rect.max.x, rect.min.x, 0x4f00_0000);
    let (s, t) = (earlier.unit(), later.unit());
    let zero = num(ZERO_BITS);
    lemma_share_is_at_most_the_whole(s, width);
    lemma_share_is_at_most_the_whole(t, width);
    s.lemma_rank_orders_values(t);
    lemma_products_keep_order(s, width, t, width);
    let (p, q) = (s.product(width), t.product(width));
    lemma_sum_within(rect.min.x, p, 0x4f80_0000);
    lemma_sum_within(rect.min.x, q, 0x4f80_0000);
    lemma_sum_grows(rect.min.x, p, q);
    rect.min.x.sum(p).lemma_rank_orders_values(rect.min.x.sum(q));
    lemma_sum_within(rect.min.x, zero, 0x4f80_0000);
    lemma_plain(p);
    assert(magnitude_value(0) == 0);
    lemma_sum_grows(rect.min.x, zero, p);
    if rect.min.x.magnitude() != 0 {
        crate::arithmetic::lemma_sum_with_zero(rect.min.x, zero);
    } else {
        lemma_exact_value_is_kept(0, 1, 0);
    }
    rect.min.x.lemma_rank_orders_values(rect.min.x.sum(p));
}

} // verus!
