//! Where the lines, bars, lights and arcs of the displays stand.
use crate::arithmetic::{
    lemma_exact_value_is_kept, lemma_one_is_unit, lemma_results_are_numbers, lemma_whole_is_exact, whole,
};
use crate::binary32::{num, unit_value, Binary32, ONE_BITS};
use crate::exactness::{
    lemma_difference_falls, lemma_differences_keep_order, lemma_integer_constant, lemma_plain, lemma_product_is_plain,
    lemma_products_keep_order, lemma_sum_grows, lemma_sum_within, plain,
};
use crate::renderer::arrangement_laws::{lemma_apart, lemma_part, lemma_shift_keeps_order};
use crate::renderer::classic::bar_of;
use crate::renderer::color::{premultiplied, Color};
use crate::renderer::detail_laws::{lemma_quotient_shrinks, lemma_small_whole, lemma_times_more};
use crate::renderer::geometry::{Pos2, Rect, Vec2};
use crate::renderer::instruments::{
    arc_angles_at, arc_center, arc_corners, arc_extent, arc_inner, arc_outer, arc_start, arc_step, light_rect, ArcEdges,
};
use crate::renderer::stadium::{angles, arc, outline};
use crate::renderer::window::{window_of, WindowLayout};
use vstd::arithmetic::power2::{lemma2_to64, lemma_pow2_adds, lemma_pow2_pos, pow2};
use vstd::prelude::*;

verus! {

/// The sign of the minimize button points up while the window is minimized and
/// down otherwise: its two lines meet in a tip in the middle, above or below
/// their other ends.
pub proof fn law_chevron_points_where_the_window_goes(window: WindowLayout, minimized: bool, alpha: u8)
    requires
        window.minimize_button.middle().y.magnitude() <= 0x4a00_0000,
        window.minimize_button.middle().x.magnitude() <= 0x4a00_0000,
    ensures
        ({
            let lines = window.chevron(minimized, alpha);
            let (first, second) = (lines[0], lines[1]);
            let tip = first->LineSegment_end;
            &&& lines.len() == 2
            &&& first is LineSegment && second is LineSegment
            &&& second->LineSegment_start == tip
            &&& tip.x == window.minimize_button.middle().x
            &&& first->LineSegment_start.y == second->LineSegment_end.y
            &&& minimized ==> tip.y.at_most(first->LineSegment_start.y)
            &&& !minimized ==> first->LineSegment_start.y.at_most(tip.y)
            &&& first->LineSegment_start.x.at_most(tip.x) && tip.x.at_most(second->LineSegment_end.x)
        }),
{
    let middle = window.minimize_button.middle();
    let rise = num(0x3fe0_0000);
    lemma_apart(middle.y, rise);
    lemma_apart(middle.x, num(0x40a0_0000));
    let (a, b) = (middle.y.difference(rise), middle.y.sum(rise));
    a.lemma_rank_orders_values(b);
}

/// The lines of the grip are horizontal, centered in the bar and equally long,
/// and those of the handle lead from the lower to the right edge, each further
/// out than the one before.
pub proof fn law_grip_and_handle_are_drawn_at_their_places(window: WindowLayout, dy: Binary32, alpha: u8, i: int)
    requires
        window.content.max.x.magnitude() <= 0x4a00_0000,
        window.content.max.y.magnitude() <= 0x4a00_0000,
        1 <= i < 3,
    ensures
        ({
            let grip = window.grip_line(dy, alpha);
            let middle = window.bar.middle();
            let (near, far) = (window.handle_line(i, alpha), window.handle_line(i + 1, alpha));
            &&& grip is LineSegment && near is LineSegment && far is LineSegment
            &&& grip->LineSegment_start.y == middle.y.sum(dy) && grip->LineSegment_end.y == middle.y.sum(dy)
            &&& grip->LineSegment_start.x == middle.x.difference(num(0x4140_0000))
            &&& grip->LineSegment_end.x == middle.x.sum(num(0x4140_0000))
            &&& near->LineSegment_start.y == window.content.max.y && near->LineSegment_end.x == window.content.max.x
            &&& far->LineSegment_start.x.at_most(near->LineSegment_start.x)
            &&& far->LineSegment_end.y.at_most(near->LineSegment_end.y)
        }),
{
    let corner = window.content.max;
    let step = num(0x40a0_0000);
    lemma_times_more(i as nat, step);
    let (a, b) = (whole(i as nat).product(step), whole((i + 1) as nat).product(step));
    lemma_sum_within(corner.x, a, 0x5100_0000);
    lemma_sum_within(corner.x, b, 0x5100_0000);
    lemma_sum_within(corner.y, a, 0x5100_0000);
    lemma_sum_within(corner.y, b, 0x5100_0000);
    lemma_difference_falls(corner.x, a, b);
    lemma_difference_falls(corner.y, a, b);
    corner.x.difference(b).lemma_rank_orders_values(corner.x.difference(a));
    corner.y.difference(b).lemma_rank_orders_values(corner.y.difference(a));
}

/// The title bar is 26 points high, and the settings start four points below it,
/// four points from the right edge, at most 260 points wide.
pub proof fn law_settings_hang_from_the_bar(screen: Rect)
    ensures
        ({
            let window = window_of(screen);
            let width = num(0x4382_0000).smaller(screen.max.x.difference(screen.min.x).difference(num(0x4100_0000)));
            &&& window.bar.max.y == screen.min.y.sum(num(0x41d0_0000))
            &&& window.panel.min.y == window.bar.max.y.sum(num(0x4080_0000))
            &&& window.panel.min.x == screen.max.x.difference(width).difference(num(0x4080_0000))
            &&& window.panel.max.x == window.panel.min.x.sum(width)
            &&& window.cap_radius == window.content.max.y.difference(window.content.min.y).quotient(num(0x4000_0000))
            &&& window.shows_content <==> num(0x4120_0000).below(
                window.content.max.y.difference(window.content.min.y),
            )
            &&& window.resize_handle.min.x == window.content.max.x.difference(num(0x41a0_0000))
            &&& window.resize_handle.min.y == window.content.max.y.difference(num(0x41a0_0000))
            &&& window.content.max.y == screen.max.y.difference(num(0x4000_0000))
        }),
{
}

/// The bars of the pedals stand side by side with four points between them; each
/// has its value above it and its name within, both in its middle, and a mark at
/// half its height.
pub proof fn law_bars_stand_side_by_side(
    bars: Rect,
    bar_width: Binary32,
    i: int,
    value: Binary32,
    color: Color,
    supported: bool,
    alpha: u8,
)
    requires
        0 <= i < 3,
    ensures
        ({
            let bar = bar_of(bars, bar_width, i, value, color, supported, alpha);
            let left = bars.min.x.sum(whole(i as nat).product(bar_width.sum(num(0x4080_0000))));
            let top = bars.min.y.sum(num(0x4180_0000)).sum(num(0x4000_0000));
            let bottom = bars.max.y.difference(num(0x4080_0000));
            &&& bar.outline.min == (Pos2 { x: left, y: top })
            &&& bar.outline.max.x == left.sum(bar_width)
            &&& bar.percent_place.x == left.sum(bar_width.quotient(num(0x4000_0000)))
            &&& bar.name_place.x == bar.percent_place.x
            &&& bar.percent_place.y == bars.min.y.sum(num(0x4100_0000))
            &&& bar.name_place.y == bottom.difference(num(0x40e0_0000))
            &&& bar.tick.0.y == bar.tick.1.y
            &&& bar.fill_color == premultiplied(color.r, color.g, color.b, alpha)
            &&& bar.tick.0 == (Pos2 { x: left, y: top.sum(bottom.difference(top).product(num(0x3f00_0000))) })
        }),
{
}

/// A point of an arc lies from its center in the given direction, as far as the
/// radius.
pub proof fn law_arc_follows_its_directions(center: Pos2, radius: Binary32, directions: Seq<Vec2>, i: int)
    requires
        0 <= i < directions.len(),
    ensures
        arc(center, radius, directions).len() == directions.len(),
        arc(center, radius, directions)[i].x == center.x.sum(radius.product(directions[i].x)),
        arc(center, radius, directions)[i].y == center.y.sum(radius.product(directions[i].y)),
{
}

/// The outline of the content starts with the rounded corner at the upper left,
/// goes along the upper edge, round the end on the right, back along the lower
/// edge, and ends with the corner at the lower left.
pub proof fn law_outline_goes_round_the_content(
    rect: Rect,
    left_radius: Binary32,
    cap_radius: Binary32,
    top_left: Seq<Vec2>,
    cap: Seq<Vec2>,
    bottom_left: Seq<Vec2>,
)
    ensures
        ({
            let path = outline(rect, left_radius, cap_radius, top_left, cap, bottom_left);
            let left = rect.min.x.sum(left_radius);
            let upper = arc((Pos2 { x: left, y: rect.min.y.sum(left_radius) }), left_radius, top_left);
            let lower = arc((Pos2 { x: left, y: rect.max.y.difference(left_radius) }), left_radius, bottom_left);
            let half = rect.max.y.difference(rect.min.y).quotient(num(0x4000_0000));
            let radius = cap_radius.smaller(half);
            let turn = rect.max.x.difference(radius);
            let n = path.len();
            &&& upper.is_prefix_of(path)
            &&& path[upper.len() as int] == (Pos2 { x: turn, y: rect.min.y })
            &&& path.subrange(n - lower.len(), n as int) == lower
            &&& path[n - lower.len() - 1] == (Pos2 { x: left, y: rect.max.y })
            &&& n >= upper.len() + cap.len() + lower.len() + 2
        }),
{
    let path = outline(rect, left_radius, cap_radius, top_left, cap, bottom_left);
    let left = rect.min.x.sum(left_radius);
    let lower = arc((Pos2 { x: left, y: rect.max.y.difference(left_radius) }), left_radius, bottom_left);
    let n = path.len();
    assert(path.subrange(n - lower.len(), n as int) =~= lower);
}

/// The angles of an arc start with its first and go on in equal steps by the
/// whole turn.
pub proof fn law_angles_span_the_turn(start: Binary32, turn: Binary32, steps: u64)
    requires
        0 < steps < 0x1000,
        start.finite(),
        start.magnitude() != 0,
        turn.finite(),
    ensures
        angles(start, turn, steps).len() == steps + 1,
        angles(start, turn, steps)[0] == start,
        angles(start, turn, steps)[steps as int] == start.sum(num(ONE_BITS).product(turn)),
{
    let n = whole(steps as nat);
    lemma_whole_is_exact(steps as nat);
    lemma_whole_is_exact(0);
    lemma_plain(n);
    lemma_plain(whole(0));
    lemma_pow2_pos(149);
    lemma_one_is_unit();
    let u = unit_value();
    assert(steps * u > 0) by (nonlinear_arith)
        requires
            steps > 0,
            u > 0,
    ;
    assert((steps * u) * u == u * (steps * u)) by (nonlinear_arith);
    lemma_exact_value_is_kept(n.value() * u, n.value(), ONE_BITS as int);
    assert(n.quotient(n) == num(ONE_BITS));
    crate::arithmetic::lemma_quotient_of_zero(whole(0), n);
    let none = whole(0).quotient(n);
    crate::arithmetic::lemma_product_with_zero(none, turn);
    crate::arithmetic::lemma_sum_with_zero(start, none.product(turn));
}

proof fn lemma_arc_step()
    ensures
        plain(arc_extent()),
        arc_extent().magnitude() <= 0x4080_0000,
        plain(arc_step()),
        arc_step().magnitude() <= 0x4080_0000,
        arc_start().magnitude() <= 0x4200_0000,
{
    let (a, b, bound) = (num(0x4316_0000), num(0x3c8e_fa35), num(0x4080_0000));
    lemma2_to64();
    lemma_integer_constant(a, 150, 16);
    lemma_integer_constant(bound, 4, 21);
    lemma_pow2_adds(29, 120);
    lemma_pow2_pos(120);
    let p = pow2(120) as int;
    let u = unit_value();
    assert(b.value() == 9_370_165 * p);
    assert(u == 0x2000_0000 * p);
    assert((150 * u) * (9_370_165 * p) <= (4 * u) * u) by (nonlinear_arith)
        requires
            u == 0x2000_0000 * p,
            p > 0,
    ;
    lemma_product_is_plain(a, b, bound);
    lemma_plain(bound);
    let extent = arc_extent();
    extent.lemma_rank_orders_values(bound);
    lemma_whole_is_exact(37);
    lemma_pow2_pos(149);
    lemma_one_is_unit();
    num(ONE_BITS).lemma_rank_orders_values(whole(37));
    lemma_quotient_shrinks(extent, whole(37));
    lemma_plain(whole(37));
    lemma_results_are_numbers(extent, whole(37));
    lemma_part(extent, num(0x3f00_0000));
    lemma_sum_within(num(0xbfc9_0fdb), extent.product(num(0x3f00_0000)), 0x4100_0000);
}

proof fn lemma_arc_multiple(n: nat)
    requires
        n <= 37,
    ensures
        plain(whole(n).product(arc_step())),
        whole(n).product(arc_step()).magnitude() <= 0x4320_0000,
{
    lemma_arc_step();
    let step = arc_step();
    let (four, bound) = (num(0x4080_0000), num(0x4320_0000));
    lemma2_to64();
    lemma_integer_constant(four, 4, 21);
    lemma_integer_constant(bound, 160, 16);
    lemma_plain(four);
    lemma_plain(bound);
    lemma_plain(step);
    step.lemma_rank_orders_values(four);
    lemma_whole_is_exact(n);
    lemma_pow2_pos(149);
    let (v, u) = (step.value(), unit_value());
    assert((n * u) * v <= (160 * u) * u) by (nonlinear_arith)
        requires
            0 <= n <= 37,
            0 <= v <= 4 * u,
            u > 0,
    ;
    lemma_plain(whole(n));
    lemma_product_is_plain(whole(n), step, bound);
    whole(n).product(step).lemma_rank_orders_values(bound);
}

/// The segments of the steering arc follow each other clockwise: neither end of
/// a segment lies before that of the segment to its left.
pub proof fn law_arc_segments_go_clockwise(i: int)
    requires
        0 <= i < 36,
    ensures
        arc_angles_at(i).0.at_most(arc_angles_at(i + 1).0),
        arc_angles_at(i).1.at_most(arc_angles_at(i + 1).1),
{
    lemma_arc_step();
    let (start, step) = (arc_start(), arc_step());
    lemma_part(step, num(0x3f19_999a));
    lemma_part(step.product(num(0x3f19_999a)), num(0x3f00_0000));
    let half_gap = step.product(num(0x3f19_999a)).product(num(0x3f00_0000));
    lemma_arc_order(i as nat, half_gap);
    lemma_arc_order((i + 1) as nat, half_gap);
}

proof fn lemma_arc_order(n: nat, half_gap: Binary32)
    requires
        n < 37,
        plain(half_gap),
        half_gap.magnitude() <= 0x4080_0000,
    ensures
        ({
            let (a, b) = (
                arc_start().sum(whole(n).product(arc_step())),
                arc_start().sum(whole(n + 1).product(arc_step())),
            );
            &&& a.sum(half_gap).at_most(b.sum(half_gap))
            &&& a.difference(half_gap).at_most(b.difference(half_gap))
        }),
{
    lemma_arc_step();
    lemma_arc_multiple(n);
    lemma_arc_multiple(n + 1);
    let (start, step) = (arc_start(), arc_step());
    lemma_whole_is_exact(n);
    lemma_whole_is_exact(n + 1);
    lemma_pow2_pos(149);
    assert(n * unit_value() <= (n + 1) * unit_value()) by (nonlinear_arith)
        requires
            unit_value() > 0,
    ;
    lemma_products_keep_order(whole(n), step, whole(n + 1), step);
    let (p, q) = (whole(n).product(step), whole(n + 1).product(step));
    lemma_sum_within(start, p, 0x4400_0000);
    lemma_sum_within(start, q, 0x4400_0000);
    lemma_sum_grows(start, p, q);
    let (a, b) = (start.sum(p), start.sum(q));
    lemma_sum_within(a, half_gap, 0x4480_0000);
    lemma_sum_within(b, half_gap, 0x4480_0000);
    lemma_shift_keeps_order(a, b, half_gap);
    lemma_shift_keeps_order(a, b, half_gap.opposite());
}

/// The corners of a segment of the arc lie on its inner and outer radius, first
/// at its start and then at its end, and the inner radius is not larger than the
/// outer one.
pub proof fn law_arc_segments_lie_between_the_radii(rect: Rect, edges: ArcEdges)
    requires
        plain(rect.span_x()),
        rect.span_x().magnitude() <= 0x4a00_0000,
    ensures
        ({
            let center = arc_center(rect);
            let (inner, outer) = (arc_inner(rect), arc_outer(rect));
            let corners = arc_corners(center, inner, outer, edges);
            &&& inner.at_most(outer)
            &&& corners.len() == 4
            &&& corners[0].x == center.x.sum(inner.product(edges.min_cos)) && corners[0].y == center.y.sum(
                inner.product(edges.min_sin),
            )
            &&& corners[1].x == center.x.sum(outer.product(edges.min_cos)) && corners[1].y == center.y.sum(
                outer.product(edges.min_sin),
            )
            &&& corners[2].x == center.x.sum(outer.product(edges.max_cos)) && corners[2].y == center.y.sum(
                outer.product(edges.max_sin),
            )
            &&& corners[3].x == center.x.sum(inner.product(edges.max_cos)) && corners[3].y == center.y.sum(
                inner.product(edges.max_sin),
            )
            &&& center.x == rect.middle().x
        }),
{
    let outer = arc_outer(rect);
    lemma_part(rect.span_x(), num(0x3efa_e148));
    assert(plain(outer) && outer.magnitude() <= 0x4a00_0000 && num(0x4100_0000).at_most(outer));
    lemma_part(outer, num(0x3e23_d70a));
    let thickness = outer.product(num(0x3e23_d70a)).clamped(num(0x40e0_0000), num(0x4140_0000));
    lemma_apart(outer, thickness);
}

/// The shift lights stand from left to right in one row.
pub proof fn law_shift_lights_stand_in_a_row(rect: Rect, i: int)
    requires
        rect.min.x.magnitude() <= 0x4a00_0000,
        plain(rect.span_x()),
        rect.span_x().magnitude() <= 0x4a00_0000,
        num(0x4260_0000).at_most(rect.span_x()),
        0 <= i < 14,
    ensures
        light_rect(rect, i).min.x.at_most(light_rect(rect, i + 1).min.x),
        light_rect(rect, i).min.y == light_rect(rect, i + 1).min.y,
        light_rect(rect, i).max.y == light_rect(rect, i + 1).max.y,
{
    let gap = num(0x4080_0000);
    let gaps = gap.product(whole(14));
    let all = num(0x4260_0000);
    lemma2_to64();
    lemma_integer_constant(gap, 4, 21);
    lemma_integer_constant(all, 56, 18);
    lemma_whole_is_exact(14);
    lemma_plain(gap);
    lemma_plain(all);
    lemma_plain(whole(14));
    lemma_pow2_pos(149);
    let u = unit_value();
    assert((4 * u) * (14 * u) == (56 * u) * u) by (nonlinear_arith);
    lemma_exact_value_is_kept(gap.value() * whole(14).value(), u, all.magnitude());
    assert(gaps == all);
    let span = rect.span_x();
    all.lemma_rank_orders_values(span);
    lemma_differences_keep_order(span, span, all);
    lemma_sum_within(span, all, 0x4a00_0000);
    let rest = span.difference(all);
    lemma_small_whole(15);
    lemma_quotient_shrinks(rest, whole(15));
    lemma_plain(whole(15));
    lemma_results_are_numbers(rest, whole(15));
    let width = rest.quotient(whole(15));
    lemma_sum_within(width, gap, 0x4a80_0000);
    lemma_plain(width);
    let pitch = width.sum(gap);
    crate::arithmetic::lemma_rounding_exists(width.value() + gap.value(), 1);
    assert(plain(pitch));
    lemma_times_more(i as nat, pitch);
    let (a, b) = (whole(i as nat).product(pitch), whole((i + 1) as nat).product(pitch));
    lemma_sum_within(rect.min.x, a, 0x5100_0000);
    lemma_sum_within(rect.min.x, b, 0x5100_0000);
    lemma_sum_grows(rect.min.x, a, b);
    rect.min.x.sum(a).lemma_rank_orders_values(rect.min.x.sum(b));
}

} // verus!
