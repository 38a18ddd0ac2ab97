//! What the overlay shows over time, and how its parts are painted and handed on.
use crate::arithmetic::{
    law_sum_and_product_commute, lemma_difference_with_itself, lemma_exact_value_is_kept, lemma_one_is_unit,
    lemma_product_with_zero, lemma_quotient_of_zero, lemma_results_are_numbers, lemma_sum_with_zero,
    lemma_whole_is_exact, size, whole,
};
use crate::binary32::{lemma_magnitude_value_increases, magnitude_value, num, unit_value, Binary32, ONE_BITS, ZERO_BITS};
use crate::exactness::{
    lemma_difference_falls, lemma_plain, lemma_share_is_at_most_the_whole, lemma_sum_grows, lemma_sum_within, plain,
};
use crate::model::TelemetryPoint;
use crate::renderer::config_panel::note_strength;
use crate::renderer::geometry::{equal_numbers, Rect};
use crate::renderer::glow::{GlowInstance, GlowVertex};
use crate::renderer::glow_upload::{instance_patterns, law_patterns_fill_the_buffers, patterns, vertex_patterns};
use crate::renderer::overlay::{
    action_for, bar_after, bar_rate, bar_target, due_after, in_window, is_due, latest_shown, noted, points_shown,
    recent, shown_live, shown_steering, OverlayGeometry, PollerAction,
};
use crate::renderer::segments::{grid_column, grid_shapes, style_of, SegmentState};
use crate::renderer::trace_laws::law_interpolation_reaches_its_ends;
use crate::time::elapsed_between;
use crate::time_laws::{law_seconds_grow_with_nanoseconds, LONG_SPAN_NANOS};
use vstd::arithmetic::power2::lemma_pow2_pos;
use vstd::prelude::*;

verus! {

/// A point belongs to the window as long as the time since its capture does not
/// exceed the window, and it counts as live for two seconds.
pub proof fn law_points_are_shown_for_their_time(point: TelemetryPoint, now: nat, window: nat)
    ensures
        in_window(point, now, window) <==> now <= point.captured_at@ + window,
        recent(Some(point), now) <==> now <= point.captured_at@ + 2_000_000_000,
        !recent(None, now),
        !shown_live(None, now),
{
}

/// Whatever counts as live at some time counted as live before.
pub proof fn law_live_points_were_live_before(point: TelemetryPoint, earlier: nat, later: nat)
    requires
        earlier <= later,
        later - point.captured_at@ < LONG_SPAN_NANOS,
        shown_live(Some(point), later),
    ensures
        shown_live(Some(point), earlier),
{
    law_seconds_grow_with_nanoseconds(
        elapsed_between(point.captured_at@, earlier),
        elapsed_between(point.captured_at@, later),
    );
}

/// While running the overlay shows the newest point of the buffer, and while
/// stopped none; its steering is that of the point shown.
pub proof fn law_running_overlay_shows_the_newest_point(
    points: Seq<TelemetryPoint>,
    now: nat,
    window: nat,
    half_lock: Binary32,
)
    ensures
        points.len() > 0 ==> latest_shown(points, true) == Some(points[points.len() - 1]),
        points.len() == 0 ==> latest_shown(points, true) is None,
        latest_shown(points, false) is None,
        points_shown(points, false, now, window).len() == 0,
        shown_steering(None, half_lock) == num(ZERO_BITS),
        forall|p: TelemetryPoint|
            p.telemetry.wheel_angle_degrees is Some ==> #[trigger] shown_steering(Some(p), half_lock)
                == p.telemetry.wheel_angle_degrees->0,
{
}

/// The window is refreshed at most sixty times a second: after a refresh the
/// next is due 16.666666 milliseconds later, and an early request changes
/// nothing.
pub proof fn law_refresh_is_due_a_sixtieth_later(due: nat, now: nat)
    ensures
        is_due(due, now) <==> due <= now,
        due <= now ==> due_after(due, now) == now + 16_666_666,
        now < due ==> due_after(due, now) == due,
{
}

/// The poller is started when the overlay runs and it does not, stopped in the
/// opposite case, and left alone otherwise.
pub proof fn law_poller_follows_the_overlay(running: bool, polling: bool)
    ensures
        action_for(running, polling) == PollerAction::Start <==> running && !polling,
        action_for(running, polling) == PollerAction::Stop <==> !running && polling,
        action_for(running, polling) == PollerAction::Keep <==> running == polling,
{
}

/// The overlay notes the size and position that the window reports, but not the
/// height while it is minimized.
pub proof fn law_overlay_notes_what_the_window_reports(
    geometry: OverlayGeometry,
    size: (Binary32, Binary32),
    position: (Binary32, Binary32),
    minimized: bool,
)
    ensures
        ({
            let after = noted(geometry, Some(size), Some(position), minimized);
            &&& after.width == size.0
            &&& after.height == if minimized { geometry.height } else { size.1 }
            &&& after.position_x == position.0 && after.position_y == position.1
        }),
        noted(geometry, None, None, minimized) == geometry,
        noted(geometry, Some(size), None, minimized).position_x == geometry.position_x,
        noted(geometry, Some(size), None, minimized).position_y == geometry.position_y,
        noted(geometry, None, Some(position), minimized).width == geometry.width,
        noted(geometry, None, Some(position), minimized).height == geometry.height,
{
}

/// The title bar is wanted while the overlay is minimized, hovered or has its
/// settings open. It appears faster than it disappears.
pub proof fn law_bar_is_wanted_while_it_is_used(minimized: bool, hovered: bool, config_open: bool, alpha: Binary32)
    ensures
        minimized || hovered || config_open ==> bar_target(minimized, hovered, config_open) == num(ONE_BITS),
        !minimized && !hovered && !config_open ==> bar_target(minimized, hovered, config_open) == num(ZERO_BITS),
        alpha.below(num(ONE_BITS)) ==> bar_rate(num(ONE_BITS), alpha) == num(0x4180_0000),
        num(ZERO_BITS).at_most(alpha) ==> bar_rate(num(ZERO_BITS), alpha) == num(0x40a0_0000),
{
}

/// The bar moves towards its target and not beyond: with full decay it stays
/// where it is, without any left a disappearing bar is gone, and in between it
/// neither grows while it disappears nor shrinks while it appears.
pub proof fn law_bar_moves_towards_its_target(alpha: Binary32, decay: Binary32)
    requires
        plain(alpha),
        alpha.at_most(num(ONE_BITS)),
        plain(decay),
        decay.at_most(num(ONE_BITS)),
    ensures
        ({
            let (zero, one) = (num(ZERO_BITS), num(ONE_BITS));
            &&& equal_numbers(bar_after(alpha, zero, one), alpha)
            &&& equal_numbers(bar_after(alpha, one, one), alpha)
            &&& equal_numbers(bar_after(alpha, zero, zero), zero)
            &&& bar_after(alpha, zero, decay).at_most(alpha) && zero.at_most(bar_after(alpha, zero, decay))
            &&& alpha.at_most(bar_after(alpha, one, decay))
        }),
{
    let (zero, one) = (num(ZERO_BITS), num(ONE_BITS));
    lemma_rest(decay);
    lemma_rest(one);
    lemma_rest(zero);
    lemma_difference_with_itself(one);
    lemma_sum_with_zero(one, zero.opposite());
    lemma_fading(alpha, one.difference(decay));
    lemma_fading(alpha, one.difference(one));
    lemma_fading(alpha, one.difference(zero));
    lemma_rest(alpha);
    lemma_appearing(alpha, one.difference(decay));
    lemma_appearing(alpha, one.difference(one));
    let gap = one.difference(alpha);
    lemma_product_with_zero(zero, gap);
    lemma_no_step(alpha, gap.product(zero));
    lemma_less(alpha);
    lemma_product_with_zero(zero, zero.difference(alpha));
    lemma_no_step(alpha, zero.difference(alpha).product(zero));
}

/// One less a share is a share.
proof fn lemma_rest(share: Binary32)
    requires
        plain(share),
        share.at_most(num(ONE_BITS)),
    ensures
        plain(num(ONE_BITS).difference(share)),
        num(ONE_BITS).difference(share).magnitude() <= ONE_BITS,
{
    let one = num(ONE_BITS);
    lemma_plain(share);
    lemma_plain(one);
    share.lemma_rank_orders_values(one);
    crate::exactness::lemma_differences_keep_order(one, one, share);
    lemma_one_is_unit();
    let exact = one.value() - share.value();
    assert(share.opposite().value() == -share.value());
    crate::arithmetic::lemma_rounding_exists(exact, 1);
    lemma_exact_value_is_kept(one.value(), 1, ONE_BITS as int);
    crate::arithmetic::lemma_rounding_keeps_order(exact, one.value(), 1);
}

/// Zero less a number is the opposite number.
proof fn lemma_less(alpha: Binary32)
    requires
        plain(alpha),
    ensures
        num(ZERO_BITS).difference(alpha).value() == -alpha.value(),
        num(ZERO_BITS).difference(alpha).finite(),
        alpha.magnitude() != 0 ==> num(ZERO_BITS).difference(alpha) == alpha.opposite(),
{
    let zero = num(ZERO_BITS);
    law_sum_and_product_commute(zero, alpha.opposite());
    if alpha.magnitude() != 0 {
        lemma_sum_with_zero(alpha.opposite(), zero);
    } else {
        assert(magnitude_value(0) == 0);
        lemma_exact_value_is_kept(0, 1, 0);
    }
}

/// Adding nothing leaves a number where it is.
proof fn lemma_no_step(alpha: Binary32, none: Binary32)
    requires
        plain(alpha),
        none.magnitude() == 0,
    ensures
        equal_numbers(alpha.sum(none), alpha),
{
    if alpha.magnitude() != 0 {
        lemma_sum_with_zero(alpha, none);
    } else {
        assert(magnitude_value(0) == 0);
        lemma_exact_value_is_kept(0, 1, 0);
    }
}

proof fn lemma_fading(alpha: Binary32, part: Binary32)
    requires
        plain(alpha),
        alpha.at_most(num(ONE_BITS)),
        plain(part),
        part.magnitude() <= ONE_BITS,
    ensures
        ({
            let r = alpha.sum(num(ZERO_BITS).difference(alpha).product(part));
            &&& r.at_most(alpha) && num(ZERO_BITS).at_most(r)
            &&& part == num(ONE_BITS) ==> equal_numbers(r, num(ZERO_BITS))
        }),
{
    let zero = num(ZERO_BITS);
    lemma_less(alpha);
    let back = zero.difference(alpha);
    law_sum_and_product_commute(back, part);
    lemma_share_is_at_most_the_whole(part, back);
    let step = back.product(part);
    if alpha.magnitude() == 0 {
        assert(back.magnitude() == 0) by {
            assert(magnitude_value(0) == 0);
            lemma_magnitude_value_increases(0, back.magnitude());
        }
        lemma_no_step(alpha, step);
        assert(magnitude_value(0) == 0);
        lemma_exact_value_is_kept(0, 1, 0);
    } else {
        lemma_plain(alpha);
        lemma_results_are_numbers(back, part);
        assert(step.negative() || step.magnitude() == 0);
        assert(magnitude_value(0) == 0);
        lemma_magnitude_value_increases(0, step.magnitude());
        lemma_magnitude_value_increases(step.magnitude(), alpha.magnitude());
        let exact = alpha.value() + step.value();
        assert(0 <= exact <= alpha.value());
        crate::arithmetic::lemma_rounding_exists(exact, 1);
        lemma_exact_value_is_kept(alpha.value(), 1, alpha.magnitude());
        crate::arithmetic::lemma_rounding_keeps_order(exact, alpha.value(), 1);
        lemma_exact_value_is_kept(0, 1, 0);
        if part == num(ONE_BITS) {
            lemma_one_is_unit();
            lemma_pow2_pos(149);
            back.lemma_parts();
            lemma_exact_value_is_kept(size(back.value()) * unit_value(), unit_value(), back.magnitude());
            assert(size(part.value()) == unit_value());
            assert(step.value() == -alpha.value());
        }
    }
}

proof fn lemma_appearing(alpha: Binary32, part: Binary32)
    requires
        plain(alpha),
        alpha.at_most(num(ONE_BITS)),
        plain(part),
        part.magnitude() <= ONE_BITS,
        plain(num(ONE_BITS).difference(alpha)),
        num(ONE_BITS).difference(alpha).magnitude() <= ONE_BITS,
    ensures
        alpha.at_most(alpha.sum(num(ONE_BITS).difference(alpha).product(part))),
{
    let gap = num(ONE_BITS).difference(alpha);
    law_sum_and_product_commute(gap, part);
    lemma_share_is_at_most_the_whole(part, gap);
    let step = gap.product(part);
    lemma_plain(step);
    lemma_sum_within(alpha, step, ONE_BITS as int);
    lemma_sum_within(alpha, num(ZERO_BITS), ONE_BITS as int);
    assert(magnitude_value(0) == 0);
    lemma_sum_grows(alpha, num(ZERO_BITS), step);
    lemma_no_step(alpha, num(ZERO_BITS));
    let stay = alpha.sum(num(ZERO_BITS));
    stay.lemma_rank_orders_values(alpha.sum(step));
}

/// The note of a save is full for a second and a half and then fades steadily.
pub proof fn law_note_fades_at_last(earlier: Binary32, later: Binary32)
    requires
        plain(earlier),
        earlier.at_most(later),
        later.below(num(0x4000_0000)),
    ensures
        earlier.at_most(num(0x3fc0_0000)) ==> note_strength(earlier) == num(ONE_BITS),
        note_strength(later).at_most(note_strength(earlier)),
        note_strength(num(0x4000_0000)).magnitude() == 0,
{
    let (start, fade, one) = (num(0x3fc0_0000), num(0x3f00_0000), num(ONE_BITS));
    lemma_note(later);
    lemma_note(earlier);
    lemma_end_of_note();
    if start.below(earlier) {
        earlier.lemma_rank_orders_values(later);
        lemma_plain(earlier);
        lemma_plain(start);
        start.lemma_rank_orders_values(earlier);
        crate::exactness::lemma_differences_keep_order(earlier, later, start);
        let (a, b) = (earlier.difference(start), later.difference(start));
        lemma_plain(a);
        lemma_plain(b);
        lemma_plain(fade);
        lemma_sum_within(earlier, start, 0x4000_0000);
        lemma_sum_within(later, start, 0x4000_0000);
        lemma_halved(a);
        lemma_halved(b);
        lemma_difference_falls(one, a.quotient(fade), b.quotient(fade));
        note_strength(later).lemma_rank_orders_values(note_strength(earlier));
    }
}

/// Dividing by one half doubles.
proof fn lemma_halved(a: Binary32)
    requires
        plain(a),
        a.magnitude() < 0x7f00_0000,
    ensures
        a.quotient(num(0x3f00_0000)).finite(),
        a.quotient(num(0x3f00_0000)).value() == 2 * a.value(),
{
    let fade = num(0x3f00_0000);
    lemma_plain(a);
    lemma_plain(fade);
    a.lemma_parts();
    vstd::arithmetic::power2::lemma2_to64();
    vstd::arithmetic::power2::lemma_pow2_adds(23, 125);
    vstd::arithmetic::power2::lemma_pow2_adds(1, 148);
    vstd::arithmetic::power2::lemma_pow2_adds(1, a.quantum());
    lemma_pow2_pos(148);
    let m = crate::arithmetic::lemma_representable(a.significand(), a.quantum() + 1);
    let p = vstd::arithmetic::power2::pow2(148) as int;
    assert(fade.value() == p && unit_value() == 2 * p);
    assert(magnitude_value(m) == 2 * a.value()) by (nonlinear_arith)
        requires
            magnitude_value(m) == a.significand() * (2 * vstd::arithmetic::power2::pow2(a.quantum())),
            a.value() == a.significand() * vstd::arithmetic::power2::pow2(a.quantum()),
    ;
    assert(a.value() * (2 * p) == (2 * a.value()) * p) by (nonlinear_arith);
    lemma_exact_value_is_kept(a.value() * unit_value(), fade.value(), m);
    lemma_results_are_numbers(a, fade);
}

proof fn lemma_note(elapsed: Binary32)
    requires
        elapsed.below(num(0x4000_0000)),
        num(ZERO_BITS).at_most(elapsed),
    ensures
        note_strength(elapsed).finite(),
        note_strength(elapsed).at_most(num(ONE_BITS)),
{
    let (start, fade, one) = (num(0x3fc0_0000), num(0x3f00_0000), num(ONE_BITS));
    if start.below(elapsed) {
        start.lemma_rank_orders_values(elapsed);
        crate::exactness::lemma_differences_keep_order(elapsed, elapsed, start);
        let a = elapsed.difference(start);
        lemma_sum_within(elapsed, start, 0x4000_0000);
        lemma_halved(a);
        let b = a.quotient(fade);
        lemma_plain(a);
        lemma_results_are_numbers(a, fade);
        assert(plain(b));
        lemma_bounded_double(a, b);
        lemma_sum_within(one, b, 0x4200_0000);
        assert(magnitude_value(0) == 0);
        lemma_sum_with_zero(one, num(ZERO_BITS).opposite());
        lemma_difference_falls(one, num(ZERO_BITS), b);
        one.difference(b).lemma_rank_orders_values(one);
    }
}

proof fn lemma_bounded_double(a: Binary32, b: Binary32)
    requires
        plain(a),
        plain(b),
        a.magnitude() <= 0x4080_0000,
        b.value() == 2 * a.value(),
    ensures
        b.magnitude() <= 0x4200_0000,
{
    crate::exactness::lemma_next_binade(0x4080_0000);
    lemma_plain(a);
    lemma_plain(b);
    lemma_magnitude_value_increases(a.magnitude(), 0x4080_0000);
    lemma_magnitude_value_increases(0x4100_0000, b.magnitude());
}

proof fn lemma_end_of_note()
    ensures
        note_strength(num(0x4000_0000)).magnitude() == 0,
{
    let (end, start, fade, one) = (num(0x4000_0000), num(0x3fc0_0000), num(0x3f00_0000), num(ONE_BITS));
    vstd::arithmetic::power2::lemma2_to64();
    crate::renderer::brake_limit_onset::lemma_dyadic(end, 8192, 10);
    crate::renderer::brake_limit_onset::lemma_dyadic(start, 6144, 11);
    crate::renderer::brake_limit_onset::lemma_dyadic(fade, 2048, 12);
    crate::renderer::brake_limit_onset::lemma_dyadic(one, 4096, 11);
    lemma_plain(fade);
    assert(start.opposite().value() == -start.value());
    lemma_exact_value_is_kept(end.value() - start.value(), 1, fade.magnitude());
    lemma_pow2_pos(137);
    lemma_pow2_pos(149);
    assert(end.difference(start) == fade);
    lemma_one_is_unit();
    let (f, u) = (fade.value(), unit_value());
    assert(f * u == u * f) by (nonlinear_arith);
    lemma_exact_value_is_kept(f * u, f, ONE_BITS as int);
    assert(fade.quotient(fade) == one);
    lemma_difference_with_itself(one);
}

/// The brighter a segment is meant to be, the stronger it is painted, and one
/// that is off has no light around it.
pub proof fn law_brighter_segments_are_painted_stronger(inactive_alpha: Binary32)
    ensures
        ({
            let (off, on, edge) = (
                style_of(SegmentState::Inactive, inactive_alpha),
                style_of(SegmentState::Active, inactive_alpha),
                style_of(SegmentState::Edge, inactive_alpha),
            );
            &&& off.body_alpha == inactive_alpha
            &&& off.outer_alpha == num(ZERO_BITS) && off.inner_alpha == num(ZERO_BITS) && off.spread == num(ZERO_BITS)
            &&& num(ZERO_BITS).below(on.outer_alpha) && on.outer_alpha.below(edge.outer_alpha)
            &&& num(ZERO_BITS).below(on.inner_alpha) && on.inner_alpha.below(edge.inner_alpha)
            &&& on.body_alpha.below(edge.body_alpha) && edge.body_alpha == num(ONE_BITS)
            &&& on.outer_alpha.below(on.inner_alpha) && edge.outer_alpha.below(edge.inner_alpha)
        }),
{
}

/// The grid spans its rectangle: five lines from its upper to its lower edge,
/// the first at the left and the last at the right edge, and three lines from
/// its left to its right edge between them.
pub proof fn law_grid_spans_its_rectangle(rect: Rect, opacity: Binary32)
    requires
        rect.min.x.finite(),
        rect.max.x.finite(),
    ensures
        ({
            let lines = grid_shapes(rect, opacity);
            &&& lines.len() == 8
            &&& forall|i: int|
                0 <= i < 5 ==> (#[trigger] lines[i]) is LineSegment && lines[i]->LineSegment_start.y == rect.min.y
                    && lines[i]->LineSegment_end.y == rect.max.y && lines[i]->LineSegment_start.x
                    == lines[i]->LineSegment_end.x
            &&& forall|i: int|
                5 <= i < 8 ==> (#[trigger] lines[i]) is LineSegment && lines[i]->LineSegment_start.x == rect.min.x
                    && lines[i]->LineSegment_end.x == rect.max.x && lines[i]->LineSegment_start.y
                    == lines[i]->LineSegment_end.y
            &&& equal_numbers(lines[0]->LineSegment_start.x, rect.min.x)
            &&& equal_numbers(lines[4]->LineSegment_start.x, rect.max.x)
        }),
{
    let lines = grid_shapes(rect, opacity);
    assert(lines[0] == grid_column(rect, opacity, 0));
    assert(lines[4] == grid_column(rect, opacity, 4));
    law_interpolation_reaches_its_ends(rect.min.x, rect.max.x);
    let four = whole(4);
    lemma_whole_is_exact(4);
    lemma_whole_is_exact(0);
    lemma_plain(four);
    lemma_plain(whole(0));
    lemma_pow2_pos(149);
    lemma_one_is_unit();
    let u = unit_value();
    assert(4 * u * u == u * (4 * u)) by (nonlinear_arith);
    lemma_exact_value_is_kept(four.value() * u, four.value(), ONE_BITS as int);
    assert(four.quotient(four) == num(ONE_BITS));
    lemma_quotient_of_zero(whole(0), four);
    lemma_results_are_numbers(whole(0), four);
    assert(whole(0).quotient(four) == num(ZERO_BITS));
}

/// Each piece of light is handed on as sixteen numbers: its two ends, radius,
/// intensity and kind, its colour and the size of the viewport, in this order.
pub proof fn law_light_is_handed_on_in_order(instances: Seq<GlowInstance>, k: int)
    requires
        0 <= k < instances.len(),
    ensures
        ({
            let words = instance_patterns(instances);
            let light = instances[k];
            let at = 16 * k;
            &&& words.len() == 16 * instances.len()
            &&& words[at] == light.a.x.bits && words[at + 1] == light.a.y.bits
            &&& words[at + 2] == light.b.x.bits && words[at + 3] == light.b.y.bits
            &&& words[at + 4] == light.radius.bits && words[at + 5] == light.intensity.bits
            &&& words[at + 6] == light.kind.bits
            &&& words[at + 8] == light.red.bits && words[at + 9] == light.green.bits && words[at + 10]
                == light.blue.bits
            &&& words[at + 12] == light.viewport.x.bits && words[at + 13] == light.viewport.y.bits
        }),
    decreases instances.len(),
{
    law_patterns_fill_the_buffers(instances, Seq::empty());
    law_patterns_fill_the_buffers(instances.drop_last(), Seq::empty());
    let rest = instances.drop_last();
    assert(instance_patterns(instances) == instance_patterns(rest) + patterns(instances.last().numbers()));
    if k < rest.len() {
        law_light_is_handed_on_in_order(rest, k);
    }
}

/// Each vertex of the halo is handed on as ten numbers: its position, its place
/// across the line, intensity and colour, and the size of the viewport.
pub proof fn law_vertices_are_handed_on_in_order(vertices: Seq<GlowVertex>, k: int)
    requires
        0 <= k < vertices.len(),
    ensures
        ({
            let words = vertex_patterns(vertices);
            let vertex = vertices[k];
            let at = 10 * k;
            &&& words.len() == 10 * vertices.len()
            &&& words[at] == vertex.position.x.bits && words[at + 1] == vertex.position.y.bits
            &&& words[at + 2] == vertex.lateral.bits && words[at + 3] == vertex.intensity.bits
            &&& words[at + 4] == vertex.red.bits && words[at + 5] == vertex.green.bits && words[at + 6]
                == vertex.blue.bits
            &&& words[at + 8] == vertex.viewport.x.bits && words[at + 9] == vertex.viewport.y.bits
        }),
    decreases vertices.len(),
{
    law_patterns_fill_the_buffers(Seq::empty(), vertices);
    law_patterns_fill_the_buffers(Seq::empty(), vertices.drop_last());
    let rest = vertices.drop_last();
    assert(vertex_patterns(vertices) == vertex_patterns(rest) + patterns(vertices.last().numbers()));
    if k < rest.len() {
        law_vertices_are_handed_on_in_order(rest, k);
    }
}

} // verus!
