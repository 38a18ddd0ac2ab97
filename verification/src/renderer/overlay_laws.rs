//! What holds of the overlay over several calls.
use crate::binary32::{num, Binary32};
use crate::model::TelemetryPoint;
use crate::renderer::overlay::{
    due_after, in_window, is_due, noted, points_shown, OverlayGeometry, MIN_HEIGHT_BITS, MIN_WIDTH_BITS,
    VISUALIZATION_INTERVAL_NANOS,
};
use crate::time::elapsed_between;
use vstd::prelude::*;

verus! {

/// When a refresh is due before the request with the given number, if requests
/// come at the given times.
pub open spec fn due_before(start: nat, times: Seq<nat>, i: int) -> nat
    decreases i,
{
    if i <= 0 {
        start
    } else {
        due_after(due_before(start, times, i - 1), times[i - 1])
    }
}

proof fn lemma_due_never_recedes(start: nat, times: Seq<nat>, i: int, j: int)
    requires
        0 <= i <= j <= times.len(),
    ensures
        due_before(start, times, i) <= due_before(start, times, j),
    decreases j,
{
    if i < j {
        lemma_due_never_recedes(start, times, i, j - 1);
    }
}

/// However often refreshes are asked for, two that run are at least an interval
/// apart.
pub proof fn law_refreshes_keep_their_distance(start: nat, times: Seq<nat>, i: int, j: int)
    requires
        0 <= i < j < times.len(),
        is_due(due_before(start, times, i), times[i]),
        is_due(due_before(start, times, j), times[j]),
    ensures
        times[i] + VISUALIZATION_INTERVAL_NANOS <= times[j],
{
    assert(due_before(start, times, i + 1) == times[i] + VISUALIZATION_INTERVAL_NANOS);
    lemma_due_never_recedes(start, times, i + 1, j);
}

/// A refresh that runs late is not followed by others that catch up: the next
/// one is due an interval after it, however late it was.
pub proof fn law_late_refresh_schedules_no_burst(due: nat, late: nat, next: nat)
    requires
        is_due(due, late),
    ensures
        is_due(due_after(due, late), next) <==> late + VISUALIZATION_INTERVAL_NANOS <= next,
{
}

/// After the remaining time a refresh is due.
pub proof fn law_refresh_is_due_after_remaining_time(due: nat, now: nat)
    ensures
        is_due(due, now + elapsed_between(now, due)),
{
}

/// Whatever a minimized window reports, the height to restore is kept.
pub proof fn law_minimized_overlay_keeps_its_height(
    geometry: OverlayGeometry,
    inner_size: Option<(Binary32, Binary32)>,
    outer_position: Option<(Binary32, Binary32)>,
)
    ensures
        noted(geometry, inner_size, outer_position, true).height == geometry.height,
{
}

/// Dragging never makes the overlay smaller than its smallest size.
pub proof fn law_overlay_keeps_its_smallest_size(width: Binary32, height: Binary32)
    ensures
        num(MIN_WIDTH_BITS).at_most(width.larger(num(MIN_WIDTH_BITS))),
        num(MIN_HEIGHT_BITS).at_most(height.larger(num(MIN_HEIGHT_BITS))),
{
}

/// A snapshot shows only points of the buffer that lie in the window, and all
/// of those; a stopped overlay shows none.
pub proof fn law_snapshot_shows_exactly_the_window(
    points: Seq<TelemetryPoint>,
    running: bool,
    now: nat,
    window: nat,
    point: TelemetryPoint,
)
    ensures
        points_shown(points, running, now, window).contains(point) <==> running && points.contains(point) && in_window(
            point,
            now,
            window,
        ),
{
    let wanted = |p: TelemetryPoint| in_window(p, now, window);
    let shown = points.filter(wanted);
    lemma_filter(points, wanted, point);
    if running {
        assert(points_shown(points, running, now, window) == shown);
    }
}

proof fn lemma_filter(points: Seq<TelemetryPoint>, wanted: spec_fn(TelemetryPoint) -> bool, point: TelemetryPoint)
    ensures
        points.filter(wanted).contains(point) <==> points.contains(point) && wanted(point),
    decreases points.len(),
{
    reveal(Seq::filter);
    if points.len() > 0 {
        let earlier = points.drop_last();
        let last = points.last();
        lemma_filter(earlier, wanted, point);
        assert(points =~= earlier.push(last));
        assert(points.contains(point) <==> earlier.contains(point) || point == last) by {
            if points.contains(point) {
                let i = choose|i: int| 0 <= i < points.len() && points[i] == point;
                if i < earlier.len() {
                    assert(earlier[i] == point);
                }
            }
            if earlier.contains(point) {
                let i = choose|i: int| 0 <= i < earlier.len() && earlier[i] == point;
                assert(points[i] == point);
            }
            assert(points[points.len() - 1] == last);
        }
        let kept = earlier.filter(wanted);
        if wanted(last) {
            let longer = kept.push(last);
            assert(points.filter(wanted) == longer);
            if longer.contains(point) {
                let i = choose|i: int| 0 <= i < longer.len() && longer[i] == point;
                if i < kept.len() {
                    assert(kept[i] == point);
                }
            }
            if kept.contains(point) {
                let i = choose|i: int| 0 <= i < kept.len() && kept[i] == point;
                assert(longer[i] == point);
            }
            assert(longer[kept.len() as int] == last);
        }
    }
}

} // verus!
