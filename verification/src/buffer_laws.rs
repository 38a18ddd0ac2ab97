//! How long points stay in the buffer, and which of them are handed out.
use crate::buffer::{
    age_within, capacity_for, in_capture_order, law_push_drops_only_expired_or_excess, law_push_keeps_newest,
    law_push_removes_expired, law_whole_seconds_are_exact, TelemetryBuffer,
};
use crate::model::{captured_point, TelemetryData, TelemetryPoint};
use crate::time::{elapsed_between, Instant};
use vstd::prelude::*;

verus! {

/// What is captured is the sample as it came, with the time of its capture.
pub proof fn law_capture_keeps_the_sample(data: TelemetryData, captured_at: Instant)
    ensures
        ({
            let point = captured_point(data, captured_at);
            &&& point.telemetry == data.vehicle
            &&& point.abs_active == data.vehicle.abs_active
            &&& point.source == data.source
            &&& point.captured_at == captured_at
        }),
{
}

/// With more points than the minimum, none that is kept is older than the window
/// when the next one is pushed.
pub proof fn law_kept_points_are_within_the_window(
    buffer: TelemetryBuffer,
    point: TelemetryPoint,
    now: Instant,
    i: int,
)
    requires
        in_capture_order(buffer.points().push(point)),
        buffer.after_push(point, now).len() > buffer.min_points(),
        0 <= i < buffer.after_push(point, now).len(),
    ensures
        now@ - buffer.after_push(point, now)[i].captured_at@ <= buffer.window(),
{
    law_push_removes_expired(buffer, point, now);
}

/// Below its limit of points a buffer drops only points that are older than the
/// window, and at the limit it drops the oldest first.
pub proof fn law_dropped_points_are_older_than_the_window(
    buffer: TelemetryBuffer,
    point: TelemetryPoint,
    now: Instant,
    i: int,
)
    requires
        0 <= i < buffer.points().len() + 1 - buffer.after_push(point, now).len(),
        buffer.after_push(point, now).len() < buffer.max_points(),
    ensures
        now@ - buffer.points().push(point)[i].captured_at@ > buffer.window(),
{
    law_push_drops_only_expired_or_excess(buffer, point, now, i);
}

/// While no point is older than the window and the limit is not reached, every
/// point is kept.
pub proof fn law_young_points_are_all_kept(buffer: TelemetryBuffer, point: TelemetryPoint, now: Instant)
    requires
        buffer.points().len() < buffer.max_points(),
        forall|i: int|
            0 <= i <= buffer.points().len() ==> now@ - (#[trigger] buffer.points().push(point)[i]).captured_at@
                <= buffer.window(),
    ensures
        buffer.after_push(point, now) == buffer.points().push(point),
{
    let all = buffer.points().push(point);
    let kept = buffer.after_push(point, now);
    law_push_keeps_newest(buffer, point, now);
    if kept.len() < all.len() {
        law_push_drops_only_expired_or_excess(buffer, point, now, 0);
        assert(now@ - all[0].captured_at@ <= buffer.window());
        assert(kept.len() == buffer.max_points());
        assert(false);
    }
    assert(kept =~= all);
}

/// A point is within a range of ages exactly if the time since its capture is
/// neither below the start nor above the end; both ends belong to the range, and
/// a point captured later than now has age zero. The range from zero to the
/// window holds the points of the window.
pub proof fn law_range_is_inclusive(point: TelemetryPoint, now: nat, start: nat, end: nat)
    ensures
        point.captured_at@ <= now ==> (age_within(point, now, start, end) <==> point.captured_at@ + start <= now
            && now <= point.captured_at@ + end),
        now < point.captured_at@ ==> (age_within(point, now, start, end) <==> start == 0),
        age_within(point, now, 0, end) <==> elapsed_between(point.captured_at@, now) <= end,
{
}

/// Ranges that meet divide the points: one that lies in neither part lies in
/// none of the whole range.
pub proof fn law_ranges_can_be_divided(point: TelemetryPoint, now: nat, start: nat, middle: nat, end: nat)
    requires
        start <= middle <= end,
    ensures
        age_within(point, now, start, end) <==> age_within(point, now, start, middle) || age_within(
            point,
            now,
            middle,
            end,
        ),
{
}

/// A buffer for some whole seconds holds 240 points for each of them.
pub proof fn law_capacity_counts_points_for_each_second(secs: nat)
    requires
        1 <= secs < 0x10_0000,
    ensures
        capacity_for(secs * 1_000_000_000) == 240 * secs,
{
    law_whole_seconds_are_exact(secs);
}

} // verus!
