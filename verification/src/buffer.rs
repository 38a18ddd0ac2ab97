//! Telemetry points kept within a sliding time window.
use crate::arithmetic::power_of_two;
use crate::double::{
    double, lemma_common_factor, lemma_double, lemma_double_is_exact, lemma_double_scales, rounded_up, round_to_double, SIGNIFICAND_SPAN,
};
use crate::model::{captured_point, TelemetryData, TelemetryPoint};
use crate::time::{elapsed_between, Clock, Duration, Instant};
use std::collections::VecDeque;
use vstd::arithmetic::div_mod::lemma_div_is_ordered;
use vstd::arithmetic::power2::{lemma2_to64, lemma_pow2_adds, lemma_pow2_pos, pow2};
use vstd::prelude::*;

verus! {

/// Highest sample rate the buffer is sized for.
pub const EXPECTED_MAX_SAMPLE_RATE_HZ: u128 = 240;

/// Points kept even when they have left the window.
pub const MIN_POINTS: usize = 10;

/// Windows from this many nanoseconds on hold more points than a machine can
/// address.
pub const WINDOW_LIMIT_NANOS: u128 = 1_099_511_627_776_000_000_000;

/// Two to the power eighty-two: seconds are counted in this part of a second,
/// so that every number in their calculation is an integer.
pub const SECOND: u128 = 0x4_0000_0000_0000_0000_0000;

/// The length of a window in seconds, in double precision.
pub open spec fn seconds_in_window(window_nanos: nat) -> int {
    let secs = window_nanos as int / 1_000_000_000;
    let nanos = window_nanos as int % 1_000_000_000;
    double(double(secs * SECOND, 1) + double(nanos * SECOND, 1_000_000_000), 1)
}

/// Points that a source at the expected maximum rate delivers within a window,
/// calculated in double precision and rounded up.
pub open spec fn points_in_window(window_nanos: nat) -> int {
    rounded_up(double(seconds_in_window(window_nanos) * EXPECTED_MAX_SAMPLE_RATE_HZ, 1), SECOND as int)
}

/// The number of points a buffer for the given window may hold.
pub open spec fn capacity_for(window_nanos: nat) -> int {
    let wanted = points_in_window(window_nanos);
    if wanted < MIN_POINTS {
        MIN_POINTS as int
    } else if wanted > usize::MAX {
        usize::MAX as int
    } else {
        wanted
    }
}

/// The points in units of a whole, from a significand and an exponent.
fn whole_points(significand: u64, exponent: u32) -> (r: u128)
    requires
        exponent <= 150,
        significand <= SIGNIFICAND_SPAN,
    ensures
        r == rounded_up(significand * pow2(exponent as nat), SECOND as int),
{
    proof {
        lemma2_to64();
        lemma_pow2_adds(64, 18);
        lemma_pow2_pos(exponent as nat);
    }
    if exponent >= 82 {
        let k: u32 = exponent - 82;
        proof {
            lemma_pow2_adds(k as nat, 82);
            lemma_pow2_adds(4, 64);
            lemma_pow2_pos(k as nat);
            let pk = pow2(k as nat) as int;
            if k < 68 {
                vstd::arithmetic::power2::lemma_pow2_strictly_increases(k as nat, 68);
            }
            assert(significand * pow2(exponent as nat) == (significand * pk) * SECOND) by (nonlinear_arith)
                requires
                    pow2(exponent as nat) == pk * SECOND,
            ;
            assert(0 <= significand * pk <= 0x20_0000_0000_0000 * 0x10_0000_0000_0000_0000) by (nonlinear_arith)
                requires
                    0 <= significand <= 0x20_0000_0000_0000,
                    0 <= pk <= 0x10_0000_0000_0000_0000,
            ;
            lemma_common_factor(significand * pk, 1, SECOND as int);
        }
        (significand as u128) * power_of_two(k)
    } else {
        let k: u32 = 82 - exponent;
        let p: u128 = power_of_two(k);
        proof {
            lemma_pow2_adds(k as nat, exponent as nat);
            lemma_pow2_pos(k as nat);
            lemma_common_factor(significand as int, p as int, pow2(exponent as nat) as int);
        }
        let whole: u128 = (significand as u128) / p;
        let ghost rest = significand as int % p as int;
        proof {
            let pe = pow2(exponent as nat) as int;
            assert(rest * pe == 0 <==> rest == 0) by (nonlinear_arith)
                requires
                    pe > 0,
            ;
        }
        if (significand as u128) % p == 0 {
            whole
        } else {
            whole + 1
        }
    }
}

/// The points that a source at the expected maximum rate delivers within a
/// window.
fn count_points(window_nanos: u128) -> (r: u128)
    requires
        window_nanos < WINDOW_LIMIT_NANOS,
    ensures
        r == points_in_window(window_nanos as nat),
{
    let secs: u128 = window_nanos / 1_000_000_000;
    let nanos: u128 = window_nanos % 1_000_000_000;
    let (a, ea): (u64, u32) = round_to_double(secs * SECOND, 1);
    let (b, eb): (u64, u32) = round_to_double(nanos * SECOND, 1_000_000_000);
    proof {
        lemma2_to64();
        lemma_pow2_pos(ea as nat);
        lemma_pow2_pos(eb as nat);
        assert(a * pow2(ea as nat) >= a) by (nonlinear_arith)
            requires
                pow2(ea as nat) >= 1,
        ;
        assert(b * pow2(eb as nat) >= b) by (nonlinear_arith)
            requires
                pow2(eb as nat) >= 1,
        ;
    }
    let sum: u128 = (a as u128) * power_of_two(ea) + (b as u128) * power_of_two(eb);
    let (c, ec): (u64, u32) = round_to_double(sum, 1);
    let ghost seconds = seconds_in_window(window_nanos as nat);
    if sum == 0 {
        proof {
            assert(seconds == 0);
            lemma_double(0, 1, 0);
        }
        return 0;
    }
    proof {
        if secs == 0 && nanos == 0 {
            lemma_double(0, 1, 0);
            lemma_double(0, 1_000_000_000, 0);
        } else if secs == 0 {
            lemma_div_is_ordered(SECOND as int, nanos * SECOND, 1_000_000_000);
        }
    }
    let product: u64 = c * 240;
    let (significand, e): (u64, u32) = round_to_double(product as u128, 1);
    proof {
        let pc = pow2(ec as nat) as int;
        lemma_double_scales(product as int, ec as nat);
        assert(product * pc == (c * pc) * 240) by (nonlinear_arith)
            requires
                product == c * 240,
        ;
        lemma_pow2_adds(e as nat, ec as nat);
        let pe = pow2(e as nat) as int;
        assert((significand * pe) * pc == significand * (pe * pc)) by (nonlinear_arith);
    }
    whole_points(significand, e + ec)
}

/// Whether a point lies before the window that ends at `now`.
pub open spec fn expired(point: TelemetryPoint, now: nat, window: nat) -> bool {
    point.captured_at@ + window < now
}

/// The points that remain when expired ones leave from the front, down to a
/// minimum number.
pub open spec fn pruned(points: Seq<TelemetryPoint>, now: nat, window: nat, min_points: nat) -> Seq<TelemetryPoint>
    decreases points.len(),
{
    if points.len() > min_points && points.len() > 0 && expired(points[0], now, window) {
        pruned(points.drop_first(), now, window, min_points)
    } else {
        points
    }
}

/// The newest points, at most `max_points` of them.
pub open spec fn bounded(points: Seq<TelemetryPoint>, max_points: nat) -> Seq<TelemetryPoint> {
    if points.len() > max_points {
        points.skip(points.len() - max_points)
    } else {
        points
    }
}

/// Whether the age of a point at `now` lies between two spans, both included.
pub open spec fn age_within(point: TelemetryPoint, now: nat, start: nat, end: nat) -> bool {
    start <= elapsed_between(point.captured_at@, now) <= end
}

/// Whether capture times never decrease along the sequence.
pub open spec fn in_capture_order(points: Seq<TelemetryPoint>) -> bool {
    forall|i: int, j: int|
        0 <= i <= j < points.len() ==> (#[trigger] points[i]).captured_at@ <= (#[trigger] points[j]).captured_at@
}

/// When the newest point was captured; the origin of the clock without points.
pub open spec fn newest_capture(points: Seq<TelemetryPoint>) -> nat {
    if points.len() == 0 {
        0
    } else {
        points.last().captured_at@
    }
}

/// Telemetry points within a configurable time window.
pub struct TelemetryBuffer {
    clock: Clock,
    window_duration: Duration,
    data: VecDeque<TelemetryPoint>,
    min_points: usize,
    max_points: usize,
}

impl TelemetryBuffer {
    /// The stored points, oldest first.
    pub closed spec fn points(&self) -> Seq<TelemetryPoint> {
        self.data@
    }

    /// The length of the window in nanoseconds.
    pub closed spec fn window(&self) -> nat {
        self.window_duration@
    }

    /// The number of points kept even when they have expired.
    pub closed spec fn min_points(&self) -> nat {
        self.min_points as nat
    }

    /// The number of points never exceeded.
    pub closed spec fn max_points(&self) -> nat {
        self.max_points as nat
    }

    /// What the buffer holds after a point is pushed and the window ends at `now`.
    pub open spec fn after_push(&self, point: TelemetryPoint, now: Instant) -> Seq<TelemetryPoint> {
        bounded(pruned(self.points().push(point), now@, self.window(), self.min_points()), self.max_points())
    }

    /// Whether two buffers are configured alike.
    pub open spec fn same_limits(&self, other: &TelemetryBuffer) -> bool {
        &&& self.window() == other.window()
        &&& self.min_points() == other.min_points()
        &&& self.max_points() == other.max_points()
    }

    /// A new buffer with the specified time window.
    pub fn new(window_duration: Duration) -> (r: Self)
        requires
            window_duration@ < WINDOW_LIMIT_NANOS,
        ensures
            r.points() == Seq::<TelemetryPoint>::empty(),
            r.window() == window_duration@,
            r.max_points() == capacity_for(window_duration@),
            r.min_points() == MIN_POINTS,
    {
        let wanted: u128 = count_points(window_duration.as_nanos());
        let max_points: usize = if wanted < MIN_POINTS as u128 {
            MIN_POINTS
        } else if wanted > usize::MAX as u128 {
            usize::MAX
        } else {
            wanted as usize
        };
        Self::with_capacity(window_duration, max_points)
    }

    /// A new buffer that never holds more than `max_points` points.
    pub fn with_capacity(window_duration: Duration, max_points: usize) -> (r: Self)
        ensures
            r.points() == Seq::<TelemetryPoint>::empty(),
            r.window() == window_duration@,
            r.max_points() == max_points,
            r.min_points() == if max_points < MIN_POINTS { max_points } else { MIN_POINTS },
    {
        TelemetryBuffer {
            clock: Clock::start(),
            window_duration,
            data: VecDeque::new(),
            min_points: if max_points < MIN_POINTS { max_points } else { MIN_POINTS },
            max_points,
        }
    }

    /// The present moment, which never lies before the newest capture.
    fn present(&self) -> (r: Instant)
        ensures
            newest_capture(self.points()) <= r@,
    {
        match self.latest() {
            Some(point) => self.clock.now_after(point.captured_at),
            None => self.clock.now(),
        }
    }

    /// Captures a sample now and stores it. Points that are pushed one after
    /// the other are in the order of their capture.
    pub fn push(&mut self, telemetry: TelemetryData) -> (r: TelemetryPoint)
        ensures
            exists|captured_at: Instant, now: Instant|
                {
                    &&& r == #[trigger] captured_point(telemetry, captured_at)
                    &&& final(self).points() == #[trigger] old(self).after_push(r, now)
                    &&& newest_capture(old(self).points()) <= captured_at@ <= now@
                },
            in_capture_order(old(self).points()) ==> in_capture_order(final(self).points()),
            final(self).same_limits(old(self)),
    {
        let captured_at = self.present();
        let now = self.clock.now_after(captured_at);
        proof {
            if in_capture_order(self.points()) {
                law_captures_stay_in_order(*self, captured_point(telemetry, captured_at), now);
            }
        }
        self.push_at(telemetry, captured_at, now)
    }

    /// Stores a sample captured at `captured_at` and lets expired points go,
    /// where the window ends at `now`.
    pub fn push_at(&mut self, telemetry: TelemetryData, captured_at: Instant, now: Instant) -> (r: TelemetryPoint)
        ensures
            r == captured_point(telemetry, captured_at),
            final(self).points() == old(self).after_push(r, now),
            final(self).same_limits(old(self)),
    {
        let point = TelemetryPoint::new(telemetry, captured_at);
        self.data.push_back(point);
        self.prune_old_points(now);
        let ghost kept = self.data@;
        while self.data.len() > self.max_points
            invariant
                self.data@.len() >= self.max_points || self.data@ == kept,
                self.data@ == kept.skip(kept.len() - self.data@.len()),
                self.data@.len() <= kept.len(),
                self.same_limits(old(self)),
            decreases self.data@.len(),
        {
            let dropped = self.data.pop_front();
            proof {
                assert(self.data@ =~= kept.skip(kept.len() - self.data@.len()));
            }
        }
        proof {
            assert(self.data@ =~= bounded(kept, self.max_points as nat));
        }
        point
    }

    /// Removes points that left the window, oldest first.
    fn prune_old_points(&mut self, now: Instant)
        ensures
            final(self).points() == pruned(old(self).points(), now@, old(self).window(), old(self).min_points()),
            final(self).same_limits(old(self)),
    {
        let window: u128 = self.window_duration.as_nanos();
        let end: u128 = now.as_nanos();
        loop
            invariant
                window == self.window(),
                end == now@,
                window <= crate::time::MAX_NANOS,
                self.same_limits(old(self)),
                pruned(self.points(), now@, self.window(), self.min_points()) == pruned(
                    old(self).points(),
                    now@,
                    old(self).window(),
                    old(self).min_points(),
                ),
            ensures
                self.points() == pruned(self.points(), now@, self.window(), self.min_points()),
            decreases self.data@.len(),
        {
            if self.data.len() <= self.min_points || self.data.len() == 0 {
                break;
            }
            let front: TelemetryPoint = self.data[0];
            if front.captured_at.as_nanos() + window >= end {
                break;
            }
            let ghost before = self.data@;
            let dropped = self.data.pop_front();
            proof {
                assert(self.data@ =~= before.drop_first());
            }
        }
    }

    /// All stored points, oldest first, also those that have left the window.
    pub fn stored_points(&self) -> (r: Vec<TelemetryPoint>)
        ensures
            r@ == self.points(),
    {
        let mut points: Vec<TelemetryPoint> = Vec::new();
        let mut i: usize = 0;
        while i < self.data.len()
            invariant
                i <= self.data@.len(),
                points@ == self.data@.take(i as int),
            decreases self.data@.len() - i,
        {
            points.push(self.data[i]);
            i = i + 1;
            proof {
                assert(points@ =~= self.data@.take(i as int));
            }
        }
        proof {
            assert(points@ =~= self.data@);
        }
        points
    }

    /// The points within the current time window, oldest first.
    pub fn get_points(&self) -> (r: Vec<TelemetryPoint>)
        ensures
            exists|now: Instant|
                {
                    &&& newest_capture(self.points()) <= #[trigger] now@
                    &&& r@ == self.points().filter(
                        |p: TelemetryPoint| elapsed_between(p.captured_at@, now@) <= self.window(),
                    )
                },
    {
        let now = self.present();
        self.get_points_at(now)
    }

    /// The points within the time window that ends at `now`, oldest first.
    pub fn get_points_at(&self, now: Instant) -> (r: Vec<TelemetryPoint>)
        ensures
            r@ == self.points().filter(
                |p: TelemetryPoint| elapsed_between(p.captured_at@, now@) <= self.window(),
            ),
    {
        let nothing = Duration::from_secs(0);
        let points = self.get_points_in_range_at(nothing, self.window_duration, now);
        proof {
            let window = self.window();
            let in_range = |p: TelemetryPoint| age_within(p, now@, nothing@, window);
            let in_window = |p: TelemetryPoint| elapsed_between(p.captured_at@, now@) <= window;
            assert(in_range =~= in_window);
        }
        points
    }

    /// The points whose present age lies between `start` and `end`.
    pub fn get_points_in_range(&self, start: Duration, end: Duration) -> (r: Vec<TelemetryPoint>)
        ensures
            exists|now: Instant|
                {
                    &&& newest_capture(self.points()) <= #[trigger] now@
                    &&& r@ == self.points().filter(|p: TelemetryPoint| age_within(p, now@, start@, end@))
                },
    {
        let now = self.present();
        self.get_points_in_range_at(start, end, now)
    }

    /// The points whose age at `now` lies between `start` and `end`.
    pub fn get_points_in_range_at(&self, start: Duration, end: Duration, now: Instant) -> (r: Vec<TelemetryPoint>)
        ensures
            r@ == self.points().filter(|p: TelemetryPoint| age_within(p, now@, start@, end@)),
    {
        let mut points: Vec<TelemetryPoint> = Vec::new();
        let mut i: usize = 0;
        let ghost wanted = |p: TelemetryPoint| age_within(p, now@, start@, end@);
        proof {
            reveal(Seq::filter);
            assert(self.data@.take(0).filter(wanted) =~= Seq::<TelemetryPoint>::empty());
        }
        while i < self.data.len()
            invariant
                i <= self.data@.len(),
                wanted == (|p: TelemetryPoint| age_within(p, now@, start@, end@)),
                points@ == self.data@.take(i as int).filter(wanted),
            decreases self.data@.len() - i,
        {
            let point: TelemetryPoint = self.data[i];
            let age = now.saturating_duration_since(point.captured_at);
            proof {
                reveal(Seq::filter);
                let longer = self.data@.take(i + 1);
                assert(longer.drop_last() =~= self.data@.take(i as int));
                assert(longer.last() == point);
            }
            if age.at_most(&end) && start.at_most(&age) {
                points.push(point);
            }
            i = i + 1;
        }
        proof {
            assert(self.data@.take(i as int) =~= self.data@);
        }
        points
    }

    /// The newest point.
    pub fn latest(&self) -> (r: Option<TelemetryPoint>)
        ensures
            r == (if self.points().len() == 0 {
                None
            } else {
                Some(self.points().last())
            }),
    {
        let count: usize = self.data.len();
        if count == 0 {
            None
        } else {
            Some(self.data[count - 1])
        }
    }

    /// Removes all points.
    pub fn clear(&mut self)
        ensures
            final(self).points() == Seq::<TelemetryPoint>::empty(),
            final(self).same_limits(old(self)),
    {
        self.data.clear();
    }

    /// The configured time window.
    pub fn window_duration(&self) -> (r: Duration)
        ensures
            r@ == self.window(),
    {
        self.window_duration
    }

    /// The number of stored points.
    pub fn len(&self) -> (r: usize)
        ensures
            r == self.points().len(),
    {
        self.data.len()
    }

    /// Whether no point is stored.
    pub fn is_empty(&self) -> (r: bool)
        ensures
            r == (self.points().len() == 0),
    {
        self.data.len() == 0
    }
}

impl Default for TelemetryBuffer {
    fn default() -> (r: Self)
        ensures
            r.points() == Seq::<TelemetryPoint>::empty(),
            r.window() == 10_000_000_000,
            r.max_points() == 2400,
            r.min_points() == MIN_POINTS,
    {
        proof {
            law_whole_seconds_are_exact(10);
        }
        Self::new(Duration::from_secs(10))
    }
}

/// A window of whole seconds holds exactly the points of the expected maximum
/// rate.
pub proof fn law_whole_seconds_are_exact(secs: nat)
    requires
        secs < 0x100_0000_0000,
    ensures
        points_in_window(secs * 1_000_000_000) == secs * EXPECTED_MAX_SAMPLE_RATE_HZ,
{
    let window = secs * 1_000_000_000;
    assert(window as int / 1_000_000_000 == secs && window as int % 1_000_000_000 == 0);
    lemma2_to64();
    lemma_pow2_adds(64, 18);
    assert(pow2(82) == SECOND);
    lemma_double_is_exact(secs as int, 82);
    lemma_double(0, 1_000_000_000, 0);
    assert(0 * SECOND == 0);
    let seconds = secs * SECOND;
    assert(seconds_in_window(window) == seconds);
    lemma_double_is_exact((secs * 240) as int, 82);
    assert(seconds * EXPECTED_MAX_SAMPLE_RATE_HZ == (secs * 240) * SECOND) by (nonlinear_arith)
        requires
            seconds == secs * SECOND,
            EXPECTED_MAX_SAMPLE_RATE_HZ == 240,
    ;
    lemma_common_factor((secs * 240) as int, 1, SECOND as int);
}

proof fn lemma_pruned_is_suffix(points: Seq<TelemetryPoint>, now: nat, window: nat, min_points: nat)
    ensures
        pruned(points, now, window, min_points).len() <= points.len(),
        pruned(points, now, window, min_points) == points.skip(
            points.len() - pruned(points, now, window, min_points).len(),
        ),
        points.len() >= min_points ==> pruned(points, now, window, min_points).len() >= min_points,
        points.len() <= min_points ==> pruned(points, now, window, min_points) == points,
        pruned(points, now, window, min_points).len() > min_points ==> !expired(
            pruned(points, now, window, min_points)[0],
            now,
            window,
        ),
        forall|i: int|
            0 <= i < points.len() - pruned(points, now, window, min_points).len() ==> expired(
                #[trigger] points[i],
                now,
                window,
            ),
    decreases points.len(),
{
    let kept = pruned(points, now, window, min_points);
    if points.len() > min_points && points.len() > 0 && expired(points[0], now, window) {
        let rest = points.drop_first();
        lemma_pruned_is_suffix(rest, now, window, min_points);
        assert(rest.skip(rest.len() - kept.len()) =~= points.skip(points.len() - kept.len()));
        assert forall|i: int| 0 <= i < points.len() - kept.len() implies expired(#[trigger] points[i], now, window) by {
            if i > 0 {
                assert(points[i] == rest[i - 1]);
            }
        }
    } else {
        assert(points.skip(0) =~= points);
    }
}

/// The buffer is strictly bounded, keeps the newest points in order and always
/// contains the point just pushed, as long as it may hold any point at all.
pub proof fn law_push_keeps_newest(buffer: TelemetryBuffer, point: TelemetryPoint, now: Instant)
    ensures
        ({
            let all = buffer.points().push(point);
            let kept = buffer.after_push(point, now);
            &&& kept.len() <= buffer.max_points()
            &&& kept.len() <= all.len()
            &&& kept == all.skip(all.len() - kept.len())
            &&& buffer.max_points() > 0 && buffer.min_points() > 0 ==> kept.len() > 0 && kept.last() == point
        }),
{
    let all = buffer.points().push(point);
    lemma_pruned_is_suffix(all, now@, buffer.window(), buffer.min_points());
    let middle = pruned(all, now@, buffer.window(), buffer.min_points());
    let kept = buffer.after_push(point, now);
    assert(kept =~= all.skip(all.len() - kept.len()));
}

/// A minimum number of points survives even when all of them have expired.
pub proof fn law_push_keeps_minimum(buffer: TelemetryBuffer, point: TelemetryPoint, now: Instant)
    requires
        buffer.min_points() <= buffer.max_points(),
    ensures
        buffer.points().len() + 1 >= buffer.min_points() ==> buffer.after_push(point, now).len()
            >= buffer.min_points(),
        buffer.points().len() + 1 <= buffer.min_points() ==> buffer.after_push(point, now) == buffer.points().push(
            point,
        ),
{
    lemma_pruned_is_suffix(buffer.points().push(point), now@, buffer.window(), buffer.min_points());
}

/// A point that has not expired is dropped only when the buffer is full.
pub proof fn law_push_drops_only_expired_or_excess(buffer: TelemetryBuffer, point: TelemetryPoint, now: Instant, i: int)
    requires
        0 <= i < buffer.points().len() + 1 - buffer.after_push(point, now).len(),
    ensures
        expired(buffer.points().push(point)[i], now@, buffer.window()) || buffer.after_push(point, now).len()
            == buffer.max_points(),
{
    lemma_pruned_is_suffix(buffer.points().push(point), now@, buffer.window(), buffer.min_points());
}

/// A point that is captured after the ones before it leaves the buffer in the
/// order of capture, and beyond the minimum number no expired point stays.
pub proof fn law_captures_stay_in_order(buffer: TelemetryBuffer, point: TelemetryPoint, now: Instant)
    requires
        in_capture_order(buffer.points()),
        newest_capture(buffer.points()) <= point.captured_at@,
    ensures
        in_capture_order(buffer.after_push(point, now)),
        buffer.after_push(point, now).len() > buffer.min_points() ==> forall|i: int|
            0 <= i < buffer.after_push(point, now).len() ==> !expired(
                #[trigger] buffer.after_push(point, now)[i],
                now@,
                buffer.window(),
            ),
{
    let before = buffer.points();
    let all = before.push(point);
    assert forall|i: int, j: int| 0 <= i <= j < all.len() implies (#[trigger] all[i]).captured_at@ <= (
    #[trigger] all[j]).captured_at@ by {
        if j < before.len() {
            assert(before[i].captured_at@ <= before[j].captured_at@);
        } else if i < before.len() {
            assert(before[i].captured_at@ <= before[before.len() - 1].captured_at@);
        }
    }
    law_push_removes_expired(buffer, point, now);
}

/// When points arrive in the order of their capture, no expired point stays in
/// the buffer beyond the minimum number.
pub proof fn law_push_removes_expired(buffer: TelemetryBuffer, point: TelemetryPoint, now: Instant)
    requires
        in_capture_order(buffer.points().push(point)),
    ensures
        in_capture_order(buffer.after_push(point, now)),
        buffer.after_push(point, now).len() > buffer.min_points() ==> forall|i: int|
            0 <= i < buffer.after_push(point, now).len() ==> !expired(
                #[trigger] buffer.after_push(point, now)[i],
                now@,
                buffer.window(),
            ),
{
    let all = buffer.points().push(point);
    lemma_pruned_is_suffix(all, now@, buffer.window(), buffer.min_points());
    law_push_keeps_newest(buffer, point, now);
    let middle = pruned(all, now@, buffer.window(), buffer.min_points());
    let kept = buffer.after_push(point, now);
    let shift = all.len() - kept.len();
    assert forall|i: int, j: int| 0 <= i <= j < kept.len() implies (#[trigger] kept[i]).captured_at@ <= (
    #[trigger] kept[j]).captured_at@ by {
        assert(kept[i] == all[i + shift]);
        assert(kept[j] == all[j + shift]);
    }
    if kept.len() > buffer.min_points() {
        assert forall|i: int| 0 <= i < kept.len() implies !expired(#[trigger] kept[i], now@, buffer.window()) by {
            let first = all.len() - middle.len();
            assert(middle[0] == all[first]);
            assert(kept[i] == all[i + shift]);
        }
    }
}

} // verus!
