//! When the lock-up detector finds a lock, in terms of the samples.
use crate::arithmetic::{
    law_sum_and_product_commute, lemma_exact_value_is_kept, lemma_one_is_unit, lemma_product_with_zero,
    lemma_results_are_numbers, lemma_rounding_exists, lemma_rounding_keeps_order, nearest, signed, size,
};
use crate::binary32::{lemma_magnitude_value_increases, magnitude_value, num, unit_value, Binary32, ONE_BITS, ZERO_BITS};
use crate::exactness::{lemma_integer_constant, lemma_plain, lemma_share_is_at_most_the_whole, lemma_sum_grows, plain};
use crate::renderer::brake_limit::{
    seconds, stepped, BrakeLimitDetector, BrakeLimitParams, LockState, SeverityPowers, WheelSample, EPSILON_BITS,
    LOCK_EXIT_BITS, MILLIS_BITS, THREE_BITS, TWO_BITS,
};
use crate::renderer::brake_limit_laws::in_lock;
use crate::renderer::brake_limit_steps::Step;
use vstd::arithmetic::power2::{lemma2_to64, lemma_pow2_adds, lemma_pow2_pos, pow2};
use vstd::prelude::*;

verus! {

/// The slip of one front wheel.
pub open spec fn slip_on(sample: WheelSample, left: bool) -> Option<Binary32> {
    if left {
        sample.slip_fl
    } else {
        sample.slip_fr
    }
}

/// The speed of one front wheel.
pub open spec fn wheel_speed_on(sample: WheelSample, left: bool) -> Option<Binary32> {
    if left {
        sample.wheel_speed_fl
    } else {
        sample.wheel_speed_fr
    }
}

/// Whether the detector counts one side as locked.
pub open spec fn locked_on(detector: BrakeLimitDetector, left: bool) -> bool {
    if left {
        detector.locked_fl
    } else {
        detector.locked_fr
    }
}

/// A side that is not locked locks with a sample exactly if its braking slip,
/// weighted by speed and brake, has reached the start of the lock and its wheel is at
/// most as fast, relative to the car, as the warning ratio says. Wheel data of
/// the other side do not matter.
pub proof fn law_deep_slip_of_a_slow_wheel_locks_its_side(
    detector: BrakeLimitDetector,
    dt: Binary32,
    sample: WheelSample,
    powers: SeverityPowers,
    left: bool,
)
    requires
        !locked_on(detector, left),
        slip_on(sample, left) is Some,
        slip_on(sample, left)->0.below(num(ZERO_BITS)),
        wheel_speed_on(sample, left) is Some,
    ensures
        ({
            let next = detector.updated(dt, sample, powers);
            let slip = slip_on(sample, left)->0.opposite().product(detector.params.gate(sample));
            let ratio = wheel_speed_on(sample, left)->0.quotient(sample.speed_ms.larger(num(ONE_BITS)));
            &&& detector.params.slip_lock_start.at_most(slip) && ratio.at_most(detector.params.wheel_warn_ratio)
                ==> locked_on(next, left)
            &&& !detector.params.slip_lock_start.at_most(slip) ==> !locked_on(next, left)
            &&& !ratio.at_most(detector.params.wheel_warn_ratio) ==> !locked_on(next, left)
        }),
{
    reveal(BrakeLimitDetector::updated);
}

/// A locked side stays locked exactly as long as its braking slip, weighted by
/// speed and brake, is at least 0.67 times the start of the lock, whatever the speed
/// of the wheel.
pub proof fn law_lock_lasts_until_the_slip_has_fallen(
    detector: BrakeLimitDetector,
    dt: Binary32,
    sample: WheelSample,
    powers: SeverityPowers,
    left: bool,
)
    requires
        locked_on(detector, left),
        slip_on(sample, left) is Some,
        slip_on(sample, left)->0.below(num(ZERO_BITS)),
    ensures
        ({
            let next = detector.updated(dt, sample, powers);
            let slip = slip_on(sample, left)->0.opposite().product(detector.params.gate(sample));
            locked_on(next, left) <==> detector.params.slip_lock_start.product(num(0x3f2b_851f)).at_most(slip)
        }),
{
    reveal(BrakeLimitDetector::updated);
}

/// Driving slip, with a wheel faster than the car, neither locks a side nor
/// keeps it locked, and without a wheel speed no side locks.
pub proof fn law_driving_slip_does_not_lock(
    detector: BrakeLimitDetector,
    dt: Binary32,
    sample: WheelSample,
    powers: SeverityPowers,
    left: bool,
)
    requires
        detector.params.gate(sample).finite(),
        num(ZERO_BITS).below(detector.params.slip_lock_start),
        num(ZERO_BITS).below(detector.params.slip_lock_start.product(num(LOCK_EXIT_BITS))),
    ensures
        ({
            let next = detector.updated(dt, sample, powers);
            let slip = slip_on(sample, left);
            &&& slip is None || num(ZERO_BITS).at_most(slip->0) ==> !locked_on(next, left)
            &&& !locked_on(detector, left) && wheel_speed_on(sample, left) is None
                && detector.params.wheel_warn_ratio.below(num(ONE_BITS)) ==> !locked_on(next, left)
        }),
{
    reveal(BrakeLimitDetector::updated);
    let gate = detector.params.gate(sample);
    let slip = detector.params.slip_magnitude(slip_on(sample, left));
    if slip.magnitude() == 0 {
        lemma_product_with_zero(slip, gate);
    }
}

/// The approach of a lock starts as soon as the weighted slip of either wheel
/// reaches the start of the warning, and it is over when both have fallen below
/// 0.73 times that.
pub proof fn law_approach_starts_and_ends_with_the_slip(
    detector: BrakeLimitDetector,
    dt: Binary32,
    sample: WheelSample,
    powers: SeverityPowers,
)
    requires
        sample.slip_fl is Some,
        sample.slip_fr is Some,
        sample.slip_fl->0.below(num(ZERO_BITS)),
        sample.slip_fr->0.below(num(ZERO_BITS)),
    ensures
        ({
            let next = detector.updated(dt, sample, powers);
            let start = detector.params.slip_warn_start;
            let end = start.product(num(0x3f3a_e148));
            let fl = sample.slip_fl->0.opposite().product(detector.params.gate(sample));
            let fr = sample.slip_fr->0.opposite().product(detector.params.gate(sample));
            &&& start.at_most(fl) || start.at_most(fr) ==> next.approaching
            &&& !start.at_most(fl) && !start.at_most(fr) && !end.at_most(fl) && !end.at_most(fr) ==> !next.approaching
            &&& !next.lock_active && next.release_at is None ==> next.state == if next.approaching {
                LockState::Approaching
            } else {
                LockState::Normal
            }
        }),
{
    reveal(BrakeLimitDetector::updated);
}

/// The value of a number that is a multiple of two to the power -12.
pub proof fn lemma_dyadic(x: Binary32, k: int, j: nat)
    requires
        plain(x),
        j <= 137,
        x.significand() == k * pow2(j),
        x.quantum() + j == 137,
    ensures
        x.value() == k * pow2(137),
{
    lemma_plain(x);
    x.lemma_parts();
    lemma_pow2_adds(j, x.quantum());
    assert((k * pow2(j)) * pow2(x.quantum()) == k * (pow2(j) * pow2(x.quantum()))) by (nonlinear_arith);
}

proof fn lemma_unit_is_dyadic()
    ensures
        unit_value() == 4096 * pow2(137),
        pow2(137) > 0,
{
    lemma_pow2_adds(12, 137);
    lemma2_to64();
    lemma_pow2_pos(137);
}

proof fn lemma_dyadic_product(a: Binary32, ka: int, b: Binary32, kb: int, c: Binary32, kc: int)
    requires
        plain(a),
        plain(b),
        plain(c),
        a.value() == ka * pow2(137),
        b.value() == kb * pow2(137),
        c.value() == kc * pow2(137),
        ka * kb == 4096 * kc,
    ensures
        a.product(b) == c,
{
    lemma_unit_is_dyadic();
    lemma_plain(a);
    lemma_plain(b);
    lemma_plain(c);
    let q = pow2(137) as int;
    assert((ka * q) * (kb * q) == (kc * q) * (4096 * q)) by (nonlinear_arith)
        requires
            ka * kb == 4096 * kc,
    ;
    lemma_exact_value_is_kept(a.value() * b.value(), unit_value(), c.magnitude());
}

proof fn lemma_dyadic_difference(a: Binary32, ka: int, b: Binary32, kb: int, c: Binary32, kc: int)
    requires
        plain(a),
        plain(b),
        plain(c),
        a.value() == ka * pow2(137),
        b.value() == kb * pow2(137),
        c.value() == kc * pow2(137),
        kc == ka - kb,
        kc > 0,
    ensures
        a.difference(b) == c,
{
    lemma_unit_is_dyadic();
    lemma_plain(a);
    lemma_plain(b);
    lemma_plain(c);
    let q = pow2(137) as int;
    assert(ka * q - kb * q == kc * q && kc * q > 0) by (nonlinear_arith)
        requires
            kc == ka - kb,
            kc > 0,
            q > 0,
    ;
    assert(b.opposite().value() == -b.value());
    lemma_exact_value_is_kept(c.value(), 1, c.magnitude());
}

/// The smooth transition at a given place between the edges.
pub proof fn lemma_curve(
    t: Binary32,
    kt: int,
    square: Binary32,
    ks: int,
    slope: Binary32,
    kl: int,
    r: Binary32,
    kr: int,
)
    requires
        plain(t),
        plain(square),
        plain(slope),
        plain(r),
        t.value() == kt * pow2(137),
        square.value() == ks * pow2(137),
        slope.value() == kl * pow2(137),
        r.value() == kr * pow2(137),
        kt * kt == 4096 * ks,
        kl == 12288 - 2 * kt,
        kl > 0,
        ks * kl == 4096 * kr,
        t.magnitude() < 0x3fff_ffff,
    ensures
        t.product(t).product(num(THREE_BITS).difference(num(TWO_BITS).product(t))) == r,
{
    let (two, three) = (num(TWO_BITS), num(THREE_BITS));
    lemma2_to64();
    lemma_dyadic(two, 8192, 10);
    lemma_dyadic(three, 12288, 10);
    lemma_dyadic_product(t, kt, t, kt, square, ks);
    t.lemma_parts();
    lemma_unit_is_dyadic();
    let q = pow2(137) as int;
    let double = two.product(t);
    let m = crate::arithmetic::lemma_representable(2 * t.significand() / 2, t.quantum() + 1);
    lemma_pow2_adds(t.quantum(), 1);
    lemma_plain(t);
    assert(magnitude_value(m) == 2 * t.value()) by (nonlinear_arith)
        requires
            magnitude_value(m) == t.significand() * (pow2(t.quantum()) * 2),
            t.value() == t.significand() * pow2(t.quantum()),
    ;
    let twice = signed(false, m);
    assert(2 * (kt * q) == (2 * kt) * q) by (nonlinear_arith);
    lemma_dyadic_product(two, 8192, t, kt, twice, 2 * kt);
    lemma_dyadic_difference(three, 12288, twice, 2 * kt, slope, kl);
    lemma_dyadic_product(square, ks, slope, kl, r, kr);
}

proof fn lemma_place(edge0: Binary32, edge1: Binary32, x: Binary32, t: Binary32, k: int)
    requires
        plain(t),
        t.value() == k * pow2(137),
        0 < k <= 4096,
        x.difference(edge0).finite(),
        edge1.difference(edge0).finite(),
        edge1.difference(edge0).value() > 0,
        4096 * x.difference(edge0).value() == k * edge1.difference(edge0).value(),
    ensures
        x.difference(edge0).quotient(edge1.difference(edge0)).unit() == t,
{
    let rise = x.difference(edge0);
    let span = edge1.difference(edge0);
    lemma_unit_is_dyadic();
    lemma_one_is_unit();
    let q = pow2(137) as int;
    let (a, b, u) = (rise.value(), span.value(), unit_value());
    assert(magnitude_value(0) == 0);
    assert(a > 0) by (nonlinear_arith)
        requires
            4096 * a == k * b,
            0 < k,
            0 < b,
    ;
    lemma_magnitude_value_increases(0, rise.magnitude());
    lemma_magnitude_value_increases(0, span.magnitude());
    lemma_plain(t);
    assert(a * u == (k * q) * b) by (nonlinear_arith)
        requires
            4096 * a == k * b,
            u == 4096 * q,
    ;
    lemma_exact_value_is_kept(a * u, b, t.magnitude());
    assert(k * q <= 4096 * q && k * q > 0) by (nonlinear_arith)
        requires
            0 < k <= 4096,
            q > 0,
    ;
    t.lemma_rank_orders_values(num(ONE_BITS));
}

/// The transition between two edges follows the smooth curve: a quarter of the
/// way it has reached 5/32, in the middle one half, and after three quarters
/// 27/32.
pub proof fn law_transition_is_smooth(edge0: Binary32, edge1: Binary32, x: Binary32)
    requires
        x.difference(edge0).finite(),
        edge1.difference(edge0).finite(),
        num(EPSILON_BITS).at_most(edge1.difference(edge0)),
    ensures
        ({
            let rise = x.difference(edge0).value();
            let span = edge1.difference(edge0).value();
            let height = stepped(edge0, edge1, x);
            &&& 4 * rise == span ==> 32 * height.value() == 5 * unit_value()
            &&& 2 * rise == span ==> 2 * height.value() == unit_value()
            &&& 4 * rise == 3 * span ==> 32 * height.value() == 27 * unit_value()
        }),
{
    let rise = x.difference(edge0).value();
    let span = edge1.difference(edge0);
    lemma_unit_is_dyadic();
    lemma2_to64();
    assert(magnitude_value(0) == 0);
    lemma_magnitude_value_increases(0, span.magnitude());
    assert(!span.absolute().below(num(EPSILON_BITS)));
    if 4 * rise == span.value() {
        let (t, s, l, r) = (num(0x3e80_0000), num(0x3d80_0000), num(0x4020_0000), num(0x3e20_0000));
        lemma_dyadic(t, 1024, 13);
        lemma_dyadic(s, 256, 15);
        lemma_dyadic(l, 10240, 10);
        lemma_dyadic(r, 640, 14);
        lemma_place(edge0, edge1, x, t, 1024);
        lemma_curve(t, 1024, s, 256, l, 10240, r, 640);
    }
    if 2 * rise == span.value() {
        let (t, s, l, r) = (num(0x3f00_0000), num(0x3e80_0000), num(0x4000_0000), num(0x3f00_0000));
        lemma_dyadic(t, 2048, 12);
        lemma_dyadic(s, 1024, 13);
        lemma_dyadic(l, 8192, 10);
        lemma_place(edge0, edge1, x, t, 2048);
        lemma_curve(t, 2048, s, 1024, l, 8192, r, 2048);
    }
    if 4 * rise == 3 * span.value() {
        let (t, s, l, r) = (num(0x3f40_0000), num(0x3f10_0000), num(0x3fc0_0000), num(0x3f58_0000));
        lemma_dyadic(t, 3072, 12);
        lemma_dyadic(s, 2304, 12);
        lemma_dyadic(l, 6144, 11);
        lemma_dyadic(r, 3456, 12);
        lemma_place(edge0, edge1, x, t, 3072);
        lemma_curve(t, 3072, s, 2304, l, 6144, r, 3456);
    }
}

/// A gate is fully open from its upper edge on.
pub proof fn law_gate_is_open_from_its_end(edge0: Binary32, edge1: Binary32, x: Binary32)
    requires
        edge0.finite(),
        edge1.finite(),
        x.finite(),
        edge0.at_most(edge1),
        edge1.at_most(x),
        edge1.difference(edge0).finite(),
        x.difference(edge0).finite(),
    ensures
        stepped(edge0, edge1, x) == num(ONE_BITS),
{
    let span = edge1.difference(edge0);
    let rise = x.difference(edge0);
    let one = num(ONE_BITS);
    if !span.absolute().below(num(EPSILON_BITS)) {
        lemma_unit_is_dyadic();
        lemma2_to64();
        lemma_one_is_unit();
        edge0.lemma_rank_orders_values(edge1);
        edge1.lemma_rank_orders_values(x);
        law_sum_and_product_commute(edge1, edge0.opposite());
        law_sum_and_product_commute(x, edge0.opposite());
        lemma_sum_grows(edge0.opposite(), edge1, x);
        assert(magnitude_value(0) == 0);
        let wide = edge1.value() - edge0.value();
        assert(edge0.opposite().value() == -edge0.value());
        lemma_rounding_exists(wide, 1);
        lemma_magnitude_value_increases(0, span.magnitude());
        lemma_magnitude_value_increases(0, rise.magnitude());
        assert(span.value() > 0);
        let (a, b, u) = (rise.value(), span.value(), unit_value());
        assert(b * u <= a * u) by (nonlinear_arith)
            requires
                b <= a,
                u > 0,
        ;
        assert(b * u == u * b) by (nonlinear_arith);
        lemma_exact_value_is_kept(b * u, b, ONE_BITS as int);
        lemma_rounding_keeps_order(b * u, a * u, b);
        lemma_rounding_exists(a * u, b);
        assert(rise.quotient(span).unit() == one);
        lemma_dyadic(one, 4096, 11);
        lemma_curve(one, 4096, one, 4096, one, 4096, one, 4096);
    }
}

/// Whether a sample has its speed, in kilometers per hour, and its brake input
/// at or above the upper ends of both gates.
pub open spec fn beyond_gates(params: BrakeLimitParams, sample: WheelSample) -> bool {
    let speed_kmh = sample.speed_ms.product(num(0x4066_6666));
    &&& plain(sample.speed_ms)
    &&& sample.brake.finite()
    &&& speed_kmh.finite()
    &&& params.speed_gate_start.finite() && params.speed_gate_full.finite()
    &&& params.brake_gate_start.finite() && params.brake_gate_full.finite()
    &&& params.speed_gate_start.at_most(params.speed_gate_full) && params.speed_gate_full.at_most(speed_kmh)
    &&& params.brake_gate_start.at_most(params.brake_gate_full) && params.brake_gate_full.at_most(sample.brake)
    &&& params.speed_gate_full.difference(params.speed_gate_start).finite()
    &&& params.brake_gate_full.difference(params.brake_gate_start).finite()
    &&& speed_kmh.difference(params.speed_gate_start).finite()
    &&& sample.brake.difference(params.brake_gate_start).finite()
}

pub proof fn lemma_one_changes_nothing(x: Binary32)
    requires
        x.finite(),
    ensures
        x.product(num(ONE_BITS)) == x,
{
    let one = num(ONE_BITS);
    lemma_one_is_unit();
    lemma_pow2_pos(149);
    x.lemma_parts();
    lemma_exact_value_is_kept(size(x.value()) * unit_value(), unit_value(), x.magnitude());
    assert(size(one.value()) == unit_value());
}

proof fn lemma_open_gate(params: BrakeLimitParams, sample: WheelSample)
    requires
        beyond_gates(params, sample),
    ensures
        params.gate(sample) == num(ONE_BITS),
{
    let zero = num(ZERO_BITS);
    let speed = sample.speed_ms.larger(zero);
    assert(speed == sample.speed_ms);
    let speed_kmh = sample.speed_ms.product(num(0x4066_6666));
    law_gate_is_open_from_its_end(params.speed_gate_start, params.speed_gate_full, speed_kmh);
    law_gate_is_open_from_its_end(params.brake_gate_start, params.brake_gate_full, sample.brake);
    lemma_one_changes_nothing(num(ONE_BITS));
}

/// At speed and under full braking the slip counts as it is: a side that is not
/// locked locks exactly if the slip is at most minus the start of the lock and
/// the speed of the wheel, divided by the speed of the car and rounded, is at
/// most the warning ratio; one that is locked stays so exactly while the slip is
/// at most minus 0.67 times that start.
pub proof fn law_lock_depends_on_slip_and_wheel_speed_alone(
    detector: BrakeLimitDetector,
    dt: Binary32,
    sample: WheelSample,
    powers: SeverityPowers,
    left: bool,
    slip: Binary32,
    wheel_speed: Binary32,
)
    requires
        beyond_gates(detector.params, sample),
        num(ONE_BITS).at_most(sample.speed_ms),
        slip_on(sample, left) == Some(slip),
        wheel_speed_on(sample, left) == Some(wheel_speed),
        slip.finite(),
        slip.value() < 0,
        plain(wheel_speed),
        plain(detector.params.slip_lock_start),
        plain(detector.params.wheel_warn_ratio),
    ensures
        ({
            let next = detector.updated(dt, sample, powers);
            let start = detector.params.slip_lock_start;
            let ratio = nearest(wheel_speed.value() * unit_value(), sample.speed_ms.value());
            &&& !locked_on(detector, left) ==> (locked_on(next, left) <==> start.value() <= -slip.value() && ratio
                <= detector.params.wheel_warn_ratio.magnitude())
            &&& locked_on(detector, left) ==> (locked_on(next, left) <==> start.product(num(0x3f2b_851f)).value()
                <= -slip.value())
        }),
{
    let next = detector.updated(dt, sample, powers);
    let start = detector.params.slip_lock_start;
    let speed = sample.speed_ms;
    let one = num(ONE_BITS);
    lemma_open_gate(detector.params, sample);
    lemma_one_changes_nothing(slip.opposite());
    assert(magnitude_value(0) == 0);
    lemma_magnitude_value_increases(0, slip.magnitude());
    assert(slip.below(num(ZERO_BITS)));
    let depth = slip.opposite();
    assert(depth.value() == -slip.value());
    assert(speed.larger(one) == speed);
    let ratio = wheel_speed.quotient(speed);
    lemma_plain(wheel_speed);
    lemma_plain(speed);
    one.lemma_rank_orders_values(speed);
    lemma_one_is_unit();
    lemma_pow2_pos(149);
    let n = wheel_speed.value() * unit_value();
    assert(n >= 0) by (nonlinear_arith)
        requires
            n == wheel_speed.value() * unit_value(),
            wheel_speed.value() >= 0,
            unit_value() > 0,
    ;
    lemma_rounding_exists(n, speed.value());
    lemma_results_are_numbers(wheel_speed, speed);
    assert(ratio == signed(false, nearest(n, speed.value())));
    assert(ratio.at_most(detector.params.wheel_warn_ratio) <==> ratio.magnitude()
        <= detector.params.wheel_warn_ratio.magnitude());
    start.lemma_rank_orders_values(depth);
    let end = start.product(num(LOCK_EXIT_BITS));
    law_sum_and_product_commute(start, num(LOCK_EXIT_BITS));
    lemma_share_is_at_most_the_whole(num(LOCK_EXIT_BITS), start);
    end.lemma_rank_orders_values(depth);
    if locked_on(detector, left) {
        law_lock_lasts_until_the_slip_has_fallen(detector, dt, sample, powers, left);
    } else {
        law_deep_slip_of_a_slow_wheel_locks_its_side(detector, dt, sample, powers, left);
    }
}

/// Whether a sample shows a lock of one side: deep braking slip, weighted by
/// speed and brake, of a wheel that is slow compared with the car.
pub open spec fn shows_lock(params: BrakeLimitParams, sample: WheelSample, left: bool) -> bool {
    &&& slip_on(sample, left) is Some
    &&& slip_on(sample, left)->0.below(num(ZERO_BITS))
    &&& wheel_speed_on(sample, left) is Some
    &&& params.slip_lock_start.at_most(slip_on(sample, left)->0.opposite().product(params.gate(sample)))
    &&& wheel_speed_on(sample, left)->0.quotient(sample.speed_ms.larger(num(ONE_BITS))).at_most(
        params.wheel_warn_ratio,
    )
}

/// A detector after some more steps.
pub open spec fn run(detector: BrakeLimitDetector, steps: Seq<Step>) -> BrakeLimitDetector
    decreases steps.len(),
{
    if steps.len() == 0 {
        detector
    } else {
        let last = steps.last();
        run(detector, steps.drop_last()).updated(last.dt, last.sample, last.powers)
    }
}

/// The time on the detector's clock that has passed since the first of some
/// steps.
pub open spec fn lasted(detector: BrakeLimitDetector, steps: Seq<Step>) -> Binary32 {
    run(detector, steps).time.difference(run(detector, steps.take(1)).time)
}

/// A lock that every sample shows on one side is confirmed as soon as it has
/// lasted for the attack time since the first of them, and not before.
pub proof fn law_lasting_lock_is_confirmed(detector: BrakeLimitDetector, steps: Seq<Step>, left: bool)
    requires
        steps.len() > 0,
        !detector.lock_active,
        detector.lock_condition_since is None,
        plain(detector.params.slip_lock_start),
        forall|i: int| 0 <= i < steps.len() ==> shows_lock(detector.params, (#[trigger] steps[i]).sample, left),
    ensures
        ({
            let end = run(detector, steps);
            let attack = seconds(detector.params.lock_attack_ms);
            &&& locked_on(end, left)
            &&& attack.at_most(lasted(detector, steps)) ==> in_lock(end)
            &&& (forall|k: int|
                0 < k <= steps.len() ==> !attack.at_most(#[trigger] lasted(detector, steps.take(k)))) ==> !in_lock(end)
        }),
{
    lemma_lasting_lock(detector, steps, left);
    let attack = seconds(detector.params.lock_attack_ms);
    if forall|k: int| 0 < k <= steps.len() ==> !attack.at_most(#[trigger] lasted(detector, steps.take(k))) {
        lemma_short_lock(detector, steps, left);
    }
}

proof fn lemma_lasting_lock(detector: BrakeLimitDetector, steps: Seq<Step>, left: bool)
    requires
        steps.len() > 0,
        !detector.lock_active,
        detector.lock_condition_since is None,
        plain(detector.params.slip_lock_start),
        forall|i: int| 0 <= i < steps.len() ==> shows_lock(detector.params, (#[trigger] steps[i]).sample, left),
    ensures
        ({
            let end = run(detector, steps);
            let first = run(detector, steps.take(1));
            &&& end.params == detector.params
            &&& locked_on(end, left)
            &&& end.lock_condition_since == Some(first.time)
            &&& end.lock_active == in_lock(end)
            &&& seconds(detector.params.lock_attack_ms).at_most(end.time.difference(first.time)) ==> end.lock_active
        }),
    decreases steps.len(),
{
    let before = steps.drop_last();
    let last = steps.last();
    assert(last == steps[steps.len() - 1]);
    assert(shows_lock(detector.params, last.sample, left));
    let start = detector.params.slip_lock_start;
    law_sum_and_product_commute(start, num(LOCK_EXIT_BITS));
    lemma_share_is_at_most_the_whole(num(LOCK_EXIT_BITS), start);
    reveal_with_fuel(run, 2);
    reveal(BrakeLimitDetector::updated);
    if before.len() > 0 {
        assert forall|i: int| 0 <= i < before.len() implies shows_lock(
            detector.params,
            (#[trigger] before[i]).sample,
            left,
        ) by {
            assert(before[i] == steps[i]);
        }
        lemma_lasting_lock(detector, before, left);
        assert(before.take(1) =~= steps.take(1));
    } else {
        assert(before =~= Seq::<Step>::empty());
        assert(steps.take(1) =~= steps);
    }
    let held = run(detector, before);
    if locked_on(held, left) {
        law_lock_lasts_until_the_slip_has_fallen(held, last.dt, last.sample, last.powers, left);
    } else {
        law_deep_slip_of_a_slow_wheel_locks_its_side(held, last.dt, last.sample, last.powers, left);
    }
}

proof fn lemma_short_lock(detector: BrakeLimitDetector, steps: Seq<Step>, left: bool)
    requires
        steps.len() > 0,
        !detector.lock_active,
        detector.lock_condition_since is None,
        plain(detector.params.slip_lock_start),
        forall|i: int| 0 <= i < steps.len() ==> shows_lock(detector.params, (#[trigger] steps[i]).sample, left),
        forall|k: int|
            0 < k <= steps.len() ==> !seconds(detector.params.lock_attack_ms).at_most(
                #[trigger] lasted(detector, steps.take(k)),
            ),
    ensures
        !run(detector, steps).lock_active,
    decreases steps.len(),
{
    let before = steps.drop_last();
    let last = steps.last();
    reveal_with_fuel(run, 2);
    reveal(BrakeLimitDetector::updated);
    assert(steps.take(steps.len() as int) =~= steps);
    assert(!seconds(detector.params.lock_attack_ms).at_most(lasted(detector, steps.take(steps.len() as int))));
    lemma_lasting_lock(detector, steps, left);
    if before.len() > 0 {
        assert forall|i: int| 0 <= i < before.len() implies shows_lock(
            detector.params,
            (#[trigger] before[i]).sample,
            left,
        ) by {
            assert(before[i] == steps[i]);
        }
        assert forall|k: int| 0 < k <= before.len() implies !seconds(detector.params.lock_attack_ms).at_most(
            #[trigger] lasted(detector, before.take(k)),
        ) by {
            assert(before.take(k) =~= steps.take(k));
            assert(before.take(k).take(1) =~= steps.take(k).take(1));
            assert(!seconds(detector.params.lock_attack_ms).at_most(lasted(detector, steps.take(k))));
        }
        lemma_short_lock(detector, before, left);
        lemma_lasting_lock(detector, before, left);
        assert(before.take(1) =~= steps.take(1));
    }
}

/// The clock of the detector advances by the length of the step, at most by a
/// quarter of a second and never backwards.
pub proof fn law_clock_advances_by_the_step(
    detector: BrakeLimitDetector,
    dt: Binary32,
    sample: WheelSample,
    powers: SeverityPowers,
)
    ensures
        ({
            let time = detector.updated(dt, sample, powers).time;
            let longest = num(0x3e80_0000);
            &&& num(ZERO_BITS).at_most(dt) && dt.at_most(longest) ==> time == detector.time.sum(dt)
            &&& longest.below(dt) ==> time == detector.time.sum(longest)
            &&& dt.below(num(ZERO_BITS)) ==> time == detector.time.sum(num(ZERO_BITS))
        }),
{
    reveal(BrakeLimitDetector::updated);
}

/// Times in milliseconds are divided by a thousand.
pub proof fn law_seconds_are_thousands_of_milliseconds(millis: Binary32)
    requires
        plain(millis),
    ensures
        !seconds(millis).negative(),
        seconds(millis).magnitude() == nearest(millis.value(), 1000),
{
    let thousand = num(MILLIS_BITS);
    lemma2_to64();
    lemma_integer_constant(thousand, 1000, 14);
    lemma_plain(millis);
    lemma_plain(thousand);
    lemma_pow2_pos(149);
    crate::exactness::lemma_common_scale(millis.value(), 1000, unit_value());
    lemma_results_are_numbers(millis, thousand);
}

/// An active lock is sustained exactly once it has lasted for its time since it
/// was confirmed, and a released one recovers exactly for its time since it was
/// released.
pub proof fn law_states_last_for_their_times(
    detector: BrakeLimitDetector,
    dt: Binary32,
    sample: WheelSample,
    powers: SeverityPowers,
)
    ensures
        ({
            let next = detector.updated(dt, sample, powers);
            let started = if detector.lock_active { detector.lock_started_at } else { Some(next.time) };
            let released = if detector.lock_active { Some(next.time) } else { detector.release_at };
            &&& next.lock_active && started is Some ==> (next.state == LockState::SustainedLock <==> seconds(
                detector.params.sustained_ms,
            ).at_most(next.time.difference(started->0)))
            &&& !next.lock_active && released is Some ==> (next.state == LockState::Recovery <==> next.time.difference(
                released->0,
            ).below(seconds(detector.params.release_hold_ms)))
            &&& !next.lock_active && released is None ==> next.state != LockState::Recovery
            &&& !next.lock_active ==> next.state != LockState::TransientLock && next.state != LockState::SustainedLock
            &&& next.lock_active && started is Some ==> next.output.lock_duration_ms == next.time.difference(
                started->0,
            ).product(num(0x447a_0000))
            &&& !next.lock_active ==> next.output.lock_duration_ms == num(ZERO_BITS)
        }),
{
    reveal(BrakeLimitDetector::updated);
}

/// With open gates the severities reported are those of the powers, each on its
/// own side; the overall severity is the larger and the symmetry the smaller of
/// the two, and the balance is positive when the left side is worse.
pub proof fn law_report_shows_each_side(
    detector: BrakeLimitDetector,
    dt: Binary32,
    sample: WheelSample,
    powers: SeverityPowers,
)
    requires
        beyond_gates(detector.params, sample),
        plain(powers.fl),
        plain(powers.fr),
        powers.fl.at_most(num(ONE_BITS)),
        powers.fr.at_most(num(ONE_BITS)),
    ensures
        ({
            let output = detector.updated(dt, sample, powers).output;
            let (fl, fr) = (powers.fl, powers.fr);
            &&& output.severity_fl == fl
            &&& output.severity_fr == fr
            &&& fl.value() <= fr.value() ==> output.global_severity == fr && output.symmetry == fl
            &&& fr.value() <= fl.value() ==> output.global_severity == fl && output.symmetry == fr
            &&& fl.value() > fr.value() ==> num(ZERO_BITS).below(output.balance)
            &&& fl.value() < fr.value() ==> output.balance.below(num(ZERO_BITS))
            &&& fl.value() == fr.value() ==> output.balance == num(ZERO_BITS)
        }),
{
    reveal(BrakeLimitDetector::updated);
    let (fl, fr) = (powers.fl, powers.fr);
    lemma_open_gate(detector.params, sample);
    lemma_one_changes_nothing(fl);
    lemma_one_changes_nothing(fr);
    lemma_plain(fl);
    lemma_plain(fr);
    fl.lemma_rank_orders_values(fr);
    lemma_gap(fl, fr);
}

proof fn lemma_gap(a: Binary32, b: Binary32)
    requires
        plain(a),
        plain(b),
    ensures
        a.value() > b.value() ==> num(ZERO_BITS).below(a.difference(b)),
        a.value() < b.value() ==> a.difference(b).below(num(ZERO_BITS)),
        a.value() == b.value() ==> a.difference(b) == num(ZERO_BITS),
{
    let exact = a.value() - b.value();
    assert(b.opposite().value() == -b.value());
    lemma_plain(a);
    lemma_plain(b);
    a.lemma_rank_orders_values(b);
    lemma_rounding_exists(size(exact), 1);
    assert(magnitude_value(0) == 0);
    assert(magnitude_value(1) == 1);
    lemma_exact_value_is_kept(1, 1, 1);
    lemma_results_are_numbers(a, b.opposite());
    if exact > 0 {
        lemma_rounding_keeps_order(1, exact, 1);
    } else if exact < 0 {
        lemma_rounding_keeps_order(1, -exact, 1);
    } else {
        crate::arithmetic::lemma_difference_with_itself(a);
    }
}

} // verus!
