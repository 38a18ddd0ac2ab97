//! How the lock-up detector weighs evidence and shows a lock, in numbers.
use crate::arithmetic::{
    law_sum_and_product_commute, lemma_difference_with_itself, lemma_exact_value_is_kept, lemma_one_is_unit,
    lemma_product_with_zero, lemma_quotient_of_zero, lemma_results_are_numbers, lemma_rounding_exists,
    lemma_rounding_is_unique, lemma_rounding_keeps_order, nearest, rounds_to, size,
};
use crate::binary32::{lemma_magnitude_value_increases, magnitude_value, num, unit_value, Binary32, ONE_BITS, ZERO_BITS};
use crate::exactness::{lemma_difference_falls, lemma_plain, lemma_share_is_at_most_the_whole, lemma_sum_grows, plain};
use crate::model::{TelemetryPoint, VehicleTelemetry};
use crate::renderer::brake_limit::{
    baseline_params, detector_after, fresh_detector, pulse_height, seconds, side_fraction, stepped, wheel_sample,
    BrakeLimitDetector, BrakeLimitParams, LockState, SeverityPowers, WheelSample, EPSILON_BITS, PULSE_ATTACK_BITS,
    PULSE_DECAY_BITS, PULSE_HOLD_BITS, RECOVERY_SHARE_BITS,
};
use crate::renderer::brake_limit_laws::law_gate_is_closed_up_to_its_start;
use crate::renderer::brake_limit_onset::{law_gate_is_open_from_its_end, lemma_one_changes_nothing};
use crate::renderer::brake_limit_steps::lemma_transition;
use crate::time::in_seconds;
use vstd::arithmetic::power2::{lemma2_to64, lemma_pow2_adds, lemma_pow2_pos, pow2};
use vstd::prelude::*;

verus! {

/// The detector looks at the front wheels, which are the third and the fourth,
/// and at the speed and the brake input of the vehicle.
pub proof fn law_front_wheels_are_sampled(vehicle: VehicleTelemetry)
    ensures
        ({
            let sample = wheel_sample(vehicle);
            &&& sample.speed_ms == vehicle.speed
            &&& sample.brake == vehicle.brake
            &&& vehicle.wheel_slip is Some ==> sample.slip_fl == Some(vehicle.wheel_slip->0@[2])
                && sample.slip_fr == Some(vehicle.wheel_slip->0@[3])
            &&& vehicle.wheel_slip is None ==> sample.slip_fl is None && sample.slip_fr is None
            &&& vehicle.wheel_speed is Some ==> sample.wheel_speed_fl == Some(vehicle.wheel_speed->0@[2])
                && sample.wheel_speed_fr == Some(vehicle.wheel_speed->0@[3])
            &&& vehicle.wheel_speed is None ==> sample.wheel_speed_fl is None && sample.wheel_speed_fr is None
        }),
{
}

/// In a history each step takes the time that has passed since the point
/// before, and it is judged by the wheels of its own point.
pub proof fn law_history_steps_from_point_to_point(
    params: BrakeLimitParams,
    points: Seq<TelemetryPoint>,
    powers: Seq<SeverityPowers>,
    i: int,
)
    requires
        1 <= i < points.len(),
        points[i - 1].captured_at@ <= points[i].captured_at@,
    ensures
        ({
            let gap = points[i].captured_at@ - points[i - 1].captured_at@;
            detector_after(params, points, powers, (i + 1) as nat) == detector_after(
                params,
                points,
                powers,
                i as nat,
            ).updated(in_seconds(gap as nat), wheel_sample(points[i].telemetry), powers[i])
        }),
{
}

/// The peak of a lock starts with the severity at which it is confirmed and is
/// the largest severity while it lasts.
pub proof fn law_peak_is_the_largest_severity(
    detector: BrakeLimitDetector,
    dt: Binary32,
    sample: WheelSample,
    powers: SeverityPowers,
)
    ensures
        ({
            let next = detector.updated(dt, sample, powers);
            let severity = next.output.global_severity;
            &&& !detector.lock_active && next.lock_active ==> next.episode_peak == severity
            &&& detector.lock_active && detector.episode_peak.below(severity) ==> next.episode_peak == severity
            &&& detector.lock_active && severity.at_most(detector.episode_peak) ==> next.episode_peak
                == detector.episode_peak
            &&& !detector.lock_active && !next.lock_active ==> next.episode_peak == detector.episode_peak
        }),
{
    reveal(BrakeLimitDetector::updated);
}

/// A transient lock shows the pulse: its height since the lock was confirmed
/// times the peak and the strength of pulses. A sustained one burns with its
/// peak times the strength of burning. Both are confined to one.
pub proof fn law_glow_scales_the_peak(
    detector: BrakeLimitDetector,
    dt: Binary32,
    sample: WheelSample,
    powers: SeverityPowers,
)
    ensures
        ({
            let next = detector.updated(dt, sample, powers);
            let start = if detector.lock_active { detector.pulse_at } else { Some(next.time) };
            &&& next.state == LockState::TransientLock && start is Some ==> next.output.pulse == pulse_height(
                next.time.difference(start->0),
            ).product(next.episode_peak).product(detector.params.pulse_strength).unit()
            &&& next.state == LockState::SustainedLock ==> next.output.burn == next.episode_peak.product(
                detector.params.burn_strength,
            ).unit()
        }),
{
    reveal(BrakeLimitDetector::updated);
}

proof fn lemma_pulse_times()
    ensures
        num(PULSE_ATTACK_BITS).sum(num(PULSE_HOLD_BITS)) == num(0x3dcc_cccc),
        num(0x3dcc_cccc).sum(num(PULSE_DECAY_BITS)) == num(0x3e85_1eb8),
{
    let (attack, hold, decay) = (num(PULSE_ATTACK_BITS), num(PULSE_HOLD_BITS), num(PULSE_DECAY_BITS));
    lemma2_to64();
    lemma_pow2_adds(1, 121);
    lemma_pow2_adds(2, 121);
    lemma_pow2_adds(3, 121);
    lemma_pow2_pos(121);
    let p = pow2(121) as int;
    assert(magnitude_value(0x3dcc_cccb) == 13_421_771 * (2 * p));
    assert(magnitude_value(0x3dcc_cccc) == 13_421_772 * (2 * p));
    assert(magnitude_value(0x3dcc_cccd) == 13_421_773 * (2 * p));
    let exact = attack.value() + hold.value();
    assert(attack.value() == 16_106_127 * p);
    assert(hold.value() == 10_737_418 * p);
    assert(rounds_to(exact, 1, 0x3dcc_cccc));
    lemma_rounding_exists(exact, 1);
    lemma_rounding_is_unique(exact, 1, 0x3dcc_cccc, nearest(exact, 1));
    assert(decay.value() == 10_737_418 * (4 * p));
    assert(magnitude_value(0x3e85_1eb8) == 8_724_152 * (8 * p));
    lemma_exact_value_is_kept(num(0x3dcc_cccc).value() + decay.value(), 1, 0x3e85_1eb8);
}

proof fn lemma_quotients_keep_order(a: Binary32, b: Binary32, d: Binary32)
    requires
        a.finite(),
        b.finite(),
        plain(d),
        d.value() > 0,
        a.quotient(d).finite(),
        b.quotient(d).finite(),
        a.value() <= b.value(),
    ensures
        a.quotient(d).value() <= b.quotient(d).value(),
{
    let u = unit_value();
    let (x, y) = (a.quotient(d), b.quotient(d));
    lemma_pow2_pos(149);
    lemma_plain(d);
    a.lemma_parts();
    b.lemma_parts();
    assert(magnitude_value(0) == 0);
    lemma_magnitude_value_increases(0, a.magnitude());
    lemma_magnitude_value_increases(0, b.magnitude());
    lemma_results_are_numbers(a, d);
    lemma_results_are_numbers(b, d);
    let (m, n) = (size(a.value()) * u, size(b.value()) * u);
    assert(0 <= m && 0 <= n) by (nonlinear_arith)
        requires
            m == size(a.value()) * u,
            n == size(b.value()) * u,
            size(a.value()) >= 0,
            size(b.value()) >= 0,
            u > 0,
    ;
    lemma_rounding_exists(m, d.value());
    lemma_rounding_exists(n, d.value());
    lemma_magnitude_value_increases(0, x.magnitude());
    lemma_magnitude_value_increases(0, y.magnitude());
    lemma_magnitude_value_increases(x.magnitude(), y.magnitude());
    lemma_magnitude_value_increases(y.magnitude(), x.magnitude());
    if !a.negative() && !b.negative() {
        assert(m <= n) by (nonlinear_arith)
            requires
                m == a.value() * u,
                n == b.value() * u,
                a.value() <= b.value(),
                u > 0,
        ;
        lemma_rounding_keeps_order(m, n, d.value());
    } else if a.negative() && b.negative() {
        assert(n <= m) by (nonlinear_arith)
            requires
                m == -a.value() * u,
                n == -b.value() * u,
                a.value() <= b.value(),
                u > 0,
        ;
        lemma_rounding_keeps_order(n, m, d.value());
    } else if !a.negative() {
        lemma_exact_value_is_kept(0, d.value(), 0);
        assert(a.value() == 0 && b.value() == 0);
        assert(m == 0 && n == 0) by (nonlinear_arith)
            requires
                m == size(a.value()) * u,
                n == size(b.value()) * u,
                a.value() == 0,
                b.value() == 0,
        ;
    }
}

/// The pulse starts at zero, rises in proportion for 0.06 seconds, is full for
/// 0.04 more, falls in proportion, and is over 0.16 seconds later. Before its
/// start there is none.
pub proof fn law_pulse_rises_stays_and_falls(elapsed: Binary32)
    requires
        elapsed.finite(),
    ensures
        ({
            let height = pulse_height(elapsed);
            let (attack, held, over) = (num(0x3d75_c28f), num(0x3dcc_cccc), num(0x3e85_1eb8));
            let zero = num(ZERO_BITS);
            &&& elapsed.below(zero) ==> height == zero
            &&& elapsed.magnitude() == 0 ==> height.magnitude() == 0
            &&& zero.below(elapsed) && elapsed.below(attack) ==> !height.negative() && height.magnitude() == nearest(
                elapsed.value() * unit_value(),
                attack.value(),
            )
            &&& attack.at_most(elapsed) && elapsed.below(held) ==> height == num(ONE_BITS)
            &&& held.at_most(elapsed) && elapsed.below(over) ==> height == num(ONE_BITS).difference(
                elapsed.difference(attack).difference(num(0x3d23_d70a)).quotient(num(0x3e23_d70a)),
            )
            &&& over.at_most(elapsed) ==> height == zero
        }),
{
    lemma_pulse_times();
    let attack = num(PULSE_ATTACK_BITS);
    if elapsed.magnitude() == 0 {
        lemma_quotient_of_zero(elapsed, attack);
    } else if num(ZERO_BITS).below(elapsed) && elapsed.below(attack) {
        lemma_plain(elapsed);
        lemma_plain(attack);
        lemma_results_are_numbers(elapsed, attack);
        let n = elapsed.value() * unit_value();
        lemma_pow2_pos(149);
        assert(n >= 0) by (nonlinear_arith)
            requires
                n == elapsed.value() * unit_value(),
                elapsed.value() >= 0,
                unit_value() > 0,
        ;
        lemma_rounding_exists(n, attack.value());
    }
}

/// While it falls, a later pulse is not higher than an earlier one.
pub proof fn law_pulse_falls_steadily(earlier: Binary32, later: Binary32)
    requires
        num(0x3dcc_cccc).at_most(earlier),
        earlier.at_most(later),
        later.below(num(0x3e85_1eb8)),
    ensures
        pulse_height(later).at_most(pulse_height(earlier)),
{
    lemma_pulse_times();
    lemma_falling(earlier);
    lemma_falling(later);
    let (attack, hold, decay) = (num(PULSE_ATTACK_BITS), num(PULSE_HOLD_BITS), num(PULSE_DECAY_BITS));
    earlier.lemma_rank_orders_values(later);
    law_sum_and_product_commute(earlier, attack.opposite());
    law_sum_and_product_commute(later, attack.opposite());
    lemma_sum_grows(attack.opposite(), earlier, later);
    let (a, b) = (earlier.difference(attack), later.difference(attack));
    law_sum_and_product_commute(a, hold.opposite());
    law_sum_and_product_commute(b, hold.opposite());
    lemma_sum_grows(hold.opposite(), a, b);
    let (c, d) = (a.difference(hold), b.difference(hold));
    lemma_plain(decay);
    lemma_quotients_keep_order(c, d, decay);
    let one = num(ONE_BITS);
    lemma_difference_falls(one, c.quotient(decay), d.quotient(decay));
    pulse_height(later).lemma_rank_orders_values(pulse_height(earlier));
}

/// While the pulse falls, none of the steps of its computation leaves the
/// numbers below four.
proof fn lemma_falling(elapsed: Binary32)
    requires
        num(0x3dcc_cccc).at_most(elapsed),
        elapsed.below(num(0x3e85_1eb8)),
    ensures
        ({
            let a = elapsed.difference(num(PULSE_ATTACK_BITS));
            let b = a.difference(num(PULSE_HOLD_BITS));
            let c = b.quotient(num(PULSE_DECAY_BITS));
            let d = num(ONE_BITS).difference(c);
            &&& a.finite() && b.finite() && c.finite() && d.finite()
            &&& pulse_height(elapsed) == d
        }),
{
    lemma_pulse_times();
    let (attack, hold, decay) = (num(PULSE_ATTACK_BITS), num(PULSE_HOLD_BITS), num(PULSE_DECAY_BITS));
    let a = elapsed.difference(attack);
    crate::exactness::lemma_sum_within(elapsed, attack, 0x3f00_0000);
    let b = a.difference(hold);
    crate::exactness::lemma_sum_within(a, hold, 0x3f80_0000);
    let c = b.quotient(decay);
    lemma_results_are_numbers(b, decay);
    lemma2_to64();
    lemma_pow2_adds(1, 149);
    lemma_pow2_adds(23, 127);
    lemma_pow2_adds(23, 131);
    lemma_pow2_adds(5, 149);
    lemma_pow2_adds(23, 123);
    lemma_pow2_adds(26, 123);
    assert(decay.value() == 10_737_418 * pow2(123));
    lemma_pow2_pos(123);
    lemma_pow2_pos(149);
    let u = unit_value();
    b.lemma_parts();
    lemma_magnitude_value_increases(b.magnitude(), 0x4000_0000);
    assert(magnitude_value(0x4000_0000) == 2 * u);
    assert(magnitude_value(0x4200_0000) == 32 * u);
    lemma_plain(decay);
    assert(8 * decay.value() >= u);
    let n = size(b.value()) * u;
    let dv = decay.value();
    assert(0 <= n <= (32 * u) * dv) by (nonlinear_arith)
        requires
            n == size(b.value()) * u,
            0 <= size(b.value()) <= 2 * u,
            8 * dv >= u,
            u > 0,
    ;
    lemma_exact_value_is_kept((32 * u) * dv, dv, 0x4200_0000);
    lemma_rounding_keeps_order(n, (32 * u) * dv, dv);
    lemma_rounding_exists(n, dv);
    assert(c.magnitude() <= 0x4200_0000);
    crate::exactness::lemma_sum_within(num(ONE_BITS), c, 0x4200_0000);
}

/// Whether two edges lie apart and a number can be placed between them.
pub open spec fn places(edge0: Binary32, edge1: Binary32, x: Binary32) -> bool {
    &&& edge0.finite() && edge1.finite() && x.finite()
    &&& edge0.below(edge1)
    &&& edge1.difference(edge0).finite() && x.difference(edge0).finite()
    &&& !edge1.difference(edge0).absolute().below(num(EPSILON_BITS))
}

/// The evidence of a wheel comes from its slip and from its speed: deep slip
/// alone counts 0.65, a slow wheel alone 0.35, both together one and neither
/// nothing.
pub proof fn law_slip_and_wheel_speed_share_the_evidence(
    params: BrakeLimitParams,
    slip: Binary32,
    wheel_speed: Binary32,
    speed_ms: Binary32,
)
    requires
        slip.below(num(ZERO_BITS)),
        places(params.slip_warn_start, params.slip_full_lock, slip.opposite()),
        places(
            params.wheel_lock_ratio,
            params.wheel_warn_ratio,
            wheel_speed.quotient(speed_ms.larger(num(ONE_BITS))),
        ),
    ensures
        ({
            let depth = slip.opposite();
            let ratio = wheel_speed.quotient(speed_ms.larger(num(ONE_BITS)));
            let base = params.base(Some(slip), Some(wheel_speed), speed_ms);
            let (deep, shallow) = (params.slip_full_lock.at_most(depth), depth.at_most(params.slip_warn_start));
            let (slow, rolling) = (ratio.at_most(params.wheel_lock_ratio), params.wheel_warn_ratio.at_most(ratio));
            &&& deep && slow ==> base == num(ONE_BITS)
            &&& deep && rolling ==> base == num(0x3f26_6666)
            &&& shallow && slow ==> base == num(0x3eb3_3333)
            &&& shallow && rolling ==> base.magnitude() == 0
        }),
{
    let depth = slip.opposite();
    let ratio = wheel_speed.quotient(speed_ms.larger(num(ONE_BITS)));
    let (deep, shallow) = (params.slip_full_lock.at_most(depth), depth.at_most(params.slip_warn_start));
    let (slow, rolling) = (ratio.at_most(params.wheel_lock_ratio), params.wheel_warn_ratio.at_most(ratio));
    assert(params.slip_magnitude(Some(slip)) == depth);
    let (one, zero) = (num(ONE_BITS), num(ZERO_BITS));
    let (a, b) = (num(0x3f26_6666), num(0x3eb3_3333));
    let slip_norm = stepped(params.slip_warn_start, params.slip_full_lock, depth);
    let wheel_step = stepped(params.wheel_lock_ratio, params.wheel_warn_ratio, ratio);
    let wheel_norm = one.difference(wheel_step);
    if deep {
        law_gate_is_open_from_its_end(params.slip_warn_start, params.slip_full_lock, depth);
        lemma_one_changes_nothing(a);
    }
    if shallow {
        law_gate_is_closed_up_to_its_start(params.slip_warn_start, params.slip_full_lock, depth);
        lemma_product_with_zero(slip_norm, a);
    }
    if slow {
        law_gate_is_closed_up_to_its_start(params.wheel_lock_ratio, params.wheel_warn_ratio, ratio);
        crate::arithmetic::lemma_sum_with_zero(one, wheel_step.opposite());
        lemma_one_changes_nothing(b);
    }
    if rolling {
        law_gate_is_open_from_its_end(params.wheel_lock_ratio, params.wheel_warn_ratio, ratio);
        lemma_difference_with_itself(one);
        lemma_product_with_zero(wheel_norm, b);
    }
    let (x, y) = (a.product(slip_norm), b.product(wheel_norm));
    if deep && slow {
        lemma_shares_add_up();
    }
    if deep && rolling {
        crate::arithmetic::lemma_sum_with_zero(a, y);
    }
    if shallow && slow {
        law_sum_and_product_commute(x, b);
        crate::arithmetic::lemma_sum_with_zero(b, x);
    }
    if shallow && rolling {
        assert(magnitude_value(0) == 0);
        lemma_exact_value_is_kept(0, 1, 0);
    }
}

proof fn lemma_shares_add_up()
    ensures
        num(0x3f26_6666).sum(num(0x3eb3_3333)) == num(ONE_BITS),
{
    let (a, b) = (num(0x3f26_6666), num(0x3eb3_3333));
    lemma2_to64();
    lemma_pow2_adds(1, 124);
    lemma_pow2_adds(2, 124);
    lemma_pow2_pos(124);
    let p = pow2(124) as int;
    assert(a.value() == 10_905_190 * (2 * p));
    assert(b.value() == 11_744_051 * p);
    assert(magnitude_value(0x3f7f_ffff) == 16_777_215 * (2 * p));
    assert(magnitude_value(0x3f80_0000) == 8_388_608 * (4 * p));
    assert(magnitude_value(0x3f80_0001) == 8_388_609 * (4 * p));
    let exact = a.value() + b.value();
    assert(rounds_to(exact, 1, 0x3f80_0000));
    lemma_rounding_exists(exact, 1);
    lemma_rounding_is_unique(exact, 1, 0x3f80_0000, nearest(exact, 1));
}

/// The side with the larger severity is lit with the whole amount of the lock,
/// and the other one with its share of it. The whole amount follows the pulse of
/// a transient lock, the burn of a sustained one, and 0.7 times the peak right
/// after a release, each times the strength of the cyan and confined to one.
pub proof fn law_worse_side_is_lit_fully(
    detector: BrakeLimitDetector,
    dt: Binary32,
    sample: WheelSample,
    powers: SeverityPowers,
)
    requires
        detector.updated(dt, sample, powers).episode_peak.finite(),
        detector.updated(dt, sample, powers).time.finite(),
        detector.params.lock_cyan_strength.finite(),
        plain(detector.updated(dt, sample, powers).output.severity_fl),
        plain(detector.updated(dt, sample, powers).output.severity_fr),
        num(EPSILON_BITS).below(detector.updated(dt, sample, powers).output.global_severity),
    ensures
        ({
            let next = detector.updated(dt, sample, powers);
            let output = next.output;
            let strength = detector.params.lock_cyan_strength;
            let left_worse = output.severity_fr.at_most(output.severity_fl);
            let (full, part) = if left_worse { (output.lock_fl, output.lock_fr) } else {
                (output.lock_fr, output.lock_fl)
            };
            let share = if left_worse { output.severity_fr.quotient(output.severity_fl) } else {
                output.severity_fl.quotient(output.severity_fr)
            };
            &&& !full.nan() ==> part == full.product(share)
            &&& output.color_mix == full.larger(output.approach_mix)
            &&& next.state == LockState::TransientLock && !output.pulse.nan() ==> full == output.pulse.product(
                strength,
            ).unit()
            &&& next.state == LockState::SustainedLock && num(ZERO_BITS).below(output.burn) ==> full
                == output.burn.product(strength).unit()
            &&& next.state == LockState::Recovery && detector.lock_active && plain(next.episode_peak) && num(
                ZERO_BITS,
            ).below(seconds(detector.params.release_hold_ms)) && seconds(detector.params.release_hold_ms).finite()
                && num(ZERO_BITS).below(next.episode_peak.product(num(0x3f33_3333))) ==> full
                == next.episode_peak.product(num(0x3f33_3333)).product(strength).unit()
        }),
{
    reveal(BrakeLimitDetector::updated);
    let next = detector.updated(dt, sample, powers);
    let output = next.output;
    let strength = detector.params.lock_cyan_strength;
    let (one, zero) = (num(ONE_BITS), num(ZERO_BITS));
    let (fl, fr) = (output.severity_fl, output.severity_fr);
    let global = output.global_severity;
    let left_worse = fr.at_most(fl);
    let (a, b) = if left_worse { (fl, fr) } else { (fr, fl) };
    assert(a == global);
    lemma_itself_over_itself(a);
    lemma_part_over_whole(b, a);
    let amount = next.lock_amount();
    assert(side_fraction(a, global) == one);
    assert(amount.unit() == amount);
    if !amount.nan() {
        lemma_one_changes_nothing(amount);
    }
    lemma_product_with_zero(zero, next.episode_peak);
    lemma_product_with_zero(zero.product(next.episode_peak), num(RECOVERY_SHARE_BITS));
    if next.state == LockState::Recovery && detector.lock_active && plain(next.episode_peak) && zero.below(
        seconds(detector.params.release_hold_ms),
    ) && seconds(detector.params.release_hold_ms).finite() {
        lemma_difference_with_itself(next.time);
        lemma_quotient_of_zero(zero, seconds(detector.params.release_hold_ms));
        let none = zero.quotient(seconds(detector.params.release_hold_ms));
        crate::arithmetic::lemma_sum_with_zero(one, none.opposite());
        law_sum_and_product_commute(one, next.episode_peak);
        lemma_one_changes_nothing(next.episode_peak);
        assert(next.recovery() == one);
        let glow = next.episode_peak.product(num(RECOVERY_SHARE_BITS));
        law_sum_and_product_commute(next.episode_peak, num(RECOVERY_SHARE_BITS));
        lemma_share_is_at_most_the_whole(num(RECOVERY_SHARE_BITS), next.episode_peak);
        lemma_results_are_numbers(glow, strength);
    }
    if next.state == LockState::TransientLock && !output.pulse.nan() {
        lemma_results_are_numbers(output.pulse, strength);
        assert(next.recovery() == zero);
        assert(amount == output.pulse.product(strength).unit());
    }
    if next.state == LockState::SustainedLock && zero.below(output.burn) {
        lemma_results_are_numbers(output.burn, strength);
        assert(next.recovery() == zero);
        assert(amount == output.burn.product(strength).unit());
    }
}

proof fn lemma_itself_over_itself(a: Binary32)
    requires
        plain(a),
        num(ZERO_BITS).below(a),
    ensures
        a.quotient(a) == num(ONE_BITS),
{
    lemma_plain(a);
    lemma_one_is_unit();
    let (x, u) = (a.value(), unit_value());
    assert(x * u == u * x) by (nonlinear_arith);
    lemma_exact_value_is_kept(x * u, x, ONE_BITS as int);
}

/// A part divided by the whole is a share.
proof fn lemma_part_over_whole(a: Binary32, b: Binary32)
    requires
        plain(a),
        plain(b),
        num(ZERO_BITS).below(b),
        a.at_most(b),
    ensures
        plain(a.quotient(b)),
        a.quotient(b).unit() == a.quotient(b),
{
    lemma_plain(a);
    lemma_plain(b);
    lemma_one_is_unit();
    lemma_pow2_pos(149);
    a.lemma_rank_orders_values(b);
    let (x, y, u) = (a.value(), b.value(), unit_value());
    assert(0 <= x * u <= u * y) by (nonlinear_arith)
        requires
            0 <= x <= y,
            u > 0,
    ;
    lemma_exact_value_is_kept(u * y, y, ONE_BITS as int);
    lemma_rounding_keeps_order(x * u, u * y, y);
    lemma_rounding_exists(x * u, y);
    lemma_results_are_numbers(a, b);
}

/// Slip counts only at speed and while braking: with the speed or the brake at
/// or below the start of its gate nothing of it counts and the severities are
/// zero, and with one gate open the other decides.
pub proof fn law_slip_counts_at_speed_and_while_braking(
    detector: BrakeLimitDetector,
    dt: Binary32,
    sample: WheelSample,
    powers: SeverityPowers,
)
    requires
        plain(sample.speed_ms),
        plain(powers.fl),
        plain(powers.fr),
        places(
            detector.params.speed_gate_start,
            detector.params.speed_gate_full,
            sample.speed_ms.product(num(0x4066_6666)),
        ),
        places(detector.params.brake_gate_start, detector.params.brake_gate_full, sample.brake),
    ensures
        ({
            let params = detector.params;
            let speed_kmh = sample.speed_ms.product(num(0x4066_6666));
            let gate = params.gate(sample);
            let output = detector.updated(dt, sample, powers).output;
            let slow = speed_kmh.at_most(params.speed_gate_start);
            let released = sample.brake.at_most(params.brake_gate_start);
            let (fast, braking) = (
                params.speed_gate_full.at_most(speed_kmh),
                params.brake_gate_full.at_most(sample.brake),
            );
            &&& slow || released ==> gate.magnitude() == 0
            &&& slow || released ==> output.severity_fl.magnitude() == 0 && output.severity_fr.magnitude() == 0
            &&& fast ==> gate == num(ONE_BITS).product(
                stepped(params.brake_gate_start, params.brake_gate_full, sample.brake),
            )
            &&& braking ==> gate == stepped(params.speed_gate_start, params.speed_gate_full, speed_kmh).product(
                num(ONE_BITS),
            )
        }),
{
    reveal(BrakeLimitDetector::updated);
    let params = detector.params;
    let speed_kmh = sample.speed_ms.product(num(0x4066_6666));
    assert(sample.speed_ms.larger(num(ZERO_BITS)) == sample.speed_ms);
    let a = stepped(params.speed_gate_start, params.speed_gate_full, speed_kmh);
    let b = stepped(params.brake_gate_start, params.brake_gate_full, sample.brake);
    lemma_transition(params.speed_gate_start, params.speed_gate_full, speed_kmh);
    lemma_transition(params.brake_gate_start, params.brake_gate_full, sample.brake);
    let gate = params.gate(sample);
    assert(gate == a.product(b));
    if speed_kmh.at_most(params.speed_gate_start) {
        law_gate_is_closed_up_to_its_start(params.speed_gate_start, params.speed_gate_full, speed_kmh);
        lemma_product_with_zero(a, b);
    }
    if sample.brake.at_most(params.brake_gate_start) {
        law_gate_is_closed_up_to_its_start(params.brake_gate_start, params.brake_gate_full, sample.brake);
        lemma_product_with_zero(b, a);
    }
    if gate.magnitude() == 0 {
        lemma_product_with_zero(gate, powers.fl);
        lemma_product_with_zero(gate, powers.fr);
    }
    if params.speed_gate_full.at_most(speed_kmh) {
        law_gate_is_open_from_its_end(params.speed_gate_start, params.speed_gate_full, speed_kmh);
    }
    if params.brake_gate_full.at_most(sample.brake) {
        law_gate_is_open_from_its_end(params.brake_gate_start, params.brake_gate_full, sample.brake);
    }
}

/// The calibrated thresholds are in order: each gate opens before it is fully
/// open, the approach starts before the lock and the lock before full severity,
/// and the wheel is slower at full severity than at the warning. The times are
/// 60 milliseconds to confirm, 280 to sustain and 100 to recover.
pub proof fn law_baseline_thresholds_are_in_order()
    ensures
        ({
            let params = baseline_params();
            &&& params.speed_gate_start.below(params.speed_gate_full)
            &&& params.brake_gate_start.below(params.brake_gate_full)
            &&& params.slip_warn_start.below(params.slip_lock_start)
            &&& params.slip_lock_start.below(params.slip_full_lock)
            &&& params.wheel_lock_ratio.below(params.wheel_warn_ratio)
            &&& params.lock_attack_ms == num(0x4270_0000)
            &&& params.sustained_ms == num(0x438c_0000)
            &&& params.release_hold_ms == num(0x42c8_0000)
            &&& params.slip_warn_start == num(0x3e19_999a)
            &&& params.slip_lock_start == num(0x3ee6_6666)
            &&& params.wheel_warn_ratio == num(0x3f4c_cccd)
        }),
{
}

/// A new detector has seen no time, no approach and no lock.
pub proof fn law_new_detector_knows_nothing(params: BrakeLimitParams)
    ensures
        ({
            let detector = fresh_detector(params);
            &&& detector.params == params
            &&& detector.time == num(ZERO_BITS)
            &&& !detector.approaching && !detector.locked_fl && !detector.locked_fr && !detector.lock_active
            &&& detector.lock_condition_since is None && detector.lock_started_at is None
            &&& detector.release_at is None && detector.pulse_at is None
            &&& detector.state == LockState::Normal && !detector.output.lock_confirmed
        }),
{
}

} // verus!
