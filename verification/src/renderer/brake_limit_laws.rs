//! What holds of the lock-up detector for all samples.
use crate::arithmetic::{
    lemma_difference_with_itself, lemma_exact_value_is_kept, lemma_product_with_zero, lemma_quotient_of_zero,
    lemma_results_are_numbers, lemma_rounding_exists,
};
use crate::binary32::{magnitude_value, num, Binary32, ONE_BITS, ZERO_BITS};
use crate::renderer::brake_limit::{
    history_value, seconds, side_fraction, stepped, BrakeLimitDetector, BrakeLimitParams, LockState,
    SeverityPowers, WheelSample, APPROACH_CAP_BITS, EPSILON_BITS, HISTORY_FLOOR_BITS, RECOVERY_SHARE_BITS, THREE_BITS,
    TWO_BITS,
};
use vstd::prelude::*;

verus! {

/// Whether a detector reports a confirmed lock.
pub open spec fn in_lock(detector: BrakeLimitDetector) -> bool {
    detector.state == LockState::TransientLock || detector.state == LockState::SustainedLock
}

/// A lock is confirmed exactly in the two lock states, and the report shows
/// the state.
pub proof fn law_confirmed_lock_is_a_lock_state(
    detector: BrakeLimitDetector,
    dt: Binary32,
    sample: WheelSample,
    powers: SeverityPowers,
)
    ensures
        ({
            let next = detector.updated(dt, sample, powers);
            &&& next.lock_active == in_lock(next)
            &&& next.output.lock_confirmed == next.lock_active
            &&& next.output.state == next.state
            &&& next.params == detector.params
        }),
{
    reveal(BrakeLimitDetector::updated);
}

/// A lock becomes active only after its condition has lasted for the attack
/// time without interruption, and it stays active as long as the condition.
pub proof fn law_lock_is_debounced(
    detector: BrakeLimitDetector,
    dt: Binary32,
    sample: WheelSample,
    powers: SeverityPowers,
)
    ensures
        ({
            let next = detector.updated(dt, sample, powers);
            let condition = next.locked_fl || next.locked_fr;
            &&& next.lock_active ==> condition
            &&& detector.lock_active ==> next.lock_active == condition
            &&& condition ==> next.lock_condition_since == Some(
                match detector.lock_condition_since {
                    Some(start) => start,
                    None => next.time,
                },
            )
            &&& !condition ==> next.lock_condition_since is None
            &&& !detector.lock_active && next.lock_active ==> seconds(detector.params.lock_attack_ms).at_most(
                next.time.difference(next.lock_condition_since->0),
            )
        }),
{
    reveal(BrakeLimitDetector::updated);
}

/// A new lock is transient: it never starts as a sustained one.
pub proof fn law_new_lock_is_transient(
    detector: BrakeLimitDetector,
    dt: Binary32,
    sample: WheelSample,
    powers: SeverityPowers,
)
    requires
        !detector.lock_active,
        detector.updated(dt, sample, powers).lock_active,
        detector.updated(dt, sample, powers).time.finite(),
        num(ZERO_BITS).below(seconds(detector.params.sustained_ms)),
    ensures
        detector.updated(dt, sample, powers).state == LockState::TransientLock,
{
    reveal(BrakeLimitDetector::updated);
    lemma_difference_with_itself(detector.updated(dt, sample, powers).time);
}

/// The pulse starts once for each lock: while the lock lasts, neither its
/// start nor the start of the pulse moves.
pub proof fn law_one_pulse_for_each_lock(
    detector: BrakeLimitDetector,
    dt: Binary32,
    sample: WheelSample,
    powers: SeverityPowers,
)
    ensures
        ({
            let next = detector.updated(dt, sample, powers);
            if !detector.lock_active && next.lock_active {
                next.pulse_at == Some(next.time) && next.lock_started_at == Some(next.time)
            } else {
                next.pulse_at == detector.pulse_at && next.lock_started_at == detector.lock_started_at
            }
        }),
{
    reveal(BrakeLimitDetector::updated);
}

/// A lock that ends is followed by recovery.
pub proof fn law_released_lock_recovers(
    detector: BrakeLimitDetector,
    dt: Binary32,
    sample: WheelSample,
    powers: SeverityPowers,
)
    requires
        detector.lock_active,
        !detector.updated(dt, sample, powers).lock_active,
        detector.updated(dt, sample, powers).time.finite(),
        num(ZERO_BITS).below(seconds(detector.params.release_hold_ms)),
    ensures
        detector.updated(dt, sample, powers).state == LockState::Recovery,
{
    reveal(BrakeLimitDetector::updated);
    lemma_difference_with_itself(detector.updated(dt, sample, powers).time);
}

/// The pulse belongs to a transient lock and the burn to a sustained one.
pub proof fn law_glow_belongs_to_its_state(
    detector: BrakeLimitDetector,
    dt: Binary32,
    sample: WheelSample,
    powers: SeverityPowers,
)
    ensures
        ({
            let next = detector.updated(dt, sample, powers);
            &&& next.state != LockState::TransientLock ==> next.output.pulse == num(ZERO_BITS)
            &&& next.state != LockState::SustainedLock ==> next.output.burn == num(ZERO_BITS)
        }),
{
    reveal(BrakeLimitDetector::updated);
}

/// Severities lie between zero and one, and the warning stays below the level
/// at which it reads as an alarm.
pub proof fn law_levels_are_bounded(
    detector: BrakeLimitDetector,
    dt: Binary32,
    sample: WheelSample,
    powers: SeverityPowers,
)
    ensures
        ({
            let output = detector.updated(dt, sample, powers).output;
            &&& !output.severity_fl.nan() ==> num(ZERO_BITS).at_most(output.severity_fl)
                && output.severity_fl.at_most(num(ONE_BITS))
            &&& !output.severity_fr.nan() ==> num(ZERO_BITS).at_most(output.severity_fr)
                && output.severity_fr.at_most(num(ONE_BITS))
            &&& output.approach_mix.at_most(num(APPROACH_CAP_BITS))
        }),
{
    reveal(BrakeLimitDetector::updated);
}

proof fn lemma_side_fraction_is_finite(side: Binary32, global: Binary32)
    requires
        num(ZERO_BITS).at_most(side),
        side.at_most(num(ONE_BITS)),
        global.at_most(num(ONE_BITS)),
    ensures
        side_fraction(side, global).finite(),
{
    if num(EPSILON_BITS).below(global) {
        lemma_results_are_numbers(side, global);
    }
}

/// Without a lock and its aftermath no cyan is shown, however close the wheels
/// are to locking.
pub proof fn law_no_cyan_without_lock(
    detector: BrakeLimitDetector,
    dt: Binary32,
    sample: WheelSample,
    powers: SeverityPowers,
)
    requires
        detector.updated(dt, sample, powers).state == LockState::Normal || detector.updated(dt, sample, powers).state
            == LockState::Approaching,
        detector.updated(dt, sample, powers).episode_peak.finite(),
        detector.params.lock_cyan_strength.finite(),
        !detector.updated(dt, sample, powers).output.severity_fl.nan(),
        !detector.updated(dt, sample, powers).output.severity_fr.nan(),
    ensures
        detector.updated(dt, sample, powers).output.lock_fl.magnitude() == 0,
        detector.updated(dt, sample, powers).output.lock_fr.magnitude() == 0,
{
    reveal(BrakeLimitDetector::updated);
    let next = detector.updated(dt, sample, powers);
    let fl = detector.left(sample, powers);
    let fr = detector.right(sample, powers);
    let global = fl.severity.larger(fr.severity);
    let zero = num(ZERO_BITS);
    assert(zero.unit() == zero);
    lemma_product_with_zero(zero, next.episode_peak);
    let glow = zero.product(next.episode_peak);
    lemma_product_with_zero(glow, num(RECOVERY_SHARE_BITS));
    let strongest = zero.larger(zero).larger(glow.product(num(RECOVERY_SHARE_BITS)));
    lemma_product_with_zero(strongest, detector.params.lock_cyan_strength);
    lemma_side_fraction_is_finite(fl.severity, global);
    lemma_side_fraction_is_finite(fr.severity, global);
    lemma_product_with_zero(next.lock_amount(), side_fraction(fl.severity, global));
    lemma_product_with_zero(next.lock_amount(), side_fraction(fr.severity, global));
}

/// A wheel without severity is not lit: a lock of one side lights only that
/// side.
pub proof fn law_lock_lights_its_own_side(
    detector: BrakeLimitDetector,
    dt: Binary32,
    sample: WheelSample,
    powers: SeverityPowers,
)
    requires
        !detector.updated(dt, sample, powers).lock_amount().nan(),
        !detector.updated(dt, sample, powers).output.global_severity.nan(),
    ensures
        ({
            let output = detector.updated(dt, sample, powers).output;
            &&& output.severity_fl == num(ZERO_BITS) ==> output.lock_fl.magnitude() == 0
            &&& output.severity_fr == num(ZERO_BITS) ==> output.lock_fr.magnitude() == 0
        }),
{
    reveal(BrakeLimitDetector::updated);
    let next = detector.updated(dt, sample, powers);
    let fl = detector.left(sample, powers);
    let fr = detector.right(sample, powers);
    let global = fl.severity.larger(fr.severity);
    let zero = num(ZERO_BITS);
    if num(EPSILON_BITS).below(global) {
        lemma_quotient_of_zero(zero, global);
    }
    assert(side_fraction(zero, global).magnitude() == 0);
    lemma_product_with_zero(side_fraction(zero, global), next.lock_amount());
}

/// Whether the thresholds of the hysteresis are above zero.
pub open spec fn positive_thresholds(params: BrakeLimitParams) -> bool {
    let zero = num(ZERO_BITS);
    &&& zero.below(params.slip_warn_start)
    &&& zero.below(params.warn_exit())
    &&& zero.below(params.slip_lock_start)
    &&& zero.below(params.lock_exit())
}

/// Without slip, or with a closed speed or brake gate, nothing approaches and
/// nothing locks.
pub proof fn law_no_evidence_no_lock(
    detector: BrakeLimitDetector,
    dt: Binary32,
    sample: WheelSample,
    powers: SeverityPowers,
)
    requires
        positive_thresholds(detector.params),
        detector.left(sample, powers).slip_mag.magnitude() == 0,
        detector.right(sample, powers).slip_mag.magnitude() == 0,
    ensures
        ({
            let next = detector.updated(dt, sample, powers);
            &&& !next.locked_fl && !next.locked_fr && !next.approaching
            &&& !next.lock_active && !in_lock(next)
            &&& !detector.lock_active && detector.release_at is None ==> next.state == LockState::Normal
        }),
{
    reveal(BrakeLimitDetector::updated);
}

/// Missing wheel data are no evidence of a lock.
pub proof fn law_missing_wheel_data_is_no_evidence(
    detector: BrakeLimitDetector,
    dt: Binary32,
    sample: WheelSample,
    powers: SeverityPowers,
)
    requires
        positive_thresholds(detector.params),
        sample.slip_fl is None,
        sample.slip_fr is None,
        detector.params.gate(sample).finite(),
    ensures
        ({
            let next = detector.updated(dt, sample, powers);
            &&& !next.lock_active && !in_lock(next) && !next.approaching
        }),
{
    let gate = detector.params.gate(sample);
    lemma_product_with_zero(detector.params.slip_magnitude(None), gate);
    law_no_evidence_no_lock(detector, dt, sample, powers);
}

/// A closed gate hides any slip.
pub proof fn law_closed_gate_hides_slip(
    detector: BrakeLimitDetector,
    dt: Binary32,
    sample: WheelSample,
    powers: SeverityPowers,
)
    requires
        positive_thresholds(detector.params),
        detector.params.gate(sample).magnitude() == 0,
        detector.params.slip_magnitude(sample.slip_fl).finite(),
        detector.params.slip_magnitude(sample.slip_fr).finite(),
    ensures
        ({
            let next = detector.updated(dt, sample, powers);
            &&& !next.lock_active && !in_lock(next) && !next.approaching
        }),
{
    let gate = detector.params.gate(sample);
    lemma_product_with_zero(gate, detector.params.slip_magnitude(sample.slip_fl));
    lemma_product_with_zero(gate, detector.params.slip_magnitude(sample.slip_fr));
    law_no_evidence_no_lock(detector, dt, sample, powers);
}

/// A gate is closed up to its start.
pub proof fn law_gate_is_closed_up_to_its_start(edge0: Binary32, edge1: Binary32, x: Binary32)
    requires
        edge0.finite(),
        edge1.finite(),
        x.finite(),
        x.at_most(edge0),
        edge0.below(edge1),
        x.difference(edge0).finite(),
        edge1.difference(edge0).finite(),
        !edge1.difference(edge0).absolute().below(num(EPSILON_BITS)),
    ensures
        stepped(edge0, edge1, x).magnitude() == 0,
{
    let rise = x.difference(edge0);
    let span = edge1.difference(edge0);
    x.lemma_rank_orders_values(edge0);
    edge0.lemma_rank_orders_values(edge1);
    let exact = x.value() + edge0.opposite().value();
    let wide = edge1.value() + edge0.opposite().value();
    assert(exact <= 0);
    assert(wide > 0);
    if exact < 0 {
        lemma_rounding_exists(-exact, 1);
    }
    lemma_rounding_exists(wide, 1);
    assert(rise.negative() || rise.magnitude() == 0);
    assert(!span.negative() && span.magnitude() > 0);
    lemma_results_are_numbers(rise, span);
    if rise.magnitude() == 0 {
        lemma_quotient_of_zero(rise, span);
    }
    let t = rise.quotient(span).unit();
    assert(t.magnitude() == 0);
    lemma_product_with_zero(t, num(TWO_BITS));
    lemma_product_with_zero(t, t);
    lemma_results_are_numbers(num(TWO_BITS), t);
    let slope = num(THREE_BITS).difference(num(TWO_BITS).product(t));
    lemma_three_minus_zero(num(TWO_BITS).product(t));
    lemma_product_with_zero(t.product(t), slope);
}

proof fn lemma_three_minus_zero(zero: Binary32)
    requires
        zero.magnitude() == 0,
    ensures
        num(THREE_BITS).difference(zero).finite(),
{
    let three = num(THREE_BITS);
    assert(magnitude_value(0) == 0);
    three.lemma_rank_orders_values(num(ZERO_BITS));
    lemma_exact_value_is_kept(magnitude_value(THREE_BITS as int), 1, THREE_BITS as int);
}

/// Between its two thresholds the approach neither starts nor ends.
pub proof fn law_approach_does_not_flicker(
    detector: BrakeLimitDetector,
    dt: Binary32,
    sample: WheelSample,
    powers: SeverityPowers,
)
    requires
        !detector.params.slip_warn_start.at_most(detector.left(sample, powers).slip_mag),
        !detector.params.slip_warn_start.at_most(detector.right(sample, powers).slip_mag),
        detector.params.warn_exit().at_most(detector.left(sample, powers).slip_mag)
            || detector.params.warn_exit().at_most(detector.right(sample, powers).slip_mag),
    ensures
        detector.updated(dt, sample, powers).approaching == detector.approaching,
{
    reveal(BrakeLimitDetector::updated);
}

/// The history records confirmed locks only, each at least at the floor.
pub proof fn law_history_records_confirmed_locks_only(detector: BrakeLimitDetector)
    ensures
        !detector.lock_active ==> history_value(detector) == num(ZERO_BITS),
        detector.lock_active ==> num(HISTORY_FLOOR_BITS).at_most(history_value(detector)),
        detector.lock_active <==> num(ZERO_BITS).below(history_value(detector)),
{
}

} // verus!
