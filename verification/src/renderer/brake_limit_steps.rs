//! What holds of the lock-up detector after any number of samples.
use crate::arithmetic::{
    law_sum_and_product_commute, lemma_exact_value_is_kept, lemma_one_is_unit, lemma_product_with_zero,
    lemma_results_are_numbers, lemma_rounding_exists, lemma_rounding_keeps_order, lemma_whole_is_exact, size, whole,
    NAN_BITS,
};
use crate::binary32::{lemma_magnitude_value_increases, magnitude_value, num, unit_value, Binary32, ONE_BITS, ZERO_BITS};
use crate::exactness::lemma_share_is_at_most_the_whole;
use crate::model::TelemetryPoint;
use crate::renderer::brake_limit::{
    detector_after, fresh_detector, lock_history, side_fraction, stepped, BrakeLimitDetector, BrakeLimitFeedback,
    BrakeLimitParams, LockState, SeverityPowers, WheelSample, APPROACH_CAP_BITS, EPSILON_BITS, HISTORY_FLOOR_BITS,
    KPH_PER_MPS_BITS, RECOVERY_SHARE_BITS, SLIP_SHARE_BITS, THREE_BITS, TWO_BITS, WHEEL_SHARE_BITS,
};
use crate::renderer::brake_limit_laws::{
    in_lock, law_confirmed_lock_is_a_lock_state, law_levels_are_bounded, law_no_cyan_without_lock,
};
use vstd::arithmetic::power2::{lemma2_to64, lemma_pow2_adds, lemma_pow2_pos, pow2};
use vstd::prelude::*;

verus! {

/// One step of a detector.
pub struct Step {
    pub dt: Binary32,
    pub sample: WheelSample,
    pub powers: SeverityPowers,
}

/// The detector after a sequence of steps.
pub open spec fn reached(params: BrakeLimitParams, steps: Seq<Step>) -> BrakeLimitDetector
    decreases steps.len(),
{
    if steps.len() == 0 {
        fresh_detector(params)
    } else {
        let last = steps.last();
        reached(params, steps.drop_last()).updated(last.dt, last.sample, last.powers)
    }
}

proof fn lemma_small_constants()
    ensures
        num(ONE_BITS).value() == unit_value(),
        num(TWO_BITS).value() == 2 * unit_value(),
        num(THREE_BITS).value() == 3 * unit_value(),
        unit_value() > 0,
{
    lemma_one_is_unit();
    lemma_pow2_pos(149);
    lemma2_to64();
    lemma_pow2_adds(23, 127);
    lemma_pow2_adds(149, 1);
    lemma_pow2_adds(22, 127);
    assert(magnitude_value(TWO_BITS as int) == 0x80_0000 * pow2(127));
    assert(magnitude_value(THREE_BITS as int) == 0xc0_0000 * pow2(127));
}

/// The steepness of the transition lies between zero and three.
proof fn lemma_slope(t: Binary32)
    requires
        num(ZERO_BITS).at_most(t),
        t.at_most(num(ONE_BITS)),
    ensures
        ({
            let slope = num(THREE_BITS).difference(num(TWO_BITS).product(t));
            !slope.negative() && slope.magnitude() <= THREE_BITS
        }),
{
    let two = num(TWO_BITS);
    let three = num(THREE_BITS);
    let twice = two.product(t);
    let unit = unit_value();
    lemma_small_constants();
    law_sum_and_product_commute(two, t);
    lemma_share_is_at_most_the_whole(t, two);
    assert(magnitude_value(0) == 0);
    lemma_magnitude_value_increases(0, twice.magnitude());
    lemma_magnitude_value_increases(twice.magnitude(), TWO_BITS as int);
    lemma_results_are_numbers(two, t);
    if t.magnitude() == 0 {
        lemma_product_with_zero(t, two);
    }
    assert(0 <= twice.value() <= 2 * unit);
    let exact = three.value() + twice.opposite().value();
    assert(unit <= exact <= 3 * unit);
    lemma_rounding_exists(exact, 1);
    lemma_rounding_keeps_order(exact, 3 * unit, 1);
    lemma_exact_value_is_kept(3 * unit, 1, THREE_BITS as int);
}

/// A transition is never negative, and where its edges span a finite range it
/// is at most three for every number.
pub proof fn lemma_transition(edge0: Binary32, edge1: Binary32, x: Binary32)
    ensures
        !stepped(edge0, edge1, x).negative(),
        spans(edge0, edge1) && !x.nan() ==> stepped(edge0, edge1, x).magnitude() <= THREE_BITS,
{
    let span = edge1.difference(edge0);
    if !span.absolute().below(num(EPSILON_BITS)) {
        let rise = x.difference(edge0);
        let t = rise.quotient(span).unit();
        if !t.nan() {
            lemma_slope(t);
            let slope = num(THREE_BITS).difference(num(TWO_BITS).product(t));
            lemma_share_is_at_most_the_whole(t, t);
            lemma_share_is_at_most_the_whole(t.product(t), slope);
        }
        if spans(edge0, edge1) && !x.nan() {
            if x.finite() {
                lemma_results_are_numbers(x, edge0.opposite());
            }
            assert(!rise.nan());
            assert(span.magnitude() != 0);
            if rise.finite() {
                lemma_results_are_numbers(rise, span);
            }
            assert(!t.nan());
        }
    }
}

/// Whether two edges span a finite range.
pub open spec fn spans(edge0: Binary32, edge1: Binary32) -> bool {
    edge0.finite() && edge1.finite() && edge1.difference(edge0).finite()
}

/// Whether the ranges of all transitions and the strength of the cyan are
/// finite.
pub open spec fn steady(params: BrakeLimitParams) -> bool {
    &&& spans(params.speed_gate_start, params.speed_gate_full)
    &&& spans(params.brake_gate_start, params.brake_gate_full)
    &&& spans(params.slip_warn_start, params.slip_full_lock)
    &&& spans(params.wheel_lock_ratio, params.wheel_warn_ratio)
    &&& params.lock_cyan_strength.finite()
}

/// Whether a wheel channel is missing or finite.
pub open spec fn finite_channel(value: Option<Binary32>) -> bool {
    value matches Some(number) ==> number.finite()
}

/// Whether all that a sample holds is finite.
pub open spec fn finite_sample(sample: WheelSample) -> bool {
    &&& sample.speed_ms.finite()
    &&& sample.brake.finite()
    &&& finite_channel(sample.slip_fl)
    &&& finite_channel(sample.slip_fr)
    &&& finite_channel(sample.wheel_speed_fl)
    &&& finite_channel(sample.wheel_speed_fr)
}

/// Whether both powers are finite and not negative.
pub open spec fn finite_powers(powers: SeverityPowers) -> bool {
    &&& powers.fl.finite() && !powers.fl.negative()
    &&& powers.fr.finite() && !powers.fr.negative()
}

/// Whether a number lies between zero and one.
pub open spec fn is_share(x: Binary32) -> bool {
    num(ZERO_BITS).at_most(x) && x.at_most(num(ONE_BITS))
}

proof fn lemma_gate_is_not_negative(params: BrakeLimitParams, sample: WheelSample)
    ensures
        !params.gate(sample).negative(),
{
    let speed_kmh = sample.speed_ms.larger(num(ZERO_BITS)).product(num(KPH_PER_MPS_BITS));
    let speed_gate = stepped(params.speed_gate_start, params.speed_gate_full, speed_kmh);
    let brake_gate = stepped(params.brake_gate_start, params.brake_gate_full, sample.brake);
    lemma_transition(params.speed_gate_start, params.speed_gate_full, speed_kmh);
    lemma_transition(params.brake_gate_start, params.brake_gate_full, sample.brake);
    lemma_product_of_positive(speed_gate, brake_gate);
}

/// A product of numbers that are not negative is not negative, and if it is
/// not a number it has the one pattern that operations return.
proof fn lemma_product_of_positive(a: Binary32, b: Binary32)
    requires
        !a.negative(),
        !b.negative(),
    ensures
        !a.product(b).negative(),
        a.product(b).nan() ==> a.product(b) == num(NAN_BITS),
{
    if a.finite() && b.finite() {
        lemma_results_are_numbers(a, b);
    }
}

proof fn lemma_gate_is_finite(params: BrakeLimitParams, sample: WheelSample)
    requires
        steady(params),
        finite_sample(sample),
    ensures
        params.gate(sample).finite(),
{
    let speed = sample.speed_ms.larger(num(ZERO_BITS));
    let factor = num(KPH_PER_MPS_BITS);
    let speed_kmh = speed.product(factor);
    lemma_results_are_numbers(speed, factor);
    let a = stepped(params.speed_gate_start, params.speed_gate_full, speed_kmh);
    let b = stepped(params.brake_gate_start, params.brake_gate_full, sample.brake);
    lemma_transition(params.speed_gate_start, params.speed_gate_full, speed_kmh);
    lemma_transition(params.brake_gate_start, params.brake_gate_full, sample.brake);
    lemma_small_constants();
    let (x, y, unit) = (size(a.value()), size(b.value()), unit_value());
    assert(magnitude_value(0) == 0);
    lemma_magnitude_value_increases(0, a.magnitude());
    lemma_magnitude_value_increases(0, b.magnitude());
    lemma_magnitude_value_increases(a.magnitude(), THREE_BITS as int);
    lemma_magnitude_value_increases(b.magnitude(), THREE_BITS as int);
    a.lemma_parts();
    b.lemma_parts();
    let nine = whole(9);
    lemma_whole_is_exact(9);
    nine.lemma_parts();
    assert(0 <= x * y <= (9 * unit) * unit) by (nonlinear_arith)
        requires
            0 <= x <= 3 * unit,
            0 <= y <= 3 * unit,
    ;
    lemma_exact_value_is_kept((9 * unit) * unit, unit, nine.magnitude());
    lemma_rounding_keeps_order(x * y, (9 * unit) * unit, unit);
    lemma_rounding_exists(x * y, unit);
}

/// The evidence of a wheel lies between zero and one for every finite sample,
/// so it can be raised to a power.
pub proof fn law_evidence_is_a_share(
    params: BrakeLimitParams,
    slip: Option<Binary32>,
    wheel_speed: Option<Binary32>,
    speed_ms: Binary32,
)
    requires
        steady(params),
        finite_channel(slip),
        finite_channel(wheel_speed),
        speed_ms.finite(),
    ensures
        is_share(params.base(slip, wheel_speed, speed_ms)),
{
    let slip_mag = params.slip_magnitude(slip);
    let ratio = params.ratio(wheel_speed, speed_ms);
    let slip_norm = stepped(params.slip_warn_start, params.slip_full_lock, slip_mag);
    let wheel_step = stepped(params.wheel_lock_ratio, params.wheel_warn_ratio, ratio);
    if let Some(wheel) = wheel_speed {
        lemma_results_are_numbers(wheel, speed_ms.larger(num(ONE_BITS)));
    }
    lemma_transition(params.slip_warn_start, params.slip_full_lock, slip_mag);
    lemma_transition(params.wheel_lock_ratio, params.wheel_warn_ratio, ratio);
    let one = num(ONE_BITS);
    lemma_results_are_numbers(one, wheel_step.opposite());
    let wheel_norm = one.difference(wheel_step);
    let a = num(SLIP_SHARE_BITS);
    let b = num(WHEEL_SHARE_BITS);
    lemma_share_is_at_most_the_whole(a, slip_norm);
    let first = a.product(slip_norm);
    if wheel_norm.finite() {
        lemma_share_is_at_most_the_whole(b, wheel_norm);
    }
    let second = b.product(wheel_norm);
    if second.finite() {
        lemma_results_are_numbers(first, second);
    }
}

proof fn lemma_severity(params: BrakeLimitParams, sample: WheelSample, power: Binary32)
    requires
        !power.negative(),
    ensures
        ({
            let severity = power.product(params.gate(sample)).unit();
            &&& !severity.negative()
            &&& severity.nan() ==> severity == num(NAN_BITS)
            &&& !severity.nan() ==> severity.magnitude() <= ONE_BITS
            &&& steady(params) && finite_sample(sample) && power.finite() ==> !severity.nan()
        }),
{
    lemma_gate_is_not_negative(params, sample);
    lemma_product_of_positive(power, params.gate(sample));
    if steady(params) && finite_sample(sample) && power.finite() {
        lemma_gate_is_finite(params, sample);
        lemma_results_are_numbers(power, params.gate(sample));
    }
}

/// For finite samples the severities and the peak of the episode stay between
/// zero and one: whatever the detector has seen, they are numbers.
pub proof fn law_severities_stay_numbers(params: BrakeLimitParams, steps: Seq<Step>)
    requires
        steady(params),
        forall|i: int|
            0 <= i < steps.len() ==> finite_sample((#[trigger] steps[i]).sample) && finite_powers(steps[i].powers),
    ensures
        ({
            let detector = reached(params, steps);
            &&& detector.params == params
            &&& is_share(detector.episode_peak)
            &&& is_share(detector.output.severity_fl)
            &&& is_share(detector.output.severity_fr)
            &&& is_share(detector.output.global_severity)
        }),
    decreases steps.len(),
{
    if steps.len() > 0 {
        let before = steps.drop_last();
        assert forall|i: int| 0 <= i < before.len() implies finite_sample((#[trigger] before[i]).sample)
            && finite_powers(before[i].powers) by {
            assert(before[i] == steps[i]);
        }
        law_severities_stay_numbers(params, before);
        let last = steps[steps.len() - 1];
        assert(finite_sample(last.sample) && finite_powers(last.powers));
        lemma_severity(params, last.sample, last.powers.fl);
        lemma_severity(params, last.sample, last.powers.fr);
        reveal(BrakeLimitDetector::updated);
    }
}

/// Whatever the detector has seen, no cyan is shown outside a lock and its
/// aftermath: its amount is exactly zero on both sides.
pub proof fn law_cyan_is_zero_without_lock(params: BrakeLimitParams, steps: Seq<Step>)
    requires
        steady(params),
        forall|i: int|
            0 <= i < steps.len() ==> finite_sample((#[trigger] steps[i]).sample) && finite_powers(steps[i].powers),
        !in_lock(reached(params, steps)),
        reached(params, steps).state != LockState::Recovery,
    ensures
        reached(params, steps).output.lock_fl.magnitude() == 0,
        reached(params, steps).output.lock_fr.magnitude() == 0,
{
    if steps.len() > 0 {
        let before = steps.drop_last();
        let last = steps.last();
        assert forall|i: int| 0 <= i < before.len() implies finite_sample((#[trigger] before[i]).sample)
            && finite_powers(before[i].powers) by {
            assert(before[i] == steps[i]);
        }
        law_severities_stay_numbers(params, before);
        law_severities_stay_numbers(params, steps);
        law_no_cyan_without_lock(reached(params, before), last.dt, last.sample, last.powers);
    }
}

/// The report never contradicts itself, whatever the detector has seen: it
/// shows the state, a confirmed lock is one of the two lock states, pulse and
/// burn belong to their state, cyan to a lock or its aftermath, the warning
/// stays weak, and without a confirmed lock there is no duration.
pub proof fn law_report_is_consistent(params: BrakeLimitParams, steps: Seq<Step>)
    ensures
        ({
            let detector = reached(params, steps);
            let report = detector.output;
            let zero = num(ZERO_BITS);
            &&& report.state == detector.state
            &&& report.lock_confirmed == detector.lock_active
            &&& report.lock_confirmed == in_lock(detector)
            &&& zero.below(report.pulse) ==> report.state == LockState::TransientLock
            &&& zero.below(report.burn) ==> report.state == LockState::SustainedLock
            &&& zero.below(report.lock_fl) || zero.below(report.lock_fr) ==> in_lock(detector) || report.state
                == LockState::Recovery
            &&& report.approach_mix.at_most(num(APPROACH_CAP_BITS))
            &&& !report.lock_confirmed ==> report.lock_duration_ms == zero
        }),
{
    if steps.len() > 0 {
        let before = reached(params, steps.drop_last());
        let last = steps.last();
        let next = reached(params, steps);
        law_confirmed_lock_is_a_lock_state(before, last.dt, last.sample, last.powers);
        law_levels_are_bounded(before, last.dt, last.sample, last.powers);
        reveal(BrakeLimitDetector::updated);
        if !in_lock(next) && next.state != LockState::Recovery {
            let fl = before.left(last.sample, last.powers);
            let fr = before.right(last.sample, last.powers);
            let global = fl.severity.larger(fr.severity);
            lemma_no_amount(next);
            lemma_nothing_of_nothing(next.lock_amount(), side_fraction(fl.severity, global));
            lemma_nothing_of_nothing(next.lock_amount(), side_fraction(fr.severity, global));
        }
    }
}

/// Without a lock and its aftermath there is no cyan to share out.
proof fn lemma_no_amount(detector: BrakeLimitDetector)
    requires
        !in_lock(detector),
        detector.state != LockState::Recovery,
    ensures
        detector.lock_amount().nan() || detector.lock_amount().magnitude() == 0,
{
    let zero = num(ZERO_BITS);
    assert(zero.unit() == zero);
    lemma_nothing_of_nothing(zero, detector.episode_peak);
    let glow = zero.product(detector.episode_peak);
    lemma_nothing_of_nothing(glow, num(RECOVERY_SHARE_BITS));
    let strongest = zero.larger(zero).larger(glow.product(num(RECOVERY_SHARE_BITS)));
    lemma_nothing_of_nothing(strongest, detector.params.lock_cyan_strength);
}

/// A product with zero, or with what is no number, is not above zero.
proof fn lemma_nothing_of_nothing(a: Binary32, b: Binary32)
    requires
        a.nan() || a.magnitude() == 0,
    ensures
        a.product(b).nan() || a.product(b).magnitude() == 0,
{
    if !a.nan() && b.finite() {
        lemma_product_with_zero(a, b);
    }
}

/// A sample with the data of the two wheels exchanged.
pub open spec fn exchanged_sample(sample: WheelSample) -> WheelSample {
    WheelSample {
        slip_fl: sample.slip_fr,
        slip_fr: sample.slip_fl,
        wheel_speed_fl: sample.wheel_speed_fr,
        wheel_speed_fr: sample.wheel_speed_fl,
        ..sample
    }
}

/// A step with the data of the two wheels exchanged.
pub open spec fn exchanged(step: Step) -> Step {
    Step {
        dt: step.dt,
        sample: exchanged_sample(step.sample),
        powers: SeverityPowers { fl: step.powers.fr, fr: step.powers.fl },
    }
}

/// Whether two numbers are opposite to each other; zero is opposite to zero.
pub open spec fn opposite_numbers(a: Binary32, b: Binary32) -> bool {
    a.nan() == b.nan() && (!a.nan() ==> a.rank() == -b.rank())
}

/// Whether two reports differ only in that left and right are exchanged.
pub open spec fn mirrored_reports(a: BrakeLimitFeedback, b: BrakeLimitFeedback) -> bool {
    &&& opposite_numbers(a.balance, b.balance)
    &&& b == (BrakeLimitFeedback {
        severity_fl: a.severity_fr,
        severity_fr: a.severity_fl,
        lock_fl: a.lock_fr,
        lock_fr: a.lock_fl,
        balance: b.balance,
        ..a
    })
}

/// Whether two detectors differ only in that left and right are exchanged.
pub open spec fn mirrored(a: BrakeLimitDetector, b: BrakeLimitDetector) -> bool {
    &&& mirrored_reports(a.output, b.output)
    &&& b == (BrakeLimitDetector { locked_fl: a.locked_fr, locked_fr: a.locked_fl, output: b.output, ..a })
}

/// The difference of two numbers changes its sign with their order.
proof fn lemma_difference_is_opposite(a: Binary32, b: Binary32)
    requires
        a.finite() || a.nan(),
        b.finite() || b.nan(),
    ensures
        opposite_numbers(a.difference(b), b.difference(a)),
{
    if a.finite() && b.finite() {
        let exact = a.value() + b.opposite().value();
        lemma_rounding_exists(size(exact), 1);
        assert(b.value() + a.opposite().value() == -exact);
    }
}

proof fn lemma_mirrored_step(a: BrakeLimitDetector, b: BrakeLimitDetector, step: Step)
    requires
        mirrored(a, b),
        !step.powers.fl.negative(),
        !step.powers.fr.negative(),
    ensures
        mirrored(
            a.updated(step.dt, step.sample, step.powers),
            b.updated(exchanged(step).dt, exchanged(step).sample, exchanged(step).powers),
        ),
{
    reveal(BrakeLimitDetector::updated);
    let other = exchanged(step);
    let fl = a.left(step.sample, step.powers);
    let fr = a.right(step.sample, step.powers);
    assert(b.left(other.sample, other.powers) == fr);
    assert(b.right(other.sample, other.powers) == fl);
    lemma_severity(a.params, step.sample, step.powers.fl);
    lemma_severity(a.params, step.sample, step.powers.fr);
    assert(fl.severity.larger(fr.severity) == fr.severity.larger(fl.severity));
    assert(fl.severity.smaller(fr.severity) == fr.severity.smaller(fl.severity));
    lemma_difference_is_opposite(fl.severity, fr.severity);
    let global = fl.severity.larger(fr.severity);
    let (ja, jb) = (a.judged(step.dt, fl, fr), b.judged(step.dt, fr, fl));
    assert(jb == (BrakeLimitDetector { locked_fl: ja.locked_fr, locked_fr: ja.locked_fl, output: jb.output, ..ja }));
    let (da, db) = (ja.debounced(global), jb.debounced(global));
    assert(db == (BrakeLimitDetector { locked_fl: da.locked_fr, locked_fr: da.locked_fl, output: db.output, ..da }));
    let (ca, cb) = (da.classified(), db.classified());
    assert(cb == (BrakeLimitDetector { locked_fl: ca.locked_fr, locked_fr: ca.locked_fl, output: cb.output, ..ca }));
    assert(ca.lock_amount() == cb.lock_amount());
}

/// With the data of the two wheels exchanged the detector sees the same: the
/// two sides of the report are exchanged, the balance changes its sign, and
/// everything else stays. Powers are never negative.
pub proof fn law_exchanged_wheels_mirror_the_report(params: BrakeLimitParams, steps: Seq<Step>)
    requires
        forall|i: int|
            0 <= i < steps.len() ==> !(#[trigger] steps[i]).powers.fl.negative() && !steps[i].powers.fr.negative(),
    ensures
        mirrored(reached(params, steps), reached(params, steps.map_values(|step: Step| exchanged(step)))),
    decreases steps.len(),
{
    let others = steps.map_values(|step: Step| exchanged(step));
    if steps.len() > 0 {
        let before = steps.drop_last();
        assert(others.drop_last() =~= before.map_values(|step: Step| exchanged(step)));
        assert forall|i: int| 0 <= i < before.len() implies !(#[trigger] before[i]).powers.fl.negative()
            && !before[i].powers.fr.negative() by {
            assert(before[i] == steps[i]);
        }
        law_exchanged_wheels_mirror_the_report(params, before);
        assert(others.last() == exchanged(steps.last()));
        assert(!steps[steps.len() - 1].powers.fl.negative());
        lemma_mirrored_step(reached(params, before), reached(params, others.drop_last()), steps.last());
    }
}

proof fn lemma_prefix_gives_the_same_detector(
    params: BrakeLimitParams,
    points: Seq<TelemetryPoint>,
    powers: Seq<SeverityPowers>,
    n: nat,
    count: nat,
)
    requires
        count <= n <= points.len(),
        powers.len() == points.len(),
    ensures
        detector_after(params, points.take(n as int), powers.take(n as int), count) == detector_after(
            params,
            points,
            powers,
            count,
        ),
    decreases count,
{
    if count > 0 {
        lemma_prefix_gives_the_same_detector(params, points, powers, n, (count - 1) as nat);
    }
}

/// Later samples never change what the history says of earlier ones.
pub proof fn law_later_samples_do_not_change_the_history(
    params: BrakeLimitParams,
    points: Seq<TelemetryPoint>,
    powers: Seq<SeverityPowers>,
    n: nat,
)
    requires
        n <= points.len(),
        powers.len() == points.len(),
    ensures
        lock_history(params, points.take(n as int), powers.take(n as int)) == lock_history(params, points, powers).take(
            n as int,
        ),
{
    let short = lock_history(params, points.take(n as int), powers.take(n as int));
    let long = lock_history(params, points, powers).take(n as int);
    assert forall|i: int| 0 <= i < n implies #[trigger] short[i] == long[i] by {
        lemma_prefix_gives_the_same_detector(params, points, powers, n, (i + 1) as nat);
    }
    assert(short =~= long);
}

/// Each value of the history is zero or lies between one half and one. It is
/// above zero exactly where a fresh detector that has seen the points up to it
/// has confirmed a lock.
pub proof fn law_history_marks_confirmed_locks(
    params: BrakeLimitParams,
    points: Seq<TelemetryPoint>,
    powers: Seq<SeverityPowers>,
    i: int,
)
    requires
        0 <= i < points.len(),
        powers.len() == points.len(),
    ensures
        ({
            let value = lock_history(params, points, powers)[i];
            let seen = detector_after(params, points.take(i + 1), powers.take(i + 1), (i + 1) as nat);
            &&& value == num(ZERO_BITS) || (num(HISTORY_FLOOR_BITS).at_most(value) && value.at_most(num(ONE_BITS)))
            &&& num(ZERO_BITS).below(value) <==> seen.lock_active
        }),
{
    lemma_prefix_gives_the_same_detector(params, points, powers, (i + 1) as nat, (i + 1) as nat);
    reveal(BrakeLimitDetector::updated);
}

} // verus!
