//! What the instruments of the F1 display show of the latest point.
use crate::arithmetic::{
    lemma_exact_value_is_kept, lemma_one_is_unit, lemma_results_are_numbers, lemma_rounding_exists,
    lemma_rounding_keeps_order, lemma_whole_is_exact, nearest, size, whole,
};
use crate::binary32::{
    lemma_magnitude_value_increases, magnitude_value, num, unit_value, Binary32, INFINITY_BITS, MINUS_ONE_BITS,
    ONE_BITS, ZERO_BITS,
};
use crate::exactness::{lemma_common_scale, lemma_integer_constant, lemma_multiple, lemma_plain, plain};
use crate::model::TelemetryPoint;
use crate::numeral::rounded_size;
use crate::renderer::hud::{degrees, percent, speed_in, values_of, KPH_PER_MPS_BITS, MPH_PER_MPS_BITS, PERCENT_BITS};
use crate::renderer::instruments::lit_segments;
use crate::text::decimal;
use vstd::arithmetic::div_mod::{lemma_fundamental_div_mod, lemma_fundamental_div_mod_converse};
use vstd::arithmetic::power2::{lemma2_to64, lemma_pow2_adds, lemma_pow2_pos, pow2};
use vstd::prelude::*;

verus! {

/// The levels that the instruments show are those of the latest point, each of
/// its own channel, and there is none for a channel without support.
pub proof fn law_levels_are_those_of_the_latest_point(point: TelemetryPoint, speed_mph: bool, half_lock: Binary32)
    ensures
        ({
            let vehicle = point.telemetry;
            let supported = vehicle.capabilities;
            let values = values_of(Some(point), speed_mph, half_lock);
            let steer = vehicle.steering_input;
            &&& supported.brake ==> values.brake_level == Some(vehicle.brake)
            &&& supported.throttle ==> values.throttle_level == Some(vehicle.throttle)
            &&& supported.steering_input && num(MINUS_ONE_BITS).at_most(steer) && steer.at_most(num(ONE_BITS))
                ==> values.steering_level == Some(steer)
            &&& supported.steering_input && num(ONE_BITS).below(steer) ==> values.steering_level == Some(num(ONE_BITS))
            &&& supported.steering_input && steer.below(num(MINUS_ONE_BITS)) ==> values.steering_level == Some(
                num(MINUS_ONE_BITS),
            )
            &&& !supported.brake ==> values.brake_level is None
            &&& !supported.throttle ==> values.throttle_level is None
            &&& !supported.steering_input ==> values.steering_level is None
            &&& values.abs_active == (supported.abs_activity && vehicle.abs_active)
            &&& values.tc_active == (supported.tc_activity && vehicle.tc_active)
            &&& values.rev_lights == vehicle.rev_lights
        }),
{
}

/// A channel without support, or without any point, shows a dash.
pub proof fn law_unsupported_values_show_a_dash(latest: Option<TelemetryPoint>, speed_mph: bool, half_lock: Binary32)
    ensures
        ({
            let values = values_of(latest, speed_mph, half_lock);
            let dash = "\u{2014}"@;
            &&& latest is None || !latest->0.telemetry.capabilities.brake ==> values.brake == dash
            &&& latest is None || !latest->0.telemetry.capabilities.throttle ==> values.throttle == dash
            &&& latest is None || !latest->0.telemetry.capabilities.steering_input ==> values.steering == dash
            &&& latest is None || !latest->0.telemetry.capabilities.rpm ==> values.rpm == dash
            &&& latest is None || !latest->0.telemetry.capabilities.gear ==> values.gear == dash
            &&& latest is None || !latest->0.telemetry.capabilities.speed ==> values.speed == dash
            &&& latest is None ==> values.brake_level is None && values.throttle_level is None && values.steering_level
                is None && values.rev_lights is None && !values.abs_active && !values.tc_active
            &&& speed_mph ==> values.speed_unit == "MPH"@
            &&& !speed_mph ==> values.speed_unit == "KM/H"@
        }),
{
}

/// Whether a magnitude lies within half a unit of an integer.
pub open spec fn rounds_to_integer(m: int, k: int) -> bool {
    &&& 0 <= m < INFINITY_BITS
    &&& 0 <= k
    &&& 2 * size(magnitude_value(m) - k * unit_value()) < unit_value()
}

proof fn lemma_rounded_size(x: Binary32, k: int)
    requires
        rounds_to_integer(x.magnitude(), k),
    ensures
        rounded_size(x) == k,
{
    let u = unit_value();
    let v = size(x.value());
    x.lemma_parts();
    lemma_pow2_pos(149);
    assert(k * u == u * k) by (nonlinear_arith);
    if v >= k * u {
        lemma_fundamental_div_mod_converse(v, u, k, v - k * u);
    } else {
        assert((k - 1) * u == k * u - u) by (nonlinear_arith);
        lemma_fundamental_div_mod_converse(v, u, k - 1, v - (k - 1) * u);
    }
}

/// The pedals are shown in percent: a hundred times the level, rounded to an
/// integer.
pub proof fn law_pedals_are_shown_in_percent(point: TelemetryPoint, speed_mph: bool, half_lock: Binary32, k: int)
    ensures
        ({
            let vehicle = point.telemetry;
            let values = values_of(Some(point), speed_mph, half_lock);
            &&& vehicle.capabilities.brake && plain(vehicle.brake) && rounds_to_integer(
                nearest(vehicle.brake.value() * 100, 1),
                k,
            ) ==> values.brake == decimal(k as nat) + "%"@
            &&& vehicle.capabilities.throttle && plain(vehicle.throttle) && rounds_to_integer(
                nearest(vehicle.throttle.value() * 100, 1),
                k,
            ) ==> values.throttle == decimal(k as nat) + "%"@
        }),
{
    let vehicle = point.telemetry;
    if plain(vehicle.brake) && rounds_to_integer(nearest(vehicle.brake.value() * 100, 1), k) {
        lemma_percent(vehicle.brake, k);
    }
    if plain(vehicle.throttle) && rounds_to_integer(nearest(vehicle.throttle.value() * 100, 1), k) {
        lemma_percent(vehicle.throttle, k);
    }
}

proof fn lemma_percent(share: Binary32, k: int)
    requires
        plain(share),
        rounds_to_integer(nearest(share.value() * 100, 1), k),
    ensures
        percent(share) == decimal(k as nat) + "%"@,
{
    let hundred = num(PERCENT_BITS);
    lemma2_to64();
    lemma_integer_constant(hundred, 100, 17);
    lemma_multiple(share, hundred, 100);
    lemma_plain(share);
    lemma_rounded_size(share.product(hundred), k);
}

/// Engine speed and gear are shown as they are: revolutions rounded to an
/// integer, forward gears by number, neutral as N and reverse as R.
pub proof fn law_engine_speed_and_gear_are_shown(point: TelemetryPoint, speed_mph: bool, half_lock: Binary32, k: int)
    ensures
        ({
            let vehicle = point.telemetry;
            let values = values_of(Some(point), speed_mph, half_lock);
            &&& vehicle.capabilities.rpm && plain(vehicle.rpm) && rounds_to_integer(vehicle.rpm.magnitude(), k)
                ==> values.rpm == decimal(k as nat)
            &&& vehicle.capabilities.gear ==> {
                &&& vehicle.gear == -1 ==> values.gear == "R"@
                &&& vehicle.gear == 0 ==> values.gear == "N"@
                &&& vehicle.gear > 0 ==> values.gear == decimal(vehicle.gear as nat)
            }
        }),
{
    if rounds_to_integer(point.telemetry.rpm.magnitude(), k) {
        lemma_rounded_size(point.telemetry.rpm, k);
    }
}

/// The speed is shown in kilometers or miles per hour, rounded to an integer:
/// 3.6 or 2.237 times the meters per second, the factors in parts of two to the
/// power 22.
pub proof fn law_speed_is_shown_in_its_unit(point: TelemetryPoint, speed_mph: bool, half_lock: Binary32, k: int)
    ensures
        ({
            let vehicle = point.telemetry;
            let values = values_of(Some(point), speed_mph, half_lock);
            let factor: int = if speed_mph { 9_382_658 } else { 15_099_494 };
            vehicle.capabilities.speed && plain(vehicle.speed) && rounds_to_integer(
                nearest(vehicle.speed.value() * factor, 0x40_0000),
                k,
            ) ==> values.speed == decimal(k as nat)
        }),
{
    let speed = point.telemetry.speed;
    let factor: int = if speed_mph {
        9_382_658
    } else {
        15_099_494
    };
    if plain(speed) && rounds_to_integer(nearest(speed.value() * factor, 0x40_0000), k) {
        let c = if speed_mph {
            num(MPH_PER_MPS_BITS)
        } else {
            num(KPH_PER_MPS_BITS)
        };
        lemma2_to64();
        lemma_pow2_adds(22, 127);
        lemma_pow2_pos(127);
        let small = pow2(127) as int;
        lemma_plain(c);
        lemma_plain(speed);
        c.lemma_parts();
        assert(c.value() == factor * small);
        let v = speed.value();
        assert(v * (factor * small) == (v * factor) * small && 0 <= v * factor) by (nonlinear_arith)
            requires
                v >= 0,
                factor > 0,
        ;
        lemma_common_scale(v * factor, 0x40_0000, small);
        lemma_results_are_numbers(speed, c);
        lemma_rounded_size(speed_in(speed, speed_mph), k);
    }
}

/// The steering angle is shown in whole degrees with its sign: that of the
/// wheel where it is known, and otherwise the steering input times the half
/// lock. Angles below half a degree are shown as zero without a sign.
pub proof fn law_steering_is_shown_in_degrees(
    point: TelemetryPoint,
    speed_mph: bool,
    half_lock: Binary32,
    angle: Binary32,
    k: int,
)
    requires
        point.telemetry.capabilities.steering_input,
        point.telemetry.wheel_angle_degrees == Some(angle),
        angle.finite(),
        rounds_to_integer(angle.magnitude(), k),
    ensures
        ({
            let text = values_of(Some(point), speed_mph, half_lock).steering;
            let small = 2 * size(angle.value()) < unit_value();
            &&& small ==> text == "0\u{b0}"@
            &&& !small && angle.negative() ==> text == "-"@ + decimal(k as nat) + "\u{b0}"@
            &&& !small && !angle.negative() ==> text == "+"@ + decimal(k as nat) + "\u{b0}"@
        }),
{
    lemma_rounded_size(angle, k);
    lemma_half_degree(angle);
}

proof fn lemma_half_degree(angle: Binary32)
    requires
        angle.finite(),
    ensures
        angle.absolute().below(num(0x3f00_0000)) <==> 2 * size(angle.value()) < unit_value(),
{
    let half = num(0x3f00_0000);
    lemma2_to64();
    lemma_pow2_adds(23, 125);
    lemma_pow2_adds(148, 1);
    assert(2 * half.value() == unit_value());
    angle.lemma_parts();
    assert(angle.absolute().value() == size(angle.value()));
    angle.absolute().lemma_rank_orders_values(half);
}

/// Without a wheel angle the display uses the steering input: the angle shown
/// is the input, confined to the range from minus one to one, times the half
/// lock, to the same side.
pub proof fn law_steering_input_turns_the_half_lock(point: TelemetryPoint, half_lock: Binary32, k: int)
    requires
        point.telemetry.wheel_angle_degrees is None,
        point.telemetry.steering_input.finite(),
        plain(half_lock),
        0 <= k,
        half_lock.value() == k * unit_value(),
    ensures
        ({
            let angle = crate::renderer::hud::steering_degrees(point.telemetry, half_lock);
            let steer = point.telemetry.steering_input;
            let one = unit_value();
            let input = if steer.value() < -one { -one } else if steer.value() > one { one } else { steer.value() };
            &&& angle.magnitude() == nearest(size(input) * k, 1)
            &&& input < 0 ==> angle.negative()
            &&& input > 0 ==> !angle.negative()
        }),
{
    let steer = point.telemetry.steering_input;
    let (one, minus_one) = (num(ONE_BITS), num(MINUS_ONE_BITS));
    lemma_one_is_unit();
    lemma_multiple(steer.signed_unit(), half_lock, k);
    steer.lemma_rank_orders_values(one);
    one.lemma_rank_orders_values(steer);
    steer.lemma_rank_orders_values(minus_one);
    minus_one.lemma_rank_orders_values(steer);
    lemma_pow2_pos(149);
    assert(magnitude_value(0) == 0);
    lemma_magnitude_value_increases(0, steer.magnitude());
}

/// A meter lights its segments from the bottom in proportion to the level: the
/// segment with a number, counted from zero, is lit exactly if that number is
/// below the level times the number of segments, rounded. Nothing is lit at
/// zero and everything at one.
pub proof fn law_meter_lights_in_proportion(level: Binary32, segments: nat, i: int)
    requires
        level.finite(),
        0 < segments < 0x1000,
        0 <= i < segments,
    ensures
        ({
            let zero = num(ZERO_BITS);
            let lit = i < lit_segments(level, segments);
            let product = magnitude_value(nearest(level.value() * segments, 1));
            &&& level.at_most(zero) ==> !lit
            &&& num(ONE_BITS).at_most(level) ==> lit
            &&& zero.below(level) && level.below(num(ONE_BITS)) ==> (lit <==> i * unit_value() < product)
        }),
{
    let u = unit_value();
    let t = level.unit();
    lemma_pow2_pos(149);
    lemma_one_is_unit();
    lemma_whole_is_exact(segments);
    lemma_plain(whole(segments));
    lemma_multiple(t, whole(segments), segments as int);
    let product = t.product(whole(segments));
    assert(magnitude_value(0) == 0);
    lemma_magnitude_value_increases(0, level.magnitude());
    t.lemma_parts();
    let n = size(t.value()) * segments;
    lemma_magnitude_value_increases(t.magnitude(), ONE_BITS as int);
    assert(0 <= n <= segments * u) by (nonlinear_arith)
        requires
            n == size(t.value()) * segments,
            0 <= size(t.value()) <= u,
    ;
    lemma_rounding_exists(n, 1);
    lemma_exact_value_is_kept(segments * u, 1, whole(segments).magnitude());
    lemma_rounding_keeps_order(n, segments * u, 1);
    let v = magnitude_value(nearest(n, 1));
    lemma_magnitude_value_increases(nearest(n, 1), whole(segments).magnitude());
    lemma_magnitude_value_increases(0, nearest(n, 1));
    lemma_exact_value_is_kept(0, 1, 0);
    assert(0 <= v <= segments * u);
    assert(0x1000 * u >= segments * u) by (nonlinear_arith)
        requires
            segments < 0x1000,
            u > 0,
    ;
    if !t.negative() {
        assert(product.value() == v);
        lemma_fundamental_div_mod(v, u);
        vstd::arithmetic::div_mod::lemma_div_pos_is_pos(v, u);
        let q = v / u;
        assert(q <= segments && (i * u < v <==> i < product.ceiling())) by {
            assert(q <= segments) by (nonlinear_arith)
                requires
                    v == u * q + v % u,
                    0 <= v % u,
                    v <= segments * u,
                    u > 0,
            ;
            assert(v % u == 0 ==> (i * u < v <==> i < q)) by (nonlinear_arith)
                requires
                    v == u * q + v % u,
                    u > 0,
            ;
            assert(v % u > 0 ==> (i * u < v <==> i < q + 1)) by (nonlinear_arith)
                requires
                    v == u * q + v % u,
                    0 <= v % u < u,
                    u > 0,
            ;
        }
        if t == num(ONE_BITS) {
            assert(n == segments * u) by (nonlinear_arith)
                requires
                    n == size(t.value()) * segments,
                    size(t.value()) == u,
            ;
            assert(i * u < segments * u) by (nonlinear_arith)
                requires
                    i < segments,
                    u > 0,
            ;
        }
        if t.magnitude() == 0 {
            assert(n == 0) by (nonlinear_arith)
                requires
                    n == size(t.value()) * segments,
                    size(t.value()) == 0,
            ;
            assert(0 <= i * u) by (nonlinear_arith)
                requires
                    0 <= i,
                    u > 0,
            ;
        }
    } else {
        assert(product.negative());
    }
}

} // verus!
