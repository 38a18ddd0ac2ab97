//! What a telemetry frame reports of the packets it is made of.
use crate::arithmetic::{
    lemma_exact_value_is_kept, lemma_one_is_unit, lemma_product_with_zero, lemma_results_are_numbers,
    lemma_rounding_exists, lemma_rounding_keeps_order, lemma_whole_is_exact, nearest, size, whole,
};
use crate::binary32::{
    lemma_magnitude_value_increases, magnitude_value, unit_value, Binary32, FRACTION_SPAN, INFINITY_BITS,
    MINUS_ONE_BITS, ONE_BITS, ZERO_BITS,
};
use crate::direction::{lemma_ratio_between, lemma_relative_error};
use crate::exactness::{lemma_common_scale, lemma_integer_constant, lemma_multiple, lemma_plain, lemma_ratio, plain};
use crate::f1::protocol::{Header, RejectReason};
use crate::f1::state::{
    assist_check, fresh_state, DecoderState, MotionFields, VehicleFields, HALF_TURN_BITS, HUNDRED_BITS,
    KPH_PER_MPS_BITS, THOUSAND_BITS,
};
use vstd::arithmetic::div_mod::{lemma_div_basics, lemma_div_pos_is_pos, lemma_small_mod};
use vstd::arithmetic::power2::{lemma2_to64, lemma_pow2_adds, lemma_pow2_pos, lemma_pow2_strictly_increases, pow2};
use vstd::prelude::*;

verus! {

/// Pedals and steering are reported as the packet holds them: unchanged within
/// their range, and as the nearer end beyond it. Each depends on its own
/// channel alone.
pub proof fn law_inputs_are_reported_unchanged(
    state: DecoderState,
    format: u16,
    header: Header,
    fields: VehicleFields,
    motion: Option<MotionFields>,
)
    requires
        fields.finite(),
    ensures
        ({
            let vehicle = state.frame(format, header, fields, motion).vehicle;
            let zero = Binary32 { bits: ZERO_BITS };
            let one = Binary32 { bits: ONE_BITS };
            let minus_one = Binary32 { bits: MINUS_ONE_BITS };
            &&& zero.at_most(fields.throttle) && fields.throttle.at_most(one) ==> vehicle.throttle == fields.throttle
            &&& fields.throttle.below(zero) ==> vehicle.throttle == zero
            &&& one.below(fields.throttle) ==> vehicle.throttle == one
            &&& zero.at_most(fields.brake) && fields.brake.at_most(one) ==> vehicle.brake == fields.brake
            &&& fields.brake.below(zero) ==> vehicle.brake == zero
            &&& one.below(fields.brake) ==> vehicle.brake == one
            &&& minus_one.at_most(fields.steer) && fields.steer.at_most(one) ==> vehicle.steering_input == fields.steer
            &&& fields.steer.below(minus_one) ==> vehicle.steering_input == minus_one
            &&& one.below(fields.steer) ==> vehicle.steering_input == one
        }),
{
}

/// The steering angle is the steering input times 180 degrees, rounded, to the
/// same side.
pub proof fn law_steering_angle_follows_the_input(
    state: DecoderState,
    format: u16,
    header: Header,
    fields: VehicleFields,
    motion: Option<MotionFields>,
)
    requires
        fields.finite(),
    ensures
        ({
            let vehicle = state.frame(format, header, fields, motion).vehicle;
            &&& vehicle.steering_angle.negative() == vehicle.steering_input.negative()
            &&& vehicle.steering_angle.magnitude() == nearest(size(vehicle.steering_input.value()) * 180, 1)
        }),
{
    let half_turn = Binary32 { bits: HALF_TURN_BITS };
    lemma2_to64();
    lemma_integer_constant(half_turn, 180, 16);
    lemma_multiple(fields.steer.signed_unit(), half_turn, 180);
}

/// Clutch, gear, engine speed and shift lights are those of the packet: the
/// clutch a hundredth of its percentage, at most one, and the engine speed an
/// exact number.
pub proof fn law_drivetrain_is_reported(
    state: DecoderState,
    format: u16,
    header: Header,
    fields: VehicleFields,
    motion: Option<MotionFields>,
)
    ensures
        ({
            let vehicle = state.frame(format, header, fields, motion).vehicle;
            &&& fields.clutch <= 100 ==> vehicle.clutch.magnitude() == nearest(fields.clutch * unit_value(), 100)
                && !vehicle.clutch.negative()
            &&& fields.clutch >= 100 ==> vehicle.clutch == (Binary32 { bits: ONE_BITS })
            &&& vehicle.gear == fields.gear
            &&& vehicle.rpm.finite() && vehicle.rpm.value() == fields.rpm * unit_value()
            &&& vehicle.rev_lights == fields.rev_lights
            &&& vehicle.capabilities.throttle && vehicle.capabilities.brake && vehicle.capabilities.clutch
            &&& vehicle.capabilities.steering_input && vehicle.capabilities.speed
            &&& vehicle.capabilities.gear && vehicle.capabilities.rpm
        }),
{
    let hundred = Binary32 { bits: HUNDRED_BITS };
    let pressed = whole(fields.clutch as nat);
    let unit = unit_value();
    let one = Binary32 { bits: ONE_BITS };
    lemma2_to64();
    lemma_pow2_pos(149);
    lemma_integer_constant(hundred, 100, 17);
    lemma_integer_constant(one, 1, 23);
    lemma_whole_is_exact(fields.clutch as nat);
    lemma_whole_is_exact(fields.rpm as nat);
    lemma_ratio(pressed, hundred, fields.clutch as int, 100);
    lemma_plain(one);
    let share = pressed.quotient(hundred);
    let n = fields.clutch * unit;
    assert(0 <= n && (fields.clutch <= 100 ==> n <= unit * 100) && (fields.clutch >= 100 ==> unit * 100 <= n))
        by (nonlinear_arith)
        requires
            n == fields.clutch * unit,
            unit > 0,
    ;
    lemma_exact_value_is_kept(unit * 100, 100, ONE_BITS as int);
    if fields.clutch <= 100 {
        lemma_rounding_keeps_order(n, unit * 100, 100);
    }
    if fields.clutch >= 100 {
        lemma_rounding_keeps_order(unit * 100, n, 100);
        assert(one.at_most(share));
    }
}

/// The speed in meters per second, times 3.6, is that of the packet, up to one
/// part in two to the power 22.
pub proof fn law_speed_is_reported(
    state: DecoderState,
    format: u16,
    header: Header,
    fields: VehicleFields,
    motion: Option<MotionFields>,
)
    ensures
        ({
            let speed = state.frame(format, header, fields, motion).vehicle.speed;
            let exact = 10 * (fields.speed_kph * unit_value());
            plain(speed) && 0x40_0000 * size(36 * speed.value() - exact) <= exact
        }),
{
    lemma_speed_in_meters(fields.speed_kph);
}

/// The ratio 3.6 as it is stored, in parts of two to the power 22.
spec fn stored_ratio() -> int {
    0xe6_6666
}

proof fn lemma_speed_in_meters(kph: u16)
    ensures
        ({
            let speed = whole(kph as nat).quotient((Binary32 { bits: KPH_PER_MPS_BITS }));
            let exact = 10 * (kph * unit_value());
            plain(speed) && 0x40_0000 * size(36 * speed.value() - exact) <= exact
        }),
{
    let ratio = Binary32 { bits: KPH_PER_MPS_BITS };
    let a = whole(kph as nat);
    let unit = unit_value();
    lemma_whole_is_exact(kph as nat);
    lemma_plain(a);
    lemma_plain(ratio);
    ratio.lemma_parts();
    lemma2_to64();
    lemma_pow2_adds(22, 127);
    lemma_pow2_pos(127);
    let small = pow2(127) as int;
    assert(ratio.value() == stored_ratio() * small);
    assert(unit == 0x40_0000 * small);
    let speed = a.quotient(ratio);
    let (n, d) = (a.value() * unit, ratio.value());
    // The quotient is kph * unit * unit / ratio; without the common factor it is
    // kph * unit * 2^22 over the stored ratio.
    let top = kph * unit * 0x40_0000;
    assert(n == top * small && d == stored_ratio() * small && 0 <= top) by (nonlinear_arith)
        requires
            n == (kph * unit) * unit,
            unit == 0x40_0000 * small,
            d == stored_ratio() * small,
            top == kph * unit * 0x40_0000,
            kph >= 0,
            small > 0,
    ;
    lemma_common_scale(top, stored_ratio(), small);
    lemma_results_are_numbers(a, ratio);
    let m = nearest(top, stored_ratio());
    let w = kph * unit;
    if kph == 0 {
        assert(0 * unit == 0);
    } else {
        lemma_whole_is_exact(65536);
        lemma_plain(whole(65536));
        lemma_pow2_strictly_increases(32, 127);
        assert(magnitude_value(FRACTION_SPAN as int) == FRACTION_SPAN * pow2(0));
        lemma_magnitude_value_increases(whole(65536).magnitude(), FRACTION_SPAN as int);
        assert(unit <= w <= 65536 * unit) by (nonlinear_arith)
            requires
                w == kph * unit,
                1 <= kph <= 65535,
                unit > 0,
        ;
        assert(top == w * 0x40_0000);
        assert(magnitude_value(FRACTION_SPAN as int) * stored_ratio() <= top);
        assert((65536 * unit) * stored_ratio() >= top);
        lemma_ratio_between(top, stored_ratio(), FRACTION_SPAN as int, whole(65536).magnitude());
    }
    lemma_relative_error(top, stored_ratio());
    assert(plain(speed));
    lemma_plain(speed);
    assert(speed.value() == magnitude_value(m));
}

/// The wheel data of a frame are exactly those of the paired sample, wheel by
/// wheel, and there are none without one.
pub proof fn law_paired_wheel_data_are_reported(
    state: DecoderState,
    format: u16,
    header: Header,
    fields: VehicleFields,
    motion: MotionFields,
)
    ensures
        ({
            let paired = state.frame(format, header, fields, Some(motion)).vehicle;
            let unpaired = state.frame(format, header, fields, None).vehicle;
            &&& paired.wheel_speed == Some(motion.wheel_speed)
            &&& paired.wheel_slip == Some(motion.wheel_slip_ratio)
            &&& paired.capabilities.wheel_speed && paired.capabilities.wheel_slip
            &&& unpaired.wheel_speed is None && unpaired.wheel_slip is None
        }),
{
}

/// A sample that MotionEx completes carries the wheel data of that packet and
/// the inputs of the CarTelemetry packet that was held.
pub proof fn law_completed_frame_joins_both_packets(
    state: DecoderState,
    format: u16,
    car: Header,
    fields: VehicleFields,
    motion_header: Header,
    motion: MotionFields,
)
    requires
        state.pending_car == Some((car, fields)),
        motion_header.overall_frame_identifier == car.overall_frame_identifier,
    ensures
        ({
            let (next, frame) = state.motion_step(format, motion_header, motion);
            &&& frame matches Some(frame) && {
                &&& frame.vehicle.wheel_speed == Some(motion.wheel_speed)
                &&& frame.vehicle.wheel_slip == Some(motion.wheel_slip_ratio)
                &&& frame.vehicle.gear == fields.gear
                &&& frame.source.overall_frame_identifier == Some(car.overall_frame_identifier)
                &&& frame.source.frame_identifier == Some(car.frame_identifier)
                &&& frame.source.packet_time_seconds == Some(car.session_time)
            }
            &&& next.pending_car is None && next.pending_motion is None
            &&& next.last_telemetry_frame == Some(car.overall_frame_identifier)
            &&& next.motion_seen
        }),
{
}

/// A CarTelemetry sample whose MotionEx packet came first is emitted at once
/// with the wheel data that waited for it.
pub proof fn law_waiting_wheel_data_are_used(
    state: DecoderState,
    format: u16,
    header: Header,
    fields: VehicleFields,
    motion: MotionFields,
)
    requires
        state.motion_seen,
        state.pending_car is None,
        state.pending_motion == Some((header.overall_frame_identifier, motion)),
        state.last_telemetry_frame matches Some(last) ==> last < header.overall_frame_identifier,
    ensures
        ({
            let (next, frame) = state.car_step(format, header, fields);
            &&& frame matches Some(frame) && frame.vehicle.wheel_speed == Some(motion.wheel_speed)
                && frame.vehicle.wheel_slip == Some(motion.wheel_slip_ratio) && frame.vehicle.gear == fields.gear
            &&& next.pending_motion is None
            &&& next.last_telemetry_frame == Some(header.overall_frame_identifier)
        }),
{
}

/// Wheel data of another frame are never used: they neither join a sample nor
/// are lost for their own.
pub proof fn law_wheel_data_join_their_own_frame_only(
    state: DecoderState,
    format: u16,
    header: Header,
    fields: VehicleFields,
    other: u32,
    motion: MotionFields,
)
    requires
        state.motion_seen,
        state.pending_car is None,
        state.pending_motion == Some((other, motion)),
        other != header.overall_frame_identifier,
        state.last_telemetry_frame matches Some(last) ==> last < header.overall_frame_identifier,
    ensures
        ({
            let (next, frame) = state.car_step(format, header, fields);
            &&& frame is None
            &&& next.pending_car == Some((header, fields))
            &&& next.pending_motion == Some((other, motion))
        }),
{
}

/// A frame says where it comes from: the format, the session, both frame
/// numbers and the time of its CarTelemetry packet.
pub proof fn law_frame_names_its_source(
    state: DecoderState,
    format: u16,
    header: Header,
    fields: VehicleFields,
    motion: Option<MotionFields>,
)
    ensures
        ({
            let source = state.frame(format, header, fields, motion).source;
            &&& source.protocol_format == Some(format)
            &&& source.session_uid == Some(header.session_uid)
            &&& source.frame_identifier == Some(header.frame_identifier)
            &&& source.overall_frame_identifier == Some(header.overall_frame_identifier)
            &&& source.packet_time_seconds == Some(header.session_time)
            &&& source.discontinuity == state.pending_discontinuity
        }),
{
}

/// The timestamp counts the whole milliseconds of the session time, times a
/// thousand and rounded; before the start it is zero.
pub proof fn law_timestamp_counts_milliseconds(
    state: DecoderState,
    format: u16,
    header: Header,
    fields: VehicleFields,
    motion: Option<MotionFields>,
)
    requires
        header.session_time.finite(),
    ensures
        ({
            let timestamp = state.frame(format, header, fields, motion).timestamp;
            let time = header.session_time;
            let product = nearest(time.value() * 1000, 1);
            &&& time.below((Binary32 { bits: ZERO_BITS })) ==> timestamp == 0
            &&& plain(time) && product < INFINITY_BITS && magnitude_value(product) / unit_value() <= u64::MAX ==> timestamp
                == magnitude_value(product) / unit_value()
        }),
{
    let thousand = Binary32 { bits: THOUSAND_BITS };
    let zero = Binary32 { bits: ZERO_BITS };
    let time = header.session_time.larger(zero);
    lemma2_to64();
    lemma_integer_constant(thousand, 1000, 14);
    lemma_multiple(time, thousand, 1000);
    lemma_pow2_pos(149);
    assert(magnitude_value(0) == 0);
    if time.magnitude() == 0 {
        lemma_product_with_zero(time, thousand);
        assert(0int / unit_value() == 0) by {
            lemma_div_basics(unit_value());
        }
    }
    if plain(header.session_time) {
        lemma_plain(header.session_time);
        assert(header.session_time.value() * 1000 == size(header.session_time.value()) * 1000);
        lemma_rounding_exists(header.session_time.value() * 1000, 1);
        let product = time.product(thousand);
        if product.finite() {
            lemma_plain(product);
            lemma_div_pos_is_pos(product.value(), unit_value());
        }
    }
}

/// The track position is the driven part of the lap, distance over length,
/// rounded: whatever was known before, it follows from the last lap distance
/// and the last track length.
pub proof fn law_track_position_is_distance_over_length(
    state: DecoderState,
    distance: Binary32,
    length: Binary32,
    format: u16,
    header: Header,
    fields: VehicleFields,
    motion: Option<MotionFields>,
)
    requires
        plain(distance),
        plain(length),
        0 < length.value(),
        nearest(distance.value() * unit_value(), length.value()) < ONE_BITS,
    ensures
        ({
            let known = state.with_lap_distance(distance).with_track_length(length);
            let vehicle = known.frame(format, header, fields, motion).vehicle;
            &&& vehicle.capabilities.track_position
            &&& vehicle.track_position.magnitude() == nearest(distance.value() * unit_value(), length.value())
            &&& !vehicle.track_position.negative()
        }),
{
    let known = state.with_lap_distance(distance).with_track_length(length);
    let zero = Binary32 { bits: ZERO_BITS };
    let unit = unit_value();
    lemma_pow2_pos(149);
    lemma_plain(distance);
    lemma_plain(length);
    zero.lemma_rank_orders_values(length);
    assert(magnitude_value(0) == 0);
    assert(zero.below(length));
    assert(0 <= distance.value() * unit) by (nonlinear_arith)
        requires
            0 <= distance.value(),
            0 < unit,
    ;
    let share = distance.quotient(length);
    lemma_rounding_exists(distance.value() * unit, length.value());
    lemma_results_are_numbers(distance, length);
    assert(share.magnitude() == nearest(distance.value() * unit, length.value()));
    lemma_plain(share);
    lemma_one_is_unit();
    lemma_magnitude_value_increases(share.magnitude(), ONE_BITS as int);
    lemma_small_mod(share.value() as nat, unit as nat);
    lemma_exact_value_is_kept(share.value(), 1, share.magnitude());
    assert(share.fraction() == share);
    assert(known.track() == Some(share));
}

/// Without a lap distance or a positive track length no track position is
/// reported.
pub proof fn law_unknown_track_position_is_not_reported(
    state: DecoderState,
    number: Binary32,
    format: u16,
    header: Header,
    fields: VehicleFields,
    motion: Option<MotionFields>,
)
    ensures
        state.player_lap_distance_m is None || state.track_length_m is None ==> !state.frame(
            format,
            header,
            fields,
            motion,
        ).vehicle.capabilities.track_position,
        number.at_most((Binary32 { bits: ZERO_BITS })) || number.nan() ==> !state.with_track_length(number).frame(
            format,
            header,
            fields,
            motion,
        ).vehicle.capabilities.track_position,
        !number.finite() ==> !state.with_lap_distance(number).frame(
            format,
            header,
            fields,
            motion,
        ).vehicle.capabilities.track_position,
{
}

/// A sample newer than the last frame is never dropped: it is emitted at once,
/// or held until its wheel data or the next sample arrives.
pub proof fn law_newer_sample_is_emitted_or_held(
    state: DecoderState,
    format: u16,
    header: Header,
    fields: VehicleFields,
)
    requires
        state.last_telemetry_frame matches Some(last) ==> last < header.overall_frame_identifier,
    ensures
        ({
            let (next, frame) = state.car_step(format, header, fields);
            let emitted = frame matches Some(frame) && frame.source.overall_frame_identifier == Some(
                header.overall_frame_identifier,
            ) && frame.vehicle.gear == fields.gear && next.last_telemetry_frame == Some(
                header.overall_frame_identifier,
            );
            let held = next.pending_car == Some((header, fields));
            &&& emitted || held
            &&& !state.motion_seen ==> emitted
        }),
{
}

/// A new session starts afresh: nothing of the session before is remembered, not
/// even that wheel data had been seen. The first session of all is no change.
pub proof fn law_new_session_starts_afresh(state: DecoderState, uid: u64)
    ensures
        ({
            let after = state.in_session(uid);
            let changed = state.session_uid is Some && state.session_uid != Some(uid);
            &&& after.session_uid == Some(uid)
            &&& changed ==> {
                &&& after.pending_discontinuity
                &&& after.track_length_m is None && after.player_lap_distance_m is None
                &&& !after.assists_known && after.assists.abs_enabled is None && after.assists.traction_control_level
                    is None
                &&& after.last_telemetry_frame is None
                &&& !after.motion_seen && after.pending_car is None && after.pending_motion is None
            }
            &&& !changed ==> after.pending_discontinuity == state.pending_discontinuity && after.track_length_m
                == state.track_length_m && after.player_lap_distance_m == state.player_lap_distance_m && after.motion_seen
                == state.motion_seen && after.last_telemetry_frame == state.last_telemetry_frame
        }),
        !fresh_state().in_session(uid).pending_discontinuity,
        !fresh_state().motion_seen && fresh_state().last_telemetry_frame is None,
{
}

/// Track lengths that are not positive and lap distances that are not finite
/// count as unknown, and neither changes anything else.
pub proof fn law_impossible_lengths_count_as_unknown(state: DecoderState, x: Binary32)
    ensures
        ({
            let (long, far) = (state.with_track_length(x), state.with_lap_distance(x));
            &&& (Binary32 { bits: 0 }).below(x) ==> long.track_length_m == Some(x)
            &&& !(Binary32 { bits: 0 }).below(x) ==> long.track_length_m is None
            &&& x.finite() ==> far.player_lap_distance_m == Some(x)
            &&& !x.finite() ==> far.player_lap_distance_m is None
            &&& long.player_lap_distance_m == state.player_lap_distance_m && far.track_length_m == state.track_length_m
            &&& long.pending_car == state.pending_car && far.pending_car == state.pending_car
            &&& long.last_telemetry_frame == state.last_telemetry_frame && far.last_telemetry_frame
                == state.last_telemetry_frame
        }),
{
}

/// An assist status is refused exactly if the level of traction control exceeds
/// two or the switch of ABS exceeds one; otherwise it is remembered.
pub proof fn law_impossible_assists_are_refused(state: DecoderState, tc: u8, abs: u8)
    ensures
        assist_check(tc, abs) is Ok <==> tc <= 2 && abs <= 1,
        assist_check(tc, abs) is Err ==> assist_check(tc, abs)->Err_0.reason == RejectReason::InvalidValue,
        state.with_assists(tc, abs).assists_known,
        state.with_assists(tc, abs).assists.traction_control_level == Some(tc),
        state.with_assists(tc, abs).assists.abs_enabled == Some(abs == 1),
{
}

} // verus!
