//! What holds of the decoder state over sequences of packets.
use crate::arithmetic::{law_fraction_is_within_one, lemma_results_are_numbers, lemma_whole_is_exact, whole};
use crate::binary32::{Binary32, MINUS_ONE_BITS, ONE_BITS, ZERO_BITS};
use crate::f1::protocol::Header;
use crate::f1::state::{fresh_state, DecoderState, MotionFields, VehicleFields, HUNDRED_BITS};
use crate::model::TelemetryData;
use vstd::prelude::*;

verus! {

/// No packet makes a sample wait before MotionEx has been seen.
pub proof fn law_state_stays_consistent(
    state: DecoderState,
    uid: u64,
    number: Binary32,
    tc: u8,
    abs: u8,
    format: u16,
    header: Header,
    fields: VehicleFields,
    motion: MotionFields,
)
    requires
        state.consistent(),
    ensures
        fresh_state().consistent(),
        state.in_session(uid).consistent(),
        state.with_track_length(number).consistent(),
        state.with_lap_distance(number).consistent(),
        state.with_assists(tc, abs).consistent(),
        state.car_step(format, header, fields).0.consistent(),
        state.motion_step(format, header, motion).0.consistent(),
{
}

/// Until MotionEx is seen, every CarTelemetry sample newer than the last frame
/// is emitted at once, without wheel data.
pub proof fn law_emitted_at_once_without_motion(state: DecoderState, format: u16, header: Header, fields: VehicleFields)
    requires
        state.consistent(),
        !state.motion_seen,
        !state.stale(header.overall_frame_identifier),
    ensures
        state.car_step(format, header, fields).1 == Some(state.frame(format, header, fields, None)),
        state.car_step(format, header, fields).0 == state.emitted(header),
{
}

/// A repeated or older sample yields nothing and changes nothing.
pub proof fn law_stale_sample_is_ignored(state: DecoderState, format: u16, header: Header, fields: VehicleFields)
    requires
        state.stale(header.overall_frame_identifier),
    ensures
        state.car_step(format, header, fields) == (state, None::<TelemetryData>),
{
}

/// Until MotionEx is seen, a frame is never followed by the same or an older one.
pub proof fn law_frames_increase_without_motion(state: DecoderState, format: u16, header: Header, fields: VehicleFields)
    requires
        state.consistent(),
        !state.motion_seen,
    ensures
        state.car_step(format, header, fields).1 matches Some(frame) ==> {
            &&& frame.source.overall_frame_identifier == Some(header.overall_frame_identifier)
            &&& state.last_telemetry_frame matches Some(last) ==> header.overall_frame_identifier > last
            &&& state.car_step(format, header, fields).0.stale(header.overall_frame_identifier)
        },
{
}

/// Whether the held sample is newer than every frame emitted so far.
pub open spec fn held_is_newer(state: DecoderState) -> bool {
    state.pending_car matches Some((held, _)) ==> !state.stale(held.overall_frame_identifier)
}

/// Whether a sample does not go back behind the one that is held.
pub open spec fn arrives_in_order(state: DecoderState, header: Header) -> bool {
    state.pending_car matches Some((held, _)) ==> held.overall_frame_identifier <= header.overall_frame_identifier
}

/// Once MotionEx is seen, frames still increase strictly as long as
/// CarTelemetry samples do not go back behind the one that is held.
pub proof fn law_frames_increase_in_order(
    state: DecoderState,
    format: u16,
    header: Header,
    fields: VehicleFields,
    motion: MotionFields,
)
    requires
        state.consistent(),
        held_is_newer(state),
    ensures
        arrives_in_order(state, header) ==> {
            let (next, emitted) = state.car_step(format, header, fields);
            &&& held_is_newer(next)
            &&& emitted matches Some(frame) ==> {
                &&& frame.source.overall_frame_identifier == next.last_telemetry_frame
                &&& !state.stale(next.last_telemetry_frame->0)
            }
        },
        ({
            let (next, emitted) = state.motion_step(format, header, motion);
            &&& held_is_newer(next)
            &&& emitted matches Some(frame) ==> {
                &&& frame.source.overall_frame_identifier == next.last_telemetry_frame
                &&& !state.stale(next.last_telemetry_frame->0)
            }
        }),
{
}

/// CarTelemetry and MotionEx of one frame make the same frame, with the wheel
/// data, whichever of them comes first.
pub proof fn law_pairing_does_not_depend_on_order(
    state: DecoderState,
    format: u16,
    car: Header,
    fields: VehicleFields,
    motion_header: Header,
    motion: MotionFields,
)
    requires
        state.motion_seen,
        state.pending_car is None,
        state.motion_for(car.overall_frame_identifier) is None,
        !state.stale(car.overall_frame_identifier),
        motion_header.overall_frame_identifier == car.overall_frame_identifier,
    ensures
        ({
            let (held, nothing) = state.car_step(format, car, fields);
            let (after_car_first, frame) = held.motion_step(format, motion_header, motion);
            let (waiting, nothing_either) = state.motion_step(format, motion_header, motion);
            let (after_motion_first, same_frame) = waiting.car_step(format, car, fields);
            &&& nothing is None
            &&& nothing_either is None
            &&& frame == Some(state.frame(format, car, fields, Some(motion)))
            &&& same_frame == frame
            &&& after_car_first == after_motion_first
        }),
{
}

/// A held sample whose counterpart never arrives is emitted, without wheel
/// data, when the next sample comes in, and that one is held in its place.
pub proof fn law_unpaired_sample_is_not_lost(state: DecoderState, format: u16, header: Header, fields: VehicleFields)
    requires
        state.motion_seen,
        state.pending_car matches Some((held, _)) && {
            &&& held.overall_frame_identifier != header.overall_frame_identifier
            &&& state.motion_for(held.overall_frame_identifier) is None
        },
        !state.stale(header.overall_frame_identifier),
    ensures
        ({
            let (held_header, held_fields) = state.pending_car->0;
            let (next, emitted) = state.car_step(format, header, fields);
            &&& emitted == Some(state.frame(format, held_header, held_fields, None))
            &&& next.pending_car == Some((header, fields))
        }),
{
}

/// A change of session forgets everything of the old one, and exactly the next
/// frame is marked as discontinuous.
pub proof fn law_session_change_marks_one_frame(
    state: DecoderState,
    uid: u64,
    format: u16,
    first: Header,
    first_fields: VehicleFields,
    second: Header,
    second_fields: VehicleFields,
)
    requires
        state.session_uid is Some,
        state.session_uid->0 != uid,
        first.overall_frame_identifier < second.overall_frame_identifier,
    ensures
        ({
            let entered = state.in_session(uid);
            let (after_first, frame) = entered.car_step(format, first, first_fields);
            let (_, next_frame) = after_first.car_step(format, second, second_fields);
            &&& entered == (DecoderState { session_uid: Some(uid), pending_discontinuity: true, ..fresh_state() })
            &&& frame is Some && frame->0.source.discontinuity
            &&& next_frame is Some && !next_frame->0.source.discontinuity
        }),
{
}

/// Further packets of the same session change nothing by belonging to it.
pub proof fn law_same_session_is_kept(state: DecoderState, uid: u64)
    ensures
        state.session_uid == Some(uid) ==> state.in_session(uid) == state,
        state.in_session(uid).in_session(uid) == state.in_session(uid),
{
}

/// Moment-by-moment ABS or traction-control intervention, the physical wheel
/// angle and the handbrake are never reported, because no packet carries them;
/// wheel data are reported exactly when a MotionEx sample was paired.
pub proof fn law_nothing_is_invented(
    state: DecoderState,
    format: u16,
    header: Header,
    fields: VehicleFields,
    motion: Option<MotionFields>,
)
    ensures
        ({
            let sample = state.frame(format, header, fields, motion);
            let supported = sample.vehicle.capabilities;
            &&& !supported.abs_activity && !sample.vehicle.abs_active
            &&& !supported.tc_activity && !sample.vehicle.tc_active
            &&& !supported.wheel_angle_degrees && sample.vehicle.wheel_angle_degrees is None
            &&& !supported.handbrake
            &&& supported.wheel_slip == (motion is Some) && supported.wheel_slip == (sample.vehicle.wheel_slip is Some)
            &&& supported.wheel_speed == (motion is Some) && supported.wheel_speed == (sample.vehicle.wheel_speed is Some)
            &&& supported.track_position == (state.track() is Some)
        }),
{
}

/// Finite inputs are reported within their ranges: pedals from zero to one,
/// clutch included, steering from minus one to one.
pub proof fn law_inputs_are_in_range(
    state: DecoderState,
    format: u16,
    header: Header,
    fields: VehicleFields,
    motion: Option<MotionFields>,
)
    requires
        fields.finite(),
    ensures
        ({
            let vehicle = state.frame(format, header, fields, motion).vehicle;
            let zero = Binary32 { bits: ZERO_BITS };
            let one = Binary32 { bits: ONE_BITS };
            let minus_one = Binary32 { bits: MINUS_ONE_BITS };
            &&& zero.at_most(vehicle.throttle) && vehicle.throttle.at_most(one)
            &&& zero.at_most(vehicle.brake) && vehicle.brake.at_most(one)
            &&& minus_one.at_most(vehicle.steering_input) && vehicle.steering_input.at_most(one)
            &&& zero.at_most(vehicle.clutch) && vehicle.clutch.at_most(one)
        }),
{
    lemma_whole_is_exact(fields.clutch as nat);
    lemma_results_are_numbers(whole(fields.clutch as nat), Binary32 { bits: HUNDRED_BITS });
}

/// A known track position lies within one lap, also before the start line,
/// where the lap distance is negative.
pub proof fn law_track_position_is_within_one_lap(state: DecoderState, distance: Binary32, length: Binary32)
    requires
        state.player_lap_distance_m == Some(distance),
        state.track_length_m == Some(length),
        (Binary32 { bits: ZERO_BITS }).below(length),
        distance.quotient(length).finite(),
    ensures
        state.track() matches Some(position) && (Binary32 { bits: ZERO_BITS }).at_most(position)
            && position.at_most((Binary32 { bits: ONE_BITS })),
{
    law_fraction_is_within_one(distance.quotient(length));
}

/// The configured assists stay as the last valid status told them.
pub proof fn law_assists_are_reported(
    state: DecoderState,
    tc: u8,
    abs: u8,
    format: u16,
    header: Header,
    fields: VehicleFields,
    motion: Option<MotionFields>,
)
    requires
        tc <= 2,
        abs <= 1,
    ensures
        state.with_assists(tc, abs).frame(format, header, fields, motion).vehicle.assists.traction_control_level
            == Some(tc),
        state.with_assists(tc, abs).frame(format, header, fields, motion).vehicle.assists.abs_enabled == Some(abs == 1),
        !state.assists_known ==> state.frame(format, header, fields, motion).vehicle.assists.abs_enabled is None,
{
}

} // verus!
