//! Session state of a decoder: what earlier packets told, and the pairing of
//! CarTelemetry with MotionEx packets of the same frame.
use crate::arithmetic::whole;
use crate::binary32::{Binary32, ZERO_BITS};
use crate::f1::protocol::{outcome, reject, rejection, DecodeRejection, Header, RejectReason, Rejected};
use crate::model::{
    no_capabilities, unknown_assists, DriverAssistStatus, RevLights, SourceMetadata, TelemetryCapabilities,
    TelemetryData, VehicleTelemetry,
};
use crate::text::{decimal, decimal_text};
use vstd::prelude::*;
use vstd::string::*;

verus! {

/// Bit pattern of 1000: milliseconds in a second.
pub const THOUSAND_BITS: u32 = 0x447a_0000;

/// Bit pattern of 100: the clutch fully pressed, in percent.
pub const HUNDRED_BITS: u32 = 0x42c8_0000;

/// Bit pattern of 180: the steering angle at full lock, in degrees.
pub const HALF_TURN_BITS: u32 = 0x4334_0000;

/// Bit pattern of 3.6: kilometers per hour in a meter per second.
pub const KPH_PER_MPS_BITS: u32 = 0x4066_6666;

/// The player's channels of a CarTelemetry packet.
#[derive(Debug, Clone, Copy, PartialEq, Eq)]
pub struct VehicleFields {
    pub speed_kph: u16,
    pub throttle: Binary32,
    pub steer: Binary32,
    pub brake: Binary32,
    pub clutch: u8,
    pub gear: i8,
    pub rpm: u16,
    /// Shift lights, where the decoder of the format reads them.
    pub rev_lights: Option<RevLights>,
}

impl VehicleFields {
    /// Whether the pedal and steering inputs are numbers.
    pub open spec fn finite(self) -> bool {
        self.throttle.finite() && self.steer.finite() && self.brake.finite()
    }
}

/// The player's channels of a MotionEx packet that the lock-up detector uses.
///
/// All wheel arrays are in the order RL, RR, FL, FR.
#[derive(Debug, Clone, Copy, PartialEq, Eq)]
pub struct MotionFields {
    pub wheel_speed: [Binary32; 4],
    pub wheel_slip_ratio: [Binary32; 4],
}

impl Default for MotionFields {
    fn default() -> (r: Self)
        ensures
            forall|i: int| 0 <= i < 4 ==> (#[trigger] r.wheel_speed@[i]).bits == ZERO_BITS,
            forall|i: int| 0 <= i < 4 ==> (#[trigger] r.wheel_slip_ratio@[i]).bits == ZERO_BITS,
    {
        let zero = Binary32 { bits: ZERO_BITS };
        MotionFields {
            wheel_speed: [zero, zero, zero, zero],
            wheel_slip_ratio: [zero, zero, zero, zero],
        }
    }
}

/// What a decoder remembers between packets.
#[derive(Debug, Clone, Copy, PartialEq, Eq)]
pub struct DecoderState {
    pub session_uid: Option<u64>,
    pub pending_discontinuity: bool,
    pub track_length_m: Option<Binary32>,
    pub player_lap_distance_m: Option<Binary32>,
    pub assists: DriverAssistStatus,
    pub assists_known: bool,
    pub last_telemetry_frame: Option<u32>,
    /// Set once a MotionEx packet is observed in the session. Until then
    /// CarTelemetry is emitted immediately; afterwards CarTelemetry and
    /// MotionEx are paired by overall frame.
    pub motion_seen: bool,
    /// Most recent CarTelemetry frame waiting for its MotionEx counterpart.
    pub pending_car: Option<(Header, VehicleFields)>,
    /// Most recent MotionEx frame waiting for its CarTelemetry counterpart.
    pub pending_motion: Option<(u32, MotionFields)>,
}

/// The state before any packet.
pub open spec fn fresh_state() -> DecoderState {
    DecoderState {
        session_uid: None,
        pending_discontinuity: false,
        track_length_m: None,
        player_lap_distance_m: None,
        assists: unknown_assists(),
        assists_known: false,
        last_telemetry_frame: None,
        motion_seen: false,
        pending_car: None,
        pending_motion: None,
    }
}

impl Default for DecoderState {
    fn default() -> (r: Self)
        ensures
            r == fresh_state(),
    {
        DecoderState {
            session_uid: None,
            pending_discontinuity: false,
            track_length_m: None,
            player_lap_distance_m: None,
            assists: DriverAssistStatus::default(),
            assists_known: false,
            last_telemetry_frame: None,
            motion_seen: false,
            pending_car: None,
            pending_motion: None,
        }
    }
}

impl DecoderState {
    /// Packets wait for their counterpart only once MotionEx has been seen.
    pub open spec fn consistent(self) -> bool {
        !self.motion_seen ==> self.pending_car is None && self.pending_motion is None
    }

    /// The state after a packet of session `uid`: a change of session forgets
    /// everything and marks the next frame as discontinuous.
    pub open spec fn in_session(self, uid: u64) -> DecoderState {
        if self.session_uid is Some && self.session_uid->0 != uid {
            DecoderState { session_uid: Some(uid), pending_discontinuity: true, ..fresh_state() }
        } else {
            DecoderState { session_uid: Some(uid), ..self }
        }
    }

    /// The state after a track length: only a positive one is kept.
    pub open spec fn with_track_length(self, length: Binary32) -> DecoderState {
        DecoderState {
            track_length_m: if (Binary32 { bits: 0 }).below(length) {
                Some(length)
            } else {
                None
            },
            ..self
        }
    }

    /// The state after a lap distance: only a finite one is kept.
    pub open spec fn with_lap_distance(self, distance: Binary32) -> DecoderState {
        DecoderState {
            player_lap_distance_m: if distance.finite() {
                Some(distance)
            } else {
                None
            },
            ..self
        }
    }

    /// The state after a valid assist status.
    pub open spec fn with_assists(self, tc: u8, abs: u8) -> DecoderState {
        DecoderState {
            assists: DriverAssistStatus { abs_enabled: Some(abs == 1), traction_control_level: Some(tc) },
            assists_known: true,
            ..self
        }
    }

    /// The MotionEx channels waiting for the given frame.
    pub open spec fn motion_for(self, overall_frame: u32) -> Option<MotionFields> {
        match self.pending_motion {
            Some((frame, motion)) => if frame == overall_frame {
                Some(motion)
            } else {
                None
            },
            None => None,
        }
    }

    /// The state once MotionEx channels for the given frame no longer wait.
    pub open spec fn without_motion_for(self, overall_frame: u32) -> DecoderState {
        if self.motion_for(overall_frame) is Some {
            DecoderState { pending_motion: None, ..self }
        } else {
            self
        }
    }

    /// The part of the lap that the player has driven, once length and
    /// distance are known.
    pub open spec fn track(self) -> Option<Binary32> {
        match (self.player_lap_distance_m, self.track_length_m) {
            (Some(distance), Some(length)) => if (Binary32 { bits: 0 }).below(length) {
                Some(distance.quotient(length).fraction())
            } else {
                None
            },
            _ => None,
        }
    }

    /// The sample made of the player's channels and what the state remembers.
    pub open spec fn frame(
        self,
        format: u16,
        header: Header,
        fields: VehicleFields,
        motion: Option<MotionFields>,
    ) -> TelemetryData {
        let zero = Binary32 { bits: 0 };
        TelemetryData {
            timestamp: header.session_time.larger(zero).product((Binary32 { bits: THOUSAND_BITS })).whole_part() as u64,
            vehicle: VehicleTelemetry {
                throttle: fields.throttle.unit(),
                brake: fields.brake.unit(),
                clutch: whole(fields.clutch as nat).quotient((Binary32 { bits: HUNDRED_BITS })).unit(),
                steering_angle: fields.steer.signed_unit().product((Binary32 { bits: HALF_TURN_BITS })),
                steering_input: fields.steer.signed_unit(),
                wheel_angle_degrees: None,
                speed: whole(fields.speed_kph as nat).quotient((Binary32 { bits: KPH_PER_MPS_BITS })),
                gear: fields.gear as i32,
                rpm: whole(fields.rpm as nat),
                rev_lights: fields.rev_lights,
                abs_active: false,
                tc_active: false,
                track_position: match self.track() {
                    Some(position) => position,
                    None => zero,
                },
                handbrake: zero,
                wheel_slip: match motion {
                    Some(motion) => Some(motion.wheel_slip_ratio),
                    None => None,
                },
                wheel_speed: match motion {
                    Some(motion) => Some(motion.wheel_speed),
                    None => None,
                },
                assists: if self.assists_known {
                    self.assists
                } else {
                    unknown_assists()
                },
                capabilities: TelemetryCapabilities {
                    throttle: true,
                    brake: true,
                    clutch: true,
                    steering_input: true,
                    speed: true,
                    gear: true,
                    rpm: true,
                    track_position: self.track() is Some,
                    wheel_slip: motion is Some,
                    wheel_speed: motion is Some,
                    ..no_capabilities()
                },
            },
            session: None,
            source: SourceMetadata {
                protocol_format: Some(format),
                session_uid: Some(header.session_uid),
                frame_identifier: Some(header.frame_identifier),
                overall_frame_identifier: Some(header.overall_frame_identifier),
                packet_time_seconds: Some(header.session_time),
                discontinuity: self.pending_discontinuity,
            },
        }
    }

    /// The state once a frame with the given header has been emitted.
    pub open spec fn emitted(self, header: Header) -> DecoderState {
        DecoderState {
            last_telemetry_frame: Some(header.overall_frame_identifier),
            pending_discontinuity: false,
            ..self
        }
    }

    /// Whether a frame is not newer than the last one emitted.
    pub open spec fn stale(self, overall_frame: u32) -> bool {
        self.last_telemetry_frame is Some && overall_frame <= self.last_telemetry_frame->0
    }

    /// What a CarTelemetry sample does to the state and which frame it yields.
    pub open spec fn car_step(self, format: u16, header: Header, fields: VehicleFields) -> (
        DecoderState,
        Option<TelemetryData>,
    ) {
        let id = header.overall_frame_identifier;
        let motion = self.motion_for(id);
        if self.stale(id) {
            (self, None)
        } else if !self.motion_seen {
            (self.without_motion_for(id).emitted(header), Some(self.frame(format, header, fields, motion)))
        } else if let Some((held_header, held_fields)) = self.pending_car {
            let held_id = held_header.overall_frame_identifier;
            if held_id == id {
                if motion is Some {
                    (
                        DecoderState { pending_car: None, ..self.without_motion_for(id) }.emitted(header),
                        Some(self.frame(format, header, fields, motion)),
                    )
                } else {
                    (DecoderState { pending_car: Some((header, fields)), ..self }, None)
                }
            } else {
                (
                    DecoderState { pending_car: Some((header, fields)), ..self.without_motion_for(held_id) }.emitted(
                        held_header,
                    ),
                    Some(self.frame(format, held_header, held_fields, self.motion_for(held_id))),
                )
            }
        } else if motion is Some {
            (self.without_motion_for(id).emitted(header), Some(self.frame(format, header, fields, motion)))
        } else {
            (DecoderState { pending_car: Some((header, fields)), ..self }, None)
        }
    }

    /// What a MotionEx sample does to the state and which frame it yields.
    pub open spec fn motion_step(self, format: u16, header: Header, motion: MotionFields) -> (
        DecoderState,
        Option<TelemetryData>,
    ) {
        let id = header.overall_frame_identifier;
        match self.pending_car {
            Some((car_header, car_fields)) if car_header.overall_frame_identifier == id => (
                DecoderState { motion_seen: true, pending_motion: None, pending_car: None, ..self }.emitted(car_header),
                Some(self.frame(format, car_header, car_fields, Some(motion))),
            ),
            _ => (DecoderState { motion_seen: true, pending_motion: Some((id, motion)), ..self }, None),
        }
    }

    /// Notes the session that a packet belongs to.
    pub fn observe_session(&mut self, uid: u64)
        ensures
            *final(self) == old(self).in_session(uid),
    {
        if let Some(previous) = self.session_uid {
            if previous != uid {
                self.pending_discontinuity = true;
                self.track_length_m = None;
                self.player_lap_distance_m = None;
                self.assists = DriverAssistStatus::default();
                self.assists_known = false;
                self.last_telemetry_frame = None;
                self.motion_seen = false;
                self.pending_car = None;
                self.pending_motion = None;
            }
        }
        self.session_uid = Some(uid);
    }

    /// Notes the track length.
    pub fn set_track_length(&mut self, length: Binary32)
        ensures
            *final(self) == old(self).with_track_length(length),
    {
        self.track_length_m = if length.is_positive() {
            Some(length)
        } else {
            None
        };
    }

    /// Notes the player's distance along the lap.
    pub fn set_lap_distance(&mut self, distance: Binary32)
        ensures
            *final(self) == old(self).with_lap_distance(distance),
    {
        self.player_lap_distance_m = if distance.is_finite() {
            Some(distance)
        } else {
            None
        };
    }

    /// Notes the configured assists. Unknown levels are rejected and change
    /// nothing.
    pub fn set_assists(&mut self, tc: u8, abs: u8) -> (r: Result<(), DecodeRejection>)
        ensures
            outcome(r, assist_check(tc, abs)),
            *final(self) == if tc > 2 || abs > 1 {
                *old(self)
            } else {
                old(self).with_assists(tc, abs)
            },
    {
        if tc > 2 || abs > 1 {
            let mut detail = "invalid F1 assist status: TC=".to_owned();
            detail.append(decimal_text(tc as u64).as_str());
            detail.append(", ABS=");
            detail.append(decimal_text(abs as u64).as_str());
            return Err(reject(RejectReason::InvalidValue, detail));
        }
        self.assists = DriverAssistStatus { abs_enabled: Some(abs == 1), traction_control_level: Some(tc) };
        self.assists_known = true;
        Ok(())
    }

    fn take_motion_for(&mut self, overall_frame: u32) -> (r: Option<MotionFields>)
        ensures
            r == old(self).motion_for(overall_frame),
            *final(self) == old(self).without_motion_for(overall_frame),
    {
        match self.pending_motion {
            Some((frame, motion)) => if frame == overall_frame {
                self.pending_motion = None;
                Some(motion)
            } else {
                None
            },
            None => None,
        }
    }

    /// Feeds one CarTelemetry sample. Inputs that are not finite are rejected
    /// and change nothing; a stale sample yields nothing.
    pub fn push_car(&mut self, format: u16, header: Header, fields: VehicleFields) -> (r: Result<
        Option<TelemetryData>,
        DecodeRejection,
    >)
        ensures
            outcome(
                r,
                if fields.finite() {
                    Ok(old(self).car_step(format, header, fields).1)
                } else {
                    rejection(RejectReason::InvalidValue, "non-finite F1 telemetry input"@)
                },
            ),
            *final(self) == if fields.finite() {
                old(self).car_step(format, header, fields).0
            } else {
                *old(self)
            },
    {
        if !fields.throttle.is_finite() || !fields.steer.is_finite() || !fields.brake.is_finite() {
            return Err(reject(RejectReason::InvalidValue, "non-finite F1 telemetry input".to_owned()));
        }
        if let Some(last) = self.last_telemetry_frame {
            if header.overall_frame_identifier <= last {
                return Ok(None);
            }
        }
        if !self.motion_seen {
            let motion = self.take_motion_for(header.overall_frame_identifier);
            return Ok(Some(self.finish(format, header, fields, motion)));
        }
        if let Some((held_header, held_fields)) = self.pending_car {
            if held_header.overall_frame_identifier == header.overall_frame_identifier {
                // Duplicate CarTelemetry for the held frame: keep the newest.
                self.pending_car = Some((header, fields));
                if let Some(motion) = self.take_motion_for(header.overall_frame_identifier) {
                    self.pending_car = None;
                    return Ok(Some(self.finish(format, header, fields, Some(motion))));
                }
                return Ok(None);
            }
            // Emit the older held frame, then hold this newer one.
            let motion = self.take_motion_for(held_header.overall_frame_identifier);
            let emitted = self.finish(format, held_header, held_fields, motion);
            self.pending_car = Some((header, fields));
            return Ok(Some(emitted));
        }
        if let Some(motion) = self.take_motion_for(header.overall_frame_identifier) {
            return Ok(Some(self.finish(format, header, fields, Some(motion))));
        }
        self.pending_car = Some((header, fields));
        Ok(None)
    }

    /// Feeds one MotionEx sample. Yields a frame when it completes a held
    /// CarTelemetry sample.
    pub fn observe_motion(&mut self, format: u16, header: &Header, motion: MotionFields) -> (r: Result<
        Option<TelemetryData>,
        DecodeRejection,
    >)
        ensures
            outcome(r, Ok(old(self).motion_step(format, *header, motion).1)),
            *final(self) == old(self).motion_step(format, *header, motion).0,
    {
        self.motion_seen = true;
        self.pending_motion = Some((header.overall_frame_identifier, motion));
        if let Some((car_header, car_fields)) = self.pending_car {
            if car_header.overall_frame_identifier == header.overall_frame_identifier {
                self.pending_car = None;
                self.pending_motion = None;
                return Ok(Some(self.finish(format, car_header, car_fields, Some(motion))));
            }
        }
        Ok(None)
    }

    fn finish(&mut self, format: u16, header: Header, fields: VehicleFields, motion: Option<MotionFields>) -> (r:
        TelemetryData)
        ensures
            r == old(self).frame(format, header, fields, motion),
            *final(self) == old(self).emitted(header),
    {
        let zero = Binary32 { bits: 0 };
        let track = match (self.player_lap_distance_m, self.track_length_m) {
            (Some(distance), Some(length)) => if length.is_positive() {
                Some(distance.over(length).fraction_of_one())
            } else {
                None
            },
            _ => None,
        };
        self.last_telemetry_frame = Some(header.overall_frame_identifier);
        let discontinuity = self.pending_discontinuity;
        self.pending_discontinuity = false;
        TelemetryData {
            timestamp: header.session_time.max(zero).times(Binary32 { bits: THOUSAND_BITS }).truncate_to_u64(),
            vehicle: VehicleTelemetry {
                throttle: fields.throttle.clamp_unit(),
                brake: fields.brake.clamp_unit(),
                clutch: Binary32::from_u64(fields.clutch as u64).over(Binary32 { bits: HUNDRED_BITS }).clamp_unit(),
                steering_angle: fields.steer.clamp_signed_unit().times(Binary32 { bits: HALF_TURN_BITS }),
                steering_input: fields.steer.clamp_signed_unit(),
                wheel_angle_degrees: None,
                speed: Binary32::from_u64(fields.speed_kph as u64).over(Binary32 { bits: KPH_PER_MPS_BITS }),
                gear: fields.gear as i32,
                rpm: Binary32::from_u64(fields.rpm as u64),
                rev_lights: fields.rev_lights,
                abs_active: false,
                tc_active: false,
                track_position: match track {
                    Some(position) => position,
                    None => zero,
                },
                handbrake: zero,
                wheel_slip: match motion {
                    Some(motion) => Some(motion.wheel_slip_ratio),
                    None => None,
                },
                wheel_speed: match motion {
                    Some(motion) => Some(motion.wheel_speed),
                    None => None,
                },
                assists: if self.assists_known {
                    self.assists
                } else {
                    DriverAssistStatus::default()
                },
                capabilities: TelemetryCapabilities {
                    throttle: true,
                    brake: true,
                    clutch: true,
                    steering_input: true,
                    wheel_angle_degrees: false,
                    speed: true,
                    gear: true,
                    rpm: true,
                    abs_activity: false,
                    tc_activity: false,
                    handbrake: false,
                    track_position: track.is_some(),
                    wheel_slip: motion.is_some(),
                    wheel_speed: motion.is_some(),
                },
            },
            session: None,
            source: SourceMetadata {
                protocol_format: Some(format),
                session_uid: Some(header.session_uid),
                frame_identifier: Some(header.frame_identifier),
                overall_frame_identifier: Some(header.overall_frame_identifier),
                packet_time_seconds: Some(header.session_time),
                discontinuity,
            },
        }
    }
}

/// Whether assist levels are known ones.
pub open spec fn assist_check(tc: u8, abs: u8) -> Result<(), Rejected> {
    if tc > 2 || abs > 1 {
        rejection(
            RejectReason::InvalidValue,
            "invalid F1 assist status: TC="@ + decimal(tc as nat) + ", ABS="@ + decimal(abs as nat),
        )
    } else {
        Ok(())
    }
}

} // verus!
