//! The normalized telemetry model shared by all providers.
use crate::binary32::{Binary32, ZERO_BITS};
use crate::time::Instant;
use vstd::prelude::*;
use vstd::string::*;

verus! {

/// Declares which normalized channels contain real provider data.
///
/// Numeric fields always hold some number; this mask tells an unsupported
/// channel from a legitimate zero or false value.
#[derive(Debug, Clone, Copy, PartialEq, Eq, Structural)]
pub struct TelemetryCapabilities {
    pub throttle: bool,
    pub brake: bool,
    pub clutch: bool,
    pub steering_input: bool,
    pub wheel_angle_degrees: bool,
    pub speed: bool,
    pub gear: bool,
    pub rpm: bool,
    pub abs_activity: bool,
    pub tc_activity: bool,
    pub handbrake: bool,
    pub track_position: bool,
    pub wheel_slip: bool,
    /// Per-wheel rotational speed is available.
    pub wheel_speed: bool,
}

/// No channel is supported.
pub open spec fn no_capabilities() -> TelemetryCapabilities {
    TelemetryCapabilities {
        throttle: false,
        brake: false,
        clutch: false,
        steering_input: false,
        wheel_angle_degrees: false,
        speed: false,
        gear: false,
        rpm: false,
        abs_activity: false,
        tc_activity: false,
        handbrake: false,
        track_position: false,
        wheel_slip: false,
        wheel_speed: false,
    }
}

impl Default for TelemetryCapabilities {
    fn default() -> (r: Self)
        ensures
            r == no_capabilities(),
    {
        TelemetryCapabilities {
            throttle: false,
            brake: false,
            clutch: false,
            steering_input: false,
            wheel_angle_degrees: false,
            speed: false,
            gear: false,
            rpm: false,
            abs_activity: false,
            tc_activity: false,
            handbrake: false,
            track_position: false,
            wheel_slip: false,
            wheel_speed: false,
        }
    }
}

/// Status reported by the game, distinct from momentary ABS/TC intervention.
#[derive(Debug, Clone, Copy, PartialEq, Eq)]
pub struct DriverAssistStatus {
    pub abs_enabled: Option<bool>,
    /// 0 = off, 1 = medium, 2 = full.
    pub traction_control_level: Option<u8>,
}

/// Nothing is known of the assists.
pub open spec fn unknown_assists() -> DriverAssistStatus {
    DriverAssistStatus { abs_enabled: None, traction_control_level: None }
}

impl Default for DriverAssistStatus {
    fn default() -> (r: Self)
        ensures
            r == unknown_assists(),
    {
        DriverAssistStatus { abs_enabled: None, traction_control_level: None }
    }
}

/// Shift-light state supplied by a telemetry provider.
#[derive(Debug, Clone, Copy, PartialEq, Eq, Structural)]
pub struct RevLights {
    pub percent: u8,
    pub bit_value: u16,
}

impl Default for RevLights {
    fn default() -> (r: Self)
        ensures
            r == (RevLights { percent: 0, bit_value: 0 }),
    {
        RevLights { percent: 0, bit_value: 0 }
    }
}

/// Optional packet-origin metadata. The capture time of a [`TelemetryPoint`]
/// remains the authoritative local monotonic receipt time.
#[derive(Debug, Clone, Copy, PartialEq, Eq)]
pub struct SourceMetadata {
    pub protocol_format: Option<u16>,
    pub session_uid: Option<u64>,
    pub frame_identifier: Option<u32>,
    pub overall_frame_identifier: Option<u32>,
    pub packet_time_seconds: Option<Binary32>,
    pub discontinuity: bool,
}

/// Nothing is known of the origin.
pub open spec fn unknown_source() -> SourceMetadata {
    SourceMetadata {
        protocol_format: None,
        session_uid: None,
        frame_identifier: None,
        overall_frame_identifier: None,
        packet_time_seconds: None,
        discontinuity: false,
    }
}

impl Default for SourceMetadata {
    fn default() -> (r: Self)
        ensures
            r == unknown_source(),
    {
        SourceMetadata {
            protocol_format: None,
            session_uid: None,
            frame_identifier: None,
            overall_frame_identifier: None,
            packet_time_seconds: None,
            discontinuity: false,
        }
    }
}

/// One telemetry sample as a provider returns it.
#[derive(Debug, Clone)]
pub struct TelemetryData {
    /// Timestamp from the game, in milliseconds.
    pub timestamp: u64,
    pub vehicle: VehicleTelemetry,
    pub session: Option<SessionInfo>,
    pub source: SourceMetadata,
}

/// Normalized vehicle telemetry.
#[derive(Debug, Clone, Copy, PartialEq, Eq)]
pub struct VehicleTelemetry {
    /// Throttle position: 0 (none) to 1 (full).
    pub throttle: Binary32,
    /// Brake position: 0 (none) to 1 (full).
    pub brake: Binary32,
    /// Clutch position: 0 (none) to 1 (full).
    pub clutch: Binary32,
    /// Renderer steering angle. Check `wheel_angle_degrees` and its capability
    /// before treating this as a physical wheel angle.
    pub steering_angle: Binary32,
    /// Normalized steering input: -1 (left) to 1 (right).
    pub steering_input: Binary32,
    /// Physical wheel angle when a provider exposes it directly.
    pub wheel_angle_degrees: Option<Binary32>,
    /// Vehicle speed in m/s.
    pub speed: Binary32,
    /// Current gear (1 and up, 0 = neutral, -1 = reverse).
    pub gear: i32,
    /// Engine speed in revolutions per minute.
    pub rpm: Binary32,
    /// Provider-supplied shift-light state, when available.
    pub rev_lights: Option<RevLights>,
    /// ABS is currently active.
    pub abs_active: bool,
    /// Traction control is currently active.
    pub tc_active: bool,
    /// Track position: 0 to 1 along the track.
    pub track_position: Binary32,
    /// Handbrake input: 0 to 1.
    pub handbrake: Binary32,
    /// Provider-defined normalized wheel slip, RL/RR/FL/FR when available.
    pub wheel_slip: Option<[Binary32; 4]>,
    /// Provider-supplied per-wheel speed, RL/RR/FL/FR when available.
    pub wheel_speed: Option<[Binary32; 4]>,
    pub assists: DriverAssistStatus,
    pub capabilities: TelemetryCapabilities,
}

/// Bit pattern of 0.01, below which a pedal counts as released.
pub const PEDAL_THRESHOLD_BITS: u32 = 0x3c23_d70a;

/// A pedal position above the release threshold.
pub open spec fn pressed(position: Binary32) -> bool {
    (Binary32 { bits: PEDAL_THRESHOLD_BITS }).below(position)
}

/// All values zero and no channel supported.
pub open spec fn idle_vehicle() -> VehicleTelemetry {
    let zero = Binary32 { bits: 0 };
    VehicleTelemetry {
        throttle: zero,
        brake: zero,
        clutch: zero,
        steering_angle: zero,
        steering_input: zero,
        wheel_angle_degrees: None,
        speed: zero,
        gear: 0,
        rpm: zero,
        rev_lights: None,
        abs_active: false,
        tc_active: false,
        track_position: zero,
        handbrake: zero,
        wheel_slip: None,
        wheel_speed: None,
        assists: unknown_assists(),
        capabilities: no_capabilities(),
    }
}

impl Default for VehicleTelemetry {
    fn default() -> (r: Self)
        ensures
            r == idle_vehicle(),
    {
        let zero = Binary32 { bits: 0 };
        VehicleTelemetry {
            throttle: zero,
            brake: zero,
            clutch: zero,
            steering_angle: zero,
            steering_input: zero,
            wheel_angle_degrees: None,
            speed: zero,
            gear: 0,
            rpm: zero,
            rev_lights: None,
            abs_active: false,
            tc_active: false,
            track_position: zero,
            handbrake: zero,
            wheel_slip: None,
            wheel_speed: None,
            assists: DriverAssistStatus::default(),
            capabilities: TelemetryCapabilities::default(),
        }
    }
}

impl VehicleTelemetry {
    /// Vehicle telemetry with default values.
    pub fn new() -> (r: Self)
        ensures
            r == idle_vehicle(),
    {
        Self::default()
    }

    /// Whether any pedal is being pressed.
    pub fn has_pedal_input(&self) -> (r: bool)
        ensures
            r == (pressed(self.throttle) || pressed(self.brake) || pressed(self.clutch)),
            (Binary32 { bits: 0x3c23_d70a }).below(self.throttle) ==> r,
            (Binary32 { bits: 0x3c23_d70a }).below(self.brake) ==> r,
            (Binary32 { bits: 0x3c23_d70a }).below(self.clutch) ==> r,
    {
        let threshold = Binary32 { bits: PEDAL_THRESHOLD_BITS };
        threshold.lt(self.throttle) || threshold.lt(self.brake) || threshold.lt(self.clutch)
    }

    /// The larger of throttle and brake.
    pub fn max_pedal(&self) -> (r: Binary32)
        ensures
            r == self.throttle.larger(self.brake),
            self.throttle.below(self.brake) ==> r == self.brake,
            self.brake.at_most(self.throttle) ==> r == self.throttle,
    {
        self.throttle.max(self.brake)
    }

    /// The steering angle to show. Providers with a physical angle use it;
    /// normalized-only providers use the configured half-lock.
    pub fn effective_steering_degrees(&self, half_lock_degrees: Binary32) -> (r: Binary32)
        ensures
            r == (match self.wheel_angle_degrees {
                Some(angle) => angle,
                None => self.steering_input.signed_unit().product(half_lock_degrees),
            }),
            r == crate::renderer::hud::steering_degrees(*self, half_lock_degrees),
    {
        match self.wheel_angle_degrees {
            Some(angle) => angle,
            None => self.steering_input.clamp_signed_unit().times(half_lock_degrees),
        }
    }
}

/// Session information.
#[derive(Debug, Clone)]
pub struct SessionInfo {
    pub session_number: u32,
    /// Session type (practice, qualifying, race, etc.).
    pub session_type: String,
    /// Total session time in seconds.
    pub session_time: Binary32,
    /// Track length in meters.
    pub track_length: Binary32,
    pub track_name: String,
    pub car_name: String,
}

impl Default for SessionInfo {
    fn default() -> (r: Self)
        ensures
            r.session_number == 0,
            r.session_type@ == ""@,
            r.session_time.bits == ZERO_BITS,
            r.track_length.bits == ZERO_BITS,
            r.track_name@ == ""@,
            r.car_name@ == ""@,
    {
        SessionInfo {
            session_number: 0,
            session_type: "".to_owned(),
            session_time: Binary32 { bits: ZERO_BITS },
            track_length: Binary32 { bits: ZERO_BITS },
            track_name: "".to_owned(),
            car_name: "".to_owned(),
        }
    }
}

/// A telemetry point stored in the buffer.
#[derive(Debug, Clone, Copy, PartialEq, Eq)]
pub struct TelemetryPoint {
    /// When this point was captured.
    pub captured_at: Instant,
    pub telemetry: VehicleTelemetry,
    /// ABS state at capture time.
    pub abs_active: bool,
    pub source: SourceMetadata,
}

/// The point that a sample becomes when it is captured.
pub open spec fn captured_point(data: TelemetryData, captured_at: Instant) -> TelemetryPoint {
    TelemetryPoint {
        captured_at,
        telemetry: data.vehicle,
        abs_active: data.vehicle.abs_active,
        source: data.source,
    }
}

impl TelemetryPoint {
    /// Captures a sample at the given time.
    pub fn new(data: TelemetryData, captured_at: Instant) -> (r: Self)
        ensures
            r == captured_point(data, captured_at),
    {
        TelemetryPoint {
            captured_at,
            telemetry: data.vehicle,
            abs_active: data.vehicle.abs_active,
            source: data.source,
        }
    }
}

} // verus!
