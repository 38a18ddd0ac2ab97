//! Lock-up detector for the front wheels under braking.
//!
//! From wheel slip ratios, wheel speeds, vehicle speed and brake input the
//! detector estimates how close the front wheels are to locking. It is a
//! heuristic, not a physics model. Time advances by explicit steps only, so a
//! sequence of samples determines every output. Wheel arrays are in the order
//! RL, RR, FL, FR.
use crate::binary32::{num, number, Binary32, ONE_BITS, ZERO_BITS};
use crate::model::{TelemetryPoint, VehicleTelemetry};
use crate::time::{elapsed_between, in_seconds};
use vstd::prelude::*;

verus! {

/// Bit pattern of the distance from one to the next larger number.
pub const EPSILON_BITS: u32 = 0x3400_0000;

/// Bit pattern of 2.
pub const TWO_BITS: u32 = 0x4000_0000;

/// Bit pattern of 3.
pub const THREE_BITS: u32 = 0x4040_0000;

/// Bit pattern of 60.
pub const SIXTY_BITS: u32 = 0x4270_0000;

/// Bit pattern of 1000: milliseconds in a second.
pub const MILLIS_BITS: u32 = 0x447a_0000;

/// Bit pattern of 3.6: kilometers per hour in a meter per second.
pub const KPH_PER_MPS_BITS: u32 = 0x4066_6666;

/// Bit pattern of 0.25: the longest step in seconds.
pub const MAX_STEP_BITS: u32 = 0x3e80_0000;

/// Bit pattern of 0.73: where the approach ends, relative to where it starts.
pub const WARN_EXIT_BITS: u32 = 0x3f3a_e148;

/// Bit pattern of 0.67: where a lock ends, relative to where it starts.
pub const LOCK_EXIT_BITS: u32 = 0x3f2b_851f;

/// Bit pattern of 0.65: the share of slip in the severity.
pub const SLIP_SHARE_BITS: u32 = 0x3f26_6666;

/// Bit pattern of 0.35: the share of wheel speed in the severity.
pub const WHEEL_SHARE_BITS: u32 = 0x3eb3_3333;

/// Bit pattern of 0.7: the strength of the glow right after a lock.
pub const RECOVERY_SHARE_BITS: u32 = 0x3f33_3333;

/// Bit pattern of 0.35: the strongest warning before a lock.
pub const APPROACH_CAP_BITS: u32 = 0x3eb3_3333;

/// Bit pattern of 0.5: the weakest confirmed lock in the history.
pub const HISTORY_FLOOR_BITS: u32 = 0x3f00_0000;

/// Bit pattern of 0.06: how long the pulse rises, in seconds.
pub const PULSE_ATTACK_BITS: u32 = 0x3d75_c28f;

/// Bit pattern of 0.04: how long the pulse stays, in seconds.
pub const PULSE_HOLD_BITS: u32 = 0x3d23_d70a;

/// Bit pattern of 0.16: how long the pulse falls, in seconds.
pub const PULSE_DECAY_BITS: u32 = 0x3e23_d70a;

/// Tunable parameters.
#[derive(Clone, Copy, Debug, PartialEq, Eq, Structural)]
pub struct BrakeLimitParams {
    /// Vehicle speed at which the speed gate starts to open, km/h.
    pub speed_gate_start: Binary32,
    /// Vehicle speed at which the speed gate is fully open, km/h.
    pub speed_gate_full: Binary32,
    /// Brake input at which the brake gate starts to open.
    pub brake_gate_start: Binary32,
    /// Brake input at which the brake gate is fully open.
    pub brake_gate_full: Binary32,
    /// Slip magnitude at which approaching detection begins.
    pub slip_warn_start: Binary32,
    /// Slip magnitude at which the lock condition begins.
    pub slip_lock_start: Binary32,
    /// Slip magnitude at which slip severity reaches one.
    pub slip_full_lock: Binary32,
    /// Wheel/speed ratio below which the wheel is considered locking.
    pub wheel_warn_ratio: Binary32,
    /// Wheel/speed ratio at which wheel severity reaches one.
    pub wheel_lock_ratio: Binary32,
    /// Severity response curve exponent.
    pub severity_gamma: Binary32,
    /// How long the lock condition must persist before a transient lock is
    /// declared, in milliseconds.
    pub lock_attack_ms: Binary32,
    /// How long a lock must persist before it becomes sustained, in
    /// milliseconds.
    pub sustained_ms: Binary32,
    /// Residual glow after a lock releases, in milliseconds.
    pub release_hold_ms: Binary32,
    /// How strongly warning colour is mixed in at full severity.
    pub warning_mix: Binary32,
    /// Pulse amplitude scale.
    pub pulse_strength: Binary32,
    /// Sustained burn amplitude scale.
    pub burn_strength: Binary32,
    /// Master scale for the confirmed-lock cyan amount.
    pub lock_cyan_strength: Binary32,
    /// Peak alpha of the history upward lock projection.
    pub lock_projection_alpha: Binary32,
    /// Projection mid-point alpha as a fraction of the peak.
    pub lock_projection_falloff: Binary32,
}

/// The calibrated baseline.
pub open spec fn baseline_params() -> BrakeLimitParams {
    BrakeLimitParams {
        speed_gate_start: num(0x41f0_0000),
        speed_gate_full: num(0x4248_0000),
        brake_gate_start: num(0x3dcc_cccd),
        brake_gate_full: num(0x3e80_0000),
        slip_warn_start: num(0x3e19_999a),
        slip_lock_start: num(0x3ee6_6666),
        slip_full_lock: num(0x3f59_999a),
        wheel_warn_ratio: num(0x3f4c_cccd),
        wheel_lock_ratio: num(0x3ee6_6666),
        severity_gamma: num(0x3fcc_cccd),
        lock_attack_ms: num(0x4270_0000),
        sustained_ms: num(0x438c_0000),
        release_hold_ms: num(0x42c8_0000),
        warning_mix: num(0x3e4c_cccd),
        pulse_strength: num(0x3f80_0000),
        burn_strength: num(0x3f4c_cccd),
        lock_cyan_strength: num(0x3fb3_3333),
        lock_projection_alpha: num(0x3e99_999a),
        lock_projection_falloff: num(0x3eb3_3333),
    }
}

impl Default for BrakeLimitParams {
    fn default() -> (r: Self)
        ensures
            r == baseline_params(),
    {
        BrakeLimitParams {
            speed_gate_start: number(0x41f0_0000),
            speed_gate_full: number(0x4248_0000),
            brake_gate_start: number(0x3dcc_cccd),
            brake_gate_full: number(0x3e80_0000),
            slip_warn_start: number(0x3e19_999a),
            slip_lock_start: number(0x3ee6_6666),
            slip_full_lock: number(0x3f59_999a),
            wheel_warn_ratio: number(0x3f4c_cccd),
            wheel_lock_ratio: number(0x3ee6_6666),
            severity_gamma: number(0x3fcc_cccd),
            lock_attack_ms: number(0x4270_0000),
            sustained_ms: number(0x438c_0000),
            release_hold_ms: number(0x42c8_0000),
            warning_mix: number(0x3e4c_cccd),
            pulse_strength: number(0x3f80_0000),
            burn_strength: number(0x3f4c_cccd),
            lock_cyan_strength: number(0x3fb3_3333),
            lock_projection_alpha: number(0x3e99_999a),
            lock_projection_falloff: number(0x3eb3_3333),
        }
    }
}

impl BrakeLimitParams {
    /// Slip magnitude at which approaching detection ends.
    pub open spec fn warn_exit(self) -> Binary32 {
        self.slip_warn_start.product(num(WARN_EXIT_BITS))
    }

    /// Slip magnitude at which the lock condition ends.
    pub open spec fn lock_exit(self) -> Binary32 {
        self.slip_lock_start.product(num(LOCK_EXIT_BITS))
    }

    /// Slip magnitude at which approaching detection ends.
    pub fn slip_warn_exit(&self) -> (r: Binary32)
        ensures
            r == self.warn_exit(),
    {
        self.slip_warn_start.times(number(WARN_EXIT_BITS))
    }

    /// Slip magnitude at which the lock condition ends.
    pub fn slip_lock_exit(&self) -> (r: Binary32)
        ensures
            r == self.lock_exit(),
    {
        self.slip_lock_start.times(number(LOCK_EXIT_BITS))
    }
}

/// How close the front wheels are to locking.
#[derive(Clone, Copy, Debug, PartialEq, Eq, Structural)]
pub enum LockState {
    Normal,
    Approaching,
    TransientLock,
    SustainedLock,
    Recovery,
}

impl Default for LockState {
    fn default() -> (r: Self)
        ensures
            r == LockState::Normal,
    {
        LockState::Normal
    }
}

impl LockState {
    /// The name shown for the state.
    pub open spec fn name(self) -> Seq<char> {
        match self {
            LockState::Normal => "Normal"@,
            LockState::Approaching => "Approaching"@,
            LockState::TransientLock => "Transient Lock"@,
            LockState::SustainedLock => "Sustained Lock"@,
            LockState::Recovery => "Recovery"@,
        }
    }

    /// The name shown for the state.
    pub fn label(self) -> (r: &'static str)
        ensures
            r@ == self.name(),
    {
        match self {
            LockState::Normal => "Normal",
            LockState::Approaching => "Approaching",
            LockState::TransientLock => "Transient Lock",
            LockState::SustainedLock => "Sustained Lock",
            LockState::Recovery => "Recovery",
        }
    }
}

/// What the detector reports after a sample.
#[derive(Clone, Copy, Debug, PartialEq, Eq, Structural)]
pub struct BrakeLimitFeedback {
    pub severity_fl: Binary32,
    pub severity_fr: Binary32,
    pub global_severity: Binary32,
    pub symmetry: Binary32,
    pub balance: Binary32,
    pub state: LockState,
    pub lock_duration_ms: Binary32,
    /// Confirmed lock (transient or sustained), used for history recording.
    pub lock_confirmed: bool,
    /// One-shot pulse envelope, scaled by pulse strength.
    pub pulse: Binary32,
    /// Sustained burn level, scaled by burn strength.
    pub burn: Binary32,
    /// Subtle warm-orange amount for the approaching phase.
    pub approach_mix: Binary32,
    /// Cyan lock amount for the left half of the brake bar.
    pub lock_fl: Binary32,
    /// Cyan lock amount for the right half of the brake bar.
    pub lock_fr: Binary32,
    /// Final colour mix amount.
    pub color_mix: Binary32,
}

/// Nothing to report.
pub open spec fn quiet_feedback() -> BrakeLimitFeedback {
    let zero = num(ZERO_BITS);
    BrakeLimitFeedback {
        severity_fl: zero,
        severity_fr: zero,
        global_severity: zero,
        symmetry: zero,
        balance: zero,
        state: LockState::Normal,
        lock_duration_ms: zero,
        lock_confirmed: false,
        pulse: zero,
        burn: zero,
        approach_mix: zero,
        lock_fl: zero,
        lock_fr: zero,
        color_mix: zero,
    }
}

impl Default for BrakeLimitFeedback {
    fn default() -> (r: Self)
        ensures
            r == quiet_feedback(),
    {
        let zero = number(ZERO_BITS);
        BrakeLimitFeedback {
            severity_fl: zero,
            severity_fr: zero,
            global_severity: zero,
            symmetry: zero,
            balance: zero,
            state: LockState::Normal,
            lock_duration_ms: zero,
            lock_confirmed: false,
            pulse: zero,
            burn: zero,
            approach_mix: zero,
            lock_fl: zero,
            lock_fr: zero,
            color_mix: zero,
        }
    }
}

/// What the detector needs of a sample. Missing wheel channels are no evidence
/// of a lock.
#[derive(Clone, Copy, Debug, PartialEq, Eq)]
pub struct WheelSample {
    pub speed_ms: Binary32,
    pub brake: Binary32,
    /// Slip ratio of the front left wheel.
    pub slip_fl: Option<Binary32>,
    /// Slip ratio of the front right wheel.
    pub slip_fr: Option<Binary32>,
    /// Speed of the front left wheel.
    pub wheel_speed_fl: Option<Binary32>,
    /// Speed of the front right wheel.
    pub wheel_speed_fr: Option<Binary32>,
}

/// The given wheel of an array, if the array is there.
pub open spec fn wheel_of(values: Option<[Binary32; 4]>, wheel: int) -> Option<Binary32> {
    match values {
        Some(values) => Some(values@[wheel]),
        None => None,
    }
}

impl Default for WheelSample {
    fn default() -> (r: Self)
        ensures
            r.speed_ms == num(ZERO_BITS),
            r.brake == num(ZERO_BITS),
            r.slip_fl is None,
            r.slip_fr is None,
            r.wheel_speed_fl is None,
            r.wheel_speed_fr is None,
    {
        WheelSample {
            speed_ms: number(ZERO_BITS),
            brake: number(ZERO_BITS),
            slip_fl: None,
            slip_fr: None,
            wheel_speed_fl: None,
            wheel_speed_fr: None,
        }
    }
}

impl WheelSample {
    /// Picks the detector inputs from a vehicle.
    pub fn from_vehicle(vehicle: &VehicleTelemetry) -> (r: Self)
        ensures
            r == (WheelSample {
                speed_ms: vehicle.speed,
                brake: vehicle.brake,
                slip_fl: wheel_of(vehicle.wheel_slip, 2),
                slip_fr: wheel_of(vehicle.wheel_slip, 3),
                wheel_speed_fl: wheel_of(vehicle.wheel_speed, 2),
                wheel_speed_fr: wheel_of(vehicle.wheel_speed, 3),
            }),
    {
        let (slip_fl, slip_fr) = match vehicle.wheel_slip {
            Some(values) => (Some(values[2]), Some(values[3])),
            None => (None, None),
        };
        let (wheel_speed_fl, wheel_speed_fr) = match vehicle.wheel_speed {
            Some(values) => (Some(values[2]), Some(values[3])),
            None => (None, None),
        };
        WheelSample { speed_ms: vehicle.speed, brake: vehicle.brake, slip_fl, slip_fr, wheel_speed_fl, wheel_speed_fr }
    }
}

/// A smooth transition from zero at `edge0` to one at `edge1`; a jump where
/// the edges coincide.
pub open spec fn stepped(edge0: Binary32, edge1: Binary32, x: Binary32) -> Binary32 {
    if edge1.difference(edge0).absolute().below(num(EPSILON_BITS)) {
        if edge1.at_most(x) {
            num(ONE_BITS)
        } else {
            num(ZERO_BITS)
        }
    } else {
        let t = x.difference(edge0).quotient(edge1.difference(edge0)).unit();
        t.product(t).product(num(THREE_BITS).difference(num(TWO_BITS).product(t)))
    }
}

/// A smooth transition from zero at `edge0` to one at `edge1`.
pub fn smoothstep(edge0: Binary32, edge1: Binary32, x: Binary32) -> (r: Binary32)
    ensures
        r == stepped(edge0, edge1, x),
{
    let span = edge1.minus(edge0);
    if span.abs().lt(number(EPSILON_BITS)) {
        return if edge1.le(x) {
            number(ONE_BITS)
        } else {
            number(ZERO_BITS)
        };
    }
    let t = x.minus(edge0).over(span).clamp_unit();
    let three = number(THREE_BITS);
    let two = number(TWO_BITS);
    t.times(t).times(three.minus(two.times(t)))
}

/// The height of the pulse some time after its start: it rises, stays, falls
/// and is gone.
pub open spec fn pulse_height(elapsed: Binary32) -> Binary32 {
    let attack = num(PULSE_ATTACK_BITS);
    let hold = num(PULSE_HOLD_BITS);
    let decay = num(PULSE_DECAY_BITS);
    if elapsed.below(num(ZERO_BITS)) {
        num(ZERO_BITS)
    } else if elapsed.below(attack) {
        elapsed.quotient(attack)
    } else if elapsed.below(attack.sum(hold)) {
        num(ONE_BITS)
    } else if elapsed.below(attack.sum(hold).sum(decay)) {
        num(ONE_BITS).difference(elapsed.difference(attack).difference(hold).quotient(decay))
    } else {
        num(ZERO_BITS)
    }
}

/// The height of the pulse some time after its start.
pub fn pulse_envelope(elapsed: Binary32) -> (r: Binary32)
    ensures
        r == pulse_height(elapsed),
{
    let zero = number(ZERO_BITS);
    let one = number(ONE_BITS);
    let attack = number(PULSE_ATTACK_BITS);
    let hold = number(PULSE_HOLD_BITS);
    let decay = number(PULSE_DECAY_BITS);
    if elapsed.lt(zero) {
        zero
    } else if elapsed.lt(attack) {
        elapsed.over(attack)
    } else if elapsed.lt(attack.plus(hold)) {
        one
    } else if elapsed.lt(attack.plus(hold).plus(decay)) {
        one.minus(elapsed.minus(attack).minus(hold).over(decay))
    } else {
        zero
    }
}

/// What a single wheel tells.
#[derive(Clone, Copy, Debug, PartialEq, Eq, Structural)]
pub struct WheelEval {
    pub severity: Binary32,
    /// Slip magnitude, weighted so that low speed or little brake hides it.
    pub slip_mag: Binary32,
    pub wheel_ratio: Binary32,
}

/// The bases of the severities raised to the severity exponent.
#[derive(Clone, Copy, Debug, PartialEq, Eq, Structural)]
pub struct SeverityPowers {
    pub fl: Binary32,
    pub fr: Binary32,
}

impl BrakeLimitParams {
    /// How far the speed and brake gates are open.
    pub open spec fn gate(self, sample: WheelSample) -> Binary32 {
        let speed_kmh = sample.speed_ms.larger(num(ZERO_BITS)).product(num(KPH_PER_MPS_BITS));
        stepped(self.speed_gate_start, self.speed_gate_full, speed_kmh).product(
            stepped(self.brake_gate_start, self.brake_gate_full, sample.brake),
        )
    }

    /// The magnitude of braking slip.
    pub open spec fn slip_magnitude(self, slip: Option<Binary32>) -> Binary32 {
        let slip = match slip {
            Some(slip) => slip,
            None => num(ZERO_BITS),
        };
        slip.opposite().larger(num(ZERO_BITS))
    }

    /// The speed of a wheel relative to the car.
    pub open spec fn ratio(self, wheel_speed: Option<Binary32>, speed_ms: Binary32) -> Binary32 {
        match wheel_speed {
            Some(wheel) => wheel.quotient(speed_ms.larger(num(ONE_BITS))),
            None => num(ONE_BITS),
        }
    }

    /// The weighted evidence of one wheel, before the response curve.
    pub open spec fn base(self, slip: Option<Binary32>, wheel_speed: Option<Binary32>, speed_ms: Binary32) -> Binary32 {
        let slip_norm = stepped(self.slip_warn_start, self.slip_full_lock, self.slip_magnitude(slip));
        let wheel_norm = num(ONE_BITS).difference(
            stepped(self.wheel_lock_ratio, self.wheel_warn_ratio, self.ratio(wheel_speed, speed_ms)),
        );
        num(SLIP_SHARE_BITS).product(slip_norm).sum(num(WHEEL_SHARE_BITS).product(wheel_norm)).unit()
    }

    /// What a wheel tells, given the power of its base.
    pub open spec fn evaluated(
        self,
        slip: Option<Binary32>,
        wheel_speed: Option<Binary32>,
        speed_ms: Binary32,
        gate: Binary32,
        power: Binary32,
    ) -> WheelEval {
        WheelEval {
            severity: power.product(gate).unit(),
            slip_mag: self.slip_magnitude(slip).product(gate),
            wheel_ratio: self.ratio(wheel_speed, speed_ms),
        }
    }

    /// Whether a side counts as locked: deep slip of a slow wheel starts it,
    /// and it lasts until the slip has fallen clearly below.
    pub open spec fn side_locked(self, current: bool, eval: WheelEval) -> bool {
        if current {
            self.lock_exit().at_most(eval.slip_mag)
        } else {
            self.slip_lock_start.at_most(eval.slip_mag) && eval.wheel_ratio.at_most(self.wheel_warn_ratio)
        }
    }

    /// Whether a lock is approaching, with its own hysteresis over both wheels.
    pub open spec fn approaching(self, current: bool, fl: WheelEval, fr: WheelEval) -> bool {
        if self.slip_warn_start.at_most(fl.slip_mag) || self.slip_warn_start.at_most(fr.slip_mag) {
            true
        } else if self.warn_exit().at_most(fl.slip_mag) || self.warn_exit().at_most(fr.slip_mag) {
            current
        } else {
            false
        }
    }

    /// How far the speed and brake gates are open.
    fn gate_for(&self, sample: &WheelSample) -> (r: Binary32)
        ensures
            r == self.gate(*sample),
    {
        let speed_kmh = sample.speed_ms.max(number(ZERO_BITS)).times(number(KPH_PER_MPS_BITS));
        let speed_gate = smoothstep(self.speed_gate_start, self.speed_gate_full, speed_kmh);
        let brake_gate = smoothstep(self.brake_gate_start, self.brake_gate_full, sample.brake);
        speed_gate.times(brake_gate)
    }

    /// The magnitude of braking slip.
    fn slip_magnitude_of(&self, slip: Option<Binary32>) -> (r: Binary32)
        ensures
            r == self.slip_magnitude(slip),
    {
        let zero = number(ZERO_BITS);
        let slip = match slip {
            Some(slip) => slip,
            None => zero,
        };
        slip.negate().max(zero)
    }

    /// The speed of a wheel relative to the car.
    fn ratio_of(&self, wheel_speed: Option<Binary32>, speed_ms: Binary32) -> (r: Binary32)
        ensures
            r == self.ratio(wheel_speed, speed_ms),
    {
        let one = number(ONE_BITS);
        match wheel_speed {
            Some(wheel) => wheel.over(speed_ms.max(one)),
            None => one,
        }
    }

    /// The weighted evidence of one wheel, before the response curve.
    fn base_of(&self, slip: Option<Binary32>, wheel_speed: Option<Binary32>, speed_ms: Binary32) -> (r: Binary32)
        ensures
            r == self.base(slip, wheel_speed, speed_ms),
    {
        let slip_norm = smoothstep(self.slip_warn_start, self.slip_full_lock, self.slip_magnitude_of(slip));
        let wheel_step = smoothstep(
            self.wheel_lock_ratio,
            self.wheel_warn_ratio,
            self.ratio_of(wheel_speed, speed_ms),
        );
        let wheel_norm = number(ONE_BITS).minus(wheel_step);
        let slip_part = number(SLIP_SHARE_BITS).times(slip_norm);
        slip_part.plus(number(WHEEL_SHARE_BITS).times(wheel_norm)).clamp_unit()
    }

    /// The numbers that are to be raised to the power `severity_gamma` before
    /// a sample is fed to a detector with these parameters.
    pub fn severity_bases(&self, sample: &WheelSample) -> (r: SeverityPowers)
        ensures
            r.fl == self.base(sample.slip_fl, sample.wheel_speed_fl, sample.speed_ms),
            r.fr == self.base(sample.slip_fr, sample.wheel_speed_fr, sample.speed_ms),
    {
        SeverityPowers {
            fl: self.base_of(sample.slip_fl, sample.wheel_speed_fl, sample.speed_ms),
            fr: self.base_of(sample.slip_fr, sample.wheel_speed_fr, sample.speed_ms),
        }
    }

    /// What a wheel tells, given the power of its base.
    fn eval_wheel(
        &self,
        slip: Option<Binary32>,
        wheel_speed: Option<Binary32>,
        speed_ms: Binary32,
        gate: Binary32,
        power: Binary32,
    ) -> (r: WheelEval)
        ensures
            r == self.evaluated(slip, wheel_speed, speed_ms, gate, power),
    {
        WheelEval {
            severity: power.times(gate).clamp_unit(),
            slip_mag: self.slip_magnitude_of(slip).times(gate),
            wheel_ratio: self.ratio_of(wheel_speed, speed_ms),
        }
    }

    /// Whether a side counts as locked.
    fn side_lock(&self, current: bool, eval: &WheelEval) -> (r: bool)
        ensures
            r == self.side_locked(current, *eval),
    {
        if current {
            self.slip_lock_exit().le(eval.slip_mag)
        } else {
            self.slip_lock_start.le(eval.slip_mag) && eval.wheel_ratio.le(self.wheel_warn_ratio)
        }
    }
}

/// A lock-up detector and what it remembers.
#[derive(Clone, Copy, Debug, PartialEq, Eq)]
pub struct BrakeLimitDetector {
    pub params: BrakeLimitParams,
    /// Seconds since the start.
    pub time: Binary32,
    pub approaching: bool,
    pub locked_fl: bool,
    pub locked_fr: bool,
    pub lock_condition_since: Option<Binary32>,
    pub lock_active: bool,
    pub lock_started_at: Option<Binary32>,
    pub release_at: Option<Binary32>,
    pub pulse_at: Option<Binary32>,
    pub episode_peak: Binary32,
    pub state: LockState,
    pub output: BrakeLimitFeedback,
}

/// A detector before any sample.
pub open spec fn fresh_detector(params: BrakeLimitParams) -> BrakeLimitDetector {
    BrakeLimitDetector {
        params,
        time: num(ZERO_BITS),
        approaching: false,
        locked_fl: false,
        locked_fr: false,
        lock_condition_since: None,
        lock_active: false,
        lock_started_at: None,
        release_at: None,
        pulse_at: None,
        episode_peak: num(ZERO_BITS),
        state: LockState::Normal,
        output: quiet_feedback(),
    }
}

/// Milliseconds in seconds.
pub open spec fn seconds(millis: Binary32) -> Binary32 {
    millis.quotient(num(MILLIS_BITS))
}

/// The time from `start` to `time`, or zero without a start.
pub open spec fn since(start: Option<Binary32>, time: Binary32) -> Binary32 {
    match start {
        Some(start) => time.difference(start),
        None => num(ZERO_BITS),
    }
}

impl BrakeLimitDetector {
    /// After time has advanced and both wheels have been judged.
    pub open spec fn judged(self, dt: Binary32, fl: WheelEval, fr: WheelEval) -> Self {
        let global = fl.severity.larger(fr.severity);
        BrakeLimitDetector {
            time: self.time.sum(dt.clamped(num(ZERO_BITS), num(MAX_STEP_BITS))),
            locked_fl: self.params.side_locked(self.locked_fl, fl),
            locked_fr: self.params.side_locked(self.locked_fr, fr),
            approaching: self.params.approaching(self.approaching, fl, fr),
            episode_peak: if self.lock_active {
                self.episode_peak.larger(global)
            } else {
                self.episode_peak
            },
            ..self
        }
    }

    /// After the lock condition has been debounced: a lock becomes active once
    /// the condition has lasted for the attack time, and inactive with it.
    pub open spec fn debounced(self, global: Binary32) -> Self {
        if self.locked_fl || self.locked_fr {
            let start = match self.lock_condition_since {
                Some(start) => start,
                None => self.time,
            };
            let held = BrakeLimitDetector { lock_condition_since: Some(start), ..self };
            if !self.lock_active && seconds(self.params.lock_attack_ms).at_most(self.time.difference(start)) {
                BrakeLimitDetector {
                    lock_active: true,
                    lock_started_at: Some(self.time),
                    pulse_at: Some(self.time),
                    episode_peak: global,
                    ..held
                }
            } else {
                held
            }
        } else if self.lock_active {
            BrakeLimitDetector {
                lock_condition_since: None,
                lock_active: false,
                release_at: Some(self.time),
                ..self
            }
        } else {
            BrakeLimitDetector { lock_condition_since: None, ..self }
        }
    }

    /// The state without a lock and without its aftermath.
    pub open spec fn unlocked_state(self) -> LockState {
        if self.approaching {
            LockState::Approaching
        } else {
            LockState::Normal
        }
    }

    /// After the state has been chosen: an active lock is sustained once it
    /// has lasted long enough, and a released one recovers for a while.
    pub open spec fn classified(self) -> Self {
        if self.lock_active {
            BrakeLimitDetector {
                state: if seconds(self.params.sustained_ms).at_most(since(self.lock_started_at, self.time)) {
                    LockState::SustainedLock
                } else {
                    LockState::TransientLock
                },
                ..self
            }
        } else if let Some(release) = self.release_at {
            if self.time.difference(release).below(seconds(self.params.release_hold_ms)) {
                BrakeLimitDetector { state: LockState::Recovery, ..self }
            } else {
                BrakeLimitDetector { release_at: None, state: self.unlocked_state(), ..self }
            }
        } else {
            BrakeLimitDetector { state: self.unlocked_state(), ..self }
        }
    }

    /// The one-shot pulse of a transient lock.
    pub open spec fn pulse(self) -> Binary32 {
        if self.state == LockState::TransientLock {
            let envelope = match self.pulse_at {
                Some(start) => pulse_height(self.time.difference(start)),
                None => num(ZERO_BITS),
            };
            envelope.product(self.episode_peak).product(self.params.pulse_strength).unit()
        } else {
            num(ZERO_BITS)
        }
    }

    /// The steady glow of a sustained lock.
    pub open spec fn burn(self) -> Binary32 {
        if self.state == LockState::SustainedLock {
            self.episode_peak.product(self.params.burn_strength).unit()
        } else {
            num(ZERO_BITS)
        }
    }

    /// How much of the aftermath of a lock is left.
    pub open spec fn recovery(self) -> Binary32 {
        if self.state == LockState::Recovery {
            let release = match self.release_at {
                Some(release) => release,
                None => self.time,
            };
            num(ONE_BITS).difference(
                self.time.difference(release).quotient(seconds(self.params.release_hold_ms)),
            ).unit()
        } else {
            num(ZERO_BITS).unit()
        }
    }

    /// The amount of cyan for the lock as a whole.
    pub open spec fn lock_amount(self) -> Binary32 {
        self.pulse().larger(self.burn()).larger(
            self.recovery().product(self.episode_peak).product(num(RECOVERY_SHARE_BITS)),
        ).product(self.params.lock_cyan_strength).unit()
    }

    /// What is reported for the chosen state and the judged wheels.
    pub open spec fn report(self, fl: WheelEval, fr: WheelEval) -> BrakeLimitFeedback {
        let global = fl.severity.larger(fr.severity);
        let approach_mix = self.params.warning_mix.product(global).unit().smaller(num(APPROACH_CAP_BITS));
        BrakeLimitFeedback {
            severity_fl: fl.severity,
            severity_fr: fr.severity,
            global_severity: global,
            symmetry: fl.severity.smaller(fr.severity),
            balance: fl.severity.difference(fr.severity),
            state: self.state,
            lock_duration_ms: if self.lock_active {
                since(self.lock_started_at, self.time).product(num(MILLIS_BITS))
            } else {
                num(ZERO_BITS)
            },
            lock_confirmed: self.lock_active,
            pulse: self.pulse(),
            burn: self.burn(),
            approach_mix,
            lock_fl: self.lock_amount().product(side_fraction(fl.severity, global)),
            lock_fr: self.lock_amount().product(side_fraction(fr.severity, global)),
            color_mix: self.lock_amount().larger(approach_mix),
        }
    }

    /// What the front left wheel tells.
    pub open spec fn left(self, sample: WheelSample, powers: SeverityPowers) -> WheelEval {
        self.params.evaluated(
            sample.slip_fl,
            sample.wheel_speed_fl,
            sample.speed_ms,
            self.params.gate(sample),
            powers.fl,
        )
    }

    /// What the front right wheel tells.
    pub open spec fn right(self, sample: WheelSample, powers: SeverityPowers) -> WheelEval {
        self.params.evaluated(
            sample.slip_fr,
            sample.wheel_speed_fr,
            sample.speed_ms,
            self.params.gate(sample),
            powers.fr,
        )
    }

    /// After one sample.
    #[verifier::opaque]
    pub open spec fn updated(self, dt: Binary32, sample: WheelSample, powers: SeverityPowers) -> Self {
        let fl = self.left(sample, powers);
        let fr = self.right(sample, powers);
        let next = self.judged(dt, fl, fr).debounced(fl.severity.larger(fr.severity)).classified();
        BrakeLimitDetector { output: next.report(fl, fr), ..next }
    }

    /// A detector before any sample.
    pub fn new(params: BrakeLimitParams) -> (r: Self)
        ensures
            r == fresh_detector(params),
    {
        BrakeLimitDetector {
            params,
            time: number(ZERO_BITS),
            approaching: false,
            locked_fl: false,
            locked_fr: false,
            lock_condition_since: None,
            lock_active: false,
            lock_started_at: None,
            release_at: None,
            pulse_at: None,
            episode_peak: number(ZERO_BITS),
            state: LockState::Normal,
            output: BrakeLimitFeedback::default(),
        }
    }

    /// The parameters.
    pub fn params(&self) -> (r: BrakeLimitParams)
        ensures
            r == self.params,
    {
        self.params
    }

    /// Replaces the parameters and keeps everything else.
    pub fn set_params(&mut self, params: BrakeLimitParams)
        ensures
            *final(self) == (BrakeLimitDetector { params, ..*old(self) }),
    {
        self.params = params;
    }

    /// The report on the last sample.
    pub fn feedback(&self) -> (r: BrakeLimitFeedback)
        ensures
            r == self.output,
    {
        self.output
    }

    /// Whether a confirmed lock, transient or sustained, is active.
    pub fn lock_confirmed(&self) -> (r: bool)
        ensures
            r == self.lock_active,
    {
        self.lock_active
    }

    /// The state after the last sample.
    pub fn state(&self) -> (r: LockState)
        ensures
            r == self.state,
    {
        self.state
    }

    /// Advances the detector by `dt` seconds with one sample. `powers` are the
    /// sample's [`BrakeLimitParams::severity_bases`], each raised to the power
    /// `severity_gamma`.
    pub fn update(&mut self, dt: Binary32, sample: &WheelSample, powers: SeverityPowers)
        ensures
            *final(self) == old(self).updated(dt, *sample, powers),
    {
        proof {
            reveal(BrakeLimitDetector::updated);
        }
        let p = self.params;
        let gate = p.gate_for(sample);
        let fl = p.eval_wheel(sample.slip_fl, sample.wheel_speed_fl, sample.speed_ms, gate, powers.fl);
        let fr = p.eval_wheel(sample.slip_fr, sample.wheel_speed_fr, sample.speed_ms, gate, powers.fr);
        let global = fl.severity.max(fr.severity);
        self.judge(dt, &fl, &fr, global);
        self.debounce(global);
        self.classify();
        self.output = self.make_report(&fl, &fr, global);
    }

    fn judge(&mut self, dt: Binary32, fl: &WheelEval, fr: &WheelEval, global: Binary32)
        requires
            global == fl.severity.larger(fr.severity),
        ensures
            *final(self) == old(self).judged(dt, *fl, *fr),
    {
        let p = self.params;
        self.time = self.time.plus(dt.clamp(number(ZERO_BITS), number(MAX_STEP_BITS)));
        self.locked_fl = p.side_lock(self.locked_fl, fl);
        self.locked_fr = p.side_lock(self.locked_fr, fr);
        let exit = p.slip_warn_exit();
        if p.slip_warn_start.le(fl.slip_mag) || p.slip_warn_start.le(fr.slip_mag) {
            self.approaching = true;
        } else if !exit.le(fl.slip_mag) && !exit.le(fr.slip_mag) {
            self.approaching = false;
        }
        if self.lock_active {
            self.episode_peak = self.episode_peak.max(global);
        }
    }

    fn debounce(&mut self, global: Binary32)
        ensures
            *final(self) == old(self).debounced(global),
    {
        let attack_s = self.params.lock_attack_ms.over(number(MILLIS_BITS));
        if self.locked_fl || self.locked_fr {
            let start = match self.lock_condition_since {
                Some(start) => start,
                None => self.time,
            };
            self.lock_condition_since = Some(start);
            if !self.lock_active && attack_s.le(self.time.minus(start)) {
                self.lock_active = true;
                self.lock_started_at = Some(self.time);
                self.pulse_at = Some(self.time);
                self.episode_peak = global;
            }
        } else {
            self.lock_condition_since = None;
            if self.lock_active {
                self.lock_active = false;
                self.release_at = Some(self.time);
            }
        }
    }

    fn classify(&mut self)
        ensures
            *final(self) == old(self).classified(),
    {
        let sustained_s = self.params.sustained_ms.over(number(MILLIS_BITS));
        let release_s = self.params.release_hold_ms.over(number(MILLIS_BITS));
        let unlocked = if self.approaching {
            LockState::Approaching
        } else {
            LockState::Normal
        };
        if self.lock_active {
            self.state = if sustained_s.le(self.lock_age()) {
                LockState::SustainedLock
            } else {
                LockState::TransientLock
            };
        } else if let Some(release) = self.release_at {
            if self.time.minus(release).lt(release_s) {
                self.state = LockState::Recovery;
            } else {
                self.release_at = None;
                self.state = unlocked;
            }
        } else {
            self.state = unlocked;
        }
    }

    /// How long the lock has lasted.
    fn lock_age(&self) -> (r: Binary32)
        ensures
            r == since(self.lock_started_at, self.time),
    {
        match self.lock_started_at {
            Some(start) => self.time.minus(start),
            None => number(ZERO_BITS),
        }
    }

    fn make_report(&self, fl: &WheelEval, fr: &WheelEval, global: Binary32) -> (r: BrakeLimitFeedback)
        requires
            global == fl.severity.larger(fr.severity),
        ensures
            r == self.report(*fl, *fr),
    {
        let p = self.params;
        let zero = number(ZERO_BITS);
        let release_s = p.release_hold_ms.over(number(MILLIS_BITS));
        let lock_duration_ms = if self.lock_active {
            self.lock_age().times(number(MILLIS_BITS))
        } else {
            zero
        };
        let envelope = match self.pulse_at {
            Some(start) => pulse_envelope(self.time.minus(start)),
            None => zero,
        };
        let pulse = if self.state == LockState::TransientLock {
            envelope.times(self.episode_peak).times(p.pulse_strength).clamp_unit()
        } else {
            zero
        };
        let burn = if self.state == LockState::SustainedLock {
            self.episode_peak.times(p.burn_strength).clamp_unit()
        } else {
            zero
        };
        let recovery = if self.state == LockState::Recovery {
            let release = match self.release_at {
                Some(release) => release,
                None => self.time,
            };
            number(ONE_BITS).minus(self.time.minus(release).over(release_s))
        } else {
            zero
        }.clamp_unit();
        let glow = recovery.times(self.episode_peak).times(number(RECOVERY_SHARE_BITS));
        let lock_amount = pulse.max(burn).max(glow).times(p.lock_cyan_strength).clamp_unit();
        let approach_mix = p.warning_mix.times(global).clamp_unit().min(number(APPROACH_CAP_BITS));
        BrakeLimitFeedback {
            severity_fl: fl.severity,
            severity_fr: fr.severity,
            global_severity: global,
            symmetry: fl.severity.min(fr.severity),
            balance: fl.severity.minus(fr.severity),
            state: self.state,
            lock_duration_ms,
            lock_confirmed: self.lock_active,
            pulse,
            burn,
            approach_mix,
            lock_fl: lock_amount.times(fraction_of(fl.severity, global)),
            lock_fr: lock_amount.times(fraction_of(fr.severity, global)),
            color_mix: lock_amount.max(approach_mix),
        }
    }
}

impl Default for BrakeLimitDetector {
    fn default() -> (r: Self)
        ensures
            r == fresh_detector(baseline_params()),
    {
        Self::new(BrakeLimitParams::default())
    }
}

/// The share of one wheel in the overall severity.
pub open spec fn side_fraction(side: Binary32, global: Binary32) -> Binary32 {
    if num(EPSILON_BITS).below(global) {
        side.quotient(global).unit()
    } else {
        num(ZERO_BITS)
    }
}

/// The share of one wheel in the overall severity.
fn fraction_of(side: Binary32, global: Binary32) -> (r: Binary32)
    ensures
        r == side_fraction(side, global),
{
    if number(EPSILON_BITS).lt(global) {
        side.over(global).clamp_unit()
    } else {
        number(ZERO_BITS)
    }
}

/// What a point contributes to the lock history: nothing unless a lock is
/// confirmed, and otherwise its severity, at least one half.
pub open spec fn history_value(detector: BrakeLimitDetector) -> Binary32 {
    if detector.lock_active {
        detector.output.global_severity.larger(num(HISTORY_FLOOR_BITS))
    } else {
        num(ZERO_BITS)
    }
}

/// The detector inputs of a vehicle.
pub open spec fn wheel_sample(vehicle: VehicleTelemetry) -> WheelSample {
    WheelSample {
        speed_ms: vehicle.speed,
        brake: vehicle.brake,
        slip_fl: wheel_of(vehicle.wheel_slip, 2),
        slip_fr: wheel_of(vehicle.wheel_slip, 3),
        wheel_speed_fl: wheel_of(vehicle.wheel_speed, 2),
        wheel_speed_fr: wheel_of(vehicle.wheel_speed, 3),
    }
}

/// The detector after the first `count` points. The first step takes a
/// sixtieth of a second, each other one the time since the previous point.
pub open spec fn detector_after(
    params: BrakeLimitParams,
    points: Seq<TelemetryPoint>,
    powers: Seq<SeverityPowers>,
    count: nat,
) -> BrakeLimitDetector
    decreases count,
{
    if count == 0 {
        fresh_detector(params)
    } else {
        let last = count - 1;
        let dt = if last == 0 {
            num(ONE_BITS).quotient(num(SIXTY_BITS))
        } else {
            in_seconds(elapsed_between(points[last - 1].captured_at@, points[last].captured_at@))
        };
        detector_after(params, points, powers, last as nat).updated(
            dt,
            wheel_sample(points[last].telemetry),
            powers[last],
        )
    }
}

/// The confirmed-lock history of a window of points: what a fresh detector
/// tells at each of them.
pub open spec fn lock_history(
    params: BrakeLimitParams,
    points: Seq<TelemetryPoint>,
    powers: Seq<SeverityPowers>,
) -> Seq<Binary32> {
    Seq::new(points.len(), |i: int| history_value(detector_after(params, points, powers, (i + 1) as nat)))
}

/// The confirmed-lock history of a window of points, one value for each.
///
/// `powers` holds each sample's [`BrakeLimitParams::severity_bases`], raised to
/// the power `severity_gamma`.
pub fn lock_severity_history(
    params: BrakeLimitParams,
    points: &[TelemetryPoint],
    powers: &[SeverityPowers],
) -> (r: Vec<Binary32>)
    requires
        powers@.len() == points@.len(),
    ensures
        r@ == lock_history(params, points@, powers@),
{
    let mut detector = BrakeLimitDetector::new(params);
    let mut history: Vec<Binary32> = Vec::new();
    let mut i: usize = 0;
    while i < points.len()
        invariant
            i <= points@.len(),
            powers@.len() == points@.len(),
            history@.len() == i,
            detector == detector_after(params, points@, powers@, i as nat),
            forall|j: int|
                0 <= j < i ==> #[trigger] history@[j] == history_value(
                    detector_after(params, points@, powers@, (j + 1) as nat),
                ),
        decreases points@.len() - i,
    {
        let dt = if i == 0 {
            number(ONE_BITS).over(number(SIXTY_BITS))
        } else {
            points[i].captured_at.saturating_duration_since(points[i - 1].captured_at).as_secs_f32()
        };
        let sample = WheelSample::from_vehicle(&points[i].telemetry);
        detector.update(dt, &sample, powers[i]);
        let value = if detector.lock_confirmed() {
            detector.feedback().global_severity.max(number(HISTORY_FLOOR_BITS))
        } else {
            number(ZERO_BITS)
        };
        history.push(value);
        i = i + 1;
    }
    history
}

} // verus!
