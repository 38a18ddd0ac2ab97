use simtrace::binary32::Binary32;
use simtrace::model::{TelemetryPoint, VehicleTelemetry};
use simtrace::renderer::brake_limit::{
    lock_severity_history, pulse_envelope, smoothstep, BrakeLimitDetector, BrakeLimitParams, LockState,
    SeverityPowers, WheelSample,
};
use simtrace::time::{Duration, Instant};

fn f(x: f32) -> Binary32 {
    Binary32 { bits: x.to_bits() }
}

fn value(x: Binary32) -> f32 {
    f32::from_bits(x.bits)
}

fn powers_of(params: &BrakeLimitParams, sample: &WheelSample) -> SeverityPowers {
    let bases = params.severity_bases(sample);
    let gamma = value(params.severity_gamma);
    SeverityPowers { fl: f(value(bases.fl).powf(gamma)), fr: f(value(bases.fr).powf(gamma)) }
}

fn step(detector: &mut BrakeLimitDetector, dt: f32, sample: &WheelSample) {
    let powers = powers_of(&detector.params, sample);
    detector.update(f(dt), sample, powers);
}

const DT: f32 = 1.0 / 60.0;

fn healthy() -> WheelSample {
    WheelSample {
        speed_ms: f(200.0 / 3.6),
        brake: f(0.8),
        slip_fl: Some(f(-0.10)),
        slip_fr: Some(f(-0.10)),
        wheel_speed_fl: Some(f((200.0 / 3.6) * 0.98)),
        wheel_speed_fr: Some(f((200.0 / 3.6) * 0.98)),
    }
}

fn run(detector: &mut BrakeLimitDetector, sample: &WheelSample, seconds: f32) {
    let steps = (seconds / DT).ceil() as usize;
    for _ in 0..steps {
        step(detector, DT, sample);
    }
}

fn fl_lock(slip_fr: f32) -> WheelSample {
    WheelSample {
        speed_ms: f(200.0 / 3.6),
        brake: f(0.9),
        slip_fl: Some(f(-1.0)),
        slip_fr: Some(f(slip_fr)),
        wheel_speed_fl: Some(f((200.0 / 3.6) * 0.15)),
        wheel_speed_fr: Some(f((200.0 / 3.6) * 0.95)),
    }
}

fn fr_lock(slip_fl: f32) -> WheelSample {
    WheelSample {
        speed_ms: f(200.0 / 3.6),
        brake: f(0.9),
        slip_fl: Some(f(slip_fl)),
        slip_fr: Some(f(-1.0)),
        wheel_speed_fl: Some(f((200.0 / 3.6) * 0.95)),
        wheel_speed_fr: Some(f((200.0 / 3.6) * 0.15)),
    }
}

fn dual_lock() -> WheelSample {
    WheelSample {
        speed_ms: f(200.0 / 3.6),
        brake: f(1.0),
        slip_fl: Some(f(-1.0)),
        slip_fr: Some(f(-1.0)),
        wheel_speed_fl: Some(f((200.0 / 3.6) * 0.05)),
        wheel_speed_fr: Some(f((200.0 / 3.6) * 0.05)),
    }
}

#[test]
fn healthy_braking_stays_normal() {
    let mut detector = BrakeLimitDetector::default();
    run(&mut detector, &healthy(), 1.0);
    let out = detector.feedback();
    assert_eq!(out.state, LockState::Normal);
    assert!(value(out.global_severity) < 0.05, "sev {}", value(out.global_severity));
    assert_eq!(value(out.pulse), 0.0);
    assert_eq!(value(out.burn), 0.0);
}

#[test]
fn low_speed_deep_slip_is_speed_gated() {
    let mut detector = BrakeLimitDetector::default();
    let sample = WheelSample {
        speed_ms: f(10.0 / 3.6), // below speed_gate_start
        brake: f(1.0),
        slip_fl: Some(f(-1.0)),
        slip_fr: Some(f(-1.0)),
        wheel_speed_fl: Some(f(0.0)),
        wheel_speed_fr: Some(f(0.0)),
    };
    run(&mut detector, &sample, 0.5);
    let out = detector.feedback();
    assert_eq!(out.state, LockState::Normal);
    assert!(value(out.global_severity) < 0.01);
}

#[test]
fn low_brake_slip_is_brake_gated() {
    let mut detector = BrakeLimitDetector::default();
    let sample = WheelSample {
        brake: f(0.05), // below brake_gate_start
        ..dual_lock()
    };
    run(&mut detector, &sample, 0.5);
    let out = detector.feedback();
    assert_eq!(out.state, LockState::Normal);
    assert!(value(out.global_severity) < 0.01);
}

#[test]
fn fl_only_transient_lock() {
    let mut detector = BrakeLimitDetector::default();
    // Baseline healthy frames engage motion tracking, then FL locks.
    run(&mut detector, &healthy(), 0.2);
    run(&mut detector, &fl_lock(-0.10), 0.15);
    let out = detector.feedback();
    assert_eq!(out.state, LockState::TransientLock);
    assert!(value(out.severity_fl) > 0.5, "fl {}", value(out.severity_fl));
    assert!(value(out.severity_fr) < 0.2, "fr {}", value(out.severity_fr));
    assert!(value(out.pulse) > 0.0);
}

#[test]
fn fr_only_transient_lock() {
    let mut detector = BrakeLimitDetector::default();
    run(&mut detector, &healthy(), 0.2);
    run(&mut detector, &fr_lock(-0.10), 0.15);
    let out = detector.feedback();
    assert_eq!(out.state, LockState::TransientLock);
    assert!(value(out.severity_fr) > 0.5);
    assert!(value(out.severity_fl) < 0.2);
    assert!(value(out.balance) < 0.0);
}

#[test]
fn dual_front_sustained_lock() {
    let mut detector = BrakeLimitDetector::default();
    run(&mut detector, &healthy(), 0.2);
    run(&mut detector, &dual_lock(), 0.6);
    let out = detector.feedback();
    assert_eq!(out.state, LockState::SustainedLock);
    assert!(value(out.burn) > 0.0);
    assert!(value(out.global_severity) > 0.8);
}

#[test]
fn transient_does_not_jump_straight_to_sustained() {
    let mut detector = BrakeLimitDetector::default();
    run(&mut detector, &healthy(), 0.2);
    run(&mut detector, &dual_lock(), 0.15); // > attack, < sustained
    assert_eq!(detector.state(), LockState::TransientLock);
}

#[test]
fn sustained_release_enters_recovery_then_normal() {
    let mut detector = BrakeLimitDetector::default();
    run(&mut detector, &healthy(), 0.2);
    run(&mut detector, &dual_lock(), 0.6);
    assert_eq!(detector.state(), LockState::SustainedLock);
    // Release and observe the short recovery tail.
    step(&mut detector, DT, &healthy());
    assert_eq!(detector.state(), LockState::Recovery);
    run(&mut detector, &healthy(), 0.3);
    assert!(matches!(
        detector.state(),
        LockState::Normal | LockState::Approaching
    ));
}

#[test]
fn approaching_hysteresis_avoids_flicker() {
    let mut detector = BrakeLimitDetector::default();
    let mut sample = healthy();
    sample.slip_fl = Some(f(-0.16)); // just over enter
    sample.slip_fr = Some(f(-0.16));
    run(&mut detector, &sample, 0.05);
    assert_eq!(detector.state(), LockState::Approaching);

    // Dip below enter but above exit: must stay approaching.
    sample.slip_fl = Some(f(-0.12));
    sample.slip_fr = Some(f(-0.12));
    run(&mut detector, &sample, 0.05);
    assert_eq!(detector.state(), LockState::Approaching);

    // Drop below exit: returns to normal.
    sample.slip_fl = Some(f(-0.08));
    sample.slip_fr = Some(f(-0.08));
    run(&mut detector, &sample, 0.05);
    assert_eq!(detector.state(), LockState::Normal);
}

#[test]
fn missing_wheel_data_does_not_trigger_lock() {
    let mut detector = BrakeLimitDetector::default();
    let sample = WheelSample {
        speed_ms: f(200.0 / 3.6),
        brake: f(1.0),
        slip_fl: None,
        slip_fr: None,
        wheel_speed_fl: None,
        wheel_speed_fr: None,
    };
    run(&mut detector, &sample, 0.5);
    assert_eq!(detector.state(), LockState::Normal);
    assert_eq!(value(detector.feedback().global_severity), 0.0);
}

#[test]
fn approaching_does_not_emit_cyan_lock() {
    let mut detector = BrakeLimitDetector::default();
    let mut sample = healthy();
    sample.slip_fl = Some(f(-0.17));
    sample.slip_fr = Some(f(-0.17));
    run(&mut detector, &sample, 0.15);
    let out = detector.feedback();
    assert_eq!(out.state, LockState::Approaching);
    assert!(!out.lock_confirmed);
    assert_eq!(value(out.lock_fl), 0.0);
    assert_eq!(value(out.lock_fr), 0.0);
    assert!(value(out.approach_mix) > 0.0 && value(out.approach_mix) <= 0.35);
}

#[test]
fn fl_only_lock_emphasises_left_only() {
    let mut detector = BrakeLimitDetector::default();
    run(&mut detector, &healthy(), 0.2);
    run(&mut detector, &fl_lock(-0.10), 0.15);
    let out = detector.feedback();
    assert!(out.lock_confirmed);
    assert!(value(out.lock_fl) > 0.2, "lock_fl {}", value(out.lock_fl));
    assert!(value(out.lock_fr) < 0.05, "lock_fr {}", value(out.lock_fr));
    assert!(value(out.lock_fl) > value(out.lock_fr));
}

#[test]
fn fr_only_lock_emphasises_right_only() {
    let mut detector = BrakeLimitDetector::default();
    run(&mut detector, &healthy(), 0.2);
    run(&mut detector, &fr_lock(-0.10), 0.15);
    let out = detector.feedback();
    assert!(value(out.lock_fr) > 0.2);
    assert!(value(out.lock_fl) < 0.05);
    assert!(value(out.lock_fr) > value(out.lock_fl));
}

#[test]
fn dual_lock_lights_both_sides() {
    let mut detector = BrakeLimitDetector::default();
    run(&mut detector, &healthy(), 0.2);
    run(&mut detector, &dual_lock(), 0.6);
    let out = detector.feedback();
    assert!(value(out.lock_fl) > 0.2);
    assert!(value(out.lock_fr) > 0.2);
}

#[test]
fn transient_pulses_once_then_decays() {
    let mut detector = BrakeLimitDetector::default();
    run(&mut detector, &healthy(), 0.2);
    let sample = fl_lock(-0.10);
    let mut peak = 0.0_f32;
    let steps = (0.25 / DT).ceil() as usize;
    for _ in 0..steps {
        step(&mut detector, DT, &sample);
        peak = peak.max(value(detector.feedback().pulse));
    }
    assert!(peak > 0.3, "pulse peak {peak}");
    // Later in the same transient episode the pulse is decaying rather than
    // re-firing.
    let tail = value(detector.feedback().pulse);
    assert!(tail < peak, "pulse tail {tail} peak {peak}");
    assert_eq!(detector.state(), LockState::TransientLock);
}

#[test]
fn sustained_does_not_repeat_pulse() {
    let mut detector = BrakeLimitDetector::default();
    run(&mut detector, &healthy(), 0.2);
    run(&mut detector, &dual_lock(), 0.6);
    let out = detector.feedback();
    assert_eq!(out.state, LockState::SustainedLock);
    assert_eq!(value(out.pulse), 0.0);
    assert!(value(out.burn) > 0.0);
}

#[test]
fn recovery_then_relock_pulses_again() {
    let mut detector = BrakeLimitDetector::default();
    run(&mut detector, &healthy(), 0.2);
    run(&mut detector, &fl_lock(-0.10), 0.15);
    assert!(value(detector.feedback().pulse) > 0.0);
    // Release into recovery / normal.
    run(&mut detector, &healthy(), 0.4);
    // Re-lock: a new episode must pulse again.
    run(&mut detector, &fl_lock(-0.10), 0.1);
    assert!(value(detector.feedback().pulse) > 0.0);
    assert!(detector.feedback().lock_confirmed);
}

fn history_point(index: u64, brake: f32, slip_fl: f32, slip_fr: f32, wheel_ratio: f32) -> TelemetryPoint {
    let speed = 200.0 / 3.6;
    let mut vehicle = VehicleTelemetry {
        speed: f(speed),
        brake: f(brake),
        wheel_slip: Some([f(0.0), f(0.0), f(slip_fl), f(slip_fr)]),
        wheel_speed: Some([f(speed), f(speed), f(speed * wheel_ratio), f(speed * wheel_ratio)]),
        ..Default::default()
    };
    vehicle.capabilities.wheel_slip = true;
    vehicle.capabilities.wheel_speed = true;
    TelemetryPoint {
        captured_at: Instant::at(Duration::from_millis(1000 + 16 * index)),
        telemetry: vehicle,
        abs_active: false,
        source: Default::default(),
    }
}

fn history_of(points: &[TelemetryPoint]) -> Vec<f32> {
    let params = BrakeLimitParams::default();
    let powers: Vec<SeverityPowers> =
        points.iter().map(|point| powers_of(&params, &WheelSample::from_vehicle(&point.telemetry))).collect();
    lock_severity_history(params, points, &powers).into_iter().map(value).collect()
}

#[test]
fn lock_history_records_confirmed_lock_only() {
    let mut points = Vec::new();
    for index in 0..30 {
        points.push(history_point(index, 0.8, -0.10, -0.10, 0.98));
    }
    for index in 30..50 {
        points.push(history_point(index, 1.0, -1.0, -1.0, 0.05));
    }
    for index in 50..70 {
        points.push(history_point(index, 0.8, -0.10, -0.10, 0.98));
    }
    let history = history_of(&points);
    assert_eq!(history.len(), points.len());
    assert!(history[..30].iter().all(|value| *value == 0.0));
    assert!(history[35..50].iter().any(|value| *value > 0.0));
    // Regain grip: the tail must return to non-lock.
    assert!(history[65..].iter().all(|value| *value == 0.0));
}

#[test]
fn lock_grip_relock_produces_two_separate_regions() {
    let mut points = Vec::new();
    for index in 0..20 {
        points.push(history_point(index, 0.8, -0.10, -0.10, 0.98));
    }
    for index in 20..32 {
        points.push(history_point(index, 1.0, -1.0, -1.0, 0.05));
    }
    for index in 32..60 {
        points.push(history_point(index, 0.8, -0.10, -0.10, 0.98));
    }
    for index in 60..72 {
        points.push(history_point(index, 1.0, -1.0, -1.0, 0.05));
    }
    for index in 72..90 {
        points.push(history_point(index, 0.8, -0.10, -0.10, 0.98));
    }
    let history = history_of(&points);
    let mut regions = 0;
    let mut in_lock = false;
    for value in &history {
        let locked = *value > 0.0;
        if locked && !in_lock {
            regions += 1;
        }
        in_lock = locked;
    }
    assert_eq!(regions, 2, "expected two lock regions");
}

#[test]
fn visual_baselines_match_art_pass() {
    let params = BrakeLimitParams::default();
    assert!((value(params.warning_mix) - 0.20).abs() < 1e-6);
    assert!((value(params.lock_projection_alpha) - 0.30).abs() < 1e-6);
    assert!((value(params.lock_cyan_strength) - 1.4).abs() < 1e-6);
}

#[test]
fn confirmed_lock_cyan_dominates_normal_red() {
    let mut detector = BrakeLimitDetector::default();
    run(&mut detector, &healthy(), 0.2);
    // Healthy braking produces no cyan at all.
    assert_eq!(value(detector.feedback().lock_fl), 0.0);
    assert_eq!(value(detector.feedback().lock_fr), 0.0);
    run(&mut detector, &dual_lock(), 0.6);
    let out = detector.feedback();
    assert!(
        value(out.lock_fl) > 0.7 && value(out.lock_fr) > 0.7,
        "cyan dominance too low: L {} R {}",
        value(out.lock_fl),
        value(out.lock_fr)
    );
}

#[test]
fn recovery_returns_full_red_without_cyan() {
    let mut detector = BrakeLimitDetector::default();
    run(&mut detector, &healthy(), 0.2);
    run(&mut detector, &dual_lock(), 0.6);
    run(&mut detector, &healthy(), 0.4);
    let out = detector.feedback();
    assert_eq!(value(out.lock_fl), 0.0);
    assert_eq!(value(out.lock_fr), 0.0);
}

#[test]
fn states_have_names() {
    for (state, name) in [
        (LockState::Normal, "Normal"),
        (LockState::Approaching, "Approaching"),
        (LockState::TransientLock, "Transient Lock"),
        (LockState::SustainedLock, "Sustained Lock"),
        (LockState::Recovery, "Recovery"),
    ] {
        assert_eq!(state.label(), name);
    }
    assert_eq!(LockState::default(), LockState::Normal);
}

#[test]
fn samples_take_the_front_wheels() {
    let vehicle = VehicleTelemetry {
        speed: f(50.0),
        brake: f(0.4),
        wheel_slip: Some([f(1.0), f(2.0), f(3.0), f(4.0)]),
        ..Default::default()
    };
    let sample = WheelSample::from_vehicle(&vehicle);
    assert_eq!(sample.slip_fl, Some(f(3.0)));
    assert_eq!(sample.slip_fr, Some(f(4.0)));
    assert_eq!(sample.wheel_speed_fl, None);
    assert_eq!(sample.speed_ms, f(50.0));
}

#[test]
fn smoothstep_rises_between_its_edges() {
    let at = |x: f32| value(smoothstep(f(1.0), f(3.0), f(x)));
    assert_eq!(at(0.0), 0.0);
    assert_eq!(at(1.0), 0.0);
    assert_eq!(at(2.0), 0.5);
    assert_eq!(at(3.0), 1.0);
    assert_eq!(at(9.0), 1.0);
    assert_eq!(value(smoothstep(f(2.0), f(2.0), f(1.9))), 0.0);
    assert_eq!(value(smoothstep(f(2.0), f(2.0), f(2.0))), 1.0);
}

#[test]
fn pulse_rises_holds_and_falls() {
    let at = |x: f32| value(pulse_envelope(f(x)));
    assert_eq!(at(-0.1), 0.0);
    assert_eq!(at(0.0), 0.0);
    assert!(at(0.02) > 0.0 && at(0.02) < 1.0);
    assert_eq!(at(0.08), 1.0);
    assert!(at(0.15) < 1.0 && at(0.15) > 0.0);
    assert_eq!(at(1.0), 0.0);
}

#[test]
fn parameters_can_be_changed() {
    let mut detector = BrakeLimitDetector::default();
    let params = BrakeLimitParams { slip_warn_start: f(0.9), ..BrakeLimitParams::default() };
    detector.set_params(params);
    assert_eq!(detector.params, params);
    assert_eq!(value(params.slip_warn_exit()), 0.9_f32 * 0.73);
    assert_eq!(value(params.slip_lock_exit()), 0.45_f32 * 0.67);
    let other = BrakeLimitDetector::new(params);
    assert!(!other.lock_confirmed());
    assert_eq!(other.state(), LockState::Normal);
}

#[test]
fn history_starts_with_a_sixtieth_of_a_second() {
    let locked = history_point(0, 1.0, -1.0, -1.0, 0.05);
    assert_eq!(history_of(&[locked]), vec![0.0]);
    assert!(history_of(&[]).is_empty());
}

#[test]
fn exchanged_wheels_mirror_the_report() {
    let mut left = BrakeLimitDetector::default();
    let mut right = BrakeLimitDetector::default();
    for i in 0..90 {
        let sample = if i % 30 < 20 {
            fl_lock(-0.3)
        } else {
            healthy()
        };
        let exchanged = WheelSample {
            slip_fl: sample.slip_fr,
            slip_fr: sample.slip_fl,
            wheel_speed_fl: sample.wheel_speed_fr,
            wheel_speed_fr: sample.wheel_speed_fl,
            ..sample
        };
        step(&mut left, DT, &sample);
        step(&mut right, DT, &exchanged);
        let (a, b) = (left.feedback(), right.feedback());
        assert_eq!(a.state, b.state);
        assert_eq!(a.lock_confirmed, b.lock_confirmed);
        assert_eq!(a.severity_fl, b.severity_fr);
        assert_eq!(a.severity_fr, b.severity_fl);
        assert_eq!(a.lock_fl, b.lock_fr);
        assert_eq!(a.lock_fr, b.lock_fl);
        assert_eq!(value(a.balance), -value(b.balance));
        assert_eq!(a.global_severity, b.global_severity);
        assert_eq!(a.pulse, b.pulse);
        assert_eq!(a.color_mix, b.color_mix);
        assert!(a.lock_confirmed || value(a.lock_duration_ms) == 0.0);
    }
}

#[test]
fn later_samples_do_not_change_the_history() {
    let points: Vec<TelemetryPoint> = (0..60)
        .map(|i| if i % 30 < 18 { history_point(i, 0.9, -1.0, -1.0, 0.1) } else { history_point(i, 0.9, -0.05, -0.05, 0.99) })
        .collect();
    let whole = history_of(&points);
    assert!(whole.iter().any(|value| *value > 0.0));
    for count in [0, 1, 17, 31, 60] {
        assert_eq!(history_of(&points[..count]), whole[..count].to_vec());
    }
    for value in whole {
        assert!(value == 0.0 || (0.5..=1.0).contains(&value));
    }
}
