use simtrace::binary32::Binary32;
use simtrace::buffer::TelemetryBuffer;
use simtrace::model::{
    DriverAssistStatus, RevLights, SessionInfo, SourceMetadata, TelemetryCapabilities, TelemetryData, TelemetryPoint,
    VehicleTelemetry,
};
use simtrace::time::{later_of, Clock, Duration, Instant};

fn f(x: f32) -> Binary32 {
    Binary32 { bits: x.to_bits() }
}

fn at_millis(millis: u64) -> Instant {
    Instant::at(Duration::from_millis(millis))
}

fn data(throttle: f32) -> TelemetryData {
    TelemetryData {
        timestamp: 0,
        vehicle: VehicleTelemetry { throttle: f(throttle), ..Default::default() },
        session: None,
        source: Default::default(),
    }
}

#[test]
fn test_push_and_get() {
    let mut buffer = TelemetryBuffer::new(Duration::from_secs(10));
    buffer.push(data(0.5));
    assert_eq!(buffer.len(), 1);
    assert_eq!(buffer.get_points()[0].telemetry.throttle, f(0.5));
}

#[test]
fn test_latest() {
    let mut buffer = TelemetryBuffer::new(Duration::from_secs(10));
    assert!(buffer.latest().is_none());
    buffer.push(data(0.0));
    assert!(buffer.latest().is_some());
}

#[test]
fn test_clear_empties_buffer() {
    let mut buffer = TelemetryBuffer::new(Duration::from_secs(10));
    for _ in 0..5 {
        buffer.push(data(0.0));
    }
    assert_eq!(buffer.len(), 5);
    buffer.clear();
    assert_eq!(buffer.len(), 0);
    assert!(buffer.is_empty());
    assert!(buffer.latest().is_none());
}

#[test]
fn test_is_empty_on_new_buffer() {
    let buffer = TelemetryBuffer::new(Duration::from_secs(10));
    assert!(buffer.is_empty());
    assert_eq!(buffer.len(), 0);
}

#[test]
fn test_min_points_preserved_after_window_expires() {
    let mut buffer = TelemetryBuffer::new(Duration::from_millis(50));
    let min_points = 10;

    for _ in 0..(min_points + 5) {
        buffer.push_at(data(0.0), at_millis(0), at_millis(0));
    }
    assert!((min_points..=min_points + 5).contains(&buffer.len()));

    buffer.push_at(data(0.0), at_millis(100), at_millis(100));
    assert!(buffer.len() >= min_points, "expected at least {} points, got {}", min_points, buffer.len());
}

#[test]
fn test_window_pruning_removes_old_points() {
    let mut buffer = TelemetryBuffer::new(Duration::from_millis(50));
    let min_points = 10;

    for _ in 0..(min_points * 3) {
        buffer.push_at(data(0.0), at_millis(0), at_millis(0));
    }
    buffer.push_at(data(0.0), at_millis(100), at_millis(100));
    assert!(buffer.len() <= min_points + 1);
}

#[test]
fn capacity_is_strictly_bounded() {
    let mut buffer = TelemetryBuffer::with_capacity(Duration::from_secs(60), 16);
    for i in 0..100 {
        buffer.push(data(i as f32));
    }
    assert_eq!(buffer.len(), 16);
    assert_eq!(buffer.get_points()[0].telemetry.throttle, f(84.0));
}

#[test]
fn points_outside_the_window_are_stored_but_not_given() {
    let mut buffer = TelemetryBuffer::new(Duration::from_millis(50));
    for i in 0..4 {
        buffer.push_at(data(i as f32), at_millis(40 * i), at_millis(40 * i));
    }
    assert_eq!(buffer.stored_points().len(), 4);
    let shown = buffer.get_points_at(at_millis(130));
    assert_eq!(shown.len(), 2);
    assert_eq!(shown[0].telemetry.throttle, f(2.0));
    assert_eq!(shown[1].telemetry.throttle, f(3.0));
    assert!(buffer.get_points_at(at_millis(1000)).is_empty());
}

#[test]
fn reads_by_the_clock_never_precede_the_newest_capture() {
    let mut buffer = TelemetryBuffer::new(Duration::from_millis(50));
    let hour = 3_600_000;
    for i in 0..4 {
        buffer.push_at(data(i as f32), at_millis(hour + 40 * i), at_millis(hour + 40 * i));
    }
    let shown = buffer.get_points();
    assert_eq!(shown.len(), 2);
    assert_eq!(shown[0].telemetry.throttle, f(2.0));
    let older = buffer.get_points_in_range(Duration::from_millis(60), Duration::from_millis(100));
    assert_eq!(older.len(), 1);
    assert_eq!(older[0].telemetry.throttle, f(1.0));
}

#[test]
fn pushed_points_are_in_the_order_of_capture() {
    let mut buffer = TelemetryBuffer::new(Duration::from_secs(10));
    for i in 0..50 {
        buffer.push(data(i as f32));
    }
    let points = buffer.get_points();
    assert_eq!(points.len(), 50);
    for i in 1..points.len() {
        assert!(!points[i].captured_at.is_before(&points[i - 1].captured_at));
    }
}

#[test]
fn clocks_do_not_run_backwards() {
    let clock = Clock::start();
    let ahead = at_millis(86_400_000);
    assert_eq!(clock.now_after(ahead), ahead);
    assert_eq!(later_of(at_millis(1), at_millis(2)), at_millis(2));
    assert_eq!(later_of(at_millis(2), at_millis(1)), at_millis(2));
}

#[test]
fn buffer_grows_with_its_window() {
    let mut buffer = TelemetryBuffer::new(Duration::from_millis(500));
    for i in 0..200 {
        buffer.push_at(data(i as f32), at_millis(0), at_millis(0));
    }
    assert_eq!(buffer.len(), 120);
    assert_eq!(buffer.window_duration(), Duration::from_millis(500));
    assert_eq!(buffer.latest().map(|point| point.telemetry.throttle), Some(f(199.0)));
}

#[test]
fn buffer_keeps_what_lies_on_the_edge_of_the_window() {
    let mut buffer = TelemetryBuffer::with_capacity(Duration::from_millis(50), 100);
    for i in 0..20 {
        buffer.push_at(data(i as f32), at_millis(0), at_millis(0));
    }
    buffer.push_at(data(20.0), at_millis(50), at_millis(50));
    assert_eq!(buffer.len(), 21);
    buffer.push_at(data(21.0), at_millis(51), at_millis(51));
    assert_eq!(buffer.len(), 10);
    assert_eq!(buffer.latest().map(|point| point.telemetry.throttle), Some(f(21.0)));
}

#[test]
fn buffer_without_room_keeps_nothing() {
    let mut buffer = TelemetryBuffer::with_capacity(Duration::from_secs(1), 0);
    let point = buffer.push(data(0.25));
    assert_eq!(point.telemetry.throttle, f(0.25));
    assert!(buffer.is_empty());
}

#[test]
fn range_selects_points_by_age() {
    let mut buffer = TelemetryBuffer::with_capacity(Duration::from_secs(60), 100);
    for i in 0..5u64 {
        buffer.push_at(data(i as f32), at_millis(100 * i), at_millis(100 * i));
    }
    let found = buffer.get_points_in_range_at(
        Duration::from_millis(100),
        Duration::from_millis(300),
        at_millis(400),
    );
    let throttles: Vec<Binary32> = found.iter().map(|point| point.telemetry.throttle).collect();
    assert_eq!(throttles, vec![f(1.0), f(2.0), f(3.0)]);
    assert!(buffer.get_points_in_range(Duration::from_secs(3600), Duration::from_secs(7200)).is_empty());
}

#[test]
fn default_buffer_spans_ten_seconds() {
    let buffer = TelemetryBuffer::default();
    assert_eq!(buffer.window_duration(), Duration::from_secs(10));
}

#[test]
fn points_carry_abs_and_source() {
    let mut sample = data(0.0);
    sample.vehicle.abs_active = true;
    sample.source.frame_identifier = Some(7);
    let point = TelemetryPoint::new(sample, at_millis(3));
    assert!(point.abs_active);
    assert_eq!(point.source.frame_identifier, Some(7));
    assert_eq!(point.captured_at, at_millis(3));
}

#[test]
fn test_pedal_input_detection() {
    let telemetry = VehicleTelemetry { throttle: f(0.5), brake: f(0.0), ..Default::default() };
    assert!(telemetry.has_pedal_input());

    let telemetry = VehicleTelemetry::default();
    assert!(!telemetry.has_pedal_input());
}

#[test]
fn test_max_pedal() {
    let telemetry = VehicleTelemetry { throttle: f(0.3), brake: f(0.7), ..Default::default() };
    assert_eq!(telemetry.max_pedal(), f(0.7));
}

#[test]
fn unsupported_is_distinct_from_zero() {
    let unsupported = VehicleTelemetry::default();
    let supported_zero = VehicleTelemetry {
        capabilities: TelemetryCapabilities { throttle: true, abs_activity: true, ..Default::default() },
        ..Default::default()
    };
    assert_eq!(unsupported.throttle, supported_zero.throttle);
    assert!(!unsupported.capabilities.throttle);
    assert!(supported_zero.capabilities.throttle);
    assert!(!unsupported.capabilities.abs_activity);
    assert!(supported_zero.capabilities.abs_activity);
}

#[test]
fn unsupported_rev_lights_are_distinct_from_all_off() {
    let unsupported = VehicleTelemetry::default();
    let all_off =
        VehicleTelemetry { rev_lights: Some(RevLights { percent: 0, bit_value: 0 }), ..Default::default() };

    assert_eq!(unsupported.rev_lights, None);
    assert_eq!(all_off.rev_lights, Some(RevLights::default()));
}

#[test]
fn physical_wheel_angle_takes_precedence_over_input() {
    let input_only = VehicleTelemetry { steering_input: f(-2.0), ..Default::default() };
    assert_eq!(input_only.effective_steering_degrees(f(450.0)), f(-450.0));
    let measured = VehicleTelemetry { wheel_angle_degrees: Some(f(12.5)), ..input_only };
    assert_eq!(measured.effective_steering_degrees(f(450.0)), f(12.5));
}

#[test]
fn pedal_input_needs_more_than_a_hundredth() {
    for pedal in [0.0_f32, 0.01] {
        let telemetry = VehicleTelemetry { clutch: f(pedal), ..Default::default() };
        assert!(!telemetry.has_pedal_input());
    }
    for telemetry in [
        VehicleTelemetry { throttle: f(0.011), ..Default::default() },
        VehicleTelemetry { brake: f(0.011), ..Default::default() },
        VehicleTelemetry { clutch: f(0.011), ..Default::default() },
    ] {
        assert!(telemetry.has_pedal_input());
    }
}

#[test]
fn defaults_are_empty() {
    assert_eq!(VehicleTelemetry::new(), VehicleTelemetry::default());
    assert_eq!(SourceMetadata::default().protocol_format, None);
    assert_eq!(DriverAssistStatus::default().abs_enabled, None);
    let session = SessionInfo::default();
    assert_eq!(session.session_number, 0);
    assert_eq!(session.track_name, "");
    assert_eq!(session.track_length, f(0.0));
}

#[test]
fn clock_moves_forward() {
    let clock = Clock::start();
    let first = clock.now();
    let second = clock.now();
    assert!(!second.is_before(&first));
}

#[test]
fn spans_convert_to_seconds() {
    assert_eq!(Duration::from_millis(2500).as_secs_f32(), f(2.5));
    for nanos in [0u64, 1, 16_666_666, 999_999_999, 1_000_000_000, 123_456_789_012] {
        let expected = std::time::Duration::from_nanos(nanos).as_secs_f32();
        assert_eq!(Duration::from_nanos(nanos).as_secs_f32(), f(expected));
    }
    assert_eq!(Duration::from_parts(3, 5).as_nanos(), 3_000_000_005);
    let start = at_millis(10);
    assert_eq!(start.plus(Duration::from_millis(5)), at_millis(15));
    assert_eq!(start.checked_add(Duration::from_millis(5)), Some(at_millis(15)));
    assert_eq!(start.saturating_duration_since(at_millis(15)), Duration::from_millis(0));
    assert_eq!(at_millis(15).saturating_duration_since(start).as_nanos(), 5_000_000);
    assert_eq!(start.as_nanos(), 10_000_000);
}

#[test]
fn capacity_is_calculated_in_double_precision() {
    let mut nanos: Vec<u64> = (0..170).map(|i| i * 12_500_000).collect();
    nanos.extend([1, 999_999_999, 1_000_000_001, 4_166_666, 4_166_667, 123_456_789, 2_345_678_901]);
    for window in nanos {
        let seconds = std::time::Duration::from_nanos(window).as_secs_f64();
        let expected = ((seconds * 240.0).ceil() as usize).max(10);
        let mut buffer = TelemetryBuffer::new(Duration::from_nanos(window));
        for _ in 0..expected + 3 {
            buffer.push_at(data(0.0), at_millis(0), at_millis(0));
        }
        assert_eq!(buffer.len(), expected, "window of {} ns", window);
    }
}
