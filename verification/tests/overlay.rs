use simtrace::binary32::Binary32;
use simtrace::buffer::TelemetryBuffer;
use simtrace::model::{TelemetryCapabilities, TelemetryData, TelemetryPoint, VehicleTelemetry};
use simtrace::plugins::{f1_game_config, CollectorSettings};
use simtrace::renderer::classic::{
    bar_text, brake_color, classic_gear_text, classic_readout, classic_speed, pedal_bars, throttle_color, wheel_texts,
    BarColors, BarSettings, ClassicLayout,
};
use simtrace::renderer::color::{rgb, Color};
use simtrace::renderer::config_panel::{
    color_code_text, comparison_label, panel_sections, phase_plot_label, reference_status, run_label, save_note,
    ConnectionStatus,
};
use simtrace::renderer::geometry::{Pos2, Rect, Vec2};
use simtrace::renderer::overlay::{
    is_live, overlay_alpha, poller_action, resized, scaled_alpha, shows_f1_hud, shows_live, take_snapshot, Overlay,
    OverlayGeometry, OverlayPanels, PollerAction, RuntimeCounters, UiLayoutMode, VisualizationGate,
    VISUALIZATION_INTERVAL_NANOS,
};
use simtrace::renderer::shapes::Shape;
use simtrace::renderer::stadium::{stadium_angles, stadium_path, StadiumArcs};
use simtrace::renderer::track_strip::{column_peaks, columns_fit, LapPoint, StripChannel, StripStyle, TrackStripCache};
use simtrace::renderer::window::{brand, drags_window, WindowLayout};
use simtrace::time::{Duration, Instant};

fn f(x: f32) -> Binary32 {
    Binary32 { bits: x.to_bits() }
}

fn value(x: Binary32) -> f32 {
    f32::from_bits(x.bits)
}

fn at_nanos(nanos: u64) -> Instant {
    Instant::at(Duration::from_nanos(nanos))
}

fn at_millis(millis: u64) -> Instant {
    Instant::at(Duration::from_millis(millis))
}

fn pos(x: f32, y: f32) -> Pos2 {
    Pos2 { x: f(x), y: f(y) }
}

fn rect(x0: f32, y0: f32, x1: f32, y1: f32) -> Rect {
    Rect { min: pos(x0, y0), max: pos(x1, y1) }
}

fn point(throttle: f32, brake: f32, millis: u64) -> TelemetryPoint {
    let data = TelemetryData {
        timestamp: 0,
        vehicle: VehicleTelemetry { throttle: f(throttle), brake: f(brake), ..Default::default() },
        session: None,
        source: Default::default(),
    };
    TelemetryPoint::new(data, at_millis(millis))
}

#[test]
fn visualization_gate_never_runs_twice_inside_interval() {
    let start = 1_000_000_000;
    let mut gate = VisualizationGate::new(at_nanos(start));

    assert!(gate.take_due(at_nanos(start)));
    assert!(!gate.take_due(at_nanos(start + VISUALIZATION_INTERVAL_NANOS / 2)));
    assert!(gate.take_due(at_nanos(start + VISUALIZATION_INTERVAL_NANOS)));
}

#[test]
fn late_visualization_does_not_schedule_catch_up_bursts() {
    let start = 1_000_000_000;
    let mut gate = VisualizationGate::new(at_nanos(start));
    assert!(gate.take_due(at_nanos(start)));

    let late = start + VISUALIZATION_INTERVAL_NANOS * 5;
    assert!(gate.take_due(at_nanos(late)));
    assert!(!gate.take_due(at_nanos(late + 1_000_000)));
}

#[test]
fn refreshes_run_at_sixty_hertz() {
    assert_eq!(VISUALIZATION_INTERVAL_NANOS, 1_000_000_000 / 60);
    let mut gate = VisualizationGate::new(at_nanos(0));
    assert!(gate.take_due(at_nanos(0)));
    assert_eq!(gate.remaining(at_nanos(6_666_666)).as_nanos(), 10_000_000);
    assert_eq!(gate.remaining(at_nanos(20_000_000)).as_nanos(), 0);
}

#[test]
fn snapshot_shows_the_window_while_running() {
    let mut buffer = TelemetryBuffer::with_capacity(Duration::from_secs(60), 100);
    for i in 0..5u64 {
        let p = point(i as f32, 0.0, 100 * i);
        let data = TelemetryData { timestamp: 0, vehicle: p.telemetry, session: None, source: p.source };
        buffer.push_at(data, p.captured_at, p.captured_at);
    }
    let now = at_millis(400);
    let snapshot = take_snapshot(&buffer, true, now, Duration::from_millis(200));
    assert_eq!(snapshot.latest, Some(point(4.0, 0.0, 400)));
    assert_eq!(snapshot.points, vec![point(2.0, 0.0, 200), point(3.0, 0.0, 300), point(4.0, 0.0, 400)]);
    let stopped = take_snapshot(&buffer, false, now, Duration::from_millis(200));
    assert_eq!(stopped.latest, None);
    assert!(stopped.points.is_empty());
}

#[test]
fn points_are_live_for_two_seconds() {
    let latest = Some(point(0.0, 0.0, 1000));
    assert!(is_live(&latest, at_millis(3000)));
    assert!(shows_live(&latest, at_millis(3000)));
    assert!(!is_live(&latest, at_millis(3001)));
    assert!(!shows_live(&latest, at_millis(3001)));
    assert!(!is_live(&None, at_millis(0)));
    assert!(!shows_live(&None, at_millis(0)));
}

fn settings(plugin: &str) -> CollectorSettings {
    CollectorSettings { plugin: plugin.to_owned(), f1_bind_address: " 127.0.0.1 ".to_owned(), f1_udp_port: 20777 }
}

fn geometry() -> OverlayGeometry {
    OverlayGeometry { width: f(600.0), height: f(200.0), position_x: f(10.0), position_y: f(20.0) }
}

fn overlay() -> Overlay {
    Overlay::new(&settings("f1"), Some(f1_game_config()), geometry(), at_millis(1000))
}

#[test]
fn poller_follows_the_run_switch() {
    assert_eq!(poller_action(true, false), PollerAction::Start);
    assert_eq!(poller_action(false, true), PollerAction::Stop);
    assert_eq!(poller_action(true, true), PollerAction::Keep);
    assert_eq!(poller_action(false, false), PollerAction::Keep);

    let mut overlay = overlay();
    assert!(overlay.can_count());
    let plan = overlay.begin_update(at_millis(1000), None, None, &settings("f1"), Some(f1_game_config()));
    assert_eq!(plan.poller, PollerAction::Start);
    assert!(!plan.activate);
    assert!(plan.refresh);
    assert!(overlay.polling);
    overlay.running = false;
    overlay.current_steering = f(3.0);
    let plan = overlay.begin_update(at_millis(1001), None, None, &settings("f1"), Some(f1_game_config()));
    assert_eq!(plan.poller, PollerAction::Stop);
    assert!(!plan.refresh);
    assert_eq!(plan.frame_step, f(0.001));
    assert_eq!(overlay.current_steering, f(0.0));
    assert_eq!(overlay.counters.ui_updates, 2);
    assert_eq!(overlay.counters.visualization_work, 1);
}

#[test]
fn another_provider_is_activated_once() {
    let mut overlay = overlay();
    assert_eq!(overlay.max_steering_angle, f(180.0));
    let plan = overlay.begin_update(at_millis(1000), None, None, &settings("mock"), None);
    assert!(plan.activate);
    assert_eq!(overlay.max_steering_angle, f(450.0));
    assert_eq!(overlay.active_plugin, "mock");
    let plan = overlay.begin_update(at_millis(9000), None, None, &settings("mock"), None);
    assert!(!plan.activate);
    assert_eq!(plan.frame_step, f(0.25));
    let mut other_port = settings("mock");
    other_port.f1_udp_port = 20778;
    assert!(overlay.begin_update(at_millis(9001), None, None, &other_port, None).activate);
    assert_eq!(overlay.active_provider_config.f1_udp_port, 20778);
    assert_eq!(overlay.active_provider_config.f1_bind_address, "127.0.0.1");
}

#[test]
fn minimized_overlay_keeps_its_height() {
    let mut overlay = overlay();
    overlay.panels.config_open = true;
    let geometry = overlay.geometry;
    assert_eq!(overlay.panels.toggle_minimized(&geometry), (f(600.0), f(30.0)));
    assert_eq!(overlay.panels, OverlayPanels { minimized: true, config_open: false });
    let inner = Some((f(500.0), f(30.0)));
    overlay.begin_update(at_millis(1000), inner, Some((f(1.0), f(2.0))), &settings("f1"), None);
    assert_eq!(
        overlay.geometry,
        OverlayGeometry { width: f(500.0), height: f(200.0), position_x: f(1.0), position_y: f(2.0) }
    );
    let geometry = overlay.geometry;
    assert_eq!(overlay.panels.toggle_minimized(&geometry), (f(500.0), f(200.0)));
    overlay.panels.toggle_config();
    assert!(overlay.panels.config_open);
}

#[test]
fn bar_fades_toward_its_target() {
    let mut overlay = overlay();
    assert_eq!(overlay.bar_exponent(false, f(0.1)), f(-5.0 * 0.1));
    let changing = overlay.fade_bar(false, f(0.5));
    assert!(changing);
    assert_eq!(overlay.bar_alpha, f(0.5));
    assert_eq!(overlay.bar_exponent(true, f(0.1)), f(-16.0 * 0.1));
    assert!(!overlay.fade_bar(true, f(0.0)));
    assert_eq!(overlay.bar_alpha, f(1.0));
    assert_eq!(overlay_alpha(f(0.5)), 127);
    assert_eq!(overlay_alpha(f(2.0)), 255);
    assert_eq!(scaled_alpha(200, f(0.5)), 100);
    assert_eq!(scaled_alpha(200, f(-1.0)), 0);
}

#[test]
fn repaints_follow_what_moves() {
    let mut overlay = overlay();
    overlay.begin_update(at_millis(1000), None, None, &settings("f1"), None);
    assert_eq!(overlay.repaint_after(false, at_millis(1000)), Some(Duration::from_millis(250)));
    assert_eq!(
        overlay.repaint_after(true, at_millis(1000)),
        Some(Duration::from_nanos(VISUALIZATION_INTERVAL_NANOS))
    );
    let mut buffer = TelemetryBuffer::new(Duration::from_secs(10));
    let p = point(0.0, 0.0, 1000);
    let data = TelemetryData { timestamp: 0, vehicle: p.telemetry, session: None, source: p.source };
    buffer.push_at(data, p.captured_at, p.captured_at);
    overlay.refresh(&buffer, at_millis(1000), Duration::from_secs(10));
    assert_eq!(overlay.snapshot.points.len(), 1);
    assert_eq!(
        overlay.repaint_after(false, at_millis(1001)),
        Some(Duration::from_nanos(VISUALIZATION_INTERVAL_NANOS - 1_000_000))
    );
    overlay.running = false;
    assert_eq!(overlay.repaint_after(false, at_millis(1001)), None);
}

#[test]
fn steering_is_refreshed_from_the_latest_point() {
    let mut overlay = overlay();
    let mut buffer = TelemetryBuffer::new(Duration::from_secs(10));
    let vehicle = VehicleTelemetry { steering_input: f(0.5), ..Default::default() };
    let data = TelemetryData { timestamp: 0, vehicle, session: None, source: Default::default() };
    buffer.push_at(data, at_millis(1000), at_millis(1000));
    overlay.refresh(&buffer, at_millis(1000), Duration::from_secs(10));
    assert_eq!(overlay.current_steering, f(90.0));
}

#[test]
fn counters_are_reported_every_thirty_seconds() {
    let mut counters = RuntimeCounters::new(at_millis(0));
    counters.count(true);
    counters.count(false);
    assert_eq!(counters.take_report(at_millis(29_999), at_millis(29_999)), None);
    let report = counters.take_report(at_millis(30_000), at_millis(30_001)).unwrap();
    assert_eq!(report.ui_updates, 2);
    assert_eq!(report.visualization_work, 1);
    assert_eq!(report.interval, Duration::from_secs(30));
    assert_eq!(counters, RuntimeCounters::new(at_millis(30_001)));
}

#[test]
fn resizing_respects_the_smallest_size() {
    assert_eq!(resized(f(400.0), f(200.0), f(-50.0), f(10.0)), (f(350.0), f(210.0)));
    assert_eq!(resized(f(400.0), f(200.0), f(-500.0), f(-500.0)), (f(300.0), f(130.0)));
}

#[test]
fn f1_display_needs_the_f1_provider() {
    assert!(shows_f1_hud(UiLayoutMode::F1OpenHudBeta, true));
    assert!(!shows_f1_hud(UiLayoutMode::F1OpenHudBeta, false));
    assert!(!shows_f1_hud(UiLayoutMode::Classic, true));
}

#[test]
fn panel_states_its_connection() {
    assert_eq!(ConnectionStatus::of(false, true).text(), "STOPPED");
    assert_eq!(ConnectionStatus::of(true, true).text(), "LIVE");
    assert_eq!(ConnectionStatus::of(true, false).text(), "CONNECTING");
    assert_eq!(ConnectionStatus::Live.color(), rgb(60, 200, 80));
    assert_eq!(run_label(true), "■  Stop");
    assert_eq!(run_label(false), "▶  Start");
    assert_eq!(phase_plot_label(true), "Hide phase plot");
    assert_eq!(phase_plot_label(false), "Show phase plot");
    assert_eq!(comparison_label(true), "Hide comparison");
    assert_eq!(comparison_label(false), "Show comparison");
    assert_eq!(reference_status(Some(1234)), "Ref: 1234 pts");
    assert_eq!(reference_status(None), "No reference lap");
    assert!(panel_sections("f1_25", false).f1_connection);
    assert!(!panel_sections("ams2", true).f1_display);
    assert!(panel_sections("ams2", true).trail_braking);
}

#[test]
fn save_note_fades_and_goes() {
    let mut saved = Some(at_millis(1000));
    assert_eq!(save_note(&mut saved, at_millis(1000)), Some(255));
    assert_eq!(save_note(&mut saved, at_millis(2500)), Some(255));
    assert_eq!(save_note(&mut saved, at_millis(2750)), Some(127));
    assert!(saved.is_some());
    assert_eq!(save_note(&mut saved, at_millis(3000)), None);
    assert!(saved.is_none());
    assert_eq!(save_note(&mut saved, at_millis(3000)), None);
}

#[test]
fn color_codes_are_hexadecimal() {
    assert_eq!(color_code_text(255, 0, 171), "#FF00AB");
    for value in 0..=255_u8 {
        assert_eq!(color_code_text(value, 9, 10), format!("#{:02X}090A", value));
    }
}

fn bar_settings() -> BarSettings {
    BarSettings {
        show_abs: true,
        show_abs_cornering: true,
        show_trail_brake: true,
        show_tc: true,
        trail_brake_threshold: f(5.0),
    }
}

fn bar_colors() -> BarColors {
    BarColors {
        brake: rgb(1, 0, 0),
        abs_active: rgb(2, 0, 0),
        abs_cornering: rgb(3, 0, 0),
        trail_brake: rgb(4, 0, 0),
        throttle: rgb(5, 0, 0),
        tc_active: rgb(6, 0, 0),
        clutch: rgb(7, 0, 0),
    }
}

#[test]
fn brake_bar_colour_follows_what_the_car_does() {
    let colors = bar_colors();
    let all = bar_settings();
    let color = |brake: f32, abs: bool, steering: f32, settings: &BarSettings| {
        brake_color(f(brake), abs, f(steering), settings, &colors).r
    };
    assert_eq!(color(0.0, true, 10.0, &all), 1);
    assert_eq!(color(0.5, true, -10.0, &all), 3);
    assert_eq!(color(0.5, true, 1.0, &all), 2);
    assert_eq!(color(0.5, false, 10.0, &all), 4);
    assert_eq!(color(0.5, false, 5.0, &all), 1);
    let plain = BarSettings { show_abs_cornering: false, show_trail_brake: false, ..all };
    assert_eq!(color(0.5, true, 10.0, &plain), 2);
    assert_eq!(color(0.5, false, 10.0, &plain), 1);
    let no_abs = BarSettings { show_abs: false, ..all };
    assert_eq!(color(0.5, true, 10.0, &no_abs), 4);
    assert_eq!(throttle_color(true, &all, &colors).r, 6);
    assert_eq!(throttle_color(true, &BarSettings { show_tc: false, ..all }, &colors).r, 5);
    assert_eq!(throttle_color(false, &all, &colors).r, 5);
}

#[test]
fn classic_readout_shows_only_reported_activity() {
    let mut p = point(0.5, 0.25, 0);
    p.abs_active = true;
    p.telemetry.tc_active = true;
    let readout = classic_readout(&Some(p));
    assert!(!readout.abs_on);
    assert!(!readout.tc_on);
    assert_eq!(readout.brake, f(0.25));
    p.telemetry.capabilities = TelemetryCapabilities { abs_activity: true, tc_activity: true, ..Default::default() };
    let readout = classic_readout(&Some(p));
    assert!(readout.abs_on);
    assert!(readout.tc_on);
    let nothing = classic_readout(&None);
    assert_eq!(nothing.gear, 0);
    assert_eq!(nothing.throttle, f(0.0));
}

#[test]
fn classic_texts_show_a_dash_without_support() {
    assert_eq!(classic_gear_text(true, -1), "R");
    assert_eq!(classic_gear_text(true, 0), "N");
    assert_eq!(classic_gear_text(true, 8), "8");
    assert_eq!(classic_gear_text(false, 8), "—");
    assert_eq!(classic_speed(true, f(50.0), false), ("180".to_owned(), "kph"));
    assert_eq!(classic_speed(true, f(50.0), true), ("112".to_owned(), "mph"));
    assert_eq!(classic_speed(false, f(50.0), true), ("—".to_owned(), "mph"));
    assert_eq!(bar_text(true, f(0.426)), "43%");
    assert_eq!(bar_text(false, f(0.426)), "—");
}

#[test]
fn classic_layout_divides_the_width() {
    let layout = ClassicLayout::new(rect(0.0, 0.0, 600.0, 150.0), f(75.0), true);
    assert_eq!(layout.content_height, f(137.0));
    assert_eq!(layout.bar_width, f(22.0));
    assert_eq!(layout.bars_column, f(74.0));
    assert_eq!(layout.wheel_column, f(146.0));
    assert_eq!(layout.graph, rect(0.0, 0.0, 364.0, 137.0));
    assert_eq!(layout.strip, rect(0.0, 140.0, 600.0, 150.0));
    assert_eq!(value(layout.wheel_radius), 146.0_f32 / 2.0 * 0.82);
    let narrow = ClassicLayout::new(rect(0.0, 0.0, 100.0, 40.0), f(20.0), false);
    assert_eq!(narrow.bar_width, f(12.0));
    assert_eq!(narrow.graph.max.x, f(40.0));
}

#[test]
fn pedal_bars_stand_side_by_side() {
    let mut p = point(1.0, 0.001, 0);
    p.telemetry.capabilities = TelemetryCapabilities { throttle: true, brake: true, ..Default::default() };
    let readout = classic_readout(&Some(p));
    let bars = pedal_bars(
        rect(0.0, 0.0, 74.0, 122.0),
        f(22.0),
        &readout,
        f(0.0),
        &bar_settings(),
        &bar_colors(),
        255,
    );
    assert_eq!(bars[0].fill, None);
    assert_eq!(bars[1].fill, None);
    assert_eq!(bars[2].fill, Some(rect(52.0, 18.0, 74.0, 118.0)));
    assert_eq!(bars[2].outline, rect(52.0, 18.0, 74.0, 118.0));
    assert_eq!(bars[1].percent_place, pos(37.0, 8.0));
    assert_eq!(bars[1].name_place, pos(37.0, 111.0));
    assert_eq!(bars[0].tick, (pos(0.0, 68.0), pos(22.0 * 0.4, 68.0)));
    assert_eq!(bars[2].fill_color, rgb(5, 0, 0));
    let texts = wheel_texts(pos(100.0, 60.0), f(50.0));
    assert_eq!(texts.speed.y, f(60.0 + 50.0 * 0.42));
    assert_eq!(texts.gear_size, f(50.0 * 0.68));
    assert_eq!(texts.unit_size, f(50.0 * 0.28));
}

#[test]
fn window_parts_stand_where_they_belong() {
    let layout = WindowLayout::new(rect(0.0, 0.0, 600.0, 200.0));
    assert_eq!(layout.bar, rect(2.0, 0.0, 598.0, 26.0));
    assert_eq!(layout.close_button, rect(573.0, 2.0, 595.0, 24.0));
    assert_eq!(layout.minimize_button, rect(547.0, 2.0, 569.0, 24.0));
    assert_eq!(layout.gear_button, rect(521.0, 2.0, 543.0, 24.0));
    assert_eq!(layout.content, rect(2.0, 26.0, 598.0, 198.0));
    assert_eq!(layout.cap_radius, f(86.0));
    assert!(layout.shows_content);
    assert_eq!(layout.stopped_text_size, f(42.0));
    assert_eq!(layout.resize_handle, rect(578.0, 178.0, 598.0, 198.0));
    assert_eq!(layout.panel, rect(336.0, 30.0, 596.0, 196.0));
    assert!(!WindowLayout::new(rect(0.0, 0.0, 600.0, 30.0)).shows_content);
    assert_eq!(layout.bar_lines(255).len(), 2);
    assert_eq!(layout.grip_lines(255).len(), 3);
    assert_eq!(layout.handle_lines(255).len(), 3);
    let tip = |minimized: bool| match layout.chevron_lines(minimized, 255)[0] {
        Shape::LineSegment { end, .. } => end,
        _ => panic!("a chevron is made of lines"),
    };
    assert_eq!(tip(true), pos(558.0, 11.25));
    assert_eq!(tip(false), pos(558.0, 14.75));
}

#[test]
fn stadium_has_a_round_end() {
    let angles = stadium_angles();
    assert_eq!(angles.top_left.len(), 9);
    assert_eq!(angles.cap.len(), 49);
    assert_eq!(angles.bottom_left.len(), 9);
    let directions = |angles: &Vec<Binary32>| -> Vec<Vec2> {
        angles.iter().map(|a| Vec2 { x: f(value(*a).cos()), y: f(value(*a).sin()) }).collect()
    };
    let arcs = StadiumArcs {
        top_left: directions(&angles.top_left),
        cap: directions(&angles.cap),
        bottom_left: directions(&angles.bottom_left),
    };
    let card = rect(0.0, 0.0, 200.0, 100.0);
    let full = stadium_path(card, f(5.0), f(50.0), &arcs);
    assert_eq!(full.len(), 9 + 1 + 49 + 1 + 9);
    let shallow = stadium_path(card, f(5.0), f(40.0), &arcs);
    assert_eq!(shallow.len(), 9 + 2 + 49 + 2 + 9);
    for p in full.iter().chain(shallow.iter()) {
        assert!(value(p.x) >= -0.001 && value(p.x) <= 200.001);
        assert!(value(p.y) >= -0.001 && value(p.y) <= 100.001);
    }
}

fn strip_style() -> StripStyle {
    StripStyle {
        window_seconds: f(10.0),
        show_abs: true,
        brake: rgb(200, 0, 0),
        abs_active: rgb(0, 0, 200),
        throttle: rgb(0, 200, 0),
        alpha: 255,
    }
}

fn lap_point(position: f32, throttle: f32, brake: f32) -> LapPoint {
    LapPoint { track_position: f(position), throttle: f(throttle), brake: f(brake) }
}

fn line(shape: &Shape) -> (Pos2, Pos2, Binary32, Color) {
    match shape {
        Shape::LineSegment { start, end, stroke } => (*start, *end, stroke.width, stroke.color),
        _ => panic!("a strip is made of lines"),
    }
}

#[test]
fn columns_take_the_largest_value() {
    let lap = [
        lap_point(0.0, 0.2, 0.0),
        lap_point(0.05, 0.7, 0.1),
        lap_point(0.09, 0.4, 0.9),
        lap_point(0.5, 1.0, 0.0),
        lap_point(1.5, 0.3, 0.0),
        lap_point(f32::NAN, 0.8, 0.0),
    ];
    let throttle = column_peaks(&lap, StripChannel::Throttle, 10);
    let expected: Vec<Binary32> =
        [0.8, 0.0, 0.0, 0.0, 0.0, 1.0, 0.0, 0.0, 0.0, 0.3].iter().map(|x: &f32| f(*x)).collect();
    assert_eq!(throttle, expected);
    assert_eq!(column_peaks(&lap, StripChannel::Brake, 10)[0], f(0.9));
}

#[test]
fn strip_draws_reference_live_points_and_cursor() {
    let strip = rect(0.0, 0.0, 10.0, 12.0);
    let lap = [lap_point(0.0, 0.0, 0.5), lap_point(0.95, 0.01, 0.0)];
    let mut braking = point(0.0, 0.8, 0);
    braking.abs_active = true;
    braking.telemetry.track_position = f(0.5);
    let mut cache = TrackStripCache::default();
    assert!(columns_fit(&strip));
    cache.update(strip, &[braking], at_millis(5000), f(0.25), &strip_style(), Some(&lap), true);
    assert_eq!(cache.shapes.len(), 3);
    let ghost = line(&cache.shapes[0]);
    assert_eq!(ghost.0, pos(0.5, 11.0));
    assert_eq!(ghost.1, pos(0.5, 6.0));
    assert_eq!(ghost.2, f(1.0));
    assert_eq!(ghost.3.a, (255.0_f32 * 0.38 * 0.5) as u8);
    let live = line(&cache.shapes[1]);
    assert_eq!(live.0, pos(5.0, 11.0));
    assert_eq!(live.1, pos(5.0, 11.0 - 0.8 * 10.0));
    assert_eq!(live.2, f(1.5));
    assert_eq!(live.3.a, (255.0_f32 * 0.4) as u8);
    assert_eq!(live.3.r, 0);
    assert!(live.3.b > 0);
    let cursor = line(&cache.shapes[2]);
    assert_eq!(cursor.0, pos(2.5, 0.0));
    assert_eq!(cursor.1, pos(2.5, 12.0));
    assert_eq!(cursor.3, rgb(255, 255, 255));
}

#[test]
fn strip_is_rebuilt_only_when_stale() {
    let strip = rect(0.0, 0.0, 10.0, 12.0);
    let mut cache = TrackStripCache::default();
    cache.update(strip, &[], at_millis(0), f(0.25), &strip_style(), None, false);
    let first = cache.clone();
    assert_eq!(first.shapes.len(), 1);
    cache.update(strip, &[], at_millis(0), f(0.75), &strip_style(), None, false);
    assert_eq!(cache, first);
    cache.update(rect(-0.0, 0.0, 10.0, 12.0), &[], at_millis(0), f(0.75), &strip_style(), None, false);
    assert_eq!(cache, first);
    cache.update(strip, &[], at_millis(0), f(0.75), &strip_style(), None, true);
    assert_ne!(cache, first);
    cache.update(rect(0.0, 0.0, 20.0, 12.0), &[], at_millis(0), f(0.75), &strip_style(), None, false);
    assert_eq!(line(&cache.shapes[0]).0, pos(15.0, 0.0));
}

#[test]
fn windows_are_dragged_everywhere_but_on_the_close_mark() {
    let viewport = rect(0.0, 0.0, 240.0, 240.0);
    assert!(drags_window(true, Some(pos(10.0, 10.0)), viewport));
    assert!(!drags_window(true, Some(pos(226.0, 12.0)), viewport));
    assert!(drags_window(true, Some(pos(226.0, 24.0)), viewport));
    assert!(drags_window(true, None, viewport));
    assert!(!drags_window(false, None, viewport));
    assert_eq!(brand(false), "SIMTRACE");
    assert_eq!(brand(true), "SIMTRACE  /  F1 OPEN HUD · BETA");
}
