use simtrace::binary32::Binary32;
use simtrace::model::{RevLights, TelemetryCapabilities, TelemetryPoint, VehicleTelemetry};
use simtrace::renderer::brake_limit::{BrakeLimitFeedback, BrakeLimitParams};
use simtrace::renderer::color::{rgb, with_opacity};
use simtrace::renderer::geometry::{Pos2, Rect, Vec2};
use simtrace::renderer::history::{
    band_energy, collect_runs, head_bridge_samples, history_band, history_energy, recency, BandSample,
    HistoryGlowMode, HistoryTraceLayerPolicy, HistoryTraceLayers, TracePositions, HISTORY_BANDS,
    LOCK_HISTORY_THRESHOLD_BITS,
};
use simtrace::renderer::hud::{speed_unit, F1OpenHud, F1OpenHudCache, MAX_POINTS};
use simtrace::renderer::hud_layout::{pedal_segment_geometry, pedal_y, speed_y, OpenHudLayout};
use simtrace::renderer::instruments::{arc_angles, ArcEdges};
use simtrace::renderer::labels::{luminous_layers, Anchor, Caption, LabelText, TextClass, GRID_DIVISIONS};
use simtrace::renderer::palette::{
    brake_palette, lock_cyan_color, speed_palette, throttle_palette, white_color, ChannelPalette,
};
use simtrace::renderer::shapes::{Mesh, Shape};
use simtrace::renderer::stroke::{
    build_continuous_primary_stroke, is_proper, lock_projection_mesh, primary_stroke_visual, PrimaryStrokeLayer,
    PrimaryStrokeMeshes, PrimaryStrokeState,
};
use simtrace::renderer::time_axis::{time_mark_text, Binary64};
use simtrace::time::{Duration, Instant};

const PEDAL_SEGMENTS: usize = 15;

fn f(x: f32) -> Binary32 {
    Binary32 { bits: x.to_bits() }
}

fn value(x: Binary32) -> f32 {
    f32::from_bits(x.bits)
}

fn point(x: f32, y: f32) -> Pos2 {
    Pos2 { x: f(x), y: f(y) }
}

fn numbers(values: &[f32]) -> Vec<Binary32> {
    values.iter().map(|x| f(*x)).collect()
}

fn threshold() -> Binary32 {
    Binary32 { bits: LOCK_HISTORY_THRESHOLD_BITS }
}

fn arc_edges() -> Vec<ArcEdges> {
    arc_angles()
        .iter()
        .map(|(min, max)| ArcEdges {
            min_cos: f(value(*min).cos()),
            min_sin: f(value(*min).sin()),
            max_cos: f(value(*max).cos()),
            max_sin: f(value(*max).sin()),
        })
        .collect()
}

#[test]
fn full_trace_layers_enable_complete_composition() {
    assert_eq!(
        HistoryTraceLayers::Full.policy(),
        HistoryTraceLayerPolicy {
            painter_core: true,
            painter_emission: true,
            history_halo: true,
            endpoint: true,
            lock_projection: true,
        }
    );
}

#[test]
fn core_only_submits_only_history_painter_core() {
    assert_eq!(
        HistoryTraceLayers::CoreOnly.policy(),
        HistoryTraceLayerPolicy {
            painter_core: true,
            painter_emission: false,
            history_halo: false,
            endpoint: false,
            lock_projection: false,
        }
    );
    assert!(!HistoryTraceLayers::CoreOnly.uses_legacy_halo(HistoryGlowMode::Legacy));
    assert!(!HistoryTraceLayers::CoreOnly.uses_continuous_halo(HistoryGlowMode::Continuous));
}

#[test]
fn halo_only_keeps_both_glow_ab_routes_without_painter_layers() {
    let policy = HistoryTraceLayers::HaloOnly.policy();
    assert!(!policy.painter_core);
    assert!(!policy.painter_emission);
    assert!(!policy.endpoint);
    assert!(!policy.lock_projection);
    assert!(HistoryTraceLayers::HaloOnly.uses_legacy_halo(HistoryGlowMode::Legacy));
    assert!(HistoryTraceLayers::HaloOnly.uses_continuous_halo(HistoryGlowMode::Continuous));
}

fn now() -> Instant {
    Instant::at(Duration::from_secs(100))
}

fn sample(millis_ago: u64, brake: f32, throttle: f32, speed: f32) -> TelemetryPoint {
    let capabilities =
        TelemetryCapabilities { brake: true, throttle: true, speed: true, ..Default::default() };
    TelemetryPoint {
        captured_at: Instant::at(Duration::from_millis(100_000 - millis_ago)),
        telemetry: VehicleTelemetry {
            brake: f(brake),
            throttle: f(throttle),
            speed: f(speed),
            capabilities,
            ..Default::default()
        },
        abs_active: false,
        source: Default::default(),
    }
}

fn hud<'a>(
    points: &'a [TelemetryPoint],
    lock_history: &'a [Binary32],
    history_glow: HistoryGlowMode,
    trace_layers: HistoryTraceLayers,
) -> F1OpenHud<'a> {
    F1OpenHud::new(
        points,
        points.last().copied(),
        false,
        f(10.0),
        f(1.0),
        f(450.0),
        BrakeLimitFeedback::default(),
        BrakeLimitParams::default(),
        lock_history,
        history_glow,
        trace_layers,
    )
}

fn screen() -> Rect {
    Rect::from_min_size(point(0.0, 0.0), Vec2 { x: f(900.0), y: f(420.0) })
}

fn rebuild(hud: &F1OpenHud) -> F1OpenHudCache {
    assert!(hud.points.len() <= MAX_POINTS);
    assert!(is_proper(&OpenHudLayout::new(screen()).trace_rect));
    let mut cache = F1OpenHudCache::default();
    hud.rebuild(screen(), now(), &arc_edges(), &mut cache);
    cache
}

fn rebuild_halo_mode(glow_mode: HistoryGlowMode, layers: HistoryTraceLayers) -> F1OpenHudCache {
    let points = vec![sample(20, 0.2, 0.8, 40.0), sample(0, 0.8, 0.2, 60.0)];
    rebuild(&hud(&points, &[f(0.0), f(0.0)], glow_mode, layers))
}

fn mesh_count(cache: &F1OpenHudCache) -> usize {
    cache.sharp_shapes.iter().filter(|shape| matches!(shape, Shape::Mesh { .. })).count()
}

#[test]
fn halo_only_continuous_submits_non_empty_mesh_batch() {
    let cache = rebuild_halo_mode(HistoryGlowMode::Continuous, HistoryTraceLayers::HaloOnly);
    assert!(cache.glow_batch.has_mesh());
    assert!(!cache.glow_batch.is_empty());
}

#[test]
fn full_continuous_still_submits_original_continuous_halo() {
    let cache = rebuild_halo_mode(HistoryGlowMode::Continuous, HistoryTraceLayers::Full);
    assert!(cache.glow_batch.has_mesh());
    assert!(!cache.glow_batch.is_empty());
}

#[test]
fn core_only_uses_six_primary_meshes_without_segmented_paths() {
    let cache = rebuild_halo_mode(HistoryGlowMode::Continuous, HistoryTraceLayers::CoreOnly);
    assert_eq!(mesh_count(&cache), 6, "body/core mesh for each of three traces");
    assert!(!cache.glow_batch.has_mesh());
}

#[test]
fn halo_only_does_not_submit_painter_primary_meshes() {
    let cache = rebuild_halo_mode(HistoryGlowMode::Continuous, HistoryTraceLayers::HaloOnly);
    assert!(cache.sharp_shapes.iter().all(|shape| !matches!(shape, Shape::Mesh { .. })));
}

#[test]
fn halo_only_legacy_still_submits_instance_batch() {
    let cache = rebuild_halo_mode(HistoryGlowMode::Legacy, HistoryTraceLayers::HaloOnly);
    assert!(cache.glow_batch.has_instances());
    assert!(!cache.glow_batch.is_empty());
}

#[test]
fn no_endpoint_only_removes_history_heads() {
    let policy = HistoryTraceLayers::NoEndpoint.policy();
    assert!(policy.painter_core);
    assert!(policy.painter_emission);
    assert!(policy.history_halo);
    assert!(!policy.endpoint);
    assert!(policy.lock_projection);
}

#[test]
fn no_projection_only_removes_lock_projection() {
    let policy = HistoryTraceLayers::NoProjection.policy();
    assert!(policy.painter_core);
    assert!(policy.painter_emission);
    assert!(policy.history_halo);
    assert!(policy.endpoint);
    assert!(!policy.lock_projection);
}

fn continuous_primary(
    points: &[Pos2],
    energies: &[f32],
    palette: ChannelPalette,
    primary: bool,
    locks: Option<&[bool]>,
) -> PrimaryStrokeMeshes {
    build_continuous_primary_stroke(points, &numbers(energies), &palette, primary, locks)
        .expect("continuous primary mesh")
}

fn section_center(mesh: &Mesh, section: usize) -> Pos2 {
    let left = mesh.vertices[section * 2].pos;
    let right = mesh.vertices[section * 2 + 1].pos;
    left.lerp(right, f(0.5))
}

fn assert_one_connected_strip(mesh: &Mesh, sections: usize) {
    assert_eq!(mesh.vertices.len(), sections * 2);
    assert_eq!(mesh.indices.len(), (sections - 1) * 6);
    assert!(mesh.vertices.iter().all(|vertex| vertex.pos.x.is_finite() && vertex.pos.y.is_finite()));
    assert!(mesh.indices.iter().all(|index| (*index as usize) < mesh.vertices.len()));
}

#[test]
fn throttle_primary_crosses_recency_boundary_without_split() {
    let boundary = 4.0 / HISTORY_BANDS as f32;
    let points = [point(0.0, 10.0), point(2.0, 20.0), point(4.0, 15.0)];
    let energies = [
        value(history_energy(f(boundary - 0.001), f(1.0))),
        value(history_energy(f(boundary), f(1.0))),
        value(history_energy(f(boundary + 0.001), f(1.0))),
    ];
    let meshes = continuous_primary(&points, &energies, throttle_palette(), true, None);
    assert_one_connected_strip(&meshes.body, points.len());
    assert_one_connected_strip(&meshes.core, points.len());
}

#[test]
fn speed_primary_crosses_recency_boundary_without_wgpu_or_split() {
    let points = [point(0.0, 12.0), point(2.0, 18.0), point(4.0, 14.0)];
    let energies = [0.2, 0.21, 0.22];
    let meshes = continuous_primary(&points, &energies, speed_palette(), false, None);
    assert_one_connected_strip(&meshes.body, points.len());
    assert_one_connected_strip(&meshes.core, points.len());
}

#[test]
fn brake_primary_crosses_recency_boundary_without_split() {
    let points = [point(0.0, 14.0), point(2.0, 20.0), point(4.0, 16.0)];
    let energies = [0.2, 0.21, 0.22];
    let meshes = continuous_primary(&points, &energies, brake_palette(), true, Some(&[false; 3]));
    assert_one_connected_strip(&meshes.body, points.len());
    assert_one_connected_strip(&meshes.core, points.len());
}

#[test]
fn steep_vertical_primary_segments_remain_finite_and_connected() {
    let points = [point(0.0, 10.0), point(0.05, 90.0), point(0.1, 12.0)];
    let meshes = continuous_primary(&points, &[0.4, 0.5, 0.6], brake_palette(), true, None);
    assert_one_connected_strip(&meshes.body, points.len());
    assert_one_connected_strip(&meshes.core, points.len());
}

#[test]
fn trace_vertices_are_finite_up_to_far_coordinates() {
    let far = 2.0_f32.powi(126);
    let points = [point(-far, far), point(far, -far), point(far, -far), point(0.0, 1e-30), point(0.0, 0.0)];
    let locks = [false, true, true, false, false];
    let meshes = continuous_primary(&points, &[1.0; 5], brake_palette(), true, Some(&locks));
    for vertex in meshes.body.vertices.iter().chain(&meshes.core.vertices) {
        assert!(value(vertex.pos.x).is_finite() && value(vertex.pos.y).is_finite());
    }
}

fn assert_hard_switch(locks: &[bool], old_state: PrimaryStrokeState, new_state: PrimaryStrokeState) {
    let points = [point(0.0, 10.0), point(2.0, 90.0)];
    let brake = brake_palette();
    let meshes = continuous_primary(&points, &[1.0, 1.0], brake, true, Some(locks));
    assert_one_connected_strip(&meshes.body, 4);
    assert_eq!(section_center(&meshes.body, 1), section_center(&meshes.body, 2));
    let old = primary_stroke_visual(&brake, true, old_state, PrimaryStrokeLayer::Body);
    let new = primary_stroke_visual(&brake, true, new_state, PrimaryStrokeLayer::Body);
    assert_eq!(meshes.body.vertices[2].color, with_opacity(old.color, old.alpha));
    assert_eq!(meshes.body.vertices[4].color, with_opacity(new.color, new.alpha));
}

#[test]
fn brake_red_to_cyan_is_continuous_and_hard_switched() {
    assert_hard_switch(&[false, true], PrimaryStrokeState::Normal, PrimaryStrokeState::BrakeLock);
}

#[test]
fn brake_cyan_to_red_is_continuous_and_hard_switched() {
    assert_hard_switch(&[true, false], PrimaryStrokeState::BrakeLock, PrimaryStrokeState::Normal);
}

#[test]
fn lock_grip_relock_primary_is_one_continuous_mesh() {
    let points: Vec<Pos2> = (0..5).map(|x| point(x as f32, (x * 10) as f32)).collect();
    let locks = [true, true, false, false, true];
    let meshes = continuous_primary(&points, &[0.4; 5], brake_palette(), true, Some(&locks));
    assert_one_connected_strip(&meshes.body, 9);
}

#[test]
fn single_sample_lock_preserves_core_before_and_after() {
    let points = [point(0.0, 10.0), point(2.0, 90.0), point(4.0, 10.0)];
    let locks = [false, true, false];
    let meshes = continuous_primary(&points, &[0.4, 0.5, 0.6], brake_palette(), true, Some(&locks));
    assert_one_connected_strip(&meshes.core, 7);
    assert_eq!(section_center(&meshes.core, 1), section_center(&meshes.core, 2));
    assert_eq!(section_center(&meshes.core, 4), section_center(&meshes.core, 5));
}

fn band_sample(x: f32) -> BandSample {
    BandSample {
        positions: TracePositions { brake: point(x, 1.0), throttle: point(x, 2.0), speed: point(x, 3.0) },
        lock: f(0.0),
    }
}

#[test]
fn head_bridge_does_not_repeat_head_inside_newest_band() {
    let last = band_sample(8.0);
    let head = band_sample(10.0);
    let samples = head_bridge_samples(Some((HISTORY_BANDS - 1, last)), head, HISTORY_BANDS);
    assert_eq!(samples, vec![(HISTORY_BANDS - 1, head)]);

    let bridged = head_bridge_samples(Some((HISTORY_BANDS - 2, last)), head, HISTORY_BANDS);
    assert_eq!(bridged.len(), 3);
    assert_eq!(bridged[1], (HISTORY_BANDS - 1, last));
    assert_eq!(bridged[2], (HISTORY_BANDS - 1, head));
}

#[test]
fn fifteen_pedal_segments_preserve_meter_height() {
    let total_height = 180.0;
    let (gap, segment_height) = pedal_segment_geometry(f(total_height));
    let reconstructed =
        value(segment_height) * PEDAL_SEGMENTS as f32 + value(gap) * (PEDAL_SEGMENTS - 1) as f32;

    assert_eq!(PEDAL_SEGMENTS, 15);
    assert!((reconstructed - total_height).abs() < 0.001);
    assert!((2.0..=4.0).contains(&value(gap)));
}

#[test]
fn lock_runs_split_lock_grip_relock() {
    let points: Vec<Pos2> = (0..7).map(|i| point(i as f32, 5.0)).collect();
    let locks = numbers(&[0.0, 0.0, 1.0, 0.0, 0.0, 1.0, 1.0]);
    let runs = collect_runs(&points, &locks, threshold(), true);
    assert_eq!(runs.len(), 2, "lock -> grip -> relock must be two runs");
    assert_eq!(runs[0].len(), 1);
    assert_eq!(runs[1].len(), 2);
}

#[test]
fn extremely_short_lock_keeps_true_width() {
    let points = [point(0.0, 5.0), point(1.0, 5.0), point(2.0, 5.0)];
    let locks = numbers(&[0.0, 1.0, 0.0]);
    let runs = collect_runs(&points, &locks, threshold(), true);
    assert_eq!(runs.len(), 1);
    assert_eq!(runs[0].len(), 1, "single-sample lock must not be widened");
    assert_eq!(runs[0][0].x, f(1.0));
}

#[test]
fn approaching_does_not_create_lock_runs() {
    let points = [point(0.0, 5.0), point(1.0, 5.0)];
    let locks = numbers(&[0.0, 0.0]);
    let runs = collect_runs(&points, &locks, threshold(), true);
    assert!(runs.is_empty());
}

#[test]
fn projection_mesh_is_clipped_to_chart_bounds() {
    let rect = Rect { min: point(0.0, 0.0), max: point(10.0, 20.0) };
    let run = [point(5.0, 15.0), point(7.0, 10.0), point(-4.0, 40.0)];
    let mesh = lock_projection_mesh(&run, &rect, f(0.3), f(0.4), white_color(), f(1.0)).expect("projection mesh");
    assert!(!mesh.vertices.is_empty());
    for vertex in &mesh.vertices {
        let (x, y) = (value(vertex.pos.x), value(vertex.pos.y));
        assert!(
            x >= 0.0 - 1e-4 && x <= 10.0 + 1e-4 && y >= 0.0 - 1e-4 && y <= 20.0 + 1e-4,
            "vertex {:?} escaped chart bounds",
            vertex.pos
        );
    }
    assert!(mesh.vertices.iter().any(|vertex| value(vertex.pos.y).abs() < 1e-4));
}

#[test]
fn projection_mesh_supports_single_sample_lock() {
    let rect = Rect { min: point(0.0, 0.0), max: point(10.0, 20.0) };
    let mesh = lock_projection_mesh(&[point(4.0, 12.0)], &rect, f(0.30), f(0.35), lock_cyan_color(), f(1.0));
    assert!(mesh.is_some());
}

#[test]
fn non_lock_runs_are_drawn_red_lock_runs_are_not() {
    let points: Vec<Pos2> = (0..4).map(|i| point(i as f32, 5.0)).collect();
    let locks = numbers(&[0.0, 1.0, 1.0, 0.0]);
    let red = collect_runs(&points, &locks, threshold(), false);
    let cyan = collect_runs(&points, &locks, threshold(), true);
    assert_eq!(red.len(), 2);
    assert_eq!(cyan.len(), 1);
    assert!(red.iter().flatten().all(|point| value(point.x) == 0.0 || value(point.x) == 3.0));
    assert!(cyan[0].iter().all(|point| value(point.x) == 1.0 || value(point.x) == 2.0));
}

#[test]
fn lock_grip_relock_switches_red_and_cyan_runs() {
    let points: Vec<Pos2> = (0..10).map(|i| point(i as f32, 5.0)).collect();
    let locks = numbers(&[0.0, 0.0, 1.0, 1.0, 0.0, 0.0, 1.0, 1.0, 0.0, 0.0]);
    let red = collect_runs(&points, &locks, threshold(), false);
    let cyan = collect_runs(&points, &locks, threshold(), true);
    assert_eq!(cyan.len(), 2, "two separate lock events");
    assert_eq!(red.len(), 3, "red before, between and after the locks");
    assert!(red.iter().flatten().map(|p| value(p.x)).all(|x| x != 2.0 && x != 3.0 && x != 6.0 && x != 7.0));
    assert!(cyan.iter().flatten().map(|p| value(p.x)).all(|x| x == 2.0 || x == 3.0 || x == 6.0 || x == 7.0));
}

#[test]
fn history_energy_is_continuous_across_band_boundaries() {
    let opacity = f(1.0);
    let band_boundary = 4.0 / 8.0;
    let before = value(history_energy(f(band_boundary - 1e-3), opacity));
    let after = value(history_energy(f(band_boundary + 1e-3), opacity));
    assert!(
        (after - before).abs() < 0.01,
        "energy must not step at band boundaries: {before} -> {after}"
    );
    assert!(value(history_energy(f(0.9), opacity)) > value(history_energy(f(0.2), opacity)));
}

#[test]
fn lock_color_switch_matches_lock_run_start() {
    let points: Vec<Pos2> = (0..10).map(|i| point(i as f32, 5.0)).collect();
    let locks = numbers(&[0.0, 0.0, 1.0, 1.0, 0.0, 0.0, 1.0, 1.0, 0.0, 0.0]);
    let runs = collect_runs(&points, &locks, threshold(), true);
    let starts: Vec<f32> = runs.iter().filter_map(|run| run.first().map(|p| value(p.x))).collect();
    assert_eq!(starts, vec![2.0, 6.0]);
}

#[test]
fn display_modes_have_defaults() {
    assert_eq!(HistoryGlowMode::default(), HistoryGlowMode::Continuous);
    assert_eq!(HistoryTraceLayers::default(), HistoryTraceLayers::Full);
}

#[test]
fn band_energy_follows_its_response() {
    for band in 0..8_usize {
        let expected = 0.08 + 0.92 * ((band + 1) as f32 / 8.0).powf(1.6);
        let energy = value(band_energy(band, f(1.0)));
        assert!((energy - expected).abs() < 1e-6, "band {} {} {}", band, energy, expected);
        let halved = value(band_energy(band, f(0.5)));
        assert_eq!(halved, energy * 0.5);
    }
    assert_eq!(recency(f(2.5), f(10.0)), f(0.75));
    assert_eq!(recency(f(20.0), f(10.0)), f(0.0));
    assert_eq!(recency(f(0.0005), f(0.0)), f(1.0 - 0.0005 / 0.001));
    assert_eq!(recency(f(0.0), f(-5.0)), f(1.0));
    assert_eq!(history_band(f(0.0)), 0);
    assert_eq!(history_band(f(0.99)), 7);
    assert_eq!(history_band(f(1.0)), 7);
}

#[test]
fn values_are_texts() {
    let mut latest = sample(0, 0.426, 1.0, 50.0);
    latest.telemetry.capabilities.gear = true;
    latest.telemetry.capabilities.steering_input = true;
    latest.telemetry.capabilities.abs_activity = true;
    latest.telemetry.gear = -1;
    latest.telemetry.steering_input = f(-0.1);
    latest.telemetry.abs_active = true;
    latest.telemetry.tc_active = true;
    latest.telemetry.rev_lights = Some(RevLights { percent: 10, bit_value: 1 });
    let points = [latest];
    let mut display = hud(&points, &[], HistoryGlowMode::Continuous, HistoryTraceLayers::Full);
    let values = display.formatted_values();
    assert_eq!(values.brake, "43%");
    assert_eq!(values.throttle, "100%");
    assert_eq!(values.speed, "180");
    assert_eq!(values.speed_unit, "KM/H");
    assert_eq!(values.gear, "R");
    assert_eq!(values.rpm, "—");
    assert_eq!(values.steering, "-45°");
    assert!(values.abs_active);
    assert!(!values.tc_active);
    assert_eq!(values.brake_level, Some(f(0.426)));
    assert_eq!(values.steering_level, Some(f(-0.1)));
    display.speed_mph = true;
    assert_eq!(display.formatted_values().speed, "112");
    assert_eq!(display.formatted_values().speed_unit, speed_unit(true));
    display.max_steering_angle = f(1.0);
    assert_eq!(display.formatted_values().steering, "0°");
    display.latest = None;
    let nothing = display.formatted_values();
    assert_eq!(nothing.brake, "—");
    assert_eq!(nothing.speed_unit, "MPH");
    assert_eq!(nothing.brake_level, None);
}

#[test]
fn display_is_rebuilt_only_when_stale() {
    let cache = rebuild_halo_mode(HistoryGlowMode::Continuous, HistoryTraceLayers::Full);
    assert_eq!(cache.generation, 1);
    assert_eq!(cache.glow_batch.generation, 1);
    assert!(!cache.needs_rebuild(screen(), false));
    assert!(cache.needs_rebuild(screen(), true));
    let moved = Rect::from_min_size(point(0.0, 1.0), Vec2 { x: f(900.0), y: f(420.0) });
    assert!(cache.needs_rebuild(moved, false));
    assert!(F1OpenHudCache::default().needs_rebuild(screen(), false));
    assert!(cache.uses_additive_glow(true));
    assert!(!cache.uses_additive_glow(false));
    assert!(!F1OpenHudCache::default().uses_additive_glow(true));
}

#[test]
fn unsupported_channels_leave_no_trace() {
    let mut latest = sample(0, 0.5, 0.5, 50.0);
    latest.telemetry.capabilities = TelemetryCapabilities::default();
    let points = [latest, latest];
    let cache = rebuild(&hud(&points, &[], HistoryGlowMode::Continuous, HistoryTraceLayers::Full));
    assert_eq!(mesh_count(&cache), 0);
    assert!(!cache.glow_batch.has_mesh());
    assert_eq!(cache.brake_head, None);
    assert_eq!(cache.throttle_head, None);
    assert_eq!(cache.speed_head, None);
}

#[test]
fn confirmed_lock_is_projected() {
    let points = vec![sample(40, 0.9, 0.0, 50.0), sample(20, 0.9, 0.0, 45.0), sample(0, 0.2, 0.0, 40.0)];
    let locks = numbers(&[0.8, 0.8, 0.0]);
    let with = rebuild(&hud(&points, &locks, HistoryGlowMode::Continuous, HistoryTraceLayers::Full));
    let without = rebuild(&hud(&points, &locks, HistoryGlowMode::Continuous, HistoryTraceLayers::NoProjection));
    assert!(with.sharp_shapes.len() + with.fallback_emission_shapes.len()
        > without.sharp_shapes.len() + without.fallback_emission_shapes.len());
}

#[test]
fn heads_stand_on_their_traces() {
    let points = vec![sample(20, 0.2, 0.8, 40.0), sample(0, 0.75, 0.25, 100.0)];
    let display = hud(&points, &[], HistoryGlowMode::Continuous, HistoryTraceLayers::Full);
    let cache = rebuild(&display);
    let chart = OpenHudLayout::new(screen()).trace_rect;
    assert_eq!(cache.brake_head, Some(Pos2 { x: chart.max.x, y: pedal_y(&chart, f(0.75)) }));
    assert_eq!(cache.throttle_head, Some(Pos2 { x: chart.max.x, y: pedal_y(&chart, f(0.25)) }));
    assert_eq!(cache.speed_head, Some(Pos2 { x: chart.max.x, y: speed_y(&chart, f(100.0)) }));
    assert_eq!(display.heads(&cache, false).len(), 12);
    assert_eq!(display.heads(&cache, true).len(), 8);
    let plain = hud(&points, &[], HistoryGlowMode::Continuous, HistoryTraceLayers::NoEndpoint);
    assert!(plain.heads(&cache, false).is_empty());
    let core = display.heads(&cache, true)[1];
    assert_eq!(core.radius, f(1.8));
    assert_eq!(core.color, brake_palette().hot);
}

#[test]
fn labels_name_and_show_the_channels() {
    let mut latest = sample(0, 0.5, 0.5, 50.0);
    latest.telemetry.capabilities.abs_activity = true;
    latest.telemetry.capabilities.rpm = true;
    latest.telemetry.abs_active = true;
    latest.telemetry.rpm = f(11_500.0);
    let points = [latest];
    let display = hud(&points, &[], HistoryGlowMode::Continuous, HistoryTraceLayers::Full);
    let cache = rebuild(&display);
    let labels = display.labels(screen(), &cache);
    assert_eq!(labels.len(), 6 + 5 + 4 + 2 + 4 + 1);
    let window = Binary64 { bits: 10.0_f64.to_bits() };
    let texts: Vec<String> = labels.iter().map(|label| label.text.text(&cache.values, window)).collect();
    assert_eq!(texts[0], "BRAKE");
    assert_eq!(texts[1], "50%");
    assert_eq!(labels[1].anchor, Anchor::RightCenter);
    assert_eq!(texts[5], "180");
    assert_eq!(texts[6], "-10s");
    assert_eq!(texts[7], "-8s");
    assert_eq!(texts[8], "-5s");
    assert_eq!(texts[9], "-2s");
    assert_eq!(labels[10].text, LabelText::TimeMark(GRID_DIVISIONS));
    assert_eq!(texts[10], "0");
    assert_eq!(texts[17], "11500  RPM");
    assert_eq!(texts[20], "KM/H");
    assert_eq!(labels[21].text, LabelText::Caption(Caption::Abs));
    assert_eq!(texts[21], "ABS");
}

#[test]
fn time_marks_are_written_as_the_machine_writes_them() {
    let mut windows = vec![0.0, 0.001, 0.5, 1.0, 2.0, 3.0, 6.0, 7.1, 9.999, 10.0, 30.0, 60.0, 1e-300, 1e15, 1e19];
    windows.push(f64::from_bits(1));
    windows.push(f64::from_bits(2));
    windows.push(f64::from_bits(3));
    windows.push(f64::MIN_POSITIVE);
    windows.push(-0.0);
    let mut state = 0x9e37_79b9_7f4a_7c15_u64;
    for _ in 0..400 {
        state = state.wrapping_mul(6_364_136_223_846_793_005).wrapping_add(1_442_695_040_888_963_407);
        windows.push(f64::from_bits(0x3fe0_0000_0000_0000 + (state >> 7)).abs());
        windows.push((state >> 40) as f64 / 8.0);
        windows.push(f64::from_bits(state >> 12));
    }
    let mut written = 0;
    for window in windows {
        let span = Binary64 { bits: window.to_bits() };
        if !span.holds_span() {
            continue;
        }
        for division in 0..GRID_DIVISIONS {
            let seconds = -window + window * division as f64 / GRID_DIVISIONS as f64;
            assert_eq!(time_mark_text(span, division), format!("{seconds:.0}s"));
            written += 1;
        }
        assert_eq!(time_mark_text(span, GRID_DIVISIONS), "0");
    }
    assert!(written > 2000);
    assert!(!Binary64 { bits: f64::NAN.to_bits() }.holds_span());
    assert!(!Binary64 { bits: (-1.0_f64).to_bits() }.holds_span());
    assert!(!Binary64 { bits: 18_446_744_073_709_551_616.0_f64.to_bits() }.holds_span());
}

#[test]
fn energy_grows_with_recency() {
    for opacity in [0.0, 1e-42, 0.3, 0.77, 1.0] {
        let mut before = -1.0;
        for step in -5..=1030 {
            let energy = value(history_energy(f(step as f32 / 1024.0), f(opacity)));
            assert!(before <= energy, "{step} {opacity}");
            before = energy;
        }
        for band in 0..=HISTORY_BANDS {
            let recency = band as f32 / HISTORY_BANDS as f32;
            assert_eq!(
                value(history_energy(f(recency), f(opacity))),
                value(band_energy(band.min(HISTORY_BANDS - 1), f(opacity)))
            );
        }
    }
}

#[test]
fn missing_lock_values_count_as_zero() {
    let points = [point(1.0, 1.0), point(2.0, 1.0), point(3.0, 1.0)];
    let runs = collect_runs(&points, &[], f(-1.0), true);
    assert_eq!(runs.len(), 1);
    assert_eq!(runs[0].len(), 3);
    assert!(collect_runs(&points, &[], f(-1.0), false).is_empty());
    assert!(collect_runs(&points, &[], f(0.0), true).is_empty());
    let runs = collect_runs(&points, &[f(-2.0)], f(-1.0), true);
    assert_eq!(runs.len(), 1);
    assert_eq!(runs[0], vec![points[1], points[2]]);
}

#[test]
fn display_is_drawable_without_a_projected_lock() {
    let points = [sample(0, 0.5, 0.5, 50.0)];
    let nowhere = Rect { min: point(0.0, 0.0), max: point(f32::NAN, f32::NAN) };
    let quiet = hud(&points, &[], HistoryGlowMode::Continuous, HistoryTraceLayers::Full);
    assert!(quiet.is_drawable(screen()));
    assert!(quiet.is_drawable(nowhere));
    let locks = [f(1.0)];
    let locked = hud(&points, &locks, HistoryGlowMode::Continuous, HistoryTraceLayers::Full);
    assert!(locked.is_drawable(screen()));
    assert!(!locked.is_drawable(nowhere));
    let hidden = hud(&points, &locks, HistoryGlowMode::Continuous, HistoryTraceLayers::NoProjection);
    assert!(hidden.is_drawable(nowhere));
}

#[test]
fn channel_texts_glow() {
    let points = [sample(0, 0.5, 0.5, 50.0)];
    let display = hud(&points, &[], HistoryGlowMode::Continuous, HistoryTraceLayers::Full);
    let cache = rebuild(&display);
    for label in display.labels(screen(), &cache) {
        let layers = luminous_layers(label.position, &label.style);
        match label.style.class {
            TextClass::Channel => assert_eq!(layers.len(), 10),
            TextClass::Secondary => assert_eq!(layers.len(), 2),
        }
        assert_eq!(layers.last().map(|layer| layer.position), Some(label.position));
        assert_eq!(layers[0].position.x, label.position.x.plus(f(0.9)));
    }
}

#[test]
fn projection_needs_strength_and_a_run() {
    let rect = Rect { min: point(0.0, 0.0), max: point(10.0, 20.0) };
    assert!(lock_projection_mesh(&[], &rect, f(0.3), f(0.4), rgb(1, 2, 3), f(1.0)).is_none());
    assert!(lock_projection_mesh(&[point(1.0, 1.0)], &rect, f(0.0), f(0.4), rgb(1, 2, 3), f(1.0)).is_none());
    assert!(!is_proper(&Rect { min: point(1.0, 0.0), max: point(0.0, 20.0) }));
}

#[test]
fn single_point_has_no_stroke() {
    let none = build_continuous_primary_stroke(&[point(0.0, 0.0)], &[f(1.0)], &brake_palette(), true, None);
    assert!(none.is_none());
}
