use simtrace::binary32::Binary32;
use simtrace::model::RevLights;
use simtrace::renderer::brake_limit::{BrakeLimitFeedback, BrakeLimitParams};
use simtrace::renderer::canvas::HudCanvas;
use simtrace::renderer::color::{hot_face, mix_color, rgb, with_opacity, Color};
use simtrace::renderer::geometry::{Pos2, Rect, Vec2};
use simtrace::renderer::glow::GlowBatchBuilder;
use simtrace::renderer::history::{HistoryGlowMode, HistoryTraceLayers};
use simtrace::renderer::hud_layout::{
    gear_value_position, pedal_segment_geometry, pedal_y, speed_value_position, speed_y, steering_label_position,
    steering_value_position, OpenHudLayout,
};
use simtrace::renderer::instruments::{
    arc_angles, build_pedal_meter, build_rev_lights, build_steering_arc, rev_light_state, ArcEdges,
};
use simtrace::renderer::palette::{
    brake_palette, lock_cyan_color, lock_hot_color, rpm_high_palette, rpm_low_palette, speed_palette,
    steering_white_color, throttle_palette, white_color,
};
use simtrace::renderer::segments::{build_grid, push_luminous_segment, SegmentGeometry, SegmentState};
use simtrace::renderer::shapes::Shape;
use simtrace::renderer::stroke::{
    build_continuous_primary_stroke, lock_projection_mesh, primary_stroke_visual, PrimaryStrokeLayer,
    PrimaryStrokeState,
};
use simtrace::renderer::traces::{draw_lock_run, draw_trace_run, TraceStyle};

fn f(x: f32) -> Binary32 {
    Binary32 { bits: x.to_bits() }
}

fn value(x: Binary32) -> f32 {
    f32::from_bits(x.bits)
}

fn pos(x: f32, y: f32) -> Pos2 {
    Pos2 { x: f(x), y: f(y) }
}

fn rect(x0: f32, y0: f32, x1: f32, y1: f32) -> Rect {
    Rect { min: pos(x0, y0), max: pos(x1, y1) }
}

fn sized(x: f32, y: f32, width: f32, height: f32) -> Rect {
    Rect::from_min_size(pos(x, y), Vec2 { x: f(width), y: f(height) })
}

fn filled(shape: &Shape) -> (Rect, f32, Color) {
    match shape {
        Shape::RectFilled { rect, rounding, fill } => (*rect, value(*rounding), *fill),
        _ => panic!("expected a rectangle, got {:?}", shape),
    }
}

fn segment(shape: &Shape) -> (Pos2, Pos2, f32, Color) {
    match shape {
        Shape::LineSegment { start, end, stroke } => (*start, *end, value(stroke.width), stroke.color),
        _ => panic!("expected a line, got {:?}", shape),
    }
}

#[test]
fn layout_divides_the_display() {
    for (width, height) in [(900.0_f32, 420.0_f32), (333.3, 111.1), (1920.0, 300.0), (50.0, 20.0)] {
        let (x0, y0) = (3.5_f32, 7.25_f32);
        let layout = OpenHudLayout::new(sized(x0, y0, width, height));
        let (min_x, min_y) = (x0 + 14.0, y0 + 10.0);
        let (max_x, max_y) = (x0 + width - 14.0, y0 + height - 10.0);
        let (outer_w, outer_h) = (max_x - min_x, max_y - min_y);
        let left_width = outer_w * 0.55;
        let instrument_width = (outer_w * 0.15).clamp(96.0, 160.0);
        let gap = 14.0_f32.min(outer_w * 0.025);
        let left = sized(min_x, min_y, left_width, outer_h);
        let label_width = (left_width * 0.20).clamp(78.0, 116.0);
        let value_width = (left_width * 0.13).clamp(48.0, 74.0);
        assert_eq!(layout.left_rect, left);
        let trace = rect(
            value(left.min.x) + label_width,
            value(left.min.y) + outer_h * 0.12,
            value(left.max.x) - value_width,
            value(left.max.y) - outer_h * 0.12,
        );
        assert_eq!(layout.trace_rect, trace);
        let instrument = sized(value(left.max.x) + gap, min_y, instrument_width, outer_h);
        let (ix, iy) = (value(instrument.min.x), value(instrument.min.y));
        let iw = value(instrument.max.x) - ix;
        let top = iy + outer_h * 0.15;
        let bottom = iy + outer_h * 0.53;
        let meter = (iw * 0.23).clamp(18.0, 28.0);
        let brake_x = ix + iw * 0.28;
        let throttle_x = ix + iw * 0.72;
        assert_eq!(layout.brake_meter_rect, rect(brake_x - meter * 0.5, top, brake_x + meter * 0.5, bottom));
        assert_eq!(
            layout.throttle_meter_rect,
            rect(throttle_x - meter * 0.5, top, throttle_x + meter * 0.5, bottom)
        );
        assert_eq!(layout.steering_rect, Rect { min: pos(ix, iy + outer_h * 0.57), max: instrument.max });
        assert_eq!(
            layout.center_rect,
            rect(value(instrument.max.x) + gap, min_y, max_x, max_y)
        );
        let center = layout.center_rect;
        let center_h = value(center.max.y) - value(center.min.y);
        let center_x = (value(center.min.x) + value(center.max.x)) / 2.0;
        assert_eq!(speed_value_position(&layout), pos(center_x, value(center.min.y) + center_h * 0.72));
        assert_eq!(gear_value_position(&layout), pos(center_x, value(center.min.y) + center_h * 0.49));
        let steering = layout.steering_rect;
        let steering_h = value(steering.max.y) - value(steering.min.y);
        let steering_x = (value(steering.min.x) + value(steering.max.x)) / 2.0;
        let steering_y = value(steering.min.y) + steering_h * 0.70;
        assert_eq!(steering_value_position(&layout), pos(steering_x, steering_y));
        assert_eq!(
            steering_label_position(&layout),
            pos(steering_x, (steering_y + 23.0).min(value(steering.max.y) - 4.0))
        );
    }
}

#[test]
fn pedal_levels_stand_within_their_padding() {
    let chart = rect(0.0, 10.0, 100.0, 110.0);
    for level in [-1.0_f32, 0.0, 0.3, 0.77, 1.0, 4.0] {
        let pad = 100.0_f32 * 0.06;
        let expected = 110.0 - pad - level.clamp(0.0, 1.0) * (100.0 - 2.0 * pad);
        assert_eq!(value(pedal_y(&chart, f(level))), expected);
        assert_eq!(speed_y(&chart, f(level * 100.0)), pedal_y(&chart, f(level * 100.0 / 100.0)));
    }
    let (gap, height) = pedal_segment_geometry(f(90.0));
    assert_eq!(value(gap), (90.0_f32 * 0.030).clamp(2.0, 4.0));
    assert_eq!(value(height), ((90.0_f32 - value(gap) * 14.0) / 15.0).max(1.0));
}

#[test]
fn grid_strengthens_toward_now() {
    let chart = rect(10.0, 20.0, 110.0, 60.0);
    let mut shapes = Vec::new();
    build_grid(&chart, f(0.8), &mut shapes);
    assert_eq!(shapes.len(), 8);
    let gray = rgb(112, 132, 153);
    for (i, shape) in shapes.iter().take(5).enumerate() {
        let t = i as f32 / 4.0;
        let x = (1.0 - t) * 10.0 + t * 110.0;
        let strength = if i == 4 { 0.14 } else { 0.035 + t * 0.035 };
        assert_eq!(
            segment(shape),
            (pos(x, 20.0), pos(x, 60.0), 0.65, with_opacity(gray, f(0.8 * strength)))
        );
    }
    for (i, shape) in shapes.iter().skip(5).enumerate() {
        let t = (i + 1) as f32 / 4.0;
        let y = (1.0 - t) * 20.0 + t * 60.0;
        assert_eq!(segment(shape), (pos(10.0, y), pos(110.0, y), 0.5, with_opacity(gray, f(0.8 * 0.025))));
    }
}

fn cover(lock: f32) -> f32 {
    let t = ((lock - 0.05) / 0.45).clamp(0.0, 1.0);
    t * t * (3.0 - 2.0 * t)
}

#[test]
fn pedal_meter_lights_its_segments() {
    let meter = rect(5.0, 10.0, 25.0, 190.0);
    let mut sharp = Vec::new();
    let mut fallback = Vec::new();
    let mut glow = GlowBatchBuilder::new(rect(0.0, 0.0, 100.0, 200.0));
    let palette = throttle_palette();
    build_pedal_meter(&meter, Some(f(0.5)), &palette, None, f(0.9), &mut sharp, &mut fallback, &mut glow);
    assert_eq!(sharp.len(), 15);
    assert!(fallback.is_empty());
    assert!(glow.instances.is_empty());
    let gap = (180.0_f32 * 0.030).clamp(2.0, 4.0);
    let height = ((180.0 - gap * 14.0) / 15.0).max(1.0);
    for (i, shape) in sharp.iter().enumerate() {
        let y = 190.0 - (i + 1) as f32 * height - i as f32 * gap;
        let fill = if i < 8 {
            with_opacity(palette.body, f(0.9 * 0.92))
        } else {
            with_opacity(rgb(128, 132, 148), f(0.9 * 0.28))
        };
        assert_eq!(filled(shape), (sized(5.0, y, 20.0, height), 1.0, fill));
    }
}

#[test]
fn locked_wheel_turns_its_half_cyan() {
    let meter = rect(5.0, 10.0, 25.0, 190.0);
    let mut sharp = Vec::new();
    let mut fallback = Vec::new();
    let mut glow = GlowBatchBuilder::new(rect(0.0, 0.0, 100.0, 200.0));
    let palette = brake_palette();
    let feedback = BrakeLimitFeedback {
        approach_mix: f(0.2),
        lock_fl: f(0.4),
        lock_fr: f(0.0),
        pulse: f(0.5),
        burn: f(0.0),
        ..BrakeLimitFeedback::default()
    };
    build_pedal_meter(&meter, Some(f(0.01)), &palette, Some(feedback), f(1.0), &mut sharp, &mut fallback, &mut glow);
    assert_eq!(sharp.len(), 16);
    let base = mix_color(palette.body, lock_hot_color(), f(0.2));
    assert_eq!(filled(&sharp[0]).2, with_opacity(base, f(0.92)));
    let white = (0.0_f32 * 0.30 + 0.5 * 0.18).clamp(0.0, 0.45);
    let left = mix_color(mix_color(base, lock_cyan_color(), f(cover(0.4))), white_color(), f(white));
    let (half, rounding, fill) = filled(&sharp[1]);
    assert_eq!(half.max.x, f(15.0));
    assert_eq!(rounding, 0.0);
    assert_eq!(fill, with_opacity(left, f(1.0)));
    assert_eq!(glow.instances.len(), 1);
    assert_eq!(glow.instances[0].to_array()[5], f((cover(0.4) * 0.7).clamp(0.0, 1.0)));
    let lit = filled(&sharp[0]).0;
    assert_eq!(
        filled(&fallback[0]),
        (lit.expand(f(1.2)), 2.0, with_opacity(lock_cyan_color(), f(cover(0.4) * 0.30)))
    );
}

#[test]
fn approaching_lock_glows_orange() {
    let meter = rect(5.0, 10.0, 25.0, 190.0);
    let mut sharp = Vec::new();
    let mut fallback = Vec::new();
    let mut glow = GlowBatchBuilder::new(rect(0.0, 0.0, 100.0, 200.0));
    let feedback = BrakeLimitFeedback { approach_mix: f(0.3), ..BrakeLimitFeedback::default() };
    build_pedal_meter(
        &meter,
        Some(f(1.0)),
        &brake_palette(),
        Some(feedback),
        f(0.5),
        &mut sharp,
        &mut fallback,
        &mut glow,
    );
    assert_eq!(sharp.len(), 15);
    assert!(fallback.is_empty());
    assert_eq!(glow.instances.len(), 15);
    assert_eq!(glow.instances[3].to_array()[5], f(0.5 * 0.3 * 0.4));
    build_pedal_meter(&meter, None, &brake_palette(), None, f(0.5), &mut sharp, &mut fallback, &mut glow);
    assert_eq!(sharp.len(), 15);
}

fn edges() -> Vec<ArcEdges> {
    arc_angles()
        .iter()
        .map(|(min, max)| ArcEdges {
            min_cos: f(value(*min).cos()),
            min_sin: f(value(*min).sin()),
            max_cos: f(value(*max).cos()),
            max_sin: f(value(*max).sin()),
        })
        .collect()
}

#[test]
fn arc_angles_leave_gaps() {
    let total = 150.0_f32.to_radians();
    let start = -std::f32::consts::FRAC_PI_2 - total * 0.5;
    let step = total / 37.0;
    let gap = step * 0.60;
    let angles = arc_angles();
    assert_eq!(angles.len(), 37);
    for (i, (min, max)) in angles.iter().enumerate() {
        assert_eq!(value(*min), start + i as f32 * step + gap * 0.5);
        assert_eq!(value(*max), start + (i + 1) as f32 * step - gap * 0.5);
    }
}

fn polygon(shape: &Shape) -> (Vec<Pos2>, Color, f32, Color) {
    match shape {
        Shape::ConvexPolygon { points, fill, stroke } => {
            (points.clone(), *fill, value(stroke.width), stroke.color)
        }
        _ => panic!("expected a polygon, got {:?}", shape),
    }
}

#[test]
fn steering_arc_lights_toward_the_turn() {
    let area = rect(0.0, 0.0, 120.0, 80.0);
    let mut shapes = Vec::new();
    build_steering_arc(&area, Some(f(-0.1)), &edges(), f(1.0), &mut shapes);
    // Two of eighteen segments to the left, the outer one an edge, and the center.
    assert_eq!(shapes.len(), 37 + 3 * 2);
    let white = steering_white_color();
    let hot = hot_face(white, f(0.76));
    let outer = (120.0_f32 * 0.49).max(8.0);
    let inner = (outer - (outer * 0.16).clamp(7.0, 12.0)).max(2.0);
    let center = (60.0_f32, 80.0 * 0.70_f32);
    let first = polygon(&shapes[0]);
    let edge = &edges()[0];
    let polar = |radius: f32, cos: Binary32, sin: Binary32| {
        pos(center.0 + radius * value(cos), center.1 + radius * value(sin))
    };
    assert_eq!(
        first.0,
        vec![
            polar(inner, edge.min_cos, edge.min_sin),
            polar(outer, edge.min_cos, edge.min_sin),
            polar(outer, edge.max_cos, edge.max_sin),
            polar(inner, edge.max_cos, edge.max_sin),
        ]
    );
    assert_eq!(first.1, with_opacity(white, f(0.10)));
    assert_eq!(first.2, 0.0);
    let edge_shape = polygon(&shapes[16]);
    assert_eq!(edge_shape.1, with_opacity(white, f(0.075 * 0.45)));
    assert_eq!(edge_shape.2, 5.0);
    assert_eq!(edge_shape.3, with_opacity(white, f(0.075)));
    let edge_body = polygon(&shapes[18]);
    assert_eq!(edge_body.1, with_opacity(white, f(1.0)));
    assert_eq!(edge_body.2, 0.75);
    assert_eq!(edge_body.3, with_opacity(hot, f(0.72)));
    let active_halo = polygon(&shapes[20]);
    assert_eq!(active_halo.1, with_opacity(white, f(0.15 * 0.55)));
    assert_eq!(active_halo.2, 4.0 * 0.42);
    let none = shapes.len();
    build_steering_arc(&area, None, &edges(), f(1.0), &mut shapes);
    assert_eq!(shapes.len(), none);
}

#[test]
fn luminous_rectangle_has_a_highlight() {
    let area = rect(10.0, 20.0, 30.0, 28.0);
    let color = rgb(10, 200, 30);
    let mut shapes = Vec::new();
    push_luminous_segment(&mut shapes, SegmentGeometry::Rect(area, f(1.5)), color, SegmentState::Edge, f(0.6));
    assert_eq!(shapes.len(), 4);
    assert_eq!(filled(&shapes[0]), (area.expand(f(5.0)), 3.5, with_opacity(color, f(0.6 * 0.075))));
    assert_eq!(filled(&shapes[1]), (area.expand(f(5.0 * 0.42)), 2.5, with_opacity(color, f(0.6 * 0.22))));
    assert_eq!(filled(&shapes[2]), (area, 1.5, with_opacity(color, f(0.6))));
    let y = 20.0 + (8.0_f32 * 0.25).max(0.7);
    let hot = hot_face(color, f(0.76));
    assert_eq!(segment(&shapes[3]), (pos(11.0, y), pos(29.0, y), 0.8, with_opacity(hot, f(0.6 * 0.92))));
    shapes.clear();
    push_luminous_segment(&mut shapes, SegmentGeometry::Rect(area, f(1.5)), color, SegmentState::Inactive, f(0.6));
    assert_eq!(shapes.len(), 1);
    assert_eq!(filled(&shapes[0]).2, with_opacity(color, f(0.6 * 0.10)));
}

#[test]
fn shift_lights_follow_their_bits() {
    let lights = RevLights { percent: 40, bit_value: 0b100_0000_0101 };
    assert_eq!(rev_light_state(&lights, 0), SegmentState::Active);
    assert_eq!(rev_light_state(&lights, 1), SegmentState::Inactive);
    assert_eq!(rev_light_state(&lights, 10), SegmentState::Edge);
    let area = rect(0.0, 0.0, 300.0, 200.0);
    let mut sharp = Vec::new();
    let mut fallback = Vec::new();
    let mut glow = GlowBatchBuilder::new(area);
    build_rev_lights(&area, Some(lights), f(1.0), &mut sharp, &mut fallback, &mut glow);
    assert_eq!(sharp.len(), 15 + 3);
    assert_eq!(fallback.len(), 6);
    assert_eq!(glow.instances.len(), 3);
    let width = (300.0_f32 - 4.0 * 14.0) / 15.0;
    let y = 200.0_f32 * 0.16;
    let first = sized(0.0, y, width, 5.5);
    let low = rpm_low_palette();
    assert_eq!(filled(&sharp[0]), (first, 0.9, with_opacity(low.body, f(0.88))));
    let face = first.shrink(Vec2 { x: f(0.15), y: f(0.15) });
    assert_eq!(filled(&sharp[1]), (face, 0.9, with_opacity(hot_face(low.body, f(0.46)), f(0.92))));
    assert_eq!(
        filled(&sharp[2]),
        (sized(width + 4.0, y, width, 5.5), 0.9, with_opacity(rgb(128, 132, 148), f(0.30)))
    );
    assert_eq!(filled(&fallback[0]), (first.expand(f(4.0)), 2.9, with_opacity(low.emission, f(0.045))));
    let high = rpm_high_palette();
    assert_eq!(filled(&fallback[4]).2, with_opacity(high.emission, f(0.075)));
    assert_eq!(glow.instances[0].to_array()[5], f(0.26 * 1.5));
    assert_eq!(glow.instances[2].to_array()[5], f(0.38 * 1.5));
    assert_eq!(glow.instances[2].to_array()[4], f(3.5));
}

fn style(history_glow: HistoryGlowMode) -> TraceStyle {
    TraceStyle { opacity: f(0.5), history_glow, trace_layers: HistoryTraceLayers::Full }
}

#[test]
fn trace_runs_have_two_halos() {
    let points = [pos(1.0, 2.0), pos(5.0, 9.0), pos(8.0, 3.0)];
    let mut canvas = HudCanvas::new(rect(0.0, 0.0, 10.0, 10.0));
    let palette = throttle_palette();
    draw_trace_run(&points, &palette, f(0.7), true, true, &style(HistoryGlowMode::Legacy), &mut canvas);
    assert!(canvas.sharp_shapes.is_empty());
    assert_eq!(canvas.fallback_emission_shapes.len(), 2);
    assert_eq!(canvas.glow.instances.len(), 2);
    assert_eq!(canvas.glow.instances[1].to_array()[4], f(7.5));
    assert_eq!(canvas.glow.instances[1].to_array()[5], f(0.7 * 0.30));
    for (shape, width, alpha) in [
        (&canvas.fallback_emission_shapes[0], 10.5_f32, 0.055_f32),
        (&canvas.fallback_emission_shapes[1], 5.5, 0.17),
    ] {
        match shape {
            Shape::Line { points: line, stroke } => {
                assert_eq!(line.as_slice(), &points);
                assert_eq!(stroke.width, f(width));
                assert_eq!(stroke.color, with_opacity(palette.emission, f(0.7 * alpha)));
            }
            _ => panic!("expected a line"),
        }
    }
    let mut canvas = HudCanvas::new(rect(0.0, 0.0, 10.0, 10.0));
    draw_trace_run(&points, &speed_palette(), f(0.7), false, false, &style(HistoryGlowMode::Continuous), &mut canvas);
    assert_eq!(canvas.sharp_shapes.len(), 2);
    assert!(canvas.glow.instances.is_empty());
    draw_trace_run(&points[..1], &palette, f(0.7), true, true, &style(HistoryGlowMode::Legacy), &mut canvas);
    assert_eq!(canvas.sharp_shapes.len(), 2);
}

#[test]
fn lock_runs_glow_cyan() {
    let run = [pos(1.0, 8.0), pos(2.0, 7.0)];
    let chart = rect(0.0, 0.0, 10.0, 10.0);
    let mut canvas = HudCanvas::new(chart);
    draw_lock_run(&run, &chart, &BrakeLimitParams::default(), &style(HistoryGlowMode::Legacy), &mut canvas);
    assert_eq!(canvas.glow.instances.len(), 1);
    assert_eq!(canvas.glow.instances[0].to_array()[4], f(7.0));
    assert_eq!(canvas.glow.instances[0].to_array()[5], f(0.5 * 0.45));
    assert_eq!(canvas.sharp_shapes.len(), 1);
}

#[test]
fn projection_fades_upward() {
    let chart = rect(0.0, 0.0, 10.0, 20.0);
    let mesh =
        lock_projection_mesh(&[pos(4.0, 12.0), pos(6.0, 30.0)], &chart, f(0.30), f(0.35), lock_cyan_color(), f(0.5))
            .unwrap();
    assert_eq!(mesh.vertices.len(), 6);
    let near = (0.30_f32 * 0.5).clamp(0.0, 1.0);
    let cyan = lock_cyan_color();
    assert_eq!(mesh.vertices[0].pos, pos(4.0, 12.0));
    assert_eq!(mesh.vertices[0].color, with_opacity(cyan, f(near)));
    assert_eq!(mesh.vertices[1].pos, pos(4.0, 6.0));
    assert_eq!(mesh.vertices[1].color, with_opacity(cyan, f((near * 0.35).clamp(0.0, 1.0))));
    assert_eq!(mesh.vertices[2].pos, pos(4.0, 0.0));
    assert_eq!(mesh.vertices[2].color, with_opacity(cyan, f(0.0)));
    assert_eq!(mesh.vertices[3].pos, pos(6.0, 20.0));
    assert_eq!(mesh.indices, vec![0, 1, 4, 0, 4, 3, 1, 2, 5, 1, 5, 4]);
    let single = lock_projection_mesh(&[pos(0.3, 12.0)], &chart, f(0.3), f(0.3), cyan, f(1.0)).unwrap();
    assert_eq!(single.vertices[0].pos, pos(0.0, 12.0));
    assert_eq!(single.vertices[3].pos, pos(0.3 + 0.6, 12.0));
}

#[test]
fn stroke_visuals_have_their_widths() {
    let palette = speed_palette();
    let visual = |primary: bool, state: PrimaryStrokeState, layer: PrimaryStrokeLayer| {
        let v = primary_stroke_visual(&palette, primary, state, layer);
        (value(v.width), v.color, value(v.alpha))
    };
    let (normal, locked) = (PrimaryStrokeState::Normal, PrimaryStrokeState::BrakeLock);
    let (body, core) = (PrimaryStrokeLayer::Body, PrimaryStrokeLayer::Core);
    assert_eq!(visual(true, normal, body), (2.45, palette.body, 0.88));
    assert_eq!(visual(true, normal, core), (0.9, palette.hot, 0.96));
    assert_eq!(visual(false, normal, body), (1.55, palette.body, 0.62));
    assert_eq!(visual(false, normal, core), (0.6, palette.hot, 0.58));
    assert_eq!(visual(true, locked, body), (3.4, lock_cyan_color(), 0.98));
    assert_eq!(visual(false, locked, core), (1.5, rgb(220, 248, 255), 1.0));
}

#[test]
fn stroke_stands_on_both_sides_of_its_line() {
    let points = [pos(0.0, 10.0), pos(10.0, 10.0), pos(20.0, 10.0)];
    let energies = [f(0.5), f(0.5), f(0.5)];
    let palette = brake_palette();
    let meshes = build_continuous_primary_stroke(&points, &energies, &palette, true, None).unwrap();
    for (i, point) in points.iter().enumerate() {
        let above = meshes.body.vertices[2 * i];
        let below = meshes.body.vertices[2 * i + 1];
        assert_eq!(above.pos, pos(value(point.x), 10.0 + 2.45 * 0.5));
        assert_eq!(below.pos, pos(value(point.x), 10.0 - 2.45 * 0.5));
        assert_eq!(above.color, with_opacity(palette.body, f(0.5 * 0.88)));
    }
    assert_eq!(meshes.body.indices, vec![0, 2, 3, 0, 3, 1, 2, 4, 5, 2, 5, 3]);
}
