use simtrace::binary32::Binary32;
use simtrace::renderer::color::{rgb, Color};
use simtrace::renderer::geometry::{Pos2, Rect, Vec2};
use simtrace::renderer::glow_upload::{
    instance_words, vertex_words, GlowUploads, UploadPlan, INSTANCE_SIZE, MESH_STRIDE,
};
use simtrace::renderer::glow::{
    buffer_capacity, GlowBatch, GlowBatchBuilder, GlowDrawPlan, INSTANCE_FLOATS, MESH_FLOATS, MESH_ROWS,
    MESH_VIEWPORT_OFFSET,
};

fn f(x: f32) -> Binary32 {
    Binary32 { bits: x.to_bits() }
}

fn value(x: Binary32) -> f32 {
    f32::from_bits(x.bits)
}

fn pos(x: f32, y: f32) -> Pos2 {
    Pos2 { x: f(x), y: f(y) }
}

fn viewport_at(x: f32, y: f32, width: f32, height: f32) -> Rect {
    Rect::from_min_size(pos(x, y), Vec2 { x: f(width), y: f(height) })
}

fn viewport() -> Rect {
    viewport_at(0.0, 0.0, 400.0, 100.0)
}

fn red() -> Color {
    rgb(255, 0, 0)
}

fn cyan() -> Color {
    rgb(56, 223, 255)
}

fn straight(count: usize) -> Vec<Pos2> {
    (0..count).map(|i| pos(i as f32 * 4.0, 10.0)).collect()
}

fn polyline(points: &[Pos2], intensity: f32, colors: &[Color], generation: u64) -> GlowBatch {
    let mut builder = GlowBatchBuilder::new(viewport());
    assert!(builder.has_room_for(points.len()));
    builder.push_polyline(points, &vec![f(intensity); points.len()], colors, f(7.5));
    builder.finish(generation)
}

#[test]
fn builder_converts_to_viewport_local_coordinates() {
    let mut builder = GlowBatchBuilder::new(viewport_at(50.0, 20.0, 300.0, 100.0));
    builder.ribbon_segment(pos(55.0, 24.0), pos(65.0, 28.0), f(7.0), red(), f(0.25));
    let batch = builder.finish(9);

    assert_eq!(batch.generation, 9);
    assert_eq!(batch.instances.len(), 1);
    let floats = batch.instances[0].to_array();
    assert_eq!(floats.len(), INSTANCE_FLOATS);
    assert_eq!(&floats[0..4], &[f(5.0), f(4.0), f(15.0), f(8.0)]);
    assert_eq!(&floats[12..14], &[f(300.0), f(100.0)]);
}

#[test]
fn straight_polyline_has_no_joint_duplicates() {
    let points = straight(10);
    let batch = polyline(&points, 0.3, &vec![red(); points.len()], 1);
    let rows = MESH_ROWS;
    assert_eq!(batch.mesh_vertices.len(), points.len() * rows);
    assert_eq!(batch.mesh_indices.len(), (points.len() - 1) * (rows - 1) * 6);
}

#[test]
fn collinear_join_uses_single_miter_cross_section() {
    let points = straight(5);
    let batch = polyline(&points, 0.3, &vec![red(); points.len()], 1);
    assert_eq!(batch.mesh_vertices.len(), points.len() * MESH_ROWS);
}

#[test]
fn sharp_turn_stays_connected_without_radius_growth() {
    let points = vec![pos(0.0, 10.0), pos(50.0, 10.0), pos(0.0, 10.5), pos(50.0, 11.0)];
    let batch = polyline(&points, 0.3, &vec![red(); points.len()], 1);
    assert_eq!(batch.mesh_vertices.len(), points.len() * MESH_ROWS);
    assert!(batch.mesh_indices.iter().all(|i| (*i as usize) < batch.mesh_vertices.len()));
    for vertex in batch.mesh_vertices.iter() {
        let lateral = value(vertex.to_array()[2]);
        if (lateral.abs() - 1.0).abs() < 1e-4 {
            assert!(lateral.abs() <= 1.0 + 1e-4);
        }
    }
}

#[test]
fn outermost_rows_lie_at_the_radius() {
    let points = vec![pos(0.0, 10.0), pos(50.0, 10.0), pos(0.0, 10.5), pos(50.0, 11.0)];
    let batch = polyline(&points, 0.3, &vec![red(); points.len()], 1);
    for (i, vertex) in batch.mesh_vertices.iter().enumerate() {
        let floats = vertex.to_array();
        let center = points[i / MESH_ROWS];
        let dx = value(floats[0]) - value(center.x);
        let dy = value(floats[1]) - value(center.y);
        let distance = dx.hypot(dy);
        assert!((distance - 7.5 * value(floats[2]).abs()).abs() < 1e-3);
    }
}

#[test]
fn colored_polyline_hard_switches_and_shares_boundary_vertex() {
    let points = straight(6);
    let mut colors = vec![red(); points.len()];
    for color in colors.iter_mut().skip(3) {
        *color = cyan();
    }
    let batch = polyline(&points, 0.3, &colors, 1);
    assert_eq!(batch.mesh_vertices.len(), 7 * MESH_ROWS);
}

#[test]
fn instances_and_mesh_coexist() {
    let mut builder = GlowBatchBuilder::new(viewport());
    builder.radial(pos(5.0, 5.0), f(15.0), red(), f(0.3));
    builder.push_polyline(&straight(4), &[f(0.2); 4], &[rgb(0, 255, 0); 4], f(7.5));
    let batch = builder.finish(2);
    assert_eq!(batch.instances.len(), 1);
    assert!(!batch.mesh_indices.is_empty());
    assert!(!batch.is_empty());
}

#[test]
fn polyline_does_not_add_instances_and_ribbon_does_not_add_mesh() {
    let batch = polyline(&straight(4), 0.2, &[red(); 4], 1);
    assert!(batch.instances.is_empty());
    assert!(!batch.mesh_indices.is_empty());

    let mut legacy_only = GlowBatchBuilder::new(viewport());
    legacy_only.ribbon_segment(pos(1.0, 1.0), pos(9.0, 2.0), f(7.5), red(), f(0.3));
    let batch = legacy_only.finish(1);
    assert_eq!(batch.instances.len(), 1);
    assert!(batch.mesh_indices.is_empty());
}

#[test]
fn mesh_only_batch_is_non_empty_and_plans_indexed_draw() {
    let batch = polyline(&straight(4), 0.2, &[red(); 4], 41);
    assert!(!batch.is_empty());
    assert_eq!(batch.draw_plan(), GlowDrawPlan { instances: false, mesh: true });
}

#[test]
fn mesh_only_generation_controls_upload() {
    let batch = polyline(&straight(4), 0.2, &[red(); 4], 41);
    assert!(batch.needs_upload(None));
    assert!(batch.needs_upload(Some(40)));
    assert!(!batch.needs_upload(Some(41)));
}

#[test]
fn mesh_viewport_attribute_reads_the_two_viewport_floats() {
    let batch = polyline(&straight(2), 0.2, &[red(); 2], 1);
    assert_eq!(MESH_VIEWPORT_OFFSET, 32);
    let floats = batch.mesh_vertices[0].to_array();
    assert_eq!(floats.len(), MESH_FLOATS);
    assert_eq!(&floats[8..10], &[f(400.0), f(100.0)]);
}

#[test]
fn lock_grip_relock_polyline_stays_continuous() {
    let points = straight(10);
    let colors: Vec<Color> = (0..10)
        .map(|i| if (2..4).contains(&i) || (6..8).contains(&i) { cyan() } else { red() })
        .collect();
    let batch = polyline(&points, 0.3, &colors, 1);
    let cross_sections = 10 + 4;
    assert_eq!(batch.mesh_vertices.len(), cross_sections * MESH_ROWS);
    assert_eq!(batch.mesh_indices.len(), (cross_sections - 1) * (MESH_ROWS - 1) * 6);
}

#[test]
fn short_polyline_draws_nothing() {
    let batch = polyline(&straight(1), 0.3, &[red()], 1);
    assert!(batch.is_empty());
    assert!(GlowBatch::default().is_empty());
    assert!(!batch.has_mesh());
    assert!(!batch.has_instances());
}

#[test]
fn second_polyline_has_its_own_vertices() {
    let mut builder = GlowBatchBuilder::new(viewport());
    builder.push_polyline(&straight(2), &[f(0.2); 2], &[red(); 2], f(7.5));
    builder.push_polyline(&straight(2), &[f(0.2); 2], &[red(); 2], f(7.5));
    let batch = builder.finish(1);
    let half = batch.mesh_indices.len() / 2;
    assert!(batch.mesh_indices[..half].iter().all(|i| (*i as usize) < 2 * MESH_ROWS));
    assert!(batch.mesh_indices[half..].iter().all(|i| (*i as usize) >= 2 * MESH_ROWS));
}

#[test]
fn lights_have_their_kinds_and_smallest_radius() {
    let mut builder = GlowBatchBuilder::new(viewport());
    builder.radial(pos(5.0, 6.0), f(0.1), red(), f(2.0));
    builder.rounded_rect(viewport_at(1.0, 2.0, 3.0, 4.0), f(9.0), cyan(), f(0.5));
    let batch = builder.finish(1);
    let radial = batch.instances[0].to_array();
    assert_eq!(&radial[0..4], &[f(5.0), f(6.0), f(5.0), f(6.0)]);
    assert_eq!(radial[4], f(0.5));
    let rounded = batch.instances[1].to_array();
    assert_eq!(&rounded[0..4], &[f(1.0), f(2.0), f(4.0), f(6.0)]);
    assert_ne!(radial[6], rounded[6]);
}

#[test]
fn buffers_grow_to_powers_of_two() {
    assert_eq!(buffer_capacity(0, 0), 1);
    assert_eq!(buffer_capacity(5, 0), 8);
    assert_eq!(buffer_capacity(8, 8), 8);
    assert_eq!(buffer_capacity(9, 8), 16);
    assert_eq!(buffer_capacity(3, 64), 64);
}

#[test]
fn batches_are_uploaded_once() {
    let mut uploads = GlowUploads::default();
    let batch = polyline(&straight(4), 0.2, &[red(); 4], 41);
    let plan = uploads.plan(&batch);
    assert_eq!(
        plan,
        Some(UploadPlan {
            grow_instances: false,
            grow_mesh_vertices: true,
            grow_mesh_indices: true,
            write_instances: false,
            write_mesh: true,
        })
    );
    assert_eq!(uploads.instance_capacity, 1);
    assert_eq!(uploads.mesh_vertex_capacity, 32);
    assert_eq!(uploads.mesh_index_capacity, 128);
    assert_eq!(uploads.uploaded_generation, Some(41));
    assert_eq!(uploads.plan(&batch), None);
    let smaller = polyline(&straight(2), 0.2, &[red(); 2], 42);
    assert!(!uploads.plan(&smaller).unwrap().grow_mesh_vertices);
    assert_eq!(uploads.mesh_vertex_capacity, 32);
}

#[test]
fn uploaded_words_are_the_numbers() {
    let mut builder = GlowBatchBuilder::new(viewport());
    builder.radial(pos(5.0, 6.0), f(3.0), red(), f(0.5));
    builder.push_polyline(&straight(2), &[f(0.2); 2], &[red(); 2], f(7.5));
    let batch = builder.finish(1);
    let words = instance_words(&batch.instances);
    assert_eq!(words.len() * 4, batch.instances.len() * INSTANCE_SIZE as usize);
    assert_eq!(words[0], 5.0_f32.to_bits());
    assert_eq!(words[4], 3.0_f32.to_bits());
    let words = vertex_words(&batch.mesh_vertices);
    assert_eq!(words.len() * 4, batch.mesh_vertices.len() * MESH_STRIDE as usize);
    assert_eq!(words[8], 400.0_f32.to_bits());
}

#[test]
fn radius_is_kept_at_every_join_within_its_error() {
    let mut points = Vec::new();
    let mut state = 12_345_u32;
    for _ in 0..60 {
        state = state.wrapping_mul(1_664_525).wrapping_add(1_013_904_223);
        points.push(pos((state >> 16) as f32 / 131.0, ((state >> 4) & 0xfff) as f32 / 37.0));
    }
    let mut builder = GlowBatchBuilder::new(viewport());
    let intensities = vec![f(0.5); points.len()];
    let colors = vec![red(); points.len()];
    let radius = 7.3_f32;
    builder.push_polyline(&points, &intensities, &colors, f(radius));
    let batch = builder.finish(1);
    for (section, point) in batch.mesh_vertices.chunks(7).zip(&points) {
        for vertex in [&section[0], &section[6]] {
            let dx = value(vertex.position.x) as f64 - value(point.x) as f64;
            let dy = value(vertex.position.y) as f64 - value(point.y) as f64;
            let largest = value(vertex.position.x).abs().max(value(vertex.position.y).abs()) as f64;
            let error = largest / 16_777_216.0;
            let r = radius as f64;
            let slack = r * r / 1_048_576.0 + 4.0 * r * error + 2.0 * error * error;
            assert!((dx * dx + dy * dy - r * r).abs() <= slack);
        }
    }
}
