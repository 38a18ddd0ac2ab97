//! The painted strokes of the history, as meshes.
use crate::arithmetic::{
    adds_up, law_middle_lies_between, law_sum_and_product_commute, lemma_results_are_numbers, HALF_BITS,
};
use crate::binary32::{num, number, Binary32, ONE_BITS, ZERO_BITS};
use crate::renderer::color::{dimmed, opaque, rgb, with_opacity, Color};
use crate::renderer::geometry::{Pos2, Rect, Vec2};
use crate::renderer::palette::{lock_cyan, lock_cyan_color, ChannelPalette};
use crate::renderer::shapes::{add_shape, views, Mesh, MeshView, Shape, ShapeView, Vertex};
use vstd::prelude::*;

verus! {

/// Bit pattern of 0.00000001: closer points have no direction between them.
pub const COINCIDENT_BITS: u32 = 0x322b_cc77;

/// Bit pattern of 0.0001: shorter vectors are not made longer than this.
pub const SHORTEST_BITS: u32 = 0x38d1_b717;

/// Bit pattern of 0.6: half the width of the projection of a single sample.
pub const SINGLE_HALF_WIDTH_BITS: u32 = 0x3f19_999a;

/// What a sample of a stroke shows.
#[derive(Debug, Clone, Copy, PartialEq, Eq, Structural)]
pub enum PrimaryStrokeState {
    Normal,
    BrakeLock,
}

/// The layers of a stroke.
#[derive(Debug, Clone, Copy, PartialEq, Eq, Structural)]
pub enum PrimaryStrokeLayer {
    Body,
    Core,
}

/// A sample of a stroke.
#[derive(Debug, Clone, Copy, PartialEq, Eq, Structural)]
pub struct PrimaryStrokeSample {
    pub position: Pos2,
    pub energy: Binary32,
    pub state: PrimaryStrokeState,
}

/// The two layers of a stroke.
#[derive(Debug, Clone, PartialEq, Eq)]
pub struct PrimaryStrokeMeshes {
    pub body: Mesh,
    pub core: Mesh,
}

/// Width, colour and opacity of a stroke.
#[derive(Debug, Clone, Copy, PartialEq, Eq, Structural)]
pub struct StrokeVisual {
    pub width: Binary32,
    pub color: Color,
    pub alpha: Binary32,
}

/// How a sample is drawn: a lock in cyan whatever the channel, anything else in
/// the colours of its channel, primary traces wider than others.
pub open spec fn stroke_visual(
    palette: ChannelPalette,
    primary: bool,
    state: PrimaryStrokeState,
    layer: PrimaryStrokeLayer,
) -> StrokeVisual {
    match (state, layer) {
        (PrimaryStrokeState::BrakeLock, PrimaryStrokeLayer::Body) => StrokeVisual {
            width: num(0x4059_999a),
            color: lock_cyan(),
            alpha: num(0x3f7a_e148),
        },
        (PrimaryStrokeState::BrakeLock, PrimaryStrokeLayer::Core) => StrokeVisual {
            width: num(0x3fc0_0000),
            color: opaque(220, 248, 255),
            alpha: num(ONE_BITS),
        },
        (PrimaryStrokeState::Normal, PrimaryStrokeLayer::Body) => if primary {
            StrokeVisual { width: num(0x401c_cccd), color: palette.body, alpha: num(0x3f61_47ae) }
        } else {
            StrokeVisual { width: num(0x3fc6_6666), color: palette.body, alpha: num(0x3f1e_b852) }
        },
        (PrimaryStrokeState::Normal, PrimaryStrokeLayer::Core) => if primary {
            StrokeVisual { width: num(0x3f66_6666), color: palette.hot, alpha: num(0x3f75_c28f) }
        } else {
            StrokeVisual { width: num(0x3f19_999a), color: palette.hot, alpha: num(0x3f14_7ae1) }
        },
    }
}

/// How a sample is drawn.
pub fn primary_stroke_visual(
    palette: &ChannelPalette,
    primary: bool,
    state: PrimaryStrokeState,
    layer: PrimaryStrokeLayer,
) -> (r: StrokeVisual)
    ensures
        r == stroke_visual(*palette, primary, state, layer),
{
    match (state, layer) {
        // 3.4 wide at 0.98
        (PrimaryStrokeState::BrakeLock, PrimaryStrokeLayer::Body) => StrokeVisual {
            width: number(0x4059_999a),
            color: lock_cyan_color(),
            alpha: number(0x3f7a_e148),
        },
        // 1.5 wide at 1
        (PrimaryStrokeState::BrakeLock, PrimaryStrokeLayer::Core) => StrokeVisual {
            width: number(0x3fc0_0000),
            color: rgb(220, 248, 255),
            alpha: number(ONE_BITS),
        },
        // 2.45 wide at 0.88, or 1.55 wide at 0.62
        (PrimaryStrokeState::Normal, PrimaryStrokeLayer::Body) => if primary {
            StrokeVisual { width: number(0x401c_cccd), color: palette.body, alpha: number(0x3f61_47ae) }
        } else {
            StrokeVisual { width: number(0x3fc6_6666), color: palette.body, alpha: number(0x3f1e_b852) }
        },
        // 0.9 wide at 0.96, or 0.6 wide at 0.58
        (PrimaryStrokeState::Normal, PrimaryStrokeLayer::Core) => if primary {
            StrokeVisual { width: number(0x3f66_6666), color: palette.hot, alpha: number(0x3f75_c28f) }
        } else {
            StrokeVisual { width: number(0x3f19_999a), color: palette.hot, alpha: number(0x3f14_7ae1) }
        },
    }
}

/// The state of a sample. Without lock states nothing is locked.
pub open spec fn state_at(locked: Option<Seq<bool>>, index: int) -> PrimaryStrokeState {
    match locked {
        Some(states) => if index < states.len() && states[index] {
            PrimaryStrokeState::BrakeLock
        } else {
            PrimaryStrokeState::Normal
        },
        None => PrimaryStrokeState::Normal,
    }
}

/// The samples of a stroke up to the point `last`. Where the state changes, two
/// coincident samples half-way make the colour switch at once while the line
/// stays connected.
pub open spec fn stroke_samples(
    points: Seq<Pos2>,
    energies: Seq<Binary32>,
    locked: Option<Seq<bool>>,
    last: int,
) -> Seq<PrimaryStrokeSample>
    decreases last,
{
    if last <= 0 {
        seq![PrimaryStrokeSample { position: points[0], energy: energies[0], state: state_at(locked, 0) }]
    } else {
        let earlier = stroke_samples(points, energies, locked, last - 1);
        let sample = PrimaryStrokeSample {
            position: points[last],
            energy: energies[last],
            state: state_at(locked, last),
        };
        if state_at(locked, last) != state_at(locked, last - 1) {
            let boundary = PrimaryStrokeSample {
                position: points[last - 1].toward(points[last], num(HALF_BITS)),
                energy: energies[last - 1].sum(energies[last]).product(num(HALF_BITS)),
                state: state_at(locked, last - 1),
            };
            earlier.push(boundary).push(
                PrimaryStrokeSample { state: state_at(locked, last), ..boundary },
            ).push(sample)
        } else {
            earlier.push(sample)
        }
    }
}

/// A vector of length one, unless it is too short.
pub open spec fn unit_vector(v: Vec2) -> Vec2 {
    v.divided(v.norm().larger(num(SHORTEST_BITS)))
}

/// A vector of length one, unless it is too short.
pub fn normalized_vec2(v: Vec2) -> (r: Vec2)
    ensures
        r == unit_vector(v),
{
    v.over(v.length().max(number(SHORTEST_BITS)))
}

/// The direction from the nearest earlier sample that does not coincide with
/// the one at `index`, looking back from `candidate`.
pub open spec fn incoming(samples: Seq<PrimaryStrokeSample>, index: int, candidate: int) -> Option<Vec2>
    decreases candidate + 1,
{
    if candidate < 0 {
        None
    } else {
        let delta = samples[index].position.from(samples[candidate].position);
        if num(COINCIDENT_BITS).below(delta.square()) {
            Some(unit_vector(delta))
        } else {
            incoming(samples, index, candidate - 1)
        }
    }
}

/// The direction to the nearest later sample that does not coincide with the
/// one at `index`, looking ahead from `candidate`.
pub open spec fn outgoing(samples: Seq<PrimaryStrokeSample>, index: int, candidate: int) -> Option<Vec2>
    decreases samples.len() - candidate,
{
    if candidate >= samples.len() {
        None
    } else {
        let delta = samples[candidate].position.from(samples[index].position);
        if num(COINCIDENT_BITS).below(delta.square()) {
            Some(unit_vector(delta))
        } else {
            outgoing(samples, index, candidate + 1)
        }
    }
}

/// The direction of the line at a sample: the average of the incoming and the
/// outgoing direction.
pub open spec fn line_direction(incoming: Option<Vec2>, outgoing: Option<Vec2>) -> Vec2 {
    match (incoming, outgoing) {
        (Some(before), Some(after)) => {
            let average = before.sum(after);
            if num(COINCIDENT_BITS).below(average.square()) {
                unit_vector(average)
            } else {
                after
            }
        },
        (Some(before), None) => before,
        (None, Some(after)) => after,
        (None, None) => Vec2 { x: num(ONE_BITS), y: num(ZERO_BITS) },
    }
}

/// The normal of the line at a sample.
pub open spec fn strip_normal(samples: Seq<PrimaryStrokeSample>, index: int) -> Vec2 {
    line_direction(incoming(samples, index, index - 1), outgoing(samples, index, index + 1)).turned()
}

/// The normal of the line at a sample.
pub fn strip_normal_at(samples: &Vec<PrimaryStrokeSample>, index: usize) -> (r: Vec2)
    requires
        index < samples@.len(),
    ensures
        r == strip_normal(samples@, index as int),
{
    let count: usize = samples.len();
    let position = samples[index].position;
    let epsilon = number(COINCIDENT_BITS);
    let mut before: Option<Vec2> = None;
    let mut back: usize = index;
    while back > 0
        invariant_except_break
            before is None,
            incoming(samples@, index as int, index - 1) == incoming(samples@, index as int, back - 1),
        invariant
            back <= index < samples@.len(),
            position == samples@[index as int].position,
            epsilon == num(COINCIDENT_BITS),
        ensures
            before == incoming(samples@, index as int, index - 1),
        decreases back,
    {
        let delta = position.away_from(samples[back - 1].position);
        if epsilon.lt(delta.length_sq()) {
            before = Some(normalized_vec2(delta));
            break;
        }
        back = back - 1;
    }
    let mut after: Option<Vec2> = None;
    let mut ahead: usize = index + 1;
    while ahead < count
        invariant_except_break
            after is None,
            outgoing(samples@, index as int, index + 1) == outgoing(samples@, index as int, ahead as int),
        invariant
            count == samples@.len(),
            index < samples@.len(),
            index + 1 <= ahead <= samples@.len(),
            position == samples@[index as int].position,
            epsilon == num(COINCIDENT_BITS),
        ensures
            after == outgoing(samples@, index as int, index + 1),
        decreases samples@.len() - ahead,
    {
        let delta = samples[ahead].position.away_from(position);
        if epsilon.lt(delta.length_sq()) {
            after = Some(normalized_vec2(delta));
            break;
        }
        ahead = ahead + 1;
    }
    let direction = match (before, after) {
        (Some(before), Some(after)) => {
            let average = before.plus(after);
            if epsilon.lt(average.length_sq()) {
                normalized_vec2(average)
            } else {
                after
            }
        },
        (Some(before), None) => before,
        (None, Some(after)) => after,
        (None, None) => Vec2 { x: number(ONE_BITS), y: number(ZERO_BITS) },
    };
    direction.turn()
}

/// The vertex on one side of a sample.
pub open spec fn stroke_vertex(
    samples: Seq<PrimaryStrokeSample>,
    palette: ChannelPalette,
    primary: bool,
    layer: PrimaryStrokeLayer,
    i: int,
) -> Vertex {
    let sample = samples[i / 2];
    let visual = stroke_visual(palette, primary, sample.state, layer);
    let offset = strip_normal(samples, i / 2).scaled(visual.width.product(num(HALF_BITS)));
    Vertex {
        pos: if i % 2 == 0 {
            sample.position.moved(offset)
        } else {
            sample.position.moved_back(offset)
        },
        color: dimmed(visual.color, sample.energy.product(visual.alpha)),
    }
}

/// The indices of a strip of `count` cross-sections of two vertices each.
pub open spec fn strip_indices(count: int) -> Seq<u32> {
    Seq::new(
        (if count <= 1 {
            0
        } else {
            6 * (count - 1)
        }) as nat,
        |i: int|
            {
                let previous = 2 * (i / 6);
                let corner = i % 6;
                (if corner == 0 || corner == 3 {
                    previous
                } else if corner == 1 {
                    previous + 2
                } else if corner == 5 {
                    previous + 1
                } else {
                    previous + 3
                }) as u32
            },
    )
}

/// The mesh of one layer of a stroke.
pub open spec fn layer_mesh(
    samples: Seq<PrimaryStrokeSample>,
    palette: ChannelPalette,
    primary: bool,
    layer: PrimaryStrokeLayer,
) -> MeshView {
    MeshView {
        vertices: Seq::new(2 * samples.len(), |i: int| stroke_vertex(samples, palette, primary, layer, i)),
        indices: strip_indices(samples.len() as int),
    }
}

fn primary_stroke_layer_mesh(
    samples: &Vec<PrimaryStrokeSample>,
    palette: &ChannelPalette,
    primary: bool,
    layer: PrimaryStrokeLayer,
) -> (r: Mesh)
    requires
        2 * samples@.len() <= u32::MAX,
    ensures
        r@ == layer_mesh(samples@, *palette, primary, layer),
{
    let mut vertices: Vec<Vertex> = Vec::new();
    let mut indices: Vec<u32> = Vec::new();
    let mut index: usize = 0;
    while index < samples.len()
        invariant
            index <= samples@.len(),
            2 * samples@.len() <= u32::MAX,
            vertices@.len() == 2 * index,
            forall|i: int|
                0 <= i < 2 * index ==> #[trigger] vertices@[i] == stroke_vertex(samples@, *palette, primary, layer, i),
            indices@ == strip_indices(index as int),
        decreases samples@.len() - index,
    {
        let sample = samples[index];
        let visual = primary_stroke_visual(palette, primary, sample.state, layer);
        let color = with_opacity(visual.color, sample.energy.times(visual.alpha));
        let offset = strip_normal_at(samples, index).times(visual.width.times(number(HALF_BITS)));
        vertices.push(Vertex { pos: sample.position.plus(offset), color });
        vertices.push(Vertex { pos: sample.position.minus(offset), color });
        if index > 0 {
            let previous: u32 = (index as u32 - 1) * 2;
            let current: u32 = index as u32 * 2;
            indices.push(previous);
            indices.push(current);
            indices.push(current + 1);
            indices.push(previous);
            indices.push(current + 1);
            indices.push(previous + 1);
        }
        index = index + 1;
        proof {
            assert(indices@ =~= strip_indices(index as int));
        }
    }
    let mesh = Mesh { vertices, indices };
    proof {
        assert(mesh@.vertices =~= layer_mesh(samples@, *palette, primary, layer).vertices);
    }
    mesh
}

/// The optional lock states.
pub open spec fn locked_view(brake_locked: Option<&[bool]>) -> Option<Seq<bool>> {
    match brake_locked {
        Some(states) => Some(states@),
        None => None,
    }
}

fn state_of(brake_locked: Option<&[bool]>, index: usize) -> (r: PrimaryStrokeState)
    ensures
        r == state_at(locked_view(brake_locked), index as int),
{
    match brake_locked {
        Some(states) => if index < states.len() && states[index] {
            PrimaryStrokeState::BrakeLock
        } else {
            PrimaryStrokeState::Normal
        },
        None => PrimaryStrokeState::Normal,
    }
}

/// The number of points that a stroke uses.
pub open spec fn stroke_count(points: nat, energies: nat) -> nat {
    if points <= energies {
        points
    } else {
        energies
    }
}

/// The sharp trace as two meshes, a body and a core. Age and lock state belong
/// to the vertices, so neither can split the geometry. Fewer than two points
/// make no trace.
pub fn build_continuous_primary_stroke(
    points: &[Pos2],
    energies: &[Binary32],
    palette: &ChannelPalette,
    primary: bool,
    brake_locked: Option<&[bool]>,
) -> (r: Option<PrimaryStrokeMeshes>)
    requires
        6 * stroke_count(points@.len(), energies@.len()) <= u32::MAX,
    ensures
        ({
            let count = stroke_count(points@.len(), energies@.len()) as int;
            let samples = stroke_samples(points@, energies@, locked_view(brake_locked), count - 1);
            &&& r is Some <==> count >= 2
            &&& r matches Some(meshes) ==> {
                &&& meshes.body@ == layer_mesh(samples, *palette, primary, PrimaryStrokeLayer::Body)
                &&& meshes.core@ == layer_mesh(samples, *palette, primary, PrimaryStrokeLayer::Core)
            }
        }),
{
    let count: usize = if points.len() <= energies.len() {
        points.len()
    } else {
        energies.len()
    };
    if count < 2 {
        return None;
    }
    let half = number(HALF_BITS);
    let mut samples: Vec<PrimaryStrokeSample> = Vec::new();
    samples.push(PrimaryStrokeSample { position: points[0], energy: energies[0], state: state_of(brake_locked, 0) });
    let mut index: usize = 1;
    proof {
        assert(samples@ =~= stroke_samples(points@, energies@, locked_view(brake_locked), 0));
    }
    while index < count
        invariant
            1 <= index <= count,
            count <= points@.len(),
            count <= energies@.len(),
            half == num(HALF_BITS),
            samples@ == stroke_samples(points@, energies@, locked_view(brake_locked), index - 1),
            samples@.len() <= 3 * index,
        decreases count - index,
    {
        let previous_state = state_of(brake_locked, index - 1);
        let state = state_of(brake_locked, index);
        if state != previous_state {
            let position = points[index - 1].lerp(points[index], half);
            let energy = energies[index - 1].plus(energies[index]).times(half);
            samples.push(PrimaryStrokeSample { position, energy, state: previous_state });
            samples.push(PrimaryStrokeSample { position, energy, state });
        }
        samples.push(PrimaryStrokeSample { position: points[index], energy: energies[index], state });
        proof {
            assert(samples@ =~= stroke_samples(points@, energies@, locked_view(brake_locked), index as int));
        }
        index = index + 1;
    }
    Some(
        PrimaryStrokeMeshes {
            body: primary_stroke_layer_mesh(&samples, palette, primary, PrimaryStrokeLayer::Body),
            core: primary_stroke_layer_mesh(&samples, palette, primary, PrimaryStrokeLayer::Core),
        },
    )
}

/// The shapes of a sharp trace.
pub open spec fn stroke_shapes(
    points: Seq<Pos2>,
    energies: Seq<Binary32>,
    palette: ChannelPalette,
    primary: bool,
    locked: Option<Seq<bool>>,
) -> Seq<ShapeView> {
    let count = stroke_count(points.len(), energies.len()) as int;
    if count < 2 {
        Seq::empty()
    } else {
        let samples = stroke_samples(points, energies, locked, count - 1);
        seq![
            ShapeView::Mesh { mesh: layer_mesh(samples, palette, primary, PrimaryStrokeLayer::Body) },
            ShapeView::Mesh { mesh: layer_mesh(samples, palette, primary, PrimaryStrokeLayer::Core) },
        ]
    }
}

/// Adds a sharp trace, the body below the core.
pub fn push_continuous_primary_stroke(
    points: &[Pos2],
    energies: &[Binary32],
    palette: &ChannelPalette,
    primary: bool,
    brake_locked: Option<&[bool]>,
    shapes: &mut Vec<Shape>,
)
    requires
        6 * stroke_count(points@.len(), energies@.len()) <= u32::MAX,
    ensures
        views(final(shapes)@) == views(old(shapes)@) + stroke_shapes(
            points@,
            energies@,
            *palette,
            primary,
            locked_view(brake_locked),
        ),
{
    if let Some(meshes) = build_continuous_primary_stroke(points, energies, palette, primary, brake_locked) {
        add_shape(shapes, Shape::Mesh { mesh: meshes.body });
        add_shape(shapes, Shape::Mesh { mesh: meshes.core });
    }
    proof {
        assert(views(shapes@) =~= views(old(shapes)@) + stroke_shapes(
            points@,
            energies@,
            *palette,
            primary,
            locked_view(brake_locked),
        ));
    }
}

/// Whether a rectangle's corners are in order.
pub open spec fn proper(rect: Rect) -> bool {
    rect.min.x.at_most(rect.max.x) && rect.min.y.at_most(rect.max.y)
}

/// Whether a rectangle's corners are in order.
pub fn is_proper(rect: &Rect) -> (r: bool)
    ensures
        r == proper(*rect),
{
    rect.min.x.le(rect.max.x) && rect.min.y.le(rect.max.y)
}

/// A point moved into a rectangle.
pub open spec fn confined(point: Pos2, rect: Rect) -> Pos2 {
    Pos2 { x: point.x.clamped(rect.min.x, rect.max.x), y: point.y.clamped(rect.min.y, rect.max.y) }
}

/// The feet of the projection: the points of the run within the chart. A
/// single point becomes a narrow pair.
pub open spec fn projection_columns(run: Seq<Pos2>, rect: Rect) -> Seq<Pos2> {
    if run.len() == 1 {
        let foot = confined(run[0], rect);
        let half = num(SINGLE_HALF_WIDTH_BITS);
        seq![
            Pos2 { x: foot.x.difference(half).clamped(rect.min.x, rect.max.x), y: foot.y },
            Pos2 { x: foot.x.sum(half).clamped(rect.min.x, rect.max.x), y: foot.y },
        ]
    } else {
        run.map_values(|point: Pos2| confined(point, rect))
    }
}

/// The opacity of the projection at the trace.
pub open spec fn near_alpha(alpha_near: Binary32, opacity: Binary32) -> Binary32 {
    alpha_near.product(opacity).unit()
}

/// A vertex of the projection: at the trace, half-way up, or at the top.
pub open spec fn projection_vertex(
    columns: Seq<Pos2>,
    rect: Rect,
    near: Binary32,
    falloff: Binary32,
    color: Color,
    i: int,
) -> Vertex {
    let foot = columns[i / 3];
    let row = i % 3;
    if row == 0 {
        Vertex { pos: foot, color: dimmed(color, near) }
    } else if row == 1 {
        Vertex {
            pos: Pos2 { x: foot.x, y: foot.y.sum(rect.min.y).product(num(HALF_BITS)) },
            color: dimmed(color, near.product(falloff.unit()).unit()),
        }
    } else {
        Vertex { pos: Pos2 { x: foot.x, y: rect.min.y }, color: dimmed(color, num(ZERO_BITS)) }
    }
}

/// The indices between `count` columns of three rows.
pub open spec fn column_indices(count: int) -> Seq<u32> {
    Seq::new(
        (if count <= 1 {
            0
        } else {
            12 * (count - 1)
        }) as nat,
        |i: int|
            {
                let base = 3 * (i / 12);
                let next = base + 3;
                let corner = i % 12;
                (if corner == 0 || corner == 3 {
                    base
                } else if corner == 1 || corner == 6 || corner == 9 {
                    base + 1
                } else if corner == 2 || corner == 4 || corner == 11 {
                    next + 1
                } else if corner == 5 {
                    next
                } else if corner == 7 {
                    base + 2
                } else {
                    next + 2
                }) as u32
            },
    )
}

/// Whether a lock run has a projection: there is a run, the chart has a
/// height, and the projection is visible at all.
pub open spec fn projects(run: Seq<Pos2>, rect: Rect, alpha_near: Binary32, opacity: Binary32) -> bool {
    &&& run.len() > 0
    &&& !rect.span_y().at_most(num(ZERO_BITS))
    &&& !near_alpha(alpha_near, opacity).at_most(num(SHORTEST_BITS))
}

/// The upward gradient above a lock run.
pub open spec fn projection_mesh(
    run: Seq<Pos2>,
    rect: Rect,
    alpha_near: Binary32,
    falloff: Binary32,
    color: Color,
    opacity: Binary32,
) -> MeshView {
    let columns = projection_columns(run, rect);
    let near = near_alpha(alpha_near, opacity);
    MeshView {
        vertices: Seq::new(
            3 * columns.len(),
            |i: int| projection_vertex(columns, rect, near, falloff, color, i),
        ),
        indices: column_indices(columns.len() as int),
    }
}

fn projection_feet(run: &[Pos2], rect: &Rect) -> (r: Vec<Pos2>)
    requires
        proper(*rect),
    ensures
        r@ == projection_columns(run@, *rect),
{
    let mut columns: Vec<Pos2> = Vec::new();
    if run.len() == 1 {
        let x = run[0].x.clamp(rect.min.x, rect.max.x);
        let y = run[0].y.clamp(rect.min.y, rect.max.y);
        let half = number(SINGLE_HALF_WIDTH_BITS);
        columns.push(Pos2 { x: x.minus(half).clamp(rect.min.x, rect.max.x), y });
        columns.push(Pos2 { x: x.plus(half).clamp(rect.min.x, rect.max.x), y });
        proof {
            assert(columns@ =~= projection_columns(run@, *rect));
        }
        return columns;
    }
    let mut i: usize = 0;
    while i < run.len()
        invariant
            i <= run@.len(),
            proper(*rect),
            columns@.len() == i,
            forall|j: int| 0 <= j < i ==> #[trigger] columns@[j] == confined(run@[j], *rect),
        decreases run@.len() - i,
    {
        columns.push(
            Pos2 {
                x: run[i].x.clamp(rect.min.x, rect.max.x),
                y: run[i].y.clamp(rect.min.y, rect.max.y),
            },
        );
        i = i + 1;
    }
    proof {
        assert(columns@ =~= projection_columns(run@, *rect));
    }
    columns
}

/// The upward gradient above a lock run, confined to the chart: it fades from
/// the trace to nothing at the top.
pub fn lock_projection_mesh(
    run: &[Pos2],
    rect: &Rect,
    alpha_near: Binary32,
    falloff: Binary32,
    color: Color,
    opacity: Binary32,
) -> (r: Option<Mesh>)
    requires
        projects(run@, *rect, alpha_near, opacity) ==> proper(*rect),
        3 * run@.len() + 3 <= u32::MAX,
    ensures
        r is Some <==> projects(run@, *rect, alpha_near, opacity),
        r matches Some(mesh) ==> mesh@ == projection_mesh(run@, *rect, alpha_near, falloff, color, opacity),
{
    if run.len() == 0 || rect.height().le(number(ZERO_BITS)) {
        return None;
    }
    let near = alpha_near.times(opacity).clamp_unit();
    if near.le(number(SHORTEST_BITS)) {
        return None;
    }
    let mid_alpha = near.times(falloff.clamp_unit()).clamp_unit();
    let bottom_color = with_opacity(color, near);
    let mid_color = with_opacity(color, mid_alpha);
    let top_color = with_opacity(color, number(ZERO_BITS));
    let top_y = rect.min.y;
    let columns = projection_feet(run, rect);
    let mut vertices: Vec<Vertex> = Vec::new();
    let mut indices: Vec<u32> = Vec::new();
    let mut column: usize = 0;
    while column < columns.len()
        invariant
            column <= columns@.len(),
            3 * columns@.len() <= u32::MAX,
            top_y == rect.min.y,
            bottom_color == dimmed(color, near),
            mid_color == dimmed(color, near.product(falloff.unit()).unit()),
            top_color == dimmed(color, num(ZERO_BITS)),
            vertices@.len() == 3 * column,
            forall|i: int|
                0 <= i < 3 * column ==> #[trigger] vertices@[i] == projection_vertex(
                    columns@,
                    *rect,
                    near,
                    falloff,
                    color,
                    i,
                ),
            indices@ == column_indices(column as int),
        decreases columns@.len() - column,
    {
        let foot = columns[column];
        let mid_y = foot.y.plus(top_y).times(number(HALF_BITS));
        vertices.push(Vertex { pos: foot, color: bottom_color });
        vertices.push(Vertex { pos: Pos2 { x: foot.x, y: mid_y }, color: mid_color });
        vertices.push(Vertex { pos: Pos2 { x: foot.x, y: top_y }, color: top_color });
        if column > 0 {
            let base: u32 = (column as u32 - 1) * 3;
            let next: u32 = column as u32 * 3;
            // From the trace to half-way up.
            indices.push(base);
            indices.push(base + 1);
            indices.push(next + 1);
            indices.push(base);
            indices.push(next + 1);
            indices.push(next);
            // From half-way up to the top.
            indices.push(base + 1);
            indices.push(base + 2);
            indices.push(next + 2);
            indices.push(base + 1);
            indices.push(next + 2);
            indices.push(next + 1);
        }
        column = column + 1;
        proof {
            assert(indices@ =~= column_indices(column as int));
        }
    }
    let mesh = Mesh { vertices, indices };
    proof {
        assert(mesh@.vertices =~= projection_mesh(run@, *rect, alpha_near, falloff, color, opacity).vertices);
    }
    Some(mesh)
}

/// The number of changes of state up to the point `last`.
pub open spec fn state_changes(locked: Option<Seq<bool>>, last: int) -> int
    decreases last,
{
    if last <= 0 {
        0
    } else {
        state_changes(locked, last - 1) + (if state_at(locked, last) != state_at(locked, last - 1) {
            1int
        } else {
            0int
        })
    }
}

/// A trace is one strip: a cross-section for each point and two coincident
/// ones for each change of state. Without changes nothing is added.
pub proof fn law_trace_is_one_strip(
    points: Seq<Pos2>,
    energies: Seq<Binary32>,
    locked: Option<Seq<bool>>,
    last: int,
)
    requires
        last >= 0,
    ensures
        stroke_samples(points, energies, locked, last).len() == last + 1 + 2 * state_changes(locked, last),
        stroke_samples(points, energies, locked, last).last().position == points[last],
        stroke_samples(points, energies, locked, last).last().state == state_at(locked, last),
    decreases last,
{
    if last > 0 {
        law_trace_is_one_strip(points, energies, locked, last - 1);
    }
}

/// Where the state changes the line stays connected and the colour switches at
/// once: two samples coincide, the first in the old state and the second in
/// the new one.
pub proof fn law_state_switches_at_once(
    points: Seq<Pos2>,
    energies: Seq<Binary32>,
    locked: Option<Seq<bool>>,
    last: int,
)
    requires
        last > 0,
        state_at(locked, last) != state_at(locked, last - 1),
    ensures
        ({
            let samples = stroke_samples(points, energies, locked, last);
            let old_end = samples[samples.len() - 3];
            let new_start = samples[samples.len() - 2];
            &&& old_end.position == new_start.position
            &&& old_end.energy == new_start.energy
            &&& old_end.state == state_at(locked, last - 1)
            &&& new_start.state == state_at(locked, last)
        }),
{
    law_trace_is_one_strip(points, energies, locked, last);
}

/// The meshes of traces and projections have triangles over existing vertices
/// only.
pub proof fn law_meshes_are_well_formed(
    samples: Seq<PrimaryStrokeSample>,
    palette: ChannelPalette,
    primary: bool,
    layer: PrimaryStrokeLayer,
    run: Seq<Pos2>,
    rect: Rect,
    alpha_near: Binary32,
    falloff: Binary32,
    color: Color,
    opacity: Binary32,
)
    requires
        2 * samples.len() <= u32::MAX,
        3 * run.len() + 3 <= u32::MAX,
    ensures
        layer_mesh(samples, palette, primary, layer).well_formed(),
        projection_mesh(run, rect, alpha_near, falloff, color, opacity).well_formed(),
{
}

/// Every vertex of a projection lies within the chart: at the trace, half-way
/// up and at the top. Left out are points that are no numbers and charts at
/// the limits of the range, where a height and the upper edge do not add up.
pub proof fn law_projection_stays_in_the_chart(
    run: Seq<Pos2>,
    rect: Rect,
    alpha_near: Binary32,
    falloff: Binary32,
    color: Color,
    opacity: Binary32,
    i: int,
)
    requires
        proper(rect),
        0 <= i < projection_mesh(run, rect, alpha_near, falloff, color, opacity).vertices.len(),
        forall|j: int| 0 <= j < run.len() ==> !(#[trigger] run[j]).x.nan() && !run[j].y.nan(),
        forall|j: int|
            0 <= j < run.len() ==> adds_up((#[trigger] run[j]).y.clamped(rect.min.y, rect.max.y), rect.min.y),
    ensures
        ({
            let pos = projection_mesh(run, rect, alpha_near, falloff, color, opacity).vertices[i].pos;
            &&& rect.min.x.at_most(pos.x) && pos.x.at_most(rect.max.x)
            &&& rect.min.y.at_most(pos.y) && pos.y.at_most(rect.max.y)
        }),
{
    let columns = projection_columns(run, rect);
    let k = i / 3;
    assert(0 <= k < columns.len());
    let point = if run.len() == 1 {
        run[0]
    } else {
        run[k]
    };
    let y = point.y.clamped(rect.min.y, rect.max.y);
    assert(!point.x.nan() && !point.y.nan() && adds_up(y, rect.min.y));
    assert(columns[k].y == y);
    if run.len() == 1 {
        let x = point.x.clamped(rect.min.x, rect.max.x);
        let half = num(SINGLE_HALF_WIDTH_BITS);
        if x.finite() {
            lemma_results_are_numbers(x, half);
            lemma_results_are_numbers(x, half.opposite());
        }
    }
    law_sum_and_product_commute(y, rect.min.y);
    law_middle_lies_between(rect.min.y, y);
}

} // verus!
