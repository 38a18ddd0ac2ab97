//! What holds of the sharp traces for all points.
use crate::arithmetic::{
    law_sum_and_product_commute, lemma_exact_value_is_kept, lemma_rounding_exists, lemma_rounding_keeps_order, size,
    HALF_BITS,
};
use crate::binary32::{lemma_magnitude_value_increases, magnitude_value, num, unit_value, Binary32, ONE_BITS};
use crate::direction::{lemma_component_is_a_share, lemma_length};
use crate::exactness::{lemma_next_binade, lemma_share_is_at_most_the_whole, lemma_sum_within};
use crate::renderer::geometry::{Pos2, Vec2};
use crate::renderer::palette::ChannelPalette;
use crate::renderer::stroke::{
    incoming, layer_mesh, line_direction, outgoing, strip_normal, stroke_samples, stroke_visual, unit_vector,
    PrimaryStrokeLayer, PrimaryStrokeSample, SHORTEST_BITS,
};
use vstd::arithmetic::power2::{lemma2_to64, lemma_pow2_adds, lemma_pow2_pos, lemma_pow2_unfold, pow2};
use vstd::prelude::*;

verus! {

/// Pattern of two to the power 126: differences of smaller numbers are finite.
pub const FARTHEST_BITS: u32 = 0x7e80_0000;

/// Pattern of two to the power 125.
const HALF_WAY_BITS: u32 = 0x7e00_0000;

/// Whether both coordinates are at most two to the power 126 in size.
pub open spec fn in_reach(point: Pos2) -> bool {
    point.x.magnitude() <= FARTHEST_BITS && point.y.magnitude() <= FARTHEST_BITS
}

/// Whether both components are at most one in size.
pub open spec fn short(v: Vec2) -> bool {
    v.x.magnitude() <= ONE_BITS && v.y.magnitude() <= ONE_BITS
}

/// A vector brought to length one has short components.
proof fn lemma_unit_vector_is_short(v: Vec2)
    requires
        v.x.finite(),
        v.y.finite(),
    ensures
        short(unit_vector(v)),
{
    lemma_length(v.x, v.y);
    let length = v.norm().larger(num(SHORTEST_BITS));
    lemma_component_is_a_share(v.x, length);
    lemma_component_is_a_share(v.y, length);
}

proof fn lemma_delta_is_finite(a: Pos2, b: Pos2)
    requires
        in_reach(a),
        in_reach(b),
    ensures
        a.from(b).x.finite(),
        a.from(b).y.finite(),
{
    lemma_sum_within(a.x, b.x, FARTHEST_BITS as int);
    lemma_sum_within(a.y, b.y, FARTHEST_BITS as int);
}

proof fn lemma_incoming_is_short(samples: Seq<PrimaryStrokeSample>, index: int, candidate: int)
    requires
        0 <= index < samples.len(),
        candidate < samples.len(),
        forall|i: int| 0 <= i < samples.len() ==> in_reach((#[trigger] samples[i]).position),
    ensures
        incoming(samples, index, candidate) matches Some(v) ==> short(v),
    decreases candidate + 1,
{
    if candidate >= 0 {
        lemma_delta_is_finite(samples[index].position, samples[candidate].position);
        lemma_unit_vector_is_short(samples[index].position.from(samples[candidate].position));
        lemma_incoming_is_short(samples, index, candidate - 1);
    }
}

proof fn lemma_outgoing_is_short(samples: Seq<PrimaryStrokeSample>, index: int, candidate: int)
    requires
        0 <= index < samples.len(),
        0 <= candidate,
        forall|i: int| 0 <= i < samples.len() ==> in_reach((#[trigger] samples[i]).position),
    ensures
        outgoing(samples, index, candidate) matches Some(v) ==> short(v),
    decreases samples.len() - candidate,
{
    if candidate < samples.len() {
        lemma_delta_is_finite(samples[candidate].position, samples[index].position);
        lemma_unit_vector_is_short(samples[candidate].position.from(samples[index].position));
        lemma_outgoing_is_short(samples, index, candidate + 1);
    }
}

proof fn lemma_normal_is_short(samples: Seq<PrimaryStrokeSample>, index: int)
    requires
        0 <= index < samples.len(),
        forall|i: int| 0 <= i < samples.len() ==> in_reach((#[trigger] samples[i]).position),
    ensures
        short(strip_normal(samples, index)),
{
    lemma_incoming_is_short(samples, index, index - 1);
    lemma_outgoing_is_short(samples, index, index + 1);
    let before = incoming(samples, index, index - 1);
    let after = outgoing(samples, index, index + 1);
    if before is Some && after is Some {
        lemma_sum_within(before->0.x, after->0.x, ONE_BITS as int);
        lemma_sum_within(before->0.y, after->0.y, ONE_BITS as int);
        lemma_unit_vector_is_short(before->0.sum(after->0));
    }
    assert(short(line_direction(before, after)));
}

/// The vertices of a trace are finite, however steep it is and wherever its
/// points coincide, as long as no coordinate exceeds two to the power 126.
pub proof fn law_stroke_vertices_are_finite(
    samples: Seq<PrimaryStrokeSample>,
    palette: ChannelPalette,
    primary: bool,
    layer: PrimaryStrokeLayer,
    i: int,
)
    requires
        0 <= i < layer_mesh(samples, palette, primary, layer).vertices.len(),
        forall|k: int| 0 <= k < samples.len() ==> in_reach((#[trigger] samples[k]).position),
    ensures
        layer_mesh(samples, palette, primary, layer).vertices[i].pos.x.finite(),
        layer_mesh(samples, palette, primary, layer).vertices[i].pos.y.finite(),
{
    let sample = samples[i / 2];
    let normal = strip_normal(samples, i / 2);
    lemma_normal_is_short(samples, i / 2);
    let visual = stroke_visual(palette, primary, sample.state, layer);
    let half_width = visual.width.product(num(HALF_BITS));
    law_sum_and_product_commute(visual.width, num(HALF_BITS));
    lemma_share_is_at_most_the_whole(num(HALF_BITS), visual.width);
    lemma_share_is_at_most_the_whole(normal.x, half_width);
    lemma_share_is_at_most_the_whole(normal.y, half_width);
    let offset = normal.scaled(half_width);
    lemma_sum_within(sample.position.x, offset.x, FARTHEST_BITS as int);
    lemma_sum_within(sample.position.y, offset.y, FARTHEST_BITS as int);
}

/// The halves of a number in reach.
proof fn lemma_half_of(a: Binary32)
    requires
        a.magnitude() <= FARTHEST_BITS,
    ensures
        num(HALF_BITS).product(a).magnitude() <= HALF_WAY_BITS,
        num(ONE_BITS).difference(num(HALF_BITS)) == num(HALF_BITS),
{
    let half = num(HALF_BITS);
    let unit = unit_value();
    let scale = pow2(148) as int;
    lemma2_to64();
    lemma_pow2_adds(23, 125);
    lemma_pow2_adds(23, 126);
    lemma_pow2_unfold(149);
    lemma_pow2_pos(148);
    assert(half.value() == scale && unit == 2 * scale);
    assert(num(ONE_BITS).value() == unit);
    lemma_exact_value_is_kept(scale, 1, HALF_BITS as int);
    let x = size(a.value());
    let top = magnitude_value(HALF_WAY_BITS as int);
    a.lemma_parts();
    assert(magnitude_value(0) == 0);
    lemma_magnitude_value_increases(0, a.magnitude());
    lemma_magnitude_value_increases(a.magnitude(), FARTHEST_BITS as int);
    lemma_next_binade(HALF_WAY_BITS as int);
    assert(x <= 2 * top);
    assert(0 <= scale * x <= top * unit) by (nonlinear_arith)
        requires
            0 <= x <= 2 * top,
            scale > 0,
            unit == 2 * scale,
    ;
    lemma_exact_value_is_kept(top * unit, unit, HALF_WAY_BITS as int);
    lemma_rounding_keeps_order(scale * x, top * unit, unit);
    lemma_rounding_exists(scale * x, unit);
}

proof fn lemma_samples_stay_in_reach(
    points: Seq<Pos2>,
    energies: Seq<Binary32>,
    locked: Option<Seq<bool>>,
    last: int,
)
    requires
        0 <= last < points.len(),
        forall|k: int| 0 <= k < points.len() ==> in_reach(#[trigger] points[k]),
    ensures
        forall|k: int|
            0 <= k < stroke_samples(points, energies, locked, last).len() ==> in_reach(
                (#[trigger] stroke_samples(points, energies, locked, last)[k]).position,
            ),
    decreases last,
{
    assert(in_reach(points[last]));
    if last > 0 {
        lemma_samples_stay_in_reach(points, energies, locked, last - 1);
        let (a, b) = (points[last - 1], points[last]);
        assert(in_reach(a));
        lemma_half_of(a.x);
        lemma_half_of(a.y);
        lemma_half_of(b.x);
        lemma_half_of(b.y);
        let half = num(HALF_BITS);
        lemma_sum_within(half.product(a.x), half.product(b.x), HALF_WAY_BITS as int);
        lemma_sum_within(half.product(a.y), half.product(b.y), HALF_WAY_BITS as int);
        assert(in_reach(a.toward(b, half)));
        let earlier = stroke_samples(points, energies, locked, last - 1);
        let all = stroke_samples(points, energies, locked, last);
        assert forall|k: int| 0 <= k < all.len() implies in_reach((#[trigger] all[k]).position) by {
            if k < earlier.len() {
                assert(all[k] == earlier[k]);
            }
        }
    }
}

/// A trace along points whose coordinates are at most two to the power 126 has
/// finite vertices only, also at the changes of its state.
pub proof fn law_trace_vertices_are_finite(
    points: Seq<Pos2>,
    energies: Seq<Binary32>,
    locked: Option<Seq<bool>>,
    last: int,
    palette: ChannelPalette,
    primary: bool,
    layer: PrimaryStrokeLayer,
    i: int,
)
    requires
        0 <= last < points.len(),
        forall|k: int| 0 <= k < points.len() ==> in_reach(#[trigger] points[k]),
        0 <= i < layer_mesh(stroke_samples(points, energies, locked, last), palette, primary, layer).vertices.len(),
    ensures
        ({
            let samples = stroke_samples(points, energies, locked, last);
            let pos = layer_mesh(samples, palette, primary, layer).vertices[i].pos;
            pos.x.finite() && pos.y.finite()
        }),
{
    lemma_samples_stay_in_reach(points, energies, locked, last);
    law_stroke_vertices_are_finite(stroke_samples(points, energies, locked, last), palette, primary, layer, i);
}

} // verus!
