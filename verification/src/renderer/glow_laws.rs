//! What holds of the continuous halo for all lines.
use crate::arithmetic::{lemma_exact_value_is_kept, lemma_one_is_unit, size};
use crate::binary32::{
    lemma_magnitude_value_increases, magnitude_value, num, unit_value, Binary32, FRACTION_SPAN, ONE_BITS,
};
use crate::direction::{
    is_at_distance, is_unit_square, lemma_direction, lemma_displacement, lemma_length_within, lemma_offset,
    lemma_sum_error, PRECISION,
};
use crate::exactness::lemma_sum_within;
use crate::renderer::color::Color;
use crate::renderer::geometry::{Pos2, Vec2, TWO_BITS};
use crate::renderer::glow::{
    cross_sections, direction, joint_normal, lateral_at, section_vertex, strip_vertices, BISECTOR_EPSILON_BITS,
    MESH_ROWS, SEGMENT_EPSILON_BITS,
};
use vstd::arithmetic::power2::lemma_pow2_pos;
use vstd::prelude::*;

verus! {

/// Whether a vector has length one, up to rounding: its square differs from
/// one by at most one part in two to the power 21, and neither component
/// exceeds one.
pub open spec fn is_direction(v: Vec2) -> bool {
    &&& v.x.magnitude() <= ONE_BITS
    &&& v.y.magnitude() <= ONE_BITS
    &&& is_unit_square(v.x.value(), v.y.value())
}

/// Whether there is a direction from one point to another: their distance is
/// finite, and they do not coincide.
pub open spec fn apart(a: Pos2, b: Pos2) -> bool {
    let delta = b.from(a);
    &&& delta.x.finite() && delta.y.finite()
    &&& delta.norm().finite()
    &&& num(SEGMENT_EPSILON_BITS).below(delta.norm())
}

/// Whether each two neighbours among the first `count` points are apart.
pub open spec fn all_apart(points: Seq<Pos2>, count: int) -> bool {
    forall|k: int| 0 <= k < count - 1 ==> apart(#[trigger] points[k], points[k + 1])
}

proof fn lemma_turned_direction(v: Vec2)
    requires
        is_direction(v),
    ensures
        is_direction(v.turned()),
{
    let (x, y) = (v.x.value(), v.y.value());
    assert(v.turned().x.value() == -y);
    assert((-y) * (-y) + x * x == x * x + y * y) by (nonlinear_arith);
}

pub proof fn lemma_segment_has_direction(a: Pos2, b: Pos2)
    requires
        apart(a, b),
    ensures
        is_direction(direction(a, b)),
        is_direction(direction(a, b).turned()),
{
    let delta = b.from(a);
    lemma_direction(delta.x, delta.y);
    lemma_turned_direction(direction(a, b));
}

pub proof fn lemma_joint_has_direction(before: Pos2, at: Pos2, after: Pos2)
    requires
        apart(before, at),
        apart(at, after),
    ensures
        is_direction(joint_normal(before, at, after)),
{
    lemma_segment_has_direction(before, at);
    lemma_segment_has_direction(at, after);
    let n0 = direction(before, at).turned();
    let n1 = direction(at, after).turned();
    let bisector = n0.sum(n1);
    lemma_sum_within(n0.x, n1.x, ONE_BITS as int);
    lemma_sum_within(n0.y, n1.y, ONE_BITS as int);
    lemma_length_within(bisector.x, bisector.y, TWO_BITS as int);
    if num(BISECTOR_EPSILON_BITS).below(bisector.norm()) {
        lemma_direction(bisector.x, bisector.y);
    }
}

/// The normal of every cross-section has length one, up to rounding, so a join
/// never widens the halo. Neighbouring points that coincide are left out: they
/// have no direction.
pub proof fn law_normals_have_length_one(
    points: Seq<Pos2>,
    intensities: Seq<Binary32>,
    colors: Seq<Color>,
    count: int,
    last: int,
)
    requires
        2 <= count,
        0 <= last < count,
        all_apart(points, count),
    ensures
        forall|j: int|
            0 <= j < cross_sections(points, intensities, colors, count, last).len() ==> is_direction(
                (#[trigger] cross_sections(points, intensities, colors, count, last)[j]).normal,
            ),
    decreases last,
{
    assert(apart(points[0], points[1]));
    if last <= 0 {
        lemma_segment_has_direction(points[0], points[1]);
    } else {
        law_normals_have_length_one(points, intensities, colors, count, last - 1);
        assert(apart(points[last - 1], points[last - 1 + 1]));
        lemma_segment_has_direction(points[last - 1], points[last]);
        if last < count - 1 {
            assert(apart(points[last], points[last + 1]));
            lemma_joint_has_direction(points[last - 1], points[last], points[last + 1]);
        }
        let earlier = cross_sections(points, intensities, colors, count, last - 1);
        let all = cross_sections(points, intensities, colors, count, last);
        assert forall|j: int| 0 <= j < all.len() implies is_direction((#[trigger] all[j]).normal) by {
            if j < earlier.len() {
                assert(all[j] == earlier[j]);
            }
        }
    }
}

/// The radius of an outer row has the size of the radius.
proof fn lemma_outer_radius(row: int, radius: Binary32)
    requires
        row == 0 || row == 6,
        radius.finite(),
    ensures
        lateral_at(row).product(radius).magnitude() == radius.magnitude(),
        lateral_at(row).product(radius).finite(),
{
    let unit = unit_value();
    let length = size(radius.value());
    radius.lemma_parts();
    lemma_one_is_unit();
    lemma_pow2_pos(149);
    assert(magnitude_value(0) == 0);
    lemma_magnitude_value_increases(0, radius.magnitude());
    assert(size(lateral_at(row).value()) == unit);
    assert(unit * length == length * unit) by (nonlinear_arith);
    lemma_exact_value_is_kept(length * unit, unit, radius.magnitude());
}

/// Whether a vertex lies at the radius from the centre of its cross-section,
/// up to one part in two to the power 20 of the radius and an error of each
/// coordinate.
pub open spec fn lies_at_radius(position: Pos2, center: Pos2, radius: Binary32, error: int) -> bool {
    is_at_distance(
        position.x.value() - center.x.value(),
        position.y.value() - center.y.value(),
        radius.value(),
        error,
    )
}

/// The vertices of the two outer rows lie at the radius from the centre of
/// their cross-section, at joins as well as at the ends. Rounding may move them
/// by one part in two to the power 20 of the radius, and in each coordinate by
/// one part in two to the power 24 of that coordinate, which `error` bounds.
pub proof fn law_outer_rows_lie_at_the_radius(
    points: Seq<Pos2>,
    intensities: Seq<Binary32>,
    colors: Seq<Color>,
    count: int,
    radius: Binary32,
    origin: Pos2,
    viewport: Vec2,
    i: int,
    error: int,
)
    requires
        2 <= count,
        all_apart(points, count),
        radius.finite(),
        !radius.negative(),
        FRACTION_SPAN <= radius.magnitude(),
        0 <= error,
        ({
            let sections = cross_sections(points, intensities, colors, count, count - 1);
            let vertices = strip_vertices(sections, radius, origin, viewport);
            let center = sections[i / MESH_ROWS as int].center.moved_back((Vec2 { x: origin.x, y: origin.y }));
            let position = vertices[i].position;
            &&& 0 <= i < vertices.len()
            &&& i % MESH_ROWS as int == 0 || i % MESH_ROWS as int == MESH_ROWS - 1
            &&& center.x.finite() && center.y.finite()
            &&& position.x.finite() && position.y.finite()
            &&& size(position.x.value()) <= PRECISION * error
            &&& size(position.y.value()) <= PRECISION * error
        }),
    ensures
        ({
            let sections = cross_sections(points, intensities, colors, count, count - 1);
            let vertices = strip_vertices(sections, radius, origin, viewport);
            let center = sections[i / MESH_ROWS as int].center.moved_back((Vec2 { x: origin.x, y: origin.y }));
            lies_at_radius(vertices[i].position, center, radius, error)
        }),
{
    let sections = cross_sections(points, intensities, colors, count, count - 1);
    let section = sections[i / MESH_ROWS as int];
    assert(0 <= i / MESH_ROWS as int && i / (MESH_ROWS as int) < sections.len());
    law_normals_have_length_one(points, intensities, colors, count, count - 1);
    assert(is_direction(section.normal));
    let row = i % MESH_ROWS as int;
    let center = section.center.moved_back((Vec2 { x: origin.x, y: origin.y }));
    let reach = lateral_at(row).product(radius);
    lemma_outer_radius(row, radius);
    lemma_offset(section.normal.x, section.normal.y, reach);
    let offset = section.normal.scaled(reach);
    let position = section_vertex(section, row, radius, origin, viewport).position;
    lemma_sum_error(center.x, offset.x);
    lemma_sum_error(center.y, offset.y);
    offset.x.lemma_parts();
    offset.y.lemma_parts();
    radius.lemma_parts();
    reach.lemma_parts();
    assert(magnitude_value(0) == 0);
    lemma_magnitude_value_increases(0, radius.magnitude());
    lemma_magnitude_value_increases(offset.x.magnitude(), radius.magnitude());
    lemma_magnitude_value_increases(offset.y.magnitude(), radius.magnitude());
    assert(reach.value() * reach.value() == radius.value() * radius.value()) by (nonlinear_arith)
        requires
            reach.value() == radius.value() || reach.value() == -radius.value(),
    ;
    lemma_displacement(
        position.x.value() - center.x.value(),
        position.y.value() - center.y.value(),
        offset.x.value(),
        offset.y.value(),
        radius.value(),
        error,
    );
}

} // verus!
