//! The outline of the classic card: flat on the left, round on the right.
use crate::arithmetic::whole;
use crate::binary32::{num, number, Binary32};
use crate::renderer::geometry::{Pos2, Rect, Vec2, TWO_BITS};
use vstd::prelude::*;

verus! {

/// Bit pattern of the number next to half of pi.
pub const QUARTER_TURN_BITS: u32 = 0x3fc9_0fdb;

/// Bit pattern of the number next to pi.
pub const HALF_TURN_BITS: u32 = 0x4049_0fdb;

/// Steps along a corner.
pub const CORNER_STEPS: u64 = 8;

/// Steps along the round end.
pub const CAP_STEPS: u64 = 48;

/// The angle after some of a number of equal steps of a turn.
pub open spec fn angle_at(start: Binary32, turn: Binary32, steps: u64, i: int) -> Binary32 {
    start.sum(whole(i as nat).quotient(whole(steps as nat)).product(turn))
}

/// The angles from the start of a turn to its end.
pub open spec fn angles(start: Binary32, turn: Binary32, steps: u64) -> Seq<Binary32> {
    Seq::new((steps + 1) as nat, |i: int| angle_at(start, turn, steps, i))
}

fn angles_of(start: Binary32, turn: Binary32, steps: u64) -> (r: Vec<Binary32>)
    requires
        steps < u64::MAX,
    ensures
        r@ == angles(start, turn, steps),
{
    let mut found: Vec<Binary32> = Vec::new();
    let mut i: u64 = 0;
    while i <= steps
        invariant
            i <= steps + 1,
            steps < u64::MAX,
            found@ == Seq::new(i as nat, |k: int| angle_at(start, turn, steps, k)),
        decreases steps + 1 - i,
    {
        found.push(start.plus(Binary32::from_u64(i).over(Binary32::from_u64(steps)).times(turn)));
        i = i + 1;
    }
    found
}

/// Something for each point of the three arcs of the outline.
#[derive(Debug, Clone, PartialEq, Eq)]
pub struct StadiumArcs<T> {
    pub top_left: Vec<T>,
    pub cap: Vec<T>,
    pub bottom_left: Vec<T>,
}

/// The angles along the arcs.
pub fn stadium_angles() -> (r: StadiumArcs<Binary32>)
    ensures
        r.top_left@ == angles(num(HALF_TURN_BITS), num(QUARTER_TURN_BITS), CORNER_STEPS),
        r.cap@ == angles(num(QUARTER_TURN_BITS).opposite(), num(HALF_TURN_BITS), CAP_STEPS),
        r.bottom_left@ == angles(num(QUARTER_TURN_BITS), num(QUARTER_TURN_BITS), CORNER_STEPS),
{
    let quarter = number(QUARTER_TURN_BITS);
    let half = number(HALF_TURN_BITS);
    StadiumArcs {
        top_left: angles_of(half, quarter, CORNER_STEPS),
        cap: angles_of(quarter.negate(), half, CAP_STEPS),
        bottom_left: angles_of(quarter, quarter, CORNER_STEPS),
    }
}

/// The points on a circle in the given directions.
pub open spec fn arc(center: Pos2, radius: Binary32, directions: Seq<Vec2>) -> Seq<Pos2> {
    directions.map_values(
        |d: Vec2| Pos2 { x: center.x.sum(radius.product(d.x)), y: center.y.sum(radius.product(d.y)) },
    )
}

fn push_arc(points: &mut Vec<Pos2>, center: Pos2, radius: Binary32, directions: &Vec<Vec2>)
    ensures
        final(points)@ == old(points)@ + arc(center, radius, directions@),
{
    let ghost before = points@;
    let mut i: usize = 0;
    while i < directions.len()
        invariant
            i <= directions@.len(),
            points@ == before + arc(center, radius, directions@.take(i as int)),
        decreases directions@.len() - i,
    {
        let d = directions[i];
        points.push(Pos2 { x: center.x.plus(radius.times(d.x)), y: center.y.plus(radius.times(d.y)) });
        i = i + 1;
        proof {
            assert(arc(center, radius, directions@.take(i as int)) =~= arc(center, radius, directions@.take(i - 1)).push(
                points@.last(),
            ));
        }
    }
    proof {
        assert(directions@.take(i as int) =~= directions@);
    }
}

/// A point if it is wanted.
pub open spec fn point_if(wanted: bool, point: Pos2) -> Seq<Pos2> {
    if wanted {
        seq![point]
    } else {
        Seq::empty()
    }
}

/// The outline: the upper left corner, the upper shoulder, the round end, the
/// lower shoulder and the lower left corner. A shoulder has a point of its own
/// where the round end is lower than the rectangle.
pub open spec fn outline(
    rect: Rect,
    left_radius: Binary32,
    cap_radius: Binary32,
    top_left: Seq<Vec2>,
    cap: Seq<Vec2>,
    bottom_left: Seq<Vec2>,
) -> Seq<Pos2> {
    let radius = cap_radius.smaller(rect.span_y().quotient(num(TWO_BITS)));
    let center = Pos2 { x: rect.max.x.difference(radius), y: rect.middle().y };
    let left = rect.min.x.sum(left_radius);
    arc(Pos2 { x: left, y: rect.min.y.sum(left_radius) }, left_radius, top_left)
        + seq![Pos2 { x: center.x, y: rect.min.y }]
        + point_if(
            rect.min.y.below(center.y.difference(radius)),
            Pos2 { x: center.x, y: center.y.difference(radius) },
        )
        + arc(center, radius, cap)
        + point_if(center.y.sum(radius).below(rect.max.y), Pos2 { x: center.x, y: rect.max.y })
        + seq![Pos2 { x: left, y: rect.max.y }]
        + arc(Pos2 { x: left, y: rect.max.y.difference(left_radius) }, left_radius, bottom_left)
}

/// The outline, given the directions of the points of its arcs.
pub fn stadium_path(rect: Rect, left_radius: Binary32, cap_radius: Binary32, directions: &StadiumArcs<Vec2>) -> (r: Vec<
    Pos2,
>)
    ensures
        r@ == outline(
            rect,
            left_radius,
            cap_radius,
            directions.top_left@,
            directions.cap@,
            directions.bottom_left@,
        ),
{
    let radius = cap_radius.min(rect.height().over(number(TWO_BITS)));
    let center = Pos2 { x: rect.max.x.minus(radius), y: rect.center().y };
    let left = rect.min.x.plus(left_radius);
    let mut points: Vec<Pos2> = Vec::new();
    push_arc(&mut points, Pos2 { x: left, y: rect.min.y.plus(left_radius) }, left_radius, &directions.top_left);
    points.push(Pos2 { x: center.x, y: rect.min.y });
    let cap_top = center.y.minus(radius);
    if rect.min.y.lt(cap_top) {
        points.push(Pos2 { x: center.x, y: cap_top });
    }
    push_arc(&mut points, center, radius, &directions.cap);
    if center.y.plus(radius).lt(rect.max.y) {
        points.push(Pos2 { x: center.x, y: rect.max.y });
    }
    points.push(Pos2 { x: left, y: rect.max.y });
    push_arc(&mut points, Pos2 { x: left, y: rect.max.y.minus(left_radius) }, left_radius, &directions.bottom_left);
    proof {
        assert(points@ =~= outline(
            rect,
            left_radius,
            cap_radius,
            directions.top_left@,
            directions.cap@,
            directions.bottom_left@,
        ));
    }
    points
}

} // verus!
