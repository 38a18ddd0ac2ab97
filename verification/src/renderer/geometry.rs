//! Points, vectors and rectangles of the screen.
use crate::arithmetic::HALF_BITS;
use crate::binary32::{num, number, Binary32, ONE_BITS};
use vstd::prelude::*;

verus! {

/// Bit pattern of 2.
pub const TWO_BITS: u32 = 0x4000_0000;

/// The value a given part of the way from `a` to `b`.
pub open spec fn between(a: Binary32, b: Binary32, t: Binary32) -> Binary32 {
    num(ONE_BITS).difference(t).product(a).sum(t.product(b))
}

/// The value a given part of the way from `a` to `b`.
pub fn lerp(a: Binary32, b: Binary32, t: Binary32) -> (r: Binary32)
    ensures
        r == between(a, b, t),
{
    number(ONE_BITS).minus(t).times(a).plus(t.times(b))
}

/// A vector.
#[derive(Debug, Clone, Copy, PartialEq, Eq, Structural)]
pub struct Vec2 {
    pub x: Binary32,
    pub y: Binary32,
}

impl Vec2 {
    /// The sum of two vectors.
    pub open spec fn sum(self, other: Vec2) -> Vec2 {
        Vec2 { x: self.x.sum(other.x), y: self.y.sum(other.y) }
    }

    /// The sum of two vectors.
    pub fn plus(self, other: Vec2) -> (r: Vec2)
        ensures
            r == self.sum(other),
    {
        Vec2 { x: self.x.plus(other.x), y: self.y.plus(other.y) }
    }

    /// The vector made longer by a factor.
    pub open spec fn scaled(self, factor: Binary32) -> Vec2 {
        Vec2 { x: self.x.product(factor), y: self.y.product(factor) }
    }

    /// The vector made longer by a factor.
    pub fn times(self, factor: Binary32) -> (r: Vec2)
        ensures
            r == self.scaled(factor),
    {
        Vec2 { x: self.x.times(factor), y: self.y.times(factor) }
    }

    /// The vector made shorter by a divisor.
    pub open spec fn divided(self, divisor: Binary32) -> Vec2 {
        Vec2 { x: self.x.quotient(divisor), y: self.y.quotient(divisor) }
    }

    /// The vector made shorter by a divisor.
    pub fn over(self, divisor: Binary32) -> (r: Vec2)
        ensures
            r == self.divided(divisor),
    {
        Vec2 { x: self.x.over(divisor), y: self.y.over(divisor) }
    }

    /// The vector turned by a right angle.
    pub open spec fn turned(self) -> Vec2 {
        Vec2 { x: self.y.opposite(), y: self.x }
    }

    /// The vector turned by a right angle.
    pub fn turn(self) -> (r: Vec2)
        ensures
            r == self.turned(),
    {
        Vec2 { x: self.y.negate(), y: self.x }
    }

    /// The length.
    pub open spec fn norm(self) -> Binary32 {
        self.x.hypotenuse(self.y)
    }

    /// The length.
    pub fn length(self) -> (r: Binary32)
        ensures
            r == self.norm(),
    {
        self.x.hypot(self.y)
    }

    /// The square of the length.
    pub open spec fn square(self) -> Binary32 {
        self.x.product(self.x).sum(self.y.product(self.y))
    }

    /// The square of the length.
    pub fn length_sq(self) -> (r: Binary32)
        ensures
            r == self.square(),
    {
        self.x.times(self.x).plus(self.y.times(self.y))
    }
}

/// A point.
#[derive(Debug, Clone, Copy, PartialEq, Eq, Structural)]
pub struct Pos2 {
    pub x: Binary32,
    pub y: Binary32,
}

impl Pos2 {
    /// The point moved by a vector.
    pub open spec fn moved(self, by: Vec2) -> Pos2 {
        Pos2 { x: self.x.sum(by.x), y: self.y.sum(by.y) }
    }

    /// The point moved by a vector.
    pub fn plus(self, by: Vec2) -> (r: Pos2)
        ensures
            r == self.moved(by),
    {
        Pos2 { x: self.x.plus(by.x), y: self.y.plus(by.y) }
    }

    /// The point moved against a vector.
    pub open spec fn moved_back(self, by: Vec2) -> Pos2 {
        Pos2 { x: self.x.difference(by.x), y: self.y.difference(by.y) }
    }

    /// The point moved against a vector.
    pub fn minus(self, by: Vec2) -> (r: Pos2)
        ensures
            r == self.moved_back(by),
    {
        Pos2 { x: self.x.minus(by.x), y: self.y.minus(by.y) }
    }

    /// The vector from another point to this one.
    pub open spec fn from(self, other: Pos2) -> Vec2 {
        Vec2 { x: self.x.difference(other.x), y: self.y.difference(other.y) }
    }

    /// The vector from another point to this one.
    pub fn away_from(self, other: Pos2) -> (r: Vec2)
        ensures
            r == self.from(other),
    {
        Vec2 { x: self.x.minus(other.x), y: self.y.minus(other.y) }
    }

    /// The point a given part of the way to another one.
    pub open spec fn toward(self, other: Pos2, t: Binary32) -> Pos2 {
        Pos2 { x: between(self.x, other.x, t), y: between(self.y, other.y, t) }
    }

    /// The point a given part of the way to another one.
    pub fn lerp(self, other: Pos2, t: Binary32) -> (r: Pos2)
        ensures
            r == self.toward(other, t),
    {
        Pos2 { x: lerp(self.x, other.x, t), y: lerp(self.y, other.y, t) }
    }
}

/// A rectangle between its upper left and lower right corners.
#[derive(Debug, Clone, Copy, PartialEq, Eq, Structural)]
pub struct Rect {
    pub min: Pos2,
    pub max: Pos2,
}

impl Rect {
    /// The rectangle with the given corner and size.
    pub open spec fn sized(min: Pos2, size: Vec2) -> Rect {
        Rect { min, max: min.moved(size) }
    }

    /// The rectangle with the given corner and size.
    pub fn from_min_size(min: Pos2, size: Vec2) -> (r: Rect)
        ensures
            r == Rect::sized(min, size),
    {
        Rect { min, max: min.plus(size) }
    }

    /// The width.
    pub open spec fn span_x(self) -> Binary32 {
        self.max.x.difference(self.min.x)
    }

    /// The width.
    pub fn width(&self) -> (r: Binary32)
        ensures
            r == self.span_x(),
    {
        self.max.x.minus(self.min.x)
    }

    /// The height.
    pub open spec fn span_y(self) -> Binary32 {
        self.max.y.difference(self.min.y)
    }

    /// The height.
    pub fn height(&self) -> (r: Binary32)
        ensures
            r == self.span_y(),
    {
        self.max.y.minus(self.min.y)
    }

    /// The point in the middle.
    pub open spec fn middle(self) -> Pos2 {
        Pos2 {
            x: self.min.x.sum(self.max.x).quotient(num(TWO_BITS)),
            y: self.min.y.sum(self.max.y).quotient(num(TWO_BITS)),
        }
    }

    /// The point in the middle.
    pub fn center(&self) -> (r: Pos2)
        ensures
            r == self.middle(),
    {
        Pos2 {
            x: self.min.x.plus(self.max.x).over(number(TWO_BITS)),
            y: self.min.y.plus(self.max.y).over(number(TWO_BITS)),
        }
    }

    /// The rectangle made larger on every side.
    pub open spec fn expanded(self, by: Binary32) -> Rect {
        let both = Vec2 { x: by, y: by };
        Rect { min: self.min.moved_back(both), max: self.max.moved(both) }
    }

    /// The rectangle made larger on every side.
    pub fn expand(&self, by: Binary32) -> (r: Rect)
        ensures
            r == self.expanded(by),
    {
        let both = Vec2 { x: by, y: by };
        Rect { min: self.min.minus(both), max: self.max.plus(both) }
    }

    /// The rectangle made smaller on every side.
    pub open spec fn shrunk(self, by: Vec2) -> Rect {
        Rect { min: self.min.moved(by), max: self.max.moved_back(by) }
    }

    /// The rectangle made smaller on every side.
    pub fn shrink(&self, by: Vec2) -> (r: Rect)
        ensures
            r == self.shrunk(by),
    {
        Rect { min: self.min.plus(by), max: self.max.minus(by) }
    }

    /// The rectangle around a point with the given size.
    pub open spec fn around(center: Pos2, size: Vec2) -> Rect {
        let half = size.scaled(num(HALF_BITS));
        Rect { min: center.moved_back(half), max: center.moved(half) }
    }

    /// The rectangle around a point with the given size.
    pub fn from_center_size(center: Pos2, size: Vec2) -> (r: Rect)
        ensures
            r == Rect::around(center, size),
    {
        let half = size.times(number(HALF_BITS));
        Rect { min: center.minus(half), max: center.plus(half) }
    }

    /// Whether both rectangles have equal corners. Zeros of either sign are
    /// equal, and what is not a number equals nothing.
    pub open spec fn coincides(self, other: Rect) -> bool {
        &&& equal_numbers(self.min.x, other.min.x)
        &&& equal_numbers(self.min.y, other.min.y)
        &&& equal_numbers(self.max.x, other.max.x)
        &&& equal_numbers(self.max.y, other.max.y)
    }

    /// Whether both rectangles have equal corners.
    pub fn is_same_place(&self, other: &Rect) -> (r: bool)
        ensures
            r == self.coincides(*other),
    {
        are_equal(self.min.x, other.min.x) && are_equal(self.min.y, other.min.y) && are_equal(
            self.max.x,
            other.max.x,
        ) && are_equal(self.max.y, other.max.y)
    }
}

/// Whether two numbers are equal.
pub open spec fn equal_numbers(a: Binary32, b: Binary32) -> bool {
    a.at_most(b) && b.at_most(a)
}

fn are_equal(a: Binary32, b: Binary32) -> (r: bool)
    ensures
        r == equal_numbers(a, b),
{
    a.le(b) && b.le(a)
}

} // verus!
