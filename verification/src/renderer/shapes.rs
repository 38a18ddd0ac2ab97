//! What is painted, as data.
use crate::binary32::Binary32;
use crate::renderer::color::Color;
use crate::renderer::geometry::{Pos2, Rect};
use vstd::prelude::*;

verus! {

/// A vertex of a coloured mesh.
#[derive(Debug, Clone, Copy, PartialEq, Eq, Structural)]
pub struct Vertex {
    pub pos: Pos2,
    pub color: Color,
}

/// Triangles over coloured vertices.
#[derive(Debug, Clone, PartialEq, Eq)]
pub struct Mesh {
    pub vertices: Vec<Vertex>,
    pub indices: Vec<u32>,
}

/// The content of a [`Mesh`].
pub struct MeshView {
    pub vertices: Seq<Vertex>,
    pub indices: Seq<u32>,
}

impl View for Mesh {
    type V = MeshView;

    open spec fn view(&self) -> MeshView {
        MeshView { vertices: self.vertices@, indices: self.indices@ }
    }
}

impl MeshView {
    /// Whether the indices form triangles over existing vertices.
    pub open spec fn well_formed(self) -> bool {
        &&& self.indices.len() % 3 == 0
        &&& forall|i: int| 0 <= i < self.indices.len() ==> (#[trigger] self.indices[i]) < self.vertices.len()
    }
}

/// The width and colour of a line.
#[derive(Debug, Clone, Copy, PartialEq, Eq, Structural)]
pub struct Stroke {
    pub width: Binary32,
    pub color: Color,
}

/// A shape to paint.
#[derive(Debug, Clone, PartialEq, Eq)]
pub enum Shape {
    RectFilled { rect: Rect, rounding: Binary32, fill: Color },
    LineSegment { start: Pos2, end: Pos2, stroke: Stroke },
    Line { points: Vec<Pos2>, stroke: Stroke },
    ConvexPolygon { points: Vec<Pos2>, fill: Color, stroke: Stroke },
    Mesh { mesh: Mesh },
}

/// The content of a [`Shape`].
pub enum ShapeView {
    RectFilled { rect: Rect, rounding: Binary32, fill: Color },
    LineSegment { start: Pos2, end: Pos2, stroke: Stroke },
    Line { points: Seq<Pos2>, stroke: Stroke },
    ConvexPolygon { points: Seq<Pos2>, fill: Color, stroke: Stroke },
    Mesh { mesh: MeshView },
}

impl View for Shape {
    type V = ShapeView;

    open spec fn view(&self) -> ShapeView {
        match *self {
            Shape::RectFilled { rect, rounding, fill } => ShapeView::RectFilled { rect, rounding, fill },
            Shape::LineSegment { start, end, stroke } => ShapeView::LineSegment { start, end, stroke },
            Shape::Line { points, stroke } => ShapeView::Line { points: points@, stroke },
            Shape::ConvexPolygon { points, fill, stroke } => ShapeView::ConvexPolygon { points: points@, fill, stroke },
            Shape::Mesh { mesh } => ShapeView::Mesh { mesh: mesh@ },
        }
    }
}

/// The content of a list of shapes.
pub open spec fn views(shapes: Seq<Shape>) -> Seq<ShapeView> {
    shapes.map_values(|shape: Shape| shape@)
}

/// Pushing a shape pushes its content.
pub proof fn lemma_views_push(shapes: Seq<Shape>, shape: Shape)
    ensures
        views(shapes.push(shape)) == views(shapes).push(shape@),
{
    assert(views(shapes.push(shape)) =~= views(shapes).push(shape@));
}

/// Appends a shape.
pub fn add_shape(shapes: &mut Vec<Shape>, shape: Shape)
    ensures
        views(final(shapes)@) == views(old(shapes)@).push(shape@),
{
    proof {
        lemma_views_push(shapes@, shape);
    }
    shapes.push(shape);
}

} // verus!
