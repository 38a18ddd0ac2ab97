//! Additive emission of the F1 display.
//!
//! Two paths share one batch: instances (ribbons, radial blobs and rounded
//! rectangles) and a continuous mesh, which tessellates a whole polyline with
//! shared cross-sections, so that there are no caps between its segments.
use crate::arithmetic::{whole, HALF_BITS};
use crate::binary32::{num, number, Binary32, ONE_BITS, ZERO_BITS};
use crate::renderer::color::{Color, FULL_CHANNEL_BITS};
use crate::renderer::geometry::{Pos2, Rect, Vec2, TWO_BITS};
use vstd::prelude::*;

verus! {

/// Numbers that describe an instance.
pub const INSTANCE_FLOATS: usize = 16;

/// Numbers that describe a mesh vertex.
pub const MESH_FLOATS: usize = 10;

/// Rows of a cross-section.
pub const MESH_ROWS: usize = 7;

/// Where the viewport size starts in a mesh vertex, in bytes.
pub const MESH_VIEWPORT_OFFSET: u64 = 32;

/// Bit pattern of 0.000001: shorter segments have no direction.
pub const SEGMENT_EPSILON_BITS: u32 = 0x3586_37bd;

/// Bit pattern of 0.0001: shorter bisectors have no direction.
pub const BISECTOR_EPSILON_BITS: u32 = 0x38d1_b717;

/// One emitting shape.
#[derive(Debug, Clone, Copy, PartialEq, Eq, Structural)]
pub struct GlowInstance {
    pub a: Pos2,
    pub b: Pos2,
    pub radius: Binary32,
    pub intensity: Binary32,
    pub kind: Binary32,
    pub red: Binary32,
    pub green: Binary32,
    pub blue: Binary32,
    pub viewport: Vec2,
}

/// One vertex of the continuous mesh.
#[derive(Debug, Clone, Copy, PartialEq, Eq, Structural)]
pub struct GlowVertex {
    pub position: Pos2,
    /// The place across the line, from minus one to one.
    pub lateral: Binary32,
    pub intensity: Binary32,
    pub red: Binary32,
    pub green: Binary32,
    pub blue: Binary32,
    pub viewport: Vec2,
}

impl GlowInstance {
    /// The numbers in the order in which the renderer reads them.
    pub open spec fn numbers(self) -> Seq<Binary32> {
        seq![
            self.a.x,
            self.a.y,
            self.b.x,
            self.b.y,
            self.radius,
            self.intensity,
            self.kind,
            num(ZERO_BITS),
            self.red,
            self.green,
            self.blue,
            num(ZERO_BITS),
            self.viewport.x,
            self.viewport.y,
            num(ZERO_BITS),
            num(ZERO_BITS),
        ]
    }

    /// The numbers in the order in which the renderer reads them.
    pub fn to_array(&self) -> (r: [Binary32; 16])
        ensures
            r@ == self.numbers(),
    {
        let zero = number(ZERO_BITS);
        [
            self.a.x,
            self.a.y,
            self.b.x,
            self.b.y,
            self.radius,
            self.intensity,
            self.kind,
            zero,
            self.red,
            self.green,
            self.blue,
            zero,
            self.viewport.x,
            self.viewport.y,
            zero,
            zero,
        ]
    }
}

impl GlowVertex {
    /// The numbers in the order in which the renderer reads them.
    pub open spec fn numbers(self) -> Seq<Binary32> {
        seq![
            self.position.x,
            self.position.y,
            self.lateral,
            self.intensity,
            self.red,
            self.green,
            self.blue,
            num(ZERO_BITS),
            self.viewport.x,
            self.viewport.y,
        ]
    }

    /// The numbers in the order in which the renderer reads them.
    pub fn to_array(&self) -> (r: [Binary32; 10])
        ensures
            r@ == self.numbers(),
    {
        [
            self.position.x,
            self.position.y,
            self.lateral,
            self.intensity,
            self.red,
            self.green,
            self.blue,
            number(ZERO_BITS),
            self.viewport.x,
            self.viewport.y,
        ]
    }
}

/// Which of the two paths a batch draws.
#[derive(Clone, Copy, Debug, PartialEq, Eq, Structural)]
pub struct GlowDrawPlan {
    pub instances: bool,
    pub mesh: bool,
}

impl GlowDrawPlan {
    /// Whether anything is drawn.
    pub fn has_draws(self) -> (r: bool)
        ensures
            r == (self.instances || self.mesh),
    {
        self.instances || self.mesh
    }
}

/// A finished batch of emission.
#[derive(Debug, Clone, PartialEq, Eq)]
pub struct GlowBatch {
    pub generation: u64,
    pub instances: Vec<GlowInstance>,
    pub mesh_vertices: Vec<GlowVertex>,
    pub mesh_indices: Vec<u32>,
}

impl Default for GlowBatch {
    fn default() -> (r: Self)
        ensures
            r.generation == 0,
            r.instances@.len() == 0,
            r.mesh_vertices@.len() == 0,
            r.mesh_indices@.len() == 0,
    {
        GlowBatch { generation: 0, instances: Vec::new(), mesh_vertices: Vec::new(), mesh_indices: Vec::new() }
    }
}

impl GlowBatch {
    /// What the batch draws: instances if there are any, and the mesh if it
    /// has both vertices and indices.
    pub open spec fn plan(self) -> GlowDrawPlan {
        GlowDrawPlan {
            instances: self.instances@.len() > 0,
            mesh: self.mesh_vertices@.len() > 0 && self.mesh_indices@.len() > 0,
        }
    }

    /// Whether the batch draws nothing.
    pub fn is_empty(&self) -> (r: bool)
        ensures
            r == !(self.plan().instances || self.plan().mesh),
    {
        !self.draw_plan().has_draws()
    }

    /// Whether the batch differs from the one uploaded last.
    pub fn needs_upload(&self, uploaded_generation: Option<u64>) -> (r: bool)
        ensures
            r == (uploaded_generation != Some(self.generation)),
    {
        match uploaded_generation {
            Some(generation) => generation != self.generation,
            None => true,
        }
    }

    /// What the batch draws.
    pub fn draw_plan(&self) -> (r: GlowDrawPlan)
        ensures
            r == self.plan(),
    {
        GlowDrawPlan {
            instances: self.instances.len() > 0,
            mesh: self.mesh_vertices.len() > 0 && self.mesh_indices.len() > 0,
        }
    }

    /// Whether the batch draws a mesh.
    pub fn has_mesh(&self) -> (r: bool)
        ensures
            r == self.plan().mesh,
    {
        self.draw_plan().mesh
    }

    /// Whether the batch draws instances.
    pub fn has_instances(&self) -> (r: bool)
        ensures
            r == self.plan().instances,
    {
        self.draw_plan().instances
    }
}

/// A power of two that holds `n` elements while half of it would not.
pub open spec fn least_power_of_two(p: int, n: int) -> bool {
    &&& exists|k: nat| p == #[trigger] vstd::arithmetic::power2::pow2(k)
    &&& n <= p
    &&& p == 1 || p < 2 * n
}

/// The capacity of a buffer that must hold `needed` elements, at least one: it
/// stays while it suffices and otherwise grows to the next power of two.
pub fn buffer_capacity(needed: usize, capacity: usize) -> (r: usize)
    requires
        needed <= usize::MAX / 2,
    ensures
        ({
            let count = if needed == 0 {
                1
            } else {
                needed as int
            };
            if count <= capacity {
                r == capacity
            } else {
                least_power_of_two(r as int, count)
            }
        }),
{
    let count: usize = if needed == 0 {
        1
    } else {
        needed
    };
    if count <= capacity {
        return capacity;
    }
    let mut r: usize = 1;
    proof {
        vstd::arithmetic::power2::lemma2_to64();
    }
    assert(r == vstd::arithmetic::power2::pow2(0));
    while r < count
        invariant
            count <= usize::MAX / 2,
            count >= 1,
            r >= 1,
            exists|k: nat| r == #[trigger] vstd::arithmetic::power2::pow2(k),
            r == 1 || r < 2 * count,
        decreases 2 * count - r,
    {
        proof {
            let k = choose|k: nat| r == #[trigger] vstd::arithmetic::power2::pow2(k);
            vstd::arithmetic::power2::lemma_pow2_unfold(k + 1);
            assert(2 * r == vstd::arithmetic::power2::pow2(k + 1));
        }
        r = r * 2;
    }
    r
}

/// A cross-section of the continuous mesh.
pub struct CrossSection {
    pub center: Pos2,
    pub normal: Vec2,
    pub intensity: Binary32,
    pub color: Color,
}

/// The place of a row across the line.
pub open spec fn lateral_at(row: int) -> Binary32 {
    if row == 0 {
        num(0xbf80_0000)
    } else if row == 1 {
        num(0xbf33_3333)
    } else if row == 2 {
        num(0xbeb3_3333)
    } else if row == 3 {
        num(ZERO_BITS)
    } else if row == 4 {
        num(0x3eb3_3333)
    } else if row == 5 {
        num(0x3f33_3333)
    } else {
        num(ONE_BITS)
    }
}

/// The place of a row across the line.
fn lateral_of(row: usize) -> (r: Binary32)
    ensures
        r == lateral_at(row as int),
{
    if row == 0 {
        number(0xbf80_0000)
    } else if row == 1 {
        number(0xbf33_3333)
    } else if row == 2 {
        number(0xbeb3_3333)
    } else if row == 3 {
        number(ZERO_BITS)
    } else if row == 4 {
        number(0x3eb3_3333)
    } else if row == 5 {
        number(0x3f33_3333)
    } else {
        number(ONE_BITS)
    }
}

/// A colour channel between zero and one.
pub open spec fn channel_level(channel: u8) -> Binary32 {
    whole(channel as nat).quotient(num(FULL_CHANNEL_BITS))
}

fn level_of(channel: u8) -> (r: Binary32)
    ensures
        r == channel_level(channel),
{
    Binary32::from_u64(channel as u64).over(number(FULL_CHANNEL_BITS))
}

/// The direction from one point to another, or none if they coincide.
pub open spec fn direction(a: Pos2, b: Pos2) -> Vec2 {
    let delta = b.from(a);
    if num(SEGMENT_EPSILON_BITS).below(delta.norm()) {
        delta.divided(delta.norm())
    } else {
        Vec2 { x: num(ZERO_BITS), y: num(ZERO_BITS) }
    }
}

fn direction_of(a: Pos2, b: Pos2) -> (r: Vec2)
    ensures
        r == direction(a, b),
{
    let delta = b.away_from(a);
    let length = delta.length();
    if number(SEGMENT_EPSILON_BITS).lt(length) {
        delta.over(length)
    } else {
        Vec2 { x: number(ZERO_BITS), y: number(ZERO_BITS) }
    }
}

/// The normal where two segments join: their bisector, or the normal of the
/// first where the line turns back on itself.
pub open spec fn joint_normal(before: Pos2, at: Pos2, after: Pos2) -> Vec2 {
    let n0 = direction(before, at).turned();
    let n1 = direction(at, after).turned();
    let bisector = n0.sum(n1);
    if num(BISECTOR_EPSILON_BITS).below(bisector.norm()) {
        bisector.divided(bisector.norm())
    } else {
        n0
    }
}

fn joint_normal_of(before: Pos2, at: Pos2, after: Pos2) -> (r: Vec2)
    ensures
        r == joint_normal(before, at, after),
{
    let n0 = direction_of(before, at).turn();
    let n1 = direction_of(at, after).turn();
    let bisector = n0.plus(n1);
    let length = bisector.length();
    if number(BISECTOR_EPSILON_BITS).lt(length) {
        bisector.over(length)
    } else {
        n0
    }
}

/// The cross-sections of a polyline of `count` points up to the point `last`:
/// one for each point, and a second one at the same place where the colour
/// switches between the ends.
pub open spec fn cross_sections(
    points: Seq<Pos2>,
    intensities: Seq<Binary32>,
    colors: Seq<Color>,
    count: int,
    last: int,
) -> Seq<CrossSection>
    decreases last,
{
    if last <= 0 {
        seq![
            CrossSection {
                center: points[0],
                normal: direction(points[0], points[1]).turned(),
                intensity: intensities[0],
                color: colors[0],
            },
        ]
    } else {
        let earlier = cross_sections(points, intensities, colors, count, last - 1);
        let normal = if last == count - 1 {
            direction(points[last - 1], points[last]).turned()
        } else {
            joint_normal(points[last - 1], points[last], points[last + 1])
        };
        let section = CrossSection {
            center: points[last],
            normal,
            intensity: intensities[last],
            color: colors[last],
        };
        if last < count - 1 && colors[last] != colors[last - 1] {
            earlier.push(
                CrossSection { intensity: intensities[last - 1], color: colors[last - 1], ..section },
            ).push(section)
        } else {
            earlier.push(section)
        }
    }
}

/// The vertex of a cross-section in the given row.
pub open spec fn section_vertex(
    section: CrossSection,
    row: int,
    radius: Binary32,
    origin: Pos2,
    viewport: Vec2,
) -> GlowVertex {
    let center = section.center.moved_back((Vec2 { x: origin.x, y: origin.y }));
    GlowVertex {
        position: center.moved(section.normal.scaled(lateral_at(row).product(radius))),
        lateral: lateral_at(row),
        intensity: section.intensity.unit(),
        red: channel_level(section.color.r),
        green: channel_level(section.color.g),
        blue: channel_level(section.color.b),
        viewport: at_least_one(viewport),
    }
}

/// A size of at least one in both directions.
pub open spec fn at_least_one(size: Vec2) -> Vec2 {
    Vec2 { x: size.x.larger(num(ONE_BITS)), y: size.y.larger(num(ONE_BITS)) }
}

/// The vertices of cross-sections, row by row.
pub open spec fn strip_vertices(
    sections: Seq<CrossSection>,
    radius: Binary32,
    origin: Pos2,
    viewport: Vec2,
) -> Seq<GlowVertex> {
    Seq::new(
        sections.len() * MESH_ROWS as nat,
        |i: int| section_vertex(sections[i / MESH_ROWS as int], i % MESH_ROWS as int, radius, origin, viewport),
    )
}

/// The indices that connect two cross-sections whose vertices start at `a` and
/// `b`: two triangles between each two rows.
pub open spec fn link(a: int, b: int) -> Seq<u32> {
    Seq::new(
        36,
        |i: int|
            {
                let row = i / 6;
                let corner = i % 6;
                (if corner == 0 || corner == 3 {
                    a + row
                } else if corner == 1 {
                    b + row
                } else if corner == 5 {
                    a + row + 1
                } else {
                    b + row + 1
                }) as u32
            },
    )
}

/// The indices that connect `count` cross-sections whose vertices start at
/// `base`, each with the next.
pub open spec fn links(base: int, count: int) -> Seq<u32>
    decreases count,
{
    if count <= 1 {
        Seq::empty()
    } else {
        links(base, count - 1) + link(base + (count - 2) * MESH_ROWS, base + (count - 1) * MESH_ROWS)
    }
}

/// The instance for a shape between two points, seen from a viewport.
pub open spec fn instance_at(
    origin: Pos2,
    viewport: Vec2,
    a: Pos2,
    b: Pos2,
    radius: Binary32,
    color: Color,
    intensity: Binary32,
    kind: Binary32,
) -> GlowInstance {
    let offset = Vec2 { x: origin.x, y: origin.y };
    GlowInstance {
        a: a.moved_back(offset),
        b: b.moved_back(offset),
        radius: radius.larger(num(HALF_BITS)),
        intensity: intensity.unit(),
        kind,
        red: channel_level(color.r),
        green: channel_level(color.g),
        blue: channel_level(color.b),
        viewport: at_least_one(viewport),
    }
}

/// The instance of a rounded rectangle.
pub open spec fn rect_glow(
    origin: Pos2,
    viewport: Vec2,
    rect: Rect,
    spread: Binary32,
    color: Color,
    intensity: Binary32,
) -> GlowInstance {
    instance_at(origin, viewport, rect.min, rect.max, spread, color, intensity, num(ONE_BITS))
}

/// Collects emission for one viewport.
#[derive(Debug, Clone, PartialEq, Eq)]
pub struct GlowBatchBuilder {
    pub origin: Pos2,
    pub viewport_size: Vec2,
    pub instances: Vec<GlowInstance>,
    pub mesh_vertices: Vec<GlowVertex>,
    pub mesh_indices: Vec<u32>,
}

impl GlowBatchBuilder {
    /// Whether every index points to a vertex and the indices form triangles.
    pub open spec fn well_formed(self) -> bool {
        &&& self.mesh_indices@.len() % 3 == 0
        &&& forall|i: int|
            0 <= i < self.mesh_indices@.len() ==> (#[trigger] self.mesh_indices@[i]) < self.mesh_vertices@.len()
    }

    /// Whether only instances may differ.
    pub open spec fn same_mesh(self, other: GlowBatchBuilder) -> bool {
        &&& self.origin == other.origin
        &&& self.viewport_size == other.viewport_size
        &&& self.mesh_vertices@ == other.mesh_vertices@
        &&& self.mesh_indices@ == other.mesh_indices@
    }

    /// The instance for a shape between two points.
    pub open spec fn instance(
        self,
        a: Pos2,
        b: Pos2,
        radius: Binary32,
        color: Color,
        intensity: Binary32,
        kind: Binary32,
    ) -> GlowInstance {
        instance_at(self.origin, self.viewport_size, a, b, radius, color, intensity, kind)
    }

    /// An empty builder for a viewport.
    pub fn new(viewport: Rect) -> (r: Self)
        ensures
            r.origin == viewport.min,
            r.viewport_size == viewport.max.from(viewport.min),
            r.instances@ == Seq::<GlowInstance>::empty(),
            r.mesh_vertices@ == Seq::<GlowVertex>::empty(),
            r.mesh_indices@ == Seq::<u32>::empty(),
            r.well_formed(),
    {
        GlowBatchBuilder {
            origin: viewport.min,
            viewport_size: viewport.max.away_from(viewport.min),
            instances: Vec::new(),
            mesh_vertices: Vec::new(),
            mesh_indices: Vec::new(),
        }
    }

    /// Adds a straight ribbon.
    pub fn ribbon_segment(&mut self, start: Pos2, end: Pos2, radius: Binary32, color: Color, intensity: Binary32)
        ensures
            final(self).same_mesh(*old(self)),
            final(self).instances@ == old(self).instances@.push(
                old(self).instance(start, end, radius, color, intensity, num(ZERO_BITS)),
            ),
    {
        self.push(start, end, radius, color, intensity, number(ZERO_BITS));
    }

    /// Adds a radial blob.
    pub fn radial(&mut self, center: Pos2, radius: Binary32, color: Color, intensity: Binary32)
        ensures
            final(self).same_mesh(*old(self)),
            final(self).instances@ == old(self).instances@.push(
                old(self).instance(center, center, radius, color, intensity, num(TWO_BITS)),
            ),
    {
        self.push(center, center, radius, color, intensity, number(TWO_BITS));
    }

    /// Adds a rounded rectangle.
    pub fn rounded_rect(&mut self, rect: Rect, spread: Binary32, color: Color, intensity: Binary32)
        ensures
            final(self).same_mesh(*old(self)),
            final(self).instances@ == old(self).instances@.push(
                old(self).instance(rect.min, rect.max, spread, color, intensity, num(ONE_BITS)),
            ),
    {
        self.push(rect.min, rect.max, spread, color, intensity, number(ONE_BITS));
    }

    fn push(&mut self, a: Pos2, b: Pos2, radius: Binary32, color: Color, intensity: Binary32, kind: Binary32)
        ensures
            final(self).same_mesh(*old(self)),
            final(self).instances@ == old(self).instances@.push(
                old(self).instance(a, b, radius, color, intensity, kind),
            ),
    {
        let origin = Vec2 { x: self.origin.x, y: self.origin.y };
        let one = number(ONE_BITS);
        self.instances.push(
            GlowInstance {
                a: a.minus(origin),
                b: b.minus(origin),
                radius: radius.max(number(HALF_BITS)),
                intensity: intensity.clamp_unit(),
                kind,
                red: level_of(color.r),
                green: level_of(color.g),
                blue: level_of(color.b),
                viewport: Vec2 { x: self.viewport_size.x.max(one), y: self.viewport_size.y.max(one) },
            },
        );
    }

    /// The number of points that a polyline uses.
    pub open spec fn polyline_count(points: nat, intensities: nat, colors: nat) -> nat {
        let shorter = if points <= intensities {
            points
        } else {
            intensities
        };
        if shorter <= colors {
            shorter
        } else {
            colors
        }
    }

    /// Whether the mesh has room for a polyline of `count` points, with two
    /// cross-sections of seven rows for each of them.
    pub open spec fn room_for(self, count: nat) -> bool {
        self.mesh_vertices@.len() + 14 * count <= u32::MAX
    }

    /// Whether the mesh has room for a polyline of `count` points, with two
    /// cross-sections of seven rows for each of them.
    pub fn has_room_for(&self, count: usize) -> (r: bool)
        ensures
            r == self.room_for(count as nat),
    {
        let used: usize = self.mesh_vertices.len();
        used <= u32::MAX as usize && count <= (u32::MAX as usize - used) / 14
    }

    /// Adds one continuous halo along a line. Intensities and colours belong
    /// to the points; surplus entries are not used, and fewer than two points
    /// add nothing. Every cross-section is offset by `radius`, up to rounding,
    /// so a join never widens the halo.
    pub fn push_polyline(&mut self, points: &[Pos2], intensities: &[Binary32], colors: &[Color], radius: Binary32)
        requires
            old(self).room_for(Self::polyline_count(points@.len(), intensities@.len(), colors@.len())),
        ensures
            final(self).origin == old(self).origin,
            final(self).viewport_size == old(self).viewport_size,
            final(self).instances@ == old(self).instances@,
            ({
                let count = Self::polyline_count(points@.len(), intensities@.len(), colors@.len()) as int;
                let sections = cross_sections(points@, intensities@, colors@, count, count - 1);
                if count < 2 {
                    final(self).same_mesh(*old(self))
                } else {
                    &&& final(self).mesh_vertices@ == old(self).mesh_vertices@ + strip_vertices(
                        sections,
                        radius,
                        old(self).origin,
                        old(self).viewport_size,
                    )
                    &&& final(self).mesh_indices@ == old(self).mesh_indices@ + links(
                        old(self).mesh_vertices@.len() as int,
                        sections.len() as int,
                    )
                }
            }),
            old(self).well_formed() ==> final(self).well_formed(),
    {
        let shorter: usize = if points.len() <= intensities.len() {
            points.len()
        } else {
            intensities.len()
        };
        let count: usize = if shorter <= colors.len() {
            shorter
        } else {
            colors.len()
        };
        if count < 2 {
            return;
        }
        let ghost base = self.mesh_vertices@.len() as int;
        let ghost mut sections = seq![
            CrossSection {
                center: points@[0],
                normal: direction(points@[0], points@[1]).turned(),
                intensity: intensities@[0],
                color: colors@[0],
            },
        ];
        let mut previous: u32 = self.push_cross_section(
            points[0],
            direction_of(points[0], points[1]).turn(),
            radius,
            intensities[0],
            colors[0],
        );
        proof {
            lemma_strip_push(Seq::empty(), sections[0], radius, self.origin, self.viewport_size);
            assert(Seq::<CrossSection>::empty().push(sections[0]) =~= sections);
            assert(strip_vertices(Seq::empty(), radius, self.origin, self.viewport_size) =~= Seq::<GlowVertex>::empty());
            assert(self.mesh_vertices@ =~= old(self).mesh_vertices@ + strip_vertices(
                sections,
                radius,
                self.origin,
                self.viewport_size,
            ));
            assert(self.mesh_indices@ =~= old(self).mesh_indices@ + links(base, 1));
        }
        let mut index: usize = 1;
        while index < count
            invariant
                1 <= index <= count,
                count <= points@.len(),
                count <= intensities@.len(),
                count <= colors@.len(),
                count >= 2,
                base == old(self).mesh_vertices@.len(),
                base + 14 * count <= u32::MAX,
                sections == cross_sections(points@, intensities@, colors@, count as int, index - 1),
                index <= sections.len() <= 2 * index - 1,
                previous == base + (sections.len() - 1) * MESH_ROWS,
                self.origin == old(self).origin,
                self.viewport_size == old(self).viewport_size,
                self.instances@ == old(self).instances@,
                self.mesh_vertices@ == old(self).mesh_vertices@ + strip_vertices(
                    sections,
                    radius,
                    self.origin,
                    self.viewport_size,
                ),
                self.mesh_indices@ == old(self).mesh_indices@ + links(base, sections.len() as int),
                old(self).well_formed() ==> self.well_formed(),
            decreases count - index,
        {
            let last: bool = index == count - 1;
            let normal = if last {
                direction_of(points[index - 1], points[index]).turn()
            } else {
                joint_normal_of(points[index - 1], points[index], points[index + 1])
            };
            if !last && colors[index] != colors[index - 1] {
                // A second cross-section at the same place lets the colour
                // switch without a mix in between, while the line stays
                // connected.
                previous = self.extend(
                    previous,
                    points[index],
                    normal,
                    radius,
                    intensities[index - 1],
                    colors[index - 1],
                    Ghost(old(self).mesh_vertices@),
                    Ghost(old(self).mesh_indices@),
                    Ghost(sections),
                );
                proof {
                    sections = sections.push(
                        CrossSection {
                            center: points@[index as int],
                            normal,
                            intensity: intensities@[index - 1],
                            color: colors@[index - 1],
                        },
                    );
                }
            }
            previous = self.extend(
                previous,
                points[index],
                normal,
                radius,
                intensities[index],
                colors[index],
                Ghost(old(self).mesh_vertices@),
                Ghost(old(self).mesh_indices@),
                Ghost(sections),
            );
            proof {
                sections = sections.push(
                    CrossSection {
                        center: points@[index as int],
                        normal,
                        intensity: intensities@[index as int],
                        color: colors@[index as int],
                    },
                );
                assert(sections =~= cross_sections(points@, intensities@, colors@, count as int, index as int));
            }
            index = index + 1;
        }
    }

    /// Adds a cross-section and connects it to the previous one.
    fn extend(
        &mut self,
        previous: u32,
        center: Pos2,
        normal: Vec2,
        radius: Binary32,
        intensity: Binary32,
        color: Color,
        Ghost(vertices): Ghost<Seq<GlowVertex>>,
        Ghost(indices): Ghost<Seq<u32>>,
        Ghost(sections): Ghost<Seq<CrossSection>>,
    ) -> (r: u32)
        requires
            sections.len() >= 1,
            vertices.len() + (sections.len() + 1) * MESH_ROWS <= u32::MAX,
            previous == vertices.len() + (sections.len() - 1) * MESH_ROWS,
            old(self).mesh_vertices@ == vertices + strip_vertices(
                sections,
                radius,
                old(self).origin,
                old(self).viewport_size,
            ),
            old(self).mesh_indices@ == indices + links(vertices.len() as int, sections.len() as int),
        ensures
            final(self).origin == old(self).origin,
            final(self).viewport_size == old(self).viewport_size,
            final(self).instances@ == old(self).instances@,
            r == vertices.len() + sections.len() * MESH_ROWS,
            ({
                let longer = sections.push((CrossSection { center, normal, intensity, color }));
                &&& final(self).mesh_vertices@ == vertices + strip_vertices(
                    longer,
                    radius,
                    old(self).origin,
                    old(self).viewport_size,
                )
                &&& final(self).mesh_indices@ == indices + links(vertices.len() as int, longer.len() as int)
            }),
            old(self).well_formed() ==> final(self).well_formed(),
    {
        let base: u32 = self.push_cross_section(center, normal, radius, intensity, color);
        proof {
            let section = CrossSection { center, normal, intensity, color };
            lemma_strip_push(sections, section, radius, self.origin, self.viewport_size);
            assert(self.mesh_vertices@ =~= vertices + strip_vertices(
                sections.push(section),
                radius,
                self.origin,
                self.viewport_size,
            ));
        }
        self.connect(previous, base);
        proof {
            assert(self.mesh_indices@ =~= indices + links(vertices.len() as int, (sections.len() + 1) as int));
        }
        base
    }

    /// Adds the vertices of one cross-section and returns where they start.
    fn push_cross_section(
        &mut self,
        center_global: Pos2,
        normal: Vec2,
        radius: Binary32,
        intensity: Binary32,
        color: Color,
    ) -> (r: u32)
        requires
            old(self).mesh_vertices@.len() + MESH_ROWS <= u32::MAX,
        ensures
            r == old(self).mesh_vertices@.len(),
            final(self).origin == old(self).origin,
            final(self).viewport_size == old(self).viewport_size,
            final(self).instances@ == old(self).instances@,
            final(self).mesh_indices@ == old(self).mesh_indices@,
            final(self).mesh_vertices@ == old(self).mesh_vertices@ + section_rows(
                (CrossSection { center: center_global, normal, intensity, color }),
                radius,
                old(self).origin,
                old(self).viewport_size,
                MESH_ROWS as int,
            ),
            old(self).well_formed() ==> final(self).well_formed(),
    {
        let center = center_global.minus(Vec2 { x: self.origin.x, y: self.origin.y });
        let base: u32 = self.mesh_vertices.len() as u32;
        let one = number(ONE_BITS);
        let ghost section = CrossSection { center: center_global, normal, intensity, color };
        let mut row: usize = 0;
        proof {
            assert(self.mesh_vertices@ =~= old(self).mesh_vertices@ + section_rows(
                section,
                radius,
                self.origin,
                self.viewport_size,
                0,
            ));
        }
        while row < MESH_ROWS
            invariant
                row <= MESH_ROWS,
                section == (CrossSection { center: center_global, normal, intensity, color }),
                center == center_global.moved_back((Vec2 { x: self.origin.x, y: self.origin.y })),
                one == num(ONE_BITS),
                self.origin == old(self).origin,
                self.viewport_size == old(self).viewport_size,
                self.instances@ == old(self).instances@,
                self.mesh_indices@ == old(self).mesh_indices@,
                self.mesh_vertices@ == old(self).mesh_vertices@ + section_rows(
                    section,
                    radius,
                    self.origin,
                    self.viewport_size,
                    row as int,
                ),
            decreases MESH_ROWS - row,
        {
            let lateral = lateral_of(row);
            self.mesh_vertices.push(
                GlowVertex {
                    position: center.plus(normal.times(lateral.times(radius))),
                    lateral,
                    intensity: intensity.clamp_unit(),
                    red: level_of(color.r),
                    green: level_of(color.g),
                    blue: level_of(color.b),
                    viewport: Vec2 { x: self.viewport_size.x.max(one), y: self.viewport_size.y.max(one) },
                },
            );
            row = row + 1;
            proof {
                assert(self.mesh_vertices@ =~= old(self).mesh_vertices@ + section_rows(
                    section,
                    radius,
                    self.origin,
                    self.viewport_size,
                    row as int,
                ));
            }
        }
        base
    }

    /// Connects two cross-sections by triangles.
    fn connect(&mut self, a: u32, b: u32)
        requires
            a + MESH_ROWS <= u32::MAX,
            b + MESH_ROWS <= u32::MAX,
            a + MESH_ROWS <= old(self).mesh_vertices@.len(),
            b + MESH_ROWS <= old(self).mesh_vertices@.len(),
        ensures
            final(self).origin == old(self).origin,
            final(self).viewport_size == old(self).viewport_size,
            final(self).instances@ == old(self).instances@,
            final(self).mesh_vertices@ == old(self).mesh_vertices@,
            final(self).mesh_indices@ == old(self).mesh_indices@ + link(a as int, b as int),
            old(self).well_formed() ==> final(self).well_formed(),
    {
        let mut row: u32 = 0;
        let ghost pattern = link(a as int, b as int);
        proof {
            assert(self.mesh_indices@ =~= old(self).mesh_indices@ + pattern.take(0));
        }
        while row < 6
            invariant
                row <= 6,
                a + MESH_ROWS <= u32::MAX,
                b + MESH_ROWS <= u32::MAX,
                pattern == link(a as int, b as int),
                self.origin == old(self).origin,
                self.viewport_size == old(self).viewport_size,
                self.instances@ == old(self).instances@,
                self.mesh_vertices@ == old(self).mesh_vertices@,
                self.mesh_indices@ == old(self).mesh_indices@ + pattern.take(6 * row as int),
            decreases 6 - row,
        {
            let a0: u32 = a + row;
            let a1: u32 = a + row + 1;
            let b0: u32 = b + row;
            let b1: u32 = b + row + 1;
            self.mesh_indices.push(a0);
            self.mesh_indices.push(b0);
            self.mesh_indices.push(b1);
            self.mesh_indices.push(a0);
            self.mesh_indices.push(b1);
            self.mesh_indices.push(a1);
            row = row + 1;
            proof {
                assert(self.mesh_indices@ =~= old(self).mesh_indices@ + pattern.take(6 * row as int));
            }
        }
        proof {
            assert(pattern.take(36) =~= pattern);
            if old(self).well_formed() {
                assert forall|i: int| 0 <= i < self.mesh_indices@.len() implies (#[trigger] self.mesh_indices@[i])
                    < self.mesh_vertices@.len() by {
                    let before = old(self).mesh_indices@.len();
                    if i >= before {
                        assert(self.mesh_indices@[i] == pattern[i - before]);
                    } else {
                        assert(self.mesh_indices@[i] == old(self).mesh_indices@[i]);
                    }
                }
            }
        }
    }

    /// The finished batch.
    pub fn finish(self, generation: u64) -> (r: GlowBatch)
        ensures
            r.generation == generation,
            r.instances@ == self.instances@,
            r.mesh_vertices@ == self.mesh_vertices@,
            r.mesh_indices@ == self.mesh_indices@,
    {
        GlowBatch {
            generation,
            instances: self.instances,
            mesh_vertices: self.mesh_vertices,
            mesh_indices: self.mesh_indices,
        }
    }
}

/// The first rows of one cross-section.
pub open spec fn section_rows(
    section: CrossSection,
    radius: Binary32,
    origin: Pos2,
    viewport: Vec2,
    rows: int,
) -> Seq<GlowVertex> {
    Seq::new(rows as nat, |row: int| section_vertex(section, row, radius, origin, viewport))
}

proof fn lemma_strip_push(
    sections: Seq<CrossSection>,
    section: CrossSection,
    radius: Binary32,
    origin: Pos2,
    viewport: Vec2,
)
    ensures
        strip_vertices(sections.push(section), radius, origin, viewport) == strip_vertices(
            sections,
            radius,
            origin,
            viewport,
        ) + section_rows(section, radius, origin, viewport, MESH_ROWS as int),
{
    let longer = strip_vertices(sections.push(section), radius, origin, viewport);
    let parts = strip_vertices(sections, radius, origin, viewport) + section_rows(
        section,
        radius,
        origin,
        viewport,
        MESH_ROWS as int,
    );
    assert(longer.len() == parts.len());
    assert forall|i: int| 0 <= i < longer.len() implies longer[i] == parts[i] by {
        let before = sections.len() * MESH_ROWS;
        if i < before {
            assert(i / 7 < sections.len());
        } else {
            assert(i / 7 == sections.len());
            assert(i % 7 == i - before);
        }
    }
    assert(longer =~= parts);
}

/// The number of places between the ends where the colour switches, up to the
/// point `last`.
pub open spec fn switches(colors: Seq<Color>, count: int, last: int) -> int
    decreases last,
{
    if last <= 0 {
        0
    } else {
        switches(colors, count, last - 1) + (if last < count - 1 && colors[last] != colors[last - 1] {
            1int
        } else {
            0int
        })
    }
}

/// A polyline has one cross-section for each point and one more for each
/// switch of colour: a line of one colour has no duplicates at its joints.
pub proof fn law_one_section_for_each_point(
    points: Seq<Pos2>,
    intensities: Seq<Binary32>,
    colors: Seq<Color>,
    count: int,
    last: int,
)
    requires
        0 <= last < count,
    ensures
        cross_sections(points, intensities, colors, count, last).len() == last + 1 + switches(colors, count, last),
    decreases last,
{
    if last > 0 {
        law_one_section_for_each_point(points, intensities, colors, count, last - 1);
    }
}

/// The last cross-section belongs to the last point, and where the colour
/// switches two cross-sections share place and direction, so the line has
/// neither a gap nor a mix of the two colours.
pub proof fn law_switches_keep_the_line_connected(
    points: Seq<Pos2>,
    intensities: Seq<Binary32>,
    colors: Seq<Color>,
    count: int,
    last: int,
)
    requires
        0 <= last < count,
    ensures
        ({
            let sections = cross_sections(points, intensities, colors, count, last);
            &&& sections.last().center == points[last]
            &&& sections.last().color == colors[last]
            &&& 0 < last < count - 1 && colors[last] != colors[last - 1] ==> {
                let before = sections[sections.len() - 2];
                &&& before.center == sections.last().center
                &&& before.normal == sections.last().normal
                &&& before.color == colors[last - 1]
            }
        }),
{
    law_one_section_for_each_point(points, intensities, colors, count, last);
}

/// Every two neighbouring cross-sections are connected, and nothing else.
pub proof fn law_strip_is_connected(base: int, count: int)
    requires
        count >= 1,
    ensures
        links(base, count).len() == 36 * (count - 1),
    decreases count,
{
    if count > 1 {
        law_strip_is_connected(base, count - 1);
    }
}

} // verus!
