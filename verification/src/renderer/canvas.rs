//! What the parts of the display add to it.
use crate::renderer::geometry::Rect;
use crate::renderer::glow::{GlowBatchBuilder, GlowInstance};
use crate::renderer::shapes::{views, Shape, ShapeView};
use vstd::prelude::*;

verus! {

/// Painted shapes, the shapes painted where no light can be emitted, and the
/// emitted light.
pub struct HudParts {
    pub sharp: Seq<ShapeView>,
    pub fallback: Seq<ShapeView>,
    pub glow: Seq<GlowInstance>,
}

/// Nothing.
pub open spec fn no_parts() -> HudParts {
    HudParts { sharp: Seq::empty(), fallback: Seq::empty(), glow: Seq::empty() }
}

/// Painted shapes alone.
pub open spec fn sharp_parts(sharp: Seq<ShapeView>) -> HudParts {
    HudParts { sharp, fallback: Seq::empty(), glow: Seq::empty() }
}

/// Emitted light alone.
pub open spec fn glow_parts(glow: Seq<GlowInstance>) -> HudParts {
    HudParts { sharp: Seq::empty(), fallback: Seq::empty(), glow }
}

impl HudParts {
    /// These parts and then others.
    pub open spec fn plus(self, other: HudParts) -> HudParts {
        HudParts {
            sharp: self.sharp + other.sharp,
            fallback: self.fallback + other.fallback,
            glow: self.glow + other.glow,
        }
    }

    /// These parts if wanted, and nothing otherwise.
    pub open spec fn when(self, wanted: bool) -> HudParts {
        if wanted {
            self
        } else {
            no_parts()
        }
    }
}

/// Appending twice is appending both, and appending nothing changes nothing.
pub proof fn lemma_append<T>(a: Seq<T>, b: Seq<T>, c: Seq<T>)
    ensures
        (a + b) + c == a + (b + c),
        a + Seq::<T>::empty() == a,
{
    assert((a + b) + c =~= a + (b + c));
    assert(a + Seq::<T>::empty() =~= a);
}

/// Adding parts one after the other is adding all of them.
pub proof fn lemma_plus(a: HudParts, b: HudParts, c: HudParts)
    ensures
        a.plus(b).plus(c) == a.plus(b.plus(c)),
        a.plus(no_parts()) == a,
        no_parts().plus(a) == a,
{
    lemma_append(a.sharp, b.sharp, c.sharp);
    lemma_append(a.fallback, b.fallback, c.fallback);
    lemma_append(a.glow, b.glow, c.glow);
    assert(no_parts().plus(a).sharp =~= a.sharp);
    assert(no_parts().plus(a).fallback =~= a.fallback);
    assert(no_parts().plus(a).glow =~= a.glow);
}

/// Where the display is drawn.
#[derive(Debug, Clone, PartialEq, Eq)]
pub struct HudCanvas {
    pub sharp_shapes: Vec<Shape>,
    pub fallback_emission_shapes: Vec<Shape>,
    pub glow: GlowBatchBuilder,
}

impl HudCanvas {
    /// What has been drawn, apart from the continuous mesh.
    pub open spec fn parts(self) -> HudParts {
        HudParts {
            sharp: views(self.sharp_shapes@),
            fallback: views(self.fallback_emission_shapes@),
            glow: self.glow.instances@,
        }
    }

    /// Whether this canvas is another one with parts added, and the same mesh.
    pub open spec fn added(self, before: HudCanvas, parts: HudParts) -> bool {
        &&& self.parts() == before.parts().plus(parts)
        &&& self.glow.same_mesh(before.glow)
    }

    /// An empty canvas for a rectangle.
    pub fn new(rect: Rect) -> (r: Self)
        ensures
            r.parts() == no_parts(),
            r.glow.origin == rect.min,
            r.glow.viewport_size == rect.max.from(rect.min),
            r.glow.mesh_vertices@.len() == 0,
            r.glow.mesh_indices@.len() == 0,
            r.glow.well_formed(),
    {
        let canvas = HudCanvas {
            sharp_shapes: Vec::new(),
            fallback_emission_shapes: Vec::new(),
            glow: GlowBatchBuilder::new(rect),
        };
        proof {
            assert(canvas.parts().sharp =~= Seq::<ShapeView>::empty());
            assert(canvas.parts().fallback =~= Seq::<ShapeView>::empty());
        }
        canvas
    }
}

} // verus!
