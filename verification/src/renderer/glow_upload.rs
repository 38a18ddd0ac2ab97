//! When and how emission is handed to the graphics device.
use crate::binary32::Binary32;
use crate::renderer::glow::{
    buffer_capacity, least_power_of_two, GlowBatch, GlowInstance, GlowVertex, INSTANCE_FLOATS, MESH_FLOATS,
};
use vstd::prelude::*;

verus! {

/// Bytes of an instance.
pub const INSTANCE_SIZE: u64 = 64;

/// Bytes of a mesh vertex.
pub const MESH_STRIDE: u64 = 40;

/// What the device holds.
#[derive(Debug, Clone, Copy, PartialEq, Eq, Structural)]
pub struct GlowUploads {
    pub instance_capacity: usize,
    pub mesh_vertex_capacity: usize,
    pub mesh_index_capacity: usize,
    pub uploaded_generation: Option<u64>,
}

impl Default for GlowUploads {
    /// Buffers for one element each, with nothing uploaded.
    fn default() -> (r: Self)
        ensures
            r == (GlowUploads {
                instance_capacity: 1,
                mesh_vertex_capacity: 1,
                mesh_index_capacity: 1,
                uploaded_generation: None,
            }),
    {
        GlowUploads {
            instance_capacity: 1,
            mesh_vertex_capacity: 1,
            mesh_index_capacity: 1,
            uploaded_generation: None,
        }
    }
}

/// What has to be done to upload a batch.
#[derive(Debug, Clone, Copy, PartialEq, Eq, Structural)]
pub struct UploadPlan {
    /// Whether a new buffer of the new capacity is needed, for each buffer.
    pub grow_instances: bool,
    pub grow_mesh_vertices: bool,
    pub grow_mesh_indices: bool,
    /// What is written.
    pub write_instances: bool,
    pub write_mesh: bool,
}

/// How many elements a buffer must hold.
pub open spec fn needed(count: nat) -> nat {
    if count == 0 {
        1
    } else {
        count
    }
}

/// Whether a capacity is the right one after `count` elements must fit: the old
/// one if that suffices, and otherwise the next power of two.
pub open spec fn fits(count: nat, old_capacity: usize, capacity: usize) -> bool {
    if needed(count) <= old_capacity {
        capacity == old_capacity
    } else {
        least_power_of_two(capacity as int, needed(count) as int)
    }
}

impl GlowUploads {
    /// Whether the buffers for a batch can be addressed.
    pub open spec fn can_hold(batch: GlowBatch) -> bool {
        &&& batch.instances@.len() <= usize::MAX / 2
        &&& batch.mesh_vertices@.len() <= usize::MAX / 2
        &&& batch.mesh_indices@.len() <= usize::MAX / 2
    }

    /// Plans the upload of a batch, unless it has been uploaded already, and
    /// counts it as uploaded.
    pub fn plan(&mut self, batch: &GlowBatch) -> (r: Option<UploadPlan>)
        requires
            Self::can_hold(*batch),
        ensures
            r is Some <==> old(self).uploaded_generation != Some(batch.generation),
            r is None ==> *final(self) == *old(self),
            r matches Some(plan) ==> {
                &&& plan.grow_instances == (needed(batch.instances@.len()) > old(self).instance_capacity)
                &&& plan.grow_mesh_vertices == (needed(batch.mesh_vertices@.len()) > old(self).mesh_vertex_capacity)
                &&& plan.grow_mesh_indices == (needed(batch.mesh_indices@.len()) > old(self).mesh_index_capacity)
                &&& plan.write_instances == batch.plan().instances
                &&& plan.write_mesh == batch.plan().mesh
                &&& fits(batch.instances@.len(), old(self).instance_capacity, final(self).instance_capacity)
                &&& fits(
                    batch.mesh_vertices@.len(),
                    old(self).mesh_vertex_capacity,
                    final(self).mesh_vertex_capacity,
                )
                &&& fits(
                    batch.mesh_indices@.len(),
                    old(self).mesh_index_capacity,
                    final(self).mesh_index_capacity,
                )
                &&& final(self).uploaded_generation == Some(batch.generation)
            },
    {
        if !batch.needs_upload(self.uploaded_generation) {
            return None;
        }
        let before = *self;
        self.instance_capacity = buffer_capacity(batch.instances.len(), before.instance_capacity);
        self.mesh_vertex_capacity = buffer_capacity(batch.mesh_vertices.len(), before.mesh_vertex_capacity);
        self.mesh_index_capacity = buffer_capacity(batch.mesh_indices.len(), before.mesh_index_capacity);
        self.uploaded_generation = Some(batch.generation);
        let drawn = batch.draw_plan();
        Some(
            UploadPlan {
                grow_instances: self.instance_capacity > before.instance_capacity,
                grow_mesh_vertices: self.mesh_vertex_capacity > before.mesh_vertex_capacity,
                grow_mesh_indices: self.mesh_index_capacity > before.mesh_index_capacity,
                write_instances: drawn.instances,
                write_mesh: drawn.mesh,
            },
        )
    }
}

/// The patterns of some numbers.
pub open spec fn patterns(numbers: Seq<Binary32>) -> Seq<u32> {
    numbers.map_values(|x: Binary32| x.bits)
}

fn push_patterns(words: &mut Vec<u32>, numbers: &[Binary32])
    ensures
        final(words)@ == old(words)@ + patterns(numbers@),
{
    let ghost before = words@;
    let mut i: usize = 0;
    while i < numbers.len()
        invariant
            i <= numbers@.len(),
            words@ == before + patterns(numbers@.take(i as int)),
        decreases numbers@.len() - i,
    {
        words.push(numbers[i].bits);
        i = i + 1;
        proof {
            assert(patterns(numbers@.take(i as int)) =~= patterns(numbers@.take(i - 1)).push(numbers@[i - 1].bits));
        }
    }
    proof {
        assert(numbers@.take(i as int) =~= numbers@);
    }
}

/// The patterns of instances, one after another.
pub open spec fn instance_patterns(instances: Seq<GlowInstance>) -> Seq<u32>
    decreases instances.len(),
{
    if instances.len() == 0 {
        Seq::empty()
    } else {
        instance_patterns(instances.drop_last()) + patterns(instances.last().numbers())
    }
}

/// The patterns of instances, one after another.
pub fn instance_words(instances: &[GlowInstance]) -> (r: Vec<u32>)
    ensures
        r@ == instance_patterns(instances@),
{
    let mut words: Vec<u32> = Vec::new();
    let mut i: usize = 0;
    proof {
        assert(instances@.take(0) =~= Seq::empty());
    }
    while i < instances.len()
        invariant
            i <= instances@.len(),
            words@ == instance_patterns(instances@.take(i as int)),
        decreases instances@.len() - i,
    {
        let numbers = instances[i].to_array();
        push_patterns(&mut words, &numbers);
        i = i + 1;
        proof {
            assert(instances@.take(i as int).drop_last() =~= instances@.take(i - 1));
        }
    }
    proof {
        assert(instances@.take(i as int) =~= instances@);
    }
    words
}

/// The patterns of vertices, one after another.
pub open spec fn vertex_patterns(vertices: Seq<GlowVertex>) -> Seq<u32>
    decreases vertices.len(),
{
    if vertices.len() == 0 {
        Seq::empty()
    } else {
        vertex_patterns(vertices.drop_last()) + patterns(vertices.last().numbers())
    }
}

/// The patterns of vertices, one after another.
pub fn vertex_words(vertices: &[GlowVertex]) -> (r: Vec<u32>)
    ensures
        r@ == vertex_patterns(vertices@),
{
    let mut words: Vec<u32> = Vec::new();
    let mut i: usize = 0;
    proof {
        assert(vertices@.take(0) =~= Seq::empty());
    }
    while i < vertices.len()
        invariant
            i <= vertices@.len(),
            words@ == vertex_patterns(vertices@.take(i as int)),
        decreases vertices@.len() - i,
    {
        let numbers = vertices[i].to_array();
        push_patterns(&mut words, &numbers);
        i = i + 1;
        proof {
            assert(vertices@.take(i as int).drop_last() =~= vertices@.take(i - 1));
        }
    }
    proof {
        assert(vertices@.take(i as int) =~= vertices@);
    }
    words
}

/// The patterns fill the buffers: as many as the instances and vertices have
/// numbers.
pub proof fn law_patterns_fill_the_buffers(instances: Seq<GlowInstance>, vertices: Seq<GlowVertex>)
    ensures
        instance_patterns(instances).len() == instances.len() * INSTANCE_FLOATS,
        vertex_patterns(vertices).len() == vertices.len() * MESH_FLOATS,
    decreases instances.len() + vertices.len(),
{
    if instances.len() > 0 {
        law_patterns_fill_the_buffers(instances.drop_last(), vertices);
    } else if vertices.len() > 0 {
        law_patterns_fill_the_buffers(instances, vertices.drop_last());
    }
}

} // verus!
