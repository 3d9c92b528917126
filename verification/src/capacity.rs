//! Room in the device's buffers, which grows with the scene.

use crate::codec::lemma_le_bytes_len;
use crate::common::Vertex;
use crate::records::{encode_items, views, Record};
use crate::removal::lemma_tiles_within;
use crate::scene::{index_ranges, vertex_ranges, ModelInfo, ModelInfoView, Scene, SceneView};
use vstd::prelude::*;

verus! {

/// The number of bytes of a vertex and of an index, as the device takes them.
pub const VERTEX_SIZE: u64 = 64;

pub const INDEX_SIZE: u64 = 4;

/// How many vertices, indices and models there is room for.
#[derive(Clone, Copy, PartialEq, Eq, Structural, Debug)]
pub struct GeometryCapacity {
    pub vertex_capacity: u64,
    pub index_capacity: u64,
    pub model_capacity: usize,
}

/// Half as much again, but no less than a lower limit.
pub open spec fn grown(needed: int, least: int) -> int {
    if needed * 3 / 2 >= least {
        needed * 3 / 2
    } else {
        least
    }
}

impl GeometryCapacity {
    /// Whether a scene needs more room.
    pub open spec fn too_small_for(self, scene: SceneView) -> bool {
        ||| scene.vertices.len() > self.vertex_capacity
        ||| scene.indices.len() > self.index_capacity
        ||| scene.models.len() > self.model_capacity
    }

    /// The room that is made for a scene.
    pub open spec fn made_for(scene: SceneView) -> GeometryCapacity {
        GeometryCapacity {
            vertex_capacity: grown(scene.vertices.len() as int, 64) as u64,
            index_capacity: grown(scene.indices.len() as int, 64) as u64,
            model_capacity: grown(scene.models.len() as int, 4) as usize,
        }
    }
}

/// Plans room for so many vertices, indices and models, and half as many again.
pub fn rebuild_geometry_buffers(
    needed_verts: u64,
    needed_indices: u64,
    needed_models: usize,
) -> (out: GeometryCapacity)
    requires
        needed_verts * 3 <= u64::MAX,
        needed_indices * 3 <= u64::MAX,
        needed_models * 3 <= usize::MAX,
    ensures
        out.vertex_capacity == grown(needed_verts as int, 64),
        out.index_capacity == grown(needed_indices as int, 64),
        out.model_capacity == grown(needed_models as int, 4),
{
    let vertices: u64 = needed_verts * 3 / 2;
    let indices: u64 = needed_indices * 3 / 2;
    let models: usize = needed_models * 3 / 2;
    GeometryCapacity {
        vertex_capacity: if vertices >= 64 {
            vertices
        } else {
            64
        },
        index_capacity: if indices >= 64 {
            indices
        } else {
            64
        },
        model_capacity: if models >= 4 {
            models
        } else {
            4
        },
    }
}

/// The sizes in bytes of the buffers for vertices and indices.
pub fn geometry_buffer_sizes(capacity: &GeometryCapacity) -> (out: (u64, u64))
    requires
        capacity.vertex_capacity * VERTEX_SIZE <= u64::MAX,
        capacity.index_capacity * INDEX_SIZE <= u64::MAX,
    ensures
        out.0 == capacity.vertex_capacity * VERTEX_SIZE,
        out.1 == capacity.index_capacity * INDEX_SIZE,
{
    (capacity.vertex_capacity * VERTEX_SIZE, capacity.index_capacity * INDEX_SIZE)
}

/// How many of the first `n` models have a skeleton.
pub open spec fn rigged(models: Seq<ModelInfoView>, n: int) -> nat
    decreases n,
{
    if n <= 0 {
        0
    } else {
        rigged(models, n - 1) + if models[n - 1].skeleton is Some {
            1nat
        } else {
            0nat
        }
    }
}

proof fn lemma_rigged_bound(models: Seq<ModelInfoView>, n: int)
    requires
        0 <= n,
    ensures
        rigged(models, n) <= n,
    decreases n,
{
    if n > 0 {
        lemma_rigged_bound(models, n - 1);
    }
}

/// Counts the models that have a skeleton.
pub fn rigged_model_count(models: &[ModelInfo]) -> (out: u32)
    requires
        models@.len() <= u32::MAX,
    ensures
        out == rigged(views(models@), models@.len() as int),
{
    let mut count: u32 = 0;
    let mut i: usize = 0;
    while i < models.len()
        invariant
            i <= models@.len() <= u32::MAX,
            count == rigged(views(models@), i as int) <= i,
        decreases models@.len() - i,
    {
        proof {
            assert(views(models@)[i as int] == models@[i as int]@);
        }
        if models[i].skeleton.is_some() {
            count = count + 1;
        }
        i = i + 1;
    }
    count
}

/// What is done to the device's buffers after the scene has changed.
pub struct GrowthPlan {
    /// The room for vertices and indices is made anew, of this size; otherwise the buffers are
    /// filled again as they are.
    pub geometry: Option<GeometryCapacity>,
    /// The pool for skeletons is made anew, for so many of them.
    pub skinning_pool: Option<u32>,
    /// A skeleton's buffers are made for this model.
    pub allocate_for: Option<usize>,
    /// How many skeletons the pool counts as having room for afterwards.
    pub skinning_capacity: u32,
}

impl SceneView {
    /// The numbers by which room is made stay within what the machine holds.
    pub open spec fn growable(self) -> bool {
        &&& self.models.len() * 3 <= usize::MAX
        &&& self.models.len() <= u32::MAX
        &&& rigged(self.models, self.models.len() as int) * 3 <= u32::MAX
    }
}

/// Plans what is done after the scene has changed. `added` is the last model that was added.
pub fn plan_growth(
    scene: &Scene,
    capacity: &GeometryCapacity,
    skinning_capacity: u32,
    added: Option<usize>,
) -> (out: GrowthPlan)
    requires
        scene.wf(),
        scene@.growable(),
        added matches Some(index) ==> index < scene@.models.len(),
    ensures
        out.geometry == if capacity.too_small_for(scene@) {
            Some(GeometryCapacity::made_for(scene@))
        } else {
            None
        },
        ({
            let count = rigged(scene@.models, scene@.models.len() as int) as int;
            &&& out.skinning_pool == if count > skinning_capacity {
                Some((count * 3 / 2) as u32)
            } else {
                None
            }
            &&& out.skinning_capacity == if count > skinning_capacity {
                count * 3 / 2
            } else {
                skinning_capacity as int
            }
        }),
        rigged(scene@.models, scene@.models.len() as int) <= out.skinning_capacity,
        out.allocate_for == added,
{
    let needed_verts: u64 = scene.vertices.len() as u64;
    let needed_indices: u64 = scene.indices.len() as u64;
    let needed_models: usize = scene.model_info.len();
    proof {
        let n = scene@.models.len() as int;
        if n > 0 {
            lemma_tiles_within(vertex_ranges(scene@.models), scene@.vertices.len(), n - 1);
            lemma_tiles_within(index_ranges(scene@.models), scene@.indices.len(), n - 1);
        }
    }
    let geometry = if needed_verts > capacity.vertex_capacity || needed_indices
        > capacity.index_capacity || needed_models > capacity.model_capacity {
        Some(rebuild_geometry_buffers(needed_verts, needed_indices, needed_models))
    } else {
        None
    };
    let count: u32 = rigged_model_count(&scene.model_info);
    let (skinning_pool, pool_capacity): (Option<u32>, u32) = if count > skinning_capacity {
        let wanted: u32 = count * 3 / 2;
        (Some(wanted), wanted)
    } else {
        (None, skinning_capacity)
    };
    GrowthPlan { geometry, skinning_pool, allocate_for: added, skinning_capacity: pool_capacity }
}

/// The room that is made suffices, and once it is made a scene of the same size needs no more.
pub proof fn law_growth_suffices(scene: SceneView)
    requires
        scene.vertices.len() <= u32::MAX,
        scene.indices.len() <= u32::MAX,
        scene.models.len() * 3 <= usize::MAX,
    ensures
        !GeometryCapacity::made_for(scene).too_small_for(scene),
{
}

/// Room is made for half as much again as is needed, rounded down, but for no less than the lower
/// limits of 64 vertices, 64 indices and four models.
pub proof fn law_room_is_made_for_half_as_much_again(scene: SceneView)
    requires
        scene.vertices.len() <= u32::MAX,
        scene.indices.len() <= u32::MAX,
        scene.models.len() * 3 <= usize::MAX,
    ensures
        ({
            let made = GeometryCapacity::made_for(scene);
            &&& made.vertex_capacity >= 64 && made.index_capacity >= 64 && made.model_capacity >= 4
            &&& made.vertex_capacity == 64 || 2 * made.vertex_capacity <= 3 * scene.vertices.len()
            &&& made.index_capacity == 64 || 2 * made.index_capacity <= 3 * scene.indices.len()
            &&& made.model_capacity == 4 || 2 * made.model_capacity <= 3 * scene.models.len()
            &&& 3 * scene.vertices.len() < 2 * made.vertex_capacity + 2
            &&& 3 * scene.indices.len() < 2 * made.index_capacity + 2
            &&& 3 * scene.models.len() < 2 * made.model_capacity + 2
        }),
{
}

/// What was said of the room that is made holds for any numbers.
pub proof fn law_growth_is_half_as_much_again(needed: int, least: int)
    requires
        needed >= 0,
    ensures
        grown(needed, least) >= least,
        3 * needed < 2 * grown(needed, least) + 2,
        grown(needed, least) == least || 2 * grown(needed, least) <= 3 * needed,
{
}

/// Room suffices exactly where the vertices, the indices and the models all find a place.
pub proof fn law_room_is_too_small_for_one_more(capacity: GeometryCapacity, scene: SceneView)
    ensures
        !capacity.too_small_for(scene) <==> scene.vertices.len() <= capacity.vertex_capacity
            && scene.indices.len() <= capacity.index_capacity && scene.models.len()
            <= capacity.model_capacity,
{
}

/// The models with a skeleton are counted one by one.
pub proof fn law_rigged_models_are_counted(models: Seq<ModelInfoView>)
    ensures
        rigged(models, models.len() as int) == models.filter(
            |model: ModelInfoView| model.skeleton is Some,
        ).len(),
    decreases models.len(),
{
    let has = |model: ModelInfoView| model.skeleton is Some;
    reveal(Seq::filter);
    if models.len() > 0 {
        law_rigged_models_are_counted(models.drop_last());
        lemma_rigged_front(models, models.len() - 1);
    }
}

proof fn lemma_rigged_front(models: Seq<ModelInfoView>, n: int)
    requires
        n < models.len(),
    ensures
        rigged(models.drop_last(), n) == rigged(models, n),
    decreases n,
{
    if n > 0 {
        lemma_rigged_front(models, n - 1);
    }
}

/// A vertex takes 64 bytes and an index four.
pub proof fn law_elements_take_their_sizes(vertex: Vertex)
    ensures
        VERTEX_SIZE == 64,
        INDEX_SIZE == 4,
        Vertex::encoding(vertex).len() == VERTEX_SIZE,
{
    lemma_words_len(crate::layouts::vertex_head(vertex));
    lemma_words_len(vertex.joint_weights@);
    lemma_half_words_len(vertex.joint_indices@);
}

proof fn lemma_words_len(words: Seq<u32>)
    ensures
        encode_items::<u32>(words).len() == 4 * words.len(),
    decreases words.len(),
{
    if words.len() > 0 {
        lemma_words_len(words.drop_first());
        lemma_le_bytes_len(words[0] as nat, 4);
    }
}

proof fn lemma_half_words_len(words: Seq<u16>)
    ensures
        encode_items::<u16>(words).len() == 2 * words.len(),
    decreases words.len(),
{
    if words.len() > 0 {
        lemma_half_words_len(words.drop_first());
        lemma_le_bytes_len(words[0] as nat, 2);
    }
}

/// Room can be made for a scene whose models, and whose skeletons threefold, can be counted.
pub proof fn law_scenes_that_can_grow(scene: SceneView)
    ensures
        scene.models.len() * 3 <= u32::MAX && scene.models.len() * 3 <= usize::MAX
            ==> scene.growable(),
        scene.growable() ==> 3 * scene.models.len() <= usize::MAX && 3 * scene.models.filter(
            |model: ModelInfoView| model.skeleton is Some,
        ).len() <= u32::MAX,
{
    lemma_rigged_bound(scene.models, scene.models.len() as int);
    law_rigged_models_are_counted(scene.models);
}

} // verus!
