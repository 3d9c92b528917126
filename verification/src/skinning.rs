//! What a model with a skeleton needs on the device, and where its bones' matrices come from.

use crate::player::AnimationPlayer;
use crate::removal::lemma_tiles_within;
use crate::scene::{index_ranges, vertex_ranges, Scene, SceneView, UintRange};
use vstd::prelude::*;

verus! {

/// The number of vertices that one group of threads moves.
pub const SKINNING_GROUP_SIZE: u32 = 128;

/// The number of bytes of a vertex and of a matrix, as the device takes them.
pub const VERTEX_BYTES: u32 = 64;

pub const MATRIX_BYTES: usize = 64;

/// The buffers of a model with a skeleton.
pub struct SkinPlan {
    pub vertex_count: u32,
    /// The size of the buffer for the vertices that have been moved.
    pub skinned_size: u64,
    pub joint_count: usize,
    /// The size of the buffer for the matrices of the bones; there is room for one at least.
    pub joint_buffer_size: u64,
    /// Where the model's vertices lie among all vertices, in bytes.
    pub rest_offset: u64,
    pub rest_range: u64,
    /// The model's indices, counted from its own first vertex.
    pub local_indices: Vec<u32>,
    pub index_size: u64,
}

/// What a model needs on the device.
pub struct ModelBuffers {
    pub triangle_count: u32,
    pub skin: Option<SkinPlan>,
}

impl SceneView {
    /// The indices of a model are its own, and the sizes of its buffers stay within what is held.
    pub open spec fn can_skin(self, model: int) -> bool {
        let info = self.models[model];
        let count = info.vertices.max - info.vertices.min;
        &&& 0 <= model < self.models.len()
        &&& info.skeleton matches Some(skeleton) ==> {
            &&& count * VERTEX_BYTES <= u32::MAX
            &&& skeleton.bones.len() * MATRIX_BYTES <= usize::MAX
            &&& (info.indices.max - info.indices.min) * 4 <= usize::MAX
            &&& forall|i: int|
                info.indices.min <= i < info.indices.max ==> info.vertices.min <= (
                #[trigger] self.indices[i])
        }
    }
}

/// Where the vertices of a model lie among all vertices, in bytes.
pub fn rest_offset(vertices: &UintRange) -> (out: u64)
    ensures
        out == vertices.min * VERTEX_BYTES,
{
    vertices.min as u64 * VERTEX_BYTES as u64
}

/// Plans the buffers of a model.
pub fn allocate_skin_resources_for_model(scene: &Scene, model_index: usize) -> (out: ModelBuffers)
    requires
        scene.wf(),
        scene@.can_skin(model_index as int),
    ensures
        ({
            let info = scene@.models[model_index as int];
            let vertices = info.vertices.max - info.vertices.min;
            &&& out.triangle_count == (info.indices.max - info.indices.min) / 3
            &&& info.skeleton is Some <==> out.skin is Some
            &&& out.skin matches Some(plan) ==> {
                let bones = info.skeleton->Some_0.bones.len();
                &&& plan.vertex_count == vertices
                &&& plan.skinned_size == vertices * VERTEX_BYTES
                &&& plan.joint_count == bones
                &&& plan.joint_buffer_size == MATRIX_BYTES * if bones == 0 {
                    1
                } else {
                    bones as int
                }
                &&& plan.rest_offset == info.vertices.min * VERTEX_BYTES
                &&& plan.rest_range == vertices * VERTEX_BYTES
                &&& plan.index_size == 4 * plan.local_indices@.len()
                &&& plan.local_indices@.len() == info.indices.max - info.indices.min
                &&& forall|i: int|
                    0 <= i < plan.local_indices@.len() ==> #[trigger] plan.local_indices@[i]
                        == scene@.indices[info.indices.min + i] - info.vertices.min
            }
        }),
{
    let info = &scene.model_info[model_index];
    let ghost model = scene@.models[model_index as int];
    proof {
        assert(model == info@);
        let m = model_index as int;
        assert(vertex_ranges(scene@.models)[m] == model.vertices);
        assert(index_ranges(scene@.models)[m] == model.indices);
        lemma_tiles_within(vertex_ranges(scene@.models), scene@.vertices.len(), m);
        lemma_tiles_within(index_ranges(scene@.models), scene@.indices.len(), m);
    }
    let indices: UintRange = info.model_index_range;
    let vertices: UintRange = info.model_vertex_range;
    let triangle_count: u32 = (indices.max - indices.min) / 3;
    match &info.skeleton {
        None => ModelBuffers { triangle_count, skin: None },
        Some(skeleton) => {
            let vertex_count: u32 = vertices.max - vertices.min;
            let joint_count: usize = skeleton.bones.len();
            let rooms: usize = if joint_count == 0 {
                1
            } else {
                joint_count
            };
            proof {
                assert(model.skeleton->Some_0.bones.len() == joint_count);
            }
            let mut local_indices: Vec<u32> = Vec::new();
            let mut i: usize = indices.min as usize;
            while i < indices.max as usize
                invariant
                    indices.min <= i <= indices.max <= scene@.indices.len(),
                    indices == model.indices,
                    vertices == model.vertices,
                    local_indices@.len() == i - indices.min,
                    forall|k: int|
                        indices.min <= k < indices.max ==> vertices.min <= (
                        #[trigger] scene@.indices[k]),
                    forall|k: int|
                        0 <= k < local_indices@.len() ==> #[trigger] local_indices@[k]
                            == scene@.indices[indices.min + k] - vertices.min,
                decreases indices.max - i,
            {
                proof {
                    assert(vertices.min <= scene@.indices[i as int]);
                }
                local_indices.push(scene.indices[i] - vertices.min);
                i = i + 1;
            }
            let index_size: u64 = (4 * local_indices.len()) as u64;
            ModelBuffers {
                triangle_count,
                skin: Some(
                    SkinPlan {
                        vertex_count,
                        skinned_size: (VERTEX_BYTES * vertex_count) as u64,
                        joint_count,
                        joint_buffer_size: (MATRIX_BYTES * rooms) as u64,
                        rest_offset: rest_offset(&vertices),
                        rest_range: vertex_count as u64 * VERTEX_BYTES as u64,
                        local_indices,
                        index_size,
                    },
                ),
            }
        },
    }
}

/// Whether the buffers of a model can be planned.
pub fn can_skin(scene: &Scene, model_index: usize) -> (out: bool)
    requires
        scene.wf(),
    ensures
        out == (model_index < scene@.models.len() && scene@.can_skin(model_index as int)),
{
    if model_index >= scene.model_info.len() {
        return false;
    }
    let info = &scene.model_info[model_index];
    let ghost model = scene@.models[model_index as int];
    proof {
        assert(model == info@);
        let m = model_index as int;
        assert(vertex_ranges(scene@.models)[m] == model.vertices);
        assert(index_ranges(scene@.models)[m] == model.indices);
        lemma_tiles_within(vertex_ranges(scene@.models), scene@.vertices.len(), m);
        lemma_tiles_within(index_ranges(scene@.models), scene@.indices.len(), m);
    }
    let indices: UintRange = info.model_index_range;
    let vertices: UintRange = info.model_vertex_range;
    match &info.skeleton {
        None => true,
        Some(skeleton) => {
            let bones: usize = skeleton.bones.len();
            proof {
                assert(model.skeleton->Some_0.bones.len() == bones);
            }
            let span: u32 = vertices.max - vertices.min;
            if span > u32::MAX / VERTEX_BYTES || bones > usize::MAX / MATRIX_BYTES
                || (indices.max - indices.min) as usize > usize::MAX / 4 {
                return false;
            }
            let mut i: usize = indices.min as usize;
            while i < indices.max as usize
                invariant
                    indices.min <= i <= indices.max <= scene@.indices.len(),
                    indices == model.indices,
                    vertices == model.vertices,
                    model.skeleton is Some,
                    model == scene@.models[model_index as int],
                    forall|k: int|
                        indices.min <= k < i ==> vertices.min <= (#[trigger] scene@.indices[k]),
                decreases indices.max - i,
            {
                if scene.indices[i] < vertices.min {
                    proof {
                        assert(scene@.indices[i as int] < vertices.min);
                    }
                    return false;
                }
                i = i + 1;
            }
            true
        },
    }
}

/// The number of groups of threads that move so many vertices.
pub fn skinning_groups(vertex_count: u32) -> (out: u32)
    requires
        vertex_count <= u32::MAX - 127,
    ensures
        out == (vertex_count + 127) / 128,
        vertex_count <= out * SKINNING_GROUP_SIZE < vertex_count + SKINNING_GROUP_SIZE,
{
    (vertex_count + 127) / 128
}

/// Where the matrices of a model's bones come from.
#[derive(Clone, Copy, PartialEq, Eq, Structural, Debug)]
pub enum JointSource {
    /// The one matrix is that of the model's place.
    World,
    /// The matrices of the skeleton's pose, each moved to the model's place.
    Pose,
}

/// Decides where the matrices come from as a model is drawn: a single bone that nothing moves
/// follows the model. In any other case time passes first.
pub fn dispatch_skin(bones: usize, player: &AnimationPlayer) -> (out: JointSource)
    requires
        player.wf(),
    ensures
        out == if bones == 1 && player@.clips.dom() =~= Set::<Seq<char>>::empty() {
            JointSource::World
        } else {
            JointSource::Pose
        },
{
    if bones == 1 && player.has_no_clips() {
        JointSource::World
    } else {
        JointSource::Pose
    }
}

/// Decides where the matrices come from before a model is first drawn: a single bone follows the
/// model. No time passes.
pub fn prime_skin(bones: usize) -> (out: JointSource)
    ensures
        out == if bones == 1 {
            JointSource::World
        } else {
            JointSource::Pose
        },
{
    if bones == 1 {
        JointSource::World
    } else {
        JointSource::Pose
    }
}

/// A model without a skeleton can always be prepared. One with a skeleton can exactly where the sizes of its
/// buffers can be held and none of its indices is below its own vertices.
pub proof fn law_models_that_can_be_skinned(scene: SceneView, model: int)
    requires
        0 <= model < scene.models.len(),
        scene.models[model].vertices.min <= scene.models[model].vertices.max,
        scene.models[model].indices.min <= scene.models[model].indices.max,
    ensures
        scene.models[model].skeleton is None ==> scene.can_skin(model),
        scene.models[model].skeleton matches Some(skeleton) ==> {
            let info = scene.models[model];
            scene.can_skin(model) <==> {
                &&& 64 * (info.vertices.max - info.vertices.min) <= u32::MAX
                &&& 64 * skeleton.bones.len() <= usize::MAX
                &&& 4 * (info.indices.max - info.indices.min) <= usize::MAX
                &&& forall|i: int|
                    info.indices.min <= i < info.indices.max ==> (#[trigger] scene.indices[i])
                        >= info.vertices.min
            }
        },
        SKINNING_GROUP_SIZE == 128,
        VERTEX_BYTES == 64,
        MATRIX_BYTES == 64,
{
}

} // verus!
