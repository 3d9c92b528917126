//! Models that move equally often share an acceleration structure.

use crate::alignment::{mat4_to_vk_transform, pack_custom_index_and_mask, pack_sbt_offset_and_flags};
use crate::device::DeviceError;
use crate::math::{F32Bits, Mat4, F32_ONE, F32_ZERO};
use crate::records::views;
use crate::scene::{ModelClass, ModelInfo, ModelInfoView};
use vstd::prelude::*;

verus! {

/// After so many frames the structure of the models that always move is built anew.
pub const BLAS_REBUILD_INTERVAL: u32 = 240;

/// The number of bytes of a material, an object and an instance, as the device takes them.
pub const MATERIAL_SIZE: usize = 72;

pub const OBJECT_DESC_SIZE: usize = 24;

pub const INSTANCE_SIZE: usize = 64;

/// The models of a class among the first `n`, in their order.
pub open spec fn members(models: Seq<ModelInfoView>, class: ModelClass, n: int) -> Seq<usize>
    decreases n,
{
    if n <= 0 {
        Seq::empty()
    } else if models[n - 1].class == class {
        members(models, class, n - 1).push((n - 1) as usize)
    } else {
        members(models, class, n - 1)
    }
}

/// The models by class, and the number of each class's first model as the device counts them.
pub struct ClassMembers {
    pub static_members: Vec<usize>,
    pub semi_members: Vec<usize>,
    pub dynamic_members: Vec<usize>,
    pub static_base: u32,
    pub semi_base: u32,
    pub dynamic_base: u32,
}

/// The models in the order in which the device counts them: class by class.
pub open spec fn device_order(models: Seq<ModelInfoView>) -> Seq<usize> {
    let n = models.len() as int;
    members(models, ModelClass::Static, n) + members(models, ModelClass::SemiDynamic, n) + members(
        models,
        ModelClass::Dynamic,
        n,
    )
}

impl ClassMembers {
    /// The members are those of their classes, and the device counts them one class after another.
    pub open spec fn groups(&self, models: Seq<ModelInfoView>) -> bool {
        let n = models.len() as int;
        &&& self.static_members@ == members(models, ModelClass::Static, n)
        &&& self.semi_members@ == members(models, ModelClass::SemiDynamic, n)
        &&& self.dynamic_members@ == members(models, ModelClass::Dynamic, n)
        &&& self.static_base == 0
        &&& self.semi_base == self.static_members@.len()
        &&& self.dynamic_base == self.static_members@.len() + self.semi_members@.len()
    }
}

proof fn lemma_members_len(models: Seq<ModelInfoView>, n: int)
    requires
        0 <= n <= models.len(),
    ensures
        members(models, ModelClass::Static, n).len() + members(
            models,
            ModelClass::SemiDynamic,
            n,
        ).len() + members(models, ModelClass::Dynamic, n).len() == n,
    decreases n,
{
    if n > 0 {
        lemma_members_len(models, n - 1);
    }
}

/// Sorts the models by class.
pub fn class_groups(models: &[ModelInfo]) -> (out: ClassMembers)
    requires
        models@.len() <= u32::MAX,
    ensures
        out.groups(views(models@)),
{
    let mut static_members: Vec<usize> = Vec::new();
    let mut semi_members: Vec<usize> = Vec::new();
    let mut dynamic_members: Vec<usize> = Vec::new();
    let ghost all = views(models@);
    let mut i: usize = 0;
    while i < models.len()
        invariant
            i <= models@.len(),
            all == views(models@),
            static_members@ == members(all, ModelClass::Static, i as int),
            semi_members@ == members(all, ModelClass::SemiDynamic, i as int),
            dynamic_members@ == members(all, ModelClass::Dynamic, i as int),
        decreases models@.len() - i,
    {
        proof {
            assert(all[i as int] == models@[i as int]@);
        }
        match models[i].model_class {
            ModelClass::Static => static_members.push(i),
            ModelClass::SemiDynamic => semi_members.push(i),
            ModelClass::Dynamic => dynamic_members.push(i),
        }
        i = i + 1;
    }
    proof {
        lemma_members_len(all, all.len() as int);
    }
    let semi_base: u32 = static_members.len() as u32;
    let dynamic_base: u32 = semi_base + semi_members.len() as u32;
    ClassMembers {
        static_members,
        semi_members,
        dynamic_members,
        static_base: 0,
        semi_base,
        dynamic_base,
    }
}

/// The members of a class are the models of that class, in their order.
pub proof fn lemma_members(models: Seq<ModelInfoView>, class: ModelClass, n: int)
    requires
        0 <= n <= models.len() <= usize::MAX,
    ensures
        forall|k: int|
            0 <= k < members(models, class, n).len() ==> {
                &&& 0 <= (#[trigger] members(models, class, n)[k]) < n
                &&& models[members(models, class, n)[k] as int].class == class
            },
        forall|j: int, k: int|
            0 <= j < k < members(models, class, n).len() ==> (#[trigger] members(
                models,
                class,
                n,
            )[j]) < (#[trigger] members(models, class, n)[k]),
        forall|i: int|
            0 <= i < n && (#[trigger] models[i]).class == class ==> members(
                models,
                class,
                n,
            ).contains(i as usize),
    decreases n,
{
    if n > 0 {
        lemma_members(models, class, n - 1);
        let before = members(models, class, n - 1);
        let after = members(models, class, n);
        assert forall|i: int| 0 <= i < n && (#[trigger] models[i]).class == class implies
            after.contains(i as usize) by {
            if i < n - 1 {
                assert(before.contains(i as usize));
                let k = choose|k: int| 0 <= k < before.len() && before[k] == i as usize;
                assert(after[k] == i as usize);
            } else {
                assert(after[after.len() - 1] == i as usize);
            }
        }
    }
}

/// The device counts every model exactly once.
#[verifier::rlimit(40)]
pub proof fn law_device_counts_every_model_once(models: Seq<ModelInfoView>)
    requires
        models.len() <= usize::MAX,
    ensures
        device_order(models).len() == models.len(),
        device_order(models).no_duplicates(),
        forall|i: int|
            0 <= i < models.len() ==> #[trigger] device_order(models).contains(i as usize),
        forall|p: int|
            0 <= p < device_order(models).len() ==> (#[trigger] device_order(models)[p])
                < models.len(),
{
    let n = models.len() as int;
    let order = device_order(models);
    let s = members(models, ModelClass::Static, n);
    let m = members(models, ModelClass::SemiDynamic, n);
    let d = members(models, ModelClass::Dynamic, n);
    lemma_members_len(models, n);
    lemma_members(models, ModelClass::Static, n);
    lemma_members(models, ModelClass::SemiDynamic, n);
    lemma_members(models, ModelClass::Dynamic, n);
    assert forall|i: int| 0 <= i < n implies #[trigger] order.contains(i as usize) by {
        match models[i].class {
            ModelClass::Static => {
                let k = choose|k: int| 0 <= k < s.len() && s[k] == i as usize;
                assert(order[k] == i as usize);
            },
            ModelClass::SemiDynamic => {
                let k = choose|k: int| 0 <= k < m.len() && m[k] == i as usize;
                assert(order[s.len() + k] == i as usize);
            },
            ModelClass::Dynamic => {
                let k = choose|k: int| 0 <= k < d.len() && d[k] == i as usize;
                assert(order[s.len() + m.len() + k] == i as usize);
            },
        }
    }
    assert forall|p: int| 0 <= p < order.len() implies (#[trigger] order[p]) < n && (if p
        < s.len() {
        models[order[p] as int].class == ModelClass::Static
    } else if p < s.len() + m.len() {
        models[order[p] as int].class == ModelClass::SemiDynamic
    } else {
        models[order[p] as int].class == ModelClass::Dynamic
    }) by {
        if p < s.len() {
            assert(order[p] == s[p]);
        } else if p < s.len() + m.len() {
            assert(order[p] == m[p - s.len()]);
        } else {
            assert(order[p] == d[p - s.len() - m.len()]);
        }
    }
    assert forall|p: int, q: int| 0 <= p < q < order.len() implies order[p] != order[q] by {
        if q < s.len() {
            assert(order[p] == s[p] && order[q] == s[q]);
        } else if s.len() <= p && q < s.len() + m.len() {
            assert(order[p] == m[p - s.len()] && order[q] == m[q - s.len()]);
        } else if s.len() + m.len() <= p {
            assert(order[p] == d[p - s.len() - m.len()] && order[q] == d[q - s.len() - m.len()]);
        }
    }
}

/// Where the triangles of a model lie in the device's memory.
#[derive(Clone, Copy, PartialEq, Eq, Structural, Debug)]
pub struct GeomSource {
    pub vertex_address: u64,
    pub index_address: u64,
    pub max_vertex: u32,
    pub triangle_count: u32,
}

/// Describes the triangles of a model to the device.
pub fn geom_source_for(
    vertex_address: u64,
    index_address: u64,
    vertex_count: u32,
    triangle_count: u32,
) -> (out: GeomSource)
    requires
        vertex_count > 0,
    ensures
        out == (GeomSource {
            vertex_address,
            index_address,
            max_vertex: (vertex_count - 1) as u32,
            triangle_count,
        }),
{
    GeomSource { vertex_address, index_address, max_vertex: vertex_count - 1, triangle_count }
}

/// What the structure of a group is built from: the triangles of its members, in their order.
/// Nothing is built for a group without members.
pub fn rebuild_group_cold(members: &[usize], sources: &[GeomSource]) -> (out: Option<
    Vec<GeomSource>,
>)
    requires
        forall|k: int| 0 <= k < members@.len() ==> (#[trigger] members@[k]) < sources@.len(),
    ensures
        members@.len() == 0 <==> out is None,
        out matches Some(list) ==> list@ == Seq::new(
            members@.len(),
            |k: int| sources@[members@[k] as int],
        ),
{
    if members.len() == 0 {
        return None;
    }
    let mut list: Vec<GeomSource> = Vec::new();
    let mut k: usize = 0;
    while k < members.len()
        invariant
            k <= members@.len(),
            forall|j: int| 0 <= j < members@.len() ==> (#[trigger] members@[j]) < sources@.len(),
            list@ == Seq::new(k as nat, |j: int| sources@[members@[j] as int]),
        decreases members@.len() - k,
    {
        proof {
            assert(members@[k as int] < sources@.len());
        }
        list.push(sources[members[k]]);
        proof {
            assert(list@ =~= Seq::new((k + 1) as nat, |j: int| sources@[members@[j] as int]));
        }
        k = k + 1;
    }
    Some(list)
}

/// An object as the shaders see it: where its triangles are, and which of the material numbers is
/// that of its first triangle.
#[derive(Clone, Copy, PartialEq, Eq, Structural, Debug)]
pub struct ObjectDesc {
    pub vertex_address: u64,
    pub index_address: u64,
    pub material_id: u32,
    pub _pad: u32,
}

/// The description of a model.
pub open spec fn object_desc(
    models: Seq<ModelInfoView>,
    sources: Seq<GeomSource>,
    i: int,
) -> ObjectDesc {
    ObjectDesc {
        vertex_address: sources[i].vertex_address,
        index_address: sources[i].index_address,
        material_id: (models[i].indices.min / 3) as u32,
        _pad: 0,
    }
}

/// Appends the descriptions of the members of a group.
fn push_group(
    descs: &mut Vec<ObjectDesc>,
    members: &[usize],
    models: &[ModelInfo],
    sources: &[GeomSource],
)
    requires
        forall|k: int|
            0 <= k < members@.len() ==> (#[trigger] members@[k]) < models@.len()
                && members@[k] < sources@.len(),
    ensures
        final(descs)@ == old(descs)@ + Seq::new(
            members@.len(),
            |k: int| object_desc(views(models@), sources@, members@[k] as int),
        ),
{
    let mut k: usize = 0;
    proof {
        assert(descs@ =~= old(descs)@ + Seq::new(
            0,
            |j: int| object_desc(views(models@), sources@, members@[j] as int),
        ));
    }
    while k < members.len()
        invariant
            k <= members@.len(),
            forall|j: int|
                0 <= j < members@.len() ==> (#[trigger] members@[j]) < models@.len() && members@[j]
                    < sources@.len(),
            descs@ == old(descs)@ + Seq::new(
                k as nat,
                |j: int| object_desc(views(models@), sources@, members@[j] as int),
            ),
        decreases members@.len() - k,
    {
        proof {
            assert(members@[k as int] < models@.len());
        }
        let model: usize = members[k];
        let source = sources[model];
        descs.push(
            ObjectDesc {
                vertex_address: source.vertex_address,
                index_address: source.index_address,
                material_id: models[model].model_index_range.min / 3,
                _pad: 0,
            },
        );
        proof {
            assert(descs@ =~= old(descs)@ + Seq::new(
                (k + 1) as nat,
                |j: int| object_desc(views(models@), sources@, members@[j] as int),
            ));
        }
        k = k + 1;
    }
}

/// Describes all models, in the order in which the device counts them.
pub fn object_descs(models: &[ModelInfo], sources: &[GeomSource]) -> (out: Vec<ObjectDesc>)
    requires
        models@.len() <= u32::MAX,
        sources@.len() >= models@.len(),
    ensures
        out@ == Seq::new(
            models@.len(),
            |p: int|
                object_desc(
                    views(models@),
                    sources@,
                    device_order(views(models@))[p] as int,
                ),
        ),
{
    let groups = class_groups(models);
    let ghost all = views(models@);
    let ghost n = all.len() as int;
    proof {
        lemma_members(all, ModelClass::Static, n);
        lemma_members(all, ModelClass::SemiDynamic, n);
        lemma_members(all, ModelClass::Dynamic, n);
        lemma_members_len(all, n);
    }
    let mut descs: Vec<ObjectDesc> = Vec::new();
    push_group(&mut descs, &groups.static_members, models, sources);
    push_group(&mut descs, &groups.semi_members, models, sources);
    push_group(&mut descs, &groups.dynamic_members, models, sources);
    proof {
        assert(descs@ =~= Seq::new(
            models@.len(),
            |p: int| object_desc(all, sources@, device_order(all)[p] as int),
        ));
    }
    descs
}

/// What the shaders find for a member of a group: the description at the group's base and the
/// member's place in it is that of the member.
pub proof fn law_shaders_find_the_hit_model(
    models: Seq<ModelInfoView>,
    sources: Seq<GeomSource>,
    class: ModelClass,
    place: int,
)
    requires
        models.len() <= usize::MAX,
        0 <= place < members(models, class, models.len() as int).len(),
    ensures
        ({
            let n = models.len() as int;
            let s = members(models, ModelClass::Static, n);
            let m = members(models, ModelClass::SemiDynamic, n);
            let base = match class {
                ModelClass::Static => 0int,
                ModelClass::SemiDynamic => s.len() as int,
                ModelClass::Dynamic => (s.len() + m.len()) as int,
            };
            &&& base + place < device_order(models).len()
            &&& object_desc(models, sources, device_order(models)[base + place] as int)
                == object_desc(models, sources, members(models, class, n)[place] as int)
        }),
{
}

/// The sizes of the buffers that describe a scene. No buffer is of size zero.
#[derive(Clone, Copy, PartialEq, Eq, Structural, Debug)]
pub struct SceneBufferSizes {
    pub materials: u64,
    pub objects: u64,
    pub material_ids: u64,
}

/// The larger of two sizes.
pub open spec fn larger(a: int, b: int) -> int {
    if a >= b {
        a
    } else {
        b
    }
}

/// Plans the buffers that describe a scene.
pub fn create_scene_buffers(materials: usize, objects: usize, material_ids: usize) -> (out:
    SceneBufferSizes)
    requires
        materials * MATERIAL_SIZE <= usize::MAX,
        objects * OBJECT_DESC_SIZE <= usize::MAX,
        material_ids * 4 <= usize::MAX,
    ensures
        out.materials == larger(materials as int, 1) * MATERIAL_SIZE,
        out.objects == larger(objects * OBJECT_DESC_SIZE, 1),
        out.material_ids == larger(material_ids * 4, 1),
{
    let materials: usize = if materials == 0 {
        1
    } else {
        materials
    };
    let objects: usize = objects * OBJECT_DESC_SIZE;
    let ids: usize = material_ids * 4;
    SceneBufferSizes {
        materials: (materials * MATERIAL_SIZE) as u64,
        objects: if objects == 0 {
            1
        } else {
            objects as u64
        },
        material_ids: if ids == 0 {
            1
        } else {
            ids as u64
        },
    }
}

/// A structure that stands in the scene: where, under which number, and which one.
#[derive(Clone, Copy, Debug)]
pub struct RtAccelerationStructureInstance {
    pub transform: [[F32Bits; 4]; 3],
    pub instance_custom_index_and_mask: u32,
    pub instance_sbt_record_offset_and_flags: u32,
    pub acceleration_structure_reference: u64,
}

/// A group as the scene sees it.
#[derive(Clone, Copy, PartialEq, Eq, Structural, Debug)]
pub struct GroupRef {
    pub member_count: usize,
    pub instance_custom_base: u32,
    pub blas_address: u64,
}

impl RtAccelerationStructureInstance {
    /// A structure that stands where it is, counts its members from the group's base, and is seen
    /// by all rays.
    pub open spec fn of_group(self, group: GroupRef) -> bool {
        &&& self.transform@[0]@ == seq![F32_ONE, F32_ZERO, F32_ZERO, F32_ZERO]
        &&& self.transform@[1]@ == seq![F32_ZERO, F32_ONE, F32_ZERO, F32_ZERO]
        &&& self.transform@[2]@ == seq![F32_ZERO, F32_ZERO, F32_ONE, F32_ZERO]
        &&& self.instance_custom_index_and_mask as int == group.instance_custom_base as int
            % 0x100_0000 + 0xFF * 0x100_0000
        &&& self.instance_sbt_record_offset_and_flags == 0
        &&& self.acceleration_structure_reference == group.blas_address
    }
}

/// The groups that have members.
pub open spec fn inhabited(groups: Seq<GroupRef>) -> Seq<GroupRef>
    decreases groups.len(),
{
    if groups.len() == 0 {
        groups
    } else if groups.last().member_count == 0 {
        inhabited(groups.drop_last())
    } else {
        inhabited(groups.drop_last()).push(groups.last())
    }
}

/// Puts the structure of each group that has members into the scene.
pub fn create_tlas(groups: &[GroupRef]) -> (out: Vec<RtAccelerationStructureInstance>)
    ensures
        out@.len() == inhabited(groups@).len(),
        forall|k: int|
            0 <= k < out@.len() ==> (#[trigger] out@[k]).of_group(inhabited(groups@)[k]),
{
    let mut instances: Vec<RtAccelerationStructureInstance> = Vec::new();
    let mut i: usize = 0;
    proof {
        assert(groups@.take(0) =~= Seq::<GroupRef>::empty());
    }
    while i < groups.len()
        invariant
            i <= groups@.len(),
            instances@.len() == inhabited(groups@.take(i as int)).len(),
            forall|k: int|
                0 <= k < instances@.len() ==> (#[trigger] instances@[k]).of_group(
                    inhabited(groups@.take(i as int))[k],
                ),
        decreases groups@.len() - i,
    {
        let group = groups[i];
        proof {
            assert(groups@.take(i + 1).drop_last() =~= groups@.take(i as int));
            assert(groups@.take(i + 1).last() == group);
        }
        if group.member_count != 0 {
            let instance = RtAccelerationStructureInstance {
                transform: mat4_to_vk_transform(&Mat4::identity()),
                instance_custom_index_and_mask: pack_custom_index_and_mask(
                    group.instance_custom_base,
                    0xFF,
                ),
                instance_sbt_record_offset_and_flags: pack_sbt_offset_and_flags(0, 0),
                acceleration_structure_reference: group.blas_address,
            };
            instances.push(instance);
        }
        i = i + 1;
    }
    proof {
        assert(groups@.take(i as int) =~= groups@);
    }
    instances
}

/// The address of the instances, which must not be zero.
pub fn checked_instance_address(address: u64) -> (out: Result<u64, DeviceError>)
    ensures
        if address == 0 {
            out == Err::<u64, DeviceError>(DeviceError::ZeroInstanceAddress)
        } else {
            out == Ok::<u64, DeviceError>(address)
        },
{
    if address == 0 {
        Err(DeviceError::ZeroInstanceAddress)
    } else {
        Ok(address)
    }
}

/// The addresses of the vertices and the indices, which must not be zero.
pub fn check_geometry_addresses(vertices: u64, indices: u64) -> (out: Result<(), DeviceError>)
    ensures
        if vertices == 0 || indices == 0 {
            out == Err::<(), DeviceError>(DeviceError::ZeroGeometryAddress)
        } else {
            out is Ok
        },
{
    if vertices == 0 || indices == 0 {
        Err(DeviceError::ZeroGeometryAddress)
    } else {
        Ok(())
    }
}

/// How a structure follows its models: built anew, or moved along with them.
#[derive(Clone, Copy, PartialEq, Eq, Structural, Debug)]
pub enum BuildMode {
    Build,
    Update,
}

/// Decides how the structure of the models that always move follows them, by the number of frames
/// since it was built; gives that number for the next frame too.
pub fn dynamic_refit(frames_since_rebuild: u32) -> (out: (BuildMode, u32))
    ensures
        out == if frames_since_rebuild >= BLAS_REBUILD_INTERVAL {
            (BuildMode::Build, 0u32)
        } else {
            (BuildMode::Update, (frames_since_rebuild + 1) as u32)
        },
        out.0 is Build <==> frames_since_rebuild >= 240,
        out.1 == frames_after(frames_since_rebuild as nat, 1),
{
    proof {
        reveal_with_fuel(frames_after, 2);
    }
    if frames_since_rebuild >= BLAS_REBUILD_INTERVAL {
        (BuildMode::Build, 0)
    } else {
        (BuildMode::Update, frames_since_rebuild + 1)
    }
}

/// The number of frames since the structure was built, after so many more frames.
pub open spec fn frames_after(frames: nat, more: nat) -> nat
    decreases more,
{
    if more == 0 {
        frames
    } else {
        let before = frames_after(frames, (more - 1) as nat);
        if before >= BLAS_REBUILD_INTERVAL {
            0
        } else {
            before + 1
        }
    }
}

/// The structure of the models that always move never goes longer than the interval without being
/// built anew, once it has been built.
pub proof fn law_dynamic_group_is_rebuilt_in_time(frames: nat, more: nat)
    requires
        frames <= BLAS_REBUILD_INTERVAL,
    ensures
        frames_after(frames, more) <= BLAS_REBUILD_INTERVAL,
        frames == 0 && more <= BLAS_REBUILD_INTERVAL ==> frames_after(frames, more) == more,
        frames == 0 && more == BLAS_REBUILD_INTERVAL + 1 ==> frames_after(frames, more) == 0,
    decreases more,
{
    if more > 0 {
        law_dynamic_group_is_rebuilt_in_time(frames, (more - 1) as nat);
    }
}

/// The device counts the models class by class, those that never move first and those that always
/// move last, and within a class in their order.
pub proof fn law_device_counts_class_by_class(models: Seq<ModelInfoView>, p: int, q: int)
    requires
        models.len() <= usize::MAX,
        0 <= p < q < device_order(models).len(),
    ensures
        ({
            let a = device_order(models)[p];
            let b = device_order(models)[q];
            &&& a < models.len() && b < models.len()
            &&& models[b as int].class is Static ==> models[a as int].class is Static
            &&& models[a as int].class is Dynamic ==> models[b as int].class is Dynamic
            &&& models[a as int].class == models[b as int].class ==> a < b
        }),
{
    let n = models.len() as int;
    let order = device_order(models);
    let s = members(models, ModelClass::Static, n);
    let m = members(models, ModelClass::SemiDynamic, n);
    let d = members(models, ModelClass::Dynamic, n);
    lemma_members(models, ModelClass::Static, n);
    lemma_members(models, ModelClass::SemiDynamic, n);
    lemma_members(models, ModelClass::Dynamic, n);
    assert forall|i: int| 0 <= i < order.len() implies (if i < s.len() {
        #[trigger] order[i] == s[i]
    } else if i < s.len() + m.len() {
        order[i] == m[i - s.len()]
    } else {
        order[i] == d[i - s.len() - m.len()]
    }) by {}
    assert(order[p] == order[p] && order[q] == order[q]);
}

/// The members of each group are exactly the models of its class, in their order, and the groups are
/// counted one behind the other, each from where the one before it ends.
pub proof fn law_groups_hold_their_classes(groups: ClassMembers, models: Seq<ModelInfoView>)
    requires
        groups.groups(models),
        models.len() <= u32::MAX,
    ensures
        forall|i: int|
            0 <= i < models.len() ==> {
                &&& (#[trigger] models[i]).class is Static <==> groups.static_members@.contains(
                    i as usize,
                )
                &&& models[i].class is SemiDynamic <==> groups.semi_members@.contains(i as usize)
                &&& models[i].class is Dynamic <==> groups.dynamic_members@.contains(i as usize)
            },
        groups.static_members@ + groups.semi_members@ + groups.dynamic_members@ == device_order(
            models,
        ),
        groups.static_base == 0,
        groups.semi_base == groups.static_base + groups.static_members@.len(),
        groups.dynamic_base == groups.semi_base + groups.semi_members@.len(),
        groups.dynamic_base + groups.dynamic_members@.len() == models.len(),
{
    let n = models.len() as int;
    lemma_members(models, ModelClass::Static, n);
    lemma_members(models, ModelClass::SemiDynamic, n);
    lemma_members(models, ModelClass::Dynamic, n);
    lemma_members_len(models, n);
    assert forall|i: int| 0 <= i < models.len() implies {
        &&& (#[trigger] models[i]).class is Static <==> groups.static_members@.contains(i as usize)
        &&& models[i].class is SemiDynamic <==> groups.semi_members@.contains(i as usize)
        &&& models[i].class is Dynamic <==> groups.dynamic_members@.contains(i as usize)
    } by {
        if groups.static_members@.contains(i as usize) {
            let k = groups.static_members@.index_of(i as usize);
            assert(members(models, ModelClass::Static, n)[k] == i as usize);
        }
        if groups.semi_members@.contains(i as usize) {
            let k = groups.semi_members@.index_of(i as usize);
            assert(members(models, ModelClass::SemiDynamic, n)[k] == i as usize);
        }
        if groups.dynamic_members@.contains(i as usize) {
            let k = groups.dynamic_members@.index_of(i as usize);
            assert(members(models, ModelClass::Dynamic, n)[k] == i as usize);
        }
    }
}

/// An object is described by the addresses of its own triangles, and by the number of triangles of all
/// models before it, at which its material numbers start.
pub proof fn law_objects_are_described_by_their_models(
    models: Seq<ModelInfoView>,
    sources: Seq<GeomSource>,
    i: int,
)
    requires
        0 <= i < models.len(),
    ensures
        ({
            let desc = object_desc(models, sources, i);
            &&& desc.vertex_address == sources[i].vertex_address
            &&& desc.index_address == sources[i].index_address
            &&& 3 * desc.material_id <= models[i].indices.min < 3 * desc.material_id + 3
            &&& desc._pad == 0
        }),
{
}

/// Exactly the groups with members stand in the scene, in their order: `source` tells which each is.
pub proof fn law_groups_with_members_stand_in_the_scene(groups: Seq<GroupRef>) -> (source: Seq<int>)
    ensures
        source.len() == inhabited(groups).len(),
        forall|k: int|
            0 <= k < source.len() ==> {
                &&& 0 <= #[trigger] source[k] < groups.len()
                &&& inhabited(groups)[k] == groups[source[k]]
                &&& groups[source[k]].member_count > 0
            },
        forall|k: int, l: int|
            0 <= k < l < source.len() ==> #[trigger] source[k] < #[trigger] source[l],
        forall|i: int|
            0 <= i < groups.len() && (#[trigger] groups[i]).member_count > 0 ==> source.contains(i),
    decreases groups.len(),
{
    if groups.len() == 0 {
        Seq::empty()
    } else {
        let last = groups.len() - 1;
        let front = groups.drop_last();
        let before = law_groups_with_members_stand_in_the_scene(front);
        let source = if groups[last].member_count == 0 {
            before
        } else {
            before.push(last)
        };
        assert forall|k: int| 0 <= k < source.len() implies {
            &&& 0 <= #[trigger] source[k] < groups.len()
            &&& inhabited(groups)[k] == groups[source[k]]
            &&& groups[source[k]].member_count > 0
        } by {
            if k < before.len() {
                assert(source[k] == before[k]);
                assert(front[before[k]] == groups[source[k]]);
            }
        }
        assert forall|k: int, l: int| 0 <= k < l < source.len() implies #[trigger] source[k]
            < #[trigger] source[l] by {
            assert(source[k] == before[k]);
            assert(0 <= before[k] < front.len());
            if l < before.len() {
                assert(source[l] == before[l]);
            }
        }
        assert forall|i: int| 0 <= i < groups.len() && (#[trigger] groups[i]).member_count
            > 0 implies source.contains(i) by {
            if i < last {
                assert(front[i] == groups[i]);
                let k = choose|k: int| 0 <= k < before.len() && before[k] == i;
                assert(source[k] == i);
            } else {
                assert(source[before.len() as int] == i);
            }
        }
        source
    }
}

/// A group stands in the scene under the number of its first member, is seen by all rays, has no flags
/// and no offset into the table of shaders, refers to its own structure, and is not moved.
pub proof fn law_instances_refer_to_their_groups(
    instance: RtAccelerationStructureInstance,
    group: GroupRef,
)
    requires
        instance.of_group(group),
        group.instance_custom_base < 0x100_0000,
    ensures
        instance.instance_custom_index_and_mask == 0xFF00_0000 + group.instance_custom_base,
        instance.instance_sbt_record_offset_and_flags == 0,
        instance.acceleration_structure_reference == group.blas_address,
        forall|row: int, column: int|
            #![trigger instance.transform@[row]@[column]]
            0 <= row < 3 && 0 <= column < 4 ==> instance.transform@[row]@[column] == if row
                == column {
                0x3F80_0000
            } else {
                0u32
            },
{
}

/// No buffer is empty, and each is as large as what it holds.
pub proof fn law_buffers_hold_what_they_are_for(size: int)
    requires
        0 <= size,
    ensures
        larger(size, 1) >= 1,
        size >= 1 ==> larger(size, 1) == size,
        size == 0 ==> larger(size, 1) == 1,
        MATERIAL_SIZE == 72,
        OBJECT_DESC_SIZE == 24,
        INSTANCE_SIZE == 64,
        BLAS_REBUILD_INTERVAL == 240,
{
}

} // verus!
