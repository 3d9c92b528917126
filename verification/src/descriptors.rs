//! What the shaders are given: the places in a set of descriptors, the pool they come from, and what
//! is written into them.

use vstd::prelude::*;

verus! {

/// The number of textures that a set has room for.
pub const MAX_TEXTURES: u32 = 4096;

#[derive(Clone, Copy, PartialEq, Eq, Structural, Debug)]
pub enum DescriptorKind {
    AccelerationStructure,
    StorageImage,
    UniformBuffer,
    StorageBuffer,
    CombinedImageSampler,
}

/// A place in a set: its number, what it holds, and how many of them. The last one may be filled in
/// part, and its number may vary.
#[derive(Clone, Copy, PartialEq, Eq, Structural, Debug)]
pub struct Binding {
    pub binding: u32,
    pub kind: DescriptorKind,
    pub count: u32,
    pub variable: bool,
}

pub open spec fn one(binding: u32, kind: DescriptorKind) -> Binding {
    Binding { binding, kind, count: 1, variable: false }
}

/// The places in a set: the scene, the image that is drawn, the camera, the objects, the materials,
/// the material numbers, the image in which light is gathered, and the textures.
pub open spec fn layout_bindings() -> Seq<Binding> {
    seq![
        one(0, DescriptorKind::AccelerationStructure),
        one(1, DescriptorKind::StorageImage),
        one(2, DescriptorKind::UniformBuffer),
        one(3, DescriptorKind::StorageBuffer),
        one(4, DescriptorKind::StorageBuffer),
        one(5, DescriptorKind::StorageBuffer),
        one(6, DescriptorKind::StorageImage),
        Binding {
            binding: 7,
            kind: DescriptorKind::CombinedImageSampler,
            count: MAX_TEXTURES,
            variable: true,
        },
    ]
}

fn single(binding: u32, kind: DescriptorKind) -> (out: Binding)
    ensures
        out == one(binding, kind),
{
    Binding { binding, kind, count: 1, variable: false }
}

/// Plans the places in a set.
pub fn create_descriptor_set_layout() -> (out: Vec<Binding>)
    ensures
        out@ == layout_bindings(),
{
    let mut bindings: Vec<Binding> = Vec::new();
    bindings.push(single(0, DescriptorKind::AccelerationStructure));
    bindings.push(single(1, DescriptorKind::StorageImage));
    bindings.push(single(2, DescriptorKind::UniformBuffer));
    bindings.push(single(3, DescriptorKind::StorageBuffer));
    bindings.push(single(4, DescriptorKind::StorageBuffer));
    bindings.push(single(5, DescriptorKind::StorageBuffer));
    bindings.push(single(6, DescriptorKind::StorageImage));
    bindings.push(
        Binding {
            binding: 7,
            kind: DescriptorKind::CombinedImageSampler,
            count: MAX_TEXTURES,
            variable: true,
        },
    );
    proof {
        assert(bindings@ =~= layout_bindings());
    }
    bindings
}

/// The places are numbered in their order, and the one whose number may vary is the last.
pub proof fn law_variable_binding_is_highest()
    ensures
        forall|i: int|
            0 <= i < layout_bindings().len() ==> (#[trigger] layout_bindings()[i]).binding == i,
        forall|i: int|
            0 <= i < layout_bindings().len() ==> (#[trigger] layout_bindings()[i]).variable == (i
                == layout_bindings().len() - 1),
{
}

/// How many descriptors of a kind a pool holds.
#[derive(Clone, Copy, PartialEq, Eq, Structural, Debug)]
pub struct PoolSize {
    pub kind: DescriptorKind,
    pub count: u32,
}

/// A pool of descriptors.
pub struct PoolPlan {
    pub sizes: Vec<PoolSize>,
    pub max_sets: u32,
}

/// The sizes of the pool for a set per image.
pub open spec fn pool_sizes(images: int) -> Seq<PoolSize> {
    let n = images as u32;
    seq![
        PoolSize { kind: DescriptorKind::AccelerationStructure, count: n },
        PoolSize { kind: DescriptorKind::StorageImage, count: n },
        PoolSize { kind: DescriptorKind::UniformBuffer, count: n },
        PoolSize { kind: DescriptorKind::StorageBuffer, count: n },
        PoolSize { kind: DescriptorKind::StorageBuffer, count: n },
        PoolSize { kind: DescriptorKind::StorageBuffer, count: (images * 3) as u32 },
        PoolSize {
            kind: DescriptorKind::CombinedImageSampler,
            count: (images * MAX_TEXTURES) as u32,
        },
        PoolSize { kind: DescriptorKind::StorageImage, count: n },
    ]
}

/// Plans the pool for a set per image.
pub fn create_descriptor_pool(images: usize) -> (out: PoolPlan)
    requires
        images * MAX_TEXTURES <= u32::MAX,
    ensures
        out.sizes@ == pool_sizes(images as int),
        out.max_sets == images,
{
    let n: u32 = images as u32;
    let mut sizes: Vec<PoolSize> = Vec::new();
    sizes.push(PoolSize { kind: DescriptorKind::AccelerationStructure, count: n });
    sizes.push(PoolSize { kind: DescriptorKind::StorageImage, count: n });
    sizes.push(PoolSize { kind: DescriptorKind::UniformBuffer, count: n });
    sizes.push(PoolSize { kind: DescriptorKind::StorageBuffer, count: n });
    sizes.push(PoolSize { kind: DescriptorKind::StorageBuffer, count: n });
    sizes.push(PoolSize { kind: DescriptorKind::StorageBuffer, count: n * 3 });
    sizes.push(
        PoolSize { kind: DescriptorKind::CombinedImageSampler, count: n * MAX_TEXTURES },
    );
    sizes.push(PoolSize { kind: DescriptorKind::StorageImage, count: n });
    proof {
        assert(sizes@ =~= pool_sizes(images as int));
    }
    PoolPlan { sizes, max_sets: n }
}

/// How many descriptors of a kind the sizes come to.
pub open spec fn supply(sizes: Seq<PoolSize>, kind: DescriptorKind) -> int
    decreases sizes.len(),
{
    if sizes.len() == 0 {
        0
    } else {
        supply(sizes.drop_last(), kind) + if sizes.last().kind == kind {
            sizes.last().count as int
        } else {
            0
        }
    }
}

/// How many descriptors of a kind a set takes.
pub open spec fn demand(bindings: Seq<Binding>, kind: DescriptorKind) -> int
    decreases bindings.len(),
{
    if bindings.len() == 0 {
        0
    } else {
        demand(bindings.drop_last(), kind) + if bindings.last().kind == kind {
            bindings.last().count as int
        } else {
            0
        }
    }
}

/// The pool has enough of every kind for a set per image.
pub proof fn law_pool_suffices(images: int, kind: DescriptorKind)
    requires
        0 <= images,
        images * MAX_TEXTURES <= u32::MAX,
    ensures
        supply(pool_sizes(images), kind) >= images * demand(layout_bindings(), kind),
{
    let s = pool_sizes(images);
    let b = layout_bindings();
    reveal_with_fuel(supply, 9);
    reveal_with_fuel(demand, 9);
    assert(demand(b, DescriptorKind::AccelerationStructure) == 1);
    assert(demand(b, DescriptorKind::StorageImage) == 2);
    assert(demand(b, DescriptorKind::UniformBuffer) == 1);
    assert(demand(b, DescriptorKind::StorageBuffer) == 3);
    assert(demand(b, DescriptorKind::CombinedImageSampler) == MAX_TEXTURES);
    assert(supply(s, DescriptorKind::AccelerationStructure) == images);
    assert(supply(s, DescriptorKind::StorageImage) == 2 * images);
    assert(supply(s, DescriptorKind::UniformBuffer) == images);
    assert(supply(s, DescriptorKind::StorageBuffer) == 5 * images);
    assert(supply(s, DescriptorKind::CombinedImageSampler) == images * MAX_TEXTURES);
    let d = demand(b, kind);
    assert(d == 1 || d == 2 || d == 3 || d == MAX_TEXTURES);
    assert(images * 1 == images);
    if d == 1 {
        assert(images * d == images);
    } else if d == 2 {
        assert(images * d == images * 2);
    } else if d == 3 {
        assert(images * d == images * 3);
    }
    match kind {
        DescriptorKind::AccelerationStructure => {},
        DescriptorKind::StorageImage => {},
        DescriptorKind::UniformBuffer => {},
        DescriptorKind::StorageBuffer => {},
        DescriptorKind::CombinedImageSampler => {},
    }
}

/// What is written into a place of a set.
#[derive(Clone, Copy, PartialEq, Eq, Structural, Debug)]
pub enum Resource {
    /// The acceleration structure over all models.
    Scene,
    /// The image that is drawn, of which there is one per set.
    StorageImage,
    /// The camera, of which there is one per set: its size.
    Camera { size: u64 },
    ObjectDescs,
    Materials,
    MaterialIds,
    /// The image in which light is gathered.
    AccumImage,
    /// All textures.
    Textures { count: usize },
}

/// Something written into a place of a set.
#[derive(Clone, Copy, PartialEq, Eq, Structural, Debug)]
pub struct DescriptorWrite {
    pub binding: u32,
    pub resource: Resource,
}

/// The kind of descriptor that something is written into.
pub open spec fn resource_kind(resource: Resource) -> DescriptorKind {
    match resource {
        Resource::Scene => DescriptorKind::AccelerationStructure,
        Resource::StorageImage => DescriptorKind::StorageImage,
        Resource::Camera { .. } => DescriptorKind::UniformBuffer,
        Resource::ObjectDescs => DescriptorKind::StorageBuffer,
        Resource::Materials => DescriptorKind::StorageBuffer,
        Resource::MaterialIds => DescriptorKind::StorageBuffer,
        Resource::AccumImage => DescriptorKind::StorageImage,
        Resource::Textures { .. } => DescriptorKind::CombinedImageSampler,
    }
}

/// The kind of descriptor that something is written into.
pub fn write_kind(resource: Resource) -> (out: DescriptorKind)
    ensures
        out == resource_kind(resource),
{
    match resource {
        Resource::Scene => DescriptorKind::AccelerationStructure,
        Resource::StorageImage => DescriptorKind::StorageImage,
        Resource::Camera { .. } => DescriptorKind::UniformBuffer,
        Resource::ObjectDescs => DescriptorKind::StorageBuffer,
        Resource::Materials => DescriptorKind::StorageBuffer,
        Resource::MaterialIds => DescriptorKind::StorageBuffer,
        Resource::AccumImage => DescriptorKind::StorageImage,
        Resource::Textures { .. } => DescriptorKind::CombinedImageSampler,
    }
}

/// Everything that is written into a new set. Textures are left out where there are none.
pub open spec fn set_writes(camera_size: u64, textures: usize) -> Seq<DescriptorWrite> {
    let writes = seq![
        DescriptorWrite { binding: 0, resource: Resource::Scene },
        DescriptorWrite { binding: 1, resource: Resource::StorageImage },
        DescriptorWrite { binding: 2, resource: Resource::Camera { size: camera_size } },
        DescriptorWrite { binding: 3, resource: Resource::ObjectDescs },
        DescriptorWrite { binding: 4, resource: Resource::Materials },
        DescriptorWrite { binding: 5, resource: Resource::MaterialIds },
        DescriptorWrite { binding: 6, resource: Resource::AccumImage },
    ];
    if textures == 0 {
        writes
    } else {
        writes.push(
            DescriptorWrite { binding: 7, resource: Resource::Textures { count: textures } },
        )
    }
}

/// What is written into a set again after the models have changed.
pub open spec fn geometry_writes(textures: usize) -> Seq<DescriptorWrite> {
    let writes = seq![
        DescriptorWrite { binding: 0, resource: Resource::Scene },
        DescriptorWrite { binding: 3, resource: Resource::ObjectDescs },
        DescriptorWrite { binding: 4, resource: Resource::Materials },
        DescriptorWrite { binding: 5, resource: Resource::MaterialIds },
    ];
    if textures == 0 {
        writes
    } else {
        writes.push(
            DescriptorWrite { binding: 7, resource: Resource::Textures { count: textures } },
        )
    }
}

/// Plans what is written into a new set.
pub fn create_descriptor_sets(camera_size: u64, textures: usize) -> (out: Vec<DescriptorWrite>)
    ensures
        out@ == set_writes(camera_size, textures),
{
    let mut writes: Vec<DescriptorWrite> = Vec::new();
    writes.push(DescriptorWrite { binding: 0, resource: Resource::Scene });
    writes.push(DescriptorWrite { binding: 1, resource: Resource::StorageImage });
    writes.push(DescriptorWrite { binding: 2, resource: Resource::Camera { size: camera_size } });
    writes.push(DescriptorWrite { binding: 3, resource: Resource::ObjectDescs });
    writes.push(DescriptorWrite { binding: 4, resource: Resource::Materials });
    writes.push(DescriptorWrite { binding: 5, resource: Resource::MaterialIds });
    writes.push(DescriptorWrite { binding: 6, resource: Resource::AccumImage });
    if textures != 0 {
        writes.push(
            DescriptorWrite { binding: 7, resource: Resource::Textures { count: textures } },
        );
    }
    proof {
        assert(writes@ =~= set_writes(camera_size, textures));
    }
    writes
}

/// Plans what is written into a set again after the models have changed.
pub fn recreate_descriptor_sets_for_geometry(textures: usize) -> (out: Vec<DescriptorWrite>)
    ensures
        out@ == geometry_writes(textures),
{
    let mut writes: Vec<DescriptorWrite> = Vec::new();
    writes.push(DescriptorWrite { binding: 0, resource: Resource::Scene });
    writes.push(DescriptorWrite { binding: 3, resource: Resource::ObjectDescs });
    writes.push(DescriptorWrite { binding: 4, resource: Resource::Materials });
    writes.push(DescriptorWrite { binding: 5, resource: Resource::MaterialIds });
    if textures != 0 {
        writes.push(
            DescriptorWrite { binding: 7, resource: Resource::Textures { count: textures } },
        );
    }
    proof {
        assert(writes@ =~= geometry_writes(textures));
    }
    writes
}

/// Whether something is written into a place that is there, of its kind, and with room for it.
pub open spec fn write_fits(write: DescriptorWrite) -> bool {
    let bindings = layout_bindings();
    &&& write.binding < bindings.len()
    &&& bindings[write.binding as int].kind == resource_kind(write.resource)
    &&& write.resource matches Resource::Textures { count } ==> count
        <= bindings[write.binding as int].count
}

/// Everything that is written into a set goes into a place of its kind that has room for it; a new
/// set is filled, but for textures where there are none, and what is written again was written
/// before.
pub proof fn law_writes_fit_the_layout(camera_size: u64, textures: usize)
    requires
        textures <= MAX_TEXTURES,
    ensures
        forall|i: int|
            0 <= i < set_writes(camera_size, textures).len() ==> write_fits(
                #[trigger] set_writes(camera_size, textures)[i],
            ) && set_writes(camera_size, textures)[i].binding == i,
        set_writes(camera_size, textures).len() == if textures == 0 {
            layout_bindings().len() - 1
        } else {
            layout_bindings().len() as int
        },
        forall|i: int|
            0 <= i < geometry_writes(textures).len() ==> set_writes(camera_size, textures).contains(
                #[trigger] geometry_writes(textures)[i],
            ),
{
    let all = set_writes(camera_size, textures);
    let again = geometry_writes(textures);
    assert forall|i: int| 0 <= i < again.len() implies all.contains(#[trigger] again[i]) by {
        if i == 0 {
            assert(all[0] == again[i]);
        } else if i < 4 {
            assert(all[i + 2] == again[i]);
        } else {
            assert(all[7] == again[i]);
        }
    }
}

/// Plans the pool from which models with a skeleton take their sets: one set with three storage
/// buffers for each. Even without such models there is room for one set.
pub fn create_skinning_descriptor_pool(rigged_model_count: u32) -> (out: PoolPlan)
    requires
        rigged_model_count * 3 <= u32::MAX,
    ensures
        out.sizes@ == seq![
            PoolSize {
                kind: DescriptorKind::StorageBuffer,
                count: (rigged_model_count * 3) as u32,
            },
        ],
        out.max_sets == if rigged_model_count == 0 {
            1
        } else {
            rigged_model_count
        },
{
    let mut sizes: Vec<PoolSize> = Vec::new();
    sizes.push(
        PoolSize { kind: DescriptorKind::StorageBuffer, count: rigged_model_count * 3 },
    );
    proof {
        assert(sizes@ =~= seq![
            PoolSize {
                kind: DescriptorKind::StorageBuffer,
                count: (rigged_model_count * 3) as u32,
            },
        ]);
    }
    let max_sets: u32 = if rigged_model_count == 0 {
        1
    } else {
        rigged_model_count
    };
    PoolPlan { sizes, max_sets }
}

/// What stands at each place of a set: one scene, two images, one camera, three lists, and room for 4096
/// textures.
pub proof fn law_places_hold_their_kinds(i: int)
    requires
        0 <= i < layout_bindings().len(),
    ensures
        layout_bindings().len() == 8,
        ({
            let place = layout_bindings()[i];
            &&& place.binding == i
            &&& place.kind is AccelerationStructure <==> i == 0
            &&& place.kind is StorageImage <==> i == 1 || i == 6
            &&& place.kind is UniformBuffer <==> i == 2
            &&& place.kind is StorageBuffer <==> 3 <= i <= 5
            &&& place.kind is CombinedImageSampler <==> i == 7
            &&& i < 7 ==> place.count == 1 && !place.variable
            &&& i == 7 ==> place.count == 4096 && place.variable
        }),
{
}

/// How many descriptors of each kind the pool has for so many images.
pub proof fn law_pool_sizes_go_with_the_images(images: int)
    requires
        0 <= images,
        images * MAX_TEXTURES <= u32::MAX,
    ensures
        supply(pool_sizes(images), DescriptorKind::AccelerationStructure) == images,
        supply(pool_sizes(images), DescriptorKind::StorageImage) == 2 * images,
        supply(pool_sizes(images), DescriptorKind::UniformBuffer) == images,
        supply(pool_sizes(images), DescriptorKind::StorageBuffer) == 5 * images,
        supply(pool_sizes(images), DescriptorKind::CombinedImageSampler) == 4096 * images,
{
    reveal_with_fuel(supply, 9);
}

/// What is written goes where the shaders look for it, in a new set and again after the models have
/// changed: the scene at 0, the image that is drawn at 1, the camera with its size at 2, the objects at
/// 3, the materials at 4, their numbers at 5, the image in which light is gathered at 6, and all textures
/// at 7.
pub proof fn law_shaders_find_what_is_written(camera_size: u64, textures: usize, write: DescriptorWrite)
    ensures
        set_writes(camera_size, textures).contains(write) || geometry_writes(textures).contains(
            write,
        ) ==> {
            &&& write.resource is Scene <==> write.binding == 0
            &&& write.resource is StorageImage <==> write.binding == 1
            &&& write.resource is Camera <==> write.binding == 2
            &&& write.resource matches Resource::Camera { size } ==> size == camera_size
            &&& write.resource is ObjectDescs <==> write.binding == 3
            &&& write.resource is Materials <==> write.binding == 4
            &&& write.resource is MaterialIds <==> write.binding == 5
            &&& write.resource is AccumImage <==> write.binding == 6
            &&& write.resource is Textures <==> write.binding == 7
            &&& write.resource matches Resource::Textures { count } ==> count == textures && count
                > 0
        },
        set_writes(camera_size, textures).len() == if textures == 0 {
            7
        } else {
            8int
        },
        geometry_writes(textures).len() == if textures == 0 {
            4
        } else {
            5int
        },
        forall|i: int, j: int|
            0 <= i < j < set_writes(camera_size, textures).len() ==> (#[trigger] set_writes(
                camera_size,
                textures,
            )[i]).binding < (#[trigger] set_writes(camera_size, textures)[j]).binding,
        forall|i: int, j: int|
            0 <= i < j < geometry_writes(textures).len() ==> (#[trigger] geometry_writes(
                textures,
            )[i]).binding < (#[trigger] geometry_writes(textures)[j]).binding,
        forall|i: int|
            0 <= i < geometry_writes(textures).len() ==> {
                let place = (#[trigger] geometry_writes(textures)[i]).binding;
                place != 1 && place != 2 && place != 6
            },
{
    let all = set_writes(camera_size, textures);
    let again = geometry_writes(textures);
    if all.contains(write) {
        let i = all.index_of(write);
        assert(all[i] == write);
    }
    if again.contains(write) {
        let i = again.index_of(write);
        assert(again[i] == write);
    }
}

/// Each resource is written into a descriptor of its kind.
pub proof fn law_resources_have_their_kinds(resource: Resource)
    ensures
        resource_kind(resource) is AccelerationStructure <==> resource is Scene,
        resource_kind(resource) is StorageImage <==> resource is StorageImage || resource
            is AccumImage,
        resource_kind(resource) is UniformBuffer <==> resource is Camera,
        resource_kind(resource) is StorageBuffer <==> resource is ObjectDescs || resource
            is Materials || resource is MaterialIds,
        resource_kind(resource) is CombinedImageSampler <==> resource is Textures,
{
}

} // verus!
