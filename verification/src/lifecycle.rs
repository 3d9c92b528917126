//! The order in which everything is set up, renewed and torn down.

use vstd::prelude::*;

verus! {

/// What is set up. Each is set up after what it needs.
#[derive(Clone, Copy, PartialEq, Eq, Structural, Debug)]
pub enum Part {
    Instance,
    Surface,
    PhysicalDevice,
    Device,
    QueryPool,
    Swapchain,
    CommandPool,
    StorageImages,
    AccumImage,
    Scene,
    RefCounts,
    Sampler,
    SetLayout,
    RtPipeline,
    DenoisePipeline,
    GeometryBuffers,
    SkinningPool,
    SkinningPipeline,
    SkinBuffers,
    PrimedSkins,
    Groups,
    Tlas,
    SceneBuffers,
    UniformBuffers,
    DescriptorPool,
    DescriptorSets,
    ObjectDescs,
    ShaderBindingTable,
    CommandBuffers,
    SyncObjects,
    /// Takes the messages of the validation layer; set up with the instance.
    Messenger,
    Textures,
}

/// The order in which everything is set up. Textures come with the scene and the messenger with the
/// instance.
pub open spec fn setup_order() -> Seq<Part> {
    seq![
        Part::Instance,
        Part::Surface,
        Part::PhysicalDevice,
        Part::Device,
        Part::QueryPool,
        Part::Swapchain,
        Part::CommandPool,
        Part::StorageImages,
        Part::AccumImage,
        Part::Scene,
        Part::RefCounts,
        Part::Sampler,
        Part::SetLayout,
        Part::RtPipeline,
        Part::DenoisePipeline,
        Part::GeometryBuffers,
        Part::SkinningPool,
        Part::SkinningPipeline,
        Part::SkinBuffers,
        Part::PrimedSkins,
        Part::Groups,
        Part::Tlas,
        Part::SceneBuffers,
        Part::UniformBuffers,
        Part::DescriptorPool,
        Part::DescriptorSets,
        Part::ObjectDescs,
        Part::ShaderBindingTable,
        Part::CommandBuffers,
        Part::SyncObjects,
    ]
}

/// Where a part comes as everything is set up.
pub open spec fn setup_place(part: Part) -> int {
    match part {
        Part::Instance => 0,
        Part::Surface => 1,
        Part::PhysicalDevice => 2,
        Part::Device => 3,
        Part::QueryPool => 4,
        Part::Swapchain => 5,
        Part::CommandPool => 6,
        Part::StorageImages => 7,
        Part::AccumImage => 8,
        Part::Scene => 9,
        Part::RefCounts => 10,
        Part::Sampler => 11,
        Part::SetLayout => 12,
        Part::RtPipeline => 13,
        Part::DenoisePipeline => 14,
        Part::GeometryBuffers => 15,
        Part::SkinningPool => 16,
        Part::SkinningPipeline => 17,
        Part::SkinBuffers => 18,
        Part::PrimedSkins => 19,
        Part::Groups => 20,
        Part::Tlas => 21,
        Part::SceneBuffers => 22,
        Part::UniformBuffers => 23,
        Part::DescriptorPool => 24,
        Part::DescriptorSets => 25,
        Part::ObjectDescs => 26,
        Part::ShaderBindingTable => 27,
        Part::CommandBuffers => 28,
        Part::SyncObjects => 29,
        Part::Messenger => 0,
        Part::Textures => 9,
    }
}

/// What a part needs to be set up.
pub open spec fn needs(part: Part, other: Part) -> bool {
    match part {
        Part::Instance => false,
        Part::Messenger => false,
        Part::Surface => other is Instance,
        Part::PhysicalDevice => other is Instance || other is Surface,
        Part::Device => other is PhysicalDevice,
        Part::QueryPool => other is Device,
        Part::Swapchain => other is Device || other is Surface,
        Part::CommandPool => other is Device,
        Part::StorageImages => other is Swapchain || other is CommandPool,
        Part::AccumImage => other is Swapchain || other is CommandPool,
        Part::Scene => other is CommandPool,
        Part::Textures => other is CommandPool,
        Part::RefCounts => other is Scene,
        Part::Sampler => other is Device,
        Part::SetLayout => other is Device,
        Part::RtPipeline => other is SetLayout,
        Part::DenoisePipeline => other is SetLayout,
        Part::GeometryBuffers => other is Scene,
        Part::SkinningPool => other is Scene,
        Part::SkinningPipeline => other is Device,
        Part::SkinBuffers => other is GeometryBuffers || other is SkinningPool
            || other is SkinningPipeline,
        Part::PrimedSkins => other is SkinBuffers || other is CommandPool,
        Part::Groups => other is PrimedSkins,
        Part::Tlas => other is Groups,
        Part::SceneBuffers => other is SkinBuffers || other is Scene,
        Part::UniformBuffers => other is Swapchain,
        Part::DescriptorPool => other is Swapchain,
        Part::DescriptorSets => other is DescriptorPool || other is SetLayout || other is Tlas
            || other is StorageImages || other is AccumImage || other is UniformBuffers
            || other is SceneBuffers || other is Sampler || other is Textures,
        Part::ObjectDescs => other is SceneBuffers || other is Groups,
        Part::ShaderBindingTable => other is RtPipeline,
        Part::CommandBuffers => other is CommandPool || other is Swapchain,
        Part::SyncObjects => other is Swapchain,
    }
}

/// Everything is set up after what it needs.
pub proof fn law_setup_follows_needs(part: Part, other: Part)
    requires
        needs(part, other),
    ensures
        setup_place(other) < setup_place(part),
        setup_order()[setup_place(part)] == part || part is Textures,
        setup_order()[setup_place(other)] == other || other is Textures,
{
}

/// Gives the order in which everything is set up.
pub fn create() -> (out: Vec<Part>)
    ensures
        out@ == setup_order(),
{
    let mut parts: Vec<Part> = Vec::new();
    parts.push(Part::Instance);
    parts.push(Part::Surface);
    parts.push(Part::PhysicalDevice);
    parts.push(Part::Device);
    parts.push(Part::QueryPool);
    parts.push(Part::Swapchain);
    parts.push(Part::CommandPool);
    parts.push(Part::StorageImages);
    parts.push(Part::AccumImage);
    parts.push(Part::Scene);
    parts.push(Part::RefCounts);
    parts.push(Part::Sampler);
    parts.push(Part::SetLayout);
    parts.push(Part::RtPipeline);
    parts.push(Part::DenoisePipeline);
    parts.push(Part::GeometryBuffers);
    parts.push(Part::SkinningPool);
    parts.push(Part::SkinningPipeline);
    parts.push(Part::SkinBuffers);
    parts.push(Part::PrimedSkins);
    parts.push(Part::Groups);
    parts.push(Part::Tlas);
    parts.push(Part::SceneBuffers);
    parts.push(Part::UniformBuffers);
    parts.push(Part::DescriptorPool);
    parts.push(Part::DescriptorSets);
    parts.push(Part::ObjectDescs);
    parts.push(Part::ShaderBindingTable);
    parts.push(Part::CommandBuffers);
    parts.push(Part::SyncObjects);
    proof {
        assert(parts@ =~= setup_order());
    }
    parts
}

/// What is torn down with the images of the window, in this order.
pub open spec fn swapchain_teardown() -> Seq<Part> {
    seq![
        Part::StorageImages,
        Part::AccumImage,
        Part::DenoisePipeline,
        Part::RtPipeline,
        Part::DescriptorPool,
        Part::UniformBuffers,
        Part::CommandBuffers,
        Part::Swapchain,
    ]
}

/// What is set up anew with new images, in this order.
pub open spec fn swapchain_renewal() -> Seq<Part> {
    seq![
        Part::Swapchain,
        Part::StorageImages,
        Part::AccumImage,
        Part::RtPipeline,
        Part::DenoisePipeline,
        Part::ShaderBindingTable,
        Part::UniformBuffers,
        Part::DescriptorPool,
        Part::DescriptorSets,
        Part::CommandBuffers,
    ]
}

/// Gives what is torn down with the images of the window.
pub fn destroy_swapchain() -> (out: Vec<Part>)
    ensures
        out@ == swapchain_teardown(),
{
    let mut parts: Vec<Part> = Vec::new();
    parts.push(Part::StorageImages);
    parts.push(Part::AccumImage);
    parts.push(Part::DenoisePipeline);
    parts.push(Part::RtPipeline);
    parts.push(Part::DescriptorPool);
    parts.push(Part::UniformBuffers);
    parts.push(Part::CommandBuffers);
    parts.push(Part::Swapchain);
    proof {
        assert(parts@ =~= swapchain_teardown());
    }
    parts
}

/// Gives what is set up anew with new images.
pub fn recreate_swapchain() -> (out: Vec<Part>)
    ensures
        out@ == swapchain_renewal(),
{
    let mut parts: Vec<Part> = Vec::new();
    parts.push(Part::Swapchain);
    parts.push(Part::StorageImages);
    parts.push(Part::AccumImage);
    parts.push(Part::RtPipeline);
    parts.push(Part::DenoisePipeline);
    parts.push(Part::ShaderBindingTable);
    parts.push(Part::UniformBuffers);
    parts.push(Part::DescriptorPool);
    parts.push(Part::DescriptorSets);
    parts.push(Part::CommandBuffers);
    proof {
        assert(parts@ =~= swapchain_renewal());
    }
    parts
}

/// What is torn down with the images is set up anew with them, and so is whatever needs any of it,
/// but for the frames' semaphores, of which there are always as many.
pub proof fn law_renewal_is_complete(part: Part, torn: Part)
    requires
        swapchain_teardown().contains(torn),
    ensures
        swapchain_renewal().contains(torn),
        needs(part, torn) && !(part is SyncObjects) ==> swapchain_renewal().contains(part),
{
    let renewed = swapchain_renewal();
    assert(renewed[0] is Swapchain);
    assert(renewed[1] is StorageImages);
    assert(renewed[2] is AccumImage);
    assert(renewed[3] is RtPipeline);
    assert(renewed[4] is DenoisePipeline);
    assert(renewed[5] is ShaderBindingTable);
    assert(renewed[6] is UniformBuffers);
    assert(renewed[7] is DescriptorPool);
    assert(renewed[8] is DescriptorSets);
    assert(renewed[9] is CommandBuffers);
    let i = choose|i: int| 0 <= i < swapchain_teardown().len() && swapchain_teardown()[i] == torn;
    assert(0 <= i < 8);
}

/// What is torn down in the end, in this order, after what belongs to the images of the window. The
/// messenger is there only with validation.
pub open spec fn teardown(validation: bool) -> Seq<Part> {
    let parts = seq![
        Part::ShaderBindingTable,
        Part::Tlas,
        Part::Groups,
        Part::GeometryBuffers,
        Part::SceneBuffers,
        Part::Sampler,
        Part::Textures,
        Part::SkinBuffers,
        Part::SkinningPipeline,
        Part::SkinningPool,
        Part::QueryPool,
        Part::SetLayout,
        Part::SyncObjects,
        Part::CommandPool,
        Part::Device,
        Part::Surface,
    ];
    (if validation {
        parts.push(Part::Messenger)
    } else {
        parts
    }).push(Part::Instance)
}

/// Gives what is torn down in the end.
pub fn destroy(validation: bool) -> (out: Vec<Part>)
    ensures
        out@ == teardown(validation),
{
    let mut parts: Vec<Part> = Vec::new();
    parts.push(Part::ShaderBindingTable);
    parts.push(Part::Tlas);
    parts.push(Part::Groups);
    parts.push(Part::GeometryBuffers);
    parts.push(Part::SceneBuffers);
    parts.push(Part::Sampler);
    parts.push(Part::Textures);
    parts.push(Part::SkinBuffers);
    parts.push(Part::SkinningPipeline);
    parts.push(Part::SkinningPool);
    parts.push(Part::QueryPool);
    parts.push(Part::SetLayout);
    parts.push(Part::SyncObjects);
    parts.push(Part::CommandPool);
    parts.push(Part::Device);
    parts.push(Part::Surface);
    if validation {
        parts.push(Part::Messenger);
    }
    parts.push(Part::Instance);
    proof {
        assert(parts@ =~= teardown(validation));
    }
    parts
}

/// Whether a part lives on the device.
pub open spec fn on_device(part: Part) -> bool {
    !(part is Instance || part is Messenger || part is Surface || part is Device)
}

/// Everything on the device is torn down before the device, and all before the instance.
pub proof fn law_device_and_instance_go_last(validation: bool, i: int)
    requires
        0 <= i < teardown(validation).len(),
    ensures
        teardown(validation)[14] is Device,
        i < 14 <==> on_device(teardown(validation)[i]),
        teardown(validation)[i] is Instance <==> i == teardown(validation).len() - 1,
{
}

/// Whether a part is made on the device or for it, so that it has to be torn down.
pub open spec fn is_held(part: Part) -> bool {
    !(part is PhysicalDevice || part is Scene || part is RefCounts || part is PrimedSkins || part
        is DescriptorSets || part is ObjectDescs || part is Messenger)
}

/// Everything is set up once. Only textures and the messenger have no turn of their own.
pub proof fn law_everything_is_set_up_once(part: Part)
    ensures
        setup_order().len() == 30,
        setup_order().no_duplicates(),
        setup_order().contains(part) <==> !(part is Messenger || part is Textures),
{
    let order = setup_order();
    if !(part is Messenger || part is Textures) {
        assert(order[setup_place(part)] == part);
    }
    if order.contains(part) {
        let i = choose|i: int| 0 <= i < order.len() && order[i] == part;
        assert(0 <= i < 30);
    }
    assert forall|i: int, j: int| 0 <= i < order.len() && 0 <= j < order.len() && i
        != j implies order[i] != order[j] by {
        assert(setup_place(order[i]) == i);
        assert(setup_place(order[j]) == j);
    }
}

/// Where a part comes as everything is torn down.
spec fn teardown_place(part: Part) -> int {
    match part {
        Part::StorageImages => 0,
        Part::AccumImage => 1,
        Part::DenoisePipeline => 2,
        Part::RtPipeline => 3,
        Part::DescriptorPool => 4,
        Part::UniformBuffers => 5,
        Part::CommandBuffers => 6,
        Part::Swapchain => 7,
        Part::ShaderBindingTable => 8,
        Part::Tlas => 9,
        Part::Groups => 10,
        Part::GeometryBuffers => 11,
        Part::SceneBuffers => 12,
        Part::Sampler => 13,
        Part::Textures => 14,
        Part::SkinBuffers => 15,
        Part::SkinningPipeline => 16,
        Part::SkinningPool => 17,
        Part::QueryPool => 18,
        Part::SetLayout => 19,
        Part::SyncObjects => 20,
        Part::CommandPool => 21,
        Part::Device => 22,
        Part::Surface => 23,
        Part::Messenger => 24,
        _ => 25,
    }
}

/// Whatever is held is torn down once: with the images of the window or in the end. The messenger is torn
/// down only where it is there, and nothing else is.
pub proof fn law_everything_is_torn_down_once(validation: bool, part: Part)
    ensures
        ({
            let all = swapchain_teardown() + teardown(validation);
            &&& all.no_duplicates()
            &&& all.contains(part) <==> is_held(part) || (validation && part is Messenger)
        }),
{
    let all = swapchain_teardown() + teardown(validation);
    assert forall|i: int| 0 <= i < all.len() implies teardown_place(#[trigger] all[i]) == i || (all[i]
        is Instance && i == all.len() - 1) by {
        if i < 8 {
            assert(all[i] == swapchain_teardown()[i]);
        } else {
            assert(all[i] == teardown(validation)[i - 8]);
        }
    }
    assert(all.len() == if validation {
        26int
    } else {
        25
    });
    if is_held(part) && !(part is Instance) {
        let i = teardown_place(part);
        if i < 8 {
            assert(all[i] == swapchain_teardown()[i]);
        } else {
            assert(all[i] == teardown(validation)[i - 8]);
        }
        assert(all[i] == part);
    }
    if part is Instance {
        assert(all[all.len() - 1] == teardown(validation)[all.len() - 9]);
        assert(all[all.len() - 1] == part);
    }
    if validation && part is Messenger {
        assert(all[24] == teardown(validation)[16]);
        assert(all[24] == part);
    }
    if all.contains(part) {
        let i = choose|i: int| 0 <= i < all.len() && all[i] == part;
        if i < 8 {
            assert(all[i] == swapchain_teardown()[i]);
        } else {
            assert(all[i] == teardown(validation)[i - 8]);
        }
    }
}

/// Where a part comes as the images of the window are renewed.
spec fn renewal_place(part: Part) -> int {
    match part {
        Part::Swapchain => 0,
        Part::StorageImages => 1,
        Part::AccumImage => 2,
        Part::RtPipeline => 3,
        Part::DenoisePipeline => 4,
        Part::ShaderBindingTable => 5,
        Part::UniformBuffers => 6,
        Part::DescriptorPool => 7,
        Part::DescriptorSets => 8,
        _ => 9,
    }
}

/// What is renewed with the images comes after whatever it needs that is renewed too, and nothing is
/// renewed twice.
pub proof fn law_renewal_follows_needs(i: int, j: int)
    requires
        0 <= i < swapchain_renewal().len(),
        0 <= j < swapchain_renewal().len(),
        needs(swapchain_renewal()[j], swapchain_renewal()[i]),
    ensures
        i < j,
        swapchain_renewal().no_duplicates(),
{
    let all = swapchain_renewal();
    assert forall|k: int| 0 <= k < all.len() implies renewal_place(#[trigger] all[k]) == k by {}
    assert(renewal_place(all[i]) == i && renewal_place(all[j]) == j);
}

} // verus!
