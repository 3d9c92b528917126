use rtx_vulkan_engine::cache::CachedAsset;
use rtx_vulkan_engine::capacity::{
    geometry_buffer_sizes, plan_growth, rebuild_geometry_buffers, rigged_model_count,
    GeometryCapacity,
};
use rtx_vulkan_engine::common::{AnimationClip, Material, Vertex};
use rtx_vulkan_engine::groups::{
    check_geometry_addresses, checked_instance_address, class_groups, create_scene_buffers,
    create_tlas, dynamic_refit, geom_source_for, object_descs, rebuild_group_cold, BuildMode,
    GeomSource, GroupRef,
};
use rtx_vulkan_engine::math::{Mat4, Vec3};
use rtx_vulkan_engine::ops::{
    moved_model, queue_add_model, queue_remove_model, ModelOp, StringOrInt,
};
use rtx_vulkan_engine::scene::{dummy_root_skeleton, Model, ModelClass, Scene, UintRange};
use rtx_vulkan_engine::skinning::{
    allocate_skin_resources_for_model, can_skin, dispatch_skin, prime_skin, rest_offset,
    skinning_groups, JointSource,
};

fn material(color: u32, emission: u32) -> Material {
    let zero = Vec3::new(0, 0, 0);
    Material {
        albedo: Vec3::new(color, color, color),
        albedo_texture_index: 0,
        metallic: 1,
        roughness: 2,
        emission: Vec3::new(emission, 0, 0),
        transmission: 0,
        ior: 0,
        specular: 0,
        clearcoat: 0,
        clearcoat_roughness: 0,
        sheen: 0,
        sheen_color: zero,
    }
}

/// A model of so many triangles that share no vertices, each with the given material.
fn model(start: u32, ids: &[u32], materials: &[Material]) -> Model {
    let zero = Vec3::new(0, 0, 0);
    let count = 3 * ids.len() as u32;
    let asset = CachedAsset {
        vertices: (0..count)
            .map(|i| Vertex::new(Vec3::new(start + i, 0, 0), zero, None, None, None))
            .collect(),
        indices: (0..count).rev().collect(),
        material_ids: ids.to_vec(),
        materials: materials.to_vec(),
        textures: vec![],
        skeleton: None,
        animations: vec![],
    };
    Scene::load_model_into_memory(asset, 0)
}

fn positions(scene: &Scene) -> Vec<u32> {
    scene.vertices.iter().map(|v| v.pos.x).collect()
}

#[test]
fn new_scene_is_empty() {
    let scene = Scene::new();
    assert!(scene.vertices.is_empty() && scene.indices.is_empty());
    assert!(scene.materials.is_empty() && scene.model_info.is_empty());
    assert_eq!(scene.model_names.len(), 0);
}

#[test]
fn added_models_lie_side_by_side() {
    let mut scene = Scene::new();
    scene.add_model_to_scene(&model(0, &[0], &[material(1, 0)]), ModelClass::Static, None);
    scene.add_model_to_scene(
        &model(10, &[0, 0], &[material(2, 0)]),
        ModelClass::Dynamic,
        Some("Xenon".to_string()),
    );
    assert_eq!(positions(&scene), vec![0, 1, 2, 10, 11, 12, 13, 14, 15]);
    assert_eq!(scene.indices, vec![2, 1, 0, 8, 7, 6, 5, 4, 3]);
    assert_eq!(scene.material_ids, vec![0, 1, 1]);
    assert_eq!(scene.model_info[0].model_vertex_range, UintRange { min: 0, max: 3 });
    assert_eq!(scene.model_info[1].model_vertex_range, UintRange { min: 3, max: 9 });
    assert_eq!(scene.model_info[1].model_index_range, UintRange { min: 3, max: 9 });
    assert_eq!(scene.model_info[1].model_class, ModelClass::Dynamic);
    assert_eq!(scene.transform(1), Mat4::identity());
    assert_eq!(scene.animations.len(), 2);
}

#[test]
fn names_are_kept_in_order_and_once() {
    let mut scene = Scene::new();
    let m = model(0, &[0], &[material(1, 0)]);
    scene.add_model_to_scene(&m, ModelClass::Static, None);
    scene.add_model_to_scene(&m, ModelClass::Static, Some("Room".to_string()));
    scene.add_model_to_scene(&m, ModelClass::Static, Some("Room".to_string()));
    scene.add_model_to_scene(&m, ModelClass::Static, None);
    let names: Vec<&str> = scene.model_names.iter().map(|s| s.as_str()).collect();
    assert_eq!(names, vec!["1", "Room", "4"]);
    assert_eq!(scene.search_for_model_id("Room".to_string()), None);
}

#[test]
fn equal_materials_are_used_again() {
    let mut scene = Scene::new();
    let m = model(0, &[0, 1, 2], &[material(5, 0), material(5, 77), material(6, 0)]);
    scene.add_model_to_scene(&m, ModelClass::Static, None);
    // The emission does not tell materials apart, and the first one stays.
    assert_eq!(scene.materials.len(), 2);
    assert_eq!(scene.materials[0].emission.x, 0);
    assert_eq!(scene.material_ids, vec![0, 0, 1]);
    scene.add_model_to_scene(&m, ModelClass::Static, None);
    assert_eq!(scene.materials.len(), 2);
    assert_eq!(scene.material_ids, vec![0, 0, 1, 0, 0, 1]);
}

#[test]
fn materials_compare_by_key() {
    let a = material(1, 2);
    let mut b = material(1, 3);
    assert!(a == b);
    b.roughness = 9;
    assert!(a != b);
    let mut c = material(1, 2);
    c.albedo_texture_index = 4;
    assert!(a != c);
    let mut d = material(1, 2);
    d.albedo.z = 4;
    assert!(a != d);
}

#[test]
fn room_for_a_model() {
    let scene = Scene::new();
    assert!(scene.has_room_for(&model(0, &[0], &[material(1, 0)])));
    // A triangle of a material that the model does not have.
    assert!(!scene.has_room_for(&model(0, &[1], &[material(1, 0)])));
}

#[test]
fn loading_moves_textures_and_adds_a_bone() {
    let mut plain = material(1, 0);
    plain.albedo_texture_index = -1;
    let mut textured = material(2, 0);
    textured.albedo_texture_index = 3;
    let asset = CachedAsset {
        vertices: vec![],
        indices: vec![],
        material_ids: vec![],
        materials: vec![plain, textured],
        textures: vec![],
        skeleton: None,
        animations: vec![],
    };
    let mut scene = Scene::new();
    scene.add_model_to_scene(
        &Scene::load_model_into_memory(asset, 10),
        ModelClass::Static,
        None,
    );
    assert_eq!(scene.materials[0].albedo_texture_index, -1);
    assert_eq!(scene.materials[1].albedo_texture_index, 13);
    let skeleton = scene.model_info[0].skeleton.as_ref().unwrap();
    assert_eq!(skeleton.bones.len(), 1);
    assert_eq!(skeleton.root_bones, vec![0]);
    assert_eq!(skeleton.bones[0].local_transform, Mat4::identity());
    assert_eq!(dummy_root_skeleton().bones[0].node_index, 0);
}

fn three_models() -> (Scene, Vec<u32>) {
    let mut scene = Scene::new();
    scene.add_model_to_scene(&model(0, &[0], &[material(1, 0)]), ModelClass::Static, None);
    scene.add_model_to_scene(
        &model(10, &[0, 1], &[material(2, 0), material(3, 0)]),
        ModelClass::SemiDynamic,
        None,
    );
    scene.add_model_to_scene(
        &model(20, &[0, 1], &[material(3, 0), material(4, 0)]),
        ModelClass::Dynamic,
        None,
    );
    let mut counts = vec![];
    scene.recompute_material_refcounts(&mut counts);
    (scene, counts)
}

#[test]
fn uses_are_counted() {
    let (scene, counts) = three_models();
    assert_eq!(scene.material_ids, vec![0, 1, 2, 2, 3]);
    assert_eq!(counts, vec![1, 1, 2, 1]);
    let mut counts = vec![7];
    Scene::new().recompute_material_refcounts(&mut counts);
    assert!(counts.is_empty());
}

#[test]
fn removing_moves_the_rest_together() {
    let (mut scene, mut counts) = three_models();
    assert!(scene.can_remove(&counts, 1));
    scene.remove_model(&mut counts, 1);
    assert_eq!(positions(&scene), vec![0, 1, 2, 20, 21, 22, 23, 24, 25]);
    assert_eq!(scene.indices, vec![2, 1, 0, 8, 7, 6, 5, 4, 3]);
    assert_eq!(scene.model_info.len(), 2);
    assert_eq!(scene.model_info[1].model_vertex_range, UintRange { min: 3, max: 9 });
    assert_eq!(scene.model_info[1].model_index_range, UintRange { min: 3, max: 9 });
    assert_eq!(scene.model_info[1].model_class, ModelClass::Dynamic);
    assert_eq!(scene.transform_matrices.len(), 2);
    // One material is gone, the shared one stays, and the numbers have moved.
    assert_eq!(scene.materials.len(), 3);
    assert_eq!(scene.material_ids, vec![0, 1, 2]);
    assert_eq!(scene.materials[1].albedo.x, 3);
    assert_eq!(scene.materials[2].albedo.x, 4);
    assert_eq!(counts, vec![1, 1, 1]);
    // Players and names stay.
    assert_eq!(scene.animations.len(), 3);
    assert_eq!(scene.model_names.len(), 3);
}

#[test]
fn one_use_is_given_up_however_often() {
    let mut scene = Scene::new();
    scene.add_model_to_scene(
        &model(0, &[0, 0, 0], &[material(1, 0)]),
        ModelClass::Static,
        None,
    );
    let mut counts = vec![];
    scene.recompute_material_refcounts(&mut counts);
    assert_eq!(counts, vec![3]);
    scene.remove_model(&mut counts, 0);
    assert_eq!(counts, vec![2]);
    assert_eq!(scene.materials.len(), 1);
    assert!(scene.vertices.is_empty() && scene.material_ids.is_empty());
}

#[test]
fn removing_undoes_adding() {
    let (mut scene, mut counts) = three_models();
    let before = (positions(&scene), scene.indices.clone(), scene.material_ids.clone());
    scene.add_model_to_scene(
        &model(50, &[0, 1], &[material(1, 0), material(9, 0)]),
        ModelClass::Static,
        None,
    );
    scene.recompute_material_refcounts(&mut counts);
    scene.remove_model(&mut counts, 3);
    assert_eq!((positions(&scene), scene.indices.clone(), scene.material_ids.clone()), before);
}

#[test]
fn models_can_be_removed_until_none_is_left() {
    let (mut scene, mut counts) = three_models();
    while !scene.model_info.is_empty() {
        assert!(scene.can_remove(&counts, 0));
        scene.remove_model(&mut counts, 0);
        assert_eq!(counts.len(), scene.materials.len());
        for id in &scene.material_ids {
            assert!((*id as usize) < scene.materials.len());
        }
    }
    assert!(scene.vertices.is_empty() && scene.indices.is_empty());
    assert!(!scene.can_remove(&counts, 0));
}

#[test]
fn giving_up_materials_directly() {
    let (mut scene, mut counts) = three_models();
    scene.decrement_materials(&mut counts, &vec![0, 0, 2]);
    assert_eq!(counts, vec![1, 1, 1]);
    assert_eq!(scene.materials.len(), 3);
    assert_eq!(scene.material_ids, vec![0, 0, 1, 1, 2]);
}

#[test]
fn queues_fill_and_names_are_not_found() {
    let (scene, _) = three_models();
    let mut pending: Vec<ModelOp> = vec![];
    let m = model(0, &[0], &[material(1, 0)]);
    queue_add_model(&mut pending, &m, ModelClass::Static, Mat4::identity(), None);
    queue_remove_model(&mut pending, &scene, StringOrInt::Int(2));
    queue_remove_model(&mut pending, &scene, StringOrInt::Str("Xenon".to_string()));
    assert_eq!(pending.len(), 2);
    assert!(matches!(pending[1], ModelOp::Remove(2)));
    assert_eq!(moved_model(&scene, StringOrInt::Int(2)), 2);
    assert_eq!(moved_model(&scene, StringOrInt::Str("3".to_string())), 0);
}

#[test]
fn pending_changes_are_made_in_order() {
    let (mut scene, mut counts) = three_models();
    let m = model(90, &[0], &[material(8, 0)]);
    let mut place = Mat4::identity();
    place.w.x = 5;
    let ops = vec![
        ModelOp::Remove(0),
        ModelOp::Add(Model::from(&m), ModelClass::SemiDynamic, place, Some("New".to_string())),
    ];
    assert!(scene.allows_op(&counts, &ops[0]));
    let added = scene.apply_pending_model_ops(&mut counts, ops);
    assert_eq!(added, Some(2));
    assert_eq!(scene.model_info.len(), 3);
    assert_eq!(scene.transform(2), place);
    assert_eq!(positions(&scene)[12..], [90, 91, 92]);
    assert_eq!(counts.len(), scene.materials.len());
    assert_eq!(scene.apply_pending_model_ops(&mut counts, vec![]), None);
}

#[test]
fn a_stale_lookup_is_noticed() {
    // Taking out the last material leaves its number in the lookup.
    let mut scene = Scene::new();
    let a = model(0, &[0], &[material(1, 0)]);
    let b = model(3, &[0], &[material(2, 0)]);
    scene.add_model_to_scene(&a, ModelClass::Static, None);
    scene.add_model_to_scene(&b, ModelClass::Static, None);
    let mut counts = vec![];
    scene.recompute_material_refcounts(&mut counts);
    scene.remove_model(&mut counts, 1);
    assert_eq!(scene.materials.len(), 1);
    assert!(scene.has_room_for(&b));
    assert!(!scene.stays_countable(&b));
    let op = ModelOp::Add(Model::from(&b), ModelClass::Static, Mat4::identity(), None);
    assert!(!scene.allows_op(&counts, &op));
    assert!(!scene.allows_op(&counts, &ModelOp::Remove(7)));
    assert!(scene.stays_countable(&a));
}

#[test]
fn transforms_are_set() {
    let (mut scene, _) = three_models();
    let mut place = Mat4::identity();
    place.w.y = 3;
    scene.set_transform(1, place);
    assert_eq!(scene.transform(1), place);
    assert_eq!(scene.transform(0), Mat4::identity());
}

#[test]
fn capacity_grows_by_half() {
    assert_eq!(
        rebuild_geometry_buffers(101, 10, 3),
        GeometryCapacity { vertex_capacity: 151, index_capacity: 64, model_capacity: 4 }
    );
    let capacity = rebuild_geometry_buffers(1000, 2000, 7);
    assert_eq!(capacity.model_capacity, 10);
    assert_eq!(geometry_buffer_sizes(&capacity), (1500 * 64, 3000 * 4));
}

#[test]
fn growth_is_planned() {
    let (scene, _) = three_models();
    let small = GeometryCapacity { vertex_capacity: 14, index_capacity: 64, model_capacity: 4 };
    let plan = plan_growth(&scene, &small, 2, Some(2));
    assert_eq!(
        plan.geometry,
        Some(GeometryCapacity { vertex_capacity: 64, index_capacity: 64, model_capacity: 4 })
    );
    // Three models have a skeleton, and the pool has room for two.
    assert_eq!(rigged_model_count(&scene.model_info), 3);
    assert_eq!(plan.skinning_pool, Some(4));
    assert_eq!(plan.skinning_capacity, 4);
    assert_eq!(plan.allocate_for, Some(2));
    let plan = plan_growth(&scene, &plan.geometry.unwrap(), 4, None);
    assert_eq!(plan.geometry, None);
    assert_eq!(plan.skinning_pool, None);
    assert_eq!(plan.skinning_capacity, 4);
}

#[test]
fn groups_follow_the_classes() {
    let mut scene = Scene::new();
    let m = model(0, &[0], &[material(1, 0)]);
    for class in [
        ModelClass::Dynamic,
        ModelClass::Static,
        ModelClass::SemiDynamic,
        ModelClass::Static,
        ModelClass::Dynamic,
    ] {
        scene.add_model_to_scene(&m, class, None);
    }
    let groups = class_groups(&scene.model_info);
    assert_eq!(groups.static_members, vec![1, 3]);
    assert_eq!(groups.semi_members, vec![2]);
    assert_eq!(groups.dynamic_members, vec![0, 4]);
    assert_eq!((groups.static_base, groups.semi_base, groups.dynamic_base), (0, 2, 3));

    let sources: Vec<GeomSource> =
        (0..5u64).map(|i| geom_source_for(100 + i, 200 + i, 3, 1)).collect();
    assert_eq!(sources[0].max_vertex, 2);
    let descs = object_descs(&scene.model_info, &sources);
    let order: Vec<u64> = descs.iter().map(|d| d.vertex_address - 100).collect();
    assert_eq!(order, vec![1, 3, 2, 0, 4]);
    assert_eq!(descs[0].material_id, 1);
    assert_eq!(descs[4].material_id, 4);
    assert_eq!(descs[4].index_address, 204);

    let list = rebuild_group_cold(&groups.dynamic_members, &sources).unwrap();
    assert_eq!(list, vec![sources[0], sources[4]]);
    assert!(rebuild_group_cold(&[], &sources).is_none());
}

#[test]
fn instances_stand_for_groups_with_members() {
    let groups = [
        GroupRef { member_count: 2, instance_custom_base: 0, blas_address: 11 },
        GroupRef { member_count: 0, instance_custom_base: 2, blas_address: 0 },
        GroupRef { member_count: 1, instance_custom_base: 2, blas_address: 33 },
    ];
    let instances = create_tlas(&groups);
    assert_eq!(instances.len(), 2);
    assert_eq!(instances[1].instance_custom_index_and_mask, 0xFF00_0002);
    assert_eq!(instances[1].instance_sbt_record_offset_and_flags, 0);
    assert_eq!(instances[1].acceleration_structure_reference, 33);
    let one = 1.0f32.to_bits();
    assert_eq!(instances[0].transform, [[one, 0, 0, 0], [0, one, 0, 0], [0, 0, one, 0]]);
}

#[test]
fn addresses_must_not_be_zero() {
    assert_eq!(checked_instance_address(5), Ok(5));
    let e = checked_instance_address(0).unwrap_err();
    assert_eq!(e.message(), "TLAS instance buffer has a zero device address");
    assert!(check_geometry_addresses(1, 2).is_ok());
    let e = check_geometry_addresses(1, 0).unwrap_err();
    assert_eq!(e.message(), "Vertex or index buffer has a zero device address");
    assert!(check_geometry_addresses(0, 1).is_err());
}

#[test]
fn scene_buffers_are_never_empty() {
    let sizes = create_scene_buffers(0, 0, 0);
    assert_eq!((sizes.materials, sizes.objects, sizes.material_ids), (72, 1, 1));
    let sizes = create_scene_buffers(3, 2, 5);
    assert_eq!((sizes.materials, sizes.objects, sizes.material_ids), (216, 48, 20));
}

#[test]
fn dynamic_group_is_rebuilt_after_the_interval() {
    let mut frames = 0;
    for _ in 0..240 {
        let (mode, next) = dynamic_refit(frames);
        assert_eq!(mode, BuildMode::Update);
        frames = next;
    }
    assert_eq!(dynamic_refit(frames), (BuildMode::Build, 0));
}

#[test]
fn skin_buffers_are_planned() {
    let (scene, _) = three_models();
    assert!(can_skin(&scene, 1));
    assert!(!can_skin(&scene, 3));
    let buffers = allocate_skin_resources_for_model(&scene, 1);
    assert_eq!(buffers.triangle_count, 2);
    let skin = buffers.skin.unwrap();
    assert_eq!(skin.vertex_count, 6);
    assert_eq!(skin.skinned_size, 384);
    assert_eq!(skin.joint_count, 1);
    assert_eq!(skin.joint_buffer_size, 64);
    assert_eq!(skin.rest_offset, 3 * 64);
    assert_eq!(skin.rest_range, 6 * 64);
    assert_eq!(rest_offset(&UintRange { min: u32::MAX, max: u32::MAX }), (1 << 38) - 64);
    assert_eq!(skin.local_indices, vec![5, 4, 3, 2, 1, 0]);
    assert_eq!(skin.index_size, 24);
}

#[test]
fn thread_groups_cover_the_vertices() {
    assert_eq!(skinning_groups(0), 0);
    assert_eq!(skinning_groups(1), 1);
    assert_eq!(skinning_groups(128), 1);
    assert_eq!(skinning_groups(129), 2);
}

#[test]
fn single_bones_follow_the_model() {
    let still = rtx_vulkan_engine::player::AnimationPlayer::new(vec![]);
    let moving = rtx_vulkan_engine::player::AnimationPlayer::new(vec![AnimationClip {
        name: "a".to_string(),
        duration: 0,
        channels: vec![],
    }]);
    assert_eq!(dispatch_skin(1, &still), JointSource::World);
    assert_eq!(dispatch_skin(1, &moving), JointSource::Pose);
    assert_eq!(dispatch_skin(2, &still), JointSource::Pose);
    assert_eq!(prime_skin(1), JointSource::World);
    assert_eq!(prime_skin(0), JointSource::Pose);
}
