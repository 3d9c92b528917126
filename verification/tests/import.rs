use rtx_vulkan_engine::math::{Mat4, Quaternion, Vec2, Vec3};
use rtx_vulkan_engine::mesh_import::{
    check_parts, convert_materials, load_gltf, ImportError, MaterialData, MeshData, PrimitiveData,
};
use rtx_vulkan_engine::rig_import::{
    extract_animations, extract_skeleton, AnimationData, JointData, SkinData, TrackData,
    TrackSource,
};

fn bits(x: f32) -> u32 {
    x.to_bits()
}

fn points(n: u32) -> Vec<Vec3> {
    (0..n).map(|i| Vec3::new(i, 0, 0)).collect()
}

fn part(n: u32) -> PrimitiveData {
    PrimitiveData {
        triangles: true,
        positions: Some(points(n)),
        normals: points(n),
        uvs: None,
        joints: None,
        weights: None,
        indices: None,
        material: None,
    }
}

#[test]
fn parts_are_put_one_behind_the_other() {
    let mut second = part(4);
    second.indices = Some(vec![0, 1, 2, 2, 1, 3]);
    second.material = Some(5);
    second.uvs = Some(vec![Vec2::new(1, 2); 4]);
    second.joints = Some(vec![[1, 2, 3, 4]; 4]);
    second.weights = Some(vec![[9, 8, 7, 6]; 4]);
    let mesh = load_gltf(&[part(3), second]).unwrap();
    assert_eq!(mesh.vertices.len(), 7);
    assert_eq!(mesh.indices, vec![0, 1, 2, 3, 4, 5, 5, 4, 6]);
    assert_eq!(mesh.material_ids, vec![0, 5, 5]);
    assert_eq!(mesh.vertices[0].joint_indices, [0; 4]);
    assert_eq!(mesh.vertices[0].joint_weights, [bits(1.0), 0, 0, 0]);
    assert_eq!(mesh.vertices[0].uv, Vec2::new(0, 0));
    assert_eq!(mesh.vertices[3].joint_indices, [1, 2, 3, 4]);
    assert_eq!(mesh.vertices[3].joint_weights, [9, 8, 7, 6]);
    assert_eq!(mesh.vertices[6].pos, Vec3::new(3, 0, 0));
}

#[test]
fn the_shortest_list_decides() {
    let mut p = part(5);
    p.normals = points(4);
    p.uvs = Some(vec![Vec2::new(0, 0); 3]);
    let mesh = load_gltf(&[p]).unwrap();
    assert_eq!(mesh.vertices.len(), 3);
    // The indices still count all positions; two of them make no triangle.
    assert_eq!(mesh.indices, vec![0, 1, 2, 3, 4]);
    assert_eq!(mesh.material_ids, vec![0]);
}

#[test]
fn lines_are_passed_over_and_positions_needed() {
    let mut lines = part(2);
    lines.triangles = false;
    lines.positions = None;
    let mesh = load_gltf(&[lines, part(3)]).unwrap();
    assert_eq!(mesh.vertices.len(), 3);
    let mut missing = part(3);
    missing.positions = None;
    let error = load_gltf(&[part(3), missing]).err().unwrap();
    assert_eq!(error, ImportError::MissingPositions);
    assert_eq!(error.message(), "Primitive missing POSITION attribute");
}

#[test]
fn parts_that_do_not_fit_are_noticed() {
    let mut p = part(3);
    p.indices = Some(vec![0, 1, u32::MAX]);
    assert!(p.check_fit(0));
    assert!(!p.check_fit(1));
    assert!(part(3).check_fit(1000));
    let missing = || PrimitiveData { positions: None, ..part(3) };
    let lines = || PrimitiveData { triangles: false, ..part(2) };
    let high = || PrimitiveData { indices: Some(vec![0, 1, u32::MAX]), ..part(3) };
    assert!(check_parts(&[]));
    assert!(check_parts(&[high(), part(3)]));
    assert!(check_parts(&[lines(), high()]));
    assert!(!check_parts(&[part(3), high()]));
    assert!(check_parts(&[part(3), missing(), high()]));
    assert_eq!(part(3).raw_indices(), vec![0, 1, 2]);
    let mut mesh = MeshData::new();
    assert!(mesh.push_primitive(&part(3)).is_ok());
    assert_eq!(mesh.indices.len(), 3);
}

fn bare_material() -> MaterialData {
    MaterialData {
        base_color: Vec3::new(1, 2, 3),
        base_color_texture: None,
        metallic: 4,
        roughness: 5,
        emission: Vec3::new(6, 7, 8),
        transmission: None,
        ior: None,
        specular: None,
        clearcoat: None,
        sheen_color: None,
    }
}

#[test]
fn materials_have_defaults() {
    let out = convert_materials(&[bare_material()]);
    let m = &out[0];
    assert_eq!(m.albedo, Vec3::new(1, 2, 3));
    assert_eq!(m.albedo_texture_index, -1);
    assert_eq!((m.metallic, m.roughness), (4, 5));
    assert_eq!(m.emission, Vec3::new(6, 7, 8));
    assert_eq!(m.transmission, bits(0.0));
    assert_eq!(m.ior, bits(1.5));
    assert_eq!(m.specular, bits(1.0));
    assert_eq!((m.clearcoat, m.clearcoat_roughness, m.sheen), (0, 0, 0));
    assert_eq!(m.sheen_color, Vec3::new(0, 0, 0));
}

#[test]
fn materials_keep_what_is_given() {
    let mut given = bare_material();
    given.base_color_texture = Some(12);
    given.transmission = Some(20);
    given.ior = Some(21);
    given.specular = Some(22);
    given.clearcoat = Some((23, 24));
    given.sheen_color = Some(Vec3::new(25, 26, 27));
    let m = given.convert();
    assert_eq!(m.albedo_texture_index, 12);
    assert_eq!((m.transmission, m.ior, m.specular), (20, 21, 22));
    assert_eq!((m.clearcoat, m.clearcoat_roughness), (23, 24));
    assert_eq!(m.sheen, bits(1.0));
    assert_eq!(m.sheen_color, Vec3::new(25, 26, 27));
}

fn joint(node: usize, children: &[usize]) -> JointData {
    JointData { node, children: children.to_vec(), local_transform: Mat4::identity() }
}

fn skin() -> Option<SkinData> {
    Some(SkinData {
        joints: vec![joint(10, &[30, 99]), joint(20, &[10]), joint(30, &[])],
        inverse_bind_matrices: None,
    })
}

#[test]
fn skeletons_are_made_of_joints() {
    assert!(extract_skeleton(&None).is_none());
    let skeleton = extract_skeleton(&skin()).unwrap();
    assert_eq!(skeleton.bones.len(), 3);
    // A child that is no joint is left out.
    assert_eq!(skeleton.bones[0].children, vec![2]);
    assert_eq!(skeleton.bones[1].children, vec![0]);
    assert_eq!(skeleton.bones[1].node_index, 20);
    assert_eq!(skeleton.root_bones, vec![1]);
    assert_eq!(skeleton.bones[0].inverse_bind_matrix, Mat4::identity());
}

#[test]
fn the_last_joint_of_a_node_counts() {
    let mut first = Mat4::identity();
    first.x.x = 77;
    let skin = Some(SkinData {
        joints: vec![joint(1, &[]), joint(2, &[1]), joint(1, &[])],
        inverse_bind_matrices: Some(vec![first, Mat4::identity(), Mat4::identity()]),
    });
    let skeleton = extract_skeleton(&skin).unwrap();
    assert_eq!(skeleton.bones[1].children, vec![2]);
    assert_eq!(skeleton.root_bones, vec![0, 1]);
    assert_eq!(skeleton.bones[0].inverse_bind_matrix, first);
}

fn track(node: Option<usize>, times: Option<&[f32]>, values: TrackData) -> TrackSource {
    TrackSource {
        target_node: node,
        times: times.map(|t| t.iter().map(|x| bits(*x)).collect()),
        values,
    }
}

#[test]
fn animations_become_clips() {
    let skeleton = extract_skeleton(&skin()).unwrap();
    let rotation = Quaternion { v: Vec3::new(1, 2, 3), s: 4 };
    let animations = [
        AnimationData {
            name: Some("Walk".to_string()),
            tracks: vec![
                track(Some(20), Some(&[0.0, 1.5]), TrackData::Translations(points(2))),
                track(Some(99), Some(&[0.0, 9.0]), TrackData::Translations(points(2))),
                track(Some(20), Some(&[0.0, 0.5]), TrackData::Rotations(vec![rotation])),
                track(Some(30), None, TrackData::Scales(points(1))),
                track(Some(10), Some(&[0.25]), TrackData::Scales(points(3))),
            ],
        },
        AnimationData {
            name: None,
            tracks: vec![track(Some(10), Some(&[]), TrackData::Other)],
        },
        AnimationData {
            name: Some("Camera".to_string()),
            tracks: vec![track(Some(99), Some(&[1.0]), TrackData::Other)],
        },
        AnimationData {
            name: Some("Broken".to_string()),
            tracks: vec![
                track(Some(10), Some(&[1.0]), TrackData::Other),
                track(None, Some(&[1.0]), TrackData::Other),
            ],
        },
    ];
    let clips = extract_animations(&animations, &skeleton);
    assert_eq!(clips.len(), 2);
    assert_eq!(clips[0].name, "Walk");
    assert_eq!(clips[0].duration, bits(1.5));
    assert_eq!(clips[0].channels.len(), 2);
    let walk = &clips[0].channels[0];
    assert_eq!(walk.bone_index, 1);
    assert_eq!(walk.translations.len(), 2);
    assert_eq!(walk.translations[1], (bits(1.5), Vec3::new(1, 0, 0)));
    assert_eq!(walk.rotations, vec![(bits(0.0), rotation)]);
    assert_eq!(clips[0].channels[1].bone_index, 0);
    assert_eq!(clips[0].channels[1].scales.len(), 1);
    assert_eq!(clips[1].name, "unnamed_animation");
    assert_eq!(clips[1].duration, bits(0.0));
}

#[test]
fn later_tracks_replace_earlier_ones() {
    let skeleton = extract_skeleton(&skin()).unwrap();
    let animations = [AnimationData {
        name: None,
        tracks: vec![
            track(Some(10), Some(&[0.0, f32::NAN]), TrackData::Translations(points(2))),
            track(Some(10), Some(&[0.5]), TrackData::Translations(points(1))),
        ],
    }];
    let clips = extract_animations(&animations, &skeleton);
    assert_eq!(clips[0].channels.len(), 1);
    assert_eq!(clips[0].channels[0].translations, vec![(bits(0.5), Vec3::new(0, 0, 0))]);
    // A time that is no number does not count.
    assert_eq!(clips[0].duration, bits(0.5));
}
