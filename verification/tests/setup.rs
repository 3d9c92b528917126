use rtx_vulkan_engine::frame::ImageUse;
use rtx_vulkan_engine::gltf_sources::{
    check_announced_length, check_positions, external_uris, gltf_uris, GltfError, GltfSources,
    ImageSource, PositionSources,
};
use rtx_vulkan_engine::image_plan::{
    create_accum_image, create_storage_image, create_texture_image, SetupStep,
};
use rtx_vulkan_engine::images::UploadFormat;
use rtx_vulkan_engine::input::{InputState, Key};
use rtx_vulkan_engine::lifecycle::{create, destroy, destroy_swapchain, recreate_swapchain, Part};
use rtx_vulkan_engine::swapchain::Extent;

const EXTENT: Extent = Extent { width: 4, height: 3 };

#[test]
fn blank_images() {
    let plan = create_storage_image(EXTENT);
    assert_eq!((plan.format, plan.extent), (97, EXTENT));
    assert!(plan.usage.storage && plan.usage.transfer_source && !plan.usage.sampled);
    assert_eq!(plan.staging_size, None);
    let to_general =
        SetupStep::Transition { from: ImageUse::Undefined, to: ImageUse::General };
    assert_eq!(plan.steps, vec![to_general]);
    let plan = create_accum_image(EXTENT);
    assert_eq!(plan.format, 109);
    assert!(plan.usage.storage && !plan.usage.transfer_source);
    assert_eq!(plan.steps, vec![to_general]);
}

#[test]
fn textures_are_filled_before_they_are_read() {
    let plan = create_texture_image(&[1, 2, 3], EXTENT, UploadFormat::R8G8B8A8Srgb);
    assert_eq!(plan.format, 43);
    assert_eq!(plan.staging_size, Some(3));
    assert!(plan.usage.sampled && plan.usage.transfer_target && !plan.usage.storage);
    assert_eq!(
        plan.steps,
        vec![
            SetupStep::Transition { from: ImageUse::Undefined, to: ImageUse::TransferTarget },
            SetupStep::Fill,
            SetupStep::ToShaderRead,
        ]
    );
    let numbers: Vec<i32> = [
        UploadFormat::R8Unorm,
        UploadFormat::R8G8Unorm,
        UploadFormat::R16Unorm,
        UploadFormat::R16G16Unorm,
        UploadFormat::R16G16B16A16Unorm,
    ]
    .into_iter()
    .map(|f| create_texture_image(&[], EXTENT, f).format)
    .collect();
    assert_eq!(numbers, vec![9, 16, 70, 77, 91]);
}

fn place(parts: &[Part], part: Part) -> usize {
    parts.iter().position(|p| *p == part).unwrap()
}

#[test]
fn setup_follows_needs() {
    let parts = create();
    assert_eq!(parts.len(), 30);
    assert_eq!(parts[0], Part::Instance);
    assert!(place(&parts, Part::Device) < place(&parts, Part::Swapchain));
    assert!(place(&parts, Part::SetLayout) < place(&parts, Part::RtPipeline));
    assert!(place(&parts, Part::RtPipeline) < place(&parts, Part::ShaderBindingTable));
    assert!(place(&parts, Part::Groups) < place(&parts, Part::Tlas));
    assert!(place(&parts, Part::Tlas) < place(&parts, Part::DescriptorSets));
}

#[test]
fn what_is_torn_down_is_renewed() {
    let torn = destroy_swapchain();
    let renewed = recreate_swapchain();
    assert!(torn.iter().all(|part| renewed.contains(part)));
    assert!(renewed.contains(&Part::DescriptorSets));
    assert_eq!(renewed[0], Part::Swapchain);
    assert_eq!(torn[torn.len() - 1], Part::Swapchain);
}

#[test]
fn device_and_instance_go_last() {
    for validation in [false, true] {
        let parts = destroy(validation);
        assert_eq!(parts.contains(&Part::Messenger), validation);
        assert_eq!(parts[parts.len() - 1], Part::Instance);
        assert_eq!(place(&parts, Part::Device), 14);
        assert_eq!(parts.len(), if validation { 18 } else { 17 });
    }
}

#[test]
fn opposite_keys_in_any_order() {
    let mut a = InputState::new();
    a.set(Key::W, true);
    a.set(Key::S, true);
    let mut b = InputState::new();
    b.set(Key::S, true);
    b.set(Key::W, true);
    assert_eq!(a, b);
}

#[test]
fn outside_files_are_named_in_order() {
    let uri = |s: &str| Some(s.to_string());
    let sources = GltfSources {
        buffers: vec![None, uri("a.bin"), uri("b.bin")],
        images: vec![
            ImageSource { in_buffer: false, uri: uri("x.png") },
            ImageSource { in_buffer: true, uri: uri("hidden.png") },
            ImageSource { in_buffer: true, uri: None },
            ImageSource { in_buffer: false, uri: None },
        ],
    };
    assert_eq!(external_uris(&sources), vec!["a.bin", "b.bin", "x.png"]);
}

#[test]
fn documents_name_their_files() {
    let json = r#"{
        "asset": {"version": "2.0"},
        "buffers": [{"byteLength": 4, "uri": "scene.bin"}, {"byteLength": 4}],
        "bufferViews": [{"buffer": 0, "byteLength": 4}],
        "images": [
            {"uri": "textures/wood.png"},
            {"bufferView": 0, "mimeType": "image/png"}
        ]
    }"#;
    assert!(check_announced_length(json.as_bytes()));
    assert_eq!(
        gltf_uris(json.as_bytes()),
        Ok(vec!["scene.bin".to_string(), "textures/wood.png".to_string()])
    );
    assert!(matches!(gltf_uris(b"{}"), Err(GltfError::Invalid(_))));
    assert!(matches!(gltf_uris(b"no document"), Err(GltfError::Invalid(_))));
    assert!(matches!(gltf_uris(b""), Err(GltfError::Invalid(_))));
}

#[test]
fn positions_come_from_accessors() {
    let positions = |accessors, meshes| PositionSources { accessors, meshes };
    assert!(check_positions(&positions(0, vec![])));
    assert!(check_positions(&positions(0, vec![vec![None], vec![]])));
    assert!(check_positions(&positions(2, vec![vec![Some(0), None], vec![Some(1)]])));
    assert!(!check_positions(&positions(2, vec![vec![Some(0)], vec![None, Some(2)]])));

    let lost = br#"{"asset":{"version":"2.0"},"meshes":[{"primitives":[{"attributes":{"POSITION":0}}]}]}"#;
    assert_eq!(gltf_uris(lost), Err(GltfError::PositionOutOfRange));
    let nowhere = br#"{"asset":{"version":"2.0"},"meshes":[{"primitives":[{"attributes":{}}]}]}"#;
    assert!(matches!(gltf_uris(nowhere), Err(GltfError::Invalid(_))));
    let found = br#"{
        "asset": {"version": "2.0"},
        "buffers": [{"byteLength": 12, "uri": "p.bin"}],
        "bufferViews": [{"buffer": 0, "byteLength": 12}],
        "accessors": [{
            "bufferView": 0, "componentType": 5126, "count": 1, "type": "VEC3",
            "min": [0, 0, 0], "max": [1, 1, 1]
        }],
        "meshes": [{"primitives": [{"attributes": {"POSITION": 0}}]}]
    }"#;
    assert_eq!(gltf_uris(found), Ok(vec!["p.bin".to_string()]));
}

#[test]
fn binary_documents_end_where_they_say() {
    let mut json = br#"{"asset":{"version":"2.0"},"buffers":[{"byteLength":4,"uri":"a.bin"}]}"#.to_vec();
    while json.len() % 4 != 0 {
        json.push(b' ');
    }
    let mut file = b"glTF\x02\0\0\0".to_vec();
    file.extend_from_slice(&(20 + json.len() as u32).to_le_bytes());
    file.extend_from_slice(&(json.len() as u32).to_le_bytes());
    file.extend_from_slice(b"JSON");
    file.extend_from_slice(&json);
    assert_eq!(gltf_uris(&file), Ok(vec!["a.bin".to_string()]));
    file.extend_from_slice(b"what follows is not read");
    assert_eq!(gltf_uris(&file), Ok(vec!["a.bin".to_string()]));
}

#[test]
fn binary_documents_announce_their_length() {
    let file = |version: u32, length: u32| {
        let mut bytes = b"glTF".to_vec();
        bytes.extend_from_slice(&version.to_le_bytes());
        bytes.extend_from_slice(&length.to_le_bytes());
        bytes
    };
    assert!(check_announced_length(b"glTF"));
    assert!(check_announced_length(&file(2, 12)));
    assert!(check_announced_length(&file(2, 256)));
    assert!(!check_announced_length(&file(2, 11)));
    assert!(!check_announced_length(&file(2, 0)));
    assert!(check_announced_length(&file(1, 0)));
    assert!(matches!(gltf_uris(&file(2, 12)), Err(GltfError::Invalid(_))));
    assert!(matches!(gltf_uris(&file(1, 0)), Err(GltfError::Invalid(_))));
}
