use rtx_vulkan_engine::device::{
    check_physical_device, check_physical_device_extensions, check_physical_device_rt_features,
    create_instance, create_logical_device, debug_log_level, device_extensions, enabled_layers,
    get_memory_type_index, needs_portability, pick_physical_device, DeviceError, DeviceFacts,
    LogLevel, QueueFamilyIndices, RtFeatures, SuitabilityError,
};
use rtx_vulkan_engine::swapchain::{
    create_swapchain, get_swapchain_extent, get_swapchain_present_mode,
    get_swapchain_surface_format, recreates_swapchain, Extent, SurfaceCapabilities, SurfaceFormat,
};

fn all_features() -> RtFeatures {
    RtFeatures {
        ray_tracing_pipeline: true,
        acceleration_structure: true,
        scalar_block_layout: true,
        buffer_device_address: true,
    }
}

fn good_device() -> DeviceFacts {
    DeviceFacts {
        graphics: vec![false, true],
        presents: vec![true],
        extensions: device_extensions(),
        features: all_features(),
        format_count: 1,
        present_mode_count: 1,
    }
}

#[test]
fn queue_families_are_the_first_that_fit() {
    let found = QueueFamilyIndices::get(&[false, true, true], &[false, false, true]).unwrap();
    assert_eq!((found.graphics, found.present), (1, 2));
    assert_eq!(found.unique(), vec![1, 2]);
    let same = QueueFamilyIndices { graphics: 0, present: 0 };
    assert_eq!(same.unique(), vec![0]);
    let error = QueueFamilyIndices::get(&[false], &[true]).unwrap_err();
    assert_eq!(error.0, "Missing required queue families");
    assert!(QueueFamilyIndices::get(&[true], &[]).is_err());
}

#[test]
fn suitability_errors_have_words() {
    assert_eq!(SuitabilityError("x").message(), "Missing x");
}

#[test]
fn memory_types() {
    let types = [0b001, 0b011, 0b111];
    assert_eq!(get_memory_type_index(0b111, 0b010, &types), Ok(1));
    assert_eq!(get_memory_type_index(0b101, 0b010, &types), Ok(2));
    assert_eq!(get_memory_type_index(0b111, 0, &types), Ok(0));
    let error = get_memory_type_index(0b001, 0b010, &types).unwrap_err();
    assert_eq!(error, DeviceError::NoMemoryType);
    assert_eq!(error.message(), "Failed to find suitable memory type.");
    let many = [0u32; 32];
    assert_eq!(get_memory_type_index(1 << 31, 0, &many), Ok(31));
}

#[test]
fn devices_are_checked_in_order() {
    assert!(check_physical_device(&good_device()).is_ok());
    let mut bad = good_device();
    bad.format_count = 0;
    assert_eq!(check_physical_device(&bad).unwrap_err().0, "Insufficient swapchain support.");
    bad.features.buffer_device_address = false;
    assert_eq!(
        check_physical_device(&bad).unwrap_err().0,
        "Missing buffer device address feature"
    );
    bad.extensions.pop();
    assert_eq!(
        check_physical_device(&bad).unwrap_err().0,
        "Missing required device extensions"
    );
    bad.presents = vec![false];
    assert_eq!(check_physical_device(&bad).unwrap_err().0, "Missing required queue families");
}

#[test]
fn features_are_checked_in_order() {
    let mut features = all_features();
    assert!(check_physical_device_rt_features(&features).is_ok());
    features.scalar_block_layout = false;
    features.buffer_device_address = false;
    assert_eq!(
        check_physical_device_rt_features(&features).unwrap_err().0,
        "Missing scalarBlockLayout feature"
    );
    features.acceleration_structure = false;
    assert_eq!(
        check_physical_device_rt_features(&features).unwrap_err().0,
        "Missing acceleration structure feature"
    );
    features.ray_tracing_pipeline = false;
    assert_eq!(
        check_physical_device_rt_features(&features).unwrap_err().0,
        "Missing ray tracing pipeline feature"
    );
}

#[test]
fn extensions_are_all_needed() {
    let required = device_extensions();
    assert_eq!(required.len(), 6);
    assert_eq!(required[0], "VK_KHR_swapchain");
    for skipped in 0..6 {
        let some: Vec<String> = required
            .iter()
            .enumerate()
            .filter(|(i, _)| *i != skipped)
            .map(|(_, e)| e.clone())
            .collect();
        assert!(check_physical_device_extensions(&some).is_err());
    }
    let mut more = required.clone();
    more.reverse();
    more.push("VK_other".to_string());
    assert!(check_physical_device_extensions(&more).is_ok());
}

#[test]
fn the_first_good_device_is_picked() {
    let mut bad = good_device();
    bad.graphics.clear();
    let devices = [None, Some(bad), Some(good_device()), Some(good_device())];
    assert_eq!(pick_physical_device(&devices), Ok(2));
    let error = pick_physical_device(&devices[..2]).unwrap_err();
    assert_eq!(error.message(), "Failed to find suitable physical device");
}

#[test]
fn portability_on_macos() {
    assert!(!needs_portability(false, 9, 9, 9));
    assert!(needs_portability(true, 1, 3, 216));
    assert!(!needs_portability(true, 1, 3, 215));
    assert!(needs_portability(true, 1, 4, 0));
    assert!(!needs_portability(true, 1, 2, 999));
    assert!(needs_portability(true, 2, 0, 0));
}

#[test]
fn instances_are_planned() {
    let window = || vec!["VK_KHR_surface".to_string()];
    let plan = create_instance(window(), false, false, &[]).ok().unwrap();
    assert_eq!(plan.extensions, window());
    assert!(plan.layers.is_empty() && !plan.debug_messenger && !plan.enumerate_portability);
    let layers = ["VK_LAYER_KHRONOS_validation".to_string()];
    let plan = create_instance(window(), true, true, &layers).ok().unwrap();
    assert_eq!(
        plan.extensions,
        vec![
            "VK_KHR_surface",
            "VK_KHR_get_physical_device_properties2",
            "VK_KHR_portability_enumeration",
            "VK_EXT_debug_utils",
        ]
    );
    assert_eq!(plan.layers, enabled_layers(true));
    assert!(plan.debug_messenger && plan.enumerate_portability);
    let error = create_instance(window(), false, true, &[]).err().unwrap();
    assert_eq!(error.message(), "Validation layer requested but not supported");
}

#[test]
fn devices_are_planned() {
    let indices = QueueFamilyIndices { graphics: 1, present: 0 };
    let plan = create_logical_device(indices, true, false, true).ok().unwrap();
    assert_eq!(plan.queue_families, vec![1, 0]);
    assert_eq!(plan.extensions.len(), 7);
    assert_eq!(plan.extensions[6], "VK_KHR_portability_subset");
    assert!(plan.layers.is_empty());
    let error = create_logical_device(indices, false, false, false).err().unwrap();
    assert_eq!(error.0, "Missing shaderInt64 feature");
}

#[test]
fn messages_have_levels() {
    assert_eq!(debug_log_level(0x1000), LogLevel::Error);
    assert_eq!(debug_log_level(0x100), LogLevel::Warn);
    assert_eq!(debug_log_level(0x10), LogLevel::Debug);
    assert_eq!(debug_log_level(0x1), LogLevel::Trace);
}

fn capabilities() -> SurfaceCapabilities {
    SurfaceCapabilities {
        min_image_count: 2,
        max_image_count: 0,
        current_extent: Extent { width: u32::MAX, height: u32::MAX },
        min_image_extent: Extent { width: 10, height: 20 },
        max_image_extent: Extent { width: 100, height: 200 },
    }
}

#[test]
fn surface_formats() {
    let other = SurfaceFormat { format: 44, color_space: 0 };
    let wanted = SurfaceFormat { format: 50, color_space: 0 };
    let near = SurfaceFormat { format: 50, color_space: 1 };
    assert_eq!(get_swapchain_surface_format(&[other, near, wanted]), wanted);
    assert_eq!(get_swapchain_surface_format(&[near, other]), near);
    assert_eq!(get_swapchain_present_mode(&[2]), 1);
}

#[test]
fn extents_are_clamped() {
    let e = |width, height| Extent { width, height };
    assert_eq!(get_swapchain_extent(e(50, 60), capabilities()), e(50, 60));
    assert_eq!(get_swapchain_extent(e(5, 600), capabilities()), e(10, 200));
    let mut fixed = capabilities();
    fixed.current_extent = e(640, 480);
    assert_eq!(get_swapchain_extent(e(5, 600), fixed), e(640, 480));
}

#[test]
fn swapchains_are_planned() {
    let format = SurfaceFormat { format: 50, color_space: 0 };
    let apart = QueueFamilyIndices { graphics: 0, present: 1 };
    let plan =
        create_swapchain(apart, capabilities(), &[format], &[1], Extent { width: 50, height: 60 });
    assert_eq!(plan.image_count, 3);
    assert_eq!(plan.sharing_families, vec![0, 1]);
    assert_eq!(plan.present_mode, 1);
    let mut few = capabilities();
    few.max_image_count = 2;
    let one = QueueFamilyIndices { graphics: 0, present: 0 };
    let plan = create_swapchain(one, few, &[format], &[1], Extent { width: 50, height: 60 });
    assert_eq!(plan.image_count, 2);
    assert!(plan.sharing_families.is_empty());
    assert!(recreates_swapchain(Extent { width: 1, height: 1 }));
    assert!(!recreates_swapchain(Extent { width: 0, height: 1 }));
}
