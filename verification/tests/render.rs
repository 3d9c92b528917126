use rtx_vulkan_engine::alignment::{
    align_up, mat4_to_vk_transform, pack_custom_index_and_mask, pack_sbt_offset_and_flags,
    scratch_address, scratch_buffer_size,
};
use rtx_vulkan_engine::descriptors::{
    create_descriptor_pool, create_descriptor_set_layout, create_descriptor_sets,
    create_skinning_descriptor_pool, recreate_descriptor_sets_for_geometry, write_kind,
    DescriptorKind, Resource, MAX_TEXTURES,
};
use rtx_vulkan_engine::frame::{
    after_acquire, elapsed_ticks, render, AcquireDecision, AcquireResult, FrameCommand,
    FrameImage, FrameState, ImageUse, PresentDecision, PresentResult,
};
use rtx_vulkan_engine::input::{
    key_action, resize_window, InputState, Key, KeyAction, WindowState,
};
use rtx_vulkan_engine::math::{Mat4, Vec4};
use rtx_vulkan_engine::ops::StringOrInt;
use rtx_vulkan_engine::pipeline::{
    create_rt_pipeline, create_shader_binding_table, handle_places, SbtLimits, ShaderKind,
    SHADER_UNUSED,
};
use rtx_vulkan_engine::swapchain::Extent;

#[test]
fn sizes_are_moved_up() {
    assert_eq!(align_up(0, 32), 0);
    assert_eq!(align_up(1, 32), 32);
    assert_eq!(align_up(32, 32), 32);
    assert_eq!(align_up(33, 64), 64);
    assert_eq!(scratch_address(0), 0);
    assert_eq!(scratch_address(1), 256);
    assert_eq!(scratch_address(256), 256);
    assert_eq!(scratch_address(257), 512);
    assert_eq!(scratch_buffer_size(100, 50), 356);
    assert_eq!(scratch_buffer_size(100, 500), 756);
}

#[test]
fn words_are_packed() {
    assert_eq!(pack_custom_index_and_mask(5, 0xFF), 0xFF00_0005);
    assert_eq!(pack_custom_index_and_mask(0x1234_5678, 1), 0x0134_5678);
    assert_eq!(pack_sbt_offset_and_flags(7, 2), 0x0200_0007);
    assert_eq!(pack_sbt_offset_and_flags(0, 0x1FF), 0xFF00_0000);
}

#[test]
fn transforms_are_row_by_row() {
    let column = |s: u32| Vec4 { x: s, y: s + 1, z: s + 2, w: s + 3 };
    let m = Mat4 { x: column(0), y: column(10), z: column(20), w: column(30) };
    assert_eq!(
        mat4_to_vk_transform(&m),
        [[0, 10, 20, 30], [1, 11, 21, 31], [2, 12, 22, 32]]
    );
}

#[test]
fn shader_groups() {
    let plan = create_rt_pipeline(true);
    assert_eq!(plan.stages.len(), 5);
    assert_eq!(plan.stages[4], ShaderKind::AnyHit);
    assert_eq!(plan.groups.len(), 4);
    assert_eq!(plan.groups[2].general, 2);
    assert_eq!(plan.groups[3].closest_hit, 3);
    assert_eq!(plan.groups[3].any_hit, 4);
    assert!(plan.groups[3].hits_triangles && !plan.groups[0].hits_triangles);
    let plan = create_rt_pipeline(false);
    assert_eq!(plan.stages.len(), 4);
    assert_eq!(plan.groups[3].any_hit, SHADER_UNUSED);
}

#[test]
fn table_of_shaders() {
    let limits = SbtLimits { handle_size: 24, handle_alignment: 32, base_alignment: 64 };
    assert!(limits.check());
    let plan = create_shader_binding_table(limits);
    assert_eq!((plan.raygen.offset, plan.raygen.size), (0, 32));
    assert_eq!((plan.miss.offset, plan.miss.size, plan.miss.stride), (64, 64, 32));
    assert_eq!((plan.hit.offset, plan.hit.size), (128, 32));
    assert_eq!(plan.size, 160);
    assert_eq!(plan.handle_data_size, 96);
    assert_eq!(handle_places(&plan), [0, 64, 96, 128]);
    let zero = SbtLimits { handle_size: 24, handle_alignment: 0, base_alignment: 64 };
    assert!(!zero.check());
    let huge = SbtLimits { handle_size: u32::MAX / 3, handle_alignment: 1, base_alignment: 1 };
    assert!(!huge.check());
}

#[test]
fn descriptor_layout() {
    let bindings = create_descriptor_set_layout();
    assert_eq!(bindings.len(), 8);
    for (i, b) in bindings.iter().enumerate() {
        assert_eq!(b.binding, i as u32);
        assert_eq!(b.variable, i == 7);
    }
    assert_eq!(bindings[7].count, MAX_TEXTURES);
    assert_eq!(bindings[6].kind, DescriptorKind::StorageImage);
}

#[test]
fn descriptor_pools() {
    let pool = create_descriptor_pool(3);
    assert_eq!(pool.max_sets, 3);
    let counts: Vec<u32> = pool.sizes.iter().map(|s| s.count).collect();
    assert_eq!(counts, vec![3, 3, 3, 3, 3, 9, 3 * 4096, 3]);
    let pool = create_skinning_descriptor_pool(0);
    assert_eq!((pool.sizes[0].count, pool.max_sets), (0, 1));
    let pool = create_skinning_descriptor_pool(5);
    assert_eq!((pool.sizes[0].count, pool.max_sets), (15, 5));
}

#[test]
fn descriptor_writes() {
    let layout = create_descriptor_set_layout();
    let writes = create_descriptor_sets(144, 2);
    assert_eq!(writes.len(), 8);
    for w in &writes {
        assert_eq!(write_kind(w.resource), layout[w.binding as usize].kind);
    }
    assert_eq!(writes[2].resource, Resource::Camera { size: 144 });
    assert_eq!(writes[7].resource, Resource::Textures { count: 2 });
    assert_eq!(create_descriptor_sets(144, 0).len(), 7);
    let again = recreate_descriptor_sets_for_geometry(2);
    let bindings: Vec<u32> = again.iter().map(|w| w.binding).collect();
    assert_eq!(bindings, vec![0, 3, 4, 5, 7]);
    assert!(again.iter().all(|w| writes.contains(w)));
    assert_eq!(recreate_descriptor_sets_for_geometry(0).len(), 4);
}

#[test]
fn frames_take_turns() {
    let mut state = FrameState::new(2);
    assert_eq!(state.begin(true).first_query, None);
    assert!(state.begin(true).apply_model_ops && !state.begin(false).apply_model_ops);
    let mut seen = vec![];
    for _ in 0..4 {
        seen.push(state.begin(false).frame);
        state.submitted();
        state.next();
    }
    assert_eq!(seen, vec![0, 1, 2, 0]);
    assert_eq!(state.begin(false).frame, 1);
    assert_eq!(state.begin(false).first_query, Some(2));
}

#[test]
fn images_are_waited_for() {
    let mut state = FrameState::new(2);
    assert_eq!(state.claim_image(1), None);
    state.next();
    assert_eq!(state.claim_image(1), Some(0));
    assert_eq!(state.claim_image(1), Some(1));
    assert_eq!(state.claim_image(0), None);
}

#[test]
fn samples_are_gathered_while_the_camera_stands() {
    let mut state = FrameState::new(1);
    state.count(false);
    assert_eq!((state.frame_index, state.accumulated_samples), (1, 0));
    state.count(false);
    state.count(false);
    assert_eq!(state.accumulated_samples, 2);
    state.count(true);
    assert_eq!((state.frame_index, state.accumulated_samples), (4, 0));
    state.frame_index = u32::MAX;
    state.count(false);
    assert_eq!((state.frame_index, state.accumulated_samples), (0, 1));
}

#[test]
fn acquiring_decides() {
    assert_eq!(after_acquire(AcquireResult::Image(2)), AcquireDecision::Draw(2));
    assert_eq!(after_acquire(AcquireResult::OutOfDate), AcquireDecision::Recreate);
    assert_eq!(after_acquire(AcquireResult::Failed), AcquireDecision::Fail);
}

#[test]
fn presenting_decides() {
    let mut state = FrameState::new(1);
    assert_eq!(state.presented(PresentResult::Shown), PresentDecision::Next);
    assert_eq!(state.presented(PresentResult::Suboptimal), PresentDecision::Recreate);
    assert_eq!(state.presented(PresentResult::OutOfDate), PresentDecision::Recreate);
    assert_eq!(state.presented(PresentResult::Failed), PresentDecision::Fail);
    state.resized = true;
    assert_eq!(state.presented(PresentResult::Failed), PresentDecision::Recreate);
    assert!(!state.resized);
}

#[test]
fn new_images_start_afresh() {
    let mut state = FrameState::new(1);
    state.count(false);
    state.count(false);
    state.submitted();
    state.claim_image(0);
    state.recreated(3);
    assert_eq!(state.accumulated_samples, 0);
    assert_eq!(state.frame_index, 2);
    assert_eq!(state.begin(false).first_query, None);
    assert_eq!(state.images_in_flight, vec![None; 3]);
    state.count(false);
    assert_eq!(state.accumulated_samples, 0);
}

#[test]
fn ticks_do_not_run_back() {
    assert_eq!(elapsed_ticks(5, 9), 4);
    assert_eq!(elapsed_ticks(9, 5), 0);
}

#[test]
fn steps_of_a_frame() {
    let steps = render(2, Extent { width: 17, height: 8 }, 40, 3);
    assert_eq!(steps.len(), 13);
    assert_eq!(steps[1], FrameCommand::ResetQueries { first_query: 4, count: 2 });
    assert_eq!(
        steps[4],
        FrameCommand::PushConstants { frame_index: 40, accumulated_samples: 3 }
    );
    assert_eq!(steps[8], FrameCommand::Dispatch { groups_x: 3, groups_y: 1 });
    assert_eq!(steps[12], FrameCommand::WriteTimestamp { at_end: true, query: 5 });
    // Follow the image that is shown.
    let mut layout = ImageUse::Undefined;
    for step in &steps {
        if let FrameCommand::Barrier { first, second, .. } = step {
            for t in [Some(*first), *second].into_iter().flatten() {
                if t.image == FrameImage::Swapchain {
                    assert!(t.from == ImageUse::Undefined || t.from == layout);
                    layout = t.to;
                }
            }
        }
        if let FrameCommand::Blit { .. } = step {
            assert_eq!(layout, ImageUse::TransferTarget);
        }
    }
    assert_eq!(layout, ImageUse::Present);
}

#[test]
fn keys_move_the_camera() {
    let mut input = InputState::new();
    input.set(Key::W, true);
    input.set(Key::A, true);
    input.set(Key::W, false);
    assert!(!input.forward && input.left && !input.right);
    input.set(Key::Space, true);
    input.set(Key::ControlLeft, true);
    input.set(Key::S, true);
    input.set(Key::D, true);
    assert!(input.up && input.down && input.back && input.right);
    let before = input;
    input.set(Key::P, true);
    assert_eq!(input, before);
}

#[test]
fn keys_ask_for_actions() {
    match key_action(Key::P, true, 0) {
        KeyAction::Play { model, clip } => {
            assert_eq!(model, 2);
            assert_eq!(clip, "Chop_Tree RT");
        }
        _ => panic!("P plays"),
    }
    assert!(matches!(key_action(Key::O, true, 0), KeyAction::AddModel));
    assert!(matches!(key_action(Key::L, true, 4), KeyAction::MoveModel(3)));
    assert!(matches!(
        key_action(Key::I, true, 4),
        KeyAction::RemoveModel(StringOrInt::Int(3))
    ));
    match key_action(Key::K, true, 0) {
        KeyAction::RemoveModel(StringOrInt::Str(name)) => assert_eq!(name, "Xenon"),
        _ => panic!("K removes by name"),
    }
    assert!(matches!(key_action(Key::Escape, true, 0), KeyAction::ToggleCursor));
    assert!(matches!(key_action(Key::Escape, false, 0), KeyAction::Nothing));
    assert!(matches!(key_action(Key::W, true, 0), KeyAction::Nothing));
    assert!(matches!(key_action(Key::Other, true, 0), KeyAction::Nothing));
}

#[test]
fn windows_without_area_are_minimized() {
    let open = WindowState { minimized: false, resized: false };
    let gone = resize_window(open, 0, 10);
    assert_eq!(gone, WindowState { minimized: true, resized: false });
    assert_eq!(
        resize_window(gone, 10, 10),
        WindowState { minimized: false, resized: true }
    );
}
