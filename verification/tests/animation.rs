use rtx_vulkan_engine::common::{AnimationChannel, AnimationClip, Bone, Skeleton};
use rtx_vulkan_engine::math::{Mat4, Quaternion, Vec3};
use rtx_vulkan_engine::player::{first_containing, AnimationPlayer};
use rtx_vulkan_engine::pose::{
    bone_order, sample_track, BonePose, TrackSample, Visit,
};

fn bits(x: f32) -> u32 {
    x.to_bits()
}

fn clip(name: &str, duration: f32, channels: Vec<AnimationChannel>) -> AnimationClip {
    AnimationClip { name: name.to_string(), duration: bits(duration), channels }
}

fn channel(bone_index: usize, times: &[f32]) -> AnimationChannel {
    AnimationChannel {
        bone_index,
        translations: times.iter().map(|t| (bits(*t), Vec3::new(0, 0, 0))).collect(),
        rotations: vec![],
        scales: vec![],
    }
}

fn bone(children: Vec<usize>) -> Bone {
    Bone {
        node_index: 0,
        name: String::new(),
        children,
        local_transform: Mat4::identity(),
        inverse_bind_matrix: Mat4::identity(),
    }
}

#[test]
fn players_start_at_rest() {
    let player = AnimationPlayer::new(vec![clip("Walk", 1.0, vec![])]);
    assert!(!player.is_playing());
    assert_eq!(player.current_clip_name(), None);
    assert_eq!(player.time(), bits(0.0));
    assert!(player.looping);
    assert_eq!(player.speed, bits(1.0));
    assert!(!player.has_no_clips());
    assert!(AnimationPlayer::new(vec![]).has_no_clips());
}

#[test]
fn the_last_clip_of_a_name_counts() {
    let player = AnimationPlayer::new(vec![
        clip("a", 1.0, vec![]),
        clip("b", 2.0, vec![]),
        clip("a", 3.0, vec![channel(0, &[])]),
    ]);
    let mut names = player.list_clips();
    names.sort();
    assert_eq!(names, vec!["a", "b"]);
    let mut details = player.clip_details();
    details.sort();
    assert_eq!(details, vec![("a", bits(3.0), 1), ("b", bits(2.0), 0)]);
}

#[test]
fn playing_and_stopping() {
    let mut player = AnimationPlayer::new(vec![clip("Walk", 1.0, vec![])]);
    player.resume();
    assert!(!player.is_playing());
    player.play("Run");
    assert!(!player.is_playing() && player.current_clip_name().is_none());
    player.play("Walk");
    assert!(player.is_playing());
    assert_eq!(player.current_clip_name(), Some("Walk"));
    assert_eq!(player.current_clip().unwrap().duration, bits(1.0));
    player.advance(bits(0.5), bits(0.5));
    assert_eq!(player.time(), bits(0.5));
    player.pause();
    player.advance(bits(0.9), bits(0.9));
    assert_eq!(player.time(), bits(0.5));
    player.resume();
    assert!(player.is_playing());
    player.stop();
    assert!(!player.is_playing());
    assert_eq!(player.time(), bits(0.0));
    assert_eq!(player.current_clip_name(), Some("Walk"));
}

#[test]
fn clips_start_over_or_end() {
    let mut player = AnimationPlayer::new(vec![clip("Walk", 1.0, vec![])]);
    player.play("Walk");
    // Exactly at the end nothing happens yet.
    player.advance(bits(1.0), bits(0.0));
    assert_eq!(player.time(), bits(1.0));
    player.advance(bits(1.25), bits(0.25));
    assert_eq!(player.time(), bits(0.25));
    assert!(player.is_playing());
    player.looping = false;
    player.advance(bits(1.5), bits(0.5));
    assert_eq!(player.time(), bits(1.0));
    assert!(!player.is_playing());
}

#[test]
fn fuzzy_names() {
    let mut player = AnimationPlayer::new(vec![
        clip("Chop_Tree RT", 1.0, vec![]),
        clip("WALK forward", 1.0, vec![]),
    ]);
    player.play_fuzzy("walk");
    assert_eq!(player.current_clip_name(), Some("WALK forward"));
    player.play_fuzzy("TREE rt");
    assert_eq!(player.current_clip_name(), Some("Chop_Tree RT"));
    player.play_fuzzy("swim");
    assert_eq!(player.current_clip_name(), Some("Chop_Tree RT"));
    let names = ["abc".to_string(), "bcd".to_string()];
    assert_eq!(first_containing(&names, "cd"), Some(1));
    assert_eq!(first_containing(&names, "bc"), Some(0));
    assert_eq!(first_containing(&names, ""), Some(0));
    assert_eq!(first_containing(&names, "x"), None);
}

#[test]
fn tracks_are_read() {
    let keys: Vec<(u32, u8)> = vec![(bits(1.0), 1), (bits(2.0), 2), (bits(2.0), 3), (bits(4.0), 4)];
    assert_eq!(sample_track::<u8>(&[], bits(0.0)), TrackSample::Missing);
    assert_eq!(sample_track(&keys, bits(-1.0)), TrackSample::Key(0));
    assert_eq!(sample_track(&keys, bits(1.0)), TrackSample::Key(0));
    assert_eq!(
        sample_track(&keys, bits(1.5)),
        TrackSample::Between { later: 1, blends: true }
    );
    assert_eq!(
        sample_track(&keys, bits(2.0)),
        TrackSample::Between { later: 3, blends: true }
    );
    assert_eq!(sample_track(&keys, bits(4.0)), TrackSample::Key(3));
    assert_eq!(sample_track(&keys, bits(9.0)), TrackSample::Key(3));
    let keys = [(f32::NAN.to_bits(), 1u8), (bits(1.0), 2)];
    assert_eq!(sample_track(&keys, bits(1.0)), TrackSample::Key(1));
    assert_eq!(sample_track(&keys, bits(2.0)), TrackSample::Key(1));
}

#[test]
fn tracks_agree_with_partitioning() {
    let times = [0.0f32, 0.5, 0.75, 1.0, 3.0, 3.5];
    let keys: Vec<(u32, ())> = times.iter().map(|t| (bits(*t), ())).collect();
    for i in 1..70 {
        let t = i as f32 * 0.05;
        if t >= 3.5 {
            continue;
        }
        let later = times.partition_point(|&time| time <= t);
        assert_eq!(
            sample_track(&keys, bits(t)),
            TrackSample::Between { later, blends: true }
        );
    }
}

#[test]
fn channels_give_samples() {
    let c = AnimationChannel {
        bone_index: 0,
        translations: vec![],
        rotations: vec![(bits(1.0), Quaternion { v: Vec3::new(0, 0, 0), s: bits(1.0) })],
        scales: vec![(bits(0.0), Vec3::new(1, 1, 1)), (bits(2.0), Vec3::new(2, 2, 2))],
    };
    assert_eq!(c.sample_translation(bits(1.0)), TrackSample::Missing);
    assert_eq!(c.sample_rotation(bits(5.0)), TrackSample::Key(0));
    assert_eq!(c.sample_scale(bits(1.0)), TrackSample::Between { later: 1, blends: true });
}

#[test]
fn tracks_that_start_with_nan_have_an_end() {
    let odd = clip("odd", 1.0, vec![channel(0, &[f32::NAN, 1.0])]);
    assert!(odd.is_readable(1, bits(1.0)));
    assert!(!odd.is_readable(1, bits(0.5)));
    let unending = clip("unending", 1.0, vec![channel(0, &[f32::NAN, f32::NAN])]);
    assert!(!unending.is_readable(1, bits(9.0)));
}

#[test]
fn the_last_channel_of_a_bone_counts() {
    let skeleton = Skeleton {
        bones: vec![bone(vec![1]), bone(vec![2]), bone(vec![])],
        root_bones: vec![0],
    };
    let clip = clip("c", 1.0, vec![channel(1, &[0.0]), channel(2, &[]), channel(1, &[0.0, 1.0])]);
    assert!(clip.is_readable(3, bits(0.5)));
    assert!(!clip.is_readable(2, bits(0.5)));
    assert!(!clip.is_readable(3, f32::NAN.to_bits()));
    let poses = clip.sample_local_transforms(&skeleton, bits(0.5));
    assert_eq!(poses[0], BonePose::Rest);
    match poses[1] {
        BonePose::Keyed { channel, sample } => {
            assert_eq!(channel, 2);
            assert_eq!(sample.translation, TrackSample::Between { later: 1, blends: true });
            assert_eq!(sample.rotation, TrackSample::Missing);
        }
        BonePose::Rest => panic!("the bone is moved"),
    }
    match poses[2] {
        BonePose::Keyed { channel, sample } => {
            assert_eq!(channel, 1);
            assert_eq!(sample.translation, TrackSample::Missing);
        }
        BonePose::Rest => panic!("the bone has a channel"),
    }
}

#[test]
fn parents_come_before_children() {
    let skeleton = Skeleton {
        bones: vec![bone(vec![]), bone(vec![3, 0]), bone(vec![]), bone(vec![])],
        root_bones: vec![1, 2],
    };
    let order = bone_order(&skeleton).unwrap();
    let visit = |bone, parent| Visit { bone, parent };
    assert_eq!(
        order,
        vec![visit(1, None), visit(3, Some(1)), visit(0, Some(1)), visit(2, None)]
    );
}

#[test]
fn cycles_and_missing_bones_have_no_order() {
    let cycle = Skeleton { bones: vec![bone(vec![1]), bone(vec![0])], root_bones: vec![0] };
    assert!(bone_order(&cycle).is_none());
    let missing = Skeleton { bones: vec![bone(vec![5])], root_bones: vec![0] };
    assert!(bone_order(&missing).is_none());
    let root = Skeleton { bones: vec![bone(vec![])], root_bones: vec![1] };
    assert!(bone_order(&root).is_none());
}

#[test]
fn posing_a_skeleton() {
    let skeleton = Skeleton { bones: vec![bone(vec![1]), bone(vec![])], root_bones: vec![0] };
    let mut player = AnimationPlayer::new(vec![
        clip("move", 1.0, vec![channel(1, &[0.0])]),
        clip("bad", 1.0, vec![channel(7, &[0.0])]),
    ]);
    assert!(player.can_sample(&skeleton));
    let plan = player.sample(&skeleton);
    assert_eq!(plan.locals, vec![BonePose::Rest, BonePose::Rest]);
    assert_eq!(plan.order.len(), 2);
    player.play("move");
    assert!(player.can_sample(&skeleton));
    let plan = player.sample(&skeleton);
    assert_eq!(plan.locals[0], BonePose::Rest);
    assert!(matches!(plan.locals[1], BonePose::Keyed { channel: 0, .. }));
    player.play("bad");
    assert!(!player.can_sample(&skeleton));
}
