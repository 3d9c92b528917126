//! Putting the skeleton and the animations of a file together.

use crate::common::{
    AnimationChannel, AnimationClip, Bone, BoneView, ChannelView, ClipView, Skeleton, SkeletonView,
};
use crate::math::{
    below, f32_is_nan, f32_le, f32_lt, is_nan, F32Bits, Mat4, Quaternion, Vec3, F32_ZERO,
};
use crate::records::views;
use std::collections::HashMap;
use vstd::prelude::*;
use vstd::string::StringExecFns;

verus! {

broadcast use vstd::std_specs::hash::group_hash_axioms;

/// A node of the file that is a joint: its number, those of its children, and its transform.
pub struct JointData {
    pub node: usize,
    pub children: Vec<usize>,
    pub local_transform: Mat4,
}

/// The joints of a file, and the matrices that take each of them back to where it is bound.
pub struct SkinData {
    pub joints: Vec<JointData>,
    pub inverse_bind_matrices: Option<Vec<Mat4>>,
}

/// The numbers of nodes with their places in a list. Of several with the same number the last
/// counts.
pub open spec fn places(nodes: Seq<usize>) -> Map<usize, usize>
    decreases nodes.len(),
{
    if nodes.len() == 0 {
        Map::empty()
    } else {
        places(nodes.drop_last()).insert(nodes.last(), (nodes.len() - 1) as usize)
    }
}

/// The places of those nodes that have one, in their order.
pub open spec fn known_places(nodes: Seq<usize>, map: Map<usize, usize>) -> Seq<usize>
    decreases nodes.len(),
{
    if nodes.len() == 0 {
        Seq::empty()
    } else if map.contains_key(nodes.last()) {
        known_places(nodes.drop_last(), map).push(map[nodes.last()])
    } else {
        known_places(nodes.drop_last(), map)
    }
}

/// The numbers of the joints' nodes.
pub open spec fn joint_nodes(joints: Seq<JointData>) -> Seq<usize> {
    Seq::new(joints.len(), |i: int| joints[i].node)
}

/// The bone that a joint becomes.
pub open spec fn joint_bone(skin: SkinData, i: int) -> BoneView {
    let joint = skin.joints@[i];
    BoneView {
        node_index: joint.node,
        name: Seq::empty(),
        children: known_places(joint.children@, places(joint_nodes(skin.joints@))),
        local_transform: joint.local_transform,
        inverse_bind_matrix: match skin.inverse_bind_matrices {
            Some(list) => list@[i],
            None => Mat4::spec_identity(),
        },
    }
}

/// Whether a bone is a child of another.
pub open spec fn is_child(bones: Seq<BoneView>, bone: usize) -> bool {
    exists|b: int| 0 <= b < bones.len() && (#[trigger] bones[b]).children.contains(bone)
}

/// Those of the first `n` bones that are no bone's child.
pub open spec fn roots(bones: Seq<BoneView>, n: int) -> Seq<usize>
    decreases n,
{
    if n <= 0 {
        Seq::empty()
    } else if is_child(bones, (n - 1) as usize) {
        roots(bones, n - 1)
    } else {
        roots(bones, n - 1).push((n - 1) as usize)
    }
}

/// The skeleton that the joints of a file become.
pub open spec fn skin_skeleton(skin: SkinData) -> SkeletonView {
    let bones = Seq::new(skin.joints@.len(), |i: int| joint_bone(skin, i));
    SkeletonView { bones, root_bones: roots(bones, bones.len() as int) }
}

impl SkinData {
    /// There is a matrix for every joint.
    pub open spec fn wf(&self) -> bool {
        self.inverse_bind_matrices matches Some(list) ==> list@.len() >= self.joints@.len()
    }
}

/// The places of numbers in a list.
fn index_places(nodes: &Vec<usize>) -> (out: HashMap<usize, usize>)
    ensures
        out@ == places(nodes@),
{
    let mut map: HashMap<usize, usize> = HashMap::new();
    let mut i: usize = 0;
    proof {
        assert(nodes@.take(0) =~= Seq::<usize>::empty());
    }
    while i < nodes.len()
        invariant
            i <= nodes@.len(),
            map@ == places(nodes@.take(i as int)),
        decreases nodes@.len() - i,
    {
        proof {
            assert(nodes@.take(i + 1).drop_last() =~= nodes@.take(i as int));
            assert(nodes@.take(i + 1).last() == nodes@[i as int]);
        }
        map.insert(nodes[i], i);
        i = i + 1;
    }
    proof {
        assert(nodes@.take(i as int) =~= nodes@);
    }
    map
}

/// The places of those nodes that have one.
fn find_places(nodes: &Vec<usize>, map: &HashMap<usize, usize>) -> (out: Vec<usize>)
    ensures
        out@ == known_places(nodes@, map@),
{
    let mut out: Vec<usize> = Vec::new();
    let mut i: usize = 0;
    proof {
        assert(nodes@.take(0) =~= Seq::<usize>::empty());
    }
    while i < nodes.len()
        invariant
            i <= nodes@.len(),
            out@ == known_places(nodes@.take(i as int), map@),
        decreases nodes@.len() - i,
    {
        proof {
            assert(nodes@.take(i + 1).drop_last() =~= nodes@.take(i as int));
            assert(nodes@.take(i + 1).last() == nodes@[i as int]);
        }
        if let Some(place) = map.get(&nodes[i]) {
            out.push(*place);
        }
        i = i + 1;
    }
    proof {
        assert(nodes@.take(i as int) =~= nodes@);
    }
    out
}

/// Whether a number is in a list.
fn holds(list: &Vec<usize>, number: usize) -> (out: bool)
    ensures
        out == list@.contains(number),
{
    let mut i: usize = 0;
    while i < list.len()
        invariant
            i <= list@.len(),
            forall|j: int| 0 <= j < i ==> list@[j] != number,
        decreases list@.len() - i,
    {
        if list[i] == number {
            proof {
                assert(list@[i as int] == number);
            }
            return true;
        }
        i = i + 1;
    }
    false
}

/// Whether a bone is a child of another.
fn has_parent(bones: &Vec<Bone>, bone: usize) -> (out: bool)
    ensures
        out == is_child(views(bones@), bone),
{
    let mut b: usize = 0;
    while b < bones.len()
        invariant
            b <= bones@.len(),
            forall|k: int|
                0 <= k < b ==> !(#[trigger] views(bones@)[k]).children.contains(bone),
        decreases bones@.len() - b,
    {
        if holds(&bones[b].children, bone) {
            proof {
                assert(views(bones@)[b as int].children.contains(bone));
            }
            return true;
        }
        proof {
            assert(views(bones@)[b as int] == bones@[b as int]@);
        }
        b = b + 1;
    }
    false
}

/// Makes a skeleton of the joints of a file. A file without joints has none.
#[verifier::rlimit(40)]
pub fn extract_skeleton(skin: &Option<SkinData>) -> (out: Option<Skeleton>)
    requires
        skin matches Some(skin) ==> skin.wf(),
    ensures
        match *skin {
            Some(skin) => out is Some && out->Some_0@ == skin_skeleton(skin),
            None => out is None,
        },
        *skin matches Some(skin) ==> {
            let bones = out->Some_0.bones@;
            &&& bones.len() == skin.joints@.len()
            &&& forall|i: int|
                0 <= i < bones.len() ==> {
                    &&& (#[trigger] bones[i]).node_index == skin.joints@[i].node
                    &&& bones[i].name@.len() == 0
                    &&& bones[i].local_transform == skin.joints@[i].local_transform
                    &&& skin.inverse_bind_matrices matches Some(list) ==> bones[i].inverse_bind_matrix
                        == list@[i]
                    &&& skin.inverse_bind_matrices is None ==> bones[i].inverse_bind_matrix
                        == Mat4::spec_identity()
                }
        },
{
    let skin = match skin {
        Some(skin) => skin,
        None => return None,
    };
    let ghost expected = skin_skeleton(*skin);
    let mut nodes: Vec<usize> = Vec::new();
    let mut i: usize = 0;
    while i < skin.joints.len()
        invariant
            i <= skin.joints@.len(),
            nodes@ == joint_nodes(skin.joints@).take(i as int),
        decreases skin.joints@.len() - i,
    {
        nodes.push(skin.joints[i].node);
        proof {
            assert(nodes@ =~= joint_nodes(skin.joints@).take(i + 1));
        }
        i = i + 1;
    }
    proof {
        assert(nodes@ =~= joint_nodes(skin.joints@));
    }
    let node_to_bone = index_places(&nodes);
    let mut bones: Vec<Bone> = Vec::new();
    let mut i: usize = 0;
    while i < skin.joints.len()
        invariant
            i <= skin.joints@.len(),
            skin.wf(),
            node_to_bone@ == places(joint_nodes(skin.joints@)),
            bones@.len() == i,
            forall|k: int| 0 <= k < i ==> (#[trigger] bones@[k])@ == joint_bone(*skin, k),
        decreases skin.joints@.len() - i,
    {
        let joint = &skin.joints[i];
        let inverse_bind_matrix = match &skin.inverse_bind_matrices {
            Some(list) => list[i],
            None => Mat4::identity(),
        };
        let bone = Bone {
            node_index: joint.node,
            name: String::new(),
            children: find_places(&joint.children, &node_to_bone),
            local_transform: joint.local_transform,
            inverse_bind_matrix,
        };
        proof {
            assert(bone@ == joint_bone(*skin, i as int));
        }
        bones.push(bone);
        i = i + 1;
    }
    proof {
        assert(views(bones@) =~= expected.bones);
    }
    let mut root_bones: Vec<usize> = Vec::new();
    let mut i: usize = 0;
    while i < bones.len()
        invariant
            i <= bones@.len(),
            root_bones@ == roots(views(bones@), i as int),
        decreases bones@.len() - i,
    {
        if !has_parent(&bones, i) {
            root_bones.push(i);
        }
        i = i + 1;
    }
    proof {
        assert forall|i: int| 0 <= i < bones@.len() implies (#[trigger] bones@[i])@ == joint_bone(
            *skin,
            i,
        ) by {
            assert(views(bones@)[i] == bones@[i]@);
        }
    }
    Some(Skeleton { bones, root_bones })
}

proof fn lemma_places(nodes: Seq<usize>)
    requires
        nodes.len() <= usize::MAX,
    ensures
        forall|node: usize| #[trigger]
            places(nodes).contains_key(node) ==> places(nodes)[node] < nodes.len()
                && nodes[places(nodes)[node] as int] == node,
    decreases nodes.len(),
{
    if nodes.len() > 0 {
        lemma_places(nodes.drop_last());
        assert forall|node: usize| #[trigger] places(nodes).contains_key(node) implies places(
            nodes,
        )[node] < nodes.len() && nodes[places(nodes)[node] as int] == node by {
            if node != nodes.last() {
                assert(places(nodes.drop_last()).contains_key(node));
            }
        }
    }
}

proof fn lemma_known_places(nodes: Seq<usize>, map: Map<usize, usize>, limit: nat)
    requires
        forall|node: usize| #[trigger] map.contains_key(node) ==> map[node] < limit,
    ensures
        forall|i: int|
            0 <= i < known_places(nodes, map).len() ==> (#[trigger] known_places(nodes, map)[i])
                < limit,
    decreases nodes.len(),
{
    if nodes.len() > 0 {
        let before = known_places(nodes.drop_last(), map);
        let after = known_places(nodes, map);
        lemma_known_places(nodes.drop_last(), map, limit);
        assert forall|i: int| 0 <= i < after.len() implies (#[trigger] after[i]) < limit by {
            if i < before.len() {
                assert(after[i] == before[i]);
            } else {
                assert(map.contains_key(nodes.last()));
            }
        }
    }
}

proof fn lemma_roots(bones: Seq<BoneView>, n: int)
    requires
        0 <= n <= bones.len() <= usize::MAX,
    ensures
        forall|k: int|
            0 <= k < roots(bones, n).len() ==> (#[trigger] roots(bones, n)[k]) < n && !is_child(
                bones,
                roots(bones, n)[k],
            ),
        forall|b: int|
            0 <= b < n && !#[trigger] is_child(bones, b as usize) ==> roots(bones, n).contains(
                b as usize,
            ),
    decreases n,
{
    if n > 0 {
        lemma_roots(bones, n - 1);
        let before = roots(bones, n - 1);
        let after = roots(bones, n);
        assert forall|b: int| 0 <= b < n && !#[trigger] is_child(bones, b as usize) implies
            after.contains(b as usize) by {
            if b < n - 1 {
                let k = choose|k: int| 0 <= k < before.len() && before[k] == b as usize;
                assert(after[k] == b as usize);
            } else {
                assert(after[after.len() - 1] == b as usize);
            }
        }
    }
}

/// In the skeleton of a file all children and roots are bones of it, and a bone is a root exactly
/// when it is no bone's child.
pub proof fn law_skeletons_are_closed(skin: SkinData)
    requires
        skin.joints@.len() <= usize::MAX,
    ensures
        ({
            let skeleton = skin_skeleton(skin);
            &&& skeleton.bones.len() == skin.joints@.len()
            &&& forall|b: int, i: int|
                0 <= b < skeleton.bones.len() && 0 <= i < skeleton.bones[b].children.len() ==> (
                #[trigger] skeleton.bones[b].children[i]) < skeleton.bones.len()
            &&& forall|k: int|
                0 <= k < skeleton.root_bones.len() ==> (#[trigger] skeleton.root_bones[k])
                    < skeleton.bones.len()
            &&& forall|b: usize|
                b < skeleton.bones.len() ==> (#[trigger] skeleton.root_bones.contains(b)
                    <==> !is_child(skeleton.bones, b))
        }),
{
    let skeleton = skin_skeleton(skin);
    let nodes = joint_nodes(skin.joints@);
    let n = skeleton.bones.len();
    lemma_places(nodes);
    assert forall|b: int, i: int|
        0 <= b < skeleton.bones.len() && 0 <= i < skeleton.bones[b].children.len() implies (
    #[trigger] skeleton.bones[b].children[i]) < skeleton.bones.len() by {
        lemma_known_places(skin.joints@[b].children@, places(nodes), n);
    }
    lemma_roots(skeleton.bones, n as int);
    assert forall|b: usize| b < skeleton.bones.len() implies (
    #[trigger] skeleton.root_bones.contains(b) <==> !is_child(skeleton.bones, b)) by {
        if skeleton.root_bones.contains(b) {
            let k = choose|k: int|
                0 <= k < skeleton.root_bones.len() && skeleton.root_bones[k] == b;
            assert(!is_child(skeleton.bones, skeleton.root_bones[k]));
        }
        if !is_child(skeleton.bones, b) {
            assert(!is_child(skeleton.bones, b as int as usize));
        }
    }
}

/// The values of a track.
pub enum TrackData {
    Translations(Vec<Vec3>),
    Rotations(Vec<Quaternion>),
    Scales(Vec<Vec3>),
    /// Values that no bone has, or none at all.
    Other,
}

/// A track as the file has it: the node it moves, the times, and the values at those times.
pub struct TrackSource {
    pub target_node: Option<usize>,
    pub times: Option<Vec<F32Bits>>,
    pub values: TrackData,
}

/// An animation as the file has it.
pub struct AnimationData {
    pub name: Option<String>,
    pub tracks: Vec<TrackSource>,
}

/// Times and values taken together, as far as there are both.
pub open spec fn paired<T>(times: Seq<F32Bits>, values: Seq<T>) -> Seq<(F32Bits, T)> {
    Seq::new(
        if times.len() <= values.len() {
            times.len()
        } else {
            values.len()
        },
        |i: int| (times[i], values[i]),
    )
}

/// The later of two times; a time that is no number does not count.
pub open spec fn later(a: F32Bits, b: F32Bits) -> F32Bits {
    if f32_is_nan(b) {
        a
    } else if f32_is_nan(a) || f32_lt(a, b) {
        b
    } else {
        a
    }
}

/// What is known of an animation while its tracks are being read.
pub struct ClipState {
    pub channels: Seq<ChannelView>,
    pub max_time: F32Bits,
}

/// Where the channel of a bone stands.
pub open spec fn channel_place(channels: Seq<ChannelView>, bone: usize) -> Option<int>
    decreases channels.len(),
{
    if channels.len() == 0 {
        None
    } else if channels.last().bone_index == bone {
        Some(channels.len() - 1)
    } else {
        channel_place(channels.drop_last(), bone)
    }
}

/// A channel with one of its tracks replaced.
pub open spec fn with_track(
    channel: ChannelView,
    times: Seq<F32Bits>,
    values: TrackData,
) -> ChannelView {
    match values {
        TrackData::Translations(list) => ChannelView {
            translations: paired(times, list@),
            ..channel
        },
        TrackData::Rotations(list) => ChannelView { rotations: paired(times, list@), ..channel },
        TrackData::Scales(list) => ChannelView { scales: paired(times, list@), ..channel },
        TrackData::Other => channel,
    }
}

/// A channel without key frames.
pub open spec fn empty_channel(bone: usize) -> ChannelView {
    ChannelView {
        bone_index: bone,
        translations: Seq::empty(),
        rotations: Seq::empty(),
        scales: Seq::empty(),
    }
}

impl ClipState {
    /// After a track of a bone has been read: it replaces the bone's track of that sort.
    pub open spec fn with(self, bone: usize, times: Seq<F32Bits>, values: TrackData) -> ClipState {
        ClipState {
            channels: match channel_place(self.channels, bone) {
                Some(i) => self.channels.update(i, with_track(self.channels[i], times, values)),
                None => self.channels.push(with_track(empty_channel(bone), times, values)),
            },
            max_time: if times.len() == 0 {
                self.max_time
            } else {
                later(self.max_time, times.last())
            },
        }
    }
}

/// The state after the first `n` tracks. Nothing is left of an animation with a track that moves no
/// node. Tracks of nodes that are no bones, and tracks without times, are passed over.
pub open spec fn read_tracks(
    tracks: Seq<TrackSource>,
    bones: Map<usize, usize>,
    n: int,
) -> Option<ClipState>
    decreases n,
{
    if n <= 0 {
        Some(ClipState { channels: Seq::empty(), max_time: F32_ZERO })
    } else {
        match read_tracks(tracks, bones, n - 1) {
            None => None,
            Some(state) => {
                let track = tracks[n - 1];
                match track.target_node {
                    None => None,
                    Some(node) => if bones.contains_key(node) && track.times is Some {
                        Some(state.with(bones[node], track.times->Some_0@, track.values))
                    } else {
                        Some(state)
                    },
                }
            },
        }
    }
}

/// The clip that an animation becomes. One without any channel becomes none.
pub open spec fn animation_clip(animation: AnimationData, bones: Map<usize, usize>) -> Option<
    ClipView,
> {
    match read_tracks(animation.tracks@, bones, animation.tracks@.len() as int) {
        None => None,
        Some(state) => if state.channels.len() == 0 {
            None
        } else {
            Some(
                ClipView {
                    name: match animation.name {
                        Some(name) => name@,
                        None => "unnamed_animation"@,
                    },
                    duration: state.max_time,
                    channels: state.channels,
                },
            )
        },
    }
}

/// The clips that the first `n` animations become.
pub open spec fn animation_clips(
    animations: Seq<AnimationData>,
    bones: Map<usize, usize>,
    n: int,
) -> Seq<ClipView>
    decreases n,
{
    if n <= 0 {
        Seq::empty()
    } else {
        match animation_clip(animations[n - 1], bones) {
            Some(clip) => animation_clips(animations, bones, n - 1).push(clip),
            None => animation_clips(animations, bones, n - 1),
        }
    }
}

/// The places of a skeleton's bones by the numbers of their nodes.
pub open spec fn bone_places(skeleton: SkeletonView) -> Map<usize, usize> {
    places(Seq::new(skeleton.bones.len(), |i: int| skeleton.bones[i].node_index))
}

fn pair_up<T: Copy>(times: &Vec<F32Bits>, values: &Vec<T>) -> (out: Vec<(F32Bits, T)>)
    ensures
        out@ == paired(times@, values@),
{
    let mut out: Vec<(F32Bits, T)> = Vec::new();
    let mut i: usize = 0;
    while i < times.len() && i < values.len()
        invariant
            i <= times@.len(),
            i <= values@.len(),
            out@ == paired(times@, values@).take(i as int),
        decreases times@.len() - i,
    {
        out.push((times[i], values[i]));
        proof {
            assert(out@ =~= paired(times@, values@).take(i + 1));
        }
        i = i + 1;
    }
    proof {
        assert(out@ =~= paired(times@, values@));
    }
    out
}

fn find_channel(channels: &Vec<AnimationChannel>, bone: usize) -> (out: Option<usize>)
    ensures
        match channel_place(views(channels@), bone) {
            Some(i) => out is Some && out->Some_0 == i && 0 <= i < channels@.len(),
            None => out is None,
        },
{
    let ghost all = views(channels@);
    let mut i: usize = channels.len();
    proof {
        assert(all.take(i as int) =~= all);
    }
    while i > 0
        invariant
            i <= channels@.len(),
            all == views(channels@),
            channel_place(all, bone) == channel_place(all.take(i as int), bone),
        decreases i,
    {
        proof {
            assert(all.take(i as int).last() == channels@[i - 1]@);
            assert(all.take(i as int).drop_last() =~= all.take(i - 1));
        }
        if channels[i - 1].bone_index == bone {
            return Some(i - 1);
        }
        i = i - 1;
    }
    None
}

fn replace_track(channel: &mut AnimationChannel, times: &Vec<F32Bits>, values: &TrackData)
    ensures
        final(channel)@ == with_track(old(channel)@, times@, *values),
{
    match values {
        TrackData::Translations(list) => {
            channel.translations = pair_up(times, list);
        },
        TrackData::Rotations(list) => {
            channel.rotations = pair_up(times, list);
        },
        TrackData::Scales(list) => {
            channel.scales = pair_up(times, list);
        },
        TrackData::Other => {},
    }
}

fn later_time(a: F32Bits, b: F32Bits) -> (out: F32Bits)
    ensures
        out == later(a, b),
{
    if is_nan(b) {
        a
    } else if is_nan(a) || below(a, b) {
        b
    } else {
        a
    }
}

/// Makes a clip of an animation.
#[verifier::rlimit(40)]
fn extract_animation(animation: &AnimationData, node_to_bone: &HashMap<usize, usize>) -> (out:
    Option<AnimationClip>)
    ensures
        match animation_clip(*animation, node_to_bone@) {
            Some(clip) => out is Some && out->Some_0@ == clip,
            None => out is None,
        },
{
    let mut channels: Vec<AnimationChannel> = Vec::new();
    let mut max_time: F32Bits = F32_ZERO;
    let ghost tracks = animation.tracks@;
    let mut t: usize = 0;
    proof {
        assert(views(channels@) =~= Seq::<ChannelView>::empty());
    }
    while t < animation.tracks.len()
        invariant
            t <= tracks.len(),
            tracks == animation.tracks@,
            read_tracks(tracks, node_to_bone@, t as int) == Some(
                ClipState { channels: views(channels@), max_time },
            ),
        decreases tracks.len() - t,
    {
        let track = &animation.tracks[t];
        let node: usize = match track.target_node {
            Some(node) => node,
            None => {
                proof {
                    lemma_dropped(tracks, node_to_bone@, t + 1, tracks.len() as int);
                }
                return None;
            },
        };
        let known = node_to_bone.get(&node);
        if let (Some(bone), Some(times)) = (known, &track.times) {
            let bone: usize = *bone;
            let ghost before = views(channels@);
            if times.len() > 0 {
                max_time = later_time(max_time, times[times.len() - 1]);
            }
            match find_channel(&channels, bone) {
                Some(at) => {
                    let mut channel = channels[at].clone();
                    proof {
                        assert(channel@ == before[at as int]);
                    }
                    replace_track(&mut channel, times, &track.values);
                    channels.set(at, channel);
                    proof {
                        assert(views(channels@) =~= before.update(
                            at as int,
                            with_track(before[at as int], times@, track.values),
                        ));
                    }
                },
                None => {
                    let mut channel = AnimationChannel {
                        bone_index: bone,
                        translations: Vec::new(),
                        rotations: Vec::new(),
                        scales: Vec::new(),
                    };
                    proof {
                        assert(channel@ == empty_channel(bone));
                    }
                    replace_track(&mut channel, times, &track.values);
                    channels.push(channel);
                    proof {
                        assert(views(channels@) =~= before.push(
                            with_track(empty_channel(bone), times@, track.values),
                        ));
                    }
                },
            }
        }
        t = t + 1;
    }
    if channels.len() == 0 {
        proof {
            assert(views(channels@).len() == 0);
        }
        return None;
    }
    proof {
        assert(views(channels@).len() == channels@.len());
    }
    let name = match &animation.name {
        Some(name) => name.clone(),
        None => String::from_str("unnamed_animation"),
    };
    Some(AnimationClip { name, duration: max_time, channels })
}

proof fn lemma_dropped(tracks: Seq<TrackSource>, bones: Map<usize, usize>, n: int, total: int)
    requires
        0 <= n <= total <= tracks.len(),
        read_tracks(tracks, bones, n) is None,
    ensures
        read_tracks(tracks, bones, total) is None,
    decreases total - n,
{
    if n < total {
        lemma_dropped(tracks, bones, n + 1, total);
    }
}

/// Makes clips of the animations of a file that move the bones of a skeleton.
pub fn extract_animations(animations: &[AnimationData], skeleton: &Skeleton) -> (out: Vec<
    AnimationClip,
>)
    ensures
        views(out@) == animation_clips(
            animations@,
            bone_places(skeleton@),
            animations@.len() as int,
        ),
{
    let mut nodes: Vec<usize> = Vec::new();
    let ghost all_nodes = Seq::new(
        skeleton@.bones.len(),
        |i: int| skeleton@.bones[i].node_index,
    );
    let mut i: usize = 0;
    while i < skeleton.bones.len()
        invariant
            i <= skeleton.bones@.len(),
            all_nodes == Seq::new(
                skeleton@.bones.len(),
                |i: int| skeleton@.bones[i].node_index,
            ),
            nodes@ == all_nodes.take(i as int),
        decreases skeleton.bones@.len() - i,
    {
        proof {
            assert(skeleton@.bones[i as int] == skeleton.bones@[i as int]@);
        }
        nodes.push(skeleton.bones[i].node_index);
        proof {
            assert(nodes@ =~= all_nodes.take(i + 1));
        }
        i = i + 1;
    }
    proof {
        assert(nodes@ =~= all_nodes);
    }
    let node_to_bone = index_places(&nodes);
    let mut clips: Vec<AnimationClip> = Vec::new();
    let mut i: usize = 0;
    proof {
        assert(views(clips@) =~= Seq::<ClipView>::empty());
    }
    while i < animations.len()
        invariant
            i <= animations@.len(),
            node_to_bone@ == bone_places(skeleton@),
            views(clips@) == animation_clips(animations@, node_to_bone@, i as int),
        decreases animations@.len() - i,
    {
        let ghost before = views(clips@);
        if let Some(clip) = extract_animation(&animations[i], &node_to_bone) {
            let ghost added = clip@;
            clips.push(clip);
            proof {
                assert(views(clips@) =~= before.push(added));
            }
        }
        i = i + 1;
    }
    clips
}

/// The channel of a bone, if there is one, is that bone's.
proof fn lemma_channel_place(channels: Seq<ChannelView>, bone: usize)
    ensures
        match channel_place(channels, bone) {
            Some(i) => 0 <= i < channels.len() && channels[i].bone_index == bone,
            None => forall|i: int|
                0 <= i < channels.len() ==> (#[trigger] channels[i]).bone_index != bone,
        },
    decreases channels.len(),
{
    if channels.len() > 0 && channels.last().bone_index != bone {
        let front = channels.drop_last();
        lemma_channel_place(front, bone);
        if channel_place(front, bone) is None {
            assert forall|i: int| 0 <= i < channels.len() implies (#[trigger]
            channels[i]).bone_index != bone by {
                if i < front.len() {
                    assert(channels[i] == front[i]);
                }
            }
        }
    }
}

/// Every channel is that of a bone that is there, and no two are of the same bone.
pub open spec fn channels_apart(channels: Seq<ChannelView>, bones: nat) -> bool {
    &&& forall|i: int| 0 <= i < channels.len() ==> (#[trigger] channels[i]).bone_index < bones
    &&& forall|i: int, j: int|
        0 <= i < j < channels.len() ==> (#[trigger] channels[i]).bone_index != (
        #[trigger] channels[j]).bone_index
}

proof fn lemma_read_tracks(tracks: Seq<TrackSource>, bones: Map<usize, usize>, n: int, limit: nat)
    requires
        0 <= n <= tracks.len(),
        forall|node: usize| #[trigger] bones.contains_key(node) ==> bones[node] < limit,
    ensures
        read_tracks(tracks, bones, n) matches Some(state) ==> channels_apart(
            state.channels,
            limit,
        ),
    decreases n,
{
    if n > 0 {
        lemma_read_tracks(tracks, bones, n - 1, limit);
        if let Some(state) = read_tracks(tracks, bones, n - 1) {
            let track = tracks[n - 1];
            if let Some(node) = track.target_node {
                if bones.contains_key(node) && track.times is Some {
                    lemma_channel_place(state.channels, bones[node]);
                }
            }
        }
    }
}

/// The clips of a file move only bones of the skeleton, and each bone through one channel alone.
pub proof fn law_clips_fit_their_skeleton(
    animations: Seq<AnimationData>,
    skeleton: SkeletonView,
    n: int,
    clip: int,
)
    requires
        0 <= n <= animations.len(),
        skeleton.bones.len() <= usize::MAX,
        0 <= clip < animation_clips(animations, bone_places(skeleton), n).len(),
    ensures
        ({
            let made = animation_clips(animations, bone_places(skeleton), n)[clip];
            &&& channels_apart(made.channels, skeleton.bones.len())
            &&& made.fits(skeleton.bones.len())
            &&& made.channels.len() > 0
        }),
    decreases n,
{
    let bones = bone_places(skeleton);
    if n > 0 {
        let before = animation_clips(animations, bones, n - 1);
        if clip < before.len() {
            law_clips_fit_their_skeleton(animations, skeleton, n - 1, clip);
        } else {
            let tracks = animations[n - 1].tracks@;
            let nodes = Seq::new(skeleton.bones.len(), |i: int| skeleton.bones[i].node_index);
            lemma_places(nodes);
            lemma_read_tracks(tracks, bones, tracks.len() as int, skeleton.bones.len());
        }
    }
}

/// The last place of a number in a list.
pub open spec fn is_place(nodes: Seq<usize>, node: usize, place: int) -> bool {
    &&& 0 <= place < nodes.len()
    &&& nodes[place] == node
    &&& forall|j: int| place < j < nodes.len() ==> #[trigger] nodes[j] != node
}

/// A table of places holds the last place of every number in the list, and no other.
proof fn lemma_places_are_last(nodes: Seq<usize>)
    requires
        nodes.len() <= usize::MAX,
    ensures
        forall|node: usize| #[trigger]
            places(nodes).contains_key(node) ==> is_place(nodes, node, places(nodes)[node] as int),
        forall|i: int|
            0 <= i < nodes.len() ==> places(nodes).contains_key(#[trigger] nodes[i]),
    decreases nodes.len(),
{
    if nodes.len() > 0 {
        let front = nodes.drop_last();
        lemma_places_are_last(front);
        assert forall|node: usize| #[trigger] places(nodes).contains_key(node) implies is_place(
            nodes,
            node,
            places(nodes)[node] as int,
        ) by {
            if node != nodes.last() {
                assert(places(front).contains_key(node));
                let place = places(front)[node] as int;
                assert(is_place(front, node, place));
                assert forall|j: int| place < j < nodes.len() implies #[trigger] nodes[j]
                    != node by {
                    if j < front.len() {
                        assert(front[j] == nodes[j]);
                    }
                }
            }
        }
        assert forall|i: int| 0 <= i < nodes.len() implies places(nodes).contains_key(
            #[trigger] nodes[i],
        ) by {
            if i < front.len() {
                assert(front[i] == nodes[i]);
            }
        }
    }
}

/// A number has one last place.
proof fn lemma_one_place(nodes: Seq<usize>, node: usize, a: int, b: int)
    requires
        is_place(nodes, node, a),
        is_place(nodes, node, b),
    ensures
        a == b,
{
    if a < b {
        assert(nodes[b] != node);
    } else if b < a {
        assert(nodes[a] != node);
    }
}

/// `found` are the places of those of `wanted` that are in the list, in their order: `source` tells
/// which of `wanted` each stands for.
pub open spec fn are_places(
    found: Seq<usize>,
    wanted: Seq<usize>,
    nodes: Seq<usize>,
    source: Seq<int>,
) -> bool {
    &&& source.len() == found.len()
    &&& forall|k: int|
        0 <= k < source.len() ==> {
            &&& 0 <= #[trigger] source[k] < wanted.len()
            &&& is_place(nodes, wanted[source[k]], found[k] as int)
        }
    &&& forall|k: int, l: int|
        0 <= k < l < source.len() ==> #[trigger] source[k] < #[trigger] source[l]
    &&& forall|j: int|
        0 <= j < wanted.len() && nodes.contains(#[trigger] wanted[j]) ==> source.contains(j)
}

proof fn lemma_found_places(wanted: Seq<usize>, nodes: Seq<usize>) -> (source: Seq<int>)
    requires
        nodes.len() <= usize::MAX,
    ensures
        are_places(known_places(wanted, places(nodes)), wanted, nodes, source),
    decreases wanted.len(),
{
    if wanted.len() == 0 {
        Seq::empty()
    } else {
        let front = wanted.drop_last();
        let before = lemma_found_places(front, nodes);
        lemma_places_are_last(nodes);
        let map = places(nodes);
        let found = known_places(wanted, map);
        let last = wanted.len() - 1;
        let source = if map.contains_key(wanted.last()) {
            before.push(last)
        } else {
            before
        };
        assert forall|k: int| 0 <= k < source.len() implies {
            &&& 0 <= #[trigger] source[k] < wanted.len()
            &&& is_place(nodes, wanted[source[k]], found[k] as int)
        } by {
            if k < before.len() {
                assert(source[k] == before[k]);
                assert(front[before[k]] == wanted[source[k]]);
                assert(found[k] == known_places(front, map)[k]);
            }
        }
        assert forall|k: int, l: int| 0 <= k < l < source.len() implies #[trigger] source[k]
            < #[trigger] source[l] by {
            assert(source[k] == before[k]);
            assert(0 <= before[k] < front.len());
            if l < before.len() {
                assert(source[l] == before[l]);
            }
        }
        assert forall|j: int|
            0 <= j < wanted.len() && nodes.contains(#[trigger] wanted[j]) implies source.contains(
            j,
        ) by {
            if j < front.len() {
                assert(front[j] == wanted[j]);
                let k = choose|k: int| 0 <= k < before.len() && before[k] == j;
                assert(source[k] == j);
            } else {
                let i = choose|i: int| 0 <= i < nodes.len() && nodes[i] == wanted[j];
                assert(map.contains_key(nodes[i]));
                assert(source[before.len() as int] == j);
            }
        }
        source
    }
}

/// The bones of a skin are its joints, one by one: each has the node and the transform of its joint
/// and, where the file gives inverse bind matrices, the one at its place. Its children are the bones
/// of those of its node's children that are joints, in their order.
pub proof fn law_bones_are_the_joints(skin: SkinData, b: int)
    requires
        skin.joints@.len() <= usize::MAX,
        0 <= b < skin.joints@.len(),
    ensures
        ({
            let bones = skin_skeleton(skin).bones;
            let nodes = Seq::new(skin.joints@.len(), |i: int| skin.joints@[i].node);
            &&& bones.len() == skin.joints@.len()
            &&& bones[b].node_index == skin.joints@[b].node
            &&& bones[b].local_transform == skin.joints@[b].local_transform
            &&& skin.inverse_bind_matrices matches Some(list) ==> bones[b].inverse_bind_matrix
                == list@[b]
            &&& skin.inverse_bind_matrices is None ==> bones[b].inverse_bind_matrix
                == Mat4::spec_identity()
            &&& exists|source: Seq<int>| #[trigger]
                are_places(bones[b].children, skin.joints@[b].children@, nodes, source)
        }),
{
    let nodes = Seq::new(skin.joints@.len(), |i: int| skin.joints@[i].node);
    assert(joint_nodes(skin.joints@) =~= nodes);
    let source = lemma_found_places(skin.joints@[b].children@, nodes);
    assert(skin_skeleton(skin).bones[b] == joint_bone(skin, b));
}

/// The roots of a skin are, in ascending order, those bones that are among no bone's children.
pub proof fn law_roots_are_no_children(skin: SkinData)
    requires
        skin.joints@.len() <= usize::MAX,
    ensures
        ({
            let skeleton = skin_skeleton(skin);
            &&& forall|k: int, l: int|
                0 <= k < l < skeleton.root_bones.len() ==> #[trigger] skeleton.root_bones[k]
                    < #[trigger] skeleton.root_bones[l]
            &&& forall|b: usize| #[trigger]
                skeleton.root_bones.contains(b) <==> b < skeleton.bones.len() && forall|p: int|
                    0 <= p < skeleton.bones.len() ==> !(
                    #[trigger] skeleton.bones[p]).children.contains(b)
        }),
{
    let skeleton = skin_skeleton(skin);
    law_skeletons_are_closed(skin);
    lemma_roots_ascend(skeleton.bones, skeleton.bones.len() as int);
    assert forall|b: usize| #[trigger] skeleton.root_bones.contains(b) <==> b
        < skeleton.bones.len() && forall|p: int|
        0 <= p < skeleton.bones.len() ==> !(#[trigger] skeleton.bones[p]).children.contains(b) by {
        if skeleton.root_bones.contains(b) {
            let k = choose|k: int|
                0 <= k < skeleton.root_bones.len() && skeleton.root_bones[k] == b;
            assert(skeleton.root_bones[k] < skeleton.bones.len());
        }
    }
}

proof fn lemma_roots_ascend(bones: Seq<BoneView>, n: int)
    requires
        0 <= n <= bones.len() <= usize::MAX,
    ensures
        forall|k: int| 0 <= k < roots(bones, n).len() ==> #[trigger] roots(bones, n)[k] < n,
        forall|k: int, l: int|
            0 <= k < l < roots(bones, n).len() ==> #[trigger] roots(bones, n)[k]
                < #[trigger] roots(bones, n)[l],
    decreases n,
{
    if n > 0 {
        lemma_roots_ascend(bones, n - 1);
        let before = roots(bones, n - 1);
        let after = roots(bones, n);
        assert forall|k: int| 0 <= k < after.len() implies #[trigger] after[k] < n by {
            if k < before.len() {
                assert(after[k] == before[k]);
            }
        }
        assert forall|k: int, l: int| 0 <= k < l < after.len() implies #[trigger] after[k]
            < #[trigger] after[l] by {
            assert(after[k] == before[k]);
            if l < before.len() {
                assert(after[l] == before[l]);
            }
        }
    }
}

/// Whether a track moves a bone: it has times, and the bone is that of the node it is for.
pub open spec fn moves(track: TrackSource, nodes: Seq<usize>, bone: int) -> bool {
    &&& track.times is Some
    &&& track.target_node matches Some(node) && is_place(nodes, node, bone)
}

/// Whether values are translations, rotations or scales, by the numbers zero, one and two.
pub open spec fn of_sort(values: TrackData, sort: int) -> bool {
    match values {
        TrackData::Translations(_) => sort == 0,
        TrackData::Rotations(_) => sort == 1,
        TrackData::Scales(_) => sort == 2,
        TrackData::Other => false,
    }
}

/// Whether a track is the last of the first `n` that moves a bone with values of a sort.
pub open spec fn is_last_track(
    tracks: Seq<TrackSource>,
    n: int,
    nodes: Seq<usize>,
    bone: int,
    sort: int,
    t: int,
) -> bool {
    &&& 0 <= t < n
    &&& moves(tracks[t], nodes, bone)
    &&& of_sort(tracks[t].values, sort)
    &&& forall|u: int|
        t < u < n ==> !(moves(#[trigger] tracks[u], nodes, bone) && of_sort(
            tracks[u].values,
            sort,
        ))
}

/// Key frames are times and values side by side, as far as there are both.
pub open spec fn side_by_side<T>(
    keys: Seq<(F32Bits, T)>,
    times: Seq<F32Bits>,
    values: Seq<T>,
) -> bool {
    &&& keys.len() <= times.len()
    &&& keys.len() <= values.len()
    &&& keys.len() == times.len() || keys.len() == values.len()
    &&& forall|k: int|
        0 <= k < keys.len() ==> (#[trigger] keys[k]).0 == times[k] && keys[k].1 == values[k]
}

/// Each part of a channel holds the key frames of the last track for it, or none.
pub open spec fn holds_tracks(
    tracks: Seq<TrackSource>,
    n: int,
    nodes: Seq<usize>,
    channel: ChannelView,
) -> bool {
    let bone = channel.bone_index as int;
    &&& forall|t: int| #[trigger]
        is_last_track(tracks, n, nodes, bone, 0, t) ==> side_by_side(
            channel.translations,
            tracks[t].times->Some_0@,
            tracks[t].values->Translations_0@,
        )
    &&& forall|t: int| #[trigger]
        is_last_track(tracks, n, nodes, bone, 1, t) ==> side_by_side(
            channel.rotations,
            tracks[t].times->Some_0@,
            tracks[t].values->Rotations_0@,
        )
    &&& forall|t: int| #[trigger]
        is_last_track(tracks, n, nodes, bone, 2, t) ==> side_by_side(
            channel.scales,
            tracks[t].times->Some_0@,
            tracks[t].values->Scales_0@,
        )
    &&& (channel.translations.len() > 0 ==> exists|t: int| #[trigger]
        is_last_track(tracks, n, nodes, bone, 0, t))
    &&& (channel.rotations.len() > 0 ==> exists|t: int| #[trigger]
        is_last_track(tracks, n, nodes, bone, 1, t))
    &&& (channel.scales.len() > 0 ==> exists|t: int| #[trigger]
        is_last_track(tracks, n, nodes, bone, 2, t))
}

/// Whether some of the first `n` tracks moves a bone.
pub open spec fn is_moved(tracks: Seq<TrackSource>, n: int, nodes: Seq<usize>, bone: int) -> bool {
    exists|t: int| 0 <= t < n && moves(#[trigger] tracks[t], nodes, bone)
}

/// A time counts among the ends of the first `n` tracks: it is a number, and the last time of one
/// that moves a bone.
pub open spec fn is_end(
    tracks: Seq<TrackSource>,
    n: int,
    nodes: Seq<usize>,
    t: int,
    bone: int,
    time: F32Bits,
) -> bool {
    &&& 0 <= t < n
    &&& moves(tracks[t], nodes, bone)
    &&& tracks[t].times->Some_0@.len() > 0
    &&& tracks[t].times->Some_0@.last() == time
    &&& !f32_is_nan(time)
}

/// What the first `n` tracks come to.
pub open spec fn took_up(
    tracks: Seq<TrackSource>,
    n: int,
    nodes: Seq<usize>,
    channels: Seq<ChannelView>,
    duration: F32Bits,
) -> bool {
    &&& forall|c: int|
        0 <= c < channels.len() ==> {
            &&& is_moved(tracks, n, nodes, (#[trigger] channels[c]).bone_index as int)
            &&& holds_tracks(tracks, n, nodes, channels[c])
        }
    &&& forall|b: int| #[trigger]
        is_moved(tracks, n, nodes, b) ==> exists|c: int|
            0 <= c < channels.len() && (#[trigger] channels[c]).bone_index == b
    &&& forall|c: int, d: int|
        0 <= c < d < channels.len() ==> (#[trigger] channels[c]).bone_index != (
        #[trigger] channels[d]).bone_index
    &&& f32_le(F32_ZERO, duration)
    &&& forall|t: int, b: int, time: F32Bits| #[trigger]
        is_end(tracks, n, nodes, t, b, time) ==> f32_le(time, duration)
    &&& duration == 0 || exists|t: int, b: int| #[trigger]
        is_end(tracks, n, nodes, t, b, duration)
}

/// A track that moves no bone changes nothing.
proof fn lemma_track_passed_over(
    tracks: Seq<TrackSource>,
    n: int,
    nodes: Seq<usize>,
    channels: Seq<ChannelView>,
    duration: F32Bits,
)
    requires
        0 <= n < tracks.len(),
        took_up(tracks, n, nodes, channels, duration),
        forall|b: int| !#[trigger] moves(tracks[n], nodes, b),
    ensures
        took_up(tracks, n + 1, nodes, channels, duration),
{
    assert forall|b: int| #[trigger] is_moved(tracks, n + 1, nodes, b) implies is_moved(
        tracks,
        n,
        nodes,
        b,
    ) by {
        let t = choose|t: int| 0 <= t < n + 1 && moves(#[trigger] tracks[t], nodes, b);
        assert(t != n);
    }
    assert forall|c: int| 0 <= c < channels.len() implies {
        &&& is_moved(tracks, n + 1, nodes, (#[trigger] channels[c]).bone_index as int)
        &&& holds_tracks(tracks, n + 1, nodes, channels[c])
    } by {
        let bone = channels[c].bone_index as int;
        let t = choose|t: int| 0 <= t < n && moves(#[trigger] tracks[t], nodes, bone);
        assert(moves(tracks[t], nodes, bone));
        assert(!moves(tracks[n], nodes, bone));
        assert forall|sort: int, t: int| #[trigger]
            is_last_track(tracks, n + 1, nodes, bone, sort, t) == is_last_track(
                tracks,
                n,
                nodes,
                bone,
                sort,
                t,
            ) by {}
        assert forall|sort: int, t: int| #[trigger]
            is_last_track(tracks, n, nodes, bone, sort, t) == is_last_track(
                tracks,
                n + 1,
                nodes,
                bone,
                sort,
                t,
            ) by {}
    }
    assert forall|t: int, b: int, time: F32Bits| #[trigger]
        is_end(tracks, n + 1, nodes, t, b, time) implies is_end(tracks, n, nodes, t, b, time) by {
        assert(!moves(tracks[n], nodes, b));
    }
    if duration != 0 {
        let (t, b) = choose|t: int, b: int| #[trigger] is_end(tracks, n, nodes, t, b, duration);
        assert(is_end(tracks, n + 1, nodes, t, b, duration));
    }
}

/// The channel of a bone that a further track moves holds that track.
proof fn lemma_track_replaced(
    tracks: Seq<TrackSource>,
    n: int,
    nodes: Seq<usize>,
    channel: ChannelView,
)
    requires
        0 <= n < tracks.len(),
        moves(tracks[n], nodes, channel.bone_index as int),
        holds_tracks(tracks, n, nodes, channel) || (channel == empty_channel(channel.bone_index)
            && !is_moved(tracks, n, nodes, channel.bone_index as int)),
    ensures
        holds_tracks(
            tracks,
            n + 1,
            nodes,
            with_track(channel, tracks[n].times->Some_0@, tracks[n].values),
        ),
{
    let bone = channel.bone_index as int;
    let after = with_track(channel, tracks[n].times->Some_0@, tracks[n].values);
    assert forall|sort: int, t: int| #[trigger]
        is_last_track(tracks, n + 1, nodes, bone, sort, t) implies if of_sort(
        tracks[n].values,
        sort,
    ) {
        t == n
    } else {
        is_last_track(tracks, n, nodes, bone, sort, t)
    } by {
        if t < n && of_sort(tracks[n].values, sort) {
            assert(moves(tracks[n], nodes, bone));
        }
    }
    assert forall|sort: int| #[trigger] of_sort(tracks[n].values, sort) implies is_last_track(
        tracks,
        n + 1,
        nodes,
        bone,
        sort,
        n,
    ) by {}
    assert forall|sort: int, t: int| #[trigger]
        is_last_track(tracks, n, nodes, bone, sort, t) && !of_sort(
        tracks[n].values,
        sort,
    ) implies is_last_track(tracks, n + 1, nodes, bone, sort, t) by {}
    if !is_moved(tracks, n, nodes, bone) {
        assert forall|sort: int, t: int| !#[trigger]
            is_last_track(tracks, n, nodes, bone, sort, t) by {
            if is_last_track(tracks, n, nodes, bone, sort, t) {
                assert(moves(tracks[t], nodes, bone));
            }
        }
    }
    assert(of_sort(tracks[n].values, 0) <==> tracks[n].values is Translations);
    assert(of_sort(tracks[n].values, 1) <==> tracks[n].values is Rotations);
    assert(of_sort(tracks[n].values, 2) <==> tracks[n].values is Scales);
    if channel.translations.len() > 0 && !of_sort(tracks[n].values, 0) {
        let t = choose|t: int| #[trigger] is_last_track(tracks, n, nodes, bone, 0, t);
        assert(is_last_track(tracks, n + 1, nodes, bone, 0, t));
    }
    if channel.rotations.len() > 0 && !of_sort(tracks[n].values, 1) {
        let t = choose|t: int| #[trigger] is_last_track(tracks, n, nodes, bone, 1, t);
        assert(is_last_track(tracks, n + 1, nodes, bone, 1, t));
    }
    if channel.scales.len() > 0 && !of_sort(tracks[n].values, 2) {
        let t = choose|t: int| #[trigger] is_last_track(tracks, n, nodes, bone, 2, t);
        assert(is_last_track(tracks, n + 1, nodes, bone, 2, t));
    }
    assert forall|t: int| #[trigger]
        is_last_track(tracks, n + 1, nodes, bone, 0, t) implies side_by_side(
        after.translations,
        tracks[t].times->Some_0@,
        tracks[t].values->Translations_0@,
    ) by {
        if !of_sort(tracks[n].values, 0) {
            assert(is_last_track(tracks, n, nodes, bone, 0, t));
        }
    }
    assert forall|t: int| #[trigger]
        is_last_track(tracks, n + 1, nodes, bone, 1, t) implies side_by_side(
        after.rotations,
        tracks[t].times->Some_0@,
        tracks[t].values->Rotations_0@,
    ) by {
        if !of_sort(tracks[n].values, 1) {
            assert(is_last_track(tracks, n, nodes, bone, 1, t));
        }
    }
    assert forall|t: int| #[trigger]
        is_last_track(tracks, n + 1, nodes, bone, 2, t) implies side_by_side(
        after.scales,
        tracks[t].times->Some_0@,
        tracks[t].values->Scales_0@,
    ) by {
        if !of_sort(tracks[n].values, 2) {
            assert(is_last_track(tracks, n, nodes, bone, 2, t));
        }
    }
    assert(after.translations.len() > 0 ==> exists|t: int| #[trigger]
        is_last_track(tracks, n + 1, nodes, bone, 0, t)) by {
        if of_sort(tracks[n].values, 0) {
            assert(is_last_track(tracks, n + 1, nodes, bone, 0, n));
        }
    }
    assert(after.rotations.len() > 0 ==> exists|t: int| #[trigger]
        is_last_track(tracks, n + 1, nodes, bone, 1, t)) by {
        if of_sort(tracks[n].values, 1) {
            assert(is_last_track(tracks, n + 1, nodes, bone, 1, n));
        }
    }
    assert(after.scales.len() > 0 ==> exists|t: int| #[trigger]
        is_last_track(tracks, n + 1, nodes, bone, 2, t)) by {
        if of_sort(tracks[n].values, 2) {
            assert(is_last_track(tracks, n + 1, nodes, bone, 2, n));
        }
    }
    assert(after.bone_index as int == bone);
}

/// The channel of a bone that a further track does not move stays as it is.
proof fn lemma_track_elsewhere(
    tracks: Seq<TrackSource>,
    n: int,
    nodes: Seq<usize>,
    channel: ChannelView,
)
    requires
        0 <= n < tracks.len(),
        !moves(tracks[n], nodes, channel.bone_index as int),
        holds_tracks(tracks, n, nodes, channel),
    ensures
        holds_tracks(tracks, n + 1, nodes, channel),
{
    let bone = channel.bone_index as int;
    assert forall|sort: int, t: int| #[trigger]
        is_last_track(tracks, n + 1, nodes, bone, sort, t) == is_last_track(
            tracks,
            n,
            nodes,
            bone,
            sort,
            t,
        ) by {}
    assert forall|sort: int, t: int| #[trigger]
        is_last_track(tracks, n, nodes, bone, sort, t) == is_last_track(
            tracks,
            n + 1,
            nodes,
            bone,
            sort,
            t,
        ) by {}
}

/// A track that moves a bone is taken up.
#[verifier::rlimit(60)]
proof fn lemma_track_taken_up(
    tracks: Seq<TrackSource>,
    n: int,
    nodes: Seq<usize>,
    state: ClipState,
    bone: usize,
)
    requires
        0 <= n < tracks.len(),
        nodes.len() <= usize::MAX,
        took_up(tracks, n, nodes, state.channels, state.max_time),
        moves(tracks[n], nodes, bone as int),
    ensures
        ({
            let after = state.with(bone, tracks[n].times->Some_0@, tracks[n].values);
            took_up(tracks, n + 1, nodes, after.channels, after.max_time)
        }),
{
    let times = tracks[n].times->Some_0@;
    let after = state.with(bone, times, tracks[n].values);
    let node = tracks[n].target_node->Some_0;
    lemma_channel_place(state.channels, bone);
    let at = match channel_place(state.channels, bone) {
        Some(i) => i,
        None => state.channels.len() as int,
    };
    assert forall|b: int| #[trigger] moves(tracks[n], nodes, b) implies b == bone by {
        lemma_one_place(nodes, node, b, bone as int);
    }
    assert forall|b: int| is_moved(tracks, n, nodes, b) implies #[trigger] is_moved(
        tracks,
        n + 1,
        nodes,
        b,
    ) by {
        let t = choose|t: int| 0 <= t < n && moves(#[trigger] tracks[t], nodes, b);
        assert(moves(tracks[t], nodes, b));
    }
    assert forall|b: int| #[trigger] is_moved(tracks, n + 1, nodes, b) implies is_moved(
        tracks,
        n,
        nodes,
        b,
    ) || b == bone by {
        let t = choose|t: int| 0 <= t < n + 1 && moves(#[trigger] tracks[t], nodes, b);
        if t < n {
            assert(moves(tracks[t], nodes, b));
        }
    }
    assert(is_moved(tracks, n + 1, nodes, bone as int));
    assert forall|c: int| 0 <= c < after.channels.len() implies {
        &&& is_moved(tracks, n + 1, nodes, (#[trigger] after.channels[c]).bone_index as int)
        &&& holds_tracks(tracks, n + 1, nodes, after.channels[c])
    } by {
        if c == at {
            if at < state.channels.len() {
                lemma_track_replaced(tracks, n, nodes, state.channels[at]);
            } else {
                lemma_track_replaced(tracks, n, nodes, empty_channel(bone));
            }
        } else {
            assert(after.channels[c] == state.channels[c]);
            let other = state.channels[c].bone_index;
            if at < state.channels.len() {
                assert(other != state.channels[at].bone_index);
            }
            assert(other != bone);
            assert(!moves(tracks[n], nodes, other as int));
            lemma_track_elsewhere(tracks, n, nodes, state.channels[c]);
        }
    }
    assert(after.channels[at].bone_index == bone);
    assert forall|b: int| #[trigger] is_moved(tracks, n + 1, nodes, b) implies exists|c: int|
        0 <= c < after.channels.len() && (#[trigger] after.channels[c]).bone_index == b by {
        if b != bone {
            let c = choose|c: int|
                0 <= c < state.channels.len() && (#[trigger] state.channels[c]).bone_index == b;
            assert(after.channels[c].bone_index == b);
        }
    }
    assert forall|c: int, d: int| 0 <= c < d < after.channels.len() implies (#[trigger]
    after.channels[c]).bone_index != (#[trigger] after.channels[d]).bone_index by {
        if d < state.channels.len() {
            assert(after.channels[c].bone_index == state.channels[c].bone_index);
            assert(after.channels[d].bone_index == state.channels[d].bone_index);
        } else {
            assert(after.channels[c] == state.channels[c]);
        }
    }
    assert forall|t: int, b: int, time: F32Bits| #[trigger]
        is_end(tracks, n + 1, nodes, t, b, time) implies f32_le(time, after.max_time) by {
        if t < n {
            assert(is_end(tracks, n, nodes, t, b, time));
        }
    }
    if after.max_time != 0 {
        if times.len() > 0 && after.max_time == times.last() {
            assert(is_end(tracks, n + 1, nodes, n, bone as int, after.max_time));
        } else {
            let (t, b) = choose|t: int, b: int| #[trigger]
                is_end(tracks, n, nodes, t, b, state.max_time);
            assert(is_end(tracks, n + 1, nodes, t, b, after.max_time));
        }
    }
}

proof fn lemma_tracks_taken_up(tracks: Seq<TrackSource>, nodes: Seq<usize>, n: int)
    requires
        0 <= n <= tracks.len(),
        nodes.len() <= usize::MAX,
    ensures
        match read_tracks(tracks, places(nodes), n) {
            Some(state) => {
                &&& took_up(tracks, n, nodes, state.channels, state.max_time)
                &&& forall|t: int| 0 <= t < n ==> (#[trigger] tracks[t]).target_node is Some
            },
            None => exists|t: int| 0 <= t < n && (#[trigger] tracks[t]).target_node is None,
        },
    decreases n,
{
    let bones = places(nodes);
    if n == 0 {
        assert forall|b: int| !#[trigger] is_moved(tracks, 0, nodes, b) by {}
    } else {
        lemma_tracks_taken_up(tracks, nodes, n - 1);
        lemma_places_are_last(nodes);
        let track = tracks[n - 1];
        if let Some(state) = read_tracks(tracks, bones, n - 1) {
            if let Some(node) = track.target_node {
                if bones.contains_key(node) && track.times is Some {
                    assert(is_place(nodes, node, bones[node] as int));
                    lemma_track_taken_up(tracks, n - 1, nodes, state, bones[node]);
                } else {
                    assert forall|b: int| !#[trigger] moves(tracks[n - 1], nodes, b) by {
                        if moves(tracks[n - 1], nodes, b) {
                            assert(nodes[b] == node);
                        }
                    }
                    lemma_track_passed_over(
                        tracks,
                        n - 1,
                        nodes,
                        state.channels,
                        state.max_time,
                    );
                }
            } else {
                assert(tracks[n - 1].target_node is None);
            }
        }
    }
}

/// What a clip is made of. There is one channel for each bone that a track of the animation moves,
/// and it holds, for each sort of values, the times and values of the last such track side by side.
/// The clip lasts as long as the longest of these tracks: no shorter than the last time of any, and
/// zero or the last time of one of them. It has the name of the animation.
pub proof fn law_clips_hold_their_tracks(
    animation: AnimationData,
    skeleton: SkeletonView,
    clip: ClipView,
)
    requires
        skeleton.bones.len() <= usize::MAX,
        animation_clip(animation, bone_places(skeleton)) == Some(clip),
    ensures
        took_up(
            animation.tracks@,
            animation.tracks@.len() as int,
            Seq::new(skeleton.bones.len(), |i: int| skeleton.bones[i].node_index),
            clip.channels,
            clip.duration,
        ),
        animation.name matches Some(name) ==> clip.name == name@,
        animation.name is None ==> clip.name == "unnamed_animation"@,
        clip.channels.len() > 0,
        forall|t: int|
            0 <= t < animation.tracks@.len() ==> (#[trigger] animation.tracks@[t]).target_node
                is Some,
{
    let nodes = Seq::new(skeleton.bones.len(), |i: int| skeleton.bones[i].node_index);
    lemma_tracks_taken_up(animation.tracks@, nodes, animation.tracks@.len() as int);
}

/// An animation becomes no clip exactly where one of its tracks is for no node, or none of them moves
/// a bone.
pub proof fn law_animations_without_bones_become_no_clip(
    animation: AnimationData,
    skeleton: SkeletonView,
)
    requires
        skeleton.bones.len() <= usize::MAX,
    ensures
        animation_clip(animation, bone_places(skeleton)) is None <==> {
            let tracks = animation.tracks@;
            let nodes = Seq::new(skeleton.bones.len(), |i: int| skeleton.bones[i].node_index);
            ||| exists|t: int| 0 <= t < tracks.len() && (#[trigger] tracks[t]).target_node is None
            ||| forall|b: int| !#[trigger] is_moved(tracks, tracks.len() as int, nodes, b)
        },
{
    let tracks = animation.tracks@;
    let nodes = Seq::new(skeleton.bones.len(), |i: int| skeleton.bones[i].node_index);
    lemma_tracks_taken_up(tracks, nodes, tracks.len() as int);
    if let Some(state) = read_tracks(tracks, bone_places(skeleton), tracks.len() as int) {
        if state.channels.len() > 0 {
            assert(is_moved(
                tracks,
                tracks.len() as int,
                nodes,
                state.channels[0].bone_index as int,
            ));
        }
    }
}

/// The clips of a file are those of its animations that become one, in their order: `source` tells
/// which animation each comes from.
pub open spec fn clips_in_order(
    animations: Seq<AnimationData>,
    bones: Map<usize, usize>,
    clips: Seq<ClipView>,
    source: Seq<int>,
) -> bool {
    &&& source.len() == clips.len()
    &&& forall|c: int|
        0 <= c < source.len() ==> {
            &&& 0 <= #[trigger] source[c] < animations.len()
            &&& animation_clip(animations[source[c]], bones) == Some(clips[c])
        }
    &&& forall|c: int, d: int|
        0 <= c < d < source.len() ==> #[trigger] source[c] < #[trigger] source[d]
    &&& forall|a: int|
        0 <= a < animations.len() && animation_clip(#[trigger] animations[a], bones) is Some
            ==> source.contains(a)
}

/// Every animation that becomes a clip is among the clips of the file, and they are in the order of
/// the animations.
pub proof fn law_clips_keep_their_order(
    animations: Seq<AnimationData>,
    bones: Map<usize, usize>,
) -> (source: Seq<int>)
    ensures
        clips_in_order(
            animations,
            bones,
            animation_clips(animations, bones, animations.len() as int),
            source,
        ),
    decreases animations.len(),
{
    let n = animations.len() as int;
    if n == 0 {
        Seq::empty()
    } else {
        let front = animations.drop_last();
        let before = law_clips_keep_their_order(front, bones);
        lemma_clips_of_front(animations, front, bones, n - 1);
        let clips = animation_clips(animations, bones, n);
        let made = animation_clip(animations[n - 1], bones);
        let source = if made is Some {
            before.push(n - 1)
        } else {
            before
        };
        assert forall|c: int| 0 <= c < source.len() implies {
            &&& 0 <= #[trigger] source[c] < animations.len()
            &&& animation_clip(animations[source[c]], bones) == Some(clips[c])
        } by {
            if c < before.len() {
                assert(source[c] == before[c]);
                assert(front[before[c]] == animations[source[c]]);
            }
        }
        assert forall|c: int, d: int| 0 <= c < d < source.len() implies #[trigger] source[c]
            < #[trigger] source[d] by {
            assert(source[c] == before[c]);
            assert(0 <= before[c] < front.len());
            if d < before.len() {
                assert(source[d] == before[d]);
            }
        }
        assert forall|a: int|
            0 <= a < animations.len() && animation_clip(
                #[trigger] animations[a],
                bones,
            ) is Some implies source.contains(a) by {
            if a < n - 1 {
                assert(front[a] == animations[a]);
                let c = choose|c: int| 0 <= c < before.len() && before[c] == a;
                assert(source[c] == a);
            } else {
                assert(source[before.len() as int] == a);
            }
        }
        source
    }
}

proof fn lemma_clips_of_front(
    animations: Seq<AnimationData>,
    front: Seq<AnimationData>,
    bones: Map<usize, usize>,
    n: int,
)
    requires
        n <= front.len() <= animations.len(),
        forall|i: int| 0 <= i < front.len() ==> #[trigger] front[i] == animations[i],
    ensures
        animation_clips(animations, bones, n) == animation_clips(front, bones, n),
    decreases n,
{
    if n > 0 {
        lemma_clips_of_front(animations, front, bones, n - 1);
        assert(front[n - 1] == animations[n - 1]);
    }
}

} // verus!
