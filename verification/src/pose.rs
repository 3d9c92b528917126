//! Reading animations at a point in time, and the order in which bones are placed.

use crate::common::{
    AnimationChannel, AnimationClip, BoneView, ChannelView, ClipView, Skeleton, SkeletonView,
};
use crate::math::{at_most, below, f32_is_nan, f32_le, f32_lt, is_nan, F32Bits};
use crate::player::{AnimationPlayer, PlayerView};
use vstd::prelude::*;

verus! {

/// What a track of key frames gives at a point in time.
#[derive(Clone, Copy, PartialEq, Eq, Structural, Debug)]
pub enum TrackSample {
    /// The track has no key frame.
    Missing,
    /// The value of this key frame.
    Key(usize),
    /// A value between the key frame before this one and this one. `blends` tells whether the
    /// second is later than the first; otherwise the first counts alone.
    Between { later: usize, blends: bool },
}

/// The times of a track.
pub open spec fn times<T>(keys: Seq<(F32Bits, T)>) -> Seq<F32Bits> {
    Seq::new(keys.len(), |i: int| keys[i].0)
}

/// Whether a track can be read at this time: the time is not NaN, and neither is that of the first
/// key, unless the last key has come.
pub open spec fn readable(times: Seq<F32Bits>, t: F32Bits) -> bool {
    times.len() > 0 ==> !f32_is_nan(t) && (!f32_is_nan(times[0]) || f32_le(
        times[times.len() - 1],
        t,
    ))
}

/// What is read off a track: nothing where it is empty, its first value up to its first time, its
/// last from its last time on, and otherwise a value between two neighbours that enclose the time.
pub open spec fn is_sample(times: Seq<F32Bits>, t: F32Bits, out: TrackSample) -> bool {
    let last = times.len() - 1;
    if times.len() == 0 {
        out == TrackSample::Missing
    } else if f32_le(t, times[0]) {
        out == TrackSample::Key(0)
    } else if f32_le(times[last], t) {
        out == TrackSample::Key(last as usize)
    } else {
        out matches TrackSample::Between { later, blends } && {
            &&& 0 < later < times.len()
            &&& f32_le(times[later - 1], t)
            &&& !f32_le(times[later as int], t)
            &&& blends == f32_lt(times[later - 1], times[later as int])
        }
    }
}

/// The times are numbers and never go back.
pub open spec fn ordered(times: Seq<F32Bits>) -> bool {
    &&& forall|i: int| 0 <= i < times.len() ==> !f32_is_nan(#[trigger] times[i])
    &&& forall|i: int, j: int|
        0 <= i < j < times.len() ==> f32_le(#[trigger] times[i], #[trigger] times[j])
}

/// In a track whose times never go back, what is read at a point in time is settled: the later
/// neighbour is the first key frame after that time.
pub proof fn law_ordered_tracks_have_one_sample(
    times: Seq<F32Bits>,
    t: F32Bits,
    a: TrackSample,
    b: TrackSample,
)
    requires
        ordered(times),
        !f32_is_nan(t),
        is_sample(times, t, a),
        is_sample(times, t, b),
    ensures
        a == b,
        a matches TrackSample::Between { later, blends } ==> {
            &&& blends
            &&& forall|i: int| 0 <= i < later ==> f32_le(#[trigger] times[i], t)
            &&& forall|i: int| later <= i < times.len() ==> f32_lt(t, #[trigger] times[i])
        },
{
    if let TrackSample::Between { later: i, .. } = a {
        if let TrackSample::Between { later: j, .. } = b {
            if i < j {
                assert(f32_le(times[i as int], times[j - 1]) || i == j - 1);
            } else if j < i {
                assert(f32_le(times[j as int], times[i - 1]) || j == i - 1);
            }
        }
    }
}

/// Reads a track at a point in time.
pub fn sample_track<T>(keys: &[(F32Bits, T)], t: F32Bits) -> (out: TrackSample)
    requires
        readable(times(keys@), t),
    ensures
        is_sample(times(keys@), t, out),
{
    if keys.len() == 0 {
        return TrackSample::Missing;
    }
    let last: usize = keys.len() - 1;
    if at_most(t, keys[0].0) {
        return TrackSample::Key(0);
    }
    if at_most(keys[last].0, t) {
        return TrackSample::Key(last);
    }
    let mut before: usize = 0;
    let mut later: usize = last;
    while later - before > 1
        invariant
            before < later <= last < keys@.len(),
            f32_le(keys@[before as int].0, t),
            !f32_le(keys@[later as int].0, t),
        decreases later - before,
    {
        let middle: usize = before + (later - before) / 2;
        if at_most(keys[middle].0, t) {
            before = middle;
        } else {
            later = middle;
        }
    }
    TrackSample::Between { later, blends: below(keys[before].0, keys[later].0) }
}

/// What the three tracks of a channel give at a point in time.
#[derive(Clone, Copy, PartialEq, Eq, Structural, Debug)]
pub struct ChannelSample {
    pub translation: TrackSample,
    pub rotation: TrackSample,
    pub scale: TrackSample,
}

impl ChannelView {
    /// All three tracks can be read.
    pub open spec fn readable(self, t: F32Bits) -> bool {
        &&& readable(times(self.translations), t)
        &&& readable(times(self.rotations), t)
        &&& readable(times(self.scales), t)
    }

    /// What is read off the three tracks.
    pub open spec fn is_sample(self, t: F32Bits, out: ChannelSample) -> bool {
        &&& is_sample(times(self.translations), t, out.translation)
        &&& is_sample(times(self.rotations), t, out.rotation)
        &&& is_sample(times(self.scales), t, out.scale)
    }
}

impl AnimationChannel {
    pub fn sample_translation(&self, t: F32Bits) -> (out: TrackSample)
        requires
            readable(times(self.translations@), t),
        ensures
            is_sample(times(self.translations@), t, out),
    {
        sample_track(&self.translations, t)
    }

    pub fn sample_rotation(&self, t: F32Bits) -> (out: TrackSample)
        requires
            readable(times(self.rotations@), t),
        ensures
            is_sample(times(self.rotations@), t, out),
    {
        sample_track(&self.rotations, t)
    }

    pub fn sample_scale(&self, t: F32Bits) -> (out: TrackSample)
        requires
            readable(times(self.scales@), t),
        ensures
            is_sample(times(self.scales@), t, out),
    {
        sample_track(&self.scales, t)
    }
}

/// Where a bone's own transform comes from.
#[derive(Clone, Copy, PartialEq, Eq, Structural, Debug)]
pub enum BonePose {
    /// The transform that the skeleton gives it.
    Rest,
    /// These samples of this channel. Where the translation is missing, the skeleton's is taken;
    /// a missing rotation or scale changes nothing.
    Keyed { channel: usize, sample: ChannelSample },
}

impl ClipView {
    /// Every channel moves a bone that is there.
    pub open spec fn fits(self, bones: nat) -> bool {
        forall|c: int|
            0 <= c < self.channels.len() ==> (#[trigger] self.channels[c]).bone_index < bones
    }

    /// All channels can be read.
    pub open spec fn readable(self, t: F32Bits) -> bool {
        forall|c: int| 0 <= c < self.channels.len() ==> (#[trigger] self.channels[c]).readable(t)
    }

    /// The last of the first `n` channels that moves this bone.
    pub open spec fn last_channel(self, bone: int, n: int) -> Option<int>
        decreases n,
    {
        if n <= 0 {
            None
        } else if self.channels[n - 1].bone_index == bone {
            Some(n - 1)
        } else {
            self.last_channel(bone, n - 1)
        }
    }

    /// The pose of a bone, going by the first `n` channels: that of the last one that moves it.
    pub open spec fn is_pose(self, bone: int, t: F32Bits, n: int, out: BonePose) -> bool {
        match self.last_channel(bone, n) {
            None => out == BonePose::Rest,
            Some(c) => out matches BonePose::Keyed { channel, sample } && channel == c
                && self.channels[c].is_sample(t, sample),
        }
    }
}

impl AnimationClip {
    /// Where the transform of each bone comes from at a point in time.
    pub fn sample_local_transforms(&self, skeleton: &Skeleton, t: F32Bits) -> (out: Vec<BonePose>)
        requires
            self@.fits(skeleton.bones@.len()),
            self@.readable(t),
        ensures
            out@.len() == skeleton.bones@.len(),
            forall|b: int|
                0 <= b < out@.len() ==> self@.is_pose(
                    b,
                    t,
                    self@.channels.len() as int,
                    #[trigger] out@[b],
                ),
    {
        let mut locals = rest_poses(skeleton.bones.len());
        let mut c: usize = 0;
        while c < self.channels.len()
            invariant
                c <= self.channels@.len(),
                self@.fits(skeleton.bones@.len()),
                self@.readable(t),
                locals@.len() == skeleton.bones@.len(),
                forall|b: int|
                    0 <= b < locals@.len() ==> self@.is_pose(b, t, c as int, #[trigger] locals@[b]),
            decreases self.channels@.len() - c,
        {
            let channel = &self.channels[c];
            proof {
                assert(self@.channels[c as int] == channel@);
            }
            let sample = ChannelSample {
                translation: channel.sample_translation(t),
                rotation: channel.sample_rotation(t),
                scale: channel.sample_scale(t),
            };
            let bone: usize = channel.bone_index;
            locals.set(bone, BonePose::Keyed { channel: c, sample });
            c = c + 1;
        }
        locals
    }
}

/// All bones as the skeleton has them.
fn rest_poses(count: usize) -> (out: Vec<BonePose>)
    ensures
        out@ == Seq::new(count as nat, |i: int| BonePose::Rest),
{
    let mut poses: Vec<BonePose> = Vec::new();
    let mut i: usize = 0;
    while i < count
        invariant
            i <= count,
            poses@ == Seq::new(i as nat, |k: int| BonePose::Rest),
        decreases count - i,
    {
        poses.push(BonePose::Rest);
        proof {
            assert(poses@ =~= Seq::new((i + 1) as nat, |k: int| BonePose::Rest));
        }
        i = i + 1;
    }
    proof {
        assert(poses@ =~= Seq::new(count as nat, |k: int| BonePose::Rest));
    }
    poses
}

/// A bone that is placed relative to its parent, or, without one, to the model.
#[derive(Clone, Copy, PartialEq, Eq, Structural, Debug)]
pub struct Visit {
    pub bone: usize,
    pub parent: Option<usize>,
}

/// The bones below and at `bone`, each before its children, at most `depth` levels of them. There
/// is no such order where a bone is missing or the levels do not end.
pub open spec fn walk(
    bones: Seq<BoneView>,
    bone: usize,
    parent: Option<usize>,
    depth: nat,
) -> Option<Seq<Visit>>
    decreases depth, 0nat,
{
    if depth == 0 || bone >= bones.len() {
        None
    } else {
        match walk_all(bones, bones[bone as int].children, Some(bone), (depth - 1) as nat) {
            Some(below) => Some(seq![Visit { bone, parent }] + below),
            None => None,
        }
    }
}

/// The bones below and at each of `list`, one after the other.
pub open spec fn walk_all(
    bones: Seq<BoneView>,
    list: Seq<usize>,
    parent: Option<usize>,
    depth: nat,
) -> Option<Seq<Visit>>
    decreases depth, list.len() + 1,
{
    if list.len() == 0 {
        Some(Seq::empty())
    } else {
        match walk(bones, list[0], parent, depth) {
            Some(first) => match walk_all(bones, list.drop_first(), parent, depth) {
                Some(others) => Some(first + others),
                None => None,
            },
            None => None,
        }
    }
}

impl SkeletonView {
    /// The order in which the bones are placed. No chain of different bones has more levels than
    /// there are bones.
    pub open spec fn order(self) -> Option<Seq<Visit>> {
        walk_all(self.bones, self.root_bones, None, self.bones.len())
    }
}

/// Appends the bones at and below `bone`, each before its children. Gives `false` where there is
/// no such order.
pub fn propagate_world_transform(
    skeleton: &Skeleton,
    bone: usize,
    parent: Option<usize>,
    depth: usize,
    out: &mut Vec<Visit>,
) -> (done: bool)
    ensures
        match walk(skeleton@.bones, bone, parent, depth as nat) {
            Some(visits) => done && final(out)@ == old(out)@ + visits,
            None => !done,
        },
    decreases depth, 0nat,
{
    if depth == 0 || bone >= skeleton.bones.len() {
        return false;
    }
    proof {
        assert(skeleton@.bones[bone as int] == skeleton.bones@[bone as int]@);
    }
    out.push(Visit { bone, parent });
    let done = propagate_all(
        skeleton,
        &skeleton.bones[bone].children,
        Some(bone),
        depth - 1,
        out,
    );
    proof {
        if done {
            let below = walk_all(
                skeleton@.bones,
                skeleton@.bones[bone as int].children,
                Some(bone),
                (depth - 1) as nat,
            )->Some_0;
            assert(old(out)@.push(Visit { bone, parent }) + below =~= old(out)@ + (seq![
                Visit { bone, parent },
            ] + below));
        }
    }
    done
}

fn propagate_all(
    skeleton: &Skeleton,
    list: &Vec<usize>,
    parent: Option<usize>,
    depth: usize,
    out: &mut Vec<Visit>,
) -> (done: bool)
    ensures
        match walk_all(skeleton@.bones, list@, parent, depth as nat) {
            Some(visits) => done && final(out)@ == old(out)@ + visits,
            None => !done,
        },
    decreases depth, 1nat,
{
    let ghost whole = walk_all(skeleton@.bones, list@, parent, depth as nat);
    let mut i: usize = 0;
    proof {
        assert(list@.skip(0) =~= list@);
        if whole is Some {
            assert(out@ + whole->Some_0 =~= old(out)@ + whole->Some_0);
        }
    }
    while i < list.len()
        invariant
            i <= list@.len(),
            whole == walk_all(skeleton@.bones, list@, parent, depth as nat),
            match walk_all(skeleton@.bones, list@.skip(i as int), parent, depth as nat) {
                Some(visits) => whole is Some && out@ + visits == old(out)@ + whole->Some_0,
                None => whole is None,
            },
        decreases depth, 1nat, list@.len() - i,
    {
        let ghost here = out@;
        let ghost rest = list@.skip(i as int);
        proof {
            assert(rest[0] == list@[i as int]);
            assert(rest.drop_first() =~= list@.skip(i + 1));
        }
        if !propagate_world_transform(skeleton, list[i], parent, depth, out) {
            return false;
        }
        proof {
            let first = walk(skeleton@.bones, list@[i as int], parent, depth as nat)->Some_0;
            match walk_all(skeleton@.bones, list@.skip(i + 1), parent, depth as nat) {
                Some(others) => {
                    assert(out@ + others =~= here + (first + others));
                },
                None => {},
            }
        }
        i = i + 1;
    }
    proof {
        assert(list@.skip(i as int) =~= Seq::<usize>::empty());
        assert(out@ + Seq::<Visit>::empty() =~= out@);
    }
    true
}

/// How a skeleton stands at a point in time: where the transform of each bone comes from, and the
/// order in which the bones are placed.
pub struct PosePlan {
    pub locals: Vec<BonePose>,
    pub order: Vec<Visit>,
}

impl PlayerView {
    /// The clip that was started last.
    pub open spec fn current_clip(self) -> Option<ClipView> {
        match self.current {
            Some(name) => if self.clips.contains_key(name) {
                Some(self.clips[name])
            } else {
                None
            },
            None => None,
        }
    }

    /// Whether the skeleton can be posed: its bones have an order, and the clip, if there is one,
    /// moves only bones that are there and can be read at this time.
    pub open spec fn can_sample(self, skeleton: SkeletonView) -> bool {
        &&& skeleton.order() is Some
        &&& self.current_clip() matches Some(clip) ==> clip.fits(skeleton.bones.len())
            && clip.readable(self.time)
    }
}

fn track_is_readable<T>(keys: &[(F32Bits, T)], t: F32Bits) -> (out: bool)
    ensures
        out == readable(times(keys@), t),
{
    keys.len() == 0 || (!is_nan(t) && (!is_nan(keys[0].0) || at_most(keys[keys.len() - 1].0, t)))
}

impl AnimationClip {
    /// Whether the clip can be read at this time for a skeleton of so many bones.
    pub fn is_readable(&self, bones: usize, t: F32Bits) -> (out: bool)
        ensures
            out == (self@.fits(bones as nat) && self@.readable(t)),
    {
        let mut c: usize = 0;
        while c < self.channels.len()
            invariant
                c <= self.channels@.len(),
                forall|k: int|
                    0 <= k < c ==> (#[trigger] self@.channels[k]).bone_index < bones
                        && self@.channels[k].readable(t),
            decreases self.channels@.len() - c,
        {
            let channel = &self.channels[c];
            proof {
                assert(self@.channels[c as int] == channel@);
            }
            if channel.bone_index >= bones || !track_is_readable(&channel.translations, t)
                || !track_is_readable(&channel.rotations, t) || !track_is_readable(
                &channel.scales,
                t,
            ) {
                return false;
            }
            c = c + 1;
        }
        true
    }
}

/// The order in which a skeleton's bones are placed, if there is one.
pub fn bone_order(skeleton: &Skeleton) -> (out: Option<Vec<Visit>>)
    ensures
        match skeleton@.order() {
            Some(visits) => out is Some && out->Some_0@ == visits,
            None => out is None,
        },
{
    let mut order: Vec<Visit> = Vec::new();
    if propagate_all(skeleton, &skeleton.root_bones, None, skeleton.bones.len(), &mut order) {
        proof {
            assert(Seq::<Visit>::empty() + skeleton@.order()->Some_0
                =~= skeleton@.order()->Some_0);
        }
        Some(order)
    } else {
        None
    }
}

impl AnimationPlayer {
    /// Whether the skeleton can be posed.
    pub fn can_sample(&self, skeleton: &Skeleton) -> (out: bool)
        requires
            self.wf(),
        ensures
            out == self@.can_sample(skeleton@),
    {
        if bone_order(skeleton).is_none() {
            return false;
        }
        match self.current_clip() {
            Some(clip) => clip.is_readable(skeleton.bones.len(), self.time()),
            None => true,
        }
    }

    /// How the skeleton stands now: as the clip that was started last has it, or at rest.
    pub fn sample(&self, skeleton: &Skeleton) -> (out: PosePlan)
        requires
            self.wf(),
            self@.can_sample(skeleton@),
        ensures
            out.locals@.len() == skeleton.bones@.len(),
            match self@.current_clip() {
                Some(clip) => forall|b: int|
                    0 <= b < out.locals@.len() ==> clip.is_pose(
                        b,
                        self@.time,
                        clip.channels.len() as int,
                        #[trigger] out.locals@[b],
                    ),
                None => forall|b: int|
                    0 <= b < out.locals@.len() ==> #[trigger] out.locals@[b] == BonePose::Rest,
            },
            Some(out.order@) == skeleton@.order(),
    {
        let locals = match self.current_clip() {
            Some(clip) => clip.sample_local_transforms(skeleton, self.time()),
            None => rest_poses(skeleton.bones.len()),
        };
        let mut order: Vec<Visit> = Vec::new();
        let _done = propagate_all(
            skeleton,
            &skeleton.root_bones,
            None,
            skeleton.bones.len(),
            &mut order,
        );
        proof {
            assert(Seq::<Visit>::empty() + skeleton@.order()->Some_0
                =~= skeleton@.order()->Some_0);
        }
        PosePlan { locals, order }
    }
}

/// `height` bounds the number of levels below each bone, so that no bone is below itself.
pub open spec fn has_heights(bones: Seq<BoneView>, height: Seq<nat>) -> bool {
    &&& height.len() == bones.len()
    &&& forall|b: int| 0 <= b < bones.len() ==> #[trigger] height[b] < bones.len()
    &&& forall|b: int, i: int|
        0 <= b < bones.len() && 0 <= i < bones[b].children.len() ==> {
            &&& (#[trigger] bones[b].children[i]) < bones.len()
            &&& height[bones[b].children[i] as int] < height[b]
        }
}

proof fn lemma_walk_ends(
    bones: Seq<BoneView>,
    height: Seq<nat>,
    bone: usize,
    parent: Option<usize>,
    depth: nat,
)
    requires
        has_heights(bones, height),
        bone < bones.len(),
        height[bone as int] < depth,
    ensures
        walk(bones, bone, parent, depth) is Some,
    decreases depth, 0nat,
{
    let children = bones[bone as int].children;
    assert forall|i: int| 0 <= i < children.len() implies #[trigger] children[i] < bones.len()
        && height[children[i] as int] < depth - 1 by {
        assert(bones[bone as int].children[i] < bones.len());
    }
    lemma_walk_all_ends(bones, height, children, Some(bone), (depth - 1) as nat);
}

proof fn lemma_walk_all_ends(
    bones: Seq<BoneView>,
    height: Seq<nat>,
    list: Seq<usize>,
    parent: Option<usize>,
    depth: nat,
)
    requires
        has_heights(bones, height),
        forall|i: int|
            0 <= i < list.len() ==> #[trigger] list[i] < bones.len() && height[list[i] as int]
                < depth,
    ensures
        walk_all(bones, list, parent, depth) is Some,
    decreases depth, list.len() + 1,
{
    if list.len() > 0 {
        lemma_walk_ends(bones, height, list[0], parent, depth);
        assert forall|i: int| 0 <= i < list.drop_first().len() implies #[trigger]
        list.drop_first()[i] < bones.len() && height[list.drop_first()[i] as int] < depth by {
            assert(list[i + 1] < bones.len());
        }
        lemma_walk_all_ends(bones, height, list.drop_first(), parent, depth);
    }
}

/// A skeleton in which no bone is below itself has an order, whatever its roots.
pub proof fn law_skeletons_without_cycles_have_an_order(skeleton: SkeletonView, height: Seq<nat>)
    requires
        has_heights(skeleton.bones, height),
        forall|i: int|
            0 <= i < skeleton.root_bones.len() ==> (#[trigger] skeleton.root_bones[i])
                < skeleton.bones.len(),
    ensures
        skeleton.order() is Some,
{
    assert forall|i: int| 0 <= i < skeleton.root_bones.len() implies #[trigger]
    skeleton.root_bones[i] < skeleton.bones.len() && height[skeleton.root_bones[i] as int]
        < skeleton.bones.len() by {
        assert(height[skeleton.root_bones[i] as int] < skeleton.bones.len());
    }
    lemma_walk_all_ends(
        skeleton.bones,
        height,
        skeleton.root_bones,
        None,
        skeleton.bones.len(),
    );
}

/// Every bone has its parent before it, or has the given parent.
pub open spec fn parents_first(visits: Seq<Visit>, top: Option<usize>) -> bool {
    forall|i: int|
        0 <= i < visits.len() ==> (#[trigger] visits[i]).parent == top || exists|j: int|
            0 <= j < i && visits[i].parent == Some((#[trigger] visits[j]).bone)
}

/// All bones that are visited are there.
pub open spec fn visits_within(visits: Seq<Visit>, bones: nat) -> bool {
    forall|i: int| 0 <= i < visits.len() ==> (#[trigger] visits[i]).bone < bones
}

proof fn lemma_walk_parents(
    bones: Seq<BoneView>,
    bone: usize,
    parent: Option<usize>,
    depth: nat,
)
    ensures
        walk(bones, bone, parent, depth) matches Some(visits) ==> parents_first(visits, parent)
            && visits_within(visits, bones.len()),
    decreases depth, 0nat,
{
    if depth > 0 && bone < bones.len() {
        let children = bones[bone as int].children;
        lemma_walk_all_parents(bones, children, Some(bone), (depth - 1) as nat);
        if let Some(below) = walk_all(bones, children, Some(bone), (depth - 1) as nat) {
            let visits = seq![Visit { bone, parent }] + below;
            assert forall|i: int| 0 <= i < visits.len() implies (#[trigger] visits[i]).parent
                == parent || exists|j: int|
                0 <= j < i && visits[i].parent == Some((#[trigger] visits[j]).bone) by {
                if i > 0 {
                    assert(visits[i] == below[i - 1]);
                    if below[i - 1].parent == Some(bone) {
                        assert(visits[0].bone == bone);
                    } else {
                        let j = choose|j: int|
                            0 <= j < i - 1 && below[i - 1].parent == Some(
                                (#[trigger] below[j]).bone,
                            );
                        assert(visits[j + 1] == below[j]);
                    }
                }
            }
            assert forall|i: int| 0 <= i < visits.len() implies (#[trigger] visits[i]).bone
                < bones.len() by {
                if i > 0 {
                    assert(visits[i] == below[i - 1]);
                }
            }
        }
    }
}

proof fn lemma_walk_all_parents(
    bones: Seq<BoneView>,
    list: Seq<usize>,
    parent: Option<usize>,
    depth: nat,
)
    ensures
        walk_all(bones, list, parent, depth) matches Some(visits) ==> parents_first(
            visits,
            parent,
        ) && visits_within(visits, bones.len()),
    decreases depth, list.len() + 1,
{
    if list.len() > 0 {
        lemma_walk_parents(bones, list[0], parent, depth);
        lemma_walk_all_parents(bones, list.drop_first(), parent, depth);
        if let Some(first) = walk(bones, list[0], parent, depth) {
            if let Some(others) = walk_all(bones, list.drop_first(), parent, depth) {
                let visits = first + others;
                let n = first.len() as int;
                assert forall|i: int| 0 <= i < visits.len() implies (#[trigger] visits[i]).parent
                    == parent || exists|j: int|
                    0 <= j < i && visits[i].parent == Some((#[trigger] visits[j]).bone) by {
                    if i < n {
                        assert(visits[i] == first[i]);
                        if first[i].parent != parent {
                            let j = choose|j: int|
                                0 <= j < i && first[i].parent == Some((#[trigger] first[j]).bone);
                            assert(visits[j] == first[j]);
                        }
                    } else {
                        assert(visits[i] == others[i - n]);
                        if others[i - n].parent != parent {
                            let j = choose|j: int|
                                0 <= j < i - n && others[i - n].parent == Some(
                                    (#[trigger] others[j]).bone,
                                );
                            assert(visits[j + n] == others[j]);
                        }
                    }
                }
                assert forall|i: int| 0 <= i < visits.len() implies (#[trigger] visits[i]).bone
                    < bones.len() by {
                    if i < n {
                        assert(visits[i] == first[i]);
                    } else {
                        assert(visits[i] == others[i - n]);
                    }
                }
            }
        }
    }
}

/// In the order of a skeleton every bone comes after its parent, and every bone is there.
pub proof fn law_parents_are_placed_first(skeleton: SkeletonView)
    ensures
        skeleton.order() matches Some(visits) ==> parents_first(visits, None) && visits_within(
            visits,
            skeleton.bones.len(),
        ),
{
    lemma_walk_all_parents(skeleton.bones, skeleton.root_bones, None, skeleton.bones.len());
}

/// The bones of a list are visited in its order, with this parent, at these places.
pub open spec fn found_at(
    visits: Seq<Visit>,
    list: Seq<usize>,
    parent: Option<usize>,
    at: Seq<int>,
) -> bool {
    &&& at.len() == list.len()
    &&& forall|k: int|
        0 <= k < at.len() ==> {
            &&& 0 <= #[trigger] at[k] < visits.len()
            &&& visits[at[k]].bone == list[k]
            &&& visits[at[k]].parent == parent
        }
    &&& forall|k: int, l: int| 0 <= k < l < at.len() ==> #[trigger] at[k] < #[trigger] at[l]
}

/// The bones of a list are visited in its order, with this parent, behind a place.
pub open spec fn found_after(
    visits: Seq<Visit>,
    list: Seq<usize>,
    parent: Option<usize>,
    from: int,
) -> bool {
    exists|at: Seq<int>|
        {
            &&& #[trigger] found_at(visits, list, parent, at)
            &&& forall|k: int| 0 <= k < at.len() ==> from < #[trigger] at[k]
        }
}

/// A bone is visited behind its parent, of which it is a child.
pub open spec fn hangs(bones: Seq<BoneView>, visits: Seq<Visit>, i: int) -> bool {
    visits[i].parent matches Some(p) && {
        &&& p < bones.len()
        &&& bones[p as int].children.contains(visits[i].bone)
        &&& exists|j: int| 0 <= j < i && (#[trigger] visits[j]).bone == p
    }
}

/// Behind a bone its children are visited, with it as their parent.
pub open spec fn carries(bones: Seq<BoneView>, visits: Seq<Visit>, i: int) -> bool {
    visits[i].bone < bones.len() && found_after(
        visits,
        bones[visits[i].bone as int].children,
        Some(visits[i].bone),
        i,
    )
}

/// What is found in a stretch of an order is found in the whole.
proof fn lemma_found_within(
    front: Seq<Visit>,
    visits: Seq<Visit>,
    back: Seq<Visit>,
    list: Seq<usize>,
    parent: Option<usize>,
    from: int,
)
    requires
        found_after(visits, list, parent, from),
    ensures
        found_after(front + visits + back, list, parent, from + front.len()),
{
    let at = choose|at: Seq<int>|
        {
            &&& #[trigger] found_at(visits, list, parent, at)
            &&& forall|k: int| 0 <= k < at.len() ==> from < #[trigger] at[k]
        };
    let n = front.len() as int;
    let moved = Seq::new(at.len(), |k: int| at[k] + n);
    let whole = front + visits + back;
    assert forall|k: int| 0 <= k < moved.len() implies {
        &&& 0 <= #[trigger] moved[k] < whole.len()
        &&& whole[moved[k]].bone == list[k]
        &&& whole[moved[k]].parent == parent
    } by {
        assert(0 <= at[k] < visits.len());
        assert(whole[moved[k]] == visits[at[k]]);
    }
    assert(found_at(whole, list, parent, moved));
    assert forall|k: int| 0 <= k < moved.len() implies from + n < #[trigger] moved[k] by {
        assert(from < at[k]);
    }
}

/// What holds of a stretch of an order holds within the whole.
proof fn lemma_hangs_within(
    bones: Seq<BoneView>,
    front: Seq<Visit>,
    visits: Seq<Visit>,
    back: Seq<Visit>,
    i: int,
)
    requires
        0 <= i < visits.len(),
    ensures
        hangs(bones, visits, i) ==> hangs(bones, front + visits + back, i + front.len()),
        carries(bones, visits, i) ==> carries(bones, front + visits + back, i + front.len()),
{
    let whole = front + visits + back;
    let n = front.len() as int;
    assert(whole[i + n] == visits[i]);
    if hangs(bones, visits, i) {
        let p = visits[i].parent->Some_0;
        let j = choose|j: int| 0 <= j < i && (#[trigger] visits[j]).bone == p;
        assert(whole[j + n] == visits[j]);
    }
    if carries(bones, visits, i) {
        lemma_found_within(
            front,
            visits,
            back,
            bones[visits[i].bone as int].children,
            Some(visits[i].bone),
            i,
        );
    }
}

proof fn lemma_walk_hangs(bones: Seq<BoneView>, bone: usize, parent: Option<usize>, depth: nat)
    ensures
        walk(bones, bone, parent, depth) matches Some(visits) ==> {
            &&& visits.len() > 0
            &&& visits[0].bone == bone
            &&& visits[0].parent == parent
            &&& forall|i: int| 0 < i < visits.len() ==> #[trigger] hangs(bones, visits, i)
            &&& forall|i: int| 0 <= i < visits.len() ==> #[trigger] carries(bones, visits, i)
        },
    decreases depth, 0nat,
{
    if depth > 0 && bone < bones.len() {
        let children = bones[bone as int].children;
        lemma_walk_all_hangs(bones, children, Some(bone), (depth - 1) as nat);
        if let Some(below) = walk_all(bones, children, Some(bone), (depth - 1) as nat) {
            let top = seq![Visit { bone, parent }];
            let visits = top + below;
            assert(top + below + Seq::<Visit>::empty() =~= visits);
            assert forall|i: int| 0 < i < visits.len() implies #[trigger] hangs(
                bones,
                visits,
                i,
            ) by {
                assert(visits[i] == below[i - 1]);
                lemma_hangs_within(bones, top, below, Seq::empty(), i - 1);
                if !hangs(bones, below, i - 1) {
                    assert(visits[0].bone == bone);
                }
            }
            assert forall|i: int| 0 <= i < visits.len() implies #[trigger] carries(
                bones,
                visits,
                i,
            ) by {
                if i == 0 {
                    lemma_found_within(top, below, Seq::empty(), children, Some(bone), -1);
                } else {
                    assert(carries(bones, below, i - 1));
                    lemma_hangs_within(bones, top, below, Seq::empty(), i - 1);
                }
            }
        }
    }
}

proof fn lemma_walk_all_hangs(
    bones: Seq<BoneView>,
    list: Seq<usize>,
    parent: Option<usize>,
    depth: nat,
)
    ensures
        walk_all(bones, list, parent, depth) matches Some(visits) ==> {
            &&& found_after(visits, list, parent, -1)
            &&& forall|i: int|
                0 <= i < visits.len() ==> #[trigger] hangs(bones, visits, i) || (visits[i].parent
                    == parent && list.contains(visits[i].bone))
            &&& forall|i: int| 0 <= i < visits.len() ==> #[trigger] carries(bones, visits, i)
        },
    decreases depth, list.len() + 1,
{
    if list.len() == 0 {
        assert(found_at(Seq::empty(), list, parent, Seq::empty()));
    } else {
        let rest = list.drop_first();
        lemma_walk_hangs(bones, list[0], parent, depth);
        lemma_walk_all_hangs(bones, rest, parent, depth);
        if let Some(first) = walk(bones, list[0], parent, depth) {
            if let Some(others) = walk_all(bones, rest, parent, depth) {
                let visits = first + others;
                let none = Seq::<Visit>::empty();
                let n = first.len() as int;
                assert(none + first + others =~= visits);
                assert(first + others + none =~= visits);
                lemma_found_within(first, others, none, rest, parent, -1);
                let at = choose|at: Seq<int>|
                    {
                        &&& #[trigger] found_at(visits, rest, parent, at)
                        &&& forall|k: int| 0 <= k < at.len() ==> -1 + n < #[trigger] at[k]
                    };
                let all = seq![0int] + at;
                assert(visits[0] == first[0]);
                assert forall|k: int| 0 <= k < all.len() implies {
                    &&& 0 <= #[trigger] all[k] < visits.len()
                    &&& visits[all[k]].bone == list[k]
                    &&& visits[all[k]].parent == parent
                } by {
                    if k > 0 {
                        assert(all[k] == at[k - 1]);
                        assert(rest[k - 1] == list[k]);
                    }
                }
                assert(found_at(visits, list, parent, all));
                assert forall|i: int| 0 <= i < visits.len() implies #[trigger] hangs(
                    bones,
                    visits,
                    i,
                ) || (visits[i].parent == parent && list.contains(visits[i].bone)) by {
                    if i < n {
                        assert(visits[i] == first[i]);
                        lemma_hangs_within(bones, none, first, others, i);
                        if i == 0 {
                            assert(list[0] == visits[i].bone);
                        } else {
                            assert(hangs(bones, first, i));
                        }
                    } else {
                        assert(visits[i] == others[i - n]);
                        lemma_hangs_within(bones, first, others, none, i - n);
                        if !hangs(bones, others, i - n) {
                            let k = choose|k: int|
                                0 <= k < rest.len() && rest[k] == visits[i].bone;
                            assert(list[k + 1] == visits[i].bone);
                        }
                    }
                }
                assert forall|i: int| 0 <= i < visits.len() implies #[trigger] carries(
                    bones,
                    visits,
                    i,
                ) by {
                    if i < n {
                        assert(carries(bones, first, i));
                        lemma_hangs_within(bones, none, first, others, i);
                    } else {
                        assert(carries(bones, others, i - n));
                        lemma_hangs_within(bones, first, others, none, i - n);
                    }
                }
            }
        }
    }
}

/// In the order of a skeleton every bone is placed relative to the bone whose child it is, which has
/// been placed before it; the root bones alone are placed relative to the model. Each root bone is
/// placed, and behind every bone that is placed each of its children is, in their order and relative
/// to it.
pub proof fn law_bones_hang_on_their_parents(skeleton: SkeletonView, visits: Seq<Visit>)
    requires
        skeleton.order() == Some(visits),
    ensures
        forall|i: int|
            0 <= i < visits.len() ==> (#[trigger] visits[i]).bone < skeleton.bones.len() && match (
            visits[i].parent) {
                None => skeleton.root_bones.contains(visits[i].bone),
                Some(p) => {
                    &&& p < skeleton.bones.len()
                    &&& skeleton.bones[p as int].children.contains(visits[i].bone)
                    &&& exists|j: int| 0 <= j < i && (#[trigger] visits[j]).bone == p
                },
            },
        found_after(visits, skeleton.root_bones, None, -1),
        forall|i: int|
            0 <= i < visits.len() ==> found_after(
                visits,
                skeleton.bones[(#[trigger] visits[i]).bone as int].children,
                Some(visits[i].bone),
                i,
            ),
{
    lemma_walk_all_hangs(skeleton.bones, skeleton.root_bones, None, skeleton.bones.len());
    assert forall|i: int| 0 <= i < visits.len() implies (#[trigger] visits[i]).bone
        < skeleton.bones.len() && match visits[i].parent {
        None => skeleton.root_bones.contains(visits[i].bone),
        Some(p) => {
            &&& p < skeleton.bones.len()
            &&& skeleton.bones[p as int].children.contains(visits[i].bone)
            &&& exists|j: int| 0 <= j < i && (#[trigger] visits[j]).bone == p
        },
    } by {
        assert(carries(skeleton.bones, visits, i));
        assert(hangs(skeleton.bones, visits, i) || (visits[i].parent is None
            && skeleton.root_bones.contains(visits[i].bone)));
    }
    assert forall|i: int| 0 <= i < visits.len() implies found_after(
        visits,
        skeleton.bones[(#[trigger] visits[i]).bone as int].children,
        Some(visits[i].bone),
        i,
    ) by {
        assert(carries(skeleton.bones, visits, i));
    }
}

/// What is read off a track. Up to the time of its first key that key counts alone, and otherwise,
/// from the time of its last key on, that one; in between two neighbours count, of which the first
/// has come and the second has not.
pub proof fn law_tracks_are_read_between_neighbours<T>(
    keys: Seq<(F32Bits, T)>,
    t: F32Bits,
    out: TrackSample,
)
    requires
        is_sample(times(keys), t, out),
        keys.len() <= usize::MAX,
    ensures
        out is Missing <==> keys.len() == 0,
        keys.len() > 0 && f32_le(t, keys[0].0) ==> out == TrackSample::Key(0),
        keys.len() > 0 && !f32_le(t, keys[0].0) && f32_le(keys.last().0, t) ==> out
            == TrackSample::Key((keys.len() - 1) as usize),
        out matches TrackSample::Key(i) ==> i < keys.len() && if i == 0 && f32_le(t, keys[0].0) {
            true
        } else {
            i == keys.len() - 1 && f32_le(keys[i as int].0, t)
        },
        out matches TrackSample::Between { later, blends } ==> {
            &&& 0 < later < keys.len()
            &&& f32_le(keys[later - 1].0, t)
            &&& !f32_le(keys[later as int].0, t)
            &&& !f32_le(t, keys[0].0)
            &&& !f32_le(keys.last().0, t)
            &&& blends <==> f32_lt(keys[later - 1].0, keys[later as int].0)
        },
{
}

/// A bone that no channel of a clip moves keeps the transform that the skeleton gives it. Any other
/// is moved by the last channel that is its own, each of its three parts by the track of that sort.
pub proof fn law_bones_move_by_their_last_channel(
    clip: ClipView,
    bone: int,
    t: F32Bits,
    out: BonePose,
)
    requires
        clip.is_pose(bone, t, clip.channels.len() as int, out),
    ensures
        match out {
            BonePose::Rest => forall|c: int|
                0 <= c < clip.channels.len() ==> (#[trigger] clip.channels[c]).bone_index != bone,
            BonePose::Keyed { channel, sample } => {
                &&& channel < clip.channels.len()
                &&& clip.channels[channel as int].bone_index == bone
                &&& forall|c: int|
                    channel < c < clip.channels.len() ==> (#[trigger] clip.channels[c]).bone_index
                        != bone
                &&& is_sample(
                    times(clip.channels[channel as int].translations),
                    t,
                    sample.translation,
                )
                &&& is_sample(times(clip.channels[channel as int].rotations), t, sample.rotation)
                &&& is_sample(times(clip.channels[channel as int].scales), t, sample.scale)
            },
        },
{
    lemma_last_channel(clip, bone, clip.channels.len() as int);
}

proof fn lemma_last_channel(clip: ClipView, bone: int, n: int)
    requires
        0 <= n <= clip.channels.len(),
    ensures
        match clip.last_channel(bone, n) {
            None => forall|c: int|
                0 <= c < n ==> (#[trigger] clip.channels[c]).bone_index != bone,
            Some(k) => {
                &&& 0 <= k < n
                &&& clip.channels[k].bone_index == bone
                &&& forall|c: int| k < c < n ==> (#[trigger] clip.channels[c]).bone_index != bone
            },
        },
    decreases n,
{
    if n > 0 && clip.channels[n - 1].bone_index != bone {
        lemma_last_channel(clip, bone, n - 1);
    }
}

/// A track can be read at any time that is a number, once the time of its last key has come, or while that of
/// its first is a number too; an empty one can always be read.
pub proof fn law_tracks_with_numbers_can_be_read(times: Seq<F32Bits>, t: F32Bits)
    ensures
        times.len() == 0 ==> readable(times, t),
        times.len() > 0 && f32_is_nan(t) ==> !readable(times, t),
        times.len() > 0 && !f32_is_nan(t) && !f32_is_nan(times[0]) ==> readable(times, t),
        times.len() > 0 && !f32_is_nan(t) && f32_is_nan(times[0]) ==> (readable(times, t) <==> f32_le(
            times.last(),
            t,
        )),
{
}

/// The clip of a player is the one of the name that was started last, where it has such a one.
pub proof fn law_the_started_clip_counts(player: PlayerView)
    ensures
        player.current is None ==> player.current_clip() is None,
        player.current matches Some(name) ==> {
            &&& player.current_clip() is Some <==> player.clips.contains_key(name)
            &&& player.clips.contains_key(name) ==> player.current_clip() == Some(
                player.clips[name],
            )
        },
{
}

/// A skeleton can be posed exactly where its bones have an order, and each channel of the clip that plays
/// moves a bone that is there and can be read in all three tracks.
pub proof fn law_skeletons_that_can_be_posed(player: PlayerView, skeleton: SkeletonView)
    ensures
        skeleton.order() is None ==> !player.can_sample(skeleton),
        skeleton.order() is Some && player.current_clip() is None ==> player.can_sample(skeleton),
        skeleton.order() is Some ==> (player.current_clip() matches Some(clip) ==> (
        player.can_sample(skeleton) <==> forall|c: int|
            0 <= c < clip.channels.len() ==> {
                let channel = #[trigger] clip.channels[c];
                &&& channel.bone_index < skeleton.bones.len()
                &&& readable(times(channel.translations), player.time)
                &&& readable(times(channel.rotations), player.time)
                &&& readable(times(channel.scales), player.time)
            })),
{
}

} // verus!
