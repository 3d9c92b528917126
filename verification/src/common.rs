//! What a model is made of: vertices, materials, bones and animation tracks.

use crate::math::{F32Bits, Mat4, Quaternion, Vec2, Vec3, F32_ZERO};
use crate::records::views;
use vstd::prelude::*;
use vstd::std_specs::cmp::PartialEqSpecImpl;

verus! {

/// A corner of a triangle, with the bones that move it and how much each does.
#[derive(Clone, Copy, Debug)]
pub struct Vertex {
    pub pos: Vec3,
    pub _pad0: F32Bits,
    pub normal: Vec3,
    pub _pad1: F32Bits,
    pub uv: Vec2,
    pub joint_indices: [u16; 4],
    pub joint_weights: [F32Bits; 4],
}

impl View for Vertex {
    type V = Vertex;

    open spec fn view(&self) -> Vertex {
        *self
    }
}

impl Vertex {
    /// A vertex whose padding is zero, and whose texture position, joints and weights are zero
    /// where they are not given.
    pub fn new(
        pos: Vec3,
        normal: Vec3,
        uv: Option<Vec2>,
        ji: Option<[u16; 4]>,
        jw: Option<[F32Bits; 4]>,
    ) -> (out: Self)
        ensures
            out.pos == pos,
            out._pad0 == F32_ZERO,
            out.normal == normal,
            out._pad1 == F32_ZERO,
            out.uv == match uv {
                Some(given) => given,
                None => Vec2 { x: F32_ZERO, y: F32_ZERO },
            },
            out.joint_indices@ == match ji {
                Some(given) => given@,
                None => seq![0u16, 0u16, 0u16, 0u16],
            },
            out.joint_weights@ == match jw {
                Some(given) => given@,
                None => seq![F32_ZERO, F32_ZERO, F32_ZERO, F32_ZERO],
            },
    {
        let joint_indices = match ji {
            Some(given) => given,
            None => [0u16, 0u16, 0u16, 0u16],
        };
        let joint_weights = match jw {
            Some(given) => given,
            None => [F32_ZERO, F32_ZERO, F32_ZERO, F32_ZERO],
        };
        let uv = match uv {
            Some(given) => given,
            None => Vec2::new(F32_ZERO, F32_ZERO),
        };
        proof {
            if ji is None {
                assert(joint_indices@ =~= seq![0u16, 0u16, 0u16, 0u16]);
            }
            if jw is None {
                assert(joint_weights@ =~= seq![F32_ZERO, F32_ZERO, F32_ZERO, F32_ZERO]);
            }
        }
        Vertex {
            pos,
            _pad0: F32_ZERO,
            normal,
            _pad1: F32_ZERO,
            uv,
            joint_indices,
            joint_weights,
        }
    }
}

/// How a surface reflects light. A negative texture index stands for no texture.
#[derive(Clone, Copy, Debug)]
pub struct Material {
    pub albedo: Vec3,
    pub albedo_texture_index: i32,
    pub metallic: F32Bits,
    pub roughness: F32Bits,
    pub emission: Vec3,
    pub transmission: F32Bits,
    pub ior: F32Bits,
    pub specular: F32Bits,
    pub clearcoat: F32Bits,
    pub clearcoat_roughness: F32Bits,
    pub sheen: F32Bits,
    pub sheen_color: Vec3,
}

impl View for Material {
    type V = Material;

    open spec fn view(&self) -> Material {
        *self
    }
}

impl Material {
    /// Two materials count as the same where the colour, its texture, the metalness and the
    /// roughness agree to the bit.
    pub open spec fn same_key(self, other: Material) -> bool {
        &&& self.albedo_texture_index == other.albedo_texture_index
        &&& self.albedo == other.albedo
        &&& self.metallic == other.metallic
        &&& self.roughness == other.roughness
    }
}

impl PartialEq for Material {
    fn eq(&self, other: &Self) -> (out: bool) {
        self.albedo_texture_index == other.albedo_texture_index && self.albedo.x == other.albedo.x
            && self.albedo.y == other.albedo.y && self.albedo.z == other.albedo.z && self.metallic
            == other.metallic && self.roughness == other.roughness
    }
}

impl PartialEqSpecImpl for Material {
    open spec fn obeys_eq_spec() -> bool {
        true
    }

    open spec fn eq_spec(&self, other: &Self) -> bool {
        self.same_key(*other)
    }
}

impl Eq for Material {

}

/// One joint of a skeleton. Children are positions in `Skeleton::bones`.
pub struct Bone {
    pub node_index: usize,
    pub name: String,
    pub children: Vec<usize>,
    pub local_transform: Mat4,
    pub inverse_bind_matrix: Mat4,
}

pub struct BoneView {
    pub node_index: usize,
    pub name: Seq<char>,
    pub children: Seq<usize>,
    pub local_transform: Mat4,
    pub inverse_bind_matrix: Mat4,
}

impl View for Bone {
    type V = BoneView;

    open spec fn view(&self) -> BoneView {
        BoneView {
            node_index: self.node_index,
            name: self.name@,
            children: self.children@,
            local_transform: self.local_transform,
            inverse_bind_matrix: self.inverse_bind_matrix,
        }
    }
}

impl Clone for Bone {
    fn clone(&self) -> (out: Self)
        ensures
            out@ == self@,
    {
        let children = self.children.clone();
        proof {
            assert(children@ =~= self.children@);
        }
        Bone {
            node_index: self.node_index,
            name: self.name.clone(),
            children,
            local_transform: self.local_transform,
            inverse_bind_matrix: self.inverse_bind_matrix,
        }
    }
}

pub struct Skeleton {
    pub bones: Vec<Bone>,
    pub root_bones: Vec<usize>,
}

pub struct SkeletonView {
    pub bones: Seq<BoneView>,
    pub root_bones: Seq<usize>,
}

impl View for Skeleton {
    type V = SkeletonView;

    open spec fn view(&self) -> SkeletonView {
        SkeletonView { bones: views(self.bones@), root_bones: self.root_bones@ }
    }
}

impl Clone for Skeleton {
    fn clone(&self) -> (out: Self)
        ensures
            out@ == self@,
    {
        let bones = self.bones.clone();
        let root_bones = self.root_bones.clone();
        proof {
            assert(views(bones@) =~= views(self.bones@));
            assert(root_bones@ =~= self.root_bones@);
        }
        Skeleton { bones, root_bones }
    }
}

/// The key frames of one bone: times, and the values at those times.
pub struct AnimationChannel {
    pub bone_index: usize,
    pub translations: Vec<(F32Bits, Vec3)>,
    pub rotations: Vec<(F32Bits, Quaternion)>,
    pub scales: Vec<(F32Bits, Vec3)>,
}

pub struct ChannelView {
    pub bone_index: usize,
    pub translations: Seq<(F32Bits, Vec3)>,
    pub rotations: Seq<(F32Bits, Quaternion)>,
    pub scales: Seq<(F32Bits, Vec3)>,
}

impl View for AnimationChannel {
    type V = ChannelView;

    open spec fn view(&self) -> ChannelView {
        ChannelView {
            bone_index: self.bone_index,
            translations: self.translations@,
            rotations: self.rotations@,
            scales: self.scales@,
        }
    }
}

/// A copy of a list of key frames.
fn clone_keys<T: Copy>(keys: &Vec<(F32Bits, T)>) -> (out: Vec<(F32Bits, T)>)
    ensures
        out@ == keys@,
{
    let mut out: Vec<(F32Bits, T)> = Vec::new();
    let mut i: usize = 0;
    while i < keys.len()
        invariant
            i <= keys@.len(),
            out@ == keys@.take(i as int),
        decreases keys@.len() - i,
    {
        out.push(keys[i]);
        proof {
            assert(keys@.take(i as int).push(keys@[i as int]) =~= keys@.take(i + 1));
        }
        i = i + 1;
    }
    proof {
        assert(keys@.take(i as int) =~= keys@);
    }
    out
}

impl Clone for AnimationChannel {
    fn clone(&self) -> (out: Self)
        ensures
            out@ == self@,
    {
        AnimationChannel {
            bone_index: self.bone_index,
            translations: clone_keys(&self.translations),
            rotations: clone_keys(&self.rotations),
            scales: clone_keys(&self.scales),
        }
    }
}

/// A named animation of a skeleton.
pub struct AnimationClip {
    pub name: String,
    pub duration: F32Bits,
    pub channels: Vec<AnimationChannel>,
}

pub struct ClipView {
    pub name: Seq<char>,
    pub duration: F32Bits,
    pub channels: Seq<ChannelView>,
}

impl View for AnimationClip {
    type V = ClipView;

    open spec fn view(&self) -> ClipView {
        ClipView { name: self.name@, duration: self.duration, channels: views(self.channels@) }
    }
}

impl Clone for AnimationClip {
    fn clone(&self) -> (out: Self)
        ensures
            out@ == self@,
    {
        let channels = self.channels.clone();
        proof {
            assert(views(channels@) =~= views(self.channels@));
        }
        AnimationClip { name: self.name.clone(), duration: self.duration, channels }
    }
}

} // verus!
