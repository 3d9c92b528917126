//! How the parts of a model are laid out in the cache.

use crate::codec::{
    bits_of_i32, i32_bits, i32_from_bits, i32_of_bits, le_bytes, lemma_parse_u32, lemma_taken,
    lemma_u32_reads_no_further, parse_u32, read_f32, reads, taken, write_f32, write_u64, ByteReader,
    Parsed,
};
use crate::common::{
    AnimationChannel, AnimationClip, Bone, BoneView, ChannelView, ClipView, Material, Skeleton,
    SkeletonView, Vertex,
};
use crate::errors::CacheError;
use crate::math::{F32Bits, Mat4, Quaternion, Vec2, Vec3, Vec4};
use crate::records::{
    encode_items, encode_list, law_prefixes_are_refused, lemma_items_read_back,
    lemma_items_read_no_further, lemma_list_reads_back, lemma_list_reads_no_further, parse_items,
    parse_list, read_array, read_list, storable_list, stored_list, views,
    write_items, write_list, Record,
};
use crate::text::{
    encode_bytes, lemma_string_reads_back, lemma_string_reads_no_further, parse_string, read_string,
    write_string,
};
use vstd::prelude::*;
use vstd::utf8::encode_utf8;

verus! {

/// What comes before the joints of a vertex, word by word.
pub open spec fn vertex_head(v: Vertex) -> Seq<u32> {
    seq![
        v.pos.x,
        v.pos.y,
        v.pos.z,
        v._pad0,
        v.normal.x,
        v.normal.y,
        v.normal.z,
        v._pad1,
        v.uv.x,
        v.uv.y,
    ]
}

/// The vertex with these parts.
pub open spec fn vertex_of(head: Seq<u32>, joints: Seq<u16>, weights: Seq<u32>) -> Vertex {
    Vertex {
        pos: Vec3 { x: head[0], y: head[1], z: head[2] },
        _pad0: head[3],
        normal: Vec3 { x: head[4], y: head[5], z: head[6] },
        _pad1: head[7],
        uv: Vec2 { x: head[8], y: head[9] },
        joint_indices: [joints[0], joints[1], joints[2], joints[3]],
        joint_weights: [weights[0], weights[1], weights[2], weights[3]],
    }
}

impl Record for Vertex {
    open spec fn encoding(value: Vertex) -> Seq<u8> {
        encode_items::<u32>(vertex_head(value)) + (encode_items::<u16>(value.joint_indices@)
            + encode_items::<u32>(value.joint_weights@))
    }

    open spec fn parsing(s: Seq<u8>) -> Parsed<Vertex> {
        match parse_items::<u32>(s, 10) {
            Err(e) => Err(e),
            Ok((head, s)) => match parse_items::<u16>(s, 4) {
                Err(e) => Err(e),
                Ok((joints, s)) => match parse_items::<u32>(s, 4) {
                    Err(e) => Err(e),
                    Ok((weights, s)) => Ok((vertex_of(head, joints, weights), s)),
                },
            },
        }
    }

    open spec fn stored(value: Vertex) -> Vertex {
        value
    }

    open spec fn storable(value: Vertex) -> bool {
        true
    }

    proof fn reads_back(value: Vertex, tail: Seq<u8>) {
        let head = vertex_head(value);
        let joints = value.joint_indices@;
        let weights = value.joint_weights@;
        let b = encode_items::<u16>(joints);
        let c = encode_items::<u32>(weights);
        assert(Self::encoding(value) + tail =~= encode_items::<u32>(head) + (b + (c + tail)));
        lemma_items_read_back::<u32>(head, b + (c + tail));
        lemma_items_read_back::<u16>(joints, c + tail);
        lemma_items_read_back::<u32>(weights, tail);
        assert(stored_list::<u32>(head) =~= head);
        assert(stored_list::<u16>(joints) =~= joints);
        assert(stored_list::<u32>(weights) =~= weights);
        let back = vertex_of(head, joints, weights);
        assert(back.joint_indices =~= value.joint_indices);
        assert(back.joint_weights =~= value.joint_weights);
    }

    proof fn reads_no_further(s: Seq<u8>, tail: Seq<u8>) {
        if let Ok((_, s1)) = parse_items::<u32>(s, 10) {
            if let Ok((_, s2)) = parse_items::<u16>(s1, 4) {
                if let Ok((_, s3)) = parse_items::<u32>(s2, 4) {
                    let t2 = taken(s2, s3) + tail;
                    let t1 = taken(s1, s2) + t2;
                    lemma_items_read_no_further::<u32>(s, 10, t1);
                    lemma_items_read_no_further::<u16>(s1, 4, t2);
                    lemma_items_read_no_further::<u32>(s2, 4, tail);
                    lemma_taken(s, s1, s2, t2);
                    lemma_taken(s, s2, s3, tail);
                }
            }
        }
    }

    fn write_record(&self, w: &mut Vec<u8>) {
        write_vertex(w, self);
    }

    fn read_record(r: &mut ByteReader) -> (out: Result<Vertex, CacheError>) {
        read_vertex(r)
    }
}

/// Appends a vertex.
pub fn write_vertex(w: &mut Vec<u8>, v: &Vertex)
    ensures
        final(w)@ == old(w)@ + Vertex::encoding(*v),
{
    let head: [u32; 10] = [
        v.pos.x,
        v.pos.y,
        v.pos.z,
        v._pad0,
        v.normal.x,
        v.normal.y,
        v.normal.z,
        v._pad1,
        v.uv.x,
        v.uv.y,
    ];
    write_items(w, &head);
    write_items(w, &v.joint_indices);
    write_items(w, &v.joint_weights);
    proof {
        assert(views(head@) =~= vertex_head(*v));
        assert(views(v.joint_indices@) =~= v.joint_indices@);
        assert(views(v.joint_weights@) =~= v.joint_weights@);
        assert(w@ =~= old(w)@ + Vertex::encoding(*v));
    }
}

/// Reads a vertex.
pub fn read_vertex(r: &mut ByteReader) -> (out: Result<Vertex, CacheError>)
    requires
        old(r).wf(),
    ensures
        reads(*old(r), *final(r), out, Vertex::parsing(old(r).rest())),
{
    let head: [u32; 10] = read_array(r, 0u32)?;
    let joint_indices: [u16; 4] = read_array(r, 0u16)?;
    let joint_weights: [u32; 4] = read_array(r, 0u32)?;
    let v = Vertex {
        pos: Vec3::new(head[0], head[1], head[2]),
        _pad0: head[3],
        normal: Vec3::new(head[4], head[5], head[6]),
        _pad1: head[7],
        uv: Vec2::new(head[8], head[9]),
        joint_indices,
        joint_weights,
    };
    proof {
        let back = vertex_of(views(head@), views(joint_indices@), views(joint_weights@));
        assert(back.joint_indices =~= v.joint_indices);
        assert(back.joint_weights =~= v.joint_weights);
    }
    Ok(v)
}

/// A material, word by word.
pub open spec fn material_words(m: Material) -> Seq<u32> {
    seq![
        m.albedo.x,
        m.albedo.y,
        m.albedo.z,
        i32_bits(m.albedo_texture_index),
        m.metallic,
        m.roughness,
        m.emission.x,
        m.emission.y,
        m.emission.z,
        m.transmission,
        m.ior,
        m.specular,
        m.clearcoat,
        m.clearcoat_roughness,
        m.sheen,
        m.sheen_color.x,
        m.sheen_color.y,
        m.sheen_color.z,
    ]
}

/// The material with these words.
pub open spec fn material_of(words: Seq<u32>) -> Material {
    Material {
        albedo: Vec3 { x: words[0], y: words[1], z: words[2] },
        albedo_texture_index: i32_of_bits(words[3]),
        metallic: words[4],
        roughness: words[5],
        emission: Vec3 { x: words[6], y: words[7], z: words[8] },
        transmission: words[9],
        ior: words[10],
        specular: words[11],
        clearcoat: words[12],
        clearcoat_roughness: words[13],
        sheen: words[14],
        sheen_color: Vec3 { x: words[15], y: words[16], z: words[17] },
    }
}

impl Record for Material {
    open spec fn encoding(value: Material) -> Seq<u8> {
        encode_items::<u32>(material_words(value))
    }

    open spec fn parsing(s: Seq<u8>) -> Parsed<Material> {
        match parse_items::<u32>(s, 18) {
            Err(e) => Err(e),
            Ok((words, rest)) => Ok((material_of(words), rest)),
        }
    }

    open spec fn stored(value: Material) -> Material {
        value
    }

    open spec fn storable(value: Material) -> bool {
        true
    }

    proof fn reads_back(value: Material, tail: Seq<u8>) {
        let words = material_words(value);
        lemma_items_read_back::<u32>(words, tail);
        assert(stored_list::<u32>(words) =~= words);
    }

    proof fn reads_no_further(s: Seq<u8>, tail: Seq<u8>) {
        if let Ok((_, s1)) = parse_items::<u32>(s, 18) {
            lemma_items_read_no_further::<u32>(s, 18, tail);
        }
    }

    fn write_record(&self, w: &mut Vec<u8>) {
        write_material(w, self);
    }

    fn read_record(r: &mut ByteReader) -> (out: Result<Material, CacheError>) {
        read_material(r)
    }
}

/// Appends a material.
pub fn write_material(w: &mut Vec<u8>, m: &Material)
    ensures
        final(w)@ == old(w)@ + Material::encoding(*m),
{
    let texture: u32 = bits_of_i32(m.albedo_texture_index);
    let words: [u32; 18] = [
        m.albedo.x,
        m.albedo.y,
        m.albedo.z,
        texture,
        m.metallic,
        m.roughness,
        m.emission.x,
        m.emission.y,
        m.emission.z,
        m.transmission,
        m.ior,
        m.specular,
        m.clearcoat,
        m.clearcoat_roughness,
        m.sheen,
        m.sheen_color.x,
        m.sheen_color.y,
        m.sheen_color.z,
    ];
    write_items(w, &words);
    proof {
        assert(views(words@) =~= material_words(*m));
    }
}

/// Reads a material.
pub fn read_material(r: &mut ByteReader) -> (out: Result<Material, CacheError>)
    requires
        old(r).wf(),
    ensures
        reads(*old(r), *final(r), out, Material::parsing(old(r).rest())),
{
    let words: [u32; 18] = read_array(r, 0u32)?;
    Ok(
        Material {
            albedo: Vec3::new(words[0], words[1], words[2]),
            albedo_texture_index: i32_from_bits(words[3]),
            metallic: words[4],
            roughness: words[5],
            emission: Vec3::new(words[6], words[7], words[8]),
            transmission: words[9],
            ior: words[10],
            specular: words[11],
            clearcoat: words[12],
            clearcoat_roughness: words[13],
            sheen: words[14],
            sheen_color: Vec3::new(words[15], words[16], words[17]),
        },
    )
}

/// A matrix, word by word: each column from top to bottom.
pub open spec fn mat4_words(m: Mat4) -> Seq<u32> {
    seq![
        m.x.x,
        m.x.y,
        m.x.z,
        m.x.w,
        m.y.x,
        m.y.y,
        m.y.z,
        m.y.w,
        m.z.x,
        m.z.y,
        m.z.z,
        m.z.w,
        m.w.x,
        m.w.y,
        m.w.z,
        m.w.w,
    ]
}

/// The matrix with these words.
pub open spec fn mat4_of(words: Seq<u32>) -> Mat4 {
    Mat4 {
        x: Vec4 { x: words[0], y: words[1], z: words[2], w: words[3] },
        y: Vec4 { x: words[4], y: words[5], z: words[6], w: words[7] },
        z: Vec4 { x: words[8], y: words[9], z: words[10], w: words[11] },
        w: Vec4 { x: words[12], y: words[13], z: words[14], w: words[15] },
    }
}

impl Record for Mat4 {
    open spec fn encoding(value: Mat4) -> Seq<u8> {
        encode_items::<u32>(mat4_words(value))
    }

    open spec fn parsing(s: Seq<u8>) -> Parsed<Mat4> {
        match parse_items::<u32>(s, 16) {
            Err(e) => Err(e),
            Ok((words, rest)) => Ok((mat4_of(words), rest)),
        }
    }

    open spec fn stored(value: Mat4) -> Mat4 {
        value
    }

    open spec fn storable(value: Mat4) -> bool {
        true
    }

    proof fn reads_back(value: Mat4, tail: Seq<u8>) {
        let words = mat4_words(value);
        lemma_items_read_back::<u32>(words, tail);
        assert(stored_list::<u32>(words) =~= words);
    }

    proof fn reads_no_further(s: Seq<u8>, tail: Seq<u8>) {
        if let Ok((_, s1)) = parse_items::<u32>(s, 16) {
            lemma_items_read_no_further::<u32>(s, 16, tail);
        }
    }

    fn write_record(&self, w: &mut Vec<u8>) {
        write_mat4(w, self);
    }

    fn read_record(r: &mut ByteReader) -> (out: Result<Mat4, CacheError>) {
        read_mat4(r)
    }
}

/// Appends a matrix.
pub fn write_mat4(w: &mut Vec<u8>, m: &Mat4)
    ensures
        final(w)@ == old(w)@ + Mat4::encoding(*m),
{
    let words: [u32; 16] = [
        m.x.x,
        m.x.y,
        m.x.z,
        m.x.w,
        m.y.x,
        m.y.y,
        m.y.z,
        m.y.w,
        m.z.x,
        m.z.y,
        m.z.z,
        m.z.w,
        m.w.x,
        m.w.y,
        m.w.z,
        m.w.w,
    ];
    write_items(w, &words);
    proof {
        assert(views(words@) =~= mat4_words(*m));
    }
}

/// Reads a matrix.
pub fn read_mat4(r: &mut ByteReader) -> (out: Result<Mat4, CacheError>)
    requires
        old(r).wf(),
    ensures
        reads(*old(r), *final(r), out, Mat4::parsing(old(r).rest())),
{
    let words: [u32; 16] = read_array(r, 0u32)?;
    Ok(
        Mat4 {
            x: Vec4 { x: words[0], y: words[1], z: words[2], w: words[3] },
            y: Vec4 { x: words[4], y: words[5], z: words[6], w: words[7] },
            z: Vec4 { x: words[8], y: words[9], z: words[10], w: words[11] },
            w: Vec4 { x: words[12], y: words[13], z: words[14], w: words[15] },
        },
    )
}

/// A key frame of a vector: the time and the three components.
impl Record for (F32Bits, Vec3) {
    open spec fn encoding(value: (F32Bits, Vec3)) -> Seq<u8> {
        encode_items::<u32>(seq![value.0, value.1.x, value.1.y, value.1.z])
    }

    open spec fn parsing(s: Seq<u8>) -> Parsed<(F32Bits, Vec3)> {
        match parse_items::<u32>(s, 4) {
            Err(e) => Err(e),
            Ok((words, rest)) => Ok(
                ((words[0], Vec3 { x: words[1], y: words[2], z: words[3] }), rest),
            ),
        }
    }

    open spec fn stored(value: (F32Bits, Vec3)) -> (F32Bits, Vec3) {
        value
    }

    open spec fn storable(value: (F32Bits, Vec3)) -> bool {
        true
    }

    proof fn reads_back(value: (F32Bits, Vec3), tail: Seq<u8>) {
        let words = seq![value.0, value.1.x, value.1.y, value.1.z];
        lemma_items_read_back::<u32>(words, tail);
        assert(stored_list::<u32>(words) =~= words);
    }

    proof fn reads_no_further(s: Seq<u8>, tail: Seq<u8>) {
        if let Ok((_, s1)) = parse_items::<u32>(s, 4) {
            lemma_items_read_no_further::<u32>(s, 4, tail);
        }
    }

    fn write_record(&self, w: &mut Vec<u8>) {
        let words: [u32; 4] = [self.0, self.1.x, self.1.y, self.1.z];
        write_items(w, &words);
        proof {
            assert(views(words@) =~= seq![self.0, self.1.x, self.1.y, self.1.z]);
        }
    }

    fn read_record(r: &mut ByteReader) -> (out: Result<(F32Bits, Vec3), CacheError>) {
        let words: [u32; 4] = read_array(r, 0u32)?;
        Ok((words[0], Vec3::new(words[1], words[2], words[3])))
    }
}

/// A key frame of a rotation: the time, the vector part and the scalar part.
impl Record for (F32Bits, Quaternion) {
    open spec fn encoding(value: (F32Bits, Quaternion)) -> Seq<u8> {
        encode_items::<u32>(seq![value.0, value.1.v.x, value.1.v.y, value.1.v.z, value.1.s])
    }

    open spec fn parsing(s: Seq<u8>) -> Parsed<(F32Bits, Quaternion)> {
        match parse_items::<u32>(s, 5) {
            Err(e) => Err(e),
            Ok((words, rest)) => Ok(
                (
                    (
                        words[0],
                        Quaternion {
                            v: Vec3 { x: words[1], y: words[2], z: words[3] },
                            s: words[4],
                        },
                    ),
                    rest,
                ),
            ),
        }
    }

    open spec fn stored(value: (F32Bits, Quaternion)) -> (F32Bits, Quaternion) {
        value
    }

    open spec fn storable(value: (F32Bits, Quaternion)) -> bool {
        true
    }

    proof fn reads_back(value: (F32Bits, Quaternion), tail: Seq<u8>) {
        let words = seq![value.0, value.1.v.x, value.1.v.y, value.1.v.z, value.1.s];
        lemma_items_read_back::<u32>(words, tail);
        assert(stored_list::<u32>(words) =~= words);
    }

    proof fn reads_no_further(s: Seq<u8>, tail: Seq<u8>) {
        if let Ok((_, s1)) = parse_items::<u32>(s, 5) {
            lemma_items_read_no_further::<u32>(s, 5, tail);
        }
    }

    fn write_record(&self, w: &mut Vec<u8>) {
        let words: [u32; 5] = [self.0, self.1.v.x, self.1.v.y, self.1.v.z, self.1.s];
        write_items(w, &words);
        proof {
            assert(views(words@) =~= seq![
                self.0,
                self.1.v.x,
                self.1.v.y,
                self.1.v.z,
                self.1.s,
            ]);
        }
    }

    fn read_record(r: &mut ByteReader) -> (out: Result<(F32Bits, Quaternion), CacheError>) {
        let words: [u32; 5] = read_array(r, 0u32)?;
        Ok((words[0], Quaternion { v: Vec3::new(words[1], words[2], words[3]), s: words[4] }))
    }
}

impl Record for Bone {
    open spec fn encoding(value: BoneView) -> Seq<u8> {
        le_bytes(value.node_index as nat, 8) + (encode_list::<usize>(value.children) + (
        Mat4::encoding(value.local_transform) + Mat4::encoding(value.inverse_bind_matrix)))
    }

    open spec fn parsing(s: Seq<u8>) -> Parsed<BoneView> {
        match usize::parsing(s) {
            Err(e) => Err(e),
            Ok((node_index, s)) => match parse_list::<usize>(s) {
                Err(e) => Err(e),
                Ok((children, s)) => match Mat4::parsing(s) {
                    Err(e) => Err(e),
                    Ok((local_transform, s)) => match Mat4::parsing(s) {
                        Err(e) => Err(e),
                        Ok((inverse_bind_matrix, s)) => Ok(
                            (
                                BoneView {
                                    node_index,
                                    name: Seq::empty(),
                                    children,
                                    local_transform,
                                    inverse_bind_matrix,
                                },
                                s,
                            ),
                        ),
                    },
                },
            },
        }
    }

    /// The name is not kept.
    open spec fn stored(value: BoneView) -> BoneView {
        BoneView { name: Seq::empty(), ..value }
    }

    open spec fn storable(value: BoneView) -> bool {
        value.children.len() <= usize::MAX
    }

    proof fn reads_back(value: BoneView, tail: Seq<u8>) {
        let a = le_bytes(value.node_index as nat, 8);
        let b = encode_list::<usize>(value.children);
        let c = Mat4::encoding(value.local_transform);
        let d = Mat4::encoding(value.inverse_bind_matrix);
        assert(Self::encoding(value) + tail =~= a + (b + (c + (d + tail))));
        usize::reads_back(value.node_index, b + (c + (d + tail)));
        lemma_list_reads_back::<usize>(value.children, c + (d + tail));
        assert(stored_list::<usize>(value.children) =~= value.children);
        Mat4::reads_back(value.local_transform, d + tail);
        Mat4::reads_back(value.inverse_bind_matrix, tail);
    }

    proof fn reads_no_further(s: Seq<u8>, tail: Seq<u8>) {
        if let Ok((_, s1)) = usize::parsing(s) {
            if let Ok((_, s2)) = parse_list::<usize>(s1) {
                if let Ok((_, s3)) = Mat4::parsing(s2) {
                    if let Ok((_, s4)) = Mat4::parsing(s3) {
                        let t3 = taken(s3, s4) + tail;
                        let t2 = taken(s2, s3) + t3;
                        let t1 = taken(s1, s2) + t2;
                        usize::reads_no_further(s, t1);
                        lemma_list_reads_no_further::<usize>(s1, t2);
                        Mat4::reads_no_further(s2, t3);
                        Mat4::reads_no_further(s3, tail);
                        lemma_taken(s, s1, s2, t2);
                        lemma_taken(s, s2, s3, t3);
                        lemma_taken(s, s3, s4, tail);
                    }
                }
            }
        }
    }

    fn write_record(&self, w: &mut Vec<u8>) {
        write_u64(w, self.node_index as u64);
        write_list(w, &self.children);
        write_mat4(w, &self.local_transform);
        write_mat4(w, &self.inverse_bind_matrix);
        proof {
            assert(views(self.children@) =~= self.children@);
            assert(w@ =~= old(w)@ + Self::encoding(self@));
        }
    }

    fn read_record(r: &mut ByteReader) -> (out: Result<Bone, CacheError>) {
        let node_index = usize::read_record(r)?;
        let children = read_list::<usize>(r)?;
        let local_transform = read_mat4(r)?;
        let inverse_bind_matrix = read_mat4(r)?;
        proof {
            assert(views(children@) =~= children@);
        }
        Ok(
            Bone {
                node_index,
                name: String::new(),
                children,
                local_transform,
                inverse_bind_matrix,
            },
        )
    }
}

impl Record for Skeleton {
    open spec fn encoding(value: SkeletonView) -> Seq<u8> {
        encode_list::<Bone>(value.bones) + encode_list::<usize>(value.root_bones)
    }

    open spec fn parsing(s: Seq<u8>) -> Parsed<SkeletonView> {
        match parse_list::<Bone>(s) {
            Err(e) => Err(e),
            Ok((bones, s)) => match parse_list::<usize>(s) {
                Err(e) => Err(e),
                Ok((root_bones, s)) => Ok((SkeletonView { bones, root_bones }, s)),
            },
        }
    }

    open spec fn stored(value: SkeletonView) -> SkeletonView {
        SkeletonView { bones: stored_list::<Bone>(value.bones), root_bones: value.root_bones }
    }

    open spec fn storable(value: SkeletonView) -> bool {
        storable_list::<Bone>(value.bones) && value.root_bones.len() <= usize::MAX
    }

    proof fn reads_back(value: SkeletonView, tail: Seq<u8>) {
        let a = encode_list::<Bone>(value.bones);
        let b = encode_list::<usize>(value.root_bones);
        assert(Self::encoding(value) + tail =~= a + (b + tail));
        lemma_list_reads_back::<Bone>(value.bones, b + tail);
        lemma_list_reads_back::<usize>(value.root_bones, tail);
        assert(stored_list::<usize>(value.root_bones) =~= value.root_bones);
    }

    proof fn reads_no_further(s: Seq<u8>, tail: Seq<u8>) {
        if let Ok((_, s1)) = parse_list::<Bone>(s) {
            if let Ok((_, s2)) = parse_list::<usize>(s1) {
                let t1 = taken(s1, s2) + tail;
                lemma_list_reads_no_further::<Bone>(s, t1);
                lemma_list_reads_no_further::<usize>(s1, tail);
                lemma_taken(s, s1, s2, tail);
            }
        }
    }

    fn write_record(&self, w: &mut Vec<u8>) {
        write_skeleton(w, self);
    }

    fn read_record(r: &mut ByteReader) -> (out: Result<Skeleton, CacheError>) {
        read_skeleton(r)
    }
}

/// Appends a skeleton: its bones and its roots.
pub fn write_skeleton(w: &mut Vec<u8>, skeleton: &Skeleton)
    ensures
        final(w)@ == old(w)@ + Skeleton::encoding(skeleton@),
{
    write_list(w, &skeleton.bones);
    write_list(w, &skeleton.root_bones);
    proof {
        assert(views(skeleton.root_bones@) =~= skeleton.root_bones@);
        assert(w@ =~= old(w)@ + Skeleton::encoding(skeleton@));
    }
}

/// Reads a skeleton.
pub fn read_skeleton(r: &mut ByteReader) -> (out: Result<Skeleton, CacheError>)
    requires
        old(r).wf(),
    ensures
        reads(*old(r), *final(r), out, Skeleton::parsing(old(r).rest())),
{
    let bones = read_list::<Bone>(r)?;
    let root_bones = read_list::<usize>(r)?;
    proof {
        assert(views(root_bones@) =~= root_bones@);
    }
    Ok(Skeleton { bones, root_bones })
}

impl Record for AnimationChannel {
    open spec fn encoding(value: ChannelView) -> Seq<u8> {
        le_bytes(value.bone_index as nat, 8) + (encode_list::<(F32Bits, Vec3)>(value.translations)
            + (encode_list::<(F32Bits, Quaternion)>(value.rotations) + encode_list::<
            (F32Bits, Vec3),
        >(value.scales)))
    }

    open spec fn parsing(s: Seq<u8>) -> Parsed<ChannelView> {
        match usize::parsing(s) {
            Err(e) => Err(e),
            Ok((bone_index, s)) => match parse_list::<(F32Bits, Vec3)>(s) {
                Err(e) => Err(e),
                Ok((translations, s)) => match parse_list::<(F32Bits, Quaternion)>(s) {
                    Err(e) => Err(e),
                    Ok((rotations, s)) => match parse_list::<(F32Bits, Vec3)>(s) {
                        Err(e) => Err(e),
                        Ok((scales, s)) => Ok(
                            (ChannelView { bone_index, translations, rotations, scales }, s),
                        ),
                    },
                },
            },
        }
    }

    open spec fn stored(value: ChannelView) -> ChannelView {
        value
    }

    open spec fn storable(value: ChannelView) -> bool {
        &&& value.translations.len() <= usize::MAX
        &&& value.rotations.len() <= usize::MAX
        &&& value.scales.len() <= usize::MAX
    }

    proof fn reads_back(value: ChannelView, tail: Seq<u8>) {
        let a = le_bytes(value.bone_index as nat, 8);
        let b = encode_list::<(F32Bits, Vec3)>(value.translations);
        let c = encode_list::<(F32Bits, Quaternion)>(value.rotations);
        let d = encode_list::<(F32Bits, Vec3)>(value.scales);
        assert(Self::encoding(value) + tail =~= a + (b + (c + (d + tail))));
        usize::reads_back(value.bone_index, b + (c + (d + tail)));
        lemma_list_reads_back::<(F32Bits, Vec3)>(value.translations, c + (d + tail));
        lemma_list_reads_back::<(F32Bits, Quaternion)>(value.rotations, d + tail);
        lemma_list_reads_back::<(F32Bits, Vec3)>(value.scales, tail);
        assert(stored_list::<(F32Bits, Vec3)>(value.translations) =~= value.translations);
        assert(stored_list::<(F32Bits, Quaternion)>(value.rotations) =~= value.rotations);
        assert(stored_list::<(F32Bits, Vec3)>(value.scales) =~= value.scales);
    }

    proof fn reads_no_further(s: Seq<u8>, tail: Seq<u8>) {
        if let Ok((_, s1)) = usize::parsing(s) {
            if let Ok((_, s2)) = parse_list::<(F32Bits, Vec3)>(s1) {
                if let Ok((_, s3)) = parse_list::<(F32Bits, Quaternion)>(s2) {
                    if let Ok((_, s4)) = parse_list::<(F32Bits, Vec3)>(s3) {
                        let t3 = taken(s3, s4) + tail;
                        let t2 = taken(s2, s3) + t3;
                        let t1 = taken(s1, s2) + t2;
                        usize::reads_no_further(s, t1);
                        lemma_list_reads_no_further::<(F32Bits, Vec3)>(s1, t2);
                        lemma_list_reads_no_further::<(F32Bits, Quaternion)>(s2, t3);
                        lemma_list_reads_no_further::<(F32Bits, Vec3)>(s3, tail);
                        lemma_taken(s, s1, s2, t2);
                        lemma_taken(s, s2, s3, t3);
                        lemma_taken(s, s3, s4, tail);
                    }
                }
            }
        }
    }

    fn write_record(&self, w: &mut Vec<u8>) {
        write_animation_channel(w, self);
    }

    fn read_record(r: &mut ByteReader) -> (out: Result<AnimationChannel, CacheError>) {
        read_animation_channel(r)
    }
}

/// A channel that was written is read back, whatever follows it, and no part of it that ends before
/// its last byte is read as a channel.
pub proof fn law_channel_reads_back(channel: ChannelView, tail: Seq<u8>)
    requires
        AnimationChannel::storable(channel),
    ensures
        AnimationChannel::parsing(AnimationChannel::encoding(channel) + tail) == Ok::<
            (ChannelView, Seq<u8>),
            CacheError,
        >((channel, tail)),
        forall|m: int|
            0 <= m < AnimationChannel::encoding(channel).len() ==> AnimationChannel::parsing(
                #[trigger] AnimationChannel::encoding(channel).take(m),
            ) is Err,
{
    AnimationChannel::reads_back(channel, tail);
    assert forall|m: int|
        0 <= m < AnimationChannel::encoding(channel).len() implies AnimationChannel::parsing(
        #[trigger] AnimationChannel::encoding(channel).take(m),
    ) is Err by {
        law_prefixes_are_refused::<AnimationChannel>(channel, m);
    }
}

/// Appends the key frames of one bone.
pub fn write_animation_channel(w: &mut Vec<u8>, channel: &AnimationChannel)
    ensures
        final(w)@ == old(w)@ + AnimationChannel::encoding(channel@),
{
    write_u64(w, channel.bone_index as u64);
    write_list(w, &channel.translations);
    write_list(w, &channel.rotations);
    write_list(w, &channel.scales);
    proof {
        assert(views(channel.translations@) =~= channel.translations@);
        assert(views(channel.rotations@) =~= channel.rotations@);
        assert(views(channel.scales@) =~= channel.scales@);
        assert(w@ =~= old(w)@ + AnimationChannel::encoding(channel@));
    }
}

/// Reads the key frames of one bone.
pub fn read_animation_channel(r: &mut ByteReader) -> (out: Result<AnimationChannel, CacheError>)
    requires
        old(r).wf(),
    ensures
        reads(*old(r), *final(r), out, AnimationChannel::parsing(old(r).rest())),
{
    let bone_index = usize::read_record(r)?;
    let translations = read_list::<(F32Bits, Vec3)>(r)?;
    let rotations = read_list::<(F32Bits, Quaternion)>(r)?;
    let scales = read_list::<(F32Bits, Vec3)>(r)?;
    proof {
        assert(views(translations@) =~= translations@);
        assert(views(rotations@) =~= rotations@);
        assert(views(scales@) =~= scales@);
    }
    Ok(AnimationChannel { bone_index, translations, rotations, scales })
}

impl Record for AnimationClip {
    open spec fn encoding(value: ClipView) -> Seq<u8> {
        encode_bytes(encode_utf8(value.name)) + (le_bytes(value.duration as nat, 4) + encode_list::<
            AnimationChannel,
        >(value.channels))
    }

    open spec fn parsing(s: Seq<u8>) -> Parsed<ClipView> {
        match parse_string(s) {
            Err(e) => Err(e),
            Ok((name, s)) => match parse_u32(s) {
                Err(e) => Err(e),
                Ok((duration, s)) => match parse_list::<AnimationChannel>(s) {
                    Err(e) => Err(e),
                    Ok((channels, s)) => Ok((ClipView { name, duration, channels }, s)),
                },
            },
        }
    }

    open spec fn stored(value: ClipView) -> ClipView {
        value
    }

    open spec fn storable(value: ClipView) -> bool {
        encode_utf8(value.name).len() <= usize::MAX && storable_list::<AnimationChannel>(
            value.channels,
        )
    }

    proof fn reads_back(value: ClipView, tail: Seq<u8>) {
        let a = encode_bytes(encode_utf8(value.name));
        let b = le_bytes(value.duration as nat, 4);
        let c = encode_list::<AnimationChannel>(value.channels);
        assert(Self::encoding(value) + tail =~= a + (b + (c + tail)));
        lemma_string_reads_back(value.name, b + (c + tail));
        lemma_parse_u32(value.duration, c + tail);
        lemma_list_reads_back::<AnimationChannel>(value.channels, tail);
        assert(stored_list::<AnimationChannel>(value.channels) =~= value.channels);
    }

    proof fn reads_no_further(s: Seq<u8>, tail: Seq<u8>) {
        if let Ok((_, s1)) = parse_string(s) {
            if let Ok((_, s2)) = parse_u32(s1) {
                if let Ok((_, s3)) = parse_list::<AnimationChannel>(s2) {
                    let t2 = taken(s2, s3) + tail;
                    let t1 = taken(s1, s2) + t2;
                    lemma_string_reads_no_further(s, t1);
                    lemma_u32_reads_no_further(s1, t2);
                    lemma_list_reads_no_further::<AnimationChannel>(s2, tail);
                    lemma_taken(s, s1, s2, t2);
                    lemma_taken(s, s2, s3, tail);
                }
            }
        }
    }

    fn write_record(&self, w: &mut Vec<u8>) {
        write_animation_clip(w, self);
    }

    fn read_record(r: &mut ByteReader) -> (out: Result<AnimationClip, CacheError>) {
        read_animation_clip(r)
    }
}

/// Appends an animation.
pub fn write_animation_clip(w: &mut Vec<u8>, clip: &AnimationClip)
    ensures
        final(w)@ == old(w)@ + AnimationClip::encoding(clip@),
{
    write_string(w, clip.name.as_str());
    write_f32(w, clip.duration);
    write_list(w, &clip.channels);
    proof {
        assert(w@ =~= old(w)@ + AnimationClip::encoding(clip@));
    }
}

/// Reads an animation.
pub fn read_animation_clip(r: &mut ByteReader) -> (out: Result<AnimationClip, CacheError>)
    requires
        old(r).wf(),
    ensures
        reads(*old(r), *final(r), out, AnimationClip::parsing(old(r).rest())),
{
    let name = read_string(r)?;
    let duration = read_f32(r)?;
    let channels = read_list::<AnimationChannel>(r)?;
    Ok(AnimationClip { name, duration, channels })
}

/// The word whose lowest byte stands at a place.
pub open spec fn word_at(bytes: Seq<u8>, at: int) -> int {
    bytes[at] + 0x100 * bytes[at + 1] + 0x1_0000 * bytes[at + 2] + 0x100_0000 * bytes[at + 3]
}

/// The half word whose lower byte stands at a place.
pub open spec fn half_word_at(bytes: Seq<u8>, at: int) -> int {
    bytes[at] + 0x100 * bytes[at + 1]
}

/// The bytes of a word are those from which it is told.
proof fn lemma_word_bytes(word: u32)
    ensures
        le_bytes(word as nat, 4).len() == 4,
        word_at(le_bytes(word as nat, 4), 0) == word,
{
    reveal_with_fuel(le_bytes, 5);
}

proof fn lemma_half_word_bytes(word: u16)
    ensures
        le_bytes(word as nat, 2).len() == 2,
        half_word_at(le_bytes(word as nat, 2), 0) == word,
{
    reveal_with_fuel(le_bytes, 3);
}

/// Each of several words stands four bytes behind the one before it.
proof fn lemma_word_in_place(words: Seq<u32>, i: int)
    requires
        0 <= i < words.len(),
    ensures
        encode_items::<u32>(words).len() == 4 * words.len(),
        word_at(encode_items::<u32>(words), 4 * i) == words[i],
    decreases words.len(),
{
    let rest = words.drop_first();
    let front = le_bytes(words[0] as nat, 4);
    let back = encode_items::<u32>(rest);
    lemma_word_bytes(words[0]);
    assert(encode_items::<u32>(words) == front + back);
    if rest.len() > 0 {
        let k = if i == 0 {
            0
        } else {
            i - 1
        };
        lemma_word_in_place(rest, k);
    }
    if i > 0 {
        let at = 4 * (i - 1);
        assert((front + back)[4 * i] == back[at]);
        assert((front + back)[4 * i + 1] == back[at + 1]);
        assert((front + back)[4 * i + 2] == back[at + 2]);
        assert((front + back)[4 * i + 3] == back[at + 3]);
    }
}

proof fn lemma_half_word_in_place(words: Seq<u16>, i: int)
    requires
        0 <= i < words.len(),
    ensures
        encode_items::<u16>(words).len() == 2 * words.len(),
        half_word_at(encode_items::<u16>(words), 2 * i) == words[i],
    decreases words.len(),
{
    let rest = words.drop_first();
    let front = le_bytes(words[0] as nat, 2);
    let back = encode_items::<u16>(rest);
    lemma_half_word_bytes(words[0]);
    assert(encode_items::<u16>(words) == front + back);
    if rest.len() > 0 {
        let k = if i == 0 {
            0
        } else {
            i - 1
        };
        lemma_half_word_in_place(rest, k);
    }
    if i > 0 {
        let at = 2 * (i - 1);
        assert((front + back)[2 * i] == back[at]);
        assert((front + back)[2 * i + 1] == back[at + 1]);
    }
}

/// A word stands where it did, behind what is put in front.
proof fn lemma_word_behind(front: Seq<u8>, back: Seq<u8>, at: int)
    requires
        0 <= at,
        at + 4 <= back.len(),
    ensures
        word_at(front + back, front.len() + at) == word_at(back, at),
{
    let all = front + back;
    let n = front.len() as int;
    assert(all[n + at] == back[at]);
    assert(all[n + at + 1] == back[at + 1]);
    assert(all[n + at + 2] == back[at + 2]);
    assert(all[n + at + 3] == back[at + 3]);
}

/// A vertex takes 64 bytes: its position at 0, its normal at 16 and its place in the texture at 32, of
/// which the first two are followed by padding, then the numbers of its joints at 40, two bytes each, and
/// their weights at 48. It is read back, whatever follows it.
pub proof fn law_vertices_are_laid_out(v: Vertex, tail: Seq<u8>)
    ensures
        ({
            let bytes = Vertex::encoding(v);
            &&& bytes.len() == 64
            &&& word_at(bytes, 0) == v.pos.x
            &&& word_at(bytes, 4) == v.pos.y
            &&& word_at(bytes, 8) == v.pos.z
            &&& word_at(bytes, 12) == v._pad0
            &&& word_at(bytes, 16) == v.normal.x
            &&& word_at(bytes, 20) == v.normal.y
            &&& word_at(bytes, 24) == v.normal.z
            &&& word_at(bytes, 28) == v._pad1
            &&& word_at(bytes, 32) == v.uv.x
            &&& word_at(bytes, 36) == v.uv.y
            &&& half_word_at(bytes, 40) == v.joint_indices@[0]
            &&& half_word_at(bytes, 42) == v.joint_indices@[1]
            &&& half_word_at(bytes, 44) == v.joint_indices@[2]
            &&& half_word_at(bytes, 46) == v.joint_indices@[3]
            &&& word_at(bytes, 48) == v.joint_weights@[0]
            &&& word_at(bytes, 52) == v.joint_weights@[1]
            &&& word_at(bytes, 56) == v.joint_weights@[2]
            &&& word_at(bytes, 60) == v.joint_weights@[3]
        }),
        Vertex::parsing(Vertex::encoding(v) + tail) == Ok::<(Vertex, Seq<u8>), CacheError>(
            (v, tail),
        ),
{
    let words = vertex_head(v);
    let joints = v.joint_indices@;
    let weights = v.joint_weights@;
    let head = encode_items::<u32>(words);
    let middle = encode_items::<u16>(joints);
    let end = encode_items::<u32>(weights);
    let bytes = Vertex::encoding(v);
    lemma_word_in_place(words, 0);
    lemma_word_in_place(words, 1);
    lemma_word_in_place(words, 2);
    lemma_word_in_place(words, 3);
    lemma_word_in_place(words, 4);
    lemma_word_in_place(words, 5);
    lemma_word_in_place(words, 6);
    lemma_word_in_place(words, 7);
    lemma_word_in_place(words, 8);
    lemma_word_in_place(words, 9);
    assert forall|i: int| 0 <= i < 40 implies bytes[i] == head[i] by {}
    lemma_half_word_in_place(joints, 0);
    lemma_half_word_in_place(joints, 1);
    lemma_half_word_in_place(joints, 2);
    lemma_half_word_in_place(joints, 3);
    assert forall|i: int| 0 <= i < 8 implies bytes[40 + i] == #[trigger] middle[i] by {}
    assert(bytes =~= (head + middle) + end);
    lemma_word_in_place(weights, 0);
    lemma_word_in_place(weights, 1);
    lemma_word_in_place(weights, 2);
    lemma_word_in_place(weights, 3);
    lemma_word_behind(head + middle, end, 0);
    lemma_word_behind(head + middle, end, 4);
    lemma_word_behind(head + middle, end, 8);
    lemma_word_behind(head + middle, end, 12);
    Vertex::reads_back(v, tail);
}

/// A material takes 18 words, and is read back, whatever follows it.
pub proof fn law_materials_are_laid_out(m: Material, tail: Seq<u8>)
    ensures
        ({
            let bytes = Material::encoding(m);
            &&& bytes.len() == 72
            &&& word_at(bytes, 0) == m.albedo.x
            &&& word_at(bytes, 4) == m.albedo.y
            &&& word_at(bytes, 8) == m.albedo.z
            &&& word_at(bytes, 12) == i32_bits(m.albedo_texture_index)
            &&& word_at(bytes, 16) == m.metallic
            &&& word_at(bytes, 20) == m.roughness
            &&& word_at(bytes, 24) == m.emission.x
            &&& word_at(bytes, 28) == m.emission.y
            &&& word_at(bytes, 32) == m.emission.z
            &&& word_at(bytes, 36) == m.transmission
            &&& word_at(bytes, 40) == m.ior
            &&& word_at(bytes, 44) == m.specular
            &&& word_at(bytes, 48) == m.clearcoat
            &&& word_at(bytes, 52) == m.clearcoat_roughness
            &&& word_at(bytes, 56) == m.sheen
            &&& word_at(bytes, 60) == m.sheen_color.x
            &&& word_at(bytes, 64) == m.sheen_color.y
            &&& word_at(bytes, 68) == m.sheen_color.z
        }),
        Material::parsing(Material::encoding(m) + tail) == Ok::<(Material, Seq<u8>), CacheError>(
            (m, tail),
        ),
{
    let words = material_words(m);
    lemma_word_in_place(words, 0);
    lemma_word_in_place(words, 1);
    lemma_word_in_place(words, 2);
    lemma_word_in_place(words, 3);
    lemma_word_in_place(words, 4);
    lemma_word_in_place(words, 5);
    lemma_word_in_place(words, 6);
    lemma_word_in_place(words, 7);
    lemma_word_in_place(words, 8);
    lemma_word_in_place(words, 9);
    lemma_word_in_place(words, 10);
    lemma_word_in_place(words, 11);
    lemma_word_in_place(words, 12);
    lemma_word_in_place(words, 13);
    lemma_word_in_place(words, 14);
    lemma_word_in_place(words, 15);
    lemma_word_in_place(words, 16);
    lemma_word_in_place(words, 17);
    Material::reads_back(m, tail);
}

/// A matrix takes 16 words, column by column and each from top to bottom, and is read back, whatever
/// follows it.
pub proof fn law_matrices_are_laid_out(m: Mat4, tail: Seq<u8>)
    ensures
        ({
            let bytes = Mat4::encoding(m);
            &&& bytes.len() == 64
            &&& word_at(bytes, 0) == m.x.x
            &&& word_at(bytes, 4) == m.x.y
            &&& word_at(bytes, 8) == m.x.z
            &&& word_at(bytes, 12) == m.x.w
            &&& word_at(bytes, 16) == m.y.x
            &&& word_at(bytes, 20) == m.y.y
            &&& word_at(bytes, 24) == m.y.z
            &&& word_at(bytes, 28) == m.y.w
            &&& word_at(bytes, 32) == m.z.x
            &&& word_at(bytes, 36) == m.z.y
            &&& word_at(bytes, 40) == m.z.z
            &&& word_at(bytes, 44) == m.z.w
            &&& word_at(bytes, 48) == m.w.x
            &&& word_at(bytes, 52) == m.w.y
            &&& word_at(bytes, 56) == m.w.z
            &&& word_at(bytes, 60) == m.w.w
        }),
        Mat4::parsing(Mat4::encoding(m) + tail) == Ok::<(Mat4, Seq<u8>), CacheError>((m, tail)),
{
    let words = mat4_words(m);
    lemma_word_in_place(words, 0);
    lemma_word_in_place(words, 1);
    lemma_word_in_place(words, 2);
    lemma_word_in_place(words, 3);
    lemma_word_in_place(words, 4);
    lemma_word_in_place(words, 5);
    lemma_word_in_place(words, 6);
    lemma_word_in_place(words, 7);
    lemma_word_in_place(words, 8);
    lemma_word_in_place(words, 9);
    lemma_word_in_place(words, 10);
    lemma_word_in_place(words, 11);
    lemma_word_in_place(words, 12);
    lemma_word_in_place(words, 13);
    lemma_word_in_place(words, 14);
    lemma_word_in_place(words, 15);
    Mat4::reads_back(m, tail);
}

/// A key frame is its time and behind it its components, a rotation's scalar part last. It is read back,
/// whatever follows it.
pub proof fn law_key_frames_are_laid_out(
    time: F32Bits,
    vector: Vec3,
    rotation: Quaternion,
    tail: Seq<u8>,
)
    ensures
        ({
            let bytes = <(F32Bits, Vec3)>::encoding((time, vector));
            &&& bytes.len() == 16
            &&& word_at(bytes, 0) == time
            &&& word_at(bytes, 4) == vector.x
            &&& word_at(bytes, 8) == vector.y
            &&& word_at(bytes, 12) == vector.z
            &&& <(F32Bits, Vec3)>::parsing(bytes + tail) == Ok::<
                ((F32Bits, Vec3), Seq<u8>),
                CacheError,
            >(((time, vector), tail))
        }),
        ({
            let bytes = <(F32Bits, Quaternion)>::encoding((time, rotation));
            &&& bytes.len() == 20
            &&& word_at(bytes, 0) == time
            &&& word_at(bytes, 4) == rotation.v.x
            &&& word_at(bytes, 8) == rotation.v.y
            &&& word_at(bytes, 12) == rotation.v.z
            &&& word_at(bytes, 16) == rotation.s
            &&& <(F32Bits, Quaternion)>::parsing(bytes + tail) == Ok::<
                ((F32Bits, Quaternion), Seq<u8>),
                CacheError,
            >(((time, rotation), tail))
        }),
{
    let words = seq![time, vector.x, vector.y, vector.z];
    lemma_word_in_place(words, 0);
    lemma_word_in_place(words, 1);
    lemma_word_in_place(words, 2);
    lemma_word_in_place(words, 3);
    <(F32Bits, Vec3)>::reads_back((time, vector), tail);
    let turned = seq![time, rotation.v.x, rotation.v.y, rotation.v.z, rotation.s];
    lemma_word_in_place(turned, 0);
    lemma_word_in_place(turned, 1);
    lemma_word_in_place(turned, 2);
    lemma_word_in_place(turned, 3);
    lemma_word_in_place(turned, 4);
    <(F32Bits, Quaternion)>::reads_back((time, rotation), tail);
}

/// A bone is written as its node, its children, its place and the inverse of where it is bound. It is read
/// back, whatever follows it, but for its name, which is lost.
pub proof fn law_bones_lose_their_names(bone: BoneView, tail: Seq<u8>)
    requires
        bone.children.len() <= usize::MAX,
    ensures
        Bone::encoding(bone) == le_bytes(bone.node_index as nat, 8) + encode_list::<usize>(
            bone.children,
        ) + Mat4::encoding(bone.local_transform) + Mat4::encoding(bone.inverse_bind_matrix),
        Bone::parsing(Bone::encoding(bone) + tail) is Ok,
        ({
            let (read, rest) = Bone::parsing(Bone::encoding(bone) + tail)->Ok_0;
            &&& rest == tail
            &&& read.node_index == bone.node_index
            &&& read.name == Seq::<char>::empty()
            &&& read.children == bone.children
            &&& read.local_transform == bone.local_transform
            &&& read.inverse_bind_matrix == bone.inverse_bind_matrix
        }),
{
    Bone::reads_back(bone, tail);
    assert(Bone::encoding(bone) =~= le_bytes(bone.node_index as nat, 8) + encode_list::<usize>(
        bone.children,
    ) + Mat4::encoding(bone.local_transform) + Mat4::encoding(bone.inverse_bind_matrix));
}

/// A skeleton is written as its bones and its roots, and read back, whatever follows it, but for the names
/// of the bones.
pub proof fn law_skeletons_lose_the_names_of_their_bones(skeleton: SkeletonView, tail: Seq<u8>)
    requires
        Skeleton::storable(skeleton),
    ensures
        Skeleton::encoding(skeleton) == encode_list::<Bone>(skeleton.bones) + encode_list::<usize>(
            skeleton.root_bones,
        ),
        Skeleton::parsing(Skeleton::encoding(skeleton) + tail) is Ok,
        ({
            let (read, rest) = Skeleton::parsing(Skeleton::encoding(skeleton) + tail)->Ok_0;
            &&& rest == tail
            &&& read.root_bones == skeleton.root_bones
            &&& read.bones.len() == skeleton.bones.len()
            &&& forall|i: int|
                0 <= i < read.bones.len() ==> {
                    &&& (#[trigger] read.bones[i]).node_index == skeleton.bones[i].node_index
                    &&& read.bones[i].name == Seq::<char>::empty()
                    &&& read.bones[i].children == skeleton.bones[i].children
                    &&& read.bones[i].local_transform == skeleton.bones[i].local_transform
                    &&& read.bones[i].inverse_bind_matrix == skeleton.bones[i].inverse_bind_matrix
                }
        }),
{
    Skeleton::reads_back(skeleton, tail);
}

/// A channel is written as its bone and its three tracks: places, rotations, sizes. An animation is written
/// as its name, its length and its channels, and read back, whatever follows it.
pub proof fn law_animations_are_laid_out(channel: ChannelView, clip: ClipView, tail: Seq<u8>)
    requires
        AnimationClip::storable(clip),
    ensures
        AnimationChannel::encoding(channel) == le_bytes(channel.bone_index as nat, 8)
            + encode_list::<(F32Bits, Vec3)>(channel.translations) + encode_list::<
            (F32Bits, Quaternion),
        >(channel.rotations) + encode_list::<(F32Bits, Vec3)>(channel.scales),
        AnimationClip::encoding(clip) == encode_bytes(encode_utf8(clip.name)) + le_bytes(
            clip.duration as nat,
            4,
        ) + encode_list::<AnimationChannel>(clip.channels),
        AnimationClip::parsing(AnimationClip::encoding(clip) + tail) == Ok::<
            (ClipView, Seq<u8>),
            CacheError,
        >((clip, tail)),
{
    AnimationClip::reads_back(clip, tail);
    assert(AnimationChannel::encoding(channel) =~= le_bytes(channel.bone_index as nat, 8)
        + encode_list::<(F32Bits, Vec3)>(channel.translations) + encode_list::<
        (F32Bits, Quaternion),
    >(channel.rotations) + encode_list::<(F32Bits, Vec3)>(channel.scales));
    assert(AnimationClip::encoding(clip) =~= encode_bytes(encode_utf8(clip.name)) + le_bytes(
        clip.duration as nat,
        4,
    ) + encode_list::<AnimationChannel>(clip.channels));
}

} // verus!
