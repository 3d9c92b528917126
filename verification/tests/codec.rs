use rtx_vulkan_engine::cache::CachedAsset;
use rtx_vulkan_engine::codec::{
    read_f32, read_i32, read_u16, read_u32, read_u64, read_u8, write_f32, write_i32, write_u16,
    write_u32, write_u64, write_u8, ByteReader,
};
use rtx_vulkan_engine::common::{
    AnimationChannel, AnimationClip, Bone, Material, Skeleton, Vertex,
};
use rtx_vulkan_engine::decimal::to_decimal;
use rtx_vulkan_engine::errors::CacheError;
use rtx_vulkan_engine::layouts::{
    read_animation_channel, read_animation_clip, read_mat4, read_material, read_skeleton,
    read_vertex, write_animation_channel, write_animation_clip, write_mat4, write_material,
    write_skeleton, write_vertex,
};
use rtx_vulkan_engine::math::{at_most, below, is_nan, Mat4, Quaternion, Vec2, Vec3, Vec4};
use rtx_vulkan_engine::records::Record;
use rtx_vulkan_engine::text::{read_bytes, read_string, write_bytes, write_string};
use rtx_vulkan_engine::texture::{read_texture, write_texture, CachedTexture, TextureFormat};

fn v3(x: f32, y: f32, z: f32) -> Vec3 {
    Vec3::new(x.to_bits(), y.to_bits(), z.to_bits())
}

fn matrix(start: u32) -> Mat4 {
    let column = |c: u32| Vec4 {
        x: start + 4 * c,
        y: start + 4 * c + 1,
        z: start + 4 * c + 2,
        w: start + 4 * c + 3,
    };
    Mat4 { x: column(0), y: column(1), z: column(2), w: column(3) }
}

fn material(start: u32) -> Material {
    Material {
        albedo: Vec3::new(start, start + 1, start + 2),
        albedo_texture_index: -7,
        metallic: start + 3,
        roughness: start + 4,
        emission: Vec3::new(start + 5, start + 6, start + 7),
        transmission: start + 8,
        ior: start + 9,
        specular: start + 10,
        clearcoat: start + 11,
        clearcoat_roughness: start + 12,
        sheen: start + 13,
        sheen_color: Vec3::new(start + 14, start + 15, start + 16),
    }
}

#[test]
fn integers_are_little_endian() {
    let mut w = Vec::new();
    write_u8(&mut w, 0xAB);
    write_u16(&mut w, 0x1234);
    write_u32(&mut w, 0xDEAD_BEEF);
    write_u64(&mut w, 0x0102_0304_0506_0708);
    write_i32(&mut w, -2);
    write_f32(&mut w, 1.5f32.to_bits());
    let mut expected = vec![0xAB, 0x34, 0x12, 0xEF, 0xBE, 0xAD, 0xDE];
    expected.extend_from_slice(&[8, 7, 6, 5, 4, 3, 2, 1]);
    expected.extend_from_slice(&(-2i32).to_le_bytes());
    expected.extend_from_slice(&1.5f32.to_le_bytes());
    assert_eq!(w, expected);

    let mut r = ByteReader::new(&w);
    assert_eq!(read_u8(&mut r), Ok(0xAB));
    assert_eq!(read_u16(&mut r), Ok(0x1234));
    assert_eq!(read_u32(&mut r), Ok(0xDEAD_BEEF));
    assert_eq!(read_u64(&mut r), Ok(0x0102_0304_0506_0708));
    assert_eq!(read_i32(&mut r), Ok(-2));
    assert_eq!(read_f32(&mut r), Ok(1.5f32.to_bits()));
    assert_eq!(read_u8(&mut r), Err(CacheError::UnexpectedEof));
}

#[test]
fn extreme_integers_survive() {
    for v in [i32::MIN, -1, 0, 1, i32::MAX] {
        let mut w = Vec::new();
        write_i32(&mut w, v);
        assert_eq!(w, v.to_le_bytes());
        assert_eq!(read_i32(&mut ByteReader::new(&w)), Ok(v));
    }
    for v in [0u64, 1, u64::MAX, 1 << 63] {
        let mut w = Vec::new();
        write_u64(&mut w, v);
        assert_eq!(read_u64(&mut ByteReader::new(&w)), Ok(v));
    }
}

#[test]
fn short_data_is_an_error() {
    assert_eq!(read_u16(&mut ByteReader::new(&[1])), Err(CacheError::UnexpectedEof));
    assert_eq!(read_u32(&mut ByteReader::new(&[1, 2, 3])), Err(CacheError::UnexpectedEof));
    assert_eq!(read_u64(&mut ByteReader::new(&[0; 7])), Err(CacheError::UnexpectedEof));
    assert_eq!(read_i32(&mut ByteReader::new(&[])), Err(CacheError::UnexpectedEof));
}

#[test]
fn bytes_and_strings_round_trip() {
    let mut w = Vec::new();
    write_bytes(&mut w, &[9, 8, 7]);
    write_string(&mut w, "größe ✓");
    assert_eq!(&w[..11], &[3, 0, 0, 0, 0, 0, 0, 0, 9, 8, 7]);
    let mut r = ByteReader::new(&w);
    assert_eq!(read_bytes(&mut r), Ok(vec![9, 8, 7]));
    assert_eq!(read_string(&mut r), Ok("größe ✓".to_string()));
}

#[test]
fn bad_strings_are_errors() {
    let mut w = Vec::new();
    write_bytes(&mut w, &[0xFF, 0xFE]);
    assert_eq!(read_string(&mut ByteReader::new(&w)), Err(CacheError::InvalidUtf8));
    let mut w = Vec::new();
    write_u64(&mut w, 10);
    w.push(1);
    assert_eq!(read_bytes(&mut ByteReader::new(&w)), Err(CacheError::UnexpectedEof));
    let mut w = Vec::new();
    write_u64(&mut w, u64::MAX);
    let expected = if usize::MAX as u64 == u64::MAX {
        CacheError::UnexpectedEof
    } else {
        CacheError::AllocationTooLarge
    };
    assert_eq!(read_bytes(&mut ByteReader::new(&w)), Err(expected));
}

#[test]
fn vertices_take_sixty_four_bytes() {
    let v = Vertex::new(
        v3(1.0, 2.0, 3.0),
        v3(0.0, 1.0, 0.0),
        Some(Vec2::new(0.25f32.to_bits(), 0.75f32.to_bits())),
        Some([1, 2, 3, 65535]),
        Some([0.5f32.to_bits(), 0.5f32.to_bits(), 0, 0]),
    );
    let mut w = Vec::new();
    write_vertex(&mut w, &v);
    assert_eq!(w.len(), 64);
    assert_eq!(&w[0..4], &1.0f32.to_le_bytes());
    assert_eq!(&w[16..20], &0.0f32.to_le_bytes());
    assert_eq!(&w[32..36], &0.25f32.to_le_bytes());
    assert_eq!(&w[40..48], &[1, 0, 2, 0, 3, 0, 0xFF, 0xFF]);
    let back = read_vertex(&mut ByteReader::new(&w)).unwrap();
    assert_eq!(back.pos, v.pos);
    assert_eq!(back.normal, v.normal);
    assert_eq!(back.uv, v.uv);
    assert_eq!(back.joint_indices, v.joint_indices);
    assert_eq!(back.joint_weights, v.joint_weights);
    assert_eq!(read_vertex(&mut ByteReader::new(&w[..63])).err(), Some(CacheError::UnexpectedEof));
}

#[test]
fn vertices_have_defaults() {
    let v = Vertex::new(v3(1.0, 2.0, 3.0), v3(0.0, 0.0, 1.0), None, None, None);
    assert_eq!(v.uv, Vec2::new(0, 0));
    assert_eq!(v.joint_indices, [0; 4]);
    assert_eq!(v.joint_weights, [0; 4]);
    assert_eq!((v._pad0, v._pad1), (0, 0));
}

#[test]
fn materials_take_seventy_two_bytes() {
    let m = material(100);
    let mut w = Vec::new();
    write_material(&mut w, &m);
    assert_eq!(w.len(), 72);
    assert_eq!(&w[12..16], &(-7i32).to_le_bytes());
    assert_eq!(&w[68..72], &116u32.to_le_bytes());
    let back = read_material(&mut ByteReader::new(&w)).unwrap();
    let mut again = Vec::new();
    write_material(&mut again, &back);
    assert_eq!(again, w);
    assert_eq!(back.albedo_texture_index, -7);
    assert_eq!(back.sheen_color, m.sheen_color);
}

#[test]
fn matrices_are_column_by_column() {
    let m = matrix(10);
    let mut w = Vec::new();
    write_mat4(&mut w, &m);
    assert_eq!(w.len(), 64);
    for i in 0..16u32 {
        let at = 4 * i as usize;
        assert_eq!(&w[at..at + 4], &(10 + i).to_le_bytes());
    }
    assert_eq!(read_mat4(&mut ByteReader::new(&w)), Ok(m));
}

fn bone(node_index: usize, name: &str, children: Vec<usize>) -> Bone {
    Bone {
        node_index,
        name: name.to_string(),
        children,
        local_transform: matrix(node_index as u32),
        inverse_bind_matrix: Mat4::identity(),
    }
}

#[test]
fn skeletons_round_trip_without_names() {
    let skeleton = Skeleton {
        bones: vec![bone(4, "hip", vec![1, 2]), bone(5, "knee", vec![]), bone(9, "toe", vec![])],
        root_bones: vec![0],
    };
    let mut w = Vec::new();
    write_skeleton(&mut w, &skeleton);
    assert_eq!(w.len(), 8 + 3 * (8 + 8 + 128) + 2 * 8 + 8 + 8);
    let back = read_skeleton(&mut ByteReader::new(&w)).unwrap();
    assert_eq!(back.bones.len(), 3);
    assert_eq!(back.bones[0].children, vec![1, 2]);
    assert_eq!(back.bones[2].node_index, 9);
    assert_eq!(back.bones[0].name, "");
    assert_eq!(back.bones[1].local_transform, matrix(5));
    assert_eq!(back.root_bones, vec![0]);
    assert!(read_skeleton(&mut ByteReader::new(&w[..w.len() - 1])).is_err());
}

#[test]
fn channels_and_clips_round_trip() {
    let channel = AnimationChannel {
        bone_index: 3,
        translations: vec![(0, v3(1.0, 0.0, 0.0)), (1.0f32.to_bits(), v3(2.0, 0.0, 0.0))],
        rotations: vec![(7, Quaternion { v: Vec3::new(1, 2, 3), s: 4 })],
        scales: vec![],
    };
    let mut w = Vec::new();
    write_animation_channel(&mut w, &channel);
    assert_eq!(w.len(), 8 + (8 + 2 * 16) + (8 + 20) + 8);
    // The scalar part of a rotation comes last.
    assert_eq!(&w[8 + 40 + 8 + 16..8 + 40 + 8 + 20], &4u32.to_le_bytes());
    let back = read_animation_channel(&mut ByteReader::new(&w)).unwrap();
    assert_eq!(back.translations, channel.translations);
    assert_eq!(back.rotations, channel.rotations);
    assert!(back.scales.is_empty());
    for m in 0..w.len() {
        assert!(read_animation_channel(&mut ByteReader::new(&w[..m])).is_err());
    }
    let mut longer = w.clone();
    longer.extend_from_slice(b"more");
    let mut r = ByteReader::new(&longer);
    let back = read_animation_channel(&mut r).unwrap();
    assert_eq!(back.translations, channel.translations);
    assert_eq!(r.pos, w.len());

    let clip = AnimationClip {
        name: "Walk".to_string(),
        duration: 2.5f32.to_bits(),
        channels: vec![channel],
    };
    let mut w = Vec::new();
    write_animation_clip(&mut w, &clip);
    assert_eq!(&w[..16], &[4, 0, 0, 0, 0, 0, 0, 0, b'W', b'a', b'l', b'k', 0, 0, 0x20, 0x40]);
    let back = read_animation_clip(&mut ByteReader::new(&w)).unwrap();
    assert_eq!(back.name, "Walk");
    assert_eq!(back.duration, 2.5f32.to_bits());
    assert_eq!(back.channels[0].bone_index, 3);
}

#[test]
fn format_numbers_are_inverse() {
    let all = [
        TextureFormat::R8,
        TextureFormat::R8G8,
        TextureFormat::R8G8B8,
        TextureFormat::R8G8B8A8,
        TextureFormat::R16,
        TextureFormat::R16G16,
        TextureFormat::R16G16B16,
        TextureFormat::R16G16B16A16,
    ];
    for (i, format) in all.iter().enumerate() {
        assert_eq!(format.to_u8(), i as u8);
        assert_eq!(TextureFormat::from_u8(i as u8), Ok(*format));
    }
    assert_eq!(TextureFormat::from_u8(8), Err(CacheError::UnknownTextureFormat(8)));
    assert_eq!(TextureFormat::from_u8(255), Err(CacheError::UnknownTextureFormat(255)));
}

#[test]
fn textures_round_trip() {
    let texture = CachedTexture {
        width: 2,
        height: 1,
        format: TextureFormat::R8G8B8A8,
        pixels: vec![1, 2, 3, 4, 5, 6, 7, 8],
    };
    let mut w = Vec::new();
    write_texture(&mut w, &texture);
    assert_eq!(&w[..9], &[2, 0, 0, 0, 1, 0, 0, 0, 3]);
    assert_eq!(w.len(), 9 + 8 + 8);
    let back = read_texture(&mut ByteReader::new(&w)).unwrap();
    assert_eq!((back.width, back.height, back.format), (2, 1, TextureFormat::R8G8B8A8));
    assert_eq!(back.pixels, texture.clone().pixels);
    w[8] = 42;
    assert_eq!(
        read_texture(&mut ByteReader::new(&w)).err(),
        Some(CacheError::UnknownTextureFormat(42))
    );
}

#[test]
fn errors_have_words() {
    assert_eq!(CacheError::UnexpectedEof.message(), "failed to fill whole buffer");
    assert_eq!(CacheError::AllocationTooLarge.message(), "cached allocation too large");
    assert_eq!(CacheError::InvalidUtf8.message(), "invalid UTF-8");
    assert_eq!(
        CacheError::UnknownTextureFormat(200).message(),
        "Unknown cached texture format 200"
    );
    assert_eq!(CacheError::InvalidMagic.message(), "Invalid cache magic");
    assert_eq!(
        CacheError::UnsupportedVersion(17).message(),
        "Unsupported cache version 17 (expected 2)"
    );
    assert_eq!(CacheError::InvalidSkeletonFlag(9).message(), "Invalid skeleton flag 9");
}

#[test]
fn numbers_in_decimal() {
    for n in [0u64, 7, 10, 99, 100, 1234567890, u64::MAX] {
        assert_eq!(to_decimal(n), n.to_string());
    }
}

#[test]
fn bits_compare_as_numbers() {
    let values = [
        f32::NEG_INFINITY, -2.5, -1.0, -0.0, 0.0, f32::MIN_POSITIVE, 1.0, 1.5, f32::INFINITY,
        f32::NAN,
    ];
    for a in values {
        assert_eq!(is_nan(a.to_bits()), a.is_nan());
        for b in values {
            assert_eq!(at_most(a.to_bits(), b.to_bits()), a <= b);
            assert_eq!(below(a.to_bits(), b.to_bits()), a < b);
        }
    }
}

#[test]
fn asset_bodies_round_trip() {
    let asset = CachedAsset {
        vertices: vec![Vertex::new(v3(1.0, 0.0, 0.0), v3(0.0, 0.0, 1.0), None, None, None)],
        indices: vec![0, 0, 0],
        material_ids: vec![0],
        materials: vec![material(5)],
        textures: vec![],
        skeleton: None,
        animations: vec![],
    };
    let mut w = Vec::new();
    asset.write_record(&mut w);
    assert_eq!(w.len(), (8 + 64) + (8 + 12) + (8 + 4) + (8 + 72) + 1 + 8 + 8);
    let mut r = ByteReader::new(&w);
    let back = CachedAsset::read_record(&mut r).unwrap();
    assert_eq!(back.indices, vec![0, 0, 0]);
    assert_eq!(back.materials.len(), 1);
    assert!(back.skeleton.is_none());
    assert_eq!(r.pos, w.len());
}
