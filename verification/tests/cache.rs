use rtx_vulkan_engine::cache::{
    find_valid_cache, load_cached_asset, read_cache_dependencies, save_cache, CacheDependency,
    CachedAsset, FileInfo, FileTime,
};
use rtx_vulkan_engine::codec::{write_u32, write_u64};
use rtx_vulkan_engine::common::{Bone, Skeleton, Vertex};
use rtx_vulkan_engine::errors::CacheError;
use rtx_vulkan_engine::math::{Mat4, Vec3};
use rtx_vulkan_engine::records::Record;
use rtx_vulkan_engine::texture::{CachedTexture, TextureFormat};

const MAGIC: &[u8; 8] = b"JMCACHE\0";

fn asset(skeleton: bool) -> CachedAsset {
    let zero = Vec3::new(0, 0, 0);
    CachedAsset {
        vertices: vec![Vertex::new(zero, zero, None, None, None); 2],
        indices: vec![0, 1, 0],
        material_ids: vec![3],
        materials: vec![],
        textures: vec![CachedTexture {
            width: 1,
            height: 1,
            format: TextureFormat::R8,
            pixels: vec![77],
        }],
        skeleton: if skeleton {
            Some(Skeleton {
                bones: vec![Bone {
                    node_index: 1,
                    name: "root".to_string(),
                    children: vec![],
                    local_transform: Mat4::identity(),
                    inverse_bind_matrix: Mat4::identity(),
                }],
                root_bones: vec![0],
            })
        } else {
            None
        },
        animations: vec![],
    }
}

fn dependency(path: &str, size: u64, seconds: u64, nanos: u32) -> CacheDependency {
    CacheDependency {
        path: path.to_string(),
        size,
        modified: FileTime::SinceEpoch { seconds, nanos },
    }
}

fn info(size: u64, seconds: u64, nanos: u32) -> Option<FileInfo> {
    Some(FileInfo { size, modified: FileTime::SinceEpoch { seconds, nanos } })
}

fn header(dependencies: &[CacheDependency]) -> Vec<u8> {
    let mut w = MAGIC.to_vec();
    write_u32(&mut w, 2);
    write_u64(&mut w, dependencies.len() as u64);
    for d in dependencies {
        d.write_record(&mut w);
    }
    w
}

#[test]
fn saved_layout_is_exact() {
    let dependencies = [dependency("a.glb", 5, 6, 7)];
    let saved = save_cache(&asset(false), &dependencies);
    let mut expected = header(&dependencies);
    expected.extend_from_slice(MAGIC);
    write_u32(&mut expected, 2);
    asset(false).write_record(&mut expected);
    assert_eq!(saved, expected);
    assert_eq!(&saved[..12], b"JMCACHE\0\x02\0\0\0");
    assert_eq!(&saved[12..20], &1u64.to_le_bytes());
    assert_eq!(&saved[28..33], b"a.glb");
    assert_eq!(&saved[33..41], &5u64.to_le_bytes());
    assert_eq!(&saved[41..49], &6u64.to_le_bytes());
    assert_eq!(&saved[49..53], &7u32.to_le_bytes());
    assert_eq!(&saved[53..61], MAGIC);
}

#[test]
fn model_right_behind_header_loads() {
    let mut file = header(&[dependency("x", 1, 2, 3)]);
    asset(true).write_record(&mut file);
    let back = load_cached_asset(&file).unwrap();
    assert_eq!(back.vertices.len(), 2);
    assert_eq!(back.indices, vec![0, 1, 0]);
    assert_eq!(back.material_ids, vec![3]);
    assert_eq!(back.textures[0].pixels, vec![77]);
    let skeleton = back.skeleton.unwrap();
    assert_eq!(skeleton.bones[0].node_index, 1);
    assert_eq!(skeleton.bones[0].name, "");
}

#[test]
fn loading_reads_the_model_alone() {
    let body = |bytes: &mut Vec<u8>| asset(true).write_record(bytes);
    let mut file = header(&[dependency("a", 1, 2, 3)]);
    body(&mut file);
    let mut other = header(&[dependency("a", 9, 8, 7), dependency("b", 0, 0, 0)]);
    body(&mut other);
    let end = file.len();
    for m in 0..end {
        assert!(load_cached_asset(&file[..m]).is_err());
    }
    file.extend_from_slice(b"what follows");
    for bytes in [&file[..end], &file[..], &other[..]] {
        let back = load_cached_asset(bytes).unwrap();
        assert_eq!(back.indices, vec![0, 1, 0]);
        assert_eq!(back.material_ids, vec![3]);
        assert_eq!(back.textures[0].pixels, vec![77]);
        assert_eq!(back.skeleton.unwrap().root_bones, vec![0]);
    }
}

#[test]
fn saved_cache_runs_into_its_end() {
    let saved = save_cache(&asset(true), &[dependency("x", 1, 2, 3)]);
    assert_eq!(load_cached_asset(&saved).err(), Some(CacheError::UnexpectedEof));
}

#[test]
fn loading_turns_down_bad_files() {
    assert_eq!(load_cached_asset(b"JMC").err(), Some(CacheError::UnexpectedEof));
    assert_eq!(load_cached_asset(b"JMCACHE!\x02\0\0\0").err(), Some(CacheError::InvalidMagic));
    assert_eq!(load_cached_asset(b"JMCACHE\0\x02\0").err(), Some(CacheError::UnexpectedEof));
    assert_eq!(
        load_cached_asset(b"JMCACHE\0\x03\0\0\0").err(),
        Some(CacheError::UnsupportedVersion(3))
    );
    let mut file = header(&[]);
    for _ in 0..4 {
        write_u64(&mut file, 0);
    }
    file.push(2);
    assert_eq!(load_cached_asset(&file).err(), Some(CacheError::InvalidSkeletonFlag(2)));
}

#[test]
fn dependencies_read_back() {
    let saved = save_cache(
        &asset(false),
        &[
            dependency("models/a.gltf", 10, 20, 30),
            CacheDependency {
                path: "old".to_string(),
                size: 1,
                modified: FileTime::BeforeEpoch,
            },
        ],
    );
    let named = read_cache_dependencies(&saved).unwrap().unwrap();
    assert_eq!(named.len(), 2);
    assert_eq!(named[0].path, "models/a.gltf");
    assert_eq!(named[0].size, 10);
    assert_eq!(named[0].modified, FileTime::SinceEpoch { seconds: 20, nanos: 30 });
    assert_eq!(named[1].modified, FileTime::SinceEpoch { seconds: 0, nanos: 0 });
}

#[test]
fn other_versions_have_no_dependencies() {
    assert!(matches!(read_cache_dependencies(b"JMCACHE?rest"), Ok(None)));
    assert!(matches!(read_cache_dependencies(b"JMCACHE\0\x01\0\0\0"), Ok(None)));
    assert!(matches!(read_cache_dependencies(b"JM"), Err(CacheError::UnexpectedEof)));
    let mut file = MAGIC.to_vec();
    write_u32(&mut file, 2);
    write_u64(&mut file, 1);
    write_u64(&mut file, 1);
    file.push(0xFF);
    assert!(matches!(read_cache_dependencies(&file), Err(CacheError::InvalidUtf8)));
}

#[test]
fn valid_while_nothing_changes() {
    let saved = save_cache(
        &asset(false),
        &[dependency("a", 1, 2, 3), dependency("b", 4, 5, 6)],
    );
    let path = || "cache/a.cache".to_string();
    let same = [info(1, 2, 3), info(4, 5, 6)];
    assert_eq!(find_valid_cache(path(), Some(&saved), &same), Ok(Some(path())));
    assert_eq!(find_valid_cache(path(), None, &same), Ok(None));
    assert_eq!(find_valid_cache(path(), Some(&saved), &[info(1, 2, 3), None]), Ok(None));
    assert_eq!(find_valid_cache(path(), Some(&saved), &[info(1, 2, 3)]), Ok(None));
    assert_eq!(
        find_valid_cache(path(), Some(&saved), &[info(1, 2, 3), info(9, 5, 6)]),
        Ok(None)
    );
    assert_eq!(
        find_valid_cache(path(), Some(&saved), &[info(1, 2, 4), info(4, 5, 6)]),
        Ok(None)
    );
    assert_eq!(
        find_valid_cache(path(), Some(b"JMC"), &same),
        Err(CacheError::UnexpectedEof)
    );
    assert_eq!(find_valid_cache(path(), Some(b"XXXXXXXXXXXX"), &same), Ok(None));
}

#[test]
fn times_compare_as_points_in_time() {
    let a = FileTime::SinceEpoch { seconds: 1, nanos: 1_000_000_000 };
    let b = FileTime::SinceEpoch { seconds: 2, nanos: 0 };
    assert!(a.same_time(b));
    assert!(!a.same_time(FileTime::SinceEpoch { seconds: 1, nanos: 999_999_999 }));
    assert!(!FileTime::BeforeEpoch.same_time(FileTime::BeforeEpoch));
    // A file from before 1970 never counts as unchanged.
    let d = CacheDependency { path: String::new(), size: 0, modified: b };
    assert!(!d.is_unchanged(&Some(FileInfo { size: 0, modified: FileTime::BeforeEpoch })));
    assert!(d.is_unchanged(&info(0, 2, 0)));
}
