//! The model cache: a file that holds a converted model, with the files it was made from, so that
//! it can be told whether the model is still current.

use crate::codec::{
    continues, le_bytes, le_value, lemma_join, lemma_parse_u32, lemma_parse_u64, lemma_parse_u8,
    lemma_taken, lemma_u32_is_written_back, lemma_u32_reads_no_further, lemma_u64_is_written_back,
    lemma_u64_reads_no_further, lemma_u8_reads_no_further, parse_u32, parse_u64, parse_u8,
    read_part, read_u32, read_u64, read_u8, reads_same, taken, write_u32, write_u64, write_u8,
    ByteReader, Parsed,
};
use crate::common::{AnimationClip, ClipView, Material, Skeleton, SkeletonView, Vertex};
use crate::errors::CacheError;
use crate::layouts::{read_skeleton, write_skeleton};
use crate::records::{
    encode_items, encode_list, lemma_items_read_back, lemma_list_reads_back,
    lemma_list_reads_no_further, parse_items, parse_list, read_list, storable_items, storable_list,
    stored_list, views, write_list, Record,
};
use crate::text::{
    encode_bytes, lemma_string_is_written_back, lemma_string_reads_back,
    lemma_string_reads_no_further, parse_string, read_string, write_string,
};
use crate::texture::{CachedTexture, TextureView};
use vstd::prelude::*;
use vstd::utf8::encode_utf8;

verus! {

/// The version of the layout that is written, and the only one that is read.
pub const CACHE_VERSION: u32 = 2;

/// The eight bytes that a cache starts with: `JMCACHE` and a zero.
pub open spec fn magic() -> Seq<u8> {
    seq![0x4Au8, 0x4Du8, 0x43u8, 0x41u8, 0x43u8, 0x48u8, 0x45u8, 0x00u8]
}

/// A model as it is kept in the cache.
pub struct CachedAsset {
    pub vertices: Vec<Vertex>,
    pub indices: Vec<u32>,
    pub material_ids: Vec<u32>,
    pub materials: Vec<Material>,
    pub textures: Vec<CachedTexture>,
    pub skeleton: Option<Skeleton>,
    pub animations: Vec<AnimationClip>,
}

pub struct AssetView {
    pub vertices: Seq<Vertex>,
    pub indices: Seq<u32>,
    pub material_ids: Seq<u32>,
    pub materials: Seq<Material>,
    pub textures: Seq<TextureView>,
    pub skeleton: Option<SkeletonView>,
    pub animations: Seq<ClipView>,
}

/// The view of a skeleton that may be missing.
pub open spec fn skeleton_view(skeleton: Option<Skeleton>) -> Option<SkeletonView> {
    match skeleton {
        Some(skeleton) => Some(skeleton@),
        None => None,
    }
}

impl View for CachedAsset {
    type V = AssetView;

    open spec fn view(&self) -> AssetView {
        AssetView {
            vertices: self.vertices@,
            indices: self.indices@,
            material_ids: self.material_ids@,
            materials: self.materials@,
            textures: views(self.textures@),
            skeleton: skeleton_view(self.skeleton),
            animations: views(self.animations@),
        }
    }
}

/// When a file was last changed.
#[derive(Clone, Copy, PartialEq, Eq, Structural, Debug)]
pub enum FileTime {
    /// Some time before the start of 1970.
    BeforeEpoch,
    /// So much time after the start of 1970.
    SinceEpoch { seconds: u64, nanos: u32 },
}

impl FileTime {
    /// Nanoseconds since the start of 1970.
    pub open spec fn nanoseconds(self) -> Option<int> {
        match self {
            FileTime::BeforeEpoch => None,
            FileTime::SinceEpoch { seconds, nanos } => Some(seconds * 1_000_000_000 + nanos),
        }
    }

    /// What the cache keeps of a time: times before 1970 become its start.
    pub open spec fn kept(self) -> FileTime {
        match self {
            FileTime::BeforeEpoch => FileTime::SinceEpoch { seconds: 0, nanos: 0 },
            since => since,
        }
    }

    /// Whether two times are known to be the same point in time.
    pub fn same_time(self, other: FileTime) -> (out: bool)
        ensures
            out <==> self.nanoseconds() is Some && self.nanoseconds() == other.nanoseconds(),
    {
        match (self, other) {
            (
                FileTime::SinceEpoch { seconds: s1, nanos: n1 },
                FileTime::SinceEpoch { seconds: s2, nanos: n2 },
            ) => {
                let a: u128 = s1 as u128 * 1_000_000_000 + n1 as u128;
                let b: u128 = s2 as u128 * 1_000_000_000 + n2 as u128;
                a == b
            },
            _ => false,
        }
    }
}

/// A file that a cached model was made from, as it was at that time.
pub struct CacheDependency {
    pub path: String,
    pub size: u64,
    pub modified: FileTime,
}

pub struct DependencyView {
    pub path: Seq<char>,
    pub size: u64,
    pub modified: FileTime,
}

impl View for CacheDependency {
    type V = DependencyView;

    open spec fn view(&self) -> DependencyView {
        DependencyView { path: self.path@, size: self.size, modified: self.modified }
    }
}

impl Record for CacheDependency {
    open spec fn encoding(value: DependencyView) -> Seq<u8> {
        let (seconds, nanos) = match value.modified.kept() {
            FileTime::SinceEpoch { seconds, nanos } => (seconds, nanos),
            FileTime::BeforeEpoch => (0u64, 0u32),
        };
        encode_bytes(encode_utf8(value.path)) + (le_bytes(value.size as nat, 8) + (le_bytes(
            seconds as nat,
            8,
        ) + le_bytes(nanos as nat, 4)))
    }

    open spec fn parsing(s: Seq<u8>) -> Parsed<DependencyView> {
        match parse_string(s) {
            Err(e) => Err(e),
            Ok((path, s)) => match parse_u64(s) {
                Err(e) => Err(e),
                Ok((size, s)) => match parse_u64(s) {
                    Err(e) => Err(e),
                    Ok((seconds, s)) => match parse_u32(s) {
                        Err(e) => Err(e),
                        Ok((nanos, s)) => Ok(
                            (
                                DependencyView {
                                    path,
                                    size,
                                    modified: FileTime::SinceEpoch { seconds, nanos },
                                },
                                s,
                            ),
                        ),
                    },
                },
            },
        }
    }

    open spec fn stored(value: DependencyView) -> DependencyView {
        DependencyView { modified: value.modified.kept(), ..value }
    }

    open spec fn storable(value: DependencyView) -> bool {
        encode_utf8(value.path).len() <= usize::MAX
    }

    proof fn reads_back(value: DependencyView, tail: Seq<u8>) {
        let (seconds, nanos) = match value.modified.kept() {
            FileTime::SinceEpoch { seconds, nanos } => (seconds, nanos),
            FileTime::BeforeEpoch => (0u64, 0u32),
        };
        let a = encode_bytes(encode_utf8(value.path));
        let b = le_bytes(value.size as nat, 8);
        let c = le_bytes(seconds as nat, 8);
        let d = le_bytes(nanos as nat, 4);
        assert(Self::encoding(value) + tail =~= a + (b + (c + (d + tail))));
        lemma_string_reads_back(value.path, b + (c + (d + tail)));
        lemma_parse_u64(value.size, c + (d + tail));
        lemma_parse_u64(seconds, d + tail);
        lemma_parse_u32(nanos, tail);
    }

    proof fn reads_no_further(s: Seq<u8>, tail: Seq<u8>) {
        if let Ok((_, s1)) = parse_string(s) {
            if let Ok((_, s2)) = parse_u64(s1) {
                if let Ok((_, s3)) = parse_u64(s2) {
                    if let Ok((_, s4)) = parse_u32(s3) {
                        let t3 = taken(s3, s4) + tail;
                        let t2 = taken(s2, s3) + t3;
                        let t1 = taken(s1, s2) + t2;
                        lemma_string_reads_no_further(s, t1);
                        lemma_u64_reads_no_further(s1, t2);
                        lemma_u64_reads_no_further(s2, t3);
                        lemma_u32_reads_no_further(s3, tail);
                        lemma_taken(s, s1, s2, t2);
                        lemma_taken(s, s2, s3, t3);
                        lemma_taken(s, s3, s4, tail);
                    }
                }
            }
        }
    }

    fn write_record(&self, w: &mut Vec<u8>) {
        let (seconds, nanos) = match self.modified {
            FileTime::SinceEpoch { seconds, nanos } => (seconds, nanos),
            FileTime::BeforeEpoch => (0u64, 0u32),
        };
        write_string(w, self.path.as_str());
        write_u64(w, self.size);
        write_u64(w, seconds);
        write_u32(w, nanos);
        proof {
            assert(w@ =~= old(w)@ + Self::encoding(self@));
        }
    }

    fn read_record(r: &mut ByteReader) -> (out: Result<CacheDependency, CacheError>) {
        let path = read_string(r)?;
        let size = read_u64(r)?;
        let seconds = read_u64(r)?;
        let nanos = read_u32(r)?;
        Ok(CacheDependency { path, size, modified: FileTime::SinceEpoch { seconds, nanos } })
    }
}

/// The bytes of a skeleton that may be missing: a flag, and the skeleton where there is one.
pub open spec fn encode_skeleton(skeleton: Option<SkeletonView>) -> Seq<u8> {
    match skeleton {
        Some(skeleton) => le_bytes(1, 1) + Skeleton::encoding(skeleton),
        None => le_bytes(0, 1),
    }
}

/// Reading a skeleton that may be missing.
pub open spec fn parse_skeleton(s: Seq<u8>) -> Parsed<Option<SkeletonView>> {
    match parse_u8(s) {
        Err(e) => Err(e),
        Ok((flag, s)) => if flag == 0 {
            Ok((None, s))
        } else if flag == 1 {
            match Skeleton::parsing(s) {
                Err(e) => Err(e),
                Ok((skeleton, s)) => Ok((Some(skeleton), s)),
            }
        } else {
            Err(CacheError::InvalidSkeletonFlag(flag))
        },
    }
}

pub open spec fn stored_skeleton(skeleton: Option<SkeletonView>) -> Option<SkeletonView> {
    match skeleton {
        Some(skeleton) => Some(Skeleton::stored(skeleton)),
        None => None,
    }
}

proof fn lemma_skeleton_reads_back(skeleton: Option<SkeletonView>, tail: Seq<u8>)
    requires
        skeleton matches Some(s) ==> Skeleton::storable(s),
    ensures
        parse_skeleton(encode_skeleton(skeleton) + tail) == Ok::<
            (Option<SkeletonView>, Seq<u8>),
            CacheError,
        >((stored_skeleton(skeleton), tail)),
{
    match skeleton {
        Some(s) => {
            let more = Skeleton::encoding(s) + tail;
            assert(encode_skeleton(skeleton) + tail =~= le_bytes(1, 1) + more);
            lemma_parse_u8(1, more);
            Skeleton::reads_back(s, tail);
        },
        None => {
            lemma_parse_u8(0, tail);
        },
    }
}

proof fn lemma_skeleton_reads_no_further(s: Seq<u8>, tail: Seq<u8>)
    ensures
        reads_same(
            s,
            parse_skeleton(s),
            parse_skeleton(read_part(s, parse_skeleton(s)) + tail),
            tail,
        ),
{
    if let Ok((flag, s1)) = parse_u8(s) {
        if flag == 0 {
            lemma_u8_reads_no_further(s, tail);
        } else if let Ok((_, s2)) = Skeleton::parsing(s1) {
            let t1 = taken(s1, s2) + tail;
            lemma_u8_reads_no_further(s, t1);
            Skeleton::reads_no_further(s1, tail);
            lemma_taken(s, s1, s2, tail);
        }
    }
}

fn write_optional_skeleton(w: &mut Vec<u8>, skeleton: &Option<Skeleton>)
    ensures
        final(w)@ == old(w)@ + encode_skeleton(skeleton_view(*skeleton)),
{
    match skeleton {
        Some(skeleton) => {
            write_u8(w, 1);
            write_skeleton(w, skeleton);
            proof {
                lemma_join(old(w)@, le_bytes(1, 1), Skeleton::encoding(skeleton@));
            }
        },
        None => {
            write_u8(w, 0);
        },
    }
}

fn read_optional_skeleton(r: &mut ByteReader) -> (out: Result<Option<Skeleton>, CacheError>)
    requires
        old(r).wf(),
    ensures
        continues(*old(r), *final(r)),
        match parse_skeleton(old(r).rest()) {
            Ok((skeleton, rest)) => {
                &&& out is Ok
                &&& skeleton_view(out->Ok_0) == skeleton
                &&& final(r).rest() == rest
            },
            Err(error) => out == Err::<Option<Skeleton>, CacheError>(error),
        },
{
    let has_skeleton = read_u8(r)?;
    match has_skeleton {
        0 => Ok(None),
        1 => {
            let skeleton = read_skeleton(r)?;
            Ok(Some(skeleton))
        },
        _ => Err(CacheError::InvalidSkeletonFlag(has_skeleton)),
    }
}

/// The part of a cache that holds the model.
impl Record for CachedAsset {
    open spec fn encoding(value: AssetView) -> Seq<u8> {
        encode_list::<Vertex>(value.vertices) + (encode_list::<u32>(value.indices) + (encode_list::<
            u32,
        >(value.material_ids) + (encode_list::<Material>(value.materials) + (encode_skeleton(
            value.skeleton,
        ) + (encode_list::<AnimationClip>(value.animations) + encode_list::<CachedTexture>(
            value.textures,
        ))))))
    }

    open spec fn parsing(s: Seq<u8>) -> Parsed<AssetView> {
        match parse_list::<Vertex>(s) {
            Err(e) => Err(e),
            Ok((vertices, s)) => match parse_list::<u32>(s) {
                Err(e) => Err(e),
                Ok((indices, s)) => match parse_list::<u32>(s) {
                    Err(e) => Err(e),
                    Ok((material_ids, s)) => match parse_list::<Material>(s) {
                        Err(e) => Err(e),
                        Ok((materials, s)) => match parse_skeleton(s) {
                            Err(e) => Err(e),
                            Ok((skeleton, s)) => match parse_list::<AnimationClip>(s) {
                                Err(e) => Err(e),
                                Ok((animations, s)) => match parse_list::<CachedTexture>(s) {
                                    Err(e) => Err(e),
                                    Ok((textures, s)) => Ok(
                                        (
                                            AssetView {
                                                vertices,
                                                indices,
                                                material_ids,
                                                materials,
                                                textures,
                                                skeleton,
                                                animations,
                                            },
                                            s,
                                        ),
                                    ),
                                },
                            },
                        },
                    },
                },
            },
        }
    }

    /// All but the names of the bones.
    open spec fn stored(value: AssetView) -> AssetView {
        AssetView { skeleton: stored_skeleton(value.skeleton), ..value }
    }

    open spec fn storable(value: AssetView) -> bool {
        &&& value.vertices.len() <= usize::MAX
        &&& value.indices.len() <= usize::MAX
        &&& value.material_ids.len() <= usize::MAX
        &&& value.materials.len() <= usize::MAX
        &&& storable_list::<CachedTexture>(value.textures)
        &&& value.skeleton matches Some(skeleton) ==> Skeleton::storable(skeleton)
        &&& storable_list::<AnimationClip>(value.animations)
    }

    #[verifier::rlimit(40)]
    proof fn reads_back(value: AssetView, tail: Seq<u8>) {
        let a = encode_list::<Vertex>(value.vertices);
        let b = encode_list::<u32>(value.indices);
        let c = encode_list::<u32>(value.material_ids);
        let d = encode_list::<Material>(value.materials);
        let e = encode_skeleton(value.skeleton);
        let f = encode_list::<AnimationClip>(value.animations);
        let g = encode_list::<CachedTexture>(value.textures);
        let s6 = g + tail;
        let s5 = f + s6;
        let s4 = e + s5;
        let s3 = d + s4;
        let s2 = c + s3;
        let s1 = b + s2;
        let s0 = a + s1;
        assert(Self::encoding(value) + tail == s0) by {
            lemma_join(a, b + (c + (d + (e + (f + g)))), tail);
            lemma_join(b, c + (d + (e + (f + g))), tail);
            lemma_join(c, d + (e + (f + g)), tail);
            lemma_join(d, e + (f + g), tail);
            lemma_join(e, f + g, tail);
            lemma_join(f, g, tail);
        }
        assert(parse_list::<Vertex>(s0) == Ok::<_, CacheError>((value.vertices, s1))) by {
            lemma_list_reads_back::<Vertex>(value.vertices, s1);
            assert(stored_list::<Vertex>(value.vertices) =~= value.vertices);
        }
        assert(parse_list::<u32>(s1) == Ok::<_, CacheError>((value.indices, s2))) by {
            lemma_list_reads_back::<u32>(value.indices, s2);
            assert(stored_list::<u32>(value.indices) =~= value.indices);
        }
        assert(parse_list::<u32>(s2) == Ok::<_, CacheError>((value.material_ids, s3))) by {
            lemma_list_reads_back::<u32>(value.material_ids, s3);
            assert(stored_list::<u32>(value.material_ids) =~= value.material_ids);
        }
        assert(parse_list::<Material>(s3) == Ok::<_, CacheError>((value.materials, s4))) by {
            lemma_list_reads_back::<Material>(value.materials, s4);
            assert(stored_list::<Material>(value.materials) =~= value.materials);
        }
        lemma_skeleton_reads_back(value.skeleton, s5);
        assert(parse_list::<AnimationClip>(s5) == Ok::<_, CacheError>((value.animations, s6))) by {
            lemma_list_reads_back::<AnimationClip>(value.animations, s6);
            assert(stored_list::<AnimationClip>(value.animations) =~= value.animations);
        }
        assert(parse_list::<CachedTexture>(s6) == Ok::<_, CacheError>((value.textures, tail))) by {
            lemma_list_reads_back::<CachedTexture>(value.textures, tail);
            assert(stored_list::<CachedTexture>(value.textures) =~= value.textures);
        }
    }

    #[verifier::rlimit(40)]
    proof fn reads_no_further(s: Seq<u8>, tail: Seq<u8>) {
        if let Ok((_, s1)) = parse_list::<Vertex>(s) {
            if let Ok((_, s2)) = parse_list::<u32>(s1) {
                if let Ok((_, s3)) = parse_list::<u32>(s2) {
                    if let Ok((_, s4)) = parse_list::<Material>(s3) {
                        if let Ok((_, s5)) = parse_skeleton(s4) {
                            if let Ok((_, s6)) = parse_list::<AnimationClip>(s5) {
                                if let Ok((_, s7)) = parse_list::<CachedTexture>(s6) {
                                    let t6 = taken(s6, s7) + tail;
                                    let t5 = taken(s5, s6) + t6;
                                    let t4 = taken(s4, s5) + t5;
                                    let t3 = taken(s3, s4) + t4;
                                    let t2 = taken(s2, s3) + t3;
                                    let t1 = taken(s1, s2) + t2;
                                    lemma_list_reads_no_further::<Vertex>(s, t1);
                                    lemma_list_reads_no_further::<u32>(s1, t2);
                                    lemma_list_reads_no_further::<u32>(s2, t3);
                                    lemma_list_reads_no_further::<Material>(s3, t4);
                                    lemma_skeleton_reads_no_further(s4, t5);
                                    lemma_list_reads_no_further::<AnimationClip>(s5, t6);
                                    lemma_list_reads_no_further::<CachedTexture>(s6, tail);
                                    lemma_taken(s, s1, s2, t2);
                                    lemma_taken(s, s2, s3, t3);
                                    lemma_taken(s, s3, s4, t4);
                                    lemma_taken(s, s4, s5, t5);
                                    lemma_taken(s, s5, s6, t6);
                                    lemma_taken(s, s6, s7, tail);
                                }
                            }
                        }
                    }
                }
            }
        }
    }

    fn write_record(&self, w: &mut Vec<u8>) {
        write_list(w, &self.vertices);
        write_list(w, &self.indices);
        write_list(w, &self.material_ids);
        write_list(w, &self.materials);
        write_optional_skeleton(w, &self.skeleton);
        write_list(w, &self.animations);
        write_list(w, &self.textures);
        proof {
            assert(views(self.vertices@) =~= self.vertices@);
            assert(views(self.indices@) =~= self.indices@);
            assert(views(self.material_ids@) =~= self.material_ids@);
            assert(views(self.materials@) =~= self.materials@);
            let o = old(w)@;
            let a = encode_list::<Vertex>(self@.vertices);
            let b = encode_list::<u32>(self@.indices);
            let c = encode_list::<u32>(self@.material_ids);
            let d = encode_list::<Material>(self@.materials);
            let e = encode_skeleton(self@.skeleton);
            let f = encode_list::<AnimationClip>(self@.animations);
            let g = encode_list::<CachedTexture>(self@.textures);
            lemma_join(o + a + b + c + d + e, f, g);
            lemma_join(o + a + b + c + d, e, f + g);
            lemma_join(o + a + b + c, d, e + (f + g));
            lemma_join(o + a + b, c, d + (e + (f + g)));
            lemma_join(o + a, b, c + (d + (e + (f + g))));
            lemma_join(o, a, b + (c + (d + (e + (f + g)))));
        }
    }

    fn read_record(r: &mut ByteReader) -> (out: Result<CachedAsset, CacheError>) {
        let vertices = read_list::<Vertex>(r)?;
        let indices = read_list::<u32>(r)?;
        let material_ids = read_list::<u32>(r)?;
        let materials = read_list::<Material>(r)?;
        let skeleton = read_optional_skeleton(r)?;
        let animations = read_list::<AnimationClip>(r)?;
        let textures = read_list::<CachedTexture>(r)?;
        proof {
            assert(views(vertices@) =~= vertices@);
            assert(views(indices@) =~= indices@);
            assert(views(material_ids@) =~= material_ids@);
            assert(views(materials@) =~= materials@);
        }
        Ok(
            CachedAsset {
                vertices,
                indices,
                material_ids,
                materials,
                textures,
                skeleton,
                animations,
            },
        )
    }
}

/// The magic bytes and the version.
pub open spec fn encode_preamble() -> Seq<u8> {
    magic() + le_bytes(CACHE_VERSION as nat, 4)
}

/// What comes before the model: the preamble and the files that the model was made from.
pub open spec fn encode_header(dependencies: Seq<DependencyView>) -> Seq<u8> {
    encode_preamble() + encode_list::<CacheDependency>(dependencies)
}

/// The bytes of a cache. The preamble comes a second time in front of the model.
pub open spec fn encode_cache(asset: AssetView, dependencies: Seq<DependencyView>) -> Seq<u8> {
    encode_header(dependencies) + (encode_preamble() + CachedAsset::encoding(asset))
}

/// Reading the preamble; gives nothing but what follows it.
pub open spec fn parse_preamble(s: Seq<u8>) -> Parsed<()> {
    if s.len() < 8 {
        Err(CacheError::UnexpectedEof)
    } else if s.take(8) != magic() {
        Err(CacheError::InvalidMagic)
    } else {
        match parse_u32(s.skip(8)) {
            Err(e) => Err(e),
            Ok((version, rest)) => if version == CACHE_VERSION {
                Ok(((), rest))
            } else {
                Err(CacheError::UnsupportedVersion(version))
            },
        }
    }
}

/// Reading the header.
pub open spec fn parse_header(s: Seq<u8>) -> Parsed<Seq<DependencyView>> {
    match parse_preamble(s) {
        Err(e) => Err(e),
        Ok((_, rest)) => parse_list::<CacheDependency>(rest),
    }
}

/// Reading a cache: the header, and the model right behind it.
pub open spec fn parse_cache(s: Seq<u8>) -> Result<AssetView, CacheError> {
    match parse_header(s) {
        Err(e) => Err(e),
        Ok((_, rest)) => match CachedAsset::parsing(rest) {
            Err(e) => Err(e),
            Ok((asset, _)) => Ok(asset),
        },
    }
}

/// Reading a cache, and what follows it.
pub open spec fn parse_whole_cache(s: Seq<u8>) -> Parsed<AssetView> {
    match parse_header(s) {
        Err(e) => Err(e),
        Ok((_, rest)) => CachedAsset::parsing(rest),
    }
}

/// The part of a file from which a model is loaded: the header, and the model right behind it.
pub open spec fn loaded_part(s: Seq<u8>) -> Seq<u8> {
    read_part(s, parse_whole_cache(s))
}

fn write_preamble(w: &mut Vec<u8>)
    ensures
        final(w)@ == old(w)@ + encode_preamble(),
{
    w.push(0x4A);
    w.push(0x4D);
    w.push(0x43);
    w.push(0x41);
    w.push(0x43);
    w.push(0x48);
    w.push(0x45);
    w.push(0x00);
    write_u32(w, CACHE_VERSION);
    proof {
        assert(w@ =~= old(w)@ + encode_preamble());
    }
}

fn read_preamble(r: &mut ByteReader) -> (out: Result<(), CacheError>)
    requires
        old(r).wf(),
    ensures
        continues(*old(r), *final(r)),
        match parse_preamble(old(r).rest()) {
            Ok((_, rest)) => out is Ok && final(r).rest() == rest,
            Err(error) => out == Err::<(), CacheError>(error),
        },
{
    let available: usize = r.data.len();
    if available - r.pos < 8 {
        return Err(CacheError::UnexpectedEof);
    }
    let at: usize = r.pos;
    let is_magic = r.data[at] == 0x4A && r.data[at + 1] == 0x4D && r.data[at + 2] == 0x43
        && r.data[at + 3] == 0x41 && r.data[at + 4] == 0x43 && r.data[at + 5] == 0x48 && r.data[at
        + 6] == 0x45 && r.data[at + 7] == 0x00;
    proof {
        let front = r.rest().take(8);
        assert(forall|i: int| 0 <= i < 8 ==> front[i] == r.data@[at + i]);
        if is_magic {
            assert(front =~= magic());
        } else {
            assert(front[0] != 0x4A || front[1] != 0x4D || front[2] != 0x43 || front[3] != 0x41
                || front[4] != 0x43 || front[5] != 0x48 || front[6] != 0x45 || front[7] != 0x00);
        }
    }
    if !is_magic {
        return Err(CacheError::InvalidMagic);
    }
    r.pos = at + 8;
    proof {
        assert(r.rest() =~= old(r).rest().skip(8));
    }
    let version = read_u32(r)?;
    if version != CACHE_VERSION {
        return Err(CacheError::UnsupportedVersion(version));
    }
    Ok(())
}

/// The contents of the cache file for a model that was made from `dependencies`.
pub fn save_cache(asset: &CachedAsset, dependencies: &[CacheDependency]) -> (out: Vec<u8>)
    ensures
        out@ == encode_cache(asset@, views(dependencies@)),
{
    let mut file: Vec<u8> = Vec::new();
    write_preamble(&mut file);
    write_list(&mut file, dependencies);
    write_preamble(&mut file);
    asset.write_record(&mut file);
    proof {
        assert(file@ =~= encode_cache(asset@, views(dependencies@)));
    }
    file
}

/// The model in a cache file.
pub fn load_cached_asset(contents: &[u8]) -> (out: Result<CachedAsset, CacheError>)
    ensures
        match parse_cache(contents@) {
            Ok(asset) => out is Ok && out->Ok_0@ == asset,
            Err(error) => out == Err::<CachedAsset, CacheError>(error),
        },
{
    let mut r = ByteReader::new(contents);
    read_preamble(&mut r)?;
    let _dependencies = read_list::<CacheDependency>(&mut r)?;
    CachedAsset::read_record(&mut r)
}

/// What is known of a file on disk.
#[derive(Clone, Copy, PartialEq, Eq, Structural, Debug)]
pub struct FileInfo {
    pub size: u64,
    pub modified: FileTime,
}

/// Whether a file is as it was: it is there, with the same size and the same time.
pub open spec fn unchanged(dependency: DependencyView, found: Option<FileInfo>) -> bool {
    match found {
        Some(info) => {
            &&& info.size == dependency.size
            &&& info.modified.nanoseconds() is Some
            &&& info.modified.nanoseconds() == dependency.modified.nanoseconds()
        },
        None => false,
    }
}

/// Whether every file is as it was; `found` tells what is known of each, in the same order. A
/// file of which nothing is told counts as missing.
pub open spec fn all_unchanged(
    dependencies: Seq<DependencyView>,
    found: Seq<Option<FileInfo>>,
) -> bool {
    &&& dependencies.len() <= found.len()
    &&& forall|i: int|
        0 <= i < dependencies.len() ==> unchanged(#[trigger] dependencies[i], found[i])
}

/// What the header of a cache says: the files it was made from, nothing where it is no cache of
/// this version, or an error where it cannot be read to its end.
pub open spec fn header_dependencies(contents: Seq<u8>) -> Result<
    Option<Seq<DependencyView>>,
    CacheError,
> {
    match parse_header(contents) {
        Ok((dependencies, _)) => Ok(Some(dependencies)),
        Err(CacheError::InvalidMagic) => Ok(None),
        Err(CacheError::UnsupportedVersion(_)) => Ok(None),
        Err(e) => Err(e),
    }
}

/// Reads the files that a cache was made from.
pub fn read_cache_dependencies(contents: &[u8]) -> (out: Result<
    Option<Vec<CacheDependency>>,
    CacheError,
>)
    ensures
        match header_dependencies(contents@) {
            Ok(Some(dependencies)) => out matches Ok(Some(list)) && views(list@) == dependencies,
            Ok(None) => out matches Ok(None),
            Err(error) => out == Err::<Option<Vec<CacheDependency>>, CacheError>(error),
        },
{
    let mut r = ByteReader::new(contents);
    match read_preamble(&mut r) {
        Ok(_) => {},
        Err(CacheError::InvalidMagic) => return Ok(None),
        Err(CacheError::UnsupportedVersion(_)) => return Ok(None),
        Err(e) => return Err(e),
    }
    proof {
        lemma_dependency_list_errors(r.rest());
    }
    let dependencies = read_list::<CacheDependency>(&mut r)?;
    Ok(Some(dependencies))
}

/// A list of files is never turned down for its magic bytes or its version.
proof fn lemma_dependency_list_errors(s: Seq<u8>)
    ensures
        parse_list::<CacheDependency>(s) matches Err(e) ==> !(e is InvalidMagic)
            && !(e is UnsupportedVersion),
{
    reveal(parse_list);
    if let Ok((n, rest)) = parse_u64(s) {
        lemma_dependency_items_errors(rest, (n as usize) as nat);
    }
}

proof fn lemma_dependency_items_errors(s: Seq<u8>, n: nat)
    ensures
        parse_items::<CacheDependency>(s, n) matches Err(e) ==> !(e is InvalidMagic)
            && !(e is UnsupportedVersion),
    decreases n,
{
    if n > 0 {
        if let Ok((_, rest)) = CacheDependency::parsing(s) {
            lemma_dependency_items_errors(rest, (n - 1) as nat);
        }
    }
}

impl CacheDependency {
    /// Whether the file is as it was.
    pub fn is_unchanged(&self, found: &Option<FileInfo>) -> (out: bool)
        ensures
            out == unchanged(self@, *found),
    {
        match found {
            Some(info) => info.size == self.size && info.modified.same_time(self.modified),
            None => false,
        }
    }
}

/// Decides whether a cache can be used. `contents` is what the file at `cache_path` holds, if
/// there is one, and `found` what is known of each file that its header names. The path is given
/// back where the cache is current.
pub fn find_valid_cache(
    cache_path: String,
    contents: Option<&[u8]>,
    found: &[Option<FileInfo>],
) -> (out: Result<Option<String>, CacheError>)
    ensures
        match contents {
            None => out matches Ok(None),
            Some(bytes) => match header_dependencies(bytes@) {
                Err(error) => out == Err::<Option<String>, CacheError>(error),
                Ok(None) => out matches Ok(None),
                Ok(Some(dependencies)) => if all_unchanged(dependencies, found@) {
                    out == Ok::<Option<String>, CacheError>(Some(cache_path))
                } else {
                    out matches Ok(None)
                },
            },
        },
{
    let bytes = match contents {
        Some(bytes) => bytes,
        None => return Ok(None),
    };
    let dependencies = match read_cache_dependencies(bytes)? {
        Some(dependencies) => dependencies,
        None => return Ok(None),
    };
    let mut i: usize = 0;
    while i < dependencies.len()
        invariant
            i <= dependencies@.len(),
            i <= found@.len(),
            forall|j: int|
                0 <= j < i ==> unchanged(#[trigger] views(dependencies@)[j], found@[j]),
            contents == Some(bytes),
            header_dependencies(bytes@) == Ok::<Option<Seq<DependencyView>>, CacheError>(
                Some(views(dependencies@)),
            ),
        decreases dependencies@.len() - i,
    {
        if i >= found.len() || !dependencies[i].is_unchanged(&found[i]) {
            proof {
                let entry = views(dependencies@)[i as int];
                assert(entry == dependencies@[i as int]@);
            }
            return Ok(None);
        }
        i = i + 1;
    }
    Ok(Some(cache_path))
}

/// The header of a cache is read back, whatever follows it; times before 1970 come back as its
/// start.
pub proof fn law_header_reads_back(dependencies: Seq<DependencyView>, tail: Seq<u8>)
    requires
        storable_list::<CacheDependency>(dependencies),
    ensures
        parse_header(encode_header(dependencies) + tail) == Ok::<
            (Seq<DependencyView>, Seq<u8>),
            CacheError,
        >((stored_list::<CacheDependency>(dependencies), tail)),
{
    let more = encode_list::<CacheDependency>(dependencies) + tail;
    lemma_join(encode_preamble(), encode_list::<CacheDependency>(dependencies), tail);
    lemma_preamble_reads_back(more);
    lemma_list_reads_back::<CacheDependency>(dependencies, tail);
}

proof fn lemma_preamble_reads_back(tail: Seq<u8>)
    ensures
        parse_preamble(encode_preamble() + tail) == Ok::<((), Seq<u8>), CacheError>(((), tail)),
{
    let version = le_bytes(CACHE_VERSION as nat, 4);
    let s = encode_preamble() + tail;
    lemma_join(magic(), version, tail);
    assert(s.take(8) =~= magic());
    assert(s.skip(8) =~= version + tail);
    lemma_parse_u32(CACHE_VERSION, tail);
}

/// A header with a model right behind it is loaded as that model, all but the names of its bones.
pub proof fn law_model_behind_header_loads(
    asset: AssetView,
    dependencies: Seq<DependencyView>,
    tail: Seq<u8>,
)
    requires
        storable_list::<CacheDependency>(dependencies),
        CachedAsset::storable(asset),
    ensures
        parse_cache(encode_header(dependencies) + (CachedAsset::encoding(asset) + tail)) == Ok::<
            AssetView,
            CacheError,
        >(CachedAsset::stored(asset)),
{
    law_header_reads_back(dependencies, CachedAsset::encoding(asset) + tail);
    CachedAsset::reads_back(asset, tail);
}

/// What a saved cache holds: the files it was made from, a second preamble, and the model.
pub proof fn law_saved_cache_holds_the_model(
    asset: AssetView,
    dependencies: Seq<DependencyView>,
)
    requires
        storable_list::<CacheDependency>(dependencies),
        CachedAsset::storable(asset),
    ensures
        ({
            let body = CachedAsset::encoding(asset);
            &&& parse_header(encode_cache(asset, dependencies)) == Ok::<_, CacheError>(
                (stored_list::<CacheDependency>(dependencies), encode_preamble() + body),
            )
            &&& parse_preamble(encode_preamble() + body) == Ok::<_, CacheError>(((), body))
            &&& CachedAsset::parsing(body) == Ok::<_, CacheError>(
                (CachedAsset::stored(asset), Seq::<u8>::empty()),
            )
        }),
{
    let body = CachedAsset::encoding(asset);
    law_header_reads_back(dependencies, encode_preamble() + body);
    lemma_preamble_reads_back(body);
    CachedAsset::reads_back(asset, Seq::empty());
    assert(body + Seq::<u8>::empty() =~= body);
}

/// A saved cache is found valid as long as every file is as it was when it was saved, and none
/// of them was changed before 1970.
pub proof fn law_saved_cache_is_valid_while_nothing_changes(
    asset: AssetView,
    dependencies: Seq<DependencyView>,
    found: Seq<Option<FileInfo>>,
)
    requires
        storable_list::<CacheDependency>(dependencies),
        CachedAsset::storable(asset),
        all_unchanged(dependencies, found),
    ensures
        header_dependencies(encode_cache(asset, dependencies)) matches Ok(Some(named))
            && all_unchanged(named, found),
{
    law_saved_cache_holds_the_model(asset, dependencies);
    let named = stored_list::<CacheDependency>(dependencies);
    assert forall|i: int| 0 <= i < named.len() implies unchanged(#[trigger] named[i], found[i]) by {
        assert(unchanged(dependencies[i], found[i]));
        assert(named[i] == dependencies[i]);
    }
}

/// A saved cache is no longer valid once one of its files is missing, or has another size or
/// another time.
pub proof fn law_saved_cache_is_stale_after_a_change(
    asset: AssetView,
    dependencies: Seq<DependencyView>,
    found: Seq<Option<FileInfo>>,
    i: int,
)
    requires
        storable_list::<CacheDependency>(dependencies),
        CachedAsset::storable(asset),
        0 <= i < dependencies.len() == found.len(),
        dependencies[i].modified is SinceEpoch,
        !unchanged(dependencies[i], found[i]),
    ensures
        header_dependencies(encode_cache(asset, dependencies)) matches Ok(Some(named))
            && !all_unchanged(named, found),
{
    law_saved_cache_holds_the_model(asset, dependencies);
    let named = stored_list::<CacheDependency>(dependencies);
    assert(named[i] == dependencies[i]);
}

proof fn lemma_preamble_reads_no_further(s: Seq<u8>, tail: Seq<u8>)
    ensures
        reads_same(
            s,
            parse_preamble(s),
            parse_preamble(read_part(s, parse_preamble(s)) + tail),
            tail,
        ),
{
    if let Ok((_, rest)) = parse_preamble(s) {
        let s1 = s.skip(8);
        let t1 = taken(s1, rest) + tail;
        lemma_u32_reads_no_further(s1, tail);
        assert(taken(s, s1) =~= s.take(8));
        assert(s =~= taken(s, s1) + s1);
        lemma_taken(s, s1, rest, tail);
        let again = taken(s, s1) + t1;
        assert(again.take(8) =~= s.take(8));
        assert(again.skip(8) =~= t1);
    }
}

proof fn lemma_header_reads_no_further(s: Seq<u8>, tail: Seq<u8>)
    ensures
        reads_same(s, parse_header(s), parse_header(read_part(s, parse_header(s)) + tail), tail),
{
    if let Ok((_, s1)) = parse_preamble(s) {
        if let Ok((_, s2)) = parse_list::<CacheDependency>(s1) {
            let t1 = taken(s1, s2) + tail;
            lemma_preamble_reads_no_further(s, t1);
            lemma_list_reads_no_further::<CacheDependency>(s1, tail);
            lemma_taken(s, s1, s2, tail);
        }
    }
}

proof fn lemma_cache_reads_no_further(s: Seq<u8>, tail: Seq<u8>)
    ensures
        reads_same(
            s,
            parse_whole_cache(s),
            parse_whole_cache(read_part(s, parse_whole_cache(s)) + tail),
            tail,
        ),
{
    if let Ok((_, s1)) = parse_header(s) {
        if let Ok((_, s2)) = CachedAsset::parsing(s1) {
            let t1 = taken(s1, s2) + tail;
            lemma_header_reads_no_further(s, t1);
            CachedAsset::reads_no_further(s1, tail);
            lemma_taken(s, s1, s2, tail);
        }
    }
}

/// Loading stops where the model ends: it takes a front part of the file, and that part with
/// anything behind it is loaded as the same model.
pub proof fn law_loading_ignores_what_follows(s: Seq<u8>, tail: Seq<u8>)
    requires
        parse_cache(s) is Ok,
    ensures
        s == loaded_part(s) + s.skip(loaded_part(s).len() as int),
        parse_cache(loaded_part(s) + tail) == parse_cache(s),
        loaded_part(loaded_part(s) + tail) == loaded_part(s),
{
    lemma_cache_reads_no_further(s, tail);
    let part = loaded_part(s);
    assert(s =~= part + s.skip(part.len() as int));
    assert((part + tail).take(part.len() as int) =~= part);
}

/// A file that ends before the part that is loaded does is not loaded.
pub proof fn law_cut_caches_do_not_load(s: Seq<u8>, m: int)
    requires
        parse_cache(s) is Ok,
        0 <= m < loaded_part(s).len(),
    ensures
        parse_cache(loaded_part(s).take(m)) is Err,
{
    let part = loaded_part(s);
    let cut = part.take(m);
    lemma_cache_reads_no_further(s, Seq::empty());
    assert(part + Seq::<u8>::empty() =~= part);
    if let Ok((_, rest)) = parse_whole_cache(cut) {
        let tail = rest + part.skip(m);
        lemma_cache_reads_no_further(cut, tail);
        lemma_join(taken(cut, rest), rest, part.skip(m));
        assert(cut + part.skip(m) =~= part);
    }
}

/// A file's entry in a header holds exactly what was read from it.
proof fn lemma_dependency_is_written_back(s: Seq<u8>)
    ensures
        CacheDependency::parsing(s) matches Ok((entry, rest)) ==> s == CacheDependency::encoding(
            entry,
        ) + rest && CacheDependency::storable(entry),
{
    if let Ok((path, s1)) = parse_string(s) {
        lemma_string_is_written_back(s);
        if let Ok((size, s2)) = parse_u64(s1) {
            lemma_u64_is_written_back(s1);
            if let Ok((seconds, s3)) = parse_u64(s2) {
                lemma_u64_is_written_back(s2);
                if let Ok((nanos, s4)) = parse_u32(s3) {
                    lemma_u32_is_written_back(s3);
                    let a = encode_bytes(encode_utf8(path));
                    let b = le_bytes(size as nat, 8);
                    let c = le_bytes(seconds as nat, 8);
                    let d = le_bytes(nanos as nat, 4);
                    lemma_join(a, b + (c + d), s4);
                    lemma_join(b, c + d, s4);
                    lemma_join(c, d, s4);
                }
            }
        }
    }
}

proof fn lemma_dependencies_are_written_back(s: Seq<u8>, n: nat)
    ensures
        parse_items::<CacheDependency>(s, n) matches Ok((entries, rest)) ==> {
            &&& entries.len() == n
            &&& s == encode_items::<CacheDependency>(entries) + rest
            &&& storable_items::<CacheDependency>(entries)
        },
    decreases n,
{
    if n == 0 {
        assert(encode_items::<CacheDependency>(Seq::empty()) + s =~= s);
    } else if let Ok((first, s1)) = CacheDependency::parsing(s) {
        lemma_dependency_is_written_back(s);
        lemma_dependencies_are_written_back(s1, (n - 1) as nat);
        if let Ok((others, rest)) = parse_items::<CacheDependency>(s1, (n - 1) as nat) {
            let entries = seq![first] + others;
            assert(entries.drop_first() =~= others);
            lemma_join(
                CacheDependency::encoding(first),
                encode_items::<CacheDependency>(others),
                rest,
            );
            assert forall|i: int| 0 <= i < entries.len() implies #[trigger]
                CacheDependency::storable(entries[i]) by {
                if i > 0 {
                    assert(CacheDependency::storable(others[i - 1]));
                }
            }
        }
    }
}

/// The preamble of a cache and the number of files in its header.
pub open spec fn header_front(s: Seq<u8>) -> Seq<u8> {
    s.take(20)
}

/// What is loaded does not depend on the files that the header names. The header consists of its
/// front and of the entries of its files, and with other entries in their place, of other paths,
/// sizes or times, the file is loaded as the same model.
#[verifier::rlimit(60)]
#[verifier::spinoff_prover]
pub proof fn law_loading_ignores_the_dependencies(
    s: Seq<u8>,
    entries: Seq<DependencyView>,
    rest: Seq<u8>,
    others: Seq<DependencyView>,
)
    requires
        parse_header(s) == Ok::<(Seq<DependencyView>, Seq<u8>), CacheError>((entries, rest)),
        others.len() == entries.len(),
        storable_items::<CacheDependency>(others),
    ensures
        s == header_front(s) + encode_items::<CacheDependency>(entries) + rest,
        parse_cache(header_front(s) + encode_items::<CacheDependency>(others) + rest)
            == parse_cache(s),
{
    reveal(parse_list);
    let s1 = s.skip(12);
    let s2 = s.skip(20);
    assert(s.skip(8).skip(4) =~= s1);
    assert(s1.skip(8) =~= s2);
    let n = le_value(s1.take(8)) as u64;
    let count = (n as usize) as nat;
    lemma_dependencies_are_written_back(s2, count);
    lemma_join(header_front(s), encode_items::<CacheDependency>(entries), rest);
    assert(s =~= header_front(s) + s2);
    let behind = encode_items::<CacheDependency>(others) + rest;
    let t = header_front(s) + behind;
    lemma_join(header_front(s), encode_items::<CacheDependency>(others), rest);
    assert(t.take(8) =~= s.take(8));
    assert(t.skip(8).take(4) =~= s.skip(8).take(4));
    assert(t.skip(8).skip(4).take(8) =~= s1.take(8));
    assert(t.skip(8).skip(4).skip(8) =~= behind);
    lemma_items_read_back::<CacheDependency>(others, rest);
}

/// Words and half words are read exactly as long as there are bytes for them.
proof fn lemma_words_size(s: Seq<u8>, n: nat)
    ensures
        match parse_items::<u32>(s, n) {
            Ok((_, rest)) => s.len() >= 4 * n && rest.len() == s.len() - 4 * n,
            Err(e) => s.len() < 4 * n && e == CacheError::UnexpectedEof,
        },
    decreases n,
{
    if n > 0 && s.len() >= 4 {
        lemma_words_size(s.skip(4), (n - 1) as nat);
    }
}

proof fn lemma_half_words_size(s: Seq<u8>, n: nat)
    ensures
        match parse_items::<u16>(s, n) {
            Ok((_, rest)) => s.len() >= 2 * n && rest.len() == s.len() - 2 * n,
            Err(e) => s.len() < 2 * n && e == CacheError::UnexpectedEof,
        },
    decreases n,
{
    if n > 0 && s.len() >= 2 {
        lemma_half_words_size(s.skip(2), (n - 1) as nat);
    }
}

/// A vertex takes 64 bytes.
pub proof fn lemma_vertices_size(s: Seq<u8>, n: nat)
    ensures
        match parse_items::<Vertex>(s, n) {
            Ok((_, rest)) => s.len() >= 64 * n && rest.len() == s.len() - 64 * n,
            Err(e) => s.len() < 64 * n && e == CacheError::UnexpectedEof,
        },
    decreases n,
{
    if n > 0 {
        lemma_words_size(s, 10);
        if let Ok((_, s1)) = parse_items::<u32>(s, 10) {
            lemma_half_words_size(s1, 4);
            if let Ok((_, s2)) = parse_items::<u16>(s1, 4) {
                lemma_words_size(s2, 4);
                if let Ok((_, s3)) = parse_items::<u32>(s2, 4) {
                    lemma_vertices_size(s3, (n - 1) as nat);
                }
            }
        }
    }
}

/// Loading does not skip the second preamble: of a saved cache it takes the magic bytes for the
/// number of vertices, and so, on a 64-bit machine, runs into the end of any file that is smaller
/// than that many vertices.
pub proof fn law_saved_cache_does_not_load(asset: AssetView, dependencies: Seq<DependencyView>)
    requires
        storable_list::<CacheDependency>(dependencies),
        CachedAsset::storable(asset),
        usize::MAX == u64::MAX,
        encode_cache(asset, dependencies).len() < 64 * 0x0045_4843_4143_4D4A,
    ensures
        parse_cache(encode_cache(asset, dependencies)) == Err::<AssetView, CacheError>(
            CacheError::UnexpectedEof,
        ),
{
    law_saved_cache_holds_the_model(asset, dependencies);
    let s = encode_preamble() + CachedAsset::encoding(asset);
    let rest = s.skip(8);
    let front = s.take(8);
    assert(front =~= magic());
    assert(le_value(front) == 0x0045_4843_4143_4D4A) by {
        reveal_with_fuel(le_value, 9);
        assert(front.drop_first().drop_first().drop_first().drop_first() =~= seq![
            0x43u8,
            0x48u8,
            0x45u8,
            0x00u8,
        ]);
    }
    let count = 0x0045_4843_4143_4D4Au64;
    assert(parse_u64(s) == Ok::<_, CacheError>((count, rest)));
    lemma_vertices_size(rest, count as nat);
    reveal(parse_list);
}

/// A cache starts with `JMCACHE`, a zero, and the version two in four bytes. Behind them stand the files
/// that it was made from, and then all that again in front of the model.
pub proof fn law_caches_are_laid_out(asset: AssetView, dependencies: Seq<DependencyView>)
    ensures
        encode_preamble() == seq![
            0x4Au8,
            0x4Du8,
            0x43u8,
            0x41u8,
            0x43u8,
            0x48u8,
            0x45u8,
            0u8,
            2u8,
            0u8,
            0u8,
            0u8,
        ],
        encode_cache(asset, dependencies) == encode_preamble() + encode_list::<CacheDependency>(
            dependencies,
        ) + encode_preamble() + CachedAsset::encoding(asset),
{
    reveal_with_fuel(le_bytes, 5);
    assert(encode_preamble() =~= seq![
        0x4Au8,
        0x4Du8,
        0x43u8,
        0x41u8,
        0x43u8,
        0x48u8,
        0x45u8,
        0u8,
        2u8,
        0u8,
        0u8,
        0u8,
    ]);
    assert(encode_cache(asset, dependencies) =~= encode_preamble() + encode_list::<CacheDependency>(
        dependencies,
    ) + encode_preamble() + CachedAsset::encoding(asset));
}

/// A model is written part by part: its vertices, its indices, the material numbers, the materials, the
/// skeleton behind a one or a zero where there is none, the animations and the textures.
pub proof fn law_models_are_laid_out(asset: AssetView)
    ensures
        CachedAsset::encoding(asset) == encode_list::<Vertex>(asset.vertices) + encode_list::<u32>(
            asset.indices,
        ) + encode_list::<u32>(asset.material_ids) + encode_list::<Material>(asset.materials) + (
        match asset.skeleton {
            Some(skeleton) => seq![1u8] + Skeleton::encoding(skeleton),
            None => seq![0u8],
        }) + encode_list::<AnimationClip>(asset.animations) + encode_list::<CachedTexture>(
            asset.textures,
        ),
{
    let a = encode_list::<Vertex>(asset.vertices);
    let b = encode_list::<u32>(asset.indices);
    let c = encode_list::<u32>(asset.material_ids);
    let d = encode_list::<Material>(asset.materials);
    let e = encode_skeleton(asset.skeleton);
    let f = encode_list::<AnimationClip>(asset.animations);
    let g = encode_list::<CachedTexture>(asset.textures);
    reveal_with_fuel(le_bytes, 2);
    assert(le_bytes(1, 1) =~= seq![1u8]);
    assert(le_bytes(0, 1) =~= seq![0u8]);
    lemma_join(a, b, c + (d + (e + (f + g))));
    lemma_join(a + b, c, d + (e + (f + g)));
    lemma_join(a + b + c, d, e + (f + g));
    lemma_join(a + b + c + d, e, f + g);
    lemma_join(a + b + c + d + e, f, g);
}

/// A model is read back, whatever follows it, but for the names of the bones.
pub proof fn law_models_lose_the_names_of_their_bones(asset: AssetView, tail: Seq<u8>)
    requires
        CachedAsset::storable(asset),
    ensures
        CachedAsset::parsing(CachedAsset::encoding(asset) + tail) is Ok,
        ({
            let (read, rest) = CachedAsset::parsing(CachedAsset::encoding(asset) + tail)->Ok_0;
            &&& rest == tail
            &&& read.vertices == asset.vertices
            &&& read.indices == asset.indices
            &&& read.material_ids == asset.material_ids
            &&& read.materials == asset.materials
            &&& read.textures == asset.textures
            &&& read.animations == asset.animations
            &&& read.skeleton is Some <==> asset.skeleton is Some
            &&& read.skeleton is Some ==> {
                let ours = read.skeleton->Some_0;
                let theirs = asset.skeleton->Some_0;
                &&& ours.root_bones == theirs.root_bones
                &&& ours.bones.len() == theirs.bones.len()
                &&& forall|i: int|
                    0 <= i < ours.bones.len() ==> {
                        &&& (#[trigger] ours.bones[i]).node_index == theirs.bones[i].node_index
                        &&& ours.bones[i].children == theirs.bones[i].children
                        &&& ours.bones[i].local_transform == theirs.bones[i].local_transform
                        &&& ours.bones[i].inverse_bind_matrix
                            == theirs.bones[i].inverse_bind_matrix
                    }
            }
        }),
{
    CachedAsset::reads_back(asset, tail);
}

/// A file in a header is written as its path, its size and its time in seconds and nanoseconds, and read
/// back, whatever follows it; a time before 1970 comes back as its start.
pub proof fn law_files_are_written_down(file: DependencyView, tail: Seq<u8>)
    requires
        encode_utf8(file.path).len() <= usize::MAX,
    ensures
        ({
            let (seconds, nanos) = match file.modified {
                FileTime::SinceEpoch { seconds, nanos } => (seconds, nanos),
                FileTime::BeforeEpoch => (0u64, 0u32),
            };
            &&& CacheDependency::encoding(file) == encode_bytes(encode_utf8(file.path)) + le_bytes(
                file.size as nat,
                8,
            ) + le_bytes(seconds as nat, 8) + le_bytes(nanos as nat, 4)
            &&& CacheDependency::parsing(CacheDependency::encoding(file) + tail) == Ok::<
                (DependencyView, Seq<u8>),
                CacheError,
            >(
                (
                    DependencyView {
                        path: file.path,
                        size: file.size,
                        modified: FileTime::SinceEpoch { seconds, nanos },
                    },
                    tail,
                ),
            )
        }),
{
    CacheDependency::reads_back(file, tail);
    let (seconds, nanos) = match file.modified {
        FileTime::SinceEpoch { seconds, nanos } => (seconds, nanos),
        FileTime::BeforeEpoch => (0u64, 0u32),
    };
    assert(CacheDependency::encoding(file) =~= encode_bytes(encode_utf8(file.path)) + le_bytes(
        file.size as nat,
        8,
    ) + le_bytes(seconds as nat, 8) + le_bytes(nanos as nat, 4));
}

/// A file is as it was only where it is there, its size is the same, and both times are known and the same
/// to the nanosecond.
pub proof fn law_files_are_as_they_were(file: DependencyView, found: Option<FileInfo>)
    ensures
        found is None ==> !unchanged(file, found),
        found matches Some(info) ==> {
            &&& info.size != file.size ==> !unchanged(file, found)
            &&& info.modified is BeforeEpoch || file.modified is BeforeEpoch ==> !unchanged(
                file,
                found,
            )
            &&& info.modified matches FileTime::SinceEpoch { seconds: s1, nanos: n1 } ==> (
            file.modified matches FileTime::SinceEpoch { seconds: s2, nanos: n2 } ==> (unchanged(
                file,
                found,
            ) <==> info.size == file.size && s1 * 1_000_000_000 + n1 == s2 * 1_000_000_000 + n2))
        },
{
}

/// A cache is current exactly where each of its files is as it was, each being looked up in its own place.
pub proof fn law_one_changed_file_is_enough(
    dependencies: Seq<DependencyView>,
    found: Seq<Option<FileInfo>>,
)
    ensures
        all_unchanged(dependencies, found) ==> forall|i: int|
            0 <= i < dependencies.len() ==> i < found.len() && unchanged(
                #[trigger] dependencies[i],
                found[i],
            ),
        !all_unchanged(dependencies, found) ==> found.len() < dependencies.len() || exists|i: int|
            0 <= i < dependencies.len() && !unchanged(#[trigger] dependencies[i], found[i]),
{
}

/// What starts with other bytes or another version is no cache, which is no error as one is looked for, but
/// is one as a model is loaded. What ends too early is an error for both.
pub proof fn law_other_files_are_no_caches(s: Seq<u8>)
    ensures
        s.len() < 8 ==> {
            &&& header_dependencies(s) == Err::<Option<Seq<DependencyView>>, CacheError>(
                CacheError::UnexpectedEof,
            )
            &&& parse_cache(s) == Err::<AssetView, CacheError>(CacheError::UnexpectedEof)
        },
        s.len() >= 8 && s.take(8) != seq![
            0x4Au8,
            0x4Du8,
            0x43u8,
            0x41u8,
            0x43u8,
            0x48u8,
            0x45u8,
            0u8,
        ] ==> {
            &&& header_dependencies(s) == Ok::<Option<Seq<DependencyView>>, CacheError>(None)
            &&& parse_cache(s) == Err::<AssetView, CacheError>(CacheError::InvalidMagic)
        },
        s.len() >= 12 && s.take(8) == seq![
            0x4Au8,
            0x4Du8,
            0x43u8,
            0x41u8,
            0x43u8,
            0x48u8,
            0x45u8,
            0u8,
        ] ==> {
            let version = s[8] + 0x100 * s[9] + 0x1_0000 * s[10] + 0x100_0000 * s[11];
            version != 2 ==> {
                &&& header_dependencies(s) == Ok::<Option<Seq<DependencyView>>, CacheError>(None)
                &&& parse_cache(s) == Err::<AssetView, CacheError>(
                    CacheError::UnsupportedVersion(version as u32),
                )
            }
        },
{
    crate::codec::law_numbers_are_read_from_their_bytes(s.skip(8));
}

/// In front of a skeleton stands a one, and a zero where there is none; anything else is refused.
pub proof fn law_skeletons_stand_behind_a_flag(s: Seq<u8>)
    ensures
        s.len() > 0 && s[0] == 0 ==> parse_skeleton(s) == Ok::<
            (Option<SkeletonView>, Seq<u8>),
            CacheError,
        >((None, s.skip(1))),
        s.len() > 0 && s[0] > 1 ==> parse_skeleton(s) == Err::<
            (Option<SkeletonView>, Seq<u8>),
            CacheError,
        >(CacheError::InvalidSkeletonFlag(s[0])),
        s.len() > 0 && s[0] == 1 ==> match Skeleton::parsing(s.skip(1)) {
            Ok((skeleton, rest)) => parse_skeleton(s) == Ok::<
                (Option<SkeletonView>, Seq<u8>),
                CacheError,
            >((Some(skeleton), rest)),
            Err(e) => parse_skeleton(s) == Err::<(Option<SkeletonView>, Seq<u8>), CacheError>(e),
        },
{
    crate::codec::law_numbers_are_read_from_their_bytes(s);
}

} // verus!
