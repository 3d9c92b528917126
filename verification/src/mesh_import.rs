//! Putting the meshes and materials of a file together.

use crate::codec::{i32_from_bits, i32_of_bits};
use crate::common::{Material, Vertex};
use crate::math::{F32Bits, Vec2, Vec3, F32_ONE, F32_ONE_AND_HALF, F32_ZERO};
use vstd::prelude::*;
use vstd::string::StringExecFns;

verus! {

/// Why a file cannot be taken in.
#[derive(Clone, Copy, PartialEq, Eq, Structural, Debug)]
pub enum ImportError {
    MissingPositions,
}

impl ImportError {
    /// The error in words.
    pub fn message(&self) -> (out: String)
        ensures
            out@ == "Primitive missing POSITION attribute"@,
    {
        String::from_str("Primitive missing POSITION attribute")
    }
}

/// A part of a mesh as the file has it. What the file leaves out is `None`; normals are those of
/// the file, or else have been computed.
pub struct PrimitiveData {
    /// Whether the part is made of triangles.
    pub triangles: bool,
    pub positions: Option<Vec<Vec3>>,
    pub normals: Vec<Vec3>,
    pub uvs: Option<Vec<Vec2>>,
    pub joints: Option<Vec<[u16; 4]>>,
    pub weights: Option<Vec<[F32Bits; 4]>>,
    pub indices: Option<Vec<u32>>,
    pub material: Option<usize>,
}

/// The meshes of a file put together.
pub struct MeshData {
    pub vertices: Vec<Vertex>,
    pub indices: Vec<u32>,
    pub material_ids: Vec<u32>,
}

pub struct MeshView {
    pub vertices: Seq<Vertex>,
    pub indices: Seq<u32>,
    pub material_ids: Seq<u32>,
}

impl View for MeshData {
    type V = MeshView;

    open spec fn view(&self) -> MeshView {
        MeshView {
            vertices: self.vertices@,
            indices: self.indices@,
            material_ids: self.material_ids@,
        }
    }
}

/// The smaller of two lengths.
pub open spec fn shorter(a: nat, b: nat) -> nat {
    if a <= b {
        a
    } else {
        b
    }
}

/// The length of a list, or another length where there is no list.
pub open spec fn len_or<T>(list: Option<Vec<T>>, other: nat) -> nat {
    match list {
        Some(list) => list@.len(),
        None => other,
    }
}

impl PrimitiveData {
    /// The number of positions.
    pub open spec fn position_count(&self) -> nat {
        self.positions->Some_0@.len()
    }

    /// The number of vertices: as many as all lists have entries for.
    pub open spec fn vertex_count(&self) -> nat {
        let n = self.position_count();
        shorter(
            shorter(
                shorter(shorter(n, self.normals@.len()), len_or(self.uvs, n)),
                len_or(self.joints, n),
            ),
            len_or(self.weights, n),
        )
    }

    /// A vertex of the part. Without joints it hangs on the first one, and without weights that one
    /// has all the weight.
    pub open spec fn vertex(&self, i: int) -> Vertex {
        Vertex {
            pos: self.positions->Some_0@[i],
            _pad0: F32_ZERO,
            normal: self.normals@[i],
            _pad1: F32_ZERO,
            uv: match self.uvs {
                Some(uvs) => uvs@[i],
                None => Vec2 { x: F32_ZERO, y: F32_ZERO },
            },
            joint_indices: match self.joints {
                Some(joints) => joints@[i],
                None => [0u16, 0u16, 0u16, 0u16],
            },
            joint_weights: match self.weights {
                Some(weights) => weights@[i],
                None => [F32_ONE, F32_ZERO, F32_ZERO, F32_ZERO],
            },
        }
    }

    /// The indices of the part: those of the file, or else all positions one after the other.
    pub open spec fn own_indices(&self) -> Seq<u32> {
        match self.indices {
            Some(indices) => indices@,
            None => Seq::new(self.position_count(), |i: int| i as u32),
        }
    }

    /// The number of the part's material; without one it is that of the first.
    pub open spec fn material_number(&self) -> u32 {
        match self.material {
            Some(index) => (index as int % 0x1_0000_0000) as u32,
            None => 0,
        }
    }

    /// Whether the part can be put behind so many vertices: all numbers stay within 32 bits.
    pub open spec fn fits_behind(&self, vertices: nat) -> bool {
        self.triangles && self.positions is Some ==> {
            &&& vertices <= u32::MAX
            &&& self.indices is None ==> self.position_count() <= u32::MAX
            &&& forall|i: int|
                0 <= i < self.own_indices().len() ==> (#[trigger] self.own_indices()[i]) + vertices
                    <= u32::MAX
        }
    }
}

impl MeshView {
    /// With one more part. A part that is not made of triangles is passed over; one without
    /// positions is an error.
    pub open spec fn with(self, part: PrimitiveData) -> Result<MeshView, ImportError> {
        if !part.triangles {
            Ok(self)
        } else if part.positions is None {
            Err(ImportError::MissingPositions)
        } else {
            let base = self.vertices.len();
            let own = part.own_indices();
            Ok(
                MeshView {
                    vertices: self.vertices + Seq::new(
                        part.vertex_count(),
                        |i: int| part.vertex(i),
                    ),
                    indices: self.indices + Seq::new(own.len(), |i: int| (own[i] + base) as u32),
                    material_ids: self.material_ids + Seq::new(
                        own.len() / 3,
                        |i: int| part.material_number(),
                    ),
                },
            )
        }
    }
}

/// The first `n` parts put together.
pub open spec fn put_together(parts: Seq<PrimitiveData>, n: int) -> Result<MeshView, ImportError>
    decreases n,
{
    if n <= 0 {
        Ok(
            MeshView {
                vertices: Seq::empty(),
                indices: Seq::empty(),
                material_ids: Seq::empty(),
            },
        )
    } else {
        match put_together(parts, n - 1) {
            Err(e) => Err(e),
            Ok(mesh) => mesh.with(parts[n - 1]),
        }
    }
}

/// Every part can be put behind those before it.
pub open spec fn parts_fit(parts: Seq<PrimitiveData>) -> bool {
    forall|i: int|
        0 <= i < parts.len() ==> (put_together(parts, i) matches Ok(mesh) ==> (
        #[trigger] parts[i]).fits_behind(mesh.vertices.len()))
}

impl PrimitiveData {
    /// A vertex of the part.
    fn make_vertex(&self, positions: &Vec<Vec3>, i: usize) -> (out: Vertex)
        requires
            self.positions == Some(*positions),
            i < self.vertex_count(),
        ensures
            out == self.vertex(i as int),
    {
        let uv = match &self.uvs {
            Some(uvs) => Some(uvs[i]),
            None => None,
        };
        let joints: [u16; 4] = match &self.joints {
            Some(joints) => joints[i],
            None => [0u16, 0u16, 0u16, 0u16],
        };
        let weights: [F32Bits; 4] = match &self.weights {
            Some(weights) => weights[i],
            None => [F32_ONE, F32_ZERO, F32_ZERO, F32_ZERO],
        };
        let vertex = Vertex::new(positions[i], self.normals[i], uv, Some(joints), Some(weights));
        proof {
            assert(vertex.joint_indices =~= self.vertex(i as int).joint_indices);
            assert(vertex.joint_weights =~= self.vertex(i as int).joint_weights);
        }
        vertex
    }

    /// The number of vertices.
    fn count_vertices(&self, positions: &Vec<Vec3>) -> (out: usize)
        requires
            self.positions == Some(*positions),
        ensures
            out == self.vertex_count(),
    {
        let n: usize = positions.len();
        let mut count: usize = n;
        if self.normals.len() < count {
            count = self.normals.len();
        }
        if let Some(uvs) = &self.uvs {
            if uvs.len() < count {
                count = uvs.len();
            }
        }
        if let Some(joints) = &self.joints {
            if joints.len() < count {
                count = joints.len();
            }
        }
        if let Some(weights) = &self.weights {
            if weights.len() < count {
                count = weights.len();
            }
        }
        count
    }

    /// The indices from which missing normals are computed: those of the part, or else all positions
    /// one after the other.
    pub fn raw_indices(&self) -> (out: Vec<u32>)
        requires
            self.positions is Some,
            self.indices is None ==> self.position_count() <= u32::MAX,
        ensures
            out@ == self.own_indices(),
    {
        match &self.indices {
            Some(indices) => vstd::slice::slice_to_vec(indices.as_slice()),
            None => {
                let mut list: Vec<u32> = Vec::new();
                let count: usize = match &self.positions {
                    Some(positions) => positions.len(),
                    None => 0,
                };
                let mut i: usize = 0;
                while i < count
                    invariant
                        i <= count <= u32::MAX,
                        list@ == Seq::new(i as nat, |k: int| k as u32),
                    decreases count - i,
                {
                    list.push(i as u32);
                    proof {
                        assert(list@ =~= Seq::new((i + 1) as nat, |k: int| k as u32));
                    }
                    i = i + 1;
                }
                list
            },
        }
    }

    /// Whether the part can be put behind so many vertices.
    pub fn check_fit(&self, vertices: usize) -> (out: bool)
        ensures
            out == self.fits_behind(vertices as nat),
    {
        if !self.triangles {
            return true;
        }
        let positions = match &self.positions {
            Some(positions) => positions,
            None => return true,
        };
        let limit: usize = u32::MAX as usize;
        if vertices > limit || (self.indices.is_none() && positions.len() > limit) {
            return false;
        }
        let own = self.raw_indices();
        let highest: u32 = u32::MAX - vertices as u32;
        let mut i: usize = 0;
        while i < own.len()
            invariant
                i <= own@.len(),
                own@ == self.own_indices(),
                vertices <= u32::MAX,
                highest == u32::MAX - vertices,
                self.triangles,
                self.positions is Some,
                forall|k: int|
                    0 <= k < i ==> (#[trigger] self.own_indices()[k]) + vertices <= u32::MAX,
            decreases own@.len() - i,
        {
            if own[i] > highest {
                proof {
                    assert(self.own_indices()[i as int] + vertices > u32::MAX);
                }
                return false;
            }
            i = i + 1;
        }
        true
    }
}

impl MeshData {
    /// Nothing yet.
    pub fn new() -> (out: Self)
        ensures
            Ok::<MeshView, ImportError>(out@) == put_together(Seq::empty(), 0),
    {
        MeshData { vertices: Vec::new(), indices: Vec::new(), material_ids: Vec::new() }
    }

    /// Puts a part behind what is there.
    #[verifier::rlimit(40)]
    pub fn push_primitive(&mut self, part: &PrimitiveData) -> (out: Result<(), ImportError>)
        requires
            part.fits_behind(old(self)@.vertices.len()),
        ensures
            match old(self)@.with(*part) {
                Ok(mesh) => out is Ok && final(self)@ == mesh,
                Err(e) => out == Err::<(), ImportError>(e) && final(self)@ == old(self)@,
            },
    {
        if !part.triangles {
            return Ok(());
        }
        let positions = match &part.positions {
            Some(positions) => positions,
            None => return Err(ImportError::MissingPositions),
        };
        let ghost after = self@.with(*part)->Ok_0;
        let ghost base = self@.vertices.len();
        let vertex_offset: u32 = self.vertices.len() as u32;
        let count: usize = part.count_vertices(positions);
        let mut i: usize = 0;
        proof {
            assert(self@.vertices =~= old(self)@.vertices + Seq::new(
                0,
                |k: int| part.vertex(k),
            ));
        }
        while i < count
            invariant
                i <= count == part.vertex_count(),
                part.positions == Some(*positions),
                self@ == (MeshView {
                    vertices: old(self)@.vertices + Seq::new(i as nat, |k: int| part.vertex(k)),
                    ..old(self)@
                }),
            decreases count - i,
        {
            self.vertices.push(part.make_vertex(positions, i));
            proof {
                assert(self@.vertices =~= old(self)@.vertices + Seq::new(
                    (i + 1) as nat,
                    |k: int| part.vertex(k),
                ));
            }
            i = i + 1;
        }
        let own = part.raw_indices();
        let mut i: usize = 0;
        proof {
            assert(self@.indices =~= old(self)@.indices + Seq::new(
                0,
                |k: int| (own@[k] + base) as u32,
            ));
        }
        while i < own.len()
            invariant
                i <= own@.len(),
                own@ == part.own_indices(),
                vertex_offset == base,
                forall|k: int|
                    0 <= k < own@.len() ==> (#[trigger] part.own_indices()[k]) + base <= u32::MAX,
                self@ == (MeshView {
                    vertices: after.vertices,
                    indices: old(self)@.indices + Seq::new(
                        i as nat,
                        |k: int| (own@[k] + base) as u32,
                    ),
                    ..old(self)@
                }),
            decreases own@.len() - i,
        {
            proof {
                assert(part.own_indices()[i as int] + base <= u32::MAX);
            }
            self.indices.push(own[i] + vertex_offset);
            proof {
                assert(self@.indices =~= old(self)@.indices + Seq::new(
                    (i + 1) as nat,
                    |k: int| (own@[k] + base) as u32,
                ));
            }
            i = i + 1;
        }
        proof {
            assert(self@.indices =~= after.indices);
        }
        let material: u32 = match part.material {
            Some(index) => (index as u64 % 0x1_0000_0000) as u32,
            None => 0,
        };
        let triangles: usize = own.len() / 3;
        let mut i: usize = 0;
        proof {
            assert(self@.material_ids =~= old(self)@.material_ids + Seq::new(
                0,
                |k: int| part.material_number(),
            ));
        }
        while i < triangles
            invariant
                i <= triangles == own@.len() / 3,
                material == part.material_number(),
                self@ == (MeshView {
                    vertices: after.vertices,
                    indices: after.indices,
                    material_ids: old(self)@.material_ids + Seq::new(
                        i as nat,
                        |k: int| part.material_number(),
                    ),
                }),
            decreases triangles - i,
        {
            self.material_ids.push(material);
            proof {
                assert(self@.material_ids =~= old(self)@.material_ids + Seq::new(
                    (i + 1) as nat,
                    |k: int| part.material_number(),
                ));
            }
            i = i + 1;
        }
        proof {
            assert(self@.material_ids =~= after.material_ids);
        }
        Ok(())
    }
}

/// Whether every part can be put behind those before it.
pub fn check_parts(parts: &[PrimitiveData]) -> (out: bool)
    ensures
        out == parts_fit(parts@),
{
    let mut vertices: u128 = 0;
    let mut i: usize = 0;
    while i < parts.len()
        invariant
            i <= parts@.len(),
            put_together(parts@, i as int) matches Ok(mesh) && mesh.vertices.len() == vertices,
            vertices <= u32::MAX + usize::MAX,
            forall|k: int|
                0 <= k < i ==> (put_together(parts@, k) matches Ok(mesh) ==> (
                #[trigger] parts@[k]).fits_behind(mesh.vertices.len())),
        decreases parts@.len() - i,
    {
        let part = &parts[i];
        if part.triangles {
            let positions = match &part.positions {
                Some(positions) => positions,
                None => {
                    proof {
                        assert forall|k: int| i < k < parts@.len() implies put_together(
                            parts@,
                            k,
                        ) is Err by {
                            lemma_error_stays(parts@, i + 1, k);
                        }
                    }
                    return true;
                },
            };
            if vertices > u32::MAX as u128 || !part.check_fit(vertices as usize) {
                proof {
                    assert(!parts@[i as int].fits_behind(vertices as nat));
                }
                return false;
            }
            vertices = vertices + part.count_vertices(positions) as u128;
        }
        i = i + 1;
    }
    true
}

/// Puts the parts of all meshes of a file together.
pub fn load_gltf(parts: &[PrimitiveData]) -> (out: Result<MeshData, ImportError>)
    requires
        parts_fit(parts@),
    ensures
        match put_together(parts@, parts@.len() as int) {
            Ok(mesh) => out is Ok && out->Ok_0@ == mesh,
            Err(e) => out == Err::<MeshData, ImportError>(e),
        },
        out is Err <==> exists|k: int|
            0 <= k < parts@.len() && (#[trigger] parts@[k]).triangles && parts@[k].positions is None,
        out matches Ok(mesh) ==> forall|k: int|
            0 <= k < parts@.len() && (#[trigger] parts@[k]).triangles ==> stands_at(
                mesh@.vertices,
                vertices_before(parts@, k),
                parts@[k],
            ),
{
    let mut mesh = MeshData::new();
    let mut i: usize = 0;
    while i < parts.len()
        invariant
            i <= parts@.len(),
            parts_fit(parts@),
            put_together(parts@, i as int) == Ok::<MeshView, ImportError>(mesh@),
        decreases parts@.len() - i,
    {
        proof {
            assert(parts@[i as int].fits_behind(mesh@.vertices.len()));
        }
        match mesh.push_primitive(&parts[i]) {
            Ok(_) => {},
            Err(e) => {
                proof {
                    lemma_error_stays(parts@, i + 1, parts@.len() as int);
                    law_meshes_hold_their_parts(parts@, parts@.len() as int);
                }
                return Err(e);
            },
        }
        i = i + 1;
    }
    proof {
        law_meshes_hold_their_parts(parts@, parts@.len() as int);
        assert forall|k: int| 0 <= k < parts@.len() && (
        #[trigger] parts@[k]).triangles implies stands_at(
            mesh@.vertices,
            vertices_before(parts@, k),
            parts@[k],
        ) by {
            lemma_part_stands(parts@, k, parts@.len() as int);
        }
    }
    Ok(mesh)
}

/// An error among the first parts is the error of all.
proof fn lemma_error_stays(parts: Seq<PrimitiveData>, n: int, total: int)
    requires
        0 <= n <= total <= parts.len(),
        put_together(parts, n) is Err,
    ensures
        put_together(parts, total) == put_together(parts, n),
    decreases total - n,
{
    if n < total {
        lemma_error_stays(parts, n + 1, total);
    }
}

/// Where every part has whole triangles and indices of its own vertices, the same holds of all of
/// them together: each triangle has a material number, and each index is that of a vertex.
pub proof fn law_meshes_fit_together(parts: Seq<PrimitiveData>, n: int)
    requires
        0 <= n <= parts.len(),
        parts_fit(parts),
        forall|k: int|
            0 <= k < parts.len() && (#[trigger] parts[k]).triangles && parts[k].positions is Some
                ==> parts[k].own_indices().len() % 3 == 0 && forall|i: int|
                0 <= i < parts[k].own_indices().len() ==> (#[trigger] parts[k].own_indices()[i])
                    < parts[k].vertex_count(),
    ensures
        put_together(parts, n) matches Ok(mesh) ==> {
            &&& mesh.indices.len() == 3 * mesh.material_ids.len()
            &&& forall|i: int|
                0 <= i < mesh.indices.len() ==> (#[trigger] mesh.indices[i])
                    < mesh.vertices.len()
        },
    decreases n,
{
    if n > 0 {
        law_meshes_fit_together(parts, n - 1);
        if let Ok(before) = put_together(parts, n - 1) {
            let part = parts[n - 1];
            if let Ok(mesh) = put_together(parts, n) {
                if part.triangles {
                    let own = part.own_indices();
                    assert(own.len() % 3 == 0);
                    assert forall|i: int| 0 <= i < mesh.indices.len() implies (#[trigger]
                    mesh.indices[i]) < mesh.vertices.len() by {
                        if i < before.indices.len() {
                            assert(mesh.indices[i] == before.indices[i]);
                        } else {
                            let k = i - before.indices.len();
                            assert(part.own_indices()[k] < part.vertex_count());
                            assert(part.own_indices()[k] + before.vertices.len() <= u32::MAX);
                        }
                    }
                }
            }
        }
    }
}

/// A material as the file has it. The emission is already multiplied by its strength.
#[derive(Clone, Copy, Debug)]
pub struct MaterialData {
    pub base_color: Vec3,
    pub base_color_texture: Option<usize>,
    pub metallic: F32Bits,
    pub roughness: F32Bits,
    pub emission: Vec3,
    pub transmission: Option<F32Bits>,
    pub ior: Option<F32Bits>,
    pub specular: Option<F32Bits>,
    /// How strong a clear coat is, and how rough.
    pub clearcoat: Option<(F32Bits, F32Bits)>,
    pub sheen_color: Option<Vec3>,
}

/// A value, or a default where there is none.
pub open spec fn or<T>(value: Option<T>, default: T) -> T {
    match value {
        Some(value) => value,
        None => default,
    }
}

impl MaterialData {
    /// The material with defaults for what the file leaves out: no texture, no transmission, an index
    /// of refraction of one and a half, full specular reflection, no clear coat and no sheen.
    pub open spec fn converted(self) -> Material {
        Material {
            albedo: self.base_color,
            albedo_texture_index: match self.base_color_texture {
                Some(index) => i32_of_bits((index as int % 0x1_0000_0000) as u32),
                None => -1i32,
            },
            metallic: self.metallic,
            roughness: self.roughness,
            emission: self.emission,
            transmission: or(self.transmission, F32_ZERO),
            ior: or(self.ior, F32_ONE_AND_HALF),
            specular: or(self.specular, F32_ONE),
            clearcoat: match self.clearcoat {
                Some((strength, _)) => strength,
                None => F32_ZERO,
            },
            clearcoat_roughness: match self.clearcoat {
                Some((_, roughness)) => roughness,
                None => F32_ZERO,
            },
            sheen: if self.sheen_color is Some {
                F32_ONE
            } else {
                F32_ZERO
            },
            sheen_color: or(
                self.sheen_color,
                Vec3 { x: F32_ZERO, y: F32_ZERO, z: F32_ZERO },
            ),
        }
    }

    /// The material with defaults for what the file leaves out.
    pub fn convert(&self) -> (out: Material)
        ensures
            out == self.converted(),
    {
        let albedo_texture_index: i32 = match self.base_color_texture {
            Some(index) => i32_from_bits((index as u64 % 0x1_0000_0000) as u32),
            None => -1,
        };
        let (clearcoat, clearcoat_roughness) = match self.clearcoat {
            Some((strength, roughness)) => (strength, roughness),
            None => (F32_ZERO, F32_ZERO),
        };
        let (sheen_color, sheen) = match self.sheen_color {
            Some(color) => (color, F32_ONE),
            None => (Vec3::new(F32_ZERO, F32_ZERO, F32_ZERO), F32_ZERO),
        };
        Material {
            albedo: self.base_color,
            albedo_texture_index,
            metallic: self.metallic,
            roughness: self.roughness,
            emission: self.emission,
            transmission: match self.transmission {
                Some(value) => value,
                None => F32_ZERO,
            },
            ior: match self.ior {
                Some(value) => value,
                None => F32_ONE_AND_HALF,
            },
            specular: match self.specular {
                Some(value) => value,
                None => F32_ONE,
            },
            clearcoat,
            clearcoat_roughness,
            sheen,
            sheen_color,
        }
    }
}

/// Converts all materials of a file.
pub fn convert_materials(list: &[MaterialData]) -> (out: Vec<Material>)
    ensures
        out@ == Seq::new(list@.len(), |i: int| list@[i].converted()),
{
    let mut out: Vec<Material> = Vec::new();
    let mut i: usize = 0;
    while i < list.len()
        invariant
            i <= list@.len(),
            out@ == Seq::new(i as nat, |k: int| list@[k].converted()),
        decreases list@.len() - i,
    {
        out.push(list[i].convert());
        proof {
            assert(out@ =~= Seq::new((i + 1) as nat, |k: int| list@[k].converted()));
        }
        i = i + 1;
    }
    out
}

/// A vertex has what the lists of a part hold at its place, number for number. Without texture
/// coordinates, joints or weights they are zero, but for the first weight, which is one.
pub open spec fn taken_from(vertex: Vertex, part: PrimitiveData, i: int) -> bool {
    &&& part.positions matches Some(positions) && vertex.pos == positions@[i]
    &&& vertex.normal == part.normals@[i]
    &&& part.uvs matches Some(uvs) ==> vertex.uv.x == uvs@[i].x && vertex.uv.y == uvs@[i].y
    &&& part.uvs is None ==> vertex.uv.x == 0 && vertex.uv.y == 0
    &&& part.joints matches Some(joints) ==> vertex.joint_indices == joints@[i]
    &&& part.joints is None ==> forall|k: int|
        0 <= k < 4 ==> #[trigger] vertex.joint_indices@[k] == 0
    &&& part.weights matches Some(weights) ==> vertex.joint_weights == weights@[i]
    &&& part.weights is None ==> vertex.joint_weights@[0] == 0x3F80_0000 && forall|k: int|
        0 < k < 4 ==> #[trigger] vertex.joint_weights@[k] == 0
    &&& vertex._pad0 == 0
    &&& vertex._pad1 == 0
}

/// A number of vertices is the length of the shortest list of a part.
pub open spec fn is_shortest(part: PrimitiveData, count: nat) -> bool {
    let positions = part.positions->Some_0@.len();
    &&& count <= positions
    &&& count <= part.normals@.len()
    &&& part.uvs matches Some(uvs) ==> count <= uvs@.len()
    &&& part.joints matches Some(joints) ==> count <= joints@.len()
    &&& part.weights matches Some(weights) ==> count <= weights@.len()
    &&& {
        ||| count == positions
        ||| count == part.normals@.len()
        ||| part.uvs matches Some(uvs) && count == uvs@.len()
        ||| part.joints matches Some(joints) && count == joints@.len()
        ||| part.weights matches Some(weights) && count == weights@.len()
    }
}

/// `after` is `before` with a part behind it: its vertices, its indices, moved by the number of
/// vertices that were there, and the number of its material for each of its triangles. Without
/// indices of its own a part has one for each position, in their order.
pub open spec fn put_behind(before: MeshView, part: PrimitiveData, after: MeshView) -> bool {
    let base = before.vertices.len();
    let first = before.indices.len();
    let count = after.vertices.len() - base;
    let corners = after.indices.len() - first;
    let faces = after.material_ids.len() - before.material_ids.len();
    &&& before.vertices.is_prefix_of(after.vertices)
    &&& before.indices.is_prefix_of(after.indices)
    &&& before.material_ids.is_prefix_of(after.material_ids)
    &&& is_shortest(part, count as nat)
    &&& forall|i: int|
        0 <= i < count ==> taken_from(#[trigger] after.vertices[base + i], part, i)
    &&& part.indices matches Some(indices) ==> corners == indices@.len() && forall|i: int|
        0 <= i < corners ==> #[trigger] after.indices[first + i] == base + indices@[i]
    &&& part.indices is None ==> corners == part.positions->Some_0@.len() && forall|i: int|
        0 <= i < corners ==> #[trigger] after.indices[first + i] == base + i
    &&& 3 * faces <= corners < 3 * faces + 3
    &&& forall|i: int|
        0 <= i < faces ==> #[trigger] after.material_ids[before.material_ids.len() + i] == match (
        part.material) {
            Some(index) => index as int % 0x1_0000_0000,
            None => 0,
        }
}

/// A part of triangles is put behind what is there, any other is passed over, and one of triangles
/// without positions is refused.
pub proof fn law_parts_are_put_behind(mesh: MeshView, part: PrimitiveData)
    requires
        part.fits_behind(mesh.vertices.len()),
    ensures
        match mesh.with(part) {
            Ok(after) => if part.triangles {
                part.positions is Some && put_behind(mesh, part, after)
            } else {
                after == mesh
            },
            Err(e) => part.triangles && part.positions is None && e
                == ImportError::MissingPositions,
        },
{
    if let Ok(after) = mesh.with(part) {
        if part.triangles {
            let base = mesh.vertices.len();
            let first = mesh.indices.len();
            assert(after.vertices.take(base as int) =~= mesh.vertices);
            assert(after.indices.take(first as int) =~= mesh.indices);
            assert(after.material_ids.take(mesh.material_ids.len() as int) =~= mesh.material_ids);
            assert forall|i: int| 0 <= i < part.vertex_count() implies taken_from(
                #[trigger] after.vertices[base + i],
                part,
                i,
            ) by {
                assert(after.vertices[base + i] == part.vertex(i));
                let vertex = part.vertex(i);
                if part.joints is None {
                    assert(vertex.joint_indices@ =~= seq![0u16, 0u16, 0u16, 0u16]);
                }
                if part.weights is None {
                    assert(vertex.joint_weights@ =~= seq![0x3F80_0000u32, 0u32, 0u32, 0u32]);
                }
            }
            let own = part.own_indices();
            assert forall|i: int| 0 <= i < own.len() implies #[trigger] after.indices[first + i]
                == base + own[i] by {
                assert(part.own_indices()[i] + base <= u32::MAX);
            }
        }
    }
}

/// The mesh of a file holds every part of triangles, each behind those before it. It cannot be put
/// together exactly where a part of triangles has no positions.
pub proof fn law_meshes_hold_their_parts(parts: Seq<PrimitiveData>, n: int)
    requires
        0 <= n <= parts.len(),
        parts_fit(parts),
    ensures
        put_together(parts, 0) matches Ok(mesh) && mesh.vertices.len() == 0 && mesh.indices.len()
            == 0 && mesh.material_ids.len() == 0,
        put_together(parts, n) is Err <==> exists|k: int|
            0 <= k < n && (#[trigger] parts[k]).triangles && parts[k].positions is None,
        put_together(parts, n) matches Ok(mesh) ==> forall|k: int|
            #![trigger put_together(parts, k)]
            0 <= k < n ==> {
                &&& put_together(parts, k) is Ok
                &&& put_together(parts, k + 1) is Ok
                &&& if parts[k].triangles {
                    put_behind(
                        put_together(parts, k)->Ok_0,
                        parts[k],
                        put_together(parts, k + 1)->Ok_0,
                    )
                } else {
                    put_together(parts, k + 1) == put_together(parts, k)
                }
                &&& put_together(parts, k)->Ok_0.vertices.is_prefix_of(mesh.vertices)
                &&& put_together(parts, k)->Ok_0.indices.is_prefix_of(mesh.indices)
                &&& put_together(parts, k)->Ok_0.material_ids.is_prefix_of(mesh.material_ids)
            },
    decreases n,
{
    if n > 0 {
        law_meshes_hold_their_parts(parts, n - 1);
        if let Ok(before) = put_together(parts, n - 1) {
            assert(parts[n - 1].fits_behind(before.vertices.len()));
            law_parts_are_put_behind(before, parts[n - 1]);
            if let Ok(mesh) = put_together(parts, n) {
                assert(before.vertices.is_prefix_of(mesh.vertices));
                assert(before.indices.is_prefix_of(mesh.indices));
                assert(before.material_ids.is_prefix_of(mesh.material_ids));
                assert forall|k: int|
                    #![trigger put_together(parts, k)]
                    0 <= k < n - 1 implies {
                    &&& put_together(parts, k)->Ok_0.vertices.is_prefix_of(mesh.vertices)
                    &&& put_together(parts, k)->Ok_0.indices.is_prefix_of(mesh.indices)
                    &&& put_together(parts, k)->Ok_0.material_ids.is_prefix_of(mesh.material_ids)
                } by {
                    let early = put_together(parts, k)->Ok_0;
                    lemma_prefix_of_prefix(early.vertices, before.vertices, mesh.vertices);
                    lemma_prefix_of_prefix(early.indices, before.indices, mesh.indices);
                    lemma_prefix_of_prefix(
                        early.material_ids,
                        before.material_ids,
                        mesh.material_ids,
                    );
                }
            } else {
                assert(parts[n - 1].triangles && parts[n - 1].positions is None);
            }
        }
    }
}

proof fn lemma_prefix_of_prefix<T>(a: Seq<T>, b: Seq<T>, c: Seq<T>)
    requires
        a.is_prefix_of(b),
        b.is_prefix_of(c),
    ensures
        a.is_prefix_of(c),
{
    assert(c.take(a.len() as int) =~= b.take(a.len() as int));
}

/// A material keeps what the file says of it. What the file leaves out is: no texture, no
/// transmission, an index of refraction of one and a half, full specular reflection, no clear coat
/// and no sheen. A sheen that is there counts in full.
pub proof fn law_materials_keep_what_is_said(data: MaterialData)
    ensures
        ({
            let material = data.converted();
            &&& material.albedo == data.base_color
            &&& material.metallic == data.metallic
            &&& material.roughness == data.roughness
            &&& material.emission == data.emission
            &&& data.base_color_texture matches Some(index) ==> (index <= i32::MAX
                ==> material.albedo_texture_index == index)
            &&& data.base_color_texture matches Some(index) ==> (material.albedo_texture_index
                - index) % 0x1_0000_0000 == 0
            &&& data.base_color_texture is None ==> material.albedo_texture_index == -1
            &&& data.transmission matches Some(value) ==> material.transmission == value
            &&& data.transmission is None ==> material.transmission == 0
            &&& data.ior matches Some(value) ==> material.ior == value
            &&& data.ior is None ==> material.ior == 0x3FC0_0000
            &&& data.specular matches Some(value) ==> material.specular == value
            &&& data.specular is None ==> material.specular == 0x3F80_0000
            &&& data.clearcoat matches Some(coat) ==> material.clearcoat == coat.0
                && material.clearcoat_roughness == coat.1
            &&& data.clearcoat is None ==> material.clearcoat == 0 && material.clearcoat_roughness
                == 0
            &&& data.sheen_color matches Some(color) ==> material.sheen_color == color
                && material.sheen == 0x3F80_0000
            &&& data.sheen_color is None ==> material.sheen == 0 && material.sheen_color.x == 0
                && material.sheen_color.y == 0 && material.sheen_color.z == 0
        }),
{
}

/// How many vertices the parts before one have.
pub open spec fn vertices_before(parts: Seq<PrimitiveData>, k: int) -> int
    decreases k,
{
    if k <= 0 {
        0
    } else {
        vertices_before(parts, k - 1) + if parts[k - 1].triangles {
            parts[k - 1].vertex_count() as int
        } else {
            0
        }
    }
}

/// The vertices of a part stand one behind the other from a place on, as many as its shortest list has
/// entries, each with what the lists hold at its place.
pub open spec fn stands_at(vertices: Seq<Vertex>, base: int, part: PrimitiveData) -> bool {
    &&& part.positions is Some
    &&& is_shortest(part, part.vertex_count())
    &&& 0 <= base
    &&& base + part.vertex_count() <= vertices.len()
    &&& forall|i: int|
        0 <= i < part.vertex_count() ==> taken_from(#[trigger] vertices[base + i], part, i)
}

proof fn lemma_vertices_before(parts: Seq<PrimitiveData>, k: int)
    requires
        0 <= k <= parts.len(),
        put_together(parts, k) is Ok,
    ensures
        put_together(parts, k)->Ok_0.vertices.len() == vertices_before(parts, k),
    decreases k,
{
    if k > 0 {
        lemma_vertices_before(parts, k - 1);
    }
}

proof fn lemma_part_is_put(mesh: MeshView, part: PrimitiveData)
    requires
        part.fits_behind(mesh.vertices.len()),
        mesh.with(part) is Ok,
    ensures
        mesh.vertices.is_prefix_of(mesh.with(part)->Ok_0.vertices),
        part.triangles ==> stands_at(
            mesh.with(part)->Ok_0.vertices,
            mesh.vertices.len() as int,
            part,
        ),
{
    law_parts_are_put_behind(mesh, part);
}

/// A part stands in the mesh behind the vertices of those before it.
proof fn lemma_part_stands(parts: Seq<PrimitiveData>, k: int, n: int)
    requires
        0 <= k < n <= parts.len(),
        parts_fit(parts),
        put_together(parts, n) is Ok,
        parts[k].triangles,
    ensures
        stands_at(put_together(parts, n)->Ok_0.vertices, vertices_before(parts, k), parts[k]),
    decreases n,
{
    let before = put_together(parts, n - 1)->Ok_0;
    let after = put_together(parts, n)->Ok_0;
    assert(parts[n - 1].fits_behind(before.vertices.len()));
    lemma_part_is_put(before, parts[n - 1]);
    if k == n - 1 {
        lemma_vertices_before(parts, k);
    } else {
        lemma_part_stands(parts, k, n - 1);
        let part = parts[k];
        let base = vertices_before(parts, k);
        assert forall|i: int| 0 <= i < part.vertex_count() implies taken_from(
            #[trigger] after.vertices[base + i],
            part,
            i,
        ) by {
            assert(after.vertices[base + i] == before.vertices[base + i]);
        }
    }
}

/// A part can be put behind vertices exactly where each of its corners can be numbered after them.
pub proof fn law_parts_fit_while_numbers_do(part: PrimitiveData, vertices: nat)
    ensures
        !part.triangles || part.positions is None ==> part.fits_behind(vertices),
        part.triangles && part.positions is Some ==> (part.fits_behind(vertices) <==> {
            &&& vertices <= u32::MAX
            &&& part.indices matches Some(indices) ==> forall|i: int|
                0 <= i < indices@.len() ==> (#[trigger] indices@[i]) + vertices <= u32::MAX
            &&& part.indices is None && part.positions->Some_0@.len() > 0 ==> {
                &&& part.positions->Some_0@.len() <= u32::MAX
                &&& part.positions->Some_0@.len() - 1 + vertices <= u32::MAX
            }
        }),
{
    let own = part.own_indices();
    if part.triangles && part.positions is Some && part.indices is None && part.fits_behind(
        vertices,
    ) && part.position_count() > 0 {
        assert(own[part.position_count() - 1] + vertices <= u32::MAX);
    }
}

} // verus!
