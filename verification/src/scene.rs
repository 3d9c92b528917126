//! The scene: the models in it, side by side in shared lists of vertices, indices and materials.

use crate::cache::{skeleton_view, AssetView, CachedAsset};
use crate::common::{
    AnimationClip, Bone, BoneView, ClipView, Material, Skeleton, SkeletonView, Vertex,
};
use crate::decimal::{decimal, to_decimal};
use crate::math::Mat4;
use crate::player::{AnimationPlayer, PlayerView};
use crate::records::views;
use indexmap::IndexSet;
use vstd::prelude::*;

verus! {

/// `indexmap::IndexSet`: a set that keeps the order in which its items came.
#[verifier::external_type_specification]
#[verifier::external_body]
#[verifier::reject_recursive_types(T)]
#[verifier::reject_recursive_types(S)]
pub struct ExIndexSet<T, S>(indexmap::IndexSet<T, S>);

/// The names in the set, in the order in which they came.
pub uninterp spec fn names_in(set: IndexSet<String>) -> Seq<Seq<char>>;

/// `IndexSet::new`: a set without items.
#[verifier::external_body]
fn new_names() -> (out: IndexSet<String>)
    ensures
        names_in(out) == Seq::<Seq<char>>::empty(),
{
    IndexSet::new()
}

/// `IndexSet::insert`: a name that is not there yet is put behind the others, one that is there
/// changes nothing. Tells whether the name was put in.
#[verifier::external_body]
fn insert_name(set: &mut IndexSet<String>, name: String) -> (out: bool)
    ensures
        out == !names_in(*old(set)).contains(name@),
        names_in(*final(set)) == with_name(names_in(*old(set)), name@),
{
    set.insert(name)
}

/// The names with one more, unless it is among them.
pub open spec fn with_name(names: Seq<Seq<char>>, name: Seq<char>) -> Seq<Seq<char>> {
    if names.contains(name) {
        names
    } else {
        names.push(name)
    }
}

/// A stretch of a list: from `min` up to, but without, `max`.
#[derive(Clone, Copy, PartialEq, Eq, Structural, Debug)]
pub struct UintRange {
    pub min: u32,
    pub max: u32,
}

/// How often a model moves.
#[derive(Clone, Copy, PartialEq, Eq, Structural, Debug)]
pub enum ModelClass {
    Static,
    SemiDynamic,
    Dynamic,
}

/// Which vertices and indices belong to a model of the scene, and how it moves.
pub struct ModelInfo {
    pub model_vertex_range: UintRange,
    pub model_index_range: UintRange,
    pub skeleton: Option<Skeleton>,
    pub model_class: ModelClass,
}

pub struct ModelInfoView {
    pub vertices: UintRange,
    pub indices: UintRange,
    pub skeleton: Option<SkeletonView>,
    pub class: ModelClass,
}

impl View for ModelInfo {
    type V = ModelInfoView;

    open spec fn view(&self) -> ModelInfoView {
        ModelInfoView {
            vertices: self.model_vertex_range,
            indices: self.model_index_range,
            skeleton: skeleton_view(self.skeleton),
            class: self.model_class,
        }
    }
}

fn clone_skeleton(skeleton: &Option<Skeleton>) -> (out: Option<Skeleton>)
    ensures
        skeleton_view(out) == skeleton_view(*skeleton),
{
    match skeleton {
        Some(skeleton) => Some(skeleton.clone()),
        None => None,
    }
}

impl Clone for ModelInfo {
    fn clone(&self) -> (out: Self)
        ensures
            out@ == self@,
    {
        ModelInfo {
            model_vertex_range: self.model_vertex_range,
            model_index_range: self.model_index_range,
            skeleton: clone_skeleton(&self.skeleton),
            model_class: self.model_class,
        }
    }
}

/// A model that has been loaded and can be put into a scene any number of times.
pub struct Model {
    vertices: Vec<Vertex>,
    indices: Vec<u32>,
    material_ids: Vec<u32>,
    materials: Vec<Material>,
    skeleton: Option<Skeleton>,
    animations: Vec<AnimationClip>,
}

pub struct ModelView {
    pub vertices: Seq<Vertex>,
    pub indices: Seq<u32>,
    pub material_ids: Seq<u32>,
    pub materials: Seq<Material>,
    pub skeleton: Option<SkeletonView>,
    pub animations: Seq<ClipView>,
}

impl View for Model {
    type V = ModelView;

    closed spec fn view(&self) -> ModelView {
        ModelView {
            vertices: self.vertices@,
            indices: self.indices@,
            material_ids: self.material_ids@,
            materials: self.materials@,
            skeleton: skeleton_view(self.skeleton),
            animations: views(self.animations@),
        }
    }
}

/// A copy of a list.
fn copy_list<T: Copy>(list: &Vec<T>) -> (out: Vec<T>)
    ensures
        out@ == list@,
{
    vstd::slice::slice_to_vec(list.as_slice())
}

impl vstd::std_specs::convert::FromSpecImpl<&Model> for Model {
    open spec fn obeys_from_spec() -> bool {
        false
    }

    open spec fn from_spec(item: &Model) -> Model {
        *item
    }
}

impl From<&Model> for Model {
    /// A copy of a model.
    fn from(item: &Model) -> (out: Model)
        ensures
            out@ == item@,
    {
        let animations = item.animations.clone();
        proof {
            assert(views(animations@) =~= views(item.animations@));
        }
        Model {
            vertices: copy_list(&item.vertices),
            indices: copy_list(&item.indices),
            material_ids: copy_list(&item.material_ids),
            materials: copy_list(&item.materials),
            skeleton: clone_skeleton(&item.skeleton),
            animations,
        }
    }
}

/// The materials of a scene as they grow: the list, what is looked up in it, and where the
/// materials of the model that is being added have gone.
pub struct MaterialTable {
    pub materials: Seq<Material>,
    pub map: Seq<(Material, u32)>,
    pub mapping: Seq<u32>,
}

/// The number under which a material is looked up: that of the first entry that counts as the
/// same material.
pub open spec fn find_material(map: Seq<(Material, u32)>, material: Material) -> Option<u32>
    decreases map.len(),
{
    if map.len() == 0 {
        None
    } else if map[0].0.same_key(material) {
        Some(map[0].1)
    } else {
        find_material(map.drop_first(), material)
    }
}

impl MaterialTable {
    /// With one more material: one that is found is used again, any other is put behind the rest.
    pub open spec fn with(self, material: Material) -> MaterialTable {
        match find_material(self.map, material) {
            Some(id) => MaterialTable { mapping: self.mapping.push(id), ..self },
            None => {
                let id = self.materials.len() as u32;
                MaterialTable {
                    materials: self.materials.push(material),
                    map: self.map.push((material, id)),
                    mapping: self.mapping.push(id),
                }
            },
        }
    }

    /// With all materials of a list, one after the other.
    pub open spec fn with_all(self, list: Seq<Material>) -> MaterialTable
        decreases list.len(),
    {
        if list.len() == 0 {
            self
        } else {
            self.with_all(list.drop_last()).with(list.last())
        }
    }
}

/// What a lookup gives, in any list of entries.
pub proof fn lemma_find_material(map: Seq<(Material, u32)>, material: Material)
    ensures
        match find_material(map, material) {
            Some(id) => exists|i: int|
                0 <= i < map.len() && (#[trigger] map[i]).0.same_key(material) && map[i].1 == id,
            None => forall|i: int|
                0 <= i < map.len() ==> !(#[trigger] map[i]).0.same_key(material),
        },
    decreases map.len(),
{
    if map.len() > 0 && !map[0].0.same_key(material) {
        let rest = map.drop_first();
        lemma_find_material(rest, material);
        match find_material(rest, material) {
            Some(id) => {
                let i = choose|i: int|
                    0 <= i < rest.len() && (#[trigger] rest[i]).0.same_key(material) && rest[i].1
                        == id;
                assert(map[i + 1].0.same_key(material));
            },
            None => {
                assert forall|i: int| 0 <= i < map.len() implies !(#[trigger] map[i]).0.same_key(
                    material,
                ) by {
                    if i > 0 {
                        assert(map[i] == rest[i - 1]);
                    }
                }
            },
        }
    }
}

/// No two entries are for materials that count as the same.
pub open spec fn keys_apart(map: Seq<(Material, u32)>) -> bool {
    forall|i: int, j: int|
        0 <= i < j < map.len() ==> !(#[trigger] map[i]).0.same_key((#[trigger] map[j]).0)
}

/// Entries stay apart as a list of materials is taken up.
proof fn lemma_with_all_keys_apart(table: MaterialTable, list: Seq<Material>)
    requires
        keys_apart(table.map),
    ensures
        keys_apart(table.with_all(list).map),
    decreases list.len(),
{
    if list.len() > 0 {
        let before = table.with_all(list.drop_last());
        lemma_with_all_keys_apart(table, list.drop_last());
        lemma_find_material(before.map, list.last());
    }
}

/// Looks a material up.
fn lookup(map: &Vec<(Material, u32)>, material: &Material) -> (out: Option<u32>)
    ensures
        out == find_material(map@, *material),
{
    let mut i: usize = 0;
    proof {
        assert(map@.skip(0) =~= map@);
    }
    while i < map.len()
        invariant
            i <= map@.len(),
            find_material(map@.skip(i as int), *material) == find_material(map@, *material),
        decreases map@.len() - i,
    {
        proof {
            assert(map@.skip(i as int).drop_first() =~= map@.skip(i + 1));
        }
        if map[i].0 == *material {
            return Some(map[i].1);
        }
        i = i + 1;
    }
    None
}

/// The models of a scene and what they share.
pub struct Scene {
    pub vertices: Vec<Vertex>,
    pub indices: Vec<u32>,
    pub material_ids: Vec<u32>,
    pub materials: Vec<Material>,
    pub material_map: Vec<(Material, u32)>,
    pub model_info: Vec<ModelInfo>,
    pub transform_matrices: Vec<Mat4>,
    pub animations: Vec<AnimationPlayer>,
    pub model_names: IndexSet<String>,
}

pub struct SceneView {
    pub vertices: Seq<Vertex>,
    pub indices: Seq<u32>,
    pub material_ids: Seq<u32>,
    pub materials: Seq<Material>,
    pub map: Seq<(Material, u32)>,
    pub models: Seq<ModelInfoView>,
    pub transforms: Seq<Mat4>,
    pub players: Seq<PlayerView>,
    pub names: Seq<Seq<char>>,
}

impl View for Scene {
    type V = SceneView;

    open spec fn view(&self) -> SceneView {
        SceneView {
            vertices: self.vertices@,
            indices: self.indices@,
            material_ids: self.material_ids@,
            materials: self.materials@,
            map: self.material_map@,
            models: views(self.model_info@),
            transforms: self.transform_matrices@,
            players: views(self.animations@),
            names: names_in(self.model_names),
        }
    }
}

/// The ranges follow each other without gaps, from zero up to `total`.
pub open spec fn tiles(ranges: Seq<UintRange>, total: nat) -> bool {
    &&& ranges.len() == 0 ==> total == 0
    &&& ranges.len() > 0 ==> ranges[0].min == 0 && ranges.last().max == total
    &&& forall|i: int| 0 <= i < ranges.len() ==> (#[trigger] ranges[i]).min <= ranges[i].max
    &&& forall|i: int|
        0 <= i < ranges.len() - 1 ==> (#[trigger] ranges[i]).max == ranges[i + 1].min
}

/// The vertex ranges of models.
pub open spec fn vertex_ranges(models: Seq<ModelInfoView>) -> Seq<UintRange> {
    Seq::new(models.len(), |i: int| models[i].vertices)
}

/// The index ranges of models.
pub open spec fn index_ranges(models: Seq<ModelInfoView>) -> Seq<UintRange> {
    Seq::new(models.len(), |i: int| models[i].indices)
}

impl SceneView {
    /// The models lie side by side: their vertices and their indices follow each other in the
    /// order of the models, without gaps. Every model has a transform and a player.
    pub open spec fn laid_out(self) -> bool {
        &&& tiles(vertex_ranges(self.models), self.vertices.len())
        &&& tiles(index_ranges(self.models), self.indices.len())
        &&& self.transforms.len() == self.models.len()
        &&& self.players.len() >= self.models.len()
    }

    /// A scene without models.
    pub open spec fn empty() -> SceneView {
        SceneView {
            vertices: Seq::empty(),
            indices: Seq::empty(),
            material_ids: Seq::empty(),
            materials: Seq::empty(),
            map: Seq::empty(),
            models: Seq::empty(),
            transforms: Seq::empty(),
            players: Seq::empty(),
            names: Seq::empty(),
        }
    }

    /// Whether a model can be added: every number stays within 32 bits, and its triangles use
    /// materials that it has.
    pub open spec fn has_room_for(self, model: ModelView) -> bool {
        &&& self.vertices.len() + model.vertices.len() <= u32::MAX
        &&& self.indices.len() + model.indices.len() <= u32::MAX
        &&& self.materials.len() + model.materials.len() <= u32::MAX
        &&& forall|i: int|
            0 <= i < model.indices.len() ==> (#[trigger] model.indices[i]) + self.vertices.len()
                <= u32::MAX
        &&& forall|i: int|
            0 <= i < model.material_ids.len() ==> (#[trigger] model.material_ids[i])
                < model.materials.len()
    }

    /// The materials after those of a model have been added.
    pub open spec fn merged(self, model: ModelView) -> MaterialTable {
        MaterialTable {
            materials: self.materials,
            map: self.map,
            mapping: Seq::empty(),
        }.with_all(model.materials)
    }

    /// The scene with one more model. Its indices are moved behind the vertices that are there, and
    /// its materials are found among those that are there or put behind them. A model without a
    /// name is named after its number, counting from one.
    pub open spec fn with_model(
        self,
        model: ModelView,
        class: ModelClass,
        name: Option<Seq<char>>,
    ) -> SceneView {
        let table = self.merged(model);
        let vertex_base = self.vertices.len();
        let index_base = self.indices.len();
        SceneView {
            vertices: self.vertices + model.vertices,
            indices: self.indices + Seq::new(
                model.indices.len(),
                |i: int| (model.indices[i] + vertex_base) as u32,
            ),
            material_ids: self.material_ids + Seq::new(
                model.material_ids.len(),
                |i: int| table.mapping[model.material_ids[i] as int],
            ),
            materials: table.materials,
            map: table.map,
            models: self.models.push(
                ModelInfoView {
                    vertices: UintRange {
                        min: vertex_base as u32,
                        max: (vertex_base + model.vertices.len()) as u32,
                    },
                    indices: UintRange {
                        min: index_base as u32,
                        max: (index_base + model.indices.len()) as u32,
                    },
                    skeleton: model.skeleton,
                    class,
                },
            ),
            transforms: self.transforms.push(Mat4::spec_identity()),
            players: self.players.push(PlayerView::fresh(model.animations)),
            names: with_name(
                self.names,
                match name {
                    Some(name) => name,
                    None => decimal(self.models.len() + 1),
                },
            ),
        }
    }
}

/// A table that has taken up a list maps each of its materials to a number.
proof fn lemma_mapping_len(table: MaterialTable, list: Seq<Material>)
    ensures
        table.with_all(list).mapping.len() == table.mapping.len() + list.len(),
        table.with_all(list).materials.len() <= table.materials.len() + list.len(),
    decreases list.len(),
{
    if list.len() > 0 {
        lemma_mapping_len(table, list.drop_last());
    }
}

/// The view of a name that may be missing.
pub open spec fn name_view(name: Option<String>) -> Option<Seq<char>> {
    match name {
        Some(name) => Some(name@),
        None => None,
    }
}

/// Every player is in order.
pub open spec fn players_wf(players: Seq<AnimationPlayer>) -> bool {
    forall|i: int| 0 <= i < players.len() ==> (#[trigger] players[i]).wf()
}

impl Scene {
    /// The models lie side by side, their players are in order, and no material is looked up under
    /// two numbers.
    pub open spec fn wf(&self) -> bool {
        &&& self@.laid_out()
        &&& players_wf(self.animations@)
        &&& keys_apart(self@.map)
    }

    /// A scene without models.
    pub fn new() -> (out: Self)
        ensures
            out.wf(),
            out@ == SceneView::empty(),
    {
        let scene = Scene {
            vertices: Vec::new(),
            indices: Vec::new(),
            material_ids: Vec::new(),
            materials: Vec::new(),
            material_map: Vec::new(),
            model_info: Vec::new(),
            transform_matrices: Vec::new(),
            animations: Vec::new(),
            model_names: new_names(),
        };
        proof {
            assert(scene@.models =~= Seq::<ModelInfoView>::empty());
            assert(scene@.players =~= Seq::<PlayerView>::empty());
        }
        scene
    }

    /// Whether a model can be added.
    pub fn has_room_for(&self, model: &Model) -> (out: bool)
        ensures
            out == self@.has_room_for(model@),
    {
        let limit: usize = u32::MAX as usize;
        if self.vertices.len() > limit || model.vertices.len() > limit - self.vertices.len() {
            return false;
        }
        if self.indices.len() > limit || model.indices.len() > limit - self.indices.len() {
            return false;
        }
        if self.materials.len() > limit || model.materials.len() > limit - self.materials.len() {
            return false;
        }
        let highest: u32 = u32::MAX - self.vertices.len() as u32;
        let mut i: usize = 0;
        while i < model.indices.len()
            invariant
                i <= model.indices@.len(),
                self@.vertices.len() <= u32::MAX,
                highest == u32::MAX - self@.vertices.len(),
                forall|j: int|
                    0 <= j < i ==> (#[trigger] model@.indices[j]) + self@.vertices.len()
                        <= u32::MAX,
            decreases model.indices@.len() - i,
        {
            if model.indices[i] > highest {
                proof {
                    assert(model@.indices[i as int] + self@.vertices.len() > u32::MAX);
                }
                return false;
            }
            i = i + 1;
        }
        let mut i: usize = 0;
        while i < model.material_ids.len()
            invariant
                i <= model.material_ids@.len(),
                forall|j: int|
                    0 <= j < i ==> (#[trigger] model@.material_ids[j]) < model@.materials.len(),
            decreases model.material_ids@.len() - i,
        {
            if model.material_ids[i] as usize >= model.materials.len() {
                proof {
                    assert(model@.material_ids[i as int] >= model@.materials.len());
                }
                return false;
            }
            i = i + 1;
        }
        true
    }

    /// Takes up the materials of a model. Gives the number of each in the scene.
    fn merge_materials(&mut self, model: &Model) -> (mapping: Vec<u32>)
        requires
            old(self).materials@.len() + model@.materials.len() <= u32::MAX,
        ensures
            final(self)@ == (SceneView {
                materials: old(self)@.merged(model@).materials,
                map: old(self)@.merged(model@).map,
                ..old(self)@
            }),
            final(self).animations == old(self).animations,
            mapping@ == old(self)@.merged(model@).mapping,
    {
        let mut mapping: Vec<u32> = Vec::new();
        let ghost start = MaterialTable {
            materials: self@.materials,
            map: self@.map,
            mapping: Seq::empty(),
        };
        let ghost list = model@.materials;
        let mut i: usize = 0;
        proof {
            assert(list.take(0) =~= Seq::<Material>::empty());
        }
        while i < model.materials.len()
            invariant
                i <= model.materials@.len(),
                list == model.materials@,
                start.materials.len() + list.len() <= u32::MAX,
                ({
                    let table = start.with_all(list.take(i as int));
                    &&& mapping@ == table.mapping
                    &&& self@ == (SceneView {
                        materials: table.materials,
                        map: table.map,
                        ..old(self)@
                    })
                }),
                self.animations == old(self).animations,
            decreases model.materials@.len() - i,
        {
            proof {
                lemma_mapping_len(start, list.take(i as int));
                assert(list.take(i + 1).drop_last() =~= list.take(i as int));
                assert(list.take(i + 1).last() == list[i as int]);
            }
            let material = model.materials[i];
            let id: u32 = match lookup(&self.material_map, &material) {
                Some(id) => id,
                None => {
                    let id: u32 = self.materials.len() as u32;
                    self.materials.push(material);
                    self.material_map.push((material, id));
                    id
                },
            };
            mapping.push(id);
            i = i + 1;
        }
        proof {
            assert(list.take(i as int) =~= list);
        }
        mapping
    }

    /// The number that each material of a model would get in the scene, and how many materials
    /// there would be.
    fn material_mapping(&self, model: &Model) -> (out: (Vec<u32>, usize))
        requires
            self@.materials.len() + model@.materials.len() <= u32::MAX,
        ensures
            out.0@ == self@.merged(model@).mapping,
            out.1 == self@.merged(model@).materials.len(),
    {
        let mut trial = Scene::new();
        trial.materials = copy_list(&self.materials);
        trial.material_map = copy_list(&self.material_map);
        let mapping = trial.merge_materials(model);
        (mapping, trial.materials.len())
    }

    /// Whether every triangle would have a material that is there, and the uses of each material
    /// could be counted, if a model were added.
    #[verifier::rlimit(40)]
    pub fn stays_countable(&self, model: &Model) -> (out: bool)
        requires
            self@.has_room_for(model@),
        ensures
            forall|class: ModelClass, name: Option<Seq<char>>|
                out == (#[trigger] self@.with_model(model@, class, name)).countable(),
    {
        let ghost table = self@.merged(model@);
        let (mapping, total) = self.material_mapping(model);
        proof {
            lemma_mapping_len(
                MaterialTable {
                    materials: self@.materials,
                    map: self@.map,
                    mapping: Seq::empty(),
                },
                model@.materials,
            );
        }
        if total == 0 {
            return true;
        }
        let limit: usize = u32::MAX as usize;
        let known: usize = self.material_ids.len();
        let ghost after = self@.with_model(model@, ModelClass::Static, None);
        proof {
            assert(forall|class: ModelClass, name: Option<Seq<char>>|
                (#[trigger] self@.with_model(model@, class, name)).material_ids
                    == after.material_ids && self@.with_model(model@, class, name).materials
                    == after.materials);
        }
        if known > limit || model.material_ids.len() > limit - known {
            return false;
        }
        let mut i: usize = 0;
        while i < known
            invariant
                i <= known == self@.material_ids.len(),
                total == after.materials.len(),
                after.material_ids.len() == known + model@.material_ids.len(),
                forall|j: int|
                    0 <= j < known ==> #[trigger] after.material_ids[j] == self@.material_ids[j],
                forall|j: int| 0 <= j < i ==> (#[trigger] after.material_ids[j]) < total,
                total > 0,
                forall|class: ModelClass, name: Option<Seq<char>>|
                    (#[trigger] self@.with_model(model@, class, name)).material_ids
                        == after.material_ids && self@.with_model(model@, class, name).materials
                        == after.materials,
            decreases known - i,
        {
            if self.material_ids[i] as usize >= total {
                proof {
                    assert(after.material_ids[i as int] >= total);
                }
                return false;
            }
            i = i + 1;
        }
        let mut i: usize = 0;
        while i < model.material_ids.len()
            invariant
                i <= model@.material_ids.len(),
                known == self@.material_ids.len(),
                total == after.materials.len(),
                total > 0,
                mapping@ == table.mapping,
                mapping@.len() == model@.materials.len(),
                self@.has_room_for(model@),
                after.material_ids.len() == known + model@.material_ids.len() <= u32::MAX,
                forall|j: int|
                    0 <= j < model@.material_ids.len() ==> #[trigger] after.material_ids[known + j]
                        == table.mapping[model@.material_ids[j] as int],
                forall|j: int| 0 <= j < known + i ==> (#[trigger] after.material_ids[j]) < total,
                forall|class: ModelClass, name: Option<Seq<char>>|
                    (#[trigger] self@.with_model(model@, class, name)).material_ids
                        == after.material_ids && self@.with_model(model@, class, name).materials
                        == after.materials,
            decreases model@.material_ids.len() - i,
        {
            proof {
                assert(model@.material_ids[i as int] < model@.materials.len());
                assert(after.material_ids[known + i]
                    == table.mapping[model@.material_ids[i as int] as int]);
            }
            if mapping[model.material_ids[i] as usize] as usize >= total {
                return false;
            }
            i = i + 1;
        }
        true
    }

    /// Puts the vertices and the indices of a model behind those that are there.
    fn append_geometry(&mut self, model: &Model)
        requires
            old(self)@.has_room_for(model@),
        ensures
            ({
                let after = old(self)@.with_model(model@, ModelClass::Static, None);
                final(self)@ == (SceneView {
                    vertices: after.vertices,
                    indices: after.indices,
                    ..old(self)@
                })
            }),
            final(self).animations == old(self).animations,
    {
        let ghost base = self@.vertices.len();
        let vertex_offset: u32 = self.vertices.len() as u32;
        let mut copies = copy_list(&model.vertices);
        self.vertices.append(&mut copies);
        let ghost vertices = self@.vertices;
        let mut i: usize = 0;
        proof {
            assert(self@.indices =~= old(self)@.indices + Seq::new(
                0,
                |k: int| (model@.indices[k] + base) as u32,
            ));
        }
        while i < model.indices.len()
            invariant
                i <= model.indices@.len(),
                base == old(self)@.vertices.len(),
                vertex_offset == base,
                old(self)@.has_room_for(model@),
                self@ == (SceneView {
                    vertices,
                    indices: old(self)@.indices + Seq::new(
                        i as nat,
                        |k: int| (model@.indices[k] + base) as u32,
                    ),
                    ..old(self)@
                }),
                self.animations == old(self).animations,
            decreases model.indices@.len() - i,
        {
            proof {
                assert(model@.indices[i as int] + base <= u32::MAX);
            }
            self.indices.push(model.indices[i] + vertex_offset);
            proof {
                assert(self@.indices =~= old(self)@.indices + Seq::new(
                    (i + 1) as nat,
                    |k: int| (model@.indices[k] + base) as u32,
                ));
            }
            i = i + 1;
        }
    }

    /// Puts the material numbers of a model, as the scene counts them, behind those that are there.
    fn append_material_ids(&mut self, model: &Model, mapping: &Vec<u32>)
        requires
            mapping@.len() == model@.materials.len(),
            forall|i: int|
                0 <= i < model@.material_ids.len() ==> (#[trigger] model@.material_ids[i])
                    < model@.materials.len(),
        ensures
            final(self)@ == (SceneView {
                material_ids: old(self)@.material_ids + Seq::new(
                    model@.material_ids.len(),
                    |i: int| mapping@[model@.material_ids[i] as int],
                ),
                ..old(self)@
            }),
            final(self).animations == old(self).animations,
    {
        let mut i: usize = 0;
        proof {
            assert(self@.material_ids =~= old(self)@.material_ids + Seq::new(
                0,
                |k: int| mapping@[model@.material_ids[k] as int],
            ));
        }
        while i < model.material_ids.len()
            invariant
                i <= model.material_ids@.len(),
                mapping@.len() == model@.materials.len(),
                forall|k: int|
                    0 <= k < model@.material_ids.len() ==> (#[trigger] model@.material_ids[k])
                        < model@.materials.len(),
                self@ == (SceneView {
                    material_ids: old(self)@.material_ids + Seq::new(
                        i as nat,
                        |k: int| mapping@[model@.material_ids[k] as int],
                    ),
                    ..old(self)@
                }),
                self.animations == old(self).animations,
            decreases model.material_ids@.len() - i,
        {
            proof {
                assert(model@.material_ids[i as int] < model@.materials.len());
            }
            self.material_ids.push(mapping[model.material_ids[i] as usize]);
            proof {
                assert(self@.material_ids =~= old(self)@.material_ids + Seq::new(
                    (i + 1) as nat,
                    |k: int| mapping@[model@.material_ids[k] as int],
                ));
            }
            i = i + 1;
        }
    }

    /// Notes the ranges, the name, the transform and the player of a new model.
    fn append_entries(
        &mut self,
        model: &Model,
        info: ModelInfo,
        model_name: Option<String>,
    )
        requires
            players_wf(old(self).animations@),
        ensures
            final(self)@ == (SceneView {
                models: old(self)@.models.push(info@),
                transforms: old(self)@.transforms.push(Mat4::spec_identity()),
                players: old(self)@.players.push(PlayerView::fresh(model@.animations)),
                names: with_name(
                    old(self)@.names,
                    match name_view(model_name) {
                        Some(name) => name,
                        None => decimal(old(self)@.models.len() + 1),
                    },
                ),
                ..old(self)@
            }),
            players_wf(final(self).animations@),
    {
        let ghost added = info@;
        self.transform_matrices.push(Mat4::identity());
        self.model_info.push(info);
        proof {
            assert(self@.models =~= old(self)@.models.push(added));
        }
        let name = match model_name {
            Some(name) => name,
            None => to_decimal(self.model_info.len() as u64),
        };
        let _new = insert_name(&mut self.model_names, name);
        let animations = model.animations.clone();
        proof {
            assert(views(animations@) =~= views(model.animations@));
        }
        self.animations.push(AnimationPlayer::new(animations));
        proof {
            assert(self@.players =~= old(self)@.players.push(
                PlayerView::fresh(model@.animations),
            ));
        }
    }

    /// Puts a model into the scene.
    #[verifier::rlimit(40)]
    pub fn add_model_to_scene(
        &mut self,
        model: &Model,
        model_class: ModelClass,
        model_name: Option<String>,
    )
        requires
            old(self).wf(),
            old(self)@.has_room_for(model@),
        ensures
            final(self).wf(),
            final(self)@ == old(self)@.with_model(model@, model_class, name_view(model_name)),
    {
        proof {
            lemma_mapping_len(
                MaterialTable {
                    materials: self@.materials,
                    map: self@.map,
                    mapping: Seq::empty(),
                },
                model@.materials,
            );
            law_adding_keeps_models_side_by_side(self@, model@, model_class, name_view(model_name));
            lemma_with_all_keys_apart(
                MaterialTable {
                    materials: self@.materials,
                    map: self@.map,
                    mapping: Seq::empty(),
                },
                model@.materials,
            );
        }
        let vertex_offset: u32 = self.vertices.len() as u32;
        let index_offset: u32 = self.indices.len() as u32;
        self.append_geometry(model);
        let material_mapping = self.merge_materials(model);
        self.append_material_ids(model, &material_mapping);
        let info = ModelInfo {
            model_vertex_range: UintRange {
                min: vertex_offset,
                max: vertex_offset + model.vertices.len() as u32,
            },
            model_index_range: UintRange {
                min: index_offset,
                max: index_offset + model.indices.len() as u32,
            },
            skeleton: clone_skeleton(&model.skeleton),
            model_class,
        };
        self.append_entries(model, info, model_name);
    }
}

/// Models that lie side by side still do with one more behind them.
pub proof fn law_adding_keeps_models_side_by_side(
    scene: SceneView,
    model: ModelView,
    class: ModelClass,
    name: Option<Seq<char>>,
)
    requires
        scene.laid_out(),
        scene.has_room_for(model),
    ensures
        scene.with_model(model, class, name).laid_out(),
{
    let after = scene.with_model(model, class, name);
    lemma_tiles_push(vertex_ranges(scene.models), scene.vertices.len(), model.vertices.len());
    lemma_tiles_push(index_ranges(scene.models), scene.indices.len(), model.indices.len());
    assert(vertex_ranges(after.models) =~= vertex_ranges(scene.models).push(
        after.models.last().vertices,
    ));
    assert(index_ranges(after.models) =~= index_ranges(scene.models).push(
        after.models.last().indices,
    ));
}

impl ModelView {
    /// Whether the texture numbers of the materials can be moved by so much.
    pub open spec fn textures_fit(materials: Seq<Material>, texture_offset: i32) -> bool {
        forall|i: int|
            0 <= i < materials.len() && (#[trigger] materials[i]).albedo_texture_index >= 0 ==>
                materials[i].albedo_texture_index + texture_offset <= i32::MAX
    }

    /// A material whose texture, if it has one, is so many places further on.
    pub open spec fn moved_texture(material: Material, texture_offset: i32) -> Material {
        if material.albedo_texture_index >= 0 {
            Material {
                albedo_texture_index: (material.albedo_texture_index + texture_offset) as i32,
                ..material
            }
        } else {
            material
        }
    }

    /// The model that an asset becomes when the textures that are there end at `texture_offset`.
    pub open spec fn loaded(asset: AssetView, texture_offset: i32) -> ModelView {
        ModelView {
            vertices: asset.vertices,
            indices: asset.indices,
            material_ids: asset.material_ids,
            materials: Seq::new(
                asset.materials.len(),
                |i: int| Self::moved_texture(asset.materials[i], texture_offset),
            ),
            skeleton: match asset.skeleton {
                Some(skeleton) => Some(skeleton),
                None => Some(SkeletonView::single_bone()),
            },
            animations: asset.animations,
        }
    }
}

impl SkeletonView {
    /// One bone that changes nothing.
    pub open spec fn single_bone() -> SkeletonView {
        SkeletonView {
            bones: seq![
                BoneView {
                    node_index: 0,
                    name: Seq::empty(),
                    children: Seq::empty(),
                    local_transform: Mat4::spec_identity(),
                    inverse_bind_matrix: Mat4::spec_identity(),
                },
            ],
            root_bones: seq![0usize],
        }
    }
}

/// The skeleton of a model that has none of its own: one bone that changes nothing.
pub fn dummy_root_skeleton() -> (out: Skeleton)
    ensures
        out@ == SkeletonView::single_bone(),
{
    let bone = Bone {
        node_index: 0,
        name: String::new(),
        children: Vec::new(),
        local_transform: Mat4::identity(),
        inverse_bind_matrix: Mat4::identity(),
    };
    let mut bones: Vec<Bone> = Vec::new();
    bones.push(bone);
    let mut root_bones: Vec<usize> = Vec::new();
    root_bones.push(0);
    let skeleton = Skeleton { bones, root_bones };
    proof {
        let dummy = SkeletonView::single_bone();
        assert(skeleton@.bones[0].children =~= dummy.bones[0].children);
        assert(skeleton@.bones[0].name =~= dummy.bones[0].name);
        assert(skeleton@.bones =~= dummy.bones);
        assert(skeleton@.root_bones =~= dummy.root_bones);
    }
    skeleton
}

impl Scene {
    /// Turns an asset into a model. A model without a skeleton gets one of a single bone. The
    /// texture numbers of an asset count from its own first texture; they are moved by
    /// `texture_offset`, the number of textures that were there before.
    pub fn load_model_into_memory(asset: CachedAsset, texture_offset: i32) -> (out: Model)
        requires
            ModelView::textures_fit(asset@.materials, texture_offset),
        ensures
            out@ == ModelView::loaded(asset@, texture_offset),
    {
        let ghost given = asset@;
        let mut materials = asset.materials;
        let mut i: usize = 0;
        while i < materials.len()
            invariant
                i <= materials@.len() == given.materials.len(),
                ModelView::textures_fit(given.materials, texture_offset),
                forall|j: int|
                    0 <= j < i ==> #[trigger] materials@[j] == ModelView::moved_texture(
                        given.materials[j],
                        texture_offset,
                    ),
                forall|j: int|
                    i <= j < materials@.len() ==> #[trigger] materials@[j] == given.materials[j],
            decreases materials@.len() - i,
        {
            let mut material = materials[i];
            if material.albedo_texture_index >= 0 {
                proof {
                    assert(given.materials[i as int].albedo_texture_index + texture_offset
                        <= i32::MAX);
                }
                material.albedo_texture_index = material.albedo_texture_index + texture_offset;
            }
            materials.set(i, material);
            i = i + 1;
        }
        let skeleton = match asset.skeleton {
            Some(skeleton) => Some(skeleton),
            None => Some(dummy_root_skeleton()),
        };
        proof {
            assert(materials@ =~= ModelView::loaded(given, texture_offset).materials);
        }
        Model {
            vertices: asset.vertices,
            indices: asset.indices,
            material_ids: asset.material_ids,
            materials,
            skeleton,
            animations: asset.animations,
        }
    }

    /// Looks for a model by its name. No model is found under any name: models are told apart by
    /// their numbers alone.
    pub fn search_for_model_id(&self, model_name: String) -> (out: Option<usize>)
        ensures
            out is None,
    {
        None
    }

    /// Where a model stands.
    pub fn transform(&self, model_id: usize) -> (out: Mat4)
        requires
            model_id < self@.transforms.len(),
        ensures
            out == self@.transforms[model_id as int],
    {
        self.transform_matrices[model_id]
    }

    /// Puts a model somewhere.
    pub fn set_transform(&mut self, model_id: usize, transform: Mat4)
        requires
            old(self).wf(),
            model_id < old(self)@.transforms.len(),
        ensures
            final(self).wf(),
            final(self)@ == (SceneView {
                transforms: old(self)@.transforms.update(model_id as int, transform),
                ..old(self)@
            }),
    {
        self.transform_matrices.set(model_id, transform);
    }
}

/// A model that is loaded is its asset: it has the asset's vertices, indices, material numbers,
/// animations and, where the asset has one, skeleton. An asset without a skeleton gets one of a
/// single bone, at the root and without children, whose transforms change nothing. The materials are
/// the asset's but for the numbers of their textures, of which those that are there are moved by
/// `texture_offset`.
pub proof fn law_loaded_models_are_their_assets(asset: AssetView, texture_offset: i32)
    requires
        ModelView::textures_fit(asset.materials, texture_offset),
    ensures
        ({
            let model = ModelView::loaded(asset, texture_offset);
            &&& model.vertices == asset.vertices
            &&& model.indices == asset.indices
            &&& model.material_ids == asset.material_ids
            &&& model.animations == asset.animations
            &&& asset.skeleton is Some ==> model.skeleton == asset.skeleton
            &&& asset.skeleton is None ==> model.skeleton is Some && {
                let skeleton = model.skeleton->Some_0;
                &&& skeleton.bones.len() == 1
                &&& skeleton.bones[0].node_index == 0
                &&& skeleton.bones[0].name.len() == 0
                &&& skeleton.bones[0].children.len() == 0
                &&& skeleton.bones[0].local_transform == Mat4::spec_identity()
                &&& skeleton.bones[0].inverse_bind_matrix == Mat4::spec_identity()
                &&& skeleton.root_bones == seq![0usize]
            }
            &&& model.materials.len() == asset.materials.len()
            &&& forall|i: int|
                0 <= i < model.materials.len() ==> {
                    let before = asset.materials[i];
                    let after = #[trigger] model.materials[i];
                    &&& before.albedo_texture_index >= 0 ==> after.albedo_texture_index
                        == before.albedo_texture_index + texture_offset
                    &&& before.albedo_texture_index < 0 ==> after.albedo_texture_index
                        == before.albedo_texture_index
                    &&& after.albedo == before.albedo
                    &&& after.metallic == before.metallic
                    &&& after.roughness == before.roughness
                    &&& after.emission == before.emission
                    &&& after.transmission == before.transmission
                    &&& after.ior == before.ior
                    &&& after.specular == before.specular
                    &&& after.clearcoat == before.clearcoat
                    &&& after.clearcoat_roughness == before.clearcoat_roughness
                    &&& after.sheen == before.sheen
                    &&& after.sheen_color == before.sheen_color
                }
        }),
{
    assert(asset.skeleton is None ==> ModelView::loaded(
        asset,
        texture_offset,
    ).skeleton->Some_0.root_bones == seq![0usize]);
}

/// Ranges that follow each other still do with one more at the end.
proof fn lemma_tiles_push(ranges: Seq<UintRange>, total: nat, more: nat)
    requires
        tiles(ranges, total),
        total + more <= u32::MAX,
    ensures
        tiles(
            ranges.push(UintRange { min: total as u32, max: (total + more) as u32 }),
            total + more,
        ),
{
    let longer = ranges.push(UintRange { min: total as u32, max: (total + more) as u32 });
    assert forall|i: int| 0 <= i < longer.len() - 1 implies (#[trigger] longer[i]).max == longer[i
        + 1].min by {
        if i < ranges.len() - 1 {
            assert(ranges[i].max == ranges[i + 1].min);
        }
    }
}

/// There is room for a model exactly as long as all its vertices, indices and materials, and each corner of
/// its triangles, can be numbered behind those of the scene, and its triangles use materials of its own.
pub proof fn law_there_is_room_while_numbers_last(scene: SceneView, model: ModelView)
    ensures
        scene.has_room_for(model) <==> {
            &&& scene.vertices.len() + model.vertices.len() < 0x1_0000_0000
            &&& scene.indices.len() + model.indices.len() < 0x1_0000_0000
            &&& scene.materials.len() + model.materials.len() < 0x1_0000_0000
            &&& forall|i: int|
                0 <= i < model.indices.len() ==> scene.vertices.len() + (
                #[trigger] model.indices[i]) < 0x1_0000_0000
            &&& forall|i: int|
                0 <= i < model.material_ids.len() ==> (#[trigger] model.material_ids[i])
                    < model.materials.len()
        },
{
}

/// Textures can be moved exactly as long as the number of each that is there stays one.
pub proof fn law_textures_move_while_numbers_last(materials: Seq<Material>, texture_offset: i32)
    ensures
        !ModelView::textures_fit(materials, texture_offset) <==> exists|i: int|
            0 <= i < materials.len() && (#[trigger] materials[i]).albedo_texture_index >= 0
                && materials[i].albedo_texture_index + texture_offset > 0x7FFF_FFFF,
{
}

/// Ranges that follow each other without gaps: each starts where the one before it ends, the first at zero,
/// and the last ends with the list.
pub proof fn law_models_lie_side_by_side(scene: SceneView, i: int)
    requires
        scene.laid_out(),
        0 <= i < scene.models.len(),
    ensures
        scene.models[i].vertices.min <= scene.models[i].vertices.max,
        scene.models[i].indices.min <= scene.models[i].indices.max,
        i == 0 ==> scene.models[i].vertices.min == 0 && scene.models[i].indices.min == 0,
        i > 0 ==> scene.models[i].vertices.min == scene.models[i - 1].vertices.max
            && scene.models[i].indices.min == scene.models[i - 1].indices.max,
        i == scene.models.len() - 1 ==> scene.models[i].vertices.max == scene.vertices.len()
            && scene.models[i].indices.max == scene.indices.len(),
        scene.transforms.len() == scene.models.len(),
        scene.players.len() >= scene.models.len(),
{
    let vertices = vertex_ranges(scene.models);
    let indices = index_ranges(scene.models);
    assert(vertices[i].min <= vertices[i].max);
    assert(indices[i].min <= indices[i].max);
    if i > 0 {
        assert(vertices[i - 1].max == vertices[i - 1 + 1].min);
        assert(indices[i - 1].max == indices[i - 1 + 1].min);
    }
}

} // verus!
