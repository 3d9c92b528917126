//! What holds of a scene as models are added to it.

use crate::common::Material;
use crate::decimal::decimal;
use crate::math::Mat4;
use crate::player::PlayerView;
use crate::scene::{
    find_material, lemma_find_material, MaterialTable, ModelClass, ModelView, SceneView,
};
use vstd::prelude::*;

verus! {

impl MaterialTable {
    /// What is looked up is what the list holds, and no two materials of the list count as the
    /// same.
    pub open spec fn mirrored(self) -> bool {
        &&& self.map.len() == self.materials.len() <= u32::MAX
        &&& forall|i: int|
            0 <= i < self.map.len() ==> #[trigger] self.map[i] == (self.materials[i], i as u32)
        &&& forall|i: int, j: int|
            0 <= i < j < self.materials.len() ==> !(#[trigger] self.materials[i]).same_key(
                #[trigger] self.materials[j],
            )
    }
}

impl SceneView {
    /// What is looked up is what the list of materials holds, and no two materials of the scene
    /// count as the same.
    pub open spec fn mirrored(self) -> bool {
        MaterialTable {
            materials: self.materials,
            map: self.map,
            mapping: Seq::empty(),
        }.mirrored()
    }
}

/// Taking up a list keeps the materials that were there, keeps the table in order, and maps each
/// material to one that counts as the same.
proof fn lemma_with_all(table: MaterialTable, list: Seq<Material>)
    requires
        table.mirrored(),
        table.mapping.len() == 0,
        table.materials.len() + list.len() <= u32::MAX,
    ensures
        table.with_all(list).mirrored(),
        table.with_all(list).mapping.len() == list.len(),
        table.with_all(list).materials.len() <= table.materials.len() + list.len(),
        forall|i: int|
            0 <= i < list.len() ==> {
                &&& (#[trigger] table.with_all(list).mapping[i])
                    < table.with_all(list).materials.len()
                &&& table.with_all(list).materials[table.with_all(list).mapping[i] as int].same_key(
                    list[i],
                )
            },
    decreases list.len(),
{
    if list.len() > 0 {
        let front = list.drop_last();
        let material = list.last();
        let before = table.with_all(front);
        let after = table.with_all(list);
        lemma_with_all(table, front);
        lemma_find_material(before.map, material);
        assert(after == before.with(material));
        match find_material(before.map, material) {
            Some(id) => {
                let at = choose|i: int|
                    0 <= i < before.map.len() && (#[trigger] before.map[i]).0.same_key(material)
                        && before.map[i].1 == id;
                assert(before.map[at] == (before.materials[at], at as u32));
            },
            None => {
                assert forall|i: int, j: int| 0 <= i < j < after.materials.len() implies !(
                #[trigger] after.materials[i]).same_key(#[trigger] after.materials[j]) by {
                    assert(before.map[i] == (before.materials[i], i as u32));
                    if j == before.materials.len() {
                        assert(!before.map[i].0.same_key(material));
                    } else {
                        assert(!before.materials[i].same_key(before.materials[j]));
                    }
                }
                assert forall|i: int| 0 <= i < after.map.len() implies #[trigger] after.map[i] == (
                    after.materials[i],
                    i as u32,
                ) by {
                    if i < before.map.len() {
                        assert(before.map[i] == (before.materials[i], i as u32));
                    }
                }
            },
        }
        assert forall|i: int| 0 <= i < list.len() implies {
            &&& (#[trigger] after.mapping[i]) < after.materials.len()
            &&& after.materials[after.mapping[i] as int].same_key(list[i])
        } by {
            if i < front.len() {
                assert(after.mapping[i] == before.mapping[i]);
                assert(front[i] == list[i]);
            }
        }
    }
}

/// Taking up a list only ever puts materials behind those that are there.
proof fn lemma_with_all_extends(table: MaterialTable, list: Seq<Material>)
    ensures
        table.materials.is_prefix_of(table.with_all(list).materials),
    decreases list.len(),
{
    if list.len() > 0 {
        lemma_with_all_extends(table, list.drop_last());
    }
}

/// A new scene has its materials in order.
pub proof fn law_empty_scenes_are_mirrored()
    ensures
        SceneView::empty().mirrored(),
        SceneView::empty().laid_out(),
{
}

/// Adding a model keeps the materials in order: a material that counts as one of the scene's is
/// not put in again.
pub proof fn law_adding_keeps_materials_apart(
    scene: SceneView,
    model: ModelView,
    class: ModelClass,
    name: Option<Seq<char>>,
)
    requires
        scene.mirrored(),
        scene.has_room_for(model),
    ensures
        scene.with_model(model, class, name).mirrored(),
{
    lemma_with_all(
        MaterialTable { materials: scene.materials, map: scene.map, mapping: Seq::empty() },
        model.materials,
    );
}

/// Every triangle of a model that is added gets a material of the scene that counts as the same as
/// its own.
pub proof fn law_added_triangles_keep_their_materials(
    scene: SceneView,
    model: ModelView,
    class: ModelClass,
    name: Option<Seq<char>>,
    triangle: int,
)
    requires
        scene.mirrored(),
        scene.has_room_for(model),
        0 <= triangle < model.material_ids.len(),
    ensures
        ({
            let after = scene.with_model(model, class, name);
            let id = after.material_ids[scene.material_ids.len() + triangle];
            &&& id < after.materials.len()
            &&& after.materials[id as int].same_key(
                model.materials[model.material_ids[triangle] as int],
            )
        }),
{
    lemma_with_all(
        MaterialTable { materials: scene.materials, map: scene.map, mapping: Seq::empty() },
        model.materials,
    );
    let id = model.material_ids[triangle];
    assert(id < model.materials.len());
    assert(scene.merged(model).mapping[id as int] < scene.merged(model).materials.len());
}

/// Adding a model changes nothing of the models that are there: their vertices, indices, materials,
/// transforms, players and names stay where they are.
pub proof fn law_adding_keeps_what_is_there(
    scene: SceneView,
    model: ModelView,
    class: ModelClass,
    name: Option<Seq<char>>,
)
    ensures
        ({
            let after = scene.with_model(model, class, name);
            &&& scene.vertices.is_prefix_of(after.vertices)
            &&& scene.indices.is_prefix_of(after.indices)
            &&& scene.material_ids.is_prefix_of(after.material_ids)
            &&& scene.materials.is_prefix_of(after.materials)
            &&& scene.models.is_prefix_of(after.models)
            &&& scene.transforms.is_prefix_of(after.transforms)
            &&& scene.players.is_prefix_of(after.players)
            &&& scene.names.is_prefix_of(after.names)
        }),
{
    lemma_with_all_extends(
        MaterialTable { materials: scene.materials, map: scene.map, mapping: Seq::empty() },
        model.materials,
    );
    let after = scene.with_model(model, class, name);
    assert(after.names.take(scene.names.len() as int) =~= scene.names);
}

/// The names of a scene stay apart: a name that is there is not put in again.
pub proof fn law_names_stay_apart(
    scene: SceneView,
    model: ModelView,
    class: ModelClass,
    name: Option<Seq<char>>,
)
    requires
        scene.names.no_duplicates(),
    ensures
        scene.with_model(model, class, name).names.no_duplicates(),
{
}

/// The triangles of a model that is added are those of the model: each of its corners is the vertex
/// that it was.
pub proof fn law_added_triangles_keep_their_corners(
    scene: SceneView,
    model: ModelView,
    class: ModelClass,
    name: Option<Seq<char>>,
    corner: int,
)
    requires
        scene.has_room_for(model),
        0 <= corner < model.indices.len(),
        model.indices[corner] < model.vertices.len(),
    ensures
        ({
            let after = scene.with_model(model, class, name);
            after.vertices[after.indices[scene.indices.len() + corner] as int]
                == model.vertices[model.indices[corner] as int]
        }),
{
    assert(model.indices[corner] + scene.vertices.len() <= u32::MAX);
}

/// Once a model has been added, the materials of the same model are all found again: adding it a
/// second time adds no material.
pub proof fn law_adding_again_adds_no_material(
    scene: SceneView,
    model: ModelView,
    class: ModelClass,
    name: Option<Seq<char>>,
)
    requires
        scene.mirrored(),
        scene.has_room_for(model),
    ensures
        ({
            let once = scene.with_model(model, class, name);
            once.merged(model).materials == once.materials
        }),
{
    let start = MaterialTable {
        materials: scene.materials,
        map: scene.map,
        mapping: Seq::empty(),
    };
    lemma_with_all(start, model.materials);
    let once = scene.with_model(model, class, name);
    let table = MaterialTable { materials: once.materials, map: once.map, mapping: Seq::empty() };
    assert forall|i: int| 0 <= i < model.materials.len() implies find_material(
        table.map,
        #[trigger] model.materials[i],
    ) is Some by {
        let id = scene.merged(model).mapping[i];
        assert(table.map[id as int] == (table.materials[id as int], id));
        lemma_find_material(table.map, model.materials[i]);
    }
    lemma_all_found(table, model.materials);
}

/// A list whose materials are all found leaves the table's materials as they are.
proof fn lemma_all_found(table: MaterialTable, list: Seq<Material>)
    requires
        forall|i: int|
            0 <= i < list.len() ==> find_material(table.map, #[trigger] list[i]) is Some,
    ensures
        table.with_all(list).materials == table.materials,
        table.with_all(list).map == table.map,
    decreases list.len(),
{
    if list.len() > 0 {
        let front = list.drop_last();
        assert forall|i: int| 0 <= i < front.len() implies find_material(
            table.map,
            #[trigger] front[i],
        ) is Some by {
            assert(front[i] == list[i]);
        }
        lemma_all_found(table, front);
        assert(find_material(table.map, list[list.len() - 1]) is Some);
    }
}

/// Adding a model of whole triangles keeps every triangle of the scene whole.
pub proof fn law_adding_keeps_triangles_whole(
    scene: SceneView,
    model: ModelView,
    class: ModelClass,
    name: Option<Seq<char>>,
)
    requires
        scene.has_triangles(),
        scene.has_room_for(model),
        model.indices.len() == 3 * model.material_ids.len(),
    ensures
        scene.with_model(model, class, name).has_triangles(),
{
    let after = scene.with_model(model, class, name);
    assert forall|m: int| 0 <= m < after.models.len() implies (#[trigger]
    after.models[m]).indices.min as int % 3 == 0 && after.models[m].indices.max as int % 3 == 0 by {
        if m < scene.models.len() {
            assert(after.models[m] == scene.models[m]);
        }
    }
}

/// As long as lookups find what the list of materials holds, adding a model leaves every triangle
/// with a material that is there, so that the uses can be counted.
pub proof fn law_adding_keeps_materials_countable(
    scene: SceneView,
    model: ModelView,
    class: ModelClass,
    name: Option<Seq<char>>,
)
    requires
        scene.mirrored(),
        scene.has_room_for(model),
        scene.material_ids.len() + model.material_ids.len() <= u32::MAX,
        forall|i: int|
            0 <= i < scene.material_ids.len() ==> (#[trigger] scene.material_ids[i])
                < scene.materials.len(),
    ensures
        ({
            let after = scene.with_model(model, class, name);
            &&& after.countable()
            &&& forall|i: int|
                0 <= i < after.material_ids.len() ==> (#[trigger] after.material_ids[i])
                    < after.materials.len()
        }),
{
    let start = MaterialTable {
        materials: scene.materials,
        map: scene.map,
        mapping: Seq::empty(),
    };
    lemma_with_all(start, model.materials);
    lemma_with_all_extends(start, model.materials);
    let after = scene.with_model(model, class, name);
    assert forall|i: int| 0 <= i < after.material_ids.len() implies (#[trigger]
    after.material_ids[i]) < after.materials.len() by {
        if i < scene.material_ids.len() {
            assert(after.material_ids[i] == scene.material_ids[i]);
        } else {
            let id = model.material_ids[i - scene.material_ids.len()];
            assert(id < model.materials.len());
            assert(scene.merged(model).mapping[id as int] < after.materials.len());
        }
    }
}

/// What a model that is added becomes in the scene. Its vertices come behind those that are there, its
/// indices too, each moved by the number of vertices before them. It has the ranges that these take
/// up, the class that was asked for, the model's own skeleton, a transform that changes nothing and a
/// player for the model's own animations.
pub proof fn law_added_models_are_the_models(
    scene: SceneView,
    model: ModelView,
    class: ModelClass,
    name: Option<Seq<char>>,
)
    requires
        scene.has_room_for(model),
    ensures
        ({
            let after = scene.with_model(model, class, name);
            let info = after.models.last();
            &&& after.vertices.len() == scene.vertices.len() + model.vertices.len()
            &&& after.vertices.skip(scene.vertices.len() as int) == model.vertices
            &&& after.indices.len() == scene.indices.len() + model.indices.len()
            &&& forall|i: int|
                0 <= i < model.indices.len() ==> #[trigger] after.indices[scene.indices.len() + i]
                    == scene.vertices.len() + model.indices[i]
            &&& after.material_ids.len() == scene.material_ids.len() + model.material_ids.len()
            &&& after.models.len() == scene.models.len() + 1
            &&& info.vertices.min == scene.vertices.len()
            &&& info.vertices.max == after.vertices.len()
            &&& info.indices.min == scene.indices.len()
            &&& info.indices.max == after.indices.len()
            &&& info.class == class
            &&& info.skeleton == model.skeleton
            &&& after.transforms.len() == scene.transforms.len() + 1
            &&& after.transforms.last() == Mat4::spec_identity()
            &&& after.players.len() == scene.players.len() + 1
            &&& after.players.last() == PlayerView::fresh(model.animations)
        }),
{
    let after = scene.with_model(model, class, name);
    assert(after.vertices.skip(scene.vertices.len() as int) =~= model.vertices);
    assert forall|i: int| 0 <= i < model.indices.len() implies #[trigger] after.indices[
        scene.indices.len() + i
    ] == scene.vertices.len() + model.indices[i] by {
        assert(model.indices[i] + scene.vertices.len() <= u32::MAX);
    }
}

/// A model that is added is known under the name it was given, or else under its number in the scene,
/// counting from one; a name that is known already is not noted again.
pub proof fn law_added_models_are_named(
    scene: SceneView,
    model: ModelView,
    class: ModelClass,
    name: Option<Seq<char>>,
)
    ensures
        ({
            let after = scene.with_model(model, class, name);
            let known = match name {
                Some(name) => name,
                None => decimal(scene.models.len() + 1),
            };
            &&& after.names.contains(known)
            &&& scene.names.contains(known) ==> after.names == scene.names
            &&& !scene.names.contains(known) ==> after.names == scene.names + seq![known]
        }),
{
    let after = scene.with_model(model, class, name);
    let known = match name {
        Some(name) => name,
        None => decimal(scene.models.len() + 1),
    };
    if !scene.names.contains(known) {
        assert(after.names =~= scene.names + seq![known]);
        assert(after.names[scene.names.len() as int] == known);
    }
}

/// The materials that come in with a model are the model's own, unchanged; each that is new to the
/// scene is one of them.
pub proof fn law_new_materials_are_the_models(
    scene: SceneView,
    model: ModelView,
    class: ModelClass,
    name: Option<Seq<char>>,
    at: int,
)
    requires
        scene.materials.len() <= at,
        at < scene.with_model(model, class, name).materials.len(),
    ensures
        exists|k: int|
            0 <= k < model.materials.len() && scene.with_model(model, class, name).materials[at]
                == #[trigger] model.materials[k],
{
    let start = MaterialTable {
        materials: scene.materials,
        map: scene.map,
        mapping: Seq::empty(),
    };
    lemma_new_materials(start, model.materials, at);
}

proof fn lemma_new_materials(table: MaterialTable, list: Seq<Material>, at: int)
    requires
        table.materials.len() <= at < table.with_all(list).materials.len(),
    ensures
        exists|k: int|
            0 <= k < list.len() && table.with_all(list).materials[at] == #[trigger] list[k],
    decreases list.len(),
{
    if list.len() > 0 {
        let front = list.drop_last();
        let before = table.with_all(front);
        if at < before.materials.len() {
            lemma_new_materials(table, front, at);
            let k = choose|k: int|
                0 <= k < front.len() && before.materials[at] == #[trigger] front[k];
            assert(list[k] == front[k]);
        } else {
            assert(table.with_all(list).materials[at] == list[list.len() - 1]);
        }
    }
}

/// Two materials count as the same exactly where neither the colour nor its texture, the metalness or
/// the roughness tells them apart.
pub proof fn law_materials_are_told_apart(a: Material, b: Material)
    ensures
        !a.same_key(b) <==> {
            ||| a.albedo.x != b.albedo.x
            ||| a.albedo.y != b.albedo.y
            ||| a.albedo.z != b.albedo.z
            ||| a.albedo_texture_index != b.albedo_texture_index
            ||| a.metallic != b.metallic
            ||| a.roughness != b.roughness
        },
{
}

} // verus!
