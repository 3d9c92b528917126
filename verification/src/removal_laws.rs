//! What holds of a scene as models are taken out of it.

use crate::ops::{uses, Counted, OpView};
use crate::removal::{
    cut, decremented, keep_used, lemma_shifted_range, lemma_tiles_ordered, lemma_tiles_within,
    law_removing_keeps_models_side_by_side, renumbered, shifted_index, unused, unused_before,
};
use crate::scene::{index_ranges, vertex_ranges, ModelClass, ModelView, SceneView};
use vstd::prelude::*;

verus! {

/// The number of a model after another one has been taken out.
pub open spec fn number_after(model: int, removed: int) -> int {
    if model < removed {
        model
    } else {
        model - 1
    }
}

impl SceneView {
    /// The vertices of a model.
    pub open spec fn model_vertices(self, model: int) -> Seq<crate::common::Vertex> {
        let range = self.models[model].vertices;
        self.vertices.subrange(range.min as int, range.max as int)
    }

    /// Every index of a model is one of its own vertices.
    pub open spec fn owns_indices(self, model: int) -> bool {
        let range = self.models[model].indices;
        forall|i: int|
            range.min <= i < range.max ==> self.models[model].vertices.min <= (
            #[trigger] self.indices[i]) < self.models[model].vertices.max
    }

    /// The indices of a model, counted from its own first vertex.
    pub open spec fn local_indices(self, model: int) -> Seq<int> {
        let range = self.models[model].indices;
        Seq::new(
            (range.max - range.min) as nat,
            |i: int| self.indices[range.min + i] - self.models[model].vertices.min,
        )
    }
}

/// Taking a model out changes nothing of another one but where it lies: it has the same vertices,
/// the same indices counted from its own first vertex, the same class, skeleton and transform.
#[verifier::rlimit(80)]
#[verifier::spinoff_prover]
pub proof fn law_removing_keeps_the_other_models(scene: SceneView, removed: int, other: int)
    requires
        scene.laid_out(),
        0 <= removed < scene.models.len(),
        0 <= other < scene.models.len(),
        other != removed,
        scene.owns_indices(other),
    ensures
        ({
            let after = scene.without_model(removed);
            let number = number_after(other, removed);
            &&& 0 <= number < after.models.len()
            &&& after.model_vertices(number) == scene.model_vertices(other)
            &&& after.local_indices(number) == scene.local_indices(other)
            &&& after.owns_indices(number)
            &&& after.models[number].class == scene.models[other].class
            &&& after.models[number].skeleton == scene.models[other].skeleton
            &&& after.transforms[number] == scene.transforms[other]
        }),
{
    let after = scene.without_model(removed);
    let number = number_after(other, removed);
    let vertices = vertex_ranges(scene.models);
    let indices = index_ranges(scene.models);
    let gone = scene.models[removed];
    let vert_span = gone.vertices.max - gone.vertices.min;
    lemma_tiles_within(vertices, scene.vertices.len(), removed);
    lemma_tiles_within(indices, scene.indices.len(), removed);
    lemma_tiles_within(vertices, scene.vertices.len(), other);
    lemma_tiles_within(indices, scene.indices.len(), other);
    lemma_shifted_range(vertices, scene.vertices.len(), removed, other);
    lemma_shifted_range(indices, scene.indices.len(), removed, other);
    if other < removed {
        lemma_tiles_ordered(vertices, scene.vertices.len(), other, removed);
        lemma_tiles_ordered(indices, scene.indices.len(), other, removed);
    }
    let was = scene.models[other];
    let is = after.models[number];
    let kept = cut(scene.indices, gone.indices.min as int, gone.indices.max as int);
    assert(after.model_vertices(number) =~= scene.model_vertices(other));
    assert forall|i: int| is.indices.min <= i < is.indices.max implies is.vertices.min <= (
    #[trigger] after.indices[i]) < is.vertices.max && after.indices[i] - is.vertices.min
        == scene.indices[i - is.indices.min + was.indices.min] - was.vertices.min by {
        let at = i - is.indices.min + was.indices.min;
        assert(kept[i] == scene.indices[at]);
        assert(was.vertices.min <= scene.indices[at] < was.vertices.max);
        assert(after.indices[i] == shifted_index(kept[i], gone.vertices));
    }
    assert(after.local_indices(number) =~= scene.local_indices(other));
}

/// Taking out the model that was added last gives back the vertices, indices, material numbers,
/// models and transforms from before.
#[verifier::rlimit(40)]
pub proof fn law_removing_undoes_adding(
    scene: SceneView,
    model: ModelView,
    class: ModelClass,
    name: Option<Seq<char>>,
)
    requires
        scene.laid_out(),
        scene.has_room_for(model),
        scene.has_triangles(),
        model.indices.len() == 3 * model.material_ids.len(),
        forall|i: int|
            0 <= i < scene.indices.len() ==> (#[trigger] scene.indices[i]) < scene.vertices.len(),
    ensures
        ({
            let back = scene.with_model(model, class, name).without_model(
                scene.models.len() as int,
            );
            &&& back.vertices == scene.vertices
            &&& back.indices == scene.indices
            &&& back.material_ids == scene.material_ids
            &&& back.models == scene.models
            &&& back.transforms == scene.transforms
        }),
{
    let added = scene.with_model(model, class, name);
    let last = scene.models.len() as int;
    let back = added.without_model(last);
    assert(back.vertices =~= scene.vertices);
    let gone = added.models[last];
    let kept = cut(added.indices, gone.indices.min as int, gone.indices.max as int);
    assert(kept =~= scene.indices);
    assert(back.indices =~= scene.indices);
    assert(back.material_ids =~= scene.material_ids);
    let vertices = vertex_ranges(scene.models);
    let indices = index_ranges(scene.models);
    assert forall|i: int| 0 <= i < last implies #[trigger] back.models[i] == scene.models[i] by {
        lemma_tiles_within(vertices, scene.vertices.len(), i);
        lemma_tiles_within(indices, scene.indices.len(), i);
    }
    assert(back.models =~= scene.models);
    assert(back.transforms =~= scene.transforms);
}

impl SceneView {
    /// The indices of every model are whole triangles, and each triangle has a material number.
    pub open spec fn has_triangles(self) -> bool {
        &&& self.indices.len() == 3 * self.material_ids.len()
        &&& forall|m: int|
            0 <= m < self.models.len() ==> (#[trigger] self.models[m]).indices.min as int % 3 == 0
                && self.models[m].indices.max as int % 3 == 0
    }

    /// Whether some triangle of a model uses a material.
    pub open spec fn model_uses(self, model: int, id: u32) -> bool {
        self.triangle_materials(model).contains(id)
    }

    /// How many of the first `n` models use a material.
    pub open spec fn users(self, id: u32, n: int) -> nat
        decreases n,
    {
        if n <= 0 {
            0
        } else {
            self.users(id, n - 1) + if self.model_uses(n - 1, id) {
                1nat
            } else {
                0nat
            }
        }
    }

    /// Every triangle has a material that is there, and no material is counted less often than
    /// there are models that use it.
    pub open spec fn well_counted(self, counts: Seq<u32>) -> bool {
        &&& self.has_triangles()
        &&& counts.len() == self.materials.len() <= u32::MAX
        &&& forall|i: int|
            0 <= i < self.material_ids.len() ==> (#[trigger] self.material_ids[i])
                < self.materials.len()
        &&& forall|id: int|
            0 <= id < counts.len() ==> #[trigger] counts[id] >= self.users(
                id as u32,
                self.models.len() as int,
            )
    }
}

proof fn lemma_users_positive(scene: SceneView, id: u32, n: int, model: int)
    requires
        0 <= model < n,
        scene.model_uses(model, id),
    ensures
        scene.users(id, n) >= 1,
    decreases n,
{
    if model < n - 1 {
        lemma_users_positive(scene, id, n - 1, model);
    }
}

/// No more models use a material than triangles do.
proof fn lemma_users_within_uses(scene: SceneView, id: u32, n: int)
    requires
        scene.laid_out(),
        scene.has_triangles(),
        0 <= n <= scene.models.len(),
    ensures
        n > 0 ==> scene.users(id, n) <= uses(
            scene.material_ids.take(scene.models[n - 1].indices.max as int / 3),
            id as int,
        ),
        n == 0 ==> scene.users(id, n) == 0,
    decreases n,
{
    if n > 0 {
        let ranges = index_ranges(scene.models);
        lemma_users_within_uses(scene, id, n - 1);
        lemma_tiles_within(ranges, scene.indices.len(), n - 1);
        let from = ranges[n - 1].min as int / 3;
        let to = ranges[n - 1].max as int / 3;
        let ids = scene.material_ids;
        assert(scene.models[n - 1].indices.max as int % 3 == 0);
        if n > 1 {
            assert(ranges[n - 2].max == ranges[n - 2 + 1].min);
        }
        lemma_uses_grow(ids, id as int, from, to);
        assert(ids.take(0) =~= Seq::<u32>::empty());
    }
}

/// A longer stretch from the start holds at least as many uses, and one more where its additional
/// part holds one.
proof fn lemma_uses_grow(ids: Seq<u32>, id: int, from: int, to: int)
    requires
        0 <= from <= to <= ids.len(),
    ensures
        uses(ids.take(to), id) >= uses(ids.take(from), id),
        0 <= id <= u32::MAX && ids.subrange(from, to).contains(id as u32) ==> uses(
            ids.take(to),
            id,
        ) >= uses(ids.take(from), id) + 1,
    decreases to - from,
{
    if from < to {
        lemma_uses_grow(ids, id, from, to - 1);
        assert(ids.take(to).drop_last() =~= ids.take(to - 1));
        assert(ids.take(to).last() == ids[to - 1]);
        if 0 <= id <= u32::MAX && ids.subrange(from, to).contains(id as u32) {
            let at = choose|at: int| 0 <= at < to - from && ids.subrange(from, to)[at] == id as u32;
            if at < to - 1 - from {
                assert(ids.subrange(from, to - 1)[at] == id as u32);
            }
        }
    }
}

/// Counting the triangles of each material counts every model that uses it.
pub proof fn law_fresh_counts_cover_all_users(scene: SceneView)
    requires
        scene.laid_out(),
        scene.has_triangles(),
        scene.countable(),
        scene.materials.len() <= u32::MAX,
        scene.materials.len() == 0 ==> scene.material_ids.len() == 0,
    ensures
        scene.well_counted(scene.use_counts()),
{
    let counts = scene.use_counts();
    let n = scene.models.len() as int;
    let ids = scene.material_ids;
    assert forall|id: int| 0 <= id < counts.len() implies #[trigger] counts[id] >= scene.users(
        id as u32,
        n,
    ) by {
        crate::ops::lemma_uses_bound(ids, id);
        lemma_users_within_uses(scene, id as u32, n);
        if n > 0 {
            let ranges = index_ranges(scene.models);
            lemma_tiles_within(ranges, scene.indices.len(), n - 1);
            let to = ranges[n - 1].max as int / 3;
            lemma_uses_grow(ids, id, to, ids.len() as int);
            assert(ids.take(ids.len() as int) =~= ids);
        }
    }
}

/// While the counts cover all users, any model can be taken out.
pub proof fn law_counted_models_can_be_removed(scene: SceneView, counts: Seq<u32>, removed: int)
    requires
        scene.laid_out(),
        scene.well_counted(counts),
        0 <= removed < scene.models.len(),
    ensures
        scene.can_remove(counts, removed),
{
    let ranges = index_ranges(scene.models);
    lemma_tiles_within(ranges, scene.indices.len(), removed);
    let ids = scene.triangle_materials(removed);
    assert(scene.models[removed].indices.max as int / 3 <= scene.material_ids.len());
    assert forall|i: int| 0 <= i < ids.len() implies (#[trigger] ids[i]) < counts.len()
        && counts[ids[i] as int] > 0 by {
        assert(ids[i] == scene.material_ids[scene.models[removed].indices.min as int / 3 + i]);
        assert(ids.contains(ids[i]));
        lemma_users_positive(scene, ids[i], scene.models.len() as int, removed);
        assert(counts[ids[i] as int] >= scene.users(
            ids[i] as int as u32,
            scene.models.len() as int,
        ));
    }
}

/// Taking a model out keeps the whole triangles of the others, and their material numbers.
proof fn lemma_triangles_without(scene: SceneView, removed: int, other: int)
    requires
        scene.laid_out(),
        scene.has_triangles(),
        0 <= removed < scene.models.len(),
        0 <= other < scene.models.len(),
        other != removed,
    ensures
        scene.without_model(removed).triangle_materials(number_after(other, removed))
            == scene.triangle_materials(other),
        scene.without_model(removed).models[number_after(other, removed)].indices.min as int % 3
            == 0,
        scene.without_model(removed).models[number_after(other, removed)].indices.max as int % 3
            == 0,
        scene.without_model(removed).models[number_after(other, removed)].indices.max as int / 3
            <= scene.without_model(removed).material_ids.len(),
        scene.without_model(removed).models[number_after(other, removed)].indices.min
            <= scene.without_model(removed).models[number_after(other, removed)].indices.max,
{
    let after = scene.without_model(removed);
    let number = number_after(other, removed);
    let ranges = index_ranges(scene.models);
    lemma_tiles_within(ranges, scene.indices.len(), removed);
    lemma_tiles_within(ranges, scene.indices.len(), other);
    lemma_shifted_range(ranges, scene.indices.len(), removed, other);
    if other < removed {
        lemma_tiles_ordered(ranges, scene.indices.len(), other, removed);
    }
    let gone = scene.models[removed].indices;
    let was = scene.models[other].indices;
    let is = after.models[number].indices;
    assert(gone == ranges[removed] && was == ranges[other]);
    assert(gone.min as int % 3 == 0 && gone.max as int % 3 == 0);
    assert(was.min as int % 3 == 0 && was.max as int % 3 == 0);
    let (a, b) = (gone.min as int / 3, gone.max as int / 3);
    let (from, to) = (was.min as int / 3, was.max as int / 3);
    if other < removed {
        assert(is == was);
        lemma_cut_front(scene.material_ids, a, b, from, to);
    } else {
        let span = gone.max - gone.min;
        assert(is.min == was.min - span && is.max == was.max - span);
        assert(is.min as int / 3 == from - (b - a));
        assert(is.max as int / 3 == to - (b - a));
        lemma_cut_back(scene.material_ids, a, b, from, to);
    }
}

/// What stands before a stretch that is taken out stays.
proof fn lemma_cut_front<T>(s: Seq<T>, a: int, b: int, from: int, to: int)
    requires
        0 <= from <= to <= a <= b <= s.len(),
    ensures
        cut(s, a, b).subrange(from, to) == s.subrange(from, to),
        to <= cut(s, a, b).len(),
{
    assert(cut(s, a, b).subrange(from, to) =~= s.subrange(from, to));
}

/// What stands behind a stretch that is taken out moves down.
proof fn lemma_cut_back<T>(s: Seq<T>, a: int, b: int, from: int, to: int)
    requires
        0 <= a <= b <= from <= to <= s.len(),
    ensures
        cut(s, a, b).subrange(from - (b - a), to - (b - a)) == s.subrange(from, to),
        to - (b - a) <= cut(s, a, b).len(),
{
    assert(cut(s, a, b).subrange(from - (b - a), to - (b - a)) =~= s.subrange(from, to));
}

/// How many models use a material once one model has been taken out.
proof fn lemma_users_without(scene: SceneView, removed: int, id: u32, n: int)
    requires
        scene.laid_out(),
        scene.has_triangles(),
        0 <= removed < scene.models.len(),
        0 <= n < scene.models.len(),
    ensures
        ({
            let after = scene.without_model(removed);
            after.users(id, n) == if n <= removed {
                scene.users(id, n) as int
            } else {
                scene.users(id, n + 1) - if scene.model_uses(removed, id) {
                    1int
                } else {
                    0int
                }
            }
        }),
    decreases n,
{
    if n > 0 {
        lemma_users_without(scene, removed, id, n - 1);
        let other = if n - 1 < removed {
            n - 1
        } else {
            n
        };
        lemma_triangles_without(scene, removed, other);
        reveal_with_fuel(SceneView::users, 3);
    }
}

/// Where an entry goes when the unused ones are taken out.
proof fn lemma_keep_used_at<T>(s: Seq<T>, counts: Seq<u32>, i: int)
    requires
        0 <= i < s.len(),
        !unused(counts, i),
    ensures
        keep_used(s, counts).len() == s.len() - unused_before(counts, s.len()),
        0 <= i - unused_before(counts, i as nat) < keep_used(s, counts).len(),
        keep_used(s, counts)[i - unused_before(counts, i as nat)] == s[i],
    decreases s.len(),
{
    lemma_keep_used_len(s.drop_last(), counts);
    lemma_keep_used_len(s, counts);
    if i < s.len() - 1 {
        lemma_keep_used_at(s.drop_last(), counts, i);
    }
}

proof fn lemma_keep_used_len<T>(s: Seq<T>, counts: Seq<u32>)
    ensures
        keep_used(s, counts).len() == s.len() - unused_before(counts, s.len()),
        unused_before(counts, s.len()) <= s.len(),
    decreases s.len(),
{
    if s.len() > 0 {
        lemma_keep_used_len(s.drop_last(), counts);
    }
}

/// Every place that is left is where some entry in use has gone.
proof fn lemma_keep_used_from(counts: Seq<u32>, len: nat, at: int) -> (i: int)
    requires
        0 <= at < len - unused_before(counts, len),
    ensures
        0 <= i < len,
        !unused(counts, i),
        i - unused_before(counts, i as nat) == at,
    decreases len,
{
    if unused(counts, len - 1) {
        lemma_keep_used_from(counts, (len - 1) as nat, at)
    } else if at == len - 1 - unused_before(counts, (len - 1) as nat) {
        len - 1
    } else {
        lemma_keep_used_from(counts, (len - 1) as nat, at)
    }
}

/// Entries in use keep their order.
proof fn lemma_unused_before_ordered(counts: Seq<u32>, i: nat, j: nat)
    requires
        i < j,
        !unused(counts, i as int),
    ensures
        i - unused_before(counts, i) < j - unused_before(counts, j),
        unused_before(counts, i) <= i,
    decreases j,
{
    lemma_unused_at_most(counts, i);
    if i < j - 1 {
        lemma_unused_before_ordered(counts, i, (j - 1) as nat);
    }
}

proof fn lemma_unused_at_most(counts: Seq<u32>, i: nat)
    ensures
        unused_before(counts, i) <= i,
    decreases i,
{
    if i > 0 {
        lemma_unused_at_most(counts, (i - 1) as nat);
    }
}

/// How many models use a material once the unused ones have been taken out: as many as before.
#[verifier::rlimit(40)]
proof fn lemma_users_renumbered(scene: SceneView, counts: Seq<u32>, id: u32, n: int)
    requires
        0 <= n <= scene.models.len(),
        counts.len() <= u32::MAX,
        !unused(counts, id as int),
        forall|i: int|
            0 <= i < scene.material_ids.len() ==> !unused(
                counts,
                #[trigger] scene.material_ids[i] as int,
            ),
        forall|m: int|
            0 <= m < scene.models.len() ==> (#[trigger] scene.models[m]).indices.min
                <= scene.models[m].indices.max && scene.models[m].indices.max as int / 3
                <= scene.material_ids.len(),
    ensures
        scene.without_unused(counts).users(
            (id - unused_before(counts, id as nat)) as u32,
            n,
        ) == scene.users(id, n),
    decreases n,
{
    if n > 0 {
        lemma_users_renumbered(scene, counts, id, n - 1);
        let after = scene.without_unused(counts);
        let new_id = (id - unused_before(counts, id as nat)) as u32;
        let from = scene.models[n - 1].indices.min as int / 3;
        let to = scene.models[n - 1].indices.max as int / 3;
        let old_ids = scene.triangle_materials(n - 1);
        let new_ids = after.triangle_materials(n - 1);
        lemma_unused_at_most(counts, id as nat);
        assert forall|i: int| 0 <= i < to - from implies (#[trigger] old_ids[i] == id) == (
        new_ids[i] == new_id) by {
            let x = scene.material_ids[from + i];
            assert(old_ids[i] == x);
            assert(new_ids[i] == renumbered(scene.material_ids, counts)[from + i]);
            assert(!unused(counts, x as int));
            lemma_unused_at_most(counts, x as nat);
            if x < id {
                lemma_unused_before_ordered(counts, x as nat, id as nat);
            } else if id < x {
                lemma_unused_before_ordered(counts, id as nat, x as nat);
            }
        }
        if scene.model_uses(n - 1, id) {
            let i = choose|i: int| 0 <= i < old_ids.len() && old_ids[i] == id;
            assert(old_ids[i] == id);
            assert(new_ids[i] == new_id);
            assert(new_ids.contains(new_id));
        }
        if after.model_uses(n - 1, new_id) {
            let i = choose|i: int| 0 <= i < new_ids.len() && new_ids[i] == new_id;
            assert(old_ids[i] == id);
            assert(old_ids.contains(id));
        }
    }
}

/// What is known of a scene between the two halves of a removal: no triangle that is left uses a
/// material whose last use was given up.
#[verifier::rlimit(40)]
proof fn lemma_left_triangles_use_used(scene: SceneView, counts: Seq<u32>, removed: int)
    requires
        scene.laid_out(),
        scene.well_counted(counts),
        0 <= removed < scene.models.len(),
    ensures
        ({
            let left = scene.without_model(removed);
            let given_up = decremented(counts, scene.triangle_materials(removed));
            &&& left.laid_out()
            &&& left.has_triangles()
            &&& forall|id: int|
                0 <= id < given_up.len() ==> #[trigger] given_up[id] >= left.users(
                    id as u32,
                    left.models.len() as int,
                )
            &&& forall|i: int|
                0 <= i < left.material_ids.len() ==> (#[trigger] left.material_ids[i])
                    < left.materials.len() && !unused(given_up, left.material_ids[i] as int)
        }),
{
    let left = scene.without_model(removed);
    let ids = scene.triangle_materials(removed);
    let given_up = decremented(counts, ids);
    let n = left.models.len() as int;
    law_removing_keeps_models_side_by_side(scene, removed);
    law_counted_models_can_be_removed(scene, counts, removed);
    let ranges = index_ranges(scene.models);
    lemma_tiles_within(ranges, scene.indices.len(), removed);
    assert(scene.models[removed].indices.min as int % 3 == 0);
    assert(scene.models[removed].indices.max as int % 3 == 0);
    assert forall|m: int| 0 <= m < left.models.len() implies (#[trigger]
    left.models[m]).indices.min as int % 3 == 0 && left.models[m].indices.max as int % 3 == 0 by {
        let other = if m < removed {
            m
        } else {
            m + 1
        };
        lemma_triangles_without(scene, removed, other);
    }
    assert forall|id: int| 0 <= id < given_up.len() implies #[trigger] given_up[id] >= left.users(
        id as u32,
        n,
    ) by {
        lemma_users_without(scene, removed, id as u32, n);
        assert(counts[id] >= scene.users(id as u32, scene.models.len() as int));
        if ids.contains(id as u32) {
            let i = choose|i: int| 0 <= i < ids.len() && ids[i] == id as u32;
            assert(ids[i] < counts.len() && counts[ids[i] as int] > 0);
        }
        if n == removed {
            assert(scene.users(id as u32, n + 1) == scene.users(id as u32, n)
                + if scene.model_uses(removed, id as u32) {
                1nat
            } else {
                0nat
            });
        }
    }
    assert forall|i: int| 0 <= i < left.material_ids.len() implies (#[trigger]
    left.material_ids[i]) < left.materials.len() && !unused(
        given_up,
        left.material_ids[i] as int,
    ) by {
        let id = left.material_ids[i];
        let from = scene.models[removed].indices.min as int / 3;
        let to = scene.models[removed].indices.max as int / 3;
        if i < from {
            assert(id == scene.material_ids[i]);
        } else {
            assert(id == scene.material_ids[i - from + to]);
        }
        let m = lemma_triangle_has_model(left, i);
        let range = left.models[m].indices;
        assert(left.triangle_materials(m)[i - range.min as int / 3] == id);
        assert(left.model_uses(m, id));
        lemma_users_positive(left, id, n, m);
        assert(given_up[id as int] >= left.users(id as int as u32, n));
    }
}

/// Every triangle belongs to a model.
proof fn lemma_triangle_has_model(scene: SceneView, triangle: int) -> (model: int)
    requires
        scene.laid_out(),
        scene.has_triangles(),
        0 <= triangle < scene.material_ids.len(),
    ensures
        0 <= model < scene.models.len(),
        scene.models[model].indices.min as int / 3 <= triangle,
        triangle < scene.models[model].indices.max as int / 3,
        scene.models[model].indices.max as int / 3 <= scene.material_ids.len(),
{
    let ranges = index_ranges(scene.models);
    let model = lemma_range_with(ranges, scene.indices.len(), 3 * triangle, ranges.len() as int);
    lemma_tiles_within(ranges, scene.indices.len(), model);
    assert(scene.models[model].indices.min as int % 3 == 0);
    assert(scene.models[model].indices.max as int % 3 == 0);
    model
}

proof fn lemma_range_with(
    ranges: Seq<crate::scene::UintRange>,
    total: nat,
    at: int,
    n: int,
) -> (i: int)
    requires
        crate::scene::tiles(ranges, total),
        0 <= at < total,
        0 < n <= ranges.len(),
        at < ranges[n - 1].max,
    ensures
        0 <= i < ranges.len(),
        ranges[i].min <= at < ranges[i].max,
    decreases n,
{
    if ranges[n - 1].min <= at {
        n - 1
    } else {
        assert(n > 1);
        assert(ranges[n - 2].max == ranges[n - 2 + 1].min);
        lemma_range_with(ranges, total, at, n - 1)
    }
}

/// Taking a model out keeps the counts covering all users, so that models can be taken out one
/// after the other without end.
#[verifier::rlimit(40)]
pub proof fn law_removing_keeps_counts_covering(scene: SceneView, counts: Seq<u32>, removed: usize)
    requires
        scene.laid_out(),
        scene.well_counted(counts),
        removed < scene.models.len(),
    ensures
        ({
            let after = (Counted { scene, counts }).after(OpView::Remove(removed));
            &&& after.scene.laid_out()
            &&& after.scene.well_counted(after.counts)
        }),
{
    let left = scene.without_model(removed as int);
    let given_up = decremented(counts, scene.triangle_materials(removed as int));
    let after = left.without_unused(given_up);
    let kept = keep_used(given_up, given_up);
    let n = left.models.len() as int;
    lemma_left_triangles_use_used(scene, counts, removed as int);
    lemma_keep_used_len(left.materials, given_up);
    lemma_keep_used_len(given_up, given_up);
    assert forall|i: int| 0 <= i < after.material_ids.len() implies (#[trigger]
    after.material_ids[i]) < after.materials.len() by {
        let id = left.material_ids[i];
        assert(!unused(given_up, id as int));
        lemma_keep_used_at(left.materials, given_up, id as int);
    }
    assert forall|m: int| 0 <= m < left.models.len() implies (#[trigger]
    left.models[m]).indices.min <= left.models[m].indices.max && left.models[m].indices.max as int
        / 3 <= left.material_ids.len() by {
        lemma_tiles_within(index_ranges(left.models), left.indices.len(), m);
    }
    assert forall|id: int| 0 <= id < kept.len() implies #[trigger] kept[id] >= after.users(
        id as u32,
        n,
    ) by {
        let was = lemma_keep_used_from(given_up, given_up.len(), id);
        lemma_keep_used_at(given_up, given_up, was);
        lemma_users_renumbered(left, given_up, was as u32, n);
        assert(given_up[was] >= left.users(was as u32, n));
    }
    assert forall|m: int| 0 <= m < after.models.len() implies (#[trigger]
    after.models[m]).indices.min as int % 3 == 0 && after.models[m].indices.max as int % 3 == 0 by {
        assert(left.models[m].indices.min as int % 3 == 0);
    }
    assert(vertex_ranges(after.models) == vertex_ranges(left.models));
}

/// Taking a model out keeps the material of every triangle that is left, also where materials are
/// taken out and the others are numbered anew.
pub proof fn law_removing_keeps_the_other_materials(
    scene: SceneView,
    counts: Seq<u32>,
    removed: usize,
    other: int,
    triangle: int,
)
    requires
        scene.laid_out(),
        scene.well_counted(counts),
        removed < scene.models.len(),
        0 <= other < scene.models.len(),
        other != removed,
        0 <= triangle < scene.triangle_materials(other).len(),
    ensures
        ({
            let after = (Counted { scene, counts }).after(OpView::Remove(removed)).scene;
            let ids = after.triangle_materials(number_after(other, removed as int));
            &&& ids.len() == scene.triangle_materials(other).len()
            &&& ids[triangle] < after.materials.len()
            &&& after.materials[ids[triangle] as int]
                == scene.materials[scene.triangle_materials(other)[triangle] as int]
        }),
{
    let left = scene.without_model(removed as int);
    let given_up = decremented(counts, scene.triangle_materials(removed as int));
    let number = number_after(other, removed as int);
    lemma_left_triangles_use_used(scene, counts, removed as int);
    lemma_triangles_without(scene, removed as int, other);
    lemma_renumbered_triangle(left, given_up, number, triangle);
}

proof fn lemma_renumbered_triangle(
    left: SceneView,
    counts: Seq<u32>,
    model: int,
    triangle: int,
)
    requires
        0 <= model < left.models.len(),
        left.models[model].indices.min <= left.models[model].indices.max,
        left.models[model].indices.max as int / 3 <= left.material_ids.len(),
        0 <= triangle < left.triangle_materials(model).len(),
        forall|i: int|
            0 <= i < left.material_ids.len() ==> (#[trigger] left.material_ids[i])
                < left.materials.len() && !unused(counts, left.material_ids[i] as int),
    ensures
        ({
            let after = left.without_unused(counts);
            let ids = after.triangle_materials(model);
            &&& ids.len() == left.triangle_materials(model).len()
            &&& ids[triangle] < after.materials.len()
            &&& after.materials[ids[triangle] as int]
                == left.materials[left.triangle_materials(model)[triangle] as int]
        }),
{
    let after = left.without_unused(counts);
    let from = left.models[model].indices.min as int / 3;
    let id = left.material_ids[from + triangle];
    assert(left.triangle_materials(model)[triangle] == id);
    assert(!unused(counts, id as int));
    lemma_keep_used_at(left.materials, counts, id as int);
    assert(after.triangle_materials(model)[triangle] == renumbered(
        left.material_ids,
        counts,
    )[from + triangle]);
}

/// Taking a model out shortens the lists by just what it had, and leaves materials, players and names
/// as they are.
pub proof fn law_removing_takes_out_the_model(scene: SceneView, removed: int)
    requires
        scene.laid_out(),
        scene.has_triangles(),
        0 <= removed < scene.models.len(),
    ensures
        ({
            let after = scene.without_model(removed);
            let gone = scene.models[removed];
            &&& after.models.len() == scene.models.len() - 1
            &&& after.transforms.len() == scene.transforms.len() - 1
            &&& after.vertices.len() == scene.vertices.len() - (gone.vertices.max
                - gone.vertices.min)
            &&& after.indices.len() == scene.indices.len() - (gone.indices.max - gone.indices.min)
            &&& 3 * after.material_ids.len() == after.indices.len()
            &&& after.materials == scene.materials
            &&& after.map == scene.map
            &&& after.players == scene.players
            &&& after.names == scene.names
        }),
{
    lemma_tiles_within(vertex_ranges(scene.models), scene.vertices.len(), removed);
    lemma_tiles_within(index_ranges(scene.models), scene.indices.len(), removed);
    let gone = scene.models[removed].indices;
    assert(gone.min as int % 3 == 0 && gone.max as int % 3 == 0);
}

/// Giving up materials takes one use from each that is given, however often it is given, and none
/// from the others.
pub proof fn law_each_material_loses_one_use(counts: Seq<u32>, ids: Seq<u32>, id: u32)
    requires
        counts.len() <= u32::MAX,
        id < counts.len(),
    ensures
        decremented(counts, ids).len() == counts.len(),
        counts[id as int] > 0 && (exists|k: int|
            0 <= k < ids.len() && #[trigger] ids[k] == id) ==> decremented(
            counts,
            ids,
        )[id as int] == counts[id as int] - 1,
        (forall|k: int| 0 <= k < ids.len() ==> #[trigger] ids[k] != id) ==> decremented(
            counts,
            ids,
        )[id as int] == counts[id as int],
{
    if exists|k: int| 0 <= k < ids.len() && #[trigger] ids[k] == id {
        let k = choose|k: int| 0 <= k < ids.len() && #[trigger] ids[k] == id;
        assert(ids.contains(id));
    }
    assert(id as int as u32 == id);
}

/// Which entries are left once the unused ones are taken out: exactly those with a use, or without a
/// count, in their order. `source` tells where each was.
pub proof fn law_used_entries_are_kept<T>(s: Seq<T>, counts: Seq<u32>) -> (source: Seq<int>)
    ensures
        source.len() == keep_used(s, counts).len(),
        forall|k: int|
            0 <= k < source.len() ==> {
                &&& 0 <= #[trigger] source[k] < s.len()
                &&& keep_used(s, counts)[k] == s[source[k]]
                &&& source[k] < counts.len() ==> counts[source[k]] > 0
            },
        forall|k: int, l: int|
            0 <= k < l < source.len() ==> #[trigger] source[k] < #[trigger] source[l],
        forall|i: int|
            0 <= i < s.len() && (i < counts.len() ==> counts[i] > 0) ==> #[trigger] source.contains(
                i,
            ),
    decreases s.len(),
{
    if s.len() == 0 {
        Seq::empty()
    } else {
        let last = s.len() - 1;
        let before = law_used_entries_are_kept(s.drop_last(), counts);
        let source = if unused(counts, last) {
            before
        } else {
            before.push(last)
        };
        assert forall|k: int| 0 <= k < source.len() implies {
            &&& 0 <= #[trigger] source[k] < s.len()
            &&& keep_used(s, counts)[k] == s[source[k]]
            &&& source[k] < counts.len() ==> counts[source[k]] > 0
        } by {
            if k < before.len() {
                assert(source[k] == before[k]);
            }
        }
        assert forall|k: int, l: int| 0 <= k < l < source.len() implies #[trigger] source[k]
            < #[trigger] source[l] by {
            assert(source[k] == before[k]);
            if l < before.len() {
                assert(source[l] == before[l]);
            }
        }
        assert forall|i: int|
            0 <= i < s.len() && (i < counts.len() ==> counts[i] > 0) implies #[trigger]
            source.contains(i) by {
            if i < last {
                assert(before.contains(i));
                let k = choose|k: int| 0 <= k < before.len() && before[k] == i;
                assert(source[k] == i);
            } else {
                assert(source[before.len() as int] == i);
            }
        }
        source
    }
}

/// Once the unused materials are taken out, every triangle whose material is in use still has it, and
/// nothing else of the scene has changed.
pub proof fn law_triangles_keep_used_materials(
    scene: SceneView,
    counts: Seq<u32>,
    triangle: int,
)
    requires
        0 <= triangle < scene.material_ids.len(),
        scene.material_ids[triangle] < scene.materials.len(),
        scene.material_ids[triangle] < counts.len() ==> counts[scene.material_ids[triangle] as int]
            > 0,
    ensures
        ({
            let after = scene.without_unused(counts);
            &&& after.material_ids.len() == scene.material_ids.len()
            &&& after.material_ids[triangle] < after.materials.len()
            &&& after.materials[after.material_ids[triangle] as int]
                == scene.materials[scene.material_ids[triangle] as int]
            &&& after.materials == keep_used(scene.materials, counts)
            &&& after.vertices == scene.vertices
            &&& after.indices == scene.indices
            &&& after.models == scene.models
            &&& after.map == scene.map
            &&& after.transforms == scene.transforms
            &&& after.players == scene.players
            &&& after.names == scene.names
        }),
{
    lemma_keep_used_at(scene.materials, counts, scene.material_ids[triangle] as int);
}

/// Taking a model out and giving up the materials of its triangles are one change: the model is gone,
/// each material that its triangles use has one use less, and those that then have none are gone too,
/// from the scene as from the counts.
pub proof fn law_removal_gives_up_materials(start: Counted, removed: usize)
    requires
        removed < start.scene.models.len(),
    ensures
        ({
            let after = start.after(OpView::Remove(removed));
            let range = start.scene.models[removed as int].indices;
            let ids = start.scene.material_ids.subrange(range.min as int / 3, range.max as int / 3);
            let left = decremented(start.counts, ids);
            &&& after.scene == start.scene.without_model(removed as int).without_unused(left)
            &&& after.counts == keep_used(left, left)
        }),
{
}

/// Adding a model puts it where it was asked for and changes nothing else of it, and counts the uses of
/// all materials anew.
pub proof fn law_added_models_are_placed(
    start: Counted,
    model: ModelView,
    class: ModelClass,
    transform: crate::math::Mat4,
    name: Option<Seq<char>>,
)
    requires
        start.scene.laid_out(),
    ensures
        ({
            let after = start.after(OpView::Add(model, class, transform, name));
            let added = start.scene.with_model(model, class, name);
            &&& after.scene.transforms == start.scene.transforms + seq![transform]
            &&& after.scene.vertices == added.vertices
            &&& after.scene.indices == added.indices
            &&& after.scene.material_ids == added.material_ids
            &&& after.scene.materials == added.materials
            &&& after.scene.map == added.map
            &&& after.scene.models == added.models
            &&& after.scene.players == added.players
            &&& after.scene.names == added.names
            &&& after.counts == after.scene.use_counts()
        }),
{
    let after = start.after(OpView::Add(model, class, transform, name));
    assert(after.scene.transforms =~= start.scene.transforms + seq![transform]);
}

/// The uses of a material are as many as triangles have its number.
pub proof fn law_uses_are_counted(scene: SceneView, id: u32)
    requires
        scene.material_ids.len() <= u32::MAX,
        id < scene.materials.len(),
    ensures
        scene.use_counts().len() == scene.materials.len(),
        scene.use_counts()[id as int] == scene.material_ids.to_multiset().count(id),
{
    lemma_uses_are_occurrences(scene.material_ids, id);
    crate::ops::lemma_uses_bound(scene.material_ids, id as int);
}

proof fn lemma_uses_are_occurrences(ids: Seq<u32>, id: u32)
    ensures
        uses(ids, id as int) == ids.to_multiset().count(id),
    decreases ids.len(),
{
    broadcast use vstd::seq_lib::group_to_multiset_ensures;

    if ids.len() > 0 {
        lemma_uses_are_occurrences(ids.drop_last(), id);
        assert(ids =~= ids.drop_last().push(ids.last()));
    } else {
        assert(ids.to_multiset().count(id) == 0) by {
            assert(!ids.contains(id));
        }
    }
}

/// Changes that wait are made one after the other, the first of them first: making them all is making
/// the first and then all others.
pub proof fn law_changes_are_made_in_order(start: Counted, ops: Seq<OpView>)
    ensures
        ops.len() == 0 ==> start.after_all(ops) == start,
        ops.len() > 0 ==> start.after_all(ops) == start.after(ops[0]).after_all(ops.drop_first()),
    decreases ops.len(),
{
    if ops.len() == 1 {
        assert(ops.drop_last() =~= Seq::<OpView>::empty());
        assert(ops.drop_first() =~= Seq::<OpView>::empty());
        assert(start.after_all(Seq::empty()) == start);
    } else if ops.len() > 1 {
        law_changes_are_made_in_order(start, ops.drop_last());
        assert(ops.drop_first().drop_last() =~= ops.drop_last().drop_first());
    }
}

/// The number that the last model to be added got is how many models there were when it was added;
/// there is none where no model was added.
pub proof fn law_the_last_added_model_is_told(start: Counted, ops: Seq<OpView>)
    ensures
        match start.last_added(ops) {
            None => forall|i: int| 0 <= i < ops.len() ==> (#[trigger] ops[i]) is Remove,
            Some(number) => exists|i: int|
                {
                    &&& 0 <= i < ops.len()
                    &&& (#[trigger] ops[i]) is Add
                    &&& forall|j: int| i < j < ops.len() ==> (#[trigger] ops[j]) is Remove
                    &&& number == start.after_all(ops.take(i)).scene.models.len() as usize
                },
        },
    decreases ops.len(),
{
    if ops.len() > 0 {
        let front = ops.drop_last();
        let last = ops.len() - 1;
        law_the_last_added_model_is_told(start, front);
        if ops[last] is Remove {
            match start.last_added(front) {
                None => {
                    assert forall|i: int| 0 <= i < ops.len() implies (#[trigger] ops[i])
                        is Remove by {
                        if i < last {
                            assert(front[i] == ops[i]);
                        }
                    }
                },
                Some(number) => {
                    let i = choose|i: int|
                        {
                            &&& 0 <= i < front.len()
                            &&& (#[trigger] front[i]) is Add
                            &&& forall|j: int| i < j < front.len() ==> (#[trigger] front[j])
                                is Remove
                            &&& number == start.after_all(
                                front.take(i),
                            ).scene.models.len() as usize
                        };
                    assert(front[i] == ops[i]);
                    assert(front.take(i) =~= ops.take(i));
                    assert forall|j: int| i < j < ops.len() implies (#[trigger] ops[j])
                        is Remove by {
                        if j < last {
                            assert(front[j] == ops[j]);
                        }
                    }
                },
            }
        } else {
            assert(ops.take(last) =~= front);
        }
    }
}

} // verus!
