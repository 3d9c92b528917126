//! Taking models out of a scene, and materials that no model needs any more.

use crate::scene::{
    index_ranges, tiles, vertex_ranges, ModelInfoView, Scene, SceneView, UintRange,
};
use vstd::prelude::*;

verus! {

/// A sequence without the stretch from `from` up to `to`.
pub open spec fn cut<T>(s: Seq<T>, from: int, to: int) -> Seq<T> {
    s.take(from) + s.skip(to)
}

/// An index after the vertices of a range have been taken out.
pub open spec fn shifted_index(index: u32, removed: UintRange) -> u32 {
    if index >= removed.max {
        (index - (removed.max - removed.min)) as u32
    } else {
        index
    }
}

/// A range after another one has been taken out: it moves down if it starts behind it.
pub open spec fn shifted_range(range: UintRange, removed: UintRange) -> UintRange {
    if range.min > removed.min {
        UintRange {
            min: (range.min - (removed.max - removed.min)) as u32,
            max: (range.max - (removed.max - removed.min)) as u32,
        }
    } else {
        range
    }
}

/// A model after another one has been taken out.
pub open spec fn shifted_model(model: ModelInfoView, removed: ModelInfoView) -> ModelInfoView {
    ModelInfoView {
        vertices: shifted_range(model.vertices, removed.vertices),
        indices: shifted_range(model.indices, removed.indices),
        ..model
    }
}

/// The counts after one use less of each of the given materials, however often it is given.
pub open spec fn decremented(counts: Seq<u32>, ids: Seq<u32>) -> Seq<u32> {
    Seq::new(
        counts.len(),
        |i: int|
            if ids.contains(i as u32) {
                (counts[i] - 1) as u32
            } else {
                counts[i]
            },
    )
}

/// Whether something is not in use any more.
pub open spec fn unused(counts: Seq<u32>, i: int) -> bool {
    0 <= i < counts.len() && counts[i] == 0
}

/// The entries whose count is not zero; entries without a count are kept.
pub open spec fn keep_used<T>(s: Seq<T>, counts: Seq<u32>) -> Seq<T>
    decreases s.len(),
{
    if s.len() == 0 {
        s
    } else if unused(counts, s.len() - 1) {
        keep_used(s.drop_last(), counts)
    } else {
        keep_used(s.drop_last(), counts).push(s.last())
    }
}

/// How many of the entries before `i` have the count zero.
pub open spec fn unused_before(counts: Seq<u32>, i: nat) -> nat
    decreases i,
{
    if i == 0 {
        0
    } else {
        unused_before(counts, (i - 1) as nat) + if unused(counts, i - 1) {
            1nat
        } else {
            0nat
        }
    }
}

/// Numbers of materials after those without use have been taken out.
pub open spec fn renumbered(ids: Seq<u32>, counts: Seq<u32>) -> Seq<u32> {
    Seq::new(ids.len(), |i: int| (ids[i] - unused_before(counts, ids[i] as nat)) as u32)
}

impl SceneView {
    /// The materials that the triangles of a model use.
    pub open spec fn triangle_materials(self, model: int) -> Seq<u32> {
        let range = self.models[model].indices;
        self.material_ids.subrange(range.min as int / 3, range.max as int / 3)
    }

    /// The scene without a model: the rest moves together. Materials, players and names stay.
    pub open spec fn without_model(self, model: int) -> SceneView {
        let removed = self.models[model];
        let kept = cut(self.indices, removed.indices.min as int, removed.indices.max as int);
        SceneView {
            vertices: cut(
                self.vertices,
                removed.vertices.min as int,
                removed.vertices.max as int,
            ),
            indices: Seq::new(kept.len(), |i: int| shifted_index(kept[i], removed.vertices)),
            material_ids: cut(
                self.material_ids,
                removed.indices.min as int / 3,
                removed.indices.max as int / 3,
            ),
            models: Seq::new(
                self.models.len(),
                |i: int| shifted_model(self.models[i], removed),
            ).remove(model),
            transforms: self.transforms.remove(model),
            ..self
        }
    }

    /// The scene without the materials that are not in use.
    pub open spec fn without_unused(self, counts: Seq<u32>) -> SceneView {
        SceneView {
            materials: keep_used(self.materials, counts),
            material_ids: renumbered(self.material_ids, counts),
            ..self
        }
    }

    /// Whether materials can be given up: each of them is counted, and in use.
    pub open spec fn can_give_up(self, counts: Seq<u32>, ids: Seq<u32>) -> bool {
        &&& counts.len() <= self.materials.len()
        &&& counts.len() <= u32::MAX
        &&& forall|i: int|
            0 <= i < ids.len() ==> (#[trigger] ids[i]) < counts.len() && counts[ids[i] as int] > 0
    }

    /// Whether a model can be taken out.
    pub open spec fn can_remove(self, counts: Seq<u32>, model: int) -> bool {
        &&& 0 <= model < self.models.len()
        &&& self.models[model].indices.max as int / 3 <= self.material_ids.len()
        &&& self.can_give_up(counts, self.triangle_materials(model))
    }
}

proof fn lemma_unused_before(counts: Seq<u32>, i: nat)
    ensures
        unused_before(counts, i) <= i,
        i <= counts.len() || unused_before(counts, i) == unused_before(counts, counts.len()),
    decreases i,
{
    if i > 0 {
        lemma_unused_before(counts, (i - 1) as nat);
    }
}

/// Takes a stretch out of a list.
fn cut_out<T>(list: &mut Vec<T>, from: usize, to: usize)
    requires
        from <= to <= old(list)@.len(),
    ensures
        final(list)@ == cut(old(list)@, from as int, to as int),
{
    let mut rest = list.split_off(to);
    list.truncate(from);
    list.append(&mut rest);
    proof {
        assert(list@ =~= cut(old(list)@, from as int, to as int));
    }
}

/// The entries whose count is not zero.
fn used_entries<T: Copy>(list: &Vec<T>, counts: &Vec<u32>) -> (out: Vec<T>)
    ensures
        out@ == keep_used(list@, counts@),
{
    let mut out: Vec<T> = Vec::new();
    let mut i: usize = 0;
    proof {
        assert(out@ =~= keep_used(list@.take(0), counts@));
    }
    while i < list.len()
        invariant
            i <= list@.len(),
            out@ == keep_used(list@.take(i as int), counts@),
        decreases list@.len() - i,
    {
        proof {
            assert(list@.take(i + 1).drop_last() =~= list@.take(i as int));
            assert(list@.take(i + 1).last() == list@[i as int]);
        }
        if !(i < counts.len() && counts[i] == 0) {
            out.push(list[i]);
        }
        i = i + 1;
    }
    proof {
        assert(list@.take(i as int) =~= list@);
    }
    out
}

impl Scene {
    /// Gives up one use of each of the given materials, however often it is given. Materials that
    /// are not in use any more are taken out, and the triangles keep the materials they have.
    #[verifier::rlimit(40)]
    pub fn decrement_materials(
        &mut self,
        refcounts: &mut Vec<u32>,
        removed_material_ids: &Vec<u32>,
    )
        requires
            old(self).wf(),
            old(self)@.can_give_up(old(refcounts)@, removed_material_ids@),
        ensures
            final(self).wf(),
            final(self)@ == old(self)@.without_unused(
                decremented(old(refcounts)@, removed_material_ids@),
            ),
            final(refcounts)@ == keep_used(
                decremented(old(refcounts)@, removed_material_ids@),
                decremented(old(refcounts)@, removed_material_ids@),
            ),
    {
        let ghost counts = refcounts@;
        let ghost ids = removed_material_ids@;
        let total: usize = refcounts.len();
        let mut given: Vec<bool> = vec![false; total];
        let mut i: usize = 0;
        while i < removed_material_ids.len()
            invariant
                i <= ids.len(),
                ids == removed_material_ids@,
                counts == refcounts@,
                given@.len() == total == counts.len() <= u32::MAX,
                forall|k: int| 0 <= k < ids.len() ==> (#[trigger] ids[k]) < counts.len(),
                forall|m: int|
                    0 <= m < total ==> #[trigger] given@[m] == ids.take(i as int).contains(
                        m as u32,
                    ),
            decreases ids.len() - i,
        {
            let id = removed_material_ids[i];
            given.set(id as usize, true);
            proof {
                assert forall|m: int| 0 <= m < total implies #[trigger] given@[m] == ids.take(
                    i + 1,
                ).contains(m as u32) by {
                    assert(ids.take(i + 1) =~= ids.take(i as int).push(id));
                    if ids.take(i as int).contains(m as u32) {
                        let k = ids.take(i as int).index_of(m as u32);
                        assert(ids.take(i + 1)[k] == m as u32);
                    }
                    if m == id {
                        assert(ids.take(i + 1)[i as int] == id);
                    }
                }
            }
            i = i + 1;
        }
        proof {
            assert(ids.take(i as int) =~= ids);
        }
        let mut i: usize = 0;
        while i < total
            invariant
                i <= total,
                total == counts.len() == given@.len() == refcounts@.len(),
                total <= u32::MAX,
                forall|m: int|
                    0 <= m < total ==> #[trigger] given@[m] == ids.contains(m as u32),
                forall|k: int|
                    0 <= k < ids.len() ==> (#[trigger] ids[k]) < counts.len()
                        && counts[ids[k] as int] > 0,
                forall|m: int|
                    0 <= m < i ==> #[trigger] refcounts@[m] == decremented(counts, ids)[m],
                forall|m: int| i <= m < total ==> #[trigger] refcounts@[m] == counts[m],
            decreases total - i,
        {
            if given[i] {
                proof {
                    let k = ids.index_of(i as u32);
                    assert(ids[k] == i as u32);
                }
                let count: u32 = refcounts[i];
                refcounts.set(i, count - 1);
            }
            i = i + 1;
        }
        let ghost after = decremented(counts, ids);
        proof {
            assert(refcounts@ =~= after);
        }
        self.materials = used_entries(&self.materials, refcounts);
        let mut before: Vec<u32> = Vec::new();
        before.push(0);
        let mut i: usize = 0;
        let mut missing: u32 = 0;
        while i < total
            invariant
                i <= total == after.len(),
                total <= u32::MAX,
                refcounts@ == after,
                missing == unused_before(after, i as nat) <= i,
                before@.len() == i + 1,
                forall|m: int|
                    0 <= m <= i ==> #[trigger] before@[m] == unused_before(after, m as nat),
            decreases total - i,
        {
            if refcounts[i] == 0 {
                missing = missing + 1;
            }
            before.push(missing);
            i = i + 1;
        }
        let mut i: usize = 0;
        let ghost old_ids = self.material_ids@;
        while i < self.material_ids.len()
            invariant
                i <= self.material_ids@.len() == old_ids.len(),
                total == after.len(),
                before@.len() == total + 1,
                forall|m: int|
                    0 <= m <= total ==> #[trigger] before@[m] == unused_before(after, m as nat),
                forall|k: int|
                    0 <= k < i ==> #[trigger] self.material_ids@[k] == renumbered(old_ids, after)[k],
                forall|k: int|
                    i <= k < old_ids.len() ==> #[trigger] self.material_ids@[k] == old_ids[k],
                self@ == (SceneView {
                    material_ids: self.material_ids@,
                    materials: keep_used(old(self)@.materials, after),
                    ..old(self)@
                }),
                self.animations == old(self).animations,
            decreases old_ids.len() - i,
        {
            let id: u32 = self.material_ids[i];
            proof {
                lemma_unused_before(after, id as nat);
            }
            let less: u32 = if (id as usize) < total {
                before[id as usize]
            } else {
                before[total]
            };
            self.material_ids.set(i, id - less);
            i = i + 1;
        }
        proof {
            assert(self.material_ids@ =~= renumbered(old_ids, after));
        }
        let kept = used_entries(refcounts, refcounts);
        *refcounts = kept;
    }
}

/// Ranges that follow each other are in order.
pub proof fn lemma_tiles_ordered(ranges: Seq<UintRange>, total: nat, i: int, j: int)
    requires
        tiles(ranges, total),
        0 <= i < j < ranges.len(),
    ensures
        ranges[i].max <= ranges[j].min,
    decreases j - i,
{
    if i + 1 < j {
        lemma_tiles_ordered(ranges, total, i + 1, j);
        assert(ranges[i].max == ranges[i + 1].min);
        assert(ranges[i + 1].min <= ranges[i + 1].max);
    } else {
        assert(ranges[i].max == ranges[i + 1].min);
    }
}

/// Ranges that follow each other end at their total.
pub proof fn lemma_tiles_within(ranges: Seq<UintRange>, total: nat, i: int)
    requires
        tiles(ranges, total),
        0 <= i < ranges.len(),
    ensures
        ranges[i].min <= ranges[i].max <= total,
{
    let last = ranges.len() - 1;
    if i < last {
        lemma_tiles_ordered(ranges, total, i, last);
        assert(ranges[last].min <= ranges[last].max);
    }
}

/// What shifting does to ranges that follow each other: those before the one that is taken out
/// stay, those behind it move down by its length.
pub proof fn lemma_shifted_range(ranges: Seq<UintRange>, total: nat, removed: int, i: int)
    requires
        tiles(ranges, total),
        0 <= removed < ranges.len(),
        0 <= i < ranges.len(),
    ensures
        i < removed ==> shifted_range(ranges[i], ranges[removed]) == ranges[i],
        i > removed ==> {
            let span = ranges[removed].max - ranges[removed].min;
            &&& ranges[i].min >= ranges[removed].max
            &&& shifted_range(ranges[i], ranges[removed]).min == ranges[i].min - span
            &&& shifted_range(ranges[i], ranges[removed]).max == ranges[i].max - span
        },
        ranges[i].min > ranges[removed].min ==> ranges[i].min >= ranges[removed].max,
{
    if i < removed {
        lemma_tiles_ordered(ranges, total, i, removed);
        assert(ranges[i].min <= ranges[i].max);
    } else if removed < i {
        lemma_tiles_ordered(ranges, total, removed, i);
        assert(ranges[removed].min <= ranges[removed].max);
        assert(ranges[i].min <= ranges[i].max);
    }
}

/// Ranges that follow each other still do after one has been taken out.
pub proof fn lemma_tiles_remove(ranges: Seq<UintRange>, total: nat, removed: int)
    requires
        tiles(ranges, total),
        0 <= removed < ranges.len(),
    ensures
        tiles(
            Seq::new(ranges.len(), |i: int| shifted_range(ranges[i], ranges[removed])).remove(
                removed,
            ),
            (total - (ranges[removed].max - ranges[removed].min)) as nat,
        ),
{
    let span = ranges[removed].max - ranges[removed].min;
    let shifted = Seq::new(ranges.len(), |i: int| shifted_range(ranges[i], ranges[removed]));
    let after = shifted.remove(removed);
    assert(ranges[removed].min <= ranges[removed].max);
    lemma_tiles_within(ranges, total, removed);
    assert forall|i: int| 0 <= i < after.len() implies (#[trigger] after[i]).min <= after[i].max by {
        let was = if i < removed {
            i
        } else {
            i + 1
        };
        lemma_shifted_range(ranges, total, removed, was);
        assert(ranges[was].min <= ranges[was].max);
    }
    assert forall|i: int| 0 <= i < after.len() - 1 implies (#[trigger] after[i]).max == after[i
        + 1].min by {
        let was = if i < removed {
            i
        } else {
            i + 1
        };
        let next = if i + 1 < removed {
            i + 1
        } else {
            i + 2
        };
        lemma_shifted_range(ranges, total, removed, was);
        lemma_shifted_range(ranges, total, removed, next);
        assert(ranges[was].max == ranges[was + 1].min);
        if was + 1 == removed {
            assert(ranges[removed].max == ranges[removed + 1].min);
        }
    }
    if after.len() > 0 {
        let first = if removed == 0 {
            1int
        } else {
            0int
        };
        let last = if removed == ranges.len() - 1 {
            ranges.len() - 2
        } else {
            ranges.len() - 1
        };
        lemma_shifted_range(ranges, total, removed, first);
        lemma_shifted_range(ranges, total, removed, last);
        if removed == 0 {
            assert(ranges[0].max == ranges[1].min);
        }
        if removed == ranges.len() - 1 {
            assert(ranges[removed - 1].max == ranges[removed - 1 + 1].min);
        }
    }
}

impl SceneView {
    /// The lists without the vertices, indices and material numbers of the given ranges.
    pub open spec fn without_geometry(self, vertices: UintRange, indices: UintRange) -> SceneView {
        let kept = cut(self.indices, indices.min as int, indices.max as int);
        SceneView {
            vertices: cut(self.vertices, vertices.min as int, vertices.max as int),
            indices: Seq::new(kept.len(), |i: int| shifted_index(kept[i], vertices)),
            material_ids: cut(
                self.material_ids,
                indices.min as int / 3,
                indices.max as int / 3,
            ),
            ..self
        }
    }

    /// The models moved together where the given ranges have been taken out.
    pub open spec fn with_shifted_models(self, vertices: UintRange, indices: UintRange) -> SceneView {
        SceneView {
            models: Seq::new(
                self.models.len(),
                |i: int|
                    ModelInfoView {
                        vertices: shifted_range(self.models[i].vertices, vertices),
                        indices: shifted_range(self.models[i].indices, indices),
                        ..self.models[i]
                    },
            ),
            ..self
        }
    }

    /// No model starts within the given ranges, but at their beginnings.
    pub open spec fn starts_outside(self, vertices: UintRange, indices: UintRange) -> bool {
        forall|i: int|
            0 <= i < self.models.len() ==> {
                let model = #[trigger] self.models[i];
                &&& model.vertices.min <= model.vertices.max
                &&& model.indices.min <= model.indices.max
                &&& model.vertices.min > vertices.min ==> model.vertices.min >= vertices.max
                &&& model.indices.min > indices.min ==> model.indices.min >= indices.max
            }
    }
}

proof fn lemma_starts_outside(scene: SceneView, removed: int)
    requires
        scene.laid_out(),
        0 <= removed < scene.models.len(),
    ensures
        scene.starts_outside(scene.models[removed].vertices, scene.models[removed].indices),
        scene.models[removed].vertices.min <= scene.models[removed].vertices.max
            <= scene.vertices.len(),
        scene.models[removed].indices.min <= scene.models[removed].indices.max
            <= scene.indices.len(),
{
    let vertices = vertex_ranges(scene.models);
    let indices = index_ranges(scene.models);
    lemma_tiles_within(vertices, scene.vertices.len(), removed);
    lemma_tiles_within(indices, scene.indices.len(), removed);
    assert forall|i: int| 0 <= i < scene.models.len() implies {
        let model = #[trigger] scene.models[i];
        &&& model.vertices.min <= model.vertices.max
        &&& model.indices.min <= model.indices.max
        &&& model.vertices.min > scene.models[removed].vertices.min ==> model.vertices.min
            >= scene.models[removed].vertices.max
        &&& model.indices.min > scene.models[removed].indices.min ==> model.indices.min
            >= scene.models[removed].indices.max
    } by {
        assert(vertices[i].min <= vertices[i].max);
        assert(indices[i].min <= indices[i].max);
        lemma_shifted_range(vertices, scene.vertices.len(), removed, i);
        lemma_shifted_range(indices, scene.indices.len(), removed, i);
    }
}

/// Models that lie side by side still do after one has been taken out.
pub proof fn law_removing_keeps_models_side_by_side(scene: SceneView, removed: int)
    requires
        scene.laid_out(),
        0 <= removed < scene.models.len(),
    ensures
        scene.without_model(removed).laid_out(),
{
    let after = scene.without_model(removed);
    lemma_starts_outside(scene, removed);
    lemma_tiles_remove(vertex_ranges(scene.models), scene.vertices.len(), removed);
    lemma_tiles_remove(index_ranges(scene.models), scene.indices.len(), removed);
    assert(vertex_ranges(after.models) =~= Seq::new(
        scene.models.len(),
        |i: int|
            shifted_range(vertex_ranges(scene.models)[i], vertex_ranges(scene.models)[removed]),
    ).remove(removed));
    assert(index_ranges(after.models) =~= Seq::new(
        scene.models.len(),
        |i: int|
            shifted_range(index_ranges(scene.models)[i], index_ranges(scene.models)[removed]),
    ).remove(removed));
}

impl Scene {
    /// Takes a model out of the scene. Its vertices, indices, material numbers and transform go, the
    /// models behind it move down, and its triangles give up one use of each of their materials.
    #[verifier::rlimit(40)]
    pub fn remove_model(&mut self, refcounts: &mut Vec<u32>, model_index: usize)
        requires
            old(self).wf(),
            old(self)@.can_remove(old(refcounts)@, model_index as int),
        ensures
            final(self).wf(),
            ({
                let ids = old(self)@.triangle_materials(model_index as int);
                let counts = decremented(old(refcounts)@, ids);
                &&& final(self)@ == old(self)@.without_model(model_index as int).without_unused(
                    counts,
                )
                &&& final(refcounts)@ == keep_used(counts, counts)
            }),
    {
        let ghost k = model_index as int;
        let vertices: UintRange = self.model_info[model_index].model_vertex_range;
        let indices: UintRange = self.model_info[model_index].model_index_range;
        proof {
            lemma_starts_outside(self@, k);
            law_removing_keeps_models_side_by_side(self@, k);
        }
        let removed_material_ids = vstd::slice::slice_to_vec(
            vstd::slice::slice_subrange(
                self.material_ids.as_slice(),
                (indices.min / 3) as usize,
                (indices.max / 3) as usize,
            ),
        );
        self.cut_geometry(vertices, indices);
        self.shift_models(vertices, indices);
        self.drop_entries(model_index);
        proof {
            let after = old(self)@.without_model(k);
            assert(self@.models =~= after.models);
            assert(self@ == after);
        }
        self.decrement_materials(refcounts, &removed_material_ids);
    }

    /// Whether a model can be taken out.
    pub fn can_remove(&self, refcounts: &Vec<u32>, model_index: usize) -> (out: bool)
        requires
            self.wf(),
        ensures
            out == self@.can_remove(refcounts@, model_index as int),
    {
        if model_index >= self.model_info.len() {
            return false;
        }
        let indices: UintRange = self.model_info[model_index].model_index_range;
        proof {
            lemma_starts_outside(self@, model_index as int);
        }
        let start: usize = (indices.min / 3) as usize;
        let end: usize = (indices.max / 3) as usize;
        if end > self.material_ids.len() || refcounts.len() > self.materials.len()
            || refcounts.len() > u32::MAX as usize {
            return false;
        }
        let ghost ids = self@.triangle_materials(model_index as int);
        let mut i: usize = start;
        while i < end
            invariant
                start <= i <= end <= self@.material_ids.len(),
                ids == self@.material_ids.subrange(start as int, end as int),
                forall|j: int|
                    0 <= j < i - start ==> (#[trigger] ids[j]) < refcounts@.len()
                        && refcounts@[ids[j] as int] > 0,
                ids == self@.triangle_materials(model_index as int),
            decreases end - i,
        {
            let id: usize = self.material_ids[i] as usize;
            if id >= refcounts.len() || refcounts[id] == 0 {
                proof {
                    assert(ids[i - start] == self@.material_ids[i as int]);
                }
                return false;
            }
            i = i + 1;
        }
        true
    }

    /// Drops the ranges and the transform of a model.
    fn drop_entries(&mut self, model_index: usize)
        requires
            model_index < old(self)@.models.len(),
            model_index < old(self)@.transforms.len(),
        ensures
            final(self)@ == (SceneView {
                models: old(self)@.models.remove(model_index as int),
                transforms: old(self)@.transforms.remove(model_index as int),
                ..old(self)@
            }),
            final(self).animations == old(self).animations,
    {
        let _info = self.model_info.remove(model_index);
        let _transform = self.transform_matrices.remove(model_index);
        proof {
            assert(self@.models =~= old(self)@.models.remove(model_index as int));
        }
    }

    /// Takes the vertices, indices and material numbers of the given ranges out of the lists.
    fn cut_geometry(&mut self, vertices: UintRange, indices: UintRange)
        requires
            vertices.min <= vertices.max <= old(self)@.vertices.len(),
            indices.min <= indices.max <= old(self)@.indices.len(),
            indices.max as int / 3 <= old(self)@.material_ids.len(),
        ensures
            final(self)@ == old(self)@.without_geometry(vertices, indices),
            final(self).animations == old(self).animations,
    {
        let vert_span: u32 = vertices.max - vertices.min;
        let ghost after = self@.without_geometry(vertices, indices);
        cut_out(&mut self.vertices, vertices.min as usize, vertices.max as usize);
        cut_out(&mut self.indices, indices.min as usize, indices.max as usize);
        cut_out(
            &mut self.material_ids,
            (indices.min / 3) as usize,
            (indices.max / 3) as usize,
        );
        let ghost kept = self.indices@;
        let mut i: usize = 0;
        while i < self.indices.len()
            invariant
                i <= self.indices@.len() == kept.len(),
                vertices.min <= vertices.max,
                vert_span == vertices.max - vertices.min,
                forall|j: int|
                    0 <= j < i ==> #[trigger] self.indices@[j] == shifted_index(kept[j], vertices),
                forall|j: int| i <= j < kept.len() ==> #[trigger] self.indices@[j] == kept[j],
                self@ == (SceneView { indices: self.indices@, ..after }),
                self.animations == old(self).animations,
            decreases kept.len() - i,
        {
            let index: u32 = self.indices[i];
            if index >= vertices.max {
                self.indices.set(i, index - vert_span);
            }
            i = i + 1;
        }
        proof {
            assert(self.indices@ =~= after.indices);
        }
    }

    /// Moves all models down that lie behind the given ranges.
    fn shift_models(&mut self, vertices: UintRange, indices: UintRange)
        requires
            vertices.min <= vertices.max,
            indices.min <= indices.max,
            old(self)@.starts_outside(vertices, indices),
        ensures
            final(self)@ == old(self)@.with_shifted_models(vertices, indices),
            final(self).animations == old(self).animations,
    {
        let vert_span: u32 = vertices.max - vertices.min;
        let index_span: u32 = indices.max - indices.min;
        let ghost models = self@.models;
        let ghost after = self@.with_shifted_models(vertices, indices);
        let mut i: usize = 0;
        while i < self.model_info.len()
            invariant
                i <= self.model_info@.len() == models.len(),
                vert_span == vertices.max - vertices.min,
                index_span == indices.max - indices.min,
                models == old(self)@.models,
                after == old(self)@.with_shifted_models(vertices, indices),
                old(self)@.starts_outside(vertices, indices),
                forall|j: int|
                    0 <= j < i ==> (#[trigger] self.model_info@[j])@ == after.models[j],
                forall|j: int|
                    i <= j < models.len() ==> (#[trigger] self.model_info@[j])@ == models[j],
                self@ == (SceneView { models: self@.models, ..old(self)@ }),
                self.animations == old(self).animations,
            decreases models.len() - i,
        {
            proof {
                assert(self.model_info@[i as int]@ == models[i as int]);
            }
            if self.model_info[i].model_vertex_range.min > vertices.min {
                self.model_info[i].model_vertex_range.min -= vert_span;
                self.model_info[i].model_vertex_range.max -= vert_span;
            }
            if self.model_info[i].model_index_range.min > indices.min {
                self.model_info[i].model_index_range.min -= index_span;
                self.model_info[i].model_index_range.max -= index_span;
            }
            i = i + 1;
        }
        proof {
            assert(self@.models =~= after.models);
        }
    }
}

/// An index of a vertex in front of those that were taken out stays, and one behind them goes down by their
/// number; a stretch moves in the same way.
pub proof fn law_what_is_behind_moves_down(index: u32, range: UintRange, removed: UintRange)
    requires
        removed.min <= removed.max,
        range.min <= range.max,
    ensures
        index < removed.max ==> shifted_index(index, removed) == index,
        index >= removed.max ==> shifted_index(index, removed) + (removed.max - removed.min)
            == index,
        range.min <= removed.min ==> shifted_range(range, removed) == range,
        range.min > removed.min && range.min >= removed.max ==> {
            let moved = shifted_range(range, removed);
            &&& moved.min + (removed.max - removed.min) == range.min
            &&& moved.max + (removed.max - removed.min) == range.max
        },
{
}

/// Taking a model out is taking out its vertices, indices and material numbers, moving the models together,
/// and leaving out its entry and its transform.
pub proof fn law_models_are_taken_out_part_by_part(scene: SceneView, removed: int)
    requires
        0 <= removed < scene.models.len(),
    ensures
        ({
            let vertices = scene.models[removed].vertices;
            let indices = scene.models[removed].indices;
            let parts = scene.without_geometry(vertices, indices).with_shifted_models(
                vertices,
                indices,
            );
            let after = scene.without_model(removed);
            &&& after.vertices == parts.vertices
            &&& after.indices == parts.indices
            &&& after.material_ids == parts.material_ids
            &&& after.models == parts.models.remove(removed)
            &&& after.transforms == scene.transforms.remove(removed)
        }),
{
    let vertices = scene.models[removed].vertices;
    let indices = scene.models[removed].indices;
    let parts = scene.without_geometry(vertices, indices).with_shifted_models(vertices, indices);
    assert(scene.without_model(removed).models =~= parts.models.remove(removed));
}

/// What is left once geometry has been taken out: all that lay in front of it, and behind that all that lay
/// behind it. Nothing else changes.
pub proof fn law_geometry_closes_up(
    scene: SceneView,
    vertices: UintRange,
    indices: UintRange,
    i: int,
)
    requires
        vertices.min <= vertices.max <= scene.vertices.len(),
        indices.min <= indices.max <= scene.indices.len(),
        indices.max / 3 <= scene.material_ids.len(),
    ensures
        ({
            let after = scene.without_geometry(vertices, indices);
            let v = vertices.max - vertices.min;
            let n = indices.max - indices.min;
            let low = indices.min as int / 3;
            let t = indices.max as int / 3 - low;
            &&& after.vertices.len() == scene.vertices.len() - v
            &&& 0 <= i < vertices.min ==> after.vertices[i] == scene.vertices[i]
            &&& vertices.min <= i < after.vertices.len() ==> after.vertices[i] == scene.vertices[i
                + v]
            &&& after.indices.len() == scene.indices.len() - n
            &&& 0 <= i < indices.min ==> after.indices[i] == shifted_index(
                scene.indices[i],
                vertices,
            )
            &&& indices.min <= i < after.indices.len() ==> after.indices[i] == shifted_index(
                scene.indices[i + n],
                vertices,
            )
            &&& after.material_ids.len() == scene.material_ids.len() - t
            &&& 0 <= i < low ==> after.material_ids[i] == scene.material_ids[i]
            &&& low <= i < after.material_ids.len() ==> after.material_ids[i]
                == scene.material_ids[i + t]
            &&& after.materials == scene.materials
            &&& after.map == scene.map
            &&& after.models == scene.models
            &&& after.transforms == scene.transforms
            &&& after.players == scene.players
            &&& after.names == scene.names
        }),
{
}

/// Models that are moved together keep their skeletons and classes, and nothing but their ranges changes.
pub proof fn law_moved_models_stay_the_same(
    scene: SceneView,
    vertices: UintRange,
    indices: UintRange,
    i: int,
)
    requires
        0 <= i < scene.models.len(),
    ensures
        ({
            let after = scene.with_shifted_models(vertices, indices);
            &&& after.models.len() == scene.models.len()
            &&& after.models[i].vertices == shifted_range(scene.models[i].vertices, vertices)
            &&& after.models[i].indices == shifted_range(scene.models[i].indices, indices)
            &&& after.models[i].skeleton == scene.models[i].skeleton
            &&& after.models[i].class == scene.models[i].class
            &&& after.vertices == scene.vertices
            &&& after.indices == scene.indices
            &&& after.material_ids == scene.material_ids
            &&& after.materials == scene.materials
            &&& after.map == scene.map
            &&& after.transforms == scene.transforms
            &&& after.players == scene.players
            &&& after.names == scene.names
        }),
{
}

/// A model can be taken out exactly where it is there, its triangles have material numbers, and each of
/// these counts a material of the scene that is in use.
pub proof fn law_models_with_counted_materials_can_go(
    scene: SceneView,
    counts: Seq<u32>,
    model: int,
)
    ensures
        scene.can_remove(counts, model) ==> {
            let range = scene.models[model].indices;
            &&& 0 <= model < scene.models.len()
            &&& range.max as int / 3 <= scene.material_ids.len()
            &&& counts.len() <= scene.materials.len()
            &&& forall|t: int|
                range.min as int / 3 <= t < range.max as int / 3 ==> (
                #[trigger] scene.material_ids[t]) < counts.len()
                    && counts[scene.material_ids[t] as int] > 0
        },
        0 <= model < scene.models.len() && counts.len() <= scene.materials.len() && counts.len()
            <= u32::MAX && scene.models[model].indices.min <= scene.models[model].indices.max
            && scene.models[model].indices.max as int / 3 <= scene.material_ids.len() && (forall|
            t: int,
        |
            scene.models[model].indices.min as int / 3 <= t < scene.models[model].indices.max as int
                / 3 ==> (#[trigger] scene.material_ids[t]) < counts.len()
                && counts[scene.material_ids[t] as int] > 0) ==> scene.can_remove(counts, model),
{
    let range = scene.models[model].indices;
    let low = range.min as int / 3;
    let high = range.max as int / 3;
    let ids = scene.triangle_materials(model);
    if scene.can_remove(counts, model) {
        assert forall|t: int| low <= t < high implies (#[trigger] scene.material_ids[t])
            < counts.len() && counts[scene.material_ids[t] as int] > 0 by {
            assert(ids[t - low] == scene.material_ids[t]);
        }
    }
    if 0 <= model < scene.models.len() && counts.len() <= scene.materials.len() && counts.len()
        <= u32::MAX && range.min <= range.max && high <= scene.material_ids.len() && (forall|
        t: int,
    |
        low <= t < high ==> (#[trigger] scene.material_ids[t]) < counts.len()
            && counts[scene.material_ids[t] as int] > 0) {
        assert forall|k: int| 0 <= k < ids.len() implies (#[trigger] ids[k]) < counts.len()
            && counts[ids[k] as int] > 0 by {
            assert(ids[k] == scene.material_ids[low + k]);
        }
    }
}

} // verus!
