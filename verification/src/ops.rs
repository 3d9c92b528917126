//! Changes to the scene that wait for the next frame, and what they ask of the device's buffers.

use crate::math::Mat4;
use crate::records::views;
use crate::removal::{decremented, keep_used};
use crate::scene::{
    name_view, Model, ModelClass, ModelView, Scene, SceneView,
};
use vstd::prelude::*;

verus! {

/// A model of the scene, by its name or by its number.
pub enum StringOrInt {
    Str(String),
    Int(usize),
}

/// A change to the scene.
pub enum ModelOp {
    /// Put a model in, of this class, at this place, under this name.
    Add(Model, ModelClass, Mat4, Option<String>),
    /// Take the model with this number out.
    Remove(usize),
}

pub enum OpView {
    Add(ModelView, ModelClass, Mat4, Option<Seq<char>>),
    Remove(usize),
}

impl View for ModelOp {
    type V = OpView;

    open spec fn view(&self) -> OpView {
        match self {
            ModelOp::Add(model, class, transform, name) => OpView::Add(
                model@,
                *class,
                *transform,
                name_view(*name),
            ),
            ModelOp::Remove(index) => OpView::Remove(*index),
        }
    }
}

/// How many of the numbers are this one.
pub open spec fn uses(ids: Seq<u32>, id: int) -> nat
    decreases ids.len(),
{
    if ids.len() == 0 {
        0
    } else {
        uses(ids.drop_last(), id) + if ids.last() == id {
            1nat
        } else {
            0nat
        }
    }
}

pub proof fn lemma_uses_bound(ids: Seq<u32>, id: int)
    ensures
        uses(ids, id) <= ids.len(),
    decreases ids.len(),
{
    if ids.len() > 0 {
        lemma_uses_bound(ids.drop_last(), id);
    }
}

impl SceneView {
    /// Whether the uses of each material can be counted: every triangle has a material that is
    /// there, and there are not too many triangles.
    pub open spec fn countable(self) -> bool {
        self.materials.len() > 0 ==> {
            &&& self.material_ids.len() <= u32::MAX
            &&& forall|i: int|
                0 <= i < self.material_ids.len() ==> (#[trigger] self.material_ids[i])
                    < self.materials.len()
        }
    }

    /// How many triangles use each material.
    pub open spec fn use_counts(self) -> Seq<u32> {
        Seq::new(self.materials.len(), |i: int| uses(self.material_ids, i) as u32)
    }
}

/// Puts a copy of a model on the list of what is to be added.
pub fn queue_add_model(
    pending: &mut Vec<ModelOp>,
    model: &Model,
    model_class: ModelClass,
    transform: Mat4,
    model_name: Option<String>,
)
    ensures
        views(final(pending)@) == views(old(pending)@).push(
            OpView::Add(model@, model_class, transform, name_view(model_name)),
        ),
{
    pending.push(ModelOp::Add(Model::from(model), model_class, transform, model_name));
    proof {
        assert(views(pending@) =~= views(old(pending)@).push(
            OpView::Add(model@, model_class, transform, name_view(model_name)),
        ));
    }
}

/// Puts a model on the list of what is to be removed. Models are not found by name, so that a name
/// changes nothing.
pub fn queue_remove_model(pending: &mut Vec<ModelOp>, scene: &Scene, model_id: StringOrInt)
    ensures
        match model_id {
            StringOrInt::Str(_) => views(final(pending)@) == views(old(pending)@),
            StringOrInt::Int(index) => views(final(pending)@) == views(old(pending)@).push(
                OpView::Remove(index),
            ),
        },
{
    let model_index: usize = match model_id {
        StringOrInt::Str(name) => match scene.search_for_model_id(name) {
            Some(index) => index,
            None => return,
        },
        StringOrInt::Int(index) => index,
    };
    pending.push(ModelOp::Remove(model_index));
    proof {
        assert(views(pending@) =~= views(old(pending)@).push(OpView::Remove(model_index)));
    }
}

/// The model that is moved: the one with this number; for a name, which finds none, the first.
pub fn moved_model(scene: &Scene, model_id: StringOrInt) -> (out: usize)
    ensures
        out == match model_id {
            StringOrInt::Str(_) => 0,
            StringOrInt::Int(index) => index,
        },
{
    match model_id {
        StringOrInt::Str(name) => match scene.search_for_model_id(name) {
            Some(index) => index,
            None => 0,
        },
        StringOrInt::Int(index) => index,
    }
}

impl Scene {
    /// Counts for each material how many triangles use it.
    pub fn recompute_material_refcounts(&self, refcounts: &mut Vec<u32>)
        requires
            self@.countable(),
        ensures
            final(refcounts)@ == self@.use_counts(),
    {
        let total: usize = self.materials.len();
        if total == 0 {
            refcounts.clear();
            proof {
                assert(refcounts@ =~= self@.use_counts());
            }
            return;
        }
        let mut counts: Vec<u32> = vec![0u32; total];
        let ghost ids = self@.material_ids;
        let mut i: usize = 0;
        while i < self.material_ids.len()
            invariant
                i <= ids.len(),
                ids == self.material_ids@,
                total == self@.materials.len(),
                total > 0,
                self@.countable(),
                counts@.len() == total,
                forall|m: int|
                    0 <= m < total ==> #[trigger] counts@[m] == uses(ids.take(i as int), m),
            decreases ids.len() - i,
        {
            proof {
                assert(self@.material_ids[i as int] < self@.materials.len());
                assert(ids.take(i + 1).drop_last() =~= ids.take(i as int));
                assert(ids.take(i + 1).last() == ids[i as int]);
                lemma_uses_bound(ids.take(i as int), ids[i as int] as int);
            }
            let id: usize = self.material_ids[i] as usize;
            let count: u32 = counts[id];
            counts.set(id, count + 1);
            i = i + 1;
        }
        proof {
            assert(ids.take(i as int) =~= ids);
            assert forall|m: int| 0 <= m < total implies #[trigger] counts@[m]
                == self@.use_counts()[m] by {
                lemma_uses_bound(ids, m);
            }
            assert(counts@ =~= self@.use_counts());
        }
        *refcounts = counts;
    }
}

/// A scene and the counts of its materials' uses.
pub struct Counted {
    pub scene: SceneView,
    pub counts: Seq<u32>,
}

impl Counted {
    /// Whether a change can be made.
    pub open spec fn allows(self, op: OpView) -> bool {
        match op {
            OpView::Add(model, class, _, name) => self.scene.has_room_for(model)
                && self.scene.with_model(model, class, name).countable(),
            OpView::Remove(index) => self.scene.can_remove(self.counts, index as int),
        }
    }

    /// After a change. A model that is added is put in its place, and all uses are counted anew.
    pub open spec fn after(self, op: OpView) -> Counted {
        match op {
            OpView::Add(model, class, transform, name) => {
                let added = self.scene.with_model(model, class, name);
                let placed = SceneView {
                    transforms: added.transforms.update(
                        self.scene.models.len() as int,
                        transform,
                    ),
                    ..added
                };
                Counted { scene: placed, counts: placed.use_counts() }
            },
            OpView::Remove(index) => {
                let ids = self.scene.triangle_materials(index as int);
                let counts = decremented(self.counts, ids);
                Counted {
                    scene: self.scene.without_model(index as int).without_unused(counts),
                    counts: keep_used(counts, counts),
                }
            },
        }
    }

    /// Whether changes can be made one after the other.
    pub open spec fn allows_all(self, ops: Seq<OpView>) -> bool
        decreases ops.len(),
    {
        ops.len() == 0 || (self.allows_all(ops.drop_last()) && self.after_all(
            ops.drop_last(),
        ).allows(ops.last()))
    }

    /// After changes that are made one after the other.
    pub open spec fn after_all(self, ops: Seq<OpView>) -> Counted
        decreases ops.len(),
    {
        if ops.len() == 0 {
            self
        } else {
            self.after_all(ops.drop_last()).after(ops.last())
        }
    }

    /// The number that the last model to be added got at that time.
    pub open spec fn last_added(self, ops: Seq<OpView>) -> Option<usize>
        decreases ops.len(),
    {
        if ops.len() == 0 {
            None
        } else {
            match ops.last() {
                OpView::Add(_, _, _, _) => Some(
                    self.after_all(ops.drop_last()).scene.models.len() as usize,
                ),
                OpView::Remove(_) => self.last_added(ops.drop_last()),
            }
        }
    }
}

impl Scene {
    /// Whether a change can be made.
    pub fn allows_op(&self, refcounts: &Vec<u32>, op: &ModelOp) -> (out: bool)
        requires
            self.wf(),
        ensures
            out == (Counted { scene: self@, counts: refcounts@ }).allows(op@),
    {
        match op {
            ModelOp::Add(model, _, _, _) => self.has_room_for(model) && self.stays_countable(
                model,
            ),
            ModelOp::Remove(index) => self.can_remove(refcounts, *index),
        }
    }

    /// Makes a change. Gives the number of the model, if one was added.
    pub fn apply_model_op(&mut self, refcounts: &mut Vec<u32>, op: ModelOp) -> (out: Option<usize>)
        requires
            old(self).wf(),
            (Counted { scene: old(self)@, counts: old(refcounts)@ }).allows(op@),
        ensures
            final(self).wf(),
            (Counted { scene: final(self)@, counts: final(refcounts)@ }) == (Counted {
                scene: old(self)@,
                counts: old(refcounts)@,
            }).after(op@),
            match op@ {
                OpView::Add(_, _, _, _) => out == Some(old(self)@.models.len() as usize),
                OpView::Remove(_) => out is None,
            },
    {
        match op {
            ModelOp::Add(model, class, transform, name) => {
                let model_index: usize = self.model_info.len();
                self.add_model_to_scene(&model, class, name);
                self.set_transform(model_index, transform);
                self.recompute_material_refcounts(refcounts);
                Some(model_index)
            },
            ModelOp::Remove(index) => {
                self.remove_model(refcounts, index);
                None
            },
        }
    }

    /// Makes the changes that wait, one after the other. Gives the number that the last model to be
    /// added got.
    #[verifier::rlimit(40)]
    pub fn apply_pending_model_ops(
        &mut self,
        refcounts: &mut Vec<u32>,
        ops: Vec<ModelOp>,
    ) -> (out: Option<usize>)
        requires
            old(self).wf(),
            (Counted { scene: old(self)@, counts: old(refcounts)@ }).allows_all(views(ops@)),
        ensures
            final(self).wf(),
            (Counted { scene: final(self)@, counts: final(refcounts)@ }) == (Counted {
                scene: old(self)@,
                counts: old(refcounts)@,
            }).after_all(views(ops@)),
            out == (Counted { scene: old(self)@, counts: old(refcounts)@ }).last_added(
                views(ops@),
            ),
    {
        let ghost start = Counted { scene: self@, counts: refcounts@ };
        let ghost all = views(ops@);
        let mut added: Option<usize> = None;
        let mut rest = ops;
        let ghost mut done: int = 0;
        proof {
            assert(all.take(0) =~= Seq::<OpView>::empty());
            assert(all.skip(0) =~= all);
        }
        while rest.len() > 0
            invariant
                0 <= done <= all.len(),
                views(rest@) == all.skip(done),
                start.allows_all(all),
                self.wf(),
                (Counted { scene: self@, counts: refcounts@ }) == start.after_all(all.take(done)),
                added == start.last_added(all.take(done)),
            decreases rest@.len(),
        {
            let ghost before = rest@;
            let op = rest.remove(0);
            proof {
                assert(views(before).len() == before.len());
                assert(views(before)[0] == all.skip(done)[0]);
                assert(op@ == all[done]);
                lemma_allows_prefix(start, all, done + 1);
                assert(all.take(done + 1).drop_last() =~= all.take(done));
                assert(all.take(done + 1).last() == all[done]);
                assert(views(rest@) =~= views(before).drop_first());
                assert(all.skip(done).drop_first() =~= all.skip(done + 1));
            }
            match self.apply_model_op(refcounts, op) {
                Some(index) => {
                    added = Some(index);
                },
                None => {},
            }
            proof {
                done = done + 1;
            }
        }
        proof {
            assert(views(rest@).len() == 0);
            assert(all.take(done) =~= all);
        }
        added
    }
}

/// Changes that can be made can be made up to any point.
proof fn lemma_allows_prefix(start: Counted, ops: Seq<OpView>, n: int)
    requires
        start.allows_all(ops),
        0 <= n <= ops.len(),
    ensures
        start.allows_all(ops.take(n)),
    decreases ops.len() - n,
{
    if n < ops.len() {
        lemma_allows_prefix(start, ops, n + 1);
        assert(ops.take(n + 1).drop_last() =~= ops.take(n));
    } else {
        assert(ops.take(n) =~= ops);
    }
}

/// The uses of materials can be counted exactly where there are no materials, or all triangles have one that
/// is there and can be counted themselves.
pub proof fn law_uses_can_be_counted(scene: SceneView)
    ensures
        scene.materials.len() == 0 ==> scene.countable(),
        scene.materials.len() > 0 ==> (scene.countable() <==> {
            &&& scene.material_ids.len() < 0x1_0000_0000
            &&& forall|i: int|
                0 <= i < scene.material_ids.len() ==> (#[trigger] scene.material_ids[i])
                    < scene.materials.len()
        }),
{
}

/// A change can be made exactly where there is room for a model that is added, and the uses of materials can
/// be counted with it, or where a model that is taken out can be.
pub proof fn law_changes_that_can_be_made(state: Counted, op: OpView)
    ensures
        op matches OpView::Add(model, class, _, name) ==> (state.allows(op)
            <==> state.scene.has_room_for(model) && state.scene.with_model(
            model,
            class,
            name,
        ).countable()),
        op matches OpView::Remove(index) ==> (state.allows(op) <==> state.scene.can_remove(
            state.counts,
            index as int,
        )),
{
}

} // verus!
