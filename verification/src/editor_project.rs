//! The document: a committed pool, a staging pool that edits go to, the
//! selection, and a bounded history of both.

use std::collections::HashMap;
use vstd::prelude::*;
use vstd::std_specs::hash::*;
use vstd::string::*;
use crate::allocation::{is_lowest_free, lowest_free_id, range_is_exhausted};
use crate::cycle_guard::{closes_circle, with_reference, would_create_circular_reference};
use crate::document::{
    highest_id, keep_last, next_id_after, DocumentView, MAX_UNDO_REDO_POOL, MAX_UNDO_REDO_SELECTED,
};
use crate::naming_rules::{
    all_named, each_named, first_free_number, given_names, is_named, names_beside, names_in_use,
    naming_each_object_keeps_names_apart, shown_name_of, with_smart_name,
};
use crate::object::{Object, ObjectView, Reference};
use crate::object_id::{NullableObjectId, ObjectId, NULL_OBJECT_ID};
use crate::object_info::{recorded_names, ObjectInfo};
use crate::object_pool::{
    arranged_by_name, arranged_by_name_keeps_the_objects, can_renumber, distinct_ids, has_id, object_with,
    renumbered_in_place, sorted_by_id, with_object, ObjectPool,
};
use crate::object_type::ObjectType;
use crate::project_file::{
    metadata_of, metadata_views, ObjectMetadataView, ProjectFile, ProjectFileView, ProjectSettings,
    PROJECT_FILE_VERSION,
};
use crate::smart_naming::{
    default_object_name, first_free_is_unique, generate_smart_default_name, is_first_free, smart_name, NameTable,
};

verus! {

/// The pools of a history, as mathematical values.
pub open spec fn pool_views(history: Seq<ObjectPool>) -> Seq<Seq<ObjectView>> {
    Seq::new(history.len(), |i: int| history[i]@)
}

/// `pool` with each of `objects` put into it in turn.
pub open spec fn with_objects(pool: Seq<ObjectView>, objects: Seq<ObjectView>) -> Seq<ObjectView>
    decreases objects.len(),
{
    if objects.len() == 0 {
        pool
    } else {
        with_object(with_objects(pool, objects.drop_last()), objects.last())
    }
}

/// An editable design: its object pool with the history of its changes,
/// the selected object, and the names given to the objects.
pub struct EditorProject {
    pool: ObjectPool,
    mut_pool: ObjectPool,
    undo_pool_history: Vec<ObjectPool>,
    redo_pool_history: Vec<ObjectPool>,
    selected_object: NullableObjectId,
    mut_selected_object: NullableObjectId,
    undo_selected_history: Vec<NullableObjectId>,
    redo_selected_history: Vec<NullableObjectId>,
    mask_size: u16,
    soft_key_size: (u16, u16),
    object_info: HashMap<u16, ObjectInfo>,
    /// The object that is being renamed.
    renaming_object: Option<(egui::Id, ObjectId, String)>,
    /// One more than the highest identifier in the committed pool.
    next_available_id: u16,
    /// The picture object for which an image has been asked for.
    image_load_request: Option<ObjectId>,
}

impl View for EditorProject {
    type V = DocumentView;

    closed spec fn view(&self) -> DocumentView {
        DocumentView {
            pool: self.pool@,
            mut_pool: self.mut_pool@,
            undo_pool_history: pool_views(self.undo_pool_history@),
            redo_pool_history: pool_views(self.redo_pool_history@),
            selected_object: self.selected_object,
            mut_selected_object: self.mut_selected_object,
            undo_selected_history: self.undo_selected_history@,
            redo_selected_history: self.redo_selected_history@,
            mask_size: self.mask_size,
            soft_key_size: self.soft_key_size,
            names: recorded_names(self.object_info@),
            renaming_object: match self.renaming_object {
                Some((ui_id, object_id, name)) => Some((ui_id, object_id, name@)),
                None => None,
            },
            next_available_id: self.next_available_id,
            image_load_request: self.image_load_request,
        }
    }
}

/// One more than the highest identifier in `pool`.
fn next_id_in(pool: &ObjectPool) -> (r: u16)
    ensures
        r == next_id_after(pool@),
{
    let objects = pool.objects();
    let mut highest: u16 = 0;
    let mut i: usize = 0;
    while i < objects.len()
        invariant
            i <= objects@.len(),
            objects@.len() == pool@.len(),
            forall|k: int| 0 <= k < objects@.len() ==> (#[trigger] objects@[k])@ == pool@[k],
            highest == highest_id(pool@.subrange(0, i as int)),
        decreases objects@.len() - i,
    {
        let id = objects[i].id.value();
        assert(pool@.subrange(0, i + 1).drop_last() =~= pool@.subrange(0, i as int));
        assert(pool@.subrange(0, i + 1).last() == pool@[i as int]);
        if id > highest {
            highest = id;
        }
        i += 1;
    }
    assert(pool@.subrange(0, i as int) =~= pool@);
    if highest == u16::MAX {
        u16::MAX
    } else {
        highest + 1
    }
}

/// Drops entries from the front of `history` until it holds `limit` at most.
fn trim_pools(history: &mut Vec<ObjectPool>, limit: usize)
    ensures
        pool_views(final(history)@) == keep_last(pool_views(old(history)@), limit as nat),
{
    let ghost before = pool_views(history@);
    while history.len() > limit
        invariant
            history@.len() <= before.len(),
            history@.len() >= limit || history@.len() == before.len(),
            pool_views(history@) == before.subrange(before.len() - history@.len(), before.len() as int),
        decreases history@.len(),
    {
        let ghost previous = pool_views(history@);
        history.remove(0);
        assert(pool_views(history@) =~= previous.subrange(1, previous.len() as int));
        assert(pool_views(history@) =~= before.subrange(before.len() - history@.len(), before.len() as int));
    }
    assert(pool_views(history@) =~= keep_last(before, limit as nat));
}

/// Drops entries from the front of `history` until it holds `limit` at most.
fn trim_selections(history: &mut Vec<NullableObjectId>, limit: usize)
    ensures
        final(history)@ == keep_last(old(history)@, limit as nat),
{
    let ghost before = history@;
    while history.len() > limit
        invariant
            history@.len() <= before.len(),
            history@.len() >= limit || history@.len() == before.len(),
            history@ == before.subrange(before.len() - history@.len(), before.len() as int),
        decreases history@.len(),
    {
        let ghost previous = history@;
        history.remove(0);
        assert(history@ =~= previous.subrange(1, previous.len() as int));
        assert(history@ =~= before.subrange(before.len() - history@.len(), before.len() as int));
    }
    assert(history@ =~= keep_last(before, limit as nat));
}

impl EditorProject {
    /// A document made from `pool`, clean and without history, selection or
    /// names.
    pub fn new(pool: ObjectPool, mask_size: u16, soft_key_size: (u16, u16)) -> (r: EditorProject)
        ensures
            r@ == DocumentView::fresh(pool@, mask_size, soft_key_size),
    {
        let next_available_id = next_id_in(&pool);
        let mut_pool = pool.clone();
        let r = EditorProject {
            mut_pool,
            pool,
            undo_pool_history: Vec::new(),
            redo_pool_history: Vec::new(),
            selected_object: NullableObjectId(None),
            mut_selected_object: NullableObjectId(None),
            undo_selected_history: Vec::new(),
            redo_selected_history: Vec::new(),
            mask_size,
            soft_key_size,
            object_info: HashMap::new(),
            renaming_object: None,
            next_available_id,
            image_load_request: None,
        };
        proof {
            assert(r@.undo_pool_history =~= Seq::empty());
            assert(r@.redo_pool_history =~= Seq::empty());
            assert(r@.names =~= Map::empty());
        }
        r
    }

    /// The committed pool.
    pub fn get_pool(&self) -> (r: &ObjectPool)
        ensures
            r@ == self@.pool,
    {
        &self.pool
    }

    /// The staging pool, for editing. What is done to it shows in the
    /// committed pool only after a commit.
    pub fn get_mut_pool(&mut self) -> (r: &mut ObjectPool)
        ensures
            r@ == old(self)@.mut_pool,
            final(self)@ == (DocumentView { mut_pool: final(r)@, ..old(self)@ }),
    {
        &mut self.mut_pool
    }

    /// The committed selection.
    pub fn get_selected(&self) -> (r: NullableObjectId)
        ensures
            r == self@.selected_object,
    {
        self.selected_object
    }

    /// The staging selection, for changing. What is set in it becomes the
    /// committed selection only after a commit of the selection.
    pub fn get_mut_selected(&mut self) -> (r: &mut NullableObjectId)
        ensures
            *r == old(self)@.mut_selected_object,
            final(self)@ == (DocumentView { mut_selected_object: *final(r), ..old(self)@ }),
    {
        &mut self.mut_selected_object
    }

    /// The records kept of the objects, by the numbers of their identifiers.
    pub fn object_info(&self) -> (r: &HashMap<u16, ObjectInfo>)
        ensures
            recorded_names(r@) == self@.names,
    {
        &self.object_info
    }

    /// The size of the mask that the design is shown on.
    pub fn mask_size(&self) -> (r: u16)
        ensures
            r == self@.mask_size,
    {
        self.mask_size
    }

    /// Sets the size of the mask that the design is shown on.
    pub fn set_mask_size(&mut self, mask_size: u16)
        ensures
            final(self)@ == (DocumentView { mask_size, ..old(self)@ }),
    {
        self.mask_size = mask_size;
    }

    /// The width and height of a soft key.
    pub fn soft_key_size(&self) -> (r: (u16, u16))
        ensures
            r == self@.soft_key_size,
    {
        self.soft_key_size
    }

    /// One more than the highest identifier in the committed pool, as of the
    /// last commit, undo or redo.
    pub fn next_available_id(&self) -> (r: u16)
        ensures
            r == self@.next_available_id,
    {
        self.next_available_id
    }

    /// Commits the pool: where the staging pool differs from the committed
    /// one, the staging pool becomes the committed pool and the pool that was
    /// committed goes into the undo history. Returns whether anything
    /// changed.
    pub fn update_pool(&mut self) -> (changed: bool)
        ensures
            changed == old(self)@.is_dirty(),
            final(self)@ == old(self)@.after_commit(),
    {
        if self.mut_pool != self.pool {
            let ghost before = self@;
            self.redo_pool_history.clear();
            let committed = self.pool.clone();
            self.undo_pool_history.push(committed);
            assert(pool_views(self.undo_pool_history@) =~= before.undo_pool_history.push(before.pool));
            trim_pools(&mut self.undo_pool_history, MAX_UNDO_REDO_POOL);
            self.pool = self.mut_pool.clone();
            self.update_next_available_id();
            assert(self@.redo_pool_history =~= Seq::empty());
            return true;
        }
        false
    }

    /// Sets the hint for the next identifier from the committed pool.
    fn update_next_available_id(&mut self)
        ensures
            final(self)@ == (DocumentView { next_available_id: next_id_after(old(self)@.pool), ..old(self)@ }),
    {
        self.next_available_id = next_id_in(&self.pool);
    }

    /// Undoes the last committed change of the pool, if there is one.
    pub fn undo(&mut self)
        ensures
            final(self)@ == old(self)@.after_undo(),
    {
        let ghost before = self@;
        if let Some(pool) = self.undo_pool_history.pop() {
            assert(pool_views(self.undo_pool_history@) =~= before.undo_pool_history.drop_last());
            assert(pool@ == before.undo_pool_history.last());
            let mut committed = pool.clone();
            std::mem::swap(&mut committed, &mut self.pool);
            self.redo_pool_history.push(committed);
            assert(pool_views(self.redo_pool_history@) =~= before.redo_pool_history.push(before.pool));
            self.mut_pool = pool;
            self.update_next_available_id();
        }
    }

    /// Whether there is a change of the pool to undo.
    pub fn undo_available(&self) -> (r: bool)
        ensures
            r == (self@.undo_pool_history.len() > 0),
    {
        self.undo_pool_history.len() > 0
    }

    /// Does again the change of the pool that was undone last, if there is
    /// one.
    pub fn redo(&mut self)
        ensures
            final(self)@ == old(self)@.after_redo(),
    {
        let ghost before = self@;
        if let Some(pool) = self.redo_pool_history.pop() {
            assert(pool_views(self.redo_pool_history@) =~= before.redo_pool_history.drop_last());
            assert(pool@ == before.redo_pool_history.last());
            let mut committed = pool.clone();
            std::mem::swap(&mut committed, &mut self.pool);
            self.undo_pool_history.push(committed);
            assert(pool_views(self.undo_pool_history@) =~= before.undo_pool_history.push(before.pool));
            self.mut_pool = pool;
            self.update_next_available_id();
        }
    }

    /// Whether there is an undone change of the pool to do again.
    pub fn redo_available(&self) -> (r: bool)
        ensures
            r == (self@.redo_pool_history.len() > 0),
    {
        self.redo_pool_history.len() > 0
    }

    /// Commits the selection: where the staging selection differs from the
    /// committed one, it becomes the committed selection, whether it is
    /// empty or not, and the selection that was committed goes into the undo
    /// history of selections. Returns whether anything changed.
    pub fn update_selected(&mut self) -> (changed: bool)
        ensures
            changed == (old(self)@.mut_selected_object != old(self)@.selected_object),
            final(self)@ == old(self)@.after_select(),
    {
        let mut_selected = self.mut_selected_object;
        if mut_selected != self.selected_object {
            self.redo_selected_history.clear();
            self.undo_selected_history.push(self.selected_object);
            trim_selections(&mut self.undo_selected_history, MAX_UNDO_REDO_SELECTED);
            self.selected_object = mut_selected;
            return true;
        }
        false
    }

    /// Goes back to the selection before, if there is one.
    pub fn set_previous_selected(&mut self)
        ensures
            final(self)@ == old(self)@.after_previous_selected(),
    {
        if let Some(selected) = self.undo_selected_history.pop() {
            self.redo_selected_history.push(self.selected_object);
            self.selected_object = selected;
            self.mut_selected_object = selected;
        }
    }

    /// Goes forward again to the selection that was gone back from, if there
    /// is one.
    pub fn set_next_selected(&mut self)
        ensures
            final(self)@ == old(self)@.after_next_selected(),
    {
        if let Some(selected) = self.redo_selected_history.pop() {
            self.undo_selected_history.push(self.selected_object);
            self.selected_object = selected;
            self.mut_selected_object = selected;
        }
    }

    /// The range of identifiers that objects of the given type may have.
    pub fn object_id_range(object_type: ObjectType) -> (r: std::ops::RangeInclusive<u16>)
        ensures
            r@.start == object_type.range_first(),
            r@.end == object_type.range_last(),
            !r@.exhausted,
    {
        let (first, last) = object_type.id_bounds();
        std::ops::RangeInclusive::new(first, last)
    }

    /// The lowest identifier in the range of `object_type` that no object of
    /// the committed pool has, or nothing when the whole range is taken. The
    /// pool stays as it is: the identifier is claimed only when an object is
    /// put into the pool under it.
    pub fn first_free_object_id(&self, object_type: ObjectType) -> (r: Option<ObjectId>)
        ensures
            match r {
                Some(id) => is_lowest_free(self@.pool, Seq::empty(), object_type, id.spec_value()),
                None => range_is_exhausted(self@.pool, Seq::empty(), object_type),
            },
    {
        let reserved: Vec<ObjectId> = Vec::new();
        lowest_free_id(&self.pool, &reserved, object_type)
    }

    /// The lowest identifier in the range of `object_type` that no object of
    /// the committed pool has. The range must not be taken up entirely.
    pub fn allocate_object_id_for_type(&self, object_type: ObjectType) -> (r: ObjectId)
        requires
            !range_is_exhausted(self@.pool, Seq::empty(), object_type),
        ensures
            is_lowest_free(self@.pool, Seq::empty(), object_type, r.spec_value()),
            object_type.owns(r.spec_value()),
            !has_id(self@.pool, r.spec_value()),
    {
        match self.first_free_object_id(object_type) {
            Some(id) => id,
            None => ObjectId::default(),
        }
    }

    /// Whether the selected object can be copied under a new identifier:
    /// whether nothing that the committed pool holds is selected, or the
    /// range of the selected object's type has an identifier left.
    pub open spec fn can_copy_selected_as_new(document: DocumentView) -> bool {
        document.selected_object.0.is_some() && has_id(document.pool, document.selected_object.spec_value())
            ==> !range_is_exhausted(
            document.pool,
            Seq::empty(),
            object_with(document.pool, document.selected_object.spec_value()).object_type,
        )
    }

    /// A copy of the selected object as it is, its identifier included, or
    /// nothing where no object of the committed pool is selected.
    pub fn copy_selected_objects_exact(&self) -> (r: Vec<Object>)
        ensures
            r@.len() == (if self@.selected_object.0.is_some() && has_id(
                self@.pool,
                self@.selected_object.spec_value(),
            ) {
                1nat
            } else {
                0nat
            }),
            r@.len() == 1 ==> r@[0]@ == object_with(self@.pool, self@.selected_object.spec_value()),
    {
        let mut result: Vec<Object> = Vec::new();
        if let Some(id) = self.selected_object.0 {
            if let Some(obj) = self.pool.object_by_id(id) {
                result.push(obj.clone());
            }
        }
        result
    }

    /// A copy of the selected object under the lowest free identifier of its
    /// type, or nothing where no object of the committed pool is selected.
    /// Only the copy's own identifier is new: the references it holds point
    /// where those of the selected object point. The document stays as it is.
    pub fn copy_selected_objects_as_new(&mut self) -> (r: Vec<Object>)
        requires
            Self::can_copy_selected_as_new(old(self)@),
        ensures
            final(self)@ == old(self)@,
            r@.len() == (if old(self)@.selected_object.0.is_some() && has_id(
                old(self)@.pool,
                old(self)@.selected_object.spec_value(),
            ) {
                1nat
            } else {
                0nat
            }),
            r@.len() == 1 ==> {
                let selected = object_with(old(self)@.pool, old(self)@.selected_object.spec_value());
                &&& r@[0]@ == (ObjectView { id: r@[0]@.id, ..selected })
                &&& is_lowest_free(old(self)@.pool, Seq::empty(), selected.object_type, r@[0]@.id)
            },
    {
        let mut result: Vec<Object> = Vec::new();
        if let Some(id) = self.selected_object.0 {
            if let Some(obj) = self.pool.object_by_id(id) {
                let mut new_obj = obj.clone();
                let new_id = self.allocate_object_id_for_type(obj.object_type());
                new_obj.set_id(new_id);
                result.push(new_obj);
            }
        }
        result
    }

    /// Puts `objects` into the staging pool, each under its own identifier,
    /// and commits the pool. An object whose identifier the staging pool
    /// holds already takes the place of the object that had it.
    pub fn paste_objects(&mut self, objects: Vec<Object>)
        ensures
            final(self)@ == (DocumentView {
                mut_pool: with_objects(old(self)@.mut_pool, Seq::new(objects@.len(), |i: int| objects@[i]@)),
                ..old(self)@
            }).after_commit(),
    {
        let ghost views = Seq::new(objects@.len(), |i: int| objects@[i]@);
        let ghost before = self@;
        let mut i: usize = 0;
        while i < objects.len()
            invariant
                i <= objects@.len(),
                views == Seq::new(objects@.len(), |k: int| objects@[k]@),
                self@ == (DocumentView { mut_pool: with_objects(before.mut_pool, views.subrange(0, i as int)), ..before }),
            decreases objects@.len() - i,
        {
            assert(views.subrange(0, i + 1).drop_last() =~= views.subrange(0, i as int));
            assert(views.subrange(0, i + 1).last() == objects@[i as int]@);
            self.mut_pool.add(objects[i].clone());
            i += 1;
        }
        assert(views.subrange(0, i as int) =~= views);
        self.update_pool();
    }

    /// Brings a new object into the design: `new_obj` under the lowest free
    /// identifier of its type, with the name `name`. The object goes into
    /// the staging pool, which is put in the order of the identifiers, and
    /// becomes the staging selection. Where the range of the type has no
    /// identifier left nothing is done and nothing is returned; otherwise
    /// the outcome is the identifier given to the object.
    pub fn add_new_object(&mut self, new_obj: Object, name: String) -> (r: Option<ObjectId>)
        ensures
            match r {
                None => {
                    &&& range_is_exhausted(old(self)@.pool, Seq::empty(), new_obj@.object_type)
                    &&& final(self)@ == old(self)@
                },
                Some(id) => {
                    &&& is_lowest_free(old(self)@.pool, Seq::empty(), new_obj@.object_type, id.spec_value())
                    &&& sorted_by_id(final(self)@.mut_pool)
                    &&& final(self)@.mut_pool.to_multiset() == with_object(
                        old(self)@.mut_pool,
                        ObjectView { id: id.spec_value(), ..new_obj@ },
                    ).to_multiset()
                    &&& final(self)@ == (DocumentView {
                        mut_pool: final(self)@.mut_pool,
                        names: old(self)@.names.insert(id.spec_value(), Some(name@)),
                        mut_selected_object: NullableObjectId(Some(id)),
                        ..old(self)@
                    })
                },
            },
    {
        let id = match self.first_free_object_id(new_obj.object_type) {
            Some(id) => id,
            None => {
                return None;
            },
        };
        let mut new_obj = new_obj;
        new_obj.set_id(id);
        self.mut_pool.add(new_obj);
        self.mut_pool.sort_by_id();
        self.set_object_name(id, name);
        self.mut_selected_object = NullableObjectId(Some(id));
        Some(id)
    }

    /// Gives the object `old_id` of the staging pool the identifier
    /// `new_id`, unless the staging pool holds no such object or holds
    /// another one under `new_id`. The record kept of the object moves with
    /// it, and the object becomes the staging selection. Returns whether the
    /// object was renumbered; where it was not, the document stays as it is.
    pub fn change_object_id(&mut self, old_id: ObjectId, new_id: ObjectId) -> (changed: bool)
        ensures
            changed == can_renumber(old(self)@.mut_pool, old_id.spec_value(), new_id.spec_value()),
            final(self)@ == (if changed {
                DocumentView {
                    mut_pool: renumbered_in_place(old(self)@.mut_pool, old_id.spec_value(), new_id.spec_value()),
                    mut_selected_object: NullableObjectId(Some(new_id)),
                    names: if old(self)@.names.contains_key(old_id.spec_value()) {
                        old(self)@.names.remove(old_id.spec_value()).insert(
                            new_id.spec_value(),
                            old(self)@.names[old_id.spec_value()],
                        )
                    } else {
                        old(self)@.names
                    },
                    ..old(self)@
                }
            } else {
                old(self)@
            }),
    {
        if !self.mut_pool.change_id(old_id, new_id) {
            return false;
        }
        self.update_object_id_for_info(old_id, new_id);
        self.mut_selected_object = NullableObjectId(Some(new_id));
        true
    }

    /// Puts every object of `imported` into the staging pool, each under
    /// the identifier it has, and commits the pool.
    pub fn import_pool(&mut self, imported: ObjectPool)
        ensures
            final(self)@ == (DocumentView {
                mut_pool: with_objects(old(self)@.mut_pool, imported@),
                ..old(self)@
            }).after_commit(),
    {
        let ghost before = self@;
        let objects = imported.objects();
        let mut i: usize = 0;
        while i < objects.len()
            invariant
                i <= objects@.len() == imported@.len(),
                forall|k: int| 0 <= k < objects@.len() ==> (#[trigger] objects@[k])@ == imported@[k],
                self@ == (DocumentView { mut_pool: with_objects(before.mut_pool, imported@.subrange(0, i as int)), ..before }),
            decreases objects@.len() - i,
        {
            assert(imported@.subrange(0, i + 1).drop_last() =~= imported@.subrange(0, i as int));
            assert(imported@.subrange(0, i + 1).last() == objects@[i as int]@);
            self.mut_pool.add(objects[i].clone());
            i += 1;
        }
        assert(imported@.subrange(0, i as int) =~= imported@);
        self.update_pool();
    }

    /// Gives the object `parent_id` of the staging pool one more reference,
    /// at the end of those it has, unless that would close a circle. A
    /// structural reference closes a circle where its target is the object
    /// itself or contains the object, directly or through other objects. An
    /// edit that is refused leaves the document as it is.
    pub fn add_reference(&mut self, parent_id: ObjectId, reference: Reference) -> (r: Result<(), EditError>)
        ensures
            match r {
                Ok(_) => {
                    &&& has_id(old(self)@.mut_pool, parent_id.spec_value())
                    &&& !closes_circle(old(self)@.mut_pool, parent_id.spec_value(), reference)
                    &&& final(self)@ == (DocumentView {
                        mut_pool: with_reference(old(self)@.mut_pool, parent_id.spec_value(), reference),
                        ..old(self)@
                    })
                },
                Err(EditError::MissingObject) => {
                    &&& !has_id(old(self)@.mut_pool, parent_id.spec_value())
                    &&& final(self)@ == old(self)@
                },
                Err(EditError::CircularReference) => {
                    &&& has_id(old(self)@.mut_pool, parent_id.spec_value())
                    &&& closes_circle(old(self)@.mut_pool, parent_id.spec_value(), reference)
                    &&& final(self)@ == old(self)@
                },
            },
    {
        let mut changed = match self.mut_pool.object_by_id(parent_id) {
            Some(object) => object.clone(),
            None => {
                return Err(EditError::MissingObject);
            },
        };
        if reference.structural {
            if let Some(child_id) = reference.target.0 {
                if would_create_circular_reference(&self.mut_pool, parent_id, child_id) {
                    proof {
                        if parent_id == child_id {
                            assert(child_id.spec_value() == parent_id.spec_value());
                        }
                    }
                    return Err(EditError::CircularReference);
                }
                proof {
                    if child_id.spec_value() == parent_id.spec_value() {
                        ObjectId::same_value_same_id(parent_id, child_id);
                    }
                }
            }
        }
        changed.references.push(reference);
        self.mut_pool.add(changed);
        Ok(())
    }

    /// Asks for an image to be loaded for the picture object `object_id`. A
    /// request that has not been taken yet is replaced.
    pub fn request_image_load(&mut self, object_id: ObjectId)
        ensures
            final(self)@ == (DocumentView { image_load_request: Some(object_id), ..old(self)@ }),
    {
        self.image_load_request = Some(object_id);
    }

    /// Takes the request for an image, if there is one, and leaves none.
    pub fn take_image_load_request(&mut self) -> (r: Option<ObjectId>)
        ensures
            r == old(self)@.image_load_request,
            final(self)@ == (DocumentView { image_load_request: None, ..old(self)@ }),
    {
        let request = self.image_load_request;
        self.image_load_request = None;
        request
    }

    /// Starts renaming the object `object_id` in the widget `ui_id`, with
    /// `name` as the name typed so far.
    pub fn set_renaming_object(&mut self, ui_id: egui::Id, object_id: ObjectId, name: String)
        ensures
            final(self)@ == (DocumentView { renaming_object: Some((ui_id, object_id, name@)), ..old(self)@ }),
    {
        self.renaming_object = Some((ui_id, object_id, name));
    }

    /// The object that is being renamed, with the widget that renames it and
    /// the name typed so far, if an object is being renamed.
    pub fn get_renaming_object(&self) -> (r: Option<(egui::Id, ObjectId, String)>)
        ensures
            r.is_some() == self@.renaming_object.is_some(),
            r.is_some() ==> self@.renaming_object == Some((r.unwrap().0, r.unwrap().1, r.unwrap().2@)),
    {
        match &self.renaming_object {
            Some((ui_id, object_id, name)) => Some((*ui_id, *object_id, name.clone())),
            None => None,
        }
    }

    /// The names after a renaming has ended: where the outcome is to be
    /// stored and a record is kept of the object that was being renamed,
    /// that record holds the name typed; all else is as it was.
    pub open spec fn names_after_renaming(document: DocumentView, store: bool) -> Map<u16, Option<Seq<char>>> {
        match document.renaming_object {
            Some((_, object_id, name)) if store && document.names.contains_key(object_id.spec_value()) => {
                document.names.insert(object_id.spec_value(), Some(name))
            },
            _ => document.names,
        }
    }

    /// Ends the renaming of an object. With `store` the name typed becomes
    /// the object's name, provided a record is kept of the object; without
    /// it the name typed is dropped.
    pub fn finish_renaming_object(&mut self, store: bool)
        ensures
            final(self)@ == (DocumentView {
                names: Self::names_after_renaming(old(self)@, store),
                renaming_object: None,
                ..old(self)@
            }),
    {
        broadcast use group_hash_axioms;

        let ghost before = self@;
        let mut renaming: Option<(egui::Id, ObjectId, String)> = None;
        std::mem::swap(&mut renaming, &mut self.renaming_object);
        if store {
            if let Some((_, object_id, name)) = renaming {
                let key = object_id.value();
                if self.object_info.contains_key(&key) {
                    self.object_info.insert(key, ObjectInfo { name: Some(name) });
                }
            }
        }
        assert(self@.names =~= Self::names_after_renaming(before, store));
    }

    /// Moves the record kept of the object `old_id` to the identifier
    /// `new_id`, where there is such a record.
    pub fn update_object_id_for_info(&mut self, old_id: ObjectId, new_id: ObjectId)
        ensures
            final(self)@ == (DocumentView {
                names: if old(self)@.names.contains_key(old_id.spec_value()) {
                    old(self)@.names.remove(old_id.spec_value()).insert(
                        new_id.spec_value(),
                        old(self)@.names[old_id.spec_value()],
                    )
                } else {
                    old(self)@.names
                },
                ..old(self)@
            }),
    {
        broadcast use group_hash_axioms;

        let ghost before = self@;
        let old_key = old_id.value();
        if let Some(info) = self.object_info.remove(&old_key) {
            self.object_info.insert(new_id.value(), info);
            assert(self@.names =~= before.names.remove(old_id.spec_value()).insert(
                new_id.spec_value(),
                before.names[old_id.spec_value()],
            ));
        } else {
            assert(self@.names =~= before.names);
        }
    }

    /// The record kept of `object`. Where none was kept, one without a name
    /// is kept from now on.
    pub fn get_object_info(&mut self, object: &Object) -> (r: ObjectInfo)
        ensures
            final(self)@ == (DocumentView {
                names: if old(self)@.names.contains_key(object@.id) {
                    old(self)@.names
                } else {
                    old(self)@.names.insert(object@.id, None)
                },
                ..old(self)@
            }),
            r.spec_name() == final(self)@.names[object@.id],
    {
        broadcast use group_hash_axioms;

        let ghost before = self@;
        let key = object.id.value();
        if !self.object_info.contains_key(&key) {
            self.object_info.insert(key, ObjectInfo::new(object));
            assert(self@.names =~= before.names.insert(object@.id, None));
        }
        match self.object_info.get(&key) {
            Some(info) => info.clone(),
            None => ObjectInfo::new(object),
        }
    }

    /// Gives the object `object_id` the name `name`, whether or not a record
    /// was kept of it.
    pub fn set_object_name(&mut self, object_id: ObjectId, name: String)
        ensures
            final(self)@ == (DocumentView {
                names: old(self)@.names.insert(object_id.spec_value(), Some(name@)),
                ..old(self)@
            }),
    {
        broadcast use group_hash_axioms;

        let ghost before = self@;
        self.object_info.insert(object_id.value(), ObjectInfo { name: Some(name) });
        assert(self@.names =~= before.names.insert(object_id.spec_value(), Some(name@)));
    }

    /// The name given to the object `object_id`, if a record with a name is
    /// kept of it.
    pub fn object_name(&self, object_id: ObjectId) -> (r: Option<String>)
        ensures
            self@.names.contains_key(object_id.spec_value()) && self@.names[object_id.spec_value()].is_some()
                <==> r.is_some(),
            r.is_some() ==> self@.names[object_id.spec_value()] == Some(r.unwrap()@),
    {
        broadcast use group_hash_axioms;

        let key = object_id.value();
        match self.object_info.get(&key) {
            Some(info) => match &info.name {
                Some(name) => Some(name.clone()),
                None => None,
            },
            None => None,
        }
    }

    /// The name under which `object` is shown: the name recorded for it, or
    /// its default name where none is recorded.
    pub fn shown_name(&self, object: &Object) -> (r: String)
        ensures
            r@ == shown_name_of(self@.names, object@),
    {
        broadcast use group_hash_axioms;

        let key = object.id.value();
        match self.object_info.get(&key) {
            Some(info) => info.get_name(object),
            None => default_object_name(key, object.object_type),
        }
    }

    /// The names under which the objects of the committed pool are shown,
    /// each with the type of the first object shown under it.
    pub fn get_all_object_names(&self) -> (r: NameTable)
        ensures
            r@ == names_in_use(self@.pool, self@.names),
    {
        let mut names = NameTable::new();
        let objects = self.pool.objects();
        let mut i: usize = 0;
        while i < objects.len()
            invariant
                i <= objects@.len(),
                objects@.len() == self@.pool.len(),
                forall|k: int| 0 <= k < objects@.len() ==> (#[trigger] objects@[k])@ == self@.pool[k],
                names@ == names_in_use(self@.pool.subrange(0, i as int), self@.names),
            decreases objects@.len() - i,
        {
            assert(self@.pool.subrange(0, i + 1).drop_last() =~= self@.pool.subrange(0, i as int));
            assert(self@.pool.subrange(0, i + 1).last() == objects@[i as int]@);
            let name = self.shown_name(&objects[i]);
            names.insert_if_absent(name, objects[i].object_type);
            i += 1;
        }
        assert(self@.pool.subrange(0, i as int) =~= self@.pool);
        names
    }

    /// A name for a new object of the given type under which no object of
    /// the committed pool is shown: the first generated name of the type
    /// that is free.
    pub fn generate_smart_name_for_new_object(&self, object_type: ObjectType) -> (r: String)
        ensures
            !names_in_use(self@.pool, self@.names).dom().contains(r@),
            r@ == smart_name(
                object_type,
                first_free_number(names_in_use(self@.pool, self@.names).dom(), object_type),
            ),
            is_first_free(
                names_in_use(self@.pool, self@.names).dom(),
                object_type,
                first_free_number(names_in_use(self@.pool, self@.names).dom(), object_type),
            ),
    {
        let existing_names = self.get_all_object_names();
        let name = generate_smart_default_name(object_type, &existing_names);
        proof {
            let used = existing_names@.dom();
            let n = choose|n: nat| is_first_free(used, object_type, n) && name@ == #[trigger] smart_name(object_type, n);
            first_free_is_unique(used, object_type, n, first_free_number(used, object_type));
        }
        name
    }

    /// The names in use when a name is sought for the object numbered
    /// `unnamed`: those under which the other objects of the committed pool
    /// are shown.
    fn names_beside_object(&self, unnamed: u16) -> (r: NameTable)
        ensures
            r@ == names_beside(self@.pool, self@.names, unnamed),
    {
        broadcast use group_hash_axioms;

        let mut names = NameTable::new();
        let objects = self.pool.objects();
        let mut i: usize = 0;
        while i < objects.len()
            invariant
                i <= objects@.len(),
                objects@.len() == self@.pool.len(),
                forall|k: int| 0 <= k < objects@.len() ==> (#[trigger] objects@[k])@ == self@.pool[k],
                names@ == names_beside(self@.pool.subrange(0, i as int), self@.names, unnamed),
            decreases objects@.len() - i,
        {
            assert(self@.pool.subrange(0, i + 1).drop_last() =~= self@.pool.subrange(0, i as int));
            assert(self@.pool.subrange(0, i + 1).last() == objects@[i as int]@);
            let key = objects[i].id.value();
            if key != unnamed || self.object_info.contains_key(&key) {
                let name = self.shown_name(&objects[i]);
                names.insert_if_absent(name, objects[i].object_type);
            }
            i += 1;
        }
        assert(self@.pool.subrange(0, i as int) =~= self@.pool);
        names
    }

    /// Whether a name is recorded for the object `object_id`.
    pub fn has_name(&self, object_id: ObjectId) -> (r: bool)
        ensures
            r == is_named(self@.names, object_id.spec_value()),
    {
        broadcast use group_hash_axioms;

        let key = object_id.value();
        match self.object_info.get(&key) {
            Some(info) => info.name.is_some(),
            None => false,
        }
    }

    /// Names the object `id` of the given type unless it has a name.
    fn name_object(&mut self, id: ObjectId, object_type: ObjectType)
        ensures
            final(self)@ == (DocumentView {
                names: with_smart_name(old(self)@.pool, old(self)@.names, id.spec_value(), object_type),
                ..old(self)@
            }),
    {
        broadcast use group_hash_axioms;

        if self.has_name(id) {
            return ;
        }
        let ghost before = self@;
        let existing_names = self.names_beside_object(id.value());
        let new_name = generate_smart_default_name(object_type, &existing_names);
        proof {
            let used = existing_names@.dom();
            let n = choose|n: nat| is_first_free(used, object_type, n) && new_name@ == #[trigger] smart_name(object_type, n);
            first_free_is_unique(used, object_type, n, first_free_number(used, object_type));
        }
        self.object_info.insert(id.value(), ObjectInfo { name: Some(new_name) });
        assert(self@.names =~= with_smart_name(before.pool, before.names, id.spec_value(), object_type));
    }

    /// Names `object` unless it has a name: it gets the first generated name
    /// of its type under which no other object of the committed pool is
    /// shown. An object that has a name keeps it, and the document stays as
    /// it is.
    pub fn apply_smart_naming_to_object(&mut self, object: &Object)
        ensures
            final(self)@ == (DocumentView {
                names: with_smart_name(old(self)@.pool, old(self)@.names, object@.id, object@.object_type),
                ..old(self)@
            }),
    {
        self.name_object(object.id, object.object_type);
    }

    /// Names every object of the committed pool that has no name, in the
    /// order of the pool. Each gets the first generated name of its type
    /// that no object of the pool has been given. Names that objects have
    /// stay as they are.
    pub fn apply_smart_naming_to_all_objects(&mut self)
        ensures
            final(self)@ == (DocumentView {
                names: all_named(old(self)@.pool, old(self)@.names, old(self)@.pool.len()),
                ..old(self)@
            }),
    {
        broadcast use group_hash_axioms;

        let ghost before = self@;
        let ghost pool = self@.pool;
        proof {
            use_type_invariant(&self.pool);
        }
        let count = self.pool.len();
        let mut existing_names = NameTable::new();
        let mut i: usize = 0;
        while i < count
            invariant
                i <= count == pool.len(),
                self@ == before,
                pool == before.pool,
                existing_names@.dom() =~= given_names(pool.subrange(0, i as int), before.names),
            decreases count - i,
        {
            let objects = self.pool.objects();
            let object = &objects[i];
            let key = object.id.value();
            let ghost shorter = pool.subrange(0, i as int);
            let ghost longer = pool.subrange(0, i + 1);
            let ghost used = existing_names@.dom();
            match self.object_info.get(&key) {
                Some(info) => match &info.name {
                    Some(name) => {
                        existing_names.insert_if_absent(name.clone(), object.object_type);
                    },
                    None => {},
                },
                None => {},
            }
            proof {
                let grown = if is_named(before.names, pool[i as int].id) {
                    used.insert(before.names[pool[i as int].id].unwrap())
                } else {
                    used
                };
                assert(existing_names@.dom() =~= grown);
                assert forall|name: Seq<char>| grown.contains(name) <==> given_names(longer, before.names).contains(name) by {
                    if grown.contains(name) {
                        if used.contains(name) {
                            let k = choose|k: int|
                                0 <= k < shorter.len() && is_named(before.names, (#[trigger] shorter[k]).id)
                                    && before.names[shorter[k].id] == Some(name);
                            assert(longer[k] == shorter[k]);
                        } else {
                            assert(longer[i as int] == pool[i as int]);
                        }
                    }
                    if given_names(longer, before.names).contains(name) {
                        let k = choose|k: int|
                            0 <= k < longer.len() && is_named(before.names, (#[trigger] longer[k]).id)
                                && before.names[longer[k].id] == Some(name);
                        if k < i {
                            assert(shorter[k] == longer[k]);
                        }
                    }
                }
            }
            i += 1;
        }
        assert(pool.subrange(0, count as int) =~= pool);
        let mut k: usize = 0;
        while k < count
            invariant
                k <= count == pool.len(),
                pool == before.pool,
                distinct_ids(pool),
                self@ == (DocumentView { names: all_named(pool, before.names, k as nat), ..before }),
                existing_names@.dom() =~= given_names(pool, self@.names),
            decreases count - k,
        {
            let objects = self.pool.objects();
            let object_type = objects[k].object_type;
            let id = objects[k].id;
            let ghost so_far = self@.names;
            assert(pool[k as int].id == id.spec_value() && pool[k as int].object_type == object_type);
            if !self.has_name(id) {
                let new_name = generate_smart_default_name(object_type, &existing_names);
                proof {
                    let used = existing_names@.dom();
                    let n = choose|n: nat| is_first_free(used, object_type, n) && new_name@ == #[trigger] smart_name(object_type, n);
                    first_free_is_unique(used, object_type, n, first_free_number(used, object_type));
                }
                let ghost used = existing_names@.dom();
                existing_names.insert_if_absent(new_name.clone(), object_type);
                self.object_info.insert(id.value(), ObjectInfo { name: Some(new_name) });
                proof {
                    let now = so_far.insert(id.spec_value(), Some(new_name@));
                    assert(self@.names =~= now);
                    assert(existing_names@.dom() =~= used.insert(new_name@));
                    assert forall|name: Seq<char>| used.insert(new_name@).contains(name) <==> given_names(pool, now).contains(name) by {
                        if used.insert(new_name@).contains(name) {
                            if name == new_name@ {
                                assert(is_named(now, pool[k as int].id) && now[pool[k as int].id] == Some(name));
                            } else {
                                let j = choose|j: int|
                                    0 <= j < pool.len() && is_named(so_far, (#[trigger] pool[j]).id) && so_far[pool[j].id]
                                        == Some(name);
                                assert(pool[j].id != id.spec_value());
                                assert(is_named(now, pool[j].id) && now[pool[j].id] == Some(name));
                            }
                        }
                        if given_names(pool, now).contains(name) {
                            let j = choose|j: int|
                                0 <= j < pool.len() && is_named(now, (#[trigger] pool[j]).id) && now[pool[j].id] == Some(
                                    name,
                                );
                            if pool[j].id != id.spec_value() {
                                assert(is_named(so_far, pool[j].id) && so_far[pool[j].id] == Some(name));
                            }
                        }
                    }
                }
            }
            k += 1;
        }
    }

    /// The object whose selection a stored project records: the staging
    /// selection where there is one, else the committed selection.
    pub open spec fn selection_to_store(document: DocumentView) -> Option<ObjectId> {
        if document.mut_selected_object.0.is_some() {
            document.mut_selected_object.0
        } else {
            document.selected_object.0
        }
    }

    /// The project file of this document: `object_pool_data`, which is the
    /// committed pool in its interchange form, with the records of the
    /// objects, the mask size and the selection.
    pub fn save_project(&self, object_pool_data: Vec<u8>) -> (r: ProjectFile)
        ensures
            r@ == (ProjectFileView {
                version: PROJECT_FILE_VERSION,
                object_pool_data: object_pool_data@,
                object_metadata: metadata_of(self@.names),
                settings: ProjectSettings {
                    mask_size: self@.mask_size,
                    last_selected: match Self::selection_to_store(self@) {
                        Some(id) => Some(id.spec_value()),
                        None => None,
                    },
                },
            }),
    {
        let selected = if self.mut_selected_object.0.is_some() {
            self.mut_selected_object.0
        } else {
            self.selected_object.0
        };
        ProjectFile::new(object_pool_data, &self.object_info, self.mask_size, selected)
    }

    /// The names that a project file restores: for each object of `pool`
    /// that the file has a record of, the name in that record.
    pub open spec fn restored_names(pool: Seq<ObjectView>, metadata: Map<u16, ObjectMetadataView>) -> Map<
        u16,
        Option<Seq<char>>,
    > {
        Map::new(|id: u16| has_id(pool, id) && metadata.contains_key(id), |id: u16| metadata[id].name)
    }

    /// The selection that a project file restores: the object it records as
    /// selected last, provided `pool` holds it.
    pub open spec fn restored_selection(pool: Seq<ObjectView>, last_selected: Option<u16>) -> NullableObjectId {
        match last_selected {
            Some(id) if id != NULL_OBJECT_ID && has_id(pool, id) => NullableObjectId(Some(ObjectId::spec_new(id))),
            _ => NullableObjectId(None),
        }
    }

    /// The document that a project file with the records `metadata` and the
    /// settings `settings` gives for the pool `pool`: clean and without
    /// history, with the names of the file restored, every object without a
    /// restored name named by the naming service in the order of the pool,
    /// and the selection of the file restored.
    pub open spec fn loaded(
        pool: Seq<ObjectView>,
        metadata: Map<u16, ObjectMetadataView>,
        settings: ProjectSettings,
        soft_key_size: (u16, u16),
    ) -> DocumentView {
        DocumentView {
            names: each_named(pool, Self::restored_names(pool, metadata), pool.len()),
            selected_object: Self::restored_selection(pool, settings.last_selected),
            mut_selected_object: Self::restored_selection(pool, settings.last_selected),
            ..DocumentView::fresh(pool, settings.mask_size, soft_key_size)
        }
    }

    /// The document stored in `project`, given `decoded`, the pool that the
    /// pool data of the file decodes to, and the size of a soft key. The
    /// load fails, with the reason in words, where the file's pool is
    /// refused.
    pub fn load_project(project: &ProjectFile, decoded: ObjectPool, soft_key_size: (u16, u16)) -> (r: Result<
        EditorProject,
        String,
    >)
        ensures
            match r {
                Ok(document) => ProjectFile::pool_fault(project@.object_pool_data, decoded@).is_none() && document@
                    == Self::loaded(decoded@, project@.object_metadata, project@.settings, soft_key_size),
                Err(reason) => ProjectFile::pool_fault(project@.object_pool_data, decoded@) == Some(reason@),
            },
    {
        broadcast use group_hash_axioms;

        let pool = match project.load_pool(decoded) {
            Ok(pool) => pool,
            Err(reason) => {
                return Err(reason);
            },
        };
        let settings = *project.get_settings();
        let mut editor_project = EditorProject::new(pool, settings.mask_size, soft_key_size);
        let ghost fresh = editor_project@;
        let ghost pool_view = fresh.pool;
        let ghost file_names = project@.object_metadata;
        let metadata = project.get_metadata();
        let count = editor_project.pool.len();
        proof {
            use_type_invariant(&editor_project.pool);
        }
        assert(fresh.names =~= Self::restored_names(pool_view.subrange(0, 0), file_names));
        let mut i: usize = 0;
        while i < count
            invariant
                i <= count == pool_view.len(),
                pool_view == editor_project@.pool,
                distinct_ids(pool_view),
                metadata_views(metadata@) == file_names,
                editor_project@ == (DocumentView {
                    names: Self::restored_names(pool_view.subrange(0, i as int), file_names),
                    ..fresh
                }),
            decreases count - i,
        {
            let ghost before = editor_project@.names;
            let key = editor_project.pool.objects()[i].id.value();
            assert(pool_view[i as int].id == key);
            match metadata.get(&key) {
                Some(meta) => {
                    let name = match &meta.name {
                        Some(name) => Some(name.clone()),
                        None => None,
                    };
                    editor_project.object_info.insert(key, ObjectInfo { name });
                },
                None => {},
            }
            proof {
                let shorter = pool_view.subrange(0, i as int);
                let longer = pool_view.subrange(0, i + 1);
                assert forall|id: u16| has_id(longer, id) <==> has_id(shorter, id) || id == key by {
                    if has_id(longer, id) {
                        let k = choose|k: int| 0 <= k < longer.len() && (#[trigger] longer[k]).id == id;
                        if k < i {
                            assert(shorter[k].id == id);
                        }
                    }
                    if has_id(shorter, id) {
                        let k = choose|k: int| 0 <= k < shorter.len() && (#[trigger] shorter[k]).id == id;
                        assert(longer[k].id == id);
                    }
                    if id == key {
                        assert(longer[i as int].id == id);
                    }
                }
                assert(file_names.contains_key(key) <==> metadata@.contains_key(key));
                assert(file_names.contains_key(key) ==> file_names[key] == metadata@[key]@);
                assert(before == Self::restored_names(shorter, file_names));
                let after = editor_project@.names;
                if metadata@.contains_key(key) {
                    assert(after =~= before.insert(key, metadata@[key]@.name));
                } else {
                    assert(after =~= before);
                }
                assert forall|id: u16| after.contains_key(id) <==> Self::restored_names(longer, file_names).contains_key(
                    id,
                ) by {}
                assert forall|id: u16| after.contains_key(id) implies after[id] == Self::restored_names(longer, file_names)[id] by {}
                assert(after =~= Self::restored_names(longer, file_names));
            }
            i += 1;
        }
        assert(pool_view.subrange(0, count as int) =~= pool_view);
        let ghost restored = editor_project@.names;
        let mut k: usize = 0;
        while k < count
            invariant
                k <= count == pool_view.len(),
                pool_view == editor_project@.pool,
                editor_project@ == (DocumentView { names: each_named(pool_view, restored, k as nat), ..fresh }),
            decreases count - k,
        {
            let objects = editor_project.pool.objects();
            let id = objects[k].id;
            let object_type = objects[k].object_type;
            assert(pool_view[k as int].id == id.spec_value() && pool_view[k as int].object_type == object_type);
            editor_project.name_object(id, object_type);
            k += 1;
        }
        if let Some(selected_id) = settings.last_selected {
            if let Ok(id) = ObjectId::new(selected_id) {
                if editor_project.pool.contains(id) {
                    editor_project.selected_object = NullableObjectId(Some(id));
                    editor_project.mut_selected_object = NullableObjectId(Some(id));
                }
            }
        }
        Ok(editor_project)
    }

    /// The names under which the objects of `pool` are shown, in the order
    /// of the pool.
    pub open spec fn shown_names(pool: Seq<ObjectView>, names: Map<u16, Option<Seq<char>>>) -> Seq<Seq<char>> {
        Seq::new(pool.len(), |i: int| shown_name_of(names, pool[i]))
    }

    /// The staging pool in the order that `key` names: by identifier, the
    /// lowest first, or by the names under which the objects are shown, in
    /// the order of the dictionary, objects of one name staying in the order
    /// they had.
    pub open spec fn is_sorted_by(document: DocumentView, key: SortKey, sorted: Seq<ObjectView>) -> bool {
        match key {
            SortKey::Id => sorted_by_id(sorted) && sorted.to_multiset() == document.mut_pool.to_multiset(),
            SortKey::Name => sorted == arranged_by_name(
                document.mut_pool,
                Self::shown_names(document.mut_pool, document.names),
                document.mut_pool.len(),
            ),
        }
    }

    /// Puts the objects of the staging pool in the order that `key` names.
    /// The pool holds the same objects afterwards.
    pub fn sort_objects_by(&mut self, key: SortKey)
        ensures
            Self::is_sorted_by(old(self)@, key, final(self)@.mut_pool),
            final(self)@.mut_pool.to_multiset() == old(self)@.mut_pool.to_multiset(),
            final(self)@ == (DocumentView { mut_pool: final(self)@.mut_pool, ..old(self)@ }),
    {
        match key {
            SortKey::Id => self.mut_pool.sort_by_id(),
            SortKey::Name => {
                let ghost pool = self@.mut_pool;
                let ghost shown = Self::shown_names(self@.mut_pool, self@.names);
                let mut names: Vec<String> = Vec::new();
                let count = self.mut_pool.len();
                let mut i: usize = 0;
                while i < count
                    invariant
                        i <= count == pool.len(),
                        self@ == old(self)@,
                        pool == self@.mut_pool,
                        shown == Self::shown_names(pool, self@.names),
                        names@.len() == i,
                        forall|k: int| 0 <= k < i ==> (#[trigger] names@[k])@ == shown[k],
                    decreases count - i,
                {
                    let name = self.shown_name(&self.mut_pool.objects()[i]);
                    names.push(name);
                    i += 1;
                }
                proof {
                    use_type_invariant(&self.mut_pool);
                    assert(Seq::new(names@.len(), |k: int| names@[k]@) =~= shown);
                    arranged_by_name_keeps_the_objects(pool, shown, pool.len());
                }
                self.mut_pool.sort_by_names(&names);
            },
        }
    }
}

/// What a project file keeps of a document. The document that is loaded
/// from the file that a document was saved to holds the pool that is given
/// back to it and the mask size as they were; every object of the pool that
/// had a name has that name, and every other one has been given a name; and
/// the object that was selected is selected again, provided the pool holds
/// it.
pub proof fn saved_project_loads_back(document: DocumentView, soft_key_size: (u16, u16))
    requires
        distinct_ids(document.pool),
    ensures
        ({
            let settings = ProjectSettings {
                mask_size: document.mask_size,
                last_selected: match EditorProject::selection_to_store(document) {
                    Some(id) => Some(id.spec_value()),
                    None => None,
                },
            };
            let loaded = EditorProject::loaded(document.pool, metadata_of(document.names), settings, soft_key_size);
            &&& loaded.pool == document.pool
            &&& loaded.mut_pool == document.pool
            &&& loaded.mask_size == document.mask_size
            &&& forall|i: int|
                0 <= i < document.pool.len() ==> is_named(loaded.names, (#[trigger] document.pool[i]).id) && (is_named(
                    document.names,
                    document.pool[i].id,
                ) ==> loaded.names[document.pool[i].id] == document.names[document.pool[i].id])
            &&& match EditorProject::selection_to_store(document) {
                Some(id) if id.spec_value() != NULL_OBJECT_ID && has_id(document.pool, id.spec_value()) => loaded.selected_object
                    == NullableObjectId(Some(id)),
                _ => loaded.selected_object == NullableObjectId(None),
            }
        }),
{
    broadcast use ObjectId::is_spec_new_of_value;

    let pool = document.pool;
    let restored = EditorProject::restored_names(pool, metadata_of(document.names));
    naming_each_object_keeps_names_apart(pool, restored);
    assert forall|i: int| 0 <= i < pool.len() && is_named(document.names, (#[trigger] pool[i]).id) implies is_named(
        restored,
        pool[i].id,
    ) && restored[pool[i].id] == document.names[pool[i].id] by {
        assert(has_id(pool, pool[i].id));
    }
}

impl Default for EditorProject {
    /// A document of an empty pool.
    fn default() -> (r: EditorProject)
        ensures
            r@ == DocumentView::fresh(Seq::empty(), 0, (0, 0)),
    {
        EditorProject::new(ObjectPool::new(), 0, (0, 0))
    }
}

/// Why an edit was refused.
#[derive(Clone, Copy, Debug, PartialEq, Eq, Structural)]
pub enum EditError {
    /// The pool holds no object with the identifier given.
    MissingObject,
    /// The edit would make an object contain itself.
    CircularReference,
}

/// What a pool can be put in order by.
#[derive(Clone, Copy, Debug, PartialEq, Eq, Structural)]
pub enum SortKey {
    /// The identifiers of the objects, lowest first.
    Id,
    /// The names under which the objects are shown, in the order of the
    /// dictionary.
    Name,
}

} // verus!
