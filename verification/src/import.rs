//! Import: merging chosen objects of another pool, with all that they
//! contain, into a document under fresh identifiers.

use std::collections::HashMap;
use vstd::prelude::*;
use vstd::std_specs::hash::*;
use vstd::string::*;
use crate::allocation::{is_free, is_lowest_free, is_reserved, lowest_free_id, range_is_exhausted};
use crate::cycle_guard::{reaches_from_any, search_from};
use crate::document::DocumentView;
use crate::editor_project::{with_objects, EditorProject, SortKey};
use crate::naming_rules::{first_free_number, is_named, names_in_use};
use crate::object::{Object, ObjectView, Reference};
use crate::object_id::{NullableObjectId, ObjectId};
use crate::object_pool::{distinct_ids, has_id, sorted_by_id, ObjectPool};
use crate::object_type::ObjectType;
use crate::remap::{remap_object_references, remapped};
use crate::smart_naming::{
    first_free_exists, first_free_is_unique, generate_smart_default_name, is_first_free, smart_name,
};

verus! {

/// Why an import did not take place.
#[derive(Clone, Copy, Debug, PartialEq, Eq, Structural)]
pub enum ImportError {
    /// Every identifier in the range of this object type is taken.
    RangeExhausted(ObjectType),
}

/// Whether `object` is imported when `selected` is chosen from `imported`:
/// whether it is chosen or contained in something chosen, and is no working
/// set.
pub open spec fn survives(imported: Seq<ObjectView>, selected: Seq<ObjectId>, object: ObjectView) -> bool {
    reaches_from_any(imported, selected, object.id) && object.object_type != ObjectType::WorkingSet
}

/// The objects among the first `n` of `imported` that are imported when
/// `selected` is chosen, in the order of the pool.
pub open spec fn survivors(imported: Seq<ObjectView>, selected: Seq<ObjectId>, n: nat) -> Seq<ObjectView>
    decreases n,
{
    if n == 0 || n > imported.len() {
        Seq::empty()
    } else {
        let earlier = survivors(imported, selected, (n - 1) as nat);
        if survives(imported, selected, imported[n - 1]) {
            earlier.push(imported[n - 1])
        } else {
            earlier
        }
    }
}

/// The lowest free number in the range of a type, where there is one.
pub open spec fn lowest_free_number(pool: Seq<ObjectView>, reserved: Seq<ObjectId>, object_type: ObjectType) -> u16 {
    choose|id: u16| is_lowest_free(pool, reserved, object_type, id)
}

/// The identifiers given to `objects` for a place in `pool`, one after the
/// other: each gets the lowest identifier in the range of its type that
/// neither an object of `pool` nor an earlier one of `objects` has. Where
/// the range of a type has none left, that type is the outcome.
pub open spec fn assignment(pool: Seq<ObjectView>, objects: Seq<ObjectView>) -> Result<Seq<ObjectId>, ObjectType>
    decreases objects.len(),
{
    if objects.len() == 0 {
        Ok(Seq::empty())
    } else {
        match assignment(pool, objects.drop_last()) {
            Err(object_type) => Err(object_type),
            Ok(earlier) => {
                let object_type = objects.last().object_type;
                if range_is_exhausted(pool, earlier, object_type) {
                    Err(object_type)
                } else {
                    Ok(earlier.push(ObjectId::spec_new(lowest_free_number(pool, earlier, object_type))))
                }
            },
        }
    }
}

/// The map from the numbers of the first `n` of `objects` to the
/// identifiers given to them.
pub open spec fn id_map_of(objects: Seq<ObjectView>, ids: Seq<ObjectId>, n: nat) -> Map<u16, ObjectId>
    decreases n,
{
    if n == 0 || n > objects.len() || n > ids.len() {
        Map::empty()
    } else {
        id_map_of(objects, ids, (n - 1) as nat).insert(objects[n - 1].id, ids[n - 1])
    }
}

/// `objects` as they are put into the document: each under the identifier
/// given to it, with every reference to one of `objects` pointing at the
/// identifier given to that one.
pub open spec fn renumbered(objects: Seq<ObjectView>, ids: Seq<ObjectId>) -> Seq<ObjectView> {
    Seq::new(
        objects.len(),
        |k: int|
            remapped(
                ObjectView { id: ids[k].spec_value(), ..objects[k] },
                id_map_of(objects, ids, objects.len()),
            ),
    )
}

/// The names and the names in use after the first `n` imported objects have
/// been seen to. An object whose identifier has a name recorded that is not
/// in use keeps that name. Any other gets the first generated name of its
/// type that is not in use. Either way the name is in use from then on.
pub open spec fn import_named(
    names: Map<u16, Option<Seq<char>>>,
    used: Set<Seq<char>>,
    objects: Seq<ObjectView>,
    n: nat,
) -> (Map<u16, Option<Seq<char>>>, Set<Seq<char>>)
    decreases n,
{
    if n == 0 || n > objects.len() {
        (names, used)
    } else {
        let (names_so_far, used_so_far) = import_named(names, used, objects, (n - 1) as nat);
        let object = objects[n - 1];
        if is_named(names_so_far, object.id) && !used_so_far.contains(names_so_far[object.id].unwrap()) {
            (names_so_far, used_so_far.insert(names_so_far[object.id].unwrap()))
        } else {
            let name = smart_name(object.object_type, first_free_number(used_so_far, object.object_type));
            (names_so_far.insert(object.id, Some(name)), used_so_far.insert(name))
        }
    }
}

/// The staging selection after an import: the first object of the pool,
/// or none for an empty pool.
pub open spec fn first_object(pool: Seq<ObjectView>) -> NullableObjectId {
    if pool.len() > 0 {
        NullableObjectId(Some(ObjectId::spec_new(pool[0].id)))
    } else {
        NullableObjectId(None)
    }
}

/// At most one number is the lowest free one.
pub proof fn lowest_free_is_unique(
    pool: Seq<ObjectView>,
    reserved: Seq<ObjectId>,
    object_type: ObjectType,
    a: u16,
    b: u16,
)
    requires
        is_lowest_free(pool, reserved, object_type, a),
        is_lowest_free(pool, reserved, object_type, b),
    ensures
        a == b,
{
    if a < b {
        assert(!is_free(pool, reserved, a));
    } else if b < a {
        assert(!is_free(pool, reserved, b));
    }
}

/// The objects of `imported` that are imported when `selected` is chosen,
/// copied in the order of the pool.
fn collect_survivors(imported: &ObjectPool, selected: &Vec<ObjectId>) -> (r: Vec<Object>)
    ensures
        r@.len() == survivors(imported@, selected@, imported@.len()).len(),
        forall|k: int| 0 <= k < r@.len() ==> (#[trigger] r@[k])@ == survivors(imported@, selected@, imported@.len())[k],
{
    let (_, reached) = search_from(imported, selected, None);
    let objects = imported.objects();
    let mut out: Vec<Object> = Vec::new();
    let mut i: usize = 0;
    while i < objects.len()
        invariant
            i <= objects@.len() == imported@.len(),
            reached@.len() == 65536,
            forall|k: int| 0 <= k < objects@.len() ==> (#[trigger] objects@[k])@ == imported@[k],
            forall|x: u16| #[trigger] reached@[x as int] <==> reaches_from_any(imported@, selected@, x),
            out@.len() == survivors(imported@, selected@, i as nat).len(),
            forall|k: int| 0 <= k < out@.len() ==> (#[trigger] out@[k])@ == survivors(imported@, selected@, i as nat)[k],
        decreases objects@.len() - i,
    {
        let object = &objects[i];
        let id = object.id.value();
        assert(reached@[id as int] <==> reaches_from_any(imported@, selected@, id));
        if reached[id as usize] && object.object_type != ObjectType::WorkingSet {
            out.push(object.clone());
        }
        i += 1;
    }
    out
}

impl EditorProject {
    /// Merges into the document the objects of `imported` that `selected`
    /// chooses, with all that they contain.
    ///
    /// What is imported are the objects of `imported` that are chosen or are
    /// contained, directly or through other objects, in something chosen;
    /// working sets are left out. Each gets the lowest identifier in the
    /// range of its type that neither the committed pool nor an object
    /// imported before it holds, and every reference among the imported
    /// objects is made to point at the new identifier of its target. The
    /// objects go into the staging pool, which is then put in the order of
    /// the identifiers and committed. Each imported object keeps the name
    /// recorded for its new identifier if that name is not in use, and gets
    /// a generated name otherwise. The first object of the pool becomes the
    /// staging selection.
    ///
    /// Where the range of a type has no identifier left the import does not
    /// take place and the document stays as it is. Otherwise the outcome is
    /// the list of the imported objects' old identifiers, each with the new
    /// one.
    pub fn import_objects(&mut self, imported: &ObjectPool, selected: &Vec<ObjectId>) -> (r: Result<
        Vec<(ObjectId, ObjectId)>,
        ImportError,
    >)
        ensures
            match r {
                Err(ImportError::RangeExhausted(object_type)) => {
                    &&& final(self)@ == old(self)@
                    &&& assignment(old(self)@.pool, survivors(imported@, selected@, imported@.len())) == Err::<
                        Seq<ObjectId>,
                        ObjectType,
                    >(object_type)
                },
                Ok(pairs) => {
                    let objects = survivors(imported@, selected@, imported@.len());
                    let ids = assignment(old(self)@.pool, objects);
                    &&& ids.is_ok()
                    &&& pairs@.len() == objects.len()
                    &&& forall|k: int|
                        0 <= k < pairs@.len() ==> (#[trigger] pairs@[k]).0.spec_value() == objects[k].id && pairs@[k].1
                            == ids.unwrap()[k]
                    &&& Self::is_import_result(old(self)@, final(self)@, objects, ids.unwrap())
                },
            },
    {
        broadcast use group_hash_axioms;

        let ghost before = self@;
        let ghost objects = survivors(imported@, selected@, imported@.len());
        let mut chosen = collect_survivors(imported, selected);
        let count = chosen.len();
        // The new identifiers, each found with those before it set aside.
        let mut new_ids: Vec<ObjectId> = Vec::new();
        let mut id_map: HashMap<u16, ObjectId> = HashMap::new();
        let mut pairs: Vec<(ObjectId, ObjectId)> = Vec::new();
        let mut i: usize = 0;
        while i < count
            invariant
                i <= count == objects.len() == chosen@.len(),
                self@ == before,
                before == old(self)@,
                objects == survivors(imported@, selected@, imported@.len()),
                forall|k: int| 0 <= k < chosen@.len() ==> (#[trigger] chosen@[k])@ == objects[k],
                assignment(before.pool, objects.subrange(0, i as int)) == Ok::<Seq<ObjectId>, ObjectType>(new_ids@),
                new_ids@.len() == i,
                pairs@.len() == i,
                forall|k: int|
                    0 <= k < i ==> (#[trigger] pairs@[k]).0.spec_value() == objects[k].id && pairs@[k].1 == new_ids@[k],
                id_map@ == id_map_of(objects, new_ids@, i as nat),
            decreases count - i,
        {
            let object_type = chosen[i].object_type;
            let old_id = chosen[i].id;
            let ghost shorter = objects.subrange(0, i as int);
            let ghost longer = objects.subrange(0, i + 1);
            assert(longer.drop_last() =~= shorter);
            assert(longer.last() == objects[i as int]);
            match lowest_free_id(self.get_pool(), &new_ids, object_type) {
                Some(new_id) => {
                    proof {
                        lowest_free_is_unique(
                            before.pool,
                            new_ids@,
                            object_type,
                            new_id.spec_value(),
                            lowest_free_number(before.pool, new_ids@, object_type),
                        );
                        ObjectId::is_spec_new_of_value(new_id);
                        assert(!range_is_exhausted(before.pool, new_ids@, object_type)) by {
                            assert(is_free(before.pool, new_ids@, new_id.spec_value()));
                        }
                    }
                    let ghost earlier_ids = new_ids@;
                    new_ids.push(new_id);
                    id_map.insert(old_id.value(), new_id);
                    pairs.push((old_id, new_id));
                    proof {
                        assert(new_ids@ =~= earlier_ids.push(new_id));
                        Self::id_map_ignores_later_ids(objects, earlier_ids, new_ids@, i as nat);
                    }
                },
                None => {
                    proof {
                        assert(assignment(before.pool, longer) == Err::<Seq<ObjectId>, ObjectType>(object_type));
                        Self::assignment_fails_for_good(before.pool, objects, (i + 1) as nat, object_type);
                        assert(objects.subrange(0, objects.len() as int) =~= objects);
                    }
                    return Err(ImportError::RangeExhausted(object_type));
                },
            }
            i += 1;
        }
        assert(objects.subrange(0, count as int) =~= objects);
        let ghost ids = new_ids@;
        let ghost new_objects = renumbered(objects, ids);
        // The names in use, to which those of the imported objects are added.
        let mut existing_names = self.get_all_object_names();
        let ghost used_at_first = existing_names@.dom();
        let mut k: usize = 0;
        while k < count
            invariant
                k <= count == objects.len() == chosen@.len(),
                new_ids@ == ids,
                ids.len() == count,
                new_objects == renumbered(objects, ids),
                id_map@ == id_map_of(objects, ids, count as nat),
                forall|j: int| k <= j < chosen@.len() ==> (#[trigger] chosen@[j])@ == objects[j],
                forall|j: int| 0 <= j < k ==> (#[trigger] chosen@[j])@ == new_objects[j],
                used_at_first == names_in_use(before.pool, before.names).dom(),
                self@ == (DocumentView {
                    mut_pool: with_objects(before.mut_pool, new_objects.subrange(0, k as int)),
                    names: import_named(before.names, used_at_first, new_objects, k as nat).0,
                    ..before
                }),
                existing_names@.dom() == import_named(before.names, used_at_first, new_objects, k as nat).1,
            decreases count - k,
        {
            let new_id = new_ids[k];
            let object_type = chosen[k].object_type;
            chosen[k].set_id(new_id);
            remap_object_references(&mut chosen[k], &id_map);
            assert(chosen@[k as int]@ == new_objects[k as int]);
            let ghost names_so_far = self@.names;
            let ghost used_so_far = existing_names@.dom();
            let kept = match self.object_name(new_id) {
                Some(name) => {
                    if existing_names.contains_name(&name) {
                        false
                    } else {
                        existing_names.insert_if_absent(name, object_type);
                        true
                    }
                },
                None => false,
            };
            if !kept {
                let name = generate_smart_default_name(object_type, &existing_names);
                proof {
                    let n = choose|n: nat|
                        is_first_free(used_so_far, object_type, n) && name@ == #[trigger] smart_name(object_type, n);
                    first_free_is_unique(used_so_far, object_type, n, first_free_number(used_so_far, object_type));
                }
                existing_names.insert_if_absent(name.clone(), object_type);
                self.set_object_name(new_id, name);
            }
            let copy = chosen[k].clone();
            self.get_mut_pool().add(copy);
            proof {
                assert(new_objects.subrange(0, k + 1).drop_last() =~= new_objects.subrange(0, k as int));
                assert(new_objects.subrange(0, k + 1).last() == new_objects[k as int]);
                assert(existing_names@.dom() =~= import_named(before.names, used_at_first, new_objects, (k + 1) as nat).1);
                assert(self@.names =~= import_named(before.names, used_at_first, new_objects, (k + 1) as nat).0);
            }
            k += 1;
        }
        assert(new_objects.subrange(0, count as int) =~= new_objects);
        self.sort_objects_by(SortKey::Id);
        self.update_pool();
        let first = match self.get_pool().objects().first() {
            Some(object) => {
                proof {
                    ObjectId::is_spec_new_of_value(object.id);
                }
                NullableObjectId(Some(object.id))
            },
            None => NullableObjectId(None),
        };
        *self.get_mut_selected() = first;
        Ok(pairs)
    }

    /// Whether `after` is what an import makes of `before`, when `objects`
    /// are what is imported and `ids` the identifiers given to them.
    pub open spec fn is_import_result(
        before: DocumentView,
        after: DocumentView,
        objects: Seq<ObjectView>,
        ids: Seq<ObjectId>,
    ) -> bool {
        let merged = with_objects(before.mut_pool, renumbered(objects, ids));
        let names = import_named(
            before.names,
            names_in_use(before.pool, before.names).dom(),
            renumbered(objects, ids),
            objects.len(),
        ).0;
        let staged = DocumentView { mut_pool: after.mut_pool, names, ..before };
        &&& sorted_by_id(after.mut_pool)
        &&& after.mut_pool.to_multiset() == merged.to_multiset()
        &&& after == (DocumentView { mut_selected_object: first_object(staged.after_commit().pool), ..staged.after_commit() })
    }

    /// Once the identifiers have run out for one object, they have for every
    /// longer list of objects.
    proof fn assignment_fails_for_good(pool: Seq<ObjectView>, objects: Seq<ObjectView>, n: nat, object_type: ObjectType)
        requires
            n <= objects.len(),
            assignment(pool, objects.subrange(0, n as int)) == Err::<Seq<ObjectId>, ObjectType>(object_type),
        ensures
            assignment(pool, objects.subrange(0, objects.len() as int)) == Err::<Seq<ObjectId>, ObjectType>(object_type),
        decreases objects.len() - n,
    {
        if n < objects.len() {
            assert(objects.subrange(0, (n + 1) as int).drop_last() =~= objects.subrange(0, n as int));
            Self::assignment_fails_for_good(pool, objects, n + 1, object_type);
        }
    }

    /// The map of the first `n` objects looks at the first `n` identifiers
    /// only.
    proof fn id_map_ignores_later_ids(objects: Seq<ObjectView>, ids: Seq<ObjectId>, more_ids: Seq<ObjectId>, n: nat)
        requires
            n <= ids.len() <= more_ids.len(),
            n <= objects.len(),
            forall|k: int| 0 <= k < n ==> ids[k] == more_ids[k],
        ensures
            id_map_of(objects, ids, n) == id_map_of(objects, more_ids, n),
        decreases n,
    {
        if n > 0 {
            Self::id_map_ignores_later_ids(objects, ids, more_ids, (n - 1) as nat);
        }
    }
}

/// A range that is not exhausted has a lowest free number.
pub proof fn lowest_free_exists(pool: Seq<ObjectView>, reserved: Seq<ObjectId>, object_type: ObjectType)
    requires
        !range_is_exhausted(pool, reserved, object_type),
    ensures
        is_lowest_free(pool, reserved, object_type, lowest_free_number(pool, reserved, object_type)),
{
    let free = choose|id: u16| object_type.owns(id) && is_free(pool, reserved, id);
    lowest_free_from(pool, reserved, object_type, object_type.range_first(), free);
}

proof fn lowest_free_from(pool: Seq<ObjectView>, reserved: Seq<ObjectId>, object_type: ObjectType, from: u16, free: u16)
    requires
        object_type.range_first() <= from <= free,
        object_type.owns(free),
        is_free(pool, reserved, free),
        forall|lower: u16| object_type.owns(lower) && lower < from ==> !#[trigger] is_free(pool, reserved, lower),
    ensures
        exists|id: u16| is_lowest_free(pool, reserved, object_type, id),
    decreases free - from,
{
    if is_free(pool, reserved, from) {
        assert(is_lowest_free(pool, reserved, object_type, from));
    } else {
        lowest_free_from(pool, reserved, object_type, (from + 1) as u16, free);
    }
}

/// The identifiers given to objects that are imported are fresh: each lies
/// in the range of its object's type, no object of the pool has it, and no
/// two of them are the same.
pub proof fn assigned_ids_are_fresh(pool: Seq<ObjectView>, objects: Seq<ObjectView>)
    requires
        assignment(pool, objects).is_ok(),
    ensures
        assignment(pool, objects).unwrap().len() == objects.len(),
        forall|k: int|
            0 <= k < objects.len() ==> objects[k].object_type.owns((#[trigger] assignment(pool, objects).unwrap()[k]).spec_value())
                && !has_id(pool, assignment(pool, objects).unwrap()[k].spec_value()),
        forall|k: int, m: int|
            0 <= k < m < objects.len() ==> (#[trigger] assignment(pool, objects).unwrap()[k]).spec_value() != (
            #[trigger] assignment(pool, objects).unwrap()[m]).spec_value(),
    decreases objects.len(),
{
    broadcast use ObjectId::spec_new_has_value;

    if objects.len() > 0 {
        let shorter = objects.drop_last();
        assigned_ids_are_fresh(pool, shorter);
        let earlier = assignment(pool, shorter).unwrap();
        let object_type = objects.last().object_type;
        lowest_free_exists(pool, earlier, object_type);
        let number = lowest_free_number(pool, earlier, object_type);
        let ids = assignment(pool, objects).unwrap();
        assert(ids == earlier.push(ObjectId::spec_new(number)));
        assert forall|k: int, m: int| 0 <= k < m < objects.len() implies (#[trigger] ids[k]).spec_value() != (
        #[trigger] ids[m]).spec_value() by {
            if m == objects.len() - 1 {
                assert(ids[k] == earlier[k]);
                assert(!is_reserved(earlier, number));
            } else {
                assert(ids[k] == earlier[k] && ids[m] == earlier[m]);
            }
        }
        assert forall|k: int| 0 <= k < objects.len() implies objects[k].object_type.owns((#[trigger] ids[k]).spec_value())
            && !has_id(pool, ids[k].spec_value()) by {
            if k < objects.len() - 1 {
                assert(ids[k] == earlier[k]);
                assert(objects[k] == shorter[k]);
            }
        }
    }
}

/// What is imported is what the pool holds of the chosen objects and their
/// contents, working sets left out: each imported object stands in the
/// pool, and each object of the pool that is to be imported is among them.
pub proof fn survivors_are_the_chosen(imported: Seq<ObjectView>, selected: Seq<ObjectId>, n: nat)
    requires
        n <= imported.len(),
    ensures
        forall|k: int|
            0 <= k < survivors(imported, selected, n).len() ==> survives(
                imported,
                selected,
                #[trigger] survivors(imported, selected, n)[k],
            ) && exists|i: int| 0 <= i < n && imported[i] == survivors(imported, selected, n)[k],
        forall|i: int|
            0 <= i < n && survives(imported, selected, #[trigger] imported[i]) ==> survivors(imported, selected, n).contains(
                imported[i],
            ),
        distinct_ids(imported) ==> distinct_ids(survivors(imported, selected, n)),
    decreases n,
{
    if n > 0 {
        let m = (n - 1) as nat;
        survivors_are_the_chosen(imported, selected, m);
        let earlier = survivors(imported, selected, m);
        let now = survivors(imported, selected, n);
        assert forall|k: int| 0 <= k < now.len() implies survives(imported, selected, #[trigger] now[k]) && exists|i: int|
            0 <= i < n && imported[i] == now[k] by {
            if k < earlier.len() {
                assert(now[k] == earlier[k]);
                let i = choose|i: int| 0 <= i < m && imported[i] == earlier[k];
                assert(0 <= i < n && imported[i] == now[k]);
            } else {
                assert(imported[n - 1] == now[k]);
            }
        }
        assert forall|i: int| 0 <= i < n && survives(imported, selected, #[trigger] imported[i]) implies now.contains(
            imported[i],
        ) by {
            if i < m {
                let k = choose|k: int| 0 <= k < earlier.len() && earlier[k] == imported[i];
                assert(now[k] == imported[i]);
            } else {
                assert(now[now.len() - 1] == imported[i]);
            }
        }
        if distinct_ids(imported) {
            assert forall|a: int, b: int| 0 <= a < b < now.len() implies (#[trigger] now[a]).id != (#[trigger] now[b]).id by {
                if b < earlier.len() {
                    assert(earlier[a].id != earlier[b].id);
                } else {
                    let i = choose|i: int| 0 <= i < m && imported[i] == earlier[a];
                    assert(imported[i].id != imported[n - 1].id);
                }
            }
        }
    }
}

/// The map from old to new identifiers holds the number of each imported
/// object with the identifier given to it, and no other number.
pub proof fn id_map_holds_the_assignment(objects: Seq<ObjectView>, ids: Seq<ObjectId>, n: nat)
    requires
        distinct_ids(objects),
        n <= objects.len(),
        n <= ids.len(),
    ensures
        forall|k: int|
            0 <= k < n ==> id_map_of(objects, ids, n).contains_key((#[trigger] objects[k]).id) && id_map_of(objects, ids, n)[objects[k].id]
                == ids[k],
        forall|number: u16|
            #[trigger] id_map_of(objects, ids, n).contains_key(number) ==> exists|k: int|
                0 <= k < n && objects[k].id == number,
    decreases n,
{
    if n > 0 {
        let m = (n - 1) as nat;
        id_map_holds_the_assignment(objects, ids, m);
        let earlier = id_map_of(objects, ids, m);
        assert forall|k: int| 0 <= k < n implies id_map_of(objects, ids, n).contains_key((#[trigger] objects[k]).id)
            && id_map_of(objects, ids, n)[objects[k].id] == ids[k] by {
            if k < n - 1 {
                assert(objects[k].id != objects[n - 1].id);
            }
        }
        assert forall|number: u16| #[trigger] id_map_of(objects, ids, n).contains_key(number) implies exists|k: int|
            0 <= k < n && objects[k].id == number by {
            if number == objects[n - 1].id {
                assert(objects[n - 1].id == number);
            } else {
                assert(earlier.contains_key(number));
                let k = choose|k: int| 0 <= k < m && objects[k].id == number;
                assert(0 <= k < n && objects[k].id == number);
            }
        }
    }
}

/// What an import does to the objects it brings in. Each comes in under the
/// identifier given to it, with its type, its attributes and the number of
/// its references as they were. A reference to another imported object
/// points at the identifier given to that object; any other reference is as
/// it was.
pub proof fn imported_references_follow(objects: Seq<ObjectView>, ids: Seq<ObjectId>)
    requires
        distinct_ids(objects),
        ids.len() == objects.len(),
    ensures
        renumbered(objects, ids).len() == objects.len(),
        forall|k: int|
            0 <= k < objects.len() ==> {
                let before = objects[k];
                let after = #[trigger] renumbered(objects, ids)[k];
                &&& after.id == ids[k].spec_value()
                &&& after.object_type == before.object_type
                &&& after.attributes == before.attributes
                &&& after.references.len() == before.references.len()
            },
        forall|k: int, j: int, m: int|
            0 <= k < objects.len() && 0 <= j < objects[k].references.len() && 0 <= m < objects.len()
                && objects[k].references[j].target.0.is_some() && objects[k].references[j].target.0.unwrap().spec_value()
                == (#[trigger] objects[m]).id ==> (#[trigger] renumbered(objects, ids)[k].references[j]) == (Reference {
                target: NullableObjectId(Some(ids[m])),
                ..objects[k].references[j]
            }),
        forall|k: int, j: int|
            0 <= k < objects.len() && 0 <= j < objects[k].references.len() && (objects[k].references[j].target.0.is_none()
                || !has_id(objects, objects[k].references[j].target.0.unwrap().spec_value()))
                ==> (#[trigger] renumbered(objects, ids)[k].references[j]) == objects[k].references[j],
{
    id_map_holds_the_assignment(objects, ids, objects.len());
    let id_map = id_map_of(objects, ids, objects.len());
    assert forall|k: int, j: int|
        0 <= k < objects.len() && 0 <= j < objects[k].references.len() && (objects[k].references[j].target.0.is_none()
            || !has_id(objects, objects[k].references[j].target.0.unwrap().spec_value())) implies (
    #[trigger] renumbered(objects, ids)[k].references[j]) == objects[k].references[j] by {
        if objects[k].references[j].target.0.is_some() {
            let number = objects[k].references[j].target.0.unwrap().spec_value();
            if id_map.contains_key(number) {
                let m = choose|m: int| 0 <= m < objects.len() && objects[m].id == number;
                assert(has_id(objects, number));
            }
        }
    }
}

/// What an import does to the names. Each imported object has a name
/// afterwards which was not in use before and which no other imported object
/// has; whatever is recorded for other identifiers stays as it was.
pub proof fn imported_names_are_apart(
    names: Map<u16, Option<Seq<char>>>,
    used: Set<Seq<char>>,
    objects: Seq<ObjectView>,
    n: nat,
)
    requires
        used.finite(),
        distinct_ids(objects),
        n <= objects.len(),
    ensures
        import_named(names, used, objects, n).1.finite(),
        used.subset_of(import_named(names, used, objects, n).1),
        forall|k: int|
            0 <= k < n ==> is_named(import_named(names, used, objects, n).0, (#[trigger] objects[k]).id) && !used.contains(
                import_named(names, used, objects, n).0[objects[k].id].unwrap(),
            ) && import_named(names, used, objects, n).1.contains(
                import_named(names, used, objects, n).0[objects[k].id].unwrap(),
            ),
        forall|j: int, k: int|
            0 <= j < k < n ==> import_named(names, used, objects, n).0[(#[trigger] objects[j]).id] != import_named(
                names,
                used,
                objects,
                n,
            ).0[(#[trigger] objects[k]).id],
        forall|id: u16|
            !#[trigger] has_id(objects, id) ==> (import_named(names, used, objects, n).0.contains_key(id)
                <==> names.contains_key(id)) && (names.contains_key(id) ==> import_named(names, used, objects, n).0[id]
                == names[id]),
    decreases n,
{
    if n > 0 {
        let m = (n - 1) as nat;
        imported_names_are_apart(names, used, objects, m);
        let (names_so_far, used_so_far) = import_named(names, used, objects, m);
        let (names_now, used_now) = import_named(names, used, objects, n);
        let object = objects[n - 1];
        assert forall|k: int| 0 <= k < n - 1 implies (#[trigger] objects[k]).id != object.id by {
            assert(objects[k].id != objects[n - 1].id);
        }
        if !(is_named(names_so_far, object.id) && !used_so_far.contains(names_so_far[object.id].unwrap())) {
            first_free_exists(used_so_far, object.object_type);
        }
        let given = names_now[object.id].unwrap();
        assert(is_named(names_now, object.id));
        assert(!used_so_far.contains(given));
        assert(used_now == used_so_far.insert(given));
        assert forall|k: int| 0 <= k < n implies is_named(names_now, (#[trigger] objects[k]).id) && !used.contains(
            names_now[objects[k].id].unwrap(),
        ) && used_now.contains(names_now[objects[k].id].unwrap()) by {
            if k < n - 1 {
                assert(objects[k].id != object.id);
                assert(names_now[objects[k].id] == names_so_far[objects[k].id]);
            }
        }
        assert forall|j: int, k: int| 0 <= j < k < n implies names_now[(#[trigger] objects[j]).id] != names_now[(
        #[trigger] objects[k]).id] by {
            assert(objects[j].id != object.id);
            assert(names_now[objects[j].id] == names_so_far[objects[j].id]);
            if k == n - 1 {
                assert(used_so_far.contains(names_so_far[objects[j].id].unwrap()));
            } else {
                assert(objects[k].id != object.id);
                assert(names_now[objects[k].id] == names_so_far[objects[k].id]);
            }
        }
        assert forall|id: u16| !#[trigger] has_id(objects, id) implies (names_now.contains_key(id) <==> names.contains_key(
            id,
        )) && (names.contains_key(id) ==> names_now[id] == names[id]) by {
            assert(id != object.id) by {
                if id == object.id {
                    assert(objects[n - 1].id == id);
                }
            }
            assert(names_so_far.contains_key(id) <==> names.contains_key(id));
        }
    }
}

} // verus!
