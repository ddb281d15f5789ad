//! The reference remapper: rewriting the references that an object holds
//! when the objects they point at have been given other identifiers.

use std::collections::HashMap;
use vstd::prelude::*;
use vstd::std_specs::hash::*;
use crate::object::{Object, ObjectView, Reference};
use crate::object_id::{NullableObjectId, ObjectId};

verus! {

/// `reference` with its target replaced by what `id_map` gives for it; a
/// reference without a target, or to a number that `id_map` does not hold,
/// stays as it is.
pub open spec fn remapped_reference(reference: Reference, id_map: Map<u16, ObjectId>) -> Reference {
    match reference.target.0 {
        Some(target) if id_map.contains_key(target.spec_value()) => Reference {
            target: NullableObjectId(Some(id_map[target.spec_value()])),
            ..reference
        },
        _ => reference,
    }
}

/// `object` with every one of its references remapped. The object's own
/// number, its type and its attributes stay as they are.
pub open spec fn remapped(object: ObjectView, id_map: Map<u16, ObjectId>) -> ObjectView {
    ObjectView {
        references: Seq::new(object.references.len(), |j: int| remapped_reference(object.references[j], id_map)),
        ..object
    }
}

/// An empty map changes nothing.
pub proof fn remapped_by_nothing(object: ObjectView)
    ensures
        remapped(object, Map::<u16, ObjectId>::empty()) == object,
{
    assert(remapped(object, Map::<u16, ObjectId>::empty()).references =~= object.references);
}

/// Rewrites every reference of `obj` whose target is a key of `id_map` to
/// the identifier that the map gives for it, and leaves the others alone.
pub fn remap_object_references(obj: &mut Object, id_map: &HashMap<u16, ObjectId>)
    ensures
        final(obj)@ == remapped(old(obj)@, id_map@),
{
    broadcast use group_hash_axioms;

    let ghost before = obj@;
    let mut i: usize = 0;
    while i < obj.references.len()
        invariant
            i <= obj.references@.len(),
            obj.references@.len() == before.references.len(),
            obj.id == old(obj).id,
            obj.object_type == before.object_type,
            obj.attributes@ == before.attributes,
            before == old(obj)@,
            forall|j: int| 0 <= j < i ==> #[trigger] obj.references@[j] == remapped_reference(before.references[j], id_map@),
            forall|j: int| i <= j < before.references.len() ==> #[trigger] obj.references@[j] == before.references[j],
        decreases obj.references@.len() - i,
    {
        let reference = obj.references[i];
        if let Some(old_id) = reference.target.0 {
            let key = old_id.value();
            if let Some(new_id) = id_map.get(&key) {
                obj.references[i] = Reference {
                    target: NullableObjectId(Some(*new_id)),
                    structural: reference.structural,
                    x: reference.x,
                    y: reference.y,
                };
            }
        }
        i += 1;
    }
    assert(obj@.references =~= remapped(before, id_map@).references);
}

} // verus!
