//! Objects: the typed nodes of a pool, each with the references it holds to
//! other objects.

use vstd::prelude::*;
use vstd::std_specs::cmp::PartialEqSpecImpl;
use crate::object_id::{NullableObjectId, ObjectId};
use crate::object_type::ObjectType;

verus! {

/// One reference that an object holds to another object.
///
/// A structural reference places the target inside the object that holds it,
/// as a mask holds its fields or a button its label. Any other reference
/// points at something shared, such as a variable or a set of attributes,
/// which many objects may point at.
#[derive(Clone, Copy, Debug, PartialEq, Eq, Structural)]
pub struct Reference {
    /// The object referred to, if any.
    pub target: NullableObjectId,
    /// Whether the target is contained in the object that holds the reference.
    pub structural: bool,
    /// Horizontal offset of the target within its parent.
    pub x: i16,
    /// Vertical offset of the target within its parent.
    pub y: i16,
}

impl Reference {
    /// A structural reference to `target` at offset zero.
    pub fn child(target: ObjectId) -> (r: Reference)
        ensures
            r == (Reference { target: NullableObjectId(Some(target)), structural: true, x: 0, y: 0 }),
    {
        Reference { target: NullableObjectId(Some(target)), structural: true, x: 0, y: 0 }
    }

    /// A reference to something shared, possibly absent.
    pub fn shared(target: NullableObjectId) -> (r: Reference)
        ensures
            r == (Reference { target, structural: false, x: 0, y: 0 }),
    {
        Reference { target, structural: false, x: 0, y: 0 }
    }

    /// Whether this is a structural reference to the object numbered `id`.
    pub open spec fn contains_child(self, id: u16) -> bool {
        self.structural && self.target.0.is_some() && self.target.0.unwrap().spec_value() == id
    }

    /// Whether one of `references` is a structural reference to the object
    /// numbered `id`.
    pub open spec fn any_contains_child(references: Seq<Reference>, id: u16) -> bool {
        exists|j: int| 0 <= j < references.len() && (#[trigger] references[j]).contains_child(id)
    }
}

/// What an [`Object`] is, as a mathematical value.
pub struct ObjectView {
    /// The number of the object's identifier.
    pub id: u16,
    /// The object's type.
    pub object_type: ObjectType,
    /// The references the object holds, in order.
    pub references: Seq<Reference>,
    /// The object's own attributes, which refer to no other object.
    pub attributes: Seq<u8>,
}

impl ObjectView {
    /// Whether the object holds a structural reference to the object numbered `id`.
    pub open spec fn has_child(self, id: u16) -> bool {
        Reference::any_contains_child(self.references, id)
    }
}

/// A typed node of a pool.
#[derive(Debug)]
pub struct Object {
    /// The object's identifier, unique within its pool.
    pub id: ObjectId,
    /// The object's type.
    pub object_type: ObjectType,
    /// The references the object holds to other objects, in order.
    pub references: Vec<Reference>,
    /// The object's own attributes, which refer to no other object.
    pub attributes: Vec<u8>,
}

impl View for Object {
    type V = ObjectView;

    open spec fn view(&self) -> ObjectView {
        ObjectView {
            id: self.id.spec_value(),
            object_type: self.object_type,
            references: self.references@,
            attributes: self.attributes@,
        }
    }
}

impl Clone for Object {
    fn clone(&self) -> (r: Object)
        ensures
            r@ == self@,
    {
        let references = self.references.clone();
        let attributes = self.attributes.clone();
        assert(references@ =~= self.references@);
        assert(attributes@ =~= self.attributes@);
        Object { id: self.id, object_type: self.object_type, references, attributes }
    }
}

impl PartialEq for Object {
    fn eq(&self, other: &Object) -> (r: bool) {
        if self.id != other.id || self.object_type != other.object_type
            || self.references.len() != other.references.len()
            || self.attributes.len() != other.attributes.len() {
            proof {
                if self.id != other.id {
                    assert(self.id.spec_value() != other.id.spec_value()) by {
                        if self.id.spec_value() == other.id.spec_value() {
                            ObjectId::same_value_same_id(self.id, other.id);
                        }
                    }
                }
            }
            return false;
        }
        let mut i: usize = 0;
        while i < self.references.len()
            invariant
                i <= self.references.len() == other.references.len(),
                self.references@.subrange(0, i as int) == other.references@.subrange(0, i as int),
            decreases self.references.len() - i,
        {
            if self.references[i] != other.references[i] {
                return false;
            }
            assert(self.references@.subrange(0, i + 1) =~= self.references@.subrange(0, i as int).push(
                self.references@[i as int],
            ));
            assert(other.references@.subrange(0, i + 1) =~= other.references@.subrange(0, i as int).push(
                other.references@[i as int],
            ));
            i += 1;
        }
        assert(self.references@ =~= self.references@.subrange(0, i as int));
        assert(other.references@ =~= other.references@.subrange(0, i as int));
        let mut k: usize = 0;
        while k < self.attributes.len()
            invariant
                k <= self.attributes.len() == other.attributes.len(),
                self.attributes@.subrange(0, k as int) == other.attributes@.subrange(0, k as int),
            decreases self.attributes.len() - k,
        {
            if self.attributes[k] != other.attributes[k] {
                return false;
            }
            assert(self.attributes@.subrange(0, k + 1) =~= self.attributes@.subrange(0, k as int).push(
                self.attributes@[k as int],
            ));
            assert(other.attributes@.subrange(0, k + 1) =~= other.attributes@.subrange(0, k as int).push(
                other.attributes@[k as int],
            ));
            k += 1;
        }
        assert(self.attributes@ =~= self.attributes@.subrange(0, k as int));
        assert(other.attributes@ =~= other.attributes@.subrange(0, k as int));
        true
    }
}

impl PartialEqSpecImpl for Object {
    open spec fn obeys_eq_spec() -> bool {
        true
    }

    open spec fn eq_spec(&self, other: &Object) -> bool {
        self@ == other@
    }
}

impl Object {
    /// An object of the given type with no references and no attributes.
    pub fn new(id: ObjectId, object_type: ObjectType) -> (r: Object)
        ensures
            r@.id == id.spec_value(),
            r@.object_type == object_type,
            r@.references == Seq::<Reference>::empty(),
            r@.attributes == Seq::<u8>::empty(),
    {
        Object { id, object_type, references: Vec::new(), attributes: Vec::new() }
    }

    /// The object's identifier.
    pub fn id(&self) -> (r: ObjectId)
        ensures
            r == self.id,
    {
        self.id
    }

    /// The object's type.
    pub fn object_type(&self) -> (r: ObjectType)
        ensures
            r == self.object_type,
    {
        self.object_type
    }

    /// The numbers of the objects contained in an object, in the order of its
    /// references.
    pub open spec fn children(references: Seq<Reference>) -> Seq<u16>
        decreases references.len(),
    {
        if references.len() == 0 {
            Seq::empty()
        } else {
            let rest = Self::children(references.drop_last());
            let last = references.last();
            if last.structural && last.target.0.is_some() {
                rest.push(last.target.0.unwrap().spec_value())
            } else {
                rest
            }
        }
    }

    /// The children of an object are the targets of its structural
    /// references, and nothing else.
    pub proof fn children_are_the_structural_targets(references: Seq<Reference>, id: u16)
        ensures
            Self::children(references).contains(id) <==> Reference::any_contains_child(references, id),
        decreases references.len(),
    {
        if references.len() == 0 {
        } else {
            let shorter = references.drop_last();
            let rest = Self::children(shorter);
            Self::children_are_the_structural_targets(shorter, id);
            if Self::children(references).contains(id) {
                let k = choose|k: int| 0 <= k < Self::children(references).len() && Self::children(references)[k] == id;
                if k < rest.len() {
                    assert(rest[k] == id);
                    assert(rest.contains(id));
                    let j = choose|j: int| 0 <= j < shorter.len() && (#[trigger] shorter[j]).contains_child(id);
                    assert(references[j].contains_child(id));
                } else {
                    assert(references[references.len() - 1].contains_child(id));
                }
            }
            if Reference::any_contains_child(references, id) {
                let j = choose|j: int| 0 <= j < references.len() && (#[trigger] references[j]).contains_child(id);
                if j < references.len() - 1 {
                    assert(shorter[j].contains_child(id));
                    let k = choose|k: int| 0 <= k < rest.len() && rest[k] == id;
                    assert(Self::children(references)[k] == id);
                } else {
                    assert(Self::children(references)[rest.len() as int] == id);
                }
            }
        }
    }

    /// The objects contained in this one: the targets of its structural
    /// references, in order.
    pub fn referenced_objects(&self) -> (r: Vec<ObjectId>)
        ensures
            r@.len() == Self::children(self@.references).len(),
            forall|k: int| 0 <= k < r@.len() ==> (#[trigger] r@[k]).spec_value() == Self::children(self@.references)[k],
    {
        let mut out: Vec<ObjectId> = Vec::new();
        let mut i: usize = 0;
        while i < self.references.len()
            invariant
                i <= self.references.len(),
                out@.len() == Self::children(self.references@.subrange(0, i as int)).len(),
                forall|k: int| 0 <= k < out@.len() ==> (#[trigger] out@[k]).spec_value() == Self::children(
                    self.references@.subrange(0, i as int),
                )[k],
            decreases self.references.len() - i,
        {
            let reference = self.references[i];
            let ghost before = out@;
            assert(self.references@.subrange(0, i + 1).drop_last() =~= self.references@.subrange(0, i as int));
            if reference.structural {
                if let Some(target) = reference.target.0 {
                    out.push(target);
                    assert(forall|k: int| 0 <= k < before.len() ==> out@[k] == before[k]);
                    assert(out@[before.len() as int] == target);
                }
            }
            i += 1;
        }
        assert(self.references@.subrange(0, i as int) =~= self.references@);
        out
    }

    /// Whether this object holds a structural reference to the object `id`.
    pub fn contains(&self, id: ObjectId) -> (r: bool)
        ensures
            r == self@.has_child(id.spec_value()),
    {
        let mut j: usize = 0;
        while j < self.references.len()
            invariant
                j <= self.references@.len(),
                forall|k: int| 0 <= k < j ==> !(#[trigger] self.references@[k]).contains_child(id.spec_value()),
            decreases self.references@.len() - j,
        {
            let reference = self.references[j];
            if reference.structural {
                if let Some(target) = reference.target.0 {
                    if target.value() == id.value() {
                        return true;
                    }
                }
            }
            j += 1;
        }
        false
    }

    /// Exchanges the references at the places `a` and `b`, where both places
    /// exist; else leaves the object as it is. Returns whether the places
    /// exist.
    pub fn swap_references(&mut self, a: usize, b: usize) -> (done: bool)
        ensures
            done == (a < old(self)@.references.len() && b < old(self)@.references.len()),
            final(self)@ == (if done {
                ObjectView {
                    references: old(self)@.references.update(a as int, old(self)@.references[b as int]).update(
                        b as int,
                        old(self)@.references[a as int],
                    ),
                    ..old(self)@
                }
            } else {
                old(self)@
            }),
    {
        if a >= self.references.len() || b >= self.references.len() {
            return false;
        }
        let first = self.references[a];
        let second = self.references[b];
        self.references[a] = second;
        self.references[b] = first;
        true
    }

    /// Takes the reference at the place `index` out of the object and returns
    /// it, where the place exists.
    pub fn remove_reference(&mut self, index: usize) -> (r: Option<Reference>)
        ensures
            r.is_some() == (index < old(self)@.references.len()),
            r.is_some() ==> r.unwrap() == old(self)@.references[index as int],
            final(self)@ == (if index < old(self)@.references.len() {
                ObjectView { references: old(self)@.references.remove(index as int), ..old(self)@ }
            } else {
                old(self)@
            }),
    {
        if index >= self.references.len() {
            return None;
        }
        Some(self.references.remove(index))
    }

    /// Gives the object another identifier and leaves the rest as it is.
    pub fn set_id(&mut self, id: ObjectId)
        ensures
            final(self)@ == (ObjectView { id: id.spec_value(), ..old(self)@ }),
            final(self).id == id,
    {
        self.id = id;
    }
}

} // verus!
