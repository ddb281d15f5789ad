//! The identifier allocator: the lowest identifier in the range of an object
//! type that nothing holds yet.

use vstd::prelude::*;
use crate::object::ObjectView;
use crate::object_id::ObjectId;
use crate::object_pool::{has_id, ObjectPool};
use crate::object_type::ObjectType;

verus! {

/// Whether `id` is held neither by an object of `pool` nor by `reserved`.
pub open spec fn is_free(pool: Seq<ObjectView>, reserved: Seq<ObjectId>, id: u16) -> bool {
    !has_id(pool, id) && !is_reserved(reserved, id)
}

/// Whether one of the identifiers in `reserved` has the number `id`.
pub open spec fn is_reserved(reserved: Seq<ObjectId>, id: u16) -> bool {
    exists|k: int| 0 <= k < reserved.len() && (#[trigger] reserved[k]).spec_value() == id
}

/// Whether `id` is the lowest free identifier in the range of `object_type`.
pub open spec fn is_lowest_free(
    pool: Seq<ObjectView>,
    reserved: Seq<ObjectId>,
    object_type: ObjectType,
    id: u16,
) -> bool {
    &&& object_type.owns(id)
    &&& is_free(pool, reserved, id)
    &&& forall|lower: u16| object_type.owns(lower) && lower < id ==> !#[trigger] is_free(pool, reserved, lower)
}

/// Whether every identifier in the range of `object_type` is taken.
pub open spec fn range_is_exhausted(pool: Seq<ObjectView>, reserved: Seq<ObjectId>, object_type: ObjectType) -> bool {
    forall|id: u16| object_type.owns(id) ==> !#[trigger] is_free(pool, reserved, id)
}

/// Whether `reserved` holds the identifier `id`.
fn holds(reserved: &Vec<ObjectId>, id: u16) -> (r: bool)
    ensures
        r == is_reserved(reserved@, id),
{
    let mut k: usize = 0;
    while k < reserved.len()
        invariant
            k <= reserved@.len(),
            forall|j: int| 0 <= j < k ==> (#[trigger] reserved@[j]).spec_value() != id,
        decreases reserved@.len() - k,
    {
        if reserved[k].value() == id {
            return true;
        }
        k += 1;
    }
    false
}

/// The lowest identifier in the range of `object_type` that is held neither
/// by an object of `pool` nor by `reserved`, or nothing when the whole range
/// is taken. The pool stays as it is: the identifier is claimed only when an
/// object is put into the pool under it.
pub fn lowest_free_id(pool: &ObjectPool, reserved: &Vec<ObjectId>, object_type: ObjectType) -> (r: Option<ObjectId>)
    ensures
        match r {
            Some(id) => is_lowest_free(pool@, reserved@, object_type, id.spec_value()),
            None => range_is_exhausted(pool@, reserved@, object_type),
        },
{
    let (first, last) = object_type.id_bounds();
    let mut candidate: u16 = first;
    while candidate <= last
        invariant
            first == object_type.range_first(),
            last == object_type.range_last(),
            first <= candidate <= last + 1,
            last < 49000,
            forall|lower: u16| first <= lower < candidate ==> !#[trigger] is_free(pool@, reserved@, lower),
        decreases last + 1 - candidate,
    {
        match ObjectId::new(candidate) {
            Ok(id) => {
                if !pool.contains(id) && !holds(reserved, candidate) {
                    return Some(id);
                }
            },
            Err(_) => {},
        }
        candidate += 1;
    }
    None
}

} // verus!
