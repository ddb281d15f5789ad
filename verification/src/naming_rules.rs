//! Which names are in use in a document, and which names the naming service
//! gives to the objects that have none.

use vstd::prelude::*;
use crate::object::ObjectView;
use crate::object_pool::{distinct_ids, has_id};
use crate::object_type::ObjectType;
use crate::smart_naming::{default_name, first_free_exists, is_first_free, smart_name};

verus! {

/// Whether `names` records a name for the object numbered `id`.
pub open spec fn is_named(names: Map<u16, Option<Seq<char>>>, id: u16) -> bool {
    names.contains_key(id) && names[id].is_some()
}

/// The name under which `object` is shown: the name recorded for it, or its
/// default name where none is recorded.
pub open spec fn shown_name_of(names: Map<u16, Option<Seq<char>>>, object: ObjectView) -> Seq<char> {
    if is_named(names, object.id) {
        names[object.id].unwrap()
    } else {
        default_name(object.id, object.object_type)
    }
}

/// The names under which the objects of `pool` are shown, each with the type
/// of the first object shown under it.
pub open spec fn names_in_use(pool: Seq<ObjectView>, names: Map<u16, Option<Seq<char>>>) -> Map<
    Seq<char>,
    ObjectType,
>
    decreases pool.len(),
{
    if pool.len() == 0 {
        Map::empty()
    } else {
        let earlier = names_in_use(pool.drop_last(), names);
        let name = shown_name_of(names, pool.last());
        if earlier.dom().contains(name) {
            earlier
        } else {
            earlier.insert(name, pool.last().object_type)
        }
    }
}

/// A name is in use exactly when some object of the pool is shown under it.
pub proof fn names_in_use_are_the_shown_names(
    pool: Seq<ObjectView>,
    names: Map<u16, Option<Seq<char>>>,
    name: Seq<char>,
)
    ensures
        names_in_use(pool, names).dom().contains(name) <==> exists|i: int|
            0 <= i < pool.len() && shown_name_of(names, #[trigger] pool[i]) == name,
    decreases pool.len(),
{
    if pool.len() > 0 {
        let shorter = pool.drop_last();
        names_in_use_are_the_shown_names(shorter, names, name);
        if names_in_use(pool, names).dom().contains(name) {
            if names_in_use(shorter, names).dom().contains(name) {
                let i = choose|i: int| 0 <= i < shorter.len() && shown_name_of(names, #[trigger] shorter[i]) == name;
                assert(shown_name_of(names, pool[i]) == name);
            } else {
                assert(shown_name_of(names, pool[pool.len() - 1]) == name);
            }
        }
        if exists|i: int| 0 <= i < pool.len() && shown_name_of(names, #[trigger] pool[i]) == name {
            let i = choose|i: int| 0 <= i < pool.len() && shown_name_of(names, #[trigger] pool[i]) == name;
            if i < pool.len() - 1 {
                assert(shown_name_of(names, shorter[i]) == name);
            }
        }
    }
}

/// Whether `object` counts when a name is sought for the object numbered
/// `unnamed`: every object does but that one itself while no record is kept
/// of it.
pub open spec fn counts_beside(names: Map<u16, Option<Seq<char>>>, unnamed: u16, object: ObjectView) -> bool {
    object.id != unnamed || names.contains_key(object.id)
}

/// The names in use when a name is sought for the object numbered
/// `unnamed`: those under which the objects that count are shown.
pub open spec fn names_beside(pool: Seq<ObjectView>, names: Map<u16, Option<Seq<char>>>, unnamed: u16) -> Map<
    Seq<char>,
    ObjectType,
>
    decreases pool.len(),
{
    if pool.len() == 0 {
        Map::empty()
    } else {
        let earlier = names_beside(pool.drop_last(), names, unnamed);
        let name = shown_name_of(names, pool.last());
        if !counts_beside(names, unnamed, pool.last()) || earlier.dom().contains(name) {
            earlier
        } else {
            earlier.insert(name, pool.last().object_type)
        }
    }
}

/// A name is in use beside an object exactly when some object that counts
/// is shown under it.
pub proof fn names_beside_are_the_shown_names(
    pool: Seq<ObjectView>,
    names: Map<u16, Option<Seq<char>>>,
    unnamed: u16,
    name: Seq<char>,
)
    ensures
        names_beside(pool, names, unnamed).dom().contains(name) <==> exists|i: int|
            0 <= i < pool.len() && counts_beside(names, unnamed, #[trigger] pool[i]) && shown_name_of(names, pool[i])
                == name,
    decreases pool.len(),
{
    if pool.len() > 0 {
        let shorter = pool.drop_last();
        names_beside_are_the_shown_names(shorter, names, unnamed, name);
        if names_beside(pool, names, unnamed).dom().contains(name) {
            if names_beside(shorter, names, unnamed).dom().contains(name) {
                let i = choose|i: int|
                    0 <= i < shorter.len() && counts_beside(names, unnamed, #[trigger] shorter[i]) && shown_name_of(
                        names,
                        shorter[i],
                    ) == name;
                assert(counts_beside(names, unnamed, pool[i]) && shown_name_of(names, pool[i]) == name);
            } else {
                assert(counts_beside(names, unnamed, pool[pool.len() - 1]));
            }
        }
        if exists|i: int|
            0 <= i < pool.len() && counts_beside(names, unnamed, #[trigger] pool[i]) && shown_name_of(names, pool[i])
                == name {
            let i = choose|i: int|
                0 <= i < pool.len() && counts_beside(names, unnamed, #[trigger] pool[i]) && shown_name_of(
                    names,
                    pool[i],
                ) == name;
            if i < pool.len() - 1 {
                assert(counts_beside(names, unnamed, shorter[i]) && shown_name_of(names, shorter[i]) == name);
            }
        }
    }
}

/// The number of the first generated name of a type that is not in `used`.
pub open spec fn first_free_number(used: Set<Seq<char>>, object_type: ObjectType) -> nat {
    choose|n: nat| is_first_free(used, object_type, n)
}

/// The records after the naming service has named `object`. An object that
/// has a name keeps it. Any other gets the first generated name of its type
/// that is not in use beside it.
pub open spec fn with_smart_name(
    pool: Seq<ObjectView>,
    names: Map<u16, Option<Seq<char>>>,
    id: u16,
    object_type: ObjectType,
) -> Map<u16, Option<Seq<char>>> {
    if is_named(names, id) {
        names
    } else {
        names.insert(
            id,
            Some(smart_name(object_type, first_free_number(names_beside(pool, names, id).dom(), object_type))),
        )
    }
}

/// The records after the naming service has named the first `n` objects of
/// `pool`, one after the other.
pub open spec fn each_named(pool: Seq<ObjectView>, names: Map<u16, Option<Seq<char>>>, n: nat) -> Map<
    u16,
    Option<Seq<char>>,
>
    decreases n,
{
    if n == 0 || n > pool.len() {
        names
    } else {
        with_smart_name(pool, each_named(pool, names, (n - 1) as nat), pool[n - 1].id, pool[n - 1].object_type)
    }
}

/// The names that the records give to objects of `pool`.
pub open spec fn given_names(pool: Seq<ObjectView>, names: Map<u16, Option<Seq<char>>>) -> Set<Seq<char>> {
    Set::new(|name: Seq<char>| exists|i: int| 0 <= i < pool.len() && is_named(names, (#[trigger] pool[i]).id) && names[pool[i].id] == Some(name))
}

/// The records after the naming service has gone through the first `n`
/// objects of `pool` in order. An object that has a name keeps it. Any other
/// gets the first generated name of its type that the records, as they are
/// when its turn comes, give to no object of the pool.
pub open spec fn all_named(pool: Seq<ObjectView>, names: Map<u16, Option<Seq<char>>>, n: nat) -> Map<
    u16,
    Option<Seq<char>>,
>
    decreases n,
{
    if n == 0 || n > pool.len() {
        names
    } else {
        let so_far = all_named(pool, names, (n - 1) as nat);
        let object = pool[n - 1];
        if is_named(so_far, object.id) {
            so_far
        } else {
            so_far.insert(
                object.id,
                Some(smart_name(object.object_type, first_free_number(given_names(pool, so_far), object.object_type))),
            )
        }
    }
}

/// The names in use beside an object are finitely many.
pub proof fn names_beside_are_finite(pool: Seq<ObjectView>, names: Map<u16, Option<Seq<char>>>, unnamed: u16)
    ensures
        names_beside(pool, names, unnamed).dom().finite(),
    decreases pool.len(),
{
    if pool.len() > 0 {
        names_beside_are_finite(pool.drop_last(), names, unnamed);
    }
}

/// The names given to the first `n` objects of `pool`.
spec fn given_names_upto(pool: Seq<ObjectView>, names: Map<u16, Option<Seq<char>>>, n: nat) -> Set<Seq<char>> {
    Set::new(|name: Seq<char>| exists|i: int| 0 <= i < n && i < pool.len() && is_named(names, (#[trigger] pool[i]).id) && names[pool[i].id] == Some(name))
}

proof fn given_names_upto_are_finite(pool: Seq<ObjectView>, names: Map<u16, Option<Seq<char>>>, n: nat)
    requires
        n <= pool.len(),
    ensures
        given_names_upto(pool, names, n).finite(),
    decreases n,
{
    if n == 0 {
        assert(given_names_upto(pool, names, n) =~= Set::empty());
    } else {
        let m = (n - 1) as nat;
        given_names_upto_are_finite(pool, names, m);
        let earlier = given_names_upto(pool, names, m);
        let grown = if is_named(names, pool[n - 1].id) {
            earlier.insert(names[pool[n - 1].id].unwrap())
        } else {
            earlier
        };
        assert forall|name: Seq<char>| grown.contains(name) <==> given_names_upto(pool, names, n).contains(name) by {
            if grown.contains(name) {
                if earlier.contains(name) {
                    let i = choose|i: int|
                        0 <= i < m && i < pool.len() && is_named(names, (#[trigger] pool[i]).id) && names[pool[i].id]
                            == Some(name);
                    assert(0 <= i < n && is_named(names, pool[i].id));
                } else {
                    assert(is_named(names, pool[n - 1].id));
                }
            }
            if given_names_upto(pool, names, n).contains(name) {
                let i = choose|i: int|
                    0 <= i < n && i < pool.len() && is_named(names, (#[trigger] pool[i]).id) && names[pool[i].id]
                        == Some(name);
                if i < m {
                    assert(is_named(names, pool[i].id));
                }
            }
        }
        assert(grown =~= given_names_upto(pool, names, n));
    }
}

/// The names given to the objects of a pool are finitely many.
pub proof fn given_names_are_finite(pool: Seq<ObjectView>, names: Map<u16, Option<Seq<char>>>)
    ensures
        given_names(pool, names).finite(),
{
    given_names_upto_are_finite(pool, names, pool.len());
    assert(given_names(pool, names) =~= given_names_upto(pool, names, pool.len()));
}

/// What naming one object does. An object that has a name keeps it, and the
/// records stay as they are; so naming an object a second time changes
/// nothing. Whatever is recorded for the other objects stays. An object that
/// had no name has one afterwards, a generated name of its type, under which
/// no other object of the pool is shown.
pub proof fn naming_one_object_keeps_names_apart(
    pool: Seq<ObjectView>,
    names: Map<u16, Option<Seq<char>>>,
    id: u16,
    object_type: ObjectType,
)
    ensures
        is_named(names, id) ==> with_smart_name(pool, names, id, object_type) == names,
        is_named(with_smart_name(pool, names, id, object_type), id),
        with_smart_name(pool, with_smart_name(pool, names, id, object_type), id, object_type) == with_smart_name(
            pool,
            names,
            id,
            object_type,
        ),
        forall|other: u16|
            other != id ==> (#[trigger] with_smart_name(pool, names, id, object_type).contains_key(other)
                <==> names.contains_key(other)),
        forall|other: u16|
            other != id && names.contains_key(other) ==> #[trigger] with_smart_name(pool, names, id, object_type)[other]
                == names[other],
        !is_named(names, id) ==> {
            &&& exists|n: nat|
                n >= 1 && with_smart_name(pool, names, id, object_type)[id] == Some(#[trigger] smart_name(object_type, n))
            &&& forall|i: int|
                0 <= i < pool.len() && (#[trigger] pool[i]).id != id ==> shown_name_of(
                    with_smart_name(pool, names, id, object_type),
                    pool[i],
                ) != with_smart_name(pool, names, id, object_type)[id].unwrap()
        },
{
    let after = with_smart_name(pool, names, id, object_type);
    if !is_named(names, id) {
        let used = names_beside(pool, names, id).dom();
        names_beside_are_finite(pool, names, id);
        first_free_exists(used, object_type);
        let n = first_free_number(used, object_type);
        let new_name = smart_name(object_type, n);
        assert(after[id] == Some(new_name));
        assert forall|i: int| 0 <= i < pool.len() && (#[trigger] pool[i]).id != id implies shown_name_of(after, pool[i])
            != new_name by {
            assert(shown_name_of(after, pool[i]) == shown_name_of(names, pool[i]));
            names_beside_are_the_shown_names(pool, names, id, shown_name_of(names, pool[i]));
            assert(counts_beside(names, id, pool[i]));
        }
    }
}

/// What naming all the objects of a pool does. Every object of the pool has
/// a name afterwards. A name that an object had stays, and so does whatever
/// is recorded for objects outside the pool. A name that the service gave
/// differs from the name of every other object of the pool.
pub proof fn naming_all_objects_keeps_names_apart(pool: Seq<ObjectView>, names: Map<u16, Option<Seq<char>>>)
    requires
        distinct_ids(pool),
    ensures
        forall|i: int| 0 <= i < pool.len() ==> is_named(all_named(pool, names, pool.len()), (#[trigger] pool[i]).id),
        forall|id: u16|
            is_named(names, id) ==> is_named(all_named(pool, names, pool.len()), id) && #[trigger] all_named(
                pool,
                names,
                pool.len(),
            )[id] == names[id],
        forall|id: u16|
            !#[trigger] has_id(pool, id) ==> (all_named(pool, names, pool.len()).contains_key(id)
                <==> names.contains_key(id)) && (names.contains_key(id) ==> all_named(pool, names, pool.len())[id]
                == names[id]),
        forall|i: int, j: int|
            0 <= i < pool.len() && 0 <= j < pool.len() && i != j && !is_named(names, (#[trigger] pool[j]).id)
                ==> all_named(pool, names, pool.len())[(#[trigger] pool[i]).id] != all_named(pool, names, pool.len())[pool[j].id],
{
    naming_keeps_names_apart_upto(pool, names, pool.len());
}

proof fn naming_keeps_names_apart_upto(pool: Seq<ObjectView>, names: Map<u16, Option<Seq<char>>>, n: nat)
    requires
        distinct_ids(pool),
        n <= pool.len(),
    ensures
        forall|i: int| 0 <= i < n ==> is_named(all_named(pool, names, n), (#[trigger] pool[i]).id),
        forall|i: int|
            n <= i < pool.len() ==> (all_named(pool, names, n).contains_key((#[trigger] pool[i]).id)
                <==> names.contains_key(pool[i].id)) && (names.contains_key(pool[i].id) ==> all_named(pool, names, n)[pool[i].id]
                == names[pool[i].id]),
        forall|id: u16|
            is_named(names, id) ==> is_named(all_named(pool, names, n), id) && #[trigger] all_named(pool, names, n)[id]
                == names[id],
        forall|id: u16|
            !#[trigger] has_id(pool, id) ==> (all_named(pool, names, n).contains_key(id) <==> names.contains_key(
                id,
            )) && (names.contains_key(id) ==> all_named(pool, names, n)[id] == names[id]),
        forall|i: int, j: int|
            0 <= i < pool.len() && 0 <= j < n && i != j && !is_named(names, (#[trigger] pool[j]).id) && is_named(
                all_named(pool, names, n),
                (#[trigger] pool[i]).id,
            ) ==> all_named(pool, names, n)[pool[i].id] != all_named(pool, names, n)[pool[j].id],
    decreases n,
{
    if n > 0 {
        let m = (n - 1) as nat;
        naming_keeps_names_apart_upto(pool, names, m);
        let so_far = all_named(pool, names, m);
        let now = all_named(pool, names, n);
        let object = pool[n - 1];
        assert forall|k: int| 0 <= k < pool.len() && k != n - 1 implies (#[trigger] pool[k]).id != object.id by {
            if k < n - 1 {
                assert(pool[k].id != pool[n - 1].id);
            } else {
                assert(pool[n - 1].id != pool[k].id);
            }
        }
        assert(has_id(pool, object.id));
        if !is_named(so_far, object.id) {
            let used = given_names(pool, so_far);
            given_names_are_finite(pool, so_far);
            first_free_exists(used, object.object_type);
            let new_name = smart_name(object.object_type, first_free_number(used, object.object_type));
            assert(now == so_far.insert(object.id, Some(new_name)));
            assert(!used.contains(new_name));
            assert forall|i: int, j: int|
                0 <= i < pool.len() && 0 <= j < n && i != j && !is_named(names, (#[trigger] pool[j]).id) && is_named(
                    now,
                    (#[trigger] pool[i]).id,
                ) implies now[pool[i].id] != now[pool[j].id] by {
                if j == n - 1 {
                    assert(pool[i].id != object.id);
                    assert(is_named(so_far, pool[i].id));
                    assert(used.contains(so_far[pool[i].id].unwrap()));
                } else if i == n - 1 {
                    assert(pool[j].id != object.id);
                    assert(is_named(so_far, pool[j].id));
                    assert(used.contains(so_far[pool[j].id].unwrap()));
                } else {
                    assert(pool[i].id != object.id && pool[j].id != object.id);
                }
            }
        } else {
            assert(now == so_far);
            assert forall|i: int, j: int|
                0 <= i < pool.len() && 0 <= j < n && i != j && !is_named(names, (#[trigger] pool[j]).id) && is_named(
                    now,
                    (#[trigger] pool[i]).id,
                ) implies now[pool[i].id] != now[pool[j].id] by {
                if j == n - 1 {
                    assert(names.contains_key(pool[j].id));
                    assert(so_far[pool[j].id] == names[pool[j].id]);
                }
            }
        }
    }
}

/// What naming the objects of a pool one after the other does. Every object
/// of the pool has a name afterwards. A name that an object had stays. A
/// name that the service gave differs from the name of every other object
/// of the pool.
pub proof fn naming_each_object_keeps_names_apart(pool: Seq<ObjectView>, names: Map<u16, Option<Seq<char>>>)
    requires
        distinct_ids(pool),
    ensures
        forall|i: int| 0 <= i < pool.len() ==> is_named(each_named(pool, names, pool.len()), (#[trigger] pool[i]).id),
        forall|id: u16|
            is_named(names, id) ==> is_named(each_named(pool, names, pool.len()), id) && #[trigger] each_named(
                pool,
                names,
                pool.len(),
            )[id] == names[id],
        forall|i: int, j: int|
            0 <= i < pool.len() && 0 <= j < pool.len() && i != j && !is_named(names, (#[trigger] pool[j]).id)
                ==> each_named(pool, names, pool.len())[(#[trigger] pool[i]).id] != each_named(pool, names, pool.len())[pool[j].id],
{
    naming_each_keeps_names_apart_upto(pool, names, pool.len());
    let named = each_named(pool, names, pool.len());
    assert forall|i: int, j: int|
        0 <= i < pool.len() && 0 <= j < pool.len() && i != j && !is_named(names, (#[trigger] pool[j]).id) implies named[(
    #[trigger] pool[i]).id] != named[pool[j].id] by {
        assert(is_named(named, pool[i].id));
        assert(is_named(named, pool[j].id));
        assert(shown_name_of(named, pool[i]) != named[pool[j].id].unwrap());
    }
}

proof fn naming_each_keeps_names_apart_upto(pool: Seq<ObjectView>, names: Map<u16, Option<Seq<char>>>, n: nat)
    requires
        distinct_ids(pool),
        n <= pool.len(),
    ensures
        forall|i: int| 0 <= i < n ==> is_named(each_named(pool, names, n), (#[trigger] pool[i]).id),
        forall|i: int|
            n <= i < pool.len() ==> (each_named(pool, names, n).contains_key((#[trigger] pool[i]).id)
                <==> names.contains_key(pool[i].id)) && (names.contains_key(pool[i].id) ==> each_named(pool, names, n)[pool[i].id]
                == names[pool[i].id]),
        forall|id: u16|
            is_named(names, id) ==> is_named(each_named(pool, names, n), id) && #[trigger] each_named(pool, names, n)[id]
                == names[id],
        forall|i: int, j: int|
            0 <= i < pool.len() && 0 <= j < n && i != j && !is_named(names, (#[trigger] pool[j]).id) ==> shown_name_of(
                each_named(pool, names, n),
                #[trigger] pool[i],
            ) != each_named(pool, names, n)[pool[j].id].unwrap(),
    decreases n,
{
    if n > 0 {
        let m = (n - 1) as nat;
        naming_each_keeps_names_apart_upto(pool, names, m);
        let so_far = each_named(pool, names, m);
        let now = each_named(pool, names, n);
        let object = pool[n - 1];
        naming_one_object_keeps_names_apart(pool, so_far, object.id, object.object_type);
        assert forall|k: int| 0 <= k < pool.len() && k != n - 1 implies (#[trigger] pool[k]).id != object.id by {
            if k < n - 1 {
                assert(pool[k].id != pool[n - 1].id);
            } else {
                assert(pool[n - 1].id != pool[k].id);
            }
        }
        assert forall|i: int| n <= i < pool.len() implies (now.contains_key((#[trigger] pool[i]).id) <==> names.contains_key(
            pool[i].id,
        )) && (names.contains_key(pool[i].id) ==> now[pool[i].id] == names[pool[i].id]) by {
            assert(pool[i].id != object.id);
            assert(now.contains_key(pool[i].id) <==> so_far.contains_key(pool[i].id));
        }
        assert forall|id: u16| is_named(names, id) implies is_named(now, id) && #[trigger] now[id] == names[id] by {
            assert(is_named(so_far, id) && so_far[id] == names[id]);
            if id != object.id {
                assert(now.contains_key(id) <==> so_far.contains_key(id));
                assert(now[id] == so_far[id]);
            }
        }
        assert forall|i: int| 0 <= i < n implies is_named(now, (#[trigger] pool[i]).id) by {
            if i < n - 1 {
                assert(is_named(so_far, pool[i].id));
                assert(now.contains_key(pool[i].id) <==> so_far.contains_key(pool[i].id));
                assert(now[pool[i].id] == so_far[pool[i].id]);
            }
        }
        assert forall|i: int, j: int|
            0 <= i < pool.len() && 0 <= j < n && i != j && !is_named(names, (#[trigger] pool[j]).id) implies shown_name_of(
            now,
            #[trigger] pool[i],
        ) != now[pool[j].id].unwrap() by {
            if is_named(so_far, object.id) {
                if j == n - 1 {
                    assert(names.contains_key(pool[j].id) && so_far[pool[j].id] == names[pool[j].id]);
                }
            } else {
                if j == n - 1 {
                    assert(pool[i].id != object.id);
                } else if i == n - 1 {
                    assert(pool[j].id != object.id);
                    assert(is_named(so_far, pool[j].id));
                    assert(now.contains_key(pool[j].id) <==> so_far.contains_key(pool[j].id));
                    assert(now[pool[j].id] == so_far[pool[j].id]);
                    assert(shown_name_of(now, pool[j]) == shown_name_of(so_far, pool[j]));
                    assert(shown_name_of(now, pool[j]) != now[object.id].unwrap());
                } else {
                    assert(pool[i].id != object.id && pool[j].id != object.id);
                    assert(is_named(so_far, pool[j].id));
                    assert(now.contains_key(pool[j].id) <==> so_far.contains_key(pool[j].id));
                    assert(now[pool[j].id] == so_far[pool[j].id]);
                    assert(now.contains_key(pool[i].id) <==> so_far.contains_key(pool[i].id));
                    assert(so_far.contains_key(pool[i].id) ==> now[pool[i].id] == so_far[pool[i].id]);
                    assert(shown_name_of(now, pool[i]) == shown_name_of(so_far, pool[i]));
                }
            }
        }
    }
}

} // verus!
