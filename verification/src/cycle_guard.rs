//! The cycle guard: whether one object already contains another, directly or
//! through objects in between, so that placing the first inside the second
//! would close a circle.

use vstd::prelude::*;
use vstd::set_lib::{lemma_int_range, lemma_len_subset, set_int_range};
use crate::object::{Object, ObjectView, Reference};
use crate::object_id::ObjectId;
use crate::object_pool::{distinct_ids, has_id, object_with, with_object, with_object_properties, ObjectPool};

verus! {

/// Whether the object numbered `from` is in the pool and holds a structural
/// reference to the number `to`.
pub open spec fn contains_directly(pool: Seq<ObjectView>, from: u16, to: u16) -> bool {
    has_id(pool, from) && object_with(pool, from).has_child(to)
}

/// Whether each number of `path` is held, by a structural reference, by the
/// object numbered as the one before it.
pub open spec fn is_path(pool: Seq<ObjectView>, path: Seq<u16>) -> bool {
    path.len() >= 1 && forall|k: int|
        0 <= k < path.len() - 1 ==> contains_directly(pool, #[trigger] path[k], path[k + 1])
}

/// Whether a chain of one or more structural references leads from the
/// object numbered `from` to the number `to`.
pub open spec fn contains_transitively(pool: Seq<ObjectView>, from: u16, to: u16) -> bool {
    exists|path: Seq<u16>| #[trigger] is_path(pool, path) && path.len() >= 2 && path.first() == from && path.last() == to
}

/// Whether `to` is `from` or is contained in it through some chain of
/// structural references.
pub open spec fn reaches(pool: Seq<ObjectView>, from: u16, to: u16) -> bool {
    from == to || contains_transitively(pool, from, to)
}

/// What is reached stays reached one structural reference further on.
pub proof fn reaches_one_further(pool: Seq<ObjectView>, from: u16, through: u16, to: u16)
    requires
        reaches(pool, from, through),
        contains_directly(pool, through, to),
    ensures
        contains_transitively(pool, from, to),
{
    if from == through {
        let path = seq![from, to];
        assert(is_path(pool, path));
        assert(path.first() == from && path.last() == to);
    } else {
        let first = choose|path: Seq<u16>| #[trigger]
            is_path(pool, path) && path.len() >= 2 && path.first() == from && path.last() == through;
        let path = first.push(to);
        assert forall|k: int| 0 <= k < path.len() - 1 implies contains_directly(pool, #[trigger] path[k], path[k + 1]) by {
            if k < first.len() - 1 {
                assert(path[k] == first[k] && path[k + 1] == first[k + 1]);
            }
        }
        assert(is_path(pool, path));
        assert(path.first() == from && path.last() == to);
    }
}

/// A set of numbers that holds the start of a path, and with each number
/// all that the object under it contains, holds the whole path.
proof fn closed_set_holds_path(pool: Seq<ObjectView>, closed: Seq<bool>, path: Seq<u16>, k: int)
    requires
        closed.len() == 65536,
        is_path(pool, path),
        closed[path.first() as int],
        forall|x: u16, y: u16| closed[x as int] && #[trigger] contains_directly(pool, x, y) ==> closed[y as int],
        0 <= k < path.len(),
    ensures
        closed[path[k] as int],
    decreases k,
{
    if k > 0 {
        closed_set_holds_path(pool, closed, path, k - 1);
        assert(contains_directly(pool, path[k - 1], path[k - 1 + 1]));
    }
}

/// Whether some identifier of `stack` has the number `id`.
pub open spec fn is_among(ids: Seq<ObjectId>, id: u16) -> bool {
    exists|k: int| 0 <= k < ids.len() && (#[trigger] ids[k]).spec_value() == id
}

/// Whether `to` is one of `roots` or is contained in one of them through
/// some chain of structural references.
pub open spec fn reaches_from_any(pool: Seq<ObjectView>, roots: Seq<ObjectId>, to: u16) -> bool {
    exists|k: int| 0 <= k < roots.len() && reaches(pool, (#[trigger] roots[k]).spec_value(), to)
}

/// Goes from `roots` through the structural references of the pool, depth
/// first, and marks every number it comes to. With a `target`, the search
/// ends as soon as it comes to that number, and says so.
///
/// The search marks each object it has been through, so it ends even in a
/// pool that holds a circle, and it passes over references to objects that
/// the pool does not hold. Without a `target`, or where the target is not
/// found, the marks it returns are exactly the numbers reached.
pub fn search_from(pool: &ObjectPool, roots: &Vec<ObjectId>, target: Option<ObjectId>) -> (r: (bool, Vec<bool>))
    ensures
        r.1@.len() == 65536,
        r.0 ==> target.is_some() && reaches_from_any(pool@, roots@, target.unwrap().spec_value()),
        !r.0 ==> forall|x: u16| #[trigger] r.1@[x as int] <==> reaches_from_any(pool@, roots@, x),
        !r.0 && target.is_some() ==> !reaches_from_any(pool@, roots@, target.unwrap().spec_value()),
{
    let mut visited: Vec<bool> = vec![false; 65536];
    let mut stack: Vec<ObjectId> = Vec::new();
    let mut n: usize = 0;
    while n < roots.len()
        invariant
            n <= roots@.len(),
            stack@ == roots@.subrange(0, n as int),
        decreases roots@.len() - n,
    {
        stack.push(roots[n]);
        n += 1;
        assert(stack@ =~= roots@.subrange(0, n as int));
    }
    assert(stack@ =~= roots@);
    let ghost mut seen: Set<int> = Set::empty();
    proof {
        lemma_int_range(0, 65536);
        assert forall|k: int| 0 <= k < stack@.len() implies reaches_from_any(
            pool@,
            roots@,
            (#[trigger] stack@[k]).spec_value(),
        ) by {
            assert(reaches(pool@, roots@[k].spec_value(), stack@[k].spec_value()));
        }
    }
    while stack.len() > 0
        invariant
            visited@.len() == 65536,
            seen.finite(),
            seen.subset_of(set_int_range(0, 65536)),
            set_int_range(0, 65536).finite(),
            set_int_range(0, 65536).len() == 65536,
            forall|x: int| 0 <= x < 65536 ==> (seen.contains(x) <==> #[trigger] visited@[x]),
            forall|k: int| 0 <= k < stack@.len() ==> reaches_from_any(pool@, roots@, (#[trigger] stack@[k]).spec_value()),
            forall|x: u16| #[trigger] visited@[x as int] ==> reaches_from_any(pool@, roots@, x),
            forall|x: u16, y: u16|
                visited@[x as int] && #[trigger] contains_directly(pool@, x, y) ==> visited@[y as int] || is_among(
                    stack@,
                    y,
                ),
            forall|k: int|
                0 <= k < roots@.len() ==> visited@[(#[trigger] roots@[k]).spec_value() as int] || is_among(
                    stack@,
                    roots@[k].spec_value(),
                ),
            target.is_some() ==> !visited@[target.unwrap().spec_value() as int],
        decreases 65536 - seen.len(), stack@.len(),
    {
        let ghost stack_before = stack@;
        let ghost visited_before = visited@;
        let current_id = stack.pop().unwrap();
        let current = current_id.value();
        assert(stack_before[stack_before.len() - 1] == current_id);
        assert(reaches_from_any(pool@, roots@, current));
        proof {
            assert forall|y: u16| is_among(stack_before, y) implies is_among(stack@, y) || y == current by {
                let k = choose|k: int| 0 <= k < stack_before.len() && (#[trigger] stack_before[k]).spec_value() == y;
                if k < stack@.len() {
                    assert(stack@[k].spec_value() == y);
                }
            }
        }
        if !visited[current as usize] {
            if let Some(wanted) = target {
                if current == wanted.value() {
                    return (true, visited);
                }
            }
            visited[current as usize] = true;
            proof {
                assert(!seen.contains(current as int));
                vstd::set::axiom_set_insert_len(seen, current as int);
                lemma_len_subset(seen.insert(current as int), set_int_range(0, 65536));
                seen = seen.insert(current as int);
            }
            let ghost root = choose|k: int| 0 <= k < roots@.len() && reaches(pool@, (#[trigger] roots@[k]).spec_value(), current);
            match pool.object_by_id(current_id) {
                Some(object) => {
                    let children = object.referenced_objects();
                    let ghost stack_popped = stack@;
                    assert(stack_popped =~= stack_before.drop_last());
                    let mut j: usize = 0;
                    while j < children.len()
                        invariant
                            j <= children@.len(),
                            stack@.len() == stack_popped.len() + j,
                            forall|k: int| 0 <= k < stack_popped.len() ==> stack@[k] == stack_popped[k],
                            forall|k: int| 0 <= k < j ==> stack@[stack_popped.len() + k] == children@[k],
                        decreases children@.len() - j,
                    {
                        stack.push(children[j]);
                        j += 1;
                    }
                    proof {
                        assert forall|k: int| 0 <= k < stack@.len() implies reaches_from_any(
                            pool@,
                            roots@,
                            (#[trigger] stack@[k]).spec_value(),
                        ) by {
                            if k >= stack_popped.len() {
                                let c = children@[k - stack_popped.len()];
                                assert(stack@[k] == c);
                                let held = Object::children(object@.references);
                                assert(held[k - stack_popped.len()] == c.spec_value());
                                assert(held.contains(c.spec_value()));
                                Object::children_are_the_structural_targets(object@.references, c.spec_value());
                                reaches_one_further(pool@, roots@[root].spec_value(), current, c.spec_value());
                                assert(reaches(pool@, roots@[root].spec_value(), c.spec_value()));
                            } else {
                                assert(stack@[k] == stack_popped[k]);
                                assert(stack_popped[k] == stack_before[k]);
                            }
                        }
                        assert forall|y: u16| is_among(stack_popped, y) implies is_among(stack@, y) by {
                            let k = choose|k: int|
                                0 <= k < stack_popped.len() && (#[trigger] stack_popped[k]).spec_value() == y;
                            assert(stack@[k].spec_value() == y);
                        }
                        assert forall|x: u16, y: u16|
                            visited@[x as int] && #[trigger] contains_directly(pool@, x, y) implies visited@[y as int]
                                || is_among(stack@, y) by {
                            if x == current {
                                Object::children_are_the_structural_targets(object@.references, y);
                                let held = Object::children(object@.references);
                                let k = choose|k: int| 0 <= k < held.len() && held[k] == y;
                                assert(stack@[stack_popped.len() + k] == children@[k]);
                                assert(stack@[stack_popped.len() + k].spec_value() == y);
                            } else {
                                assert(visited_before[x as int]);
                            }
                        }
                    }
                },
                None => {
                    proof {
                        assert forall|x: u16, y: u16|
                            visited@[x as int] && #[trigger] contains_directly(pool@, x, y) implies visited@[y as int]
                                || is_among(stack@, y) by {
                            if x != current {
                                assert(visited_before[x as int]);
                            }
                        }
                    }
                },
            }
            proof {
                assert forall|x: u16| #[trigger] visited@[x as int] implies reaches_from_any(pool@, roots@, x) by {
                    if x != current {
                        assert(visited_before[x as int]);
                    }
                }
            }
        }
    }
    proof {
        assert forall|x: u16, y: u16| visited@[x as int] && #[trigger] contains_directly(pool@, x, y) implies visited@[y as int] by {
            assert(!is_among(stack@, y));
        }
        assert forall|x: u16| reaches_from_any(pool@, roots@, x) implies #[trigger] visited@[x as int] by {
            let k = choose|k: int| 0 <= k < roots@.len() && reaches(pool@, (#[trigger] roots@[k]).spec_value(), x);
            let from = roots@[k].spec_value();
            assert(!is_among(stack@, from));
            assert(visited@[from as int]);
            if from != x {
                let path = choose|path: Seq<u16>| #[trigger]
                    is_path(pool@, path) && path.len() >= 2 && path.first() == from && path.last() == x;
                closed_set_holds_path(pool@, visited@, path, path.len() - 1);
            }
        }
    }
    (false, visited)
}

/// Whether making the object `child_id` a child of the object `parent_id`
/// would close a circle: whether the two are the same object, or `child_id`
/// already contains `parent_id`, directly or through other objects.
///
/// The answer is found by a search from `child_id` that marks each object
/// it has been through, so it is given even for a pool that holds a circle
/// already.
pub fn would_create_circular_reference(pool: &ObjectPool, parent_id: ObjectId, child_id: ObjectId) -> (r: bool)
    ensures
        r == (parent_id == child_id || contains_transitively(pool@, child_id.spec_value(), parent_id.spec_value())),
{
    if parent_id.value() == child_id.value() {
        proof {
            ObjectId::same_value_same_id(parent_id, child_id);
        }
        return true;
    }
    let mut roots: Vec<ObjectId> = Vec::new();
    roots.push(child_id);
    let (found, _) = search_from(pool, &roots, Some(parent_id));
    proof {
        let child = child_id.spec_value();
        let parent = parent_id.spec_value();
        if reaches_from_any(pool@, roots@, parent) {
            let k = choose|k: int| 0 <= k < roots@.len() && reaches(pool@, (#[trigger] roots@[k]).spec_value(), parent);
            assert(roots@[k] == child_id);
        }
        if contains_transitively(pool@, child, parent) {
            assert(reaches(pool@, roots@[0].spec_value(), parent));
        }
    }
    found
}

/// Whether no object of `pool` contains itself, directly or through other
/// objects.
pub open spec fn is_acyclic(pool: Seq<ObjectView>) -> bool {
    forall|id: u16| !#[trigger] contains_transitively(pool, id, id)
}

/// Whether giving `reference` to the object numbered `parent` would close a
/// circle: whether the reference is structural and its target is `parent`
/// itself or something that contains `parent`.
pub open spec fn closes_circle(pool: Seq<ObjectView>, parent: u16, reference: Reference) -> bool {
    reference.structural && reference.target.0.is_some() && reaches(
        pool,
        reference.target.0.unwrap().spec_value(),
        parent,
    )
}

/// `pool` with `reference` added at the end of the references of the object
/// numbered `parent`.
pub open spec fn with_reference(pool: Seq<ObjectView>, parent: u16, reference: Reference) -> Seq<ObjectView> {
    with_object(
        pool,
        ObjectView { references: object_with(pool, parent).references.push(reference), ..object_with(pool, parent) },
    )
}

/// After a reference has been added, an object contains directly what it
/// contained before, and the parent contains the target of the reference if
/// the reference is structural.
proof fn contents_after_adding(pool: Seq<ObjectView>, parent: u16, reference: Reference, from: u16, to: u16)
    requires
        distinct_ids(pool),
        has_id(pool, parent),
    ensures
        contains_directly(with_reference(pool, parent, reference), from, to) <==> contains_directly(pool, from, to) || (
        from == parent && reference.contains_child(to)),
{
    let before = object_with(pool, parent);
    let changed = ObjectView { references: before.references.push(reference), ..before };
    let after = with_reference(pool, parent, reference);
    with_object_properties(pool, changed);
    assert(changed.id == parent);
    if from == parent {
        assert(object_with(after, parent) == changed);
        if changed.has_child(to) {
            let j = choose|j: int| 0 <= j < changed.references.len() && (#[trigger] changed.references[j]).contains_child(to);
            if j < before.references.len() {
                assert(before.references[j].contains_child(to));
            }
        }
        if before.has_child(to) {
            let j = choose|j: int| 0 <= j < before.references.len() && (#[trigger] before.references[j]).contains_child(to);
            assert(changed.references[j].contains_child(to));
        }
        if reference.contains_child(to) {
            assert(changed.references[before.references.len() as int].contains_child(to));
        }
    } else {
        assert(has_id(after, from) <==> has_id(pool, from));
        if has_id(pool, from) {
            assert(object_with(after, from) == object_with(pool, from));
        }
    }
}

/// Two paths of which the second starts where the first ends make one path.
proof fn joined_is_path(pool: Seq<ObjectView>, first: Seq<u16>, second: Seq<u16>)
    requires
        is_path(pool, first),
        is_path(pool, second),
        first.last() == second.first(),
    ensures
        is_path(pool, first + second.drop_first()),
        (first + second.drop_first()).first() == first.first(),
        (first + second.drop_first()).last() == second.last(),
{
    let joined = first + second.drop_first();
    assert forall|k: int| 0 <= k < joined.len() - 1 implies contains_directly(pool, #[trigger] joined[k], joined[k + 1]) by {
        if k < first.len() - 1 {
            assert(joined[k] == first[k] && joined[k + 1] == first[k + 1]);
        } else if k == first.len() - 1 {
            assert(joined[k] == second[0] && joined[k + 1] == second[1]);
        } else {
            let n = k - first.len() + 1;
            assert(joined[k] == second[n] && joined[k + 1] == second[n + 1]);
        }
    }
}

/// The first place at or after `from` where `path` steps from `parent` to
/// `child`, or the length of the path where it never does.
spec fn first_step(path: Seq<u16>, parent: u16, child: u16, from: int) -> int
    decreases path.len() - from,
{
    if from < 0 || from + 1 >= path.len() {
        path.len() as int
    } else if path[from] == parent && path[from + 1] == child {
        from
    } else {
        first_step(path, parent, child, from + 1)
    }
}

proof fn first_step_is_first(path: Seq<u16>, parent: u16, child: u16, from: int)
    requires
        0 <= from,
    ensures
        from <= first_step(path, parent, child, from) || first_step(path, parent, child, from) == path.len(),
        first_step(path, parent, child, from) < path.len() ==> first_step(path, parent, child, from) + 1 < path.len()
            && path[first_step(path, parent, child, from)] == parent && path[first_step(path, parent, child, from) + 1]
            == child,
        forall|k: int|
            from <= k < first_step(path, parent, child, from) && k + 1 < path.len() ==> !(#[trigger] path[k] == parent
                && path[k + 1] == child),
    decreases path.len() - from,
{
    if from + 1 < path.len() && !(path[from] == parent && path[from + 1] == child) {
        first_step_is_first(path, parent, child, from + 1);
    }
}

/// The last place before `upto` where `path` steps from `parent` to
/// `child`, or -1 where it never does.
spec fn last_step(path: Seq<u16>, parent: u16, child: u16, upto: int) -> int
    decreases upto,
{
    if upto <= 0 || upto >= path.len() {
        -1
    } else if path[upto - 1] == parent && path[upto] == child {
        upto - 1
    } else {
        last_step(path, parent, child, upto - 1)
    }
}

proof fn last_step_is_last(path: Seq<u16>, parent: u16, child: u16, upto: int)
    requires
        upto < path.len(),
    ensures
        -1 <= last_step(path, parent, child, upto) < upto || upto <= 0,
        last_step(path, parent, child, upto) >= 0 ==> path[last_step(path, parent, child, upto)] == parent && path[last_step(
            path,
            parent,
            child,
            upto,
        ) + 1] == child,
        forall|k: int|
            last_step(path, parent, child, upto) < k < upto && 0 <= k ==> !(#[trigger] path[k] == parent && path[k + 1]
                == child),
    decreases upto,
{
    if upto > 0 && !(path[upto - 1] == parent && path[upto] == child) {
        last_step_is_last(path, parent, child, upto - 1);
    }
}

/// A reference that the cycle guard lets through closes no circle: a pool
/// in which no object contains itself stays such a pool when an object of
/// it is given a reference that does not close a circle.
pub proof fn guarded_reference_keeps_pool_acyclic(pool: Seq<ObjectView>, parent: u16, reference: Reference)
    requires
        distinct_ids(pool),
        has_id(pool, parent),
        is_acyclic(pool),
        !closes_circle(pool, parent, reference),
    ensures
        is_acyclic(with_reference(pool, parent, reference)),
{
    let after = with_reference(pool, parent, reference);
    assert forall|id: u16| !#[trigger] contains_transitively(after, id, id) by {
        if contains_transitively(after, id, id) {
            let path = choose|path: Seq<u16>| #[trigger]
                is_path(after, path) && path.len() >= 2 && path.first() == id && path.last() == id;
            assert forall|k: int| 0 <= k < path.len() - 1 implies contains_directly(pool, #[trigger] path[k], path[k + 1]) || (
            path[k] == parent && reference.contains_child(path[k + 1])) by {
                contents_after_adding(pool, parent, reference, path[k], path[k + 1]);
            }
            if reference.structural && reference.target.0.is_some() {
                let child = reference.target.0.unwrap().spec_value();
                let first = first_step(path, parent, child, 0);
                let last = last_step(path, parent, child, path.len() - 1);
                first_step_is_first(path, parent, child, 0);
                last_step_is_last(path, parent, child, path.len() - 1);
                if first < path.len() {
                    // From the child to the end of the circle, and from its start to the parent.
                    assert(last >= first) by {
                        if last < first {
                            assert(!(path[first] == parent && path[first + 1] == child));
                        }
                    }
                    let ending = path.subrange(last + 1, path.len() as int);
                    let beginning = path.subrange(0, first + 1);
                    assert forall|k: int| 0 <= k < ending.len() - 1 implies contains_directly(pool, #[trigger] ending[k], ending[k + 1]) by {
                        assert(ending[k] == path[last + 1 + k] && ending[k + 1] == path[last + 1 + k + 1]);
                        assert(!(path[last + 1 + k] == parent && path[last + 1 + k + 1] == child));
                    }
                    assert forall|k: int| 0 <= k < beginning.len() - 1 implies contains_directly(
                        pool,
                        #[trigger] beginning[k],
                        beginning[k + 1],
                    ) by {
                        assert(beginning[k] == path[k] && beginning[k + 1] == path[k + 1]);
                        assert(!(path[k] == parent && path[k + 1] == child));
                    }
                    assert(is_path(pool, ending));
                    assert(is_path(pool, beginning));
                    joined_is_path(pool, ending, beginning);
                    let around = ending + beginning.drop_first();
                    assert(around.first() == child && around.last() == parent);
                    if around.len() >= 2 {
                        assert(contains_transitively(pool, child, parent));
                    } else {
                        assert(child == parent);
                    }
                    assert(reaches(pool, child, parent));
                } else {
                    assert forall|k: int| 0 <= k < path.len() - 1 implies contains_directly(pool, #[trigger] path[k], path[k + 1]) by {
                        assert(!(path[k] == parent && path[k + 1] == child));
                    }
                    assert(is_path(pool, path));
                    assert(contains_transitively(pool, id, id));
                }
            } else {
                assert(is_path(pool, path));
                assert(contains_transitively(pool, id, id));
            }
        }
    }
}

} // verus!
