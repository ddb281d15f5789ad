//! The object pool: the objects of a design, each under an identifier of its
//! own, kept in an order that matters only for showing and for export.

use vstd::prelude::*;
use vstd::string::*;
use vstd::std_specs::cmp::PartialEqSpecImpl;
use crate::object::{Object, ObjectView};
use crate::object_id::ObjectId;
use crate::object_type::ObjectType;

verus! {

/// Whether some object of `pool` has the number `id`.
pub open spec fn has_id(pool: Seq<ObjectView>, id: u16) -> bool {
    exists|i: int| 0 <= i < pool.len() && (#[trigger] pool[i]).id == id
}

/// A place in `pool` at which the object numbered `id` stands, where there
/// is one.
pub open spec fn position(pool: Seq<ObjectView>, id: u16) -> int {
    choose|i: int| 0 <= i < pool.len() && (#[trigger] pool[i]).id == id
}

/// The object of `pool` that has the number `id`, where there is one.
pub open spec fn object_with(pool: Seq<ObjectView>, id: u16) -> ObjectView {
    pool[position(pool, id)]
}

/// Whether no two objects of `pool` share a number.
pub open spec fn distinct_ids(pool: Seq<ObjectView>) -> bool {
    forall|i: int, j: int| 0 <= i < j < pool.len() ==> (#[trigger] pool[i]).id != (#[trigger] pool[j]).id
}

/// `pool` with `object` put under its own number: in the place of the object
/// that had that number, or at the end where none had it.
pub open spec fn with_object(pool: Seq<ObjectView>, object: ObjectView) -> Seq<ObjectView> {
    if has_id(pool, object.id) {
        pool.update(position(pool, object.id), object)
    } else {
        pool.push(object)
    }
}

/// `pool` without the object numbered `id`.
pub open spec fn without_id(pool: Seq<ObjectView>, id: u16) -> Seq<ObjectView> {
    if has_id(pool, id) {
        pool.remove(position(pool, id))
    } else {
        pool
    }
}

/// In a pool without repeated numbers, the place of a number is the only
/// place that holds it.
pub proof fn position_is_unique(pool: Seq<ObjectView>, i: int)
    requires
        distinct_ids(pool),
        0 <= i < pool.len(),
    ensures
        position(pool, pool[i].id) == i,
        has_id(pool, pool[i].id),
        object_with(pool, pool[i].id) == pool[i],
{
    let p = position(pool, pool[i].id);
    assert(0 <= p < pool.len() && pool[p].id == pool[i].id);
    if p < i {
        assert(pool[p].id != pool[i].id);
    } else if i < p {
        assert(pool[i].id != pool[p].id);
    }
}

/// Putting an object into a pool keeps the numbers distinct, holds that
/// object under its number and leaves every other number as it was.
pub proof fn with_object_properties(pool: Seq<ObjectView>, object: ObjectView)
    requires
        distinct_ids(pool),
    ensures
        distinct_ids(with_object(pool, object)),
        has_id(with_object(pool, object), object.id),
        object_with(with_object(pool, object), object.id) == object,
        forall|id: u16| id != object.id ==> (has_id(with_object(pool, object), id) <==> #[trigger] has_id(pool, id)),
        forall|id: u16|
            id != object.id && has_id(pool, id) ==> #[trigger] object_with(with_object(pool, object), id)
                == object_with(pool, id),
{
    let after = with_object(pool, object);
    let at = if has_id(pool, object.id) {
        position(pool, object.id)
    } else {
        pool.len() as int
    };
    assert(after.len() > at && after[at] == object);
    assert forall|k: int| 0 <= k < after.len() && k != at implies k < pool.len() && #[trigger] after[k] == pool[k]
        && pool[k].id != object.id by {
        if has_id(pool, object.id) {
            if k < at {
                assert(pool[k].id != pool[at].id);
            } else {
                assert(pool[at].id != pool[k].id);
            }
        }
    }
    assert(distinct_ids(after)) by {
        assert forall|i: int, j: int| 0 <= i < j < after.len() implies (#[trigger] after[i]).id != (
        #[trigger] after[j]).id by {
            if i != at && j != at {
                assert(pool[i].id != pool[j].id);
            }
        }
    }
    position_is_unique(after, at);
    assert forall|id: u16| id != object.id implies (has_id(after, id) <==> #[trigger] has_id(pool, id)) by {
        if has_id(after, id) {
            let k = position(after, id);
            assert(pool[k].id == id);
        }
        if has_id(pool, id) {
            let k = position(pool, id);
            assert(after[k].id == id);
        }
    }
    assert forall|id: u16| id != object.id && has_id(pool, id) implies #[trigger] object_with(after, id)
        == object_with(pool, id) by {
        let k = position(pool, id);
        assert(after[k] == pool[k]);
        position_is_unique(after, k);
    }
}

/// Taking a number out of a pool keeps the numbers distinct, frees that
/// number and leaves every other number as it was.
pub proof fn without_id_properties(pool: Seq<ObjectView>, removed: u16)
    requires
        distinct_ids(pool),
    ensures
        distinct_ids(without_id(pool, removed)),
        !has_id(without_id(pool, removed), removed),
        forall|id: u16| id != removed ==> (has_id(without_id(pool, removed), id) <==> #[trigger] has_id(pool, id)),
        forall|id: u16|
            id != removed && has_id(pool, id) ==> #[trigger] object_with(without_id(pool, removed), id)
                == object_with(pool, id),
{
    let after = without_id(pool, removed);
    if has_id(pool, removed) {
        let at = position(pool, removed);
        assert forall|k: int| 0 <= k < after.len() implies #[trigger] after[k] == pool[if k < at {
            k
        } else {
            k + 1
        }] by {}
        assert(distinct_ids(after)) by {
            assert forall|i: int, j: int| 0 <= i < j < after.len() implies (#[trigger] after[i]).id != (
            #[trigger] after[j]).id by {
                let pi = if i < at { i } else { i + 1 };
                let pj = if j < at { j } else { j + 1 };
                assert(pool[pi].id != pool[pj].id);
            }
        }
        assert(!has_id(after, removed)) by {
            if has_id(after, removed) {
                let k = position(after, removed);
                let pk = if k < at { k } else { k + 1 };
                assert(pool[pk].id == removed);
                if pk < at {
                    assert(pool[pk].id != pool[at].id);
                } else {
                    assert(pool[at].id != pool[pk].id);
                }
            }
        }
        assert forall|id: u16| id != removed implies (has_id(after, id) <==> #[trigger] has_id(pool, id)) by {
            if has_id(after, id) {
                let k = position(after, id);
                let pk = if k < at { k } else { k + 1 };
                assert(pool[pk].id == id);
            }
            if has_id(pool, id) {
                let k = position(pool, id);
                let ak = if k < at { k } else { k - 1 };
                assert(after[ak].id == id);
            }
        }
        assert forall|id: u16| id != removed && has_id(pool, id) implies #[trigger] object_with(after, id)
            == object_with(pool, id) by {
            let k = position(pool, id);
            let ak = if k < at { k } else { k - 1 };
            assert(after[ak] == pool[k]);
            position_is_unique(after, ak);
        }
    }
}

/// The first object of `pool` that has the given type, if there is one.
pub open spec fn first_with_type(pool: Seq<ObjectView>, object_type: ObjectType) -> Option<ObjectView>
    decreases pool.len(),
{
    if pool.len() == 0 {
        None
    } else if pool[0].object_type == object_type {
        Some(pool[0])
    } else {
        first_with_type(pool.drop_first(), object_type)
    }
}

/// The numbers of the objects among the first `n` of `pool` that contain the
/// object numbered `id` directly, in the order of the pool.
pub open spec fn parents_of(pool: Seq<ObjectView>, id: u16, n: nat) -> Seq<u16>
    decreases n,
{
    if n == 0 || n > pool.len() {
        Seq::empty()
    } else {
        let earlier = parents_of(pool, id, (n - 1) as nat);
        if pool[n - 1].has_child(id) {
            earlier.push(pool[n - 1].id)
        } else {
            earlier
        }
    }
}

/// `pool` with the object numbered `from` renumbered `to`, in its place.
pub open spec fn renumbered_in_place(pool: Seq<ObjectView>, from: u16, to: u16) -> Seq<ObjectView> {
    pool.update(position(pool, from), ObjectView { id: to, ..object_with(pool, from) })
}

/// Whether the object numbered `from` can be renumbered `to`: whether the
/// pool holds it and holds no other object under `to`.
pub open spec fn can_renumber(pool: Seq<ObjectView>, from: u16, to: u16) -> bool {
    has_id(pool, from) && (from == to || !has_id(pool, to))
}

/// Whether the name `a` comes before the name `b` in the order of the
/// dictionary, character by character.
pub open spec fn name_precedes(a: Seq<char>, b: Seq<char>) -> bool
    decreases a.len(),
{
    if b.len() == 0 {
        false
    } else if a.len() == 0 {
        true
    } else if a[0] != b[0] {
        a[0] < b[0]
    } else {
        name_precedes(a.drop_first(), b.drop_first())
    }
}

/// The first place from `from` on and before `upto` at which a name stands
/// that `name` comes before, or `upto` where there is none.
pub open spec fn place_before(names: Seq<Seq<char>>, name: Seq<char>, from: int, upto: int) -> int
    decreases upto - from,
{
    if from >= upto {
        upto
    } else if name_precedes(name, names[from]) {
        from
    } else {
        place_before(names, name, from + 1, upto)
    }
}

/// `names` after the first `n` of them have been put in order, one after the
/// other: each is moved forward to stand before the first name that it
/// comes before.
pub open spec fn names_in_order(names: Seq<Seq<char>>, n: nat) -> Seq<Seq<char>>
    decreases n,
{
    if n == 0 || n > names.len() {
        names
    } else {
        let earlier = names_in_order(names, (n - 1) as nat);
        let to = place_before(earlier, earlier[n - 1], 0, n - 1);
        earlier.remove(n - 1).insert(to, earlier[n - 1])
    }
}

/// `pool` after the first `n` of its objects have been put in the order of
/// `names`, of which each belongs to the object at the same place: each
/// object is moved forward with its name. Objects with the same name stay in
/// the order they had.
pub open spec fn arranged_by_name(pool: Seq<ObjectView>, names: Seq<Seq<char>>, n: nat) -> Seq<ObjectView>
    decreases n,
{
    if n == 0 || n > pool.len() {
        pool
    } else {
        let earlier = names_in_order(names, (n - 1) as nat);
        let to = place_before(earlier, earlier[n - 1], 0, n - 1);
        moved_forward(arranged_by_name(pool, names, (n - 1) as nat), n - 1, to)
    }
}

/// The place that `place_before` gives lies between its bounds.
pub proof fn place_before_is_in_bounds(names: Seq<Seq<char>>, name: Seq<char>, from: int, upto: int)
    requires
        from <= upto,
    ensures
        from <= place_before(names, name, from, upto) <= upto,
    decreases upto - from,
{
    if from < upto && !name_precedes(name, names[from]) {
        place_before_is_in_bounds(names, name, from + 1, upto);
    }
}

/// Putting names in order keeps their number.
pub proof fn names_in_order_keep_their_number(names: Seq<Seq<char>>, n: nat)
    ensures
        names_in_order(names, n).len() == names.len(),
    decreases n,
{
    if n > 0 && n <= names.len() {
        names_in_order_keep_their_number(names, (n - 1) as nat);
        let earlier = names_in_order(names, (n - 1) as nat);
        place_before_is_in_bounds(earlier, earlier[n - 1], 0, n - 1);
    }
}

/// Putting a pool in the order of names keeps its objects: the same objects,
/// and no number twice.
pub proof fn arranged_by_name_keeps_the_objects(pool: Seq<ObjectView>, names: Seq<Seq<char>>, n: nat)
    requires
        distinct_ids(pool),
        names.len() == pool.len(),
    ensures
        distinct_ids(arranged_by_name(pool, names, n)),
        arranged_by_name(pool, names, n).to_multiset() == pool.to_multiset(),
        arranged_by_name(pool, names, n).len() == pool.len(),
    decreases n,
{
    if n > 0 && n <= pool.len() {
        arranged_by_name_keeps_the_objects(pool, names, (n - 1) as nat);
        names_in_order_keep_their_number(names, (n - 1) as nat);
        let earlier = names_in_order(names, (n - 1) as nat);
        place_before_is_in_bounds(earlier, earlier[n - 1], 0, n - 1);
        moved_forward_properties(
            arranged_by_name(pool, names, (n - 1) as nat),
            n - 1,
            place_before(earlier, earlier[n - 1], 0, n - 1),
        );
    }
}

/// The order of the dictionary carries over: a name that comes before a
/// second, which comes before a third, comes before the third.
pub proof fn name_precedes_is_transitive(a: Seq<char>, b: Seq<char>, c: Seq<char>)
    requires
        name_precedes(a, b),
        name_precedes(b, c),
    ensures
        name_precedes(a, c),
    decreases a.len(),
{
    if a.len() > 0 && a[0] == b[0] && b[0] == c[0] {
        name_precedes_is_transitive(a.drop_first(), b.drop_first(), c.drop_first());
    }
}

/// No name comes before itself.
pub proof fn name_precedes_is_irreflexive(a: Seq<char>)
    ensures
        !name_precedes(a, a),
    decreases a.len(),
{
    if a.len() > 0 {
        name_precedes_is_irreflexive(a.drop_first());
    }
}

/// Before the place that `place_before` gives stands no name that `name`
/// comes before, and at that place stands one, unless the place is `upto`.
pub proof fn place_before_is_the_first(names: Seq<Seq<char>>, name: Seq<char>, from: int, upto: int)
    requires
        from <= upto,
    ensures
        forall|k: int| from <= k < place_before(names, name, from, upto) ==> !name_precedes(name, #[trigger] names[k]),
        place_before(names, name, from, upto) < upto ==> name_precedes(
            name,
            names[place_before(names, name, from, upto)],
        ),
    decreases upto - from,
{
    if from < upto && !name_precedes(name, names[from]) {
        place_before_is_the_first(names, name, from + 1, upto);
    }
}

/// After the first `n` names have been put in order, none of them comes
/// before one that stands before it.
pub proof fn names_in_order_are_ordered(names: Seq<Seq<char>>, n: nat)
    requires
        n <= names.len(),
    ensures
        forall|a: int, b: int|
            0 <= a < b < n ==> !name_precedes(
                #[trigger] names_in_order(names, n)[b],
                #[trigger] names_in_order(names, n)[a],
            ),
    decreases n,
{
    if n > 0 {
        let m = (n - 1) as nat;
        names_in_order_are_ordered(names, m);
        names_in_order_keep_their_number(names, m);
        let earlier = names_in_order(names, m);
        let name = earlier[n - 1];
        let to = place_before(earlier, name, 0, n - 1);
        place_before_is_in_bounds(earlier, name, 0, n - 1);
        place_before_is_the_first(earlier, name, 0, n - 1);
        let now = names_in_order(names, n);
        assert forall|a: int, b: int| 0 <= a < b < n implies !name_precedes(#[trigger] now[b], #[trigger] now[a]) by {
            let from_a = if a < to { a } else if a == to { n - 1 } else { a - 1 };
            let from_b = if b < to { b } else if b == to { n - 1 } else { b - 1 };
            assert(now[a] == earlier[from_a]);
            assert(now[b] == earlier[from_b]);
            if a == to {
                // What stood at `to` and after comes after the name moved there.
                if name_precedes(now[b], name) {
                    if from_b > to {
                        assert(!name_precedes(earlier[from_b], earlier[to]));
                    }
                    name_precedes_is_transitive(now[b], name, earlier[to]);
                    name_precedes_is_irreflexive(earlier[to]);
                }
            } else if b == to {
                assert(!name_precedes(name, earlier[from_a]));
            } else {
                assert(!name_precedes(earlier[from_b], earlier[from_a]));
            }
        }
    }
}

/// When a pool is put in the order of names, each name stays with its
/// object: where the names at first are those that `name_of` gives to the
/// objects, they are so afterwards, place by place.
pub proof fn names_stay_with_their_objects(
    pool: Seq<ObjectView>,
    names: Seq<Seq<char>>,
    name_of: spec_fn(ObjectView) -> Seq<char>,
    n: nat,
)
    requires
        names.len() == pool.len(),
        forall|k: int| 0 <= k < pool.len() ==> #[trigger] names[k] == name_of(pool[k]),
    ensures
        arranged_by_name(pool, names, n).len() == pool.len(),
        names_in_order(names, n).len() == pool.len(),
        forall|k: int|
            0 <= k < pool.len() ==> #[trigger] names_in_order(names, n)[k] == name_of(arranged_by_name(pool, names, n)[k]),
    decreases n,
{
    if n > 0 && n <= pool.len() {
        let m = (n - 1) as nat;
        names_stay_with_their_objects(pool, names, name_of, m);
        let earlier = names_in_order(names, m);
        let before = arranged_by_name(pool, names, m);
        let to = place_before(earlier, earlier[n - 1], 0, n - 1);
        place_before_is_in_bounds(earlier, earlier[n - 1], 0, n - 1);
        let now = names_in_order(names, n);
        let after = arranged_by_name(pool, names, n);
        assert forall|k: int| 0 <= k < pool.len() implies #[trigger] now[k] == name_of(after[k]) by {
            let from = if k < to { k } else if k == to { n - 1 } else if k <= n - 1 { k - 1 } else { k };
            assert(now[k] == earlier[from]);
            assert(after[k] == before[from]);
        }
    }
}

/// Whether the objects of `pool` stand in the order of their numbers.
pub open spec fn sorted_by_id(pool: Seq<ObjectView>) -> bool {
    forall|i: int, j: int| 0 <= i < j < pool.len() ==> (#[trigger] pool[i]).id < (#[trigger] pool[j]).id
}

/// A pool has one arrangement in the order of the numbers: two pools that
/// hold the same objects, each in that order, are the same.
pub proof fn sorted_arrangement_is_unique(a: Seq<ObjectView>, b: Seq<ObjectView>)
    requires
        sorted_by_id(a),
        sorted_by_id(b),
        a.to_multiset() == b.to_multiset(),
    ensures
        a == b,
    decreases a.len(),
{
    vstd::seq_lib::to_multiset_len(a);
    vstd::seq_lib::to_multiset_len(b);
    assert(a.len() == b.len());
    if a.len() == 0 {
        assert(a =~= b);
    } else {
        assert(a.contains(a[0]));
        assert(b.contains(b[0]));
        vstd::seq_lib::to_multiset_contains(a, a[0]);
        vstd::seq_lib::to_multiset_contains(b, a[0]);
        vstd::seq_lib::to_multiset_contains(a, b[0]);
        vstd::seq_lib::to_multiset_contains(b, b[0]);
        assert(b.contains(a[0]));
        assert(a.contains(b[0]));
        let j = choose|j: int| 0 <= j < b.len() && b[j] == a[0];
        let i = choose|i: int| 0 <= i < a.len() && a[i] == b[0];
        if j > 0 {
            assert(b[0].id < b[j].id);
            if i > 0 {
                assert(a[0].id < a[i].id);
            }
        }
        assert(a[0] == b[0]);
        vstd::seq_lib::to_multiset_remove(a, 0);
        vstd::seq_lib::to_multiset_remove(b, 0);
        assert(a.remove(0) =~= a.drop_first());
        assert(b.remove(0) =~= b.drop_first());
        assert forall|x: int, y: int| 0 <= x < y < a.drop_first().len() implies (#[trigger] a.drop_first()[x]).id < (
        #[trigger] a.drop_first()[y]).id by {
            assert(a[x + 1].id < a[y + 1].id);
        }
        assert forall|x: int, y: int| 0 <= x < y < b.drop_first().len() implies (#[trigger] b.drop_first()[x]).id < (
        #[trigger] b.drop_first()[y]).id by {
            assert(b[x + 1].id < b[y + 1].id);
        }
        sorted_arrangement_is_unique(a.drop_first(), b.drop_first());
        assert(a =~= seq![a[0]] + a.drop_first());
        assert(b =~= seq![b[0]] + b.drop_first());
    }
}

/// `pool` with the object at place `from` moved forward to place `to`.
pub open spec fn moved_forward(pool: Seq<ObjectView>, from: int, to: int) -> Seq<ObjectView> {
    pool.remove(from).insert(to, pool[from])
}

/// Moving an object to another place keeps the numbers distinct and the
/// objects the same.
pub proof fn moved_forward_properties(pool: Seq<ObjectView>, from: int, to: int)
    requires
        distinct_ids(pool),
        0 <= to <= from < pool.len(),
    ensures
        distinct_ids(moved_forward(pool, from, to)),
        moved_forward(pool, from, to).to_multiset() == pool.to_multiset(),
        moved_forward(pool, from, to).len() == pool.len(),
        forall|a: int| 0 <= a < to ==> moved_forward(pool, from, to)[a] == pool[a],
        moved_forward(pool, from, to)[to] == pool[from],
        forall|a: int| to < a <= from ==> moved_forward(pool, from, to)[a] == pool[a - 1],
        forall|a: int| from < a < pool.len() ==> moved_forward(pool, from, to)[a] == pool[a],
{
    broadcast use vstd::multiset::group_multiset_axioms;

    let after = moved_forward(pool, from, to);
    vstd::seq_lib::to_multiset_remove(pool, from);
    vstd::seq_lib::to_multiset_insert(pool.remove(from), to, pool[from]);
    pool.to_multiset_ensures();
    assert(pool.to_multiset().count(pool[from]) > 0);
    assert(after.to_multiset() =~= pool.to_multiset());
    assert forall|a: int, b: int| 0 <= a < b < after.len() implies (#[trigger] after[a]).id != (#[trigger] after[b]).id by {
        let pa = if a < to { a } else if a == to { from } else if a <= from { a - 1 } else { a };
        let pb = if b < to { b } else if b == to { from } else if b <= from { b - 1 } else { b };
        assert(after[a] == pool[pa]);
        assert(after[b] == pool[pb]);
        if pa < pb {
            assert(pool[pa].id != pool[pb].id);
        } else {
            assert(pool[pb].id != pool[pa].id);
        }
    }
}

/// The characters of `text`.
fn chars_of(text: &str) -> (r: Vec<char>)
    ensures
        r@ == text@,
{
    let mut out: Vec<char> = Vec::new();
    let count = text.unicode_len();
    let mut i: usize = 0;
    while i < count
        invariant
            i <= count == text@.len(),
            out@ == text@.subrange(0, i as int),
        decreases count - i,
    {
        out.push(text.get_char(i));
        assert(out@ =~= text@.subrange(0, i + 1));
        i += 1;
    }
    assert(text@.subrange(0, i as int) =~= text@);
    out
}

/// Whether the name `a` comes before the name `b`.
fn precedes(a: &Vec<char>, b: &Vec<char>) -> (r: bool)
    ensures
        r == name_precedes(a@, b@),
{
    let mut i: usize = 0;
    assert(a@.subrange(0, a@.len() as int) =~= a@);
    assert(b@.subrange(0, b@.len() as int) =~= b@);
    while i < a.len() && i < b.len()
        invariant
            i <= a@.len(),
            i <= b@.len(),
            name_precedes(a@, b@) == name_precedes(a@.subrange(i as int, a@.len() as int), b@.subrange(i as int, b@.len() as int)),
        decreases a@.len() - i,
    {
        let ghost rest_a = a@.subrange(i as int, a@.len() as int);
        let ghost rest_b = b@.subrange(i as int, b@.len() as int);
        assert(rest_a[0] == a@[i as int] && rest_b[0] == b@[i as int]);
        assert(rest_a.drop_first() =~= a@.subrange(i + 1, a@.len() as int));
        assert(rest_b.drop_first() =~= b@.subrange(i + 1, b@.len() as int));
        if a[i] != b[i] {
            return a[i] < b[i];
        }
        i += 1;
    }
    i < b.len()
}

/// The objects of a design. No two of them share an identifier.
#[derive(Debug)]
pub struct ObjectPool {
    objects: Vec<Object>,
}

impl View for ObjectPool {
    type V = Seq<ObjectView>;

    closed spec fn view(&self) -> Seq<ObjectView> {
        Seq::new(self.objects@.len(), |i: int| self.objects@[i]@)
    }
}

impl ObjectPool {
    /// What holds of every pool: no two of its objects share a number.
    #[verifier::type_invariant]
    pub open spec fn ids_are_distinct(&self) -> bool {
        distinct_ids(self@)
    }

    /// A pool without objects.
    pub fn new() -> (r: ObjectPool)
        ensures
            r@ == Seq::<ObjectView>::empty(),
    {
        let r = ObjectPool { objects: Vec::new() };
        assert(r@ =~= Seq::<ObjectView>::empty());
        r
    }

    /// The objects of the pool, in their order.
    pub fn objects(&self) -> (r: &Vec<Object>)
        ensures
            r@.len() == self@.len(),
            forall|i: int| 0 <= i < r@.len() ==> (#[trigger] r@[i])@ == self@[i],
    {
        &self.objects
    }

    /// How many objects the pool holds.
    pub fn len(&self) -> (r: usize)
        ensures
            r == self@.len(),
    {
        self.objects.len()
    }

    /// Whether the pool holds no object.
    pub fn is_empty(&self) -> (r: bool)
        ensures
            r == (self@.len() == 0),
    {
        self.objects.len() == 0
    }

    /// The place of the object with the identifier `id`, if the pool holds one.
    pub fn index_of(&self, id: ObjectId) -> (r: Option<usize>)
        ensures
            r.is_some() == has_id(self@, id.spec_value()),
            r.is_some() ==> r.unwrap() == position(self@, id.spec_value()),
    {
        let mut i: usize = 0;
        while i < self.objects.len()
            invariant
                i <= self.objects.len(),
                forall|k: int| 0 <= k < i ==> (#[trigger] self@[k]).id != id.spec_value(),
            decreases self.objects.len() - i,
        {
            if self.objects[i].id.value() == id.value() {
                proof {
                    use_type_invariant(self);
                    position_is_unique(self@, i as int);
                }
                return Some(i);
            }
            i += 1;
        }
        None
    }

    /// Whether the pool holds an object with the identifier `id`.
    pub fn contains(&self, id: ObjectId) -> (r: bool)
        ensures
            r == has_id(self@, id.spec_value()),
    {
        self.index_of(id).is_some()
    }

    /// The object with the identifier `id`, if the pool holds one.
    pub fn object_by_id(&self, id: ObjectId) -> (r: Option<&Object>)
        ensures
            r.is_some() == has_id(self@, id.spec_value()),
            r.is_some() ==> r.unwrap()@ == object_with(self@, id.spec_value()),
            r.is_some() ==> r.unwrap().id == id,
    {
        match self.index_of(id) {
            Some(i) => {
                proof {
                    ObjectId::same_value_same_id(self.objects[i as int].id, id);
                }
                Some(&self.objects[i])
            },
            None => None,
        }
    }

    /// The first object of the given type, if the pool holds one.
    pub fn first_of_type(&self, object_type: ObjectType) -> (r: Option<&Object>)
        ensures
            r.is_some() == first_with_type(self@, object_type).is_some(),
            r.is_some() ==> r.unwrap()@ == first_with_type(self@, object_type).unwrap(),
    {
        let mut i: usize = 0;
        assert(self@.subrange(0, self@.len() as int) =~= self@);
        while i < self.objects.len()
            invariant
                i <= self.objects.len(),
                first_with_type(self@, object_type) == first_with_type(
                    self@.subrange(i as int, self@.len() as int),
                    object_type,
                ),
            decreases self.objects.len() - i,
        {
            let ghost rest = self@.subrange(i as int, self@.len() as int);
            assert(rest[0] == self@[i as int]);
            if self.objects[i].object_type == object_type {
                return Some(&self.objects[i]);
            }
            assert(rest.drop_first() =~= self@.subrange(i + 1, self@.len() as int));
            i += 1;
        }
        assert(self@.subrange(i as int, self@.len() as int) =~= Seq::<ObjectView>::empty());
        None
    }

    /// Puts `object` into the pool under its own identifier: in the place of
    /// the object that had that identifier, or at the end where none had it.
    pub fn add(&mut self, object: Object)
        ensures
            final(self)@ == with_object(old(self)@, object@),
    {
        proof {
            use_type_invariant(&*self);
            with_object_properties(self@, object@);
        }
        let ghost before = self@;
        let found = self.index_of(object.id);
        let mut objects: Vec<Object> = Vec::new();
        std::mem::swap(&mut objects, &mut self.objects);
        match found {
            Some(i) => {
                objects[i] = object;
            },
            None => {
                objects.push(object);
            },
        }
        assert(Seq::new(objects@.len(), |i: int| objects@[i]@) =~= with_object(before, object@));
        self.objects = objects;
    }

    /// Takes the object with the identifier `id` out of the pool and returns
    /// it, if the pool holds one.
    pub fn remove(&mut self, id: ObjectId) -> (r: Option<Object>)
        ensures
            final(self)@ == without_id(old(self)@, id.spec_value()),
            r.is_some() == has_id(old(self)@, id.spec_value()),
            r.is_some() ==> r.unwrap()@ == object_with(old(self)@, id.spec_value()),
    {
        proof {
            use_type_invariant(&*self);
            without_id_properties(self@, id.spec_value());
        }
        let ghost before = self@;
        match self.index_of(id) {
            Some(i) => {
                let mut objects: Vec<Object> = Vec::new();
                std::mem::swap(&mut objects, &mut self.objects);
                let taken = objects.remove(i);
                assert(Seq::new(objects@.len(), |k: int| objects@[k]@) =~= without_id(before, id.spec_value()));
                self.objects = objects;
                Some(taken)
            },
            None => None,
        }
    }

    /// Gives the object `from` the identifier `to`, in its place, unless the
    /// pool holds no such object or holds another one under `to`. Returns
    /// whether the object was renumbered. References to the object stay as
    /// they are.
    pub fn change_id(&mut self, from: ObjectId, to: ObjectId) -> (changed: bool)
        ensures
            changed == can_renumber(old(self)@, from.spec_value(), to.spec_value()),
            final(self)@ == (if changed {
                renumbered_in_place(old(self)@, from.spec_value(), to.spec_value())
            } else {
                old(self)@
            }),
    {
        proof {
            use_type_invariant(&*self);
        }
        let ghost before = self@;
        let at = match self.index_of(from) {
            Some(at) => at,
            None => {
                return false;
            },
        };
        if from.value() != to.value() && self.contains(to) {
            return false;
        }
        let mut objects: Vec<Object> = Vec::new();
        std::mem::swap(&mut objects, &mut self.objects);
        let mut object = objects[at].clone();
        object.set_id(to);
        objects[at] = object;
        proof {
            let after = Seq::new(objects@.len(), |i: int| objects@[i]@);
            assert(after =~= renumbered_in_place(before, from.spec_value(), to.spec_value()));
            assert forall|i: int, j: int| 0 <= i < j < after.len() implies (#[trigger] after[i]).id != (#[trigger] after[j]).id by {
                assert(before[i].id != before[j].id);
                if i == at {
                    assert(after[j] == before[j]);
                } else if j == at {
                    assert(after[i] == before[i]);
                }
            }
        }
        self.objects = objects;
        true
    }

    /// Puts the objects of the pool in the order of `names`, of which each
    /// belongs to the object at the same place. Objects with the same name
    /// stay in the order they had.
    pub(crate) fn sort_by_names(&mut self, names: &Vec<String>)
        requires
            names@.len() == old(self)@.len(),
        ensures
            final(self)@ == arranged_by_name(
                old(self)@,
                Seq::new(names@.len(), |i: int| names@[i]@),
                old(self)@.len(),
            ),
    {
        proof {
            use_type_invariant(&*self);
        }
        let ghost before = self@;
        let ghost name_views = Seq::new(names@.len(), |i: int| names@[i]@);
        let mut keys: Vec<Vec<char>> = Vec::new();
        let mut n: usize = 0;
        while n < names.len()
            invariant
                n <= names@.len(),
                keys@.len() == n,
                name_views == Seq::new(names@.len(), |i: int| names@[i]@),
                forall|k: int| 0 <= k < n ==> (#[trigger] keys@[k])@ == name_views[k],
            decreases names@.len() - n,
        {
            keys.push(chars_of(names[n].as_str()));
            n += 1;
        }
        let mut objects: Vec<Object> = Vec::new();
        std::mem::swap(&mut objects, &mut self.objects);
        let count = objects.len();
        assert(Seq::new(keys@.len(), |k: int| keys@[k]@) =~= names_in_order(name_views, 0));
        assert(Seq::new(objects@.len(), |k: int| objects@[k]@) =~= arranged_by_name(before, name_views, 0));
        let mut i: usize = 0;
        while i < count
            invariant
                i <= count == before.len() == name_views.len(),
                objects@.len() == count,
                keys@.len() == count,
                distinct_ids(before),
                Seq::new(keys@.len(), |k: int| keys@[k]@) == names_in_order(name_views, i as nat),
                Seq::new(objects@.len(), |k: int| objects@[k]@) == arranged_by_name(before, name_views, i as nat),
            decreases count - i,
        {
            let ghost key_views = Seq::new(keys@.len(), |k: int| keys@[k]@);
            let ghost object_views = Seq::new(objects@.len(), |k: int| objects@[k]@);
            let mut to: usize = 0;
            assert(key_views[i as int] == keys@[i as int]@);
            while to < i && !precedes(&keys[i], &keys[to])
                invariant
                    to <= i < keys@.len(),
                    key_views == Seq::new(keys@.len(), |k: int| keys@[k]@),
                    place_before(key_views, key_views[i as int], 0, i as int) == place_before(
                        key_views,
                        key_views[i as int],
                        to as int,
                        i as int,
                    ),
                decreases i - to,
            {
                assert(key_views[to as int] == keys@[to as int]@);
                assert(key_views[i as int] == keys@[i as int]@);
                to += 1;
            }
            proof {
                if to < i {
                    assert(key_views[to as int] == keys@[to as int]@);
                    assert(key_views[i as int] == keys@[i as int]@);
                }
                assert(place_before(key_views, key_views[i as int], 0, i as int) == to);
                arranged_by_name_keeps_the_objects(before, name_views, i as nat);
            }
            let key = keys.remove(i);
            keys.insert(to, key);
            let object = objects.remove(i);
            objects.insert(to, object);
            proof {
                assert(Seq::new(keys@.len(), |k: int| keys@[k]@) =~= key_views.remove(i as int).insert(
                    to as int,
                    key_views[i as int],
                ));
                assert(Seq::new(objects@.len(), |k: int| objects@[k]@) =~= moved_forward(object_views, i as int, to as int));
            }
            i += 1;
        }
        proof {
            arranged_by_name_keeps_the_objects(before, name_views, count as nat);
        }
        self.objects = objects;
    }

    /// The objects that contain the object `id` directly, in the order of the
    /// pool.
    pub fn referencing_objects(&self, id: ObjectId) -> (r: Vec<ObjectId>)
        ensures
            r@.len() == parents_of(self@, id.spec_value(), self@.len()).len(),
            forall|k: int|
                0 <= k < r@.len() ==> (#[trigger] r@[k]).spec_value() == parents_of(self@, id.spec_value(), self@.len())[k],
    {
        let mut out: Vec<ObjectId> = Vec::new();
        let mut i: usize = 0;
        while i < self.objects.len()
            invariant
                i <= self.objects.len(),
                out@.len() == parents_of(self@, id.spec_value(), i as nat).len(),
                forall|k: int|
                    0 <= k < out@.len() ==> (#[trigger] out@[k]).spec_value() == parents_of(self@, id.spec_value(), i as nat)[k],
            decreases self.objects.len() - i,
        {
            assert(self@[i as int] == self.objects@[i as int]@);
            if self.objects[i].contains(id) {
                out.push(self.objects[i].id);
            }
            i += 1;
        }
        out
    }

    /// Whether no object of the pool contains the object `id` directly.
    pub fn is_root(&self, id: ObjectId) -> (r: bool)
        ensures
            r == (parents_of(self@, id.spec_value(), self@.len()).len() == 0),
    {
        self.referencing_objects(id).len() == 0
    }

    /// Puts the objects of the pool in the order of their identifiers. The
    /// pool holds the same objects afterwards.
    pub fn sort_by_id(&mut self)
        ensures
            sorted_by_id(final(self)@),
            final(self)@.to_multiset() == old(self)@.to_multiset(),
    {
        proof {
            use_type_invariant(&*self);
        }
        let ghost before = self@;
        let mut objects: Vec<Object> = Vec::new();
        std::mem::swap(&mut objects, &mut self.objects);
        let mut i: usize = 0;
        while i < objects.len()
            invariant
                i <= objects@.len(),
                distinct_ids(Seq::new(objects@.len(), |k: int| objects@[k]@)),
                Seq::new(objects@.len(), |k: int| objects@[k]@).to_multiset() == before.to_multiset(),
                forall|a: int, b: int| 0 <= a < b < i ==> (#[trigger] objects@[a]).id.spec_value() < (#[trigger] objects@[b]).id.spec_value(),
            decreases objects@.len() - i,
        {
            let ghost current = Seq::new(objects@.len(), |k: int| objects@[k]@);
            let id = objects[i].id.value();
            let mut k: usize = 0;
            while k < i && objects[k].id.value() < id
                invariant
                    k <= i < objects@.len(),
                    id == objects@[i as int].id.spec_value(),
                    forall|a: int| 0 <= a < k ==> (#[trigger] objects@[a]).id.spec_value() < id,
                decreases i - k,
            {
                k += 1;
            }
            proof {
                moved_forward_properties(current, i as int, k as int);
                assert(forall|a: int| 0 <= a < objects@.len() ==> current[a].id == (#[trigger] objects@[a]).id.spec_value());
                if k < i {
                    assert(current[k as int].id != current[i as int].id);
                }
            }
            let moved = objects.remove(i);
            objects.insert(k, moved);
            proof {
                let after = Seq::new(objects@.len(), |n: int| objects@[n]@);
                assert(after =~= moved_forward(current, i as int, k as int));
                assert forall|a: int, b: int| 0 <= a < b < i + 1 implies (#[trigger] objects@[a]).id.spec_value() < (
                #[trigger] objects@[b]).id.spec_value() by {
                    assert(after[a].id == objects@[a].id.spec_value());
                    assert(after[b].id == objects@[b].id.spec_value());
                    let pa = if a < k { a } else if a == k { i as int } else { a - 1 };
                    let pb = if b < k { b } else if b == k { i as int } else { b - 1 };
                    assert(after[a] == current[pa]);
                    assert(after[b] == current[pb]);
                    if a < k && b > k {
                        assert(current[a].id < id);
                        assert(current[pb].id >= current[k as int].id);
                    }
                }
            }
            i += 1;
        }
        proof {
            let after = Seq::new(objects@.len(), |n: int| objects@[n]@);
            assert forall|a: int, b: int| 0 <= a < b < after.len() implies (#[trigger] after[a]).id < (#[trigger] after[b]).id by {
                assert(after[a].id == objects@[a].id.spec_value());
                assert(after[b].id == objects@[b].id.spec_value());
            }
        }
        self.objects = objects;
    }
}

impl Clone for ObjectPool {
    fn clone(&self) -> (r: ObjectPool)
        ensures
            r@ == self@,
    {
        let mut objects: Vec<Object> = Vec::new();
        let mut i: usize = 0;
        while i < self.objects.len()
            invariant
                i <= self.objects.len(),
                objects@.len() == i,
                forall|k: int| 0 <= k < i ==> (#[trigger] objects@[k])@ == self.objects@[k]@,
            decreases self.objects.len() - i,
        {
            objects.push(self.objects[i].clone());
            i += 1;
        }
        proof {
            use_type_invariant(self);
            assert(Seq::new(objects@.len(), |k: int| objects@[k]@) =~= self@);
        }
        ObjectPool { objects }
    }
}

impl PartialEq for ObjectPool {
    fn eq(&self, other: &ObjectPool) -> (r: bool) {
        if self.objects.len() != other.objects.len() {
            assert(self@.len() != other@.len());
            return false;
        }
        let mut i: usize = 0;
        while i < self.objects.len()
            invariant
                i <= self.objects.len() == other.objects.len(),
                forall|k: int| 0 <= k < i ==> (#[trigger] self@[k]) == other@[k],
            decreases self.objects.len() - i,
        {
            if self.objects[i] != other.objects[i] {
                assert(self@[i as int] != other@[i as int]);
                return false;
            }
            i += 1;
        }
        assert(self@ =~= other@);
        true
    }
}

impl PartialEqSpecImpl for ObjectPool {
    open spec fn obeys_eq_spec() -> bool {
        true
    }

    open spec fn eq_spec(&self, other: &ObjectPool) -> bool {
        self@ == other@
    }
}

impl Default for ObjectPool {
    fn default() -> (r: ObjectPool)
        ensures
            r@ == Seq::<ObjectView>::empty(),
    {
        ObjectPool::new()
    }
}

/// The font that a new text field refers to: the first font attributes
/// object of `pool`, or the identifier zero where there is no pool or no
/// such object in it.
pub fn default_font_attributes(pool: Option<&ObjectPool>) -> (r: ObjectId)
    ensures
        r.spec_value() == (match pool {
            Some(pool) => match first_with_type(pool@, ObjectType::FontAttributes) {
                Some(font) => font.id,
                None => 0,
            },
            None => 0,
        }),
{
    match pool {
        Some(pool) => match pool.first_of_type(ObjectType::FontAttributes) {
            Some(font) => font.id,
            None => ObjectId::default(),
        },
        None => ObjectId::default(),
    }
}

} // verus!
