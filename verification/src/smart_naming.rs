//! The naming service: names for objects that a user has not named, each
//! made of the words for the object's type and a number, and different from
//! every name already in use.

use vstd::prelude::*;
use vstd::string::*;
use vstd::set_lib::{lemma_int_range, lemma_len_subset, set_int_range};
use crate::decimal::{decimal, decimal_is_injective, decimal_string};
use crate::object_type::ObjectType;

verus! {

/// The name shown for an object that has no name of its own.
pub open spec fn default_name(id: u16, object_type: ObjectType) -> Seq<char> {
    "Object "@ + decimal(id as nat) + " ("@ + object_type.spec_name() + ")"@
}

/// The name shown for an object that has no name of its own.
pub fn default_object_name(id: u16, object_type: ObjectType) -> (r: String)
    ensures
        r@ == default_name(id, object_type),
{
    let number = decimal_string(id as u128);
    String::from_str("Object ").concat(number.as_str()).concat(" (").concat(object_type.name()).concat(")")
}

/// The words by which an object type is shown to a user.
pub fn get_object_type_name(object_type: ObjectType) -> (r: &'static str)
    ensures
        r@ == object_type.spec_name(),
{
    object_type.name()
}

/// The `n`th generated name for objects of a type: the words for the type, a
/// space, and `n` in decimal digits.
pub open spec fn smart_name(object_type: ObjectType, n: nat) -> Seq<char> {
    object_type.spec_name() + " "@ + decimal(n)
}

/// The generated names of one type differ where their numbers differ.
pub proof fn smart_names_differ(object_type: ObjectType, a: nat, b: nat)
    requires
        smart_name(object_type, a) == smart_name(object_type, b),
    ensures
        a == b,
{
    let prefix = object_type.spec_name() + " "@;
    let x = prefix + decimal(a);
    let y = prefix + decimal(b);
    assert(x.subrange(prefix.len() as int, x.len() as int) =~= decimal(a));
    assert(y.subrange(prefix.len() as int, y.len() as int) =~= decimal(b));
    decimal_is_injective(a, b);
}

/// Whether `n` is the number of the first generated name of the type that
/// is not among `names`.
pub open spec fn is_first_free(names: Set<Seq<char>>, object_type: ObjectType, n: nat) -> bool {
    &&& n >= 1
    &&& !names.contains(smart_name(object_type, n))
    &&& forall|m: nat| 1 <= m < n ==> names.contains(#[trigger] smart_name(object_type, m))
}

/// At most one number is the first free one.
pub proof fn first_free_is_unique(names: Set<Seq<char>>, object_type: ObjectType, a: nat, b: nat)
    requires
        is_first_free(names, object_type, a),
        is_first_free(names, object_type, b),
    ensures
        a == b,
{
    if a < b {
        assert(names.contains(smart_name(object_type, a)));
    } else if b < a {
        assert(names.contains(smart_name(object_type, b)));
    }
}

/// Among finitely many names some generated name of every type is missing,
/// so each type has a first free number.
pub proof fn first_free_exists(names: Set<Seq<char>>, object_type: ObjectType)
    requires
        names.finite(),
    ensures
        exists|n: nat| is_first_free(names, object_type, n),
{
    first_free_from(names, object_type, 1, Set::empty());
}

/// The search for the first free number from `n` on, when the names before
/// `n` are all taken and `taken` holds them.
proof fn first_free_from(names: Set<Seq<char>>, object_type: ObjectType, n: nat, taken: Set<Seq<char>>)
    requires
        names.finite(),
        n >= 1,
        taken.finite(),
        taken.len() == n - 1,
        taken.subset_of(names),
        forall|name: Seq<char>| taken.contains(name) ==> exists|m: nat| 1 <= m < n && name == smart_name(object_type, m),
        forall|m: nat| 1 <= m < n ==> names.contains(#[trigger] smart_name(object_type, m)),
    ensures
        exists|k: nat| is_first_free(names, object_type, k),
    decreases names.len() + 1 - n,
{
    lemma_len_subset(taken, names);
    let candidate = smart_name(object_type, n);
    if !names.contains(candidate) {
        assert(is_first_free(names, object_type, n));
    } else {
        if taken.contains(candidate) {
            let m = choose|m: nat| 1 <= m < n && candidate == smart_name(object_type, m);
            smart_names_differ(object_type, m, n);
        }
        vstd::set::axiom_set_insert_len(taken, candidate);
        let more = taken.insert(candidate);
        lemma_len_subset(more, names);
        assert forall|name: Seq<char>| more.contains(name) implies exists|m: nat|
            1 <= m < n + 1 && name == smart_name(object_type, m) by {
            if name == candidate {
                assert(1 <= n < n + 1 && name == smart_name(object_type, n));
            } else {
                let m = choose|m: nat| 1 <= m < n && name == smart_name(object_type, m);
                assert(1 <= m < n + 1);
            }
        }
        first_free_from(names, object_type, n + 1, more);
    }
}

/// The names that a list of entries gives to types: of two entries with one
/// name the earlier counts.
pub open spec fn entries_map(entries: Seq<(String, ObjectType)>) -> Map<Seq<char>, ObjectType>
    decreases entries.len(),
{
    if entries.len() == 0 {
        Map::empty()
    } else {
        let earlier = entries_map(entries.drop_last());
        let last = entries.last();
        if earlier.dom().contains(last.0@) {
            earlier
        } else {
            earlier.insert(last.0@, last.1)
        }
    }
}

/// A name is in the map of a list of entries exactly when some entry has it.
pub proof fn entries_map_holds_the_names(entries: Seq<(String, ObjectType)>, name: Seq<char>)
    ensures
        entries_map(entries).dom().contains(name) <==> exists|i: int|
            0 <= i < entries.len() && (#[trigger] entries[i]).0@ == name,
        entries_map(entries).dom().finite(),
    decreases entries.len(),
{
    if entries.len() > 0 {
        let shorter = entries.drop_last();
        entries_map_holds_the_names(shorter, name);
        if entries_map(entries).dom().contains(name) {
            if entries_map(shorter).dom().contains(name) {
                let i = choose|i: int| 0 <= i < shorter.len() && (#[trigger] shorter[i]).0@ == name;
                assert(entries[i].0@ == name);
            } else {
                assert(entries[entries.len() - 1].0@ == name);
            }
        }
        if exists|i: int| 0 <= i < entries.len() && (#[trigger] entries[i]).0@ == name {
            let i = choose|i: int| 0 <= i < entries.len() && (#[trigger] entries[i]).0@ == name;
            if i < entries.len() - 1 {
                assert(shorter[i].0@ == name);
            }
        }
    }
}

/// The names in use, each with the type of the object that bears it.
#[derive(Debug)]
pub struct NameTable {
    entries: Vec<(String, ObjectType)>,
}

impl View for NameTable {
    type V = Map<Seq<char>, ObjectType>;

    closed spec fn view(&self) -> Map<Seq<char>, ObjectType> {
        entries_map(self.entries@)
    }
}

impl NameTable {
    /// The names in use, in the order in which they were recorded.
    pub closed spec fn recorded(&self) -> Seq<Seq<char>> {
        Seq::new(self.entries@.len(), |i: int| self.entries@[i].0@)
    }

    /// A table without names.
    pub fn new() -> (r: NameTable)
        ensures
            r@ == Map::<Seq<char>, ObjectType>::empty(),
            r.recorded() == Seq::<Seq<char>>::empty(),
    {
        let r = NameTable { entries: Vec::new() };
        assert(r.recorded() =~= Seq::<Seq<char>>::empty());
        r
    }

    /// How many names the table holds.
    pub fn len(&self) -> (r: usize)
        ensures
            r == self@.dom().len(),
    {
        proof {
            use_type_invariant(self);
            Self::count_is_the_number_of_names(self.entries@);
        }
        self.entries.len()
    }

    /// The type of the object that bears `name`, if the name is in use.
    pub fn get(&self, name: &String) -> (r: Option<ObjectType>)
        ensures
            r.is_some() == self@.dom().contains(name@),
            r.is_some() ==> r.unwrap() == self@[name@],
    {
        let mut i: usize = 0;
        while i < self.entries.len()
            invariant
                i <= self.entries.len(),
                forall|k: int| 0 <= k < i ==> (#[trigger] self.entries@[k]).0@ != name@,
            decreases self.entries.len() - i,
        {
            if self.entries[i].0 == *name {
                proof {
                    Self::first_entry_counts(self.entries@, i as int);
                }
                return Some(self.entries[i].1);
            }
            i += 1;
        }
        proof {
            entries_map_holds_the_names(self.entries@, name@);
        }
        None
    }

    /// Whether `name` is in use.
    pub fn contains_name(&self, name: &String) -> (r: bool)
        ensures
            r == self@.dom().contains(name@),
    {
        self.get(name).is_some()
    }

    /// Records `name` for an object of the given type, unless the name is in
    /// use already.
    pub fn insert_if_absent(&mut self, name: String, object_type: ObjectType)
        ensures
            final(self)@ == (if old(self)@.dom().contains(name@) {
                old(self)@
            } else {
                old(self)@.insert(name@, object_type)
            }),
            final(self).recorded() == (if old(self)@.dom().contains(name@) {
                old(self).recorded()
            } else {
                old(self).recorded().push(name@)
            }),
    {
        if !self.contains_name(&name) {
            proof {
                use_type_invariant(&*self);
                entries_map_holds_the_names(self.entries@, name@);
            }
            let ghost before = self.entries@;
            let mut entries: Vec<(String, ObjectType)> = Vec::new();
            std::mem::swap(&mut entries, &mut self.entries);
            entries.push((name, object_type));
            assert(entries@.drop_last() =~= before);
            self.entries = entries;
            assert(self.recorded() =~= old(self).recorded().push(name@));
        }
    }

    /// The names in use, in the order in which they were recorded.
    pub fn names(&self) -> (r: Vec<String>)
        ensures
            r@.len() == self.recorded().len(),
            forall|i: int| 0 <= i < r@.len() ==> (#[trigger] r@[i])@ == self.recorded()[i],
            r@.len() == self@.dom().len(),
            forall|i: int| 0 <= i < r@.len() ==> self@.dom().contains(#[trigger] r@[i]@),
            forall|name: Seq<char>| self@.dom().contains(name) ==> exists|i: int| 0 <= i < r@.len() && (#[trigger] r@[i])@ == name,
    {
        let mut out: Vec<String> = Vec::new();
        let mut i: usize = 0;
        while i < self.entries.len()
            invariant
                i <= self.entries.len(),
                out@.len() == i,
                forall|k: int| 0 <= k < i ==> (#[trigger] out@[k])@ == self.entries@[k].0@,
            decreases self.entries.len() - i,
        {
            out.push(self.entries[i].0.clone());
            i += 1;
        }
        proof {
            use_type_invariant(self);
            Self::count_is_the_number_of_names(self.entries@);
            assert forall|k: int| 0 <= k < out@.len() implies self@.dom().contains(#[trigger] out@[k]@) by {
                entries_map_holds_the_names(self.entries@, out@[k]@);
                assert(self.entries@[k].0@ == out@[k]@);
            }
            assert forall|name: Seq<char>| self@.dom().contains(name) implies exists|k: int|
                0 <= k < out@.len() && (#[trigger] out@[k])@ == name by {
                entries_map_holds_the_names(self.entries@, name);
                let k = choose|k: int| 0 <= k < self.entries@.len() && (#[trigger] self.entries@[k]).0@ == name;
                assert(out@[k]@ == name);
            }
        }
        out
    }

    /// What holds of every table: no two of its entries have the same name.
    #[verifier::type_invariant]
    pub closed spec fn names_are_distinct(&self) -> bool {
        forall|i: int, j: int|
            0 <= i < j < self.entries@.len() ==> (#[trigger] self.entries@[i]).0@ != (#[trigger] self.entries@[j]).0@
    }

    /// The first entry with a name is the one that the map goes by.
    proof fn first_entry_counts(entries: Seq<(String, ObjectType)>, i: int)
        requires
            0 <= i < entries.len(),
            forall|k: int| 0 <= k < i ==> (#[trigger] entries[k]).0@ != entries[i].0@,
        ensures
            entries_map(entries).dom().contains(entries[i].0@),
            entries_map(entries)[entries[i].0@] == entries[i].1,
        decreases entries.len(),
    {
        let shorter = entries.drop_last();
        if i < entries.len() - 1 {
            assert(forall|k: int| 0 <= k < i ==> (#[trigger] shorter[k]) == entries[k]);
            assert(shorter[i] == entries[i]);
            Self::first_entry_counts(shorter, i);
        } else {
            entries_map_holds_the_names(shorter, entries[i].0@);
            if entries_map(shorter).dom().contains(entries[i].0@) {
                let k = choose|k: int| 0 <= k < shorter.len() && (#[trigger] shorter[k]).0@ == entries[i].0@;
                assert(entries[k].0@ == entries[i].0@);
            }
        }
    }

    /// Entries with distinct names give as many names as there are entries.
    proof fn count_is_the_number_of_names(entries: Seq<(String, ObjectType)>)
        requires
            forall|i: int, j: int| 0 <= i < j < entries.len() ==> (#[trigger] entries[i]).0@ != (#[trigger] entries[j]).0@,
        ensures
            entries_map(entries).dom().finite(),
            entries_map(entries).dom().len() == entries.len(),
        decreases entries.len(),
    {
        if entries.len() > 0 {
            let shorter = entries.drop_last();
            assert(forall|k: int| 0 <= k < shorter.len() ==> (#[trigger] shorter[k]) == entries[k]);
            Self::count_is_the_number_of_names(shorter);
            let last = entries.last();
            entries_map_holds_the_names(shorter, last.0@);
            if entries_map(shorter).dom().contains(last.0@) {
                let k = choose|k: int| 0 <= k < shorter.len() && (#[trigger] shorter[k]).0@ == last.0@;
                assert(entries[k].0@ != entries[entries.len() - 1].0@);
            }
            assert(entries_map(entries).dom() =~= entries_map(shorter).dom().insert(last.0@));
        }
    }
}

/// A name for a new object of the given type that is in use nowhere in
/// `existing_names`: the words for the type, a space and a number, the
/// number being the lowest, from one, that gives a name not in use.
pub fn generate_smart_default_name(object_type: ObjectType, existing_names: &NameTable) -> (r: String)
    ensures
        !existing_names@.dom().contains(r@),
        exists|n: nat| is_first_free(existing_names@.dom(), object_type, n) && r@ == #[trigger] smart_name(object_type, n),
{
    let ghost entries = existing_names.entries@;
    let ghost names = existing_names@.dom();
    let count = existing_names.entries.len();
    let ghost mut places: Set<int> = Set::empty();
    let mut n: u128 = 1;
    proof {
        lemma_int_range(0, count as int);
    }
    loop
        invariant
            entries == existing_names.entries@,
            names == existing_names@.dom(),
            count == entries.len(),
            1 <= n <= count + 1,
            set_int_range(0, count as int).finite(),
            set_int_range(0, count as int).len() == count,
            places.finite(),
            places.len() == n - 1,
            places.subset_of(set_int_range(0, count as int)),
            forall|p: int| places.contains(p) ==> exists|m: nat| 1 <= m < n && (#[trigger] entries[p]).0@ == smart_name(object_type, m),
            forall|m: nat| 1 <= m < n ==> names.contains(#[trigger] smart_name(object_type, m)),
        decreases count + 1 - n,
    {
        let number = decimal_string(n);
        let candidate = String::from_str(object_type.name()).concat(" ").concat(number.as_str());
        assert(candidate@ == smart_name(object_type, n as nat));
        if !existing_names.contains_name(&candidate) {
            proof {
                assert(is_first_free(names, object_type, n as nat));
            }
            return candidate;
        }
        proof {
            entries_map_holds_the_names(entries, candidate@);
            let p = choose|p: int| 0 <= p < entries.len() && (#[trigger] entries[p]).0@ == candidate@;
            if places.contains(p) {
                let m = choose|m: nat| 1 <= m < n && entries[p].0@ == smart_name(object_type, m);
                smart_names_differ(object_type, m, n as nat);
            }
            vstd::set::axiom_set_insert_len(places, p);
            lemma_len_subset(places.insert(p), set_int_range(0, count as int));
            assert forall|q: int| places.insert(p).contains(q) implies exists|m: nat|
                1 <= m < n + 1 && (#[trigger] entries[q]).0@ == smart_name(object_type, m) by {
                if q == p {
                    assert(entries[q].0@ == smart_name(object_type, n as nat));
                } else {
                    let m = choose|m: nat| 1 <= m < n && entries[q].0@ == smart_name(object_type, m);
                    assert(1 <= m < n + 1);
                }
            }
            places = places.insert(p);
        }
        n += 1;
    }
}

} // verus!
