//! What a design records about an object beside the object itself: the name
//! that a user gave it.

use vstd::prelude::*;
use vstd::string::*;
use crate::object::{Object, ObjectView};
use crate::smart_naming::{default_name, default_object_name};

verus! {

/// The record kept about one object.
#[derive(Debug)]
pub struct ObjectInfo {
    /// The name given to the object, if it has one.
    pub name: Option<String>,
}

impl ObjectInfo {
    /// The name given to the object, as a sequence of characters.
    pub open spec fn spec_name(&self) -> Option<Seq<char>> {
        match self.name {
            Some(name) => Some(name@),
            None => None,
        }
    }

    /// The name under which `object` is shown by a record with the name
    /// `name`: that name, or the default name of the object where there is
    /// none.
    pub open spec fn shown_name(name: Option<Seq<char>>, object: ObjectView) -> Seq<char> {
        match name {
            Some(name) => name,
            None => default_name(object.id, object.object_type),
        }
    }

    /// The record of an object that has not been named.
    pub fn new(object: &Object) -> (r: ObjectInfo)
        ensures
            r.spec_name().is_none(),
    {
        ObjectInfo { name: None }
    }

    /// The name under which `object` is shown: the name given to it, or its
    /// default name where it has none.
    pub fn get_name(&self, object: &Object) -> (r: String)
        ensures
            r@ == Self::shown_name(self.spec_name(), object@),
    {
        match &self.name {
            Some(name) => name.clone(),
            None => default_object_name(object.id.value(), object.object_type),
        }
    }

    /// Gives the object the name `name`.
    pub fn set_name(&mut self, name: String)
        ensures
            final(self).spec_name() == Some(name@),
    {
        self.name = Some(name);
    }
}

/// The names that a map of records holds, by the number of the object; no
/// name where the record holds none.
pub open spec fn recorded_names(object_info: Map<u16, ObjectInfo>) -> Map<u16, Option<Seq<char>>> {
    Map::new(|id: u16| object_info.contains_key(id), |id: u16| object_info[id].spec_name())
}

impl Clone for ObjectInfo {
    fn clone(&self) -> (r: ObjectInfo)
        ensures
            r.spec_name() == self.spec_name(),
    {
        match &self.name {
            Some(name) => ObjectInfo { name: Some(name.clone()) },
            None => ObjectInfo { name: None },
        }
    }
}

} // verus!
