//! Identifiers of objects in a pool.

use vstd::prelude::*;

verus! {

/// The 16-bit value that stands for "no object" wherever an identifier may be
/// absent.
pub const NULL_OBJECT_ID: u16 = 0xFFFF;

/// The identifier of an object: any 16-bit value but [`NULL_OBJECT_ID`].
#[derive(Clone, Copy, Debug, PartialEq, Eq, Structural, Hash, PartialOrd, Ord)]
pub struct ObjectId {
    id: u16,
}

/// Why a 16-bit value is no identifier.
#[derive(Clone, Copy, Debug, PartialEq, Eq, Structural)]
pub enum ParseError {
    /// The value is the one reserved for "no object".
    NullObjectId,
}

impl ObjectId {
    #[verifier::type_invariant]
    spec fn not_null(self) -> bool {
        self.id != NULL_OBJECT_ID
    }

    /// The number this identifier stands for.
    pub closed spec fn spec_value(self) -> u16 {
        self.id
    }

    /// The identifier with the number `id`.
    pub closed spec fn spec_new(id: u16) -> ObjectId {
        ObjectId { id }
    }

    /// The identifier with the number `id` has that number.
    pub broadcast proof fn spec_new_has_value(id: u16)
        ensures
            (#[trigger] Self::spec_new(id)).spec_value() == id,
    {
    }

    /// An identifier is the identifier with its number.
    pub broadcast proof fn is_spec_new_of_value(id: ObjectId)
        ensures
            Self::spec_new(#[trigger] id.spec_value()) == id,
    {
    }

    /// Makes an identifier of `id`, which the reserved value is not.
    pub fn new(id: u16) -> (r: Result<ObjectId, ParseError>)
        ensures
            id == NULL_OBJECT_ID <==> r.is_err(),
            r.is_ok() ==> r.unwrap() == Self::spec_new(id) && r.unwrap().spec_value() == id,
    {
        if id == NULL_OBJECT_ID {
            Err(ParseError::NullObjectId)
        } else {
            Ok(ObjectId { id })
        }
    }

    /// The number this identifier stands for.
    #[verifier::when_used_as_spec(spec_value)]
    pub fn value(self) -> (v: u16)
        ensures
            v == self.spec_value(),
            v != NULL_OBJECT_ID,
    {
        proof {
            use_type_invariant(self);
        }
        self.id
    }

    /// Two identifiers with the same number are the same identifier.
    pub broadcast proof fn same_value_same_id(a: ObjectId, b: ObjectId)
        requires
            #[trigger] a.spec_value() == #[trigger] b.spec_value(),
        ensures
            a == b,
    {
    }
}

impl Default for ObjectId {
    fn default() -> (r: ObjectId)
        ensures
            r.spec_value() == 0,
    {
        ObjectId { id: 0 }
    }
}

/// An identifier that may be absent.
#[derive(Clone, Copy, Debug, PartialEq, Eq, Structural, Hash)]
pub struct NullableObjectId(pub Option<ObjectId>);

impl NullableObjectId {
    /// Reads a 16-bit value in which [`NULL_OBJECT_ID`] stands for absence.
    pub fn new(id: u16) -> (r: NullableObjectId)
        ensures
            r.spec_value() == id,
            id == NULL_OBJECT_ID <==> r.0.is_none(),
    {
        match ObjectId::new(id) {
            Ok(object_id) => NullableObjectId(Some(object_id)),
            Err(_) => NullableObjectId(None),
        }
    }

    /// The 16-bit value of this identifier, [`NULL_OBJECT_ID`] when absent.
    pub open spec fn spec_value(self) -> u16 {
        match self.0 {
            Some(id) => id.spec_value(),
            None => NULL_OBJECT_ID,
        }
    }

    /// The 16-bit value of this identifier, [`NULL_OBJECT_ID`] when absent.
    #[verifier::when_used_as_spec(spec_value)]
    pub fn value(self) -> (v: u16)
        ensures
            v == self.spec_value(),
    {
        match self.0 {
            Some(id) => id.value(),
            None => NULL_OBJECT_ID,
        }
    }
}

impl Default for NullableObjectId {
    fn default() -> (r: NullableObjectId)
        ensures
            r == NullableObjectId(None),
    {
        NullableObjectId(None)
    }
}

} // verus!
