//! The project file: an object pool in its interchange form together with
//! the names given to its objects and the settings of the project.

use std::collections::HashMap;
use vstd::prelude::*;
use vstd::std_specs::hash::*;
use vstd::string::*;
use crate::object::ObjectView;
use crate::object_id::ObjectId;
use crate::object_info::{recorded_names, ObjectInfo};
use crate::object_pool::ObjectPool;

verus! {

/// The version of the project file format that this crate writes.
pub const PROJECT_FILE_VERSION: u32 = 1;

/// The least number of bytes that a pool in its interchange form can have.
pub const MINIMUM_POOL_DATA_SIZE: usize = 4;

/// What a project file records about one object.
#[derive(Debug)]
pub struct ObjectMetadata {
    /// The name given to the object.
    pub name: Option<String>,
    /// Notes about the object.
    pub notes: Option<String>,
}

/// What an [`ObjectMetadata`] is, as a mathematical value.
pub struct ObjectMetadataView {
    /// The name given to the object.
    pub name: Option<Seq<char>>,
    /// Notes about the object.
    pub notes: Option<Seq<char>>,
}

impl View for ObjectMetadata {
    type V = ObjectMetadataView;

    open spec fn view(&self) -> ObjectMetadataView {
        ObjectMetadataView {
            name: match self.name {
                Some(name) => Some(name@),
                None => None,
            },
            notes: match self.notes {
                Some(notes) => Some(notes@),
                None => None,
            },
        }
    }
}

/// A copy of a text that may be absent.
fn clone_text(text: &Option<String>) -> (r: Option<String>)
    ensures
        r.is_some() == text.is_some(),
        r.is_some() ==> r.unwrap()@ == text.unwrap()@,
{
    match text {
        Some(text) => Some(text.clone()),
        None => None,
    }
}

impl Clone for ObjectMetadata {
    fn clone(&self) -> (r: ObjectMetadata)
        ensures
            r@ == self@,
    {
        ObjectMetadata { name: clone_text(&self.name), notes: clone_text(&self.notes) }
    }
}

/// The settings of a project.
#[derive(Clone, Copy, Debug, PartialEq, Eq, Structural)]
pub struct ProjectSettings {
    /// The size of the mask that the design is shown on.
    pub mask_size: u16,
    /// The number of the object that was selected last.
    pub last_selected: Option<u16>,
}

impl Default for ProjectSettings {
    fn default() -> (r: ProjectSettings)
        ensures
            r == (ProjectSettings { mask_size: 500, last_selected: None }),
    {
        ProjectSettings { mask_size: 500, last_selected: None }
    }
}

/// What a [`ProjectFile`] is, as a mathematical value.
pub struct ProjectFileView {
    /// The version of the format.
    pub version: u32,
    /// The object pool in its interchange form.
    pub object_pool_data: Seq<u8>,
    /// What is recorded about the objects, by their numbers.
    pub object_metadata: Map<u16, ObjectMetadataView>,
    /// The settings of the project.
    pub settings: ProjectSettings,
}

/// The records of a project file, as mathematical values.
pub open spec fn metadata_views(object_metadata: Map<u16, ObjectMetadata>) -> Map<u16, ObjectMetadataView> {
    Map::new(|id: u16| object_metadata.contains_key(id), |id: u16| object_metadata[id]@)
}

/// The records that a project file keeps of a document's objects: for each
/// object that the document has a record of, its name and no notes.
pub open spec fn metadata_of(names: Map<u16, Option<Seq<char>>>) -> Map<u16, ObjectMetadataView> {
    Map::new(|id: u16| names.contains_key(id), |id: u16| ObjectMetadataView { name: names[id], notes: None })
}

/// Why the pool of a project file cannot be used.
pub open spec fn pool_data_too_small() -> Seq<char> {
    "Object pool data is too small to be valid"@
}

/// Why the pool of a project file cannot be used.
pub open spec fn no_objects_found() -> Seq<char> {
    "Failed to parse object pool: no objects found in data"@
}

/// A project as it is stored: the pool in its interchange form, the records
/// of its objects and the settings.
#[derive(Debug)]
pub struct ProjectFile {
    version: u32,
    object_pool_data: Vec<u8>,
    object_metadata: HashMap<u16, ObjectMetadata>,
    settings: ProjectSettings,
}

impl View for ProjectFile {
    type V = ProjectFileView;

    closed spec fn view(&self) -> ProjectFileView {
        ProjectFileView {
            version: self.version,
            object_pool_data: self.object_pool_data@,
            object_metadata: metadata_views(self.object_metadata@),
            settings: self.settings,
        }
    }
}

impl ProjectFile {
    /// The project file of a document: `object_pool_data` is the document's
    /// pool in its interchange form, `object_info` the records of its
    /// objects, `selected` the selected object.
    pub fn new(
        object_pool_data: Vec<u8>,
        object_info: &HashMap<u16, ObjectInfo>,
        mask_size: u16,
        selected: Option<ObjectId>,
    ) -> (r: ProjectFile)
        ensures
            r@ == (ProjectFileView {
                version: PROJECT_FILE_VERSION,
                object_pool_data: object_pool_data@,
                object_metadata: metadata_of(recorded_names(object_info@)),
                settings: ProjectSettings {
                    mask_size,
                    last_selected: match selected {
                        Some(id) => Some(id.spec_value()),
                        None => None,
                    },
                },
            }),
    {
        broadcast use group_hash_axioms;

        let mut object_metadata: HashMap<u16, ObjectMetadata> = HashMap::new();
        let mut next: u32 = 0;
        while next <= 0xFFFF
            invariant
                next <= 0x10000,
                forall|k: u16| k < next ==> (#[trigger] object_metadata@.contains_key(k) <==> object_info@.contains_key(k)),
                forall|k: u16| k >= next ==> !#[trigger] object_metadata@.contains_key(k),
                forall|k: u16|
                    #[trigger] object_metadata@.contains_key(k) ==> object_metadata@[k]@ == (ObjectMetadataView {
                        name: object_info@[k].spec_name(),
                        notes: None,
                    }),
            decreases 0x10000 - next,
        {
            let id = next as u16;
            if let Some(info) = object_info.get(&id) {
                object_metadata.insert(id, ObjectMetadata { name: clone_text(&info.name), notes: None });
            }
            next += 1;
        }
        let last_selected = match selected {
            Some(id) => Some(id.value()),
            None => None,
        };
        let r = ProjectFile {
            version: PROJECT_FILE_VERSION,
            object_pool_data,
            object_metadata,
            settings: ProjectSettings { mask_size, last_selected },
        };
        assert(r@.object_metadata =~= metadata_of(recorded_names(object_info@)));
        r
    }

    /// A project file put together from its parts, as they were read from a
    /// stored project.
    pub fn from_parts(
        version: u32,
        object_pool_data: Vec<u8>,
        object_metadata: HashMap<u16, ObjectMetadata>,
        settings: ProjectSettings,
    ) -> (r: ProjectFile)
        ensures
            r@ == (ProjectFileView {
                version,
                object_pool_data: object_pool_data@,
                object_metadata: metadata_views(object_metadata@),
                settings,
            }),
    {
        ProjectFile { version, object_pool_data, object_metadata, settings }
    }

    /// The version of the format that the file was written in.
    pub fn version(&self) -> (r: u32)
        ensures
            r == self@.version,
    {
        self.version
    }

    /// The object pool in its interchange form.
    pub fn object_pool_data(&self) -> (r: &Vec<u8>)
        ensures
            r@ == self@.object_pool_data,
    {
        &self.object_pool_data
    }

    /// Whether the pool data is long enough to be worth decoding.
    pub fn has_pool_data(&self) -> (r: bool)
        ensures
            r == (self@.object_pool_data.len() >= MINIMUM_POOL_DATA_SIZE),
    {
        self.object_pool_data.len() >= MINIMUM_POOL_DATA_SIZE
    }

    /// What of a pool decoded from a file with the given pool data is wrong,
    /// if anything: data of fewer than four bytes, or data of more than four
    /// bytes from which no object came.
    pub open spec fn pool_fault(object_pool_data: Seq<u8>, decoded: Seq<ObjectView>) -> Option<Seq<char>> {
        if object_pool_data.len() < MINIMUM_POOL_DATA_SIZE {
            Some(pool_data_too_small())
        } else if decoded.len() == 0 && object_pool_data.len() > MINIMUM_POOL_DATA_SIZE {
            Some(no_objects_found())
        } else {
            None
        }
    }

    /// The pool of the project, given `decoded`, the pool that the pool data
    /// of this file decodes to. The pool is refused, with the reason in
    /// words, where the data has fewer than four bytes, or has more and no
    /// object came from it.
    pub fn load_pool(&self, decoded: ObjectPool) -> (r: Result<ObjectPool, String>)
        ensures
            match r {
                Ok(pool) => Self::pool_fault(self@.object_pool_data, decoded@).is_none() && pool@ == decoded@,
                Err(reason) => Self::pool_fault(self@.object_pool_data, decoded@) == Some(reason@),
            },
    {
        if self.object_pool_data.len() < MINIMUM_POOL_DATA_SIZE {
            return Err(String::from_str("Object pool data is too small to be valid"));
        }
        if decoded.is_empty() && self.object_pool_data.len() > MINIMUM_POOL_DATA_SIZE {
            return Err(String::from_str("Failed to parse object pool: no objects found in data"));
        }
        Ok(decoded)
    }

    /// What the file records about the objects.
    pub fn get_metadata(&self) -> (r: &HashMap<u16, ObjectMetadata>)
        ensures
            metadata_views(r@) == self@.object_metadata,
    {
        &self.object_metadata
    }

    /// The settings of the project.
    pub fn get_settings(&self) -> (r: &ProjectSettings)
        ensures
            *r == self@.settings,
    {
        &self.settings
    }
}

} // verus!
