//! The document engine of an ISOBUS virtual terminal object pool editor.
//!
//! An object pool is a graph of typed objects that refer to each other by
//! identifier. This crate holds the editable document built around such a
//! pool: identifier allocation within the range of each object type, a guard
//! against circular containment, reference rewriting for copied and imported
//! objects, collision-free naming, a bounded undo and redo history, and the
//! project file that wraps a pool together with its names and settings.
//! Beside these it holds what the designer computes for export: the header
//! of object identifiers and the coding of picture data.
//!
//! The contracts speak of mathematical values: a pool is the sequence of its
//! objects ([`ObjectView`]), a document the record of its parts
//! ([`document::DocumentView`]). What holds of the operations together, such
//! as that undoing and redoing restores a document or that the naming
//! service keeps names apart, is stated and proved as proof functions beside
//! the definitions they speak of.

pub mod allocation;
pub mod cycle_guard;
pub mod decimal;
pub mod document;
pub mod editor_project;
pub mod header;
pub mod import;
pub mod naming_rules;
pub mod object;
pub mod object_id;
pub mod object_info;
pub mod object_pool;
pub mod object_type;
pub mod picture;
pub mod project_file;
pub mod remap;
pub mod settings;
pub mod smart_naming;
pub mod ui_id;

pub use cycle_guard::would_create_circular_reference;
pub use editor_project::{EditError, EditorProject, SortKey};
pub use header::to_c_identifier;
pub use import::ImportError;
pub use object::{Object, ObjectView, Reference};
pub use object_info::ObjectInfo;
pub use object_id::{NullableObjectId, ObjectId, ParseError, NULL_OBJECT_ID};
pub use object_pool::ObjectPool;
pub use object_type::ObjectType;
pub use project_file::{ObjectMetadata, ProjectFile, ProjectSettings};
pub use remap::remap_object_references;
pub use settings::DesignerSettings;
pub use smart_naming::NameTable;
