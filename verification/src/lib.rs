//! Maintains the ordered list of input-method schemas inside a Rime
//! configuration document.
//!
//! The configuration file is a structured document (a tree of mappings,
//! sequences and scalars) of which only one field, `schema_list`, is
//! interpreted: an ordered sequence of entries, each a mapping whose
//! `schema` key names a schema. The entry at index 0 is the default
//! schema. Everything else in the document is opaque and preserved
//! unchanged by every operation.
//!
//! The commands: [`doc::add_schemas`] appends schemas not yet listed,
//! [`doc::remove_schemas`] drops listed ones, [`doc::set_default_schema`]
//! promotes one to the front, [`doc::list_schemas`] renders the names,
//! and [`doc::sync_schemas`] rebuilds the list from the identifiers the
//! installed schema files announce ([`scan::installed_from_files`]).
//! Reading the file, parsing its bytes and writing it back are the
//! caller's business: the library works on the parsed [`Document`].

pub mod doc;
pub mod laws;
pub mod ops;
pub mod scan;
pub mod value;

pub use doc::add_schemas;
pub use doc::list_schemas;
pub use doc::remove_schemas;
pub use doc::set_default_schema;
pub use doc::sync_schemas;
pub use doc::DocError;
pub use scan::installed_from_files;
pub use scan::strip_schema_suffix;
pub use value::Document;
pub use value::Value;
