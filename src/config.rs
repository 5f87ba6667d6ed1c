use vstd::prelude::*;
use crate::swagger::Definition;

verus! {

/// A configuration file: one entry per document to rewrite.
pub struct Config {
    pub schemas: Vec<Schema>,
}

/// One document to rewrite: where it comes from, where it goes, and the
/// edits to apply.
pub struct Schema {
    pub file: String,
    pub url: String,
    pub multienv: Option<String>,
    pub paths: Option<SchemaPaths>,
    pub definitions: Option<SchemaDefinitions>,
}

/// Edits of the path table.
pub struct SchemaPaths {
    /// Rules `(pattern, replacement)` for path keys.
    pub __rename: Option<Vec<(String, String)>>,
    /// Path keys to delete.
    pub __remove: Option<Vec<String>>,
}

/// Edits of the definition table.
pub struct SchemaDefinitions {
    /// Definitions to insert, replacing any of the same name.
    pub __add: Option<Vec<(String, Definition)>>,
    /// Patches merged into existing definitions.
    pub __override: Option<Vec<(String, Definition)>>,
    /// Definition names to delete.
    pub __remove: Option<Vec<String>>,
}

} // verus!
