use vstd::prelude::*;
use indexmap::IndexMap;
use crate::json::Json;

verus! {

/// The operations of one path, by lower-case verb, in order.
pub type Operations = Vec<(String, Json)>;

/// A definition: an object, as its fields.
pub type Definition = Vec<(String, Json)>;

/// The path table: path template to operations.
pub type Paths = IndexMap<String, Operations>;

/// The definition table: name to definition.
pub type Definitions = IndexMap<String, Definition>;

/// The entries of a path table, in order, while it is edited.
pub type PathEntries = Vec<(String, Operations)>;

/// The entries of a definition table, in order, while it is edited.
pub type DefinitionEntries = Vec<(String, Definition)>;

/// An API description document.
pub struct Swagger {
    pub swagger: String,
    pub info: Info,
    pub base_path: String,
    pub tags: Vec<Tag>,
    pub paths: Paths,
    pub definitions: Definitions,
}

/// The info block of a document.
pub struct Info {
    pub title: String,
}

/// An entry of the tag catalogue; its name is what operations refer to.
#[derive(Debug, Clone, PartialEq)]
pub struct Tag {
    pub name: String,
    pub description: String,
}

} // verus!
