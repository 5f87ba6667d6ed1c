use vstd::prelude::*;
use indexmap::IndexMap;
use crate::merge_map::overlay;
use crate::order::sorted_by_name;
use crate::swagger::{Definition, DefinitionEntries, Definitions, Operations, PathEntries, Paths};

verus! {

#[verifier::external_type_specification]
#[verifier::external_body]
#[verifier::reject_recursive_types(K)]
#[verifier::reject_recursive_types(V)]
#[verifier::reject_recursive_types(S)]
pub struct ExIndexMap<K, V, S>(IndexMap<K, V, S>);

/// The entries of a path table, in its order.
pub uninterp spec fn path_table(m: IndexMap<String, Operations>) -> Seq<(String, Operations)>;

/// The entries of a definition table, in its order.
pub uninterp spec fn definition_table(m: IndexMap<String, Definition>) -> Seq<(String, Definition)>;

/// Relies on IndexMap's `into_iter`, which yields the entries in order.
#[verifier::external_body]
pub(crate) fn path_entries(m: Paths) -> (r: PathEntries)
    ensures
        r@ == path_table(m),
{
    m.into_iter().collect()
}

/// Relies on IndexMap's `from_iter`, which inserts each entry in turn: a
/// key already present keeps its place and takes the later value.
#[verifier::external_body]
pub(crate) fn paths_from_entries(v: PathEntries) -> (r: Paths)
    ensures
        path_table(r) == overlay(Seq::empty(), v@),
{
    v.into_iter().collect()
}

/// Relies on IndexMap's `sort_keys`, which sorts the entries by key with
/// `str`'s order.
#[verifier::external_body]
pub(crate) fn sort_path_keys(m: &mut Paths)
    ensures
        path_table(*final(m)).to_multiset() == path_table(*old(m)).to_multiset(),
        sorted_by_name(path_table(*final(m))),
{
    m.sort_keys()
}

/// Relies on IndexMap's `into_iter`, which yields the entries in order.
#[verifier::external_body]
pub(crate) fn definition_entries(m: Definitions) -> (r: DefinitionEntries)
    ensures
        r@ == definition_table(m),
{
    m.into_iter().collect()
}

/// Relies on IndexMap's `from_iter`, which inserts each entry in turn: a
/// key already present keeps its place and takes the later value.
#[verifier::external_body]
pub(crate) fn definitions_from_entries(v: DefinitionEntries) -> (r: Definitions)
    ensures
        definition_table(r) == overlay(Seq::empty(), v@),
{
    v.into_iter().collect()
}

/// Relies on IndexMap's `sort_keys`, which sorts the entries by key with
/// `str`'s order.
#[verifier::external_body]
pub(crate) fn sort_definition_keys(m: &mut Definitions)
    ensures
        definition_table(*final(m)).to_multiset() == definition_table(*old(m)).to_multiset(),
        sorted_by_name(definition_table(*final(m))),
{
    m.sort_keys()
}

} // verus!
