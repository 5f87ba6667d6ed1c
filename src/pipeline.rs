use vstd::prelude::*;
use crate::json::without_names;
use crate::config::{SchemaDefinitions, SchemaPaths};
use crate::definitions::{apply_definition_edits, update_required, required_updated};
use crate::merge_map::{overlay, overlay_fields};
use crate::table::{
    path_table, definition_table, path_entries, definition_entries, paths_from_entries,
    definitions_from_entries, sort_path_keys, sort_definition_keys,
};
use crate::definitions::overridden;
use crate::order::sorted_by_name;
use crate::paths::{
    EditError, SegmentPolicy, remove_paths, rename_paths, remove_query_params,
    change_operation_id, rekeyed, renamed_key, rules_valid, query_stripped, query_pattern,
    ids_written, patterns_valid,
};
use crate::reach::{remove_unused_definitions, prune_iter, prune_once};
use crate::swagger::{DefinitionEntries, PathEntries, Swagger, Tag};
use crate::tags::{filter_tags, tag_kept, used_tags};
use crate::shape::{check_document, document_well_formed};
use crate::order::text_lt;
use crate::pattern::regex_valid;

verus! {

broadcast use vstd::seq_lib::to_multiset_contains, vstd::seq_lib::to_multiset_len;

/// The stages of a path rewrite: `p1` after removals, `p2` after renames,
/// `p3` after query-placeholder stripping, and `after` with operation ids.
pub open spec fn path_stages(
    before: Seq<(String, crate::swagger::Operations)>,
    edits: Option<SchemaPaths>,
    policy: SegmentPolicy,
    p1: Seq<(String, crate::swagger::Operations)>,
    p2: Seq<(String, crate::swagger::Operations)>,
    p3: Seq<(String, crate::swagger::Operations)>,
    after: Seq<(String, crate::swagger::Operations)>,
) -> bool {

            &&& p1 == match edits {
                Some(SchemaPaths { __remove: Some(keys), .. }) => without_names(before, keys@),
                _ => before,
            }
            &&& match edits {
                Some(SchemaPaths { __rename: Some(rules), .. }) => rekeyed(p1, p2, |k: Seq<char>| renamed_key(rules@, k)),
                _ => p2 == p1,
            }
            &&& if regex_valid(query_pattern()) {
                rekeyed(p2, p3, |k: Seq<char>| query_stripped(k))
            } else {
                p3 == p2
            }
            &&& if patterns_valid() {
                ids_written(p3, after, policy)
            } else {
                after == p3
            }
}

/// `after` is the path table `before` after the edits: removals, renames,
/// query-placeholder stripping, then operation ids.
pub open spec fn paths_rewritten(
    before: Seq<(String, crate::swagger::Operations)>,
    edits: Option<SchemaPaths>,
    policy: SegmentPolicy,
    after: Seq<(String, crate::swagger::Operations)>,
) -> bool {
    exists|p1: Seq<(String, crate::swagger::Operations)>, p2: Seq<(String, crate::swagger::Operations)>,
           p3: Seq<(String, crate::swagger::Operations)>|
        #[trigger] path_stages(before, edits, policy, p1, p2, p3, after)
}

/// The rename rules of the path edits all compile.
pub open spec fn path_edits_valid(edits: Option<SchemaPaths>) -> bool {
    match edits {
        Some(SchemaPaths { __rename: Some(rules), .. }) => rules_valid(rules@),
        _ => true,
    }
}

/// The stages of a definition rewrite: `d1` after the edits, `d2` after
/// the required lists, and `after` pruned against `paths`.
pub open spec fn definition_stages(
    before: Seq<(String, crate::swagger::Definition)>,
    edits: Option<SchemaDefinitions>,
    paths: Seq<(String, crate::swagger::Operations)>,
    d1: Seq<(String, crate::swagger::Definition)>,
    d2: Seq<(String, crate::swagger::Definition)>,
    after: Seq<(String, crate::swagger::Definition)>,
) -> bool {

            &&& match edits {
                Some(e) => {
                    let removed = match e.__remove {
                        Some(names) => without_names(before, names@),
                        None => before,
                    };
                    let added = match e.__add {
                        Some(adds) => overlay(removed, adds@),
                        None => removed,
                    };
                    match e.__override {
                        Some(patches) => overridden(added, patches@, d1),
                        None => d1 == added,
                    }
                },
                None => d1 == before,
            }
            &&& d2.len() == d1.len()
            &&& forall|i: int| 0 <= i < d1.len() ==> d2[i].0 == d1[i].0 && required_updated(d1[i].1@, d2[i].1@)
            &&& (exists|k: nat| after == prune_iter(paths, d2, k))
            &&& prune_once(paths, after) == after
}

/// `after` is the definition table `before` after the edits, the required
/// lists, and pruning against `paths`.
pub open spec fn definitions_rewritten(
    before: Seq<(String, crate::swagger::Definition)>,
    edits: Option<SchemaDefinitions>,
    paths: Seq<(String, crate::swagger::Operations)>,
    after: Seq<(String, crate::swagger::Definition)>,
) -> bool {
    exists|d1: Seq<(String, crate::swagger::Definition)>, d2: Seq<(String, crate::swagger::Definition)>|
        #[trigger] definition_stages(before, edits, paths, d1, d2, after)
}

/// `after` is the tag catalogue `before` kept to the tags that `paths` use,
/// sorted by name.
pub open spec fn tags_filtered(
    before: Seq<Tag>,
    paths: Seq<(String, crate::swagger::Operations)>,
    after: Seq<Tag>,
) -> bool {
    &&& forall|t: Tag| after.contains(t) <==> before.contains(t) && tag_kept(paths, t)
    &&& after.len() == used_tags(paths, before).len()
    &&& forall|i: int, j: int| 0 <= i < j < after.len() ==> !text_lt(after[j].name@, after[i].name@)
}

fn rewrite_paths(paths: PathEntries, edits: Option<SchemaPaths>, policy: SegmentPolicy) -> (r: Result<PathEntries, EditError>)
    ensures
        r is Ok <==> path_edits_valid(edits),
        r matches Ok(p) ==> paths_rewritten(paths@, edits, policy, p@),
{
    let mut p = paths;
    let ghost p0 = p@;
    let mut renames: Option<Vec<(String, String)>> = None;
    match edits {
        Some(SchemaPaths { __rename, __remove }) => {
            if let Some(keys) = __remove {
                remove_paths(&mut p, &keys);
            }
            renames = __rename;
        },
        None => {},
    }
    let ghost p1 = p@;
    if let Some(rules) = renames {
        match rename_paths(&mut p, &rules) {
            Ok(()) => {},
            Err(e) => {
                return Err(e);
            },
        }
    }
    let ghost p2 = p@;
    remove_query_params(&mut p);
    let ghost p3 = p@;
    change_operation_id(&mut p, policy);
    assert(path_stages(p0, edits, policy, p1, p2, p3, p@));
    Ok(p)
}

fn rewrite_definitions(definitions: DefinitionEntries, edits: Option<SchemaDefinitions>, paths: &PathEntries) -> (r: DefinitionEntries)
    ensures
        definitions_rewritten(definitions@, edits, paths@, r@),
{
    let mut d = definitions;
    let ghost d0 = d@;
    if let Some(e) = edits {
        apply_definition_edits(&mut d, e);
    }
    let ghost d1 = d@;
    update_required(&mut d);
    let ghost d2 = d@;
    remove_unused_definitions(paths, &mut d);
    assert(definition_stages(d0, edits, paths@, d1, d2, d@));
    d
}

/// `out` is the document `doc` rewritten: `p` is its path table after the
/// edits and `d` its definition table after the edits and pruning; the
/// output tables hold them, each key once (a later entry of a repeated key
/// overwrites the earlier one in its place), sorted by key.
pub open spec fn document_rewritten(
    doc: Swagger,
    path_edits: Option<SchemaPaths>,
    definition_edits: Option<SchemaDefinitions>,
    policy: SegmentPolicy,
    p: Seq<(String, crate::swagger::Operations)>,
    d: Seq<(String, crate::swagger::Definition)>,
    out: Swagger,
) -> bool {
    let paths = overlay(Seq::empty(), p);
    &&& out.swagger == doc.swagger
    &&& out.info == doc.info
    &&& out.base_path == doc.base_path
    &&& paths_rewritten(path_table(doc.paths), path_edits, policy, p)
    &&& path_table(out.paths).to_multiset() == paths.to_multiset()
    &&& sorted_by_name(path_table(out.paths))
    &&& definitions_rewritten(definition_table(doc.definitions), definition_edits, paths, d)
    &&& definition_table(out.definitions).to_multiset() == overlay(Seq::empty(), d).to_multiset()
    &&& sorted_by_name(definition_table(out.definitions))
    &&& tags_filtered(doc.tags@, paths, out.tags@)
}

/// Rewrites a document: its paths by `path_edits`, its definitions by
/// `definition_edits`, and its tags down to those in use. Fails, with the
/// document dropped, when an operation or a definition lacks the shape the
/// rewrite reads, or else when a rename pattern does not compile.
pub fn process_swagger(
    swagger: Swagger,
    path_edits: Option<SchemaPaths>,
    definition_edits: Option<SchemaDefinitions>,
    policy: SegmentPolicy,
) -> (r: Result<Swagger, EditError>)
    ensures
        r is Ok <==> document_well_formed(path_table(swagger.paths), definition_table(swagger.definitions))
            && path_edits_valid(path_edits),
        !document_well_formed(path_table(swagger.paths), definition_table(swagger.definitions)) ==> r
            == Err::<Swagger, EditError>(EditError::MalformedDocument),
        r matches Ok(out) ==> exists|p: Seq<(String, crate::swagger::Operations)>, d: Seq<(String, crate::swagger::Definition)>|
            #[trigger] document_rewritten(swagger, path_edits, definition_edits, policy, p, d, out),
{
    let Swagger { swagger: version, info, base_path, tags, paths, definitions } = swagger;
    let entries = path_entries(paths);
    let def_entries = definition_entries(definitions);
    if !check_document(&entries, &def_entries) {
        return Err(EditError::MalformedDocument);
    }
    let p = match rewrite_paths(entries, path_edits, policy) {
        Ok(p) => p,
        Err(e) => {
            return Err(e);
        },
    };
    let ghost p4 = p@;
    let mut unique: PathEntries = Vec::new();
    overlay_fields(&mut unique, p);
    let d = rewrite_definitions(def_entries, definition_edits, &unique);
    let ghost d3 = d@;
    let tags = filter_tags(tags, &unique);
    let mut path_map = paths_from_entries(unique);
    sort_path_keys(&mut path_map);
    let mut definition_map = definitions_from_entries(d);
    sort_definition_keys(&mut definition_map);
    let out = Swagger {
        swagger: version,
        info,
        base_path,
        tags,
        paths: path_map,
        definitions: definition_map,
    };
    proof {
        crate::merge_map::lemma_overlay_unique(p4);
        crate::merge_map::lemma_overlay_distinct(overlay(Seq::<(String, crate::swagger::Operations)>::empty(), p4));
    }
    assert(document_rewritten(swagger, path_edits, definition_edits, policy, p4, d3, out));
    let result: Result<Swagger, EditError> = Ok(out);
    assert(result matches Ok(o) && o == out);
    result
}

} // verus!
