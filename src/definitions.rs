use vstd::prelude::*;
use crate::json::{
    Json, first_at, has_field, field, find_field, get_field, lemma_field_at, without_names,
    remove_names, field_replaced, replaced_value, set_field,
};
use crate::merge_map::{merge, merged, overlay, overlay_fields};
use crate::config::SchemaDefinitions;
use crate::swagger::{Definition, DefinitionEntries};
use crate::order::{sort_by_name, sorted_by_name};

verus! {

/// Removes the definitions named in `defs_to_remove`; absent names are ignored.
pub fn remove_definitions(definitions: &mut DefinitionEntries, defs_to_remove: &Vec<String>)
    ensures
        final(definitions)@ == without_names(old(definitions)@, defs_to_remove@),
{
    remove_names(definitions, defs_to_remove);
}

/// Inserts each definition of `defs_to_add`, replacing outright any of the
/// same name.
pub fn add_definitions(definitions: &mut DefinitionEntries, defs_to_add: Vec<(String, Definition)>)
    ensures
        final(definitions)@ == overlay(old(definitions)@, defs_to_add@),
{
    overlay_fields(definitions, defs_to_add);
}

/// `r` is `t` after the patch `kv`: an existing definition of that name is
/// merged with it; without one nothing changes.
pub open spec fn override_step(t: Seq<(String, Definition)>, kv: (String, Definition), r: Seq<(String, Definition)>) -> bool {
    if has_field(t, kv.0@) {
        let i = choose|i: int| first_at(t, kv.0@, i);
        &&& r.len() == t.len()
        &&& forall|j: int| 0 <= j < t.len() && j != i ==> r[j] == t[j]
        &&& r[i].0 == t[i].0
        &&& merged(t[i].1@, kv.1@, r[i].1@)
    } else {
        r == t
    }
}

/// `r` is `t` after the patches of `p`, taken in order.
pub open spec fn overridden(t: Seq<(String, Definition)>, p: Seq<(String, Definition)>, r: Seq<(String, Definition)>) -> bool
    decreases p.len(),
{
    if p.len() == 0 {
        r == t
    } else {
        exists|m: Seq<(String, Definition)>| overridden(t, p.drop_last(), m) && override_step(m, p.last(), r)
    }
}

/// Merges each patch of `defs_to_merge` into the definition of its name;
/// a patch for an absent name is dropped.
pub fn merge_definitions(definitions: &mut DefinitionEntries, defs_to_merge: Vec<(String, Definition)>)
    ensures
        overridden(old(definitions)@, defs_to_merge@, final(definitions)@),
{
    let ghost d0 = definitions@;
    let ghost orig = defs_to_merge@;
    let mut rest = defs_to_merge;
    let ghost mut n: int = 0;
    while rest.len() > 0
        invariant
            0 <= n <= orig.len(),
            rest@ == orig.skip(n),
            overridden(d0, orig.take(n), definitions@),
        decreases rest.len(),
    {
        let kv = rest.remove(0);
        let ghost prev = definitions@;
        proof {
            assert(orig.take(n + 1).drop_last() =~= orig.take(n));
            assert(orig.take(n + 1).last() == kv);
        }
        let (k, patch) = kv;
        match find_field(definitions, k.as_str()) {
            Some(j) => {
                proof { lemma_field_at(definitions@, k@, j as int); }
                let (name, mut def) = definitions.remove(j);
                merge(&mut def, patch);
                definitions.insert(j, (name, def));
                proof {
                    assert(override_step(prev, kv, definitions@));
                }
            },
            None => {
                assert(override_step(prev, kv, definitions@));
            },
        }
        proof {
            assert(overridden(d0, orig.take(n + 1), definitions@));
            n = n + 1;
        }
    }
    proof {
        assert(orig.take(n) =~= orig);
    }
}

/// Applies the edits in their order: removals, then additions, then
/// patches, which see the added definitions.
pub fn apply_definition_edits(definitions: &mut DefinitionEntries, edits: SchemaDefinitions)
    ensures
        ({
            let removed = match edits.__remove {
                Some(names) => without_names(old(definitions)@, names@),
                None => old(definitions)@,
            };
            let added = match edits.__add {
                Some(adds) => overlay(removed, adds@),
                None => removed,
            };
            match edits.__override {
                Some(patches) => overridden(added, patches@, final(definitions)@),
                None => final(definitions)@ == added,
            }
        }),
{
    let SchemaDefinitions { __add, __override, __remove } = edits;
    if let Some(names) = __remove {
        remove_definitions(definitions, &names);
    }
    if let Some(adds) = __add {
        add_definitions(definitions, adds);
    }
    if let Some(patches) = __override {
        merge_definitions(definitions, patches);
    }
}

/// The definition asks for a required list: it has none, or its list holds
/// the wildcard `"*"`.
pub open spec fn needs_required(def: Seq<(String, Json)>) -> bool {
    match field(def, "required"@) {
        None => true,
        Some(Json::Array(a)) => exists|k: int| 0 <= k < a.len() && a[k] is Str && a[k]->Str_0@ == "*"@,
        Some(_) => false,
    }
}

/// `a` holds the names of `props` as strings, in order.
pub open spec fn names_listed(a: Seq<Json>, props: Seq<(String, Json)>) -> bool {
    &&& a.len() == props.len()
    &&& forall|i: int| 0 <= i < a.len() ==> a[i] is Str && a[i]->Str_0@ == props[i].0@
}

/// `after` is `before` with its required list synthesized: where it asks for
/// one and has an object of properties, `required` becomes their names.
pub open spec fn required_synthesized(before: Seq<(String, Json)>, after: Seq<(String, Json)>) -> bool {
    match field(before, "properties"@) {
        Some(Json::Object(props)) => if needs_required(before) {
            &&& field_replaced(before, "required"@, after)
            &&& replaced_value(before, "required"@, after) is Array
            &&& names_listed(replaced_value(before, "required"@, after)->Array_0@, props@)
        } else {
            after == before
        },
        _ => after == before,
    }
}

/// The texts of a required list.
pub open spec fn required_texts(def: Seq<(String, Json)>) -> Option<Seq<Seq<char>>> {
    match field(def, "required"@) {
        Some(Json::Array(a)) => Some(
            a@.map_values(
                |j: Json|
                    match j {
                        Json::Str(s) => s@,
                        _ => Seq::empty(),
                    },
            ),
        ),
        _ => None,
    }
}

fn has_wildcard(a: &Vec<Json>) -> (r: bool)
    ensures
        r == exists|k: int| 0 <= k < a.len() && a[k] is Str && a[k]->Str_0@ == "*"@,
{
    let star = "*".to_owned();
    let mut i: usize = 0;
    while i < a.len()
        invariant
            i <= a.len(),
            star@ == "*"@,
            forall|k: int| 0 <= k < i ==> !(a[k] is Str && a[k]->Str_0@ == "*"@),
        decreases a.len() - i,
    {
        if let Json::Str(s) = &a[i] {
            if *s == star {
                return true;
            }
        }
        i = i + 1;
    }
    false
}

fn property_names(props: &Vec<(String, Json)>) -> (r: Vec<Json>)
    ensures
        names_listed(r@, props@),
{
    let mut out: Vec<Json> = Vec::new();
    let mut i: usize = 0;
    while i < props.len()
        invariant
            i <= props.len(),
            out.len() == i,
            forall|t: int| 0 <= t < i ==> out@[t] is Str && out@[t]->Str_0@ == props@[t].0@,
        decreases props.len() - i,
    {
        out.push(Json::Str(props[i].0.clone()));
        i = i + 1;
    }
    out
}

/// Sets `required` to the names of the definition's properties where it has
/// no required list, or one holding the wildcard `"*"`.
pub fn synthesize_required(def: &mut Definition)
    ensures
        required_synthesized(old(def)@, final(def)@),
{
    let needs = match get_field(def, "required") {
        None => true,
        Some(Json::Array(a)) => has_wildcard(a),
        Some(_) => false,
    };
    if !needs {
        return;
    }
    let list = match get_field(def, "properties") {
        Some(Json::Object(props)) => property_names(props),
        _ => {
            return;
        },
    };
    set_field(def, "required", Json::Array(list));
}

/// Synthesizing the required list a second time leaves its texts as the
/// first pass made them.
pub proof fn lemma_required_idempotent(
    d0: Seq<(String, Json)>,
    d1: Seq<(String, Json)>,
    d2: Seq<(String, Json)>,
)
    requires
        required_synthesized(d0, d1),
        required_synthesized(d1, d2),
    ensures
        required_texts(d2) == required_texts(d1),
{
    reveal_strlit("required");
    reveal_strlit("properties");
    if field(d0, "properties"@) is Some && field(d0, "properties"@)->Some_0 is Object && needs_required(d0) {
        crate::json::lemma_field_replaced(d0, "required"@, d1, "properties"@);
        crate::json::lemma_field_replaced(d0, "required"@, d1, "required"@);
        if needs_required(d1) {
            crate::json::lemma_field_replaced(d1, "required"@, d2, "required"@);
            let props = field(d0, "properties"@)->Some_0->Object_0;
            let a1 = replaced_value(d0, "required"@, d1)->Array_0;
            let a2 = replaced_value(d1, "required"@, d2)->Array_0;
            assert(field(d1, "properties"@) == field(d0, "properties"@));
            assert(names_listed(a1@, props@));
            assert(names_listed(a2@, props@));
            assert(required_texts(d1)->Some_0 =~= required_texts(d2)->Some_0);
        }
    }
}

/// `after` is the definition `before` with its required list synthesized
/// and its fields sorted by name.
pub open spec fn required_updated(before: Seq<(String, Json)>, after: Seq<(String, Json)>) -> bool {
    exists|mid: Seq<(String, Json)>|
        required_synthesized(before, mid) && after.to_multiset() == mid.to_multiset() && sorted_by_name(after)
}

/// Synthesizes the required list of every definition, then sorts each
/// definition's fields by name.
pub fn update_required(definitions: &mut DefinitionEntries)
    ensures
        final(definitions)@.len() == old(definitions)@.len(),
        forall|i: int|
            0 <= i < old(definitions)@.len() ==> final(definitions)@[i].0 == old(definitions)@[i].0
                && required_updated(old(definitions)@[i].1@, final(definitions)@[i].1@),
{
    let ghost orig = definitions@;
    let mut rest: DefinitionEntries = Vec::new();
    std::mem::swap(definitions, &mut rest);
    let ghost mut n: int = 0;
    while rest.len() > 0
        invariant
            0 <= n <= orig.len(),
            rest@ == orig.skip(n),
            definitions@.len() == n,
            forall|i: int|
                0 <= i < n ==> definitions@[i].0 == orig[i].0 && required_updated(orig[i].1@, definitions@[i].1@),
        decreases rest.len(),
    {
        let (name, mut def) = rest.remove(0);
        proof {
            assert(orig[n] == (name, def));
        }
        let ghost before = def@;
        synthesize_required(&mut def);
        let ghost mid = def@;
        let sorted = sort_by_name(def);
        proof {
            assert(required_synthesized(before, mid) && sorted@.to_multiset() == mid.to_multiset()
                && sorted_by_name(sorted@));
        }
        definitions.push((name, sorted));
        proof {
            n = n + 1;
        }
    }
}

} // verus!
