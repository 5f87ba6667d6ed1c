use vstd::prelude::*;
use crate::json::{Json, field, get_field};
use crate::swagger::{DefinitionEntries, Operations, PathEntries};

verus! {

/// Every item of `a` is an object.
pub open spec fn all_objects_in(a: Seq<Json>) -> bool {
    forall|k: int| 0 <= k < a.len() ==> #[trigger] a[k] is Object
}

/// Every item of `a` is a string.
pub open spec fn all_strings_in(a: Seq<Json>) -> bool {
    forall|k: int| 0 <= k < a.len() ==> #[trigger] a[k] is Str
}

/// An operation as the engine reads it: an object with a `parameters` array
/// of objects, a `responses` object and a `tags` array of strings.
pub open spec fn op_well_formed(op: Json) -> bool {
    match op {
        Json::Object(f) => {
            &&& match field(f@, "parameters"@) {
                Some(Json::Array(ps)) => all_objects_in(ps@),
                _ => false,
            }
            &&& match field(f@, "responses"@) {
                Some(Json::Object(_)) => true,
                _ => false,
            }
            &&& match field(f@, "tags"@) {
                Some(Json::Array(ts)) => all_strings_in(ts@),
                _ => false,
            }
        },
        _ => false,
    }
}

/// A definition as the engine reads it: its `properties`, where present,
/// form an object.
pub open spec fn def_well_formed(def: Seq<(String, Json)>) -> bool {
    match field(def, "properties"@) {
        Some(Json::Object(_)) => true,
        Some(_) => false,
        None => true,
    }
}

/// Every operation and every definition has the shape the engine reads.
pub open spec fn document_well_formed(
    paths: Seq<(String, Operations)>,
    defs: Seq<(String, crate::swagger::Definition)>,
) -> bool {
    &&& forall|i: int, j: int|
        0 <= i < paths.len() && 0 <= j < paths[i].1.len() ==> op_well_formed(#[trigger] paths[i].1[j].1)
    &&& forall|d: int| 0 <= d < defs.len() ==> def_well_formed(#[trigger] defs[d].1@)
}

fn objects_only(a: &Vec<Json>) -> (r: bool)
    ensures
        r == all_objects_in(a@),
{
    let mut k: usize = 0;
    while k < a.len()
        invariant
            k <= a.len(),
            forall|t: int| 0 <= t < k ==> #[trigger] a@[t] is Object,
        decreases a.len() - k,
    {
        match &a[k] {
            Json::Object(_) => {},
            _ => {
                return false;
            },
        }
        k = k + 1;
    }
    true
}

fn strings_only(a: &Vec<Json>) -> (r: bool)
    ensures
        r == all_strings_in(a@),
{
    let mut k: usize = 0;
    while k < a.len()
        invariant
            k <= a.len(),
            forall|t: int| 0 <= t < k ==> #[trigger] a@[t] is Str,
        decreases a.len() - k,
    {
        match &a[k] {
            Json::Str(_) => {},
            _ => {
                return false;
            },
        }
        k = k + 1;
    }
    true
}

fn check_op(op: &Json) -> (r: bool)
    ensures
        r == op_well_formed(*op),
{
    match op {
        Json::Object(f) => {
            let params = match get_field(f, "parameters") {
                Some(Json::Array(ps)) => objects_only(ps),
                _ => false,
            };
            let responses = match get_field(f, "responses") {
                Some(Json::Object(_)) => true,
                _ => false,
            };
            let tags = match get_field(f, "tags") {
                Some(Json::Array(ts)) => strings_only(ts),
                _ => false,
            };
            params && responses && tags
        },
        _ => false,
    }
}

fn check_def(def: &Vec<(String, Json)>) -> (r: bool)
    ensures
        r == def_well_formed(def@),
{
    match get_field(def, "properties") {
        Some(Json::Object(_)) => true,
        Some(_) => false,
        None => true,
    }
}

/// Whether every operation and every definition has the shape the engine
/// reads.
pub fn check_document(paths: &PathEntries, definitions: &DefinitionEntries) -> (r: bool)
    ensures
        r == document_well_formed(paths@, definitions@),
{
    let mut i: usize = 0;
    while i < paths.len()
        invariant
            i <= paths.len(),
            forall|a: int, b: int|
                0 <= a < i && 0 <= b < paths@[a].1.len() ==> op_well_formed(#[trigger] paths@[a].1[b].1),
        decreases paths.len() - i,
    {
        let ops = &paths[i].1;
        let mut j: usize = 0;
        while j < ops.len()
            invariant
                i < paths.len(),
                *ops == paths@[i as int].1,
                j <= ops.len(),
                forall|a: int, b: int|
                    0 <= a < i && 0 <= b < paths@[a].1.len() ==> op_well_formed(#[trigger] paths@[a].1[b].1),
                forall|b: int| 0 <= b < j ==> op_well_formed(#[trigger] ops@[b].1),
            decreases ops.len() - j,
        {
            if !check_op(&ops[j].1) {
                assert(!op_well_formed(paths@[i as int].1[j as int].1));
                return false;
            }
            j = j + 1;
        }
        proof {
            assert forall|a: int, b: int|
                0 <= a < i + 1 && 0 <= b < paths@[a].1.len() implies op_well_formed(
                #[trigger] paths@[a].1[b].1,
            ) by {
                if a == i {
                    assert(op_well_formed(ops@[b].1));
                }
            }
        }
        i = i + 1;
    }
    let mut d: usize = 0;
    while d < definitions.len()
        invariant
            d <= definitions.len(),
            forall|a: int, b: int|
                0 <= a < paths.len() && 0 <= b < paths@[a].1.len() ==> op_well_formed(#[trigger] paths@[a].1[b].1),
            forall|t: int| 0 <= t < d ==> def_well_formed(#[trigger] definitions@[t].1@),
        decreases definitions.len() - d,
    {
        if !check_def(&definitions[d].1) {
            return false;
        }
        d = d + 1;
    }
    true
}

} // verus!
