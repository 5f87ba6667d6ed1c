use vstd::prelude::*;
use crate::json::{Json, has_field, field, get_field, in_list, list_contains};
use crate::order::{insert_sorted, strictly_sorted};
use crate::swagger::{Definition, DefinitionEntries, Operations, PathEntries};

verus! {

/// The `originalRef` string of an object.
pub open spec fn ref_of(o: Seq<(String, Json)>) -> Option<Seq<char>> {
    match field(o, "originalRef"@) {
        Some(Json::Str(s)) => Some(s@),
        _ => None,
    }
}

/// The definition a schema or property refers to: its own `originalRef`,
/// or, for an array, that of its `items`.
pub open spec fn original_ref(schema: Json) -> Option<Seq<char>> {
    match schema {
        Json::Object(o) => if has_field(o@, "originalRef"@) {
            ref_of(o@)
        } else {
            match field(o@, "type"@) {
                Some(Json::Str(t)) => if t@ == "array"@ {
                    match field(o@, "items"@) {
                        Some(Json::Object(items)) => ref_of(items@),
                        _ => None,
                    }
                } else {
                    None
                },
                _ => None,
            }
        },
        _ => None,
    }
}

fn ref_in(o: &Vec<(String, Json)>) -> (r: Option<String>)
    ensures
        match r {
            Some(s) => ref_of(o@) == Some(s@),
            None => ref_of(o@) is None,
        },
{
    match get_field(o, "originalRef") {
        Some(Json::Str(s)) => Some(s.clone()),
        _ => None,
    }
}

/// The name that `schema_or_property` refers to through `originalRef`.
pub fn find_original_ref(schema_or_property: &Json) -> (r: Option<String>)
    ensures
        match r {
            Some(s) => original_ref(*schema_or_property) == Some(s@),
            None => original_ref(*schema_or_property) is None,
        },
{
    if let Json::Object(o) = schema_or_property {
        if get_field(o, "originalRef").is_some() {
            return ref_in(o);
        }
        if let Some(Json::Str(t)) = get_field(o, "type") {
            if *t == "array".to_owned() {
                if let Some(Json::Object(items)) = get_field(o, "items") {
                    return ref_in(items);
                }
            }
        }
    }
    None
}

/// The value holds a `schema` that refers to `name`.
pub open spec fn schema_refers(v: Json, name: Seq<char>) -> bool {
    match v {
        Json::Object(o) => match field(o@, "schema"@) {
            Some(s) => original_ref(s) == Some(name),
            None => false,
        },
        _ => false,
    }
}

/// A parameter or a response of the operation refers to `name`.
pub open spec fn op_refers(op: Json, name: Seq<char>) -> bool {
    match op {
        Json::Object(f) => {
            ||| match field(f@, "parameters"@) {
                Some(Json::Array(ps)) => exists|k: int| 0 <= k < ps.len() && schema_refers(#[trigger] ps[k], name),
                _ => false,
            }
            ||| match field(f@, "responses"@) {
                Some(Json::Object(rs)) => exists|k: int| 0 <= k < rs.len() && schema_refers(#[trigger] rs[k].1, name),
                _ => false,
            }
        },
        _ => false,
    }
}

/// A property of the definition refers to `name`.
pub open spec fn def_refers(def: Seq<(String, Json)>, name: Seq<char>) -> bool {
    match field(def, "properties"@) {
        Some(Json::Object(ps)) => exists|k: int| 0 <= k < ps.len() && original_ref(#[trigger] ps[k].1) == Some(name),
        _ => false,
    }
}

/// Some operation of the listed paths refers to `name`.
pub open spec fn paths_refer(paths: Seq<(String, Operations)>, name: Seq<char>) -> bool {
    exists|i: int, j: int|
        0 <= i < paths.len() && 0 <= j < paths[i].1.len() && op_refers(#[trigger] paths[i].1[j].1, name)
}

/// Some listed definition refers to `name`.
pub open spec fn defs_refer(defs: Seq<(String, Definition)>, name: Seq<char>) -> bool {
    exists|d: int| 0 <= d < defs.len() && def_refers(#[trigger] defs[d].1@, name)
}

/// `name` is referred to from the paths or from the definitions.
pub open spec fn referenced(paths: Seq<(String, Operations)>, defs: Seq<(String, Definition)>, name: Seq<char>) -> bool {
    paths_refer(paths, name) || defs_refer(defs, name)
}

fn add_ref(out: &mut Vec<String>, v: &Json)
    requires
        strictly_sorted(old(out)@),
    ensures
        strictly_sorted(final(out)@),
        forall|n: Seq<char>|
            #![trigger in_list(final(out)@, n)]
            in_list(final(out)@, n) <==> in_list(old(out)@, n) || original_ref(*v) == Some(n),
{
    if let Some(r) = find_original_ref(v) {
        insert_sorted(out, r);
    }
}

fn add_schema_ref(out: &mut Vec<String>, v: &Json)
    requires
        strictly_sorted(old(out)@),
    ensures
        strictly_sorted(final(out)@),
        forall|n: Seq<char>|
            #![trigger in_list(final(out)@, n)]
            in_list(final(out)@, n) <==> in_list(old(out)@, n) || schema_refers(*v, n),
{
    if let Json::Object(o) = v {
        if let Some(s) = get_field(o, "schema") {
            add_ref(out, s);
        }
    }
}

fn add_op_refs(out: &mut Vec<String>, op: &Json)
    requires
        strictly_sorted(old(out)@),
    ensures
        strictly_sorted(final(out)@),
        forall|n: Seq<char>|
            #![trigger in_list(final(out)@, n)]
            in_list(final(out)@, n) <==> in_list(old(out)@, n) || op_refers(*op, n),
{
    if let Json::Object(f) = op {
        let ghost o0 = out@;
        if let Some(Json::Array(ps)) = get_field(f, "parameters") {
            let mut k: usize = 0;
            while k < ps.len()
                invariant
                    k <= ps.len(),
                    strictly_sorted(out@),
                    forall|n: Seq<char>|
                        #![trigger in_list(out@, n)]
                        in_list(out@, n) <==> in_list(o0, n) || exists|t: int|
                            0 <= t < k && schema_refers(#[trigger] ps[t], n),
                decreases ps.len() - k,
            {
                add_schema_ref(out, &ps[k]);
                proof {
                    assert forall|n: Seq<char>| #![trigger in_list(out@, n)]
                        in_list(out@, n) <==> in_list(o0, n) || exists|t: int|
                            0 <= t < k + 1 && schema_refers(#[trigger] ps[t], n) by {
                        if schema_refers(ps[k as int], n) {
                            assert(0 <= k < k + 1);
                        }
                    }
                }
                k = k + 1;
            }
        }
        let ghost o1 = out@;
        if let Some(Json::Object(rs)) = get_field(f, "responses") {
            let mut k: usize = 0;
            while k < rs.len()
                invariant
                    k <= rs.len(),
                    strictly_sorted(out@),
                    forall|n: Seq<char>|
                        #![trigger in_list(out@, n)]
                        in_list(out@, n) <==> in_list(o1, n) || exists|t: int|
                            0 <= t < k && schema_refers(#[trigger] rs[t].1, n),
                decreases rs.len() - k,
            {
                add_schema_ref(out, &rs[k].1);
                proof {
                    assert forall|n: Seq<char>| #![trigger in_list(out@, n)]
                        in_list(out@, n) <==> in_list(o1, n) || exists|t: int|
                            0 <= t < k + 1 && schema_refers(#[trigger] rs[t].1, n) by {
                        if schema_refers(rs[k as int].1, n) {
                            assert(0 <= k < k + 1);
                        }
                    }
                }
                k = k + 1;
            }
        }
    }
}

fn add_def_refs(out: &mut Vec<String>, def: &Definition)
    requires
        strictly_sorted(old(out)@),
    ensures
        strictly_sorted(final(out)@),
        forall|n: Seq<char>|
            #![trigger in_list(final(out)@, n)]
            in_list(final(out)@, n) <==> in_list(old(out)@, n) || def_refers(def@, n),
{
    let ghost o0 = out@;
    if let Some(Json::Object(ps)) = get_field(def, "properties") {
        let mut k: usize = 0;
        while k < ps.len()
            invariant
                k <= ps.len(),
                strictly_sorted(out@),
                forall|n: Seq<char>|
                    #![trigger in_list(out@, n)]
                    in_list(out@, n) <==> in_list(o0, n) || exists|t: int|
                        0 <= t < k && original_ref(#[trigger] ps[t].1) == Some(n),
            decreases ps.len() - k,
        {
            add_ref(out, &ps[k].1);
            proof {
                assert forall|n: Seq<char>| #![trigger in_list(out@, n)]
                    in_list(out@, n) <==> in_list(o0, n) || exists|t: int|
                        0 <= t < k + 1 && original_ref(#[trigger] ps[t].1) == Some(n) by {
                    if original_ref(ps[k as int].1) == Some(n) {
                        assert(0 <= k < k + 1);
                    }
                }
            }
            k = k + 1;
        }
    }
}

/// The names referred to from the paths' parameters and responses and from
/// the definitions' properties, sorted, each once.
pub fn find_usages(paths: &PathEntries, definitions: &DefinitionEntries) -> (r: Vec<String>)
    ensures
        strictly_sorted(r@),
        forall|n: Seq<char>|
            #![trigger in_list(r@, n)]
            in_list(r@, n) <==> referenced(paths@, definitions@, n),
{
    let mut out: Vec<String> = Vec::new();
    let mut i: usize = 0;
    while i < paths.len()
        invariant
            i <= paths.len(),
            strictly_sorted(out@),
            forall|n: Seq<char>|
                #![trigger in_list(out@, n)]
                in_list(out@, n) <==> paths_refer(paths@.take(i as int), n),
        decreases paths.len() - i,
    {
        let ops = &paths[i].1;
        let mut j: usize = 0;
        while j < ops.len()
            invariant
                i < paths.len(),
                *ops == paths@[i as int].1,
                j <= ops.len(),
                strictly_sorted(out@),
                forall|n: Seq<char>|
                    #![trigger in_list(out@, n)]
                    in_list(out@, n) <==> paths_refer(paths@.take(i as int), n) || exists|t: int|
                        0 <= t < j && op_refers(#[trigger] ops@[t].1, n),
            decreases ops.len() - j,
        {
            add_op_refs(&mut out, &ops[j].1);
            proof {
                assert forall|n: Seq<char>| #![trigger in_list(out@, n)]
                    in_list(out@, n) <==> paths_refer(paths@.take(i as int), n) || exists|t: int|
                        0 <= t < j + 1 && op_refers(#[trigger] ops@[t].1, n) by {
                    if op_refers(ops@[j as int].1, n) {
                        assert(0 <= j < j + 1);
                    }
                }
            }
            j = j + 1;
        }
        proof {
            let ps = paths@.take(i + 1);
            let prev = paths@.take(i as int);
            assert forall|n: Seq<char>| #![trigger in_list(out@, n)]
                in_list(out@, n) <==> paths_refer(ps, n) by {
                if paths_refer(ps, n) {
                    let (a, b) = choose|a: int, b: int|
                        0 <= a < ps.len() && 0 <= b < ps[a].1.len() && op_refers(#[trigger] ps[a].1[b].1, n);
                    if a < i {
                        assert(prev[a] == ps[a]);
                        assert(op_refers(prev[a].1[b].1, n));
                    } else {
                        assert(op_refers(ops@[b].1, n));
                    }
                }
                if paths_refer(prev, n) {
                    let (a, b) = choose|a: int, b: int|
                        0 <= a < prev.len() && 0 <= b < prev[a].1.len() && op_refers(#[trigger] prev[a].1[b].1, n);
                    assert(ps[a] == prev[a]);
                    assert(op_refers(ps[a].1[b].1, n));
                }
                if exists|t: int| 0 <= t < ops.len() && op_refers(#[trigger] ops@[t].1, n) {
                    let t = choose|t: int| 0 <= t < ops.len() && op_refers(#[trigger] ops@[t].1, n);
                    assert(ps[i as int].1[t] == ops@[t]);
                    assert(op_refers(ps[i as int].1[t].1, n));
                }
            }
        }
        i = i + 1;
    }
    proof {
        assert(paths@.take(i as int) =~= paths@);
    }
    let mut d: usize = 0;
    while d < definitions.len()
        invariant
            d <= definitions.len(),
            strictly_sorted(out@),
            forall|n: Seq<char>|
                #![trigger in_list(out@, n)]
                in_list(out@, n) <==> paths_refer(paths@, n) || exists|t: int|
                    0 <= t < d && def_refers(#[trigger] definitions@[t].1@, n),
        decreases definitions.len() - d,
    {
        add_def_refs(&mut out, &definitions[d].1);
        proof {
            assert forall|n: Seq<char>| #![trigger in_list(out@, n)]
                in_list(out@, n) <==> paths_refer(paths@, n) || exists|t: int|
                    0 <= t < d + 1 && def_refers(#[trigger] definitions@[t].1@, n) by {
                if def_refers(definitions@[d as int].1@, n) {
                    assert(0 <= d < d + 1);
                }
            }
        }
        d = d + 1;
    }
    out
}

/// The definitions of `part` that are referenced from `paths` or `defs`.
pub open spec fn kept_refs(
    paths: Seq<(String, Operations)>,
    defs: Seq<(String, Definition)>,
    part: Seq<(String, Definition)>,
) -> Seq<(String, Definition)> {
    part.filter(|e: (String, Definition)| referenced(paths, defs, e.0@))
}

/// One pass of pruning: the definitions referenced from the paths or from
/// the definitions themselves, in order.
pub open spec fn prune_once(paths: Seq<(String, Operations)>, defs: Seq<(String, Definition)>) -> Seq<(String, Definition)> {
    kept_refs(paths, defs, defs)
}

/// `k` passes of pruning.
pub open spec fn prune_iter(paths: Seq<(String, Operations)>, defs: Seq<(String, Definition)>, k: nat) -> Seq<(String, Definition)>
    decreases k,
{
    if k == 0 {
        defs
    } else {
        prune_once(paths, prune_iter(paths, defs, (k - 1) as nat))
    }
}

/// One pass of pruning; tells whether it removed anything.
fn prune_pass(paths: &PathEntries, definitions: &mut DefinitionEntries) -> (removed: bool)
    ensures
        final(definitions)@ == prune_once(paths@, old(definitions)@),
        !removed ==> final(definitions)@ == old(definitions)@,
        removed ==> final(definitions)@.len() < old(definitions)@.len(),
{
    let used = find_usages(paths, definitions);
    let ghost orig = definitions@;
    let mut rest: DefinitionEntries = Vec::new();
    std::mem::swap(definitions, &mut rest);
    let mut removed = false;
    let ghost mut n: int = 0;
    while rest.len() > 0
        invariant
            0 <= n <= orig.len(),
            rest@ == orig.skip(n),
            forall|m: Seq<char>| #![trigger in_list(used@, m)] in_list(used@, m) <==> referenced(paths@, orig, m),
            definitions@ == kept_refs(paths@, orig, orig.take(n)),
            definitions@.len() <= n,
            !removed ==> definitions@ == orig.take(n),
            removed ==> definitions@.len() < n,
        decreases rest.len(),
    {
        let e = rest.remove(0);
        proof {
            assert(orig.take(n + 1).drop_last() =~= orig.take(n));
            assert(orig.take(n + 1).last() == e);
            reveal(Seq::filter);
        }
        if list_contains(&used, &e.0) {
            definitions.push(e);
        } else {
            removed = true;
        }
        proof {
            n = n + 1;
        }
    }
    proof {
        assert(orig.take(n) =~= orig);
    }
    removed
}

/// Removes every definition that the paths do not reach, directly or
/// through other kept definitions: pruning passes repeat until one removes
/// nothing, so the result is a fixed point of a pass.
pub fn remove_unused_definitions(paths: &PathEntries, definitions: &mut DefinitionEntries)
    ensures
        exists|k: nat| final(definitions)@ == prune_iter(paths@, old(definitions)@, k),
        prune_once(paths@, final(definitions)@) == final(definitions)@,
{
    let ghost d0 = definitions@;
    let ghost mut k: nat = 0;
    loop
        invariant
            definitions@ == prune_iter(paths@, d0, k),
        ensures
            definitions@ == prune_iter(paths@, d0, k),
            prune_once(paths@, definitions@) == definitions@,
        decreases definitions@.len(),
    {
        let removed = prune_pass(paths, definitions);
        proof {
            k = k + 1;
        }
        if !removed {
            break;
        }
    }
}

} // verus!
