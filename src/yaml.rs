use vstd::prelude::*;
use crate::json::{Json, field, get_field};
use crate::config::{SchemaDefinitions, SchemaPaths};
use crate::paths::EditError;
use crate::swagger::Definition;

verus! {

/// A configuration entry in its file form: the path and definition edits
/// are tables of plain values, keyed by rule name.
pub struct Config {
    pub file: String,
    pub url: String,
    pub request: Option<RequestConfig>,
    /// `__remove` lists path keys to delete; every other key is a rename
    /// pattern whose value is the replacement.
    pub paths: Option<Vec<(String, Json)>>,
    /// `__remove` lists names to delete, `__add` and `__override` map names
    /// to definitions; every other key is a patch of that definition.
    pub definitions: Option<Vec<(String, Json)>>,
}

/// How the document is requested.
pub struct RequestConfig {
    pub headers: Option<Vec<(String, String)>>,
}

/// `names` holds the strings of `a`, in order.
pub open spec fn texts_match(a: Seq<Json>, names: Seq<String>) -> bool {
    &&& names.len() == a.len()
    &&& forall|i: int| 0 <= i < a.len() ==> a[i] is Str && names[i]@ == a[i]->Str_0@
}

/// Every item of `a` is a string.
pub open spec fn all_texts(a: Seq<Json>) -> bool {
    forall|i: int| 0 <= i < a.len() ==> a[i] is Str
}

/// The entries of a configuration table other than the rule `marker`.
pub open spec fn entries_without(table: Seq<(String, Json)>, marker: Seq<char>) -> Seq<(String, Json)> {
    table.filter(|e: (String, Json)| e.0@ != marker)
}

/// The entries of a definitions table that are patches.
pub open spec fn patch_entries(table: Seq<(String, Json)>) -> Seq<(String, Json)> {
    table.filter(|e: (String, Json)| e.0@ != "__remove"@ && e.0@ != "__add"@)
}

/// `rules` are the entries, each with a string value.
pub open spec fn rules_match(entries: Seq<(String, Json)>, rules: Seq<(String, String)>) -> bool {
    &&& rules.len() == entries.len()
    &&& forall|i: int|
        0 <= i < entries.len() ==> rules[i].0 == entries[i].0 && entries[i].1 is Str && rules[i].1@
            == entries[i].1->Str_0@
}

/// `defs` are the entries, each with an object value.
pub open spec fn objects_match(entries: Seq<(String, Json)>, defs: Seq<(String, Definition)>) -> bool {
    &&& defs.len() == entries.len()
    &&& forall|i: int|
        0 <= i < entries.len() ==> defs[i].0 == entries[i].0 && entries[i].1 is Object && defs[i].1
            == entries[i].1->Object_0
}

/// The removal list of a table holds only strings, where it is a list.
pub open spec fn removal_ok(table: Seq<(String, Json)>) -> bool {
    match field(table, "__remove"@) {
        Some(Json::Array(a)) => all_texts(a@),
        _ => true,
    }
}

/// `names` is what the removal list of a table gives.
pub open spec fn removal_of(table: Seq<(String, Json)>, names: Option<Vec<String>>) -> bool {
    match field(table, "__remove"@) {
        Some(Json::Array(a)) => names is Some && texts_match(a@, names->Some_0@),
        _ => names is None,
    }
}

fn removal_list(table: &Vec<(String, Json)>) -> (r: Result<Option<Vec<String>>, EditError>)
    ensures
        r is Ok <==> removal_ok(table@),
        r matches Ok(names) ==> removal_of(table@, names),
{
    match get_field(table, "__remove") {
        Some(Json::Array(a)) => {
            let mut names: Vec<String> = Vec::new();
            let mut i: usize = 0;
            while i < a.len()
                invariant
                    i <= a.len(),
                    field(table@, "__remove"@) == Some(Json::Array(*a)),
                    names.len() == i,
                    forall|t: int| 0 <= t < i ==> a@[t] is Str && names@[t]@ == a@[t]->Str_0@,
                decreases a.len() - i,
            {
                match &a[i] {
                    Json::Str(s) => names.push(s.clone()),
                    _ => {
                        return Err(EditError::InvalidRule("__remove".to_owned()));
                    },
                }
                i = i + 1;
            }
            Ok(Some(names))
        },
        _ => Ok(None),
    }
}

/// The path edits of a configuration table: `__remove` lists keys to
/// delete, every other entry is a rename rule whose value is the
/// replacement.
pub fn path_edits_of(table: Vec<(String, Json)>) -> (r: Result<SchemaPaths, EditError>)
    ensures
        r is Ok <==> removal_ok(table@) && forall|i: int|
            0 <= i < entries_without(table@, "__remove"@).len() ==> #[trigger] entries_without(
                table@,
                "__remove"@,
            )[i].1 is Str,
        r matches Ok(e) ==> removal_of(table@, e.__remove) && e.__rename is Some && rules_match(
            entries_without(table@, "__remove"@),
            e.__rename->Some_0@,
        ),
{
    let remove = match removal_list(&table) {
        Ok(names) => names,
        Err(e) => {
            return Err(e);
        },
    };
    let ghost orig = table@;
    let marker = "__remove".to_owned();
    let mut rest = table;
    let mut rules: Vec<(String, String)> = Vec::new();
    let ghost mut n: int = 0;
    while rest.len() > 0
        invariant
            0 <= n <= orig.len(),
            rest@ == orig.skip(n),
            marker@ == "__remove"@,
            orig == table@,
            rules_match(entries_without(orig.take(n), "__remove"@), rules@),
        decreases rest.len(),
    {
        let (k, v) = rest.remove(0);
        let ghost e = orig[n];
        proof {
            assert(orig.take(n + 1).drop_last() =~= orig.take(n));
            assert(orig.take(n + 1).last() == e);
            reveal(Seq::filter);
        }
        if k != marker {
            match v {
                Json::Str(s) => {
                    rules.push((k, s));
                },
                _ => {
                    proof {
                        let es = entries_without(orig, "__remove"@);
                        assert(entries_without(orig.take(n + 1), "__remove"@).last() == e);
                        lemma_filter_prefix(orig, n + 1, "__remove"@);
                        let j = entries_without(orig.take(n + 1), "__remove"@).len() - 1;
                        assert(es[j] == e);
                        assert(0 <= j < es.len());
                        assert(!(es[j].1 is Str));
                    }
                    return Err(EditError::InvalidRule(k));
                },
            }
        }
        proof {
            n = n + 1;
        }
    }
    proof {
        assert(orig.take(n) =~= orig);
    }
    Ok(SchemaPaths { __rename: Some(rules), __remove: remove })
}

proof fn lemma_filter_prefix(s: Seq<(String, Json)>, n: int, marker: Seq<char>)
    requires
        0 <= n <= s.len(),
    ensures
        entries_without(s, marker).len() >= entries_without(s.take(n), marker).len(),
        forall|i: int|
            0 <= i < entries_without(s.take(n), marker).len() ==> entries_without(s, marker)[i]
                == entries_without(s.take(n), marker)[i],
    decreases s.len() - n,
{
    if n < s.len() {
        lemma_filter_prefix(s, n + 1, marker);
        reveal(Seq::filter);
        assert(s.take(n + 1).drop_last() =~= s.take(n));
    } else {
        assert(s.take(n) =~= s);
    }
}

/// Every entry has an object value.
pub open spec fn all_objects(entries: Seq<(String, Json)>) -> bool {
    forall|i: int| 0 <= i < entries.len() ==> #[trigger] entries[i].1 is Object
}

/// The `__add` entry of a table, if any, is an object of objects.
pub open spec fn adds_ok(table: Seq<(String, Json)>) -> bool {
    match field(table, "__add"@) {
        Some(Json::Object(es)) => all_objects(es@),
        Some(_) => false,
        None => true,
    }
}

/// `adds` is what the `__add` entry of a table gives.
pub open spec fn adds_of(table: Seq<(String, Json)>, adds: Option<Vec<(String, Definition)>>) -> bool {
    match field(table, "__add"@) {
        Some(Json::Object(es)) => adds is Some && objects_match(es@, adds->Some_0@),
        _ => adds is None,
    }
}

fn objects_list(entries: Vec<(String, Json)>) -> (r: Result<Vec<(String, Definition)>, EditError>)
    ensures
        r is Ok <==> all_objects(entries@),
        r matches Ok(d) ==> objects_match(entries@, d@),
{
    let ghost orig = entries@;
    let mut rest = entries;
    let mut out: Vec<(String, Definition)> = Vec::new();
    let ghost mut n: int = 0;
    while rest.len() > 0
        invariant
            0 <= n <= orig.len(),
            rest@ == orig.skip(n),
            orig == entries@,
            objects_match(orig.take(n), out@),
            all_objects(orig.take(n)),
        decreases rest.len(),
    {
        let (k, v) = rest.remove(0);
        proof {
            assert(orig[n] == (k, v));
        }
        match v {
            Json::Object(f) => out.push((k, f)),
            _ => {
                proof {
                    assert(!(orig[n].1 is Object));
                }
                return Err(EditError::InvalidRule(k));
            },
        }
        proof {
            assert forall|i: int| 0 <= i < n + 1 implies #[trigger] orig.take(n + 1)[i].1 is Object by {
                if i < n {
                    assert(orig.take(n)[i] == orig.take(n + 1)[i]);
                }
            }
            n = n + 1;
        }
    }
    proof {
        assert(orig.take(n) =~= orig);
    }
    Ok(out)
}

/// The definition edits of a configuration table: `__remove` lists names
/// to delete, `__add` maps names to definitions, and every other entry is
/// a patch of the definition of its name.
pub fn definition_edits_of(table: Vec<(String, Json)>) -> (r: Result<SchemaDefinitions, EditError>)
    requires
        crate::json::unique_names(table@),
    ensures
        r is Ok <==> removal_ok(table@) && adds_ok(table@) && all_objects(patch_entries(table@)),
        r matches Ok(e) ==> removal_of(table@, e.__remove) && adds_of(table@, e.__add) && e.__override is Some
            && objects_match(patch_entries(table@), e.__override->Some_0@),
{
    let remove = match removal_list(&table) {
        Ok(names) => names,
        Err(e) => {
            return Err(e);
        },
    };
    let ghost orig = table@;
    let remove_key = "__remove".to_owned();
    let add_key = "__add".to_owned();
    let mut rest = table;
    let mut adds: Option<Vec<(String, Definition)>> = None;
    let mut patches: Vec<(String, Definition)> = Vec::new();
    let ghost mut n: int = 0;
    while rest.len() > 0
        invariant
            0 <= n <= orig.len(),
            rest@ == orig.skip(n),
            orig == table@,
            crate::json::unique_names(orig),
            remove_key@ == "__remove"@,
            add_key@ == "__add"@,
            objects_match(patch_entries(orig.take(n)), patches@),
            all_objects(patch_entries(orig.take(n))),
            (exists|j: int| 0 <= j < n && orig[j].0@ == "__add"@) ==> adds_of(orig, adds) && adds_ok(orig),
            !(exists|j: int| 0 <= j < n && orig[j].0@ == "__add"@) ==> adds is None,
        decreases rest.len(),
    {
        let (k, v) = rest.remove(0);
        let ghost e = orig[n];
        proof {
            assert(e == (k, v));
            assert(orig.take(n + 1).drop_last() =~= orig.take(n));
            assert(orig.take(n + 1).last() == e);
            reveal(Seq::filter);
        }
        if k == add_key {
            proof {
                assert(crate::json::first_at(orig, "__add"@, n));
                crate::json::lemma_field_at(orig, "__add"@, n);
            }
            match v {
                Json::Object(es) => {
                    match objects_list(es) {
                        Ok(d) => {
                            adds = Some(d);
                        },
                        Err(err) => {
                            return Err(err);
                        },
                    }
                },
                _ => {
                    return Err(EditError::InvalidRule(k));
                },
            }
        } else if k != remove_key {
            match v {
                Json::Object(f) => patches.push((k, f)),
                _ => {
                    proof {
                        let ps = patch_entries(orig);
                        lemma_patch_prefix(orig, n + 1);
                        let j = patch_entries(orig.take(n + 1)).len() - 1;
                        assert(ps[j] == e);
                        assert(!(ps[j].1 is Object));
                    }
                    return Err(EditError::InvalidRule(k));
                },
            }
        }
        proof {
            let pt = patch_entries(orig.take(n + 1));
            assert forall|i: int| 0 <= i < pt.len() implies #[trigger] pt[i].1 is Object by {
                if i < patch_entries(orig.take(n)).len() {
                    assert(pt[i] == patch_entries(orig.take(n))[i]);
                }
            }
            if exists|j: int| 0 <= j < n + 1 && orig[j].0@ == "__add"@ {
                if !(exists|j: int| 0 <= j < n && orig[j].0@ == "__add"@) {
                    assert(k@ == "__add"@);
                }
            }
            n = n + 1;
        }
    }
    proof {
        assert(orig.take(n) =~= orig);
        if !(exists|j: int| 0 <= j < n && orig[j].0@ == "__add"@) {
            assert(!crate::json::has_field(orig, "__add"@));
        }
    }
    Ok(SchemaDefinitions { __add: adds, __override: Some(patches), __remove: remove })
}

proof fn lemma_patch_prefix(s: Seq<(String, Json)>, n: int)
    requires
        0 <= n <= s.len(),
    ensures
        patch_entries(s).len() >= patch_entries(s.take(n)).len(),
        forall|i: int|
            0 <= i < patch_entries(s.take(n)).len() ==> patch_entries(s)[i] == patch_entries(s.take(n))[i],
    decreases s.len() - n,
{
    if n < s.len() {
        lemma_patch_prefix(s, n + 1);
        reveal(Seq::filter);
        assert(s.take(n + 1).drop_last() =~= s.take(n));
    } else {
        assert(s.take(n) =~= s);
    }
}

} // verus!
