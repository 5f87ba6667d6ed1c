use vstd::prelude::*;
use crate::json::{
    Json, first_at, has_field, field, find_field, get_field, lemma_field_at, lemma_first_at,
    unique_names,
};

verus! {

/// `name` is listed in the removal marker (`__remove`, an array of field
/// names) of `patch`.
pub open spec fn listed(patch: Seq<(String, Json)>, name: Seq<char>) -> bool {
    match field(patch, "__remove"@) {
        Some(Json::Array(items)) => exists|i: int|
            0 <= i < items.len() && items[i] is Str && items[i]->Str_0@ == name,
        _ => false,
    }
}

/// The fields of `target` that `patch` does not list for removal, in order.
pub open spec fn kept(target: Seq<(String, Json)>, patch: Seq<(String, Json)>) -> Seq<(String, Json)> {
    target.filter(|f: (String, Json)| !listed(patch, f.0@))
}

/// The fields of `patch` without its removal marker, in order.
pub open spec fn unmarked(patch: Seq<(String, Json)>) -> Seq<(String, Json)> {
    patch.filter(|f: (String, Json)| f.0@ != "__remove"@)
}

/// `base` with each field of `add` written over it in turn: a field of the
/// same name keeps its place and takes the new value, any other is appended.
pub open spec fn overlay<V>(base: Seq<(String, V)>, add: Seq<(String, V)>) -> Seq<(String, V)>
    decreases add.len(),
{
    if add.len() == 0 {
        base
    } else {
        let prev = overlay(base, add.drop_last());
        let kv = add.last();
        if has_field(prev, kv.0@) {
            prev.update(choose|i: int| first_at(prev, kv.0@, i), kv)
        } else {
            prev.push(kv)
        }
    }
}

/// Overlaying onto nothing leaves each name once.
pub proof fn lemma_overlay_unique<V>(add: Seq<(String, V)>)
    ensures
        unique_names(overlay(Seq::<(String, V)>::empty(), add)),
    decreases add.len(),
{
    if add.len() > 0 {
        let prev = overlay(Seq::<(String, V)>::empty(), add.drop_last());
        let kv = add.last();
        lemma_overlay_unique(add.drop_last());
        if has_field(prev, kv.0@) {
            lemma_first_at(prev, kv.0@);
        }
    }
}

/// Overlaying entries whose names are distinct onto nothing gives them back.
pub proof fn lemma_overlay_distinct<V>(add: Seq<(String, V)>)
    requires
        unique_names(add),
    ensures
        overlay(Seq::<(String, V)>::empty(), add) == add,
    decreases add.len(),
{
    if add.len() > 0 {
        let init = add.drop_last();
        assert(unique_names(init)) by {
            assert forall|i: int, j: int| 0 <= i < init.len() && 0 <= j < init.len() && i != j
                implies init[i].0@ != init[j].0@ by {
                assert(init[i] == add[i] && init[j] == add[j]);
            }
        }
        lemma_overlay_distinct(init);
        if has_field(init, add.last().0@) {
            let i = choose|i: int| 0 <= i < init.len() && init[i].0@ == add.last().0@;
            assert(init[i] == add[i]);
        }
        assert(init.push(add.last()) =~= add);
    }
}

/// One level of object merge: drop the listed fields, then overlay the rest.
pub open spec fn patched(target: Seq<(String, Json)>, patch: Seq<(String, Json)>) -> Seq<(String, Json)> {
    overlay(kept(target, patch), unmarked(patch))
}

/// `r` is what an existing value `t` becomes under the patch value `p`:
/// arrays are appended, objects patched one level deep, anything else replaced.
pub open spec fn merged_value(t: Json, p: Json, r: Json) -> bool {
    match (t, p) {
        (Json::Array(a), Json::Array(b)) => r is Array && r->Array_0@ == a@ + b@,
        (Json::Object(o), Json::Object(q)) => r is Object && r->Object_0@ == patched(o@, q@),
        _ => r == p,
    }
}

/// `r` is `t` after the patch field `kv`.
pub open spec fn merge_step(t: Seq<(String, Json)>, kv: (String, Json), r: Seq<(String, Json)>) -> bool {
    if has_field(t, kv.0@) {
        let i = choose|i: int| first_at(t, kv.0@, i);
        &&& r.len() == t.len()
        &&& forall|j: int| 0 <= j < t.len() && j != i ==> r[j] == t[j]
        &&& r[i].0 == t[i].0
        &&& merged_value(t[i].1, kv.1, r[i].1)
    } else {
        r == t.push(kv)
    }
}

/// `r` is `t` after the fields of `p`, taken in order.
pub open spec fn merged(t: Seq<(String, Json)>, p: Seq<(String, Json)>, r: Seq<(String, Json)>) -> bool
    decreases p.len(),
{
    if p.len() == 0 {
        r == t
    } else {
        exists|m: Seq<(String, Json)>| merged(t, p.drop_last(), m) && merge_step(m, p.last(), r)
    }
}

fn is_listed(patch: &Vec<(String, Json)>, name: &String) -> (r: bool)
    ensures
        r == listed(patch@, name@),
{
    let marked = get_field(patch, "__remove");
    proof {
        reveal_strlit("__remove");
    }
    match marked {
        Some(Json::Array(items)) => {
            assert(field(patch@, "__remove"@) == Some(Json::Array(*items)));
            let mut i: usize = 0;
            while i < items.len()
                invariant
                    0 <= i <= items.len(),
                    field(patch@, "__remove"@) == Some(Json::Array(*items)),
                    forall|j: int| 0 <= j < i ==> !(items@[j] is Str && items@[j]->Str_0@ == name@),
                decreases items.len() - i,
            {
                match &items[i] {
                    Json::Str(s) => {
                        if *s == *name {
                            assert(items[i as int] is Str && items[i as int]->Str_0@ == name@);
                            return true;
                        }
                    },
                    _ => {},
                }
                i = i + 1;
            }
            false
        },
        _ => false,
    }
}

fn drop_listed(target: Vec<(String, Json)>, patch: &Vec<(String, Json)>) -> (r: Vec<(String, Json)>)
    ensures
        r@ == kept(target@, patch@),
{
    let ghost orig = target@;
    let mut rest = target;
    let mut out: Vec<(String, Json)> = Vec::new();
    let ghost mut i: int = 0;
    while rest.len() > 0
        invariant
            0 <= i <= orig.len(),
            rest@ == orig.skip(i as int),
            out@ == kept(orig.take(i as int), patch@),
        decreases rest.len(),
    {
        let f = rest.remove(0);
        proof {
            assert(orig.take(i + 1).drop_last() =~= orig.take(i as int));
            assert(orig.take(i + 1).last() == f);
            reveal(Seq::filter);
        }
        if !is_listed(patch, &f.0) {
            out.push(f);
        }
        proof {
            i = i + 1;
        }
    }
    proof {
        assert(orig.take(i as int) =~= orig);
    }
    out
}

fn drop_marker(patch: Vec<(String, Json)>) -> (r: Vec<(String, Json)>)
    ensures
        r@ == unmarked(patch@),
{
    let ghost orig = patch@;
    let marker: String = "__remove".to_owned();
    let mut rest = patch;
    let mut out: Vec<(String, Json)> = Vec::new();
    let ghost mut i: int = 0;
    while rest.len() > 0
        invariant
            0 <= i <= orig.len(),
            marker@ == "__remove"@,
            rest@ == orig.skip(i as int),
            out@ == unmarked(orig.take(i as int)),
        decreases rest.len(),
    {
        let f = rest.remove(0);
        proof {
            assert(orig.take(i + 1).drop_last() =~= orig.take(i as int));
            assert(orig.take(i + 1).last() == f);
            reveal(Seq::filter);
        }
        if f.0 != marker {
            out.push(f);
        }
        proof {
            i = i + 1;
        }
    }
    proof {
        assert(orig.take(i as int) =~= orig);
    }
    out
}

/// Writes each entry of `add` over `base` in turn: an entry of the same
/// name keeps its place and takes the new value, any other is appended.
pub fn overlay_fields<V>(base: &mut Vec<(String, V)>, add: Vec<(String, V)>)
    ensures
        final(base)@ == overlay(old(base)@, add@),
{
    let ghost orig = add@;
    let ghost b0 = base@;
    let mut rest = add;
    let ghost mut i: int = 0;
    while rest.len() > 0
        invariant
            0 <= i <= orig.len(),
            rest@ == orig.skip(i as int),
            base@ == overlay(b0, orig.take(i as int)),
        decreases rest.len(),
    {
        let kv = rest.remove(0);
        proof {
            assert(orig.take(i + 1).drop_last() =~= orig.take(i as int));
            assert(orig.take(i + 1).last() == kv);
        }
        match find_field(base, kv.0.as_str()) {
            Some(j) => {
                proof { lemma_field_at(base@, kv.0@, j as int); }
                base.remove(j);
                base.insert(j, kv);
            },
            None => {
                base.push(kv);
            },
        }
        proof {
            i = i + 1;
        }
    }
    proof {
        assert(orig.take(i as int) =~= orig);
    }
}

fn patch_object(target: Vec<(String, Json)>, patch: Vec<(String, Json)>) -> (r: Vec<(String, Json)>)
    ensures
        r@ == patched(target@, patch@),
{
    let mut base = drop_listed(target, &patch);
    let add = drop_marker(patch);
    overlay_fields(&mut base, add);
    base
}

fn merge_value(t: Json, p: Json) -> (r: Json)
    ensures
        merged_value(t, p, r),
{
    match t {
        Json::Array(mut a) => match p {
            Json::Array(mut b) => {
                a.append(&mut b);
                Json::Array(a)
            },
            other => other,
        },
        Json::Object(o) => match p {
            Json::Object(q) => Json::Object(patch_object(o, q)),
            other => other,
        },
        _ => p,
    }
}

/// Merges the fields of `right` into `left`, in order. A missing field is
/// appended; an existing one is merged by `merged_value`.
pub fn merge(left: &mut Vec<(String, Json)>, right: Vec<(String, Json)>)
    ensures
        merged(old(left)@, right@, final(left)@),
{
    let ghost l0 = left@;
    let ghost orig = right@;
    let mut rest = right;
    let ghost mut i: int = 0;
    while rest.len() > 0
        invariant
            0 <= i <= orig.len(),
            rest@ == orig.skip(i as int),
            merged(l0, orig.take(i as int), left@),
        decreases rest.len(),
    {
        let kv = rest.remove(0);
        let ghost prev = left@;
        proof {
            assert(orig.take(i + 1).drop_last() =~= orig.take(i as int));
            assert(orig.take(i + 1).last() == kv);
        }
        let (k, v) = kv;
        match find_field(left, k.as_str()) {
            Some(j) => {
                proof { lemma_field_at(left@, k@, j as int); }
                let (k0, cur) = left.remove(j);
                let nv = merge_value(cur, v);
                left.insert(j, (k0, nv));
                proof {
                    assert(merge_step(prev, kv, left@));
                }
            },
            None => {
                left.push((k, v));
                proof {
                    assert(merge_step(prev, kv, left@));
                }
            },
        }
        proof {
            assert(merged(l0, orig.take(i + 1), left@));
        }
        proof {
            i = i + 1;
        }
    }
    proof {
        assert(orig.take(i as int) =~= orig);
    }
}

} // verus!
