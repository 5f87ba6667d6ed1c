use vstd::prelude::*;

verus! {

/// A JSON value. Numbers keep their textual form; objects keep their
/// fields in order.
#[derive(Debug, PartialEq)]
pub enum Json {
    Null,
    Bool(bool),
    Number(String),
    Str(String),
    Array(Vec<Json>),
    Object(Vec<(String, Json)>),
}

/// `i` is the first position of `fields` whose name is `k`.
pub open spec fn first_at<V>(fields: Seq<(String, V)>, k: Seq<char>, i: int) -> bool {
    &&& 0 <= i < fields.len()
    &&& fields[i].0@ == k
    &&& forall|j: int| 0 <= j < i ==> fields[j].0@ != k
}

/// Some field is named `k`.
pub open spec fn has_field<V>(fields: Seq<(String, V)>, k: Seq<char>) -> bool {
    exists|i: int| 0 <= i < fields.len() && fields[i].0@ == k
}

/// The value of the first field named `k`.
pub open spec fn field<V>(fields: Seq<(String, V)>, k: Seq<char>) -> Option<V> {
    if has_field(fields, k) {
        Some(fields[choose|i: int| first_at(fields, k, i)].1)
    } else {
        None
    }
}

/// No two fields share a name.
pub open spec fn unique_names<V>(fields: Seq<(String, V)>) -> bool {
    forall|i: int, j: int|
        0 <= i < fields.len() && 0 <= j < fields.len() && i != j ==> fields[i].0@ != fields[j].0@
}

/// A field that exists has a first position.
pub proof fn lemma_first_at<V>(fields: Seq<(String, V)>, k: Seq<char>)
    requires
        has_field(fields, k),
    ensures
        exists|i: int| first_at(fields, k, i),
        first_at(fields, k, choose|i: int| first_at(fields, k, i)),
        field(fields, k) == Some(fields[choose|i: int| first_at(fields, k, i)].1),
    decreases fields.len(),
{
    let n = fields.len() - 1;
    let init = fields.take(n as int);
    assert(forall|j: int| 0 <= j < init.len() ==> init[j] == fields[j]);
    if exists|i: int| 0 <= i < init.len() && init[i].0@ == k {
        lemma_first_at(init, k);
        let i = choose|i: int| first_at(init, k, i);
        assert(first_at(fields, k, i));
    } else {
        let w = choose|i: int| 0 <= i < fields.len() && fields[i].0@ == k;
        if w < n {
            assert(init[w].0@ == k);
        }
        assert(first_at(fields, k, n as int));
    }
}

/// The position of `k` in `fields` is unique, so it is the one the lookup uses.
pub proof fn lemma_field_at<V>(fields: Seq<(String, V)>, k: Seq<char>, i: int)
    requires
        first_at(fields, k, i),
    ensures
        has_field(fields, k),
        (choose|j: int| first_at(fields, k, j)) == i,
        field(fields, k) == Some(fields[i].1),
{
    let c = choose|j: int| first_at(fields, k, j);
    assert(first_at(fields, k, c));
    if c < i {
        assert(fields[c].0@ != k);
    } else if i < c {
        assert(fields[i].0@ != k);
    }
}

/// Position of the first field named `k`.
pub fn find_field<V>(fields: &Vec<(String, V)>, k: &str) -> (r: Option<usize>)
    ensures
        r matches Some(i) ==> first_at(fields@, k@, i as int),
        r is None <==> !has_field(fields@, k@),
{
    let key: String = k.to_owned();
    let mut i: usize = 0;
    while i < fields.len()
        invariant
            0 <= i <= fields.len(),
            key@ == k@,
            forall|j: int| 0 <= j < i ==> fields@[j].0@ != k@,
        decreases fields.len() - i,
    {
        if fields[i].0 == key {
            return Some(i);
        }
        i = i + 1;
    }
    None
}

/// The value of the first field named `k`.
pub fn get_field<'a, V>(fields: &'a Vec<(String, V)>, k: &str) -> (r: Option<&'a V>)
    ensures
        r matches Some(v) ==> field(fields@, k@) == Some(*v),
        r is None ==> field(fields@, k@) is None,
{
    match find_field(fields, k) {
        Some(i) => {
            proof { lemma_field_at(fields@, k@, i as int); }
            Some(&fields[i].1)
        },
        None => None,
    }
}


/// `k` is one of the texts of `keys`.
pub open spec fn in_list(keys: Seq<String>, k: Seq<char>) -> bool {
    exists|i: int| 0 <= i < keys.len() && keys[i]@ == k
}

/// The entries of `t` whose name is not in `keys`, in order.
pub open spec fn without_names<V>(t: Seq<(String, V)>, keys: Seq<String>) -> Seq<(String, V)> {
    t.filter(|e: (String, V)| !in_list(keys, e.0@))
}

/// Whether `k` is one of `keys`.
pub fn list_contains(keys: &Vec<String>, k: &String) -> (r: bool)
    ensures
        r == in_list(keys@, k@),
{
    let mut i: usize = 0;
    while i < keys.len()
        invariant
            i <= keys.len(),
            forall|j: int| 0 <= j < i ==> keys@[j]@ != k@,
        decreases keys.len() - i,
    {
        if keys[i] == *k {
            return true;
        }
        i = i + 1;
    }
    false
}

/// Removes the entries whose name is in `keys`; the others keep their order.
pub fn remove_names<V>(t: &mut Vec<(String, V)>, keys: &Vec<String>)
    ensures
        final(t)@ == without_names(old(t)@, keys@),
{
    let ghost orig = t@;
    let mut rest: Vec<(String, V)> = Vec::new();
    std::mem::swap(t, &mut rest);
    let ghost mut n: int = 0;
    while rest.len() > 0
        invariant
            0 <= n <= orig.len(),
            rest@ == orig.skip(n),
            t@ == without_names(orig.take(n), keys@),
        decreases rest.len(),
    {
        let e = rest.remove(0);
        proof {
            assert(orig.take(n + 1).drop_last() =~= orig.take(n));
            assert(orig.take(n + 1).last() == e);
            reveal(Seq::filter);
        }
        if !list_contains(keys, &e.0) {
            t.push(e);
        }
        proof {
            n = n + 1;
        }
    }
    proof {
        assert(orig.take(n) =~= orig);
    }
}

/// `after` is `before` with the field `k` given a new value: in its place if
/// it exists, else appended.
pub open spec fn field_replaced(before: Seq<(String, Json)>, k: Seq<char>, after: Seq<(String, Json)>) -> bool {
    if has_field(before, k) {
        let i = choose|i: int| first_at(before, k, i);
        &&& after.len() == before.len()
        &&& forall|j: int| 0 <= j < before.len() && j != i ==> after[j] == before[j]
        &&& after[i].0 == before[i].0
    } else {
        &&& after.len() == before.len() + 1
        &&& after.take(before.len() as int) == before
        &&& after.last().0@ == k
    }
}

/// The value that `field_replaced` wrote.
pub open spec fn replaced_value(before: Seq<(String, Json)>, k: Seq<char>, after: Seq<(String, Json)>) -> Json {
    if has_field(before, k) {
        after[choose|i: int| first_at(before, k, i)].1
    } else {
        after.last().1
    }
}

/// Sets the field `k` to `v`.
pub fn set_field(fields: &mut Vec<(String, Json)>, k: &str, v: Json)
    ensures
        field_replaced(old(fields)@, k@, final(fields)@),
        replaced_value(old(fields)@, k@, final(fields)@) == v,
{
    match find_field(fields, k) {
        Some(i) => {
            proof { lemma_field_at(fields@, k@, i as int); }
            let (name, _) = fields.remove(i);
            fields.insert(i, (name, v));
        },
        None => {
            let ghost before = fields@;
            fields.push((k.to_owned(), v));
            assert(fields@.take(before.len() as int) =~= before);
        },
    }
}


/// After `field_replaced`, lookups of other names are unchanged and `k` gives
/// the new value.
pub proof fn lemma_field_replaced(before: Seq<(String, Json)>, k: Seq<char>, after: Seq<(String, Json)>, k2: Seq<char>)
    requires
        field_replaced(before, k, after),
    ensures
        k2 != k ==> field(after, k2) == field(before, k2),
        field(after, k) == Some(replaced_value(before, k, after)),
{
    if has_field(before, k) {
        lemma_first_at(before, k);
        let i = choose|i: int| first_at(before, k, i);
        assert forall|j: int| 0 <= j < after.len() implies after[j].0@ == before[j].0@ by {
            if j != i {
                assert(after[j] == before[j]);
            }
        }
        assert(first_at(after, k, i));
        lemma_field_at(after, k, i);
        if k2 != k {
            if has_field(before, k2) {
                lemma_first_at(before, k2);
                let j = choose|j: int| first_at(before, k2, j);
                assert(first_at(after, k2, j));
                lemma_field_at(after, k2, j);
                lemma_field_at(before, k2, j);
                assert(after[j] == before[j]);
            } else {
                assert(!has_field(after, k2));
            }
        }
    } else {
        let n = before.len() as int;
        assert(forall|j: int| 0 <= j < n ==> after[j] == after.take(n)[j]);
        assert(first_at(after, k, n));
        lemma_field_at(after, k, n);
        if k2 != k {
            if has_field(before, k2) {
                lemma_first_at(before, k2);
                let j = choose|j: int| first_at(before, k2, j);
                assert(first_at(after, k2, j));
                lemma_field_at(after, k2, j);
                lemma_field_at(before, k2, j);
            } else {
                assert(!has_field(after, k2));
            }
        }
    }
}

} // verus!
