use vstd::prelude::*;
use crate::json::in_list;

verus! {

broadcast use vstd::seq_lib::to_multiset_insert;

/// Lexicographic order on texts, by code point (the order of `str`).
pub open spec fn text_lt(a: Seq<char>, b: Seq<char>) -> bool
    decreases a.len(),
{
    if a.len() == 0 {
        b.len() > 0
    } else if b.len() == 0 {
        false
    } else if a[0] != b[0] {
        (a[0] as int) < (b[0] as int)
    } else {
        text_lt(a.drop_first(), b.drop_first())
    }
}

/// Entries are in non-decreasing order of their names.
pub open spec fn sorted_by_name<V>(t: Seq<(String, V)>) -> bool {
    forall|i: int, j: int| 0 <= i < j < t.len() ==> !text_lt(t[j].0@, t[i].0@)
}

pub proof fn lemma_text_lt_irreflexive(a: Seq<char>)
    ensures
        !text_lt(a, a),
    decreases a.len(),
{
    if a.len() > 0 {
        lemma_text_lt_irreflexive(a.drop_first());
    }
}

pub proof fn lemma_text_lt_transitive(a: Seq<char>, b: Seq<char>, c: Seq<char>)
    requires
        text_lt(a, b),
        text_lt(b, c),
    ensures
        text_lt(a, c),
    decreases a.len(),
{
    if a.len() > 0 && b.len() > 0 && c.len() > 0 && a[0] == b[0] && b[0] == c[0] {
        lemma_text_lt_transitive(a.drop_first(), b.drop_first(), c.drop_first());
    }
}

pub proof fn lemma_text_lt_total(a: Seq<char>, b: Seq<char>)
    requires
        !text_lt(a, b),
        a != b,
    ensures
        text_lt(b, a),
    decreases a.len(),
{
    if a.len() == 0 {
        assert(a =~= b);
    } else if b.len() > 0 && a[0] == b[0] {
        if a.drop_first() == b.drop_first() {
            assert(a.drop_first().len() == b.drop_first().len());
            assert(a.len() == b.len());
            assert forall|i: int| 0 <= i < a.len() implies a[i] == b[i] by {
                if i > 0 {
                    assert(a[i] == a.drop_first()[i - 1]);
                    assert(b[i] == b.drop_first()[i - 1]);
                }
            }
            assert(a =~= b);
        }
        lemma_text_lt_total(a.drop_first(), b.drop_first());
    } else if b.len() > 0 {
        assert((a[0] as int) != (b[0] as int));
    }
}

/// Texts in strictly increasing order, so each at most once.
pub open spec fn strictly_sorted(s: Seq<String>) -> bool {
    forall|i: int, j: int| 0 <= i < j < s.len() ==> text_lt(s[i]@, s[j]@)
}

/// Whether `a` comes strictly before `b`.
pub fn text_less(a: &str, b: &str) -> (r: bool)
    ensures
        r == text_lt(a@, b@),
{
    let la = a.unicode_len();
    let lb = b.unicode_len();
    let mut i: usize = 0;
    proof {
        assert(a@.skip(0) =~= a@);
        assert(b@.skip(0) =~= b@);
    }
    while i < la && i < lb
        invariant
            i <= la,
            i <= lb,
            la == a@.len(),
            lb == b@.len(),
            text_lt(a@, b@) == text_lt(a@.skip(i as int), b@.skip(i as int)),
        decreases la - i,
    {
        let ca = a.get_char(i);
        let cb = b.get_char(i);
        proof {
            assert(a@.skip(i as int)[0] == ca);
            assert(b@.skip(i as int)[0] == cb);
            assert(a@.skip(i as int).drop_first() =~= a@.skip(i + 1));
            assert(b@.skip(i as int).drop_first() =~= b@.skip(i + 1));
        }
        if ca != cb {
            return (ca as u32) < (cb as u32);
        }
        i = i + 1;
    }
    la < lb
}

/// The entries of `t`, stably sorted by name.
pub fn sort_by_name<V>(t: Vec<(String, V)>) -> (r: Vec<(String, V)>)
    ensures
        r@.to_multiset() == t@.to_multiset(),
        sorted_by_name(r@),
{
    let ghost orig = t@;
    let mut rest = t;
    let mut out: Vec<(String, V)> = Vec::new();
    let ghost mut n: int = 0;
    proof {
        assert(orig.take(0) =~= Seq::<(String, V)>::empty());
    }
    while rest.len() > 0
        invariant
            0 <= n <= orig.len(),
            rest@ == orig.skip(n),
            out@.to_multiset() == orig.take(n).to_multiset(),
            sorted_by_name(out@),
        decreases rest.len(),
    {
        let e = rest.remove(0);
        let mut p: usize = 0;
        while p < out.len() && !text_less(e.0.as_str(), out[p].0.as_str())
            invariant
                p <= out.len(),
                forall|q: int| 0 <= q < p ==> !text_lt(e.0@, out@[q].0@),
            decreases out.len() - p,
        {
            p = p + 1;
        }
        let ghost before = out@;
        out.insert(p, e);
        proof {
            assert(orig.take(n + 1) =~= orig.take(n).push(e));
            vstd::seq_lib::to_multiset_build(orig.take(n), e);
            assert forall|i: int, j: int| 0 <= i < j < out@.len() implies !text_lt(
                out@[j].0@,
                out@[i].0@,
            ) by {
                if i < p && j > p {
                    assert(out@[i] == before[i]);
                    assert(out@[j] == before[j - 1]);
                } else if i == p && j > p {
                    assert(out@[j] == before[j - 1]);
                    assert(text_lt(e.0@, before[p as int].0@));
                    if text_lt(before[j - 1].0@, e.0@) {
                        lemma_text_lt_transitive(before[j - 1].0@, e.0@, before[p as int].0@);
                        if j - 1 == p {
                            lemma_text_lt_irreflexive(before[p as int].0@);
                        }
                    }
                } else if i < p && j == p {
                    assert(out@[i] == before[i]);
                } else if i > p {
                    assert(out@[i] == before[i - 1]);
                    assert(out@[j] == before[j - 1]);
                } else {
                    assert(out@[i] == before[i]);
                    assert(out@[j] == before[j]);
                }
            }
            n = n + 1;
        }
    }
    proof {
        assert(orig.take(n) =~= orig);
    }
    out
}

/// Adds `item` to a strictly sorted list, in its place, unless it is there.
pub fn insert_sorted(out: &mut Vec<String>, item: String)
    requires
        strictly_sorted(old(out)@),
    ensures
        strictly_sorted(final(out)@),
        forall|n: Seq<char>|
            #![trigger in_list(final(out)@, n)]
            in_list(final(out)@, n) <==> in_list(old(out)@, n) || item@ == n,
{
    let mut p: usize = 0;
    while p < out.len() && text_less(out[p].as_str(), item.as_str())
        invariant
            p <= out.len(),
            forall|q: int| 0 <= q < p ==> text_lt(out@[q]@, item@),
        decreases out.len() - p,
    {
        p = p + 1;
    }
    if p < out.len() && out[p] == item {
        assert(in_list(out@, item@));
        return;
    }
    let ghost before = out@;
    if p < out.len() {
        proof {
            lemma_text_lt_total(before[p as int]@, item@);
        }
    }
    out.insert(p, item);
    proof {
        assert forall|i: int, j: int| 0 <= i < j < out@.len() implies text_lt(out@[i]@, out@[j]@) by {
            if i < p && j == p {
            } else if i == p && j > p {
                assert(out@[j] == before[j - 1]);
                if j - 1 > p {
                    lemma_text_lt_transitive(item@, before[p as int]@, before[j - 1]@);
                }
            } else if i < p && j > p {
                assert(out@[i] == before[i]);
                assert(out@[j] == before[j - 1]);
            } else if i > p {
                assert(out@[i] == before[i - 1]);
                assert(out@[j] == before[j - 1]);
            } else {
                assert(out@[i] == before[i]);
                assert(out@[j] == before[j]);
            }
        }
        assert forall|n: Seq<char>| #![trigger in_list(out@, n)]
            in_list(out@, n) <==> in_list(before, n) || item@ == n by {
            if in_list(before, n) {
                let i = choose|i: int| 0 <= i < before.len() && before[i]@ == n;
                if i < p {
                    assert(out@[i] == before[i]);
                } else {
                    assert(out@[i + 1] == before[i]);
                }
            }
            if item@ == n {
                assert(out@[p as int] == item);
            }
            if in_list(out@, n) {
                let i = choose|i: int| 0 <= i < out@.len() && out@[i]@ == n;
                if i < p {
                    assert(out@[i] == before[i]);
                } else if i > p {
                    assert(out@[i] == before[i - 1]);
                }
            }
        }
    }
}

} // verus!
