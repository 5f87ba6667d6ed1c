use vstd::prelude::*;
use crate::json::{in_list, list_contains};
use crate::order::{sort_by_name, text_lt};
use crate::paths::{collect_tags, tag_used};
use crate::swagger::{PathEntries, Tag};

verus! {

broadcast use vstd::seq_lib::to_multiset_contains, vstd::seq_lib::to_multiset_len;

/// The tags of `tags` that some operation of `paths` uses, in order.
pub open spec fn used_tags(paths: Seq<(String, crate::swagger::Operations)>, tags: Seq<Tag>) -> Seq<Tag> {
    tags.filter(|t: Tag| tag_kept(paths, t))
}

/// Some operation of `paths` uses the tag.
pub open spec fn tag_kept(paths: Seq<(String, crate::swagger::Operations)>, t: Tag) -> bool {
    tag_used(paths, t.name@)
}

/// The tags of the catalogue that some operation of `paths` uses, sorted by
/// name.
pub fn filter_tags(tags: Vec<Tag>, paths: &PathEntries) -> (r: Vec<Tag>)
    ensures
        forall|t: Tag| r@.contains(t) <==> tags@.contains(t) && tag_kept(paths@, t),
        r@.len() == used_tags(paths@, tags@).len(),
        forall|i: int, j: int| 0 <= i < j < r@.len() ==> !text_lt(r@[j].name@, r@[i].name@),
{
    let used = collect_tags(paths);
    let ghost orig = tags@;
    let mut rest = tags;
    let mut pairs: Vec<(String, Tag)> = Vec::new();
    let ghost mut n: int = 0;
    while rest.len() > 0
        invariant
            0 <= n <= orig.len(),
            rest@ == orig.skip(n),
            forall|m: Seq<char>| #![trigger in_list(used@, m)] in_list(used@, m) <==> tag_used(paths@, m),
            pairs@.len() == used_tags(paths@, orig.take(n)).len(),
            forall|i: int| 0 <= i < pairs@.len() ==> pairs@[i].0 == pairs@[i].1.name,
            forall|t: Tag|
                #![trigger orig.take(n).contains(t)]
                #![trigger tag_kept(paths@, t)]
                (exists|i: int| 0 <= i < pairs@.len() && pairs@[i].1 == t) <==> orig.take(n).contains(t)
                    && tag_kept(paths@, t),
        decreases rest.len(),
    {
        let e = rest.remove(0);
        let ghost prev = pairs@;
        proof {
            assert(orig.take(n + 1).drop_last() =~= orig.take(n));
            assert(orig.take(n + 1).last() == e);
            assert(orig.take(n + 1) =~= orig.take(n).push(e));
            reveal(Seq::filter);
        }
        if list_contains(&used, &e.name) {
            let name = e.name.clone();
            pairs.push((name, e));
        }
        proof {
            let s0 = orig.take(n);
            let s1 = orig.take(n + 1);
            assert forall|t: Tag|
                (exists|i: int| 0 <= i < pairs@.len() && pairs@[i].1 == t) <==> s1.contains(t)
                    && tag_kept(paths@, t) by {
                if s1.contains(t) && tag_kept(paths@, t) {
                    let w = choose|w: int| 0 <= w < s1.len() && s1[w] == t;
                    if w < n {
                        assert(s0[w] == t);
                        assert(s0.contains(t));
                        let i = choose|i: int| 0 <= i < prev.len() && prev[i].1 == t;
                        assert(pairs@[i] == prev[i]);
                    } else {
                        assert(pairs@[pairs@.len() - 1].1 == t);
                    }
                }
                if exists|i: int| 0 <= i < pairs@.len() && pairs@[i].1 == t {
                    let i = choose|i: int| 0 <= i < pairs@.len() && pairs@[i].1 == t;
                    if i < prev.len() {
                        assert(pairs@[i] == prev[i]);
                        assert(s0.contains(t));
                        let w = choose|w: int| 0 <= w < s0.len() && s0[w] == t;
                        assert(s1[w] == t);
                    } else {
                        assert(s1[n] == t);
                    }
                }
            }
            n = n + 1;
        }
    }
    proof {
        assert(orig.take(n) =~= orig);
    }
    let sorted = sort_by_name(pairs);
    proof {
        assert forall|i: int| 0 <= i < sorted@.len() implies sorted@[i].0 == sorted@[i].1.name by {
            assert(sorted@.contains(sorted@[i]));
            assert(sorted@.to_multiset().count(sorted@[i]) > 0);
            assert(pairs@.contains(sorted@[i]));
        }
    }
    let mut out: Vec<Tag> = Vec::new();
    let mut rest = sorted;
    let ghost srt = rest@;
    let ghost mut m: int = 0;
    while rest.len() > 0
        invariant
            0 <= m <= srt.len(),
            rest@ == srt.skip(m),
            out@.len() == m,
            forall|i: int| 0 <= i < m ==> out@[i] == srt[i].1,
        decreases rest.len(),
    {
        let (_, t) = rest.remove(0);
        proof {
            assert(srt[m].1 == t);
        }
        out.push(t);
        proof {
            m = m + 1;
        }
    }
    proof {
        assert(srt.to_multiset().len() == pairs@.to_multiset().len());
        assert forall|t: Tag| out@.contains(t) <==> orig.contains(t) && tag_kept(paths@, t) by {
            if out@.contains(t) {
                let i = choose|i: int| 0 <= i < out@.len() && out@[i] == t;
                assert(srt.contains(srt[i]));
                assert(srt.to_multiset().count(srt[i]) > 0);
                assert(pairs@.contains(srt[i]));
                let j = choose|j: int| 0 <= j < pairs@.len() && pairs@[j] == srt[i];
                assert(pairs@[j].1 == t);
                assert(exists|j: int| 0 <= j < pairs@.len() && pairs@[j].1 == t);
                assert(orig.take(n).contains(t));
            }
            if orig.contains(t) && tag_kept(paths@, t) {
                assert(orig.take(n).contains(t));
                let j = choose|j: int| 0 <= j < pairs@.len() && pairs@[j].1 == t;
                assert(pairs@.contains(pairs@[j]));
                assert(pairs@.to_multiset().count(pairs@[j]) > 0);
                assert(srt.contains(pairs@[j]));
                let i = choose|i: int| 0 <= i < srt.len() && srt[i] == pairs@[j];
                assert(out@[i] == t);
            }
        }
    }
    out
}

} // verus!
