use vstd::prelude::*;
use crate::json::{
    Json, field, get_field, in_list, list_contains, without_names, remove_names, set_field, field_replaced,
    replaced_value,
};
use crate::pattern::{
    Pattern, compile, to_pascal, regex_valid, regex_is_match, regex_replace, regex_split,
    regex_group, pascal_case,
};
use crate::swagger::{Operations, PathEntries};

verus! {

/// A fatal error in the edit rules.
#[derive(Debug, Clone, PartialEq)]
pub enum EditError {
    /// A rename rule whose pattern does not compile.
    InvalidPattern(String),
    /// A configuration rule whose value has the wrong shape.
    InvalidRule(String),
    /// An operation or a definition of the document lacks the shape that
    /// the rewrite reads.
    MalformedDocument,
}

/// Removes the paths named in `paths_to_remove`; absent names are ignored.
pub fn remove_paths(paths: &mut PathEntries, paths_to_remove: &Vec<String>)
    ensures
        final(paths)@ == without_names(old(paths)@, paths_to_remove@),
{
    remove_names(paths, paths_to_remove);
}

/// Every rule's pattern compiles.
pub open spec fn rules_valid(rules: Seq<(String, String)>) -> bool {
    forall|i: int| 0 <= i < rules.len() ==> regex_valid(rules[i].0@)
}

/// The new name of `key`: the last rule whose pattern matches the original
/// key rewrites it; without such a rule the key stays.
pub open spec fn renamed_key(rules: Seq<(String, String)>, key: Seq<char>) -> Seq<char>
    decreases rules.len(),
{
    if rules.len() == 0 {
        key
    } else if regex_is_match(rules.last().0@, key) {
        regex_replace(rules.last().0@, key, rules.last().1@)
    } else {
        renamed_key(rules.drop_last(), key)
    }
}

/// `after` is `before` with each key mapped by `f`, values and places kept.
pub open spec fn rekeyed<V>(
    before: Seq<(String, V)>,
    after: Seq<(String, V)>,
    f: spec_fn(Seq<char>) -> Seq<char>,
) -> bool {
    &&& after.len() == before.len()
    &&& forall|i: int| 0 <= i < before.len() ==> after[i].0@ == f(before[i].0@) && after[i].1 == before[i].1
}

fn compile_rules(rules: &Vec<(String, String)>) -> (r: Result<Vec<Pattern>, EditError>)
    ensures
        r matches Ok(ps) ==> rules_valid(rules@) && ps.len() == rules.len()
            && forall|j: int| 0 <= j < rules.len() ==> ps@[j]@ == rules@[j].0@,
        r matches Err(EditError::InvalidPattern(p)) ==> exists|j: int|
            0 <= j < rules.len() && rules@[j].0@ == p@ && !regex_valid(p@),
        r is Err ==> !rules_valid(rules@),
{
    let mut ps: Vec<Pattern> = Vec::new();
    let mut i: usize = 0;
    while i < rules.len()
        invariant
            i <= rules.len(),
            ps.len() == i,
            forall|j: int| 0 <= j < i ==> ps@[j]@ == rules@[j].0@ && regex_valid(rules@[j].0@),
        decreases rules.len() - i,
    {
        match compile(rules[i].0.as_str()) {
            Some(p) => ps.push(p),
            None => {
                return Err(EditError::InvalidPattern(rules[i].0.clone()));
            },
        }
        i = i + 1;
    }
    assert forall|j: int| 0 <= j < rules@.len() implies regex_valid(rules@[j].0@) by {
        assert(ps@[j]@ == rules@[j].0@);
    }
    Ok(ps)
}

fn new_key(ps: &Vec<Pattern>, rules: &Vec<(String, String)>, key: &String) -> (r: String)
    requires
        ps.len() == rules.len(),
        forall|j: int| 0 <= j < rules.len() ==> ps@[j]@ == rules@[j].0@,
    ensures
        r@ == renamed_key(rules@, key@),
{
    let mut j: usize = rules.len();
    assert(rules@.take(j as int) =~= rules@);
    while j > 0
        invariant
            j <= rules.len(),
            ps.len() == rules.len(),
            forall|t: int| 0 <= t < rules.len() ==> ps@[t]@ == rules@[t].0@,
            renamed_key(rules@, key@) == renamed_key(rules@.take(j as int), key@),
        decreases j,
    {
        proof {
            assert(rules@.take(j as int).drop_last() =~= rules@.take(j - 1));
            assert(rules@.take(j as int).last() == rules@[j - 1]);
        }
        if ps[j - 1].is_match(key.as_str()) {
            return ps[j - 1].replace(key.as_str(), rules[j - 1].1.as_str());
        }
        j = j - 1;
    }
    key.clone()
}

/// Renames the paths by the rules `(pattern, replacement)`. Every key is
/// matched against the rules as it was before this call, so renames never
/// chain; a renamed path keeps its place. An invalid pattern fails the
/// whole call before any change.
pub fn rename_paths(paths: &mut PathEntries, paths_to_rename: &Vec<(String, String)>) -> (r: Result<(), EditError>)
    ensures
        r is Ok <==> rules_valid(paths_to_rename@),
        r is Ok ==> rekeyed(old(paths)@, final(paths)@, |k: Seq<char>| renamed_key(paths_to_rename@, k)),
        r is Err ==> final(paths)@ == old(paths)@,
        r matches Err(EditError::InvalidPattern(p)) ==> exists|j: int|
            0 <= j < paths_to_rename.len() && paths_to_rename@[j].0@ == p@ && !regex_valid(p@),
{
    let ps = match compile_rules(paths_to_rename) {
        Ok(ps) => ps,
        Err(e) => {
            return Err(e);
        },
    };
    let ghost orig = paths@;
    let mut rest: PathEntries = Vec::new();
    std::mem::swap(paths, &mut rest);
    let ghost mut n: int = 0;
    while rest.len() > 0
        invariant
            0 <= n <= orig.len(),
            rest@ == orig.skip(n),
            ps.len() == paths_to_rename.len(),
            forall|t: int| 0 <= t < paths_to_rename.len() ==> ps@[t]@ == paths_to_rename@[t].0@,
            rekeyed(orig.take(n), paths@, |k: Seq<char>| renamed_key(paths_to_rename@, k)),
        decreases rest.len(),
    {
        let (key, ops) = rest.remove(0);
        proof {
            assert(orig[n] == (key, ops));
        }
        let k = new_key(&ps, paths_to_rename, &key);
        paths.push((k, ops));
        proof {
            n = n + 1;
        }
    }
    proof {
        assert(orig.take(n) =~= orig);
    }
    Ok(())
}

/// The pattern of a query-parameter placeholder such as `{?filter,sort}`.
pub open spec fn query_pattern() -> Seq<char> {
    "\\{\\?.*\\}"@
}

/// `key` without its query-parameter placeholder.
pub open spec fn query_stripped(key: Seq<char>) -> Seq<char> {
    if regex_is_match(query_pattern(), key) {
        regex_replace(query_pattern(), key, ""@)
    } else {
        key
    }
}

/// Removes the query-parameter placeholder from every path key.
pub fn remove_query_params(paths: &mut PathEntries)
    ensures
        regex_valid(query_pattern()) ==> rekeyed(old(paths)@, final(paths)@, |k: Seq<char>| query_stripped(k)),
        !regex_valid(query_pattern()) ==> final(paths)@ == old(paths)@,
{
    let re = match compile("\\{\\?.*\\}") {
        Some(re) => re,
        None => {
            return;
        },
    };
    let ghost orig = paths@;
    let mut rest: PathEntries = Vec::new();
    std::mem::swap(paths, &mut rest);
    let ghost mut n: int = 0;
    while rest.len() > 0
        invariant
            0 <= n <= orig.len(),
            rest@ == orig.skip(n),
            re@ == query_pattern(),
            rekeyed(orig.take(n), paths@, |k: Seq<char>| query_stripped(k)),
        decreases rest.len(),
    {
        let (key, ops) = rest.remove(0);
        proof {
            assert(orig[n] == (key, ops));
        }
        if re.is_match(key.as_str()) {
            let k = re.replace(key.as_str(), "");
            paths.push((k, ops));
        } else {
            paths.push((key, ops));
        }
        proof {
            n = n + 1;
        }
    }
    proof {
        assert(orig.take(n) =~= orig);
    }
}

/// Whether operation ids keep or drop the first literal segment of the
/// path (the collection name: `/users/{id}` gives `Id` or `UsersId`).
#[derive(Clone, Copy, Debug, PartialEq, Eq, Structural)]
pub enum SegmentPolicy {
    KeepCollection,
    DropCollection,
}

/// The prefix that a verb gives an operation id.
pub open spec fn verb_prefix(verb: Seq<char>) -> Seq<char> {
    if verb == "get"@ {
        "get"@
    } else if verb == "post"@ {
        "create"@
    } else if verb == "put"@ {
        "update"@
    } else if verb == "delete"@ {
        "delete"@
    } else {
        Seq::empty()
    }
}

/// Separators of path segments: runs of `/` and spaces.
pub open spec fn split_pattern() -> Seq<char> {
    "[/ ]+"@
}

/// A path parameter `{name}`, capturing the name.
pub open spec fn param_pattern() -> Seq<char> {
    "\\{(\\w+)}"@
}

/// Both patterns of operation ids compile.
pub open spec fn patterns_valid() -> bool {
    regex_valid(split_pattern()) && regex_valid(param_pattern())
}

/// A segment as it enters an operation id: a parameter gives its name.
pub open spec fn segment_word(seg: Seq<char>) -> Seq<char> {
    match regex_group(param_pattern(), seg) {
        Some(w) => w,
        None => seg,
    }
}

/// The words of an operation id: the segments after the leading one, and
/// after the collection segment too under `DropCollection`.
pub open spec fn id_words(url: Seq<char>, policy: SegmentPolicy) -> Seq<Seq<char>> {
    let pieces = regex_split(split_pattern(), url);
    let segs = if pieces.len() > 0 { pieces.drop_first() } else { pieces };
    let words = segs.map_values(|s: Seq<char>| segment_word(s));
    if policy == SegmentPolicy::DropCollection && words.len() > 0 {
        words.drop_first()
    } else {
        words
    }
}

/// The words in Pascal case, joined without separator.
pub open spec fn pascal_joined(words: Seq<Seq<char>>) -> Seq<char>
    decreases words.len(),
{
    if words.len() == 0 {
        Seq::empty()
    } else {
        pascal_joined(words.drop_last()) + pascal_case(words.last())
    }
}

/// The operation id of a verb on a path template.
pub open spec fn operation_id(verb: Seq<char>, url: Seq<char>, policy: SegmentPolicy) -> Seq<char> {
    verb_prefix(verb) + pascal_joined(id_words(url, policy))
}

/// The prefix that `verb` gives an operation id.
pub fn operation_prefix(verb: &str) -> (r: String)
    ensures
        r@ == verb_prefix(verb@),
{
    let v = verb.to_owned();
    if v == "get".to_owned() {
        "get".to_owned()
    } else if v == "post".to_owned() {
        "create".to_owned()
    } else if v == "put".to_owned() {
        "update".to_owned()
    } else if v == "delete".to_owned() {
        "delete".to_owned()
    } else {
        String::new()
    }
}

fn id_patterns() -> (r: Option<(Pattern, Pattern)>)
    ensures
        r is Some <==> patterns_valid(),
        r matches Some(ps) ==> ps.0@ == split_pattern() && ps.1@ == param_pattern(),
{
    let split = match compile("[/ ]+") {
        Some(p) => p,
        None => {
            return None;
        },
    };
    match compile("\\{(\\w+)}") {
        Some(param) => Some((split, param)),
        None => None,
    }
}

fn operation_id_with(split: &Pattern, param: &Pattern, verb: &str, url: &str, policy: SegmentPolicy) -> (r: String)
    requires
        split@ == split_pattern(),
        param@ == param_pattern(),
    ensures
        r@ == operation_id(verb@, url@, policy),
{
    let pieces = split.split(url);
    let ghost pv = pieces@.map_values(|s: String| s@);
    let mut words: Vec<String> = Vec::new();
    let mut i: usize = 1;
    while i < pieces.len()
        invariant
            1 <= i,
            pieces.len() == 0 || i <= pieces.len(),
            pieces.len() == 0 ==> i == 1,
            words.len() == i - 1,
            param@ == param_pattern(),
            forall|t: int| 0 <= t < i - 1 ==> words@[t]@ == segment_word(pieces@[t + 1]@),
        decreases pieces.len() - i,
    {
        match param.first_group(pieces[i].as_str()) {
            Some(w) => words.push(w),
            None => words.push(pieces[i].clone()),
        }
        i = i + 1;
    }
    let ghost ws = id_words(url@, policy);
    let start: usize = if policy == SegmentPolicy::DropCollection && words.len() > 0 { 1 } else { 0 };
    proof {
        assert(pv == regex_split(split_pattern(), url@));
        assert(pieces.len() == 0 ==> words.len() == 0);
        assert(ws.len() == words.len() - start);
        assert forall|t: int| 0 <= t < ws.len() implies ws[t] == words@[t + start]@ by {
            assert(pv[t + start + 1] == pieces@[t + start + 1]@);
        }
    }
    let mut out = operation_prefix(verb);
    let mut j: usize = start;
    proof {
        assert(ws.take(0) =~= Seq::<Seq<char>>::empty());
    }
    while j < words.len()
        invariant
            start <= j <= words.len(),
            ws.len() == words.len() - start,
            forall|t: int| 0 <= t < ws.len() ==> ws[t] == words@[t + start]@,
            out@ == verb_prefix(verb@) + pascal_joined(ws.take(j - start)),
        decreases words.len() - j,
    {
        let p = to_pascal(words[j].as_str());
        proof {
            assert(ws.take(j + 1 - start).drop_last() =~= ws.take(j - start));
            assert(ws.take(j + 1 - start).last() == words@[j as int]@);
        }
        out.append(p.as_str());
        proof {
            assert(out@ =~= verb_prefix(verb@) + pascal_joined(ws.take(j + 1 - start)));
        }
        j = j + 1;
    }
    proof {
        assert(ws.take(j - start) =~= ws);
    }
    out
}

/// The operation id of `verb` on the path template `url`: the verb's prefix,
/// then each remaining segment in Pascal case. `None` only when the
/// built-in patterns do not compile.
pub fn generate_operation_id(verb: &str, url: &str, policy: SegmentPolicy) -> (r: Option<String>)
    ensures
        r is Some <==> patterns_valid(),
        r matches Some(id) ==> id@ == operation_id(verb@, url@, policy),
{
    match id_patterns() {
        Some((split, param)) => Some(operation_id_with(&split, &param, verb, url, policy)),
        None => None,
    }
}

/// `after` is the operation `before` with its `operationId` set to `id`;
/// an operation that is not an object stays as it is.
pub open spec fn id_written(before: Json, after: Json, id: Seq<char>) -> bool {
    match before {
        Json::Object(f) => {
            &&& after is Object
            &&& field_replaced(f@, "operationId"@, after->Object_0@)
            &&& replaced_value(f@, "operationId"@, after->Object_0@) is Str
            &&& replaced_value(f@, "operationId"@, after->Object_0@)->Str_0@ == id
        },
        _ => after == before,
    }
}

/// Each operation of `before`, the operations of the path `url`, has its id
/// written in `after`.
pub open spec fn ops_written(
    before: Seq<(String, Json)>,
    after: Seq<(String, Json)>,
    url: Seq<char>,
    policy: SegmentPolicy,
) -> bool {
    &&& after.len() == before.len()
    &&& forall|j: int|
        0 <= j < before.len() ==> after[j].0 == before[j].0 && id_written(
            before[j].1,
            after[j].1,
            operation_id(before[j].0@, url, policy),
        )
}

/// Every operation of the path table has its id written.
pub open spec fn ids_written(
    before: Seq<(String, Operations)>,
    after: Seq<(String, Operations)>,
    policy: SegmentPolicy,
) -> bool {
    &&& after.len() == before.len()
    &&& forall|i: int|
        0 <= i < before.len() ==> after[i].0 == before[i].0 && ops_written(
            before[i].1@,
            after[i].1@,
            before[i].0@,
            policy,
        )
}

fn write_ids(
    split: &Pattern,
    param: &Pattern,
    ops: Operations,
    url: &String,
    policy: SegmentPolicy,
) -> (r: Operations)
    requires
        split@ == split_pattern(),
        param@ == param_pattern(),
    ensures
        ops_written(ops@, r@, url@, policy),
{
    let ghost orig = ops@;
    let mut rest = ops;
    let mut out: Operations = Vec::new();
    let ghost mut n: int = 0;
    while rest.len() > 0
        invariant
            0 <= n <= orig.len(),
            rest@ == orig.skip(n),
            split@ == split_pattern(),
            param@ == param_pattern(),
            ops_written(orig.take(n), out@, url@, policy),
        decreases rest.len(),
    {
        let (verb, op) = rest.remove(0);
        proof {
            assert(orig[n] == (verb, op));
        }
        let id = operation_id_with(split, param, verb.as_str(), url.as_str(), policy);
        let written = match op {
            Json::Object(mut f) => {
                set_field(&mut f, "operationId", Json::Str(id));
                Json::Object(f)
            },
            other => other,
        };
        out.push((verb, written));
        proof {
            n = n + 1;
        }
    }
    proof {
        assert(orig.take(n) =~= orig);
    }
    out
}

/// Sets the `operationId` of every operation from its verb and path.
pub fn change_operation_id(paths: &mut PathEntries, policy: SegmentPolicy)
    ensures
        patterns_valid() ==> ids_written(old(paths)@, final(paths)@, policy),
        !patterns_valid() ==> final(paths)@ == old(paths)@,
{
    let (split, param) = match id_patterns() {
        Some(ps) => ps,
        None => {
            return;
        },
    };
    let ghost orig = paths@;
    let mut rest: PathEntries = Vec::new();
    std::mem::swap(paths, &mut rest);
    let ghost mut n: int = 0;
    while rest.len() > 0
        invariant
            0 <= n <= orig.len(),
            rest@ == orig.skip(n),
            split@ == split_pattern(),
            param@ == param_pattern(),
            ids_written(orig.take(n), paths@, policy),
        decreases rest.len(),
    {
        let (url, ops) = rest.remove(0);
        proof {
            assert(orig[n] == (url, ops));
        }
        let written = write_ids(&split, &param, ops, &url, policy);
        paths.push((url, written));
        proof {
            n = n + 1;
        }
    }
    proof {
        assert(orig.take(n) =~= orig);
    }
}

/// The operation lists `name` among its `tags`.
pub open spec fn op_has_tag(op: Json, name: Seq<char>) -> bool {
    match op {
        Json::Object(f) => match field(f@, "tags"@) {
            Some(Json::Array(a)) => exists|k: int|
                0 <= k < a.len() && a[k] is Str && a[k]->Str_0@ == name,
            _ => false,
        },
        _ => false,
    }
}

/// Some operation of one of the listed paths uses the tag `name`.
pub open spec fn tag_used(paths: Seq<(String, Operations)>, name: Seq<char>) -> bool {
    exists|i: int, j: int|
        0 <= i < paths.len() && 0 <= j < paths[i].1.len() && op_has_tag(#[trigger] paths[i].1[j].1, name)
}

/// No text occurs twice.
pub open spec fn distinct_texts(s: Seq<String>) -> bool {
    forall|i: int, j: int| 0 <= i < j < s.len() ==> s[i]@ != s[j]@
}

/// Adds `item` unless it is there already.
pub fn insert_unique(vec: &mut Vec<String>, item: String)
    ensures
        in_list(old(vec)@, item@) ==> final(vec)@ == old(vec)@,
        !in_list(old(vec)@, item@) ==> final(vec)@ == old(vec)@.push(item),
        distinct_texts(old(vec)@) ==> distinct_texts(final(vec)@),
{
    if !list_contains(vec, &item) {
        let ghost before = vec@;
        vec.push(item);
        proof {
            if distinct_texts(before) {
                assert forall|i: int, j: int| 0 <= i < j < vec@.len() implies vec@[i]@ != vec@[j]@ by {
                    assert(vec@[i] == before[i]);
                    if j == before.len() {
                        assert(vec@[j] == item);
                        if before[i]@ == item@ {
                            assert(in_list(before, item@));
                        }
                    } else {
                        assert(vec@[j] == before[j]);
                    }
                }
            }
        }
    }
}

proof fn lemma_in_list_push(keys: Seq<String>, item: String, name: Seq<char>)
    ensures
        in_list(keys.push(item), name) <==> in_list(keys, name) || item@ == name,
{
    if in_list(keys, name) {
        let i = choose|i: int| 0 <= i < keys.len() && keys[i]@ == name;
        assert(keys.push(item)[i] == keys[i]);
    }
    if item@ == name {
        assert(keys.push(item)[keys.len() as int] == item);
    }
    if in_list(keys.push(item), name) {
        let i = choose|i: int| 0 <= i < keys.len() + 1 && keys.push(item)[i]@ == name;
        if i < keys.len() {
            assert(keys.push(item)[i] == keys[i]);
        }
    }
}

fn add_op_tags(out: &mut Vec<String>, op: &Json)
    requires
        distinct_texts(old(out)@),
    ensures
        distinct_texts(final(out)@),
        forall|name: Seq<char>|
            #![trigger in_list(final(out)@, name)]
            in_list(final(out)@, name) <==> in_list(old(out)@, name) || op_has_tag(*op, name),
{
    if let Json::Object(f) = op {
        if let Some(Json::Array(a)) = get_field(f, "tags") {
            let mut k: usize = 0;
            while k < a.len()
                invariant
                    k <= a.len(),
                    distinct_texts(out@),
                    field(f@, "tags"@) == Some(Json::Array(*a)),
                    forall|name: Seq<char>|
                        #![trigger in_list(out@, name)]
                        in_list(out@, name) <==> in_list(old(out)@, name) || exists|t: int|
                            0 <= t < k && a[t] is Str && a[t]->Str_0@ == name,
                decreases a.len() - k,
            {
                if let Json::Str(s) = &a[k] {
                    let ghost prev = out@;
                    insert_unique(out, s.clone());
                    proof {
                        assert forall|name: Seq<char>| #![trigger in_list(out@, name)]
                            in_list(out@, name) <==> in_list(prev, name) || s@ == name by {
                            lemma_in_list_push(prev, *s, name);
                        }
                    }
                }
                proof {
                    assert forall|name: Seq<char>| #![trigger in_list(out@, name)]
                        in_list(out@, name) <==> in_list(old(out)@, name) || exists|t: int|
                            0 <= t < k + 1 && a[t] is Str && a[t]->Str_0@ == name by {
                        if a[k as int] is Str && a[k as int]->Str_0@ == name {
                            assert(0 <= k < k + 1);
                        }
                    }
                }
                k = k + 1;
            }
        }
    }
}

/// The tag names that the operations of `paths` use, each once.
pub fn collect_tags(paths: &PathEntries) -> (r: Vec<String>)
    ensures
        distinct_texts(r@),
        forall|name: Seq<char>|
            #![trigger in_list(r@, name)]
            in_list(r@, name) <==> tag_used(paths@, name),
{
    let mut out: Vec<String> = Vec::new();
    let mut i: usize = 0;
    while i < paths.len()
        invariant
            i <= paths.len(),
            distinct_texts(out@),
            forall|name: Seq<char>|
                #![trigger in_list(out@, name)]
                in_list(out@, name) <==> tag_used(paths@.take(i as int), name),
        decreases paths.len() - i,
    {
        let ops = &paths[i].1;
        let mut j: usize = 0;
        while j < ops.len()
            invariant
                i < paths.len(),
                *ops == paths@[i as int].1,
                j <= ops.len(),
                distinct_texts(out@),
                forall|name: Seq<char>|
                    #![trigger in_list(out@, name)]
                    in_list(out@, name) <==> tag_used(paths@.take(i as int), name) || exists|t: int|
                        0 <= t < j && op_has_tag(#[trigger] ops@[t].1, name),
            decreases ops.len() - j,
        {
            add_op_tags(&mut out, &ops[j].1);
            proof {
                assert forall|name: Seq<char>| #![trigger in_list(out@, name)]
                    in_list(out@, name) <==> tag_used(paths@.take(i as int), name) || exists|t: int|
                        0 <= t < j + 1 && op_has_tag(#[trigger] ops@[t].1, name) by {
                    if op_has_tag(ops@[j as int].1, name) {
                        assert(0 <= j < j + 1);
                    }
                }
            }
            j = j + 1;
        }
        proof {
            let ps = paths@.take(i + 1);
            assert forall|name: Seq<char>| #![trigger in_list(out@, name)]
                in_list(out@, name) <==> tag_used(ps, name) by {
                if tag_used(ps, name) {
                    let (a, b) = choose|a: int, b: int|
                        0 <= a < ps.len() && 0 <= b < ps[a].1.len() && op_has_tag(#[trigger] ps[a].1[b].1, name);
                    if a < i {
                        assert(paths@.take(i as int)[a] == ps[a]);
                        assert(tag_used(paths@.take(i as int), name));
                    } else {
                        assert(op_has_tag(ops@[b].1, name));
                    }
                }
                if tag_used(paths@.take(i as int), name) {
                    let (a, b) = choose|a: int, b: int|
                        0 <= a < i && 0 <= b < paths@.take(i as int)[a].1.len() && op_has_tag(
                            #[trigger] paths@.take(i as int)[a].1[b].1,
                            name,
                        );
                    assert(ps[a] == paths@.take(i as int)[a]);
                    assert(op_has_tag(ps[a].1[b].1, name));
                }
                if exists|t: int| 0 <= t < ops.len() && op_has_tag(#[trigger] ops@[t].1, name) {
                    let t = choose|t: int| 0 <= t < ops.len() && op_has_tag(#[trigger] ops@[t].1, name);
                    assert(ps[i as int].1[t] == ops@[t]);
                    assert(op_has_tag(ps[i as int].1[t].1, name));
                }
            }
        }
        i = i + 1;
    }
    proof {
        assert(paths@.take(i as int) =~= paths@);
    }
    out
}

} // verus!
