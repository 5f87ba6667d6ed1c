use swagger_edit::config::{SchemaDefinitions, SchemaPaths};
use swagger_edit::definitions::{apply_definition_edits, synthesize_required, update_required};
use swagger_edit::json::{get_field, Json};
use swagger_edit::merge_map::merge;
use swagger_edit::order::{sort_by_name, text_less};
use swagger_edit::paths::{
    change_operation_id, collect_tags, generate_operation_id, operation_prefix,
    remove_paths, remove_query_params, rename_paths, EditError, SegmentPolicy,
};
use swagger_edit::pipeline::process_swagger;
use swagger_edit::reach::{find_original_ref, remove_unused_definitions};
use swagger_edit::swagger::{DefinitionEntries, Info, Operations, PathEntries, Swagger, Tag};
use swagger_edit::tags::filter_tags;
use swagger_edit::yaml::{definition_edits_of, path_edits_of};

fn s(x: &str) -> String {
    x.to_string()
}

fn text(x: &str) -> Json {
    Json::Str(s(x))
}

fn num(x: &str) -> Json {
    Json::Number(s(x))
}

fn obj(fields: Vec<(&str, Json)>) -> Json {
    Json::Object(fields.into_iter().map(|(k, v)| (s(k), v)).collect())
}

fn fields(v: Json) -> Vec<(String, Json)> {
    match v {
        Json::Object(f) => f,
        _ => panic!("not an object"),
    }
}

fn names<V>(t: &[(String, V)]) -> Vec<String> {
    t.iter().map(|e| e.0.clone()).collect()
}

fn op(tags: Vec<&str>, response_ref: Option<&str>) -> Json {
    let responses = match response_ref {
        Some(r) => obj(vec![("200", obj(vec![("schema", obj(vec![("originalRef", text(r))]))]))]),
        None => obj(vec![]),
    };
    obj(vec![
        ("tags", Json::Array(tags.into_iter().map(text).collect())),
        ("parameters", Json::Array(vec![])),
        ("responses", responses),
    ])
}

fn ref_prop(target: &str) -> Json {
    obj(vec![("originalRef", text(target))])
}

#[test]
fn merge_removal_marker_drops_listed_fields() {
    let mut target = fields(obj(vec![("o", obj(vec![("a", num("1")), ("b", num("2"))]))]));
    let patch = fields(obj(vec![(
        "o",
        obj(vec![("__remove", Json::Array(vec![text("a")]))]),
    )]));
    merge(&mut target, patch);
    assert_eq!(target, fields(obj(vec![("o", obj(vec![("b", num("2"))]))])));
}

#[test]
fn merge_removal_marker_then_overwrites() {
    let mut target = fields(obj(vec![
        ("o", obj(vec![("a", num("1")), ("b", num("2"))])),
        ("c", num("3")),
    ]));
    let patch = fields(obj(vec![(
        "o",
        obj(vec![("a", num("1")), ("__remove", Json::Array(vec![text("a")]))]),
    )]));
    merge(&mut target, patch);
    let o = get_field(&target, "o").unwrap();
    assert_eq!(o, &obj(vec![("b", num("2")), ("a", num("1"))]));
    match o {
        Json::Object(f) => assert!(get_field(f, "__remove").is_none()),
        _ => panic!("not an object"),
    }
    assert_eq!(get_field(&target, "c"), Some(&num("3")));
}

#[test]
fn merge_array_appends() {
    let mut target = fields(obj(vec![("items", Json::Array(vec![num("1"), num("2")]))]));
    let patch = fields(obj(vec![("items", Json::Array(vec![num("3")]))]));
    merge(&mut target, patch);
    assert_eq!(
        target,
        fields(obj(vec![("items", Json::Array(vec![num("1"), num("2"), num("3")]))]))
    );
}

#[test]
fn merge_inserts_missing_and_replaces_scalars() {
    let mut target = fields(obj(vec![("type", text("object")), ("n", num("1"))]));
    let patch = fields(obj(vec![("n", text("x")), ("title", text("T"))]));
    merge(&mut target, patch);
    assert_eq!(
        target,
        fields(obj(vec![("type", text("object")), ("n", text("x")), ("title", text("T"))]))
    );
}

#[test]
fn merge_type_mismatch_replaces() {
    let mut target = fields(obj(vec![("items", Json::Array(vec![num("1")]))]));
    let patch = fields(obj(vec![("items", obj(vec![("a", num("1"))]))]));
    merge(&mut target, patch);
    assert_eq!(target, fields(obj(vec![("items", obj(vec![("a", num("1"))]))])));
}

#[test]
fn rename_rules_apply_to_original_keys() {
    let mut paths: PathEntries = vec![(s("a"), vec![])];
    let rules = vec![(s("a"), s("b")), (s("b"), s("c"))];
    assert_eq!(rename_paths(&mut paths, &rules), Ok(()));
    assert_eq!(names(&paths), vec![s("b")]);
}

#[test]
fn rename_expands_groups_and_keeps_place() {
    let mut paths: PathEntries = vec![(s("/api/users"), vec![]), (s("/other"), vec![])];
    let rules = vec![(s("^/api/(.*)$"), s("/v2/$1"))];
    assert_eq!(rename_paths(&mut paths, &rules), Ok(()));
    assert_eq!(names(&paths), vec![s("/v2/users"), s("/other")]);
}

#[test]
fn rename_invalid_pattern_fails_without_change() {
    let mut paths: PathEntries = vec![(s("/a"), vec![])];
    let rules = vec![(s("/a"), s("/b")), (s("("), s("x"))];
    assert_eq!(
        rename_paths(&mut paths, &rules),
        Err(EditError::InvalidPattern(s("(")))
    );
    assert_eq!(names(&paths), vec![s("/a")]);
}

#[test]
fn remove_paths_ignores_absent_keys() {
    let mut paths: PathEntries = vec![(s("/a"), vec![]), (s("/b"), vec![]), (s("/c"), vec![])];
    remove_paths(&mut paths, &vec![s("/b"), s("/zzz")]);
    assert_eq!(names(&paths), vec![s("/a"), s("/c")]);
}

#[test]
fn query_template_is_stripped() {
    let mut paths: PathEntries = vec![(s("/items{?filter,sort}"), vec![]), (s("/plain"), vec![])];
    remove_query_params(&mut paths);
    assert_eq!(names(&paths), vec![s("/items"), s("/plain")]);
}

#[test]
fn operation_id_is_repeatable() {
    let first = generate_operation_id("get", "/users/{id}", SegmentPolicy::DropCollection);
    let second = generate_operation_id("get", "/users/{id}", SegmentPolicy::DropCollection);
    assert_eq!(first, Some(s("getId")));
    assert_eq!(first, second);
}

#[test]
fn operation_id_policy_keeps_collection() {
    assert_eq!(
        generate_operation_id("get", "/users/{id}", SegmentPolicy::KeepCollection),
        Some(s("getUsersId"))
    );
    assert_eq!(
        generate_operation_id("post", "/user-accounts/{account_id}/roles", SegmentPolicy::KeepCollection),
        Some(s("createUserAccountsAccountIdRoles"))
    );
    assert_eq!(
        generate_operation_id("patch", "/users", SegmentPolicy::DropCollection),
        Some(s(""))
    );
}

#[test]
fn operation_prefixes() {
    assert_eq!(operation_prefix("get"), "get");
    assert_eq!(operation_prefix("post"), "create");
    assert_eq!(operation_prefix("put"), "update");
    assert_eq!(operation_prefix("delete"), "delete");
    assert_eq!(operation_prefix("options"), "");
}

#[test]
fn operation_ids_are_written() {
    let mut paths: PathEntries = vec![(
        s("/users/{id}"),
        vec![(s("get"), op(vec![], None)), (s("delete"), obj(vec![("operationId", text("old"))]))],
    )];
    change_operation_id(&mut paths, SegmentPolicy::DropCollection);
    let ops = &paths[0].1;
    match &ops[0].1 {
        Json::Object(f) => assert_eq!(get_field(f, "operationId"), Some(&text("getId"))),
        _ => panic!("not an object"),
    }
    assert_eq!(ops[1].1, obj(vec![("operationId", text("deleteId"))]));
}

#[test]
fn required_synthesis_is_idempotent() {
    let mut def = fields(obj(vec![
        ("type", text("object")),
        ("properties", obj(vec![("id", obj(vec![])), ("name", obj(vec![]))])),
    ]));
    let expected = Json::Array(vec![text("id"), text("name")]);
    synthesize_required(&mut def);
    assert_eq!(get_field(&def, "required"), Some(&expected));
    synthesize_required(&mut def);
    assert_eq!(get_field(&def, "required"), Some(&expected));
}

#[test]
fn required_wildcard_is_replaced() {
    let mut def = fields(obj(vec![
        ("required", Json::Array(vec![text("*")])),
        ("properties", obj(vec![("a", obj(vec![])), ("b", obj(vec![]))])),
    ]));
    synthesize_required(&mut def);
    assert_eq!(
        get_field(&def, "required"),
        Some(&Json::Array(vec![text("a"), text("b")]))
    );
}

#[test]
fn required_kept_or_skipped() {
    let make = || {
        fields(obj(vec![
            ("required", Json::Array(vec![text("a")])),
            ("properties", obj(vec![("a", obj(vec![])), ("b", obj(vec![]))])),
        ]))
    };
    let mut declared = make();
    synthesize_required(&mut declared);
    assert_eq!(declared, make());
    let mut bare = fields(obj(vec![("type", text("string"))]));
    synthesize_required(&mut bare);
    assert_eq!(bare, fields(obj(vec![("type", text("string"))])));
}

#[test]
fn update_required_sorts_fields() {
    let mut defs: DefinitionEntries = vec![(
        s("D"),
        fields(obj(vec![("type", text("object")), ("properties", obj(vec![("x", obj(vec![]))]))])),
    )];
    update_required(&mut defs);
    assert_eq!(names(&defs[0].1), vec![s("properties"), s("required"), s("type")]);
}

#[test]
fn pruning_removes_every_unreachable_layer() {
    let paths: PathEntries = vec![(s("/a"), vec![(s("get"), op(vec![], Some("Live")))])];
    let mut defs: DefinitionEntries = vec![
        (s("Live"), fields(obj(vec![("type", text("object"))]))),
        (s("A"), fields(obj(vec![("properties", obj(vec![("b", ref_prop("B"))]))]))),
        (s("B"), fields(obj(vec![("properties", obj(vec![("c", ref_prop("C"))]))]))),
        (
            s("C"),
            fields(obj(vec![(
                "properties",
                obj(vec![("d", obj(vec![("type", text("array")), ("items", ref_prop("D"))]))]),
            )])),
        ),
        (s("D"), fields(obj(vec![("type", text("object"))]))),
    ];
    remove_unused_definitions(&paths, &mut defs);
    assert_eq!(names(&defs), vec![s("Live")]);
}

#[test]
fn pruning_keeps_transitive_references() {
    let paths: PathEntries = vec![(s("/a"), vec![(s("get"), op(vec![], Some("A")))])];
    let mut defs: DefinitionEntries = vec![
        (s("A"), fields(obj(vec![("properties", obj(vec![("b", ref_prop("B"))]))]))),
        (s("B"), fields(obj(vec![("properties", obj(vec![("c", ref_prop("C"))]))]))),
        (s("C"), fields(obj(vec![("type", text("object"))]))),
        (s("Dead"), fields(obj(vec![("type", text("object"))]))),
    ];
    remove_unused_definitions(&paths, &mut defs);
    assert_eq!(names(&defs), vec![s("A"), s("B"), s("C")]);
}

#[test]
fn original_ref_forms() {
    assert_eq!(find_original_ref(&ref_prop("X")), Some(s("X")));
    let arr = obj(vec![("type", text("array")), ("items", ref_prop("Y"))]);
    assert_eq!(find_original_ref(&arr), Some(s("Y")));
    let other = obj(vec![("type", text("object")), ("items", ref_prop("Y"))]);
    assert_eq!(find_original_ref(&other), None);
    assert_eq!(find_original_ref(&text("X")), None);
}

fn tag(name: &str) -> Tag {
    Tag { name: s(name), description: s("") }
}

#[test]
fn tag_filter_is_exact() {
    let paths: PathEntries = vec![(s("/a"), vec![(s("get"), op(vec!["x"], None))])];
    let kept = filter_tags(vec![tag("x"), tag("y")], &paths);
    assert_eq!(kept, vec![tag("x")]);
}

#[test]
fn tag_filter_sorts_by_name() {
    let paths: PathEntries = vec![(
        s("/a"),
        vec![(s("get"), op(vec!["b", "a"], None)), (s("put"), op(vec!["c"], None))],
    )];
    let kept = filter_tags(vec![tag("c"), tag("a"), tag("z"), tag("b")], &paths);
    assert_eq!(kept, vec![tag("a"), tag("b"), tag("c")]);
    let mut used = collect_tags(&paths);
    used.sort();
    assert_eq!(used, vec![s("a"), s("b"), s("c")]);
}

#[test]
fn text_order_is_by_code_point() {
    assert!(text_less("/a", "/b"));
    assert!(text_less("/a", "/ab"));
    assert!(!text_less("/b", "/a"));
    assert!(!text_less("x", "x"));
    assert!(text_less("Z", "a"));
}

#[test]
fn sort_is_stable() {
    let sorted = sort_by_name(vec![(s("b"), 1), (s("a"), 2), (s("b"), 3), (s("a"), 4)]);
    assert_eq!(sorted, vec![(s("a"), 2), (s("a"), 4), (s("b"), 1), (s("b"), 3)]);
}

#[test]
fn definition_edits_in_order() {
    let mut defs: DefinitionEntries = vec![
        (s("Old"), fields(obj(vec![("type", text("object"))]))),
        (s("Keep"), fields(obj(vec![("type", text("object")), ("tags", Json::Array(vec![num("1")]))]))),
    ];
    let edits = SchemaDefinitions {
        __add: Some(vec![(s("New"), fields(obj(vec![("type", text("string"))])))]),
        __override: Some(vec![
            (s("Keep"), fields(obj(vec![("tags", Json::Array(vec![num("2")]))]))),
            (s("New"), fields(obj(vec![("title", text("N"))]))),
            (s("Old"), fields(obj(vec![("title", text("O"))]))),
        ]),
        __remove: Some(vec![s("Old"), s("Missing")]),
    };
    apply_definition_edits(&mut defs, edits);
    assert_eq!(names(&defs), vec![s("Keep"), s("New")]);
    assert_eq!(
        defs[0].1,
        fields(obj(vec![("type", text("object")), ("tags", Json::Array(vec![num("1"), num("2")]))]))
    );
    assert_eq!(defs[1].1, fields(obj(vec![("type", text("string")), ("title", text("N"))])));
}

#[test]
fn path_edit_table_conversion() {
    let table = fields(obj(vec![
        ("^/x", text("/y")),
        ("__remove", Json::Array(vec![text("/gone")])),
    ]));
    let edits = path_edits_of(table).unwrap();
    assert_eq!(edits.__rename, Some(vec![(s("^/x"), s("/y"))]));
    assert_eq!(edits.__remove, Some(vec![s("/gone")]));
    let bad = fields(obj(vec![("^/x", num("1"))]));
    assert_eq!(path_edits_of(bad).err(), Some(EditError::InvalidRule(s("^/x"))));
}

#[test]
fn definition_edit_table_conversion() {
    let table = fields(obj(vec![
        ("__remove", Json::Array(vec![text("A")])),
        ("__add", obj(vec![("B", obj(vec![("type", text("object"))]))])),
        ("C", obj(vec![("title", text("c"))])),
    ]));
    let edits = definition_edits_of(table).unwrap();
    assert_eq!(edits.__remove, Some(vec![s("A")]));
    assert_eq!(edits.__add, Some(vec![(s("B"), fields(obj(vec![("type", text("object"))])))]));
    assert_eq!(edits.__override, Some(vec![(s("C"), fields(obj(vec![("title", text("c"))])))]));
    let bad = fields(obj(vec![("C", text("c"))]));
    assert_eq!(definition_edits_of(bad).err(), Some(EditError::InvalidRule(s("C"))));
    let bad_remove = fields(obj(vec![("__remove", Json::Array(vec![num("1")]))]));
    assert_eq!(
        definition_edits_of(bad_remove).err(),
        Some(EditError::InvalidRule(s("__remove")))
    );
}

fn document(paths: PathEntries, definitions: DefinitionEntries, tags: Vec<Tag>) -> Swagger {
    Swagger {
        swagger: s("2.0"),
        info: Info { title: s("api") },
        base_path: s("/"),
        tags,
        paths: paths.into_iter().collect(),
        definitions: definitions.into_iter().collect(),
    }
}

fn keys<V>(m: &indexmap::IndexMap<String, V>) -> Vec<String> {
    m.keys().cloned().collect()
}

#[test]
fn end_to_end_prunes_and_fills_required() {
    let get: Operations = vec![(s("get"), op(vec!["t"], Some("Dto1")))];
    let paths: PathEntries = vec![(s("/a"), get)];
    let definitions: DefinitionEntries = vec![
        (
            s("Dto1"),
            fields(obj(vec![
                ("type", text("object")),
                ("properties", obj(vec![("id", obj(vec![])), ("name", obj(vec![]))])),
            ])),
        ),
        (s("Dto2"), fields(obj(vec![("type", text("object"))]))),
    ];
    let doc = document(paths, definitions, vec![tag("u"), tag("t")]);
    let out = process_swagger(doc, None, None, SegmentPolicy::DropCollection).unwrap();
    assert_eq!(keys(&out.definitions), vec![s("Dto1")]);
    assert_eq!(
        get_field(&out.definitions["Dto1"], "required"),
        Some(&Json::Array(vec![text("id"), text("name")]))
    );
    assert_eq!(out.tags, vec![tag("t")]);
    assert_eq!(out.info.title, "api");
}

#[test]
fn end_to_end_rewrites_and_sorts_paths() {
    let paths: PathEntries = vec![
        (s("/zeta{?q}"), vec![(s("get"), op(vec![], None))]),
        (s("/old/items"), vec![(s("post"), op(vec![], None))]),
        (s("/drop"), vec![(s("get"), op(vec![], None))]),
    ];
    let doc = document(paths, vec![], vec![]);
    let edits = SchemaPaths {
        __rename: Some(vec![(s("^/old/(.*)$"), s("/new/$1"))]),
        __remove: Some(vec![s("/drop")]),
    };
    let out = process_swagger(doc, Some(edits), None, SegmentPolicy::DropCollection).unwrap();
    assert_eq!(keys(&out.paths), vec![s("/new/items"), s("/zeta")]);
    match &out.paths["/new/items"][0].1 {
        Json::Object(post) => assert_eq!(get_field(post, "operationId"), Some(&text("createItems"))),
        _ => panic!("not an object"),
    }
}

#[test]
fn end_to_end_invalid_pattern_fails() {
    let doc = document(vec![(s("/a"), vec![])], vec![], vec![]);
    let edits = SchemaPaths { __rename: Some(vec![(s("[") , s("x"))]), __remove: None };
    let out = process_swagger(doc, Some(edits), None, SegmentPolicy::DropCollection);
    assert!(matches!(out, Err(EditError::InvalidPattern(_))));
}

#[test]
fn end_to_end_malformed_operation_fails() {
    let bare = obj(vec![("responses", obj(vec![]))]);
    let doc = document(vec![(s("/a"), vec![(s("get"), bare)])], vec![], vec![]);
    let out = process_swagger(doc, None, None, SegmentPolicy::DropCollection);
    assert!(matches!(out, Err(EditError::MalformedDocument)));
}

#[test]
fn end_to_end_malformed_definition_fails() {
    let defs: DefinitionEntries = vec![(s("D"), fields(obj(vec![("properties", text("x"))])))];
    let doc = document(vec![], defs, vec![]);
    let out = process_swagger(doc, None, None, SegmentPolicy::DropCollection);
    assert!(matches!(out, Err(EditError::MalformedDocument)));
}
