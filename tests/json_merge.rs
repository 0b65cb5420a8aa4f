use ccm::json::{
    check_well_formed, get_member, json_equal, merge_json, remove_json_keys, set_member, Json,
};

fn text(s: &str) -> Json {
    Json::Str(s.to_string())
}

fn obj(members: Vec<(&str, Json)>) -> Json {
    Json::Object(members.into_iter().map(|(k, v)| (k.to_string(), v)).collect())
}

fn same(a: &Json, b: &Json) -> bool {
    json_equal(a, b)
}

#[test]
fn merge_overlay_wins_and_base_only_keys_survive() {
    let mut base = obj(vec![
        ("a", Json::Int(1)),
        ("env", obj(vec![("X", text("1")), ("Y", text("2"))])),
    ]);
    let overlay = obj(vec![
        ("env", obj(vec![("Y", text("3")), ("Z", text("4"))])),
        ("b", Json::Bool(true)),
    ]);
    merge_json(&mut base, &overlay);
    let expected = obj(vec![
        ("a", Json::Int(1)),
        ("env", obj(vec![("X", text("1")), ("Y", text("3")), ("Z", text("4"))])),
        ("b", Json::Bool(true)),
    ]);
    assert!(same(&base, &expected));
}

#[test]
fn merge_replaces_arrays_and_scalars_whole() {
    let mut base = obj(vec![
        ("list", Json::Array(vec![Json::Int(1), Json::Int(2)])),
        ("nested", obj(vec![("k", text("v"))])),
        ("flag", text("x")),
    ]);
    let overlay = obj(vec![
        ("list", Json::Array(vec![Json::Int(3)])),
        ("nested", Json::Null),
        ("flag", obj(vec![("inner", Json::Bool(false))])),
    ]);
    merge_json(&mut base, &overlay);
    let expected = obj(vec![
        ("list", Json::Array(vec![Json::Int(3)])),
        ("nested", Json::Null),
        ("flag", obj(vec![("inner", Json::Bool(false))])),
    ]);
    assert!(same(&base, &expected));
}

#[test]
fn merge_onto_non_object_takes_overlay() {
    let mut base = Json::Array(vec![Json::Int(1)]);
    let overlay = obj(vec![("a", Json::Int(2))]);
    merge_json(&mut base, &overlay);
    assert!(same(&base, &overlay));
}

#[test]
fn merge_with_itself_gives_it_back() {
    let a = obj(vec![
        ("env", obj(vec![("X", text("1")), ("deep", obj(vec![("n", Json::Int(-4))]))])),
        ("arr", Json::Array(vec![text("p"), Json::Null])),
        ("f", Json::Float("1.5".to_string())),
    ]);
    let mut m = obj(vec![
        ("env", obj(vec![("X", text("1")), ("deep", obj(vec![("n", Json::Int(-4))]))])),
        ("arr", Json::Array(vec![text("p"), Json::Null])),
        ("f", Json::Float("1.5".to_string())),
    ]);
    merge_json(&mut m, &a);
    assert!(same(&m, &a));
    assert_eq!(m, a);
}

#[test]
fn subtract_after_merge_gives_base_back_on_disjoint_keys() {
    let a = obj(vec![("env", obj(vec![("KEEP", text("1"))])), ("other", Json::Bool(true))]);
    let b = obj(vec![
        ("env", obj(vec![("ANTHROPIC_BASE_URL", text("https://x"))])),
        ("model", text("m")),
        ("hooks", obj(vec![("pre", text("run"))])),
    ]);
    let mut m = obj(vec![("env", obj(vec![("KEEP", text("1"))])), ("other", Json::Bool(true))]);
    merge_json(&mut m, &b);
    remove_json_keys(&mut m, &b);
    assert!(same(&m, &a));
}

#[test]
fn subtract_drops_objects_left_empty() {
    let mut base = obj(vec![("env", obj(vec![("X", text("1"))])), ("keep", Json::Int(3))]);
    let overlay = obj(vec![("env", obj(vec![("X", text("9"))]))]);
    remove_json_keys(&mut base, &overlay);
    assert!(same(&base, &obj(vec![("keep", Json::Int(3))])));
}

#[test]
fn subtract_keeps_siblings_under_shared_parent() {
    let mut base = obj(vec![("env", obj(vec![("X", text("1")), ("MINE", text("2"))]))]);
    let overlay = obj(vec![("env", obj(vec![("X", text("1"))]))]);
    remove_json_keys(&mut base, &overlay);
    assert!(same(&base, &obj(vec![("env", obj(vec![("MINE", text("2"))]))])));
}

#[test]
fn subtract_removes_key_whole_where_overlay_holds_a_leaf() {
    let mut base = obj(vec![("env", obj(vec![("X", text("1"))])), ("y", Json::Int(1))]);
    let overlay = obj(vec![("env", text("flat")), ("absent", Json::Null)]);
    remove_json_keys(&mut base, &overlay);
    assert!(same(&base, &obj(vec![("y", Json::Int(1))])));
}

#[test]
fn subtract_leaves_non_objects_alone() {
    let mut base = Json::Array(vec![Json::Int(1)]);
    let overlay = obj(vec![("a", Json::Int(1))]);
    remove_json_keys(&mut base, &overlay);
    assert!(same(&base, &Json::Array(vec![Json::Int(1)])));
}

#[test]
fn equality_ignores_member_order_but_not_array_order() {
    let a = obj(vec![("x", Json::Int(1)), ("y", Json::Int(2))]);
    let b = obj(vec![("y", Json::Int(2)), ("x", Json::Int(1))]);
    assert!(same(&a, &b));
    let c = Json::Array(vec![Json::Int(1), Json::Int(2)]);
    let d = Json::Array(vec![Json::Int(2), Json::Int(1)]);
    assert!(!same(&c, &d));
    assert!(!same(&obj(vec![("x", Json::Int(1))]), &a));
    assert!(!same(&text("1"), &Json::Int(1)));
    assert!(!same(&text("1"), &Json::Float("1".to_string())));
}

#[test]
fn well_formedness_rejects_repeated_keys() {
    let ok = obj(vec![("a", Json::Int(1)), ("b", obj(vec![("a", Json::Int(2))]))]);
    assert!(check_well_formed(&ok));
    let twice = obj(vec![("a", Json::Int(1)), ("a", Json::Int(2))]);
    assert!(!check_well_formed(&twice));
    let deep = Json::Array(vec![obj(vec![("k", Json::Null), ("k", Json::Null)])]);
    assert!(!check_well_formed(&deep));
}

#[test]
fn member_lookup_and_update() {
    let doc = obj(vec![("env", obj(vec![("A", text("1"))]))]);
    assert!(get_member(&doc, &"env".to_string()).is_some());
    assert!(get_member(&doc, &"nope".to_string()).is_none());
    assert!(get_member(&Json::Null, &"env".to_string()).is_none());
    let mut members = vec![("a".to_string(), Json::Int(1))];
    set_member(&mut members, "a".to_string(), Json::Int(2));
    set_member(&mut members, "b".to_string(), Json::Int(3));
    assert_eq!(members.len(), 2);
    assert_eq!(members[0].1, Json::Int(2));
    assert_eq!(members[1].1, Json::Int(3));
}

#[test]
fn deep_copy_is_equal() {
    let a = obj(vec![("x", Json::Array(vec![obj(vec![("y", text("z"))])]))]);
    let b = a.deep_copy();
    assert_eq!(a, b);
}
