use credential_mapper::json::{json_eq, Json};
use credential_mapper::merge::merge;
use credential_mapper::pointer::StructuralPath;

fn s(x: &str) -> String {
    x.to_string()
}

fn jstr(x: &str) -> Json {
    Json::Str(s(x))
}

fn jobj(entries: Vec<(&str, Json)>) -> Json {
    Json::Obj(entries.into_iter().map(|(k, v)| (s(k), v)).collect())
}

fn scaffold(pointer: &str, leaf: Json) -> Json {
    StructuralPath::parse(pointer)
        .unwrap()
        .construct_scaffold(leaf)
        .unwrap()
}

#[test]
fn merge_scaffold_twice_equals_once() {
    let mut doc = jobj(vec![("a", jstr("x"))]);
    merge(&mut doc, scaffold("/b/c", jstr("v")));
    let once = doc.deep_clone();
    merge(&mut doc, scaffold("/b/c", jstr("v")));
    assert!(json_eq(&doc, &once));
}

#[test]
fn merge_scaffold_twice_equals_once_with_array_path() {
    let mut doc = jobj(vec![]);
    merge(&mut doc, scaffold("/items/2", jstr("v")));
    let once = doc.deep_clone();
    merge(&mut doc, scaffold("/items/2", jstr("v")));
    assert!(json_eq(&doc, &once));
}

#[test]
fn merge_disjoint_scaffold_preserves_existing_entries() {
    let mut doc = jobj(vec![("a", jstr("1")), ("z", jobj(vec![("k", jstr("2"))]))]);
    merge(&mut doc, scaffold("/b/c", jstr("3")));
    let a_path = StructuralPath::parse("/a").unwrap();
    let z_path = StructuralPath::parse("/z/k").unwrap();
    let b_path = StructuralPath::parse("/b/c").unwrap();
    assert!(json_eq(
        credential_mapper::access::get_at_path(&doc, &a_path).unwrap(),
        &jstr("1")
    ));
    assert!(json_eq(
        credential_mapper::access::get_at_path(&doc, &z_path).unwrap(),
        &jstr("2")
    ));
    assert!(json_eq(
        credential_mapper::access::get_at_path(&doc, &b_path).unwrap(),
        &jstr("3")
    ));
}

#[test]
fn merge_objects_unions_keys() {
    let mut target = jobj(vec![("keep", jstr("1")), ("both", jstr("old"))]);
    let incoming = jobj(vec![("both", jstr("new")), ("added", jstr("2"))]);
    merge(&mut target, incoming);
    let expected = jobj(vec![
        ("keep", jstr("1")),
        ("both", jstr("new")),
        ("added", jstr("2")),
    ]);
    assert!(json_eq(&target, &expected));
}

#[test]
fn merge_arrays_by_index_keeps_longer_target_tail() {
    let mut target = Json::Arr(vec![jstr("a"), jstr("b"), jstr("c")]);
    let incoming = Json::Arr(vec![jstr("x")]);
    merge(&mut target, incoming);
    let expected = Json::Arr(vec![jstr("x"), jstr("b"), jstr("c")]);
    assert!(json_eq(&target, &expected));
}

#[test]
fn merge_arrays_longer_incoming_fills_missing_slots() {
    let mut target = Json::Arr(vec![jstr("a")]);
    let incoming = Json::Arr(vec![jstr("x"), jstr("y")]);
    merge(&mut target, incoming);
    let expected = Json::Arr(vec![jstr("x"), jstr("y")]);
    assert!(json_eq(&target, &expected));
}

#[test]
fn merge_replaces_on_type_mismatch() {
    let mut target = jobj(vec![("a", jstr("old"))]);
    let incoming_inner = Json::Arr(vec![jstr("n")]);
    merge(&mut target, jobj(vec![("a", incoming_inner)]));
    let expected = jobj(vec![("a", Json::Arr(vec![jstr("n")]))]);
    assert!(json_eq(&target, &expected));
}

#[test]
fn scaffold_for_empty_path_is_the_leaf() {
    let sc = scaffold("", jstr("leaf"));
    assert!(json_eq(&sc, &jstr("leaf")));
}

#[test]
fn scaffold_array_is_sized_to_index_plus_one() {
    let sc = scaffold("/a/1", Json::Null);
    let expected = jobj(vec![("a", Json::Arr(vec![Json::Null, Json::Null]))]);
    assert!(json_eq(&sc, &expected));
}

#[test]
fn construct_leaf_node_places_null_at_pointer() {
    let node = credential_mapper::scaffold::construct_leaf_node("/x/y").unwrap();
    let expected = jobj(vec![("x", jobj(vec![("y", Json::Null)]))]);
    assert!(json_eq(&node, &expected));
    assert!(credential_mapper::scaffold::construct_leaf_node("no-slash").is_none());
}

#[test]
fn user_values_integrate_like_auto_healed_ones() {
    let mut doc = jobj(vec![("a", jstr("1"))]);
    assert!(credential_mapper::scaffold::merge_user_value(
        &mut doc,
        "/b/c",
        jstr("manual")
    ));
    let expected = jobj(vec![("a", jstr("1")), ("b", jobj(vec![("c", jstr("manual"))]))]);
    assert!(json_eq(&doc, &expected));
    assert!(!credential_mapper::scaffold::merge_user_value(
        &mut doc,
        "bad pointer",
        jstr("x")
    ));
    assert!(json_eq(&doc, &expected));
}
