use credential_mapper::access::{get_at_path, write_at_pointer};
use credential_mapper::classify::classify_decode_error;
use credential_mapper::defect::Defect;
use credential_mapper::fields::{get_all_fields, preload_p3, sort_strings};
use credential_mapper::json::{json_eq, Json};
use credential_mapper::pointer::{PathSegment, StructuralPath};

fn s(x: &str) -> String {
    x.to_string()
}

fn jstr(x: &str) -> Json {
    Json::Str(s(x))
}

fn jobj(entries: Vec<(&str, Json)>) -> Json {
    Json::Obj(entries.into_iter().map(|(k, v)| (s(k), v)).collect())
}

#[test]
fn pointer_parsing_classifies_segments() {
    let p = StructuralPath::parse("/a/0/b").unwrap();
    assert_eq!(p.segments.len(), 3);
    assert!(matches!(&p.segments[0], PathSegment::Key(k) if k == "a"));
    assert!(matches!(&p.segments[1], PathSegment::Index(0)));
    assert!(matches!(&p.segments[2], PathSegment::Key(k) if k == "b"));

    let root = StructuralPath::parse("").unwrap();
    assert_eq!(root.segments.len(), 0);

    assert!(StructuralPath::parse("missing-slash").is_none());

    let zeros = StructuralPath::parse("/01").unwrap();
    assert!(matches!(&zeros.segments[0], PathSegment::Key(k) if k == "01"));

    let empty_key = StructuralPath::parse("/").unwrap();
    assert!(matches!(&empty_key.segments[0], PathSegment::Key(k) if k == ""));
}

#[test]
fn writes_reach_existing_locations_only() {
    let mut doc = jobj(vec![("a", Json::Arr(vec![jstr("x"), jstr("y")]))]);
    assert!(write_at_pointer(&mut doc, "/a/1", jstr("z")));
    let expected = jobj(vec![("a", Json::Arr(vec![jstr("x"), jstr("z")]))]);
    assert!(json_eq(&doc, &expected));

    assert!(!write_at_pointer(&mut doc, "/a/5", jstr("w")));
    assert!(!write_at_pointer(&mut doc, "/missing/slot", jstr("w")));
    assert!(json_eq(&doc, &expected));
}

#[test]
fn reads_follow_keys_and_indexes() {
    let doc = jobj(vec![("a", Json::Arr(vec![jstr("x"), jobj(vec![("b", jstr("y"))])]))]);
    let p = StructuralPath::parse("/a/1/b").unwrap();
    assert!(json_eq(get_at_path(&doc, &p).unwrap(), &jstr("y")));
    let missing = StructuralPath::parse("/a/9").unwrap();
    assert!(get_at_path(&doc, &missing).is_none());
}

#[test]
fn classify_missing_field_builds_the_field_pointer() {
    let d = classify_decode_error("a.b", "missing field `name` at line 1 column 2");
    match d {
        Defect::MissingField { pointer } => assert_eq!(pointer, "/a/b/name"),
        _ => panic!("expected a missing-field defect"),
    }
    let at_root = classify_decode_error("/", "missing field `name` at line 1 column 2");
    match at_root {
        Defect::MissingField { pointer } => assert_eq!(pointer, "/name"),
        _ => panic!("expected a missing-field defect"),
    }
}

#[test]
fn classify_union_and_format_failures() {
    let u = classify_decode_error("a", "data did not match any variant of untagged enum Thing");
    assert!(matches!(u, Defect::UntaggedUnionMismatch { pointer } if pointer == "/a"));
    let f = classify_decode_error("a.ts", "input contains invalid characters at line 1 column 9");
    assert!(matches!(f, Defect::InvalidFormattedString { pointer } if pointer == "/a/ts"));
}

#[test]
fn classify_invalid_value_extracts_the_expected_literal() {
    let d = classify_decode_error(
        "ctx",
        "invalid value: string \"x\", expected https://www.w3.org/ns/credentials/v2 at line 1 column 4",
    );
    match d {
        Defect::InvalidFixedValue { pointer, expected } => {
            assert_eq!(pointer, "/ctx");
            assert_eq!(expected, "https://www.w3.org/ns/credentials/v2");
        }
        _ => panic!("expected a fixed-value defect"),
    }
}

#[test]
fn classify_type_mismatches_tell_sequences_apart() {
    let shape = classify_decode_error(
        "a",
        "invalid type: map, expected a sequence at line 1 column 5",
    );
    assert!(matches!(shape, Defect::SequenceShapeMismatch { pointer } if pointer == "/a"));
    let other = classify_decode_error("a", "invalid type: string \"x\", expected u64 at line 1 column 5");
    assert!(matches!(other, Defect::TypeMismatch { pointer } if pointer == "/a"));
}

#[test]
fn classify_surfaces_unknown_failures() {
    let d = classify_decode_error("a", "something nobody expected");
    assert!(matches!(d, Defect::UnrecognizedFailure { description } if description == "something nobody expected"));
}

#[test]
fn all_fields_are_collected_and_sorted() {
    let schema = jobj(vec![(
        "properties",
        jobj(vec![("b", jobj(vec![])), ("a", jobj(vec![]))]),
    )]);
    assert_eq!(get_all_fields(&schema), vec![s("/a"), s("/b")]);
}

#[test]
fn branch_lists_and_defs_references_are_followed() {
    let schema = jobj(vec![
        (
            "properties",
            jobj(vec![("r", jobj(vec![("$ref", jstr("#/$defs/D"))]))]),
        ),
        (
            "$defs",
            jobj(vec![("D", jobj(vec![("properties", jobj(vec![("y", jobj(vec![]))]))]))]),
        ),
        (
            "anyOf",
            Json::Arr(vec![jobj(vec![("properties", jobj(vec![("x", jobj(vec![]))]))])]),
        ),
    ]);
    assert_eq!(
        get_all_fields(&schema),
        vec![s("/anyOf/0/x"), s("/r"), s("/r/y")]
    );
}

#[test]
fn preload_p3_rows_start_blank_and_follow_sorted_fields() {
    let schema = jobj(vec![(
        "properties",
        jobj(vec![("b", jobj(vec![])), ("a", jobj(vec![]))]),
    )]);
    let rows = preload_p3(&schema);
    assert_eq!(rows.len(), 3);
    assert_eq!(rows[0], (s(""), s("")));
    assert_eq!(rows[1], (s("/a"), s("")));
    assert_eq!(rows[2], (s("/b"), s("")));
}

#[test]
fn sorting_keeps_every_string() {
    let sorted = sort_strings(vec![s("/b"), s("/a"), s("/b"), s("/A")]);
    assert_eq!(sorted, vec![s("/A"), s("/a"), s("/b"), s("/b")]);
}

#[test]
fn the_largest_index_cannot_size_an_array_and_larger_tokens_are_keys() {
    // An index segment of usize::MAX parses, but no array of that length
    // plus one can be sized, so the scaffold construction refuses it.
    let max = usize::MAX.to_string();
    let at_max = format!("/{}", max);
    let parsed = StructuralPath::parse(&at_max).unwrap();
    assert!(matches!(&parsed.segments[0], PathSegment::Index(i) if *i == usize::MAX));
    assert!(credential_mapper::scaffold::construct_leaf_node(&at_max).is_none());

    // A token just past the machine's range is an object key, not an index.
    let beyond = "/18446744073709551616";
    let parsed = StructuralPath::parse(beyond).unwrap();
    assert!(matches!(&parsed.segments[0], PathSegment::Key(k) if k == "18446744073709551616"));
    let node = credential_mapper::scaffold::construct_leaf_node(beyond).unwrap();
    let expected = jobj(vec![("18446744073709551616", Json::Null)]);
    assert!(json_eq(&node, &expected));
}

#[test]
fn sections_group_rows_by_first_segment_in_order() {
    let rows = vec![
        (s(""), s("")),
        (s("/credentialSubject/name"), s("")),
        (s("/issuer"), s("")),
        (s("/credentialSubject/id"), s("")),
        (s("no-slash"), s("")),
    ];
    let sections = credential_mapper::fields::missing_field_sections(&rows);
    assert_eq!(sections, vec![s("credentialSubject"), s("issuer")]);
}

#[test]
fn root_keys_follow_branches_and_references_with_replacement() {
    let schema = jobj(vec![
        ("properties", jobj(vec![("a", jstr("first"))])),
        (
            "oneOf",
            Json::Arr(vec![jobj(vec![(
                "properties",
                jobj(vec![("b", jstr("side")), ("a", jstr("second"))]),
            )])]),
        ),
        ("$ref", jstr("#/$defs/D")),
    ]);
    let defs = jobj(vec![("D", jobj(vec![("properties", jobj(vec![("c", jstr("deep"))]))]))]);
    let mut keys: Vec<(String, Json)> = Vec::new();
    credential_mapper::fields::extract_root_keys(&schema, &defs, &mut keys, 16);
    assert_eq!(keys.len(), 3);
    assert_eq!(keys[0].0, "a");
    assert!(json_eq(&keys[0].1, &jstr("second")));
    assert_eq!(keys[1].0, "b");
    assert_eq!(keys[2].0, "c");

    let resolved = credential_mapper::fields::resolve_ref(&defs, "#/$defs/D").unwrap();
    assert!(json_eq(&resolved, &jobj(vec![("properties", jobj(vec![("c", jstr("deep"))]))])));
}
