use credential_mapper::json::{json_eq, Json};
use credential_mapper::transform::{
    DataLocation, ManyToOne, OneToOne, Repository, Transformation,
};

fn s(x: &str) -> String {
    x.to_string()
}

fn jstr(x: &str) -> Json {
    Json::Str(s(x))
}

fn jobj(entries: Vec<(&str, Json)>) -> Json {
    Json::Obj(entries.into_iter().map(|(k, v)| (s(k), v)).collect())
}

fn loc(format: &str, path: &str) -> DataLocation {
    DataLocation { format: s(format), path: s(path) }
}

#[test]
fn copy_projects_a_value_between_documents() {
    let mut repo = Repository::new();
    repo.insert(s("A"), jobj(vec![("x", jstr("Hi"))]));
    repo.insert(s("B"), jobj(vec![]));
    repo.apply_transformations(vec![Transformation::OneToOne {
        type_: OneToOne::copy,
        source: loc("A", "/x"),
        destination: loc("B", "/y"),
    }]);
    let expected = jobj(vec![("y", jstr("Hi"))]);
    assert!(json_eq(repo.get("B").unwrap(), &expected));
}

#[test]
fn concat_joins_source_strings_in_listed_order() {
    let mut repo = Repository::new();
    repo.insert(s("A"), jobj(vec![("first", jstr("Jane")), ("last", jstr("Doe"))]));
    repo.insert(s("B"), jobj(vec![]));
    repo.apply_transformations(vec![Transformation::ManyToOne {
        type_: ManyToOne::concat,
        sources: vec![loc("A", "/first"), loc("A", "/last")],
        destination: loc("B", "/full"),
    }]);
    let expected = jobj(vec![("full", jstr("JaneDoe"))]);
    assert!(json_eq(repo.get("B").unwrap(), &expected));
}

#[test]
fn lowercase_folds_a_string_on_its_way_to_the_destination() {
    let mut repo = Repository::new();
    repo.insert(s("A"), jobj(vec![("x", jstr("Hi THERE"))]));
    repo.insert(s("B"), jobj(vec![]));
    repo.apply_transformations(vec![Transformation::OneToOne {
        type_: OneToOne::toLowerCase,
        source: loc("A", "/x"),
        destination: loc("B", "/y"),
    }]);
    let expected = jobj(vec![("y", jstr("hi there"))]);
    assert!(json_eq(repo.get("B").unwrap(), &expected));
}

#[test]
fn uppercase_touches_only_string_values() {
    let up = OneToOne::toUpperCase;
    let folded = up.apply(jstr("hi"));
    assert!(json_eq(&folded, &jstr("HI")));
    let passed = up.apply(Json::Num(s("7")));
    assert!(json_eq(&passed, &Json::Num(s("7"))));
}

#[test]
fn concat_ignores_non_string_values() {
    let op = ManyToOne::concat;
    let r = op.apply(vec![jstr("a"), Json::Num(s("1")), jstr("b"), Json::Null]);
    assert!(json_eq(&r, &jstr("ab")));
}

#[test]
fn absent_source_skips_the_transformation_silently() {
    let mut repo = Repository::new();
    repo.insert(s("A"), jobj(vec![]));
    repo.insert(s("B"), jobj(vec![]));
    repo.apply_transformations(vec![Transformation::OneToOne {
        type_: OneToOne::copy,
        source: loc("A", "/nowhere"),
        destination: loc("B", "/y"),
    }]);
    assert!(json_eq(repo.get("B").unwrap(), &jobj(vec![])));
}

#[test]
fn later_transformations_see_earlier_writes() {
    let mut repo = Repository::new();
    repo.insert(s("A"), jobj(vec![("x", jstr("v"))]));
    repo.insert(s("B"), jobj(vec![]));
    repo.apply_transformations(vec![
        Transformation::OneToOne {
            type_: OneToOne::copy,
            source: loc("A", "/x"),
            destination: loc("B", "/step1"),
        },
        Transformation::OneToOne {
            type_: OneToOne::copy,
            source: loc("B", "/step1"),
            destination: loc("B", "/step2"),
        },
    ]);
    let expected = jobj(vec![("step1", jstr("v")), ("step2", jstr("v"))]);
    assert!(json_eq(repo.get("B").unwrap(), &expected));
}

#[test]
fn one_to_many_is_a_placeholder_that_writes_nothing() {
    let mut repo = Repository::new();
    repo.insert(s("A"), jobj(vec![("x", jstr("v"))]));
    repo.insert(s("B"), jobj(vec![]));
    repo.apply_transformations(vec![Transformation::OneToMany {
        type_: credential_mapper::transform::OneToMany::split,
        source: loc("A", "/x"),
        destinations: vec![loc("B", "/y")],
    }]);
    assert!(json_eq(repo.get("B").unwrap(), &jobj(vec![])));
}

#[test]
fn insert_replaces_the_document_a_format_already_names() {
    let mut repo = Repository::new();
    repo.insert(s("A"), jobj(vec![("old", jstr("1"))]));
    repo.insert(s("A"), jobj(vec![("new", jstr("2"))]));
    assert!(json_eq(repo.get("A").unwrap(), &jobj(vec![("new", jstr("2"))])));
    assert!(repo.get("missing").is_none());
}
