use credential_mapper::defect::Defect;
use credential_mapper::json::{json_eq, Json};
use credential_mapper::repair::{apply_defect, get_missing_data_fields, verify, RepairStep, VerifyFailure};
use credential_mapper::schema::Schema;

fn s(x: &str) -> String {
    x.to_string()
}

fn jstr(x: &str) -> Json {
    Json::Str(s(x))
}

fn jobj(entries: Vec<(&str, Json)>) -> Json {
    Json::Obj(entries.into_iter().map(|(k, v)| (s(k), v)).collect())
}

fn name_schema() -> Schema {
    Schema::Object(vec![(s("name"), Schema::Str)])
}

#[test]
fn conforming_document_verifies_on_first_pass_untouched() {
    let mut doc = jobj(vec![("name", jstr("Jane"))]);
    let before = doc.deep_clone();
    let r = verify(&mut doc, &name_schema());
    match r {
        Ok(v) => {
            assert!(json_eq(&v, &before));
            assert!(json_eq(&doc, &before));
        }
        Err(_) => panic!("a conforming document must verify"),
    }
}

#[test]
fn missing_string_field_reports_its_pointer() {
    let mut doc = jobj(vec![]);
    let r = verify(&mut doc, &name_schema());
    match r {
        Err(VerifyFailure::TerminalDefect { pointer }) => assert_eq!(pointer, "/name"),
        _ => panic!("expected a terminal defect"),
    }
    // Exactly one structural patch was applied before the terminal pass:
    // the missing field was scaffolded as an empty object placeholder.
    let expected = jobj(vec![("name", jobj(vec![]))]);
    assert!(json_eq(&doc, &expected));
}

#[test]
fn enumerate_defects_for_empty_document_is_name() {
    let r = get_missing_data_fields(jobj(vec![]), &name_schema());
    assert_eq!(r.unwrap(), vec![s("/name")]);
}

#[test]
fn enumerate_defects_lists_fields_in_schema_order() {
    let schema = Schema::Object(vec![(s("a"), Schema::Str), (s("b"), Schema::Str)]);
    let r = get_missing_data_fields(jobj(vec![]), &schema);
    assert_eq!(r.unwrap(), vec![s("/a"), s("/b")]);
}

#[test]
fn enumerate_defects_is_deterministic() {
    let schema = Schema::Object(vec![
        (s("a"), Schema::Str),
        (s("b"), Schema::Str),
        (s("c"), Schema::Str),
    ]);
    let doc1 = jobj(vec![("b", jstr("x"))]);
    let doc2 = jobj(vec![("b", jstr("x"))]);
    let r1 = get_missing_data_fields(doc1, &schema).unwrap();
    let r2 = get_missing_data_fields(doc2, &schema).unwrap();
    assert_eq!(r1, r2);
}

#[test]
fn formatted_string_is_patched_with_the_sentinel_timestamp() {
    let schema = Schema::Object(vec![(s("ts"), Schema::Formatted)]);
    let mut doc = jobj(vec![("ts", jstr("not-a-timestamp"))]);
    let r = verify(&mut doc, &schema);
    assert!(r.is_ok());
    let expected = jobj(vec![("ts", jstr("2010-01-01T00:00:00Z"))]);
    assert!(json_eq(&doc, &expected));
}

#[test]
fn known_fixed_literal_is_wrapped_in_an_array() {
    let ctx = "https://www.w3.org/ns/credentials/v2";
    let schema = Schema::Object(vec![(s("c"), Schema::Fixed(s(ctx)))]);
    let mut doc = jobj(vec![("c", jstr("wrong"))]);
    let r = verify(&mut doc, &schema);
    assert!(r.is_ok());
    let expected = jobj(vec![("c", Json::Arr(vec![jstr(ctx)]))]);
    assert!(json_eq(&doc, &expected));
}

#[test]
fn unknown_fixed_literal_is_a_fatal_contract_break() {
    let schema = Schema::Object(vec![(s("c"), Schema::Fixed(s("something-else")))]);
    let mut doc = jobj(vec![("c", jstr("wrong"))]);
    match verify(&mut doc, &schema) {
        Err(VerifyFailure::FatalContract { description }) => {
            assert_eq!(description, "Expected value: something-else");
        }
        _ => panic!("expected a fatal contract break"),
    }
}

#[test]
fn union_mismatch_is_patched_with_an_empty_string() {
    let schema = Schema::Object(vec![(s("u"), Schema::Union(vec![Schema::Str]))]);
    let mut doc = jobj(vec![("u", Json::Num(s("5")))]);
    let r = verify(&mut doc, &schema);
    assert!(r.is_ok());
    let expected = jobj(vec![("u", jstr(""))]);
    assert!(json_eq(&doc, &expected));
}

#[test]
fn object_where_sequence_expected_is_terminal_at_the_first_slot() {
    let schema = Schema::Object(vec![(s("a"), Schema::Array(Box::new(Schema::Str)))]);
    let mut doc = jobj(vec![("a", jobj(vec![]))]);
    match verify(&mut doc, &schema) {
        Err(VerifyFailure::TerminalDefect { pointer }) => assert_eq!(pointer, "/a/0"),
        _ => panic!("expected a terminal defect"),
    }
    let expected = jobj(vec![("a", Json::Arr(vec![jstr("TEMP")]))]);
    assert!(json_eq(&doc, &expected));
}

#[test]
fn array_element_defect_carries_its_index() {
    let schema = Schema::Object(vec![(s("a"), Schema::Array(Box::new(Schema::Str)))]);
    let mut doc = jobj(vec![("a", Json::Arr(vec![jstr("ok"), Json::Num(s("9"))]))]);
    match verify(&mut doc, &schema) {
        Err(VerifyFailure::TerminalDefect { pointer }) => assert_eq!(pointer, "/a/1"),
        _ => panic!("expected a terminal defect"),
    }
}

#[test]
fn repair_that_cannot_converge_surfaces_the_pass_bound() {
    let schema = Schema::Object(vec![(s("u"), Schema::Union(vec![Schema::Bool]))]);
    let mut doc = jobj(vec![("u", Json::Num(s("5")))]);
    match verify(&mut doc, &schema) {
        Err(VerifyFailure::FatalContract { description }) => {
            assert_eq!(description, "the repair loop did not finish within the pass bound");
        }
        _ => panic!("expected the pass bound to be reported"),
    }
}

#[test]
fn nested_missing_fields_are_scaffolded_level_by_level() {
    let inner = Schema::Object(vec![(s("leaf"), Schema::Str)]);
    let schema = Schema::Object(vec![(s("outer"), inner)]);
    let r = get_missing_data_fields(jobj(vec![]), &schema);
    assert_eq!(r.unwrap(), vec![s("/outer/leaf")]);
}

#[test]
fn apply_defect_retries_after_a_missing_field_patch() {
    let mut doc = jobj(vec![]);
    let defect = Defect::MissingField { pointer: s("/a/b") };
    match apply_defect(&mut doc, defect) {
        RepairStep::Retry => {}
        RepairStep::Halt(_) => panic!("a missing-field patch must retry"),
    }
    let expected = jobj(vec![("a", jobj(vec![("b", jobj(vec![]))]))]);
    assert!(json_eq(&doc, &expected));
}

#[test]
fn apply_defect_reports_unrecognized_failures_loudly() {
    let mut doc = jobj(vec![]);
    let defect = Defect::UnrecognizedFailure { description: s("boom") };
    match apply_defect(&mut doc, defect) {
        RepairStep::Halt(VerifyFailure::FatalContract { description }) => {
            assert_eq!(description, "Unknown error: boom");
        }
        _ => panic!("expected a fatal halt"),
    }
}
