use vstd::prelude::*;
use crate::defect::{Defect, DefectV};
use crate::strutil::{
    starts_with_spec, find_sub_from, dots_to_slashes, between_backticks_spec, expected_capture_from,
    has_prefix, contains_sub, replace_dots, concat2, concat3, str_eq, extract_between_backticks,
    extract_string_value,
};

verus! {

/// The pointer a defect at a decoded path is reported under: the path with
/// a leading slash, except that the root path is already the bare slash.
pub open spec fn defect_pointer(slash_path: Seq<char>) -> Seq<char> {
    if slash_path == "/"@ {
        slash_path
    } else {
        "/"@ + slash_path
    }
}

/// The pointer of a missing field: the field name under its parent path.
pub open spec fn missing_field_pointer(slash_path: Seq<char>, field: Seq<char>) -> Seq<char> {
    if slash_path == "/"@ {
        slash_path + field
    } else {
        "/"@ + slash_path + "/"@ + field
    }
}

/// How a decode failure reported as a dotted path and a message text is
/// classified into the closed defect vocabulary.  The message prefixes are
/// the stable openings of the decoder's failure texts; a failure that opens
/// with none of them is unrecognized and must surface loudly.
pub open spec fn classify_spec(path_raw: Seq<char>, msg: Seq<char>) -> DefectV {
    let slash = dots_to_slashes(path_raw);
    if starts_with_spec(msg, "missing field"@) {
        match between_backticks_spec(path_raw + ": "@ + msg) {
            Some(field) => DefectV::MissingField { pointer: missing_field_pointer(slash, field) },
            None => DefectV::UnrecognizedFailure { description: msg },
        }
    } else if starts_with_spec(msg, "data did not match any variant of untagged enum"@) {
        DefectV::UntaggedUnionMismatch { pointer: defect_pointer(slash) }
    } else if starts_with_spec(msg, "input contains invalid characters"@) {
        DefectV::InvalidFormattedString { pointer: defect_pointer(slash) }
    } else if starts_with_spec(msg, "invalid value"@) {
        match expected_capture_from(msg, 0) {
            Some(expected) => DefectV::InvalidFixedValue {
                pointer: defect_pointer(slash),
                expected,
            },
            None => DefectV::UnrecognizedFailure { description: msg },
        }
    } else if starts_with_spec(msg, "invalid type"@) {
        if find_sub_from(msg, "invalid type: map"@, 0) is Some && find_sub_from(
            msg,
            "expected a sequence"@,
            0,
        ) is Some {
            DefectV::SequenceShapeMismatch { pointer: defect_pointer(slash) }
        } else {
            DefectV::TypeMismatch { pointer: defect_pointer(slash) }
        }
    } else {
        DefectV::UnrecognizedFailure { description: msg }
    }
}

/// Classifies a decode failure, reported as the dotted path where decoding
/// stopped and the failure message, into the closed defect vocabulary.
pub fn classify_decode_error(path_raw: &str, message: &str) -> (r: Defect)
    ensures
        r@ == classify_spec(path_raw@, message@),
{
    let slash = replace_dots(path_raw);
    if has_prefix(message, "missing field") {
        let full = concat3(path_raw, ": ", message);
        match extract_between_backticks(full.as_str()) {
            Some(field) => {
                let pointer = if str_eq(slash.as_str(), "/") {
                    concat2(slash.as_str(), field.as_str())
                } else {
                    let head = concat3("/", slash.as_str(), "/");
                    concat2(head.as_str(), field.as_str())
                };
                Defect::MissingField { pointer }
            },
            None => Defect::UnrecognizedFailure { description: String::from_str(message) },
        }
    } else if has_prefix(message, "data did not match any variant of untagged enum") {
        Defect::UntaggedUnionMismatch { pointer: pointer_of(slash) }
    } else if has_prefix(message, "input contains invalid characters") {
        Defect::InvalidFormattedString { pointer: pointer_of(slash) }
    } else if has_prefix(message, "invalid value") {
        match extract_string_value(message) {
            Some(expected) => Defect::InvalidFixedValue { pointer: pointer_of(slash), expected },
            None => Defect::UnrecognizedFailure { description: String::from_str(message) },
        }
    } else if has_prefix(message, "invalid type") {
        if contains_sub(message, "invalid type: map") && contains_sub(message, "expected a sequence") {
            Defect::SequenceShapeMismatch { pointer: pointer_of(slash) }
        } else {
            Defect::TypeMismatch { pointer: pointer_of(slash) }
        }
    } else {
        Defect::UnrecognizedFailure { description: String::from_str(message) }
    }
}

/// The pointer for a defect at an already slash-separated path.
fn pointer_of(slash: String) -> (r: String)
    ensures
        r@ == defect_pointer(slash@),
{
    if str_eq(slash.as_str(), "/") {
        slash
    } else {
        concat2("/", slash.as_str())
    }
}

} // verus!
