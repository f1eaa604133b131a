use vstd::prelude::*;
use crate::json::{Json, JsonV, obj_lookup, entries_view, arr_view, key_index};
use crate::defect::{Defect, DefectV};
use crate::pointer::is_digit;
use crate::strutil::{dec_digits, usize_to_string, concat3, str_eq};

verus! {

/// A structural schema: what shape a document must have.  A decoder against
/// it reports the first point of failure as a classified, located defect.
#[derive(Debug)]
pub enum Schema {
    /// A boolean value.
    Bool,
    /// A number value.
    Num,
    /// A string value.
    Str,
    /// A string under a formatted-value constraint (a timestamp).
    Formatted,
    /// A required fixed literal, accepted bare or as the first element of an
    /// array.
    Fixed(String),
    /// An untagged union: the value must match some variant.
    Union(Vec<Schema>),
    /// A sequence whose elements all match one schema.
    Array(Box<Schema>),
    /// An object with required fields, checked in order; other keys pass.
    Object(Vec<(String, Schema)>),
}

/// The timestamp shape the formatted-value constraint asks for:
/// `dddd-dd-ddTdd:dd:ddZ`.
pub open spec fn is_timestamp(t: Seq<char>) -> bool {
    &&& t.len() == 20
    &&& is_digit(t[0]) && is_digit(t[1]) && is_digit(t[2]) && is_digit(t[3])
    &&& t[4] == '-' && is_digit(t[5]) && is_digit(t[6]) && t[7] == '-'
    &&& is_digit(t[8]) && is_digit(t[9]) && t[10] == 'T'
    &&& is_digit(t[11]) && is_digit(t[12]) && t[13] == ':'
    &&& is_digit(t[14]) && is_digit(t[15]) && t[16] == ':'
    &&& is_digit(t[17]) && is_digit(t[18]) && t[19] == 'Z'
}

/// Whether a value meets a required fixed literal: the literal itself, or
/// an array whose first element is the literal.
pub open spec fn fixed_accepts(d: JsonV, lit: Seq<char>) -> bool {
    ||| d == JsonV::Str(lit)
    ||| (d matches JsonV::Arr(s) && s.len() >= 1 && s[0] == JsonV::Str(lit))
}

/// The first defect of `d` against schema `s`, or none if `d` conforms.
/// `ptr` is the pointer of `d`'s own location; defects under it extend it.
pub open spec fn decode_spec(d: JsonV, s: Schema, ptr: Seq<char>) -> Option<DefectV>
    decreases s, 0int,
    via decode_spec_decreases
{
    match s {
        Schema::Bool => match d {
            JsonV::Bool(_) => None,
            _ => Some(DefectV::TypeMismatch { pointer: ptr }),
        },
        Schema::Num => match d {
            JsonV::Num(_) => None,
            _ => Some(DefectV::TypeMismatch { pointer: ptr }),
        },
        Schema::Str => match d {
            JsonV::Str(_) => None,
            _ => Some(DefectV::TypeMismatch { pointer: ptr }),
        },
        Schema::Formatted => match d {
            JsonV::Str(t) => if is_timestamp(t) {
                None
            } else {
                Some(DefectV::InvalidFormattedString { pointer: ptr })
            },
            _ => Some(DefectV::TypeMismatch { pointer: ptr }),
        },
        Schema::Fixed(lit) => if fixed_accepts(d, lit@) {
            None
        } else {
            Some(DefectV::InvalidFixedValue { pointer: ptr, expected: lit@ })
        },
        Schema::Union(vs) => if exists|i: int|
            0 <= i < vs@.len() && decode_spec(d, #[trigger] vs@[i], ptr) is None {
            None
        } else {
            Some(DefectV::UntaggedUnionMismatch { pointer: ptr })
        },
        Schema::Array(b) => match d {
            JsonV::Arr(items) => decode_items_spec(*b, items, ptr, 0),
            JsonV::Obj(_) => Some(DefectV::SequenceShapeMismatch { pointer: ptr }),
            _ => Some(DefectV::TypeMismatch { pointer: ptr }),
        },
        Schema::Object(fields) => match d {
            JsonV::Obj(es) => decode_fields_spec(fields@, es, ptr, 0),
            _ => Some(DefectV::TypeMismatch { pointer: ptr }),
        },
    }
}

/// The first defect among the elements of an array, from position `i` on.
pub open spec fn decode_items_spec(elem: Schema, items: Seq<JsonV>, ptr: Seq<char>, i: int) -> Option<
    DefectV,
>
    decreases elem, items.len() - i,
{
    if i < 0 || i >= items.len() {
        None
    } else {
        match decode_spec(items[i], elem, ptr + "/"@ + dec_digits(i as nat)) {
            Some(df) => Some(df),
            None => decode_items_spec(elem, items, ptr, i + 1),
        }
    }
}

/// The first defect among the required fields of an object, in field order,
/// from position `i` on: an absent field is a missing-field defect at the
/// field's pointer, a present one is checked recursively.
pub open spec fn decode_fields_spec(
    fields: Seq<(String, Schema)>,
    es: Seq<(Seq<char>, JsonV)>,
    ptr: Seq<char>,
    i: int,
) -> Option<DefectV>
    decreases fields, fields.len() - i,
    via decode_fields_spec_decreases
{
    if i < 0 || i >= fields.len() {
        None
    } else {
        let key = fields[i].0@;
        match obj_lookup(es, key) {
            None => Some(DefectV::MissingField { pointer: ptr + "/"@ + key }),
            Some(v) => match decode_spec(v, fields[i].1, ptr + "/"@ + key) {
                Some(df) => Some(df),
                None => decode_fields_spec(fields, es, ptr, i + 1),
            },
        }
    }
}

#[via_fn]
proof fn decode_spec_decreases(d: JsonV, s: Schema, ptr: Seq<char>) {
    match s {
        Schema::Union(vs) => {
            assert forall|i: int| 0 <= i < vs@.len() implies decreases_to!(s => #[trigger] vs@[i]) by {
                assert(decreases_to!(s => vs));
                assert(decreases_to!(vs => vs@[i]));
            }
        },
        _ => {},
    }
}

#[via_fn]
proof fn decode_fields_spec_decreases(
    fields: Seq<(String, Schema)>,
    es: Seq<(Seq<char>, JsonV)>,
    ptr: Seq<char>,
    i: int,
) {
    if 0 <= i < fields.len() {
        assert(decreases_to!(fields => fields[i]));
        assert(decreases_to!(fields[i] => fields[i].1));
    }
}

/// Whether `t` is written in the timestamp shape.
pub fn is_timestamp_exec(t: &str) -> (r: bool)
    ensures
        r == is_timestamp(t@),
{
    let len = t.unicode_len();
    if len != 20 {
        return false;
    }
    let mut i: usize = 0;
    while i < 20
        invariant
            i <= 20,
            t@.len() == 20,
            forall|m: int| 0 <= m < i ==> (if m == 4 || m == 7 {
                t@[m] == '-'
            } else if m == 10 {
                t@[m] == 'T'
            } else if m == 13 || m == 16 {
                t@[m] == ':'
            } else if m == 19 {
                t@[m] == 'Z'
            } else {
                is_digit(#[trigger] t@[m])
            }),
        decreases 20 - i,
    {
        let c = t.get_char(i);
        let ok = if i == 4 || i == 7 {
            c == '-'
        } else if i == 10 {
            c == 'T'
        } else if i == 13 || i == 16 {
            c == ':'
        } else if i == 19 {
            c == 'Z'
        } else {
            let u = c as u32;
            48 <= u && u <= 57
        };
        if !ok {
            return false;
        }
        i = i + 1;
    }
    true
}

/// The first defect of `doc` against `schema`, with `pointer` naming the
/// location of `doc`, or none if `doc` conforms.
#[verifier::loop_isolation(false)]
pub fn decode(doc: &Json, schema: &Schema, pointer: &str) -> (r: Option<Defect>)
    ensures
        match r {
            Some(df) => decode_spec(doc@, *schema, pointer@) == Some(df@),
            None => decode_spec(doc@, *schema, pointer@) is None,
        },
    decreases *schema,
{
    let ghost dv = doc@;
    let ghost pv = pointer@;
    match schema {
        Schema::Bool => match doc {
            Json::Bool(_) => None,
            _ => Some(Defect::TypeMismatch { pointer: String::from_str(pointer) }),
        },
        Schema::Num => match doc {
            Json::Num(_) => None,
            _ => Some(Defect::TypeMismatch { pointer: String::from_str(pointer) }),
        },
        Schema::Str => match doc {
            Json::Str(_) => None,
            _ => Some(Defect::TypeMismatch { pointer: String::from_str(pointer) }),
        },
        Schema::Formatted => match doc {
            Json::Str(t) => {
                if is_timestamp_exec(t.as_str()) {
                    None
                } else {
                    Some(Defect::InvalidFormattedString { pointer: String::from_str(pointer) })
                }
            },
            _ => Some(Defect::TypeMismatch { pointer: String::from_str(pointer) }),
        },
        Schema::Fixed(lit) => {
            let accepted = match doc {
                Json::Str(s2) => str_eq(s2.as_str(), lit.as_str()),
                Json::Arr(items) => {
                    if items.len() >= 1 {
                        match &items[0] {
                            Json::Str(s2) => {
                                let e = str_eq(s2.as_str(), lit.as_str());
                                proof {
                                    assert(arr_view(items@)[0] == items@[0]@);
                                }
                                e
                            },
                            _ => {
                                proof {
                                    assert(arr_view(items@)[0] == items@[0]@);
                                }
                                false
                            },
                        }
                    } else {
                        false
                    }
                },
                _ => false,
            };
            if accepted {
                None
            } else {
                Some(Defect::InvalidFixedValue {
                    pointer: String::from_str(pointer),
                    expected: lit.clone(),
                })
            }
        },
        Schema::Union(vs) => {
            let mut i: usize = 0;
            while i < vs.len()
                invariant
                    i <= vs.len(),
                    forall|m: int| 0 <= m < i ==> decode_spec(dv, #[trigger] vs@[m], pv) is Some,
                decreases vs.len() - i,
            {
                proof {
                    assert(decreases_to!(*schema => *vs));
                    assert(decreases_to!(*vs => vs[i as int]));
                }
                match decode(doc, &vs[i], pointer) {
                    None => {
                        proof {
                            assert(exists|m: int|
                                0 <= m < vs@.len() && decode_spec(dv, #[trigger] vs@[m], pv) is None);
                        }
                        return None;
                    },
                    Some(_) => {},
                }
                i = i + 1;
            }
            Some(Defect::UntaggedUnionMismatch { pointer: String::from_str(pointer) })
        },
        Schema::Array(b) => match doc {
            Json::Arr(items) => {
                let ghost iv = arr_view(items@);
                let mut idx: usize = 0;
                while idx < items.len()
                    invariant
                        idx <= items.len(),
                        decode_items_spec(*(*b), iv, pv, 0) == decode_items_spec(
                            *(*b),
                            iv,
                            pv,
                            idx as int,
                        ),
                    decreases items.len() - idx,
                {
                    let num = usize_to_string(idx);
                    let child_ptr = concat3(pointer, "/", num.as_str());
                    proof {
                        assert(decreases_to!(*schema => *b));
                        assert(iv[idx as int] == items@[idx as int]@);
                    }
                    match decode(&items[idx], &*b, child_ptr.as_str()) {
                        Some(df) => {
                            return Some(df);
                        },
                        None => {},
                    }
                    idx = idx + 1;
                }
                proof {
                    assert(decode_items_spec(*(*b), iv, pv, idx as int) is None);
                }
                None
            },
            Json::Obj(_) => Some(Defect::SequenceShapeMismatch { pointer: String::from_str(pointer) }),
            _ => Some(Defect::TypeMismatch { pointer: String::from_str(pointer) }),
        },
        Schema::Object(fields) => match doc {
            Json::Obj(entries) => {
                let ghost ev = entries_view(entries@);
                let mut i: usize = 0;
                while i < fields.len()
                    invariant
                        i <= fields.len(),
                        decode_fields_spec(fields@, ev, pv, 0) == decode_fields_spec(
                            fields@,
                            ev,
                            pv,
                            i as int,
                        ),
                    decreases fields.len() - i,
                {
                    let child_ptr = concat3(pointer, "/", fields[i].0.as_str());
                    match key_index(entries, fields[i].0.as_str()) {
                        None => {
                            return Some(Defect::MissingField { pointer: child_ptr });
                        },
                        Some(j) => {
                            proof {
                                assert(decreases_to!(*schema => *fields));
                                assert(decreases_to!(*fields => fields[i as int]));
                                assert(decreases_to!(fields[i as int] => fields[i as int].1));
                                assert(ev[j as int].1 == entries@[j as int].1@);
                            }
                            match decode(&entries[j].1, &fields[i].1, child_ptr.as_str()) {
                                Some(df) => {
                                    return Some(df);
                                },
                                None => {},
                            }
                        },
                    }
                    i = i + 1;
                }
                proof {
                    assert(decode_fields_spec(fields@, ev, pv, i as int) is None);
                }
                None
            },
            _ => Some(Defect::TypeMismatch { pointer: String::from_str(pointer) }),
        },
    }
}

} // verus!
