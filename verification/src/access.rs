use vstd::prelude::*;
use crate::json::{Json, JsonV, obj_lookup, obj_has_key, entries_view, arr_view, key_index};
use crate::pointer::{PathSegment, PathSegV, StructuralPath, parse_pointer_spec};

verus! {

/// The position of the first entry of `entries` whose key is `key`, if any.
pub open spec fn key_pos(entries: Seq<(Seq<char>, JsonV)>, key: Seq<char>) -> Option<int>
    decreases entries.len(),
{
    if entries.len() == 0 {
        None
    } else if entries[0].0 == key {
        Some(0)
    } else {
        match key_pos(entries.drop_first(), key) {
            None => None,
            Some(p) => Some(p + 1),
        }
    }
}

/// What a key position means: the first entry with that key.
pub proof fn lemma_key_pos(entries: Seq<(Seq<char>, JsonV)>, key: Seq<char>)
    ensures
        match key_pos(entries, key) {
            Some(p) => 0 <= p < entries.len() && entries[p].0 == key && obj_lookup(entries, key)
                == Some(entries[p].1) && (forall|m: int| 0 <= m < p ==> (#[trigger] entries[m]).0 != key),
            None => !obj_has_key(entries, key),
        },
    decreases entries.len(),
{
    if entries.len() > 0 && entries[0].0 != key {
        lemma_key_pos(entries.drop_first(), key);
        match key_pos(entries.drop_first(), key) {
            Some(p) => {
                assert(entries[p + 1] == entries.drop_first()[p]);
                assert forall|m: int| 0 <= m < p + 1 implies (#[trigger] entries[m]).0 != key by {
                    if m > 0 {
                        assert(entries.drop_first()[m - 1].0 != key);
                    }
                }
            },
            None => {},
        }
    }
}

/// The value at a structural path inside a document, if the path resolves:
/// key segments address object entries, index segments address array slots.
pub open spec fn get_at_spec(d: JsonV, path: Seq<PathSegV>) -> Option<JsonV>
    decreases path.len(),
{
    if path.len() == 0 {
        Some(d)
    } else {
        match (d, path[0]) {
            (JsonV::Obj(es), PathSegV::Key(k)) => match obj_lookup(es, k) {
                Some(v) => get_at_spec(v, path.drop_first()),
                None => None,
            },
            (JsonV::Arr(s), PathSegV::Index(i)) => if 0 <= i < s.len() {
                get_at_spec(s[i], path.drop_first())
            } else {
                None
            },
            _ => None,
        }
    }
}

/// The document with `v` written at a structural path, if the path resolves
/// to an existing location; writing never creates structure.
pub open spec fn set_at_spec(d: JsonV, path: Seq<PathSegV>, v: JsonV) -> Option<JsonV>
    decreases path.len(),
{
    if path.len() == 0 {
        Some(v)
    } else {
        match (d, path[0]) {
            (JsonV::Obj(es), PathSegV::Key(k)) => match key_pos(es, k) {
                Some(p) => match set_at_spec(es[p].1, path.drop_first(), v) {
                    Some(nv) => Some(JsonV::Obj(es.update(p, (es[p].0, nv)))),
                    None => None,
                },
                None => None,
            },
            (JsonV::Arr(s), PathSegV::Index(i)) => if 0 <= i < s.len() {
                match set_at_spec(s[i], path.drop_first(), v) {
                    Some(nv) => Some(JsonV::Arr(s.update(i, nv))),
                    None => None,
                }
            } else {
                None
            },
            _ => None,
        }
    }
}

/// The document with `v` written at a pointer string, if the pointer parses
/// and resolves.
pub open spec fn set_at_pointer_spec(d: JsonV, pointer: Seq<char>, v: JsonV) -> Option<JsonV> {
    match parse_pointer_spec(pointer) {
        None => None,
        Some(segs) => set_at_spec(d, segs, v),
    }
}

/// The value at the path from segment `i` on, if it resolves.
fn get_rec<'a>(d: &'a Json, path: &StructuralPath, i: usize) -> (r: Option<&'a Json>)
    requires
        i <= path.segments.len(),
    ensures
        match r {
            Some(x) => get_at_spec(d@, path@.skip(i as int)) == Some(x@),
            None => get_at_spec(d@, path@.skip(i as int)) is None,
        },
    decreases path.segments.len() - i,
{
    if i == path.segments.len() {
        proof {
            assert(path@.skip(i as int).len() == 0);
        }
        return Some(d);
    }
    proof {
        assert(path@.skip(i as int)[0] == path@[i as int]);
        assert(path@.skip(i as int).drop_first() =~= path@.skip(i + 1));
    }
    match (d, &path.segments[i]) {
        (Json::Obj(es), PathSegment::Key(k)) => {
            match key_index(es, k.as_str()) {
                Some(j) => get_rec(&es[j].1, path, i + 1),
                None => None,
            }
        },
        (Json::Arr(elems), PathSegment::Index(ix)) => {
            if *ix < elems.len() {
                get_rec(&elems[*ix], path, i + 1)
            } else {
                None
            }
        },
        _ => None,
    }
}

/// The value at a structural path inside `doc`, if the path resolves.
pub fn get_at_path<'a>(doc: &'a Json, path: &StructuralPath) -> (r: Option<&'a Json>)
    ensures
        match r {
            Some(x) => get_at_spec(doc@, path@) == Some(x@),
            None => get_at_spec(doc@, path@) is None,
        },
{
    let r = get_rec(doc, path, 0);
    proof {
        assert(path@.skip(0) =~= path@);
    }
    r
}

/// Writes `v` at the path from segment `i` on, returning the updated node
/// and whether the path resolved; on failure the node is returned unchanged.
fn set_rec(d: Json, path: &StructuralPath, i: usize, v: Json) -> (r: (Json, bool))
    requires
        i <= path.segments.len(),
    ensures
        match set_at_spec(d@, path@.skip(i as int), v@) {
            Some(nd) => r.1 && r.0@ == nd,
            None => !r.1 && r.0@ == d@,
        },
    decreases path.segments.len() - i,
{
    let ghost dv = d@;
    if i == path.segments.len() {
        proof {
            assert(path@.skip(i as int).len() == 0);
        }
        return (v, true);
    }
    proof {
        assert(path@.skip(i as int)[0] == path@[i as int]);
        assert(path@.skip(i as int).drop_first() =~= path@.skip(i + 1));
    }
    match d {
        Json::Obj(mut es) => {
            let ghost es0 = entries_view(es@);
            match &path.segments[i] {
                PathSegment::Key(k) => {
                    proof {
                        lemma_key_pos(es0, k@);
                    }
                    match key_index(&es, k.as_str()) {
                        Some(j) => {
                            proof {
                                assert(key_pos(es0, k@) == Some(j as int));
                            }
                            let mut tmp = Json::Null;
                            core::mem::swap(&mut es[j].1, &mut tmp);
                            let (back, ok) = set_rec(tmp, path, i + 1, v);
                            let mut back = back;
                            core::mem::swap(&mut es[j].1, &mut back);
                            let node = Json::Obj(es);
                            proof {
                                let updated = entries_view(node->Obj_0@);
                                if ok {
                                    let nv = set_at_spec(es0[j as int].1, path@.skip(i + 1), v@)->Some_0;
                                    assert(updated =~= es0.update(j as int, (es0[j as int].0, nv)));
                                } else {
                                    assert(updated =~= es0);
                                }
                            }
                            (node, ok)
                        },
                        None => {
                            let node = Json::Obj(es);
                            proof {
                                assert(node@ == dv);
                            }
                            (node, false)
                        },
                    }
                },
                PathSegment::Index(_) => {
                    let node = Json::Obj(es);
                    proof {
                        assert(node@ == dv);
                    }
                    (node, false)
                },
            }
        },
        Json::Arr(mut elems) => {
            let ghost s0 = arr_view(elems@);
            match &path.segments[i] {
                PathSegment::Index(ix) => {
                    let ix = *ix;
                    if ix < elems.len() {
                        let mut tmp = Json::Null;
                        core::mem::swap(&mut elems[ix], &mut tmp);
                        let (back, ok) = set_rec(tmp, path, i + 1, v);
                        let mut back = back;
                        core::mem::swap(&mut elems[ix], &mut back);
                        let node = Json::Arr(elems);
                        proof {
                            let updated = arr_view(node->Arr_0@);
                            if ok {
                                let nv = set_at_spec(s0[ix as int], path@.skip(i + 1), v@)->Some_0;
                                assert(updated =~= s0.update(ix as int, nv));
                            } else {
                                assert(updated =~= s0);
                            }
                        }
                        (node, ok)
                    } else {
                        let node = Json::Arr(elems);
                        proof {
                            assert(node@ == dv);
                        }
                        (node, false)
                    }
                },
                PathSegment::Key(_) => {
                    let node = Json::Arr(elems);
                    proof {
                        assert(node@ == dv);
                    }
                    (node, false)
                },
            }
        },
        other => {
            proof {
                assert(set_at_spec(dv, path@.skip(i as int), v@) is None);
            }
            (other, false)
        },
    }
}

/// Writes `value` at a structural path inside `doc` if the path resolves to
/// an existing location, and reports whether it did; no structure is created.
pub fn set_at_path(doc: &mut Json, path: &StructuralPath, value: Json) -> (ok: bool)
    ensures
        match set_at_spec(old(doc)@, path@, value@) {
            Some(nd) => ok && final(doc)@ == nd,
            None => !ok && final(doc)@ == old(doc)@,
        },
{
    let mut tmp = Json::Null;
    core::mem::swap(doc, &mut tmp);
    let (back, ok) = set_rec(tmp, path, 0, value);
    let mut back = back;
    core::mem::swap(doc, &mut back);
    proof {
        assert(path@.skip(0) =~= path@);
    }
    ok
}

/// Writes `value` at a pointer string inside `doc` if the pointer parses and
/// resolves to an existing location, and reports whether it did.
pub fn write_at_pointer(doc: &mut Json, pointer: &str, value: Json) -> (ok: bool)
    ensures
        match set_at_pointer_spec(old(doc)@, pointer@, value@) {
            Some(nd) => ok && final(doc)@ == nd,
            None => !ok && final(doc)@ == old(doc)@,
        },
{
    match StructuralPath::parse(pointer) {
        None => false,
        Some(path) => set_at_path(doc, &path, value),
    }
}

} // verus!
