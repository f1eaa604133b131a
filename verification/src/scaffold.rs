use vstd::prelude::*;
use crate::json::{Json, JsonV, entries_view, arr_view, wf_json, obj_has_key, obj_lookup, lemma_not_has_key_all, lemma_lookup_concat};
use crate::merge::{merge, merge_spec, merged_entries_from, entries_not_in, lemma_merge_idempotent, lemma_merged_entries_index};
use crate::pointer::{PathSegment, PathSegV, StructuralPath, parse_pointer_spec};

verus! {

/// The minimal structural skeleton for a path: nested single-key objects for
/// key segments, arrays sized to the index plus one for index segments, with
/// `leaf` at the terminal position and null placeholders elsewhere.  An empty
/// path is the value itself.
pub open spec fn scaffold_spec(path: Seq<PathSegV>, leaf: JsonV) -> JsonV
    decreases path.len(),
{
    if path.len() == 0 {
        leaf
    } else {
        match path[0] {
            PathSegV::Key(k) => JsonV::Obj(seq![(k, scaffold_spec(path.drop_first(), leaf))]),
            PathSegV::Index(i) => {
                let lead = if i < 0 {
                    0
                } else {
                    i
                };
                JsonV::Arr(
                    Seq::new(lead as nat, |m: int| JsonV::Null).push(
                        scaffold_spec(path.drop_first(), leaf),
                    ),
                )
            },
        }
    }
}

/// Every index segment of the path is small enough for an array of that
/// length plus one to be addressed on this machine.
pub open spec fn path_representable(path: Seq<PathSegV>) -> bool {
    forall|k: int| 0 <= k < path.len() ==> ((#[trigger] path[k]) matches PathSegV::Index(i) ==> i
        < usize::MAX as int)
}

impl StructuralPath {
    /// Builds the scaffold for this path around `leaf`, bottom up.  The
    /// construction fails only when an index segment is too large for the
    /// machine to size the surrounding array.
    #[verifier::loop_isolation(false)]
    pub fn construct_scaffold(&self, leaf: Json) -> (r: Option<Json>)
        ensures
            match r {
                Some(j) => j@ == scaffold_spec(self@, leaf@) && path_representable(self@),
                None => !path_representable(self@),
            },
    {
        let ghost leafv = leaf@;
        let mut acc = leaf;
        let mut i = self.segments.len();
        while i > 0
            invariant
                i <= self.segments.len(),
                acc@ == scaffold_spec(self@.skip(i as int), leafv),
                path_representable(self@.skip(i as int)),
            decreases i,
        {
            i = i - 1;
            proof {
                assert(self@.skip(i as int)[0] == self@[i as int]);
                assert(self@.skip(i as int).drop_first() =~= self@.skip(i + 1));
            }
            match &self.segments[i] {
                PathSegment::Key(k) => {
                    let entry = (k.clone(), acc);
                    let node = Json::Obj(vec![entry]);
                    proof {
                        assert(entries_view(node->Obj_0@) =~= seq![
                            (self@[i as int]->Key_0, scaffold_spec(self@.skip(i + 1), leafv)),
                        ]);
                    }
                    acc = node;
                },
                PathSegment::Index(idx) => {
                    let idx = *idx;
                    if idx == usize::MAX {
                        proof {
                            assert(!path_representable(self@)) by {
                                assert(self@[i as int] matches PathSegV::Index(v) && v >= usize::MAX as int);
                            }
                        }
                        return None;
                    }
                    let mut arr: Vec<Json> = Vec::new();
                    let mut m: usize = 0;
                    while m < idx
                        invariant
                            m <= idx,
                            arr.len() == m,
                            forall|t: int| 0 <= t < m ==> arr@[t] == Json::Null,
                        decreases idx - m,
                    {
                        arr.push(Json::Null);
                        m = m + 1;
                    }
                    arr.push(acc);
                    let node = Json::Arr(arr);
                    proof {
                        assert(arr_view(node->Arr_0@) =~= Seq::new(idx as nat, |t: int| JsonV::Null).push(
                            scaffold_spec(self@.skip(i + 1), leafv),
                        ));
                    }
                    acc = node;
                },
            }
            proof {
                assert forall|k: int| 0 <= k < self@.skip(i as int).len() implies ((#[trigger] self@.skip(
                    i as int,
                )[k]) matches PathSegV::Index(v) ==> v < usize::MAX as int) by {
                    if k > 0 {
                        assert(self@.skip(i as int)[k] == self@.skip(i + 1)[k - 1]);
                    }
                }
            }
        }
        proof {
            assert(self@.skip(0) =~= self@);
        }
        Some(acc)
    }
}

/// A scaffold around a well-formed value is well formed: every object node
/// on the spine holds a single key.
pub proof fn lemma_scaffold_wf(path: Seq<PathSegV>, leaf: JsonV)
    requires
        wf_json(leaf),
    ensures
        wf_json(scaffold_spec(path, leaf)),
    decreases path.len(),
{
    if path.len() > 0 {
        lemma_scaffold_wf(path.drop_first(), leaf);
        let sub = scaffold_spec(path.drop_first(), leaf);
        match path[0] {
            PathSegV::Key(k) => {
                let es = seq![(k, sub)];
                assert(es[0] == (k, sub));
                assert(wf_json(JsonV::Obj(es)));
            },
            PathSegV::Index(i) => {
                let lead = if i < 0 {
                    0
                } else {
                    i
                };
                let s = Seq::new(lead as nat, |m: int| JsonV::Null).push(sub);
                assert forall|t: int| 0 <= t < s.len() implies wf_json(#[trigger] s[t]) by {
                    if t < lead {
                        assert(s[t] == JsonV::Null);
                    } else {
                        assert(s[t] == sub);
                    }
                }
                assert(wf_json(JsonV::Arr(s)));
            },
        }
    }
}

/// Scaffold/merge idempotence: merging the scaffold for a path and value
/// into a well-formed document twice yields the same document as merging it
/// once.
pub proof fn lemma_scaffold_merge_idempotent(d: JsonV, path: Seq<PathSegV>, leaf: JsonV)
    requires
        wf_json(d),
        wf_json(leaf),
    ensures
        merge_spec(merge_spec(d, scaffold_spec(path, leaf)), scaffold_spec(path, leaf)) == merge_spec(
            d,
            scaffold_spec(path, leaf),
        ),
{
    lemma_scaffold_wf(path, leaf);
    lemma_merge_idempotent(d, scaffold_spec(path, leaf));
}

/// Non-destructiveness: merging the scaffold for a path whose first key the
/// document does not hold preserves every existing entry verbatim, appends
/// exactly one entry for the new key, and leaves every existing key
/// addressing the value it addressed before.
pub proof fn lemma_scaffold_merge_nondestructive(
    de: Seq<(Seq<char>, JsonV)>,
    path: Seq<PathSegV>,
    leaf: JsonV,
)
    requires
        path.len() > 0,
        path[0] is Key,
        !obj_has_key(de, path[0]->Key_0),
    ensures
        merge_spec(JsonV::Obj(de), scaffold_spec(path, leaf)) == JsonV::Obj(
            de.push((path[0]->Key_0, scaffold_spec(path.drop_first(), leaf))),
        ),
        forall|key: Seq<char>| #[trigger] obj_has_key(de, key) ==> obj_lookup(
            de.push((path[0]->Key_0, scaffold_spec(path.drop_first(), leaf))),
            key,
        ) == obj_lookup(de, key),
{
    let k = path[0]->Key_0;
    let sub = scaffold_spec(path.drop_first(), leaf);
    let be = seq![(k, sub)];
    assert(be[0] == (k, sub));
    assert(scaffold_spec(path, leaf) == JsonV::Obj(be));
    lemma_merged_entries_index(de, be, 0);
    lemma_not_has_key_all(de, k);
    assert forall|t: int| 0 <= t < de.len() implies merged_entries_from(de, be, 0)[t] == #[trigger] de[t] by {
        assert(obj_lookup(be, de[t].0) is None) by {
            assert(obj_lookup(be.drop_first(), de[t].0) is None);
        }
        assert(merged_entries_from(de, be, 0)[t] == (de[t].0, de[t].1));
    }
    assert(entries_not_in(be, de) =~= be) by {
        assert(entries_not_in(be.drop_first(), de).len() == 0);
    }
    assert(merged_entries_from(de, be, 0) + entries_not_in(be, de) =~= de.push((k, sub)));
    assert forall|key: Seq<char>| #[trigger] obj_has_key(de, key) implies obj_lookup(
        de.push((k, sub)),
        key,
    ) == obj_lookup(de, key) by {
        assert(de.push((k, sub)) =~= de + be);
        lemma_lookup_concat(de, be, key);
    }
}

/// Merges a manually supplied value into the document at a pointer, with
/// the same scaffold-and-merge contract the repair loop uses, so values a
/// user enters integrate exactly like auto-healed ones.  Reports whether
/// the pointer could be turned into a patch.
pub fn merge_user_value(document: &mut Json, pointer: &str, value: Json) -> (ok: bool)
    ensures
        match parse_pointer_spec(pointer@) {
            Some(segs) => if path_representable(segs) {
                ok && final(document)@ == merge_spec(old(document)@, scaffold_spec(segs, value@))
            } else {
                !ok && final(document)@ == old(document)@
            },
            None => !ok && final(document)@ == old(document)@,
        },
{
    match StructuralPath::parse(pointer) {
        None => false,
        Some(path) => match path.construct_scaffold(value) {
            None => false,
            Some(sc) => {
                merge(document, sc);
                true
            },
        },
    }
}

/// The scaffold for a pointer string with a null placeholder at its end:
/// the skeleton a repair writes before the location's value is known.
pub fn construct_leaf_node(pointer: &str) -> (r: Option<Json>)
    ensures
        match r {
            Some(j) => parse_pointer_spec(pointer@) matches Some(segs) && j@ == scaffold_spec(
                segs,
                JsonV::Null,
            ) && path_representable(segs),
            None => parse_pointer_spec(pointer@) is None || (parse_pointer_spec(pointer@)
                matches Some(segs) && !path_representable(segs)),
        },
{
    match StructuralPath::parse(pointer) {
        None => None,
        Some(path) => path.construct_scaffold(Json::Null),
    }
}

} // verus!
