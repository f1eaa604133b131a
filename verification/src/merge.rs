use vstd::prelude::*;
use crate::json::{Json, JsonV, obj_lookup, obj_has_key, entries_view, arr_view, lemma_entries_view_concat, lemma_has_key_same_keys, key_index, wf_json, lemma_lookup_at_index, lemma_lookup_concat};

verus! {

// ---------- specification ----------

/// Deep, right-biased merge of `b` into `a`:
/// - object into object: union of keys; keys in both merge recursively,
///   keys only in `b` are appended, keys only in `a` are preserved;
/// - array into array: element-wise merge by index; where `b` is longer its
///   tail is appended, where `a` is longer its tail is preserved;
/// - any other combination: `b` replaces the node.
pub open spec fn merge_spec(a: JsonV, b: JsonV) -> JsonV
    decreases b,
    via merge_spec_decreases
{
    match b {
        JsonV::Obj(be) => match a {
            JsonV::Obj(ae) => JsonV::Obj(merged_entries_from(ae, be, 0) + entries_not_in(be, ae)),
            _ => b,
        },
        JsonV::Arr(ba) => match a {
            JsonV::Arr(aa) => JsonV::Arr(merged_elems_from(aa, ba, 0)),
            _ => b,
        },
        _ => b,
    }
}

/// The entries of `ae` from position `i` on, each merged with the entry of
/// `be` that shares its key, if any.
pub open spec fn merged_entries_from(
    ae: Seq<(Seq<char>, JsonV)>,
    be: Seq<(Seq<char>, JsonV)>,
    i: int,
) -> Seq<(Seq<char>, JsonV)>
    decreases be, ae.len() - i,
    via merged_entries_from_decreases
{
    if i < 0 || i >= ae.len() {
        Seq::empty()
    } else {
        let merged = match obj_lookup(be, ae[i].0) {
            Some(bv) => merge_spec(ae[i].1, bv),
            None => ae[i].1,
        };
        seq![(ae[i].0, merged)] + merged_entries_from(ae, be, i + 1)
    }
}

/// The elements of `aa` and `ba` from position `i` on, merged by index.
pub open spec fn merged_elems_from(aa: Seq<JsonV>, ba: Seq<JsonV>, i: int) -> Seq<JsonV>
    decreases ba, vstd::math::max(aa.len() as int, ba.len() as int) - i,
    via merged_elems_from_decreases
{
    if i < 0 || (i >= aa.len() && i >= ba.len()) {
        Seq::empty()
    } else {
        let merged = if i < aa.len() && i < ba.len() {
            merge_spec(aa[i], ba[i])
        } else if i < aa.len() {
            aa[i]
        } else {
            ba[i]
        };
        seq![merged] + merged_elems_from(aa, ba, i + 1)
    }
}

/// The entries of `be` whose key has no entry in `ae`, in order.
pub open spec fn entries_not_in(
    be: Seq<(Seq<char>, JsonV)>,
    ae: Seq<(Seq<char>, JsonV)>,
) -> Seq<(Seq<char>, JsonV)>
    decreases be.len(),
{
    if be.len() == 0 {
        Seq::empty()
    } else if obj_has_key(ae, be[0].0) {
        entries_not_in(be.drop_first(), ae)
    } else {
        seq![be[0]] + entries_not_in(be.drop_first(), ae)
    }
}

/// A value an object lookup finds is one of the entry values.
pub proof fn lemma_obj_lookup_element(entries: Seq<(Seq<char>, JsonV)>, key: Seq<char>)
    requires
        obj_has_key(entries, key),
    ensures
        exists|j: int|
            0 <= j < entries.len() && entries[j].0 == key && #[trigger] entries[j].1 == obj_lookup(
                entries,
                key,
            )->Some_0,
    decreases entries.len(),
{
    if entries[0].0 == key {
        assert(entries[0].1 == obj_lookup(entries, key)->Some_0);
    } else {
        lemma_obj_lookup_element(entries.drop_first(), key);
        let j0 = choose|j: int|
            0 <= j < entries.drop_first().len() && entries.drop_first()[j].0 == key
                && #[trigger] entries.drop_first()[j].1 == obj_lookup(entries.drop_first(), key)->Some_0;
        assert(entries[j0 + 1].1 == obj_lookup(entries, key)->Some_0);
    }
}

// ---------- laws ----------

/// What each merged entry is: entry `i + j` of `ae`, its value merged with
/// the entry of `be` that shares its key, if any.
pub proof fn lemma_merged_entries_index(ae: Seq<(Seq<char>, JsonV)>, be: Seq<(Seq<char>, JsonV)>, i: int)
    requires
        0 <= i <= ae.len(),
    ensures
        merged_entries_from(ae, be, i).len() == ae.len() - i,
        forall|t: int| 0 <= t < ae.len() - i ==> #[trigger] merged_entries_from(ae, be, i)[t] == (
            ae[i + t].0,
            match obj_lookup(be, ae[i + t].0) {
                Some(bv) => merge_spec(ae[i + t].1, bv),
                None => ae[i + t].1,
            },
        ),
    decreases ae.len() - i,
{
    if i < ae.len() {
        lemma_merged_entries_index(ae, be, i + 1);
        assert forall|t: int| 0 <= t < ae.len() - i implies #[trigger] merged_entries_from(ae, be, i)[t]
            == (
            ae[i + t].0,
            match obj_lookup(be, ae[i + t].0) {
                Some(bv) => merge_spec(ae[i + t].1, bv),
                None => ae[i + t].1,
            },
        ) by {
            let head = (
                ae[i].0,
                match obj_lookup(be, ae[i].0) {
                    Some(bv) => merge_spec(ae[i].1, bv),
                    None => ae[i].1,
                },
            );
            let rest = merged_entries_from(ae, be, i + 1);
            assert(merged_entries_from(ae, be, i) == seq![head] + rest);
            if t == 0 {
                assert((seq![head] + rest)[0] == head);
            } else {
                assert((seq![head] + rest)[t] == rest[t - 1]);
            }
        }
    }
}

/// What each merged element is: the element of `aa` and of `ba` at that
/// position merged, or whichever of the two reaches that far.
pub proof fn lemma_merged_elems_index(aa: Seq<JsonV>, ba: Seq<JsonV>, i: int)
    requires
        0 <= i,
    ensures
        i <= aa.len() || i <= ba.len() ==> merged_elems_from(aa, ba, i).len() == vstd::math::max(
            aa.len() as int,
            ba.len() as int,
        ) - i,
        forall|t: int| 0 <= t && (i + t < aa.len() || i + t < ba.len()) ==> #[trigger] merged_elems_from(
            aa,
            ba,
            i,
        )[t] == (if i + t < aa.len() && i + t < ba.len() {
            merge_spec(aa[i + t], ba[i + t])
        } else if i + t < aa.len() {
            aa[i + t]
        } else {
            ba[i + t]
        }),
    decreases vstd::math::max(aa.len() as int, ba.len() as int) - i,
{
    if i < aa.len() || i < ba.len() {
        lemma_merged_elems_index(aa, ba, i + 1);
        assert forall|t: int| 0 <= t && (i + t < aa.len() || i + t < ba.len()) implies #[trigger] merged_elems_from(
            aa,
            ba,
            i,
        )[t] == (if i + t < aa.len() && i + t < ba.len() {
            merge_spec(aa[i + t], ba[i + t])
        } else if i + t < aa.len() {
            aa[i + t]
        } else {
            ba[i + t]
        }) by {
            let head = if i < aa.len() && i < ba.len() {
                merge_spec(aa[i], ba[i])
            } else if i < aa.len() {
                aa[i]
            } else {
                ba[i]
            };
            let rest = merged_elems_from(aa, ba, i + 1);
            assert(merged_elems_from(aa, ba, i) == seq![head] + rest);
            if t == 0 {
                assert((seq![head] + rest)[0] == head);
            } else {
                assert((seq![head] + rest)[t] == rest[t - 1]);
            }
        }
    }
}

/// A key of `be` missing from `ae` stands among the appended entries.
pub proof fn lemma_entries_not_in_has(
    be: Seq<(Seq<char>, JsonV)>,
    ae: Seq<(Seq<char>, JsonV)>,
    key: Seq<char>,
)
    requires
        obj_has_key(be, key),
        !obj_has_key(ae, key),
    ensures
        obj_has_key(entries_not_in(be, ae), key),
    decreases be.len(),
{
    if be[0].0 == key {
        assert(entries_not_in(be, ae)[0] == be[0]);
    } else {
        lemma_entries_not_in_has(be.drop_first(), ae, key);
        if obj_has_key(ae, be[0].0) {
        } else {
            lemma_lookup_concat(seq![be[0]], entries_not_in(be.drop_first(), ae), key);
            assert((seq![be[0]] + entries_not_in(be.drop_first(), ae))[0] == be[0]);
            assert(!obj_has_key(seq![be[0]], key)) by {
                assert(seq![be[0]][0] == be[0]);
                assert(obj_lookup(seq![be[0]].drop_first(), key) is None);
            }
        }
    }
}

/// Every appended entry is an entry of `be` whose key `ae` does not hold.
pub proof fn lemma_entries_not_in_element(be: Seq<(Seq<char>, JsonV)>, ae: Seq<(Seq<char>, JsonV)>)
    ensures
        forall|t: int| 0 <= t < entries_not_in(be, ae).len() ==> exists|j: int|
            0 <= j < be.len() && #[trigger] entries_not_in(be, ae)[t] == be[j] && !obj_has_key(
                ae,
                be[j].0,
            ),
    decreases be.len(),
{
    if be.len() > 0 {
        lemma_entries_not_in_element(be.drop_first(), ae);
        let rest = entries_not_in(be.drop_first(), ae);
        assert forall|t: int| 0 <= t < entries_not_in(be, ae).len() implies exists|j: int|
            0 <= j < be.len() && #[trigger] entries_not_in(be, ae)[t] == be[j] && !obj_has_key(
                ae,
                be[j].0,
            ) by {
            if obj_has_key(ae, be[0].0) {
                let j0 = choose|j: int|
                    0 <= j < be.drop_first().len() && #[trigger] rest[t] == be.drop_first()[j]
                        && !obj_has_key(ae, be.drop_first()[j].0);
                assert(entries_not_in(be, ae)[t] == be[j0 + 1]);
            } else {
                if t == 0 {
                    assert(entries_not_in(be, ae)[0] == be[0]);
                } else {
                    let j0 = choose|j: int|
                        0 <= j < be.drop_first().len() && #[trigger] rest[t - 1] == be.drop_first()[j]
                            && !obj_has_key(ae, be.drop_first()[j].0);
                    assert(entries_not_in(be, ae)[t] == be[j0 + 1]);
                }
            }
        }
    }
}

/// Merging never removes what only the target holds: every key of a target
/// object stays addressable in the merged object, and a merged array is at
/// least as long as the target array.
pub proof fn lemma_merge_never_removes(ae: Seq<(Seq<char>, JsonV)>, be: Seq<(Seq<char>, JsonV)>, aa: Seq<JsonV>, ba: Seq<JsonV>)
    ensures
        forall|key: Seq<char>| #[trigger] obj_has_key(ae, key) ==> (merge_spec(
            JsonV::Obj(ae),
            JsonV::Obj(be),
        ) matches JsonV::Obj(me) && obj_has_key(me, key)),
        merge_spec(JsonV::Arr(aa), JsonV::Arr(ba)) matches JsonV::Arr(ma) && ma.len() >= aa.len(),
{
    lemma_merged_entries_index(ae, be, 0);
    let shared = merged_entries_from(ae, be, 0);
    assert forall|key: Seq<char>| #[trigger] obj_has_key(ae, key) implies (merge_spec(
        JsonV::Obj(ae),
        JsonV::Obj(be),
    ) matches JsonV::Obj(me) && obj_has_key(me, key)) by {
        assert forall|k: int| 0 <= k < shared.len() implies (#[trigger] shared[k]).0 == ae[k].0 by {}
        lemma_has_key_same_keys(shared, ae, key);
        lemma_lookup_concat(shared, entries_not_in(be, ae), key);
    }
    lemma_merged_elems_index(aa, ba, 0);
}

/// Every entry key of an object is a key the object holds.
pub proof fn lemma_has_key_of_index(es: Seq<(Seq<char>, JsonV)>, t: int)
    requires
        0 <= t < es.len(),
    ensures
        obj_has_key(es, es[t].0),
    decreases t,
{
    if es[0].0 != es[t].0 {
        lemma_has_key_of_index(es.drop_first(), t - 1);
        assert(es.drop_first()[t - 1] == es[t]);
    }
}

/// With every key of `be` already present in `ae`, nothing is appended.
pub proof fn lemma_entries_not_in_empty(be: Seq<(Seq<char>, JsonV)>, ae: Seq<(Seq<char>, JsonV)>)
    requires
        forall|t: int| 0 <= t < be.len() ==> obj_has_key(ae, (#[trigger] be[t]).0),
    ensures
        entries_not_in(be, ae).len() == 0,
    decreases be.len(),
{
    if be.len() > 0 {
        assert forall|t: int| 0 <= t < be.drop_first().len() implies obj_has_key(
            ae,
            (#[trigger] be.drop_first()[t]).0,
        ) by {
            assert(be[t + 1] == be.drop_first()[t]);
        }
        lemma_entries_not_in_empty(be.drop_first(), ae);
    }
}

/// A well-formed document merged into itself is unchanged.
pub proof fn lemma_merge_self(v: JsonV)
    requires
        wf_json(v),
    ensures
        merge_spec(v, v) == v,
    decreases v,
{
    match v {
        JsonV::Obj(es) => {
            lemma_merged_entries_index(es, es, 0);
            assert forall|t: int| 0 <= t < es.len() implies #[trigger] merged_entries_from(es, es, 0)[t]
                == es[t] by {
                assert forall|m: int| 0 <= m < t implies (#[trigger] es[m]).0 != es[t].0 by {}
                lemma_lookup_at_index(es, t);
                assert(decreases_to!(v => es));
                assert(decreases_to!(es => es[t]));
                assert(decreases_to!(es[t] => es[t].1));
                lemma_merge_self(es[t].1);
            }
            assert forall|t: int| 0 <= t < es.len() implies obj_has_key(es, (#[trigger] es[t]).0) by {
                lemma_has_key_of_index(es, t);
            }
            lemma_entries_not_in_empty(es, es);
            assert(merged_entries_from(es, es, 0) + entries_not_in(es, es) =~= es);
            assert(merge_spec(v, v) =~= v);
        },
        JsonV::Arr(s) => {
            lemma_merged_elems_index(s, s, 0);
            assert forall|t: int| 0 <= t < s.len() implies #[trigger] merged_elems_from(s, s, 0)[t]
                == s[t] by {
                assert(decreases_to!(v => s));
                assert(decreases_to!(s => s[t]));
                lemma_merge_self(s[t]);
            }
            assert(merged_elems_from(s, s, 0) =~= s);
            assert(merge_spec(v, v) =~= v);
        },
        _ => {},
    }
}

/// Merging the same well-formed value twice is the same as merging it once.
pub proof fn lemma_merge_idempotent(a: JsonV, b: JsonV)
    requires
        wf_json(a),
        wf_json(b),
    ensures
        merge_spec(merge_spec(a, b), b) == merge_spec(a, b),
    decreases b,
{
    let m = merge_spec(a, b);
    match b {
        JsonV::Obj(be) => {
            match a {
                JsonV::Obj(ae) => {
                    let shared = merged_entries_from(ae, be, 0);
                    let fresh = entries_not_in(be, ae);
                    let ms = shared + fresh;
                    lemma_merged_entries_index(ae, be, 0);
                    lemma_entries_not_in_element(be, ae);
                    lemma_merged_entries_index(ms, be, 0);
                    assert forall|t: int| 0 <= t < ms.len() implies #[trigger] merged_entries_from(
                        ms,
                        be,
                        0,
                    )[t] == ms[t] by {
                        if t < shared.len() {
                            assert(ms[t] == shared[t]);
                            assert(shared[t].0 == ae[t].0);
                            match obj_lookup(be, ae[t].0) {
                                Some(bv) => {
                                    lemma_obj_lookup_element(be, ae[t].0);
                                    let j = choose|j: int|
                                        0 <= j < be.len() && be[j].0 == ae[t].0 && #[trigger] be[j].1
                                            == obj_lookup(be, ae[t].0)->Some_0;
                                    assert(wf_json(be[j].1));
                                    assert(wf_json(ae[t].1));
                                    assert(decreases_to!(b => be));
                                    assert(decreases_to!(be => be[j]));
                                    assert(decreases_to!(be[j] => be[j].1));
                                    lemma_merge_idempotent(ae[t].1, bv);
                                },
                                None => {},
                            }
                        } else {
                            let u = t - shared.len();
                            assert(ms[t] == fresh[u]);
                            let j = choose|j: int|
                                0 <= j < be.len() && #[trigger] fresh[u] == be[j] && !obj_has_key(
                                    ae,
                                    be[j].0,
                                );
                            assert forall|mm: int| 0 <= mm < j implies (#[trigger] be[mm]).0 != be[j].0 by {}
                            lemma_lookup_at_index(be, j);
                            assert(obj_lookup(be, ms[t].0) == Some(be[j].1));
                            assert(wf_json(be[j].1));
                            assert(decreases_to!(b => be));
                            assert(decreases_to!(be => be[j]));
                            assert(decreases_to!(be[j] => be[j].1));
                            lemma_merge_self(be[j].1);
                        }
                    }
                    assert forall|t: int| 0 <= t < be.len() implies obj_has_key(ms, (#[trigger] be[t]).0) by {
                        assert forall|k: int| 0 <= k < shared.len() implies (#[trigger] shared[k]).0
                            == ae[k].0 by {}
                        if obj_has_key(ae, be[t].0) {
                            lemma_has_key_same_keys(shared, ae, be[t].0);
                        } else {
                            lemma_has_key_of_index(be, t);
                            lemma_entries_not_in_has(be, ae, be[t].0);
                        }
                        lemma_lookup_concat(shared, fresh, be[t].0);
                    }
                    lemma_entries_not_in_empty(be, ms);
                    assert(merged_entries_from(ms, be, 0) + entries_not_in(be, ms) =~= ms);
                    assert(merge_spec(m, b) =~= m);
                },
                _ => {
                    lemma_merge_self(b);
                },
            }
        },
        JsonV::Arr(ba) => {
            match a {
                JsonV::Arr(aa) => {
                    let ms = merged_elems_from(aa, ba, 0);
                    lemma_merged_elems_index(aa, ba, 0);
                    lemma_merged_elems_index(ms, ba, 0);
                    assert(ms.len() >= ba.len());
                    assert forall|t: int| 0 <= t < ms.len() implies #[trigger] merged_elems_from(
                        ms,
                        ba,
                        0,
                    )[t] == ms[t] by {
                        if t < ba.len() {
                            assert(decreases_to!(b => ba));
                            assert(decreases_to!(ba => ba[t]));
                            assert(wf_json(ba[t]));
                            if t < aa.len() {
                                assert(ms[t] == merge_spec(aa[t], ba[t]));
                                assert(wf_json(aa[t]));
                                lemma_merge_idempotent(aa[t], ba[t]);
                            } else {
                                assert(ms[t] == ba[t]);
                                lemma_merge_self(ba[t]);
                            }
                        }
                    }
                    assert(merged_elems_from(ms, ba, 0) =~= ms);
                    assert(merge_spec(m, b) =~= m);
                },
                _ => {
                    lemma_merge_self(b);
                },
            }
        },
        _ => {},
    }
}

// ---------- executable ----------

/// Deep, right-biased merge of `b` into `a`, returning the merged tree.
#[verifier::loop_isolation(false)]
pub fn merge_owned(a: Json, b: Json) -> (r: Json)
    ensures
        r@ == merge_spec(a@, b@),
    decreases b@,
{
    let ghost aview = a@;
    let ghost bview = b@;
    match b {
        Json::Null => Json::Null,
        Json::Bool(x) => Json::Bool(x),
        Json::Num(s) => Json::Num(s),
        Json::Str(s) => Json::Str(s),
        Json::Arr(mut ba) => {
            match a {
                Json::Arr(mut aa) => {
                    let ghost aa0 = arr_view(aa@);
                    let ghost ba0 = arr_view(ba@);
                    let la = aa.len();
                    let lb = ba.len();
                    let mut out: Vec<Json> = Vec::new();
                    let mut i: usize = 0;
                    while i < la || i < lb
                        invariant
                            aa.len() == la,
                            ba.len() == lb,
                            i <= la || i <= lb,
                            forall|m: int| i <= m < la ==> arr_view(aa@)[m] == aa0[m],
                            forall|m: int| i <= m < lb ==> arr_view(ba@)[m] == ba0[m],
                            merged_elems_from(aa0, ba0, 0) == arr_view(out@) + merged_elems_from(
                                aa0,
                                ba0,
                                i as int,
                            ),
                        decreases vstd::math::max(la as int, lb as int) - i,
                    {
                        let ghost out_pre = arr_view(out@);
                        if i < la && i < lb {
                            let mut ax = Json::Null;
                            core::mem::swap(&mut aa[i], &mut ax);
                            let mut bx = Json::Null;
                            core::mem::swap(&mut ba[i], &mut bx);
                            proof {
                                assert(ax@ == aa0[i as int]);
                                assert(bx@ == ba0[i as int]);
                                assert(decreases_to!(bview => ba0));
                                assert(decreases_to!(ba0 => ba0[i as int]));
                            }
                            let m = merge_owned(ax, bx);
                            out.push(m);
                            proof {
                                assert(arr_view(out@) =~= out_pre + seq![merge_spec(aa0[i as int], ba0[i as int])]);
                            }
                        } else if i < la {
                            let mut ax = Json::Null;
                            core::mem::swap(&mut aa[i], &mut ax);
                            out.push(ax);
                            proof {
                                assert(arr_view(out@) =~= out_pre + seq![aa0[i as int]]);
                            }
                        } else {
                            let mut bx = Json::Null;
                            core::mem::swap(&mut ba[i], &mut bx);
                            out.push(bx);
                            proof {
                                assert(arr_view(out@) =~= out_pre + seq![ba0[i as int]]);
                            }
                        }
                        proof {
                            assert(forall|m: int| i + 1 <= m < la ==> arr_view(aa@)[m] == aa0[m]);
                            assert(forall|m: int| i + 1 <= m < lb ==> arr_view(ba@)[m] == ba0[m]);
                            assert(merged_elems_from(aa0, ba0, i as int) == seq![
                                merged_elems_from(aa0, ba0, 0)[0],
                            ].drop_first() + merged_elems_from(aa0, ba0, i as int));
                            assert(merged_elems_from(aa0, ba0, 0) =~= arr_view(out@) + merged_elems_from(
                                aa0,
                                ba0,
                                i + 1,
                            ));
                        }
                        i = i + 1;
                    }
                    let r = Json::Arr(out);
                    proof {
                        assert(merged_elems_from(aa0, ba0, i as int) =~= Seq::<JsonV>::empty());
                        assert(arr_view(out@) =~= merged_elems_from(aa0, ba0, 0));
                        assert(r@ == merge_spec(aview, bview));
                    }
                    r
                },
                _ => {
                    let r = Json::Arr(ba);
                    proof {
                        assert(r@ == bview);
                    }
                    r
                },
            }
        },
        Json::Obj(mut be) => {
            match a {
                Json::Obj(mut ae) => {
                    let ghost ae0 = entries_view(ae@);
                    let ghost be0 = entries_view(be@);
                    // First pass: merge the incoming value into every entry
                    // whose key the incoming object also holds.
                    let mut i: usize = 0;
                    while i < ae.len()
                        invariant
                            ae.len() == ae0.len(),
                            i <= ae.len(),
                            entries_view(be@) == be0,
                            forall|m: int| i <= m < ae0.len() ==> entries_view(ae@)[m] == ae0[m],
                            forall|m: int| 0 <= m < ae0.len() ==> (#[trigger] entries_view(ae@)[m]).0
                                == ae0[m].0,
                            merged_entries_from(ae0, be0, 0) == entries_view(ae@).take(i as int)
                                + merged_entries_from(ae0, be0, i as int),
                        decreases ae0.len() - i,
                    {
                        let ghost ae_head = ae@;
                        let ghost pre = entries_view(ae@).take(i as int);
                        let j_opt = key_index(&be, ae[i].0.as_str());
                        proof {
                            assert(entries_view(ae@)[i as int] == ae0[i as int]);
                            assert(entries_view(ae@)[i as int].0 == ae@[i as int].0@);
                        }
                        match j_opt {
                            Some(j) => {
                                let bclone = be[j].1.deep_clone();
                                let mut tmp = Json::Null;
                                core::mem::swap(&mut ae[i].1, &mut tmp);
                                proof {
                                    assert(bclone@ == be0[j as int].1);
                                    assert(obj_lookup(be0, ae0[i as int].0) == Some(bclone@));
                                    assert(tmp@ == ae0[i as int].1);
                                    lemma_obj_lookup_element(be0, ae0[i as int].0);
                                    let jj = choose|jj: int|
                                        0 <= jj < be0.len() && be0[jj].0 == ae0[i as int].0
                                            && #[trigger] be0[jj].1 == obj_lookup(be0, ae0[i as int].0)->Some_0;
                                    assert(decreases_to!(bview => be0));
                                    assert(decreases_to!(be0 => be0[jj]));
                                    assert(decreases_to!(be0[jj] => be0[jj].1));
                                }
                                let mut m = merge_owned(tmp, bclone);
                                core::mem::swap(&mut ae[i].1, &mut m);
                            },
                            None => {},
                        }
                        proof {
                            assert forall|m: int| 0 <= m < ae0.len() implies (#[trigger] entries_view(ae@)[m]).0
                                == ae0[m].0 by {
                                assert(entries_view(ae_head)[m].0 == ae0[m].0);
                                assert(entries_view(ae@)[m].0 == ae@[m].0@);
                                if m != i as int {
                                    assert(ae@[m] == ae_head[m]);
                                }
                            }
                            let elem = entries_view(ae@)[i as int];
                            assert(entries_view(ae@).take(i + 1) =~= pre + seq![elem]);
                            assert(merged_entries_from(ae0, be0, 0) =~= entries_view(ae@).take(i + 1)
                                + merged_entries_from(ae0, be0, i + 1));
                        }
                        i = i + 1;
                    }
                    proof {
                        assert(entries_view(ae@).take(i as int) =~= entries_view(ae@));
                        assert(entries_view(ae@) == merged_entries_from(ae0, be0, 0));
                    }
                    // Second pass: append the incoming entries whose key the
                    // target does not hold.
                    let mut extra: Vec<(String, Json)> = Vec::new();
                    let ghost merged0 = entries_view(ae@);
                    proof {
                        assert(be0.skip(0) =~= be0);
                        assert(entries_view(extra@) =~= Seq::<(Seq<char>, JsonV)>::empty());
                        assert(entries_not_in(be0, ae0) =~= entries_view(extra@) + entries_not_in(
                            be0.skip(0),
                            ae0,
                        ));
                    }
                    let ghost mut j: int = 0;
                    while be.len() > 0
                        invariant
                            j <= be0.len(),
                            entries_view(be@).len() == be0.len() - j,
                            0 <= j,
                            entries_view(be@) == be0.skip(j),
                            entries_view(ae@) == merged0,
                            ae.len() == ae0.len(),
                            forall|m: int| 0 <= m < ae0.len() ==> (#[trigger] entries_view(ae@)[m]).0
                                == ae0[m].0,
                            entries_not_in(be0, ae0) == entries_view(extra@) + entries_not_in(
                                be0.skip(j),
                                ae0,
                            ),
                        decreases be.len(),
                    {
                        let ghost extra_pre = entries_view(extra@);
                        proof {
                            assert(entries_view(be@).len() == be@.len());
                            assert(j < be0.len());
                            assert(be0.skip(j)[0] == be0[j]);
                            assert(be0.skip(j).drop_first() =~= be0.skip(j + 1));
                        }
                        let e = be.remove(0);
                        proof {
                            assert(entries_view(be@) =~= be0.skip(j + 1));
                            assert(e.0@ == be0[j].0);
                            assert(e.1@ == be0[j].1);
                        }
                        let present = key_index(&ae, e.0.as_str());
                        proof {
                            lemma_has_key_same_keys(entries_view(ae@), ae0, e.0@);
                        }
                        match present {
                            Some(_) => {},
                            None => {
                                extra.push(e);
                                proof {
                                    assert(entries_view(extra@) =~= extra_pre + seq![be0[j]]);
                                }
                            },
                        }
                        proof {
                            j = j + 1;
                        }
                    }
                    proof {
                        assert(be0.skip(j).len() == 0);
                        assert(entries_not_in(be0.skip(j), ae0) =~= Seq::<(Seq<char>, JsonV)>::empty());
                        assert(entries_view(extra@) =~= entries_not_in(be0, ae0));
                    }
                    let ghost ae_snapshot = ae@;
                    let ghost extra_snapshot = extra@;
                    ae.append(&mut extra);
                    let r = Json::Obj(ae);
                    proof {
                        lemma_entries_view_concat(ae_snapshot, extra_snapshot);
                        assert(r@ == merge_spec(aview, bview));
                    }
                    r
                },
                _ => {
                    let r = Json::Obj(be);
                    proof {
                        assert(r@ == bview);
                    }
                    r
                },
            }
        },
    }
}

/// Deep, right-biased merge of `incoming` into `target`, in place.
pub fn merge(target: &mut Json, incoming: Json)
    ensures
        final(target)@ == merge_spec(old(target)@, incoming@),
{
    let mut tmp = Json::Null;
    core::mem::swap(target, &mut tmp);
    let mut merged = merge_owned(tmp, incoming);
    core::mem::swap(target, &mut merged);
}

#[via_fn]
proof fn merge_spec_decreases(a: JsonV, b: JsonV) {
    match b {
        JsonV::Obj(be) => {
            assert(decreases_to!(b => be));
        },
        JsonV::Arr(ba) => {
            assert(decreases_to!(b => ba));
        },
        _ => {},
    }
}

#[via_fn]
proof fn merged_entries_from_decreases(ae: Seq<(Seq<char>, JsonV)>, be: Seq<(Seq<char>, JsonV)>, i: int) {
    if 0 <= i < ae.len() {
        let key = ae[i].0;
        if obj_has_key(be, key) {
            lemma_obj_lookup_element(be, key);
            let j = choose|j: int|
                0 <= j < be.len() && be[j].0 == key && #[trigger] be[j].1 == obj_lookup(be, key)->Some_0;
            assert(decreases_to!(be => be[j]));
            assert(decreases_to!(be[j] => be[j].1));
        }
    }
}

#[via_fn]
proof fn merged_elems_from_decreases(aa: Seq<JsonV>, ba: Seq<JsonV>, i: int) {
    if 0 <= i < aa.len() && i < ba.len() {
        assert(decreases_to!(ba => ba[i]));
    }
}

} // verus!

