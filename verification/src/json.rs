use vstd::prelude::*;
use crate::strutil::str_eq;

verus! {

/// A JSON-like document tree: null, boolean, number, string,
/// ordered-key object and indexed array nodes.
///
/// A number carries its literal text, so that moving a value between
/// documents never changes how it is written.
#[derive(Debug)]
pub enum Json {
    Null,
    Bool(bool),
    Num(String),
    Str(String),
    Arr(Vec<Json>),
    Obj(Vec<(String, Json)>),
}

/// The mathematical model of a document tree.
#[verifier::ext_equal]
pub enum JsonV {
    Null,
    Bool(bool),
    Num(Seq<char>),
    Str(Seq<char>),
    Arr(Seq<JsonV>),
    Obj(Seq<(Seq<char>, JsonV)>),
}

/// The model of a document node.
pub open spec fn json_view(j: Json) -> JsonV
    decreases j,
{
    match j {
        Json::Null => JsonV::Null,
        Json::Bool(b) => JsonV::Bool(b),
        Json::Num(s) => JsonV::Num(s@),
        Json::Str(s) => JsonV::Str(s@),
        Json::Arr(v) => JsonV::Arr(arr_view(v@)),
        Json::Obj(v) => JsonV::Obj(entries_view(v@)),
    }
}

/// The models of the elements of an array node.
pub open spec fn arr_view(s: Seq<Json>) -> Seq<JsonV>
    decreases s,
{
    Seq::new(s.len(), |i: int| if 0 <= i < s.len() { json_view(s[i]) } else { JsonV::Null })
}

/// The models of the entries of an object node.
pub open spec fn entries_view(s: Seq<(String, Json)>) -> Seq<(Seq<char>, JsonV)>
    decreases s,
{
    Seq::new(
        s.len(),
        |i: int| if 0 <= i < s.len() { (s[i].0@, json_view(s[i].1)) } else { (Seq::empty(), JsonV::Null) },
    )
}

impl View for Json {
    type V = JsonV;

    open spec fn view(&self) -> JsonV {
        json_view(*self)
    }
}

/// The value under the first entry of `entries` whose key is `key`,
/// if any: how a key addresses a field of an object node.
pub open spec fn obj_lookup(entries: Seq<(Seq<char>, JsonV)>, key: Seq<char>) -> Option<JsonV>
    decreases entries.len(),
{
    if entries.len() == 0 {
        None
    } else if entries[0].0 == key {
        Some(entries[0].1)
    } else {
        obj_lookup(entries.drop_first(), key)
    }
}

/// Whether some entry of `entries` has key `key`.
pub open spec fn obj_has_key(entries: Seq<(Seq<char>, JsonV)>, key: Seq<char>) -> bool {
    obj_lookup(entries, key) is Some
}

/// Well-formedness of a document: every object node holds pairwise-distinct
/// keys.  Documents read from JSON text always satisfy this.
pub open spec fn wf_json(v: JsonV) -> bool
    decreases v,
    via wf_json_decreases
{
    match v {
        JsonV::Obj(es) => (forall|i: int, j: int|
            0 <= i < j < es.len() ==> (#[trigger] es[i]).0 != (#[trigger] es[j]).0) && (forall|i: int|
            0 <= i < es.len() ==> wf_json((#[trigger] es[i]).1)),
        JsonV::Arr(s) => forall|i: int| 0 <= i < s.len() ==> wf_json(#[trigger] s[i]),
        _ => true,
    }
}

#[via_fn]
proof fn wf_json_decreases(v: JsonV) {
    match v {
        JsonV::Obj(es) => {
            assert forall|i: int| 0 <= i < es.len() implies decreases_to!(v => (#[trigger] es[i]).1) by {
                assert(decreases_to!(v => es));
                assert(decreases_to!(es => es[i]));
                assert(decreases_to!(es[i] => es[i].1));
            }
        },
        JsonV::Arr(s) => {
            assert forall|i: int| 0 <= i < s.len() implies decreases_to!(v => #[trigger] s[i]) by {
                assert(decreases_to!(v => s));
                assert(decreases_to!(s => s[i]));
            }
        },
        _ => {},
    }
}

/// An object without a key holds no entry with that key.
pub proof fn lemma_not_has_key_all(es: Seq<(Seq<char>, JsonV)>, key: Seq<char>)
    requires
        !obj_has_key(es, key),
    ensures
        forall|i: int| 0 <= i < es.len() ==> (#[trigger] es[i]).0 != key,
    decreases es.len(),
{
    if es.len() > 0 {
        lemma_not_has_key_all(es.drop_first(), key);
        assert forall|i: int| 0 <= i < es.len() implies (#[trigger] es[i]).0 != key by {
            if i > 0 {
                assert(es.drop_first()[i - 1].0 != key);
            }
        }
    }
}

/// Where the first `i` entries avoid the key of entry `i`, the lookup of
/// that key finds entry `i`.
pub proof fn lemma_lookup_at_index(es: Seq<(Seq<char>, JsonV)>, i: int)
    requires
        0 <= i < es.len(),
        forall|m: int| 0 <= m < i ==> (#[trigger] es[m]).0 != es[i].0,
    ensures
        obj_lookup(es, es[i].0) == Some(es[i].1),
    decreases i,
{
    if i > 0 {
        assert forall|m: int| 0 <= m < i - 1 implies (#[trigger] es.drop_first()[m]).0 != es.drop_first()[i
            - 1].0 by {
            assert(es[m + 1].0 != es[i].0);
        }
        lemma_lookup_at_index(es.drop_first(), i - 1);
    }
}

/// A lookup over a concatenation reads the left part first.
pub proof fn lemma_lookup_concat(x: Seq<(Seq<char>, JsonV)>, y: Seq<(Seq<char>, JsonV)>, key: Seq<char>)
    ensures
        obj_lookup(x + y, key) == if obj_has_key(x, key) {
            obj_lookup(x, key)
        } else {
            obj_lookup(y, key)
        },
    decreases x.len(),
{
    if x.len() == 0 {
        assert(x + y =~= y);
    } else {
        assert((x + y)[0] == x[0]);
        if x[0].0 == key {
        } else {
            assert((x + y).drop_first() =~= x.drop_first() + y);
            lemma_lookup_concat(x.drop_first(), y, key);
        }
    }
}

/// Entry views distribute over concatenation of entry lists.
pub proof fn lemma_entries_view_concat(x: Seq<(String, Json)>, y: Seq<(String, Json)>)
    ensures
        entries_view(x + y) == entries_view(x) + entries_view(y),
{
    assert forall|k: int| 0 <= k < (x + y).len() implies entries_view(x + y)[k] == (entries_view(x)
        + entries_view(y))[k] by {
        if k < x.len() {
            assert((x + y)[k] == x[k]);
        } else {
            assert((x + y)[k] == y[k - x.len()]);
        }
    }
    assert(entries_view(x + y) =~= entries_view(x) + entries_view(y));
}

/// Two entry lists with the same keys in the same order hold the same keys.
pub proof fn lemma_has_key_same_keys(
    xs: Seq<(Seq<char>, JsonV)>,
    ys: Seq<(Seq<char>, JsonV)>,
    key: Seq<char>,
)
    requires
        xs.len() == ys.len(),
        forall|i: int| 0 <= i < xs.len() ==> (#[trigger] xs[i]).0 == ys[i].0,
    ensures
        obj_has_key(xs, key) == obj_has_key(ys, key),
    decreases xs.len(),
{
    if xs.len() > 0 {
        if xs[0].0 == key {
        } else {
            assert forall|i: int| 0 <= i < xs.drop_first().len() implies (#[trigger] xs.drop_first()[i]).0
                == ys.drop_first()[i].0 by {
                assert(xs[i + 1].0 == ys[i + 1].0);
            }
            lemma_has_key_same_keys(xs.drop_first(), ys.drop_first(), key);
        }
    }
}

impl Json {
    /// A structural copy of the node.
    #[verifier::loop_isolation(false)]
    pub fn deep_clone(&self) -> (r: Json)
        ensures
            r@ == self@,
        decreases self,
    {
        match self {
            Json::Null => Json::Null,
            Json::Bool(b) => Json::Bool(*b),
            Json::Num(s) => Json::Num(s.clone()),
            Json::Str(s) => Json::Str(s.clone()),
            Json::Arr(v) => {
                let mut out: Vec<Json> = Vec::new();
                let mut i: usize = 0;
                while i < v.len()
                    invariant
                        i <= v.len(),
                        out.len() == i,
                        forall|k: int| 0 <= k < i ==> out[k]@ == #[trigger] v[k]@,
                    decreases v.len() - i,
                {
                    proof {
                        assert(decreases_to!(*self => *v));
                        assert(decreases_to!(*v => v[i as int]));
                    }
                    out.push(v[i].deep_clone());
                    i = i + 1;
                }
                let r = Json::Arr(out);
                proof {
                    assert(*self == Json::Arr(*v));
                    assert forall|k: int| 0 <= k < v.len() implies arr_view(r->Arr_0@)[k] == #[trigger] arr_view(
                        v@,
                    )[k] by {
                        assert(arr_view(r->Arr_0@)[k] == v[k]@);
                    }
                    assert(arr_view(r->Arr_0@) =~= arr_view(v@));
                }
                r
            },
            Json::Obj(v) => {
                let mut out: Vec<(String, Json)> = Vec::new();
                let mut i: usize = 0;
                while i < v.len()
                    invariant
                        i <= v.len(),
                        out.len() == i,
                        forall|k: int| #![trigger out[k], v[k]] 0 <= k < i ==> out[k].0@ == v[k].0@
                            && out[k].1@ == v[k].1@,
                    decreases v.len() - i,
                {
                    proof {
                        assert(decreases_to!(*self => *v));
                        assert(decreases_to!(*v => v[i as int]));
                    }
                    let key = v[i].0.clone();
                    let val = v[i].1.deep_clone();
                    out.push((key, val));
                    i = i + 1;
                }
                let r = Json::Obj(out);
                proof {
                    assert(*self == Json::Obj(*v));
                    assert forall|k: int| 0 <= k < v.len() implies entries_view(r->Obj_0@)[k] == #[trigger] entries_view(
                        v@,
                    )[k] by {
                        assert(entries_view(r->Obj_0@)[k] == (v[k].0@, v[k].1@));
                    }
                    assert(entries_view(r->Obj_0@) =~= entries_view(v@));
                }
                r
            },
        }
    }
}

/// Whether two documents are structurally equal.
#[verifier::loop_isolation(false)]
pub fn json_eq(a: &Json, b: &Json) -> (r: bool)
    ensures
        r == (a@ == b@),
    decreases a,
{
    match (a, b) {
        (Json::Null, Json::Null) => true,
        (Json::Bool(x), Json::Bool(y)) => x == y,
        (Json::Num(x), Json::Num(y)) => str_eq(x.as_str(), y.as_str()),
        (Json::Str(x), Json::Str(y)) => str_eq(x.as_str(), y.as_str()),
        (Json::Arr(x), Json::Arr(y)) => {
            if x.len() != y.len() {
                proof {
                    assert(arr_view(x@).len() == x@.len());
                    assert(arr_view(y@).len() == y@.len());
                }
                return false;
            }
            let mut i: usize = 0;
            while i < x.len()
                invariant
                    i <= x.len(),
                    x.len() == y.len(),
                    forall|k: int| 0 <= k < i ==> arr_view(x@)[k] == #[trigger] arr_view(y@)[k],
                decreases x.len() - i,
            {
                proof {
                    assert(decreases_to!(*a => *x));
                    assert(decreases_to!(*x => x[i as int]));
                    assert(arr_view(x@)[i as int] == x[i as int]@);
                    assert(arr_view(y@)[i as int] == y[i as int]@);
                }
                if !json_eq(&x[i], &y[i]) {
                    proof {
                        assert(arr_view(x@)[i as int] != arr_view(y@)[i as int]);
                    }
                    return false;
                }
                i = i + 1;
            }
            proof {
                assert(arr_view(x@) =~= arr_view(y@));
            }
            true
        },
        (Json::Obj(x), Json::Obj(y)) => {
            if x.len() != y.len() {
                proof {
                    assert(entries_view(x@).len() == x@.len());
                    assert(entries_view(y@).len() == y@.len());
                }
                return false;
            }
            let mut i: usize = 0;
            while i < x.len()
                invariant
                    i <= x.len(),
                    x.len() == y.len(),
                    forall|k: int| 0 <= k < i ==> entries_view(x@)[k] == #[trigger] entries_view(y@)[k],
                decreases x.len() - i,
            {
                proof {
                    assert(decreases_to!(*a => *x));
                    assert(decreases_to!(*x => x[i as int]));
                    assert(entries_view(x@)[i as int] == (x[i as int].0@, x[i as int].1@));
                    assert(entries_view(y@)[i as int] == (y[i as int].0@, y[i as int].1@));
                }
                if !str_eq(x[i].0.as_str(), y[i].0.as_str()) {
                    proof {
                        assert(entries_view(x@)[i as int] != entries_view(y@)[i as int]);
                    }
                    return false;
                }
                if !json_eq(&x[i].1, &y[i].1) {
                    proof {
                        assert(entries_view(x@)[i as int] != entries_view(y@)[i as int]);
                    }
                    return false;
                }
                i = i + 1;
            }
            proof {
                assert(entries_view(x@) =~= entries_view(y@));
            }
            true
        },
        _ => false,
    }
}

/// The position of the first entry of `entries` whose key is `k`.
#[verifier::loop_isolation(false)]
pub fn key_index(entries: &Vec<(String, Json)>, k: &str) -> (r: Option<usize>)
    ensures
        match r {
            Some(j) => j < entries.len() && entries_view(entries@)[j as int].0 == k@ && obj_lookup(
                entries_view(entries@),
                k@,
            ) == Some(entries_view(entries@)[j as int].1),
            None => !obj_has_key(entries_view(entries@), k@),
        },
        r matches Some(j) ==> forall|m: int| 0 <= m < j ==> (#[trigger] entries_view(entries@)[m]).0 != k@,
{
    let ghost es = entries_view(entries@);
    proof {
        assert(es.skip(0) =~= es);
    }
    let mut i: usize = 0;
    while i < entries.len()
        invariant
            i <= entries.len(),
            obj_lookup(es, k@) == obj_lookup(es.skip(i as int), k@),
            forall|m: int| 0 <= m < i ==> (#[trigger] es[m]).0 != k@,
        decreases entries.len() - i,
    {
        proof {
            assert(es.skip(i as int)[0] == es[i as int]);
        }
        if str_eq(entries[i].0.as_str(), k) {
            proof {
                assert(es[i as int].0 == entries@[i as int].0@);
                assert(obj_lookup(es.skip(i as int), k@) == Some(es.skip(i as int)[0].1));
            }
            return Some(i);
        }
        proof {
            assert(es.skip(i as int).drop_first() =~= es.skip(i + 1));
        }
        i = i + 1;
    }
    proof {
        assert(es.skip(i as int).len() == 0);
    }
    None
}

} // verus!
