use vstd::prelude::*;
use vstd::seq_lib::group_to_multiset_ensures;
use vstd::multiset::Multiset;
use crate::json::{Json, JsonV, obj_lookup, entries_view, arr_view, key_index};
use crate::strutil::{starts_with_spec, dec_digits, usize_to_string, concat2, concat3, occurs_at_exec, find_char, find_char_from, lemma_find_char_from_ge, str_eq, has_prefix};
use crate::repair::strings_view;
use crate::access::{key_pos, lemma_key_pos};

verus! {

broadcast use group_to_multiset_ensures;

/// Lexicographic order on character sequences, by scalar value: the order
/// `str` comparison sorts by.
pub open spec fn lex_le(a: Seq<char>, b: Seq<char>) -> bool
    decreases a.len(),
{
    if a.len() == 0 {
        true
    } else if b.len() == 0 {
        false
    } else if (a[0] as u32) < (b[0] as u32) {
        true
    } else if (a[0] as u32) > (b[0] as u32) {
        false
    } else {
        lex_le(a.drop_first(), b.drop_first())
    }
}

/// The order is total.
pub proof fn lemma_lex_le_total(a: Seq<char>, b: Seq<char>)
    ensures
        lex_le(a, b) || lex_le(b, a),
    decreases a.len(),
{
    if a.len() > 0 && b.len() > 0 && (a[0] as u32) == (b[0] as u32) {
        lemma_lex_le_total(a.drop_first(), b.drop_first());
    }
}

/// The order is transitive.
pub proof fn lemma_lex_le_trans(a: Seq<char>, b: Seq<char>, c: Seq<char>)
    requires
        lex_le(a, b),
        lex_le(b, c),
    ensures
        lex_le(a, c),
    decreases a.len(),
{
    if a.len() > 0 && b.len() > 0 && c.len() > 0 && (a[0] as u32) == (b[0] as u32) && (b[0] as u32) == (c[0] as u32) {
        lemma_lex_le_trans(a.drop_first(), b.drop_first(), c.drop_first());
    }
}

/// Whether `a` sorts at or before `b`.
#[verifier::loop_isolation(false)]
pub fn str_le(a: &str, b: &str) -> (r: bool)
    ensures
        r == lex_le(a@, b@),
{
    let alen = a.unicode_len();
    let blen = b.unicode_len();
    let mut i: usize = 0;
    proof {
        assert(a@.skip(0) =~= a@);
        assert(b@.skip(0) =~= b@);
    }
    while i < alen && i < blen
        invariant
            i <= alen,
            i <= blen,
            lex_le(a@, b@) == lex_le(a@.skip(i as int), b@.skip(i as int)),
        decreases alen - i,
    {
        let ca = a.get_char(i);
        let cb = b.get_char(i);
        proof {
            assert(a@.skip(i as int)[0] == a@[i as int]);
            assert(b@.skip(i as int)[0] == b@[i as int]);
            assert(a@.skip(i as int).drop_first() =~= a@.skip(i + 1));
            assert(b@.skip(i as int).drop_first() =~= b@.skip(i + 1));
        }
        if (ca as u32) < (cb as u32) {
            return true;
        }
        if (ca as u32) > (cb as u32) {
            return false;
        }
        i = i + 1;
    }
    proof {
        if i >= alen {
            assert(a@.skip(i as int).len() == 0);
        } else {
            assert(b@.skip(i as int).len() == 0);
            assert(a@.skip(i as int).len() > 0);
        }
    }
    alen <= blen
}

/// Sorts pointer strings into lexicographic order; the result holds exactly
/// the given strings.
#[verifier::loop_isolation(false)]
pub fn sort_strings(v: Vec<String>) -> (r: Vec<String>)
    ensures
        strings_view(r@).to_multiset() == strings_view(v@).to_multiset(),
        forall|i: int, j: int| 0 <= i < j < r@.len() ==> lex_le(r@[i]@, r@[j]@),
{
    let mut rest = v;
    let mut out: Vec<String> = Vec::new();
    proof {
        assert(strings_view(out@) =~= Seq::<Seq<char>>::empty());
        assert(strings_view(out@).to_multiset().add(strings_view(rest@).to_multiset()) =~= strings_view(
            rest@,
        ).to_multiset());
    }
    while rest.len() > 0
        invariant
            strings_view(out@).to_multiset().add(strings_view(rest@).to_multiset()) == strings_view(
                v@,
            ).to_multiset(),
            forall|i: int, j: int| 0 <= i < j < out@.len() ==> lex_le(out@[i]@, out@[j]@),
            forall|i: int, m: int| #![trigger out@[i], rest@[m]] 0 <= i < out@.len() && 0 <= m
                < rest@.len() ==> lex_le(out@[i]@, rest@[m]@),
        decreases rest.len(),
    {
        let mut mi: usize = 0;
        let mut t: usize = 1;
        proof {
            lemma_lex_le_total(rest@[0]@, rest@[0]@);
        }
        while t < rest.len()
            invariant
                mi < t <= rest.len() || (t <= rest.len() && mi == 0),
                mi < rest.len(),
                forall|m: int| 0 <= m < t ==> lex_le(rest@[mi as int]@, #[trigger] rest@[m]@),
            decreases rest.len() - t,
        {
            if str_le(rest[t].as_str(), rest[mi].as_str()) {
                proof {
                    assert forall|m: int| 0 <= m < t + 1 implies lex_le(
                        rest@[t as int]@,
                        #[trigger] rest@[m]@,
                    ) by {
                        if m < t {
                            lemma_lex_le_trans(rest@[t as int]@, rest@[mi as int]@, rest@[m]@);
                        } else {
                            lemma_lex_le_total(rest@[t as int]@, rest@[t as int]@);
                        }
                    }
                }
                mi = t;
            } else {
                proof {
                    lemma_lex_le_total(rest@[t as int]@, rest@[mi as int]@);
                }
            }
            t = t + 1;
        }
        let ghost rest_pre = rest@;
        let ghost out_pre = out@;
        let x = rest.remove(mi);
        out.push(x);
        proof {
            assert(strings_view(rest@) =~= strings_view(rest_pre).remove(mi as int));
            assert(strings_view(out@) =~= strings_view(out_pre).push(strings_view(rest_pre)[mi as int]));
            assert(strings_view(rest_pre).remove(mi as int).to_multiset() =~= strings_view(
                rest_pre,
            ).to_multiset().remove(strings_view(rest_pre)[mi as int]));
            assert(strings_view(out@).to_multiset().add(strings_view(rest@).to_multiset())
                =~= strings_view(v@).to_multiset());
            assert forall|i: int, m: int| #![trigger out@[i], rest@[m]] 0 <= i < out@.len() && 0 <= m
                < rest@.len() implies lex_le(out@[i]@, rest@[m]@) by {
                let orig = if m < mi {
                    m
                } else {
                    m + 1
                };
                assert(rest@[m] == rest_pre[orig]);
                if i < out_pre.len() {
                    assert(lex_le(out@[i]@, rest_pre[orig]@));
                } else {
                    assert(out@[i] == rest_pre[mi as int]);
                    assert(lex_le(rest_pre[mi as int]@, rest_pre[orig]@));
                }
            }
        }
    }
    proof {
        assert(strings_view(rest@).to_multiset() =~= Multiset::<Seq<char>>::empty());
        assert(strings_view(out@).to_multiset() =~= strings_view(v@).to_multiset());
    }
    out
}

/// How deep the leaf-path extraction follows nested schemas and `$defs`
/// references before it stops: a self-referential reference chain would
/// otherwise never end.
pub const FIELD_SCAN_DEPTH: usize = 64;

/// The value under a named field of an object node, if any.
pub open spec fn get_field(j: JsonV, name: Seq<char>) -> Option<JsonV> {
    match j {
        JsonV::Obj(es) => obj_lookup(es, name),
        _ => None,
    }
}

/// `s` with every leading repetition of `p` removed.
pub open spec fn strip_prefix_rep(s: Seq<char>, p: Seq<char>) -> Seq<char>
    decreases s.len(),
{
    if p.len() == 0 {
        s
    } else if starts_with_spec(s, p) {
        strip_prefix_rep(s.skip(p.len() as int), p)
    } else {
        s
    }
}

/// All leaf-node paths a schema document exposes under `base`, written as
/// pointers: one path for each property, descending through `properties`,
/// `items`, the branch lists `anyOf`, `oneOf` and `allOf`, and `$defs`
/// references, to the given depth.  Keys already on the current descent
/// path are not followed again.
pub open spec fn extract_paths_spec(
    schema: JsonV,
    base: Seq<char>,
    defs: Seq<(Seq<char>, JsonV)>,
    cp: Seq<Seq<char>>,
    fuel: nat,
) -> Seq<Seq<char>>
    decreases fuel, 0int, 0int,
{
    if fuel == 0 {
        Seq::empty()
    } else {
        let f2 = (fuel - 1) as nat;
        props_part(schema, base, defs, cp, f2) + items_part(schema, base, defs, cp, f2) + branch_part(
            schema,
            base,
            "anyOf"@,
            defs,
            cp,
            f2,
        ) + branch_part(schema, base, "oneOf"@, defs, cp, f2) + branch_part(
            schema,
            base,
            "allOf"@,
            defs,
            cp,
            f2,
        ) + ref_part(schema, base, defs, cp, f2)
    }
}

/// The paths the `properties` map of a schema contributes.
pub open spec fn props_part(
    schema: JsonV,
    base: Seq<char>,
    defs: Seq<(Seq<char>, JsonV)>,
    cp: Seq<Seq<char>>,
    fuel: nat,
) -> Seq<Seq<char>>
    decreases fuel, 1int, 0int,
{
    match get_field(schema, "properties"@) {
        Some(JsonV::Obj(map)) => props_paths(map, base, defs, cp, fuel, 0),
        _ => Seq::empty(),
    }
}

/// The paths the `items` schema contributes.
pub open spec fn items_part(
    schema: JsonV,
    base: Seq<char>,
    defs: Seq<(Seq<char>, JsonV)>,
    cp: Seq<Seq<char>>,
    fuel: nat,
) -> Seq<Seq<char>>
    decreases fuel, 1int, 0int,
{
    match get_field(schema, "items"@) {
        Some(x) => extract_paths_spec(x, base + "/items"@, defs, cp.push("items"@), fuel),
        None => Seq::empty(),
    }
}

/// The paths one branch list (`anyOf`, `oneOf` or `allOf`) contributes.
pub open spec fn branch_part(
    schema: JsonV,
    base: Seq<char>,
    label: Seq<char>,
    defs: Seq<(Seq<char>, JsonV)>,
    cp: Seq<Seq<char>>,
    fuel: nat,
) -> Seq<Seq<char>>
    decreases fuel, 1int, 0int,
{
    match get_field(schema, label) {
        Some(JsonV::Arr(arr)) => branch_paths(arr, base, label, defs, cp, fuel, 0),
        _ => Seq::empty(),
    }
}

/// The paths a `$defs` reference contributes: the referenced definition is
/// followed at the same base path.
pub open spec fn ref_part(
    schema: JsonV,
    base: Seq<char>,
    defs: Seq<(Seq<char>, JsonV)>,
    cp: Seq<Seq<char>>,
    fuel: nat,
) -> Seq<Seq<char>>
    decreases fuel, 1int, 0int,
{
    match get_field(schema, "$ref"@) {
        Some(JsonV::Str(r)) => if starts_with_spec(r, "#/$defs/"@) {
            match obj_lookup(defs, strip_prefix_rep(r, "#/$defs/"@)) {
                Some(def) => extract_paths_spec(
                    def,
                    base,
                    defs,
                    cp.push(strip_prefix_rep(r, "#/$defs/"@)),
                    fuel,
                ),
                None => Seq::empty(),
            }
        } else {
            Seq::empty()
        },
        _ => Seq::empty(),
    }
}

/// The paths of the properties of one `properties` map, from entry `i` on:
/// each property contributes its own path, and, unless its key is already
/// on the descent path, everything below it.
pub open spec fn props_paths(
    map: Seq<(Seq<char>, JsonV)>,
    base: Seq<char>,
    defs: Seq<(Seq<char>, JsonV)>,
    cp: Seq<Seq<char>>,
    fuel: nat,
    i: int,
) -> Seq<Seq<char>>
    decreases fuel, 0int, map.len() - i,
{
    if i < 0 || i >= map.len() {
        Seq::empty()
    } else {
        let key = map[i].0;
        let np = base + "/"@ + key;
        seq![np] + (if cp.contains(key) {
            Seq::empty()
        } else {
            extract_paths_spec(map[i].1, np, defs, cp.push(key), fuel)
        }) + props_paths(map, base, defs, cp, fuel, i + 1)
    }
}

/// The paths below the subschemas of one branch list, from entry `i` on.
pub open spec fn branch_paths(
    arr: Seq<JsonV>,
    base: Seq<char>,
    label: Seq<char>,
    defs: Seq<(Seq<char>, JsonV)>,
    cp: Seq<Seq<char>>,
    fuel: nat,
    i: int,
) -> Seq<Seq<char>>
    decreases fuel, 0int, arr.len() - i,
{
    if i < 0 || i >= arr.len() {
        Seq::empty()
    } else {
        let tag = label + "/"@ + dec_digits(i as nat);
        let np = base + "/"@ + tag;
        extract_paths_spec(arr[i], np, defs, cp.push(tag), fuel) + branch_paths(
            arr,
            base,
            label,
            defs,
            cp,
            fuel,
            i + 1,
        )
    }
}

/// The value under a named field of an object node, if any.
pub fn get_field_exec<'a>(j: &'a Json, name: &str) -> (r: Option<&'a Json>)
    ensures
        match r {
            Some(x) => get_field(j@, name@) == Some(x@),
            None => get_field(j@, name@) is None,
        },
{
    match j {
        Json::Obj(es) => match key_index(es, name) {
            Some(jx) => Some(&es[jx].1),
            None => None,
        },
        _ => None,
    }
}

/// Whether `k` is one of the strings of `v`.
#[verifier::loop_isolation(false)]
pub fn contains_string(v: &Vec<String>, k: &str) -> (r: bool)
    ensures
        r == strings_view(v@).contains(k@),
{
    let mut i: usize = 0;
    while i < v.len()
        invariant
            i <= v.len(),
            forall|m: int| 0 <= m < i ==> strings_view(v@)[m] != k@,
        decreases v.len() - i,
    {
        if str_eq(v[i].as_str(), k) {
            proof {
                assert(strings_view(v@)[i as int] == k@);
            }
            return true;
        }
        i = i + 1;
    }
    proof {
        assert(forall|m: int| 0 <= m < strings_view(v@).len() ==> strings_view(v@)[m] != k@);
    }
    false
}

/// `s` with every leading repetition of `p` removed.
#[verifier::loop_isolation(false)]
pub fn strip_prefix_repeated(s: &str, p: &str) -> (r: String)
    ensures
        r@ == strip_prefix_rep(s@, p@),
{
    let len = s.unicode_len();
    let plen = p.unicode_len();
    if plen == 0 {
        return String::from_str(s);
    }
    if plen > len {
        let r = String::from_str(s);
        proof {
            assert(r@ =~= strip_prefix_rep(s@, p@));
        }
        return r;
    }
    let mut off: usize = 0;
    proof {
        assert(s@.skip(0) =~= s@);
    }
    while off <= len - plen && occurs_at_exec(s, p, off)
        invariant
            off <= len,
            plen == p@.len(),
            strip_prefix_rep(s@, p@) == strip_prefix_rep(s@.skip(off as int), p@),
        decreases len - off,
    {
        proof {
            assert(starts_with_spec(s@.skip(off as int), p@)) by {
                assert(s@.skip(off as int).subrange(0, p@.len() as int) =~= s@.subrange(
                    off as int,
                    off + p@.len(),
                ));
            }
            assert(s@.skip(off as int).skip(p@.len() as int) =~= s@.skip(off + p@.len()));
        }
        off = off + plen;
    }
    proof {
        if off <= len - plen {
            assert(!starts_with_spec(s@.skip(off as int), p@)) by {
                assert(s@.skip(off as int).subrange(0, p@.len() as int) =~= s@.subrange(
                    off as int,
                    off + p@.len(),
                ));
            }
        } else {
            assert(!starts_with_spec(s@.skip(off as int), p@));
        }
    }
    let r = s.substring_char(off, len);
    proof {
        assert(r@ =~= s@.skip(off as int));
    }
    String::from_str(r)
}

/// Extracts all leaf-node paths a schema exposes, appending them to
/// `paths`; `current_path` carries the keys of the descent and is restored
/// before returning.
#[verifier::loop_isolation(false)]
#[verifier::rlimit(100)]
pub fn extract_paths(
    schema: &Json,
    base_path: &str,
    paths: &mut Vec<String>,
    defs: &Vec<(String, Json)>,
    current_path: &mut Vec<String>,
    fuel: usize,
)
    ensures
        strings_view(final(paths)@) == strings_view(old(paths)@) + extract_paths_spec(
            schema@,
            base_path@,
            entries_view(defs@),
            strings_view(old(current_path)@),
            fuel as nat,
        ),
        final(current_path)@ == old(current_path)@,
    decreases fuel, 0int, 0int,
{
    let ghost p0 = strings_view(paths@);
    let ghost cpv = strings_view(current_path@);
    let ghost defsv = entries_view(defs@);
    let ghost basev = base_path@;
    if fuel == 0 {
        proof {
            assert(strings_view(paths@) =~= p0 + extract_paths_spec(schema@, basev, defsv, cpv, 0));
        }
        return ;
    }
    let f2 = fuel - 1;
    let ghost f2n = f2 as nat;
    props_section(schema, base_path, paths, defs, current_path, f2);
    let ghost q1 = strings_view(paths@);
    items_section(schema, base_path, paths, defs, current_path, f2);
    let ghost q2 = strings_view(paths@);
    branch_section(schema, base_path, "anyOf", paths, defs, current_path, f2);
    let ghost q3 = strings_view(paths@);
    branch_section(schema, base_path, "oneOf", paths, defs, current_path, f2);
    let ghost q4 = strings_view(paths@);
    branch_section(schema, base_path, "allOf", paths, defs, current_path, f2);
    let ghost q5 = strings_view(paths@);
    ref_section(schema, base_path, paths, defs, current_path, f2);
    proof {
        let a1 = q1.skip(p0.len() as int);
        let a2 = q2.skip(q1.len() as int);
        let a3 = q3.skip(q2.len() as int);
        let a4 = q4.skip(q3.len() as int);
        let a5 = q5.skip(q4.len() as int);
        let a6 = strings_view(paths@).skip(q5.len() as int);
        assert(q1 =~= p0 + a1);
        assert(q2 =~= q1 + a2);
        assert(q3 =~= q2 + a3);
        assert(q4 =~= q3 + a4);
        assert(q5 =~= q4 + a5);
        assert(strings_view(paths@) =~= q5 + a6);
        assert(extract_paths_spec(schema@, basev, defsv, cpv, fuel as nat) == a1 + a2 + a3 + a4 + a5
            + a6) by {
            assert(q1 == p0 + a1 && q2 == q1 + a2 && q3 == q2 + a3 && q4 == q3 + a4 && q5 == q4 + a5);
            assert(a1 =~= q1.skip(p0.len() as int));
            assert(extract_paths_spec(schema@, basev, defsv, cpv, fuel as nat) =~= a1 + a2 + a3 + a4
                + a5 + a6);
        }
        assert(strings_view(paths@) =~= p0 + extract_paths_spec(schema@, basev, defsv, cpv, fuel as nat));
    }
}

/// The part of one `properties` map of the leaf-path extraction.
#[verifier::loop_isolation(false)]
fn props_section(
    schema: &Json,
    base_path: &str,
    paths: &mut Vec<String>,
    defs: &Vec<(String, Json)>,
    current_path: &mut Vec<String>,
    fuel: usize,
)
    ensures
        strings_view(final(paths)@) == strings_view(old(paths)@) + props_part(
            schema@,
            base_path@,
            entries_view(defs@),
            strings_view(old(current_path)@),
            fuel as nat,
        ),
        final(current_path)@ == old(current_path)@,
    decreases fuel, 1int, 0int,
{
    let ghost p0 = strings_view(paths@);
    let ghost cpv = strings_view(current_path@);
    let ghost defsv = entries_view(defs@);
    let ghost basev = base_path@;
    let ghost fn_ = fuel as nat;
    match get_field_exec(schema, "properties") {
        Some(props) => match props {
            Json::Obj(map) => {
                let ghost mapv = entries_view(map@);
                let mut i: usize = 0;
                proof {
                    assert(p0 + props_paths(mapv, basev, defsv, cpv, fn_, 0) =~= strings_view(paths@)
                        + props_paths(mapv, basev, defsv, cpv, fn_, 0));
                }
                while i < map.len()
                    invariant
                        i <= map.len(),
                        current_path@ == old(current_path)@,
                        p0 + props_paths(mapv, basev, defsv, cpv, fn_, 0) == strings_view(paths@)
                            + props_paths(mapv, basev, defsv, cpv, fn_, i as int),
                    decreases map.len() - i,
                {
                    let ghost pmid = strings_view(paths@);
                    let key = &map[i].0;
                    let np = concat3(base_path, "/", key.as_str());
                    proof {
                        assert(mapv[i as int].0 == map@[i as int].0@);
                        assert(mapv[i as int].1 == map@[i as int].1@);
                    }
                    paths.push(np.clone());
                    proof {
                        assert(strings_view(paths@) =~= pmid.push(np@));
                    }
                    let present = contains_string(current_path, key.as_str());
                    if !present {
                        let ghost cpre = current_path@;
                        current_path.push(key.clone());
                        proof {
                            assert(strings_view(current_path@) =~= cpv.push(mapv[i as int].0));
                        }
                        extract_paths(&map[i].1, np.as_str(), paths, defs, current_path, fuel);
                        let popped = current_path.pop();
                        proof {
                            assert(current_path@ =~= cpre);
                        }
                    }
                    proof {
                        let key_i = mapv[i as int].0;
                        let np_i = basev + "/"@ + key_i;
                        let sub_i: Seq<Seq<char>> = if cpv.contains(key_i) {
                            Seq::empty()
                        } else {
                            extract_paths_spec(mapv[i as int].1, np_i, defsv, cpv.push(key_i), fn_)
                        };
                        assert(strings_view(paths@) =~= pmid + (seq![np_i] + sub_i));
                        assert(p0 + props_paths(mapv, basev, defsv, cpv, fn_, 0) =~= strings_view(paths@)
                            + props_paths(mapv, basev, defsv, cpv, fn_, i + 1));
                    }
                    i = i + 1;
                }
                proof {
                    assert(props_paths(mapv, basev, defsv, cpv, fn_, i as int)
                        =~= Seq::<Seq<char>>::empty());
                }
            },
            _ => {},
        },
        None => {},
    }
    proof {
        assert(strings_view(final(paths)@) =~= strings_view(old(paths)@) + props_part(
            schema@,
            basev,
            defsv,
            cpv,
            fn_,
        ));
    }
}

/// The `items` part of the leaf-path extraction.
fn items_section(
    schema: &Json,
    base_path: &str,
    paths: &mut Vec<String>,
    defs: &Vec<(String, Json)>,
    current_path: &mut Vec<String>,
    fuel: usize,
)
    ensures
        strings_view(final(paths)@) == strings_view(old(paths)@) + items_part(
            schema@,
            base_path@,
            entries_view(defs@),
            strings_view(old(current_path)@),
            fuel as nat,
        ),
        final(current_path)@ == old(current_path)@,
    decreases fuel, 1int, 0int,
{
    let ghost p0 = strings_view(paths@);
    let ghost cpv = strings_view(current_path@);
    match get_field_exec(schema, "items") {
        Some(x) => {
            let np = concat2(base_path, "/items");
            let ghost cpre = current_path@;
            current_path.push(String::from_str("items"));
            proof {
                assert(strings_view(current_path@) =~= cpv.push("items"@));
            }
            extract_paths(x, np.as_str(), paths, defs, current_path, fuel);
            let popped = current_path.pop();
            proof {
                assert(current_path@ =~= cpre);
            }
        },
        None => {
            proof {
                assert(strings_view(paths@) =~= p0 + Seq::<Seq<char>>::empty());
            }
        },
    }
}

/// The `$ref` part of the leaf-path extraction: a reference into `$defs`
/// descends into the referenced definition at the same base path.
fn ref_section(
    schema: &Json,
    base_path: &str,
    paths: &mut Vec<String>,
    defs: &Vec<(String, Json)>,
    current_path: &mut Vec<String>,
    fuel: usize,
)
    ensures
        strings_view(final(paths)@) == strings_view(old(paths)@) + ref_part(
            schema@,
            base_path@,
            entries_view(defs@),
            strings_view(old(current_path)@),
            fuel as nat,
        ),
        final(current_path)@ == old(current_path)@,
    decreases fuel, 1int, 0int,
{
    let ghost p0 = strings_view(paths@);
    let ghost cpv = strings_view(current_path@);
    let ghost defsv = entries_view(defs@);
    match get_field_exec(schema, "$ref") {
        Some(refval) => match refval {
            Json::Str(r) => {
                if has_prefix(r.as_str(), "#/$defs/") {
                    let def_key = strip_prefix_repeated(r.as_str(), "#/$defs/");
                    match key_index(defs, def_key.as_str()) {
                        Some(j) => {
                            proof {
                                assert(defsv[j as int].1 == defs@[j as int].1@);
                            }
                            let ghost cpre = current_path@;
                            current_path.push(def_key);
                            proof {
                                assert(strings_view(current_path@) =~= cpv.push(strip_prefix_rep(
                                    r@,
                                    "#/$defs/"@,
                                )));
                            }
                            extract_paths(&defs[j].1, base_path, paths, defs, current_path, fuel);
                            let popped = current_path.pop();
                            proof {
                                assert(current_path@ =~= cpre);
                            }
                        },
                        None => {
                            proof {
                                assert(strings_view(paths@) =~= p0 + Seq::<Seq<char>>::empty());
                            }
                        },
                    }
                } else {
                    proof {
                        assert(strings_view(paths@) =~= p0 + Seq::<Seq<char>>::empty());
                    }
                }
            },
            _ => {
                proof {
                    assert(strings_view(paths@) =~= p0 + Seq::<Seq<char>>::empty());
                }
            },
        },
        None => {
            proof {
                assert(strings_view(paths@) =~= p0 + Seq::<Seq<char>>::empty());
            }
        },
    }
}

/// Descends into every subschema of one branch list (`anyOf`, `oneOf` or
/// `allOf`), appending the paths below each.
#[verifier::loop_isolation(false)]
fn branch_section(
    schema: &Json,
    base_path: &str,
    label: &str,
    paths: &mut Vec<String>,
    defs: &Vec<(String, Json)>,
    current_path: &mut Vec<String>,
    fuel: usize,
)
    ensures
        strings_view(final(paths)@) == strings_view(old(paths)@) + branch_part(
            schema@,
            base_path@,
            label@,
            entries_view(defs@),
            strings_view(old(current_path)@),
            fuel as nat,
        ),
        final(current_path)@ == old(current_path)@,
    decreases fuel, 1int, 0int,
{
    let ghost p0 = strings_view(paths@);
    let ghost cpv = strings_view(current_path@);
    let ghost defsv = entries_view(defs@);
    let ghost basev = base_path@;
    let ghost fn_ = fuel as nat;
    match get_field_exec(schema, label) {
        Some(branches) => match branches {
            Json::Arr(arr) => {
                let ghost arrv = arr_view(arr@);
                let mut i: usize = 0;
                proof {
                    assert(p0 + branch_paths(arrv, basev, label@, defsv, cpv, fn_, 0)
                        =~= strings_view(paths@) + branch_paths(arrv, basev, label@, defsv, cpv, fn_, 0));
                }
                while i < arr.len()
                    invariant
                        i <= arr.len(),
                        current_path@ == old(current_path)@,
                        p0 + branch_paths(arrv, basev, label@, defsv, cpv, fn_, 0) == strings_view(
                            paths@,
                        ) + branch_paths(arrv, basev, label@, defsv, cpv, fn_, i as int),
                    decreases arr.len() - i,
                {
                    let ghost pmid = strings_view(paths@);
                    let num = usize_to_string(i);
                    let tag = concat3(label, "/", num.as_str());
                    let np = concat3(base_path, "/", tag.as_str());
                    proof {
                        assert(arrv[i as int] == arr@[i as int]@);
                    }
                    let ghost cpre = current_path@;
                    current_path.push(tag);
                    proof {
                        assert(strings_view(current_path@) =~= cpv.push(
                            label@ + "/"@ + dec_digits(i as nat),
                        ));
                    }
                    extract_paths(&arr[i], np.as_str(), paths, defs, current_path, fuel);
                    let popped = current_path.pop();
                    proof {
                        assert(current_path@ =~= cpre);
                        assert(p0 + branch_paths(arrv, basev, label@, defsv, cpv, fn_, 0)
                            =~= strings_view(paths@) + branch_paths(
                            arrv,
                            basev,
                            label@,
                            defsv,
                            cpv,
                            fn_,
                            i + 1,
                        ));
                    }
                    i = i + 1;
                }
                proof {
                    assert(branch_paths(arrv, basev, label@, defsv, cpv, fn_, i as int)
                        =~= Seq::<Seq<char>>::empty());
                }
            },
            _ => {},
        },
        None => {},
    }
    proof {
        assert(strings_view(final(paths)@) =~= strings_view(old(paths)@) + branch_part(
            schema@,
            basev,
            label@,
            defsv,
            cpv,
            fn_,
        ));
    }
}

/// The definitions table of a schema document.
pub open spec fn schema_defs(j: JsonV) -> Seq<(Seq<char>, JsonV)> {
    match get_field(j, "$defs"@) {
        Some(JsonV::Obj(es)) => es,
        _ => Seq::empty(),
    }
}

/// All leaf-node paths of a schema document, from the root.
pub open spec fn all_fields_spec(j: JsonV) -> Seq<Seq<char>> {
    extract_paths_spec(j, ""@, schema_defs(j), Seq::empty(), FIELD_SCAN_DEPTH as nat)
}

/// Every leaf-node path of a schema document, sorted.
pub fn get_all_fields(schema: &Json) -> (r: Vec<String>)
    ensures
        strings_view(r@).to_multiset() == all_fields_spec(schema@).to_multiset(),
        forall|i: int, j: int| 0 <= i < j < r@.len() ==> lex_le(r@[i]@, r@[j]@),
{
    let empty_defs: Vec<(String, Json)> = Vec::new();
    let mut paths: Vec<String> = Vec::new();
    let mut current: Vec<String> = Vec::new();
    proof {
        assert(strings_view(paths@) =~= Seq::<Seq<char>>::empty());
        assert(strings_view(current@) =~= Seq::<Seq<char>>::empty());
        assert(entries_view(empty_defs@) =~= Seq::<(Seq<char>, JsonV)>::empty());
    }
    match get_field_exec(schema, "$defs") {
        Some(d) => match d {
            Json::Obj(es) => {
                extract_paths(schema, "", &mut paths, es, &mut current, FIELD_SCAN_DEPTH);
            },
            _ => {
                extract_paths(schema, "", &mut paths, &empty_defs, &mut current, FIELD_SCAN_DEPTH);
            },
        },
        None => {
            extract_paths(schema, "", &mut paths, &empty_defs, &mut current, FIELD_SCAN_DEPTH);
        },
    }
    proof {
        assert(strings_view(paths@) =~= all_fields_spec(schema@));
    }
    sort_strings(paths)
}

/// The names of the rows after the leading blank row.
pub open spec fn tail_names(r: Seq<(String, String)>) -> Seq<Seq<char>> {
    Seq::new(
        if r.len() > 0 {
            (r.len() - 1) as nat
        } else {
            0
        },
        |i: int| r[i + 1].0@,
    )
}

/// Builds the optional-field rows for the output schema: one leading blank
/// row, then every leaf-node path the schema exposes, sorted, each with an
/// empty value.
#[verifier::loop_isolation(false)]
pub fn preload_p3(schema: &Json) -> (r: Vec<(String, String)>)
    ensures
        r@.len() >= 1,
        r@[0].0@ == Seq::<char>::empty(),
        r@[0].1@ == Seq::<char>::empty(),
        forall|i: int| 1 <= i < r@.len() ==> r@[i].1@ == Seq::<char>::empty(),
        tail_names(r@).to_multiset() == all_fields_spec(schema@).to_multiset(),
        forall|i: int, j: int| 1 <= i < j < r@.len() ==> lex_le(r@[i].0@, r@[j].0@),
{
    let fields = get_all_fields(schema);
    let mut out: Vec<(String, String)> = Vec::new();
    out.push((String::new(), String::new()));
    let mut i: usize = 0;
    while i < fields.len()
        invariant
            i <= fields.len(),
            out.len() == i + 1,
            out@[0].0@ == Seq::<char>::empty(),
            out@[0].1@ == Seq::<char>::empty(),
            forall|m: int| #![trigger out@[m]] 1 <= m < out@.len() ==> out@[m].0 == fields@[m - 1]
                && out@[m].1@ == Seq::<char>::empty(),
        decreases fields.len() - i,
    {
        let f = fields[i].clone();
        out.push((f, String::new()));
        i = i + 1;
    }
    proof {
        assert(tail_names(out@) =~= strings_view(fields@));
        assert forall|a: int, b: int| 1 <= a < b < out@.len() implies lex_le(out@[a].0@, out@[b].0@) by {
            assert(out@[a].0 == fields@[a - 1]);
            assert(out@[b].0 == fields@[b - 1]);
            assert(lex_le(fields@[a - 1]@, fields@[b - 1]@));
        }
    }
    out
}

/// The first path segment of a pointer row, if the pointer begins with a
/// slash.
pub open spec fn first_section(p: Seq<char>) -> Option<Seq<char>> {
    if p.len() > 0 && p[0] == '/' {
        match find_char_from(p, '/', 1) {
            None => Some(p.skip(1)),
            Some(j) => Some(p.subrange(1, j)),
        }
    } else {
        None
    }
}

/// The sections seen after folding one more pointer in: a new first segment
/// is appended, a known one is kept once.
pub open spec fn add_section(acc: Seq<Seq<char>>, p: Seq<char>) -> Seq<Seq<char>> {
    match first_section(p) {
        None => acc,
        Some(sec) => if acc.contains(sec) {
            acc
        } else {
            acc.push(sec)
        },
    }
}

/// The distinct first sections of the pointers from row `i` on, in
/// first-appearance order, folded onto `acc`.
pub open spec fn sections_from(rows: Seq<(String, String)>, i: int, acc: Seq<Seq<char>>) -> Seq<
    Seq<char>,
>
    decreases rows.len() - i,
{
    if i < 0 || i >= rows.len() {
        acc
    } else {
        sections_from(rows, i + 1, add_section(acc, rows[i].0@))
    }
}

/// The distinct first path segments of the missing-field rows, in
/// first-appearance order: what groups a long row list into sections.
#[verifier::loop_isolation(false)]
pub fn missing_field_sections(rows: &Vec<(String, String)>) -> (r: Vec<String>)
    ensures
        strings_view(r@) == sections_from(rows@, 0, Seq::empty()),
{
    let mut out: Vec<String> = Vec::new();
    proof {
        assert(strings_view(out@) =~= Seq::<Seq<char>>::empty());
    }
    let mut i: usize = 0;
    while i < rows.len()
        invariant
            i <= rows.len(),
            sections_from(rows@, 0, Seq::empty()) == sections_from(rows@, i as int, strings_view(out@)),
        decreases rows.len() - i,
    {
        let ghost pre = strings_view(out@);
        let p = rows[i].0.as_str();
        let plen = p.unicode_len();
        if plen > 0 && p.get_char(0) == '/' {
            let sec = match find_char(p, '/', 1) {
                None => p.substring_char(1, plen),
                Some(j) => {
                    proof {
                        lemma_find_char_from_ge(p@, '/', 1);
                    }
                    p.substring_char(1, j)
                },
            };
            proof {
                match find_char_from(p@, '/', 1) {
                    None => {
                        assert(sec@ =~= p@.skip(1));
                    },
                    Some(_) => {},
                }
                assert(first_section(p@) == Some(sec@));
            }
            let present = contains_string(&out, sec);
            if !present {
                out.push(String::from_str(sec));
                proof {
                    assert(strings_view(out@) =~= pre.push(sec@));
                }
            }
        }
        proof {
            assert(strings_view(out@) == add_section(pre, rows@[i as int].0@));
        }
        i = i + 1;
    }
    out
}

/// The definition a `#/$defs/` reference names inside a definitions table.
pub open spec fn resolve_ref_spec(defs: JsonV, ref_path: Seq<char>) -> Option<JsonV> {
    get_field(defs, strip_prefix_rep(ref_path, "#/$defs/"@))
}

/// The definition a `#/$defs/` reference names, as a copy.
pub fn resolve_ref(defs: &Json, ref_path: &str) -> (r: Option<Json>)
    ensures
        match r {
            Some(v) => resolve_ref_spec(defs@, ref_path@) == Some(v@),
            None => resolve_ref_spec(defs@, ref_path@) is None,
        },
{
    let key = strip_prefix_repeated(ref_path, "#/$defs/");
    match get_field_exec(defs, key.as_str()) {
        Some(v) => Some(v.deep_clone()),
        None => None,
    }
}

/// `entries` with `v` written under `k`: an existing entry keeps its place,
/// a new key is appended.
pub open spec fn upsert(
    entries: Seq<(Seq<char>, JsonV)>,
    k: Seq<char>,
    v: JsonV,
) -> Seq<(Seq<char>, JsonV)> {
    match key_pos(entries, k) {
        Some(p) => entries.update(p, (entries[p].0, v)),
        None => entries.push((k, v)),
    }
}

/// The key table after the properties of one map are written in, from
/// entry `i` on.
pub open spec fn fold_props(
    acc: Seq<(Seq<char>, JsonV)>,
    map: Seq<(Seq<char>, JsonV)>,
    i: int,
) -> Seq<(Seq<char>, JsonV)>
    decreases map.len() - i,
{
    if i < 0 || i >= map.len() {
        acc
    } else {
        fold_props(upsert(acc, map[i].0, map[i].1), map, i + 1)
    }
}

/// The root-level keys a schema exposes, folded onto `acc`: its own
/// properties, then those of every `oneOf`, `anyOf` and `allOf` branch, and
/// those of a referenced definition, to the given depth.
pub open spec fn root_keys_spec(
    schema: JsonV,
    defs: JsonV,
    acc: Seq<(Seq<char>, JsonV)>,
    fuel: nat,
) -> Seq<(Seq<char>, JsonV)>
    decreases fuel, 0int, 0int,
{
    if fuel == 0 {
        acc
    } else {
        let f2 = (fuel - 1) as nat;
        let acc1 = match get_field(schema, "properties"@) {
            Some(JsonV::Obj(map)) => fold_props(acc, map, 0),
            _ => acc,
        };
        let acc2 = match get_field(schema, "oneOf"@) {
            Some(JsonV::Arr(arr)) => fold_branches(arr, defs, acc1, f2, 0),
            _ => acc1,
        };
        let acc3 = match get_field(schema, "anyOf"@) {
            Some(JsonV::Arr(arr)) => fold_branches(arr, defs, acc2, f2, 0),
            _ => acc2,
        };
        let acc4 = match get_field(schema, "allOf"@) {
            Some(JsonV::Arr(arr)) => fold_branches(arr, defs, acc3, f2, 0),
            _ => acc3,
        };
        match get_field(schema, "$ref"@) {
            Some(JsonV::Str(r)) => match resolve_ref_spec(defs, r) {
                Some(def) => root_keys_spec(def, defs, acc4, f2),
                None => acc4,
            },
            _ => acc4,
        }
    }
}

/// The key table after every branch of one branch list is folded in, from
/// branch `i` on.
pub open spec fn fold_branches(
    arr: Seq<JsonV>,
    defs: JsonV,
    acc: Seq<(Seq<char>, JsonV)>,
    fuel: nat,
    i: int,
) -> Seq<(Seq<char>, JsonV)>
    decreases fuel, 1int, arr.len() - i,
{
    if i < 0 || i >= arr.len() {
        acc
    } else {
        fold_branches(arr, defs, root_keys_spec(arr[i], defs, acc, fuel), fuel, i + 1)
    }
}

/// Writes `v` under `k` in the key table: an existing entry keeps its
/// place, a new key is appended.
#[verifier::loop_isolation(false)]
fn upsert_exec(keys: &mut Vec<(String, Json)>, k: String, v: Json)
    ensures
        entries_view(final(keys)@) == upsert(entries_view(old(keys)@), k@, v@),
{
    let ghost es0 = entries_view(keys@);
    let ghost vv = v@;
    proof {
        lemma_key_pos(es0, k@);
    }
    match key_index(keys, k.as_str()) {
        Some(j) => {
            let mut slot = v;
            core::mem::swap(&mut keys[j].1, &mut slot);
            proof {
                assert(key_pos(es0, k@) == Some(j as int));
                assert(entries_view(keys@) =~= es0.update(j as int, (es0[j as int].0, vv)));
            }
        },
        None => {
            keys.push((k, v));
            proof {
                assert(entries_view(keys@) =~= es0.push((k@, vv)));
            }
        },
    }
}

/// Collects the root-level keys a schema exposes into `keys`: its own
/// properties and those reachable through branch lists and `$defs`
/// references, later writes replacing earlier ones under the same key.
#[verifier::loop_isolation(false)]
pub fn extract_root_keys(schema: &Json, defs: &Json, keys: &mut Vec<(String, Json)>, fuel: usize)
    ensures
        entries_view(final(keys)@) == root_keys_spec(schema@, defs@, entries_view(old(keys)@), fuel as nat),
    decreases fuel, 0int, 0int,
{
    let ghost acc0 = entries_view(keys@);
    if fuel == 0 {
        return ;
    }
    let f2 = fuel - 1;
    let ghost f2n = f2 as nat;
    match get_field_exec(schema, "properties") {
        Some(props) => match props {
            Json::Obj(map) => {
                let ghost mapv = entries_view(map@);
                let mut i: usize = 0;
                while i < map.len()
                    invariant
                        i <= map.len(),
                        fold_props(acc0, mapv, 0) == fold_props(entries_view(keys@), mapv, i as int),
                    decreases map.len() - i,
                {
                    proof {
                        assert(mapv[i as int].0 == map@[i as int].0@);
                        assert(mapv[i as int].1 == map@[i as int].1@);
                    }
                    let k = map[i].0.clone();
                    let v = map[i].1.deep_clone();
                    upsert_exec(keys, k, v);
                    i = i + 1;
                }
                proof {
                    assert(fold_props(entries_view(keys@), mapv, i as int) == entries_view(keys@));
                }
            },
            _ => {},
        },
        None => {},
    }
    root_branch_section(schema, defs, "oneOf", keys, f2);
    root_branch_section(schema, defs, "anyOf", keys, f2);
    root_branch_section(schema, defs, "allOf", keys, f2);
    match get_field_exec(schema, "$ref") {
        Some(refval) => match refval {
            Json::Str(r) => {
                match resolve_ref(defs, r.as_str()) {
                    Some(def) => {
                        extract_root_keys(&def, defs, keys, f2);
                    },
                    None => {},
                }
            },
            _ => {},
        },
        None => {},
    }
    proof {
        assert(entries_view(keys@) == root_keys_spec(schema@, defs@, acc0, fuel as nat));
    }
}

/// Folds the branches of one branch list into the key table.
#[verifier::loop_isolation(false)]
fn root_branch_section(
    schema: &Json,
    defs: &Json,
    label: &str,
    keys: &mut Vec<(String, Json)>,
    fuel: usize,
)
    ensures
        entries_view(final(keys)@) == (match get_field(schema@, label@) {
            Some(JsonV::Arr(arr)) => fold_branches(
                arr,
                defs@,
                entries_view(old(keys)@),
                fuel as nat,
                0,
            ),
            _ => entries_view(old(keys)@),
        }),
    decreases fuel, 1int, 0int,
{
    let ghost acc0 = entries_view(keys@);
    let ghost fn_ = fuel as nat;
    match get_field_exec(schema, label) {
        Some(branches) => match branches {
            Json::Arr(arr) => {
                let ghost arrv = arr_view(arr@);
                let mut i: usize = 0;
                while i < arr.len()
                    invariant
                        i <= arr.len(),
                        fold_branches(arrv, defs@, acc0, fn_, 0) == fold_branches(
                            arrv,
                            defs@,
                            entries_view(keys@),
                            fn_,
                            i as int,
                        ),
                    decreases arr.len() - i,
                {
                    proof {
                        assert(arrv[i as int] == arr@[i as int]@);
                    }
                    extract_root_keys(&arr[i], defs, keys, fuel);
                    i = i + 1;
                }
                proof {
                    assert(fold_branches(arrv, defs@, entries_view(keys@), fn_, i as int)
                        == entries_view(keys@));
                }
            },
            _ => {},
        },
        None => {},
    }
}

} // verus!
