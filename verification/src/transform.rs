use vstd::prelude::*;
use crate::json::{Json, JsonV, obj_lookup, entries_view, arr_view, key_index};
use crate::pointer::{StructuralPath, parse_pointer_spec};
use crate::scaffold::{scaffold_spec, path_representable};
use crate::merge::{merge_spec, merge_owned};
use crate::access::{get_at_spec, get_at_path, key_pos, lemma_key_pos};

verus! {

/// What `str::to_lowercase` returns for given characters.
pub uninterp spec fn lower_of(s: Seq<char>) -> Seq<char>;

/// What `str::to_uppercase` returns for given characters.
pub uninterp spec fn upper_of(s: Seq<char>) -> Seq<char>;

/// Relies on `str::to_lowercase`: the result depends on the characters
/// alone, and an empty string stays empty.
#[verifier::external_body]
fn to_lowercase(s: &str) -> (r: String)
    ensures
        r@ == lower_of(s@),
        s@.len() == 0 ==> r@.len() == 0,
{
    s.to_lowercase()
}

/// Relies on `str::to_uppercase`: the result depends on the characters
/// alone, and an empty string stays empty.
#[verifier::external_body]
fn to_uppercase(s: &str) -> (r: String)
    ensures
        r@ == upper_of(s@),
        s@.len() == 0 ==> r@.len() == 0,
{
    s.to_uppercase()
}

/// A one-to-one field mapping operator.
#[allow(non_camel_case_types)]
#[derive(Debug)]
pub enum OneToOne {
    copy,
    toLowerCase,
    toUpperCase,
    slice,
}

/// A one-to-many field mapping operator, not exercised by the repair loop.
#[allow(non_camel_case_types)]
#[derive(Debug)]
pub enum OneToMany {
    split,
}

/// A many-to-one field mapping operator.
#[allow(non_camel_case_types)]
#[derive(Debug)]
pub enum ManyToOne {
    concat,
}

/// What a one-to-one operator does to a value: copying is identity, case
/// folding touches only string values, and slicing is left unspecified and
/// passes the value through.
pub open spec fn one_to_one_spec(op: OneToOne, v: JsonV) -> JsonV {
    match op {
        OneToOne::copy => v,
        OneToOne::toLowerCase => match v {
            JsonV::Str(s) => JsonV::Str(lower_of(s)),
            _ => v,
        },
        OneToOne::toUpperCase => match v {
            JsonV::Str(s) => JsonV::Str(upper_of(s)),
            _ => v,
        },
        OneToOne::slice => v,
    }
}

impl OneToOne {
    /// Applies the operator to one value.
    pub fn apply(&self, value: Json) -> (r: Json)
        ensures
            r@ == one_to_one_spec(*self, value@),
    {
        match self {
            OneToOne::copy => value,
            OneToOne::toLowerCase => {
                match value {
                    Json::Str(s) => Json::Str(to_lowercase(s.as_str())),
                    other => other,
                }
            },
            OneToOne::toUpperCase => {
                match value {
                    Json::Str(s) => Json::Str(to_uppercase(s.as_str())),
                    other => other,
                }
            },
            OneToOne::slice => value,
        }
    }
}

/// The concatenation of the string values among `vs`, from position `i` on;
/// other values contribute nothing.
pub open spec fn concat_strings_from(vs: Seq<JsonV>, i: int) -> Seq<char>
    decreases vs.len() - i,
{
    if i < 0 || i >= vs.len() {
        Seq::empty()
    } else {
        (match vs[i] {
            JsonV::Str(t) => t,
            _ => Seq::empty(),
        }) + concat_strings_from(vs, i + 1)
    }
}

impl ManyToOne {
    /// Applies the operator to a list of values: the concatenation of the
    /// string values, in order; non-string values contribute nothing.
    #[verifier::loop_isolation(false)]
    pub fn apply(&self, values: Vec<Json>) -> (r: Json)
        ensures
            r@ == JsonV::Str(concat_strings_from(arr_view(values@), 0)),
    {
        let ghost vs = arr_view(values@);
        let mut s = String::new();
        let mut i: usize = 0;
        proof {
            assert(concat_strings_from(vs, 0) =~= s@ + concat_strings_from(vs, 0));
        }
        while i < values.len()
            invariant
                i <= values.len(),
                concat_strings_from(vs, 0) == s@ + concat_strings_from(vs, i as int),
            decreases values.len() - i,
        {
            proof {
                assert(vs[i as int] == values@[i as int]@);
            }
            match &values[i] {
                Json::Str(t) => {
                    s.append(t.as_str());
                },
                _ => {},
            }
            proof {
                assert(concat_strings_from(vs, 0) =~= s@ + concat_strings_from(vs, i + 1));
            }
            i = i + 1;
        }
        proof {
            assert(concat_strings_from(vs, i as int) =~= Seq::<char>::empty());
            assert(s@ =~= concat_strings_from(vs, 0));
        }
        Json::Str(s)
    }
}

/// The addressable unit transformations read from and write to: a format
/// identifier and a structural path inside that format's document.
#[derive(Debug)]
pub struct DataLocation {
    pub format: String,
    pub path: String,
}

/// A declarative rule projecting value(s) from source location(s) to
/// destination location(s) under an operator.  An operator always matches
/// its cardinality variant by construction.
#[derive(Debug)]
pub enum Transformation {
    OneToOne { type_: OneToOne, source: DataLocation, destination: DataLocation },
    OneToMany { type_: OneToMany, source: DataLocation, destinations: Vec<DataLocation> },
    ManyToOne { type_: ManyToOne, sources: Vec<DataLocation>, destination: DataLocation },
}

/// The value a location currently addresses: the document under its format,
/// read at its path; absent formats, unparsable paths and unresolved
/// locations all read as absent.
pub open spec fn located_value(repo: Seq<(Seq<char>, JsonV)>, loc: &DataLocation) -> Option<JsonV> {
    match obj_lookup(repo, loc.format@) {
        None => None,
        Some(doc) => match parse_pointer_spec(loc.path@) {
            None => None,
            Some(segs) => get_at_spec(doc, segs),
        },
    }
}

/// The repository after `value` is scaffolded and merged at a location:
/// only the destination format's document changes; a missing destination
/// format or an unusable path leaves the repository untouched.
pub open spec fn written_at(
    repo: Seq<(Seq<char>, JsonV)>,
    loc: &DataLocation,
    value: JsonV,
) -> Seq<(Seq<char>, JsonV)> {
    match key_pos(repo, loc.format@) {
        None => repo,
        Some(p) => match parse_pointer_spec(loc.path@) {
            None => repo,
            Some(segs) => if path_representable(segs) {
                repo.update(p, (repo[p].0, merge_spec(repo[p].1, scaffold_spec(segs, value))))
            } else {
                repo
            },
        },
    }
}

/// The concatenation of the string values the source locations address,
/// from position `i` on.
pub open spec fn concat_sources_from(
    repo: Seq<(Seq<char>, JsonV)>,
    sources: Seq<DataLocation>,
    i: int,
) -> Seq<char>
    decreases sources.len() - i,
{
    if i < 0 || i >= sources.len() {
        Seq::empty()
    } else {
        (match located_value(repo, &sources[i]) {
            Some(JsonV::Str(t)) => t,
            _ => Seq::empty(),
        }) + concat_sources_from(repo, sources, i + 1)
    }
}

/// What one transformation does to the repository.
pub open spec fn apply_one_spec(repo: Seq<(Seq<char>, JsonV)>, t: &Transformation) -> Seq<
    (Seq<char>, JsonV),
> {
    match t {
        Transformation::OneToOne { type_, source, destination } => match located_value(repo, source) {
            None => repo,
            Some(v) => written_at(repo, destination, one_to_one_spec(*type_, v)),
        },
        Transformation::OneToMany { .. } => repo,
        Transformation::ManyToOne { type_: _, sources, destination } => written_at(
            repo,
            destination,
            JsonV::Str(concat_sources_from(repo, sources@, 0)),
        ),
    }
}

/// What an ordered list of transformations does to the repository, from
/// position `i` on: each is applied to the result of those before it.
pub open spec fn apply_all_spec(
    repo: Seq<(Seq<char>, JsonV)>,
    ts: Seq<Transformation>,
    i: int,
) -> Seq<(Seq<char>, JsonV)>
    decreases ts.len() - i,
{
    if i < 0 || i >= ts.len() {
        repo
    } else {
        apply_all_spec(apply_one_spec(repo, &ts[i]), ts, i + 1)
    }
}

/// The set of named documents participating in a mapping session: a mapping
/// from format identifier to an owned document.
#[derive(Debug)]
pub struct Repository {
    pub entries: Vec<(String, Json)>,
}

impl View for Repository {
    type V = Seq<(Seq<char>, JsonV)>;

    open spec fn view(&self) -> Seq<(Seq<char>, JsonV)> {
        entries_view(self.entries@)
    }
}

impl Repository {
    /// An empty repository.
    pub fn new() -> (r: Repository)
        ensures
            r@ == Seq::<(Seq<char>, JsonV)>::empty(),
    {
        let r = Repository { entries: Vec::new() };
        proof {
            assert(r@ =~= Seq::<(Seq<char>, JsonV)>::empty());
        }
        r
    }

    /// Adds a document under a format, replacing the document the format
    /// already names, if any.
    pub fn insert(&mut self, format: String, document: Json)
        ensures
            final(self)@ == (match key_pos(old(self)@, format@) {
                Some(p) => old(self)@.update(p, (old(self)@[p].0, document@)),
                None => old(self)@.push((format@, document@)),
            }),
    {
        let ghost repo0 = self@;
        let ghost docv = document@;
        proof {
            lemma_key_pos(repo0, format@);
        }
        match key_index(&self.entries, format.as_str()) {
            Some(j) => {
                let mut slot = Json::Null;
                core::mem::swap(&mut self.entries[j].1, &mut slot);
                let mut document = document;
                core::mem::swap(&mut self.entries[j].1, &mut document);
                proof {
                    assert(key_pos(repo0, format@) == Some(j as int));
                    assert(final(self)@ =~= repo0.update(j as int, (repo0[j as int].0, docv)));
                }
            },
            None => {
                self.entries.push((format, document));
                proof {
                    assert(final(self)@ =~= repo0.push((format@, document@)));
                }
            },
        }
    }

    /// Reads the current document under a format.
    pub fn get(&self, format: &str) -> (r: Option<&Json>)
        ensures
            match r {
                Some(doc) => obj_lookup(self@, format@) == Some(doc@),
                None => obj_lookup(self@, format@) is None,
            },
    {
        match key_index(&self.entries, format) {
            Some(j) => Some(&self.entries[j].1),
            None => None,
        }
    }

    /// Reads the value a location currently addresses, as a copy.
    pub fn read_location(&self, loc: &DataLocation) -> (r: Option<Json>)
        ensures
            match r {
                Some(v) => located_value(self@, loc) == Some(v@),
                None => located_value(self@, loc) is None,
            },
    {
        match self.get(loc.format.as_str()) {
            None => None,
            Some(doc) => match StructuralPath::parse(loc.path.as_str()) {
                None => None,
                Some(path) => match get_at_path(doc, &path) {
                    None => None,
                    Some(v) => Some(v.deep_clone()),
                },
            },
        }
    }

    /// Scaffolds and merges `value` at a location; only the destination
    /// format's document is touched.
    pub fn write_location(&mut self, loc: &DataLocation, value: Json)
        ensures
            final(self)@ == written_at(old(self)@, loc, value@),
    {
        let ghost repo0 = self@;
        proof {
            lemma_key_pos(repo0, loc.format@);
        }
        match key_index(&self.entries, loc.format.as_str()) {
            None => {},
            Some(j) => {
                proof {
                    assert(key_pos(repo0, loc.format@) == Some(j as int));
                }
                match StructuralPath::parse(loc.path.as_str()) {
                    None => {},
                    Some(path) => {
                        match path.construct_scaffold(value) {
                            None => {},
                            Some(sc) => {
                                let mut slot = Json::Null;
                                core::mem::swap(&mut self.entries[j].1, &mut slot);
                                let mut merged = merge_owned(slot, sc);
                                core::mem::swap(&mut self.entries[j].1, &mut merged);
                                proof {
                                    assert(final(self)@ =~= written_at(repo0, loc, value@));
                                }
                            },
                        }
                    },
                }
            },
        }
    }

    /// Applies an ordered list of transformations: later transformations
    /// see the writes of earlier ones.
    #[verifier::loop_isolation(false)]
    pub fn apply_transformations(&mut self, transformations: Vec<Transformation>)
        ensures
            final(self)@ == apply_all_spec(old(self)@, transformations@, 0),
    {
        let ghost repo0 = self@;
        let ghost ts = transformations@;
        let mut i: usize = 0;
        while i < transformations.len()
            invariant
                i <= transformations.len(),
                apply_all_spec(repo0, ts, 0) == apply_all_spec(self@, ts, i as int),
            decreases transformations.len() - i,
        {
            let ghost pre = self@;
            match &transformations[i] {
                Transformation::OneToOne { type_, source, destination } => {
                    match self.read_location(source) {
                        None => {},
                        Some(v) => {
                            let transformed = type_.apply(v);
                            self.write_location(destination, transformed);
                        },
                    }
                },
                Transformation::OneToMany { .. } => {},
                Transformation::ManyToOne { type_: _, sources, destination } => {
                    let mut s = String::new();
                    let mut k: usize = 0;
                    proof {
                        assert(concat_sources_from(pre, sources@, 0) =~= s@ + concat_sources_from(
                            pre,
                            sources@,
                            0,
                        ));
                    }
                    while k < sources.len()
                        invariant
                            k <= sources.len(),
                            self@ == pre,
                            concat_sources_from(pre, sources@, 0) == s@ + concat_sources_from(
                                pre,
                                sources@,
                                k as int,
                            ),
                        decreases sources.len() - k,
                    {
                        match self.read_location(&sources[k]) {
                            Some(v) => {
                                match v {
                                    Json::Str(t) => {
                                        s.append(t.as_str());
                                    },
                                    _ => {},
                                }
                            },
                            None => {},
                        }
                        proof {
                            assert(concat_sources_from(pre, sources@, 0) =~= s@ + concat_sources_from(
                                pre,
                                sources@,
                                k + 1,
                            ));
                        }
                        k = k + 1;
                    }
                    proof {
                        assert(concat_sources_from(pre, sources@, k as int) =~= Seq::<char>::empty());
                        assert(s@ =~= concat_sources_from(pre, sources@, 0));
                    }
                    self.write_location(destination, Json::Str(s));
                },
            }
            proof {
                assert(self@ == apply_one_spec(pre, &ts[i as int]));
                assert(apply_all_spec(repo0, ts, 0) == apply_all_spec(self@, ts, i + 1));
            }
            i = i + 1;
        }
    }
}

} // verus!
