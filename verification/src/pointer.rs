use vstd::prelude::*;
use vstd::string::*;
use crate::strutil::{find_char_from, lemma_find_char_from_ge};
use crate::strutil::find_char;

verus! {

/// A segment of a structural path: an object key or an array index.
#[derive(Debug)]
pub enum PathSegment {
    Key(String),
    Index(usize),
}

/// The model of a path segment.
pub enum PathSegV {
    Key(Seq<char>),
    Index(int),
}

impl View for PathSegment {
    type V = PathSegV;

    open spec fn view(&self) -> PathSegV {
        match self {
            PathSegment::Key(s) => PathSegV::Key(s@),
            PathSegment::Index(i) => PathSegV::Index(*i as int),
        }
    }
}

/// An ordered sequence of segments identifying a location inside a document.
/// Its textual representation is a root-relative pointer such as `/a/b/0/c`.
#[derive(Debug)]
pub struct StructuralPath {
    pub segments: Vec<PathSegment>,
}

/// The models of a sequence of segments, in order.
pub open spec fn segs_view(v: Seq<PathSegment>) -> Seq<PathSegV> {
    Seq::new(v.len(), |i: int| v[i]@)
}

impl View for StructuralPath {
    type V = Seq<PathSegV>;

    open spec fn view(&self) -> Seq<PathSegV> {
        segs_view(self.segments@)
    }
}

/// A decimal digit.
pub open spec fn is_digit(c: char) -> bool {
    48 <= c as u32 <= 57
}

/// Every character of `t` is a decimal digit.
pub open spec fn is_digits(t: Seq<char>) -> bool {
    forall|i: int| 0 <= i < t.len() ==> is_digit(#[trigger] t[i])
}

/// The number written in decimal by `t`.
pub open spec fn digits_val(t: Seq<char>) -> int
    decreases t.len(),
{
    if t.len() == 0 {
        0
    } else {
        digits_val(t.drop_last()) * 10 + (t.last() as u32 - 48)
    }
}

/// Whether `t` is written as an array index: digits only, no leading zero,
/// and a value that the machine can address.
pub open spec fn is_index_token(t: Seq<char>) -> bool {
    t.len() > 0 && is_digits(t) && (t.len() == 1 || t[0] != '0') && digits_val(t) <= usize::MAX as int
}

/// The segment a pointer token stands for: an array index where the token is
/// written as one, otherwise an object key.
pub open spec fn seg_of_token(t: Seq<char>) -> PathSegV {
    if is_index_token(t) {
        PathSegV::Index(digits_val(t))
    } else {
        PathSegV::Key(t)
    }
}

/// The segments the tokens of a pointer stand for, in order.
pub open spec fn segs_of_tokens(ts: Seq<Seq<char>>) -> Seq<PathSegV> {
    Seq::new(ts.len(), |i: int| seg_of_token(ts[i]))
}

/// The tokens of `s` from position `from` on, split on `'/'`.
pub open spec fn split_tokens(s: Seq<char>, from: int) -> Seq<Seq<char>>
    decreases s.len() - from,
    via split_tokens_decreases
{
    match find_char_from(s, '/', from) {
        None => seq![s.subrange(from, s.len() as int)],
        Some(i) => seq![s.subrange(from, i)] + split_tokens(s, i + 1),
    }
}

#[via_fn]
proof fn split_tokens_decreases(s: Seq<char>, from: int) {
    lemma_find_char_from_ge(s, '/', from);
}

/// The segments a pointer string stands for: the empty string is the root,
/// any other pointer must begin with `'/'`, and its tokens follow, split on
/// `'/'`.
pub open spec fn parse_pointer_spec(s: Seq<char>) -> Option<Seq<PathSegV>> {
    if s.len() == 0 {
        Some(Seq::empty())
    } else if s[0] != '/' {
        None
    } else {
        Some(segs_of_tokens(split_tokens(s, 1)))
    }
}

/// The value of a decimal prefix never exceeds the value of the whole.
proof fn lemma_digits_val_prefix_le(t: Seq<char>, k: int)
    requires
        0 <= k <= t.len(),
        is_digits(t),
    ensures
        digits_val(t.subrange(0, k)) <= digits_val(t),
        digits_val(t.subrange(0, k)) >= 0,
    decreases t.len() - k,
{
    if k == t.len() {
        assert(t.subrange(0, k) =~= t);
        lemma_digits_val_nonneg(t);
    } else {
        lemma_digits_val_prefix_le(t, k + 1);
        assert(t.subrange(0, k + 1).drop_last() =~= t.subrange(0, k));
        lemma_digits_val_nonneg(t.subrange(0, k));
    }
}

/// A string of digits writes a non-negative number.
proof fn lemma_digits_val_nonneg(t: Seq<char>)
    requires
        is_digits(t),
    ensures
        digits_val(t) >= 0,
    decreases t.len(),
{
    if t.len() > 0 {
        assert(is_digits(t.drop_last()));
        lemma_digits_val_nonneg(t.drop_last());
    }
}

/// The segment the token `t` stands for.
#[verifier::loop_isolation(false)]
fn token_to_segment(t: &str) -> (seg: PathSegment)
    ensures
        seg@ == seg_of_token(t@),
{
    let len = t.unicode_len();
    if len == 0 {
        return PathSegment::Key(String::from_str(t));
    }
    let mut i: usize = 0;
    while i < len
        invariant
            i <= len,
            forall|k: int| 0 <= k < i ==> is_digit(#[trigger] t@[k]),
        decreases len - i,
    {
        let c = t.get_char(i);
        let u = c as u32;
        if u < 48 || u > 57 {
            return PathSegment::Key(String::from_str(t));
        }
        i = i + 1;
    }
    if len > 1 && t.get_char(0) == '0' {
        return PathSegment::Key(String::from_str(t));
    }
    let mut acc: usize = 0;
    let mut j: usize = 0;
    while j < len
        invariant
            j <= len,
            acc == digits_val(t@.subrange(0, j as int)),
        decreases len - j,
    {
        let d = (t.get_char(j) as u32 - 48) as usize;
        if acc > (usize::MAX - d) / 10 {
            proof {
                lemma_digits_val_prefix_le(t@, j + 1);
                assert(t@.subrange(0, j + 1).drop_last() =~= t@.subrange(0, j as int));
                assert(t@.subrange(0, j + 1).last() == t@[j as int]);
                assert(digits_val(t@.subrange(0, j + 1)) == acc * 10 + d);
                assert(acc * 10 + d > usize::MAX) by {
                    assert(acc >= (usize::MAX - d) / 10 + 1);
                    assert(((usize::MAX - d) / 10 + 1) * 10 > usize::MAX - d) by (nonlinear_arith);
                    assert(acc * 10 >= ((usize::MAX - d) / 10 + 1) * 10) by (nonlinear_arith)
                        requires acc >= (usize::MAX - d) / 10 + 1;
                }
                assert(digits_val(t@) > usize::MAX as int);
            }
            return PathSegment::Key(String::from_str(t));
        }
        proof {
            assert(acc * 10 + d <= usize::MAX) by {
                assert(acc <= (usize::MAX - d) / 10);
                assert(((usize::MAX - d) / 10) * 10 <= usize::MAX - d) by (nonlinear_arith);
                assert(acc * 10 <= ((usize::MAX - d) / 10) * 10) by (nonlinear_arith)
                    requires acc <= (usize::MAX - d) / 10;
            }
            assert(t@.subrange(0, j + 1).drop_last() =~= t@.subrange(0, j as int));
            assert(t@.subrange(0, j + 1).last() == t@[j as int]);
        }
        acc = acc * 10 + d;
        j = j + 1;
    }
    proof {
        assert(t@.subrange(0, len as int) =~= t@);
    }
    PathSegment::Index(acc)
}

/// The segments of the tokens of `s` from position `from` on.
#[verifier::loop_isolation(false)]
fn parse_rest(s: &str, from: usize) -> (r: Vec<PathSegment>)
    requires
        from <= s@.len(),
    ensures
        segs_view(r@) == segs_of_tokens(split_tokens(s@, from as int)),
    decreases s@.len() - from,
{
    let len = s.unicode_len();
    match find_char(s, '/', from) {
        None => {
            let token = s.substring_char(from, len);
            let seg = token_to_segment(token);
            let r = vec![seg];
            proof {
                assert(segs_view(r@) =~= segs_of_tokens(split_tokens(s@, from as int)));
            }
            r
        },
        Some(i) => {
            proof {
                lemma_find_char_from_ge(s@, '/', from as int);
            }
            let token = s.substring_char(from, i);
            let seg = token_to_segment(token);
            let mut rest = parse_rest(s, i + 1);
            let ghost restseq = segs_view(rest@);
            let ghost resttoks = split_tokens(s@, i + 1);
            let mut r = vec![seg];
            r.append(&mut rest);
            proof {
                let toks = split_tokens(s@, from as int);
                assert(toks =~= seq![s@.subrange(from as int, i as int)] + resttoks);
                assert(restseq.len() == resttoks.len());
                assert forall|k: int| 0 <= k < r.len() implies r[k]@ == (#[trigger] segs_of_tokens(toks)[k]) by {
                    let head = seq![s@.subrange(from as int, i as int)];
                    if k == 0 {
                        assert((head + resttoks)[0] == s@.subrange(from as int, i as int));
                        assert(r[0]@ == seg_of_token(s@.subrange(from as int, i as int)));
                    } else {
                        assert(restseq[k - 1] == segs_of_tokens(resttoks)[k - 1]);
                        assert(r[k]@ == restseq[k - 1]);
                        assert((head + resttoks)[k] == resttoks[k - 1]);
                    }
                }
                assert(segs_view(r@) =~= segs_of_tokens(toks));
            }
            r
        },
    }
}

impl StructuralPath {
    /// Parses a root-relative pointer string into its segments: the empty
    /// string is the root path, and any other pointer must begin with `'/'`.
    pub fn parse(s: &str) -> (r: Option<StructuralPath>)
        ensures
            match r {
                Some(p) => parse_pointer_spec(s@) == Some(p@),
                None => parse_pointer_spec(s@) is None,
            },
    {
        let len = s.unicode_len();
        if len == 0 {
            let p = StructuralPath { segments: Vec::new() };
            proof {
                assert(segs_view(p.segments@) =~= Seq::<PathSegV>::empty());
            }
            return Some(p);
        }
        if s.get_char(0) != '/' {
            return None;
        }
        let segs = parse_rest(s, 1);
        let p = StructuralPath { segments: segs };
        proof {
            assert(p@ =~= segs_of_tokens(split_tokens(s@, 1)));
        }
        Some(p)
    }
}

} // verus!
