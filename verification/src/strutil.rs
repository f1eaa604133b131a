use vstd::prelude::*;
use vstd::string::*;

verus! {

// ---------- specification ----------

/// `p` is a prefix of `s`.
pub open spec fn starts_with_spec(s: Seq<char>, p: Seq<char>) -> bool {
    p.len() <= s.len() && s.subrange(0, p.len() as int) == p
}

/// `p` occurs in `s` starting at position `i`.
pub open spec fn occurs_at(s: Seq<char>, p: Seq<char>, i: int) -> bool {
    0 <= i && i + p.len() <= s.len() && s.subrange(i, i + p.len()) == p
}

/// The first position at or after `from` where the character `c` stands in `s`.
pub open spec fn find_char_from(s: Seq<char>, c: char, from: int) -> Option<int>
    decreases s.len() - from,
{
    if from < 0 || from >= s.len() {
        None
    } else if s[from] == c {
        Some(from)
    } else {
        find_char_from(s, c, from + 1)
    }
}

/// The first position at or after `from` where `p` occurs in `s`.
pub open spec fn find_sub_from(s: Seq<char>, p: Seq<char>, from: int) -> Option<int>
    decreases s.len() + 1 - from,
{
    if from < 0 || from + p.len() > s.len() {
        None
    } else if occurs_at(s, p, from) {
        Some(from)
    } else {
        find_sub_from(s, p, from + 1)
    }
}

/// A found position is never before the position the search started from.
pub proof fn lemma_find_char_from_ge(s: Seq<char>, c: char, from: int)
    ensures
        find_char_from(s, c, from) matches Some(i) ==> from <= i < s.len() && s[i] == c,
    decreases s.len() - from,
{
    if from < 0 || from >= s.len() {
    } else if s[from] == c {
    } else {
        lemma_find_char_from_ge(s, c, from + 1);
    }
}

/// A found position is never before the position the search started from.
pub proof fn lemma_find_sub_from_ge(s: Seq<char>, p: Seq<char>, from: int)
    ensures
        find_sub_from(s, p, from) matches Some(i) ==> from <= i && occurs_at(s, p, i),
    decreases s.len() + 1 - from,
{
    if from < 0 || from + p.len() > s.len() {
    } else if occurs_at(s, p, from) {
    } else {
        lemma_find_sub_from_ge(s, p, from + 1);
    }
}

/// `s` with every `'.'` replaced by `'/'`.
pub open spec fn dots_to_slashes(s: Seq<char>) -> Seq<char> {
    Seq::new(s.len(), |i: int| if s[i] == '.' { '/' } else { s[i] })
}

/// The text between the first backtick of `s` and the backtick that follows it.
pub open spec fn between_backticks_spec(s: Seq<char>) -> Option<Seq<char>> {
    match find_char_from(s, '`', 0) {
        None => None,
        Some(i) => match find_char_from(s, '`', i + 1) {
            None => None,
            Some(j) => Some(s.subrange(i + 1, j)),
        },
    }
}

/// No newline stands in `s` between positions `lo` (inclusive) and `hi` (exclusive).
pub open spec fn no_newline_between(s: Seq<char>, lo: int, hi: int) -> bool {
    forall|k: int| lo <= k < hi ==> s[k] != '\n'
}

/// The capture of the pattern `expected (.*?) at line` when it is searched for
/// from position `from` on: the text after the first `"expected "` that is
/// followed, with no newline in between, by `" at line"`, up to that
/// first following `" at line"`.
pub open spec fn expected_capture_from(s: Seq<char>, from: int) -> Option<Seq<char>>
    decreases s.len() - from,
    via expected_capture_from_decreases
{
    match find_sub_from(s, "expected "@, from) {
        None => None,
        Some(p) => {
            let start = p + 9;
            match find_sub_from(s, " at line"@, start) {
                None => None,
                Some(q) => if no_newline_between(s, start, q) {
                    Some(s.subrange(start, q))
                } else {
                    expected_capture_from(s, p + 1)
                },
            }
        },
    }
}

#[via_fn]
proof fn expected_capture_from_decreases(s: Seq<char>, from: int) {
    lemma_find_sub_from_ge(s, "expected "@, from);
}

// ---------- executable ----------

/// Whether two string slices hold the same characters.
#[verifier::loop_isolation(false)]
pub fn str_eq(a: &str, b: &str) -> (r: bool)
    ensures
        r == (a@ == b@),
{
    let alen = a.unicode_len();
    let blen = b.unicode_len();
    if alen != blen {
        return false;
    }
    let mut i: usize = 0;
    while i < alen
        invariant
            i <= alen,
            forall|k: int| 0 <= k < i ==> a@[k] == b@[k],
        decreases alen - i,
    {
        if a.get_char(i) != b.get_char(i) {
            return false;
        }
        i = i + 1;
    }
    proof {
        assert(a@ =~= b@);
    }
    true
}

/// Whether `p` occurs in `s` starting at position `i`.
#[verifier::loop_isolation(false)]
pub fn occurs_at_exec(s: &str, p: &str, i: usize) -> (r: bool)
    requires
        i + p@.len() <= s@.len(),
    ensures
        r == occurs_at(s@, p@, i as int),
{
    let slen = s.unicode_len();
    let plen = p.unicode_len();
    let mut k: usize = 0;
    while k < plen
        invariant
            i + plen <= slen,
            k <= plen,
            forall|m: int| 0 <= m < k ==> s@[i + m] == p@[m],
        decreases plen - k,
    {
        if s.get_char(i + k) != p.get_char(k) {
            proof {
                assert(s@.subrange(i as int, i + p@.len()) != p@) by {
                    assert(s@.subrange(i as int, i + p@.len())[k as int] != p@[k as int]);
                }
            }
            return false;
        }
        k = k + 1;
    }
    proof {
        assert(s@.subrange(i as int, i + p@.len()) =~= p@);
    }
    true
}

/// Whether `p` is a prefix of `s`.
pub fn has_prefix(s: &str, p: &str) -> (r: bool)
    ensures
        r == starts_with_spec(s@, p@),
{
    let plen = p.unicode_len();
    if plen > s.unicode_len() {
        return false;
    }
    let r = occurs_at_exec(s, p, 0);
    proof {
        if occurs_at(s@, p@, 0) {
            assert(s@.subrange(0, p@.len() as int) == p@);
        }
    }
    r
}

/// The first position at or after `from` where the character `c` stands in `s`.
#[verifier::loop_isolation(false)]
pub fn find_char(s: &str, c: char, from: usize) -> (r: Option<usize>)
    ensures
        match r {
            Some(i) => find_char_from(s@, c, from as int) == Some(i as int) && i < s@.len(),
            None => find_char_from(s@, c, from as int) is None,
        },
{
    let len = s.unicode_len();
    let mut i: usize = from;
    while i < len
        invariant
            from <= i,
            find_char_from(s@, c, from as int) == find_char_from(s@, c, i as int),
        decreases len - i,
    {
        if s.get_char(i) == c {
            return Some(i);
        }
        i = i + 1;
    }
    None
}

/// The first position at or after `from` where `p` occurs in `s`.
#[verifier::loop_isolation(false)]
pub fn find_sub(s: &str, p: &str, from: usize) -> (r: Option<usize>)
    ensures
        match r {
            Some(i) => find_sub_from(s@, p@, from as int) == Some(i as int) && occurs_at(s@, p@, i as int),
            None => find_sub_from(s@, p@, from as int) is None,
        },
{
    let len = s.unicode_len();
    let plen = p.unicode_len();
    if from > len {
        return None;
    }
    if plen > len - from {
        return None;
    }
    if plen == 0 {
        proof {
            assert(s@.subrange(from as int, from as int) =~= p@);
        }
        return Some(from);
    }
    let mut i: usize = from;
    while i <= len - plen
        invariant
            from <= i,
            plen <= len,
            i <= len - plen + 1,
            find_sub_from(s@, p@, from as int) == find_sub_from(s@, p@, i as int),
        decreases len - i,
    {
        if occurs_at_exec(s, p, i) {
            return Some(i);
        }
        i = i + 1;
    }
    None
}

/// Whether `p` occurs anywhere in `s`.
pub fn contains_sub(s: &str, p: &str) -> (r: bool)
    ensures
        r == (find_sub_from(s@, p@, 0) is Some),
{
    match find_sub(s, p, 0) {
        Some(_) => true,
        None => false,
    }
}

/// The concatenation of two string slices.
pub fn concat2(a: &str, b: &str) -> (r: String)
    ensures
        r@ == a@ + b@,
{
    let mut s = String::from_str(a);
    s.append(b);
    s
}

/// The concatenation of three string slices.
pub fn concat3(a: &str, b: &str, c: &str) -> (r: String)
    ensures
        r@ == a@ + b@ + c@,
{
    let mut s = String::from_str(a);
    s.append(b);
    s.append(c);
    s
}

/// `s` with every `'.'` replaced by `'/'`.
#[verifier::loop_isolation(false)]
pub fn replace_dots(s: &str) -> (r: String)
    ensures
        r@ == dots_to_slashes(s@),
{
    proof {
        reveal_strlit("/");
    }
    let len = s.unicode_len();
    let mut out = String::new();
    let mut i: usize = 0;
    while i < len
        invariant
            i <= len,
            out@ == dots_to_slashes(s@).subrange(0, i as int),
        decreases len - i,
    {
        if s.get_char(i) == '.' {
            out.append("/");
        } else {
            let piece = s.substring_char(i, i + 1);
            out.append(piece);
        }
        proof {
            assert(out@ =~= dots_to_slashes(s@).subrange(0, i + 1));
        }
        i = i + 1;
    }
    proof {
        assert(dots_to_slashes(s@).subrange(0, s@.len() as int) =~= dots_to_slashes(s@));
    }
    out
}

/// The character a single decimal digit is written with.
pub open spec fn digit_char(d: int) -> char {
    if d == 0 {
        '0'
    } else if d == 1 {
        '1'
    } else if d == 2 {
        '2'
    } else if d == 3 {
        '3'
    } else if d == 4 {
        '4'
    } else if d == 5 {
        '5'
    } else if d == 6 {
        '6'
    } else if d == 7 {
        '7'
    } else if d == 8 {
        '8'
    } else {
        '9'
    }
}

/// The decimal writing of a number.
pub open spec fn dec_digits(n: nat) -> Seq<char>
    decreases n,
{
    if n < 10 {
        seq![digit_char(n as int)]
    } else {
        dec_digits(n / 10).push(digit_char((n % 10) as int))
    }
}

/// Writes a number in decimal.
pub fn usize_to_string(n: usize) -> (r: String)
    ensures
        r@ == dec_digits(n as nat),
    decreases n,
{
    proof {
        reveal_strlit("0");
        reveal_strlit("1");
        reveal_strlit("2");
        reveal_strlit("3");
        reveal_strlit("4");
        reveal_strlit("5");
        reveal_strlit("6");
        reveal_strlit("7");
        reveal_strlit("8");
        reveal_strlit("9");
    }
    let d = n % 10;
    let digit = if d == 0 {
        "0"
    } else if d == 1 {
        "1"
    } else if d == 2 {
        "2"
    } else if d == 3 {
        "3"
    } else if d == 4 {
        "4"
    } else if d == 5 {
        "5"
    } else if d == 6 {
        "6"
    } else if d == 7 {
        "7"
    } else if d == 8 {
        "8"
    } else {
        "9"
    };
    if n < 10 {
        let r = String::from_str(digit);
        proof {
            assert(r@ =~= seq![digit_char(n as int)]);
        }
        r
    } else {
        let mut r = usize_to_string(n / 10);
        r.append(digit);
        proof {
            assert(r@ =~= dec_digits((n / 10) as nat).push(digit_char((n % 10) as int)));
        }
        r
    }
}

// ---------- trusted extraction helpers ----------

/// Relies on `regex::Regex::new` and `regex::Regex::captures` with the
/// pattern ``"`([^`]*)`"``: the first capture group is the text between the
/// first backtick and the backtick that follows it, and there is no match
/// when `s` holds fewer than two backticks.
#[verifier::external_body]
pub(crate) fn extract_between_backticks(s: &str) -> (r: Option<String>)
    ensures
        match r {
            Some(t) => between_backticks_spec(s@) == Some(t@),
            None => between_backticks_spec(s@) is None,
        },
{
    let re = regex::Regex::new(r"`([^`]*)`").unwrap();
    re.captures(s).and_then(|caps| caps.get(1).map(|m| m.as_str().to_string()))
}

/// Relies on `regex::Regex::new` and `regex::Regex::captures` with the
/// pattern `"expected (.*?) at line"`: the leftmost match starts at the first
/// `"expected "` that is followed on the same line by `" at line"`, and the
/// lazy group captures up to the first such `" at line"`.
#[verifier::external_body]
pub(crate) fn extract_string_value(input: &str) -> (r: Option<String>)
    ensures
        match r {
            Some(t) => expected_capture_from(input@, 0) == Some(t@),
            None => expected_capture_from(input@, 0) is None,
        },
{
    let re = regex::Regex::new(r"expected (.*?) at line").unwrap();
    re.captures(input).and_then(|cap| cap.get(1).map(|m| m.as_str().to_string()))
}

} // verus!
