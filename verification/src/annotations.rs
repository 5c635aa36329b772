//! The PCG annotations written in test sources: finding them in source
//! lines, attributing them to the innermost body that contains them, and
//! checking the states that the analysis reports against them.
use vstd::prelude::*;
use crate::text::{chars_of, string_of};

verus! {

/// `pat` occurs in `s` at index `i`.
pub open spec fn occurs_at(s: Seq<char>, pat: Seq<char>, i: int) -> bool {
    0 <= i && i + pat.len() <= s.len() && s.subrange(i, i + pat.len()) == pat
}

/// The first index at or after `i` at which `pat` occurs in `s`.
pub open spec fn find_from(s: Seq<char>, pat: Seq<char>, i: int) -> Option<int>
    decreases s.len() + 1 - i,
{
    if i < 0 || i + pat.len() > s.len() {
        None
    } else if occurs_at(s, pat, i) {
        Some(i)
    } else {
        find_from(s, pat, i + 1)
    }
}

/// What `find_from` finds is the first occurrence from `i` on.
pub(crate) proof fn lemma_find_from(s: Seq<char>, pat: Seq<char>, i: int)
    requires
        0 <= i,
    ensures
        match find_from(s, pat, i) {
            Some(k) => i <= k && occurs_at(s, pat, k) && forall|j: int| i <= j < k ==> !occurs_at(s, pat, j),
            None => forall|j: int| i <= j ==> !occurs_at(s, pat, j),
        },
    decreases s.len() + 1 - i,
{
    if i + pat.len() <= s.len() && !occurs_at(s, pat, i) {
        lemma_find_from(s, pat, i + 1);
    }
}

/// The index of the first occurrence of `pat` in `s`.
pub fn find(s: &Vec<char>, pat: &Vec<char>) -> (r: Option<usize>)
    ensures
        match r {
            Some(k) => find_from(s@, pat@, 0) == Some(k as int),
            None => find_from(s@, pat@, 0) is None,
        },
{
    if pat.len() > s.len() {
        return None;
    }
    if pat.len() == 0 {
        assert(s@.subrange(0, 0) =~= pat@);
        return Some(0);
    }
    let last = s.len() - pat.len();
    let mut i: usize = 0;
    while i <= last
        invariant
            last == s@.len() - pat@.len(),
            pat@.len() <= s@.len(),
            0 < pat@.len(),
            s@.len() <= usize::MAX,
            i <= last + 1,
            find_from(s@, pat@, 0) == find_from(s@, pat@, i as int),
        decreases last + 1 - i,
    {
        let mut k: usize = 0;
        let mut ok = true;
        while k < pat.len()
            invariant
                pat@.len() <= s@.len(),
                s@.len() <= usize::MAX,
                i <= s@.len() - pat@.len(),
                k <= pat@.len(),
                ok == forall|j: int| 0 <= j < k ==> s@[i + j] == pat@[j],
            decreases pat.len() - k,
        {
            if s[i + k] != pat[k] {
                ok = false;
            }
            k = k + 1;
        }
        proof {
            if ok {
                assert(s@.subrange(i as int, i + pat@.len()) =~= pat@);
            } else {
                let j = choose|j: int| 0 <= j < pat@.len() && s@[i + j] != pat@[j];
                assert(s@.subrange(i as int, i + pat@.len())[j] != pat@[j]);
            }
        }
        if ok {
            return Some(i);
        }
        i = i + 1;
    }
    None
}

/// Whether `c` is white space, as `char::is_whitespace` decides it: the
/// characters with the Unicode property `White_Space`.
pub open spec fn is_whitespace(c: char) -> bool {
    ('\u{9}' <= c && c <= '\u{D}') || c == ' ' || c == '\u{85}' || c == '\u{A0}' || c == '\u{1680}'
        || ('\u{2000}' <= c && c <= '\u{200A}') || c == '\u{2028}' || c == '\u{2029}' || c == '\u{202F}'
        || c == '\u{205F}' || c == '\u{3000}'
}

/// Whether `c` is white space.
pub fn char_is_whitespace(c: char) -> (b: bool)
    ensures
        b == is_whitespace(c),
{
    ('\u{9}' <= c && c <= '\u{D}') || c == ' ' || c == '\u{85}' || c == '\u{A0}' || c == '\u{1680}'
        || ('\u{2000}' <= c && c <= '\u{200A}') || c == '\u{2028}' || c == '\u{2029}' || c == '\u{202F}'
        || c == '\u{205F}' || c == '\u{3000}'
}

/// `s` without its leading white space.
pub open spec fn trim_start(s: Seq<char>) -> Seq<char>
    decreases s.len(),
{
    if s.len() > 0 && is_whitespace(s[0]) {
        trim_start(s.subrange(1, s.len() as int))
    } else {
        s
    }
}

/// `s` without its trailing white space.
pub open spec fn trim_end(s: Seq<char>) -> Seq<char>
    decreases s.len(),
{
    if s.len() > 0 && is_whitespace(s.last()) {
        trim_end(s.drop_last())
    } else {
        s
    }
}

/// `s` without its leading and trailing white space.
pub open spec fn trim(s: Seq<char>) -> Seq<char> {
    trim_end(trim_start(s))
}

/// The characters of `v` from `lo`, without leading and trailing white
/// space.
pub fn trim_chars(v: &Vec<char>, lo: usize) -> (r: Vec<char>)
    requires
        lo <= v@.len(),
    ensures
        r@ == trim(v@.subrange(lo as int, v@.len() as int)),
{
    let n = v.len();
    let mut a: usize = lo;
    while a < n && char_is_whitespace(v[a])
        invariant
            n == v@.len(),
            lo <= a <= n,
            trim_start(v@.subrange(lo as int, n as int)) == trim_start(v@.subrange(a as int, n as int)),
        decreases n - a,
    {
        assert(v@.subrange(a as int, n as int).subrange(1, (n - a) as int) =~= v@.subrange(a + 1, n as int));
        a = a + 1;
    }
    assert(trim_start(v@.subrange(a as int, n as int)) == v@.subrange(a as int, n as int));
    let mut b: usize = n;
    while b > a && char_is_whitespace(v[b - 1])
        invariant
            n == v@.len(),
            a <= b <= n,
            trim(v@.subrange(lo as int, n as int)) == trim_end(v@.subrange(a as int, b as int)),
        decreases b - a,
    {
        assert(v@.subrange(a as int, b as int).drop_last() =~= v@.subrange(a as int, b - 1));
        b = b - 1;
    }
    let mut r: Vec<char> = Vec::new();
    let mut k: usize = a;
    while k < b
        invariant
            a <= k <= b,
            b <= v@.len(),
            r@ == v@.subrange(a as int, k as int),
        decreases b - k,
    {
        r.push(v[k]);
        k = k + 1;
        assert(r@ =~= v@.subrange(a as int, k as int));
    }
    r
}

/// The second piece of `s` split at `pat`: what follows the first
/// occurrence of `pat`, up to the next one; none where `pat` does not
/// occur.
pub open spec fn second_piece(s: Seq<char>, pat: Seq<char>) -> Option<Seq<char>> {
    match find_from(s, pat, 0) {
        None => None,
        Some(i) => {
            let rest = s.subrange(i + pat.len(), s.len() as int);
            Some(match find_from(rest, pat, 0) {
                Some(j) => rest.subrange(0, j),
                None => rest,
            })
        },
    }
}

/// The characters of `v` from `lo` to `hi`.
pub(crate) fn slice_chars(v: &Vec<char>, lo: usize, hi: usize) -> (r: Vec<char>)
    requires
        lo <= hi <= v@.len(),
    ensures
        r@ == v@.subrange(lo as int, hi as int),
{
    let mut r: Vec<char> = Vec::new();
    let mut k: usize = lo;
    while k < hi
        invariant
            lo <= k <= hi,
            hi <= v@.len(),
            r@ == v@.subrange(lo as int, k as int),
        decreases hi - k,
    {
        r.push(v[k]);
        k = k + 1;
        assert(r@ =~= v@.subrange(lo as int, k as int));
    }
    r
}

/// The annotation that `line` carries after `marker`: the second piece of
/// the line split at the marker, trimmed.
pub fn annotation_after(line: &str, marker: &str) -> (r: Option<String>)
    ensures
        match second_piece(line@, marker@) {
            Some(p) => r is Some && r->0@ == trim(p),
            None => r is None,
        },
{
    let v = chars_of(line);
    let m = chars_of(marker);
    match find(&v, &m) {
        None => None,
        Some(i) => {
            let vlen = v.len();
            proof {
                lemma_find_from(v@, m@, 0);
                assert(i + m@.len() <= v@.len());
            }
            let rest = slice_chars(&v, i + m.len(), vlen);
            let piece = match find(&rest, &m) {
                Some(j) => {
                    proof {
                        lemma_find_from(rest@, m@, 0);
                    }
                    slice_chars(&rest, 0, j)
                },
                None => rest,
            };
            let t = trim_chars(&piece, 0);
            proof {
                assert(piece@.subrange(0, piece@.len() as int) =~= piece@);
            }
            Some(string_of(&t))
        },
    }
}

/// The annotations that lines carry after `marker`, in order.
pub open spec fn annotations_in(lines: Seq<Seq<char>>, marker: Seq<char>) -> Seq<Seq<char>>
    decreases lines.len(),
{
    if lines.len() == 0 {
        Seq::empty()
    } else {
        let rest = annotations_in(lines.drop_last(), marker);
        match second_piece(lines.last(), marker) {
            Some(p) => rest.push(trim(p)),
            None => rest,
        }
    }
}

/// The marker of an annotation that the analysis must report.
pub open spec fn expected_marker() -> Seq<char> {
    "// PCG: "@
}

/// The marker of an annotation that the analysis must not report.
pub open spec fn forbidden_marker() -> Seq<char> {
    "// ~PCG: "@
}

/// The outcome of checking reported states against a source's annotations.
#[derive(Debug, PartialEq, Eq)]
pub enum AnnotationCheck {
    /// Every expected annotation is reported and no forbidden one is.
    Passed,
    /// The expected annotations that are not reported, in order.
    Missing(Vec<String>),
    /// The first forbidden annotation that is reported.
    Unexpected(String),
}

/// The views of some strings.
pub open spec fn views(v: Seq<String>) -> Seq<Seq<char>> {
    v.map_values(|s: String| s@)
}

/// The annotations that `lines` carry after `marker`, in order.
pub fn annotations_after(lines: &Vec<String>, marker: &str) -> (r: Vec<String>)
    ensures
        views(r@) == annotations_in(views(lines@), marker@),
{
    let mut r: Vec<String> = Vec::new();
    let mut i: usize = 0;
    while i < lines.len()
        invariant
            i <= lines@.len(),
            views(r@) == annotations_in(views(lines@.subrange(0, i as int)), marker@),
        decreases lines.len() - i,
    {
        let a = annotation_after(lines[i].as_str(), marker);
        proof {
            assert(views(lines@.subrange(0, i + 1)).drop_last() =~= views(lines@.subrange(0, i as int)));
            assert(views(lines@.subrange(0, i + 1)).last() == lines@[i as int]@);
        }
        match a {
            Some(s) => {
                r.push(s);
                proof {
                    assert(views(r@) =~= annotations_in(views(lines@.subrange(0, i as int)), marker@).push(r@.last()@));
                }
            },
            None => {},
        }
        i = i + 1;
    }
    proof {
        assert(lines@.subrange(0, lines@.len() as int) =~= lines@);
    }
    r
}

/// Whether `s` is one of `set`.
pub fn contains_string(set: &Vec<String>, s: &String) -> (b: bool)
    ensures
        b == views(set@).contains(s@),
{
    let mut i: usize = 0;
    while i < set.len()
        invariant
            i <= set@.len(),
            forall|j: int| 0 <= j < i ==> set@[j]@ != s@,
        decreases set.len() - i,
    {
        if set[i].eq(s) {
            assert(views(set@)[i as int] == s@);
            return true;
        }
        i = i + 1;
    }
    proof {
        if views(set@).contains(s@) {
            let j = choose|j: int| 0 <= j < views(set@).len() && views(set@)[j] == s@;
            assert(set@[j]@ == s@);
        }
    }
    false
}

/// The expected annotations that are not reported, in order.
pub open spec fn missing_annotations(expected: Seq<Seq<char>>, reported: Seq<Seq<char>>) -> Seq<Seq<char>>
    decreases expected.len(),
{
    if expected.len() == 0 {
        Seq::empty()
    } else {
        let rest = missing_annotations(expected.drop_last(), reported);
        if reported.contains(expected.last()) { rest } else { rest.push(expected.last()) }
    }
}

/// The index of the first forbidden annotation that is reported, from
/// index `i` on.
pub open spec fn first_reported(forbidden: Seq<Seq<char>>, reported: Seq<Seq<char>>, i: int) -> Option<int>
    decreases forbidden.len() - i,
{
    if i < 0 || i >= forbidden.len() {
        None
    } else if reported.contains(forbidden[i]) {
        Some(i)
    } else {
        first_reported(forbidden, reported, i + 1)
    }
}

/// What `first_reported` finds is reported and comes from `i` on.
proof fn lemma_first_reported(forbidden: Seq<Seq<char>>, reported: Seq<Seq<char>>, i: int)
    requires
        0 <= i,
    ensures
        match first_reported(forbidden, reported, i) {
            Some(k) => i <= k < forbidden.len() && reported.contains(forbidden[k]),
            None => true,
        },
    decreases forbidden.len() - i,
{
    if i < forbidden.len() && !reported.contains(forbidden[i]) {
        lemma_first_reported(forbidden, reported, i + 1);
    }
}

/// Checks the lines that the analysis reports against the annotations of
/// the source lines: every annotation after `// PCG: ` must be reported,
/// and none after `// ~PCG: ` may be.
pub fn check_annotations(reported: &Vec<String>, source: &Vec<String>) -> (r: AnnotationCheck)
    ensures
        ({
            let expected = annotations_in(views(source@), expected_marker());
            let forbidden = annotations_in(views(source@), forbidden_marker());
            let missing = missing_annotations(expected, views(reported@));
            if missing.len() > 0 {
                r is Missing && views(r->Missing_0@) == missing
            } else {
                match first_reported(forbidden, views(reported@), 0) {
                    Some(k) => r is Unexpected && r->Unexpected_0@ == forbidden[k],
                    None => r is Passed,
                }
            }
        }),
{
    proof {
        lemma_first_reported(annotations_in(views(source@), forbidden_marker()), views(reported@), 0);
    }
    let expected = annotations_after(source, "// PCG: ");
    let forbidden = annotations_after(source, "// ~PCG: ");
    let mut missing: Vec<String> = Vec::new();
    let mut i: usize = 0;
    while i < expected.len()
        invariant
            i <= expected@.len(),
            views(missing@) == missing_annotations(views(expected@).subrange(0, i as int), views(reported@)),
        decreases expected.len() - i,
    {
        let seen = contains_string(reported, &expected[i]);
        proof {
            assert(views(expected@).subrange(0, i + 1).drop_last() =~= views(expected@).subrange(0, i as int));
        }
        if !seen {
            let c = expected[i].clone();
            missing.push(c);
            proof {
                assert(views(missing@) =~= missing_annotations(views(expected@).subrange(0, i as int), views(reported@)).push(expected@[i as int]@));
            }
        }
        i = i + 1;
    }
    proof {
        assert(views(expected@).subrange(0, expected@.len() as int) =~= views(expected@));
    }
    if missing.len() > 0 {
        return AnnotationCheck::Missing(missing);
    }
    assert(views(missing@).len() == 0);
    let mut k: usize = 0;
    while k < forbidden.len()
        invariant
            k <= forbidden@.len(),
            missing@.len() == 0,
            views(missing@) == missing_annotations(annotations_in(views(source@), expected_marker()), views(reported@)),
            views(forbidden@) == annotations_in(views(source@), forbidden_marker()),
            first_reported(views(forbidden@), views(reported@), 0) == first_reported(views(forbidden@), views(reported@), k as int),
        decreases forbidden.len() - k,
    {
        if contains_string(reported, &forbidden[k]) {
            let c = forbidden[k].clone();
            proof {
                assert(views(forbidden@)[k as int] == forbidden@[k as int]@);
                assert(first_reported(views(forbidden@), views(reported@), k as int) == Some(k as int));
            }
            return AnnotationCheck::Unexpected(c);
        }
        proof {
            assert(views(forbidden@)[k as int] == forbidden@[k as int]@);
        }
        k = k + 1;
    }
    AnnotationCheck::Passed
}

} // verus!
