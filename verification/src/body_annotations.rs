//! Attributing the annotations of a source to bodies. The span of a body
//! textually contains the spans of the bodies nested inside it, so an
//! annotation belongs to the innermost body that contains it: a body keeps
//! an annotation only when none of the bodies directly nested in it
//! contains the annotation's position.
use vstd::prelude::*;
use crate::annotations::{occurs_at, find_from, find, lemma_find_from, trim, trim_chars, slice_chars, views};
use crate::text::{chars_of, string_of};
use crate::region::RegionIdx;

verus! {

/// What an annotation says of a body.
#[derive(Clone, Copy, Debug, PartialEq, Eq, Structural)]
pub enum AnnotationKind {
    /// The state must arise somewhere in the body.
    Expected,
    /// The state must not arise anywhere in the body.
    Forbidden,
    /// How a lifetime of the body is written.
    LifetimeDisplay,
}

/// The text that starts an annotation of each kind.
pub open spec fn marker_text(kind: AnnotationKind) -> Seq<char> {
    match kind {
        AnnotationKind::Expected => "// PCG: "@,
        AnnotationKind::Forbidden => "// ~PCG: "@,
        AnnotationKind::LifetimeDisplay => "// PCG_LIFETIME_DISPLAY: "@,
    }
}

/// The text that starts an annotation of `kind`.
pub fn marker(kind: AnnotationKind) -> (m: &'static str)
    ensures
        m@ == marker_text(kind),
{
    match kind {
        AnnotationKind::Expected => "// PCG: ",
        AnnotationKind::Forbidden => "// ~PCG: ",
        AnnotationKind::LifetimeDisplay => "// PCG_LIFETIME_DISPLAY: ",
    }
}

/// A line carries the markers of at most one kind.
pub open spec fn at_most_one_marker(line: Seq<char>) -> bool {
    let e = find_from(line, marker_text(AnnotationKind::Expected), 0) is Some;
    let f = find_from(line, marker_text(AnnotationKind::Forbidden), 0) is Some;
    let l = find_from(line, marker_text(AnnotationKind::LifetimeDisplay), 0) is Some;
    !(e && f) && !(e && l) && !(f && l)
}

/// The kind of the annotation a line carries, and where its marker starts.
pub open spec fn line_marker(line: Seq<char>) -> Option<(AnnotationKind, int)> {
    match find_from(line, marker_text(AnnotationKind::Expected), 0) {
        Some(i) => Some((AnnotationKind::Expected, i)),
        None => match find_from(line, marker_text(AnnotationKind::Forbidden), 0) {
            Some(i) => Some((AnnotationKind::Forbidden, i)),
            None => match find_from(line, marker_text(AnnotationKind::LifetimeDisplay), 0) {
                Some(i) => Some((AnnotationKind::LifetimeDisplay, i)),
                None => None,
            },
        },
    }
}

/// The number of bytes of a character in UTF-8.
pub open spec fn char_utf8_len(c: char) -> nat {
    if (c as u32) < 0x80 { 1 } else if (c as u32) < 0x800 { 2 } else if (c as u32) < 0x10000 { 3 } else { 4 }
}

/// The number of bytes of some characters in UTF-8.
pub open spec fn utf8_len(s: Seq<char>) -> nat
    decreases s.len(),
{
    if s.len() == 0 { 0 } else { utf8_len(s.drop_last()) + char_utf8_len(s.last()) }
}

/// The UTF-8 length of two pieces is the sum of theirs.
pub proof fn lemma_utf8_len_add(a: Seq<char>, b: Seq<char>)
    ensures
        utf8_len(a + b) == utf8_len(a) + utf8_len(b),
    decreases b.len(),
{
    if b.len() > 0 {
        assert((a + b).drop_last() =~= a + b.drop_last());
        lemma_utf8_len_add(a, b.drop_last());
    } else {
        assert(a + b =~= a);
    }
}

/// A prefix is no longer in UTF-8 than the whole.
proof fn lemma_utf8_len_prefix(s: Seq<char>, k: int)
    requires
        0 <= k <= s.len(),
    ensures
        utf8_len(s.subrange(0, k)) <= utf8_len(s),
{
    lemma_utf8_len_add(s.subrange(0, k), s.subrange(k, s.len() as int));
    assert(s.subrange(0, k) + s.subrange(k, s.len() as int) =~= s);
}

/// The number of bytes of `c` in UTF-8.
fn char_len_utf8(c: char) -> (n: usize)
    ensures
        n == char_utf8_len(c),
{
    let u = c as u32;
    if u < 0x80 { 1 } else if u < 0x800 { 2 } else if u < 0x10000 { 3 } else { 4 }
}

/// The number of bytes of the first `k` characters of `v` in UTF-8.
fn utf8_prefix_len(v: &Vec<char>, k: usize) -> (n: usize)
    requires
        k <= v@.len(),
        utf8_len(v@) <= usize::MAX,
    ensures
        n == utf8_len(v@.subrange(0, k as int)),
{
    proof {
        lemma_utf8_len_prefix(v@, k as int);
    }
    let mut n: usize = 0;
    let mut j: usize = 0;
    while j < k
        invariant
            j <= k <= v@.len(),
            utf8_len(v@.subrange(0, k as int)) <= usize::MAX,
            n == utf8_len(v@.subrange(0, j as int)),
        decreases k - j,
    {
        proof {
            assert(v@.subrange(0, j + 1).drop_last() =~= v@.subrange(0, j as int));
            lemma_utf8_len_add(v@.subrange(0, j + 1), v@.subrange(j + 1, k as int));
            assert(v@.subrange(0, j + 1) + v@.subrange(j + 1, k as int) =~= v@.subrange(0, k as int));
        }
        n = n + char_len_utf8(v[j]);
        j = j + 1;
    }
    n
}

/// An annotation found in a line: its kind, the text after the marker
/// without surrounding white space, and the byte offset of the marker in
/// the line.
#[derive(Debug)]
pub struct MarkerMatch {
    pub kind: AnnotationKind,
    pub payload: String,
    pub offset: usize,
}

/// The annotation a line carries: its kind, payload and marker offset.
pub open spec fn line_annotation(line: Seq<char>) -> Option<(AnnotationKind, Seq<char>, nat)> {
    match line_marker(line) {
        None => None,
        Some((kind, i)) => Some((kind, trim(line.subrange(i + marker_text(kind).len(), line.len() as int)),
            utf8_len(line.subrange(0, i)))),
    }
}

impl MarkerMatch {
    /// The annotation that `line` carries, if any.
    pub fn of_line(line: &str) -> (r: Option<MarkerMatch>)
        requires
            at_most_one_marker(line@),
            utf8_len(line@) <= usize::MAX,
        ensures
            match line_annotation(line@) {
                None => r is None,
                Some((kind, payload, offset)) => r is Some && r->0.kind == kind && r->0.payload@ == payload
                    && r->0.offset == offset,
            },
    {
        let v = chars_of(line);
        Self::of_chars(&v)
    }

    /// The annotation that a line, given by its characters, carries.
    fn of_chars(v: &Vec<char>) -> (r: Option<MarkerMatch>)
        requires
            at_most_one_marker(v@),
            utf8_len(v@) <= usize::MAX,
        ensures
            match line_annotation(v@) {
                None => r is None,
                Some((kind, payload, offset)) => r is Some && r->0.kind == kind && r->0.payload@ == payload
                    && r->0.offset == offset,
            },
    {
        let kinds = [AnnotationKind::Expected, AnnotationKind::Forbidden, AnnotationKind::LifetimeDisplay];
        let mut t: usize = 0;
        while t < 3
            invariant
                t <= 3,
                kinds@ == seq![AnnotationKind::Expected, AnnotationKind::Forbidden, AnnotationKind::LifetimeDisplay],
                forall|u: int| 0 <= u < t ==> find_from(v@, marker_text(#[trigger] kinds@[u]), 0) is None,
                at_most_one_marker(v@),
                utf8_len(v@) <= usize::MAX,
            decreases 3 - t,
        {
            let kind = kinds[t];
            let m = chars_of(marker(kind));
            match find(v, &m) {
                Some(i) => {
                    proof {
                        lemma_find_from(v@, m@, 0);
                        assert(kinds@[0] == AnnotationKind::Expected);
                        assert(kinds@[1] == AnnotationKind::Forbidden);
                        assert(line_marker(v@) == Some((kind, i as int)));
                    }
                    let vlen = v.len();
                    let rest = trim_chars(v, i + m.len());
                    let offset = utf8_prefix_len(v, i);
                    return Some(MarkerMatch { kind, payload: string_of(&rest), offset });
                },
                None => {},
            }
            t = t + 1;
        }
        proof {
            assert(find_from(v@, marker_text(kinds@[0]), 0) is None);
            assert(find_from(v@, marker_text(kinds@[1]), 0) is None);
            assert(find_from(v@, marker_text(kinds@[2]), 0) is None);
        }
        None
    }
}

/// A span of source bytes, from `lo` to before `hi`.
#[derive(Clone, Copy, Debug, PartialEq, Eq, Structural)]
pub struct Span {
    pub lo: u32,
    pub hi: u32,
}

/// Whether `span` contains the byte position `pos`.
pub fn contains(span: Span, pos: u32) -> (b: bool)
    ensures
        b == (span.lo <= pos && pos < span.hi),
{
    span.lo <= pos && pos < span.hi
}

/// Whether one of `spans` contains `pos`.
pub open spec fn claimed(spans: Seq<Span>, pos: int) -> bool {
    exists|k: int| 0 <= k < spans.len() && spans[k].lo <= pos && pos < #[trigger] spans[k].hi
}

/// The first line of some text: up to and with the first line feed, or the
/// whole text if it has none.
pub open spec fn first_line(s: Seq<char>) -> Seq<char> {
    match find_from(s, seq!['\n'], 0) {
        Some(i) => s.subrange(0, i + 1),
        None => s,
    }
}

/// The first line of nonempty text is nonempty and a prefix of it.
proof fn lemma_first_line(s: Seq<char>)
    requires
        s.len() > 0,
    ensures
        0 < first_line(s).len() <= s.len(),
        first_line(s) == s.subrange(0, first_line(s).len() as int),
{
    lemma_find_from(s, seq!['\n'], 0);
}

/// The length of the first line of nonempty text.
fn first_line_len(rest: &Vec<char>) -> (len: usize)
    requires
        rest@.len() > 0,
    ensures
        len == first_line(rest@).len(),
        0 < len <= rest@.len(),
        first_line(rest@) == rest@.subrange(0, len as int),
{
    let mut nl: Vec<char> = Vec::new();
    nl.push('\n');
    assert(nl@ =~= seq!['\n']);
    proof {
        lemma_find_from(rest@, nl@, 0);
        lemma_first_line(rest@);
    }
    let rlen = rest.len();
    match find(rest, &nl) {
        Some(i) => i + 1,
        None => rlen,
    }
}

/// Every line of the text carries the markers of at most one kind.
pub open spec fn lines_well_formed(s: Seq<char>) -> bool
    decreases s.len(),
{
    if s.len() == 0 {
        true
    } else {
        let line = first_line(s);
        at_most_one_marker(line) && if 0 < line.len() <= s.len() {
            lines_well_formed(s.subrange(line.len() as int, s.len() as int))
        } else {
            true
        }
    }
}

/// The annotations of a body: expected states, forbidden states, and the
/// payloads of lifetime display annotations.
pub type AnnotationLists = (Seq<Seq<char>>, Seq<Seq<char>>, Seq<Seq<char>>);

/// The lists with one more annotation of `kind` in front.
pub open spec fn prepend(kind: AnnotationKind, payload: Seq<char>, r: AnnotationLists) -> AnnotationLists {
    match kind {
        AnnotationKind::Expected => (seq![payload] + r.0, r.1, r.2),
        AnnotationKind::Forbidden => (r.0, seq![payload] + r.1, r.2),
        AnnotationKind::LifetimeDisplay => (r.0, r.1, seq![payload] + r.2),
    }
}

/// The lists of `a` followed by those of `b`.
pub open spec fn concat(a: AnnotationLists, b: AnnotationLists) -> AnnotationLists {
    (a.0 + b.0, a.1 + b.1, a.2 + b.2)
}

/// The annotations of text `s` that starts at byte `start` which no span
/// of `nested` claims, in order.
pub open spec fn body_annotations(s: Seq<char>, start: int, nested: Seq<Span>) -> AnnotationLists
    decreases s.len(),
{
    if s.len() == 0 {
        (Seq::empty(), Seq::empty(), Seq::empty())
    } else {
        let line = first_line(s);
        if 0 < line.len() <= s.len() {
            let rest = body_annotations(s.subrange(line.len() as int, s.len() as int), start + utf8_len(line), nested);
            match line_annotation(line) {
                None => rest,
                Some((kind, payload, offset)) => if claimed(nested, start + offset) {
                    rest
                } else {
                    prepend(kind, payload, rest)
                },
            }
        } else {
            (Seq::empty(), Seq::empty(), Seq::empty())
        }
    }
}

/// The annotations that belong to a single body: those that no body
/// nested inside it claims.
#[derive(Debug)]
pub struct BodyAnnotations {
    pub expected: Vec<String>,
    pub forbidden: Vec<String>,
    pub lifetime_display: Vec<String>,
}

impl BodyAnnotations {
    /// The lists of annotations.
    pub open spec fn lists(&self) -> AnnotationLists {
        (views(self.expected@), views(self.forbidden@), views(self.lifetime_display@))
    }

    /// No annotations.
    pub fn new() -> (b: Self)
        ensures
            b.lists() == (Seq::<Seq<char>>::empty(), Seq::<Seq<char>>::empty(), Seq::<Seq<char>>::empty()),
    {
        let b = BodyAnnotations { expected: Vec::new(), forbidden: Vec::new(), lifetime_display: Vec::new() };
        assert(views(b.expected@) =~= Seq::<Seq<char>>::empty());
        assert(views(b.forbidden@) =~= Seq::<Seq<char>>::empty());
        assert(views(b.lifetime_display@) =~= Seq::<Seq<char>>::empty());
        b
    }

    /// Whether every line of a body's source carries the markers of at
    /// most one kind.
    pub fn well_formed_source(snippet: &str) -> (b: bool)
        ensures
            b == lines_well_formed(snippet@),
    {
        let v = chars_of(snippet);
        let n = v.len();
        let mut p: usize = 0;
        assert(v@.subrange(0, n as int) =~= v@);
        while p < n
            invariant
                n == v@.len(),
                v@ == snippet@,
                p <= n,
                lines_well_formed(v@) == lines_well_formed(v@.subrange(p as int, n as int)),
            decreases n - p,
        {
            let rest = slice_chars(&v, p, n);
            let len = first_line_len(&rest);
            proof {
                assert(rest@.subrange(len as int, rest@.len() as int) =~= v@.subrange(p + len, n as int));
            }
            let line = slice_chars(&rest, 0, len);
            proof {
                assert(line@ == first_line(rest@));
            }
            if !Self::at_most_one(&line) {
                proof {
                    assert(rest@ == v@.subrange(p as int, n as int));
                    assert(!lines_well_formed(rest@));
                }
                return false;
            }
            p = p + len;
        }
        true
    }

    /// Whether a line carries the markers of at most one kind.
    fn at_most_one(line: &Vec<char>) -> (b: bool)
        ensures
            b == at_most_one_marker(line@),
    {
        let e = find(line, &chars_of(marker(AnnotationKind::Expected))).is_some();
        let f = find(line, &chars_of(marker(AnnotationKind::Forbidden))).is_some();
        let l = find(line, &chars_of(marker(AnnotationKind::LifetimeDisplay))).is_some();
        !(e && f) && !(e && l) && !(f && l)
    }

    /// The annotations of a body whose source is `snippet`, starting at
    /// byte `span_lo`, that none of the bodies `nested` directly inside it
    /// contains: each line's annotation, attributed by the position of its
    /// marker.
    pub fn of_body(snippet: &str, span_lo: u32, nested: &Vec<Span>) -> (b: Self)
        requires
            lines_well_formed(snippet@),
            span_lo + utf8_len(snippet@) <= u32::MAX,
        ensures
            b.lists() == body_annotations(snippet@, span_lo as int, nested@),
    {
        let v = chars_of(snippet);
        let n = v.len();
        let mut annotations = Self::new();
        let mut line_start: u32 = span_lo;
        let mut p: usize = 0;
        proof {
            assert(v@.subrange(0, 0) =~= Seq::<char>::empty());
            assert(v@.subrange(0, n as int) =~= v@);
        }
        while p < n
            invariant
                n == v@.len(),
                v@ == snippet@,
                p <= n,
                span_lo + utf8_len(v@) <= u32::MAX,
                line_start == span_lo + utf8_len(v@.subrange(0, p as int)),
                lines_well_formed(v@.subrange(p as int, n as int)),
                concat(annotations.lists(), body_annotations(v@.subrange(p as int, n as int), line_start as int, nested@))
                    == body_annotations(v@, span_lo as int, nested@),
            decreases n - p,
        {
            let rest = slice_chars(&v, p, n);
            let len = first_line_len(&rest);
            let ghost tail = v@.subrange(p + len, n as int);
            proof {
                assert(rest@.subrange(len as int, rest@.len() as int) =~= tail);
                lemma_utf8_len_add(v@.subrange(0, p as int), first_line(rest@));
                assert(v@.subrange(0, p as int) + first_line(rest@) =~= v@.subrange(0, p + len));
                lemma_utf8_len_prefix(v@, p + len);
            }
            let line = slice_chars(&rest, 0, len);
            proof {
                assert(line@ == first_line(rest@));
                lemma_utf8_len_prefix(line@, len as int);
                assert(line@.subrange(0, len as int) =~= line@);
            }
            let found = Self::line_match(&line);
            let ghost before = annotations.lists();
            match found {
                Some(m) => {
                    proof {
                        lemma_find_from(line@, marker_text(AnnotationKind::Expected), 0);
                        lemma_find_from(line@, marker_text(AnnotationKind::Forbidden), 0);
                        lemma_find_from(line@, marker_text(AnnotationKind::LifetimeDisplay), 0);
                        let pair = line_marker(line@)->0;
                        let i = pair.1;
                        lemma_utf8_len_prefix(line@, i);
                    }
                    let pos: u32 = line_start + (m.offset as u32);
                    if !Self::claimed_by(nested, pos) {
                        annotations.push(m);
                        proof {
                            assert(concat(annotations.lists(), body_annotations(tail, line_start + utf8_len(line@), nested@))
                                =~= concat(before, body_annotations(rest@, line_start as int, nested@)));
                        }
                    }
                },
                None => {},
            }
            line_start = line_start + (utf8_prefix_len(&line, len) as u32);
            p = p + len;
        }
        annotations
    }

    /// The annotation a line carries, if any.
    fn line_match(line: &Vec<char>) -> (r: Option<MarkerMatch>)
        requires
            at_most_one_marker(line@),
            utf8_len(line@) <= usize::MAX,
        ensures
            match line_annotation(line@) {
                None => r is None,
                Some((kind, payload, offset)) => r is Some && r->0.kind == kind && r->0.payload@ == payload
                    && r->0.offset == offset,
            },
    {
        MarkerMatch::of_chars(line)
    }

    /// Whether one of `spans` contains `pos`.
    fn claimed_by(spans: &Vec<Span>, pos: u32) -> (b: bool)
        ensures
            b == claimed(spans@, pos as int),
    {
        let mut k: usize = 0;
        while k < spans.len()
            invariant
                k <= spans@.len(),
                forall|j: int| 0 <= j < k ==> !(spans@[j].lo <= pos && pos < spans@[j].hi),
            decreases spans.len() - k,
        {
            if contains(spans[k], pos) {
                return true;
            }
            k = k + 1;
        }
        false
    }

    /// Adds an annotation to the list of its kind.
    pub fn push(&mut self, found: MarkerMatch)
        ensures
            final(self).lists() == concat(old(self).lists(), prepend(found.kind, found.payload@,
                (Seq::empty(), Seq::empty(), Seq::empty()))),
    {
        let ghost l0 = old(self).lists();
        match found.kind {
            AnnotationKind::Expected => self.expected.push(found.payload),
            AnnotationKind::Forbidden => self.forbidden.push(found.payload),
            AnnotationKind::LifetimeDisplay => self.lifetime_display.push(found.payload),
        }
        proof {
            assert(views(self.expected@) =~= l0.0 + (if found.kind == AnnotationKind::Expected { seq![found.payload@] } else { Seq::empty() }));
            assert(views(self.forbidden@) =~= l0.1 + (if found.kind == AnnotationKind::Forbidden { seq![found.payload@] } else { Seq::empty() }));
            assert(views(self.lifetime_display@) =~= l0.2 + (if found.kind == AnnotationKind::LifetimeDisplay { seq![found.payload@] } else { Seq::empty() }));
        }
    }

    /// The states that must arise in the body.
    pub fn expected(&self) -> (v: &Vec<String>)
        ensures
            *v == self.expected,
    {
        &self.expected
    }

    /// The states that must not arise in the body.
    pub fn forbidden(&self) -> (v: &Vec<String>)
        ensures
            *v == self.forbidden,
    {
        &self.forbidden
    }

    /// The payloads of the body's lifetime display annotations.
    pub fn lifetime_display(&self) -> (v: &Vec<String>)
        ensures
            *v == self.lifetime_display,
    {
        &self.lifetime_display
    }
}

/// A line without its line ending: a final line feed, and a carriage
/// return before it.
pub open spec fn strip_line_ending(l: Seq<char>) -> Seq<char> {
    if l.len() > 0 && l.last() == '\n' {
        let l2 = l.drop_last();
        if l2.len() > 0 && l2.last() == '\r' { l2.drop_last() } else { l2 }
    } else {
        l
    }
}

/// The lines of some text, as `str::lines` gives them: split after each
/// line feed, without the line endings; a final line ending adds no empty
/// line.
pub open spec fn lines_of(s: Seq<char>) -> Seq<Seq<char>>
    decreases s.len(),
{
    if s.len() == 0 {
        Seq::empty()
    } else {
        let line = first_line(s);
        if 0 < line.len() <= s.len() {
            seq![strip_line_ending(line)] + lines_of(s.subrange(line.len() as int, s.len() as int))
        } else {
            Seq::empty()
        }
    }
}

/// The lines of a body's source.
pub fn source_lines(snippet: &str) -> (r: Vec<String>)
    ensures
        views(r@) == lines_of(snippet@),
{
    let v = chars_of(snippet);
    let n = v.len();
    let mut r: Vec<String> = Vec::new();
    let mut p: usize = 0;
    assert(v@.subrange(0, n as int) =~= v@);
    assert(views(r@) =~= Seq::<Seq<char>>::empty());
    while p < n
        invariant
            n == v@.len(),
            v@ == snippet@,
            p <= n,
            views(r@) + lines_of(v@.subrange(p as int, n as int)) == lines_of(v@),
        decreases n - p,
    {
        let rest = slice_chars(&v, p, n);
        let len = first_line_len(&rest);
        proof {
            assert(rest@.subrange(len as int, rest@.len() as int) =~= v@.subrange(p + len, n as int));
        }
        let mut e = len;
        if e > 0 && rest[e - 1] == '\n' {
            e = e - 1;
            if e > 0 && rest[e - 1] == '\r' {
                e = e - 1;
            }
        }
        let line = slice_chars(&rest, 0, e);
        proof {
            let fl = first_line(rest@);
            assert(fl == rest@.subrange(0, len as int));
            if len > 0 && rest@[len - 1] == '\n' {
                assert(fl.drop_last() =~= rest@.subrange(0, len - 1));
                if len - 1 > 0 && rest@[len - 2] == '\r' {
                    assert(fl.drop_last().drop_last() =~= rest@.subrange(0, len - 2));
                }
            }
            assert(line@ =~= strip_line_ending(fl));
        }
        let ghost r0 = views(r@);
        r.push(string_of(&line));
        proof {
            assert(views(r@) =~= r0.push(line@));
            assert(views(r@) + lines_of(v@.subrange(p + len, n as int)) =~= r0 + lines_of(rest@));
        }
        p = p + len;
    }
    proof {
        assert(v@.subrange(n as int, n as int) =~= Seq::<char>::empty());
        assert(views(r@) + Seq::<Seq<char>>::empty() =~= views(r@));
    }
    r
}

/// Whether `c` is an ASCII digit.
pub open spec fn is_digit(c: char) -> bool {
    '0' <= c && c <= '9'
}

/// The value of a sequence of decimal digits.
pub open spec fn digits_value(d: Seq<char>) -> nat
    decreases d.len(),
{
    if d.len() == 0 { 0 } else { digits_value(d.drop_last()) * 10 + ((d.last() as u32) - ('0' as u32)) as nat }
}

/// What `str::parse::<usize>` gives: an optional `+` followed by at least
/// one decimal digit, whose value fits in `usize`.
pub open spec fn parse_usize_spec(t: Seq<char>) -> Option<nat> {
    let d = unsigned_part(t);
    if d.len() > 0 && all_digits(d) && digits_value(d) <= usize::MAX {
        Some(digits_value(d))
    } else {
        None
    }
}

/// The characters after an optional leading `+`.
pub open spec fn unsigned_part(t: Seq<char>) -> Seq<char> {
    if t.len() > 0 && t[0] == '+' { t.subrange(1, t.len() as int) } else { t }
}

/// Every character is a decimal digit.
pub open spec fn all_digits(d: Seq<char>) -> bool {
    forall|k: int| 0 <= k < d.len() ==> is_digit(#[trigger] d[k])
}

/// Appending digits does not lower the value.
proof fn lemma_digits_value_grows(d: Seq<char>, k: int)
    requires
        0 <= k <= d.len(),
        forall|j: int| 0 <= j < d.len() ==> is_digit(#[trigger] d[j]),
    ensures
        digits_value(d.subrange(0, k)) <= digits_value(d),
    decreases d.len() - k,
{
    if k < d.len() {
        lemma_digits_value_grows(d, k + 1);
        assert(d.subrange(0, k + 1).drop_last() =~= d.subrange(0, k));
    } else {
        assert(d.subrange(0, k) =~= d);
    }
}

/// The number that some characters spell, as `str::parse::<usize>` reads
/// it.
pub fn parse_usize(t: &Vec<char>) -> (r: Option<usize>)
    ensures
        match parse_usize_spec(t@) {
            Some(v) => r == Some(v as usize),
            None => r is None,
        },
{
    let n = t.len();
    let start: usize = if n > 0 && t[0] == '+' { 1 } else { 0 };
    let ghost d = unsigned_part(t@);
    if start >= n {
        return None;
    }
    let mut acc: usize = 0;
    let mut k: usize = start;
    while k < n
        invariant
            n == t@.len(),
            start <= k <= n,
            start < n,
            d == unsigned_part(t@),
            d == t@.subrange(start as int, n as int),
            forall|j: int| start <= j < k ==> is_digit(#[trigger] t@[j]),
            acc == digits_value(t@.subrange(start as int, k as int)),
        decreases n - k,
    {
        let c = t[k];
        if !('0' <= c && c <= '9') {
            proof {
                assert(d[k - start] == c);
                assert(!is_digit(d[k - start]));
                assert(!all_digits(d));
            }
            return None;
        }
        let dv = ((c as u32) - ('0' as u32)) as usize;
        proof {
            assert(t@.subrange(start as int, k + 1).drop_last() =~= t@.subrange(start as int, k as int));
        }
        match acc.checked_mul(10) {
            Some(m) => match m.checked_add(dv) {
                Some(a) => {
                    acc = a;
                },
                None => {
                    proof {
                        if all_digits(d) {
                            lemma_digits_value_grows(d, k - start + 1);
                            assert(d.subrange(0, k - start + 1) =~= t@.subrange(start as int, k + 1));
                        }
                    }
                    return None;
                },
            },
            None => {
                proof {
                    if all_digits(d) {
                        lemma_digits_value_grows(d, k - start + 1);
                        assert(d.subrange(0, k - start + 1) =~= t@.subrange(start as int, k + 1));
                    }
                }
                return None;
            },
        }
        k = k + 1;
    }
    proof {
        assert(t@.subrange(start as int, n as int) =~= d);
        assert forall|j: int| 0 <= j < d.len() implies is_digit(#[trigger] d[j]) by {
            assert(d[j] == t@[start + j]);
        }
        assert(all_digits(d));
    }
    Some(acc)
}

/// A payload of three words separated by single spaces: the words.
pub open spec fn three_words(s: Seq<char>) -> Option<(Seq<char>, Seq<char>, Seq<char>)> {
    match find_from(s, seq![' '], 0) {
        None => None,
        Some(i) => match find_from(s, seq![' '], i + 1) {
            None => None,
            Some(j) => if find_from(s, seq![' '], j + 1) is None {
                Some((s.subrange(0, i), s.subrange(i + 1, j), s.subrange(j + 1, s.len() as int)))
            } else {
                None
            },
        },
    }
}

/// How a lifetime of a body is written: the variable, the index of the
/// region in its type, and the text to write.
#[derive(Debug)]
pub struct LifetimeRenderAnnotation {
    pub var: String,
    pub region_idx: RegionIdx,
    pub display_as: String,
}

/// The annotation a payload of the form `<var> <region index> <name>`
/// denotes.
pub open spec fn render_annotation(payload: Seq<char>) -> Option<(Seq<char>, nat, Seq<char>)> {
    match three_words(payload) {
        None => None,
        Some((v, idx, name)) => match parse_usize_spec(idx) {
            None => None,
            Some(i) => Some((v, i, name)),
        },
    }
}

/// The first index at or after `from` at which `c` occurs in `v`.
fn find_char_from(v: &Vec<char>, c: char, from: usize) -> (r: Option<usize>)
    requires
        from <= v@.len(),
    ensures
        match r {
            Some(k) => find_from(v@, seq![c], from as int) == Some(k as int),
            None => find_from(v@, seq![c], from as int) is None,
        },
{
    let n = v.len();
    let mut k: usize = from;
    while k < n
        invariant
            n == v@.len(),
            from <= k <= n,
            find_from(v@, seq![c], from as int) == find_from(v@, seq![c], k as int),
        decreases n - k,
    {
        if v[k] == c {
            assert(v@.subrange(k as int, k + 1) =~= seq![c]);
            return Some(k);
        }
        assert(v@.subrange(k as int, k + 1)[0] != c);
        k = k + 1;
    }
    None
}

impl LifetimeRenderAnnotation {
    /// The annotation that a payload `<var> <region index> <name>` denotes,
    /// or none where the payload has not this form.
    pub fn try_parse(payload: &str) -> (r: Option<Self>)
        ensures
            match render_annotation(payload@) {
                None => r is None,
                Some((v, i, name)) => r is Some && r->0.var@ == v && r->0.region_idx.0 == i && r->0.display_as@ == name,
            },
    {
        let s = chars_of(payload);
        let n = s.len();
        let i = match find_char_from(&s, ' ', 0) {
            Some(i) => i,
            None => return None,
        };
        proof {
            lemma_find_from(s@, seq![' '], 0);
        }
        let j = match find_char_from(&s, ' ', i + 1) {
            Some(j) => j,
            None => return None,
        };
        proof {
            lemma_find_from(s@, seq![' '], i + 1);
        }
        if find_char_from(&s, ' ', j + 1).is_some() {
            return None;
        }
        let var = slice_chars(&s, 0, i);
        let idx = slice_chars(&s, i + 1, j);
        let name = slice_chars(&s, j + 1, n);
        match parse_usize(&idx) {
            None => None,
            Some(k) => Some(LifetimeRenderAnnotation { var: string_of(&var), region_idx: RegionIdx(k), display_as: string_of(&name) }),
        }
    }

    /// The annotation that a well-formed payload denotes.
    pub fn parse(payload: &str) -> (r: Self)
        requires
            render_annotation(payload@) is Some,
        ensures
            ({
                let (v, i, name) = render_annotation(payload@)->0;
                r.var@ == v && r.region_idx.0 == i && r.display_as@ == name
            }),
    {
        match Self::try_parse(payload) {
            Some(a) => a,
            None => LifetimeRenderAnnotation { var: String::new(), region_idx: RegionIdx(0), display_as: String::new() },
        }
    }

    /// The index of the local that the variable names as `_<index>`, if it
    /// does.
    pub fn local_index(&self) -> (r: Option<usize>)
        ensures
            r == (if self.var@.len() > 0 && self.var@[0] == '_' {
                match parse_usize_spec(self.var@.subrange(1, self.var@.len() as int)) {
                    Some(v) => Some(v as usize),
                    None => None,
                }
            } else {
                None
            }),
    {
        let v = chars_of(self.var.as_str());
        if v.len() == 0 || v[0] != '_' {
            return None;
        }
        let rest = slice_chars(&v, 1, v.len());
        parse_usize(&rest)
    }
}

} // verus!
