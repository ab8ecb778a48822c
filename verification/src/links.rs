//! Wiki link parsing and backlink tracking.
//!
//! Parses `[[link]]`, `[[link|display]]`, `[[link#heading]]` and
//! `[[link#heading|display]]` from markdown content, resolves links against
//! known note IDs and titles, and keeps a bidirectional link index for
//! backlink queries.

use vstd::prelude::*;
use vstd::string::StringExecFns;
use crate::text::{
    byte_len, char_boundary, char_width, chars_of, contains_chars, contains_seq,
    lemma_seq_lt_asym, lemma_seq_lt_irrefl, lemma_seq_lt_total, lemma_seq_lt_trans,
    lemma_utf8_len_take_strict, lowercase, seq_lt, string_lt, to_lowercase, lemma_utf8_len_take_mono, lemma_utf8_len_take_step,
    occurs_at, occurs_at_exec, string_from_chars, sub_chars, trim, trim_chars, utf8_len,
};

verus! {

broadcast use vstd::seq_lib::group_seq_properties;

/// A parsed wiki link from note content.
#[derive(Debug, Clone, PartialEq, Eq)]
pub struct WikiLink {
    /// The target note reference (what's inside `[[...]]`).
    pub target: String,
    /// Optional display text (after `|`).
    pub display: Option<String>,
    /// Optional heading anchor (after `#`).
    pub heading: Option<String>,
    /// Byte offset of the `[[` in the source text.
    pub start: usize,
    /// Byte offset just past the closing `]]` in the source text.
    pub end: usize,
}

/// The view of an optional string.
pub open spec fn opt_view(o: Option<String>) -> Option<Seq<char>> {
    match o {
        Some(s) => Some(s@),
        None => None,
    }
}

impl WikiLink {
    /// The text to display for this link: the display text if there is
    /// one, else the target.
    pub fn display_text(&self) -> (r: &str)
        ensures
            r@ == (match self.display {
                Some(d) => d@,
                None => self.target@,
            }),
    {
        match &self.display {
            Some(d) => d.as_str(),
            None => self.target.as_str(),
        }
    }

    fn duplicate(&self) -> (r: Self)
        ensures
            r == *self,
    {
        WikiLink {
            target: self.target.clone(),
            display: match &self.display {
                Some(d) => Some(d.clone()),
                None => None,
            },
            heading: match &self.heading {
                Some(h) => Some(h.clone()),
                None => None,
            },
            start: self.start,
            end: self.end,
        }
    }
}

// ---------------------------------------------------------------------
// The wiki link grammar
//
//   link    := "[[" target ("#" heading)? ("|" display)? "]]"
//   target  := one or more chars other than ']' '|' '#'
//   heading := one or more chars other than ']' '|'
//   display := one or more chars other than ']'
//
// Links are found left to right without overlap: a search resumes just
// past the end of the previous link.
// ---------------------------------------------------------------------

/// The three character classes of the link grammar.
#[derive(Clone, Copy, PartialEq, Eq, Structural)]
pub enum Part {
    Target,
    Heading,
    Display,
}

/// Whether `c` ends a run of the given part.
pub open spec fn stops(k: Part, c: char) -> bool {
    match k {
        Part::Target => c == ']' || c == '|' || c == '#',
        Part::Heading => c == ']' || c == '|',
        Part::Display => c == ']',
    }
}

/// The end of the longest run of `k` characters starting at `i`.
pub open spec fn run_end(s: Seq<char>, i: int, k: Part) -> int
    decreases s.len() - i,
{
    if 0 <= i < s.len() && !stops(k, s[i]) {
        run_end(s, i + 1, k)
    } else {
        i
    }
}

/// One link found in a text, as character index ranges.
pub struct LinkMatch {
    pub start: int,
    pub target: (int, int),
    pub heading: Option<(int, int)>,
    pub display: Option<(int, int)>,
    pub end: int,
}

pub open spec fn open_brackets() -> Seq<char> {
    seq!['[', '[']
}

pub open spec fn close_brackets() -> Seq<char> {
    seq![']', ']']
}

/// The optional `#heading` part at `e`: the heading's range and the index
/// after it, or `None` when a `#` is not followed by a heading.
pub open spec fn heading_part(s: Seq<char>, e: int) -> Option<(Option<(int, int)>, int)> {
    if 0 <= e < s.len() && s[e] == '#' {
        let h = run_end(s, e + 1, Part::Heading);
        if h > e + 1 {
            Some((Some((e + 1, h)), h))
        } else {
            None
        }
    } else {
        Some((None, e))
    }
}

/// The optional `|display` part at `e`, as for [`heading_part`].
pub open spec fn display_part(s: Seq<char>, e: int) -> Option<(Option<(int, int)>, int)> {
    if 0 <= e < s.len() && s[e] == '|' {
        let d = run_end(s, e + 1, Part::Display);
        if d > e + 1 {
            Some((Some((e + 1, d)), d))
        } else {
            None
        }
    } else {
        Some((None, e))
    }
}

/// The link that starts at index `p`, if one does.
pub open spec fn match_at(s: Seq<char>, p: int) -> Option<LinkMatch> {
    let t1 = run_end(s, p + 2, Part::Target);
    if occurs_at(s, open_brackets(), p) && t1 > p + 2 {
        match heading_part(s, t1) {
            None => None,
            Some((h, e1)) => match display_part(s, e1) {
                None => None,
                Some((d, e2)) => if occurs_at(s, close_brackets(), e2) {
                    Some(
                        LinkMatch { start: p, target: (p + 2, t1), heading: h, display: d, end: e2 + 2 },
                    )
                } else {
                    None
                },
            },
        }
    } else {
        None
    }
}

/// All links in `s` found by a left-to-right search starting at `q`.
pub open spec fn matches_from(s: Seq<char>, q: int) -> Seq<LinkMatch>
    decreases s.len() - q,
{
    if 0 <= q < s.len() {
        match match_at(s, q) {
            Some(m) => if q < m.end <= s.len() {
                seq![m] + matches_from(s, m.end)
            } else {
                Seq::empty()
            },
            None => matches_from(s, q + 1),
        }
    } else {
        Seq::empty()
    }
}

/// The trimmed text of a range of `s`.
pub open spec fn range_text(s: Seq<char>, r: (int, int)) -> Seq<char> {
    trim(s.subrange(r.0, r.1))
}

pub open spec fn opt_range_text(s: Seq<char>, r: Option<(int, int)>) -> Option<Seq<char>> {
    match r {
        Some(x) => Some(range_text(s, x)),
        None => None,
    }
}

/// `l` is the link that the match `m` describes in `s`: trimmed parts,
/// and byte offsets of the start and the end.
pub open spec fn describes(l: WikiLink, s: Seq<char>, m: LinkMatch) -> bool {
    &&& l.target@ == range_text(s, m.target)
    &&& opt_view(l.heading) == opt_range_text(s, m.heading)
    &&& opt_view(l.display) == opt_range_text(s, m.display)
    &&& l.start == utf8_len(s.take(m.start))
    &&& l.end == utf8_len(s.take(m.end))
}

/// A described link's target is the trimmed text of the match's target.
pub proof fn lemma_describes_target(l: WikiLink, s: Seq<char>, m: LinkMatch)
    requires
        describes(l, s, m),
    ensures
        l.target@ == range_text(s, m.target),
{
}

proof fn lemma_run_end_bounds(s: Seq<char>, i: int, k: Part)
    requires
        0 <= i <= s.len(),
    ensures
        i <= run_end(s, i, k) <= s.len(),
        run_end(s, i, k) < s.len() ==> stops(k, s[run_end(s, i, k)]),
    decreases s.len() - i,
{
    if i < s.len() && !stops(k, s[i]) {
        lemma_run_end_bounds(s, i + 1, k);
    }
}

proof fn lemma_match_bounds(s: Seq<char>, p: int)
    requires
        0 <= p,
        match_at(s, p) is Some,
    ensures
        p < match_at(s, p).unwrap().end <= s.len(),
        match_at(s, p).unwrap().start == p,
{
    lemma_run_end_bounds(s, p + 2, Part::Target);
    let t1 = run_end(s, p + 2, Part::Target);
    if t1 < s.len() && s[t1] == '#' {
        lemma_run_end_bounds(s, t1 + 1, Part::Heading);
        let h = run_end(s, t1 + 1, Part::Heading);
        if h < s.len() && s[h] == '|' {
            lemma_run_end_bounds(s, h + 1, Part::Display);
        }
    } else if t1 < s.len() && s[t1] == '|' {
        lemma_run_end_bounds(s, t1 + 1, Part::Display);
    }
}

/// Every link found from `q` on starts with `[[` at or after `q` and ends
/// with `]]` inside `s`, and the links follow one another without
/// overlapping.
pub proof fn law_link_matches_shape(s: Seq<char>, q: int)
    requires
        0 <= q,
    ensures
        forall|i: int|
            0 <= i < matches_from(s, q).len() ==> {
                let m = #[trigger] matches_from(s, q)[i];
                &&& q <= m.start < m.end <= s.len()
                &&& occurs_at(s, open_brackets(), m.start)
                &&& occurs_at(s, close_brackets(), m.end - 2)
            },
        forall|i: int|
            0 <= i < matches_from(s, q).len() - 1 ==> (#[trigger] matches_from(s, q)[i]).end
                <= matches_from(s, q)[i + 1].start,
    decreases s.len() - q,
{
    if 0 <= q < s.len() {
        match match_at(s, q) {
            Some(m) => {
                lemma_match_bounds(s, q);
                if q < m.end <= s.len() {
                    law_link_matches_shape(s, m.end);
                    let rest = matches_from(s, m.end);
                    let ms = matches_from(s, q);
                    assert(ms == seq![m] + rest);
                    assert forall|i: int| 0 <= i < ms.len() implies {
                        let x = #[trigger] ms[i];
                        &&& q <= x.start < x.end <= s.len()
                        &&& occurs_at(s, open_brackets(), x.start)
                        &&& occurs_at(s, close_brackets(), x.end - 2)
                    } by {
                        if i > 0 {
                            assert(ms[i] == rest[i - 1]);
                        }
                    }
                    assert forall|i: int| 0 <= i < ms.len() - 1 implies (#[trigger] ms[i]).end
                        <= ms[i + 1].start by {
                        assert(ms[i + 1] == rest[i]);
                        if i > 0 {
                            assert(ms[i] == rest[i - 1]);
                        }
                    }
                }
            },
            None => {
                law_link_matches_shape(s, q + 1);
            },
        }
    }
}

proof fn lemma_run_end_to(s: Seq<char>, i: int, k: Part, n: int)
    requires
        0 <= i <= n < s.len(),
        stops(k, s[n]),
        forall|j: int| i <= j < n ==> !stops(k, #[trigger] s[j]),
    ensures
        run_end(s, i, k) == n,
    decreases n - i,
{
    if i < n {
        lemma_run_end_to(s, i + 1, k, n);
    }
}

/// A text that is one wiki link holds exactly that link: `[[t]]` links to
/// `t` trimmed, `[[t|d]]` also shows `d` trimmed, and `[[t#h]]` points at
/// the heading `h` trimmed (for a non-empty target `t` with no `]`, `|` or
/// `#`, and non-empty `d` and `h` with no `]` or `|`).
pub proof fn law_single_link(t: Seq<char>, d: Seq<char>)
    requires
        t.len() > 0,
        forall|j: int| 0 <= j < t.len() ==> t[j] != ']' && t[j] != '|' && t[j] != '#',
        d.len() > 0,
        forall|j: int| 0 <= j < d.len() ==> d[j] != ']' && d[j] != '|',
    ensures
        ({
            let s = open_brackets() + t + close_brackets();
            let ms = matches_from(s, 0);
            &&& ms.len() == 1
            &&& range_text(s, ms[0].target) == trim(t)
            &&& ms[0].heading is None
            &&& ms[0].display is None
            &&& ms[0].start == 0 && ms[0].end == s.len()
        }),
        ({
            let s = open_brackets() + t + seq!['|'] + d + close_brackets();
            let ms = matches_from(s, 0);
            &&& ms.len() == 1
            &&& range_text(s, ms[0].target) == trim(t)
            &&& ms[0].heading is None
            &&& opt_range_text(s, ms[0].display) == Some(trim(d))
        }),
        ({
            let s = open_brackets() + t + seq!['#'] + d + close_brackets();
            let ms = matches_from(s, 0);
            &&& ms.len() == 1
            &&& range_text(s, ms[0].target) == trim(t)
            &&& opt_range_text(s, ms[0].heading) == Some(trim(d))
            &&& ms[0].display is None
        }),
{
    let n = t.len() as int;
    let m = d.len() as int;
    // [[t]]
    let s1 = open_brackets() + t + close_brackets();
    assert forall|j: int| 2 <= j < 2 + n implies !stops(Part::Target, #[trigger] s1[j]) by {
        assert(s1[j] == t[j - 2]);
    }
    lemma_run_end_to(s1, 2, Part::Target, 2 + n);
    assert(s1.subrange(0, 2) =~= open_brackets());
    assert(s1.subrange(2 + n, 4 + n) =~= close_brackets());
    assert(s1.subrange(2, 2 + n) =~= t);
    assert(matches_from(s1, s1.len() as int) =~= Seq::<LinkMatch>::empty());
    // [[t|d]]
    let s2 = open_brackets() + t + seq!['|'] + d + close_brackets();
    assert forall|j: int| 2 <= j < 2 + n implies !stops(Part::Target, #[trigger] s2[j]) by {
        assert(s2[j] == t[j - 2]);
    }
    lemma_run_end_to(s2, 2, Part::Target, 2 + n);
    assert forall|j: int| 3 + n <= j < 3 + n + m implies !stops(Part::Display, #[trigger] s2[j]) by {
        assert(s2[j] == d[j - 3 - n]);
    }
    lemma_run_end_to(s2, 3 + n, Part::Display, 3 + n + m);
    assert(s2.subrange(0, 2) =~= open_brackets());
    assert(s2.subrange(3 + n + m, 5 + n + m) =~= close_brackets());
    assert(s2.subrange(2, 2 + n) =~= t);
    assert(s2.subrange(3 + n, 3 + n + m) =~= d);
    assert(matches_from(s2, s2.len() as int) =~= Seq::<LinkMatch>::empty());
    // [[t#d]]
    let s3 = open_brackets() + t + seq!['#'] + d + close_brackets();
    assert forall|j: int| 2 <= j < 2 + n implies !stops(Part::Target, #[trigger] s3[j]) by {
        assert(s3[j] == t[j - 2]);
    }
    lemma_run_end_to(s3, 2, Part::Target, 2 + n);
    assert forall|j: int| 3 + n <= j < 3 + n + m implies !stops(Part::Heading, #[trigger] s3[j]) by {
        assert(s3[j] == d[j - 3 - n]);
    }
    lemma_run_end_to(s3, 3 + n, Part::Heading, 3 + n + m);
    assert(s3.subrange(0, 2) =~= open_brackets());
    assert(s3.subrange(3 + n + m, 5 + n + m) =~= close_brackets());
    assert(s3.subrange(2, 2 + n) =~= t);
    assert(s3.subrange(3 + n, 3 + n + m) =~= d);
    assert(matches_from(s3, s3.len() as int) =~= Seq::<LinkMatch>::empty());
}

fn stops_exec(k: Part, c: char) -> (b: bool)
    ensures
        b == stops(k, c),
{
    match k {
        Part::Target => c == ']' || c == '|' || c == '#',
        Part::Heading => c == ']' || c == '|',
        Part::Display => c == ']',
    }
}

fn run_end_exec(v: &[char], i: usize, k: Part) -> (r: usize)
    requires
        i <= v@.len(),
    ensures
        r == run_end(v@, i as int, k),
        i <= r <= v@.len(),
{
    proof {
        lemma_run_end_bounds(v@, i as int, k);
    }
    let mut j = i;
    while j < v.len() && !stops_exec(k, v[j])
        invariant
            i <= j <= v@.len(),
            run_end(v@, j as int, k) == run_end(v@, i as int, k),
        decreases v@.len() - j,
    {
        j = j + 1;
    }
    j
}

/// A link found at run time, as character indices.
struct RawMatch {
    target: (usize, usize),
    heading: Option<(usize, usize)>,
    display: Option<(usize, usize)>,
    end: usize,
}

spec fn opt_range(o: Option<(usize, usize)>) -> Option<(int, int)> {
    match o {
        Some(r) => Some((r.0 as int, r.1 as int)),
        None => None,
    }
}

spec fn raw_view(m: RawMatch, p: int) -> LinkMatch {
    LinkMatch {
        start: p,
        target: (m.target.0 as int, m.target.1 as int),
        heading: opt_range(m.heading),
        display: opt_range(m.display),
        end: m.end as int,
    }
}

fn match_at_exec(v: &[char], p: usize) -> (r: Option<RawMatch>)
    requires
        p <= v@.len(),
    ensures
        r is Some <==> match_at(v@, p as int) is Some,
        r matches Some(m) ==> raw_view(m, p as int) == match_at(v@, p as int).unwrap(),
        r matches Some(m) ==> m.target.0 <= m.target.1 <= v@.len() && m.end <= v@.len(),
        r matches Some(m) ==> (m.heading matches Some(h) ==> h.0 <= h.1 <= v@.len()),
        r matches Some(m) ==> (m.display matches Some(d) ==> d.0 <= d.1 <= v@.len()),
{
    let open = ['[', '['];
    let close = [']', ']'];
    assert(open@ =~= open_brackets());
    assert(close@ =~= close_brackets());
    if !occurs_at_exec(v, open.as_slice(), p) {
        return None;
    }
    assert(open_brackets().len() == 2);
    let n = v.len();
    assert(p + 2 <= n);
    let t0 = p + 2;
    let t1 = run_end_exec(v, t0, Part::Target);
    if t1 == t0 {
        return None;
    }
    let mut e1 = t1;
    let mut heading: Option<(usize, usize)> = None;
    if t1 < v.len() && v[t1] == '#' {
        let h = run_end_exec(v, t1 + 1, Part::Heading);
        if h == t1 + 1 {
            return None;
        }
        heading = Some((t1 + 1, h));
        e1 = h;
    }
    assert(heading_part(v@, t1 as int) == Some((opt_range(heading), e1 as int)));
    let mut e2 = e1;
    let mut display: Option<(usize, usize)> = None;
    if e1 < v.len() && v[e1] == '|' {
        let d = run_end_exec(v, e1 + 1, Part::Display);
        if d == e1 + 1 {
            return None;
        }
        display = Some((e1 + 1, d));
        e2 = d;
    }
    assert(display_part(v@, e1 as int) == Some((opt_range(display), e2 as int)));
    if !occurs_at_exec(v, close.as_slice(), e2) {
        return None;
    }
    Some(RawMatch { target: (t0, t1), heading, display, end: e2 + 2 })
}

/// The trimmed text of `v[a..b]` as a `String`.
fn trimmed_string(v: &[char], a: usize, b: usize) -> (s: String)
    requires
        a <= b <= v@.len(),
    ensures
        s@ == trim(v@.subrange(a as int, b as int)),
{
    let part = sub_chars(v, a, b);
    let t = trim_chars(part.as_slice());
    string_from_chars(t.as_slice())
}

fn trimmed_opt(v: &[char], r: Option<(usize, usize)>) -> (s: Option<String>)
    requires
        r matches Some(x) ==> x.0 <= x.1 <= v@.len(),
    ensures
        opt_view(s) == opt_range_text(v@, opt_range(r)),
{
    match r {
        Some(x) => Some(trimmed_string(v, x.0, x.1)),
        None => None,
    }
}

/// The byte offset of character index `to`, given that of `from`.
fn advance_bytes(v: &[char], from: usize, to: usize, b: usize, total: usize) -> (r: usize)
    requires
        from <= to <= v@.len(),
        b == utf8_len(v@.take(from as int)),
        total == utf8_len(v@),
    ensures
        r == utf8_len(v@.take(to as int)),
{
    let mut i = from;
    let mut r = b;
    while i < to
        invariant
            from <= i <= to <= v@.len(),
            r == utf8_len(v@.take(i as int)),
            total == utf8_len(v@),
        decreases to - i,
    {
        proof {
            lemma_utf8_len_take_step(v@, i as int);
            lemma_utf8_len_take_mono(v@, i + 1, v@.len() as int);
            assert(v@.take(v@.len() as int) =~= v@);
        }
        r = r + char_width(v[i]);
        i = i + 1;
    }
    r
}

/// Extract all wiki links from markdown content, left to right.
#[verifier::spinoff_prover]
pub fn extract_wiki_links(content: &str) -> (links: Vec<WikiLink>)
    ensures
        links@.len() == matches_from(content@, 0).len(),
        forall|i: int|
            0 <= i < links@.len() ==> describes(
                #[trigger] links@[i],
                content@,
                matches_from(content@, 0)[i],
            ),
{
    let v = chars_of(content);
    let total = byte_len(content);
    let mut links: Vec<WikiLink> = Vec::new();
    let ghost s = v@;
    let ghost mut done: Seq<LinkMatch> = Seq::empty();
    let mut q: usize = 0;
    let mut qb: usize = 0;
    assert(v@.take(0) =~= Seq::<char>::empty());
    while q < v.len()
        invariant
            s == v@,
            s == content@,
            q <= s.len(),
            qb == utf8_len(s.take(q as int)),
            total == utf8_len(s),
            matches_from(s, 0) == done + matches_from(s, q as int),
            links@.len() == done.len(),
            forall|i: int| 0 <= i < done.len() ==> describes(#[trigger] links@[i], s, done[i]),
        decreases s.len() - q,
    {
        match match_at_exec(v.as_slice(), q) {
            Some(m) => {
                proof {
                    lemma_match_bounds(s, q as int);
                }
                let end_b = advance_bytes(v.as_slice(), q, m.end, qb, total);
                let link = WikiLink {
                    target: trimmed_string(v.as_slice(), m.target.0, m.target.1),
                    heading: trimmed_opt(v.as_slice(), m.heading),
                    display: trimmed_opt(v.as_slice(), m.display),
                    start: qb,
                    end: end_b,
                };
                let ghost lm = raw_view(m, q as int);
                assert(describes(link, s, lm));
                links.push(link);
                proof {
                    assert(matches_from(s, q as int) == seq![lm] + matches_from(s, m.end as int));
                    assert(done.push(lm) + matches_from(s, m.end as int) =~= done + (seq![lm]
                        + matches_from(s, m.end as int)));
                    done = done.push(lm);
                }
                q = m.end;
                qb = end_b;
            },
            None => {
                proof {
                    lemma_utf8_len_take_step(s, q as int);
                    lemma_utf8_len_take_mono(s, q + 1, s.len() as int);
                    assert(s.take(s.len() as int) =~= s);
                }
                qb = qb + char_width(v[q]);
                q = q + 1;
            },
        }
    }
    assert(matches_from(s, q as int) =~= Seq::<LinkMatch>::empty());
    assert(done + Seq::<LinkMatch>::empty() =~= done);
    links
}

// ---------------------------------------------------------------------
// Link completion at the cursor
// ---------------------------------------------------------------------

/// The start of the last `[[` that begins at or before index `j`.
pub open spec fn last_open_from(b: Seq<char>, j: int) -> Option<int>
    decreases j + 1,
{
    if j < 0 {
        None
    } else if occurs_at(b, open_brackets(), j) {
        Some(j)
    } else {
        last_open_from(b, j - 1)
    }
}

/// The index of the first `|` at or after `i`, or `t.len()`.
pub open spec fn pipe_index(t: Seq<char>, i: int) -> int
    decreases t.len() - i,
{
    if 0 <= i < t.len() && t[i] != '|' {
        pipe_index(t, i + 1)
    } else {
        i
    }
}

/// The partial link target being typed at the end of `before`: the text
/// after the last `[[` up to any `|`, provided no `]]` closed it.
pub open spec fn partial_link(before: Seq<char>) -> Option<Seq<char>> {
    match last_open_from(before, before.len() as int) {
        None => None,
        Some(o) => {
            let after = before.skip(o + 2);
            if contains_seq(after, close_brackets()) {
                None
            } else {
                Some(after.take(pipe_index(after, 0)))
            }
        },
    }
}

proof fn lemma_last_open_skips(pre: Seq<char>, t: Seq<char>, j: int)
    requires
        !contains_seq(t, open_brackets()),
        t.len() == 0 || t[0] != '[',
        pre.len() + 2 <= j <= pre.len() + 2 + t.len(),
    ensures
        last_open_from(pre + open_brackets() + t, j) == last_open_from(
            pre + open_brackets() + t,
            pre.len() + 1int,
        ),
    decreases j,
{
    let b = pre + open_brackets() + t;
    let p = pre.len() as int;
    if occurs_at(b, open_brackets(), j) {
        let k = j - p - 2;
        assert(t.subrange(k, k + 2) =~= b.subrange(j, j + 2));
        assert(occurs_at(t, open_brackets(), k));
        assert(false);
    }
    if j > p + 2 {
        lemma_last_open_skips(pre, t, j - 1);
    } else {
        if occurs_at(b, open_brackets(), p + 1) {
            assert(b[p + 2] == t[0]);
            assert(b.subrange(p + 1, p + 3)[1] == b[p + 2]);
            assert(false);
        }
    }
}

proof fn lemma_pipe_index_none(t: Seq<char>, i: int)
    requires
        0 <= i <= t.len(),
        !t.contains('|'),
    ensures
        pipe_index(t, i) == t.len(),
    decreases t.len() - i,
{
    if i < t.len() {
        assert(t[i] != '|');
        lemma_pipe_index_none(t, i + 1);
    }
}

/// Completion reads the link being typed after the last `[[`: when the
/// text before the cursor is anything, then `[[`, then a partial target `t`
/// that holds no `[[`, `]]` or `|` (and does not begin with another `[`),
/// the partial link is exactly `t`, whatever closed links come before.
pub proof fn law_partial_link_after_last_open(pre: Seq<char>, t: Seq<char>)
    requires
        !contains_seq(t, open_brackets()),
        !contains_seq(t, close_brackets()),
        !t.contains('|'),
        t.len() == 0 || t[0] != '[',
    ensures
        partial_link(pre + open_brackets() + t) == Some(t),
{
    let b = pre + open_brackets() + t;
    let p = pre.len() as int;
    lemma_last_open_skips(pre, t, b.len() as int);
    assert(b.subrange(p, p + 2) =~= open_brackets());
    assert(occurs_at(b, open_brackets(), p));
    assert(last_open_from(b, p) == Some(p));
    assert(last_open_from(b, p + 1) == Some(p)) by {
        if occurs_at(b, open_brackets(), p + 1) {
            if t.len() == 0 {
                assert(false);
            } else {
                assert(b[p + 2] == t[0]);
                assert(b.subrange(p + 1, p + 3)[1] == b[p + 2]);
                assert(false);
            }
        }
    }
    assert(b.skip(p + 2) =~= t);
    lemma_pipe_index_none(t, 0);
    assert(t.take(t.len() as int) =~= t);
}

proof fn lemma_pipe_index_at(t: Seq<char>, u: Seq<char>, i: int)
    requires
        0 <= i <= t.len() < u.len(),
        u[t.len() as int] == '|',
        forall|k: int| 0 <= k < t.len() ==> u[k] == t[k] && t[k] != '|',
    ensures
        pipe_index(u, i) == t.len(),
    decreases t.len() - i,
{
    if i < t.len() {
        lemma_pipe_index_at(t, u, i + 1);
    }
}

/// The partial link stops at a `|`: when the text after the last `[[` is
/// a target `t` (without `|`), a `|` and more, the partial link is `t`.
pub proof fn law_partial_link_stops_at_pipe(pre: Seq<char>, t: Seq<char>, d: Seq<char>)
    requires
        !contains_seq(t + seq!['|'] + d, open_brackets()),
        !contains_seq(t + seq!['|'] + d, close_brackets()),
        !t.contains('|'),
        (t + seq!['|'] + d)[0] != '[',
    ensures
        partial_link(pre + open_brackets() + (t + seq!['|'] + d)) == Some(t),
{
    let u = t + seq!['|'] + d;
    let b = pre + open_brackets() + u;
    let p = pre.len() as int;
    lemma_last_open_skips(pre, u, b.len() as int);
    assert(b.subrange(p, p + 2) =~= open_brackets());
    assert(last_open_from(b, p) == Some(p));
    assert(last_open_from(b, p + 1) == Some(p)) by {
        if occurs_at(b, open_brackets(), p + 1) {
            assert(b[p + 2] == u[0]);
            assert(b.subrange(p + 1, p + 3)[1] == b[p + 2]);
        }
    }
    assert(b.skip(p + 2) =~= u);
    assert forall|k: int| 0 <= k < t.len() implies u[k] == t[k] && t[k] != '|' by {
        if t[k] == '|' {
            assert(t.contains('|'));
        }
    }
    lemma_pipe_index_at(t, u, 0);
    assert(u.take(t.len() as int) =~= t);
}

/// A link already closed is not completed: when the text after the last
/// `[[` before the cursor holds `]]`, there is no partial link.
pub proof fn law_closed_link_not_partial(pre: Seq<char>, u: Seq<char>)
    requires
        !contains_seq(u, open_brackets()),
        contains_seq(u, close_brackets()),
    ensures
        partial_link(pre + open_brackets() + u) is None,
{
    let j = choose|j: int| occurs_at(u, close_brackets(), j);
    assert(u.subrange(j, j + 2)[0] == u[j]);
    if u[0] == '[' {
        let pre2 = pre.push('[');
        let t2 = u.skip(1);
        assert(pre + open_brackets() + u =~= pre2 + open_brackets() + t2);
        assert(!contains_seq(t2, open_brackets())) by {
            if contains_seq(t2, open_brackets()) {
                let k = choose|k: int| occurs_at(t2, open_brackets(), k);
                assert(u.subrange(k + 1, k + 3) =~= t2.subrange(k, k + 2));
                assert(occurs_at(u, open_brackets(), k + 1));
            }
        }
        assert(t2.len() == 0 || t2[0] != '[') by {
            if t2.len() > 0 && t2[0] == '[' {
                assert(u.subrange(0, 2) =~= open_brackets());
                assert(occurs_at(u, open_brackets(), 0));
            }
        }
        assert(j >= 1);
        assert(t2.subrange(j - 1, j + 1) =~= u.subrange(j, j + 2));
        assert(occurs_at(t2, close_brackets(), j - 1));
        lemma_closed_after_open(pre2, t2);
    } else {
        lemma_closed_after_open(pre, u);
    }
}

proof fn lemma_closed_after_open(pre: Seq<char>, u: Seq<char>)
    requires
        !contains_seq(u, open_brackets()),
        contains_seq(u, close_brackets()),
        u.len() == 0 || u[0] != '[',
    ensures
        partial_link(pre + open_brackets() + u) is None,
{
    let b = pre + open_brackets() + u;
    let p = pre.len() as int;
    lemma_last_open_skips(pre, u, b.len() as int);
    assert(b.subrange(p, p + 2) =~= open_brackets());
    assert(last_open_from(b, p) == Some(p));
    assert(last_open_from(b, p + 1) == Some(p)) by {
        if occurs_at(b, open_brackets(), p + 1) {
            assert(b[p + 2] == u[0]);
            assert(b.subrange(p + 1, p + 3)[1] == b[p + 2]);
        }
    }
    assert(b.skip(p + 2) =~= u);
}

/// The byte offset `cursor_byte`, capped at the length of `s`.
pub open spec fn capped(s: Seq<char>, cursor_byte: int) -> int {
    if cursor_byte < utf8_len(s) {
        cursor_byte
    } else {
        utf8_len(s) as int
    }
}

fn last_open(b: &[char]) -> (r: Option<usize>)
    ensures
        match r {
            Some(o) => last_open_from(b@, b@.len() as int) == Some(o as int) && o <= b@.len()
                && occurs_at(b@, open_brackets(), o as int),
            None => last_open_from(b@, b@.len() as int) == None::<int>,
        },
{
    let open = ['[', '['];
    assert(open@ =~= open_brackets());
    let mut j: usize = b.len();
    loop
        invariant
            open@ == open_brackets(),
            j <= b@.len(),
            last_open_from(b@, b@.len() as int) == last_open_from(b@, j as int),
        decreases j,
    {
        if occurs_at_exec(b, open.as_slice(), j) {
            return Some(j);
        }
        if j == 0 {
            assert(last_open_from(b@, -1) == None::<int>);
            return None;
        }
        j = j - 1;
    }
}

/// Check whether the cursor (a byte offset) is inside an unclosed `[[`.
/// Returns the partial target typed so far.
pub fn wiki_link_at_cursor(content: &str, cursor_byte: usize) -> (r: Option<String>)
    requires
        char_boundary(content@, capped(content@, cursor_byte as int)),
    ensures
        forall|k: int|
            0 <= k <= content@.len() && utf8_len(content@.take(k)) == capped(
                content@,
                cursor_byte as int,
            ) ==> opt_view(r) == partial_link(#[trigger] content@.take(k)),
{
    let v = chars_of(content);
    let total = byte_len(content);
    let target = if cursor_byte < total {
        cursor_byte
    } else {
        total
    };
    let ghost s = v@;
    let ghost kk = choose|k: int| 0 <= k <= s.len() && utf8_len(s.take(k)) == target;
    let mut k: usize = 0;
    let mut b: usize = 0;
    assert(s.take(0) =~= Seq::<char>::empty());
    while b < target
        invariant
            s == v@,
            kk <= v.len(),
            total == utf8_len(s),
            target <= total,
            0 <= kk <= s.len(),
            utf8_len(s.take(kk)) == target,
            k <= kk,
            b == utf8_len(s.take(k as int)),
        decreases kk - k,
    {
        proof {
            if k == kk {
                assert(false);
            }
            lemma_utf8_len_take_step(s, k as int);
            lemma_utf8_len_take_mono(s, k + 1, s.len() as int);
            assert(s.take(s.len() as int) =~= s);
        }
        b = b + char_width(v[k]);
        k = k + 1;
    }
    proof {
        if k < kk {
            lemma_utf8_len_take_strict(s, k as int, kk);
        }
        assert forall|k2: int|
            0 <= k2 <= s.len() && utf8_len(s.take(k2)) == target implies k2 == k by {
            if k2 < k {
                lemma_utf8_len_take_strict(s, k2, k as int);
            } else if k2 > k {
                lemma_utf8_len_take_strict(s, k as int, k2);
            }
        }
    }
    let before = sub_chars(v.as_slice(), 0, k);
    assert(before@ =~= s.take(k as int));
    let close = [']', ']'];
    assert(close@ =~= close_brackets());
    let ghost bs = before@;
    let found = last_open(before.as_slice());
    match found {
        None => None,
        Some(o) => {
            let after = sub_chars(before.as_slice(), o + 2, before.len());
            assert(after@ =~= bs.skip(o + 2));
            if contains_chars(after.as_slice(), close.as_slice()) {
                None
            } else {
                let mut p: usize = 0;
                while p < after.len() && after[p] != '|'
                    invariant
                        p <= after@.len(),
                        pipe_index(after@, p as int) == pipe_index(after@, 0),
                    decreases after@.len() - p,
                {
                    p = p + 1;
                }
                let partial = sub_chars(after.as_slice(), 0, p);
                assert(partial@ =~= after@.take(p as int));
                Some(string_from_chars(partial.as_slice()))
            }
        },
    }
}

// ---------------------------------------------------------------------
// Title map: lowercase name -> note id
// ---------------------------------------------------------------------

/// A map from lowercased names (ids, titles, aliases) to note ids, used to
/// resolve link targets.
pub struct TitleMap {
    entries: Vec<(String, String)>,
    map: Ghost<Map<Seq<char>, Seq<char>>>,
}

impl View for TitleMap {
    type V = Map<Seq<char>, Seq<char>>;

    closed spec fn view(&self) -> Map<Seq<char>, Seq<char>> {
        self.map@
    }
}

impl TitleMap {
    /// The entries agree with the abstract map, one entry per key.
    pub closed spec fn wf(&self) -> bool {
        &&& forall|i: int, j: int|
            0 <= i < self.entries@.len() && 0 <= j < self.entries@.len() && i != j
                ==> #[trigger] self.entries@[i].0@ != #[trigger] self.entries@[j].0@
        &&& forall|i: int|
            0 <= i < self.entries@.len() ==> self.map@.contains_key(#[trigger] self.entries@[i].0@)
                && self.map@[self.entries@[i].0@] == self.entries@[i].1@
        &&& forall|k: Seq<char>|
            #[trigger] self.map@.contains_key(k) ==> exists|i: int|
                0 <= i < self.entries@.len() && #[trigger] self.entries@[i].0@ == k
    }

    /// An empty map.
    pub fn new() -> (m: Self)
        ensures
            m.wf(),
            m@ == Map::<Seq<char>, Seq<char>>::empty(),
    {
        TitleMap { entries: Vec::new(), map: Ghost(Map::empty()) }
    }

    fn find(&self, key: &String) -> (r: Option<usize>)
        requires
            self.wf(),
        ensures
            match r {
                Some(i) => i < self.entries@.len() && self.entries@[i as int].0@ == key@,
                None => !self@.contains_key(key@),
            },
    {
        let mut i: usize = 0;
        while i < self.entries.len()
            invariant
                self.wf(),
                i <= self.entries@.len(),
                forall|j: int| 0 <= j < i ==> self.entries@[j].0@ != key@,
            decreases self.entries@.len() - i,
        {
            if self.entries[i].0 == *key {
                return Some(i);
            }
            i = i + 1;
        }
        None
    }

    /// Insert or replace the value for `key`.
    pub fn insert(&mut self, key: String, value: String)
        requires
            old(self).wf(),
        ensures
            final(self).wf(),
            final(self)@ == old(self)@.insert(key@, value@),
    {
        let ghost k = key@;
        let ghost val = value@;
        match self.find(&key) {
            Some(i) => {
                self.entries.set(i, (key, value));
                self.map = Ghost(self.map@.insert(k, val));
                assert forall|k2: Seq<char>| #[trigger] self.map@.contains_key(k2) implies exists|
                    j: int,
                | 0 <= j < self.entries@.len() && #[trigger] self.entries@[j].0@ == k2 by {
                    if k2 == k {
                        assert(self.entries@[i as int].0@ == k2);
                    } else {
                        assert(old(self).map@.contains_key(k2));
                        let j = choose|j: int|
                            0 <= j < old(self).entries@.len() && #[trigger] old(
                                self,
                            ).entries@[j].0@ == k2;
                        assert(self.entries@[j].0@ == k2);
                    }
                }
            },
            None => {
                self.entries.push((key, value));
                self.map = Ghost(self.map@.insert(k, val));
                assert forall|k2: Seq<char>| #[trigger] self.map@.contains_key(k2) implies exists|
                    j: int,
                | 0 <= j < self.entries@.len() && #[trigger] self.entries@[j].0@ == k2 by {
                    if k2 == k {
                        assert(self.entries@[self.entries@.len() - 1].0@ == k2);
                    } else {
                        assert(old(self).map@.contains_key(k2));
                        let j = choose|j: int|
                            0 <= j < old(self).entries@.len() && #[trigger] old(
                                self,
                            ).entries@[j].0@ == k2;
                        assert(self.entries@[j].0@ == k2);
                    }
                }
            },
        }
    }

    /// The id stored for `key`, if any.
    pub fn get(&self, key: &str) -> (r: Option<&String>)
        requires
            self.wf(),
        ensures
            match r {
                Some(v) => self@.contains_key(key@) && v@ == self@[key@],
                None => !self@.contains_key(key@),
            },
    {
        let k = String::from_str(key);
        match self.find(&k) {
            Some(i) => Some(&self.entries[i].1),
            None => None,
        }
    }

    /// Whether `key` has an entry.
    pub fn contains_key(&self, key: &str) -> (b: bool)
        requires
            self.wf(),
        ensures
            b == self@.contains_key(key@),
    {
        self.get(key).is_some()
    }
}

/// `target` resolves to the note `id`: its lowercase form is a key of the
/// title map, with value `id`.
pub open spec fn resolves_to(tm: Map<Seq<char>, Seq<char>>, target: Seq<char>, id: Seq<char>) -> bool {
    tm.contains_key(lowercase(target)) && tm[lowercase(target)] == id
}

/// Whether `target` resolves to any note.
pub open spec fn resolves(tm: Map<Seq<char>, Seq<char>>, target: Seq<char>) -> bool {
    tm.contains_key(lowercase(target))
}

/// Resolve a wiki link target to a note ID using the title map: the target
/// is matched case-insensitively against the map's keys.
fn resolve_link(target: &str, title_map: &TitleMap) -> (r: Option<String>)
    requires
        title_map.wf(),
    ensures
        match r {
            Some(id) => resolves_to(title_map@, target@, id@),
            None => !resolves(title_map@, target@),
        },
{
    let lower = to_lowercase(target);
    match title_map.get(lower.as_str()) {
        Some(id) => Some(id.clone()),
        None => None,
    }
}

/// The links whose target does not resolve to any note.
pub open spec fn broken_links(links: Seq<WikiLink>, tm: Map<Seq<char>, Seq<char>>) -> Seq<WikiLink> {
    links.filter(|l: WikiLink| !resolves(tm, l.target@))
}

/// Find broken links (links that don't resolve to any note), in order.
pub fn find_broken_links(links: &[WikiLink], title_map: &TitleMap) -> (r: Vec<WikiLink>)
    requires
        title_map.wf(),
    ensures
        r@ == broken_links(links@, title_map@),
{
    let mut r: Vec<WikiLink> = Vec::new();
    let mut i: usize = 0;
    while i < links.len()
        invariant
            title_map.wf(),
            i <= links@.len(),
            r@ == broken_links(links@.take(i as int), title_map@),
        decreases links@.len() - i,
    {
        proof {
            reveal_with_fuel(Seq::filter, 1);
            assert(links@.take(i + 1).drop_last() =~= links@.take(i as int));
        }
        if resolve_link(links[i].target.as_str(), title_map).is_none() {
            r.push(links[i].duplicate());
        }
        i = i + 1;
    }
    assert(links@.take(links@.len() as int) =~= links@);
    r
}

// ---------------------------------------------------------------------
// Backlink index
// ---------------------------------------------------------------------

/// The views of a list of strings.
pub open spec fn str_seq(v: Seq<String>) -> Seq<Seq<char>> {
    v.map_values(|s: String| s@)
}

/// The view of an edge `(from, to)`.
pub open spec fn edge_view(e: (String, String)) -> (Seq<char>, Seq<char>) {
    (e.0@, e.1@)
}

/// The views of a list of edges.
pub open spec fn edge_seq(v: Seq<(String, String)>) -> Seq<(Seq<char>, Seq<char>)> {
    v.map_values(|e: (String, String)| edge_view(e))
}

/// The abstract state of a [`BacklinkIndex`]: two sets of edges.
pub struct LinkGraph {
    /// `(source, target)`: `source` links to `target`.
    pub forward: Set<(Seq<char>, Seq<char>)>,
    /// `(target, source)`: `target` has a backlink from `source`.
    pub reverse: Set<(Seq<char>, Seq<char>)>,
}

/// Bidirectional link index: tracks which notes link to which.
pub struct BacklinkIndex {
    /// Forward links: `(source, target)` pairs, each at most once.
    forward: Vec<(String, String)>,
    /// Reverse links: `(target, source)` pairs, each at most once.
    reverse: Vec<(String, String)>,
}

impl View for BacklinkIndex {
    type V = LinkGraph;

    closed spec fn view(&self) -> LinkGraph {
        LinkGraph {
            forward: edge_seq(self.forward@).to_set(),
            reverse: edge_seq(self.reverse@).to_set(),
        }
    }
}

/// Keep the edge `p` unless it starts at `a` (and, if `b` is given, ends at `b`).
pub open spec fn kept(p: (Seq<char>, Seq<char>), a: Seq<char>, b: Option<Seq<char>>) -> bool {
    !(p.0 == a && (b is None || p.1 == b.unwrap()))
}

fn opt_ref_view(b: Option<&String>) -> (r: Ghost<Option<Seq<char>>>)
    ensures
        r@ == (match b {
            Some(x) => Some(x@),
            None => None::<Seq<char>>,
        }),
{
    Ghost(
        match b {
            Some(x) => Some(x@),
            None => None,
        },
    )
}

/// The edges of `v` that are kept (see [`kept`]).
fn retain_edges(v: &Vec<(String, String)>, a: &String, b: Option<&String>) -> (r: Vec<
    (String, String),
>)
    requires
        edge_seq(v@).no_duplicates(),
    ensures
        edge_seq(r@).no_duplicates(),
        forall|p: (Seq<char>, Seq<char>)|
            edge_seq(r@).contains(p) <==> edge_seq(v@).contains(p) && kept(
                p,
                a@,
                match b {
                    Some(x) => Some(x@),
                    None => None,
                },
            ),
{
    let ghost bv = match b {
        Some(x) => Some(x@),
        None => None::<Seq<char>>,
    };
    let mut r: Vec<(String, String)> = Vec::new();
    let mut i: usize = 0;
    while i < v.len()
        invariant
            i <= v@.len(),
            edge_seq(v@).no_duplicates(),
            edge_seq(r@).no_duplicates(),
            bv == (match b {
                Some(x) => Some(x@),
                None => None::<Seq<char>>,
            }),
            forall|p: (Seq<char>, Seq<char>)|
                edge_seq(r@).contains(p) <==> (exists|k: int|
                    0 <= k < i && edge_view(#[trigger] v@[k]) == p) && kept(p, a@, bv),
        decreases v@.len() - i,
    {
        let keep = match b {
            Some(y) => !(v[i].0 == *a && v[i].1 == *y),
            None => !(v[i].0 == *a),
        };
        let ghost old_r = r@;
        let ghost e = edge_view(v@[i as int]);
        if keep {
            r.push((v[i].0.clone(), v[i].1.clone()));
            proof {
                assert(edge_seq(r@) =~= edge_seq(old_r).push(e));
                assert(!edge_seq(old_r).contains(e)) by {
                    if edge_seq(old_r).contains(e) {
                        let k = choose|k: int| 0 <= k < i && edge_view(#[trigger] v@[k]) == e;
                        assert(edge_seq(v@)[k] == edge_seq(v@)[i as int]);
                    }
                }
            }
        }
        proof {
            assert forall|p: (Seq<char>, Seq<char>)|
                edge_seq(r@).contains(p) <==> (exists|k: int|
                    0 <= k < i + 1 && edge_view(#[trigger] v@[k]) == p) && kept(p, a@, bv) by {
                if edge_seq(r@).contains(p) && p != e {
                    assert(edge_seq(old_r).contains(p));
                }
                if (exists|k: int| 0 <= k < i + 1 && edge_view(#[trigger] v@[k]) == p) && kept(
                    p,
                    a@,
                    bv,
                ) {
                    if p != e {
                        let k = choose|k: int| 0 <= k < i + 1 && edge_view(#[trigger] v@[k]) == p;
                        assert(k < i);
                        assert(edge_seq(old_r).contains(p));
                        assert(edge_seq(r@).contains(p));
                    } else {
                        assert(edge_seq(r@).last() == e);
                    }
                }
            }
        }
        i = i + 1;
    }
    proof {
        assert forall|p: (Seq<char>, Seq<char>)|
            edge_seq(r@).contains(p) <==> edge_seq(v@).contains(p) && kept(p, a@, bv) by {
            if edge_seq(v@).contains(p) {
                let k = choose|k: int| 0 <= k < edge_seq(v@).len() && edge_seq(v@)[k] == p;
                assert(edge_view(v@[k]) == p);
            }
            if exists|k: int| 0 <= k < v@.len() && edge_view(#[trigger] v@[k]) == p {
                let k = choose|k: int| 0 <= k < v@.len() && edge_view(#[trigger] v@[k]) == p;
                assert(edge_seq(v@)[k] == p);
            }
        }
    }
    r
}

/// The edge `p` neither starts nor ends at `a`.
pub open spec fn clear_of(p: (Seq<char>, Seq<char>), a: Seq<char>) -> bool {
    p.0 != a && p.1 != a
}

/// The edges of `v` that neither start nor end at `a`, in order.
fn drop_touching(v: &Vec<(String, String)>, a: &String) -> (r: Vec<(String, String)>)
    requires
        edge_seq(v@).no_duplicates(),
    ensures
        edge_seq(r@).no_duplicates(),
        forall|p: (Seq<char>, Seq<char>)|
            edge_seq(r@).contains(p) <==> edge_seq(v@).contains(p) && (p.0 != a@ && p.1 != a@),
{
    let mut r: Vec<(String, String)> = Vec::new();
    let mut i: usize = 0;
    while i < v.len()
        invariant
            i <= v@.len(),
            edge_seq(v@).no_duplicates(),
            edge_seq(r@).no_duplicates(),
            forall|p: (Seq<char>, Seq<char>)|
                edge_seq(r@).contains(p) <==> (exists|k: int|
                    0 <= k < i && edge_view(#[trigger] v@[k]) == p) && (p.0 != a@ && p.1 != a@),
        decreases v@.len() - i,
    {
        let keep = !(v[i].0 == *a) && !(v[i].1 == *a);
        let ghost old_r = r@;
        let ghost e = edge_view(v@[i as int]);
        if keep {
            r.push((v[i].0.clone(), v[i].1.clone()));
            proof {
                assert(edge_seq(r@) =~= edge_seq(old_r).push(e));
                assert(!edge_seq(old_r).contains(e)) by {
                    if edge_seq(old_r).contains(e) {
                        let k = choose|k: int| 0 <= k < i && edge_view(#[trigger] v@[k]) == e;
                        assert(edge_seq(v@)[k] == edge_seq(v@)[i as int]);
                    }
                }
            }
        }
        proof {
            assert forall|p: (Seq<char>, Seq<char>)|
                edge_seq(r@).contains(p) <==> (exists|k: int|
                    0 <= k < i + 1 && edge_view(#[trigger] v@[k]) == p) && (p.0 != a@ && p.1 != a@) by {
                if edge_seq(r@).contains(p) && p != e {
                    assert(edge_seq(old_r).contains(p));
                }
                if (exists|k: int| 0 <= k < i + 1 && edge_view(#[trigger] v@[k]) == p) && (p.0 != a@ && p.1 != a@) {
                    if p != e {
                        let k = choose|k: int| 0 <= k < i + 1 && edge_view(#[trigger] v@[k]) == p;
                        assert(k < i);
                        assert(edge_seq(old_r).contains(p));
                        assert(edge_seq(r@).contains(p));
                    } else {
                        assert(edge_seq(r@).last() == e);
                    }
                }
            }
        }
        i = i + 1;
    }
    proof {
        assert forall|p: (Seq<char>, Seq<char>)|
            edge_seq(r@).contains(p) <==> edge_seq(v@).contains(p) && (p.0 != a@ && p.1 != a@) by {
            if edge_seq(v@).contains(p) {
                let k = choose|k: int| 0 <= k < edge_seq(v@).len() && edge_seq(v@)[k] == p;
                assert(edge_view(v@[k]) == p);
            }
            if exists|k: int| 0 <= k < v@.len() && edge_view(#[trigger] v@[k]) == p {
                let k = choose|k: int| 0 <= k < v@.len() && edge_view(#[trigger] v@[k]) == p;
                assert(edge_seq(v@)[k] == p);
            }
        }
    }
    r
}

/// Add the edge `(a, b)` to `v` unless it is already there.
fn add_edge(v: &mut Vec<(String, String)>, a: &String, b: &String)
    requires
        edge_seq(old(v)@).no_duplicates(),
    ensures
        edge_seq(final(v)@).no_duplicates(),
        forall|p: (Seq<char>, Seq<char>)|
            edge_seq(final(v)@).contains(p) <==> edge_seq(old(v)@).contains(p) || p == (a@, b@),
{
    let mut i: usize = 0;
    while i < v.len()
        invariant
            v@ == old(v)@,
            edge_seq(old(v)@).no_duplicates(),
            i <= v@.len(),
            forall|k: int| 0 <= k < i ==> edge_view(#[trigger] v@[k]) != (a@, b@),
        decreases v@.len() - i,
    {
        if v[i].0 == *a && v[i].1 == *b {
            assert(edge_seq(v@)[i as int] == (a@, b@));
            return;
        }
        i = i + 1;
    }
    let ghost old_v = v@;
    v.push((a.clone(), b.clone()));
    proof {
        assert(edge_seq(v@) =~= edge_seq(old_v).push((a@, b@)));
        assert(!edge_seq(old_v).contains((a@, b@))) by {
            if edge_seq(old_v).contains((a@, b@)) {
                let k = choose|k: int|
                    0 <= k < edge_seq(old_v).len() && edge_seq(old_v)[k] == (a@, b@);
                assert(edge_view(old_v[k]) == (a@, b@));
            }
        }
    }
}

/// The ends of the edges of `v` that start at `a`, each once.
fn ends_from(v: &Vec<(String, String)>, a: &String) -> (r: Vec<String>)
    requires
        edge_seq(v@).no_duplicates(),
    ensures
        str_seq(r@).no_duplicates(),
        forall|t: Seq<char>|
            str_seq(r@).contains(t) <==> edge_seq(v@).contains((a@, t)),
{
    let mut r: Vec<String> = Vec::new();
    let mut i: usize = 0;
    while i < v.len()
        invariant
            i <= v@.len(),
            edge_seq(v@).no_duplicates(),
            str_seq(r@).no_duplicates(),
            forall|t: Seq<char>|
                str_seq(r@).contains(t) <==> exists|k: int|
                    0 <= k < i && edge_view(#[trigger] v@[k]) == (a@, t),
        decreases v@.len() - i,
    {
        let ghost old_r = r@;
        if v[i].0 == *a {
            r.push(v[i].1.clone());
            proof {
                let t = v@[i as int].1@;
                assert(str_seq(r@) =~= str_seq(old_r).push(t));
                assert(!str_seq(old_r).contains(t)) by {
                    if str_seq(old_r).contains(t) {
                        let k = choose|k: int| 0 <= k < i && edge_view(#[trigger] v@[k]) == (a@, t);
                        assert(edge_seq(v@)[k] == edge_seq(v@)[i as int]);
                    }
                }
            }
        }
        proof {
            assert forall|t: Seq<char>|
                str_seq(r@).contains(t) <==> exists|k: int|
                    0 <= k < i + 1 && edge_view(#[trigger] v@[k]) == (a@, t) by {
                if str_seq(r@).contains(t) && !str_seq(old_r).contains(t) {
                    assert(str_seq(r@).last() == t);
                    assert(edge_view(v@[i as int]) == (a@, t));
                }
                if str_seq(old_r).contains(t) {
                    let j = choose|j: int| 0 <= j < str_seq(old_r).len() && #[trigger] str_seq(old_r)[j] == t;
                    assert(str_seq(r@)[j] == t);
                }
                if exists|k: int| 0 <= k < i + 1 && edge_view(#[trigger] v@[k]) == (a@, t) {
                    let k = choose|k: int| 0 <= k < i + 1 && edge_view(#[trigger] v@[k]) == (a@, t);
                    if k == i {
                        assert(str_seq(r@).last() == t);
                    }
                }
            }
        }
        i = i + 1;
    }
    proof {
        assert forall|t: Seq<char>|
            str_seq(r@).contains(t) <==> edge_seq(v@).contains((a@, t)) by {
            if edge_seq(v@).contains((a@, t)) {
                let k = choose|k: int| 0 <= k < edge_seq(v@).len() && edge_seq(v@)[k] == (a@, t);
                assert(edge_view(v@[k]) == (a@, t));
            }
            if exists|k: int| 0 <= k < v@.len() && edge_view(#[trigger] v@[k]) == (a@, t) {
                let k = choose|k: int| 0 <= k < v@.len() && edge_view(#[trigger] v@[k]) == (a@, t);
                assert(edge_seq(v@)[k] == (a@, t));
            }
        }
    }
    r
}

/// Strictly ascending, in `String` order.
pub open spec fn strictly_sorted(s: Seq<Seq<char>>) -> bool {
    forall|i: int, j: int| 0 <= i < j < s.len() ==> seq_lt(#[trigger] s[i], #[trigger] s[j])
}

/// Sort distinct strings ascending.
fn sort_strings(v: Vec<String>) -> (r: Vec<String>)
    requires
        str_seq(v@).no_duplicates(),
    ensures
        strictly_sorted(str_seq(r@)),
        forall|t: Seq<char>| str_seq(r@).contains(t) <==> str_seq(v@).contains(t),
{
    let mut r: Vec<String> = Vec::new();
    let mut i: usize = 0;
    while i < v.len()
        invariant
            i <= v@.len(),
            str_seq(v@).no_duplicates(),
            strictly_sorted(str_seq(r@)),
            forall|t: Seq<char>|
                str_seq(r@).contains(t) <==> exists|k: int| 0 <= k < i && #[trigger] v@[k]@ == t,
        decreases v@.len() - i,
    {
        let x = v[i].clone();
        let ghost xv = x@;
        let mut p: usize = 0;
        while p < r.len() && !string_lt(&x, &r[p])
            invariant
                xv == x@,
                p <= r@.len(),
                forall|k: int| 0 <= k < p ==> !seq_lt(xv, #[trigger] str_seq(r@)[k]),
            decreases r@.len() - p,
        {
            assert(str_seq(r@)[p as int] == r@[p as int]@);
            p = p + 1;
        }
        let ghost old_r = str_seq(r@);
        proof {
            assert(!old_r.contains(xv)) by {
                if old_r.contains(xv) {
                    let j = choose|j: int| 0 <= j < old_r.len() && old_r[j] == xv;
                    assert(exists|k: int| 0 <= k < i && #[trigger] v@[k]@ == xv);
                    let k = choose|k: int| 0 <= k < i && #[trigger] v@[k]@ == xv;
                    assert(str_seq(v@)[k] == str_seq(v@)[i as int]);
                }
            }
        }
        r.insert(p, x);
        proof {
            let nr = str_seq(r@);
            assert(nr =~= old_r.insert(p as int, xv));
            assert forall|a: int, b: int| 0 <= a < b < nr.len() implies seq_lt(
                #[trigger] nr[a],
                #[trigger] nr[b],
            ) by {
                if b < p {
                } else if a > p {
                } else if a == p {
                    // x < old_r[b-1]
                    assert(seq_lt(xv, old_r[p as int]));
                    if b - 1 > p {
                        lemma_seq_lt_trans(xv, old_r[p as int], old_r[b - 1]);
                    }
                } else if b == p {
                    // old_r[a] < x
                    lemma_seq_lt_total(xv, old_r[a]);
                } else {
                    // a < p < b
                    lemma_seq_lt_total(xv, old_r[a]);
                    assert(seq_lt(old_r[a], xv));
                    assert(seq_lt(xv, old_r[p as int]));
                    lemma_seq_lt_trans(old_r[a], xv, old_r[p as int]);
                    if b - 1 > p {
                        lemma_seq_lt_trans(old_r[a], old_r[p as int], old_r[b - 1]);
                    }
                }
            }
            assert forall|t: Seq<char>|
                nr.contains(t) <==> exists|k: int| 0 <= k < i + 1 && #[trigger] v@[k]@ == t by {
                if nr.contains(t) && t != xv {
                    let j = choose|j: int| 0 <= j < nr.len() && nr[j] == t;
                    if j < p {
                        assert(old_r[j] == t);
                    } else {
                        assert(old_r[j - 1] == t);
                    }
                    assert(old_r.contains(t));
                }
                if t == xv {
                    assert(nr[p as int] == t);
                    assert(v@[i as int]@ == t);
                }
                if exists|k: int| 0 <= k < i + 1 && #[trigger] v@[k]@ == t {
                    if t != xv {
                        let k = choose|k: int| 0 <= k < i + 1 && #[trigger] v@[k]@ == t;
                        assert(k < i);
                        assert(old_r.contains(t));
                        let j = choose|j: int| 0 <= j < old_r.len() && old_r[j] == t;
                        if j < p {
                            assert(nr[j] == t);
                        } else {
                            assert(nr[j + 1] == t);
                        }
                    }
                }
            }
        }
        i = i + 1;
    }
    proof {
        assert forall|t: Seq<char>| str_seq(r@).contains(t) <==> str_seq(v@).contains(t) by {
            if str_seq(v@).contains(t) {
                let k = choose|k: int| 0 <= k < str_seq(v@).len() && str_seq(v@)[k] == t;
                assert(v@[k]@ == t);
            }
            if exists|k: int| 0 <= k < v@.len() && #[trigger] v@[k]@ == t {
                let k = choose|k: int| 0 <= k < v@.len() && #[trigger] v@[k]@ == t;
                assert(str_seq(v@)[k] == t);
            }
        }
    }
    r
}

/// The reverse edges of `v` without the backlinks from `src` to any of
/// `targets`.
fn drop_backlinks(v: &Vec<(String, String)>, targets: &Vec<String>, src: &String) -> (r: Vec<
    (String, String),
>)
    requires
        edge_seq(v@).no_duplicates(),
    ensures
        edge_seq(r@).no_duplicates(),
        forall|p: (Seq<char>, Seq<char>)|
            edge_seq(r@).contains(p) <==> edge_seq(v@).contains(p) && !(p.1 == src@ && str_seq(
                targets@,
            ).contains(p.0)),
{
    let mut r = copy_edges(v);
    let mut i: usize = 0;
    while i < targets.len()
        invariant
            i <= targets@.len(),
            edge_seq(r@).no_duplicates(),
            forall|p: (Seq<char>, Seq<char>)|
                edge_seq(r@).contains(p) <==> edge_seq(v@).contains(p) && !(p.1 == src@
                    && str_seq(targets@).take(i as int).contains(p.0)),
        decreases targets@.len() - i,
    {
        let ghost ti = targets@[i as int]@;
        r = retain_edges(&r, &targets[i], Some(src));
        proof {
            assert(str_seq(targets@).take(i + 1) =~= str_seq(targets@).take(i as int).push(ti));
            assert forall|p: (Seq<char>, Seq<char>)|
                edge_seq(r@).contains(p) <==> edge_seq(v@).contains(p) && !(p.1 == src@
                    && str_seq(targets@).take(i + 1).contains(p.0)) by {
                if p.0 == ti && p.1 == src@ {
                    assert(!kept(p, ti, Some(src@)));
                }
            }
        }
        i = i + 1;
    }
    assert(str_seq(targets@).take(targets@.len() as int) =~= str_seq(targets@));
    r
}

/// A copy of the edge list `v`.
fn copy_edges(v: &Vec<(String, String)>) -> (r: Vec<(String, String)>)
    ensures
        r@ == v@,
{
    let mut r: Vec<(String, String)> = Vec::new();
    let mut i: usize = 0;
    while i < v.len()
        invariant
            i <= v@.len(),
            r@ == v@.take(i as int),
        decreases v@.len() - i,
    {
        r.push((v[i].0.clone(), v[i].1.clone()));
        assert(r@ =~= v@.take(i + 1));
        i = i + 1;
    }
    assert(v@.take(v@.len() as int) =~= v@);
    r
}

/// Whether some edge of `v` starts at `a`.
fn has_edge_from(v: &Vec<(String, String)>, a: &String) -> (b: bool)
    ensures
        b == exists|t: Seq<char>| edge_seq(v@).contains((a@, t)),
{
    let mut i: usize = 0;
    while i < v.len()
        invariant
            i <= v@.len(),
            forall|k: int| 0 <= k < i ==> (#[trigger] v@[k]).0@ != a@,
        decreases v@.len() - i,
    {
        if v[i].0 == *a {
            assert(edge_seq(v@)[i as int] == (a@, v@[i as int].1@));
            assert(edge_seq(v@).contains((a@, v@[i as int].1@)));
            return true;
        }
        i = i + 1;
    }
    proof {
        assert forall|t: Seq<char>| !edge_seq(v@).contains((a@, t)) by {
            if edge_seq(v@).contains((a@, t)) {
                let k = choose|k: int| 0 <= k < edge_seq(v@).len() && edge_seq(v@)[k] == (a@, t);
                assert(v@[k].0@ == a@);
            }
        }
    }
    false
}

/// Some link in `links` resolves to `t`.
pub open spec fn links_to(links: Seq<WikiLink>, tm: Map<Seq<char>, Seq<char>>, t: Seq<char>) -> bool {
    exists|i: int| 0 <= i < links.len() && resolves_to(tm, #[trigger] links[i].target@, t)
}

proof fn lemma_links_to_step(
    links: Seq<WikiLink>,
    tm: Map<Seq<char>, Seq<char>>,
    j: int,
    t: Seq<char>,
)
    requires
        0 <= j < links.len(),
    ensures
        links_to(links.take(j + 1), tm, t) <==> links_to(links.take(j), tm, t) || resolves_to(
            tm,
            links[j].target@,
            t,
        ),
{
    if links_to(links.take(j + 1), tm, t) {
        let k = choose|k: int|
            0 <= k < j + 1 && resolves_to(tm, #[trigger] links.take(j + 1)[k].target@, t);
        if k < j {
            assert(links.take(j)[k] == links.take(j + 1)[k]);
        }
    }
    if links_to(links.take(j), tm, t) {
        let k = choose|k: int| 0 <= k < j && resolves_to(tm, #[trigger] links.take(j)[k].target@, t);
        assert(links.take(j)[k] == links.take(j + 1)[k]);
    }
    if resolves_to(tm, links[j].target@, t) {
        assert(links.take(j + 1)[j] == links[j]);
    }
}

/// A note is an orphan when no edge of either set starts at it: it links
/// nowhere, and nothing links to it.
pub open spec fn is_orphan(g: LinkGraph, id: Seq<char>) -> bool {
    &&& !exists|t: Seq<char>| g.forward.contains((id, t))
    &&& !exists|t: Seq<char>| g.reverse.contains((id, t))
}

/// [`is_orphan`] as a predicate.
pub open spec fn orphan_pred(g: LinkGraph) -> spec_fn(Seq<char>) -> bool {
    |id: Seq<char>| is_orphan(g, id)
}

/// The forward edges after `source`'s links are replaced by `links`.
pub open spec fn updated_forward(
    g: LinkGraph,
    source: Seq<char>,
    links: Seq<WikiLink>,
    tm: Map<Seq<char>, Seq<char>>,
) -> Set<(Seq<char>, Seq<char>)> {
    Set::new(
        |p: (Seq<char>, Seq<char>)|
            (g.forward.contains(p) && p.0 != source) || (p.0 == source && links_to(links, tm, p.1)),
    )
}

/// The reverse edges after `source`'s links are replaced by `links`: the
/// backlinks from `source` to its old targets go, one to each new target
/// comes.
pub open spec fn updated_reverse(
    g: LinkGraph,
    source: Seq<char>,
    links: Seq<WikiLink>,
    tm: Map<Seq<char>, Seq<char>>,
) -> Set<(Seq<char>, Seq<char>)> {
    Set::new(
        |p: (Seq<char>, Seq<char>)|
            (g.reverse.contains(p) && !(p.1 == source && g.forward.contains((source, p.0)))) || (
            p.1 == source && links_to(links, tm, p.0)),
    )
}

/// Every backlink mirrors a link: `t` has a backlink from `s` exactly when
/// `s` links to `t`.
pub open spec fn mirrored(g: LinkGraph) -> bool {
    forall|s: Seq<char>, t: Seq<char>|
        #![trigger g.reverse.contains((t, s))]
        #![trigger g.forward.contains((s, t))]
        g.reverse.contains((t, s)) <==> g.forward.contains((s, t))
}

/// Re-indexing a note keeps the backlinks the mirror image of the links.
pub proof fn law_update_keeps_mirror(
    g: LinkGraph,
    source: Seq<char>,
    links: Seq<WikiLink>,
    tm: Map<Seq<char>, Seq<char>>,
)
    requires
        mirrored(g),
    ensures
        mirrored(
            LinkGraph {
                forward: updated_forward(g, source, links, tm),
                reverse: updated_reverse(g, source, links, tm),
            },
        ),
{
    let f = updated_forward(g, source, links, tm);
    let r = updated_reverse(g, source, links, tm);
    assert forall|s: Seq<char>, t: Seq<char>| r.contains((t, s)) <==> f.contains((s, t)) by {
        assert(g.reverse.contains((t, s)) <==> g.forward.contains((s, t)));
    }
}

/// The graph with the note `n` taken out: every edge that starts or ends
/// at `n` is gone, the others stay.
pub open spec fn graph_without(g: LinkGraph, n: Seq<char>) -> LinkGraph {
    LinkGraph {
        forward: g.forward.filter(|p: (Seq<char>, Seq<char>)| clear_of(p, n)),
        reverse: g.reverse.filter(|p: (Seq<char>, Seq<char>)| clear_of(p, n)),
    }
}

/// Removing a note keeps the backlinks the mirror image of the links.
pub proof fn law_remove_keeps_mirror(g: LinkGraph, n: Seq<char>)
    requires
        mirrored(g),
    ensures
        mirrored(graph_without(g, n)),
{
    let h = graph_without(g, n);
    assert forall|s: Seq<char>, t: Seq<char>| h.reverse.contains((t, s)) <==> h.forward.contains(
        (s, t),
    ) by {
        assert(g.reverse.contains((t, s)) <==> g.forward.contains((s, t)));
    }
}

/// After a note is removed it occurs in no edge, and removing it a second
/// time changes nothing.
pub proof fn law_remove_is_total(g: LinkGraph, n: Seq<char>)
    ensures
        forall|x: Seq<char>|
            !graph_without(g, n).forward.contains((n, x)) && !graph_without(g, n).forward.contains(
                (x, n),
            ) && !graph_without(g, n).reverse.contains((n, x)) && !graph_without(
                g,
                n,
            ).reverse.contains((x, n)),
        graph_without(graph_without(g, n), n) == graph_without(g, n),
{
    let h = graph_without(g, n);
    let h2 = graph_without(h, n);
    assert(h2.forward =~= h.forward);
    assert(h2.reverse =~= h.reverse);
}

/// The targets of the wiki links in `s`, left to right.
pub open spec fn link_targets(s: Seq<char>) -> Seq<Seq<char>> {
    let ms = matches_from(s, 0);
    Seq::new(ms.len(), |i: int| range_text(s, ms[i].target))
}

/// Whether one of `targets` resolves to the note `t`.
pub open spec fn targets_reach(targets: Seq<Seq<char>>, tm: Map<Seq<char>, Seq<char>>, t: Seq<char>) -> bool {
    exists|i: int| 0 <= i < targets.len() && resolves_to(tm, #[trigger] targets[i], t)
}

/// The graph after the note `source` is indexed with the link targets
/// `targets`: its old links are replaced by those that resolve.
pub open spec fn graph_with(
    g: LinkGraph,
    source: Seq<char>,
    targets: Seq<Seq<char>>,
    tm: Map<Seq<char>, Seq<char>>,
) -> LinkGraph {
    LinkGraph {
        forward: Set::new(
            |p: (Seq<char>, Seq<char>)|
                (g.forward.contains(p) && p.0 != source) || (p.0 == source && targets_reach(
                    targets,
                    tm,
                    p.1,
                )),
        ),
        reverse: Set::new(
            |p: (Seq<char>, Seq<char>)|
                (g.reverse.contains(p) && !(p.1 == source && g.forward.contains((source, p.0))))
                    || (p.1 == source && targets_reach(targets, tm, p.0)),
        ),
    }
}

/// The link graph of the notes `notes[..n]` (id and content), indexed in
/// order from an empty graph.
pub open spec fn vault_graph(
    notes: Seq<(Seq<char>, Seq<char>)>,
    tm: Map<Seq<char>, Seq<char>>,
    n: int,
) -> LinkGraph
    decreases n,
{
    if 0 < n <= notes.len() {
        graph_with(vault_graph(notes, tm, n - 1), notes[n - 1].0, link_targets(notes[n - 1].1), tm)
    } else {
        LinkGraph { forward: Set::empty(), reverse: Set::empty() }
    }
}

/// The link graph of a whole vault is mirrored: `t` has a backlink from
/// `s` exactly when `s` links to `t`.
pub proof fn law_vault_graph_mirrored(
    notes: Seq<(Seq<char>, Seq<char>)>,
    tm: Map<Seq<char>, Seq<char>>,
    n: int,
)
    ensures
        mirrored(vault_graph(notes, tm, n)),
    decreases n,
{
    if 0 < n <= notes.len() {
        let g = vault_graph(notes, tm, n - 1);
        law_vault_graph_mirrored(notes, tm, n - 1);
        let source = notes[n - 1].0;
        let targets = link_targets(notes[n - 1].1);
        let h = graph_with(g, source, targets, tm);
        assert forall|s: Seq<char>, t: Seq<char>| h.reverse.contains((t, s)) <==> h.forward.contains(
            (s, t),
        ) by {
            assert(g.reverse.contains((t, s)) <==> g.forward.contains((s, t)));
        }
    } else {
        let g = vault_graph(notes, tm, n);
        assert forall|s: Seq<char>, t: Seq<char>| g.reverse.contains((t, s)) <==> g.forward.contains(
            (s, t),
        ) by {}
    }
}

/// The note `s` links to `t` in the vault `notes[..n]`: the last note with
/// the id `s` holds a link that resolves to `t`.
pub open spec fn last_links_to(
    notes: Seq<(Seq<char>, Seq<char>)>,
    tm: Map<Seq<char>, Seq<char>>,
    n: int,
    s: Seq<char>,
    t: Seq<char>,
) -> bool {
    exists|i: int|
        0 <= i < n && #[trigger] notes[i].0 == s && targets_reach(link_targets(notes[i].1), tm, t)
            && forall|j: int| i < j < n ==> notes[j].0 != s
}

/// The link graph of a vault holds the edge `(s, t)`, and its mirror, exactly
/// when the note `s` (the last one of that id) has a link that resolves to
/// `t`.
pub proof fn law_vault_graph_links(
    notes: Seq<(Seq<char>, Seq<char>)>,
    tm: Map<Seq<char>, Seq<char>>,
    n: int,
)
    requires
        0 <= n <= notes.len(),
    ensures
        forall|s: Seq<char>, t: Seq<char>|
            #[trigger] vault_graph(notes, tm, n).forward.contains((s, t)) <==> last_links_to(
                notes,
                tm,
                n,
                s,
                t,
            ),
        forall|s: Seq<char>, t: Seq<char>|
            #[trigger] vault_graph(notes, tm, n).reverse.contains((t, s)) <==> last_links_to(
                notes,
                tm,
                n,
                s,
                t,
            ),
    decreases n,
{
    law_vault_graph_mirrored(notes, tm, n);
    let g = vault_graph(notes, tm, n);
    if n > 0 {
        law_vault_graph_links(notes, tm, n - 1);
        let src = notes[n - 1].0;
        let targets = link_targets(notes[n - 1].1);
        assert forall|s: Seq<char>, t: Seq<char>| g.forward.contains((s, t)) <==> last_links_to(
            notes,
            tm,
            n,
            s,
            t,
        ) by {
            if s == src {
                if last_links_to(notes, tm, n, s, t) {
                    let i = choose|i: int|
                        0 <= i < n && #[trigger] notes[i].0 == s && targets_reach(
                            link_targets(notes[i].1),
                            tm,
                            t,
                        ) && forall|j: int| i < j < n ==> notes[j].0 != s;
                    assert(i == n - 1);
                }
                if targets_reach(targets, tm, t) {
                    assert(notes[n - 1].0 == s);
                }
            } else {
                if last_links_to(notes, tm, n, s, t) {
                    let i = choose|i: int|
                        0 <= i < n && #[trigger] notes[i].0 == s && targets_reach(
                            link_targets(notes[i].1),
                            tm,
                            t,
                        ) && forall|j: int| i < j < n ==> notes[j].0 != s;
                    assert(i < n - 1);
                    assert(last_links_to(notes, tm, n - 1, s, t));
                }
                if last_links_to(notes, tm, n - 1, s, t) {
                    let i = choose|i: int|
                        0 <= i < n - 1 && #[trigger] notes[i].0 == s && targets_reach(
                            link_targets(notes[i].1),
                            tm,
                            t,
                        ) && forall|j: int| i < j < n - 1 ==> notes[j].0 != s;
                    assert(forall|j: int| i < j < n ==> notes[j].0 != s);
                    assert(last_links_to(notes, tm, n, s, t));
                }
                assert(vault_graph(notes, tm, n - 1).forward.contains((s, t)) <==> last_links_to(
                    notes,
                    tm,
                    n - 1,
                    s,
                    t,
                ));
            }
        }
    }
    assert forall|s: Seq<char>, t: Seq<char>| g.reverse.contains((t, s)) <==> last_links_to(
        notes,
        tm,
        n,
        s,
        t,
    ) by {
        assert(g.reverse.contains((t, s)) <==> g.forward.contains((s, t)));
        if n > 0 {
        } else {
            assert(!last_links_to(notes, tm, n, s, t));
        }
    }
}

/// The views of a list of notes as (id, content) pairs.
pub open spec fn note_pairs(v: Seq<(String, String)>) -> Seq<(Seq<char>, Seq<char>)> {
    v.map_values(|p: (String, String)| (p.0@, p.1@))
}

/// Build the link index of a vault: every note, given by its id and
/// content, indexed in order.
pub fn index_vault(notes: &[(String, String)], title_map: &TitleMap) -> (idx: BacklinkIndex)
    requires
        title_map.wf(),
    ensures
        idx.wf(),
        idx@ == vault_graph(note_pairs(notes@), title_map@, notes@.len() as int),
{
    let ghost ns = note_pairs(notes@);
    let mut idx = BacklinkIndex::new();
    proof {
        assert(idx@.forward =~= vault_graph(ns, title_map@, 0).forward);
        assert(idx@.reverse =~= vault_graph(ns, title_map@, 0).reverse);
    }
    let mut i: usize = 0;
    while i < notes.len()
        invariant
            ns == note_pairs(notes@),
            title_map.wf(),
            i <= notes@.len(),
            idx.wf(),
            idx@ == vault_graph(ns, title_map@, i as int),
        decreases notes@.len() - i,
    {
        let links = extract_wiki_links(notes[i].1.as_str());
        let ghost g = idx@;
        let ghost content = notes@[i as int].1@;
        let ghost targets = link_targets(content);
        proof {
            assert(ns[i as int] == (notes@[i as int].0@, content));
            assert forall|k: int| 0 <= k < links@.len() implies #[trigger] links@[k].target@
                == targets[k] by {
                lemma_describes_target(links@[k], content, matches_from(content, 0)[k]);
            }
            assert forall|t: Seq<char>| links_to(links@, title_map@, t) == targets_reach(
                targets,
                title_map@,
                t,
            ) by {
                if links_to(links@, title_map@, t) {
                    let k = choose|k: int|
                        0 <= k < links@.len() && resolves_to(title_map@, #[trigger] links@[k].target@, t);
                    assert(resolves_to(title_map@, targets[k], t));
                }
                if targets_reach(targets, title_map@, t) {
                    let k = choose|k: int|
                        0 <= k < targets.len() && resolves_to(title_map@, #[trigger] targets[k], t);
                    assert(resolves_to(title_map@, links@[k].target@, t));
                }
            }
        }
        idx.update_note(notes[i].0.as_str(), links.as_slice(), title_map);
        proof {
            let want = vault_graph(ns, title_map@, i + 1);
            assert(want == graph_with(g, notes@[i as int].0@, targets, title_map@));
            assert(idx@.forward =~= want.forward);
            assert(idx@.reverse =~= want.reverse);
        }
        i = i + 1;
    }
    idx
}

/// The notes of a vault (id and content, in listing order) that link to
/// the note `id`, sorted: exactly those whose links, read through
/// `title_map`, resolve to `id`.
pub fn vault_backlinks(notes: &[(String, String)], title_map: &TitleMap, id: &str) -> (r: Vec<
    String,
>)
    requires
        title_map.wf(),
    ensures
        strictly_sorted(str_seq(r@)),
        forall|s: Seq<char>|
            str_seq(r@).contains(s) <==> last_links_to(
                note_pairs(notes@),
                title_map@,
                notes@.len() as int,
                s,
                id@,
            ),
{
    let idx = index_vault(notes, title_map);
    proof {
        law_vault_graph_links(note_pairs(notes@), title_map@, notes@.len() as int);
    }
    idx.backlinks_for(id)
}

impl BacklinkIndex {
    /// Each edge list holds each edge at most once, and the backlinks are
    /// the mirror image of the links.
    pub closed spec fn wf(&self) -> bool {
        &&& edge_seq(self.forward@).no_duplicates()
        &&& edge_seq(self.reverse@).no_duplicates()
        &&& mirrored(self@)
    }

    /// A well-formed index is mirrored: `t` has a backlink from `s` exactly
    /// when `s` links to `t`.
    pub proof fn law_index_mirrored(&self)
        requires
            self.wf(),
        ensures
            mirrored(self@),
    {
    }

    /// An empty index.
    pub fn new() -> (r: Self)
        ensures
            r.wf(),
            r@.forward == Set::<(Seq<char>, Seq<char>)>::empty(),
            r@.reverse == Set::<(Seq<char>, Seq<char>)>::empty(),
    {
        let r = BacklinkIndex { forward: Vec::new(), reverse: Vec::new() };
        assert(r@.forward =~= Set::<(Seq<char>, Seq<char>)>::empty());
        assert(r@.reverse =~= Set::<(Seq<char>, Seq<char>)>::empty());
        r
    }

    /// Update the index for a single note: its old links are cleared and
    /// replaced by those of `links` that resolve through `title_map`.
    #[verifier::spinoff_prover]
    pub fn update_note(&mut self, source_id: &str, links: &[WikiLink], title_map: &TitleMap)
        requires
            old(self).wf(),
            title_map.wf(),
        ensures
            final(self).wf(),
            final(self)@.forward == updated_forward(old(self)@, source_id@, links@, title_map@),
            final(self)@.reverse == updated_reverse(old(self)@, source_id@, links@, title_map@),
    {
        let src = String::from_str(source_id);
        let ghost g = old(self)@;
        let ghost fwd0 = edge_seq(self.forward@);
        let ghost rev0 = edge_seq(self.reverse@);
        let old_targets = ends_from(&self.forward, &src);
        self.forward = retain_edges(&self.forward, &src, None);
        self.reverse = drop_backlinks(&self.reverse, &old_targets, &src);
        proof {
            assert forall|p: (Seq<char>, Seq<char>)|
                edge_seq(self.reverse@).contains(p) <==> rev0.contains(p) && !(p.1 == src@
                    && fwd0.contains((src@, p.0))) by {
            }
        }
        let ghost fwd1 = edge_seq(self.forward@);
        let ghost rev1 = edge_seq(self.reverse@);
        let mut j: usize = 0;
        assert(links@.take(0) =~= Seq::<WikiLink>::empty());
        while j < links.len()
            invariant
                j <= links@.len(),
                title_map.wf(),
                src@ == source_id@,
                edge_seq(self.forward@).no_duplicates(),
                edge_seq(self.reverse@).no_duplicates(),
                forall|p: (Seq<char>, Seq<char>)|
                    edge_seq(self.forward@).contains(p) <==> fwd1.contains(p) || (p.0 == src@
                        && links_to(links@.take(j as int), title_map@, p.1)),
                forall|p: (Seq<char>, Seq<char>)|
                    edge_seq(self.reverse@).contains(p) <==> rev1.contains(p) || (p.1 == src@
                        && links_to(links@.take(j as int), title_map@, p.0)),
            decreases links@.len() - j,
        {
            proof {
                assert forall|t: Seq<char>|
                    links_to(links@.take(j + 1), title_map@, t) <==> links_to(
                        links@.take(j as int),
                        title_map@,
                        t,
                    ) || resolves_to(title_map@, links@[j as int].target@, t) by {
                    lemma_links_to_step(links@, title_map@, j as int, t);
                }
            }
            let ghost f_old = edge_seq(self.forward@);
            let ghost r_old = edge_seq(self.reverse@);
            assert(forall|p: (Seq<char>, Seq<char>)|
                f_old.contains(p) <==> fwd1.contains(p) || (p.0 == src@
                    && links_to(links@.take(j as int), title_map@, p.1)));
            assert(forall|p: (Seq<char>, Seq<char>)|
                r_old.contains(p) <==> rev1.contains(p) || (p.1 == src@
                    && links_to(links@.take(j as int), title_map@, p.0)));
            match resolve_link(links[j].target.as_str(), title_map) {
                Some(t) => {
                    add_edge(&mut self.forward, &src, &t);
                    add_edge(&mut self.reverse, &t, &src);
                    proof {
                        assert forall|p: (Seq<char>, Seq<char>)|
                            edge_seq(self.forward@).contains(p) <==> fwd1.contains(p) || (p.0
                                == src@ && links_to(links@.take(j + 1), title_map@, p.1)) by {
                            assert(edge_seq(self.forward@).contains(p) <==> f_old.contains(p) || p
                                == (src@, t@));
                            assert(f_old.contains(p) <==> fwd1.contains(p) || (p.0 == src@
                                && links_to(links@.take(j as int), title_map@, p.1)));
                            assert(resolves_to(title_map@, links@[j as int].target@, p.1) <==> p.1
                                == t@);
                        }
                        assert forall|p: (Seq<char>, Seq<char>)|
                            edge_seq(self.reverse@).contains(p) <==> rev1.contains(p) || (p.1
                                == src@ && links_to(links@.take(j + 1), title_map@, p.0)) by {
                            assert(edge_seq(self.reverse@).contains(p) <==> r_old.contains(p) || p
                                == (t@, src@));
                            assert(r_old.contains(p) <==> rev1.contains(p) || (p.1 == src@
                                && links_to(links@.take(j as int), title_map@, p.0)));
                            assert(resolves_to(title_map@, links@[j as int].target@, p.0) <==> p.0
                                == t@);
                        }
                    }
                },
                None => {
                    proof {
                        assert forall|p: (Seq<char>, Seq<char>)|
                            edge_seq(self.forward@).contains(p) <==> fwd1.contains(p) || (p.0
                                == src@ && links_to(links@.take(j + 1), title_map@, p.1)) by {
                            assert(!resolves_to(title_map@, links@[j as int].target@, p.1));
                        }
                        assert forall|p: (Seq<char>, Seq<char>)|
                            edge_seq(self.reverse@).contains(p) <==> rev1.contains(p) || (p.1
                                == src@ && links_to(links@.take(j + 1), title_map@, p.0)) by {
                            assert(!resolves_to(title_map@, links@[j as int].target@, p.0));
                        }
                    }
                },
            }
            j = j + 1;
        }
        assert(links@.take(links@.len() as int) =~= links@);
        proof {
            let all = links@.take(links@.len() as int);
            assert(all == links@);
            assert forall|p: (Seq<char>, Seq<char>)|
                self@.forward.contains(p) <==> updated_forward(
                    g,
                    source_id@,
                    links@,
                    title_map@,
                ).contains(p) by {
                assert(edge_seq(self.forward@).contains(p) <==> fwd1.contains(p) || (p.0 == src@
                    && links_to(links@, title_map@, p.1)));
                assert(fwd1.contains(p) <==> fwd0.contains(p) && p.0 != src@);
            }
            assert forall|p: (Seq<char>, Seq<char>)|
                self@.reverse.contains(p) <==> updated_reverse(
                    g,
                    source_id@,
                    links@,
                    title_map@,
                ).contains(p) by {
                assert(edge_seq(self.reverse@).contains(p) <==> rev1.contains(p) || (p.1 == src@
                    && links_to(links@, title_map@, p.0)));
                assert(rev1.contains(p) <==> rev0.contains(p) && !(p.1 == src@ && fwd0.contains(
                    (src@, p.0),
                )));
            }
            assert(self@.forward =~= updated_forward(g, source_id@, links@, title_map@));
            assert(self@.reverse =~= updated_reverse(g, source_id@, links@, title_map@));
            law_update_keeps_mirror(g, source_id@, links@, title_map@);
        }
    }

    /// Remove a note from the index entirely: every link it makes, every
    /// link made to it, and the backlinks of both. Links between other notes
    /// stay as they were.
    pub fn remove_note(&mut self, note_id: &str)
        requires
            old(self).wf(),
        ensures
            final(self).wf(),
            final(self)@ == graph_without(old(self)@, note_id@),
    {
        let id = String::from_str(note_id);
        self.forward = drop_touching(&self.forward, &id);
        self.reverse = drop_touching(&self.reverse, &id);
        proof {
            let want = graph_without(old(self)@, note_id@);
            assert(self@.forward =~= want.forward);
            assert(self@.reverse =~= want.reverse);
            law_remove_keeps_mirror(old(self)@, note_id@);
        }
    }

    /// All notes that link to the given note, sorted.
    pub fn backlinks_for(&self, note_id: &str) -> (r: Vec<String>)
        requires
            self.wf(),
        ensures
            strictly_sorted(str_seq(r@)),
            forall|s: Seq<char>| str_seq(r@).contains(s) <==> self@.reverse.contains((note_id@, s)),
            forall|s: Seq<char>| str_seq(r@).contains(s) <==> self@.forward.contains((s, note_id@)),
    {
        let id = String::from_str(note_id);
        let v = ends_from(&self.reverse, &id);
        let r = sort_strings(v);
        assert forall|s: Seq<char>| str_seq(r@).contains(s) <==> self@.forward.contains(
            (s, note_id@),
        ) by {
            assert(self@.reverse.contains((note_id@, s)) <==> self@.forward.contains((s, note_id@)));
        }
        r
    }

    /// All notes that the given note links to, sorted.
    pub fn forward_links_for(&self, note_id: &str) -> (r: Vec<String>)
        requires
            self.wf(),
        ensures
            strictly_sorted(str_seq(r@)),
            forall|t: Seq<char>| str_seq(r@).contains(t) <==> self@.forward.contains((note_id@, t)),
    {
        let id = String::from_str(note_id);
        let v = ends_from(&self.forward, &id);
        sort_strings(v)
    }

    /// The notes of `all_ids` with no incoming or outgoing links, in order.
    pub fn orphans(&self, all_ids: &[String]) -> (r: Vec<String>)
        ensures
            str_seq(r@) == str_seq(all_ids@).filter(orphan_pred(self@)),
    {
        let mut r: Vec<String> = Vec::new();
        let mut i: usize = 0;
        while i < all_ids.len()
            invariant
                i <= all_ids@.len(),
                str_seq(r@) == str_seq(all_ids@.take(i as int)).filter(
                    orphan_pred(self@),
                ),
            decreases all_ids@.len() - i,
        {
            proof {
                reveal_with_fuel(Seq::filter, 1);
                assert(str_seq(all_ids@.take(i + 1)).drop_last() =~= str_seq(
                    all_ids@.take(i as int),
                ));
                assert(str_seq(all_ids@.take(i + 1)).last() == all_ids@[i as int]@);
            }
            let ghost old_r = r@;
            let out = has_edge_from(&self.forward, &all_ids[i]);
            let inc = has_edge_from(&self.reverse, &all_ids[i]);
            proof {
                let x = all_ids@[i as int]@;
                if out {
                    let t = choose|t: Seq<char>| edge_seq(self.forward@).contains((x, t));
                    assert(self@.forward.contains((x, t)));
                }
                if inc {
                    let t = choose|t: Seq<char>| edge_seq(self.reverse@).contains((x, t));
                    assert(self@.reverse.contains((x, t)));
                }
                if exists|t: Seq<char>| self@.forward.contains((x, t)) {
                    let t = choose|t: Seq<char>| self@.forward.contains((x, t));
                    assert(edge_seq(self.forward@).contains((x, t)));
                }
                if exists|t: Seq<char>| self@.reverse.contains((x, t)) {
                    let t = choose|t: Seq<char>| self@.reverse.contains((x, t));
                    assert(edge_seq(self.reverse@).contains((x, t)));
                }
                assert(orphan_pred(self@)(x) == (!out && !inc));
            }
            if !out && !inc {
                r.push(all_ids[i].clone());
                assert(str_seq(r@) =~= str_seq(old_r).push(all_ids@[i as int]@));
            }
            i = i + 1;
        }
        assert(all_ids@.take(all_ids@.len() as int) =~= all_ids@);
        r
    }

    /// Total number of links in the index (forward edges).
    pub fn link_count(&self) -> (n: usize)
        requires
            self.wf(),
        ensures
            n == self@.forward.len(),
    {
        proof {
            edge_seq(self.forward@).unique_seq_to_set();
        }
        self.forward.len()
    }
}

impl Default for BacklinkIndex {
    fn default() -> (r: Self)
        ensures
            r.wf(),
            r@.forward == Set::<(Seq<char>, Seq<char>)>::empty(),
            r@.reverse == Set::<(Seq<char>, Seq<char>)>::empty(),
    {
        BacklinkIndex::new()
    }
}

} // verus!
