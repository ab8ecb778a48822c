//! The rope that holds an editor's text, and the model of its lines.
//!
//! A rope is seen through `rope_chars`, the characters it holds.  Lines
//! follow ropey's rules with its default features: a line break is LF,
//! VT, FF, CR, NEL, LS or PS, a CR directly followed by LF is a single
//! break, and a break belongs to the line it ends.

use ropey::Rope;
use vstd::prelude::*;

verus! {

#[verifier::external_type_specification]
#[verifier::external_body]
pub struct ExRope(Rope);

/// The characters held by a rope, in order.
pub uninterp spec fn rope_chars(r: Rope) -> Seq<char>;

/// Whether `c` ends a line.
pub open spec fn is_line_break(c: char) -> bool {
    ||| c == '\n'
    ||| c == '\r'
    ||| c == '\x0B'
    ||| c == '\x0C'
    ||| c == '\u{85}'
    ||| c == '\u{2028}'
    ||| c == '\u{2029}'
}

/// Whether a new line starts at position `p` of `s`: the character before
/// it is a break, and not the CR of a CR LF pair.
pub open spec fn starts_line(s: Seq<char>, p: int) -> bool {
    &&& 0 < p <= s.len()
    &&& is_line_break(s[p - 1])
    &&& !(s[p - 1] == '\r' && p < s.len() && s[p] == '\n')
}

/// The number of line breaks that end before position `n`.
pub open spec fn breaks_before(s: Seq<char>, n: int) -> nat
    decreases n,
{
    if n <= 0 {
        0
    } else {
        breaks_before(s, n - 1) + if starts_line(s, n) {
            1nat
        } else {
            0nat
        }
    }
}

/// The number of lines of `s`: one more than its line breaks.
pub open spec fn line_count(s: Seq<char>) -> nat {
    breaks_before(s, s.len() as int) + 1
}

/// The first position at or after `p` with at least `l` breaks before it
/// (or the end of `s`).
pub open spec fn start_search(s: Seq<char>, l: int, p: int) -> int
    decreases s.len() - p,
{
    if p >= s.len() {
        s.len() as int
    } else if breaks_before(s, p) >= l {
        p
    } else {
        start_search(s, l, p + 1)
    }
}

/// The position where line `l` starts; the end of `s` for `l` at or past
/// the line count.
pub open spec fn line_start(s: Seq<char>, l: int) -> int {
    start_search(s, l, 0)
}

/// Line `l` of `s` with its line break, for `l < line_count(s)`.
pub open spec fn line_chars(s: Seq<char>, l: int) -> Seq<char> {
    s.subrange(line_start(s, l), line_start(s, l + 1))
}

pub proof fn lemma_breaks_before_bounds(s: Seq<char>, n: int)
    requires
        0 <= n,
    ensures
        breaks_before(s, n) <= n,
    decreases n,
{
    if n > 0 {
        lemma_breaks_before_bounds(s, n - 1);
    }
}

pub proof fn lemma_breaks_before_mono(s: Seq<char>, m: int, n: int)
    requires
        m <= n,
    ensures
        breaks_before(s, m) <= breaks_before(s, n),
    decreases n - m,
{
    if m < n {
        lemma_breaks_before_mono(s, m, n - 1);
    }
}

proof fn lemma_start_search_bounds(s: Seq<char>, l: int, p: int)
    requires
        0 <= p <= s.len(),
    ensures
        p <= start_search(s, l, p) <= s.len(),
    decreases s.len() - p,
{
    if p < s.len() && breaks_before(s, p) < l {
        lemma_start_search_bounds(s, l, p + 1);
    }
}

proof fn lemma_start_search_before(s: Seq<char>, l: int, p: int, o: int)
    requires
        0 <= p <= o <= s.len(),
        breaks_before(s, o) >= l,
    ensures
        start_search(s, l, p) <= o,
    decreases o - p,
{
    if p < o && breaks_before(s, p) < l {
        lemma_start_search_before(s, l, p + 1, o);
    }
}

proof fn lemma_start_search_mono(s: Seq<char>, l1: int, l2: int, p: int)
    requires
        l1 <= l2,
        0 <= p <= s.len(),
    ensures
        start_search(s, l1, p) <= start_search(s, l2, p),
    decreases s.len() - p,
{
    if p < s.len() {
        if breaks_before(s, p) >= l2 {
        } else if breaks_before(s, p) >= l1 {
            lemma_start_search_bounds(s, l2, p + 1);
        } else {
            lemma_start_search_mono(s, l1, l2, p + 1);
        }
    }
}

/// Every line starts inside the text.
pub proof fn lemma_line_start_bounds(s: Seq<char>, l: int)
    ensures
        0 <= line_start(s, l) <= s.len(),
{
    lemma_start_search_bounds(s, l, 0);
}

/// Later lines start no earlier.
pub proof fn lemma_line_start_mono(s: Seq<char>, l1: int, l2: int)
    requires
        l1 <= l2,
    ensures
        line_start(s, l1) <= line_start(s, l2),
{
    lemma_start_search_mono(s, l1, l2, 0);
}

/// The line that holds position `o` starts at or before `o`.
pub proof fn lemma_line_start_before(s: Seq<char>, o: int)
    requires
        0 <= o <= s.len(),
    ensures
        line_start(s, breaks_before(s, o) as int) <= o,
{
    lemma_start_search_before(s, breaks_before(s, o) as int, 0, o);
}

/// A text has at least one line, and no more lines than characters plus one.
pub proof fn lemma_line_count_bounds(s: Seq<char>)
    ensures
        1 <= line_count(s) <= s.len() + 1,
{
    lemma_breaks_before_bounds(s, s.len() as int);
}

/// Position `o` lies on a line that exists.
pub proof fn lemma_breaks_before_below_count(s: Seq<char>, o: int)
    requires
        0 <= o <= s.len(),
    ensures
        breaks_before(s, o) < line_count(s),
{
    lemma_breaks_before_mono(s, o, s.len() as int);
}

/// An empty rope (`Rope::new`).
#[verifier::external_body]
pub(crate) fn rope_new() -> (r: Rope)
    ensures
        rope_chars(r) == Seq::<char>::empty(),
{
    Rope::new()
}

/// A rope holding the characters of `text` (`Rope::from_str`).
#[verifier::external_body]
pub(crate) fn rope_from_str(text: &str) -> (r: Rope)
    ensures
        rope_chars(r) == text@,
{
    Rope::from_str(text)
}

/// Inserts `text` at char index `at` (`Rope::insert`).
#[verifier::external_body]
pub(crate) fn rope_insert(r: &mut Rope, at: usize, text: &str)
    requires
        at <= rope_chars(*old(r)).len(),
    ensures
        rope_chars(*final(r)) == rope_chars(*old(r)).take(at as int) + text@ + rope_chars(
            *old(r),
        ).skip(at as int),
{
    r.insert(at, text)
}

/// Removes the chars in `start..end` (`Rope::remove`).
#[verifier::external_body]
pub(crate) fn rope_remove(r: &mut Rope, start: usize, end: usize)
    requires
        start <= end <= rope_chars(*old(r)).len(),
    ensures
        rope_chars(*final(r)) == rope_chars(*old(r)).take(start as int) + rope_chars(
            *old(r),
        ).skip(end as int),
{
    r.remove(start..end)
}

/// The number of chars (`Rope::len_chars`).
#[verifier::external_body]
pub(crate) fn rope_len_chars(r: &Rope) -> (n: usize)
    ensures
        n == rope_chars(*r).len(),
{
    r.len_chars()
}

/// The number of lines (`Rope::len_lines`).
#[verifier::external_body]
pub(crate) fn rope_len_lines(r: &Rope) -> (n: usize)
    ensures
        n == line_count(rope_chars(*r)),
{
    r.len_lines()
}

/// The char index where line `line` starts, the end for one past the last
/// line (`Rope::line_to_char`).
#[verifier::external_body]
pub(crate) fn rope_line_to_char(r: &Rope, line: usize) -> (c: usize)
    requires
        line <= line_count(rope_chars(*r)),
    ensures
        c == line_start(rope_chars(*r), line as int),
{
    r.line_to_char(line)
}

/// The number of line breaks before char index `at` (`Rope::char_to_line`).
#[verifier::external_body]
pub(crate) fn rope_char_to_line(r: &Rope, at: usize) -> (l: usize)
    requires
        at <= rope_chars(*r).len(),
    ensures
        l == breaks_before(rope_chars(*r), at as int),
{
    r.char_to_line(at)
}

/// The char at index `at` (`Rope::char`).
#[verifier::external_body]
pub(crate) fn rope_char(r: &Rope, at: usize) -> (c: char)
    requires
        at < rope_chars(*r).len(),
    ensures
        c == rope_chars(*r)[at as int],
{
    r.char(at)
}

/// Line `line` with its line break, as a string (`Rope::line`).
#[verifier::external_body]
pub(crate) fn rope_line(r: &Rope, line: usize) -> (s: String)
    requires
        line < line_count(rope_chars(*r)),
    ensures
        s@ == line_chars(rope_chars(*r), line as int),
{
    r.line(line).to_string()
}

/// The chars in `start..end`, as a string (`Rope::slice`).
#[verifier::external_body]
pub(crate) fn rope_slice(r: &Rope, start: usize, end: usize) -> (s: String)
    requires
        start <= end <= rope_chars(*r).len(),
    ensures
        s@ == rope_chars(*r).subrange(start as int, end as int),
{
    r.slice(start..end).to_string()
}

/// All the chars, as a string.
#[verifier::external_body]
pub(crate) fn rope_string(r: &Rope) -> (s: String)
    ensures
        s@ == rope_chars(*r),
{
    r.to_string()
}

} // verus!
