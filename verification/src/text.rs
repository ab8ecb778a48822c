//! Character-level helpers shared by the note and link modules.

use vstd::prelude::*;

verus! {

broadcast use vstd::string::group_string_axioms;

/// Unicode `White_Space` characters, as `char::is_whitespace` classifies them.
pub open spec fn is_ws(c: char) -> bool {
    let u = c as u32;
    ||| u == 0x20
    ||| (0x09 <= u && u <= 0x0D)
    ||| u == 0x85
    ||| u == 0xA0
    ||| u == 0x1680
    ||| (0x2000 <= u && u <= 0x200A)
    ||| u == 0x2028
    ||| u == 0x2029
    ||| u == 0x202F
    ||| u == 0x205F
    ||| u == 0x3000
}

/// Whether `c` is whitespace.
pub fn is_whitespace(c: char) -> (b: bool)
    ensures
        b == is_ws(c),
{
    let u = c as u32;
    u == 0x20 || (0x09 <= u && u <= 0x0D) || u == 0x85 || u == 0xA0 || u == 0x1680 || (0x2000
        <= u && u <= 0x200A) || u == 0x2028 || u == 0x2029 || u == 0x202F || u == 0x205F || u
        == 0x3000
}

/// The characters of `s`, in order.
pub fn chars_of(s: &str) -> (v: Vec<char>)
    ensures
        v@ == s@,
{
    let mut v: Vec<char> = Vec::new();
    for c in it: s.chars()
        invariant
            v@ == it.seq().take(it.index() as int),
    {
        v.push(c);
    }
    v
}

/// A string holding exactly the characters of `v`, in order (collecting the
/// characters into a `String`).
#[verifier::external_body]
pub(crate) fn string_from_chars(v: &[char]) -> (s: String)
    ensures
        s@ == v@,
{
    v.iter().collect()
}

/// Appends `c` to `s` (`String::push`).
#[verifier::external_body]
pub(crate) fn push_char(s: &mut String, c: char)
    ensures
        final(s)@ == old(s)@.push(c),
{
    s.push(c)
}

/// Removes and returns the last character of `s` (`String::pop`).
#[verifier::external_body]
pub(crate) fn pop_char(s: &mut String) -> (r: Option<char>)
    ensures
        old(s)@.len() == 0 ==> r is None && final(s)@ == old(s)@,
        old(s)@.len() > 0 ==> r == Some(old(s)@.last()) && final(s)@ == old(s)@.drop_last(),
{
    s.pop()
}

/// The index of the first non-whitespace character at or after `i`
/// (or `s.len()`).
pub open spec fn ws_prefix_end(s: Seq<char>, i: int) -> int
    decreases s.len() - i,
{
    if 0 <= i < s.len() && is_ws(s[i]) {
        ws_prefix_end(s, i + 1)
    } else {
        i
    }
}

/// The index just after the last non-whitespace character before `j`
/// (or 0).
pub open spec fn ws_suffix_start(s: Seq<char>, j: int) -> int
    decreases j,
{
    if 0 < j <= s.len() && is_ws(s[j - 1]) {
        ws_suffix_start(s, j - 1)
    } else {
        j
    }
}

/// `s` without leading whitespace (`str::trim_start`).
pub open spec fn trim_start(s: Seq<char>) -> Seq<char> {
    s.skip(ws_prefix_end(s, 0))
}

/// `s` without trailing whitespace (`str::trim_end`).
pub open spec fn trim_end(s: Seq<char>) -> Seq<char> {
    s.take(ws_suffix_start(s, s.len() as int))
}

/// `s` without leading and trailing whitespace (`str::trim`).
pub open spec fn trim(s: Seq<char>) -> Seq<char> {
    trim_end(trim_start(s))
}

/// Whether `p` occurs in `s` starting at index `i`.
pub open spec fn occurs_at(s: Seq<char>, p: Seq<char>, i: int) -> bool {
    0 <= i && i + p.len() <= s.len() && s.subrange(i, i + p.len()) == p
}

/// Whether `p` occurs anywhere in `s` (`str::contains`).
pub open spec fn contains_seq(s: Seq<char>, p: Seq<char>) -> bool {
    exists|i: int| occurs_at(s, p, i)
}

/// Whether `s` starts with `p` (`str::starts_with`).
pub open spec fn starts_with(s: Seq<char>, p: Seq<char>) -> bool {
    p.len() <= s.len() && s.take(p.len() as int) == p
}

pub(crate) proof fn lemma_ws_prefix_end_bounds(s: Seq<char>, i: int)
    requires
        0 <= i <= s.len(),
    ensures
        i <= ws_prefix_end(s, i) <= s.len(),
    decreases s.len() - i,
{
    if i < s.len() && is_ws(s[i]) {
        lemma_ws_prefix_end_bounds(s, i + 1);
    }
}

proof fn lemma_ws_suffix_start_bounds(s: Seq<char>, j: int)
    requires
        0 <= j <= s.len(),
    ensures
        0 <= ws_suffix_start(s, j) <= j,
    decreases j,
{
    if 0 < j && is_ws(s[j - 1]) {
        lemma_ws_suffix_start_bounds(s, j - 1);
    }
}

/// The characters `v[from..to]`.
pub fn sub_chars(v: &[char], from: usize, to: usize) -> (r: Vec<char>)
    requires
        from <= to <= v@.len(),
    ensures
        r@ == v@.subrange(from as int, to as int),
{
    let mut r: Vec<char> = Vec::new();
    let mut i = from;
    while i < to
        invariant
            from <= i <= to <= v@.len(),
            r@ == v@.subrange(from as int, i as int),
        decreases to - i,
    {
        r.push(v[i]);
        i = i + 1;
    }
    r
}

/// The first index at or after `i` that is not whitespace.
pub fn skip_ws_forward(v: &[char], i: usize) -> (r: usize)
    requires
        i <= v@.len(),
    ensures
        r == ws_prefix_end(v@, i as int),
        i <= r <= v@.len(),
{
    proof {
        lemma_ws_prefix_end_bounds(v@, i as int);
    }
    let mut k = i;
    while k < v.len() && is_whitespace(v[k])
        invariant
            i <= k <= v@.len(),
            ws_prefix_end(v@, k as int) == ws_prefix_end(v@, i as int),
        decreases v@.len() - k,
    {
        k = k + 1;
    }
    k
}

/// The index just after the last non-whitespace character before `j`.
pub fn skip_ws_backward(v: &[char], j: usize) -> (r: usize)
    requires
        j <= v@.len(),
    ensures
        r == ws_suffix_start(v@, j as int),
        r <= j,
{
    proof {
        lemma_ws_suffix_start_bounds(v@, j as int);
    }
    let mut k = j;
    while k > 0 && is_whitespace(v[k - 1])
        invariant
            k <= j <= v@.len(),
            ws_suffix_start(v@, k as int) == ws_suffix_start(v@, j as int),
        decreases k,
    {
        k = k - 1;
    }
    k
}

/// `v` without leading and trailing whitespace.
pub fn trim_chars(v: &[char]) -> (r: Vec<char>)
    ensures
        r@ == trim(v@),
{
    let a = skip_ws_forward(v, 0);
    let w = sub_chars(v, a, v.len());
    assert(w@ == trim_start(v@));
    let b = skip_ws_backward(w.as_slice(), w.len());
    sub_chars(w.as_slice(), 0, b)
}

/// Whether `v` and `w` hold the same characters.
pub fn chars_eq(v: &[char], w: &[char]) -> (b: bool)
    ensures
        b == (v@ == w@),
{
    if v.len() != w.len() {
        return false;
    }
    let mut i: usize = 0;
    while i < v.len()
        invariant
            v@.len() == w@.len(),
            i <= v@.len(),
            forall|k: int| 0 <= k < i ==> v@[k] == w@[k],
        decreases v@.len() - i,
    {
        if v[i] != w[i] {
            return false;
        }
        i = i + 1;
    }
    assert(v@ =~= w@);
    true
}

/// Whether `p` occurs in `v` at index `i`.
pub fn occurs_at_exec(v: &[char], p: &[char], i: usize) -> (b: bool)
    ensures
        b == occurs_at(v@, p@, i as int),
{
    if i > v.len() || p.len() > v.len() - i {
        return false;
    }
    let mut k: usize = 0;
    while k < p.len()
        invariant
            v.len() == v@.len(),
            i + p@.len() <= v@.len(),
            k <= p@.len(),
            forall|m: int| 0 <= m < k ==> v@[i + m] == p@[m],
        decreases p@.len() - k,
    {
        if v[i + k] != p[k] {
            assert(v@.subrange(i as int, i + p@.len())[k as int] != p@[k as int]);
            return false;
        }
        k = k + 1;
    }
    assert(v@.subrange(i as int, i + p@.len()) =~= p@);
    true
}

/// The first index at or after `from` where `p` occurs in `v`.
pub fn find_from(v: &[char], p: &[char], from: usize) -> (r: Option<usize>)
    ensures
        match r {
            Some(i) => from <= i && occurs_at(v@, p@, i as int) && forall|j: int|
                from <= j < i ==> !occurs_at(v@, p@, j),
            None => forall|j: int| from <= j ==> !occurs_at(v@, p@, j),
        },
{
    let mut i = from;
    while i <= v.len()
        invariant
            from <= i,
            forall|j: int| from <= j < i ==> !occurs_at(v@, p@, j),
        decreases v@.len() + 1 - i,
    {
        if occurs_at_exec(v, p, i) {
            return Some(i);
        }
        if i == v.len() {
            assert forall|j: int| from <= j implies !occurs_at(v@, p@, j) by {
                if j > v@.len() {
                }
            }
            return None;
        }
        i = i + 1;
    }
    None
}

/// Whether `p` occurs anywhere in `v`.
pub fn contains_chars(v: &[char], p: &[char]) -> (b: bool)
    ensures
        b == contains_seq(v@, p@),
{
    match find_from(v, p, 0) {
        Some(_) => true,
        None => {
            assert(forall|j: int| 0 <= j ==> !occurs_at(v@, p@, j));
            false
        },
    }
}

/// Whether `v` starts with `p`.
pub fn starts_with_chars(v: &[char], p: &[char]) -> (b: bool)
    ensures
        b == starts_with(v@, p@),
{
    let r = occurs_at_exec(v, p, 0);
    proof {
        if r {
            assert(v@.subrange(0, p@.len() as int) == v@.take(p@.len() as int));
        } else if p@.len() <= v@.len() {
            assert(v@.subrange(0, p@.len() as int) == v@.take(p@.len() as int));
        }
    }
    r
}

/// The number of bytes in the UTF-8 encoding of `c`.
pub open spec fn utf8_width(c: char) -> nat {
    let u = c as u32;
    if u <= 0x7F {
        1
    } else if u <= 0x7FF {
        2
    } else if u <= 0xFFFF {
        3
    } else {
        4
    }
}

/// The number of bytes in the UTF-8 encoding of `s`.
pub open spec fn utf8_len(s: Seq<char>) -> nat
    decreases s.len(),
{
    if s.len() == 0 {
        0
    } else {
        utf8_width(s[0]) + utf8_len(s.drop_first())
    }
}

/// Byte offset `b` of the UTF-8 encoding of `s` falls between two characters.
pub open spec fn char_boundary(s: Seq<char>, b: int) -> bool {
    exists|k: int| 0 <= k <= s.len() && utf8_len(s.take(k)) == b
}

pub proof fn lemma_utf8_len_concat(a: Seq<char>, b: Seq<char>)
    ensures
        utf8_len(a + b) == utf8_len(a) + utf8_len(b),
    decreases a.len(),
{
    if a.len() == 0 {
        assert(a + b =~= b);
    } else {
        assert((a + b).drop_first() =~= a.drop_first() + b);
        lemma_utf8_len_concat(a.drop_first(), b);
    }
}

pub proof fn lemma_utf8_len_take_step(s: Seq<char>, i: int)
    requires
        0 <= i < s.len(),
    ensures
        utf8_len(s.take(i + 1)) == utf8_len(s.take(i)) + utf8_width(s[i]),
{
    assert(s.take(i + 1) =~= s.take(i) + seq![s[i]]);
    lemma_utf8_len_concat(s.take(i), seq![s[i]]);
    assert(seq![s[i]].drop_first() =~= Seq::<char>::empty());
    assert(utf8_len(seq![s[i]]) == utf8_width(s[i]) + utf8_len(seq![s[i]].drop_first()));
}

pub proof fn lemma_utf8_len_take_mono(s: Seq<char>, i: int, j: int)
    requires
        0 <= i <= j <= s.len(),
    ensures
        utf8_len(s.take(i)) <= utf8_len(s.take(j)),
{
    assert(s.take(j) =~= s.take(i) + s.subrange(i, j));
    lemma_utf8_len_concat(s.take(i), s.subrange(i, j));
}

pub proof fn lemma_utf8_len_encode(s: Seq<char>)
    ensures
        utf8_len(s) == vstd::utf8::encode_utf8(s).len(),
    decreases s.len(),
{
    if s.len() > 0 {
        vstd::utf8::char_is_scalar(s[0]);
        lemma_utf8_len_encode(s.drop_first());
    }
}

/// The byte length of the UTF-8 encoding of `c`.
pub fn char_width(c: char) -> (w: usize)
    ensures
        w == utf8_width(c),
{
    let u = c as u32;
    if u <= 0x7F {
        1
    } else if u <= 0x7FF {
        2
    } else if u <= 0xFFFF {
        3
    } else {
        4
    }
}

/// The byte length of `s`, which is the UTF-8 length of its characters.
pub fn byte_len(s: &str) -> (n: usize)
    ensures
        n == utf8_len(s@),
{
    proof {
        lemma_utf8_len_encode(s@);
    }
    let b = s.as_bytes();
    b.len()
}

pub proof fn lemma_utf8_len_take_strict(s: Seq<char>, i: int, j: int)
    requires
        0 <= i < j <= s.len(),
    ensures
        utf8_len(s.take(i)) < utf8_len(s.take(j)),
{
    lemma_utf8_len_take_step(s, i);
    lemma_utf8_len_take_mono(s, i + 1, j);
}

/// Names what `str::to_lowercase` returns for a string: its full Unicode
/// lowercase mapping, which depends on the characters alone.
pub uninterp spec fn lowercase(s: Seq<char>) -> Seq<char>;

/// `str::to_lowercase`: the result is named [`lowercase`] of the input.
#[verifier::external_body]
pub(crate) fn to_lowercase(s: &str) -> (r: String)
    ensures
        r@ == lowercase(s@),
{
    s.to_lowercase()
}

/// Strict lexicographic order of character sequences by code point, which
/// is the order `String`'s `Ord` gives (UTF-8 preserves code point order).
pub open spec fn seq_lt(a: Seq<char>, b: Seq<char>) -> bool
    decreases a.len(),
{
    if a.len() == 0 {
        b.len() > 0
    } else if b.len() == 0 {
        false
    } else if a[0] == b[0] {
        seq_lt(a.drop_first(), b.drop_first())
    } else {
        (a[0] as u32) < (b[0] as u32)
    }
}

pub proof fn lemma_seq_lt_irrefl(a: Seq<char>)
    ensures
        !seq_lt(a, a),
    decreases a.len(),
{
    if a.len() > 0 {
        lemma_seq_lt_irrefl(a.drop_first());
    }
}

pub proof fn lemma_seq_lt_total(a: Seq<char>, b: Seq<char>)
    ensures
        seq_lt(a, b) || seq_lt(b, a) || a == b,
    decreases a.len(),
{
    if a.len() > 0 && b.len() > 0 {
        if a[0] == b[0] {
            lemma_seq_lt_total(a.drop_first(), b.drop_first());
            if a.drop_first() == b.drop_first() {
                assert(a =~= seq![a[0]] + a.drop_first());
                assert(b =~= seq![b[0]] + b.drop_first());
            }
        } else {
            vstd::utf8::char_u32_cast(a[0], a[0] as u32);
            vstd::utf8::char_u32_cast(b[0], b[0] as u32);
        }
    } else if a.len() == 0 && b.len() == 0 {
        assert(a =~= b);
    }
}

pub proof fn lemma_seq_lt_asym(a: Seq<char>, b: Seq<char>)
    requires
        seq_lt(a, b),
    ensures
        !seq_lt(b, a),
    decreases a.len(),
{
    if a.len() > 0 && b.len() > 0 && a[0] == b[0] {
        lemma_seq_lt_asym(a.drop_first(), b.drop_first());
    }
}

pub proof fn lemma_seq_lt_trans(a: Seq<char>, b: Seq<char>, c: Seq<char>)
    requires
        seq_lt(a, b),
        seq_lt(b, c),
    ensures
        seq_lt(a, c),
    decreases a.len(),
{
    if a.len() > 0 && b.len() > 0 && c.len() > 0 {
        if a[0] == b[0] && b[0] == c[0] {
            lemma_seq_lt_trans(a.drop_first(), b.drop_first(), c.drop_first());
        }
    }
}

/// Whether `a` orders strictly before `b`.
pub fn chars_lt(a: &[char], b: &[char]) -> (r: bool)
    ensures
        r == seq_lt(a@, b@),
{
    let mut i: usize = 0;
    assert(a@.skip(0) =~= a@);
    assert(b@.skip(0) =~= b@);
    while i < a.len() && i < b.len() && a[i] == b[i]
        invariant
            i <= a@.len(),
            i <= b@.len(),
            a@.take(i as int) == b@.take(i as int),
            seq_lt(a@, b@) == seq_lt(a@.skip(i as int), b@.skip(i as int)),
        decreases a@.len() - i,
    {
        proof {
            let x = a@.skip(i as int);
            let y = b@.skip(i as int);
            assert(x.drop_first() =~= a@.skip(i + 1));
            assert(y.drop_first() =~= b@.skip(i + 1));
            assert(a@.take(i + 1) =~= a@.take(i as int).push(a@[i as int]));
            assert(b@.take(i + 1) =~= b@.take(i as int).push(b@[i as int]));
        }
        i = i + 1;
    }
    if i == a.len() {
        i < b.len()
    } else if i == b.len() {
        false
    } else {
        (a[i] as u32) < (b[i] as u32)
    }
}

/// Whether `a` orders strictly before `b` (as `String`'s `Ord` does).
pub fn string_lt(a: &String, b: &String) -> (r: bool)
    ensures
        r == seq_lt(a@, b@),
{
    let x = chars_of(a.as_str());
    let y = chars_of(b.as_str());
    chars_lt(x.as_slice(), y.as_slice())
}

/// The index of the first `c` at or after `i`, or `s.len()`.
pub open spec fn char_index(s: Seq<char>, c: char, i: int) -> int
    decreases s.len() - i,
{
    if 0 <= i < s.len() && s[i] != c {
        char_index(s, c, i + 1)
    } else {
        i
    }
}

/// The pieces of `s[i..]` between occurrences of `c` (`str::split(c)`).
pub open spec fn split_from(s: Seq<char>, c: char, i: int) -> Seq<Seq<char>>
    decreases s.len() - i,
{
    let k = char_index(s, c, i);
    if 0 <= i <= k < s.len() {
        seq![s.subrange(i, k)] + split_from(s, c, k + 1)
    } else {
        seq![s.subrange(i, s.len() as int)]
    }
}

/// `str::split(c)` on `s`.
pub open spec fn split_on(s: Seq<char>, c: char) -> Seq<Seq<char>> {
    split_from(s, c, 0)
}

pub proof fn lemma_char_index_bounds(s: Seq<char>, c: char, i: int)
    requires
        0 <= i <= s.len(),
    ensures
        i <= char_index(s, c, i) <= s.len(),
        char_index(s, c, i) < s.len() ==> s[char_index(s, c, i)] == c,
    decreases s.len() - i,
{
    if i < s.len() && s[i] != c {
        lemma_char_index_bounds(s, c, i + 1);
    }
}

/// The index of the first `c` at or after `i` in `v`, or `v.len()`.
pub fn char_index_exec(v: &[char], c: char, i: usize) -> (r: usize)
    requires
        i <= v@.len(),
    ensures
        r == char_index(v@, c, i as int),
        i <= r <= v@.len(),
{
    proof {
        lemma_char_index_bounds(v@, c, i as int);
    }
    let mut k = i;
    while k < v.len() && v[k] != c
        invariant
            i <= k <= v@.len(),
            char_index(v@, c, k as int) == char_index(v@, c, i as int),
        decreases v@.len() - k,
    {
        k = k + 1;
    }
    k
}

/// The views of a list of character vectors.
pub open spec fn pieces_view(v: Seq<Vec<char>>) -> Seq<Seq<char>> {
    v.map_values(|w: Vec<char>| w@)
}

/// `v` split at every `c`.
pub fn split_chars(v: &[char], c: char) -> (r: Vec<Vec<char>>)
    ensures
        pieces_view(r@) == split_on(v@, c),
{
    let mut r: Vec<Vec<char>> = Vec::new();
    let mut i: usize = 0;
    loop
        invariant
            i <= v@.len(),
            split_on(v@, c) == pieces_view(r@) + split_from(v@, c, i as int),
        decreases v@.len() - i,
    {
        let k = char_index_exec(v, c, i);
        let piece = sub_chars(v, i, k);
        let ghost before = pieces_view(r@);
        r.push(piece);
        assert(pieces_view(r@) =~= before.push(piece@));
        if k == v.len() {
            assert(split_from(v@, c, i as int) == seq![v@.subrange(i as int, v@.len() as int)]);
            assert(split_on(v@, c) =~= pieces_view(r@));
            return r;
        }
        assert(split_from(v@, c, i as int) == seq![v@.subrange(i as int, k as int)] + split_from(
            v@,
            c,
            k + 1,
        ));
        assert(before + split_from(v@, c, i as int) =~= pieces_view(r@) + split_from(
            v@,
            c,
            k + 1,
        ));
        i = k + 1;
    }
}

/// The first index at or after `i` where `p` occurs in `s`.
pub open spec fn first_occ_from(s: Seq<char>, p: Seq<char>, i: int) -> Option<int>
    decreases s.len() + 1 - i,
{
    if i < 0 || i > s.len() {
        None
    } else if occurs_at(s, p, i) {
        Some(i)
    } else {
        first_occ_from(s, p, i + 1)
    }
}

/// A first occurrence from `i` on is an occurrence, at or after `i`.
pub(crate) proof fn lemma_first_occ_from_found(s: Seq<char>, p: Seq<char>, i: int)
    ensures
        first_occ_from(s, p, i) matches Some(k) ==> i <= k && occurs_at(s, p, k),
    decreases s.len() + 1 - i,
{
    if !(i < 0 || i > s.len()) && !occurs_at(s, p, i) {
        lemma_first_occ_from_found(s, p, i + 1);
    }
}

/// An occurrence at `k` with none from `i` up to it is the first from `i`.
pub(crate) proof fn lemma_first_occ_from_at(s: Seq<char>, p: Seq<char>, i: int, k: int)
    requires
        0 <= i <= k,
        occurs_at(s, p, k),
        forall|j: int| i <= j < k ==> !occurs_at(s, p, j),
    ensures
        first_occ_from(s, p, i) == Some(k),
    decreases k - i,
{
    if i < k {
        lemma_first_occ_from_at(s, p, i + 1, k);
    }
}

/// With no `c` in `s[i..]`, the next `c` from `i` is at the end.
pub(crate) proof fn lemma_char_index_none(s: Seq<char>, c: char, i: int)
    requires
        0 <= i <= s.len(),
        forall|k: int| i <= k < s.len() ==> s[k] != c,
    ensures
        char_index(s, c, i) == s.len(),
    decreases s.len() - i,
{
    if i < s.len() {
        lemma_char_index_none(s, c, i + 1);
    }
}

/// The next `c` from `i` is at `k` when `s[k]` is `c` and none comes
/// before it.
pub(crate) proof fn lemma_char_index_at(s: Seq<char>, c: char, i: int, k: int)
    requires
        0 <= i <= k < s.len(),
        s[k] == c,
        forall|j: int| i <= j < k ==> s[j] != c,
    ensures
        char_index(s, c, i) == k,
    decreases k - i,
{
    if i < k {
        lemma_char_index_at(s, c, i + 1, k);
    }
}

/// Stripping `c` from both ends leaves a string without `c` as it is.
pub(crate) proof fn lemma_strip_char_none(x: Seq<char>, c: char)
    requires
        forall|k: int| 0 <= k < x.len() ==> x[k] != c,
    ensures
        strip_char(x, c) == x,
{
    if x.len() > 0 {
        assert(lead_char_end(x, c, 0) == 0);
        assert(trail_char_start(x, c, x.len() as int) == x.len());
        assert(x.subrange(0, x.len() as int) =~= x);
    } else {
        assert(strip_char(x, c) =~= x);
    }
}

/// Stripping `c` from `c`, then `x`, then `c` gives `x`, when `x` holds no
/// `c`.
pub(crate) proof fn lemma_strip_char_wrapped(x: Seq<char>, c: char)
    requires
        forall|k: int| 0 <= k < x.len() ==> x[k] != c,
    ensures
        strip_char(seq![c] + x + seq![c], c) == x,
{
    let u = seq![c] + x + seq![c];
    let n = u.len() as int;
    if x.len() > 0 {
        assert(u[1] == x[0]);
        assert(lead_char_end(u, c, 1) == 1);
        assert(lead_char_end(u, c, 0) == 1);
        assert(u[n - 2] == x[x.len() - 1]);
        assert(trail_char_start(u, c, n - 1) == n - 1);
        assert(trail_char_start(u, c, n) == n - 1);
        assert(u.subrange(1, n - 1) =~= x);
    } else {
        assert(lead_char_end(u, c, 2) == 2);
        assert(lead_char_end(u, c, 1) == 2);
        assert(lead_char_end(u, c, 0) == 2);
        assert(trail_char_start(u, c, 0) == 0);
        assert(trail_char_start(u, c, 1) == 0);
        assert(trail_char_start(u, c, 2) == 0);
        assert(strip_char(u, c) =~= x);
    }
}

/// A first occurrence is an occurrence.
pub(crate) proof fn lemma_first_occ_found(s: Seq<char>, p: Seq<char>)
    ensures
        first_occ(s, p) matches Some(k) ==> 0 <= k && occurs_at(s, p, k),
{
    lemma_first_occ_from_found(s, p, 0);
}

/// The first occurrence of `p` in `s` (`str::find`).
pub open spec fn first_occ(s: Seq<char>, p: Seq<char>) -> Option<int> {
    first_occ_from(s, p, 0)
}

/// The first index where `p` occurs in `v`.
pub fn find_first(v: &[char], p: &[char]) -> (r: Option<usize>)
    ensures
        match r {
            Some(i) => first_occ(v@, p@) == Some(i as int) && occurs_at(v@, p@, i as int),
            None => first_occ(v@, p@) == None::<int>,
        },
{
    let mut i: usize = 0;
    while i <= v.len()
        invariant
            i <= v@.len() + 1,
            first_occ_from(v@, p@, i as int) == first_occ(v@, p@),
        decreases v@.len() + 1 - i,
    {
        if occurs_at_exec(v, p, i) {
            return Some(i);
        }
        if i == v.len() {
            assert(first_occ_from(v@, p@, i + 1) == None::<int>);
            return None;
        }
        i = i + 1;
    }
    None
}

/// `s` without leading and trailing `c` (`str::trim_matches(c)`).
pub open spec fn strip_char(s: Seq<char>, c: char) -> Seq<char> {
    let a = lead_char_end(s, c, 0);
    let b = trail_char_start(s, c, s.len() as int);
    if a < b {
        s.subrange(a, b)
    } else {
        Seq::empty()
    }
}

pub open spec fn lead_char_end(s: Seq<char>, c: char, i: int) -> int
    decreases s.len() - i,
{
    if 0 <= i < s.len() && s[i] == c {
        lead_char_end(s, c, i + 1)
    } else {
        i
    }
}

pub open spec fn trail_char_start(s: Seq<char>, c: char, j: int) -> int
    decreases j,
{
    if 0 < j <= s.len() && s[j - 1] == c {
        trail_char_start(s, c, j - 1)
    } else {
        j
    }
}

/// `s` without its trailing `c`s (`str::trim_end_matches(c)`).
pub open spec fn trim_end_char(s: Seq<char>, c: char) -> Seq<char> {
    s.subrange(0, trail_char_start(s, c, s.len() as int))
}

pub proof fn lemma_trail_char_start_bounds(s: Seq<char>, c: char, j: int)
    requires
        0 <= j <= s.len(),
    ensures
        0 <= trail_char_start(s, c, j) <= j,
    decreases j,
{
    if 0 < j && s[j - 1] == c {
        lemma_trail_char_start_bounds(s, c, j - 1);
    }
}

/// `v` without its trailing `c`s.
pub fn trim_end_char_exec(v: &[char], c: char) -> (r: Vec<char>)
    ensures
        r@ == trim_end_char(v@, c),
        r@.len() <= v@.len(),
{
    proof {
        lemma_trail_char_start_bounds(v@, c, v@.len() as int);
    }
    let mut b: usize = v.len();
    while b > 0 && v[b - 1] == c
        invariant
            b <= v@.len(),
            trail_char_start(v@, c, b as int) == trail_char_start(v@, c, v@.len() as int),
        decreases b,
    {
        b = b - 1;
    }
    sub_chars(v, 0, b)
}

/// `v` without leading and trailing `c`.
pub fn strip_char_exec(v: &[char], c: char) -> (r: Vec<char>)
    ensures
        r@ == strip_char(v@, c),
{
    let mut a: usize = 0;
    while a < v.len() && v[a] == c
        invariant
            a <= v@.len(),
            lead_char_end(v@, c, a as int) == lead_char_end(v@, c, 0),
        decreases v@.len() - a,
    {
        a = a + 1;
    }
    let mut b: usize = v.len();
    while b > 0 && v[b - 1] == c
        invariant
            b <= v@.len(),
            trail_char_start(v@, c, b as int) == trail_char_start(v@, c, v@.len() as int),
        decreases b,
    {
        b = b - 1;
    }
    if a < b {
        sub_chars(v, a, b)
    } else {
        Vec::new()
    }
}

/// ASCII punctuation (`char::is_ascii_punctuation`).
pub open spec fn is_ascii_punct(c: char) -> bool {
    let u = c as u32;
    (0x21 <= u && u <= 0x2F) || (0x3A <= u && u <= 0x40) || (0x5B <= u && u <= 0x60) || (0x7B
        <= u && u <= 0x7E)
}

/// Whether `c` is ASCII punctuation.
pub fn is_ascii_punctuation(c: char) -> (b: bool)
    ensures
        b == is_ascii_punct(c),
{
    let u = c as u32;
    (0x21 <= u && u <= 0x2F) || (0x3A <= u && u <= 0x40) || (0x5B <= u && u <= 0x60) || (0x7B
        <= u && u <= 0x7E)
}

/// The words of `s` from index `i` on: maximal runs of non-whitespace
/// characters (`str::split_whitespace`).
pub open spec fn words_from(s: Seq<char>, i: int) -> Seq<Seq<char>>
    decreases s.len() - i,
{
    let j = ws_prefix_end(s, i);
    let k = word_end(s, j);
    if 0 <= i <= j < k <= s.len() {
        seq![s.subrange(j, k)] + words_from(s, k)
    } else {
        Seq::empty()
    }
}

/// The end of the run of non-whitespace characters starting at `i`.
pub open spec fn word_end(s: Seq<char>, i: int) -> int
    decreases s.len() - i,
{
    if 0 <= i < s.len() && !is_ws(s[i]) {
        word_end(s, i + 1)
    } else {
        i
    }
}

pub proof fn lemma_word_end_bounds(s: Seq<char>, i: int)
    requires
        0 <= i <= s.len(),
    ensures
        i <= word_end(s, i) <= s.len(),
    decreases s.len() - i,
{
    if i < s.len() && !is_ws(s[i]) {
        lemma_word_end_bounds(s, i + 1);
    }
}

/// The words of `v`.
pub fn split_words(v: &[char]) -> (r: Vec<Vec<char>>)
    ensures
        pieces_view(r@) == words_from(v@, 0),
{
    let mut r: Vec<Vec<char>> = Vec::new();
    let mut i: usize = 0;
    loop
        invariant
            i <= v@.len(),
            words_from(v@, 0) == pieces_view(r@) + words_from(v@, i as int),
        decreases v@.len() - i,
    {
        let j = skip_ws_forward(v, i);
        let mut k = j;
        proof {
            lemma_word_end_bounds(v@, j as int);
        }
        while k < v.len() && !is_whitespace(v[k])
            invariant
                j <= k <= v@.len(),
                word_end(v@, k as int) == word_end(v@, j as int),
            decreases v@.len() - k,
        {
            k = k + 1;
        }
        if k == j {
            assert(words_from(v@, i as int) =~= Seq::<Seq<char>>::empty());
            assert(words_from(v@, 0) =~= pieces_view(r@));
            return r;
        }
        let w = sub_chars(v, j, k);
        let ghost before = pieces_view(r@);
        r.push(w);
        assert(pieces_view(r@) =~= before.push(w@));
        assert(before + words_from(v@, i as int) =~= pieces_view(r@) + words_from(v@, k as int));
        i = k;
    }
}

} // verus!
