//! Notes: metadata extracted from markdown content.
//!
//! Notes are markdown files in a vault directory. Their title, tags and
//! aliases come from YAML front matter or from the content itself. Reading
//! and writing the files is the application's part; this module holds what
//! is computed from their contents and listings.

use vstd::prelude::*;
use vstd::string::{StrSliceExecFns, StringExecFns};
use crate::links::TitleMap;
use crate::text::{
    chars_of, find_first, is_ascii_punct, is_ascii_punctuation, lowercase, pieces_view,
    split_chars, split_on, split_words, starts_with, starts_with_chars, string_from_chars,
    strip_char, strip_char_exec, sub_chars, to_lowercase, trim, trim_chars, trim_start,
    skip_ws_forward, words_from, ws_prefix_end, first_occ, occurs_at, contains_chars,
    contains_seq, split_from, ws_suffix_start, is_ws,
};

verus! {

broadcast use vstd::seq_lib::group_seq_properties;

/// Errors from note storage operations.
#[derive(Debug)]
pub enum NoteError {
    /// An I/O error, by its message.
    Io(String),
    /// No note has this id.
    NotFound(String),
}

/// Lightweight note metadata for listings.
#[derive(Debug, Clone)]
pub struct NoteMeta {
    /// Note identifier (relative path without the `.md` extension).
    pub id: String,
    /// Display title.
    pub title: String,
    /// Last modification time, in nanoseconds since the Unix epoch.
    pub modified: u128,
    /// Tags from front matter and inline `#tags`.
    pub tags: Vec<String>,
    /// Aliases from front matter.
    pub aliases: Vec<String>,
}

/// A full note with content.
#[derive(Debug, Clone)]
pub struct Note {
    pub meta: NoteMeta,
    /// Full markdown content including front matter.
    pub content: String,
}

/// YAML front matter fields.
#[derive(Debug, Clone, Default)]
pub struct FrontMatter {
    pub title: Option<String>,
    pub tags: Vec<String>,
    pub aliases: Vec<String>,
}

/// The views of a list of strings.
pub open spec fn strs(v: Seq<String>) -> Seq<Seq<char>> {
    v.map_values(|s: String| s@)
}

/// The abstract front matter.
#[verifier::ext_equal]
pub struct FrontMatterView {
    pub title: Option<Seq<char>>,
    pub tags: Seq<Seq<char>>,
    pub aliases: Seq<Seq<char>>,
}

impl View for FrontMatter {
    type V = FrontMatterView;

    open spec fn view(&self) -> FrontMatterView {
        FrontMatterView {
            title: match self.title {
                Some(t) => Some(t@),
                None => None,
            },
            tags: strs(self.tags@),
            aliases: strs(self.aliases@),
        }
    }
}

pub open spec fn empty_front_matter() -> FrontMatterView {
    FrontMatterView { title: None, tags: Seq::empty(), aliases: Seq::empty() }
}

// ---------------------------------------------------------------------
// Front matter grammar
// ---------------------------------------------------------------------

/// The opening and closing fence.
pub open spec fn fence() -> Seq<char> {
    "---"@
}

/// A newline followed by a fence: where the front matter block ends.
pub open spec fn closing_fence() -> Seq<char> {
    "\n---"@
}

/// The marker of a level-one heading line.
pub open spec fn heading_marker() -> Seq<char> {
    "# "@
}

/// A list item: trimmed, and inside brackets also unquoted.
pub open spec fn clean_item(item: Seq<char>, bracketed: bool) -> Seq<char> {
    if bracketed {
        strip_char(strip_char(trim(item), '"'), '\'')
    } else {
        trim(item)
    }
}

/// The non-empty cleaned items of `parts[i..]`.
pub open spec fn items_from(parts: Seq<Seq<char>>, i: int, bracketed: bool) -> Seq<Seq<char>>
    decreases parts.len() - i,
{
    if 0 <= i < parts.len() {
        let x = clean_item(parts[i], bracketed);
        if x.len() > 0 {
            seq![x] + items_from(parts, i + 1, bracketed)
        } else {
            items_from(parts, i + 1, bracketed)
        }
    } else {
        Seq::empty()
    }
}

/// Whether a trimmed list is written in brackets, `[a, b]`.
pub open spec fn is_bracketed(t: Seq<char>) -> bool {
    t.len() > 0 && t[0] == '[' && t[t.len() - 1] == ']'
}

/// A simple YAML inline list, `[a, b, c]`, or bare comma-separated values.
pub open spec fn yaml_list(s: Seq<char>) -> Seq<Seq<char>> {
    let t = trim(s);
    if is_bracketed(t) {
        items_from(split_on(t.subrange(1, t.len() - 1), ','), 0, true)
    } else {
        items_from(split_on(t, ','), 0, false)
    }
}

/// The value of a `title:` line, trimmed and unquoted.
pub open spec fn title_value(rest: Seq<char>) -> Seq<char> {
    strip_char(strip_char(trim(rest), '"'), '\'')
}

/// The front matter after reading one more line of the block.
pub open spec fn apply_line(fm: FrontMatterView, raw: Seq<char>) -> FrontMatterView {
    let line = trim(raw);
    if starts_with(line, "title:"@) {
        FrontMatterView { title: Some(title_value(line.skip(("title:"@).len() as int))), ..fm }
    } else if starts_with(line, "tags:"@) {
        FrontMatterView { tags: yaml_list(line.skip(("tags:"@).len() as int)), ..fm }
    } else if starts_with(line, "aliases:"@) {
        FrontMatterView { aliases: yaml_list(line.skip(("aliases:"@).len() as int)), ..fm }
    } else {
        fm
    }
}

/// The front matter read from `lines[i..]`, starting from `fm`.
pub open spec fn read_lines(lines: Seq<Seq<char>>, i: int, fm: FrontMatterView) -> FrontMatterView
    decreases lines.len() - i,
{
    if 0 <= i < lines.len() {
        read_lines(lines, i + 1, apply_line(fm, lines[i]))
    } else {
        fm
    }
}

/// The YAML block of `content`: what lies between an opening `---` (after
/// leading whitespace) and the next newline-and-`---`.
pub open spec fn yaml_block(content: Seq<char>) -> Option<Seq<char>> {
    let t = trim_start(content);
    if starts_with(t, fence()) {
        let a = t.skip(fence().len() as int);
        match first_occ(a, closing_fence()) {
            Some(k) => Some(a.take(k)),
            None => None,
        }
    } else {
        None
    }
}

/// The front matter of `content`.
pub open spec fn front_matter_of(content: Seq<char>) -> FrontMatterView {
    match yaml_block(content) {
        Some(y) => read_lines(split_on(y, '\n'), 0, empty_front_matter()),
        None => empty_front_matter(),
    }
}

/// Where the body of `content` starts: after the closing fence and one
/// newline, or 0 when there is no front matter block.
pub open spec fn body_start(content: Seq<char>) -> int {
    let lead = ws_prefix_end(content, 0);
    let t = trim_start(content);
    if starts_with(t, fence()) {
        let a = t.skip(fence().len() as int);
        match first_occ(a, closing_fence()) {
            Some(k) => {
                let close_end = lead + fence().len() + k + closing_fence().len();
                if close_end < content.len() && content[close_end] == '\n' {
                    close_end + 1
                } else {
                    close_end
                }
            },
            None => 0,
        }
    } else {
        0
    }
}

/// The body of `content`, without its front matter block.
pub open spec fn body_of(content: Seq<char>) -> Seq<char> {
    content.skip(body_start(content))
}

/// A run of string literal patterns used by the parser.
struct Patterns {
    fence: Vec<char>,
    closing: Vec<char>,
    title: Vec<char>,
    tags: Vec<char>,
    aliases: Vec<char>,
    heading: Vec<char>,
}

spec fn patterns_ok(p: &Patterns) -> bool {
    &&& p.fence@ == fence()
    &&& p.closing@ == closing_fence()
    &&& p.title@ == "title:"@
    &&& p.tags@ == "tags:"@
    &&& p.aliases@ == "aliases:"@
    &&& p.heading@ == heading_marker()
}

fn patterns() -> (p: Patterns)
    ensures
        patterns_ok(&p),
{
    Patterns {
        fence: chars_of("---"),
        closing: chars_of("\n---"),
        title: chars_of("title:"),
        tags: chars_of("tags:"),
        aliases: chars_of("aliases:"),
        heading: chars_of("# "),
    }
}

/// The start of the body and, if there is a front matter block, the YAML
/// block's range.
fn locate_front_matter(v: &[char], p: &Patterns) -> (r: (usize, Option<(usize, usize)>))
    requires
        patterns_ok(p),
    ensures
        r.0 == body_start(v@),
        r.0 <= v@.len(),
        match r.1 {
            Some((a, b)) => a <= b <= v@.len() && yaml_block(v@) == Some(v@.subrange(
                a as int,
                b as int,
            )),
            None => yaml_block(v@) == None::<Seq<char>>,
        },
{
    let lead = skip_ws_forward(v, 0);
    let t = sub_chars(v, lead, v.len());
    assert(t@ =~= trim_start(v@));
    if !starts_with_chars(t.as_slice(), p.fence.as_slice()) {
        return (0, None);
    }
    let a = sub_chars(t.as_slice(), p.fence.len(), t.len());
    assert(a@ =~= t@.skip(fence().len() as int));
    match find_first(a.as_slice(), p.closing.as_slice()) {
        None => (0, None),
        Some(k) => {
            let start = lead + p.fence.len();
            assert(a@.take(k as int) =~= v@.subrange(start as int, start + k));
            let close_end = start + k + p.closing.len();
            let body = if close_end < v.len() && v[close_end] == '\n' {
                close_end + 1
            } else {
                close_end
            };
            (body, Some((start, start + k)))
        },
    }
}

/// Strip the YAML front matter block from content, returning the body.
pub fn strip_front_matter(content: &str) -> (body: &str)
    ensures
        body@ == body_of(content@),
{
    let v = chars_of(content);
    let p = patterns();
    let (start, _) = locate_front_matter(v.as_slice(), &p);
    let n = v.len();
    content.substring_char(start, n)
}

/// The non-empty cleaned items of `parts`.
fn items(parts: &Vec<Vec<char>>, bracketed: bool) -> (r: Vec<String>)
    ensures
        strs(r@) == items_from(pieces_view(parts@), 0, bracketed),
{
    let ghost ps = pieces_view(parts@);
    let mut r: Vec<String> = Vec::new();
    let mut i: usize = 0;
    while i < parts.len()
        invariant
            ps == pieces_view(parts@),
            i <= parts@.len(),
            items_from(ps, 0, bracketed) == strs(r@) + items_from(ps, i as int, bracketed),
        decreases parts@.len() - i,
    {
        let t = trim_chars(parts[i].as_slice());
        let x = if bracketed {
            let u = strip_char_exec(t.as_slice(), '"');
            strip_char_exec(u.as_slice(), '\'')
        } else {
            t
        };
        assert(x@ == clean_item(ps[i as int], bracketed));
        let ghost before = strs(r@);
        if x.len() > 0 {
            r.push(string_from_chars(x.as_slice()));
            assert(strs(r@) =~= before.push(x@));
            assert(before + items_from(ps, i as int, bracketed) =~= strs(r@) + items_from(
                ps,
                i + 1,
                bracketed,
            ));
        }
        i = i + 1;
    }
    assert(items_from(ps, i as int, bracketed) =~= Seq::<Seq<char>>::empty());
    assert(strs(r@) + Seq::<Seq<char>>::empty() =~= strs(r@));
    r
}

/// Parse a simple YAML inline list like `[a, b, c]`, or bare values.
fn parse_yaml_list(s: &[char]) -> (r: Vec<String>)
    ensures
        strs(r@) == yaml_list(s@),
{
    let t = trim_chars(s);
    if t.len() > 0 && t[0] == '[' && t[t.len() - 1] == ']' {
        let inner = sub_chars(t.as_slice(), 1, t.len() - 1);
        let parts = split_chars(inner.as_slice(), ',');
        items(&parts, true)
    } else {
        let parts = split_chars(t.as_slice(), ',');
        items(&parts, false)
    }
}

/// Parse simple YAML front matter from markdown content.
pub fn parse_front_matter(content: &str) -> (fm: FrontMatter)
    ensures
        fm@ == front_matter_of(content@),
{
    let v = chars_of(content);
    let p = patterns();
    let mut fm = FrontMatter { title: None, tags: Vec::new(), aliases: Vec::new() };
    assert(fm@ =~= empty_front_matter());
    let (_, block) = locate_front_matter(v.as_slice(), &p);
    match block {
        None => fm,
        Some((a, b)) => {
            let y = sub_chars(v.as_slice(), a, b);
            let lines = split_chars(y.as_slice(), '\n');
            let ghost ls = pieces_view(lines@);
            let mut i: usize = 0;
            while i < lines.len()
                invariant
                    patterns_ok(&p),
                    ls == pieces_view(lines@),
                    i <= lines@.len(),
                    read_lines(ls, 0, empty_front_matter()) == read_lines(ls, i as int, fm@),
                decreases lines@.len() - i,
            {
                let line = trim_chars(lines[i].as_slice());
                let ghost before = fm@;
                if starts_with_chars(line.as_slice(), p.title.as_slice()) {
                    let rest = sub_chars(line.as_slice(), p.title.len(), line.len());
                    let t1 = trim_chars(rest.as_slice());
                    let t2 = strip_char_exec(t1.as_slice(), '"');
                    let t3 = strip_char_exec(t2.as_slice(), '\'');
                    fm.title = Some(string_from_chars(t3.as_slice()));
                } else if starts_with_chars(line.as_slice(), p.tags.as_slice()) {
                    let rest = sub_chars(line.as_slice(), p.tags.len(), line.len());
                    fm.tags = parse_yaml_list(rest.as_slice());
                } else if starts_with_chars(line.as_slice(), p.aliases.as_slice()) {
                    let rest = sub_chars(line.as_slice(), p.aliases.len(), line.len());
                    fm.aliases = parse_yaml_list(rest.as_slice());
                }
                assert(fm@ =~= apply_line(before, ls[i as int]));
                i = i + 1;
            }
            fm
        },
    }
}

// ---------------------------------------------------------------------
// Titles
// ---------------------------------------------------------------------

/// The text of the first level-one heading in `lines[i..]`, trimmed.
pub open spec fn first_heading(lines: Seq<Seq<char>>, i: int) -> Option<Seq<char>>
    decreases lines.len() - i,
{
    if 0 <= i < lines.len() {
        let t = trim(lines[i]);
        if starts_with(t, heading_marker()) {
            Some(trim(t.skip(heading_marker().len() as int)))
        } else {
            first_heading(lines, i + 1)
        }
    } else {
        None
    }
}

/// The first non-empty line in `lines[i..]` that is not a fence, trimmed
/// and cut to 80 characters.
pub open spec fn first_text_line(lines: Seq<Seq<char>>, i: int) -> Option<Seq<char>>
    decreases lines.len() - i,
{
    if 0 <= i < lines.len() {
        let t = trim(lines[i]);
        if t.len() > 0 && !starts_with(t, fence()) {
            Some(t.take(if t.len() < 80 { t.len() as int } else { 80 }))
        } else {
            first_text_line(lines, i + 1)
        }
    } else {
        None
    }
}

/// The title found in the lines of a body: the first level-one heading
/// anywhere in it, or else its first non-empty line that is not a fence.
pub open spec fn title_from_lines(lines: Seq<Seq<char>>) -> Option<Seq<char>> {
    match first_heading(lines, 0) {
        Some(h) => Some(h),
        None => first_text_line(lines, 0),
    }
}

/// The start of the last `/`-separated segment of `id` before index `j`.
pub open spec fn segment_start(id: Seq<char>, j: int) -> int
    decreases j,
{
    if 0 < j <= id.len() && id[j - 1] != '/' {
        segment_start(id, j - 1)
    } else {
        j
    }
}

/// The last `/`-separated segment of a note id: its file stem.
pub open spec fn file_stem(id: Seq<char>) -> Seq<char> {
    id.skip(segment_start(id, id.len() as int))
}

/// A note's title: the front matter title if non-empty, else the first
/// level-one heading of the body, else its first line, else the file stem
/// of its id.
pub open spec fn resolved_title(fm_title: Option<Seq<char>>, content: Seq<char>, id: Seq<char>) -> Seq<
    char,
> {
    if fm_title is Some && fm_title.unwrap().len() > 0 {
        fm_title.unwrap()
    } else {
        match title_from_lines(split_on(body_of(content), '\n')) {
            Some(t) => t,
            None => file_stem(id),
        }
    }
}

/// Resolve a note title: front matter, then heading, then first line, then
/// file name.
pub fn resolve_title(front: &FrontMatter, content: &str, id: &str) -> (t: String)
    ensures
        t@ == resolved_title(front@.title, content@, id@),
{
    match &front.title {
        Some(title) => {
            if title.as_str().unicode_len() > 0 {
                return title.clone();
            }
        },
        None => {},
    }
    let p = patterns();
    let body = strip_front_matter(content);
    let b = chars_of(body);
    let lines = split_chars(b.as_slice(), '\n');
    let ghost ls = pieces_view(lines@);
    let mut i: usize = 0;
    while i < lines.len()
        invariant
            patterns_ok(&p),
            ls == pieces_view(lines@),
            i <= lines@.len(),
            ls == split_on(body_of(content@), '\n'),
            !(front@.title is Some && front@.title.unwrap().len() > 0),
            first_heading(ls, 0) == first_heading(ls, i as int),
        decreases lines@.len() - i,
    {
        let t = trim_chars(lines[i].as_slice());
        if starts_with_chars(t.as_slice(), p.heading.as_slice()) {
            let rest = sub_chars(t.as_slice(), p.heading.len(), t.len());
            let h = trim_chars(rest.as_slice());
            return string_from_chars(h.as_slice());
        }
        i = i + 1;
    }
    let mut i: usize = 0;
    while i < lines.len()
        invariant
            patterns_ok(&p),
            ls == pieces_view(lines@),
            i <= lines@.len(),
            ls == split_on(body_of(content@), '\n'),
            !(front@.title is Some && front@.title.unwrap().len() > 0),
            first_heading(ls, 0) is None,
            first_text_line(ls, 0) == first_text_line(ls, i as int),
        decreases lines@.len() - i,
    {
        let t = trim_chars(lines[i].as_slice());
        if t.len() > 0 && !starts_with_chars(t.as_slice(), p.fence.as_slice()) {
            let n = if t.len() < 80 {
                t.len()
            } else {
                80
            };
            let cut = sub_chars(t.as_slice(), 0, n);
            assert(cut@ =~= t@.take(n as int));
            return string_from_chars(cut.as_slice());
        }
        i = i + 1;
    }
    let idv = chars_of(id);
    let mut j: usize = idv.len();
    while j > 0 && idv[j - 1] != '/'
        invariant
            j <= idv@.len(),
            segment_start(idv@, j as int) == segment_start(idv@, idv@.len() as int),
        decreases j,
    {
        j = j - 1;
    }
    let stem = sub_chars(idv.as_slice(), j, idv.len());
    assert(stem@ =~= file_stem(id@));
    string_from_chars(stem.as_slice())
}

// ---------------------------------------------------------------------
// Ids from file paths
// ---------------------------------------------------------------------

/// Just past the last `.` of `p[st..k]`, or `st` if it holds none.
pub open spec fn after_last_dot(p: Seq<char>, st: int, k: int) -> int
    decreases k - st,
{
    if st < k <= p.len() && p[k - 1] != '.' {
        after_last_dot(p, st, k - 1)
    } else {
        k
    }
}

/// `p` with the extension of its last `/`-separated segment taken off: the
/// segment is cut at its last `.`, unless that dot begins it or the segment
/// is `..`.
pub open spec fn without_extension(p: Seq<char>) -> Seq<char> {
    let st = segment_start(p, p.len() as int);
    let k = after_last_dot(p, st, p.len() as int);
    let parent = p.len() == st + 2 && p[st] == '.' && p[st + 1] == '.';
    if k > st + 1 && !parent {
        p.take(k - 1)
    } else {
        p
    }
}

/// The note id of a file path relative to the vault root: the path without
/// its extension, with every backslash turned into `/`.
pub open spec fn note_id_of_path(rel: Seq<char>) -> Seq<char> {
    without_extension(rel).map_values(|c: char| if c == '\\' { '/' } else { c })
}

/// The note id of a file path relative to the vault root, such as
/// `projects/hikki.md` for the note `projects/hikki`.
pub fn note_id_from_path(rel: &str) -> (id: String)
    ensures
        id@ == note_id_of_path(rel@),
{
    let v = chars_of(rel);
    let n = v.len();
    let mut st: usize = n;
    while st > 0 && v[st - 1] != '/'
        invariant
            n == v@.len(),
            st <= n,
            segment_start(v@, st as int) == segment_start(v@, n as int),
        decreases st,
    {
        st = st - 1;
    }
    let mut k: usize = n;
    while k > st && v[k - 1] != '.'
        invariant
            n == v@.len(),
            st <= k <= n,
            after_last_dot(v@, st as int, k as int) == after_last_dot(v@, st as int, n as int),
        decreases k,
    {
        k = k - 1;
    }
    let parent = n - st == 2 && v[st] == '.' && v[st + 1] == '.';
    let end = if k - st > 1 && !parent {
        k - 1
    } else {
        n
    };
    let ghost stem = without_extension(v@);
    assert(stem =~= v@.take(end as int));
    let mut out: Vec<char> = Vec::new();
    let mut i: usize = 0;
    while i < end
        invariant
            end <= n,
            n == v@.len(),
            stem =~= v@.take(end as int),
            i <= end,
            out@ =~= stem.take(i as int).map_values(
                |c: char|
                    if c == '\\' {
                        '/'
                    } else {
                        c
                    },
            ),
        decreases end - i,
    {
        let c = v[i];
        if c == '\\' {
            out.push('/');
        } else {
            out.push(c);
        }
        assert(stem.take(i + 1) =~= stem.take(i as int).push(c));
        i = i + 1;
    }
    assert(stem.take(end as int) =~= stem);
    string_from_chars(out.as_slice())
}

// ---------------------------------------------------------------------
// Inline tags
// ---------------------------------------------------------------------

/// Whether `c` is trimmed from the end of an inline tag: ASCII punctuation
/// other than `-` and `_`.
pub open spec fn tag_trailer(c: char) -> bool {
    is_ascii_punct(c) && c != '-' && c != '_'
}

/// The end of `s[..j]` once trailing tag trailers are removed.
pub open spec fn tag_end(s: Seq<char>, j: int) -> int
    decreases j,
{
    if 0 < j <= s.len() && tag_trailer(s[j - 1]) {
        tag_end(s, j - 1)
    } else {
        j
    }
}

/// The tag a `#word` names: the word after `#`, without trailing
/// punctuation.
pub open spec fn tag_of(word: Seq<char>) -> Seq<char> {
    let rest = word.skip(1);
    rest.take(tag_end(rest, rest.len() as int))
}

/// `tags` with the inline tags of `words[i..]` appended, each new tag once.
pub open spec fn add_tags(tags: Seq<Seq<char>>, words: Seq<Seq<char>>, i: int) -> Seq<Seq<char>>
    decreases words.len() - i,
{
    if 0 <= i < words.len() {
        let w = words[i];
        if w.len() > 0 && w[0] == '#' && tag_of(w).len() > 0 && !tags.contains(tag_of(w)) {
            add_tags(tags.push(tag_of(w)), words, i + 1)
        } else {
            add_tags(tags, words, i + 1)
        }
    } else {
        tags
    }
}

/// The inline tags of `content`'s body added to `tags`.
pub open spec fn with_inline_tags(tags: Seq<Seq<char>>, content: Seq<char>) -> Seq<Seq<char>> {
    add_tags(tags, words_from(body_of(content), 0), 0)
}

/// A tag is read from a `#` word without the `#` and without trailing
/// punctuation: `#w` gives `w` when `w` does not end in punctuation other
/// than `-` or `_`, and punctuation after it is dropped.
pub proof fn law_tag_of_word(w: Seq<char>, c: char)
    requires
        w.len() > 0,
        !tag_trailer(w[w.len() - 1]),
        tag_trailer(c),
    ensures
        tag_of(seq!['#'] + w) == w,
        tag_of(seq!['#'] + w + seq![c]) == w,
{
    let a = seq!['#'] + w;
    assert(a.skip(1) =~= w);
    assert(tag_end(w, w.len() as int) == w.len());
    assert(w.take(w.len() as int) =~= w);
    let b = seq!['#'] + w + seq![c];
    let r = b.skip(1);
    assert(r =~= w.push(c));
    assert(r[w.len() as int] == c);
    assert(r[w.len() - 1] == w[w.len() - 1]);
    assert(tag_end(r, w.len() as int) == w.len());
    assert(tag_end(r, r.len() as int) == w.len());
    assert(r.take(w.len() as int) =~= w);
}

proof fn lemma_add_tags_keeps_unique(tags: Seq<Seq<char>>, words: Seq<Seq<char>>, i: int)
    requires
        tags.no_duplicates(),
    ensures
        add_tags(tags, words, i).no_duplicates(),
        tags.is_prefix_of(add_tags(tags, words, i)),
    decreases words.len() - i,
{
    if 0 <= i < words.len() {
        let w = words[i];
        if w.len() > 0 && w[0] == '#' && tag_of(w).len() > 0 && !tags.contains(tag_of(w)) {
            let t2 = tags.push(tag_of(w));
            assert forall|a: int, b: int| 0 <= a < t2.len() && 0 <= b < t2.len() && a != b implies t2[a]
                != t2[b] by {
                if a == tags.len() {
                    assert(tags.contains(t2[b]));
                } else if b == tags.len() {
                    assert(tags.contains(t2[a]));
                }
            }
            lemma_add_tags_keeps_unique(t2, words, i + 1);
            assert(tags.is_prefix_of(t2));
        } else {
            lemma_add_tags_keeps_unique(tags, words, i + 1);
        }
    }
}

/// Inline tags are added after the existing ones, each at most once: a
/// tag list without repeats stays without repeats.
pub proof fn law_inline_tags_unique(tags: Seq<Seq<char>>, content: Seq<char>)
    requires
        tags.no_duplicates(),
    ensures
        with_inline_tags(tags, content).no_duplicates(),
        tags.is_prefix_of(with_inline_tags(tags, content)),
{
    lemma_add_tags_keeps_unique(tags, words_from(body_of(content), 0), 0);
}

/// A word that starts with `#`.
pub open spec fn hash_word(w: Seq<char>) -> bool {
    w.len() > 0 && w[0] == '#'
}

/// `t` is a non-empty tag taken from one of the `#` words of `words[i..]`.
pub open spec fn tag_from_words(t: Seq<char>, words: Seq<Seq<char>>, i: int) -> bool {
    &&& t.len() > 0
    &&& exists|v: int| i <= v < words.len() && hash_word(#[trigger] words[v]) && tag_of(words[v]) == t
}

proof fn lemma_add_tags_appends(tags: Seq<Seq<char>>, words: Seq<Seq<char>>, i: int)
    ensures
        tags.is_prefix_of(add_tags(tags, words, i)),
        add_tags(tags, words, i).skip(tags.len() as int).no_duplicates(),
        forall|k: int|
            tags.len() <= k < add_tags(tags, words, i).len() ==> !tags.contains(
                #[trigger] add_tags(tags, words, i)[k],
            ),
        forall|k: int|
            tags.len() <= k < add_tags(tags, words, i).len() ==> tag_from_words(
                #[trigger] add_tags(tags, words, i)[k],
                words,
                i,
            ),
    decreases words.len() - i,
{
    if 0 <= i < words.len() {
        let w = words[i];
        if w.len() > 0 && w[0] == '#' && tag_of(w).len() > 0 && !tags.contains(tag_of(w)) {
            let x = tag_of(w);
            let t2 = tags.push(x);
            let r = add_tags(t2, words, i + 1);
            lemma_add_tags_appends(t2, words, i + 1);
            assert(t2[tags.len() as int] == x);
            assert(r.subrange(0, t2.len() as int)[tags.len() as int] == r[tags.len() as int]);
            assert(r[tags.len() as int] == x);
            assert forall|k: int| tags.len() <= k < r.len() implies !tags.contains(#[trigger] r[k]) by {
                if k > tags.len() {
                    assert(!t2.contains(r[k]));
                    if tags.contains(r[k]) {
                        let j = choose|j: int| 0 <= j < tags.len() && tags[j] == r[k];
                        assert(t2[j] == r[k]);
                    }
                }
            }
            let e = r.skip(tags.len() as int);
            let e2 = r.skip(t2.len() as int);
            assert forall|a: int, b: int| 0 <= a < e.len() && 0 <= b < e.len() && a != b implies e[a]
                != e[b] by {
                if a == 0 {
                    assert(e[b] == r[tags.len() + b]);
                    assert(!t2.contains(r[tags.len() + b]));
                    assert(t2[tags.len() as int] == x);
                } else if b == 0 {
                    assert(e[a] == r[tags.len() + a]);
                    assert(!t2.contains(r[tags.len() + a]));
                    assert(t2[tags.len() as int] == x);
                } else {
                    assert(e[a] == e2[a - 1]);
                    assert(e[b] == e2[b - 1]);
                }
            }
            assert(tags.is_prefix_of(t2));
            assert forall|k: int| tags.len() <= k < r.len() implies tag_from_words(
                #[trigger] r[k],
                words,
                i,
            ) by {
                if k == tags.len() {
                    assert(words[i] == w);
                } else {
                    assert(tag_from_words(r[k], words, i + 1));
                    let v = choose|v: int|
                        i + 1 <= v < words.len() && hash_word(#[trigger] words[v]) && tag_of(words[v])
                            == r[k];
                    assert(i <= v);
                }
            }
        } else {
            lemma_add_tags_appends(tags, words, i + 1);
            let r = add_tags(tags, words, i);
            assert forall|k: int| tags.len() <= k < r.len() implies tag_from_words(
                #[trigger] r[k],
                words,
                i,
            ) by {
                assert(tag_from_words(r[k], words, i + 1));
                let v = choose|v: int|
                    i + 1 <= v < words.len() && hash_word(#[trigger] words[v]) && tag_of(words[v])
                        == r[k];
                assert(i <= v);
            }
        }
    } else {
        assert(tags.skip(tags.len() as int).len() == 0);
    }
}

/// Inline tags are only ever appended: the old tags, repeats and all, stay
/// in front, and each appended tag occurs once, was not among them, is
/// non-empty and comes from a `#` word of the body.
pub proof fn law_inline_tags_append_new(tags: Seq<Seq<char>>, content: Seq<char>)
    ensures
        tags.is_prefix_of(with_inline_tags(tags, content)),
        with_inline_tags(tags, content).skip(tags.len() as int).no_duplicates(),
        forall|k: int|
            tags.len() <= k < with_inline_tags(tags, content).len() ==> !tags.contains(
                #[trigger] with_inline_tags(tags, content)[k],
            ),
        forall|k: int|
            tags.len() <= k < with_inline_tags(tags, content).len() ==> tag_from_words(
                #[trigger] with_inline_tags(tags, content)[k],
                words_from(body_of(content), 0),
                0,
            ),
{
    lemma_add_tags_appends(tags, words_from(body_of(content), 0), 0);
}

/// A note made of a front matter block holding `y`, a newline and then the
/// body `b`: `---`, `y`, `\n---`, `\n`, `b`.
pub open spec fn with_block(y: Seq<char>, b: Seq<char>) -> Seq<char> {
    "---"@ + y + "\n---"@ + seq!['\n'] + b
}

/// A front matter block is read up to its closing fence, and what follows
/// the fence's newline is the body.
#[verifier::spinoff_prover]
#[verifier::rlimit(30)]
pub proof fn lemma_with_block(y: Seq<char>, b: Seq<char>)
    requires
        !contains_seq(y, "\n---"@),
    ensures
        yaml_block(with_block(y, b)) == Some(y),
        body_of(with_block(y, b)) == b,
{
    reveal_strlit("---");
    reveal_strlit("\n---");
    let cf = closing_fence();
    let c = with_block(y, b);
    assert(c[0] == '-');
    assert(ws_prefix_end(c, 0) == 0);
    assert(trim_start(c) =~= c);
    assert(c.take(3) =~= fence());
    let a = c.skip(3);
    assert(a =~= y + cf + seq!['\n'] + b);
    let n = y.len() as int;
    assert(a.subrange(n, n + 4) =~= cf);
    assert forall|j: int| 0 <= j < n implies !occurs_at(a, cf, j) by {
        if occurs_at(a, cf, j) {
            if j + 4 <= n {
                assert(y.subrange(j, j + 4) =~= a.subrange(j, j + 4));
                assert(occurs_at(y, cf, j));
            } else {
                let d = n - j;
                assert(a.subrange(j, j + 4)[d] == a[n]);
                assert(a[n] == '\n');
                assert(cf[d] == '-');
            }
        }
    }
    crate::text::lemma_first_occ_from_at(a, cf, 0, n);
    assert(a.take(n) =~= y);
    assert(c[3 + n + 4] == '\n');
    assert(c.skip(3 + n + 4 + 1) =~= b);
}

/// The title is read from the body, never from the front matter block: a
/// note whose block holds `y` has the title that its body `b` alone has
/// (when `b` does not open a block of its own).
pub proof fn law_title_ignores_front_matter_block(
    fm_title: Option<Seq<char>>,
    y: Seq<char>,
    b: Seq<char>,
    id: Seq<char>,
)
    requires
        !contains_seq(y, "\n---"@),
        yaml_block(b) is None,
    ensures
        resolved_title(fm_title, with_block(y, b), id) == resolved_title(fm_title, b, id),
{
    lemma_with_block(y, b);
    law_body_is_suffix(b);
}

/// A quoted title is read without its quotes: front matter holding the
/// line `title: "x"` or `title: 'x'`, where `x` holds no quote and no
/// newline, has the title `x`.
#[verifier::spinoff_prover]
#[verifier::rlimit(30)]
pub proof fn law_quoted_title(x: Seq<char>, q: char, b: Seq<char>)
    requires
        q == '"' || q == '\'',
        forall|k: int| 0 <= k < x.len() ==> x[k] != '"' && x[k] != '\'' && x[k] != '\n',
    ensures
        front_matter_of(with_block("\ntitle: "@ + seq![q] + x + seq![q], b)).title == Some(x),
{
    reveal_strlit("\ntitle: ");
    reveal_strlit("title:");
    reveal_strlit("tags:");
    reveal_strlit("aliases:");
    reveal_strlit("\n---");
    let y = "\ntitle: "@ + seq![q] + x + seq![q];
    let n = y.len() as int;
    assert forall|j: int| 1 <= j < n implies y[j] != '\n' by {
        if 9 <= j < n - 1 {
            assert(y[j] == x[j - 9]);
        }
    }
    assert(!contains_seq(y, closing_fence())) by {
        if contains_seq(y, closing_fence()) {
            let j = choose|j: int| occurs_at(y, closing_fence(), j);
            assert(y.subrange(j, j + 4)[0] == y[j]);
            assert(y.subrange(j, j + 4)[1] == y[j + 1]);
            assert(y[1] == 't');
        }
    }
    lemma_with_block(y, b);
    let line = y.skip(1);
    crate::text::lemma_char_index_none(y, '\n', 1);
    assert(split_on(y, '\n') =~= seq![Seq::<char>::empty(), line]) by {
        assert(split_from(y, '\n', 1) == seq![y.subrange(1, n)]);
        assert(y.subrange(0, 0) =~= Seq::<char>::empty());
        assert(y.subrange(1, n) =~= line);
    }
    let e = Seq::<char>::empty();
    assert(trim(e) =~= e);
    let fm1 = apply_line(empty_front_matter(), e);
    assert(fm1 == empty_front_matter());
    // The title line is already trimmed.
    assert(line[0] == 't');
    assert(ws_prefix_end(line, 0) == 0);
    assert(line[line.len() - 1] == q);
    assert(ws_suffix_start(line, line.len() as int) == line.len());
    assert(trim(line) =~= line);
    assert(line.take(6) =~= "title:"@);
    let r = line.skip(6);
    let u = seq![q] + x + seq![q];
    assert(r =~= seq![' '] + u);
    assert(ws_prefix_end(r, 1) == 1);
    assert(ws_prefix_end(r, 0) == 1);
    let r1 = r.skip(1);
    assert(r1 =~= u);
    assert(u[u.len() - 1] == q);
    assert(ws_suffix_start(r1, r1.len() as int) == r1.len());
    assert(trim(r) =~= u);
    assert forall|k: int| 0 <= k < x.len() implies x[k] != q by {}
    if q == '"' {
        crate::text::lemma_strip_char_wrapped(x, '"');
        crate::text::lemma_strip_char_none(x, '\'');
    } else {
        assert(u[0] == '\'');
        crate::text::lemma_strip_char_none(u, '"');
        crate::text::lemma_strip_char_wrapped(x, '\'');
    }
    assert(title_value(r) == x);
    reveal_with_fuel(read_lines, 3);
}

#[verifier::spinoff_prover]
#[verifier::rlimit(30)]
proof fn lemma_one_line_block(line: Seq<char>, b: Seq<char>)
    requires
        line.len() > 0,
        line[0] != '-',
        forall|k: int| 0 <= k < line.len() ==> line[k] != '\n',
    ensures
        front_matter_of(with_block(seq!['\n'] + line, b)) == apply_line(empty_front_matter(), line),
{
    reveal_strlit("title:");
    reveal_strlit("tags:");
    reveal_strlit("aliases:");
    reveal_strlit("\n---");
    let y = seq!['\n'] + line;
    let n = y.len() as int;
    assert forall|j: int| 1 <= j < n implies y[j] != '\n' by {
        assert(y[j] == line[j - 1]);
    }
    assert(!contains_seq(y, closing_fence())) by {
        if contains_seq(y, closing_fence()) {
            let j = choose|j: int| occurs_at(y, closing_fence(), j);
            assert(y.subrange(j, j + 4)[0] == y[j]);
            assert(y.subrange(j, j + 4)[1] == y[j + 1]);
            assert(y[1] == line[0]);
        }
    }
    lemma_with_block(y, b);
    crate::text::lemma_char_index_none(y, '\n', 1);
    assert(split_on(y, '\n') =~= seq![Seq::<char>::empty(), line]) by {
        assert(split_from(y, '\n', 1) == seq![y.subrange(1, n)]);
        assert(y.subrange(0, 0) =~= Seq::<char>::empty());
        assert(y.subrange(1, n) =~= line);
    }
    let e = Seq::<char>::empty();
    assert(trim(e) =~= e);
    assert(apply_line(empty_front_matter(), e) == empty_front_matter());
    reveal_with_fuel(read_lines, 3);
}

proof fn lemma_plain_word(x: Seq<char>)
    requires
        x.len() > 0,
        !is_ws(x[0]),
        !is_ws(x[x.len() - 1]),
        forall|k: int| 0 <= k < x.len() ==> x[k] != '"' && x[k] != '\'' && x[k] != ',',
    ensures
        trim(x) == x,
        split_on(x, ',') == seq![x],
        clean_item(x, true) == x,
{
    assert(ws_prefix_end(x, 0) == 0);
    assert(x.skip(0) =~= x);
    assert(ws_suffix_start(x, x.len() as int) == x.len());
    assert(trim(x) =~= x);
    crate::text::lemma_char_index_none(x, ',', 0);
    assert(x.subrange(0, x.len() as int) =~= x);
    crate::text::lemma_strip_char_none(x, '"');
    crate::text::lemma_strip_char_none(x, '\'');
}

proof fn lemma_bracket_list(x: Seq<char>)
    requires
        x.len() > 0,
        !is_ws(x[0]),
        !is_ws(x[x.len() - 1]),
        forall|k: int| 0 <= k < x.len() ==> x[k] != '"' && x[k] != '\'' && x[k] != ',',
    ensures
        yaml_list(seq![' ', '['] + x + seq![']']) == seq![x],
{
    lemma_plain_word(x);
    let r = seq![' ', '['] + x + seq![']'];
    assert(ws_prefix_end(r, 1) == 1);
    assert(ws_prefix_end(r, 0) == 1);
    let t = r.skip(1);
    assert(ws_suffix_start(t, t.len() as int) == t.len());
    assert(trim(r) =~= t);
    assert(is_bracketed(t));
    assert(t.subrange(1, t.len() - 1) =~= x);
    reveal_with_fuel(items_from, 2);
}

#[verifier::spinoff_prover]
#[verifier::rlimit(30)]
proof fn lemma_tags_line(x: Seq<char>, b: Seq<char>)
    requires
        x.len() > 0,
        !is_ws(x[0]),
        !is_ws(x[x.len() - 1]),
        forall|k: int|
            0 <= k < x.len() ==> x[k] != '"' && x[k] != '\'' && x[k] != ',' && x[k] != '\n',
    ensures
        front_matter_of(with_block("\ntags: ["@ + x + "]"@, b)).tags == seq![x],
{
    reveal_strlit("\ntags: [");
    reveal_strlit("tags: [");
    reveal_strlit("]");
    reveal_strlit("title:");
    reveal_strlit("tags:");
    let l = "tags: ["@ + x + "]"@;
    assert("\ntags: ["@ + x + "]"@ =~= seq!['\n'] + l);
    assert forall|k: int| 0 <= k < l.len() implies l[k] != '\n' by {
        if 7 <= k < l.len() - 1 {
            assert(l[k] == x[k - 7]);
        }
    }
    lemma_one_line_block(l, b);
    assert(ws_prefix_end(l, 0) == 0);
    assert(ws_suffix_start(l, l.len() as int) == l.len());
    assert(trim(l) =~= l);
    assert(l.take(5) =~= "tags:"@);
    assert(!starts_with(l, "title:"@)) by {
        assert(l.take(6)[2] == 'g');
    }
    assert(l.skip(5) =~= seq![' ', '['] + x + seq![']']);
    lemma_bracket_list(x);
}

#[verifier::spinoff_prover]
#[verifier::rlimit(30)]
proof fn lemma_aliases_line(x: Seq<char>, b: Seq<char>)
    requires
        x.len() > 0,
        !is_ws(x[0]),
        !is_ws(x[x.len() - 1]),
        forall|k: int|
            0 <= k < x.len() ==> x[k] != '"' && x[k] != '\'' && x[k] != ',' && x[k] != '\n',
    ensures
        front_matter_of(with_block("\naliases: ["@ + x + "]"@, b)).aliases == seq![x],
{
    reveal_strlit("\naliases: [");
    reveal_strlit("aliases: [");
    reveal_strlit("]");
    reveal_strlit("title:");
    reveal_strlit("tags:");
    reveal_strlit("aliases:");
    let l = "aliases: ["@ + x + "]"@;
    assert("\naliases: ["@ + x + "]"@ =~= seq!['\n'] + l);
    assert forall|k: int| 0 <= k < l.len() implies l[k] != '\n' by {
        if 10 <= k < l.len() - 1 {
            assert(l[k] == x[k - 10]);
        }
    }
    lemma_one_line_block(l, b);
    assert(ws_prefix_end(l, 0) == 0);
    assert(ws_suffix_start(l, l.len() as int) == l.len());
    assert(trim(l) =~= l);
    assert(l.take(8) =~= "aliases:"@);
    assert(!starts_with(l, "title:"@)) by {
        assert(l.take(6)[0] == 'a');
    }
    assert(!starts_with(l, "tags:"@)) by {
        assert(l.take(5)[0] == 'a');
    }
    assert(l.skip(8) =~= seq![' ', '['] + x + seq![']']);
    lemma_bracket_list(x);
}

/// A one-item list is read as that item: front matter holding the line
/// `tags: [x]` (or `aliases: [x]`), where `x` is one word with no comma,
/// quote or newline and no surrounding whitespace, has the tags (or
/// aliases) `[x]`.
pub proof fn law_single_item_lists(x: Seq<char>, b: Seq<char>)
    requires
        x.len() > 0,
        !is_ws(x[0]),
        !is_ws(x[x.len() - 1]),
        forall|k: int|
            0 <= k < x.len() ==> x[k] != '"' && x[k] != '\'' && x[k] != ',' && x[k] != '\n',
    ensures
        front_matter_of(with_block("\ntags: ["@ + x + "]"@, b)).tags == seq![x],
        front_matter_of(with_block("\naliases: ["@ + x + "]"@, b)).aliases == seq![x],
{
    lemma_tags_line(x, b);
    lemma_aliases_line(x, b);
}

proof fn lemma_segment_start_stem(dir: Seq<char>, stem: Seq<char>, j: int)
    requires
        dir.len() + 1 <= j <= dir.len() + 1 + stem.len(),
        forall|k: int| 0 <= k < stem.len() ==> stem[k] != '/',
    ensures
        segment_start(dir + seq!['/'] + stem, j) == dir.len() + 1,
    decreases j,
{
    let id = dir + seq!['/'] + stem;
    if j > dir.len() + 1 {
        assert(id[j - 1] == stem[j - 1 - dir.len() - 1]);
        lemma_segment_start_stem(dir, stem, j - 1);
    } else {
        assert(id[j - 1] == '/');
    }
}

/// With no title in the front matter and nothing in the note, the title is
/// the file name: the last `/`-separated part of the id.
pub proof fn law_title_falls_back_to_file_name(
    fm_title: Option<Seq<char>>,
    dir: Seq<char>,
    stem: Seq<char>,
)
    requires
        fm_title is None || fm_title.unwrap().len() == 0,
        forall|k: int| 0 <= k < stem.len() ==> stem[k] != '/',
    ensures
        resolved_title(fm_title, Seq::empty(), dir + seq!['/'] + stem) == stem,
        resolved_title(fm_title, Seq::empty(), stem) == stem,
{
    let e = Seq::<char>::empty();
    reveal_strlit("---");
    reveal_strlit("# ");
    assert(ws_prefix_end(e, 0) == 0);
    assert(trim_start(e) =~= e);
    assert(!starts_with(e, fence()));
    assert(body_of(e) =~= e);
    assert(split_on(e, '\n') =~= seq![e]);
    assert(trim(e) =~= e);
    assert(first_heading(seq![e], 1) is None);
    assert(first_heading(seq![e], 0) is None);
    assert(first_text_line(seq![e], 1) is None);
    assert(first_text_line(seq![e], 0) is None);
    let id = dir + seq!['/'] + stem;
    lemma_segment_start_stem(dir, stem, id.len() as int);
    assert(id.skip(dir.len() + 1int) =~= stem);
    assert(segment_start(stem, stem.len() as int) == 0) by {
        lemma_segment_start_plain(stem, stem.len() as int);
    }
    assert(stem.skip(0) =~= stem);
}

proof fn lemma_segment_start_plain(stem: Seq<char>, j: int)
    requires
        0 <= j <= stem.len(),
        forall|k: int| 0 <= k < stem.len() ==> stem[k] != '/',
    ensures
        segment_start(stem, j) == 0,
    decreases j,
{
    if j > 0 {
        lemma_segment_start_plain(stem, j - 1);
    }
}

/// A heading wins over an earlier line of text: a note (without front
/// matter or a front matter title) whose first line `l` is not itself a
/// heading and whose second line is `# h` has the title `h` (for `h`
/// without newlines or surrounding whitespace).
#[verifier::spinoff_prover]
#[verifier::rlimit(30)]
pub proof fn law_heading_beats_first_line(
    fm_title: Option<Seq<char>>,
    l: Seq<char>,
    h: Seq<char>,
    id: Seq<char>,
)
    requires
        fm_title is None || fm_title.unwrap().len() == 0,
        yaml_block(l + "\n# "@ + h) is None,
        forall|k: int| 0 <= k < l.len() ==> l[k] != '\n',
        !starts_with(trim(l), heading_marker()),
        h.len() > 0,
        !is_ws(h[0]),
        !is_ws(h[h.len() - 1]),
        forall|k: int| 0 <= k < h.len() ==> h[k] != '\n',
    ensures
        resolved_title(fm_title, l + "\n# "@ + h, id) == h,
{
    reveal_strlit("\n# ");
    reveal_strlit("# ");
    let c = l + "\n# "@ + h;
    let n = l.len() as int;
    law_body_is_suffix(c);
    assert(body_of(c) =~= c);
    let second = seq!['#', ' '] + h;
    assert(c[n] == '\n');
    assert forall|j: int| 0 <= j < n implies c[j] != '\n' by {
        assert(c[j] == l[j]);
    }
    crate::text::lemma_char_index_at(c, '\n', 0, n);
    assert forall|j: int| n + 1 <= j < c.len() implies c[j] != '\n' by {
        if j >= n + 3 {
            assert(c[j] == h[j - n - 3]);
        }
    }
    crate::text::lemma_char_index_none(c, '\n', n + 1);
    assert(split_from(c, '\n', n + 1) == seq![c.subrange(n + 1, c.len() as int)]);
    assert(c.subrange(0, n) =~= l);
    assert(c.subrange(n + 1, c.len() as int) =~= second);
    let lines = seq![l, second];
    assert(split_on(c, '\n') =~= lines);
    assert(ws_prefix_end(second, 0) == 0);
    assert(ws_suffix_start(second, second.len() as int) == second.len());
    assert(trim(second) =~= second);
    assert(second.take(2) =~= heading_marker());
    assert(second.skip(2) =~= h);
    assert(ws_prefix_end(h, 0) == 0);
    assert(ws_suffix_start(h, h.len() as int) == h.len());
    assert(trim(h) =~= h);
    assert(first_heading(lines, 1) == Some(h));
    assert(first_heading(lines, 0) == Some(h));
}

/// The body of a note is a suffix of its content, and the whole content
/// exactly when there is no front matter block.
pub proof fn law_body_is_suffix(content: Seq<char>)
    ensures
        0 <= body_start(content) <= content.len(),
        body_of(content) == content.skip(body_start(content)),
        body_of(content) == content <==> yaml_block(content) is None,
{
    let lead = ws_prefix_end(content, 0);
    crate::text::lemma_ws_prefix_end_bounds(content, 0);
    let t = trim_start(content);
    if starts_with(t, fence()) {
        let a = t.skip(fence().len() as int);
        match first_occ(a, closing_fence()) {
            Some(k) => {
                crate::text::lemma_first_occ_found(a, closing_fence());
                assert(body_start(content) >= 3) by {
                    reveal_strlit("---");
                    reveal_strlit("\n---");
                }
                assert(body_of(content).len() < content.len());
            },
            None => {
                assert(content.skip(0) =~= content);
            },
        }
    } else {
        assert(content.skip(0) =~= content);
    }
}

/// Whether `v` holds a string equal to `t`.
fn contains_string(v: &Vec<String>, t: &String) -> (b: bool)
    ensures
        b == strs(v@).contains(t@),
{
    let mut i: usize = 0;
    while i < v.len()
        invariant
            i <= v@.len(),
            forall|k: int| 0 <= k < i ==> v@[k]@ != t@,
        decreases v@.len() - i,
    {
        if v[i] == *t {
            assert(strs(v@)[i as int] == t@);
            return true;
        }
        i = i + 1;
    }
    proof {
        if strs(v@).contains(t@) {
            let k = choose|k: int| 0 <= k < strs(v@).len() && strs(v@)[k] == t@;
            assert(v@[k]@ == t@);
        }
    }
    false
}

/// Extract inline `#tags` from the body of `content`, appending each new
/// one to `tags`.
pub fn extract_inline_tags(content: &str, tags: &mut Vec<String>)
    ensures
        strs(final(tags)@) == with_inline_tags(strs(old(tags)@), content@),
{
    let body = strip_front_matter(content);
    let b = chars_of(body);
    let words = split_words(b.as_slice());
    let ghost ws = pieces_view(words@);
    let mut i: usize = 0;
    while i < words.len()
        invariant
            ws == pieces_view(words@),
            ws == words_from(body_of(content@), 0),
            i <= words@.len(),
            add_tags(strs(old(tags)@), ws, 0) == add_tags(strs(tags@), ws, i as int),
        decreases words@.len() - i,
    {
        let w = &words[i];
        if w.len() > 0 && w[0] == '#' {
            let rest = sub_chars(w.as_slice(), 1, w.len());
            let mut e: usize = rest.len();
            while e > 0 && is_ascii_punctuation(rest[e - 1]) && rest[e - 1] != '-' && rest[e - 1]
                != '_'
                invariant
                    e <= rest@.len(),
                    tag_end(rest@, e as int) == tag_end(rest@, rest@.len() as int),
                decreases e,
            {
                e = e - 1;
            }
            let tag = sub_chars(rest.as_slice(), 0, e);
            assert(rest@ =~= w@.skip(1));
            assert(tag@ =~= tag_of(w@));
            if tag.len() > 0 {
                let ts = string_from_chars(tag.as_slice());
                if !contains_string(tags, &ts) {
                    let ghost before = strs(tags@);
                    tags.push(ts);
                    assert(strs(tags@) =~= before.push(tag@));
                }
            }
        }
        i = i + 1;
    }
}

// ---------------------------------------------------------------------
// Fuzzy matching
// ---------------------------------------------------------------------

/// Walk `t[i..]` matching `q[qi..]` as a subsequence: each matched character
/// scores 1, or 2 when it directly follows another match. Returns the
/// number of query characters matched and the score.
pub open spec fn fuzzy_walk(q: Seq<char>, t: Seq<char>, i: int, qi: int, score: int, prev: bool) -> (
    int,
    int,
)
    decreases t.len() - i,
{
    if 0 <= i < t.len() {
        if 0 <= qi < q.len() && t[i] == q[qi] {
            fuzzy_walk(q, t, i + 1, qi + 1, score + if prev { 2int } else { 1int }, true)
        } else {
            fuzzy_walk(q, t, i + 1, qi, score, false)
        }
    } else {
        (qi, score)
    }
}

/// The fuzzy score of `t` for the query `q`: positive exactly when `q` is a
/// subsequence of `t` (1 for an empty query), higher for more adjacent
/// matches.
pub open spec fn fuzzy(q: Seq<char>, t: Seq<char>) -> int {
    if q.len() == 0 {
        1
    } else {
        let (qi, score) = fuzzy_walk(q, t, 0, 0, 0, false);
        if qi == q.len() {
            score
        } else {
            0
        }
    }
}

/// `idx` places the characters `q[qi..]` at increasing positions of `t`,
/// none before `i`.
pub open spec fn embeds_from(q: Seq<char>, t: Seq<char>, qi: int, i: int, idx: Seq<int>) -> bool {
    &&& idx.len() == q.len() - qi
    &&& forall|k: int|
        0 <= k < idx.len() ==> i <= #[trigger] idx[k] < t.len() && t[idx[k]] == q[qi + k]
    &&& forall|a: int, b: int| 0 <= a < b < idx.len() ==> idx[a] < idx[b]
}

/// The characters of `q` occur in `t` in order (`q` is a subsequence of `t`).
pub open spec fn in_order(q: Seq<char>, t: Seq<char>) -> bool {
    exists|idx: Seq<int>| embeds_from(q, t, 0, 0, idx)
}

proof fn lemma_fuzzy_walk_bounds(q: Seq<char>, t: Seq<char>, i: int, qi: int, score: int, prev: bool)
    requires
        0 <= qi <= q.len(),
    ensures
        qi <= fuzzy_walk(q, t, i, qi, score, prev).0 <= q.len(),
        fuzzy_walk(q, t, i, qi, score, prev).1 >= score + (fuzzy_walk(q, t, i, qi, score, prev).0
            - qi),
    decreases t.len() - i,
{
    if 0 <= i < t.len() {
        if 0 <= qi < q.len() && t[i] == q[qi] {
            lemma_fuzzy_walk_bounds(q, t, i + 1, qi + 1, score + if prev { 2int } else { 1int }, true);
        } else {
            lemma_fuzzy_walk_bounds(q, t, i + 1, qi, score, false);
        }
    }
}

proof fn lemma_fuzzy_walk_complete(
    q: Seq<char>,
    t: Seq<char>,
    i: int,
    qi: int,
    score: int,
    prev: bool,
    idx: Seq<int>,
)
    requires
        0 <= qi <= q.len(),
        0 <= i,
        embeds_from(q, t, qi, i, idx),
    ensures
        fuzzy_walk(q, t, i, qi, score, prev).0 == q.len(),
    decreases t.len() - i,
{
    lemma_fuzzy_walk_bounds(q, t, i, qi, score, prev);
    if qi < q.len() {
        assert(i <= idx[0] < t.len());
        if t[i] == q[qi] {
            let rest = idx.skip(1);
            assert forall|k: int| 0 <= k < rest.len() implies i + 1 <= #[trigger] rest[k] < t.len()
                && t[rest[k]] == q[qi + 1 + k] by {
                assert(rest[k] == idx[k + 1]);
                assert(idx[0] < idx[k + 1]);
            }
            assert forall|a: int, b: int| 0 <= a < b < rest.len() implies rest[a] < rest[b] by {
                assert(rest[a] == idx[a + 1] && rest[b] == idx[b + 1]);
            }
            lemma_fuzzy_walk_complete(
                q,
                t,
                i + 1,
                qi + 1,
                score + if prev { 2int } else { 1int },
                true,
                rest,
            );
        } else {
            assert(idx[0] != i);
            assert forall|k: int| 0 <= k < idx.len() implies i + 1 <= #[trigger] idx[k] by {
                if k > 0 {
                    assert(idx[0] < idx[k]);
                }
            }
            lemma_fuzzy_walk_complete(q, t, i + 1, qi, score, false, idx);
        }
    }
}

proof fn lemma_fuzzy_walk_sound(
    q: Seq<char>,
    t: Seq<char>,
    i: int,
    qi: int,
    score: int,
    prev: bool,
) -> (idx: Seq<int>)
    requires
        0 <= qi <= q.len(),
        0 <= i,
        fuzzy_walk(q, t, i, qi, score, prev).0 == q.len(),
    ensures
        embeds_from(q, t, qi, i, idx),
    decreases t.len() - i,
{
    if 0 <= i < t.len() {
        if 0 <= qi < q.len() && t[i] == q[qi] {
            let rest = lemma_fuzzy_walk_sound(
                q,
                t,
                i + 1,
                qi + 1,
                score + if prev { 2int } else { 1int },
                true,
            );
            let idx = seq![i] + rest;
            assert forall|k: int| 0 <= k < idx.len() implies i <= #[trigger] idx[k] < t.len()
                && t[idx[k]] == q[qi + k] by {
                if k > 0 {
                    assert(idx[k] == rest[k - 1]);
                }
            }
            assert forall|a: int, b: int| 0 <= a < b < idx.len() implies idx[a] < idx[b] by {
                assert(idx[b] == rest[b - 1]);
                if a > 0 {
                    assert(idx[a] == rest[a - 1]);
                }
            }
            idx
        } else {
            lemma_fuzzy_walk_sound(q, t, i + 1, qi, score, false)
        }
    } else {
        let idx = Seq::<int>::empty();
        idx
    }
}

/// A query scores above zero exactly when its characters occur in the
/// target in order.
pub proof fn law_fuzzy_matches_in_order(q: Seq<char>, t: Seq<char>)
    ensures
        fuzzy(q, t) > 0 <==> in_order(q, t),
{
    if q.len() == 0 {
        assert(embeds_from(q, t, 0, 0, Seq::<int>::empty()));
    } else {
        lemma_fuzzy_walk_bounds(q, t, 0, 0, 0, false);
        if in_order(q, t) {
            let idx = choose|idx: Seq<int>| embeds_from(q, t, 0, 0, idx);
            lemma_fuzzy_walk_complete(q, t, 0, 0, 0, false, idx);
        }
        if fuzzy(q, t) > 0 {
            let witness = lemma_fuzzy_walk_sound(q, t, 0, 0, 0, false);
            assert(embeds_from(q, t, 0, 0, witness));
        }
    }
}

proof fn lemma_fuzzy_walk_upper(q: Seq<char>, t: Seq<char>, i: int, qi: int, score: int, prev: bool)
    requires
        0 <= qi <= q.len(),
    ensures
        ({
            let (qf, sf) = fuzzy_walk(q, t, i, qi, score, prev);
            sf <= score + 2 * (qf - qi) - if qf > qi && !prev {
                1int
            } else {
                0int
            }
        }),
    decreases t.len() - i,
{
    lemma_fuzzy_walk_bounds(q, t, i, qi, score, prev);
    if 0 <= i < t.len() {
        if 0 <= qi < q.len() && t[i] == q[qi] {
            lemma_fuzzy_walk_upper(q, t, i + 1, qi + 1, score + if prev { 2int } else { 1int }, true);
        } else {
            lemma_fuzzy_walk_upper(q, t, i + 1, qi, score, false);
        }
    }
}

/// The score of a match of a query of `n > 0` characters lies between `n`
/// (no two matches adjacent) and `2n - 1` (all adjacent); an empty query
/// scores 1.
pub proof fn law_fuzzy_score_bounds(q: Seq<char>, t: Seq<char>)
    ensures
        q.len() == 0 ==> fuzzy(q, t) == 1,
        q.len() > 0 && fuzzy(q, t) > 0 ==> q.len() <= fuzzy(q, t) <= 2 * q.len() - 1,
{
    if q.len() > 0 {
        lemma_fuzzy_walk_bounds(q, t, 0, 0, 0, false);
        lemma_fuzzy_walk_upper(q, t, 0, 0, 0, false);
    }
}

/// Simple subsequence fuzzy matching; see [`fuzzy`].
pub fn fuzzy_score(query: &str, target: &str) -> (score: u128)
    ensures
        score == fuzzy(query@, target@),
{
    let q = chars_of(query);
    let t = chars_of(target);
    if q.len() == 0 {
        return 1;
    }
    let mut qi: usize = 0;
    let mut score: u128 = 0;
    let mut prev = false;
    let mut i: usize = 0;
    while i < t.len()
        invariant
            q@ == query@,
            t@ == target@,
            i <= t@.len(),
            qi <= q@.len(),
            score <= 2 * i,
            fuzzy_walk(q@, t@, 0, 0, 0, false) == fuzzy_walk(
                q@,
                t@,
                i as int,
                qi as int,
                score as int,
                prev,
            ),
        decreases t@.len() - i,
    {
        if qi < q.len() && t[i] == q[qi] {
            qi = qi + 1;
            score = score + if prev {
                2
            } else {
                1
            };
            prev = true;
        } else {
            prev = false;
        }
        i = i + 1;
    }
    if qi == q.len() {
        score
    } else {
        0
    }
}

// ---------------------------------------------------------------------
// Note metadata
// ---------------------------------------------------------------------

/// The abstract metadata of a note.
#[verifier::ext_equal]
pub struct NoteMetaView {
    pub id: Seq<char>,
    pub title: Seq<char>,
    pub modified: int,
    pub tags: Seq<Seq<char>>,
    pub aliases: Seq<Seq<char>>,
}

impl View for NoteMeta {
    type V = NoteMetaView;

    open spec fn view(&self) -> NoteMetaView {
        NoteMetaView {
            id: self.id@,
            title: self.title@,
            modified: self.modified as int,
            tags: strs(self.tags@),
            aliases: strs(self.aliases@),
        }
    }
}

/// The metadata of a note with this id, content and modification time:
/// the resolved title, the front matter tags followed by new inline tags,
/// and the front matter aliases.
pub open spec fn meta_of(id: Seq<char>, content: Seq<char>, modified: int) -> NoteMetaView {
    let fm = front_matter_of(content);
    NoteMetaView {
        id,
        title: resolved_title(fm.title, content, id),
        modified,
        tags: with_inline_tags(fm.tags, content),
        aliases: fm.aliases,
    }
}

fn copy_strings(v: &Vec<String>) -> (r: Vec<String>)
    ensures
        strs(r@) == strs(v@),
{
    let mut r: Vec<String> = Vec::new();
    let mut i: usize = 0;
    while i < v.len()
        invariant
            i <= v@.len(),
            strs(r@) == strs(v@.take(i as int)),
        decreases v@.len() - i,
    {
        let ghost old_r = r@;
        let c = v[i].clone();
        r.push(c);
        assert(v@.take(i + 1) =~= v@.take(i as int).push(v@[i as int]));
        assert(strs(r@) =~= strs(old_r).push(c@));
        assert(strs(v@.take(i + 1)) =~= strs(v@.take(i as int)).push(v@[i as int]@));
        i = i + 1;
    }
    assert(v@.take(v@.len() as int) =~= v@);
    r
}

impl NoteMeta {
    /// The metadata of a note read from a file: see [`meta_of`].
    pub fn from_content(id: &str, content: &str, modified: u128) -> (m: NoteMeta)
        ensures
            m@ == meta_of(id@, content@, modified as int),
    {
        let front = parse_front_matter(content);
        let title = resolve_title(&front, content, id);
        let mut tags = copy_strings(&front.tags);
        extract_inline_tags(content, &mut tags);
        NoteMeta { id: String::from_str(id), title, modified, tags, aliases: front.aliases }
    }

    /// A copy of this metadata.
    pub fn duplicate(&self) -> (m: NoteMeta)
        ensures
            m@ == self@,
    {
        NoteMeta {
            id: self.id.clone(),
            title: self.title.clone(),
            modified: self.modified,
            tags: copy_strings(&self.tags),
            aliases: copy_strings(&self.aliases),
        }
    }
}

impl Note {
    /// A note read from a file: its metadata (see [`meta_of`]) and content.
    pub fn from_content(id: &str, content: &str, modified: u128) -> (n: Note)
        ensures
            n.meta@ == meta_of(id@, content@, modified as int),
            n.content@ == content@,
    {
        Note { meta: NoteMeta::from_content(id, content, modified), content: String::from_str(content) }
    }
}

// ---------------------------------------------------------------------
// Stable sorting, newest or best first
// ---------------------------------------------------------------------

/// Entries whose key is `k`.
pub open spec fn key_is<A>(k: int) -> spec_fn((int, A)) -> bool {
    |x: (int, A)| x.0 == k
}

/// `output` is `input` sorted by key, largest first, with entries of equal
/// keys in their input order (a stable descending sort).
pub open spec fn stable_desc<A>(input: Seq<(int, A)>, output: Seq<(int, A)>) -> bool {
    &&& forall|i: int, j: int| 0 <= i < j < output.len() ==> output[i].0 >= output[j].0
    &&& forall|k: int| #[trigger] output.filter(key_is(k)) == input.filter(key_is(k))
}

/// The views of keyed notes.
pub open spec fn keyed_view(v: Seq<(u128, NoteMeta)>) -> Seq<(int, NoteMetaView)> {
    v.map_values(|x: (u128, NoteMeta)| (x.0 as int, x.1@))
}

pub proof fn lemma_filter_none<A>(s: Seq<A>, f: spec_fn(A) -> bool)
    requires
        forall|i: int| 0 <= i < s.len() ==> !f(#[trigger] s[i]),
    ensures
        s.filter(f) == Seq::<A>::empty(),
    decreases s.len(),
{
    reveal_with_fuel(Seq::filter, 1);
    if s.len() > 0 {
        lemma_filter_none(s.drop_last(), f);
    }
    assert(s.filter(f) =~= Seq::<A>::empty());
}

pub proof fn lemma_filter_push<A>(s: Seq<A>, x: A, f: spec_fn(A) -> bool)
    ensures
        s.push(x).filter(f) == if f(x) {
            s.filter(f).push(x)
        } else {
            s.filter(f)
        },
{
    reveal_with_fuel(Seq::filter, 1);
    assert(s.push(x).drop_last() =~= s);
}

/// Sort keyed notes by key, largest first, keeping the order of equal keys.
#[verifier::spinoff_prover]
fn sort_desc(v: Vec<(u128, NoteMeta)>) -> (r: Vec<(u128, NoteMeta)>)
    ensures
        stable_desc(keyed_view(v@), keyed_view(r@)),
        forall|m: int| 0 <= m < r@.len() ==> keyed_view(v@).contains(#[trigger] keyed_view(r@)[m]),
{
    let ghost input = keyed_view(v@);
    let mut r: Vec<(u128, NoteMeta)> = Vec::new();
    let mut i: usize = 0;
    while i < v.len()
        invariant
            input == keyed_view(v@),
            i <= v@.len(),
            forall|a: int, b: int|
                0 <= a < b < r@.len() ==> keyed_view(r@)[a].0 >= keyed_view(r@)[b].0,
            forall|k: int|
                #[trigger] keyed_view(r@).filter(key_is(k)) == input.take(i as int).filter(
                    key_is(k),
                ),
            forall|m: int| 0 <= m < r@.len() ==> input.contains(#[trigger] keyed_view(r@)[m]),
        decreases v@.len() - i,
    {
        let key = v[i].0;
        let x = (key, v[i].1.duplicate());
        let ghost xv = (key as int, x.1@);
        assert(xv == input[i as int]);
        let mut p: usize = 0;
        while p < r.len() && r[p].0 >= key
            invariant
                p <= r@.len(),
                forall|m: int| 0 <= m < p ==> keyed_view(r@)[m].0 >= key,
            decreases r@.len() - p,
        {
            p = p + 1;
        }
        let ghost old_r = keyed_view(r@);
        proof {
            assert forall|m: int| p <= m < old_r.len() implies old_r[m].0 < key by {
                if m > p {
                    assert(old_r[p as int].0 >= old_r[m].0);
                }
            }
        }
        r.insert(p, x);
        proof {
            let nr = keyed_view(r@);
            assert(nr =~= old_r.insert(p as int, xv));
            assert(nr =~= old_r.take(p as int) + seq![xv] + old_r.skip(p as int));
            assert(old_r =~= old_r.take(p as int) + old_r.skip(p as int));
            assert(input.take(i + 1) =~= input.take(i as int).push(xv));
            assert forall|k: int| #[trigger] nr.filter(key_is(k)) == input.take(i + 1).filter(
                key_is(k),
            ) by {
                let f = key_is(k);
                Seq::filter_distributes_over_add(old_r.take(p as int) + seq![xv], old_r.skip(p as int), f);
                Seq::filter_distributes_over_add(old_r.take(p as int), seq![xv], f);
                Seq::filter_distributes_over_add(old_r.take(p as int), old_r.skip(p as int), f);
                lemma_filter_push(input.take(i as int), xv, f);
                lemma_filter_push(Seq::<(int, NoteMetaView)>::empty(), xv, f);
                assert(Seq::<(int, NoteMetaView)>::empty().push(xv) =~= seq![xv]);
                reveal_with_fuel(Seq::filter, 1);
                assert(Seq::<(int, NoteMetaView)>::empty().filter(f) =~= Seq::<
                    (int, NoteMetaView),
                >::empty());
                if k == key {
                    lemma_filter_none(old_r.skip(p as int), f);
                    assert(old_r.take(p as int).filter(f) + seq![xv] + Seq::<
                        (int, NoteMetaView),
                    >::empty() =~= (old_r.take(p as int).filter(f) + Seq::<
                        (int, NoteMetaView),
                    >::empty()).push(xv));
                } else {
                    assert(old_r.take(p as int).filter(f) + Seq::<(int, NoteMetaView)>::empty()
                        =~= old_r.take(p as int).filter(f));
                }
            }
            assert forall|m: int| 0 <= m < nr.len() implies input.contains(#[trigger] nr[m]) by {
                if m < p {
                    assert(nr[m] == old_r[m]);
                } else if m > p {
                    assert(nr[m] == old_r[m - 1]);
                } else {
                    assert(input[i as int] == xv);
                }
            }
            assert forall|a: int, b: int| 0 <= a < b < nr.len() implies nr[a].0 >= nr[b].0 by {
                if b < p {
                } else if a > p {
                    assert(nr[a] == old_r[a - 1]);
                    assert(nr[b] == old_r[b - 1]);
                } else if a == p {
                    assert(nr[b] == old_r[b - 1]);
                } else if b == p {
                } else {
                    assert(nr[b] == old_r[b - 1]);
                }
            }
        }
        i = i + 1;
    }
    assert(input.take(v@.len() as int) =~= input);
    r
}

// ---------------------------------------------------------------------
// The vault
// ---------------------------------------------------------------------

/// `name` joined onto the directory `base`, as `Path::join` does on Unix:
/// an absolute `name` replaces `base`; otherwise a `/` separates them
/// unless `base` is empty or already ends with one.
pub open spec fn path_join(base: Seq<char>, name: Seq<char>) -> Seq<char> {
    if name.len() > 0 && name[0] == '/' {
        name
    } else if base.len() == 0 || base[base.len() - 1] == '/' {
        base + name
    } else {
        base + seq!['/'] + name
    }
}

/// `name` joined onto the directory `base` (`Path::join`).
pub fn join_path(base: &str, name: &str) -> (p: String)
    ensures
        p@ == path_join(base@, name@),
{
    let n = chars_of(name);
    let r = chars_of(base);
    if n.len() > 0 && n[0] == '/' {
        return String::from_str(name);
    }
    let mut p = String::from_str(base);
    if !(r.len() == 0 || r[r.len() - 1] == '/') {
        crate::text::push_char(&mut p, '/');
    }
    p.append(name);
    p
}

/// Whether `c` is alphanumeric, as `char::is_alphanumeric` decides.
pub uninterp spec fn alphanumeric(c: char) -> bool;

/// Whether `c` is alphabetic or numeric (`char::is_alphanumeric`).
#[verifier::external_body]
fn is_alphanumeric(c: char) -> (b: bool)
    ensures
        b == alphanumeric(c),
{
    c.is_alphanumeric()
}

/// A character of an id made from a title: a space becomes `-`.
pub open spec fn id_char(c: char) -> char {
    if c == ' ' {
        '-'
    } else {
        c
    }
}

/// Whether a character is kept in an id: alphanumerics and `-`.
pub open spec fn id_keeps(c: char) -> bool {
    alphanumeric(c) || c == '-'
}

/// The id made from `s[..i]`: lowercased, spaces as `-`, and only
/// alphanumerics and `-` kept.
pub open spec fn slug_prefix(s: Seq<char>, i: int) -> Seq<char>
    decreases i,
{
    if 0 < i <= s.len() {
        let rest = slug_prefix(s, i - 1);
        let d = id_char(s[i - 1]);
        if id_keeps(d) {
            rest.push(d)
        } else {
            rest
        }
    } else {
        Seq::empty()
    }
}

/// The note id for a title.
pub open spec fn slug(title: Seq<char>) -> Seq<char> {
    let l = lowercase(title);
    slug_prefix(l, l.len() as int)
}

/// The note id for a title: lowercased, spaces turned into `-`, and every
/// character that is neither alphanumeric nor `-` dropped.
pub fn note_id_from_title(title: &str) -> (id: String)
    ensures
        id@ == slug(title@),
{
    let lower = to_lowercase(title);
    let cs = chars_of(lower.as_str());
    let mut out: Vec<char> = Vec::new();
    let mut i: usize = 0;
    while i < cs.len()
        invariant
            cs@ == lowercase(title@),
            i <= cs@.len(),
            out@ == slug_prefix(cs@, i as int),
        decreases cs@.len() - i,
    {
        let c = cs[i];
        let d = if c == ' ' {
            '-'
        } else {
            c
        };
        if is_alphanumeric(d) || d == '-' {
            out.push(d);
        }
        i = i + 1;
    }
    string_from_chars(out.as_slice())
}

/// Content without a front matter block parses to empty front matter and
/// is its own body.
pub proof fn law_no_front_matter(content: Seq<char>)
    requires
        yaml_block(content) is None,
    ensures
        front_matter_of(content) == empty_front_matter(),
        body_of(content) == content,
{
    assert(content.skip(0) =~= content);
}

proof fn lemma_slug_prefix_plain(l: Seq<char>, i: int)
    requires
        0 <= i <= l.len(),
        forall|k: int| 0 <= k < l.len() ==> alphanumeric(#[trigger] l[k]) || l[k] == '-' || l[k] == ' ',
    ensures
        slug_prefix(l, i) == l.take(i).map_values(|c: char| if c == ' ' { '-' } else { c }),
    decreases i,
{
    if i > 0 {
        lemma_slug_prefix_plain(l, i - 1);
        let c = l[i - 1];
        assert(alphanumeric(c) || c == '-' || c == ' ');
        assert(l.take(i).map_values(|c: char| if c == ' ' { '-' } else { c }) =~= l.take(i - 1).map_values(
            |c: char| if c == ' ' { '-' } else { c },
        ).push(if c == ' ' { '-' } else { c }));
    } else {
        assert(l.take(0).map_values(|c: char| if c == ' ' { '-' } else { c }) =~= Seq::<char>::empty());
    }
}

/// A title made only of letters, digits, `-` and spaces becomes its
/// lowercase form with every space turned into `-`, nothing dropped.
pub proof fn law_slug_of_plain_title(title: Seq<char>)
    requires
        forall|k: int|
            0 <= k < lowercase(title).len() ==> alphanumeric(#[trigger] lowercase(title)[k])
                || lowercase(title)[k] == '-' || lowercase(title)[k] == ' ',
    ensures
        slug(title) == lowercase(title).map_values(|c: char| if c == ' ' { '-' } else { c }),
{
    let l = lowercase(title);
    lemma_slug_prefix_plain(l, l.len() as int);
    assert(l.take(l.len() as int) =~= l);
}

/// Every character of an id made from a title is alphanumeric or `-`.
pub proof fn law_slug_alphabet(title: Seq<char>)
    ensures
        forall|k: int| 0 <= k < slug(title).len() ==> id_keeps(#[trigger] slug(title)[k]),
{
    let l = lowercase(title);
    lemma_slug_prefix_alphabet(l, l.len() as int);
}

proof fn lemma_slug_prefix_alphabet(s: Seq<char>, i: int)
    ensures
        forall|k: int| 0 <= k < slug_prefix(s, i).len() ==> id_keeps(#[trigger] slug_prefix(s, i)[k]),
    decreases i,
{
    if 0 < i <= s.len() {
        lemma_slug_prefix_alphabet(s, i - 1);
        let rest = slug_prefix(s, i - 1);
        let d = id_char(s[i - 1]);
        if id_keeps(d) {
            assert forall|k: int| 0 <= k < slug_prefix(s, i).len() implies id_keeps(
                #[trigger] slug_prefix(s, i)[k],
            ) by {
                if k < rest.len() {
                    assert(slug_prefix(s, i)[k] == rest[k]);
                }
            }
        }
    }
}

/// The views of a list of notes.
pub open spec fn metas(v: Seq<NoteMeta>) -> Seq<NoteMetaView> {
    v.map_values(|n: NoteMeta| n@)
}

/// Notes keyed by `kf`.
pub open spec fn keyed_by(v: Seq<NoteMetaView>, kf: spec_fn(NoteMetaView) -> int) -> Seq<
    (int, NoteMetaView),
> {
    v.map_values(|n: NoteMetaView| (kf(n), n))
}

/// A note's modification time as its key.
pub open spec fn time_key() -> spec_fn(NoteMetaView) -> int {
    |n: NoteMetaView| n.modified
}

/// Notes keyed by modification time.
pub open spec fn by_time(v: Seq<NoteMetaView>) -> Seq<(int, NoteMetaView)> {
    keyed_by(v, time_key())
}

/// Whether a note matches a lowercase text query: by title, any tag, or id.
pub open spec fn text_match(n: NoteMetaView, q: Seq<char>) -> bool {
    ||| contains_seq(lowercase(n.title), q)
    ||| exists|i: int| 0 <= i < n.tags.len() && contains_seq(lowercase(#[trigger] n.tags[i]), q)
    ||| contains_seq(lowercase(n.id), q)
}

pub open spec fn text_match_pred(q: Seq<char>) -> spec_fn(NoteMetaView) -> bool {
    |n: NoteMetaView| text_match(n, q)
}

/// A text query finds a note by any of its fields: a note whose lowercase
/// title, lowercase id or some lowercase tag contains the query matches,
/// and a note none of whose fields contains it does not.
pub proof fn law_text_match_fields(n: NoteMetaView, q: Seq<char>, i: int)
    ensures
        contains_seq(lowercase(n.title), q) ==> text_match(n, q),
        contains_seq(lowercase(n.id), q) ==> text_match(n, q),
        0 <= i < n.tags.len() && contains_seq(lowercase(n.tags[i]), q) ==> text_match(n, q),
        !contains_seq(lowercase(n.title), q) && !contains_seq(lowercase(n.id), q) && (forall|k: int|
            0 <= k < n.tags.len() ==> !contains_seq(lowercase(#[trigger] n.tags[k]), q)) ==> !text_match(
            n,
            q,
        ),
{
}

/// The fuzzy score of a note for a lowercase query: the better of its
/// lowercase title and lowercase id.
pub open spec fn note_score(q: Seq<char>, n: NoteMetaView) -> int {
    let a = fuzzy(q, lowercase(n.title));
    let b = fuzzy(q, lowercase(n.id));
    if a >= b {
        a
    } else {
        b
    }
}

pub open spec fn scored_pred(q: Seq<char>) -> spec_fn(NoteMetaView) -> bool {
    |n: NoteMetaView| note_score(q, n) > 0
}

/// The notes of `ns[..i]` that score zero for the lowercase query `q`
/// but whose lowercased content (`cs`, one per note) contains it, in order.
pub open spec fn content_hits(
    q: Seq<char>,
    ns: Seq<NoteMetaView>,
    cs: Seq<Seq<char>>,
    i: int,
) -> Seq<NoteMetaView>
    decreases i,
{
    if 0 < i <= ns.len() {
        let rest = content_hits(q, ns, cs, i - 1);
        if note_score(q, ns[i - 1]) == 0 && contains_seq(lowercase(cs[i - 1]), q) {
            rest.push(ns[i - 1])
        } else {
            rest
        }
    } else {
        Seq::empty()
    }
}

/// The fuzzy score of the note `n` for the lowercase query `q`.
fn score_note(n: &NoteMeta, q: &str) -> (score: u128)
    ensures
        score == note_score(q@, n@),
{
    let lt = to_lowercase(n.title.as_str());
    let li = to_lowercase(n.id.as_str());
    let a = fuzzy_score(q, lt.as_str());
    let b = fuzzy_score(q, li.as_str());
    if a >= b {
        a
    } else {
        b
    }
}

/// A note's fuzzy score as its key.
pub open spec fn score_key(q: Seq<char>) -> spec_fn(NoteMetaView) -> int {
    |n: NoteMetaView| note_score(q, n)
}

/// The notes that score above zero for the query, keyed by their score.
pub open spec fn by_score(q: Seq<char>, v: Seq<NoteMetaView>) -> Seq<(int, NoteMetaView)> {
    keyed_by(v.filter(scored_pred(q)), score_key(q))
}

/// The content of a new note: front matter with its title and tags, a
/// heading with its title, and the body.
pub open spec fn note_template(title: Seq<char>, tags: Seq<char>, body: Seq<char>) -> Seq<char> {
    "---\ntitle: "@ + title + "\ntags: "@ + tags + "\n---\n\n# "@ + title + "\n\n"@ + body
}

/// Tags as an inline YAML list: `[]`, or `[a, b]`.
pub open spec fn tag_list(tags: Seq<Seq<char>>) -> Seq<char> {
    "["@ + join_comma(tags, 0) + "]"@
}

/// `tags[i..]` joined with `", "`.
pub open spec fn join_comma(tags: Seq<Seq<char>>, i: int) -> Seq<char>
    decreases tags.len() - i,
{
    if 0 <= i < tags.len() {
        if i + 1 < tags.len() {
            tags[i] + ", "@ + join_comma(tags, i + 1)
        } else {
            tags[i]
        }
    } else {
        Seq::empty()
    }
}

/// The content of a new note with a title, tags and a body.
pub fn new_note_content(title: &str, tags: &[String], body: &str) -> (c: String)
    ensures
        c@ == note_template(title@, tag_list(strs(tags@)), body@),
{
    let mut list = String::from_str("[");
    let mut i: usize = 0;
    let ghost ts = strs(tags@);
    while i < tags.len()
        invariant
            ts == strs(tags@),
            i <= tags@.len(),
            list@ + join_comma(ts, i as int) == "["@ + join_comma(ts, 0),
        decreases tags@.len() - i,
    {
        let ghost before = list@;
        list.append(tags[i].as_str());
        if i + 1 < tags.len() {
            list.append(", ");
            assert(before + join_comma(ts, i as int) =~= list@ + join_comma(ts, i + 1));
        } else {
            assert(join_comma(ts, i + 1) =~= Seq::<char>::empty());
            assert(before + join_comma(ts, i as int) =~= list@ + join_comma(ts, i + 1));
        }
        i = i + 1;
    }
    assert(join_comma(ts, i as int) =~= Seq::<char>::empty());
    assert(list@ =~= "["@ + join_comma(ts, 0));
    list.append("]");
    let mut c = String::from_str("---\ntitle: ");
    c.append(title);
    c.append("\ntags: ");
    c.append(list.as_str());
    c.append("\n---\n\n# ");
    c.append(title);
    c.append("\n\n");
    c.append(body);
    c
}

/// A filesystem-backed note vault, by its root directory.
pub struct Vault {
    root: String,
}

impl Vault {
    /// A vault rooted at `root`.
    pub fn with_root(root: &str) -> (v: Vault)
        ensures
            v.root_view() == root@,
    {
        Vault { root: String::from_str(root) }
    }

    /// The root directory.
    pub closed spec fn root_view(&self) -> Seq<char> {
        self.root@
    }

    /// The vault root path.
    pub fn root(&self) -> (r: &str)
        ensures
            r@ == self.root_view(),
    {
        self.root.as_str()
    }

    /// The file of the note `id`: `<root>/<id>.md`.
    pub fn id_to_path(&self, id: &str) -> (p: String)
        ensures
            p@ == path_join(self.root_view(), id@ + ".md"@),
    {
        let mut name = String::from_str(id);
        name.append(".md");
        join_path(self.root.as_str(), name.as_str())
    }

    /// Order a vault listing newest first (a stable sort by modification
    /// time).
    pub fn list_notes(scanned: Vec<NoteMeta>) -> (r: Vec<NoteMeta>)
        ensures
            stable_desc(by_time(metas(scanned@)), by_time(metas(r@))),
    {
        let keyed = key_by_time(&scanned);
        let sorted = sort_desc(keyed);
        proof {
            assert forall|m: int| 0 <= m < sorted@.len() implies (#[trigger] keyed_view(sorted@)[m]).0
                == keyed_view(sorted@)[m].1.modified by {
                let x = keyed_view(sorted@)[m];
                assert(by_time(metas(scanned@)).contains(x));
                let i = choose|i: int|
                    0 <= i < by_time(metas(scanned@)).len() && by_time(metas(scanned@))[i] == x;
            }
        }
        drop_keys(sorted, Ghost(time_key()))
    }

    /// The notes whose title, id or some tag contains the query,
    /// case-insensitively, in order (a simple text search for when the
    /// full-text index is unavailable).
    pub fn search_text(notes: Vec<NoteMeta>, query: &str) -> (r: Vec<NoteMeta>)
        ensures
            metas(r@) == metas(notes@).filter(text_match_pred(lowercase(query@))),
    {
        let q = to_lowercase(query);
        let qv = chars_of(q.as_str());
        let mut r: Vec<NoteMeta> = Vec::new();
        let mut i: usize = 0;
        while i < notes.len()
            invariant
                qv@ == lowercase(query@),
                i <= notes@.len(),
                metas(r@) == metas(notes@.take(i as int)).filter(text_match_pred(qv@)),
            decreases notes@.len() - i,
        {
            let n = &notes[i];
            let hit = note_matches_text(n, qv.as_slice());
            let ghost before = metas(r@);
            proof {
                reveal_with_fuel(Seq::filter, 1);
                assert(notes@.take(i + 1) =~= notes@.take(i as int).push(notes@[i as int]));
                assert(metas(notes@.take(i + 1)) =~= metas(notes@.take(i as int)).push(n@));
                assert(metas(notes@.take(i + 1)).drop_last() =~= metas(notes@.take(i as int)));
            }
            if hit {
                r.push(n.duplicate());
                assert(metas(r@) =~= before.push(n@));
            }
            i = i + 1;
        }
        assert(notes@.take(notes@.len() as int) =~= notes@);
        r
    }

    /// Fuzzy match notes by title and id: an empty query keeps the listing;
    /// otherwise the notes that match, best first (a stable sort by score).
    pub fn fuzzy_find(notes: Vec<NoteMeta>, query: &str) -> (r: Vec<NoteMeta>)
        ensures
            query@.len() == 0 ==> metas(r@) == metas(notes@),
            query@.len() > 0 ==> stable_desc(
                by_score(lowercase(query@), metas(notes@)),
                keyed_by(metas(r@), score_key(lowercase(query@))),
            ),
    {
        if query.is_empty() {
            return notes;
        }
        let q = to_lowercase(query);
        let ghost lq = q@;
        let mut keyed: Vec<(u128, NoteMeta)> = Vec::new();
        let mut i: usize = 0;
        while i < notes.len()
            invariant
                q@ == lq,
                i <= notes@.len(),
                keyed_view(keyed@) == keyed_by(
                    metas(notes@.take(i as int)).filter(scored_pred(lq)),
                    score_key(lq),
                ),
            decreases notes@.len() - i,
        {
            let n = &notes[i];
            let score = score_note(n, q.as_str());
            let ghost before = keyed_view(keyed@);
            proof {
                reveal_with_fuel(Seq::filter, 1);
                assert(notes@.take(i + 1) =~= notes@.take(i as int).push(notes@[i as int]));
                assert(metas(notes@.take(i + 1)) =~= metas(notes@.take(i as int)).push(n@));
                assert(metas(notes@.take(i + 1)).drop_last() =~= metas(notes@.take(i as int)));
            }
            if score > 0 {
                keyed.push((score, n.duplicate()));
                proof {
                    let f = metas(notes@.take(i as int)).filter(scored_pred(lq));
                    assert(metas(notes@.take(i + 1)).filter(scored_pred(lq)) == f.push(n@));
                    assert(keyed_view(keyed@) =~= before.push((score as int, n@)));
                    assert(keyed_by(f.push(n@), score_key(lq)) =~= keyed_by(f, score_key(lq)).push(
                        (score as int, n@),
                    ));
                }
            }
            i = i + 1;
        }
        assert(notes@.take(notes@.len() as int) =~= notes@);
        let sorted = sort_desc(keyed);
        proof {
            let input = keyed_by(metas(notes@).filter(scored_pred(lq)), score_key(lq));
            assert forall|m: int| 0 <= m < sorted@.len() implies (#[trigger] keyed_view(sorted@)[m]).0
                == score_key(lq)(keyed_view(sorted@)[m].1) by {
                let x = keyed_view(sorted@)[m];
                assert(input.contains(x));
                let i = choose|i: int| 0 <= i < input.len() && input[i] == x;
            }
        }
        drop_keys(sorted, Ghost(score_key(lq)))
    }

    /// Search notes by title and content: an empty query keeps the
    /// listing; otherwise the fuzzy matches of titles and ids, best first as
    /// [`Vault::fuzzy_find`] orders them, followed by the other notes whose
    /// content contains the query case-insensitively, in listing order.
    /// `contents[i]` is the content of `notes[i]`.
    pub fn search_notes(notes: Vec<NoteMeta>, contents: &[String], query: &str) -> (r: Vec<
        NoteMeta,
    >)
        requires
            contents@.len() == notes@.len(),
        ensures
            query@.len() == 0 ==> metas(r@) == metas(notes@),
            query@.len() > 0 ==> exists|fz: Seq<NoteMetaView>|
                {
                    &&& stable_desc(
                        by_score(lowercase(query@), metas(notes@)),
                        keyed_by(fz, score_key(lowercase(query@))),
                    )
                    &&& metas(r@) == fz + content_hits(
                        lowercase(query@),
                        metas(notes@),
                        strs(contents@),
                        notes@.len() as int,
                    )
                },
    {
        if query.is_empty() {
            return notes;
        }
        let q = to_lowercase(query);
        let qv = chars_of(q.as_str());
        let ghost lq = q@;
        let ghost ns = metas(notes@);
        let ghost cs = strs(contents@);
        let mut extra: Vec<NoteMeta> = Vec::new();
        let mut i: usize = 0;
        while i < notes.len()
            invariant
                q@ == lq,
                qv@ == lq,
                ns == metas(notes@),
                cs == strs(contents@),
                contents@.len() == notes@.len(),
                i <= notes@.len(),
                metas(extra@) == content_hits(lq, ns, cs, i as int),
            decreases notes@.len() - i,
        {
            let n = &notes[i];
            let score = score_note(n, q.as_str());
            let lc = to_lowercase(contents[i].as_str());
            let cv = chars_of(lc.as_str());
            let hit = contains_chars(cv.as_slice(), qv.as_slice());
            let ghost before = metas(extra@);
            assert(ns[i as int] == n@);
            assert(cs[i as int] == contents@[i as int]@);
            if score == 0 && hit {
                extra.push(n.duplicate());
                assert(metas(extra@) =~= before.push(n@));
            }
            i = i + 1;
        }
        let found = Self::fuzzy_find(notes, query);
        let mut r = found;
        let ghost fz = metas(r@);
        let mut j: usize = 0;
        while j < extra.len()
            invariant
                j <= extra@.len(),
                metas(r@) == fz + metas(extra@).take(j as int),
            decreases extra@.len() - j,
        {
            let ghost before = metas(r@);
            r.push(extra[j].duplicate());
            assert(metas(r@) =~= before.push(extra@[j as int]@));
            assert(metas(extra@).take(j + 1) =~= metas(extra@).take(j as int).push(extra@[j as int]@));
            assert(metas(r@) =~= fz + metas(extra@).take(j + 1));
            j = j + 1;
        }
        assert(metas(extra@).take(extra@.len() as int) =~= metas(extra@));
        r
    }

    /// The first `limit` results (20 when no limit is given).
    pub fn limit_results(results: Vec<NoteMeta>, limit: Option<usize>) -> (r: Vec<NoteMeta>)
        ensures
            ({
                let n = match limit {
                    Some(l) => l as int,
                    None => 20,
                };
                metas(r@) == metas(results@).take(if n < results@.len() { n } else { results@.len() as int })
            }),
    {
        let n = match limit {
            Some(l) => l,
            None => 20,
        };
        let mut r: Vec<NoteMeta> = Vec::new();
        let mut i: usize = 0;
        while i < results.len() && i < n
            invariant
                i <= results@.len(),
                i <= n,
                metas(r@) == metas(results@).take(i as int),
            decreases results@.len() - i,
        {
            let ghost before = r@;
            let m = results[i].duplicate();
            r.push(m);
            assert(r@ =~= before.push(m));
            assert(metas(r@) =~= metas(before).push(m@));
            assert(metas(results@)[i as int] == results@[i as int]@);
            assert(metas(r@) =~= metas(results@).take(i + 1));
            i = i + 1;
        }
        r
    }

    /// Build a map from lowercased id, title and aliases to note id, for
    /// link resolution. Later notes overwrite earlier ones on a clash.
    pub fn build_title_map(notes: &[NoteMeta]) -> (m: TitleMap)
        ensures
            m.wf(),
            m@ == title_map_of(metas(notes@), 0, Map::empty()),
    {
        let mut m = TitleMap::new();
        let ghost ns = metas(notes@);
        let mut i: usize = 0;
        while i < notes.len()
            invariant
                ns == metas(notes@),
                i <= notes@.len(),
                m.wf(),
                title_map_of(ns, 0, Map::empty()) == title_map_of(ns, i as int, m@),
            decreases notes@.len() - i,
        {
            let n = &notes[i];
            m.insert(to_lowercase(n.id.as_str()), n.id.clone());
            m.insert(to_lowercase(n.title.as_str()), n.id.clone());
            let mut j: usize = 0;
            let ghost after_title = m@;
            while j < n.aliases.len()
                invariant
                    m.wf(),
                    j <= n.aliases@.len(),
                    add_aliases(after_title, strs(n.aliases@), 0, n.id@) == add_aliases(
                        m@,
                        strs(n.aliases@),
                        j as int,
                        n.id@,
                    ),
                decreases n.aliases@.len() - j,
            {
                m.insert(to_lowercase(n.aliases[j].as_str()), n.id.clone());
                j = j + 1;
            }
            assert(ns[i as int] == n@);
            i = i + 1;
        }
        m
    }

    /// A new note with the given id and title, modified at `modified`: its
    /// content is front matter with the title and no tags, then a heading.
    pub fn create_note(id: &str, title: &str, modified: u128) -> (n: Note)
        ensures
            n.content@ == note_template(title@, tag_list(Seq::empty()), ""@),
            n.meta@.id == id@,
            n.meta@.title == title@,
            n.meta@.modified == modified,
            n.meta@.tags.len() == 0,
            n.meta@.aliases.len() == 0,
    {
        let no_tags: Vec<String> = Vec::new();
        assert(strs(no_tags@) =~= Seq::<Seq<char>>::empty());
        let content = new_note_content(title, no_tags.as_slice(), "");
        let meta = NoteMeta {
            id: String::from_str(id),
            title: String::from_str(title),
            modified,
            tags: Vec::new(),
            aliases: Vec::new(),
        };
        Note { meta, content }
    }
}

/// Whether the note's title, some tag, or its id contains the lowercase
/// query `q`, case-insensitively.
fn note_matches_text(n: &NoteMeta, q: &[char]) -> (b: bool)
    ensures
        b == text_match(n@, q@),
{
    let t = chars_of(to_lowercase(n.title.as_str()).as_str());
    if contains_chars(t.as_slice(), q) {
        return true;
    }
    let mut k: usize = 0;
    while k < n.tags.len()
        invariant
            k <= n.tags@.len(),
            forall|m: int| 0 <= m < k ==> !contains_seq(lowercase(#[trigger] n@.tags[m]), q@),
        decreases n.tags@.len() - k,
    {
        let tv = chars_of(to_lowercase(n.tags[k].as_str()).as_str());
        if contains_chars(tv.as_slice(), q) {
            assert(n@.tags[k as int] == n.tags@[k as int]@);
            return true;
        }
        assert(n@.tags[k as int] == n.tags@[k as int]@);
        k = k + 1;
    }
    let idv = chars_of(to_lowercase(n.id.as_str()).as_str());
    contains_chars(idv.as_slice(), q)
}

/// The title map after adding `aliases[j..]` for the note `id`.
pub open spec fn add_aliases(
    m: Map<Seq<char>, Seq<char>>,
    aliases: Seq<Seq<char>>,
    j: int,
    id: Seq<char>,
) -> Map<Seq<char>, Seq<char>>
    decreases aliases.len() - j,
{
    if 0 <= j < aliases.len() {
        add_aliases(m.insert(lowercase(aliases[j]), id), aliases, j + 1, id)
    } else {
        m
    }
}

/// The title map after adding one note: its id, title, then aliases, each
/// lowercased, mapping to the id.
pub open spec fn add_note(m: Map<Seq<char>, Seq<char>>, n: NoteMetaView) -> Map<Seq<char>, Seq<char>> {
    add_aliases(m.insert(lowercase(n.id), n.id).insert(lowercase(n.title), n.id), n.aliases, 0, n.id)
}

/// The title map after adding `notes[i..]` in order.
pub open spec fn title_map_of(notes: Seq<NoteMetaView>, i: int, m: Map<Seq<char>, Seq<char>>) -> Map<
    Seq<char>,
    Seq<char>,
>
    decreases notes.len() - i,
{
    if 0 <= i < notes.len() {
        title_map_of(notes, i + 1, add_note(m, notes[i]))
    } else {
        m
    }
}

proof fn lemma_add_aliases_keys(
    m: Map<Seq<char>, Seq<char>>,
    aliases: Seq<Seq<char>>,
    j: int,
    id: Seq<char>,
    k: Seq<char>,
)
    requires
        m.contains_key(k),
    ensures
        add_aliases(m, aliases, j, id).contains_key(k),
    decreases aliases.len() - j,
{
    if 0 <= j < aliases.len() {
        lemma_add_aliases_keys(m.insert(lowercase(aliases[j]), id), aliases, j + 1, id, k);
    }
}

proof fn lemma_title_map_keeps(
    notes: Seq<NoteMetaView>,
    i: int,
    m: Map<Seq<char>, Seq<char>>,
    k: Seq<char>,
)
    requires
        m.contains_key(k),
    ensures
        title_map_of(notes, i, m).contains_key(k),
    decreases notes.len() - i,
{
    if 0 <= i < notes.len() {
        let n = notes[i];
        let m1 = m.insert(lowercase(n.id), n.id).insert(lowercase(n.title), n.id);
        lemma_add_aliases_keys(m1, n.aliases, 0, n.id, k);
        lemma_title_map_keeps(notes, i + 1, add_note(m, n), k);
    }
}

proof fn lemma_title_map_has(notes: Seq<NoteMetaView>, j: int, m: Map<Seq<char>, Seq<char>>, i: int)
    requires
        0 <= j <= i < notes.len(),
    ensures
        title_map_of(notes, j, m).contains_key(lowercase(notes[i].id)),
        title_map_of(notes, j, m).contains_key(lowercase(notes[i].title)),
    decreases i - j,
{
    if j < i {
        lemma_title_map_has(notes, j + 1, add_note(m, notes[j]), i);
    } else {
        let n = notes[i];
        let m1 = m.insert(lowercase(n.id), n.id).insert(lowercase(n.title), n.id);
        lemma_add_aliases_keys(m1, n.aliases, 0, n.id, lowercase(n.id));
        lemma_add_aliases_keys(m1, n.aliases, 0, n.id, lowercase(n.title));
        lemma_title_map_keeps(notes, i + 1, add_note(m, n), lowercase(n.id));
        lemma_title_map_keeps(notes, i + 1, add_note(m, n), lowercase(n.title));
    }
}

/// Every note can be found in the title map by its id and by its title,
/// ignoring case.
pub proof fn law_title_map_covers(notes: Seq<NoteMetaView>)
    ensures
        forall|i: int|
            0 <= i < notes.len() ==> #[trigger] title_map_of(notes, 0, Map::empty()).contains_key(
                lowercase(notes[i].id),
            ) && title_map_of(notes, 0, Map::empty()).contains_key(lowercase(notes[i].title)),
{
    assert forall|i: int| 0 <= i < notes.len() implies #[trigger] title_map_of(
        notes,
        0,
        Map::empty(),
    ).contains_key(lowercase(notes[i].id)) && title_map_of(notes, 0, Map::empty()).contains_key(
        lowercase(notes[i].title),
    ) by {
        lemma_title_map_has(notes, 0, Map::empty(), i);
    }
}

/// Every value of `m` is the id of one of `notes`.
pub open spec fn values_are_ids(m: Map<Seq<char>, Seq<char>>, notes: Seq<NoteMetaView>) -> bool {
    forall|k: Seq<char>|
        m.contains_key(k) ==> exists|i: int| 0 <= i < notes.len() && m[k] == #[trigger] notes[i].id
}

proof fn lemma_add_aliases_values(
    m: Map<Seq<char>, Seq<char>>,
    aliases: Seq<Seq<char>>,
    j: int,
    notes: Seq<NoteMetaView>,
    i: int,
)
    requires
        values_are_ids(m, notes),
        0 <= i < notes.len(),
    ensures
        values_are_ids(add_aliases(m, aliases, j, notes[i].id), notes),
    decreases aliases.len() - j,
{
    if 0 <= j < aliases.len() {
        let m2 = m.insert(lowercase(aliases[j]), notes[i].id);
        assert forall|k: Seq<char>| m2.contains_key(k) implies exists|x: int|
            0 <= x < notes.len() && m2[k] == #[trigger] notes[x].id by {
            if k != lowercase(aliases[j]) {
                assert(m.contains_key(k));
            }
        }
        lemma_add_aliases_values(m2, aliases, j + 1, notes, i);
    }
}

proof fn lemma_title_map_values(notes: Seq<NoteMetaView>, i: int, m: Map<Seq<char>, Seq<char>>)
    requires
        values_are_ids(m, notes),
    ensures
        values_are_ids(title_map_of(notes, i, m), notes),
    decreases notes.len() - i,
{
    if 0 <= i < notes.len() {
        let n = notes[i];
        let m1 = m.insert(lowercase(n.id), n.id).insert(lowercase(n.title), n.id);
        assert forall|k: Seq<char>| m1.contains_key(k) implies exists|x: int|
            0 <= x < notes.len() && m1[k] == #[trigger] notes[x].id by {
            if k != lowercase(n.id) && k != lowercase(n.title) {
                assert(m.contains_key(k));
            }
        }
        lemma_add_aliases_values(m1, n.aliases, 0, notes, i);
        lemma_title_map_values(notes, i + 1, add_note(m, n));
    }
}

proof fn lemma_add_aliases_has(
    m: Map<Seq<char>, Seq<char>>,
    aliases: Seq<Seq<char>>,
    j: int,
    id: Seq<char>,
    a: int,
)
    requires
        0 <= j <= a < aliases.len(),
    ensures
        add_aliases(m, aliases, j, id).contains_key(lowercase(aliases[a])),
    decreases aliases.len() - j,
{
    if j < a {
        lemma_add_aliases_has(m.insert(lowercase(aliases[j]), id), aliases, j + 1, id, a);
    } else {
        lemma_add_aliases_keys(
            m.insert(lowercase(aliases[j]), id),
            aliases,
            j + 1,
            id,
            lowercase(aliases[a]),
        );
    }
}

proof fn lemma_title_map_has_alias(
    notes: Seq<NoteMetaView>,
    j: int,
    m: Map<Seq<char>, Seq<char>>,
    i: int,
    a: int,
)
    requires
        0 <= j <= i < notes.len(),
        0 <= a < notes[i].aliases.len(),
    ensures
        title_map_of(notes, j, m).contains_key(lowercase(notes[i].aliases[a])),
    decreases i - j,
{
    if j < i {
        lemma_title_map_has_alias(notes, j + 1, add_note(m, notes[j]), i, a);
    } else {
        let n = notes[i];
        let m1 = m.insert(lowercase(n.id), n.id).insert(lowercase(n.title), n.id);
        lemma_add_aliases_has(m1, n.aliases, 0, n.id, a);
        lemma_title_map_keeps(notes, i + 1, add_note(m, n), lowercase(n.aliases[a]));
    }
}

/// The title map finds every note by each of its aliases too, ignoring
/// case, and everything it maps to is the id of one of the notes.
pub proof fn law_title_map_aliases_and_ids(notes: Seq<NoteMetaView>)
    ensures
        forall|i: int, a: int|
            0 <= i < notes.len() && 0 <= a < notes[i].aliases.len() ==> title_map_of(
                notes,
                0,
                Map::empty(),
            ).contains_key(lowercase(#[trigger] notes[i].aliases[a])),
        values_are_ids(title_map_of(notes, 0, Map::empty()), notes),
{
    assert forall|i: int, a: int|
        0 <= i < notes.len() && 0 <= a < notes[i].aliases.len() implies title_map_of(
        notes,
        0,
        Map::empty(),
    ).contains_key(lowercase(#[trigger] notes[i].aliases[a])) by {
        lemma_title_map_has_alias(notes, 0, Map::empty(), i, a);
    }
    lemma_title_map_values(notes, 0, Map::empty());
}

/// Notes keyed by their modification time.
fn key_by_time(scanned: &Vec<NoteMeta>) -> (keyed: Vec<(u128, NoteMeta)>)
    ensures
        keyed_view(keyed@) == by_time(metas(scanned@)),
{
    let mut keyed: Vec<(u128, NoteMeta)> = Vec::new();
    let mut i: usize = 0;
    while i < scanned.len()
        invariant
            i <= scanned@.len(),
            keyed_view(keyed@) == by_time(metas(scanned@.take(i as int))),
        decreases scanned@.len() - i,
    {
        let ghost before = keyed_view(keyed@);
        let n = scanned[i].duplicate();
        let ghost nv = n@;
        keyed.push((scanned[i].modified, n));
        proof {
            assert(keyed_view(keyed@) =~= before.push((nv.modified, nv)));
            assert(scanned@.take(i + 1) =~= scanned@.take(i as int).push(scanned@[i as int]));
            assert(metas(scanned@.take(i + 1)) =~= metas(scanned@.take(i as int)).push(nv));
            assert(by_time(metas(scanned@.take(i + 1))) =~= by_time(
                metas(scanned@.take(i as int)),
            ).push((nv.modified, nv)));
        }
        i = i + 1;
    }
    assert(scanned@.take(scanned@.len() as int) =~= scanned@);
    keyed
}

/// The notes of a keyed list whose keys are given by `kf`.
fn drop_keys(sorted: Vec<(u128, NoteMeta)>, Ghost(kf): Ghost<spec_fn(NoteMetaView) -> int>) -> (r: Vec<
    NoteMeta,
>)
    requires
        forall|m: int|
            0 <= m < sorted@.len() ==> (#[trigger] keyed_view(sorted@)[m]).0 == kf(
                keyed_view(sorted@)[m].1,
            ),
    ensures
        keyed_by(metas(r@), kf) == keyed_view(sorted@),
{
    let mut r: Vec<NoteMeta> = Vec::new();
    let mut j: usize = 0;
    while j < sorted.len()
        invariant
            j <= sorted@.len(),
            keyed_by(metas(r@), kf) == keyed_view(sorted@.take(j as int)),
            forall|m: int|
                0 <= m < sorted@.len() ==> (#[trigger] keyed_view(sorted@)[m]).0 == kf(
                    keyed_view(sorted@)[m].1,
                ),
        decreases sorted@.len() - j,
    {
        let ghost before = metas(r@);
        let n = sorted[j].1.duplicate();
        let ghost nv = n@;
        r.push(n);
        proof {
            assert(keyed_view(sorted@)[j as int].0 == kf(nv));
            assert(metas(r@) =~= before.push(nv));
            assert(keyed_by(metas(r@), kf) =~= keyed_by(before, kf).push((kf(nv), nv)));
            assert(sorted@.take(j + 1) =~= sorted@.take(j as int).push(sorted@[j as int]));
            assert(keyed_view(sorted@.take(j + 1)) =~= keyed_view(sorted@.take(j as int)).push(
                keyed_view(sorted@)[j as int],
            ));
        }
        j = j + 1;
    }
    assert(sorted@.take(sorted@.len() as int) =~= sorted@);
    r
}

} // verus!
