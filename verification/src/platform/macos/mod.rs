//! Filesystem-backed note storage: the decisions it makes about the notes
//! it reads.  Reading and writing the files is the application's part.

use crate::notes::{
    join_path, key_is, lemma_filter_none, lemma_filter_push, path_join, stable_desc, strs,
};
use crate::platform::{NoteMeta, StoredMetaView};
use crate::text::{
    chars_of, contains_chars, contains_seq, lowercase, pieces_view, split_chars, split_on,
    starts_with, starts_with_chars, string_from_chars, sub_chars, to_lowercase, trim, trim_chars,
};
use vstd::prelude::*;
use vstd::string::{StrSliceExecFns, StringExecFns};

verus! {

broadcast use vstd::seq_lib::group_seq_properties;

/// Note storage in a directory of markdown files.
pub struct MacOSNoteStorage {
    notes_dir: String,
}

/// The title of a stored note, from `lines[i..]`: the text after the first
/// `# ` heading, or the first non-empty line cut to 80 characters, or
/// `Untitled`.
pub open spec fn stored_title_from(lines: Seq<Seq<char>>, i: int) -> Seq<char>
    decreases lines.len() - i,
{
    if 0 <= i < lines.len() {
        let t = trim(lines[i]);
        if starts_with(t, "# "@) {
            t.skip(2)
        } else if t.len() > 0 {
            t.take(if t.len() < 80 { t.len() as int } else { 80 })
        } else {
            stored_title_from(lines, i + 1)
        }
    } else {
        "Untitled"@
    }
}

/// The rest of the first line in `lines[i..]` that starts with `tags:`
/// once trimmed.
pub open spec fn tag_line_from(lines: Seq<Seq<char>>, i: int) -> Option<Seq<char>>
    decreases lines.len() - i,
{
    if 0 <= i < lines.len() {
        let t = trim(lines[i]);
        if starts_with(t, "tags:"@) {
            Some(t.skip(5))
        } else {
            tag_line_from(lines, i + 1)
        }
    } else {
        None
    }
}

/// The non-empty trimmed pieces of `parts[..i]`, in order.
pub open spec fn nonempty_trimmed(parts: Seq<Seq<char>>, i: int) -> Seq<Seq<char>>
    decreases i,
{
    if 0 < i <= parts.len() {
        let rest = nonempty_trimmed(parts, i - 1);
        let t = trim(parts[i - 1]);
        if t.len() > 0 {
            rest.push(t)
        } else {
            rest
        }
    } else {
        Seq::empty()
    }
}

/// The tags of a stored note: the comma-separated, trimmed, non-empty
/// items of its first `tags:` line.
pub open spec fn stored_tags(content: Seq<char>) -> Seq<Seq<char>> {
    match tag_line_from(split_on(content, '\n'), 0) {
        Some(rest) => {
            let parts = split_on(rest, ',');
            nonempty_trimmed(parts, parts.len() as int)
        },
        None => Seq::empty(),
    }
}

/// Whether a listed note matches a lowercased query: by its title or one of
/// its tags, ignoring case.
pub open spec fn stored_match(n: StoredMetaView, q: Seq<char>) -> bool {
    ||| contains_seq(lowercase(n.title), q)
    ||| exists|i: int| 0 <= i < n.tags.len() && contains_seq(lowercase(#[trigger] n.tags[i]), q)
}

pub open spec fn stored_match_pred(q: Seq<char>) -> spec_fn(StoredMetaView) -> bool {
    |n: StoredMetaView| stored_match(n, q)
}

/// The views of a list of stored notes.
pub open spec fn stored_views(v: Seq<NoteMeta>) -> Seq<StoredMetaView> {
    v.map_values(|n: NoteMeta| n@)
}

/// Stored notes keyed by modification time.
pub open spec fn stored_by_time(v: Seq<StoredMetaView>) -> Seq<(int, StoredMetaView)> {
    v.map_values(|n: StoredMetaView| (n.modified, n))
}

fn copy_strings(v: &Vec<String>) -> (r: Vec<String>)
    ensures
        strs(r@) == strs(v@),
{
    let mut r: Vec<String> = Vec::new();
    let mut i: usize = 0;
    while i < v.len()
        invariant
            i <= v@.len(),
            strs(r@) == strs(v@.take(i as int)),
        decreases v@.len() - i,
    {
        let ghost old_r = r@;
        let c = v[i].clone();
        r.push(c);
        assert(v@.take(i + 1) =~= v@.take(i as int).push(v@[i as int]));
        assert(strs(r@) =~= strs(old_r).push(c@));
        assert(strs(v@.take(i + 1)) =~= strs(v@.take(i as int)).push(v@[i as int]@));
        i = i + 1;
    }
    assert(v@.take(v@.len() as int) =~= v@);
    r
}

impl NoteMeta {
    /// A copy of this metadata.
    pub fn duplicate(&self) -> (m: NoteMeta)
        ensures
            m@ == self@,
    {
        NoteMeta {
            id: self.id.clone(),
            title: self.title.clone(),
            modified: self.modified,
            tags: copy_strings(&self.tags),
        }
    }
}

impl MacOSNoteStorage {
    /// Storage for the notes in `notes_dir`.  The directory itself is
    /// created by the caller.
    pub fn new(notes_dir: &str) -> (s: Self)
        ensures
            s.dir_view() == notes_dir@,
    {
        Self { notes_dir: String::from_str(notes_dir) }
    }

    /// The notes directory.
    pub closed spec fn dir_view(&self) -> Seq<char> {
        self.notes_dir@
    }

    /// The notes directory.
    pub fn notes_dir(&self) -> (d: &str)
        ensures
            d@ == self.dir_view(),
    {
        self.notes_dir.as_str()
    }

    /// The file of the note `id`: `<notes_dir>/<id>.md`.
    pub fn note_path(&self, id: &str) -> (p: String)
        ensures
            p@ == path_join(self.dir_view(), id@ + ".md"@),
    {
        let mut name = String::from_str(id);
        name.append(".md");
        join_path(self.notes_dir.as_str(), name.as_str())
    }

    /// The title of a note: its first `# ` heading or first non-empty line.
    pub fn extract_title(content: &str) -> (t: String)
        ensures
            t@ == stored_title_from(split_on(content@, '\n'), 0),
    {
        let heading = chars_of("# ");
        proof {
            reveal_strlit("# ");
        }
        let c = chars_of(content);
        let lines = split_chars(c.as_slice(), '\n');
        let ghost ls = pieces_view(lines@);
        let mut i: usize = 0;
        while i < lines.len()
            invariant
                heading@ == "# "@,
                heading@.len() == 2,
                ls == pieces_view(lines@),
                ls == split_on(content@, '\n'),
                i <= lines@.len(),
                stored_title_from(ls, 0) == stored_title_from(ls, i as int),
            decreases lines@.len() - i,
        {
            let t = trim_chars(lines[i].as_slice());
            assert(ls[i as int] == lines@[i as int]@);
            if starts_with_chars(t.as_slice(), heading.as_slice()) {
                let rest = sub_chars(t.as_slice(), 2, t.len());
                assert(rest@ =~= t@.skip(2));
                return string_from_chars(rest.as_slice());
            }
            if t.len() > 0 {
                let n = if t.len() < 80 {
                    t.len()
                } else {
                    80
                };
                let cut = sub_chars(t.as_slice(), 0, n);
                assert(cut@ =~= t@.take(n as int));
                return string_from_chars(cut.as_slice());
            }
            i = i + 1;
        }
        String::from_str("Untitled")
    }

    /// The tags of a note: the items of its first `tags:` line.
    pub fn extract_tags(content: &str) -> (tags: Vec<String>)
        ensures
            strs(tags@) == stored_tags(content@),
    {
        let marker = chars_of("tags:");
        proof {
            reveal_strlit("tags:");
        }
        let mut tags: Vec<String> = Vec::new();
        let c = chars_of(content);
        let lines = split_chars(c.as_slice(), '\n');
        let ghost ls = pieces_view(lines@);
        let mut i: usize = 0;
        while i < lines.len()
            invariant
                marker@ == "tags:"@,
                marker@.len() == 5,
                ls == pieces_view(lines@),
                ls == split_on(content@, '\n'),
                i <= lines@.len(),
                tag_line_from(ls, 0) == tag_line_from(ls, i as int),
                tags@.len() == 0,
            decreases lines@.len() - i,
        {
            let t = trim_chars(lines[i].as_slice());
            assert(ls[i as int] == lines@[i as int]@);
            if starts_with_chars(t.as_slice(), marker.as_slice()) {
                let rest = sub_chars(t.as_slice(), 5, t.len());
                assert(rest@ =~= t@.skip(5));
                let parts = split_chars(rest.as_slice(), ',');
                let ghost ps = pieces_view(parts@);
                let mut k: usize = 0;
                while k < parts.len()
                    invariant
                        ps == pieces_view(parts@),
                        k <= parts@.len(),
                        strs(tags@) == nonempty_trimmed(ps, k as int),
                    decreases parts@.len() - k,
                {
                    let tag = trim_chars(parts[k].as_slice());
                    assert(ps[k as int] == parts@[k as int]@);
                    if tag.len() > 0 {
                        let ghost before = tags@;
                        let s = string_from_chars(tag.as_slice());
                        tags.push(s);
                        assert(strs(tags@) =~= strs(before).push(s@));
                    }
                    k = k + 1;
                }
                return tags;
            }
            i = i + 1;
        }
        assert(strs(tags@) =~= Seq::<Seq<char>>::empty());
        tags
    }

    /// The listing entry of a note read from the file of `id`.
    pub fn meta_for(id: &str, content: &str, modified: u128) -> (m: NoteMeta)
        ensures
            m@ == (StoredMetaView {
                id: id@,
                title: stored_title_from(split_on(content@, '\n'), 0),
                modified: modified as int,
                tags: stored_tags(content@),
            }),
    {
        NoteMeta {
            id: String::from_str(id),
            title: Self::extract_title(content),
            modified,
            tags: Self::extract_tags(content),
        }
    }

    /// Order a listing newest first, keeping the order of notes with the
    /// same modification time.
    pub fn newest_first(notes: Vec<NoteMeta>) -> (r: Vec<NoteMeta>)
        ensures
            stable_desc(stored_by_time(stored_views(notes@)), stored_by_time(stored_views(r@))),
    {
        let ghost input = stored_by_time(stored_views(notes@));
        let mut r: Vec<NoteMeta> = Vec::new();
        let mut i: usize = 0;
        while i < notes.len()
            invariant
                input == stored_by_time(stored_views(notes@)),
                i <= notes@.len(),
                forall|a: int, b: int|
                    0 <= a < b < r@.len() ==> r@[a].modified >= r@[b].modified,
                forall|k: int|
                    #[trigger] stored_by_time(stored_views(r@)).filter(key_is(k)) == input.take(
                        i as int,
                    ).filter(key_is(k)),
            decreases notes@.len() - i,
        {
            let key = notes[i].modified;
            let x = notes[i].duplicate();
            let ghost xv = (key as int, x@);
            assert(xv == input[i as int]);
            let mut p: usize = 0;
            while p < r.len() && r[p].modified >= key
                invariant
                    p <= r@.len(),
                    forall|m: int| 0 <= m < p ==> r@[m].modified >= key,
                decreases r@.len() - p,
            {
                p = p + 1;
            }
            let ghost old_raw = r@;
            let ghost old_r = stored_by_time(stored_views(r@));
            proof {
                assert forall|m: int| p <= m < old_raw.len() implies old_raw[m].modified < key by {
                    if m > p {
                        assert(old_raw[p as int].modified >= old_raw[m].modified);
                    }
                }
            }
            r.insert(p, x);
            proof {
                let nr = stored_by_time(stored_views(r@));
                assert(r@ =~= old_raw.insert(p as int, x));
                assert(nr =~= old_r.take(p as int) + seq![xv] + old_r.skip(p as int));
                assert(old_r =~= old_r.take(p as int) + old_r.skip(p as int));
                assert(input.take(i + 1) =~= input.take(i as int).push(xv));
                assert forall|k: int| #[trigger] nr.filter(key_is(k)) == input.take(i + 1).filter(
                    key_is(k),
                ) by {
                    let f = key_is::<StoredMetaView>(k);
                    Seq::filter_distributes_over_add(
                        old_r.take(p as int) + seq![xv],
                        old_r.skip(p as int),
                        f,
                    );
                    Seq::filter_distributes_over_add(old_r.take(p as int), seq![xv], f);
                    Seq::filter_distributes_over_add(old_r.take(p as int), old_r.skip(p as int), f);
                    lemma_filter_push(input.take(i as int), xv, f);
                    lemma_filter_push(Seq::<(int, StoredMetaView)>::empty(), xv, f);
                    assert(Seq::<(int, StoredMetaView)>::empty().push(xv) =~= seq![xv]);
                    reveal_with_fuel(Seq::filter, 1);
                    assert(Seq::<(int, StoredMetaView)>::empty().filter(f) =~= Seq::<
                        (int, StoredMetaView),
                    >::empty());
                    if k == key {
                        assert forall|m: int| 0 <= m < old_r.skip(p as int).len() implies !f(
                            #[trigger] old_r.skip(p as int)[m],
                        ) by {
                            assert(old_r.skip(p as int)[m] == old_r[m + p]);
                            assert(old_raw[m + p].modified < key);
                        }
                        lemma_filter_none(old_r.skip(p as int), f);
                        assert(old_r.take(p as int).filter(f) + seq![xv] + Seq::<
                            (int, StoredMetaView),
                        >::empty() =~= (old_r.take(p as int).filter(f) + Seq::<
                            (int, StoredMetaView),
                        >::empty()).push(xv));
                    } else {
                        assert(old_r.take(p as int).filter(f) + Seq::<
                            (int, StoredMetaView),
                        >::empty() =~= old_r.take(p as int).filter(f));
                    }
                }
                assert forall|a: int, b: int| 0 <= a < b < r@.len() implies r@[a].modified
                    >= r@[b].modified by {
                    if b < p {
                    } else if a > p {
                        assert(r@[a] == old_raw[a - 1]);
                        assert(r@[b] == old_raw[b - 1]);
                    } else if a == p {
                        assert(r@[b] == old_raw[b - 1]);
                    } else if b == p {
                    } else {
                        assert(r@[b] == old_raw[b - 1]);
                    }
                }
            }
            i = i + 1;
        }
        proof {
            assert(input.take(notes@.len() as int) =~= input);
            let out = stored_by_time(stored_views(r@));
            assert forall|a: int, b: int| 0 <= a < b < out.len() implies out[a].0 >= out[b].0 by {
                assert(out[a].0 == r@[a].modified);
                assert(out[b].0 == r@[b].modified);
            }
        }
        r
    }

    /// The notes whose title or one of whose tags contains `query`,
    /// ignoring case, in their listed order.
    pub fn matching(notes: Vec<NoteMeta>, query: &str) -> (r: Vec<NoteMeta>)
        ensures
            stored_views(r@) == stored_views(notes@).filter(stored_match_pred(lowercase(query@))),
    {
        let q = to_lowercase(query);
        let qv = chars_of(q.as_str());
        let mut r: Vec<NoteMeta> = Vec::new();
        let mut i: usize = 0;
        while i < notes.len()
            invariant
                qv@ == lowercase(query@),
                i <= notes@.len(),
                stored_views(r@) == stored_views(notes@.take(i as int)).filter(
                    stored_match_pred(qv@),
                ),
            decreases notes@.len() - i,
        {
            let n = &notes[i];
            let hit = stored_note_matches(n, qv.as_slice());
            let ghost before = stored_views(r@);
            proof {
                reveal_with_fuel(Seq::filter, 1);
                assert(notes@.take(i + 1) =~= notes@.take(i as int).push(notes@[i as int]));
                assert(stored_views(notes@.take(i + 1)) =~= stored_views(notes@.take(i as int)).push(
                    n@,
                ));
                assert(stored_views(notes@.take(i + 1)).drop_last() =~= stored_views(
                    notes@.take(i as int),
                ));
            }
            if hit {
                r.push(n.duplicate());
                assert(stored_views(r@) =~= before.push(n@));
            }
            i = i + 1;
        }
        assert(notes@.take(notes@.len() as int) =~= notes@);
        r
    }
}

fn stored_note_matches(n: &NoteMeta, q: &[char]) -> (b: bool)
    ensures
        b == stored_match(n@, q@),
{
    let t = chars_of(to_lowercase(n.title.as_str()).as_str());
    if contains_chars(t.as_slice(), q) {
        return true;
    }
    let mut k: usize = 0;
    while k < n.tags.len()
        invariant
            k <= n.tags@.len(),
            forall|m: int| 0 <= m < k ==> !contains_seq(lowercase(#[trigger] n@.tags[m]), q@),
        decreases n.tags@.len() - k,
    {
        let tv = chars_of(to_lowercase(n.tags[k].as_str()).as_str());
        if contains_chars(tv.as_slice(), q) {
            assert(n@.tags[k as int] == n.tags@[k as int]@);
            return true;
        }
        assert(n@.tags[k as int] == n.tags@[k as int]@);
        k = k + 1;
    }
    false
}

} // verus!
