//! Text editing buffer with cursor, selection, and undo/redo.
//!
//! The text lives in a rope.  Every change is recorded as an edit; edits
//! made in quick succession are grouped, and undo and redo work a group at
//! a time.

use crate::rope::{
    breaks_before, lemma_breaks_before_below_count, lemma_line_count_bounds,
    lemma_line_start_before, lemma_line_start_bounds, lemma_line_start_mono, line_chars,
    line_count, line_start, rope_char, rope_char_to_line, rope_chars, rope_from_str, rope_insert,
    rope_len_chars, rope_len_lines, rope_line, rope_line_to_char, rope_new, rope_remove,
    rope_slice, rope_string,
};
use crate::text::{
    chars_of, is_whitespace, is_ws, lemma_trail_char_start_bounds, lemma_word_end_bounds,
    string_from_chars, trim_end_char, trim_end_char_exec, word_end, ws_prefix_end,
    ws_suffix_start,
};
use ropey::Rope;
use std::time::Duration;
use std::time::Instant;
use vstd::prelude::*;
use vstd::string::{StrSliceExecFns, StringExecFns};

verus! {

broadcast use vstd::string::group_string_axioms;

/// One recorded change of the text, in char offsets.
pub enum Edit {
    /// `text` was inserted at offset `at`.
    Insert { at: nat, text: Seq<char> },
    /// `text`, which stood at offset `at`, was removed.
    Delete { at: nat, text: Seq<char> },
}

/// The text after applying `e` to `t`, if `e` fits `t`: an insertion needs
/// its offset inside the text, a deletion needs its text to stand at its
/// offset.
pub open spec fn apply_edit(t: Seq<char>, e: Edit) -> Option<Seq<char>> {
    match e {
        Edit::Insert { at, text } => if at <= t.len() {
            Some(t.take(at as int) + text + t.skip(at as int))
        } else {
            None
        },
        Edit::Delete { at, text } => if at + text.len() <= t.len() && t.subrange(
            at as int,
            (at + text.len()) as int,
        ) == text {
            Some(t.take(at as int) + t.skip((at + text.len()) as int))
        } else {
            None
        },
    }
}

/// The edit that takes back `e`.
pub open spec fn inverse(e: Edit) -> Edit {
    match e {
        Edit::Insert { at, text } => Edit::Delete { at, text },
        Edit::Delete { at, text } => Edit::Insert { at, text },
    }
}

/// Applies the edits of `es` to `t`, first to last.
pub open spec fn apply_edits(t: Seq<char>, es: Seq<Edit>) -> Option<Seq<char>>
    decreases es.len(),
{
    if es.len() == 0 {
        Some(t)
    } else {
        match apply_edit(t, es[0]) {
            Some(u) => apply_edits(u, es.skip(1)),
            None => None,
        }
    }
}

/// Takes back the edits of `es` from `t`, last to first.
pub open spec fn revert_edits(t: Seq<char>, es: Seq<Edit>) -> Option<Seq<char>>
    decreases es.len(),
{
    if es.len() == 0 {
        Some(t)
    } else {
        match apply_edit(t, inverse(es.last())) {
            Some(u) => revert_edits(u, es.drop_last()),
            None => None,
        }
    }
}

/// The text before all the groups of an undo history, taken back from the
/// top group down, if they can all be taken back.
pub open spec fn undo_base(t: Seq<char>, groups: Seq<Seq<Edit>>) -> Option<Seq<char>>
    decreases groups.len(),
{
    if groups.len() == 0 {
        Some(t)
    } else {
        match revert_edits(t, groups.last()) {
            Some(u) => undo_base(u, groups.drop_last()),
            None => None,
        }
    }
}

/// The text after all the groups of a redo history, applied from the top
/// group down, if they can all be applied.
pub open spec fn redo_end(t: Seq<char>, groups: Seq<Seq<Edit>>) -> Option<Seq<char>>
    decreases groups.len(),
{
    if groups.len() == 0 {
        Some(t)
    } else {
        match apply_edits(t, groups.last()) {
            Some(u) => redo_end(u, groups.drop_last()),
            None => None,
        }
    }
}

/// `after` is the undo history `before` once `e` is recorded: either as a
/// group of its own, or, when grouping is on, joined to the top group.
pub open spec fn recorded(
    before: Seq<Seq<Edit>>,
    e: Edit,
    after: Seq<Seq<Edit>>,
    coalesce_ms: u128,
) -> bool {
    ||| after == before.push(seq![e])
    ||| (coalesce_ms > 0 && before.len() > 0 && after == before.drop_last().push(
        before.last().push(e),
    ))
}

/// Whether an edit made `elapsed_ms` milliseconds after the last edit of
/// the top undo group joins that group: only when there is one and less
/// time than the grouping window `coalesce_ms` has passed.
pub open spec fn joins(elapsed_ms: u128, coalesce_ms: u128, has_top: bool) -> bool {
    has_top && elapsed_ms < coalesce_ms
}

/// Whether an edit made `elapsed_ms` milliseconds after the top undo
/// group's last edit joins that group (see [`joins`]).
pub fn joins_top_group(elapsed_ms: u128, coalesce_ms: u128, has_top: bool) -> (b: bool)
    ensures
        b == joins(elapsed_ms, coalesce_ms, has_top),
{
    has_top && elapsed_ms < coalesce_ms
}

/// An edit and its inverse undo each other.
pub proof fn lemma_edit_inverse(t: Seq<char>, e: Edit, u: Seq<char>)
    requires
        apply_edit(t, e) == Some(u),
    ensures
        apply_edit(u, inverse(e)) == Some(t),
{
    match e {
        Edit::Insert { at, text } => {
            let a = at as int;
            assert(u.subrange(a, a + text.len()) =~= text);
            assert(u.take(a) + u.skip(a + text.len()) =~= t);
        },
        Edit::Delete { at, text } => {
            let a = at as int;
            assert(u.take(a) + text + u.skip(a) =~= t);
        },
    }
}

proof fn lemma_inverse_inverse(e: Edit)
    ensures
        inverse(inverse(e)) == e,
{
}

proof fn lemma_apply_edits_snoc(t: Seq<char>, es: Seq<Edit>, e: Edit)
    ensures
        apply_edits(t, es.push(e)) == (match apply_edits(t, es) {
            Some(m) => apply_edit(m, e),
            None => None,
        }),
    decreases es.len(),
{
    let s = es.push(e);
    if es.len() == 0 {
        assert(s.skip(1) =~= Seq::<Edit>::empty());
        assert(s[0] == e);
        match apply_edit(t, e) {
            Some(u) => {
                assert(apply_edits(u, s.skip(1)) == Some(u));
            },
            None => {},
        }
    } else {
        assert(s[0] == es[0]);
        assert(s.skip(1) =~= es.skip(1).push(e));
        match apply_edit(t, es[0]) {
            Some(u) => {
                lemma_apply_edits_snoc(u, es.skip(1), e);
            },
            None => {},
        }
    }
}

/// Taking back what was applied gives the text back.
pub proof fn lemma_apply_then_revert(t: Seq<char>, es: Seq<Edit>, u: Seq<char>)
    requires
        apply_edits(t, es) == Some(u),
    ensures
        revert_edits(u, es) == Some(t),
    decreases es.len(),
{
    if es.len() > 0 {
        let init = es.drop_last();
        assert(es =~= init.push(es.last()));
        lemma_apply_edits_snoc(t, init, es.last());
        let m = apply_edits(t, init).unwrap();
        lemma_edit_inverse(m, es.last(), u);
        lemma_apply_then_revert(t, init, m);
    }
}

/// Applying again what was taken back gives the text back.
pub proof fn lemma_revert_then_apply(u: Seq<char>, es: Seq<Edit>, t: Seq<char>)
    requires
        revert_edits(u, es) == Some(t),
    ensures
        apply_edits(t, es) == Some(u),
    decreases es.len(),
{
    if es.len() > 0 {
        let init = es.drop_last();
        let last = es.last();
        let m = apply_edit(u, inverse(last)).unwrap();
        lemma_revert_then_apply(m, init, t);
        lemma_edit_inverse(u, inverse(last), m);
        lemma_inverse_inverse(last);
        assert(es =~= init.push(last));
        lemma_apply_edits_snoc(t, init, last);
    }
}

/// Recording an applied edit keeps the undo history one that can be taken
/// back to the same base text.
proof fn lemma_recorded_history(
    t0: Seq<char>,
    e: Edit,
    t1: Seq<char>,
    before: Seq<Seq<Edit>>,
    after: Seq<Seq<Edit>>,
    coalesce_ms: u128,
)
    requires
        undo_base(t0, before) is Some,
        apply_edit(t0, e) == Some(t1),
        recorded(before, e, after, coalesce_ms),
    ensures
        undo_base(t1, after) == undo_base(t0, before),
{
    lemma_edit_inverse(t0, e, t1);
    if after == before.push(seq![e]) {
        let g = seq![e];
        assert(after.drop_last() =~= before);
        assert(after.last() == g);
        assert(g.drop_last() =~= Seq::<Edit>::empty());
        assert(g.last() == e);
        assert(revert_edits(t0, g.drop_last()) == Some(t0));
        assert(revert_edits(t1, g) == Some(t0));
    } else {
        let g = before.last();
        let m = revert_edits(t0, g).unwrap();
        assert(after.drop_last() =~= before.drop_last());
        assert(after.last() == g.push(e));
        assert(g.push(e).drop_last() =~= g);
        assert(g.push(e).last() == e);
        assert(revert_edits(t1, g.push(e)) == Some(m));
    }
}

/// The edit kept for undo and redo.
enum EditOp {
    /// Insert text at a char offset.
    Insert { char_offset: usize, text: String },
    /// Delete text at a char offset.
    Delete { char_offset: usize, text: String },
}

impl View for EditOp {
    type V = Edit;

    closed spec fn view(&self) -> Edit {
        match self {
            EditOp::Insert { char_offset, text } => Edit::Insert {
                at: *char_offset as nat,
                text: text@,
            },
            EditOp::Delete { char_offset, text } => Edit::Delete {
                at: *char_offset as nat,
                text: text@,
            },
        }
    }
}

impl EditOp {
    fn apply(&self, rope: &mut Rope)
        requires
            apply_edit(rope_chars(*old(rope)), self@) is Some,
        ensures
            rope_chars(*final(rope)) == apply_edit(rope_chars(*old(rope)), self@).unwrap(),
    {
        match self {
            EditOp::Insert { char_offset, text } => {
                rope_insert(rope, *char_offset, text.as_str());
            },
            EditOp::Delete { char_offset, text } => {
                let len = rope_len_chars(rope);
                let end = *char_offset + text.as_str().unicode_len();
                assert(end <= len);
                rope_remove(rope, *char_offset, end);
            },
        }
    }

    fn reverse(&self) -> (r: Self)
        ensures
            r@ == inverse(self@),
    {
        match self {
            EditOp::Insert { char_offset, text } => EditOp::Delete {
                char_offset: *char_offset,
                text: text.clone(),
            },
            EditOp::Delete { char_offset, text } => EditOp::Insert {
                char_offset: *char_offset,
                text: text.clone(),
            },
        }
    }
}

#[verifier::external_type_specification]
#[verifier::external_body]
pub struct ExInstant(Instant);

/// The current instant (`Instant::now`).  Nothing is stated of the result:
/// it depends on the clock.
#[verifier::external_body]
fn instant_now() -> (t: Instant) {
    Instant::now()
}

/// The time from `earlier` to `later`, zero if `later` is earlier
/// (`Instant::duration_since`).  Nothing is stated of the result: instants
/// are read from the clock and opaque here.
#[verifier::external_body]
fn duration_since(later: &Instant, earlier: &Instant) -> (d: Duration) {
    later.duration_since(*earlier)
}

/// Whole milliseconds of a duration (`Duration::as_millis`).  Nothing is
/// stated of the result: durations are opaque here.
#[verifier::external_body]
fn duration_millis(d: &Duration) -> (ms: u128) {
    d.as_millis()
}

/// A group of edit operations that form a single undo step.
struct UndoGroup {
    ops: Vec<EditOp>,
    timestamp: Instant,
}

spec fn group_edits(g: UndoGroup) -> Seq<Edit> {
    g.ops@.map_values(|o: EditOp| o@)
}

spec fn groups_view(v: Seq<UndoGroup>) -> Seq<Seq<Edit>> {
    v.map_values(|g: UndoGroup| group_edits(g))
}

proof fn lemma_groups_view_push(v: Seq<UndoGroup>, g: UndoGroup)
    ensures
        groups_view(v.push(g)) == groups_view(v).push(group_edits(g)),
{
    assert(groups_view(v.push(g)) =~= groups_view(v).push(group_edits(g)));
}

proof fn lemma_groups_view_drop_last(v: Seq<UndoGroup>)
    requires
        v.len() > 0,
    ensures
        groups_view(v.drop_last()) == groups_view(v).drop_last(),
        groups_view(v).last() == group_edits(v.last()),
{
    assert(groups_view(v.drop_last()) =~= groups_view(v).drop_last());
}

proof fn lemma_groups_view_empty(v: Seq<UndoGroup>)
    requires
        v.len() == 0,
    ensures
        groups_view(v) == Seq::<Seq<Edit>>::empty(),
{
    assert(groups_view(v) =~= Seq::<Seq<Edit>>::empty());
}

/// Cursor position within the editor.
#[derive(Debug, Clone, Copy, PartialEq, Eq, Structural)]
pub struct Cursor {
    /// Line number (0-based).
    pub line: usize,
    /// Column (char offset within line, 0-based).
    pub col: usize,
}

impl Cursor {
    pub fn new(line: usize, col: usize) -> (c: Self)
        ensures
            c.line == line,
            c.col == col,
    {
        Self { line, col }
    }
}

impl Default for Cursor {
    fn default() -> (c: Self)
        ensures
            c.line == 0,
            c.col == 0,
    {
        Self { line: 0, col: 0 }
    }
}

/// Selection range (start and end cursors, inclusive of start, exclusive of end).
#[derive(Debug, Clone, Copy, PartialEq, Eq, Structural)]
pub struct Selection {
    pub start: Cursor,
    pub end: Cursor,
}

/// Whether `a` comes after `b` in reading order.
pub open spec fn cursor_after(a: Cursor, b: Cursor) -> bool {
    a.line > b.line || (a.line == b.line && a.col > b.col)
}

/// The selection with its ends in reading order.
pub open spec fn normalized_selection(s: Selection) -> Selection {
    if cursor_after(s.start, s.end) {
        Selection { start: s.end, end: s.start }
    } else {
        s
    }
}

impl Selection {
    /// Returns the selection with start <= end (normalized).
    pub fn normalized(&self) -> (r: Self)
        ensures
            r == normalized_selection(*self),
            !cursor_after(r.start, r.end),
    {
        if self.start.line > self.end.line || (self.start.line == self.end.line && self.start.col
            > self.end.col) {
            Self { start: self.end, end: self.start }
        } else {
            *self
        }
    }
}

/// The text of line `l` without a trailing LF and then CR; empty for a
/// line that does not exist.
pub open spec fn line_text_of(s: Seq<char>, l: int) -> Seq<char> {
    if 0 <= l < line_count(s) {
        trim_end_char(trim_end_char(line_chars(s, l), '\n'), '\r')
    } else {
        Seq::empty()
    }
}

/// The number of chars of line `l`, without its line break.
pub open spec fn line_len_of(s: Seq<char>, l: int) -> nat {
    line_text_of(s, l).len()
}

pub open spec fn min_int(a: int, b: int) -> int {
    if a <= b {
        a
    } else {
        b
    }
}

/// The char offset a cursor stands for: its column is held to the line's
/// length, and a line past the last stands for the end of the text.
pub open spec fn cursor_offset(s: Seq<char>, c: Cursor) -> int {
    if c.line >= line_count(s) {
        s.len() as int
    } else {
        line_start(s, c.line as int) + min_int(c.col as int, line_len_of(s, c.line as int) as int)
    }
}

/// The cursor at char offset `o` (held to the end of the text).
pub open spec fn offset_cursor(s: Seq<char>, o: int) -> Cursor {
    let p = min_int(o, s.len() as int);
    let l = breaks_before(s, p);
    Cursor { line: l as usize, col: (p - line_start(s, l as int)) as usize }
}

/// The cursor held to an existing line and to that line's length.
pub open spec fn clamped(s: Seq<char>, c: Cursor) -> Cursor {
    let l = min_int(c.line as int, line_count(s) - 1);
    Cursor { line: l as usize, col: min_int(c.col as int, line_len_of(s, l) as int) as usize }
}

/// A line is no longer than the room between its start and the next line's.
pub proof fn lemma_line_len_bounds(s: Seq<char>, l: int)
    requires
        0 <= l < line_count(s),
    ensures
        line_start(s, l) + line_len_of(s, l) <= line_start(s, l + 1),
        line_start(s, l + 1) <= s.len(),
{
    lemma_line_start_bounds(s, l);
    lemma_line_start_bounds(s, l + 1);
    lemma_line_start_mono(s, l, l + 1);
    let a = line_chars(s, l);
    lemma_trail_char_start_bounds(a, '\n', a.len() as int);
    let b = trim_end_char(a, '\n');
    lemma_trail_char_start_bounds(b, '\r', b.len() as int);
}

/// A cursor stands for an offset inside the text.
pub proof fn lemma_cursor_offset_bounds(s: Seq<char>, c: Cursor)
    ensures
        0 <= cursor_offset(s, c) <= s.len(),
{
    if c.line < line_count(s) {
        lemma_line_len_bounds(s, c.line as int);
        lemma_line_start_bounds(s, c.line as int);
    }
}

/// Cursors in reading order stand for offsets in the same order.
pub proof fn lemma_cursor_offset_mono(s: Seq<char>, a: Cursor, b: Cursor)
    requires
        !cursor_after(a, b),
    ensures
        cursor_offset(s, a) <= cursor_offset(s, b),
{
    lemma_cursor_offset_bounds(s, a);
    lemma_cursor_offset_bounds(s, b);
    if a.line < line_count(s) && b.line < line_count(s) && a.line < b.line {
        lemma_line_len_bounds(s, a.line as int);
        lemma_line_start_mono(s, a.line + 1, b.line as int);
    }
}

/// The start of the run of non-whitespace that ends at `j`.
pub open spec fn word_start(s: Seq<char>, j: int) -> int
    decreases j,
{
    if 0 < j <= s.len() && !is_ws(s[j - 1]) {
        word_start(s, j - 1)
    } else {
        j
    }
}

proof fn lemma_word_start_bounds(s: Seq<char>, j: int)
    requires
        0 <= j <= s.len(),
    ensures
        0 <= word_start(s, j) <= j,
    decreases j,
{
    if 0 < j && !is_ws(s[j - 1]) {
        lemma_word_start_bounds(s, j - 1);
    }
}

/// Where a move one word forward from column `col` of line `v` lands:
/// past the rest of the word, then past the whitespace after it.
pub open spec fn word_forward_col(v: Seq<char>, col: int) -> int {
    ws_prefix_end(v, word_end(v, col))
}

/// Where a move one word backward from column `col` of line `v` lands:
/// back over whitespace, then back to the start of the word before it.
pub open spec fn word_backward_col(v: Seq<char>, col: int) -> int {
    word_start(v, ws_suffix_start(v, col))
}

/// The abstract state of an editor buffer.
#[verifier::ext_equal]
pub struct EditorView {
    pub text: Seq<char>,
    pub cursor: Cursor,
    pub selection: Option<Selection>,
    /// The undo history, oldest group first.
    pub undo: Seq<Seq<Edit>>,
    /// The redo history, the group to redo next last.
    pub redo: Seq<Seq<Edit>>,
    pub modified: bool,
    pub file_path: Option<Seq<char>>,
    pub coalesce_ms: u128,
}

/// The edit that deleting the selection makes, if the selection covers
/// any text.
pub open spec fn selection_edit(v: EditorView) -> Option<Edit> {
    match v.selection {
        None => None,
        Some(sel) => {
            let n = normalized_selection(sel);
            let a = cursor_offset(v.text, n.start);
            let b = cursor_offset(v.text, n.end);
            if a == b {
                None
            } else {
                Some(Edit::Delete { at: a as nat, text: v.text.subrange(a, b) })
            }
        },
    }
}

/// The text once the selection is deleted.
pub open spec fn text_after_selection(v: EditorView) -> Seq<char> {
    match selection_edit(v) {
        Some(e) => apply_edit(v.text, e).unwrap(),
        None => v.text,
    }
}

/// The cursor once the selection is deleted: at the selection's start.
pub open spec fn cursor_after_selection(v: EditorView) -> Cursor {
    match selection_edit(v) {
        Some(e) => normalized_selection(v.selection.unwrap()).start,
        None => v.cursor,
    }
}

/// `after` records the edits of the selection deletion (if any) and then `e`.
pub open spec fn recorded_after_selection(v: EditorView, e: Edit, after: Seq<Seq<Edit>>) -> bool {
    match selection_edit(v) {
        Some(d) => exists|mid: Seq<Seq<Edit>>|
            #![trigger recorded(v.undo, d, mid, v.coalesce_ms)]
            recorded(v.undo, d, mid, v.coalesce_ms) && recorded(mid, e, after, v.coalesce_ms),
        None => recorded(v.undo, e, after, v.coalesce_ms),
    }
}

/// `new` is `old` once the selection is deleted (and dropped): the text,
/// cursor and histories change only where the selection covered some text.
pub open spec fn selection_deleted(old: EditorView, new: EditorView) -> bool {
    &&& new.text == text_after_selection(old)
    &&& new.cursor == cursor_after_selection(old)
    &&& new.selection is None
    &&& new.file_path == old.file_path
    &&& new.coalesce_ms == old.coalesce_ms
    &&& match selection_edit(old) {
        Some(d) => {
            &&& new.modified
            &&& new.redo.len() == 0
            &&& recorded(old.undo, d, new.undo, old.coalesce_ms)
        },
        None => {
            &&& new.modified == old.modified
            &&& new.undo == old.undo
            &&& new.redo == old.redo
        },
    }
}

/// `new` is `old` after the edit `e` was applied and recorded, with the
/// redo history dropped and the buffer marked modified; the cursor and
/// selection are stated apart.
pub open spec fn edited(old: EditorView, e: Edit, new: EditorView) -> bool {
    &&& apply_edit(old.text, e) == Some(new.text)
    &&& recorded(old.undo, e, new.undo, old.coalesce_ms)
    &&& new.redo.len() == 0
    &&& new.modified
    &&& new.file_path == old.file_path
    &&& new.coalesce_ms == old.coalesce_ms
}

/// Main text editing buffer.
pub struct EditorBuffer {
    rope: Rope,
    cursor: Cursor,
    selection: Option<Selection>,
    undo_stack: Vec<UndoGroup>,
    redo_stack: Vec<UndoGroup>,
    /// Whether the buffer has been modified since last save.
    modified: bool,
    /// File path associated with this buffer.
    file_path: Option<String>,
    /// Window, in milliseconds, within which edits join the previous undo
    /// group (500 by default; 0 puts every edit in a group of its own).
    pub coalesce_ms: u128,
}

impl View for EditorBuffer {
    type V = EditorView;

    closed spec fn view(&self) -> EditorView {
        EditorView {
            text: rope_chars(self.rope),
            cursor: self.cursor,
            selection: self.selection,
            undo: groups_view(self.undo_stack@),
            redo: groups_view(self.redo_stack@),
            modified: self.modified,
            file_path: match self.file_path {
                Some(p) => Some(p@),
                None => None,
            },
            coalesce_ms: self.coalesce_ms,
        }
    }
}

/// The state after an undo: the top undo group is taken back from the text
/// and moved onto the redo history.
pub open spec fn undone(v: EditorView) -> EditorView {
    if v.undo.len() == 0 {
        v
    } else {
        let g = v.undo.last();
        let t = revert_edits(v.text, g).unwrap();
        EditorView {
            text: t,
            undo: v.undo.drop_last(),
            redo: v.redo.push(g),
            cursor: clamped(t, v.cursor),
            modified: true,
            ..v
        }
    }
}

/// The state after a redo: the top redo group is applied to the text and
/// moved back onto the undo history.
pub open spec fn redone(v: EditorView) -> EditorView {
    if v.redo.len() == 0 {
        v
    } else {
        let g = v.redo.last();
        let t = apply_edits(v.text, g).unwrap();
        EditorView {
            text: t,
            redo: v.redo.drop_last(),
            undo: v.undo.push(g),
            cursor: clamped(t, v.cursor),
            modified: true,
            ..v
        }
    }
}

/// The state after moving the cursor left: back one column, or to the end of
/// the line above.
pub open spec fn moved_left(v: EditorView) -> EditorView {
    (EditorView {
        cursor: if v.cursor.col > 0 {
            Cursor { line: v.cursor.line, col: (v.cursor.col - 1) as usize }
        } else if v.cursor.line > 0 {
            Cursor {
                line: (v.cursor.line - 1) as usize,
                col: line_len_of(v.text, v.cursor.line - 1) as usize,
            }
        } else {
            v.cursor
        },
        selection: None,
        ..v
    })
}

/// The state after moving the cursor right: on one column, or to the start of
/// the line below.
pub open spec fn moved_right(v: EditorView) -> EditorView {
    (EditorView {
        cursor: if v.cursor.col < line_len_of(v.text, v.cursor.line as int) {
            Cursor { line: v.cursor.line, col: (v.cursor.col + 1) as usize }
        } else if v.cursor.line + 1 < line_count(v.text) {
            Cursor { line: (v.cursor.line + 1) as usize, col: 0 }
        } else {
            v.cursor
        },
        selection: None,
        ..v
    })
}

/// The state after moving the cursor up a line, its column held to that
/// line's length.
pub open spec fn moved_up(v: EditorView) -> EditorView {
    (EditorView {
        cursor: if v.cursor.line > 0 {
            Cursor {
                line: (v.cursor.line - 1) as usize,
                col: min_int(
                    v.cursor.col as int,
                    line_len_of(v.text, v.cursor.line - 1) as int,
                ) as usize,
            }
        } else {
            v.cursor
        },
        selection: None,
        ..v
    })
}

/// The state after moving the cursor down a line, its column held to that
/// line's length.
pub open spec fn moved_down(v: EditorView) -> EditorView {
    (EditorView {
        cursor: if v.cursor.line + 1 < line_count(v.text) {
            Cursor {
                line: (v.cursor.line + 1) as usize,
                col: min_int(
                    v.cursor.col as int,
                    line_len_of(v.text, v.cursor.line + 1) as int,
                ) as usize,
            }
        } else {
            v.cursor
        },
        selection: None,
        ..v
    })
}

/// The state after moving the cursor to the start of its line.
pub open spec fn at_line_start(v: EditorView) -> EditorView {
    (EditorView {
        cursor: Cursor { line: v.cursor.line, col: 0 },
        selection: None,
        ..v
    })
}

/// The state after moving the cursor to the end of its line.
pub open spec fn at_line_end(v: EditorView) -> EditorView {
    (EditorView {
        cursor: Cursor {
            line: v.cursor.line,
            col: line_len_of(v.text, v.cursor.line as int) as usize,
        },
        selection: None,
        ..v
    })
}

/// The state after moving the cursor to the start of the text.
pub open spec fn at_doc_start(v: EditorView) -> EditorView {
    (EditorView {
        cursor: Cursor { line: 0, col: 0 },
        selection: None,
        ..v
    })
}

/// The state after moving the cursor to the end of the last line.
pub open spec fn at_doc_end(v: EditorView) -> EditorView {
    (EditorView {
        cursor: Cursor {
            line: (line_count(v.text) - 1) as usize,
            col: line_len_of(v.text, line_count(v.text) - 1) as usize,
        },
        selection: None,
        ..v
    })
}

/// Moving right and then left comes back to where the cursor was, also
/// across the end of a line (from any place but the very end of the text),
/// and keeps the text.
pub proof fn law_left_undoes_right(v: EditorView)
    requires
        v.text.len() <= usize::MAX,
        v.cursor.line < usize::MAX,
        v.cursor.line < line_count(v.text),
        v.cursor.col <= line_len_of(v.text, v.cursor.line as int),
        !(v.cursor.col == line_len_of(v.text, v.cursor.line as int) && v.cursor.line + 1
            >= line_count(v.text)),
    ensures
        moved_left(moved_right(v)).cursor == v.cursor,
        moved_left(moved_right(v)).text == v.text,
{
    lemma_line_len_bounds(v.text, v.cursor.line as int);
    lemma_line_start_bounds(v.text, v.cursor.line as int);
}

/// Moving left and then right comes back to where the cursor was, also
/// across the start of a line (from any place but the very start of the
/// text), and keeps the text.
pub proof fn law_right_undoes_left(v: EditorView)
    requires
        v.text.len() <= usize::MAX,
        v.cursor.line < line_count(v.text),
        v.cursor.col <= line_len_of(v.text, v.cursor.line as int),
        !(v.cursor.line == 0 && v.cursor.col == 0),
    ensures
        moved_right(moved_left(v)).cursor == v.cursor,
        moved_right(moved_left(v)).text == v.text,
{
    lemma_line_len_bounds(v.text, v.cursor.line as int);
    lemma_line_start_bounds(v.text, v.cursor.line as int);
    if v.cursor.line > 0 {
        lemma_line_len_bounds(v.text, v.cursor.line - 1);
        lemma_line_start_bounds(v.text, v.cursor.line - 1);
    }
}

/// Moving down and then up comes back to where the cursor was, when there
/// is a line below long enough to hold the column.
pub proof fn law_up_undoes_down(v: EditorView)
    requires
        v.text.len() <= usize::MAX,
        v.cursor.line < usize::MAX,
        v.cursor.line + 1 < line_count(v.text),
        v.cursor.col <= line_len_of(v.text, v.cursor.line as int),
        v.cursor.col <= line_len_of(v.text, v.cursor.line + 1),
    ensures
        moved_up(moved_down(v)).cursor == v.cursor,
        moved_down(v).cursor == (Cursor { line: (v.cursor.line + 1) as usize, col: v.cursor.col }),
{
    lemma_line_len_bounds(v.text, v.cursor.line as int);
    lemma_line_len_bounds(v.text, v.cursor.line + 1);
    lemma_line_start_bounds(v.text, v.cursor.line as int);
}

/// Moving to either end of a line, or of the text, keeps the text and
/// drops the selection; the line's start is column 0 and its end is its
/// length, and the text starts at line 0, column 0.
pub proof fn law_line_and_text_ends(v: EditorView)
    requires
        v.text.len() <= usize::MAX,
    ensures
        at_line_start(v).cursor == (Cursor { line: v.cursor.line, col: 0 }),
        at_line_end(v).cursor.line == v.cursor.line,
        at_line_end(v).cursor.col == line_text_of(v.text, v.cursor.line as int).len(),
        at_doc_start(v).cursor == (Cursor { line: 0, col: 0 }),
        at_line_start(v).text == v.text && at_line_start(v).selection is None,
        at_line_end(v).text == v.text && at_line_end(v).selection is None,
        at_doc_start(v).text == v.text && at_doc_end(v).text == v.text,
{
    if 0 <= v.cursor.line < line_count(v.text) {
        lemma_line_len_bounds(v.text, v.cursor.line as int);
        lemma_line_start_bounds(v.text, v.cursor.line as int);
    }
}

/// The state after starting a selection at the cursor (an existing selection
/// stays).
pub open spec fn selection_started(v: EditorView) -> EditorView {
    (EditorView {
        selection: if v.selection is None {
            Some(Selection { start: v.cursor, end: v.cursor })
        } else {
            v.selection
        },
        ..v
    })
}

/// The state after moving the selection's end to the cursor.
pub open spec fn selection_extended(v: EditorView) -> EditorView {
    (EditorView {
        selection: match v.selection {
            Some(sel) => Some(Selection { start: sel.start, end: v.cursor }),
            None => None,
        },
        ..v
    })
}

/// The state without a selection.
pub open spec fn selection_cleared(v: EditorView) -> EditorView {
    (EditorView { selection: None, ..v })
}

/// The state after moving the cursor one word forward, or to the next line
/// from a line's end.
pub open spec fn word_forward(v: EditorView) -> EditorView {
    let t = v.text;
    let c = v.cursor;
    let line = line_text_of(t, c.line as int);
    (EditorView {
        cursor: if c.col >= line.len() {
            if c.line + 1 < line_count(t) {
                Cursor { line: (c.line + 1) as usize, col: 0 }
            } else {
                c
            }
        } else {
            Cursor { line: c.line, col: word_forward_col(line, c.col as int) as usize }
        },
        selection: None,
        ..v
    })
}

/// The state after moving the cursor one word backward, or to the end of the
/// line above from a line's start.
pub open spec fn word_backward(v: EditorView) -> EditorView {
    let t = v.text;
    let c = v.cursor;
    let line = line_text_of(t, c.line as int);
    (EditorView {
        cursor: if c.col == 0 {
            if c.line > 0 {
                Cursor {
                    line: (c.line - 1) as usize,
                    col: line_len_of(t, c.line - 1) as usize,
                }
            } else {
                c
            }
        } else {
            Cursor { line: c.line, col: word_backward_col(line, c.col as int) as usize }
        },
        selection: None,
        ..v
    })
}

/// The state after moving the cursor down half of `visible_lines`, held to
/// the last line.
pub open spec fn half_page_down(v: EditorView, visible_lines: usize) -> EditorView {
    let t = v.text;
    let c = v.cursor;
    let l = min_int(c.line + visible_lines / 2, line_count(t) - 1);
    (EditorView {
        cursor: Cursor {
            line: l as usize,
            col: min_int(c.col as int, line_len_of(t, l) as int) as usize,
        },
        selection: None,
        ..v
    })
}

/// The state after moving the cursor up half of `visible_lines`, held to the
/// first line.
pub open spec fn half_page_up(v: EditorView, visible_lines: usize) -> EditorView {
    let t = v.text;
    let c = v.cursor;
    let l = if c.line >= visible_lines / 2 {
        c.line - visible_lines / 2
    } else {
        0
    };
    (EditorView {
        cursor: Cursor {
            line: l as usize,
            col: min_int(c.col as int, line_len_of(t, l) as int) as usize,
        },
        selection: None,
        ..v
    })
}

/// `new` is `old` after typing `ch`: the selection, if it covers text, is
/// deleted, then `ch` is inserted at the cursor, which moves past it.
pub open spec fn char_inserted(old: EditorView, ch: char, new: EditorView) -> bool {
    &&& ({
        let t0 = text_after_selection(old);
        let c0 = cursor_after_selection(old);
        let at = cursor_offset(t0, c0);
        &&& new.text == t0.take(at) + seq![ch] + t0.skip(at)
        &&& new.cursor == if ch == '\n' {
            Cursor { line: (c0.line + 1) as usize, col: 0 }
        } else {
            Cursor { line: c0.line, col: (c0.col + 1) as usize }
        }
        &&& recorded_after_selection(
            old,
            Edit::Insert { at: at as nat, text: seq![ch] },
            new.undo,
        )
    })
    &&& new.selection is None
    &&& new.redo.len() == 0
    &&& new.modified
    &&& new.file_path == old.file_path
    &&& new.coalesce_ms == old.coalesce_ms
}

/// `new` is `old` after inserting `text` at the cursor (after deleting the
/// selection), with the cursor moved to the end of the inserted text.
pub open spec fn text_inserted(old: EditorView, text: Seq<char>, new: EditorView) -> bool {
    &&& text.len() == 0 ==> new == old
    &&& text.len() > 0 ==> ({
        let t0 = text_after_selection(old);
        let c0 = cursor_after_selection(old);
        let at = cursor_offset(t0, c0);
        &&& new.text == t0.take(at) + text + t0.skip(at)
        &&& new.cursor == offset_cursor(new.text, at + text.len())
        &&& new.selection is None
        &&& new.redo.len() == 0
        &&& new.modified
        &&& new.file_path == old.file_path
        &&& new.coalesce_ms == old.coalesce_ms
        &&& recorded_after_selection(
            old,
            Edit::Insert { at: at as nat, text: text },
            new.undo,
        )
    })
}

/// `new` is `old` after a backspace: the selection is deleted if it covers
/// text, else the character before the cursor.
pub open spec fn deleted_back(old: EditorView, new: EditorView) -> bool {
    &&& selection_edit(old) is Some ==> selection_deleted(old, new)
    &&& selection_edit(old) is None ==> ({
        let t = old.text;
        let at = cursor_offset(t, old.cursor);
        if at == 0 {
            new == (EditorView { selection: None, ..old })
        } else {
            &&& edited(
                old,
                Edit::Delete { at: (at - 1) as nat, text: seq![t[at - 1]] },
                new,
            )
            &&& new.cursor == offset_cursor(new.text, at - 1)
            &&& new.selection is None
        }
    })
}

/// `new` is `old` after a forward delete: the selection is deleted if it
/// covers text, else the character at the cursor.
pub open spec fn deleted_forward(old: EditorView, new: EditorView) -> bool {
    &&& selection_edit(old) is Some ==> selection_deleted(old, new)
    &&& selection_edit(old) is None ==> ({
        let t = old.text;
        let at = cursor_offset(t, old.cursor);
        if at >= t.len() {
            new == (EditorView { selection: None, ..old })
        } else {
            &&& edited(
                old,
                Edit::Delete { at: at as nat, text: seq![t[at]] },
                new,
            )
            &&& new.cursor == clamped(new.text, old.cursor)
            &&& new.selection is None
        }
    })
}

/// `new` is `old` with the cursor's line, and its line break, deleted.
pub open spec fn line_deleted(old: EditorView, new: EditorView) -> bool {
    &&& ({
        let t = old.text;
        let l = old.cursor.line as int;
        let a = line_start(t, l);
        let b = if l + 1 < line_count(t) {
            line_start(t, l + 1)
        } else {
            t.len() as int
        };
        if a == b {
            new == old
        } else {
            &&& edited(
                old,
                Edit::Delete { at: a as nat, text: t.subrange(a, b) },
                new,
            )
            &&& new.cursor == clamped(
                new.text,
                Cursor { line: l as usize, col: 0 },
            )
            &&& new.selection == old.selection
        }
    })
}

/// `new` is `old` with `text` inserted at the start of the line below the
/// cursor (after a new line break on the last line), the cursor there.
pub open spec fn pasted_below(old: EditorView, text: Seq<char>, new: EditorView) -> bool {
    &&& ({
        let t = old.text;
        let l = old.cursor.line as int;
        let at = if l + 1 < line_count(t) {
            line_start(t, l + 1)
        } else {
            t.len() as int
        };
        let ins = if l + 1 >= line_count(t) {
            seq!['\n'] + text
        } else {
            text
        };
        &&& edited(old, Edit::Insert { at: at as nat, text: ins }, new)
        &&& new.cursor == (Cursor { line: (l + 1) as usize, col: 0 })
        &&& new.selection == old.selection
    })
}

/// `new` is `old` with an empty line opened below the cursor's, the cursor on it.
pub open spec fn opened_below(old: EditorView, new: EditorView) -> bool {
    &&& ({
        let t = old.text;
        let l = old.cursor.line as int;
        let at = if l + 1 < line_count(t) {
            line_start(t, l + 1)
        } else {
            t.len() as int
        };
        &&& edited(
            old,
            Edit::Insert { at: at as nat, text: seq!['\n'] },
            new,
        )
        &&& new.cursor == (Cursor { line: (l + 1) as usize, col: 0 })
        &&& new.selection == old.selection
    })
}

/// `new` is `old` with an empty line opened above the cursor's, the cursor on it.
pub open spec fn opened_above(old: EditorView, new: EditorView) -> bool {
    &&& ({
        let t = old.text;
        let l = old.cursor.line as int;
        &&& edited(
            old,
            Edit::Insert { at: line_start(t, l) as nat, text: seq!['\n'] },
            new,
        )
        &&& new.cursor == (Cursor { line: l as usize, col: 0 })
        &&& new.selection == old.selection
    })
}

/// A buffer freshly made from `text`: cursor at the start, no selection,
/// empty histories, unmodified, no file, default grouping window.
pub open spec fn fresh_view(text: Seq<char>) -> EditorView {
    EditorView {
        text,
        cursor: Cursor { line: 0, col: 0 },
        selection: None,
        undo: Seq::empty(),
        redo: Seq::empty(),
        modified: false,
        file_path: None,
        coalesce_ms: 500,
    }
}

/// The undo history can be taken back and the redo history applied.
pub open spec fn history_ok(v: EditorView) -> bool {
    &&& undo_base(v.text, v.undo) is Some
    &&& redo_end(v.text, v.redo) is Some
}

/// Redo takes back an undo: undoing and then redoing gives back the text
/// and both histories.
pub proof fn law_redo_after_undo(v: EditorView)
    requires
        history_ok(v),
        v.undo.len() > 0,
    ensures
        history_ok(undone(v)),
        redone(undone(v)).text == v.text,
        redone(undone(v)).undo == v.undo,
        redone(undone(v)).redo == v.redo,
{
    let g = v.undo.last();
    let t = revert_edits(v.text, g).unwrap();
    lemma_revert_then_apply(v.text, g, t);
    assert(v.redo.push(g).drop_last() =~= v.redo);
    assert(v.undo.drop_last().push(g) =~= v.undo);
    assert(redo_end(t, v.redo.push(g)) == redo_end(v.text, v.redo));
}

/// Undo takes back a redo: redoing and then undoing gives back the text
/// and both histories.
pub proof fn law_undo_after_redo(v: EditorView)
    requires
        history_ok(v),
        v.redo.len() > 0,
    ensures
        history_ok(redone(v)),
        undone(redone(v)).text == v.text,
        undone(redone(v)).undo == v.undo,
        undone(redone(v)).redo == v.redo,
{
    let g = v.redo.last();
    let t = apply_edits(v.text, g).unwrap();
    lemma_apply_then_revert(v.text, g, t);
    assert(v.undo.push(g).drop_last() =~= v.undo);
    assert(v.redo.drop_last().push(g) =~= v.redo);
    assert(undo_base(t, v.undo.push(g)) == undo_base(v.text, v.undo));
}

/// With grouping off, undo right after an edit gives back the text from
/// before the edit.
pub proof fn law_undo_after_edit(v: EditorView, e: Edit, w: EditorView)
    requires
        history_ok(v),
        edited(v, e, w),
        v.coalesce_ms == 0,
    ensures
        undone(w).text == v.text,
        undone(w).undo == v.undo,
{
    lemma_recorded_history(v.text, e, w.text, v.undo, w.undo, 0);
    lemma_edit_inverse(v.text, e, w.text);
    let g = seq![e];
    assert(w.undo.last() == g);
    assert(w.undo.drop_last() =~= v.undo);
    assert(g.drop_last() =~= Seq::<Edit>::empty());
    assert(revert_edits(v.text, g.drop_last()) == Some(v.text));
}

/// Undo right after an edit takes the edit back: when the edit started a
/// group of its own, the text and undo history are those before the edit;
/// when it joined the top group, those before that whole group.
pub proof fn law_undo_after_any_edit(v: EditorView, e: Edit, w: EditorView)
    requires
        history_ok(v),
        edited(v, e, w),
    ensures
        w.undo.len() == v.undo.len() + 1 ==> undone(w).text == v.text && undone(w).undo == v.undo,
        w.undo.len() == v.undo.len() ==> v.undo.len() > 0 && undone(w).text == undone(v).text
            && undone(w).undo == undone(v).undo,
{
    lemma_edit_inverse(v.text, e, w.text);
    if w.undo == v.undo.push(seq![e]) {
        let g = seq![e];
        assert(w.undo.last() == g);
        assert(w.undo.drop_last() =~= v.undo);
        assert(g.drop_last() =~= Seq::<Edit>::empty());
        assert(revert_edits(v.text, g.drop_last()) == Some(v.text));
    } else {
        let g = v.undo.last();
        assert(w.undo.last() == g.push(e));
        assert(w.undo.drop_last() =~= v.undo.drop_last());
        assert(g.push(e).drop_last() =~= g);
        assert(g.push(e).last() == e);
    }
}

impl EditorBuffer {
    /// Well-formed: the histories fit the text.
    pub open spec fn wf(&self) -> bool {
        history_ok(self@)
    }

    /// Create an empty editor buffer.
    pub fn new() -> (b: Self)
        ensures
            b.wf(),
            b@ == fresh_view(Seq::<char>::empty()),

    {
        let b = Self {
            rope: rope_new(),
            cursor: Cursor::default(),
            selection: None,
            undo_stack: Vec::new(),
            redo_stack: Vec::new(),
            modified: false,
            file_path: None,
            coalesce_ms: 500,
        };
        proof {
            assert(b@.undo =~= Seq::<Seq<Edit>>::empty());
            assert(b@.redo =~= Seq::<Seq<Edit>>::empty());
        }
        b
    }

    /// Create an editor buffer from existing text content.
    pub fn from_text(text: &str) -> (b: Self)
        ensures
            b.wf(),
            b@ == fresh_view(text@),

    {
        let b = Self {
            rope: rope_from_str(text),
            cursor: Cursor::default(),
            selection: None,
            undo_stack: Vec::new(),
            redo_stack: Vec::new(),
            modified: false,
            file_path: None,
            coalesce_ms: 500,
        };
        proof {
            assert(b@.undo =~= Seq::<Seq<Edit>>::empty());
            assert(b@.redo =~= Seq::<Seq<Edit>>::empty());
        }
        b
    }

    /// Get the full text content as a String.
    pub fn text(&self) -> (s: String)
        ensures
            s@ == self@.text,
    {
        rope_string(&self.rope)
    }

    /// Get the cursor position.
    pub fn cursor(&self) -> (c: Cursor)
        ensures
            c == self@.cursor,
    {
        self.cursor
    }

    /// Get the current selection, if any.
    pub fn selection(&self) -> (s: Option<Selection>)
        ensures
            s == self@.selection,
    {
        self.selection
    }

    /// Whether the buffer has been modified since last save.
    pub fn is_modified(&self) -> (m: bool)
        ensures
            m == self@.modified,
    {
        self.modified
    }

    /// Mark the buffer as saved (unmodified).
    pub fn mark_saved(&mut self)
        ensures
            final(self)@ == (EditorView { modified: false, ..old(self)@ }),
    {
        self.modified = false;
    }

    /// Get the file path associated with this buffer.
    pub fn file_path(&self) -> (p: Option<&str>)
        ensures
            match p {
                Some(s) => self@.file_path == Some(s@),
                None => self@.file_path is None,
            },
    {
        match &self.file_path {
            Some(p) => Some(p.as_str()),
            None => None,
        }
    }

    /// Set the file path.
    pub fn set_file_path(&mut self, path: &str)
        ensures
            final(self)@ == (EditorView { file_path: Some(path@), ..old(self)@ }),
    {
        self.file_path = Some(String::from_str(path));
    }

    /// Total number of lines.
    pub fn line_count(&self) -> (n: usize)
        ensures
            n == line_count(self@.text),
    {
        rope_len_lines(&self.rope)
    }

    /// Get the text of a specific line (0-indexed), without trailing newline.
    pub fn line_text(&self, line_idx: usize) -> (s: String)
        ensures
            s@ == line_text_of(self@.text, line_idx as int),
    {
        if line_idx >= rope_len_lines(&self.rope) {
            return String::new();
        }
        let line = rope_line(&self.rope, line_idx);
        let chars = chars_of(line.as_str());
        let no_lf = trim_end_char_exec(chars.as_slice(), '\n');
        let no_cr = trim_end_char_exec(no_lf.as_slice(), '\r');
        string_from_chars(no_cr.as_slice())
    }

    /// Get the char count of a specific line (excluding trailing newline).
    pub fn line_len(&self, line_idx: usize) -> (n: usize)
        ensures
            n == line_len_of(self@.text, line_idx as int),
    {
        self.line_text(line_idx).as_str().unicode_len()
    }

    /// Convert cursor to a char offset in the rope.
    fn cursor_to_char_offset(&self, cursor: &Cursor) -> (o: usize)
        ensures
            o == cursor_offset(self@.text, *cursor),
            o <= self@.text.len(),
    {
        proof {
            lemma_cursor_offset_bounds(self@.text, *cursor);
        }
        if cursor.line >= rope_len_lines(&self.rope) {
            return rope_len_chars(&self.rope);
        }
        let line_start = rope_line_to_char(&self.rope, cursor.line);
        let line_len = self.line_len(cursor.line);
        let len = rope_len_chars(&self.rope);
        proof {
            lemma_line_len_bounds(self@.text, cursor.line as int);
            assert(line_start + line_len <= len);
        }
        if cursor.col < line_len {
            line_start + cursor.col
        } else {
            line_start + line_len
        }
    }

    /// Convert a char offset back to a Cursor.
    fn char_offset_to_cursor(&self, offset: usize) -> (c: Cursor)
        ensures
            c == offset_cursor(self@.text, offset as int),
    {
        let len = rope_len_chars(&self.rope);
        let offset = if offset < len {
            offset
        } else {
            len
        };
        let line = rope_char_to_line(&self.rope, offset);
        proof {
            lemma_breaks_before_below_count(self@.text, offset as int);
            lemma_line_start_before(self@.text, offset as int);
            lemma_line_start_bounds(self@.text, line as int);
        }
        let line_start = rope_line_to_char(&self.rope, line);
        let col = offset - line_start;
        Cursor::new(line, col)
    }

    /// Clamp cursor to valid position.
    fn clamp_cursor(&mut self)
        ensures
            final(self)@ == (EditorView { cursor: clamped(old(self)@.text, old(self)@.cursor), ..old(self)@ }),
    {
        proof {
            lemma_line_count_bounds(self@.text);
        }
        let max_line = rope_len_lines(&self.rope) - 1;
        if max_line < self.cursor.line {
            self.cursor.line = max_line;
        }
        let line_len = self.line_len(self.cursor.line);
        if line_len < self.cursor.col {
            self.cursor.col = line_len;
        }
    }
    // --- Text Operations ---

    /// Records `op` in the undo history: joined to the top group when the
    /// top group was last touched less than `coalesce_ms` ago, else as a
    /// group of its own.
    /// Records `op` in the undo history at the instant `now`, `elapsed_ms`
    /// milliseconds after the top group's last edit: joined to that group
    /// when [`joins_top_group`] says so, else as a group of its own.
    fn push_undo_after(&mut self, op: EditOp, now: Instant, elapsed_ms: u128)
        ensures
            final(self)@ == (EditorView { undo: final(self)@.undo, ..old(self)@ }),
            final(self)@.undo == if joins(elapsed_ms, old(self)@.coalesce_ms, old(self)@.undo.len() > 0) {
                old(self)@.undo.drop_last().push(old(self)@.undo.last().push(op@))
            } else {
                old(self)@.undo.push(seq![op@])
            },
    {
        let n = self.undo_stack.len();
        if joins_top_group(elapsed_ms, self.coalesce_ms, n > 0) {
            let ghost before = self.undo_stack@;
            let mut last = self.undo_stack.pop().unwrap();
            proof {
                lemma_groups_view_drop_last(before);
                assert(self.undo_stack@ == before.drop_last());
            }
            last.ops.push(op);
            last.timestamp = now;
            proof {
                assert(group_edits(last) =~= group_edits(before.last()).push(op@));
            }
            self.undo_stack.push(last);
            proof {
                lemma_groups_view_push(before.drop_last(), last);
            }
            return;
        }
        let mut ops = Vec::new();
        ops.push(op);
        let group = UndoGroup { ops, timestamp: now };
        proof {
            assert(group_edits(group) =~= seq![op@]);
            lemma_groups_view_push(self.undo_stack@, group);
        }
        self.undo_stack.push(group);
    }

    /// Records `op` in the undo history, reading the clock to tell whether
    /// it joins the top group (see [`Self::push_undo_after`]).
    fn push_undo(&mut self, op: EditOp)
        ensures
            final(self)@ == (EditorView { undo: final(self)@.undo, ..old(self)@ }),
            recorded(old(self)@.undo, op@, final(self)@.undo, old(self)@.coalesce_ms),
    {
        let now = instant_now();
        let n = self.undo_stack.len();
        let elapsed = if n > 0 {
            let since = duration_since(&now, &self.undo_stack[n - 1].timestamp);
            duration_millis(&since)
        } else {
            0
        };
        self.push_undo_after(op, now, elapsed);
    }

    /// Applies `op` and records it, dropping the redo history.
    fn record(&mut self, op: EditOp)
        requires
            old(self).wf(),
            apply_edit(old(self)@.text, op@) is Some,
        ensures
            final(self).wf(),
            edited(old(self)@, op@, final(self)@),
            final(self)@.cursor == old(self)@.cursor,
            final(self)@.selection == old(self)@.selection,
    {
        let ghost t0 = self@.text;
        let ghost u0 = self@.undo;
        op.apply(&mut self.rope);
        let ghost e = op@;
        self.push_undo(op);
        self.modified = true;
        self.redo_stack.clear();
        proof {
            lemma_recorded_history(t0, e, self@.text, u0, self@.undo, self@.coalesce_ms);
            lemma_groups_view_empty(self.redo_stack@);
        }
    }

    /// Delete the current selection and return whether it was deleted.
    fn delete_selection_text(&mut self) -> (deleted: bool)
        requires
            old(self).wf(),
        ensures
            final(self).wf(),
            deleted == selection_edit(old(self)@) is Some,
            selection_deleted(old(self)@, final(self)@),
    {
        let current = self.selection;
        self.selection = None;
        let sel = match current {
            Some(sel) => sel,
            None => {
                return false;
            },
        };
        let sel = sel.normalized();
        let start = self.cursor_to_char_offset(&sel.start);
        let end = self.cursor_to_char_offset(&sel.end);
        if start == end {
            return false;
        }
        proof {
            lemma_cursor_offset_mono(self@.text, sel.start, sel.end);
        }
        let text = rope_slice(&self.rope, start, end);
        let op = EditOp::Delete { char_offset: start, text };
        self.record(op);
        self.cursor = sel.start;
        true
    }

    /// Insert a character at the cursor position.
    pub fn insert_char(&mut self, ch: char)
        requires
            old(self).wf(),
            ch == '\n' ==> cursor_after_selection(old(self)@).line < usize::MAX,
            ch != '\n' ==> cursor_after_selection(old(self)@).col < usize::MAX,
        ensures
            final(self).wf(),
            char_inserted(old(self)@, ch, final(self)@),

    {
        self.delete_selection_text();
        let ghost mid = self@;
        let offset = self.cursor_to_char_offset(&self.cursor);
        let mut text = String::new();
        crate::text::push_char(&mut text, ch);
        proof {
            assert(text@ =~= seq![ch]);
        }
        let op = EditOp::Insert { char_offset: offset, text };
        self.record(op);
        if ch == '\n' {
            self.cursor.line = self.cursor.line + 1;
            self.cursor.col = 0;
        } else {
            self.cursor.col = self.cursor.col + 1;
        }
        proof {
            if let Some(d) = selection_edit(old(self)@) {
                assert(recorded(old(self)@.undo, d, mid.undo, old(self)@.coalesce_ms));
            }
        }
    }

    /// Insert a string at the cursor position.
    pub fn insert_text(&mut self, text: &str)
        requires
            old(self).wf(),
        ensures
            final(self).wf(),
            text_inserted(old(self)@, text@, final(self)@),

    {
        let n = text.unicode_len();
        if n == 0 {
            return;
        }
        self.delete_selection_text();
        let ghost mid = self@;
        let offset = self.cursor_to_char_offset(&self.cursor);
        let op = EditOp::Insert { char_offset: offset, text: String::from_str(text) };
        self.record(op);
        let len = rope_len_chars(&self.rope);
        let new_offset = offset + n;
        self.cursor = self.char_offset_to_cursor(new_offset);
        proof {
            if let Some(d) = selection_edit(old(self)@) {
                assert(recorded(old(self)@.undo, d, mid.undo, old(self)@.coalesce_ms));
            }
        }
    }

    /// Delete the character before the cursor (backspace).
    pub fn delete_back(&mut self)
        requires
            old(self).wf(),
        ensures
            final(self).wf(),
            deleted_back(old(self)@, final(self)@),

    {
        if self.delete_selection_text() {
            return;
        }
        let offset = self.cursor_to_char_offset(&self.cursor);
        if offset == 0 {
            return;
        }
        let prev_offset = offset - 1;
        let ch = rope_char(&self.rope, prev_offset);
        let mut text = String::new();
        crate::text::push_char(&mut text, ch);
        proof {
            assert(text@ =~= seq![ch]);
            assert(self@.text.subrange(prev_offset as int, prev_offset + 1) =~= seq![ch]);
        }
        let op = EditOp::Delete { char_offset: prev_offset, text };
        self.record(op);
        self.cursor = self.char_offset_to_cursor(prev_offset);
    }

    /// Delete the character at the cursor (delete key).
    pub fn delete_forward(&mut self)
        requires
            old(self).wf(),
        ensures
            final(self).wf(),
            deleted_forward(old(self)@, final(self)@),

    {
        if self.delete_selection_text() {
            return;
        }
        let offset = self.cursor_to_char_offset(&self.cursor);
        if offset >= rope_len_chars(&self.rope) {
            return;
        }
        let ch = rope_char(&self.rope, offset);
        let mut text = String::new();
        crate::text::push_char(&mut text, ch);
        proof {
            assert(text@ =~= seq![ch]);
            assert(self@.text.subrange(offset as int, offset + 1) =~= seq![ch]);
        }
        let op = EditOp::Delete { char_offset: offset, text };
        self.record(op);
        self.clamp_cursor();
    }

    /// Delete the entire current line.
    pub fn delete_line(&mut self)
        requires
            old(self).wf(),
            old(self)@.cursor.line <= line_count(old(self)@.text),
        ensures
            final(self).wf(),
            line_deleted(old(self)@, final(self)@),

    {
        let n = rope_len_lines(&self.rope);
        if n == 0 {
            return;
        }
        let line_start = rope_line_to_char(&self.rope, self.cursor.line);
        let line_end = if self.cursor.line < n - 1 {
            rope_line_to_char(&self.rope, self.cursor.line + 1)
        } else {
            rope_len_chars(&self.rope)
        };
        if line_start == line_end {
            return;
        }
        proof {
            let t = self@.text;
            let l = self@.cursor.line as int;
            lemma_line_start_bounds(t, l);
            lemma_line_start_bounds(t, l + 1);
            lemma_line_start_mono(t, l, l + 1);
        }
        let text = rope_slice(&self.rope, line_start, line_end);
        let op = EditOp::Delete { char_offset: line_start, text };
        self.record(op);
        self.cursor.col = 0;
        self.clamp_cursor();
    }

    /// Yank (copy) the current line and return it.
    pub fn yank_line(&self) -> (s: String)
        ensures
            s@ == line_text_of(self@.text, self@.cursor.line as int).push('\n'),
    {
        let mut s = self.line_text(self.cursor.line);
        crate::text::push_char(&mut s, '\n');
        s
    }

    /// The offset where the line after the cursor's starts, or the end of
    /// the text when the cursor is on the last line.
    fn next_line_start(&self) -> (o: usize)
        ensures
            o == (if self@.cursor.line + 1 < line_count(self@.text) {
                line_start(self@.text, self@.cursor.line + 1)
            } else {
                self@.text.len() as int
            }),
            o <= self@.text.len(),
    {
        let n = rope_len_lines(&self.rope);
        proof {
            lemma_line_count_bounds(self@.text);
            lemma_line_start_bounds(self@.text, self@.cursor.line + 1);
        }
        if self.cursor.line < n - 1 {
            rope_line_to_char(&self.rope, self.cursor.line + 1)
        } else {
            rope_len_chars(&self.rope)
        }
    }

    /// Paste text below the current line.
    pub fn paste_below(&mut self, text: &str)
        requires
            old(self).wf(),
            old(self)@.cursor.line < usize::MAX,
        ensures
            final(self).wf(),
            pasted_below(old(self)@, text@, final(self)@),

    {
        let next_line_start = self.next_line_start();
        let n = rope_len_lines(&self.rope);
        let insert_text = if self.cursor.line >= n - 1 {
            let mut s = String::new();
            crate::text::push_char(&mut s, '\n');
            s.append(text);
            s
        } else {
            String::from_str(text)
        };
        proof {
            if self@.cursor.line + 1 >= line_count(self@.text) {
                assert(insert_text@ =~= seq!['\n'] + text@);
            }
        }
        let op = EditOp::Insert { char_offset: next_line_start, text: insert_text };
        self.record(op);
        self.cursor.line = self.cursor.line + 1;
        self.cursor.col = 0;
    }
    /// Undo the last edit group.
    pub fn undo(&mut self)
        requires
            old(self).wf(),
        ensures
            final(self).wf(),
            final(self)@ == undone(old(self)@),
    {
        let ghost v0 = self@;
        let ghost stack0 = self.undo_stack@;
        let group = match self.undo_stack.pop() {
            Some(g) => g,
            None => {
                return;
            },
        };
        proof {
            lemma_groups_view_drop_last(stack0);
        }
        let ghost es = group_edits(group);
        let ghost target = revert_edits(v0.text, es).unwrap();
        proof {
            assert(es.take(group.ops@.len() as int) =~= es);
        }
        let mut i = group.ops.len();
        while i > 0
            invariant
                i <= group.ops@.len(),
                es == group_edits(group),
                revert_edits(rope_chars(self.rope), es.take(i as int)) == Some(target),
                self.undo_stack@ == stack0.drop_last(),
                self.redo_stack@ == old(self).redo_stack@,
                self.cursor == old(self).cursor,
                self.selection == old(self).selection,
                self.modified == old(self).modified,
                self.file_path == old(self).file_path,
                self.coalesce_ms == old(self).coalesce_ms,
            decreases i,
        {
            let ghost t = es.take(i as int);
            proof {
                assert(t.last() == group.ops@[i - 1]@);
                assert(t.drop_last() =~= es.take(i - 1));
            }
            let rev = group.ops[i - 1].reverse();
            rev.apply(&mut self.rope);
            i = i - 1;
        }
        proof {
            assert(es.take(0) =~= Seq::<Edit>::empty());
            lemma_revert_then_apply(v0.text, es, target);
            lemma_groups_view_push(self.redo_stack@, group);
            assert(v0.undo.last() == es);
            assert(undo_base(target, v0.undo.drop_last()) is Some);
            assert(v0.redo.push(es).drop_last() =~= v0.redo);
            assert(redo_end(target, v0.redo.push(es)) == redo_end(v0.text, v0.redo));
        }
        self.redo_stack.push(group);
        self.clamp_cursor();
        self.modified = true;
    }

    /// Redo the last undone edit group.
    pub fn redo(&mut self)
        requires
            old(self).wf(),
        ensures
            final(self).wf(),
            final(self)@ == redone(old(self)@),
    {
        let ghost v0 = self@;
        let ghost stack0 = self.redo_stack@;
        let group = match self.redo_stack.pop() {
            Some(g) => g,
            None => {
                return;
            },
        };
        proof {
            lemma_groups_view_drop_last(stack0);
        }
        let ghost es = group_edits(group);
        let ghost target = apply_edits(v0.text, es).unwrap();
        proof {
            assert(es.skip(0) =~= es);
        }
        let mut i: usize = 0;
        while i < group.ops.len()
            invariant
                i <= group.ops@.len(),
                es == group_edits(group),
                apply_edits(rope_chars(self.rope), es.skip(i as int)) == Some(target),
                self.redo_stack@ == stack0.drop_last(),
                self.undo_stack@ == old(self).undo_stack@,
                self.cursor == old(self).cursor,
                self.selection == old(self).selection,
                self.modified == old(self).modified,
                self.file_path == old(self).file_path,
                self.coalesce_ms == old(self).coalesce_ms,
            decreases group.ops@.len() - i,
        {
            let ghost t = es.skip(i as int);
            proof {
                assert(t[0] == group.ops@[i as int]@);
                assert(t.skip(1) =~= es.skip(i + 1));
            }
            group.ops[i].apply(&mut self.rope);
            i = i + 1;
        }
        proof {
            assert(es.skip(i as int) =~= Seq::<Edit>::empty());
            lemma_apply_then_revert(v0.text, es, target);
            lemma_groups_view_push(self.undo_stack@, group);
            assert(v0.redo.last() == es);
            assert(redo_end(target, v0.redo.drop_last()) is Some);
            assert(v0.undo.push(es).drop_last() =~= v0.undo);
            assert(undo_base(target, v0.undo.push(es)) == undo_base(v0.text, v0.undo));
        }
        self.undo_stack.push(group);
        self.clamp_cursor();
        self.modified = true;
    }

    // --- Line Operations ---

    /// Insert a new line below cursor and move cursor to it.
    pub fn open_line_below(&mut self)
        requires
            old(self).wf(),
            old(self)@.cursor.line < usize::MAX,
        ensures
            final(self).wf(),
            opened_below(old(self)@, final(self)@),

    {
        let line_end_offset = self.next_line_start();
        let mut text = String::new();
        crate::text::push_char(&mut text, '\n');
        proof {
            assert(text@ =~= seq!['\n']);
        }
        let op = EditOp::Insert { char_offset: line_end_offset, text };
        self.record(op);
        self.cursor.line = self.cursor.line + 1;
        self.cursor.col = 0;
    }

    /// Insert a new line above cursor and move cursor to it.
    pub fn open_line_above(&mut self)
        requires
            old(self).wf(),
            old(self)@.cursor.line <= line_count(old(self)@.text),
        ensures
            final(self).wf(),
            opened_above(old(self)@, final(self)@),

    {
        let line_start = rope_line_to_char(&self.rope, self.cursor.line);
        proof {
            lemma_line_start_bounds(self@.text, self@.cursor.line as int);
        }
        let mut text = String::new();
        crate::text::push_char(&mut text, '\n');
        proof {
            assert(text@ =~= seq!['\n']);
        }
        let op = EditOp::Insert { char_offset: line_start, text };
        self.record(op);
        // The cursor keeps its line number, which is now the new blank line.
        self.cursor.col = 0;
    }
    // --- Cursor Movement ---

    /// Move cursor left.
    pub fn move_left(&mut self)
        ensures
            final(self)@ == moved_left(old(self)@),

    {
        self.selection = None;
        if self.cursor.col > 0 {
            self.cursor.col = self.cursor.col - 1;
        } else if self.cursor.line > 0 {
            self.cursor.line = self.cursor.line - 1;
            self.cursor.col = self.line_len(self.cursor.line);
        }
    }

    /// Move cursor right.
    pub fn move_right(&mut self)
        ensures
            final(self)@ == moved_right(old(self)@),

    {
        self.selection = None;
        let line_len = self.line_len(self.cursor.line);
        let n = rope_len_lines(&self.rope);
        proof {
            lemma_line_count_bounds(self@.text);
        }
        if self.cursor.col < line_len {
            self.cursor.col = self.cursor.col + 1;
        } else if self.cursor.line < n - 1 {
            self.cursor.line = self.cursor.line + 1;
            self.cursor.col = 0;
        }
    }

    /// Move cursor up.
    pub fn move_up(&mut self)
        ensures
            final(self)@ == moved_up(old(self)@),

    {
        self.selection = None;
        if self.cursor.line > 0 {
            self.cursor.line = self.cursor.line - 1;
            let line_len = self.line_len(self.cursor.line);
            if line_len < self.cursor.col {
                self.cursor.col = line_len;
            }
        }
    }

    /// Move cursor down.
    pub fn move_down(&mut self)
        ensures
            final(self)@ == moved_down(old(self)@),

    {
        self.selection = None;
        let n = rope_len_lines(&self.rope);
        proof {
            lemma_line_count_bounds(self@.text);
        }
        if self.cursor.line < n - 1 {
            self.cursor.line = self.cursor.line + 1;
            let line_len = self.line_len(self.cursor.line);
            if line_len < self.cursor.col {
                self.cursor.col = line_len;
            }
        }
    }

    /// Move cursor to start of line.
    pub fn move_to_line_start(&mut self)
        ensures
            final(self)@ == at_line_start(old(self)@),

    {
        self.selection = None;
        self.cursor.col = 0;
    }

    /// Move cursor to end of line.
    pub fn move_to_line_end(&mut self)
        ensures
            final(self)@ == at_line_end(old(self)@),

    {
        self.selection = None;
        self.cursor.col = self.line_len(self.cursor.line);
    }

    /// Move cursor to start of document.
    pub fn move_to_doc_start(&mut self)
        ensures
            final(self)@ == at_doc_start(old(self)@),

    {
        self.selection = None;
        self.cursor.line = 0;
        self.cursor.col = 0;
    }

    /// Move cursor to end of document.
    pub fn move_to_doc_end(&mut self)
        ensures
            final(self)@ == at_doc_end(old(self)@),

    {
        self.selection = None;
        proof {
            lemma_line_count_bounds(self@.text);
        }
        self.cursor.line = rope_len_lines(&self.rope) - 1;
        self.cursor.col = self.line_len(self.cursor.line);
    }

    /// Move cursor forward by one word.
    pub fn move_word_forward(&mut self)
        ensures
            final(self)@ == word_forward(old(self)@),

    {
        self.selection = None;
        let line = self.line_text(self.cursor.line);
        let chars = chars_of(line.as_str());
        if self.cursor.col >= chars.len() {
            // Move to next line
            let n = rope_len_lines(&self.rope);
            proof {
                lemma_line_count_bounds(self@.text);
            }
            if self.cursor.line < n - 1 {
                self.cursor.line = self.cursor.line + 1;
                self.cursor.col = 0;
            }
            return;
        }
        let ghost v = chars@;
        let mut col = self.cursor.col;
        proof {
            lemma_word_end_bounds(v, col as int);
        }
        // Skip current word chars
        while col < chars.len() && !is_whitespace(chars[col])
            invariant
                col <= chars@.len(),
                chars@ == v,
                word_end(v, col as int) == word_end(v, old(self).cursor.col as int),
            decreases chars@.len() - col,
        {
            col = col + 1;
        }
        let ghost mid = col as int;
        // Skip whitespace
        while col < chars.len() && is_whitespace(chars[col])
            invariant
                mid <= col <= chars@.len(),
                chars@ == v,
                ws_prefix_end(v, col as int) == ws_prefix_end(v, mid),
            decreases chars@.len() - col,
        {
            col = col + 1;
        }
        self.cursor.col = col;
    }

    /// Move cursor backward by one word.
    pub fn move_word_backward(&mut self)
        requires
            old(self)@.cursor.col == 0 || old(self)@.cursor.col <= line_len_of(
                old(self)@.text,
                old(self)@.cursor.line as int,
            ),
        ensures
            final(self)@ == word_backward(old(self)@),

    {
        self.selection = None;
        if self.cursor.col == 0 {
            if self.cursor.line > 0 {
                self.cursor.line = self.cursor.line - 1;
                self.cursor.col = self.line_len(self.cursor.line);
            }
            return;
        }
        let line = self.line_text(self.cursor.line);
        let chars = chars_of(line.as_str());
        let ghost v = chars@;
        let mut col = self.cursor.col;
        // Skip whitespace backward
        while col > 0 && is_whitespace(chars[col - 1])
            invariant
                col <= chars@.len(),
                chars@ == v,
                ws_suffix_start(v, col as int) == ws_suffix_start(v, old(self).cursor.col as int),
            decreases col,
        {
            col = col - 1;
        }
        let ghost mid = col as int;
        // Skip word chars backward
        while col > 0 && !is_whitespace(chars[col - 1])
            invariant
                col <= mid <= chars@.len(),
                chars@ == v,
                word_start(v, col as int) == word_start(v, mid),
            decreases col,
        {
            col = col - 1;
        }
        self.cursor.col = col;
    }

    /// Move cursor half-page down.
    pub fn move_half_page_down(&mut self, visible_lines: usize)
        requires
            old(self)@.cursor.line + visible_lines / 2 <= usize::MAX,
        ensures
            final(self)@ == half_page_down(old(self)@, visible_lines),

    {
        self.selection = None;
        let half = visible_lines / 2;
        proof {
            lemma_line_count_bounds(self@.text);
        }
        let max_line = rope_len_lines(&self.rope) - 1;
        let target = self.cursor.line + half;
        self.cursor.line = if target < max_line {
            target
        } else {
            max_line
        };
        let line_len = self.line_len(self.cursor.line);
        if line_len < self.cursor.col {
            self.cursor.col = line_len;
        }
    }

    /// Move cursor half-page up.
    pub fn move_half_page_up(&mut self, visible_lines: usize)
        ensures
            final(self)@ == half_page_up(old(self)@, visible_lines),

    {
        self.selection = None;
        let half = visible_lines / 2;
        self.cursor.line = if self.cursor.line >= half {
            self.cursor.line - half
        } else {
            0
        };
        let line_len = self.line_len(self.cursor.line);
        if line_len < self.cursor.col {
            self.cursor.col = line_len;
        }
    }

    /// Set cursor to a specific position.
    pub fn set_cursor(&mut self, line: usize, col: usize)
        ensures
            final(self)@ == (EditorView {
                cursor: clamped(old(self)@.text, Cursor { line, col }),
                ..old(self)@
            }),
            final(self)@.cursor.line < line_count(old(self)@.text),
            final(self)@.cursor.col <= line_len_of(old(self)@.text, final(self)@.cursor.line as int),
    {
        proof {
            lemma_line_count_bounds(self@.text);
        }
        let max_line = rope_len_lines(&self.rope) - 1;
        self.cursor.line = if line < max_line {
            line
        } else {
            max_line
        };
        let line_len = self.line_len(self.cursor.line);
        self.cursor.col = if col < line_len {
            col
        } else {
            line_len
        };
    }

    // --- Selection ---

    /// Start or extend selection from current cursor.
    pub fn start_selection(&mut self)
        ensures
            final(self)@ == selection_started(old(self)@),

    {
        if self.selection.is_none() {
            self.selection = Some(Selection { start: self.cursor, end: self.cursor });
        }
    }

    /// Extend selection to current cursor position.
    pub fn extend_selection_to_cursor(&mut self)
        ensures
            final(self)@ == selection_extended(old(self)@),

    {
        if let Some(sel) = self.selection {
            self.selection = Some(Selection { start: sel.start, end: self.cursor });
        }
    }

    /// Clear selection.
    pub fn clear_selection(&mut self)
        ensures
            final(self)@ == selection_cleared(old(self)@),

    {
        self.selection = None;
    }

    /// Get the selected text, if any.
    pub fn selected_text(&self) -> (r: Option<String>)
        ensures
            match selection_edit(self@) {
                Some(e) => r is Some && r.unwrap()@ == e->Delete_text,
                None => r is None,
            },
    {
        let sel = match self.selection {
            Some(sel) => sel.normalized(),
            None => {
                return None;
            },
        };
        let start = self.cursor_to_char_offset(&sel.start);
        let end = self.cursor_to_char_offset(&sel.end);
        if start == end {
            return None;
        }
        proof {
            lemma_cursor_offset_mono(self@.text, sel.start, sel.end);
        }
        Some(rope_slice(&self.rope, start, end))
    }
}

impl Default for EditorBuffer {
    fn default() -> (b: Self)
        ensures
            b.wf(),
            b@ == fresh_view(Seq::<char>::empty()),

    {
        Self::new()
    }
}

} // verus!
