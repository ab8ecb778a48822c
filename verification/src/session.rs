//! The editor window's event handling: what a key press changes in the
//! view state, and what it asks the application to do.
//!
//! The application owns the window, the files and the search index.  For
//! each key press it calls [`Session::on_key`], performs the returned
//! [`Effect`] (reporting back through [`Session::open_note`] or
//! [`Session::note_saved`]), and then calls [`Session::settle`].

use crate::editor::{
    at_doc_end, at_doc_start, at_line_end, at_line_start, char_inserted, clamped,
    cursor_after_selection, deleted_back, deleted_forward, fresh_view, half_page_down, half_page_up,
    line_deleted, line_len_of, line_text_of, moved_down, moved_left, moved_right,
    moved_up, opened_above, opened_below, pasted_below, redone, selection_cleared,
    selection_edit, selection_extended, selection_started, undone, word_backward, word_forward,
    Cursor, EditorBuffer, EditorView,
};
use crate::input::{
    command_action, command_word, is_write_quit, key_step, parse_command, writes_and_quits, Action, InputHandler, InputState,
    KeyCode, Modifiers, Mode,
};
use crate::links::{extract_wiki_links, link_targets, matches_from, range_text};
use crate::rope::line_count;
use crate::notes::strs;
use crate::render::{scrolled_to, ViewState};
use crate::text::{chars_of, contains_chars, contains_seq, lowercase, push_char, to_lowercase};
use vstd::prelude::*;
use vstd::string::{StrSliceExecFns, StringExecFns};

verus! {

broadcast use vstd::string::group_string_axioms;

/// What a key press asks the application to do.
pub enum Effect {
    /// Nothing.
    Nothing,
    /// Close the window.
    Quit,
    /// Write `content` to the note `id`; on success call
    /// [`Session::note_saved`], when `reindex` is set also re-index the
    /// note for search, and when `quit` is set close the window.
    Save { id: String, content: String, reindex: bool, quit: bool },
    /// Open the note that the lowercased link target `target` names, if the
    /// vault has one, with [`Session::open_note`].
    FollowLink { target: String },
    /// Open the best fuzzy match for `query`, if any, with
    /// [`Session::open_note`].
    OpenFirstMatch { query: String },
}

/// The abstract form of an [`Effect`].
pub enum EffectView {
    Nothing,
    Quit,
    Save { id: Seq<char>, content: Seq<char>, reindex: bool, quit: bool },
    FollowLink { target: Seq<char> },
    OpenFirstMatch { query: Seq<char> },
}

impl View for Effect {
    type V = EffectView;

    open spec fn view(&self) -> EffectView {
        match self {
            Effect::Nothing => EffectView::Nothing,
            Effect::Quit => EffectView::Quit,
            Effect::Save { id, content, reindex, quit } => EffectView::Save {
                id: id@,
                content: content@,
                reindex: *reindex,
                quit: *quit,
            },
            Effect::FollowLink { target } => EffectView::FollowLink { target: target@ },
            Effect::OpenFirstMatch { query } => EffectView::OpenFirstMatch { query: query@ },
        }
    }
}

/// The editor window's state between key presses.
pub struct Session {
    /// What the renderer draws.
    pub state: ViewState,
    /// The text yanked last.
    pub clipboard: String,
    /// The modal key handler.
    pub input: InputHandler,
}

/// The abstract state of a session.
#[verifier::ext_equal]
pub struct SessionView {
    pub buffer: EditorView,
    pub mode: Mode,
    pub scroll: usize,
    pub show_preview: bool,
    pub show_note_list: bool,
    pub note_list: Seq<Seq<char>>,
    pub selected: usize,
    pub status: Seq<char>,
    pub command: Seq<char>,
    pub search: Seq<char>,
    pub backlinks: Seq<Seq<char>>,
    pub clipboard: Seq<char>,
    pub input: InputState,
}

impl View for Session {
    type V = SessionView;

    open spec fn view(&self) -> SessionView {
        SessionView {
            buffer: self.state.buffer@,
            mode: self.state.mode,
            scroll: self.state.scroll_offset,
            show_preview: self.state.show_preview,
            show_note_list: self.state.show_note_list,
            note_list: strs(self.state.note_list@),
            selected: self.state.note_list_selected,
            status: self.state.status_message@,
            command: self.state.command_text@,
            search: self.state.search_query@,
            backlinks: strs(self.state.backlinks@),
            clipboard: self.clipboard@,
            input: self.input@,
        }
    }
}

/// Whether `line` holds a link to `t`, as `[[t]]` or `[[t|`.
pub open spec fn links_on_line(line: Seq<char>, t: Seq<char>) -> bool {
    ||| contains_seq(line, "[["@ + t + "]]"@)
    ||| contains_seq(line, "[["@ + t + "|"@)
}

/// The first of `targets[i..]` that `line` links to.
pub open spec fn first_on_line(targets: Seq<Seq<char>>, line: Seq<char>, i: int) -> Option<
    Seq<char>,
>
    decreases targets.len() - i,
{
    if 0 <= i < targets.len() {
        if links_on_line(line, targets[i]) {
            Some(targets[i])
        } else {
            first_on_line(targets, line, i + 1)
        }
    } else {
        None
    }
}

/// The link to follow from the cursor: the first link of the text that
/// the cursor's line holds.
pub open spec fn follow_target(b: EditorView) -> Option<Seq<char>> {
    first_on_line(link_targets(b.text), line_text_of(b.text, b.cursor.line as int), 0)
}

/// The text of a new note.
pub open spec fn new_note_text() -> Seq<char> {
    "---\ntitle: Untitled\ntags: []\n---\n\n# Untitled\n\n"@
}

/// The buffer of a new note: its template, the cursor on the line after
/// the heading.
pub open spec fn new_note_view() -> EditorView {
    EditorView {
        cursor: clamped(new_note_text(), Cursor { line: 6, col: 0 }),
        ..fresh_view(new_note_text())
    }
}

/// Whether typing `ch` can move the cursor without overflow.
pub open spec fn typing_fits(b: EditorView, ch: char) -> bool {
    &&& ch == '\n' ==> cursor_after_selection(b).line < usize::MAX
    &&& ch != '\n' ==> cursor_after_selection(b).col < usize::MAX
}

/// The buffer operations an action performs can run on `b`: the cursor
/// stays within the ranges the operation needs.
pub open spec fn action_fits(b: EditorView, a: Action, visible: usize, clipboard: Seq<char>) -> bool {
    match a {
        Action::InsertChar(c) => typing_fits(b, c),
        Action::InsertNewline => typing_fits(b, '\n'),
        Action::DeleteLine => b.cursor.line <= line_count(b.text),
        Action::OpenLineAbove => b.cursor.line <= line_count(b.text),
        Action::OpenLineBelow => b.cursor.line < usize::MAX,
        Action::PasteBelow => clipboard.len() > 0 ==> b.cursor.line < usize::MAX,
        Action::MoveWordBackward => b.cursor.col == 0 || b.cursor.col <= line_len_of(
            b.text,
            b.cursor.line as int,
        ),
        Action::MoveHalfPageDown => b.cursor.line + visible / 2 <= usize::MAX,
        _ => true,
    }
}

/// `nb` is the buffer `b` after the action `a`.  Note that `DeleteSelection`
/// (Visual-mode `d`) only clears the selection and leaves the text as it
/// was, as the editor has always done.
pub open spec fn buffer_after(
    b: EditorView,
    a: Action,
    visible: usize,
    clipboard: Seq<char>,
    nb: EditorView,
) -> bool {
    match a {
        Action::MoveLeft => nb == moved_left(b),
        Action::MoveRight => nb == moved_right(b),
        Action::MoveUp => nb == moved_up(b),
        Action::MoveDown => nb == moved_down(b),
        Action::MoveWordForward => nb == word_forward(b),
        Action::MoveWordBackward => nb == word_backward(b),
        Action::MoveLineStart => nb == at_line_start(b),
        Action::MoveLineEnd => nb == at_line_end(b),
        Action::MoveDocStart => nb == at_doc_start(b),
        Action::MoveDocEnd => nb == at_doc_end(b),
        Action::MoveHalfPageDown => nb == half_page_down(b, visible),
        Action::MoveHalfPageUp => nb == half_page_up(b, visible),
        Action::InsertChar(c) => char_inserted(b, c, nb),
        Action::InsertNewline => char_inserted(b, '\n', nb),
        Action::DeleteBack => deleted_back(b, nb),
        Action::DeleteForward => deleted_forward(b, nb),
        Action::DeleteLine => line_deleted(b, nb),
        Action::PasteBelow => if clipboard.len() > 0 {
            pasted_below(b, clipboard, nb)
        } else {
            nb == b
        },
        Action::OpenLineBelow => opened_below(b, nb),
        Action::OpenLineAbove => opened_above(b, nb),
        Action::EnterInsertModeAppend => nb == moved_right(b),
        Action::EnterVisualMode => nb == selection_started(b),
        Action::ExitToNormal => nb == selection_cleared(b),
        Action::ExtendSelection => nb == selection_extended(b),
        Action::YankSelection => nb == selection_cleared(b),
        // Visual-mode `d` only drops the selection: the selected text stays
        // in the buffer and the clipboard is left alone. That is what the
        // editor has always done; deleting the text is not part of it.
        Action::DeleteSelection => nb == selection_cleared(b),
        Action::Undo => nb == undone(b),
        Action::Redo => nb == redone(b),
        Action::NewNote => nb == new_note_view(),
        _ => nb == b,
    }
}

/// The clipboard after the action `a`.
pub open spec fn clipboard_after(v: SessionView, a: Action) -> Seq<char> {
    match a {
        Action::YankLine => line_text_of(v.buffer.text, v.buffer.cursor.line as int).push('\n'),
        Action::YankSelection => match selection_edit(v.buffer) {
            Some(e) => e->Delete_text,
            None => v.clipboard,
        },
        _ => v.clipboard,
    }
}

/// Whether the command line holds a quit command.
pub open spec fn quits(v: SessionView) -> bool {
    command_action(command_word(v.command)) == Action::Quit
}

/// The mode shown after the action `a`, before it is brought in line with
/// the key handler's.
pub open spec fn mode_after(v: SessionView, a: Action) -> Mode {
    match a {
        Action::EnterInsertMode => Mode::Insert,
        Action::EnterInsertModeAppend => Mode::Insert,
        Action::NewNote => Mode::Insert,
        Action::EnterVisualMode => Mode::Visual,
        Action::EnterCommandMode => Mode::Command,
        Action::EnterSearchMode => Mode::Search,
        Action::FindFile => Mode::Search,
        Action::SearchVault => Mode::Search,
        Action::ExitToNormal => Mode::Normal,
        Action::CommandCancel => Mode::Normal,
        Action::SearchSubmit => Mode::Normal,
        Action::SearchCancel => Mode::Normal,
        Action::CommandSubmit => if quits(v) {
            v.mode
        } else {
            Mode::Normal
        },
        _ => v.mode,
    }
}

/// The command line after the action `a`.
pub open spec fn command_after(v: SessionView, a: Action) -> Seq<char> {
    match a {
        Action::EnterCommandMode => Seq::empty(),
        Action::ExitToNormal => Seq::empty(),
        Action::CommandCancel => Seq::empty(),
        Action::CommandInput(c) => v.command.push(c),
        Action::CommandSubmit => if quits(v) {
            v.command
        } else {
            Seq::empty()
        },
        _ => v.command,
    }
}

/// The search line after the action `a`.
pub open spec fn search_after(v: SessionView, a: Action) -> Seq<char> {
    match a {
        Action::EnterSearchMode => Seq::empty(),
        Action::FindFile => Seq::empty(),
        Action::SearchVault => Seq::empty(),
        Action::SearchCancel => Seq::empty(),
        Action::SearchInput(c) => v.search.push(c),
        _ => v.search,
    }
}

/// The selected entry of the note list after the action `a`.
pub open spec fn selected_after(v: SessionView, a: Action) -> usize {
    match a {
        Action::NoteListNext => if v.selected + 1 < v.note_list.len() {
            (v.selected + 1) as usize
        } else {
            v.selected
        },
        Action::NoteListPrev => if v.selected > 0 {
            (v.selected - 1) as usize
        } else {
            0
        },
        _ => v.selected,
    }
}

/// The save request for the buffer's note, if it has one.
pub open spec fn save_effect(b: EditorView, reindex: bool, quit: bool) -> EffectView {
    match b.file_path {
        Some(id) => EffectView::Save { id, content: b.text, reindex, quit },
        None => EffectView::Nothing,
    }
}

/// What the action `a` asks the application to do.
pub open spec fn effect_of(v: SessionView, a: Action) -> EffectView {
    match a {
        Action::Quit => EffectView::Quit,
        Action::Save => save_effect(v.buffer, true, false),
        Action::CommandSubmit => if quits(v) {
            EffectView::Quit
        } else if command_action(command_word(v.command)) == Action::Save {
            save_effect(v.buffer, false, writes_and_quits(v.command))
        } else {
            EffectView::Nothing
        },
        Action::FollowLink => match follow_target(v.buffer) {
            Some(t) => EffectView::FollowLink { target: lowercase(t) },
            None => EffectView::Nothing,
        },
        Action::SearchSubmit => if v.search.len() > 0 {
            EffectView::OpenFirstMatch { query: v.search }
        } else {
            EffectView::Nothing
        },
        _ => EffectView::Nothing,
    }
}

/// `new` and `e` are the state and the request after the action `a` in
/// `old`, in a window of `visible` lines; the key handler is not part of it.
pub open spec fn apply_step(
    old: SessionView,
    a: Action,
    visible: usize,
    new: SessionView,
    e: EffectView,
) -> bool {
    &&& buffer_after(old.buffer, a, visible, old.clipboard, new.buffer)
    &&& new.clipboard == clipboard_after(old, a)
    &&& new.mode == mode_after(old, a)
    &&& new.command == command_after(old, a)
    &&& new.search == search_after(old, a)
    &&& new.selected == selected_after(old, a)
    &&& new.show_preview == if a == Action::TogglePreview {
        !old.show_preview
    } else {
        old.show_preview
    }
    &&& new.show_note_list == if a == Action::ToggleNoteList {
        !old.show_note_list
    } else {
        old.show_note_list
    }
    &&& new.scroll == old.scroll
    &&& new.status == old.status
    &&& new.note_list == old.note_list
    &&& new.backlinks == old.backlinks
    &&& e == effect_of(old, a)
}

/// `new` and `e` are the state and the request after the key `key` with
/// `mods` in `old`, in a window of `visible` lines.
pub open spec fn session_step(
    old: SessionView,
    key: KeyCode,
    mods: Modifiers,
    visible: usize,
    new: SessionView,
    e: EffectView,
) -> bool {
    let (input, a) = key_step(old.input, key, mods);
    &&& new.input == input
    &&& apply_step(old, a, visible, new, e)
}

/// Ctrl+S in Normal mode (nothing pending) or Insert mode asks to save the
/// buffer's note with its current text and to re-index it, without
/// quitting, and leaves the buffer as it is; with no note open it asks for
/// nothing.
pub proof fn law_ctrl_s_saves(
    old: SessionView,
    mods: Modifiers,
    visible: usize,
    new: SessionView,
    e: EffectView,
)
    requires
        mods.ctrl,
        old.input.mode == Mode::Insert || (old.input.mode == Mode::Normal && !old.input.leader_pending
            && !old.input.g_pending && !old.input.d_pending),
        session_step(old, KeyCode::Char('s'), mods, visible, new, e),
    ensures
        new.buffer == old.buffer,
        match old.buffer.file_path {
            Some(p) => e == EffectView::Save { id: p, content: old.buffer.text, reindex: true, quit: false },
            None => e == EffectView::Nothing,
        },
{
}

/// Enter on the command line: `q` or `quit` closes the window; `w` or
/// `save` asks to save the note (no re-index) and `wq` to save it and then
/// quit, when a note is open; any other command asks for nothing. After
/// anything but a quit, the command line is cleared and the mode is Normal.
pub proof fn law_command_submit(
    old: SessionView,
    mods: Modifiers,
    visible: usize,
    new: SessionView,
    e: EffectView,
)
    requires
        old.input.mode == Mode::Command,
        session_step(old, KeyCode::Enter, mods, visible, new, e),
    ensures
        (command_word(old.command) == "q"@ || command_word(old.command) == "quit"@) ==> e
            == EffectView::Quit,
        (command_word(old.command) == "w"@ || command_word(old.command) == "save"@ || command_word(
            old.command,
        ) == "wq"@) ==> match old.buffer.file_path {
            Some(p) => e == EffectView::Save {
                id: p,
                content: old.buffer.text,
                reindex: false,
                quit: command_word(old.command) == "wq"@,
            },
            None => e == EffectView::Nothing,
        },
        !(command_word(old.command) == "q"@ || command_word(old.command) == "quit"@ || command_word(
            old.command,
        ) == "w"@ || command_word(old.command) == "save"@ || command_word(old.command) == "wq"@)
            ==> e == EffectView::Nothing,
        !(command_word(old.command) == "q"@ || command_word(old.command) == "quit"@)
            ==> new.command.len() == 0 && new.mode == Mode::Normal,
{
    reveal_strlit("q");
    reveal_strlit("quit");
    reveal_strlit("w");
    reveal_strlit("save");
    reveal_strlit("wq");
    reveal_strlit("new");
    reveal_strlit("search");
    reveal_strlit("e");
    reveal_strlit("open");
    assert("w"@[0] == 'w' && "q"@[0] == 'q');
    assert("save"@.len() == 4 && "q"@.len() == 1 && "quit"@.len() == 4 && "wq"@.len() == 2);
    assert("save"@[0] == 's' && "quit"@[0] == 'q');
}

impl Session {
    /// A session over `state`, with an empty clipboard and the key handler
    /// in normal mode.
    pub fn new(state: ViewState) -> (s: Self)
        ensures
            s.state == state,
            s@.clipboard.len() == 0,
            s@.input.mode == Mode::Normal,
            !s@.input.leader_pending && !s@.input.g_pending && !s@.input.d_pending,
            s@.input.command.len() == 0,
            s@.input.search.len() == 0,
    {
        Session { state, clipboard: String::new(), input: InputHandler::new() }
    }

    /// The session a window opens with: the note list filled with
    /// `note_titles`, the preview as configured, the note list shown.
    pub fn start(note_titles: Vec<String>, show_preview: bool) -> (s: Self)
        ensures
            s.state.buffer.wf(),
            s@.buffer == fresh_view(Seq::<char>::empty()),
            s@.note_list == strs(note_titles@),
            s@.show_preview == show_preview,
            s@.show_note_list,
            s@.mode == Mode::Normal,
            s@.scroll == 0,
            s@.selected == 0,
            s@.clipboard.len() == 0,
            s@.input.mode == Mode::Normal,
            !s@.input.leader_pending && !s@.input.g_pending && !s@.input.d_pending,
            s@.input.command.len() == 0,
            s@.input.search.len() == 0,
            s@.status.len() == 0,
            s@.command.len() == 0,
            s@.search.len() == 0,
            s@.backlinks.len() == 0,
    {
        let mut state = ViewState::default();
        state.note_list = note_titles;
        state.show_preview = show_preview;
        state.show_note_list = true;
        Self::new(state)
    }

    /// Show the note `id` with `content` in a fresh buffer, scrolled to the
    /// top.
    pub fn open_note(&mut self, id: &str, content: &str)
        ensures
            final(self).state.buffer.wf(),
            final(self)@ == (SessionView {
                buffer: EditorView { file_path: Some(id@), ..fresh_view(content@) },
                scroll: 0,
                ..old(self)@
            }),
    {
        self.state.buffer = EditorBuffer::from_text(content);
        self.state.buffer.set_file_path(id);
        self.state.scroll_offset = 0;
    }

    /// Record that the buffer's note was written.
    pub fn note_saved(&mut self)
        ensures
            final(self)@ == (SessionView {
                buffer: EditorView { modified: false, ..old(self)@.buffer },
                status: "Saved."@,
                ..old(self)@
            }),
            final(self).state.buffer.wf() == old(self).state.buffer.wf(),
    {
        self.state.buffer.mark_saved();
        self.state.status_message = String::from_str("Saved.");
    }

    /// After a key press: show the key handler's mode, and scroll so the
    /// cursor is inside a window of `visible` lines.
    pub fn settle(&mut self, visible: usize)
        requires
            visible > 0 && old(self)@.buffer.cursor.line >= old(self)@.scroll ==> old(self)@.scroll
                + visible <= usize::MAX,
        ensures
            final(self)@ == (SessionView {
                mode: old(self)@.input.mode,
                scroll: scrolled_to(old(self)@.scroll, old(self)@.buffer.cursor.line, visible),
                ..old(self)@
            }),
            final(self).state.buffer == old(self).state.buffer,
    {
        self.state.mode = self.input.mode();
        self.state.ensure_cursor_visible(visible);
    }

    /// The save request for the buffer's note.
    fn save_request(&self, reindex: bool, quit: bool) -> (e: Effect)
        ensures
            e@ == save_effect(self@.buffer, reindex, quit),
    {
        match self.state.buffer.file_path() {
            Some(id) => Effect::Save {
                id: String::from_str(id),
                content: self.state.buffer.text(),
                reindex,
                quit,
            },
            None => Effect::Nothing,
        }
    }

    /// The first link of the text that the cursor's line holds.
    fn link_to_follow(&self) -> (r: Option<String>)
        ensures
            match follow_target(self@.buffer) {
                Some(t) => r is Some && r.unwrap()@ == t,
                None => r is None,
            },
    {
        let content = self.state.buffer.text();
        let cursor = self.state.buffer.cursor();
        let links = extract_wiki_links(content.as_str());
        let line_text = self.state.buffer.line_text(cursor.line);
        let line = chars_of(line_text.as_str());
        let ghost targets = link_targets(content@);
        let ghost lv = line@;
        proof {
            assert forall|k: int| 0 <= k < links@.len() implies #[trigger] links@[k].target@
                == targets[k] by {
                crate::links::lemma_describes_target(links@[k], content@, matches_from(content@, 0)[k]);
            }
            reveal_strlit("[[");
            reveal_strlit("]]");
            reveal_strlit("|");
        }
        let mut i: usize = 0;
        while i < links.len()
            invariant
                targets == link_targets(content@),
                content@ == self@.buffer.text,
                lv == line@,
                lv == line_text_of(self@.buffer.text, self@.buffer.cursor.line as int),
                links@.len() == targets.len(),
                forall|k: int| 0 <= k < links@.len() ==> #[trigger] links@[k].target@ == targets[k],
                i <= links@.len(),
                first_on_line(targets, lv, 0) == first_on_line(targets, lv, i as int),
            decreases links@.len() - i,
        {
            let t = &links[i].target;
            let mut closed = String::from_str("[[");
            closed.append(t.as_str());
            closed.append("]]");
            let mut piped = String::from_str("[[");
            piped.append(t.as_str());
            piped.append("|");
            let cv = chars_of(closed.as_str());
            let pv = chars_of(piped.as_str());
            if contains_chars(line.as_slice(), cv.as_slice()) || contains_chars(
                line.as_slice(),
                pv.as_slice(),
            ) {
                return Some(t.clone());
            }
            i = i + 1;
        }
        None
    }
    /// Handle a key press: run the action the key handler makes of it, and
    /// return what the application has to do.
    pub fn on_key(&mut self, key: KeyCode, mods: Modifiers, visible: usize) -> (e: Effect)
        requires
            old(self).state.buffer.wf(),
            action_fits(
                old(self)@.buffer,
                key_step(old(self)@.input, key, mods).1,
                visible,
                old(self)@.clipboard,
            ),
        ensures
            final(self).state.buffer.wf(),
            session_step(old(self)@, key, mods, visible, final(self)@, e@),
    {
        let action = self.input.handle_key(key, mods);
        self.apply(action, visible)
    }

    /// Whether the buffer operations of `action` can run in this state.
    pub fn fits(&self, action: Action, visible: usize) -> (b: bool)
        ensures
            b == action_fits(self@.buffer, action, visible, self@.clipboard),
    {
        let cursor = self.state.buffer.cursor();
        match action {
            Action::InsertChar(c) => self.typing_fits(c),
            Action::InsertNewline => self.typing_fits('\n'),
            Action::DeleteLine => cursor.line <= self.state.buffer.line_count(),
            Action::OpenLineAbove => cursor.line <= self.state.buffer.line_count(),
            Action::OpenLineBelow => cursor.line < usize::MAX,
            Action::PasteBelow => self.clipboard.as_str().unicode_len() == 0 || cursor.line
                < usize::MAX,
            Action::MoveWordBackward => cursor.col == 0 || cursor.col <= self.state.buffer.line_len(
                cursor.line,
            ),
            Action::MoveHalfPageDown => cursor.line <= usize::MAX - visible / 2,
            _ => true,
        }
    }

    /// Whether typing `ch` can move the cursor without overflow.
    fn typing_fits(&self, ch: char) -> (b: bool)
        ensures
            b == typing_fits(self@.buffer, ch),
    {
        let c = match self.state.buffer.selection() {
            Some(sel) => if self.state.buffer.selected_text().is_some() {
                sel.normalized().start
            } else {
                self.state.buffer.cursor()
            },
            None => self.state.buffer.cursor(),
        };
        if ch == '\n' {
            c.line < usize::MAX
        } else {
            c.col < usize::MAX
        }
    }

    /// Run `action`, and return what the application has to do.
    #[verifier::spinoff_prover]
    pub fn apply(&mut self, action: Action, visible: usize) -> (e: Effect)
        requires
            old(self).state.buffer.wf(),
            action_fits(old(self)@.buffer, action, visible, old(self)@.clipboard),
        ensures
            final(self).state.buffer.wf(),
            final(self)@.input == old(self)@.input,
            apply_step(old(self)@, action, visible, final(self)@, e@),
    {
        match action {
            // -- Cursor movement --
            Action::MoveLeft => self.state.buffer.move_left(),
            Action::MoveRight => self.state.buffer.move_right(),
            Action::MoveUp => self.state.buffer.move_up(),
            Action::MoveDown => self.state.buffer.move_down(),
            Action::MoveWordForward => self.state.buffer.move_word_forward(),
            Action::MoveWordBackward => self.state.buffer.move_word_backward(),
            Action::MoveLineStart => self.state.buffer.move_to_line_start(),
            Action::MoveLineEnd => self.state.buffer.move_to_line_end(),
            Action::MoveDocStart => self.state.buffer.move_to_doc_start(),
            Action::MoveDocEnd => self.state.buffer.move_to_doc_end(),
            Action::MoveHalfPageDown => self.state.buffer.move_half_page_down(visible),
            Action::MoveHalfPageUp => self.state.buffer.move_half_page_up(visible),
            // -- Editing --
            Action::InsertChar(c) => self.state.buffer.insert_char(c),
            Action::InsertNewline => self.state.buffer.insert_char('\n'),
            Action::DeleteBack => self.state.buffer.delete_back(),
            Action::DeleteForward => self.state.buffer.delete_forward(),
            Action::DeleteLine => self.state.buffer.delete_line(),
            Action::YankLine => {
                self.clipboard = self.state.buffer.yank_line();
            },
            Action::PasteBelow => {
                if self.clipboard.as_str().unicode_len() > 0 {
                    self.state.buffer.paste_below(self.clipboard.as_str());
                }
            },
            Action::OpenLineBelow => self.state.buffer.open_line_below(),
            Action::OpenLineAbove => self.state.buffer.open_line_above(),
            // -- Mode changes --
            Action::EnterInsertMode => {
                self.state.mode = Mode::Insert;
            },
            Action::EnterInsertModeAppend => {
                self.state.buffer.move_right();
                self.state.mode = Mode::Insert;
            },
            Action::EnterVisualMode => {
                self.state.buffer.start_selection();
                self.state.mode = Mode::Visual;
            },
            Action::EnterCommandMode => {
                self.state.mode = Mode::Command;
                self.state.command_text = String::new();
            },
            Action::EnterSearchMode => {
                self.state.mode = Mode::Search;
                self.state.search_query = String::new();
            },
            Action::ExitToNormal => {
                self.state.buffer.clear_selection();
                self.state.mode = Mode::Normal;
                self.state.command_text = String::new();
            },
            // -- Selection --
            Action::ExtendSelection => self.state.buffer.extend_selection_to_cursor(),
            Action::YankSelection => {
                if let Some(text) = self.state.buffer.selected_text() {
                    self.clipboard = text;
                }
                self.state.buffer.clear_selection();
            },
            // Only the selection goes; the text stays (see `buffer_after`).
            Action::DeleteSelection => self.state.buffer.clear_selection(),
            // -- Undo/Redo --
            Action::Undo => self.state.buffer.undo(),
            Action::Redo => self.state.buffer.redo(),
            // -- Leader sequences --
            Action::TogglePreview => {
                self.state.show_preview = !self.state.show_preview;
            },
            Action::ToggleNoteList => {
                self.state.show_note_list = !self.state.show_note_list;
            },
            Action::NewNote => {
                self.state.buffer = EditorBuffer::from_text(
                    "---\ntitle: Untitled\ntags: []\n---\n\n# Untitled\n\n",
                );
                self.state.buffer.set_cursor(6, 0);
                self.state.mode = Mode::Insert;
            },
            Action::FindFile => {
                self.state.mode = Mode::Search;
                self.state.search_query = String::new();
            },
            Action::SearchVault => {
                self.state.mode = Mode::Search;
                self.state.search_query = String::new();
            },
            Action::FollowLink => {
                return match self.link_to_follow() {
                    Some(target) => Effect::FollowLink { target: to_lowercase(target.as_str()) },
                    None => Effect::Nothing,
                };
            },
            Action::ShowBacklinks => {},
            // -- Note list navigation --
            Action::NoteListNext => {
                let n = self.state.note_list.len();
                if n > 0 && self.state.note_list_selected < n - 1 {
                    self.state.note_list_selected = self.state.note_list_selected + 1;
                }
            },
            Action::NoteListPrev => {
                if self.state.note_list_selected > 0 {
                    self.state.note_list_selected = self.state.note_list_selected - 1;
                }
            },
            Action::NoteListOpen => {},
            // -- Command/Search mode --
            Action::CommandInput(c) => push_char(&mut self.state.command_text, c),
            Action::CommandSubmit => {
                let cmd_action = parse_command(self.state.command_text.as_str());
                let effect = match cmd_action {
                    Action::Quit => {
                        return Effect::Quit;
                    },
                    Action::Save => {
                        let quit = is_write_quit(self.state.command_text.as_str());
                        self.save_request(false, quit)
                    },
                    _ => Effect::Nothing,
                };
                self.state.command_text = String::new();
                self.state.mode = Mode::Normal;
                return effect;
            },
            Action::CommandCancel => {
                self.state.command_text = String::new();
                self.state.mode = Mode::Normal;
            },
            Action::SearchInput(c) => push_char(&mut self.state.search_query, c),
            Action::SearchSubmit => {
                let effect = if self.state.search_query.as_str().unicode_len() > 0 {
                    Effect::OpenFirstMatch { query: self.state.search_query.clone() }
                } else {
                    Effect::Nothing
                };
                self.state.mode = Mode::Normal;
                return effect;
            },
            Action::SearchCancel => {
                self.state.search_query = String::new();
                self.state.mode = Mode::Normal;
            },
            // -- File operations --
            Action::Save => {
                return self.save_request(true, false);
            },
            Action::Quit => {
                return Effect::Quit;
            },
            Action::NoOp => {},
        }
        Effect::Nothing
    }
}

} // verus!
