//! Keyboard input handling with vim-style modal editing.
//!
//! Modes: Normal, Insert, Visual, Command, Search. Normal mode uses hjkl
//! navigation, `g`/`d` prefixes and leader (Space) sequences.

use vstd::prelude::*;
use crate::text::{
    chars_eq, chars_of, is_ws, pop_char, push_char, sub_chars, trim, trim_chars, trim_end,
    trim_start, ws_prefix_end, ws_suffix_start,
};

verus! {

/// Editor mode (vim-style modal editing).
#[derive(Debug, Clone, Copy, PartialEq, Eq, Structural)]
pub enum Mode {
    Normal,
    Insert,
    Visual,
    Command,
    Search,
}

impl Mode {
    /// The status-line label of the mode.
    pub fn label(&self) -> (r: &'static str)
        ensures
            r@ == (match *self {
                Mode::Normal => "NORMAL"@,
                Mode::Insert => "INSERT"@,
                Mode::Visual => "VISUAL"@,
                Mode::Command => "COMMAND"@,
                Mode::Search => "SEARCH"@,
            }),
    {
        match self {
            Mode::Normal => "NORMAL",
            Mode::Insert => "INSERT",
            Mode::Visual => "VISUAL",
            Mode::Command => "COMMAND",
            Mode::Search => "SEARCH",
        }
    }
}

impl Default for Mode {
    fn default() -> (r: Self)
        ensures
            r == Mode::Normal,
    {
        Mode::Normal
    }
}

/// A key as the windowing layer reports it.
#[derive(Debug, Clone, Copy, PartialEq, Eq, Structural)]
pub enum KeyCode {
    Char(char),
    Enter,
    Escape,
    Backspace,
    Delete,
    Tab,
    Up,
    Down,
    Left,
    Right,
    Home,
    End,
    PageUp,
    PageDown,
    F(u8),
    Space,
    CapsLock,
    NumLock,
    Unknown,
}

/// Modifier keys held with a key press.
#[derive(Debug, Clone, Copy, PartialEq, Eq, Structural, Default)]
pub struct Modifiers {
    pub shift: bool,
    pub ctrl: bool,
    pub alt: bool,
    pub meta: bool,
}

/// Actions the input handler can produce.
#[derive(Debug, Clone, Copy, PartialEq, Eq, Structural)]
pub enum Action {
    // -- Cursor movement --
    MoveLeft,
    MoveRight,
    MoveUp,
    MoveDown,
    MoveWordForward,
    MoveWordBackward,
    MoveLineStart,
    MoveLineEnd,
    MoveDocStart,
    MoveDocEnd,
    MoveHalfPageDown,
    MoveHalfPageUp,
    // -- Editing --
    InsertChar(char),
    InsertNewline,
    DeleteBack,
    DeleteForward,
    DeleteLine,
    YankLine,
    PasteBelow,
    // -- Line operations --
    OpenLineBelow,
    OpenLineAbove,
    // -- Mode changes --
    EnterInsertMode,
    EnterInsertModeAppend,
    EnterVisualMode,
    EnterCommandMode,
    EnterSearchMode,
    ExitToNormal,
    // -- Selection (visual mode) --
    ExtendSelection,
    YankSelection,
    DeleteSelection,
    // -- Undo/Redo --
    Undo,
    Redo,
    // -- Leader key sequences --
    FindFile,
    SearchVault,
    TogglePreview,
    ToggleNoteList,
    NewNote,
    FollowLink,
    ShowBacklinks,
    // -- Command/Search mode --
    CommandInput(char),
    CommandSubmit,
    CommandCancel,
    SearchInput(char),
    SearchSubmit,
    SearchCancel,
    // -- File operations --
    Save,
    // -- Note list navigation --
    NoteListNext,
    NoteListPrev,
    NoteListOpen,
    // -- Application --
    Quit,
    NoOp,
}

/// The abstract state of an [`InputHandler`].
pub struct InputState {
    pub mode: Mode,
    pub leader_pending: bool,
    pub g_pending: bool,
    pub d_pending: bool,
    pub command: Seq<char>,
    pub search: Seq<char>,
}

/// Input handler that maps key events to actions based on the current mode.
pub struct InputHandler {
    mode: Mode,
    /// Whether the leader key (Space) was pressed and the next key is awaited.
    leader_pending: bool,
    /// Whether 'g' was pressed and the next key is awaited (gg, gd).
    g_pending: bool,
    /// Whether 'd' was pressed and the next key is awaited (dd).
    d_pending: bool,
    /// The command line buffer.
    command_buf: String,
    /// The search query buffer.
    search_buf: String,
}

impl View for InputHandler {
    type V = InputState;

    closed spec fn view(&self) -> InputState {
        InputState {
            mode: self.mode,
            leader_pending: self.leader_pending,
            g_pending: self.g_pending,
            d_pending: self.d_pending,
            command: self.command_buf@,
            search: self.search_buf@,
        }
    }
}

/// The state after switching to `mode`: pending prefixes are dropped, and
/// entering Command or Search mode starts an empty buffer.
pub open spec fn with_mode(s: InputState, mode: Mode) -> InputState {
    InputState {
        mode,
        leader_pending: false,
        g_pending: false,
        d_pending: false,
        command: if mode == Mode::Command { Seq::empty() } else { s.command },
        search: if mode == Mode::Search { Seq::empty() } else { s.search },
    }
}

/// What a leader sequence (Space, then `key`) does.
pub open spec fn leader_action(key: KeyCode) -> Action {
    match key {
        KeyCode::Char('f') => Action::FindFile,
        KeyCode::Char('s') => Action::SearchVault,
        KeyCode::Char('p') => Action::TogglePreview,
        KeyCode::Char('e') => Action::ToggleNoteList,
        KeyCode::Char('n') => Action::NewNote,
        KeyCode::Char('b') => Action::ShowBacklinks,
        _ => Action::NoOp,
    }
}

/// What Ctrl+`key` does in Normal mode.
pub open spec fn normal_ctrl_action(key: KeyCode) -> Action {
    match key {
        KeyCode::Char('d') => Action::MoveHalfPageDown,
        KeyCode::Char('u') => Action::MoveHalfPageUp,
        KeyCode::Char('r') => Action::Redo,
        KeyCode::Char('s') => Action::Save,
        _ => Action::NoOp,
    }
}

/// The four movement keys shared by Normal and Visual mode.
pub open spec fn hjkl_action(key: KeyCode) -> Option<Action> {
    match key {
        KeyCode::Char('h') | KeyCode::Left => Some(Action::MoveLeft),
        KeyCode::Char('j') | KeyCode::Down => Some(Action::MoveDown),
        KeyCode::Char('k') | KeyCode::Up => Some(Action::MoveUp),
        KeyCode::Char('l') | KeyCode::Right => Some(Action::MoveRight),
        _ => None,
    }
}

/// Normal-mode keys that switch mode: the action and the mode entered.
pub open spec fn normal_mode_switch(key: KeyCode) -> Option<(Action, Mode)> {
    match key {
        KeyCode::Char('i') => Some((Action::EnterInsertMode, Mode::Insert)),
        KeyCode::Char('a') => Some((Action::EnterInsertModeAppend, Mode::Insert)),
        KeyCode::Char('v') => Some((Action::EnterVisualMode, Mode::Visual)),
        KeyCode::Char(':') => Some((Action::EnterCommandMode, Mode::Command)),
        KeyCode::Char('/') => Some((Action::EnterSearchMode, Mode::Search)),
        KeyCode::Char('o') => Some((Action::OpenLineBelow, Mode::Insert)),
        KeyCode::Char('O') => Some((Action::OpenLineAbove, Mode::Insert)),
        _ => None,
    }
}

/// Normal-mode keys that act without changing any state.
pub open spec fn normal_plain_action(key: KeyCode) -> Action {
    match hjkl_action(key) {
        Some(a) => a,
        None => match key {
            KeyCode::Char('w') => Action::MoveWordForward,
            KeyCode::Char('b') => Action::MoveWordBackward,
            KeyCode::Char('0') => Action::MoveLineStart,
            KeyCode::Char('$') => Action::MoveLineEnd,
            KeyCode::Char('G') => Action::MoveDocEnd,
            KeyCode::Char('y') => Action::YankLine,
            KeyCode::Char('p') => Action::PasteBelow,
            KeyCode::Char('u') => Action::Undo,
            _ => Action::NoOp,
        },
    }
}

/// One key press in Normal mode: the next state and the action.
pub open spec fn normal_step(s: InputState, key: KeyCode, ctrl: bool) -> (InputState, Action) {
    if s.leader_pending {
        (InputState { leader_pending: false, ..s }, leader_action(key))
    } else if s.g_pending {
        (
            InputState { g_pending: false, ..s },
            match key {
                KeyCode::Char('g') => Action::MoveDocStart,
                KeyCode::Char('d') => Action::FollowLink,
                _ => Action::NoOp,
            },
        )
    } else if s.d_pending {
        (
            InputState { d_pending: false, ..s },
            match key {
                KeyCode::Char('d') => Action::DeleteLine,
                _ => Action::NoOp,
            },
        )
    } else if ctrl {
        (s, normal_ctrl_action(key))
    } else if key == KeyCode::Char('g') {
        (InputState { g_pending: true, ..s }, Action::NoOp)
    } else if key == KeyCode::Char('d') {
        (InputState { d_pending: true, ..s }, Action::NoOp)
    } else if key == KeyCode::Space {
        (InputState { leader_pending: true, ..s }, Action::NoOp)
    } else {
        match normal_mode_switch(key) {
            Some((a, m)) => (with_mode(s, m), a),
            None => (s, normal_plain_action(key)),
        }
    }
}

/// One key press in Insert mode.
pub open spec fn insert_step(s: InputState, key: KeyCode, ctrl: bool) -> (InputState, Action) {
    if ctrl {
        (s, if key == KeyCode::Char('s') { Action::Save } else { Action::NoOp })
    } else {
        match key {
            KeyCode::Escape => (with_mode(s, Mode::Normal), Action::ExitToNormal),
            KeyCode::Enter => (s, Action::InsertNewline),
            KeyCode::Backspace => (s, Action::DeleteBack),
            KeyCode::Delete => (s, Action::DeleteForward),
            KeyCode::Left => (s, Action::MoveLeft),
            KeyCode::Right => (s, Action::MoveRight),
            KeyCode::Up => (s, Action::MoveUp),
            KeyCode::Down => (s, Action::MoveDown),
            KeyCode::Char(c) => (s, Action::InsertChar(c)),
            KeyCode::Tab => (s, Action::InsertChar('\t')),
            _ => (s, Action::NoOp),
        }
    }
}

/// One key press in Visual mode (modifiers are ignored).
pub open spec fn visual_step(s: InputState, key: KeyCode) -> (InputState, Action) {
    match key {
        KeyCode::Escape => (with_mode(s, Mode::Normal), Action::ExitToNormal),
        KeyCode::Char('y') => (with_mode(s, Mode::Normal), Action::YankSelection),
        KeyCode::Char('d') => (with_mode(s, Mode::Normal), Action::DeleteSelection),
        _ => (
            s,
            match hjkl_action(key) {
                Some(a) => a,
                None => Action::NoOp,
            },
        ),
    }
}

/// One key press in Command mode (modifiers are ignored). Backspace on a
/// one-character (or empty) command line leaves Command mode.
pub open spec fn command_step(s: InputState, key: KeyCode) -> (InputState, Action) {
    match key {
        KeyCode::Escape => (with_mode(s, Mode::Normal), Action::CommandCancel),
        KeyCode::Enter => (with_mode(s, Mode::Normal), Action::CommandSubmit),
        KeyCode::Backspace => {
            let popped = if s.command.len() > 0 { s.command.drop_last() } else { s.command };
            if popped.len() == 0 {
                (with_mode(InputState { command: popped, ..s }, Mode::Normal), Action::CommandCancel)
            } else {
                (InputState { command: popped, ..s }, Action::NoOp)
            }
        },
        KeyCode::Char(c) => (InputState { command: s.command.push(c), ..s }, Action::CommandInput(c)),
        _ => (s, Action::NoOp),
    }
}

/// One key press in Search mode (modifiers are ignored).
pub open spec fn search_step(s: InputState, key: KeyCode) -> (InputState, Action) {
    match key {
        KeyCode::Escape => (with_mode(s, Mode::Normal), Action::SearchCancel),
        KeyCode::Enter => (with_mode(s, Mode::Normal), Action::SearchSubmit),
        KeyCode::Backspace => (
            InputState {
                search: if s.search.len() > 0 { s.search.drop_last() } else { s.search },
                ..s
            },
            Action::NoOp,
        ),
        KeyCode::Char(c) => (InputState { search: s.search.push(c), ..s }, Action::SearchInput(c)),
        _ => (s, Action::NoOp),
    }
}

/// One key press in any mode: the next state and the resulting action.
pub open spec fn key_step(s: InputState, key: KeyCode, mods: Modifiers) -> (InputState, Action) {
    match s.mode {
        Mode::Normal => normal_step(s, key, mods.ctrl),
        Mode::Insert => insert_step(s, key, mods.ctrl),
        Mode::Visual => visual_step(s, key),
        Mode::Command => command_step(s, key),
        Mode::Search => search_step(s, key),
    }
}

impl InputHandler {
    /// A handler in Normal mode with nothing pending and empty buffers.
    pub fn new() -> (h: Self)
        ensures
            h@.mode == Mode::Normal,
            !h@.leader_pending && !h@.g_pending && !h@.d_pending,
            h@.command.len() == 0,
            h@.search.len() == 0,
    {
        InputHandler {
            mode: Mode::Normal,
            leader_pending: false,
            g_pending: false,
            d_pending: false,
            command_buf: String::new(),
            search_buf: String::new(),
        }
    }

    /// The current mode.
    pub fn mode(&self) -> (m: Mode)
        ensures
            m == self@.mode,
    {
        self.mode
    }

    /// Set the mode directly, dropping any pending prefix key.
    pub fn set_mode(&mut self, mode: Mode)
        ensures
            final(self)@ == with_mode(old(self)@, mode),
    {
        self.mode = mode;
        self.leader_pending = false;
        self.g_pending = false;
        self.d_pending = false;
        if mode == Mode::Command {
            self.command_buf = String::new();
        }
        if mode == Mode::Search {
            self.search_buf = String::new();
        }
    }

    /// The current command-line buffer.
    pub fn command_buf(&self) -> (s: &str)
        ensures
            s@ == self@.command,
    {
        self.command_buf.as_str()
    }

    /// The current search buffer.
    pub fn search_buf(&self) -> (s: &str)
        ensures
            s@ == self@.search,
    {
        self.search_buf.as_str()
    }

    /// Process a key press and return the resulting action.
    pub fn handle_key(&mut self, key: KeyCode, mods: Modifiers) -> (a: Action)
        ensures
            (final(self)@, a) == key_step(old(self)@, key, mods),
    {
        match self.mode {
            Mode::Normal => self.handle_normal(key, mods),
            Mode::Insert => self.handle_insert(key, mods),
            Mode::Visual => self.handle_visual(key),
            Mode::Command => self.handle_command(key),
            Mode::Search => self.handle_search(key),
        }
    }

    fn handle_normal(&mut self, key: KeyCode, mods: Modifiers) -> (a: Action)
        requires
            old(self)@.mode == Mode::Normal,
        ensures
            (final(self)@, a) == normal_step(old(self)@, key, mods.ctrl),
            !old(self)@.leader_pending && !old(self)@.g_pending && !old(self)@.d_pending
                && !mods.ctrl ==> normal_keys_hold(key, final(self)@, a),
            old(self)@.leader_pending ==> leader_keys_hold(old(self)@, key, final(self)@, a),
    {
        if self.leader_pending {
            self.leader_pending = false;
            return match key {
                KeyCode::Char('f') => Action::FindFile,
                KeyCode::Char('s') => Action::SearchVault,
                KeyCode::Char('p') => Action::TogglePreview,
                KeyCode::Char('e') => Action::ToggleNoteList,
                KeyCode::Char('n') => Action::NewNote,
                KeyCode::Char('b') => Action::ShowBacklinks,
                _ => Action::NoOp,
            };
        }
        if self.g_pending {
            self.g_pending = false;
            return match key {
                KeyCode::Char('g') => Action::MoveDocStart,
                KeyCode::Char('d') => Action::FollowLink,
                _ => Action::NoOp,
            };
        }
        if self.d_pending {
            self.d_pending = false;
            return match key {
                KeyCode::Char('d') => Action::DeleteLine,
                _ => Action::NoOp,
            };
        }
        if mods.ctrl {
            return match key {
                KeyCode::Char('d') => Action::MoveHalfPageDown,
                KeyCode::Char('u') => Action::MoveHalfPageUp,
                KeyCode::Char('r') => Action::Redo,
                KeyCode::Char('s') => Action::Save,
                _ => Action::NoOp,
            };
        }
        match key {
            KeyCode::Char('h') | KeyCode::Left => Action::MoveLeft,
            KeyCode::Char('j') | KeyCode::Down => Action::MoveDown,
            KeyCode::Char('k') | KeyCode::Up => Action::MoveUp,
            KeyCode::Char('l') | KeyCode::Right => Action::MoveRight,
            KeyCode::Char('w') => Action::MoveWordForward,
            KeyCode::Char('b') => Action::MoveWordBackward,
            KeyCode::Char('0') => Action::MoveLineStart,
            KeyCode::Char('$') => Action::MoveLineEnd,
            KeyCode::Char('G') => Action::MoveDocEnd,
            KeyCode::Char('g') => {
                self.g_pending = true;
                Action::NoOp
            },
            KeyCode::Char('d') => {
                self.d_pending = true;
                Action::NoOp
            },
            KeyCode::Char('i') => {
                self.set_mode(Mode::Insert);
                Action::EnterInsertMode
            },
            KeyCode::Char('a') => {
                self.set_mode(Mode::Insert);
                Action::EnterInsertModeAppend
            },
            KeyCode::Char('v') => {
                self.set_mode(Mode::Visual);
                Action::EnterVisualMode
            },
            KeyCode::Char(':') => {
                self.set_mode(Mode::Command);
                Action::EnterCommandMode
            },
            KeyCode::Char('/') => {
                self.set_mode(Mode::Search);
                Action::EnterSearchMode
            },
            KeyCode::Char('o') => {
                self.set_mode(Mode::Insert);
                Action::OpenLineBelow
            },
            KeyCode::Char('O') => {
                self.set_mode(Mode::Insert);
                Action::OpenLineAbove
            },
            KeyCode::Char('y') => Action::YankLine,
            KeyCode::Char('p') => Action::PasteBelow,
            KeyCode::Char('u') => Action::Undo,
            KeyCode::Space => {
                self.leader_pending = true;
                Action::NoOp
            },
            _ => Action::NoOp,
        }
    }

    fn handle_insert(&mut self, key: KeyCode, mods: Modifiers) -> (a: Action)
        ensures
            (final(self)@, a) == insert_step(old(self)@, key, mods.ctrl),
            old(self)@.mode == Mode::Insert ==> insert_keys_hold(key, mods.ctrl, final(self)@, a),
    {
        if mods.ctrl {
            return match key {
                KeyCode::Char('s') => Action::Save,
                _ => Action::NoOp,
            };
        }
        match key {
            KeyCode::Escape => {
                self.set_mode(Mode::Normal);
                Action::ExitToNormal
            },
            KeyCode::Enter => Action::InsertNewline,
            KeyCode::Backspace => Action::DeleteBack,
            KeyCode::Delete => Action::DeleteForward,
            KeyCode::Left => Action::MoveLeft,
            KeyCode::Right => Action::MoveRight,
            KeyCode::Up => Action::MoveUp,
            KeyCode::Down => Action::MoveDown,
            KeyCode::Char(c) => Action::InsertChar(c),
            KeyCode::Tab => Action::InsertChar('\t'),
            _ => Action::NoOp,
        }
    }

    fn handle_visual(&mut self, key: KeyCode) -> (a: Action)
        ensures
            (final(self)@, a) == visual_step(old(self)@, key),
            old(self)@.mode == Mode::Visual ==> visual_keys_hold(key, final(self)@, a),
    {
        match key {
            KeyCode::Escape => {
                self.set_mode(Mode::Normal);
                Action::ExitToNormal
            },
            KeyCode::Char('h') | KeyCode::Left => Action::MoveLeft,
            KeyCode::Char('j') | KeyCode::Down => Action::MoveDown,
            KeyCode::Char('k') | KeyCode::Up => Action::MoveUp,
            KeyCode::Char('l') | KeyCode::Right => Action::MoveRight,
            KeyCode::Char('y') => {
                self.set_mode(Mode::Normal);
                Action::YankSelection
            },
            KeyCode::Char('d') => {
                self.set_mode(Mode::Normal);
                Action::DeleteSelection
            },
            _ => Action::NoOp,
        }
    }

    fn handle_command(&mut self, key: KeyCode) -> (a: Action)
        ensures
            (final(self)@, a) == command_step(old(self)@, key),
    {
        match key {
            KeyCode::Escape => {
                self.set_mode(Mode::Normal);
                Action::CommandCancel
            },
            KeyCode::Enter => {
                self.set_mode(Mode::Normal);
                Action::CommandSubmit
            },
            KeyCode::Backspace => {
                let _ = pop_char(&mut self.command_buf);
                if self.command_buf.as_str().is_empty() {
                    self.set_mode(Mode::Normal);
                    Action::CommandCancel
                } else {
                    Action::NoOp
                }
            },
            KeyCode::Char(c) => {
                push_char(&mut self.command_buf, c);
                Action::CommandInput(c)
            },
            _ => Action::NoOp,
        }
    }

    fn handle_search(&mut self, key: KeyCode) -> (a: Action)
        ensures
            (final(self)@, a) == search_step(old(self)@, key),
            old(self)@.mode == Mode::Search ==> search_backspace_holds(old(self)@, key, final(self)@, a),
    {
        match key {
            KeyCode::Escape => {
                self.set_mode(Mode::Normal);
                Action::SearchCancel
            },
            KeyCode::Enter => {
                self.set_mode(Mode::Normal);
                Action::SearchSubmit
            },
            KeyCode::Backspace => {
                let _ = pop_char(&mut self.search_buf);
                Action::NoOp
            },
            KeyCode::Char(c) => {
                push_char(&mut self.search_buf, c);
                Action::SearchInput(c)
            },
            _ => Action::NoOp,
        }
    }
}

impl Default for InputHandler {
    fn default() -> (h: Self)
        ensures
            h@.mode == Mode::Normal,
            !h@.leader_pending && !h@.g_pending && !h@.d_pending,
            h@.command.len() == 0,
            h@.search.len() == 0,
    {
        InputHandler::new()
    }
}

/// The index of the first space (`' '`) at or after `i`, or `t.len()`.
pub open spec fn space_index(t: Seq<char>, i: int) -> int
    decreases t.len() - i,
{
    if 0 <= i < t.len() && t[i] != ' ' {
        space_index(t, i + 1)
    } else {
        i
    }
}

/// The command word of a command line: the trimmed line up to its first
/// space.
pub open spec fn command_word(cmd: Seq<char>) -> Seq<char> {
    trim(cmd).take(space_index(trim(cmd), 0))
}

/// The action a command word names.
pub open spec fn command_action(w: Seq<char>) -> Action {
    if w == "q"@ || w == "quit"@ {
        Action::Quit
    } else if w == "w"@ || w == "save"@ || w == "wq"@ {
        Action::Save
    } else if w == "new"@ {
        Action::NewNote
    } else if w == "search"@ {
        Action::SearchVault
    } else if w == "e"@ || w == "open"@ {
        Action::FindFile
    } else {
        Action::NoOp
    }
}

/// Whether `v` holds exactly the characters of `lit`.
fn word_is(v: &[char], lit: &str) -> (b: bool)
    ensures
        b == (v@ == lit@),
{
    let l = chars_of(lit);
    chars_eq(v, l.as_slice())
}

/// Escape, without Ctrl, always ends in normal mode.
pub proof fn law_escape_returns_to_normal(s: InputState, mods: Modifiers)
    requires
        !mods.ctrl,
    ensures
        key_step(s, KeyCode::Escape, mods).0.mode == Mode::Normal,
{
}

/// The Normal-mode keys that switch mode, of the step from `s` to `n` with
/// the action `a`: `i`, `a`, `o` and `O` enter Insert mode, `v` Visual
/// mode, `:` Command mode with an empty command line and `/` Search mode
/// with an empty query; every other key leaves the handler in Normal mode.
pub open spec fn normal_keys_hold(key: KeyCode, n: InputState, a: Action) -> bool {
    &&& key == KeyCode::Char('i') ==> a == Action::EnterInsertMode && n.mode == Mode::Insert
    &&& key == KeyCode::Char('a') ==> a == Action::EnterInsertModeAppend && n.mode == Mode::Insert
    &&& key == KeyCode::Char('o') ==> a == Action::OpenLineBelow && n.mode == Mode::Insert
    &&& key == KeyCode::Char('O') ==> a == Action::OpenLineAbove && n.mode == Mode::Insert
    &&& key == KeyCode::Char('v') ==> a == Action::EnterVisualMode && n.mode == Mode::Visual
    &&& key == KeyCode::Char(':') ==> a == Action::EnterCommandMode && n.mode == Mode::Command
        && n.command.len() == 0
    &&& key == KeyCode::Char('/') ==> a == Action::EnterSearchMode && n.mode == Mode::Search
        && n.search.len() == 0
    &&& !(key == KeyCode::Char('i') || key == KeyCode::Char('a') || key == KeyCode::Char('o')
        || key == KeyCode::Char('O') || key == KeyCode::Char('v') || key == KeyCode::Char(':')
        || key == KeyCode::Char('/')) ==> n.mode == Mode::Normal
}

/// Insert mode, of the step to `n` with the action `a`: with Ctrl only `s`
/// does something (it saves); without it Tab inserts a tab, Delete deletes
/// forward, the arrows move, Enter breaks the line, Backspace deletes back
/// and a character is inserted as typed. The handler stays in Insert mode
/// unless Escape is pressed without Ctrl.
pub open spec fn insert_keys_hold(key: KeyCode, ctrl: bool, n: InputState, a: Action) -> bool {
    &&& ctrl ==> a == (if key == KeyCode::Char('s') {
        Action::Save
    } else {
        Action::NoOp
    })
    &&& !ctrl && key == KeyCode::Tab ==> a == Action::InsertChar('\t')
    &&& !ctrl && key == KeyCode::Delete ==> a == Action::DeleteForward
    &&& !ctrl && key == KeyCode::Backspace ==> a == Action::DeleteBack
    &&& !ctrl && key == KeyCode::Enter ==> a == Action::InsertNewline
    &&& !ctrl && key == KeyCode::Left ==> a == Action::MoveLeft
    &&& !ctrl && key == KeyCode::Right ==> a == Action::MoveRight
    &&& !ctrl && key == KeyCode::Up ==> a == Action::MoveUp
    &&& !ctrl && key == KeyCode::Down ==> a == Action::MoveDown
    &&& forall|c: char| !ctrl && key == KeyCode::Char(c) ==> a == Action::InsertChar(c)
    &&& !ctrl && key == KeyCode::Escape ==> a == Action::ExitToNormal && n.mode == Mode::Normal
    &&& !(!ctrl && key == KeyCode::Escape) ==> n.mode == Mode::Insert
}

/// Visual mode, of the step to `n` with the action `a`, whatever the
/// modifiers: `y` yanks and `d` deletes the selection and Escape leaves it,
/// each back to Normal mode; the movement keys (`h`, `j`, `k`, `l` and the
/// arrows) move and every other key does nothing, both staying in Visual
/// mode.
pub open spec fn visual_keys_hold(key: KeyCode, n: InputState, a: Action) -> bool {
    &&& key == KeyCode::Char('y') ==> a == Action::YankSelection && n.mode == Mode::Normal
    &&& key == KeyCode::Char('d') ==> a == Action::DeleteSelection && n.mode == Mode::Normal
    &&& key == KeyCode::Escape ==> a == Action::ExitToNormal && n.mode == Mode::Normal
    &&& (key == KeyCode::Char('h') || key == KeyCode::Left) ==> a == Action::MoveLeft
    &&& (key == KeyCode::Char('j') || key == KeyCode::Down) ==> a == Action::MoveDown
    &&& (key == KeyCode::Char('k') || key == KeyCode::Up) ==> a == Action::MoveUp
    &&& (key == KeyCode::Char('l') || key == KeyCode::Right) ==> a == Action::MoveRight
    &&& hjkl_action(key) is None && !(key == KeyCode::Char('y') || key == KeyCode::Char('d') || key
        == KeyCode::Escape) ==> a == Action::NoOp
    &&& !(key == KeyCode::Char('y') || key == KeyCode::Char('d') || key == KeyCode::Escape)
        ==> n.mode == Mode::Visual
}

/// Backspace in Search mode, of the step from `s` to `n` with the action
/// `a`: it drops the query's last character (if any) and stays in Search
/// mode, even when the query becomes empty.
pub open spec fn search_backspace_holds(s: InputState, key: KeyCode, n: InputState, a: Action) -> bool {
    key == KeyCode::Backspace ==> {
        &&& a == Action::NoOp
        &&& n.mode == Mode::Search
        &&& n.search == if s.search.len() > 0 {
            s.search.drop_last()
        } else {
            s.search
        }
    }
}

/// The Normal-mode keys that switch mode, with no prefix pending and no
/// Ctrl: see [`normal_keys_hold`].
pub proof fn law_normal_mode_keys(s: InputState, key: KeyCode, mods: Modifiers)
    requires
        s.mode == Mode::Normal,
        !s.leader_pending && !s.g_pending && !s.d_pending,
        !mods.ctrl,
    ensures
        normal_keys_hold(key, key_step(s, key, mods).0, key_step(s, key, mods).1),
{
}

/// Insert mode: see [`insert_keys_hold`].
pub proof fn law_insert_mode_keys(s: InputState, key: KeyCode, mods: Modifiers)
    requires
        s.mode == Mode::Insert,
    ensures
        insert_keys_hold(key, mods.ctrl, key_step(s, key, mods).0, key_step(s, key, mods).1),
{
}

/// Visual mode: see [`visual_keys_hold`].
pub proof fn law_visual_mode_keys(s: InputState, key: KeyCode, mods: Modifiers)
    requires
        s.mode == Mode::Visual,
    ensures
        visual_keys_hold(key, key_step(s, key, mods).0, key_step(s, key, mods).1),
{
}

/// Search mode: Backspace never leaves it, unlike Command mode; see
/// [`search_backspace_holds`].
pub proof fn law_search_backspace(s: InputState, mods: Modifiers)
    requires
        s.mode == Mode::Search,
    ensures
        search_backspace_holds(
            s,
            KeyCode::Backspace,
            key_step(s, KeyCode::Backspace, mods).0,
            key_step(s, KeyCode::Backspace, mods).1,
        ),
{
}

/// Leader sequences, of the step to `n` with the action `a`: `f` opens the
/// file finder, `s` searches the vault, `p` toggles the preview, `e` the
/// note list, `n` starts a new note and `b` shows the backlinks; any other
/// key does nothing. Either way the leader is dropped and the mode stays.
pub open spec fn leader_keys_hold(s: InputState, key: KeyCode, n: InputState, a: Action) -> bool {
    &&& !n.leader_pending
    &&& n.mode == s.mode
    &&& key == KeyCode::Char('f') ==> a == Action::FindFile
    &&& key == KeyCode::Char('s') ==> a == Action::SearchVault
    &&& key == KeyCode::Char('p') ==> a == Action::TogglePreview
    &&& key == KeyCode::Char('e') ==> a == Action::ToggleNoteList
    &&& key == KeyCode::Char('n') ==> a == Action::NewNote
    &&& key == KeyCode::Char('b') ==> a == Action::ShowBacklinks
    &&& !(key == KeyCode::Char('f') || key == KeyCode::Char('s') || key == KeyCode::Char('p')
        || key == KeyCode::Char('e') || key == KeyCode::Char('n') || key == KeyCode::Char('b'))
        ==> a == Action::NoOp
}

/// In Normal mode, after Space, the next key is read as a leader
/// sequence whatever the modifiers: see [`leader_keys_hold`].
pub proof fn law_leader_keys(s: InputState, key: KeyCode, mods: Modifiers)
    requires
        s.mode == Mode::Normal,
        s.leader_pending,
    ensures
        leader_keys_hold(s, key, key_step(s, key, mods).0, key_step(s, key, mods).1),
{
}

/// Normal mode with nothing pending: `g` and `d` arm their prefix and do
/// nothing yet; then `gg` goes to the top, `gd` follows the link, `dd`
/// deletes the line, and any other second key does nothing. Without Ctrl,
/// `h`/`j`/`k`/`l` and the arrows move, `w` and `b` move by words, `0` and
/// `$` to the line's ends, `G` to the end, `y` yanks the line, `p` pastes
/// and `u` undoes. With Ctrl, `d` and `u` move half a page, `r` redoes and
/// `s` saves.
pub proof fn law_normal_keys(s: InputState, key: KeyCode, mods: Modifiers)
    requires
        s.mode == Mode::Normal,
    ensures
        ({
            let (n, a) = key_step(s, key, mods);
            let idle = !s.leader_pending && !s.g_pending && !s.d_pending;
            &&& idle && !mods.ctrl && key == KeyCode::Char('g') ==> a == Action::NoOp && n.g_pending
                && n.mode == Mode::Normal
            &&& idle && !mods.ctrl && key == KeyCode::Char('d') ==> a == Action::NoOp && n.d_pending
                && n.mode == Mode::Normal
            &&& idle && !mods.ctrl && key == KeyCode::Space ==> a == Action::NoOp && n.leader_pending
            &&& !s.leader_pending && s.g_pending ==> !n.g_pending && a == (if key == KeyCode::Char(
                'g',
            ) {
                Action::MoveDocStart
            } else if key == KeyCode::Char('d') {
                Action::FollowLink
            } else {
                Action::NoOp
            })
            &&& !s.leader_pending && !s.g_pending && s.d_pending ==> !n.d_pending && a == (if key
                == KeyCode::Char('d') {
                Action::DeleteLine
            } else {
                Action::NoOp
            })
            &&& idle && !mods.ctrl ==> {
                &&& (key == KeyCode::Char('h') || key == KeyCode::Left) ==> a == Action::MoveLeft
                &&& (key == KeyCode::Char('j') || key == KeyCode::Down) ==> a == Action::MoveDown
                &&& (key == KeyCode::Char('k') || key == KeyCode::Up) ==> a == Action::MoveUp
                &&& (key == KeyCode::Char('l') || key == KeyCode::Right) ==> a == Action::MoveRight
                &&& key == KeyCode::Char('w') ==> a == Action::MoveWordForward
                &&& key == KeyCode::Char('b') ==> a == Action::MoveWordBackward
                &&& key == KeyCode::Char('0') ==> a == Action::MoveLineStart
                &&& key == KeyCode::Char('$') ==> a == Action::MoveLineEnd
                &&& key == KeyCode::Char('G') ==> a == Action::MoveDocEnd
                &&& key == KeyCode::Char('y') ==> a == Action::YankLine
                &&& key == KeyCode::Char('p') ==> a == Action::PasteBelow
                &&& key == KeyCode::Char('u') ==> a == Action::Undo
            }
            &&& idle && mods.ctrl ==> n == s && a == (if key == KeyCode::Char('d') {
                Action::MoveHalfPageDown
            } else if key == KeyCode::Char('u') {
                Action::MoveHalfPageUp
            } else if key == KeyCode::Char('r') {
                Action::Redo
            } else if key == KeyCode::Char('s') {
                Action::Save
            } else {
                Action::NoOp
            })
        }),
{
}

/// Command mode, whatever the modifiers: a character is appended to the
/// command line; Enter submits and Escape cancels, both back to Normal
/// mode; Backspace drops the last character and, once the line is empty,
/// cancels back to Normal mode.
pub proof fn law_command_keys(s: InputState, key: KeyCode, mods: Modifiers)
    requires
        s.mode == Mode::Command,
    ensures
        ({
            let (n, a) = key_step(s, key, mods);
            &&& forall|c: char| key == KeyCode::Char(c) ==> a == Action::CommandInput(c) && n.command
                == s.command.push(c) && n.mode == Mode::Command
            &&& key == KeyCode::Enter ==> a == Action::CommandSubmit && n.mode == Mode::Normal
            &&& key == KeyCode::Escape ==> a == Action::CommandCancel && n.mode == Mode::Normal
            &&& key == KeyCode::Backspace ==> {
                &&& n.command == if s.command.len() > 0 {
                    s.command.drop_last()
                } else {
                    s.command
                }
                &&& s.command.len() <= 1 ==> a == Action::CommandCancel && n.mode == Mode::Normal
                &&& s.command.len() > 1 ==> a == Action::NoOp && n.mode == Mode::Command
            }
        }),
{
}

/// Search mode, whatever the modifiers: a character is appended to the
/// query; Enter submits and Escape cancels, both back to Normal mode.
pub proof fn law_search_keys(s: InputState, key: KeyCode, mods: Modifiers)
    requires
        s.mode == Mode::Search,
    ensures
        ({
            let (n, a) = key_step(s, key, mods);
            &&& forall|c: char| key == KeyCode::Char(c) ==> a == Action::SearchInput(c) && n.search
                == s.search.push(c) && n.mode == Mode::Search
            &&& key == KeyCode::Enter ==> a == Action::SearchSubmit && n.mode == Mode::Normal
            &&& key == KeyCode::Escape ==> a == Action::SearchCancel && n.mode == Mode::Normal
        }),
{
}

proof fn lemma_ws_suffix_start_at_least(s: Seq<char>, m: int, j: int)
    requires
        0 < m <= j <= s.len(),
        !is_ws(s[m - 1]),
    ensures
        m <= ws_suffix_start(s, j) <= j,
    decreases j,
{
    if j > m && is_ws(s[j - 1]) {
        lemma_ws_suffix_start_at_least(s, m, j - 1);
    }
}

proof fn lemma_space_index_word(t: Seq<char>, w: Seq<char>, i: int)
    requires
        0 <= i <= w.len() <= t.len(),
        forall|k: int| 0 <= k < w.len() ==> t[k] == w[k] && w[k] != ' ',
        t.len() == w.len() || t[w.len() as int] == ' ',
    ensures
        space_index(t, i) == w.len(),
    decreases w.len() - i,
{
    if i < w.len() {
        lemma_space_index_word(t, w, i + 1);
    }
}

/// The command word of a command line that starts with a word `w` (no
/// whitespace in it) followed by nothing or by a space is `w`.
pub proof fn lemma_command_word_of(w: Seq<char>, rest: Seq<char>)
    requires
        w.len() > 0,
        forall|k: int| 0 <= k < w.len() ==> !is_ws(#[trigger] w[k]),
        rest.len() == 0 || rest[0] == ' ',
    ensures
        command_word(w + rest) == w,
{
    let s = w + rest;
    assert(s[0] == w[0]);
    assert(ws_prefix_end(s, 0) == 0);
    assert(trim_start(s) =~= s);
    assert(s[w.len() - 1] == w[w.len() - 1]);
    lemma_ws_suffix_start_at_least(s, w.len() as int, s.len() as int);
    let e = ws_suffix_start(s, s.len() as int);
    let t = trim(s);
    assert(t == trim_end(s));
    assert(t =~= s.take(e));
    assert forall|k: int| 0 <= k < w.len() implies t[k] == w[k] && w[k] != ' ' by {
        assert(!is_ws(w[k]));
    }
    if t.len() > w.len() {
        assert(t[w.len() as int] == rest[0]);
    }
    lemma_space_index_word(t, w, 0);
    assert(t.take(w.len() as int) =~= w);
}

/// The command words, each alone or followed by a space and more: `q` and
/// `quit` quit; `w`, `save` and `wq` save; `new` starts a note; `search`
/// searches the vault; `e` and `open` open the file finder. Anything else
/// does nothing.
pub proof fn law_command_words(rest: Seq<char>)
    requires
        rest.len() == 0 || rest[0] == ' ',
    ensures
        command_action(command_word("q"@ + rest)) == Action::Quit,
        command_action(command_word("quit"@ + rest)) == Action::Quit,
        command_action(command_word("w"@ + rest)) == Action::Save,
        command_action(command_word("save"@ + rest)) == Action::Save,
        command_action(command_word("wq"@ + rest)) == Action::Save,
        command_action(command_word("new"@ + rest)) == Action::NewNote,
        command_action(command_word("search"@ + rest)) == Action::SearchVault,
        command_action(command_word("e"@ + rest)) == Action::FindFile,
        command_action(command_word("open"@ + rest)) == Action::FindFile,
        command_action(command_word("x"@ + rest)) == Action::NoOp,
{
    reveal_strlit("q");
    reveal_strlit("quit");
    reveal_strlit("w");
    reveal_strlit("save");
    reveal_strlit("wq");
    reveal_strlit("new");
    reveal_strlit("search");
    reveal_strlit("e");
    reveal_strlit("open");
    reveal_strlit("x");
    lemma_command_word_of("q"@, rest);
    lemma_command_word_of("quit"@, rest);
    lemma_command_word_of("w"@, rest);
    lemma_command_word_of("save"@, rest);
    lemma_command_word_of("wq"@, rest);
    lemma_command_word_of("new"@, rest);
    lemma_command_word_of("search"@, rest);
    lemma_command_word_of("e"@, rest);
    lemma_command_word_of("open"@, rest);
    lemma_command_word_of("x"@, rest);
}

/// The command word of `cmd` (see [`command_word`]).
fn command_word_chars(cmd: &str) -> (w: Vec<char>)
    ensures
        w@ == command_word(cmd@),
{
    let v = chars_of(cmd);
    let t = trim_chars(v.as_slice());
    let mut k: usize = 0;
    while k < t.len() && t[k] != ' '
        invariant
            k <= t@.len(),
            space_index(t@, k as int) == space_index(t@, 0),
        decreases t@.len() - k,
    {
        k = k + 1;
    }
    let w = sub_chars(t.as_slice(), 0, k);
    assert(w@ == command_word(cmd@));
    w
}

/// Whether a command line asks to save and then quit (`wq`).
pub open spec fn writes_and_quits(cmd: Seq<char>) -> bool {
    command_word(cmd) == "wq"@
}

/// Whether the command line `cmd` is `wq`: its save is to be followed by
/// closing the window.
pub fn is_write_quit(cmd: &str) -> (b: bool)
    ensures
        b == writes_and_quits(cmd@),
{
    let w = command_word_chars(cmd);
    word_is(w.as_slice(), "wq")
}

/// Parse a command string (from `:` mode) into an action. Only the first
/// word counts: `new My Note` is a `NewNote`, and `wq` saves (the quit that
/// follows is [`is_write_quit`]'s to tell).
pub fn parse_command(cmd: &str) -> (a: Action)
    ensures
        a == command_action(command_word(cmd@)),
{
    let w = command_word_chars(cmd);
    if word_is(w.as_slice(), "q") || word_is(w.as_slice(), "quit") {
        Action::Quit
    } else if word_is(w.as_slice(), "w") || word_is(w.as_slice(), "save") || word_is(
        w.as_slice(),
        "wq",
    ) {
        Action::Save
    } else if word_is(w.as_slice(), "new") {
        Action::NewNote
    } else if word_is(w.as_slice(), "search") {
        Action::SearchVault
    } else if word_is(w.as_slice(), "e") || word_is(w.as_slice(), "open") {
        Action::FindFile
    } else {
        Action::NoOp
    }
}

} // verus!
