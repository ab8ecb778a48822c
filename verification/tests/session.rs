use hikki::editor::Cursor;
use hikki::input::{Action, KeyCode, Modifiers, Mode};
use hikki::session::{Effect, Session};

fn key(s: &mut Session, k: KeyCode) -> Effect {
    s.on_key(k, Modifiers::default(), 20)
}

fn ch(s: &mut Session, c: char) -> Effect {
    key(s, KeyCode::Char(c))
}

fn type_str(s: &mut Session, text: &str) {
    for c in text.chars() {
        ch(s, c);
    }
}

#[test]
fn typing_in_insert_mode_edits_the_buffer() {
    let mut s = Session::start(vec![], false);
    ch(&mut s, 'i');
    s.settle(20);
    assert_eq!(s.state.mode, Mode::Insert);
    type_str(&mut s, "hi");
    key(&mut s, KeyCode::Enter);
    assert_eq!(s.state.buffer.text(), "hi\n");
    assert_eq!(s.state.buffer.cursor(), Cursor::new(1, 0));
    key(&mut s, KeyCode::Escape);
    s.settle(20);
    assert_eq!(s.state.mode, Mode::Normal);
}

#[test]
fn quit_and_save_commands() {
    let mut s = Session::start(vec![], false);
    s.open_note("my-note", "body");
    ch(&mut s, ':');
    type_str(&mut s, "w");
    assert_eq!(s.state.command_text, "w");
    match key(&mut s, KeyCode::Enter) {
        Effect::Save { id, content, reindex, quit } => {
            assert_eq!(id, "my-note");
            assert_eq!(content, "body");
            assert!(!reindex);
            assert!(!quit);
        },
        _ => panic!("expected a save request"),
    }
    assert!(s.state.command_text.is_empty());
    s.note_saved();
    assert_eq!(s.state.status_message, "Saved.");
    ch(&mut s, ':');
    ch(&mut s, 'q');
    assert!(matches!(key(&mut s, KeyCode::Enter), Effect::Quit));
}

#[test]
fn write_quit_saves_then_quits() {
    let mut s = Session::start(vec![], false);
    s.open_note("my-note", "body");
    ch(&mut s, ':');
    type_str(&mut s, "wq");
    match key(&mut s, KeyCode::Enter) {
        Effect::Save { id, content, reindex, quit } => {
            assert_eq!(id, "my-note");
            assert_eq!(content, "body");
            assert!(!reindex);
            assert!(quit);
        },
        _ => panic!("expected a save request that quits"),
    }
    assert!(s.state.command_text.is_empty());
}

#[test]
fn write_quit_without_a_note_does_nothing() {
    let mut s = Session::start(vec![], false);
    ch(&mut s, ':');
    type_str(&mut s, "wq");
    assert!(matches!(key(&mut s, KeyCode::Enter), Effect::Nothing));
}

#[test]
fn start_leaves_no_key_prefix_armed() {
    let mut s = Session::start(vec!["a".to_string()], true);
    assert!(s.state.status_message.is_empty());
    assert!(s.state.command_text.is_empty());
    assert!(s.state.search_query.is_empty());
    assert!(s.state.backlinks.is_empty());
    ch(&mut s, 'i');
    s.settle(20);
    assert_eq!(s.state.mode, Mode::Insert);
}

#[test]
fn ctrl_s_asks_to_save_and_reindex() {
    let mut s = Session::start(vec![], false);
    let ctrl = Modifiers { ctrl: true, ..Default::default() };
    assert!(matches!(s.on_key(KeyCode::Char('s'), ctrl, 20), Effect::Nothing));
    s.open_note("n", "x");
    match s.on_key(KeyCode::Char('s'), ctrl, 20) {
        Effect::Save { id, reindex, quit, .. } => {
            assert_eq!(id, "n");
            assert!(reindex);
            assert!(!quit);
        },
        _ => panic!("expected a save request"),
    }
}

#[test]
fn follow_link_on_cursor_line() {
    let mut s = Session::start(vec![], false);
    s.open_note("a", "intro\nsee [[Other Note|there]] and [[x]]\n");
    ch(&mut s, 'j');
    ch(&mut s, 'g');
    match ch(&mut s, 'd') {
        Effect::FollowLink { target } => assert_eq!(target, "other note"),
        _ => panic!("expected a link to follow"),
    }
    // No link on the first line.
    ch(&mut s, 'k');
    ch(&mut s, 'g');
    assert!(matches!(ch(&mut s, 'd'), Effect::Nothing));
}

#[test]
fn search_submit_asks_for_the_first_match() {
    let mut s = Session::start(vec![], false);
    ch(&mut s, '/');
    type_str(&mut s, "meet");
    match key(&mut s, KeyCode::Enter) {
        Effect::OpenFirstMatch { query } => assert_eq!(query, "meet"),
        _ => panic!("expected a search request"),
    }
    ch(&mut s, '/');
    key(&mut s, KeyCode::Escape);
    assert!(s.state.search_query.is_empty());
}

#[test]
fn yank_and_paste_through_the_clipboard() {
    let mut s = Session::start(vec![], false);
    s.open_note("n", "one\ntwo");
    ch(&mut s, 'y');
    ch(&mut s, 'y');
    assert_eq!(s.clipboard, "one\n");
    ch(&mut s, 'p');
    assert_eq!(s.state.buffer.text(), "one\none\ntwo");
}

#[test]
fn start_fills_the_note_list() {
    let s = Session::start(vec!["A".to_string(), "B".to_string()], true);
    assert_eq!(s.state.note_list, vec!["A", "B"]);
    assert!(s.state.show_preview);
    assert!(s.state.show_note_list);
    assert_eq!(s.state.buffer.text(), "");
    assert!(s.clipboard.is_empty());
}

#[test]
fn new_note_from_leader() {
    let mut s = Session::start(vec![], false);
    key(&mut s, KeyCode::Space);
    ch(&mut s, 'n');
    assert_eq!(s.state.buffer.text(), "---\ntitle: Untitled\ntags: []\n---\n\n# Untitled\n\n");
    assert_eq!(s.state.buffer.cursor(), Cursor::new(6, 0));
    assert_eq!(s.state.mode, Mode::Insert);
    // The shown mode follows the key handler once the key is settled.
    s.settle(20);
    assert_eq!(s.state.mode, Mode::Normal);
}

#[test]
fn settle_scrolls_to_the_cursor() {
    let mut s = Session::start(vec![], false);
    s.open_note("n", &"l\n".repeat(60));
    ch(&mut s, 'G');
    s.settle(20);
    assert_eq!(s.state.scroll_offset, 60 + 1 - 20);
}

#[test]
fn fits_guards_and_apply_runs_actions() {
    let mut s = Session::start(vec![], false);
    s.open_note("n", "abc def");
    assert!(s.fits(Action::DeleteLine, 20));
    assert!(s.fits(Action::MoveHalfPageDown, 20));
    s.apply(Action::MoveWordForward, 20);
    assert_eq!(s.state.buffer.cursor(), Cursor::new(0, 4));
    s.apply(Action::DeleteLine, 20);
    assert_eq!(s.state.buffer.text(), "");
    s.apply(Action::Undo, 20);
    assert_eq!(s.state.buffer.text(), "abc def");
}

#[test]
fn visual_moves_drop_the_selection() {
    let mut s = Session::start(vec![], false);
    s.open_note("n", "hello world");
    ch(&mut s, 'v');
    assert!(s.state.buffer.selection().is_some());
    // A cursor move ends the selection, so the yank finds nothing to copy.
    ch(&mut s, 'l');
    assert!(s.state.buffer.selection().is_none());
    ch(&mut s, 'y');
    assert_eq!(s.clipboard, "");
    assert_eq!(s.state.buffer.cursor(), Cursor::new(0, 1));
}
