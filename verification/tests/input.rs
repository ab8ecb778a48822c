use hikki::input::{is_write_quit, parse_command, Action, InputHandler, KeyCode, Modifiers, Mode};

fn no_mods() -> Modifiers {
    Modifiers::default()
}

fn ctrl() -> Modifiers {
    Modifiers { ctrl: true, ..Default::default() }
}

#[test]
fn default_mode_is_normal() {
    let handler = InputHandler::new();
    assert_eq!(handler.mode(), Mode::Normal);
}

#[test]
fn normal_hjkl_movement() {
    let mut handler = InputHandler::new();
    assert_eq!(handler.handle_key(KeyCode::Char('h'), no_mods()), Action::MoveLeft);
    assert_eq!(handler.handle_key(KeyCode::Char('j'), no_mods()), Action::MoveDown);
    assert_eq!(handler.handle_key(KeyCode::Char('k'), no_mods()), Action::MoveUp);
    assert_eq!(handler.handle_key(KeyCode::Char('l'), no_mods()), Action::MoveRight);
}

#[test]
fn normal_word_movement() {
    let mut handler = InputHandler::new();
    assert_eq!(handler.handle_key(KeyCode::Char('w'), no_mods()), Action::MoveWordForward);
    assert_eq!(handler.handle_key(KeyCode::Char('b'), no_mods()), Action::MoveWordBackward);
}

#[test]
fn normal_line_start_end() {
    let mut handler = InputHandler::new();
    assert_eq!(handler.handle_key(KeyCode::Char('0'), no_mods()), Action::MoveLineStart);
    assert_eq!(handler.handle_key(KeyCode::Char('$'), no_mods()), Action::MoveLineEnd);
}

#[test]
fn normal_gg_doc_start() {
    let mut handler = InputHandler::new();
    assert_eq!(handler.handle_key(KeyCode::Char('g'), no_mods()), Action::NoOp);
    assert_eq!(handler.handle_key(KeyCode::Char('g'), no_mods()), Action::MoveDocStart);
}

#[test]
fn normal_g_doc_end() {
    let mut handler = InputHandler::new();
    assert_eq!(handler.handle_key(KeyCode::Char('G'), no_mods()), Action::MoveDocEnd);
}

#[test]
fn normal_dd_delete_line() {
    let mut handler = InputHandler::new();
    assert_eq!(handler.handle_key(KeyCode::Char('d'), no_mods()), Action::NoOp);
    assert_eq!(handler.handle_key(KeyCode::Char('d'), no_mods()), Action::DeleteLine);
}

#[test]
fn enter_insert_mode() {
    let mut handler = InputHandler::new();
    assert_eq!(handler.handle_key(KeyCode::Char('i'), no_mods()), Action::EnterInsertMode);
    assert_eq!(handler.mode(), Mode::Insert);
}

#[test]
fn exit_insert_to_normal() {
    let mut handler = InputHandler::new();
    handler.set_mode(Mode::Insert);
    assert_eq!(handler.handle_key(KeyCode::Escape, no_mods()), Action::ExitToNormal);
    assert_eq!(handler.mode(), Mode::Normal);
}

#[test]
fn insert_mode_typing() {
    let mut handler = InputHandler::new();
    handler.set_mode(Mode::Insert);
    assert_eq!(handler.handle_key(KeyCode::Char('a'), no_mods()), Action::InsertChar('a'));
    assert_eq!(handler.handle_key(KeyCode::Enter, no_mods()), Action::InsertNewline);
    assert_eq!(handler.handle_key(KeyCode::Backspace, no_mods()), Action::DeleteBack);
}

#[test]
fn ctrl_d_u_half_page() {
    let mut handler = InputHandler::new();
    assert_eq!(handler.handle_key(KeyCode::Char('d'), ctrl()), Action::MoveHalfPageDown);
    assert_eq!(handler.handle_key(KeyCode::Char('u'), ctrl()), Action::MoveHalfPageUp);
}

#[test]
fn ctrl_s_save() {
    let mut handler = InputHandler::new();
    assert_eq!(handler.handle_key(KeyCode::Char('s'), ctrl()), Action::Save);
}

#[test]
fn input_undo_redo() {
    let mut handler = InputHandler::new();
    assert_eq!(handler.handle_key(KeyCode::Char('u'), no_mods()), Action::Undo);
    assert_eq!(handler.handle_key(KeyCode::Char('r'), ctrl()), Action::Redo);
}

#[test]
fn leader_key_sequences() {
    let mut handler = InputHandler::new();
    assert_eq!(handler.handle_key(KeyCode::Space, no_mods()), Action::NoOp);
    assert_eq!(handler.handle_key(KeyCode::Char('f'), no_mods()), Action::FindFile);

    assert_eq!(handler.handle_key(KeyCode::Space, no_mods()), Action::NoOp);
    assert_eq!(handler.handle_key(KeyCode::Char('s'), no_mods()), Action::SearchVault);

    assert_eq!(handler.handle_key(KeyCode::Space, no_mods()), Action::NoOp);
    assert_eq!(handler.handle_key(KeyCode::Char('p'), no_mods()), Action::TogglePreview);
}

#[test]
fn visual_mode() {
    let mut handler = InputHandler::new();
    assert_eq!(handler.handle_key(KeyCode::Char('v'), no_mods()), Action::EnterVisualMode);
    assert_eq!(handler.mode(), Mode::Visual);

    assert_eq!(handler.handle_key(KeyCode::Char('y'), no_mods()), Action::YankSelection);
    assert_eq!(handler.mode(), Mode::Normal);
}

#[test]
fn command_mode() {
    let mut handler = InputHandler::new();
    handler.handle_key(KeyCode::Char(':'), no_mods());
    assert_eq!(handler.mode(), Mode::Command);

    handler.handle_key(KeyCode::Char('q'), no_mods());
    assert_eq!(handler.command_buf(), "q");

    assert_eq!(handler.handle_key(KeyCode::Enter, no_mods()), Action::CommandSubmit);
    assert_eq!(handler.mode(), Mode::Normal);
}

#[test]
fn search_mode() {
    let mut handler = InputHandler::new();
    handler.handle_key(KeyCode::Char('/'), no_mods());
    assert_eq!(handler.mode(), Mode::Search);

    handler.handle_key(KeyCode::Char('t'), no_mods());
    handler.handle_key(KeyCode::Char('e'), no_mods());
    handler.handle_key(KeyCode::Char('s'), no_mods());
    handler.handle_key(KeyCode::Char('t'), no_mods());
    assert_eq!(handler.search_buf(), "test");

    assert_eq!(handler.handle_key(KeyCode::Enter, no_mods()), Action::SearchSubmit);
}

#[test]
fn parse_command_quit() {
    assert_eq!(parse_command("q"), Action::Quit);
    assert_eq!(parse_command("quit"), Action::Quit);
}

#[test]
fn parse_command_save() {
    assert_eq!(parse_command("w"), Action::Save);
    assert_eq!(parse_command("save"), Action::Save);
}

#[test]
fn parse_command_new() {
    assert_eq!(parse_command("new My Note"), Action::NewNote);
}

#[test]
fn mode_labels() {
    assert_eq!(Mode::Normal.label(), "NORMAL");
    assert_eq!(Mode::Insert.label(), "INSERT");
    assert_eq!(Mode::Visual.label(), "VISUAL");
    assert_eq!(Mode::Command.label(), "COMMAND");
    assert_eq!(Mode::Search.label(), "SEARCH");
}

#[test]
fn gd_follow_link() {
    let mut handler = InputHandler::new();
    handler.handle_key(KeyCode::Char('g'), no_mods());
    assert_eq!(handler.handle_key(KeyCode::Char('d'), no_mods()), Action::FollowLink);
}

#[test]
fn open_line_enters_insert() {
    let mut handler = InputHandler::new();
    assert_eq!(handler.handle_key(KeyCode::Char('o'), no_mods()), Action::OpenLineBelow);
    assert_eq!(handler.mode(), Mode::Insert);
}

#[test]
fn parse_command_unknown_and_wq() {
    assert_eq!(parse_command("wq"), Action::Save);
    assert_eq!(parse_command("  quit  now"), Action::Quit);
    assert_eq!(parse_command("frobnicate"), Action::NoOp);
    assert_eq!(parse_command(""), Action::NoOp);
}

#[test]
fn command_backspace_and_cancel() {
    let mut handler = InputHandler::new();
    handler.handle_key(KeyCode::Char(':'), no_mods());
    handler.handle_key(KeyCode::Char('w'), no_mods());
    handler.handle_key(KeyCode::Char('x'), no_mods());
    handler.handle_key(KeyCode::Backspace, no_mods());
    assert_eq!(handler.command_buf(), "w");
    assert_eq!(handler.handle_key(KeyCode::Escape, no_mods()), Action::CommandCancel);
    assert_eq!(handler.mode(), Mode::Normal);
}

#[test]
fn leader_then_other_key_is_noop() {
    let mut handler = InputHandler::new();
    assert_eq!(handler.handle_key(KeyCode::Space, no_mods()), Action::NoOp);
    assert_eq!(handler.handle_key(KeyCode::Char('z'), no_mods()), Action::NoOp);
    // the pending leader is consumed: 'j' moves again
    assert_eq!(handler.handle_key(KeyCode::Char('j'), no_mods()), Action::MoveDown);
}

#[test]
fn escape_returns_to_normal_from_every_mode() {
    for keys in [
        vec![],
        vec![KeyCode::Char('i')],
        vec![KeyCode::Char('v')],
        vec![KeyCode::Char(':'), KeyCode::Char('x')],
        vec![KeyCode::Char('/'), KeyCode::Char('y')],
        vec![KeyCode::Space],
        vec![KeyCode::Char('g')],
    ] {
        let mut handler = InputHandler::new();
        for k in keys {
            handler.handle_key(k, no_mods());
        }
        handler.handle_key(KeyCode::Escape, no_mods());
        assert_eq!(handler.mode(), Mode::Normal);
    }
}

#[test]
fn write_quit_is_told_apart_from_write() {
    assert!(is_write_quit("wq"));
    assert!(is_write_quit("  wq extra"));
    assert!(!is_write_quit("w"));
    assert!(!is_write_quit("q"));
    assert!(!is_write_quit("wqa"));
    assert_eq!(parse_command("wq"), Action::Save);
}

#[test]
fn backspace_keeps_search_mode() {
    let mut h = InputHandler::new();
    let no = Modifiers::default();
    h.handle_key(KeyCode::Char('/'), no);
    h.handle_key(KeyCode::Char('x'), no);
    assert_eq!(h.handle_key(KeyCode::Backspace, no), Action::NoOp);
    assert_eq!(h.search_buf(), "");
    assert_eq!(h.mode(), Mode::Search);
    assert_eq!(h.handle_key(KeyCode::Backspace, no), Action::NoOp);
    assert_eq!(h.mode(), Mode::Search);
}
