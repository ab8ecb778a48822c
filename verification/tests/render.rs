use hikki::editor::EditorBuffer;
use hikki::input::Mode;
use hikki::render::{preview_lines, shown_preview, ViewState};

/// Lines that fit a 720-pixel window with a 40-pixel status bar and
/// 24-pixel lines, as the renderer computes them.
fn visible_lines() -> usize {
    let editor_height = 720u32.saturating_sub(40) as f32;
    (editor_height / 24.0).floor() as usize
}

#[test]
fn view_state_defaults() {
    let state = ViewState::default();
    assert_eq!(state.mode, Mode::Normal);
    assert_eq!(state.scroll_offset, 0);
    assert!(!state.show_preview);
    assert!(state.show_note_list);
    assert!(state.note_list.is_empty());
}

#[test]
fn renderer_ensure_cursor_visible_below() {
    let mut state = ViewState::default();
    state.buffer = EditorBuffer::from_text(&"line\n".repeat(100));
    state.buffer.set_cursor(50, 0);
    state.ensure_cursor_visible(visible_lines());
    assert!(state.scroll_offset > 0);
    assert!(state.scroll_offset <= 50);
}

#[test]
fn renderer_ensure_cursor_visible_above() {
    let mut state = ViewState::default();
    state.buffer = EditorBuffer::from_text(&"line\n".repeat(100));
    state.scroll_offset = 50;
    state.buffer.set_cursor(10, 0);
    state.ensure_cursor_visible(visible_lines());
    assert_eq!(state.scroll_offset, 10);
}

#[test]
fn scrolling_is_minimal() {
    let mut state = ViewState::default();
    state.buffer = EditorBuffer::from_text(&"line\n".repeat(100));
    state.buffer.set_cursor(50, 0);
    state.ensure_cursor_visible(28);
    assert_eq!(state.scroll_offset, 50 + 1 - 28);
    // Already visible: nothing moves.
    state.buffer.set_cursor(30, 0);
    state.ensure_cursor_visible(28);
    assert_eq!(state.scroll_offset, 23);
    // A zero-line window leaves the offset alone.
    state.buffer.set_cursor(0, 0);
    state.ensure_cursor_visible(0);
    assert_eq!(state.scroll_offset, 23);
}

#[test]
fn status_line_texts() {
    let mut state = ViewState::default();
    state.buffer = EditorBuffer::from_text("a\nb\nc");
    state.buffer.set_cursor(1, 1);
    assert_eq!(state.status_line(), " NORMAL | untitled | 2:2 | 3 lines");
    state.buffer.set_file_path("notes/x");
    state.buffer.insert_char('z');
    state.mode = Mode::Insert;
    assert_eq!(state.status_line(), " INSERT | [+] notes/x | 2:3 | 3 lines");
    state.search_query = "q".to_string();
    assert_eq!(state.status_line(), " INSERT | [+] notes/x | 2:3 | 3 lines");
    state.mode = Mode::Search;
    assert_eq!(state.status_line(), "/q");
    state.command_text = "wq".to_string();
    assert_eq!(state.status_line(), ":wq");
}

#[test]
fn status_line_large_numbers() {
    let mut state = ViewState::default();
    state.buffer = EditorBuffer::from_text(&"\n".repeat(1234));
    state.buffer.set_cursor(1233, 0);
    assert_eq!(state.status_line(), " NORMAL | untitled | 1234:1 | 1235 lines");
}

#[test]
fn editor_rows_number_and_show_lines() {
    let mut state = ViewState::default();
    state.buffer = EditorBuffer::from_text("one\n\nthree");
    state.buffer.set_cursor(2, 0);
    state.scroll_offset = 1;
    let rows = state.editor_rows(10);
    assert_eq!(rows.len(), 2);
    assert_eq!(rows[0].number, "   2");
    assert_eq!(rows[0].text, " ");
    assert!(!rows[0].current);
    assert_eq!(rows[1].number, "   3");
    assert_eq!(rows[1].text, "three");
    assert!(rows[1].current);
    assert_eq!(state.editor_rows(1).len(), 1);
}

#[test]
fn editor_rows_wide_numbers_are_not_cut() {
    let mut state = ViewState::default();
    state.buffer = EditorBuffer::from_text(&"x\n".repeat(10_005));
    state.scroll_offset = 10_000;
    let rows = state.editor_rows(2);
    assert_eq!(rows[0].number, "10001");
}

#[test]
fn note_list_rows_mark_the_selection() {
    let mut state = ViewState::default();
    state.note_list = vec!["A".to_string(), "B".to_string(), "C".to_string()];
    state.note_list_selected = 1;
    assert_eq!(state.note_list_rows(2), vec!["  A", "> B"]);
}

#[test]
fn shown_preview_skips_empty_lines_within_the_window() {
    let lines = vec![
        vec![("Title".to_string(), true)],
        vec![],
        vec![("".to_string(), false)],
        vec![("body".to_string(), false)],
        vec![("late".to_string(), false)],
    ];
    let shown = shown_preview(&lines, 4);
    assert_eq!(shown, vec![vec![("Title".to_string(), true)], vec![("body".to_string(), false)]]);
}

#[test]
fn preview_lines_parse_the_body() {
    let lines = preview_lines("---\ntitle: t\n---\n# Heading\n\nplain **bold**\n", 20);
    assert!(!lines.is_empty());
    assert_eq!(lines[0].iter().map(|s| s.0.as_str()).collect::<String>(), "Heading");
    assert!(lines[0].iter().all(|s| s.1));
    let last = lines.last().unwrap();
    assert!(last.iter().any(|s| s.0 == "bold" && s.1));
    assert!(last.iter().any(|s| s.0.contains("plain") && !s.1));
    assert!(lines.iter().all(|l| l.iter().all(|s| !s.0.contains("title: t"))));
}
